use ospfd::instance::setup::{dispatch_target, set_owner};
use ospfd::io::RxPacket;
use tokio::sync::mpsc;

fn ip(a: u8, b: u8, c: u8, d: u8) -> u32 {
    u32::from_be_bytes([a, b, c, d])
}

fn rx_pkt(sw_if_index: u32) -> RxPacket {
    RxPacket { sw_if_index, src_addr: ip(10, 0, 0, 1), dst_addr: ip(224, 0, 0, 5), data: vec![] }
}

fn dispatch_one(
    owners: &Vec<(u32, usize)>,
    senders: &[mpsc::Sender<RxPacket>],
    packet: RxPacket,
) -> Option<usize> {
    let idx = dispatch_target(owners, packet.sw_if_index)?;
    senders.get(idx)?.try_send(packet).ok()?;
    Some(idx)
}

#[test]
fn dispatch_routes_by_sw_if_index() {
    let (tx0, mut rx0) = mpsc::channel::<RxPacket>(8);
    let (tx1, mut rx1) = mpsc::channel::<RxPacket>(8);
    let senders = vec![tx0, tx1];
    let mut owners = Vec::new();
    set_owner(&mut owners, 7, 0);
    set_owner(&mut owners, 9, 1);

    assert_eq!(dispatch_one(&owners, &senders, rx_pkt(7)), Some(0));
    assert_eq!(dispatch_one(&owners, &senders, rx_pkt(9)), Some(1));
    // An unknown interface: dropped.
    assert_eq!(dispatch_one(&owners, &senders, rx_pkt(42)), None);

    let p0 = rx0.try_recv().expect("idx 0 should have received its pkt");
    assert_eq!(p0.sw_if_index, 7);
    assert!(rx0.try_recv().is_err());

    let p1 = rx1.try_recv().expect("idx 1 should have received its pkt");
    assert_eq!(p1.sw_if_index, 9);
    assert!(rx1.try_recv().is_err());
}

#[test]
fn dispatch_when_receiver_dropped_returns_none() {
    let (tx0, rx0) = mpsc::channel::<RxPacket>(1);
    drop(rx0);
    let senders = vec![tx0];
    let mut owners = Vec::new();
    set_owner(&mut owners, 7, 0);

    assert_eq!(dispatch_one(&owners, &senders, rx_pkt(7)), None);
}

#[test]
fn last_owner_of_an_interface_wins() {
    let mut owners = Vec::new();
    set_owner(&mut owners, 7, 0);
    set_owner(&mut owners, 7, 3);
    assert_eq!(dispatch_target(&owners, 7), Some(3));
}
