use ospfd::lsdb::{InstallResult, Lsdb};
use ospfd::packet::lsa::{
    Lsa, LsaBody, LsaHeader, LsaKey, LsaType, RouterLink, RouterLinkType, RouterLsa,
    INITIAL_SEQUENCE_NUMBER,
};

fn ip(a: u8, b: u8, c: u8, d: u8) -> u32 {
    u32::from_be_bytes([a, b, c, d])
}

fn stub_link() -> RouterLink {
    RouterLink {
        link_id: ip(10, 0, 0, 0),
        link_data: ip(255, 255, 255, 0),
        link_type: RouterLinkType::StubNetwork,
        num_tos: 0,
        metric: 10,
    }
}

fn make_router_lsa(router_id: u32, seq: i32) -> Lsa {
    Lsa {
        header: LsaHeader {
            ls_age: 0,
            options: 0x02,
            ls_type: LsaType::Router,
            link_state_id: router_id,
            advertising_router: router_id,
            ls_sequence_number: seq,
            ls_checksum: 0,
            length: 36,
        },
        body: LsaBody::Router(RouterLsa { flags: 0, links: vec![stub_link()] }),
    }
}

#[test]
fn test_install_new_lsa() {
    let mut lsdb = Lsdb::new(ip(1, 1, 1, 1));
    let lsa = make_router_lsa(ip(2, 2, 2, 2), INITIAL_SEQUENCE_NUMBER);
    let result = lsdb.install(lsa, 0);
    assert_eq!(result, InstallResult::New);
    assert_eq!(lsdb.len(), 1);
}

#[test]
fn test_install_newer_replaces() {
    let mut lsdb = Lsdb::new(ip(1, 1, 1, 1));
    let lsa1 = make_router_lsa(ip(2, 2, 2, 2), INITIAL_SEQUENCE_NUMBER);
    let lsa2 = make_router_lsa(ip(2, 2, 2, 2), INITIAL_SEQUENCE_NUMBER + 1);
    lsdb.install(lsa1, 0);
    let result = lsdb.install(lsa2, 0);
    assert_eq!(result, InstallResult::Updated);
    assert_eq!(lsdb.len(), 1);
}

#[test]
fn test_install_older_rejected() {
    let mut lsdb = Lsdb::new(ip(1, 1, 1, 1));
    let lsa1 = make_router_lsa(ip(2, 2, 2, 2), INITIAL_SEQUENCE_NUMBER + 1);
    let lsa2 = make_router_lsa(ip(2, 2, 2, 2), INITIAL_SEQUENCE_NUMBER);
    lsdb.install(lsa1, 0);
    let result = lsdb.install(lsa2, 0);
    assert_eq!(result, InstallResult::Older);
}

#[test]
fn test_install_duplicate() {
    let mut lsdb = Lsdb::new(ip(1, 1, 1, 1));
    let lsa = make_router_lsa(ip(2, 2, 2, 2), INITIAL_SEQUENCE_NUMBER);
    lsdb.install(lsa.duplicate(), 0);
    let result = lsdb.install(lsa, 0);
    assert_eq!(result, InstallResult::Duplicate);
}

#[test]
fn test_all_headers() {
    let mut lsdb = Lsdb::new(ip(1, 1, 1, 1));
    lsdb.install(make_router_lsa(ip(2, 2, 2, 2), INITIAL_SEQUENCE_NUMBER), 0);
    lsdb.install(make_router_lsa(ip(3, 3, 3, 3), INITIAL_SEQUENCE_NUMBER), 0);
    let headers = lsdb.all_headers(0);
    assert_eq!(headers.len(), 2);
}

#[test]
fn test_originate_router_lsa() {
    let mut lsdb = Lsdb::new(ip(1, 1, 1, 1));
    let lsa = lsdb.originate_router_lsa(ip(1, 1, 1, 1), 0, 0, vec![stub_link()], 0x02, 0);
    assert_eq!(lsa.header.ls_sequence_number, INITIAL_SEQUENCE_NUMBER);
    assert_eq!(lsdb.len(), 1);

    let lsa2 = lsdb.originate_router_lsa(ip(1, 1, 1, 1), 0, 0, vec![], 0x02, 0);
    assert_eq!(lsa2.header.ls_sequence_number, INITIAL_SEQUENCE_NUMBER + 1);
}

fn key_of(router_id: u32) -> LsaKey {
    LsaKey { ls_type: LsaType::Router, link_state_id: router_id, advertising_router: router_id }
}

#[test]
fn lsas_age_and_expire() {
    let mut lsdb = Lsdb::new(ip(1, 1, 1, 1));
    lsdb.install(make_router_lsa(ip(2, 2, 2, 2), INITIAL_SEQUENCE_NUMBER), 1_000);
    let e = lsdb.get(&key_of(ip(2, 2, 2, 2))).unwrap();
    assert_eq!(e.current_age(1_000), 0);
    assert_eq!(e.current_age(1_999), 0);
    assert_eq!(e.current_age(11_000), 10);
    assert_eq!(e.current_age(4_000_000), 3600);
    assert!(!e.is_max_age(3_600_999));
    assert!(e.is_max_age(3_601_000));
    assert_eq!(lsdb.as_lsa_map(11_000)[0].header.ls_age, 10);
    assert_eq!(lsdb.flush_max_age(3_600_999).len(), 0);
    assert_eq!(lsdb.flush_max_age(3_601_000), vec![key_of(ip(2, 2, 2, 2))]);
    assert!(lsdb.is_empty());
}

#[test]
fn flushing_hands_each_key_out_once() {
    let mut lsdb = Lsdb::new(ip(1, 1, 1, 1));
    lsdb.install(make_router_lsa(ip(2, 2, 2, 2), INITIAL_SEQUENCE_NUMBER), 0);
    lsdb.install(make_router_lsa(ip(3, 3, 3, 3), INITIAL_SEQUENCE_NUMBER), 9_000);
    lsdb.install(make_router_lsa(ip(4, 4, 4, 4), INITIAL_SEQUENCE_NUMBER), 0);
    let gone = lsdb.flush_max_age(3_600_000);
    assert_eq!(gone, vec![key_of(ip(2, 2, 2, 2)), key_of(ip(4, 4, 4, 4))]);
    assert!(gone.iter().all(|k| lsdb.get(k).is_none()));
    assert!(lsdb.get(&key_of(ip(3, 3, 3, 3))).is_some());
    assert_eq!(lsdb.flush_max_age(3_600_000).len(), 0);
}

#[test]
fn own_lsas_are_refreshed_halfway() {
    let mut lsdb = Lsdb::new(ip(1, 1, 1, 1));
    lsdb.install(make_router_lsa(ip(1, 1, 1, 1), INITIAL_SEQUENCE_NUMBER), 0);
    lsdb.install(make_router_lsa(ip(2, 2, 2, 2), INITIAL_SEQUENCE_NUMBER), 0);
    assert_eq!(lsdb.self_originated_due_for_refresh(1_799_999).len(), 0);
    assert_eq!(lsdb.self_originated_due_for_refresh(1_800_000), vec![key_of(ip(1, 1, 1, 1))]);
}

#[test]
fn removed_lsas_are_gone() {
    let mut lsdb = Lsdb::new(ip(1, 1, 1, 1));
    lsdb.install(make_router_lsa(ip(2, 2, 2, 2), INITIAL_SEQUENCE_NUMBER), 0);
    assert!(lsdb.remove(&key_of(ip(3, 3, 3, 3))).is_none());
    assert!(lsdb.remove(&key_of(ip(2, 2, 2, 2))).is_some());
    assert!(lsdb.get(&key_of(ip(2, 2, 2, 2))).is_none());
}

#[test]
fn an_lsa_outranks_what_others_remember_of_it() {
    let me = ip(1, 1, 1, 1);
    let key = LsaKey { ls_type: LsaType::Router, link_state_id: me, advertising_router: me };
    let mut lsdb = Lsdb::new(me);
    lsdb.originate_router_lsa(me, 0, 0, vec![stub_link()], 2, 0);
    let remembered = INITIAL_SEQUENCE_NUMBER + 40;
    assert!(lsdb.bump_seq(&key, remembered));
    assert!(!lsdb.bump_seq(&key, remembered));
    let next = lsdb.originate_router_lsa(me, 0, 0, vec![stub_link()], 2, 0);
    assert_eq!(next.header.ls_sequence_number, remembered + 1);
    let other = LsaKey { link_state_id: 9, ..key };
    assert!(!lsdb.bump_seq(&other, remembered));
}

#[test]
fn ages_stop_at_the_maximum_however_long_it_takes() {
    let mut db = Lsdb::new(ip(9, 9, 9, 9));
    let mut lsa = make_router_lsa(ip(1, 1, 1, 1), 1);
    lsa.header.ls_age = 100;
    db.install(lsa, 5000);
    let e = db.get(&key_of(ip(1, 1, 1, 1))).unwrap();
    assert_eq!(e.current_age(5999), 100);
    assert_eq!(e.current_age(6000), 101);
    assert_eq!(e.current_age(5000 + 3_499_000), 3599);
    assert_eq!(e.current_age(5000 + 3_500_000), 3600);
    assert_eq!(e.current_age(u64::MAX), 3600);
}

#[test]
fn what_is_not_stored_leaves_the_entry_alone() {
    let mut db = Lsdb::new(ip(1, 1, 1, 1));
    assert!(db.install(make_router_lsa(ip(1, 1, 1, 1), 5), 1000).changed());
    assert!(db.install(make_router_lsa(ip(2, 2, 2, 2), 5), 1000).changed());
    let duplicate = db.install(make_router_lsa(ip(1, 1, 1, 1), 5), 9000);
    let older = db.install(make_router_lsa(ip(1, 1, 1, 1), 4), 9000);
    assert_eq!((duplicate, older), (InstallResult::Duplicate, InstallResult::Older));
    assert!(!duplicate.changed() && !older.changed());
    let e = db.get(&key_of(ip(1, 1, 1, 1))).unwrap();
    assert_eq!((e.installed_at, e.lsa.header.ls_sequence_number), (1000, 5));
    assert!(e.self_originated);
    assert!(!db.get(&key_of(ip(2, 2, 2, 2))).unwrap().self_originated);
}
