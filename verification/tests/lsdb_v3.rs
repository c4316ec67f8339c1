use ospfd::lsdb_v3::{LsaEntryV3, LsaKeyV3, LsdbV3};
use ospfd::packet_v3::{LsaV3Header, LsaV3Type};

fn ip(a: u8, b: u8, c: u8, d: u8) -> u32 {
    u32::from_be_bytes([a, b, c, d])
}

#[test]
fn test_insert_and_get() {
    let mut db = LsdbV3::new();
    let hdr = LsaV3Header {
        ls_age: 0,
        ls_type: LsaV3Type::Router,
        link_state_id: 0,
        advertising_router: ip(1, 1, 1, 1),
        ls_sequence_number: 0x80000001u32 as i32,
        ls_checksum: 0,
        length: 24,
    };
    db.insert(LsaEntryV3 { header: hdr, raw: vec![0; 24], area: Some(0) });
    assert_eq!(db.len(), 1);
    assert_eq!(db.headers().len(), 1);
    let key = LsaKeyV3 {
        area: Some(0),
        ls_type: LsaV3Type::Router,
        link_state_id: 0,
        advertising_router: ip(1, 1, 1, 1),
    };
    assert!(db.get(&key).is_some());
}

fn entry(seq: i32, checksum: u16) -> LsaEntryV3 {
    LsaEntryV3 {
        header: LsaV3Header {
            ls_age: 0,
            ls_type: LsaV3Type::IntraAreaPrefix,
            link_state_id: ip(0, 0, 0, 5),
            advertising_router: ip(9, 9, 9, 9),
            ls_sequence_number: seq,
            ls_checksum: checksum,
            length: 24,
        },
        raw: vec![0; 24],
        area: Some(0),
    }
}

#[test]
fn generation_bumps_on_in_place_update_not_on_duplicate() {
    let mut db = LsdbV3::new();
    assert_eq!(db.generation(), 0);

    // First install of a key.
    db.insert(entry(0x80000001u32 as i32, 0x1111));
    assert_eq!(db.len(), 1);
    let g1 = db.generation();
    assert_eq!(g1, 1, "first install must bump generation");

    // The same instance again: nothing changed.
    db.insert(entry(0x80000001u32 as i32, 0x1111));
    assert_eq!(db.len(), 1);
    assert_eq!(db.generation(), g1, "duplicate re-flood must not bump");

    // A fresher instance changes the content though not the length.
    db.insert(entry(0x80000002u32 as i32, 0x2222));
    assert_eq!(db.len(), 1, "len unchanged on in-place update");
    assert_eq!(db.generation(), g1 + 1, "in-place LSA update must bump generation");

    // The same sequence number with another checksum counts as a change.
    db.insert(entry(0x80000002u32 as i32, 0x3333));
    assert_eq!(db.generation(), g1 + 2);
}
