//! Authentication of packets.
use vstd::prelude::*;

use crate::packet;
use crate::packet::inet;
use crate::packet::inet::checksum_of;
use crate::packet::OSPF_HEADER_LEN;
use crate::wire;
use crate::wire::{copy_range, get_u16, put_bytes};

verus! {

/// The hash functions of keyed digests.
#[derive(Clone, Copy, Debug, PartialEq, Eq, Structural)]
pub enum HmacAlgo {
    Sha1,
    Sha256,
    Sha384,
    Sha512,
}

/// How packets on an interface are authenticated.
#[derive(Debug)]
pub enum AuthKey {
    /// Not at all.
    Null,
    /// By a password in the clear.
    Simple(Vec<u8>),
    /// By a keyed MD5 digest.
    Md5 { key_id: u8, key: Vec<u8> },
    /// By an HMAC-SHA digest.
    HmacSha { algo: HmacAlgo, key_id: u8, key: Vec<u8> },
}

/// What an authentication key is.
pub enum AuthKeyView {
    Null,
    Simple(Seq<u8>),
    Md5 { key_id: u8, key: Seq<u8> },
    HmacSha { algo: HmacAlgo, key_id: u8, key: Seq<u8> },
}

impl View for AuthKey {
    type V = AuthKeyView;

    open spec fn view(&self) -> AuthKeyView {
        match self {
            AuthKey::Null => AuthKeyView::Null,
            AuthKey::Simple(k) => AuthKeyView::Simple(k@),
            AuthKey::Md5 { key_id, key } => AuthKeyView::Md5 { key_id: *key_id, key: key@ },
            AuthKey::HmacSha { algo, key_id, key } => AuthKeyView::HmacSha {
                algo: *algo,
                key_id: *key_id,
                key: key@,
            },
        }
    }
}

impl AuthKey {
    /// A copy of the key.
    pub fn duplicate(&self) -> (r: AuthKey)
        ensures
            r@ == self@,
    {
        match self {
            AuthKey::Null => AuthKey::Null,
            AuthKey::Simple(k) => AuthKey::Simple(crate::wire::copy_bytes(k)),
            AuthKey::Md5 { key_id, key } => AuthKey::Md5 {
                key_id: *key_id,
                key: crate::wire::copy_bytes(key),
            },
            AuthKey::HmacSha { algo, key_id, key } => AuthKey::HmacSha {
                algo: *algo,
                key_id: *key_id,
                key: crate::wire::copy_bytes(key),
            },
        }
    }
}

/// The authentication type of packets without authentication.
pub const AU_NULL: u16 = 0;

/// The authentication type of packets with a password.
pub const AU_SIMPLE: u16 = 1;

/// The eight octets in which a password stands: cut off or filled up with zeros.
pub open spec fn password_field(key: Seq<u8>) -> Seq<u8> {
    Seq::new(
        8,
        |k: int|
            if k < key.len() {
                key[k]
            } else {
                0u8
            },
    )
}

/// The packet with the authentication type of a password and a zero checksum.
pub open spec fn typed(raw: Seq<u8>) -> Seq<u8> {
    raw.update(12, 0).update(13, 0).update(14, 0).update(15, 1)
}

/// The packet with a password. The checksum covers the authentication type but not the password.
pub open spec fn with_password(raw: Seq<u8>, key: Seq<u8>) -> Seq<u8> {
    let c = inet::inet_checksum(packet::verified_bytes(typed(raw)));
    typed(raw).update(12, (c / 256) as u8).update(13, (c % 256) as u8).take(16) + password_field(
        key,
    ) + raw.skip(OSPF_HEADER_LEN as int)
}

/// The packet as it leaves an interface with the given key. A packet that is too short for a
/// header leaves as it is. Nothing for a keyed digest, which needs a hash function.
pub open spec fn authenticated(raw: Seq<u8>, key: AuthKeyView) -> Option<Seq<u8>> {
    match key {
        AuthKeyView::Null => Some(raw),
        AuthKeyView::Simple(k) => Some(
            if raw.len() < OSPF_HEADER_LEN {
                raw
            } else {
                with_password(raw, k)
            },
        ),
        _ => None,
    }
}

/// Whether an arriving packet has the authentication that the key asks for. Nothing for a keyed
/// digest, which needs a hash function.
pub open spec fn authentic(s: Seq<u8>, key: AuthKeyView) -> Option<bool> {
    match key {
        AuthKeyView::Null => Some(s.len() >= OSPF_HEADER_LEN && wire::u16_at(s, 14) == AU_NULL),
        AuthKeyView::Simple(k) => Some(
            s.len() >= OSPF_HEADER_LEN && wire::u16_at(s, 14) == AU_SIMPLE && s.subrange(16, 24)
                == password_field(k),
        ),
        _ => None,
    }
}

/// The packet as it leaves an interface with the given key.
pub fn apply_auth(raw: Vec<u8>, key: &AuthKey) -> (r: Option<Vec<u8>>)
    ensures
        match (r, authenticated(raw@, key@)) {
            (Some(d), Some(v)) => d@ == v,
            (None, None) => true,
            _ => false,
        },
{
    match key {
        AuthKey::Null => Some(raw),
        AuthKey::Simple(k) => {
            if raw.len() < OSPF_HEADER_LEN {
                return Some(raw);
            }
            let mut data = raw;
            data[12] = 0;
            data[13] = 0;
            data[14] = 0;
            data[15] = 1;
            let ghost blank = data@;
            let mut summed = copy_range(data.as_slice(), 0, 16);
            let rest = copy_range(data.as_slice(), OSPF_HEADER_LEN, data.len());
            put_bytes(&mut summed, rest.as_slice());
            assert(summed@ =~= packet::verified_bytes(typed(raw@)));
            let c: u16 = checksum_of(summed.as_slice());
            data[12] = (c / 256) as u8;
            data[13] = (c % 256) as u8;
            let mut i: usize = 0;
            let ghost head = data@;
            while i < 8
                invariant
                    i <= 8,
                    data@.len() == head.len(),
                    data@.len() >= OSPF_HEADER_LEN,
                    forall|j: int|
                        0 <= j < head.len() ==> #[trigger] data@[j] == (if 16 <= j < 16 + i {
                            password_field(k@)[j - 16]
                        } else {
                            head[j]
                        }),
                decreases 8 - i,
            {
                data[16 + i] = if i < k.len() {
                    k[i]
                } else {
                    0
                };
                i = i + 1;
            }
            assert(data@ =~= with_password(raw@, k@));
            Some(data)
        },
        AuthKey::Md5 { .. } => None,
        AuthKey::HmacSha { .. } => None,
    }
}

/// Whether an arriving packet has the authentication that the key asks for.
pub fn verify_auth(data: &[u8], key: &AuthKey) -> (r: Option<bool>)
    ensures
        r == authentic(data@, key@),
{
    match key {
        AuthKey::Null => Some(data.len() >= OSPF_HEADER_LEN && get_u16(data, 14) == AU_NULL),
        AuthKey::Simple(k) => {
            if data.len() < OSPF_HEADER_LEN || get_u16(data, 14) != AU_SIMPLE {
                return Some(false);
            }
            let mut i: usize = 0;
            while i < 8
                invariant
                    i <= 8,
                    data@.len() >= OSPF_HEADER_LEN,
                    key@ == AuthKeyView::Simple(k@),
                    forall|j: int|
                        0 <= j < i ==> #[trigger] data@.subrange(16, 24)[j] == password_field(
                            k@,
                        )[j],
                decreases 8 - i,
            {
                let want: u8 = if i < k.len() {
                    k[i]
                } else {
                    0
                };
                assert(data@.subrange(16, 24)[i as int] == data@[16 + i]);
                assert(password_field(k@)[i as int] == want);
                if data[16 + i] != want {
                    assert(data@.subrange(16, 24)[i as int] != password_field(k@)[i as int]);
                    return Some(false);
                }
                i = i + 1;
            }
            assert(data@.subrange(16, 24) =~= password_field(k@));
            Some(true)
        },
        AuthKey::Md5 { .. } => None,
        AuthKey::HmacSha { .. } => None,
    }
}

/// A packet with a password is accepted where the same password is asked for, and its checksum
/// holds.
pub proof fn lemma_password_accepted(raw: Seq<u8>, key: Seq<u8>)
    requires
        raw.len() >= OSPF_HEADER_LEN,
    ensures
        authentic(with_password(raw, key), AuthKeyView::Simple(key)) == Some(true),
        packet::checksum_holds(with_password(raw, key)),
{
    let t = typed(raw);
    let s = packet::verified_bytes(t);
    let c = inet::inet_checksum(s);
    let d = with_password(raw, key);
    assert(d.subrange(16, 24) =~= password_field(key));
    assert(s[12] == 0 && s[13] == 0);
    inet::lemma_checksum_verifies(s, 12);
    assert(packet::verified_bytes(d) =~= s.update(12, (c / 256) as u8).update(
        13,
        (c % 256) as u8,
    ));
}

/// A packet that we encode is accepted where no authentication is asked for.
pub proof fn lemma_plain_accepted(p: packet::OspfPacketView)
    ensures
        authentic(p.bytes(), AuthKeyView::Null) == Some(true),
{
    let h = p.header();
    let body = p.body_bytes();
    assert(packet::head_bytes(h, body).len() == 12);
    assert(p.bytes()[14] == 0 && p.bytes()[15] == 0);
}

} // verus!
