//! Building the OSPFv2 configuration of an instance from the configuration file.
use vstd::prelude::*;

use crate::config;
use crate::config::yaml::{
    AddrEntry, AreaConfigEntry, AreaIdValue, InterfaceConfig, LoopbackConfig, OspfBlock,
    OspfNeighborConfig, OspfVrfYaml, RedistributeEntry, RouteMapEntry, RouterConfig,
    SubInterfaceConfig, SummaryAddressEntry, VrfYaml,
};
use crate::config::{
    AreaConfig, AreaType, OspfDaemonConfig, OspfInterfaceConfig, ParsedSummaryAddress,
    RedistributeConfig, RedistributeSource, RouteMap,
};
use crate::packet::auth;
use crate::packet::auth::{AuthKey, HmacAlgo};
use crate::text;
use crate::text::{append_decimal, chars_of, parse_decimal, parse_ipv4, reads_as, split_cidr};
use crate::wire;
use crate::wire::same_text;

verus! {

broadcast use {wire::lemma_views_push, wire::lemma_views_update};

/// Why a configuration was not accepted.
#[derive(Debug)]
pub enum ConfigError {
    /// The VRF has no block of its own.
    NoVrfBlock,
    /// The VRF is not declared.
    VrfNotDeclared,
    /// The VRF has the FIB of the default one.
    ReservedTable,
    NotEnabled,
    /// The router id is no address.
    InvalidRouterId,
    /// There is no router id, or it is 0.0.0.0.
    NoRouterId,
    /// An area id is a number, but not a whole one from 0 on.
    NegativeAreaId,
    /// An area id is a text that is neither an address nor a number.
    InvalidAreaId(String),
    /// An area id is neither a number nor a text.
    AreaIdNotScalar,
    /// Two route maps have the same name.
    DuplicateRouteMap(String),
    /// A route map cannot be compiled.
    BadRouteMap(String),
    /// A redistribution rule names a route map that does not exist.
    UnknownRouteMap(String),
}

/// What an error says.
pub enum ConfigErrorView {
    NoVrfBlock,
    VrfNotDeclared,
    ReservedTable,
    NotEnabled,
    InvalidRouterId,
    NoRouterId,
    NegativeAreaId,
    InvalidAreaId(Seq<char>),
    AreaIdNotScalar,
    DuplicateRouteMap(Seq<char>),
    BadRouteMap(Seq<char>),
    UnknownRouteMap(Seq<char>),
}

impl View for ConfigError {
    type V = ConfigErrorView;

    open spec fn view(&self) -> ConfigErrorView {
        match self {
            ConfigError::NoVrfBlock => ConfigErrorView::NoVrfBlock,
            ConfigError::VrfNotDeclared => ConfigErrorView::VrfNotDeclared,
            ConfigError::ReservedTable => ConfigErrorView::ReservedTable,
            ConfigError::NotEnabled => ConfigErrorView::NotEnabled,
            ConfigError::InvalidRouterId => ConfigErrorView::InvalidRouterId,
            ConfigError::NoRouterId => ConfigErrorView::NoRouterId,
            ConfigError::NegativeAreaId => ConfigErrorView::NegativeAreaId,
            ConfigError::InvalidAreaId(s) => ConfigErrorView::InvalidAreaId(s@),
            ConfigError::AreaIdNotScalar => ConfigErrorView::AreaIdNotScalar,
            ConfigError::DuplicateRouteMap(s) => ConfigErrorView::DuplicateRouteMap(s@),
            ConfigError::BadRouteMap(s) => ConfigErrorView::BadRouteMap(s@),
            ConfigError::UnknownRouteMap(s) => ConfigErrorView::UnknownRouteMap(s@),
        }
    }
}

/// The value, or a stand-in if there is none.
pub open spec fn or<T>(o: Option<T>, d: T) -> T {
    match o {
        Some(x) => x,
        None => d,
    }
}

/// What an optional name is.
pub open spec fn opt_name(o: Option<&str>) -> Option<Seq<char>> {
    match o {
        Some(s) => Some(s@),
        None => None,
    }
}

/// The text of an optional string.
pub fn opt_str(o: &Option<String>) -> (r: Option<&str>)
    ensures
        opt_name(r) == config::opt_text(*o),
{
    match o {
        Some(s) => Some(s.as_str()),
        None => None,
    }
}

/// The area id that the file holds: a number, of which the lower 32 bits count, a dotted address or
/// a decimal text.
pub open spec fn area_id_of(v: AreaIdValue) -> Result<u32, ConfigErrorView> {
    match v {
        AreaIdValue::Number(n) => Ok((n % 0x100000000) as u32),
        AreaIdValue::OtherNumber => Err(ConfigErrorView::NegativeAreaId),
        AreaIdValue::Text(s) => match text::ipv4(s@) {
            Some(a) => Ok(a),
            None => match text::decimal(s@, 0xffffffff) {
                Some(n) => Ok(n as u32),
                None => Err(ConfigErrorView::InvalidAreaId(s@)),
            },
        },
        AreaIdValue::Other => Err(ConfigErrorView::AreaIdNotScalar),
    }
}

/// Reads an area id.
pub fn parse_area_id_value(v: &AreaIdValue) -> (r: Result<u32, ConfigError>)
    ensures
        match (r, area_id_of(*v)) {
            (Ok(a), Ok(b)) => a == b,
            (Err(e), Err(f)) => e@ == f,
            _ => false,
        },
{
    match v {
        AreaIdValue::Number(n) => Ok((*n % 0x100000000) as u32),
        AreaIdValue::OtherNumber => Err(ConfigError::NegativeAreaId),
        AreaIdValue::Text(s) => {
            match parse_ipv4(s.as_str()) {
                Some(a) => {
                    return Ok(a);
                },
                None => {},
            }
            let cs = chars_of(s.as_str());
            assert(cs@.subrange(0, cs@.len() as int) =~= cs@);
            match parse_decimal(&cs, 0, cs.len(), 0xffffffff) {
                Some(n) => Ok(n),
                None => Err(ConfigError::InvalidAreaId(s.as_str().to_owned())),
            }
        },
        AreaIdValue::Other => Err(ConfigError::AreaIdNotScalar),
    }
}

/// The hash function of a keyed digest by its name in small letters; for MD5, no HMAC. Nothing for
/// any other name.
pub open spec fn digest_named(s: Seq<char>) -> Option<Option<HmacAlgo>> {
    if s == "message-digest"@ || s == "md5"@ {
        Some(None)
    } else if s == "hmac-sha-256"@ || s == "hmac-sha256"@ || s == "sha256"@ || s == "sha-256"@ {
        Some(Some(HmacAlgo::Sha256))
    } else if s == "hmac-sha-384"@ || s == "hmac-sha384"@ || s == "sha384"@ || s == "sha-384"@ {
        Some(Some(HmacAlgo::Sha384))
    } else if s == "hmac-sha-512"@ || s == "hmac-sha512"@ || s == "sha512"@ || s == "sha-512"@ {
        Some(Some(HmacAlgo::Sha512))
    } else {
        None
    }
}

/// The key that an interface is configured with. Without a complete key packets are not
/// authenticated.
pub open spec fn auth_key_of(
    kind: Option<Seq<char>>,
    simple: Option<Seq<char>>,
    id: Option<u8>,
    key: Option<Seq<char>>,
) -> auth::AuthKeyView {
    match kind {
        None => auth::AuthKeyView::Null,
        Some(k) => if text::lowered(k) == "simple"@ {
            match simple {
                Some(p) if p.len() > 0 => auth::AuthKeyView::Simple(vstd::utf8::encode_utf8(p)),
                _ => auth::AuthKeyView::Null,
            }
        } else {
            match (digest_named(text::lowered(k)), id, key) {
                (Some(None), Some(i), Some(s)) if s.len() > 0 => auth::AuthKeyView::Md5 {
                    key_id: i,
                    key: vstd::utf8::encode_utf8(s),
                },
                (Some(Some(algo)), Some(i), Some(s)) if s.len() > 0 => auth::AuthKeyView::HmacSha {
                    algo,
                    key_id: i,
                    key: vstd::utf8::encode_utf8(s),
                },
                _ => auth::AuthKeyView::Null,
            }
        },
    }
}

/// The hash function of a keyed digest by its name.
fn digest_by_name(s: &str) -> (r: Option<Option<HmacAlgo>>)
    ensures
        r == digest_named(text::lowered(s@)),
{
    if reads_as(s, "message-digest") || reads_as(s, "md5") {
        Some(None)
    } else if reads_as(s, "hmac-sha-256") || reads_as(s, "hmac-sha256") || reads_as(s, "sha256")
        || reads_as(s, "sha-256") {
        Some(Some(HmacAlgo::Sha256))
    } else if reads_as(s, "hmac-sha-384") || reads_as(s, "hmac-sha384") || reads_as(s, "sha384")
        || reads_as(s, "sha-384") {
        Some(Some(HmacAlgo::Sha384))
    } else if reads_as(s, "hmac-sha-512") || reads_as(s, "hmac-sha512") || reads_as(s, "sha512")
        || reads_as(s, "sha-512") {
        Some(Some(HmacAlgo::Sha512))
    } else {
        None
    }
}

/// The key that an interface is configured with.
pub fn parse_auth_key(
    auth_type: Option<&str>,
    simple_key: Option<&str>,
    md5_key_id: Option<u8>,
    md5_key: Option<&str>,
) -> (r: AuthKey)
    ensures
        r@ == auth_key_of(
            opt_name(auth_type),
            opt_name(simple_key),
            md5_key_id,
            opt_name(md5_key),
        ),
{
    let kind = match auth_type {
        None => {
            return AuthKey::Null;
        },
        Some(k) => k,
    };
    if reads_as(kind, "simple") {
        return match simple_key {
            Some(p) => if p.is_empty() {
                AuthKey::Null
            } else {
                AuthKey::Simple(p.as_bytes_vec())
            },
            None => AuthKey::Null,
        };
    }
    let digest = match digest_by_name(kind) {
        None => {
            return AuthKey::Null;
        },
        Some(d) => d,
    };
    match (md5_key_id, md5_key) {
        (Some(id), Some(s)) => {
            if s.is_empty() {
                return AuthKey::Null;
            }
            match digest {
                None => AuthKey::Md5 { key_id: id, key: s.as_bytes_vec() },
                Some(algo) => AuthKey::HmacSha { algo, key_id: id, key: s.as_bytes_vec() },
            }
        },
        _ => AuthKey::Null,
    }
}

/// Whether something that is configured for the VRF `of` belongs to the instance of `vrf`. The empty
/// text and `default` name the default VRF.
pub open spec fn in_vrf(of: Option<Seq<char>>, vrf: Option<Seq<char>>) -> bool {
    let named = match of {
        Some(s) if s.len() > 0 && s != "default"@ => Some(s),
        _ => None,
    };
    named == vrf
}

/// Whether something that is configured for the VRF `of` belongs to the instance of `vrf`.
pub fn belongs_to(of: &Option<String>, vrf: Option<&str>) -> (r: bool)
    ensures
        r == in_vrf(config::opt_text(*of), opt_name(vrf)),
{
    match of {
        Some(s) => {
            if s.as_str().is_empty() || same_text(s.as_str(), "default") {
                vrf.is_none()
            } else {
                match vrf {
                    Some(v) => same_text(s.as_str(), v),
                    None => false,
                }
            }
        },
        None => vrf.is_none(),
    }
}

/// The address and prefix length of a pair, or the stand-in if the text is no address.
pub open spec fn address_of(p: Option<(Seq<char>, u8)>, default_len: u8) -> (u32, u8) {
    match p {
        Some((s, n)) => match text::ipv4(s) {
            Some(a) => (a, n),
            None => (0, default_len),
        },
        None => (0, default_len),
    }
}

/// The first entry at or behind `from` that is a pair.
pub open spec fn first_pair(es: Seq<AddrEntry>, from: int) -> Option<(Seq<char>, u8)>
    decreases es.len() - from,
{
    if from < 0 || from >= es.len() {
        None
    } else if es[from].pair() is Some {
        es[from].pair()
    } else {
        first_pair(es, from + 1)
    }
}

/// The address and prefix length of a pair.
fn address_from(p: Option<(&str, u8)>, default_len: u8) -> (r: (u32, u8))
    ensures
        r == address_of(
            match p {
                Some((s, n)) => Some((s@, n)),
                None => None,
            },
            default_len,
        ),
{
    match p {
        Some((s, n)) => match parse_ipv4(s) {
            Some(a) => (a, n),
            None => (0, default_len),
        },
        None => (0, default_len),
    }
}

/// The address of the first entry that is a pair.
fn first_address(es: &Vec<AddrEntry>, default_len: u8) -> (r: (u32, u8))
    ensures
        r == address_of(first_pair(es@, 0), default_len),
{
    let mut i: usize = 0;
    while i < es.len()
        invariant
            i <= es@.len(),
            first_pair(es@, 0) == first_pair(es@, i as int),
        decreases es.len() - i,
    {
        let p = es[i].as_pair();
        if p.is_some() {
            return address_from(p, default_len);
        }
        i = i + 1;
    }
    (0, default_len)
}

/// The configured neighbors whose address can be read, from `from` on.
pub open spec fn neighbors_of(ns: Seq<OspfNeighborConfig>, from: int) -> Seq<(u32, u8)>
    decreases ns.len() - from,
{
    if from < 0 || from >= ns.len() {
        Seq::empty()
    } else {
        match text::ipv4(ns[from].address@) {
            Some(a) => seq![(a, or(ns[from].priority, 1u8))] + neighbors_of(ns, from + 1),
            None => neighbors_of(ns, from + 1),
        }
    }
}

/// The configured neighbors of an interface of the given kind. Only a non-broadcast network has any.
pub open spec fn kind_neighbors(kind: Seq<char>, ns: Seq<OspfNeighborConfig>) -> Seq<(u32, u8)> {
    if kind == "non-broadcast"@ {
        neighbors_of(ns, 0)
    } else {
        Seq::empty()
    }
}

/// The configured neighbors of an interface of the given kind.
fn static_neighbors(kind: &str, ns: &Vec<OspfNeighborConfig>) -> (r: Vec<(u32, u8)>)
    ensures
        r@ == kind_neighbors(kind@, ns@),
{
    let mut v: Vec<(u32, u8)> = Vec::new();
    if !same_text(kind, "non-broadcast") {
        assert(v@ =~= Seq::empty());
        return v;
    }
    let mut i: usize = 0;
    assert(v@ + neighbors_of(ns@, 0) =~= neighbors_of(ns@, 0));
    while i < ns.len()
        invariant
            i <= ns@.len(),
            neighbors_of(ns@, 0) == v@ + neighbors_of(ns@, i as int),
        decreases ns.len() - i,
    {
        match parse_ipv4(ns[i].address.as_str()) {
            Some(a) => {
                let prio: u8 = match ns[i].priority {
                    Some(p) => p,
                    None => 1,
                };
                let ghost before = v@;
                v.push((a, prio));
                assert(before + (seq![(a, prio)] + neighbors_of(ns@, i + 1)) =~= v@
                    + neighbors_of(ns@, i + 1));
            },
            None => {},
        }
        i = i + 1;
    }
    assert(v@ + Seq::<(u32, u8)>::empty() =~= v@);
    v
}

/// The kind of network, broadcast unless given.
pub open spec fn kind_of(o: Option<String>) -> Seq<char> {
    match o {
        Some(s) => s@,
        None => "broadcast"@,
    }
}

/// The kind of network, broadcast unless given.
pub fn kind_text(o: &Option<String>) -> (r: String)
    ensures
        r@ == kind_of(*o),
{
    match o {
        Some(s) => s.as_str().to_owned(),
        None => "broadcast".to_owned(),
    }
}

/// The name, empty unless given.
pub open spec fn name_of(o: Option<String>) -> Seq<char> {
    match o {
        Some(s) => s@,
        None => ""@,
    }
}

/// The name, empty unless given.
pub fn name_text(o: &Option<String>) -> (r: String)
    ensures
        r@ == name_of(*o),
{
    match o {
        Some(s) => s.as_str().to_owned(),
        None => "".to_owned(),
    }
}

/// The name of a VLAN on an interface.
pub open spec fn vlan_name(parent: Seq<char>, id: u16) -> Seq<char> {
    parent + "."@ + text::decimal_text(id as nat)
}

/// The name of a VLAN on an interface.
pub fn vlan_text(parent: &str, id: u16) -> (r: String)
    ensures
        r@ == vlan_name(parent@, id),
{
    let mut s = parent.to_owned();
    s.append(".");
    append_decimal(&mut s, id as u32);
    s
}

/// What an interface itself contributes.
pub open spec fn parent_part(
    f: InterfaceConfig,
    passive: bool,
    vrf: Option<Seq<char>>,
) -> Result<Seq<config::OspfInterfaceConfigView>, ConfigErrorView> {
    match f.ospf_area {
        Some(v) if in_vrf(config::opt_text(f.vrf), vrf) => match area_id_of(v) {
            Err(e) => Err(e),
            Ok(area_id) => {
                let a = address_of(
                    if f.ipv4@.len() > 0 {
                        f.ipv4@[0].pair()
                    } else {
                        None
                    },
                    24,
                );
                Ok(
                    seq![
                        config::OspfInterfaceConfigView {
                            name: name_of(f.name),
                            address: a.0,
                            prefix_len: a.1,
                            area_id,
                            cost: or(f.ospf_cost, 10u16),
                            passive: or(f.ospf_passive, passive),
                            network_type: kind_of(f.ospf_network_type),
                            hello_interval: or(f.ospf_hello_interval, 10u16),
                            dead_interval: or(f.ospf_dead_interval, 40u32),
                            retransmit_interval: or(f.ospf_retransmit_interval, 5u16),
                            priority: or(f.ospf_priority, 1u8),
                            auth_key: auth_key_of(
                                config::opt_text(f.ospf_auth_type),
                                config::opt_text(f.ospf_auth_key),
                                f.ospf_md5_key_id,
                                config::opt_text(f.ospf_md5_key),
                            ),
                            static_neighbors: kind_neighbors(
                                kind_of(f.ospf_network_type),
                                f.ospf_neighbors@,
                            ),
                        },
                    ],
                )
            },
        },
        _ => Ok(Seq::empty()),
    }
}

/// What a VLAN on an interface contributes.
pub open spec fn sub_part(
    parent: Seq<char>,
    f: SubInterfaceConfig,
    passive: bool,
    vrf: Option<Seq<char>>,
) -> Result<Seq<config::OspfInterfaceConfigView>, ConfigErrorView> {
    match f.ospf_area {
        Some(v) if in_vrf(config::opt_text(f.vrf), vrf) => match area_id_of(v) {
            Err(e) => Err(e),
            Ok(area_id) => {
                let a = address_of(first_pair(f.ipv4@, 0), 24);
                Ok(
                    seq![
                        config::OspfInterfaceConfigView {
                            name: vlan_name(parent, f.vlan_id),
                            address: a.0,
                            prefix_len: a.1,
                            area_id,
                            cost: or(f.ospf_cost, 10u16),
                            passive: or(f.ospf_passive, passive),
                            network_type: kind_of(f.ospf_network_type),
                            hello_interval: or(f.ospf_hello_interval, 10u16),
                            dead_interval: or(f.ospf_dead_interval, 40u32),
                            retransmit_interval: or(f.ospf_retransmit_interval, 5u16),
                            priority: or(f.ospf_priority, 1u8),
                            auth_key: auth_key_of(
                                config::opt_text(f.ospf_auth_type),
                                config::opt_text(f.ospf_auth_key),
                                f.ospf_md5_key_id,
                                config::opt_text(f.ospf_md5_key),
                            ),
                            static_neighbors: kind_neighbors(
                                kind_of(f.ospf_network_type),
                                f.ospf_neighbors@,
                            ),
                        },
                    ],
                )
            },
        },
        _ => Ok(Seq::empty()),
    }
}

/// What a loopback contributes: a passive point-to-point interface unless it says otherwise.
pub open spec fn loopback_part(f: LoopbackConfig, vrf: Option<Seq<char>>) -> Result<
    Seq<config::OspfInterfaceConfigView>,
    ConfigErrorView,
> {
    match f.ospf_area {
        Some(v) if in_vrf(config::opt_text(f.vrf), vrf) => match area_id_of(v) {
            Err(e) => Err(e),
            Ok(area_id) => {
                let a = address_of(first_pair(f.ipv4@, 0), 32);
                Ok(
                    seq![
                        config::OspfInterfaceConfigView {
                            name: name_of(f.name),
                            address: a.0,
                            prefix_len: a.1,
                            area_id,
                            cost: or(f.ospf_cost, 1u16),
                            passive: or(f.ospf_passive, true),
                            network_type: "point-to-point"@,
                            hello_interval: 10,
                            dead_interval: 40,
                            retransmit_interval: 5,
                            priority: 0,
                            auth_key: auth::AuthKeyView::Null,
                            static_neighbors: Seq::empty(),
                        },
                    ],
                )
            },
        },
        _ => Ok(Seq::empty()),
    }
}

/// The parts one after the other; the first error counts.
pub open spec fn chained<T>(
    a: Result<Seq<T>, ConfigErrorView>,
    b: Result<Seq<T>, ConfigErrorView>,
) -> Result<Seq<T>, ConfigErrorView> {
    match (a, b) {
        (Err(e), _) => Err(e),
        (Ok(_), Err(e)) => Err(e),
        (Ok(x), Ok(y)) => Ok(x + y),
    }
}

/// What the VLANs from `from` on contribute.
pub open spec fn sub_parts(
    parent: Seq<char>,
    fs: Seq<SubInterfaceConfig>,
    passive: bool,
    vrf: Option<Seq<char>>,
    from: int,
) -> Result<Seq<config::OspfInterfaceConfigView>, ConfigErrorView>
    decreases fs.len() - from,
{
    if from < 0 || from >= fs.len() {
        Ok(Seq::empty())
    } else {
        chained(
            sub_part(parent, fs[from], passive, vrf),
            sub_parts(parent, fs, passive, vrf, from + 1),
        )
    }
}

/// What an interface and its VLANs contribute. The VLANs of an interface without a name are left
/// out.
pub open spec fn interface_part(
    f: InterfaceConfig,
    passive: bool,
    vrf: Option<Seq<char>>,
) -> Result<Seq<config::OspfInterfaceConfigView>, ConfigErrorView> {
    chained(
        parent_part(f, passive, vrf),
        match f.name {
            Some(n) if n@.len() > 0 => sub_parts(n@, f.subinterfaces@, passive, vrf, 0),
            _ => Ok(Seq::empty()),
        },
    )
}

/// What the interfaces from `from` on contribute.
pub open spec fn interface_parts(
    fs: Seq<InterfaceConfig>,
    passive: bool,
    vrf: Option<Seq<char>>,
    from: int,
) -> Result<Seq<config::OspfInterfaceConfigView>, ConfigErrorView>
    decreases fs.len() - from,
{
    if from < 0 || from >= fs.len() {
        Ok(Seq::empty())
    } else {
        chained(
            interface_part(fs[from], passive, vrf),
            interface_parts(fs, passive, vrf, from + 1),
        )
    }
}

/// What the loopbacks from `from` on contribute.
pub open spec fn loopback_parts(fs: Seq<LoopbackConfig>, vrf: Option<Seq<char>>, from: int) -> Result<
    Seq<config::OspfInterfaceConfigView>,
    ConfigErrorView,
>
    decreases fs.len() - from,
{
    if from < 0 || from >= fs.len() {
        Ok(Seq::empty())
    } else {
        chained(loopback_part(fs[from], vrf), loopback_parts(fs, vrf, from + 1))
    }
}

/// Whether one of the maps in front of `to` has the name.
pub open spec fn named_before(ms: Seq<RouteMapEntry>, name: Seq<char>, to: int) -> bool {
    exists|k: int| 0 <= k < to && (#[trigger] ms[k]).name@ == name
}

/// The compiled route maps from `from` on. Names are unique, and every map can be compiled.
pub open spec fn compiled_maps(ms: Seq<RouteMapEntry>, from: int) -> Result<
    Seq<config::RouteMapView>,
    ConfigErrorView,
>
    decreases ms.len() - from,
{
    if from < 0 || from >= ms.len() {
        Ok(Seq::empty())
    } else if named_before(ms, ms[from].name@, from) {
        Err(ConfigErrorView::DuplicateRouteMap(ms[from].name@))
    } else {
        match ms[from].permits {
            None => Err(ConfigErrorView::BadRouteMap(ms[from].name@)),
            Some(p) => chained(
                Ok(seq![config::RouteMapView { name: ms[from].name@, permits: p@ }]),
                compiled_maps(ms, from + 1),
            ),
        }
    }
}

/// Whether a route map has the name.
pub open spec fn has_map(ms: Seq<config::RouteMapView>, name: Seq<char>) -> bool {
    exists|k: int| 0 <= k < ms.len() && (#[trigger] ms[k]).name == name
}

/// The redistribution rules from `from` on. A protocol that is not known is left out; a route map
/// that does not exist is an error.
pub open spec fn rules_of(
    es: Seq<RedistributeEntry>,
    ms: Seq<config::RouteMapView>,
    from: int,
) -> Result<Seq<config::RedistributeConfigView>, ConfigErrorView>
    decreases es.len() - from,
{
    if from < 0 || from >= es.len() {
        Ok(Seq::empty())
    } else {
        match RedistributeSource::named(es[from].protocol@) {
            None => rules_of(es, ms, from + 1),
            Some(source) => match es[from].route_map {
                Some(n) if !has_map(ms, n@) => Err(ConfigErrorView::UnknownRouteMap(n@)),
                _ => chained(
                    Ok(
                        seq![
                            config::RedistributeConfigView {
                                source,
                                metric: es[from].spec_metric(),
                                metric_type: es[from].spec_metric_type(),
                                route_map: config::opt_text(es[from].route_map),
                            },
                        ],
                    ),
                    rules_of(es, ms, from + 1),
                ),
            },
        }
    }
}

/// The type of an area by its name; normal unless it is `stub` or `nssa`.
pub open spec fn area_type_named(o: Option<String>) -> AreaType {
    match o {
        Some(s) => if s@ == "stub"@ {
            AreaType::Stub
        } else if s@ == "nssa"@ {
            AreaType::Nssa
        } else {
            AreaType::Normal
        },
        None => AreaType::Normal,
    }
}

/// The configured areas from `from` on.
pub open spec fn areas_of(es: Seq<AreaConfigEntry>, from: int) -> Result<
    Seq<AreaConfig>,
    ConfigErrorView,
>
    decreases es.len() - from,
{
    if from < 0 || from >= es.len() {
        Ok(Seq::empty())
    } else {
        match area_id_of(es[from].area_id) {
            Err(e) => Err(e),
            Ok(area_id) => chained(
                Ok(
                    seq![
                        AreaConfig {
                            area_id,
                            area_type: area_type_named(es[from].area_type),
                            default_cost: or(es[from].default_cost, 1u32),
                        },
                    ],
                ),
                areas_of(es, from + 1),
            ),
        }
    }
}

/// The summary range of an entry; nothing if its prefix cannot be read or is longer than an address.
pub open spec fn summary_of(e: SummaryAddressEntry) -> Option<ParsedSummaryAddress> {
    match text::cidr(e.prefix@) {
        None => None,
        Some((a, prefix_len)) => match text::ipv4(a) {
            None => None,
            Some(_) if prefix_len > 32 => None,
            Some(prefix) => Some(
                ParsedSummaryAddress {
                    prefix,
                    prefix_len,
                    no_advertise: e.no_advertise,
                    tag: or(e.tag, 0u32),
                    metric: or(e.metric, 20u32),
                    metric_type: or(e.metric_type, 2u8),
                },
            ),
        },
    }
}

/// The summary ranges from `from` on whose prefix can be read.
pub open spec fn summaries_of(es: Seq<SummaryAddressEntry>, from: int) -> Seq<ParsedSummaryAddress>
    decreases es.len() - from,
{
    if from < 0 || from >= es.len() {
        Seq::empty()
    } else {
        match summary_of(es[from]) {
            Some(s) => seq![s] + summaries_of(es, from + 1),
            None => summaries_of(es, from + 1),
        }
    }
}

/// The position of the VRF block with the given name at or behind `from`.
pub open spec fn block_pos(bs: Seq<OspfVrfYaml>, name: Seq<char>, from: int) -> Option<int>
    decreases bs.len() - from,
{
    if from < 0 || from >= bs.len() {
        None
    } else if bs[from].name@ == name {
        Some(from)
    } else {
        block_pos(bs, name, from + 1)
    }
}

/// The position of the VRF with the given name at or behind `from`.
pub open spec fn vrf_pos(vs: Seq<VrfYaml>, name: Seq<char>, from: int) -> Option<int>
    decreases vs.len() - from,
{
    if from < 0 || from >= vs.len() {
        None
    } else if vs[from].name@ == name {
        Some(from)
    } else {
        vrf_pos(vs, name, from + 1)
    }
}

/// The router id of a block. It has to be given and must not be 0.0.0.0.
pub open spec fn router_id_of(o: Option<String>) -> Result<u32, ConfigErrorView> {
    match o {
        None => Err(ConfigErrorView::NoRouterId),
        Some(s) => match text::ipv4(s@) {
            None => Err(ConfigErrorView::InvalidRouterId),
            Some(a) => if a == 0 {
                Err(ConfigErrorView::NoRouterId)
            } else {
                Ok(a)
            },
        },
    }
}

/// The configuration of the instance that a block describes.
pub open spec fn built(c: RouterConfig, b: OspfBlock, vrf: Option<Seq<char>>, table_id_v4: u32) -> Result<
    config::OspfDaemonConfigView,
    ConfigErrorView,
> {
    if !b.enabled {
        Err(ConfigErrorView::NotEnabled)
    } else {
        match router_id_of(*b.router_id) {
            Err(e) => Err(e),
            Ok(router_id) => match chained(
                interface_parts(c.interfaces@, b.passive_default, vrf, 0),
                loopback_parts(c.loopbacks@, vrf, 0),
            ) {
                Err(e) => Err(e),
                Ok(interfaces) => match compiled_maps(c.route_maps@, 0) {
                    Err(e) => Err(e),
                    Ok(route_maps) => match rules_of(b.redistribute@, route_maps, 0) {
                        Err(e) => Err(e),
                        Ok(redistribute) => match areas_of(b.areas@, 0) {
                            Err(e) => Err(e),
                            Ok(areas) => Ok(
                                config::OspfDaemonConfigView {
                                    vrf_name: vrf,
                                    table_id_v4,
                                    router_id,
                                    reference_bandwidth: or(b.reference_bandwidth, 100u32),
                                    spf_delay_ms: or(b.spf_delay, 50u64),
                                    spf_holdtime_ms: or(b.spf_holdtime, 200u64),
                                    spf_max_holdtime_ms: or(b.spf_max_holdtime, 5000u64),
                                    interfaces,
                                    redistribute,
                                    areas,
                                    distance: b.distance,
                                    distance_intra: b.distance_intra,
                                    distance_inter: b.distance_inter,
                                    distance_external: b.distance_external,
                                    default_originate: b.default_originate,
                                    default_originate_metric: or(b.default_originate_metric, 1u32),
                                    default_originate_metric_type: or(
                                        b.default_originate_metric_type,
                                        2u8,
                                    ),
                                    summary_addresses: summaries_of(b.summary_addresses@, 0),
                                    route_maps,
                                },
                            ),
                        },
                    },
                },
            },
        }
    }
}

/// The configuration of the instance of `vrf`. The default VRF has the flat block and FIB 0; any
/// other needs a block of its own and a declaration with another FIB.
pub open spec fn instance_config(c: RouterConfig, vrf: Option<Seq<char>>) -> Result<
    config::OspfDaemonConfigView,
    ConfigErrorView,
> {
    match vrf {
        None => built(c, c.ospf.spec_block(), vrf, 0),
        Some(name) => match block_pos(c.ospf.vrfs@, name, 0) {
            None => Err(ConfigErrorView::NoVrfBlock),
            Some(i) => match vrf_pos(c.vrfs@, name, 0) {
                None => Err(ConfigErrorView::VrfNotDeclared),
                Some(j) => if c.vrfs@[j].table_id_v4 == 0 {
                    Err(ConfigErrorView::ReservedTable)
                } else {
                    built(c, c.ospf.vrfs@[i].spec_block(), vrf, c.vrfs@[j].table_id_v4)
                },
            },
        },
    }
}

/// The configurations of the VRF blocks from `from` on; those that are not valid are left out.
pub open spec fn vrf_configs(c: RouterConfig, from: int) -> Seq<config::OspfDaemonConfigView>
    decreases c.ospf.vrfs@.len() - from,
{
    if from < 0 || from >= c.ospf.vrfs@.len() {
        Seq::empty()
    } else {
        match instance_config(c, Some(c.ospf.vrfs@[from].name@)) {
            Ok(v) => seq![v] + vrf_configs(c, from + 1),
            Err(_) => vrf_configs(c, from + 1),
        }
    }
}

/// The configurations of all instances: the default one if it is enabled and valid, and those of
/// other VRFs that are valid.
pub open spec fn all_configs(c: RouterConfig) -> Seq<config::OspfDaemonConfigView> {
    (match instance_config(c, None) {
        Ok(v) if c.ospf.enabled => seq![v],
        _ => Seq::empty(),
    }) + vrf_configs(c, 0)
}

/// What an interface itself contributes.
fn build_parent(f: &InterfaceConfig, passive: bool, vrf: Option<&str>) -> (r: Result<
    Option<OspfInterfaceConfig>,
    ConfigError,
>)
    ensures
        match (r, parent_part(*f, passive, opt_name(vrf))) {
            (Ok(Some(x)), Ok(s)) => s == seq![x@],
            (Ok(None), Ok(s)) => s == Seq::<config::OspfInterfaceConfigView>::empty(),
            (Err(e), Err(g)) => e@ == g,
            _ => false,
        },
{
    if !belongs_to(&f.vrf, vrf) {
        return Ok(None);
    }
    let v = match &f.ospf_area {
        None => {
            return Ok(None);
        },
        Some(v) => v,
    };
    let area_id: u32 = match parse_area_id_value(v) {
        Err(e) => {
            return Err(e);
        },
        Ok(a) => a,
    };
    let a = if f.ipv4.len() > 0 {
        address_from(f.ipv4[0].as_pair(), 24)
    } else {
        (0u32, 24u8)
    };
    let auth_key = parse_auth_key(
        opt_str(&f.ospf_auth_type),
        opt_str(&f.ospf_auth_key),
        f.ospf_md5_key_id,
        opt_str(&f.ospf_md5_key),
    );
    let kind = kind_text(&f.ospf_network_type);
    let neighbors = static_neighbors(kind.as_str(), &f.ospf_neighbors);
    Ok(
        Some(
            OspfInterfaceConfig {
                name: name_text(&f.name),
                address: a.0,
                prefix_len: a.1,
                area_id,
                cost: f.ospf_cost.unwrap_or(10),
                passive: f.ospf_passive.unwrap_or(passive),
                network_type: kind,
                hello_interval: f.ospf_hello_interval.unwrap_or(10),
                dead_interval: f.ospf_dead_interval.unwrap_or(40),
                retransmit_interval: f.ospf_retransmit_interval.unwrap_or(5),
                priority: f.ospf_priority.unwrap_or(1),
                auth_key,
                static_neighbors: neighbors,
            },
        ),
    )
}

/// What a VLAN on an interface contributes.
fn build_sub(parent: &str, f: &SubInterfaceConfig, passive: bool, vrf: Option<&str>) -> (r: Result<
    Option<OspfInterfaceConfig>,
    ConfigError,
>)
    ensures
        match (r, sub_part(parent@, *f, passive, opt_name(vrf))) {
            (Ok(Some(x)), Ok(s)) => s == seq![x@],
            (Ok(None), Ok(s)) => s == Seq::<config::OspfInterfaceConfigView>::empty(),
            (Err(e), Err(g)) => e@ == g,
            _ => false,
        },
{
    if !belongs_to(&f.vrf, vrf) {
        return Ok(None);
    }
    let v = match &f.ospf_area {
        None => {
            return Ok(None);
        },
        Some(v) => v,
    };
    let area_id: u32 = match parse_area_id_value(v) {
        Err(e) => {
            return Err(e);
        },
        Ok(a) => a,
    };
    let a = first_address(&f.ipv4, 24);
    let auth_key = parse_auth_key(
        opt_str(&f.ospf_auth_type),
        opt_str(&f.ospf_auth_key),
        f.ospf_md5_key_id,
        opt_str(&f.ospf_md5_key),
    );
    let kind = kind_text(&f.ospf_network_type);
    let neighbors = static_neighbors(kind.as_str(), &f.ospf_neighbors);
    Ok(
        Some(
            OspfInterfaceConfig {
                name: vlan_text(parent, f.vlan_id),
                address: a.0,
                prefix_len: a.1,
                area_id,
                cost: f.ospf_cost.unwrap_or(10),
                passive: f.ospf_passive.unwrap_or(passive),
                network_type: kind,
                hello_interval: f.ospf_hello_interval.unwrap_or(10),
                dead_interval: f.ospf_dead_interval.unwrap_or(40),
                retransmit_interval: f.ospf_retransmit_interval.unwrap_or(5),
                priority: f.ospf_priority.unwrap_or(1),
                auth_key,
                static_neighbors: neighbors,
            },
        ),
    )
}

/// What a loopback contributes.
fn build_loopback(f: &LoopbackConfig, vrf: Option<&str>) -> (r: Result<
    Option<OspfInterfaceConfig>,
    ConfigError,
>)
    ensures
        match (r, loopback_part(*f, opt_name(vrf))) {
            (Ok(Some(x)), Ok(s)) => s == seq![x@],
            (Ok(None), Ok(s)) => s == Seq::<config::OspfInterfaceConfigView>::empty(),
            (Err(e), Err(g)) => e@ == g,
            _ => false,
        },
{
    if !belongs_to(&f.vrf, vrf) {
        return Ok(None);
    }
    let v = match &f.ospf_area {
        None => {
            return Ok(None);
        },
        Some(v) => v,
    };
    let area_id: u32 = match parse_area_id_value(v) {
        Err(e) => {
            return Err(e);
        },
        Ok(a) => a,
    };
    let a = first_address(&f.ipv4, 32);
    let none: Vec<(u32, u8)> = Vec::new();
    assert(none@ =~= Seq::empty());
    Ok(
        Some(
            OspfInterfaceConfig {
                name: name_text(&f.name),
                address: a.0,
                prefix_len: a.1,
                area_id,
                cost: f.ospf_cost.unwrap_or(1),
                passive: f.ospf_passive.unwrap_or(true),
                network_type: "point-to-point".to_owned(),
                hello_interval: 10,
                dead_interval: 40,
                retransmit_interval: 5,
                priority: 0,
                auth_key: AuthKey::Null,
                static_neighbors: none,
            },
        ),
    )
}

/// Appends what the VLANs of an interface contribute.
fn build_subs(
    parent: &str,
    fs: &Vec<SubInterfaceConfig>,
    passive: bool,
    vrf: Option<&str>,
    out: &mut Vec<OspfInterfaceConfig>,
) -> (r: Result<(), ConfigError>)
    ensures
        match (r, sub_parts(parent@, fs@, passive, opt_name(vrf), 0)) {
            (Ok(_), Ok(s)) => wire::views(final(out)@) == wire::views(old(out)@) + s,
            (Err(e), Err(g)) => e@ == g,
            _ => false,
        },
{
    let ghost start = wire::views(out@);
    let ghost v = opt_name(vrf);
    let ghost all = sub_parts(parent@, fs@, passive, v, 0);
    let mut i: usize = 0;
    assert(all matches Ok(s) ==> start + s =~= wire::views(out@) + s);
    while i < fs.len()
        invariant
            i <= fs@.len(),
            v == opt_name(vrf),
            all == sub_parts(parent@, fs@, passive, v, 0),
            match (all, sub_parts(parent@, fs@, passive, v, i as int)) {
                (Ok(s), Ok(rest)) => start + s == wire::views(out@) + rest,
                (Err(e), Err(g)) => e == g,
                _ => false,
            },
        decreases fs.len() - i,
    {
        match build_sub(parent, &fs[i], passive, vrf) {
            Err(e) => {
                return Err(e);
            },
            Ok(None) => {
                proof {
                    match sub_parts(parent@, fs@, passive, v, i + 1) {
                        Ok(rest) => {
                            assert(Seq::<config::OspfInterfaceConfigView>::empty() + rest =~= rest);
                        },
                        Err(_) => {},
                    }
                }
            },
            Ok(Some(x)) => {
                let ghost before = wire::views(out@);
                let ghost xv = x@;
                out.push(x);
                proof {
                    match sub_parts(parent@, fs@, passive, v, i + 1) {
                        Ok(rest) => {
                            assert(before + (seq![xv] + rest) =~= wire::views(out@) + rest);
                        },
                        Err(_) => {},
                    }
                }
            },
        }
        i = i + 1;
    }
    assert(wire::views(out@) + Seq::<config::OspfInterfaceConfigView>::empty() =~= wire::views(
        out@,
    ));
    Ok(())
}

/// Appends what an interface and its VLANs contribute.
fn build_interface(
    f: &InterfaceConfig,
    passive: bool,
    vrf: Option<&str>,
    out: &mut Vec<OspfInterfaceConfig>,
) -> (r: Result<(), ConfigError>)
    ensures
        match (r, interface_part(*f, passive, opt_name(vrf))) {
            (Ok(_), Ok(s)) => wire::views(final(out)@) == wire::views(old(out)@) + s,
            (Err(e), Err(g)) => e@ == g,
            _ => false,
        },
{
    let ghost start = wire::views(out@);
    let ghost want = interface_part(*f, passive, opt_name(vrf));
    let ghost own = parent_part(*f, passive, opt_name(vrf));
    match build_parent(f, passive, vrf) {
        Err(e) => {
            return Err(e);
        },
        Ok(None) => {
            assert(wire::views(out@) =~= start + own->Ok_0);
        },
        Ok(Some(x)) => {
            let ghost xv = x@;
            out.push(x);
            assert(wire::views(out@) =~= start + seq![xv]);
        },
    }
    assert(wire::views(out@) == start + own->Ok_0);
    let ghost mid = wire::views(out@);
    match &f.name {
        Some(n) => {
            if n.as_str().is_empty() {
                assert(own->Ok_0 + Seq::<config::OspfInterfaceConfigView>::empty()
                    =~= own->Ok_0);
                return Ok(());
            }
            match build_subs(n.as_str(), &f.subinterfaces, passive, vrf, out) {
                Err(e) => Err(e),
                Ok(_) => {
                    let ghost subs = sub_parts(
                        n@,
                        f.subinterfaces@,
                        passive,
                        opt_name(vrf),
                        0,
                    )->Ok_0;
                    assert((start + own->Ok_0) + subs =~= start + (own->Ok_0 + subs));
                    Ok(())
                },
            }
        },
        None => {
            assert(own->Ok_0 + Seq::<config::OspfInterfaceConfigView>::empty() =~= own->Ok_0);
            Ok(())
        },
    }
}

/// Appends what the interfaces contribute.
fn build_interfaces(
    fs: &Vec<InterfaceConfig>,
    passive: bool,
    vrf: Option<&str>,
    out: &mut Vec<OspfInterfaceConfig>,
) -> (r: Result<(), ConfigError>)
    ensures
        match (r, interface_parts(fs@, passive, opt_name(vrf), 0)) {
            (Ok(_), Ok(s)) => wire::views(final(out)@) == wire::views(old(out)@) + s,
            (Err(e), Err(g)) => e@ == g,
            _ => false,
        },
{
    let ghost start = wire::views(out@);
    let ghost v = opt_name(vrf);
    let ghost all = interface_parts(fs@, passive, v, 0);
    let mut i: usize = 0;
    assert(all matches Ok(s) ==> start + s =~= wire::views(out@) + s);
    while i < fs.len()
        invariant
            i <= fs@.len(),
            v == opt_name(vrf),
            all == interface_parts(fs@, passive, v, 0),
            match (all, interface_parts(fs@, passive, v, i as int)) {
                (Ok(s), Ok(rest)) => start + s == wire::views(out@) + rest,
                (Err(e), Err(g)) => e == g,
                _ => false,
            },
        decreases fs.len() - i,
    {
        let ghost before = wire::views(out@);
        match build_interface(&fs[i], passive, vrf, out) {
            Err(e) => {
                return Err(e);
            },
            Ok(_) => {
                proof {
                    match interface_parts(fs@, passive, v, i + 1) {
                        Ok(rest) => {
                            let x = interface_part(fs@[i as int], passive, v)->Ok_0;
                            assert(before + (x + rest) =~= wire::views(out@) + rest);
                        },
                        Err(_) => {},
                    }
                }
            },
        }
        i = i + 1;
    }
    assert(wire::views(out@) + Seq::<config::OspfInterfaceConfigView>::empty() =~= wire::views(
        out@,
    ));
    Ok(())
}

/// Appends what the loopbacks contribute.
fn build_loopbacks(
    fs: &Vec<LoopbackConfig>,
    vrf: Option<&str>,
    out: &mut Vec<OspfInterfaceConfig>,
) -> (r: Result<(), ConfigError>)
    ensures
        match (r, loopback_parts(fs@, opt_name(vrf), 0)) {
            (Ok(_), Ok(s)) => wire::views(final(out)@) == wire::views(old(out)@) + s,
            (Err(e), Err(g)) => e@ == g,
            _ => false,
        },
{
    let ghost start = wire::views(out@);
    let ghost v = opt_name(vrf);
    let ghost all = loopback_parts(fs@, v, 0);
    let mut i: usize = 0;
    assert(all matches Ok(s) ==> start + s =~= wire::views(out@) + s);
    while i < fs.len()
        invariant
            i <= fs@.len(),
            v == opt_name(vrf),
            all == loopback_parts(fs@, v, 0),
            match (all, loopback_parts(fs@, v, i as int)) {
                (Ok(s), Ok(rest)) => start + s == wire::views(out@) + rest,
                (Err(e), Err(g)) => e == g,
                _ => false,
            },
        decreases fs.len() - i,
    {
        match build_loopback(&fs[i], vrf) {
            Err(e) => {
                return Err(e);
            },
            Ok(None) => {
                proof {
                    match loopback_parts(fs@, v, i + 1) {
                        Ok(rest) => {
                            assert(Seq::<config::OspfInterfaceConfigView>::empty() + rest =~= rest);
                        },
                        Err(_) => {},
                    }
                }
            },
            Ok(Some(x)) => {
                let ghost before = wire::views(out@);
                let ghost xv = x@;
                out.push(x);
                proof {
                    match loopback_parts(fs@, v, i + 1) {
                        Ok(rest) => {
                            assert(before + (seq![xv] + rest) =~= wire::views(out@) + rest);
                        },
                        Err(_) => {},
                    }
                }
            },
        }
        i = i + 1;
    }
    assert(wire::views(out@) + Seq::<config::OspfInterfaceConfigView>::empty() =~= wire::views(
        out@,
    ));
    Ok(())
}

/// A copy of the flags.
fn copy_flags(v: &Vec<bool>) -> (r: Vec<bool>)
    ensures
        r@ == v@,
{
    let mut out: Vec<bool> = Vec::new();
    let mut i: usize = 0;
    while i < v.len()
        invariant
            i <= v@.len(),
            out@ == v@.take(i as int),
        decreases v.len() - i,
    {
        out.push(v[i]);
        i = i + 1;
        assert(out@ =~= v@.take(i as int));
    }
    assert(out@ =~= v@);
    out
}

/// Whether one of the maps in front of `to` has the name.
fn is_named_before(ms: &Vec<RouteMapEntry>, name: &str, to: usize) -> (r: bool)
    requires
        to <= ms@.len(),
    ensures
        r == named_before(ms@, name@, to as int),
{
    let mut i: usize = 0;
    while i < to
        invariant
            i <= to <= ms@.len(),
            forall|k: int| 0 <= k < i ==> (#[trigger] ms@[k]).name@ != name@,
        decreases to - i,
    {
        if same_text(ms[i].name.as_str(), name) {
            return true;
        }
        i = i + 1;
    }
    false
}

/// Compiles the route maps.
pub fn compile_route_maps(ms: &Vec<RouteMapEntry>) -> (r: Result<Vec<RouteMap>, ConfigError>)
    ensures
        match (r, compiled_maps(ms@, 0)) {
            (Ok(v), Ok(s)) => wire::views(v@) == s,
            (Err(e), Err(f)) => e@ == f,
            _ => false,
        },
{
    let mut out: Vec<RouteMap> = Vec::new();
    let ghost all = compiled_maps(ms@, 0);
    let mut i: usize = 0;
    assert(all matches Ok(s) ==> wire::views(out@) + s =~= s);
    while i < ms.len()
        invariant
            i <= ms@.len(),
            all == compiled_maps(ms@, 0),
            match (all, compiled_maps(ms@, i as int)) {
                (Ok(s), Ok(rest)) => s == wire::views(out@) + rest,
                (Err(e), Err(g)) => e == g,
                _ => false,
            },
        decreases ms.len() - i,
    {
        let m = &ms[i];
        if is_named_before(ms, m.name.as_str(), i) {
            return Err(ConfigError::DuplicateRouteMap(m.name.as_str().to_owned()));
        }
        match &m.permits {
            None => {
                return Err(ConfigError::BadRouteMap(m.name.as_str().to_owned()));
            },
            Some(p) => {
                let x = RouteMap { name: m.name.as_str().to_owned(), permits: copy_flags(p) };
                let ghost before = wire::views(out@);
                let ghost xv = x@;
                out.push(x);
                proof {
                    match compiled_maps(ms@, i + 1) {
                        Ok(rest) => {
                            assert(before + (seq![xv] + rest) =~= wire::views(out@) + rest);
                        },
                        Err(_) => {},
                    }
                }
            },
        }
        i = i + 1;
    }
    assert(wire::views(out@) + Seq::<config::RouteMapView>::empty() =~= wire::views(out@));
    Ok(out)
}

/// Whether a route map has the name.
fn knows_map(ms: &Vec<RouteMap>, name: &str) -> (r: bool)
    ensures
        r == has_map(wire::views(ms@), name@),
{
    let ghost s = wire::views(ms@);
    let mut i: usize = 0;
    while i < ms.len()
        invariant
            i <= ms@.len(),
            s == wire::views(ms@),
            forall|k: int| 0 <= k < i ==> (#[trigger] s[k]).name != name@,
        decreases ms.len() - i,
    {
        assert(s[i as int] == ms@[i as int]@);
        if same_text(ms[i].name.as_str(), name) {
            return true;
        }
        i = i + 1;
    }
    false
}

/// Builds the redistribution rules.
pub fn build_rules(es: &Vec<RedistributeEntry>, ms: &Vec<RouteMap>) -> (r: Result<
    Vec<RedistributeConfig>,
    ConfigError,
>)
    ensures
        match (r, rules_of(es@, wire::views(ms@), 0)) {
            (Ok(v), Ok(s)) => wire::views(v@) == s,
            (Err(e), Err(f)) => e@ == f,
            _ => false,
        },
{
    let ghost mv = wire::views(ms@);
    let mut out: Vec<RedistributeConfig> = Vec::new();
    let ghost all = rules_of(es@, mv, 0);
    let mut i: usize = 0;
    assert(all matches Ok(s) ==> wire::views(out@) + s =~= s);
    while i < es.len()
        invariant
            i <= es@.len(),
            mv == wire::views(ms@),
            all == rules_of(es@, mv, 0),
            match (all, rules_of(es@, mv, i as int)) {
                (Ok(s), Ok(rest)) => s == wire::views(out@) + rest,
                (Err(e), Err(g)) => e == g,
                _ => false,
            },
        decreases es.len() - i,
    {
        let e = &es[i];
        if let Some(source) = RedistributeSource::parse(e.source()) {
            if let Some(n) = &e.route_map {
                if !knows_map(ms, n.as_str()) {
                    return Err(ConfigError::UnknownRouteMap(n.as_str().to_owned()));
                }
            }
            let x = RedistributeConfig {
                source,
                metric: e.metric(),
                metric_type: e.metric_type(),
                route_map: match &e.route_map {
                    Some(n) => Some(n.as_str().to_owned()),
                    None => None,
                },
            };
            let ghost before = wire::views(out@);
            let ghost xv = x@;
            out.push(x);
            proof {
                match rules_of(es@, mv, i + 1) {
                    Ok(rest) => {
                        assert(before + (seq![xv] + rest) =~= wire::views(out@) + rest);
                    },
                    Err(_) => {},
                }
            }
        }
        i = i + 1;
    }
    assert(wire::views(out@) + Seq::<config::RedistributeConfigView>::empty() =~= wire::views(
        out@,
    ));
    Ok(out)
}

/// The type of an area by its name.
fn area_type_by_name(o: &Option<String>) -> (t: AreaType)
    ensures
        t == area_type_named(*o),
{
    match o {
        Some(s) => if same_text(s.as_str(), "stub") {
            AreaType::Stub
        } else if same_text(s.as_str(), "nssa") {
            AreaType::Nssa
        } else {
            AreaType::Normal
        },
        None => AreaType::Normal,
    }
}

/// Builds the areas.
pub fn build_areas(es: &Vec<AreaConfigEntry>) -> (r: Result<Vec<AreaConfig>, ConfigError>)
    ensures
        match (r, areas_of(es@, 0)) {
            (Ok(v), Ok(s)) => v@ == s,
            (Err(e), Err(f)) => e@ == f,
            _ => false,
        },
{
    let mut out: Vec<AreaConfig> = Vec::new();
    let ghost all = areas_of(es@, 0);
    let mut i: usize = 0;
    assert(all matches Ok(s) ==> out@ + s =~= s);
    while i < es.len()
        invariant
            i <= es@.len(),
            all == areas_of(es@, 0),
            match (all, areas_of(es@, i as int)) {
                (Ok(s), Ok(rest)) => s == out@ + rest,
                (Err(e), Err(g)) => e == g,
                _ => false,
            },
        decreases es.len() - i,
    {
        let e = &es[i];
        match parse_area_id_value(&e.area_id) {
            Err(x) => {
                return Err(x);
            },
            Ok(area_id) => {
                let x = AreaConfig {
                    area_id,
                    area_type: area_type_by_name(&e.area_type),
                    default_cost: e.default_cost.unwrap_or(1),
                };
                let ghost before = out@;
                out.push(x);
                proof {
                    match areas_of(es@, i + 1) {
                        Ok(rest) => {
                            assert(before + (seq![x] + rest) =~= out@ + rest);
                        },
                        Err(_) => {},
                    }
                }
            },
        }
        i = i + 1;
    }
    assert(out@ + Seq::<AreaConfig>::empty() =~= out@);
    Ok(out)
}

/// The summary range of an entry.
pub fn parse_summary_v4(e: &SummaryAddressEntry) -> (r: Option<ParsedSummaryAddress>)
    ensures
        r == summary_of(*e),
{
    match split_cidr(e.prefix.as_str()) {
        None => None,
        Some((a, prefix_len)) => match parse_ipv4(a) {
            None => None,
            Some(_) if prefix_len > 32 => None,
            Some(prefix) => Some(
                ParsedSummaryAddress {
                    prefix,
                    prefix_len,
                    no_advertise: e.no_advertise,
                    tag: e.tag.unwrap_or(0),
                    metric: e.metric.unwrap_or(20),
                    metric_type: e.metric_type.unwrap_or(2),
                },
            ),
        },
    }
}

/// The summary ranges whose prefix can be read.
fn build_summaries(es: &Vec<SummaryAddressEntry>) -> (r: Vec<ParsedSummaryAddress>)
    ensures
        r@ == summaries_of(es@, 0),
{
    let mut v: Vec<ParsedSummaryAddress> = Vec::new();
    let mut i: usize = 0;
    assert(v@ + summaries_of(es@, 0) =~= summaries_of(es@, 0));
    while i < es.len()
        invariant
            i <= es@.len(),
            summaries_of(es@, 0) == v@ + summaries_of(es@, i as int),
        decreases es.len() - i,
    {
        match parse_summary_v4(&es[i]) {
            Some(s) => {
                let ghost before = v@;
                v.push(s);
                assert(before + (seq![s] + summaries_of(es@, i + 1)) =~= v@ + summaries_of(
                    es@,
                    i + 1,
                ));
            },
            None => {},
        }
        i = i + 1;
    }
    assert(v@ + Seq::<ParsedSummaryAddress>::empty() =~= v@);
    v
}

/// The router id of a block.
pub fn parse_router_id(o: &Option<String>) -> (r: Result<u32, ConfigError>)
    ensures
        match (r, router_id_of(*o)) {
            (Ok(a), Ok(b)) => a == b && a != 0,
            (Err(e), Err(f)) => e@ == f,
            _ => false,
        },
{
    match o {
        None => Err(ConfigError::NoRouterId),
        Some(s) => match parse_ipv4(s.as_str()) {
            None => Err(ConfigError::InvalidRouterId),
            Some(a) => {
                if a == 0 {
                    Err(ConfigError::NoRouterId)
                } else {
                    Ok(a)
                }
            },
        },
    }
}

/// The configuration of the instance that a block describes.
fn build(c: &RouterConfig, b: &OspfBlock<'_>, vrf: Option<&str>, table_id_v4: u32) -> (r: Result<
    OspfDaemonConfig,
    ConfigError,
>)
    ensures
        match (r, built(*c, *b, opt_name(vrf), table_id_v4)) {
            (Ok(x), Ok(v)) => x@ == v,
            (Err(e), Err(f)) => e@ == f,
            _ => false,
        },
{
    if !b.enabled {
        return Err(ConfigError::NotEnabled);
    }
    let router_id: u32 = match parse_router_id(b.router_id) {
        Err(e) => {
            return Err(e);
        },
        Ok(a) => a,
    };
    let mut interfaces: Vec<OspfInterfaceConfig> = Vec::new();
    let ghost none = wire::views(interfaces@);
    match build_interfaces(&c.interfaces, b.passive_default, vrf, &mut interfaces) {
        Err(e) => {
            return Err(e);
        },
        Ok(_) => {},
    }
    let ghost first = interface_parts(c.interfaces@, b.passive_default, opt_name(vrf), 0)->Ok_0;
    assert(wire::views(interfaces@) =~= first);
    match build_loopbacks(&c.loopbacks, vrf, &mut interfaces) {
        Err(e) => {
            return Err(e);
        },
        Ok(_) => {},
    }
    let route_maps = match compile_route_maps(&c.route_maps) {
        Err(e) => {
            return Err(e);
        },
        Ok(m) => m,
    };
    let redistribute = match build_rules(b.redistribute, &route_maps) {
        Err(e) => {
            return Err(e);
        },
        Ok(m) => m,
    };
    let areas = match build_areas(b.areas) {
        Err(e) => {
            return Err(e);
        },
        Ok(m) => m,
    };
    Ok(
        OspfDaemonConfig {
            vrf_name: match vrf {
                Some(n) => Some(n.to_owned()),
                None => None,
            },
            table_id_v4,
            router_id,
            reference_bandwidth: b.reference_bandwidth.unwrap_or(100),
            spf_delay_ms: b.spf_delay.unwrap_or(50),
            spf_holdtime_ms: b.spf_holdtime.unwrap_or(200),
            spf_max_holdtime_ms: b.spf_max_holdtime.unwrap_or(5000),
            interfaces,
            redistribute,
            areas,
            distance: b.distance,
            distance_intra: b.distance_intra,
            distance_inter: b.distance_inter,
            distance_external: b.distance_external,
            default_originate: b.default_originate,
            default_originate_metric: b.default_originate_metric.unwrap_or(1),
            default_originate_metric_type: b.default_originate_metric_type.unwrap_or(2),
            summary_addresses: build_summaries(b.summary_addresses),
            route_maps,
        },
    )
}

/// The position of the VRF block with the given name.
pub fn find_block(bs: &Vec<OspfVrfYaml>, name: &str) -> (r: Option<usize>)
    ensures
        match (r, block_pos(bs@, name@, 0)) {
            (Some(i), Some(j)) => i == j && i < bs@.len(),
            (None, None) => true,
            _ => false,
        },
{
    let mut i: usize = 0;
    while i < bs.len()
        invariant
            i <= bs@.len(),
            block_pos(bs@, name@, 0) == block_pos(bs@, name@, i as int),
        decreases bs.len() - i,
    {
        if same_text(bs[i].name.as_str(), name) {
            return Some(i);
        }
        i = i + 1;
    }
    None
}

/// The position of the VRF with the given name.
pub fn find_vrf(vs: &Vec<VrfYaml>, name: &str) -> (r: Option<usize>)
    ensures
        match (r, vrf_pos(vs@, name@, 0)) {
            (Some(i), Some(j)) => i == j && i < vs@.len(),
            (None, None) => true,
            _ => false,
        },
{
    let mut i: usize = 0;
    while i < vs.len()
        invariant
            i <= vs@.len(),
            vrf_pos(vs@, name@, 0) == vrf_pos(vs@, name@, i as int),
        decreases vs.len() - i,
    {
        if same_text(vs[i].name.as_str(), name) {
            return Some(i);
        }
        i = i + 1;
    }
    None
}

impl OspfDaemonConfig {
    /// Builds the configuration of the default instance, or of that of a VRF.
    pub fn from_router_yaml(config: &RouterConfig, vrf_name: Option<&str>) -> (r: Result<
        OspfDaemonConfig,
        ConfigError,
    >)
        ensures
            match (r, instance_config(*config, opt_name(vrf_name))) {
                (Ok(x), Ok(v)) => x@ == v,
                (Err(e), Err(f)) => e@ == f,
                _ => false,
            },
    {
        match vrf_name {
            None => build(config, &config.ospf.block(), vrf_name, 0),
            Some(name) => match find_block(&config.ospf.vrfs, name) {
                None => Err(ConfigError::NoVrfBlock),
                Some(i) => match find_vrf(&config.vrfs, name) {
                    None => Err(ConfigError::VrfNotDeclared),
                    Some(j) => {
                        let table: u32 = config.vrfs[j].table_id_v4;
                        if table == 0 {
                            Err(ConfigError::ReservedTable)
                        } else {
                            build(config, &config.ospf.vrfs[i].block(), vrf_name, table)
                        }
                    },
                },
            },
        }
    }

    /// Builds the configurations of all instances that the file describes. One that is not valid is
    /// left out and does not keep the others from running.
    pub fn load_all(config: &RouterConfig) -> (r: Vec<OspfDaemonConfig>)
        ensures
            wire::views(r@) == all_configs(*config),
    {
        let mut out: Vec<OspfDaemonConfig> = Vec::new();
        assert(wire::views(out@) =~= Seq::empty());
        if config.ospf.enabled {
            match OspfDaemonConfig::from_router_yaml(config, None) {
                Ok(c) => {
                    let ghost cv = c@;
                    out.push(c);
                    assert(wire::views(out@) =~= seq![cv]);
                },
                Err(_) => {},
            }
        }
        let ghost first = wire::views(out@);
        let mut i: usize = 0;
        while i < config.ospf.vrfs.len()
            invariant
                i <= config.ospf.vrfs@.len(),
                first + vrf_configs(*config, 0) == wire::views(out@) + vrf_configs(
                    *config,
                    i as int,
                ),
            decreases config.ospf.vrfs.len() - i,
        {
            let name = config.ospf.vrfs[i].name.as_str();
            match OspfDaemonConfig::from_router_yaml(config, Some(name)) {
                Ok(c) => {
                    let ghost before = wire::views(out@);
                    let ghost cv = c@;
                    out.push(c);
                    assert(before + (seq![cv] + vrf_configs(*config, i + 1)) =~= wire::views(out@)
                        + vrf_configs(*config, i + 1));
                },
                Err(_) => {},
            }
            i = i + 1;
        }
        assert(wire::views(out@) + Seq::<config::OspfDaemonConfigView>::empty() =~= wire::views(
            out@,
        ));
        out
    }
}

} // verus!
