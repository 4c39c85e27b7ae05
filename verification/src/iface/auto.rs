//! Discovery of peers on the local network by multicast, and the peers that were found.
//!
//! Every node sends a beacon with a token to a multicast group. The token is a hash over the name
//! of the group and the text of the sender's link-local address, so that a beacon is only taken
//! from the address that it was made for.
//!
//! Addresses are sixteen bytes here; where their text matters, it is handed in.

use vstd::prelude::*;
use vstd::string::*;

use crate::bytes;
use crate::hash;
use crate::text;

pub use crate::iface::auto_peers::{AutoInterfaceConfig, AutoPeers, MultiIfDeque};

verus! {

pub const DEFAULT_DISCOVERY_PORT: u16 = 29716;

pub const DEFAULT_DATA_PORT: u16 = 42671;

pub const DEFAULT_GROUP_ID: &'static str = "reticulum";

/// The longest packet.
pub const HW_MTU: usize = 1196;

/// Time without a sign of life after which a peer is dropped, in nanoseconds.
pub const PEERING_TIMEOUT: u64 = 22_000_000_000;

/// Time between two beacons.
pub const ANNOUNCE_INTERVAL: u64 = 1_600_000_000;

/// Time between two rounds over the peers.
pub const PEER_JOB_INTERVAL: u64 = 4_000_000_000;

/// Time in which a beacon is expected to echo.
pub const MCAST_ECHO_TIMEOUT: u64 = 6_500_000_000;

/// Time between two beacons sent to one peer directly.
pub const REVERSE_PEERING_INTERVAL: u64 = 5_200_000_000;

/// Packets that are remembered to recognise duplicates.
pub const MULTI_IF_DEQUE_LEN: usize = 48;

/// Time in which a packet counts as a duplicate.
pub const MULTI_IF_DEQUE_TTL: u64 = 750_000_000;

/// How far a discovery group reaches.
#[derive(Debug, Clone, Copy, PartialEq, Eq, Structural)]
pub enum DiscoveryScope {
    Link,
    Admin,
    Site,
    Organisation,
    Global,
}

impl Default for DiscoveryScope {
    fn default() -> (r: Self)
        ensures
            r == DiscoveryScope::Link,
    {
        DiscoveryScope::Link
    }
}

/// The digit of a scope in a multicast address.
pub open spec fn scope_id(scope: DiscoveryScope) -> char {
    match scope {
        DiscoveryScope::Link => '2',
        DiscoveryScope::Admin => '4',
        DiscoveryScope::Site => '5',
        DiscoveryScope::Organisation => '8',
        DiscoveryScope::Global => 'e',
    }
}

/// The scope that a lower-case name stands for.
pub open spec fn scope_named(name: Seq<char>) -> DiscoveryScope {
    if name == "admin"@ {
        DiscoveryScope::Admin
    } else if name == "site"@ {
        DiscoveryScope::Site
    } else if name == "organisation"@ || name == "organization"@ {
        DiscoveryScope::Organisation
    } else if name == "global"@ {
        DiscoveryScope::Global
    } else {
        DiscoveryScope::Link
    }
}

impl DiscoveryScope {
    fn id(self) -> (r: char)
        ensures
            r == scope_id(self),
    {
        match self {
            DiscoveryScope::Link => '2',
            DiscoveryScope::Admin => '4',
            DiscoveryScope::Site => '5',
            DiscoveryScope::Organisation => '8',
            DiscoveryScope::Global => 'e',
        }
    }

    /// The scope with a name, in any case; the link where the name is none.
    pub fn parse(value: &str) -> (r: Self)
        ensures
            r == scope_named(text::lowercased(value@)),
            value.is_ascii() ==> r == scope_named(text::ascii_lowered(value@)),
    {
        let lower: String = text::to_lowercase(value);
        DiscoveryScope::parse_lower(lower.as_str())
    }

    /// The scope with a lower-case name; the link where the name is none.
    pub fn parse_lower(name: &str) -> (r: Self)
        ensures
            r == scope_named(name@),
    {
        if text::same_text(name, "admin") {
            DiscoveryScope::Admin
        } else if text::same_text(name, "site") {
            DiscoveryScope::Site
        } else if text::same_text(name, "organisation") || text::same_text(name, "organization") {
            DiscoveryScope::Organisation
        } else if text::same_text(name, "global") {
            DiscoveryScope::Global
        } else {
            DiscoveryScope::Link
        }
    }
}

/// Whether a discovery group is assigned for good.
#[derive(Debug, Clone, Copy, PartialEq, Eq, Structural)]
pub enum MulticastAddressType {
    Temporary,
    Permanent,
}

impl Default for MulticastAddressType {
    fn default() -> (r: Self)
        ensures
            r == MulticastAddressType::Temporary,
    {
        MulticastAddressType::Temporary
    }
}

/// The digit of a type in a multicast address.
pub open spec fn type_id(address_type: MulticastAddressType) -> char {
    match address_type {
        MulticastAddressType::Temporary => '1',
        MulticastAddressType::Permanent => '0',
    }
}

/// The type that a lower-case name stands for.
pub open spec fn type_named(name: Seq<char>) -> MulticastAddressType {
    if name == "permanent"@ {
        MulticastAddressType::Permanent
    } else {
        MulticastAddressType::Temporary
    }
}

impl MulticastAddressType {
    fn id(self) -> (r: char)
        ensures
            r == type_id(self),
    {
        match self {
            MulticastAddressType::Temporary => '1',
            MulticastAddressType::Permanent => '0',
        }
    }

    /// The type with a name, in any case; temporary where the name is none.
    pub fn parse(value: &str) -> (r: Self)
        ensures
            r == type_named(text::lowercased(value@)),
            value.is_ascii() ==> r == type_named(text::ascii_lowered(value@)),
    {
        let lower: String = text::to_lowercase(value);
        MulticastAddressType::parse_lower(lower.as_str())
    }

    /// The type with a lower-case name; temporary where the name is none.
    pub fn parse_lower(name: &str) -> (r: Self)
        ensures
            r == type_named(name@),
    {
        if text::same_text(name, "permanent") {
            MulticastAddressType::Permanent
        } else {
            MulticastAddressType::Temporary
        }
    }
}

/// The groups of a multicast address that come from the first `n` pairs of a hash behind its first
/// pair, each with a colon in front.
pub open spec fn hash_groups(digest: Seq<u8>, n: int) -> Seq<char>
    decreases n,
{
    if n <= 0 {
        Seq::empty()
    } else {
        hash_groups(digest, n - 1) + seq![':'] + text::hex_number(
            (digest[2 * n] * 256 + digest[2 * n + 1]) as nat,
            2,
        )
    }
}

/// The multicast address that the hash of a discovery group's name gives: its scope and type, and
/// six groups of the hash.
pub open spec fn digest_address(
    digest: Seq<u8>,
    scope: DiscoveryScope,
    address_type: MulticastAddressType,
) -> Seq<char> {
    seq!['f', 'f', type_id(address_type), scope_id(scope), ':', '0'] + hash_groups(digest, 6)
}

/// The multicast address of a discovery group, by the hash of its name.
pub open spec fn group_address(
    group_id: Seq<u8>,
    scope: DiscoveryScope,
    address_type: MulticastAddressType,
) -> Seq<char> {
    digest_address(hash::sha256_digest(group_id), scope, address_type)
}

/// Appends a number in hexadecimal digits, at least two of them.
fn push_group(address: &mut String, group: u16)
    ensures
        final(address)@ == old(address)@ + text::hex_number(group as nat, 2),
{
    let a: u8 = (group / 4096) as u8;
    let b: u8 = (group / 256 % 16) as u8;
    let c: u8 = (group / 16 % 16) as u8;
    let d: u8 = (group % 16) as u8;
    proof {
        reveal_with_fuel(text::hex_number, 5);
        assert(group / 16 / 16 == group / 256);
        assert(group / 256 / 16 == group / 4096);
    }
    if a > 0 {
        text::push_char(address, text::hex_char(a));
    }
    if a > 0 || b > 0 {
        text::push_char(address, text::hex_char(b));
    }
    text::push_char(address, text::hex_char(c));
    text::push_char(address, text::hex_char(d));
    assert(address@ =~= old(address)@ + text::hex_number(group as nat, 2));
}

/// The multicast address of a discovery group.
pub fn mcast_discovery_address(
    group_id: &str,
    scope: DiscoveryScope,
    address_type: MulticastAddressType,
) -> (r: String)
    ensures
        r@ == group_address(group_id.spec_bytes(), scope, address_type),
{
    let digest: [u8; 32] = hash::sha256(group_id.as_bytes());
    address_of_digest(&digest, scope, address_type)
}

/// The multicast address that the hash of a discovery group's name gives.
pub fn address_of_digest(
    digest: &[u8; 32],
    scope: DiscoveryScope,
    address_type: MulticastAddressType,
) -> (r: String)
    ensures
        r@ == digest_address(digest@, scope, address_type),
{
    let mut address: String = String::new();
    text::push_char(&mut address, 'f');
    text::push_char(&mut address, 'f');
    text::push_char(&mut address, address_type.id());
    text::push_char(&mut address, scope.id());
    text::push_char(&mut address, ':');
    text::push_char(&mut address, '0');
    let ghost head = seq!['f', 'f', type_id(address_type), scope_id(scope), ':', '0'];
    assert(address@ =~= head + hash_groups(digest@, 0));
    let mut n: usize = 0;
    while n < 6
        invariant
            n <= 6,
            digest@.len() == 32,
            address@ == head + hash_groups(digest@, n as int),
        decreases 6 - n,
    {
        n += 1;
        let group: u16 = digest[2 * n] as u16 * 256 + digest[2 * n + 1] as u16;
        text::push_char(&mut address, ':');
        push_group(&mut address, group);
        assert(address@ =~= head + hash_groups(digest@, n as int));
    }
    address
}

/// The token that a node at an address sends to a discovery group.
pub open spec fn token_of(group_id: Seq<u8>, address: Seq<u8>) -> Seq<u8> {
    hash::sha256_digest(group_id + address)
}

/// The token that a node at an address, given as text, sends to a discovery group.
pub fn discovery_token(group_id: &str, link_local_addr: &str) -> (r: [u8; 32])
    ensures
        r@ == token_of(group_id.spec_bytes(), link_local_addr.spec_bytes()),
{
    let mut data: Vec<u8> = bytes::to_vec(group_id.as_bytes());
    bytes::append(&mut data, link_local_addr.as_bytes());
    hash::sha256(&data)
}

/// Whether a beacon was made for the address that it came from.
pub open spec fn is_token(group_id: Seq<u8>, src: Seq<u8>, data: Seq<u8>) -> bool {
    data.len() >= 32 && data.take(32) == token_of(group_id, src)
}

/// Whether a beacon was made for the address, given as text, that it came from.
pub fn verify_discovery_token(group_id: &str, src: &str, data: &[u8]) -> (r: bool)
    ensures
        r == is_token(group_id.spec_bytes(), src.spec_bytes(), data@),
{
    if data.len() < 32 {
        return false;
    }
    let token: [u8; 32] = discovery_token(group_id, src);
    assert(data@.take(32) =~= data@.subrange(0, 32));
    bytes::equal(&token, &data[0..32])
}

/// A beacon is taken from two addresses, or for two groups, only where their tokens are the same:
/// it cannot be passed off as that of another node but by a collision of the hash.
pub proof fn beacon_names_its_source(
    group_a: Seq<u8>,
    a: Seq<u8>,
    group_b: Seq<u8>,
    b: Seq<u8>,
    data: Seq<u8>,
)
    requires
        is_token(group_a, a, data),
    ensures
        is_token(group_b, b, data) <==> token_of(group_a, a) == token_of(group_b, b),
{
}

/// The address that 32 hexadecimal digits say.
pub open spec fn expanded_address(hex: Seq<char>) -> Option<Seq<u8>> {
    if hex.len() == 32 && (forall|i: int| 0 <= i < 32 ==> text::hex_value(#[trigger] hex[i]) is Some) {
        Some(
            Seq::new(
                16,
                |i: int|
                    (text::hex_value(hex[2 * i])->0 * 16 + text::hex_value(hex[2 * i + 1])->0) as u8,
            ),
        )
    } else {
        None
    }
}

/// The address that 32 hexadecimal digits say.
fn address_of_digits(hex: &[char]) -> (r: Option<[u8; 16]>)
    ensures
        match expanded_address(hex@) {
            Some(address) => r is Some && r->0@ == address,
            None => r is None,
        },
{
    if hex.len() != 32 {
        return None;
    }
    let mut address: [u8; 16] = [0; 16];
    let mut i: usize = 0;
    while i < 16
        invariant
            i <= 16,
            hex@.len() == 32,
            address@.len() == 16,
            forall|j: int| 0 <= j < 2 * i ==> text::hex_value(#[trigger] hex@[j]) is Some,
            forall|j: int|
                0 <= j < i ==> #[trigger] address@[j] == (text::hex_value(hex@[2 * j])->0 * 16
                    + text::hex_value(hex@[2 * j + 1])->0) as u8,
        decreases 16 - i,
    {
        let high: Option<u8> = text::hex_digit_value(hex[2 * i]);
        let low: Option<u8> = text::hex_digit_value(hex[2 * i + 1]);
        match (high, low) {
            (Some(high), Some(low)) => {
                address[i] = high * 16 + low;
            },
            _ => {
                assert(text::hex_value(hex@[2 * i]) is None || text::hex_value(
                    hex@[2 * i + 1],
                ) is None);
                return None;
            },
        }
        i += 1;
    }
    assert(address@ =~= expanded_address(hex@)->0);
    Some(address)
}

/// The address that 32 hexadecimal digits say.
pub fn parse_expanded_ipv6(hex: &str) -> (r: Result<[u8; 16], ()>)
    ensures
        match expanded_address(hex@) {
            Some(address) => r is Ok && r->Ok_0@ == address,
            None => r is Err,
        },
{
    let chars: Vec<char> = text::characters(hex);
    match address_of_digits(&chars) {
        Some(address) => Ok(address),
        None => Err(()),
    }
}

/// A network interface with a link-local address.
#[derive(Debug, PartialEq, Eq)]
pub struct LinkLocalIface {
    pub name: String,
    pub ifindex: u32,
    pub link_local: [u8; 16],
}

/// A network interface with a link-local address, as a mathematical value.
#[verifier::ext_equal]
pub struct IfaceView {
    pub name: Seq<char>,
    pub ifindex: u32,
    pub link_local: Seq<u8>,
}

impl View for LinkLocalIface {
    type V = IfaceView;

    open spec fn view(&self) -> IfaceView {
        IfaceView { name: self.name@, ifindex: self.ifindex, link_local: self.link_local@ }
    }
}

/// Interfaces as mathematical values.
pub open spec fn iface_views(ifaces: Seq<LinkLocalIface>) -> Seq<IfaceView> {
    ifaces.map_values(|i: LinkLocalIface| i@)
}

/// Names as mathematical values.
pub open spec fn name_views(names: Seq<String>) -> Seq<Seq<char>> {
    names.map_values(|n: String| n@)
}

/// Whether an interface with a name may be used: it is not ignored, and it is among the devices
/// where those are given.
pub open spec fn may_use(
    name: Seq<char>,
    devices: Seq<Seq<char>>,
    ignored: Seq<Seq<char>>,
) -> bool {
    &&& name != "lo0"@
    &&& !ignored.contains(name)
    &&& devices.len() == 0 || devices.contains(name)
}

/// The link-local address that a line of the kernel's list gives, where it is to be used. A line
/// has an address, an index, a prefix length, a scope, flags and a name.
pub open spec fn line_address(
    words: Seq<Seq<char>>,
    devices: Seq<Seq<char>>,
    ignored: Seq<Seq<char>>,
    adopt: Option<Seq<u8>>,
) -> Option<Seq<u8>> {
    if words.len() >= 6 && "fe80"@.is_prefix_of(words[0]) && words[3] == "20"@ && may_use(
        words[5],
        devices,
        ignored,
    ) {
        match expanded_address(words[0]) {
            Some(address) if adopt is None || adopt == Some(address) => Some(address),
            _ => None,
        }
    } else {
        None
    }
}

/// Where an interface is listed, or the length of the list.
pub open spec fn listed_at(ifaces: Seq<IfaceView>, name: Seq<char>, from: int) -> int
    decreases ifaces.len() - from,
{
    if from < 0 || from >= ifaces.len() {
        ifaces.len() as int
    } else if ifaces[from].name == name {
        from
    } else {
        listed_at(ifaces, name, from + 1)
    }
}

/// The list of interfaces after one more address; the last address of an interface counts.
pub open spec fn after_address(
    ifaces: Seq<IfaceView>,
    name: Seq<char>,
    ifindex: Option<u32>,
    link_local: Seq<u8>,
) -> Seq<IfaceView> {
    let at = listed_at(ifaces, name, 0);
    if at < ifaces.len() {
        ifaces.update(
            at,
            IfaceView {
                name,
                ifindex: match ifindex {
                    Some(ifindex) => ifindex,
                    None => ifaces[at].ifindex,
                },
                link_local,
            },
        )
    } else {
        ifaces.push(
            IfaceView {
                name,
                ifindex: match ifindex {
                    Some(ifindex) => ifindex,
                    None => 0,
                },
                link_local,
            },
        )
    }
}

/// The list of interfaces after the first `n` lines.
pub open spec fn after_lines(
    lines: Seq<Seq<char>>,
    devices: Seq<Seq<char>>,
    ignored: Seq<Seq<char>>,
    adopt: Option<Seq<u8>>,
    n: int,
) -> Seq<IfaceView>
    decreases n,
{
    if n <= 0 {
        Seq::empty()
    } else {
        let before = after_lines(lines, devices, ignored, adopt, n - 1);
        let words = text::words(lines[n - 1]);
        match line_address(words, devices, ignored, adopt) {
            Some(address) => after_address(
                before,
                words[5],
                text::decimal_u32(words[1]),
                address,
            ),
            None => before,
        }
    }
}

/// The interfaces that a list of the kernel gives. Where one address is asked for, that is one.
pub open spec fn ifaces_in(
    list: Seq<char>,
    devices: Seq<Seq<char>>,
    ignored: Seq<Seq<char>>,
    adopt: Option<Seq<u8>>,
) -> Seq<IfaceView> {
    let lines = text::lines(list);
    let all = after_lines(lines, devices, ignored, adopt, lines.len() as int);
    if adopt is Some && all.len() > 0 {
        all.take(1)
    } else {
        all
    }
}

/// Whether characters are a name in a list.
fn is_listed(names: &[String], name: &[char]) -> (r: bool)
    ensures
        r == name_views(names@).contains(name@),
{
    let mut i: usize = 0;
    let ghost views = name_views(names@);
    while i < names.len()
        invariant
            i <= names@.len(),
            views == name_views(names@),
            forall|j: int| 0 <= j < i ==> #[trigger] views[j] != name@,
        decreases names@.len() - i,
    {
        assert(views[i as int] == names@[i as int]@);
        if text::same_chars(name, names[i].as_str()) {
            return true;
        }
        i += 1;
    }
    assert forall|j: int| 0 <= j < views.len() implies views[j] != name@ by {}
    false
}

/// Whether an interface with a name may be used.
fn is_usable(name: &[char], devices: &[String], ignored_devices: &[String]) -> (r: bool)
    ensures
        r == may_use(name@, name_views(devices@), name_views(ignored_devices@)),
{
    if text::same_chars(name, "lo0") || is_listed(ignored_devices, name) {
        return false;
    }
    devices.len() == 0 || is_listed(devices, name)
}

/// The optional bytes of an address.
pub open spec fn address_view(address: Option<[u8; 16]>) -> Option<Seq<u8>> {
    match address {
        Some(address) => Some(address@),
        None => None,
    }
}

/// Whether characters start with the prefix of link-local addresses.
fn is_link_local(word: &[char]) -> (r: bool)
    ensures
        r == "fe80"@.is_prefix_of(word@),
{
    proof {
        reveal_strlit("fe80");
    }
    if word.len() < 4 {
        return false;
    }
    let r: bool = word[0] == 'f' && word[1] == 'e' && word[2] == '8' && word[3] == '0';
    proof {
        if r {
            assert("fe80"@ =~= word@.subrange(0, 4));
        } else {
            assert("fe80"@[0] == 'f' && "fe80"@[1] == 'e' && "fe80"@[2] == '8' && "fe80"@[3]
                == '0');
        }
    }
    r
}

/// The link-local address that a line of the kernel's list gives, where it is to be used.
fn parse_line(
    words: &Vec<Vec<char>>,
    devices: &[String],
    ignored_devices: &[String],
    adopt: Option<[u8; 16]>,
) -> (r: Option<[u8; 16]>)
    ensures
        address_view(r) == line_address(
            text::chars_views(words@),
            name_views(devices@),
            name_views(ignored_devices@),
            address_view(adopt),
        ),
{
    let ghost views = text::chars_views(words@);
    if words.len() < 6 {
        return None;
    }
    assert(views[0] == words@[0]@);
    assert(views[3] == words@[3]@);
    assert(views[5] == words@[5]@);
    if !is_link_local(&words[0]) || !text::same_chars(&words[3], "20") {
        return None;
    }
    if !is_usable(&words[5], devices, ignored_devices) {
        return None;
    }
    match address_of_digits(&words[0]) {
        Some(address) => {
            let wanted: bool = match adopt {
                Some(adopt) => bytes::equal(&adopt, &address),
                None => true,
            };
            if wanted {
                Some(address)
            } else {
                None
            }
        },
        None => None,
    }
}

/// Lists one more address.
fn list_address(
    ifaces: &mut Vec<LinkLocalIface>,
    name: &[char],
    ifindex: Option<u32>,
    link_local: [u8; 16],
)
    ensures
        iface_views(final(ifaces)@) == after_address(
            iface_views(old(ifaces)@),
            name@,
            ifindex,
            link_local@,
        ),
{
    let ghost views = iface_views(ifaces@);
    let mut i: usize = 0;
    while i < ifaces.len()
        invariant
            i <= ifaces@.len(),
            *ifaces == *old(ifaces),
            views == iface_views(ifaces@),
            listed_at(views, name@, 0) == listed_at(views, name@, i as int),
        decreases ifaces@.len() - i,
    {
        assert(views[i as int] == ifaces@[i as int]@);
        if text::same_chars(name, ifaces[i].name.as_str()) {
            ifaces[i].link_local = link_local;
            if let Some(ifindex) = ifindex {
                ifaces[i].ifindex = ifindex;
            }
            assert(iface_views(ifaces@) =~= after_address(views, name@, ifindex, link_local@));
            return;
        }
        i += 1;
    }
    let number: u32 = match ifindex {
        Some(ifindex) => ifindex,
        None => 0,
    };
    ifaces.push(LinkLocalIface { name: text::to_text(name), ifindex: number, link_local });
    assert(iface_views(ifaces@) =~= after_address(views, name@, ifindex, link_local@));
}

/// The interfaces with link-local addresses that a list of the kernel gives and that are to be
/// used.
pub fn suitable_interfaces(
    list: &str,
    devices: &[String],
    ignored_devices: &[String],
    adopt: Option<[u8; 16]>,
) -> (r: Vec<LinkLocalIface>)
    ensures
        iface_views(r@) == ifaces_in(
            list@,
            name_views(devices@),
            name_views(ignored_devices@),
            address_view(adopt),
        ),
{
    let chars: Vec<char> = text::characters(list);
    let lines: Vec<Vec<char>> = text::split_lines(&chars);
    let ghost views = text::chars_views(lines@);
    let ghost wanted = name_views(devices@);
    let ghost ignored = name_views(ignored_devices@);
    let ghost only = address_view(adopt);
    let mut r: Vec<LinkLocalIface> = Vec::new();
    let mut i: usize = 0;
    assert(iface_views(r@) =~= after_lines(views, wanted, ignored, only, 0));
    while i < lines.len()
        invariant
            i <= lines@.len(),
            views == text::chars_views(lines@),
            wanted == name_views(devices@),
            ignored == name_views(ignored_devices@),
            only == address_view(adopt),
            iface_views(r@) == after_lines(views, wanted, ignored, only, i as int),
        decreases lines@.len() - i,
    {
        assert(views[i as int] == lines@[i as int]@);
        let words: Vec<Vec<char>> = text::split_words(&lines[i]);
        let ghost word_views = text::chars_views(words@);
        if let Some(address) = parse_line(&words, devices, ignored_devices, adopt) {
            assert(word_views[5] == words@[5]@);
            assert(word_views[1] == words@[1]@);
            let ifindex: Option<u32> = text::parse_u32(&words[1]);
            list_address(&mut r, &words[5], ifindex, address);
        }
        i += 1;
    }
    if adopt.is_some() && r.len() > 0 {
        let ghost all = iface_views(r@);
        r.truncate(1);
        assert(iface_views(r@) =~= all.take(1));
    }
    r
}

} // verus!
