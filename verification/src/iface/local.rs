//! Connections between the programs of one host: a shared instance and its clients.
//!
//! A shared instance may ask its clients for a name and a token. They are sent in one frame before
//! any packet.

use vstd::prelude::*;
use vstd::string::*;

use crate::bytes;
use crate::iface::control;
use crate::iface::hdlc;
use crate::iface::hdlc::{DecoderView, Hdlc, HdlcDecoder};
use crate::iface::lifecycle;
use crate::iface::lifecycle::{Lifecycle, Medium};
use crate::iface::manager::InterfaceStats;
use crate::iface::Interface;
use crate::text;

verus! {

pub const SHARED_INSTANCE_PORT: u16 = 37428;

/// Wait before a connection is made again, in nanoseconds.
pub const RECONNECT_WAIT: u64 = 8_000_000_000;

/// The longest frame.
pub const HW_MTU: usize = 262144;

/// Frames up to this length are no packets.
pub const HEADER_MINSIZE: usize = 19;

/// How long a client may take to send its name and token.
pub const AUTH_TIMEOUT: u64 = 5_000_000_000;

/// Wait before listening is tried again.
pub const BIND_WAIT: u64 = 5_000_000_000;

/// Wait before the number of clients is looked at again.
pub const CLIENT_CAP_WAIT: u64 = 500_000_000;

/// Where a shared instance is reached.
#[derive(Debug, PartialEq, Eq)]
pub enum SharedInstanceAddress {
    /// A TCP port of the loopback interface.
    Tcp { port: u16 },
    /// An abstract domain socket.
    UnixAbstract { instance_name: String },
}

/// Where a shared instance is reached, as a mathematical value.
#[verifier::ext_equal]
pub enum AddressView {
    Tcp { port: u16 },
    UnixAbstract { instance_name: Seq<char> },
}

impl View for SharedInstanceAddress {
    type V = AddressView;

    open spec fn view(&self) -> AddressView {
        match self {
            SharedInstanceAddress::Tcp { port } => AddressView::Tcp { port: *port },
            SharedInstanceAddress::UnixAbstract { instance_name } => AddressView::UnixAbstract {
                instance_name: instance_name@,
            },
        }
    }
}

impl Clone for SharedInstanceAddress {
    fn clone(&self) -> (r: Self)
        ensures
            r@ == self@,
    {
        match self {
            SharedInstanceAddress::Tcp { port } => SharedInstanceAddress::Tcp { port: *port },
            SharedInstanceAddress::UnixAbstract { instance_name } => {
                SharedInstanceAddress::UnixAbstract { instance_name: instance_name.clone() }
            },
        }
    }
}

/// The decimal digits of a number.
pub open spec fn decimal_digits(v: nat) -> Seq<char>
    decreases v,
{
    if v < 10 {
        seq![(48 + v) as u8 as char]
    } else {
        decimal_digits(v / 10).push((48 + v % 10) as u8 as char)
    }
}

/// The text of an address.
pub open spec fn described(address: AddressView) -> Seq<char> {
    match address {
        AddressView::Tcp { port } => "127.0.0.1:"@ + decimal_digits(port as nat),
        AddressView::UnixAbstract { instance_name } => "\0rns/"@ + instance_name,
    }
}

/// The digit with a value.
fn digit(v: u16) -> (r: char)
    requires
        v < 10,
    ensures
        r == (48 + v) as u8 as char,
{
    (48 + v as u8) as char
}

/// Appends the decimal digits of a number.
fn push_decimal(out: &mut String, v: u16)
    ensures
        final(out)@ == old(out)@ + decimal_digits(v as nat),
{
    proof {
        reveal_with_fuel(decimal_digits, 6);
        assert(v / 10 / 10 == v / 100);
        assert(v / 100 / 10 == v / 1000);
        assert(v / 1000 / 10 == v / 10000);
    }
    if v >= 10000 {
        text::push_char(out, digit(v / 10000));
    }
    if v >= 1000 {
        text::push_char(out, digit(v / 1000 % 10));
    }
    if v >= 100 {
        text::push_char(out, digit(v / 100 % 10));
    }
    if v >= 10 {
        text::push_char(out, digit(v / 10 % 10));
    }
    text::push_char(out, digit(v % 10));
    assert(out@ =~= old(out)@ + decimal_digits(v as nat));
}

impl SharedInstanceAddress {
    pub fn tcp(port: u16) -> (r: Self)
        ensures
            r@ == (AddressView::Tcp { port }),
    {
        SharedInstanceAddress::Tcp { port }
    }

    pub fn unix_abstract(instance_name: &str) -> (r: Self)
        ensures
            r@ == (AddressView::UnixAbstract { instance_name: instance_name@ }),
    {
        SharedInstanceAddress::UnixAbstract { instance_name: instance_name.to_owned() }
    }

    /// The text of the address. The name of an abstract socket starts with a zero byte.
    pub fn describe(&self) -> (r: String)
        ensures
            r@ == described(self@),
    {
        match self {
            SharedInstanceAddress::Tcp { port } => {
                let mut r: String = "127.0.0.1:".to_owned();
                push_decimal(&mut r, *port);
                r
            },
            SharedInstanceAddress::UnixAbstract { instance_name } => {
                let mut r: String = "\0rns/".to_owned();
                r.append(instance_name.as_str());
                r
            },
        }
    }
}

/// Who may connect to a shared instance.
#[derive(Debug)]
pub struct SharedInstanceAccessConfig {
    /// The names that may connect; all where none are given.
    pub allow: Vec<String>,
    /// The token that is asked for.
    pub required_token: Option<Vec<u8>>,
    /// How many clients may be connected at a time.
    pub max_clients: Option<u32>,
}

impl Default for SharedInstanceAccessConfig {
    fn default() -> (r: Self)
        ensures
            r.allow@.len() == 0,
            r.required_token is None,
            r.max_clients is None,
    {
        SharedInstanceAccessConfig { allow: Vec::new(), required_token: None, max_clients: None }
    }
}

/// Names as mathematical values.
pub open spec fn name_views(names: Seq<String>) -> Seq<Seq<char>> {
    names.map_values(|n: String| n@)
}

impl SharedInstanceAccessConfig {
    /// Whether a client with a name and a token may connect.
    pub open spec fn lets_in(&self, name: Seq<char>, token: Seq<u8>) -> bool {
        &&& self.allow@.len() == 0 || name_views(self.allow@).contains(name)
        &&& match self.required_token {
            Some(required) => required@ == token,
            None => true,
        }
    }

    /// Whether clients are asked for a name and a token.
    pub fn requires_handshake(&self) -> (r: bool)
        ensures
            r == (self.allow@.len() > 0 || self.required_token is Some),
    {
        self.allow.len() > 0 || self.required_token.is_some()
    }

    /// Whether a client with a name and a token may connect. Tokens of one length are compared in
    /// the same time whatever they hold.
    pub fn accepts(&self, name: &str, token: &[u8]) -> (r: bool)
        ensures
            r == self.lets_in(name@, token@),
    {
        if self.allow.len() > 0 && !self.is_allowed(name) {
            return false;
        }
        match &self.required_token {
            Some(required) => same_token(required, token),
            None => true,
        }
    }

    fn is_allowed(&self, name: &str) -> (r: bool)
        ensures
            r == name_views(self.allow@).contains(name@),
    {
        let ghost names = name_views(self.allow@);
        let mut i: usize = 0;
        while i < self.allow.len()
            invariant
                i <= self.allow@.len(),
                names == name_views(self.allow@),
                forall|j: int| 0 <= j < i ==> #[trigger] names[j] != name@,
            decreases self.allow@.len() - i,
        {
            assert(names[i as int] == self.allow@[i as int]@);
            if text::same_text(self.allow[i].as_str(), name) {
                return true;
            }
            i += 1;
        }
        assert forall|j: int| 0 <= j < names.len() implies names[j] != name@ by {}
        false
    }

    /// Whether one more client may connect, given the statistics of the interfaces.
    pub fn has_room(&self, stats: &Vec<InterfaceStats>) -> (r: bool)
        ensures
            r == (self.max_clients is None || clients_in(stats@, stats@.len() as int)
                < self.max_clients->0),
    {
        match self.max_clients {
            None => true,
            Some(max_clients) => {
                let mut connected: u64 = 0;
                let mut i: usize = 0;
                while i < stats.len()
                    invariant
                        i <= stats@.len(),
                        connected <= i,
                        connected == clients_in(stats@, i as int),
                    decreases stats@.len() - i,
                {
                    if text::same_text(stats[i].kind.as_str(), "LocalClient") {
                        connected += 1;
                    }
                    i += 1;
                }
                connected < max_clients as u64
            },
        }
    }
}

/// How many of the first `n` interfaces are those of local clients.
pub open spec fn clients_in(stats: Seq<InterfaceStats>, n: int) -> nat
    decreases n,
{
    if n <= 0 {
        0
    } else {
        clients_in(stats, n - 1) + (if stats[n - 1].kind@ == "LocalClient"@ {
            1nat
        } else {
            0
        })
    }
}

/// Bits that are the same differ nowhere.
proof fn no_difference(diff: u8, a: u8, b: u8)
    ensures
        (diff | (a ^ b)) == 0 <==> diff == 0 && a == b,
{
    assert((diff | (a ^ b)) == 0 <==> diff == 0 && a == b) by (bit_vector);
}

/// Whether two tokens are equal.
fn same_token(required: &[u8], token: &[u8]) -> (r: bool)
    ensures
        r == (required@ == token@),
{
    if required.len() != token.len() {
        return false;
    }
    let mut diff: u8 = 0;
    let mut i: usize = 0;
    assert(required@.take(0) =~= token@.take(0));
    while i < required.len()
        invariant
            i <= required@.len(),
            required@.len() == token@.len(),
            diff == 0 <==> required@.take(i as int) == token@.take(i as int),
        decreases required@.len() - i,
    {
        let a: u8 = required[i];
        let b: u8 = token[i];
        proof {
            no_difference(diff, a, b);
            let before_a = required@.take(i as int);
            let before_b = token@.take(i as int);
            let after_a = required@.take(i + 1);
            let after_b = token@.take(i + 1);
            assert(after_a =~= before_a.push(a));
            assert(after_b =~= before_b.push(b));
            if after_a == after_b {
                assert(before_a =~= after_a.drop_last());
                assert(before_b =~= after_b.drop_last());
                assert(after_a.last() == after_b.last());
            }
        }
        diff = diff | (a ^ b);
        i += 1;
    }
    assert(required@.take(i as int) =~= required@);
    assert(token@.take(i as int) =~= token@);
    diff == 0
}

/// What the frame of a name and a token starts with.
pub open spec fn auth_magic() -> Seq<u8> {
    seq![0x52u8, 0x4e, 0x53, 0x4c, 0x49, 0x41, 0x31]
}

/// The payload of the frame of a name and a token, each with its length in front.
pub open spec fn auth_payload(name: Seq<u8>, token: Seq<u8>) -> Seq<u8> {
    auth_magic() + seq![(name.len() % 256) as u8] + name + bytes::be_bytes(
        (token.len() % 65536) as nat,
        2,
    ) + token
}

/// The frame of a name and a token. Of each length the low bits are sent: one byte for the name,
/// two for the token.
pub fn encode_auth_frame(name: &str, token: &[u8]) -> (r: Vec<u8>)
    ensures
        r@ == hdlc::framed(auth_payload(name.spec_bytes(), token@)),
{
    let magic: [u8; 7] = [0x52, 0x4e, 0x53, 0x4c, 0x49, 0x41, 0x31];
    assert(magic@ =~= auth_magic());
    let mut payload: Vec<u8> = bytes::to_vec(&magic);
    payload.push((name.as_bytes().len() % 256) as u8);
    bytes::append(&mut payload, name.as_bytes());
    bytes::append_be16(&mut payload, (token.len() % 65536) as u16);
    bytes::append(&mut payload, token);
    assert(payload@ =~= auth_payload(name.spec_bytes(), token@));
    Hdlc::encode_frame_vec(&payload)
}

/// The name and the token in the payload of a frame.
pub open spec fn auth_in(frame: Seq<u8>) -> Option<(Seq<char>, Seq<u8>)> {
    if frame.len() >= 8 && frame.take(7) == auth_magic() {
        let name_end = 8 + frame[7] as int;
        if frame.len() >= name_end + 2 && vstd::utf8::valid_utf8(frame.subrange(8, name_end)) {
            let token_end = name_end + 2 + frame[name_end] * 256 + frame[name_end + 1];
            if frame.len() >= token_end {
                Some(
                    (
                        vstd::utf8::decode_utf8(frame.subrange(8, name_end)),
                        frame.subrange(name_end + 2, token_end),
                    ),
                )
            } else {
                None
            }
        } else {
            None
        }
    } else {
        None
    }
}

/// The name and the token in the payload of a frame.
pub fn parse_auth_frame(frame: &[u8]) -> (r: Option<(String, Vec<u8>)>)
    ensures
        match auth_in(frame@) {
            Some(auth) => r is Some && (r->0).0@ == auth.0 && (r->0).1@ == auth.1,
            None => r is None,
        },
{
    if frame.len() < 8 {
        return None;
    }
    let magic: [u8; 7] = [0x52, 0x4e, 0x53, 0x4c, 0x49, 0x41, 0x31];
    assert(magic@ =~= auth_magic());
    assert(frame@.take(7) =~= frame@.subrange(0, 7));
    if !bytes::equal(&magic, &frame[0..7]) {
        return None;
    }
    let name_end: usize = 8 + frame[7] as usize;
    if frame.len() < name_end + 2 {
        return None;
    }
    let name: String = match text::to_text_strict(&frame[8..name_end]) {
        Some(name) => name,
        None => return None,
    };
    let token_len: usize = frame[name_end] as usize * 256 + frame[name_end + 1] as usize;
    let token_end: usize = name_end + 2 + token_len;
    if frame.len() < token_end {
        return None;
    }
    Some((name, bytes::slice_to_vec(frame, name_end + 2, token_end)))
}

/// The frame of a name and a token says both again, where their lengths can be said.
pub proof fn auth_round_trip(name: Seq<char>, token: Seq<u8>)
    requires
        vstd::utf8::encode_utf8(name).len() <= 255,
        token.len() <= 65535,
    ensures
        auth_in(auth_payload(vstd::utf8::encode_utf8(name), token)) == Some((name, token)),
{
    let encoded = vstd::utf8::encode_utf8(name);
    let payload = auth_payload(encoded, token);
    let name_end = 8 + encoded.len() as int;
    let len_bytes = bytes::be_bytes(token.len() as nat, 2);
    vstd::utf8::encode_utf8_valid_utf8(name);
    vstd::utf8::encode_utf8_decode_utf8(name);
    reveal_with_fuel(bytes::be_bytes, 3);
    assert(len_bytes.len() == 2);
    assert(payload.take(7) =~= auth_magic());
    assert(payload[7] == encoded.len());
    assert(payload.subrange(8, name_end) =~= encoded);
    assert(payload[name_end] == len_bytes[0]);
    assert(payload[name_end + 1] == len_bytes[1]);
    assert(payload[name_end] * 256 + payload[name_end + 1] == token.len());
    assert(payload.subrange(name_end + 2, name_end + 2 + token.len() as int) =~= token);
}

/// What a client that has to give its name and token is answered.
#[derive(Debug)]
pub enum AuthStep {
    /// It has not said them yet.
    Waiting,
    /// It may connect, under this name.
    Accepted(String),
    /// It may not.
    Rejected,
}

/// What a client that has to give its name and token is answered, as a mathematical value.
#[verifier::ext_equal]
pub enum AuthView {
    Waiting,
    Accepted(Seq<char>),
    Rejected,
}

impl View for AuthStep {
    type V = AuthView;

    open spec fn view(&self) -> AuthView {
        match self {
            AuthStep::Waiting => AuthView::Waiting,
            AuthStep::Accepted(name) => AuthView::Accepted(name@),
            AuthStep::Rejected => AuthView::Rejected,
        }
    }
}

/// The answer to frames from the `n`-th on: the first that holds a name and a token decides.
pub open spec fn answer(
    access: SharedInstanceAccessConfig,
    frames: Seq<Seq<u8>>,
    n: int,
) -> AuthView
    decreases frames.len() - n,
{
    if n < 0 || n >= frames.len() {
        AuthView::Waiting
    } else {
        match auth_in(frames[n]) {
            Some(auth) => if access.lets_in(auth.0, auth.1) {
                AuthView::Accepted(auth.0)
            } else {
                AuthView::Rejected
            },
            None => answer(access, frames, n + 1),
        }
    }
}

/// A client that has to give its name and token within a time.
pub struct Authentication {
    decoder: HdlcDecoder,
    deadline: u64,
}

impl Authentication {
    pub closed spec fn decoder(&self) -> DecoderView {
        self.decoder@
    }

    pub closed spec fn deadline(&self) -> u64 {
        self.deadline
    }

    /// A client that has just connected.
    pub fn new(now: u64) -> (r: Self)
        ensures
            r.decoder() == (DecoderView {
                frame: Seq::empty(),
                in_frame: false,
                escape: false,
                mtu: HW_MTU as nat,
            }),
            r.deadline() == control::later(now, AUTH_TIMEOUT),
    {
        Authentication {
            decoder: HdlcDecoder::new(HW_MTU),
            deadline: now.saturating_add(AUTH_TIMEOUT),
        }
    }

    /// Whether the time is over.
    pub fn is_over(&self, now: u64) -> (r: bool)
        ensures
            r == (now >= self.deadline()),
    {
        now >= self.deadline
    }

    /// Takes bytes of the client in. Returns the answer; a client that sends nothing is gone.
    pub fn take(&mut self, data: &[u8], access: &SharedInstanceAccessConfig) -> (r: AuthStep)
        ensures
            final(self).deadline() == old(self).deadline(),
            data@.len() == 0 ==> r@ == AuthView::Rejected && *final(self) == *old(self),
            data@.len() > 0 ==> final(self).decoder() == hdlc::after_bytes(
                old(self).decoder(),
                data@,
            ) && r@ == answer(*access, hdlc::frames_of(old(self).decoder(), data@), 0),
    {
        if data.len() == 0 {
            return AuthStep::Rejected;
        }
        let frames: Vec<Vec<u8>> = self.decoder.feed(data);
        let ghost views = hdlc::frame_views(frames@);
        let mut i: usize = 0;
        while i < frames.len()
            invariant
                i <= frames@.len(),
                views == hdlc::frame_views(frames@),
                views == hdlc::frames_of(old(self).decoder(), data@),
                self.decoder() == hdlc::after_bytes(old(self).decoder(), data@),
                self.deadline() == old(self).deadline(),
                data@.len() > 0,
                answer(*access, views, 0) == answer(*access, views, i as int),
            decreases frames@.len() - i,
        {
            assert(views[i as int] == frames@[i as int]@);
            match parse_auth_frame(&frames[i]) {
                Some((name, token)) => {
                    if access.accepts(name.as_str(), &token) {
                        return AuthStep::Accepted(name);
                    } else {
                        return AuthStep::Rejected;
                    }
                },
                None => {},
            }
            i += 1;
        }
        AuthStep::Waiting
    }
}

/// A client gets in only with a name and a token that the configuration lets in.
pub proof fn only_known_clients_get_in(
    access: SharedInstanceAccessConfig,
    frames: Seq<Seq<u8>>,
    n: int,
)
    requires
        answer(access, frames, n) is Accepted,
        0 <= n,
    ensures
        exists|i: int|
            n <= i < frames.len() && auth_in(#[trigger] frames[i]) is Some && access.lets_in(
                (auth_in(frames[i])->0).0,
                (auth_in(frames[i])->0).1,
            ) && answer(access, frames, n) == AuthView::Accepted((auth_in(frames[i])->0).0),
    decreases frames.len() - n,
{
    if auth_in(frames[n]) is None {
        only_known_clients_get_in(access, frames, n + 1);
    } else {
        assert(auth_in(frames[n]) is Some);
    }
}

/// A shared instance.
pub struct LocalServer {
    pub address: SharedInstanceAddress,
    pub access: SharedInstanceAccessConfig,
}

impl LocalServer {
    /// A shared instance that everybody may connect to.
    pub fn new(address: SharedInstanceAddress) -> (r: Self)
        ensures
            r.address == address,
            r.access.allow@.len() == 0,
            r.access.required_token is None,
            r.access.max_clients is None,
    {
        LocalServer { address, access: SharedInstanceAccessConfig::default() }
    }

    /// A shared instance with rules on who may connect.
    pub fn new_with_access(
        address: SharedInstanceAddress,
        access: SharedInstanceAccessConfig,
    ) -> (r: Self)
        ensures
            r.address == address,
            r.access == access,
    {
        LocalServer { address, access }
    }

    pub fn address(&self) -> (r: &SharedInstanceAddress)
        ensures
            *r == self.address,
    {
        &self.address
    }

    pub fn access_config(&self) -> (r: &SharedInstanceAccessConfig)
        ensures
            *r == self.access,
    {
        &self.access
    }
}

/// A client of a shared instance: one that connects, or one that has connected.
pub struct LocalClient {
    pub name: String,
    /// Where connections are made to.
    pub address: Option<SharedInstanceAddress>,
    /// The token that is sent.
    pub auth_token: Option<Vec<u8>>,
}

impl LocalClient {
    /// A client that connects.
    pub fn new(name: &str, address: SharedInstanceAddress) -> (r: Self)
        ensures
            r.name@ == name@,
            r.address == Some(address),
            r.auth_token is None,
    {
        LocalClient { name: name.to_owned(), address: Some(address), auth_token: None }
    }

    /// A client that connects and sends a token.
    pub fn new_authenticated(name: &str, address: SharedInstanceAddress, token: Vec<u8>) -> (r:
        Self)
        ensures
            r.name@ == name@,
            r.address == Some(address),
            r.auth_token == Some(token),
    {
        LocalClient { name: name.to_owned(), address: Some(address), auth_token: Some(token) }
    }

    /// A client that has connected.
    pub fn new_from_stream(name: &str) -> (r: Self)
        ensures
            r.name@ == name@,
            r.address is None,
            r.auth_token is None,
    {
        LocalClient { name: name.to_owned(), address: None, auth_token: None }
    }

    /// Sets the token that is sent.
    pub fn set_auth_token(&mut self, token: Option<Vec<u8>>)
        ensures
            *final(self) == (LocalClient { auth_token: token, ..*old(self) }),
    {
        self.auth_token = token;
    }

    /// The name of the client.
    pub fn name(&self) -> (r: &str)
        ensures
            r@ == self.name@,
    {
        self.name.as_str()
    }

    /// What is sent right after a connection was made.
    pub fn greeting(&self) -> (r: Option<Vec<u8>>)
        ensures
            match self.auth_token {
                Some(token) => r is Some && r->0@ == hdlc::framed(
                    auth_payload(vstd::utf8::encode_utf8(self.name@), token@),
                ),
                None => r is None,
            },
    {
        match &self.auth_token {
            Some(token) => Some(encode_auth_frame(self.name.as_str(), token)),
            None => None,
        }
    }

    /// The life of the interface.
    pub fn lifecycle(&self) -> (r: Lifecycle)
        ensures
            r == lifecycle::started(Medium::Shared, self.address is Some),
    {
        Lifecycle::new(Medium::Shared, self.address.is_some())
    }
}

impl Interface for LocalServer {
    fn mtu() -> (r: usize)
        ensures
            r == HW_MTU,
    {
        HW_MTU
    }
}

impl Interface for LocalClient {
    fn mtu() -> (r: usize)
        ensures
            r == HW_MTU,
    {
        HW_MTU
    }
}

} // verus!
