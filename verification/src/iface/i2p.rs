//! Streams over I2P, through the bridge that its router offers.
//!
//! The bridge is spoken to in lines of text. A line has two words and options behind them, of the
//! form `KEY=VALUE` or just `KEY`.

use vstd::prelude::*;
use vstd::string::*;

use crate::error::RnsError;
use crate::hash;
use crate::iface::lifecycle;
use crate::iface::lifecycle::{Lifecycle, Medium};
use crate::iface::Interface;
use crate::text;

verus! {

/// The port of the bridge on this host.
pub const DEFAULT_SAM_PORT: u16 = 7656;

/// The longest frame.
pub const HW_MTU: usize = 1064;

/// Assumed bits per second.
pub const BITRATE_GUESS: u64 = 256_000;

/// Wait before a tunnel is set up again, in nanoseconds.
pub const RECONNECT_WAIT: u64 = 15_000_000_000;

/// The longest line of the bridge.
pub const MAX_LINE: usize = 8192;

/// An option of a reply.
#[derive(Debug, PartialEq, Eq)]
pub struct SamOption {
    pub key: String,
    pub value: String,
}

/// An option, as a mathematical value.
#[verifier::ext_equal]
pub struct OptionView {
    pub key: Seq<char>,
    pub value: Seq<char>,
}

impl View for SamOption {
    type V = OptionView;

    open spec fn view(&self) -> OptionView {
        OptionView { key: self.key@, value: self.value@ }
    }
}

/// A reply of the bridge.
#[derive(Debug, PartialEq, Eq)]
pub struct SamReply {
    pub cmd: String,
    pub action: String,
    pub opts: Vec<SamOption>,
}

/// A reply, as a mathematical value.
#[verifier::ext_equal]
pub struct ReplyView {
    pub cmd: Seq<char>,
    pub action: Seq<char>,
    pub opts: Seq<OptionView>,
}

/// Options as mathematical values.
pub open spec fn option_views(opts: Seq<SamOption>) -> Seq<OptionView> {
    opts.map_values(|o: SamOption| o@)
}

impl View for SamReply {
    type V = ReplyView;

    open spec fn view(&self) -> ReplyView {
        ReplyView { cmd: self.cmd@, action: self.action@, opts: option_views(self.opts@) }
    }
}

/// Where the first equals sign is, from `from` on, or the length.
pub open spec fn equals_at(token: Seq<char>, from: int) -> int
    decreases token.len() - from,
{
    if from < 0 || from >= token.len() {
        token.len() as int
    } else if token[from] == '=' {
        from
    } else {
        equals_at(token, from + 1)
    }
}

/// The option that a token says; one without a value is true.
pub open spec fn option_in(token: Seq<char>) -> OptionView {
    let at = equals_at(token, 0);
    if at < token.len() {
        OptionView { key: token.take(at), value: token.skip(at + 1) }
    } else {
        OptionView { key: token, value: "true"@ }
    }
}

/// The options that the pieces of a line say, from the third to the `n`-th. Empty pieces say none.
pub open spec fn options_in(pieces: Seq<Seq<char>>, n: int) -> Seq<OptionView>
    decreases n,
{
    if n <= 2 {
        Seq::empty()
    } else if pieces[n - 1].len() == 0 {
        options_in(pieces, n - 1)
    } else {
        options_in(pieces, n - 1).push(option_in(pieces[n - 1]))
    }
}

/// The reply that a line says.
pub open spec fn reply_in(line: Seq<char>) -> Option<ReplyView> {
    let pieces = text::pieces(line, ' ');
    if pieces.len() < 2 {
        None
    } else {
        Some(
            ReplyView {
                cmd: pieces[0],
                action: pieces[1],
                opts: options_in(pieces, pieces.len() as int),
            },
        )
    }
}

/// The value of an option among the first `n`; the last one with the key counts.
pub open spec fn value_of(opts: Seq<OptionView>, key: Seq<char>, n: int) -> Option<Seq<char>>
    decreases n,
{
    if n <= 0 {
        None
    } else if opts[n - 1].key == key {
        Some(opts[n - 1].value)
    } else {
        value_of(opts, key, n - 1)
    }
}

/// The value of an option of a reply.
pub open spec fn option_of(reply: ReplyView, key: Seq<char>) -> Option<Seq<char>> {
    value_of(reply.opts, key, reply.opts.len() as int)
}

/// Whether a reply says that all is well.
pub open spec fn is_ok(reply: ReplyView) -> bool {
    option_of(reply, "RESULT"@) == Some("OK"@)
}

/// The option that a token says.
fn parse_option(token: &[char]) -> (r: SamOption)
    ensures
        r@ == option_in(token@),
{
    let mut i: usize = 0;
    while i < token.len()
        invariant
            i <= token@.len(),
            equals_at(token@, 0) == equals_at(token@, i as int),
        decreases token@.len() - i,
    {
        if token[i] == '=' {
            let key: String = text::to_text(&token[0..i]);
            let value: String = text::to_text(&token[i + 1..token.len()]);
            assert(key@ =~= token@.take(i as int));
            assert(value@ =~= token@.skip(i + 1));
            return SamOption { key, value };
        }
        i += 1;
    }
    SamOption { key: text::to_text(token), value: "true".to_owned() }
}

impl SamReply {
    /// The reply that a line says: two words, and options behind them.
    pub fn parse(line: &str) -> (r: Option<Self>)
        ensures
            match reply_in(line@) {
                Some(reply) => r is Some && r->0@ == reply,
                None => r is None,
            },
    {
        let chars: Vec<char> = text::characters(line);
        SamReply::parse_chars(&chars)
    }

    fn parse_chars(line: &[char]) -> (r: Option<Self>)
        ensures
            match reply_in(line@) {
                Some(reply) => r is Some && r->0@ == reply,
                None => r is None,
            },
    {
        let pieces: Vec<Vec<char>> = text::split_on(line, ' ');
        let ghost views = text::chars_views(pieces@);
        if pieces.len() < 2 {
            return None;
        }
        assert(views[0] == pieces@[0]@);
        assert(views[1] == pieces@[1]@);
        let cmd: String = text::to_text(&pieces[0]);
        let action: String = text::to_text(&pieces[1]);
        let mut opts: Vec<SamOption> = Vec::new();
        let mut i: usize = 2;
        assert(option_views(opts@) =~= options_in(views, 2));
        while i < pieces.len()
            invariant
                2 <= i <= pieces@.len(),
                views == text::chars_views(pieces@),
                option_views(opts@) == options_in(views, i as int),
            decreases pieces@.len() - i,
        {
            let ghost before = option_views(opts@);
            assert(views[i as int] == pieces@[i as int]@);
            if pieces[i].len() > 0 {
                let option: SamOption = parse_option(&pieces[i]);
                let ghost view = option@;
                opts.push(option);
                assert(option_views(opts@) =~= before.push(view));
            }
            i += 1;
        }
        Some(SamReply { cmd, action, opts })
    }

    /// The value of an option.
    pub fn option(&self, key: &str) -> (r: Option<&str>)
        ensures
            match option_of(self@, key@) {
                Some(value) => r is Some && r->0@ == value,
                None => r is None,
            },
    {
        let mut n: usize = self.opts.len();
        while n > 0
            invariant
                n <= self.opts@.len(),
                option_of(self@, key@) == value_of(self@.opts, key@, n as int),
            decreases n,
        {
            assert(self@.opts[n - 1] == self.opts@[n - 1]@);
            if text::same_text(self.opts[n - 1].key.as_str(), key) {
                return Some(self.opts[n - 1].value.as_str());
            }
            n -= 1;
        }
        None
    }

    /// Whether the reply says that all is well.
    pub fn ok(&self) -> (r: bool)
        ensures
            r == is_ok(self@),
    {
        match self.option("RESULT") {
            Some(result) => text::same_text(result, "OK"),
            None => false,
        }
    }

    /// The destination of a session that was asked for.
    pub fn session_destination(&self) -> (r: Result<String, RnsError>)
        ensures
            if !is_ok(self@) {
                r is Err && r->Err_0 == RnsError::ConnectionError
            } else {
                match option_of(self@, "DESTINATION"@) {
                    Some(destination) => r is Ok && r->Ok_0@ == destination,
                    None => r is Err && r->Err_0 == RnsError::IncorrectHash,
                }
            },
    {
        if !self.ok() {
            return Err(RnsError::ConnectionError);
        }
        match self.option("DESTINATION") {
            Some(destination) => Ok(destination.to_owned()),
            None => Err(RnsError::IncorrectHash),
        }
    }

    /// The remote end of a stream that was accepted; empty where the reply does not say.
    pub fn stream_remote(&self) -> (r: Result<String, RnsError>)
        ensures
            if !is_ok(self@) {
                r is Err && r->Err_0 == RnsError::ConnectionError
            } else {
                r is Ok && r->Ok_0@ == match option_of(self@, "DESTINATION"@) {
                    Some(destination) => destination,
                    None => Seq::empty(),
                }
            },
    {
        if !self.ok() {
            return Err(RnsError::ConnectionError);
        }
        match self.option("DESTINATION") {
            Some(destination) => Ok(destination.to_owned()),
            None => {
                let none: String = String::new();
                assert(none@ =~= Seq::<char>::empty());
                Ok(none)
            },
        }
    }

    /// Whether what was asked for was done.
    pub fn confirmed(&self) -> (r: Result<(), RnsError>)
        ensures
            r is Ok <==> is_ok(self@),
            r is Err ==> r->Err_0 == RnsError::ConnectionError,
    {
        if self.ok() {
            Ok(())
        } else {
            Err(RnsError::ConnectionError)
        }
    }
}

/// What a byte of the bridge completes.
#[derive(Debug)]
pub enum LineStep {
    /// The line goes on.
    More,
    /// The line is complete.
    Reply(SamReply),
    /// The line is no reply, or too long.
    Failed(RnsError),
}

/// What the next byte of a line completes.
pub open spec fn after_byte(line: Seq<u8>, byte: u8, step: LineStep) -> bool {
    if byte == 10 {
        match reply_in(text::trimmed(text::lossy_text(line))) {
            Some(reply) => step is Reply && step->Reply_0@ == reply,
            None => step == LineStep::Failed(RnsError::PacketError),
        }
    } else if line.len() >= MAX_LINE {
        step == LineStep::Failed(RnsError::OutOfMemory)
    } else {
        step is More
    }
}

/// Reads a line of the bridge byte by byte.
pub struct LineReader {
    line: Vec<u8>,
}

impl View for LineReader {
    type V = Seq<u8>;

    closed spec fn view(&self) -> Seq<u8> {
        self.line@
    }
}

impl LineReader {
    /// At the start of a line.
    pub fn new() -> (r: Self)
        ensures
            r@ == Seq::<u8>::empty(),
    {
        LineReader { line: Vec::new() }
    }

    /// Takes one byte in. A line feed ends the line.
    pub fn take(&mut self, byte: u8) -> (r: LineStep)
        ensures
            after_byte(old(self)@, byte, r),
            final(self)@ == (if byte == 10 {
                old(self)@
            } else {
                old(self)@.push(byte)
            }),
    {
        if byte == 10 {
            return finish_line(&self.line);
        }
        self.line.push(byte);
        if self.line.len() > MAX_LINE {
            LineStep::Failed(RnsError::OutOfMemory)
        } else {
            LineStep::More
        }
    }
}

/// The reply in the bytes of a line.
pub fn finish_line(line: &Vec<u8>) -> (r: LineStep)
    ensures
        after_byte(line@, 10, r),
{
    let line: String = text::to_text_lossy(line);
    let chars: Vec<char> = text::characters(line.as_str());
    match SamReply::parse_chars(text::trim(&chars)) {
        Some(reply) => LineStep::Reply(reply),
        None => LineStep::Failed(RnsError::PacketError),
    }
}

/// The greeting of the bridge.
pub fn hello_command() -> (r: String)
    ensures
        r@ == "HELLO VERSION MIN=3.1 MAX=3.1\n"@,
{
    "HELLO VERSION MIN=3.1 MAX=3.1\n".to_owned()
}

/// Asks the bridge for a session with a destination of its own.
pub fn session_command(session_id: &str) -> (r: String)
    ensures
        r@ == "SESSION CREATE STYLE=STREAM ID="@ + session_id@ + " DESTINATION=TRANSIENT\n"@,
{
    let mut r: String = "SESSION CREATE STYLE=STREAM ID=".to_owned();
    r.append(session_id);
    r.append(" DESTINATION=TRANSIENT\n");
    r
}

/// Asks the bridge for a stream to a destination.
pub fn connect_command(session_id: &str, destination: &str) -> (r: String)
    ensures
        r@ == "STREAM CONNECT ID="@ + session_id@ + " DESTINATION="@ + destination@
            + " SILENT=false\n"@,
{
    let mut r: String = "STREAM CONNECT ID=".to_owned();
    r.append(session_id);
    r.append(" DESTINATION=");
    r.append(destination);
    r.append(" SILENT=false\n");
    r
}

/// Asks the bridge for the next stream that comes in.
pub fn accept_command(session_id: &str) -> (r: String)
    ensures
        r@ == "STREAM ACCEPT ID="@ + session_id@ + " SILENT=false\n"@,
{
    let mut r: String = "STREAM ACCEPT ID=".to_owned();
    r.append(session_id);
    r.append(" SILENT=false\n");
    r
}

/// The value of a digit in base 64, in the alphabet of I2P, which ends with `-` and `~`.
pub open spec fn b64_value(b: u8) -> Option<int> {
    if 65 <= b <= 90 {
        Some(b - 65)
    } else if 97 <= b <= 122 {
        Some(b - 71)
    } else if 48 <= b <= 57 {
        Some(b + 4)
    } else if b == 45 {
        Some(62)
    } else if b == 126 {
        Some(63)
    } else {
        None
    }
}

/// How many bytes stand in front of the first equals sign.
pub open spec fn b64_len(data: Seq<u8>, from: int) -> int
    decreases data.len() - from,
{
    if from < 0 || from >= data.len() {
        data.len() as int
    } else if data[from] == 61 {
        from
    } else {
        b64_len(data, from + 1)
    }
}

/// The value of the `i`-th digit.
pub open spec fn digit_at(data: Seq<u8>, i: int) -> int {
    b64_value(data[i])->0
}

/// The `k`-th byte of digits in base 64: four digits make three bytes.
pub open spec fn b64_byte(data: Seq<u8>, k: int) -> int {
    let i = k / 3 * 4;
    if k % 3 == 0 {
        digit_at(data, i) * 4 + digit_at(data, i + 1) / 16
    } else if k % 3 == 1 {
        digit_at(data, i + 1) % 16 * 16 + digit_at(data, i + 2) / 4
    } else {
        digit_at(data, i + 2) % 4 * 64 + digit_at(data, i + 3)
    }
}

/// The bytes of digits in base 64, up to the first equals sign; `None` where one is no digit.
pub open spec fn b64_decoded(data: Seq<u8>) -> Option<Seq<u8>> {
    let n = b64_len(data, 0);
    if forall|i: int| 0 <= i < n ==> b64_value(#[trigger] data[i]) is Some {
        Some(Seq::new((n * 3 / 4) as nat, |k: int| b64_byte(data, k) as u8))
    } else {
        None
    }
}

/// The value of a digit in base 64.
fn b64_digit(b: u8) -> (r: Option<u8>)
    ensures
        match b64_value(b) {
            Some(value) => r == Some(value as u8) && value < 64,
            None => r is None,
        },
{
    if 65 <= b && b <= 90 {
        Some(b - 65)
    } else if 97 <= b && b <= 122 {
        Some(b - 71)
    } else if 48 <= b && b <= 57 {
        Some(b + 4)
    } else if b == 45 {
        Some(62)
    } else if b == 126 {
        Some(63)
    } else {
        None
    }
}

/// The bytes of digits in base 64, in the alphabet of I2P.
pub fn i2p_b64_decode(data: &str) -> (r: Option<Vec<u8>>)
    ensures
        match b64_decoded(data.spec_bytes()) {
            Some(decoded) => r is Some && r->0@ == decoded,
            None => r is None,
        },
{
    b64_decode_bytes(data.as_bytes())
}

fn b64_decode_bytes(data: &[u8]) -> (r: Option<Vec<u8>>)
    ensures
        match b64_decoded(data@) {
            Some(decoded) => r is Some && r->0@ == decoded,
            None => r is None,
        },
{
    let mut out: Vec<u8> = Vec::new();
    let mut last: u8 = 0;
    let mut phase: u8 = 0;
    let mut i: usize = 0;
    let ghost n = b64_len(data@, 0);
    while i < data.len() && data[i] != 61
        invariant
            i <= data@.len(),
            n == b64_len(data@, 0),
            n == b64_len(data@, i as int),
            forall|j: int| 0 <= j < i ==> b64_value(#[trigger] data@[j]) is Some,
            phase == i % 4,
            last < 64,
            i > 0 ==> last == digit_at(data@, i - 1),
            out@ == Seq::new((i * 3 / 4) as nat, |k: int| b64_byte(data@, k) as u8),
        decreases data@.len() - i,
    {
        let ghost before = out@;
        proof {
            len_in_front(data@, i + 1);
        }
        let value: u8 = match b64_digit(data[i]) {
            Some(value) => value,
            None => {
                assert(b64_value(data@[i as int]) is None);
                assert(i < n);
                return None;
            },
        };
        assert(value == digit_at(data@, i as int));
        if phase == 1 {
            out.push(last * 4 + value / 16);
        } else if phase == 2 {
            out.push(last % 16 * 16 + value / 4);
        } else if phase == 3 {
            out.push(last % 4 * 64 + value);
        }
        last = value;
        phase = if phase == 3 {
            0
        } else {
            phase + 1
        };
        i += 1;
        proof {
            next_byte(data@, i - 1);
            assert(out@ =~= Seq::new((i * 3 / 4) as nat, |k: int| b64_byte(data@, k) as u8));
        }
    }
    assert(n == i);
    Some(out)
}

proof fn len_in_front(data: Seq<u8>, from: int)
    requires
        0 <= from <= data.len(),
    ensures
        from <= b64_len(data, from) <= data.len(),
    decreases data.len() - from,
{
    if from < data.len() && data[from] != 61 {
        len_in_front(data, from + 1);
    }
}

/// Which byte the `i`-th digit completes.
proof fn next_byte(data: Seq<u8>, i: int)
    requires
        0 <= i,
    ensures
        i % 4 == 0 ==> (i + 1) * 3 / 4 == i * 3 / 4,
        i % 4 != 0 ==> (i + 1) * 3 / 4 == i * 3 / 4 + 1,
        i % 4 == 1 ==> b64_byte(data, i * 3 / 4) == digit_at(data, i - 1) * 4 + digit_at(data, i)
            / 16,
        i % 4 == 2 ==> b64_byte(data, i * 3 / 4) == digit_at(data, i - 1) % 16 * 16 + digit_at(
            data,
            i,
        ) / 4,
        i % 4 == 3 ==> b64_byte(data, i * 3 / 4) == digit_at(data, i - 1) % 4 * 64 + digit_at(
            data,
            i,
        ),
{
    let q = i / 4;
    assert(i == 4 * q + i % 4);
    assert(i * 3 / 4 == 3 * q + (i % 4) * 3 / 4);
    assert(i * 3 / 4 / 3 == q);
}

/// By what five bits at an offset of two bytes are taken out.
pub open spec fn bits_divisor(offset: int) -> int {
    if offset == 0 {
        2048
    } else if offset == 1 {
        1024
    } else if offset == 2 {
        512
    } else if offset == 3 {
        256
    } else if offset == 4 {
        128
    } else if offset == 5 {
        64
    } else if offset == 6 {
        32
    } else {
        16
    }
}

/// The `i`-th five bits of bytes, with zeros behind the last.
pub open spec fn five_bits(data: Seq<u8>, i: int) -> int {
    let k = i * 5 / 8;
    let pair = data[k] * 256 + (if k + 1 < data.len() {
        data[k + 1] as int
    } else {
        0
    });
    pair / bits_divisor(i * 5 % 8) % 32
}

/// A lower-case digit in base 32.
pub open spec fn b32_digit(v: int) -> char {
    if v < 26 {
        (97 + v) as u8 as char
    } else {
        (24 + v) as u8 as char
    }
}

/// The address of a destination: the first 52 digits in base 32 of its hash.
pub open spec fn b32_of(digest: Seq<u8>) -> Seq<char> {
    Seq::new(52, |i: int| b32_digit(five_bits(digest, i)))
}

/// The bytes of a destination; none where it is no base 64.
pub open spec fn destination_bytes(destination: Seq<u8>) -> Seq<u8> {
    match b64_decoded(destination) {
        Some(decoded) => decoded,
        None => Seq::empty(),
    }
}

/// The address of a destination in base 64.
pub fn destination_b32(destination_b64: &str) -> (r: String)
    ensures
        r@ == b32_of(hash::sha256_digest(destination_bytes(destination_b64.spec_bytes()))),
{
    let decoded: Vec<u8> = match i2p_b64_decode(destination_b64) {
        Some(decoded) => decoded,
        None => {
            let none: Vec<u8> = Vec::new();
            assert(none@ =~= Seq::<u8>::empty());
            none
        },
    };
    let digest: [u8; 32] = hash::sha256(&decoded);
    encode_b32(&digest)
}

/// The first 52 digits in base 32 of a hash.
pub fn encode_b32(digest: &[u8; 32]) -> (r: String)
    ensures
        r@ == b32_of(digest@),
{
    let mut r: String = String::new();
    let mut i: usize = 0;
    assert(r@ =~= b32_of(digest@).take(0));
    while i < 52
        invariant
            i <= 52,
            digest@.len() == 32,
            r@ == b32_of(digest@).take(i as int),
        decreases 52 - i,
    {
        let k: usize = i * 5 / 8;
        let offset: usize = i * 5 % 8;
        let next: u16 = if k + 1 < 32 {
            digest[k + 1] as u16
        } else {
            0
        };
        let pair: u16 = digest[k] as u16 * 256 + next;
        let bits: u16 = take_bits(pair, offset);
        let c: char = if bits < 26 {
            (97 + bits as u8) as char
        } else {
            (24 + bits as u8) as char
        };
        text::push_char(&mut r, c);
        i += 1;
        assert(r@ =~= b32_of(digest@).take(i as int));
    }
    assert(r@ =~= b32_of(digest@));
    r
}

/// Five bits of two bytes.
fn take_bits(pair: u16, offset: usize) -> (r: u16)
    requires
        offset < 8,
    ensures
        r == pair as int / bits_divisor(offset as int) % 32,
        r < 32,
{
    if offset == 0 {
        pair / 2048 % 32
    } else if offset == 1 {
        pair / 1024 % 32
    } else if offset == 2 {
        pair / 512 % 32
    } else if offset == 3 {
        pair / 256 % 32
    } else if offset == 4 {
        pair / 128 % 32
    } else if offset == 5 {
        pair / 64 % 32
    } else if offset == 6 {
        pair / 32 % 32
    } else {
        pair / 16 % 32
    }
}

/// A peer over I2P: one that streams are opened to, or one that has opened a stream.
pub struct I2pPeer {
    /// The destination that streams are opened to.
    pub target_destination: Option<String>,
    /// Where the bridge is.
    pub sam_addr: String,
    pub session_id: String,
}

impl I2pPeer {
    /// A peer that has opened a stream.
    pub fn new_from_stream() -> (r: Self)
        ensures
            r.target_destination is None,
            r.sam_addr@ == Seq::<char>::empty(),
            r.session_id@ == Seq::<char>::empty(),
    {
        let r: I2pPeer = I2pPeer {
            target_destination: None,
            sam_addr: String::new(),
            session_id: String::new(),
        };
        assert(r.sam_addr@ =~= Seq::<char>::empty());
        assert(r.session_id@ =~= Seq::<char>::empty());
        r
    }

    /// A peer that streams are opened to.
    pub fn new_initiator(sam_addr: &str, session_id: &str, destination: &str) -> (r: Self)
        ensures
            r.target_destination is Some && r.target_destination->0@ == destination@,
            r.sam_addr@ == sam_addr@,
            r.session_id@ == session_id@,
    {
        I2pPeer {
            target_destination: Some(destination.to_owned()),
            sam_addr: sam_addr.to_owned(),
            session_id: session_id.to_owned(),
        }
    }

    /// The life of the interface.
    pub fn lifecycle(&self) -> (r: Lifecycle)
        ensures
            r == lifecycle::started(Medium::I2p, self.target_destination is Some),
    {
        Lifecycle::new(Medium::I2p, self.target_destination.is_some())
    }
}

impl Interface for I2pPeer {
    fn mtu() -> (r: usize)
        ensures
            r == HW_MTU,
    {
        HW_MTU
    }
}

/// A session over I2P that others open streams to.
pub struct I2pServer {
    /// Where the bridge is.
    pub sam_addr: String,
    pub session_id: String,
    /// The destination of the session, in base 64, while there is a session.
    pub session: Option<String>,
}

impl I2pServer {
    /// A server without a session yet.
    pub fn new(sam_addr: &str, session_id: &str) -> (r: Self)
        ensures
            r.sam_addr@ == sam_addr@,
            r.session_id@ == session_id@,
            r.session is None,
    {
        I2pServer { sam_addr: sam_addr.to_owned(), session_id: session_id.to_owned(), session: None }
    }

    /// The session is there, under its destination.
    pub fn established(&mut self, destination: String)
        ensures
            *final(self) == (I2pServer { session: Some(destination), ..*old(self) }),
    {
        self.session = Some(destination);
    }

    /// The session is gone.
    pub fn lost(&mut self)
        ensures
            *final(self) == (I2pServer { session: None, ..*old(self) }),
    {
        self.session = None;
    }

    /// The destination of the session; empty while there is none.
    pub fn destination(&self) -> (r: String)
        ensures
            r@ == (match self.session {
                Some(destination) => destination@,
                None => Seq::empty(),
            }),
    {
        match &self.session {
            Some(destination) => destination.as_str().to_owned(),
            None => {
                let r: String = String::new();
                assert(r@ =~= Seq::<char>::empty());
                r
            },
        }
    }

    /// The address of the session; empty while there is none.
    pub fn b32(&self) -> (r: String)
        ensures
            r@ == (match self.session {
                Some(destination) => b32_of(
                    hash::sha256_digest(
                        destination_bytes(vstd::utf8::encode_utf8(destination@)),
                    ),
                ),
                None => Seq::empty(),
            }),
    {
        match &self.session {
            Some(destination) => destination_b32(destination.as_str()),
            None => {
                let r: String = String::new();
                assert(r@ =~= Seq::<char>::empty());
                r
            },
        }
    }
}

impl Interface for I2pServer {
    fn mtu() -> (r: usize)
        ensures
            r == HW_MTU,
    {
        HW_MTU
    }
}

} // verus!
