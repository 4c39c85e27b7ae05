//! What holds of the ways into a network: access codes, the commands and settings of interfaces, and
//! the replies of bridges.

use vstd::prelude::*;
use vstd::string::*;

use crate::hash;
use crate::hash::AddressHash;
use crate::iface::auto::{
    after_address, after_lines, digest_address, expanded_address, hash_groups, ifaces_in, is_token,
    line_address, listed_at, may_use, scope_id, scope_named, token_of, type_id, type_named,
    DiscoveryScope, IfaceView, MulticastAddressType,
};
use crate::iface::control_state;
use crate::iface::i2p;
use crate::iface::i2p::{OptionView, ReplyView};
use crate::iface::ifac;
use crate::iface::ifac::IfacKey;
use crate::iface::local;
use crate::iface::manager::{
    hw_mtu, hw_mtu_of, is_registered, stats_of, EntryView, InterfaceStats, ManagerView,
};
use crate::iface::pipe;
use crate::iface::pipe::SplitView;
use crate::iface::serial;
use crate::iface::serial::Parity;
use crate::signature::ed25519_signature;
use crate::text;

verus! {

/// The access code is the end of the signature over the packet, by the second half of the key.
pub proof fn codes_end_signatures(key: Seq<u8>, size: nat, raw: Seq<u8>, i: int)
    requires
        0 <= i < size <= 64,
    ensures
        ifac::code_for(key, size, raw).len() == size,
        ifac::code_for(key, size, raw)[i] == ed25519_signature(key.subrange(32, 64), raw)[64 - size
            + i],
{
}

/// The access code lies in the clear behind the first two bytes, all other bytes are masked, and the
/// highest bit of the first byte says that there is a code.
pub proof fn codes_lie_behind_the_header(key: Seq<u8>, size: nat, raw: Seq<u8>, i: int)
    requires
        raw.len() > 2,
        size <= 64,
    ensures
        ({
            let code = ifac::code_for(key, size, raw);
            let mask = ifac::hkdf_sha256(code, key, raw.len() + size);
            let wire = ifac::wrapped(key, size, raw);
            &&& wire.len() == raw.len() + size
            &&& wire[0] & 0x80 != 0
            &&& wire[0] & 0x7f == (raw[0] ^ mask[0]) & 0x7f
            &&& wire[1] == raw[1] ^ mask[1]
            &&& 0 <= i < size ==> wire[2 + i] == code[i]
            &&& 2 <= i < raw.len() ==> wire[i + size] == raw[i] ^ mask[i + size]
        }),
{
    let code = ifac::code_for(key, size, raw);
    let m = ifac::hkdf_sha256(code, key, raw.len() + size)[0];
    let r = raw[0];
    assert((((r | 0x80) ^ m) | 0x80) & 0x80 != 0 && (((r | 0x80) ^ m) | 0x80) & 0x7f == (r ^ m)
        & 0x7f) by (bit_vector);
}

/// On an open interface packets are taken as they come. On one with a key, packets that say that
/// they have no code, and those too short for one, are not taken.
pub proof fn packets_need_codes(raw: Seq<u8>, key: IfacKey)
    ensures
        ifac::decoded_wire(raw, None) == Some(raw),
        raw.len() <= 2 + key.size ==> ifac::decoded_wire(raw, Some(&key)) is None,
        raw.len() > 0 && raw[0] & 0x80 == 0 ==> ifac::decoded_wire(raw, Some(&key)) is None,
{
}

/// The key of an interface comes from its network's name and passphrase, of which either may be
/// missing.
pub proof fn names_and_passphrases_make_keys(netname: &str, netkey: &str)
    ensures
        ({
            let name = hash::sha256_digest(netname.spec_bytes());
            let pass = hash::sha256_digest(netkey.spec_bytes());
            let from = |input: Seq<u8>|
                ifac::hkdf_sha256(hash::sha256_digest(input), ifac::IFAC_SALT@, 64);
            &&& ifac::access_key(Some(netname), Some(netkey)) == from(name + pass)
            &&& ifac::access_key(Some(netname), None) == from(name)
            &&& ifac::access_key(None, Some(netkey)) == from(pass)
        }),
{
    let name = hash::sha256_digest(netname.spec_bytes());
    let pass = hash::sha256_digest(netkey.spec_bytes());
    assert(name + Seq::<u8>::empty() =~= name);
    assert(Seq::<u8>::empty() + pass =~= pass);
}

/// Outside quotes blanks end an argument, and further blanks add none.
pub proof fn blanks_end_arguments(s: SplitView, c: char)
    requires
        c == ' ' || c == '\t' || c == '\r' || c == '\n',
        !s.escaped,
        !s.in_single,
        !s.in_double,
    ensures
        s.has_token ==> pipe::after_char(s, c).args == s.args.push(s.current),
        s.has_token ==> !pipe::after_char(s, c).has_token && pipe::after_char(s, c).current.len()
            == 0,
        !s.has_token ==> pipe::after_char(s, c) == s,
{
}

/// Inside quotes blanks are characters like any other, and so are the quotes of the other kind; the
/// quotes themselves are not part of the argument, but an argument of nothing else is an empty
/// one.
pub proof fn quotes_keep_characters(s: SplitView, c: char)
    requires
        !s.escaped,
    ensures
        s.in_single && c != '\'' ==> pipe::after_char(s, c).current == s.current.push(c)
            && pipe::after_char(s, c).args == s.args && pipe::after_char(s, c).in_single,
        s.in_double && !s.in_single && c != '"' && c != '\\' ==> pipe::after_char(s, c).current
            == s.current.push(c) && pipe::after_char(s, c).args == s.args && pipe::after_char(
            s,
            c,
        ).in_double,
        !s.in_double ==> pipe::after_char(s, '\'') == (SplitView {
            in_single: !s.in_single,
            has_token: true,
            ..s
        }),
        !s.in_single ==> pipe::after_char(s, '"') == (SplitView {
            in_double: !s.in_double,
            has_token: true,
            ..s
        }),
{
}

/// A backslash makes the next character an ordinary one; inside double quotes it does so for double
/// quotes and backslashes alone, and before others is a character itself.
pub proof fn backslashes_protect(s: SplitView, c: char)
    requires
        !s.escaped,
        !s.in_single,
    ensures
        ({
            let after = pipe::after_char(pipe::after_char(s, '\\'), c);
            &&& after.args == s.args
            &&& !after.escaped
            &&& after.has_token
            &&& after.in_double == s.in_double
            &&& !s.in_double || c == '"' || c == '\\' ==> after.current == s.current.push(c)
            &&& s.in_double && c != '"' && c != '\\' ==> after.current == s.current.push('\\').push(
                c,
            )
        }),
{
}

/// A command whose quotes are open at its end, or that ends in a backslash, has no arguments.
pub proof fn open_quotes_are_refused(command: Seq<char>)
    ensures
        ({
            let s = pipe::after_chars(command, command.len() as int);
            pipe::arguments(command) is None <==> s.in_single || s.in_double || s.escaped
        }),
        pipe::arguments(Seq::empty()) == Some(Seq::<Seq<char>>::empty()),
        pipe::arguments(command) is None ==> pipe::program_of(command) is None,
        pipe::arguments(command) is Some && pipe::arguments(command)->0.len() > 0 ==> {
            let args = pipe::arguments(command)->0;
            pipe::program_of(command) == Some((args[0], args.drop_first()))
        },
        pipe::arguments(command) == Some(Seq::<Seq<char>>::empty()) ==> pipe::program_of(command)
            is None,
{
    if pipe::arguments(command) is Some && pipe::arguments(command)->0.len() > 0 {
        let args = pipe::arguments(command)->0;
        assert(args.skip(1) =~= args.drop_first());
    }
}

/// Parity is even for "e" and "even", odd for "o" and "odd", and off for everything else.
pub proof fn parities_have_names(name: Seq<char>)
    ensures
        serial::parity_named(name) == Parity::Even <==> name == seq!['e'] || name == seq![
            'e',
            'v',
            'e',
            'n',
        ],
        serial::parity_named(name) == Parity::Odd <==> name == seq!['o'] || name == seq![
            'o',
            'd',
            'd',
        ],
{
    reveal_strlit("e");
    reveal_strlit("even");
    reveal_strlit("o");
    reveal_strlit("odd");
    assert("e"@ =~= seq!['e']);
    assert("even"@ =~= seq!['e', 'v', 'e', 'n']);
    assert("o"@ =~= seq!['o']);
    assert("odd"@ =~= seq!['o', 'd', 'd']);
    assert(seq!['e'][0] == 'e' && seq!['o'][0] == 'o');
    assert(seq!['e', 'v', 'e', 'n'][0] == 'e' && seq!['o', 'd', 'd'][0] == 'o');
}

/// Of several values of an option the last is taken; an option that is not there has none.
pub proof fn last_values_are_taken(reply: ReplyView, key: Seq<char>, k: int)
    ensures
        0 <= k < reply.opts.len() && reply.opts[k].key == key && (forall|j: int|
            k < j < reply.opts.len() ==> (#[trigger] reply.opts[j]).key != key) ==> i2p::option_of(
            reply,
            key,
        ) == Some(reply.opts[k].value),
        (forall|j: int| 0 <= j < reply.opts.len() ==> (#[trigger] reply.opts[j]).key != key)
            ==> i2p::option_of(reply, key) is None,
{
    if 0 <= k < reply.opts.len() && reply.opts[k].key == key && (forall|j: int|
        k < j < reply.opts.len() ==> (#[trigger] reply.opts[j]).key != key) {
        value_from(reply.opts, key, k, reply.opts.len() as int);
    }
    if forall|j: int| 0 <= j < reply.opts.len() ==> (#[trigger] reply.opts[j]).key != key {
        no_value(reply.opts, key, reply.opts.len() as int);
    }
}

proof fn value_from(opts: Seq<OptionView>, key: Seq<char>, k: int, n: int)
    requires
        0 <= k < n <= opts.len(),
        opts[k].key == key,
        forall|j: int| k < j < opts.len() ==> (#[trigger] opts[j]).key != key,
    ensures
        i2p::value_of(opts, key, n) == Some(opts[k].value),
    decreases n,
{
    if n - 1 > k {
        value_from(opts, key, k, n - 1);
    }
}

proof fn no_value(opts: Seq<OptionView>, key: Seq<char>, n: int)
    requires
        n <= opts.len(),
        forall|j: int| 0 <= j < opts.len() ==> (#[trigger] opts[j]).key != key,
    ensures
        i2p::value_of(opts, key, n) is None,
    decreases n,
{
    if n > 0 {
        no_value(opts, key, n - 1);
    }
}

/// An option's name ends before the first equals sign and its value begins after it; without one it
/// is the name alone, and true.
pub proof fn options_are_split_at_equals(name: Seq<char>, value: Seq<char>)
    requires
        !name.contains('='),
    ensures
        i2p::option_in(name.push('=') + value) == (OptionView { key: name, value }),
        i2p::option_in(name) == (OptionView { key: name, value: seq!['t', 'r', 'u', 'e'] }),
{
    let token = name.push('=') + value;
    assert forall|i: int| 0 <= i < name.len() implies token[i] != '=' by {
        assert(name.contains(name[i]));
    }
    equals_is_at(token, 0, name.len() as int);
    assert forall|i: int| 0 <= i < name.len() implies name[i] != '=' by {
        assert(name.contains(name[i]));
    }
    equals_is_at(name, 0, name.len() as int);
    assert(token.take(name.len() as int) =~= name);
    assert(token.skip(name.len() as int + 1) =~= value);
    reveal_strlit("true");
    assert("true"@ =~= seq!['t', 'r', 'u', 'e']);
}

proof fn equals_is_at(token: Seq<char>, from: int, at: int)
    requires
        0 <= from <= at <= token.len(),
        forall|i: int| from <= i < at ==> token[i] != '=',
        at < token.len() ==> token[at] == '=',
    ensures
        i2p::equals_at(token, from) == at,
    decreases at - from,
{
    if from < at {
        equals_is_at(token, from + 1, at);
    }
}

/// A reply is a command and an action, and then options; empty pieces among them count for nothing.
pub proof fn replies_name_command_and_action(line: Seq<char>, n: int)
    ensures
        ({
            let pieces = text::pieces(line, ' ');
            &&& i2p::reply_in(line) is Some <==> pieces.len() >= 2
            &&& pieces.len() >= 2 ==> i2p::reply_in(line)->0.cmd == pieces[0]
            &&& pieces.len() >= 2 ==> i2p::reply_in(line)->0.action == pieces[1]
            &&& pieces.len() == 2 ==> i2p::reply_in(line)->0.opts.len() == 0
            &&& 2 <= n < pieces.len() && pieces[n].len() > 0 ==> i2p::options_in(pieces, n + 1)
                == i2p::options_in(pieces, n).push(i2p::option_in(pieces[n]))
            &&& 2 <= n < pieces.len() && pieces[n].len() == 0 ==> i2p::options_in(pieces, n + 1)
                == i2p::options_in(pieces, n)
        }),
{
}

/// Four characters of base 64 stand for three bytes: the same number, in digits of sixty-four.
pub proof fn four_characters_are_three_bytes(data: Seq<u8>, g: int)
    requires
        g >= 0,
        4 * g + 3 < data.len(),
        forall|i: int| 4 * g <= i < 4 * g + 4 ==> i2p::b64_value(#[trigger] data[i]) is Some,
    ensures
        i2p::b64_byte(data, 3 * g) * 65536 + i2p::b64_byte(data, 3 * g + 1) * 256 + i2p::b64_byte(
            data,
            3 * g + 2,
        ) == i2p::digit_at(data, 4 * g) * 262144 + i2p::digit_at(data, 4 * g + 1) * 4096
            + i2p::digit_at(data, 4 * g + 2) * 64 + i2p::digit_at(data, 4 * g + 3),
        0 <= i2p::b64_byte(data, 3 * g) < 256,
        0 <= i2p::b64_byte(data, 3 * g + 1) < 256,
        0 <= i2p::b64_byte(data, 3 * g + 2) < 256,
{
    assert(i2p::b64_value(data[4 * g]) is Some && i2p::b64_value(data[4 * g + 1]) is Some);
    assert(i2p::b64_value(data[4 * g + 2]) is Some && i2p::b64_value(data[4 * g + 3]) is Some);
}

/// The characters of base 64 are the capital letters, the small ones, the digits, the minus sign and
/// the tilde, in this order.
pub proof fn characters_have_their_values(b: u8)
    ensures
        'A' as int <= b <= 'Z' as int ==> i2p::b64_value(b) == Some(b - 'A' as int),
        'a' as int <= b <= 'z' as int ==> i2p::b64_value(b) == Some(26 + b - 'a' as int),
        '0' as int <= b <= '9' as int ==> i2p::b64_value(b) == Some(52 + b - '0' as int),
        b == '-' as int ==> i2p::b64_value(b) == Some(62int),
        b == '~' as int ==> i2p::b64_value(b) == Some(63int),
        i2p::b64_value(b) is Some ==> {
            ||| 'A' as int <= b <= 'Z' as int
            ||| 'a' as int <= b <= 'z' as int
            ||| '0' as int <= b <= '9' as int
            ||| b == '-' as int
            ||| b == '~' as int
        },
{
}

/// Five bytes stand for eight characters of base 32: the same number, in digits of thirty-two.
pub proof fn five_bytes_are_eight_characters(data: Seq<u8>, g: int)
    requires
        g >= 0,
        5 * g + 4 < data.len(),
    ensures
        ((((((i2p::five_bits(data, 8 * g) * 32 + i2p::five_bits(data, 8 * g + 1)) * 32
            + i2p::five_bits(data, 8 * g + 2)) * 32 + i2p::five_bits(data, 8 * g + 3)) * 32
            + i2p::five_bits(data, 8 * g + 4)) * 32 + i2p::five_bits(data, 8 * g + 5)) * 32
            + i2p::five_bits(data, 8 * g + 6)) * 32 + i2p::five_bits(data, 8 * g + 7) == (((data[5
            * g] * 256 + data[5 * g + 1]) * 256 + data[5 * g + 2]) * 256 + data[5 * g + 3]) * 256
            + data[5 * g + 4],
{
    let (a, b, c, d, e) = (data[5 * g], data[5 * g + 1], data[5 * g + 2], data[5 * g + 3], data[5
        * g + 4]);
    five_bits_of_two_bytes(a, b);
    five_bits_of_two_bytes(b, c);
    five_bits_of_two_bytes(c, d);
    five_bits_of_two_bytes(d, e);
    let next: u8 = if 5 * g + 5 < data.len() {
        data[5 * g + 5]
    } else {
        0
    };
    five_bits_of_two_bytes(e, next);
    assert(i2p::five_bits(data, 8 * g) == a / 8);
    assert(i2p::five_bits(data, 8 * g + 1) == a % 8 * 4 + b / 64);
    assert(i2p::five_bits(data, 8 * g + 2) == b / 2 % 32);
    assert(i2p::five_bits(data, 8 * g + 3) == b % 2 * 16 + c / 16);
    assert(i2p::five_bits(data, 8 * g + 4) == c % 16 * 2 + d / 128);
    assert(i2p::five_bits(data, 8 * g + 5) == d / 4 % 32);
    assert(i2p::five_bits(data, 8 * g + 6) == d % 4 * 8 + e / 32);
    assert(i2p::five_bits(data, 8 * g + 7) == e % 32);
    same_number(a as int, b as int, c as int, d as int, e as int);
}

proof fn five_bits_of_two_bytes(x: u8, y: u8)
    by (bit_vector)
    ensures
        (x * 256 + y) / 2048 % 32 == x / 8,
        (x * 256 + y) / 64 % 32 == x % 8 * 4 + y / 64,
        (x * 256 + y) / 512 % 32 == x / 2 % 32,
        (x * 256 + y) / 16 % 32 == x % 2 * 16 + y / 16,
        (x * 256 + y) / 128 % 32 == x % 16 * 2 + y / 128,
        (x * 256 + y) / 1024 % 32 == x / 4 % 32,
        (x * 256 + y) / 32 % 32 == x % 4 * 8 + y / 32,
        (x * 256 + y) / 256 % 32 == x % 32,
{
}

proof fn same_number(a: int, b: int, c: int, d: int, e: int)
    requires
        0 <= a < 256,
        0 <= b < 256,
        0 <= c < 256,
        0 <= d < 256,
        0 <= e < 256,
    ensures
        (((((((a / 8) * 32 + (a % 8 * 4 + b / 64)) * 32 + b / 2 % 32) * 32 + (b % 2 * 16 + c / 16))
            * 32 + (c % 16 * 2 + d / 128)) * 32 + d / 4 % 32) * 32 + (d % 4 * 8 + e / 32)) * 32 + e
            % 32 == (((a * 256 + b) * 256 + c) * 256 + d) * 256 + e,
{
    assert(a == a / 8 * 8 + a % 8);
    assert(b == b / 64 * 64 + b / 2 % 32 * 2 + b % 2);
    assert(c == c / 16 * 16 + c % 16);
    assert(d == d / 128 * 128 + d / 4 % 32 * 4 + d % 4);
    assert(e == e / 32 * 32 + e % 32);
}

/// The characters of base 32 are the small letters and the digits from two on; a digest has
/// fifty-two of them.
pub proof fn addresses_have_fifty_two_characters(digest: Seq<u8>, i: int, v: int)
    requires
        0 <= i < 52,
        0 <= v < 32,
    ensures
        i2p::b32_of(digest).len() == 52,
        i2p::b32_of(digest)[i] == i2p::b32_digit(i2p::five_bits(digest, i)),
        v < 26 ==> i2p::b32_digit(v) as int == 'a' as int + v,
        v >= 26 ==> i2p::b32_digit(v) as int == '2' as int + v - 26,
{
}

/// The scopes of discovery and their digits.
pub proof fn scopes_have_digits(scope: DiscoveryScope, address_type: MulticastAddressType)
    ensures
        scope_id(DiscoveryScope::Link) == '2',
        scope_id(DiscoveryScope::Admin) == '4',
        scope_id(DiscoveryScope::Site) == '5',
        scope_id(DiscoveryScope::Organisation) == '8',
        scope_id(DiscoveryScope::Global) == 'e',
        type_id(MulticastAddressType::Temporary) == '1',
        type_id(MulticastAddressType::Permanent) == '0',
{
}

/// The names of the scopes; every other name is that of the link.
pub proof fn scopes_have_names(name: Seq<char>)
    ensures
        scope_named(name) == DiscoveryScope::Admin <==> name == seq!['a', 'd', 'm', 'i', 'n'],
        scope_named(name) == DiscoveryScope::Site <==> name == seq!['s', 'i', 't', 'e'],
        scope_named(name) == DiscoveryScope::Global <==> name == seq![
            'g',
            'l',
            'o',
            'b',
            'a',
            'l',
        ],
        scope_named(name) == DiscoveryScope::Organisation <==> name == seq![
            'o',
            'r',
            'g',
            'a',
            'n',
            'i',
            's',
            'a',
            't',
            'i',
            'o',
            'n',
        ] || name == seq!['o', 'r', 'g', 'a', 'n', 'i', 'z', 'a', 't', 'i', 'o', 'n'],
        type_named(name) == MulticastAddressType::Permanent <==> name == seq![
            'p',
            'e',
            'r',
            'm',
            'a',
            'n',
            'e',
            'n',
            't',
        ],
{
    reveal_strlit("admin");
    reveal_strlit("site");
    reveal_strlit("organisation");
    reveal_strlit("organization");
    reveal_strlit("global");
    reveal_strlit("permanent");
    assert("admin"@ =~= seq!['a', 'd', 'm', 'i', 'n']);
    assert("site"@ =~= seq!['s', 'i', 't', 'e']);
    assert("global"@ =~= seq!['g', 'l', 'o', 'b', 'a', 'l']);
    assert("organisation"@ =~= seq!['o', 'r', 'g', 'a', 'n', 'i', 's', 'a', 't', 'i', 'o', 'n']);
    assert("organization"@ =~= seq!['o', 'r', 'g', 'a', 'n', 'i', 'z', 'a', 't', 'i', 'o', 'n']);
    assert("permanent"@ =~= seq!['p', 'e', 'r', 'm', 'a', 'n', 'e', 'n', 't']);
    assert("admin"@[0] == 'a' && "site"@[0] == 's' && "global"@[0] == 'g' && "organisation"@[0]
        == 'o' && "organization"@[0] == 'o');
}

/// The address of a group is its type and scope, a zero, and six groups of two bytes of the digest
/// each, from the third byte on.
pub proof fn groups_have_addresses(
    digest: Seq<u8>,
    scope: DiscoveryScope,
    address_type: MulticastAddressType,
    n: int,
)
    requires
        0 <= n < 6,
    ensures
        digest_address(digest, scope, address_type) == seq![
            'f',
            'f',
            type_id(address_type),
            scope_id(scope),
            ':',
            '0',
        ] + hash_groups(digest, 6),
        hash_groups(digest, 0).len() == 0,
        hash_groups(digest, n + 1) == hash_groups(digest, n) + seq![':'] + text::hex_number(
            (digest[2 * n + 2] * 256 + digest[2 * n + 3]) as nat,
            2,
        ),
{
}

/// A beacon is one of the group, from its source, exactly when it begins with the digest of the
/// group and the source; what follows does not matter.
pub proof fn beacons_begin_with_their_token(group: Seq<u8>, src: Seq<u8>, data: Seq<u8>, more: Seq<u8>)
    ensures
        data.len() < 32 ==> !is_token(group, src, data),
        data.len() == 32 ==> (is_token(group, src, data + more) <==> data == hash::sha256_digest(
            group + src,
        )),
        token_of(group, src) == hash::sha256_digest(group + src),
{
    if data.len() == 32 {
        assert((data + more).take(32) =~= data);
    }
}

/// The loopback device and those that are to be ignored are never used; of the others all, or, where
/// some are named, those.
pub proof fn devices_are_chosen(name: Seq<char>, devices: Seq<Seq<char>>, ignored: Seq<Seq<char>>)
    ensures
        name == seq!['l', 'o', '0'] ==> !may_use(name, devices, ignored),
        ignored.contains(name) ==> !may_use(name, devices, ignored),
        devices.len() > 0 && !devices.contains(name) ==> !may_use(name, devices, ignored),
        name != seq!['l', 'o', '0'] && !ignored.contains(name) && (devices.len() == 0
            || devices.contains(name)) ==> may_use(name, devices, ignored),
{
    reveal_strlit("lo0");
    assert("lo0"@ =~= seq!['l', 'o', '0']);
}

/// A line of the address list gives the link-local address of a device that may be used, and no
/// other address; where one address is asked for, only that.
pub proof fn lines_give_link_local_addresses(
    words: Seq<Seq<char>>,
    devices: Seq<Seq<char>>,
    ignored: Seq<Seq<char>>,
    adopt: Option<Seq<u8>>,
)
    ensures
        line_address(words, devices, ignored, adopt) is Some ==> {
            &&& words.len() >= 6
            &&& words[0].len() == 32
            &&& words[0].take(4) == seq!['f', 'e', '8', '0']
            &&& words[3] == seq!['2', '0']
            &&& may_use(words[5], devices, ignored)
            &&& expanded_address(words[0]) == line_address(words, devices, ignored, adopt)
            &&& adopt is Some ==> adopt == line_address(words, devices, ignored, adopt)
        },
        words.len() >= 6 && words[0].len() == 32 && words[0].take(4) == seq!['f', 'e', '8', '0']
            && words[3] == seq!['2', '0'] && may_use(words[5], devices, ignored)
            && expanded_address(words[0]) is Some && (adopt is None || adopt == expanded_address(
            words[0],
        )) ==> line_address(words, devices, ignored, adopt) == expanded_address(words[0]),
{
    reveal_strlit("fe80");
    reveal_strlit("20");
    assert("fe80"@ =~= seq!['f', 'e', '8', '0']);
    assert("20"@ =~= seq!['2', '0']);
    if words.len() >= 6 && words[0].len() == 32 {
        assert("fe80"@.is_prefix_of(words[0]) <==> words[0].take(4) =~= seq!['f', 'e', '8', '0']);
    }
}

/// An address of thirty-two hexadecimal digits is sixteen bytes, two digits each.
pub proof fn addresses_are_read_by_pairs(hex: Seq<char>, i: int)
    requires
        0 <= i < 16,
    ensures
        hex.len() != 32 ==> expanded_address(hex) is None,
        expanded_address(hex) is Some ==> {
            &&& expanded_address(hex)->0.len() == 16
            &&& text::hex_value(hex[2 * i]) is Some
            &&& text::hex_value(hex[2 * i + 1]) is Some
            &&& expanded_address(hex)->0[i] == text::hex_value(hex[2 * i])->0 * 16
                + text::hex_value(hex[2 * i + 1])->0
        },
{
    if expanded_address(hex) is Some {
        assert(text::hex_value(hex[2 * i]) is Some);
        assert(text::hex_value(hex[2 * i + 1]) is Some);
        let high = text::hex_value(hex[2 * i])->0;
        let low = text::hex_value(hex[2 * i + 1])->0;
        assert(high < 16 && low < 16);
    }
}

/// A device is listed once: a further address of it takes the place of the one before, and leaves all
/// others.
pub proof fn devices_are_listed_once(
    ifaces: Seq<IfaceView>,
    name: Seq<char>,
    index: u32,
    address: Seq<u8>,
    i: int,
)
    requires
        forall|a: int, b: int|
            0 <= a < b < ifaces.len() ==> (#[trigger] ifaces[a]).name != (#[trigger] ifaces[b]).name,
    ensures
        ({
            let after = after_address(ifaces, name, Some(index), address);
            let entry = IfaceView { name, ifindex: index, link_local: address };
            &&& forall|a: int, b: int|
                0 <= a < b < after.len() ==> (#[trigger] after[a]).name != (#[trigger] after[b]).name
            &&& 0 <= i < ifaces.len() && ifaces[i].name == name ==> after == ifaces.update(i, entry)
            &&& (forall|a: int| 0 <= a < ifaces.len() ==> (#[trigger] ifaces[a]).name != name)
                ==> after == ifaces.push(entry)
        }),
{
    let at = listed_at(ifaces, name, 0);
    found_first(ifaces, name, 0);
    let after = after_address(ifaces, name, Some(index), address);
    if 0 <= i < ifaces.len() && ifaces[i].name == name {
        if at < i {
            assert(ifaces[at].name != ifaces[i].name);
        }
        if i < at {
            assert(ifaces[i].name != name);
        }
    }
    assert forall|a: int, b: int| 0 <= a < b < after.len() implies (#[trigger] after[a]).name != (
    #[trigger] after[b]).name by {
        if at < ifaces.len() {
            assert(after[a].name == ifaces[a].name);
            assert(after[b].name == ifaces[b].name);
        } else if b < ifaces.len() {
            assert(after[a] == ifaces[a] && after[b] == ifaces[b]);
        } else {
            assert(after[a] == ifaces[a]);
        }
    }
}

proof fn found_first(ifaces: Seq<IfaceView>, name: Seq<char>, from: int)
    requires
        0 <= from <= ifaces.len(),
    ensures
        ({
            let at = listed_at(ifaces, name, from);
            &&& from <= at <= ifaces.len()
            &&& at < ifaces.len() ==> ifaces[at].name == name
            &&& forall|j: int| from <= j < at ==> (#[trigger] ifaces[j]).name != name
        }),
    decreases ifaces.len() - from,
{
    if from < ifaces.len() && ifaces[from].name != name {
        found_first(ifaces, name, from + 1);
    }
}

/// Where one address is asked for, one device is used at most.
pub proof fn one_address_is_one_device(
    list: Seq<char>,
    devices: Seq<Seq<char>>,
    ignored: Seq<Seq<char>>,
    adopt: Seq<u8>,
)
    ensures
        ifaces_in(list, devices, ignored, Some(adopt)).len() <= 1,
{
}

/// Clients of a shared instance are counted by their kind.
pub proof fn clients_are_counted(stats: Seq<InterfaceStats>, n: int)
    requires
        0 <= n < stats.len(),
    ensures
        local::clients_in(stats, 0) == 0,
        stats[n].kind@ == "LocalClient"@ ==> local::clients_in(stats, n + 1) == local::clients_in(
            stats,
            n,
        ) + 1,
        stats[n].kind@ != "LocalClient"@ ==> local::clients_in(stats, n + 1) == local::clients_in(
            stats,
            n,
        ),
{
}

/// Credentials are the letters RNSLIA1, the name behind its length and the token behind its own; the
/// lengths are as much of them as one byte and two bytes hold.
pub proof fn credentials_have_their_layout(name: Seq<u8>, token: Seq<u8>)
    ensures
        ({
            let payload = local::auth_payload(name, token);
            &&& payload.len() == 10 + name.len() + token.len()
            &&& payload.take(7) == seq![0x52u8, 0x4e, 0x53, 0x4c, 0x49, 0x41, 0x31]
            &&& payload[7] == name.len() % 256
            &&& payload.subrange(8, 8 + name.len() as int) == name
            &&& payload[8 + name.len() as int] * 256 + payload[9 + name.len() as int] == token.len()
                % 65536
            &&& payload.skip(10 + name.len() as int) == token
        }),
{
    let payload = local::auth_payload(name, token);
    reveal_with_fuel(crate::bytes::be_bytes, 3);
    assert(payload.take(7) =~= seq![0x52u8, 0x4e, 0x53, 0x4c, 0x49, 0x41, 0x31]);
    assert(payload.subrange(8, 8 + name.len() as int) =~= name);
    assert(payload.skip(10 + name.len() as int) =~= token);
}

/// The largest frames of interfaces go by their kind; other kinds have no limit of their own, and
/// neither has an interface that is not there or has stopped.
pub proof fn kinds_have_limits(m: ManagerView, address: AddressHash)
    ensures
        hw_mtu_of("LocalServer"@) == Some(262_144usize),
        hw_mtu_of("LocalClient"@) == Some(262_144usize),
        hw_mtu_of("TcpClient"@) == Some(262_144usize),
        hw_mtu_of("TcpServer"@) == Some(262_144usize),
        hw_mtu_of("BackboneClient"@) == Some(1_048_576usize),
        hw_mtu_of("BackboneServer"@) == Some(1_048_576usize),
        hw_mtu_of("AutoInterface"@) == Some(1_196usize),
        (forall|i: int|
            0 <= i < m.ifaces.len() ==> (#[trigger] m.ifaces[i]).address != address
                || m.ifaces[i].stopped) ==> hw_mtu(m, address) is None,
{
    reveal_strlit("LocalServer");
    reveal_strlit("LocalClient");
    reveal_strlit("TcpClient");
    reveal_strlit("TcpServer");
    reveal_strlit("BackboneClient");
    reveal_strlit("BackboneServer");
    reveal_strlit("AutoInterface");
    assert("BackboneClient"@[0] == 'B' && "BackboneServer"@[0] == 'B' && "AutoInterface"@[0] == 'A');
    assert("LocalServer"@[0] == 'L' && "LocalClient"@[0] == 'L' && "TcpClient"@[0] == 'T'
        && "TcpServer"@[0] == 'T');
    if forall|i: int|
        0 <= i < m.ifaces.len() ==> (#[trigger] m.ifaces[i]).address != address
            || m.ifaces[i].stopped {
        none_is_live(m.ifaces, address, 0);
    }
}

proof fn none_is_live(ifaces: Seq<EntryView>, address: AddressHash, from: int)
    requires
        0 <= from <= ifaces.len(),
        forall|i: int|
            0 <= i < ifaces.len() ==> (#[trigger] ifaces[i]).address != address
                || ifaces[i].stopped,
    ensures
        crate::iface::manager::live_at(ifaces, address, from) == ifaces.len(),
    decreases ifaces.len() - from,
{
    if from < ifaces.len() {
        none_is_live(ifaces, address, from + 1);
    }
}

/// A new interface is the last, runs, is not online, has no access key, and has counted nothing; the
/// others stay as they are.
pub proof fn new_interfaces_have_counted_nothing(
    before: ManagerView,
    after: ManagerView,
    address: AddressHash,
    name: Seq<char>,
    kind: Seq<char>,
    now: u64,
)
    requires
        is_registered(before, after, address, name, kind, now),
    ensures
        ({
            let entry = after.ifaces.last();
            &&& after.ifaces.len() == before.ifaces.len() + 1
            &&& after.ifaces.drop_last() == before.ifaces
            &&& after.counter == before.counter + 1
            &&& entry.address == address
            &&& entry.name == name
            &&& entry.kind == kind
            &&& !entry.stopped
            &&& entry.ifac is None
            &&& !entry.stats.online
            &&& entry.stats.sent == 0 && entry.stats.received == 0
            &&& entry.stats.tx_bytes == 0 && entry.stats.rx_bytes == 0
            &&& entry.stats.announces_sent == 0 && entry.stats.announces_received == 0
            &&& entry.stats.path_requests_sent == 0 && entry.stats.path_requests_received == 0
            &&& entry.stats.protocol_violations == 0 && entry.stats.ifac_violations == 0
            &&& entry.stats.packet_filter_hits == 0
            &&& entry.stats.rssi is None
        }),
        after.controls.dom().contains(address),
        after.controls[address] == control_state::new_control(now),
        forall|a: AddressHash|
            a != address ==> (#[trigger] after.controls.dom().contains(a)
                <==> before.controls.dom().contains(a)),
        forall|a: AddressHash|
            a != address && #[trigger] before.controls.dom().contains(a) ==> after.controls[a]
                == before.controls[a],
{
    assert(after.ifaces.drop_last() =~= before.ifaces);
}

/// Statistics are those of their interface, each under its own head; readings that were never
/// reported are missing.
pub proof fn statistics_are_those_of_the_interface(s: InterfaceStats, e: EntryView)
    requires
        stats_of(s, e),
    ensures
        s.address == e.address && s.name@ == e.name && s.kind@ == e.kind,
        s.sent == e.stats.sent && s.received == e.stats.received,
        s.tx_bytes == e.stats.tx_bytes && s.rx_bytes == e.stats.rx_bytes,
        s.online == e.stats.online,
        s.announces_received == e.stats.announces_received,
        s.announces_sent == e.stats.announces_sent,
        s.announce_bytes_received == e.stats.announce_bytes_received,
        s.announce_bytes_sent == e.stats.announce_bytes_sent,
        s.path_requests_received == e.stats.path_requests_received,
        s.path_requests_sent == e.stats.path_requests_sent,
        s.protocol_violations == e.stats.protocol_violations,
        s.ifac_violations == e.stats.ifac_violations,
        s.packet_filter_hits == e.stats.packet_filter_hits,
        s.rssi == e.stats.rssi,
        e.stats.snr_bits == 0xffff_ffff ==> s.snr is None,
        e.stats.snr_bits != 0xffff_ffff ==> s.snr == Some(e.stats.snr_bits),
        e.stats.quality_bits == 0xffff_ffff ==> s.quality is None,
        e.stats.quality_bits != 0xffff_ffff ==> s.quality == Some(e.stats.quality_bits),
{
}

/// The address of an interface is drawn from its number, in eight bytes, the lowest first, and eight
/// random bytes.
pub proof fn addresses_are_drawn(counter: u64, random: Seq<u8>)
    requires
        random.len() >= 16,
    ensures
        crate::iface::manager::interface_seed(counter, random).len() == 16,
        crate::iface::manager::interface_seed(counter, random).skip(8) == random.subrange(8, 16),
        crate::iface::manager::interface_seed(counter, random)[0] == counter % 256,
        crate::iface::manager::interface_seed(counter, random)[1] == counter / 256 % 256,
        crate::iface::manager::interface_seed(counter, random)[2] == counter / 65536 % 256,
        crate::iface::manager::interface_seed(counter, random)[7] == counter
            / 72057594037927936,
{
    reveal_with_fuel(crate::bytes::le_bytes, 9);
    assert(crate::iface::manager::interface_seed(counter, random).skip(8) =~= random.subrange(
        8,
        16,
    ));
}

/// The address list is gone through line by line: a line that gives an address adds it under the
/// name and the number that it says, and others change nothing.
pub proof fn address_lists_are_gone_through(
    lines: Seq<Seq<char>>,
    devices: Seq<Seq<char>>,
    ignored: Seq<Seq<char>>,
    adopt: Option<Seq<u8>>,
    n: int,
)
    requires
        0 <= n < lines.len(),
    ensures
        ({
            let before = after_lines(lines, devices, ignored, adopt, n);
            let after = after_lines(lines, devices, ignored, adopt, n + 1);
            let words = text::words(lines[n]);
            let given = line_address(words, devices, ignored, adopt);
            &&& after_lines(lines, devices, ignored, adopt, 0).len() == 0
            &&& given is None ==> after == before
            &&& given is Some ==> after == after_address(
                before,
                words[5],
                text::decimal_u32(words[1]),
                given->0,
            )
        }),
{
}

} // verus!
