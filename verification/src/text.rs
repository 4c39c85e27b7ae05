//! Text helpers on top of the standard library's strings.

use vstd::prelude::*;
use vstd::string::*;

use crate::bytes;

verus! {

/// The lower-case form of a text.
pub uninterp spec fn lowercased(text: Seq<char>) -> Seq<char>;

/// The upper-case form of a text.
pub uninterp spec fn uppercased(text: Seq<char>) -> Seq<char>;

/// The lower-case form of an ASCII character.
pub open spec fn ascii_lower(c: char) -> char {
    if 'A' <= c && c <= 'Z' {
        ((c as u32 + 32) as u8) as char
    } else {
        c
    }
}

/// The upper-case form of an ASCII character.
pub open spec fn ascii_upper(c: char) -> char {
    if 'a' <= c && c <= 'z' {
        ((c as u32 - 32) as u8) as char
    } else {
        c
    }
}

/// The lower-case form of an ASCII text.
pub open spec fn ascii_lowered(text: Seq<char>) -> Seq<char> {
    text.map_values(|c: char| ascii_lower(c))
}

/// The upper-case form of an ASCII text.
pub open spec fn ascii_uppered(text: Seq<char>) -> Seq<char> {
    text.map_values(|c: char| ascii_upper(c))
}

/// Lower-cases a text with `str::to_lowercase`. The result depends on the text alone; that of an
/// ASCII text lower-cases each letter and keeps everything else.
#[verifier::external_body]
pub(crate) fn to_lowercase(text: &str) -> (r: String)
    ensures
        r@ == lowercased(text@),
        text.is_ascii() ==> r@ == ascii_lowered(text@),
{
    text.to_lowercase()
}

/// Upper-cases a text with `str::to_uppercase`. The result depends on the text alone; that of an
/// ASCII text upper-cases each letter and keeps everything else.
#[verifier::external_body]
pub(crate) fn to_uppercase(text: &str) -> (r: String)
    ensures
        r@ == uppercased(text@),
        text.is_ascii() ==> r@ == ascii_uppered(text@),
{
    text.to_uppercase()
}

/// Appends a character with `String::push`.
#[verifier::external_body]
pub(crate) fn push_char(text: &mut String, c: char)
    ensures
        final(text)@ == old(text)@.push(c),
{
    text.push(c);
}

/// Whether two texts are equal.
pub(crate) fn same_text(a: &str, b: &str) -> (r: bool)
    ensures
        r == (a@ == b@),
{
    proof {
        vstd::utf8::encode_utf8_decode_utf8(a@);
        vstd::utf8::encode_utf8_decode_utf8(b@);
    }
    bytes::equal(a.as_bytes(), b.as_bytes())
}

/// The characters of a text.
pub(crate) fn characters(text: &str) -> (r: Vec<char>)
    ensures
        r@ == text@,
{
    let n: usize = text.unicode_len();
    let mut r: Vec<char> = Vec::new();
    let mut i: usize = 0;
    while i < n
        invariant
            i <= n,
            n == text@.len(),
            r@ == text@.take(i as int),
        decreases n - i,
    {
        r.push(text.get_char(i));
        i += 1;
        assert(r@ =~= text@.take(i as int));
    }
    assert(r@ =~= text@);
    r
}

/// Whether a character is white space.
pub open spec fn is_space(c: char) -> bool {
    ||| '\u{9}' <= c <= '\u{d}'
    ||| c == ' '
    ||| c == '\u{85}'
    ||| c == '\u{a0}'
    ||| c == '\u{1680}'
    ||| '\u{2000}' <= c <= '\u{200a}'
    ||| c == '\u{2028}'
    ||| c == '\u{2029}'
    ||| c == '\u{202f}'
    ||| c == '\u{205f}'
    ||| c == '\u{3000}'
}

/// Whether a character is white space.
pub fn space(c: char) -> (r: bool)
    ensures
        r == is_space(c),
{
    ('\u{9}' <= c && c <= '\u{d}') || c == ' ' || c == '\u{85}' || c == '\u{a0}' || c == '\u{1680}'
        || ('\u{2000}' <= c && c <= '\u{200a}') || c == '\u{2028}' || c == '\u{2029}' || c
        == '\u{202f}' || c == '\u{205f}' || c == '\u{3000}'
}

/// The words among the first `n` characters of a text: what stands between white space.
pub open spec fn words_upto(text: Seq<char>, n: int) -> Seq<Seq<char>>
    decreases n,
{
    if n <= 0 {
        Seq::empty()
    } else {
        let before = words_upto(text, n - 1);
        let c = text[n - 1];
        if is_space(c) {
            before
        } else if n >= 2 && !is_space(text[n - 2]) {
            before.drop_last().push(before.last().push(c))
        } else {
            before.push(seq![c])
        }
    }
}

/// The words of a text.
pub open spec fn words(text: Seq<char>) -> Seq<Seq<char>> {
    words_upto(text, text.len() as int)
}

/// The pieces of the first `n` characters of a text: what stands between separators.
pub open spec fn pieces_upto(text: Seq<char>, separator: char, n: int) -> Seq<Seq<char>>
    decreases n,
{
    if n <= 0 {
        seq![Seq::empty()]
    } else {
        let before = pieces_upto(text, separator, n - 1);
        let c = text[n - 1];
        if c == separator {
            before.push(Seq::empty())
        } else {
            before.drop_last().push(before.last().push(c))
        }
    }
}

/// The pieces of a text: what stands between separators.
pub open spec fn pieces(text: Seq<char>, separator: char) -> Seq<Seq<char>> {
    pieces_upto(text, separator, text.len() as int)
}

/// The lines of a text.
pub open spec fn lines(text: Seq<char>) -> Seq<Seq<char>> {
    pieces(text, '\n')
}

/// Texts as mathematical values.
pub open spec fn chars_views(texts: Seq<Vec<char>>) -> Seq<Seq<char>> {
    texts.map_values(|t: Vec<char>| t@)
}

/// The last text of a list with one more character.
fn grow_last(texts: &mut Vec<Vec<char>>, c: char)
    requires
        old(texts)@.len() > 0,
    ensures
        chars_views(final(texts)@) == chars_views(old(texts)@).drop_last().push(
            chars_views(old(texts)@).last().push(c),
        ),
{
    let ghost before = chars_views(texts@);
    let last: usize = texts.len() - 1;
    texts[last].push(c);
    assert(chars_views(texts@) =~= before.drop_last().push(before.last().push(c)));
}

/// A word that has begun is in the list of words.
proof fn word_begun(text: Seq<char>, n: int)
    requires
        0 < n <= text.len(),
        !is_space(text[n - 1]),
    ensures
        words_upto(text, n).len() > 0,
{
}

/// The words of a text.
pub fn split_words(text: &[char]) -> (r: Vec<Vec<char>>)
    ensures
        chars_views(r@) == words(text@),
{
    let mut r: Vec<Vec<char>> = Vec::new();
    let mut i: usize = 0;
    assert(chars_views(r@) =~= words_upto(text@, 0));
    while i < text.len()
        invariant
            i <= text@.len(),
            chars_views(r@) == words_upto(text@, i as int),
        decreases text@.len() - i,
    {
        let ghost before = chars_views(r@);
        let c: char = text[i];
        if !space(c) {
            if i > 0 && !space(text[i - 1]) {
                proof {
                    word_begun(text@, i as int);
                }
                grow_last(&mut r, c);
            } else {
                let mut word: Vec<char> = Vec::new();
                word.push(c);
                assert(word@ =~= seq![c]);
                r.push(word);
                assert(chars_views(r@) =~= before.push(seq![c]));
            }
        }
        i += 1;
    }
    r
}

/// There is always a last piece.
proof fn piece_begun(text: Seq<char>, separator: char, n: int)
    ensures
        pieces_upto(text, separator, n).len() > 0,
    decreases n,
{
    if n > 0 {
        piece_begun(text, separator, n - 1);
    }
}

/// The pieces of a text.
pub fn split_on(text: &[char], separator: char) -> (r: Vec<Vec<char>>)
    ensures
        chars_views(r@) == pieces(text@, separator),
        r@.len() > 0,
{
    let mut r: Vec<Vec<char>> = Vec::new();
    r.push(Vec::new());
    let mut i: usize = 0;
    assert(chars_views(r@) =~= pieces_upto(text@, separator, 0));
    while i < text.len()
        invariant
            i <= text@.len(),
            chars_views(r@) == pieces_upto(text@, separator, i as int),
        decreases text@.len() - i,
    {
        let ghost before = chars_views(r@);
        proof {
            piece_begun(text@, separator, i as int);
        }
        let c: char = text[i];
        if c == separator {
            r.push(Vec::new());
            assert(chars_views(r@) =~= before.push(Seq::empty()));
        } else {
            grow_last(&mut r, c);
        }
        i += 1;
    }
    proof {
        piece_begun(text@, separator, i as int);
        assert(r@.len() == chars_views(r@).len());
    }
    r
}

/// The lines of a text.
pub fn split_lines(text: &[char]) -> (r: Vec<Vec<char>>)
    ensures
        chars_views(r@) == lines(text@),
{
    split_on(text, '\n')
}

/// How many of the first characters are white space.
pub open spec fn leading_space(text: Seq<char>, from: int) -> int
    decreases text.len() - from,
{
    if 0 <= from < text.len() && is_space(text[from]) {
        leading_space(text, from + 1)
    } else {
        from
    }
}

/// Where white space at the end of the first `n` characters begins.
pub open spec fn trailing_space(text: Seq<char>, n: int) -> int
    decreases n,
{
    if 0 < n <= text.len() && is_space(text[n - 1]) {
        trailing_space(text, n - 1)
    } else {
        n
    }
}

/// A text without white space at its ends.
pub open spec fn trimmed(text: Seq<char>) -> Seq<char> {
    let start = leading_space(text, 0);
    let end = trailing_space(text, text.len() as int);
    if start <= end {
        text.subrange(start, end)
    } else {
        Seq::empty()
    }
}

/// A text without white space at its ends.
pub fn trim(text: &[char]) -> (r: &[char])
    ensures
        r@ == trimmed(text@),
{
    let mut start: usize = 0;
    while start < text.len() && space(text[start])
        invariant
            start <= text@.len(),
            leading_space(text@, 0) == leading_space(text@, start as int),
        decreases text@.len() - start,
    {
        start += 1;
    }
    let mut end: usize = text.len();
    while end > 0 && space(text[end - 1])
        invariant
            end <= text@.len(),
            trailing_space(text@, text@.len() as int) == trailing_space(text@, end as int),
        decreases end,
    {
        end -= 1;
    }
    if start <= end {
        &text[start..end]
    } else {
        let none: &[char] = &text[0..0];
        assert(none@ =~= Seq::<char>::empty());
        none
    }
}

/// The text of bytes, with a replacement character for what is no text.
pub uninterp spec fn lossy_text(data: Seq<u8>) -> Seq<char>;

/// Reads bytes as text with `String::from_utf8_lossy`. The result depends on the bytes alone; that
/// of well-formed UTF-8 is the text that it encodes.
#[verifier::external_body]
pub(crate) fn to_text_lossy(data: &[u8]) -> (r: String)
    ensures
        r@ == lossy_text(data@),
        vstd::utf8::valid_utf8(data@) ==> r@ == vstd::utf8::decode_utf8(data@),
{
    String::from_utf8_lossy(data).into_owned()
}

/// The value of a hexadecimal digit.
pub open spec fn hex_value(c: char) -> Option<u8> {
    if '0' <= c <= '9' {
        Some((c as u32 - 48) as u8)
    } else if 'a' <= c <= 'f' {
        Some((c as u32 - 87) as u8)
    } else if 'A' <= c <= 'F' {
        Some((c as u32 - 55) as u8)
    } else {
        None
    }
}

/// The value of a hexadecimal digit.
pub fn hex_digit_value(c: char) -> (r: Option<u8>)
    ensures
        r == hex_value(c),
        r is Some ==> r->0 < 16,
{
    if '0' <= c && c <= '9' {
        Some((c as u32 - 48) as u8)
    } else if 'a' <= c && c <= 'f' {
        Some((c as u32 - 87) as u8)
    } else if 'A' <= c && c <= 'F' {
        Some((c as u32 - 55) as u8)
    } else {
        None
    }
}

/// A lower-case hexadecimal digit.
pub open spec fn hex_digit(v: int) -> char {
    if v < 10 {
        (48 + v) as u8 as char
    } else {
        (87 + v) as u8 as char
    }
}

/// A lower-case hexadecimal digit.
pub fn hex_char(v: u8) -> (r: char)
    requires
        v < 16,
    ensures
        r == hex_digit(v as int),
{
    if v < 10 {
        (48 + v) as char
    } else {
        (87 + v) as char
    }
}

/// A number in hexadecimal digits, at least `width` of them.
pub open spec fn hex_number(v: nat, width: nat) -> Seq<char>
    decreases v, width,
{
    if v < 16 && width <= 1 {
        seq![hex_digit(v as int)]
    } else {
        hex_number(
            v / 16,
            if width > 0 {
                (width - 1) as nat
            } else {
                0
            },
        ).push(hex_digit((v % 16) as int))
    }
}

/// Bytes in hexadecimal digits, two each.
pub open spec fn hex_bytes(data: Seq<u8>) -> Seq<char>
    decreases data.len(),
{
    if data.len() == 0 {
        Seq::empty()
    } else {
        hex_bytes(data.drop_last()) + seq![
            hex_digit(data.last() as int / 16),
            hex_digit(data.last() as int % 16),
        ]
    }
}

/// Bytes in hexadecimal digits, two each.
pub fn to_hex(data: &[u8]) -> (r: String)
    ensures
        r@ == hex_bytes(data@),
{
    let mut r: String = String::new();
    let mut i: usize = 0;
    assert(data@.take(0) =~= Seq::<u8>::empty());
    assert(r@ =~= hex_bytes(data@.take(0)));
    while i < data.len()
        invariant
            i <= data@.len(),
            r@ == hex_bytes(data@.take(i as int)),
        decreases data@.len() - i,
    {
        assert(data@.take(i + 1).drop_last() =~= data@.take(i as int));
        let b: u8 = data[i];
        push_char(&mut r, hex_char(b / 16));
        push_char(&mut r, hex_char(b % 16));
        i += 1;
        assert(r@ =~= hex_bytes(data@.take(i as int)));
    }
    assert(data@.take(i as int) =~= data@);
    r
}

/// Whether a character is a decimal digit.
pub open spec fn is_digit(c: char) -> bool {
    '0' <= c <= '9'
}

/// The value of decimal digits.
pub open spec fn decimal_value(digits: Seq<char>) -> nat
    decreases digits.len(),
{
    if digits.len() == 0 {
        0
    } else {
        decimal_value(digits.drop_last()) * 10 + (digits.last() as u32 - 48) as nat
    }
}

/// The digits of a number that may have a plus sign.
pub open spec fn unsigned_digits(text: Seq<char>) -> Seq<char> {
    if text.len() > 0 && text[0] == '+' {
        text.skip(1)
    } else {
        text
    }
}

/// The 32-bit number that a text says in decimal.
pub open spec fn decimal_u32(text: Seq<char>) -> Option<u32> {
    let digits = unsigned_digits(text);
    if digits.len() > 0 && (forall|i: int| 0 <= i < digits.len() ==> is_digit(#[trigger] digits[i]))
        && decimal_value(digits) <= u32::MAX {
        Some(decimal_value(digits) as u32)
    } else {
        None
    }
}

/// More digits make no smaller number.
proof fn decimal_grows(digits: Seq<char>, n: int)
    requires
        0 <= n <= digits.len(),
        forall|i: int| 0 <= i < digits.len() ==> is_digit(#[trigger] digits[i]),
    ensures
        decimal_value(digits.take(n)) <= decimal_value(digits),
    decreases digits.len() - n,
{
    if n < digits.len() {
        decimal_grows(digits, n + 1);
        assert(digits.take(n + 1).drop_last() =~= digits.take(n));
        assert(is_digit(digits[n]));
    } else {
        assert(digits.take(n) =~= digits);
    }
}

/// The 32-bit number that a text says in decimal.
pub fn parse_u32(text: &[char]) -> (r: Option<u32>)
    ensures
        r == decimal_u32(text@),
{
    let start: usize = if text.len() > 0 && text[0] == '+' {
        1
    } else {
        0
    };
    let ghost digits = unsigned_digits(text@);
    assert(digits =~= text@.skip(start as int));
    if text.len() <= start {
        return None;
    }
    let mut i: usize = start;
    while i < text.len()
        invariant
            start <= i <= text@.len(),
            digits == unsigned_digits(text@),
            digits == text@.skip(start as int),
            forall|j: int| 0 <= j < i - start ==> is_digit(#[trigger] digits[j]),
        decreases text@.len() - i,
    {
        assert(digits[i - start] == text@[i as int]);
        if !('0' <= text[i] && text[i] <= '9') {
            assert(!is_digit(digits[i - start]));
            return None;
        }
        i += 1;
    }
    let mut value: u32 = 0;
    let mut k: usize = start;
    assert(digits.take(0) =~= Seq::<char>::empty());
    while k < text.len()
        invariant
            start <= k <= text@.len(),
            digits == unsigned_digits(text@),
            digits == text@.skip(start as int),
            digits.len() > 0,
            forall|j: int| 0 <= j < digits.len() ==> is_digit(#[trigger] digits[j]),
            value == decimal_value(digits.take(k - start)),
        decreases text@.len() - k,
    {
        assert(is_digit(digits[k - start]));
        assert(digits[k - start] == text@[k as int]);
        let digit: u32 = text[k] as u32 - 48;
        let next: u64 = value as u64 * 10 + digit as u64;
        proof {
            assert(digits.take(k - start + 1).drop_last() =~= digits.take(k - start));
            decimal_grows(digits, k - start + 1);
        }
        if next > u32::MAX as u64 {
            return None;
        }
        value = next as u32;
        k += 1;
    }
    assert(digits.take(k - start) =~= digits);
    Some(value)
}

/// Appends the characters of a text.
pub(crate) fn push_chars(text: &mut String, tail: &[char])
    ensures
        final(text)@ == old(text)@ + tail@,
{
    let mut i: usize = 0;
    assert(text@ =~= old(text)@ + tail@.take(0));
    while i < tail.len()
        invariant
            i <= tail@.len(),
            text@ == old(text)@ + tail@.take(i as int),
        decreases tail@.len() - i,
    {
        push_char(text, tail[i]);
        i += 1;
        assert(text@ =~= old(text)@ + tail@.take(i as int));
    }
    assert(tail@.take(i as int) =~= tail@);
}

/// A text of these characters.
pub(crate) fn to_text(chars: &[char]) -> (r: String)
    ensures
        r@ == chars@,
{
    let mut r: String = String::new();
    push_chars(&mut r, chars);
    assert(r@ =~= chars@);
    r
}

/// Whether characters are those of a text.
pub(crate) fn same_chars(chars: &[char], text: &str) -> (r: bool)
    ensures
        r == (chars@ == text@),
{
    let other: Vec<char> = characters(text);
    if chars.len() != other.len() {
        return false;
    }
    let mut i: usize = 0;
    while i < chars.len()
        invariant
            i <= chars@.len(),
            chars@.len() == other@.len(),
            other@ == text@,
            forall|j: int| 0 <= j < i ==> chars@[j] == other@[j],
        decreases chars@.len() - i,
    {
        if chars[i] != other[i] {
            return false;
        }
        i += 1;
    }
    assert(chars@ =~= text@);
    true
}

/// Reads bytes as text with `std::str::from_utf8`, where they are well-formed UTF-8.
#[verifier::external_body]
pub(crate) fn to_text_strict(data: &[u8]) -> (r: Option<String>)
    ensures
        r is Some <==> vstd::utf8::valid_utf8(data@),
        r is Some ==> r->0@ == vstd::utf8::decode_utf8(data@),
{
    std::str::from_utf8(data).ok().map(String::from)
}

} // verus!
