//! What holds of text: how it is split, trimmed, and read as numbers.

use vstd::prelude::*;

use crate::text::{
    ascii_lower, ascii_lowered, ascii_upper, ascii_uppered, decimal_u32, decimal_value, hex_bytes,
    hex_digit, hex_number, hex_value, is_space, leading_space, lines, pieces, pieces_upto,
    trailing_space, trimmed, words, words_upto,
};

verus! {

/// The pieces of a text with the separator between them.
pub open spec fn rejoined(parts: Seq<Seq<char>>, separator: char) -> Seq<char>
    decreases parts.len(),
{
    if parts.len() == 0 {
        Seq::empty()
    } else if parts.len() == 1 {
        parts[0]
    } else {
        rejoined(parts.drop_last(), separator).push(separator) + parts.last()
    }
}

/// Splitting loses nothing: with the separator between them the pieces are the text again, and none
/// of them holds the separator.
pub proof fn pieces_are_the_text(text: Seq<char>, separator: char)
    ensures
        pieces(text, separator).len() >= 1,
        rejoined(pieces(text, separator), separator) == text,
        forall|i: int|
            0 <= i < pieces(text, separator).len() ==> !(#[trigger] pieces(
                text,
                separator,
            )[i]).contains(separator),
{
    pieces_of_start(text, separator, text.len() as int);
    assert(text.take(text.len() as int) =~= text);
}

proof fn pieces_of_start(text: Seq<char>, separator: char, n: int)
    requires
        0 <= n <= text.len(),
    ensures
        ({
            let parts = pieces_upto(text, separator, n);
            &&& parts.len() >= 1
            &&& rejoined(parts, separator) == text.take(n)
            &&& forall|i: int| 0 <= i < parts.len() ==> !(#[trigger] parts[i]).contains(separator)
        }),
    decreases n,
{
    let parts = pieces_upto(text, separator, n);
    if n == 0 {
        assert(text.take(0) =~= Seq::empty());
        assert(parts =~= seq![Seq::empty()]);
    } else {
        pieces_of_start(text, separator, n - 1);
        let before = pieces_upto(text, separator, n - 1);
        let c = text[n - 1];
        assert(text.take(n) =~= text.take(n - 1).push(c));
        if c == separator {
            assert(parts.drop_last() =~= before);
            assert(rejoined(parts, separator) =~= rejoined(before, separator).push(separator));
        } else {
            let last = before.last().push(c);
            assert(parts =~= before.drop_last().push(last));
            assert(parts.drop_last() =~= before.drop_last());
            assert forall|i: int| 0 <= i < parts.len() implies !(#[trigger] parts[i]).contains(
                separator,
            ) by {
                if i < parts.len() - 1 {
                    assert(parts[i] == before[i]);
                } else {
                    assert(!before[i].contains(separator));
                    if last.contains(separator) {
                        let k = choose|k: int| 0 <= k < last.len() && last[k] == separator;
                        if k < before.last().len() {
                            assert(before.last()[k] == separator);
                            assert(before.last().contains(separator));
                        }
                    }
                }
            }
            if parts.len() == 1 {
                assert(rejoined(parts, separator) =~= rejoined(before, separator).push(c));
            } else {
                assert(rejoined(parts, separator) =~= rejoined(before, separator).push(c));
            }
        }
    }
}

/// Lines end with line feeds.
pub proof fn lines_end_with_line_feeds(text: Seq<char>)
    ensures
        rejoined(lines(text), '\n') == text,
{
    pieces_are_the_text(text, '\n');
}

/// Words are not empty and hold no white space.
pub proof fn words_hold_no_space(text: Seq<char>)
    ensures
        forall|i: int, k: int|
            0 <= i < words(text).len() && 0 <= k < words(text)[i].len() ==> !is_space(
                #[trigger] words(text)[i][k],
            ),
        forall|i: int| 0 <= i < words(text).len() ==> (#[trigger] words(text)[i]).len() > 0,
{
    words_of_start(text, text.len() as int);
}

proof fn words_of_start(text: Seq<char>, n: int)
    requires
        0 <= n <= text.len(),
    ensures
        ({
            let all = words_upto(text, n);
            &&& forall|i: int, k: int|
                0 <= i < all.len() && 0 <= k < all[i].len() ==> !is_space(#[trigger] all[i][k])
            &&& forall|i: int| 0 <= i < all.len() ==> (#[trigger] all[i]).len() > 0
            &&& n > 0 && !is_space(text[n - 1]) ==> all.len() > 0 && all.last().last() == text[n
                - 1]
        }),
    decreases n,
{
    if n > 0 {
        words_of_start(text, n - 1);
        let before = words_upto(text, n - 1);
        let all = words_upto(text, n);
        let c = text[n - 1];
        if !is_space(c) && n >= 2 && !is_space(text[n - 2]) {
            let last = before.last().push(c);
            assert forall|i: int, k: int| 0 <= i < all.len() && 0 <= k < all[i].len() implies
                !is_space(#[trigger] all[i][k]) by {
                if i < all.len() - 1 {
                    assert(all[i] == before[i]);
                } else if k < before.last().len() {
                    assert(all[i][k] == before[i][k]);
                }
            }
            assert forall|i: int| 0 <= i < all.len() implies (#[trigger] all[i]).len() > 0 by {
                if i < all.len() - 1 {
                    assert(all[i] == before[i]);
                }
            }
        } else if !is_space(c) {
            assert forall|i: int, k: int| 0 <= i < all.len() && 0 <= k < all[i].len() implies
                !is_space(#[trigger] all[i][k]) by {
                if i < all.len() - 1 {
                    assert(all[i][k] == before[i][k]);
                }
            }
            assert forall|i: int| 0 <= i < all.len() implies (#[trigger] all[i]).len() > 0 by {
                if i < all.len() - 1 {
                    assert(all[i] == before[i]);
                }
            }
        }
    }
}

/// White space ends a word and other characters go on with it.
pub proof fn characters_go_on_with_words(text: Seq<char>, c: char)
    ensures
        is_space(c) ==> words(text.push(c)) == words(text),
        !is_space(c) && (text.len() == 0 || is_space(text.last())) ==> words(text.push(c)) == words(
            text,
        ).push(seq![c]),
        !is_space(c) && text.len() > 0 && !is_space(text.last()) ==> words(text.push(c)) == words(
            text,
        ).drop_last().push(words(text).last().push(c)),
{
    assert(text.push(c).take(text.len() as int) =~= text);
    words_of_prefix(text, text.push(c), text.len() as int);
}

proof fn words_of_prefix(a: Seq<char>, b: Seq<char>, n: int)
    requires
        n <= a.len() <= b.len(),
        a == b.take(a.len() as int),
    ensures
        words_upto(a, n) == words_upto(b, n),
    decreases n,
{
    if n > 0 {
        words_of_prefix(a, b, n - 1);
        assert(a[n - 1] == b[n - 1]);
        if n >= 2 {
            assert(a[n - 2] == b[n - 2]);
        }
    }
}

/// Space, tabs and line ends are white space; letters, digits and signs are not.
pub proof fn blanks_are_space(c: char)
    ensures
        c == ' ' || c == '\t' || c == '\n' || c == '\r' ==> is_space(c),
        '!' <= c <= '~' ==> !is_space(c),
        is_space(c) <==> {
            ||| 9 <= c as int <= 13
            ||| c as int == 0x20
            ||| c as int == 0x85
            ||| c as int == 0xa0
            ||| c as int == 0x1680
            ||| 0x2000 <= c as int <= 0x200a
            ||| c as int == 0x2028
            ||| c as int == 0x2029
            ||| c as int == 0x202f
            ||| c as int == 0x205f
            ||| c as int == 0x3000
        },
{
}

/// Trimming takes white space from both ends, and nothing else.
pub proof fn trimming_takes_the_ends(text: Seq<char>)
    ensures
        ({
            let start = leading_space(text, 0);
            let end = trailing_space(text, text.len() as int);
            &&& start <= end ==> trimmed(text) == text.subrange(start, end)
            &&& start <= end && trimmed(text).len() > 0 ==> !is_space(trimmed(text)[0])
                && !is_space(trimmed(text).last())
            &&& forall|i: int| 0 <= i < start ==> is_space(#[trigger] text[i])
            &&& forall|i: int| end <= i < text.len() ==> is_space(#[trigger] text[i])
        }),
        (forall|i: int| 0 <= i < text.len() ==> is_space(#[trigger] text[i])) ==> trimmed(
            text,
        ).len() == 0,
{
    leading_is_space(text, 0);
    trailing_is_space(text, text.len() as int);
    let start = leading_space(text, 0);
    let end = trailing_space(text, text.len() as int);
    if start <= end && trimmed(text).len() > 0 {
        assert(trimmed(text)[0] == text[start]);
        assert(trimmed(text).last() == text[end - 1]);
    }
}

proof fn leading_is_space(text: Seq<char>, from: int)
    requires
        0 <= from <= text.len(),
    ensures
        ({
            let start = leading_space(text, from);
            &&& from <= start <= text.len()
            &&& forall|i: int| from <= i < start ==> is_space(#[trigger] text[i])
            &&& start < text.len() ==> !is_space(text[start])
        }),
    decreases text.len() - from,
{
    if from < text.len() && is_space(text[from]) {
        leading_is_space(text, from + 1);
    }
}

proof fn trailing_is_space(text: Seq<char>, n: int)
    requires
        0 <= n <= text.len(),
    ensures
        ({
            let end = trailing_space(text, n);
            &&& 0 <= end <= n
            &&& forall|i: int| end <= i < n ==> is_space(#[trigger] text[i])
            &&& end > 0 ==> !is_space(text[end - 1])
        }),
    decreases n,
{
    if n > 0 && is_space(text[n - 1]) {
        trailing_is_space(text, n - 1);
    }
}

/// Hexadecimal digits are read in both cases and written in small letters.
pub proof fn hexadecimal_digits_have_values(v: int, c: char)
    requires
        0 <= v < 16,
    ensures
        hex_value(hex_digit(v)) == Some(v as u8),
        v < 10 ==> hex_digit(v) as int == '0' as int + v,
        v >= 10 ==> hex_digit(v) as int == 'a' as int + v - 10,
        'A' <= c <= 'F' ==> hex_value(c) is Some && hex_value(c)->0 == 10 + c as int - 'A' as int,
        'a' <= c <= 'f' ==> hex_value(c) is Some && hex_value(c)->0 == 10 + c as int - 'a' as int,
        '0' <= c <= '9' ==> hex_value(c) is Some && hex_value(c)->0 == c as int - '0' as int,
        hex_value(c) is Some ==> '0' <= c <= '9' || 'a' <= c <= 'f' || 'A' <= c <= 'F',
{
}

/// A hexadecimal number is its digits, with zeros in front where it has fewer than asked for.
pub proof fn hexadecimal_numbers_are_padded(v: nat, width: nat)
    ensures
        v < 16 && width <= 1 ==> hex_number(v, width) == seq![hex_digit(v as int)],
        v < 16 && width == 2 ==> hex_number(v, width) == seq!['0', hex_digit(v as int)],
        16 <= v < 256 && width == 2 ==> hex_number(v, width) == seq![
            hex_digit(v as int / 16),
            hex_digit(v as int % 16),
        ],
        v >= 256 && width == 2 ==> hex_number(v, width) == hex_number(v / 16, 1).push(
            hex_digit((v % 16) as int),
        ),
        v >= 16 && width <= 1 ==> hex_number(v, width) == hex_number(v / 16, 0).push(
            hex_digit((v % 16) as int),
        ),
{
    reveal_with_fuel(hex_number, 3);
}

/// Bytes are written as two hexadecimal digits each.
pub proof fn bytes_are_written_by_pairs(data: Seq<u8>, b: u8)
    ensures
        hex_bytes(data.push(b)) == hex_bytes(data) + seq![
            hex_digit(b as int / 16),
            hex_digit(b as int % 16),
        ],
        hex_bytes(Seq::<u8>::empty()).len() == 0,
{
    assert(data.push(b).drop_last() =~= data);
}

/// A decimal number is its digits, behind a plus sign or not; other text and numbers of more than
/// 32 bits are none.
pub proof fn decimal_numbers_are_digits(text: Seq<char>, d: char)
    requires
        '0' <= d <= '9',
    ensures
        decimal_value(text.push(d)) == decimal_value(text) * 10 + (d as int - '0' as int),
        decimal_value(Seq::<char>::empty()) == 0,
        decimal_u32(Seq::<char>::empty()) is None,
        decimal_u32(text) is Some ==> {
            let digits = if text[0] == '+' {
                text.skip(1)
            } else {
                text
            };
            &&& digits.len() > 0
            &&& forall|i: int| 0 <= i < digits.len() ==> '0' <= (#[trigger] digits[i]) <= '9'
            &&& decimal_u32(text)->0 == decimal_value(digits)
        },
        text.len() > 0 && (forall|i: int| 0 <= i < text.len() ==> '0' <= (#[trigger] text[i]) <= '9')
            && decimal_value(text) <= u32::MAX ==> decimal_u32(text) == Some(
            decimal_value(text) as u32,
        ),
{
    assert(text.push(d).drop_last() =~= text);
    if decimal_u32(text) is Some {
        let digits = crate::text::unsigned_digits(text);
        assert forall|i: int| 0 <= i < digits.len() implies '0' <= (#[trigger] digits[i]) <= '9' by {
            assert(crate::text::is_digit(digits[i]));
        }
    }
    if text.len() > 0 && (forall|i: int|
        0 <= i < text.len() ==> '0' <= (#[trigger] text[i]) <= '9') {
        assert('0' <= text[0] <= '9');
        assert(crate::text::unsigned_digits(text) == text);
    }
}

/// Letters change case and other characters stay.
pub proof fn letters_change_case(c: char, text: Seq<char>, i: int)
    requires
        0 <= i < text.len(),
    ensures
        'A' <= c <= 'Z' ==> ascii_lower(c) as int == c as int + 32,
        'a' <= c <= 'z' ==> ascii_upper(c) as int == c as int - 32,
        !('A' <= c <= 'Z') ==> ascii_lower(c) == c,
        !('a' <= c <= 'z') ==> ascii_upper(c) == c,
        ascii_lowered(text).len() == text.len(),
        ascii_lowered(text)[i] == ascii_lower(text[i]),
        ascii_uppered(text).len() == text.len(),
        ascii_uppered(text)[i] == ascii_upper(text[i]),
{
}

} // verus!
