//! What holds of texts, numbers in text and identifiers in text. Each law speaks of what a
//! call may return for what it was given.

use vstd::prelude::*;

use crate::text::{
    begins_with, contains_char, contains_text, decimal_text, decimal_value, encode_hex,
    format_i32, format_u64, hex, hex_prefix, is_white, lemma_hex_text, lines_of, only, parse_u64,
    split_lines, stands_at, starts_with, strip_prefix, texts_equal, texts_view, to_lowercase,
    trim, trim_end_of, trim_end_where, trim_of, trim_start_where, upper_hex_digit, white,
};

verus! {

proof fn lemma_trim_start(text: Seq<char>, drop: spec_fn(char) -> bool) -> (from: int)
    ensures
        0 <= from <= text.len(),
        trim_start_where(text, drop) == text.skip(from),
        forall|i: int| 0 <= i < from ==> drop(#[trigger] text[i]),
        from < text.len() ==> !drop(text[from]),
    decreases text.len(),
{
    if text.len() > 0 && drop(text[0]) {
        let rest = text.drop_first();
        let after = lemma_trim_start(rest, drop);
        assert(rest.skip(after) =~= text.skip(after + 1));
        assert forall|i: int| 0 <= i < after + 1 implies drop(#[trigger] text[i]) by {
            if i > 0 {
                assert(rest[i - 1] == text[i]);
            }
        }
        after + 1
    } else {
        assert(text.skip(0) =~= text);
        0
    }
}

proof fn lemma_trim_end(text: Seq<char>, drop: spec_fn(char) -> bool) -> (to: int)
    ensures
        0 <= to <= text.len(),
        trim_end_where(text, drop) == text.take(to),
        forall|i: int| to <= i < text.len() ==> drop(#[trigger] text[i]),
        to > 0 ==> !drop(text[to - 1]),
    decreases text.len(),
{
    if text.len() > 0 && drop(text.last()) {
        let rest = text.drop_last();
        let to = lemma_trim_end(rest, drop);
        assert(rest.take(to) =~= text.take(to));
        assert forall|i: int| to <= i < text.len() implies drop(#[trigger] text[i]) by {
            if i < rest.len() {
                assert(rest[i] == text[i]);
            }
        }
        to
    } else {
        assert(text.take(text.len() as int) =~= text);
        text.len() as int
    }
}

/// Whether a text is what is left of another between two places, where everything outside is
/// to be dropped and neither end is.
pub open spec fn is_core(
    core: Seq<char>,
    text: Seq<char>,
    from: int,
    to: int,
    drop: spec_fn(char) -> bool,
) -> bool {
    &&& 0 <= from <= to <= text.len()
    &&& core == text.subrange(from, to)
    &&& forall|i: int| 0 <= i < from || to <= i < text.len() ==> drop(#[trigger] text[i])
    &&& from < to ==> !drop(text[from]) && !drop(text[to - 1])
}

/// What trimming leaves is between two places of the text.
pub proof fn lemma_core(text: Seq<char>, drop: spec_fn(char) -> bool)
    ensures
        exists|from: int, to: int| #[trigger]
            is_core(trim_end_where(trim_start_where(text, drop), drop), text, from, to, drop),
{
    let from = lemma_trim_start(text, drop);
    let rest = text.skip(from);
    let length = lemma_trim_end(rest, drop);
    let core = rest.take(length);
    let to = from + length;
    assert(core =~= text.subrange(from, to));
    assert forall|i: int| 0 <= i < from || to <= i < text.len() implies drop(
        #[trigger] text[i],
    ) by {
        if i >= to {
            assert(rest[i - from] == text[i]);
        }
    }
    if from < to {
        assert(rest[length - 1] == text[to - 1]);
    }
    assert(is_core(core, text, from, to, drop));
}

/// White space.
pub open spec fn spaces() -> spec_fn(char) -> bool {
    |c: char| is_white(c)
}

/// A character.
pub open spec fn repeats(wanted: char) -> spec_fn(char) -> bool {
    |c: char| c == wanted
}

/// Trimming takes white space from both ends and nothing else. A single character is trimmed
/// in the same way.
pub proof fn trimming_takes_the_ends(
    text: &str,
    result: String,
    dropped: char,
    other: String,
)
    requires
        call_ensures(trim, (text,), result),
        call_ensures(trim_of, (text, dropped), other),
    ensures
        exists|from: int, to: int| #[trigger]
            is_core(result@, text@, from, to, spaces()),
        exists|from: int, to: int| #[trigger]
            is_core(other@, text@, from, to, repeats(dropped)),
{
    lemma_core(text@, white());
    lemma_core(text@, only(dropped));
    assert(white() =~= spaces());
    assert(only(dropped) =~= repeats(dropped));
}

/// Trimming the end takes a character from there and nothing else.
pub proof fn trimming_the_end_takes_the_end(text: &str, dropped: char, result: String)
    requires
        call_ensures(trim_end_of, (text, dropped), result),
    ensures
        result@ == text@.take(result@.len() as int),
        result@.len() <= text@.len(),
        forall|i: int| result@.len() <= i < text@.len() ==> #[trigger] text@[i] == dropped,
        result@.len() > 0 ==> result@.last() != dropped,
{
    let to = lemma_trim_end(text@, only(dropped));
    assert forall|i: int| to <= i < text@.len() implies #[trigger] text@[i] == dropped by {
        assert((only(dropped))(text@[i]));
    }
}

/// A pattern is found if and only if it stands in the text, with something before and behind
/// it or nothing.
pub proof fn patterns_are_found(
    text: &str,
    pattern: &str,
    before: Seq<char>,
    behind: Seq<char>,
    found: bool,
    begins: bool,
    rest: Option<String>,
)
    requires
        call_ensures(contains_text, (text, pattern), found),
        call_ensures(starts_with, (text, pattern), begins),
        call_ensures(strip_prefix, (text, pattern), rest),
    ensures
        text@ == before + pattern@ + behind ==> found,
        text@ == pattern@ + behind ==> begins && (rest matches Some(rest) && rest@ == behind),
        found ==> exists|at: int| #[trigger] text@.take(at) + pattern@ + text@.skip(
            at + pattern@.len(),
        ) == text@,
        begins <==> rest is Some,
        rest matches Some(rest) ==> text@ == pattern@ + rest@,
{
    if text@ == before + pattern@ + behind {
        let at = before.len() as int;
        assert(text@.subrange(at, at + pattern@.len()) =~= pattern@);
        assert(stands_at(text@, pattern@, at));
    }
    if text@ == pattern@ + behind {
        assert(text@.subrange(0, pattern@.len() as int) =~= pattern@);
        assert(stands_at(text@, pattern@, 0));
        assert(text@.skip(pattern@.len() as int) =~= behind);
    }
    if found {
        let at = choose|at: int| #[trigger] stands_at(text@, pattern@, at);
        assert(text@ =~= text@.take(at) + text@.subrange(at, at + pattern@.len()) + text@.skip(
            at + pattern@.len(),
        ));
        assert(text@.take(at) + pattern@ + text@.skip(at + pattern@.len()) == text@);
    }
    if let Some(rest) = rest {
        assert(text@ =~= text@.subrange(0, pattern@.len() as int) + text@.skip(
            pattern@.len() as int,
        ));
    }
}

/// A character is found if and only if it stands at some place of the text. Texts are equal
/// if and only if they are of one length and agree at every place.
pub proof fn characters_are_found(text: &str, wanted: char, found: bool, other: &str, equal: bool)
    requires
        call_ensures(contains_char, (text, wanted), found),
        call_ensures(texts_equal, (text, other), equal),
    ensures
        found <==> exists|i: int| 0 <= i < text@.len() && #[trigger] text@[i] == wanted,
        equal <==> text@.len() == other@.len() && forall|i: int|
            0 <= i < text@.len() ==> #[trigger] text@[i] == other@[i],
{
    if text@.len() == other@.len() && forall|i: int|
        0 <= i < text@.len() ==> #[trigger] text@[i] == other@[i] {
        assert(text@ =~= other@);
    }
}

proof fn lemma_decimal_text(value: nat)
    ensures
        decimal_text(value).len() > 0,
        decimal_value(decimal_text(value)) == value,
        forall|i: int|
            0 <= i < decimal_text(value).len() ==> '0' <= #[trigger] decimal_text(value)[i]
                && decimal_text(value)[i] <= '9',
        value > 0 ==> decimal_text(value)[0] != '0',
    decreases value,
{
    let digits = decimal_text(value);
    if value < 10 {
        assert(digits.drop_last() =~= Seq::empty());
        assert(digits.last() as nat == '0' as nat + value);
        reveal_with_fuel(decimal_value, 2);
    } else {
        lemma_decimal_text(value / 10);
        let before = decimal_text(value / 10);
        assert(digits.drop_last() =~= before);
        assert(digits.last() as nat == '0' as nat + value % 10);
        assert forall|i: int| 0 <= i < digits.len() implies '0' <= #[trigger] digits[i]
            && digits[i] <= '9' by {
            if i < before.len() {
                assert(digits[i] == before[i]);
            }
        }
        assert(digits[0] == before[0]);
    }
}

/// A number that is written in decimal is read back as it was. Its text is made of digits
/// alone, and it begins with no zero unless it is the number zero.
pub proof fn numbers_read_back(value: u64, text: String, again: &str, read: Option<u64>)
    requires
        call_ensures(format_u64, (value,), text),
        again@ == text@,
        call_ensures(parse_u64, (again,), read),
    ensures
        read == Some(value),
        text@.len() > 0,
        forall|i: int|
            0 <= i < text@.len() ==> '0' <= #[trigger] text@[i] && text@[i] <= '9',
        value > 0 ==> text@[0] != '0',
        value == 0 ==> text@ == seq!['0'],
{
    lemma_decimal_text(value as nat);
    if value == 0 {
        assert(text@ =~= seq!['0']);
    }
}

/// Each digit behind a number makes it ten times as large and adds its own value: the text
/// of a longer number is that of the shorter one with the digit behind it.
pub proof fn digits_count_tenfold(value: u64, digit: u64, text: String, longer: String)
    requires
        digit < 10,
        10 * value + digit <= u64::MAX,
        call_ensures(format_u64, (value,), text),
        call_ensures(format_u64, ((10 * value + digit) as u64,), longer),
    ensures
        value > 0 ==> longer@ == text@.push(('0' as u64 + digit) as char),
        value == 0 ==> longer@ == seq![('0' as u64 + digit) as char],
{
}

/// What is no number is not read: nothing at all, a text with anything but digits behind a
/// plus sign at most, or a number beyond 64 bits.
pub proof fn only_numbers_are_read(text: &str, read: Option<u64>, i: int)
    requires
        call_ensures(parse_u64, (text,), read),
    ensures
        text@.len() == 0 ==> read is None,
        0 <= i < text@.len() && !('0' <= text@[i] && text@[i] <= '9') && !(i == 0 && text@[i]
            == '+') ==> read is None,
        text@ == seq!['+'] ==> read is None,
{
    let digits = crate::text::unsigned_digits(text@);
    if 0 <= i < text@.len() && !('0' <= text@[i] && text@[i] <= '9') && !(i == 0 && text@[i]
        == '+') {
        if text@[0] == '+' {
            assert(digits[i - 1] == text@[i]);
            assert(!crate::text::is_digit(digits[i - 1]));
        } else {
            assert(digits[i] == text@[i]);
            assert(!crate::text::is_digit(digits[i]));
        }
    }
}

/// A text of digits is read place by place: one more digit behind it makes ten times the
/// number and the digit. A plus sign in front changes nothing.
pub proof fn digits_are_read_tenfold(
    text: &str,
    longer: &str,
    signed: &str,
    digit: char,
    read: Option<u64>,
    more: Option<u64>,
    same: Option<u64>,
)
    requires
        '0' <= digit,
        digit <= '9',
        longer@ == text@.push(digit),
        signed@ == seq!['+'] + text@,
        text@.len() > 0,
        text@[0] != '+',
        call_ensures(parse_u64, (text,), read),
        call_ensures(parse_u64, (longer,), more),
        call_ensures(parse_u64, (signed,), same),
    ensures
        same == read,
        read matches Some(value) ==> {
            let next = 10 * value + (digit as int - '0' as int);
            &&& next <= u64::MAX ==> (more matches Some(more) && more == next)
            &&& next > u64::MAX ==> more is None
        },
{
    assert(signed@.skip(1) =~= text@);
    assert(longer@.drop_last() =~= text@);
    assert(longer@[0] == text@[0]);
    if read is Some {
        assert forall|i: int| 0 <= i < longer@.len() implies crate::text::is_digit(
            #[trigger] longer@[i],
        ) by {
            if i < text@.len() {
                assert(longer@[i] == text@[i]);
                assert(crate::text::is_digit(text@[i]));
            }
        }
    }
}

/// A negative number is a minus sign and the number's size.
pub proof fn negative_numbers_have_a_sign(value: i32, text: String, size: u64, digits: String)
    requires
        call_ensures(format_i32, (value,), text),
        call_ensures(format_u64, (size,), digits),
        size == value || size == -value,
    ensures
        value >= 0 ==> text@ == digits@,
        value < 0 ==> text@.len() == digits@.len() + 1 && text@[0] == '-' && text@.skip(1)
            == digits@,
{
    reveal_strlit("-");
    if value < 0 {
        assert(text@.skip(1) =~= digits@);
    }
}

/// The value of a hexadecimal digit in small letters, if it is one.
pub open spec fn nibble(c: char) -> int {
    if '0' <= c && c <= '9' {
        c as int - '0' as int
    } else if 'a' <= c && c <= 'f' {
        c as int - 'a' as int + 10
    } else {
        -1
    }
}

/// Each byte is written with two hexadecimal digits in small letters, the higher first.
pub proof fn bytes_take_two_digits(bytes: &[u8], text: String, other: String, i: int)
    requires
        call_ensures(hex, (bytes,), text),
        call_ensures(encode_hex, (bytes,), other),
        0 <= i < bytes@.len(),
    ensures
        text@.len() == 2 * bytes@.len(),
        0 <= nibble(text@[2 * i]) < 16,
        0 <= nibble(text@[2 * i + 1]) < 16,
        16 * nibble(text@[2 * i]) + nibble(text@[2 * i + 1]) == bytes@[i],
        other@ == text@,
{
    lemma_hex_text(bytes@);
    let high = bytes@[i] as nat / 16;
    let low = bytes@[i] as nat % 16;
    assert(high < 16 && low < 16);
    assert(text@[2 * i] == crate::text::hex_char(high));
    assert(text@[2 * i + 1] == crate::text::hex_char(low));
}

/// A digit in capitals is the digit in small letters with the letter made large.
pub proof fn capital_digits_have_the_same_value(value: u8, c: char)
    requires
        value < 16,
        call_ensures(upper_hex_digit, (value,), c),
    ensures
        value < 10 ==> c as int == '0' as int + value,
        value >= 10 ==> c as int == 'A' as int + value - 10,
{
}

/// Capitals from A to Z are made small, and every other character stays.
pub proof fn capitals_are_made_small(text: &str, result: String, i: int)
    requires
        call_ensures(to_lowercase, (text,), result),
        0 <= i < text@.len(),
    ensures
        result@.len() == text@.len(),
        'A' <= text@[i] && text@[i] <= 'Z' ==> result@[i] as int - 'a' as int == text@[i] as int
            - 'A' as int,
        !('A' <= text@[i] && text@[i] <= 'Z') ==> result@[i] == text@[i],
{
}

/// A text can abbreviate an identifier if it is a run of hexadecimal digits of either case.
pub proof fn abbreviations_are_digits(text: &str, valid: bool, small: String)
    requires
        call_ensures(hex_prefix, (text,), valid),
        call_ensures(to_lowercase, (text,), small),
    ensures
        valid <==> text@.len() > 0 && forall|i: int|
            0 <= i < text@.len() ==> nibble(#[trigger] small@[i]) >= 0,
{
    assert forall|i: int| 0 <= i < text@.len() implies (nibble(#[trigger] small@[i]) >= 0
        <==> crate::text::is_hex_digit(text@[i])) by {
    }
    if forall|i: int| 0 <= i < text@.len() ==> nibble(#[trigger] small@[i]) >= 0 {
        assert forall|i: int| 0 <= i < text@.len() implies crate::text::is_hex_digit(
            #[trigger] text@[i],
        ) by {
            assert(nibble(small@[i]) >= 0);
        }
    }
}

/// Lines put together again, with a line feed between each two.
pub open spec fn rejoined(lines: Seq<Seq<char>>) -> Seq<char>
    decreases lines.len(),
{
    if lines.len() == 0 {
        Seq::empty()
    } else if lines.len() == 1 {
        lines[0]
    } else {
        rejoined(lines.drop_last()) + seq!['\n'] + lines.last()
    }
}

proof fn lemma_rejoined_grows(lines: Seq<Seq<char>>, c: char)
    requires
        lines.len() > 0,
    ensures
        rejoined(lines.update(lines.len() - 1, lines.last().push(c))) == rejoined(lines).push(c),
{
    let grown = lines.update(lines.len() - 1, lines.last().push(c));
    if lines.len() > 1 {
        assert(grown.drop_last() =~= lines.drop_last());
    }
    assert(rejoined(grown) =~= rejoined(lines).push(c));
}

proof fn lemma_lines(text: Seq<char>)
    ensures
        lines_of(text).len() > 0,
        rejoined(lines_of(text)) == text,
        forall|i: int|
            0 <= i < lines_of(text).len() ==> !(#[trigger] lines_of(text)[i]).contains('\n'),
    decreases text.len(),
{
    let lines = lines_of(text);
    if text.len() == 0 {
        assert(rejoined(lines) =~= text);
    } else {
        let rest = text.drop_last();
        lemma_lines(rest);
        let earlier = lines_of(rest);
        assert(rest.push(text.last()) =~= text);
        if text.last() == '\n' {
            assert(lines.drop_last() =~= earlier);
            assert(rejoined(lines) =~= text);
        } else {
            lemma_rejoined_grows(earlier, text.last());
            let grown = earlier.last().push(text.last());
            if grown.contains('\n') {
                let k = choose|k: int| 0 <= k < grown.len() && grown[k] == '\n';
                assert(earlier.last()[k] == '\n');
                assert(!earlier[earlier.len() - 1].contains('\n'));
            }
            assert forall|i: int| 0 <= i < lines.len() implies !(#[trigger] lines[i]).contains(
                '\n',
            ) by {
                if i < earlier.len() - 1 {
                    assert(lines[i] == earlier[i]);
                }
            }
        }
    }
}

/// A text is split at its line feeds and nowhere else: no line holds one, and with one
/// between each two the lines are the text again.
pub proof fn texts_are_split_at_line_feeds(text: &str, lines: Vec<String>, i: int)
    requires
        call_ensures(split_lines, (text,), lines),
        0 <= i < lines@.len(),
    ensures
        rejoined(texts_view(lines@)) == text@,
        !lines@[i]@.contains('\n'),
{
    lemma_lines(text@);
    assert(texts_view(lines@)[i] == lines@[i]@);
}

} // verus!
