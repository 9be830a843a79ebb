//! Text as sequences of characters: trimming, searching, numbers, hexadecimal and
//! percent-encoding.

use vstd::prelude::*;
use vstd::utf8::encode_utf8;

verus! {

/// `String::push`: appends one character.
pub assume_specification[ String::push ](text: &mut String, c: char)
    ensures
        final(text)@ == old(text)@.push(c),
;

/// Whether a character is white space: the controls from tab to carriage return, the space,
/// the next-line control, and the spaces and separators beyond them that have the
/// White_Space property of Unicode.
pub open spec fn is_white(c: char) -> bool {
    let code = c as u32;
    ||| 0x9 <= code <= 0xd
    ||| code == 0x20
    ||| code == 0x85
    ||| code == 0xa0
    ||| code == 0x1680
    ||| 0x2000 <= code <= 0x200a
    ||| code == 0x2028
    ||| code == 0x2029
    ||| code == 0x202f
    ||| code == 0x205f
    ||| code == 0x3000
}

/// `char::is_whitespace`: whether a character has the White_Space property of Unicode, which
/// twenty-five characters have.
pub assume_specification[ char::is_whitespace ](c: char) -> (result: bool)
    ensures
        result == is_white(c),
;

/// `char::is_control`: the general category of control codes, which is the first 32
/// characters and those from 127 to 159.
pub assume_specification[ char::is_control ](c: char) -> (result: bool)
    ensures
        result == ((c as u32) < 32 || 127 <= c as u32 <= 159),
;

/// A text as `Debug` shows it: in quotes, with what cannot be printed escaped.
pub uninterp spec fn quoted_text(text: Seq<char>) -> Seq<char>;

/// `format!` with `{:?}` on a text: the text as the `Debug` of `str` in std shows it, which
/// depends on the text alone.
#[verifier::external_body]
pub(crate) fn quoted(text: &str) -> (shown: String)
    ensures
        shown@ == quoted_text(text@),
{
    format!("{text:?}")
}

/// A text that may be absent, as `Debug` shows it.
pub open spec fn shown_option(text: Option<Seq<char>>) -> Seq<char> {
    match text {
        Some(text) => "Some("@ + quoted_text(text) + ")"@,
        None => "None"@,
    }
}

/// The characters of a text.
pub fn chars_of(text: &str) -> (chars: Vec<char>)
    ensures
        chars@ == text@,
{
    let mut chars: Vec<char> = Vec::new();
    for c in iter: text.chars()
        invariant
            iter.seq() == text@,
            chars@ == text@.take(iter.index() as int),
    {
        assert(text@.take(iter.index() + 1) =~= text@.take(iter.index() as int).push(c));
        chars.push(c);
    }
    assert(text@.take(text@.len() as int) =~= text@);
    chars
}

/// The text that characters spell, from one position up to another.
pub fn text_of(chars: &Vec<char>, from: usize, to: usize) -> (text: String)
    requires
        from <= to <= chars@.len(),
    ensures
        text@ == chars@.subrange(from as int, to as int),
{
    let mut text = String::new();
    let mut i: usize = from;
    while i < to
        invariant
            from <= i <= to <= chars@.len(),
            text@ == chars@.subrange(from as int, i as int),
        decreases to - i,
    {
        assert(chars@.subrange(from as int, i + 1) =~= chars@.subrange(from as int, i as int).push(
            chars@[i as int],
        ));
        text.push(chars[i]);
        i += 1;
    }
    text
}

/// Appends a text to another.
pub fn append(text: &mut String, more: &str)
    ensures
        final(text)@ == old(text)@ + more@,
{
    let ghost before = text@;
    for c in iter: more.chars()
        invariant
            iter.seq() == more@,
            text@ == before + more@.take(iter.index() as int),
    {
        assert(before + more@.take(iter.index() + 1) =~= (before + more@.take(
            iter.index() as int,
        )).push(c));
        text.push(c);
    }
    assert(before + more@.take(more@.len() as int) =~= before + more@);
}

/// A text without the leading characters of a kind.
pub open spec fn trim_start_where(text: Seq<char>, drop: spec_fn(char) -> bool) -> Seq<char>
    decreases text.len(),
{
    if text.len() > 0 && drop(text[0]) {
        trim_start_where(text.drop_first(), drop)
    } else {
        text
    }
}

/// A text without the trailing characters of a kind.
pub open spec fn trim_end_where(text: Seq<char>, drop: spec_fn(char) -> bool) -> Seq<char>
    decreases text.len(),
{
    if text.len() > 0 && drop(text.last()) {
        trim_end_where(text.drop_last(), drop)
    } else {
        text
    }
}

/// The white characters.
pub open spec fn white() -> spec_fn(char) -> bool {
    |c: char| is_white(c)
}

/// One character.
pub open spec fn only(wanted: char) -> spec_fn(char) -> bool {
    |c: char| c == wanted
}

/// A text without surrounding white space.
pub open spec fn trimmed(text: Seq<char>) -> Seq<char> {
    trim_end_where(trim_start_where(text, white()), white())
}

/// A text without a surrounding character.
pub open spec fn trimmed_of(text: Seq<char>, drop: char) -> Seq<char> {
    trim_end_where(trim_start_where(text, only(drop)), only(drop))
}

/// A text without surrounding white space.
pub fn trim(text: &str) -> (result: String)
    ensures
        result@ == trimmed(text@),
{
    let chars = chars_of(text);
    let ghost drop = white();
    let mut from: usize = 0;
    assert(chars@.skip(0) =~= chars@);
    while from < chars.len() && chars[from].is_whitespace()
        invariant
            from <= chars@.len(),
            drop == white(),
            trim_start_where(chars@, drop) == trim_start_where(chars@.skip(from as int), drop),
        decreases chars@.len() - from,
    {
        assert(chars@.skip(from as int).drop_first() =~= chars@.skip(from + 1));
        from += 1;
    }
    assert(trim_start_where(chars@, drop) =~= chars@.skip(from as int));
    let mut to: usize = chars.len();
    assert(chars@.subrange(from as int, to as int) =~= chars@.skip(from as int));
    while to > from && chars[to - 1].is_whitespace()
        invariant
            from <= to <= chars@.len(),
            drop == white(),
            trim_end_where(chars@.skip(from as int), drop) == trim_end_where(
                chars@.subrange(from as int, to as int),
                drop,
            ),
        decreases to,
    {
        assert(chars@.subrange(from as int, to as int).drop_last() =~= chars@.subrange(
            from as int,
            to - 1,
        ));
        to -= 1;
    }
    text_of(&chars, from, to)
}

/// A text without a surrounding character.
pub fn trim_of(text: &str, dropped: char) -> (result: String)
    ensures
        result@ == trimmed_of(text@, dropped),
{
    let chars = chars_of(text);
    let ghost drop = only(dropped);
    let mut from: usize = 0;
    assert(chars@.skip(0) =~= chars@);
    while from < chars.len() && chars[from] == dropped
        invariant
            from <= chars@.len(),
            drop == only(dropped),
            trim_start_where(chars@, drop) == trim_start_where(chars@.skip(from as int), drop),
        decreases chars@.len() - from,
    {
        assert(chars@.skip(from as int).drop_first() =~= chars@.skip(from + 1));
        from += 1;
    }
    assert(trim_start_where(chars@, drop) =~= chars@.skip(from as int));
    let mut to: usize = chars.len();
    assert(chars@.subrange(from as int, to as int) =~= chars@.skip(from as int));
    while to > from && chars[to - 1] == dropped
        invariant
            from <= to <= chars@.len(),
            drop == only(dropped),
            trim_end_where(chars@.skip(from as int), drop) == trim_end_where(
                chars@.subrange(from as int, to as int),
                drop,
            ),
        decreases to,
    {
        assert(chars@.subrange(from as int, to as int).drop_last() =~= chars@.subrange(
            from as int,
            to - 1,
        ));
        to -= 1;
    }
    text_of(&chars, from, to)
}

/// A text without a trailing character.
pub fn trim_end_of(text: &str, dropped: char) -> (result: String)
    ensures
        result@ == trim_end_where(text@, only(dropped)),
{
    let chars = chars_of(text);
    let ghost drop = only(dropped);
    let mut to: usize = chars.len();
    assert(chars@.subrange(0, to as int) =~= chars@);
    while to > 0 && chars[to - 1] == dropped
        invariant
            to <= chars@.len(),
            drop == only(dropped),
            trim_end_where(chars@, drop) == trim_end_where(chars@.subrange(0, to as int), drop),
        decreases to,
    {
        assert(chars@.subrange(0, to as int).drop_last() =~= chars@.subrange(0, to - 1));
        to -= 1;
    }
    text_of(&chars, 0, to)
}

/// Whether a pattern stands at a position of a text.
pub open spec fn stands_at(text: Seq<char>, pattern: Seq<char>, at: int) -> bool {
    0 <= at <= text.len() - pattern.len() && text.subrange(at, at + pattern.len()) == pattern
}

/// Whether a pattern occurs in a text.
pub open spec fn occurs(text: Seq<char>, pattern: Seq<char>) -> bool {
    exists|at: int| #[trigger] stands_at(text, pattern, at)
}

/// Whether a text begins with a pattern.
pub open spec fn begins_with(text: Seq<char>, pattern: Seq<char>) -> bool {
    stands_at(text, pattern, 0)
}

/// Whether characters stand at a position.
fn chars_stand_at(text: &Vec<char>, pattern: &Vec<char>, at: usize) -> (found: bool)
    requires
        at <= text@.len(),
    ensures
        found == stands_at(text@, pattern@, at as int),
{
    let length: usize = text.len();
    if pattern.len() > length - at {
        return false;
    }
    let mut i: usize = 0;
    while i < pattern.len()
        invariant
            i <= pattern@.len(),
            length == text@.len(),
            at + pattern@.len() <= length,
            forall|k: int| 0 <= k < i ==> text@[at + k] == pattern@[k],
        decreases pattern@.len() - i,
    {
        if text[at + i] != pattern[i] {
            assert(text@.subrange(at as int, at + pattern@.len())[i as int] != pattern@[i as int]);
            return false;
        }
        i += 1;
    }
    assert(text@.subrange(at as int, at + pattern@.len()) =~= pattern@);
    true
}

/// Whether a pattern occurs in a text.
pub fn contains_text(text: &str, pattern: &str) -> (found: bool)
    ensures
        found == occurs(text@, pattern@),
{
    let text_chars = chars_of(text);
    let pattern_chars = chars_of(pattern);
    let mut at: usize = 0;
    while at < text_chars.len()
        invariant
            at <= text_chars@.len(),
            text_chars@ == text@,
            pattern_chars@ == pattern@,
            forall|k: int| 0 <= k < at ==> !#[trigger] stands_at(text@, pattern@, k),
        decreases text_chars@.len() - at,
    {
        if chars_stand_at(&text_chars, &pattern_chars, at) {
            return true;
        }
        at += 1;
    }
    let at_end: bool = chars_stand_at(&text_chars, &pattern_chars, at);
    assert(stands_at(text@, pattern@, at as int) == at_end);
    at_end
}

/// Whether two texts are the same.
pub fn texts_equal(a: &str, b: &str) -> (equal: bool)
    ensures
        equal == (a@ == b@),
{
    let first = chars_of(a);
    let second = chars_of(b);
    let equal = first.len() == second.len() && chars_stand_at(&first, &second, 0);
    assert(equal ==> a@ =~= b@) by {
        if equal {
            assert(a@.subrange(0, b@.len() as int) =~= a@);
        }
    }
    assert(a@ == b@ ==> stands_at(a@, b@, 0)) by {
        if a@ == b@ {
            assert(a@.subrange(0, b@.len() as int) =~= b@);
        }
    }
    equal
}

/// Whether a text begins with a pattern.
pub fn starts_with(text: &str, pattern: &str) -> (found: bool)
    ensures
        found == begins_with(text@, pattern@),
{
    chars_stand_at(&chars_of(text), &chars_of(pattern), 0)
}

/// What follows a pattern at the beginning of a text, if it begins with it.
pub fn strip_prefix(text: &str, pattern: &str) -> (rest: Option<String>)
    ensures
        match rest {
            Some(rest) => begins_with(text@, pattern@) && rest@ == text@.skip(
                pattern@.len() as int,
            ),
            None => !begins_with(text@, pattern@),
        },
{
    let chars = chars_of(text);
    let prefix = chars_of(pattern);
    if chars_stand_at(&chars, &prefix, 0) {
        assert(chars@.subrange(prefix@.len() as int, chars@.len() as int) =~= text@.skip(
            pattern@.len() as int,
        ));
        Some(text_of(&chars, prefix.len(), chars.len()))
    } else {
        None
    }
}

/// Whether a character occurs in a text.
pub fn contains_char(text: &str, wanted: char) -> (found: bool)
    ensures
        found == text@.contains(wanted),
{
    for c in iter: text.chars()
        invariant
            iter.seq() == text@,
            forall|k: int| 0 <= k < iter.index() ==> text@[k] != wanted,
    {
        if c == wanted {
            assert(text@[iter.index() as int] == wanted);
            return true;
        }
    }
    false
}

/// A decimal digit.
pub open spec fn is_digit(c: char) -> bool {
    '0' <= c && c <= '9'
}

/// The number that decimal digits write.
pub open spec fn decimal_value(digits: Seq<char>) -> nat
    decreases digits.len(),
{
    if digits.len() == 0 {
        0
    } else {
        10 * decimal_value(digits.drop_last()) + (digits.last() as nat - '0' as nat) as nat
    }
}

/// The digits of a number's text, without the plus sign that it may begin with.
pub open spec fn unsigned_digits(text: Seq<char>) -> Seq<char> {
    if text.len() > 0 && text[0] == '+' {
        text.skip(1)
    } else {
        text
    }
}

/// The number that a text writes in decimal, where it writes one that fits 64 bits.
pub open spec fn parsed_u64(text: Seq<char>) -> Option<u64> {
    let digits = unsigned_digits(text);
    if digits.len() == 0 || exists|i: int| 0 <= i < digits.len() && !is_digit(#[trigger] digits[i])
        || decimal_value(digits) > u64::MAX {
        None
    } else {
        Some(decimal_value(digits) as u64)
    }
}

proof fn lemma_decimal_prefix(digits: Seq<char>, count: int)
    requires
        0 <= count <= digits.len(),
        forall|i: int| 0 <= i < digits.len() ==> is_digit(#[trigger] digits[i]),
    ensures
        decimal_value(digits.take(count)) <= decimal_value(digits),
    decreases digits.len(),
{
    if count == digits.len() {
        assert(digits.take(count) =~= digits);
    } else {
        lemma_decimal_prefix(digits.drop_last(), count);
        assert(digits.drop_last().take(count) =~= digits.take(count));
    }
}

/// The number that digits write from a position on, where it fits 64 bits.
fn decimal_of(chars: &Vec<char>, start: usize) -> (result: Option<u64>)
    requires
        start <= chars@.len(),
        forall|j: int|
            0 <= j < chars@.len() - start ==> is_digit(#[trigger] chars@.skip(start as int)[j]),
    ensures
        result == if decimal_value(chars@.skip(start as int)) > u64::MAX {
            None
        } else {
            Some(decimal_value(chars@.skip(start as int)) as u64)
        },
{
    let ghost digits = chars@.skip(start as int);
    let mut value: u64 = 0;
    let mut i: usize = start;
    assert(digits.take(0) =~= Seq::<char>::empty());
    while i < chars.len()
        invariant
            start <= i <= chars@.len(),
            digits == chars@.skip(start as int),
            forall|j: int| 0 <= j < digits.len() ==> is_digit(#[trigger] digits[j]),
            value == decimal_value(digits.take(i - start)),
        decreases chars@.len() - i,
    {
        proof {
            assert(is_digit(digits[i - start]));
            assert(digits.take(i - start + 1).drop_last() =~= digits.take(i - start));
            lemma_decimal_prefix(digits, i - start + 1);
        }
        let digit: u64 = (chars[i] as u32 - '0' as u32) as u64;
        let next: u128 = value as u128 * 10 + digit as u128;
        assert(next == decimal_value(digits.take(i - start + 1)));
        if next > 0xffff_ffff_ffff_ffff {
            return None;
        }
        value = next as u64;
        i += 1;
    }
    assert(digits.take(digits.len() as int) =~= digits);
    Some(value)
}

/// The number that a text writes in decimal, where it writes one that fits 64 bits.
pub fn parse_u64(text: &str) -> (result: Option<u64>)
    ensures
        result == parsed_u64(text@),
{
    let chars = chars_of(text);
    let ghost digits = unsigned_digits(text@);
    let start: usize = if chars.len() > 0 && chars[0] == '+' {
        1
    } else {
        0
    };
    assert(digits =~= chars@.skip(start as int));
    if chars.len() == start {
        return None;
    }
    let mut k: usize = start;
    while k < chars.len()
        invariant
            start <= k <= chars@.len(),
            digits == chars@.skip(start as int),
            digits == unsigned_digits(text@),
            forall|i: int| 0 <= i < k - start ==> is_digit(#[trigger] digits[i]),
        decreases chars@.len() - k,
    {
        assert(digits[k - start] == chars@[k as int]);
        if chars[k] < '0' || chars[k] > '9' {
            return None;
        }
        k += 1;
    }
    decimal_of(&chars, start)
}

/// The character of a decimal digit.
pub open spec fn digit_char(digit: nat) -> char {
    ('0' as nat + digit) as char
}

/// A number in decimal.
pub open spec fn decimal_text(value: nat) -> Seq<char>
    decreases value,
{
    if value < 10 {
        seq![digit_char(value)]
    } else {
        decimal_text(value / 10).push(digit_char(value % 10))
    }
}

/// The character of a decimal digit.
fn digit_of(digit: u64) -> (c: char)
    requires
        digit < 10,
    ensures
        c == digit_char(digit as nat),
{
    ('0' as u8 + digit as u8) as char
}

/// A number in decimal.
pub fn format_u64(value: u64) -> (text: String)
    ensures
        text@ == decimal_text(value as nat),
    decreases value,
{
    if value < 10 {
        let mut text = String::new();
        text.push(digit_of(value));
        assert(text@ =~= seq![digit_char(value as nat)]);
        text
    } else {
        let mut text = format_u64(value / 10);
        text.push(digit_of(value % 10));
        text
    }
}

/// The decimal text of a number, with a minus sign where it is negative.
pub open spec fn integer_text(value: int) -> Seq<char> {
    if value < 0 {
        "-"@ + decimal_text((-value) as nat)
    } else {
        decimal_text(value as nat)
    }
}

/// The decimal text of a number, with a minus sign where it is negative.
pub fn format_i32(value: i32) -> (text: String)
    ensures
        text@ == integer_text(value as int),
{
    if value >= 0 {
        return format_u64(value as u64);
    }
    let mut text = String::new();
    append(&mut text, "-");
    append(&mut text, format_u64((-(value as i64)) as u64).as_str());
    assert(text@ =~= integer_text(value as int));
    text
}

/// The character of a lower-case hexadecimal digit.
pub open spec fn hex_char(nibble: nat) -> char {
    if nibble < 10 {
        ('0' as nat + nibble) as char
    } else {
        ('a' as nat + nibble - 10) as char
    }
}

/// The character of an upper-case hexadecimal digit.
pub open spec fn upper_hex_char(nibble: nat) -> char {
    if nibble < 10 {
        ('0' as nat + nibble) as char
    } else {
        ('A' as nat + nibble - 10) as char
    }
}

/// Bytes in lower-case hexadecimal, two digits each.
pub open spec fn hex_text(bytes: Seq<u8>) -> Seq<char>
    decreases bytes.len(),
{
    if bytes.len() == 0 {
        Seq::empty()
    } else {
        hex_text(bytes.drop_last()).push(hex_char(bytes.last() as nat / 16)).push(
            hex_char(bytes.last() as nat % 16),
        )
    }
}

/// The character of a lower-case hexadecimal digit.
fn hex_digit(nibble: u8) -> (c: char)
    requires
        nibble < 16,
    ensures
        c == hex_char(nibble as nat),
{
    if nibble < 10 {
        ('0' as u8 + nibble) as char
    } else {
        ('a' as u8 + (nibble - 10)) as char
    }
}

/// The character of an upper-case hexadecimal digit.
pub fn upper_hex_digit(nibble: u8) -> (c: char)
    requires
        nibble < 16,
    ensures
        c == upper_hex_char(nibble as nat),
{
    if nibble < 10 {
        ('0' as u8 + nibble) as char
    } else {
        ('A' as u8 + (nibble - 10)) as char
    }
}

/// Bytes in lower-case hexadecimal, two digits each.
pub fn hex(bytes: &[u8]) -> (text: String)
    ensures
        text@ == hex_text(bytes@),
{
    let mut text = String::new();
    let mut i: usize = 0;
    assert(bytes@.take(0) =~= Seq::<u8>::empty());
    while i < bytes.len()
        invariant
            i <= bytes@.len(),
            text@ == hex_text(bytes@.take(i as int)),
        decreases bytes@.len() - i,
    {
        assert(bytes@.take(i + 1).drop_last() =~= bytes@.take(i as int));
        text.push(hex_digit(bytes[i] / 16));
        text.push(hex_digit(bytes[i] % 16));
        i += 1;
    }
    assert(bytes@.take(i as int) =~= bytes@);
    text
}

/// The hexadecimal text of a whole byte string, as it is printed for certificates.
pub fn encode_hex(bytes: &[u8]) -> (text: String)
    ensures
        text@ == hex_text(bytes@),
{
    hex(bytes)
}

/// Bytes in hexadecimal take two characters each, and the pair at a place writes the byte
/// at that place.
pub proof fn lemma_hex_text(bytes: Seq<u8>)
    ensures
        hex_text(bytes).len() == 2 * bytes.len(),
        forall|i: int|
            0 <= i < bytes.len() ==> hex_text(bytes)[2 * i] == hex_char(
                #[trigger] bytes[i] as nat / 16,
            ) && hex_text(bytes)[2 * i + 1] == hex_char(bytes[i] as nat % 16),
    decreases bytes.len(),
{
    if bytes.len() > 0 {
        let shorter = bytes.drop_last();
        lemma_hex_text(shorter);
        assert forall|i: int| 0 <= i < bytes.len() implies hex_text(bytes)[2 * i] == hex_char(
            #[trigger] bytes[i] as nat / 16,
        ) && hex_text(bytes)[2 * i + 1] == hex_char(bytes[i] as nat % 16) by {
            if i < bytes.len() - 1 {
                assert(shorter[i] == bytes[i]);
                assert(hex_text(bytes)[2 * i] == hex_text(shorter)[2 * i]);
                assert(hex_text(bytes)[2 * i + 1] == hex_text(shorter)[2 * i + 1]);
            }
        }
    }
}

/// Different byte strings have different hexadecimal texts.
pub proof fn hex_is_unambiguous(a: Seq<u8>, b: Seq<u8>)
    requires
        hex_text(a) == hex_text(b),
    ensures
        a == b,
{
    lemma_hex_text(a);
    lemma_hex_text(b);
    assert forall|i: int| 0 <= i < a.len() implies a[i] == b[i] by {
        let x = a[i] as nat;
        let y = b[i] as nat;
        assert(hex_char(x / 16) == hex_char(y / 16));
        assert(hex_char(x % 16) == hex_char(y % 16));
        assert(hex_char(x / 16) as nat == hex_char(y / 16) as nat);
        assert(hex_char(x % 16) as nat == hex_char(y % 16) as nat);
    }
    assert(a =~= b);
}

/// A hexadecimal digit of either case.
pub open spec fn is_hex_digit(c: char) -> bool {
    ('0' <= c && c <= '9') || ('a' <= c && c <= 'f') || ('A' <= c && c <= 'F')
}

/// A character with ASCII capitals made small.
pub open spec fn lower(c: char) -> char {
    if 'A' <= c && c <= 'Z' {
        (c as nat + 32) as char
    } else {
        c
    }
}

/// A text with ASCII capitals made small.
pub open spec fn lowered(text: Seq<char>) -> Seq<char> {
    text.map_values(|c: char| lower(c))
}

/// A text with ASCII capitals made small.
pub fn to_lowercase(text: &str) -> (result: String)
    ensures
        result@ == lowered(text@),
{
    let mut result = String::new();
    for c in iter: text.chars()
        invariant
            iter.seq() == text@,
            result@ == lowered(text@.take(iter.index() as int)),
    {
        let small: char = if 'A' <= c && c <= 'Z' {
            (c as u8 + 32) as char
        } else {
            c
        };
        assert(small == lower(c));
        result.push(small);
        assert(result@ =~= lowered(text@.take(iter.index() + 1)));
    }
    assert(text@.take(text@.len() as int) =~= text@);
    result
}

/// Whether a text is a run of hexadecimal digits of either case.
pub open spec fn is_hex_prefix(text: Seq<char>) -> bool {
    text.len() > 0 && forall|i: int| 0 <= i < text.len() ==> is_hex_digit(#[trigger] text[i])
}

/// Whether a text is a run of hexadecimal digits of either case.
pub fn hex_prefix(text: &str) -> (valid: bool)
    ensures
        valid == is_hex_prefix(text@),
{
    if text.is_empty() {
        return false;
    }
    for c in iter: text.chars()
        invariant
            iter.seq() == text@,
            forall|i: int| 0 <= i < iter.index() ==> is_hex_digit(#[trigger] text@[i]),
    {
        if !(('0' <= c && c <= '9') || ('a' <= c && c <= 'f') || ('A' <= c && c <= 'F')) {
            assert(!is_hex_digit(text@[iter.index() as int]));
            return false;
        }
    }
    true
}

/// The lines of a text, without the line feeds between them.
pub open spec fn lines_of(text: Seq<char>) -> Seq<Seq<char>>
    decreases text.len(),
{
    if text.len() == 0 {
        seq![Seq::empty()]
    } else {
        let earlier = lines_of(text.drop_last());
        if text.last() == '\n' {
            earlier.push(Seq::empty())
        } else {
            earlier.update(earlier.len() - 1, earlier.last().push(text.last()))
        }
    }
}

/// Texts as character sequences.
pub open spec fn texts_view(texts: Seq<String>) -> Seq<Seq<char>> {
    texts.map_values(|text: String| text@)
}

/// The lines of a text, without the line feeds between them.
pub fn split_lines(text: &str) -> (lines: Vec<String>)
    ensures
        texts_view(lines@) == lines_of(text@),
{
    let mut lines: Vec<String> = Vec::new();
    let mut line = String::new();
    for c in iter: text.chars()
        invariant
            iter.seq() == text@,
            lines_of(text@.take(iter.index() as int)) == texts_view(lines@).push(line@),
    {
        let ghost before = texts_view(lines@);
        let ghost shown = line@;
        assert(text@.take(iter.index() + 1).drop_last() =~= text@.take(iter.index() as int));
        if c == '\n' {
            lines.push(line);
            line = String::new();
            assert(texts_view(lines@) =~= before.push(shown));
        } else {
            line.push(c);
            assert(before.push(shown).update(before.len() as int, shown.push(c)) =~= before.push(
                shown.push(c),
            ));
        }
    }
    assert(text@.take(text@.len() as int) =~= text@);
    let ghost before = texts_view(lines@);
    let ghost shown = line@;
    lines.push(line);
    assert(texts_view(lines@) =~= before.push(shown));
    lines
}

} // verus!
