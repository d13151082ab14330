//! Unicode text: characters, UTF-16 conversion, trimming and number formatting.
use vstd::prelude::*;

verus! {

/// `String::push`: the string grows by the one character, at its end.
pub assume_specification[ String::push ](buffer: &mut String, c: char)
    ensures
        final(buffer)@ == old(buffer)@.push(c),
;

/// `char::from_u32`: the character with that scalar value, and nothing for a surrogate or a
/// number past the last code point.
pub assume_specification[ char::from_u32 ](value: u32) -> (c: Option<char>)
    ensures
        c == (if value <= 0xd7ff || (0xe000 <= value && value <= 0x10ffff) {
            Some(value as char)
        } else {
            None::<char>
        }),
;

/// `String::from_utf8`: the text whose UTF-8 form the bytes are, and nothing where they are not
/// valid UTF-8.
#[verifier::external_body]
pub(crate) fn utf8_text(raw: &[u8]) -> (decoded: Option<String>)
    ensures
        decoded is Some <==> vstd::utf8::valid_utf8(raw@),
        decoded matches Some(decoded) ==> decoded@ == vstd::utf8::decode_utf8(raw@),
{
    String::from_utf8(raw.to_vec()).ok()
}

pub const REPLACEMENT: char = '\u{fffd}';

/// The characters with the Unicode property White_Space.
pub open spec fn is_white_space(c: char) -> bool {
    let v = c as u32;
    ||| 0x09 <= v <= 0x0d
    ||| v == 0x20
    ||| v == 0x85
    ||| v == 0xa0
    ||| v == 0x1680
    ||| 0x2000 <= v <= 0x200a
    ||| v == 0x2028
    ||| v == 0x2029
    ||| v == 0x202f
    ||| v == 0x205f
    ||| v == 0x3000
}

pub fn char_is_white_space(c: char) -> (white: bool)
    ensures
        white == is_white_space(c),
{
    let v: u32 = c as u32;
    (0x09 <= v && v <= 0x0d) || v == 0x20 || v == 0x85 || v == 0xa0 || v == 0x1680 || (0x2000 <= v
        && v <= 0x200a) || v == 0x2028 || v == 0x2029 || v == 0x202f || v == 0x205f || v == 0x3000
}

/// The characters of a string, one per element.
pub fn str_chars(text: &str) -> (chars: Vec<char>)
    ensures
        chars@ == text@,
{
    let mut chars: Vec<char> = Vec::new();
    for c in it: text.chars()
        invariant
            it.seq() == text@,
            chars@ == text@.subrange(0, it.index()),
    {
        chars.push(c);
        assert(chars@ =~= text@.subrange(0, it.index() + 1));
    }
    assert(chars@ =~= text@);
    chars
}

pub fn string_from_chars(chars: &[char]) -> (text: String)
    ensures
        text@ == chars@,
{
    let mut text = String::new();
    let mut i: usize = 0;
    while i < chars.len()
        invariant
            i <= chars@.len(),
            text@ == chars@.subrange(0, i as int),
        decreases chars@.len() - i,
    {
        text.push(chars[i]);
        i += 1;
        assert(text@ =~= chars@.subrange(0, i as int));
    }
    assert(text@ =~= chars@);
    text
}

/// A string with the text of a literal.
pub fn text_of(literal: &str) -> (text: String)
    ensures
        text@ == literal@,
{
    literal.to_string()
}

/// Whether two texts are equal.
pub fn texts_equal(left: &str, right: &str) -> (equal: bool)
    ensures
        equal == (left@ == right@),
{
    let left_chars = str_chars(left);
    let right_chars = str_chars(right);
    chars_eq(left_chars.as_slice(), right_chars.as_slice())
}

/// The text with its ASCII letters in lower case.
pub fn lower_text(text: &str) -> (lowered: String)
    ensures
        lowered@ == ascii_lower_text(text@),
{
    let chars = str_chars(text);
    let lowered = lower_chars(chars.as_slice());
    string_from_chars(lowered.as_slice())
}

/// Appends one string to another.
pub fn push_text(text: &mut String, more: &str)
    ensures
        final(text)@ == old(text)@ + more@,
{
    text.append(more);
}

// ---- ASCII case ----

pub open spec fn lower_char_spec(c: char) -> char {
    if 'A' <= c && c <= 'Z' {
        (c as u32 + 0x20) as char
    } else {
        c
    }
}

/// The text with every ASCII capital replaced by its small letter.
pub open spec fn ascii_lower_text(text: Seq<char>) -> Seq<char> {
    Seq::new(text.len(), |i: int| lower_char_spec(text[i]))
}

pub fn lower_char(c: char) -> (lowered: char)
    ensures
        lowered == lower_char_spec(c),
{
    if 'A' <= c && c <= 'Z' {
        scalar(c as u32 + 0x20)
    } else {
        c
    }
}

pub fn lower_chars(chars: &[char]) -> (lowered: Vec<char>)
    ensures
        lowered@ == ascii_lower_text(chars@),
{
    let mut lowered: Vec<char> = Vec::new();
    let mut i: usize = 0;
    while i < chars.len()
        invariant
            i <= chars@.len(),
            lowered@ == ascii_lower_text(chars@).subrange(0, i as int),
        decreases chars@.len() - i,
    {
        lowered.push(lower_char(chars[i]));
        i += 1;
        assert(lowered@ =~= ascii_lower_text(chars@).subrange(0, i as int));
    }
    assert(lowered@ =~= ascii_lower_text(chars@));
    lowered
}

pub fn chars_eq(left: &[char], right: &[char]) -> (equal: bool)
    ensures
        equal == (left@ == right@),
{
    if left.len() != right.len() {
        return false;
    }
    let mut i: usize = 0;
    while i < left.len()
        invariant
            i <= left@.len(),
            left@.len() == right@.len(),
            forall|j: int| 0 <= j < i ==> left@[j] == right@[j],
        decreases left@.len() - i,
    {
        if left[i] != right[i] {
            return false;
        }
        i += 1;
    }
    assert(left@ =~= right@);
    true
}

// ---- trimming ----

pub open spec fn trim_start_spec(text: Seq<char>) -> Seq<char>
    decreases text.len(),
{
    if text.len() > 0 && is_white_space(text[0]) {
        trim_start_spec(text.subrange(1, text.len() as int))
    } else {
        text
    }
}

pub open spec fn trim_end_spec(text: Seq<char>) -> Seq<char>
    decreases text.len(),
{
    if text.len() > 0 && is_white_space(text.last()) {
        trim_end_spec(text.drop_last())
    } else {
        text
    }
}

/// The text without the white space at either end.
pub open spec fn trimmed(text: Seq<char>) -> Seq<char> {
    trim_end_spec(trim_start_spec(text))
}

pub fn trim_chars(chars: &[char]) -> (kept: Vec<char>)
    ensures
        kept@ == trimmed(chars@),
{
    let mut start: usize = 0;
    assert(chars@.subrange(0, chars@.len() as int) =~= chars@);
    while start < chars.len() && char_is_white_space(chars[start])
        invariant
            start <= chars@.len(),
            trim_start_spec(chars@) == trim_start_spec(
                chars@.subrange(start as int, chars@.len() as int),
            ),
        decreases chars@.len() - start,
    {
        proof {
            let rest = chars@.subrange(start as int, chars@.len() as int);
            assert(rest.subrange(1, rest.len() as int) =~= chars@.subrange(
                start + 1,
                chars@.len() as int,
            ));
        }
        start += 1;
    }
    proof {
        let rest = chars@.subrange(start as int, chars@.len() as int);
        assert(trim_start_spec(rest) == rest);
    }
    let mut end: usize = chars.len();
    while start < end && char_is_white_space(chars[end - 1])
        invariant
            start <= end <= chars@.len(),
            trimmed(chars@) == trim_end_spec(chars@.subrange(start as int, end as int)),
        decreases end,
    {
        proof {
            let rest = chars@.subrange(start as int, end as int);
            assert(rest.drop_last() =~= chars@.subrange(start as int, end - 1));
            assert(rest.last() == chars@[end - 1]);
        }
        end -= 1;
    }
    proof {
        let rest = chars@.subrange(start as int, end as int);
        assert(start < end ==> rest.last() == chars@[end - 1]);
        assert(trim_end_spec(rest) == rest);
    }
    vstd::slice::slice_to_vec(vstd::slice::slice_subrange(chars, start, end))
}

/// The text without the white space at either end.
pub fn trim_text(text: &str) -> (kept: String)
    ensures
        kept@ == trimmed(text@),
{
    let chars = str_chars(text);
    let kept = trim_chars(chars.as_slice());
    string_from_chars(kept.as_slice())
}

// ---- numbers ----

pub open spec fn digit_char(digit: nat) -> char {
    if digit < 10 {
        (0x30 + digit) as char
    } else {
        (0x57 + digit) as char
    }
}

/// A number in decimal digits, without leading zeros.
pub open spec fn decimal(n: nat) -> Seq<char>
    decreases n,
{
    if n < 10 {
        seq![digit_char(n)]
    } else {
        decimal(n / 10).push(digit_char(n % 10))
    }
}

fn digit(value: u64) -> (c: char)
    requires
        value < 16,
    ensures
        c == digit_char(value as nat),
{
    let code: u64 = if value < 10 {
        0x30 + value
    } else {
        0x57 + value
    };
    match char::from_u32(code as u32) {
        Some(c) => c,
        None => '0',
    }
}

pub fn push_decimal(text: &mut String, n: u64)
    ensures
        final(text)@ == old(text)@ + decimal(n as nat),
    decreases n,
{
    if n >= 10 {
        push_decimal(text, n / 10);
    }
    text.push(digit(n % 10));
    proof {
        if n >= 10 {
            assert(text@ =~= old(text)@ + decimal((n / 10) as nat).push(digit_char((n % 10) as nat)));
        } else {
            assert(text@ =~= old(text)@ + decimal(n as nat));
        }
    }
}

pub fn decimal_text(n: u64) -> (text: String)
    ensures
        text@ == decimal(n as nat),
{
    let mut text = String::new();
    push_decimal(&mut text, n);
    assert(text@ =~= decimal(n as nat));
    text
}

/// A number in decimal digits, with a minus sign where it is negative.
pub open spec fn signed_decimal(n: int) -> Seq<char> {
    if n < 0 {
        seq!['-'] + decimal((-n) as nat)
    } else {
        decimal(n as nat)
    }
}

pub fn push_signed_decimal(text: &mut String, n: i64)
    ensures
        final(text)@ == old(text)@ + signed_decimal(n as int),
{
    if n >= 0 {
        push_decimal(text, n as u64);
    } else {
        text.push('-');
        let below: i64 = -(n + 1);
        push_decimal(text, below as u64 + 1);
        assert(text@ =~= old(text)@ + signed_decimal(n as int));
    }
}

/// The lowest `width` hexadecimal digits of a number, most significant first.
pub open spec fn hex_digits(n: nat, width: nat) -> Seq<char>
    decreases width,
{
    if width == 0 {
        Seq::empty()
    } else {
        hex_digits(n / 16, (width - 1) as nat).push(digit_char(n % 16))
    }
}

pub fn push_hex(text: &mut String, n: u64, width: u32)
    ensures
        final(text)@ == old(text)@ + hex_digits(n as nat, width as nat),
    decreases width,
{
    if width > 0 {
        push_hex(text, n / 16, width - 1);
        text.push(digit(n % 16));
    }
    assert(text@ =~= old(text)@ + hex_digits(n as nat, width as nat));
}

/// A hexadecimal digit with a capital letter.
pub open spec fn upper_digit_char(digit: nat) -> char {
    if digit < 10 {
        (0x30 + digit) as char
    } else {
        (0x41 + digit - 10) as char
    }
}

/// The lowest `width` hexadecimal digits of a number, with capital letters.
pub open spec fn upper_hex_digits(n: nat, width: nat) -> Seq<char>
    decreases width,
{
    if width == 0 {
        Seq::empty()
    } else {
        upper_hex_digits(n / 16, (width - 1) as nat).push(upper_digit_char(n % 16))
    }
}

pub fn push_upper_hex(text: &mut String, n: u64, width: u32)
    ensures
        final(text)@ == old(text)@ + upper_hex_digits(n as nat, width as nat),
    decreases width,
{
    if width > 0 {
        push_upper_hex(text, n / 16, width - 1);
        let digit: u8 = (n % 16) as u8;
        let c: char = if digit < 10 {
            (0x30 + digit) as char
        } else {
            (0x41 + digit - 10) as char
        };
        text.push(c);
    }
    assert(text@ =~= old(text)@ + upper_hex_digits(n as nat, width as nat));
}

// ---- UTF-16 ----

pub open spec fn is_high_surrogate(unit: u16) -> bool {
    0xd800 <= unit <= 0xdbff
}

pub open spec fn is_low_surrogate(unit: u16) -> bool {
    0xdc00 <= unit <= 0xdfff
}

/// The character that a high and a low surrogate stand for together.
pub open spec fn surrogate_pair(high: u16, low: u16) -> char {
    (0x10000 + (high - 0xd800) * 0x400 + (low - 0xdc00)) as char
}

/// Every surrogate in the sequence belongs to a pair.
pub open spec fn valid_utf16(units: Seq<u16>) -> bool
    decreases units.len(),
{
    if units.len() == 0 {
        true
    } else if is_high_surrogate(units[0]) {
        units.len() >= 2 && is_low_surrogate(units[1]) && valid_utf16(
            units.subrange(2, units.len() as int),
        )
    } else {
        !is_low_surrogate(units[0]) && valid_utf16(units.subrange(1, units.len() as int))
    }
}

/// The text of the units, with U+FFFD for each surrogate outside a pair.
pub open spec fn utf16_lossy(units: Seq<u16>) -> Seq<char>
    decreases units.len(),
{
    if units.len() == 0 {
        Seq::empty()
    } else if is_high_surrogate(units[0]) && units.len() >= 2 && is_low_surrogate(units[1]) {
        seq![surrogate_pair(units[0], units[1])] + utf16_lossy(
            units.subrange(2, units.len() as int),
        )
    } else if is_high_surrogate(units[0]) || is_low_surrogate(units[0]) {
        seq![REPLACEMENT] + utf16_lossy(units.subrange(1, units.len() as int))
    } else {
        seq![units[0] as char] + utf16_lossy(units.subrange(1, units.len() as int))
    }
}

pub open spec fn char_utf16(c: char) -> Seq<u16> {
    let v = c as u32;
    if v < 0x10000 {
        seq![v as u16]
    } else {
        seq![
            (0xd800 + (v - 0x10000) / 0x400) as u16,
            (0xdc00 + (v - 0x10000) % 0x400) as u16,
        ]
    }
}

/// The UTF-16 form of a text.
pub open spec fn utf16_encoded(text: Seq<char>) -> Seq<u16>
    decreases text.len(),
{
    if text.len() == 0 {
        Seq::empty()
    } else {
        utf16_encoded(text.drop_last()) + char_utf16(text.last())
    }
}

fn scalar(value: u32) -> (c: char)
    requires
        value <= 0xd7ff || 0xe000 <= value <= 0x10ffff,
    ensures
        c == value as char,
{
    match char::from_u32(value) {
        Some(c) => c,
        None => REPLACEMENT,
    }
}

/// Decodes the units, with U+FFFD for each surrogate outside a pair.
pub fn decode_lossy(units: &[u16]) -> (chars: Vec<char>)
    ensures
        chars@ == utf16_lossy(units@),
{
    let mut chars: Vec<char> = Vec::new();
    let mut i: usize = 0;
    let n: usize = units.len();
    assert(units@.subrange(0, n as int) =~= units@);
    while i < n
        invariant
            i <= n,
            n == units@.len(),
            utf16_lossy(units@) == chars@ + utf16_lossy(units@.subrange(i as int, n as int)),
        decreases n - i,
    {
        let ghost rest = units@.subrange(i as int, n as int);
        let unit: u16 = units[i];
        if 0xd800 <= unit && unit <= 0xdbff && i + 1 < n && 0xdc00 <= units[i + 1] && units[i + 1]
            <= 0xdfff {
            let high: u32 = (unit - 0xd800) as u32;
            let low: u32 = (units[i + 1] - 0xdc00) as u32;
            chars.push(scalar(0x10000 + high * 0x400 + low));
            proof {
                assert(rest.subrange(2, rest.len() as int) =~= units@.subrange(i + 2, n as int));
            }
            i += 2;
        } else {
            if 0xd800 <= unit && unit <= 0xdfff {
                chars.push(REPLACEMENT);
            } else {
                chars.push(scalar(unit as u32));
            }
            proof {
                assert(rest.subrange(1, rest.len() as int) =~= units@.subrange(i + 1, n as int));
            }
            i += 1;
        }
        assert(utf16_lossy(units@) =~= chars@ + utf16_lossy(units@.subrange(i as int, n as int)));
    }
    assert(chars@ =~= utf16_lossy(units@));
    chars
}

/// Whether every surrogate belongs to a pair.
pub fn is_valid_utf16(units: &[u16]) -> (valid: bool)
    ensures
        valid == valid_utf16(units@),
{
    let mut i: usize = 0;
    let n: usize = units.len();
    assert(units@.subrange(0, n as int) =~= units@);
    while i < n
        invariant
            i <= n,
            n == units@.len(),
            valid_utf16(units@) == valid_utf16(units@.subrange(i as int, n as int)),
        decreases n - i,
    {
        let ghost rest = units@.subrange(i as int, n as int);
        let unit: u16 = units[i];
        if 0xd800 <= unit && unit <= 0xdbff {
            if i + 1 < n && 0xdc00 <= units[i + 1] && units[i + 1] <= 0xdfff {
                proof {
                    assert(rest.subrange(2, rest.len() as int) =~= units@.subrange(i + 2, n as int));
                }
                i += 2;
            } else {
                return false;
            }
        } else if 0xdc00 <= unit && unit <= 0xdfff {
            return false;
        } else {
            proof {
                assert(rest.subrange(1, rest.len() as int) =~= units@.subrange(i + 1, n as int));
            }
            i += 1;
        }
    }
    true
}

/// The text of the units, or nothing when a surrogate stands outside a pair.
pub fn decode_strict(units: &[u16]) -> (text: Option<Vec<char>>)
    ensures
        text is Some <==> valid_utf16(units@),
        text is Some ==> text->0@ == utf16_lossy(units@),
{
    if is_valid_utf16(units) {
        Some(decode_lossy(units))
    } else {
        None
    }
}

pub fn encode_chars(chars: &[char]) -> (units: Vec<u16>)
    ensures
        units@ == utf16_encoded(chars@),
{
    let mut units: Vec<u16> = Vec::new();
    let mut i: usize = 0;
    while i < chars.len()
        invariant
            i <= chars@.len(),
            units@ == utf16_encoded(chars@.subrange(0, i as int)),
        decreases chars@.len() - i,
    {
        let v: u32 = chars[i] as u32;
        if v < 0x10000 {
            units.push(v as u16);
        } else {
            units.push((0xd800 + (v - 0x10000) / 0x400) as u16);
            units.push((0xdc00 + (v - 0x10000) % 0x400) as u16);
        }
        proof {
            let next = chars@.subrange(0, i + 1);
            assert(next.drop_last() =~= chars@.subrange(0, i as int));
            assert(units@ =~= utf16_encoded(next));
        }
        i += 1;
    }
    assert(chars@.subrange(0, i as int) =~= chars@);
    units
}

/// The UTF-16 form of a string.
pub fn encode_text(text: &str) -> (units: Vec<u16>)
    ensures
        units@ == utf16_encoded(text@),
{
    let chars = str_chars(text);
    encode_chars(chars.as_slice())
}

// ---- laws ----

pub proof fn lemma_lossy_concat(left: Seq<u16>, right: Seq<u16>)
    requires
        valid_utf16(left),
    ensures
        utf16_lossy(left + right) == utf16_lossy(left) + utf16_lossy(right),
        valid_utf16(left + right) == valid_utf16(right),
    decreases left.len(),
{
    let all = left + right;
    if left.len() == 0 {
        assert(all =~= right);
    } else {
        let step: int = if is_high_surrogate(left[0]) {
            2
        } else {
            1
        };
        let rest = left.subrange(step, left.len() as int);
        lemma_lossy_concat(rest, right);
        assert(all.subrange(step, all.len() as int) =~= rest + right);
        assert(all[0] == left[0]);
        assert(step == 2 ==> all[1] == left[1]);
        assert(utf16_lossy(all) =~= utf16_lossy(left) + utf16_lossy(right));
    }
}

proof fn lemma_char_round_trip(c: char)
    ensures
        valid_utf16(char_utf16(c)),
        utf16_lossy(char_utf16(c)) == seq![c],
{
    let units = char_utf16(c);
    let v = c as u32;
    if v < 0x10000 {
        let rest = units.subrange(1, 1);
        assert(rest =~= Seq::<u16>::empty());
        assert(utf16_lossy(rest) =~= Seq::<char>::empty());
        assert(valid_utf16(rest));
        assert(utf16_lossy(units) =~= seq![c]);
    } else {
        let rest = units.subrange(2, 2);
        assert(rest =~= Seq::<u16>::empty());
        assert(utf16_lossy(rest) =~= Seq::<char>::empty());
        assert(valid_utf16(rest));
        assert(surrogate_pair(units[0], units[1]) == c);
        assert(utf16_lossy(units) =~= seq![c]);
    }
}

/// Reading back the UTF-16 form of a text gives the text, and that form is always valid.
pub proof fn law_utf16_round_trip(text: Seq<char>)
    ensures
        valid_utf16(utf16_encoded(text)),
        utf16_lossy(utf16_encoded(text)) == text,
    decreases text.len(),
{
    if text.len() > 0 {
        law_utf16_round_trip(text.drop_last());
        lemma_char_round_trip(text.last());
        lemma_lossy_concat(utf16_encoded(text.drop_last()), char_utf16(text.last()));
        assert(utf16_lossy(utf16_encoded(text)) =~= text);
    }
}

/// Trimming a trimmed text changes nothing.
pub proof fn law_trim_idempotent(text: Seq<char>)
    ensures
        trimmed(trimmed(text)) == trimmed(text),
{
    lemma_trim_start_shape(text);
    lemma_trim_end_shape(trim_start_spec(text));
}

proof fn lemma_trim_start_shape(text: Seq<char>)
    ensures
        trim_start_spec(text).len() > 0 ==> !is_white_space(trim_start_spec(text)[0]),
    decreases text.len(),
{
    if text.len() > 0 && is_white_space(text[0]) {
        lemma_trim_start_shape(text.subrange(1, text.len() as int));
    }
}

proof fn lemma_trim_end_shape(text: Seq<char>)
    ensures
        ({
            let kept = trim_end_spec(text);
            &&& kept.len() <= text.len()
            &&& kept.len() > 0 ==> !is_white_space(kept.last()) && kept[0] == text[0]
        }),
    decreases text.len(),
{
    if text.len() > 0 && is_white_space(text.last()) {
        lemma_trim_end_shape(text.drop_last());
    }
}

proof fn lemma_trim_start_piece(text: Seq<char>) -> (a: int)
    ensures
        0 <= a <= text.len(),
        trim_start_spec(text) == text.subrange(a, text.len() as int),
        forall|i: int| 0 <= i < a ==> is_white_space(#[trigger] text[i]),
    decreases text.len(),
{
    if text.len() > 0 && is_white_space(text[0]) {
        let rest = text.subrange(1, text.len() as int);
        let b = lemma_trim_start_piece(rest);
        assert(rest.subrange(b, rest.len() as int) =~= text.subrange(b + 1, text.len() as int));
        assert forall|i: int| 0 <= i < b + 1 implies is_white_space(#[trigger] text[i]) by {
            if i > 0 {
                assert(rest[i - 1] == text[i]);
            }
        }
        b + 1
    } else {
        assert(text.subrange(0, text.len() as int) =~= text);
        0
    }
}

proof fn lemma_trim_end_piece(text: Seq<char>) -> (b: int)
    ensures
        0 <= b <= text.len(),
        trim_end_spec(text) == text.subrange(0, b),
        forall|i: int| b <= i < text.len() ==> is_white_space(#[trigger] text[i]),
    decreases text.len(),
{
    if text.len() > 0 && is_white_space(text.last()) {
        let rest = text.drop_last();
        let b = lemma_trim_end_piece(rest);
        assert(rest.subrange(0, b) =~= text.subrange(0, b));
        assert forall|i: int| b <= i < text.len() implies is_white_space(#[trigger] text[i]) by {
            if i < rest.len() {
                assert(rest[i] == text[i]);
            }
        }
        b
    } else {
        assert(text.subrange(0, text.len() as int) =~= text);
        text.len() as int
    }
}

/// What trimming leaves is a piece of the text that neither begins nor ends with white space, and
/// all around it was white space.
pub proof fn law_trimming_takes_white_space_only(chars: &[char], kept: Vec<char>)
    requires
        call_ensures(trim_chars, (chars,), kept),
    ensures
        exists|a: int, b: int|
            {
                &&& 0 <= a <= b <= chars@.len()
                &&& kept@ == #[trigger] chars@.subrange(a, b)
                &&& forall|i: int|
                    0 <= i < a || b <= i < chars@.len() ==> is_white_space(#[trigger] chars@[i])
            },
        kept@.len() > 0 ==> !is_white_space(kept@[0]) && !is_white_space(kept@.last()),
{
    lemma_trimmed_piece(chars@);
    lemma_trim_start_shape(chars@);
    lemma_trim_end_shape(trim_start_spec(chars@));
}

proof fn lemma_trimmed_piece(text: Seq<char>) -> (ends: (int, int))
    ensures
        0 <= ends.0 <= ends.1 <= text.len(),
        trimmed(text) == text.subrange(ends.0, ends.1),
        forall|i: int|
            0 <= i < ends.0 || ends.1 <= i < text.len() ==> is_white_space(#[trigger] text[i]),
{
    let a = lemma_trim_start_piece(text);
    let rest = trim_start_spec(text);
    let b = lemma_trim_end_piece(rest);
    assert(rest.subrange(0, b) =~= text.subrange(a, a + b));
    assert forall|i: int| 0 <= i < a || a + b <= i < text.len() implies is_white_space(
        #[trigger] text[i],
    ) by {
        if i >= a {
            assert(rest[i - a] == text[i]);
        }
    }
    (a, a + b)
}

/// Nothing is left of a text exactly when it is white space throughout.
pub proof fn lemma_blank(text: Seq<char>)
    ensures
        trimmed(text).len() == 0 <==> forall|i: int|
            0 <= i < text.len() ==> is_white_space(#[trigger] text[i]),
{
    let (a, b) = lemma_trimmed_piece(text);
    lemma_trim_start_shape(text);
    lemma_trim_end_shape(trim_start_spec(text));
    if trimmed(text).len() > 0 {
        assert(trimmed(text)[0] == text[a]);
    }
}

// ---- laws on numbers and case ----

/// The number that a row of digits stands for, in a base up to sixteen.
pub open spec fn value_of(digits: Seq<char>, base: int) -> int
    decreases digits.len(),
{
    if digits.len() == 0 {
        0
    } else {
        let c = digits.last() as int;
        let digit = if c <= 0x39 {
            c - 0x30
        } else if c <= 0x46 {
            c - 0x41 + 10
        } else {
            c - 0x61 + 10
        };
        value_of(digits.drop_last(), base) * base + digit
    }
}

proof fn lemma_decimal_value(n: nat)
    ensures
        value_of(decimal(n), 10) == n,
        decimal(n).len() > 0,
        n > 0 ==> decimal(n)[0] != '0',
        forall|i: int| 0 <= i < decimal(n).len() ==> '0' <= #[trigger] decimal(n)[i] <= '9',
    decreases n,
{
    let shown = decimal(n);
    if n < 10 {
        assert(shown.drop_last() =~= Seq::<char>::empty());
        assert(value_of(shown.drop_last(), 10) == 0);
    } else {
        lemma_decimal_value(n / 10);
        assert(shown.drop_last() =~= decimal(n / 10));
    }
}

/// A number is written in decimal digits that stand for it, without zeros in front; so are numbers
/// below zero, behind a minus sign.
pub proof fn law_numbers_are_written_in_decimal(
    n: u64,
    shown: String,
    m: i64,
    text: &mut String,
)
    requires
        call_ensures(decimal_text, (n,), shown),
        call_ensures(push_signed_decimal, (text, m), ()),
    ensures
        value_of(shown@, 10) == n,
        forall|i: int| 0 <= i < shown@.len() ==> '0' <= #[trigger] shown@[i] <= '9',
        n > 0 ==> shown@[0] != '0',
        n == 0 ==> shown@ == seq!['0'],
        old(text)@.is_prefix_of(final(text)@),
        m >= 0 ==> value_of(
            final(text)@.subrange(old(text)@.len() as int, final(text)@.len() as int),
            10,
        ) == m,
        m < 0 ==> final(text)@[old(text)@.len() as int] == '-' && value_of(
            final(text)@.subrange(old(text)@.len() as int + 1, final(text)@.len() as int),
            10,
        ) == -m,
{
    lemma_decimal_value(n as nat);
    let k = old(text)@.len() as int;
    let added = signed_decimal(m as int);
    assert(final(text)@.subrange(0, k) =~= old(text)@);
    assert(final(text)@.subrange(k, final(text)@.len() as int) =~= added);
    if m >= 0 {
        lemma_decimal_value(m as nat);
    } else {
        lemma_decimal_value((-m) as nat);
        assert(added.len() > 0 && added[0] == '-');
        assert(final(text)@[k] == added[0]);
        assert(final(text)@.subrange(k + 1, final(text)@.len() as int) =~= decimal((-m) as nat));
    }
}

proof fn lemma_hex_value(n: nat, width: nat)
    ensures
        hex_digits(n, width).len() == width,
        upper_hex_digits(n, width).len() == width,
        width == 4 && n < 0x1_0000 ==> value_of(hex_digits(n, width), 16) == n && value_of(
            upper_hex_digits(n, width),
            16,
        ) == n,
        width == 8 && n < 0x1_0000_0000 ==> value_of(hex_digits(n, width), 16) == n && value_of(
            upper_hex_digits(n, width),
            16,
        ) == n,
        width == 16 && n < 0x1_0000_0000_0000_0000 ==> value_of(hex_digits(n, width), 16) == n
            && value_of(upper_hex_digits(n, width), 16) == n,
{
    lemma_hex_value_below(n, width);
    assert(vstd::arithmetic::power::pow(16, 4) == 0x1_0000) by {
        vstd::arithmetic::power::lemma_pow0(16);
        reveal_with_fuel(vstd::arithmetic::power::pow, 5);
    }
    assert(vstd::arithmetic::power::pow(16, 8) == 0x1_0000_0000) by {
        reveal_with_fuel(vstd::arithmetic::power::pow, 9);
    }
    assert(vstd::arithmetic::power::pow(16, 16) == 0x1_0000_0000_0000_0000) by {
        reveal_with_fuel(vstd::arithmetic::power::pow, 17);
    }
}

proof fn lemma_hex_value_below(n: nat, width: nat)
    ensures
        hex_digits(n, width).len() == width,
        upper_hex_digits(n, width).len() == width,
        n < vstd::arithmetic::power::pow(16, width) ==> value_of(hex_digits(n, width), 16) == n
            && value_of(upper_hex_digits(n, width), 16) == n,
    decreases width,
{
    reveal_with_fuel(vstd::arithmetic::power::pow, 1);
    if width > 0 {
        let less = (width - 1) as nat;
        lemma_hex_value_below(n / 16, less);
        assert(hex_digits(n, width).drop_last() =~= hex_digits(n / 16, less));
        assert(upper_hex_digits(n, width).drop_last() =~= upper_hex_digits(n / 16, less));
        assert(vstd::arithmetic::power::pow(16, width) == 16 * vstd::arithmetic::power::pow(
            16,
            less,
        ));
    }
}

/// A number that fits is written in as many hexadecimal digits as asked for, which stand for it,
/// whichever letters are used.
pub proof fn law_numbers_are_written_in_hexadecimal(
    small: &mut String,
    large: &mut String,
    n: u64,
    width: u32,
)
    requires
        width == 4 && n < 0x1_0000 || width == 8 && n < 0x1_0000_0000 || width == 16,
        call_ensures(push_hex, (small, n, width), ()),
        call_ensures(push_upper_hex, (large, n, width), ()),
    ensures
        final(small)@.len() == old(small)@.len() + width,
        final(large)@.len() == old(large)@.len() + width,
        old(small)@.is_prefix_of(final(small)@),
        value_of(final(small)@.subrange(old(small)@.len() as int, final(small)@.len() as int), 16)
            == n,
        value_of(final(large)@.subrange(old(large)@.len() as int, final(large)@.len() as int), 16)
            == n,
{
    lemma_hex_value(n as nat, width as nat);
    assert(final(small)@.subrange(0, old(small)@.len() as int) =~= old(small)@);
    assert(final(small)@.subrange(old(small)@.len() as int, final(small)@.len() as int)
        =~= hex_digits(n as nat, width as nat));
    assert(final(large)@.subrange(old(large)@.len() as int, final(large)@.len() as int)
        =~= upper_hex_digits(n as nat, width as nat));
}

/// Text in lower case differs from the text only in its ASCII capitals.
pub proof fn law_only_capitals_are_lowered(text: &str, lowered: String, i: int)
    requires
        call_ensures(lower_text, (text,), lowered),
        0 <= i < text@.len(),
    ensures
        lowered@.len() == text@.len(),
        'A' <= text@[i] <= 'Z' ==> lowered@[i] as int == text@[i] as int + 0x20,
        !('A' <= text@[i] <= 'Z') ==> lowered@[i] == text@[i],
{
}

/// Text that is encoded is read back, and units that are no text are not taken for one.
pub proof fn law_encoded_text_is_decoded(
    text: &str,
    units: Vec<u16>,
    sent: &[u16],
    lossy: Vec<char>,
    strict: Option<Vec<char>>,
    valid: bool,
)
    requires
        call_ensures(encode_text, (text,), units),
        sent@ == units@,
        call_ensures(decode_lossy, (sent,), lossy),
        call_ensures(decode_strict, (sent,), strict),
        call_ensures(is_valid_utf16, (sent,), valid),
    ensures
        lossy@ == text@,
        valid,
        strict is Some && strict->0@ == text@,
{
    law_utf16_round_trip(text@);
}

} // verus!
