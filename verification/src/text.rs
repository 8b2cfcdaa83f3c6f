//! Numbers and strings as text.

use vstd::prelude::*;

verus! {

/// What a caller may hand over where a `String` is stored.
pub trait Text: Sized {
    /// The characters handed over.
    spec fn text(&self) -> Seq<char>;

    /// Turns the value into an owned string.
    fn into_string(self) -> (owned: String)
        ensures
            owned@ == self.text(),
    ;
}

impl Text for &str {
    open spec fn text(&self) -> Seq<char> {
        self@
    }

    fn into_string(self) -> (owned: String) {
        self.to_owned()
    }
}

impl Text for String {
    open spec fn text(&self) -> Seq<char> {
        self@
    }

    fn into_string(self) -> (owned: String) {
        self
    }
}

/// `String::push` appends one character.
pub assume_specification[ String::push ](string: &mut String, ch: char)
    ensures
        final(string)@ == old(string)@.push(ch),
;

/// `str::from_utf8` accepts exactly the well-formed UTF-8 sequences and gives the text that
/// encodes to them.
#[verifier::external_body]
pub(crate) fn text_from_utf8(bytes: &[u8]) -> (text: Option<String>)
    ensures
        text is Some <==> vstd::utf8::valid_utf8(bytes@),
        text matches Some(text) ==> vstd::utf8::encode_utf8(text@) == bytes@,
{
    match std::str::from_utf8(bytes) {
        Ok(text) => Some(text.to_owned()),
        Err(_) => None,
    }
}

/// The `Debug` rendering of a string: quoted, with the characters that `str`'s `Debug`
/// implementation escapes written as escapes.
pub uninterp spec fn quoted(text: Seq<char>) -> Seq<char>;

/// `format!` with `{:?}` on a string.
#[verifier::external_body]
pub(crate) fn quote(text: &str) -> (rendered: String)
    ensures
        rendered@ == quoted(text@),
{
    format!("{text:?}")
}

/// The text of some bytes, with the replacement character in place of what is not UTF-8.
pub uninterp spec fn lossy_utf8(bytes: Seq<u8>) -> Seq<char>;

/// `String::from_utf8_lossy`.
#[verifier::external_body]
pub(crate) fn lossy_text(bytes: &[u8]) -> (text: String)
    ensures
        text@ == lossy_utf8(bytes@),
{
    String::from_utf8_lossy(bytes).into_owned()
}

/// The UTF-8 bytes of `text`.
pub open spec fn utf8(text: Seq<char>) -> Seq<u8> {
    vstd::utf8::encode_utf8(text)
}

/// Texts with the same UTF-8 bytes are equal.
pub proof fn lemma_utf8_injective(a: Seq<char>, b: Seq<char>)
    requires
        utf8(a) == utf8(b),
    ensures
        a == b,
{
    vstd::utf8::encode_utf8_decode_utf8(a);
    vstd::utf8::encode_utf8_decode_utf8(b);
}

/// The UTF-8 bytes of a text decode, and only the empty text has none.
pub proof fn lemma_utf8_properties(text: Seq<char>)
    ensures
        vstd::utf8::valid_utf8(utf8(text)),
        utf8(text).len() == 0 <==> text.len() == 0,
{
    vstd::utf8::encode_utf8_valid_utf8(text);
    vstd::utf8::encode_utf8_decode_utf8(text);
    if utf8(text).len() == 0 {
        assert(utf8(text) =~= Seq::<u8>::empty());
        vstd::utf8::encode_utf8_decode_utf8(Seq::<char>::empty());
        assert(utf8(Seq::<char>::empty()) =~= Seq::<u8>::empty());
    }
}

/// The digit `d`, below ten, as a character.
pub open spec fn decimal_digit(d: nat) -> char {
    (d + 48) as char
}

/// The number `n` in decimal, most significant digit first.
pub open spec fn decimal(n: nat) -> Seq<char>
    decreases n,
{
    if n < 10 {
        seq![decimal_digit(n)]
    } else {
        decimal(n / 10).push(decimal_digit(n % 10))
    }
}

/// The integer `n` in decimal, with a minus sign where it is negative.
pub open spec fn signed_decimal(n: int) -> Seq<char> {
    if n < 0 {
        "-"@ + decimal((-n) as nat)
    } else {
        decimal(n as nat)
    }
}

/// The digit `d`, below sixteen, as a lower-case hexadecimal character.
pub open spec fn hex_digit(d: nat) -> char {
    if d < 10 {
        (d + 48) as char
    } else {
        (d + 87) as char
    }
}

/// The low `width` hexadecimal digits of `n`, most significant first.
pub open spec fn hex(n: nat, width: nat) -> Seq<char>
    decreases width,
{
    if width == 0 {
        Seq::empty()
    } else {
        hex(n / 16, (width - 1) as nat).push(hex_digit(n % 16))
    }
}

/// Whether `c` is one of `0` to `9`.
pub open spec fn is_decimal_digit(c: char) -> bool {
    48 <= c as u32 <= 57
}

/// Whether `c` is one of `0` to `9` and `a` to `f`.
pub open spec fn is_lower_hex_digit(c: char) -> bool {
    is_decimal_digit(c) || 97 <= c as u32 <= 102
}

/// Whether `text` holds only the characters `0` to `9`.
pub open spec fn all_decimal_digits(text: Seq<char>) -> bool {
    forall|i: int| 0 <= i < text.len() ==> is_decimal_digit(#[trigger] text[i])
}

/// Whether `text` holds only lower-case hexadecimal digits.
pub open spec fn all_lower_hex_digits(text: Seq<char>) -> bool {
    forall|i: int| 0 <= i < text.len() ==> is_lower_hex_digit(#[trigger] text[i])
}

/// The number that a text of decimal digits stands for.
pub open spec fn decimal_value(text: Seq<char>) -> nat
    decreases text.len(),
{
    if text.len() == 0 {
        0
    } else {
        decimal_value(text.drop_last()) * 10 + (text.last() as u32 - 48) as nat
    }
}

/// Reading a number's decimal text gives the number back.
pub proof fn lemma_decimal_round_trip(n: nat)
    ensures
        decimal_value(decimal(n)) == n,
        all_decimal_digits(decimal(n)),
        decimal(n).len() > 0,
    decreases n,
{
    if n < 10 {
        assert(decimal(n).drop_last() =~= Seq::<char>::empty());
        assert(decimal_value(decimal(n).drop_last()) == 0);
    } else {
        lemma_decimal_round_trip(n / 10);
        assert(decimal(n).drop_last() =~= decimal(n / 10));
    }
}

/// A number of at most 64 bits has at most twenty decimal digits, each one UTF-8 byte long.
pub proof fn lemma_decimal_is_short(n: nat)
    requires
        n <= u64::MAX,
    ensures
        1 <= utf8(decimal(n)).len() <= 20,
        utf8(decimal(n)).len() == decimal(n).len(),
{
    lemma_decimal_length(n, 20);
    lemma_decimal_round_trip(n);
    assert(vstd::utf8::is_ascii_chars(decimal(n))) by {
        assert forall|i: int| 0 <= i < decimal(n).len() implies '\0' <= #[trigger] decimal(n)[i]
            <= '\u{7f}' by {
            let c = decimal(n)[i];
            assert(is_decimal_digit(c));
            vstd::utf8::char_u32_cast(c, c as u32);
        }
    }
    vstd::utf8::is_ascii_chars_encode_utf8(decimal(n));
}

spec fn ten_to(width: nat) -> nat
    decreases width,
{
    if width == 0 {
        1
    } else {
        10 * ten_to((width - 1) as nat)
    }
}

proof fn lemma_decimal_length_below(n: nat, width: nat)
    requires
        width >= 1,
        n < ten_to(width),
    ensures
        1 <= decimal(n).len() <= width,
    decreases width,
{
    if n >= 10 {
        assert(ten_to(1) == 10 * ten_to(0));
        lemma_decimal_length_below(n / 10, (width - 1) as nat);
    }
}

proof fn lemma_decimal_length(n: nat, width: nat)
    requires
        n <= u64::MAX,
        width == 20,
    ensures
        1 <= decimal(n).len() <= 20,
{
    reveal_with_fuel(ten_to, 21);
    lemma_decimal_length_below(n, 20);
}

proof fn lemma_decimal_value_grows(text: Seq<char>, more: Seq<char>)
    ensures
        decimal_value(text) <= decimal_value(text + more),
    decreases more.len(),
{
    if more.len() == 0 {
        assert(text + more =~= text);
    } else {
        lemma_decimal_value_grows(text, more.drop_last());
        assert((text + more).drop_last() =~= text + more.drop_last());
    }
}

/// Appends `value` in decimal.
pub fn push_decimal(out: &mut String, value: u64)
    ensures
        final(out)@ == old(out)@ + decimal(value as nat),
    decreases value,
{
    if value >= 10 {
        push_decimal(out, value / 10);
    }
    out.push(((value % 10) as u8 + 48) as char);
}

/// `value` in decimal.
pub fn decimal_string(value: u64) -> (text: String)
    ensures
        text@ == decimal(value as nat),
{
    let mut text = String::new();
    push_decimal(&mut text, value);
    text
}

/// Appends `value` in decimal, with a minus sign where it is negative.
pub fn push_signed(out: &mut String, value: i32)
    ensures
        final(out)@ == old(out)@ + signed_decimal(value as int),
{
    if value < 0 {
        out.append("-");
        push_decimal(out, (-(value as i64)) as u64);
    } else {
        push_decimal(out, value as u64);
    }
}

/// Appends the low `width` hexadecimal digits of `value`.
pub fn push_hex(out: &mut String, value: u64, width: u32)
    ensures
        final(out)@ == old(out)@ + hex(value as nat, width as nat),
    decreases width,
{
    if width > 0 {
        push_hex(out, value / 16, width - 1);
        let digit: u8 = (value % 16) as u8;
        if digit < 10 {
            out.push((digit + 48) as char);
        } else {
            out.push((digit + 87) as char);
        }
    }
}

/// Whether `text` holds only the characters `0` to `9`.
pub fn holds_only_digits(text: &str) -> (only: bool)
    ensures
        only == all_decimal_digits(text@),
{
    for ch in it: text.chars()
        invariant
            it.seq() == text@,
            forall|i: int| 0 <= i < it.index() ==> is_decimal_digit(#[trigger] text@[i]),
    {
        assert(ch == text@[it.index() as int]);
        if (ch as u32) < 48 || (ch as u32) > 57 {
            return false;
        }
    }
    true
}

/// Whether `text` holds only lower-case hexadecimal digits.
pub fn holds_only_lower_hex(text: &str) -> (only: bool)
    ensures
        only == all_lower_hex_digits(text@),
{
    for ch in it: text.chars()
        invariant
            it.seq() == text@,
            forall|i: int| 0 <= i < it.index() ==> is_lower_hex_digit(#[trigger] text@[i]),
    {
        assert(ch == text@[it.index() as int]);
        let code: u32 = ch as u32;
        if code < 48 || (code > 57 && code < 97) || code > 102 {
            return false;
        }
    }
    true
}

/// The number that a text of decimal digits stands for, if it is at most `u32::MAX`.
pub fn parse_decimal_u32(text: &str) -> (value: Option<u32>)
    requires
        all_decimal_digits(text@),
    ensures
        value is Some <==> decimal_value(text@) <= u32::MAX,
        value matches Some(value) ==> value == decimal_value(text@),
{
    let mut value: u64 = 0;
    for ch in it: text.chars()
        invariant
            all_decimal_digits(text@),
            it.seq() == text@,
            value == decimal_value(text@.take(it.index() as int)),
            value <= u32::MAX,
    {
        let ghost upto = it.index() as int;
        assert(ch == text@[upto] && is_decimal_digit(text@[upto]));
        proof {
            assert(text@.take(upto + 1).drop_last() =~= text@.take(upto));
            assert(text@.take(upto + 1).last() == text@[upto]);
            assert(text@ =~= text@.take(upto + 1) + text@.skip(upto + 1));
            lemma_decimal_value_grows(text@.take(upto + 1), text@.skip(upto + 1));
        }
        value = value * 10 + (ch as u32 - 48) as u64;
        if value > 0xffff_ffff {
            return None;
        }
    }
    assert(text@.take(text@.len() as int) =~= text@);
    Some(value as u32)
}

/// `prefix`, `number` in decimal, `suffix`.
pub fn with_number(prefix: &str, number: u64, suffix: &str) -> (text: String)
    ensures
        text@ == prefix@ + decimal(number as nat) + suffix@,
{
    let mut text = prefix.to_owned();
    push_decimal(&mut text, number);
    text.append(suffix);
    text
}

/// `prefix`, `first` in decimal, `middle`, `second` in decimal, `suffix`.
pub fn with_numbers(prefix: &str, first: u64, middle: &str, second: u64, suffix: &str) -> (text:
    String)
    ensures
        text@ == prefix@ + decimal(first as nat) + middle@ + decimal(second as nat) + suffix@,
{
    let mut text = with_number(prefix, first, middle);
    push_decimal(&mut text, second);
    text.append(suffix);
    text
}

/// `prefix`, the low `width` hexadecimal digits of `number`, `suffix`.
pub fn with_hex(prefix: &str, number: u64, width: u32, suffix: &str) -> (text: String)
    ensures
        text@ == prefix@ + hex(number as nat, width as nat) + suffix@,
{
    let mut text = prefix.to_owned();
    push_hex(&mut text, number, width);
    text.append(suffix);
    text
}

/// What follows `prefix` in `input`, where `input` starts with it.
pub fn strip_prefix(input: &str, prefix: &str) -> (rest: Option<String>)
    ensures
        rest is Some <==> prefix@.is_prefix_of(input@),
        rest matches Some(rest) ==> input@ == prefix@ + rest@,
{
    let input_len: usize = input.unicode_len();
    let prefix_len: usize = prefix.unicode_len();
    if input_len < prefix_len {
        return None;
    }
    let head = input.substring_char(0, prefix_len).to_owned();
    let tail = input.substring_char(prefix_len, input_len).to_owned();
    if head == prefix.to_owned() {
        assert(input@ =~= prefix@ + tail@);
        Some(tail)
    } else {
        assert(prefix@.is_prefix_of(input@) ==> head@ =~= prefix@);
        None
    }
}

/// The characters of each string.
pub open spec fn views(strings: Seq<String>) -> Seq<Seq<char>> {
    strings.map_values(|s: String| s@)
}

/// The texts one after the other, with `separator` between neighbours.
pub open spec fn joined(texts: Seq<Seq<char>>, separator: Seq<char>) -> Seq<char>
    decreases texts.len(),
{
    if texts.len() == 0 {
        Seq::empty()
    } else if texts.len() == 1 {
        texts[0]
    } else {
        joined(texts.drop_last(), separator) + separator + texts.last()
    }
}

/// Texts are joined in order: two lists of texts together are the first, the separator and the second.
pub proof fn joined_texts_keep_their_order(
    earlier: Seq<Seq<char>>,
    later: Seq<Seq<char>>,
    separator: Seq<char>,
)
    requires
        earlier.len() > 0,
        later.len() > 0,
    ensures
        joined(earlier + later, separator) == joined(earlier, separator) + separator + joined(
            later,
            separator,
        ),
    decreases later.len(),
{
    let all = earlier + later;
    assert(all.last() == later.last());
    assert(all.drop_last() =~= earlier + later.drop_last());
    if later.len() == 1 {
        assert(all.drop_last() =~= earlier);
    } else {
        joined_texts_keep_their_order(earlier, later.drop_last(), separator);
    }
    assert(joined(all, separator) =~= joined(earlier, separator) + separator + joined(
        later,
        separator,
    ));
}

/// The strings one after the other, with `separator` between neighbours.
pub fn join(strings: &Vec<String>, separator: &str) -> (text: String)
    ensures
        text@ == joined(views(strings@), separator@),
{
    let mut text = String::new();
    let mut index: usize = 0;
    while index < strings.len()
        invariant
            index <= strings.len(),
            text@ == joined(views(strings@.take(index as int)), separator@),
        decreases strings.len() - index,
    {
        proof {
            let grown = views(strings@.take(index + 1));
            assert(grown.drop_last() =~= views(strings@.take(index as int)));
            assert(grown.last() == strings@[index as int]@);
            assert(Seq::<char>::empty() + strings@[index as int]@ =~= strings@[index as int]@);
        }
        if index > 0 {
            text.append(separator);
        }
        text.append(strings[index].as_str());
        index += 1;
    }
    assert(strings@.take(strings@.len() as int) =~= strings@);
    text
}

/// Whether two texts are equal.
pub fn same_text(left: &str, right: &str) -> (same: bool)
    ensures
        same == (left@ == right@),
{
    let same = crate::bytes::same_bytes(left.as_bytes(), right.as_bytes());
    proof {
        if same {
            lemma_utf8_injective(left@, right@);
        }
    }
    same
}

/// Whether `left` comes before `right`: by the first character in which they differ, a prefix
/// before what it starts.
pub open spec fn precedes(left: Seq<char>, right: Seq<char>) -> bool
    decreases left.len(),
{
    if left.len() == 0 {
        right.len() > 0
    } else if right.len() == 0 {
        false
    } else if left[0] != right[0] {
        (left[0] as u32) < (right[0] as u32)
    } else {
        precedes(left.drop_first(), right.drop_first())
    }
}

proof fn lemma_char_codes(a: char, b: char)
    ensures
        a != b ==> a as u32 != b as u32,
{
}

/// The order is total and strict.
pub proof fn lemma_precedes(a: Seq<char>, b: Seq<char>)
    ensures
        !precedes(a, a),
        a != b ==> precedes(a, b) || precedes(b, a),
        !(precedes(a, b) && precedes(b, a)),
    decreases a.len(),
{
    if a.len() > 0 {
        lemma_precedes(a.drop_first(), a.drop_first());
        if b.len() > 0 {
            lemma_precedes(a.drop_first(), b.drop_first());
            if a[0] == b[0] && a.drop_first() == b.drop_first() {
                assert(a == seq![a[0]] + a.drop_first());
                assert(b == seq![b[0]] + b.drop_first());
                assert(a == b);
            }
            lemma_char_codes(a[0], b[0]);
        }
    } else if b.len() == 0 {
        assert(a =~= b);
    }
}

/// The order is transitive.
pub proof fn lemma_precedes_transitive(a: Seq<char>, b: Seq<char>, c: Seq<char>)
    requires
        precedes(a, b),
        precedes(b, c),
    ensures
        precedes(a, c),
    decreases a.len(),
{
    if a.len() > 0 && b.len() > 0 && c.len() > 0 && a[0] == b[0] && b[0] == c[0] {
        lemma_precedes_transitive(a.drop_first(), b.drop_first(), c.drop_first());
    }
}

/// Whether `left` comes before `right`.
pub fn comes_before(left: &str, right: &str) -> (before: bool)
    ensures
        before == precedes(left@, right@),
{
    let left_len: usize = left.unicode_len();
    let right_len: usize = right.unicode_len();
    let mut index: usize = 0;
    assert(left@.skip(0) =~= left@);
    assert(right@.skip(0) =~= right@);
    while index < left_len && index < right_len
        invariant
            left_len == left@.len(),
            right_len == right@.len(),
            index <= left_len,
            index <= right_len,
            precedes(left@, right@) == precedes(left@.skip(index as int), right@.skip(index as int)),
        decreases left_len - index,
    {
        let l: char = left.get_char(index);
        let r: char = right.get_char(index);
        if l != r {
            return (l as u32) < (r as u32);
        }
        assert(left@.skip(index as int).drop_first() =~= left@.skip(index + 1));
        assert(right@.skip(index as int).drop_first() =~= right@.skip(index + 1));
        index += 1;
    }
    left_len < right_len
}

/// The number that a text spells: decimal digits, after a plus sign or not.
pub open spec fn unsigned_value(text: Seq<char>) -> Option<nat> {
    let digits = if text.len() > 0 && text[0] == '+' {
        text.drop_first()
    } else {
        text
    };
    if digits.len() > 0 && all_decimal_digits(digits) {
        Some(decimal_value(digits))
    } else {
        None
    }
}

/// The number that a text spells, where it spells one of at most `maximum`.
pub fn parse_unsigned(text: &str, maximum: u64) -> (value: Option<u64>)
    ensures
        match value {
            Some(value) => unsigned_value(text@) == Some(value as nat) && value <= maximum,
            None => unsigned_value(text@) is None || unsigned_value(text@)->0 > maximum,
        },
{
    let length: usize = text.unicode_len();
    let start: usize = if length > 0 && text.get_char(0) == '+' {
        1
    } else {
        0
    };
    let ghost digits = text@.skip(start as int);
    assert(start == 1 ==> digits =~= text@.drop_first());
    assert(start == 0 ==> digits =~= text@);
    if start == length {
        return None;
    }
    let mut value: u64 = 0;
    let mut fits = true;
    let mut index: usize = 0;
    for ch in it: text.chars()
        invariant
            it.seq() == text@,
            index == it.index(),
            start < length,
            length == text@.len(),
            digits == text@.skip(start as int),
            start == 1 ==> text@[0] == '+' && digits == text@.drop_first(),
            start != 1 ==> text@[0] != '+' && digits == text@,
            index <= start ==> value == 0 && fits,
            forall|i: int| start <= i < index ==> is_decimal_digit(#[trigger] text@[i]),
            index > start ==> if fits {
                &&& value == decimal_value(digits.take(index - start))
                &&& value <= maximum
            } else {
                decimal_value(digits.take(index - start)) > maximum
            },
    {
        assert(ch == text@[index as int]);
        if index >= start {
            let code: u32 = ch as u32;
            if code < 48 || code > 57 {
                assert(!is_decimal_digit(digits[index - start]));
                return None;
            }
            proof {
                let longer = digits.take(index - start + 1);
                assert(longer.drop_last() =~= digits.take(index - start));
                assert(longer.last() == ch);
                assert(decimal_value(digits.take(0)) == 0);
            }
            if fits {
                let digit: u128 = (code - 48) as u128;
                let next: u128 = value as u128 * 10 + digit;
                if next > maximum as u128 {
                    fits = false;
                } else {
                    value = next as u64;
                }
            }
        }
        if index < usize::MAX {
            index = index + 1;
        }
    }
    proof {
        assert(digits.take(digits.len() as int) =~= digits);
        assert(all_decimal_digits(digits)) by {
            assert forall|i: int| 0 <= i < digits.len() implies is_decimal_digit(
                #[trigger] digits[i],
            ) by {
                assert(digits[i] == text@[i + start]);
            }
        }
    }
    if fits {
        Some(value)
    } else {
        None
    }
}

} // verus!
