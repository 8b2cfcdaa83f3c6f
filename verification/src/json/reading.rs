//! What can be read back from the text of an object.

use vstd::prelude::*;

use crate::json;
use crate::text;

verus! {

/// Whether a text is a JSON string or a number.
pub open spec fn is_scalar(value: Seq<char>) -> bool {
    ||| exists|text: Seq<char>| value == #[trigger] json::string(text)
    ||| exists|n: nat| value == #[trigger] text::decimal(n)
}

/// Whether a text holds no control character, so that it stands on one line.
pub open spec fn is_one_line(text: Seq<char>) -> bool {
    forall|i: int| 0 <= i < text.len() ==> !json::is_control(#[trigger] text[i])
}

/// Whether the values of two lists of members stand under the same names.
pub open spec fn same_names(
    left: Seq<(Seq<char>, Seq<char>)>,
    right: Seq<(Seq<char>, Seq<char>)>,
) -> bool {
    &&& left.len() == right.len()
    &&& forall|i: int| 0 <= i < left.len() ==> (#[trigger] left[i]).0 == right[i].0
}

/// Whether every value is a string or a number.
pub open spec fn all_scalars(fields: Seq<(Seq<char>, Seq<char>)>) -> bool {
    forall|i: int| 0 <= i < fields.len() ==> is_scalar(#[trigger] fields[i].1)
}

/// Different texts are different JSON strings, whatever follows them.
pub proof fn json_strings_tell_texts_apart(
    left: Seq<char>,
    right: Seq<char>,
    after_left: Seq<char>,
    after_right: Seq<char>,
)
    requires
        json::string(left) + after_left == json::string(right) + after_right,
    ensures
        left == right,
        after_left == after_right,
{
    let whole = json::string(left) + after_left;
    assert(whole.skip(1) =~= json::escaped_all(left) + seq!['"'] + after_left);
    assert((json::string(right) + after_right).skip(1) =~= json::escaped_all(right) + seq!['"']
        + after_right);
    lemma_rest_of_string(left, right, after_left, after_right);
}

/// Objects of strings and numbers under the same names are equal only where every value is.
pub proof fn objects_tell_values_apart(
    left: Seq<(Seq<char>, Seq<char>)>,
    right: Seq<(Seq<char>, Seq<char>)>,
)
    requires
        same_names(left, right),
        all_scalars(left),
        all_scalars(right),
        json::object(left) == json::object(right),
    ensures
        left == right,
{
    reveal_strlit("{");
    reveal_strlit("}");
    assert(json::object(left).skip(1) =~= json::members(left) + "}"@);
    assert(json::object(right).skip(1) =~= json::members(right) + "}"@);
    lemma_members(left, right, "}"@, "}"@);
}

/// An object whose values hold no control character is one line.
pub proof fn objects_stay_on_one_line(fields: Seq<(Seq<char>, Seq<char>)>)
    requires
        forall|i: int| 0 <= i < fields.len() ==> is_one_line(#[trigger] fields[i].1),
    ensures
        is_one_line(json::object(fields)),
{
    reveal_strlit("{");
    reveal_strlit("}");
    lemma_members_one_line(fields);
    lemma_one_line_joined("{"@, json::members(fields));
    lemma_one_line_joined("{"@ + json::members(fields), "}"@);
}

/// A string or a number holds no control character.
pub proof fn lemma_scalar_one_line(value: Seq<char>)
    requires
        is_scalar(value),
    ensures
        is_one_line(value),
{
    if exists|text: Seq<char>| value == #[trigger] json::string(text) {
        let text = choose|text: Seq<char>| value == #[trigger] json::string(text);
        json::json_strings_stay_on_one_line(text);
    } else {
        let n = choose|n: nat| value == #[trigger] text::decimal(n);
        text::lemma_decimal_round_trip(n);
    }
}

/// Numbers with the same digits are equal.
pub proof fn lemma_decimal_injective(a: nat, b: nat)
    requires
        text::decimal(a) == text::decimal(b),
    ensures
        a == b,
{
    text::lemma_decimal_round_trip(a);
    text::lemma_decimal_round_trip(b);
}

/// Texts with the same JSON string are equal.
pub proof fn lemma_string_injective(a: Seq<char>, b: Seq<char>)
    requires
        json::string(a) == json::string(b),
    ensures
        a == b,
{
    json_strings_tell_texts_apart(a, b, Seq::empty(), Seq::empty());
}

proof fn lemma_one_line_joined(left: Seq<char>, right: Seq<char>)
    requires
        is_one_line(left),
        is_one_line(right),
    ensures
        is_one_line(left + right),
{
    let whole = left + right;
    assert forall|i: int| 0 <= i < whole.len() implies !json::is_control(#[trigger] whole[i]) by {
        if i < left.len() {
            assert(whole[i] == left[i]);
        } else {
            assert(whole[i] == right[i - left.len()]);
        }
    }
}

proof fn lemma_members_one_line(fields: Seq<(Seq<char>, Seq<char>)>)
    requires
        forall|i: int| 0 <= i < fields.len() ==> is_one_line(#[trigger] fields[i].1),
    ensures
        is_one_line(json::members(fields)),
    decreases fields.len(),
{
    if fields.len() > 0 {
        reveal_strlit(",");
        reveal_strlit(":");
        let earlier = if fields.len() == 1 {
            Seq::empty()
        } else {
            json::members(fields.drop_last()) + ","@
        };
        let shorter = fields.drop_last();
        assert forall|i: int| 0 <= i < shorter.len() implies is_one_line(#[trigger] shorter[i].1) by {
            assert(shorter[i] == fields[i]);
        }
        lemma_members_one_line(shorter);
        lemma_one_line_joined(json::members(shorter), ","@);
        let (name, value) = fields.last();
        assert(is_one_line(fields[fields.len() - 1].1));
        json::json_strings_stay_on_one_line(name);
        lemma_one_line_joined(earlier, json::string(name));
        lemma_one_line_joined(earlier + json::string(name), ":"@);
        lemma_one_line_joined(earlier + json::string(name) + ":"@, value);
    }
}

proof fn lemma_members(
    left: Seq<(Seq<char>, Seq<char>)>,
    right: Seq<(Seq<char>, Seq<char>)>,
    after_left: Seq<char>,
    after_right: Seq<char>,
)
    requires
        same_names(left, right),
        all_scalars(left),
        all_scalars(right),
        after_left.len() > 0,
        after_right.len() > 0,
        !text::is_decimal_digit(after_left[0]),
        !text::is_decimal_digit(after_right[0]),
        json::members(left) + after_left == json::members(right) + after_right,
    ensures
        left == right,
        after_left == after_right,
    decreases left.len(),
{
    if left.len() == 0 {
        assert(json::members(left) + after_left =~= after_left);
        assert(json::members(right) + after_right =~= after_right);
        assert(left =~= right);
    } else {
        reveal_strlit(",");
        reveal_strlit(":");
        let last = left.len() - 1;
        assert(left[last].0 == right[last].0);
        assert(is_scalar(left[last].1) && is_scalar(right[last].1));
        let name = json::string(left.last().0) + ":"@;
        let tail_left = name + left.last().1 + after_left;
        let tail_right = name + right.last().1 + after_right;
        if left.len() == 1 {
            assert(json::members(left) + after_left =~= tail_left);
            assert(json::members(right) + after_right =~= tail_right);
        } else {
            let shorter_left = left.drop_last();
            let shorter_right = right.drop_last();
            assert(json::members(left) + after_left =~= json::members(shorter_left) + (","@
                + tail_left));
            assert(json::members(right) + after_right =~= json::members(shorter_right) + (","@
                + tail_right));
            assert forall|i: int| 0 <= i < shorter_left.len() implies (#[trigger] shorter_left[i]).0
                == shorter_right[i].0 by {
                assert(shorter_left[i] == left[i]);
            }
            assert forall|i: int| 0 <= i < shorter_left.len() implies is_scalar(
                #[trigger] shorter_left[i].1,
            ) by {
                assert(shorter_left[i] == left[i]);
            }
            assert forall|i: int| 0 <= i < shorter_right.len() implies is_scalar(
                #[trigger] shorter_right[i].1,
            ) by {
                assert(shorter_right[i] == right[i]);
            }
            lemma_members(shorter_left, shorter_right, ","@ + tail_left, ","@ + tail_right);
            assert((","@ + tail_left).skip(1) =~= tail_left);
            assert((","@ + tail_right).skip(1) =~= tail_right);
        }
        assert(tail_left.skip(name.len() as int) =~= left.last().1 + after_left);
        assert(tail_right.skip(name.len() as int) =~= right.last().1 + after_right);
        lemma_scalar_prefix(left.last().1, right.last().1, after_left, after_right);
        assert forall|i: int| 0 <= i < left.len() implies left[i] == right[i] by {
            assert(left[i].0 == right[i].0);
            if i < last {
                assert(left.drop_last()[i] == right.drop_last()[i]);
            }
        }
        assert(left =~= right);
    }
}

pub proof fn lemma_scalar_prefix(
    left: Seq<char>,
    right: Seq<char>,
    after_left: Seq<char>,
    after_right: Seq<char>,
)
    requires
        is_scalar(left),
        is_scalar(right),
        after_left.len() > 0,
        after_right.len() > 0,
        !text::is_decimal_digit(after_left[0]),
        !text::is_decimal_digit(after_right[0]),
        left + after_left == right + after_right,
    ensures
        left == right,
        after_left == after_right,
{
    let whole = left + after_left;
    let left_string = exists|text: Seq<char>| left == #[trigger] json::string(text);
    let right_string = exists|text: Seq<char>| right == #[trigger] json::string(text);
    if left_string && right_string {
        let a = choose|text: Seq<char>| left == #[trigger] json::string(text);
        let b = choose|text: Seq<char>| right == #[trigger] json::string(text);
        json_strings_tell_texts_apart(a, b, after_left, after_right);
    } else if left_string {
        let n = choose|n: nat| right == #[trigger] text::decimal(n);
        text::lemma_decimal_round_trip(n);
        assert(left[0] == '"' && whole[0] == left[0] && whole[0] == right[0]);
        assert(text::is_decimal_digit(right[0]));
    } else if right_string {
        let n = choose|n: nat| left == #[trigger] text::decimal(n);
        text::lemma_decimal_round_trip(n);
        assert(right[0] == '"' && whole[0] == left[0] && whole[0] == right[0]);
        assert(text::is_decimal_digit(left[0]));
    } else {
        let n = choose|n: nat| left == #[trigger] text::decimal(n);
        let m = choose|n: nat| right == #[trigger] text::decimal(n);
        text::lemma_decimal_round_trip(n);
        text::lemma_decimal_round_trip(m);
        if left.len() < right.len() {
            assert(whole[left.len() as int] == after_left[0]);
            assert(whole[left.len() as int] == right[left.len() as int]);
        } else if right.len() < left.len() {
            assert(whole[right.len() as int] == left[right.len() as int]);
            assert((right + after_right)[right.len() as int] == after_right[0]);
        }
        assert(left =~= whole.take(left.len() as int));
        assert(right =~= (right + after_right).take(right.len() as int));
        assert(after_left =~= whole.skip(left.len() as int));
        assert(after_right =~= (right + after_right).skip(right.len() as int));
    }
}

proof fn lemma_rest_of_string(
    left: Seq<char>,
    right: Seq<char>,
    after_left: Seq<char>,
    after_right: Seq<char>,
)
    requires
        json::escaped_all(left) + seq!['"'] + after_left == json::escaped_all(right) + seq!['"']
            + after_right,
    ensures
        left == right,
        after_left == after_right,
    decreases left.len(),
{
    let rest_left = json::escaped_all(left) + seq!['"'] + after_left;
    let rest_right = json::escaped_all(right) + seq!['"'] + after_right;
    if left.len() > 0 {
        lemma_escaped_front(left);
        lemma_escaped_start(left[0]);
        assert(rest_left[0] == json::escaped(left[0])[0]);
    } else {
        assert(rest_left[0] == '"');
    }
    if right.len() > 0 {
        lemma_escaped_front(right);
        lemma_escaped_start(right[0]);
        assert(rest_right[0] == json::escaped(right[0])[0]);
    } else {
        assert(rest_right[0] == '"');
    }
    if left.len() == 0 {
        assert(left =~= right);
        assert(rest_left.skip(1) =~= after_left);
        assert(rest_right.skip(1) =~= after_right);
    } else {
        let more_left = json::escaped_all(left.drop_first()) + seq!['"'] + after_left;
        let more_right = json::escaped_all(right.drop_first()) + seq!['"'] + after_right;
        assert(rest_left =~= json::escaped(left[0]) + more_left);
        assert(rest_right =~= json::escaped(right[0]) + more_right);
        lemma_escaped_prefix(left[0], right[0], more_left, more_right);
        lemma_rest_of_string(left.drop_first(), right.drop_first(), after_left, after_right);
        assert(left =~= seq![left[0]] + left.drop_first());
        assert(right =~= seq![right[0]] + right.drop_first());
    }
}

proof fn lemma_escaped_front(text: Seq<char>)
    requires
        text.len() > 0,
    ensures
        json::escaped_all(text) == json::escaped(text[0]) + json::escaped_all(text.drop_first()),
    decreases text.len(),
{
    if text.len() == 1 {
        assert(json::escaped_all(text.drop_last()) =~= Seq::<char>::empty());
        assert(json::escaped_all(text.drop_first()) =~= Seq::<char>::empty());
        assert(json::escaped_all(text) =~= json::escaped(text[0]) + json::escaped_all(
            text.drop_first(),
        ));
    } else {
        lemma_escaped_front(text.drop_last());
        assert(text.drop_last().drop_first() =~= text.drop_first().drop_last());
        assert(text.drop_first().last() == text.last());
        assert(json::escaped_all(text) =~= json::escaped(text[0]) + json::escaped_all(
            text.drop_first(),
        ));
    }
}

/// What stands for a character does not start with a quote, and starts with a backslash unless it is
/// the character itself.
proof fn lemma_escaped_start(ch: char)
    ensures
        json::escaped(ch).len() > 0,
        json::escaped(ch)[0] != '"',
        json::escaped(ch)[0] == '\\' || json::escaped(ch) == seq![ch],
{
    reveal_strlit("\\\"");
    reveal_strlit("\\\\");
    reveal_strlit("\\b");
    reveal_strlit("\\f");
    reveal_strlit("\\n");
    reveal_strlit("\\r");
    reveal_strlit("\\t");
    reveal_strlit("\\u");
}

proof fn lemma_escaped_prefix(left: char, right: char, after_left: Seq<char>, after_right: Seq<char>)
    requires
        json::escaped(left) + after_left == json::escaped(right) + after_right,
    ensures
        left == right,
        after_left == after_right,
{
    reveal_strlit("\\\"");
    reveal_strlit("\\\\");
    reveal_strlit("\\b");
    reveal_strlit("\\f");
    reveal_strlit("\\n");
    reveal_strlit("\\r");
    reveal_strlit("\\t");
    reveal_strlit("\\u");
    let a = json::escaped(left);
    let b = json::escaped(right);
    let whole = a + after_left;
    let code_left = text::hex(left as u32 as nat, 4);
    let code_right = text::hex(right as u32 as nat, 4);
    lemma_hex_length(left as u32 as nat, 4);
    lemma_hex_length(right as u32 as nat, 4);
    lemma_escaped_start(left);
    lemma_escaped_start(right);
    assert(whole[0] == a[0] && whole[0] == b[0]);
    if a.len() > 1 {
        assert(a[0] == '\\');
        assert(whole[1] == a[1]);
    }
    if b.len() > 1 {
        assert(b[0] == '\\');
        assert(whole[1] == b[1]);
    }
    if a.len() > 1 && a[1] == 'u' {
        assert(a == "\\u"@ + code_left);
        assert(b == "\\u"@ + code_right);
        assert(code_left =~= whole.subrange(2, 6));
        assert(code_right =~= (b + after_right).subrange(2, 6));
        lemma_code(left, right);
    }
    assert(left == right);
    assert(after_left =~= whole.skip(a.len() as int));
    assert(after_right =~= (b + after_right).skip(b.len() as int));
}

pub proof fn lemma_hex_length(n: nat, width: nat)
    ensures
        text::hex(n, width).len() == width,
    decreases width,
{
    if width > 0 {
        lemma_hex_length(n / 16, (width - 1) as nat);
    }
}

/// Control characters with the same code are equal.
pub proof fn lemma_code(left: char, right: char)
    requires
        json::is_control(left),
        json::is_control(right),
        text::hex(left as u32 as nat, 4) == text::hex(right as u32 as nat, 4),
    ensures
        left == right,
{
    let n = left as u32 as nat;
    let m = right as u32 as nat;
    reveal_with_fuel(text::hex, 5);
    assert(text::hex(n, 4).last() == text::hex_digit(n % 16));
    assert(text::hex(m, 4).last() == text::hex_digit(m % 16));
    assert(text::hex(n, 4).drop_last() =~= text::hex(n / 16, 3));
    assert(text::hex(m, 4).drop_last() =~= text::hex(m / 16, 3));
    assert(text::hex(n / 16, 3).last() == text::hex_digit((n / 16) % 16));
    assert(text::hex(m / 16, 3).last() == text::hex_digit((m / 16) % 16));
}

} // verus!
