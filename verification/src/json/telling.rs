//! What objects with numbers, texts, truth values and smaller objects in them tell apart.

use vstd::prelude::*;

use crate::json;
use crate::json::reading::is_scalar;
use crate::text;

verus! {

/// Whether a text is a JSON string, a number, a truth value or `null`.
pub open spec fn is_flat(value: Seq<char>) -> bool {
    ||| is_scalar(value)
    ||| value == "true"@
    ||| value == "false"@
    ||| value == "null"@
}

/// Whether every value is flat.
pub open spec fn all_flat(fields: Seq<(Seq<char>, Seq<char>)>) -> bool {
    forall|i: int| 0 <= i < fields.len() ==> is_flat(#[trigger] fields[i].1)
}

/// Whether a value is flat or an object of flat values.
pub open spec fn is_value(value: Seq<char>) -> bool {
    ||| is_flat(value)
    ||| exists|fields: Seq<(Seq<char>, Seq<char>)>|
        all_flat(fields) && value == #[trigger] json::object(fields)
}

/// Whether two values can be told apart wherever they stand in an object.
pub open spec fn comparable(left: Seq<char>, right: Seq<char>) -> bool {
    left == right || (is_value(left) && is_value(right))
}

/// Whether a text goes on after a value in an object.
pub open spec fn goes_on(after: Seq<char>) -> bool {
    after.len() > 0 && (after[0] == ',' || after[0] == '}')
}

/// Objects under the same names whose leading values can be told apart are equal only where those
/// values are, whatever stands in the members that follow.
pub proof fn objects_tell_leading_values_apart(
    left: Seq<(Seq<char>, Seq<char>)>,
    right: Seq<(Seq<char>, Seq<char>)>,
    count: int,
)
    requires
        0 <= count < left.len(),
        left.len() == right.len(),
        forall|i: int| 0 <= i <= count ==> (#[trigger] left[i]).0 == right[i].0,
        forall|i: int| 0 <= i < count ==> comparable((#[trigger] left[i]).1, right[i].1),
        json::object(left) == json::object(right),
    ensures
        forall|i: int| 0 <= i < count ==> (#[trigger] left[i]).1 == right[i].1,
{
    lemma_opened(left, right);
    lemma_leading(left, right, "}"@, "}"@, count);
}

/// Objects under the same names whose values can be told apart are equal only where every value is.
pub proof fn objects_tell_all_values_apart(
    left: Seq<(Seq<char>, Seq<char>)>,
    right: Seq<(Seq<char>, Seq<char>)>,
)
    requires
        left.len() == right.len(),
        forall|i: int| 0 <= i < left.len() ==> (#[trigger] left[i]).0 == right[i].0,
        forall|i: int| 0 <= i < left.len() ==> comparable((#[trigger] left[i]).1, right[i].1),
        json::object(left) == json::object(right),
    ensures
        left == right,
{
    lemma_opened(left, right);
    if left.len() > 0 {
        let last = left.len() - 1;
        lemma_leading(left, right, "}"@, "}"@, last);
        assert(comparable(left[last].1, right[last].1));
        lemma_last(left, right);
        assert forall|i: int| 0 <= i < left.len() implies left[i] == right[i] by {
            assert(left[i].0 == right[i].0);
            if i < last {
                assert(left[i].1 == right[i].1);
            }
        }
    }
    assert(left =~= right);
}

/// Objects of flat values are equal only where they have the same members, whatever their names.
pub proof fn flat_objects_tell_members_apart(
    left: Seq<(Seq<char>, Seq<char>)>,
    right: Seq<(Seq<char>, Seq<char>)>,
)
    requires
        all_flat(left),
        all_flat(right),
        json::object(left) == json::object(right),
    ensures
        left == right,
{
    lemma_opened(left, right);
    reveal_strlit("}");
    lemma_flat_members(left, right, "}"@, "}"@);
}

proof fn lemma_opened(left: Seq<(Seq<char>, Seq<char>)>, right: Seq<(Seq<char>, Seq<char>)>)
    requires
        json::object(left) == json::object(right),
    ensures
        json::members(left) + "}"@ == json::members(right) + "}"@,
        goes_on("}"@),
{
    reveal_strlit("{");
    reveal_strlit("}");
    assert(json::object(left).skip(1) =~= json::members(left) + "}"@);
    assert(json::object(right).skip(1) =~= json::members(right) + "}"@);
}

/// The first member, and what follows it.
pub open spec fn after_first(fields: Seq<(Seq<char>, Seq<char>)>) -> Seq<char> {
    if fields.len() == 1 {
        Seq::empty()
    } else {
        ","@ + json::members(fields.drop_first())
    }
}

proof fn lemma_members_front(fields: Seq<(Seq<char>, Seq<char>)>)
    requires
        fields.len() > 0,
    ensures
        json::members(fields) == json::string(fields[0].0) + (":"@ + (fields[0].1 + after_first(
            fields,
        ))),
    decreases fields.len(),
{
    let (name, value) = fields[0];
    if fields.len() == 1 {
        assert(json::members(fields) =~= json::string(name) + (":"@ + (value + after_first(fields))));
    } else {
        let shorter = fields.drop_last();
        lemma_members_front(shorter);
        let rest = fields.drop_first();
        assert(rest.last() == fields.last());
        assert(rest.drop_last() =~= shorter.drop_first());
        let last = json::string(fields.last().0) + ":"@ + fields.last().1;
        if fields.len() == 2 {
            assert(json::members(rest) =~= last);
        }
        assert(after_first(fields) =~= after_first(shorter) + ","@ + last);
        assert(json::members(fields) =~= json::string(name) + (":"@ + (value + after_first(fields))));
    }
}

proof fn lemma_true_false_null()
    ensures
        "true"@ == seq!['t', 'r', 'u', 'e'],
        "false"@ == seq!['f', 'a', 'l', 's', 'e'],
        "null"@ == seq!['n', 'u', 'l', 'l'],
{
    reveal_strlit("true");
    reveal_strlit("false");
    reveal_strlit("null");
    assert("true"@ =~= seq!['t', 'r', 'u', 'e']);
    assert("false"@ =~= seq!['f', 'a', 'l', 's', 'e']);
    assert("null"@ =~= seq!['n', 'u', 'l', 'l']);
}

proof fn lemma_scalar_start(value: Seq<char>)
    requires
        is_scalar(value),
    ensures
        value.len() > 0,
        value[0] == '"' || text::is_decimal_digit(value[0]),
{
    if exists|text: Seq<char>| value == #[trigger] json::string(text) {
    } else {
        let n = choose|n: nat| value == #[trigger] text::decimal(n);
        text::lemma_decimal_round_trip(n);
    }
}

proof fn lemma_flat_prefix(left: Seq<char>, right: Seq<char>, a: Seq<char>, b: Seq<char>)
    requires
        is_flat(left),
        is_flat(right),
        goes_on(a),
        goes_on(b),
        left + a == right + b,
    ensures
        left == right,
        a == b,
{
    lemma_true_false_null();
    if is_scalar(left) {
        lemma_scalar_start(left);
    }
    if is_scalar(right) {
        lemma_scalar_start(right);
    }
    assert((left + a)[0] == left[0]);
    assert((right + b)[0] == right[0]);
    if is_scalar(left) {
        assert(is_scalar(right));
        json::reading::lemma_scalar_prefix(left, right, a, b);
    } else {
        assert(!is_scalar(right));
        assert(left == right);
        assert(a =~= (left + a).skip(left.len() as int));
        assert(b =~= (right + b).skip(right.len() as int));
    }
}

proof fn lemma_flat_members(
    left: Seq<(Seq<char>, Seq<char>)>,
    right: Seq<(Seq<char>, Seq<char>)>,
    a: Seq<char>,
    b: Seq<char>,
)
    requires
        all_flat(left),
        all_flat(right),
        a.len() > 0 && a[0] == '}',
        b.len() > 0 && b[0] == '}',
        json::members(left) + a == json::members(right) + b,
    ensures
        left == right,
        a == b,
    decreases left.len(),
{
    reveal_strlit(",");
    reveal_strlit(":");
    let whole = json::members(left) + a;
    if left.len() > 0 {
        lemma_members_front(left);
        assert(whole[0] == '"');
    } else {
        assert(whole =~= a);
    }
    if right.len() > 0 {
        lemma_members_front(right);
        assert((json::members(right) + b)[0] == '"');
    } else {
        assert(json::members(right) + b =~= b);
    }
    if left.len() == 0 {
        assert(left =~= right);
    } else {
        let more_left = after_first(left) + a;
        let more_right = after_first(right) + b;
        assert(whole =~= json::string(left[0].0) + (":"@ + (left[0].1 + more_left)));
        assert(json::members(right) + b =~= json::string(right[0].0) + (":"@ + (right[0].1
            + more_right)));
        json::reading::json_strings_tell_texts_apart(
            left[0].0,
            right[0].0,
            ":"@ + (left[0].1 + more_left),
            ":"@ + (right[0].1 + more_right),
        );
        assert((":"@ + (left[0].1 + more_left)).skip(1) =~= left[0].1 + more_left);
        assert((":"@ + (right[0].1 + more_right)).skip(1) =~= right[0].1 + more_right);
        assert(is_flat(left[0].1) && is_flat(right[0].1));
        lemma_flat_prefix(left[0].1, right[0].1, more_left, more_right);
        if left.len() == 1 {
            assert(more_left =~= a);
        }
        if right.len() == 1 {
            assert(more_right =~= b);
        }
        assert(more_left[0] == more_right[0]);
        if left.len() > 1 {
            let rest_left = left.drop_first();
            let rest_right = right.drop_first();
            assert(more_left.skip(1) =~= json::members(rest_left) + a);
            assert(more_right.skip(1) =~= json::members(rest_right) + b);
            assert forall|i: int| 0 <= i < rest_left.len() implies is_flat(
                #[trigger] rest_left[i].1,
            ) by {
                assert(rest_left[i] == left[i + 1]);
            }
            assert forall|i: int| 0 <= i < rest_right.len() implies is_flat(
                #[trigger] rest_right[i].1,
            ) by {
                assert(rest_right[i] == right[i + 1]);
            }
            lemma_flat_members(rest_left, rest_right, a, b);
            assert(left =~= seq![left[0]] + rest_left);
            assert(right =~= seq![right[0]] + rest_right);
        }
        assert(left =~= right);
    }
}

proof fn lemma_value_prefix(left: Seq<char>, right: Seq<char>, a: Seq<char>, b: Seq<char>)
    requires
        comparable(left, right),
        goes_on(a),
        goes_on(b),
        left + a == right + b,
    ensures
        left == right,
        a == b,
{
    reveal_strlit("{");
    reveal_strlit("}");
    lemma_true_false_null();
    if left == right {
        assert(a =~= (left + a).skip(left.len() as int));
        assert(b =~= (right + b).skip(right.len() as int));
    } else {
        if is_scalar(left) {
            lemma_scalar_start(left);
        }
        if is_scalar(right) {
            lemma_scalar_start(right);
        }
        assert((left + a)[0] == left[0]);
        assert((right + b)[0] == right[0]);
        if is_flat(left) {
            assert(left[0] != '{');
            assert(is_flat(right));
            lemma_flat_prefix(left, right, a, b);
        } else {
            assert(left[0] == '{');
            assert(!is_flat(right));
            let f = choose|fields: Seq<(Seq<char>, Seq<char>)>|
                all_flat(fields) && left == #[trigger] json::object(fields);
            let g = choose|fields: Seq<(Seq<char>, Seq<char>)>|
                all_flat(fields) && right == #[trigger] json::object(fields);
            assert((left + a).skip(1) =~= json::members(f) + ("}"@ + a));
            assert((right + b).skip(1) =~= json::members(g) + ("}"@ + b));
            lemma_flat_members(f, g, "}"@ + a, "}"@ + b);
            assert(("}"@ + a).skip(1) =~= a);
            assert(("}"@ + b).skip(1) =~= b);
        }
    }
}

proof fn lemma_leading(
    left: Seq<(Seq<char>, Seq<char>)>,
    right: Seq<(Seq<char>, Seq<char>)>,
    a: Seq<char>,
    b: Seq<char>,
    count: int,
)
    requires
        0 <= count < left.len(),
        left.len() == right.len(),
        forall|i: int| 0 <= i <= count ==> (#[trigger] left[i]).0 == right[i].0,
        forall|i: int| 0 <= i < count ==> comparable((#[trigger] left[i]).1, right[i].1),
        goes_on(a),
        goes_on(b),
        json::members(left) + a == json::members(right) + b,
    ensures
        forall|i: int| 0 <= i < count ==> (#[trigger] left[i]).1 == right[i].1,
        json::members(left.skip(count)) + a == json::members(right.skip(count)) + b,
    decreases count,
{
    if count == 0 {
        assert(left.skip(0) =~= left);
        assert(right.skip(0) =~= right);
    } else {
        reveal_strlit(",");
        reveal_strlit(":");
        lemma_members_front(left);
        lemma_members_front(right);
        let more_left = after_first(left) + a;
        let more_right = after_first(right) + b;
        let name = json::string(left[0].0) + ":"@;
        assert(left[0].0 == right[0].0);
        assert((json::members(left) + a).skip(name.len() as int) =~= left[0].1 + more_left);
        assert((json::members(right) + b).skip(name.len() as int) =~= right[0].1 + more_right);
        assert(comparable(left[0].1, right[0].1));
        lemma_value_prefix(left[0].1, right[0].1, more_left, more_right);
        let rest_left = left.drop_first();
        let rest_right = right.drop_first();
        assert(more_left.skip(1) =~= json::members(rest_left) + a);
        assert(more_right.skip(1) =~= json::members(rest_right) + b);
        assert forall|i: int| 0 <= i <= count - 1 implies (#[trigger] rest_left[i]).0
            == rest_right[i].0 by {
            assert(rest_left[i] == left[i + 1]);
        }
        assert forall|i: int| 0 <= i < count - 1 implies comparable(
            (#[trigger] rest_left[i]).1,
            rest_right[i].1,
        ) by {
            assert(rest_left[i] == left[i + 1]);
        }
        lemma_leading(rest_left, rest_right, a, b, count - 1);
        assert(rest_left.skip(count - 1) =~= left.skip(count));
        assert(rest_right.skip(count - 1) =~= right.skip(count));
        assert forall|i: int| 0 <= i < count implies (#[trigger] left[i]).1 == right[i].1 by {
            if i > 0 {
                assert(rest_left[i - 1].1 == rest_right[i - 1].1);
            }
        }
    }
}

proof fn lemma_last(left: Seq<(Seq<char>, Seq<char>)>, right: Seq<(Seq<char>, Seq<char>)>)
    requires
        left.len() > 0,
        left.len() == right.len(),
        left.last().0 == right.last().0,
        comparable(left.last().1, right.last().1),
        json::members(left.skip(left.len() - 1)) + "}"@ == json::members(
            right.skip(left.len() - 1),
        ) + "}"@,
    ensures
        left.last() == right.last(),
{
    reveal_strlit(":");
    reveal_strlit("}");
    let l = left.skip(left.len() - 1);
    let r = right.skip(left.len() - 1);
    lemma_members_front(l);
    lemma_members_front(r);
    let name = json::string(l[0].0) + ":"@;
    assert((json::members(l) + "}"@).skip(name.len() as int) =~= l[0].1 + "}"@);
    assert((json::members(r) + "}"@).skip(name.len() as int) =~= r[0].1 + "}"@);
    lemma_value_prefix(l[0].1, r[0].1, "}"@, "}"@);
}

} // verus!
