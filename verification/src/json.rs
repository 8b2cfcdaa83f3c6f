//! One-line JSON objects.

use vstd::prelude::*;

use crate::text;
use crate::text::{decimal_string, push_hex};

pub mod reading;
pub mod telling;

verus! {

/// Whether a character is a control character: the C0 controls, DEL, and the C1 controls.
pub open spec fn is_control(ch: char) -> bool {
    (ch as u32) < 0x20 || 0x7f <= ch as u32 <= 0x9f
}

/// Whether a character is a control character.
pub fn is_control_char(ch: char) -> (control: bool)
    ensures
        control == is_control(ch),
{
    let code: u32 = ch as u32;
    code < 0x20 || (0x7f <= code && code <= 0x9f)
}

/// A character as it stands inside a JSON string.
pub open spec fn escaped(ch: char) -> Seq<char> {
    if ch == '"' {
        "\\\""@
    } else if ch == '\\' {
        "\\\\"@
    } else if ch == '\u{08}' {
        "\\b"@
    } else if ch == '\u{0c}' {
        "\\f"@
    } else if ch == '\n' {
        "\\n"@
    } else if ch == '\r' {
        "\\r"@
    } else if ch == '\t' {
        "\\t"@
    } else if is_control(ch) {
        "\\u"@ + text::hex(ch as u32 as nat, 4)
    } else {
        seq![ch]
    }
}

/// The characters of a JSON string between its quotes.
pub open spec fn escaped_all(text: Seq<char>) -> Seq<char>
    decreases text.len(),
{
    if text.len() == 0 {
        Seq::empty()
    } else {
        escaped_all(text.drop_last()) + escaped(text.last())
    }
}

/// A text as a JSON string.
pub open spec fn string(text: Seq<char>) -> Seq<char> {
    seq!['"'] + escaped_all(text) + seq!['"']
}

/// A truth value in JSON.
pub open spec fn boolean(value: bool) -> Seq<char> {
    if value {
        "true"@
    } else {
        "false"@
    }
}

/// The members of an object, each a name and a JSON value, with commas between them.
pub open spec fn members(fields: Seq<(Seq<char>, Seq<char>)>) -> Seq<char>
    decreases fields.len(),
{
    if fields.len() == 0 {
        Seq::empty()
    } else {
        (if fields.len() == 1 {
            Seq::empty()
        } else {
            members(fields.drop_last()) + ","@
        }) + string(fields.last().0) + ":"@ + fields.last().1
    }
}

/// An object with these members.
pub open spec fn object(fields: Seq<(Seq<char>, Seq<char>)>) -> Seq<char> {
    "{"@ + members(fields) + "}"@
}

/// Appends a text as a JSON string.
pub fn push_json_string(output: &mut String, value: &str)
    ensures
        final(output)@ == old(output)@ + string(value@),
{
    let ghost before = output@;
    output.push('"');
    assert(output@ =~= before + seq!['"'] + escaped_all(value@.take(0)));
    for ch in it: value.chars()
        invariant
            it.seq() == value@,
            output@ == before + seq!['"'] + escaped_all(value@.take(it.index() as int)),
    {
        let ghost index = it.index() as int;
        proof {
            let longer = value@.take(index + 1);
            assert(longer.drop_last() =~= value@.take(index));
            assert(longer.last() == ch);
        }
        let ghost listed = output@;
        if ch == '"' {
            output.append("\\\"");
        } else if ch == '\\' {
            output.append("\\\\");
        } else if ch == '\u{08}' {
            output.append("\\b");
        } else if ch == '\u{0c}' {
            output.append("\\f");
        } else if ch == '\n' {
            output.append("\\n");
        } else if ch == '\r' {
            output.append("\\r");
        } else if ch == '\t' {
            output.append("\\t");
        } else if is_control_char(ch) {
            output.append("\\u");
            push_hex(output, ch as u32 as u64, 4);
            assert(output@ =~= listed + escaped(ch));
        } else {
            output.push(ch);
            assert(output@ =~= listed + escaped(ch));
        }
        assert(output@ =~= before + seq!['"'] + (escaped_all(value@.take(index)) + escaped(ch)));
    }
    assert(value@.take(value@.len() as int) =~= value@);
    output.push('"');
    assert(output@ =~= before + string(value@));
}

/// A JSON string holds no control character, so an object of such strings is one line.
pub proof fn json_strings_stay_on_one_line(text: Seq<char>)
    ensures
        forall|i: int| 0 <= i < string(text).len() ==> !is_control(#[trigger] string(text)[i]),
{
    lemma_escaped_all(text);
    let whole = string(text);
    let inner = escaped_all(text);
    assert forall|i: int| 0 <= i < whole.len() implies !is_control(#[trigger] whole[i]) by {
        if 1 <= i < whole.len() - 1 {
            assert(whole[i] == inner[i - 1]);
        }
    }
}

proof fn lemma_escaped_all(text: Seq<char>)
    ensures
        forall|i: int|
            0 <= i < escaped_all(text).len() ==> !is_control(#[trigger] escaped_all(text)[i]),
    decreases text.len(),
{
    if text.len() > 0 {
        lemma_escaped_all(text.drop_last());
        lemma_escaped(text.last());
        let earlier = escaped_all(text.drop_last());
        let last = escaped(text.last());
        assert forall|i: int| 0 <= i < escaped_all(text).len() implies !is_control(
            #[trigger] escaped_all(text)[i],
        ) by {
            if i < earlier.len() {
                assert(escaped_all(text)[i] == earlier[i]);
            } else {
                assert(escaped_all(text)[i] == last[i - earlier.len()]);
            }
        }
    }
}

proof fn lemma_escaped(ch: char)
    ensures
        forall|i: int| 0 <= i < escaped(ch).len() ==> !is_control(#[trigger] escaped(ch)[i]),
{
    reveal_strlit("\\\"");
    reveal_strlit("\\\\");
    reveal_strlit("\\b");
    reveal_strlit("\\f");
    reveal_strlit("\\n");
    reveal_strlit("\\r");
    reveal_strlit("\\t");
    reveal_strlit("\\u");
    lemma_hex_is_plain(ch as u32 as nat, 4);
    let code = text::hex(ch as u32 as nat, 4);
    assert forall|i: int| 0 <= i < escaped(ch).len() implies !is_control(
        #[trigger] escaped(ch)[i],
    ) by {
        if escaped(ch) == "\\u"@ + code && i >= 2 {
            assert(escaped(ch)[i] == code[i - 2]);
        }
    }
}

proof fn lemma_hex_is_plain(n: nat, width: nat)
    ensures
        forall|i: int|
            0 <= i < text::hex(n, width).len() ==> !is_control(#[trigger] text::hex(n, width)[i]),
    decreases width,
{
    if width > 0 {
        lemma_hex_is_plain(n / 16, (width - 1) as nat);
        let shorter = text::hex(n / 16, (width - 1) as nat);
        let digit = text::hex_digit(n % 16);
        assert(0x30 <= digit as u32 <= 0x66);
        assert forall|i: int| 0 <= i < text::hex(n, width).len() implies !is_control(
            #[trigger] text::hex(n, width)[i],
        ) by {
            if i < shorter.len() {
                assert(text::hex(n, width)[i] == shorter[i]);
            } else {
                assert(text::hex(n, width)[i] == digit);
            }
        }
    }
}

/// An object under construction.
pub struct JsonObject {
    output: String,
    empty: bool,
    fields: Ghost<Seq<(Seq<char>, Seq<char>)>>,
}

impl View for JsonObject {
    type V = Seq<(Seq<char>, Seq<char>)>;

    /// The members so far.
    closed spec fn view(&self) -> Seq<(Seq<char>, Seq<char>)> {
        self.fields@
    }
}

impl JsonObject {
    /// Whether the text holds the members.
    pub closed spec fn wf(self) -> bool {
        &&& self.output@ == "{"@ + members(self.fields@)
        &&& self.empty == (self.fields@.len() == 0)
    }

    /// An object without members.
    pub fn new() -> (object: Self)
        ensures
            object.wf(),
            object@ == Seq::<(Seq<char>, Seq<char>)>::empty(),
    {
        let object = JsonObject {
            output: "{".to_owned(),
            empty: true,
            fields: Ghost(Seq::empty()),
        };
        assert(object.output@ =~= "{"@ + members(object.fields@));
        object
    }

    /// Adds a member whose value is JSON already.
    pub fn raw(&mut self, name: &str, value: &str)
        requires
            old(self).wf(),
        ensures
            final(self).wf(),
            final(self)@ == old(self)@.push((name@, value@)),
    {
        let ghost before = self.fields@;
        if !self.empty {
            self.output.append(",");
        }
        push_json_string(&mut self.output, name);
        self.output.append(":");
        self.output.append(value);
        self.empty = false;
        proof {
            let after = before.push((name@, value@));
            self.fields@ = after;
            assert(after.drop_last() =~= before);
            assert(after.last() == (name@, value@));
            assert(self.output@ =~= "{"@ + members(after));
        }
    }

    /// Adds a text.
    pub fn text(&mut self, name: &str, value: &str)
        requires
            old(self).wf(),
        ensures
            final(self).wf(),
            final(self)@ == old(self)@.push((name@, string(value@))),
    {
        let mut rendered = String::new();
        push_json_string(&mut rendered, value);
        assert(rendered@ =~= string(value@));
        self.raw(name, rendered.as_str());
    }

    /// Adds a number.
    pub fn number(&mut self, name: &str, value: u64)
        requires
            old(self).wf(),
        ensures
            final(self).wf(),
            final(self)@ == old(self)@.push((name@, text::decimal(value as nat))),
    {
        self.raw(name, decimal_string(value).as_str());
    }

    /// Adds a truth value.
    pub fn flag(&mut self, name: &str, value: bool)
        requires
            old(self).wf(),
        ensures
            final(self).wf(),
            final(self)@ == old(self)@.push((name@, boolean(value))),
    {
        self.raw(
            name,
            if value {
                "true"
            } else {
                "false"
            },
        );
    }

    /// The object's text.
    pub fn finish(self) -> (output: String)
        requires
            self.wf(),
        ensures
            output@ == object(self@),
    {
        let mut output = self.output;
        output.append("}");
        output
    }
}

} // verus!
