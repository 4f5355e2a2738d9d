use crate::manifest::{escape_char, escape_text, spec_json_string};
use crate::text::{decimal, is_control, join};
use vstd::prelude::*;

verus! {

/// A JSON value.
pub enum JsonValue {
    Null,
    Bool(bool),
    Number(nat),
    Str(Seq<char>),
    Array(Seq<JsonValue>),
    Object(Seq<(Seq<char>, JsonValue)>),
}

/// `2 * depth` spaces.
pub open spec fn indent(depth: nat) -> Seq<char> {
    Seq::new(2 * depth, |i: int| ' ')
}

/// A JSON value written out with two spaces of indentation per level: each
/// array item and object member on a line of its own, members as
/// `"key": value`, separated by `,`.
pub open spec fn render(v: JsonValue, depth: nat) -> Seq<char>
    decreases v, 0nat,
{
    match v {
        JsonValue::Null => seq!['n', 'u', 'l', 'l'],
        JsonValue::Bool(b) => if b {
            seq!['t', 'r', 'u', 'e']
        } else {
            seq!['f', 'a', 'l', 's', 'e']
        },
        JsonValue::Number(n) => decimal(n),
        JsonValue::Str(s) => spec_json_string(s),
        JsonValue::Array(items) => seq!['[', '\n'] + render_items(items, depth) + seq!['\n']
            + indent(depth) + seq![']'],
        JsonValue::Object(members) => seq!['{', '\n'] + render_members(members, depth) + seq![
            '\n',
        ] + indent(depth) + seq!['}'],
    }
}

/// The items of an array at `depth`, one per line, separated by `,`.
pub open spec fn render_items(items: Seq<JsonValue>, depth: nat) -> Seq<char>
    decreases items, 1nat,
{
    if items.len() == 0 {
        Seq::empty()
    } else if items.len() == 1 {
        indent(depth + 1) + render(items[0], depth + 1)
    } else {
        render_items(items.subrange(0, items.len() - 1), depth) + seq![',', '\n'] + indent(
            depth + 1,
        ) + render(items[items.len() - 1], depth + 1)
    }
}

/// One member of an object at `depth`: `"key": value`.
pub open spec fn render_member(key: Seq<char>, value: JsonValue, depth: nat) -> Seq<char>
    decreases value, 1nat,
{
    indent(depth + 1) + spec_json_string(key) + seq![':', ' '] + render(value, depth + 1)
}

/// The members of an object at `depth`, one per line, separated by `,`.
pub open spec fn render_members(members: Seq<(Seq<char>, JsonValue)>, depth: nat) -> Seq<char>
    decreases members, 1nat,
{
    if members.len() == 0 {
        Seq::empty()
    } else if members.len() == 1 {
        render_member(members[0].0, members[0].1, depth)
    } else {
        render_members(members.subrange(0, members.len() - 1), depth) + seq![',', '\n']
            + render_member(members[members.len() - 1].0, members[members.len() - 1].1, depth)
    }
}

/// Text that JSON strings hold as it stands: no `"`, `\\` or control character.
pub open spec fn is_plain_text(s: Seq<char>) -> bool {
    forall|i: int| 0 <= i < s.len() ==> #[trigger] s[i] != '"' && s[i] != '\\' && !is_control(s[i])
}

/// Plain text is written inside a JSON string unchanged.
pub proof fn lemma_plain_text_unescaped(s: Seq<char>)
    requires
        is_plain_text(s),
    ensures
        escape_text(s) == s,
        spec_json_string(s) == seq!['"'] + s + seq!['"'],
    decreases s.len(),
{
    if s.len() > 0 {
        assert(is_plain_text(s.drop_first())) by {
            assert forall|i: int| 0 <= i < s.drop_first().len() implies #[trigger] s.drop_first()[i]
                != '"' && s.drop_first()[i] != '\\' && !is_control(s.drop_first()[i]) by {
                assert(s.drop_first()[i] == s[i + 1]);
            }
        }
        lemma_plain_text_unescaped(s.drop_first());
        assert(s[0] != '"' && s[0] != '\\' && !is_control(s[0]));
        assert(escape_char(s[0]) == seq![s[0]]);
        assert(seq![s[0]] + s.drop_first() =~= s);
    } else {
        assert(escape_text(s) =~= s);
    }
}

} // verus!
