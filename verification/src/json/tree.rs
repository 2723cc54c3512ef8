//! JSON values as trees. An object keeps all its members in order, also where
//! a key comes more than once.
//!
//! The tree of `serde_json` has one value for each key. So a tree is put
//! together here out of the values that `serde_json` finds in a text, keys
//! among them; only the marks between them are stepped over.

use vstd::prelude::*;

use crate::json;
use crate::json::{json_at, open_json, JsonNode, JsonNodeView};
use crate::text::same_text;

verus! {

/// A JSON value.
#[derive(Debug, PartialEq)]
pub enum Json {
    Null,
    Bool(bool),
    /// A number: its value where that is a natural number that fits, and its
    /// text.
    Number { whole: Option<u64>, text: String },
    Text(String),
    Array(Vec<Json>),
    /// An object, by its keys and what stands under each.
    Object(Vec<(String, Json)>),
}

/// The mathematical value of a [`Json`].
pub enum JsonView {
    Null,
    Bool(bool),
    Number { whole: Option<u64>, text: Seq<char> },
    Text(Seq<char>),
    Array(Seq<JsonView>),
    Object(Seq<(Seq<char>, JsonView)>),
}

impl Json {
    /// The mathematical value.
    pub open spec fn value(self) -> JsonView
        decreases self,
    {
        match self {
            Json::Null => JsonView::Null,
            Json::Bool(b) => JsonView::Bool(b),
            Json::Number { whole, text } => JsonView::Number { whole, text: text@ },
            Json::Text(text) => JsonView::Text(text@),
            Json::Array(items) => JsonView::Array(
                Seq::new(
                    items@.len(),
                    |i: int|
                        if 0 <= i < items@.len() {
                            items@[i].value()
                        } else {
                            JsonView::Null
                        },
                ),
            ),
            Json::Object(members) => JsonView::Object(
                Seq::new(
                    members@.len(),
                    |i: int|
                        if 0 <= i < members@.len() {
                            (members@[i].0@, members@[i].1.value())
                        } else {
                            (Seq::empty(), JsonView::Null)
                        },
                ),
            ),
        }
    }
}

/// The space that JSON allows between values and marks.
pub open spec fn space(c: char) -> bool {
    c == ' ' || c == '\t' || c == '\n' || c == '\r'
}

/// A text without the space in front.
pub open spec fn past_space(text: Seq<char>) -> Seq<char>
    decreases text.len(),
{
    if text.len() > 0 && space(text[0]) {
        past_space(text.skip(1))
    } else {
        text
    }
}

/// A text is no longer without the space in front.
pub proof fn lemma_past_space(text: Seq<char>)
    ensures
        past_space(text).len() <= text.len(),
    decreases text.len(),
{
    if text.len() > 0 {
        lemma_past_space(text.skip(1));
    }
}

/// What comes behind a mark, if that is what comes first behind any space.
pub open spec fn past_mark(text: Seq<char>, mark: char) -> Option<Seq<char>> {
    let behind = past_space(text);
    if behind.len() > 0 && behind[0] == mark {
        Some(behind.skip(1))
    } else {
        None
    }
}

/// What comes behind a mark in `text`, if that is what comes first.
fn step_over<'a>(text: &'a str, mark: char) -> (r: Option<&'a str>)
    ensures
        match r {
            Some(rest) => past_mark(text@, mark) == Some(rest@) && rest@.len() < text@.len(),
            None => past_mark(text@, mark) is None,
        },
{
    let len: usize = text.unicode_len();
    let mut i: usize = 0;
    assert(text@.skip(0) == text@);
    while i < len
        invariant
            i <= len,
            len == text@.len(),
            past_space(text@) == past_space(text@.skip(i as int)),
        decreases len - i,
    {
        let c: char = text.get_char(i);
        assert(text@.skip(i as int)[0] == c);
        assert(text@.skip(i as int).skip(1) == text@.skip(i + 1));
        if c != ' ' && c != '\t' && c != '\n' && c != '\r' {
            if c != mark {
                return None;
            }
            let rest: &str = text.substring_char(i + 1, len);
            assert(rest@ =~= text@.skip(i + 1));
            return Some(rest);
        }
        i = i + 1;
    }
    None
}

/// The tree of the value that a text opens with, and what comes behind it.
pub open spec fn tree_from(text: Seq<char>) -> Option<(JsonView, Seq<char>)>
    decreases text.len(), 1nat,
{
    match json::json_opening(text) {
        Ok((nodes, len)) => {
            let rest = text.skip(len as int);
            proof {
                lemma_past_space(text);
            }
            if len == 0 || len > text.len() || !nodes.contains_key(""@) {
                None
            } else {
                match nodes[""@] {
                    JsonNodeView::Null => Some((JsonView::Null, rest)),
                    JsonNodeView::Bool(b) => Some((JsonView::Bool(b), rest)),
                    JsonNodeView::Number { whole, text } => Some(
                        (JsonView::Number { whole, text }, rest),
                    ),
                    JsonNodeView::Text(text) => Some((JsonView::Text(text), rest)),
                    JsonNodeView::Array(_) => match past_mark(text, '[') {
                        Some(inner) => match if past_mark(inner, ']') is Some {
                            Some(Seq::empty())
                        } else {
                            items_from(inner)
                        } {
                            Some(items) => Some((JsonView::Array(items), rest)),
                            None => None,
                        },
                        None => None,
                    },
                    JsonNodeView::Object => match past_mark(text, '{') {
                        Some(inner) => match if past_mark(inner, '}') is Some {
                            Some(Seq::empty())
                        } else {
                            members_from(inner)
                        } {
                            Some(members) => Some((JsonView::Object(members), rest)),
                            None => None,
                        },
                        None => None,
                    },
                }
            }
        },
        Err(_) => None,
    }
}

/// The values that come in a text up to the end of their array, one at least.
pub open spec fn items_from(text: Seq<char>) -> Option<Seq<JsonView>>
    decreases text.len(), 2nat,
{
    match tree_from(text) {
        Some((item, rest)) => if rest.len() >= text.len() {
            None
        } else {
            proof {
                lemma_past_space(rest);
            }
            match past_mark(rest, ',') {
                Some(more) => match items_from(more) {
                    Some(items) => Some(seq![item] + items),
                    None => None,
                },
                None => if past_mark(rest, ']') is Some {
                    Some(seq![item])
                } else {
                    None
                },
            }
        },
        None => None,
    }
}

/// A key, what stands under it, and what comes behind that.
pub open spec fn member_from(text: Seq<char>) -> Option<((Seq<char>, JsonView), Seq<char>)>
    decreases text.len(), 2nat,
{
    match tree_from(text) {
        Some((JsonView::Text(key), rest)) => if rest.len() >= text.len() {
            None
        } else {
            proof {
                lemma_past_space(rest);
            }
            match past_mark(rest, ':') {
                Some(under) => match tree_from(under) {
                    Some((value, rest)) => Some(((key, value), rest)),
                    None => None,
                },
                None => None,
            }
        },
        _ => None,
    }
}

/// The members that come in a text up to the end of their object, one at
/// least.
pub open spec fn members_from(text: Seq<char>) -> Option<Seq<(Seq<char>, JsonView)>>
    decreases text.len(), 3nat,
{
    match member_from(text) {
        Some((member, rest)) => if rest.len() >= text.len() {
            None
        } else {
            proof {
                lemma_past_space(rest);
            }
            match past_mark(rest, ',') {
                Some(more) => match members_from(more) {
                    Some(members) => Some(seq![member] + members),
                    None => None,
                },
                None => if past_mark(rest, '}') is Some {
                    Some(seq![member])
                } else {
                    None
                },
            }
        },
        None => None,
    }
}

/// The mathematical values of items.
pub open spec fn values(items: Seq<Json>) -> Seq<JsonView> {
    items.map_values(|item: Json| item.value())
}

/// The mathematical values of members.
pub open spec fn member_values(members: Seq<(String, Json)>) -> Seq<(Seq<char>, JsonView)> {
    members.map_values(|member: (String, Json)| (member.0@, member.1.value()))
}

/// The value of an array is made of those of its items.
pub proof fn lemma_array_value(items: Vec<Json>)
    ensures
        Json::Array(items).value() == JsonView::Array(values(items@)),
{
    assert(Json::Array(items).value()->Array_0 =~= values(items@));
}

proof fn lemma_object_value(members: Vec<(String, Json)>)
    ensures
        Json::Object(members).value() == JsonView::Object(member_values(members@)),
{
    assert(Json::Object(members).value()->Object_0 =~= member_values(members@));
}

/// Reads the value that a text opens with.
fn read_tree<'a>(text: &'a str) -> (r: Option<(Json, &'a str)>)
    ensures
        match r {
            Some((tree, rest)) => {
                &&& tree_from(text@) == Some((tree.value(), rest@))
                &&& rest@.len() < text@.len()
            },
            None => tree_from(text@) is None,
        },
    decreases text@.len(), 1nat,
{
    let (value, rest) = match open_json(text) {
        Ok(opening) => opening,
        Err(_) => {
            return None;
        },
    };
    match json_at(&value, "") {
        None => None,
        Some(JsonNode::Null) => Some((Json::Null, rest)),
        Some(JsonNode::Bool(b)) => Some((Json::Bool(b), rest)),
        Some(JsonNode::Number { whole, text }) => Some((Json::Number { whole, text }, rest)),
        Some(JsonNode::Text(text)) => Some((Json::Text(text), rest)),
        Some(JsonNode::Array(_)) => match step_over(text, '[') {
            Some(inner) => match read_items(inner) {
                Some(items) => {
                    proof {
                        lemma_array_value(items);
                    }
                    Some((Json::Array(items), rest))
                },
                None => None,
            },
            None => None,
        },
        Some(JsonNode::Object) => match step_over(text, '{') {
            Some(inner) => match read_members(inner) {
                Some(members) => {
                    proof {
                        lemma_object_value(members);
                    }
                    Some((Json::Object(members), rest))
                },
                None => None,
            },
            None => None,
        },
    }
}

/// Reads the values that come in a text up to the end of their array.
fn read_items(text: &str) -> (r: Option<Vec<Json>>)
    ensures
        ({
            let expected = if past_mark(text@, ']') is Some {
                Some(Seq::empty())
            } else {
                items_from(text@)
            };
            match r {
                Some(items) => expected == Some(values(items@)),
                None => expected is None,
            }
        }),
    decreases text@.len(), 2nat,
{
    let mut items: Vec<Json> = Vec::new();
    assert(values(items@) =~= Seq::<JsonView>::empty());
    if step_over(text, ']').is_some() {
        return Some(items);
    }
    let mut left: &str = text;
    assert forall|more: Seq<JsonView>| #[trigger] (values(items@) + more) == more by {
        assert(values(items@) + more =~= more);
    }
    loop
        invariant
            left@.len() <= text@.len(),
            past_mark(text@, ']') is None,
            items_from(text@) == match items_from(left@) {
                Some(more) => Some(values(items@) + more),
                None => None,
            },
        decreases left@.len(),
    {
        let (item, rest) = match read_tree(left) {
            Some(found) => found,
            None => {
                return None;
            },
        };
        let ghost earlier = values(items@);
        items.push(item);
        assert(values(items@) =~= earlier + seq![item.value()]);
        match step_over(rest, ',') {
            Some(more) => {
                proof {
                    if let Some(others) = items_from(more@) {
                        assert(earlier + (seq![item.value()] + others) =~= values(items@) + others);
                    }
                }
                left = more;
            },
            None => {
                if step_over(rest, ']').is_some() {
                    return Some(items);
                }
                return None;
            },
        }
    }
}

/// Reads a key, what stands under it, and what comes behind that.
fn read_member<'a>(text: &'a str) -> (r: Option<((String, Json), &'a str)>)
    ensures
        match r {
            Some((member, rest)) => {
                &&& member_from(text@) == Some(((member.0@, member.1.value()), rest@))
                &&& rest@.len() < text@.len()
            },
            None => member_from(text@) is None,
        },
    decreases text@.len(), 2nat,
{
    match read_tree(text) {
        Some((Json::Text(key), rest)) => match step_over(rest, ':') {
            Some(under) => match read_tree(under) {
                Some((value, rest)) => Some(((key, value), rest)),
                None => None,
            },
            None => None,
        },
        _ => None,
    }
}

/// Reads the members that come in a text up to the end of their object.
fn read_members(text: &str) -> (r: Option<Vec<(String, Json)>>)
    ensures
        ({
            let expected = if past_mark(text@, '}') is Some {
                Some(Seq::empty())
            } else {
                members_from(text@)
            };
            match r {
                Some(members) => expected == Some(member_values(members@)),
                None => expected is None,
            }
        }),
    decreases text@.len(), 3nat,
{
    let mut members: Vec<(String, Json)> = Vec::new();
    assert(member_values(members@) =~= Seq::<(Seq<char>, JsonView)>::empty());
    if step_over(text, '}').is_some() {
        return Some(members);
    }
    let mut left: &str = text;
    assert forall|more: Seq<(Seq<char>, JsonView)>| #[trigger]
        (member_values(members@) + more) == more by {
        assert(member_values(members@) + more =~= more);
    }
    loop
        invariant
            left@.len() <= text@.len(),
            past_mark(text@, '}') is None,
            members_from(text@) == match members_from(left@) {
                Some(more) => Some(member_values(members@) + more),
                None => None,
            },
        decreases left@.len(),
    {
        let (member, rest) = match read_member(left) {
            Some(found) => found,
            None => {
                return None;
            },
        };
        let ghost earlier = member_values(members@);
        let ghost added = (member.0@, member.1.value());
        members.push(member);
        assert(member_values(members@) =~= earlier + seq![added]);
        match step_over(rest, ',') {
            Some(more) => {
                proof {
                    if let Some(others) = members_from(more@) {
                        assert(earlier + (seq![added] + others) =~= member_values(members@)
                            + others);
                    }
                }
                left = more;
            },
            None => {
                if step_over(rest, '}').is_some() {
                    return Some(members);
                }
                return None;
            },
        }
    }
}

/// The tree of the value that a text opens with.
pub open spec fn tree_of(text: Seq<char>) -> Option<JsonView> {
    match tree_from(text) {
        Some((tree, _)) => Some(tree),
        None => None,
    }
}

/// The tree of the value that a text opens with.
pub fn json_tree(text: &str) -> (r: Option<Json>)
    ensures
        match r {
            Some(tree) => tree_of(text@) == Some(tree.value()),
            None => tree_of(text@) is None,
        },
{
    match read_tree(text) {
        Some((tree, _)) => Some(tree),
        None => None,
    }
}

/// Everything that stands under a key.
pub open spec fn under_key(members: Seq<(Seq<char>, JsonView)>, key: Seq<char>) -> Seq<JsonView>
    decreases members.len(),
{
    if members.len() == 0 {
        Seq::empty()
    } else if members.last().0 == key {
        under_key(members.drop_last(), key).push(members.last().1)
    } else {
        under_key(members.drop_last(), key)
    }
}

/// The field called `name` of a record: what it holds, or nothing where it is
/// left out. A record is an object in which the name comes once at most, or an
/// array that holds the values of its fields in order, of which there are at
/// most `fields`; this one comes at `position`. There is none in anything else.
pub open spec fn field_of(tree: JsonView, name: Seq<char>, position: nat, fields: nat) -> Option<
    Option<JsonView>,
> {
    match tree {
        JsonView::Object(members) => {
            let found = under_key(members, name);
            if found.len() == 0 {
                Some(None)
            } else if found.len() == 1 {
                Some(Some(found[0]))
            } else {
                None
            }
        },
        JsonView::Array(items) => if items.len() > fields {
            None
        } else if position < items.len() {
            Some(Some(items[position as int]))
        } else {
            Some(None)
        },
        _ => None,
    }
}

/// What a field of a record holds, where it may not be left out.
pub open spec fn part_in(tree: Option<JsonView>, name: Seq<char>, position: nat, fields: nat) -> Option<
    JsonView,
> {
    match tree {
        Some(tree) => match field_of(tree, name, position, fields) {
            Some(held) => held,
            None => None,
        },
        None => None,
    }
}

/// A text, if that is what it is.
pub open spec fn text_in(tree: Option<JsonView>) -> Option<Seq<char>> {
    match tree {
        Some(JsonView::Text(text)) => Some(text),
        _ => None,
    }
}

/// A natural number that fits, if that is what it is.
pub open spec fn whole_in(tree: Option<JsonView>) -> Option<u64> {
    match tree {
        Some(JsonView::Number { whole, .. }) => whole,
        _ => None,
    }
}

/// The text in the only field of a record.
pub open spec fn sole_text_in(tree: Option<JsonView>, name: Seq<char>) -> Option<Seq<char>> {
    text_in(part_in(tree, name, 0, 1))
}

/// The mathematical value of a tree, if there is one.
pub open spec fn value_of(tree: Option<&Json>) -> Option<JsonView> {
    match tree {
        Some(tree) => Some(tree.value()),
        None => None,
    }
}

/// The mathematical value of a field.
pub open spec fn field_value(field: Option<Option<&Json>>) -> Option<Option<JsonView>> {
    match field {
        Some(held) => Some(value_of(held)),
        None => None,
    }
}

/// The field called `name` of a record of at most `fields` fields, at
/// `position` among them.
pub fn field<'a>(tree: &'a Json, name: &str, position: usize, fields: usize) -> (r: Option<
    Option<&'a Json>,
>)
    ensures
        field_value(r) == field_of(tree.value(), name@, position as nat, fields as nat),
{
    match tree {
        Json::Object(members) => {
            let ghost all = member_values(members@);
            proof {
                lemma_object_value(*members);
            }
            let mut found: Option<&'a Json> = None;
            let mut i: usize = 0;
            assert(all.take(0) =~= Seq::<(Seq<char>, JsonView)>::empty());
            while i < members.len()
                invariant
                    i <= members.len(),
                    all == member_values(members@),
                    match found {
                        Some(tree) => under_key(all.take(i as int), name@) == seq![tree.value()],
                        None => under_key(all.take(i as int), name@).len() == 0,
                    },
                    tree.value() == JsonView::Object(all),
                decreases members.len() - i,
            {
                proof {
                    assert(all.take(i + 1).drop_last() =~= all.take(i as int));
                    assert(all.take(i + 1).last() == all[i as int]);
                }
                if same_text(members[i].0.as_str(), name) {
                    if found.is_some() {
                        proof {
                            lemma_found_stays(all, name@, i + 1);
                        }
                        return None;
                    }
                    found = Some(&members[i].1);
                    assert(under_key(all.take(i + 1), name@) =~= seq![members[i as int].1.value()]);
                }
                i = i + 1;
            }
            assert(all.take(all.len() as int) =~= all);
            Some(found)
        },
        Json::Array(items) => {
            proof {
                lemma_array_value(*items);
            }
            if items.len() > fields {
                None
            } else if position < items.len() {
                Some(Some(&items[position]))
            } else {
                Some(None)
            }
        },
        _ => None,
    }
}

/// What stands under a key stays with more members.
proof fn lemma_found_stays(members: Seq<(Seq<char>, JsonView)>, key: Seq<char>, n: int)
    requires
        0 <= n <= members.len(),
    ensures
        under_key(members, key).len() >= under_key(members.take(n), key).len(),
    decreases members.len(),
{
    if n < members.len() {
        lemma_found_stays(members.drop_last(), key, n);
        assert(members.drop_last().take(n) =~= members.take(n));
    } else {
        assert(members.take(n) =~= members);
    }
}

/// What a field of a record holds, where it may not be left out.
pub fn part<'a>(tree: Option<&'a Json>, name: &str, position: usize, fields: usize) -> (r: Option<
    &'a Json,
>)
    ensures
        value_of(r) == part_in(value_of(tree), name@, position as nat, fields as nat),
{
    match tree {
        Some(tree) => match field(tree, name, position, fields) {
            Some(held) => held,
            None => None,
        },
        None => None,
    }
}

/// A text, if that is what it is.
pub fn text_of(tree: Option<&Json>) -> (text: Option<String>)
    ensures
        text.deep_view() == text_in(value_of(tree)),
{
    match tree {
        Some(Json::Text(text)) => Some(text.clone()),
        _ => None,
    }
}

/// A natural number that fits, if that is what it is.
pub fn whole(tree: Option<&Json>) -> (n: Option<u64>)
    ensures
        n == whole_in(value_of(tree)),
{
    match tree {
        Some(Json::Number { whole, .. }) => *whole,
        _ => None,
    }
}

/// The text in the only field of a record.
pub fn sole_text(tree: Option<&Json>, name: &str) -> (text: Option<String>)
    ensures
        text.deep_view() == sole_text_in(value_of(tree), name@),
{
    text_of(part(tree, name, 0, 1))
}

} // verus!
