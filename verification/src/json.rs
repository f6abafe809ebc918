//! JSON documents as plain values.

use vstd::prelude::*;
use crate::text::text_eq;

verus! {

/// A JSON value.
pub enum Json {
    Null,
    Bool(bool),
    /// A number, as an unsigned and as a signed integer where it is one.
    Number { unsigned: Option<u64>, signed: Option<i64> },
    Text(String),
    List(Vec<Json>),
    Object(Vec<(String, Json)>),
}

/// What a JSON value holds.
pub enum JsonView {
    Null,
    Bool(bool),
    Number { unsigned: Option<u64>, signed: Option<i64> },
    Text(Seq<char>),
    List(Seq<JsonView>),
    Object(Seq<(Seq<char>, JsonView)>),
}

/// What a JSON value holds, through all its levels.
pub open spec fn json_view(json: Json) -> JsonView
    decreases json,
{
    match json {
        Json::Null => JsonView::Null,
        Json::Bool(b) => JsonView::Bool(b),
        Json::Number { unsigned, signed } => JsonView::Number { unsigned, signed },
        Json::Text(s) => JsonView::Text(s@),
        Json::List(items) => JsonView::List(
            Seq::new(
                items@.len(),
                |i: int|
                    if 0 <= i < items@.len() {
                        json_view(items@[i])
                    } else {
                        JsonView::Null
                    },
            ),
        ),
        Json::Object(members) => JsonView::Object(
            Seq::new(
                members@.len(),
                |i: int|
                    if 0 <= i < members@.len() {
                        (members@[i].0@, json_view(members@[i].1))
                    } else {
                        (seq![], JsonView::Null)
                    },
            ),
        ),
    }
}

impl View for Json {
    type V = JsonView;

    open spec fn view(&self) -> JsonView {
        json_view(*self)
    }
}

/// The value of the first member of that name; null where there is none.
pub open spec fn lookup(members: Seq<(Seq<char>, JsonView)>, key: Seq<char>) -> JsonView
    decreases members.len(),
{
    if members.len() == 0 {
        JsonView::Null
    } else if members[0].0 == key {
        members[0].1
    } else {
        lookup(members.skip(1), key)
    }
}

/// The member of that name of an object; null where there is none.
pub open spec fn member(value: JsonView, key: Seq<char>) -> JsonView {
    match value {
        JsonView::Object(members) => lookup(members, key),
        _ => JsonView::Null,
    }
}

pub open spec fn as_text(value: JsonView) -> Option<Seq<char>> {
    match value {
        JsonView::Text(s) => Some(s),
        _ => None,
    }
}

pub open spec fn as_unsigned(value: JsonView) -> Option<u64> {
    match value {
        JsonView::Number { unsigned, .. } => unsigned,
        _ => None,
    }
}

pub open spec fn as_signed(value: JsonView) -> Option<i64> {
    match value {
        JsonView::Number { signed, .. } => signed,
        _ => None,
    }
}

/// The items of a list; none where the value is no list.
pub open spec fn items_of(value: JsonView) -> Seq<JsonView> {
    match value {
        JsonView::List(items) => items,
        _ => seq![],
    }
}

/// The members of an object; none where the value is no object.
pub open spec fn members_of(value: JsonView) -> Seq<(Seq<char>, JsonView)> {
    match value {
        JsonView::Object(members) => members,
        _ => seq![],
    }
}

/// What a reference to a value holds; null where there is none.
pub open spec fn opt_json(value: Option<&Json>) -> JsonView {
    match value {
        Some(json) => json@,
        None => JsonView::Null,
    }
}

/// What an object and a list hold, one level down.
pub proof fn lemma_view(json: Json)
    ensures
        match json {
            Json::Object(members) => members_of(json@).len() == members@.len() && forall|i: int|
                0 <= i < members@.len() ==> #[trigger] members_of(json@)[i] == (
                    members@[i].0@,
                    members@[i].1@,
                ),
            Json::List(items) => items_of(json@).len() == items@.len() && forall|i: int|
                0 <= i < items@.len() ==> #[trigger] items_of(json@)[i] == items@[i]@,
            _ => members_of(json@).len() == 0 && items_of(json@).len() == 0,
        },
{
}

/// The member of that name of an object.
pub fn get<'a>(value: Option<&'a Json>, key: &str) -> (r: Option<&'a Json>)
    ensures
        opt_json(r) == member(opt_json(value), key@),
{
    let json: &'a Json = match value {
        Some(json) => json,
        None => {
            return None;
        },
    };
    proof {
        lemma_view(*json);
    }
    match json {
        Json::Object(members) => {
            let ghost all = members_of(json@);
            let mut i: usize = 0;
            assert(all.skip(0) =~= all);
            while i < members.len()
                invariant
                    i <= members@.len(),
                    all.len() == members@.len(),
                    forall|k: int|
                        0 <= k < members@.len() ==> #[trigger] all[k] == (
                            members@[k].0@,
                            members@[k].1@,
                        ),
                    lookup(all, key@) == lookup(all.skip(i as int), key@),
                    member(opt_json(value), key@) == lookup(all, key@),
                decreases members@.len() - i,
            {
                if text_eq(members[i].0.as_str(), key) {
                    return Some(&members[i].1);
                }
                assert(all.skip(i as int).skip(1) =~= all.skip(i + 1));
                i = i + 1;
            }
            None
        },
        _ => None,
    }
}

/// The text that a value is.
pub fn text<'a>(value: Option<&'a Json>) -> (r: Option<&'a str>)
    ensures
        match r {
            Some(s) => as_text(opt_json(value)) == Some(s@),
            None => as_text(opt_json(value)) is None,
        },
{
    match value {
        Some(Json::Text(s)) => Some(s.as_str()),
        _ => None,
    }
}

/// The unsigned integer that a value is.
pub fn unsigned_number(value: Option<&Json>) -> (r: Option<u64>)
    ensures
        r == as_unsigned(opt_json(value)),
{
    match value {
        Some(Json::Number { unsigned, .. }) => *unsigned,
        _ => None,
    }
}

/// The signed integer that a value is.
pub fn signed_number(value: Option<&Json>) -> (r: Option<i64>)
    ensures
        r == as_signed(opt_json(value)),
{
    match value {
        Some(Json::Number { signed, .. }) => *signed,
        _ => None,
    }
}

/// A member of an object is the value that stands first under its name; there is
/// none where no value stands under that name, or where there is no object.
pub proof fn the_first_value_of_a_name_counts(
    members: Seq<(Seq<char>, JsonView)>,
    key: Seq<char>,
    k: int,
)
    ensures
        0 <= k < members.len() && members[k].0 == key && (forall|j: int|
            0 <= j < k ==> (#[trigger] members[j]).0 != key) ==> member(
            JsonView::Object(members),
            key,
        ) == members[k].1,
        (forall|j: int| 0 <= j < members.len() ==> (#[trigger] members[j]).0 != key) ==> member(
            JsonView::Object(members),
            key,
        ) is Null,
        member(JsonView::Null, key) is Null,
    decreases members.len(),
{
    if members.len() > 0 {
        let rest = members.skip(1);
        assert(forall|j: int| 0 <= j < rest.len() ==> rest[j] == members[j + 1]);
        the_first_value_of_a_name_counts(rest, key, k - 1);
        if members[0].0 != key {
            if 0 < k < members.len() && members[k].0 == key && (forall|j: int|
                0 <= j < k ==> (#[trigger] members[j]).0 != key) {
                assert forall|j: int| 0 <= j < k - 1 implies (#[trigger] rest[j]).0 != key by {
                    assert(rest[j] == members[j + 1]);
                }
                assert(rest[k - 1] == members[k]);
            }
            if forall|j: int| 0 <= j < members.len() ==> (#[trigger] members[j]).0 != key {
                assert forall|j: int| 0 <= j < rest.len() implies (#[trigger] rest[j]).0 != key by {
                    assert(rest[j] == members[j + 1]);
                }
            }
        }
    }
}

} // verus!
