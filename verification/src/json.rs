use vstd::prelude::*;
use crate::text::str_eq;

verus! {

/// A JSON document as plain values.
///
/// Numbers keep their textual form, so that no value is lost on the way in or out.
/// An object is a list of members; a later member with a key hides an earlier one.
#[derive(Debug, PartialEq, Eq)]
pub enum JsonValue {
    Null,
    Bool(bool),
    Number(String),
    Str(String),
    Array(Vec<JsonValue>),
    Object(Vec<(String, JsonValue)>),
}

/// The mathematical content of a JSON document: texts in place of strings.
pub enum JsonData {
    Null,
    Bool(bool),
    Number(Seq<char>),
    Str(Seq<char>),
    Array(Seq<JsonData>),
    Object(Seq<(Seq<char>, JsonData)>),
}

impl JsonValue {
    /// The content of this document.
    pub open spec fn data(&self) -> JsonData
        decreases self,
    {
        match self {
            JsonValue::Null => JsonData::Null,
            JsonValue::Bool(b) => JsonData::Bool(*b),
            JsonValue::Number(n) => JsonData::Number(n@),
            JsonValue::Str(s) => JsonData::Str(s@),
            JsonValue::Array(items) => JsonData::Array(items_data(items@)),
            JsonValue::Object(members) => JsonData::Object(members_data(members@)),
        }
    }
}

/// The contents of a list of documents.
pub open spec fn items_data(items: Seq<JsonValue>) -> Seq<JsonData>
    decreases items,
{
    if items.len() == 0 {
        Seq::empty()
    } else {
        items_data(items.subrange(0, items.len() - 1)).push(items[items.len() - 1].data())
    }
}

/// The contents of a list of object members, keys taken as text.
pub open spec fn members_data(members: Seq<(String, JsonValue)>) -> Seq<(Seq<char>, JsonData)>
    decreases members,
{
    if members.len() == 0 {
        Seq::empty()
    } else {
        members_data(members.subrange(0, members.len() - 1)).push(
            (members[members.len() - 1].0@, members[members.len() - 1].1.data()),
        )
    }
}


/// Each member's content sits at its position.
pub proof fn lemma_members_data(members: Seq<(String, JsonValue)>)
    ensures
        members_data(members).len() == members.len(),
        forall|i: int| 0 <= i < members.len() ==> #[trigger] members_data(members)[i] == (members[i].0@, members[i].1.data()),
    decreases members.len(),
{
    if members.len() > 0 {
        lemma_members_data(members.subrange(0, members.len() - 1));
    }
}

/// The content that the members give to `key`: that of the last member with that key.
pub open spec fn member_lookup(members: Seq<(Seq<char>, JsonData)>, key: Seq<char>) -> Option<JsonData>
    decreases members.len(),
{
    if members.len() == 0 {
        None
    } else if members.last().0 == key {
        Some(members.last().1)
    } else {
        member_lookup(members.drop_last(), key)
    }
}

/// The members with `key` bound to `value`: every member with that key is dropped
/// and the new one comes last.
pub open spec fn members_insert(members: Seq<(Seq<char>, JsonData)>, key: Seq<char>, value: JsonData) -> Seq<(Seq<char>, JsonData)> {
    members.filter(key_differs(key)).push((key, value))
}

/// Whether a member's key differs from `key`.
pub open spec fn key_differs(key: Seq<char>) -> spec_fn((Seq<char>, JsonData)) -> bool {
    |m: (Seq<char>, JsonData)| m.0 != key
}

/// What `get(key)` gives: the member of an object, nothing for any other value.
pub open spec fn json_field(value: JsonData, key: Seq<char>) -> Option<JsonData> {
    match value {
        JsonData::Object(members) => member_lookup(members, key),
        _ => None,
    }
}

/// The text of a string member of an object, if the member is there and holds a string.
pub open spec fn json_str_field(value: JsonData, key: Seq<char>) -> Option<Seq<char>> {
    match json_field(value, key) {
        Some(JsonData::Str(s)) => Some(s),
        _ => None,
    }
}

/// The object with `key` bound to `field`; any other value stays as it is.
pub open spec fn json_with_field(value: JsonData, key: Seq<char>, field: JsonData) -> JsonData {
    match value {
        JsonData::Object(members) => JsonData::Object(members_insert(members, key, field)),
        _ => value,
    }
}

impl JsonValue {
    /// The value of an object member; `None` for a missing member or a value that is no object.
    pub fn get(&self, key: &str) -> (r: Option<&JsonValue>)
        ensures
            match r {
                Some(v) => json_field(self.data(), key@) == Some(v.data()),
                None => json_field(self.data(), key@) is None,
            },
    {
        match self {
            JsonValue::Object(members) => {
                let ghost mv = members_data(members@);
                proof { lemma_members_data(members@); }
                let mut i = members.len();
                assert(mv.take(i as int) =~= mv);
                while i > 0
                    invariant
                        i <= members@.len(),
                        mv == members_data(members@),
                        mv.len() == members@.len(),
                        forall|k: int| 0 <= k < members.len() ==> #[trigger] mv[k] == (members@[k].0@, members@[k].1.data()),
                        json_field(self.data(), key@) == member_lookup(mv, key@),
                        member_lookup(mv, key@) == member_lookup(mv.take(i as int), key@),
                    decreases i,
                {
                    assert(mv.take(i as int).drop_last() =~= mv.take(i - 1));
                    assert(mv.take(i as int).last() == mv[i - 1]);
                    if str_eq(members[i - 1].0.as_str(), key) {
                        return Some(&members[i - 1].1);
                    }
                    i = i - 1;
                }
                None
            },
            _ => None,
        }
    }

    /// The text of a string member.
    pub fn get_str(&self, key: &str) -> (r: Option<&String>)
        ensures
            match r {
                Some(s) => json_str_field(self.data(), key@) == Some(s@),
                None => json_str_field(self.data(), key@) is None,
            },
    {
        match self.get(key) {
            Some(JsonValue::Str(s)) => Some(s),
            _ => None,
        }
    }

    /// Whether this document is an object.
    pub fn is_object(&self) -> (r: bool)
        ensures
            r == (self.data() is Object),
    {
        match self {
            JsonValue::Object(_) => true,
            _ => false,
        }
    }

    /// Binds `key` to `field` in an object, replacing the member that had that key;
    /// a value that is no object is left unchanged.
    pub fn set_field(&mut self, key: &str, field: JsonValue)
        ensures
            final(self).data() == json_with_field(old(self).data(), key@, field.data()),
    {
        match self {
            JsonValue::Object(members) => {
                let ghost old_view = members_data(members@);
                let ghost pred = key_differs(key@);
                proof { lemma_members_data(members@); }
                let mut rest: Vec<(String, JsonValue)> = Vec::new();
                std::mem::swap(&mut rest, members);
                let mut kept: Vec<(String, JsonValue)> = Vec::new();
                let ghost mut done: int = 0;
                while rest.len() > 0
                    invariant
                        0 <= done <= old_view.len(),
                        rest@.len() + done == old_view.len(),
                        pred == key_differs(key@),
                        members_data(rest@) == old_view.skip(done),
                        members_data(kept@) == old_view.take(done).filter(pred),
                    decreases rest.len(),
                {
                    let ghost before = rest@;
                    let m = rest.remove(0);
                    proof {
                        lemma_members_data(before);
                        lemma_members_data(rest@);
                        assert(members_data(before)[0] == (m.0@, m.1.data()));
                        assert(old_view.skip(done)[0] == old_view[done]);
                        assert(members_data(rest@) =~= old_view.skip(done + 1)) by {
                            assert forall|k: int| 0 <= k < rest@.len() implies members_data(rest@)[k] == old_view.skip(done + 1)[k] by {
                                assert(rest@[k] == before[k + 1]);
                                assert(members_data(before)[k + 1] == old_view.skip(done)[k + 1]);
                            }
                        }
                        assert(old_view.take(done + 1).drop_last() =~= old_view.take(done));
                        assert(old_view.take(done + 1).last() == old_view[done]);
                        reveal_with_fuel(Seq::filter, 1);
                        assert(old_view.take(done + 1).filter(pred) == if pred(old_view[done]) {
                            old_view.take(done).filter(pred).push(old_view[done])
                        } else {
                            old_view.take(done).filter(pred)
                        });
                    }
                    let ghost old_kept = kept@;
                    if !str_eq(m.0.as_str(), key) {
                        assert(pred(old_view[done]));
                        kept.push(m);
                        proof {
                            assert(kept@.subrange(0, kept@.len() - 1) =~= old_kept);
                        }
                    } else {
                        assert(!pred(old_view[done]));
                    }
                    proof { done = done + 1; }
                }
                assert(old_view.take(done) =~= old_view);
                let k = String::from_str(key);
                let ghost old_kept = kept@;
                kept.push((k, field));
                assert(kept@.subrange(0, kept@.len() - 1) =~= old_kept);
                *members = kept;
            },
            _ => {},
        }
    }
}


/// Dropping the members with one key leaves what every other key looks up.
proof fn lemma_lookup_filter(members: Seq<(Seq<char>, JsonData)>, dropped: Seq<char>, key: Seq<char>)
    requires
        key != dropped,
    ensures
        member_lookup(members.filter(key_differs(dropped)), key) == member_lookup(members, key),
    decreases members.len(),
{
    let pred = key_differs(dropped);
    if members.len() > 0 {
        lemma_lookup_filter(members.drop_last(), dropped, key);
        reveal_with_fuel(Seq::filter, 1);
        if pred(members.last()) {
            assert(members.filter(pred) == members.drop_last().filter(pred).push(members.last()));
            assert(members.drop_last().filter(pred).push(members.last()).drop_last() =~= members.drop_last().filter(pred));
        } else {
            assert(members.filter(pred) == members.drop_last().filter(pred));
        }
    } else {
        reveal_with_fuel(Seq::filter, 1);
    }
}

/// Reading a member back: after `key` is bound to `field`, `key` gives `field`, and every
/// other key gives what it gave before.
pub proof fn lemma_get_after_set(value: JsonData, key: Seq<char>, field: JsonData, other: Seq<char>)
    requires
        value is Object,
    ensures
        json_field(json_with_field(value, key, field), key) == Some(field),
        other != key ==> json_field(json_with_field(value, key, field), other) == json_field(value, other),
{
    if let JsonData::Object(members) = value {
        let filtered = members.filter(key_differs(key));
        assert(filtered.push((key, field)).drop_last() =~= filtered);
        if other != key {
            lemma_lookup_filter(members, key, other);
            assert(member_lookup(filtered.push((key, field)), other) == member_lookup(filtered, other));
        }
    }
}

} // verus!
