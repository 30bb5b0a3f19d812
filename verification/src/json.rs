//! JSON documents as the relay sees them.

use vstd::prelude::*;
use crate::text::text_eq;

verus! {

/// A JSON document.
///
/// An object is kept as its list of members. A key is looked up from the
/// front, so the first member with a given key is the one that counts.
/// A number is carried as it was read; nothing here looks into it.
///
/// `==` compares two documents as they are kept, member by member in
/// order; the value of a document is its view.
#[derive(Debug, PartialEq, Eq)]
pub enum Json {
    Null,
    Bool(bool),
    Number(serde_json::Number),
    Text(String),
    Array(Vec<Json>),
    Object(Vec<(String, Json)>),
}

/// The mathematical value of a [`Json`] document: an object is a map from
/// keys to values, an array a sequence of values.
pub ghost enum JsonValue {
    Null,
    Bool(bool),
    Number(serde_json::Number),
    Text(Seq<char>),
    Array(Seq<JsonValue>),
    Object(Map<Seq<char>, JsonValue>),
}

impl JsonValue {
    /// The value under `key`, if this is an object that has the key.
    pub open spec fn member(self, key: Seq<char>) -> Option<JsonValue> {
        match self {
            JsonValue::Object(m) => if m.contains_key(key) {
                Some(m[key])
            } else {
                None
            },
            _ => None,
        }
    }

    /// The element at `index`, if this is an array that is long enough.
    pub open spec fn element(self, index: int) -> Option<JsonValue> {
        match self {
            JsonValue::Array(items) => if 0 <= index < items.len() {
                Some(items[index])
            } else {
                None
            },
            _ => None,
        }
    }

    /// The characters of this value, if it is a string.
    pub open spec fn text(self) -> Option<Seq<char>> {
        match self {
            JsonValue::Text(t) => Some(t),
            _ => None,
        }
    }

    /// This object with `key` bound to `value`; anything but an object is
    /// left as it is.
    pub open spec fn with_member(self, key: Seq<char>, value: JsonValue) -> JsonValue {
        match self {
            JsonValue::Object(m) => JsonValue::Object(m.insert(key, value)),
            other => other,
        }
    }

    /// This object without `key`; anything but an object is left as it is.
    pub open spec fn without_member(self, key: Seq<char>) -> JsonValue {
        match self {
            JsonValue::Object(m) => JsonValue::Object(m.remove(key)),
            other => other,
        }
    }

    /// This array with `item` added at its end; anything but an array is
    /// left as it is.
    pub open spec fn with_item(self, item: JsonValue) -> JsonValue {
        match self {
            JsonValue::Array(items) => JsonValue::Array(items.push(item)),
            other => other,
        }
    }
}

/// Index of the first member of `members` whose key is `key`, or the length
/// of `members` if there is none.
pub open spec fn key_index(members: Seq<(String, Json)>, key: Seq<char>) -> int
    decreases members.len(),
{
    if members.len() == 0 || members[0].0@ == key {
        0
    } else {
        1 + key_index(members.skip(1), key)
    }
}

/// The map that a list of members stands for: each key is bound to the value
/// of the first member that carries it.
pub open spec fn members_map(members: Seq<(String, Json)>) -> Map<Seq<char>, JsonValue>
    decreases members,
{
    Map::new(
        |k: Seq<char>| key_index(members, k) < members.len(),
        |k: Seq<char>|
            {
                let i = key_index(members, k);
                if 0 <= i < members.len() {
                    members[i].1.view()
                } else {
                    JsonValue::Null
                }
            },
    )
}

/// The values of a list of documents, in order.
pub open spec fn items_seq(items: Seq<Json>) -> Seq<JsonValue>
    decreases items,
{
    Seq::new(
        items.len(),
        |i: int|
            if 0 <= i < items.len() {
                items[i].view()
            } else {
                JsonValue::Null
            },
    )
}

impl View for Json {
    type V = JsonValue;

    open spec fn view(&self) -> JsonValue
        decreases self,
    {
        match self {
            Json::Null => JsonValue::Null,
            Json::Bool(b) => JsonValue::Bool(*b),
            Json::Number(n) => JsonValue::Number(*n),
            Json::Text(t) => JsonValue::Text(t@),
            Json::Array(items) => JsonValue::Array(items_seq(items@)),
            Json::Object(members) => JsonValue::Object(members_map(members@)),
        }
    }
}

/// `key_index` is in range, no member before it has the key, and the member
/// at it, if there is one, has the key.
proof fn lemma_key_index(members: Seq<(String, Json)>, key: Seq<char>)
    ensures
        0 <= key_index(members, key) <= members.len(),
        forall|j: int| 0 <= j < key_index(members, key) ==> (#[trigger] members[j]).0@ != key,
        key_index(members, key) < members.len() ==> members[key_index(members, key)].0@ == key,
    decreases members.len(),
{
    if members.len() == 0 || members[0].0@ == key {
    } else {
        let rest = members.skip(1);
        lemma_key_index(rest, key);
        assert forall|j: int| 0 <= j < key_index(members, key) implies (#[trigger] members[j]).0@
            != key by {
            if j > 0 {
                assert(members[j] == rest[j - 1]);
            }
        }
        if key_index(members, key) < members.len() {
            assert(members[key_index(members, key)] == rest[key_index(rest, key)]);
        }
    }
}

/// The first position at which the key stands, or the length where it
/// stands nowhere, is `key_index`.
proof fn lemma_key_index_is(members: Seq<(String, Json)>, key: Seq<char>, i: int)
    requires
        0 <= i <= members.len(),
        forall|j: int| 0 <= j < i ==> (#[trigger] members[j]).0@ != key,
        i < members.len() ==> members[i].0@ == key,
    ensures
        key_index(members, key) == i,
{
    lemma_key_index(members, key);
    let x = key_index(members, key);
    if x < i {
        assert(members[x].0@ == key);
    } else if x > i {
        assert(members[i].0@ == key);
    }
}

/// Lists with the same keys at the same places find a key at the same place.
proof fn lemma_key_index_same_keys(
    a: Seq<(String, Json)>,
    b: Seq<(String, Json)>,
    key: Seq<char>,
)
    requires
        a.len() == b.len(),
        forall|j: int| 0 <= j < a.len() ==> (#[trigger] a[j]).0@ == b[j].0@,
    ensures
        key_index(a, key) == key_index(b, key),
{
    lemma_key_index(a, key);
    let x = key_index(a, key);
    assert forall|j: int| 0 <= j < x implies (#[trigger] b[j]).0@ != key by {
        assert(a[j].0@ != key);
    }
    if x < a.len() {
        assert(a[x].0@ == b[x].0@);
    }
    lemma_key_index_is(b, key, x);
}

/// Lists that agree on keys and on the values of their documents stand for
/// the same map.
proof fn lemma_members_map_same(a: Seq<(String, Json)>, b: Seq<(String, Json)>)
    requires
        a.len() == b.len(),
        forall|j: int| 0 <= j < a.len() ==> (#[trigger] a[j]).0@ == b[j].0@,
        forall|j: int| 0 <= j < a.len() ==> (#[trigger] a[j]).1@ == b[j].1@,
    ensures
        members_map(a) == members_map(b),
{
    assert forall|k: Seq<char>| key_index(a, k) == key_index(b, k) by {
        lemma_key_index_same_keys(a, b, k);
    }
    assert forall|k: Seq<char>| #[trigger]
        members_map(a).contains_key(k) implies members_map(a)[k] == members_map(b)[k] by {
        lemma_key_index(a, k);
        let i = key_index(a, k);
        assert(a[i].1@ == b[i].1@);
    }
    assert(members_map(a) =~= members_map(b));
}

/// Replacing the first member that has the key binds the key anew and
/// leaves every other key alone.
proof fn lemma_members_map_replace(
    a: Seq<(String, Json)>,
    i: int,
    member: (String, Json),
)
    requires
        0 <= i < a.len(),
        i == key_index(a, member.0@),
    ensures
        members_map(a.update(i, member)) == members_map(a).insert(member.0@, member.1@),
{
    let key = member.0@;
    let b = a.update(i, member);
    lemma_key_index(a, key);
    assert forall|k: Seq<char>| key_index(a, k) == key_index(b, k) by {
        assert forall|j: int| 0 <= j < a.len() implies (#[trigger] a[j]).0@ == b[j].0@ by {}
        lemma_key_index_same_keys(a, b, k);
    }
    assert forall|k: Seq<char>| #[trigger]
        members_map(b).contains_key(k) implies members_map(b)[k] == members_map(a).insert(
        key,
        member.1@,
    )[k] by {
        lemma_key_index(a, k);
    }
    assert(members_map(b) =~= members_map(a).insert(key, member.1@));
}

/// A member added at the end binds its key if the key was free, and
/// changes nothing if it was taken.
proof fn lemma_members_map_push(a: Seq<(String, Json)>, member: (String, Json))
    ensures
        members_map(a.push(member)) == if members_map(a).contains_key(member.0@) {
            members_map(a)
        } else {
            members_map(a).insert(member.0@, member.1@)
        },
{
    let key = member.0@;
    let b = a.push(member);
    let expected = if members_map(a).contains_key(key) {
        members_map(a)
    } else {
        members_map(a).insert(key, member.1@)
    };
    assert forall|k: Seq<char>|
        #[trigger] key_index(b, k) == if key_index(a, k) < a.len() {
            key_index(a, k)
        } else if k == key {
            a.len() as int
        } else {
            a.len() as int + 1
        } by {
        lemma_key_index(a, k);
        let x = key_index(a, k);
        assert forall|j: int| 0 <= j < x implies (#[trigger] b[j]).0@ != k by {
            assert(a[j].0@ != k);
        }
        if x < a.len() {
            assert(b[x] == a[x]);
            lemma_key_index_is(b, k, x);
        } else if k == key {
            lemma_key_index_is(b, k, x);
        } else {
            lemma_key_index_is(b, k, x + 1);
        }
    }
    assert(members_map(b) =~= expected);
}

/// Taking out a member that has `key` changes no binding but that of `key`.
proof fn lemma_members_map_remove(a: Seq<(String, Json)>, i: int, key: Seq<char>)
    requires
        0 <= i < a.len(),
        a[i].0@ == key,
    ensures
        members_map(a.remove(i)).remove(key) == members_map(a).remove(key),
{
    let b = a.remove(i);
    assert forall|k: Seq<char>| k != key implies (#[trigger] key_index(b, k) == if key_index(a, k)
        < i {
        key_index(a, k)
    } else {
        key_index(a, k) - 1
    }) && (key_index(a, k) < a.len() ==> b[key_index(b, k)] == a[key_index(a, k)]) by {
        lemma_key_index(a, k);
        let x = key_index(a, k);
        if x < i {
            assert forall|j: int| 0 <= j < x implies (#[trigger] b[j]).0@ != k by {
                assert(a[j].0@ != k);
            }
            assert(b[x] == a[x]);
            lemma_key_index_is(b, k, x);
        } else {
            assert(x != i);
            assert forall|j: int| 0 <= j < x - 1 implies (#[trigger] b[j]).0@ != k by {
                if j < i {
                    assert(a[j].0@ != k);
                } else {
                    assert(b[j] == a[j + 1]);
                    assert(a[j + 1].0@ != k);
                }
            }
            if x < a.len() {
                assert(b[x - 1] == a[x]);
            }
            lemma_key_index_is(b, k, x - 1);
        }
    }
    let left = members_map(b).remove(key);
    let right = members_map(a).remove(key);
    assert forall|k: Seq<char>| left.contains_key(k) implies left[k] == right[k] by {
        lemma_key_index(b, k);
    }
    assert(left =~= right);
}

/// Position of the first member whose key is `key`, or the number of
/// members if there is none.
pub fn position(members: &Vec<(String, Json)>, key: &str) -> (i: usize)
    ensures
        i == key_index(members@, key@),
{
    let mut i: usize = 0;
    while i < members.len()
        invariant
            i <= members.len(),
            forall|j: int| 0 <= j < i ==> (#[trigger] members@[j]).0@ != key@,
        decreases members.len() - i,
    {
        if text_eq(members[i].0.as_str(), key) {
            proof {
                lemma_key_index_is(members@, key@, i as int);
            }
            return i;
        }
        i += 1;
    }
    proof {
        lemma_key_index_is(members@, key@, i as int);
    }
    i
}

impl Json {
    /// An object without members.
    pub fn object() -> (doc: Json)
        ensures
            doc@ == JsonValue::Object(Map::empty()),
    {
        let members: Vec<(String, Json)> = Vec::new();
        proof {
            assert(members_map(members@) =~= Map::empty());
        }
        Json::Object(members)
    }

    /// A string value.
    pub fn text(characters: &str) -> (doc: Json)
        ensures
            doc@ == JsonValue::Text(characters@),
    {
        Json::Text(characters.to_owned())
    }

    /// The member under `key`, if this is an object that has the key.
    pub fn get(&self, key: &str) -> (found: Option<&Json>)
        ensures
            found is Some == self@.member(key@) is Some,
            found matches Some(doc) ==> self@.member(key@) == Some(doc@),
    {
        match self {
            Json::Object(members) => {
                let i: usize = position(members, key);
                if i < members.len() {
                    Some(&members[i].1)
                } else {
                    None
                }
            },
            _ => None,
        }
    }

    /// The element at `index`, if this is an array that is long enough.
    pub fn at(&self, index: usize) -> (found: Option<&Json>)
        ensures
            found is Some == self@.element(index as int) is Some,
            found matches Some(doc) ==> self@.element(index as int) == Some(doc@),
    {
        match self {
            Json::Array(items) => {
                if index < items.len() {
                    Some(&items[index])
                } else {
                    None
                }
            },
            _ => None,
        }
    }

    /// The characters of this document, if it is a string.
    pub fn as_text(&self) -> (found: Option<&str>)
        ensures
            found is Some == self@.text() is Some,
            found matches Some(t) ==> self@.text() == Some(t@),
    {
        match self {
            Json::Text(t) => Some(t.as_str()),
            _ => None,
        }
    }

    /// The number of elements, if this is an array.
    pub fn array_len(&self) -> (found: Option<usize>)
        ensures
            found is Some == self@ is Array,
            found matches Some(n) ==> n == self@->Array_0.len(),
    {
        match self {
            Json::Array(items) => Some(items.len()),
            _ => None,
        }
    }

    /// Binds `key` to `value` in an object, in place of what `key` was bound
    /// to. Anything but an object comes back as it was.
    pub fn with_member(self, key: String, value: Json) -> (doc: Json)
        ensures
            doc@ == self@.with_member(key@, value@),
    {
        match self {
            Json::Object(mut members) => {
                let i: usize = position(&members, key.as_str());
                proof {
                    if i < members.len() {
                        lemma_members_map_replace(members@, i as int, (key, value));
                    } else {
                        lemma_members_map_push(members@, (key, value));
                    }
                }
                if i < members.len() {
                    members.set(i, (key, value));
                } else {
                    members.push((key, value));
                }
                Json::Object(members)
            },
            other => other,
        }
    }

    /// Takes `key` out of an object. Anything but an object comes back as it
    /// was.
    pub fn without_member(self, key: &str) -> (doc: Json)
        ensures
            doc@ == self@.without_member(key@),
    {
        match self {
            Json::Object(mut members) => {
                let ghost before = members@;
                let mut i: usize = 0;
                while i < members.len()
                    invariant
                        i <= members.len(),
                        forall|j: int| 0 <= j < i ==> (#[trigger] members@[j]).0@ != key@,
                        members_map(members@).remove(key@) == members_map(before).remove(key@),
                    decreases members.len() - i,
                {
                    if text_eq(members[i].0.as_str(), key) {
                        proof {
                            lemma_members_map_remove(members@, i as int, key@);
                        }
                        let _ = members.remove(i);
                    } else {
                        i += 1;
                    }
                }
                proof {
                    lemma_key_index_is(members@, key@, members.len() as int);
                    assert(members_map(members@).remove(key@) =~= members_map(members@));
                }
                Json::Object(members)
            },
            other => other,
        }
    }

    /// Adds `item` at the end of an array. Anything but an array comes back
    /// as it was.
    pub fn with_item(self, item: Json) -> (doc: Json)
        ensures
            doc@ == self@.with_item(item@),
    {
        match self {
            Json::Array(mut items) => {
                let ghost before = items@;
                items.push(item);
                proof {
                    assert(items_seq(items@) =~= items_seq(before).push(item@));
                }
                Json::Array(items)
            },
            other => other,
        }
    }

    /// A copy of this document.
    pub fn duplicate(&self) -> (copy: Json)
        ensures
            copy@ == self@,
        decreases self,
    {
        match self {
            Json::Null => Json::Null,
            Json::Bool(b) => Json::Bool(*b),
            Json::Number(n) => Json::Number(n.clone()),
            Json::Text(t) => Json::Text(t.clone()),
            Json::Array(items) => {
                let mut out: Vec<Json> = Vec::new();
                let mut i: usize = 0;
                while i < items.len()
                    invariant
                        i <= items.len(),
                        out.len() == i,
                        *self is Array,
                        self->Array_0 == *items,
                        forall|j: int| 0 <= j < i ==> (#[trigger] out@[j])@ == items@[j]@,
                    decreases items.len() - i,
                {
                    proof {
                        assert(decreases_to!(*self => self->Array_0));
                        assert(decreases_to!(*items => items@[i as int]));
                    }
                    out.push(items[i].duplicate());
                    i += 1;
                }
                proof {
                    assert(items_seq(out@) =~= items_seq(items@));
                }
                Json::Array(out)
            },
            Json::Object(members) => {
                let mut out: Vec<(String, Json)> = Vec::new();
                let mut i: usize = 0;
                while i < members.len()
                    invariant
                        i <= members.len(),
                        out.len() == i,
                        *self is Object,
                        self->Object_0 == *members,
                        forall|j: int| 0 <= j < i ==> (#[trigger] out@[j]).0@ == members@[j].0@,
                        forall|j: int| 0 <= j < i ==> (#[trigger] out@[j]).1@ == members@[j].1@,
                    decreases members.len() - i,
                {
                    proof {
                        assert(decreases_to!(*self => self->Object_0));
                        assert(decreases_to!(*members => members@[i as int]));
                        assert(decreases_to!(members@[i as int] => members@[i as int].1));
                    }
                    out.push((members[i].0.clone(), members[i].1.duplicate()));
                    i += 1;
                }
                proof {
                    lemma_members_map_same(out@, members@);
                }
                Json::Object(out)
            },
        }
    }
}

impl Clone for Json {
    fn clone(&self) -> (copy: Json)
        ensures
            copy@ == self@,
    {
        self.duplicate()
    }
}

} // verus!
