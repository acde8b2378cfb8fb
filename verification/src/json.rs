//! JSON values as plain data, with a mathematical model of each value.
//!
//! An object is kept as a list of members. Where a key occurs more than
//! once the last member wins, as it does when a JSON text is decoded.

use vstd::prelude::*;
use crate::text::str_eq;

verus! {

/// A JSON number, in the three forms a decoder tells apart. A number with a
/// fraction or an exponent is carried as the bits of its binary64 value.
#[derive(Clone, Copy, Debug, PartialEq, Eq, Structural)]
pub enum JsonNumber {
    PosInt(u64),
    NegInt(i64),
    Float { bits: u64 },
}

/// A JSON value.
#[derive(Debug, PartialEq, Eq)]
pub enum JsonValue {
    Null,
    Bool(bool),
    Number(JsonNumber),
    String(String),
    Array(Vec<JsonValue>),
    Object(Vec<(String, JsonValue)>),
}

/// The mathematical model of a JSON value.
pub enum Json {
    Null,
    Bool(bool),
    Number(JsonNumber),
    Text(Seq<char>),
    Array(Seq<Json>),
    Object(Seq<(Seq<char>, Json)>),
}

/// The map that a list of members denotes: a later member replaces an
/// earlier one with the same key.
pub open spec fn members_map(members: Seq<(Seq<char>, Json)>) -> Map<Seq<char>, Json>
    decreases members.len(),
{
    if members.len() == 0 {
        Map::empty()
    } else {
        members_map(members.drop_last()).insert(members.last().0, members.last().1)
    }
}

/// Whether no key occurs twice among the members.
pub open spec fn unique_keys(members: Seq<(Seq<char>, Json)>) -> bool {
    forall|i: int, j: int|
        0 <= i < j < members.len() ==> (#[trigger] members[i]).0 != (#[trigger] members[j]).0
}

/// The place of the last member that has `key`, or -1 where none has it.
pub open spec fn last_index_of(members: Seq<(Seq<char>, Json)>, key: Seq<char>) -> int
    decreases members.len(),
{
    if members.len() == 0 {
        -1
    } else if members.last().0 == key {
        members.len() - 1
    } else {
        last_index_of(members.drop_last(), key)
    }
}

/// The members after `value` was stored under `key`: in place of the last
/// member that has the key, or at the end where none has it.
pub open spec fn set_member(members: Seq<(Seq<char>, Json)>, key: Seq<char>, value: Json) -> Seq<
    (Seq<char>, Json),
> {
    let j = last_index_of(members, key);
    if j >= 0 {
        members.update(j, (key, value))
    } else {
        members.push((key, value))
    }
}

impl Json {
    /// The members of an object by key; empty for any other value.
    pub open spec fn fields(self) -> Map<Seq<char>, Json> {
        match self {
            Json::Object(members) => members_map(members),
            _ => Map::empty(),
        }
    }

    /// The member stored under `key`, if this is an object that has one.
    pub open spec fn get(self, key: Seq<char>) -> Option<Json> {
        if self.fields().contains_key(key) {
            Some(self.fields()[key])
        } else {
            None
        }
    }

    /// The text of a JSON string; nothing for any other value.
    pub open spec fn as_text(self) -> Option<Seq<char>> {
        match self {
            Json::Text(t) => Some(t),
            _ => None,
        }
    }

    /// The text stored under `key`, if this is an object whose member of
    /// that name is a string.
    pub open spec fn text_at(self, key: Seq<char>) -> Option<Seq<char>> {
        match self.get(key) {
            Some(v) => v.as_text(),
            None => None,
        }
    }
}

/// The model of a list of members.
pub open spec fn members_view(entries: Seq<(String, JsonValue)>) -> Seq<(Seq<char>, Json)>
    decreases entries,
{
    Seq::new(
        entries.len(),
        |i: int|
            if 0 <= i < entries.len() {
                (entries[i].0@, entries[i].1.view())
            } else {
                (Seq::empty(), Json::Null)
            },
    )
}

/// The model of a list of values.
pub open spec fn items_view(items: Seq<JsonValue>) -> Seq<Json>
    decreases items,
{
    Seq::new(
        items.len(),
        |i: int|
            if 0 <= i < items.len() {
                items[i].view()
            } else {
                Json::Null
            },
    )
}

impl View for JsonValue {
    type V = Json;

    open spec fn view(&self) -> Json
        decreases self,
    {
        match self {
            JsonValue::Null => Json::Null,
            JsonValue::Bool(b) => Json::Bool(*b),
            JsonValue::Number(n) => Json::Number(*n),
            JsonValue::String(s) => Json::Text(s@),
            JsonValue::Array(items) => Json::Array(items_view(items@)),
            JsonValue::Object(entries) => Json::Object(members_view(entries@)),
        }
    }
}

/// Adding a member at the end puts it into the map, over any earlier member
/// of the same key.
pub proof fn lemma_members_map_push(members: Seq<(Seq<char>, Json)>, key: Seq<char>, value: Json)
    ensures
        members_map(members.push((key, value))) == members_map(members).insert(key, value),
{
    assert(members.push((key, value)).drop_last() =~= members);
}

/// The map holds, under a key, the last member of that key.
pub proof fn lemma_members_map_at(members: Seq<(Seq<char>, Json)>, key: Seq<char>, j: int)
    requires
        0 <= j < members.len(),
        members[j].0 == key,
        forall|i: int| j < i < members.len() ==> (#[trigger] members[i]).0 != key,
    ensures
        members_map(members).contains_key(key),
        members_map(members)[key] == members[j].1,
    decreases members.len(),
{
    if j < members.len() - 1 {
        assert(members.last().0 != key);
        lemma_members_map_at(members.drop_last(), key, j);
    }
}

/// The map has no entry for a key that no member has.
pub proof fn lemma_members_map_absent(members: Seq<(Seq<char>, Json)>, key: Seq<char>)
    requires
        forall|i: int| 0 <= i < members.len() ==> (#[trigger] members[i]).0 != key,
    ensures
        !members_map(members).contains_key(key),
    decreases members.len(),
{
    if members.len() > 0 {
        assert(members.last().0 != key);
        lemma_members_map_absent(members.drop_last(), key);
    }
}

/// Replacing the last member of a key changes the map at that key alone.
pub proof fn lemma_members_map_update(
    members: Seq<(Seq<char>, Json)>,
    j: int,
    key: Seq<char>,
    value: Json,
)
    requires
        0 <= j < members.len(),
        members[j].0 == key,
        forall|i: int| j < i < members.len() ==> (#[trigger] members[i]).0 != key,
    ensures
        members_map(members.update(j, (key, value))) == members_map(members).insert(key, value),
    decreases members.len(),
{
    let updated = members.update(j, (key, value));
    if j == members.len() - 1 {
        assert(updated.drop_last() =~= members.drop_last());
        assert(members_map(updated) =~= members_map(members).insert(key, value));
    } else {
        assert(members.last().0 != key);
        assert(updated.drop_last() =~= members.drop_last().update(j, (key, value)));
        lemma_members_map_update(members.drop_last(), j, key, value);
        assert(members_map(updated) =~= members_map(members).insert(key, value));
    }
}

/// The keys of the map are the keys of the members.
pub proof fn lemma_members_map_keys(members: Seq<(Seq<char>, Json)>, key: Seq<char>)
    ensures
        members_map(members).contains_key(key) <==> exists|i: int|
            0 <= i < members.len() && (#[trigger] members[i]).0 == key,
    decreases members.len(),
{
    if members.len() > 0 {
        lemma_members_map_keys(members.drop_last(), key);
        let last = members.len() - 1;
        if members[last].0 == key {
        } else if members_map(members.drop_last()).contains_key(key) {
            let i = choose|i: int|
                0 <= i < members.drop_last().len() && (#[trigger] members.drop_last()[i]).0 == key;
            assert(members[i].0 == key);
        } else {
            assert forall|i: int| 0 <= i < members.len() implies (#[trigger] members[i]).0
                != key by {
                if i < last {
                    assert(members.drop_last()[i].0 != key);
                }
            }
        }
    }
}

impl Clone for JsonValue {
    /// A deep copy: the copy has the same model.
    fn clone(&self) -> (copy: Self)
        ensures
            copy@ == self@,
        decreases self,
    {
        match self {
            JsonValue::Null => JsonValue::Null,
            JsonValue::Bool(b) => JsonValue::Bool(*b),
            JsonValue::Number(n) => JsonValue::Number(*n),
            JsonValue::String(s) => JsonValue::String(s.clone()),
            JsonValue::Array(items) => {
                let mut copy: Vec<JsonValue> = Vec::new();
                let mut i: usize = 0;
                while i < items.len()
                    invariant
                        i <= items.len(),
                        copy.len() == i,
                        *self == JsonValue::Array(*items),
                        forall|k: int| 0 <= k < i ==> (#[trigger] copy[k])@ == items[k]@,
                    decreases items.len() - i,
                {
                    assert(decreases_to!(self => self->Array_0[i as int]));
                    let item = items[i].clone();
                    copy.push(item);
                    i += 1;
                }
                assert(items_view(copy@) =~= items_view(items@));
                JsonValue::Array(copy)
            },
            JsonValue::Object(entries) => {
                let mut copy: Vec<(String, JsonValue)> = Vec::new();
                let mut i: usize = 0;
                while i < entries.len()
                    invariant
                        i <= entries.len(),
                        copy.len() == i,
                        *self == JsonValue::Object(*entries),
                        forall|k: int|
                            0 <= k < i ==> (#[trigger] copy[k]).0@ == entries[k].0@ && copy[k].1@
                                == entries[k].1@,
                    decreases entries.len() - i,
                {
                    let key = entries[i].0.clone();
                    assert(decreases_to!(self => self->Object_0[i as int].1));
                    let value = entries[i].1.clone();
                    copy.push((key, value));
                    i += 1;
                }
                assert(members_view(copy@) =~= members_view(entries@));
                JsonValue::Object(copy)
            },
        }
    }
}

impl JsonValue {
    /// A JSON string holding the characters of `s`.
    pub fn text(s: &str) -> (value: JsonValue)
        ensures
            value@ == Json::Text(s@),
    {
        JsonValue::String(String::from_str(s))
    }

    /// A JSON string holding the text `s`.
    pub fn string(s: String) -> (value: JsonValue)
        ensures
            value@ == Json::Text(s@),
    {
        JsonValue::String(s)
    }

    /// A JSON number holding a count.
    pub fn count(n: u64) -> (value: JsonValue)
        ensures
            value@ == Json::Number(JsonNumber::PosInt(n)),
    {
        JsonValue::Number(JsonNumber::PosInt(n))
    }

    /// The text of a JSON string; nothing for any other value.
    pub fn as_str(&self) -> (text: Option<&str>)
        ensures
            match text {
                Some(t) => self@.as_text() == Some(t@),
                None => self@.as_text() is None,
            },
    {
        match self {
            JsonValue::String(s) => Some(s.as_str()),
            _ => None,
        }
    }

    /// The member stored under `key`, if this is an object that has one.
    /// Where the key occurs more than once, the last member is the one.
    pub fn get(&self, key: &str) -> (found: Option<&JsonValue>)
        ensures
            match found {
                Some(v) => self@.get(key@) == Some(v@),
                None => self@.get(key@) is None,
            },
    {
        match self {
            JsonValue::Object(entries) => {
                let mut i: usize = entries.len();
                while i > 0
                    invariant
                        i <= entries.len(),
                        *self == JsonValue::Object(*entries),
                        forall|k: int| i <= k < entries.len() ==> (#[trigger] entries[k]).0@ != key@,
                    decreases i,
                {
                    i -= 1;
                    if str_eq(entries[i].0.as_str(), key) {
                        proof {
                            let members = members_view(entries@);
                            assert forall|k: int| i < k < members.len() implies (
                            #[trigger] members[k]).0 != key@ by {
                                assert(entries[k].0@ != key@);
                            }
                            lemma_members_map_at(members, key@, i as int);
                        }
                        return Some(&entries[i].1);
                    }
                }
                proof {
                    let members = members_view(entries@);
                    assert forall|k: int| 0 <= k < members.len() implies (#[trigger] members[k]).0
                        != key@ by {
                        assert(entries[k].0@ != key@);
                    }
                    lemma_members_map_absent(members, key@);
                }
                None
            },
            _ => None,
        }
    }

    /// The text stored under `key`, if this is an object whose member of
    /// that name is a string.
    pub fn str_at(&self, key: &str) -> (text: Option<&str>)
        ensures
            match text {
                Some(t) => self@.text_at(key@) == Some(t@),
                None => self@.text_at(key@) is None,
            },
    {
        match self.get(key) {
            Some(v) => v.as_str(),
            None => None,
        }
    }
}

/// Where the last member of a key stands: at `j` if the members after `j`
/// have other keys.
pub proof fn lemma_last_index_at(members: Seq<(Seq<char>, Json)>, key: Seq<char>, j: int)
    requires
        0 <= j < members.len(),
        members[j].0 == key,
        forall|i: int| j < i < members.len() ==> (#[trigger] members[i]).0 != key,
    ensures
        last_index_of(members, key) == j,
    decreases members.len(),
{
    if j < members.len() - 1 {
        assert(members.last().0 != key);
        lemma_last_index_at(members.drop_last(), key, j);
    }
}

/// No member has the key: there is no last one.
pub proof fn lemma_last_index_none(members: Seq<(Seq<char>, Json)>, key: Seq<char>)
    requires
        forall|i: int| 0 <= i < members.len() ==> (#[trigger] members[i]).0 != key,
    ensures
        last_index_of(members, key) == -1,
    decreases members.len(),
{
    if members.len() > 0 {
        assert(members.last().0 != key);
        lemma_last_index_none(members.drop_last(), key);
    }
}

/// What `last_index_of` finds: a member of the key, with none after it.
pub proof fn lemma_last_index_of(members: Seq<(Seq<char>, Json)>, key: Seq<char>)
    ensures
        -1 <= last_index_of(members, key) < members.len(),
        last_index_of(members, key) >= 0 ==> members[last_index_of(members, key)].0 == key,
        forall|i: int|
            last_index_of(members, key) < i < members.len() ==> (#[trigger] members[i]).0 != key,
    decreases members.len(),
{
    if members.len() > 0 && members.last().0 != key {
        lemma_last_index_of(members.drop_last(), key);
        assert forall|i: int| last_index_of(members, key) < i < members.len() implies (
        #[trigger] members[i]).0 != key by {
            if i < members.len() - 1 {
                assert(members.drop_last()[i].0 != key);
            }
        }
    }
}

/// Storing a value under a key changes the map of the members at that key
/// alone, adds no second member of a key, and adds a member only where the
/// key is new.
pub proof fn lemma_set_member(members: Seq<(Seq<char>, Json)>, key: Seq<char>, value: Json)
    ensures
        members_map(set_member(members, key, value)) == members_map(members).insert(key, value),
        unique_keys(members) ==> unique_keys(set_member(members, key, value)),
        set_member(members, key, value).len() == if members_map(members).contains_key(key) {
            members.len()
        } else {
            members.len() + 1
        },
{
    let j = last_index_of(members, key);
    let after = set_member(members, key, value);
    lemma_last_index_of(members, key);
    lemma_members_map_keys(members, key);
    if j >= 0 {
        lemma_members_map_update(members, j, key, value);
        if unique_keys(members) {
            assert forall|a: int, b: int| 0 <= a < b < after.len() implies (#[trigger] after[a]).0
                != (#[trigger] after[b]).0 by {
                assert(members[a].0 != members[b].0);
            }
        }
    } else {
        lemma_members_map_push(members, key, value);
        if unique_keys(members) {
            assert forall|a: int, b: int| 0 <= a < b < after.len() implies (#[trigger] after[a]).0
                != (#[trigger] after[b]).0 by {
                if b < members.len() {
                    assert(members[a].0 != members[b].0);
                } else {
                    assert(members[a].0 != key);
                }
            }
        }
    }
}

/// Stores `value` under `key` among the members of an object: in place of the
/// last member that has the key, or at the end where none has it.
pub fn insert_member(entries: &mut Vec<(String, JsonValue)>, key: String, value: JsonValue)
    ensures
        members_view(final(entries)@) == set_member(members_view(old(entries)@), key@, value@),
{
    let ghost before = members_view(entries@);
    let mut i: usize = entries.len();
    while i > 0
        invariant
            i <= entries.len(),
            entries@ == old(entries)@,
            before == members_view(old(entries)@),
            forall|k: int| i <= k < entries.len() ==> (#[trigger] entries[k]).0@ != key@,
        decreases i,
    {
        i -= 1;
        if str_eq(entries[i].0.as_str(), key.as_str()) {
            proof {
                assert forall|k: int| i < k < before.len() implies (#[trigger] before[k]).0
                    != key@ by {
                    assert(entries[k].0@ != key@);
                }
                lemma_last_index_at(before, key@, i as int);
            }
            entries.set(i, (key, value));
            assert(members_view(entries@) =~= before.update(i as int, (key@, value@)));
            return ;
        }
    }
    proof {
        assert forall|k: int| 0 <= k < before.len() implies (#[trigger] before[k]).0 != key@ by {
            assert(entries[k].0@ != key@);
        }
        lemma_last_index_none(before, key@);
    }
    entries.push((key, value));
    assert(members_view(entries@) =~= before.push((key@, value@)));
}

/// Adds a member at the end of the members of an object that is being
/// built.
pub fn push_member(entries: &mut Vec<(String, JsonValue)>, key: &str, value: JsonValue)
    ensures
        members_view(final(entries)@) == members_view(old(entries)@).push((key@, value@)),
{
    let ghost before = members_view(entries@);
    entries.push((String::from_str(key), value));
    assert(members_view(entries@) =~= before.push((key@, value@)));
}

/// The members of an object that is being built, before the first.
pub fn no_members() -> (entries: Vec<(String, JsonValue)>)
    ensures
        members_view(entries@) == Seq::<(Seq<char>, Json)>::empty(),
{
    let entries: Vec<(String, JsonValue)> = Vec::new();
    assert(members_view(entries@) =~= Seq::<(Seq<char>, Json)>::empty());
    entries
}

} // verus!
