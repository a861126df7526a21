//! JSON values, as they stand in stratum messages, node calls and database rows.

use crate::text::same_text;
use vstd::prelude::*;

verus! {

/// A JSON value.
#[derive(Debug, PartialEq)]
pub enum Json {
    Null,
    Bool(bool),
    /// An integer that is not negative.
    Uint(u64),
    /// A negative integer.
    Int(i64),
    /// The bits of a 64-bit floating-point number.
    Real(u64),
    Str(String),
    Array(Vec<Json>),
    Object(Vec<(String, Json)>),
}

/// A JSON value as a mathematical value.
pub enum JsonView {
    Null,
    Bool(bool),
    Uint(u64),
    Int(i64),
    Real(u64),
    Str(Seq<char>),
    Array(Seq<JsonView>),
    Object(Seq<(Seq<char>, JsonView)>),
}

/// What a JSON value is.
pub open spec fn json_view(value: Json) -> JsonView
    decreases value,
{
    match value {
        Json::Null => JsonView::Null,
        Json::Bool(b) => JsonView::Bool(b),
        Json::Uint(n) => JsonView::Uint(n),
        Json::Int(n) => JsonView::Int(n),
        Json::Real(bits) => JsonView::Real(bits),
        Json::Str(s) => JsonView::Str(s@),
        Json::Array(items) => JsonView::Array(
            Seq::new(
                items@.len(),
                |i: int|
                    if 0 <= i < items@.len() {
                        json_view(items@[i])
                    } else {
                        JsonView::Null
                    },
            ),
        ),
        Json::Object(pairs) => JsonView::Object(
            Seq::new(
                pairs@.len(),
                |i: int|
                    if 0 <= i < pairs@.len() {
                        (pairs@[i].0@, json_view(pairs@[i].1))
                    } else {
                        (Seq::empty(), JsonView::Null)
                    },
            ),
        ),
    }
}

impl View for Json {
    type V = JsonView;

    open spec fn view(&self) -> JsonView {
        json_view(*self)
    }
}

/// The value of the last pair with the key.
pub open spec fn last_with(pairs: Seq<(Seq<char>, JsonView)>, key: Seq<char>) -> Option<JsonView>
    decreases pairs.len(),
{
    if pairs.len() == 0 {
        None
    } else if pairs.last().0 == key {
        Some(pairs.last().1)
    } else {
        last_with(pairs.drop_last(), key)
    }
}

impl JsonView {
    /// The member of an object, nothing where the value is no object or has no such member.
    pub open spec fn member(self, key: Seq<char>) -> Option<JsonView> {
        match self {
            JsonView::Object(pairs) => last_with(pairs, key),
            _ => None,
        }
    }

    /// The member of an object, null where there is none.
    pub open spec fn field(self, key: Seq<char>) -> JsonView {
        match self.member(key) {
            Some(value) => value,
            None => JsonView::Null,
        }
    }

    /// The item of an array, null where there is none.
    pub open spec fn item(self, index: int) -> JsonView {
        match self {
            JsonView::Array(items) => if 0 <= index < items.len() {
                items[index]
            } else {
                JsonView::Null
            },
            _ => JsonView::Null,
        }
    }

    /// The text of a string.
    pub open spec fn text(self) -> Option<Seq<char>> {
        match self {
            JsonView::Str(s) => Some(s),
            _ => None,
        }
    }

    /// The text of a string, and `default` for any other value.
    pub open spec fn text_or(self, default: Seq<char>) -> Seq<char> {
        match self.text() {
            Some(s) => s,
            None => default,
        }
    }

    /// The number where it is an integer that fits in 64 bits with a sign.
    pub open spec fn integer(self) -> Option<i64> {
        match self {
            JsonView::Uint(n) => if n <= i64::MAX {
                Some(n as i64)
            } else {
                None
            },
            JsonView::Int(n) => Some(n),
            _ => None,
        }
    }
}

/// An integer as a JSON value.
pub open spec fn integer_value(n: i64) -> JsonView {
    if n >= 0 {
        JsonView::Uint(n as u64)
    } else {
        JsonView::Int(n)
    }
}

impl Json {
    pub fn is_null(&self) -> (yes: bool)
        ensures
            yes == (self@ == JsonView::Null),
    {
        match self {
            Json::Null => true,
            _ => false,
        }
    }

    /// The member of an object.
    pub fn get(&self, key: &str) -> (value: Option<&Json>)
        ensures
            match value {
                Some(v) => self@.member(key@) == Some(v@),
                None => self@.member(key@) is None,
            },
    {
        match self {
            Json::Object(pairs) => {
                let ghost views = self@->Object_0;
                let mut i: usize = pairs.len();
                assert(views.take(i as int) =~= views);
                while i > 0
                    invariant
                        i <= pairs@.len(),
                        self@ == JsonView::Object(views),
                        views.len() == pairs@.len(),
                        forall|j: int|
                            0 <= j < pairs@.len() ==> #[trigger] views[j] == (
                                pairs@[j].0@,
                                pairs@[j].1@,
                            ),
                        last_with(views, key@) == last_with(views.take(i as int), key@),
                    decreases i,
                {
                    i = i - 1;
                    let ghost part = views.take(i + 1);
                    assert(part.drop_last() =~= views.take(i as int));
                    assert(part.last() == views[i as int]);
                    if same_text(pairs[i].0.as_str(), key) {
                        return Some(&pairs[i].1);
                    }
                }
                None
            },
            _ => None,
        }
    }

    /// The text of a string.
    pub fn as_str(&self) -> (text: Option<&str>)
        ensures
            match text {
                Some(s) => self@.text() == Some(s@),
                None => self@.text() is None,
            },
    {
        match self {
            Json::Str(s) => Some(s.as_str()),
            _ => None,
        }
    }

    /// The text of the member, where it is a string.
    pub fn text_of_field(&self, key: &str) -> (text: Option<&str>)
        ensures
            match text {
                Some(s) => self@.field(key@).text() == Some(s@),
                None => self@.field(key@).text() is None,
            },
    {
        match self.get(key) {
            Some(value) => value.as_str(),
            None => None,
        }
    }

    /// The item of an array.
    pub fn at(&self, index: usize) -> (value: Option<&Json>)
        ensures
            match value {
                Some(v) => self@.item(index as int) == v@,
                None => self@.item(index as int) == JsonView::Null,
            },
    {
        match self {
            Json::Array(items) => if index < items.len() {
                Some(&items[index])
            } else {
                None
            },
            _ => None,
        }
    }

    /// The text of the item, where it is a string.
    pub fn text_of_item(&self, index: usize) -> (text: Option<&str>)
        ensures
            match text {
                Some(s) => self@.item(index as int).text() == Some(s@),
                None => self@.item(index as int).text() is None,
            },
    {
        match self.at(index) {
            Some(value) => value.as_str(),
            None => None,
        }
    }

    /// The number where it is an integer that fits in 64 bits with a sign.
    pub fn as_i64(&self) -> (n: Option<i64>)
        ensures
            n == self@.integer(),
    {
        match self {
            Json::Uint(n) => if *n <= i64::MAX as u64 {
                Some(*n as i64)
            } else {
                None
            },
            Json::Int(n) => Some(*n),
            _ => None,
        }
    }

    /// An integer as a JSON value.
    pub fn from_i64(n: i64) -> (value: Json)
        ensures
            value@ == integer_value(n),
    {
        if n >= 0 {
            Json::Uint(n as u64)
        } else {
            Json::Int(n)
        }
    }

    /// A string as a JSON value.
    pub fn string(s: &str) -> (value: Json)
        ensures
            value@ == JsonView::Str(s@),
    {
        Json::Str(s.to_owned())
    }

    /// An object without members.
    pub fn object() -> (value: Json)
        ensures
            value@ == JsonView::Object(seq![]),
    {
        let value = Json::Object(Vec::new());
        assert(value@->Object_0 =~= seq![]);
        value
    }

    /// The object with one more member.
    pub fn and(self, key: &str, member: Json) -> (value: Json)
        requires
            self@ is Object,
        ensures
            value@ == JsonView::Object(self@->Object_0.push((key@, member@))),
    {
        let ghost before = self@->Object_0;
        match self {
            Json::Object(mut pairs) => {
                let name: String = key.to_owned();
                pairs.push((name, member));
                let value = Json::Object(pairs);
                assert(value@->Object_0 =~= before.push((key@, member@)));
                value
            },
            other => other,
        }
    }

    /// An array without items.
    pub fn array() -> (value: Json)
        ensures
            value@ == JsonView::Array(seq![]),
    {
        let value = Json::Array(Vec::new());
        assert(value@->Array_0 =~= seq![]);
        value
    }

    /// The array with one more item.
    pub fn then_item(self, item: Json) -> (value: Json)
        requires
            self@ is Array,
        ensures
            value@ == JsonView::Array(self@->Array_0.push(item@)),
    {
        let ghost before = self@->Array_0;
        match self {
            Json::Array(mut items) => {
                items.push(item);
                let value = Json::Array(items);
                assert(value@->Array_0 =~= before.push(item@));
                value
            },
            other => other,
        }
    }

    /// A copy.
    pub fn copy(&self) -> (value: Json)
        ensures
            value@ == self@,
        decreases self,
    {
        match self {
            Json::Null => Json::Null,
            Json::Bool(b) => Json::Bool(*b),
            Json::Uint(n) => Json::Uint(*n),
            Json::Int(n) => Json::Int(*n),
            Json::Real(bits) => Json::Real(*bits),
            Json::Str(s) => Json::Str(s.clone()),
            Json::Array(items) => {
                let mut list: Vec<Json> = Vec::new();
                let mut i: usize = 0;
                while i < items.len()
                    invariant
                        i <= items@.len(),
                        list@.len() == i,
                        *self == Json::Array(*items),
                        forall|j: int| 0 <= j < i ==> (#[trigger] list@[j])@ == items@[j]@,
                    decreases items@.len() - i,
                {
                    assert(decreases_to!(self => self->Array_0@[i as int]));
                    list.push(items[i].copy());
                    i = i + 1;
                }
                let value = Json::Array(list);
                assert(value@->Array_0 =~= self@->Array_0);
                value
            },
            Json::Object(pairs) => {
                let mut list: Vec<(String, Json)> = Vec::new();
                let mut i: usize = 0;
                while i < pairs.len()
                    invariant
                        i <= pairs@.len(),
                        list@.len() == i,
                        *self == Json::Object(*pairs),
                        forall|j: int|
                            0 <= j < i ==> (#[trigger] list@[j]).0@ == pairs@[j].0@
                                && list@[j].1@ == pairs@[j].1@,
                    decreases pairs@.len() - i,
                {
                    assert(decreases_to!(self => self->Object_0@[i as int].1));
                    list.push((pairs[i].0.clone(), pairs[i].1.copy()));
                    i = i + 1;
                }
                let value = Json::Object(list);
                assert(value@->Object_0 =~= self@->Object_0);
                value
            },
        }
    }
}

/// A member that is added is found under its key and hides an older one; members with other keys
/// stay as they were. What is no object has no members.
pub proof fn members_are_found_by_their_key(
    pairs: Seq<(Seq<char>, JsonView)>,
    key: Seq<char>,
    value: JsonView,
    other: Seq<char>,
    no_object: JsonView,
)
    requires
        other != key,
        !(no_object is Object),
    ensures
        JsonView::Object(pairs.push((key, value))).member(key) == Some(value),
        JsonView::Object(pairs.push((key, value))).field(key) == value,
        JsonView::Object(pairs.push((key, value))).member(other) == JsonView::Object(pairs).member(
            other,
        ),
        JsonView::Object(Seq::empty()).member(key) is None,
        JsonView::Object(Seq::empty()).field(key) == JsonView::Null,
        no_object.member(key) is None,
        no_object.field(key) == JsonView::Null,
{
    assert(pairs.push((key, value)).drop_last() =~= pairs);
}

/// An item is found by its place; beyond the last one, and in what is no array, there is null.
pub proof fn items_are_found_by_their_place(
    items: Seq<JsonView>,
    index: int,
    no_array: JsonView,
)
    requires
        index >= 0,
        !(no_array is Array),
    ensures
        index < items.len() ==> JsonView::Array(items).item(index) == items[index],
        index >= items.len() ==> JsonView::Array(items).item(index) == JsonView::Null,
        no_array.item(index) == JsonView::Null,
{
}

/// Only strings have text; of all else the default is taken. Integers read back as they were
/// written, and one that needs all 64 bits is no signed integer.
pub proof fn texts_and_integers_are_read(s: Seq<char>, default: Seq<char>, no_text: JsonView, n: i64)
    requires
        !(no_text is Str),
    ensures
        JsonView::Str(s).text() == Some(s),
        JsonView::Str(s).text_or(default) == s,
        no_text.text() is None,
        no_text.text_or(default) == default,
        integer_value(n).integer() == Some(n),
        n >= 0 ==> integer_value(n) == JsonView::Uint(n as u64),
        JsonView::Str(s).integer() is None,
        forall|big: u64| big > i64::MAX ==> (#[trigger] JsonView::Uint(big).integer()) is None,
{
}

/// What a value stands for is made of what its parts stand for.
pub proof fn values_stand_for_their_parts(
    n: u64,
    i: i64,
    b: bool,
    s: String,
    items: Vec<Json>,
    pairs: Vec<(String, Json)>,
)
    ensures
        Json::Null@ == JsonView::Null,
        Json::Bool(b)@ == JsonView::Bool(b),
        Json::Uint(n)@ == JsonView::Uint(n),
        Json::Int(i)@ == JsonView::Int(i),
        Json::Real(n)@ == JsonView::Real(n),
        Json::Str(s)@ == JsonView::Str(s@),
        Json::Array(items)@ is Array,
        Json::Array(items)@->Array_0.len() == items@.len(),
        forall|k: int|
            0 <= k < items@.len() ==> #[trigger] Json::Array(items)@->Array_0[k] == items@[k]@,
        Json::Object(pairs)@ is Object,
        Json::Object(pairs)@->Object_0.len() == pairs@.len(),
        forall|k: int|
            0 <= k < pairs@.len() ==> #[trigger] Json::Object(pairs)@->Object_0[k] == (
                pairs@[k].0@,
                pairs@[k].1@,
            ),
{
}

/// A member is found under a key that no later member has.
pub proof fn last_member_with_a_key_is_found(pairs: Seq<(Seq<char>, JsonView)>, k: int)
    requires
        0 <= k < pairs.len(),
        forall|j: int| k < j < pairs.len() ==> (#[trigger] pairs[j]).0 != pairs[k].0,
    ensures
        JsonView::Object(pairs).member(pairs[k].0) == Some(pairs[k].1),
        JsonView::Object(pairs).field(pairs[k].0) == pairs[k].1,
    decreases pairs.len(),
{
    if k < pairs.len() - 1 {
        assert(pairs.last() == pairs[pairs.len() - 1]);
        let front = pairs.drop_last();
        assert forall|j: int| k < j < front.len() implies (#[trigger] front[j]).0 != front[k].0 by {
            assert(front[j] == pairs[j]);
        }
        last_member_with_a_key_is_found(front, k);
        assert(front[k] == pairs[k]);
    }
}

} // verus!
