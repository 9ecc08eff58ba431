//! Plain JSON values as the v0 protocol reads and writes them.
//!
//! Numbers are kept as unsigned integers, the sole numbers the strict v0 parser
//! admits; any other number read from elsewhere is `OtherNumber`, held by its
//! canonical text.
use vstd::prelude::*;

verus! {

/// A JSON value.
#[derive(Debug)]
pub enum Json {
    /// `null`.
    Null,
    /// `true` or `false`.
    Bool(bool),
    /// An unsigned integer.
    Number(u64),
    /// Any other number (negative, fractional, or out of range), by its
    /// canonical text.
    OtherNumber(String),
    /// A string.
    Text(String),
    /// An array.
    Array(Vec<Json>),
    /// An object, as its members in order.
    Object(Vec<(String, Json)>),
}

/// The mathematical content of a [`Json`] value.
pub enum JsonView {
    Null,
    Bool(bool),
    Number(u64),
    OtherNumber(Seq<char>),
    Text(Seq<char>),
    Array(Seq<JsonView>),
    Object(Seq<(Seq<char>, JsonView)>),
}

impl Json {
    /// The mathematical content of this value.
    pub open spec fn spec_view(&self) -> JsonView
        decreases self, 1nat,
    {
        match self {
            Json::Null => JsonView::Null,
            Json::Bool(b) => JsonView::Bool(*b),
            Json::Number(n) => JsonView::Number(*n),
            Json::OtherNumber(t) => JsonView::OtherNumber(t@),
            Json::Text(s) => JsonView::Text(s@),
            Json::Array(items) => JsonView::Array(views_of(items@)),
            Json::Object(members) => JsonView::Object(member_views_of(members@)),
        }
    }
}

/// The views of a sequence of values.
pub open spec fn views_of(items: Seq<Json>) -> Seq<JsonView>
    decreases items, 0nat,
{
    if items.len() == 0 {
        Seq::empty()
    } else {
        views_of(items.drop_last()).push(items.last().spec_view())
    }
}

/// The views of a sequence of object members.
pub open spec fn member_views_of(members: Seq<(String, Json)>) -> Seq<(Seq<char>, JsonView)>
    decreases members, 0nat,
{
    if members.len() == 0 {
        Seq::empty()
    } else {
        member_views_of(members.drop_last()).push((members.last().0@, members.last().1.spec_view()))
    }
}

/// The value of the first member named `key`.
pub open spec fn member_value(members: Seq<(Seq<char>, JsonView)>, key: Seq<char>) -> Option<JsonView>
    decreases members.len(),
{
    if members.len() == 0 {
        None
    } else if members[0].0 == key {
        Some(members[0].1)
    } else {
        member_value(members.drop_first(), key)
    }
}

/// Whether `key` is `first` or `second`.
pub open spec fn key_in(key: Seq<char>, first: Seq<char>, second: Seq<char>) -> bool {
    key == first || key == second
}

impl JsonView {
    /// The member named `key` of an object; `None` for a missing member or a
    /// value that is not an object.
    pub open spec fn field(self, key: Seq<char>) -> Option<JsonView> {
        match self {
            JsonView::Object(members) => member_value(members, key),
            _ => None,
        }
    }

    /// The text of a string value.
    pub open spec fn text(self) -> Option<Seq<char>> {
        match self {
            JsonView::Text(s) => Some(s),
            _ => None,
        }
    }

    /// The value of an unsigned integer.
    pub open spec fn number(self) -> Option<u64> {
        match self {
            JsonView::Number(n) => Some(n),
            _ => None,
        }
    }

    /// The value of a boolean.
    pub open spec fn boolean(self) -> Option<bool> {
        match self {
            JsonView::Bool(b) => Some(b),
            _ => None,
        }
    }

    /// Whether this is an object whose every member is named `first` or `second`.
    pub open spec fn keys_within(self, first: Seq<char>, second: Seq<char>) -> bool {
        match self {
            JsonView::Object(members) => forall|i: int|
                0 <= i < members.len() ==> key_in(#[trigger] members[i].0, first, second),
            _ => false,
        }
    }

    /// The items of an array.
    pub open spec fn items(self) -> Option<Seq<JsonView>> {
        match self {
            JsonView::Array(items) => Some(items),
            _ => None,
        }
    }
}

/// The text of an optional value's string.
pub open spec fn opt_text(value: Option<JsonView>) -> Option<Seq<char>> {
    match value {
        Some(v) => v.text(),
        None => None,
    }
}

/// The number of an optional value.
pub open spec fn opt_number(value: Option<JsonView>) -> Option<u64> {
    match value {
        Some(v) => v.number(),
        None => None,
    }
}

/// The boolean of an optional value.
pub open spec fn opt_boolean(value: Option<JsonView>) -> Option<bool> {
    match value {
        Some(v) => v.boolean(),
        None => None,
    }
}

/// The member of an optional value.
pub open spec fn opt_field(value: Option<JsonView>, key: Seq<char>) -> Option<JsonView> {
    match value {
        Some(v) => v.field(key),
        None => None,
    }
}

proof fn lemma_views_of_index(items: Seq<Json>, i: int)
    requires
        0 <= i < items.len(),
    ensures
        views_of(items).len() == items.len(),
        views_of(items)[i] == items[i].spec_view(),
    decreases items.len(),
{
    if i < items.len() - 1 {
        lemma_views_of_index(items.drop_last(), i);
    } else {
        lemma_views_of_len(items.drop_last());
    }
}

proof fn lemma_views_of_len(items: Seq<Json>)
    ensures
        views_of(items).len() == items.len(),
    decreases items.len(),
{
    if items.len() > 0 {
        lemma_views_of_len(items.drop_last());
    }
}

pub proof fn lemma_member_views_index(members: Seq<(String, Json)>, i: int)
    requires
        0 <= i < members.len(),
    ensures
        member_views_of(members).len() == members.len(),
        member_views_of(members)[i] == (members[i].0@, members[i].1.spec_view()),
    decreases members.len(),
{
    if i < members.len() - 1 {
        lemma_member_views_index(members.drop_last(), i);
    } else {
        lemma_member_views_len(members.drop_last());
    }
}

pub proof fn lemma_member_views_len(members: Seq<(String, Json)>)
    ensures
        member_views_of(members).len() == members.len(),
    decreases members.len(),
{
    if members.len() > 0 {
        lemma_member_views_len(members.drop_last());
    }
}

proof fn lemma_member_value_skip(members: Seq<(Seq<char>, JsonView)>, key: Seq<char>, i: int)
    requires
        0 <= i <= members.len(),
        forall|j: int| 0 <= j < i ==> #[trigger] members[j].0 != key,
    ensures
        member_value(members, key) == member_value(members.skip(i), key),
    decreases i,
{
    if i > 0 {
        assert(members[0].0 != key);
        lemma_member_value_skip(members.drop_first(), key, i - 1);
        assert(members.drop_first().skip(i - 1) =~= members.skip(i));
    } else {
        assert(members.skip(0) =~= members);
    }
}

proof fn lemma_views_of_push(items: Seq<Json>, item: Json)
    ensures
        views_of(items.push(item)) == views_of(items).push(item.spec_view()),
{
    assert(items.push(item).drop_last() =~= items);
}

proof fn lemma_member_views_push(members: Seq<(String, Json)>, member: (String, Json))
    ensures
        member_views_of(members.push(member)) == member_views_of(members).push(
            (member.0@, member.1.spec_view()),
        ),
{
    assert(members.push(member).drop_last() =~= members);
}

/// An empty item list.
pub fn no_items() -> (items: Vec<Json>)
    ensures
        views_of(items@) == Seq::<JsonView>::empty(),
{
    let items: Vec<Json> = Vec::new();
    assert(views_of(items@) =~= Seq::<JsonView>::empty());
    items
}

/// Append a value to an item list.
pub fn push_item(items: &mut Vec<Json>, value: Json)
    ensures
        views_of(final(items)@) == views_of(old(items)@).push(value.spec_view()),
{
    proof {
        lemma_views_of_push(items@, value);
    }
    items.push(value);
}

impl Json {
    /// A string value.
    pub fn text(text: &str) -> (value: Json)
        ensures
            value.spec_view() == JsonView::Text(text@),
    {
        Json::Text(String::from_str(text))
    }

    /// An optional string, or `null`.
    pub fn text_or_null(text: &Option<String>) -> (value: Json)
        ensures
            value.spec_view() == match text {
                Some(t) => JsonView::Text(t@),
                None => JsonView::Null,
            },
    {
        match text {
            Some(t) => Json::Text(t.clone()),
            None => Json::Null,
        }
    }

    /// An optional number, or `null`.
    pub fn number_or_null(value: Option<u64>) -> (json: Json)
        ensures
            json.spec_view() == match value {
                Some(n) => JsonView::Number(n),
                None => JsonView::Null,
            },
    {
        match value {
            Some(n) => Json::Number(n),
            None => Json::Null,
        }
    }

    /// A copy of this value.
    #[verifier::loop_isolation(false)]
    pub fn duplicate(&self) -> (copy: Json)
        ensures
            copy.spec_view() == self.spec_view(),
        decreases self,
    {
        match self {
            Json::Null => Json::Null,
            Json::Bool(b) => Json::Bool(*b),
            Json::Number(n) => Json::Number(*n),
            Json::OtherNumber(t) => Json::OtherNumber(t.clone()),
            Json::Text(s) => Json::Text(s.clone()),
            Json::Array(items) => {
                let mut copies: Vec<Json> = Vec::new();
                let mut index: usize = 0;
                while index < items.len()
                    invariant
                        0 <= index <= items@.len(),
                        views_of(copies@) == views_of(items@.subrange(0, index as int)),
                    decreases items@.len() - index,
                {
                    assert(decreases_to!(self => items));
                    assert(decreases_to!(items => items@));
                    assert(decreases_to!(items@ => items@[index as int]));
                    let item = items[index].duplicate();
                    proof {
                        lemma_views_of_push(copies@, item);
                        assert(items@.subrange(0, index as int + 1).drop_last() =~= items@.subrange(0, index as int));
                    }
                    copies.push(item);
                    index = index + 1;
                }
                assert(items@.subrange(0, items@.len() as int) =~= items@);
                Json::Array(copies)
            },
            Json::Object(members) => {
                let mut copies: Vec<(String, Json)> = Vec::new();
                let mut index: usize = 0;
                while index < members.len()
                    invariant
                        0 <= index <= members@.len(),
                        member_views_of(copies@) == member_views_of(members@.subrange(0, index as int)),
                    decreases members@.len() - index,
                {
                    assert(decreases_to!(self => members));
                    assert(decreases_to!(members => members@));
                    assert(decreases_to!(members@ => members@[index as int]));
                    assert(decreases_to!(members@[index as int] => members@[index as int].1));
                    let value = members[index].1.duplicate();
                    let member = (members[index].0.clone(), value);
                    proof {
                        lemma_member_views_push(copies@, member);
                        assert(members@.subrange(0, index as int + 1).drop_last() =~= members@.subrange(0, index as int));
                    }
                    copies.push(member);
                    index = index + 1;
                }
                assert(members@.subrange(0, members@.len() as int) =~= members@);
                Json::Object(copies)
            },
        }
    }

    /// Whether two values are equal.
    #[verifier::loop_isolation(false)]
    pub fn equals(&self, other: &Json) -> (equal: bool)
        ensures
            equal == (self.spec_view() == other.spec_view()),
        decreases self,
    {
        match (self, other) {
            (Json::Null, Json::Null) => true,
            (Json::Bool(a), Json::Bool(b)) => *a == *b,
            (Json::Number(a), Json::Number(b)) => *a == *b,
            (Json::OtherNumber(a), Json::OtherNumber(b)) => *a == *b,
            (Json::Text(a), Json::Text(b)) => *a == *b,
            (Json::Array(a), Json::Array(b)) => {
                proof {
                    lemma_views_of_len(a@);
                    lemma_views_of_len(b@);
                }
                if a.len() != b.len() {
                    return false;
                }
                let mut index: usize = 0;
                while index < a.len()
                    invariant
                        a@.len() == b@.len(),
                        0 <= index <= a@.len(),
                        forall|j: int| 0 <= j < index ==> #[trigger] a@[j].spec_view() == b@[j].spec_view(),
                    decreases a@.len() - index,
                {
                    assert(decreases_to!(self => a));
                    assert(decreases_to!(a => a@));
                    assert(decreases_to!(a@ => a@[index as int]));
                    if !a[index].equals(&b[index]) {
                        proof {
                            lemma_views_of_index(a@, index as int);
                            lemma_views_of_index(b@, index as int);
                        }
                        return false;
                    }
                    index = index + 1;
                }
                proof {
                    assert forall|j: int| 0 <= j < views_of(a@).len() implies views_of(a@)[j] == views_of(b@)[j] by {
                        lemma_views_of_index(a@, j);
                        lemma_views_of_index(b@, j);
                    }
                    assert(views_of(a@) =~= views_of(b@));
                }
                true
            },
            (Json::Object(a), Json::Object(b)) => {
                proof {
                    lemma_member_views_len(a@);
                    lemma_member_views_len(b@);
                }
                if a.len() != b.len() {
                    return false;
                }
                let mut index: usize = 0;
                while index < a.len()
                    invariant
                        a@.len() == b@.len(),
                        0 <= index <= a@.len(),
                        forall|j: int| 0 <= j < index ==> (#[trigger] a@[j]).0@ == b@[j].0@ && a@[j].1.spec_view() == b@[j].1.spec_view(),
                    decreases a@.len() - index,
                {
                    assert(decreases_to!(self => a));
                    assert(decreases_to!(a => a@));
                    assert(decreases_to!(a@ => a@[index as int]));
                    assert(decreases_to!(a@[index as int] => a@[index as int].1));
                    if a[index].0 != b[index].0 || !a[index].1.equals(&b[index].1) {
                        proof {
                            lemma_member_views_index(a@, index as int);
                            lemma_member_views_index(b@, index as int);
                        }
                        return false;
                    }
                    index = index + 1;
                }
                proof {
                    assert forall|j: int| 0 <= j < member_views_of(a@).len() implies member_views_of(a@)[j] == member_views_of(b@)[j] by {
                        lemma_member_views_index(a@, j);
                        lemma_member_views_index(b@, j);
                    }
                    assert(member_views_of(a@) =~= member_views_of(b@));
                }
                true
            },
            _ => false,
        }
    }

    /// Whether this is an object whose every member is named `first` or `second`.
    #[verifier::loop_isolation(false)]
    pub fn keys_within(&self, first: &str, second: &str) -> (within: bool)
        ensures
            within == self.spec_view().keys_within(first@, second@),
    {
        match self {
            Json::Object(members) => {
                let first_text = String::from_str(first);
                let second_text = String::from_str(second);
                let ghost views = member_views_of(members@);
                proof {
                    lemma_member_views_len(members@);
                }
                let mut index: usize = 0;
                while index < members.len()
                    invariant
                        views == member_views_of(members@),
                        views.len() == members@.len(),
                        first_text@ == first@,
                        second_text@ == second@,
                        0 <= index <= members@.len(),
                        forall|j: int|
                            0 <= j < index ==> key_in(#[trigger] views[j].0, first@, second@),
                    decreases members@.len() - index,
                {
                    proof {
                        lemma_member_views_index(members@, index as int);
                    }
                    if members[index].0 != first_text && members[index].0 != second_text {
                        proof {
                            assert(self.spec_view() == JsonView::Object(views));
                            let ms = self.spec_view()->Object_0;
                            assert(ms == views);
                            assert(!key_in(ms[index as int].0, first@, second@));
                        }
                        return false;
                    }
                    index = index + 1;
                }
                true
            },
            _ => false,
        }
    }

    /// The member named `key` of an object.
    #[verifier::loop_isolation(false)]
    pub fn get(&self, key: &str) -> (value: Option<&Json>)
        ensures
            match value {
                Some(v) => self.spec_view().field(key@) == Some(v.spec_view()),
                None => self.spec_view().field(key@) is None,
            },
    {
        match self {
            Json::Object(members) => {
                let wanted = String::from_str(key);
                let ghost views = member_views_of(members@);
                proof {
                    lemma_member_views_len(members@);
                }
                let mut index: usize = 0;
                while index < members.len()
                    invariant
                        views == member_views_of(members@),
                        views.len() == members@.len(),
                        wanted@ == key@,
                        0 <= index <= members@.len(),
                        forall|j: int| 0 <= j < index ==> #[trigger] views[j].0 != key@,
                    decreases members@.len() - index,
                {
                    proof {
                        lemma_member_views_index(members@, index as int);
                    }
                    if members[index].0 == wanted {
                        proof {
                            lemma_member_value_skip(views, key@, index as int);
                            assert(views.skip(index as int)[0] == views[index as int]);
                        }
                        return Some(&members[index].1);
                    }
                    index = index + 1;
                }
                proof {
                    lemma_member_value_skip(views, key@, index as int);
                }
                None
            },
            _ => None,
        }
    }

    /// The text of a string value.
    pub fn as_text(&self) -> (text: Option<&String>)
        ensures
            match text {
                Some(t) => self.spec_view().text() == Some(t@),
                None => self.spec_view().text() is None,
            },
    {
        match self {
            Json::Text(s) => Some(s),
            _ => None,
        }
    }

    /// The value of an unsigned integer.
    pub fn as_number(&self) -> (number: Option<u64>)
        ensures
            number == self.spec_view().number(),
    {
        match self {
            Json::Number(n) => Some(*n),
            _ => None,
        }
    }

    /// The value of a boolean.
    pub fn as_boolean(&self) -> (boolean: Option<bool>)
        ensures
            boolean == self.spec_view().boolean(),
    {
        match self {
            Json::Bool(b) => Some(*b),
            _ => None,
        }
    }

    /// The items of an array.
    pub fn as_items(&self) -> (items: Option<&Vec<Json>>)
        ensures
            match items {
                Some(v) => self.spec_view().items() == Some(views_of(v@)),
                None => self.spec_view().items() is None,
            },
    {
        match self {
            Json::Array(items) => Some(items),
            _ => None,
        }
    }
}

} // verus!
