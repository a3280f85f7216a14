//! JSON documents as the library sees them.
//!
//! Reading a line into a document and printing a document as a line is the
//! work of `serde_json`. What a document means as an envelope is decided
//! here, on [`Json`], a tree of plain values.
use crate::error::Error;
use serde_json::Value;
use vstd::prelude::*;

verus! {

/// The mathematical form of a [`Json`] document.
pub enum JsonView {
    Null,
    Bool(bool),
    Number(u64),
    OtherNumber,
    Text(Seq<char>),
    List(Seq<JsonView>),
    Object(Seq<(Seq<char>, JsonView)>),
}

/// A JSON document.
///
/// An object keeps its members in a list. Where a name occurs twice the
/// later member counts, as it does when the document is printed.
#[derive(Debug, PartialEq, Eq)]
pub enum Json {
    Null,
    Bool(bool),
    /// A whole number from 0 to 2^64 - 1.
    Number(u64),
    /// A negative or fractional number. Its value is not kept, and a
    /// document that holds one cannot be printed.
    OtherNumber,
    Text(String),
    List(Vec<Json>),
    Object(Vec<(String, Json)>),
}

/// The mathematical form of a document.
pub open spec fn json_view(j: Json) -> JsonView
    decreases j,
{
    match j {
        Json::Null => JsonView::Null,
        Json::Bool(b) => JsonView::Bool(b),
        Json::Number(n) => JsonView::Number(n),
        Json::OtherNumber => JsonView::OtherNumber,
        Json::Text(s) => JsonView::Text(s@),
        Json::List(items) => JsonView::List(
            Seq::new(
                items@.len(),
                |i: int|
                    if 0 <= i < items@.len() {
                        json_view(items@[i])
                    } else {
                        JsonView::Null
                    },
            ),
        ),
        Json::Object(members) => JsonView::Object(
            Seq::new(
                members@.len(),
                |i: int|
                    if 0 <= i < members@.len() {
                        (members@[i].0@, json_view(members@[i].1))
                    } else {
                        (Seq::empty(), JsonView::Null)
                    },
            ),
        ),
    }
}

impl Clone for Json {
    fn clone(&self) -> (copy: Self)
        ensures
            copy@ == self@,
    {
        self.duplicate()
    }
}

impl View for Json {
    type V = JsonView;

    open spec fn view(&self) -> JsonView {
        json_view(*self)
    }
}

/// The members of an object, each by its view.
pub open spec fn members_view(members: Seq<(String, Json)>) -> Seq<(Seq<char>, JsonView)> {
    Seq::new(members.len(), |i: int| (members[i].0@, members[i].1@))
}

/// The items of an array, each by its view.
pub open spec fn items_view(items: Seq<Json>) -> Seq<JsonView> {
    Seq::new(items.len(), |i: int| items[i]@)
}

/// The view of an object is made of the views of its members.
pub proof fn lemma_object_view(members: Vec<(String, Json)>)
    ensures
        Json::Object(members)@ == JsonView::Object(members_view(members@)),
{
    let j = Json::Object(members);
    assert(j@ is Object);
    let got = j@->Object_0;
    assert(got.len() == members@.len());
    assert forall|i: int| 0 <= i < got.len() implies got[i] == members_view(members@)[i] by {
        assert(got[i].0 == members@[i].0@);
        assert(got[i].1 == members@[i].1@);
    }
    assert(got =~= members_view(members@));
}

/// The view of an array is made of the views of its items.
pub proof fn lemma_list_view(items: Vec<Json>)
    ensures
        Json::List(items)@ == JsonView::List(items_view(items@)),
{
    assert(Json::List(items)@->List_0 =~= items_view(items@));
}

/// The member of an object that a name selects: the last one of that name.
pub open spec fn member(members: Seq<(Seq<char>, JsonView)>, name: Seq<char>) -> Option<JsonView>
    decreases members.len(),
{
    if members.len() == 0 {
        None
    } else if members.last().0 == name {
        Some(members.last().1)
    } else {
        member(members.drop_last(), name)
    }
}

/// A member is found under its name where no later member has that name.
pub proof fn lemma_member_at(members: Seq<(Seq<char>, JsonView)>, at: int, name: Seq<char>)
    requires
        0 <= at < members.len(),
        members[at].0 == name,
        forall|j: int| at < j < members.len() ==> (#[trigger] members[j]).0 != name,
    ensures
        member(members, name) == Some(members[at].1),
    decreases members.len(),
{
    if at < members.len() - 1 {
        assert(members.last() == members[members.len() - 1]);
        lemma_member_at(members.drop_last(), at, name);
    }
}

impl JsonView {
    /// The member `name` of an object; `None` for anything but an object.
    pub open spec fn field(self, name: Seq<char>) -> Option<JsonView> {
        match self {
            JsonView::Object(members) => member(members, name),
            _ => None,
        }
    }

    /// The number, where the document is one that fits 32 bits.
    pub open spec fn as_u32(self) -> Option<u32> {
        match self {
            JsonView::Number(n) => if n <= u32::MAX {
                Some(n as u32)
            } else {
                None
            },
            _ => None,
        }
    }

    /// The text, where the document is a string.
    pub open spec fn as_text(self) -> Option<Seq<char>> {
        match self {
            JsonView::Text(s) => Some(s),
            _ => None,
        }
    }

    /// The truth value, where the document is one.
    pub open spec fn as_bool(self) -> Option<bool> {
        match self {
            JsonView::Bool(b) => Some(b),
            _ => None,
        }
    }

    /// The items, where the document is an array.
    pub open spec fn as_list(self) -> Option<Seq<JsonView>> {
        match self {
            JsonView::List(items) => Some(items),
            _ => None,
        }
    }
}

impl Json {
    /// The member `name` of an object.
    pub fn field(&self, name: &str) -> (found: Option<&Json>)
        ensures
            found matches Some(j) ==> self@.field(name@) == Some(j@),
            found is None ==> self@.field(name@) is None,
    {
        match self {
            Json::Object(members) => {
                let wanted = name.to_owned();
                let ghost all = members_view(members@);
                let mut i: usize = members.len();
                proof {
                    lemma_object_view(*members);
                    assert(all.take(i as int) == all);
                }
                while i > 0
                    invariant
                        i <= members.len(),
                        self@ == JsonView::Object(all),
                        wanted@ == name@,
                        all == members_view(members@),
                        member(all, name@) == member(all.take(i as int), name@),
                    decreases i,
                {
                    i = i - 1;
                    proof {
                        assert(all.take(i + 1).last() == all[i as int]);
                        assert(all.take(i + 1).drop_last() == all.take(i as int));
                    }
                    if members[i].0 == wanted {
                        return Some(&members[i].1);
                    }
                }
                None
            },
            _ => None,
        }
    }

    /// The number, where the document is one that fits 32 bits.
    pub fn as_u32(&self) -> (n: Option<u32>)
        ensures
            n == self@.as_u32(),
    {
        match self {
            Json::Number(n) => if *n <= u32::MAX as u64 {
                Some(*n as u32)
            } else {
                None
            },
            _ => None,
        }
    }

    /// The text, where the document is a string.
    pub fn as_text(&self) -> (s: Option<&String>)
        ensures
            s matches Some(t) ==> self@.as_text() == Some(t@),
            s is None ==> self@.as_text() is None,
    {
        match self {
            Json::Text(s) => Some(s),
            _ => None,
        }
    }
}

impl Json {
    /// The truth value, where the document is one.
    pub fn as_bool(&self) -> (b: Option<bool>)
        ensures
            b == self@.as_bool(),
    {
        match self {
            Json::Bool(b) => Some(*b),
            _ => None,
        }
    }

    /// The items, where the document is an array.
    pub fn as_list(&self) -> (items: Option<&Vec<Json>>)
        ensures
            items matches Some(v) ==> self@.as_list() == Some(items_view(v@)),
            items is None ==> self@.as_list() is None,
    {
        match self {
            Json::List(items) => {
                proof {
                    lemma_list_view(*items);
                }
                Some(items)
            },
            _ => None,
        }
    }

    /// A string document with the given text.
    pub fn text(s: &str) -> (doc: Json)
        ensures
            doc@ == JsonView::Text(s@),
    {
        Json::Text(s.to_owned())
    }

    /// A copy of the document.
    pub fn duplicate(&self) -> (copy: Json)
        ensures
            copy@ == self@,
        decreases self,
    {
        match self {
            Json::Null => Json::Null,
            Json::Bool(b) => Json::Bool(*b),
            Json::Number(n) => Json::Number(*n),
            Json::OtherNumber => Json::OtherNumber,
            Json::Text(s) => Json::Text(s.clone()),
            Json::List(items) => {
                let mut copies: Vec<Json> = Vec::new();
                let mut i: usize = 0;
                while i < items.len()
                    invariant
                        i <= items.len(),
                        copies.len() == i,
                        *self == Json::List(*items),
                        forall|k: int| 0 <= k < i ==> copies[k]@ == items[k]@,
                    decreases items.len() - i,
                {
                    proof {
                        vstd::std_specs::vec::axiom_vec_index_decreases(*items, i as int);
                        assert(self->List_0 == *items);
                        assert(decreases_to!(*self => self->List_0));
                    }
                    copies.push(items[i].duplicate());
                    i = i + 1;
                }
                proof {
                    lemma_list_view(*items);
                    lemma_list_view(copies);
                    assert(items_view(copies@) =~= items_view(items@));
                }
                Json::List(copies)
            },
            Json::Object(members) => {
                let mut copies: Vec<(String, Json)> = Vec::new();
                let mut i: usize = 0;
                while i < members.len()
                    invariant
                        i <= members.len(),
                        copies.len() == i,
                        *self == Json::Object(*members),
                        forall|k: int|
                            0 <= k < i ==> copies[k].0@ == members[k].0@ && copies[k].1@
                                == members[k].1@,
                    decreases members.len() - i,
                {
                    proof {
                        vstd::std_specs::vec::axiom_vec_index_decreases(*members, i as int);
                        assert(self->Object_0 == *members);
                        assert(decreases_to!(*self => self->Object_0));
                    }
                    copies.push((members[i].0.clone(), members[i].1.duplicate()));
                    i = i + 1;
                }
                proof {
                    lemma_object_view(*members);
                    lemma_object_view(copies);
                    assert(members_view(copies@) =~= members_view(members@));
                }
                Json::Object(copies)
            },
        }
    }

    /// Reads a line as a document.
    ///
    /// Succeeds exactly on the texts that `serde_json` reads as one document.
    pub fn parse(text: &str) -> (doc: Result<Json, Error>)
        ensures
            match doc {
                Ok(j) => json_document(text@) == Some(j@),
                Err(e) => e == Error::Malformed && json_document(text@) is None,
            },
    {
        match read_document(text) {
            Some(j) => Ok(j),
            None => Err(Error::Malformed),
        }
    }

    /// Prints the document as one line.
    ///
    /// Succeeds exactly on the documents that `serde_json` prints.
    pub fn print(&self) -> (text: Result<String, Error>)
        ensures
            match text {
                Ok(t) => json_text(self@) == Some(t@),
                Err(e) => e == Error::Unprintable && json_text(self@) is None,
            },
    {
        match print_document(self) {
            Some(t) => Ok(t),
            None => Err(Error::Unprintable),
        }
    }
}

/// The numbers of a list as documents.
pub open spec fn numbers_view(numbers: Seq<u32>) -> Seq<JsonView> {
    Seq::new(numbers.len(), |i: int| JsonView::Number(numbers[i] as u64))
}

/// The texts of a list as documents.
pub open spec fn texts_view(texts: Seq<Seq<char>>) -> Seq<JsonView> {
    Seq::new(texts.len(), |i: int| JsonView::Text(texts[i]))
}

/// The views of a list of strings.
pub open spec fn strings_view(strings: Seq<String>) -> Seq<Seq<char>> {
    Seq::new(strings.len(), |i: int| strings[i]@)
}

impl JsonView {
    /// The numbers of an array whose items are all numbers that fit 32 bits.
    pub open spec fn as_u32_list(self) -> Option<Seq<u32>> {
        match self {
            JsonView::List(items) => if forall|i: int|
                0 <= i < items.len() ==> (#[trigger] items[i]).as_u32() is Some {
                Some(Seq::new(items.len(), |i: int| items[i].as_u32().unwrap()))
            } else {
                None
            },
            _ => None,
        }
    }

    /// The texts of an array whose items are all strings.
    pub open spec fn as_text_list(self) -> Option<Seq<Seq<char>>> {
        match self {
            JsonView::List(items) => if forall|i: int|
                0 <= i < items.len() ==> (#[trigger] items[i]).as_text() is Some {
                Some(Seq::new(items.len(), |i: int| items[i].as_text().unwrap()))
            } else {
                None
            },
            _ => None,
        }
    }

    /// The member `name`, where it is a number that fits 32 bits.
    pub open spec fn u32_field(self, name: Seq<char>) -> Option<u32> {
        match self.field(name) {
            Some(j) => j.as_u32(),
            None => None,
        }
    }

    /// The member `name`, where it is a string.
    pub open spec fn text_field(self, name: Seq<char>) -> Option<Seq<char>> {
        match self.field(name) {
            Some(j) => j.as_text(),
            None => None,
        }
    }

    /// The member `name`, where it is an array of numbers that fit 32 bits.
    pub open spec fn u32_list_field(self, name: Seq<char>) -> Option<Seq<u32>> {
        match self.field(name) {
            Some(j) => j.as_u32_list(),
            None => None,
        }
    }

    /// The member `name`, where it is an array of strings.
    pub open spec fn text_list_field(self, name: Seq<char>) -> Option<Seq<Seq<char>>> {
        match self.field(name) {
            Some(j) => j.as_text_list(),
            None => None,
        }
    }
}

impl Json {
    /// An array of the given numbers.
    pub fn numbers(numbers: &Vec<u32>) -> (doc: Json)
        ensures
            doc@ == JsonView::List(numbers_view(numbers@)),
    {
        let mut items: Vec<Json> = Vec::new();
        let mut i: usize = 0;
        while i < numbers.len()
            invariant
                i <= numbers.len(),
                items.len() == i,
                forall|k: int| 0 <= k < i ==> items[k]@ == JsonView::Number(numbers[k] as u64),
            decreases numbers.len() - i,
        {
            items.push(Json::Number(numbers[i] as u64));
            i = i + 1;
        }
        proof {
            lemma_list_view(items);
            assert(items_view(items@) =~= numbers_view(numbers@));
        }
        Json::List(items)
    }

    /// An array of the given texts.
    pub fn texts(texts: &Vec<String>) -> (doc: Json)
        ensures
            doc@ == JsonView::List(texts_view(strings_view(texts@))),
    {
        let mut items: Vec<Json> = Vec::new();
        let mut i: usize = 0;
        while i < texts.len()
            invariant
                i <= texts.len(),
                items.len() == i,
                forall|k: int| 0 <= k < i ==> items[k]@ == JsonView::Text(texts[k]@),
            decreases texts.len() - i,
        {
            items.push(Json::Text(texts[i].clone()));
            i = i + 1;
        }
        proof {
            lemma_list_view(items);
            assert(items_view(items@) =~= texts_view(strings_view(texts@)));
        }
        Json::List(items)
    }

    /// The numbers of an array whose items are all numbers that fit 32 bits.
    pub fn as_u32_list(&self) -> (numbers: Option<Vec<u32>>)
        ensures
            numbers matches Some(v) ==> self@.as_u32_list() == Some(v@),
            numbers is None ==> self@.as_u32_list() is None,
    {
        match self.as_list() {
            Some(items) => {
                let ghost all = items_view(items@);
                let mut numbers: Vec<u32> = Vec::new();
                let mut i: usize = 0;
                while i < items.len()
                    invariant
                        i <= items.len(),
                        numbers.len() == i,
                        all == items_view(items@),
                        self@ == JsonView::List(all),
                        forall|k: int| 0 <= k < i ==> all[k].as_u32() == Some(#[trigger] numbers[k]),
                    decreases items.len() - i,
                {
                    match items[i].as_u32() {
                        Some(n) => numbers.push(n),
                        None => {
                            assert(all[i as int].as_u32() is None);
                            return None;
                        },
                    }
                    i = i + 1;
                }
                assert forall|k: int| 0 <= k < all.len() implies (#[trigger] all[k]).as_u32()
                    is Some by {
                    assert(all[k].as_u32() == Some(numbers[k]));
                }
                assert(numbers@ =~= self@.as_u32_list().unwrap());
                Some(numbers)
            },
            None => None,
        }
    }

    /// The texts of an array whose items are all strings.
    pub fn as_text_list(&self) -> (texts: Option<Vec<String>>)
        ensures
            texts matches Some(v) ==> self@.as_text_list() == Some(strings_view(v@)),
            texts is None ==> self@.as_text_list() is None,
    {
        match self.as_list() {
            Some(items) => {
                let ghost all = items_view(items@);
                let mut texts: Vec<String> = Vec::new();
                let mut i: usize = 0;
                while i < items.len()
                    invariant
                        i <= items.len(),
                        texts.len() == i,
                        all == items_view(items@),
                        self@ == JsonView::List(all),
                        forall|k: int| 0 <= k < i ==> all[k].as_text() == Some(#[trigger] texts[k]@),
                    decreases items.len() - i,
                {
                    match items[i].as_text() {
                        Some(s) => texts.push(s.clone()),
                        None => {
                            assert(all[i as int].as_text() is None);
                            return None;
                        },
                    }
                    i = i + 1;
                }
                assert forall|k: int| 0 <= k < all.len() implies (#[trigger] all[k]).as_text()
                    is Some by {
                    assert(all[k].as_text() == Some(texts[k]@));
                }
                assert(strings_view(texts@) =~= self@.as_text_list().unwrap());
                Some(texts)
            },
            None => None,
        }
    }

    /// The member `name`, where it is a number that fits 32 bits.
    pub fn u32_field(&self, name: &str) -> (n: Option<u32>)
        ensures
            n == self@.u32_field(name@),
    {
        match self.field(name) {
            Some(j) => j.as_u32(),
            None => None,
        }
    }

    /// The member `name`, where it is a string.
    pub fn text_field(&self, name: &str) -> (s: Option<&String>)
        ensures
            s matches Some(t) ==> self@.text_field(name@) == Some(t@),
            s is None ==> self@.text_field(name@) is None,
    {
        match self.field(name) {
            Some(j) => j.as_text(),
            None => None,
        }
    }

    /// The member `name`, where it is an array of numbers that fit 32 bits.
    pub fn u32_list_field(&self, name: &str) -> (numbers: Option<Vec<u32>>)
        ensures
            numbers matches Some(v) ==> self@.u32_list_field(name@) == Some(v@),
            numbers is None ==> self@.u32_list_field(name@) is None,
    {
        match self.field(name) {
            Some(j) => j.as_u32_list(),
            None => None,
        }
    }

    /// The member `name`, where it is an array of strings.
    pub fn text_list_field(&self, name: &str) -> (texts: Option<Vec<String>>)
        ensures
            texts matches Some(v) ==> self@.text_list_field(name@) == Some(strings_view(v@)),
            texts is None ==> self@.text_list_field(name@) is None,
    {
        match self.field(name) {
            Some(j) => j.as_text_list(),
            None => None,
        }
    }
}

/// An array of texts is read back as those texts.
pub proof fn lemma_texts_read(texts: Seq<Seq<char>>)
    ensures
        JsonView::List(texts_view(texts)).as_text_list() == Some(texts),
{
    let items = texts_view(texts);
    assert forall|i: int| 0 <= i < items.len() implies (#[trigger] items[i]).as_text() is Some by {
        assert(items[i] == JsonView::Text(texts[i]));
    }
    assert(JsonView::List(items).as_text_list().unwrap() =~= texts);
}

/// An array of numbers is read back as those numbers.
pub proof fn lemma_numbers_read(numbers: Seq<u32>)
    ensures
        JsonView::List(numbers_view(numbers)).as_u32_list() == Some(numbers),
{
    let items = numbers_view(numbers);
    assert forall|i: int| 0 <= i < items.len() implies (#[trigger] items[i]).as_u32() is Some by {
        assert(items[i] == JsonView::Number(numbers[i] as u64));
    }
    assert(JsonView::List(items).as_u32_list().unwrap() =~= numbers);
}

/// Whether a string holds the given text.
pub fn is_text(s: &String, text: &str) -> (same: bool)
    ensures
        same == (s@ == text@),
{
    let wanted = text.to_owned();
    *s == wanted
}

/// The document that `serde_json` reads from a text, where it reads one.
pub uninterp spec fn json_document(text: Seq<char>) -> Option<JsonView>;

/// The line that `serde_json` prints for a document, where it prints one.
pub uninterp spec fn json_text(doc: JsonView) -> Option<Seq<char>>;

/// `serde_json::Value`: what `serde_json` reads and prints. It is handed
/// from one call to the next and never opened by verified code.
#[verifier::external_type_specification]
#[verifier::external_body]
pub struct ExValue(Value);

/// Rebuilds a `serde_json::Value` as a [`Json`], node for node. A number
/// that `serde_json::Number::as_u64` does not give becomes
/// [`Json::OtherNumber`]. Nothing is claimed of the result.
#[verifier::external_body]
fn json_of_value(value: Value) -> Json {
    match value {
        Value::Null => Json::Null,
        Value::Bool(b) => Json::Bool(b),
        Value::Number(n) => n.as_u64().map_or(Json::OtherNumber, Json::Number),
        Value::String(s) => Json::Text(s),
        Value::Array(items) => Json::List(items.into_iter().map(json_of_value).collect()),
        Value::Object(members) => Json::Object(
            members.into_iter().map(|(name, v)| (name, json_of_value(v))).collect(),
        ),
    }
}

/// Rebuilds a [`Json`] as a `serde_json::Value`, node for node; there is
/// none for a document that holds [`Json::OtherNumber`]. Nothing is claimed
/// of the result.
#[verifier::external_body]
fn value_of_json(doc: &Json) -> Option<Value> {
    match doc {
        Json::Null => Some(Value::Null),
        Json::Bool(b) => Some(Value::Bool(*b)),
        Json::Number(n) => Some(Value::from(*n)),
        Json::OtherNumber => None,
        Json::Text(s) => Some(Value::String(s.clone())),
        Json::List(items) => {
            items.iter().map(value_of_json).collect::<Option<_>>().map(Value::Array)
        },
        Json::Object(members) => members.iter().map(
            |(name, v)| Some((name.clone(), value_of_json(v)?)),
        ).collect::<Option<_>>().map(Value::Object),
    }
}

/// Calls `serde_json::from_str` for a `serde_json::Value`. The contract
/// gives the outcome the name [`json_document`]: the same text is read as
/// the same document, or is refused, every time.
#[verifier::external_body]
fn read_document(text: &str) -> (doc: Option<Json>)
    ensures
        doc matches Some(j) ==> json_document(text@) == Some(j@),
        doc is None ==> json_document(text@) is None,
{
    serde_json::from_str::<Value>(text).ok().map(json_of_value)
}

/// Calls `serde_json::to_string` on the document's `serde_json::Value`. The
/// contract gives the outcome the name [`json_text`]: the same document is
/// printed as the same line, or is refused, every time.
#[verifier::external_body]
fn print_document(doc: &Json) -> (text: Option<String>)
    ensures
        text matches Some(t) ==> json_text(doc@) == Some(t@),
        text is None ==> json_text(doc@) is None,
{
    value_of_json(doc).and_then(|value| serde_json::to_string(&value).ok())
}

/// A value that has a JSON form.
pub trait JsonValue: View + Sized {
    /// The document of a value.
    spec fn document(value: Self::V) -> JsonView;

    /// The value that a document holds, where it holds one of this kind.
    spec fn value(doc: JsonView) -> Option<Self::V>;

    /// The document of the value.
    fn to_json(&self) -> (doc: Json)
        ensures
            doc@ == Self::document(self@),
    ;

    /// The value that a document holds.
    fn from_json(doc: &Json) -> (value: Option<Self>)
        ensures
            value matches Some(v) ==> Self::value(doc@) == Some(v@),
            value is None ==> Self::value(doc@) is None,
    ;

    /// Reading the document of a value gives the value back.
    proof fn lemma_value_of_document(value: Self::V)
        ensures
            Self::value(Self::document(value)) == Some(value),
    ;
}

impl JsonValue for u32 {
    open spec fn document(value: u32) -> JsonView {
        JsonView::Number(value as u64)
    }

    open spec fn value(doc: JsonView) -> Option<u32> {
        doc.as_u32()
    }

    fn to_json(&self) -> (doc: Json) {
        Json::Number(*self as u64)
    }

    fn from_json(doc: &Json) -> (value: Option<Self>) {
        doc.as_u32()
    }

    proof fn lemma_value_of_document(value: u32) {
    }
}

impl JsonValue for String {
    open spec fn document(value: Seq<char>) -> JsonView {
        JsonView::Text(value)
    }

    open spec fn value(doc: JsonView) -> Option<Seq<char>> {
        doc.as_text()
    }

    fn to_json(&self) -> (doc: Json) {
        Json::Text(self.clone())
    }

    fn from_json(doc: &Json) -> (value: Option<Self>) {
        match doc.as_text() {
            Some(s) => Some(s.clone()),
            None => None,
        }
    }

    proof fn lemma_value_of_document(value: Seq<char>) {
    }
}

/// Nothing at all: its document is `null`.
impl JsonValue for () {
    open spec fn document(value: ()) -> JsonView {
        JsonView::Null
    }

    open spec fn value(doc: JsonView) -> Option<()> {
        match doc {
            JsonView::Null => Some(()),
            _ => None,
        }
    }

    fn to_json(&self) -> (doc: Json) {
        Json::Null
    }

    fn from_json(doc: &Json) -> (value: Option<Self>) {
        match doc {
            Json::Null => Some(()),
            _ => None,
        }
    }

    proof fn lemma_value_of_document(value: ()) {
    }
}

} // verus!
