//! JSON values, and objects with their keys in order.
use crate::count::capped;
use crate::double::Double;
use crate::text::{
    byte_len, bytes_in, comes_before, lemma_bytes_transitive, lemma_comes_before, same_text,
    text_before,
};
use vstd::prelude::*;
use vstd::utf8::encode_utf8;

verus! {

/// A JSON number, in the three forms that the parser tells apart.
#[derive(Clone, Copy, Debug, PartialEq)]
pub enum Number {
    /// Zero and above, without a fraction.
    PosInt(u64),
    /// Below zero, without a fraction.
    NegInt(i64),
    /// Anything else; always finite.
    Float(Double),
}

/// A JSON value.
#[derive(Debug, PartialEq)]
pub enum Json {
    Null,
    Bool(bool),
    Number(Number),
    String(String),
    Array(Vec<Json>),
    Object(JsonMap),
}

/// A JSON object: one value under each key, the keys in the order of their
/// bytes.
#[derive(Debug, PartialEq)]
pub struct JsonMap {
    entries: Vec<(String, Json)>,
}

impl JsonMap {
    /// The keys are in order, so none occurs twice.
    #[verifier::type_invariant]
    pub open spec fn in_order(self) -> bool {
        ordered(self@)
    }
}

/// What a [`Json`] says.
pub enum JsonView {
    Null,
    Bool(bool),
    Number(Number),
    String(Seq<char>),
    Array(Seq<JsonView>),
    Object(Seq<(Seq<char>, JsonView)>),
}

/// What a [`JsonMap`] says: keys with their values.
pub type Entries = Seq<(Seq<char>, JsonView)>;

/// What a value says, all the way down.
pub open spec fn json_view(json: Json) -> JsonView
    decreases json,
{
    match json {
        Json::Null => JsonView::Null,
        Json::Bool(b) => JsonView::Bool(b),
        Json::Number(n) => JsonView::Number(n),
        Json::String(s) => JsonView::String(s@),
        Json::Array(items) => JsonView::Array(
            Seq::new(
                items@.len(),
                |i: int|
                    if 0 <= i < items@.len() {
                        json_view(items@[i])
                    } else {
                        JsonView::Null
                    },
            ),
        ),
        Json::Object(map) => JsonView::Object(map_view(map)),
    }
}

/// What an object says, all the way down.
pub closed spec fn map_view(map: JsonMap) -> Entries
    decreases map,
{
    Seq::new(
        map.entries@.len(),
        |i: int|
            if 0 <= i < map.entries@.len() {
                (map.entries@[i].0@, json_view(map.entries@[i].1))
            } else {
                (Seq::empty(), JsonView::Null)
            },
    )
}

impl View for Json {
    type V = JsonView;

    open spec fn view(&self) -> JsonView {
        json_view(*self)
    }
}

impl View for JsonMap {
    type V = Entries;

    open spec fn view(&self) -> Entries {
        map_view(*self)
    }
}

/// What the values of an array say.
pub open spec fn views(items: Seq<Json>) -> Seq<JsonView> {
    items.map_values(|item: Json| item@)
}

/// An array says what its values say.
pub broadcast proof fn lemma_array_view(items: Vec<Json>)
    ensures
        #[trigger] Json::Array(items)@ == JsonView::Array(views(items@)),
{
    let array = Json::Array(items);
    assert(array@->Array_0 =~= views(items@));
}

impl Clone for Json {
    fn clone(&self) -> (r: Json)
        ensures
            r@ == self@,
        decreases self,
    {
        match self {
            Json::Null => Json::Null,
            Json::Bool(b) => Json::Bool(*b),
            Json::Number(n) => Json::Number(*n),
            Json::String(s) => Json::String(s.clone()),
            Json::Array(items) => {
                let copy = clone_items(items);
                assert(Json::Array(copy)@->Array_0 =~= self@->Array_0);
                Json::Array(copy)
            },
            Json::Object(map) => Json::Object(map.clone()),
        }
    }
}

fn clone_items(items: &Vec<Json>) -> (r: Vec<Json>)
    ensures
        r@.len() == items@.len(),
        forall|j: int| 0 <= j < items@.len() ==> r@[j]@ == (#[trigger] items@[j])@,
    decreases items,
{
    let mut copy: Vec<Json> = Vec::new();
    let mut i: usize = 0;
    while i < items.len()
        invariant
            i <= items@.len(),
            copy@.len() == i,
            forall|j: int| 0 <= j < i ==> copy@[j]@ == (#[trigger] items@[j])@,
        decreases items@.len() - i,
    {
        copy.push(items[i].clone());
        i += 1;
    }
    copy
}

impl Clone for JsonMap {
    fn clone(&self) -> (r: JsonMap)
        ensures
            r@ == self@,
        decreases self,
    {
        let mut copy: Vec<(String, Json)> = Vec::new();
        let mut i: usize = 0;
        while i < self.entries.len()
            invariant
                i <= self.entries@.len(),
                copy@.len() == i,
                forall|j: int|
                    0 <= j < i ==> copy@[j].0@ == self.entries@[j].0@ && copy@[j].1@
                        == self.entries@[j].1@,
            decreases self.entries@.len() - i,
        {
            copy.push((self.entries[i].0.clone(), self.entries[i].1.clone()));
            i += 1;
        }
        proof {
            use_type_invariant(self);
            assert((JsonMap { entries: copy })@ =~= self@);
        }
        JsonMap { entries: copy }
    }
}

/// How many keys at the front of an object come before `key`.
pub open spec fn rank(entries: Entries, key: Seq<char>) -> nat
    decreases entries.len(),
{
    if entries.len() == 0 || !comes_before(entries[0].0, key) {
        0
    } else {
        1 + rank(entries.skip(1), key)
    }
}

/// Whether an object has a value under `key`.
pub open spec fn has_key(entries: Entries, key: Seq<char>) -> bool {
    let at = rank(entries, key);
    at < entries.len() && entries[at as int].0 == key
}

/// The value under `key`.
pub open spec fn value_at(entries: Entries, key: Seq<char>) -> Option<JsonView> {
    if has_key(entries, key) {
        Some(entries[rank(entries, key) as int].1)
    } else {
        None
    }
}

/// The object with `value` under `key`, in the place of what was there.
pub open spec fn put(
    entries: Entries,
    key: Seq<char>,
    value: JsonView,
) -> Entries {
    let at = rank(entries, key) as int;
    if has_key(entries, key) {
        entries.update(at, (key, value))
    } else {
        entries.insert(at, (key, value))
    }
}

/// The object without anything under `key`.
pub open spec fn removed(entries: Entries, key: Seq<char>) -> Entries {
    if has_key(entries, key) {
        entries.remove(rank(entries, key) as int)
    } else {
        entries
    }
}

/// The keys of an object are in order, so none occurs twice.
pub open spec fn ordered(entries: Entries) -> bool {
    forall|i: int, j: int|
        #![trigger entries[i], entries[j]]
        0 <= i < j < entries.len() ==> comes_before(entries[i].0, entries[j].0)
}

/// Every object in the value has its keys in order.
pub open spec fn well_formed(json: JsonView) -> bool
    decreases json,
{
    match json {
        JsonView::Array(items) => forall|i: int|
            0 <= i < items.len() ==> well_formed(#[trigger] items[i]),
        JsonView::Object(entries) => {
            &&& ordered(entries)
            &&& forall|i: int|
                0 <= i < entries.len() ==> well_formed((#[trigger] entries[i]).1)
        },
        _ => true,
    }
}

/// Whole numbers, as the parser holds them.
pub open spec fn int_number(n: i64) -> Number {
    if n < 0 {
        Number::NegInt(n)
    } else {
        Number::PosInt(n as u64)
    }
}

/// A double as JSON; what is not finite has no number in JSON and is null.
pub open spec fn double_json(d: Double) -> JsonView {
    if d.finite() {
        JsonView::Number(Number::Float(d))
    } else {
        JsonView::Null
    }
}

/// About how many bytes the value takes up as JSON text.
pub open spec fn size_of(json: JsonView) -> nat
    decreases json,
{
    match json {
        JsonView::Null => 4,
        JsonView::Bool(_) => 5,
        JsonView::Number(_) => 8,
        JsonView::String(s) => byte_len(s) + 2,
        JsonView::Array(items) => 2 + sizes_of(items) + items.len(),
        JsonView::Object(entries) => 2 + entry_sizes(entries),
    }
}

/// About how many bytes some values take up.
pub open spec fn sizes_of(items: Seq<JsonView>) -> nat
    decreases items,
{
    if items.len() == 0 {
        0
    } else {
        sizes_of(items.subrange(0, items.len() - 1)) + size_of(items[items.len() - 1])
    }
}

/// About how many bytes some keys with their values take up.
pub open spec fn entry_sizes(entries: Entries) -> nat
    decreases entries,
{
    if entries.len() == 0 {
        0
    } else {
        entry_sizes(entries.subrange(0, entries.len() - 1)) + byte_len(
            entries[entries.len() - 1].0,
        ) + size_of(entries[entries.len() - 1].1) + 4
    }
}

/// The rank is the one place where the keys stop coming before `key`.
pub proof fn lemma_rank(entries: Entries, key: Seq<char>, at: nat)
    requires
        at <= entries.len(),
        forall|i: int| 0 <= i < at ==> comes_before((#[trigger] entries[i]).0, key),
        at < entries.len() ==> !comes_before(entries[at as int].0, key),
    ensures
        rank(entries, key) == at,
    decreases entries.len(),
{
    if at > 0 {
        assert(comes_before(entries[0].0, key));
        assert forall|i: int| 0 <= i < at - 1 implies comes_before(
            (#[trigger] entries.skip(1)[i]).0,
            key,
        ) by {
            assert(entries[i + 1] == entries.skip(1)[i]);
        }
        lemma_rank(entries.skip(1), key, (at - 1) as nat);
    }
}

/// The keys before the rank come before `key`, and the one at the rank does
/// not.
pub proof fn lemma_rank_splits(entries: Entries, key: Seq<char>)
    ensures
        rank(entries, key) <= entries.len(),
        forall|i: int|
            0 <= i < rank(entries, key) ==> comes_before((#[trigger] entries[i]).0, key),
        rank(entries, key) < entries.len() ==> !comes_before(
            entries[rank(entries, key) as int].0,
            key,
        ),
    decreases entries.len(),
{
    if entries.len() > 0 && comes_before(entries[0].0, key) {
        let rest = entries.skip(1);
        lemma_rank_splits(rest, key);
        assert forall|i: int| 0 <= i < rank(entries, key) implies comes_before(
            (#[trigger] entries[i]).0,
            key,
        ) by {
            if i > 0 {
                assert(entries[i] == rest[i - 1]);
            }
        }
    }
}

/// In an object with its keys in order, a key is found wherever it stands.
pub proof fn lemma_found(entries: Entries, at: int)
    requires
        ordered(entries),
        0 <= at < entries.len(),
    ensures
        rank(entries, entries[at].0) == at,
        value_at(entries, entries[at].0) == Some(entries[at].1),
{
    lemma_comes_before(entries[at].0, entries[at].0);
    lemma_rank(entries, entries[at].0, at as nat);
}

/// Putting what is there already changes nothing.
pub proof fn lemma_put_same(
    entries: Entries,
    key: Seq<char>,
    value: JsonView,
)
    requires
        value_at(entries, key) == Some(value),
    ensures
        put(entries, key, value) == entries,
{
    assert(put(entries, key, value) =~= entries);
}

/// Putting a value under a key keeps the keys in order.
pub proof fn lemma_put_ordered(
    entries: Entries,
    key: Seq<char>,
    value: JsonView,
)
    requires
        ordered(entries),
    ensures
        ordered(put(entries, key, value)),
{
    let at = rank(entries, key) as int;
    let after = put(entries, key, value);
    lemma_rank_splits(entries, key);
    if !has_key(entries, key) {
        assert forall|i: int| at <= i < entries.len() implies comes_before(
            key,
            (#[trigger] entries[i]).0,
        ) by {
            lemma_comes_before(key, entries[at].0);
            if at < i {
                assert(comes_before(entries[at].0, entries[i].0));
                lemma_bytes_transitive(
                    encode_utf8(key),
                    encode_utf8(entries[at].0),
                    encode_utf8(entries[i].0),
                );
            }
        }
        assert forall|i: int, j: int|
            #![trigger after[i], after[j]]
            0 <= i < j < after.len() implies comes_before(after[i].0, after[j].0) by {
            let i0 = if i < at { i } else { i - 1 };
            let j0 = if j < at { j } else { j - 1 };
            if i != at {
                assert(after[i] == entries[i0]);
            }
            if j != at {
                assert(after[j] == entries[j0]);
            }
        }
    }
}

/// What was put under a key is found there, and what stands under the other
/// keys stays.
pub proof fn lemma_value_after_put(
    entries: Entries,
    key: Seq<char>,
    value: JsonView,
    other: Seq<char>,
)
    requires
        ordered(entries),
    ensures
        value_at(put(entries, key, value), other) == if other == key {
            Some(value)
        } else {
            value_at(entries, other)
        },
{
    let at = rank(entries, key) as int;
    let after = put(entries, key, value);
    lemma_rank_splits(entries, key);
    lemma_put_ordered(entries, key, value);
    if other == key {
        lemma_found(after, at);
    } else if has_key(entries, other) {
        let i = rank(entries, other) as int;
        let j = if has_key(entries, key) || i < at { i } else { i + 1 };
        assert(after[j] == entries[i]);
        lemma_found(after, j);
    } else if has_key(after, other) {
        let j = rank(after, other) as int;
        let i = if has_key(entries, key) || j < at { j } else { j - 1 };
        assert(j != at);
        assert(entries[i] == after[j]);
        lemma_found(entries, i);
    }
}

/// A value in the place of another is found there, and what stands under the
/// other keys stays.
pub proof fn lemma_value_replaced(
    entries: Entries,
    key: Seq<char>,
    value: JsonView,
    other: Seq<char>,
)
    requires
        has_key(entries, key),
    ensures
        value_at(put(entries, key, value), other) == if other == key {
            Some(value)
        } else {
            value_at(entries, other)
        },
{
    let after = put(entries, key, value);
    lemma_rank_splits(entries, other);
    assert(forall|i: int|
        0 <= i < entries.len() ==> (#[trigger] after[i]).0 == entries[i].0);
    lemma_rank(after, other, rank(entries, other));
}

/// Taking a key away keeps the others in order.
pub proof fn lemma_removed_ordered(entries: Entries, key: Seq<char>)
    requires
        ordered(entries),
    ensures
        ordered(removed(entries, key)),
{
    let at = rank(entries, key) as int;
    let after = removed(entries, key);
    if has_key(entries, key) {
        assert forall|i: int, j: int|
            #![trigger after[i], after[j]]
            0 <= i < j < after.len() implies comes_before(after[i].0, after[j].0) by {
            let i0 = if i < at { i } else { i + 1 };
            let j0 = if j < at { j } else { j + 1 };
            assert(after[i] == entries[i0]);
            assert(after[j] == entries[j0]);
        }
    }
}

/// A key that was taken away is gone, and what stands under the other keys
/// stays.
pub proof fn lemma_value_after_removed(
    entries: Entries,
    key: Seq<char>,
    other: Seq<char>,
)
    requires
        ordered(entries),
    ensures
        value_at(removed(entries, key), other) == if other == key {
            None
        } else {
            value_at(entries, other)
        },
{
    let at = rank(entries, key) as int;
    let after = removed(entries, key);
    lemma_removed_ordered(entries, key);
    if has_key(entries, key) {
        if has_key(after, other) {
            let j = rank(after, other) as int;
            let i = if j < at { j } else { j + 1 };
            assert(entries[i] == after[j]);
            lemma_found(entries, i);
        } else if other != key && has_key(entries, other) {
            let i = rank(entries, other) as int;
            let j = if i < at { i } else { i - 1 };
            assert(after[j] == entries[i]);
            lemma_found(after, j);
        }
    }
}

impl JsonMap {
    /// The place of `key` among the keys, and whether it is there.
    fn find(&self, key: &str) -> (r: (usize, bool))
        ensures
            r.0 == rank(self@, key@),
            r.0 <= self.entries@.len(),
            r.1 == has_key(self@, key@),
    {
        let mut at: usize = 0;
        while at < self.entries.len() && text_before(self.entries[at].0.as_str(), key)
            invariant
                at <= self.entries@.len(),
                forall|i: int| 0 <= i < at ==> comes_before((#[trigger] self@[i]).0, key@),
            decreases self.entries@.len() - at,
        {
            at += 1;
        }
        proof {
            lemma_rank(self@, key@, at as nat);
        }
        (at, at < self.entries.len() && same_text(self.entries[at].0.as_str(), key))
    }

    /// The value under `key`.
    pub fn get(&self, key: &str) -> (r: Option<&Json>)
        ensures
            match r {
                Some(value) => value_at(self@, key@) == Some(value@),
                None => value_at(self@, key@) is None,
            },
    {
        let (at, found) = self.find(key);
        if found {
            Some(&self.entries[at].1)
        } else {
            None
        }
    }

    /// An object without keys.
    pub fn new() -> (r: JsonMap)
        ensures
            r@ == Seq::<(Seq<char>, JsonView)>::empty(),
            ordered(r@),
    {
        let entries: Vec<(String, Json)> = Vec::new();
        assert((JsonMap { entries })@ =~= Seq::empty());
        JsonMap { entries }
    }

    /// How many keys there are.
    pub fn len(&self) -> (r: usize)
        ensures
            r == self@.len(),
    {
        self.entries.len()
    }

    /// The key and the value at the place `at`.
    pub fn entry(&self, at: usize) -> (r: (&String, &Json))
        requires
            at < self@.len(),
        ensures
            r.0@ == self@[at as int].0,
            r.1@ == self@[at as int].1,
    {
        (&self.entries[at].0, &self.entries[at].1)
    }

    /// Whether there is a value under `key`.
    pub fn contains_key(&self, key: &str) -> (r: bool)
        ensures
            r == has_key(self@, key@),
    {
        self.find(key).1
    }

    /// Puts `value` under `key` and hands back what was there.
    pub fn insert(&mut self, key: String, value: Json) -> (r: Option<Json>)
        ensures
            final(self)@ == put(old(self)@, key@, value@),
            match r {
                Some(before) => value_at(old(self)@, key@) == Some(before@),
                None => value_at(old(self)@, key@) is None,
            },
    {
        let (at, found) = self.find(key.as_str());
        proof {
            use_type_invariant(&*self);
            lemma_put_ordered(self@, key@, value@);
        }
        let mut entries: Vec<(String, Json)> = Vec::new();
        assert((JsonMap { entries })@ =~= Seq::empty());
        std::mem::swap(&mut self.entries, &mut entries);
        let before: Option<Json> = if found {
            let mut slot = value;
            std::mem::swap(&mut entries[at].1, &mut slot);
            Some(slot)
        } else {
            entries.insert(at, (key, value));
            None
        };
        assert((JsonMap { entries })@ =~= put(old(self)@, key@, value@));
        std::mem::swap(&mut self.entries, &mut entries);
        before
    }
}

impl Json {
    /// A whole number.
    pub fn from_i64(n: i64) -> (r: Json)
        ensures
            r@ == JsonView::Number(int_number(n)),
    {
        if n < 0 {
            Json::Number(Number::NegInt(n))
        } else {
            Json::Number(Number::PosInt(n as u64))
        }
    }

    /// A whole number that is not below zero.
    pub fn from_u64(n: u64) -> (r: Json)
        ensures
            r@ == JsonView::Number(Number::PosInt(n)),
    {
        Json::Number(Number::PosInt(n))
    }

    /// A double, or null where it is not finite.
    pub fn from_double(d: Double) -> (r: Json)
        ensures
            r@ == double_json(d),
    {
        if d.is_finite() {
            Json::Number(Number::Float(d))
        } else {
            Json::Null
        }
    }

    /// A text.
    pub fn from_text(text: &str) -> (r: Json)
        ensures
            r@ == JsonView::String(text@),
    {
        Json::String(text.to_owned())
    }
}

/// Sizes add up one value at a time.
proof fn lemma_sizes_next(items: Seq<JsonView>, i: int)
    requires
        0 <= i < items.len(),
    ensures
        sizes_of(items.subrange(0, i + 1)) == sizes_of(items.subrange(0, i)) + size_of(items[i]),
{
    assert(items.subrange(0, i + 1).subrange(0, i) =~= items.subrange(0, i));
}

/// Sizes add up one key at a time.
proof fn lemma_entry_sizes_next(entries: Entries, i: int)
    requires
        0 <= i < entries.len(),
    ensures
        entry_sizes(entries.subrange(0, i + 1)) == entry_sizes(entries.subrange(0, i)) + byte_len(
            entries[i].0,
        ) + size_of(entries[i].1) + 4,
{
    assert(entries.subrange(0, i + 1).subrange(0, i) =~= entries.subrange(0, i));
}

/// About how many bytes a value takes up as JSON text, as far as a `usize` counts.
pub fn estimated_value_size(value: &Json) -> (r: usize)
    ensures
        r == capped(size_of(value@)),
    decreases value,
{
    broadcast use lemma_array_view;

    match value {
        Json::Null => 4,
        Json::Bool(_) => 5,
        Json::Number(_) => 8,
        Json::String(s) => bytes_in(s.as_str()).saturating_add(2),
        Json::Array(items) => {
            let sum: usize = item_sizes(items);
            sum.saturating_add(2).saturating_add(items.len())
        },
        Json::Object(map) => {
            let sum: usize = map.entries_size();
            sum.saturating_add(2)
        },
    }
}

fn item_sizes(items: &Vec<Json>) -> (r: usize)
    ensures
        r == capped(sizes_of(views(items@))),
    decreases items,
{
    let mut sum: usize = 0;
    let mut i: usize = 0;
    assert(views(items@).subrange(0, 0) =~= Seq::empty());
    while i < items.len()
        invariant
            i <= items@.len(),
            sum == capped(sizes_of(views(items@).subrange(0, i as int))),
        decreases items@.len() - i,
    {
        proof {
            lemma_sizes_next(views(items@), i as int);
        }
        let size: usize = estimated_value_size(&items[i]);
        sum = sum.saturating_add(size);
        i += 1;
    }
    assert(views(items@).subrange(0, i as int) =~= views(items@));
    sum
}

impl JsonMap {
    /// About how many bytes the keys and values take up as JSON text, as far as a
    /// `usize` counts.
    pub fn entries_size(&self) -> (r: usize)
        ensures
            r == capped(entry_sizes(self@)),
        decreases self,
    {
        let mut sum: usize = 0;
        let mut i: usize = 0;
        assert(self@.subrange(0, 0) =~= Seq::empty());
        while i < self.entries.len()
            invariant
                i <= self.entries@.len(),
                sum == capped(entry_sizes(self@.subrange(0, i as int))),
            decreases self.entries@.len() - i,
        {
            proof {
                lemma_entry_sizes_next(self@, i as int);
            }
            let size: usize = estimated_value_size(&self.entries[i].1);
            sum = sum.saturating_add(bytes_in(self.entries[i].0.as_str())).saturating_add(
                size,
            ).saturating_add(4);
            i += 1;
        }
        assert(self@.subrange(0, i as int) =~= self@);
        sum
    }
}

} // verus!
