//! JSON values as the library reads them, and property tables made of them.

use vstd::prelude::*;
use miniserde::json::{Number, Value};
use crate::error::JsonError;
use crate::text::{cat, decimal, decimal_text, number, opt_text, parse_number, text_eq};

verus! {

/// A JSON value. An integer is kept as such; any other number is kept in the
/// digits in which it is printed.
#[derive(Debug)]
pub enum JsonValue {
    Null,
    Bool(bool),
    Unsigned(u64),
    Negative(i64),
    Fraction(String),
    Text(String),
    Array(Vec<JsonValue>),
    Object(Vec<(String, JsonValue)>),
    /// An array or an object that lies too deep to be read.
    Unread,
}

/// What a JSON value says.
pub enum JsonTree {
    Null,
    Bool(bool),
    Unsigned(u64),
    Negative(i64),
    Fraction(Seq<char>),
    Text(Seq<char>),
    Array(Seq<JsonTree>),
    Object(Seq<(Seq<char>, JsonTree)>),
    Unread,
}

pub open spec fn tree(value: JsonValue) -> JsonTree
    decreases value,
{
    match value {
        JsonValue::Null => JsonTree::Null,
        JsonValue::Bool(b) => JsonTree::Bool(b),
        JsonValue::Unsigned(n) => JsonTree::Unsigned(n),
        JsonValue::Negative(n) => JsonTree::Negative(n),
        JsonValue::Fraction(s) => JsonTree::Fraction(s@),
        JsonValue::Text(s) => JsonTree::Text(s@),
        JsonValue::Array(list) => JsonTree::Array(trees(list@)),
        JsonValue::Object(entries) => JsonTree::Object(members(entries@)),
        JsonValue::Unread => JsonTree::Unread,
    }
}

pub open spec fn trees(list: Seq<JsonValue>) -> Seq<JsonTree>
    decreases list,
{
    Seq::new(
        list.len(),
        |i: int|
            if 0 <= i < list.len() {
                tree(list[i])
            } else {
                JsonTree::Null
            },
    )
}

pub open spec fn members(entries: Seq<(String, JsonValue)>) -> Seq<(Seq<char>, JsonTree)>
    decreases entries,
{
    Seq::new(
        entries.len(),
        |i: int|
            if 0 <= i < entries.len() {
                (entries[i].0@, tree(entries[i].1))
            } else {
                (Seq::empty(), JsonTree::Null)
            },
    )
}

impl View for JsonValue {
    type V = JsonTree;

    open spec fn view(&self) -> JsonTree {
        tree(*self)
    }
}

/// A JSON value as `miniserde` holds it. Of the members of an object that bear
/// one name, it holds the last alone.
#[verifier::external_type_specification]
#[verifier::external_body]
pub struct ExValue(miniserde::json::Value);

/// The error of `miniserde`, which tells nothing but that there was one.
#[verifier::external_type_specification]
#[verifier::external_body]
pub struct ExError(miniserde::Error);

/// What a value of `miniserde` says.
pub uninterp spec fn json_contents(value: miniserde::json::Value) -> JsonTree;

/// What `miniserde::json::from_str` reads from a text, if the text is JSON.
pub uninterp spec fn json_in(text: Seq<char>) -> Option<JsonTree>;

/// `miniserde::json::from_str` reads any JSON value from a text. What it reads is
/// named, not stated, as is which texts it takes for JSON.
#[verifier::external_body]
fn parse_value(text: &str) -> (r: Result<miniserde::json::Value, miniserde::Error>)
    ensures
        match r {
            Ok(value) => json_in(text@) == Some(json_contents(value)),
            Err(_) => json_in(text@) is None,
        },
{
    miniserde::json::from_str(text)
}

/// The outermost level of a JSON value. What it holds is left as it is.
pub enum JsonLevel<'a> {
    Null,
    Bool(bool),
    Unsigned(u64),
    Negative(i64),
    Fraction(String),
    Text(&'a String),
    Array(&'a Vec<miniserde::json::Value>),
    Object(Vec<(&'a String, &'a miniserde::json::Value)>),
}

/// What a level says, together with what it holds.
pub open spec fn level(l: JsonLevel<'_>) -> JsonTree {
    match l {
        JsonLevel::Null => JsonTree::Null,
        JsonLevel::Bool(b) => JsonTree::Bool(b),
        JsonLevel::Unsigned(n) => JsonTree::Unsigned(n),
        JsonLevel::Negative(n) => JsonTree::Negative(n),
        JsonLevel::Fraction(s) => JsonTree::Fraction(s@),
        JsonLevel::Text(s) => JsonTree::Text(s@),
        JsonLevel::Array(list) => JsonTree::Array(
            Seq::new(list@.len(), |i: int| json_contents(list@[i])),
        ),
        JsonLevel::Object(entries) => JsonTree::Object(
            Seq::new(entries@.len(), |i: int| (entries@[i].0@, json_contents(*entries@[i].1))),
        ),
    }
}

/// Tells the variants of a `miniserde::json::Value` apart and hands out what the
/// value holds; an object's members come in the order of its map. A number that
/// is no integer is kept as `miniserde` prints it.
#[verifier::external_body]
fn open_value<'a>(value: &'a miniserde::json::Value) -> (r: JsonLevel<'a>)
    ensures
        level(r) == json_contents(*value),
{
    match value {
        Value::Null => JsonLevel::Null,
        Value::Bool(b) => JsonLevel::Bool(*b),
        Value::Number(Number::U64(n)) => JsonLevel::Unsigned(*n),
        Value::Number(Number::I64(n)) => JsonLevel::Negative(*n),
        Value::Number(n) => JsonLevel::Fraction(n.to_string()),
        Value::String(s) => JsonLevel::Text(s),
        Value::Array(list) => JsonLevel::Array(list),
        Value::Object(map) => JsonLevel::Object(map.iter().collect()),
    }
}

/// How many levels of arrays and objects are read. Nothing that this library
/// looks at lies deeper.
pub const LEVELS_READ: u8 = 4;

/// A value without what lies under its first `levels` levels of arrays and
/// objects.
pub open spec fn cut(t: JsonTree, levels: nat) -> JsonTree
    decreases levels, 0nat,
{
    match t {
        JsonTree::Array(list) => if levels == 0 {
            JsonTree::Unread
        } else {
            JsonTree::Array(cut_list(list, (levels - 1) as nat))
        },
        JsonTree::Object(entries) => if levels == 0 {
            JsonTree::Unread
        } else {
            JsonTree::Object(cut_members(entries, (levels - 1) as nat))
        },
        _ => t,
    }
}

pub open spec fn cut_list(list: Seq<JsonTree>, levels: nat) -> Seq<JsonTree>
    decreases levels, 1nat,
{
    Seq::new(list.len(), |i: int| cut(list[i], levels))
}

pub open spec fn cut_members(entries: Seq<(Seq<char>, JsonTree)>, levels: nat) -> Seq<
    (Seq<char>, JsonTree),
>
    decreases levels, 1nat,
{
    Seq::new(entries.len(), |i: int| (entries[i].0, cut(entries[i].1, levels)))
}

pub open spec fn cut_if_any(t: Option<JsonTree>, levels: nat) -> Option<JsonTree> {
    match t {
        Some(t) => Some(cut(t, levels)),
        None => None,
    }
}

fn take_list(list: &Vec<miniserde::json::Value>, levels: u8) -> (r: Vec<JsonValue>)
    ensures
        trees(r@) == cut_list(
            Seq::new(list@.len(), |i: int| json_contents(list@[i])),
            levels as nat,
        ),
    decreases levels, 1nat,
{
    let mut r: Vec<JsonValue> = Vec::new();
    let mut i: usize = 0;
    while i < list.len()
        invariant
            i <= list@.len(),
            r@.len() == i,
            forall|k: int|
                0 <= k < i ==> tree(#[trigger] r@[k]) == cut(json_contents(list@[k]), levels as nat),
        decreases list@.len() - i,
    {
        let v = take_levels(&list[i], levels);
        r.push(v);
        i = i + 1;
    }
    assert(trees(r@) =~= cut_list(
        Seq::new(list@.len(), |i: int| json_contents(list@[i])),
        levels as nat,
    ));
    r
}

fn take_members(entries: &Vec<(&String, &miniserde::json::Value)>, levels: u8) -> (r: Vec<
    (String, JsonValue),
>)
    ensures
        members(r@) == cut_members(
            Seq::new(entries@.len(), |i: int| (entries@[i].0@, json_contents(*entries@[i].1))),
            levels as nat,
        ),
    decreases levels, 1nat,
{
    let mut r: Vec<(String, JsonValue)> = Vec::new();
    let mut i: usize = 0;
    while i < entries.len()
        invariant
            i <= entries@.len(),
            r@.len() == i,
            forall|k: int|
                0 <= k < i ==> (#[trigger] r@[k]).0@ == entries@[k].0@ && tree(r@[k].1) == cut(
                    json_contents(*entries@[k].1),
                    levels as nat,
                ),
        decreases entries@.len() - i,
    {
        let v = take_levels(entries[i].1, levels);
        r.push((entries[i].0.clone(), v));
        i = i + 1;
    }
    assert(members(r@) =~= cut_members(
        Seq::new(entries@.len(), |i: int| (entries@[i].0@, json_contents(*entries@[i].1))),
        levels as nat,
    ));
    r
}

/// Takes the first `levels` levels of a value.
fn take_levels(value: &miniserde::json::Value, levels: u8) -> (r: JsonValue)
    ensures
        r@ == cut(json_contents(*value), levels as nat),
    decreases levels, 0nat,
{
    match open_value(value) {
        JsonLevel::Null => JsonValue::Null,
        JsonLevel::Bool(b) => JsonValue::Bool(b),
        JsonLevel::Unsigned(n) => JsonValue::Unsigned(n),
        JsonLevel::Negative(n) => JsonValue::Negative(n),
        JsonLevel::Fraction(s) => JsonValue::Fraction(s),
        JsonLevel::Text(s) => JsonValue::Text(s.clone()),
        JsonLevel::Array(list) => if levels == 0 {
            JsonValue::Unread
        } else {
            JsonValue::Array(take_list(list, levels - 1))
        },
        JsonLevel::Object(entries) => if levels == 0 {
            JsonValue::Unread
        } else {
            JsonValue::Object(take_members(&entries, levels - 1))
        },
    }
}

/// Reads the JSON value in a text, as far as this library looks at it: a text may
/// nest its arrays and objects to any depth.
pub fn read_json(text: &str) -> (r: Result<JsonValue, JsonError>)
    ensures
        match r {
            Ok(value) => json_in(text@) is Some && value@ == cut(
                json_in(text@)->0,
                LEVELS_READ as nat,
            ),
            Err(_) => json_in(text@) is None,
        },
{
    match parse_value(text) {
        Ok(value) => Ok(take_levels(&value, LEVELS_READ)),
        Err(_) => Err(JsonError),
    }
}

/// The value of a property: a string, a number, or anything else, of which
/// nothing is read.
#[derive(Debug)]
pub enum PropValue {
    Text(String),
    Unsigned(u64),
    Negative(i64),
    Fraction(String),
    Other,
}

pub enum PropView {
    Text(Seq<char>),
    Unsigned(u64),
    Negative(i64),
    Fraction(Seq<char>),
    Other,
}

impl View for PropValue {
    type V = PropView;

    open spec fn view(&self) -> PropView {
        match self {
            PropValue::Text(s) => PropView::Text(s@),
            PropValue::Unsigned(n) => PropView::Unsigned(*n),
            PropValue::Negative(n) => PropView::Negative(*n),
            PropValue::Fraction(s) => PropView::Fraction(s@),
            PropValue::Other => PropView::Other,
        }
    }
}

impl Clone for PropValue {
    fn clone(&self) -> (r: Self)
        ensures
            r@ == self@,
    {
        match self {
            PropValue::Text(s) => PropValue::Text(s.clone()),
            PropValue::Unsigned(n) => PropValue::Unsigned(*n),
            PropValue::Negative(n) => PropValue::Negative(*n),
            PropValue::Fraction(s) => PropValue::Fraction(s.clone()),
            PropValue::Other => PropValue::Other,
        }
    }
}

impl JsonTree {
    pub open spec fn prop(self) -> PropView {
        match self {
            JsonTree::Text(s) => PropView::Text(s),
            JsonTree::Unsigned(n) => PropView::Unsigned(n),
            JsonTree::Negative(n) => PropView::Negative(n),
            JsonTree::Fraction(s) => PropView::Fraction(s),
            _ => PropView::Other,
        }
    }
}

impl JsonValue {
    /// What a property holds when this is its value.
    pub fn to_prop(&self) -> (r: PropValue)
        ensures
            r@ == self@.prop(),
    {
        match self {
            JsonValue::Text(s) => PropValue::Text(s.clone()),
            JsonValue::Unsigned(n) => PropValue::Unsigned(*n),
            JsonValue::Negative(n) => PropValue::Negative(*n),
            JsonValue::Fraction(s) => PropValue::Fraction(s.clone()),
            _ => PropValue::Other,
        }
    }
}

/// The value of the last member `key` of an object.
pub open spec fn member(s: Seq<(Seq<char>, JsonTree)>, key: Seq<char>) -> Option<JsonTree>
    decreases s.len(),
{
    if s.len() == 0 {
        None
    } else if s.last().0 == key {
        Some(s.last().1)
    } else {
        member(s.drop_last(), key)
    }
}

pub fn find_member<'a>(entries: &'a Vec<(String, JsonValue)>, key: &str) -> (r: Option<
    &'a JsonValue,
>)
    ensures
        match r {
            Some(v) => member(members(entries@), key@) == Some(v@),
            None => member(members(entries@), key@) is None,
        },
{
    let ghost all = members(entries@);
    let mut i: usize = entries.len();
    assert(all.take(i as int) =~= all);
    while i > 0
        invariant
            i <= entries@.len(),
            all == members(entries@),
            member(all, key@) == member(all.take(i as int), key@),
        decreases i,
    {
        let ghost head = all.take(i as int);
        assert(head.last() == (entries@[i - 1].0@, entries@[i - 1].1@));
        assert(head.drop_last() =~= all.take(i - 1));
        if text_eq(entries[i - 1].0.as_str(), key) {
            return Some(&entries[i - 1].1);
        }
        i = i - 1;
    }
    None
}

/// Every member `key` of an object can be read.
pub open spec fn readable<T>(
    s: Seq<(Seq<char>, JsonTree)>,
    key: Seq<char>,
    read: spec_fn(JsonTree) -> Option<T>,
) -> bool {
    forall|i: int| 0 <= i < s.len() && (#[trigger] s[i]).0 == key ==> read(s[i].1) is Some
}

/// What is read from member `key` of an object, if there is one. Where a member
/// is repeated, each must be readable, and the last counts.
pub open spec fn field<T>(
    s: Seq<(Seq<char>, JsonTree)>,
    key: Seq<char>,
    read: spec_fn(JsonTree) -> Option<T>,
) -> Option<Option<T>> {
    if readable(s, key, read) {
        match member(s, key) {
            Some(v) => Some(read(v)),
            None => Some(None),
        }
    } else {
        None
    }
}

/// Whether `fits` holds of every member `key`.
pub fn all_fit<F: Fn(&JsonValue) -> bool>(
    entries: &Vec<(String, JsonValue)>,
    key: &str,
    fits: F,
) -> (r: bool)
    requires
        forall|v: &JsonValue| call_requires(fits, (v,)),
    ensures
        r ==> forall|i: int|
            0 <= i < entries@.len() && (#[trigger] entries@[i]).0@ == key@ ==> call_ensures(
                fits,
                (&entries@[i].1,),
                true,
            ),
        !r ==> exists|i: int|
            0 <= i < entries@.len() && (#[trigger] entries@[i]).0@ == key@ && call_ensures(
                fits,
                (&entries@[i].1,),
                false,
            ),
{
    let mut i: usize = 0;
    while i < entries.len()
        invariant
            i <= entries@.len(),
            forall|v: &JsonValue| call_requires(fits, (v,)),
            forall|k: int|
                0 <= k < i && (#[trigger] entries@[k]).0@ == key@ ==> call_ensures(
                    fits,
                    (&entries@[k].1,),
                    true,
                ),
        decreases entries@.len() - i,
    {
        if text_eq(entries[i].0.as_str(), key) && !fits(&entries[i].1) {
            assert(entries@[i as int].0@ == key@);
            return false;
        }
        i = i + 1;
    }
    true
}

pub open spec fn bool_in() -> spec_fn(JsonTree) -> Option<bool> {
    |t: JsonTree|
        match t {
            JsonTree::Bool(b) => Some(b),
            _ => None,
        }
}

pub open spec fn text_in() -> spec_fn(JsonTree) -> Option<Seq<char>> {
    |t: JsonTree|
        match t {
            JsonTree::Text(s) => Some(s),
            _ => None,
        }
}

pub open spec fn text_or_null_in() -> spec_fn(JsonTree) -> Option<Option<Seq<char>>> {
    |t: JsonTree|
        match t {
            JsonTree::Text(s) => Some(Some(s)),
            JsonTree::Null => Some(None),
            _ => None,
        }
}

pub open spec fn number_in() -> spec_fn(JsonTree) -> Option<u64> {
    |t: JsonTree|
        match t {
            JsonTree::Unsigned(n) => Some(n),
            _ => None,
        }
}

pub open spec fn number_or_null_in() -> spec_fn(JsonTree) -> Option<Option<u64>> {
    |t: JsonTree|
        match t {
            JsonTree::Unsigned(n) => Some(Some(n)),
            JsonTree::Null => Some(None),
            _ => None,
        }
}

fn is_bool(v: &JsonValue) -> (r: bool)
    ensures
        r == (bool_in()(v@) is Some),
{
    matches!(v, JsonValue::Bool(_))
}

fn is_text(v: &JsonValue) -> (r: bool)
    ensures
        r == (text_in()(v@) is Some),
{
    matches!(v, JsonValue::Text(_))
}

fn is_text_or_null(v: &JsonValue) -> (r: bool)
    ensures
        r == (text_or_null_in()(v@) is Some),
{
    matches!(v, JsonValue::Text(_) | JsonValue::Null)
}

fn is_number(v: &JsonValue) -> (r: bool)
    ensures
        r == (number_in()(v@) is Some),
{
    matches!(v, JsonValue::Unsigned(_))
}

fn is_number_or_null(v: &JsonValue) -> (r: bool)
    ensures
        r == (number_or_null_in()(v@) is Some),
{
    matches!(v, JsonValue::Unsigned(_) | JsonValue::Null)
}

/// A member that is found is one of the members.
pub proof fn lemma_member(s: Seq<(Seq<char>, JsonTree)>, key: Seq<char>)
    ensures
        member(s, key) matches Some(v) ==> exists|i: int|
            0 <= i < s.len() && (#[trigger] s[i]).0 == key && s[i].1 == v,
    decreases s.len(),
{
    if s.len() > 0 {
        if s.last().0 == key {
            assert(s[s.len() - 1] == s.last());
        } else {
            let head = s.drop_last();
            lemma_member(head, key);
            if let Some(v) = member(head, key) {
                let i = choose|i: int|
                    0 <= i < head.len() && (#[trigger] head[i]).0 == key && head[i].1 == v;
                assert(s[i] == head[i]);
            }
        }
    }
}

/// Whether all members `key` can be read, from whether each of them can.
pub proof fn lemma_readable<T>(
    entries: Seq<(String, JsonValue)>,
    key: Seq<char>,
    read: spec_fn(JsonTree) -> Option<T>,
    fit: bool,
)
    requires
        fit ==> forall|i: int|
            0 <= i < entries.len() && (#[trigger] entries[i]).0@ == key ==> read(
                entries[i].1@,
            ) is Some,
        !fit ==> exists|i: int|
            0 <= i < entries.len() && (#[trigger] entries[i]).0@ == key && read(
                entries[i].1@,
            ) is None,
    ensures
        readable(members(entries), key, read) == fit,
{
    let s = members(entries);
    assert forall|i: int| 0 <= i < s.len() implies #[trigger] s[i] == (
        entries[i].0@,
        entries[i].1@,
    ) by {}
    if !fit {
        let i = choose|i: int|
            0 <= i < entries.len() && (#[trigger] entries[i]).0@ == key && read(
                entries[i].1@,
            ) is None;
        assert(s[i].0 == key);
    }
}

pub fn read_bool(entries: &Vec<(String, JsonValue)>, key: &str) -> (r: Option<Option<bool>>)
    ensures
        r == field(members(entries@), key@, bool_in()),
{
    let fit = all_fit(entries, key, is_bool);
    proof {
        lemma_readable(entries@, key@, bool_in(), fit);
        lemma_member(members(entries@), key@);
    }
    if !fit {
        return None;
    }
    match find_member(entries, key) {
        Some(JsonValue::Bool(b)) => Some(Some(*b)),
        _ => Some(None),
    }
}

pub fn read_text(entries: &Vec<(String, JsonValue)>, key: &str) -> (r: Option<Option<String>>)
    ensures
        match r {
            Some(text) => field(members(entries@), key@, text_in()) == Some(opt_text(text)),
            None => field(members(entries@), key@, text_in()) is None,
        },
{
    let fit = all_fit(entries, key, is_text);
    proof {
        lemma_readable(entries@, key@, text_in(), fit);
        lemma_member(members(entries@), key@);
    }
    if !fit {
        return None;
    }
    match find_member(entries, key) {
        Some(JsonValue::Text(s)) => Some(Some(s.clone())),
        _ => Some(None),
    }
}

/// A text that is missing counts as null.
pub fn read_text_or_null(entries: &Vec<(String, JsonValue)>, key: &str) -> (r: Option<
    Option<String>,
>)
    ensures
        match r {
            Some(text) => match field(members(entries@), key@, text_or_null_in()) {
                Some(Some(s)) => opt_text(text) == s,
                Some(None) => text is None,
                None => false,
            },
            None => field(members(entries@), key@, text_or_null_in()) is None,
        },
{
    let fit = all_fit(entries, key, is_text_or_null);
    proof {
        lemma_readable(entries@, key@, text_or_null_in(), fit);
        lemma_member(members(entries@), key@);
    }
    if !fit {
        return None;
    }
    match find_member(entries, key) {
        Some(JsonValue::Text(s)) => Some(Some(s.clone())),
        _ => Some(None),
    }
}

pub fn read_number(entries: &Vec<(String, JsonValue)>, key: &str) -> (r: Option<Option<u64>>)
    ensures
        r == field(members(entries@), key@, number_in()),
{
    let fit = all_fit(entries, key, is_number);
    proof {
        lemma_readable(entries@, key@, number_in(), fit);
        lemma_member(members(entries@), key@);
    }
    if !fit {
        return None;
    }
    match find_member(entries, key) {
        Some(JsonValue::Unsigned(n)) => Some(Some(*n)),
        _ => Some(None),
    }
}

/// A number that is missing counts as null.
pub fn read_number_or_null(entries: &Vec<(String, JsonValue)>, key: &str) -> (r: Option<
    Option<u64>,
>)
    ensures
        r == (match field(members(entries@), key@, number_or_null_in()) {
            Some(Some(n)) => Some(n),
            Some(None) => Some(None),
            None => None,
        }),
{
    let fit = all_fit(entries, key, is_number_or_null);
    proof {
        lemma_readable(entries@, key@, number_or_null_in(), fit);
        lemma_member(members(entries@), key@);
    }
    if !fit {
        return None;
    }
    match find_member(entries, key) {
        Some(JsonValue::Unsigned(n)) => Some(Some(*n)),
        _ => Some(None),
    }
}

/// The members of an object as properties.
pub open spec fn prop_map(s: Seq<(Seq<char>, JsonTree)>) -> Map<Seq<char>, PropView>
    decreases s.len(),
{
    if s.len() == 0 {
        Map::empty()
    } else {
        prop_map(s.drop_last()).insert(s.last().0, s.last().1.prop())
    }
}

pub fn to_props(entries: &Vec<(String, JsonValue)>) -> (r: PropMap)
    ensures
        r@ == prop_map(members(entries@)),
{
    let ghost all = members(entries@);
    let mut r = PropMap::new();
    let mut i: usize = 0;
    while i < entries.len()
        invariant
            i <= entries@.len(),
            all == members(entries@),
            r@ == prop_map(all.take(i as int)),
        decreases entries@.len() - i,
    {
        assert(all.take(i + 1).drop_last() =~= all.take(i as int));
        assert(all.take(i + 1).last() == (entries@[i as int].0@, entries@[i as int].1@));
        r.insert(entries[i].0.clone(), entries[i].1.to_prop());
        i = i + 1;
    }
    assert(all.take(entries@.len() as int) =~= all);
    r
}

/// Cutting an object at a depth leaves its members under their names.
pub proof fn lemma_member_cut(s: Seq<(Seq<char>, JsonTree)>, key: Seq<char>, levels: nat)
    ensures
        member(cut_members(s, levels), key) == cut_if_any(member(s, key), levels),
    decreases s.len(),
{
    if s.len() > 0 {
        lemma_member_cut(s.drop_last(), key, levels);
        assert(cut_members(s, levels).drop_last() =~= cut_members(s.drop_last(), levels));
        assert(cut_members(s, levels).last() == (s.last().0, cut(s.last().1, levels)));
    }
}

/// Cutting an object leaves what is read from a member, where a reading does not
/// go that deep.
pub proof fn lemma_field_cut<T>(
    s: Seq<(Seq<char>, JsonTree)>,
    key: Seq<char>,
    read: spec_fn(JsonTree) -> Option<T>,
    levels: nat,
)
    requires
        forall|t: JsonTree| read(#[trigger] cut(t, levels)) == read(t),
    ensures
        field(cut_members(s, levels), key, read) == field(s, key, read),
{
    let c = cut_members(s, levels);
    lemma_member_cut(s, key, levels);
    assert forall|i: int| 0 <= i < s.len() implies (#[trigger] c[i]) == (
        s[i].0,
        cut(s[i].1, levels),
    ) by {}
    if readable(s, key, read) {
        assert forall|i: int| 0 <= i < c.len() && (#[trigger] c[i]).0 == key implies read(
            c[i].1,
        ) is Some by {
            assert(s[i].0 == key);
        }
    }
    if readable(c, key, read) {
        assert forall|i: int| 0 <= i < s.len() && (#[trigger] s[i]).0 == key implies read(
            s[i].1,
        ) is Some by {
            assert(c[i].0 == key);
        }
    }
}

/// Cutting an object leaves what its members are as properties.
pub proof fn lemma_prop_map_cut(s: Seq<(Seq<char>, JsonTree)>, levels: nat)
    ensures
        prop_map(cut_members(s, levels)) == prop_map(s),
    decreases s.len(),
{
    if s.len() > 0 {
        lemma_prop_map_cut(s.drop_last(), levels);
        assert(cut_members(s, levels).drop_last() =~= cut_members(s.drop_last(), levels));
        assert(cut_members(s, levels).last() == (s.last().0, cut(s.last().1, levels)));
    }
}

/// An integer as it is printed.
pub open spec fn integer_text(n: int) -> Seq<char> {
    if n < 0 {
        "-"@ + decimal((-n) as nat)
    } else {
        decimal(n as nat)
    }
}

impl PropView {
    /// The text of a string value.
    pub open spec fn text(self) -> Option<Seq<char>> {
        match self {
            PropView::Text(s) => Some(s),
            _ => None,
        }
    }

    /// The text of a string, or the digits of a number.
    pub open spec fn scalar(self) -> Option<Seq<char>> {
        match self {
            PropView::Text(s) => Some(s),
            PropView::Unsigned(n) => Some(integer_text(n as int)),
            PropView::Negative(n) => Some(integer_text(n as int)),
            PropView::Fraction(s) => Some(s),
            _ => None,
        }
    }

    /// A string or a number, read as a `u32`.
    pub open spec fn as_number(self) -> Option<u32> {
        match self.scalar() {
            Some(s) => match number(s) {
                Ok(n) => Some(n),
                Err(_) => None,
            },
            None => None,
        }
    }
}

impl PropValue {
    pub fn scalar_text(&self) -> (r: Option<String>)
        ensures
            opt_text(r) == self@.scalar(),
    {
        match self {
            PropValue::Text(s) => Some(s.clone()),
            PropValue::Unsigned(n) => Some(decimal_text(*n)),
            PropValue::Negative(n) => Some(integer(*n)),
            PropValue::Fraction(s) => Some(s.clone()),
            _ => None,
        }
    }

    pub fn to_number(&self) -> (r: Option<u32>)
        ensures
            r == self@.as_number(),
    {
        match self.scalar_text() {
            Some(s) => match parse_number(s.as_str()) {
                Ok(n) => Some(n),
                Err(_) => None,
            },
            None => None,
        }
    }
}

fn integer(n: i64) -> (r: String)
    ensures
        r@ == integer_text(n as int),
{
    if n < 0 {
        let m: u64 = (-(n + 1)) as u64 + 1;
        let digits = decimal_text(m);
        cat("-", digits.as_str())
    } else {
        decimal_text(n as u64)
    }
}

pub open spec fn keys_differ(s: Seq<(String, PropValue)>) -> bool {
    forall|i: int, j: int| 0 <= i < j < s.len() ==> (#[trigger] s[i]).0@ != (#[trigger] s[j]).0@
}

pub open spec fn has_key(s: Seq<(String, PropValue)>, key: Seq<char>) -> bool {
    exists|i: int| 0 <= i < s.len() && (#[trigger] s[i]).0@ == key
}

/// What each key stands for.
pub open spec fn key_map(s: Seq<(String, PropValue)>) -> Map<Seq<char>, PropView> {
    Map::new(
        |key: Seq<char>| has_key(s, key),
        |key: Seq<char>| s[choose|i: int| 0 <= i < s.len() && (#[trigger] s[i]).0@ == key].1@,
    )
}

/// Properties by name, one value for each name.
#[derive(Debug)]
pub struct PropMap {
    entries: Vec<(String, PropValue)>,
}

impl View for PropMap {
    type V = Map<Seq<char>, PropView>;

    closed spec fn view(&self) -> Map<Seq<char>, PropView> {
        key_map(self.entries@)
    }
}

proof fn lemma_key_map(s: Seq<(String, PropValue)>, i: int)
    requires
        keys_differ(s),
        0 <= i < s.len(),
    ensures
        key_map(s).contains_key(s[i].0@),
        key_map(s)[s[i].0@] == s[i].1@,
{
    let key = s[i].0@;
    assert(has_key(s, key));
    let j = choose|j: int| 0 <= j < s.len() && (#[trigger] s[j]).0@ == key;
    assert(i == j) by {
        if i < j {
        } else if j < i {
        }
    }
}

impl PropMap {
    #[verifier::type_invariant]
    pub closed spec fn unique(self) -> bool {
        keys_differ(self.entries@)
    }

    pub fn new() -> (r: Self)
        ensures
            r@ == Map::<Seq<char>, PropView>::empty(),
    {
        let r = PropMap { entries: Vec::new() };
        assert(r@ =~= Map::<Seq<char>, PropView>::empty());
        r
    }

    /// The position of `key`, or the number of entries.
    fn position(&self, key: &str) -> (p: usize)
        ensures
            p <= self.entries@.len(),
            p < self.entries@.len() ==> self.entries@[p as int].0@ == key@,
            p == self.entries@.len() ==> !has_key(self.entries@, key@),
    {
        let mut p: usize = 0;
        while p < self.entries.len()
            invariant
                p <= self.entries@.len(),
                forall|i: int| 0 <= i < p ==> (#[trigger] self.entries@[i]).0@ != key@,
            decreases self.entries@.len() - p,
        {
            if text_eq(self.entries[p].0.as_str(), key) {
                return p;
            }
            p = p + 1;
        }
        p
    }

    pub fn get(&self, key: &str) -> (r: Option<&PropValue>)
        ensures
            match r {
                Some(v) => self@.contains_key(key@) && v@ == self@[key@],
                None => !self@.contains_key(key@),
            },
    {
        proof {
            use_type_invariant(self);
        }
        let p = self.position(key);
        if p < self.entries.len() {
            proof {
                lemma_key_map(self.entries@, p as int);
            }
            Some(&self.entries[p].1)
        } else {
            None
        }
    }

    /// Puts `value` under `key`, in place of what stood there.
    pub fn insert(&mut self, key: String, value: PropValue)
        ensures
            final(self)@ == old(self)@.insert(key@, value@),
    {
        proof {
            use_type_invariant(&*self);
        }
        let p = self.position(key.as_str());
        let ghost name = key@;
        let ghost told = value@;
        let mut v: Vec<(String, PropValue)> = Vec::new();
        std::mem::swap(&mut v, &mut self.entries);
        let ghost before = v@;
        if p < v.len() {
            v.set(p, (key, value));
        } else {
            v.push((key, value));
        }
        proof {
            let s = v@;
            assert(s[p as int].0@ == name);
            assert forall|i: int, j: int| 0 <= i < j < s.len() implies (#[trigger] s[i]).0@ != (
            #[trigger] s[j]).0@ by {
                if i != p && i < before.len() {
                    assert(s[i] == before[i]);
                }
                if j != p && j < before.len() {
                    assert(s[j] == before[j]);
                }
                if p < before.len() {
                    assert(before[p as int].0@ == name);
                } else {
                    assert(has_key(before, before[i].0@));
                }
            }
            assert forall|k: Seq<char>| has_key(s, k) == (k == name || has_key(before, k)) by {
                if has_key(s, k) {
                    let i = choose|i: int| 0 <= i < s.len() && (#[trigger] s[i]).0@ == k;
                    if i != p {
                        assert(before[i].0@ == k);
                    }
                }
                if has_key(before, k) {
                    let i = choose|i: int| 0 <= i < before.len() && (#[trigger] before[i]).0@ == k;
                    assert(s[i].0@ == k);
                }
            }
            assert forall|k: Seq<char>| has_key(s, k) implies key_map(s)[k] == key_map(
                before,
            ).insert(name, told)[k] by {
                let i = choose|i: int| 0 <= i < s.len() && (#[trigger] s[i]).0@ == k;
                lemma_key_map(s, i);
                if i != p {
                    assert(before[i] == s[i]);
                    lemma_key_map(before, i);
                }
            }
            assert(key_map(s) =~= key_map(before).insert(name, told));
        }
        self.entries = v;
    }
}

proof fn lemma_same_keys(s: Seq<(String, PropValue)>, t: Seq<(String, PropValue)>)
    requires
        keys_differ(s),
        s.len() == t.len(),
        forall|k: int|
            0 <= k < s.len() ==> (#[trigger] t[k]).0@ == s[k].0@ && t[k].1@ == s[k].1@,
    ensures
        keys_differ(t),
        key_map(t) == key_map(s),
{
    assert forall|i: int, j: int| 0 <= i < j < t.len() implies (#[trigger] t[i]).0@ != (
    #[trigger] t[j]).0@ by {
        assert(s[i].0@ != s[j].0@);
    }
    assert forall|k: Seq<char>| has_key(s, k) == has_key(t, k) by {
        if has_key(s, k) {
            let i = choose|i: int| 0 <= i < s.len() && (#[trigger] s[i]).0@ == k;
            assert(t[i].0@ == k);
        }
    }
    assert forall|k: Seq<char>| has_key(s, k) implies key_map(s)[k] == key_map(t)[k] by {
        let i = choose|i: int| 0 <= i < s.len() && (#[trigger] s[i]).0@ == k;
        lemma_key_map(s, i);
        assert(t[i].0@ == k);
        lemma_key_map(t, i);
    }
    assert(key_map(t) =~= key_map(s));
}

impl Clone for PropMap {
    fn clone(&self) -> (r: Self)
        ensures
            r@ == self@,
    {
        proof {
            use_type_invariant(self);
        }
        let mut v: Vec<(String, PropValue)> = Vec::new();
        let mut i: usize = 0;
        while i < self.entries.len()
            invariant
                i <= self.entries@.len(),
                v@.len() == i,
                forall|k: int|
                    0 <= k < i ==> (#[trigger] v@[k]).0@ == self.entries@[k].0@ && v@[k].1@
                        == self.entries@[k].1@,
            decreases self.entries@.len() - i,
        {
            v.push((self.entries[i].0.clone(), self.entries[i].1.clone()));
            i = i + 1;
        }
        proof {
            lemma_same_keys(self.entries@, v@);
        }
        PropMap { entries: v }
    }
}

/// Where members repeat a key the last of them counts, whatever stands before
/// and between; a key that no member has is not there.
pub proof fn the_last_member_counts(s: Seq<(Seq<char>, JsonTree)>, key: Seq<char>, i: int)
    ensures
        0 <= i < s.len() && s[i].0 == key && (forall|j: int|
            i < j < s.len() ==> (#[trigger] s[j]).0 != key) ==> member(s, key) == Some(s[i].1)
            && prop_map(s).contains_key(key) && prop_map(s)[key] == s[i].1.prop(),
        (forall|j: int| 0 <= j < s.len() ==> (#[trigger] s[j]).0 != key) ==> member(s, key) is None
            && !prop_map(s).contains_key(key),
    decreases s.len(),
{
    if s.len() > 0 {
        let head = s.drop_last();
        the_last_member_counts(head, key, i);
        assert(s[s.len() - 1] == s.last());
        assert forall|j: int| 0 <= j < head.len() implies #[trigger] head[j] == s[j] by {}
    }
}

/// A member is read where each member of its key can be read, and then from the
/// last of them; where there is none, nothing is read; and where one of them
/// cannot be read, reading fails.
pub proof fn members_are_read_from_the_last<T>(
    s: Seq<(Seq<char>, JsonTree)>,
    key: Seq<char>,
    read: spec_fn(JsonTree) -> Option<T>,
    i: int,
)
    ensures
        ({
            let fits = forall|j: int|
                0 <= j < s.len() && (#[trigger] s[j]).0 == key ==> read(s[j].1) is Some;
            &&& fits && 0 <= i < s.len() && s[i].0 == key && (forall|j: int|
                i < j < s.len() ==> (#[trigger] s[j]).0 != key) ==> field(s, key, read) == Some(
                read(s[i].1),
            )
            &&& (forall|j: int| 0 <= j < s.len() ==> (#[trigger] s[j]).0 != key) ==> field(
                s,
                key,
                read,
            ) == Some(None::<T>)
            &&& !fits ==> field(s, key, read) is None
        }),
{
    the_last_member_counts(s, key, i);
}

/// Each reading takes values of its own type, a `null` where nothing may be said
/// too, and fails on every other.
pub proof fn readings_take_their_own_type(b: bool, n: u64, t: Seq<char>, v: JsonTree)
    ensures
        (bool_in()(v) == Some(b)) == (v == JsonTree::Bool(b)),
        (text_in()(v) == Some(t)) == (v == JsonTree::Text(t)),
        (number_in()(v) == Some(n)) == (v == JsonTree::Unsigned(n)),
        (text_or_null_in()(v) == Some(Some(t))) == (v == JsonTree::Text(t)),
        (text_or_null_in()(v) == Some(None::<Seq<char>>)) == (v == JsonTree::Null),
        (number_or_null_in()(v) == Some(Some(n))) == (v == JsonTree::Unsigned(n)),
        (number_or_null_in()(v) == Some(None::<u64>)) == (v == JsonTree::Null),
{
}

/// A property is the text that it holds, or the digits of the integer that it
/// holds; only a text is a text, and a truth value, a list or an object says
/// nothing.
pub proof fn properties_are_texts_or_digits(t: Seq<char>, n: u64, m: i64)
    requires
        m < 0,
    ensures
        JsonTree::Text(t).prop().text() == Some(t),
        JsonTree::Text(t).prop().scalar() == Some(t),
        JsonTree::Unsigned(n).prop().text() is None,
        JsonTree::Unsigned(n).prop().scalar() == Some(decimal(n as nat)),
        JsonTree::Negative(m).prop().text() is None,
        JsonTree::Negative(m).prop().scalar() == Some("-"@ + decimal((-(m as int)) as nat)),
        JsonTree::Fraction(t).prop().text() is None,
        JsonTree::Fraction(t).prop().scalar() == Some(t),
        JsonTree::Null.prop().scalar() is None,
        JsonTree::Bool(true).prop().scalar() is None,
        JsonTree::Bool(false).prop().scalar() is None,
{
}

/// The last member `key` of an object is `value`.
pub open spec fn last_is(
    entries: Seq<(Seq<char>, JsonTree)>,
    key: Seq<char>,
    value: JsonTree,
) -> bool {
    exists|i: int|
        0 <= i < entries.len() && #[trigger] entries[i] == (key, value) && forall|j: int|
            i < j < entries.len() ==> (#[trigger] entries[j]).0 != key
}

/// The last member `key` is `value` exactly if looking for it gives `value`.
pub proof fn lemma_last_is(entries: Seq<(Seq<char>, JsonTree)>, key: Seq<char>, value: JsonTree)
    ensures
        last_is(entries, key, value) == (member(entries, key) == Some(value)),
    decreases entries.len(),
{
    if last_is(entries, key, value) {
        let i = choose|i: int|
            0 <= i < entries.len() && #[trigger] entries[i] == (key, value) && forall|j: int|
                i < j < entries.len() ==> (#[trigger] entries[j]).0 != key;
        the_last_member_counts(entries, key, i);
    }
    if entries.len() > 0 && member(entries, key) == Some(value) {
        let n = entries.len() - 1;
        if entries.last().0 == key {
            assert(entries[n] == (key, value));
        } else {
            let head = entries.drop_last();
            lemma_last_is(head, key, value);
            let i = choose|i: int|
                0 <= i < head.len() && #[trigger] head[i] == (key, value) && forall|j: int|
                    i < j < head.len() ==> (#[trigger] head[j]).0 != key;
            assert(entries[i] == (key, value));
            assert forall|j: int| i < j < entries.len() implies (#[trigger] entries[j]).0
                != key by {
                if j < n {
                    assert(head[j] == entries[j]);
                }
            }
        }
    }
}

/// Every member `key` is a value of the wanted kind.
pub open spec fn each_is(
    entries: Seq<(Seq<char>, JsonTree)>,
    key: Seq<char>,
    wanted: spec_fn(JsonTree) -> bool,
) -> bool {
    forall|i: int| 0 <= i < entries.len() && (#[trigger] entries[i]).0 == key ==> wanted(
        entries[i].1,
    )
}

/// A list and an object say nothing as a property, and a view of a property, and
/// of a value, shows what it holds.
pub proof fn views_of_values_show_what_they_hold(
    list: Seq<JsonTree>,
    entries: Seq<(Seq<char>, JsonTree)>,
    t: String,
    n: u64,
    m: i64,
    b: bool,
)
    ensures
        JsonTree::Array(list).prop() == PropView::Other,
        JsonTree::Object(entries).prop() == PropView::Other,
        PropValue::Text(t)@ == PropView::Text(t@),
        PropValue::Unsigned(n)@ == PropView::Unsigned(n),
        PropValue::Negative(m)@ == PropView::Negative(m),
        PropValue::Fraction(t)@ == PropView::Fraction(t@),
        PropValue::Other@ == PropView::Other,
        JsonValue::Text(t)@ == JsonTree::Text(t@),
        JsonValue::Unsigned(n)@ == JsonTree::Unsigned(n),
        JsonValue::Negative(m)@ == JsonTree::Negative(m),
        JsonValue::Bool(b)@ == JsonTree::Bool(b),
        JsonValue::Null@ == JsonTree::Null,
{
}

} // verus!
