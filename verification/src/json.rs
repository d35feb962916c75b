//! JSON values.
//!
//! [`Json`] is the value that the library reads and builds, [`JsonView`] its
//! mathematical counterpart: an object is a map from names to values, so two
//! objects with the same members are the same whatever the order they were
//! written in. Text is parsed and printed by `serde_json`.

use crate::text;
use vstd::prelude::*;
use vstd::string::*;

verus! {

/// `serde_json::Value`, opaque.
#[verifier::external_type_specification]
#[verifier::external_body]
pub struct ExValue(serde_json::Value);

/// `serde_json::Number`, opaque.
#[verifier::external_type_specification]
#[verifier::external_body]
pub struct ExNumber(serde_json::Number);

/// `serde_json::Error`, opaque.
#[verifier::external_type_specification]
#[verifier::external_body]
pub struct ExJsonError(serde_json::Error);

/// A clone of a `serde_json::Number` is the same number.
pub assume_specification[ <serde_json::Number as Clone>::clone ](n: &serde_json::Number) -> (r:
    serde_json::Number)
    ensures
        r == *n,
;

/// A number with a fractional part or an exponent, as it was read. Only reading
/// a `serde_json` value makes one.
#[derive(Clone, Debug, PartialEq)]
pub struct JsonFloat {
    number: serde_json::Number,
}

/// A JSON value.
#[derive(Debug, PartialEq)]
pub enum Json {
    Null,
    Bool(bool),
    UInt(u64),
    Int(i64),
    Float(JsonFloat),
    Str(String),
    Array(Vec<Json>),
    Object(JsonObject),
}

/// The members of a JSON object. Of two entries with one name the later counts.
#[derive(Clone, Debug, PartialEq)]
pub struct JsonObject {
    pub entries: Vec<(String, Json)>,
}

/// What a JSON value is. `Int` is for negative numbers.
#[verifier::ext_equal]
pub ghost enum JsonView {
    Null,
    Bool(bool),
    UInt(u64),
    Int(i64),
    Float(JsonFloat),
    Str(Seq<char>),
    Array(Seq<JsonView>),
    Object(Map<Seq<char>, JsonView>),
}

impl JsonView {
    /// The member `key` of an object; null where there is none.
    pub open spec fn at(self, key: Seq<char>) -> JsonView {
        if self.has(key) {
            self->Object_0[key]
        } else {
            JsonView::Null
        }
    }

    /// Whether this is an object with a member `key`.
    pub open spec fn has(self, key: Seq<char>) -> bool {
        self is Object && self->Object_0.contains_key(key)
    }

    /// The element `i` of an array; null where there is none.
    pub open spec fn idx(self, i: int) -> JsonView {
        if self is Array && 0 <= i < self->Array_0.len() {
            self->Array_0[i]
        } else {
            JsonView::Null
        }
    }

    /// The text of a string.
    pub open spec fn as_str(self) -> Option<Seq<char>> {
        match self {
            JsonView::Str(s) => Some(s),
            _ => None,
        }
    }

    /// The text of a string, or `default` for anything else.
    pub open spec fn str_or(self, default: Seq<char>) -> Seq<char> {
        match self {
            JsonView::Str(s) => s,
            _ => default,
        }
    }

    /// The value of a number that is not negative and has no fraction.
    pub open spec fn as_u64(self) -> Option<u64> {
        match self {
            JsonView::UInt(n) => Some(n),
            _ => None,
        }
    }

    /// The value of a number without a fraction that fits 64 signed bits.
    pub open spec fn as_i64(self) -> Option<i64> {
        match self {
            JsonView::UInt(n) => if n <= i64::MAX {
                Some(n as i64)
            } else {
                None
            },
            JsonView::Int(n) => Some(n),
            _ => None,
        }
    }

    /// As [`JsonView::as_u64`], with 0 for anything else.
    pub open spec fn u64_or_zero(self) -> u64 {
        match self {
            JsonView::UInt(n) => n,
            _ => 0,
        }
    }

    pub open spec fn as_bool(self) -> Option<bool> {
        match self {
            JsonView::Bool(b) => Some(b),
            _ => None,
        }
    }

    pub open spec fn as_array(self) -> Option<Seq<JsonView>> {
        match self {
            JsonView::Array(a) => Some(a),
            _ => None,
        }
    }
}

/// An object has a member with this value.
pub open spec fn holds(o: Map<Seq<char>, JsonView>, key: Seq<char>, value: JsonView) -> bool {
    o.contains_key(key) && o[key] == value
}

/// The views of a list of JSON values.
pub open spec fn items_view(s: Seq<Json>) -> Seq<JsonView>
    decreases s,
{
    if s.len() == 0 {
        Seq::empty()
    } else {
        items_view(s.drop_last()).push(s.last().view())
    }
}

/// The map that a list of members gives.
pub open spec fn entries_view(s: Seq<(String, Json)>) -> Map<Seq<char>, JsonView>
    decreases s,
{
    if s.len() == 0 {
        Map::empty()
    } else {
        entries_view(s.drop_last()).insert(s.last().0@, s.last().1.view())
    }
}

impl Json {
    pub open spec fn view(&self) -> JsonView
        decreases self,
    {
        match self {
            Json::Null => JsonView::Null,
            Json::Bool(b) => JsonView::Bool(*b),
            Json::UInt(n) => JsonView::UInt(*n),
            Json::Int(n) => if *n >= 0 {
                JsonView::UInt(*n as u64)
            } else {
                JsonView::Int(*n)
            },
            Json::Float(n) => JsonView::Float(*n),
            Json::Str(s) => JsonView::Str(s@),
            Json::Array(a) => JsonView::Array(items_view(a@)),
            Json::Object(o) => JsonView::Object(entries_view(o.entries@)),
        }
    }
}

impl JsonObject {
    pub open spec fn view(&self) -> Map<Seq<char>, JsonView> {
        entries_view(self.entries@)
    }
}

pub proof fn lemma_items_view(s: Seq<Json>)
    ensures
        items_view(s).len() == s.len(),
        forall|i: int| 0 <= i < s.len() ==> #[trigger] items_view(s)[i] == s[i]@,
    decreases s.len(),
{
    if s.len() > 0 {
        lemma_items_view(s.drop_last());
    }
}

/// The position of the last entry named `key`, where there is one.
pub open spec fn last_entry(s: Seq<(String, Json)>, key: Seq<char>) -> int
    decreases s.len(),
{
    if s.len() == 0 {
        -1
    } else if s.last().0@ == key {
        s.len() - 1
    } else {
        last_entry(s.drop_last(), key)
    }
}

proof fn lemma_last_entry(s: Seq<(String, Json)>, key: Seq<char>)
    ensures
        -1 <= last_entry(s, key) < s.len(),
        last_entry(s, key) >= 0 <==> entries_view(s).contains_key(key),
        last_entry(s, key) >= 0 ==> s[last_entry(s, key)].0@ == key && entries_view(s)[key]
            == s[last_entry(s, key)].1@,
        forall|j: int| last_entry(s, key) < j < s.len() ==> s[j].0@ != key,
    decreases s.len(),
{
    if s.len() > 0 {
        lemma_last_entry(s.drop_last(), key);
        assert forall|j: int| last_entry(s, key) < j < s.len() implies s[j].0@ != key by {
            if j < s.len() - 1 {
                assert(s[j] == s.drop_last()[j]);
            }
        }
    }
}

proof fn lemma_last_entry_at(s: Seq<(String, Json)>, key: Seq<char>, n: int)
    requires
        -1 <= n < s.len(),
        n >= 0 ==> s[n].0@ == key,
        forall|j: int| n < j < s.len() ==> s[j].0@ != key,
    ensures
        last_entry(s, key) == n,
{
    lemma_last_entry(s, key);
}

proof fn lemma_overwrite(s: Seq<(String, Json)>, n: int, entry: (String, Json))
    requires
        0 <= n < s.len(),
        entry.0@ == s[n].0@,
        last_entry(s, entry.0@) == n,
    ensures
        entries_view(s.update(n, entry)) == entries_view(s).insert(entry.0@, entry.1@),
    decreases s.len(),
{
    let t = s.update(n, entry);
    if n == s.len() - 1 {
        assert(t.drop_last() =~= s.drop_last());
        assert(entries_view(t) =~= entries_view(s).insert(entry.0@, entry.1@));
    } else {
        lemma_overwrite(s.drop_last(), n, entry);
        assert(t.drop_last() =~= s.drop_last().update(n, entry));
        assert(t.last() == s.last());
        assert(entries_view(t) =~= entries_view(s).insert(entry.0@, entry.1@));
    }
}

impl JsonObject {
    /// An object without members.
    pub fn new() -> (r: JsonObject)
        ensures
            r@ == Map::<Seq<char>, JsonView>::empty(),
    {
        JsonObject { entries: Vec::new() }
    }

    /// The position of the entry that counts for `key`.
    fn find(&self, key: &str) -> (r: Option<usize>)
        ensures
            match r {
                Some(i) => i < self.entries@.len() && last_entry(self.entries@, key@) == i,
                None => last_entry(self.entries@, key@) == -1,
            },
    {
        let mut i: usize = self.entries.len();
        while i > 0
            invariant
                i <= self.entries@.len(),
                forall|j: int| i <= j < self.entries@.len() ==> self.entries@[j].0@ != key@,
            decreases i,
        {
            i = i - 1;
            if text::same(self.entries[i].0.as_str(), key) {
                proof {
                    lemma_last_entry_at(self.entries@, key@, i as int);
                }
                return Some(i);
            }
        }
        proof {
            lemma_last_entry_at(self.entries@, key@, -1);
        }
        None
    }

    /// The member `key`.
    pub fn get(&self, key: &str) -> (r: Option<&Json>)
        ensures
            match r {
                Some(j) => self@.contains_key(key@) && j@ == self@[key@],
                None => !self@.contains_key(key@),
            },
    {
        proof {
            lemma_last_entry(self.entries@, key@);
        }
        match self.find(key) {
            Some(i) => Some(&self.entries[i].1),
            None => None,
        }
    }

    /// Sets the member `key`.
    pub fn set(&mut self, key: &str, value: Json)
        ensures
            final(self)@ == old(self)@.insert(key@, value@),
    {
        let found = self.find(key);
        let ghost before = self.entries@;
        match found {
            Some(i) => {
                proof {
                    lemma_last_entry(before, key@);
                }
                let name = key.to_string();
                proof {
                    lemma_overwrite(before, i as int, (name, value));
                }
                self.entries.set(i, (name, value));
            },
            None => {
                self.entries.push((key.to_string(), value));
                assert(self.entries@.drop_last() =~= before);
            },
        }
    }

    /// Whether there are no entries.
    pub fn is_empty(&self) -> (r: bool)
        ensures
            r == (self@ == Map::<Seq<char>, JsonView>::empty()),
    {
        proof {
            if self.entries@.len() > 0 {
                let last = self.entries@.last();
                assert(self@.contains_key(last.0@));
                assert(!Map::<Seq<char>, JsonView>::empty().contains_key(last.0@));
            }
        }
        self.entries.len() == 0
    }
}

impl Json {
    /// A string.
    pub fn str(s: &str) -> (r: Json)
        ensures
            r@ == JsonView::Str(s@),
    {
        Json::Str(s.to_string())
    }

    /// The member `key` of an object.
    pub fn get(&self, key: &str) -> (r: Option<&Json>)
        ensures
            match r {
                Some(j) => self@.has(key@) && j@ == self@.at(key@),
                None => !self@.has(key@),
            },
    {
        match self {
            Json::Object(o) => o.get(key),
            _ => None,
        }
    }

    /// The element `i` of an array.
    pub fn item(&self, i: usize) -> (r: Option<&Json>)
        ensures
            match r {
                Some(j) => j@ == self@.idx(i as int) && self@ is Array && i < self@->Array_0.len(),
                None => self@.idx(i as int) == JsonView::Null && !(self@ is Array && i
                    < self@->Array_0.len()),
            },
    {
        match self {
            Json::Array(a) => {
                proof {
                    lemma_items_view(a@);
                }
                if i < a.len() {
                    Some(&a[i])
                } else {
                    None
                }
            },
            _ => None,
        }
    }

    /// The elements of an array.
    pub fn as_array(&self) -> (r: Option<&Vec<Json>>)
        ensures
            match r {
                Some(a) => self@ == JsonView::Array(items_view(a@)),
                None => !(self@ is Array),
            },
    {
        match self {
            Json::Array(a) => Some(a),
            _ => None,
        }
    }

    /// The text of a string.
    pub fn as_str(&self) -> (r: Option<&str>)
        ensures
            match r {
                Some(s) => self@ == JsonView::Str(s@),
                None => self@.as_str() is None,
            },
    {
        match self {
            Json::Str(s) => Some(s.as_str()),
            _ => None,
        }
    }

    /// The value of a number that is not negative and has no fraction.
    pub fn as_u64(&self) -> (r: Option<u64>)
        ensures
            r == self@.as_u64(),
    {
        match self {
            Json::UInt(n) => Some(*n),
            Json::Int(n) => if *n >= 0 {
                Some(*n as u64)
            } else {
                None
            },
            _ => None,
        }
    }

    /// The value of a number without a fraction that fits 64 signed bits.
    pub fn as_i64(&self) -> (r: Option<i64>)
        ensures
            r == self@.as_i64(),
    {
        match self {
            Json::UInt(n) => if *n <= i64::MAX as u64 {
                Some(*n as i64)
            } else {
                None
            },
            Json::Int(n) => Some(*n),
            _ => None,
        }
    }

    /// The value of a boolean.
    pub fn as_bool(&self) -> (r: Option<bool>)
        ensures
            r == self@.as_bool(),
    {
        match self {
            Json::Bool(b) => Some(*b),
            _ => None,
        }
    }

    /// Whether this is null.
    pub fn is_null(&self) -> (r: bool)
        ensures
            r == (self@ == JsonView::Null),
    {
        matches!(self, Json::Null)
    }

    /// The text of the member `key`, where it is a string.
    pub fn str_at(&self, key: &str) -> (r: Option<&str>)
        ensures
            match r {
                Some(s) => self@.at(key@) == JsonView::Str(s@),
                None => self@.at(key@).as_str() is None,
            },
    {
        match self.get(key) {
            Some(j) => j.as_str(),
            None => None,
        }
    }

    /// The text of the member `key`, empty where it is no string.
    pub fn text_at(&self, key: &str) -> (r: String)
        ensures
            r@ == self@.at(key@).str_or(Seq::empty()),
    {
        match self.str_at(key) {
            Some(s) => s.to_string(),
            None => String::new(),
        }
    }

    /// The number at the member `key`.
    pub fn u64_at(&self, key: &str) -> (r: Option<u64>)
        ensures
            r == self@.at(key@).as_u64(),
    {
        match self.get(key) {
            Some(j) => j.as_u64(),
            None => None,
        }
    }

    /// A copy of this value.
    pub fn copy(&self) -> (r: Json)
        ensures
            r@ == self@,
        decreases self,
    {
        match self {
            Json::Null => Json::Null,
            Json::Bool(b) => Json::Bool(*b),
            Json::UInt(n) => Json::UInt(*n),
            Json::Int(n) => Json::Int(*n),
            Json::Float(f) => Json::Float(JsonFloat { number: f.number.clone() }),
            Json::Str(s) => Json::Str(s.clone()),
            Json::Array(a) => {
                let mut out: Vec<Json> = Vec::new();
                let mut i: usize = 0;
                while i < a.len()
                    invariant
                        i <= a@.len(),
                        out@.len() == i,
                        self matches Json::Array(b) && b == a,
                        items_view(out@) == items_view(a@.take(i as int)),
                    decreases a@.len() - i,
                {
                    let c = a[i].copy();
                    let ghost before = out@;
                    out.push(c);
                    proof {
                        assert(out@.drop_last() =~= before);
                        assert(a@.take(i + 1).drop_last() =~= a@.take(i as int));
                    }
                    i = i + 1;
                }
                assert(a@.take(i as int) =~= a@);
                Json::Array(out)
            },
            Json::Object(o) => {
                let mut out: Vec<(String, Json)> = Vec::new();
                let mut i: usize = 0;
                while i < o.entries.len()
                    invariant
                        i <= o.entries@.len(),
                        out@.len() == i,
                        self matches Json::Object(b) && b == o,
                        entries_view(out@) == entries_view(o.entries@.take(i as int)),
                    decreases o.entries@.len() - i,
                {
                    let k = o.entries[i].0.clone();
                    let c = o.entries[i].1.copy();
                    let ghost before = out@;
                    out.push((k, c));
                    proof {
                        assert(out@.drop_last() =~= before);
                        assert(o.entries@.take(i + 1).drop_last() =~= o.entries@.take(i as int));
                    }
                    i = i + 1;
                }
                assert(o.entries@.take(i as int) =~= o.entries@);
                Json::Object(JsonObject { entries: out })
            },
        }
    }
}

impl Clone for Json {
    fn clone(&self) -> (r: Json)
        ensures
            r@ == self@,
    {
        self.copy()
    }
}

/// The JSON value that a `serde_json::Value` holds.
pub uninterp spec fn value_view(v: serde_json::Value) -> JsonView;

/// What `serde_json::from_str` reads a text as; nothing where it reports an error.
pub uninterp spec fn json_read(text: Seq<char>) -> Option<JsonView>;

/// The text that `serde_json` prints a value as, without white space between tokens.
pub uninterp spec fn json_printed(value: JsonView) -> Seq<char>;

/// A text with `c` for every `~` that `code` follows.
pub open spec fn unescaped(s: Seq<char>, code: char, c: char) -> Seq<char>
    decreases s.len(),
{
    if s.len() < 2 {
        s
    } else if s[0] == '~' && s[1] == code {
        seq![c] + unescaped(s.skip(2), code, c)
    } else {
        seq![s[0]] + unescaped(s.skip(1), code, c)
    }
}

/// The position in an array that a part of a pointer names: decimal digits, with no sign
/// and no zero before others.
pub open spec fn position_named(part: Seq<char>) -> Option<nat> {
    if part.len() > 0 && (part[0] == '+' || (part[0] == '0' && part.len() != 1)) {
        None
    } else {
        text::number_in(part, usize::MAX as nat)
    }
}

/// What a part of a pointer names in a value: a member of an object or an item of an
/// array.
pub open spec fn named(value: JsonView, part: Seq<char>) -> Option<JsonView> {
    match value {
        JsonView::Object(m) => if m.contains_key(part) {
            Some(m[part])
        } else {
            None
        },
        JsonView::Array(items) => match position_named(part) {
            Some(i) if i < items.len() => Some(items[i as int]),
            _ => None,
        },
        _ => None,
    }
}

/// What is found in a value by going down the parts of a pointer, each of which has `~1`
/// for a slash and `~0` for a tilde.
pub open spec fn found_down(value: JsonView, parts: Seq<Seq<char>>) -> Option<JsonView>
    decreases parts.len(),
{
    if parts.len() == 0 {
        Some(value)
    } else {
        match named(value, unescaped(unescaped(parts[0], '1', '/'), '0', '~')) {
            Some(v) => found_down(v, parts.drop_first()),
            None => None,
        }
    }
}

/// What an RFC 6901 pointer finds in a value: the value itself where it is empty, and
/// nothing where it does not begin with a slash.
pub open spec fn json_pointed(value: JsonView, pointer: Seq<char>) -> Option<JsonView> {
    if pointer.len() == 0 {
        Some(value)
    } else if pointer[0] != '/' {
        None
    } else {
        found_down(value, text::pieces(pointer, '/').drop_first())
    }
}

/// Moves a `serde_json::Value` into a [`Json`], variant by variant; `as_u64` and
/// `as_i64` tell a number that is not negative, a negative one and one with a fraction
/// apart. What the result is, is what [`value_view`] calls the contents of the value.
#[verifier::external_body]
fn from_value(value: serde_json::Value) -> (r: Json)
    ensures
        r@ == value_view(value),
{
    match value {
        serde_json::Value::Null => Json::Null,
        serde_json::Value::Bool(b) => Json::Bool(b),
        serde_json::Value::Number(n) => match (n.as_u64(), n.as_i64()) {
            (Some(u), _) => Json::UInt(u),
            (None, Some(i)) => Json::Int(i),
            (None, None) => Json::Float(JsonFloat { number: n }),
        },
        serde_json::Value::String(s) => Json::Str(s),
        serde_json::Value::Array(a) => Json::Array(a.into_iter().map(from_value).collect()),
        serde_json::Value::Object(m) => Json::Object(
            JsonObject { entries: m.into_iter().map(|e| (e.0, from_value(e.1))).collect() },
        ),
    }
}

/// Builds the `serde_json::Value` with the contents of a [`Json`], variant by
/// variant; a later entry of an object replaces an earlier one of the same name.
#[verifier::external_body]
fn to_value(json: &Json) -> (r: serde_json::Value)
    ensures
        value_view(r) == json@,
{
    match json {
        Json::Null => serde_json::Value::Null,
        Json::Bool(b) => serde_json::Value::Bool(*b),
        Json::UInt(n) => serde_json::Value::from(*n),
        Json::Int(n) => serde_json::Value::from(*n),
        Json::Float(f) => serde_json::Value::Number(f.number.clone()),
        Json::Str(s) => serde_json::Value::String(s.clone()),
        Json::Array(a) => serde_json::Value::Array(a.iter().map(to_value).collect()),
        Json::Object(o) => serde_json::Value::Object(
            o.entries.iter().map(|e| (e.0.clone(), to_value(&e.1))).collect(),
        ),
    }
}

/// `serde_json::from_str` into a `serde_json::Value`: what it reads, or an error,
/// depends on the text alone.
#[verifier::external_body]
fn value_from_str(text: &str) -> (r: Result<serde_json::Value, serde_json::Error>)
    ensures
        match r {
            Ok(v) => json_read(text@) == Some(value_view(v)),
            Err(_) => json_read(text@) is None,
        },
{
    serde_json::from_str(text)
}

/// `serde_json::Value::to_string`: the text depends on the contents alone.
#[verifier::external_body]
fn value_to_string(value: &serde_json::Value) -> (r: String)
    ensures
        r@ == json_printed(value_view(*value)),
{
    value.to_string()
}

/// `serde_json::Value::pointer`: a clone of what the pointer finds in the contents of
/// the value, part by part from the front; nothing where a part names nothing.
#[verifier::external_body]
fn value_pointer(value: &serde_json::Value, pointer: &str) -> (r: Option<Json>)
    ensures
        match r {
            Some(j) => json_pointed(value_view(*value), pointer@) == Some(j@),
            None => json_pointed(value_view(*value), pointer@) is None,
        },
{
    value.pointer(pointer).cloned().map(from_value)
}

/// Reads a text as JSON.
pub fn parse(text: &str) -> (r: Option<Json>)
    ensures
        match r {
            Some(j) => json_read(text@) == Some(j@),
            None => json_read(text@) is None,
        },
{
    match value_from_str(text) {
        Ok(v) => Some(from_value(v)),
        Err(_) => None,
    }
}

/// Prints a value as JSON.
pub fn print(json: &Json) -> (r: String)
    ensures
        r@ == json_printed(json@),
{
    value_to_string(&to_value(json))
}

/// What stands in `json` at an RFC 6901 pointer.
pub fn pointer(json: &Json, path: &str) -> (r: Option<Json>)
    ensures
        match r {
            Some(j) => json_pointed(json@, path@) == Some(j@),
            None => json_pointed(json@, path@) is None,
        },
{
    value_pointer(&to_value(json), path)
}

/// A name that stands in a pointer as it is.
pub open spec fn plain(name: Seq<char>) -> bool {
    !name.contains('/') && !name.contains('~')
}

proof fn lemma_plain(name: Seq<char>, code: char, c: char)
    requires
        !name.contains('~'),
    ensures
        unescaped(name, code, c) == name,
    decreases name.len(),
{
    if name.len() >= 2 {
        assert(name[0] != '~') by {
            assert(name.contains(name[0]));
        }
        assert(!name.skip(1).contains('~')) by {
            if name.skip(1).contains('~') {
                let k = choose|k: int| 0 <= k < name.skip(1).len() && name.skip(1)[k] == '~';
                assert(name[k + 1] == '~');
            }
        }
        lemma_plain(name.skip(1), code, c);
        assert(seq![name[0]] + name.skip(1) =~= name);
    }
}

/// A pointer that is a slash and a plain name finds the member of that name.
pub proof fn a_pointer_finds_a_member(members: Map<Seq<char>, JsonView>, name: Seq<char>)
    requires
        plain(name),
    ensures
        json_pointed(JsonView::Object(members), seq!['/'] + name) == if members.contains_key(
            name,
        ) {
            Some(members[name])
        } else {
            None
        },
{
    let parts = seq![name];
    lemma_last_name(name);
    assert(parts.drop_first() =~= Seq::<Seq<char>>::empty());
    lemma_plain(name, '1', '/');
    lemma_plain(name, '0', '~');
    assert((seq!['/'] + name).skip(1) =~= name);
    text::lemma_first_of_at(seq!['/'] + name, '/', 0);
    assert(text::pieces(seq!['/'] + name, '/').drop_first() =~= parts);
    reveal_with_fuel(found_down, 2);
}

proof fn lemma_last_name(name: Seq<char>)
    requires
        !name.contains('/'),
    ensures
        text::pieces(name, '/') == seq![name],
{
    text::lemma_first_of(name, '/');
    let n = text::first_of(name, '/');
    if n < name.len() {
        assert(name.contains(name[n]));
    }
}

/// A pointer goes down name by name: what it finds behind a plain name is what the rest
/// finds in the member of that name.
pub proof fn a_pointer_goes_on_behind_a_member(
    value: JsonView,
    name: Seq<char>,
    rest: Seq<char>,
)
    requires
        plain(name),
    ensures
        json_pointed(value, seq!['/'] + name + seq!['/'] + rest) == match named(value, name) {
            Some(v) => json_pointed(v, seq!['/'] + rest),
            None => None,
        },
{
    let whole = seq!['/'] + name + seq!['/'] + rest;
    let inner = name + seq!['/'] + rest;
    let short = seq!['/'] + rest;
    text::lemma_first_of_at(whole, '/', 0);
    assert(whole.skip(1) =~= inner);
    assert(text::pieces(whole, '/').drop_first() =~= text::pieces(inner, '/'));
    assert forall|j: int| 0 <= j < name.len() implies inner[j] != '/' by {
        assert(inner[j] == name[j]);
        assert(name.contains(name[j]));
    }
    text::lemma_first_of_at(inner, '/', name.len() as int);
    assert(inner.take(name.len() as int) =~= name);
    assert(inner.skip((name.len() + 1) as int) =~= rest);
    let parts = text::pieces(inner, '/');
    assert(parts[0] == name);
    assert(parts.drop_first() =~= text::pieces(rest, '/'));
    text::lemma_first_of_at(short, '/', 0);
    assert(short.skip(1) =~= rest);
    assert(text::pieces(short, '/').drop_first() =~= text::pieces(rest, '/'));
    lemma_plain(name, '1', '/');
    lemma_plain(name, '0', '~');
}

} // verus!
