//! JSON values as the flow logic reads them.
use crate::copy::Duplicate;
use crate::text::{
    lemma_text_le_same, lemma_text_le_step, lemma_text_le_total, same_text, signed_decimal,
    text_at_most, text_le,
};
use vstd::prelude::*;

verus! {

broadcast use vstd::std_specs::vec::group_vec_axioms;

/// A JSON value. A number is held as the literal that denotes it; an object's
/// entries stand in key order, each key once.
#[derive(Debug, PartialEq)]
pub enum JsonValue {
    Null,
    Bool(bool),
    Number(String),
    Text(String),
    Array(Vec<JsonValue>),
    Object(Vec<(String, JsonValue)>),
}

/// What a [`JsonValue`] denotes.
#[verifier::ext_equal]
pub enum Json {
    Null,
    Bool(bool),
    Number(Seq<char>),
    Text(Seq<char>),
    Array(Seq<Json>),
    Object(Seq<(Seq<char>, Json)>),
}

/// The denotation of `v`.
pub open spec fn value_view(v: JsonValue) -> Json
    decreases v,
{
    match v {
        JsonValue::Null => Json::Null,
        JsonValue::Bool(b) => Json::Bool(b),
        JsonValue::Number(n) => Json::Number(n@),
        JsonValue::Text(s) => Json::Text(s@),
        JsonValue::Array(items) => Json::Array(
            Seq::new(
                items@.len(),
                |i: int|
                    if 0 <= i < items@.len() {
                        value_view(items@[i])
                    } else {
                        Json::Null
                    },
            ),
        ),
        JsonValue::Object(entries) => Json::Object(
            Seq::new(
                entries@.len(),
                |i: int|
                    if 0 <= i < entries@.len() {
                        (entries@[i].0@, value_view(entries@[i].1))
                    } else {
                        (Seq::<char>::empty(), Json::Null)
                    },
            ),
        ),
    }
}

impl View for JsonValue {
    type V = Json;

    open spec fn view(&self) -> Json {
        value_view(*self)
    }
}

impl DeepView for JsonValue {
    type V = Json;

    open spec fn deep_view(&self) -> Json {
        value_view(*self)
    }
}

impl Duplicate for JsonValue {
    fn duplicate(&self) -> (r: Self)
        decreases self,
    {
        match self {
            JsonValue::Null => JsonValue::Null,
            JsonValue::Bool(b) => JsonValue::Bool(*b),
            JsonValue::Number(n) => JsonValue::Number(n.clone()),
            JsonValue::Text(s) => JsonValue::Text(s.clone()),
            JsonValue::Array(items) => {
                let mut out: Vec<JsonValue> = Vec::new();
                let mut i: usize = 0;
                while i < items.len()
                    invariant
                        i == out@.len(),
                        i <= items@.len(),
                        self is Array && self->Array_0 == *items,
                        forall|j: int| 0 <= j < i ==> (#[trigger] out@[j])@ == items@[j]@,
                    decreases items@.len() - i,
                {
                    proof {
                        assert(decreases_to!(*self => self->Array_0));
                        assert(decreases_to!(*items => items@[i as int]));
                    }
                    let item = items[i].duplicate();
                    out.push(item);
                    i = i + 1;
                }
                let r = JsonValue::Array(out);
                proof {
                    assert(r@->Array_0 =~= self@->Array_0);
                }
                r
            },
            JsonValue::Object(entries) => {
                let mut out: Vec<(String, JsonValue)> = Vec::new();
                let mut i: usize = 0;
                while i < entries.len()
                    invariant
                        i == out@.len(),
                        i <= entries@.len(),
                        self is Object && self->Object_0 == *entries,
                        forall|j: int|
                            0 <= j < i ==> (#[trigger] out@[j]).0@ == entries@[j].0@ && out@[j].1@
                                == entries@[j].1@,
                    decreases entries@.len() - i,
                {
                    let key = entries[i].0.clone();
                    proof {
                        assert(decreases_to!(*self => self->Object_0));
                        assert(decreases_to!(*entries => entries@[i as int]));
                    }
                    let item = entries[i].1.duplicate();
                    out.push((key, item));
                    i = i + 1;
                }
                let r = JsonValue::Object(out);
                proof {
                    assert(r@->Object_0 =~= self@->Object_0);
                }
                r
            },
        }
    }
}

impl Clone for JsonValue {
    fn clone(&self) -> (r: Self)
        ensures
            r@ == self@,
    {
        self.duplicate()
    }
}

impl Default for JsonValue {
    fn default() -> (r: Self)
        ensures
            r@ == Json::Null,
    {
        JsonValue::Null
    }
}

/// An array's view holds the views of its items.
pub proof fn lemma_array_view(items: Vec<JsonValue>)
    ensures
        JsonValue::Array(items)@ == Json::Array(items.deep_view()),
{
    assert(JsonValue::Array(items)@->Array_0 =~= items.deep_view());
}

/// An object's view holds the views of its entries.
pub proof fn lemma_object_view(entries: Vec<(String, JsonValue)>)
    ensures
        JsonValue::Object(entries)@ == Json::Object(entries.deep_view()),
{
    assert(JsonValue::Object(entries)@->Object_0 =~= entries.deep_view());
}

/// The value stored under `key` among an object's entries.
pub open spec fn entry_value(entries: Seq<(Seq<char>, Json)>, key: Seq<char>) -> Option<Json>
    decreases entries.len(),
{
    if entries.len() == 0 {
        None
    } else if entries[0].0 == key {
        Some(entries[0].1)
    } else {
        entry_value(entries.drop_first(), key)
    }
}

/// The member `key` of `v`: `None` where `v` is no object or has no such key.
pub open spec fn json_member(v: Json, key: Seq<char>) -> Option<Json> {
    match v {
        Json::Object(entries) => entry_value(entries, key),
        _ => None,
    }
}

/// An object's entries with `key` set to `value`: in place where the key is
/// there, else before the first greater key.
pub open spec fn with_entry(
    entries: Seq<(Seq<char>, Json)>,
    key: Seq<char>,
    value: Json,
) -> Seq<(Seq<char>, Json)>
    decreases entries.len(),
{
    if entries.len() == 0 {
        seq![(key, value)]
    } else if entries[0].0 == key {
        seq![(key, value)] + entries.drop_first()
    } else if text_le(key, entries[0].0) {
        seq![(key, value)] + entries
    } else {
        seq![entries[0]] + with_entry(entries.drop_first(), key, value)
    }
}

/// The hexadecimal digit for `d`.
pub open spec fn hex_digit(d: u32) -> char {
    if d < 10 {
        ('0' as u32 + d) as char
    } else {
        ('a' as u32 + (d - 10)) as char
    }
}

/// How `c` is written inside a JSON string.
pub open spec fn escaped(c: char) -> Seq<char> {
    if c == '"' {
        seq!['\\', '"']
    } else if c == '\\' {
        seq!['\\', '\\']
    } else if c == '\u{8}' {
        seq!['\\', 'b']
    } else if c == '\u{9}' {
        seq!['\\', 't']
    } else if c == '\u{a}' {
        seq!['\\', 'n']
    } else if c == '\u{c}' {
        seq!['\\', 'f']
    } else if c == '\u{d}' {
        seq!['\\', 'r']
    } else if c <= '\u{1f}' {
        seq!['\\', 'u', '0', '0', hex_digit((c as u32 / 16) as u32), hex_digit(c as u32 % 16)]
    } else {
        seq![c]
    }
}

/// The characters of `s`, each escaped.
pub open spec fn escaped_all(s: Seq<char>) -> Seq<char>
    decreases s.len(),
{
    if s.len() == 0 {
        Seq::empty()
    } else {
        escaped_all(s.drop_last()) + escaped(s.last())
    }
}

/// `s` as a JSON string literal.
pub open spec fn quoted(s: Seq<char>) -> Seq<char> {
    seq!['"'] + escaped_all(s) + seq!['"']
}

/// `serde_json::Value`'s `Display`, on a string: a JSON string literal in
/// which quotes, backslashes and control characters are escaped, the control
/// characters without a short form as `\u00xx`.
#[verifier::external_body]
fn quote(s: &str) -> (r: String)
    ensures
        r@ == quoted(s@),
{
    serde_json::Value::String(s.to_owned()).to_string()
}

/// Compact JSON text.
pub open spec fn json_text(v: Json) -> Seq<char>
    decreases v,
{
    match v {
        Json::Null => "null"@,
        Json::Bool(b) => if b {
            "true"@
        } else {
            "false"@
        },
        Json::Number(n) => n,
        Json::Text(s) => quoted(s),
        Json::Array(items) => "["@ + items_text(items) + "]"@,
        Json::Object(entries) => "{"@ + entries_text(entries) + "}"@,
    }
}

/// The texts of an array's items, separated by commas.
pub open spec fn items_text(items: Seq<Json>) -> Seq<char>
    decreases items,
{
    if items.len() == 0 {
        Seq::empty()
    } else if items.len() == 1 {
        json_text(items[0])
    } else {
        items_text(items.drop_last()) + ","@ + json_text(items.last())
    }
}

/// The texts of an object's entries, separated by commas.
pub open spec fn entries_text(entries: Seq<(Seq<char>, Json)>) -> Seq<char>
    decreases entries,
{
    if entries.len() == 0 {
        Seq::empty()
    } else if entries.len() == 1 {
        quoted(entries[0].0) + ":"@ + json_text(entries[0].1)
    } else {
        entries_text(entries.drop_last()) + ","@ + (quoted(entries.last().0) + ":"@ + json_text(
            entries.last().1,
        ))
    }
}

impl JsonValue {
    /// Whether this is `null`.
    pub fn is_null(&self) -> (r: bool)
        ensures
            r == (self@ == Json::Null),
    {
        match self {
            JsonValue::Null => true,
            _ => false,
        }
    }

    /// The member `key` of an object.
    pub fn get(&self, key: &str) -> (r: Option<&JsonValue>)
        ensures
            match r {
                Some(v) => json_member(self@, key@) == Some(v@),
                None => json_member(self@, key@) is None,
            },
    {
        match self {
            JsonValue::Object(entries) => {
                proof {
                    lemma_object_view(*entries);
                }
                find_entry(entries, key)
            },
            _ => None,
        }
    }

    /// This value as compact JSON text.
    pub fn to_text(&self) -> (r: String)
        ensures
            r@ == json_text(self@),
        decreases self,
    {
        match self {
            JsonValue::Null => "null".to_owned(),
            JsonValue::Bool(b) => if *b {
                "true".to_owned()
            } else {
                "false".to_owned()
            },
            JsonValue::Number(n) => n.clone(),
            JsonValue::Text(s) => quote(s.as_str()),
            JsonValue::Array(items) => {
                let mut out = "[".to_owned();
                let mut i: usize = 0;
                let ghost all = items.deep_view();
                proof {
                    lemma_array_view(*items);
                    assert(out@ =~= "["@ + items_text(all.take(0)));
                }
                while i < items.len()
                    invariant
                        i <= items@.len(),
                        self is Array && self->Array_0 == *items,
                        all == items.deep_view(),
                        out@ == "["@ + items_text(all.take(i as int)),
                    decreases items@.len() - i,
                {
                    proof {
                        assert(decreases_to!(*self => self->Array_0));
                        assert(decreases_to!(*items => items@[i as int]));
                        let grown = all.take(i + 1);
                        assert(grown.drop_last() =~= all.take(i as int));
                        assert(grown.last() == items@[i as int]@);
                        if i > 0 {
                            assert("["@ + items_text(grown) =~= out@ + ","@ + json_text(
                                grown.last(),
                            ));
                        } else {
                            assert("["@ + items_text(grown) =~= out@ + json_text(grown.last()));
                        }
                    }
                    let item = items[i].to_text();
                    if i > 0 {
                        out.append(",");
                    }
                    out.append(item.as_str());
                    i = i + 1;
                }
                proof {
                    assert(all.take(i as int) =~= all);
                }
                out.append("]");
                out
            },
            JsonValue::Object(entries) => {
                let mut out = "{".to_owned();
                let mut i: usize = 0;
                let ghost all = entries.deep_view();
                proof {
                    lemma_object_view(*entries);
                    assert(out@ =~= "{"@ + entries_text(all.take(0)));
                }
                while i < entries.len()
                    invariant
                        i <= entries@.len(),
                        self is Object && self->Object_0 == *entries,
                        all == entries.deep_view(),
                        out@ == "{"@ + entries_text(all.take(i as int)),
                    decreases entries@.len() - i,
                {
                    proof {
                        assert(decreases_to!(*self => self->Object_0));
                        assert(decreases_to!(*entries => entries@[i as int]));
                        let grown = all.take(i + 1);
                        assert(grown.drop_last() =~= all.take(i as int));
                        assert(grown.last() == (entries@[i as int].0@, entries@[i as int].1@));
                        if i > 0 {
                            assert("{"@ + entries_text(grown) =~= out@ + ","@ + quoted(
                                grown.last().0,
                            ) + ":"@ + json_text(grown.last().1));
                        } else {
                            assert("{"@ + entries_text(grown) =~= out@ + quoted(grown.last().0)
                                + ":"@ + json_text(grown.last().1));
                        }
                    }
                    let key = quote(entries[i].0.as_str());
                    let item = entries[i].1.to_text();
                    if i > 0 {
                        out.append(",");
                    }
                    out.append(key.as_str());
                    out.append(":");
                    out.append(item.as_str());
                    i = i + 1;
                }
                proof {
                    assert(all.take(i as int) =~= all);
                }
                out.append("}");
                out
            },
        }
    }
}

/// The value stored under `key`.
pub fn find_entry<'a>(entries: &'a Vec<(String, JsonValue)>, key: &str) -> (r: Option<&'a JsonValue>)
    ensures
        match r {
            Some(v) => entry_value(entries.deep_view(), key@) == Some(v@),
            None => entry_value(entries.deep_view(), key@) is None,
        },
{
    let mut i: usize = 0;
    let ghost all = entries.deep_view();
    proof {
        assert(all.skip(0) =~= all);
    }
    while i < entries.len()
        invariant
            i <= entries@.len(),
            all == entries.deep_view(),
            entry_value(all, key@) == entry_value(all.skip(i as int), key@),
        decreases entries@.len() - i,
    {
        proof {
            assert(all.skip(i as int).drop_first() =~= all.skip(i + 1));
        }
        if same_text(entries[i].0.as_str(), key) {
            return Some(&entries[i].1);
        }
        i = i + 1;
    }
    None
}

/// Sets `key` to `value` among an object's entries.
pub fn set_entry(entries: &mut Vec<(String, JsonValue)>, key: String, value: JsonValue)
    ensures
        final(entries).deep_view() == with_entry(old(entries).deep_view(), key@, value@),
{
    let ghost all = entries.deep_view();
    let ghost start = *entries;
    let mut i: usize = 0;
    proof {
        assert(all.skip(0) =~= all);
        assert(all.take(0) + with_entry(all.skip(0), key@, value@) =~= with_entry(
            all,
            key@,
            value@,
        ));
    }
    while i < entries.len()
        invariant
            i <= entries@.len(),
            *entries == start,
            start == *old(entries),
            all == start.deep_view(),
            with_entry(all, key@, value@) == all.take(i as int) + with_entry(
                all.skip(i as int),
                key@,
                value@,
            ),
        decreases entries@.len() - i,
    {
        proof {
            assert(all.skip(i as int).drop_first() =~= all.skip(i + 1));
        }
        if same_text(entries[i].0.as_str(), key.as_str()) {
            let ghost put = (key, value);
            entries.set(i, (key, value));
            proof {
                assert(entries.deep_view() =~= all.take(i as int) + (seq![(put.0@, put.1@)]
                    + all.skip(i + 1)));
            }
            return;
        }
        if text_at_most(key.as_str(), entries[i].0.as_str()) {
            let ghost put = (key, value);
            entries.insert(i, (key, value));
            proof {
                assert(entries.deep_view() =~= all.take(i as int) + (seq![(put.0@, put.1@)]
                    + all.skip(i as int)));
            }
            return;
        }
        proof {
            assert(all.take(i as int) + (seq![all[i as int]] + with_entry(
                all.skip(i + 1),
                key@,
                value@,
            )) =~= all.take(i + 1) + with_entry(all.skip(i + 1), key@, value@));
        }
        i = i + 1;
    }
    let ghost put = (key, value);
    entries.push((key, value));
    proof {
        assert(entries.deep_view() =~= all.take(i as int) + seq![(put.0@, put.1@)]);
    }
}

/// `serde_json::Value`: a parsed JSON text.
#[verifier::external_type_specification]
#[verifier::external_body]
pub struct ExSerdeValue(serde_json::Value);

/// What a parsed JSON text holds: a number as the literal that `serde_json`
/// writes for it, an object's entries in key order.
pub uninterp spec fn held_json(v: serde_json::Value) -> Json;

/// What a JSON text denotes, or what is wrong with it.
pub uninterp spec fn parsed_json(text: Seq<char>) -> Result<Json, Seq<char>>;

/// How deep arrays and objects are nested in `v`.
pub open spec fn json_depth(v: Json) -> nat
    decreases v,
{
    match v {
        Json::Array(items) => 1 + items_depth(items),
        Json::Object(entries) => 1 + entries_depth(entries),
        _ => 0,
    }
}

/// How deep the deepest of `items` is nested.
pub open spec fn items_depth(items: Seq<Json>) -> nat
    decreases items,
{
    if items.len() == 0 {
        0
    } else {
        let before = items_depth(items.drop_last());
        let last = json_depth(items.last());
        if last > before {
            last
        } else {
            before
        }
    }
}

/// How deep the deepest value of `entries` is nested.
pub open spec fn entries_depth(entries: Seq<(Seq<char>, Json)>) -> nat
    decreases entries,
{
    if entries.len() == 0 {
        0
    } else {
        let before = entries_depth(entries.drop_last());
        let last = json_depth(entries.last().1);
        if last > before {
            last
        } else {
            before
        }
    }
}

/// Whether `n` is a whole number of 64 bits in decimal.
pub open spec fn is_whole_number(n: Seq<char>) -> bool {
    exists|k: int| i64::MIN <= k <= u64::MAX && n == #[trigger] signed_decimal(k)
}

/// Whether every number in `v` is a whole one of 64 bits.
pub open spec fn is_plain(v: Json) -> bool
    decreases v,
{
    match v {
        Json::Number(n) => is_whole_number(n),
        Json::Array(items) => are_plain(items),
        Json::Object(entries) => are_plain_entries(entries),
        _ => true,
    }
}

/// Whether every item is plain.
pub open spec fn are_plain(items: Seq<Json>) -> bool
    decreases items,
{
    items.len() == 0 || (are_plain(items.drop_last()) && is_plain(items.last()))
}

/// Whether every value is plain.
pub open spec fn are_plain_entries(entries: Seq<(Seq<char>, Json)>) -> bool
    decreases entries,
{
    entries.len() == 0 || (are_plain_entries(entries.drop_last()) && is_plain(entries.last().1))
}

/// Whether `key` is one of the two names that serde_json keeps for itself: an
/// object with such a key stands there for the text of another value.
pub open spec fn is_reserved_key(key: Seq<char>) -> bool {
    key == "$serde_json::private::RawValue"@ || key == "$serde_json::private::Number"@
}

/// Whether no object in `v` has a reserved key.
pub open spec fn has_no_reserved_key(v: Json) -> bool
    decreases v,
{
    match v {
        Json::Array(items) => have_no_reserved_key(items),
        Json::Object(entries) => entries_have_no_reserved_key(entries),
        _ => true,
    }
}

/// Whether no object in `items` has a reserved key.
pub open spec fn have_no_reserved_key(items: Seq<Json>) -> bool
    decreases items,
{
    items.len() == 0 || (have_no_reserved_key(items.drop_last()) && has_no_reserved_key(
        items.last(),
    ))
}

/// Whether no key of `entries` is reserved, and none in their values.
pub open spec fn entries_have_no_reserved_key(entries: Seq<(Seq<char>, Json)>) -> bool
    decreases entries,
{
    entries.len() == 0 || (entries_have_no_reserved_key(entries.drop_last()) && !is_reserved_key(
        entries.last().0,
    ) && has_no_reserved_key(entries.last().1))
}

/// Whether `v` is read back from its compact text: it is plain, no object in
/// it has a reserved key, and it is nested at most 100 deep.
pub open spec fn is_readable(v: Json) -> bool {
    is_plain(v) && has_no_reserved_key(v) && json_depth(v) <= 100
}

/// `v` with the entries of every object in the order of their keys. Of two
/// entries with the same key the later one counts.
pub open spec fn in_key_order(v: Json) -> Json
    decreases v,
{
    match v {
        Json::Array(items) => Json::Array(items_in_key_order(items)),
        Json::Object(entries) => Json::Object(entries_in_key_order(entries)),
        other => other,
    }
}

/// Items with the entries of every object in order.
pub open spec fn items_in_key_order(items: Seq<Json>) -> Seq<Json>
    decreases items,
{
    if items.len() == 0 {
        Seq::empty()
    } else {
        items_in_key_order(items.drop_last()).push(in_key_order(items.last()))
    }
}

/// Entries in the order of their keys.
pub open spec fn entries_in_key_order(entries: Seq<(Seq<char>, Json)>) -> Seq<(Seq<char>, Json)>
    decreases entries,
{
    if entries.len() == 0 {
        Seq::empty()
    } else {
        with_entry(
            entries_in_key_order(entries.drop_last()),
            entries.last().0,
            in_key_order(entries.last().1),
        )
    }
}

/// What a result of parsing denotes.
pub open spec fn parse_outcome(r: Result<serde_json::Value, String>) -> Result<Json, Seq<char>> {
    match r {
        Ok(v) => Ok(held_json(v)),
        Err(e) => Err(e@),
    }
}

/// Whether `read` is what has to be read from `text`, as far as `text` is the
/// compact text of a readable value: that value, with the entries of its
/// objects in key order.
pub open spec fn reads_back(text: Seq<char>, read: Result<Json, Seq<char>>) -> bool {
    forall|v: Json|
        is_readable(v) && text == #[trigger] json_text(v) ==> read == Ok::<Json, Seq<char>>(
            in_key_order(v),
        )
}

/// `serde_json::from_str` into a `serde_json::Value`: the value that the text
/// denotes, or a message. A value of whole numbers that is not nested too deep
/// is read back from its compact text; its objects are sorted maps, into which
/// entries go one after the other. An object whose first key is one of
/// serde_json's own two names is read as the value whose text it holds, so the
/// contract says of values with such a key only that the text decides.
#[verifier::external_body]
fn parse_text(text: &str) -> (r: Result<serde_json::Value, String>)
    ensures
        parse_outcome(r) == parsed_json(text@),
        reads_back(text@, parse_outcome(r)),
{
    serde_json::from_str(text).map_err(|e| e.to_string())
}

/// The variants of `serde_json::Value`, one for one: a number becomes the
/// literal that its `Display` writes, an object its entries in the order of
/// its map.
#[verifier::external_body]
fn take_value(v: serde_json::Value) -> (r: JsonValue)
    ensures
        r@ == held_json(v),
{
    match v {
        serde_json::Value::Null => JsonValue::Null,
        serde_json::Value::Bool(b) => JsonValue::Bool(b),
        serde_json::Value::Number(n) => JsonValue::Number(n.to_string()),
        serde_json::Value::String(s) => JsonValue::Text(s),
        serde_json::Value::Array(a) => JsonValue::Array(a.into_iter().map(take_value).collect()),
        serde_json::Value::Object(m) => JsonValue::Object(
            m.into_iter().map(|(k, x)| (k, take_value(x))).collect(),
        ),
    }
}

/// Reads a JSON text. A readable value is read back from its compact text.
pub fn parse_json(text: &str) -> (r: Result<JsonValue, String>)
    ensures
        (match r {
            Ok(v) => Ok(v@),
            Err(e) => Err(e@),
        }) == parsed_json(text@),
        reads_back(text@, parsed_json(text@)),
{
    match parse_text(text) {
        Ok(v) => Ok(take_value(v)),
        Err(e) => Err(e),
    }
}

/// Whether the keys of entries ascend.
pub open spec fn keys_ascend(entries: Seq<(Seq<char>, Json)>) -> bool {
    forall|i: int, j: int|
        0 <= i < j < entries.len() ==> (#[trigger] entries[i]).0 != (#[trigger] entries[j]).0
            && text_le(entries[i].0, entries[j].0)
}

/// Whether the keys of every object in `v` ascend.
pub open spec fn is_ordered(v: Json) -> bool
    decreases v,
{
    match v {
        Json::Array(items) => are_ordered(items),
        Json::Object(entries) => keys_ascend(entries) && are_ordered_entries(entries),
        _ => true,
    }
}

/// Whether every item is ordered.
pub open spec fn are_ordered(items: Seq<Json>) -> bool
    decreases items,
{
    items.len() == 0 || (are_ordered(items.drop_last()) && is_ordered(items.last()))
}

/// Whether every value is ordered.
pub open spec fn are_ordered_entries(entries: Seq<(Seq<char>, Json)>) -> bool
    decreases entries,
{
    entries.len() == 0 || (are_ordered_entries(entries.drop_last()) && is_ordered(
        entries.last().1,
    ))
}

/// A member that was set is read, and the others stay.
pub proof fn set_member_is_read(
    entries: Seq<(Seq<char>, Json)>,
    key: Seq<char>,
    value: Json,
    other: Seq<char>,
)
    ensures
        entry_value(with_entry(entries, key, value), other) == (if other == key {
            Some(value)
        } else {
            entry_value(entries, other)
        }),
    decreases entries.len(),
{
    let after = with_entry(entries, key, value);
    assert(after.len() > 0);
    assert(entry_value(after, other) == (if after[0].0 == other {
        Some(after[0].1)
    } else {
        entry_value(after.drop_first(), other)
    }));
    if entries.len() == 0 {
        assert(after[0] == (key, value));
        assert(after.drop_first() =~= entries);
    } else {
        let rest = entries.drop_first();
        assert(entry_value(entries, other) == (if entries[0].0 == other {
            Some(entries[0].1)
        } else {
            entry_value(rest, other)
        }));
        if entries[0].0 == key {
            assert(after[0] == (key, value));
            assert(after.drop_first() =~= rest);
        } else if text_le(key, entries[0].0) {
            assert(after[0] == (key, value));
            assert(after.drop_first() =~= entries);
        } else {
            set_member_is_read(rest, key, value, other);
            assert(after[0] == entries[0]);
            assert(after.drop_first() =~= with_entry(rest, key, value));
        }
    }
}

/// Every key after a member was set is that member's or was there before.
proof fn lemma_keys_after(
    entries: Seq<(Seq<char>, Json)>,
    key: Seq<char>,
    value: Json,
    i: int,
)
    requires
        0 <= i < with_entry(entries, key, value).len(),
    ensures
        with_entry(entries, key, value)[i].0 == key || exists|j: int|
            0 <= j < entries.len() && (#[trigger] entries[j]).0 == with_entry(
                entries,
                key,
                value,
            )[i].0,
    decreases entries.len(),
{
    let after = with_entry(entries, key, value);
    if entries.len() == 0 || i == 0 {
        if entries.len() > 0 {
            assert(after[0].0 == key || after[0] == entries[0]);
        }
    } else if entries[0].0 == key {
        assert(after[i] == entries[i]);
    } else if text_le(key, entries[0].0) {
        assert(after[i] == entries[i - 1]);
    } else {
        let rest = entries.drop_first();
        assert(after[i] == with_entry(rest, key, value)[i - 1]);
        lemma_keys_after(rest, key, value, i - 1);
        if after[i].0 != key {
            let j = choose|j: int| 0 <= j < rest.len() && (#[trigger] rest[j]).0 == after[i].0;
            assert(entries[j + 1] == rest[j]);
        }
    }
}

/// Setting a member keeps the keys ascending.
pub proof fn set_member_keeps_order(
    entries: Seq<(Seq<char>, Json)>,
    key: Seq<char>,
    value: Json,
)
    requires
        keys_ascend(entries),
    ensures
        keys_ascend(with_entry(entries, key, value)),
    decreases entries.len(),
{
    let after = with_entry(entries, key, value);
    if entries.len() == 0 {
    } else if entries[0].0 == key {
        assert forall|i: int, j: int| 0 <= i < j < after.len() implies (#[trigger] after[i]).0 != (
        #[trigger] after[j]).0 && text_le(after[i].0, after[j].0) by {
            assert(after[i].0 == entries[i].0 && after[j].0 == entries[j].0);
        }
    } else if text_le(key, entries[0].0) {
        assert forall|i: int, j: int| 0 <= i < j < after.len() implies (#[trigger] after[i]).0 != (
        #[trigger] after[j]).0 && text_le(after[i].0, after[j].0) by {
            assert(after[j] == entries[j - 1]);
            if i == 0 {
                if j > 1 {
                    assert(text_le(entries[0].0, entries[j - 1].0));
                    lemma_text_le_step(key, entries[0].0, entries[j - 1].0);
                    if key == entries[j - 1].0 {
                        lemma_text_le_same(key, entries[0].0);
                    }
                }
            } else {
                assert(after[i] == entries[i - 1]);
            }
        }
    } else {
        let rest = entries.drop_first();
        assert forall|i: int, j: int| 0 <= i < j < rest.len() implies (#[trigger] rest[i]).0 != (
        #[trigger] rest[j]).0 && text_le(rest[i].0, rest[j].0) by {
            assert(rest[i] == entries[i + 1] && rest[j] == entries[j + 1]);
        }
        set_member_keeps_order(rest, key, value);
        let tail = with_entry(rest, key, value);
        assert forall|i: int, j: int| 0 <= i < j < after.len() implies (#[trigger] after[i]).0 != (
        #[trigger] after[j]).0 && text_le(after[i].0, after[j].0) by {
            assert(after[j] == tail[j - 1]);
            if i == 0 {
                lemma_keys_after(rest, key, value, j - 1);
                lemma_text_le_total(key, entries[0].0);
                if tail[j - 1].0 != key {
                    let k = choose|k: int|
                        0 <= k < rest.len() && (#[trigger] rest[k]).0 == tail[j - 1].0;
                    assert(rest[k] == entries[k + 1]);
                }
            } else {
                assert(after[i] == tail[i - 1]);
            }
        }
    }
}

proof fn lemma_set_last(entries: Seq<(Seq<char>, Json)>, key: Seq<char>, value: Json)
    requires
        forall|i: int|
            0 <= i < entries.len() ==> (#[trigger] entries[i]).0 != key && text_le(
                entries[i].0,
                key,
            ),
    ensures
        with_entry(entries, key, value) == entries.push((key, value)),
    decreases entries.len(),
{
    if entries.len() == 0 {
        assert(entries.push((key, value)) =~= seq![(key, value)]);
    } else {
        let rest = entries.drop_first();
        assert forall|i: int| 0 <= i < rest.len() implies (#[trigger] rest[i]).0 != key && text_le(
            rest[i].0,
            key,
        ) by {
            assert(rest[i] == entries[i + 1]);
        }
        lemma_set_last(rest, key, value);
        assert(entries[0].0 != key);
        if text_le(key, entries[0].0) {
            lemma_text_le_same(key, entries[0].0);
        }
        assert(seq![entries[0]] + rest.push((key, value)) =~= entries.push((key, value)));
    }
}

/// A value whose keys ascend is the same in key order.
pub proof fn ordered_value_stays(v: Json)
    requires
        is_ordered(v),
    ensures
        in_key_order(v) == v,
    decreases v,
{
    match v {
        Json::Array(items) => {
            ordered_items_stay(items);
        },
        Json::Object(entries) => {
            ordered_entries_stay(entries);
        },
        _ => {},
    }
}

/// Items whose keys ascend are the same in key order.
pub proof fn ordered_items_stay(items: Seq<Json>)
    requires
        are_ordered(items),
    ensures
        items_in_key_order(items) == items,
    decreases items,
{
    if items.len() > 0 {
        ordered_items_stay(items.drop_last());
        ordered_value_stays(items.last());
        assert(items.drop_last().push(items.last()) =~= items);
    } else {
        assert(items =~= Seq::<Json>::empty());
    }
}

/// Entries whose keys ascend are the same in key order.
pub proof fn ordered_entries_stay(entries: Seq<(Seq<char>, Json)>)
    requires
        keys_ascend(entries),
        are_ordered_entries(entries),
    ensures
        entries_in_key_order(entries) == entries,
    decreases entries,
{
    if entries.len() > 0 {
        let before = entries.drop_last();
        let last = entries.last();
        assert forall|i: int, j: int| 0 <= i < j < before.len() implies (#[trigger] before[i]).0
            != (#[trigger] before[j]).0 && text_le(before[i].0, before[j].0) by {
            assert(before[i] == entries[i] && before[j] == entries[j]);
        }
        ordered_entries_stay(before);
        ordered_value_stays(last.1);
        assert forall|i: int| 0 <= i < before.len() implies (#[trigger] before[i]).0 != last.0
            && text_le(before[i].0, last.0) by {
            assert(before[i] == entries[i]);
        }
        lemma_set_last(before, last.0, last.1);
        assert(before.push((last.0, last.1)) =~= entries);
    } else {
        assert(entries =~= Seq::<(Seq<char>, Json)>::empty());
    }
}

} // verus!
