//! What holds of every JSON value: laws of members and of texts.
use crate::json::{
    are_plain, are_plain_entries, entries_depth, entries_have_no_reserved_key, entries_in_key_order,
    entries_text, entry_value, have_no_reserved_key, in_key_order, is_readable, is_reserved_key,
    items_depth, items_in_key_order, items_text, json_depth, json_member, json_text, quoted,
    set_member_is_read, with_entry, Json,
};
use crate::text::{joined, signed_decimal};
use vstd::prelude::*;

verus! {

/// The member of an object is the value of the first entry with its name.
pub proof fn first_entry_is_the_member(entries: Seq<(Seq<char>, Json)>, i: int)
    requires
        0 <= i < entries.len(),
        forall|k: int| 0 <= k < i ==> (#[trigger] entries[k]).0 != entries[i].0,
    ensures
        json_member(Json::Object(entries), entries[i].0) == Some(entries[i].1),
    decreases i,
{
    if i > 0 {
        let rest = entries.drop_first();
        assert(entries[0].0 != entries[i].0);
        assert forall|k: int| 0 <= k < i - 1 implies (#[trigger] rest[k]).0 != rest[i - 1].0 by {
            assert(entries[k + 1].0 != entries[i].0);
        }
        first_entry_is_the_member(rest, i - 1);
    }
}

/// A value has a member exactly where it is an object with an entry of that
/// name.
pub proof fn members_are_entries(v: Json, key: Seq<char>)
    ensures
        json_member(v, key) is Some <==> (match v {
            Json::Object(entries) => exists|i: int|
                0 <= i < entries.len() && (#[trigger] entries[i]).0 == key,
            _ => false,
        }),
{
    if let Json::Object(entries) = v {
        lemma_entry_found(entries, key);
    }
}

proof fn lemma_entry_found(entries: Seq<(Seq<char>, Json)>, key: Seq<char>)
    ensures
        entry_value(entries, key) is Some <==> exists|i: int|
            0 <= i < entries.len() && (#[trigger] entries[i]).0 == key,
    decreases entries.len(),
{
    if entries.len() > 0 && entries[0].0 != key {
        let rest = entries.drop_first();
        lemma_entry_found(rest, key);
        if exists|i: int| 0 <= i < entries.len() && (#[trigger] entries[i]).0 == key {
            let i = choose|i: int| 0 <= i < entries.len() && (#[trigger] entries[i]).0 == key;
            assert(rest[i - 1].0 == key);
        }
        if exists|i: int| 0 <= i < rest.len() && (#[trigger] rest[i]).0 == key {
            let i = choose|i: int| 0 <= i < rest.len() && (#[trigger] rest[i]).0 == key;
            assert(entries[i + 1].0 == key);
        }
    }
}

/// The text of an array is the texts of its items, in order, with commas
/// between them and brackets around.
pub proof fn array_text_lists_the_items(items: Seq<Json>)
    ensures
        json_text(Json::Array(items)) == "["@ + joined(
            Seq::new(items.len(), |i: int| json_text(items[i])),
            ","@,
        ) + "]"@,
{
    lemma_items_text(items);
}

proof fn lemma_items_text(items: Seq<Json>)
    ensures
        items_text(items) == joined(Seq::new(items.len(), |i: int| json_text(items[i])), ","@),
    decreases items.len(),
{
    let texts = Seq::new(items.len(), |i: int| json_text(items[i]));
    if items.len() == 1 {
        assert(items_text(items) == json_text(items[0]));
        assert(joined(texts, ","@) == texts[0]);
    } else if items.len() > 1 {
        let rest = items.drop_last();
        lemma_items_text(rest);
        assert(texts.drop_last() =~= Seq::new(rest.len(), |i: int| json_text(rest[i])));
        assert(items_text(items) == items_text(rest) + ","@ + json_text(items.last()));
    }
}

/// The text of an object is its keys, quoted, each with a colon and the text of
/// its value, in order, with commas between them and braces around.
pub proof fn object_text_lists_the_entries(entries: Seq<(Seq<char>, Json)>)
    ensures
        json_text(Json::Object(entries)) == "{"@ + joined(
            Seq::new(
                entries.len(),
                |i: int| quoted(entries[i].0) + ":"@ + json_text(entries[i].1),
            ),
            ","@,
        ) + "}"@,
{
    lemma_entries_text(entries);
}

proof fn lemma_entries_text(entries: Seq<(Seq<char>, Json)>)
    ensures
        entries_text(entries) == joined(
            Seq::new(
                entries.len(),
                |i: int| quoted(entries[i].0) + ":"@ + json_text(entries[i].1),
            ),
            ","@,
        ),
    decreases entries.len(),
{
    let texts = Seq::new(
        entries.len(),
        |i: int| quoted(entries[i].0) + ":"@ + json_text(entries[i].1),
    );
    if entries.len() == 1 {
        assert(entries_text(entries) == texts[0]);
        assert(joined(texts, ","@) == texts[0]);
    } else if entries.len() > 1 {
        let rest = entries.drop_last();
        lemma_entries_text(rest);
        assert(texts.drop_last() =~= Seq::new(
            rest.len(),
            |i: int| quoted(rest[i].0) + ":"@ + json_text(rest[i].1),
        ));
        assert(entries_text(entries) == entries_text(rest) + ","@ + texts.last());
    }
}

/// Bringing an object into key order keeps its members, each in key order
/// itself; of entries with the same key the last one counts.
pub proof fn key_order_keeps_the_members(entries: Seq<(Seq<char>, Json)>, i: int, key: Seq<char>)
    ensures
        0 <= i < entries.len() && (forall|j: int|
            i < j < entries.len() ==> (#[trigger] entries[j]).0 != entries[i].0) ==> json_member(
            in_key_order(Json::Object(entries)),
            entries[i].0,
        ) == Some(in_key_order(entries[i].1)),
        (forall|j: int| 0 <= j < entries.len() ==> (#[trigger] entries[j]).0 != key)
            ==> json_member(in_key_order(Json::Object(entries)), key) is None,
    decreases entries.len(),
{
    if entries.len() > 0 {
        let rest = entries.drop_last();
        let last = entries.last();
        let before = entries_in_key_order(rest);
        let v = in_key_order(last.1);
        assert(entries_in_key_order(entries) == with_entry(before, last.0, v));
        key_order_keeps_the_members(rest, i, key);
        set_member_is_read(before, last.0, v, key);
        assert(entries[entries.len() - 1] == last);
        if forall|j: int| 0 <= j < entries.len() ==> (#[trigger] entries[j]).0 != key {
            assert forall|j: int| 0 <= j < rest.len() implies (#[trigger] rest[j]).0 != key by {
                assert(entries[j].0 != key);
            }
        }
        if 0 <= i < entries.len() && (forall|j: int|
            i < j < entries.len() ==> (#[trigger] entries[j]).0 != entries[i].0) {
            set_member_is_read(before, last.0, v, entries[i].0);
            if i < rest.len() {
                assert(entries[entries.len() - 1].0 != entries[i].0);
                assert forall|j: int| i < j < rest.len() implies (#[trigger] rest[j]).0
                    != rest[i].0 by {
                    assert(entries[j].0 != entries[i].0);
                }
            }
        }
    } else {
        assert(entries_in_key_order(entries) =~= Seq::<(Seq<char>, Json)>::empty());
    }
}

/// An array in key order has the same items, each in key order itself; what is
/// neither an array nor an object stays as it is.
pub proof fn key_order_keeps_the_items(items: Seq<Json>, i: int, v: Json)
    requires
        !(v is Array),
        !(v is Object),
    ensures
        in_key_order(Json::Array(items)) matches Json::Array(done) && done.len() == items.len() && (
        0 <= i < items.len() ==> done[i] == in_key_order(items[i])),
        in_key_order(v) == v,
{
    lemma_items_kept(items, i);
}

proof fn lemma_items_kept(items: Seq<Json>, i: int)
    ensures
        items_in_key_order(items).len() == items.len(),
        0 <= i < items.len() ==> items_in_key_order(items)[i] == in_key_order(items[i]),
    decreases items.len(),
{
    if items.len() > 0 {
        lemma_items_kept(items.drop_last(), i);
    }
}

/// `null`, booleans, texts and whole numbers of 64 bits are read back from their
/// texts.
pub proof fn simple_values_are_readable(b: bool, s: Seq<char>, n: int)
    requires
        i64::MIN <= n <= u64::MAX,
    ensures
        is_readable(Json::Null),
        is_readable(Json::Bool(b)),
        is_readable(Json::Text(s)),
        is_readable(Json::Number(signed_decimal(n))),
{
}

/// An array of readable values that are nested less than 100 deep is readable.
pub proof fn arrays_of_readable_values_are_readable(items: Seq<Json>)
    requires
        forall|i: int|
            0 <= i < items.len() ==> is_readable(#[trigger] items[i]) && json_depth(items[i]) < 100,
    ensures
        is_readable(Json::Array(items)),
{
    lemma_items_readable(items);
}

proof fn lemma_items_readable(items: Seq<Json>)
    requires
        forall|i: int|
            0 <= i < items.len() ==> is_readable(#[trigger] items[i]) && json_depth(items[i]) < 100,
    ensures
        are_plain(items),
        have_no_reserved_key(items),
        items_depth(items) < 100,
    decreases items.len(),
{
    if items.len() > 0 {
        let rest = items.drop_last();
        assert forall|i: int| 0 <= i < rest.len() implies is_readable(#[trigger] rest[i])
            && json_depth(rest[i]) < 100 by {
            assert(is_readable(items[i]));
        }
        lemma_items_readable(rest);
        assert(is_readable(items[items.len() - 1]));
    }
}

/// An object of readable values that are nested less than 100 deep is readable
/// where none of its keys is one that serde_json keeps for itself.
pub proof fn objects_of_readable_values_are_readable(entries: Seq<(Seq<char>, Json)>)
    requires
        forall|i: int|
            0 <= i < entries.len() ==> is_readable((#[trigger] entries[i]).1) && json_depth(
                entries[i].1,
            ) < 100 && !is_reserved_key(entries[i].0),
    ensures
        is_readable(Json::Object(entries)),
{
    lemma_entries_readable(entries);
}

proof fn lemma_entries_readable(entries: Seq<(Seq<char>, Json)>)
    requires
        forall|i: int|
            0 <= i < entries.len() ==> is_readable((#[trigger] entries[i]).1) && json_depth(
                entries[i].1,
            ) < 100 && !is_reserved_key(entries[i].0),
    ensures
        are_plain_entries(entries),
        entries_have_no_reserved_key(entries),
        entries_depth(entries) < 100,
    decreases entries.len(),
{
    if entries.len() > 0 {
        let rest = entries.drop_last();
        assert forall|i: int| 0 <= i < rest.len() implies is_readable((#[trigger] rest[i]).1)
            && json_depth(rest[i].1) < 100 && !is_reserved_key(rest[i].0) by {
            assert(is_readable(entries[i].1));
        }
        lemma_entries_readable(rest);
        assert(is_readable(entries[entries.len() - 1].1));
    }
}

/// A key is kept for serde_json only where it begins with a dollar sign.
pub proof fn ordinary_keys_are_not_reserved(key: Seq<char>)
    requires
        key.len() == 0 || key[0] != '$',
    ensures
        !is_reserved_key(key),
{
    reveal_strlit("$serde_json::private::RawValue");
    reveal_strlit("$serde_json::private::Number");
    assert("$serde_json::private::RawValue"@[0] == '$');
    assert("$serde_json::private::Number"@[0] == '$');
}

} // verus!
