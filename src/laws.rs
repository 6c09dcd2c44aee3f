use std::collections::HashMap;
use vstd::prelude::*;
use crate::classify::{kind_of, JsonType};
use crate::codec::{is_invalid, is_not_found, joined, quoted_text, JsonRetrieve, ToJson};
use crate::scanner::{
    after_key, find_from, is_blank, key_at, last_or_mark, scan_rest, scan_value, value_start,
};
use crate::store::{
    entry_text, keys_distinct, lemma_pairs_distinct, lookup, object_scan, object_text, JsonArray,
    JsonObject,
};
use crate::text::{
    dec_text, escape, escape_char, int_of_text, int_text, lemma_dec_text_digits,
    lemma_escape_round_trip, lemma_int_text_round_trip,
};

verus! {

/// The text of a keyed store with the one entry `k`, `v`.
pub open spec fn single_entry_text(k: Seq<char>, v: Seq<char>) -> Seq<char> {
    seq!['{', '"'] + k + seq!['"', ':'] + v + seq!['}']
}

/// Text that a primitive value may hold and stay one value: no blank, no quote,
/// and none of the characters that close a value.
pub open spec fn plain_token(t: Seq<char>) -> bool {
    &&& t.len() > 0
    &&& kind_of(t[0]) == JsonType::Primitive
    &&& forall|i: int|
        0 <= i < t.len() ==> !is_blank(#[trigger] t[i]) && t[i] != '"' && t[i] != ','
            && t[i] != '}' && t[i] != ']'
}

pub open spec fn no_quote(k: Seq<char>) -> bool {
    forall|i: int| 0 <= i < k.len() ==> #[trigger] k[i] != '"'
}

proof fn lemma_find_at(s: Seq<char>, p: int, q: int, c: char)
    requires
        0 <= p <= q < s.len(),
        s[q] == c,
        forall|i: int| p <= i < q ==> s[i] != c,
    ensures
        find_from(s, p, c) == q,
    decreases q - p,
{
    if p < q {
        lemma_find_at(s, p + 1, q, c);
    }
}

proof fn lemma_scan_primitive(s: Seq<char>, j: int, t: Seq<char>, buf: Seq<char>)
    requires
        0 <= j,
        j + t.len() < s.len(),
        s.subrange(j, j + t.len()) == t,
        s[j + t.len()] == '}',
        forall|i: int|
            0 <= i < t.len() ==> !is_blank(#[trigger] t[i]) && t[i] != '"' && t[i] != ','
                && t[i] != '}' && t[i] != ']',
    ensures
        scan_rest(s, j, JsonType::Primitive, 0, buf, false) == Some((buf + t, j + t.len() + 1)),
    decreases t.len(),
{
    if t.len() == 0 {
        assert(buf + t =~= buf);
    } else {
        assert(s[j] == t[0]);
        let t2 = t.skip(1);
        assert(s.subrange(j + 1, j + 1 + t2.len()) =~= t2);
        lemma_scan_primitive(s, j + 1, t2, buf.push(t[0]));
        assert(buf.push(t[0]) + t2 =~= buf + t);
    }
}

proof fn lemma_scan_text(s: Seq<char>, j: int, e: Seq<char>, buf: Seq<char>)
    requires
        0 <= j,
        j + e.len() < s.len(),
        s.subrange(j, j + e.len()) == e,
        s[j + e.len()] == '"',
        forall|i: int|
            0 <= i < e.len() && #[trigger] e[i] == '"' ==> (i > 0 && e[i - 1] == '\\') || (i == 0
                && last_or_mark(buf) == '\\'),
        e.len() == 0 ==> last_or_mark(buf) != '\\',
        e.len() > 0 ==> e.last() != '\\',
    ensures
        scan_rest(s, j, JsonType::String, 1, buf, true) == Some((buf + e, j + e.len() + 1)),
    decreases e.len(),
{
    if e.len() == 0 {
        assert(buf + e =~= buf);
    } else {
        let c = e[0];
        assert(s[j] == c);
        let e2 = e.skip(1);
        assert(s.subrange(j + 1, j + 1 + e2.len()) =~= e2);
        assert forall|i: int|
            0 <= i < e2.len() && #[trigger] e2[i] == '"' implies (i > 0 && e2[i - 1] == '\\') || (
            i == 0 && last_or_mark(buf.push(c)) == '\\') by {
            assert(e[i + 1] == '"');
        }
        lemma_scan_text(s, j + 1, e2, buf.push(c));
        assert(buf.push(c) + e2 =~= buf + e);
    }
}

proof fn lemma_escape_quotes(x: Seq<char>)
    ensures
        forall|i: int|
            0 <= i < escape(x).len() && #[trigger] escape(x)[i] == '"' ==> i > 0 && escape(x)[i
                - 1] == '\\',
    decreases x.len(),
{
    if x.len() > 0 {
        lemma_escape_quotes(x.skip(1));
        let h = escape_char(x[0]);
        let r = escape(x.skip(1));
        assert(escape(x) == h + r);
        assert forall|i: int|
            0 <= i < escape(x).len() && #[trigger] escape(x)[i] == '"' implies i > 0 && escape(
                x,
            )[i - 1] == '\\' by {
            if i >= h.len() {
                assert(r[i - h.len()] == '"');
            }
        }
    }
}

proof fn lemma_escape_last(x: Seq<char>)
    requires
        x.len() > 0,
        x.last() != '\\',
    ensures
        escape(x).len() > 0,
        escape(x).last() != '\\',
    decreases x.len(),
{
    if x.len() == 1 {
        assert(x.skip(1) =~= Seq::<char>::empty());
        assert(escape(Seq::<char>::empty()) == Seq::<char>::empty());
        assert(escape(x) =~= escape_char(x[0]));
    } else {
        lemma_escape_last(x.skip(1));
        assert(x.skip(1).last() == x.last());
    }
}

proof fn lemma_object_single(k: Seq<char>, body: Seq<char>, raw: Seq<char>, end: int)
    requires
        no_quote(k),
        body.len() > 0,
        end == single_entry_text(k, body).len() || end == single_entry_text(k, body).len() - 1,
        scan_value(single_entry_text(k, body), 4 + k.len() as int) == Some((raw, end)),
    ensures
        object_scan(single_entry_text(k, body), 0, Map::empty()) == Some(
            Map::<Seq<char>, Seq<char>>::empty().insert(k, raw),
        ),
{
    let s = single_entry_text(k, body);
    let n = k.len() as int;
    assert(s[0] == '{');
    assert(s[1] == '"');
    assert(s[2 + n] == '"');
    assert(s[3 + n] == ':');
    assert forall|i: int| 2 <= i < 2 + n implies s[i] != '"' by {
        assert(s[i] == k[i - 2]);
    }
    lemma_find_at(s, 2, 2 + n, '"');
    lemma_find_at(s, 3 + n, 3 + n, ':');
    assert(after_key(s, 2) == 4 + n);
    assert(key_at(s, 2) =~= k);
    let m = Map::<Seq<char>, Seq<char>>::empty().insert(k, raw);
    assert(object_scan(s, s.len() as int, m) == Some(m));
    if end < s.len() {
        assert(s[end] == '}');
        assert(object_scan(s, end, m) == object_scan(s, s.len() as int, m));
    }
    assert(object_scan(s, 1, Map::empty()) == object_scan(s, end, m));
    assert(object_scan(s, 0, Map::empty()) == object_scan(s, 1, Map::empty()));
}

/// A one-entry keyed store is written `{"k":v}`.
pub proof fn law_one_entry_text(o: JsonObject)
    requires
        o.pairs().len() == 1,
    ensures
        o.json_text() == single_entry_text(o.pairs()[0].0@, o.pairs()[0].1@),
{
    let parts = o.pairs().map_values(|p: (String, String)| entry_text(p));
    assert(joined(parts) == parts[0]);
    assert(o.json_text() =~= single_entry_text(o.pairs()[0].0@, o.pairs()[0].1@));
}

/// A well-formed keyed store is written as `{"k":v,...}` with one entry for each of its
/// keys, each once, with the raw text that the key holds; the order is that of `pairs`.
pub proof fn law_object_text_lists_each_key_once(o: JsonObject)
    requires
        o.wf(),
    ensures
        o.json_text() == object_text(o.pairs()),
        o.pairs().len() == o@.dom().len(),
        keys_distinct(o.pairs()),
        forall|i: int|
            0 <= i < o.pairs().len() ==> o@.contains_key(#[trigger] o.pairs()[i].0@)
                && o@[o.pairs()[i].0@] == o.pairs()[i].1@,
        forall|k: Seq<char>|
            #[trigger] o@.contains_key(k) ==> exists|i: int|
                0 <= i < o.pairs().len() && o.pairs()[i].0@ == k,
{
    lemma_pairs_distinct(o.pairs());
}

/// The text `{"k":v}` of a one-entry store scans back to that one entry, where the key
/// holds no quote and `v` is a plain token such as a number or a boolean.
pub proof fn law_primitive_entry_scans_back(k: Seq<char>, v: Seq<char>)
    requires
        no_quote(k),
        plain_token(v),
    ensures
        object_scan(single_entry_text(k, v), 0, Map::empty()) == Some(
            Map::<Seq<char>, Seq<char>>::empty().insert(k, v),
        ),
{
    let s = single_entry_text(k, v);
    let i = 4 + k.len() as int;
    assert(s[i] == v[0]);
    assert(value_start(s, i) == i);
    assert(s.subrange(i, i + v.len()) =~= v);
    assert(s[i + v.len()] == '}');
    lemma_scan_primitive(s, i, v, Seq::empty());
    assert(Seq::<char>::empty() + v =~= v);
    lemma_object_single(k, v, v, s.len() as int);
}

/// The text `{"k":"..."}` of a one-entry store holding text `x` scans back to the escaped
/// text of `x`, where the key holds no quote and `x` does not end in a backslash.
pub proof fn law_text_entry_scans_back(k: Seq<char>, x: Seq<char>)
    requires
        no_quote(k),
        x.len() > 0 ==> x.last() != '\\',
    ensures
        object_scan(single_entry_text(k, quoted_text(x)), 0, Map::empty()) == Some(
            Map::<Seq<char>, Seq<char>>::empty().insert(k, escape(x)),
        ),
{
    let body = quoted_text(x);
    let s = single_entry_text(k, body);
    let e = escape(x);
    let i = 4 + k.len() as int;
    assert(s[i] == '"');
    assert(value_start(s, i) == i);
    assert(s.subrange(i + 1, i + 1 + e.len()) =~= e);
    assert(s[i + 1 + e.len()] == '"');
    lemma_escape_quotes(x);
    if x.len() > 0 {
        lemma_escape_last(x);
    } else {
        assert(e =~= Seq::<char>::empty());
    }
    lemma_scan_text(s, i + 1, e, Seq::empty());
    assert(Seq::<char>::empty() + e =~= e);
    assert(s.len() == i + 1 + e.len() + 2);
    lemma_object_single(k, body, e, i + 1 + e.len() + 1);
}

/// A boolean's text reads back as the boolean.
pub proof fn law_bool_round_trip(key: Seq<char>, x: bool, r: Result<bool, crate::JsonParseError>)
    requires
        <bool as JsonRetrieve>::parsed(key, Some(x.json_text()), r),
    ensures
        r == Ok::<bool, crate::JsonParseError>(x),
{
    reveal_strlit("true");
    reveal_strlit("false");
}

/// An `i32`'s text reads back as the same `i32`.
pub proof fn law_i32_round_trip(key: Seq<char>, x: i32, r: Result<i32, crate::JsonParseError>)
    requires
        <i32 as JsonRetrieve>::parsed(key, Some(x.json_text()), r),
    ensures
        r == Ok::<i32, crate::JsonParseError>(x),
{
    lemma_int_text_round_trip(x as int);
}

/// An `i64`'s text reads back as the same `i64`.
pub proof fn law_i64_round_trip(key: Seq<char>, x: i64, r: Result<i64, crate::JsonParseError>)
    requires
        <i64 as JsonRetrieve>::parsed(key, Some(x.json_text()), r),
    ensures
        r == Ok::<i64, crate::JsonParseError>(x),
{
    lemma_int_text_round_trip(x as int);
}

/// The raw text that the scanner keeps of a string's JSON text reads back as the string.
pub proof fn law_text_round_trip(key: Seq<char>, x: String, r: Result<String, crate::JsonParseError>)
    requires
        <String as JsonRetrieve>::parsed(key, Some(escape(x@)), r),
    ensures
        r matches Ok(y) && y@ == x@,
{
    lemma_escape_round_trip(x@);
}

/// The text of a number or a boolean is a plain token, which scans as one value.
pub proof fn law_primitive_texts_are_plain(i: int, b: bool)
    ensures
        plain_token(int_text(i)),
        plain_token(b.json_text()),
{
    reveal_strlit("true");
    reveal_strlit("false");
    let t = int_text(i);
    if i < 0 {
        lemma_dec_text_digits((-i) as nat);
        let d = dec_text((-i) as nat);
        assert forall|j: int| 0 <= j < t.len() implies !is_blank(#[trigger] t[j]) && t[j] != '"'
            && t[j] != ',' && t[j] != '}' && t[j] != ']' by {
            if j > 0 {
                assert(t[j] == d[j - 1]);
            }
        }
    } else {
        lemma_dec_text_digits(i as nat);
    }
}

/// An `i32` put in a one-entry store under a key without quotes, written out, scanned
/// back and read under the same key, is the same `i32`.
pub proof fn law_i32_store_round_trip(k: Seq<char>, x: i32, r: Result<i32, crate::JsonParseError>)
    requires
        no_quote(k),
        <i32 as JsonRetrieve>::parsed(
            k,
            lookup(object_scan(single_entry_text(k, x.json_text()), 0, Map::empty())->0, k),
            r,
        ),
    ensures
        r == Ok::<i32, crate::JsonParseError>(x),
{
    law_primitive_texts_are_plain(x as int, true);
    law_primitive_entry_scans_back(k, x.json_text());
    law_i32_round_trip(k, x, r);
}

/// An `i64` put in a one-entry store, written out, scanned back and read is the same `i64`.
pub proof fn law_i64_store_round_trip(k: Seq<char>, x: i64, r: Result<i64, crate::JsonParseError>)
    requires
        no_quote(k),
        <i64 as JsonRetrieve>::parsed(
            k,
            lookup(object_scan(single_entry_text(k, x.json_text()), 0, Map::empty())->0, k),
            r,
        ),
    ensures
        r == Ok::<i64, crate::JsonParseError>(x),
{
    law_primitive_texts_are_plain(x as int, true);
    law_primitive_entry_scans_back(k, x.json_text());
    law_i64_round_trip(k, x, r);
}

/// A boolean put in a one-entry store, written out, scanned back and read is the same boolean.
pub proof fn law_bool_store_round_trip(k: Seq<char>, x: bool, r: Result<bool, crate::JsonParseError>)
    requires
        no_quote(k),
        <bool as JsonRetrieve>::parsed(
            k,
            lookup(object_scan(single_entry_text(k, x.json_text()), 0, Map::empty())->0, k),
            r,
        ),
    ensures
        r == Ok::<bool, crate::JsonParseError>(x),
{
    law_primitive_texts_are_plain(0, x);
    law_primitive_entry_scans_back(k, x.json_text());
    law_bool_round_trip(k, x, r);
}

/// Text put in a one-entry store, written out, scanned back and read is the same text,
/// backslashes, quotes, newlines and tabs included, where it does not end in a backslash.
pub proof fn law_text_store_round_trip(k: Seq<char>, x: String, r: Result<String, crate::JsonParseError>)
    requires
        no_quote(k),
        x@.len() > 0 ==> x@.last() != '\\',
        <String as JsonRetrieve>::parsed(
            k,
            lookup(object_scan(single_entry_text(k, x.json_text()), 0, Map::empty())->0, k),
            r,
        ),
    ensures
        r matches Ok(y) && y@ == x@,
{
    law_text_entry_scans_back(k, x@);
    law_text_round_trip(k, x, r);
}

/// An empty sequence, keyed store and ordered store are written `[]`, `{}` and `[]`.
pub proof fn law_empty_containers<T: ToJson>(v: Vec<T>, o: JsonObject, a: JsonArray)
    requires
        v@.len() == 0,
        o@ == Map::<Seq<char>, Seq<char>>::empty(),
        a@.len() == 0,
    ensures
        v.json_text() == seq!['[', ']'],
        o.json_text() == seq!['{', '}'],
        a.json_text() == seq!['[', ']'],
{
    if o.pairs().len() > 0 {
        assert(o@.contains_key(o.pairs().last().0@));
    }
    assert(o.json_text() =~= seq!['{', '}']);
    assert(v.json_text() =~= seq!['[', ']']);
    assert(a.json_text() =~= seq!['[', ']']);
}

/// An empty hash map is written `{}`.
pub proof fn law_empty_map_text<K: ToJson, V: ToJson>(m: HashMap<K, V>)
    requires
        m@.len() == 0,
    ensures
        m.json_text() == seq!['{', '}'],
{
    broadcast use vstd::std_specs::hash::group_hash_axioms;

    assert(m@.dom().finite());
    m@.dom().lemma_len0_is_empty();
    assert(m@.is_empty());
}

/// A required field whose key is absent gives `NotFound` with that key.
pub proof fn law_missing_key_not_found(
    key: Seq<char>,
    a: Result<i32, crate::JsonParseError>,
    b: Result<i64, crate::JsonParseError>,
    c: Result<bool, crate::JsonParseError>,
    d: Result<String, crate::JsonParseError>,
)
    requires
        <i32 as JsonRetrieve>::parsed(key, None, a),
        <i64 as JsonRetrieve>::parsed(key, None, b),
        <bool as JsonRetrieve>::parsed(key, None, c),
        <String as JsonRetrieve>::parsed(key, None, d),
    ensures
        is_not_found(a, key),
        is_not_found(b, key),
        is_not_found(c, key),
        is_not_found(d, key),
{
}

/// Text that is no integer, such as quoted text, gives `InvalidType` where a number is required.
pub proof fn law_wrong_type_invalid(key: Seq<char>, t: Seq<char>, r: Result<i32, crate::JsonParseError>)
    requires
        int_of_text(t) is None,
        <i32 as JsonRetrieve>::parsed(key, Some(t), r),
    ensures
        is_invalid(r, key, "i32"@),
{
}

/// An optional field is `None` where its key is absent or holds `null`, and `Some` of the
/// value that the raw text reads as otherwise.
pub proof fn law_optional_field<T: JsonRetrieve>(
    key: Seq<char>,
    raw: Option<Seq<char>>,
    r: Result<Option<T>, crate::JsonParseError>,
)
    requires
        <Option<T> as JsonRetrieve>::parsed(key, raw, r),
    ensures
        raw is None ==> r == Ok::<Option<T>, crate::JsonParseError>(None),
        raw == Some("null"@) ==> r == Ok::<Option<T>, crate::JsonParseError>(None),
        (raw matches Some(t) && t != "null"@) ==> (r matches Ok(Some(x)) ==> T::parsed(
            key,
            raw,
            Ok(x),
        )) && (r matches Err(e) ==> T::parsed(key, raw, Err(e))) && !(r matches Ok(None)),
{
}

} // verus!
