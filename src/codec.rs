use std::collections::HashMap;
use vstd::prelude::*;
use vstd::std_specs::hash::{into_iter, obeys_key_model, spec_hash_map_iter};
use vstd::std_specs::iter::VerusForLoopWrapper;
use crate::scanner::{chars_of, push_char};
use crate::store::{array_scan, mapped_all, object_scan, JsonArray, JsonObject};
use crate::text::{
    dec_string, escape, escape_string, int_in_range, int_string, int_text, parse_int, unescape,
    unescape_string,
};

verus! {

/// Why a typed value could not be read.
#[derive(Debug)]
pub enum JsonParseError {
    /// The key or index has no raw text.
    NotFound(String),
    /// The raw text of the key or index does not read as the named type.
    InvalidType(String, &'static str),
    /// The input ended inside a value.
    UnexpectedEndOfInput,
}

pub open spec fn is_not_found<T>(r: Result<T, JsonParseError>, key: Seq<char>) -> bool {
    r matches Err(JsonParseError::NotFound(l)) && l@ == key
}

pub open spec fn is_invalid<T>(r: Result<T, JsonParseError>, key: Seq<char>, ty: Seq<char>) -> bool {
    r matches Err(JsonParseError::InvalidType(l, t)) && l@ == key && t@ == ty
}

pub open spec fn is_truncated<T>(r: Result<T, JsonParseError>) -> bool {
    r matches Err(JsonParseError::UnexpectedEndOfInput)
}

pub open spec fn opt_text(v: Option<&String>) -> Option<Seq<char>> {
    match v {
        Some(s) => Some(s@),
        None => None,
    }
}

/// `parts` joined by commas.
pub open spec fn joined(parts: Seq<Seq<char>>) -> Seq<char>
    decreases parts.len(),
{
    if parts.len() == 0 {
        Seq::empty()
    } else if parts.len() == 1 {
        parts[0]
    } else {
        joined(parts.drop_last()) + seq![','] + parts.last()
    }
}

pub proof fn lemma_joined_step(parts: Seq<Seq<char>>, i: int)
    requires
        0 <= i < parts.len(),
    ensures
        joined(parts.take(i + 1)) == if i == 0 {
            parts[0]
        } else {
            joined(parts.take(i)) + seq![','] + parts[i]
        },
{
    assert(parts.take(i + 1).drop_last() =~= parts.take(i));
}

/// Quoted text, with backslash, quote, newline and tab escaped.
pub open spec fn quoted_text(s: Seq<char>) -> Seq<char> {
    seq!['"'] + escape(s) + seq!['"']
}

/// A type that writes itself as JSON text.
/// Impls written outside this library are not verified: for them `json_text` stays unknown.
pub trait ToJson {
    open spec fn json_text(&self) -> Seq<char> {
        arbitrary()
    }

    /// Whether `to_json` is known to write `json_text`. It is for this library's impls,
    /// but for a hash map whose key type is not known to hash consistently with its
    /// equality, whose walk order nothing describes, or a container of such maps; it is
    /// not for impls written outside this library.
    open spec fn text_known(&self) -> bool {
        false
    }

    fn to_json(&self) -> (r: String)
        ensures
            self.text_known() ==> r@ == self.json_text(),
    ;
}

/// A record that reads itself off the entries of a keyed store.
/// Impls written outside this library are not verified: they promise nothing of the result.
pub trait FromJson: Sized {
    open spec fn decoded(fields: Map<Seq<char>, Seq<char>>, r: Result<Self, JsonParseError>) -> bool {
        true
    }

    fn from_json(json: &JsonObject) -> (r: Result<Self, JsonParseError>)
        ensures
            Self::decoded(json@, r),
    ;
}

/// A type that reads itself from the raw text of one key or index.
/// `key` labels errors; `value` is the raw text, absent where the key or index has none.
pub trait JsonRetrieve: Sized {
    open spec fn parsed(key: Seq<char>, raw: Option<Seq<char>>, r: Result<Self, JsonParseError>) -> bool {
        true
    }

    fn parse(key: String, value: Option<&String>) -> (r: Result<Self, JsonParseError>)
        ensures
            Self::parsed(key@, opt_text(value), r),
    ;
}

/// Writes `s` as quoted text.
pub fn quote_str(s: &str) -> (r: String)
    ensures
        r@ == quoted_text(s@),
{
    let cs = chars_of(s);
    let mut out = String::new();
    push_char(&mut out, '"');
    escape_string(&cs, &mut out);
    push_char(&mut out, '"');
    out
}

impl ToJson for String {
    open spec fn text_known(&self) -> bool {
        true
    }

    open spec fn json_text(&self) -> Seq<char> {
        quoted_text(self@)
    }

    fn to_json(&self) -> (r: String) {
        quote_str(self.as_str())
    }
}

impl ToJson for str {
    open spec fn text_known(&self) -> bool {
        true
    }

    open spec fn json_text(&self) -> Seq<char> {
        quoted_text(self@)
    }

    fn to_json(&self) -> (r: String) {
        quote_str(self)
    }
}

impl ToJson for i32 {
    open spec fn text_known(&self) -> bool {
        true
    }

    open spec fn json_text(&self) -> Seq<char> {
        int_text(*self as int)
    }

    fn to_json(&self) -> (r: String) {
        int_string(*self as i64)
    }
}

impl ToJson for i64 {
    open spec fn text_known(&self) -> bool {
        true
    }

    open spec fn json_text(&self) -> Seq<char> {
        int_text(*self as int)
    }

    fn to_json(&self) -> (r: String) {
        int_string(*self)
    }
}

impl ToJson for u32 {
    open spec fn text_known(&self) -> bool {
        true
    }

    open spec fn json_text(&self) -> Seq<char> {
        int_text(*self as int)
    }

    fn to_json(&self) -> (r: String) {
        int_string(*self as i64)
    }
}

impl ToJson for u64 {
    open spec fn text_known(&self) -> bool {
        true
    }

    open spec fn json_text(&self) -> Seq<char> {
        int_text(*self as int)
    }

    fn to_json(&self) -> (r: String) {
        dec_string(*self)
    }
}

impl ToJson for bool {
    open spec fn text_known(&self) -> bool {
        true
    }

    open spec fn json_text(&self) -> Seq<char> {
        if *self {
            "true"@
        } else {
            "false"@
        }
    }

    fn to_json(&self) -> (r: String) {
        if *self {
            "true".to_owned()
        } else {
            "false".to_owned()
        }
    }
}

/// The texts of the items of `v`, one each.
pub open spec fn texts_of<T: ToJson>(v: Seq<T>) -> Seq<Seq<char>> {
    v.map_values(|x: T| x.json_text())
}

impl<T: ToJson> ToJson for Vec<T> {
    open spec fn json_text(&self) -> Seq<char> {
        seq!['['] + joined(texts_of(self@)) + seq![']']
    }

    open spec fn text_known(&self) -> bool {
        forall|i: int| 0 <= i < self@.len() ==> (#[trigger] self@[i]).text_known()
    }

    fn to_json(&self) -> (r: String)
        ensures
            self@.len() == 0 ==> r@ == seq!['[', ']'],
            r@.len() >= 2 && r@[0] == '[' && r@.last() == ']',
    {
        let ghost parts = texts_of(self@);
        let mut out = String::new();
        push_char(&mut out, '[');
        let mut i: usize = 0;
        assert(parts.take(0) =~= Seq::<Seq<char>>::empty());
        while i < self.len()
            invariant
                i <= self@.len(),
                parts == texts_of(self@),
                out@.len() >= 1 && out@[0] == '[',
                i == 0 ==> out@ == seq!['['],
                self.text_known() ==> out@ == seq!['['] + joined(parts.take(i as int)),
            decreases self@.len() - i,
        {
            proof {
                lemma_joined_step(parts, i as int);
            }
            if i > 0 {
                push_char(&mut out, ',');
            }
            let piece = self[i].to_json();
            assert(self.text_known() ==> self@[i as int].text_known());
            out.append(piece.as_str());
            i = i + 1;
            assert(self.text_known() ==> out@ =~= seq!['['] + joined(parts.take(i as int)));
        }
        assert(parts.take(i as int) =~= parts);
        push_char(&mut out, ']');
        out
    }
}

impl<T: ToJson> ToJson for Option<T> {
    open spec fn json_text(&self) -> Seq<char> {
        match self {
            Some(x) => x.json_text(),
            None => "null"@,
        }
    }

    open spec fn text_known(&self) -> bool {
        match self {
            Some(x) => x.text_known(),
            None => true,
        }
    }

    fn to_json(&self) -> (r: String) {
        match self {
            Some(x) => x.to_json(),
            None => "null".to_owned(),
        }
    }
}

/// One entry of a mapping written out: the key's text, a colon, the value's text.
pub open spec fn pair_text<K: ToJson, V: ToJson>(p: (K, V)) -> Seq<char> {
    p.0.json_text() + seq![':'] + p.1.json_text()
}

/// The entries of a mapping written out, one each, in the order given.
pub open spec fn pair_texts<K: ToJson, V: ToJson>(ps: Seq<(K, V)>) -> Seq<Seq<char>> {
    ps.map_values(|p: (K, V)| pair_text(p))
}

/// The entries of a map in the order in which it is walked.
pub open spec fn walk_order<K, V>(m: &HashMap<K, V>) -> Seq<(K, V)> {
    into_iter(spec_hash_map_iter(m))
}

/// A mapping is written `{k:v,...}`, keys and values by their own texts, the entries in
/// the order in which the map is walked; an empty one is written `{}`.
impl<K: ToJson, V: ToJson> ToJson for HashMap<K, V> {
    open spec fn json_text(&self) -> Seq<char> {
        if self@.is_empty() {
            seq!['{', '}']
        } else {
            seq!['{'] + joined(pair_texts(walk_order(self))) + seq!['}']
        }
    }

    open spec fn text_known(&self) -> bool {
        &&& obeys_key_model::<K>()
        &&& forall|i: int|
            0 <= i < walk_order(self).len() ==> (#[trigger] walk_order(self)[i]).0.text_known()
                && walk_order(self)[i].1.text_known()
    }

    fn to_json(&self) -> (r: String)
        ensures
            self@.is_empty() ==> r@ == seq!['{', '}'],
            r@.len() >= 2 && r@[0] == '{' && r@.last() == '}',
    {
        broadcast use vstd::std_specs::hash::group_hash_axioms;

        if self.is_empty() {
            let mut empty = String::new();
            push_char(&mut empty, '{');
            push_char(&mut empty, '}');
            assert(empty@ =~= seq!['{', '}']);
            return empty;
        }
        let ghost known = self.text_known();
        let ghost items = walk_order(self);
        let ghost parts = pair_texts(items);
        let n = self.len();
        let mut w = VerusForLoopWrapper::new(self.iter(), Ghost(None));
        let mut out = String::new();
        push_char(&mut out, '{');
        let mut i: usize = 0;
        assert(parts.take(0) =~= Seq::<Seq<char>>::empty());
        while i < n
            invariant
                i <= n,
                w.wf(),
                parts == pair_texts(items),
                known == self.text_known(),
                items == walk_order(self),
                out@.len() >= 1 && out@[0] == '{',
                known ==> w.seq().unref() == items && items.len() == n && i as int == w.index()
                    && out@ == seq!['{'] + joined(parts.take(i as int)),
            decreases n - i,
        {
            match w.next() {
                None => {
                    i = n;
                },
                Some(kv) => {
                    proof {
                        if known {
                            lemma_joined_step(parts, i as int);
                            assert(items[i as int].0.text_known());
                            assert(*kv.0 == items[i as int].0 && *kv.1 == items[i as int].1);
                        }
                    }
                    if i > 0 {
                        push_char(&mut out, ',');
                    }
                    let kt = kv.0.to_json();
                    out.append(kt.as_str());
                    push_char(&mut out, ':');
                    let vt = kv.1.to_json();
                    out.append(vt.as_str());
                    i = i + 1;
                    proof {
                        if known {
                            assert(out@ =~= seq!['{'] + joined(parts.take(i as int)));
                        }
                    }
                },
            }
        }
        assert(known ==> i == items.len() && parts.take(i as int) =~= parts);
        push_char(&mut out, '}');
        out
    }
}

/// Whether `t` holds exactly the characters of `w`.
pub fn is_word(t: &Vec<char>, w: &str) -> (r: bool)
    ensures
        r == (t@ == w@),
{
    let n = w.unicode_len();
    if t.len() != n {
        return false;
    }
    let mut i: usize = 0;
    while i < n
        invariant
            i <= n == t@.len() == w@.len(),
            forall|k: int| 0 <= k < i ==> t@[k] == w@[k],
        decreases n - i,
    {
        if t[i] != w.get_char(i) {
            return false;
        }
        i = i + 1;
    }
    assert(t@ =~= w@);
    true
}

impl JsonRetrieve for String {
    open spec fn parsed(key: Seq<char>, raw: Option<Seq<char>>, r: Result<Self, JsonParseError>) -> bool {
        match raw {
            None => is_not_found(r, key),
            Some(t) => r matches Ok(s) && s@ == unescape(t),
        }
    }

    fn parse(key: String, value: Option<&String>) -> (r: Result<Self, JsonParseError>) {
        match value {
            None => Err(JsonParseError::NotFound(key)),
            Some(v) => Ok(unescape_string(&chars_of(v.as_str()))),
        }
    }
}

impl JsonRetrieve for i32 {
    open spec fn parsed(key: Seq<char>, raw: Option<Seq<char>>, r: Result<Self, JsonParseError>) -> bool {
        match raw {
            None => is_not_found(r, key),
            Some(t) => match int_in_range(t, i32::MIN as int, i32::MAX as int) {
                Some(v) => r == Ok::<i32, JsonParseError>(v as i32),
                None => is_invalid(r, key, "i32"@),
            },
        }
    }

    fn parse(key: String, value: Option<&String>) -> (r: Result<Self, JsonParseError>) {
        match value {
            None => Err(JsonParseError::NotFound(key)),
            Some(v) => match parse_int(&chars_of(v.as_str()), 2147483648u64, 2147483647u64) {
                Some(n) => Ok(n as i32),
                None => Err(JsonParseError::InvalidType(key, "i32")),
            },
        }
    }
}

impl JsonRetrieve for i64 {
    open spec fn parsed(key: Seq<char>, raw: Option<Seq<char>>, r: Result<Self, JsonParseError>) -> bool {
        match raw {
            None => is_not_found(r, key),
            Some(t) => match int_in_range(t, i64::MIN as int, i64::MAX as int) {
                Some(v) => r == Ok::<i64, JsonParseError>(v as i64),
                None => is_invalid(r, key, "i64"@),
            },
        }
    }

    fn parse(key: String, value: Option<&String>) -> (r: Result<Self, JsonParseError>) {
        match value {
            None => Err(JsonParseError::NotFound(key)),
            Some(v) => match parse_int(
                &chars_of(v.as_str()),
                9223372036854775808u64,
                9223372036854775807u64,
            ) {
                Some(n) => Ok(n as i64),
                None => Err(JsonParseError::InvalidType(key, "i64")),
            },
        }
    }
}

impl JsonRetrieve for bool {
    open spec fn parsed(key: Seq<char>, raw: Option<Seq<char>>, r: Result<Self, JsonParseError>) -> bool {
        match raw {
            None => is_not_found(r, key),
            Some(t) => if t == "true"@ {
                r == Ok::<bool, JsonParseError>(true)
            } else if t == "false"@ {
                r == Ok::<bool, JsonParseError>(false)
            } else {
                is_invalid(r, key, "bool"@)
            },
        }
    }

    fn parse(key: String, value: Option<&String>) -> (r: Result<Self, JsonParseError>) {
        match value {
            None => Err(JsonParseError::NotFound(key)),
            Some(v) => {
                let t = chars_of(v.as_str());
                if is_word(&t, "true") {
                    Ok(true)
                } else if is_word(&t, "false") {
                    Ok(false)
                } else {
                    Err(JsonParseError::InvalidType(key, "bool"))
                }
            },
        }
    }
}

/// The result of reading an inner value, seen through the `Some` that wraps it.
pub open spec fn inner_result<T>(r: Result<Option<T>, JsonParseError>) -> Result<T, JsonParseError> {
    match r {
        Ok(Some(x)) => Ok(x),
        Ok(None) => Err(JsonParseError::UnexpectedEndOfInput),
        Err(e) => Err(e),
    }
}

impl<T: JsonRetrieve> JsonRetrieve for Option<T> {
    open spec fn parsed(key: Seq<char>, raw: Option<Seq<char>>, r: Result<Self, JsonParseError>) -> bool {
        match raw {
            None => r == Ok::<Option<T>, JsonParseError>(None),
            Some(t) => if t == "null"@ {
                r == Ok::<Option<T>, JsonParseError>(None)
            } else {
                !(r matches Ok(None)) && T::parsed(key, raw, inner_result(r))
            },
        }
    }

    fn parse(key: String, value: Option<&String>) -> (r: Result<Self, JsonParseError>) {
        match value {
            None => Ok(None),
            Some(v) => {
                if is_word(&chars_of(v.as_str()), "null") {
                    Ok(None)
                } else {
                    match T::parse(key, value) {
                        Ok(x) => Ok(Some(x)),
                        Err(e) => Err(e),
                    }
                }
            },
        }
    }
}

impl<T: JsonRetrieve> JsonRetrieve for Vec<T> {
    open spec fn parsed(key: Seq<char>, raw: Option<Seq<char>>, r: Result<Self, JsonParseError>) -> bool {
        match raw {
            None => is_not_found(r, key),
            Some(t) => match array_scan(t, 0, Seq::empty()) {
                None => is_truncated(r),
                Some(items) => mapped_all::<T>(items, r),
            },
        }
    }

    fn parse(key: String, value: Option<&String>) -> (r: Result<Self, JsonParseError>) {
        match value {
            None => Err(JsonParseError::NotFound(key)),
            Some(v) => match JsonArray::from_string(v.as_str()) {
                Ok(a) => a.map(),
                Err(e) => Err(e),
            },
        }
    }
}

impl JsonRetrieve for JsonObject {
    open spec fn parsed(key: Seq<char>, raw: Option<Seq<char>>, r: Result<Self, JsonParseError>) -> bool {
        match raw {
            None => is_not_found(r, key),
            Some(t) => match object_scan(t, 0, Map::empty()) {
                None => is_truncated(r),
                Some(m) => r matches Ok(o) && o@ == m && o.wf(),
            },
        }
    }

    fn parse(key: String, value: Option<&String>) -> (r: Result<Self, JsonParseError>) {
        match value {
            None => Err(JsonParseError::NotFound(key)),
            Some(v) => JsonObject::from_string(v.as_str()),
        }
    }
}

impl JsonRetrieve for JsonArray {
    open spec fn parsed(key: Seq<char>, raw: Option<Seq<char>>, r: Result<Self, JsonParseError>) -> bool {
        match raw {
            None => is_not_found(r, key),
            Some(t) => match array_scan(t, 0, Seq::empty()) {
                None => is_truncated(r),
                Some(items) => r matches Ok(a) && a@ == items,
            },
        }
    }

    fn parse(key: String, value: Option<&String>) -> (r: Result<Self, JsonParseError>) {
        match value {
            None => Err(JsonParseError::NotFound(key)),
            Some(v) => JsonArray::from_string(v.as_str()),
        }
    }
}

impl<T: FromJson> JsonRetrieve for T {
    open spec fn parsed(key: Seq<char>, raw: Option<Seq<char>>, r: Result<Self, JsonParseError>) -> bool {
        match raw {
            None => is_not_found(r, key),
            Some(t) => match object_scan(t, 0, Map::empty()) {
                None => is_truncated(r),
                Some(m) => T::decoded(m, r),
            },
        }
    }

    fn parse(key: String, value: Option<&String>) -> (r: Result<Self, JsonParseError>) {
        match value {
            None => Err(JsonParseError::NotFound(key)),
            Some(v) => match JsonObject::from_string(v.as_str()) {
                Ok(o) => T::from_json(&o),
                Err(e) => Err(e),
            },
        }
    }
}

} // verus!
