use vstd::prelude::*;
use crate::codec::{joined, lemma_joined_step, JsonParseError, JsonRetrieve, ToJson};
use crate::scanner::{
    after_key, chars_of, find_from, key_at, lemma_find_from, lemma_scan_value_advances, push_char, scan_value, JsonDecoder,
};
use crate::text::{dec_string, dec_text};

verus! {

/// The entries that scanning `s` from `p` adds to `acc`: each quote opens a key,
/// the value after its colon is scanned, and a later key replaces an earlier one.
/// `None` where the input ends inside a value.
pub open spec fn object_scan(s: Seq<char>, p: int, acc: Map<Seq<char>, Seq<char>>) -> Option<
    Map<Seq<char>, Seq<char>>,
>
    decreases s.len() - p,
{
    if p < 0 || p >= s.len() {
        Some(acc)
    } else if s[p] != '"' {
        object_scan(s, p + 1, acc)
    } else {
        match scan_value(s, after_key(s, p + 1)) {
            None => None,
            Some(v) => if p < v.1 <= s.len() {
                object_scan(s, v.1, acc.insert(key_at(s, p + 1), v.0))
            } else {
                None
            },
        }
    }
}

/// The raw texts that scanning `s` from `p` appends to `acc`, one value after another.
/// `None` where the input ends inside a value.
pub open spec fn array_scan(s: Seq<char>, p: int, acc: Seq<Seq<char>>) -> Option<Seq<Seq<char>>>
    decreases s.len() - p,
{
    if p < 0 || p >= s.len() {
        Some(acc)
    } else {
        match scan_value(s, p) {
            None => None,
            Some(v) => if p < v.1 <= s.len() {
                array_scan(s, v.1, acc.push(v.0))
            } else {
                None
            },
        }
    }
}

/// The label of the item at index `i`.
pub open spec fn index_label(i: int) -> Seq<char> {
    dec_text(i as nat)
}

/// Every item read: `r` is `Ok` with one value per item, each read from its raw text,
/// or `Err` with the error of the first item that did not read.
pub open spec fn mapped_all<T: JsonRetrieve>(
    items: Seq<Seq<char>>,
    r: Result<Vec<T>, JsonParseError>,
) -> bool {
    match r {
        Ok(v) => v@.len() == items.len() && forall|i: int|
            0 <= i < items.len() ==> #[trigger] T::parsed(
                index_label(i),
                Some(items[i]),
                Ok(v@[i]),
            ),
        Err(e) => exists|j: int|
            0 <= j < items.len() && #[trigger] T::parsed(index_label(j), Some(items[j]), Err(e))
                && (forall|i: int| 0 <= i < j ==> #[trigger] reads::<T>(index_label(i), items[i])),
    }
}

/// Some value of `T` reads from `raw`.
pub open spec fn reads<T: JsonRetrieve>(label: Seq<char>, raw: Seq<char>) -> bool {
    exists|x: T| #[trigger] T::parsed(label, Some(raw), Ok(x))
}

/// `out` holds, in order, the values read from those of the first `n` items that read.
pub open spec fn kept<T: JsonRetrieve>(items: Seq<Seq<char>>, n: int, out: Seq<T>) -> bool
    decreases n,
{
    if n <= 0 {
        out.len() == 0
    } else {
        ||| (out.len() > 0 && T::parsed(index_label(n - 1), Some(items[n - 1]), Ok(out.last()))
            && kept(items, n - 1, out.drop_last()))
        ||| (exists|e: JsonParseError|
            T::parsed(index_label(n - 1), Some(items[n - 1]), Err(e)) && kept(
                items,
                n - 1,
                out,
            ))
    }
}

/// The map that a list of entries stands for; a later entry replaces an earlier one.
pub open spec fn pairs_map(ps: Seq<(String, String)>) -> Map<Seq<char>, Seq<char>>
    decreases ps.len(),
{
    if ps.len() == 0 {
        Map::empty()
    } else {
        pairs_map(ps.drop_last()).insert(ps.last().0@, ps.last().1@)
    }
}

/// No key stands in two entries.
pub open spec fn keys_distinct(ps: Seq<(String, String)>) -> bool {
    forall|i: int, j: int| 0 <= i < j < ps.len() ==> #[trigger] ps[i].0@ != #[trigger] ps[j].0@
}

/// With distinct keys, the map has exactly one key per entry, under which stands that
/// entry's raw text.
pub proof fn lemma_pairs_distinct(ps: Seq<(String, String)>)
    requires
        keys_distinct(ps),
    ensures
        pairs_map(ps).dom().finite(),
        pairs_map(ps).dom().len() == ps.len(),
        forall|i: int|
            0 <= i < ps.len() ==> pairs_map(ps).contains_key(#[trigger] ps[i].0@) && pairs_map(
                ps,
            )[ps[i].0@] == ps[i].1@,
        forall|k: Seq<char>|
            #[trigger] pairs_map(ps).contains_key(k) ==> exists|i: int|
                0 <= i < ps.len() && ps[i].0@ == k,
    decreases ps.len(),
{
    if ps.len() > 0 {
        let d = ps.drop_last();
        assert(keys_distinct(d)) by {
            assert forall|i: int, j: int| 0 <= i < j < d.len() implies #[trigger] d[i].0@
                != #[trigger] d[j].0@ by {
                assert(ps[i].0@ != ps[j].0@);
            }
        }
        lemma_pairs_distinct(d);
        let k = ps.last().0@;
        assert forall|j: int| 0 <= j < d.len() implies d[j].0@ != k by {
            assert(ps[j].0@ != ps[ps.len() - 1].0@);
        }
        lemma_pairs_absent(d, k);
        assert forall|i: int| 0 <= i < ps.len() implies pairs_map(ps).contains_key(
            #[trigger] ps[i].0@,
        ) && pairs_map(ps)[ps[i].0@] == ps[i].1@ by {
            if i < ps.len() - 1 {
                assert(d[i] == ps[i]);
                assert(ps[i].0@ != k);
            }
        }
        assert forall|k2: Seq<char>| #[trigger] pairs_map(ps).contains_key(k2) implies exists|
            i: int,
        | 0 <= i < ps.len() && ps[i].0@ == k2 by {
            if k2 != k {
                assert(pairs_map(d).contains_key(k2));
                let i = choose|i: int| 0 <= i < d.len() && d[i].0@ == k2;
                assert(ps[i].0@ == k2);
            } else {
                assert(ps[ps.len() - 1].0@ == k2);
            }
        }
    }
}

/// The raw text under `k`, if any.
pub open spec fn lookup(m: Map<Seq<char>, Seq<char>>, k: Seq<char>) -> Option<Seq<char>> {
    if m.contains_key(k) {
        Some(m[k])
    } else {
        None
    }
}

/// One entry written out: the quoted key, a colon, the raw value.
pub open spec fn entry_text(p: (String, String)) -> Seq<char> {
    seq!['"'] + p.0@ + seq!['"', ':'] + p.1@
}

/// A keyed store written out, entries in the order given.
pub open spec fn object_text(ps: Seq<(String, String)>) -> Seq<char> {
    seq!['{'] + joined(ps.map_values(|p: (String, String)| entry_text(p))) + seq!['}']
}

/// An ordered store written out.
pub open spec fn array_text(items: Seq<Seq<char>>) -> Seq<char> {
    seq!['['] + joined(items) + seq![']']
}

proof fn lemma_pairs_last(ps: Seq<(String, String)>, k: Seq<char>, i: int)
    requires
        0 <= i < ps.len(),
        ps[i].0@ == k,
        forall|j: int| i < j < ps.len() ==> ps[j].0@ != k,
    ensures
        pairs_map(ps).contains_key(k),
        pairs_map(ps)[k] == ps[i].1@,
    decreases ps.len(),
{
    if i < ps.len() - 1 {
        lemma_pairs_last(ps.drop_last(), k, i);
    }
}

proof fn lemma_pairs_absent(ps: Seq<(String, String)>, k: Seq<char>)
    requires
        forall|j: int| 0 <= j < ps.len() ==> ps[j].0@ != k,
    ensures
        !pairs_map(ps).contains_key(k),
    decreases ps.len(),
{
    if ps.len() > 0 {
        lemma_pairs_absent(ps.drop_last(), k);
    }
}

proof fn lemma_pairs_update(ps: Seq<(String, String)>, i: int, e: (String, String))
    requires
        0 <= i < ps.len(),
        ps[i].0@ == e.0@,
        forall|j: int| i < j < ps.len() ==> ps[j].0@ != e.0@,
    ensures
        pairs_map(ps.update(i, e)) == pairs_map(ps).insert(e.0@, e.1@),
    decreases ps.len(),
{
    let qs = ps.update(i, e);
    if i == ps.len() - 1 {
        assert(qs.drop_last() =~= ps.drop_last());
        assert(pairs_map(qs) =~= pairs_map(ps).insert(e.0@, e.1@));
    } else {
        assert(qs.drop_last() =~= ps.drop_last().update(i, e));
        lemma_pairs_update(ps.drop_last(), i, e);
        assert(pairs_map(qs) =~= pairs_map(ps).insert(e.0@, e.1@));
    }
}

proof fn lemma_pairs_push(ps: Seq<(String, String)>, e: (String, String))
    ensures
        pairs_map(ps.push(e)) == pairs_map(ps).insert(e.0@, e.1@),
{
    assert(ps.push(e).drop_last() =~= ps);
}

/// A keyed store: raw value text under each key.
///
/// {
///     "key": "value"
/// }
#[derive(Debug)]
pub struct JsonObject {
    keys: Vec<(String, String)>,
}

impl View for JsonObject {
    type V = Map<Seq<char>, Seq<char>>;

    open spec fn view(&self) -> Map<Seq<char>, Seq<char>> {
        pairs_map(self.pairs())
    }
}

impl JsonObject {
    /// The entries in the order in which they are written out.
    pub closed spec fn pairs(&self) -> Seq<(String, String)> {
        self.keys@
    }

    /// Each key stands in one entry only, so that each is written out once.
    pub open spec fn wf(&self) -> bool {
        keys_distinct(self.pairs())
    }

    /// Creates an empty keyed store, to be filled with `set`.
    pub fn empty() -> (r: JsonObject)
        ensures
            r@ == Map::<Seq<char>, Seq<char>>::empty(),
            r.pairs().len() == 0,
            r.wf(),
    {
        JsonObject { keys: Vec::new() }
    }

    /// The index of the last entry under `key`, if any.
    fn position(&self, key: &String) -> (r: Option<usize>)
        ensures
            r matches Some(i) ==> i < self.pairs().len() && self.pairs()[i as int].0@ == key@
                && forall|j: int| i < j < self.pairs().len() ==> self.pairs()[j].0@ != key@,
            r is None ==> forall|j: int| 0 <= j < self.pairs().len() ==> self.pairs()[j].0@ != key@,
    {
        let mut i: usize = self.keys.len();
        while i > 0
            invariant
                i <= self.keys@.len(),
                forall|j: int| i <= j < self.keys@.len() ==> self.keys@[j].0@ != key@,
            decreases i,
        {
            if self.keys[i - 1].0 == *key {
                return Some(i - 1);
            }
            i = i - 1;
        }
        None
    }

    /// Puts raw text under a key, replacing what the key held.
    fn put(&mut self, key: String, value: String)
        requires
            old(self).wf(),
        ensures
            final(self)@ == old(self)@.insert(key@, value@),
            final(self).wf(),
    {
        match self.position(&key) {
            Some(i) => {
                let ghost ps = self.keys@;
                proof {
                    lemma_pairs_update(ps, i as int, (key, value));
                }
                self.keys.set(i, (key, value));
                assert(self.keys@ == ps.update(i as int, (key, value)));
                assert(forall|j: int| 0 <= j < ps.len() ==> #[trigger] self.keys@[j].0@ == ps[j].0@);
            },
            None => {
                proof {
                    lemma_pairs_push(self.keys@, (key, value));
                }
                let ghost ps = self.keys@;
                self.keys.push((key, value));
                assert(forall|j: int| 0 <= j < ps.len() ==> #[trigger] self.keys@[j] == ps[j]);
            },
        }
    }

    /// Builds a keyed store from JSON text: each quote opens a key, and the value after
    /// its colon is scanned; a later key replaces an earlier one. Fails where the text
    /// ends inside a value.
    pub fn from_string(json: &str) -> (r: Result<JsonObject, JsonParseError>)
        ensures
            object_scan(json@, 0, Map::empty()) matches Some(m) ==> r matches Ok(o) && o@ == m
                && o.wf(),
            object_scan(json@, 0, Map::empty()) is None ==> r matches Err(
                JsonParseError::UnexpectedEndOfInput,
            ),
    {
        let s = chars_of(json);
        let mut obj = JsonObject::empty();
        let mut p: usize = 0;
        while p < s.len()
            invariant
                p <= s@.len(),
                s@ == json@,
                obj.wf(),
                object_scan(s@, p as int, obj@) == object_scan(s@, 0, Map::empty()),
            decreases s@.len() - p,
        {
            if s[p] != '"' {
                p = p + 1;
            } else {
                let mut q: usize = p + 1;
                proof {
                    lemma_find_from(s@, p + 1, '"');
                    lemma_find_from(s@, find_from(s@, p + 1, '"') + 1, ':');
                }
                let key = JsonDecoder::derive_key(&s, &mut q);
                proof {
                    lemma_scan_value_advances(s@, q as int);
                }
                match JsonDecoder::derive_value(&s, &mut q) {
                    None => {
                        return Err(JsonParseError::UnexpectedEndOfInput);
                    },
                    Some(v) => {
                        obj.put(key, v);
                        p = q;
                    },
                }
            }
        }
        Ok(obj)
    }

    /// Reads the value under `key` as a `T`; a key that is absent reaches `T` as no text.
    pub fn get<T: JsonRetrieve>(&self, key: &str) -> (r: Result<T, JsonParseError>)
        ensures
            T::parsed(key@, lookup(self@, key@), r),
    {
        let k = key.to_owned();
        match self.position(&k) {
            Some(i) => {
                proof {
                    lemma_pairs_last(self.pairs(), key@, i as int);
                }
                T::parse(k, Some(&self.keys[i].1))
            },
            None => {
                proof {
                    lemma_pairs_absent(self.pairs(), key@);
                }
                T::parse(k, None)
            },
        }
    }

    /// Puts the JSON text of `data` under `key`.
    pub fn set<T: ToJson>(&mut self, key: &str, data: T)
        requires
            old(self).wf(),
        ensures
            exists|t: Seq<char>| final(self)@ == old(self)@.insert(key@, t),
            data.text_known() ==> final(self)@ == old(self)@.insert(key@, data.json_text()),
            final(self).wf(),
    {
        self.put(key.to_owned(), data.to_json());
    }
}

impl Default for JsonObject {
    fn default() -> (r: JsonObject)
        ensures
            r@ == Map::<Seq<char>, Seq<char>>::empty(),
            r.wf(),
    {
        JsonObject::empty()
    }
}

impl ToJson for JsonObject {
    open spec fn text_known(&self) -> bool {
        true
    }

    open spec fn json_text(&self) -> Seq<char> {
        object_text(self.pairs())
    }

    fn to_json(&self) -> (r: String) {
        let ghost parts = self.pairs().map_values(|p: (String, String)| entry_text(p));
        let mut out = String::new();
        push_char(&mut out, '{');
        let mut i: usize = 0;
        assert(parts.take(0) =~= Seq::<Seq<char>>::empty());
        while i < self.keys.len()
            invariant
                i <= self.keys@.len(),
                parts == self.pairs().map_values(|p: (String, String)| entry_text(p)),
                self.pairs() == self.keys@,
                out@ == seq!['{'] + joined(parts.take(i as int)),
            decreases self.keys@.len() - i,
        {
            proof {
                lemma_joined_step(parts, i as int);
            }
            if i > 0 {
                push_char(&mut out, ',');
            }
            push_char(&mut out, '"');
            out.append(self.keys[i].0.as_str());
            push_char(&mut out, '"');
            push_char(&mut out, ':');
            out.append(self.keys[i].1.as_str());
            i = i + 1;
            assert(out@ =~= seq!['{'] + joined(parts.take(i as int)));
        }
        assert(parts.take(i as int) =~= parts);
        push_char(&mut out, '}');
        out
    }
}

/// An ordered store: raw value texts in the order met.
#[derive(Debug)]
pub struct JsonArray {
    values: Vec<String>,
}

impl View for JsonArray {
    type V = Seq<Seq<char>>;

    closed spec fn view(&self) -> Seq<Seq<char>> {
        self.values@.map_values(|s: String| s@)
    }
}

impl JsonArray {
    /// Creates an empty ordered store.
    pub fn empty() -> (r: JsonArray)
        ensures
            r@ == Seq::<Seq<char>>::empty(),
    {
        let r = JsonArray { values: Vec::new() };
        assert(r@ =~= Seq::<Seq<char>>::empty());
        r
    }

    /// Builds an ordered store from the text between an array's brackets, one value
    /// after another. Fails where the text ends inside a value.
    pub fn from_string(json: &str) -> (r: Result<JsonArray, JsonParseError>)
        ensures
            array_scan(json@, 0, Seq::empty()) matches Some(items) ==> r matches Ok(a) && a@
                == items,
            array_scan(json@, 0, Seq::empty()) is None ==> r matches Err(
                JsonParseError::UnexpectedEndOfInput,
            ),
    {
        let s = chars_of(json);
        let mut arr = JsonArray::empty();
        let mut p: usize = 0;
        while p < s.len()
            invariant
                p <= s@.len(),
                s@ == json@,
                array_scan(s@, p as int, arr@) == array_scan(s@, 0, Seq::empty()),
            decreases s@.len() - p,
        {
            let mut q: usize = p;
            proof {
                lemma_scan_value_advances(s@, p as int);
            }
            match JsonDecoder::derive_value(&s, &mut q) {
                None => {
                    return Err(JsonParseError::UnexpectedEndOfInput);
                },
                Some(v) => {
                    let ghost old_view = arr@;
                    arr.values.push(v);
                    assert(arr@ =~= old_view.push(v@));
                    p = q;
                },
            }
        }
        Ok(arr)
    }

    /// Reads the item at `index` as a `T`; an index out of range reaches `T` as no text.
    pub fn get<T: JsonRetrieve>(&self, index: usize) -> (r: Result<T, JsonParseError>)
        ensures
            T::parsed(
                index_label(index as int),
                if index < self@.len() {
                    Some(self@[index as int])
                } else {
                    None
                },
                r,
            ),
    {
        let label = dec_string(index as u64);
        if index < self.values.len() {
            T::parse(label, Some(&self.values[index]))
        } else {
            T::parse(label, None)
        }
    }

    /// Reads every item as a `T`, stopping at the first that does not read.
    pub fn map<T: JsonRetrieve>(&self) -> (r: Result<Vec<T>, JsonParseError>)
        ensures
            mapped_all::<T>(self@, r),
    {
        let mut build: Vec<T> = Vec::new();
        let mut i: usize = 0;
        while i < self.values.len()
            invariant
                i <= self@.len(),
                self@.len() == self.values@.len(),
                build@.len() == i,
                forall|k: int|
                    0 <= k < i ==> #[trigger] T::parsed(index_label(k), Some(self@[k]), Ok(build@[k])),
            decreases self@.len() - i,
        {
            let label = dec_string(i as u64);
            assert(self@[i as int] == self.values@[i as int]@);
            match T::parse(label, Some(&self.values[i])) {
                Ok(x) => {
                    build.push(x);
                },
                Err(e) => {
                    assert forall|k: int| 0 <= k < i implies #[trigger] reads::<T>(
                        index_label(k),
                        self@[k],
                    ) by {
                        assert(T::parsed(index_label(k), Some(self@[k]), Ok(build@[k])));
                    }
                    assert(T::parsed(index_label(i as int), Some(self@[i as int]), Err(e)));
                    return Err(e);
                },
            }
            i = i + 1;
        }
        Ok(build)
    }

    /// Reads every item as a `T`, leaving out those that do not read.
    pub fn map_drop<T: JsonRetrieve>(&self) -> (r: Vec<T>)
        ensures
            kept::<T>(self@, self@.len() as int, r@),
    {
        let mut build: Vec<T> = Vec::new();
        let mut i: usize = 0;
        while i < self.values.len()
            invariant
                i <= self@.len(),
                self@.len() == self.values@.len(),
                kept::<T>(self@, i as int, build@),
            decreases self@.len() - i,
        {
            let label = dec_string(i as u64);
            assert(self@[i as int] == self.values@[i as int]@);
            let ghost before = build@;
            match T::parse(label, Some(&self.values[i])) {
                Ok(x) => {
                    build.push(x);
                    assert(build@.drop_last() =~= before);
                },
                Err(e) => {
                },
            }
            i = i + 1;
        }
        build
    }
}

impl Default for JsonArray {
    fn default() -> (r: JsonArray)
        ensures
            r@ == Seq::<Seq<char>>::empty(),
    {
        JsonArray::empty()
    }
}

impl ToJson for JsonArray {
    open spec fn text_known(&self) -> bool {
        true
    }

    open spec fn json_text(&self) -> Seq<char> {
        array_text(self@)
    }

    fn to_json(&self) -> (r: String) {
        let mut out = String::new();
        push_char(&mut out, '[');
        let mut i: usize = 0;
        assert(self@.take(0) =~= Seq::<Seq<char>>::empty());
        while i < self.values.len()
            invariant
                i <= self@.len(),
                self@.len() == self.values@.len(),
                out@ == seq!['['] + joined(self@.take(i as int)),
            decreases self@.len() - i,
        {
            proof {
                lemma_joined_step(self@, i as int);
            }
            if i > 0 {
                push_char(&mut out, ',');
            }
            assert(self@[i as int] == self.values@[i as int]@);
            out.append(self.values[i].as_str());
            i = i + 1;
            assert(out@ =~= seq!['['] + joined(self@.take(i as int)));
        }
        assert(self@.take(i as int) =~= self@);
        push_char(&mut out, ']');
        out
    }
}

} // verus!
