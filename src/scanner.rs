use vstd::prelude::*;
use crate::classify::{closes_level, ends_kind, kind_of, opens_level, JsonType};

verus! {

/// The first index at or after `p` that holds `c`, or the length of `s`.
pub open spec fn find_from(s: Seq<char>, p: int, c: char) -> int
    decreases s.len() - p,
{
    if p >= s.len() {
        s.len() as int
    } else if s[p] == c {
        p
    } else {
        find_from(s, p + 1, c)
    }
}

/// The first index at or after `p` that is neither a blank nor a comma, or the length of `s`.
pub open spec fn value_start(s: Seq<char>, p: int) -> int
    decreases s.len() - p,
{
    if p >= s.len() {
        s.len() as int
    } else if !is_blank(s[p]) && s[p] != ',' {
        p
    } else {
        value_start(s, p + 1)
    }
}

pub open spec fn is_blank(c: char) -> bool {
    c == ' ' || c == '\n' || c == '\t'
}

/// The last stored character, or `_` when nothing is stored yet.
pub open spec fn last_or_mark(buf: Seq<char>) -> char {
    if buf.len() > 0 {
        buf.last()
    } else {
        '_'
    }
}

/// The key that starts at `p` (just after its opening quote): everything up to the next quote.
pub open spec fn key_at(s: Seq<char>, p: int) -> Seq<char> {
    s.subrange(p, find_from(s, p, '"'))
}

/// Where reading resumes after the key at `p`: just past the colon that follows it.
pub open spec fn after_key(s: Seq<char>, p: int) -> int {
    let q = find_from(s, p, '"');
    if q >= s.len() {
        s.len() as int
    } else {
        let c = find_from(s, q + 1, ':');
        if c >= s.len() {
            s.len() as int
        } else {
            c + 1
        }
    }
}

/// The rest of a value scan from index `j`, with kind `k`, nesting count `depth`,
/// the text stored so far, and whether the cursor stands inside quoted text.
/// Gives the stored text and the index just past the last character consumed,
/// or `None` where the input ends before a string, object or array closes.
pub open spec fn scan_rest(
    s: Seq<char>,
    j: int,
    k: JsonType,
    depth: int,
    buf: Seq<char>,
    quoted: bool,
) -> Option<(Seq<char>, int)>
    decreases s.len() - j,
{
    if j >= s.len() || j < 0 {
        if k == JsonType::Primitive {
            Some((buf, s.len() as int))
        } else {
            None
        }
    } else {
        let c = s[j];
        let prev = last_or_mark(buf);
        if depth <= 1 && !quoted && is_blank(c) {
            scan_rest(s, j + 1, k, depth, buf, quoted)
        } else {
            let d = if opens_level(k, prev, c, depth) {
                depth + 1
            } else if closes_level(k, prev, c, depth) {
                depth - 1
            } else {
                depth
            };
            if d == 0 && ends_kind(k, c) {
                Some((buf, j + 1))
            } else {
                let q = if c == '"' && prev != '\\' {
                    !quoted
                } else {
                    quoted
                };
                scan_rest(s, j + 1, k, d, buf.push(c), q)
            }
        }
    }
}

/// The raw text of the value that starts at or after `p`, and the index where reading resumes.
/// Blanks and commas before the value are passed over; its first character gives its kind.
/// A string, object or array opens with its delimiter, which is consumed without being
/// stored, at nesting count one; a primitive keeps its first character and stands at
/// count zero, so that it closes at the first `,`, `}` or `]`.
pub open spec fn scan_value(s: Seq<char>, p: int) -> Option<(Seq<char>, int)> {
    let i = value_start(s, p);
    if i >= s.len() {
        None
    } else {
        let k = kind_of(s[i]);
        if k == JsonType::Primitive {
            scan_rest(s, i, k, 0, Seq::empty(), false)
        } else {
            scan_rest(s, i + 1, k, 1, Seq::empty(), k == JsonType::String)
        }
    }
}

pub proof fn lemma_find_from(s: Seq<char>, p: int, c: char)
    requires
        0 <= p,
    ensures
        p <= find_from(s, p, c) || (p > s.len() && find_from(s, p, c) == s.len()),
        find_from(s, p, c) <= s.len(),
        find_from(s, p, c) < s.len() ==> s[find_from(s, p, c)] == c,
        forall|i: int| p <= i < find_from(s, p, c) ==> s[i] != c,
    decreases s.len() - p,
{
    if p < s.len() && s[p] != c {
        lemma_find_from(s, p + 1, c);
    }
}

pub proof fn lemma_value_start(s: Seq<char>, p: int)
    requires
        0 <= p <= s.len(),
    ensures
        p <= value_start(s, p) <= s.len(),
        value_start(s, p) < s.len() ==> !is_blank(s[value_start(s, p)]) && s[value_start(s, p)]
            != ',',
    decreases s.len() - p,
{
    if p < s.len() && !(!is_blank(s[p]) && s[p] != ',') {
        lemma_value_start(s, p + 1);
    }
}

pub proof fn lemma_scan_rest_advances(
    s: Seq<char>,
    j: int,
    k: JsonType,
    depth: int,
    buf: Seq<char>,
    quoted: bool,
)
    requires
        0 <= j <= s.len(),
    ensures
        scan_rest(s, j, k, depth, buf, quoted) matches Some(r) ==> j <= r.1 <= s.len() && (j
            < s.len() ==> j < r.1),
    decreases s.len() - j,
{
    if j < s.len() {
        let c = s[j];
        let prev = last_or_mark(buf);
        if depth <= 1 && !quoted && is_blank(c) {
            lemma_scan_rest_advances(s, j + 1, k, depth, buf, quoted);
        } else {
            let d = if opens_level(k, prev, c, depth) {
                depth + 1
            } else if closes_level(k, prev, c, depth) {
                depth - 1
            } else {
                depth
            };
            let q = if c == '"' && prev != '\\' {
                !quoted
            } else {
                quoted
            };
            lemma_scan_rest_advances(s, j + 1, k, d, buf.push(c), q);
        }
    }
}

/// A value scan that succeeds consumes at least one character.
pub proof fn lemma_scan_value_advances(s: Seq<char>, p: int)
    requires
        0 <= p <= s.len(),
    ensures
        scan_value(s, p) matches Some(r) ==> p < r.1 <= s.len(),
{
    lemma_value_start(s, p);
    let i = value_start(s, p);
    if i < s.len() {
        let k = kind_of(s[i]);
        if k == JsonType::Primitive {
            lemma_scan_rest_advances(s, i, k, 0, Seq::empty(), false);
        } else {
            lemma_scan_rest_advances(s, i + 1, k, 1, Seq::empty(), k == JsonType::String);
        }
    }
}

/// Relies on `String::push`: appends one character.
#[verifier::external_body]
pub(crate) fn push_char(s: &mut String, c: char)
    ensures
        final(s)@ == old(s)@.push(c),
{
    s.push(c)
}

/// The characters of `s`, one by one.
pub fn chars_of(s: &str) -> (r: Vec<char>)
    ensures
        r@ == s@,
{
    let n = s.unicode_len();
    let mut out: Vec<char> = Vec::new();
    let mut i: usize = 0;
    while i < n
        invariant
            n == s@.len(),
            i <= n,
            out@ == s@.subrange(0, i as int),
        decreases n - i,
    {
        out.push(s.get_char(i));
        i = i + 1;
        assert(out@ =~= s@.subrange(0, i as int));
    }
    assert(out@ =~= s@);
    out
}

/// A `String` holding the characters `v[from..to]`.
pub fn string_of(v: &Vec<char>, from: usize, to: usize) -> (r: String)
    requires
        from <= to <= v@.len(),
    ensures
        r@ == v@.subrange(from as int, to as int),
{
    let mut out = String::new();
    let mut i: usize = from;
    while i < to
        invariant
            from <= i <= to <= v@.len(),
            out@ == v@.subrange(from as int, i as int),
        decreases to - i,
    {
        push_char(&mut out, v[i]);
        i = i + 1;
        assert(out@ =~= v@.subrange(from as int, i as int));
    }
    out
}

/// The two scanner entry points, over the characters of the input and a cursor into them.
pub struct JsonDecoder;

impl JsonDecoder {
/// Reads the key that starts at `pos` and moves `pos` past the colon that follows it.
pub fn derive_key(s: &Vec<char>, pos: &mut usize) -> (r: String)
    requires
        *old(pos) <= s@.len(),
    ensures
        r@ == key_at(s@, *old(pos) as int),
        *final(pos) as int == after_key(s@, *old(pos) as int),
{
    let start = *pos;
    proof {
        lemma_find_from(s@, start as int, '"');
    }
    let mut i: usize = start;
    while i < s.len() && s[i] != '"'
        invariant
            start <= i <= s@.len(),
            find_from(s@, i as int, '"') == find_from(s@, start as int, '"'),
        decreases s@.len() - i,
    {
        i = i + 1;
    }
    let key = string_of(s, start, i);
    if i >= s.len() {
        *pos = i;
        return key;
    }
    let q = i;
    i = i + 1;
    proof {
        lemma_find_from(s@, i as int, ':');
    }
    while i < s.len() && s[i] != ':'
        invariant
            q < i <= s@.len(),
            find_from(s@, i as int, ':') == find_from(s@, q + 1, ':'),
        decreases s@.len() - i,
    {
        i = i + 1;
    }
    if i < s.len() {
        i = i + 1;
    }
    *pos = i;
    key
}

/// Reads the raw text of the value at or after `pos` and moves `pos` past it.
/// Gives `None` exactly where the input ends first (see `scan_value`).
pub fn derive_value(s: &Vec<char>, pos: &mut usize) -> (r: Option<String>)
    requires
        *old(pos) <= s@.len(),
    ensures
        scan_value(s@, *old(pos) as int) is None ==> r is None && *final(pos) == *old(pos),
        scan_value(s@, *old(pos) as int) matches Some(v) ==> r is Some && r->0@ == v.0
            && *final(pos) as int == v.1,
{
    let start = *pos;
    let n = s.len();
    let mut i: usize = start;
    while i < n && (s[i] == ' ' || s[i] == '\n' || s[i] == '\t' || s[i] == ',')
        invariant
            start <= i <= n == s@.len(),
            value_start(s@, i as int) == value_start(s@, start as int),
        decreases n - i,
    {
        i = i + 1;
    }
    if i >= n {
        return None;
    }
    let kind = JsonType::type_for_delimiter(s[i]);
    let primitive = kind == JsonType::Primitive;
    let ghost first = i + 1;
    let mut depth: usize = if primitive {
        0
    } else {
        1
    };
    let mut buf: Vec<char> = Vec::new();
    let mut quoted: bool = kind == JsonType::String;
    let mut j: usize = if primitive {
        i
    } else {
        i + 1
    };
    while j < n
        invariant
            n == s@.len(),
            1 <= first <= j + 1,
            j <= n,
            start == *old(pos),
            *pos == *old(pos),
            primitive == (kind == JsonType::Primitive),
            primitive ==> depth == 0,
            !primitive ==> first <= j && 1 <= depth <= j - first + 1,
            scan_rest(s@, j as int, kind, depth as int, buf@, quoted) == scan_value(
                s@,
                start as int,
            ),
        decreases n - j,
    {
        let c = s[j];
        let prev = if buf.len() > 0 {
            buf[buf.len() - 1]
        } else {
            '_'
        };
        assert(prev == last_or_mark(buf@));
        if depth <= 1 && !quoted && (c == ' ' || c == '\n' || c == '\t') {
            j = j + 1;
        } else {
            let mut d = depth;
            if kind.should_increment(prev, c, depth) {
                d = depth + 1;
            } else if kind.should_decrement(prev, c, depth) {
                d = depth - 1;
            }
            if d == 0 && kind.character_ends_type(c) {
                *pos = j + 1;
                assert(buf@.subrange(0, buf@.len() as int) =~= buf@);
                assert(scan_rest(s@, j as int, kind, depth as int, buf@, quoted) == Some(
                    (buf@, j + 1),
                ));
                return Some(string_of(&buf, 0, buf.len()));
            }
            if c == '"' && prev != '\\' {
                quoted = !quoted;
            }
            buf.push(c);
            j = j + 1;
            assert(!primitive ==> d >= 1) by {
                if d == 0 && !primitive {
                    assert(closes_level(kind, prev, c, depth as int));
                }
            }
            depth = d;
        }
    }
    assert(buf@.subrange(0, buf@.len() as int) =~= buf@);
    assert(scan_rest(s@, j as int, kind, depth as int, buf@, quoted) == if kind
        == JsonType::Primitive {
        Some((buf@, n as int))
    } else {
        None
    });
    if kind == JsonType::Primitive {
        *pos = n;
        Some(string_of(&buf, 0, buf.len()))
    } else {
        None
    }
}
}

} // verus!
