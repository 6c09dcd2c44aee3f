use vstd::prelude::*;
use crate::scanner::push_char;

verus! {

pub open spec fn digit_char(d: int) -> char {
    if d == 0 { '0' } else if d == 1 { '1' } else if d == 2 { '2' } else if d == 3 { '3' }
    else if d == 4 { '4' } else if d == 5 { '5' } else if d == 6 { '6' } else if d == 7 { '7' }
    else if d == 8 { '8' } else { '9' }
}

pub open spec fn is_digit(c: char) -> bool {
    '0' <= c && c <= '9'
}

pub open spec fn digit_value(c: char) -> int {
    c as int - '0' as int
}

/// The decimal digits of `n`, most significant first, without leading zeros.
pub open spec fn dec_text(n: nat) -> Seq<char>
    decreases n,
{
    if n < 10 {
        seq![digit_char(n as int)]
    } else {
        dec_text(n / 10).push(digit_char((n % 10) as int))
    }
}

/// The decimal text of an integer: a minus sign before the digits of a negative one.
pub open spec fn int_text(i: int) -> Seq<char> {
    if i < 0 {
        seq!['-'] + dec_text((-i) as nat)
    } else {
        dec_text(i as nat)
    }
}

pub open spec fn all_digits(s: Seq<char>) -> bool {
    forall|i: int| 0 <= i < s.len() ==> is_digit(#[trigger] s[i])
}

/// The number that a run of decimal digits denotes.
pub open spec fn digits_value(s: Seq<char>) -> int
    decreases s.len(),
{
    if s.len() == 0 {
        0
    } else {
        digits_value(s.drop_last()) * 10 + digit_value(s.last())
    }
}

/// How many sign characters open `s`: one where it starts with `-` or `+`.
pub open spec fn sign_len(s: Seq<char>) -> int {
    if s.len() > 0 && (s[0] == '-' || s[0] == '+') {
        1
    } else {
        0
    }
}

/// The integer that `s` denotes in Rust's grammar for integers: an optional sign
/// and at least one decimal digit, nothing else.
pub open spec fn int_of_text(s: Seq<char>) -> Option<int> {
    let b = s.skip(sign_len(s));
    if b.len() > 0 && all_digits(b) {
        Some(
            if sign_len(s) == 1 && s[0] == '-' {
                -digits_value(b)
            } else {
                digits_value(b)
            },
        )
    } else {
        None
    }
}

/// `int_of_text`, where the number lies in `lo..=hi`.
pub open spec fn int_in_range(s: Seq<char>, lo: int, hi: int) -> Option<int> {
    match int_of_text(s) {
        Some(v) => if lo <= v <= hi {
            Some(v)
        } else {
            None
        },
        None => None,
    }
}

pub open spec fn needs_escape(c: char) -> bool {
    c == '\\' || c == '"' || c == '\n' || c == '\t'
}

/// How one character is written inside quoted text.
pub open spec fn escape_char(c: char) -> Seq<char> {
    if c == '\\' {
        seq!['\\', '\\']
    } else if c == '"' {
        seq!['\\', '"']
    } else if c == '\n' {
        seq!['\\', 'n']
    } else if c == '\t' {
        seq!['\\', 't']
    } else {
        seq![c]
    }
}

/// Text with backslash, quote, newline and tab escaped.
pub open spec fn escape(s: Seq<char>) -> Seq<char>
    decreases s.len(),
{
    if s.len() == 0 {
        Seq::empty()
    } else {
        escape_char(s[0]) + escape(s.skip(1))
    }
}

/// The character that an escape `\x` stands for, where `x` is one of the four escapes.
pub open spec fn unescaped(x: char) -> char {
    if x == 'n' {
        '\n'
    } else if x == 't' {
        '\t'
    } else {
        x
    }
}

pub open spec fn is_escape_letter(x: char) -> bool {
    x == '\\' || x == '"' || x == 'n' || x == 't'
}

/// Text with the four escapes decoded; any other backslash stays as it is.
pub open spec fn unescape(s: Seq<char>) -> Seq<char>
    decreases s.len(),
{
    if s.len() == 0 {
        Seq::empty()
    } else if s.len() >= 2 && s[0] == '\\' && is_escape_letter(s[1]) {
        seq![unescaped(s[1])] + unescape(s.skip(2))
    } else {
        seq![s[0]] + unescape(s.skip(1))
    }
}

pub proof fn lemma_dec_text_digits(n: nat)
    ensures
        all_digits(dec_text(n)),
        dec_text(n).len() > 0,
        digits_value(dec_text(n)) == n,
    decreases n,
{
    lemma_digit_char((n % 10) as int);
    if n < 10 {
        let s = dec_text(n);
        assert(s == seq![digit_char(n as int)]);
        assert(s.drop_last() =~= Seq::<char>::empty());
        assert(digits_value(s.drop_last()) == 0);
        assert(s.last() == digit_char(n as int));
        assert(digits_value(s) == digits_value(s.drop_last()) * 10 + digit_value(s.last()));
    } else {
        lemma_dec_text_digits(n / 10);
        let s = dec_text(n);
        assert(s.drop_last() =~= dec_text(n / 10));
        assert(s.last() == digit_char((n % 10) as int));
        assert(digits_value(s) == digits_value(dec_text(n / 10)) * 10 + digit_value(s.last()));
        assert(n == (n / 10) * 10 + n % 10);
    }
}

proof fn lemma_digit_char(d: int)
    requires
        0 <= d < 10,
    ensures
        is_digit(digit_char(d)),
        digit_value(digit_char(d)) == d,
{
}

/// Reading the decimal text of an integer gives the integer back.
pub proof fn lemma_int_text_round_trip(i: int)
    ensures
        int_of_text(int_text(i)) == Some(i),
{
    if i < 0 {
        lemma_dec_text_digits((-i) as nat);
        assert((seq!['-'] + dec_text((-i) as nat)).skip(1) =~= dec_text((-i) as nat));
    } else {
        lemma_dec_text_digits(i as nat);
        let s = dec_text(i as nat);
        assert(is_digit(s[0]));
        assert(s.skip(0) =~= s);
    }
}

proof fn lemma_escape_push(s: Seq<char>, c: char)
    ensures
        escape(s.push(c)) == escape(s) + escape_char(c),
    decreases s.len(),
{
    if s.len() == 0 {
        assert(s.push(c).skip(1) =~= Seq::<char>::empty());
        assert(escape(s.push(c)) =~= escape_char(c) + escape(Seq::<char>::empty()));
        assert(escape(s) + escape_char(c) =~= escape_char(c));
    } else {
        assert(s.push(c).skip(1) =~= s.skip(1).push(c));
        lemma_escape_push(s.skip(1), c);
        assert(escape(s.push(c)) =~= escape_char(s[0]) + escape(s.skip(1).push(c)));
    }
}

/// Decoding escaped text gives back the text that was escaped.
pub proof fn lemma_escape_round_trip(s: Seq<char>)
    ensures
        unescape(escape(s)) == s,
    decreases s.len(),
{
    if s.len() > 0 {
        let e = escape(s);
        let rest = escape(s.skip(1));
        lemma_escape_round_trip(s.skip(1));
        if needs_escape(s[0]) {
            assert(e.skip(2) =~= rest);
        } else {
            assert(e.skip(1) =~= rest);
        }
        assert(seq![s[0]] + s.skip(1) =~= s);
    }
}

pub fn digit_of(d: u64) -> (c: char)
    requires
        d < 10,
    ensures
        c == digit_char(d as int),
{
    if d == 0 { '0' } else if d == 1 { '1' } else if d == 2 { '2' } else if d == 3 { '3' }
    else if d == 4 { '4' } else if d == 5 { '5' } else if d == 6 { '6' } else if d == 7 { '7' }
    else if d == 8 { '8' } else { '9' }
}

/// Appends the decimal digits of `n`.
pub fn write_dec(out: &mut String, n: u64)
    ensures
        final(out)@ == old(out)@ + dec_text(n as nat),
    decreases n,
{
    if n >= 10 {
        write_dec(out, n / 10);
    }
    push_char(out, digit_of(n % 10));
    proof {
        if n < 10 {
            assert(dec_text(n as nat) =~= seq![digit_char(n as int)]);
        }
    }
}

/// The decimal text of `n`.
pub fn dec_string(n: u64) -> (r: String)
    ensures
        r@ == dec_text(n as nat),
{
    let mut out = String::new();
    write_dec(&mut out, n);
    out
}

/// The decimal text of a signed integer.
pub fn int_string(n: i64) -> (r: String)
    ensures
        r@ == int_text(n as int),
{
    let mut out = String::new();
    if n < 0 {
        push_char(&mut out, '-');
        let m: u64 = if n == i64::MIN {
            9223372036854775808u64
        } else {
            (-n) as u64
        };
        write_dec(&mut out, m);
    } else {
        write_dec(&mut out, n as u64);
    }
    out
}

proof fn lemma_digits_value_prefix(s: Seq<char>, i: int)
    requires
        0 <= i < s.len(),
    ensures
        digits_value(s.take(i + 1)) == digits_value(s.take(i)) * 10 + digit_value(s[i]),
{
    assert(s.take(i + 1).drop_last() =~= s.take(i));
}

proof fn lemma_digits_value_grows(s: Seq<char>, i: int)
    requires
        0 <= i <= s.len(),
        all_digits(s),
    ensures
        digits_value(s.take(i)) <= digits_value(s),
        digits_value(s.take(i)) >= 0,
    decreases s.len() - i,
{
    if i < s.len() {
        lemma_digits_value_prefix(s, i);
        assert(is_digit(s[i]));
        lemma_digits_value_grows(s, i + 1);
    } else {
        assert(s.take(i) =~= s);
        lemma_digits_nonneg(s);
    }
}

proof fn lemma_digits_nonneg(s: Seq<char>)
    requires
        all_digits(s),
    ensures
        digits_value(s) >= 0,
    decreases s.len(),
{
    if s.len() > 0 {
        assert(all_digits(s.drop_last()) && is_digit(s.last()));
        lemma_digits_nonneg(s.drop_last());
    }
}

/// Reads an integer in Rust's grammar, where it lies in `-neg_limit..=pos_limit`.
pub fn parse_int(t: &Vec<char>, neg_limit: u64, pos_limit: u64) -> (r: Option<i128>)
    requires
        9 <= pos_limit <= neg_limit <= 9223372036854775808u64,
    ensures
        r matches Some(v) ==> int_in_range(t@, -(neg_limit as int), pos_limit as int) == Some(
            v as int,
        ),
        r is None ==> int_in_range(t@, -(neg_limit as int), pos_limit as int) is None,
{
    let n = t.len();
    if n == 0 {
        return None;
    }
    let signed = t[0] == '-' || t[0] == '+';
    let neg = t[0] == '-';
    let start: usize = if signed {
        1
    } else {
        0
    };
    if start >= n {
        return None;
    }
    let ghost b = t@.skip(start as int);
    let limit: u128 = if neg {
        neg_limit as u128
    } else {
        pos_limit as u128
    };
    let mut acc: u128 = 0;
    let mut i: usize = start;
    while i < n
        invariant
            start <= i <= n == t@.len(),
            b == t@.skip(start as int),
            b.len() > 0,
            start as int == sign_len(t@),
            neg == (t@[0] == '-'),
            limit == if neg {
                neg_limit as u128
            } else {
                pos_limit as u128
            },
            acc <= limit <= 9223372036854775808u64,
            forall|k: int| 0 <= k < i - start ==> is_digit(#[trigger] b[k]),
            acc as int == digits_value(b.take(i - start)),
        decreases n - i,
    {
        let c = t[i];
        if !('0' <= c && c <= '9') {
            assert(!is_digit(b[i - start]));
            assert(!all_digits(b));
            return None;
        }
        let d = (c as u32 - '0' as u32) as u128;
        proof {
            lemma_digits_value_prefix(b, i - start);
        }
        let next = acc * 10 + d;
        if next > limit {
            proof {
                assert(all_digits(b) ==> digits_value(b) > limit) by {
                    if all_digits(b) {
                        lemma_digits_value_grows(b, i - start + 1);
                    }
                }
                assert(int_in_range(t@, -(neg_limit as int), pos_limit as int) is None);
            }
            return None;
        }
        acc = next;
        i = i + 1;
    }
    assert(b.take(n - start) =~= b);
    assert(all_digits(b));
    if neg {
        Some(-(acc as i128))
    } else {
        Some(acc as i128)
    }
}

/// Writes `s` with backslash, quote, newline and tab escaped.
pub fn escape_string(s: &Vec<char>, out: &mut String)
    ensures
        final(out)@ == old(out)@ + escape(s@),
{
    let ghost base = out@;
    let mut i: usize = 0;
    assert(s@.take(0) =~= Seq::<char>::empty());
    while i < s.len()
        invariant
            i <= s@.len(),
            out@ == base + escape(s@.take(i as int)),
        decreases s@.len() - i,
    {
        let c = s[i];
        if c == '\\' {
            push_char(out, '\\');
            push_char(out, '\\');
        } else if c == '"' {
            push_char(out, '\\');
            push_char(out, '"');
        } else if c == '\n' {
            push_char(out, '\\');
            push_char(out, 'n');
        } else if c == '\t' {
            push_char(out, '\\');
            push_char(out, 't');
        } else {
            push_char(out, c);
        }
        proof {
            lemma_escape_push(s@.take(i as int), c);
            assert(s@.take(i as int).push(c) =~= s@.take(i + 1));
            assert(out@ =~= base + escape(s@.take(i + 1)));
        }
        i = i + 1;
    }
    assert(s@.take(i as int) =~= s@);
}

/// Decodes the four escapes of `s`.
pub fn unescape_string(s: &Vec<char>) -> (r: String)
    ensures
        r@ == unescape(s@),
{
    let mut out = String::new();
    let n = s.len();
    let mut i: usize = 0;
    assert(s@.skip(0) =~= s@);
    while i < n
        invariant
            i <= n == s@.len(),
            out@ + unescape(s@.skip(i as int)) == unescape(s@),
        decreases n - i,
    {
        let ghost rest = s@.skip(i as int);
        if i + 1 < n && s[i] == '\\' && (s[i + 1] == '\\' || s[i + 1] == '"' || s[i + 1] == 'n'
            || s[i + 1] == 't') {
            let x = s[i + 1];
            let c = if x == 'n' {
                '\n'
            } else if x == 't' {
                '\t'
            } else {
                x
            };
            push_char(&mut out, c);
            proof {
                assert(rest.skip(2) =~= s@.skip(i + 2));
                assert(unescape(rest) == seq![c] + unescape(rest.skip(2)));
                assert(out@ + unescape(s@.skip(i + 2)) =~= unescape(s@));
            }
            i = i + 2;
        } else {
            push_char(&mut out, s[i]);
            proof {
                assert(rest.skip(1) =~= s@.skip(i + 1));
                assert(unescape(rest) == seq![s@[i as int]] + unescape(rest.skip(1)));
                assert(out@ + unescape(s@.skip(i + 1)) =~= unescape(s@));
            }
            i = i + 1;
        }
    }
    assert(unescape(s@.skip(n as int)) =~= Seq::<char>::empty());
    assert(out@ + Seq::<char>::empty() =~= out@);
    out
}

} // verus!
