//! The token-cache persistence format.
//!
//! A record is written as a sequence of length-prefixed text fields:
//! decimal numbers are terminated by a newline, string fields carry their
//! character count first, optional parts a `0`/`1` flag line. Parsing is
//! strict (canonical numbers, the whole input must be consumed) and is the
//! exact inverse of serialization, which is the round-trip law the cache
//! relies on.

use vstd::prelude::*;

verus! {

use vstd::string::StrSliceExecFns;
use crate::text::chars_of_str;
use crate::text::copy_range;
use crate::text::push_str_chars;
use crate::text::string_from_chars;
use crate::token::TokenRecord;
use crate::token::TokenRecordView;

// ---------------------------------------------------------------------
// Decimal numbers
// ---------------------------------------------------------------------

/// An ASCII decimal digit.
pub open spec fn is_digit(c: char) -> bool {
    48 <= c as u32 <= 57
}

/// The digit character for a value in `0 ..= 9`.
pub open spec fn digit_char(d: int) -> char
    recommends
        0 <= d <= 9,
{
    ((d + 48) as u8) as char
}

/// The value of a digit character.
pub open spec fn digit_val(c: char) -> int
    recommends
        is_digit(c),
{
    c as u32 - 48
}

/// Every character of `ds` is a digit.
pub open spec fn all_digits(ds: Seq<char>) -> bool {
    forall|k: int| 0 <= k < ds.len() ==> is_digit(#[trigger] ds[k])
}

/// The number denoted by a digit sequence, most significant digit first.
pub open spec fn digits_value(ds: Seq<char>) -> int
    decreases ds.len(),
{
    if ds.len() == 0 {
        0
    } else {
        digits_value(ds.drop_last()) * 10 + digit_val(ds.last())
    }
}

/// Powers of ten.
pub open spec fn pow10(k: int) -> int
    decreases k,
        when k >= 0
{
    if k <= 0 {
        1
    } else {
        10 * pow10(k - 1)
    }
}

/// The canonical decimal digits of `n`: most significant first, no
/// leading zeros.
pub open spec fn ser_nat(n: int) -> Seq<char>
    decreases n,
        when n >= 0
{
    if n < 10 {
        seq![digit_char(n)]
    } else {
        ser_nat(n / 10).push(digit_char(n % 10))
    }
}

/// First position at or after `i` holding a non-digit (or the end of `s`).
pub open spec fn digit_run_end(s: Seq<char>, i: int) -> int
    decreases s.len() - i,
        when 0 <= i <= s.len()
{
    if i < s.len() && is_digit(s[i]) {
        digit_run_end(s, i + 1)
    } else {
        i
    }
}

/// Parse a canonical decimal number at position `i`: at least one digit,
/// no redundant leading zero, value at most `u64::MAX`. Returns the value
/// and the position just past the digits.
pub open spec fn parse_nat(s: Seq<char>, i: int) -> Option<(int, int)>
    recommends
        0 <= i <= s.len(),
{
    let j = digit_run_end(s, i);
    if j == i {
        None
    } else if digit_val(s[i]) == 0 && j > i + 1 {
        None
    } else if digits_value(s.subrange(i, j)) > u64::MAX as int {
        None
    } else {
        Some((digits_value(s.subrange(i, j)), j))
    }
}

proof fn lemma_pow10_mono(a: int, b: int)
    requires
        0 <= a <= b,
    ensures
        1 <= pow10(a) <= pow10(b),
    decreases b,
{
    if a < b {
        lemma_pow10_mono(a, b - 1);
    } else {
        if a > 0 {
            lemma_pow10_mono(0, a - 1);
        }
    }
}

proof fn lemma_digits_value_bounds(ds: Seq<char>)
    requires
        all_digits(ds),
    ensures
        0 <= digits_value(ds) < pow10(ds.len() as int),
    decreases ds.len(),
{
    if ds.len() == 0 {
    } else {
        assert(all_digits(ds.drop_last())) by {
            assert(forall|k: int|
                0 <= k < ds.len() - 1 ==> #[trigger] ds.drop_last()[k] == ds[k]);
        }
        lemma_digits_value_bounds(ds.drop_last());
        assert(is_digit(ds.last()));
        lemma_pow10_mono(0, ds.len() - 1);
    }
}

proof fn lemma_digits_value_lower(ds: Seq<char>)
    requires
        all_digits(ds),
        ds.len() > 0,
        digit_val(ds[0]) >= 1,
    ensures
        digits_value(ds) >= pow10(ds.len() - 1),
    decreases ds.len(),
{
    if ds.len() == 1 {
        assert(ds.drop_last().len() == 0);
        assert(digits_value(ds.drop_last()) == 0);
    } else {
        assert(all_digits(ds.drop_last())) by {
            assert(forall|k: int|
                0 <= k < ds.len() - 1 ==> #[trigger] ds.drop_last()[k] == ds[k]);
        }
        assert(ds.drop_last()[0] == ds[0]);
        lemma_digits_value_lower(ds.drop_last());
        assert(is_digit(ds.last()));
        assert(pow10(ds.len() - 1) == 10 * pow10(ds.len() - 2));
    }
}

proof fn lemma_ser_nat(n: int)
    requires
        0 <= n,
    ensures
        all_digits(ser_nat(n)),
        digits_value(ser_nat(n)) == n,
        ser_nat(n).len() >= 1,
        digit_val(ser_nat(n)[0]) == 0 ==> n == 0,
        n == 0 ==> ser_nat(n).len() == 1,
    decreases n,
{
    if n < 10 {
        let c = digit_char(n);
        assert(c as u32 == n + 48);
        assert(ser_nat(n) =~= seq![c]);
        assert(ser_nat(n).drop_last() =~= Seq::<char>::empty());
        assert(digits_value(ser_nat(n).drop_last()) == 0);
        assert(digits_value(ser_nat(n)) == digits_value(ser_nat(n).drop_last()) * 10 + digit_val(
            ser_nat(n).last(),
        ));
    } else {
        lemma_ser_nat(n / 10);
        let c = digit_char(n % 10);
        assert(c as u32 == (n % 10) + 48);
        assert(ser_nat(n).drop_last() =~= ser_nat(n / 10));
        assert(ser_nat(n).last() == c);
        assert(ser_nat(n)[0] == ser_nat(n / 10)[0]);
        assert(digits_value(ser_nat(n)) == (n / 10) * 10 + (n % 10));
    }
}

proof fn lemma_digit_run_end_props(s: Seq<char>, i: int)
    requires
        0 <= i <= s.len(),
    ensures
        i <= digit_run_end(s, i) <= s.len(),
        forall|t: int| i <= t < digit_run_end(s, i) ==> is_digit(#[trigger] s[t]),
        digit_run_end(s, i) < s.len() ==> !is_digit(s[digit_run_end(s, i)]),
    decreases s.len() - i,
{
    if i < s.len() && is_digit(s[i]) {
        lemma_digit_run_end_props(s, i + 1);
    }
}

proof fn lemma_digit_run_end_of(s: Seq<char>, i: int, k: int)
    requires
        0 <= i <= k <= s.len(),
        forall|t: int| i <= t < k ==> is_digit(#[trigger] s[t]),
        k == s.len() || !is_digit(s[k]),
    ensures
        digit_run_end(s, i) == k,
    decreases k - i,
{
    if i < k {
        lemma_digit_run_end_of(s, i + 1, k);
    }
}

/// Parsing reads back exactly what `ser_nat` wrote, provided the next
/// character (if any) is not a digit.
proof fn lemma_parse_nat_at(s: Seq<char>, i: int, n: int)
    requires
        0 <= i,
        0 <= n <= u64::MAX as int,
        i + ser_nat(n).len() <= s.len(),
        s.subrange(i, i + ser_nat(n).len() as int) == ser_nat(n),
        i + ser_nat(n).len() == s.len() || !is_digit(s[i + ser_nat(n).len()]),
    ensures
        parse_nat(s, i) == Some((n, i + ser_nat(n).len() as int)),
{
    lemma_ser_nat(n);
    let d = ser_nat(n);
    let l = d.len() as int;
    assert forall|t: int| i <= t < i + l implies is_digit(#[trigger] s[t]) by {
        assert(s[t] == s.subrange(i, i + l)[t - i]);
    }
    lemma_digit_run_end_of(s, i, i + l);
    assert(s.subrange(i, i + l) =~= d);
    assert(s[i] == d[0]);
}

/// Exec twin of [`is_digit`].
fn is_digit_char(c: char) -> (r: bool)
    ensures
        r == is_digit(c),
{
    let u = c as u32;
    48 <= u && u <= 57
}

/// Exec twin of [`digit_run_end`].
fn scan_digits(v: &Vec<char>, start: usize) -> (r: usize)
    requires
        start <= v@.len(),
    ensures
        r == digit_run_end(v@, start as int),
        start <= r <= v@.len(),
{
    let mut i: usize = start;
    while i < v.len() && is_digit_char(v[i])
        invariant
            start <= i <= v@.len(),
            digit_run_end(v@, start as int) == digit_run_end(v@, i as int),
        decreases v@.len() - i,
    {
        i = i + 1;
    }
    i
}

/// Exec twin of [`parse_nat`].
fn p_nat(v: &Vec<char>, i: usize) -> (r: Option<(u64, usize)>)
    requires
        i <= v@.len(),
    ensures
        ({
            let sp = parse_nat(v@, i as int);
            match r {
                Some((n, j)) => sp == Some((n as int, j as int)) && i < j <= v@.len(),
                None => sp is None,
            }
        }),
{
    let j = scan_digits(v, i);
    proof {
        lemma_digit_run_end_props(v@, i as int);
    }
    if j == i {
        return None;
    }
    let d0 = (v[i] as u32) - 48;
    if d0 == 0 && j > i + 1 {
        return None;
    }
    if j - i > 20 {
        proof {
            lemma_digits_value_lower(v@.subrange(i as int, j as int));
            lemma_pow10_mono(20, j - i - 1);
            assert(pow10(20) == 100000000000000000000) by {
                reveal_with_fuel(pow10, 21);
            }
        }
        return None;
    }
    let ghost digits = v@.subrange(i as int, j as int);
    let mut acc: u128 = 0;
    let mut k: usize = i;
    proof {
        assert(pow10(20) == 100000000000000000000) by {
            reveal_with_fuel(pow10, 21);
        }
    }
    while k < j
        invariant
            i <= k <= j <= v@.len(),
            j - i <= 20,
            pow10(20) == 100000000000000000000,
            forall|t: int| i <= t < j ==> is_digit(#[trigger] v@[t]),
            acc as int == digits_value(v@.subrange(i as int, k as int)),
            (acc as int) < pow10(k - i),
        decreases j - k,
    {
        proof {
            assert(all_digits(v@.subrange(i as int, k as int + 1))) by {
                assert(forall|t: int|
                    0 <= t < k - i + 1 ==> #[trigger] v@.subrange(i as int, k as int + 1)[t]
                        == v@[i + t]);
            }
            lemma_digits_value_bounds(v@.subrange(i as int, k as int + 1));
            assert(v@.subrange(i as int, k as int + 1).drop_last() =~= v@.subrange(
                i as int,
                k as int,
            ));
            assert(v@.subrange(i as int, k as int + 1).last() == v@[k as int]);
            lemma_pow10_mono(k - i + 1, 20);
        }
        let d = ((v[k] as u32) - 48) as u128;
        acc = acc * 10 + d;
        k = k + 1;
    }
    proof {
        assert(v@.subrange(i as int, k as int) =~= digits);
    }
    if acc > u64::MAX as u128 {
        return None;
    }
    Some((acc as u64, j))
}

// ---------------------------------------------------------------------
// Fields and the record format
// ---------------------------------------------------------------------

/// Parse exactly the character `c` at position `i`.
pub open spec fn parse_lit(s: Seq<char>, i: int, c: char) -> Option<int> {
    if i < s.len() && s[i] == c {
        Some(i + 1)
    } else {
        None
    }
}

/// A string field: its character count, a newline, the characters
/// themselves, a closing newline.
pub open spec fn ser_str_field(f: Seq<char>) -> Seq<char> {
    ser_nat(f.len() as int) + seq!['\n'] + f + seq!['\n']
}

/// Parse a string field at position `i`.
pub open spec fn parse_str_field(s: Seq<char>, i: int) -> Option<(Seq<char>, int)> {
    match parse_nat(s, i) {
        Some((n, j)) => match parse_lit(s, j, '\n') {
            Some(k) => if k + n + 1 <= s.len() && s[k + n] == '\n' {
                Some((s.subrange(k, k + n), k + n + 1))
            } else {
                None
            },
            None => None,
        },
        None => None,
    }
}

/// An optional string field: a `0` flag line, or a `1` flag line followed
/// by the field.
pub open spec fn ser_opt_str(o: Option<Seq<char>>) -> Seq<char> {
    match o {
        None => seq!['0', '\n'],
        Some(f) => seq!['1', '\n'] + ser_str_field(f),
    }
}

/// Parse an optional string field at position `i`.
pub open spec fn parse_opt_str(s: Seq<char>, i: int) -> Option<(Option<Seq<char>>, int)> {
    if i < s.len() && s[i] == '0' {
        match parse_lit(s, i + 1, '\n') {
            Some(j) => Some((None, j)),
            None => None,
        }
    } else if i < s.len() && s[i] == '1' {
        match parse_lit(s, i + 1, '\n') {
            Some(j) => match parse_str_field(s, j) {
                Some((f, k)) => Some((Some(f), k)),
                None => None,
            },
            None => None,
        }
    } else {
        None
    }
}

/// A signed number: a minus sign for negative values, then the digits.
pub open spec fn ser_i64(v: int) -> Seq<char> {
    if v < 0 {
        seq!['-'] + ser_nat(-v)
    } else {
        ser_nat(v)
    }
}

/// Parse a signed number at position `i`; the value must lie in the
/// range of `i64` (and `-0` is not accepted).
pub open spec fn parse_i64(s: Seq<char>, i: int) -> Option<(int, int)> {
    if i < s.len() && s[i] == '-' {
        match parse_nat(s, i + 1) {
            Some((n, j)) => if n == 0 || -n < i64::MIN as int {
                None
            } else {
                Some((-n, j))
            },
            None => None,
        }
    } else {
        match parse_nat(s, i) {
            Some((n, j)) => if n > i64::MAX as int {
                None
            } else {
                Some((n, j))
            },
            None => None,
        }
    }
}

/// An optional signed number: a `0` flag line, or a `1` flag line
/// followed by the number and a newline.
pub open spec fn ser_opt_i64(o: Option<int>) -> Seq<char> {
    match o {
        None => seq!['0', '\n'],
        Some(v) => seq!['1', '\n'] + ser_i64(v) + seq!['\n'],
    }
}

/// Parse an optional signed number at position `i`.
pub open spec fn parse_opt_i64(s: Seq<char>, i: int) -> Option<(Option<int>, int)> {
    if i < s.len() && s[i] == '0' {
        match parse_lit(s, i + 1, '\n') {
            Some(j) => Some((None, j)),
            None => None,
        }
    } else if i < s.len() && s[i] == '1' {
        match parse_lit(s, i + 1, '\n') {
            Some(j) => match parse_i64(s, j) {
                Some((v, k)) => match parse_lit(s, k, '\n') {
                    Some(m) => Some((Some(v), m)),
                    None => None,
                },
                None => None,
            },
            None => None,
        }
    } else {
        None
    }
}

/// The scopes from index `k` on, each as a string field.
pub open spec fn ser_scope_list(ss: Seq<Seq<char>>, k: int) -> Seq<char>
    decreases ss.len() - k,
        when 0 <= k <= ss.len()
{
    if k == ss.len() {
        Seq::empty()
    } else {
        ser_str_field(ss[k]) + ser_scope_list(ss, k + 1)
    }
}

/// Parse `count` consecutive string fields at position `i`.
pub open spec fn parse_scope_list(s: Seq<char>, i: int, count: int) -> Option<
    (Seq<Seq<char>>, int),
>
    decreases count,
        when count >= 0
{
    if count <= 0 {
        Some((Seq::empty(), i))
    } else {
        match parse_str_field(s, i) {
            Some((f, j)) => match parse_scope_list(s, j, count - 1) {
                Some((fs, k)) => Some((seq![f] + fs, k)),
                None => None,
            },
            None => None,
        }
    }
}

/// The serialized form of a whole record: access token, optional refresh
/// token, optional expiry, scope count, scopes.
pub open spec fn ser_record(r: TokenRecordView) -> Seq<char> {
    ser_str_field(r.access_token) + ser_opt_str(r.refresh_token) + ser_opt_i64(r.expires_at)
        + ser_nat(r.scopes.len() as int) + seq!['\n'] + ser_scope_list(r.scopes, 0)
}

/// Parse a whole record: the entire input must be consumed and the
/// access token must be non-empty.
pub open spec fn parse_record_spec(s: Seq<char>) -> Option<TokenRecordView> {
    match parse_str_field(s, 0) {
        Some((access, i1)) => match parse_opt_str(s, i1) {
            Some((refresh, i2)) => match parse_opt_i64(s, i2) {
                Some((expires, i3)) => match parse_nat(s, i3) {
                    Some((count, i4)) => match parse_lit(s, i4, '\n') {
                        Some(i5) => match parse_scope_list(s, i5, count) {
                            Some((scopes, i6)) => if i6 == s.len() && access.len() > 0 {
                                Some(
                                    TokenRecordView {
                                        access_token: access,
                                        refresh_token: refresh,
                                        expires_at: expires,
                                        scopes: scopes,
                                    },
                                )
                            } else {
                                None
                            },
                            None => None,
                        },
                        None => None,
                    },
                    None => None,
                },
                None => None,
            },
            None => None,
        },
        None => None,
    }
}

/// Every variable-sized part of the record fits the format's 64-bit
/// numbers. Real records always do; the bound matters only for the
/// mathematical round-trip statement.
pub open spec fn bounded(r: TokenRecordView) -> bool {
    &&& r.access_token.len() <= u64::MAX
    &&& (match r.refresh_token {
        Some(t) => t.len() <= u64::MAX,
        None => true,
    })
    &&& (match r.expires_at {
        Some(e) => i64::MIN <= e <= i64::MAX,
        None => true,
    })
    &&& r.scopes.len() <= u64::MAX
    &&& (forall|k: int| 0 <= k < r.scopes.len() ==> #[trigger] r.scopes[k].len() <= u64::MAX)
}

/// If `s` holds `x + y` at position `i`, it holds `x` at `i` and `y`
/// just after it.
proof fn lemma_contains_concat(s: Seq<char>, i: int, x: Seq<char>, y: Seq<char>)
    requires
        0 <= i,
        i + x.len() + y.len() <= s.len(),
        s.subrange(i, i + (x + y).len() as int) == x + y,
    ensures
        s.subrange(i, i + x.len() as int) == x,
        s.subrange(i + x.len() as int, i + x.len() + y.len()) == y,
{
    let c = x + y;
    assert forall|t: int| 0 <= t < x.len() implies s.subrange(i, i + x.len() as int)[t] == x[t] by {
        assert(s.subrange(i, i + c.len() as int)[t] == c[t]);
    };
    assert(s.subrange(i, i + x.len() as int) =~= x);
    assert forall|t: int|
        0 <= t < y.len() implies s.subrange(i + x.len() as int, i + x.len() + y.len())[t] == y[t] by {
        assert(s.subrange(i, i + c.len() as int)[x.len() + t] == c[x.len() + t]);
    };
    assert(s.subrange(i + x.len() as int, i + x.len() + y.len()) =~= y);
}

/// If `s` holds `p` at position `i`, the character of `p` at `a` stands
/// in `s` at `i + a`.
proof fn lemma_contained_char(s: Seq<char>, i: int, p: Seq<char>, a: int)
    requires
        0 <= i,
        i + p.len() <= s.len(),
        s.subrange(i, i + p.len() as int) == p,
        0 <= a < p.len(),
    ensures
        s[i + a] == p[a],
{
    assert(s.subrange(i, i + p.len() as int)[a] == p[a]);
}

proof fn lemma_parse_str_field_at(s: Seq<char>, i: int, f: Seq<char>)
    requires
        0 <= i,
        f.len() <= u64::MAX,
        i + ser_str_field(f).len() <= s.len(),
        s.subrange(i, i + ser_str_field(f).len() as int) == ser_str_field(f),
    ensures
        parse_str_field(s, i) == Some((f, i + ser_str_field(f).len() as int)),
{
    lemma_ser_nat(f.len() as int);
    let d = ser_nat(f.len() as int);
    let nl = seq!['\n'];
    let ld = d.len() as int;
    let lf = f.len() as int;
    lemma_contains_concat(s, i, d + nl + f, nl);
    lemma_contains_concat(s, i, d + nl, f);
    lemma_contains_concat(s, i, d, nl);
    lemma_contained_char(s, i + ld, nl, 0);
    assert(s[i + ld] == '\n');
    assert(!is_digit('\n'));
    lemma_parse_nat_at(s, i, lf);
    let k = i + ld + 1;
    assert(parse_lit(s, i + ld, '\n') == Some(k));
    assert(s.subrange(k, k + lf) == f);
    lemma_contained_char(s, k + lf, nl, 0);
    assert(s[k + lf] == '\n');
}

proof fn lemma_parse_opt_str_at(s: Seq<char>, i: int, o: Option<Seq<char>>)
    requires
        0 <= i,
        (match o {
            Some(f) => f.len() <= u64::MAX,
            None => true,
        }),
        i + ser_opt_str(o).len() <= s.len(),
        s.subrange(i, i + ser_opt_str(o).len() as int) == ser_opt_str(o),
    ensures
        parse_opt_str(s, i) == Some((o, i + ser_opt_str(o).len() as int)),
{
    match o {
        None => {
            lemma_contained_char(s, i, ser_opt_str(o), 0);
            lemma_contained_char(s, i, ser_opt_str(o), 1);
            assert(s[i] == '0');
            assert(s[i + 1] == '\n');
        },
        Some(f) => {
            let flag = seq!['1', '\n'];
            lemma_contains_concat(s, i, flag, ser_str_field(f));
            lemma_contained_char(s, i, flag, 0);
            lemma_contained_char(s, i, flag, 1);
            assert(s[i] == '1');
            assert(s[i + 1] == '\n');
            lemma_parse_str_field_at(s, i + 2, f);
        },
    }
}

proof fn lemma_parse_i64_at(s: Seq<char>, i: int, v: int)
    requires
        0 <= i,
        i64::MIN as int <= v <= i64::MAX as int,
        i + ser_i64(v).len() <= s.len(),
        s.subrange(i, i + ser_i64(v).len() as int) == ser_i64(v),
        i + ser_i64(v).len() == s.len() || !is_digit(s[i + ser_i64(v).len()]),
    ensures
        parse_i64(s, i) == Some((v, i + ser_i64(v).len() as int)),
{
    if v < 0 {
        lemma_ser_nat(-v);
        let sign = seq!['-'];
        lemma_contains_concat(s, i, sign, ser_nat(-v));
        lemma_contained_char(s, i, sign, 0);
        assert(s[i] == '-');
        lemma_parse_nat_at(s, i + 1, -v);
    } else {
        lemma_ser_nat(v);
        lemma_contained_char(s, i, ser_i64(v), 0);
        assert(s[i] == ser_i64(v)[0]);
        assert(is_digit(s[i]));
        assert(s[i] != '-') by {
            if s[i] == '-' {
                assert(s[i] as u32 == 45);
            }
        }
        lemma_parse_nat_at(s, i, v);
    }
}

proof fn lemma_parse_opt_i64_at(s: Seq<char>, i: int, o: Option<int>)
    requires
        0 <= i,
        (match o {
            Some(v) => i64::MIN as int <= v <= i64::MAX as int,
            None => true,
        }),
        i + ser_opt_i64(o).len() <= s.len(),
        s.subrange(i, i + ser_opt_i64(o).len() as int) == ser_opt_i64(o),
    ensures
        parse_opt_i64(s, i) == Some((o, i + ser_opt_i64(o).len() as int)),
{
    match o {
        None => {
            lemma_contained_char(s, i, ser_opt_i64(o), 0);
            lemma_contained_char(s, i, ser_opt_i64(o), 1);
            assert(s[i] == '0');
            assert(s[i + 1] == '\n');
        },
        Some(v) => {
            let flag = seq!['1', '\n'];
            let nl = seq!['\n'];
            let lv = ser_i64(v).len() as int;
            lemma_contains_concat(s, i, flag + ser_i64(v), nl);
            lemma_contains_concat(s, i, flag, ser_i64(v));
            lemma_contained_char(s, i, flag, 0);
            lemma_contained_char(s, i, flag, 1);
            assert(s[i] == '1');
            assert(s[i + 1] == '\n');
            lemma_contained_char(s, i + 2 + lv, nl, 0);
            assert(s[i + 2 + lv] == '\n');
            assert(!is_digit('\n'));
            lemma_parse_i64_at(s, i + 2, v);
        },
    }
}

proof fn lemma_parse_scope_list_at(s: Seq<char>, i: int, ss: Seq<Seq<char>>, k: int)
    requires
        0 <= i,
        0 <= k <= ss.len(),
        forall|t: int| 0 <= t < ss.len() ==> #[trigger] ss[t].len() <= u64::MAX,
        i + ser_scope_list(ss, k).len() <= s.len(),
        s.subrange(i, i + ser_scope_list(ss, k).len() as int) == ser_scope_list(ss, k),
    ensures
        parse_scope_list(s, i, ss.len() - k) == Some(
            (ss.skip(k), i + ser_scope_list(ss, k).len() as int),
        ),
    decreases ss.len() - k,
{
    if k == ss.len() {
        assert(ss.skip(k) =~= Seq::<Seq<char>>::empty());
    } else {
        let fld = ser_str_field(ss[k]);
        let rest = ser_scope_list(ss, k + 1);
        lemma_contains_concat(s, i, fld, rest);
        lemma_parse_str_field_at(s, i, ss[k]);
        let j = i + fld.len() as int;
        lemma_parse_scope_list_at(s, j, ss, k + 1);
        assert(seq![ss[k]] + ss.skip(k + 1) =~= ss.skip(k));
    }
}

/// Offsets of the record pieces inside [`ser_record`].
spec fn off1(r: TokenRecordView) -> int {
    ser_str_field(r.access_token).len() as int
}

spec fn off2(r: TokenRecordView) -> int {
    off1(r) + ser_opt_str(r.refresh_token).len() as int
}

spec fn off3(r: TokenRecordView) -> int {
    off2(r) + ser_opt_i64(r.expires_at).len() as int
}

spec fn off4(r: TokenRecordView) -> int {
    off3(r) + ser_nat(r.scopes.len() as int).len() as int
}

proof fn lemma_record_layout(r: TokenRecordView)
    ensures
        ser_record(r).len() == off4(r) + 1 + ser_scope_list(r.scopes, 0).len(),
        ser_record(r).subrange(0, off1(r)) == ser_str_field(r.access_token),
        ser_record(r).subrange(off1(r), off2(r)) == ser_opt_str(r.refresh_token),
        ser_record(r).subrange(off2(r), off3(r)) == ser_opt_i64(r.expires_at),
        ser_record(r).subrange(off3(r), off4(r)) == ser_nat(r.scopes.len() as int),
        ser_record(r)[off4(r)] == '\n',
        ser_record(r).subrange(off4(r) + 1, ser_record(r).len() as int) == ser_scope_list(
            r.scopes,
            0,
        ),
{
    let s = ser_record(r);
    let a = ser_str_field(r.access_token);
    let b = ser_opt_str(r.refresh_token);
    let c = ser_opt_i64(r.expires_at);
    let d = ser_nat(r.scopes.len() as int);
    let nl = seq!['\n'];
    let f = ser_scope_list(r.scopes, 0);
    assert(s.subrange(0, s.len() as int) =~= s);
    lemma_contains_concat(s, 0, a + b + c + d + nl, f);
    lemma_contains_concat(s, 0, a + b + c + d, nl);
    lemma_contains_concat(s, 0, a + b + c, d);
    lemma_contains_concat(s, 0, a + b, c);
    lemma_contains_concat(s, 0, a, b);
    lemma_contained_char(s, off4(r), nl, 0);
}

/// The round-trip law of the cache format: parsing what was serialized
/// gives back exactly the record that was written, for every populated
/// record whose parts fit the format's 64-bit numbers.
pub proof fn lemma_record_round_trip(r: TokenRecordView)
    requires
        r.populated(),
        bounded(r),
    ensures
        parse_record_spec(ser_record(r)) == Some(r),
{
    let s = ser_record(r);
    let o1 = off1(r);
    let o2 = off2(r);
    let o3 = off3(r);
    let o4 = off4(r);
    let o5 = o4 + 1;
    let o6 = s.len() as int;
    lemma_record_layout(r);
    assert(parse_str_field(s, 0) == Some((r.access_token, o1))) by {
        lemma_record_layout(r);
        lemma_parse_str_field_at(s, 0, r.access_token);
    }
    assert(parse_opt_str(s, o1) == Some((r.refresh_token, o2))) by {
        lemma_record_layout(r);
        lemma_parse_opt_str_at(s, o1, r.refresh_token);
    }
    assert(parse_opt_i64(s, o2) == Some((r.expires_at, o3))) by {
        lemma_record_layout(r);
        lemma_parse_opt_i64_at(s, o2, r.expires_at);
    }
    assert(parse_nat(s, o3) == Some((r.scopes.len() as int, o4))) by {
        lemma_record_layout(r);
        lemma_ser_nat(r.scopes.len() as int);
        assert(!is_digit('\n'));
        lemma_parse_nat_at(s, o3, r.scopes.len() as int);
    }
    assert(parse_lit(s, o4, '\n') == Some(o5));
    assert(parse_scope_list(s, o5, r.scopes.len() as int) == Some((r.scopes, o6))) by {
        lemma_record_layout(r);
        lemma_parse_scope_list_at(s, o5, r.scopes, 0);
        assert(r.scopes.skip(0) =~= r.scopes);
    }
    assert(parse_record_spec(s) == Some(r));
}

/// Append the canonical decimal digits of `n`.
fn push_nat(out: &mut Vec<char>, n: u64)
    ensures
        final(out)@ == old(out)@ + ser_nat(n as int),
    decreases n,
{
    if n < 10 {
        out.push(((n as u8) + 48) as char);
        proof {
            assert(out@ =~= old(out)@ + ser_nat(n as int));
        }
    } else {
        push_nat(out, n / 10);
        out.push((((n % 10) as u8) + 48) as char);
        proof {
            assert(out@ =~= old(out)@ + ser_nat(n as int));
        }
    }
}


/// View of an optional chunk of characters.
pub open spec fn opt_chars_view(o: Option<Vec<char>>) -> Option<Seq<char>> {
    match o {
        Some(f) => Some(f@),
        None => None,
    }
}

/// Exec twin of [`parse_lit`].
fn p_lit(v: &Vec<char>, i: usize, c: char) -> (r: Option<usize>)
    requires
        i <= v@.len(),
    ensures
        ({
            let sp = parse_lit(v@, i as int, c);
            match r {
                Some(j) => sp == Some(j as int) && i < j <= v@.len(),
                None => sp is None,
            }
        }),
{
    if i < v.len() && v[i] == c {
        Some(i + 1)
    } else {
        None
    }
}

/// Exec twin of [`parse_str_field`].
fn p_str_field(v: &Vec<char>, i: usize) -> (r: Option<(Vec<char>, usize)>)
    requires
        i <= v@.len(),
    ensures
        ({
            let sp = parse_str_field(v@, i as int);
            match r {
                Some((f, j)) => sp == Some((f@, j as int)) && i < j <= v@.len(),
                None => sp is None,
            }
        }),
{
    match p_nat(v, i) {
        None => None,
        Some((n, j)) => match p_lit(v, j, '\n') {
            None => None,
            Some(k) => {
                let remaining = v.len() - k;
                if n >= remaining as u64 {
                    return None;
                }
                let n_us = n as usize;
                if v[k + n_us] != '\n' {
                    return None;
                }
                let f = copy_range(v, k, k + n_us);
                Some((f, k + n_us + 1))
            },
        },
    }
}

/// Exec twin of [`parse_opt_str`].
fn p_opt_str(v: &Vec<char>, i: usize) -> (r: Option<(Option<Vec<char>>, usize)>)
    requires
        i <= v@.len(),
    ensures
        ({
            let sp = parse_opt_str(v@, i as int);
            match r {
                Some((o, j)) => sp == Some((opt_chars_view(o), j as int)) && i < j <= v@.len(),
                None => sp is None,
            }
        }),
{
    if i < v.len() && v[i] == '0' {
        match p_lit(v, i + 1, '\n') {
            Some(j) => Some((None, j)),
            None => None,
        }
    } else if i < v.len() && v[i] == '1' {
        match p_lit(v, i + 1, '\n') {
            Some(j) => match p_str_field(v, j) {
                Some((f, k)) => Some((Some(f), k)),
                None => None,
            },
            None => None,
        }
    } else {
        None
    }
}

/// Exec twin of [`parse_i64`].
fn p_i64(v: &Vec<char>, i: usize) -> (r: Option<(i64, usize)>)
    requires
        i <= v@.len(),
    ensures
        ({
            let sp = parse_i64(v@, i as int);
            match r {
                Some((x, j)) => sp == Some((x as int, j as int)) && i < j <= v@.len(),
                None => sp is None,
            }
        }),
{
    if i < v.len() && v[i] == '-' {
        match p_nat(v, i + 1) {
            None => None,
            Some((n, j)) => {
                if n == 0 {
                    return None;
                }
                if n > 9223372036854775808u64 {
                    return None;
                }
                if n == 9223372036854775808u64 {
                    Some((i64::MIN, j))
                } else {
                    Some((-(n as i64), j))
                }
            },
        }
    } else {
        match p_nat(v, i) {
            None => None,
            Some((n, j)) => {
                if n > i64::MAX as u64 {
                    return None;
                }
                Some((n as i64, j))
            },
        }
    }
}

/// View of an optional expiry.
pub open spec fn opt_i64_view(o: Option<i64>) -> Option<int> {
    match o {
        Some(x) => Some(x as int),
        None => None,
    }
}

/// Exec twin of [`parse_opt_i64`].
fn p_opt_i64(v: &Vec<char>, i: usize) -> (r: Option<(Option<i64>, usize)>)
    requires
        i <= v@.len(),
    ensures
        ({
            let sp = parse_opt_i64(v@, i as int);
            match r {
                Some((o, j)) => sp == Some((opt_i64_view(o), j as int)) && i < j <= v@.len(),
                None => sp is None,
            }
        }),
{
    if i < v.len() && v[i] == '0' {
        match p_lit(v, i + 1, '\n') {
            Some(j) => Some((None, j)),
            None => None,
        }
    } else if i < v.len() && v[i] == '1' {
        match p_lit(v, i + 1, '\n') {
            Some(j) => match p_i64(v, j) {
                Some((x, k)) => match p_lit(v, k, '\n') {
                    Some(m) => Some((Some(x), m)),
                    None => None,
                },
                None => None,
            },
            None => None,
        }
    } else {
        None
    }
}

/// Exec twin of [`parse_scope_list`].
fn p_scope_list(v: &Vec<char>, i: usize, count: u64) -> (r: Option<(Vec<String>, usize)>)
    requires
        i <= v@.len(),
    ensures
        ({
            let sp = parse_scope_list(v@, i as int, count as int);
            match r {
                Some((ss, j)) => sp == Some((ss@.map_values(|x: String| x@), j as int)) && i <= j
                    <= v@.len(),
                None => sp is None,
            }
        }),
{
    let mut scopes: Vec<String> = Vec::new();
    let mut cur: usize = i;
    let mut idx: u64 = 0;
    while idx < count
        invariant
            idx <= count,
            i <= cur <= v@.len(),
            ({
                let rem = (count - idx) as int;
                match parse_scope_list(v@, cur as int, rem) {
                    Some((fs, k)) => parse_scope_list(v@, i as int, count as int) == Some(
                        (scopes@.map_values(|x: String| x@) + fs, k),
                    ),
                    None => parse_scope_list(v@, i as int, count as int) is None,
                }
            }),
        decreases count - idx,
    {
        let ghost rem = (count - idx) as int;
        let ghost prev = scopes@;
        match p_str_field(v, cur) {
            None => {
                return None;
            },
            Some((f, j)) => {
                let sc = string_from_chars(&f);
                scopes.push(sc);
                proof {
                    let fm = |x: String| x@;
                    assert(scopes@.map_values(fm) =~= prev.map_values(fm) + seq![f@]);
                    match parse_scope_list(v@, j as int, rem - 1) {
                        Some((fs2, k2)) => {
                            assert(parse_scope_list(v@, cur as int, rem) == Some(
                                (seq![f@] + fs2, k2),
                            ));
                            assert((prev.map_values(fm) + (seq![f@] + fs2)) =~= (prev.map_values(
                                fm,
                            ) + seq![f@]) + fs2);
                        },
                        None => {
                            assert(parse_scope_list(v@, cur as int, rem) is None);
                        },
                    }
                }
                cur = j;
                idx = idx + 1;
            },
        }
    }
    proof {
        let fm = |x: String| x@;
        assert(scopes@.map_values(fm) + Seq::<Seq<char>>::empty() =~= scopes@.map_values(fm));
    }
    Some((scopes, cur))
}

/// Parse a serialized record. Returns `None` exactly when
/// [`parse_record_spec`] rejects the contents.
pub fn parse_record(contents: &str) -> (r: Option<TokenRecord>)
    ensures
        ({
            let sp = parse_record_spec(contents@);
            match r {
                Some(rec) => sp == Some(rec@),
                None => sp is None,
            }
        }),
{
    let v = chars_of_str(contents);
    match p_str_field(&v, 0) {
        None => None,
        Some((access, i1)) => match p_opt_str(&v, i1) {
            None => None,
            Some((refresh, i2)) => match p_opt_i64(&v, i2) {
                None => None,
                Some((expires, i3)) => match p_nat(&v, i3) {
                    None => None,
                    Some((count, i4)) => match p_lit(&v, i4, '\n') {
                        None => None,
                        Some(i5) => match p_scope_list(&v, i5, count) {
                            None => None,
                            Some((scopes, i6)) => {
                                if i6 != v.len() {
                                    return None;
                                }
                                if access.len() == 0 {
                                    return None;
                                }
                                let rec = TokenRecord {
                                    access_token: string_from_chars(&access),
                                    refresh_token: match refresh {
                                        Some(f) => Some(string_from_chars(&f)),
                                        None => None,
                                    },
                                    expires_at: expires,
                                    scopes,
                                };
                                Some(rec)
                            },
                        },
                    },
                },
            },
        },
    }
}

/// Append a string field.
fn push_str_field(out: &mut Vec<char>, f: &str)
    ensures
        final(out)@ == old(out)@ + ser_str_field(f@),
        f@.len() <= u64::MAX,
{
    let len64 = f.unicode_len() as u64;
    push_nat(out, len64);
    out.push('\n');
    push_str_chars(out, f);
    out.push('\n');
    proof {
        assert(out@ =~= old(out)@ + ser_str_field(f@));
    }
}

/// Append a signed number.
fn push_i64(out: &mut Vec<char>, x: i64)
    ensures
        final(out)@ == old(out)@ + ser_i64(x as int),
{
    if x < 0 {
        out.push('-');
        let mag: u64 = ((-(x + 1)) as u64) + 1;
        proof {
            assert(mag as int == -(x as int));
        }
        push_nat(out, mag);
        proof {
            assert(out@ =~= old(out)@ + ser_i64(x as int));
        }
    } else {
        push_nat(out, x as u64);
        proof {
            assert(out@ =~= old(out)@ + ser_i64(x as int));
        }
    }
}

/// Serialize a record into the cache format. Also establishes that every
/// part of a real record fits the format's bounds.
pub fn serialize_record(rec: &TokenRecord) -> (s: String)
    ensures
        s@ == ser_record(rec@),
        bounded(rec@),
{
    let mut out: Vec<char> = Vec::new();
    push_str_field(&mut out, rec.access_token.as_str());
    let ghost c1 = ser_str_field(rec@.access_token);
    match &rec.refresh_token {
        None => {
            out.push('0');
            out.push('\n');
        },
        Some(t) => {
            out.push('1');
            out.push('\n');
            push_str_field(&mut out, t.as_str());
        },
    }
    let ghost c2 = c1 + ser_opt_str(rec@.refresh_token);
    proof {
        assert(out@ =~= c2);
    }
    match rec.expires_at {
        None => {
            out.push('0');
            out.push('\n');
        },
        Some(e) => {
            out.push('1');
            out.push('\n');
            push_i64(&mut out, e);
            out.push('\n');
        },
    }
    let ghost c3 = c2 + ser_opt_i64(rec@.expires_at);
    proof {
        assert(out@ =~= c3);
    }
    let nscopes = rec.scopes.len() as u64;
    push_nat(&mut out, nscopes);
    out.push('\n');
    let ghost base = c3 + ser_nat(rec@.scopes.len() as int) + seq!['\n'];
    proof {
        assert(rec@.scopes.len() == rec.scopes@.len());
        assert(out@ =~= base);
    }
    let mut k: usize = 0;
    while k < rec.scopes.len()
        invariant
            k <= rec.scopes@.len(),
            rec@.scopes.len() == rec.scopes@.len(),
            out@ + ser_scope_list(rec@.scopes, k as int) == base + ser_scope_list(rec@.scopes, 0),
            forall|t: int| 0 <= t < k ==> #[trigger] rec@.scopes[t].len() <= u64::MAX,
        decreases rec.scopes@.len() - k,
    {
        let ghost before = out@;
        push_str_field(&mut out, rec.scopes[k].as_str());
        proof {
            assert(rec@.scopes[k as int] == rec.scopes@[k as int]@);
            let fld = ser_str_field(rec@.scopes[k as int]);
            let rest = ser_scope_list(rec@.scopes, k as int + 1);
            assert(ser_scope_list(rec@.scopes, k as int) == fld + rest);
            assert((before + fld) + rest =~= before + (fld + rest));
        }
        k = k + 1;
    }
    proof {
        assert(ser_scope_list(rec@.scopes, rec@.scopes.len() as int) =~= Seq::<char>::empty());
        assert(out@ + Seq::<char>::empty() =~= out@);
        assert(out@ =~= ser_record(rec@));
    }
    string_from_chars(&out)
}

} // verus!
