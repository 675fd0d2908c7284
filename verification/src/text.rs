//! Small helpers for moving between `String` and `Vec<char>`.
//!
//! The parsers and the persistence codec work over `Vec<char>`, whose
//! contents are directly indexable; these helpers convert at the API
//! boundary.

use vstd::prelude::*;

verus! {

use vstd::string::StrSliceExecFns;

/// The characters of `s`, in order, as a vector.
pub fn chars_of_str(s: &str) -> (v: Vec<char>)
    ensures
        v@ == s@,
{
    let n = s.unicode_len();
    let mut v: Vec<char> = Vec::new();
    let mut i: usize = 0;
    while i < n
        invariant
            n == s@.len(),
            i <= n,
            v@ == s@.take(i as int),
        decreases n - i,
    {
        v.push(s.get_char(i));
        i = i + 1;
        proof {
            assert(v@ =~= s@.take(i as int));
        }
    }
    proof {
        assert(v@ =~= s@);
    }
    v
}

/// Append the characters of `s` to `out`.
pub fn push_str_chars(out: &mut Vec<char>, s: &str)
    ensures
        final(out)@ == old(out)@ + s@,
{
    let cs = chars_of_str(s);
    proof {
        assert(out@ =~= old(out)@ + s@.take(0));
    }
    let mut t: usize = 0;
    while t < cs.len()
        invariant
            t <= cs@.len(),
            cs@ == s@,
            out@ == old(out)@ + s@.take(t as int),
        decreases cs@.len() - t,
    {
        out.push(cs[t]);
        t = t + 1;
        proof {
            assert(out@ =~= old(out)@ + s@.take(t as int));
        }
    }
    proof {
        assert(s@.take(s@.len() as int) =~= s@);
    }
}

/// The characters of `v` between `from` and `to`, as a fresh vector.
pub fn copy_range(v: &Vec<char>, from: usize, to: usize) -> (r: Vec<char>)
    requires
        from <= to <= v@.len(),
    ensures
        r@ == v@.subrange(from as int, to as int),
{
    let mut r: Vec<char> = Vec::new();
    let mut t: usize = from;
    while t < to
        invariant
            from <= t <= to <= v@.len(),
            r@ == v@.subrange(from as int, t as int),
        decreases to - t,
    {
        r.push(v[t]);
        t = t + 1;
        proof {
            assert(r@ =~= v@.subrange(from as int, t as int));
        }
    }
    proof {
        assert(r@ =~= v@.subrange(from as int, to as int));
    }
    r
}

/// Relies on `String`'s `FromIterator<char>`: collecting an iterator of
/// characters yields the string of exactly those characters, in order.
#[verifier::external_body]
pub(crate) fn string_from_chars(v: &Vec<char>) -> (s: String)
    ensures
        s@ == v@,
{
    v.iter().collect()
}

} // verus!
