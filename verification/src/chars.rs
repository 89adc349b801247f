//! Character-level text utilities: the parser works on character
//! vectors, so that every comparison and split is plain verified code.

use vstd::prelude::*;
use vstd::std_specs::iter::IteratorSpec;

verus! {

broadcast use vstd::string::axiom_spec_iter, vstd::string::next_postcondition;

/// The characters of a string, in order.
pub fn str_to_chars(s: &str) -> (r: Vec<char>)
    ensures
        r@ == s@,
{
    let mut out: Vec<char> = Vec::new();
    let mut it = s.chars();
    loop
        invariant
            it.obeys_prophetic_iter_laws(),
            it.decrease() is Some,
            out@ + it.remaining() == s@,
        ensures
            out@ == s@,
        decreases it.decrease()->0,
    {
        let ghost pre = it.remaining();
        match it.next() {
            Some(c) => {
                out.push(c);
                proof {
                    assert(out@ + it.remaining() =~= s@);
                }
            },
            None => {
                proof {
                    assert(out@ + it.remaining() =~= out@);
                }
                break ;
            },
        }
    }
    out
}

/// Whether two character vectors hold the same characters.
pub fn chars_eq(a: &Vec<char>, b: &Vec<char>) -> (r: bool)
    ensures
        r == (a@ == b@),
{
    if a.len() != b.len() {
        return false;
    }
    let mut i: usize = 0;
    while i < a.len()
        invariant
            0 <= i <= a@.len(),
            a@.len() == b@.len(),
            forall|j: int| 0 <= j < i ==> a@[j] == b@[j],
        decreases a@.len() - i,
    {
        if a[i] != b[i] {
            return false;
        }
        i = i + 1;
    }
    proof {
        assert(a@ =~= b@);
    }
    true
}

/// Whether a string equals another, by characters.
pub fn str_eq(a: &str, b: &str) -> (r: bool)
    ensures
        r == (a@ == b@),
{
    let av = str_to_chars(a);
    let bv = str_to_chars(b);
    chars_eq(&av, &bv)
}

/// Relies on `String`'s `FromIterator` over characters: collecting a
/// character vector yields the string of exactly those characters.
#[verifier::external_body]
pub fn chars_to_string(v: &Vec<char>) -> (s: String)
    ensures
        s@ == v@,
{
    v.iter().collect()
}

/// Index of the first occurrence of a character, or the length when it
/// does not occur.
pub open spec fn find_char(s: Seq<char>, d: char) -> int
    decreases s.len(),
{
    if s.len() == 0 {
        0
    } else if s[0] == d {
        0
    } else {
        1 + find_char(s.drop_first(), d)
    }
}

/// Where the first occurrence lies and what stands before it.
pub proof fn lemma_find_char(s: Seq<char>, d: char)
    ensures
        0 <= find_char(s, d) <= s.len(),
        find_char(s, d) < s.len() ==> s[find_char(s, d)] == d,
        forall|j: int| 0 <= j < find_char(s, d) ==> s[j] != d,
    decreases s.len(),
{
    if s.len() > 0 && s[0] != d {
        lemma_find_char(s.drop_first(), d);
        assert forall|j: int| 0 <= j < find_char(s, d) implies s[j] != d by {
            if j > 0 {
                assert(s.drop_first()[j - 1] == s[j]);
                assert(s.drop_first()[j - 1] != d);
            }
        }
    }
}

/// The fields of a sequence split at every occurrence of a delimiter:
/// always at least one field, empty fields kept.
pub open spec fn split_on(s: Seq<char>, d: char) -> Seq<Seq<char>>
    decreases s.len(),
{
    let i = find_char(s, d);
    if i < 0 || i >= s.len() {
        seq![s]
    } else {
        seq![s.take(i)] + split_on(s.skip(i + 1), d)
    }
}

/// The scan of `find_char` stops exactly where it says.
proof fn lemma_find_char_agrees(s: Seq<char>, d: char, j: int)
    requires
        0 <= j <= s.len(),
        forall|t: int| 0 <= t < j ==> s[t] != d,
        j == s.len() || s[j] == d,
    ensures
        find_char(s, d) == j,
    decreases j,
{
    if s.len() == 0 {
    } else if j == 0 {
    } else {
        lemma_find_char_agrees(s.drop_first(), d, j - 1);
    }
}

/// Index of the first occurrence of a character at or after `from`, or
/// the length when there is none.
pub fn find_char_exec(v: &Vec<char>, from: usize, d: char) -> (r: usize)
    requires
        from <= v@.len(),
    ensures
        from <= r <= v@.len(),
        r - from == find_char(v@.skip(from as int), d),
        r < v@.len() ==> v@[r as int] == d,
        forall|j: int| from <= j < r ==> v@[j] != d,
{
    let mut i = from;
    while i < v.len()
        invariant
            from <= i <= v@.len(),
            forall|j: int| from <= j < i ==> v@[j] != d,
        decreases v@.len() - i,
    {
        if v[i] == d {
            proof {
                assert(forall|t: int|
                    0 <= t < i - from ==> v@.skip(from as int)[t] == v@[from + t]);
                lemma_find_char_agrees(v@.skip(from as int), d, i - from);
            }
            return i;
        }
        i = i + 1;
    }
    proof {
        assert(forall|t: int| 0 <= t < i - from ==> v@.skip(from as int)[t] == v@[from + t]);
        lemma_find_char_agrees(v@.skip(from as int), d, i - from);
    }
    i
}

/// A copy of the characters in `[lo, hi)`.
pub fn sub_chars(v: &Vec<char>, lo: usize, hi: usize) -> (r: Vec<char>)
    requires
        lo <= hi <= v@.len(),
    ensures
        r@ == v@.subrange(lo as int, hi as int),
{
    let mut out: Vec<char> = Vec::new();
    let mut i = lo;
    while i < hi
        invariant
            lo <= i <= hi <= v@.len(),
            out@ == v@.subrange(lo as int, i as int),
        decreases hi - i,
    {
        out.push(v[i]);
        proof {
            assert(out@ =~= v@.subrange(lo as int, i as int + 1));
        }
        i = i + 1;
    }
    out
}

/// Split a character vector at every occurrence of a delimiter.
pub fn split_chars(v: &Vec<char>, d: char) -> (r: Vec<Vec<char>>)
    ensures
        r@.map_values(|x: Vec<char>| x@) == split_on(v@, d),
        r@.len() >= 1,
{
    let mut out: Vec<Vec<char>> = Vec::new();
    let mut p: usize = 0;
    proof {
        assert(v@.skip(0) =~= v@);
    }
    loop
        invariant_except_break
            0 <= p <= v@.len(),
            split_on(v@, d) == out@.map_values(|x: Vec<char>| x@) + split_on(
                v@.skip(p as int),
                d,
            ),
        ensures
            out@.map_values(|x: Vec<char>| x@) == split_on(v@, d),
            out@.len() >= 1,
        decreases v@.len() - p + 1,
    {
        let q = find_char_exec(v, p, d);
        let field = sub_chars(v, p, q);
        let ghost pre = out@.map_values(|x: Vec<char>| x@);
        out.push(field);
        proof {
            assert(out@.map_values(|x: Vec<char>| x@) =~= pre + seq![field@]);
            lemma_find_char(v@.skip(p as int), d);
            assert(field@ =~= v@.skip(p as int).take(q - p));
        }
        if q == v.len() {
            proof {
                assert(split_on(v@.skip(p as int), d) =~= seq![v@.skip(p as int)]);
                assert(v@.skip(p as int).take(q - p) =~= v@.skip(p as int));
                assert(out@.map_values(|x: Vec<char>| x@) =~= split_on(v@, d));
            }
            break ;
        }
        proof {
            assert(split_on(v@.skip(p as int), d) =~= seq![v@.skip(p as int).take(q - p)]
                + split_on(v@.skip(p as int).skip(q - p + 1), d));
            assert(v@.skip(p as int).skip(q - p + 1) =~= v@.skip(q as int + 1));
            assert(split_on(v@, d) =~= out@.map_values(|x: Vec<char>| x@) + split_on(
                v@.skip(q as int + 1),
                d,
            ));
        }
        p = q + 1;
    }
    out
}

} // verus!
