//! Character-sequence primitives: lexicographic order by code point and
//! substring search, with executable counterparts proved against them.

use vstd::prelude::*;

verus! {

/// Equality of two string slices, stated over their character sequences.
pub fn str_eq(a: &str, b: &str) -> (r: bool)
    ensures
        r == (a@ == b@),
{
    let x = a.to_owned();
    let y = b.to_owned();
    x == y
}

/// Strict lexicographic order on character sequences, by code point; a
/// proper prefix sorts before its extensions.
pub open spec fn str_lt(a: Seq<char>, b: Seq<char>) -> bool
    decreases a.len() + b.len(),
{
    if b.len() == 0 {
        false
    } else if a.len() == 0 {
        true
    } else if a[0] != b[0] {
        (a[0] as int) < (b[0] as int)
    } else {
        str_lt(a.drop_first(), b.drop_first())
    }
}

/// The order is connected: two sequences are ordered one way or the other
/// unless they are equal.
pub proof fn lemma_str_lt_connected(a: Seq<char>, b: Seq<char>)
    ensures
        str_lt(a, b) || str_lt(b, a) || a == b,
    decreases a.len() + b.len(),
{
    if b.len() == 0 {
        if a.len() == 0 {
            assert(a =~= b);
        }
    } else if a.len() == 0 {
    } else if a[0] != b[0] {
        assert((a[0] as int) != (b[0] as int));
    } else {
        lemma_str_lt_connected(a.drop_first(), b.drop_first());
        if a.drop_first() == b.drop_first() {
            assert(a.drop_first().len() == b.drop_first().len());
            assert(a.len() == b.len());
            assert forall|i: int| 0 <= i < a.len() implies a[i] == b[i] by {
                if i > 0 {
                    assert(a.drop_first()[i - 1] == b.drop_first()[i - 1]);
                }
            }
            assert(a =~= b);
        }
    }
}

/// The order is irreflexive and asymmetric.
pub proof fn lemma_str_lt_asymm(a: Seq<char>, b: Seq<char>)
    ensures
        !(str_lt(a, b) && str_lt(b, a)),
    decreases a.len() + b.len(),
{
    if a.len() > 0 && b.len() > 0 && a[0] == b[0] {
        lemma_str_lt_asymm(a.drop_first(), b.drop_first());
    }
}

/// The order is transitive.
pub proof fn lemma_str_lt_trans(a: Seq<char>, b: Seq<char>, c: Seq<char>)
    requires
        str_lt(a, b),
        str_lt(b, c),
    ensures
        str_lt(a, c),
    decreases a.len() + b.len() + c.len(),
{
    if a.len() == 0 {
    } else {
        if a[0] == b[0] && b[0] == c[0] {
            lemma_str_lt_trans(a.drop_first(), b.drop_first(), c.drop_first());
        }
    }
}

/// Dropping an equal prefix of both sequences does not change how they
/// compare.
pub proof fn lemma_str_lt_skip(a: Seq<char>, b: Seq<char>, k: int)
    requires
        0 <= k <= a.len(),
        k <= b.len(),
        forall|i: int| 0 <= i < k ==> a[i] == b[i],
    ensures
        str_lt(a, b) == str_lt(a.skip(k), b.skip(k)),
    decreases k,
{
    if k == 0 {
        assert(a.skip(0) =~= a);
        assert(b.skip(0) =~= b);
    } else {
        assert(a[0] == b[0]);
        lemma_str_lt_skip(a.drop_first(), b.drop_first(), k - 1);
        assert(a.drop_first().skip(k - 1) =~= a.skip(k));
        assert(b.drop_first().skip(k - 1) =~= b.skip(k));
        assert(forall|i: int| 0 <= i < k - 1 ==> a.drop_first()[i] == b.drop_first()[i]);
    }
}

/// Executable lexicographic comparison of two character vectors.
pub fn chars_lt(a: &Vec<char>, b: &Vec<char>) -> (r: bool)
    ensures
        r == str_lt(a@, b@),
{
    let an = a.len();
    let bn = b.len();
    let m = if an < bn {
        an
    } else {
        bn
    };
    for k in 0..m
        invariant
            m <= a.len() && m <= b.len(),
            m == if a.len() < b.len() {
                a.len()
            } else {
                b.len()
            },
            forall|i: int| 0 <= i < k ==> a@[i] == b@[i],
    {
        let x = a[k];
        let y = b[k];
        if x != y {
            proof {
                lemma_str_lt_skip(a@, b@, k as int);
                assert(a@.skip(k as int)[0] == a@[k as int]);
                assert(b@.skip(k as int)[0] == b@[k as int]);
            }
            return x < y;
        }
    }
    proof {
        lemma_str_lt_skip(a@, b@, m as int);
        if a.len() < b.len() {
            assert(a@.skip(m as int).len() == 0);
            assert(b@.skip(m as int).len() > 0);
        } else {
            assert(b@.skip(m as int).len() == 0);
        }
    }
    an < bn
}

/// Executable equality of two character vectors, stated over their views.
pub fn chars_eq(a: &Vec<char>, b: &Vec<char>) -> (r: bool)
    ensures
        r == (a@ == b@),
{
    if a.len() != b.len() {
        return false;
    }
    let n = a.len();
    for k in 0..n
        invariant
            n == a.len() && n == b.len(),
            forall|i: int| 0 <= i < k ==> a@[i] == b@[i],
    {
        if a[k] != b[k] {
            return false;
        }
    }
    proof {
        assert(a@ =~= b@);
    }
    true
}

/// `q` occurs in `t` starting at position `i`.
pub open spec fn contains_at(t: Seq<char>, q: Seq<char>, i: int) -> bool {
    0 <= i && i + q.len() <= t.len() && t.subrange(i, i + q.len()) == q
}

/// `q` is a contiguous substring of `t` (every sequence contains the empty
/// one).
pub open spec fn str_contains(t: Seq<char>, q: Seq<char>) -> bool {
    exists|i: int| contains_at(t, q, i)
}

fn matches_at(t: &Vec<char>, q: &Vec<char>, i: usize) -> (r: bool)
    requires
        i + q.len() <= t.len(),
    ensures
        r == contains_at(t@, q@, i as int),
{
    let m = q.len();
    for k in 0..m
        invariant
            i + m <= t.len() && m == q.len(),
            forall|j: int| 0 <= j < k ==> t@[i + j] == q@[j],
    {
        if t[i + k] != q[k] {
            proof {
                if contains_at(t@, q@, i as int) {
                    assert(t@.subrange(i as int, i + m)[k as int] == q@[k as int]);
                }
            }
            return false;
        }
    }
    proof {
        assert(t@.subrange(i as int, i + m) =~= q@);
    }
    true
}

/// Executable substring search.
pub fn chars_contains(t: &Vec<char>, q: &Vec<char>) -> (r: bool)
    ensures
        r == str_contains(t@, q@),
{
    let n = t.len();
    let m = q.len();
    if m == 0 {
        proof {
            assert(t@.subrange(0, 0) =~= q@);
            assert(contains_at(t@, q@, 0));
        }
        return true;
    }
    if m > n {
        proof {
            assert forall|i: int| !contains_at(t@, q@, i) by {}
        }
        return false;
    }
    let last = n - m;
    for i in 0..last + 1
        invariant
            n == t.len() && m == q.len() && m <= n && last == n - m,
            forall|j: int| 0 <= j < i ==> !contains_at(t@, q@, j),
    {
        if matches_at(t, q, i) {
            return true;
        }
    }
    proof {
        assert forall|j: int| !contains_at(t@, q@, j) by {
            if j > last as int {
                assert(j + q@.len() > t@.len());
            }
        }
    }
    false
}

/// Relies on `str::chars`: iterating a string slice yields exactly the
/// characters of its view, in order.
#[verifier::external_body]
pub(crate) fn chars_of(s: &str) -> (r: Vec<char>)
    ensures
        r@ == s@,
{
    s.chars().collect()
}

/// Relies on `core::iter::Iterator::collect` for `String`: collecting
/// characters builds the string with exactly those characters, in order.
#[verifier::external_body]
pub(crate) fn string_from_chars(chars: &Vec<char>) -> (r: String)
    ensures
        r@ == chars@,
{
    chars.iter().collect()
}

} // verus!
