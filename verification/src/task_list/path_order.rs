//! The order of task paths: strings compare character by character by code
//! point (the order of `String`'s `Ord`), paths compare segment by segment,
//! and a proper prefix comes first.
use vstd::prelude::*;
use crate::text::{chars_of, common_prefix_len};

verus! {

/// Strict lexicographic order on character sequences, by code point.
pub open spec fn chars_lt(a: Seq<char>, b: Seq<char>) -> bool
    decreases a.len(),
{
    if b.len() == 0 {
        false
    } else if a.len() == 0 {
        true
    } else if a[0] < b[0] {
        true
    } else if b[0] < a[0] {
        false
    } else {
        chars_lt(a.drop_first(), b.drop_first())
    }
}

/// Strict lexicographic order on paths: the first differing segment decides,
/// and when one path is a prefix of the other the shorter comes first.
pub open spec fn path_lt(a: Seq<Seq<char>>, b: Seq<Seq<char>>) -> bool
    decreases a.len(),
{
    if b.len() == 0 {
        false
    } else if a.len() == 0 {
        true
    } else if chars_lt(a[0], b[0]) {
        true
    } else if chars_lt(b[0], a[0]) {
        false
    } else {
        path_lt(a.drop_first(), b.drop_first())
    }
}

/// No character sequence comes before itself.
pub proof fn lemma_chars_lt_irreflexive(a: Seq<char>)
    ensures
        !chars_lt(a, a),
    decreases a.len(),
{
    if a.len() > 0 {
        lemma_chars_lt_irreflexive(a.drop_first());
    }
}

/// Two character sequences of which neither comes first are equal.
pub proof fn lemma_chars_lt_total(a: Seq<char>, b: Seq<char>)
    ensures
        chars_lt(a, b) || chars_lt(b, a) || a == b,
    decreases a.len(),
{
    if a.len() > 0 && b.len() > 0 && !(a[0] < b[0]) && !(b[0] < a[0]) {
        lemma_chars_lt_total(a.drop_first(), b.drop_first());
        if a.drop_first() == b.drop_first() {
            assert(a == seq![a[0]] + a.drop_first());
            assert(b == seq![b[0]] + b.drop_first());
        }
    } else if a.len() == 0 && b.len() == 0 {
        assert(a == b);
    }
}

/// The order on character sequences is asymmetric.
pub proof fn lemma_chars_lt_asymmetric(a: Seq<char>, b: Seq<char>)
    ensures
        chars_lt(a, b) ==> !chars_lt(b, a),
    decreases a.len(),
{
    if a.len() > 0 && b.len() > 0 {
        lemma_chars_lt_asymmetric(a.drop_first(), b.drop_first());
    }
}

/// The order on character sequences is transitive.
pub proof fn lemma_chars_lt_transitive(a: Seq<char>, b: Seq<char>, c: Seq<char>)
    ensures
        chars_lt(a, b) && chars_lt(b, c) ==> chars_lt(a, c),
    decreases a.len(),
{
    if a.len() > 0 && b.len() > 0 && c.len() > 0 {
        lemma_chars_lt_transitive(a.drop_first(), b.drop_first(), c.drop_first());
    }
}

/// Past a common prefix, the order is decided by what follows it.
pub proof fn lemma_chars_lt_after_prefix(a: Seq<char>, b: Seq<char>, n: int)
    requires
        0 <= n <= a.len(),
        n <= b.len(),
        a.take(n) == b.take(n),
    ensures
        chars_lt(a, b) == chars_lt(a.skip(n), b.skip(n)),
    decreases n,
{
    if n > 0 {
        assert(a[0] == a.take(n)[0]);
        assert(b[0] == b.take(n)[0]);
        assert(a.drop_first().take(n - 1) == a.take(n).drop_first());
        assert(b.drop_first().take(n - 1) == b.take(n).drop_first());
        lemma_chars_lt_after_prefix(a.drop_first(), b.drop_first(), n - 1);
        assert(a.drop_first().skip(n - 1) == a.skip(n));
        assert(b.drop_first().skip(n - 1) == b.skip(n));
    } else {
        assert(a.skip(0) == a);
        assert(b.skip(0) == b);
    }
}

/// No path comes before itself.
pub proof fn lemma_path_lt_irreflexive(a: Seq<Seq<char>>)
    ensures
        !path_lt(a, a),
    decreases a.len(),
{
    if a.len() > 0 {
        lemma_chars_lt_irreflexive(a[0]);
        lemma_path_lt_irreflexive(a.drop_first());
    }
}

/// Two paths of which neither comes first are equal.
pub proof fn lemma_path_lt_total(a: Seq<Seq<char>>, b: Seq<Seq<char>>)
    ensures
        path_lt(a, b) || path_lt(b, a) || a == b,
    decreases a.len(),
{
    if a.len() > 0 && b.len() > 0 {
        lemma_chars_lt_total(a[0], b[0]);
        if a[0] == b[0] {
            lemma_chars_lt_irreflexive(a[0]);
            lemma_path_lt_total(a.drop_first(), b.drop_first());
            if a.drop_first() == b.drop_first() {
                assert(a == seq![a[0]] + a.drop_first());
                assert(b == seq![b[0]] + b.drop_first());
            }
        }
    } else if a.len() == 0 && b.len() == 0 {
        assert(a == b);
    }
}

/// The order on paths is asymmetric.
pub proof fn lemma_path_lt_asymmetric(a: Seq<Seq<char>>, b: Seq<Seq<char>>)
    ensures
        path_lt(a, b) ==> !path_lt(b, a),
    decreases a.len(),
{
    if a.len() > 0 && b.len() > 0 {
        lemma_chars_lt_asymmetric(a[0], b[0]);
        lemma_path_lt_asymmetric(a.drop_first(), b.drop_first());
    }
}

/// The order on paths is transitive.
pub proof fn lemma_path_lt_transitive(a: Seq<Seq<char>>, b: Seq<Seq<char>>, c: Seq<Seq<char>>)
    ensures
        path_lt(a, b) && path_lt(b, c) ==> path_lt(a, c),
    decreases a.len(),
{
    if a.len() > 0 && b.len() > 0 && c.len() > 0 {
        lemma_chars_lt_total(a[0], b[0]);
        lemma_chars_lt_total(b[0], c[0]);
        lemma_chars_lt_transitive(a[0], b[0], c[0]);
        lemma_chars_lt_asymmetric(a[0], b[0]);
        lemma_chars_lt_asymmetric(b[0], c[0]);
        lemma_chars_lt_asymmetric(a[0], c[0]);
        lemma_chars_lt_irreflexive(a[0]);
        lemma_chars_lt_irreflexive(b[0]);
        lemma_path_lt_transitive(a.drop_first(), b.drop_first(), c.drop_first());
    }
}

/// Past a common prefix of segments, the order of paths is decided by what
/// follows it.
pub proof fn lemma_path_lt_after_prefix(a: Seq<Seq<char>>, b: Seq<Seq<char>>, n: int)
    requires
        0 <= n <= a.len(),
        n <= b.len(),
        a.take(n) == b.take(n),
    ensures
        path_lt(a, b) == path_lt(a.skip(n), b.skip(n)),
    decreases n,
{
    if n > 0 {
        assert(a[0] == a.take(n)[0]);
        assert(b[0] == b.take(n)[0]);
        lemma_chars_lt_irreflexive(a[0]);
        assert(a.drop_first().take(n - 1) == a.take(n).drop_first());
        assert(b.drop_first().take(n - 1) == b.take(n).drop_first());
        lemma_path_lt_after_prefix(a.drop_first(), b.drop_first(), n - 1);
        assert(a.drop_first().skip(n - 1) == a.skip(n));
        assert(b.drop_first().skip(n - 1) == b.skip(n));
    } else {
        assert(a.skip(0) == a);
        assert(b.skip(0) == b);
    }
}

/// The characters of each string of a list, in order.
pub open spec fn strings_view(v: Seq<String>) -> Seq<Seq<char>> {
    v.map_values(|s: String| s@)
}

/// Whether `a` comes strictly before `b` in the order of strings.
pub fn chars_less(a: &str, b: &str) -> (r: bool)
    ensures
        r == chars_lt(a@, b@),
{
    let va = chars_of(a);
    let vb = chars_of(b);
    let n = common_prefix_len(&va, &vb);
    proof {
        lemma_chars_lt_after_prefix(va@, vb@, n as int);
    }
    let ghost sa = va@.skip(n as int);
    let ghost sb = vb@.skip(n as int);
    if n == vb.len() {
        assert(sb.len() == 0);
        false
    } else if n == va.len() {
        assert(sa.len() == 0);
        true
    } else {
        assert(sa[0] == va@[n as int]);
        assert(sb[0] == vb@[n as int]);
        va[n] < vb[n]
    }
}

/// Whether path `a` comes strictly before path `b`.
pub fn path_less(a: &Vec<String>, b: &Vec<String>) -> (r: bool)
    ensures
        r == path_lt(strings_view(a@), strings_view(b@)),
{
    let ghost av = strings_view(a@);
    let ghost bv = strings_view(b@);
    let mut i: usize = 0;
    while i < a.len() && i < b.len()
        invariant
            av == strings_view(a@),
            bv == strings_view(b@),
            i <= a@.len(),
            i <= b@.len(),
            av.take(i as int) == bv.take(i as int),
        decreases a@.len() - i,
    {
        if chars_less(a[i].as_str(), b[i].as_str()) {
            proof {
                lemma_path_lt_after_prefix(av, bv, i as int);
                assert(av.skip(i as int)[0] == av[i as int]);
                assert(bv.skip(i as int)[0] == bv[i as int]);
            }
            return true;
        }
        if chars_less(b[i].as_str(), a[i].as_str()) {
            proof {
                lemma_path_lt_after_prefix(av, bv, i as int);
                assert(av.skip(i as int)[0] == av[i as int]);
                assert(bv.skip(i as int)[0] == bv[i as int]);
                lemma_chars_lt_asymmetric(bv[i as int], av[i as int]);
            }
            return false;
        }
        proof {
            lemma_chars_lt_total(av[i as int], bv[i as int]);
            assert(av.take(i + 1) == av.take(i as int).push(av[i as int]));
            assert(bv.take(i + 1) == bv.take(i as int).push(bv[i as int]));
        }
        i = i + 1;
    }
    proof {
        lemma_path_lt_after_prefix(av, bv, i as int);
    }
    a.len() < b.len()
}

} // verus!
