//! The order of route files: paths compared component by component, and
//! components compared character by character, as `std::path::Path` orders
//! paths of UTF-8 names.

use vstd::prelude::*;

use crate::text::same_text;

verus! {

/// `a` sorts strictly before `b`: at the first position where they differ
/// the character of `a` has the smaller code point, or `a` is a proper
/// prefix of `b`.
pub open spec fn text_lt(a: Seq<char>, b: Seq<char>) -> bool
    decreases a.len(),
{
    if a.len() == 0 {
        b.len() > 0
    } else if b.len() == 0 {
        false
    } else if a[0] != b[0] {
        a[0] < b[0]
    } else {
        text_lt(a.drop_first(), b.drop_first())
    }
}

/// `a` sorts strictly before `b`, component by component.
pub open spec fn path_lt(a: Seq<Seq<char>>, b: Seq<Seq<char>>) -> bool
    decreases a.len(),
{
    if a.len() == 0 {
        b.len() > 0
    } else if b.len() == 0 {
        false
    } else if a[0] != b[0] {
        text_lt(a[0], b[0])
    } else {
        path_lt(a.drop_first(), b.drop_first())
    }
}

/// No text sorts before itself.
pub proof fn lemma_text_lt_irreflexive(a: Seq<char>)
    ensures
        !text_lt(a, a),
    decreases a.len(),
{
    if a.len() > 0 {
        lemma_text_lt_irreflexive(a.drop_first());
    }
}

/// Of two texts, at most one sorts before the other.
pub proof fn lemma_text_lt_asymmetric(a: Seq<char>, b: Seq<char>)
    ensures
        !(text_lt(a, b) && text_lt(b, a)),
    decreases a.len(),
{
    if a.len() > 0 && b.len() > 0 && a[0] == b[0] {
        lemma_text_lt_asymmetric(a.drop_first(), b.drop_first());
    }
}

/// Of two different texts, one sorts before the other.
pub proof fn lemma_text_lt_total(a: Seq<char>, b: Seq<char>)
    ensures
        a == b || text_lt(a, b) || text_lt(b, a),
    decreases a.len(),
{
    if a.len() == 0 && b.len() == 0 {
        assert(a =~= b);
    } else if a.len() > 0 && b.len() > 0 {
        if a[0] == b[0] {
            lemma_text_lt_total(a.drop_first(), b.drop_first());
            if a.drop_first() == b.drop_first() {
                assert(a =~= seq![a[0]] + a.drop_first());
                assert(b =~= seq![b[0]] + b.drop_first());
            }
        }
    }
}

/// Sorting before is transitive on texts.
pub proof fn lemma_text_lt_transitive(a: Seq<char>, b: Seq<char>, c: Seq<char>)
    requires
        text_lt(a, b),
        text_lt(b, c),
    ensures
        text_lt(a, c),
    decreases a.len(),
{
    if a.len() > 0 && b.len() > 0 && c.len() > 0 && a[0] == b[0] && b[0] == c[0] {
        lemma_text_lt_transitive(a.drop_first(), b.drop_first(), c.drop_first());
    }
}

/// No path sorts before itself.
pub proof fn lemma_path_lt_irreflexive(a: Seq<Seq<char>>)
    ensures
        !path_lt(a, a),
    decreases a.len(),
{
    if a.len() > 0 {
        lemma_path_lt_irreflexive(a.drop_first());
    }
}

/// Of two paths, at most one sorts before the other.
pub proof fn lemma_path_lt_asymmetric(a: Seq<Seq<char>>, b: Seq<Seq<char>>)
    ensures
        !(path_lt(a, b) && path_lt(b, a)),
    decreases a.len(),
{
    if a.len() > 0 && b.len() > 0 {
        if a[0] == b[0] {
            lemma_path_lt_asymmetric(a.drop_first(), b.drop_first());
        } else {
            lemma_text_lt_asymmetric(a[0], b[0]);
        }
    }
}

/// Of two different paths, one sorts before the other.
pub proof fn lemma_path_lt_total(a: Seq<Seq<char>>, b: Seq<Seq<char>>)
    ensures
        a == b || path_lt(a, b) || path_lt(b, a),
    decreases a.len(),
{
    if a.len() == 0 && b.len() == 0 {
        assert(a =~= b);
    } else if a.len() > 0 && b.len() > 0 {
        if a[0] == b[0] {
            lemma_path_lt_total(a.drop_first(), b.drop_first());
            if a.drop_first() == b.drop_first() {
                assert(a =~= seq![a[0]] + a.drop_first());
                assert(b =~= seq![b[0]] + b.drop_first());
            }
        } else {
            lemma_text_lt_total(a[0], b[0]);
        }
    }
}

/// Sorting before is transitive on paths.
pub proof fn lemma_path_lt_transitive(a: Seq<Seq<char>>, b: Seq<Seq<char>>, c: Seq<Seq<char>>)
    requires
        path_lt(a, b),
        path_lt(b, c),
    ensures
        path_lt(a, c),
    decreases a.len(),
{
    if a.len() > 0 && b.len() > 0 && c.len() > 0 {
        if a[0] == b[0] && b[0] == c[0] {
            lemma_path_lt_transitive(a.drop_first(), b.drop_first(), c.drop_first());
        } else if a[0] == b[0] {
        } else if b[0] == c[0] {
        } else {
            lemma_text_lt_transitive(a[0], b[0], c[0]);
            if a[0] == c[0] {
                lemma_text_lt_asymmetric(a[0], b[0]);
            }
        }
    }
}

/// Tests whether `a` sorts strictly before `b`.
pub fn text_less(a: &str, b: &str) -> (res: bool)
    ensures
        res == text_lt(a@, b@),
{
    let n = a.unicode_len();
    let m = b.unicode_len();
    let mut i: usize = 0;
    assert(a@.skip(0) =~= a@);
    assert(b@.skip(0) =~= b@);
    while i < n && i < m
        invariant
            n == a@.len(),
            m == b@.len(),
            i <= n,
            i <= m,
            text_lt(a@, b@) == text_lt(a@.skip(i as int), b@.skip(i as int)),
        decreases n - i,
    {
        let x = a.get_char(i);
        let y = b.get_char(i);
        if x != y {
            return x < y;
        }
        assert(a@.skip(i as int).drop_first() =~= a@.skip(i + 1));
        assert(b@.skip(i as int).drop_first() =~= b@.skip(i + 1));
        i += 1;
    }
    i == n && i < m
}

/// Tests whether the path `a` sorts strictly before the path `b`.
pub fn path_less(a: &Vec<String>, b: &Vec<String>) -> (res: bool)
    ensures
        res == path_lt(a.deep_view(), b.deep_view()),
{
    let ghost av = a.deep_view();
    let ghost bv = b.deep_view();
    let n = a.len();
    let m = b.len();
    let mut i: usize = 0;
    assert(av.skip(0) =~= av);
    assert(bv.skip(0) =~= bv);
    while i < n && i < m
        invariant
            av == a.deep_view(),
            bv == b.deep_view(),
            n == av.len(),
            m == bv.len(),
            i <= n,
            i <= m,
            path_lt(av, bv) == path_lt(av.skip(i as int), bv.skip(i as int)),
        decreases n - i,
    {
        let x = a[i].as_str();
        let y = b[i].as_str();
        assert(x@ == av[i as int]);
        assert(y@ == bv[i as int]);
        if !same_text(x, y) {
            return text_less(x, y);
        }
        assert(av.skip(i as int).drop_first() =~= av.skip(i + 1));
        assert(bv.skip(i as int).drop_first() =~= bv.skip(i + 1));
        i += 1;
    }
    i == n && i < m
}

} // verus!
