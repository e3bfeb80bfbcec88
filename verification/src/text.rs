//! Character-sequence utilities: prefix tests and lexicographic order on
//! `Seq<char>`, with executable counterparts on `&str`.

use vstd::prelude::*;

verus! {

/// `p` is a prefix of `s`.
pub open spec fn is_prefix(p: Seq<char>, s: Seq<char>) -> bool {
    p.len() <= s.len() && p == s.subrange(0, p.len() as int)
}

/// Strict lexicographic order on character sequences, comparing
/// characters by their scalar values.
pub open spec fn lex_lt(a: Seq<char>, b: Seq<char>) -> bool
    decreases a.len(),
{
    if b.len() == 0 {
        false
    } else if a.len() == 0 {
        true
    } else if a[0] != b[0] {
        (a[0] as int) < (b[0] as int)
    } else {
        lex_lt(a.skip(1), b.skip(1))
    }
}

/// Exactly one of `lex_lt(a, b)`, `lex_lt(b, a)`, `a == b` holds.
pub proof fn lemma_lex_total(a: Seq<char>, b: Seq<char>)
    ensures
        lex_lt(a, b) || lex_lt(b, a) || a == b,
        lex_lt(a, b) ==> !lex_lt(b, a),
        lex_lt(a, b) ==> a != b,
    decreases a.len(),
{
    if a.len() == 0 && b.len() == 0 {
        assert(a =~= b);
    } else if a.len() == 0 {
        assert(lex_lt(a, b));
    } else if b.len() == 0 {
        assert(lex_lt(b, a));
    } else if a[0] != b[0] {
        if (a[0] as int) < (b[0] as int) {
            assert(lex_lt(a, b));
        } else {
            assert((a[0] as int) != (b[0] as int));
            assert(lex_lt(b, a));
        }
    } else if a.len() != 0 && b.len() != 0 && a[0] == b[0] {
        lemma_lex_total(a.skip(1), b.skip(1));
        if a.skip(1) == b.skip(1) {
            assert(a =~= seq![a[0]] + a.skip(1));
            assert(b =~= seq![b[0]] + b.skip(1));
            assert(seq![a[0]] =~= seq![b[0]]);
        }
        if a == b {
            assert(a.skip(1) =~= b.skip(1));
        }
    }
}

/// Lexicographic order is transitive.
pub proof fn lemma_lex_trans(a: Seq<char>, b: Seq<char>, c: Seq<char>)
    requires
        lex_lt(a, b),
        lex_lt(b, c),
    ensures
        lex_lt(a, c),
    decreases a.len(),
{
    if a.len() != 0 && b.len() != 0 && c.len() != 0 {
        if a[0] == b[0] && b[0] == c[0] {
            lemma_lex_trans(a.skip(1), b.skip(1), c.skip(1));
        }
    }
}

/// Every sequence starts with itself.
pub proof fn lemma_prefix_refl(s: Seq<char>)
    ensures
        is_prefix(s, s),
{
    assert(s =~= s.subrange(0, s.len() as int));
}

/// Prefixes compose: a prefix of a prefix is a prefix.
pub proof fn lemma_prefix_trans(a: Seq<char>, b: Seq<char>, c: Seq<char>)
    requires
        is_prefix(a, b),
        is_prefix(b, c),
    ensures
        is_prefix(a, c),
{
    assert(a =~= c.subrange(0, a.len() as int));
}

/// A prefix never comes lexicographically after the string it starts.
pub proof fn lemma_prefix_not_gt(p: Seq<char>, s: Seq<char>)
    requires
        is_prefix(p, s),
    ensures
        !lex_lt(s, p),
    decreases p.len(),
{
    if p.len() != 0 {
        assert(p[0] == s[0]);
        assert(is_prefix(p.skip(1), s.skip(1))) by {
            assert(p.skip(1) =~= s.skip(1).subrange(0, p.skip(1).len() as int));
        }
        lemma_prefix_not_gt(p.skip(1), s.skip(1));
    }
}

/// Strings sharing a prefix `p` form a contiguous range in lexicographic
/// order: anything between `p` and a string that starts with `p` starts
/// with `p` as well.
pub proof fn lemma_prefix_range(p: Seq<char>, a: Seq<char>, b: Seq<char>)
    requires
        !lex_lt(a, p),
        !lex_lt(b, a),
        is_prefix(p, b),
    ensures
        is_prefix(p, a),
    decreases p.len(),
{
    if p.len() != 0 {
        assert(b[0] == b.subrange(0, p.len() as int)[0]);
        assert(p[0] == b[0]);
        if a.len() == 0 {
            assert(lex_lt(a, p));
        } else {
            if a[0] != p[0] {
                if (a[0] as int) < (p[0] as int) {
                    assert(lex_lt(a, p));
                } else {
                    assert(b.len() != 0);
                    assert(b[0] != a[0]);
                    assert((a[0] as int) != (p[0] as int));
                    assert((b[0] as int) == (p[0] as int));
                    assert((b[0] as int) < (a[0] as int));
                    assert(lex_lt(b, a));
                }
            } else {
                assert(is_prefix(p.skip(1), b.skip(1))) by {
                    assert(p.skip(1) =~= b.skip(1).subrange(0, p.skip(1).len() as int));
                }
                lemma_prefix_range(p.skip(1), a.skip(1), b.skip(1));
                assert(p =~= seq![p[0]] + p.skip(1));
                assert(a.subrange(0, p.len() as int) =~= seq![a[0]] + a.skip(1).subrange(
                    0,
                    p.len() - 1,
                ));
                assert(seq![p[0]] =~= seq![a[0]]);
                assert(p == a.subrange(0, p.len() as int));
            }
        }
    } else {
        assert(p =~= a.subrange(0, 0));
    }
}

/// Whether `a` comes strictly before `b` in lexicographic order.
pub fn str_lt(a: &str, b: &str) -> (r: bool)
    ensures
        r == lex_lt(a@, b@),
    decreases a@.len(),
{
    if b.is_empty() {
        false
    } else if a.is_empty() {
        true
    } else {
        let ca = a.get_char(0);
        let cb = b.get_char(0);
        if ca != cb {
            (ca as u32) < (cb as u32)
        } else {
            let la = a.unicode_len();
            let lb = b.unicode_len();
            let ta = a.substring_char(1, la);
            let tb = b.substring_char(1, lb);
            proof {
                assert(ta@ =~= a@.skip(1));
                assert(tb@ =~= b@.skip(1));
            }
            str_lt(ta, tb)
        }
    }
}

/// Whether `s` starts with `p`.
pub fn str_starts_with(s: &str, p: &str) -> (r: bool)
    ensures
        r == is_prefix(p@, s@),
{
    let pl = p.unicode_len();
    let sl = s.unicode_len();
    if pl > sl {
        proof {
            assert(!is_prefix(p@, s@));
        }
        return false;
    }
    let mut i: usize = 0;
    while i < pl
        invariant
            i <= pl,
            pl == p@.len(),
            sl == s@.len(),
            pl <= sl,
            forall|j: int| 0 <= j < i ==> p@[j] == s@[j],
        decreases pl - i,
    {
        if s.get_char(i) != p.get_char(i) {
            proof {
                assert(p@ != s@.subrange(0, pl as int));
            }
            return false;
        }
        i += 1;
    }
    proof {
        assert(p@ =~= s@.subrange(0, pl as int));
    }
    true
}

/// Relies on `String::push`: appends the character to the end of the
/// string; the character count of any string fits in `usize`.
#[verifier::external_body]
pub fn push_char(s: &mut String, c: char)
    ensures
        final(s)@ == old(s)@.push(c),
        old(s)@.len() + 1 <= usize::MAX,
{
    s.push(c);
}

} // verus!
