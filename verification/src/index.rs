//! The suggestion index: a lexicographically sorted, duplicate-free vector
//! of candidate names, with the ordered range query ("first entry at or
//! after the buffer") that backs prefix lookup.

use vstd::prelude::*;
use crate::text::is_prefix;
use crate::text::lex_lt;
use crate::text::lemma_lex_total;
use crate::text::lemma_lex_trans;
use crate::text::str_lt;

verus! {

/// The character sequences of a vector of strings.
pub open spec fn views(names: Seq<String>) -> Seq<Seq<char>> {
    names.map_values(|s: String| s@)
}

/// Strictly ascending lexicographic order; strictness makes the entries
/// duplicate-free, giving the index its set semantics.
pub open spec fn sorted(entries: Seq<Seq<char>>) -> bool {
    forall|i: int, j: int|
        0 <= i < j < entries.len() ==> lex_lt(#[trigger] entries[i], #[trigger] entries[j])
}

/// The first entry, in index order, that starts with `p`.
pub open spec fn first_match(entries: Seq<Seq<char>>, p: Seq<char>) -> Option<Seq<char>>
    decreases entries.len(),
{
    if entries.len() == 0 {
        None
    } else if is_prefix(p, entries[0]) {
        Some(entries[0])
    } else {
        first_match(entries.skip(1), p)
    }
}

/// `first_match` returns the entry at the first matching index.
pub proof fn lemma_first_match_at(entries: Seq<Seq<char>>, p: Seq<char>, i: int)
    requires
        0 <= i < entries.len(),
        is_prefix(p, entries[i]),
        forall|j: int| 0 <= j < i ==> !is_prefix(p, #[trigger] entries[j]),
    ensures
        first_match(entries, p) == Some(entries[i]),
    decreases i,
{
    if i > 0 {
        assert(forall|j: int|
            0 <= j < entries.len() - 1 ==> #[trigger] entries.skip(1)[j] == entries[j + 1]);
        lemma_first_match_at(entries.skip(1), p, i - 1);
    }
}

/// When no entry starts with `p`, `first_match` finds nothing.
pub proof fn lemma_first_match_none(entries: Seq<Seq<char>>, p: Seq<char>)
    requires
        forall|j: int| 0 <= j < entries.len() ==> !is_prefix(p, #[trigger] entries[j]),
    ensures
        first_match(entries, p) is None,
    decreases entries.len(),
{
    if entries.len() != 0 {
        assert(forall|j: int|
            0 <= j < entries.len() - 1 ==> #[trigger] entries.skip(1)[j] == entries[j + 1]);
        lemma_first_match_none(entries.skip(1), p);
    }
}

/// On a sorted index, `first_match` is exact: a found entry is a member,
/// starts with `p`, and no matching entry comes lexicographically before
/// it; nothing is found only when nothing matches.
pub proof fn lemma_first_match_minimal(entries: Seq<Seq<char>>, p: Seq<char>)
    requires
        sorted(entries),
    ensures
        first_match(entries, p) matches Some(e) ==> entries.contains(e) && is_prefix(p, e)
            && forall|j: int|
            0 <= j < entries.len() && is_prefix(p, #[trigger] entries[j]) ==> !lex_lt(
                entries[j],
                e,
            ),
        first_match(entries, p) is None ==> forall|j: int|
            0 <= j < entries.len() ==> !is_prefix(p, #[trigger] entries[j]),
    decreases entries.len(),
{
    if entries.len() != 0 {
        if is_prefix(p, entries[0]) {
            let e = entries[0];
            assert(entries.contains(e)) by {
                assert(entries[0] == e);
            }
            assert forall|j: int|
                0 <= j < entries.len() && is_prefix(p, #[trigger] entries[j]) implies !lex_lt(
                entries[j],
                e,
            ) by {
                lemma_lex_total(entries[j], e);
            }
        } else {
            assert(forall|j: int|
                0 <= j < entries.len() - 1 ==> #[trigger] entries.skip(1)[j] == entries[j + 1]);
            assert(sorted(entries.skip(1)));
            lemma_first_match_minimal(entries.skip(1), p);
            match first_match(entries, p) {
                Some(e) => {
                    assert(entries.skip(1).contains(e));
                    let i = choose|i: int|
                        0 <= i < entries.skip(1).len() && entries.skip(1)[i] == e;
                    assert(entries[i + 1] == e);
                    assert(entries.contains(e));
                    assert forall|j: int|
                        0 <= j < entries.len() && is_prefix(
                            p,
                            #[trigger] entries[j],
                        ) implies !lex_lt(entries[j], e) by {
                        assert(j > 0);
                        assert(entries.skip(1)[j - 1] == entries[j]);
                    }
                },
                None => {
                    assert forall|j: int| 0 <= j < entries.len() implies !is_prefix(
                        p,
                        #[trigger] entries[j],
                    ) by {
                        if j > 0 {
                            assert(entries.skip(1)[j - 1] == entries[j]);
                        }
                    }
                },
            }
        }
    }
}

/// Index of the first entry at or after `key` in lexicographic order,
/// found by binary search.
pub fn lower_bound(entries: &Vec<String>, key: &str) -> (idx: usize)
    requires
        sorted(views(entries@)),
    ensures
        idx <= entries@.len(),
        forall|j: int| 0 <= j < idx ==> lex_lt(#[trigger] views(entries@)[j], key@),
        forall|j: int|
            idx <= j < entries@.len() ==> !lex_lt(#[trigger] views(entries@)[j], key@),
{
    let ghost v = views(entries@);
    let mut lo: usize = 0;
    let mut hi: usize = entries.len();
    while lo < hi
        invariant
            lo <= hi <= entries@.len(),
            v == views(entries@),
            sorted(v),
            forall|j: int| 0 <= j < lo ==> lex_lt(#[trigger] v[j], key@),
            forall|j: int| hi <= j < entries@.len() ==> !lex_lt(#[trigger] v[j], key@),
        decreases hi - lo,
    {
        let mid = lo + (hi - lo) / 2;
        if str_lt(entries[mid].as_str(), key) {
            proof {
                assert forall|j: int| 0 <= j <= mid implies lex_lt(#[trigger] v[j], key@) by {
                    if j < mid {
                        lemma_lex_trans(v[j], v[mid as int], key@);
                    }
                }
            }
            lo = mid + 1;
        } else {
            proof {
                assert forall|j: int| mid <= j < entries@.len() implies !lex_lt(
                    #[trigger] v[j],
                    key@,
                ) by {
                    if j > mid && lex_lt(v[j], key@) {
                        lemma_lex_trans(v[mid as int], v[j], key@);
                    }
                }
            }
            hi = mid;
        }
    }
    lo
}

/// Puts `name` into the sorted vector, keeping it sorted and
/// duplicate-free; a name already present is left alone.
pub fn insert_name(out: &mut Vec<String>, name: String)
    requires
        sorted(views(old(out)@)),
    ensures
        sorted(views(final(out)@)),
        forall|s: Seq<char>|
            #[trigger] views(final(out)@).contains(s) <==> views(old(out)@).contains(s) || s
                == name@,
{
    let ghost v = views(out@);
    let idx = lower_bound(out, name.as_str());
    if idx < out.len() && out[idx].eq(&name) {
        proof {
            assert(v[idx as int] == name@);
            assert(views(out@).contains(name@));
        }
    } else {
        proof {
            if idx < v.len() {
                lemma_lex_total(name@, v[idx as int]);
            }
            assert forall|j: int| idx <= j < v.len() implies lex_lt(name@, #[trigger] v[j]) by {
                if j > idx {
                    lemma_lex_trans(name@, v[idx as int], v[j]);
                }
            }
        }
        out.insert(idx, name);
        proof {
            let v2 = views(out@);
            assert(v2 =~= v.insert(idx as int, name@)) by {
                v.insert_ensures(idx as int, name@);
            }
            v.insert_ensures(idx as int, name@);
            assert forall|i: int, j: int| 0 <= i < j < v2.len() implies lex_lt(
                #[trigger] v2[i],
                #[trigger] v2[j],
            ) by {
                if j < idx {
                } else if j == idx {
                    assert(v2[j] == name@);
                    assert(v2[i] == v[i]);
                } else if i == idx {
                    assert(v2[i] == name@);
                    assert(v2[j] == v[j - 1]);
                } else if i < idx {
                    assert(v2[i] == v[i]);
                    assert(v2[j] == v[j - 1]);
                    if idx <= j - 1 {
                        lemma_lex_trans(v[i], name@, v[j - 1]);
                    }
                } else {
                    assert(v2[i] == v[i - 1]);
                    assert(v2[j] == v[j - 1]);
                }
            }
            assert forall|s: Seq<char>| #[trigger]
                v2.contains(s) implies v.contains(s) || s == name@ by {
                let i = choose|i: int| 0 <= i < v2.len() && v2[i] == s;
                if i < idx {
                    assert(v[i] == s);
                } else if i > idx {
                    assert(v[i - 1] == s);
                }
            }
            assert forall|s: Seq<char>| v.contains(s) || s == name@ implies #[trigger]
                v2.contains(s) by {
                if v.contains(s) {
                    let i = choose|i: int| 0 <= i < v.len() && v[i] == s;
                    if i < idx {
                        assert(v2[i] == s);
                    } else {
                        assert(v2[i + 1] == s);
                    }
                } else {
                    assert(v2[idx as int] == s);
                }
            }
        }
    }
}

/// Builds the suggestion index from directory entry names: sorted
/// lexicographically, duplicates collapsed, exactly the given names.
pub fn build_index(names: Vec<String>) -> (r: Vec<String>)
    ensures
        sorted(views(r@)),
        forall|s: Seq<char>|
            #[trigger] views(r@).contains(s) <==> views(names@).contains(s),
{
    let mut out: Vec<String> = Vec::new();
    let mut k: usize = 0;
    proof {
        assert(views(out@) =~= Seq::<Seq<char>>::empty());
    }
    while k < names.len()
        invariant
            k <= names@.len(),
            sorted(views(out@)),
            forall|s: Seq<char>|
                #[trigger] views(out@).contains(s) <==> exists|j: int|
                    0 <= j < k && #[trigger] views(names@)[j] == s,
        decreases names@.len() - k,
    {
        let name = names[k].clone();
        proof {
            assert(name@ == views(names@)[k as int]);
        }
        insert_name(&mut out, name);
        k += 1;
    }
    proof {
        assert forall|s: Seq<char>| #[trigger]
            views(out@).contains(s) <==> views(names@).contains(s) by {
            if views(names@).contains(s) {
                let j = choose|j: int|
                    0 <= j < views(names@).len() && views(names@)[j] == s;
                assert(0 <= j < k && views(names@)[j] == s);
            }
        }
    }
    out
}

} // verus!
