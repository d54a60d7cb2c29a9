//! Sorting strings in lexicographic order, as the router orders its hosts
//! before it walks them round-robin.
use vstd::prelude::*;
use vstd::multiset::Multiset;
use vstd::relations::sorted_by;
use vstd::relations::total_ordering;
use crate::json::string_views;
use crate::text::lemma_lex_asymmetric;
use crate::text::lemma_lex_le_transitive;
use crate::text::lemma_lex_total;
use crate::text::lex_le;
use crate::text::str_lt;

verus! {

/// The lexicographic order as a relation.
pub open spec fn lex_order() -> spec_fn(Seq<char>, Seq<char>) -> bool {
    |a: Seq<char>, b: Seq<char>| lex_le(a, b)
}

/// The lexicographic order is a total order.
pub proof fn lemma_lex_total_ordering()
    ensures
        total_ordering(lex_order()),
{
    let r = lex_order();
    assert forall|a: Seq<char>, b: Seq<char>| #[trigger] r(a, b) && #[trigger] r(b, a) implies a
        == b by {
        if a != b {
            lemma_lex_asymmetric(a, b);
        }
    }
    assert forall|a: Seq<char>, b: Seq<char>, c: Seq<char>| #[trigger]
        r(a, b) && #[trigger] r(b, c) implies r(a, c) by {
        lemma_lex_le_transitive(a, b, c);
    }
    assert forall|a: Seq<char>, b: Seq<char>| #[trigger] r(a, b) || #[trigger] r(b, a) by {
        lemma_lex_total(a, b);
    }
}

/// The strings of `v` in lexicographic order.
pub fn sort_strings(v: Vec<String>) -> (r: Vec<String>)
    ensures
        string_views(r@) == string_views(v@).sort_by(lex_order()),
{
    broadcast use vstd::seq_lib::group_to_multiset_ensures;
    broadcast use vstd::multiset::group_multiset_axioms;

    let ghost all = string_views(v@);
    let mut rest = v;
    let mut out: Vec<String> = Vec::new();
    while rest.len() > 0
        invariant
            string_views(out@).to_multiset().add(string_views(rest@).to_multiset())
                == all.to_multiset(),
            sorted_by(string_views(out@), lex_order()),
            forall|i: int, j: int|
                0 <= i < out@.len() && 0 <= j < rest@.len() ==> lex_le(
                    #[trigger] out@[i]@,
                    #[trigger] rest@[j]@,
                ),
        decreases rest.len(),
    {
        let mut m: usize = 0;
        let mut j: usize = 1;
        while j < rest.len()
            invariant
                m < rest@.len(),
                j <= rest@.len(),
                forall|k: int| 0 <= k < j ==> lex_le(rest@[m as int]@, #[trigger] rest@[k]@),
            decreases rest.len() - j,
        {
            if str_lt(rest[j].as_str(), rest[m].as_str()) {
                proof {
                    assert forall|k: int| 0 <= k < j + 1 implies lex_le(
                        rest@[j as int]@,
                        #[trigger] rest@[k]@,
                    ) by {
                        if k < j {
                            lemma_lex_le_transitive(rest@[j as int]@, rest@[m as int]@, rest@[k]@);
                        }
                    }
                }
                m = j;
            } else {
                proof {
                    lemma_lex_total(rest@[m as int]@, rest@[j as int]@);
                }
            }
            j = j + 1;
        }
        let ghost before_out = out@;
        let ghost before_rest = rest@;
        let x = rest.remove(m);
        proof {
            assert(string_views(rest@) =~= string_views(before_rest).remove(m as int));
        }
        out.push(x);
        proof {
            let ov = string_views(out@);
            let rv = string_views(rest@);
            let bv = string_views(before_rest);
            assert(ov =~= string_views(before_out).push(bv[m as int]));
            vstd::seq_lib::to_multiset_build(string_views(before_out), bv[m as int]);
            vstd::seq_lib::to_multiset_remove(bv, m as int);
            assert(ov.to_multiset() == string_views(before_out).to_multiset().insert(bv[m as int]));
            assert(rv.to_multiset() == bv.to_multiset().remove(bv[m as int]));
            assert(bv.contains(bv[m as int]));
            bv.to_multiset_ensures();
            assert(bv.to_multiset().count(bv[m as int]) > 0);
            assert(ov.to_multiset().add(rv.to_multiset()) =~= string_views(before_out).to_multiset().add(
                bv.to_multiset(),
            ));
            assert forall|a: int, b: int| 0 <= a < b < ov.len() implies #[trigger] lex_order()(
                ov[a],
                ov[b],
            ) by {
                if b == ov.len() - 1 {
                    assert(lex_le(before_out[a]@, before_rest[m as int]@));
                } else {
                    assert(lex_order()(string_views(before_out)[a], string_views(before_out)[b]));
                }
            }
            assert forall|a: int, b: int| 0 <= a < out@.len() && 0 <= b < rest@.len() implies lex_le(
                #[trigger] out@[a]@,
                #[trigger] rest@[b]@,
            ) by {
                let ob = if b < m { b } else { b + 1 };
                assert(rest@[b] == before_rest[ob]);
                if a == out@.len() - 1 {
                    assert(lex_le(before_rest[m as int]@, before_rest[ob]@));
                } else {
                    assert(out@[a] == before_out[a]);
                }
            }
        }
    }
    proof {
        let ov = string_views(out@);
        assert(string_views(rest@).to_multiset() =~= Multiset::empty());
        assert(ov.to_multiset() =~= all.to_multiset());
        lemma_lex_total_ordering();
        all.lemma_sort_by_ensures(lex_order());
        vstd::seq_lib::lemma_sorted_unique(ov, all.sort_by(lex_order()), lex_order());
    }
    out
}

}
