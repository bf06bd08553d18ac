//! Ranking the valid records of one fiscal year by descending ratio.
use vstd::prelude::*;

use crate::assemble::TaxRecord;
use crate::ratio::{
    TaxRatio, lemma_ranks_transitive, orderable, ranks_at_least, ratio_at_least,
    lemma_ratio_of_orderable,
};

verus! {

/// A record that takes part in a ranking for `year`.
pub open spec fn selected(r: TaxRecord, year: Seq<char>) -> bool {
    r.year@ == year && r.tax_per_sqft is Amount
}

/// The records of `s` that take part in a ranking for `year`, in order.
pub open spec fn selection(s: Seq<TaxRecord>, year: Seq<char>) -> Seq<TaxRecord>
    decreases s.len(),
{
    if s.len() == 0 {
        Seq::empty()
    } else if selected(s.last(), year) {
        selection(s.drop_last(), year).push(s.last())
    } else {
        selection(s.drop_last(), year)
    }
}

/// Inserts `x` into `s` after every record that ranks at or above it.
pub open spec fn insert_desc(x: TaxRecord, s: Seq<TaxRecord>) -> Seq<TaxRecord>
    decreases s.len(),
{
    if s.len() == 0 {
        seq![x]
    } else if ranks_at_least(s[0].tax_per_sqft, x.tax_per_sqft) {
        seq![s[0]] + insert_desc(x, s.drop_first())
    } else {
        seq![x] + s
    }
}

/// `s` ordered by descending ratio; records with equal ratios keep their
/// relative order.
pub open spec fn sort_desc(s: Seq<TaxRecord>) -> Seq<TaxRecord>
    decreases s.len(),
{
    if s.len() == 0 {
        Seq::empty()
    } else {
        insert_desc(s.last(), sort_desc(s.drop_last()))
    }
}

/// The ranking of `s` for `year`, cut to at most `limit` records.
pub open spec fn ranking(s: Seq<TaxRecord>, year: Seq<char>, limit: nat) -> Seq<TaxRecord> {
    let sorted = sort_desc(selection(s, year));
    sorted.take(if limit < sorted.len() { limit as int } else { sorted.len() as int })
}

/// Every ratio of `s` is orderable.
pub open spec fn all_orderable(s: Seq<TaxRecord>) -> bool {
    forall|i: int| 0 <= i < s.len() ==> orderable(#[trigger] s[i].tax_per_sqft)
}

/// Each record of `s` ranks at or above every later one.
pub open spec fn descending(s: Seq<TaxRecord>) -> bool {
    forall|i: int, j: int|
        0 <= i < j < s.len() ==> ranks_at_least(#[trigger] s[i].tax_per_sqft, #[trigger] s[j].tax_per_sqft)
}

proof fn lemma_insert_at(x: TaxRecord, s: Seq<TaxRecord>, k: int)
    requires
        0 <= k <= s.len(),
        forall|j: int| 0 <= j < k ==> ranks_at_least(#[trigger] s[j].tax_per_sqft, x.tax_per_sqft),
        k < s.len() ==> !ranks_at_least(s[k].tax_per_sqft, x.tax_per_sqft),
    ensures
        insert_desc(x, s) == s.insert(k, x),
    decreases s.len(),
{
    if s.len() == 0 {
        assert(s.insert(k, x) =~= seq![x]);
    } else if k == 0 {
        assert(s.insert(k, x) =~= seq![x] + s);
    } else {
        let rest = s.drop_first();
        assert forall|j: int| 0 <= j < k - 1 implies ranks_at_least(
            #[trigger] rest[j].tax_per_sqft,
            x.tax_per_sqft,
        ) by {
            assert(rest[j] == s[j + 1]);
        }
        lemma_insert_at(x, rest, k - 1);
        assert(s.insert(k, x) =~= seq![s[0]] + rest.insert(k - 1, x));
    }
}

proof fn lemma_insert_len_and_members(x: TaxRecord, s: Seq<TaxRecord>)
    ensures
        insert_desc(x, s).len() == s.len() + 1,
        forall|i: int|
            0 <= i < insert_desc(x, s).len() ==> #[trigger] insert_desc(x, s)[i] == x || s.contains(
                insert_desc(x, s)[i],
            ),
    decreases s.len(),
{
    if s.len() > 0 && ranks_at_least(s[0].tax_per_sqft, x.tax_per_sqft) {
        let rest = s.drop_first();
        lemma_insert_len_and_members(x, rest);
        assert forall|i: int| 0 <= i < insert_desc(x, s).len() implies #[trigger] insert_desc(
            x,
            s,
        )[i] == x || s.contains(insert_desc(x, s)[i]) by {
            if i > 0 {
                let e = insert_desc(x, rest)[i - 1];
                if e != x {
                    let j = choose|j: int| 0 <= j < rest.len() && rest[j] == e;
                    assert(s[j + 1] == e);
                }
            } else {
                assert(s[0] == insert_desc(x, s)[0]);
            }
        }
    } else if s.len() > 0 {
        assert forall|i: int| 0 <= i < insert_desc(x, s).len() implies #[trigger] insert_desc(
            x,
            s,
        )[i] == x || s.contains(insert_desc(x, s)[i]) by {
            if i > 0 {
                assert(s[i - 1] == insert_desc(x, s)[i]);
            }
        }
    }
}

proof fn lemma_insert_descending(x: TaxRecord, s: Seq<TaxRecord>)
    requires
        orderable(x.tax_per_sqft),
        all_orderable(s),
        descending(s),
    ensures
        all_orderable(insert_desc(x, s)),
        descending(insert_desc(x, s)),
    decreases s.len(),
{
    lemma_insert_len_and_members(x, s);
    let r = insert_desc(x, s);
    assert forall|i: int| 0 <= i < r.len() implies orderable(#[trigger] r[i].tax_per_sqft) by {
        if r[i] != x {
            let j = choose|j: int| 0 <= j < s.len() && s[j] == r[i];
        }
    }
    if s.len() == 0 {
    } else if ranks_at_least(s[0].tax_per_sqft, x.tax_per_sqft) {
        let rest = s.drop_first();
        assert forall|i: int, j: int| 0 <= i < j < rest.len() implies ranks_at_least(
            #[trigger] rest[i].tax_per_sqft,
            #[trigger] rest[j].tax_per_sqft,
        ) by {
            assert(s[i + 1] == rest[i] && s[j + 1] == rest[j]);
        }
        lemma_insert_descending(x, rest);
        lemma_insert_len_and_members(x, rest);
        let tail = insert_desc(x, rest);
        assert forall|i: int, j: int| 0 <= i < j < r.len() implies ranks_at_least(
            #[trigger] r[i].tax_per_sqft,
            #[trigger] r[j].tax_per_sqft,
        ) by {
            if i == 0 {
                assert(r[j] == tail[j - 1]);
                if tail[j - 1] != x {
                    let m = choose|m: int| 0 <= m < rest.len() && rest[m] == tail[j - 1];
                    assert(s[m + 1] == rest[m]);
                }
            } else {
                assert(r[i] == tail[i - 1] && r[j] == tail[j - 1]);
            }
        }
    } else {
        assert forall|i: int, j: int| 0 <= i < j < r.len() implies ranks_at_least(
            #[trigger] r[i].tax_per_sqft,
            #[trigger] r[j].tax_per_sqft,
        ) by {
            if i == 0 {
                assert(r[j] == s[j - 1]);
                assert(ranks_at_least(x.tax_per_sqft, s[0].tax_per_sqft));
                if j > 1 {
                    assert(ranks_at_least(s[0].tax_per_sqft, s[j - 1].tax_per_sqft));
                    lemma_ranks_transitive(x.tax_per_sqft, s[0].tax_per_sqft, s[j - 1].tax_per_sqft);
                }
            } else {
                assert(r[i] == s[i - 1] && r[j] == s[j - 1]);
            }
        }
    }
}

proof fn lemma_sort_descending(s: Seq<TaxRecord>)
    requires
        all_orderable(s),
    ensures
        all_orderable(sort_desc(s)),
        descending(sort_desc(s)),
        sort_desc(s).len() == s.len(),
    decreases s.len(),
{
    if s.len() > 0 {
        let p = s.drop_last();
        assert(all_orderable(p)) by {
            assert forall|i: int| 0 <= i < p.len() implies orderable(#[trigger] p[i].tax_per_sqft) by {
                assert(p[i] == s[i]);
            }
        }
        lemma_sort_descending(p);
        assert(orderable(s[s.len() - 1].tax_per_sqft));
        lemma_insert_descending(s.last(), sort_desc(p));
        lemma_insert_len_and_members(s.last(), sort_desc(p));
    }
}

proof fn lemma_selection_wf(s: Seq<TaxRecord>, year: Seq<char>)
    requires
        forall|i: int| 0 <= i < s.len() ==> (#[trigger] s[i]).wf(),
    ensures
        forall|i: int| 0 <= i < selection(s, year).len() ==> (#[trigger] selection(s, year)[i]).wf(),
        forall|i: int| 0 <= i < selection(s, year).len() ==> selected(#[trigger] selection(s, year)[i], year),
    decreases s.len(),
{
    if s.len() > 0 {
        let p = s.drop_last();
        assert forall|i: int| 0 <= i < p.len() implies (#[trigger] p[i]).wf() by {
            assert(p[i] == s[i]);
        }
        lemma_selection_wf(p, year);
        let prev = selection(p, year);
        let cur = selection(s, year);
        assert(s.last().wf());
        assert forall|i: int| 0 <= i < cur.len() implies (#[trigger] cur[i]).wf() && selected(
            cur[i],
            year,
        ) by {
            if i < prev.len() {
                assert(cur[i] == prev[i]);
            } else {
                assert(cur[i] == s.last());
            }
        }
    }
}

proof fn lemma_sort_len(s: Seq<TaxRecord>)
    ensures
        sort_desc(s).len() == s.len(),
    decreases s.len(),
{
    if s.len() > 0 {
        lemma_sort_len(s.drop_last());
        lemma_insert_len_and_members(s.last(), sort_desc(s.drop_last()));
    }
}

/// Ranks the valid records of `target_year` by descending ratio, keeping
/// the input order among equal ratios, and returns at most `limit` of them.
pub fn rank(records: &Vec<TaxRecord>, target_year: &String, limit: usize) -> (r: Vec<TaxRecord>)
    ensures
        r@ == ranking(records@, target_year@, limit as nat),
        r@.len() == if limit < selection(records@, target_year@).len() {
            limit as int
        } else {
            selection(records@, target_year@).len() as int
        },
{
    let ghost year = target_year@;
    let mut out: Vec<TaxRecord> = Vec::new();
    let mut i: usize = 0;
    while i < records.len()
        invariant
            i <= records@.len(),
            year == target_year@,
            out@ == sort_desc(selection(records@.take(i as int), year)),
        decreases records@.len() - i,
    {
        assert(records@.take(i + 1).drop_last() =~= records@.take(i as int));
        let r = &records[i];
        let ghost prev_sel = selection(records@.take(i as int), year);
        assert(records@.take(i + 1).last() == *r);
        if r.year == *target_year && matches!(r.tax_per_sqft, TaxRatio::Amount { .. }) {
            let mut k: usize = 0;
            while k < out.len()
                invariant
                    k <= out@.len(),
                    forall|m: int|
                        0 <= m < k ==> ranks_at_least(
                            #[trigger] out@[m].tax_per_sqft,
                            r.tax_per_sqft,
                        ),
                ensures
                    k <= out@.len(),
                    forall|m: int|
                        0 <= m < k ==> ranks_at_least(
                            #[trigger] out@[m].tax_per_sqft,
                            r.tax_per_sqft,
                        ),
                    k < out@.len() ==> !ranks_at_least(out@[k as int].tax_per_sqft, r.tax_per_sqft),
                decreases out@.len() - k,
            {
                if !ratio_at_least(&out[k].tax_per_sqft, &r.tax_per_sqft) {
                    break;
                }
                k = k + 1;
            }
            proof {
                lemma_insert_at(*r, out@, k as int);
            }
            out.insert(k, r.duplicate());
            assert(prev_sel.push(*r).drop_last() =~= prev_sel);
        }
        i = i + 1;
    }
    assert(records@.take(i as int) =~= records@);
    proof {
        lemma_sort_len(selection(records@, year));
    }
    out.truncate(limit);
    out
}

/// A ranking holds only valid records of its year, and each ranks at or
/// above every later one; in particular the first ranks at or above all.
pub proof fn lemma_ranking_descending(s: Seq<TaxRecord>, year: Seq<char>, limit: nat)
    requires
        forall|i: int| 0 <= i < s.len() ==> (#[trigger] s[i]).wf(),
    ensures
        descending(ranking(s, year, limit)),
        forall|i: int|
            0 <= i < ranking(s, year, limit).len() ==> selected(
                #[trigger] ranking(s, year, limit)[i],
                year,
            ),
{
    let sel = selection(s, year);
    lemma_selection_wf(s, year);
    assert forall|i: int| 0 <= i < sel.len() implies orderable(#[trigger] sel[i].tax_per_sqft) by {
        lemma_ratio_of_orderable(sel[i].taxes_paid, sel[i].lot_size);
    }
    lemma_sort_descending(sel);
    let sorted = sort_desc(sel);
    let r = ranking(s, year, limit);
    assert forall|i: int, j: int| 0 <= i < j < r.len() implies ranks_at_least(
        #[trigger] r[i].tax_per_sqft,
        #[trigger] r[j].tax_per_sqft,
    ) by {
        assert(r[i] == sorted[i] && r[j] == sorted[j]);
    }
    assert forall|i: int| 0 <= i < r.len() implies selected(#[trigger] r[i], year) by {
        assert(r[i] == sorted[i]);
        lemma_sort_members(sel);
        let m = choose|m: int| 0 <= m < sel.len() && sel[m] == sorted[i];
    }
}

proof fn lemma_sort_members(s: Seq<TaxRecord>)
    ensures
        forall|i: int| 0 <= i < sort_desc(s).len() ==> s.contains(#[trigger] sort_desc(s)[i]),
    decreases s.len(),
{
    if s.len() > 0 {
        let p = s.drop_last();
        lemma_sort_members(p);
        lemma_insert_len_and_members(s.last(), sort_desc(p));
        assert forall|i: int| 0 <= i < sort_desc(s).len() implies s.contains(
            #[trigger] sort_desc(s)[i],
        ) by {
            let e = sort_desc(s)[i];
            if e == s.last() {
                assert(s[s.len() - 1] == e);
            } else {
                let m = choose|m: int| 0 <= m < sort_desc(p).len() && sort_desc(p)[m] == e;
                let n = choose|n: int| 0 <= n < p.len() && p[n] == sort_desc(p)[m];
                assert(s[n] == e);
            }
        }
    }
}

/// A ranking has exactly as many records as the smaller of `limit` and the
/// number of valid records of its year.
pub proof fn lemma_ranking_length(s: Seq<TaxRecord>, year: Seq<char>, limit: nat)
    ensures
        ranking(s, year, limit).len() == if limit < selection(s, year).len() {
            limit as int
        } else {
            selection(s, year).len() as int
        },
        ranking(s, year, limit).len() <= limit,
{
    lemma_sort_len(selection(s, year));
}

/// `a` and `b` rank equal.
pub open spec fn ranks_equal(a: TaxRatio, b: TaxRatio) -> bool {
    ranks_at_least(a, b) && ranks_at_least(b, a)
}

/// The records of `s` whose ratio ranks equal to `t`, in order.
pub open spec fn ranked_like(s: Seq<TaxRecord>, t: TaxRatio) -> Seq<TaxRecord>
    decreases s.len(),
{
    if s.len() == 0 {
        Seq::empty()
    } else {
        (if ranks_equal(s[0].tax_per_sqft, t) {
            seq![s[0]]
        } else {
            Seq::empty()
        }) + ranked_like(s.drop_first(), t)
    }
}

proof fn lemma_ranked_like_push(s: Seq<TaxRecord>, x: TaxRecord, t: TaxRatio)
    ensures
        ranked_like(s.push(x), t) == if ranks_equal(x.tax_per_sqft, t) {
            ranked_like(s, t).push(x)
        } else {
            ranked_like(s, t)
        },
    decreases s.len(),
{
    if s.len() == 0 {
        assert(s.push(x).drop_first() =~= Seq::<TaxRecord>::empty());
        assert(ranked_like(s.push(x).drop_first(), t) == Seq::<TaxRecord>::empty());
        assert(ranked_like(s, t) == Seq::<TaxRecord>::empty());
        assert(s.push(x)[0] == x);
        assert(ranked_like(s.push(x), t) =~= (if ranks_equal(x.tax_per_sqft, t) {
            ranked_like(s, t).push(x)
        } else {
            ranked_like(s, t)
        }));
    } else {
        assert(s.push(x).drop_first() =~= s.drop_first().push(x));
        lemma_ranked_like_push(s.drop_first(), x, t);
        assert(s.push(x)[0] == s[0]);
        let head = if ranks_equal(s[0].tax_per_sqft, t) {
            seq![s[0]]
        } else {
            Seq::empty()
        };
        assert(ranked_like(s.push(x), t) == head + ranked_like(s.drop_first().push(x), t));
        assert(ranked_like(s, t) == head + ranked_like(s.drop_first(), t));
        assert(ranked_like(s.push(x), t) =~= (if ranks_equal(x.tax_per_sqft, t) {
            ranked_like(s, t).push(x)
        } else {
            ranked_like(s, t)
        }));
    }
}

proof fn lemma_ranked_like_none(s: Seq<TaxRecord>, t: TaxRatio)
    requires
        forall|j: int| 0 <= j < s.len() ==> !ranks_equal(#[trigger] s[j].tax_per_sqft, t),
    ensures
        ranked_like(s, t) == Seq::<TaxRecord>::empty(),
    decreases s.len(),
{
    if s.len() > 0 {
        let rest = s.drop_first();
        assert forall|j: int| 0 <= j < rest.len() implies !ranks_equal(
            #[trigger] rest[j].tax_per_sqft,
            t,
        ) by {
            assert(rest[j] == s[j + 1]);
        }
        lemma_ranked_like_none(rest, t);
        assert(!ranks_equal(s[0].tax_per_sqft, t));
        assert(ranked_like(s, t) =~= Seq::<TaxRecord>::empty());
    }
}

proof fn lemma_ranked_like_insert(x: TaxRecord, s: Seq<TaxRecord>, t: TaxRatio)
    requires
        orderable(x.tax_per_sqft),
        orderable(t),
        all_orderable(s),
        descending(s),
    ensures
        ranked_like(insert_desc(x, s), t) == if ranks_equal(x.tax_per_sqft, t) {
            ranked_like(s, t).push(x)
        } else {
            ranked_like(s, t)
        },
    decreases s.len(),
{
    if s.len() == 0 {
        lemma_ranked_like_push(s, x, t);
        assert(seq![x] =~= s.push(x));
    } else if ranks_at_least(s[0].tax_per_sqft, x.tax_per_sqft) {
        let rest = s.drop_first();
        assert forall|i: int, j: int| 0 <= i < j < rest.len() implies ranks_at_least(
            #[trigger] rest[i].tax_per_sqft,
            #[trigger] rest[j].tax_per_sqft,
        ) by {
            assert(s[i + 1] == rest[i] && s[j + 1] == rest[j]);
        }
        assert forall|i: int| 0 <= i < rest.len() implies orderable(
            #[trigger] rest[i].tax_per_sqft,
        ) by {
            assert(s[i + 1] == rest[i]);
        }
        lemma_ranked_like_insert(x, rest, t);
        let r = insert_desc(x, s);
        assert(r.drop_first() =~= insert_desc(x, rest));
        assert(r[0] == s[0]);
        assert(ranked_like(r, t) =~= (if ranks_equal(x.tax_per_sqft, t) {
            ranked_like(s, t).push(x)
        } else {
            ranked_like(s, t)
        }));
    } else {
        let r = insert_desc(x, s);
        assert(r.drop_first() =~= s);
        if ranks_equal(x.tax_per_sqft, t) {
            assert forall|j: int| 0 <= j < s.len() implies !ranks_equal(
                #[trigger] s[j].tax_per_sqft,
                t,
            ) by {
                if ranks_equal(s[j].tax_per_sqft, t) {
                    lemma_ranks_transitive(s[j].tax_per_sqft, t, x.tax_per_sqft);
                    if j > 0 {
                        assert(ranks_at_least(s[0].tax_per_sqft, s[j].tax_per_sqft));
                        lemma_ranks_transitive(s[0].tax_per_sqft, s[j].tax_per_sqft, x.tax_per_sqft);
                    }
                }
            }
            lemma_ranked_like_none(s, t);
            assert(ranked_like(r, t) =~= ranked_like(s, t).push(x));
        } else {
            assert(ranked_like(r, t) =~= ranked_like(s, t));
        }
    }
}

proof fn lemma_sort_stable(s: Seq<TaxRecord>, t: TaxRatio)
    requires
        all_orderable(s),
        orderable(t),
    ensures
        ranked_like(sort_desc(s), t) == ranked_like(s, t),
    decreases s.len(),
{
    if s.len() > 0 {
        let p = s.drop_last();
        assert forall|i: int| 0 <= i < p.len() implies orderable(#[trigger] p[i].tax_per_sqft) by {
            assert(p[i] == s[i]);
        }
        lemma_sort_stable(p, t);
        lemma_sort_descending(p);
        assert(orderable(s[s.len() - 1].tax_per_sqft));
        lemma_ranked_like_insert(s.last(), sort_desc(p), t);
        assert(p.push(s.last()) =~= s);
        lemma_ranked_like_push(p, s.last(), t);
    }
}

/// The ranking is stable: before it is cut to `limit`, the records whose
/// ratios rank equal to any one ratio `t` come out in the order in which
/// they stand among the valid records of the year.
pub proof fn lemma_ranking_stable(s: Seq<TaxRecord>, year: Seq<char>, t: TaxRatio)
    requires
        forall|i: int| 0 <= i < s.len() ==> (#[trigger] s[i]).wf(),
        orderable(t),
    ensures
        ranked_like(sort_desc(selection(s, year)), t) == ranked_like(selection(s, year), t),
{
    let sel = selection(s, year);
    lemma_selection_wf(s, year);
    assert forall|i: int| 0 <= i < sel.len() implies orderable(#[trigger] sel[i].tax_per_sqft) by {
        lemma_ratio_of_orderable(sel[i].taxes_paid, sel[i].lot_size);
    }
    lemma_sort_stable(sel, t);
}

} // verus!
