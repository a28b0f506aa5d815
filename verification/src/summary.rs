//! The parity table across all modules, with a total row that sums the raw
//! per-file counts (never the percentages).
use vstd::prelude::*;
use crate::evidence::{FnEntry, FileParity};
use crate::tally::{Tally, Counts, tally_of, add_counts, no_counts, portable, parity_fraction, lemma_tally_concat, lemma_tally_bounded};

verus! {

/// Every entry of the parity view, file after file.
pub open spec fn all_entries(parity: Seq<FileParity>) -> Seq<FnEntry>
    decreases parity.len(),
{
    if parity.len() == 0 {
        Seq::empty()
    } else {
        all_entries(parity.drop_last()) + parity.last().fns@
    }
}

/// The total row's parity, re-derived from the summed counts with the same
/// formula as a file's: ported over the portable surface (ported, missing and
/// doc-only hits on compiled functions), and a whole when that surface is empty.
pub open spec fn overall_fraction(c: Counts) -> (nat, nat) {
    parity_fraction(c)
}

/// The parity table: one row per file, and the totals.
pub struct ParityTable {
    /// The tally of each file, in the order of the parity view.
    pub rows: Vec<Tally>,
    /// The per-file counts summed.
    pub totals: Tally,
}

/// Builds the parity table.
pub fn parity_table(parity: &Vec<FileParity>) -> (r: ParityTable)
    requires
        all_entries(parity@).len() <= u32::MAX,
    ensures
        r.rows@.len() == parity@.len(),
        forall|p: int| 0 <= p < parity@.len() ==> (#[trigger] r.rows@[p])@ == tally_of(parity@[p].fns@),
        r.totals@ == tally_of(all_entries(parity@)),
{
    let mut rows: Vec<Tally> = Vec::new();
    let mut totals = Tally { ported: 0, missing: 0, doc_only: 0, doc_only_live: 0, disabled: 0 };
    let mut p: usize = 0;
    assert(parity@.take(0) =~= Seq::<FileParity>::empty());
    assert(tally_of(Seq::<FnEntry>::empty()) == no_counts());
    while p < parity.len()
        invariant
            p <= parity.len(),
            all_entries(parity@).len() <= u32::MAX,
            rows@.len() == p,
            forall|q: int| 0 <= q < p ==> (#[trigger] rows@[q])@ == tally_of(parity@[q].fns@),
            totals@ == tally_of(all_entries(parity@.take(p as int))),
        decreases parity.len() - p,
    {
        let fp = &parity[p];
        proof {
            assert(parity@.take(p + 1).drop_last() =~= parity@.take(p as int));
            assert(parity@.take(p + 1).last() == *fp);
            lemma_tally_concat(all_entries(parity@.take(p as int)), fp.fns@);
            lemma_entries_prefix(parity@, p + 1);
            lemma_tally_bounded(all_entries(parity@.take(p + 1)));
        }
        let t = Tally::of(fp);
        totals = Tally {
            ported: totals.ported + t.ported,
            missing: totals.missing + t.missing,
            doc_only: totals.doc_only + t.doc_only,
            doc_only_live: totals.doc_only_live + t.doc_only_live,
            disabled: totals.disabled + t.disabled,
        };
        rows.push(t);
        p = p + 1;
    }
    assert(parity@.take(p as int) =~= parity@);
    ParityTable { rows, totals }
}

/// A prefix of the parity view holds no more entries than the whole.
proof fn lemma_entries_prefix(parity: Seq<FileParity>, n: int)
    requires
        0 <= n <= parity.len(),
    ensures
        all_entries(parity.take(n)).len() <= all_entries(parity).len(),
        parity[n - 1].fns@.len() <= all_entries(parity).len() || n == 0,
    decreases parity.len(),
{
    if n < parity.len() {
        assert(parity.drop_last().take(n) =~= parity.take(n));
        lemma_entries_prefix(parity.drop_last(), n);
        if n > 0 {
            assert(parity.drop_last()[n - 1] == parity[n - 1]);
        }
    } else {
        assert(parity.take(n) =~= parity);
        if n > 0 {
            assert(parity[n - 1] == parity.last());
        }
    }
}

/// The total row's parity as a fraction `(numerator, denominator)`.
pub fn overall_ratio(totals: &Tally) -> (r: (u32, u32))
    requires
        portable(totals@) <= u32::MAX,
    ensures
        (r.0 as nat, r.1 as nat) == overall_fraction(totals@),
        r.1 > 0,
        r.0 <= r.1,
        r.0 * (totals.ported + totals.missing + totals.doc_only_live) == totals.ported * r.1,
        r.0 == r.1 <==> totals.missing == 0 && totals.doc_only_live == 0,
{
    totals.parity_ratio()
}

/// The totals are the tally of every entry taken together, so the total row
/// can always be weighed: its counts fit the table's integers.
pub proof fn lemma_totals_fit(parity: Seq<FileParity>)
    requires
        all_entries(parity).len() <= u32::MAX,
    ensures
        portable(tally_of(all_entries(parity))) <= u32::MAX,
{
    lemma_tally_bounded(all_entries(parity));
}

/// The total row sums the per-file counts: the totals of two parity views put
/// together are the sum of their totals.
pub proof fn lemma_totals_additive(a: Seq<FileParity>, b: Seq<FileParity>)
    ensures
        tally_of(all_entries(a + b)) == add_counts(tally_of(all_entries(a)), tally_of(all_entries(b))),
    decreases b.len(),
{
    if b.len() == 0 {
        assert(a + b =~= a);
        assert(all_entries(b) =~= Seq::<FnEntry>::empty());
        assert(all_entries(a) + all_entries(b) =~= all_entries(a));
    } else {
        lemma_totals_additive(a, b.drop_last());
        assert((a + b).drop_last() =~= a + b.drop_last());
        assert((a + b).last() == b.last());
        lemma_tally_concat(all_entries(a + b.drop_last()), b.last().fns@);
        lemma_tally_concat(all_entries(b.drop_last()), b.last().fns@);
    }
}

} // verus!
