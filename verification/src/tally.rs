//! The tallied port status of one module, and the laws of the tally.
use vstd::prelude::*;
use vstd::multiset::Multiset;
use crate::evidence::{FnEntry, FileParity, PortKind, entry_kind, compiled, classify};

verus! {

/// The counts of a tally, as mathematical integers.
pub struct Counts {
    pub ported: nat,
    pub missing: nat,
    pub doc_only: nat,
    /// Doc-only hits on compiled functions, the ones that matter.
    pub doc_only_live: nat,
    pub disabled: nat,
}

/// The tallied port status of one module.
pub struct Tally {
    pub ported: u32,
    pub missing: u32,
    pub doc_only: u32,
    /// Doc-only hits on compiled C functions: a doc-only mention of a
    /// config-disabled function is benign and not counted here.
    pub doc_only_live: u32,
    pub disabled: u32,
}

impl View for Tally {
    type V = Counts;

    open spec fn view(&self) -> Counts {
        Counts {
            ported: self.ported as nat,
            missing: self.missing as nat,
            doc_only: self.doc_only as nat,
            doc_only_live: self.doc_only_live as nat,
            disabled: self.disabled as nat,
        }
    }
}

/// The empty tally.
pub open spec fn no_counts() -> Counts {
    Counts { ported: 0, missing: 0, doc_only: 0, doc_only_live: 0, disabled: 0 }
}

/// The tally after one more entry.
pub open spec fn count_entry(c: Counts, e: FnEntry) -> Counts {
    match entry_kind(e) {
        PortKind::Ported => Counts { ported: c.ported + 1, ..c },
        PortKind::Missing => Counts { missing: c.missing + 1, ..c },
        PortKind::DocOnly => Counts {
            doc_only: c.doc_only + 1,
            doc_only_live: if compiled(e) { c.doc_only_live + 1 } else { c.doc_only_live },
            ..c
        },
        PortKind::Disabled => Counts { disabled: c.disabled + 1, ..c },
        PortKind::Unrecognized => c,
    }
}

/// The tally of a list of entries, taken in order.
pub open spec fn tally_of(fns: Seq<FnEntry>) -> Counts
    decreases fns.len(),
{
    if fns.len() == 0 {
        no_counts()
    } else {
        count_entry(tally_of(fns.drop_last()), fns.last())
    }
}

/// Counts added field by field.
pub open spec fn add_counts(a: Counts, b: Counts) -> Counts {
    Counts {
        ported: a.ported + b.ported,
        missing: a.missing + b.missing,
        doc_only: a.doc_only + b.doc_only,
        doc_only_live: a.doc_only_live + b.doc_only_live,
        disabled: a.disabled + b.disabled,
    }
}

/// "complete": every compiled function has a real Rust `fn`, and no compiled
/// function is only named in a comment.
pub open spec fn complete(c: Counts) -> bool {
    c.missing == 0 && c.doc_only_live == 0
}

/// The portable surface: everything but `#if 0`-disabled functions and benign
/// doc-only mentions of non-compiled functions.
pub open spec fn portable(c: Counts) -> nat {
    c.ported + c.missing + c.doc_only_live
}

/// The parity as a fraction `(numerator, denominator)`: ported over portable,
/// and a whole when there is nothing portable.
pub open spec fn parity_fraction(c: Counts) -> (nat, nat) {
    if portable(c) == 0 {
        (1, 1)
    } else {
        (c.ported, portable(c))
    }
}

/// The parity fraction is the ported share of the portable surface: its
/// denominator is positive, numerator over denominator equals ported over
/// portable, it never exceeds a whole, and it is a whole exactly when the
/// module is complete (no missing function, no doc-only hit on a compiled one).
pub proof fn lemma_parity_fraction_is_share(c: Counts)
    ensures
        parity_fraction(c).1 > 0,
        parity_fraction(c).0 <= parity_fraction(c).1,
        parity_fraction(c).0 * (c.ported + c.missing + c.doc_only_live) == c.ported * parity_fraction(c).1,
        portable(c) > 0 ==> parity_fraction(c).1 == c.ported + c.missing + c.doc_only_live,
        parity_fraction(c).0 == parity_fraction(c).1 <==> c.missing == 0 && c.doc_only_live == 0,
        parity_fraction(c).0 == 0 <==> c.ported == 0 && c.missing + c.doc_only_live > 0,
{
    let p = c.ported + c.missing + c.doc_only_live;
    if p == 0 {
        assert(c.ported == 0);
    } else {
        assert(c.ported * p == p * c.ported) by (nonlinear_arith);
    }
}

/// The recognized entries never outnumber the entries.
pub proof fn lemma_tally_bounded(fns: Seq<FnEntry>)
    ensures
        tally_of(fns).ported + tally_of(fns).missing + tally_of(fns).doc_only + tally_of(fns).disabled
            <= fns.len(),
        tally_of(fns).doc_only_live <= tally_of(fns).doc_only,
    decreases fns.len(),
{
    if fns.len() > 0 {
        lemma_tally_bounded(fns.drop_last());
    }
}

/// Tallying two lists one after the other gives the sum of their tallies:
/// totals computed from summed counts equal the tally of all entries together.
pub proof fn lemma_tally_concat(a: Seq<FnEntry>, b: Seq<FnEntry>)
    ensures
        tally_of(a + b) == add_counts(tally_of(a), tally_of(b)),
    decreases b.len(),
{
    if b.len() == 0 {
        assert(a + b =~= a);
    } else {
        lemma_tally_concat(a, b.drop_last());
        assert((a + b).drop_last() =~= a + b.drop_last());
        assert((a + b).last() == b.last());
    }
}

/// A module's tally is complete exactly when none of its entries is missing
/// and none is a doc-only hit on a compiled function.
pub proof fn lemma_complete_iff_no_gap(fns: Seq<FnEntry>)
    ensures
        complete(tally_of(fns)) <==> forall|i: int|
            0 <= i < fns.len() ==> entry_kind(#[trigger] fns[i]) != PortKind::Missing && !(
            entry_kind(fns[i]) == PortKind::DocOnly && compiled(fns[i])),
    decreases fns.len(),
{
    if fns.len() > 0 {
        let init = fns.drop_last();
        lemma_complete_iff_no_gap(init);
        assert forall|i: int| 0 <= i < init.len() implies #[trigger] init[i] == fns[i] by {}
        if complete(tally_of(fns)) {
            assert forall|i: int| 0 <= i < fns.len() implies entry_kind(#[trigger] fns[i])
                != PortKind::Missing && !(entry_kind(fns[i]) == PortKind::DocOnly && compiled(
                fns[i],
            )) by {
                if i < init.len() {
                    assert(init[i] == fns[i]);
                }
            }
        } else {
            if complete(tally_of(init)) {
                let j = fns.len() - 1;
                assert(fns[j] == fns.last());
            } else {
                let j = choose|j: int|
                    0 <= j < init.len() && !(entry_kind(#[trigger] init[j]) != PortKind::Missing
                        && !(entry_kind(init[j]) == PortKind::DocOnly && compiled(init[j])));
                assert(init[j] == fns[j]);
            }
        }
    }
}

/// A doc-only mention of a function that is not compiled is benign: it neither
/// breaks nor mends completeness, and leaves the portable surface and the
/// ported count as they were.
pub proof fn lemma_benign_doc_only(fns: Seq<FnEntry>, e: FnEntry)
    requires
        entry_kind(e) == PortKind::DocOnly,
        !compiled(e),
    ensures
        complete(tally_of(fns.push(e))) == complete(tally_of(fns)),
        portable(tally_of(fns.push(e))) == portable(tally_of(fns)),
        tally_of(fns.push(e)).ported == tally_of(fns).ported,
{
    assert(fns.push(e).drop_last() =~= fns);
}

/// A `#if 0`-disabled function is no port target: it changes neither
/// completeness, nor the portable surface, nor the ported count.
pub proof fn lemma_disabled_not_portable(fns: Seq<FnEntry>, e: FnEntry)
    requires
        entry_kind(e) == PortKind::Disabled,
    ensures
        complete(tally_of(fns.push(e))) == complete(tally_of(fns)),
        portable(tally_of(fns.push(e))) == portable(tally_of(fns)),
        tally_of(fns.push(e)).ported == tally_of(fns).ported,
{
    assert(fns.push(e).drop_last() =~= fns);
}

/// What the tally reads of an entry: its kind, and whether it is compiled.
pub open spec fn status_key(e: FnEntry) -> (PortKind, bool) {
    (entry_kind(e), compiled(e))
}

/// The statuses of a list of entries, in no order.
pub open spec fn status_keys(fns: Seq<FnEntry>) -> Multiset<(PortKind, bool)> {
    fns.map_values(|e: FnEntry| status_key(e)).to_multiset()
}

/// The counts that a collection of statuses makes.
pub open spec fn counts_of(m: Multiset<(PortKind, bool)>) -> Counts {
    Counts {
        ported: m.count((PortKind::Ported, true)) + m.count((PortKind::Ported, false)),
        missing: m.count((PortKind::Missing, true)) + m.count((PortKind::Missing, false)),
        doc_only: m.count((PortKind::DocOnly, true)) + m.count((PortKind::DocOnly, false)),
        doc_only_live: m.count((PortKind::DocOnly, true)),
        disabled: m.count((PortKind::Disabled, true)) + m.count((PortKind::Disabled, false)),
    }
}

/// The tally is the count of the entries' statuses.
pub proof fn lemma_tally_counts_statuses(fns: Seq<FnEntry>)
    ensures
        tally_of(fns) == counts_of(status_keys(fns)),
    decreases fns.len(),
{
    broadcast use vstd::seq_lib::group_to_multiset_ensures;

    if fns.len() == 0 {
        assert(fns.map_values(|e: FnEntry| status_key(e)) =~= Seq::<(PortKind, bool)>::empty());
        assert(status_keys(fns) =~= Multiset::<(PortKind, bool)>::empty());
    } else {
        let init = fns.drop_last();
        lemma_tally_counts_statuses(init);
        let ks = init.map_values(|e: FnEntry| status_key(e));
        assert(fns.map_values(|e: FnEntry| status_key(e)) =~= ks.push(status_key(fns.last())));
        assert(status_keys(fns) =~= status_keys(init).insert(status_key(fns.last())));
    }
}

/// The tally depends on nothing but the statuses of the entries: two lists
/// whose entries carry the same statuses, in whatever order and whatever their
/// names, tally alike.
pub proof fn lemma_tally_order_free(a: Seq<FnEntry>, b: Seq<FnEntry>)
    requires
        status_keys(a) == status_keys(b),
    ensures
        tally_of(a) == tally_of(b),
{
    lemma_tally_counts_statuses(a);
    lemma_tally_counts_statuses(b);
}

impl Tally {
    /// Tallies the port states of one file's functions.
    pub fn of(fp: &FileParity) -> (t: Tally)
        requires
            fp.fns.len() <= u32::MAX,
        ensures
            t@ == tally_of(fp.fns@),
    {
        let mut t = Tally { ported: 0, missing: 0, doc_only: 0, doc_only_live: 0, disabled: 0 };
        let mut i: usize = 0;
        assert(fp.fns@.take(0) =~= Seq::<FnEntry>::empty());
        while i < fp.fns.len()
            invariant
                i <= fp.fns.len(),
                fp.fns.len() <= u32::MAX,
                t@ == tally_of(fp.fns@.take(i as int)),
            decreases fp.fns.len() - i,
        {
            let f = &fp.fns[i];
            proof {
                assert(fp.fns@.take(i + 1).drop_last() =~= fp.fns@.take(i as int));
                assert(fp.fns@.take(i + 1).last() == fp.fns@[i as int]);
                lemma_tally_bounded(fp.fns@.take(i + 1));
            }
            match classify(f.rust_status.as_str()) {
                PortKind::Ported => t.ported = t.ported + 1,
                PortKind::Missing => t.missing = t.missing + 1,
                PortKind::DocOnly => {
                    t.doc_only = t.doc_only + 1;
                    if f.is_compiled() {
                        t.doc_only_live = t.doc_only_live + 1;
                    }
                },
                PortKind::Disabled => t.disabled = t.disabled + 1,
                PortKind::Unrecognized => {},
            }
            i = i + 1;
        }
        assert(fp.fns@.take(i as int) =~= fp.fns@);
        t
    }

    /// "complete": no missing function and no doc-only hit on a compiled function.
    pub fn is_complete(&self) -> (r: bool)
        ensures
            r == complete(self@),
    {
        self.missing == 0 && self.doc_only_live == 0
    }

    /// The active parity as a fraction `(numerator, denominator)` of the
    /// portable surface; an empty surface counts as fully ported.
    pub fn parity_ratio(&self) -> (r: (u32, u32))
        requires
            portable(self@) <= u32::MAX,
        ensures
            (r.0 as nat, r.1 as nat) == parity_fraction(self@),
            r.1 > 0,
            r.0 <= r.1,
            r.0 * (self.ported + self.missing + self.doc_only_live) == self.ported * r.1,
            r.0 == r.1 <==> self.missing == 0 && self.doc_only_live == 0,
    {
        proof {
            lemma_parity_fraction_is_share(self@);
        }
        let portable = self.ported + self.missing + self.doc_only_live;
        if portable == 0 {
            (1, 1)
        } else {
            (self.ported, portable)
        }
    }
}

} // verus!
