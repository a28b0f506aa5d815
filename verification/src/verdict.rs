//! The closure-math check: every module's claim is held against its evidence.
//! A module that claims `complete` must have no missing function and no
//! doc-only false hit on a compiled function, it must meet its parity floor,
//! and every court it requires must be sealed; otherwise the check fails.
use vstd::prelude::*;
use crate::claims::{ModuleClaim, claims_complete};
use crate::evidence::{FileParity, ClaimLadder, Court, sealed_in};
use crate::table::{SortedTable, keys_ascending, has_key, lookup, lemma_lookup_some};
use crate::tally::{Tally, Counts, tally_of, complete};
use crate::text::{same_text, lex_lt};
use crate::select::{selects, lemma_selects_empty, lemma_selects_push};

verus! {

/// One reason why a module's claim is not backed by its evidence.
pub enum Note {
    /// It claims `complete` but has missing functions or doc-only hits on
    /// compiled functions.
    OverClaim { missing: u32, doc_only_live: u32 },
    /// Its parity is below the floor it set itself.
    BelowFloor,
    /// It requires a court that is not sealed.
    UnsealedCourt(String),
}

/// A note, its text taken as characters.
pub enum NoteView {
    OverClaim { missing: nat, doc_only_live: nat },
    BelowFloor,
    UnsealedCourt(Seq<char>),
}

impl View for Note {
    type V = NoteView;

    open spec fn view(&self) -> NoteView {
        match self {
            Note::OverClaim { missing, doc_only_live } => NoteView::OverClaim {
                missing: *missing as nat,
                doc_only_live: *doc_only_live as nat,
            },
            Note::BelowFloor => NoteView::BelowFloor,
            Note::UnsealedCourt(c) => NoteView::UnsealedCourt(c@),
        }
    }
}

/// One way in which a claim out-ran its evidence.
pub enum Violation {
    /// The module is declared but absent from the parity view.
    Absent(String),
    /// The module's claim is broken for the noted reason.
    Broken(String, Note),
}

/// A violation, its text taken as characters.
pub enum ViolationView {
    Absent(Seq<char>),
    Broken(Seq<char>, NoteView),
}

impl View for Violation {
    type V = ViolationView;

    open spec fn view(&self) -> ViolationView {
        match self {
            Violation::Absent(f) => ViolationView::Absent(f@),
            Violation::Broken(f, n) => ViolationView::Broken(f@, n@),
        }
    }
}

/// The verdict on one declared module that the parity view holds.
pub struct ModuleLine {
    pub file: String,
    pub tally: Tally,
    /// How many courts the module requires.
    pub required: usize,
    /// Why the claim is not backed; empty when it is.
    pub notes: Vec<Note>,
}

/// A module line, its text taken as characters.
pub struct LineView {
    pub file: Seq<char>,
    pub counts: Counts,
    pub required: nat,
    pub notes: Seq<NoteView>,
}

impl View for ModuleLine {
    type V = LineView;

    open spec fn view(&self) -> LineView {
        LineView {
            file: self.file@,
            counts: self.tally@,
            required: self.required as nat,
            notes: self.notes@.map_values(|n: Note| n@),
        }
    }
}

/// What the check found.
pub struct CheckReport {
    /// One line per declared module present in the parity view, in the order
    /// of the declarations.
    pub lines: Vec<ModuleLine>,
    /// Every way a claim out-ran its evidence, all of them, not only the first.
    pub violations: Vec<Violation>,
    /// How many declared modules were found in the parity view.
    pub checked: usize,
    /// Files of the parity view that no module declares, in ascending order.
    pub undeclared: Vec<String>,
}

/// The index of the parity entry for `file`: the last entry of that name.
pub open spec fn file_index(parity: Seq<FileParity>, file: Seq<char>) -> Option<int>
    decreases parity.len(),
{
    if parity.len() == 0 {
        None
    } else if parity.last().file@ == file {
        Some(parity.len() - 1)
    } else {
        file_index(parity.drop_last(), file)
    }
}

/// The required courts that are not sealed, in the order required.
pub open spec fn unsealed_notes(needed: Seq<String>, courts: Seq<Court>) -> Seq<NoteView>
    decreases needed.len(),
{
    if needed.len() == 0 {
        Seq::empty()
    } else {
        let prev = unsealed_notes(needed.drop_last(), courts);
        if sealed_in(courts, needed.last()@) {
            prev
        } else {
            prev.push(NoteView::UnsealedCourt(needed.last()@))
        }
    }
}

/// The notes on one module, in the order the rules are applied: completeness,
/// parity floor, required courts.
pub open spec fn module_notes(claim: ModuleClaim, t: Counts, below_floor: bool, courts: Seq<Court>) -> Seq<NoteView> {
    (if claims_complete(claim) && !complete(t) {
        seq![NoteView::OverClaim { missing: t.missing, doc_only_live: t.doc_only_live }]
    } else {
        Seq::empty()
    }) + (if below_floor {
        seq![NoteView::BelowFloor]
    } else {
        Seq::empty()
    }) + unsealed_notes(claim.requires@, courts)
}

/// A module that does not claim `complete` (no claim at all, or any other
/// claim text) is never noted as an over-claim, whatever its tally; and one
/// that claims `complete` is noted exactly when its tally has a gap.
pub proof fn lemma_over_claim_only_for_complete(claim: ModuleClaim, t: Counts, below_floor: bool, courts: Seq<Court>)
    ensures
        !(claim.claim is Some && claim.claim->0@ == "complete"@) ==> forall|i: int|
            0 <= i < module_notes(claim, t, below_floor, courts).len() ==> !(#[trigger] module_notes(
                claim,
                t,
                below_floor,
                courts,
            )[i] is OverClaim),
        (claim.claim is Some && claim.claim->0@ == "complete"@ && (t.missing > 0 || t.doc_only_live > 0)) ==> module_notes(
            claim,
            t,
            below_floor,
            courts,
        )[0] == (NoteView::OverClaim { missing: t.missing, doc_only_live: t.doc_only_live }),
{
    lemma_unsealed_only_courts(claim.requires@, courts);
    let notes = module_notes(claim, t, below_floor, courts);
    if !(claim.claim is Some && claim.claim->0@ == "complete"@) {
        assert forall|i: int| 0 <= i < notes.len() implies !(#[trigger] notes[i] is OverClaim) by {
            let head: Seq<NoteView> = if below_floor { seq![NoteView::BelowFloor] } else { Seq::empty() };
            assert(notes =~= head + unsealed_notes(claim.requires@, courts));
            if i >= head.len() {
                assert(notes[i] == unsealed_notes(claim.requires@, courts)[i - head.len()]);
            }
        }
    }
}

/// The notes on required courts name unsealed courts only.
pub proof fn lemma_unsealed_only_courts(needed: Seq<String>, courts: Seq<Court>)
    ensures
        forall|i: int| 0 <= i < unsealed_notes(needed, courts).len() ==> #[trigger] unsealed_notes(needed, courts)[i] is UnsealedCourt,
    decreases needed.len(),
{
    if needed.len() > 0 {
        lemma_unsealed_only_courts(needed.drop_last(), courts);
    }
}

/// Lines, violations and count of checked modules after the first `n` modules.
pub struct Progress {
    pub lines: Seq<LineView>,
    pub violations: Seq<ViolationView>,
    pub checked: nat,
}

/// The findings on the first `n` declared modules.
pub open spec fn verdict_upto(
    modules: Seq<(Seq<char>, ModuleClaim)>,
    parity: Seq<FileParity>,
    courts: Seq<Court>,
    floors: Seq<bool>,
    n: nat,
) -> Progress
    decreases n,
{
    if n == 0 {
        Progress { lines: Seq::empty(), violations: Seq::empty(), checked: 0 }
    } else {
        let prev = verdict_upto(modules, parity, courts, floors, (n - 1) as nat);
        let name = modules[n - 1].0;
        let claim = modules[n - 1].1;
        match file_index(parity, name) {
            None => Progress {
                violations: prev.violations.push(ViolationView::Absent(name)),
                ..prev
            },
            Some(i) => {
                let t = tally_of(parity[i].fns@);
                let notes = module_notes(claim, t, floors[n - 1], courts);
                Progress {
                    lines: prev.lines.push(
                        LineView { file: name, counts: t, required: claim.requires@.len(), notes },
                    ),
                    violations: prev.violations + notes.map_values(
                        |note: NoteView| ViolationView::Broken(name, note),
                    ),
                    checked: prev.checked + 1,
                }
            },
        }
    }
}

/// A module's claim is backed by the evidence: the parity view holds the
/// module; if it claims `complete`, it has no missing function and no doc-only
/// hit on a compiled function; it meets its floor; and every court it requires
/// is sealed.
pub open spec fn claim_backed(
    name: Seq<char>,
    claim: ModuleClaim,
    parity: Seq<FileParity>,
    courts: Seq<Court>,
    below_floor: bool,
) -> bool {
    &&& file_index(parity, name) is Some
    &&& claims_complete(claim) ==> complete(tally_of(parity[file_index(parity, name)->0].fns@))
    &&& !below_floor
    &&& forall|j: int| 0 <= j < claim.requires.len() ==> sealed_in(courts, #[trigger] claim.requires@[j]@)
}

/// Every declared module's claim is backed.
pub open spec fn all_claims_backed(
    modules: Seq<(Seq<char>, ModuleClaim)>,
    parity: Seq<FileParity>,
    courts: Seq<Court>,
    floors: Seq<bool>,
) -> bool {
    forall|k: int| 0 <= k < modules.len() ==> claim_backed(#[trigger] modules[k].0, modules[k].1, parity, courts, floors[k])
}

/// The files that no module declares: each parity file name not declared,
/// once, in ascending order.
pub open spec fn lists_undeclared(
    names: Seq<Seq<char>>,
    modules: Seq<(Seq<char>, ModuleClaim)>,
    parity: Seq<FileParity>,
) -> bool {
    &&& forall|i: int, j: int| 0 <= i < j < names.len() ==> crate::text::lex_lt(#[trigger] names[i], #[trigger] names[j])
    &&& forall|n: Seq<char>| #[trigger] names.contains(n) <==> (exists|p: int| 0 <= p < parity.len() && #[trigger] parity[p].file@ == n) && !has_key(modules, n)
}

/// The entry found for a file is one of that name.
pub proof fn lemma_file_index(parity: Seq<FileParity>, file: Seq<char>)
    ensures
        file_index(parity, file) matches Some(i) ==> 0 <= i < parity.len() && parity[i].file@ == file,
        file_index(parity, file) is None ==> forall|p: int| 0 <= p < parity.len() ==> #[trigger] parity[p].file@ != file,
    decreases parity.len(),
{
    if parity.len() > 0 {
        let init = parity.drop_last();
        lemma_file_index(init, file);
        if file_index(parity, file) is None {
            assert forall|p: int| 0 <= p < parity.len() implies #[trigger] parity[p].file@ != file by {
                if p < parity.len() - 1 {
                    assert(init[p] == parity[p]);
                    assert(init[p].file@ != file);
                }
            }
        } else if parity.last().file@ != file {
            let i = file_index(init, file)->0;
            assert(init[i] == parity[i]);
        }
    }
}

/// The notes on the required courts are empty exactly when every required
/// court is sealed.
pub proof fn lemma_unsealed_empty(needed: Seq<String>, courts: Seq<Court>)
    ensures
        unsealed_notes(needed, courts).len() == 0 <==> forall|j: int| 0 <= j < needed.len() ==> sealed_in(courts, #[trigger] needed[j]@),
    decreases needed.len(),
{
    if needed.len() > 0 {
        let init = needed.drop_last();
        lemma_unsealed_empty(init, courts);
        assert forall|j: int| 0 <= j < init.len() implies #[trigger] init[j] == needed[j] by {}
        if forall|j: int| 0 <= j < needed.len() ==> sealed_in(courts, #[trigger] needed[j]@) {
            assert(sealed_in(courts, needed[needed.len() - 1]@));
            assert forall|j: int| 0 <= j < init.len() implies sealed_in(courts, #[trigger] init[j]@) by {
                assert(sealed_in(courts, needed[j]@));
            }
        }
        if unsealed_notes(needed, courts).len() == 0 {
            assert forall|j: int| 0 <= j < needed.len() implies sealed_in(courts, #[trigger] needed[j]@) by {
                if j < init.len() {
                    assert(sealed_in(courts, init[j]@));
                }
            }
        }
    }
}

/// The check passes exactly when every declared module's claim is backed by its
/// evidence: a claim cannot assert more than the evidence proves.
pub proof fn lemma_passes_iff_backed(
    modules: Seq<(Seq<char>, ModuleClaim)>,
    parity: Seq<FileParity>,
    courts: Seq<Court>,
    floors: Seq<bool>,
    n: nat,
)
    requires
        n <= modules.len(),
        floors.len() == modules.len(),
    ensures
        verdict_upto(modules, parity, courts, floors, n).violations.len() == 0 <==> forall|k: int|
            0 <= k < n ==> claim_backed(#[trigger] modules[k].0, modules[k].1, parity, courts, floors[k]),
    decreases n,
{
    if n > 0 {
        lemma_passes_iff_backed(modules, parity, courts, floors, (n - 1) as nat);
        let k = n - 1;
        let name = modules[k].0;
        let claim = modules[k].1;
        lemma_unsealed_empty(claim.requires@, courts);
        match file_index(parity, name) {
            None => {},
            Some(i) => {
                let t = tally_of(parity[i].fns@);
                let notes = module_notes(claim, t, floors[k], courts);
                let prev = verdict_upto(modules, parity, courts, floors, k as nat);
                assert(verdict_upto(modules, parity, courts, floors, n).violations.len() == prev.violations.len() + notes.len());
                if claim_backed(name, claim, parity, courts, floors[k]) {
                    assert(notes =~= Seq::<NoteView>::empty());
                }
            },
        }
    }
}

/// The check reports the modules in ascending order of file name, whatever
/// order the parity view lists them in: every line belongs to one of the first
/// `n` declared modules, and the lines stand in strictly ascending order.
pub proof fn lemma_lines_ascending(
    modules: Seq<(Seq<char>, ModuleClaim)>,
    parity: Seq<FileParity>,
    courts: Seq<Court>,
    floors: Seq<bool>,
    n: nat,
)
    requires
        n <= modules.len(),
        keys_ascending(modules),
    ensures
        ({
            let lines = verdict_upto(modules, parity, courts, floors, n).lines;
            &&& forall|a: int| 0 <= a < lines.len() ==> exists|m: int| 0 <= m < n && (#[trigger] lines[a]).file == #[trigger] modules[m].0
            &&& forall|a: int, b: int| 0 <= a < b < lines.len() ==> lex_lt(#[trigger] lines[a].file, #[trigger] lines[b].file)
        }),
    decreases n,
{
    if n > 0 {
        lemma_lines_ascending(modules, parity, courts, floors, (n - 1) as nat);
        let prev = verdict_upto(modules, parity, courts, floors, (n - 1) as nat).lines;
        let lines = verdict_upto(modules, parity, courts, floors, n).lines;
        let k = n - 1;
        if file_index(parity, modules[k].0) is Some {
            assert(lines.len() == prev.len() + 1);
            assert forall|a: int| 0 <= a < prev.len() implies lex_lt(#[trigger] prev[a].file, modules[k].0) by {
                let m = choose|m: int| 0 <= m < n - 1 && (#[trigger] prev[a]).file == #[trigger] modules[m].0;
                assert(lex_lt(modules[m].0, modules[k].0));
            }
            assert forall|a: int| 0 <= a < lines.len() implies exists|m: int| 0 <= m < n && (#[trigger] lines[a]).file == #[trigger] modules[m].0 by {
                if a < prev.len() {
                    assert(lines[a] == prev[a]);
                    let m = choose|m: int| 0 <= m < n - 1 && (#[trigger] prev[a]).file == #[trigger] modules[m].0;
                    assert(lines[a].file == modules[m].0);
                } else {
                    assert(lines[a].file == modules[k].0);
                }
            }
            assert forall|a: int, b: int| 0 <= a < b < lines.len() implies lex_lt(#[trigger] lines[a].file, #[trigger] lines[b].file) by {
                assert(lines[a] == prev[a]);
                if b < prev.len() {
                    assert(lines[b] == prev[b]);
                }
            }
        }
    }
}

/// The declared modules, each with its floor verdict.
pub open spec fn declared_with_floors(modules: Seq<(Seq<char>, ModuleClaim)>, floors: Seq<bool>) -> Seq<((Seq<char>, ModuleClaim), bool)> {
    Seq::new(modules.len(), |k: int| (modules[k], floors[k]))
}

/// A declared module that the parity view holds.
pub open spec fn present_in(parity: Seq<FileParity>) -> spec_fn(((Seq<char>, ModuleClaim), bool)) -> bool {
    |d: ((Seq<char>, ModuleClaim), bool)| file_index(parity, d.0.0) is Some
}

/// The line of a declared module that the parity view holds.
pub open spec fn line_for(parity: Seq<FileParity>, courts: Seq<Court>) -> spec_fn(((Seq<char>, ModuleClaim), bool)) -> LineView {
    |d: ((Seq<char>, ModuleClaim), bool)| {
        let t = tally_of(parity[file_index(parity, d.0.0)->0].fns@);
        LineView { file: d.0.0, counts: t, required: d.0.1.requires@.len(), notes: module_notes(d.0.1, t, d.1, courts) }
    }
}

/// There is one line for every declared module that the parity view holds,
/// in the order of the declarations, and no other; the count of checked
/// modules is the number of lines; and every declared module that the parity
/// view lacks, and only such a module, is reported absent.
pub proof fn lemma_lines_select(
    modules: Seq<(Seq<char>, ModuleClaim)>,
    parity: Seq<FileParity>,
    courts: Seq<Court>,
    floors: Seq<bool>,
    n: nat,
)
    requires
        n <= modules.len(),
        floors.len() == modules.len(),
    ensures
        selects(
            declared_with_floors(modules, floors).take(n as int),
            verdict_upto(modules, parity, courts, floors, n).lines,
            present_in(parity),
            line_for(parity, courts),
        ),
        verdict_upto(modules, parity, courts, floors, n).checked == verdict_upto(modules, parity, courts, floors, n).lines.len(),
        forall|k: int| 0 <= k < n && file_index(parity, #[trigger] modules[k].0) is None ==> verdict_upto(modules, parity, courts, floors, n).violations.contains(ViolationView::Absent(modules[k].0)),
        forall|name: Seq<char>| #[trigger] verdict_upto(modules, parity, courts, floors, n).violations.contains(ViolationView::Absent(name)) ==> exists|k: int| 0 <= k < n && modules[k].0 == name && file_index(parity, name) is None,
    decreases n,
{
    let d = declared_with_floors(modules, floors);
    let g = verdict_upto(modules, parity, courts, floors, n);
    if n == 0 {
        lemma_selects_empty(present_in(parity), line_for(parity, courts));
        assert(d.take(0) =~= Seq::<((Seq<char>, ModuleClaim), bool)>::empty());
    } else {
        let k = n - 1;
        let prev = verdict_upto(modules, parity, courts, floors, k as nat);
        lemma_lines_select(modules, parity, courts, floors, k as nat);
        lemma_selects_push(d.take(k as int), prev.lines, present_in(parity), line_for(parity, courts), d[k]);
        assert(d.take(k as int).push(d[k]) =~= d.take(n as int));
        assert(d[k] == (modules[k], floors[k]));
        match file_index(parity, modules[k].0) {
            None => {
                assert(g.violations == prev.violations.push(ViolationView::Absent(modules[k].0)));
                assert(g.violations[prev.violations.len() as int] == ViolationView::Absent(modules[k].0));
                assert forall|m: int| 0 <= m < n && file_index(parity, #[trigger] modules[m].0) is None implies g.violations.contains(ViolationView::Absent(modules[m].0)) by {
                    if m < k {
                        let j = choose|j: int| 0 <= j < prev.violations.len() && prev.violations[j] == ViolationView::Absent(modules[m].0);
                        assert(g.violations[j] == prev.violations[j]);
                    }
                }
                assert forall|name: Seq<char>| #[trigger] g.violations.contains(ViolationView::Absent(name)) implies exists|m: int| 0 <= m < n && modules[m].0 == name && file_index(parity, name) is None by {
                    let j = choose|j: int| 0 <= j < g.violations.len() && g.violations[j] == ViolationView::Absent(name);
                    if j < prev.violations.len() {
                        assert(prev.violations.contains(ViolationView::Absent(name)));
                    }
                }
            },
            Some(i) => {
                let t = tally_of(parity[i].fns@);
                let notes = module_notes(modules[k].1, t, floors[k], courts);
                let broken = notes.map_values(|note: NoteView| ViolationView::Broken(modules[k].0, note));
                assert(g.violations == prev.violations + broken);
                assert forall|m: int| 0 <= m < n && file_index(parity, #[trigger] modules[m].0) is None implies g.violations.contains(ViolationView::Absent(modules[m].0)) by {
                    let j = choose|j: int| 0 <= j < prev.violations.len() && prev.violations[j] == ViolationView::Absent(modules[m].0);
                    assert(g.violations[j] == prev.violations[j]);
                }
                assert forall|name: Seq<char>| #[trigger] g.violations.contains(ViolationView::Absent(name)) implies exists|m: int| 0 <= m < n && modules[m].0 == name && file_index(parity, name) is None by {
                    let j = choose|j: int| 0 <= j < g.violations.len() && g.violations[j] == ViolationView::Absent(name);
                    if j < prev.violations.len() {
                        assert(prev.violations.contains(ViolationView::Absent(name)));
                    } else {
                        assert(g.violations[j] == broken[j - prev.violations.len()]);
                    }
                }
            },
        }
    }
}

/// Sealing more courts never fails a check that passed: whatever is sealed in
/// the first ladder is sealed in the second.
pub proof fn lemma_more_sealed_still_passes(
    modules: Seq<(Seq<char>, ModuleClaim)>,
    parity: Seq<FileParity>,
    courts: Seq<Court>,
    more: Seq<Court>,
    floors: Seq<bool>,
)
    requires
        forall|id: Seq<char>| sealed_in(courts, id) ==> #[trigger] sealed_in(more, id),
        all_claims_backed(modules, parity, courts, floors),
    ensures
        all_claims_backed(modules, parity, more, floors),
{
    assert forall|k: int| 0 <= k < modules.len() implies claim_backed(#[trigger] modules[k].0, modules[k].1, parity, more, floors[k]) by {
        assert(claim_backed(modules[k].0, modules[k].1, parity, courts, floors[k]));
        let req = modules[k].1.requires@;
        assert forall|j: int| 0 <= j < req.len() implies sealed_in(more, #[trigger] req[j]@) by {
            assert(sealed_in(courts, req[j]@));
        }
    }
}

/// Claim `c2`, with floor verdict `below2`, asks no more than claim `c1`
/// with floor verdict `below1`: it claims `complete` only if `c1` does, it is
/// below its floor only if `c1` is (a floor no higher than `c1`'s, on the same
/// evidence), and every court it requires `c1` requires too.
pub open spec fn asks_no_more(c2: ModuleClaim, below2: bool, c1: ModuleClaim, below1: bool) -> bool {
    &&& claims_complete(c2) ==> claims_complete(c1)
    &&& below2 ==> below1
    &&& forall|j: int| 0 <= j < c2.requires.len() ==> exists|i: int|
        0 <= i < c1.requires.len() && (#[trigger] c1.requires@[i])@ == (#[trigger] c2.requires@[j])@
}

/// Weakening or dropping claims never turns a pass into a fail: when every
/// module of the second declaration is declared in the first with a claim that
/// asks at least as much, and the first passes on some evidence, the second
/// passes on the same evidence.
pub proof fn lemma_weaker_claims_still_pass(
    strong: Seq<(Seq<char>, ModuleClaim)>,
    strong_floors: Seq<bool>,
    weak: Seq<(Seq<char>, ModuleClaim)>,
    weak_floors: Seq<bool>,
    parity: Seq<FileParity>,
    courts: Seq<Court>,
)
    requires
        all_claims_backed(strong, parity, courts, strong_floors),
        forall|k: int| 0 <= k < weak.len() ==> exists|m: int|
            0 <= m < strong.len() && strong[m].0 == (#[trigger] weak[k]).0 && asks_no_more(
                weak[k].1,
                weak_floors[k],
                strong[m].1,
                strong_floors[m],
            ),
    ensures
        all_claims_backed(weak, parity, courts, weak_floors),
{
    assert forall|k: int| 0 <= k < weak.len() implies claim_backed(#[trigger] weak[k].0, weak[k].1, parity, courts, weak_floors[k]) by {
        let m = choose|m: int|
            0 <= m < strong.len() && strong[m].0 == weak[k].0 && asks_no_more(weak[k].1, weak_floors[k], strong[m].1, strong_floors[m]);
        assert(claim_backed(strong[m].0, strong[m].1, parity, courts, strong_floors[m]));
        let c1 = strong[m].1;
        let c2 = weak[k].1;
        assert forall|j: int| 0 <= j < c2.requires.len() implies sealed_in(courts, #[trigger] c2.requires@[j]@) by {
            let i = choose|i: int| 0 <= i < c1.requires.len() && (#[trigger] c1.requires@[i])@ == c2.requires@[j]@;
            assert(sealed_in(courts, c1.requires@[i]@));
        }
    }
}

/// The parity entries of declared files, in order.
pub open spec fn declared_entries(parity: Seq<FileParity>, modules: Seq<(Seq<char>, ModuleClaim)>) -> Seq<FileParity>
    decreases parity.len(),
{
    if parity.len() == 0 {
        Seq::empty()
    } else {
        let prev = declared_entries(parity.drop_last(), modules);
        if has_key(modules, parity.last().file@) {
            prev.push(parity.last())
        } else {
            prev
        }
    }
}

/// The parity entry that stands for `file`, if any.
pub open spec fn entry_for(parity: Seq<FileParity>, file: Seq<char>) -> Option<FileParity> {
    match file_index(parity, file) {
        Some(i) => Some(parity[i]),
        None => None,
    }
}

/// For a declared file, the entries of undeclared files make no difference.
pub proof fn lemma_entry_for_declared(parity: Seq<FileParity>, modules: Seq<(Seq<char>, ModuleClaim)>, file: Seq<char>)
    requires
        has_key(modules, file),
    ensures
        entry_for(parity, file) == entry_for(declared_entries(parity, modules), file),
    decreases parity.len(),
{
    if parity.len() > 0 {
        let init = parity.drop_last();
        lemma_entry_for_declared(init, modules, file);
        let d = declared_entries(parity, modules);
        let di = declared_entries(init, modules);
        lemma_file_index(init, file);
        lemma_file_index(di, file);
        if parity.last().file@ == file {
            assert(parity[parity.len() - 1] == parity.last());
            assert(d.drop_last() =~= di);
            assert(d[d.len() - 1] == d.last());
        } else {
            if let Some(i) = file_index(init, file) {
                assert(parity[i] == init[i]);
            }
            if has_key(modules, parity.last().file@) {
                assert(d.drop_last() =~= di);
                assert(d.last() == parity.last());
                if let Some(i) = file_index(di, file) {
                    assert(d[i] == di[i]);
                }
            }
        }
    }
}

/// The findings depend on the parity view only through the entries that stand
/// for the declared files.
pub proof fn lemma_findings_follow_entries(
    modules: Seq<(Seq<char>, ModuleClaim)>,
    p1: Seq<FileParity>,
    p2: Seq<FileParity>,
    courts: Seq<Court>,
    floors: Seq<bool>,
    n: nat,
)
    requires
        n <= modules.len(),
        forall|k: int| 0 <= k < n ==> entry_for(p1, #[trigger] modules[k].0) == entry_for(p2, modules[k].0),
    ensures
        verdict_upto(modules, p1, courts, floors, n) == verdict_upto(modules, p2, courts, floors, n),
    decreases n,
{
    if n > 0 {
        lemma_findings_follow_entries(modules, p1, p2, courts, floors, (n - 1) as nat);
        let k = n - 1;
        assert(entry_for(p1, modules[k].0) == entry_for(p2, modules[k].0));
    }
}

/// Files of the parity view that no module declares never change the outcome:
/// two parity views that agree on the entries of declared files give the same
/// lines, violations and count, and the same pass or fail.
pub proof fn lemma_undeclared_files_change_nothing(
    modules: Seq<(Seq<char>, ModuleClaim)>,
    p1: Seq<FileParity>,
    p2: Seq<FileParity>,
    courts: Seq<Court>,
    floors: Seq<bool>,
)
    requires
        declared_entries(p1, modules) == declared_entries(p2, modules),
    ensures
        verdict_upto(modules, p1, courts, floors, modules.len()) == verdict_upto(modules, p2, courts, floors, modules.len()),
        all_claims_backed(modules, p1, courts, floors) == all_claims_backed(modules, p2, courts, floors),
{
    assert forall|k: int| 0 <= k < modules.len() implies entry_for(p1, #[trigger] modules[k].0) == entry_for(p2, modules[k].0) by {
        assert(has_key(modules, modules[k].0));
        lemma_entry_for_declared(p1, modules, modules[k].0);
        lemma_entry_for_declared(p2, modules, modules[k].0);
    }
    lemma_findings_follow_entries(modules, p1, p2, courts, floors, modules.len());
    assert forall|k: int| 0 <= k < modules.len() implies claim_backed(#[trigger] modules[k].0, modules[k].1, p1, courts, floors[k])
        == claim_backed(modules[k].0, modules[k].1, p2, courts, floors[k]) by {
        assert(entry_for(p1, modules[k].0) == entry_for(p2, modules[k].0));
    }
}

/// The parity entry for `file`: the last entry of that name.
pub fn find_file(parity: &Vec<FileParity>, file: &str) -> (r: Option<usize>)
    ensures
        r matches Some(i) ==> file_index(parity@, file@) == Some(i as int),
        r is None ==> file_index(parity@, file@) is None,
{
    let mut n: usize = parity.len();
    assert(parity@.take(n as int) =~= parity@);
    while n > 0
        invariant
            n <= parity.len(),
            file_index(parity@, file@) == file_index(parity@.take(n as int), file@),
        decreases n,
    {
        proof {
            assert(parity@.take(n as int).drop_last() =~= parity@.take(n - 1));
        }
        if same_text(parity[n - 1].file.as_str(), file) {
            return Some(n - 1);
        }
        n = n - 1;
    }
    None
}

/// The notes on one module whose tally is `t`.
fn notes_for(claim: &ModuleClaim, t: &Tally, below_floor: bool, ladder: &ClaimLadder) -> (r: Vec<Note>)
    ensures
        r@.map_values(|n: Note| n@) == module_notes(*claim, t@, below_floor, ladder.courts@),
{
    let mut notes: Vec<Note> = Vec::new();
    if claim.is_complete_claim() && !t.is_complete() {
        notes.push(Note::OverClaim { missing: t.missing, doc_only_live: t.doc_only_live });
    }
    if below_floor {
        notes.push(Note::BelowFloor);
    }
    let ghost head = notes@.map_values(|n: Note| n@);
    proof {
        assert(head =~= (if claims_complete(*claim) && !complete(t@) {
            seq![NoteView::OverClaim { missing: t@.missing, doc_only_live: t@.doc_only_live }]
        } else {
            Seq::empty()
        }) + (if below_floor {
            seq![NoteView::BelowFloor]
        } else {
            Seq::empty()
        }));
        assert(claim.requires@.take(0) =~= Seq::<String>::empty());
    }
    let mut j: usize = 0;
    while j < claim.requires.len()
        invariant
            j <= claim.requires.len(),
            notes@.map_values(|n: Note| n@) == head + unsealed_notes(claim.requires@.take(j as int), ladder.courts@),
        decreases claim.requires.len() - j,
    {
        let court = &claim.requires[j];
        proof {
            assert(claim.requires@.take(j + 1).drop_last() =~= claim.requires@.take(j as int));
        }
        let ghost before = notes@.map_values(|n: Note| n@);
        let ghost upto = claim.requires@.take(j + 1);
        proof {
            assert(upto.last() == *court);
        }
        if !ladder.is_sealed(court.as_str()) {
            let note = Note::UnsealedCourt(court.clone());
            notes.push(note);
            assert(notes@.map_values(|n: Note| n@) =~= before.push(note@));
            assert(unsealed_notes(upto, ladder.courts@) == unsealed_notes(claim.requires@.take(j as int), ladder.courts@).push(note@));
            assert(notes@.map_values(|n: Note| n@) =~= head + unsealed_notes(upto, ladder.courts@));
        }
        j = j + 1;
    }
    assert(claim.requires@.take(j as int) =~= claim.requires@);
    notes
}

/// A copy of a note.
fn copy_note(n: &Note) -> (r: Note)
    ensures
        r@ == n@,
{
    match n {
        Note::OverClaim { missing, doc_only_live } => Note::OverClaim { missing: *missing, doc_only_live: *doc_only_live },
        Note::BelowFloor => Note::BelowFloor,
        Note::UnsealedCourt(c) => Note::UnsealedCourt(c.clone()),
    }
}

/// The tally of every declared module that the parity view holds, `None` for
/// one it does not hold, in the order of the declarations.
pub fn module_tallies(modules: &SortedTable<ModuleClaim>, parity: &Vec<FileParity>) -> (r: Vec<Option<Tally>>)
    requires
        forall|p: int| 0 <= p < parity@.len() ==> (#[trigger] parity@[p]).fns@.len() <= u32::MAX,
    ensures
        r@.len() == modules@.len(),
        forall|k: int| 0 <= k < r@.len() ==> match file_index(parity@, #[trigger] modules@[k].0) {
            None => r@[k] is None,
            Some(i) => r@[k] matches Some(t) && t@ == tally_of(parity@[i].fns@),
        },
{
    let n = modules.len();
    let mut out: Vec<Option<Tally>> = Vec::new();
    let mut k: usize = 0;
    while k < n
        invariant
            n == modules@.len(),
            k <= n,
            out@.len() == k,
            forall|p: int| 0 <= p < parity@.len() ==> (#[trigger] parity@[p]).fns@.len() <= u32::MAX,
            forall|m: int| 0 <= m < k ==> match file_index(parity@, #[trigger] modules@[m].0) {
                None => out@[m] is None,
                Some(i) => out@[m] matches Some(t) && t@ == tally_of(parity@[i].fns@),
            },
        decreases n - k,
    {
        let name = modules.key(k);
        match find_file(parity, name.as_str()) {
            None => out.push(None),
            Some(i) => {
                proof {
                    lemma_file_index(parity@, name@);
                }
                out.push(Some(Tally::of(&parity[i])));
            },
        }
        k = k + 1;
    }
    out
}

/// The files of the parity view that no module declares, each once, in
/// ascending order.
pub fn undeclared_files(modules: &SortedTable<ModuleClaim>, parity: &Vec<FileParity>) -> (r: Vec<String>)
    ensures
        lists_undeclared(r@.map_values(|s: String| s@), modules@, parity@),
{
    let mut found: SortedTable<()> = SortedTable::new();
    let mut p: usize = 0;
    while p < parity.len()
        invariant
            p <= parity.len(),
            forall|n: Seq<char>| #[trigger] has_key(found@, n) <==> (exists|q: int| 0 <= q < p && #[trigger] parity@[q].file@ == n) && !has_key(modules@, n),
        decreases parity.len() - p,
    {
        let file = &parity[p].file;
        if !modules.contains_key(file.as_str()) {
            let ghost before = found@;
            found.insert(file.clone(), ());
            proof {
                assert forall|n: Seq<char>| #[trigger] has_key(found@, n) <==> (exists|q: int| 0 <= q < p + 1 && #[trigger] parity@[q].file@ == n) && !has_key(modules@, n) by {
                    lemma_lookup_some(found@, n);
                    lemma_lookup_some(before, n);
                    assert(lookup(found@, n) == if n == file@ { Some(()) } else { lookup(before, n) });
                    if n == file@ {
                        assert(parity@[p as int].file@ == n);
                    } else if (exists|q: int| 0 <= q < p + 1 && #[trigger] parity@[q].file@ == n) {
                        let q = choose|q: int| 0 <= q < p + 1 && #[trigger] parity@[q].file@ == n;
                        assert(q < p);
                    }
                }
            }
        } else {
            proof {
                assert forall|n: Seq<char>| #[trigger] has_key(found@, n) <==> (exists|q: int| 0 <= q < p + 1 && #[trigger] parity@[q].file@ == n) && !has_key(modules@, n) by {
                    if (exists|q: int| 0 <= q < p + 1 && #[trigger] parity@[q].file@ == n) && !has_key(modules@, n) {
                        let q = choose|q: int| 0 <= q < p + 1 && #[trigger] parity@[q].file@ == n;
                        if q == p {
                            assert(has_key(modules@, n));
                        }
                        assert(q < p);
                    }
                }
            }
        }
        p = p + 1;
    }
    let count = found.len();
    let mut names: Vec<String> = Vec::new();
    let mut i: usize = 0;
    while i < count
        invariant
            count == found@.len(),
            keys_ascending(found@),
            i <= count,
            names@.len() == i,
            forall|m: int| 0 <= m < i ==> (#[trigger] names@[m])@ == found@[m].0,
        decreases count - i,
    {
        names.push(found.key(i).clone());
        i = i + 1;
    }
    let ghost view = names@.map_values(|s: String| s@);
    proof {
        assert forall|n: Seq<char>| #[trigger] view.contains(n) <==> has_key(found@, n) by {
            if view.contains(n) {
                let m = choose|m: int| 0 <= m < view.len() && view[m] == n;
                assert(found@[m].0 == n);
            }
            if has_key(found@, n) {
                let m = choose|m: int| 0 <= m < found@.len() && #[trigger] found@[m].0 == n;
                assert(view[m] == n);
            }
        }
        assert forall|a: int, b: int| 0 <= a < b < view.len() implies crate::text::lex_lt(#[trigger] view[a], #[trigger] view[b]) by {
            assert(view[a] == found@[a].0 && view[b] == found@[b].0);
        }
    }
    names
}

/// Holds every declared module's claim against its evidence. `floors[k]` says
/// whether the `k`-th declared module falls below the parity floor it set
/// (false where it sets none or the parity view does not hold it).
pub fn check_claims(
    modules: &SortedTable<ModuleClaim>,
    parity: &Vec<FileParity>,
    ladder: &ClaimLadder,
    floors: &Vec<bool>,
) -> (r: CheckReport)
    requires
        floors@.len() == modules@.len(),
        forall|p: int| 0 <= p < parity@.len() ==> (#[trigger] parity@[p]).fns@.len() <= u32::MAX,
    ensures
        ({
            let g = verdict_upto(modules@, parity@, ladder.courts@, floors@, modules@.len());
            &&& r.lines@.map_values(|l: ModuleLine| l@) == g.lines
            &&& r.violations@.map_values(|v: Violation| v@) == g.violations
            &&& r.checked == g.checked
        }),
        r.violations@.len() == 0 <==> all_claims_backed(modules@, parity@, ladder.courts@, floors@),
        forall|a: int, b: int| 0 <= a < b < r.lines@.len() ==> lex_lt(#[trigger] r.lines@[a].file@, #[trigger] r.lines@[b].file@),
        selects(
            declared_with_floors(modules@, floors@),
            r.lines@.map_values(|l: ModuleLine| l@),
            present_in(parity@),
            line_for(parity@, ladder.courts@),
        ),
        r.checked == r.lines@.len(),
        lists_undeclared(r.undeclared@.map_values(|s: String| s@), modules@, parity@),
{
    let n = modules.len();
    let mut lines: Vec<ModuleLine> = Vec::new();
    let mut violations: Vec<Violation> = Vec::new();
    let mut checked: usize = 0;
    let mut k: usize = 0;
    while k < n
        invariant
            n == modules@.len(),
            k <= n,
            floors@.len() == n,
            forall|p: int| 0 <= p < parity@.len() ==> (#[trigger] parity@[p]).fns@.len() <= u32::MAX,
            ({
                let g = verdict_upto(modules@, parity@, ladder.courts@, floors@, k as nat);
                &&& lines@.map_values(|l: ModuleLine| l@) == g.lines
                &&& violations@.map_values(|v: Violation| v@) == g.violations
                &&& checked == g.checked
            }),
            checked <= k,
        decreases n - k,
    {
        let name = modules.key(k);
        let claim = modules.value(k);
        let ghost prev_lines = lines@.map_values(|l: ModuleLine| l@);
        let ghost prev_viol = violations@.map_values(|v: Violation| v@);
        match find_file(parity, name.as_str()) {
            None => {
                violations.push(Violation::Absent(name.clone()));
                assert(violations@.map_values(|v: Violation| v@) =~= prev_viol.push(ViolationView::Absent(name@)));
                assert(lines@.map_values(|l: ModuleLine| l@) =~= prev_lines);
            },
            Some(i) => {
                proof {
                    lemma_file_index(parity@, name@);
                }
                checked = checked + 1;
                let t = Tally::of(&parity[i]);
                let notes = notes_for(claim, &t, floors[k], ladder);
                let ghost nv = notes@.map_values(|x: Note| x@);
                let mut j: usize = 0;
                while j < notes.len()
                    invariant
                        j <= notes@.len(),
                        nv == notes@.map_values(|x: Note| x@),
                        violations@.map_values(|v: Violation| v@) == prev_viol + nv.take(j as int).map_values(
                            |note: NoteView| ViolationView::Broken(name@, note),
                        ),
                    decreases notes@.len() - j,
                {
                    let ghost before = violations@.map_values(|v: Violation| v@);
                    let v = Violation::Broken(name.clone(), copy_note(&notes[j]));
                    assert(v@ == ViolationView::Broken(name@, nv[j as int]));
                    violations.push(v);
                    assert(violations@.map_values(|v: Violation| v@) =~= before.push(v@));
                    assert(nv.take(j + 1) =~= nv.take(j as int).push(nv[j as int]));
                    assert(nv.take(j + 1).map_values(|note: NoteView| ViolationView::Broken(name@, note)) =~= nv.take(j as int).map_values(|note: NoteView| ViolationView::Broken(name@, note)).push(v@));
                    assert(violations@.map_values(|v: Violation| v@) =~= prev_viol + nv.take(j + 1).map_values(
                        |note: NoteView| ViolationView::Broken(name@, note),
                    ));
                    j = j + 1;
                }
                assert(nv.take(j as int) =~= nv);
                let line = ModuleLine { file: name.clone(), tally: t, required: claim.requires.len(), notes };
                lines.push(line);
                assert(lines@.map_values(|l: ModuleLine| l@) =~= prev_lines.push(line@));
            },
        }
        k = k + 1;
    }
    proof {
        lemma_passes_iff_backed(modules@, parity@, ladder.courts@, floors@, n as nat);
        lemma_lines_ascending(modules@, parity@, ladder.courts@, floors@, n as nat);
        lemma_lines_select(modules@, parity@, ladder.courts@, floors@, n as nat);
        assert(declared_with_floors(modules@, floors@).take(n as int) =~= declared_with_floors(modules@, floors@));
        let lv = lines@.map_values(|l: ModuleLine| l@);
        assert forall|a: int, b: int| 0 <= a < b < lines@.len() implies lex_lt(#[trigger] lines@[a].file@, #[trigger] lines@[b].file@) by {
            assert(lv[a].file == lines@[a].file@ && lv[b].file == lines@[b].file@);
        }
    }
    let undeclared = undeclared_files(modules, parity);
    CheckReport { lines, violations, checked, undeclared }
}

} // verus!
