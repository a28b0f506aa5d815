//! The porting driver: which functions are still missing, and which doc-only
//! comments are to be reworded.
use vstd::prelude::*;
use crate::evidence::{FnEntry, FileParity};
use crate::text::same_text;
use crate::select::{selects, lemma_selects_empty, lemma_selects_push};

verus! {

/// The work left in one file.
pub struct WorkItem {
    pub file: String,
    /// Functions with no port, in the order of the parity view.
    pub missing: Vec<String>,
    /// Functions only named in a comment, in the order of the parity view.
    pub doc_only: Vec<String>,
}

/// A work item, its text taken as characters.
pub struct WorkView {
    pub file: Seq<char>,
    pub missing: Seq<Seq<char>>,
    pub doc_only: Seq<Seq<char>>,
}

impl View for WorkItem {
    type V = WorkView;

    open spec fn view(&self) -> WorkView {
        WorkView {
            file: self.file@,
            missing: self.missing@.map_values(|s: String| s@),
            doc_only: self.doc_only@.map_values(|s: String| s@),
        }
    }
}

/// The names of the functions whose status text is `status`, in order.
pub open spec fn names_with_status(fns: Seq<FnEntry>, status: Seq<char>) -> Seq<Seq<char>>
    decreases fns.len(),
{
    if fns.len() == 0 {
        Seq::empty()
    } else {
        let prev = names_with_status(fns.drop_last(), status);
        if fns.last().rust_status@ == status {
            prev.push(fns.last().function@)
        } else {
            prev
        }
    }
}

/// The file passes the optional file filter.
pub open spec fn selected(file: Seq<char>, filter: Option<Seq<char>>) -> bool {
    match filter {
        Some(f) => file == f,
        None => true,
    }
}

/// The work items of the parity view: one per selected file that has a missing
/// function or a doc-only hit, in the order of the parity view.
pub open spec fn work_of(parity: Seq<FileParity>, filter: Option<Seq<char>>) -> Seq<WorkView>
    decreases parity.len(),
{
    if parity.len() == 0 {
        Seq::empty()
    } else {
        let prev = work_of(parity.drop_last(), filter);
        let fp = parity.last();
        let missing = names_with_status(fp.fns@, "missing"@);
        let doc_only = names_with_status(fp.fns@, "doc_only"@);
        if selected(fp.file@, filter) && (missing.len() > 0 || doc_only.len() > 0) {
            prev.push(WorkView { file: fp.file@, missing, doc_only })
        } else {
            prev
        }
    }
}

/// An entry whose status text is `status`.
pub open spec fn has_status(status: Seq<char>) -> spec_fn(FnEntry) -> bool {
    |e: FnEntry| e.rust_status@ == status
}

/// An entry's function name.
pub open spec fn fn_name() -> spec_fn(FnEntry) -> Seq<char> {
    |e: FnEntry| e.function@
}

/// The names listed for a status are those of every entry with that status,
/// each once, in the order of the parity view, and no other.
pub proof fn lemma_names_select(fns: Seq<FnEntry>, status: Seq<char>)
    ensures
        selects(fns, names_with_status(fns, status), has_status(status), fn_name()),
    decreases fns.len(),
{
    if fns.len() == 0 {
        lemma_selects_empty(has_status(status), fn_name());
        assert(fns =~= Seq::<FnEntry>::empty());
    } else {
        let init = fns.drop_last();
        lemma_names_select(init, status);
        lemma_selects_push(init, names_with_status(init, status), has_status(status), fn_name(), fns.last());
        assert(init.push(fns.last()) =~= fns);
    }
}

/// A file has work left under the filter.
pub open spec fn needs_work(filter: Option<Seq<char>>) -> spec_fn(FileParity) -> bool {
    |fp: FileParity| selected(fp.file@, filter) && (names_with_status(fp.fns@, "missing"@).len() > 0
        || names_with_status(fp.fns@, "doc_only"@).len() > 0)
}

/// The work item of a file.
pub open spec fn work_item_of() -> spec_fn(FileParity) -> WorkView {
    |fp: FileParity| WorkView {
        file: fp.file@,
        missing: names_with_status(fp.fns@, "missing"@),
        doc_only: names_with_status(fp.fns@, "doc_only"@),
    }
}

/// The work items are one per selected file with work left, in the order of
/// the parity view, and no other.
pub proof fn lemma_work_selects(parity: Seq<FileParity>, filter: Option<Seq<char>>)
    ensures
        selects(parity, work_of(parity, filter), needs_work(filter), work_item_of()),
    decreases parity.len(),
{
    if parity.len() == 0 {
        lemma_selects_empty(needs_work(filter), work_item_of());
        assert(parity =~= Seq::<FileParity>::empty());
    } else {
        let init = parity.drop_last();
        lemma_work_selects(init, filter);
        lemma_selects_push(init, work_of(init, filter), needs_work(filter), work_item_of(), parity.last());
        assert(init.push(parity.last()) =~= parity);
    }
}

/// No name is listed exactly when no entry has the status.
pub proof fn lemma_no_names_iff(fns: Seq<FnEntry>, status: Seq<char>)
    ensures
        names_with_status(fns, status).len() == 0 <==> forall|j: int| 0 <= j < fns.len() ==> (#[trigger] fns[j]).rust_status@ != status,
    decreases fns.len(),
{
    if fns.len() > 0 {
        let init = fns.drop_last();
        lemma_no_names_iff(init, status);
        if names_with_status(fns, status).len() == 0 {
            assert forall|j: int| 0 <= j < fns.len() implies (#[trigger] fns[j]).rust_status@ != status by {
                if j < init.len() {
                    assert(init[j] == fns[j]);
                }
            }
        } else if names_with_status(init, status).len() > 0 {
            let j = choose|j: int| 0 <= j < init.len() && (#[trigger] init[j]).rust_status@ == status;
            assert(fns[j] == init[j]);
        } else {
            assert(fns[fns.len() - 1] == fns.last());
        }
    }
}

/// Nothing is left to do exactly when no selected file has a missing function
/// or a doc-only hit.
pub proof fn lemma_nothing_left_iff(parity: Seq<FileParity>, filter: Option<Seq<char>>)
    ensures
        work_of(parity, filter).len() == 0 <==> forall|p: int, j: int|
            0 <= p < parity.len() && selected(parity[p].file@, filter) && 0 <= j < parity[p].fns@.len() ==> (#[trigger] parity[p].fns@[j]).rust_status@ != "missing"@
                && parity[p].fns@[j].rust_status@ != "doc_only"@,
    decreases parity.len(),
{
    if parity.len() > 0 {
        let init = parity.drop_last();
        let last = parity.last();
        lemma_nothing_left_iff(init, filter);
        lemma_no_names_iff(last.fns@, "missing"@);
        lemma_no_names_iff(last.fns@, "doc_only"@);
        if work_of(parity, filter).len() == 0 {
            assert forall|p: int, j: int|
                0 <= p < parity.len() && selected(parity[p].file@, filter) && 0 <= j < parity[p].fns@.len() implies (#[trigger] parity[p].fns@[j]).rust_status@ != "missing"@
                    && parity[p].fns@[j].rust_status@ != "doc_only"@ by {
                if p < init.len() {
                    assert(init[p] == parity[p]);
                } else {
                    assert(parity[p] == last);
                }
            }
        } else if work_of(init, filter).len() > 0 {
            let (p, j) = choose|p: int, j: int|
                0 <= p < init.len() && selected(init[p].file@, filter) && 0 <= j < init[p].fns@.len() && !((#[trigger] init[p].fns@[j]).rust_status@ != "missing"@
                    && init[p].fns@[j].rust_status@ != "doc_only"@);
            assert(parity[p] == init[p]);
        } else {
            assert(parity[parity.len() - 1] == last);
            if names_with_status(last.fns@, "missing"@).len() > 0 {
                let j = choose|j: int| 0 <= j < last.fns@.len() && (#[trigger] last.fns@[j]).rust_status@ == "missing"@;
                assert(parity[parity.len() - 1].fns@[j].rust_status@ == "missing"@);
            } else {
                let j = choose|j: int| 0 <= j < last.fns@.len() && (#[trigger] last.fns@[j]).rust_status@ == "doc_only"@;
                assert(parity[parity.len() - 1].fns@[j].rust_status@ == "doc_only"@);
            }
        }
    }
}

/// The names of the functions of `fns` whose status text is `status`.
fn names_with(fns: &Vec<FnEntry>, status: &str) -> (r: Vec<String>)
    ensures
        r@.map_values(|s: String| s@) == names_with_status(fns@, status@),
        selects(fns@, r@.map_values(|s: String| s@), has_status(status@), fn_name()),
{
    proof {
        lemma_names_select(fns@, status@);
    }
    let mut names: Vec<String> = Vec::new();
    let mut j: usize = 0;
    assert(fns@.take(0) =~= Seq::<FnEntry>::empty());
    while j < fns.len()
        invariant
            j <= fns.len(),
            names@.map_values(|s: String| s@) == names_with_status(fns@.take(j as int), status@),
        decreases fns.len() - j,
    {
        let e = &fns[j];
        let ghost before = names@.map_values(|s: String| s@);
        proof {
            assert(fns@.take(j + 1).drop_last() =~= fns@.take(j as int));
            assert(fns@.take(j + 1).last() == *e);
        }
        if same_text(e.rust_status.as_str(), status) {
            names.push(e.function.clone());
            assert(names@.map_values(|s: String| s@) =~= before.push(e.function@));
        }
        j = j + 1;
    }
    assert(fns@.take(j as int) =~= fns@);
    names
}

/// The work left: for each file of the parity view (only the file named by
/// `filter`, where one is given) that has missing functions or doc-only hits,
/// the names of both kinds. Empty exactly when nothing is left to do.
pub fn next_work(parity: &Vec<FileParity>, filter: Option<&str>) -> (r: Vec<WorkItem>)
    ensures
        r@.map_values(|w: WorkItem| w@) == work_of(
            parity@,
            match filter {
                Some(f) => Some(f@),
                None => None,
            },
        ),
        selects(
            parity@,
            r@.map_values(|w: WorkItem| w@),
            needs_work(
                match filter {
                    Some(f) => Some(f@),
                    None => None,
                },
            ),
            work_item_of(),
        ),
{
    proof {
        lemma_work_selects(parity@, match filter {
            Some(f) => Some(f@),
            None => None,
        });
    }
    let ghost fv = match filter {
        Some(f) => Some(f@),
        None => None::<Seq<char>>,
    };
    let mut items: Vec<WorkItem> = Vec::new();
    let mut p: usize = 0;
    assert(parity@.take(0) =~= Seq::<FileParity>::empty());
    while p < parity.len()
        invariant
            p <= parity.len(),
            fv == match filter {
                Some(f) => Some(f@),
                None => None::<Seq<char>>,
            },
            items@.map_values(|w: WorkItem| w@) == work_of(parity@.take(p as int), fv),
        decreases parity.len() - p,
    {
        let fp = &parity[p];
        let ghost before = items@.map_values(|w: WorkItem| w@);
        proof {
            assert(parity@.take(p + 1).drop_last() =~= parity@.take(p as int));
            assert(parity@.take(p + 1).last() == *fp);
        }
        let wanted = match filter {
            Some(f) => same_text(fp.file.as_str(), f),
            None => true,
        };
        if wanted {
            let missing = names_with(&fp.fns, "missing");
            let doc_only = names_with(&fp.fns, "doc_only");
            if missing.len() > 0 || doc_only.len() > 0 {
                let item = WorkItem { file: fp.file.clone(), missing, doc_only };
                items.push(item);
                assert(items@.map_values(|w: WorkItem| w@) =~= before.push(item@));
            }
        }
        p = p + 1;
    }
    assert(parity@.take(p as int) =~= parity@);
    items
}

} // verus!
