//! The port status of one function across the whole parity view, and the
//! courts that vouch for it.
use vstd::prelude::*;
use crate::evidence::{FnEntry, FileParity, ClaimLadder, Court, PortKind, kind_of, classify};
use crate::text::{same_text, contains_text, occurs_in, opt_text};
use crate::select::{selects, lemma_selects_empty, lemma_selects_push, lemma_selects_concat};

verus! {

/// One entry of the parity view for the function asked about.
pub struct Hit {
    /// The C source file that holds the function.
    pub file: String,
    /// What the entry's status says.
    pub kind: PortKind,
    /// The entry's status text, as recorded.
    pub status: String,
    /// The Rust module that holds the port, where recorded.
    pub rust_module: Option<String>,
}

/// A hit, its text taken as characters.
pub struct HitView {
    pub file: Seq<char>,
    pub kind: PortKind,
    pub status: Seq<char>,
    pub rust_module: Option<Seq<char>>,
}

impl View for Hit {
    type V = HitView;

    open spec fn view(&self) -> HitView {
        HitView { file: self.file@, kind: self.kind, status: self.status@, rust_module: opt_text(self.rust_module) }
    }
}

/// The hit that an entry of `file` makes.
pub open spec fn hit_of(file: Seq<char>, e: FnEntry) -> HitView {
    HitView { file, kind: kind_of(e.rust_status@), status: e.rust_status@, rust_module: opt_text(e.rust_module) }
}

/// The hits for `name` among the entries of one file, in order.
pub open spec fn hits_in(file: Seq<char>, fns: Seq<FnEntry>, name: Seq<char>) -> Seq<HitView>
    decreases fns.len(),
{
    if fns.len() == 0 {
        Seq::empty()
    } else {
        let prev = hits_in(file, fns.drop_last(), name);
        if fns.last().function@ == name {
            prev.push(hit_of(file, fns.last()))
        } else {
            prev
        }
    }
}

/// The hits for `name` across the parity view: every entry of that name, in
/// the order of the files and of their entries.
pub open spec fn hits_of(parity: Seq<FileParity>, name: Seq<char>) -> Seq<HitView>
    decreases parity.len(),
{
    if parity.len() == 0 {
        Seq::empty()
    } else {
        hits_of(parity.drop_last(), name) + hits_in(parity.last().file@, parity.last().fns@, name)
    }
}

/// The ids of the courts whose `proven` prose mentions `name`, in ladder order.
pub open spec fn vouching(courts: Seq<Court>, name: Seq<char>) -> Seq<Seq<char>>
    decreases courts.len(),
{
    if courts.len() == 0 {
        Seq::empty()
    } else {
        let prev = vouching(courts.drop_last(), name);
        if courts.last().proven matches Some(p) && occurs_in(name, p@) {
            prev.push(courts.last().id@)
        } else {
            prev
        }
    }
}

/// A court vouches for `name` when its `proven` prose mentions the name.
pub open spec fn vouches_for(name: Seq<char>) -> spec_fn(Court) -> bool {
    |c: Court| c.proven matches Some(p) && occurs_in(name, p@)
}

/// A court's id.
pub open spec fn court_id() -> spec_fn(Court) -> Seq<char> {
    |c: Court| c.id@
}

/// The vouching courts are every court of the ladder whose prose mentions the
/// name, each listed once by its id, in ladder order, and no other.
pub proof fn lemma_vouching_selects(courts: Seq<Court>, name: Seq<char>)
    ensures
        selects(courts, vouching(courts, name), vouches_for(name), court_id()),
    decreases courts.len(),
{
    if courts.len() == 0 {
        lemma_selects_empty(vouches_for(name), court_id());
        assert(courts =~= Seq::<Court>::empty());
    } else {
        let init = courts.drop_last();
        lemma_vouching_selects(init, name);
        lemma_selects_push(init, vouching(init, name), vouches_for(name), court_id(), courts.last());
        assert(init.push(courts.last()) =~= courts);
    }
}

/// An entry is a hit for `name` when it carries that name.
pub open spec fn named(name: Seq<char>) -> spec_fn(FnEntry) -> bool {
    |e: FnEntry| e.function@ == name
}

/// The hit an entry of `file` makes, as a function.
pub open spec fn hit_in(file: Seq<char>) -> spec_fn(FnEntry) -> HitView {
    |e: FnEntry| hit_of(file, e)
}

/// The hits in one file are every entry of that name, in order, and no other.
pub proof fn lemma_hits_in_selects(file: Seq<char>, fns: Seq<FnEntry>, name: Seq<char>)
    ensures
        selects(fns, hits_in(file, fns, name), named(name), hit_in(file)),
    decreases fns.len(),
{
    if fns.len() == 0 {
        lemma_selects_empty(named(name), hit_in(file));
        assert(fns =~= Seq::<FnEntry>::empty());
    } else {
        let init = fns.drop_last();
        lemma_hits_in_selects(file, init, name);
        lemma_selects_push(init, hits_in(file, init, name), named(name), hit_in(file), fns.last());
        assert(init.push(fns.last()) =~= fns);
    }
}

/// Every entry of the parity view, each with the file that holds it.
pub open spec fn located_entries(parity: Seq<FileParity>) -> Seq<(Seq<char>, FnEntry)>
    decreases parity.len(),
{
    if parity.len() == 0 {
        Seq::empty()
    } else {
        located_entries(parity.drop_last()) + parity.last().fns@.map_values(|e: FnEntry| (parity.last().file@, e))
    }
}

/// A located entry is a hit for `name` when it carries that name.
pub open spec fn located_named(name: Seq<char>) -> spec_fn((Seq<char>, FnEntry)) -> bool {
    |le: (Seq<char>, FnEntry)| le.1.function@ == name
}

/// The hit a located entry makes.
pub open spec fn located_hit() -> spec_fn((Seq<char>, FnEntry)) -> HitView {
    |le: (Seq<char>, FnEntry)| hit_of(le.0, le.1)
}

/// The hits in one file, over its entries located in that file.
proof fn lemma_hits_in_located(file: Seq<char>, fns: Seq<FnEntry>, name: Seq<char>)
    ensures
        selects(fns.map_values(|e: FnEntry| (file, e)), hits_in(file, fns, name), located_named(name), located_hit()),
    decreases fns.len(),
{
    let located = fns.map_values(|e: FnEntry| (file, e));
    if fns.len() == 0 {
        lemma_selects_empty(located_named(name), located_hit());
        assert(located =~= Seq::<(Seq<char>, FnEntry)>::empty());
    } else {
        let init = fns.drop_last();
        lemma_hits_in_located(file, init, name);
        let li = init.map_values(|e: FnEntry| (file, e));
        lemma_selects_push(li, hits_in(file, init, name), located_named(name), located_hit(), (file, fns.last()));
        assert(li.push((file, fns.last())) =~= located);
    }
}

/// The hits for `name` are every entry of the parity view with that name, each
/// once, in the order of the files and of their entries, and no other.
pub proof fn lemma_hits_select(parity: Seq<FileParity>, name: Seq<char>)
    ensures
        selects(located_entries(parity), hits_of(parity, name), located_named(name), located_hit()),
    decreases parity.len(),
{
    if parity.len() == 0 {
        lemma_selects_empty(located_named(name), located_hit());
        assert(located_entries(parity) =~= Seq::<(Seq<char>, FnEntry)>::empty());
    } else {
        let init = parity.drop_last();
        let last = parity.last();
        lemma_hits_select(init, name);
        lemma_hits_in_located(last.file@, last.fns@, name);
        lemma_selects_concat(
            located_entries(init),
            hits_of(init, name),
            last.fns@.map_values(|e: FnEntry| (last.file@, e)),
            hits_in(last.file@, last.fns@, name),
            located_named(name),
            located_hit(),
        );
    }
}

/// The port status of one function.
pub struct Explanation {
    /// Every entry of that name, in the order of the parity view.
    pub hits: Vec<Hit>,
    /// The ids of the courts that vouch for it.
    pub courts: Vec<String>,
}

/// A file holds no hit exactly when none of its entries has the name.
pub proof fn lemma_hits_in_empty(file: Seq<char>, fns: Seq<FnEntry>, name: Seq<char>)
    ensures
        hits_in(file, fns, name).len() == 0 <==> forall|j: int| 0 <= j < fns.len() ==> (#[trigger] fns[j]).function@ != name,
    decreases fns.len(),
{
    if fns.len() > 0 {
        let init = fns.drop_last();
        lemma_hits_in_empty(file, init, name);
        assert forall|j: int| 0 <= j < init.len() implies #[trigger] init[j] == fns[j] by {}
        if hits_in(file, fns, name).len() == 0 {
            assert forall|j: int| 0 <= j < fns.len() implies (#[trigger] fns[j]).function@ != name by {
                if j < init.len() {
                    assert(init[j] == fns[j]);
                }
            }
        } else if hits_in(file, init, name).len() > 0 {
            let j = choose|j: int| 0 <= j < init.len() && (#[trigger] init[j]).function@ == name;
            assert(fns[j] == init[j]);
        } else {
            assert(fns[fns.len() - 1] == fns.last());
        }
    }
}

/// A name is found exactly when some file of the parity view has an entry of
/// that name.
pub proof fn lemma_not_found_iff_absent(parity: Seq<FileParity>, name: Seq<char>)
    ensures
        hits_of(parity, name).len() == 0 <==> forall|p: int, j: int|
            0 <= p < parity.len() && 0 <= j < parity[p].fns@.len() ==> (#[trigger] parity[p].fns@[j]).function@ != name,
    decreases parity.len(),
{
    if parity.len() > 0 {
        let init = parity.drop_last();
        let last = parity.last();
        lemma_not_found_iff_absent(init, name);
        lemma_hits_in_empty(last.file@, last.fns@, name);
        if hits_of(parity, name).len() == 0 {
            assert forall|p: int, j: int|
                0 <= p < parity.len() && 0 <= j < parity[p].fns@.len() implies (#[trigger] parity[p].fns@[j]).function@ != name by {
                if p < init.len() {
                    assert(init[p] == parity[p]);
                    assert(init[p].fns@[j].function@ != name);
                } else {
                    assert(parity[p] == last);
                }
            }
        } else if hits_of(init, name).len() > 0 {
            let (p, j) = choose|p: int, j: int|
                0 <= p < init.len() && 0 <= j < init[p].fns@.len() && (#[trigger] init[p].fns@[j]).function@ == name;
            assert(parity[p] == init[p]);
        } else {
            let j = choose|j: int| 0 <= j < last.fns@.len() && (#[trigger] last.fns@[j]).function@ == name;
            assert(parity[parity.len() - 1] == last);
            assert(parity[parity.len() - 1].fns@[j].function@ == name);
        }
    }
}

fn copy_opt_text(o: &Option<String>) -> (r: Option<String>)
    ensures
        opt_text(r) == opt_text(*o),
{
    match o {
        Some(s) => Some(s.clone()),
        None => None,
    }
}

/// Every entry of the parity view for the function `name`.
pub fn find_hits(parity: &Vec<FileParity>, name: &str) -> (r: Vec<Hit>)
    ensures
        r@.map_values(|h: Hit| h@) == hits_of(parity@, name@),
        selects(located_entries(parity@), r@.map_values(|h: Hit| h@), located_named(name@), located_hit()),
{
    proof {
        lemma_hits_select(parity@, name@);
    }
    let mut hits: Vec<Hit> = Vec::new();
    let mut p: usize = 0;
    assert(parity@.take(0) =~= Seq::<FileParity>::empty());
    while p < parity.len()
        invariant
            p <= parity.len(),
            hits@.map_values(|h: Hit| h@) == hits_of(parity@.take(p as int), name@),
        decreases parity.len() - p,
    {
        let fp = &parity[p];
        let ghost base = hits_of(parity@.take(p as int), name@);
        let mut j: usize = 0;
        assert(fp.fns@.take(0) =~= Seq::<FnEntry>::empty());
        assert(hits@.map_values(|h: Hit| h@) =~= base + hits_in(fp.file@, fp.fns@.take(0), name@));
        while j < fp.fns.len()
            invariant
                j <= fp.fns.len(),
                hits@.map_values(|h: Hit| h@) == base + hits_in(fp.file@, fp.fns@.take(j as int), name@),
            decreases fp.fns.len() - j,
        {
            let e = &fp.fns[j];
            let ghost before = hits@.map_values(|h: Hit| h@);
            proof {
                assert(fp.fns@.take(j + 1).drop_last() =~= fp.fns@.take(j as int));
                assert(fp.fns@.take(j + 1).last() == *e);
            }
            if same_text(e.function.as_str(), name) {
                let hit = Hit {
                    file: fp.file.clone(),
                    kind: classify(e.rust_status.as_str()),
                    status: e.rust_status.clone(),
                    rust_module: copy_opt_text(&e.rust_module),
                };
                assert(hit@ == hit_of(fp.file@, *e));
                hits.push(hit);
                assert(hits@.map_values(|h: Hit| h@) =~= before.push(hit@));
            }
            j = j + 1;
        }
        proof {
            assert(fp.fns@.take(j as int) =~= fp.fns@);
            assert(parity@.take(p + 1).drop_last() =~= parity@.take(p as int));
            assert(parity@.take(p + 1).last() == *fp);
        }
        p = p + 1;
    }
    assert(parity@.take(p as int) =~= parity@);
    hits
}

/// The ids of the courts whose `proven` prose mentions `name`: a loose
/// substring match, since a court describes its evidence in prose.
pub fn vouching_courts(ladder: &ClaimLadder, name: &str) -> (r: Vec<String>)
    ensures
        r@.map_values(|s: String| s@) == vouching(ladder.courts@, name@),
        selects(ladder.courts@, r@.map_values(|s: String| s@), vouches_for(name@), court_id()),
{
    proof {
        lemma_vouching_selects(ladder.courts@, name@);
    }
    let mut ids: Vec<String> = Vec::new();
    let mut i: usize = 0;
    assert(ladder.courts@.take(0) =~= Seq::<Court>::empty());
    while i < ladder.courts.len()
        invariant
            i <= ladder.courts.len(),
            ids@.map_values(|s: String| s@) == vouching(ladder.courts@.take(i as int), name@),
        decreases ladder.courts.len() - i,
    {
        let c = &ladder.courts[i];
        let ghost before = ids@.map_values(|s: String| s@);
        proof {
            assert(ladder.courts@.take(i + 1).drop_last() =~= ladder.courts@.take(i as int));
            assert(ladder.courts@.take(i + 1).last() == *c);
        }
        let mentions = match &c.proven {
            Some(p) => contains_text(p.as_str(), name),
            None => false,
        };
        if mentions {
            let id = c.id.clone();
            ids.push(id);
            assert(ids@.map_values(|s: String| s@) =~= before.push(c.id@));
        }
        i = i + 1;
    }
    assert(ladder.courts@.take(i as int) =~= ladder.courts@);
    ids
}

/// The port status of the function `name`: `None` when no file of the parity
/// view has an entry of that name (it is no C function of any covered module).
pub fn explain(parity: &Vec<FileParity>, ladder: &ClaimLadder, name: &str) -> (r: Option<Explanation>)
    ensures
        r is None <==> forall|p: int, j: int|
            0 <= p < parity@.len() && 0 <= j < parity@[p].fns@.len() ==> (#[trigger] parity@[p].fns@[j]).function@ != name@,
        r matches Some(x) ==> x.hits@.map_values(|h: Hit| h@) == hits_of(parity@, name@)
            && x.courts@.map_values(|s: String| s@) == vouching(ladder.courts@, name@),
        r matches Some(x) ==> selects(located_entries(parity@), x.hits@.map_values(|h: Hit| h@), located_named(name@), located_hit()),
        r matches Some(x) ==> selects(ladder.courts@, x.courts@.map_values(|s: String| s@), vouches_for(name@), court_id()),
{
    let hits = find_hits(parity, name);
    proof {
        lemma_not_found_iff_absent(parity@, name@);
        lemma_hits_select(parity@, name@);
    }
    if hits.len() == 0 {
        None
    } else {
        let courts = vouching_courts(ladder, name);
        Some(Explanation { hits, courts })
    }
}

} // verus!
