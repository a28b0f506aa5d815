//! The evidence a port produces: the parity view (one entry per C source file,
//! each with the port status of its functions) and the claim ladder (the courts,
//! some of them sealed).
use vstd::prelude::*;
use crate::text::same_text;

verus! {

/// The port status of one C function, as the parity view records it.
pub struct FnEntry {
    /// The C function's name.
    pub function: String,
    /// `active` / `inactive` / `test` (a real Rust `fn`), `missing` (no port),
    /// `doc_only` (the name only appears in a comment), or `disabled` (`#if 0`).
    pub rust_status: String,
    /// `compiled`, or something else such as `config_disabled`; absent means compiled.
    pub preprocessor_status: Option<String>,
    /// The Rust module that holds the port, where the view records one.
    pub rust_module: Option<String>,
}

/// The functions of one C source file.
pub struct FileParity {
    pub file: String,
    pub fns: Vec<FnEntry>,
}

/// One court of the claim ladder.
pub struct Court {
    pub id: String,
    /// Present exactly when the court is sealed.
    pub sealed_version: Option<String>,
    /// Prose describing what the court proves.
    pub proven: Option<String>,
}

/// The claim ladder: every court, sealed or not.
pub struct ClaimLadder {
    pub courts: Vec<Court>,
}

/// What a `rust_status` says of a function.
#[derive(Clone, Copy, Debug, PartialEq, Eq)]
pub enum PortKind {
    /// `active`, `inactive` or `test`: a real Rust `fn` ports it.
    Ported,
    /// `missing`: no port.
    Missing,
    /// `doc_only`: the name appears only in a comment, a false hit.
    DocOnly,
    /// `disabled`: behind `#if 0` in the C, not a port target.
    Disabled,
    /// Any other status.
    Unrecognized,
}

/// How a status text is read.
pub open spec fn kind_of(status: Seq<char>) -> PortKind {
    if status == "active"@ || status == "inactive"@ || status == "test"@ {
        PortKind::Ported
    } else if status == "missing"@ {
        PortKind::Missing
    } else if status == "doc_only"@ {
        PortKind::DocOnly
    } else if status == "disabled"@ {
        PortKind::Disabled
    } else {
        PortKind::Unrecognized
    }
}

/// The kind of an entry of the parity view.
pub open spec fn entry_kind(e: FnEntry) -> PortKind {
    kind_of(e.rust_status@)
}

/// An entry counts as compiled unless its preprocessor status says otherwise:
/// an absent status is the conservative default, compiled.
pub open spec fn compiled(e: FnEntry) -> bool {
    match e.preprocessor_status {
        Some(s) => s@ == "compiled"@,
        None => true,
    }
}

/// The six status words differ from one another.
proof fn lemma_status_words_differ()
    ensures
        "active"@ != "inactive"@ && "active"@ != "test"@ && "active"@ != "missing"@ && "active"@ != "doc_only"@
            && "active"@ != "disabled"@,
        "inactive"@ != "test"@ && "inactive"@ != "missing"@ && "inactive"@ != "doc_only"@ && "inactive"@ != "disabled"@,
        "test"@ != "missing"@ && "test"@ != "doc_only"@ && "test"@ != "disabled"@,
        "missing"@ != "doc_only"@ && "missing"@ != "disabled"@,
        "doc_only"@ != "disabled"@,
{
    reveal_strlit("active");
    reveal_strlit("inactive");
    reveal_strlit("test");
    reveal_strlit("missing");
    reveal_strlit("doc_only");
    reveal_strlit("disabled");
    assert("active"@.len() == 6 && "inactive"@.len() == 8 && "test"@.len() == 4);
    assert("missing"@.len() == 7 && "doc_only"@.len() == 8 && "disabled"@.len() == 8);
    assert("active"@[0] != "missing"@[0]);
    assert("active"@[0] != "disabled"@[0]);
    assert("inactive"@[0] != "doc_only"@[0]);
    assert("inactive"@[0] != "disabled"@[0]);
    assert("doc_only"@[1] != "disabled"@[1]);
}

/// How each status word is read: `active`, `inactive` and `test` are ports,
/// `missing`, `doc_only` and `disabled` are the other three states, and every
/// other text is unrecognized.
pub proof fn lemma_status_words(status: Seq<char>)
    ensures
        kind_of(status) == PortKind::Ported <==> status == "active"@ || status == "inactive"@ || status == "test"@,
        kind_of(status) == PortKind::Missing <==> status == "missing"@,
        kind_of(status) == PortKind::DocOnly <==> status == "doc_only"@,
        kind_of(status) == PortKind::Disabled <==> status == "disabled"@,
        kind_of(status) == PortKind::Unrecognized <==> status != "active"@ && status != "inactive"@ && status != "test"@
            && status != "missing"@ && status != "doc_only"@ && status != "disabled"@,
{
    lemma_status_words_differ();
}

/// Reads a status text.
pub fn classify(status: &str) -> (k: PortKind)
    ensures
        k == kind_of(status@),
        k == PortKind::Missing <==> status@ == "missing"@,
        k == PortKind::DocOnly <==> status@ == "doc_only"@,
        k == PortKind::Disabled <==> status@ == "disabled"@,
        k == PortKind::Ported <==> status@ == "active"@ || status@ == "inactive"@ || status@ == "test"@,
{
    proof {
        lemma_status_words(status@);
    }
    if same_text(status, "active") || same_text(status, "inactive") || same_text(status, "test") {
        PortKind::Ported
    } else if same_text(status, "missing") {
        PortKind::Missing
    } else if same_text(status, "doc_only") {
        PortKind::DocOnly
    } else if same_text(status, "disabled") {
        PortKind::Disabled
    } else {
        PortKind::Unrecognized
    }
}

impl FnEntry {
    /// Whether the C function is compiled (a port target); an unspecified
    /// preprocessor status is treated as compiled.
    pub fn is_compiled(&self) -> (r: bool)
        ensures
            r == compiled(*self),
    {
        match &self.preprocessor_status {
            Some(s) => same_text(s.as_str(), "compiled"),
            None => true,
        }
    }
}

/// Whether the court with this id is sealed: some court of the ladder carries
/// the id and a sealed version.
pub open spec fn sealed_in(courts: Seq<Court>, id: Seq<char>) -> bool {
    exists|i: int| 0 <= i < courts.len() && #[trigger] courts[i].id@ == id && courts[i].sealed_version is Some
}

impl ClaimLadder {
    /// Whether the court `id` is sealed.
    pub fn is_sealed(&self, id: &str) -> (r: bool)
        ensures
            r == sealed_in(self.courts@, id@),
    {
        let mut i: usize = 0;
        while i < self.courts.len()
            invariant
                i <= self.courts.len(),
                forall|j: int| 0 <= j < i ==> !(#[trigger] self.courts@[j].id@ == id@ && self.courts@[j].sealed_version is Some),
            decreases self.courts.len() - i,
        {
            let c = &self.courts[i];
            if c.sealed_version.is_some() && same_text(c.id.as_str(), id) {
                return true;
            }
            i = i + 1;
        }
        false
    }
}

} // verus!
