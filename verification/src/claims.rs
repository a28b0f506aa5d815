//! The declaration of intent: what each module claims, and where the evidence
//! for it lies.
use vstd::prelude::*;
use crate::table::SortedTable;
use crate::text::same_text;

verus! {

/// What one module claims.
pub struct ModuleClaim {
    /// `complete` (every function ported, no doc-only) or `partial`.
    pub claim: Option<String>,
    /// Courts that must be sealed for this module's claim to hold.
    pub requires: Vec<String>,
}

/// The configuration: where the evidence lies, and the claim of each module
/// keyed by its C source file name. The optional parity floor of a module is a
/// float, weighed by the caller and handed to the check as a verdict.
pub struct Config {
    /// Path of the parity JSON, relative to the config file.
    pub parity: String,
    /// Optional path of the claim-ladder JSON, relative to the config file.
    pub courts: Option<String>,
    /// Per-module claims, in ascending order of file name.
    pub modules: SortedTable<ModuleClaim>,
}

/// The module claims to be `complete`.
pub open spec fn claims_complete(c: ModuleClaim) -> bool {
    c.claim matches Some(s) && s@ == "complete"@
}

/// Only the claim `complete` is held to completeness: a module with no claim,
/// or with any other claim text, is not.
pub proof fn lemma_only_complete_claims(c: ModuleClaim)
    ensures
        claims_complete(c) <==> c.claim is Some && c.claim->0@ == "complete"@,
        c.claim is None ==> !claims_complete(c),
{
}

impl ModuleClaim {
    /// Whether the module claims to be `complete`.
    pub fn is_complete_claim(&self) -> (r: bool)
        ensures
            r == claims_complete(*self),
            r <==> self.claim is Some && self.claim->0@ == "complete"@,
    {
        match &self.claim {
            Some(s) => same_text(s.as_str(), "complete"),
            None => false,
        }
    }
}

} // verus!
