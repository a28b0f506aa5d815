use portcourt::claims::ModuleClaim;
use portcourt::evidence::{ClaimLadder, Court, FileParity, FnEntry, PortKind};
use portcourt::explain::explain;
use portcourt::verdict::{check_claims, module_tallies, Note, Violation};
use portcourt::table::SortedTable;
use portcourt::worklist::next_work;

fn entry(function: &str, status: &str, pre: Option<&str>) -> FnEntry {
    FnEntry {
        function: function.to_string(),
        rust_status: status.to_string(),
        preprocessor_status: pre.map(|s| s.to_string()),
        rust_module: None,
    }
}

/// alpha.c: fully ported, plus a doc-only mention of a config-disabled function.
/// beta.c: one function ported, one missing (50%).
fn fixture() -> Vec<FileParity> {
    vec![
        FileParity {
            file: "alpha.c".to_string(),
            fns: vec![
                entry("a_one", "active", Some("compiled")),
                entry("a_two", "test", None),
                entry("a_off", "doc_only", Some("config_disabled")),
                entry("a_dead", "disabled", Some("config_disabled")),
            ],
        },
        FileParity {
            file: "beta.c".to_string(),
            fns: vec![entry("b_one", "active", None), entry("b_two", "missing", None)],
        },
    ]
}

fn claim(kind: &str, requires: &[&str]) -> ModuleClaim {
    ModuleClaim { claim: Some(kind.to_string()), requires: requires.iter().map(|s| s.to_string()).collect() }
}

/// The floor verdicts, weighed as the command line weighs them.
fn floors(modules: &SortedTable<ModuleClaim>, parity: &Vec<FileParity>, mins: &[Option<f64>]) -> Vec<bool> {
    let tallies = module_tallies(modules, parity);
    tallies
        .iter()
        .zip(mins.iter())
        .map(|(t, min)| match (t, min) {
            (Some(t), Some(min)) => {
                let (n, d) = t.parity_ratio();
                let pct = 100.0 * n as f64 / d as f64;
                pct + 1e-9 < *min
            }
            _ => false,
        })
        .collect()
}

fn run_check(decls: Vec<(&str, ModuleClaim, Option<f64>)>, ladder: &ClaimLadder) -> portcourt::verdict::CheckReport {
    let parity = fixture();
    let mut modules = SortedTable::new();
    let mut mins: Vec<(String, Option<f64>)> = Vec::new();
    for (name, c, min) in decls {
        modules.insert(name.to_string(), c);
        mins.push((name.to_string(), min));
    }
    let ordered: Vec<Option<f64>> = (0..modules.len())
        .map(|i| mins.iter().rev().find(|(n, _)| n == modules.key(i)).and_then(|(_, m)| *m))
        .collect();
    let f = floors(&modules, &parity, &ordered);
    check_claims(&modules, &parity, ladder, &f)
}

fn no_courts() -> ClaimLadder {
    ClaimLadder { courts: vec![] }
}

#[test]
fn check_passes_on_honest_claims() {
    let r = run_check(
        vec![("alpha.c", claim("complete", &[]), None), ("beta.c", claim("partial", &[]), Some(50.0))],
        &no_courts(),
    );
    assert!(r.violations.is_empty());
    assert_eq!(r.checked, 2);
}

#[test]
fn check_fails_when_partial_module_claims_complete() {
    let r = run_check(vec![("beta.c", claim("complete", &[]), None)], &no_courts());
    assert!(!r.violations.is_empty());
    match &r.violations[0] {
        Violation::Broken(f, Note::OverClaim { missing, doc_only_live }) => {
            assert_eq!(f, "beta.c");
            assert_eq!((*missing, *doc_only_live), (1, 0));
        }
        _ => panic!("expected an over-claim"),
    }
}

#[test]
fn check_fails_when_below_min_parity() {
    let r = run_check(vec![("beta.c", claim("partial", &[]), Some(75.0))], &no_courts());
    assert!(!r.violations.is_empty());
    assert!(matches!(&r.violations[0], Violation::Broken(_, Note::BelowFloor)));
}

#[test]
fn complete_tolerates_doc_only_on_disabled_fn() {
    let r = run_check(
        vec![("alpha.c", claim("complete", &[]), None), ("beta.c", claim("partial", &[]), Some(50.0))],
        &no_courts(),
    );
    assert!(r.violations.is_empty());
    assert_eq!(r.lines[0].tally.doc_only, 1);
    assert_eq!(r.lines[0].tally.doc_only_live, 0);
}

#[test]
fn explain_reports_ported_missing_and_unknown() {
    let parity = fixture();
    let ladder = no_courts();
    let x = explain(&parity, &ladder, "a_one").expect("a_one is known");
    assert_eq!(x.hits[0].kind, PortKind::Ported);
    let y = explain(&parity, &ladder, "b_two").expect("b_two is known");
    assert_eq!(y.hits[0].kind, PortKind::Missing);
    assert!(explain(&parity, &ladder, "no_such_fn").is_none());
}

#[test]
fn next_lists_missing_functions() {
    let parity = fixture();
    let work = next_work(&parity, Some("beta.c"));
    assert_eq!(work.len(), 1);
    assert!(work[0].missing.iter().any(|m| m == "b_two"));
}

#[test]
fn absent_module_is_an_over_claim() {
    let r = run_check(vec![("gamma.c", claim("partial", &[]), None)], &no_courts());
    assert_eq!(r.checked, 0);
    assert_eq!(r.violations.len(), 1);
    assert!(matches!(&r.violations[0], Violation::Absent(f) if f == "gamma.c"));
    assert!(r.lines.is_empty());
}

#[test]
fn unsealed_required_court_fails_and_sealed_passes() {
    let ladder = ClaimLadder {
        courts: vec![
            Court { id: "C.OPEN".to_string(), sealed_version: None, proven: None },
            Court { id: "C.DONE".to_string(), sealed_version: Some("v1".to_string()), proven: None },
        ],
    };
    let r = run_check(vec![("alpha.c", claim("complete", &["C.DONE", "C.OPEN", "C.NONE"]), None)], &ladder);
    assert_eq!(r.violations.len(), 2);
    assert!(matches!(&r.violations[0], Violation::Broken(_, Note::UnsealedCourt(c)) if c == "C.OPEN"));
    assert!(matches!(&r.violations[1], Violation::Broken(_, Note::UnsealedCourt(c)) if c == "C.NONE"));
    assert_eq!(r.lines[0].required, 3);
    let ok = run_check(vec![("alpha.c", claim("complete", &["C.DONE"]), None)], &ladder);
    assert!(ok.violations.is_empty());
}

#[test]
fn all_notes_of_a_module_are_reported() {
    let r = run_check(vec![("beta.c", claim("complete", &["X"]), Some(99.0))], &no_courts());
    assert_eq!(r.violations.len(), 3);
    assert_eq!(r.lines[0].notes.len(), 3);
    assert!(matches!(&r.violations[0], Violation::Broken(_, Note::OverClaim { .. })));
    assert!(matches!(&r.violations[1], Violation::Broken(_, Note::BelowFloor)));
    assert!(matches!(&r.violations[2], Violation::Broken(_, Note::UnsealedCourt(_))));
}

#[test]
fn lines_follow_file_name_order_and_undeclared_are_listed() {
    let r = run_check(vec![("beta.c", claim("partial", &[]), None)], &no_courts());
    assert_eq!(r.undeclared, vec!["alpha.c".to_string()]);
    let both = run_check(
        vec![("beta.c", claim("partial", &[]), None), ("alpha.c", claim("partial", &[]), None)],
        &no_courts(),
    );
    assert_eq!(both.lines[0].file, "alpha.c");
    assert_eq!(both.lines[1].file, "beta.c");
    assert!(both.undeclared.is_empty());
}

#[test]
fn doc_only_on_compiled_fn_breaks_complete() {
    let mut parity = fixture();
    parity[0].fns.push(entry("a_cmt", "doc_only", None));
    let mut modules = SortedTable::new();
    modules.insert("alpha.c".to_string(), claim("complete", &[]));
    let r = check_claims(&modules, &parity, &no_courts(), &vec![false]);
    assert!(matches!(&r.violations[0], Violation::Broken(_, Note::OverClaim { missing: 0, doc_only_live: 1 })));
}

#[test]
fn later_parity_entry_of_a_file_wins() {
    let mut parity = fixture();
    parity.push(FileParity { file: "beta.c".to_string(), fns: vec![entry("b_one", "active", None)] });
    let mut modules = SortedTable::new();
    modules.insert("beta.c".to_string(), claim("complete", &[]));
    let r = check_claims(&modules, &parity, &no_courts(), &vec![false]);
    assert!(r.violations.is_empty());
    assert_eq!(r.lines[0].tally.ported, 1);
    assert_eq!(r.lines[0].tally.missing, 0);
}

#[test]
fn undeclared_parity_entries_change_nothing() {
    let decls = || vec![("alpha.c", claim("complete", &[]), None), ("beta.c", claim("complete", &[]), None)];
    let base = run_check(decls(), &no_courts());
    let mut parity = fixture();
    parity.insert(0, FileParity { file: "zeta.c".to_string(), fns: vec![entry("z", "missing", None)] });
    parity.insert(2, FileParity { file: "omega.c".to_string(), fns: vec![entry("o", "doc_only", None)] });
    let mut modules = SortedTable::new();
    for (n, c, _) in decls() {
        modules.insert(n.to_string(), c);
    }
    let more = check_claims(&modules, &parity, &no_courts(), &vec![false, false]);
    assert_eq!(base.violations.len(), more.violations.len());
    assert_eq!(base.checked, more.checked);
    assert_eq!(more.undeclared, vec!["omega.c".to_string(), "zeta.c".to_string()]);
}

#[test]
fn weaker_claims_keep_a_pass() {
    let ladder = ClaimLadder {
        courts: vec![Court { id: "S".to_string(), sealed_version: Some("1".to_string()), proven: None }],
    };
    let strong = run_check(
        vec![("alpha.c", claim("complete", &["S"]), None), ("beta.c", claim("partial", &["S"]), Some(50.0))],
        &ladder,
    );
    assert!(strong.violations.is_empty());
    let weak = run_check(vec![("beta.c", claim("partial", &[]), Some(40.0))], &ladder);
    assert!(weak.violations.is_empty());
}
