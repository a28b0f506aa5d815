use portcourt::cli::{base_from_parent, config_base, parse_command, Command};
use portcourt::evidence::{classify, ClaimLadder, Court, FileParity, FnEntry, PortKind};
use portcourt::explain::{explain, vouching_courts};
use portcourt::summary::{overall_ratio, parity_table};
use portcourt::table::SortedTable;
use portcourt::tally::Tally;
use portcourt::text::{contains_text, ends_with, precedes, same_text};
use portcourt::worklist::next_work;

fn entry(function: &str, status: &str, pre: Option<&str>) -> FnEntry {
    FnEntry {
        function: function.to_string(),
        rust_status: status.to_string(),
        preprocessor_status: pre.map(|s| s.to_string()),
        rust_module: None,
    }
}

fn file(name: &str, fns: Vec<FnEntry>) -> FileParity {
    FileParity { file: name.to_string(), fns }
}

fn args(a: &[&str]) -> Vec<String> {
    a.iter().map(|s| s.to_string()).collect()
}

#[test]
fn classify_reads_every_status() {
    assert_eq!(classify("active"), PortKind::Ported);
    assert_eq!(classify("inactive"), PortKind::Ported);
    assert_eq!(classify("test"), PortKind::Ported);
    assert_eq!(classify("missing"), PortKind::Missing);
    assert_eq!(classify("doc_only"), PortKind::DocOnly);
    assert_eq!(classify("disabled"), PortKind::Disabled);
    assert_eq!(classify("Active"), PortKind::Unrecognized);
    assert_eq!(classify(""), PortKind::Unrecognized);
}

#[test]
fn unspecified_preprocessor_status_is_compiled() {
    assert!(entry("f", "active", None).is_compiled());
    assert!(entry("f", "active", Some("compiled")).is_compiled());
    assert!(!entry("f", "active", Some("config_disabled")).is_compiled());
    assert!(!entry("f", "active", Some("")).is_compiled());
}

#[test]
fn tally_counts_each_state() {
    let fp = file(
        "x.c",
        vec![
            entry("a", "active", None),
            entry("b", "inactive", None),
            entry("c", "test", None),
            entry("d", "missing", None),
            entry("e", "doc_only", None),
            entry("f", "doc_only", Some("config_disabled")),
            entry("g", "disabled", None),
            entry("h", "weird", None),
        ],
    );
    let t = Tally::of(&fp);
    assert_eq!((t.ported, t.missing, t.doc_only, t.doc_only_live, t.disabled), (3, 1, 2, 1, 1));
    assert!(!t.is_complete());
    // 3 ported over 3 + 1 + 1 portable
    assert_eq!(t.parity_ratio(), (3, 5));
}

#[test]
fn empty_surface_is_fully_ported() {
    let t = Tally::of(&file("x.c", vec![entry("g", "disabled", None), entry("f", "doc_only", Some("off"))]));
    assert!(t.is_complete());
    assert_eq!(t.parity_ratio(), (1, 1));
}

#[test]
fn benign_doc_only_keeps_completeness_and_parity() {
    let mut fp = file("x.c", vec![entry("a", "active", None)]);
    let before = Tally::of(&fp);
    fp.fns.push(entry("z", "doc_only", Some("config_disabled")));
    let after = Tally::of(&fp);
    assert_eq!(before.is_complete(), after.is_complete());
    assert_eq!(before.parity_ratio(), after.parity_ratio());
}

#[test]
fn report_table_sums_counts() {
    let parity = vec![
        file("a.c", vec![entry("a", "active", None), entry("b", "missing", None)]),
        file("b.c", vec![entry("c", "doc_only", Some("config_disabled")), entry("d", "disabled", None)]),
    ];
    let table = parity_table(&parity);
    assert_eq!(table.rows.len(), 2);
    assert_eq!(table.rows[0].parity_ratio(), (1, 2));
    let t = table.totals;
    assert_eq!((t.ported, t.missing, t.doc_only, t.doc_only_live, t.disabled), (1, 1, 1, 0, 1));
    // the total row weighs the same portable surface as a file's row
    assert_eq!(overall_ratio(&t), (1, 2));
    assert_eq!(overall_ratio(&parity_table(&vec![]).totals), (1, 1));
}

#[test]
fn total_row_leaves_benign_doc_only_out() {
    let parity = vec![file("alpha.c", vec![entry("a_one", "active", None), entry("a_off", "doc_only", Some("config_disabled"))])];
    let table = parity_table(&parity);
    assert_eq!(table.rows[0].parity_ratio(), (1, 1));
    assert_eq!(overall_ratio(&table.totals), (1, 1));
}

#[test]
fn command_line_is_read() {
    assert!(matches!(parse_command(&args(&[])), Command::Usage));
    assert!(matches!(parse_command(&args(&["--help"])), Command::Usage));
    assert!(matches!(parse_command(&args(&["check"])), Command::Check { config } if config == "portcourt.toml"));
    assert!(matches!(parse_command(&args(&["check", "pc.toml"])), Command::Check { config } if config == "pc.toml"));
    assert!(matches!(parse_command(&args(&["explain"])), Command::Usage));
    assert!(matches!(parse_command(&args(&["explain", "f", "c.toml"])),
        Command::Explain { name, config } if name == "f" && config == "c.toml"));
    assert!(matches!(parse_command(&args(&["report"])), Command::Report { config } if config == "portcourt.toml"));
}

#[test]
fn next_operands_are_disambiguated_by_extension() {
    assert!(matches!(parse_command(&args(&["next"])),
        Command::Next { file: None, config } if config == "portcourt.toml"));
    assert!(matches!(parse_command(&args(&["next", "foo.toml"])),
        Command::Next { file: None, config } if config == "foo.toml"));
    assert!(matches!(parse_command(&args(&["next", "foo.c"])),
        Command::Next { file: Some(f), config } if f == "foo.c" && config == "portcourt.toml"));
    assert!(matches!(parse_command(&args(&["next", "a.toml", "b.toml"])),
        Command::Next { file: Some(f), config } if f == "a.toml" && config == "b.toml"));
}

#[test]
fn config_base_is_the_parent_directory() {
    assert_eq!(config_base("dir/sub/pc.toml"), "dir/sub");
    assert_eq!(config_base("/etc/pc.toml"), "/etc");
    assert_eq!(config_base("pc.toml"), "");
    assert_eq!(config_base(""), ".");
    assert_eq!(config_base("/"), ".");
    assert_eq!(base_from_parent(None), ".");
    assert_eq!(base_from_parent(Some("x".to_string())), "x");
}

#[test]
fn text_primitives() {
    assert!(precedes("alpha.c", "beta.c"));
    assert!(precedes("a", "ab"));
    assert!(!precedes("ab", "a"));
    assert!(!precedes("a", "a"));
    assert!(precedes("Z", "a"));
    assert!(same_text("x", "x"));
    assert!(!same_text("x", "xy"));
    assert!(ends_with("foo.toml", ".toml"));
    assert!(!ends_with("toml", ".toml"));
    assert!(contains_text("covers fileio_open and more", "fileio_open"));
    assert!(contains_text("anything", ""));
    assert!(!contains_text("fileio", "fileio_open"));
}

#[test]
fn sorted_table_keeps_order_and_replaces() {
    let mut t: SortedTable<u32> = SortedTable::new();
    t.insert("m.c".to_string(), 1);
    t.insert("b.c".to_string(), 2);
    t.insert("z.c".to_string(), 3);
    t.insert("m.c".to_string(), 4);
    assert_eq!(t.len(), 3);
    assert_eq!(t.key(0), "b.c");
    assert_eq!(t.key(1), "m.c");
    assert_eq!(*t.value(1), 4);
    assert_eq!(t.key(2), "z.c");
    assert!(t.contains_key("z.c"));
    assert!(!t.contains_key("q.c"));
}

#[test]
fn explain_collects_every_hit_and_vouching_court() {
    let parity = vec![
        file("a.c", vec![entry("dup", "active", None)]),
        file("b.c", vec![entry("dup", "weird", None), entry("other", "missing", None)]),
    ];
    let ladder = ClaimLadder {
        courts: vec![
            Court { id: "C1".to_string(), sealed_version: None, proven: Some("proves dup and more".to_string()) },
            Court { id: "C2".to_string(), sealed_version: None, proven: None },
            Court { id: "C3".to_string(), sealed_version: None, proven: Some("unrelated".to_string()) },
        ],
    };
    let x = explain(&parity, &ladder, "dup").unwrap();
    assert_eq!(x.hits.len(), 2);
    assert_eq!(x.hits[0].file, "a.c");
    assert_eq!(x.hits[1].file, "b.c");
    assert_eq!(x.hits[1].kind, PortKind::Unrecognized);
    assert_eq!(x.hits[1].status, "weird");
    assert_eq!(x.courts, vec!["C1".to_string()]);
    assert!(vouching_courts(&ladder, "nothing").is_empty());
}

#[test]
fn next_reports_doc_only_and_skips_clean_files() {
    let parity = vec![
        file("a.c", vec![entry("a", "active", None)]),
        file("b.c", vec![entry("b", "doc_only", None), entry("c", "missing", None)]),
    ];
    let all = next_work(&parity, None);
    assert_eq!(all.len(), 1);
    assert_eq!(all[0].file, "b.c");
    assert_eq!(all[0].missing, vec!["c".to_string()]);
    assert_eq!(all[0].doc_only, vec!["b".to_string()]);
    assert!(next_work(&parity, Some("a.c")).is_empty());
    assert!(next_work(&parity, Some("zz.c")).is_empty());
}

#[test]
fn ladder_knows_sealed_courts() {
    let ladder = ClaimLadder {
        courts: vec![
            Court { id: "A".to_string(), sealed_version: None, proven: None },
            Court { id: "A".to_string(), sealed_version: Some("1".to_string()), proven: None },
        ],
    };
    assert!(ladder.is_sealed("A"));
    assert!(!ladder.is_sealed("B"));
}

#[test]
fn tally_ignores_entry_order_and_names() {
    let a = file("x.c", vec![
        entry("a", "active", None),
        entry("b", "missing", None),
        entry("c", "doc_only", Some("config_disabled")),
        entry("d", "doc_only", None),
    ]);
    let b = file("y.c", vec![
        entry("q", "doc_only", None),
        entry("r", "doc_only", Some("config_disabled")),
        entry("s", "missing", None),
        entry("t", "inactive", Some("compiled")),
    ]);
    let (ta, tb) = (Tally::of(&a), Tally::of(&b));
    assert_eq!(
        (ta.ported, ta.missing, ta.doc_only, ta.doc_only_live, ta.disabled),
        (tb.ported, tb.missing, tb.doc_only, tb.doc_only_live, tb.disabled)
    );
}
