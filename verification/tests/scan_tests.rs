use fs_hunt::model::{filter_excluded, is_excluded, run_scan, MatchRec, Node};

fn file(name: &str) -> Node {
    Node::File { name: name.to_string() }
}

fn dir(name: &str, children: Vec<Node>) -> Node {
    Node::Dir { name: name.to_string(), readable: true, children }
}

fn unreadable_dir(name: &str) -> Node {
    Node::Dir { name: name.to_string(), readable: false, children: Vec::new() }
}

fn reported(recs: &[MatchRec]) -> Vec<(String, bool)> {
    let mut v: Vec<(String, bool)> = recs.iter().map(|r| (r.path.clone(), r.is_dir)).collect();
    v.sort();
    v
}

#[test]
fn example_tree_query_report() {
    // root/{a.txt, sub/{report.pdf, sub2/{report_final.pdf}}}
    let roots = vec![
        file("a.txt"),
        dir("sub", vec![file("report.pdf"), dir("sub2", vec![file("report_final.pdf")])]),
    ];
    let (agg, recs) = run_scan(roots, "report", false, &Vec::new());
    assert_eq!(agg.summary(), (0, 2));
    assert_eq!(agg.error_count(), 0);
    assert_eq!(
        reported(&recs),
        vec![
            ("sub/report.pdf".to_string(), false),
            ("sub/sub2/report_final.pdf".to_string(), false),
        ]
    );
    for r in &recs {
        assert_eq!((r.start, r.end), (0, 6));
        assert!(r.name.starts_with("report"));
    }
}

#[test]
fn empty_query_matches_every_entry() {
    let roots = vec![file("a"), dir("d", vec![file("b")])];
    let (agg, recs) = run_scan(roots, "", false, &Vec::new());
    assert_eq!(agg.summary(), (1, 2));
    assert_eq!(
        reported(&recs),
        vec![("a".to_string(), false), ("d".to_string(), true), ("d/b".to_string(), false)]
    );
    for r in &recs {
        assert_eq!((r.start, r.end), (0, 0));
    }
}

#[test]
fn excluded_root_entry_contributes_nothing() {
    // root/{keep/, skip/} with skip excluded: nothing under skip appears,
    // even though it would match.
    let roots = vec![
        dir("keep", vec![file("skipnote.txt")]),
        dir("skip", vec![file("skipfile.txt"), dir("skipdir", Vec::new())]),
    ];
    let excludes = vec!["skip".to_string()];
    let (agg, recs) = run_scan(roots, "skip", false, &excludes);
    assert_eq!(agg.summary(), (0, 1));
    assert_eq!(reported(&recs), vec![("keep/skipnote.txt".to_string(), false)]);
}

#[test]
fn exclusion_applies_to_root_entries_only() {
    // A deeper entry with an excluded name is still visited: exclusion
    // filters only what is seeded from the root directory.
    let roots = vec![dir("keep", vec![file("skip")])];
    let excludes = vec!["skip".to_string()];
    let (agg, recs) = run_scan(roots, "skip", false, &excludes);
    assert_eq!(agg.summary(), (0, 1));
    assert_eq!(reported(&recs), vec![("keep/skip".to_string(), false)]);
}

#[test]
fn enumeration_failure_leaves_siblings_reported() {
    let roots = vec![
        unreadable_dir("broken"),
        dir("ok", vec![file("hit.txt"), dir("deeper", vec![file("hit2.txt")])]),
    ];
    let (agg, recs) = run_scan(roots, "hit", false, &Vec::new());
    assert_eq!(agg.summary(), (0, 2));
    assert_eq!(agg.error_count(), 1);
    assert_eq!(
        reported(&recs),
        vec![("ok/deeper/hit2.txt".to_string(), false), ("ok/hit.txt".to_string(), false)]
    );
}

#[test]
fn unreadable_directory_own_name_still_matched() {
    let roots = vec![unreadable_dir("badger"), file("badge.txt")];
    let (agg, recs) = run_scan(roots, "bad", false, &Vec::new());
    assert_eq!(agg.summary(), (1, 1));
    assert_eq!(agg.error_count(), 1);
    assert_eq!(
        reported(&recs),
        vec![("badge.txt".to_string(), false), ("badger".to_string(), true)]
    );
}

fn mixed_tree() -> Vec<Node> {
    vec![
        dir("A", vec![file("x1"), dir("B", vec![file("x2"), file("y")])]),
        unreadable_dir("C"),
        file("x3"),
    ]
}

#[test]
fn scan_twice_reports_identical_match_sets() {
    let excludes: Vec<String> = Vec::new();
    let (agg1, recs1) = run_scan(mixed_tree(), "x", true, &excludes);
    let (agg2, recs2) = run_scan(mixed_tree(), "x", true, &excludes);
    assert_eq!(agg1.summary(), agg2.summary());
    assert_eq!(agg1.error_count(), agg2.error_count());
    assert_eq!(reported(&recs1), reported(&recs2));
}

#[test]
fn terminates_on_depth_zero() {
    let (agg, recs) = run_scan(Vec::new(), "x", false, &Vec::new());
    assert_eq!(agg.summary(), (0, 0));
    assert_eq!(agg.error_count(), 0);
    assert!(recs.is_empty());
}

#[test]
fn terminates_on_depth_one() {
    let roots = vec![file("x"), file("y"), dir("xd", Vec::new())];
    let (agg, recs) = run_scan(roots, "x", false, &Vec::new());
    assert_eq!(agg.summary(), (1, 1));
    assert_eq!(reported(&recs), vec![("x".to_string(), false), ("xd".to_string(), true)]);
}

#[test]
fn terminates_on_deep_and_wide_trees() {
    // A chain of fifty nested directories with one file at the bottom.
    let mut node = file("needle.txt");
    for i in 0..50 {
        node = dir(&format!("level{}", i), vec![node]);
    }
    let mut roots = vec![node];
    // And two hundred siblings beside it.
    for i in 0..200 {
        roots.push(file(&format!("leaf{}", i)));
    }
    let (agg, recs) = run_scan(roots, "needle", false, &Vec::new());
    assert_eq!(agg.summary(), (0, 1));
    assert_eq!(recs.len(), 1);
    assert!(recs[0].path.starts_with("level49/level48/"));
    assert!(recs[0].path.ends_with("/needle.txt"));
}

#[test]
fn duplicate_names_in_different_directories_both_reported() {
    let roots = vec![dir("a", vec![file("dup.txt")]), dir("b", vec![file("dup.txt")])];
    let (agg, recs) = run_scan(roots, "dup", false, &Vec::new());
    assert_eq!(agg.summary(), (0, 2));
    assert_eq!(
        reported(&recs),
        vec![("a/dup.txt".to_string(), false), ("b/dup.txt".to_string(), false)]
    );
}

#[test]
fn case_insensitive_scan_folds_names() {
    let roots = vec![file("README.MD"), file("readme.txt"), file("other")];
    let (agg, recs) = run_scan(roots, "ReadMe", true, &Vec::new());
    assert_eq!(agg.summary(), (0, 2));
    assert_eq!(
        reported(&recs),
        vec![("README.MD".to_string(), false), ("readme.txt".to_string(), false)]
    );
}

#[test]
fn filter_excluded_keeps_order_and_drops_names() {
    let roots = vec![file("a"), file("b"), file("a"), file("c")];
    let excludes = vec!["a".to_string(), "c".to_string()];
    let kept = filter_excluded(roots, &excludes);
    let names: Vec<String> = kept
        .iter()
        .map(|n| match n {
            Node::File { name } => name.clone(),
            Node::Dir { name, .. } => name.clone(),
        })
        .collect();
    assert_eq!(names, vec!["b".to_string()]);
}

#[test]
fn is_excluded_compares_names() {
    let excludes = vec!["skip".to_string(), "other".to_string()];
    assert!(is_excluded("skip", &excludes));
    assert!(is_excluded("other", &excludes));
    assert!(!is_excluded("keep", &excludes));
    assert!(!is_excluded("ski", &excludes));
}
