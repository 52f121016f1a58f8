use fs_hunt::config::{base_name, parse_excludes, Hunter};

fn args_of(parts: &[&str]) -> Vec<String> {
    parts.iter().map(|p| p.to_string()).collect()
}

#[test]
fn basic_query_and_root() {
    let h = Hunter::build(args_of(&["fs_hunt", "pdf", "mydir"])).unwrap();
    assert_eq!(h.query, "pdf");
    assert_eq!(h.root_path, "mydir");
    assert!(!h.ignore_case);
    assert!(!h.print_help);
    assert_eq!(h.thread_count, 4);
    assert!(h.exclude_elements.is_empty());
}

#[test]
fn ignore_case_flag() {
    let h = Hunter::build(args_of(&["fs_hunt", "4k", "Pictures", "--ignore-case"])).unwrap();
    assert!(h.ignore_case);
    let h2 = Hunter::build(args_of(&["fs_hunt", "--ignore-case", "4k", "Pictures"])).unwrap();
    assert!(h2.ignore_case);
    assert_eq!(h2.query, "4k");
    assert_eq!(h2.root_path, "Pictures");
}

#[test]
fn help_stops_parsing() {
    let h = Hunter::build(args_of(&["fs_hunt", "--help"])).unwrap();
    assert!(h.print_help);
    let h2 = Hunter::build(args_of(&["fs_hunt", "q", "--help", "ignored", "junk"])).unwrap();
    assert!(h2.print_help);
    assert_eq!(h2.query, "q");
}

#[test]
fn too_few_arguments() {
    assert_eq!(Hunter::build(args_of(&["fs_hunt"])).unwrap_err(), "Invalid arguments!");
    assert_eq!(Hunter::build(args_of(&["fs_hunt", "q"])).unwrap_err(), "Invalid arguments!");
    assert_eq!(Hunter::build(Vec::new()).unwrap_err(), "Invalid arguments!");
}

#[test]
fn extra_positional_rejected() {
    assert_eq!(
        Hunter::build(args_of(&["fs_hunt", "q", "dir", "extra"])).unwrap_err(),
        "Invalid arguments!"
    );
}

#[test]
fn exclude_list_parsed_to_names() {
    let h = Hunter::build(args_of(&[
        "fs_hunt",
        "4k",
        "Pictures",
        "--exclude",
        "Backups,Wallpapers",
    ]))
    .unwrap();
    assert_eq!(h.exclude_elements, vec!["Backups".to_string(), "Wallpapers".to_string()]);
}

#[test]
fn exclude_entries_reduced_to_final_component() {
    let h = Hunter::build(args_of(&["fs_hunt", "q", "dir", "--exclude", "a/b/file,deep/dir/"]))
        .unwrap();
    assert_eq!(h.exclude_elements, vec!["file".to_string(), "dir".to_string()]);
}

#[test]
fn exclude_needs_a_value() {
    assert_eq!(
        Hunter::build(args_of(&["fs_hunt", "q", "dir", "--exclude"])).unwrap_err(),
        "Please specify elements to exclude. See --help"
    );
}

#[test]
fn exclude_before_query_and_root_rejected() {
    assert_eq!(
        Hunter::build(args_of(&["fs_hunt", "--exclude", "x", "q", "dir"])).unwrap_err(),
        "Invalid order of arguments. See --help"
    );
    assert_eq!(
        Hunter::build(args_of(&["fs_hunt", "q", "--exclude", "x", "dir"])).unwrap_err(),
        "Invalid order of arguments. See --help"
    );
}

#[test]
fn exclude_entry_naming_nothing_rejected() {
    for bad in ["", "a,,b", "..", "/", "q,."] {
        assert_eq!(
            Hunter::build(args_of(&["fs_hunt", "q", "dir", "--exclude", bad])).unwrap_err(),
            "Invalid elements to exclude. See --help",
            "exclude value {:?} should be rejected",
            bad
        );
    }
}

#[test]
fn base_name_reduces_paths() {
    assert_eq!(base_name("file"), Some("file".to_string()));
    assert_eq!(base_name("a/b/c"), Some("c".to_string()));
    assert_eq!(base_name("dir/"), Some("dir".to_string()));
    assert_eq!(base_name("dir///"), Some("dir".to_string()));
    assert_eq!(base_name(""), None);
    assert_eq!(base_name("/"), None);
    assert_eq!(base_name("."), None);
    assert_eq!(base_name(".."), None);
    assert_eq!(base_name("a/.."), None);
    assert_eq!(base_name(".hidden"), Some(".hidden".to_string()));
}

#[test]
fn parse_excludes_splits_on_commas() {
    assert_eq!(parse_excludes("a"), Some(vec!["a".to_string()]));
    assert_eq!(
        parse_excludes("a,b,c"),
        Some(vec!["a".to_string(), "b".to_string(), "c".to_string()])
    );
    assert_eq!(parse_excludes("x/y,z/"), Some(vec!["y".to_string(), "z".to_string()]));
    assert_eq!(parse_excludes(""), None);
    assert_eq!(parse_excludes("a,"), None);
}
