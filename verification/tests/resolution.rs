//! Path joining and import resolution behaviour.

use jsonnet_deps::paths::{is_absolute, join};
use jsonnet_deps::resolve::{candidates, resolve, resolve_with};

fn s(x: &str) -> String {
    x.to_string()
}

#[test]
fn join_inserts_one_separator() {
    assert_eq!(join(&s("a"), &s("b")), "a/b");
    assert_eq!(join(&s("a/"), &s("b")), "a/b");
    assert_eq!(join(&s("a/b"), &s("c.cfg")), "a/b/c.cfg");
}

#[test]
fn join_with_empty_base_is_the_path_itself() {
    assert_eq!(join(&s(""), &s("b.cfg")), "b.cfg");
}

#[test]
fn join_with_absolute_path_replaces_the_base() {
    assert_eq!(join(&s("a"), &s("/etc/x")), "/etc/x");
}

#[test]
fn absolute_paths_start_with_a_separator() {
    assert!(is_absolute(&s("/x")));
    assert!(!is_absolute(&s("x")));
    assert!(!is_absolute(&s("")));
}

#[test]
fn candidates_come_in_probe_order() {
    let roots = vec![s("r1"), s("r2")];
    let c = candidates(&s("base"), &roots, &s("f.cfg"));
    assert_eq!(c, vec![s("base/f.cfg"), s("r1/f.cfg"), s("r2/f.cfg")]);
}

#[test]
fn search_root_precedence_base_wins() {
    // The import exists under the base directory and under the first
    // search root: the base-joined candidate wins.
    let roots = vec![s("r1"), s("r2")];
    let exist = vec![true, true, false];
    let r = resolve_with(&s("base"), &roots, &s("lib.ext"), &exist);
    assert_eq!(r, "base/lib.ext");
}

#[test]
fn search_root_precedence_later_root_found() {
    // The import exists only under the second search root.
    let roots = vec![s("r1"), s("r2")];
    let exist = vec![false, false, true];
    let r = resolve_with(&s("base"), &roots, &s("lib.ext"), &exist);
    assert_eq!(r, "r2/lib.ext");
}

#[test]
fn search_root_precedence_nowhere_falls_back_to_base() {
    // The import exists nowhere: the base-joined candidate is returned
    // unchecked.
    let roots = vec![s("r1"), s("r2")];
    let exist = vec![false, false, false];
    let r = resolve_with(&s("base"), &roots, &s("lib.ext"), &exist);
    assert_eq!(r, "base/lib.ext");
}

#[test]
fn resolve_with_keeps_absolute_paths() {
    let roots = vec![s("r1")];
    let exist = vec![true, true];
    let r = resolve_with(&s("base"), &roots, &s("/abs.cfg"), &exist);
    assert_eq!(r, "/abs.cfg");
}

#[test]
fn resolve_absolute_path_unchanged() {
    let roots = vec![s("r1"), s("r2")];
    let r = resolve(&s("base"), &roots, &s("/abs/lib.ext"));
    assert_eq!(r.unwrap(), "/abs/lib.ext");
}

#[test]
fn resolve_without_search_roots_is_a_plain_join() {
    // No search roots: the base-joined path comes back without any
    // existence check, even though no such file exists.
    let roots: Vec<String> = vec![];
    let r = resolve(&s("no_such_dir"), &roots, &s("missing.cfg"));
    assert_eq!(r.unwrap(), "no_such_dir/missing.cfg");
}

#[test]
fn resolve_falls_back_to_base_when_nothing_exists() {
    // Candidates are probed but none exists on storage: the base-joined
    // candidate is returned rather than an error.
    let roots = vec![s("no_such_root_one"), s("no_such_root_two")];
    let r = resolve(&s("no_such_base_dir"), &roots, &s("zz.cfg"));
    assert_eq!(r.unwrap(), "no_such_base_dir/zz.cfg");
}
