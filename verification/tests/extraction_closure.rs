//! Import extraction, classification, deduplication, and the closure
//! engine driven the way a caller drives it: analyses are computed on
//! demand from an in-test table of parsed trees and inserted into the
//! cache.

use jsonnet_deps::analysis::{extract, Analysis};
use jsonnet_deps::ast::{
    AssertStmt, BindSpec, CompSpec, Expr, Field, FieldName, Member, ObjBody, Param,
};
use jsonnet_deps::cache::Cache;
use jsonnet_deps::closure::{resolve_deps, ClosureStep};

fn s(x: &str) -> String {
    x.to_string()
}

fn imp(p: &str) -> Expr {
    Expr::Import(s(p))
}

fn imp_str(p: &str) -> Expr {
    Expr::ImportStr(s(p))
}

fn no_roots() -> Vec<String> {
    Vec::new()
}

fn extract_flat(tree: &Expr) -> Analysis {
    extract(&s(""), &no_roots(), tree).unwrap()
}

/// Drive one closure query to completion, analysing files from `trees`
/// (file name, parsed tree) as the engine asks for them.
fn run_query(mut cache: Cache, trees: &[(&str, Expr)], root: &str) -> (Cache, Vec<String>) {
    loop {
        match resolve_deps(&cache, &s(root)) {
            ClosureStep::Done(deps) => return (cache, deps),
            ClosureStep::NeedsAnalysis(p) => {
                let tree = trees
                    .iter()
                    .find(|(n, _)| *n == p.as_str())
                    .map(|(_, t)| t)
                    .expect("the engine asked for a file outside the scenario");
                let a = extract(&s(""), &no_roots(), tree).unwrap();
                assert!(!cache.contains_key(&p), "the engine asked for a cached file again");
                cache = cache.insert(p, a);
            },
        }
    }
}

fn sorted(mut v: Vec<String>) -> Vec<String> {
    v.sort();
    v
}

#[test]
fn leaf_vs_deep_classification() {
    // An inline-text import lands in leaf_deps, a module import in
    // deep_deps.
    let tree = Expr::Arr(vec![imp_str("x"), imp("y")]);
    let a = extract_flat(&tree);
    assert_eq!(a.leaf_deps, vec![s("x")]);
    assert_eq!(a.deep_deps, vec![s("y")]);
}

#[test]
fn leaf_vs_deep_classification_swapped() {
    // Swapping the import kinds swaps the classification.
    let tree = Expr::Arr(vec![imp("x"), imp_str("y")]);
    let a = extract_flat(&tree);
    assert_eq!(a.leaf_deps, vec![s("y")]);
    assert_eq!(a.deep_deps, vec![s("x")]);
}

#[test]
fn deduplication_within_one_kind() {
    // The same path imported twice via the same construct appears once.
    let tree = Expr::Arr(vec![imp("a.cfg"), imp("a.cfg"), imp_str("t.txt"), imp_str("t.txt")]);
    let a = extract_flat(&tree);
    assert_eq!(a.deep_deps, vec![s("a.cfg")]);
    assert_eq!(a.leaf_deps, vec![s("t.txt")]);
}

#[test]
fn classification_follows_first_construct() {
    // One path referenced via both constructs is classified once, by the
    // construct met first, and appears in exactly one list.
    let t1 = Expr::Arr(vec![imp("p.cfg"), imp_str("p.cfg")]);
    let a1 = extract_flat(&t1);
    assert_eq!(a1.deep_deps, vec![s("p.cfg")]);
    assert!(a1.leaf_deps.is_empty());

    let t2 = Expr::Arr(vec![imp_str("p.cfg"), imp("p.cfg")]);
    let a2 = extract_flat(&t2);
    assert_eq!(a2.leaf_deps, vec![s("p.cfg")]);
    assert!(a2.deep_deps.is_empty());
}

#[test]
fn extraction_keeps_first_encounter_order() {
    let tree = Expr::Local(
        vec![BindSpec {
            params: Some(vec![Param { default: Some(Box::new(imp_str("p1.txt"))) }]),
            value: Box::new(imp("m1.cfg")),
        }],
        Box::new(Expr::Obj(ObjBody::MemberList(vec![
            Member::Field(Field {
                name: FieldName::Dyn(Box::new(imp_str("p2.txt"))),
                params: None,
                value: Box::new(imp("m1.cfg")),
            }),
            Member::Assert(AssertStmt {
                cond: Box::new(Expr::BinaryOp(Box::new(imp("m2.cfg")), Box::new(Expr::Lit))),
                message: Some(Box::new(imp_str("p1.txt"))),
            }),
        ]))),
    );
    let a = extract_flat(&tree);
    assert_eq!(a.leaf_deps, vec![s("p1.txt"), s("p2.txt")]);
    assert_eq!(a.deep_deps, vec![s("m1.cfg"), s("m2.cfg")]);
}

#[test]
fn extraction_walks_comprehensions_and_operators() {
    let tree = Expr::Arr(vec![
        Expr::ArrComp(
            Box::new(imp_str("e.txt")),
            vec![
                CompSpec::For(Box::new(imp("f.cfg"))),
                CompSpec::If(Box::new(imp_str("g.txt"))),
            ],
        ),
        Expr::Obj(ObjBody::ObjComp {
            pre_locals: vec![BindSpec { params: None, value: Box::new(imp("pre.cfg")) }],
            key: Box::new(imp_str("key.txt")),
            value: Box::new(imp("val.cfg")),
            post_locals: vec![BindSpec { params: None, value: Box::new(imp("post.cfg")) }],
            compspecs: vec![CompSpec::For(Box::new(imp_str("src.txt")))],
        }),
        Expr::ObjExtend(
            Box::new(Expr::Parened(Box::new(imp("base.cfg")))),
            ObjBody::MemberList(vec![Member::Bind(BindSpec {
                params: None,
                value: Box::new(Expr::UnaryOp(Box::new(imp_str("neg.txt")))),
            })]),
        ),
        Expr::IfElse(
            Box::new(imp("cond.cfg")),
            Box::new(Expr::ErrorStmt(Box::new(imp_str("then.txt")))),
            Some(Box::new(imp_str("else.txt"))),
        ),
        Expr::Apply(
            Box::new(Expr::Function(
                vec![Param { default: Some(Box::new(imp_str("def.txt"))) }],
                Box::new(imp("body.cfg")),
            )),
            vec![imp_str("arg.txt")],
        ),
        Expr::Slice(
            Box::new(Expr::Index(Box::new(imp("obj.cfg")), Box::new(imp_str("idx.txt")))),
            Some(Box::new(imp_str("lo.txt"))),
            None,
            Some(Box::new(imp_str("hi.txt"))),
        ),
    ]);
    let a = extract_flat(&tree);
    assert_eq!(
        a.leaf_deps,
        vec![
            s("e.txt"),
            s("g.txt"),
            s("key.txt"),
            s("src.txt"),
            s("neg.txt"),
            s("then.txt"),
            s("else.txt"),
            s("def.txt"),
            s("arg.txt"),
            s("idx.txt"),
            s("lo.txt"),
            s("hi.txt"),
        ]
    );
    assert_eq!(
        a.deep_deps,
        vec![
            s("f.cfg"),
            s("pre.cfg"),
            s("val.cfg"),
            s("post.cfg"),
            s("base.cfg"),
            s("cond.cfg"),
            s("body.cfg"),
            s("obj.cfg"),
        ]
    );
}

#[test]
fn literals_carry_no_imports() {
    let a = extract_flat(&Expr::Lit);
    assert!(a.leaf_deps.is_empty());
    assert!(a.deep_deps.is_empty());
}

#[test]
fn base_directory_prefixes_relative_imports() {
    let tree = Expr::Arr(vec![imp("b.cfg"), imp_str("d.txt")]);
    let a = extract(&s("proj/conf"), &no_roots(), &tree).unwrap();
    assert_eq!(a.deep_deps, vec![s("proj/conf/b.cfg")]);
    assert_eq!(a.leaf_deps, vec![s("proj/conf/d.txt")]);
}

#[test]
fn engine_reports_missing_analyses() {
    let cache = Cache::new();
    match resolve_deps(&cache, &s("root.cfg")) {
        ClosureStep::NeedsAnalysis(p) => assert_eq!(p, "root.cfg"),
        ClosureStep::Done(_) => panic!("the engine cannot finish without the root's analysis"),
    }
}

#[test]
fn end_to_end_scenario() {
    // Root a.cfg holds a module import of b.cfg and an inline-text import
    // of data.txt; b.cfg holds an inline-text import of shared.txt.
    let trees = [
        ("a.cfg", Expr::Arr(vec![imp("b.cfg"), imp_str("data.txt")])),
        ("b.cfg", Expr::Arr(vec![imp_str("shared.txt")])),
    ];
    let (_, deps) = run_query(Cache::new(), &trees, "a.cfg");
    assert_eq!(sorted(deps), vec![s("a.cfg"), s("b.cfg"), s("data.txt"), s("shared.txt")]);
}

#[test]
fn cycle_terminates_and_returns_both_files() {
    // A deep-dependency cycle: a.cfg imports b.cfg, b.cfg imports a.cfg.
    let trees = [
        ("a.cfg", Expr::Arr(vec![imp("b.cfg"), imp_str("la.txt")])),
        ("b.cfg", Expr::Arr(vec![imp("a.cfg"), imp_str("lb.txt")])),
    ];
    let (_, deps) = run_query(Cache::new(), &trees, "a.cfg");
    assert_eq!(sorted(deps), vec![s("a.cfg"), s("b.cfg"), s("la.txt"), s("lb.txt")]);
}

#[test]
fn self_import_terminates() {
    let trees = [("a.cfg", Expr::Arr(vec![imp("a.cfg")]))];
    let (_, deps) = run_query(Cache::new(), &trees, "a.cfg");
    assert_eq!(deps, vec![s("a.cfg")]);
}

#[test]
fn resolution_is_idempotent() {
    // Resolving the same root twice through fresh caches yields the same
    // set both times.
    let trees = [
        ("a.cfg", Expr::Arr(vec![imp("b.cfg"), imp("c.cfg")])),
        ("b.cfg", Expr::Arr(vec![imp_str("x.txt")])),
        ("c.cfg", Expr::Arr(vec![imp("b.cfg"), imp_str("y.txt")])),
    ];
    let (_, first) = run_query(Cache::new(), &trees, "a.cfg");
    let (_, second) = run_query(Cache::new(), &trees, "a.cfg");
    assert_eq!(sorted(first), sorted(second));
}

#[test]
fn cache_reuse_has_no_observable_effect() {
    // Two roots share the deep dependency shared.cfg. Resolving them
    // through one shared cache gives the same per-root sets as resolving
    // each with its own fresh cache.
    let trees = [
        ("r1.cfg", Expr::Arr(vec![imp("shared.cfg"), imp_str("one.txt")])),
        ("r2.cfg", Expr::Arr(vec![imp("shared.cfg"), imp_str("two.txt")])),
        ("shared.cfg", Expr::Arr(vec![imp_str("common.txt")])),
    ];
    let (cache, shared_first) = run_query(Cache::new(), &trees, "r1.cfg");
    // The second query reuses the grown cache: shared.cfg is not asked
    // for again (run_query panics if the engine re-requests a cached
    // file).
    let (_, shared_second) = run_query(cache, &trees, "r2.cfg");
    let (_, fresh_first) = run_query(Cache::new(), &trees, "r1.cfg");
    let (_, fresh_second) = run_query(Cache::new(), &trees, "r2.cfg");
    assert_eq!(sorted(shared_first), sorted(fresh_first));
    assert_eq!(sorted(shared_second), sorted(fresh_second));
}

#[test]
fn dependency_sets_hold_each_path_once() {
    // d.cfg is a deep dependency of two files and also the root's leaf
    // dependency target list holds no duplicates.
    let trees = [
        ("a.cfg", Expr::Arr(vec![imp("b.cfg"), imp("c.cfg"), imp_str("t.txt")])),
        ("b.cfg", Expr::Arr(vec![imp("d.cfg"), imp_str("t.txt")])),
        ("c.cfg", Expr::Arr(vec![imp("d.cfg")])),
        ("d.cfg", Expr::Lit),
    ];
    let (_, deps) = run_query(Cache::new(), &trees, "a.cfg");
    let n = deps.len();
    assert_eq!(n, 5);
    assert_eq!(
        sorted(deps),
        vec![s("a.cfg"), s("b.cfg"), s("c.cfg"), s("d.cfg"), s("t.txt")]
    );
}
