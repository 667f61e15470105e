//! The library's model of a parsed configuration-language source tree, and
//! the extraction of import references from it.
//!
//! The tree is a closed set of tagged variants, one per construct that can
//! contain further expressions. Only two variants matter semantically: a
//! module import (the named file is itself subject to recursive analysis, a
//! *deep* dependency) and an inline-text import (only the named file's bytes
//! matter, a *leaf* dependency). Every other variant is transparent: the
//! walk recurses into each sub-expression that can contain imports, and
//! literal leaves carry nothing.

use vstd::prelude::*;

verus! {

/// How an import site classifies its target.
pub enum ImportKind {
    /// Inline-text import: only the file's raw content matters.
    Leaf,
    /// Module import: the file's own dependencies matter too.
    Deep,
}

/// One import reference found during the tree walk, still unresolved.
pub struct RawImport {
    pub kind: ImportKind,
    pub raw: String,
}

impl View for RawImport {
    type V = (bool, Seq<char>);

    /// A raw import is abstractly a pair: is it a leaf import, and the
    /// textual path it names.
    open spec fn view(&self) -> (bool, Seq<char>) {
        (self.kind is Leaf, self.raw@)
    }
}

/// An expression of the configuration language, reduced to what the
/// dependency walk reads: import sites and the sub-expression structure.
pub enum Expr {
    /// Numbers, strings, booleans, null, bare identifiers: nothing inside.
    Lit,
    /// Module import of the named file.
    Import(String),
    /// Inline-text import of the named file.
    ImportStr(String),
    /// Array of expressions.
    Arr(Vec<Expr>),
    /// Array comprehension: element expression plus generators and filters.
    ArrComp(Box<Expr>, Vec<CompSpec>),
    /// Object body, either a member list or a comprehension.
    Obj(ObjBody),
    /// Object extension: base expression plus an object body.
    ObjExtend(Box<Expr>, ObjBody),
    /// Parenthesized expression.
    Parened(Box<Expr>),
    /// Unary operator applied to an expression.
    UnaryOp(Box<Expr>),
    /// Binary operator applied to two expressions.
    BinaryOp(Box<Expr>, Box<Expr>),
    /// Assert statement guarding an expression.
    AssertExpr(AssertStmt, Box<Expr>),
    /// Local bindings in front of an expression.
    Local(Vec<BindSpec>, Box<Expr>),
    /// Error statement.
    ErrorStmt(Box<Expr>),
    /// Function application: callee and every argument expression.
    Apply(Box<Expr>, Vec<Expr>),
    /// Indexing: object and key expressions.
    Index(Box<Expr>, Box<Expr>),
    /// Function literal: parameters (whose defaults are expressions) and body.
    Function(Vec<Param>, Box<Expr>),
    /// Conditional: condition, then-branch, optional else-branch.
    IfElse(Box<Expr>, Box<Expr>, Option<Box<Expr>>),
    /// Slicing: subject plus optional start, end and step expressions.
    Slice(Box<Expr>, Option<Box<Expr>>, Option<Box<Expr>>, Option<Box<Expr>>),
}

/// Assert statement: condition and optional message expression.
pub struct AssertStmt {
    pub cond: Box<Expr>,
    pub message: Option<Box<Expr>>,
}

/// One parameter of a function or method-style field; only its optional
/// default expression can contain imports.
pub struct Param {
    pub default: Option<Box<Expr>>,
}

/// One local binding: an optional parameter list and the bound value.
pub struct BindSpec {
    pub params: Option<Vec<Param>>,
    pub value: Box<Expr>,
}

/// One comprehension clause: a filter condition or a generator source.
pub enum CompSpec {
    If(Box<Expr>),
    For(Box<Expr>),
}

/// A field's name: fixed text, or a computed expression.
pub enum FieldName {
    Fixed,
    Dyn(Box<Expr>),
}

/// One field of an object member list.
pub struct Field {
    pub name: FieldName,
    pub params: Option<Vec<Param>>,
    pub value: Box<Expr>,
}

/// One member of an object's member list.
pub enum Member {
    Field(Field),
    Bind(BindSpec),
    Assert(AssertStmt),
}

/// An object body: a static member list, or the comprehension form.
pub enum ObjBody {
    MemberList(Vec<Member>),
    ObjComp {
        pre_locals: Vec<BindSpec>,
        key: Box<Expr>,
        value: Box<Expr>,
        post_locals: Vec<BindSpec>,
        compspecs: Vec<CompSpec>,
    },
}

/// The import references of an expression, in the order the walk first
/// meets them, not yet deduplicated. Each is a pair: is it a leaf import,
/// and the raw path it names.
pub open spec fn expr_imports(e: Expr) -> Seq<(bool, Seq<char>)>
    decreases e,
{
    match e {
        Expr::Lit => seq![],
        Expr::Import(p) => seq![(false, p@)],
        Expr::ImportStr(p) => seq![(true, p@)],
        Expr::Arr(es) => exprs_imports(es@),
        Expr::ArrComp(e0, cs) => expr_imports(*e0) + compspecs_imports(cs@),
        Expr::Obj(ob) => obj_imports(ob),
        Expr::ObjExtend(e0, ob) => expr_imports(*e0) + obj_imports(ob),
        Expr::Parened(e0) => expr_imports(*e0),
        Expr::UnaryOp(e0) => expr_imports(*e0),
        Expr::BinaryOp(a, b) => expr_imports(*a) + expr_imports(*b),
        Expr::AssertExpr(st, e0) => assert_imports(st) + expr_imports(*e0),
        Expr::Local(bs, e0) => binds_imports(bs@) + expr_imports(*e0),
        Expr::ErrorStmt(e0) => expr_imports(*e0),
        Expr::Apply(f, args) => expr_imports(*f) + exprs_imports(args@),
        Expr::Index(a, b) => expr_imports(*a) + expr_imports(*b),
        Expr::Function(ps, e0) => params_imports(ps@) + expr_imports(*e0),
        Expr::IfElse(c, t, els) => expr_imports(*c) + expr_imports(*t) + opt_imports(els),
        Expr::Slice(e0, lo, hi, st) => expr_imports(*e0) + opt_imports(lo) + opt_imports(hi)
            + opt_imports(st),
    }
}

/// Imports of a sequence of expressions, in order.
pub open spec fn exprs_imports(es: Seq<Expr>) -> Seq<(bool, Seq<char>)>
    decreases es,
{
    if es.len() == 0 {
        seq![]
    } else {
        exprs_imports(es.drop_last()) + expr_imports(es.last())
    }
}

/// Imports of an optional expression.
pub open spec fn opt_imports(o: Option<Box<Expr>>) -> Seq<(bool, Seq<char>)>
    decreases o,
{
    match o {
        Option::None => seq![],
        Option::Some(e0) => expr_imports(*e0),
    }
}

/// Imports of an assert statement: condition, then optional message.
pub open spec fn assert_imports(st: AssertStmt) -> Seq<(bool, Seq<char>)>
    decreases st,
{
    expr_imports(*st.cond) + opt_imports(st.message)
}

/// Imports of one parameter: its optional default expression.
pub open spec fn param_imports(p: Param) -> Seq<(bool, Seq<char>)>
    decreases p,
{
    opt_imports(p.default)
}

/// Imports of a parameter list, in order.
pub open spec fn params_imports(ps: Seq<Param>) -> Seq<(bool, Seq<char>)>
    decreases ps,
{
    if ps.len() == 0 {
        seq![]
    } else {
        params_imports(ps.drop_last()) + param_imports(ps.last())
    }
}

/// Imports of one binding: parameter defaults, then the bound value.
pub open spec fn bind_imports(b: BindSpec) -> Seq<(bool, Seq<char>)>
    decreases b,
{
    (match b.params {
        Option::None => seq![],
        Option::Some(ps) => params_imports(ps@),
    }) + expr_imports(*b.value)
}

/// Imports of a binding list, in order.
pub open spec fn binds_imports(bs: Seq<BindSpec>) -> Seq<(bool, Seq<char>)>
    decreases bs,
{
    if bs.len() == 0 {
        seq![]
    } else {
        binds_imports(bs.drop_last()) + bind_imports(bs.last())
    }
}

/// Imports of one comprehension clause.
pub open spec fn compspec_imports(c: CompSpec) -> Seq<(bool, Seq<char>)>
    decreases c,
{
    match c {
        CompSpec::If(e0) => expr_imports(*e0),
        CompSpec::For(e0) => expr_imports(*e0),
    }
}

/// Imports of the comprehension clauses, in order.
pub open spec fn compspecs_imports(cs: Seq<CompSpec>) -> Seq<(bool, Seq<char>)>
    decreases cs,
{
    if cs.len() == 0 {
        seq![]
    } else {
        compspecs_imports(cs.drop_last()) + compspec_imports(cs.last())
    }
}

/// Imports of one object member.
pub open spec fn member_imports(m: Member) -> Seq<(bool, Seq<char>)>
    decreases m,
{
    match m {
        Member::Field(f) => (match f.name {
            FieldName::Fixed => seq![],
            FieldName::Dyn(e0) => expr_imports(*e0),
        }) + (match f.params {
            Option::None => seq![],
            Option::Some(ps) => params_imports(ps@),
        }) + expr_imports(*f.value),
        Member::Bind(b) => bind_imports(b),
        Member::Assert(st) => assert_imports(st),
    }
}

/// Imports of a member list, in order.
pub open spec fn members_imports(ms: Seq<Member>) -> Seq<(bool, Seq<char>)>
    decreases ms,
{
    if ms.len() == 0 {
        seq![]
    } else {
        members_imports(ms.drop_last()) + member_imports(ms.last())
    }
}

/// Imports of an object body.
pub open spec fn obj_imports(ob: ObjBody) -> Seq<(bool, Seq<char>)>
    decreases ob,
{
    match ob {
        ObjBody::MemberList(ms) => members_imports(ms@),
        ObjBody::ObjComp { pre_locals, key, value, post_locals, compspecs } => binds_imports(
            pre_locals@,
        ) + expr_imports(*key) + expr_imports(*value) + binds_imports(post_locals@)
            + compspecs_imports(compspecs@),
    }
}

/// The abstract content of a collected import list.
pub open spec fn iviews(s: Seq<RawImport>) -> Seq<(bool, Seq<char>)> {
    s.map_values(|r: RawImport| r@)
}

/// Walk an expression and append every import reference it contains to
/// `acc`, in first-encountered order.
#[verifier::loop_isolation(false)]
pub fn collect_expr(e: &Expr, acc: &mut Vec<RawImport>)
    ensures
        iviews(final(acc)@) == iviews(old(acc)@) + expr_imports(*e),
    decreases *e,
{
    match e {
        Expr::Lit => {
            proof {
                assert(iviews(acc@) =~= iviews(old(acc)@) + expr_imports(*e));
            }
        },
        Expr::Import(p) => {
            acc.push(RawImport { kind: ImportKind::Deep, raw: p.clone() });
            proof {
                assert(iviews(acc@) =~= iviews(old(acc)@) + expr_imports(*e));
            }
        },
        Expr::ImportStr(p) => {
            acc.push(RawImport { kind: ImportKind::Leaf, raw: p.clone() });
            proof {
                assert(iviews(acc@) =~= iviews(old(acc)@) + expr_imports(*e));
            }
        },
        Expr::Arr(es) => {
            collect_exprs(es, acc);
        },
        Expr::ArrComp(e0, cs) => {
            collect_expr(e0, acc);
            collect_compspecs(cs, acc);
            proof {
                assert(iviews(acc@) =~= iviews(old(acc)@) + expr_imports(*e));
            }
        },
        Expr::Obj(ob) => {
            collect_obj(ob, acc);
        },
        Expr::ObjExtend(e0, ob) => {
            collect_expr(e0, acc);
            collect_obj(ob, acc);
            proof {
                assert(iviews(acc@) =~= iviews(old(acc)@) + expr_imports(*e));
            }
        },
        Expr::Parened(e0) => {
            collect_expr(e0, acc);
        },
        Expr::UnaryOp(e0) => {
            collect_expr(e0, acc);
        },
        Expr::BinaryOp(a, b) => {
            collect_expr(a, acc);
            collect_expr(b, acc);
            proof {
                assert(iviews(acc@) =~= iviews(old(acc)@) + expr_imports(*e));
            }
        },
        Expr::AssertExpr(st, e0) => {
            collect_assert(st, acc);
            collect_expr(e0, acc);
            proof {
                assert(iviews(acc@) =~= iviews(old(acc)@) + expr_imports(*e));
            }
        },
        Expr::Local(bs, e0) => {
            collect_binds(bs, acc);
            collect_expr(e0, acc);
            proof {
                assert(iviews(acc@) =~= iviews(old(acc)@) + expr_imports(*e));
            }
        },
        Expr::ErrorStmt(e0) => {
            collect_expr(e0, acc);
        },
        Expr::Apply(f, args) => {
            collect_expr(f, acc);
            collect_exprs(args, acc);
            proof {
                assert(iviews(acc@) =~= iviews(old(acc)@) + expr_imports(*e));
            }
        },
        Expr::Index(a, b) => {
            collect_expr(a, acc);
            collect_expr(b, acc);
            proof {
                assert(iviews(acc@) =~= iviews(old(acc)@) + expr_imports(*e));
            }
        },
        Expr::Function(ps, e0) => {
            collect_params(ps, acc);
            collect_expr(e0, acc);
            proof {
                assert(iviews(acc@) =~= iviews(old(acc)@) + expr_imports(*e));
            }
        },
        Expr::IfElse(c, t, els) => {
            collect_expr(c, acc);
            collect_expr(t, acc);
            collect_opt(els, acc);
            proof {
                assert(iviews(acc@) =~= iviews(old(acc)@) + expr_imports(*e));
            }
        },
        Expr::Slice(e0, lo, hi, st) => {
            collect_expr(e0, acc);
            collect_opt(lo, acc);
            collect_opt(hi, acc);
            collect_opt(st, acc);
            proof {
                assert(iviews(acc@) =~= iviews(old(acc)@) + expr_imports(*e));
            }
        },
    }
}

/// Walk an optional expression.
pub fn collect_opt(o: &Option<Box<Expr>>, acc: &mut Vec<RawImport>)
    ensures
        iviews(final(acc)@) == iviews(old(acc)@) + opt_imports(*o),
    decreases *o,
{
    match o {
        Option::Some(e0) => {
            collect_expr(e0, acc);
        },
        Option::None => {
            proof {
                assert(iviews(acc@) =~= iviews(old(acc)@) + opt_imports(*o));
            }
        },
    }
}

/// Walk every expression of a list, in order.
#[verifier::loop_isolation(false)]
pub fn collect_exprs(es: &Vec<Expr>, acc: &mut Vec<RawImport>)
    ensures
        iviews(final(acc)@) == iviews(old(acc)@) + exprs_imports(es@),
    decreases es@,
{
    let mut i: usize = 0;
    while i < es.len()
        invariant
            i <= es@.len(),
            iviews(acc@) == iviews(old(acc)@) + exprs_imports(es@.subrange(0, i as int)),
        decreases es@.len() - i,
    {
        collect_expr(&es[i], acc);
        proof {
            assert(es@.subrange(0, i + 1).drop_last() =~= es@.subrange(0, i as int));
            assert(es@.subrange(0, i + 1).last() == es@[i as int]);
            assert(iviews(acc@) =~= iviews(old(acc)@) + exprs_imports(es@.subrange(0, i + 1)));
        }
        i = i + 1;
    }
    proof {
        assert(es@.subrange(0, es@.len() as int) =~= es@);
    }
}

/// Walk an assert statement: its condition, then its optional message.
pub fn collect_assert(st: &AssertStmt, acc: &mut Vec<RawImport>)
    ensures
        iviews(final(acc)@) == iviews(old(acc)@) + assert_imports(*st),
    decreases *st,
{
    collect_expr(&st.cond, acc);
    if let Option::Some(m) = &st.message {
        collect_expr(m, acc);
    }
    proof {
        assert(iviews(acc@) =~= iviews(old(acc)@) + assert_imports(*st));
    }
}

/// Walk one parameter's optional default expression.
pub fn collect_param(p: &Param, acc: &mut Vec<RawImport>)
    ensures
        iviews(final(acc)@) == iviews(old(acc)@) + param_imports(*p),
    decreases *p,
{
    if let Option::Some(d) = &p.default {
        collect_expr(d, acc);
    }
    proof {
        assert(iviews(acc@) =~= iviews(old(acc)@) + param_imports(*p));
    }
}

/// Walk every parameter of a list, in order.
#[verifier::loop_isolation(false)]
pub fn collect_params(ps: &Vec<Param>, acc: &mut Vec<RawImport>)
    ensures
        iviews(final(acc)@) == iviews(old(acc)@) + params_imports(ps@),
    decreases ps@,
{
    let mut i: usize = 0;
    while i < ps.len()
        invariant
            i <= ps@.len(),
            iviews(acc@) == iviews(old(acc)@) + params_imports(ps@.subrange(0, i as int)),
        decreases ps@.len() - i,
    {
        collect_param(&ps[i], acc);
        proof {
            assert(ps@.subrange(0, i + 1).drop_last() =~= ps@.subrange(0, i as int));
            assert(ps@.subrange(0, i + 1).last() == ps@[i as int]);
            assert(iviews(acc@) =~= iviews(old(acc)@) + params_imports(ps@.subrange(0, i + 1)));
        }
        i = i + 1;
    }
    proof {
        assert(ps@.subrange(0, ps@.len() as int) =~= ps@);
    }
}

/// Walk one binding: its parameter defaults, then its value.
pub fn collect_bind(b: &BindSpec, acc: &mut Vec<RawImport>)
    ensures
        iviews(final(acc)@) == iviews(old(acc)@) + bind_imports(*b),
    decreases *b,
{
    if let Option::Some(ps) = &b.params {
        collect_params(ps, acc);
    }
    collect_expr(&b.value, acc);
    proof {
        assert(iviews(acc@) =~= iviews(old(acc)@) + bind_imports(*b));
    }
}

/// Walk every binding of a list, in order.
#[verifier::loop_isolation(false)]
pub fn collect_binds(bs: &Vec<BindSpec>, acc: &mut Vec<RawImport>)
    ensures
        iviews(final(acc)@) == iviews(old(acc)@) + binds_imports(bs@),
    decreases bs@,
{
    let mut i: usize = 0;
    while i < bs.len()
        invariant
            i <= bs@.len(),
            iviews(acc@) == iviews(old(acc)@) + binds_imports(bs@.subrange(0, i as int)),
        decreases bs@.len() - i,
    {
        collect_bind(&bs[i], acc);
        proof {
            assert(bs@.subrange(0, i + 1).drop_last() =~= bs@.subrange(0, i as int));
            assert(bs@.subrange(0, i + 1).last() == bs@[i as int]);
            assert(iviews(acc@) =~= iviews(old(acc)@) + binds_imports(bs@.subrange(0, i + 1)));
        }
        i = i + 1;
    }
    proof {
        assert(bs@.subrange(0, bs@.len() as int) =~= bs@);
    }
}

/// Walk one comprehension clause.
pub fn collect_compspec(c: &CompSpec, acc: &mut Vec<RawImport>)
    ensures
        iviews(final(acc)@) == iviews(old(acc)@) + compspec_imports(*c),
    decreases *c,
{
    match c {
        CompSpec::If(e0) => collect_expr(e0, acc),
        CompSpec::For(e0) => collect_expr(e0, acc),
    }
}

/// Walk every comprehension clause of a list, in order.
#[verifier::loop_isolation(false)]
pub fn collect_compspecs(cs: &Vec<CompSpec>, acc: &mut Vec<RawImport>)
    ensures
        iviews(final(acc)@) == iviews(old(acc)@) + compspecs_imports(cs@),
    decreases cs@,
{
    let mut i: usize = 0;
    while i < cs.len()
        invariant
            i <= cs@.len(),
            iviews(acc@) == iviews(old(acc)@) + compspecs_imports(cs@.subrange(0, i as int)),
        decreases cs@.len() - i,
    {
        collect_compspec(&cs[i], acc);
        proof {
            assert(cs@.subrange(0, i + 1).drop_last() =~= cs@.subrange(0, i as int));
            assert(cs@.subrange(0, i + 1).last() == cs@[i as int]);
            assert(iviews(acc@) =~= iviews(old(acc)@) + compspecs_imports(cs@.subrange(0, i + 1)));
        }
        i = i + 1;
    }
    proof {
        assert(cs@.subrange(0, cs@.len() as int) =~= cs@);
    }
}

/// Walk one object member.
pub fn collect_member(m: &Member, acc: &mut Vec<RawImport>)
    ensures
        iviews(final(acc)@) == iviews(old(acc)@) + member_imports(*m),
    decreases *m,
{
    match m {
        Member::Field(f) => {
            if let FieldName::Dyn(e0) = &f.name {
                collect_expr(e0, acc);
            }
            if let Option::Some(ps) = &f.params {
                collect_params(ps, acc);
            }
            collect_expr(&f.value, acc);
            proof {
                assert(iviews(acc@) =~= iviews(old(acc)@) + member_imports(*m));
            }
        },
        Member::Bind(b) => {
            collect_bind(b, acc);
        },
        Member::Assert(st) => {
            collect_assert(st, acc);
        },
    }
}

/// Walk every member of a list, in order.
#[verifier::loop_isolation(false)]
pub fn collect_members(ms: &Vec<Member>, acc: &mut Vec<RawImport>)
    ensures
        iviews(final(acc)@) == iviews(old(acc)@) + members_imports(ms@),
    decreases ms@,
{
    let mut i: usize = 0;
    while i < ms.len()
        invariant
            i <= ms@.len(),
            iviews(acc@) == iviews(old(acc)@) + members_imports(ms@.subrange(0, i as int)),
        decreases ms@.len() - i,
    {
        collect_member(&ms[i], acc);
        proof {
            assert(ms@.subrange(0, i + 1).drop_last() =~= ms@.subrange(0, i as int));
            assert(ms@.subrange(0, i + 1).last() == ms@[i as int]);
            assert(iviews(acc@) =~= iviews(old(acc)@) + members_imports(ms@.subrange(0, i + 1)));
        }
        i = i + 1;
    }
    proof {
        assert(ms@.subrange(0, ms@.len() as int) =~= ms@);
    }
}

/// Walk an object body.
pub fn collect_obj(ob: &ObjBody, acc: &mut Vec<RawImport>)
    ensures
        iviews(final(acc)@) == iviews(old(acc)@) + obj_imports(*ob),
    decreases *ob,
{
    match ob {
        ObjBody::MemberList(ms) => {
            collect_members(ms, acc);
        },
        ObjBody::ObjComp { pre_locals, key, value, post_locals, compspecs } => {
            collect_binds(pre_locals, acc);
            collect_expr(key, acc);
            collect_expr(value, acc);
            collect_binds(post_locals, acc);
            collect_compspecs(compspecs, acc);
            proof {
                assert(iviews(acc@) =~= iviews(old(acc)@) + obj_imports(*ob));
            }
        },
    }
}

/// Collect every import reference of an expression, in first-encountered
/// order, not yet deduplicated or resolved.
pub fn collect_imports(e: &Expr) -> (r: Vec<RawImport>)
    ensures
        iviews(r@) == expr_imports(*e),
{
    let mut acc: Vec<RawImport> = Vec::new();
    collect_expr(e, &mut acc);
    proof {
        assert(iviews(acc@) =~= expr_imports(*e));
    }
    acc
}

} // verus!
