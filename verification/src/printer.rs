//! The printer for the syntax tree model.
//!
//! Printing is deterministic and layout is fixed: one module item per line,
//! double-quoted string literals with backslash, quote and newline escaped,
//! comma-separated lists, namespace import specifiers printed bare and named
//! and default specifiers grouped in braces (a default binding prints as
//! `default as name`). A declarator whose binding pattern is the invalid
//! sentinel prints as nothing; the cleanup pass removes such declarators
//! before the session ever prints.

use vstd::prelude::*;

use crate::ast::{
    Expr, ExprView, ImportDecl, ImportDeclView, ImportSpecifier, ImportSpecifierView, JsxAttr,
    JsxAttrValue, JsxAttrValueView, JsxAttrView, JsxChild, JsxChildView, JsxElement,
    JsxElementView, JsxFragment, Lit, LitView, Module, ModuleItem,
    ModuleItemView, ModuleView, Pat, PatView, Prop, PropKey, PropKeyView, PropOrSpread,
    PropOrSpreadView, PropView, Stmt, StmtView,
    VarDeclaratorView, VarKindView, lemma_view_attr_seq, lemma_view_child_seq,
    lemma_view_declarator_seq, lemma_view_expr_seq, lemma_view_import_specifier_seq,
    lemma_view_item_seq, lemma_view_opt_expr_seq, lemma_view_prop_seq, view_attr, view_attr_seq,
    view_child, view_child_seq, view_declarator, view_declarator_seq, view_expr, view_expr_seq,
    VarDeclView, view_import, view_import_specifier, view_import_specifier_seq, view_item,
    view_item_seq,
    view_module, view_opt_expr, view_opt_expr_seq, view_prop_or_spread, view_prop_seq, view_stmt,
    view_var_decl, view_element, view_fragment,
};
use crate::text::{
    lemma_view_chars_seq, lemma_view_chars_seq_push, push_str_chars, view_chars_seq,
};

verus! {

/// The escape of one character inside a double-quoted string literal.
pub open spec fn escape_char(c: char) -> Seq<char> {
    if c == '"' {
        seq!['\\', '"']
    } else if c == '\\' {
        seq!['\\', '\\']
    } else if c == '\n' {
        seq!['\\', 'n']
    } else {
        seq![c]
    }
}

/// The escaped body of a double-quoted string literal.
pub open spec fn escape_str(s: Seq<char>) -> Seq<char>
    decreases s.len(),
{
    if s.len() == 0 {
        Seq::empty()
    } else {
        escape_str(s.drop_last()) + escape_char(s.last())
    }
}

/// A double-quoted string literal.
pub open spec fn quoted(s: Seq<char>) -> Seq<char> {
    seq!['"'] + escape_str(s) + seq!['"']
}

/// Parts joined by a separator.
pub open spec fn join_parts(parts: Seq<Seq<char>>, sep: Seq<char>) -> Seq<char>
    decreases parts.len(),
{
    if parts.len() == 0 {
        Seq::empty()
    } else if parts.len() == 1 {
        parts[0]
    } else {
        join_parts(parts.drop_last(), sep) + sep + parts.last()
    }
}

pub open spec fn print_lit(l: LitView) -> Seq<char> {
    match l {
        LitView::Str(s) => quoted(s),
        LitView::Num(s) => s,
        LitView::BigInt(s) => s + "n"@,
        LitView::Bool(b) => if b {
            "true"@
        } else {
            "false"@
        },
        LitView::Null => "null"@,
    }
}

pub open spec fn print_expr(e: ExprView) -> Seq<char>
    decreases e, 0int,
{
    match e {
        ExprView::Ident(s) => s,
        ExprView::Lit(l) => print_lit(l),
        ExprView::Array(elems) => "["@ + join_parts(print_opt_exprs(elems), ", "@) + "]"@,
        ExprView::Object(props) => if props.len() == 0 {
            "{}"@
        } else {
            "{ "@ + join_parts(print_props(props), ", "@) + " }"@
        },
        ExprView::Call(callee, args) => print_expr(*callee) + "("@ + join_parts(
            print_exprs(args),
            ", "@,
        ) + ")"@,
        ExprView::Member(obj, prop) => print_expr(*obj) + "."@ + prop,
        ExprView::Jsx(el) => print_element(el),
        ExprView::JsxFragment(fr) => "<>"@ + print_children(fr.children) + "</>"@,
    }
}

pub open spec fn print_exprs(s: Seq<ExprView>) -> Seq<Seq<char>>
    decreases s, 1int,
{
    if s.len() == 0 {
        Seq::empty()
    } else {
        print_exprs(s.drop_last()).push(print_expr(s.last()))
    }
}

pub open spec fn print_opt_exprs(s: Seq<Option<ExprView>>) -> Seq<Seq<char>>
    decreases s, 1int,
{
    if s.len() == 0 {
        Seq::empty()
    } else {
        print_opt_exprs(s.drop_last()).push(
            match s.last() {
                Some(e) => print_expr(e),
                None => Seq::empty(),
            },
        )
    }
}

pub open spec fn print_prop(p: PropOrSpreadView) -> Seq<char>
    decreases p, 1int,
{
    match p {
        PropOrSpreadView::Prop(PropView::KeyValue(k, v)) => (match k {
            PropKeyView::Ident(s) => s,
            PropKeyView::Str(s) => quoted(s),
            PropKeyView::Num(s) => s,
            PropKeyView::BigInt(s) => s + "n"@,
            PropKeyView::Computed(ke) => "["@ + print_expr(*ke) + "]"@,
        }) + ": "@ + print_expr(*v),
        PropOrSpreadView::Prop(PropView::Shorthand(s)) => s,
        PropOrSpreadView::Spread(e) => "..."@ + print_expr(*e),
    }
}

pub open spec fn print_props(s: Seq<PropOrSpreadView>) -> Seq<Seq<char>>
    decreases s, 2int,
{
    if s.len() == 0 {
        Seq::empty()
    } else {
        print_props(s.drop_last()).push(print_prop(s.last()))
    }
}

pub open spec fn print_attr(a: JsxAttrView) -> Seq<char>
    decreases a, 1int,
{
    " "@ + a.name + (match a.value {
        None => Seq::<char>::empty(),
        Some(JsxAttrValueView::Lit(LitView::Str(s))) => "="@ + quoted(s),
        Some(JsxAttrValueView::Lit(l)) => "={"@ + print_lit(l) + "}"@,
        Some(JsxAttrValueView::Container(e)) => "={"@ + print_expr(*e) + "}"@,
        Some(JsxAttrValueView::Empty) => "={}"@,
    })
}

pub open spec fn print_attrs(s: Seq<JsxAttrView>) -> Seq<char>
    decreases s, 2int,
{
    if s.len() == 0 {
        Seq::empty()
    } else {
        print_attrs(s.drop_last()) + print_attr(s.last())
    }
}

pub open spec fn print_child(c: JsxChildView) -> Seq<char>
    decreases c, 2int,
{
    match c {
        JsxChildView::Element(el) => print_element(el),
        JsxChildView::Fragment(fr) => "<>"@ + print_children(fr.children) + "</>"@,
        JsxChildView::Text(s) => s,
        JsxChildView::ExprContainer(e) => "{"@ + print_expr(*e) + "}"@,
    }
}

pub open spec fn print_children(s: Seq<JsxChildView>) -> Seq<char>
    decreases s, 3int,
{
    if s.len() == 0 {
        Seq::empty()
    } else {
        print_children(s.drop_last()) + print_child(s.last())
    }
}

pub open spec fn print_element(el: JsxElementView) -> Seq<char>
    decreases el, 4int,
{
    "<"@ + el.name + print_attrs(el.attrs) + (if el.self_closing {
        " />"@
    } else {
        ">"@ + print_children(el.children) + "</"@ + el.name + ">"@
    })
}

pub open spec fn print_pat(p: PatView) -> Seq<char> {
    match p {
        PatView::Ident(s) => s,
        PatView::Invalid => Seq::empty(),
    }
}

pub open spec fn print_declarator(d: VarDeclaratorView) -> Seq<char> {
    print_pat(d.name) + (match d.init {
        Some(e) => " = "@ + print_expr(e),
        None => Seq::<char>::empty(),
    })
}

pub open spec fn print_declarators(s: Seq<VarDeclaratorView>) -> Seq<Seq<char>>
    decreases s.len(),
{
    if s.len() == 0 {
        Seq::empty()
    } else {
        print_declarators(s.drop_last()).push(print_declarator(s.last()))
    }
}

pub open spec fn print_var_kind(k: VarKindView) -> Seq<char> {
    match k {
        VarKindView::Var => "var "@,
        VarKindView::Let => "let "@,
        VarKindView::Const => "const "@,
    }
}

pub open spec fn print_var_decl(vd: VarDeclView) -> Seq<char> {
    print_var_kind(vd.kind) + join_parts(print_declarators(vd.decls), ", "@) + ";"@
}

pub open spec fn print_stmt(st: StmtView) -> Seq<char> {
    match st {
        StmtView::Decl(vd) => print_var_decl(vd),
        StmtView::Expr(e) => print_expr(*e) + ";"@,
        StmtView::Empty => ";"@,
    }
}

/// The bare parts of an import: namespace specifiers.
pub open spec fn import_bare_parts(s: Seq<ImportSpecifierView>) -> Seq<Seq<char>>
    decreases s.len(),
{
    if s.len() == 0 {
        Seq::empty()
    } else {
        import_bare_parts(s.drop_last()) + (match s.last() {
            ImportSpecifierView::Namespace { local } => seq!["* as "@ + local],
            _ => Seq::empty(),
        })
    }
}

/// The braced parts of an import: named and default specifiers.
pub open spec fn import_braced_parts(s: Seq<ImportSpecifierView>) -> Seq<Seq<char>>
    decreases s.len(),
{
    if s.len() == 0 {
        Seq::empty()
    } else {
        import_braced_parts(s.drop_last()) + (match s.last() {
            ImportSpecifierView::Named { local, imported } => match imported {
                Some(imp) => seq![imp + " as "@ + local],
                None => seq![local],
            },
            ImportSpecifierView::Default { local } => seq!["default as "@ + local],
            _ => Seq::empty(),
        })
    }
}

/// One import statement for one clause.
pub open spec fn import_stmt(clause: Seq<char>, src: Seq<char>) -> Seq<char> {
    "import "@ + clause + " from "@ + quoted(src) + ";"@
}

/// One import statement per clause.
pub open spec fn import_stmts(clauses: Seq<Seq<char>>, src: Seq<char>) -> Seq<Seq<char>>
    decreases clauses.len(),
{
    if clauses.len() == 0 {
        Seq::empty()
    } else {
        import_stmts(clauses.drop_last(), src).push(import_stmt(clauses.last(), src))
    }
}

/// An import declaration prints as one statement per namespace specifier and
/// one for the braced group of named and default specifiers, so that every
/// line is a legal import statement on its own.
pub open spec fn print_import(d: ImportDeclView) -> Seq<char> {
    if d.specifiers.len() == 0 {
        "import "@ + quoted(d.src) + ";"@
    } else {
        let bare = import_bare_parts(d.specifiers);
        let braced = import_braced_parts(d.specifiers);
        let clauses = if braced.len() == 0 {
            bare
        } else {
            bare.push("{ "@ + join_parts(braced, ", "@) + " }"@)
        };
        join_parts(import_stmts(clauses, d.src), "\n"@)
    }
}

pub open spec fn print_item(it: ModuleItemView) -> Seq<char> {
    match it {
        ModuleItemView::Import(d) => print_import(d) + "\n"@,
        ModuleItemView::Stmt(st) => print_stmt(st) + "\n"@,
        ModuleItemView::Export(vd) => "export "@ + print_var_decl(vd) + "\n"@,
    }
}

/// The printed text of a module: its items in order, one per line.
pub open spec fn print_module(m: ModuleView) -> Seq<char>
    decreases m.items.len(),
{
    print_items(m.items)
}

pub open spec fn print_items(s: Seq<ModuleItemView>) -> Seq<char>
    decreases s.len(),
{
    if s.len() == 0 {
        Seq::empty()
    } else {
        print_items(s.drop_last()) + print_item(s.last())
    }
}

// ---------------------------------------------------------------------------
// Executable printer
// ---------------------------------------------------------------------------

/// Appends the parts joined by `sep`.
#[verifier::loop_isolation(false)]
fn join_exec(parts: &Vec<Vec<char>>, sep: &str, out: &mut Vec<char>)
    ensures
        final(out)@ == old(out)@ + join_parts(view_chars_seq(parts@), sep@),
{
    let ghost p0 = view_chars_seq(parts@);
    proof {
        lemma_view_chars_seq(parts@);
        assert(p0.take(0) =~= Seq::<Seq<char>>::empty());
    }
    let ghost base = out@;
    let mut k: usize = 0;
    while k < parts.len()
        invariant
            p0.len() == parts@.len(),
            forall|i: int| 0 <= i < parts@.len() ==> p0[i] == (#[trigger] parts@[i])@,
            k <= parts@.len(),
            out@ == base + join_parts(p0.take(k as int), sep@),
        decreases parts@.len() - k,
    {
        proof {
            assert(p0.take(k + 1).drop_last() =~= p0.take(k as int));
            assert(p0.take(k + 1).last() == p0[k as int]);
        }
        if k > 0 {
            push_str_chars(out, sep);
        }
        let part = &parts[k];
        let mut i: usize = 0;
        let ghost base2 = out@;
        while i < part.len()
            invariant
                i <= part@.len(),
                out@ == base2 + part@.take(i as int),
            decreases part@.len() - i,
        {
            out.push(part[i]);
            proof {
                assert(out@ =~= base2 + part@.take(i + 1));
            }
            i = i + 1;
        }
        proof {
            assert(part@.take(part@.len() as int) =~= part@);
            assert(out@ =~= base + join_parts(p0.take(k + 1), sep@));
        }
        k = k + 1;
    }
    proof {
        assert(p0.take(parts@.len() as int) =~= p0);
    }
}

/// Appends the printed literal.
fn pr_lit(l: &Lit, out: &mut Vec<char>)
    ensures
        final(out)@ == old(out)@ + print_lit(crate::ast::view_lit(*l)),
{
    match l {
        Lit::Str(s) => {
            pr_quoted(s.as_str(), out);
        },
        Lit::Num(s) => {
            push_str_chars(out, s.as_str());
        },
        Lit::BigInt(s) => {
            push_str_chars(out, s.as_str());
            push_str_chars(out, "n");
        },
        Lit::Bool(b) => {
            if *b {
                push_str_chars(out, "true");
            } else {
                push_str_chars(out, "false");
            }
        },
        Lit::Null => {
            push_str_chars(out, "null");
        },
    }
}

/// Appends a double-quoted, escaped string literal.
#[verifier::loop_isolation(false)]
fn pr_quoted(s: &str, out: &mut Vec<char>)
    ensures
        final(out)@ == old(out)@ + quoted(s@),
{
    out.push('"');
    let ghost base = out@;
    proof {
        assert(base =~= old(out)@ + seq!['"']);
        assert(escape_str(s@.take(0)) =~= Seq::<char>::empty());
        assert(out@ =~= base + escape_str(s@.take(0)));
    }
    let n: usize = s.unicode_len();
    let mut i: usize = 0;
    while i < n
        invariant
            n == s@.len(),
            i <= n,
            out@ == base + escape_str(s@.take(i as int)),
        decreases n - i,
    {
        proof {
            assert(s@.take(i + 1).drop_last() =~= s@.take(i as int));
            assert(s@.take(i + 1).last() == s@[i as int]);
        }
        let c = s.get_char(i);
        if c == '"' {
            out.push('\\');
            out.push('"');
        } else if c == '\\' {
            out.push('\\');
            out.push('\\');
        } else if c == '\n' {
            out.push('\\');
            out.push('n');
        } else {
            out.push(c);
        }
        proof {
            assert(out@ =~= base + escape_str(s@.take(i + 1)));
        }
        i = i + 1;
    }
    out.push('"');
    proof {
        assert(s@.take(n as int) =~= s@);
        assert(out@ =~= old(out)@ + quoted(s@));
    }
}

/// Appends the printed expression.
#[verifier::loop_isolation(false)]
fn pr_expr(e: &Expr, out: &mut Vec<char>)
    ensures
        final(out)@ == old(out)@ + print_expr(view_expr(*e)),
    decreases e,
{
    let ghost ve = view_expr(*e);
    match e {
        Expr::Ident(s) => {
            push_str_chars(out, s.as_str());
        },
        Expr::Lit(l) => {
            pr_lit(l, out);
        },
        Expr::Array(elems) => {
            proof {
                assert(ve == ExprView::Array(view_opt_expr_seq(elems@)));
                lemma_view_opt_expr_seq(elems@);
            }
            let ghost s0 = view_opt_expr_seq(elems@);
            push_str_chars(out, "[");
            let mut parts: Vec<Vec<char>> = Vec::new();
            let mut k: usize = 0;
            proof {
                assert(view_chars_seq(Seq::<Vec<char>>::empty()) =~= Seq::<Seq<char>>::empty());
                assert(print_opt_exprs(s0.take(0)) =~= Seq::<Seq<char>>::empty());
            }
            while k < elems.len()
                invariant
                    s0 == view_opt_expr_seq(elems@),
                    s0.len() == elems@.len(),
                    forall|j: int| 0 <= j < elems@.len() ==> s0[j] == view_opt_expr(
                        #[trigger] elems@[j],
                    ),
                    k <= elems@.len(),
                    view_chars_seq(parts@) == print_opt_exprs(s0.take(k as int)),
                decreases elems@.len() - k,
            {
                proof {
                    assert(s0.take(k + 1).drop_last() =~= s0.take(k as int));
                    assert(s0.take(k + 1).last() == s0[k as int]);
                }
                let mut part: Vec<char> = Vec::new();
                match &elems[k] {
                    Some(inner) => {
                        proof {
                            assert((*e)->Array_0 == *elems);
                            assert(decreases_to!(*e => (*e)->Array_0));
                            assert(decreases_to!(*elems => elems@));
                            assert(decreases_to!(elems@ => elems@[k as int]));
                            assert(decreases_to!(elems@[k as int] => *inner));
                        }
                        pr_expr(inner, &mut part);
                    },
                    None => {},
                }
                proof {
                    lemma_view_chars_seq_push(parts@, part);
                    assert(view_chars_seq(parts@.push(part)) =~= print_opt_exprs(s0.take(
                        k + 1,
                    )));
                }
                parts.push(part);
                k = k + 1;
            }
            proof {
                assert(s0.take(elems@.len() as int) =~= s0);
            }
            join_exec(&parts, ", ", out);
            push_str_chars(out, "]");
            proof {
                assert(out@ =~= old(out)@ + print_expr(ve));
            }
        },
        Expr::Object(props) => {
            proof {
                assert(ve == ExprView::Object(view_prop_seq(props@)));
                lemma_view_prop_seq(props@);
            }
            let ghost s0 = view_prop_seq(props@);
            if props.len() == 0 {
                push_str_chars(out, "{}");
                return ;
            }
            push_str_chars(out, "{ ");
            let mut parts: Vec<Vec<char>> = Vec::new();
            let mut k: usize = 0;
            proof {
                assert(view_chars_seq(Seq::<Vec<char>>::empty()) =~= Seq::<Seq<char>>::empty());
                assert(print_props(s0.take(0)) =~= Seq::<Seq<char>>::empty());
            }
            while k < props.len()
                invariant
                    s0 == view_prop_seq(props@),
                    s0.len() == props@.len(),
                    forall|j: int| 0 <= j < props@.len() ==> s0[j] == view_prop_or_spread(
                        #[trigger] props@[j],
                    ),
                    k <= props@.len(),
                    view_chars_seq(parts@) == print_props(s0.take(k as int)),
                decreases props@.len() - k,
            {
                proof {
                    assert(s0.take(k + 1).drop_last() =~= s0.take(k as int));
                    assert(s0.take(k + 1).last() == s0[k as int]);
                    assert((*e)->Object_0 == *props);
                    assert(decreases_to!(*e => (*e)->Object_0));
                    assert(decreases_to!(*props => props@));
                    assert(decreases_to!(props@ => props@[k as int]));
                }
                let mut part: Vec<char> = Vec::new();
                pr_prop(&props[k], &mut part);
                proof {
                    lemma_view_chars_seq_push(parts@, part);
                    assert(view_chars_seq(parts@.push(part)) =~= print_props(s0.take(k + 1)));
                }
                parts.push(part);
                k = k + 1;
            }
            proof {
                assert(s0.take(props@.len() as int) =~= s0);
            }
            join_exec(&parts, ", ", out);
            push_str_chars(out, " }");
            proof {
                assert(out@ =~= old(out)@ + print_expr(ve));
            }
        },
        Expr::Call(callee, args) => {
            proof {
                assert(ve == ExprView::Call(Box::new(view_expr(**callee)), view_expr_seq(args@)));
                lemma_view_expr_seq(args@);
            }
            let ghost s0 = view_expr_seq(args@);
            pr_expr(&**callee, out);
            push_str_chars(out, "(");
            let mut parts: Vec<Vec<char>> = Vec::new();
            let mut k: usize = 0;
            proof {
                assert(view_chars_seq(Seq::<Vec<char>>::empty()) =~= Seq::<Seq<char>>::empty());
                assert(print_exprs(s0.take(0)) =~= Seq::<Seq<char>>::empty());
            }
            while k < args.len()
                invariant
                    s0 == view_expr_seq(args@),
                    s0.len() == args@.len(),
                    forall|j: int| 0 <= j < args@.len() ==> s0[j] == view_expr(
                        #[trigger] args@[j],
                    ),
                    k <= args@.len(),
                    view_chars_seq(parts@) == print_exprs(s0.take(k as int)),
                decreases args@.len() - k,
            {
                proof {
                    assert(s0.take(k + 1).drop_last() =~= s0.take(k as int));
                    assert(s0.take(k + 1).last() == s0[k as int]);
                    assert((*e)->Call_1 == *args);
                    assert(decreases_to!(*e => (*e)->Call_1));
                    assert(decreases_to!(*args => args@));
                    assert(decreases_to!(args@ => args@[k as int]));
                }
                let mut part: Vec<char> = Vec::new();
                pr_expr(&args[k], &mut part);
                proof {
                    lemma_view_chars_seq_push(parts@, part);
                    assert(view_chars_seq(parts@.push(part)) =~= print_exprs(s0.take(k + 1)));
                }
                parts.push(part);
                k = k + 1;
            }
            proof {
                assert(s0.take(args@.len() as int) =~= s0);
            }
            join_exec(&parts, ", ", out);
            push_str_chars(out, ")");
            proof {
                assert(out@ =~= old(out)@ + print_expr(ve));
            }
        },
        Expr::Member(obj, prop) => {
            proof {
                assert(ve == ExprView::Member(Box::new(view_expr(**obj)), prop@));
            }
            pr_expr(&**obj, out);
            push_str_chars(out, ".");
            push_str_chars(out, prop.as_str());
            proof {
                assert(out@ =~= old(out)@ + print_expr(ve));
            }
        },
        Expr::Jsx(bel) => {
            proof {
                assert(ve == ExprView::Jsx(view_element(**bel)));
            }
            pr_element(&**bel, out);
        },
        Expr::JsxFragment(fr) => {
            proof {
                assert(ve == ExprView::JsxFragment(crate::ast::view_fragment(*fr)));
            }
            push_str_chars(out, "<>");
            pr_children(&fr.children, out);
            push_str_chars(out, "</>");
            proof {
                assert(out@ =~= old(out)@ + print_expr(ve));
            }
        },
    }
}

/// Appends the printed property.
fn pr_prop(p: &PropOrSpread, out: &mut Vec<char>)
    ensures
        final(out)@ == old(out)@ + print_prop(view_prop_or_spread(*p)),
    decreases p,
{
    let ghost vp = view_prop_or_spread(*p);
    match p {
        PropOrSpread::Prop(Prop::KeyValue(pk, pv)) => {
            match pk {
                PropKey::Ident(s) => {
                    push_str_chars(out, s.as_str());
                },
                PropKey::Str(s) => {
                    pr_quoted(s.as_str(), out);
                },
                PropKey::Num(s) => {
                    push_str_chars(out, s.as_str());
                },
                PropKey::BigInt(s) => {
                    push_str_chars(out, s.as_str());
                    push_str_chars(out, "n");
                },
                PropKey::Computed(ke) => {
                    push_str_chars(out, "[");
                    pr_expr(&**ke, out);
                    push_str_chars(out, "]");
                },
            }
            push_str_chars(out, ": ");
            pr_expr(&**pv, out);
            proof {
                assert(out@ =~= old(out)@ + print_prop(vp));
            }
        },
        PropOrSpread::Prop(Prop::Shorthand(s)) => {
            push_str_chars(out, s.as_str());
        },
        PropOrSpread::Spread(inner) => {
            push_str_chars(out, "...");
            pr_expr(&**inner, out);
            proof {
                assert(out@ =~= old(out)@ + print_prop(vp));
            }
        },
    }
}

/// Appends the printed attribute list.
#[verifier::loop_isolation(false)]
fn pr_attrs(attrs: &Vec<JsxAttr>, out: &mut Vec<char>)
    ensures
        final(out)@ == old(out)@ + print_attrs(view_attr_seq(attrs@)),
    decreases attrs,
{
    let ghost s0 = view_attr_seq(attrs@);
    proof {
        lemma_view_attr_seq(attrs@);
        assert(print_attrs(s0.take(0)) =~= Seq::<char>::empty());
    }
    let ghost base = out@;
    let mut k: usize = 0;
    while k < attrs.len()
        invariant
            s0 == view_attr_seq(attrs@),
            s0.len() == attrs@.len(),
            forall|j: int| 0 <= j < attrs@.len() ==> s0[j] == view_attr(#[trigger] attrs@[j]),
            k <= attrs@.len(),
            out@ == base + print_attrs(s0.take(k as int)),
        decreases attrs@.len() - k,
    {
        proof {
            assert(s0.take(k + 1).drop_last() =~= s0.take(k as int));
            assert(s0.take(k + 1).last() == s0[k as int]);
            assert(decreases_to!(*attrs => attrs@));
            assert(decreases_to!(attrs@ => attrs@[k as int]));
        }
        let a = &attrs[k];
        let ghost pre = out@;
        push_str_chars(out, " ");
        push_str_chars(out, a.name.as_str());
        match &a.value {
            None => {},
            Some(JsxAttrValue::Lit(Lit::Str(s))) => {
                push_str_chars(out, "=");
                pr_quoted(s.as_str(), out);
            },
            Some(JsxAttrValue::Lit(l)) => {
                push_str_chars(out, "={");
                pr_lit(l, out);
                push_str_chars(out, "}");
            },
            Some(JsxAttrValue::Container(be)) => {
                proof {
                    assert(decreases_to!(attrs@[k as int] => **be));
                }
                push_str_chars(out, "={");
                pr_expr(&**be, out);
                push_str_chars(out, "}");
            },
            Some(JsxAttrValue::Empty) => {
                push_str_chars(out, "={}");
            },
        }
        proof {
            assert(out@ =~= pre + print_attr(s0[k as int]));
            assert(out@ =~= base + print_attrs(s0.take(k + 1)));
        }
        k = k + 1;
    }
    proof {
        assert(s0.take(attrs@.len() as int) =~= s0);
    }
}

/// Appends the printed child list.
#[verifier::loop_isolation(false)]
fn pr_children(children: &Vec<JsxChild>, out: &mut Vec<char>)
    ensures
        final(out)@ == old(out)@ + print_children(view_child_seq(children@)),
    decreases children,
{
    let ghost s0 = view_child_seq(children@);
    proof {
        lemma_view_child_seq(children@);
        assert(print_children(s0.take(0)) =~= Seq::<char>::empty());
    }
    let ghost base = out@;
    let mut k: usize = 0;
    while k < children.len()
        invariant
            s0 == view_child_seq(children@),
            s0.len() == children@.len(),
            forall|j: int| 0 <= j < children@.len() ==> s0[j] == view_child(
                #[trigger] children@[j],
            ),
            k <= children@.len(),
            out@ == base + print_children(s0.take(k as int)),
        decreases children@.len() - k,
    {
        proof {
            assert(s0.take(k + 1).drop_last() =~= s0.take(k as int));
            assert(s0.take(k + 1).last() == s0[k as int]);
            assert(decreases_to!(*children => children@));
            assert(decreases_to!(children@ => children@[k as int]));
        }
        let ghost pre = out@;
        match &children[k] {
            JsxChild::Element(bel) => {
                proof {
                    assert(decreases_to!(children@[k as int] => **bel));
                }
                pr_element(&**bel, out);
            },
            JsxChild::Fragment(fr) => {
                proof {
                    assert(decreases_to!(children@[k as int] => *fr));
                    assert(decreases_to!(*fr => fr.children));
                }
                push_str_chars(out, "<>");
                pr_children(&fr.children, out);
                push_str_chars(out, "</>");
            },
            JsxChild::Text(tx) => {
                push_str_chars(out, tx.as_str());
            },
            JsxChild::ExprContainer(be) => {
                proof {
                    assert(decreases_to!(children@[k as int] => **be));
                }
                push_str_chars(out, "{");
                pr_expr(&**be, out);
                push_str_chars(out, "}");
            },
        }
        proof {
            assert(out@ =~= pre + print_child(s0[k as int]));
            assert(out@ =~= base + print_children(s0.take(k + 1)));
        }
        k = k + 1;
    }
    proof {
        assert(s0.take(children@.len() as int) =~= s0);
    }
}

/// Appends the printed element.
fn pr_element(el: &JsxElement, out: &mut Vec<char>)
    ensures
        final(out)@ == old(out)@ + print_element(view_element(*el)),
    decreases el,
{
    let ghost vel = view_element(*el);
    proof {
        assert(vel == (JsxElementView {
            name: el.name@,
            attrs: view_attr_seq(el.attrs@),
            children: view_child_seq(el.children@),
            self_closing: el.self_closing,
        }));
    }
    push_str_chars(out, "<");
    push_str_chars(out, el.name.as_str());
    pr_attrs(&el.attrs, out);
    if el.self_closing {
        push_str_chars(out, " />");
    } else {
        push_str_chars(out, ">");
        pr_children(&el.children, out);
        push_str_chars(out, "</");
        push_str_chars(out, el.name.as_str());
        push_str_chars(out, ">");
    }
    proof {
        assert(out@ =~= old(out)@ + print_element(vel));
    }
}

/// Appends the printed statement.
#[verifier::loop_isolation(false)]
fn pr_var_decl(vd: &crate::ast::VarDecl, out: &mut Vec<char>)
    ensures
        final(out)@ == old(out)@ + print_var_decl(view_var_decl(*vd)),
{
    proof {
        lemma_view_declarator_seq(vd.decls@);
    }
    let ghost s0 = view_declarator_seq(vd.decls@);
    match vd.kind {
        crate::ast::VarKind::Var => push_str_chars(out, "var "),
        crate::ast::VarKind::Let => push_str_chars(out, "let "),
        crate::ast::VarKind::Const => push_str_chars(out, "const "),
    }
    let mut parts: Vec<Vec<char>> = Vec::new();
    let mut k: usize = 0;
    proof {
        assert(view_chars_seq(Seq::<Vec<char>>::empty()) =~= Seq::<Seq<char>>::empty());
        assert(print_declarators(s0.take(0)) =~= Seq::<Seq<char>>::empty());
    }
    while k < vd.decls.len()
        invariant
            s0 == view_declarator_seq(vd.decls@),
            s0.len() == vd.decls@.len(),
            forall|j: int| 0 <= j < vd.decls@.len() ==> s0[j] == view_declarator(
                #[trigger] vd.decls@[j],
            ),
            k <= vd.decls@.len(),
            view_chars_seq(parts@) == print_declarators(s0.take(k as int)),
        decreases vd.decls@.len() - k,
    {
        proof {
            assert(s0.take(k + 1).drop_last() =~= s0.take(k as int));
            assert(s0.take(k + 1).last() == s0[k as int]);
        }
        let d = &vd.decls[k];
        let mut part: Vec<char> = Vec::new();
        match &d.name {
            Pat::Ident(nm) => {
                push_str_chars(&mut part, nm.as_str());
            },
            Pat::Invalid => {},
        }
        match &d.init {
            Some(ie) => {
                push_str_chars(&mut part, " = ");
                pr_expr(ie, &mut part);
            },
            None => {},
        }
        proof {
            assert(part@ =~= print_declarator(s0[k as int]));
            lemma_view_chars_seq_push(parts@, part);
            assert(view_chars_seq(parts@.push(part)) =~= print_declarators(s0.take(k + 1)));
        }
        parts.push(part);
        k = k + 1;
    }
    proof {
        assert(s0.take(vd.decls@.len() as int) =~= s0);
    }
    join_exec(&parts, ", ", out);
    push_str_chars(out, ";");
    proof {
        assert(out@ =~= old(out)@ + print_var_decl(view_var_decl(*vd)));
    }
}

/// Appends the printed statement.
#[verifier::loop_isolation(false)]
fn pr_stmt(st: &Stmt, out: &mut Vec<char>)
    ensures
        final(out)@ == old(out)@ + print_stmt(view_stmt(*st)),
{
    let ghost vst = view_stmt(*st);
    match st {
        Stmt::Decl(vd) => {
            proof {
                assert(vst == StmtView::Decl(view_var_decl(*vd)));
            }
            pr_var_decl(vd, out);
        },
        Stmt::Expr(be) => {
            pr_expr(&**be, out);
            push_str_chars(out, ";");
            proof {
                assert(out@ =~= old(out)@ + print_stmt(vst));
            }
        },
        Stmt::Empty => {
            push_str_chars(out, ";");
        },
    }
}

/// Appends the printed import declaration.
#[verifier::loop_isolation(false)]
fn pr_import(d: &ImportDecl, out: &mut Vec<char>)
    ensures
        final(out)@ == old(out)@ + print_import(view_import(*d)),
{
    let ghost vd = view_import(*d);
    let ghost s0 = view_import_specifier_seq(d.specifiers@);
    proof {
        lemma_view_import_specifier_seq(d.specifiers@);
        assert(vd.specifiers == s0);
    }
    if d.specifiers.len() == 0 {
        push_str_chars(out, "import ");
        pr_quoted(d.src.as_str(), out);
        push_str_chars(out, ";");
        proof {
            assert(out@ =~= old(out)@ + print_import(vd));
        }
        return ;
    }
    let mut bare: Vec<Vec<char>> = Vec::new();
    let mut braced: Vec<Vec<char>> = Vec::new();
    let mut k: usize = 0;
    proof {
        assert(view_chars_seq(Seq::<Vec<char>>::empty()) =~= Seq::<Seq<char>>::empty());
        assert(import_bare_parts(s0.take(0)) =~= Seq::<Seq<char>>::empty());
        assert(import_braced_parts(s0.take(0)) =~= Seq::<Seq<char>>::empty());
    }
    while k < d.specifiers.len()
        invariant
            s0 == view_import_specifier_seq(d.specifiers@),
            s0.len() == d.specifiers@.len(),
            forall|j: int| 0 <= j < d.specifiers@.len() ==> s0[j] == view_import_specifier(
                #[trigger] d.specifiers@[j],
            ),
            k <= d.specifiers@.len(),
            view_chars_seq(bare@) == import_bare_parts(s0.take(k as int)),
            view_chars_seq(braced@) == import_braced_parts(s0.take(k as int)),
        decreases d.specifiers@.len() - k,
    {
        proof {
            assert(s0.take(k + 1).drop_last() =~= s0.take(k as int));
            assert(s0.take(k + 1).last() == s0[k as int]);
        }
        match &d.specifiers[k] {
            ImportSpecifier::Named { local, imported } => {
                let mut part: Vec<char> = Vec::new();
                match imported {
                    Some(imp) => {
                        push_str_chars(&mut part, imp.as_str());
                        push_str_chars(&mut part, " as ");
                        push_str_chars(&mut part, local.as_str());
                    },
                    None => {
                        push_str_chars(&mut part, local.as_str());
                    },
                }
                proof {
                    lemma_view_chars_seq_push(braced@, part);
                    assert(view_chars_seq(braced@.push(part)) =~= import_braced_parts(s0.take(
                        k + 1,
                    )));
                    assert(view_chars_seq(bare@) =~= import_bare_parts(s0.take(k + 1)));
                }
                braced.push(part);
            },
            ImportSpecifier::Default { local } => {
                let mut part: Vec<char> = Vec::new();
                push_str_chars(&mut part, "default as ");
                push_str_chars(&mut part, local.as_str());
                proof {
                    lemma_view_chars_seq_push(braced@, part);
                    assert(view_chars_seq(braced@.push(part)) =~= import_braced_parts(s0.take(
                        k + 1,
                    )));
                    assert(view_chars_seq(bare@) =~= import_bare_parts(s0.take(k + 1)));
                }
                braced.push(part);
            },
            ImportSpecifier::Namespace { local } => {
                let mut part: Vec<char> = Vec::new();
                push_str_chars(&mut part, "* as ");
                push_str_chars(&mut part, local.as_str());
                proof {
                    lemma_view_chars_seq_push(bare@, part);
                    assert(view_chars_seq(bare@.push(part)) =~= import_bare_parts(s0.take(
                        k + 1,
                    )));
                    assert(view_chars_seq(braced@) =~= import_braced_parts(s0.take(k + 1)));
                }
                bare.push(part);
            },
        }
        k = k + 1;
    }
    proof {
        assert(s0.take(d.specifiers@.len() as int) =~= s0);
    }
    let mut all = bare;
    if braced.len() > 0 {
        let mut inner: Vec<char> = Vec::new();
        push_str_chars(&mut inner, "{ ");
        join_exec(&braced, ", ", &mut inner);
        push_str_chars(&mut inner, " }");
        proof {
            assert(inner@ =~= "{ "@ + join_parts(view_chars_seq(braced@), ", "@) + " }"@);
            lemma_view_chars_seq_push(all@, inner);
        }
        all.push(inner);
    }
    let ghost c0 = view_chars_seq(all@);
    proof {
        lemma_view_chars_seq(all@);
        assert(view_chars_seq(Seq::<Vec<char>>::empty()) =~= Seq::<Seq<char>>::empty());
        assert(import_stmts(c0.take(0), vd.src) =~= Seq::<Seq<char>>::empty());
    }
    let ghost call0 = all@;
    let total: usize = all.len();
    let mut clauses = all;
    let mut stmts: Vec<Vec<char>> = Vec::new();
    let mut k: usize = 0;
    while k < total
        invariant
            total == call0.len(),
            c0.len() == total,
            forall|j: int| 0 <= j < call0.len() ==> c0[j] == (#[trigger] call0[j])@,
            k <= total,
            clauses@ == call0.subrange(k as int, total as int),
            view_chars_seq(stmts@) == import_stmts(c0.take(k as int), vd.src),
        decreases total - k,
    {
        let mut clause = clauses.remove(0);
        proof {
            assert(clause == call0[k as int]);
            assert(clauses@ =~= call0.subrange(k + 1, total as int));
            assert(c0.take(k + 1).drop_last() =~= c0.take(k as int));
            assert(c0.take(k + 1).last() == c0[k as int]);
        }
        let mut part: Vec<char> = Vec::new();
        push_str_chars(&mut part, "import ");
        part.append(&mut clause);
        push_str_chars(&mut part, " from ");
        pr_quoted(d.src.as_str(), &mut part);
        push_str_chars(&mut part, ";");
        proof {
            assert(part@ =~= import_stmt(c0[k as int], vd.src));
            lemma_view_chars_seq_push(stmts@, part);
            assert(view_chars_seq(stmts@.push(part)) =~= import_stmts(c0.take(k + 1), vd.src));
        }
        stmts.push(part);
        k = k + 1;
    }
    proof {
        assert(c0.take(total as int) =~= c0);
    }
    join_exec(&stmts, "\n", out);
    proof {
        assert(out@ =~= old(out)@ + print_import(vd));
    }
}

/// The printed text of a module, as characters.
#[verifier::loop_isolation(false)]
pub fn print_module_exec(m: &Module) -> (r: Vec<char>)
    ensures
        r@ == print_module(view_module(*m)),
{
    let ghost s0 = view_item_seq(m.items@);
    proof {
        lemma_view_item_seq(m.items@);
        assert(print_items(s0.take(0)) =~= Seq::<char>::empty());
    }
    let mut out: Vec<char> = Vec::new();
    let mut k: usize = 0;
    while k < m.items.len()
        invariant
            s0 == view_item_seq(m.items@),
            s0.len() == m.items@.len(),
            forall|j: int| 0 <= j < m.items@.len() ==> s0[j] == view_item(#[trigger] m.items@[j]),
            k <= m.items@.len(),
            out@ == print_items(s0.take(k as int)),
        decreases m.items@.len() - k,
    {
        proof {
            assert(s0.take(k + 1).drop_last() =~= s0.take(k as int));
            assert(s0.take(k + 1).last() == s0[k as int]);
        }
        match &m.items[k] {
            ModuleItem::Import(d) => {
                pr_import(d, &mut out);
                push_str_chars(&mut out, "\n");
            },
            ModuleItem::Stmt(st) => {
                pr_stmt(st, &mut out);
                push_str_chars(&mut out, "\n");
            },
            ModuleItem::Export(vd) => {
                proof {
                    assert(s0[k as int] == ModuleItemView::Export(view_var_decl(*vd)));
                }
                push_str_chars(&mut out, "export ");
                pr_var_decl(vd, &mut out);
                push_str_chars(&mut out, "\n");
            },
        }
        proof {
            assert(out@ =~= print_items(s0.take(k + 1)));
        }
        k = k + 1;
    }
    proof {
        assert(s0.take(m.items@.len() as int) =~= s0);
    }
    out
}

} // verus!