//! Label extraction from a resolver's origin module, and the list of module
//! specifiers a module imports.
//!
//! A resolver identifier's label is declared in its origin module by a
//! top-level binding of the fixed shape `<name> = Walnut.makeResolver("...")`:
//! the first top-level variable declarator binding the searched name is
//! located, and the first factory call in its initializer, in depth-first
//! pre-order over the expression forms (JSX subtrees are not searched),
//! yields its first argument as the label if that argument is a string
//! literal. Anything else produces no label.

use vstd::prelude::*;

use crate::ast::{
    Expr, ExprView, LitView, Lit, Module, ModuleItem, ModuleItemView, ModuleView,
    Pat, PatView, PropKey, PropKeyView, PropOrSpread, PropOrSpreadView, Prop, PropView, Stmt,
    StmtView, VarDeclarator, VarDeclaratorView, lemma_view_declarator_seq, lemma_view_expr_seq, lemma_view_item_seq,
    lemma_view_opt_expr_seq, lemma_view_prop_seq, view_declarator, view_declarator_seq,
    view_expr, view_expr_seq, view_import, view_item, view_item_seq, view_module,
    view_opt_expr_seq, view_prop_or_spread, view_prop_seq, view_var_decl,
};
use crate::text::{lemma_view_str_seq, str_eq, string_eq, view_str_seq};

verus! {

/// The callee is the fixed factory shape: `Walnut.makeResolver`.
pub open spec fn is_factory_callee(e: ExprView) -> bool {
    match e {
        ExprView::Member(obj, prop) => *obj == ExprView::Ident("Walnut"@) && prop
            == "makeResolver"@,
        _ => false,
    }
}

/// The expression is a call of the fixed factory shape.
pub open spec fn is_factory_call(e: ExprView) -> bool {
    match e {
        ExprView::Call(callee, _) => is_factory_callee(*callee),
        _ => false,
    }
}

/// The label a factory call declares: its first argument, when that is a
/// string literal.
pub open spec fn call_label(c: ExprView) -> Option<Seq<char>> {
    match c {
        ExprView::Call(_, args) => if args.len() > 0 {
            match args[0] {
                ExprView::Lit(LitView::Str(s)) => Some(s),
                _ => None,
            }
        } else {
            None
        },
        _ => None,
    }
}

/// The first factory call in the expression, depth-first pre-order over the
/// expression forms; JSX subtrees are not searched.
pub open spec fn find_factory(e: ExprView) -> Option<ExprView>
    decreases e, 0int,
{
    if is_factory_call(e) {
        Some(e)
    } else {
        match e {
            ExprView::Ident(_) => None,
            ExprView::Lit(_) => None,
            ExprView::Array(elems) => find_factory_opt_seq(elems, 0),
            ExprView::Object(props) => find_factory_prop_seq(props, 0),
            ExprView::Call(callee, args) => match find_factory(*callee) {
                Some(c) => Some(c),
                None => find_factory_seq(args, 0),
            },
            ExprView::Member(obj, _) => find_factory(*obj),
            ExprView::Jsx(_) => None,
            ExprView::JsxFragment(_) => None,
        }
    }
}

pub open spec fn find_factory_seq(s: Seq<ExprView>, i: int) -> Option<ExprView>
    decreases s, s.len() - i,
    when 0 <= i
{
    if i >= s.len() {
        None
    } else {
        match find_factory(s[i]) {
            Some(c) => Some(c),
            None => find_factory_seq(s, i + 1),
        }
    }
}

pub open spec fn find_factory_opt_seq(s: Seq<Option<ExprView>>, i: int) -> Option<ExprView>
    decreases s, s.len() - i,
    when 0 <= i
{
    if i >= s.len() {
        None
    } else {
        match s[i] {
            Some(e) => match find_factory(e) {
                Some(c) => Some(c),
                None => find_factory_opt_seq(s, i + 1),
            },
            None => find_factory_opt_seq(s, i + 1),
        }
    }
}

pub open spec fn find_factory_prop(p: PropOrSpreadView) -> Option<ExprView>
    decreases p, 0int,
{
    match p {
        PropOrSpreadView::Prop(PropView::KeyValue(k, v)) => match k {
            PropKeyView::Computed(ke) => match find_factory(*ke) {
                Some(c) => Some(c),
                None => find_factory(*v),
            },
            _ => find_factory(*v),
        },
        PropOrSpreadView::Prop(PropView::Shorthand(_)) => None,
        PropOrSpreadView::Spread(e) => find_factory(*e),
    }
}

pub open spec fn find_factory_prop_seq(s: Seq<PropOrSpreadView>, i: int) -> Option<ExprView>
    decreases s, s.len() - i,
    when 0 <= i
{
    if i >= s.len() {
        None
    } else {
        match find_factory_prop(s[i]) {
            Some(c) => Some(c),
            None => find_factory_prop_seq(s, i + 1),
        }
    }
}

/// The first declarator of the list, from `i` on, binding `name` through a
/// bare identifier pattern.
pub open spec fn find_decl_from(s: Seq<VarDeclaratorView>, name: Seq<char>, i: int) -> Option<
    VarDeclaratorView,
>
    decreases s.len() - i,
    when 0 <= i
{
    if i >= s.len() {
        None
    } else if s[i].name == PatView::Ident(name) {
        Some(s[i])
    } else {
        find_decl_from(s, name, i + 1)
    }
}

/// The first top-level declarator of the module binding `name`; exported
/// declarations are searched like plain ones.
pub open spec fn find_binding_from(s: Seq<ModuleItemView>, name: Seq<char>, i: int) -> Option<
    VarDeclaratorView,
>
    decreases s.len() - i,
    when 0 <= i
{
    if i >= s.len() {
        None
    } else {
        match s[i] {
            ModuleItemView::Stmt(StmtView::Decl(vd)) => match find_decl_from(vd.decls, name, 0) {
                Some(d) => Some(d),
                None => find_binding_from(s, name, i + 1),
            },
            ModuleItemView::Export(vd) => match find_decl_from(vd.decls, name, 0) {
                Some(d) => Some(d),
                None => find_binding_from(s, name, i + 1),
            },
            _ => find_binding_from(s, name, i + 1),
        }
    }
}

/// The label the origin module declares for `name`: the first factory call
/// in the initializer of the first top-level binding of `name`, when its
/// first argument is a string literal.
pub open spec fn resolver_label(m: ModuleView, name: Seq<char>) -> Option<Seq<char>> {
    match find_binding_from(m.items, name, 0) {
        None => None,
        Some(d) => match d.init {
            None => None,
            Some(init) => match find_factory(init) {
                Some(c) => call_label(c),
                None => None,
            },
        },
    }
}

/// Every expression `find_factory` returns is a factory call.
pub proof fn lemma_find_factory_found(e: ExprView)
    ensures
        find_factory(e) matches Some(c) ==> is_factory_call(c),
    decreases e, 3int,
{
    if !is_factory_call(e) {
        match e {
            ExprView::Array(elems) => {
                lemma_find_factory_opt_seq_found(elems, 0);
            },
            ExprView::Object(props) => {
                lemma_find_factory_prop_seq_found(props, 0);
            },
            ExprView::Call(callee, args) => {
                lemma_find_factory_found(*callee);
                lemma_find_factory_seq_found(args, 0);
            },
            ExprView::Member(obj, _) => {
                lemma_find_factory_found(*obj);
            },
            _ => {},
        }
    }
}

pub proof fn lemma_find_factory_seq_found(s: Seq<ExprView>, i: int)
    requires
        0 <= i,
    ensures
        find_factory_seq(s, i) matches Some(c) ==> is_factory_call(c),
    decreases s, s.len() - i + 4,
{
    if i < s.len() {
        lemma_find_factory_found(s[i]);
        lemma_find_factory_seq_found(s, i + 1);
    }
}

pub proof fn lemma_find_factory_opt_seq_found(s: Seq<Option<ExprView>>, i: int)
    requires
        0 <= i,
    ensures
        find_factory_opt_seq(s, i) matches Some(c) ==> is_factory_call(c),
    decreases s, s.len() - i + 4,
{
    if i < s.len() {
        match s[i] {
            Some(e) => {
                lemma_find_factory_found(e);
            },
            None => {},
        }
        lemma_find_factory_opt_seq_found(s, i + 1);
    }
}

pub proof fn lemma_find_factory_prop_found(p: PropOrSpreadView)
    ensures
        find_factory_prop(p) matches Some(c) ==> is_factory_call(c),
    decreases p, 3int,
{
    match p {
        PropOrSpreadView::Prop(PropView::KeyValue(k, v)) => {
            match k {
                PropKeyView::Computed(ke) => {
                    lemma_find_factory_found(*ke);
                },
                _ => {},
            }
            lemma_find_factory_found(*v);
        },
        PropOrSpreadView::Spread(e) => {
            lemma_find_factory_found(*e);
        },
        _ => {},
    }
}

pub proof fn lemma_find_factory_prop_seq_found(s: Seq<PropOrSpreadView>, i: int)
    requires
        0 <= i,
    ensures
        find_factory_prop_seq(s, i) matches Some(c) ==> is_factory_call(c),
    decreases s, s.len() - i + 4,
{
    if i < s.len() {
        lemma_find_factory_prop_found(s[i]);
        lemma_find_factory_prop_seq_found(s, i + 1);
    }
}

/// Whether the expression is a call of the fixed factory shape.
fn is_factory_exec(e: &Expr) -> (r: bool)
    ensures
        r == is_factory_call(view_expr(*e)),
{
    match e {
        Expr::Call(callee, _) => {
            match &**callee {
                Expr::Member(obj, prop) => {
                    proof {
                        assert(view_expr(**callee) == ExprView::Member(
                            Box::new(view_expr(**obj)),
                            prop@,
                        ));
                    }
                    match &**obj {
                        Expr::Ident(nm) => {
                            let r = str_eq(nm.as_str(), "Walnut") && str_eq(
                                prop.as_str(),
                                "makeResolver",
                            );
                            proof {
                                assert(view_expr(**obj) == ExprView::Ident(nm@));
                            }
                            r
                        },
                        _ => false,
                    }
                },
                _ => false,
            }
        },
        _ => false,
    }
}

/// Finds the first factory call within a single object property.
fn find_factory_prop_exec<'a>(p: &'a PropOrSpread) -> (r: Option<&'a Expr>)
    ensures
        match r {
            Some(c) => find_factory_prop(view_prop_or_spread(*p)) == Some(view_expr(*c)),
            None => find_factory_prop(view_prop_or_spread(*p)) is None,
        },
    decreases p,
{
    match p {
        PropOrSpread::Prop(Prop::KeyValue(pk, pv)) => {
            let r1: Option<&Expr> = match pk {
                PropKey::Computed(ke) => find_factory_exec(&**ke),
                _ => None,
            };
            match r1 {
                Some(c) => Some(c),
                None => find_factory_exec(&**pv),
            }
        },
        PropOrSpread::Prop(Prop::Shorthand(_)) => None,
        PropOrSpread::Spread(inner) => find_factory_exec(&**inner),
    }
}

/// Finds the first factory call within an expression.
#[verifier::loop_isolation(false)]
fn find_factory_exec<'a>(e: &'a Expr) -> (r: Option<&'a Expr>)
    ensures
        match r {
            Some(c) => find_factory(view_expr(*e)) == Some(view_expr(*c)),
            None => find_factory(view_expr(*e)) is None,
        },
    decreases e,
{
    let ghost ve = view_expr(*e);
    if is_factory_exec(e) {
        return Some(e);
    }
    match e {
        Expr::Ident(_) => None,
        Expr::Lit(_) => None,
        Expr::Array(elems) => {
            proof {
                assert(ve == ExprView::Array(view_opt_expr_seq(elems@)));
            }
            let ghost s0 = view_opt_expr_seq(elems@);
            proof {
                lemma_view_opt_expr_seq(elems@);
            }
            let mut i: usize = 0;
            while i < elems.len()
                invariant
                    s0 == view_opt_expr_seq(elems@),
                    s0.len() == elems@.len(),
                    forall|j: int| 0 <= j < elems@.len() ==> s0[j] == crate::ast::view_opt_expr(
                        #[trigger] elems@[j],
                    ),
                    i <= elems@.len(),
                    find_factory_opt_seq(s0, 0) == find_factory_opt_seq(s0, i as int),
                decreases elems@.len() - i,
            {
                match &elems[i] {
                    Some(inner) => {
                        proof {
                            assert((*e)->Array_0 == *elems);
                            assert(decreases_to!(*e => (*e)->Array_0));
                            assert(decreases_to!(*elems => elems@));
                            assert(decreases_to!(elems@ => elems@[i as int]));
                            assert(decreases_to!(elems@[i as int] => *inner));
                        }
                        match find_factory_exec(inner) {
                            Some(c) => {
                                return Some(c);
                            },
                            None => {},
                        }
                    },
                    None => {},
                }
                i = i + 1;
            }
            None
        },
        Expr::Object(props) => {
            proof {
                assert(ve == ExprView::Object(view_prop_seq(props@)));
            }
            let ghost s0 = view_prop_seq(props@);
            proof {
                lemma_view_prop_seq(props@);
            }
            let mut i: usize = 0;
            while i < props.len()
                invariant
                    s0 == view_prop_seq(props@),
                    s0.len() == props@.len(),
                    forall|j: int| 0 <= j < props@.len() ==> s0[j] == view_prop_or_spread(
                        #[trigger] props@[j],
                    ),
                    i <= props@.len(),
                    find_factory_prop_seq(s0, 0) == find_factory_prop_seq(s0, i as int),
                decreases props@.len() - i,
            {
                proof {
                    assert((*e)->Object_0 == *props);
                    assert(decreases_to!(*e => (*e)->Object_0));
                    assert(decreases_to!(*props => props@));
                    assert(decreases_to!(props@ => props@[i as int]));
                }
                match find_factory_prop_exec(&props[i]) {
                    Some(c) => {
                        proof {
                            assert(find_factory_prop(s0[i as int]) == Some(view_expr(*c)));
                            assert(find_factory_prop_seq(s0, i as int) == Some(view_expr(*c)));
                            assert(find_factory(ve) == Some(view_expr(*c)));
                        }
                        return Some(c);
                    },
                    None => {},
                }
                i = i + 1;
            }
            None
        },
        Expr::Call(callee, args) => {
            proof {
                assert(ve == ExprView::Call(Box::new(view_expr(**callee)), view_expr_seq(args@)));
            }
            match find_factory_exec(&**callee) {
                Some(c) => Some(c),
                None => {
                    let ghost s0 = view_expr_seq(args@);
                    proof {
                        lemma_view_expr_seq(args@);
                    }
                    let mut i: usize = 0;
                    while i < args.len()
                        invariant
                            s0 == view_expr_seq(args@),
                            s0.len() == args@.len(),
                            forall|j: int| 0 <= j < args@.len() ==> s0[j] == view_expr(
                                #[trigger] args@[j],
                            ),
                            i <= args@.len(),
                            find_factory_seq(s0, 0) == find_factory_seq(s0, i as int),
                        decreases args@.len() - i,
                    {
                        proof {
                            assert((*e)->Call_1 == *args);
                            assert(decreases_to!(*e => (*e)->Call_1));
                            assert(decreases_to!(*args => args@));
                            assert(decreases_to!(args@ => args@[i as int]));
                        }
                        match find_factory_exec(&args[i]) {
                            Some(c) => {
                                proof {
                                    assert(find_factory(s0[i as int]) == Some(view_expr(*c)));
                                    assert(find_factory_seq(s0, i as int) == Some(view_expr(*c)));
                                    assert(find_factory(ve) == Some(view_expr(*c)));
                                }
                                return Some(c);
                            },
                            None => {},
                        }
                        i = i + 1;
                    }
                    None
                },
            }
        },
        Expr::Member(obj, _) => {
            proof {
                assert(ve matches ExprView::Member(o0, _) && *o0 == view_expr(**obj));
            }
            find_factory_exec(&**obj)
        },
        Expr::Jsx(_) => None,
        Expr::JsxFragment(_) => None,
    }
}

/// Finds the first declarator of the list binding `name`.
fn find_decl_exec<'a>(decls: &'a Vec<VarDeclarator>, name: &String) -> (r: Option<
    &'a VarDeclarator,
>)
    ensures
        match r {
            Some(d) => find_decl_from(view_declarator_seq(decls@), name@, 0) == Some(
                view_declarator(*d),
            ),
            None => find_decl_from(view_declarator_seq(decls@), name@, 0) is None,
        },
{
    let ghost d0 = view_declarator_seq(decls@);
    proof {
        lemma_view_declarator_seq(decls@);
    }
    let mut j: usize = 0;
    while j < decls.len()
        invariant
            d0 == view_declarator_seq(decls@),
            d0.len() == decls@.len(),
            forall|jj: int| 0 <= jj < decls@.len() ==> d0[jj] == view_declarator(
                #[trigger] decls@[jj],
            ),
            j <= decls@.len(),
            find_decl_from(d0, name@, 0) == find_decl_from(d0, name@, j as int),
        decreases decls@.len() - j,
    {
        let matches_name = match &decls[j].name {
            Pat::Ident(nm) => string_eq(nm, name),
            _ => false,
        };
        if matches_name {
            proof {
                assert(d0[j as int].name == PatView::Ident(name@));
            }
            return Some(&decls[j]);
        }
        proof {
            assert(d0[j as int].name != PatView::Ident(name@));
        }
        j = j + 1;
    }
    proof {
        assert(find_decl_from(d0, name@, decls@.len() as int) is None);
    }
    None
}

/// Extracts the label the origin module declares for a resolver identifier.
pub fn extract_resolver_label(m: &Module, name: &String) -> (r: Option<String>)
    ensures
        match r {
            Some(s) => resolver_label(view_module(*m), name@) == Some(s@),
            None => resolver_label(view_module(*m), name@) is None,
        },
{
    let ghost vm = view_module(*m);
    let ghost s0 = view_item_seq(m.items@);
    proof {
        lemma_view_item_seq(m.items@);
        assert(vm.items == s0);
    }
    let mut i: usize = 0;
    let mut found: Option<&VarDeclarator> = None;
    while i < m.items.len() && found.is_none()
        invariant
            s0 == view_item_seq(m.items@),
            s0.len() == m.items@.len(),
            forall|j: int| 0 <= j < m.items@.len() ==> s0[j] == view_item(#[trigger] m.items@[j]),
            i <= m.items@.len(),
            match found {
                Some(d) => find_binding_from(s0, name@, 0) == Some(view_declarator(*d)),
                None => find_binding_from(s0, name@, 0) == find_binding_from(s0, name@, i as int),
            },
        decreases (if found is Some { 0int } else { 1int }), m.items@.len() - i,
    {
        let hit: Option<&VarDeclarator> = match &m.items[i] {
            ModuleItem::Stmt(Stmt::Decl(vd)) => {
                proof {
                    assert(s0[i as int] == ModuleItemView::Stmt(StmtView::Decl(view_var_decl(
                        *vd,
                    ))));
                }
                find_decl_exec(&vd.decls, name)
            },
            ModuleItem::Export(vd) => {
                proof {
                    assert(s0[i as int] == ModuleItemView::Export(view_var_decl(*vd)));
                }
                find_decl_exec(&vd.decls, name)
            },
            _ => None,
        };
        match hit {
            Some(d) => {
                proof {
                    assert(find_binding_from(s0, name@, i as int) == Some(view_declarator(*d)));
                }
                found = Some(d);
            },
            None => {
                proof {
                    assert(find_binding_from(s0, name@, i as int) == find_binding_from(
                        s0,
                        name@,
                        i + 1,
                    ));
                }
                i = i + 1;
            },
        }
    }
    match found {
        None => {
            proof {
                assert(find_binding_from(s0, name@, s0.len() as int) is None);
            }
            None
        },
        Some(d) => {
            match &d.init {
                None => None,
                Some(init) => {
                    match find_factory_exec(init) {
                        None => None,
                        Some(c) => {
                            proof {
                                lemma_find_factory_found(view_expr(*init));
                                assert(find_factory(view_expr(*init)) == Some(view_expr(*c)));
                                assert(is_factory_call(view_expr(*c)));
                            }
                            match c {
                                Expr::Call(_, args) => {
                                    if args.len() > 0 {
                                        match &args[0] {
                                            Expr::Lit(Lit::Str(s)) => {
                                                proof {
                                                    lemma_view_expr_seq(args@);
                                                    assert(call_label(view_expr(*c)) == Some(
                                                        s@,
                                                    ));
                                                }
                                                Some(s.clone())
                                            },
                                            _ => {
                                                proof {
                                                    lemma_view_expr_seq(args@);
                                                    assert(call_label(view_expr(*c)) is None);
                                                }
                                                None
                                            },
                                        }
                                    } else {
                                        proof {
                                            lemma_view_expr_seq(args@);
                                            assert(call_label(view_expr(*c)) is None);
                                        }
                                        None
                                    }
                                },
                                _ => {
                                    proof {
                                        assert(false);
                                    }
                                    None
                                },
                            }
                        },
                    }
                },
            }
        },
    }
}

/// The source specifiers of the module's import declarations, in order.
pub open spec fn import_srcs(s: Seq<ModuleItemView>) -> Seq<Seq<char>>
    decreases s.len(),
{
    if s.len() == 0 {
        Seq::empty()
    } else {
        import_srcs(s.drop_last()) + (match s.last() {
            ModuleItemView::Import(d) => seq![d.src],
            _ => Seq::empty(),
        })
    }
}

/// The module specifiers a module imports, in order: the dependencies a
/// caller has to resolve against the file system.
pub fn resolve_dependencies(m: &Module) -> (r: Vec<String>)
    ensures
        view_str_seq(r@) == import_srcs(view_module(*m).items),
{
    let ghost s0 = view_item_seq(m.items@);
    proof {
        lemma_view_item_seq(m.items@);
        lemma_view_str_seq(Seq::<String>::empty());
        assert(view_str_seq(Seq::<String>::empty()) =~= Seq::<Seq<char>>::empty());
        assert(s0.take(0) =~= Seq::<ModuleItemView>::empty());
    }
    let mut out: Vec<String> = Vec::new();
    let mut i: usize = 0;
    while i < m.items.len()
        invariant
            s0 == view_item_seq(m.items@),
            s0.len() == m.items@.len(),
            forall|j: int| 0 <= j < m.items@.len() ==> s0[j] == view_item(#[trigger] m.items@[j]),
            i <= m.items@.len(),
            view_str_seq(out@) == import_srcs(s0.take(i as int)),
        decreases m.items@.len() - i,
    {
        proof {
            assert(s0.take(i + 1).drop_last() =~= s0.take(i as int));
            assert(s0.take(i + 1).last() == s0[i as int]);
        }
        match &m.items[i] {
            ModuleItem::Import(d) => {
                let src = d.src.clone();
                proof {
                    assert(s0[i as int] == ModuleItemView::Import(view_import(*d)));
                    crate::text::lemma_view_str_seq_push(out@, src);
                    assert(view_str_seq(out@.push(src)) =~= import_srcs(s0.take(i + 1)));
                }
                out.push(src);
            },
            _ => {
                proof {
                    assert(view_str_seq(out@) =~= import_srcs(s0.take(i + 1)));
                }
            },
        }
        i = i + 1;
    }
    proof {
        assert(s0.take(m.items@.len() as int) =~= s0);
    }
    out
}

} // verus!
