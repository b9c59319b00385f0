//! The main rewrite pass.
//!
//! Per variable declarator: the first DSL call site in the initializer
//! subtree, in depth-first pre-order, is honored. A value-selection call
//! (`$Val` / `$PVal`) replaces the whole initializer with the selected value
//! expression, or marks the declarator's binding pattern invalid when nothing
//! can be selected. A `$Resolve` call on a bare identifier is replaced in
//! place by a marker string literal and the identifier is recorded as a
//! pending resolver; on any other argument the declarator is left untouched.
//! Statements that are not variable declarations get the JSX filtering walk.

use vstd::prelude::*;

use crate::ast::{
    Expr, ExprView, JsxAttr, JsxAttrValue, JsxAttrValueView, JsxAttrView, JsxChild, JsxChildView,
    JsxElement, JsxElementView, JsxFragment, JsxFragmentView, Lit, LitView, Module, ModuleItem,
    ModuleItemView, ModuleView, Pat, PatView, Prop, PropKey, PropKeyView, PropOrSpread,
    PropOrSpreadView, PropView, Stmt, StmtView, VarDecl, VarDeclView, VarDeclarator,
    VarDeclaratorView, WalnutError, lemma_view_attr_seq, lemma_view_child_seq,
    lemma_view_declarator_seq, lemma_view_expr_seq, lemma_view_item_seq, lemma_view_opt_expr_seq,
    lemma_view_prop_seq, view_attr, view_attr_seq, view_child, view_child_seq,
    view_declarator, view_declarator_seq, view_element, view_expr, view_expr_seq, view_fragment,
    view_import, view_item, view_item_seq, view_module, view_opt_expr_seq,
    view_prop_or_spread, view_prop_seq, view_stmt, view_var_decl,
    lemma_view_expr_seq_push, lemma_view_opt_expr_seq_push, lemma_view_prop_seq_push,
    lemma_view_attr_seq_push, lemma_view_child_seq_push, lemma_view_declarator_seq_push,
    lemma_view_item_seq_push, view_opt_expr, lemma_view_child_seq_concat,
};
use crate::scan_first::{lemma_syms_distinct, sym_pval, sym_resolve, sym_val, sym_walnut_tag};
use crate::text::{lemma_view_str_seq, str_eq, string_eq, view_str_seq};

verus! {

// ---------------------------------------------------------------------------
// DSL call classification
// ---------------------------------------------------------------------------

/// The expression is a call whose callee is one of the three recognized bare
/// identifiers.
pub open spec fn is_dsl_call(e: ExprView) -> bool {
    match e {
        ExprView::Call(callee, _) => match *callee {
            ExprView::Ident(name) => name == sym_val() || name == sym_pval() || name
                == sym_resolve(),
            _ => false,
        },
        _ => false,
    }
}

/// The call is a value-selection call.
pub open spec fn is_val_call(e: ExprView) -> bool {
    match e {
        ExprView::Call(callee, _) => match *callee {
            ExprView::Ident(name) => name == sym_val() || name == sym_pval(),
            _ => false,
        },
        _ => false,
    }
}

/// The call is a resolver call.
pub open spec fn is_resolve_call(e: ExprView) -> bool {
    match e {
        ExprView::Call(callee, _) => match *callee {
            ExprView::Ident(name) => name == sym_resolve(),
            _ => false,
        },
        _ => false,
    }
}

/// The property list of the first object-literal argument at or after `i`.
pub open spec fn object_arg_from(args: Seq<ExprView>, i: int) -> Option<Seq<PropOrSpreadView>>
    decreases args.len() - i,
    when 0 <= i
{
    if i >= args.len() {
        None
    } else {
        match args[i] {
            ExprView::Object(props) => Some(props),
            _ => object_arg_from(args, i + 1),
        }
    }
}

/// The property list of the call's sole object-literal argument: the first
/// argument among the call's arguments that is an object literal.
pub open spec fn val_props(e: ExprView) -> Option<Seq<PropOrSpreadView>> {
    match e {
        ExprView::Call(_, args) => object_arg_from(args, 0),
        _ => None,
    }
}

/// The bare-identifier argument of a resolver call, if its first argument is
/// a bare identifier.
pub open spec fn resolve_arg(e: ExprView) -> Option<Seq<char>> {
    match e {
        ExprView::Call(_, args) => if args.len() > 0 {
            match args[0] {
                ExprView::Ident(id) => Some(id),
                _ => None,
            }
        } else {
            None
        },
        _ => None,
    }
}

/// The marker placeholder text standing in for an unresolved resolver value:
/// `/* __wres_<identifier> */`.
pub open spec fn marker_text(id: Seq<char>) -> Seq<char> {
    "/* __wres_"@ + id + " */"@
}

/// What a found DSL call site is replaced with, in place: a resolver call on
/// a bare identifier becomes a marker string literal; any other DSL call is
/// left as it stands (value-selection calls are handled at the declarator).
pub open spec fn site_replacement(e: ExprView) -> ExprView {
    if is_resolve_call(e) && resolve_arg(e) is Some {
        ExprView::Lit(LitView::Str(marker_text(resolve_arg(e)->0)))
    } else {
        e
    }
}

// ---------------------------------------------------------------------------
// Finding and rewriting the first DSL call site, depth-first pre-order
// ---------------------------------------------------------------------------

/// The first DSL call site in the subtree of `e`, pre-order, together with
/// the subtree after replacing that site by `site_replacement`. When no site
/// is found the subtree is returned as it stands.
pub open spec fn rw_expr(e: ExprView) -> (Option<ExprView>, ExprView)
    decreases e, 0int,
{
    if is_dsl_call(e) {
        (Some(e), site_replacement(e))
    } else {
        match e {
            ExprView::Ident(_) => (None, e),
            ExprView::Lit(_) => (None, e),
            ExprView::Array(elems) => {
                let (f, t) = rw_opt_expr_seq(elems, 0);
                if f is Some {
                    (f, ExprView::Array(t))
                } else {
                    (None, e)
                }
            },
            ExprView::Object(props) => {
                let (f, t) = rw_prop_seq(props, 0);
                if f is Some {
                    (f, ExprView::Object(t))
                } else {
                    (None, e)
                }
            },
            ExprView::Call(callee, args) => {
                let (f1, c1) = rw_expr(*callee);
                if f1 is Some {
                    (f1, ExprView::Call(Box::new(c1), args))
                } else {
                    let (f2, a2) = rw_expr_seq(args, 0);
                    if f2 is Some {
                        (f2, ExprView::Call(callee, a2))
                    } else {
                        (None, e)
                    }
                }
            },
            ExprView::Member(obj, prop) => {
                let (f, t) = rw_expr(*obj);
                if f is Some {
                    (f, ExprView::Member(Box::new(t), prop))
                } else {
                    (None, e)
                }
            },
            ExprView::Jsx(el) => {
                let (f, t) = rw_element(el);
                if f is Some {
                    (f, ExprView::Jsx(t))
                } else {
                    (None, e)
                }
            },
            ExprView::JsxFragment(fr) => {
                let (f, t) = rw_child_seq(fr.children, 0);
                if f is Some {
                    (f, ExprView::JsxFragment(JsxFragmentView { children: t }))
                } else {
                    (None, e)
                }
            },
        }
    }
}

/// `rw_expr` over the elements of an expression sequence, from `i` on.
pub open spec fn rw_expr_seq(s: Seq<ExprView>, i: int) -> (Option<ExprView>, Seq<ExprView>)
    decreases s, s.len() - i,
    when 0 <= i
{
    if i >= s.len() {
        (None, s)
    } else {
        let (f, t) = rw_expr(s[i]);
        if f is Some {
            (f, s.update(i, t))
        } else {
            rw_expr_seq(s, i + 1)
        }
    }
}

/// `rw_expr` over the present elements of an array literal, from `i` on.
pub open spec fn rw_opt_expr_seq(s: Seq<Option<ExprView>>, i: int) -> (
    Option<ExprView>,
    Seq<Option<ExprView>>,
)
    decreases s, s.len() - i,
    when 0 <= i
{
    if i >= s.len() {
        (None, s)
    } else {
        match s[i] {
            Some(e) => {
                let (f, t) = rw_expr(e);
                if f is Some {
                    (f, s.update(i, Some(t)))
                } else {
                    rw_opt_expr_seq(s, i + 1)
                }
            },
            None => rw_opt_expr_seq(s, i + 1),
        }
    }
}

/// The first DSL call site within a single object property.
pub open spec fn rw_prop(p: PropOrSpreadView) -> (Option<ExprView>, PropOrSpreadView)
    decreases p, 0int,
{
    match p {
        PropOrSpreadView::Prop(PropView::KeyValue(k, v)) => {
            match k {
                PropKeyView::Computed(ke) => {
                    let (f1, t1) = rw_expr(*ke);
                    if f1 is Some {
                        (
                            f1,
                            PropOrSpreadView::Prop(
                                PropView::KeyValue(PropKeyView::Computed(Box::new(t1)), v),
                            ),
                        )
                    } else {
                        let (f2, t2) = rw_expr(*v);
                        if f2 is Some {
                            (f2, PropOrSpreadView::Prop(PropView::KeyValue(k, Box::new(t2))))
                        } else {
                            (None, p)
                        }
                    }
                },
                _ => {
                    let (f2, t2) = rw_expr(*v);
                    if f2 is Some {
                        (f2, PropOrSpreadView::Prop(PropView::KeyValue(k, Box::new(t2))))
                    } else {
                        (None, p)
                    }
                },
            }
        },
        PropOrSpreadView::Prop(PropView::Shorthand(_)) => (None, p),
        PropOrSpreadView::Spread(e) => {
            let (f, t) = rw_expr(*e);
            if f is Some {
                (f, PropOrSpreadView::Spread(Box::new(t)))
            } else {
                (None, p)
            }
        },
    }
}

/// `rw_prop` over a property sequence, from `i` on.
pub open spec fn rw_prop_seq(s: Seq<PropOrSpreadView>, i: int) -> (
    Option<ExprView>,
    Seq<PropOrSpreadView>,
)
    decreases s, s.len() - i,
    when 0 <= i
{
    if i >= s.len() {
        (None, s)
    } else {
        let (f, t) = rw_prop(s[i]);
        if f is Some {
            (f, s.update(i, t))
        } else {
            rw_prop_seq(s, i + 1)
        }
    }
}

/// The first DSL call site within a JSX attribute's container expression.
pub open spec fn rw_attr(a: JsxAttrView) -> (Option<ExprView>, JsxAttrView)
    decreases a, 0int,
{
    match a.value {
        Some(JsxAttrValueView::Container(e)) => {
            let (f, t) = rw_expr(*e);
            if f is Some {
                (
                    f,
                    JsxAttrView {
                        name: a.name,
                        value: Some(JsxAttrValueView::Container(Box::new(t))),
                    },
                )
            } else {
                (None, a)
            }
        },
        _ => (None, a),
    }
}

/// `rw_attr` over an attribute sequence, from `i` on.
pub open spec fn rw_attr_seq(s: Seq<JsxAttrView>, i: int) -> (Option<ExprView>, Seq<JsxAttrView>)
    decreases s, s.len() - i,
    when 0 <= i
{
    if i >= s.len() {
        (None, s)
    } else {
        let (f, t) = rw_attr(s[i]);
        if f is Some {
            (f, s.update(i, t))
        } else {
            rw_attr_seq(s, i + 1)
        }
    }
}

/// The first DSL call site within a JSX element: attributes first, then
/// children.
pub open spec fn rw_element(el: JsxElementView) -> (Option<ExprView>, JsxElementView)
    decreases el, 1int,
{
    let (f1, a1) = rw_attr_seq(el.attrs, 0);
    if f1 is Some {
        (
            f1,
            JsxElementView {
                name: el.name,
                attrs: a1,
                children: el.children,
                self_closing: el.self_closing,
            },
        )
    } else {
        let (f2, c2) = rw_child_seq(el.children, 0);
        if f2 is Some {
            (
                f2,
                JsxElementView {
                    name: el.name,
                    attrs: el.attrs,
                    children: c2,
                    self_closing: el.self_closing,
                },
            )
        } else {
            (None, el)
        }
    }
}

/// The first DSL call site within a single JSX child.
pub open spec fn rw_child(c: JsxChildView) -> (Option<ExprView>, JsxChildView)
    decreases c, 2int,
{
    match c {
        JsxChildView::Element(el) => {
            let (f, t) = rw_element(el);
            if f is Some {
                (f, JsxChildView::Element(t))
            } else {
                (None, c)
            }
        },
        JsxChildView::Fragment(fr) => {
            let (f, t) = rw_child_seq(fr.children, 0);
            if f is Some {
                (f, JsxChildView::Fragment(JsxFragmentView { children: t }))
            } else {
                (None, c)
            }
        },
        JsxChildView::Text(_) => (None, c),
        JsxChildView::ExprContainer(e) => {
            let (f, t) = rw_expr(*e);
            if f is Some {
                (f, JsxChildView::ExprContainer(Box::new(t)))
            } else {
                (None, c)
            }
        },
    }
}

/// `rw_child` over a child sequence, from `i` on.
pub open spec fn rw_child_seq(s: Seq<JsxChildView>, i: int) -> (Option<ExprView>, Seq<JsxChildView>)
    decreases s, s.len() - i,
    when 0 <= i
{
    if i >= s.len() {
        (None, s)
    } else {
        let (f, t) = rw_child(s[i]);
        if f is Some {
            (f, s.update(i, t))
        } else {
            rw_child_seq(s, i + 1)
        }
    }
}

/// Every site `rw_expr` finds is a DSL call.
pub proof fn lemma_rw_found_is_dsl(e: ExprView)
    ensures
        rw_expr(e).0 matches Some(c) ==> is_dsl_call(c),
    decreases e, 3int,
{
    if is_dsl_call(e) {
    } else {
        match e {
            ExprView::Array(elems) => {
                lemma_rw_opt_expr_seq_found(elems, 0);
            },
            ExprView::Object(props) => {
                lemma_rw_prop_seq_found(props, 0);
            },
            ExprView::Call(callee, args) => {
                lemma_rw_found_is_dsl(*callee);
                lemma_rw_expr_seq_found(args, 0);
            },
            ExprView::Member(obj, _) => {
                lemma_rw_found_is_dsl(*obj);
            },
            ExprView::Jsx(el) => {
                lemma_rw_element_found(el);
            },
            ExprView::JsxFragment(fr) => {
                lemma_rw_child_seq_found(fr.children, 0);
            },
            _ => {},
        }
    }
}

pub proof fn lemma_rw_expr_seq_found(s: Seq<ExprView>, i: int)
    requires
        0 <= i,
    ensures
        rw_expr_seq(s, i).0 matches Some(c) ==> is_dsl_call(c),
    decreases s, s.len() - i + 4,
{
    if i < s.len() {
        lemma_rw_found_is_dsl(s[i]);
        lemma_rw_expr_seq_found(s, i + 1);
    }
}

pub proof fn lemma_rw_opt_expr_seq_found(s: Seq<Option<ExprView>>, i: int)
    requires
        0 <= i,
    ensures
        rw_opt_expr_seq(s, i).0 matches Some(c) ==> is_dsl_call(c),
    decreases s, s.len() - i + 4,
{
    if i < s.len() {
        match s[i] {
            Some(e) => {
                lemma_rw_found_is_dsl(e);
            },
            None => {},
        }
        lemma_rw_opt_expr_seq_found(s, i + 1);
    }
}

pub proof fn lemma_rw_prop_found(p: PropOrSpreadView)
    ensures
        rw_prop(p).0 matches Some(c) ==> is_dsl_call(c),
    decreases p, 3int,
{
    match p {
        PropOrSpreadView::Prop(PropView::KeyValue(k, v)) => {
            match k {
                PropKeyView::Computed(ke) => {
                    lemma_rw_found_is_dsl(*ke);
                },
                _ => {},
            }
            lemma_rw_found_is_dsl(*v);
        },
        PropOrSpreadView::Spread(e) => {
            lemma_rw_found_is_dsl(*e);
        },
        _ => {},
    }
}

pub proof fn lemma_rw_prop_seq_found(s: Seq<PropOrSpreadView>, i: int)
    requires
        0 <= i,
    ensures
        rw_prop_seq(s, i).0 matches Some(c) ==> is_dsl_call(c),
    decreases s, s.len() - i + 4,
{
    if i < s.len() {
        lemma_rw_prop_found(s[i]);
        lemma_rw_prop_seq_found(s, i + 1);
    }
}

pub proof fn lemma_rw_attr_found(a: JsxAttrView)
    ensures
        rw_attr(a).0 matches Some(c) ==> is_dsl_call(c),
    decreases a, 3int,
{
    match a.value {
        Some(JsxAttrValueView::Container(e)) => {
            lemma_rw_found_is_dsl(*e);
        },
        _ => {},
    }
}

pub proof fn lemma_rw_attr_seq_found(s: Seq<JsxAttrView>, i: int)
    requires
        0 <= i,
    ensures
        rw_attr_seq(s, i).0 matches Some(c) ==> is_dsl_call(c),
    decreases s, s.len() - i + 4,
{
    if i < s.len() {
        lemma_rw_attr_found(s[i]);
        lemma_rw_attr_seq_found(s, i + 1);
    }
}

pub proof fn lemma_rw_element_found(el: JsxElementView)
    ensures
        rw_element(el).0 matches Some(c) ==> is_dsl_call(c),
    decreases el, 4int,
{
    lemma_rw_attr_seq_found(el.attrs, 0);
    lemma_rw_child_seq_found(el.children, 0);
}

pub proof fn lemma_rw_child_found(c: JsxChildView)
    ensures
        rw_child(c).0 matches Some(cc) ==> is_dsl_call(cc),
    decreases c, 5int,
{
    match c {
        JsxChildView::Element(el) => {
            lemma_rw_element_found(el);
        },
        JsxChildView::Fragment(fr) => {
            lemma_rw_child_seq_found(fr.children, 0);
        },
        JsxChildView::ExprContainer(e) => {
            lemma_rw_found_is_dsl(*e);
        },
        _ => {},
    }
}

pub proof fn lemma_rw_child_seq_found(s: Seq<JsxChildView>, i: int)
    requires
        0 <= i,
    ensures
        rw_child_seq(s, i).0 matches Some(c) ==> is_dsl_call(c),
    decreases s, s.len() - i + 6,
{
    if i < s.len() {
        lemma_rw_child_found(s[i]);
        lemma_rw_child_seq_found(s, i + 1);
    }
}


/// When no site is found, the rewrite returns its input unchanged.
pub proof fn lemma_rw_expr_id(e: ExprView)
    ensures
        rw_expr(e).0 is None ==> rw_expr(e).1 == e,
{
    match e {
        ExprView::Ident(_) => {},
        ExprView::Lit(_) => {},
        ExprView::Array(_) => {},
        ExprView::Object(_) => {},
        ExprView::Call(_, _) => {},
        ExprView::Member(_, _) => {},
        ExprView::Jsx(_) => {},
        ExprView::JsxFragment(_) => {},
    }
}

pub proof fn lemma_rw_expr_seq_id(s: Seq<ExprView>, i: int)
    requires
        0 <= i,
    ensures
        rw_expr_seq(s, i).0 is None ==> rw_expr_seq(s, i).1 == s,
    decreases s.len() - i,
{
    if i < s.len() {
        lemma_rw_expr_seq_id(s, i + 1);
    }
}

pub proof fn lemma_rw_opt_expr_seq_id(s: Seq<Option<ExprView>>, i: int)
    requires
        0 <= i,
    ensures
        rw_opt_expr_seq(s, i).0 is None ==> rw_opt_expr_seq(s, i).1 == s,
    decreases s.len() - i,
{
    if i < s.len() {
        lemma_rw_opt_expr_seq_id(s, i + 1);
    }
}

pub proof fn lemma_rw_prop_id(p: PropOrSpreadView)
    ensures
        rw_prop(p).0 is None ==> rw_prop(p).1 == p,
{
    match p {
        PropOrSpreadView::Prop(PropView::KeyValue(_, _)) => {},
        PropOrSpreadView::Prop(PropView::Shorthand(_)) => {},
        PropOrSpreadView::Spread(_) => {},
    }
}

pub proof fn lemma_rw_prop_seq_id(s: Seq<PropOrSpreadView>, i: int)
    requires
        0 <= i,
    ensures
        rw_prop_seq(s, i).0 is None ==> rw_prop_seq(s, i).1 == s,
    decreases s.len() - i,
{
    if i < s.len() {
        lemma_rw_prop_seq_id(s, i + 1);
    }
}

pub proof fn lemma_rw_attr_id(a: JsxAttrView)
    ensures
        rw_attr(a).0 is None ==> rw_attr(a).1 == a,
{
}

pub proof fn lemma_rw_attr_seq_id(s: Seq<JsxAttrView>, i: int)
    requires
        0 <= i,
    ensures
        rw_attr_seq(s, i).0 is None ==> rw_attr_seq(s, i).1 == s,
    decreases s.len() - i,
{
    if i < s.len() {
        lemma_rw_attr_seq_id(s, i + 1);
    }
}

pub proof fn lemma_rw_element_id(el: JsxElementView)
    ensures
        rw_element(el).0 is None ==> rw_element(el).1 == el,
{
}

pub proof fn lemma_rw_child_id(c: JsxChildView)
    ensures
        rw_child(c).0 is None ==> rw_child(c).1 == c,
{
    match c {
        JsxChildView::Element(_) => {},
        JsxChildView::Fragment(_) => {},
        JsxChildView::Text(_) => {},
        JsxChildView::ExprContainer(_) => {},
    }
}

pub proof fn lemma_rw_child_seq_id(s: Seq<JsxChildView>, i: int)
    requires
        0 <= i,
    ensures
        rw_child_seq(s, i).0 is None ==> rw_child_seq(s, i).1 == s,
    decreases s.len() - i,
{
    if i < s.len() {
        lemma_rw_child_seq_id(s, i + 1);
    }
}

// ---------------------------------------------------------------------------
// Executable search and rewrite
// ---------------------------------------------------------------------------

/// What the executable rewrite found at the first DSL call site: nothing; a
/// value-selection call carrying the property list of its object argument, if
/// it had one; a resolver call rewritten to a marker, carrying its
/// identifier; or a resolver call without a bare-identifier argument, left as
/// it stood.
pub enum DslSite {
    NotFound,
    Val(Option<Vec<PropOrSpread>>),
    ResolveDone(String),
    ResolveSkip,
}

/// The executable site report agrees with the site the ghost rewrite found.
pub open spec fn site_ok(site: DslSite, f: Option<ExprView>) -> bool {
    match site {
        DslSite::NotFound => f is None,
        DslSite::Val(po) => f matches Some(c) && is_val_call(c) && (match po {
            Some(props) => val_props(c) == Some(view_prop_seq(props@)),
            None => val_props(c) is None,
        }),
        DslSite::ResolveDone(id) => f matches Some(c) && is_resolve_call(c) && resolve_arg(c)
            == Some(id@),
        DslSite::ResolveSkip => f matches Some(c) && is_resolve_call(c) && resolve_arg(c) is None,
    }
}

/// Builds the marker placeholder text for a resolver identifier.
pub fn marker_string(id: &String) -> (r: String)
    ensures
        r@ == marker_text(id@),
{
    let mut s = String::new();
    s.append("/* __wres_");
    s.append(id.as_str());
    s.append(" */");
    proof {
        assert(s@ =~= marker_text(id@));
    }
    s
}

/// Whether the callee is the bare identifier of a value-selection call or of
/// a resolver call.
fn callee_syms(callee: &Expr) -> (r: (bool, bool))
    ensures
        r.0 == (match view_expr(*callee) {
            ExprView::Ident(name) => name == sym_val() || name == sym_pval(),
            _ => false,
        }),
        r.1 == (match view_expr(*callee) {
            ExprView::Ident(name) => name == sym_resolve(),
            _ => false,
        }),
{
    match callee {
        Expr::Ident(name) => {
            let v = str_eq(name.as_str(), "$Val") || str_eq(name.as_str(), "$PVal");
            let rs = str_eq(name.as_str(), "$Resolve");
            (v, rs)
        },
        _ => (false, false),
    }
}

/// Rewrites the first DSL call site within an expression.
fn rw_expr_exec(e: Expr) -> (r: (DslSite, Expr))
    ensures
        site_ok(r.0, rw_expr(view_expr(e)).0),
        !(r.0 is Val) ==> view_expr(r.1) == rw_expr(view_expr(e)).1,
    decreases e,
{
    let ghost ve = view_expr(e);
    match e {
        Expr::Call(callee, args) => {
            let (is_val, is_resolve) = callee_syms(&callee);
            proof {
                lemma_view_expr_seq(args@);
                assert(ve == ExprView::Call(
                    Box::new(view_expr(*callee)),
                    view_expr_seq(args@),
                ));
            }
            if is_val {
                proof {
                    assert(is_dsl_call(ve) && is_val_call(ve));
                    lemma_view_expr_seq(args@);
                }
                let ghost vargs = view_expr_seq(args@);
                let mut args = args;
                let mut at: usize = 0;
                let mut found_object = false;
                while at < args.len() && !found_object
                    invariant
                        vargs.len() == args@.len(),
                        forall|j: int| 0 <= j < args@.len() ==> vargs[j] == view_expr(
                            #[trigger] args@[j],
                        ),
                        at <= args@.len(),
                        found_object ==> at < args@.len() && (args@[at as int] matches Expr::Object(_))
                            && object_arg_from(vargs, 0) == object_arg_from(vargs, at as int),
                        !found_object ==> object_arg_from(vargs, 0) == object_arg_from(
                            vargs,
                            at as int,
                        ),
                    decreases (if found_object { 0int } else { 1int }), args@.len() - at,
                {
                    if matches!(&args[at], Expr::Object(_)) {
                        found_object = true;
                    } else {
                        proof {
                            assert(!(vargs[at as int] is Object));
                        }
                        at = at + 1;
                    }
                }
                if found_object {
                    let a0 = args.remove(at);
                    match a0 {
                        Expr::Object(props) => {
                            proof {
                                assert(vargs[at as int] == ExprView::Object(view_prop_seq(
                                    props@,
                                )));
                                assert(val_props(ve) == Some(view_prop_seq(props@)));
                            }
                            (DslSite::Val(Some(props)), Expr::Lit(Lit::Null))
                        },
                        _ => {
                            proof {
                                assert(false);
                            }
                            (DslSite::Val(None), Expr::Lit(Lit::Null))
                        },
                    }
                } else {
                    proof {
                        assert(object_arg_from(vargs, vargs.len() as int) is None);
                        assert(val_props(ve) is None);
                    }
                    (DslSite::Val(None), Expr::Lit(Lit::Null))
                }
            } else if is_resolve {
                proof {
                    assert(is_dsl_call(ve) && is_resolve_call(ve));
                }
                let mut args = args;
                let arg_is_ident = args.len() > 0 && matches!(&args[0], Expr::Ident(_));
                if arg_is_ident {
                    let a0 = args.remove(0);
                    match a0 {
                        Expr::Ident(id) => {
                            proof {
                                assert(resolve_arg(ve) == Some(id@));
                                assert(site_replacement(ve) == ExprView::Lit(
                                    LitView::Str(marker_text(id@)),
                                ));
                            }
                            let marker = marker_string(&id);
                            (DslSite::ResolveDone(id), Expr::Lit(Lit::Str(marker)))
                        },
                        _ => {
                            proof {
                                assert(false);
                            }
                            (DslSite::ResolveSkip, Expr::Lit(Lit::Null))
                        },
                    }
                } else {
                    proof {
                        assert(resolve_arg(ve) is None);
                        assert(site_replacement(ve) == ve);
                    }
                    (DslSite::ResolveSkip, Expr::Call(callee, args))
                }
            } else {
                proof {
                    assert(!is_dsl_call(ve));
                }
                let ghost vcallee = view_expr(*callee);
                let ghost vargs = view_expr_seq(args@);
                let (s1, c1) = rw_expr_exec(*callee);
                if !matches!(s1, DslSite::NotFound) {
                    (s1, Expr::Call(Box::new(c1), args))
                } else {
                    proof {
                        lemma_rw_expr_id(vcallee);
                    }
                    let (s2, a2) = rw_expr_vec_exec(args);
                    proof {
                        lemma_rw_expr_seq_id(vargs, 0);
                    }
                    (s2, Expr::Call(Box::new(c1), a2))
                }
            }
        },
        Expr::Ident(_) => (DslSite::NotFound, e),
        Expr::Lit(_) => (DslSite::NotFound, e),
        Expr::Array(elems) => {
            proof {
                assert(!is_dsl_call(ve));
                assert(ve == ExprView::Array(view_opt_expr_seq(elems@)));
            }
            let ghost velems = view_opt_expr_seq(elems@);
            let (s, t) = rw_opt_expr_vec_exec(elems);
            proof {
                lemma_rw_opt_expr_seq_id(velems, 0);
            }
            (s, Expr::Array(t))
        },
        Expr::Object(props) => {
            proof {
                assert(!is_dsl_call(ve));
                assert(ve == ExprView::Object(view_prop_seq(props@)));
            }
            let ghost vprops = view_prop_seq(props@);
            let (s, t) = rw_prop_vec_exec(props);
            proof {
                lemma_rw_prop_seq_id(vprops, 0);
            }
            (s, Expr::Object(t))
        },
        Expr::Member(obj, prop) => {
            proof {
                assert(!is_dsl_call(ve));
                assert(ve == ExprView::Member(Box::new(view_expr(*obj)), prop@));
            }
            let ghost vobj = view_expr(*obj);
            let (s, t) = rw_expr_exec(*obj);
            proof {
                lemma_rw_expr_id(vobj);
            }
            (s, Expr::Member(Box::new(t), prop))
        },
        Expr::Jsx(bel) => {
            proof {
                assert(!is_dsl_call(ve));
                assert(ve == ExprView::Jsx(view_element(*bel)));
            }
            let ghost vel = view_element(*bel);
            let (s, t) = rw_element_exec(*bel);
            proof {
                lemma_rw_element_id(vel);
            }
            (s, Expr::Jsx(Box::new(t)))
        },
        Expr::JsxFragment(fr) => {
            proof {
                assert(!is_dsl_call(ve));
            }
            let ghost vfr = view_fragment(fr);
            let ghost vch = view_child_seq(fr.children@);
            proof {
                assert(ve == ExprView::JsxFragment(vfr));
                assert(vfr.children == vch);
            }
            let (s, t) = rw_children_exec(fr.children);
            let ghost gres = Expr::JsxFragment(JsxFragment { children: t });
            proof {
                lemma_rw_child_seq_id(vch, 0);
                assert(view_expr(gres) == ExprView::JsxFragment(
                    view_fragment(JsxFragment { children: t }),
                ));
                if !(s is Val) {
                    assert(view_child_seq(t@) == rw_child_seq(vch, 0).1);
                    if s is NotFound {
                        assert(view_child_seq(t@) == vch);
                        assert((JsxFragmentView { children: view_child_seq(t@) }) == vfr);
                        assert(rw_expr(ve).1 == ve);
                    } else {
                        assert(rw_child_seq(vch, 0).0 is Some);
                        assert(rw_expr(ve).1 == ExprView::JsxFragment(
                            (JsxFragmentView { children: rw_child_seq(vch, 0).1 }),
                        ));
                    }
                    assert(view_expr(gres) == rw_expr(ve).1);
                }
            }
            let res = Expr::JsxFragment(JsxFragment { children: t });
            proof {
                assert(res == gres);
            }
            (s, res)
        },
    }
}

/// Rewrites the first DSL call site within an expression sequence.
#[verifier::loop_isolation(false)]
fn rw_expr_vec_exec(v: Vec<Expr>) -> (r: (DslSite, Vec<Expr>))
    ensures
        site_ok(r.0, rw_expr_seq(view_expr_seq(v@), 0).0),
        !(r.0 is Val) ==> view_expr_seq(r.1@) == rw_expr_seq(view_expr_seq(v@), 0).1,
    decreases v,
{
    let ghost orig = v@;
    let ghost s0 = view_expr_seq(orig);
    proof {
        lemma_view_expr_seq(orig);
    }
    proof {
        assert(decreases_to!(v => v@));
    }
    let total: usize = v.len();
    let mut items = v;
    let mut out: Vec<Expr> = Vec::new();
    let mut site = DslSite::NotFound;
    let mut k: usize = 0;
    while k < total
        invariant
            total == orig.len(),
            s0 == view_expr_seq(orig),
            s0.len() == total,
            forall|i: int| 0 <= i < total ==> s0[i] == view_expr(#[trigger] orig[i]),
            k <= total,
            items@ == orig.subrange(k as int, total as int),
            out@.len() == k,
            site is NotFound ==> rw_expr_seq(s0, 0) == rw_expr_seq(s0, k as int)
                && view_expr_seq(out@) == s0.take(k as int),
            !(site is NotFound) ==> site_ok(site, rw_expr_seq(s0, 0).0),
            (site is ResolveDone || site is ResolveSkip) ==> {
                &&& rw_expr_seq(s0, 0).1.len() == total
                &&& view_expr_seq(out@) == rw_expr_seq(s0, 0).1.take(k as int)
                &&& forall|j: int| k <= j < total ==> rw_expr_seq(s0, 0).1[j] == s0[j]
            },
        decreases total - k,
    {
        let it = items.remove(0);
        proof {
            assert(it == orig[k as int]);
            assert(decreases_to!(orig => orig[k as int]));
            assert(items@ =~= orig.subrange(k + 1, total as int));
            lemma_view_expr_seq(out@);
        }
        if matches!(site, DslSite::NotFound) {
            let (s, t) = rw_expr_exec(it);
            proof {
                lemma_view_expr_seq(out@.push(t));
            }
            match s {
                DslSite::NotFound => {
                    proof {
                        lemma_rw_expr_id(s0[k as int]);
                        assert(view_expr(t) == s0[k as int]);
                        lemma_view_expr_seq_push(out@, t);
                        s0.lemma_take_succ_push(k as int);
                        assert(view_expr_seq(out@.push(t)) =~= s0.take(k + 1));
                        assert(rw_expr_seq(s0, k as int) == rw_expr_seq(s0, k + 1));
                    }
                    out.push(t);
                },
                _ => {
                    proof {
                        assert(rw_expr(s0[k as int]).0 is Some);
                        assert(rw_expr_seq(s0, 0) == rw_expr_seq(s0, k as int));
                        assert(rw_expr_seq(s0, k as int) == (
                            rw_expr(s0[k as int]).0,
                            s0.update(k as int, rw_expr(s0[k as int]).1),
                        ));
                        if s is ResolveDone || s is ResolveSkip {
                            assert(view_expr(t) == rw_expr(s0[k as int]).1);
                            lemma_view_expr_seq_push(out@, t);
                            assert(rw_expr_seq(s0, 0).1.take(k as int) =~= s0.take(k as int));
                            rw_expr_seq(s0, 0).1.lemma_take_succ_push(k as int);
                            assert(view_expr_seq(out@.push(t)) =~= rw_expr_seq(s0, 0).1.take(
                                k + 1,
                            ));
                        }
                    }
                    out.push(t);
                    site = s;
                },
            }
        } else {
            proof {
                lemma_view_expr_seq_push(out@, it);
                if site is ResolveDone || site is ResolveSkip {
                    rw_expr_seq(s0, 0).1.lemma_take_succ_push(k as int);
                    assert(view_expr_seq(out@.push(it)) =~= rw_expr_seq(s0, 0).1.take(k + 1));
                }
            }
            out.push(it);
        }
        k = k + 1;
    }
    proof {
        if site is NotFound {
            assert(view_expr_seq(out@) =~= s0);
            assert(rw_expr_seq(s0, total as int).0 is None);
            assert(rw_expr_seq(s0, total as int).1 == s0);
        }
        if site is ResolveDone || site is ResolveSkip {
            assert(view_expr_seq(out@) =~= rw_expr_seq(s0, 0).1);
        }
    }
    (site, out)
}


/// Rewrites the first DSL call site within an array literal's elements.
#[verifier::loop_isolation(false)]
fn rw_opt_expr_vec_exec(v: Vec<Option<Expr>>) -> (r: (DslSite, Vec<Option<Expr>>))
    ensures
        site_ok(r.0, rw_opt_expr_seq(view_opt_expr_seq(v@), 0).0),
        !(r.0 is Val) ==> view_opt_expr_seq(r.1@) == rw_opt_expr_seq(view_opt_expr_seq(v@), 0).1,
    decreases v,
{
    let ghost orig = v@;
    let ghost s0 = view_opt_expr_seq(orig);
    proof {
        lemma_view_opt_expr_seq(orig);
    }
    proof {
        assert(decreases_to!(v => v@));
    }
    let total: usize = v.len();
    let mut items = v;
    let mut out: Vec<Option<Expr>> = Vec::new();
    let mut site = DslSite::NotFound;
    let mut k: usize = 0;
    while k < total
        invariant
            total == orig.len(),
            s0 == view_opt_expr_seq(orig),
            s0.len() == total,
            forall|i: int| 0 <= i < total ==> s0[i] == (match #[trigger] orig[i] {
                Some(e) => Some(view_expr(e)),
                None => None,
            }),
            k <= total,
            items@ == orig.subrange(k as int, total as int),
            out@.len() == k,
            site is NotFound ==> rw_opt_expr_seq(s0, 0) == rw_opt_expr_seq(s0, k as int)
                && view_opt_expr_seq(out@) == s0.take(k as int),
            !(site is NotFound) ==> site_ok(site, rw_opt_expr_seq(s0, 0).0),
            (site is ResolveDone || site is ResolveSkip) ==> {
                &&& rw_opt_expr_seq(s0, 0).1.len() == total
                &&& view_opt_expr_seq(out@) == rw_opt_expr_seq(s0, 0).1.take(k as int)
                &&& forall|j: int| k <= j < total ==> rw_opt_expr_seq(s0, 0).1[j] == s0[j]
            },
        decreases total - k,
    {
        let it = items.remove(0);
        proof {
            assert(it == orig[k as int]);
            assert(decreases_to!(orig => orig[k as int]));
            assert(items@ =~= orig.subrange(k + 1, total as int));
            lemma_view_opt_expr_seq(out@);
        }
        if matches!(site, DslSite::NotFound) {
            match it {
                Some(inner) => {
                    let (s, t) = rw_expr_exec(inner);
                    proof {
                        lemma_view_opt_expr_seq(out@.push(Some(t)));
                    }
                    match s {
                        DslSite::NotFound => {
                            proof {
                                lemma_rw_expr_id(s0[k as int]->0);
                                assert(view_expr(t) == s0[k as int]->0);
                                lemma_view_opt_expr_seq_push(out@, Some(t));
                                s0.lemma_take_succ_push(k as int);
                                assert(view_opt_expr_seq(out@.push(Some(t))) =~= s0.take(k + 1));
                                assert(rw_opt_expr_seq(s0, k as int) == rw_opt_expr_seq(s0, k + 1));
                            }
                            out.push(Some(t));
                        },
                        _ => {
                            proof {
                                assert(rw_opt_expr_seq(s0, 0) == rw_opt_expr_seq(s0, k as int));
                                assert(rw_opt_expr_seq(s0, k as int) == (
                                    rw_expr(s0[k as int]->0).0,
                                    s0.update(k as int, Some(rw_expr(s0[k as int]->0).1)),
                                ));
                                if s is ResolveDone || s is ResolveSkip {
                                    assert(view_expr(t) == rw_expr(s0[k as int]->0).1);
                                    lemma_view_opt_expr_seq_push(out@, Some(t));
                                    assert(rw_opt_expr_seq(s0, 0).1.take(k as int) =~= s0.take(
                                        k as int,
                                    ));
                                    rw_opt_expr_seq(s0, 0).1.lemma_take_succ_push(k as int);
                                    assert(view_opt_expr_seq(out@.push(Some(t)))
                                        =~= rw_opt_expr_seq(s0, 0).1.take(k + 1));
                                }
                            }
                            out.push(Some(t));
                            site = s;
                        },
                    }
                },
                None => {
                    proof {
                        lemma_view_opt_expr_seq_push(out@, None);
                        s0.lemma_take_succ_push(k as int);
                        assert(view_opt_expr_seq(out@.push(None)) =~= s0.take(k + 1));
                        assert(rw_opt_expr_seq(s0, k as int) == rw_opt_expr_seq(s0, k + 1));
                    }
                    out.push(None);
                },
            }
        } else {
            proof {
                lemma_view_opt_expr_seq_push(out@, it);
                if site is ResolveDone || site is ResolveSkip {
                    rw_opt_expr_seq(s0, 0).1.lemma_take_succ_push(k as int);
                    assert(view_opt_expr_seq(out@.push(it)) =~= rw_opt_expr_seq(s0, 0).1.take(
                        k + 1,
                    ));
                }
            }
            out.push(it);
        }
        k = k + 1;
    }
    proof {
        if site is NotFound {
            assert(view_opt_expr_seq(out@) =~= s0);
            assert(rw_opt_expr_seq(s0, total as int).1 == s0);
        }
        if site is ResolveDone || site is ResolveSkip {
            assert(view_opt_expr_seq(out@) =~= rw_opt_expr_seq(s0, 0).1);
        }
    }
    (site, out)
}

/// Rewrites the first DSL call site within a single object property.
fn rw_prop_exec(p: PropOrSpread) -> (r: (DslSite, PropOrSpread))
    ensures
        site_ok(r.0, rw_prop(view_prop_or_spread(p)).0),
        !(r.0 is Val) ==> view_prop_or_spread(r.1) == rw_prop(view_prop_or_spread(p)).1,
    decreases p,
{
    let ghost vp = view_prop_or_spread(p);
    match p {
        PropOrSpread::Prop(Prop::KeyValue(key, v)) => {
            match key {
                PropKey::Computed(ke) => {
                    let ghost vke = view_expr(*ke);
                    let ghost vv = view_expr(*v);
                    let (s1, t1) = rw_expr_exec(*ke);
                    if !matches!(s1, DslSite::NotFound) {
                        (
                            s1,
                            PropOrSpread::Prop(
                                Prop::KeyValue(PropKey::Computed(Box::new(t1)), v),
                            ),
                        )
                    } else {
                        proof {
                            lemma_rw_expr_id(vke);
                        }
                        let (s2, t2) = rw_expr_exec(*v);
                        proof {
                            lemma_rw_expr_id(vv);
                        }
                        (
                            s2,
                            PropOrSpread::Prop(
                                Prop::KeyValue(PropKey::Computed(Box::new(t1)), Box::new(t2)),
                            ),
                        )
                    }
                },
                _ => {
                    let ghost vv = view_expr(*v);
                    let (s2, t2) = rw_expr_exec(*v);
                    proof {
                        lemma_rw_expr_id(vv);
                    }
                    (s2, PropOrSpread::Prop(Prop::KeyValue(key, Box::new(t2))))
                },
            }
        },
        PropOrSpread::Prop(Prop::Shorthand(n)) => (
            DslSite::NotFound,
            PropOrSpread::Prop(Prop::Shorthand(n)),
        ),
        PropOrSpread::Spread(inner) => {
            let ghost vinner = view_expr(*inner);
            let (s, t) = rw_expr_exec(*inner);
            proof {
                lemma_rw_expr_id(vinner);
            }
            (s, PropOrSpread::Spread(Box::new(t)))
        },
    }
}

/// Rewrites the first DSL call site within an object's property list.
#[verifier::loop_isolation(false)]
fn rw_prop_vec_exec(v: Vec<PropOrSpread>) -> (r: (DslSite, Vec<PropOrSpread>))
    ensures
        site_ok(r.0, rw_prop_seq(view_prop_seq(v@), 0).0),
        !(r.0 is Val) ==> view_prop_seq(r.1@) == rw_prop_seq(view_prop_seq(v@), 0).1,
    decreases v,
{
    let ghost orig = v@;
    let ghost s0 = view_prop_seq(orig);
    proof {
        lemma_view_prop_seq(orig);
    }
    proof {
        assert(decreases_to!(v => v@));
    }
    let total: usize = v.len();
    let mut items = v;
    let mut out: Vec<PropOrSpread> = Vec::new();
    let mut site = DslSite::NotFound;
    let mut k: usize = 0;
    while k < total
        invariant
            total == orig.len(),
            s0 == view_prop_seq(orig),
            s0.len() == total,
            forall|i: int| 0 <= i < total ==> s0[i] == view_prop_or_spread(#[trigger] orig[i]),
            k <= total,
            items@ == orig.subrange(k as int, total as int),
            out@.len() == k,
            site is NotFound ==> rw_prop_seq(s0, 0) == rw_prop_seq(s0, k as int)
                && view_prop_seq(out@) == s0.take(k as int),
            !(site is NotFound) ==> site_ok(site, rw_prop_seq(s0, 0).0),
            (site is ResolveDone || site is ResolveSkip) ==> {
                &&& rw_prop_seq(s0, 0).1.len() == total
                &&& view_prop_seq(out@) == rw_prop_seq(s0, 0).1.take(k as int)
                &&& forall|j: int| k <= j < total ==> rw_prop_seq(s0, 0).1[j] == s0[j]
            },
        decreases total - k,
    {
        let it = items.remove(0);
        proof {
            assert(it == orig[k as int]);
            assert(decreases_to!(orig => orig[k as int]));
            assert(items@ =~= orig.subrange(k + 1, total as int));
            lemma_view_prop_seq(out@);
        }
        if matches!(site, DslSite::NotFound) {
            let (s, t) = rw_prop_exec(it);
            proof {
                lemma_view_prop_seq(out@.push(t));
            }
            match s {
                DslSite::NotFound => {
                    proof {
                        lemma_rw_prop_id(s0[k as int]);
                        assert(view_prop_or_spread(t) == s0[k as int]);
                        lemma_view_prop_seq_push(out@, t);
                        s0.lemma_take_succ_push(k as int);
                        assert(view_prop_seq(out@.push(t)) =~= s0.take(k + 1));
                        assert(rw_prop_seq(s0, k as int) == rw_prop_seq(s0, k + 1));
                    }
                    out.push(t);
                },
                _ => {
                    proof {
                        assert(rw_prop_seq(s0, 0) == rw_prop_seq(s0, k as int));
                        assert(rw_prop_seq(s0, k as int) == (
                            rw_prop(s0[k as int]).0,
                            s0.update(k as int, rw_prop(s0[k as int]).1),
                        ));
                        if s is ResolveDone || s is ResolveSkip {
                            assert(view_prop_or_spread(t) == rw_prop(s0[k as int]).1);
                            lemma_view_prop_seq_push(out@, t);
                            assert(rw_prop_seq(s0, 0).1.take(k as int) =~= s0.take(k as int));
                            rw_prop_seq(s0, 0).1.lemma_take_succ_push(k as int);
                            assert(view_prop_seq(out@.push(t)) =~= rw_prop_seq(s0, 0).1.take(
                                k + 1,
                            ));
                        }
                    }
                    out.push(t);
                    site = s;
                },
            }
        } else {
            proof {
                lemma_view_prop_seq_push(out@, it);
                if site is ResolveDone || site is ResolveSkip {
                    rw_prop_seq(s0, 0).1.lemma_take_succ_push(k as int);
                    assert(view_prop_seq(out@.push(it)) =~= rw_prop_seq(s0, 0).1.take(k + 1));
                }
            }
            out.push(it);
        }
        k = k + 1;
    }
    proof {
        if site is NotFound {
            assert(view_prop_seq(out@) =~= s0);
            assert(rw_prop_seq(s0, total as int).1 == s0);
        }
        if site is ResolveDone || site is ResolveSkip {
            assert(view_prop_seq(out@) =~= rw_prop_seq(s0, 0).1);
        }
    }
    (site, out)
}

/// Rewrites the first DSL call site within a single JSX attribute.
fn rw_attr_exec(a: JsxAttr) -> (r: (DslSite, JsxAttr))
    ensures
        site_ok(r.0, rw_attr(view_attr(a)).0),
        !(r.0 is Val) ==> view_attr(r.1) == rw_attr(view_attr(a)).1,
    decreases a,
{
    let JsxAttr { name, value } = a;
    match value {
        Some(JsxAttrValue::Container(be)) => {
            let ghost vbe = view_expr(*be);
            let (s, t) = rw_expr_exec(*be);
            proof {
                lemma_rw_expr_id(vbe);
            }
            (
                s,
                JsxAttr { name, value: Some(JsxAttrValue::Container(Box::new(t))) },
            )
        },
        other => (DslSite::NotFound, JsxAttr { name, value: other }),
    }
}

/// Rewrites the first DSL call site within a JSX attribute list.
#[verifier::loop_isolation(false)]
fn rw_attr_vec_exec(v: Vec<JsxAttr>) -> (r: (DslSite, Vec<JsxAttr>))
    ensures
        site_ok(r.0, rw_attr_seq(view_attr_seq(v@), 0).0),
        !(r.0 is Val) ==> view_attr_seq(r.1@) == rw_attr_seq(view_attr_seq(v@), 0).1,
    decreases v,
{
    let ghost orig = v@;
    let ghost s0 = view_attr_seq(orig);
    proof {
        lemma_view_attr_seq(orig);
    }
    proof {
        assert(decreases_to!(v => v@));
    }
    let total: usize = v.len();
    let mut items = v;
    let mut out: Vec<JsxAttr> = Vec::new();
    let mut site = DslSite::NotFound;
    let mut k: usize = 0;
    while k < total
        invariant
            total == orig.len(),
            s0 == view_attr_seq(orig),
            s0.len() == total,
            forall|i: int| 0 <= i < total ==> s0[i] == view_attr(#[trigger] orig[i]),
            k <= total,
            items@ == orig.subrange(k as int, total as int),
            out@.len() == k,
            site is NotFound ==> rw_attr_seq(s0, 0) == rw_attr_seq(s0, k as int)
                && view_attr_seq(out@) == s0.take(k as int),
            !(site is NotFound) ==> site_ok(site, rw_attr_seq(s0, 0).0),
            (site is ResolveDone || site is ResolveSkip) ==> {
                &&& rw_attr_seq(s0, 0).1.len() == total
                &&& view_attr_seq(out@) == rw_attr_seq(s0, 0).1.take(k as int)
                &&& forall|j: int| k <= j < total ==> rw_attr_seq(s0, 0).1[j] == s0[j]
            },
        decreases total - k,
    {
        let it = items.remove(0);
        proof {
            assert(it == orig[k as int]);
            assert(decreases_to!(orig => orig[k as int]));
            assert(items@ =~= orig.subrange(k + 1, total as int));
            lemma_view_attr_seq(out@);
        }
        if matches!(site, DslSite::NotFound) {
            let (s, t) = rw_attr_exec(it);
            proof {
                lemma_view_attr_seq(out@.push(t));
            }
            match s {
                DslSite::NotFound => {
                    proof {
                        lemma_rw_attr_id(s0[k as int]);
                        assert(view_attr(t) == s0[k as int]);
                        lemma_view_attr_seq_push(out@, t);
                        s0.lemma_take_succ_push(k as int);
                        assert(view_attr_seq(out@.push(t)) =~= s0.take(k + 1));
                        assert(rw_attr_seq(s0, k as int) == rw_attr_seq(s0, k + 1));
                    }
                    out.push(t);
                },
                _ => {
                    proof {
                        assert(rw_attr_seq(s0, 0) == rw_attr_seq(s0, k as int));
                        assert(rw_attr_seq(s0, k as int) == (
                            rw_attr(s0[k as int]).0,
                            s0.update(k as int, rw_attr(s0[k as int]).1),
                        ));
                        if s is ResolveDone || s is ResolveSkip {
                            assert(view_attr(t) == rw_attr(s0[k as int]).1);
                            lemma_view_attr_seq_push(out@, t);
                            assert(rw_attr_seq(s0, 0).1.take(k as int) =~= s0.take(k as int));
                            rw_attr_seq(s0, 0).1.lemma_take_succ_push(k as int);
                            assert(view_attr_seq(out@.push(t)) =~= rw_attr_seq(s0, 0).1.take(
                                k + 1,
                            ));
                        }
                    }
                    out.push(t);
                    site = s;
                },
            }
        } else {
            proof {
                lemma_view_attr_seq_push(out@, it);
                if site is ResolveDone || site is ResolveSkip {
                    rw_attr_seq(s0, 0).1.lemma_take_succ_push(k as int);
                    assert(view_attr_seq(out@.push(it)) =~= rw_attr_seq(s0, 0).1.take(k + 1));
                }
            }
            out.push(it);
        }
        k = k + 1;
    }
    proof {
        if site is NotFound {
            assert(view_attr_seq(out@) =~= s0);
            assert(rw_attr_seq(s0, total as int).1 == s0);
        }
        if site is ResolveDone || site is ResolveSkip {
            assert(view_attr_seq(out@) =~= rw_attr_seq(s0, 0).1);
        }
    }
    (site, out)
}

/// Rewrites the first DSL call site within a single JSX child.
fn rw_child_exec(c: JsxChild) -> (r: (DslSite, JsxChild))
    ensures
        site_ok(r.0, rw_child(view_child(c)).0),
        !(r.0 is Val) ==> view_child(r.1) == rw_child(view_child(c)).1,
    decreases c,
{
    match c {
        JsxChild::Element(bel) => {
            let ghost vbel = view_element(*bel);
            let (s, t) = rw_element_exec(*bel);
            proof {
                lemma_rw_element_id(vbel);
            }
            (s, JsxChild::Element(Box::new(t)))
        },
        JsxChild::Fragment(fr) => {
            let ghost vch = view_child_seq(fr.children@);
            let (s, t) = rw_children_exec(fr.children);
            proof {
                lemma_rw_child_seq_id(vch, 0);
            }
            (s, JsxChild::Fragment(JsxFragment { children: t }))
        },
        JsxChild::Text(tx) => (DslSite::NotFound, JsxChild::Text(tx)),
        JsxChild::ExprContainer(be) => {
            let ghost vbe = view_expr(*be);
            let (s, t) = rw_expr_exec(*be);
            proof {
                lemma_rw_expr_id(vbe);
            }
            (s, JsxChild::ExprContainer(Box::new(t)))
        },
    }
}

/// Rewrites the first DSL call site within a JSX child list.
#[verifier::loop_isolation(false)]
fn rw_children_exec(v: Vec<JsxChild>) -> (r: (DslSite, Vec<JsxChild>))
    ensures
        site_ok(r.0, rw_child_seq(view_child_seq(v@), 0).0),
        !(r.0 is Val) ==> view_child_seq(r.1@) == rw_child_seq(view_child_seq(v@), 0).1,
    decreases v,
{
    let ghost orig = v@;
    let ghost s0 = view_child_seq(orig);
    proof {
        lemma_view_child_seq(orig);
    }
    proof {
        assert(decreases_to!(v => v@));
    }
    let total: usize = v.len();
    let mut items = v;
    let mut out: Vec<JsxChild> = Vec::new();
    let mut site = DslSite::NotFound;
    let mut k: usize = 0;
    while k < total
        invariant
            total == orig.len(),
            s0 == view_child_seq(orig),
            s0.len() == total,
            forall|i: int| 0 <= i < total ==> s0[i] == view_child(#[trigger] orig[i]),
            k <= total,
            items@ == orig.subrange(k as int, total as int),
            out@.len() == k,
            site is NotFound ==> rw_child_seq(s0, 0) == rw_child_seq(s0, k as int)
                && view_child_seq(out@) == s0.take(k as int),
            !(site is NotFound) ==> site_ok(site, rw_child_seq(s0, 0).0),
            (site is ResolveDone || site is ResolveSkip) ==> {
                &&& rw_child_seq(s0, 0).1.len() == total
                &&& view_child_seq(out@) == rw_child_seq(s0, 0).1.take(k as int)
                &&& forall|j: int| k <= j < total ==> rw_child_seq(s0, 0).1[j] == s0[j]
            },
        decreases total - k,
    {
        let it = items.remove(0);
        proof {
            assert(it == orig[k as int]);
            assert(decreases_to!(orig => orig[k as int]));
            assert(items@ =~= orig.subrange(k + 1, total as int));
            lemma_view_child_seq(out@);
        }
        if matches!(site, DslSite::NotFound) {
            let (s, t) = rw_child_exec(it);
            proof {
                lemma_view_child_seq(out@.push(t));
            }
            match s {
                DslSite::NotFound => {
                    proof {
                        lemma_rw_child_id(s0[k as int]);
                        assert(view_child(t) == s0[k as int]);
                        lemma_view_child_seq_push(out@, t);
                        s0.lemma_take_succ_push(k as int);
                        assert(view_child_seq(out@.push(t)) =~= s0.take(k + 1));
                        assert(rw_child_seq(s0, k as int) == rw_child_seq(s0, k + 1));
                    }
                    out.push(t);
                },
                _ => {
                    proof {
                        assert(rw_child_seq(s0, 0) == rw_child_seq(s0, k as int));
                        assert(rw_child_seq(s0, k as int) == (
                            rw_child(s0[k as int]).0,
                            s0.update(k as int, rw_child(s0[k as int]).1),
                        ));
                        if s is ResolveDone || s is ResolveSkip {
                            assert(view_child(t) == rw_child(s0[k as int]).1);
                            lemma_view_child_seq_push(out@, t);
                            assert(rw_child_seq(s0, 0).1.take(k as int) =~= s0.take(k as int));
                            rw_child_seq(s0, 0).1.lemma_take_succ_push(k as int);
                            assert(view_child_seq(out@.push(t)) =~= rw_child_seq(s0, 0).1.take(
                                k + 1,
                            ));
                        }
                    }
                    out.push(t);
                    site = s;
                },
            }
        } else {
            proof {
                lemma_view_child_seq_push(out@, it);
                if site is ResolveDone || site is ResolveSkip {
                    rw_child_seq(s0, 0).1.lemma_take_succ_push(k as int);
                    assert(view_child_seq(out@.push(it)) =~= rw_child_seq(s0, 0).1.take(k + 1));
                }
            }
            out.push(it);
        }
        k = k + 1;
    }
    proof {
        if site is NotFound {
            assert(view_child_seq(out@) =~= s0);
            assert(rw_child_seq(s0, total as int).1 == s0);
        }
        if site is ResolveDone || site is ResolveSkip {
            assert(view_child_seq(out@) =~= rw_child_seq(s0, 0).1);
        }
    }
    (site, out)
}

/// Rewrites the first DSL call site within a JSX element: attributes first,
/// then children.
fn rw_element_exec(el: JsxElement) -> (r: (DslSite, JsxElement))
    ensures
        site_ok(r.0, rw_element(view_element(el)).0),
        !(r.0 is Val) ==> view_element(r.1) == rw_element(view_element(el)).1,
    decreases el,
{
    let ghost vel = view_element(el);
    let JsxElement { name, attrs, children, self_closing } = el;
    proof {
        assert(vel == (JsxElementView {
            name: name@,
            attrs: view_attr_seq(attrs@),
            children: view_child_seq(children@),
            self_closing,
        }));
    }
    let ghost vattrs = view_attr_seq(attrs@);
    let ghost vchildren = view_child_seq(children@);
    let (s1, a1) = rw_attr_vec_exec(attrs);
    if !matches!(s1, DslSite::NotFound) {
        (s1, JsxElement { name, attrs: a1, children, self_closing })
    } else {
        proof {
            lemma_rw_attr_seq_id(vattrs, 0);
        }
        let (s2, c2) = rw_children_exec(children);
        proof {
            lemma_rw_child_seq_id(vchildren, 0);
        }
        (s2, JsxElement { name, attrs: a1, children: c2, self_closing })
    }
}

// ---------------------------------------------------------------------------
// JSX filtering walk
// ---------------------------------------------------------------------------

/// The string set a `key` attribute declares: a single string literal, a
/// string literal in a container, or an array of string literals; anything
/// else declares no usable key.
pub open spec fn attr_key_vec(a: JsxAttrView) -> Option<Seq<Seq<char>>> {
    if a.name == "key"@ {
        match a.value {
            Some(JsxAttrValueView::Lit(LitView::Str(s))) => Some(seq![s]),
            Some(JsxAttrValueView::Container(e)) => match *e {
                ExprView::Lit(LitView::Str(s)) => Some(seq![s]),
                ExprView::Array(elems) => str_elems_from(elems, 0),
                _ => None,
            },
            _ => None,
        }
    } else {
        None
    }
}

/// The string values of an array of string literals, from `i` on; `None` as
/// soon as an element is a hole or not a string literal.
pub open spec fn str_elems_from(elems: Seq<Option<ExprView>>, i: int) -> Option<Seq<Seq<char>>>
    decreases elems.len() - i,
    when 0 <= i
{
    if i >= elems.len() {
        Some(Seq::empty())
    } else {
        match elems[i] {
            Some(ExprView::Lit(LitView::Str(s))) => match str_elems_from(elems, i + 1) {
                Some(rest) => Some(seq![s] + rest),
                None => None,
            },
            _ => None,
        }
    }
}

/// The key set of the first attribute that declares one, from `i` on.
pub open spec fn element_key_vec(attrs: Seq<JsxAttrView>, i: int) -> Option<Seq<Seq<char>>>
    decreases attrs.len() - i,
    when 0 <= i
{
    if i >= attrs.len() {
        None
    } else {
        match attr_key_vec(attrs[i]) {
            Some(v) => Some(v),
            None => element_key_vec(attrs, i + 1),
        }
    }
}

/// The element is the DSL JSX tag.
pub open spec fn is_walnut_element(el: JsxElementView) -> bool {
    el.name == sym_walnut_tag()
}

/// The element's declared key set contains the selection key.
pub open spec fn walnut_matches(el: JsxElementView, key: Seq<char>) -> bool {
    match element_key_vec(el.attrs, 0) {
        Some(v) => exists|i: int| 0 <= i < v.len() && v[i] == key,
        None => false,
    }
}

/// What a processed child contributes to its parent element's child list: a
/// closed DSL-tagged element is spliced (its children take its place) when
/// its key set contains the selection key and dropped otherwise; everything
/// else passes through unchanged.
pub open spec fn child_expansion(c: JsxChildView, key: Seq<char>) -> Seq<JsxChildView> {
    match c {
        JsxChildView::Element(el) => if is_walnut_element(el) && !el.self_closing {
            if walnut_matches(el, key) {
                el.children
            } else {
                Seq::empty()
            }
        } else {
            seq![c]
        },
        _ => seq![c],
    }
}

/// An element's processed child list after DSL-tag filtering.
pub open spec fn filter_children(s: Seq<JsxChildView>, key: Seq<char>) -> Seq<JsxChildView>
    decreases s.len(),
{
    if s.len() == 0 {
        Seq::empty()
    } else {
        filter_children(s.drop_last(), key) + child_expansion(s.last(), key)
    }
}

/// The JSX walk over an expression: DSL-tagged elements are filtered inside
/// every JSX subtree the expression contains.
pub open spec fn jx_expr(e: ExprView, key: Seq<char>) -> ExprView
    decreases e, 0int,
{
    match e {
        ExprView::Ident(_) => e,
        ExprView::Lit(_) => e,
        ExprView::Array(elems) => ExprView::Array(jx_opt_expr_seq(elems, key)),
        ExprView::Object(props) => ExprView::Object(jx_prop_seq(props, key)),
        ExprView::Call(callee, args) => ExprView::Call(
            Box::new(jx_expr(*callee, key)),
            jx_expr_seq(args, key),
        ),
        ExprView::Member(obj, prop) => ExprView::Member(Box::new(jx_expr(*obj, key)), prop),
        ExprView::Jsx(el) => ExprView::Jsx(jx_element(el, key)),
        ExprView::JsxFragment(fr) => ExprView::JsxFragment(jx_fragment(fr, key)),
    }
}

pub open spec fn jx_expr_seq(s: Seq<ExprView>, key: Seq<char>) -> Seq<ExprView>
    decreases s, 1int,
{
    if s.len() == 0 {
        Seq::empty()
    } else {
        jx_expr_seq(s.drop_last(), key).push(jx_expr(s.last(), key))
    }
}

pub open spec fn jx_opt_expr_seq(s: Seq<Option<ExprView>>, key: Seq<char>) -> Seq<
    Option<ExprView>,
>
    decreases s, 1int,
{
    if s.len() == 0 {
        Seq::empty()
    } else {
        jx_opt_expr_seq(s.drop_last(), key).push(
            match s.last() {
                Some(e) => Some(jx_expr(e, key)),
                None => None,
            },
        )
    }
}

pub open spec fn jx_prop(p: PropOrSpreadView, key: Seq<char>) -> PropOrSpreadView
    decreases p, 1int,
{
    match p {
        PropOrSpreadView::Prop(PropView::KeyValue(k, v)) => PropOrSpreadView::Prop(
            PropView::KeyValue(
                match k {
                    PropKeyView::Computed(ke) => PropKeyView::Computed(
                        Box::new(jx_expr(*ke, key)),
                    ),
                    _ => k,
                },
                Box::new(jx_expr(*v, key)),
            ),
        ),
        PropOrSpreadView::Prop(PropView::Shorthand(_)) => p,
        PropOrSpreadView::Spread(e) => PropOrSpreadView::Spread(Box::new(jx_expr(*e, key))),
    }
}

pub open spec fn jx_prop_seq(s: Seq<PropOrSpreadView>, key: Seq<char>) -> Seq<PropOrSpreadView>
    decreases s, 2int,
{
    if s.len() == 0 {
        Seq::empty()
    } else {
        jx_prop_seq(s.drop_last(), key).push(jx_prop(s.last(), key))
    }
}

pub open spec fn jx_child(c: JsxChildView, key: Seq<char>) -> JsxChildView
    decreases c, 2int,
{
    match c {
        JsxChildView::Element(el) => JsxChildView::Element(jx_element(el, key)),
        JsxChildView::Fragment(fr) => JsxChildView::Fragment(jx_fragment(fr, key)),
        JsxChildView::Text(_) => c,
        JsxChildView::ExprContainer(e) => JsxChildView::ExprContainer(
            Box::new(jx_expr(*e, key)),
        ),
    }
}

pub open spec fn jx_child_seq(s: Seq<JsxChildView>, key: Seq<char>) -> Seq<JsxChildView>
    decreases s, 3int,
{
    if s.len() == 0 {
        Seq::empty()
    } else {
        jx_child_seq(s.drop_last(), key).push(jx_child(s.last(), key))
    }
}

/// A fragment's children are walked but never filtered at the fragment
/// itself: only elements filter their direct children.
pub open spec fn jx_fragment(fr: JsxFragmentView, key: Seq<char>) -> JsxFragmentView
    decreases fr, 4int,
{
    JsxFragmentView { children: jx_child_seq(fr.children, key) }
}

/// An element: its children are walked first, then its own child list is
/// filtered; attributes are left as they stand. A self-closing element never
/// filters: its child list is only walked.
pub open spec fn jx_element(el: JsxElementView, key: Seq<char>) -> JsxElementView
    decreases el, 4int,
{
    JsxElementView {
        name: el.name,
        attrs: el.attrs,
        children: if el.self_closing {
            jx_child_seq(el.children, key)
        } else {
            filter_children(jx_child_seq(el.children, key), key)
        },
        self_closing: el.self_closing,
    }
}


/// JSX filtering, stated per child. A closed DSL-tagged element whose key
/// set contains the selection key is replaced by its own children; one whose
/// key set does not contain it disappears with its whole subtree; a
/// self-closing element passes through unchanged whatever its key; and so
/// does every child that is not a DSL-tagged element.
pub proof fn lemma_child_filtering(c: JsxChildView, key: Seq<char>)
    ensures
        c matches JsxChildView::Element(el) ==> {
            &&& (is_walnut_element(el) && !el.self_closing && walnut_matches(el, key))
                ==> child_expansion(c, key) == el.children
            &&& (is_walnut_element(el) && !el.self_closing && !walnut_matches(el, key))
                ==> child_expansion(c, key) == Seq::<JsxChildView>::empty()
            &&& el.self_closing ==> child_expansion(c, key) == seq![c]
            &&& !is_walnut_element(el) ==> child_expansion(c, key) == seq![c]
        },
        !(c is Element) ==> child_expansion(c, key) == seq![c],
{
}

/// JSX filtering keeps position: a child's replacement is spliced into the
/// parent's child list exactly where the child stood.
pub proof fn lemma_filter_children_splice(
    a: Seq<JsxChildView>,
    c: JsxChildView,
    b: Seq<JsxChildView>,
    key: Seq<char>,
)
    ensures
        filter_children(a + seq![c] + b, key) == filter_children(a, key) + child_expansion(
            c,
            key,
        ) + filter_children(b, key),
    decreases b.len(),
{
    if b.len() == 0 {
        assert(a + seq![c] + b =~= a + seq![c]);
        assert((a + seq![c]).drop_last() =~= a);
        assert((a + seq![c]).last() == c);
        assert(filter_children(a + seq![c], key) == filter_children(a, key) + child_expansion(
            c,
            key,
        ));
        assert(filter_children(a, key) + child_expansion(c, key) + filter_children(b, key)
            =~= filter_children(a, key) + child_expansion(c, key));
    } else {
        lemma_filter_children_splice(a, c, b.drop_last(), key);
        assert((a + seq![c] + b).drop_last() =~= a + seq![c] + b.drop_last());
        assert((a + seq![c] + b).last() == b.last());
        assert(filter_children(a + seq![c] + b, key) == filter_children(
            a + seq![c] + b.drop_last(),
            key,
        ) + child_expansion(b.last(), key));
        assert(filter_children(a, key) + child_expansion(c, key) + filter_children(b, key)
            =~= (filter_children(a, key) + child_expansion(c, key) + filter_children(
            b.drop_last(),
            key,
        )) + child_expansion(b.last(), key));
    }
}

// ---------------------------------------------------------------------------
// Executable JSX filtering walk
// ---------------------------------------------------------------------------

/// The string values of an array of string literals, from `i` on.
fn collect_strs(elems: &Vec<Option<Expr>>, i: usize) -> (r: Option<Vec<String>>)
    requires
        i <= elems@.len(),
    ensures
        match r {
            Some(v) => str_elems_from(view_opt_expr_seq(elems@), i as int) == Some(
                view_str_seq(v@),
            ),
            None => str_elems_from(view_opt_expr_seq(elems@), i as int) is None,
        },
    decreases elems@.len() - i,
{
    let ghost s0 = view_opt_expr_seq(elems@);
    proof {
        lemma_view_opt_expr_seq(elems@);
    }
    if i >= elems.len() {
        proof {
            assert(view_str_seq(Seq::<String>::empty()) =~= Seq::<Seq<char>>::empty());
        }
        return Some(Vec::new());
    }
    match &elems[i] {
        Some(Expr::Lit(Lit::Str(st))) => {
            proof {
                assert(s0[i as int] == Some(ExprView::Lit(LitView::Str(st@))));
            }
            match collect_strs(elems, i + 1) {
                Some(rest) => {
                    let mut rest = rest;
                    let ghost rest0 = rest@;
                    let stc = st.clone();
                    let ghost stc0 = stc;
                    rest.insert(0, stc);
                    proof {
                        rest0.insert_ensures(0, stc0);
                        lemma_view_str_seq(rest0);
                        lemma_view_str_seq(rest@);
                        assert(view_str_seq(rest@).len() == 1 + view_str_seq(rest0).len());
                        assert forall|j: int| 0 <= j < view_str_seq(rest@).len() implies
                            view_str_seq(rest@)[j] == (seq![st@] + view_str_seq(rest0))[j] by {
                            if j == 0 {
                                assert(rest@[0] == stc0);
                            } else {
                                assert(rest@[j] == rest0[j - 1]);
                            }
                        }
                        assert(view_str_seq(rest@) =~= seq![st@] + view_str_seq(rest0));
                    }
                    Some(rest)
                },
                None => None,
            }
        },
        _ => None,
    }
}

/// The key set a single attribute declares, if any.
fn attr_key_exec(a: &JsxAttr) -> (r: Option<Vec<String>>)
    ensures
        match r {
            Some(v) => attr_key_vec(view_attr(*a)) == Some(view_str_seq(v@)),
            None => attr_key_vec(view_attr(*a)) is None,
        },
{
    if !str_eq(a.name.as_str(), "key") {
        return None;
    }
    match &a.value {
        Some(JsxAttrValue::Lit(Lit::Str(st))) => {
            let mut v: Vec<String> = Vec::new();
            v.push(st.clone());
            proof {
                lemma_view_str_seq(v@);
                assert(view_str_seq(v@) =~= seq![st@]);
            }
            Some(v)
        },
        Some(JsxAttrValue::Container(be)) => match &**be {
            Expr::Lit(Lit::Str(st)) => {
                let mut v: Vec<String> = Vec::new();
                v.push(st.clone());
                proof {
                    lemma_view_str_seq(v@);
                    assert(view_str_seq(v@) =~= seq![st@]);
                }
                Some(v)
            },
            Expr::Array(elems) => collect_strs(elems, 0),
            _ => None,
        },
        _ => None,
    }
}

/// The key set of the first attribute that declares one, from `i` on.
fn key_vec_from(attrs: &Vec<JsxAttr>, i: usize) -> (r: Option<Vec<String>>)
    requires
        i <= attrs@.len(),
    ensures
        match r {
            Some(v) => element_key_vec(view_attr_seq(attrs@), i as int) == Some(
                view_str_seq(v@),
            ),
            None => element_key_vec(view_attr_seq(attrs@), i as int) is None,
        },
    decreases attrs@.len() - i,
{
    proof {
        lemma_view_attr_seq(attrs@);
    }
    if i >= attrs.len() {
        return None;
    }
    match attr_key_exec(&attrs[i]) {
        Some(v) => Some(v),
        None => key_vec_from(attrs, i + 1),
    }
}

/// Whether some string of the set equals the selection key.
fn key_matches(v: &Vec<String>, key: &String) -> (r: bool)
    ensures
        r == exists|i: int| 0 <= i < view_str_seq(v@).len() && view_str_seq(v@)[i] == key@,
{
    proof {
        lemma_view_str_seq(v@);
    }
    let ghost vs = view_str_seq(v@);
    let mut i: usize = 0;
    while i < v.len()
        invariant
            vs == view_str_seq(v@),
            vs.len() == v@.len(),
            forall|j: int| 0 <= j < v@.len() ==> vs[j] == (#[trigger] v@[j])@,
            i <= v@.len(),
            forall|j: int| 0 <= j < i ==> vs[j] != key@,
        decreases v@.len() - i,
    {
        if string_eq(&v[i], key) {
            assert(vs[i as int] == key@);
            return true;
        }
        i = i + 1;
    }
    proof {
        if exists|j: int| 0 <= j < vs.len() && vs[j] == key@ {
            let w = choose|w: int| 0 <= w < vs.len() && vs[w] == key@;
            assert(false);
        }
    }
    false
}

/// Whether the element's declared key set contains the selection key.
fn walnut_matches_exec(attrs: &Vec<JsxAttr>, key: &String) -> (r: bool)
    ensures
        r == (match element_key_vec(view_attr_seq(attrs@), 0) {
            Some(v) => exists|i: int| 0 <= i < v.len() && v[i] == key@,
            None => false,
        }),
{
    match key_vec_from(attrs, 0) {
        Some(v) => key_matches(&v, key),
        None => false,
    }
}

/// Filters a processed child list: closed DSL-tagged elements are spliced or
/// dropped by their key set; everything else passes through.
#[verifier::loop_isolation(false)]
fn filter_children_exec(v: Vec<JsxChild>, key: &String) -> (r: Vec<JsxChild>)
    ensures
        view_child_seq(r@) == filter_children(view_child_seq(v@), key@),
{
    let ghost orig = v@;
    let ghost s0 = view_child_seq(orig);
    proof {
        lemma_view_child_seq(orig);
    }
    let total: usize = v.len();
    let mut items = v;
    let mut out: Vec<JsxChild> = Vec::new();
    let mut k: usize = 0;
    while k < total
        invariant
            total == orig.len(),
            s0 == view_child_seq(orig),
            s0.len() == total,
            forall|i: int| 0 <= i < total ==> s0[i] == view_child(#[trigger] orig[i]),
            k <= total,
            items@ == orig.subrange(k as int, total as int),
            view_child_seq(out@) == filter_children(s0.take(k as int), key@),
        decreases total - k,
    {
        let it = items.remove(0);
        proof {
            assert(it == orig[k as int]);
            assert(items@ =~= orig.subrange(k + 1, total as int));
            assert(s0.take(k + 1).drop_last() =~= s0.take(k as int));
            assert(s0.take(k + 1).last() == s0[k as int]);
            assert(filter_children(s0.take(k + 1), key@) == filter_children(
                s0.take(k as int),
                key@,
            ) + child_expansion(s0[k as int], key@));
        }
        let keep_simple = match &it {
            JsxChild::Element(bel) => !(!bel.self_closing && str_eq(bel.name.as_str(), "$Walnut")),
            _ => true,
        };
        if keep_simple {
            proof {
                assert(child_expansion(s0[k as int], key@) =~= seq![s0[k as int]]);
                lemma_view_child_seq_push(out@, it);
                assert(view_child_seq(out@.push(it)) =~= filter_children(s0.take(k + 1), key@));
            }
            out.push(it);
        } else {
            match it {
                JsxChild::Element(bel) => {
                    proof {
                        assert(s0[k as int] == JsxChildView::Element(view_element(*bel)));
                        assert(is_walnut_element(view_element(*bel)));
                        assert(!view_element(*bel).self_closing);
                    }
                    let matched = walnut_matches_exec(&bel.attrs, key);
                    if matched {
                        proof {
                            assert(walnut_matches(view_element(*bel), key@));
                            assert(child_expansion(s0[k as int], key@) == view_element(
                                *bel,
                            ).children);
                        }
                        let el = *bel;
                        let ghost vel = view_element(el);
                        let JsxElement { children, .. } = el;
                        let mut ch = children;
                        proof {
                            assert(vel.children == view_child_seq(ch@));
                            lemma_view_child_seq_concat(out@, ch@);
                            assert(view_child_seq(out@ + ch@) =~= filter_children(
                                s0.take(k + 1),
                                key@,
                            ));
                        }
                        out.append(&mut ch);
                    } else {
                        proof {
                            assert(!walnut_matches(view_element(*bel), key@));
                            assert(child_expansion(s0[k as int], key@) =~= Seq::<
                                JsxChildView,
                            >::empty());
                            assert(view_child_seq(out@) =~= filter_children(
                                s0.take(k + 1),
                                key@,
                            ));
                        }
                    }
                },
                _ => {
                    proof {
                        assert(false);
                    }
                },
            }
        }
        k = k + 1;
    }
    proof {
        assert(s0.take(total as int) =~= s0);
    }
    out
}

/// The JSX walk over an expression.
fn jx_expr_exec(e: Expr, key: &String) -> (r: Expr)
    ensures
        view_expr(r) == jx_expr(view_expr(e), key@),
    decreases e,
{
    let ghost ve = view_expr(e);
    match e {
        Expr::Ident(_) => e,
        Expr::Lit(_) => e,
        Expr::Array(elems) => {
            proof {
                assert(ve == ExprView::Array(view_opt_expr_seq(elems@)));
            }
            let t = jx_opt_expr_vec_exec(elems, key);
            Expr::Array(t)
        },
        Expr::Object(props) => {
            proof {
                assert(ve == ExprView::Object(view_prop_seq(props@)));
            }
            let t = jx_prop_vec_exec(props, key);
            Expr::Object(t)
        },
        Expr::Call(callee, args) => {
            proof {
                assert(ve == ExprView::Call(Box::new(view_expr(*callee)), view_expr_seq(args@)));
            }
            let c = jx_expr_exec(*callee, key);
            let a = jx_expr_vec_exec(args, key);
            Expr::Call(Box::new(c), a)
        },
        Expr::Member(obj, prop) => {
            proof {
                assert(ve == ExprView::Member(Box::new(view_expr(*obj)), prop@));
            }
            let o = jx_expr_exec(*obj, key);
            Expr::Member(Box::new(o), prop)
        },
        Expr::Jsx(bel) => {
            proof {
                assert(ve == ExprView::Jsx(view_element(*bel)));
            }
            let t = jx_element_exec(*bel, key);
            Expr::Jsx(Box::new(t))
        },
        Expr::JsxFragment(fr) => {
            let ghost vfr = view_fragment(fr);
            let ghost vch = view_child_seq(fr.children@);
            proof {
                assert(ve == ExprView::JsxFragment(vfr));
                assert(vfr.children == vch);
            }
            let t = jx_children_vec_exec(fr.children, key);
            let ghost gres = Expr::JsxFragment(JsxFragment { children: t });
            proof {
                assert(view_expr(gres) == ExprView::JsxFragment(
                    view_fragment(JsxFragment { children: t }),
                ));
                assert(view_fragment(JsxFragment { children: t }) == jx_fragment(vfr, key@));
            }
            Expr::JsxFragment(JsxFragment { children: t })
        },
    }
}

/// The JSX walk over an expression sequence.
#[verifier::loop_isolation(false)]
fn jx_expr_vec_exec(v: Vec<Expr>, key: &String) -> (r: Vec<Expr>)
    ensures
        view_expr_seq(r@) == jx_expr_seq(view_expr_seq(v@), key@),
    decreases v,
{
    proof {
        assert(decreases_to!(v => v@));
    }
    let ghost orig = v@;
    let ghost s0 = view_expr_seq(orig);
    proof {
        lemma_view_expr_seq(orig);
    }
    let total: usize = v.len();
    let mut items = v;
    let mut out: Vec<Expr> = Vec::new();
    let mut k: usize = 0;
    while k < total
        invariant
            total == orig.len(),
            s0.len() == total,
            forall|i: int| 0 <= i < total ==> s0[i] == view_expr(#[trigger] orig[i]),
            k <= total,
            items@ == orig.subrange(k as int, total as int),
            view_expr_seq(out@) == jx_expr_seq(s0.take(k as int), key@),
        decreases total - k,
    {
        let it = items.remove(0);
        proof {
            assert(it == orig[k as int]);
            assert(items@ =~= orig.subrange(k + 1, total as int));
            assert(decreases_to!(orig => orig[k as int]));
        }
        let t = jx_expr_exec(it, key);
        proof {
            lemma_view_expr_seq_push(out@, t);
            assert(s0.take(k + 1).drop_last() =~= s0.take(k as int));
            assert(s0.take(k + 1).last() == s0[k as int]);
            assert(view_expr_seq(out@.push(t)) =~= jx_expr_seq(s0.take(k + 1), key@));
        }
        out.push(t);
        k = k + 1;
    }
    proof {
        assert(s0.take(total as int) =~= s0);
    }
    out
}

/// The JSX walk over an array literal's elements.
#[verifier::loop_isolation(false)]
fn jx_opt_expr_vec_exec(v: Vec<Option<Expr>>, key: &String) -> (r: Vec<Option<Expr>>)
    ensures
        view_opt_expr_seq(r@) == jx_opt_expr_seq(view_opt_expr_seq(v@), key@),
    decreases v,
{
    proof {
        assert(decreases_to!(v => v@));
    }
    let ghost orig = v@;
    let ghost s0 = view_opt_expr_seq(orig);
    proof {
        lemma_view_opt_expr_seq(orig);
    }
    let total: usize = v.len();
    let mut items = v;
    let mut out: Vec<Option<Expr>> = Vec::new();
    let mut k: usize = 0;
    while k < total
        invariant
            total == orig.len(),
            s0.len() == total,
            forall|i: int| 0 <= i < total ==> s0[i] == view_opt_expr(#[trigger] orig[i]),
            k <= total,
            items@ == orig.subrange(k as int, total as int),
            view_opt_expr_seq(out@) == jx_opt_expr_seq(s0.take(k as int), key@),
        decreases total - k,
    {
        let it = items.remove(0);
        proof {
            assert(it == orig[k as int]);
            assert(items@ =~= orig.subrange(k + 1, total as int));
            assert(decreases_to!(orig => orig[k as int]));
        }
        let t: Option<Expr> = match it {
            Some(inner) => Some(jx_expr_exec(inner, key)),
            None => None,
        };
        proof {
            lemma_view_opt_expr_seq_push(out@, t);
            assert(s0.take(k + 1).drop_last() =~= s0.take(k as int));
            assert(s0.take(k + 1).last() == s0[k as int]);
            assert(view_opt_expr_seq(out@.push(t)) =~= jx_opt_expr_seq(s0.take(k + 1), key@));
        }
        out.push(t);
        k = k + 1;
    }
    proof {
        assert(s0.take(total as int) =~= s0);
    }
    out
}

/// The JSX walk over an object's property list.
#[verifier::loop_isolation(false)]
fn jx_prop_vec_exec(v: Vec<PropOrSpread>, key: &String) -> (r: Vec<PropOrSpread>)
    ensures
        view_prop_seq(r@) == jx_prop_seq(view_prop_seq(v@), key@),
    decreases v,
{
    proof {
        assert(decreases_to!(v => v@));
    }
    let ghost orig = v@;
    let ghost s0 = view_prop_seq(orig);
    proof {
        lemma_view_prop_seq(orig);
    }
    let total: usize = v.len();
    let mut items = v;
    let mut out: Vec<PropOrSpread> = Vec::new();
    let mut k: usize = 0;
    while k < total
        invariant
            total == orig.len(),
            s0.len() == total,
            forall|i: int| 0 <= i < total ==> s0[i] == view_prop_or_spread(#[trigger] orig[i]),
            k <= total,
            items@ == orig.subrange(k as int, total as int),
            view_prop_seq(out@) == jx_prop_seq(s0.take(k as int), key@),
        decreases total - k,
    {
        let it = items.remove(0);
        proof {
            assert(it == orig[k as int]);
            assert(items@ =~= orig.subrange(k + 1, total as int));
            assert(decreases_to!(orig => orig[k as int]));
        }
        let t: PropOrSpread = match it {
            PropOrSpread::Prop(Prop::KeyValue(pk, pv)) => {
                let pk2 = match pk {
                    PropKey::Computed(ke) => PropKey::Computed(Box::new(jx_expr_exec(*ke, key))),
                    other => other,
                };
                PropOrSpread::Prop(Prop::KeyValue(pk2, Box::new(jx_expr_exec(*pv, key))))
            },
            PropOrSpread::Prop(Prop::Shorthand(n)) => PropOrSpread::Prop(Prop::Shorthand(n)),
            PropOrSpread::Spread(inner) => PropOrSpread::Spread(
                Box::new(jx_expr_exec(*inner, key)),
            ),
        };
        proof {
            assert(view_prop_or_spread(t) == jx_prop(s0[k as int], key@));
            lemma_view_prop_seq_push(out@, t);
            assert(s0.take(k + 1).drop_last() =~= s0.take(k as int));
            assert(s0.take(k + 1).last() == s0[k as int]);
            assert(view_prop_seq(out@.push(t)) =~= jx_prop_seq(s0.take(k + 1), key@));
        }
        out.push(t);
        k = k + 1;
    }
    proof {
        assert(s0.take(total as int) =~= s0);
    }
    out
}

/// The JSX walk over a child list; no filtering happens here.
#[verifier::loop_isolation(false)]
fn jx_children_vec_exec(v: Vec<JsxChild>, key: &String) -> (r: Vec<JsxChild>)
    ensures
        view_child_seq(r@) == jx_child_seq(view_child_seq(v@), key@),
    decreases v,
{
    proof {
        assert(decreases_to!(v => v@));
    }
    let ghost orig = v@;
    let ghost s0 = view_child_seq(orig);
    proof {
        lemma_view_child_seq(orig);
    }
    let total: usize = v.len();
    let mut items = v;
    let mut out: Vec<JsxChild> = Vec::new();
    let mut k: usize = 0;
    while k < total
        invariant
            total == orig.len(),
            s0.len() == total,
            forall|i: int| 0 <= i < total ==> s0[i] == view_child(#[trigger] orig[i]),
            k <= total,
            items@ == orig.subrange(k as int, total as int),
            view_child_seq(out@) == jx_child_seq(s0.take(k as int), key@),
        decreases total - k,
    {
        let it = items.remove(0);
        proof {
            assert(it == orig[k as int]);
            assert(items@ =~= orig.subrange(k + 1, total as int));
            assert(decreases_to!(orig => orig[k as int]));
        }
        let t: JsxChild = match it {
            JsxChild::Element(bel) => JsxChild::Element(Box::new(jx_element_exec(*bel, key))),
            JsxChild::Fragment(fr) => {
                let ghost vfr = view_fragment(fr);
                let ghost vch = view_child_seq(fr.children@);
                let t2 = jx_children_vec_exec(fr.children, key);
                let ghost gres = JsxChild::Fragment(JsxFragment { children: t2 });
                proof {
                    assert(view_child(gres) == JsxChildView::Fragment(
                        view_fragment(JsxFragment { children: t2 }),
                    ));
                    assert(view_fragment(JsxFragment { children: t2 }) == jx_fragment(vfr, key@));
                }
                JsxChild::Fragment(JsxFragment { children: t2 })
            },
            JsxChild::Text(tx) => JsxChild::Text(tx),
            JsxChild::ExprContainer(be) => JsxChild::ExprContainer(
                Box::new(jx_expr_exec(*be, key)),
            ),
        };
        proof {
            assert(view_child(t) == jx_child(s0[k as int], key@));
            lemma_view_child_seq_push(out@, t);
            assert(s0.take(k + 1).drop_last() =~= s0.take(k as int));
            assert(s0.take(k + 1).last() == s0[k as int]);
            assert(view_child_seq(out@.push(t)) =~= jx_child_seq(s0.take(k + 1), key@));
        }
        out.push(t);
        k = k + 1;
    }
    proof {
        assert(s0.take(total as int) =~= s0);
    }
    out
}

/// The JSX walk over one element: children first, then its child list is
/// filtered.
fn jx_element_exec(el: JsxElement, key: &String) -> (r: JsxElement)
    ensures
        view_element(r) == jx_element(view_element(el), key@),
    decreases el,
{
    let ghost vel = view_element(el);
    let JsxElement { name, attrs, children, self_closing } = el;
    proof {
        assert(vel == (JsxElementView {
            name: name@,
            attrs: view_attr_seq(attrs@),
            children: view_child_seq(children@),
            self_closing,
        }));
    }
    let walked = jx_children_vec_exec(children, key);
    let out_children = if self_closing {
        walked
    } else {
        filter_children_exec(walked, key)
    };
    let res = JsxElement { name, attrs, children: out_children, self_closing };
    proof {
        assert(view_element(res) =~= jx_element(vel, key@));
    }
    res
}


/// When the found site's replacement is the site itself, the rewritten tree
/// is the input unchanged.
pub proof fn lemma_rw_expr_skip_id(e: ExprView)
    ensures
        (rw_expr(e).0 matches Some(c) && site_replacement(c) == c) ==> rw_expr(e).1 == e,
    decreases e, 3int,
{
    if is_dsl_call(e) {
    } else {
        match e {
            ExprView::Array(elems) => {
                lemma_rw_opt_expr_seq_skip_id(elems, 0);
            },
            ExprView::Object(props) => {
                lemma_rw_prop_seq_skip_id(props, 0);
            },
            ExprView::Call(callee, args) => {
                lemma_rw_expr_skip_id(*callee);
                lemma_rw_expr_seq_skip_id(args, 0);
            },
            ExprView::Member(obj, _) => {
                lemma_rw_expr_skip_id(*obj);
            },
            ExprView::Jsx(el) => {
                lemma_rw_element_skip_id(el);
            },
            ExprView::JsxFragment(fr) => {
                lemma_rw_child_seq_skip_id(fr.children, 0);
                if rw_expr(e).0 matches Some(c) && site_replacement(c) == c {
                    assert((JsxFragmentView { children: rw_child_seq(fr.children, 0).1 }) =~= fr);
                }
            },
            _ => {},
        }
    }
}

pub proof fn lemma_rw_expr_seq_skip_id(s: Seq<ExprView>, i: int)
    requires
        0 <= i,
    ensures
        (rw_expr_seq(s, i).0 matches Some(c) && site_replacement(c) == c) ==> rw_expr_seq(
            s,
            i,
        ).1 == s,
    decreases s, s.len() - i + 4,
{
    if i < s.len() {
        lemma_rw_expr_skip_id(s[i]);
        lemma_rw_expr_seq_skip_id(s, i + 1);
        if rw_expr(s[i]).0 is Some {
            assert(s.update(i, rw_expr(s[i]).1) =~= s.update(i, rw_expr(s[i]).1));
            if rw_expr_seq(s, i).0 matches Some(c) && site_replacement(c) == c {
                assert(rw_expr(s[i]).1 == s[i]);
                assert(s.update(i, rw_expr(s[i]).1) =~= s);
            }
        }
    }
}

pub proof fn lemma_rw_opt_expr_seq_skip_id(s: Seq<Option<ExprView>>, i: int)
    requires
        0 <= i,
    ensures
        (rw_opt_expr_seq(s, i).0 matches Some(c) && site_replacement(c) == c)
            ==> rw_opt_expr_seq(s, i).1 == s,
    decreases s, s.len() - i + 4,
{
    if i < s.len() {
        match s[i] {
            Some(e) => {
                lemma_rw_expr_skip_id(e);
                lemma_rw_opt_expr_seq_skip_id(s, i + 1);
                if rw_expr(e).0 is Some {
                    if rw_opt_expr_seq(s, i).0 matches Some(c) && site_replacement(c) == c {
                        assert(rw_expr(e).1 == e);
                        assert(s.update(i, Some(rw_expr(e).1)) =~= s);
                    }
                }
            },
            None => {
                lemma_rw_opt_expr_seq_skip_id(s, i + 1);
            },
        }
    }
}

pub proof fn lemma_rw_prop_skip_id(p: PropOrSpreadView)
    ensures
        (rw_prop(p).0 matches Some(c) && site_replacement(c) == c) ==> rw_prop(p).1 == p,
    decreases p, 3int,
{
    match p {
        PropOrSpreadView::Prop(PropView::KeyValue(k, v)) => {
            match k {
                PropKeyView::Computed(ke) => {
                    lemma_rw_expr_skip_id(*ke);
                },
                _ => {},
            }
            lemma_rw_expr_skip_id(*v);
        },
        PropOrSpreadView::Spread(e) => {
            lemma_rw_expr_skip_id(*e);
        },
        _ => {},
    }
}

pub proof fn lemma_rw_prop_seq_skip_id(s: Seq<PropOrSpreadView>, i: int)
    requires
        0 <= i,
    ensures
        (rw_prop_seq(s, i).0 matches Some(c) && site_replacement(c) == c) ==> rw_prop_seq(
            s,
            i,
        ).1 == s,
    decreases s, s.len() - i + 4,
{
    if i < s.len() {
        lemma_rw_prop_skip_id(s[i]);
        lemma_rw_prop_seq_skip_id(s, i + 1);
        if rw_prop(s[i]).0 is Some {
            if rw_prop_seq(s, i).0 matches Some(c) && site_replacement(c) == c {
                assert(rw_prop(s[i]).1 == s[i]);
                assert(s.update(i, rw_prop(s[i]).1) =~= s);
            }
        }
    }
}

pub proof fn lemma_rw_attr_skip_id(a: JsxAttrView)
    ensures
        (rw_attr(a).0 matches Some(c) && site_replacement(c) == c) ==> rw_attr(a).1 == a,
    decreases a, 3int,
{
    match a.value {
        Some(JsxAttrValueView::Container(e)) => {
            lemma_rw_expr_skip_id(*e);
            if rw_attr(a).0 matches Some(c) && site_replacement(c) == c {
                assert((JsxAttrView {
                    name: a.name,
                    value: Some(JsxAttrValueView::Container(Box::new(rw_expr(*e).1))),
                }) =~= a);
            }
        },
        _ => {},
    }
}

pub proof fn lemma_rw_attr_seq_skip_id(s: Seq<JsxAttrView>, i: int)
    requires
        0 <= i,
    ensures
        (rw_attr_seq(s, i).0 matches Some(c) && site_replacement(c) == c) ==> rw_attr_seq(
            s,
            i,
        ).1 == s,
    decreases s, s.len() - i + 4,
{
    if i < s.len() {
        lemma_rw_attr_skip_id(s[i]);
        lemma_rw_attr_seq_skip_id(s, i + 1);
        if rw_attr(s[i]).0 is Some {
            if rw_attr_seq(s, i).0 matches Some(c) && site_replacement(c) == c {
                assert(rw_attr(s[i]).1 == s[i]);
                assert(s.update(i, rw_attr(s[i]).1) =~= s);
            }
        }
    }
}

pub proof fn lemma_rw_element_skip_id(el: JsxElementView)
    ensures
        (rw_element(el).0 matches Some(c) && site_replacement(c) == c) ==> rw_element(el).1
            == el,
    decreases el, 4int,
{
    lemma_rw_attr_seq_skip_id(el.attrs, 0);
    lemma_rw_child_seq_skip_id(el.children, 0);
    if rw_element(el).0 matches Some(c) && site_replacement(c) == c {
        if rw_attr_seq(el.attrs, 0).0 is Some {
            assert((JsxElementView {
                name: el.name,
                attrs: rw_attr_seq(el.attrs, 0).1,
                children: el.children,
                self_closing: el.self_closing,
            }) =~= el);
        } else {
            assert((JsxElementView {
                name: el.name,
                attrs: el.attrs,
                children: rw_child_seq(el.children, 0).1,
                self_closing: el.self_closing,
            }) =~= el);
        }
    }
}

pub proof fn lemma_rw_child_skip_id(c: JsxChildView)
    ensures
        (rw_child(c).0 matches Some(cc) && site_replacement(cc) == cc) ==> rw_child(c).1 == c,
    decreases c, 5int,
{
    match c {
        JsxChildView::Element(el) => {
            lemma_rw_element_skip_id(el);
        },
        JsxChildView::Fragment(fr) => {
            lemma_rw_child_seq_skip_id(fr.children, 0);
            if rw_child(c).0 matches Some(cc) && site_replacement(cc) == cc {
                assert((JsxFragmentView { children: rw_child_seq(fr.children, 0).1 }) =~= fr);
            }
        },
        JsxChildView::ExprContainer(e) => {
            lemma_rw_expr_skip_id(*e);
        },
        _ => {},
    }
}

pub proof fn lemma_rw_child_seq_skip_id(s: Seq<JsxChildView>, i: int)
    requires
        0 <= i,
    ensures
        (rw_child_seq(s, i).0 matches Some(c) && site_replacement(c) == c) ==> rw_child_seq(
            s,
            i,
        ).1 == s,
    decreases s, s.len() - i + 6,
{
    if i < s.len() {
        lemma_rw_child_skip_id(s[i]);
        lemma_rw_child_seq_skip_id(s, i + 1);
        if rw_child(s[i]).0 is Some {
            if rw_child_seq(s, i).0 matches Some(c) && site_replacement(c) == c {
                assert(rw_child(s[i]).1 == s[i]);
                assert(s.update(i, rw_child(s[i]).1) =~= s);
            }
        }
    }
}

// ---------------------------------------------------------------------------
// The transform pass over declarators, statements and the module
// ---------------------------------------------------------------------------

/// The sentinel a declarator becomes when value selection produced nothing:
/// an invalid binding pattern without an initializer, dropped by cleanup.
pub open spec fn invalid_declarator() -> VarDeclaratorView {
    VarDeclaratorView { name: PatView::Invalid, init: None }
}

/// What the transform does to one variable declarator: the first DSL call
/// site in the initializer decides. A value-selection call selects from its
/// first object-literal argument and replaces the initializer with the
/// selected value, marks the declarator invalid when nothing is selected
/// (no object-literal argument, or an empty one), or fails; a resolver call
/// on a bare identifier is
/// replaced in place by its marker and records the identifier; a resolver
/// call on anything else leaves the declarator untouched, as does the
/// absence of any DSL call site.
pub open spec fn tr_declarator(d: VarDeclaratorView, key: Seq<char>) -> Result<
    (VarDeclaratorView, Seq<Seq<char>>),
    WalnutError,
> {
    match d.init {
        None => Ok((d, Seq::empty())),
        Some(init) => {
            let (f, t2) = rw_expr(init);
            match f {
                None => Ok((d, Seq::empty())),
                Some(c) => if is_val_call(c) {
                    match val_props(c) {
                        None => Ok((invalid_declarator(), Seq::empty())),
                        Some(props) => match crate::select::select_spec(props, key) {
                            Err(e) => Err(e),
                            Ok(None) => Ok((invalid_declarator(), Seq::empty())),
                            Ok(Some(v)) => Ok(
                                (VarDeclaratorView { name: d.name, init: Some(v) }, Seq::empty()),
                            ),
                        },
                    }
                } else {
                    match resolve_arg(c) {
                        Some(id) => Ok(
                            (VarDeclaratorView { name: d.name, init: Some(t2) }, seq![id]),
                        ),
                        None => Ok((d, Seq::empty())),
                    }
                },
            }
        },
    }
}

/// The transform over a declarator list, in order; the first failure aborts,
/// recorded resolver identifiers accumulate in order.
pub open spec fn tr_decls(s: Seq<VarDeclaratorView>, key: Seq<char>) -> Result<
    (Seq<VarDeclaratorView>, Seq<Seq<char>>),
    WalnutError,
>
    decreases s.len(),
{
    if s.len() == 0 {
        Ok((Seq::empty(), Seq::empty()))
    } else {
        match tr_decls(s.drop_last(), key) {
            Err(e) => Err(e),
            Ok((ds, ids)) => match tr_declarator(s.last(), key) {
                Err(e) => Err(e),
                Ok((d2, ids2)) => Ok((ds.push(d2), ids + ids2)),
            },
        }
    }
}

/// What the transform does to one statement: declarators are rewritten;
/// other statements get the JSX filtering walk.
pub open spec fn tr_stmt(st: StmtView, key: Seq<char>) -> Result<
    (StmtView, Seq<Seq<char>>),
    WalnutError,
> {
    match st {
        StmtView::Decl(vd) => match tr_decls(vd.decls, key) {
            Err(e) => Err(e),
            Ok((ds, ids)) => Ok(
                (StmtView::Decl(VarDeclView { kind: vd.kind, decls: ds }), ids),
            ),
        },
        StmtView::Expr(e) => Ok((StmtView::Expr(Box::new(jx_expr(*e, key))), Seq::empty())),
        StmtView::Empty => Ok((st, Seq::empty())),
    }
}

/// What the transform does to one module item: imports pass through.
pub open spec fn tr_item(it: ModuleItemView, key: Seq<char>) -> Result<
    (ModuleItemView, Seq<Seq<char>>),
    WalnutError,
> {
    match it {
        ModuleItemView::Import(_) => Ok((it, Seq::empty())),
        ModuleItemView::Stmt(st) => match tr_stmt(st, key) {
            Err(e) => Err(e),
            Ok((st2, ids)) => Ok((ModuleItemView::Stmt(st2), ids)),
        },
        ModuleItemView::Export(vd) => match tr_decls(vd.decls, key) {
            Err(e) => Err(e),
            Ok((ds, ids)) => Ok(
                (ModuleItemView::Export(VarDeclView { kind: vd.kind, decls: ds }), ids),
            ),
        },
    }
}

/// The transform over the module items, in order.
pub open spec fn tr_items(s: Seq<ModuleItemView>, key: Seq<char>) -> Result<
    (Seq<ModuleItemView>, Seq<Seq<char>>),
    WalnutError,
>
    decreases s.len(),
{
    if s.len() == 0 {
        Ok((Seq::empty(), Seq::empty()))
    } else {
        match tr_items(s.drop_last(), key) {
            Err(e) => Err(e),
            Ok((its, ids)) => match tr_item(s.last(), key) {
                Err(e) => Err(e),
                Ok((it2, ids2)) => Ok((its.push(it2), ids + ids2)),
            },
        }
    }
}

/// The rewrite pass over a whole module: every variable declarator and every
/// JSX subtree, in order, with the pending resolver identifiers it recorded.
pub open spec fn tr_module(m: ModuleView, key: Seq<char>) -> Result<
    (ModuleView, Seq<Seq<char>>),
    WalnutError,
> {
    match tr_items(m.items, key) {
        Err(e) => Err(e),
        Ok((its, ids)) => Ok((ModuleView { items: its }, ids)),
    }
}

/// Rewrites one variable declarator.
fn tr_declarator_exec(d: VarDeclarator, key: &String) -> (r: Result<
    (VarDeclarator, Vec<String>),
    WalnutError,
>)
    ensures
        match r {
            Err(e) => tr_declarator(view_declarator(d), key@) == Err::<
                (VarDeclaratorView, Seq<Seq<char>>),
                WalnutError,
            >(e),
            Ok((d2, ids)) => tr_declarator(view_declarator(d), key@) == Ok::<
                (VarDeclaratorView, Seq<Seq<char>>),
                WalnutError,
            >((view_declarator(d2), view_str_seq(ids@))),
        },
{
    let ghost vd = view_declarator(d);
    let VarDeclarator { name, init } = d;
    match init {
        None => {
            proof {
                lemma_view_str_seq(Seq::<String>::empty());
                assert(view_str_seq(Seq::<String>::empty()) =~= Seq::<Seq<char>>::empty());
            }
            Ok((VarDeclarator { name, init: None }, Vec::new()))
        },
        Some(e) => {
            let ghost vinit = view_expr(e);
            proof {
                assert(vd.init == Some(vinit));
                lemma_rw_found_is_dsl(vinit);
                lemma_rw_expr_id(vinit);
                lemma_syms_distinct();
                lemma_view_str_seq(Seq::<String>::empty());
                assert(view_str_seq(Seq::<String>::empty()) =~= Seq::<Seq<char>>::empty());
            }
            let (site, t) = rw_expr_exec(e);
            match site {
                DslSite::NotFound => Ok((VarDeclarator { name, init: Some(t) }, Vec::new())),
                DslSite::Val(po) => {
                    match po {
                        None => Ok((VarDeclarator { name: Pat::Invalid, init: None }, Vec::new())),
                        Some(props) => {
                            let ghost vprops = view_prop_seq(props@);
                            match crate::select::select_value(props, key) {
                                Err(er) => Err(er),
                                Ok(None) => Ok(
                                    (VarDeclarator { name: Pat::Invalid, init: None }, Vec::new()),
                                ),
                                Ok(Some(v)) => Ok(
                                    (VarDeclarator { name, init: Some(v) }, Vec::new()),
                                ),
                            }
                        },
                    }
                },
                DslSite::ResolveDone(id) => {
                    let ghost c = rw_expr(vinit).0->0;
                    proof {
                        assert(is_resolve_call(c) && !is_val_call(c));
                    }
                    let mut ids: Vec<String> = Vec::new();
                    ids.push(id);
                    proof {
                        lemma_view_str_seq(ids@);
                        assert(view_str_seq(ids@) =~= seq![rw_expr(vinit).0->0->Call_1[0]->Ident_0]);
                    }
                    Ok((VarDeclarator { name, init: Some(t) }, ids))
                },
                DslSite::ResolveSkip => {
                    let ghost c = rw_expr(vinit).0->0;
                    proof {
                        assert(is_resolve_call(c) && !is_val_call(c));
                        assert(site_replacement(c) == c);
                        lemma_rw_expr_skip_id(vinit);
                        assert(view_expr(t) == vinit);
                    }
                    Ok((VarDeclarator { name, init: Some(t) }, Vec::new()))
                },
            }
        },
    }
}

/// Rewrites the declarators of one variable declaration.
#[verifier::loop_isolation(false)]
fn tr_var_decl_exec(vdc: VarDecl, key: &String) -> (r: Result<(VarDecl, Vec<String>), WalnutError>)
    ensures
        match r {
            Err(e) => tr_decls(view_var_decl(vdc).decls, key@) == Err::<
                (Seq<VarDeclaratorView>, Seq<Seq<char>>),
                WalnutError,
            >(e),
            Ok((vd2, ids)) => vd2.kind == vdc.kind && tr_decls(view_var_decl(vdc).decls, key@)
                == Ok::<(Seq<VarDeclaratorView>, Seq<Seq<char>>), WalnutError>(
                (view_var_decl(vd2).decls, view_str_seq(ids@)),
            ),
        },
{
    let ghost vvd = view_var_decl(vdc);
    let VarDecl { kind, decls } = vdc;
    let ghost orig = decls@;
    let ghost s0 = view_declarator_seq(orig);
    proof {
        lemma_view_declarator_seq(orig);
        assert(vvd.decls == s0);
    }
    let total: usize = decls.len();
    let mut items = decls;
    let mut out: Vec<VarDeclarator> = Vec::new();
    let mut ids: Vec<String> = Vec::new();
    proof {
        lemma_view_str_seq(Seq::<String>::empty());
        assert(view_str_seq(Seq::<String>::empty()) =~= Seq::<Seq<char>>::empty());
    }
    let mut k: usize = 0;
    while k < total
        invariant
            total == orig.len(),
            s0.len() == total,
            forall|i: int| 0 <= i < total ==> s0[i] == view_declarator(#[trigger] orig[i]),
            k <= total,
            items@ == orig.subrange(k as int, total as int),
            tr_decls(s0.take(k as int), key@) == Ok::<
                (Seq<VarDeclaratorView>, Seq<Seq<char>>),
                WalnutError,
            >((view_declarator_seq(out@), view_str_seq(ids@))),
        decreases total - k,
    {
        let it = items.remove(0);
        proof {
            assert(it == orig[k as int]);
            assert(items@ =~= orig.subrange(k + 1, total as int));
            assert(s0.take(k + 1).drop_last() =~= s0.take(k as int));
            assert(s0.take(k + 1).last() == s0[k as int]);
        }
        match tr_declarator_exec(it, key) {
            Err(e) => {
                proof {
                    assert(tr_decls(s0.take(k + 1), key@) == Err::<
                        (Seq<VarDeclaratorView>, Seq<Seq<char>>),
                        WalnutError,
                    >(e));
                    lemma_tr_decls_err(s0, k + 1, key@);
                }
                return Err(e);
            },
            Ok((d2, ids2)) => {
                proof {
                    lemma_view_declarator_seq_push(out@, d2);
                    crate::text::lemma_view_str_seq_concat(ids@, ids2@);
                }
                let mut ids2 = ids2;
                out.push(d2);
                ids.append(&mut ids2);
                k = k + 1;
            },
        }
    }
    proof {
        assert(s0.take(total as int) =~= s0);
    }
    Ok((VarDecl { kind, decls: out }, ids))
}

/// Rewrites one statement.
#[verifier::loop_isolation(false)]
fn tr_stmt_exec(st: Stmt, key: &String) -> (r: Result<(Stmt, Vec<String>), WalnutError>)
    ensures
        match r {
            Err(e) => tr_stmt(view_stmt(st), key@) == Err::<
                (StmtView, Seq<Seq<char>>),
                WalnutError,
            >(e),
            Ok((st2, ids)) => tr_stmt(view_stmt(st), key@) == Ok::<
                (StmtView, Seq<Seq<char>>),
                WalnutError,
            >((view_stmt(st2), view_str_seq(ids@))),
        },
{
    let ghost vst = view_stmt(st);
    match st {
        Stmt::Decl(vdc) => {
            let ghost vvd = view_var_decl(vdc);
            match tr_var_decl_exec(vdc, key) {
                Err(e) => Err(e),
                Ok((vd2, ids)) => Ok((Stmt::Decl(vd2), ids)),
            }
        },
        Stmt::Expr(be) => {
            let ghost ve = view_expr(*be);
            let t = jx_expr_exec(*be, key);
            proof {
                lemma_view_str_seq(Seq::<String>::empty());
                assert(view_str_seq(Seq::<String>::empty()) =~= Seq::<Seq<char>>::empty());
            }
            Ok((Stmt::Expr(Box::new(t)), Vec::new()))
        },
        Stmt::Empty => {
            proof {
                lemma_view_str_seq(Seq::<String>::empty());
                assert(view_str_seq(Seq::<String>::empty()) =~= Seq::<Seq<char>>::empty());
            }
            Ok((Stmt::Empty, Vec::new()))
        },
    }
}

/// An error of the declarator fold persists for every longer prefix.
proof fn lemma_tr_decls_err(s: Seq<VarDeclaratorView>, i: int, key: Seq<char>)
    requires
        0 <= i <= s.len(),
        tr_decls(s.take(i), key) is Err,
    ensures
        tr_decls(s, key) == tr_decls(s.take(i), key),
    decreases s.len() - i,
{
    if i < s.len() {
        assert(s.take(i + 1).drop_last() =~= s.take(i));
        lemma_tr_decls_err(s, i + 1, key);
    } else {
        assert(s.take(i) =~= s);
    }
}

/// An error of the item fold persists for every longer prefix.
proof fn lemma_tr_items_err(s: Seq<ModuleItemView>, i: int, key: Seq<char>)
    requires
        0 <= i <= s.len(),
        tr_items(s.take(i), key) is Err,
    ensures
        tr_items(s, key) == tr_items(s.take(i), key),
    decreases s.len() - i,
{
    if i < s.len() {
        assert(s.take(i + 1).drop_last() =~= s.take(i));
        lemma_tr_items_err(s, i + 1, key);
    } else {
        assert(s.take(i) =~= s);
    }
}

/// The main rewrite pass over a module: rewrites every variable declarator
/// and filters every JSX subtree, returning the transformed module and the
/// pending resolver identifiers in order of discovery.
#[verifier::loop_isolation(false)]
pub fn transform_module(m: Module, key: &String) -> (r: Result<
    (Module, Vec<String>),
    WalnutError,
>)
    ensures
        match r {
            Err(e) => tr_module(view_module(m), key@) == Err::<
                (ModuleView, Seq<Seq<char>>),
                WalnutError,
            >(e),
            Ok((m2, ids)) => tr_module(view_module(m), key@) == Ok::<
                (ModuleView, Seq<Seq<char>>),
                WalnutError,
            >((view_module(m2), view_str_seq(ids@))),
        },
{
    let ghost vm = view_module(m);
    let ghost orig = m.items@;
    let ghost s0 = view_item_seq(orig);
    proof {
        lemma_view_item_seq(orig);
        assert(vm.items == s0);
        lemma_view_str_seq(Seq::<String>::empty());
        assert(view_str_seq(Seq::<String>::empty()) =~= Seq::<Seq<char>>::empty());
    }
    let mut items = m.items;
    let total: usize = items.len();
    let mut out: Vec<ModuleItem> = Vec::new();
    let mut ids: Vec<String> = Vec::new();
    let mut k: usize = 0;
    while k < total
        invariant
            total == orig.len(),
            s0.len() == total,
            forall|i: int| 0 <= i < total ==> s0[i] == view_item(#[trigger] orig[i]),
            k <= total,
            items@ == orig.subrange(k as int, total as int),
            tr_items(s0.take(k as int), key@) == Ok::<
                (Seq<ModuleItemView>, Seq<Seq<char>>),
                WalnutError,
            >((view_item_seq(out@), view_str_seq(ids@))),
        decreases total - k,
    {
        let it = items.remove(0);
        proof {
            assert(it == orig[k as int]);
            assert(items@ =~= orig.subrange(k + 1, total as int));
            assert(s0.take(k + 1).drop_last() =~= s0.take(k as int));
            assert(s0.take(k + 1).last() == s0[k as int]);
        }
        match it {
            ModuleItem::Import(d) => {
                proof {
                    assert(s0[k as int] == ModuleItemView::Import(view_import(d)));
                    lemma_view_item_seq_push(out@, ModuleItem::Import(d));
                }
                out.push(ModuleItem::Import(d));
                k = k + 1;
            },
            ModuleItem::Stmt(st) => {
                proof {
                    assert(s0[k as int] == ModuleItemView::Stmt(view_stmt(st)));
                }
                match tr_stmt_exec(st, key) {
                    Err(e) => {
                        proof {
                            assert(tr_items(s0.take(k + 1), key@) == Err::<
                                (Seq<ModuleItemView>, Seq<Seq<char>>),
                                WalnutError,
                            >(e));
                            lemma_tr_items_err(s0, k + 1, key@);
                        }
                        return Err(e);
                    },
                    Ok((st2, ids2)) => {
                        proof {
                            lemma_view_item_seq_push(out@, ModuleItem::Stmt(st2));
                            crate::text::lemma_view_str_seq_concat(ids@, ids2@);
                        }
                        let mut ids2 = ids2;
                        out.push(ModuleItem::Stmt(st2));
                        ids.append(&mut ids2);
                        k = k + 1;
                    },
                }
            },
            ModuleItem::Export(vdc) => {
                proof {
                    assert(s0[k as int] == ModuleItemView::Export(view_var_decl(vdc)));
                }
                match tr_var_decl_exec(vdc, key) {
                    Err(e) => {
                        proof {
                            assert(tr_items(s0.take(k + 1), key@) == Err::<
                                (Seq<ModuleItemView>, Seq<Seq<char>>),
                                WalnutError,
                            >(e));
                            lemma_tr_items_err(s0, k + 1, key@);
                        }
                        return Err(e);
                    },
                    Ok((vd2, ids2)) => {
                        proof {
                            lemma_view_item_seq_push(out@, ModuleItem::Export(vd2));
                            crate::text::lemma_view_str_seq_concat(ids@, ids2@);
                        }
                        let mut ids2 = ids2;
                        out.push(ModuleItem::Export(vd2));
                        ids.append(&mut ids2);
                        k = k + 1;
                    },
                }
            },
        }
    }
    proof {
        assert(s0.take(total as int) =~= s0);
    }
    Ok((Module { items: out }, ids))
}

} // verus!