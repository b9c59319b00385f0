//! The syntax tree model that every pass of the pipeline works on.
//!
//! The tree is a closed set of tagged variants covering the module shapes the
//! transform reads and rewrites: import declarations, variable declarations,
//! expression statements, the expression forms that can carry a DSL call, and
//! JSX subtrees. Each executable type has a ghost counterpart (`...View`) over
//! `Seq`, and a view function mapping one to the other; all contracts in this
//! crate are stated over the ghost model.

use vstd::prelude::*;

verus! {

// ---------------------------------------------------------------------------
// Errors
// ---------------------------------------------------------------------------

/// Malformed DSL usage inside a value-selection call; fatal to a run.
#[derive(Debug, Clone, Copy, PartialEq, Eq, Structural)]
pub enum WalnutError {
    /// A property of the selection object is a spread element.
    UnsupportedSpread,
    /// A property of the selection object is not a key-value pair.
    MissingPropertyValue,
    /// A property key is not an identifier, string, number or big integer.
    InvalidKeyKind,
}

// ---------------------------------------------------------------------------
// Ghost model
// ---------------------------------------------------------------------------

#[verifier::ext_equal]
pub enum LitView {
    Str(Seq<char>),
    Num(Seq<char>),
    BigInt(Seq<char>),
    Bool(bool),
    Null,
}

#[verifier::ext_equal]
pub enum PropKeyView {
    Ident(Seq<char>),
    Str(Seq<char>),
    Num(Seq<char>),
    BigInt(Seq<char>),
    Computed(Box<ExprView>),
}

#[verifier::ext_equal]
pub enum PropView {
    KeyValue(PropKeyView, Box<ExprView>),
    Shorthand(Seq<char>),
}

#[verifier::ext_equal]
pub enum PropOrSpreadView {
    Prop(PropView),
    Spread(Box<ExprView>),
}

#[verifier::ext_equal]
pub enum JsxAttrValueView {
    Lit(LitView),
    Container(Box<ExprView>),
    Empty,
}

#[verifier::ext_equal]
pub struct JsxAttrView {
    pub name: Seq<char>,
    pub value: Option<JsxAttrValueView>,
}

#[verifier::ext_equal]
pub struct JsxElementView {
    pub name: Seq<char>,
    pub attrs: Seq<JsxAttrView>,
    pub children: Seq<JsxChildView>,
    pub self_closing: bool,
}

#[verifier::ext_equal]
pub struct JsxFragmentView {
    pub children: Seq<JsxChildView>,
}

#[verifier::ext_equal]
pub enum JsxChildView {
    Element(JsxElementView),
    Fragment(JsxFragmentView),
    Text(Seq<char>),
    ExprContainer(Box<ExprView>),
}

#[verifier::ext_equal]
pub enum ExprView {
    Ident(Seq<char>),
    Lit(LitView),
    Array(Seq<Option<ExprView>>),
    Object(Seq<PropOrSpreadView>),
    Call(Box<ExprView>, Seq<ExprView>),
    Member(Box<ExprView>, Seq<char>),
    Jsx(JsxElementView),
    JsxFragment(JsxFragmentView),
}

#[verifier::ext_equal]
pub enum PatView {
    Ident(Seq<char>),
    Invalid,
}

#[verifier::ext_equal]
pub struct VarDeclaratorView {
    pub name: PatView,
    pub init: Option<ExprView>,
}

#[verifier::ext_equal]
pub enum VarKindView {
    Var,
    Let,
    Const,
}

#[verifier::ext_equal]
pub struct VarDeclView {
    pub kind: VarKindView,
    pub decls: Seq<VarDeclaratorView>,
}

#[verifier::ext_equal]
pub enum StmtView {
    Decl(VarDeclView),
    Expr(Box<ExprView>),
    Empty,
}

#[verifier::ext_equal]
pub enum ImportSpecifierView {
    Named { local: Seq<char>, imported: Option<Seq<char>> },
    Default { local: Seq<char> },
    Namespace { local: Seq<char> },
}

#[verifier::ext_equal]
pub struct ImportDeclView {
    pub src: Seq<char>,
    pub specifiers: Seq<ImportSpecifierView>,
}

#[verifier::ext_equal]
pub enum ModuleItemView {
    Import(ImportDeclView),
    Stmt(StmtView),
    Export(VarDeclView),
}

#[verifier::ext_equal]
pub struct ModuleView {
    pub items: Seq<ModuleItemView>,
}

impl ImportSpecifierView {
    /// The name the specifier binds in the importing module.
    pub open spec fn local(self) -> Seq<char> {
        match self {
            ImportSpecifierView::Named { local, .. } => local,
            ImportSpecifierView::Default { local } => local,
            ImportSpecifierView::Namespace { local } => local,
        }
    }
}

// ---------------------------------------------------------------------------
// Executable tree
// ---------------------------------------------------------------------------

#[derive(Debug, PartialEq, Eq)]
pub enum Lit {
    Str(String),
    /// A numeric literal, carried in its normalized textual form.
    Num(String),
    BigInt(String),
    Bool(bool),
    Null,
}

#[derive(Debug, PartialEq, Eq)]
pub enum PropKey {
    Ident(String),
    Str(String),
    Num(String),
    BigInt(String),
    Computed(Box<Expr>),
}

#[derive(Debug, PartialEq, Eq)]
pub enum Prop {
    KeyValue(PropKey, Box<Expr>),
    Shorthand(String),
}

#[derive(Debug, PartialEq, Eq)]
pub enum PropOrSpread {
    Prop(Prop),
    Spread(Box<Expr>),
}

#[derive(Debug, PartialEq, Eq)]
pub enum JsxAttrValue {
    Lit(Lit),
    Container(Box<Expr>),
    Empty,
}

#[derive(Debug, PartialEq, Eq)]
pub struct JsxAttr {
    pub name: String,
    pub value: Option<JsxAttrValue>,
}

#[derive(Debug, PartialEq, Eq)]
pub struct JsxElement {
    pub name: String,
    pub attrs: Vec<JsxAttr>,
    pub children: Vec<JsxChild>,
    pub self_closing: bool,
}

#[derive(Debug, PartialEq, Eq)]
pub struct JsxFragment {
    pub children: Vec<JsxChild>,
}

#[derive(Debug, PartialEq, Eq)]
pub enum JsxChild {
    Element(Box<JsxElement>),
    Fragment(JsxFragment),
    Text(String),
    ExprContainer(Box<Expr>),
}

#[derive(Debug, PartialEq, Eq)]
pub enum Expr {
    Ident(String),
    Lit(Lit),
    Array(Vec<Option<Expr>>),
    Object(Vec<PropOrSpread>),
    Call(Box<Expr>, Vec<Expr>),
    Member(Box<Expr>, String),
    Jsx(Box<JsxElement>),
    JsxFragment(JsxFragment),
}

#[derive(Debug, PartialEq, Eq)]
pub enum Pat {
    Ident(String),
    Invalid,
}

#[derive(Debug, PartialEq, Eq)]
pub struct VarDeclarator {
    pub name: Pat,
    pub init: Option<Expr>,
}

#[derive(Debug, Clone, Copy, PartialEq, Eq, Structural)]
pub enum VarKind {
    Var,
    Let,
    Const,
}

#[derive(Debug, PartialEq, Eq)]
pub struct VarDecl {
    pub kind: VarKind,
    pub decls: Vec<VarDeclarator>,
}

#[derive(Debug, PartialEq, Eq)]
pub enum Stmt {
    Decl(VarDecl),
    Expr(Box<Expr>),
    Empty,
}

#[derive(Debug, PartialEq, Eq)]
pub enum ImportSpecifier {
    Named { local: String, imported: Option<String> },
    Default { local: String },
    Namespace { local: String },
}

#[derive(Debug, PartialEq, Eq)]
pub struct ImportDecl {
    pub src: String,
    pub specifiers: Vec<ImportSpecifier>,
}

#[derive(Debug, PartialEq, Eq)]
pub enum ModuleItem {
    Import(ImportDecl),
    Stmt(Stmt),
    /// An exported variable declaration: `export const x = ...;`.
    Export(VarDecl),
}

#[derive(Debug, PartialEq, Eq)]
pub struct Module {
    pub items: Vec<ModuleItem>,
}

// ---------------------------------------------------------------------------
// View functions
// ---------------------------------------------------------------------------

pub open spec fn view_lit(l: Lit) -> LitView {
    match l {
        Lit::Str(s) => LitView::Str(s@),
        Lit::Num(s) => LitView::Num(s@),
        Lit::BigInt(s) => LitView::BigInt(s@),
        Lit::Bool(b) => LitView::Bool(b),
        Lit::Null => LitView::Null,
    }
}

pub open spec fn view_expr(e: Expr) -> ExprView
    decreases e,
{
    match e {
        Expr::Ident(s) => ExprView::Ident(s@),
        Expr::Lit(l) => ExprView::Lit(view_lit(l)),
        Expr::Array(elems) => ExprView::Array(view_opt_expr_seq(elems@)),
        Expr::Object(props) => ExprView::Object(view_prop_seq(props@)),
        Expr::Call(callee, args) => ExprView::Call(
            Box::new(view_expr(*callee)),
            view_expr_seq(args@),
        ),
        Expr::Member(obj, prop) => ExprView::Member(Box::new(view_expr(*obj)), prop@),
        Expr::Jsx(el) => ExprView::Jsx(view_element(*el)),
        Expr::JsxFragment(f) => ExprView::JsxFragment(view_fragment(f)),
    }
}

pub open spec fn view_expr_seq(s: Seq<Expr>) -> Seq<ExprView>
    decreases s,
{
    if s.len() == 0 {
        Seq::empty()
    } else {
        view_expr_seq(s.drop_last()).push(view_expr(s.last()))
    }
}


/// The view of an optional expression.
pub open spec fn view_opt_expr(o: Option<Expr>) -> Option<ExprView> {
    match o {
        Some(e) => Some(view_expr(e)),
        None => None,
    }
}

pub open spec fn view_opt_expr_seq(s: Seq<Option<Expr>>) -> Seq<Option<ExprView>>
    decreases s,
{
    if s.len() == 0 {
        Seq::empty()
    } else {
        view_opt_expr_seq(s.drop_last()).push(
            match s.last() {
                Some(e) => Some(view_expr(e)),
                None => None,
            },
        )
    }
}

pub open spec fn view_prop_key(k: PropKey) -> PropKeyView
    decreases k,
{
    match k {
        PropKey::Ident(s) => PropKeyView::Ident(s@),
        PropKey::Str(s) => PropKeyView::Str(s@),
        PropKey::Num(s) => PropKeyView::Num(s@),
        PropKey::BigInt(s) => PropKeyView::BigInt(s@),
        PropKey::Computed(e) => PropKeyView::Computed(Box::new(view_expr(*e))),
    }
}

pub open spec fn view_prop(p: Prop) -> PropView
    decreases p,
{
    match p {
        Prop::KeyValue(k, v) => PropView::KeyValue(view_prop_key(k), Box::new(view_expr(*v))),
        Prop::Shorthand(s) => PropView::Shorthand(s@),
    }
}

pub open spec fn view_prop_or_spread(p: PropOrSpread) -> PropOrSpreadView
    decreases p,
{
    match p {
        PropOrSpread::Prop(p) => PropOrSpreadView::Prop(view_prop(p)),
        PropOrSpread::Spread(e) => PropOrSpreadView::Spread(Box::new(view_expr(*e))),
    }
}

pub open spec fn view_prop_seq(s: Seq<PropOrSpread>) -> Seq<PropOrSpreadView>
    decreases s,
{
    if s.len() == 0 {
        Seq::empty()
    } else {
        view_prop_seq(s.drop_last()).push(view_prop_or_spread(s.last()))
    }
}

pub open spec fn view_attr_value(v: JsxAttrValue) -> JsxAttrValueView
    decreases v,
{
    match v {
        JsxAttrValue::Lit(l) => JsxAttrValueView::Lit(view_lit(l)),
        JsxAttrValue::Container(e) => JsxAttrValueView::Container(Box::new(view_expr(*e))),
        JsxAttrValue::Empty => JsxAttrValueView::Empty,
    }
}

pub open spec fn view_attr(a: JsxAttr) -> JsxAttrView
    decreases a,
{
    JsxAttrView {
        name: a.name@,
        value: match a.value {
            Some(v) => Some(view_attr_value(v)),
            None => None,
        },
    }
}

pub open spec fn view_attr_seq(s: Seq<JsxAttr>) -> Seq<JsxAttrView>
    decreases s,
{
    if s.len() == 0 {
        Seq::empty()
    } else {
        view_attr_seq(s.drop_last()).push(view_attr(s.last()))
    }
}

pub open spec fn view_element(el: JsxElement) -> JsxElementView
    decreases el,
{
    JsxElementView {
        name: el.name@,
        attrs: view_attr_seq(el.attrs@),
        children: view_child_seq(el.children@),
        self_closing: el.self_closing,
    }
}

pub open spec fn view_fragment(f: JsxFragment) -> JsxFragmentView
    decreases f,
{
    JsxFragmentView { children: view_child_seq(f.children@) }
}

pub open spec fn view_child(c: JsxChild) -> JsxChildView
    decreases c,
{
    match c {
        JsxChild::Element(el) => JsxChildView::Element(view_element(*el)),
        JsxChild::Fragment(f) => JsxChildView::Fragment(view_fragment(f)),
        JsxChild::Text(s) => JsxChildView::Text(s@),
        JsxChild::ExprContainer(e) => JsxChildView::ExprContainer(Box::new(view_expr(*e))),
    }
}

pub open spec fn view_child_seq(s: Seq<JsxChild>) -> Seq<JsxChildView>
    decreases s,
{
    if s.len() == 0 {
        Seq::empty()
    } else {
        view_child_seq(s.drop_last()).push(view_child(s.last()))
    }
}

pub open spec fn view_pat(p: Pat) -> PatView {
    match p {
        Pat::Ident(s) => PatView::Ident(s@),
        Pat::Invalid => PatView::Invalid,
    }
}

pub open spec fn view_declarator(d: VarDeclarator) -> VarDeclaratorView {
    VarDeclaratorView {
        name: view_pat(d.name),
        init: match d.init {
            Some(e) => Some(view_expr(e)),
            None => None,
        },
    }
}

pub open spec fn view_declarator_seq(s: Seq<VarDeclarator>) -> Seq<VarDeclaratorView>
    decreases s,
{
    if s.len() == 0 {
        Seq::empty()
    } else {
        view_declarator_seq(s.drop_last()).push(view_declarator(s.last()))
    }
}

pub open spec fn view_var_kind(k: VarKind) -> VarKindView {
    match k {
        VarKind::Var => VarKindView::Var,
        VarKind::Let => VarKindView::Let,
        VarKind::Const => VarKindView::Const,
    }
}

pub open spec fn view_var_decl(d: VarDecl) -> VarDeclView {
    VarDeclView { kind: view_var_kind(d.kind), decls: view_declarator_seq(d.decls@) }
}

pub open spec fn view_stmt(s: Stmt) -> StmtView {
    match s {
        Stmt::Decl(d) => StmtView::Decl(view_var_decl(d)),
        Stmt::Expr(e) => StmtView::Expr(Box::new(view_expr(*e))),
        Stmt::Empty => StmtView::Empty,
    }
}

pub open spec fn view_import_specifier(s: ImportSpecifier) -> ImportSpecifierView {
    match s {
        ImportSpecifier::Named { local, imported } => ImportSpecifierView::Named {
            local: local@,
            imported: match imported {
                Some(i) => Some(i@),
                None => None,
            },
        },
        ImportSpecifier::Default { local } => ImportSpecifierView::Default { local: local@ },
        ImportSpecifier::Namespace { local } => ImportSpecifierView::Namespace { local: local@ },
    }
}

pub open spec fn view_import_specifier_seq(s: Seq<ImportSpecifier>) -> Seq<ImportSpecifierView>
    decreases s,
{
    if s.len() == 0 {
        Seq::empty()
    } else {
        view_import_specifier_seq(s.drop_last()).push(view_import_specifier(s.last()))
    }
}

pub open spec fn view_import(d: ImportDecl) -> ImportDeclView {
    ImportDeclView { src: d.src@, specifiers: view_import_specifier_seq(d.specifiers@) }
}

pub open spec fn view_item(i: ModuleItem) -> ModuleItemView {
    match i {
        ModuleItem::Import(d) => ModuleItemView::Import(view_import(d)),
        ModuleItem::Stmt(s) => ModuleItemView::Stmt(view_stmt(s)),
        ModuleItem::Export(vd) => ModuleItemView::Export(view_var_decl(vd)),
    }
}

pub open spec fn view_item_seq(s: Seq<ModuleItem>) -> Seq<ModuleItemView>
    decreases s,
{
    if s.len() == 0 {
        Seq::empty()
    } else {
        view_item_seq(s.drop_last()).push(view_item(s.last()))
    }
}

pub open spec fn view_module(m: Module) -> ModuleView {
    ModuleView { items: view_item_seq(m.items@) }
}

// ---------------------------------------------------------------------------
// Facts about the sequence view functions
// ---------------------------------------------------------------------------


/// Pushing onto an expression sequence pushes the view.
pub proof fn lemma_view_expr_seq_push(s: Seq<Expr>, t: Expr)
    ensures
        view_expr_seq(s.push(t)) == view_expr_seq(s).push(view_expr(t)),
{
    assert(s.push(t).drop_last() =~= s);
    assert(s.push(t).last() == t);
}

/// Pushing onto an array-element sequence pushes the view.
pub proof fn lemma_view_opt_expr_seq_push(s: Seq<Option<Expr>>, t: Option<Expr>)
    ensures
        view_opt_expr_seq(s.push(t)) == view_opt_expr_seq(s).push(view_opt_expr(t)),
{
    assert(s.push(t).drop_last() =~= s);
    assert(s.push(t).last() == t);
}

/// Pushing onto a property sequence pushes the view.
pub proof fn lemma_view_prop_seq_push(s: Seq<PropOrSpread>, t: PropOrSpread)
    ensures
        view_prop_seq(s.push(t)) == view_prop_seq(s).push(view_prop_or_spread(t)),
{
    assert(s.push(t).drop_last() =~= s);
    assert(s.push(t).last() == t);
}

/// Pushing onto an attribute sequence pushes the view.
pub proof fn lemma_view_attr_seq_push(s: Seq<JsxAttr>, t: JsxAttr)
    ensures
        view_attr_seq(s.push(t)) == view_attr_seq(s).push(view_attr(t)),
{
    assert(s.push(t).drop_last() =~= s);
    assert(s.push(t).last() == t);
}

/// Pushing onto a child sequence pushes the view.
pub proof fn lemma_view_child_seq_push(s: Seq<JsxChild>, t: JsxChild)
    ensures
        view_child_seq(s.push(t)) == view_child_seq(s).push(view_child(t)),
{
    assert(s.push(t).drop_last() =~= s);
    assert(s.push(t).last() == t);
}

/// Pushing onto a declarator sequence pushes the view.
pub proof fn lemma_view_declarator_seq_push(s: Seq<VarDeclarator>, t: VarDeclarator)
    ensures
        view_declarator_seq(s.push(t)) == view_declarator_seq(s).push(view_declarator(t)),
{
    assert(s.push(t).drop_last() =~= s);
    assert(s.push(t).last() == t);
}

/// Pushing onto a specifier sequence pushes the view.
pub proof fn lemma_view_import_specifier_seq_push(s: Seq<ImportSpecifier>, t: ImportSpecifier)
    ensures
        view_import_specifier_seq(s.push(t)) == view_import_specifier_seq(s).push(
            view_import_specifier(t),
        ),
{
    assert(s.push(t).drop_last() =~= s);
    assert(s.push(t).last() == t);
}

/// Pushing onto an item sequence pushes the view.
pub proof fn lemma_view_item_seq_push(s: Seq<ModuleItem>, t: ModuleItem)
    ensures
        view_item_seq(s.push(t)) == view_item_seq(s).push(view_item(t)),
{
    assert(s.push(t).drop_last() =~= s);
    assert(s.push(t).last() == t);
}

/// Concatenation of child sequences concatenates the views.
pub proof fn lemma_view_child_seq_concat(a: Seq<JsxChild>, b: Seq<JsxChild>)
    ensures
        view_child_seq(a + b) == view_child_seq(a) + view_child_seq(b),
    decreases b.len(),
{
    if b.len() == 0 {
        assert(a + b =~= a);
        assert(view_child_seq(a) + view_child_seq(b) =~= view_child_seq(a));
    } else {
        lemma_view_child_seq_concat(a, b.drop_last());
        assert((a + b).drop_last() =~= a + b.drop_last());
        assert((a + b).last() == b.last());
        assert(view_child_seq(a) + view_child_seq(b) =~= (view_child_seq(a) + view_child_seq(
            b.drop_last(),
        )).push(view_child(b.last())));
    }
}

/// The view of an expression sequence has the element views pointwise.
pub proof fn lemma_view_expr_seq(s: Seq<Expr>)
    ensures
        view_expr_seq(s).len() == s.len(),
        forall|i: int| 0 <= i < s.len() ==> view_expr_seq(s)[i] == view_expr(#[trigger] s[i]),
    decreases s,
{
    if s.len() > 0 {
        lemma_view_expr_seq(s.drop_last());
        assert forall|i: int| 0 <= i < s.len() implies view_expr_seq(s)[i] == view_expr(
            #[trigger] s[i],
        ) by {
            if i < s.len() - 1 {
                assert(s.drop_last()[i] == s[i]);
            }
        }
    }
}

/// The view of an array-element sequence has the element views pointwise.
pub proof fn lemma_view_opt_expr_seq(s: Seq<Option<Expr>>)
    ensures
        view_opt_expr_seq(s).len() == s.len(),
        forall|i: int| 0 <= i < s.len() ==> view_opt_expr_seq(s)[i] == (match #[trigger] s[i] {
            Some(e) => Some(view_expr(e)),
            None => None,
        }),
    decreases s,
{
    if s.len() > 0 {
        lemma_view_opt_expr_seq(s.drop_last());
        assert forall|i: int| 0 <= i < s.len() implies view_opt_expr_seq(s)[i] == (
        match #[trigger] s[i] {
            Some(e) => Some(view_expr(e)),
            None => None,
        }) by {
            if i < s.len() - 1 {
                assert(s.drop_last()[i] == s[i]);
            }
        }
    }
}

/// The view of a property sequence has the property views pointwise.
pub proof fn lemma_view_prop_seq(s: Seq<PropOrSpread>)
    ensures
        view_prop_seq(s).len() == s.len(),
        forall|i: int| 0 <= i < s.len() ==> view_prop_seq(s)[i] == view_prop_or_spread(
            #[trigger] s[i],
        ),
    decreases s,
{
    if s.len() > 0 {
        lemma_view_prop_seq(s.drop_last());
        assert forall|i: int| 0 <= i < s.len() implies view_prop_seq(s)[i] == view_prop_or_spread(
            #[trigger] s[i],
        ) by {
            if i < s.len() - 1 {
                assert(s.drop_last()[i] == s[i]);
            }
        }
    }
}

/// The view of an attribute sequence has the attribute views pointwise.
pub proof fn lemma_view_attr_seq(s: Seq<JsxAttr>)
    ensures
        view_attr_seq(s).len() == s.len(),
        forall|i: int| 0 <= i < s.len() ==> view_attr_seq(s)[i] == view_attr(#[trigger] s[i]),
    decreases s,
{
    if s.len() > 0 {
        lemma_view_attr_seq(s.drop_last());
        assert forall|i: int| 0 <= i < s.len() implies view_attr_seq(s)[i] == view_attr(
            #[trigger] s[i],
        ) by {
            if i < s.len() - 1 {
                assert(s.drop_last()[i] == s[i]);
            }
        }
    }
}

/// The view of a child sequence has the child views pointwise.
pub proof fn lemma_view_child_seq(s: Seq<JsxChild>)
    ensures
        view_child_seq(s).len() == s.len(),
        forall|i: int| 0 <= i < s.len() ==> view_child_seq(s)[i] == view_child(#[trigger] s[i]),
    decreases s,
{
    if s.len() > 0 {
        lemma_view_child_seq(s.drop_last());
        assert forall|i: int| 0 <= i < s.len() implies view_child_seq(s)[i] == view_child(
            #[trigger] s[i],
        ) by {
            if i < s.len() - 1 {
                assert(s.drop_last()[i] == s[i]);
            }
        }
    }
}

/// The view of a declarator sequence has the declarator views pointwise.
pub proof fn lemma_view_declarator_seq(s: Seq<VarDeclarator>)
    ensures
        view_declarator_seq(s).len() == s.len(),
        forall|i: int| 0 <= i < s.len() ==> view_declarator_seq(s)[i] == view_declarator(
            #[trigger] s[i],
        ),
    decreases s,
{
    if s.len() > 0 {
        lemma_view_declarator_seq(s.drop_last());
        assert forall|i: int| 0 <= i < s.len() implies view_declarator_seq(s)[i]
            == view_declarator(#[trigger] s[i]) by {
            if i < s.len() - 1 {
                assert(s.drop_last()[i] == s[i]);
            }
        }
    }
}

/// The view of a specifier sequence has the specifier views pointwise.
pub proof fn lemma_view_import_specifier_seq(s: Seq<ImportSpecifier>)
    ensures
        view_import_specifier_seq(s).len() == s.len(),
        forall|i: int| 0 <= i < s.len() ==> view_import_specifier_seq(s)[i]
            == view_import_specifier(#[trigger] s[i]),
    decreases s,
{
    if s.len() > 0 {
        lemma_view_import_specifier_seq(s.drop_last());
        assert forall|i: int| 0 <= i < s.len() implies view_import_specifier_seq(s)[i]
            == view_import_specifier(#[trigger] s[i]) by {
            if i < s.len() - 1 {
                assert(s.drop_last()[i] == s[i]);
            }
        }
    }
}

/// The view of an item sequence has the item views pointwise.
pub proof fn lemma_view_item_seq(s: Seq<ModuleItem>)
    ensures
        view_item_seq(s).len() == s.len(),
        forall|i: int| 0 <= i < s.len() ==> view_item_seq(s)[i] == view_item(#[trigger] s[i]),
    decreases s,
{
    if s.len() > 0 {
        lemma_view_item_seq(s.drop_last());
        assert forall|i: int| 0 <= i < s.len() implies view_item_seq(s)[i] == view_item(
            #[trigger] s[i],
        ) by {
            if i < s.len() - 1 {
                assert(s.drop_last()[i] == s[i]);
            }
        }
    }
}

} // verus!
