//! The shallow import scan that decides whether the DSL is present at all.
//!
//! Only import declarations are inspected. A declaration whose source
//! specifier contains the DSL package name is consumed: its specifier list is
//! cleared (the import never survives into output) and the scan reports which
//! capability groups its named specifiers bound. If no DSL import is found
//! the whole pipeline is skipped and the input text is returned verbatim by
//! the session.

use vstd::prelude::*;

use crate::ast::{
    ImportDecl, ImportDeclView, ImportSpecifier, ImportSpecifierView, Module, ModuleItem,
    ModuleItemView, ModuleView, lemma_view_import_specifier_seq, lemma_view_item_seq, view_import,
    view_item, view_item_seq, view_module,
};
use crate::text::{contains_seq, str_contains, str_eq};

verus! {

/// The package-name fragment that marks an import as a DSL import.
pub open spec fn walnut_pkg() -> Seq<char> {
    "walnut-ts"@
}

pub open spec fn sym_val() -> Seq<char> {
    "$Val"@
}

pub open spec fn sym_pval() -> Seq<char> {
    "$PVal"@
}

pub open spec fn sym_resolve() -> Seq<char> {
    "$Resolve"@
}

pub open spec fn sym_walnut_tag() -> Seq<char> {
    "$Walnut"@
}

/// The three recognized callee names are pairwise distinct.
pub proof fn lemma_syms_distinct()
    ensures
        sym_val() != sym_resolve(),
        sym_pval() != sym_resolve(),
        sym_val() != sym_pval(),
{
    reveal_strlit("$Val");
    reveal_strlit("$PVal");
    reveal_strlit("$Resolve");
    assert("$Val"@.len() == 4);
    assert("$PVal"@.len() == 5);
    assert("$Resolve"@.len() == 8);
}

/// An import declaration whose source names the DSL package.
pub open spec fn is_walnut_import(d: ImportDeclView) -> bool {
    contains_seq(d.src, walnut_pkg())
}

/// The specifier is a named import binding `name`.
pub open spec fn named_is(s: ImportSpecifierView, name: Seq<char>) -> bool {
    match s {
        ImportSpecifierView::Named { local, .. } => local == name,
        _ => false,
    }
}

/// Some specifier of the list is a named import binding `name`.
pub open spec fn binds_in(specs: Seq<ImportSpecifierView>, name: Seq<char>) -> bool {
    exists|j: int| 0 <= j < specs.len() && named_is(specs[j], name)
}

/// Some named specifier of the declaration binds `name`.
pub open spec fn import_binds(d: ImportDeclView, name: Seq<char>) -> bool {
    binds_in(d.specifiers, name)
}

/// The item is a DSL import binding `name` through a named specifier.
pub open spec fn item_binds(it: ModuleItemView, name: Seq<char>) -> bool {
    match it {
        ModuleItemView::Import(d) => is_walnut_import(d) && import_binds(d, name),
        _ => false,
    }
}

/// The item is a DSL import.
pub open spec fn item_is_walnut_import(it: ModuleItemView) -> bool {
    match it {
        ModuleItemView::Import(d) => is_walnut_import(d),
        _ => false,
    }
}

/// Some module item is a DSL import.
pub open spec fn module_has_walnut_import(m: ModuleView) -> bool {
    exists|i: int| 0 <= i < m.items.len() && item_is_walnut_import(m.items[i])
}

/// Some DSL import of the module binds `name` through a named specifier.
pub open spec fn module_binds(m: ModuleView, name: Seq<char>) -> bool {
    exists|i: int| 0 <= i < m.items.len() && item_binds(m.items[i], name)
}

/// A consumed DSL import: empty source, empty specifier list. The cleanup
/// pass removes it from the module.
pub open spec fn consumed_import() -> ImportDeclView {
    ImportDeclView { src: Seq::empty(), specifiers: Seq::empty() }
}

/// An item after the scan: DSL imports are consumed, everything else is kept.
pub open spec fn scan_item_spec(it: ModuleItemView) -> ModuleItemView {
    if item_is_walnut_import(it) {
        ModuleItemView::Import(consumed_import())
    } else {
        it
    }
}

/// The module after the scan.
pub open spec fn scan_module_spec(m: ModuleView) -> ModuleView {
    ModuleView { items: m.items.map_values(|it: ModuleItemView| scan_item_spec(it)) }
}

/// Without a DSL import anywhere, the scan changes nothing.
pub proof fn lemma_scan_without_dsl_import(m: ModuleView)
    requires
        !module_has_walnut_import(m),
    ensures
        scan_module_spec(m) == m,
{
    assert forall|i: int| 0 <= i < m.items.len() implies scan_item_spec(#[trigger] m.items[i])
        == m.items[i] by {
        if item_is_walnut_import(m.items[i]) {
            assert(module_has_walnut_import(m));
        }
    }
    assert(m.items.map_values(|it: ModuleItemView| scan_item_spec(it)) =~= m.items);
    assert(scan_module_spec(m) =~= m);
}

/// What the scan reports: whether to run at all, and which capability groups
/// the DSL imports actually bound.
#[derive(Debug, Clone, Copy, PartialEq, Eq, Structural)]
pub struct ScanFirst {
    pub should_run: bool,
    pub run_val: bool,
    pub run_resolve: bool,
    pub run_jsx: bool,
}

/// Whether the named specifiers of a DSL import bind the given symbol.
fn import_binds_exec(specs: &Vec<ImportSpecifier>, name: &str) -> (r: bool)
    ensures
        r == binds_in(crate::ast::view_import_specifier_seq(specs@), name@),
{
    let ghost vspecs = crate::ast::view_import_specifier_seq(specs@);
    proof {
        lemma_view_import_specifier_seq(specs@);
    }
    let mut j: usize = 0;
    while j < specs.len()
        invariant
            vspecs == crate::ast::view_import_specifier_seq(specs@),
            vspecs.len() == specs@.len(),
            forall|k: int| 0 <= k < specs@.len() ==> vspecs[k] == crate::ast::view_import_specifier(
                #[trigger] specs@[k],
            ),
            j <= specs@.len(),
            forall|k: int| 0 <= k < j ==> !named_is(#[trigger] vspecs[k], name@),
        decreases specs@.len() - j,
    {
        match &specs[j] {
            ImportSpecifier::Named { local, .. } => {
                if str_eq(local.as_str(), name) {
                    assert(named_is(vspecs[j as int], name@));
                    return true;
                }
            },
            _ => {},
        }
        assert(!named_is(vspecs[j as int], name@));
        j = j + 1;
    }
    proof {
        if binds_in(vspecs, name@) {
            let w = choose|w: int| 0 <= w < vspecs.len() && named_is(vspecs[w], name@);
            assert(false);
        }
    }
    false
}

/// Scans the module's import declarations, consuming DSL imports and
/// reporting which DSL capability groups were bound.
pub fn scan_module(m: Module) -> (r: (Module, ScanFirst))
    ensures
        view_module(r.0) == scan_module_spec(view_module(m)),
        r.1.should_run == module_has_walnut_import(view_module(m)),
        r.1.run_val == (module_binds(view_module(m), sym_val()) || module_binds(
            view_module(m),
            sym_pval(),
        )),
        r.1.run_resolve == module_binds(view_module(m), sym_resolve()),
        r.1.run_jsx == module_binds(view_module(m), sym_walnut_tag()),
{
    let ghost orig = view_module(m);
    proof {
        lemma_view_item_seq(m.items@);
    }
    let ghost orig_items = m.items@;
    let mut items = m.items;
    let mut out: Vec<ModuleItem> = Vec::new();
    let mut flags = ScanFirst { should_run: false, run_val: false, run_resolve: false, run_jsx: false };
    let ghost n = orig_items.len();
    let total: usize = items.len();
    proof {
        assert(total == n);
    }
    let mut k: usize = 0;
    while items.len() > 0
        invariant
            orig == (ModuleView { items: view_item_seq(orig_items) }),
            n == orig_items.len(),
            n <= usize::MAX,
            orig.items.len() == n,
            forall|i: int| 0 <= i < n ==> orig.items[i] == view_item(#[trigger] orig_items[i]),
            k <= n,
            items@ == orig_items.subrange(k as int, n as int),
            view_item_seq(out@) =~= orig.items.take(k as int).map_values(
                |it: ModuleItemView| scan_item_spec(it),
            ),
            flags.should_run == exists|i: int|
                0 <= i < k && item_is_walnut_import(#[trigger] orig.items[i]),
            flags.run_val == ((exists|i: int|
                0 <= i < k && item_binds(#[trigger] orig.items[i], sym_val())) || (exists|i: int|
                0 <= i < k && item_binds(#[trigger] orig.items[i], sym_pval()))),
            flags.run_resolve == exists|i: int|
                0 <= i < k && item_binds(#[trigger] orig.items[i], sym_resolve()),
            flags.run_jsx == exists|i: int|
                0 <= i < k && item_binds(#[trigger] orig.items[i], sym_walnut_tag()),
        decreases items@.len(),
    {
        let ghost pre = items@;
        proof {
            assert(pre.len() > 0);
            assert(k < n);
            assert(pre == orig_items.subrange(k as int, n as int));
            assert(pre[0] == orig_items[k as int]);
        }
        let it = items.remove(0);
        proof {
            assert(it == orig_items[k as int]);
            assert(items@ == pre.remove(0));
            assert(items@ =~= orig_items.subrange(k + 1, n as int));
            lemma_view_item_seq(out@);
        }
        let ghost vit = orig.items[k as int];
        match it {
            ModuleItem::Import(d) => {
                proof {
                    assert(vit == ModuleItemView::Import(view_import(d)));
                }
                if str_contains(d.src.as_str(), "walnut-ts") {
                    assert(item_is_walnut_import(vit));
                    if import_binds_exec(&d.specifiers, "$Val") {
                        flags.run_val = true;
                        assert(item_binds(vit, sym_val()));
                    }
                    if import_binds_exec(&d.specifiers, "$PVal") {
                        flags.run_val = true;
                        assert(item_binds(vit, sym_pval()));
                    }
                    if import_binds_exec(&d.specifiers, "$Resolve") {
                        flags.run_resolve = true;
                        assert(item_binds(vit, sym_resolve()));
                    }
                    if import_binds_exec(&d.specifiers, "$Walnut") {
                        flags.run_jsx = true;
                        assert(item_binds(vit, sym_walnut_tag()));
                    }
                    flags.should_run = true;
                    let consumed = ImportDecl { src: String::new(), specifiers: Vec::new() };
                    proof {
                        assert(view_import(consumed) =~= consumed_import());
                    }
                    out.push(ModuleItem::Import(consumed));
                } else {
                    assert(!item_is_walnut_import(vit));
                    out.push(ModuleItem::Import(d));
                }
            },
            ModuleItem::Stmt(s) => {
                assert(!item_is_walnut_import(vit));
                out.push(ModuleItem::Stmt(s));
            },
            ModuleItem::Export(vd) => {
                assert(!item_is_walnut_import(vit));
                out.push(ModuleItem::Export(vd));
            },
        }
        proof {
            assert(view_item(out@[k as int]) == scan_item_spec(vit));
        }
        k = k + 1;
        proof {
            lemma_view_item_seq(out@);
            assert forall|i: int| 0 <= i < k implies view_item_seq(out@)[i]
                == orig.items.take(k as int).map_values(|it: ModuleItemView| scan_item_spec(it))[i]
            by {
                if i < k - 1 {
                    assert(view_item_seq(out@)[i] == view_item(out@[i]));
                }
            }
            assert(view_item_seq(out@) =~= orig.items.take(k as int).map_values(
                |it: ModuleItemView| scan_item_spec(it),
            ));
        }
    }
    proof {
        assert(k == n);
        assert(orig.items.take(n as int) =~= orig.items);
        lemma_view_item_seq(out@);
        assert(view_item_seq(out@) =~= scan_module_spec(orig).items);
    }
    (Module { items: out }, flags)
}

} // verus!
