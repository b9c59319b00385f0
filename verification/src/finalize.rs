//! The cleanup pass.
//!
//! Import specifiers bound to pending resolver identifiers are removed, and
//! each removed binding's source module is recorded. An import left with no
//! specifier after removal is deleted, as is any import whose source string
//! is empty. Declarators marked invalid by the rewrite are dropped; a
//! variable declaration left empty becomes an empty statement; empty
//! statements are removed from the module.

use vstd::prelude::*;

use crate::ast::{
    ImportDecl, ImportDeclView, ImportSpecifier, ImportSpecifierView, Module, ModuleItem,
    ModuleItemView, ModuleView, Pat, Stmt, StmtView, VarDecl, VarDeclView, VarDeclarator,
    VarDeclaratorView, lemma_view_declarator_seq, lemma_view_import_specifier_seq,
    lemma_view_item_seq, view_declarator, view_declarator_seq, view_import,
    view_import_specifier, view_import_specifier_seq, view_item, view_item_seq, view_module,
    view_stmt, view_var_decl,
};
use crate::text::{
    lemma_view_pair_seq, lemma_view_pair_seq_push, lemma_view_str_seq, string_eq, view_pair_seq,
    view_str_seq,
};

verus! {

/// The identifier occurs in the pending resolver list.
pub open spec fn in_ids(id: Seq<char>, ids: Seq<Seq<char>>) -> bool {
    exists|j: int| 0 <= j < ids.len() && ids[j] == id
}

/// The predicate under which an import specifier survives the cleanup.
pub open spec fn keep_spec(ids: Seq<Seq<char>>) -> spec_fn(ImportSpecifierView) -> bool {
    |s: ImportSpecifierView| !in_ids(s.local(), ids)
}

/// The origin records of the removed specifiers, in order: each removed
/// binding maps its local name to the import's source module.
pub open spec fn locs_of(
    specs: Seq<ImportSpecifierView>,
    src: Seq<char>,
    ids: Seq<Seq<char>>,
) -> Seq<(Seq<char>, Seq<char>)>
    decreases specs.len(),
{
    if specs.len() == 0 {
        Seq::empty()
    } else {
        locs_of(specs.drop_last(), src, ids) + (if in_ids(specs.last().local(), ids) {
            seq![(specs.last().local(), src)]
        } else {
            Seq::empty()
        })
    }
}

/// What the cleanup does to one import declaration: the specifiers bound to
/// pending resolvers are removed and recorded; the declaration survives as
/// zero items when every specifier was removed (and at least one was), or
/// when its source string is empty, and as one item otherwise.
pub open spec fn fin_import(d: ImportDeclView, ids: Seq<Seq<char>>) -> (
    Seq<ModuleItemView>,
    Seq<(Seq<char>, Seq<char>)>,
) {
    let kept = d.specifiers.filter(keep_spec(ids));
    let locs = locs_of(d.specifiers, d.src, ids);
    if (kept.len() < d.specifiers.len() && kept.len() == 0) || d.src.len() == 0 {
        (Seq::empty(), locs)
    } else {
        (seq![ModuleItemView::Import(ImportDeclView { src: d.src, specifiers: kept })], locs)
    }
}

/// The predicate under which a declarator survives the cleanup.
pub open spec fn keep_decl() -> spec_fn(VarDeclaratorView) -> bool {
    |dv: VarDeclaratorView| !(dv.name is Invalid)
}

/// What the cleanup does to one module item.
pub open spec fn fin_item(it: ModuleItemView, ids: Seq<Seq<char>>) -> (
    Seq<ModuleItemView>,
    Seq<(Seq<char>, Seq<char>)>,
) {
    match it {
        ModuleItemView::Import(d) => fin_import(d, ids),
        ModuleItemView::Stmt(StmtView::Decl(vd)) => {
            let kept = vd.decls.filter(keep_decl());
            if kept.len() == 0 {
                (Seq::empty(), Seq::empty())
            } else {
                (
                    seq![
                        ModuleItemView::Stmt(
                            StmtView::Decl(VarDeclView { kind: vd.kind, decls: kept }),
                        )
                    ],
                    Seq::empty(),
                )
            }
        },
        ModuleItemView::Stmt(StmtView::Empty) => (Seq::empty(), Seq::empty()),
        ModuleItemView::Stmt(StmtView::Expr(_)) => (seq![it], Seq::empty()),
        ModuleItemView::Export(vd) => {
            let kept = vd.decls.filter(keep_decl());
            if kept.len() == 0 {
                (Seq::empty(), Seq::empty())
            } else {
                (
                    seq![ModuleItemView::Export(VarDeclView { kind: vd.kind, decls: kept })],
                    Seq::empty(),
                )
            }
        },
    }
}

/// The cleanup over the module items, in order.
pub open spec fn fin_items(s: Seq<ModuleItemView>, ids: Seq<Seq<char>>) -> (
    Seq<ModuleItemView>,
    Seq<(Seq<char>, Seq<char>)>,
)
    decreases s.len(),
{
    if s.len() == 0 {
        (Seq::empty(), Seq::empty())
    } else {
        let (its, locs) = fin_items(s.drop_last(), ids);
        let (its2, locs2) = fin_item(s.last(), ids);
        (its + its2, locs + locs2)
    }
}

/// The cleanup over a whole module: the pruned module and the resolver
/// origin records, in order of discovery.
pub open spec fn fin_module(m: ModuleView, ids: Seq<Seq<char>>) -> (
    ModuleView,
    Seq<(Seq<char>, Seq<char>)>,
) {
    let (its, locs) = fin_items(m.items, ids);
    (ModuleView { items: its }, locs)
}

/// Import pruning, first half: an import declaration all of whose bindings
/// are pending resolver identifiers is removed from the module entirely.
pub proof fn lemma_import_fully_pruned(d: ImportDeclView, ids: Seq<Seq<char>>)
    requires
        d.specifiers.len() > 0,
        forall|i: int| 0 <= i < d.specifiers.len() ==> in_ids(
            (#[trigger] d.specifiers[i]).local(),
            ids,
        ),
    ensures
        fin_import(d, ids).0 == Seq::<ModuleItemView>::empty(),
{
    assert forall|i: int| 0 <= i < d.specifiers.len() implies !(keep_spec(ids)(
        #[trigger] d.specifiers[i],
    )) by {
        assert(in_ids(d.specifiers[i].local(), ids));
    }
    d.specifiers.lemma_all_neg_filter_empty(keep_spec(ids));
    assert(d.specifiers.filter(keep_spec(ids)).len() == 0);
}

/// Import pruning, second half: an import declaration that also binds a name
/// not bound to a pending resolver survives, keeping exactly the specifiers
/// whose local names are not pending resolver identifiers, in order.
pub proof fn lemma_import_partly_pruned(d: ImportDeclView, ids: Seq<Seq<char>>, w: int)
    requires
        d.src.len() > 0,
        0 <= w < d.specifiers.len(),
        !in_ids(d.specifiers[w].local(), ids),
    ensures
        fin_import(d, ids).0 == seq![
            ModuleItemView::Import(
                ImportDeclView {
                    src: d.src,
                    specifiers: d.specifiers.filter(keep_spec(ids)),
                },
            )
        ],
        forall|j: int| 0 <= j < d.specifiers.filter(keep_spec(ids)).len() ==> !in_ids(
            (#[trigger] d.specifiers.filter(keep_spec(ids))[j]).local(),
            ids,
        ),
{
    broadcast use vstd::seq_lib::group_seq_properties;

    assert(keep_spec(ids)(d.specifiers[w]));
    d.specifiers.lemma_filter_contains(keep_spec(ids), w);
    assert(d.specifiers.filter(keep_spec(ids)).contains(d.specifiers[w]));
    assert(d.specifiers.filter(keep_spec(ids)).len() > 0);
    assert forall|j: int| 0 <= j < d.specifiers.filter(keep_spec(ids)).len() implies !in_ids(
        (#[trigger] d.specifiers.filter(keep_spec(ids))[j]).local(),
        ids,
    ) by {
        d.specifiers.lemma_filter_pred(keep_spec(ids), j);
    }
}

/// Whether the name occurs in the pending resolver list.
fn contains_id(ids: &Vec<String>, x: &String) -> (r: bool)
    ensures
        r == in_ids(x@, view_str_seq(ids@)),
{
    proof {
        lemma_view_str_seq(ids@);
    }
    let ghost vids = view_str_seq(ids@);
    let mut i: usize = 0;
    while i < ids.len()
        invariant
            vids == view_str_seq(ids@),
            vids.len() == ids@.len(),
            forall|j: int| 0 <= j < ids@.len() ==> vids[j] == (#[trigger] ids@[j])@,
            i <= ids@.len(),
            forall|j: int| 0 <= j < i ==> vids[j] != x@,
        decreases ids@.len() - i,
    {
        if string_eq(&ids[i], x) {
            assert(vids[i as int] == x@);
            return true;
        }
        i = i + 1;
    }
    proof {
        if in_ids(x@, vids) {
            let w = choose|w: int| 0 <= w < vids.len() && vids[w] == x@;
            assert(false);
        }
    }
    false
}

/// Cleans up one import declaration; returns the surviving declaration, if
/// any, and the origin records of the removed specifiers.
#[verifier::loop_isolation(false)]
fn fin_import_exec(d: ImportDecl, ids: &Vec<String>) -> (r: (
    Option<ImportDecl>,
    Vec<(String, String)>,
))
    ensures
        ({
            let (its, locs) = fin_import(view_import(d), view_str_seq(ids@));
            &&& view_pair_seq(r.1@) == locs
            &&& match r.0 {
                Some(d2) => its == seq![ModuleItemView::Import(view_import(d2))],
                None => its == Seq::<ModuleItemView>::empty(),
            }
        }),
{
    let ghost vids = view_str_seq(ids@);
    let ghost vd = view_import(d);
    let ImportDecl { src, specifiers } = d;
    let ghost orig = specifiers@;
    let ghost s0 = view_import_specifier_seq(orig);
    proof {
        lemma_view_import_specifier_seq(orig);
        assert(vd.specifiers == s0);
        assert(vd.src == src@);
    }
    let total: usize = specifiers.len();
    let mut items = specifiers;
    let mut kept: Vec<ImportSpecifier> = Vec::new();
    let mut locs: Vec<(String, String)> = Vec::new();
    proof {
        lemma_view_pair_seq(Seq::<(String, String)>::empty());
        assert(view_pair_seq(Seq::<(String, String)>::empty()) =~= Seq::<
            (Seq<char>, Seq<char>),
        >::empty());
        assert(view_import_specifier_seq(Seq::<ImportSpecifier>::empty()) =~= Seq::<
            ImportSpecifierView,
        >::empty());
        assert(s0.take(0).filter(keep_spec(vids)) =~= Seq::<ImportSpecifierView>::empty());
    }
    let mut k: usize = 0;
    while k < total
        invariant
            total == orig.len(),
            s0.len() == total,
            forall|i: int| 0 <= i < total ==> s0[i] == view_import_specifier(#[trigger] orig[i]),
            k <= total,
            items@ == orig.subrange(k as int, total as int),
            view_import_specifier_seq(kept@) == s0.take(k as int).filter(keep_spec(vids)),
            view_pair_seq(locs@) == locs_of(s0.take(k as int), src@, vids),
        decreases total - k,
    {
        let it = items.remove(0);
        proof {
            assert(it == orig[k as int]);
            assert(items@ =~= orig.subrange(k + 1, total as int));
            s0.lemma_take_succ_push(k as int);
            s0.take(k as int).lemma_filter_push(s0[k as int], keep_spec(vids));
            assert(s0.take(k + 1).drop_last() =~= s0.take(k as int));
            assert(s0.take(k + 1).last() == s0[k as int]);
        }
        let local_name: &String = match &it {
            ImportSpecifier::Named { local, .. } => local,
            ImportSpecifier::Default { local } => local,
            ImportSpecifier::Namespace { local } => local,
        };
        proof {
            assert(local_name@ == s0[k as int].local());
        }
        if contains_id(ids, local_name) {
            let pair = (local_name.clone(), src.clone());
            proof {
                assert(!(keep_spec(vids)(s0[k as int])));
                lemma_view_pair_seq_push(locs@, pair);
                assert(view_pair_seq(locs@.push(pair)) =~= locs_of(s0.take(k + 1), src@, vids));
            }
            locs.push(pair);
        } else {
            proof {
                assert(keep_spec(vids)(s0[k as int]));
                crate::ast::lemma_view_import_specifier_seq_push(kept@, it);
                assert(view_import_specifier_seq(kept@.push(it)) =~= s0.take(k + 1).filter(
                    keep_spec(vids),
                ));
                assert(view_pair_seq(locs@) =~= locs_of(s0.take(k + 1), src@, vids));
            }
            kept.push(it);
        }
        k = k + 1;
    }
    proof {
        assert(s0.take(total as int) =~= s0);
    }
    let kept_len: usize = kept.len();
    let had_removal = kept_len < total;
    let src_empty = src.unicode_len() == 0;
    if (had_removal && kept_len == 0) || src_empty {
        (None, locs)
    } else {
        let d2 = ImportDecl { src, specifiers: kept };
        proof {
            assert(view_import(d2) =~= (ImportDeclView {
                src: vd.src,
                specifiers: s0.filter(keep_spec(vids)),
            }));
        }
        (Some(d2), locs)
    }
}

/// Drops the declarators marked invalid by the rewrite.
#[verifier::loop_isolation(false)]
fn fin_decls_exec(decls: Vec<VarDeclarator>) -> (r: Vec<VarDeclarator>)
    ensures
        view_declarator_seq(r@) == view_declarator_seq(decls@).filter(keep_decl()),
{
    let ghost dorig = decls@;
    let ghost d0 = view_declarator_seq(dorig);
    proof {
        lemma_view_declarator_seq(dorig);
        assert(d0.take(0).filter(keep_decl()) =~= Seq::<VarDeclaratorView>::empty());
        assert(view_declarator_seq(Seq::<VarDeclarator>::empty()) =~= Seq::<
            VarDeclaratorView,
        >::empty());
    }
    let dtotal: usize = decls.len();
    let mut ditems = decls;
    let mut dout: Vec<VarDeclarator> = Vec::new();
    let mut j: usize = 0;
    while j < dtotal
        invariant
            dtotal == dorig.len(),
            d0.len() == dtotal,
            forall|i: int| 0 <= i < dtotal ==> d0[i] == view_declarator(#[trigger] dorig[i]),
            j <= dtotal,
            ditems@ == dorig.subrange(j as int, dtotal as int),
            view_declarator_seq(dout@) == d0.take(j as int).filter(keep_decl()),
        decreases dtotal - j,
    {
        let dit = ditems.remove(0);
        proof {
            assert(dit == dorig[j as int]);
            assert(ditems@ =~= dorig.subrange(j + 1, dtotal as int));
            d0.lemma_take_succ_push(j as int);
            d0.take(j as int).lemma_filter_push(d0[j as int], keep_decl());
            assert(d0.take(j + 1).drop_last() =~= d0.take(j as int));
            assert(d0.take(j + 1).last() == d0[j as int]);
        }
        let is_invalid = matches!(&dit.name, Pat::Invalid);
        if is_invalid {
            proof {
                assert(!(keep_decl()(d0[j as int])));
                assert(view_declarator_seq(dout@) =~= d0.take(j + 1).filter(keep_decl()));
            }
        } else {
            proof {
                assert(keep_decl()(d0[j as int]));
                crate::ast::lemma_view_declarator_seq_push(dout@, dit);
                assert(view_declarator_seq(dout@.push(dit)) =~= d0.take(j + 1).filter(
                    keep_decl(),
                ));
            }
            dout.push(dit);
        }
        j = j + 1;
    }
    proof {
        assert(d0.take(dtotal as int) =~= d0);
    }
    dout
}

/// Cleans up a whole module after the rewrite pass, given the pending
/// resolver identifiers; returns the pruned module and the resolver origin
/// records in order of discovery.
#[verifier::loop_isolation(false)]
pub fn finalize_module(m: Module, ids: &Vec<String>) -> (r: (Module, Vec<(String, String)>))
    ensures
        view_module(r.0) == fin_module(view_module(m), view_str_seq(ids@)).0,
        view_pair_seq(r.1@) == fin_module(view_module(m), view_str_seq(ids@)).1,
{
    let ghost vids = view_str_seq(ids@);
    let ghost vm = view_module(m);
    let ghost orig = m.items@;
    let ghost s0 = view_item_seq(orig);
    proof {
        lemma_view_item_seq(orig);
        assert(vm.items == s0);
        lemma_view_pair_seq(Seq::<(String, String)>::empty());
        assert(view_pair_seq(Seq::<(String, String)>::empty()) =~= Seq::<
            (Seq<char>, Seq<char>),
        >::empty());
        assert(view_item_seq(Seq::<ModuleItem>::empty()) =~= Seq::<ModuleItemView>::empty());
    }
    let mut items = m.items;
    let total: usize = items.len();
    let mut out: Vec<ModuleItem> = Vec::new();
    let mut locs: Vec<(String, String)> = Vec::new();
    let mut k: usize = 0;
    while k < total
        invariant
            total == orig.len(),
            s0.len() == total,
            forall|i: int| 0 <= i < total ==> s0[i] == view_item(#[trigger] orig[i]),
            k <= total,
            items@ == orig.subrange(k as int, total as int),
            view_item_seq(out@) == fin_items(s0.take(k as int), vids).0,
            view_pair_seq(locs@) == fin_items(s0.take(k as int), vids).1,
        decreases total - k,
    {
        let it = items.remove(0);
        proof {
            assert(it == orig[k as int]);
            assert(items@ =~= orig.subrange(k + 1, total as int));
            assert(s0.take(k + 1).drop_last() =~= s0.take(k as int));
            assert(s0.take(k + 1).last() == s0[k as int]);
        }
        match it {
            ModuleItem::Import(d) => {
                proof {
                    assert(s0[k as int] == ModuleItemView::Import(view_import(d)));
                }
                let (d2, mut locs2) = fin_import_exec(d, ids);
                proof {
                    crate::text::lemma_view_pair_seq_concat(locs@, locs2@);
                    assert(view_pair_seq(locs@ + locs2@) =~= fin_items(s0.take(k + 1), vids).1);
                }
                locs.append(&mut locs2);
                match d2 {
                    Some(dd) => {
                        proof {
                            crate::ast::lemma_view_item_seq_push(out@, ModuleItem::Import(dd));
                            assert(view_item_seq(out@.push(ModuleItem::Import(dd)))
                                =~= fin_items(s0.take(k + 1), vids).0);
                        }
                        out.push(ModuleItem::Import(dd));
                    },
                    None => {
                        proof {
                            assert(view_item_seq(out@) =~= fin_items(s0.take(k + 1), vids).0);
                        }
                    },
                }
            },
            ModuleItem::Stmt(st) => {
                proof {
                    assert(s0[k as int] == ModuleItemView::Stmt(view_stmt(st)));
                }
                match st {
                    Stmt::Decl(vdc) => {
                        let ghost vvd = view_var_decl(vdc);
                        let VarDecl { kind, decls } = vdc;
                        proof {
                            assert(vvd.decls == view_declarator_seq(decls@));
                        }
                        let dout = fin_decls_exec(decls);
                        proof {
                            lemma_view_declarator_seq(dout@);
                        }
                        if dout.len() == 0 {
                            proof {
                                assert(view_item_seq(out@) =~= fin_items(
                                    s0.take(k + 1),
                                    vids,
                                ).0);
                                assert(view_pair_seq(locs@) =~= fin_items(
                                    s0.take(k + 1),
                                    vids,
                                ).1);
                            }
                        } else {
                            let newit = ModuleItem::Stmt(Stmt::Decl(VarDecl {
                                kind,
                                decls: dout,
                            }));
                            proof {
                                crate::ast::lemma_view_item_seq_push(out@, newit);
                                assert(view_item_seq(out@.push(newit)) =~= fin_items(
                                    s0.take(k + 1),
                                    vids,
                                ).0);
                                assert(view_pair_seq(locs@) =~= fin_items(
                                    s0.take(k + 1),
                                    vids,
                                ).1);
                            }
                            out.push(newit);
                        }
                    },
                    Stmt::Expr(be) => {
                        let newit = ModuleItem::Stmt(Stmt::Expr(be));
                        proof {
                            crate::ast::lemma_view_item_seq_push(out@, newit);
                            assert(view_item_seq(out@.push(newit)) =~= fin_items(
                                s0.take(k + 1),
                                vids,
                            ).0);
                            assert(view_pair_seq(locs@) =~= fin_items(s0.take(k + 1), vids).1);
                        }
                        out.push(newit);
                    },
                    Stmt::Empty => {
                        proof {
                            assert(view_item_seq(out@) =~= fin_items(s0.take(k + 1), vids).0);
                            assert(view_pair_seq(locs@) =~= fin_items(s0.take(k + 1), vids).1);
                        }
                    },
                }
            },
            ModuleItem::Export(vdc) => {
                let ghost vvd = view_var_decl(vdc);
                proof {
                    assert(s0[k as int] == ModuleItemView::Export(vvd));
                }
                let VarDecl { kind, decls } = vdc;
                proof {
                    assert(vvd.decls == view_declarator_seq(decls@));
                }
                let dout = fin_decls_exec(decls);
                proof {
                    lemma_view_declarator_seq(dout@);
                }
                if dout.len() == 0 {
                    proof {
                        assert(view_item_seq(out@) =~= fin_items(s0.take(k + 1), vids).0);
                        assert(view_pair_seq(locs@) =~= fin_items(s0.take(k + 1), vids).1);
                    }
                } else {
                    let newit = ModuleItem::Export(VarDecl { kind, decls: dout });
                    proof {
                        crate::ast::lemma_view_item_seq_push(out@, newit);
                        assert(view_item_seq(out@.push(newit)) =~= fin_items(
                            s0.take(k + 1),
                            vids,
                        ).0);
                        assert(view_pair_seq(locs@) =~= fin_items(s0.take(k + 1), vids).1);
                    }
                    out.push(newit);
                }
            },
        }
        k = k + 1;
    }
    proof {
        assert(s0.take(total as int) =~= s0);
    }
    (Module { items: out }, locs)
}

} // verus!
