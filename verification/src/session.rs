//! The stateful session protocol over one input file.
//!
//! A session is constructed from the parsed tree of the input together with
//! the input text, the file identifier used as the resolution base, and the
//! selection key. `run` executes the scan, rewrite and cleanup passes once.
//! When no DSL import is present the original input text becomes the output
//! verbatim. The caller then resolves each pending `(identifier, module)`
//! pair of `pending_resolutions` against the file system, extracts labels
//! from the origin modules, and hands the results to `install_labels`.
//! `get_output` prints the tree at most once and caches the text;
//! `satisfy_resolvers` patches marker placeholders in the cached text, one
//! first-occurrence substitution per `(label, value)` pair, discarding the
//! whole batch on the first unknown label.

use vstd::prelude::*;

use crate::ast::{Module, ModuleView, WalnutError, view_module};
use crate::finalize::{fin_module, finalize_module};
use crate::printer::print_module;
use crate::printer::print_module_exec;
use crate::scan_first::{module_has_walnut_import, scan_module, scan_module_spec};
use crate::text::{
    chars_to_string, copy_chars, lemma_view_pair_seq, lemma_view_pair_seq_push,
    lemma_view_str_seq, lemma_view_str_seq_push, replace_first, replace_first_seq, str_chars,
    string_eq, view_pair_seq, view_str_seq,
};
use crate::transform::{marker_text, tr_module, transform_module};

verus! {

/// What `run` leaves behind, over the ghost model.
pub ghost struct RunOutcome {
    pub module: ModuleView,
    pub output: Option<Seq<char>>,
    pub ids: Seq<Seq<char>>,
    pub locs: Seq<(Seq<char>, Seq<char>)>,
    pub need_resolver: bool,
}

/// What `run` does: without a DSL import the input text is the output
/// verbatim and nothing else happens; otherwise the consumed tree is
/// rewritten and cleaned up, leaving the pending resolver identifiers and
/// their origin records, and the output still unprinted.
pub open spec fn run_spec(m: ModuleView, input: Seq<char>, key: Seq<char>) -> Result<
    RunOutcome,
    WalnutError,
> {
    let scanned = scan_module_spec(m);
    if !module_has_walnut_import(m) {
        Ok(
            RunOutcome {
                module: scanned,
                output: Some(input),
                ids: Seq::empty(),
                locs: Seq::empty(),
                need_resolver: false,
            },
        )
    } else {
        match tr_module(scanned, key) {
            Err(e) => Err(e),
            Ok((m1, ids)) => {
                let (m2, locs) = fin_module(m1, ids);
                Ok(
                    RunOutcome {
                        module: m2,
                        output: None,
                        ids: ids,
                        locs: locs,
                        need_resolver: ids.len() > 0,
                    },
                )
            },
        }
    }
}

/// The ghost value of a cached output.
pub open spec fn view_opt_chars(o: Option<Vec<char>>) -> Option<Seq<char>> {
    match o {
        Some(v) => Some(v@),
        None => None,
    }
}

/// The text `get_output` returns for a given cache and tree: the cache when
/// one exists, the printed tree otherwise.
pub open spec fn session_output(cache: Option<Seq<char>>, m: ModuleView) -> Seq<char> {
    match cache {
        Some(o) => o,
        None => print_module(m),
    }
}

/// Idempotent printing: once `get_output` has cached its text, a later call
/// on the resulting cache returns the identical text, whatever the tree.
pub proof fn lemma_output_idempotent(cache: Option<Seq<char>>, m: ModuleView)
    ensures
        session_output(Some(session_output(cache, m)), m) == session_output(cache, m),
{
}

/// The first label recorded for an identifier, if any.
pub open spec fn lookup_first(pairs: Seq<(Seq<char>, Seq<char>)>, k: Seq<char>, i: int) -> Option<
    Seq<char>,
>
    decreases pairs.len() - i,
    when 0 <= i
{
    if i >= pairs.len() {
        None
    } else if pairs[i].0 == k {
        Some(pairs[i].1)
    } else {
        lookup_first(pairs, k, i + 1)
    }
}

/// The last identifier recorded for a label, if any: a later record for the
/// same label silently overrides an earlier one.
pub open spec fn lookup_last(pairs: Seq<(Seq<char>, Seq<char>)>, k: Seq<char>) -> Option<Seq<char>>
    decreases pairs.len(),
{
    if pairs.len() == 0 {
        None
    } else if pairs.last().0 == k {
        Some(pairs.last().1)
    } else {
        lookup_last(pairs.drop_last(), k)
    }
}

/// Installing resolved labels: for each pending identifier, in order of
/// discovery, its label is appended to the label list and the inverse map
/// when the resolution produced one; an identifier without a label is
/// skipped and affects no other.
pub open spec fn install_spec(ids: Seq<Seq<char>>, resolved: Seq<(Seq<char>, Seq<char>)>) -> (
    Seq<Seq<char>>,
    Seq<(Seq<char>, Seq<char>)>,
)
    decreases ids.len(),
{
    if ids.len() == 0 {
        (Seq::empty(), Seq::empty())
    } else {
        let (ls, mp) = install_spec(ids.drop_last(), resolved);
        match lookup_first(resolved, ids.last(), 0) {
            Some(lbl) => (ls.push(lbl), mp.push((lbl, ids.last()))),
            None => (ls, mp),
        }
    }
}

/// Resolution failure isolation: an identifier whose origin module resolved
/// to a label appears with that label in the installed label list, whether
/// or not any other identifier failed to resolve.
pub proof fn lemma_resolution_isolation(
    ids: Seq<Seq<char>>,
    resolved: Seq<(Seq<char>, Seq<char>)>,
    j: int,
)
    requires
        0 <= j < ids.len(),
        lookup_first(resolved, ids[j], 0) is Some,
    ensures
        install_spec(ids, resolved).0.contains(lookup_first(resolved, ids[j], 0)->0),
    decreases ids.len(),
{
    if j == ids.len() - 1 {
        let (ls, _) = install_spec(ids.drop_last(), resolved);
        assert(install_spec(ids, resolved).0.last() == lookup_first(resolved, ids[j], 0)->0);
    } else {
        assert(ids.drop_last()[j] == ids[j]);
        lemma_resolution_isolation(ids.drop_last(), resolved, j);
        let lbl = lookup_first(resolved, ids[j], 0)->0;
        let (ls, _) = install_spec(ids.drop_last(), resolved);
        let w = choose|w: int| 0 <= w < ls.len() && ls[w] == lbl;
        assert(install_spec(ids, resolved).0[w] == lbl);
    }
}

/// Patching the cached output: each `(label, value)` pair, in order,
/// replaces the first occurrence of its identifier's marker; an unknown
/// label discards the whole batch.
pub open spec fn satisfy_spec(
    out0: Seq<char>,
    map: Seq<(Seq<char>, Seq<char>)>,
    pairs: Seq<(Seq<char>, Seq<char>)>,
) -> Option<Seq<char>>
    decreases pairs.len(),
{
    if pairs.len() == 0 {
        Some(out0)
    } else {
        match satisfy_spec(out0, map, pairs.drop_last()) {
            None => None,
            Some(code) => match lookup_last(map, pairs.last().0) {
                None => None,
                Some(id) => Some(replace_first_seq(code, marker_text(id), pairs.last().1)),
            },
        }
    }
}

/// One transform session over one input file.
pub struct WalnutHandler {
    module: Module,
    walnut_key: String,
    input_code: String,
    entry_id: String,
    output: Option<Vec<char>>,
    /// Whether the rewrite recorded any pending resolver identifier.
    pub need_resolver: bool,
    resolver_labels: Vec<String>,
    label_map: Vec<(String, String)>,
    resolver_ids: Vec<String>,
    resolver_locs: Vec<(String, String)>,
}

impl WalnutHandler {
    pub closed spec fn need_view(&self) -> bool {
        self.need_resolver
    }

    pub closed spec fn module_view(&self) -> ModuleView {
        view_module(self.module)
    }

    pub closed spec fn key_view(&self) -> Seq<char> {
        self.walnut_key@
    }

    pub closed spec fn input_view(&self) -> Seq<char> {
        self.input_code@
    }

    pub closed spec fn entry_view(&self) -> Seq<char> {
        self.entry_id@
    }

    pub closed spec fn output_view(&self) -> Option<Seq<char>> {
        view_opt_chars(self.output)
    }

    pub closed spec fn labels_view(&self) -> Seq<Seq<char>> {
        view_str_seq(self.resolver_labels@)
    }

    pub closed spec fn label_map_view(&self) -> Seq<(Seq<char>, Seq<char>)> {
        view_pair_seq(self.label_map@)
    }

    pub closed spec fn ids_view(&self) -> Seq<Seq<char>> {
        view_str_seq(self.resolver_ids@)
    }

    pub closed spec fn locs_view(&self) -> Seq<(Seq<char>, Seq<char>)> {
        view_pair_seq(self.resolver_locs@)
    }

    /// Builds a session from the parsed tree of the input, the input text,
    /// the file identifier and the selection key.
    pub fn new(module: Module, code: String, id: String, walnut_key: String) -> (r: Self)
        ensures
            r.module_view() == view_module(module),
            r.input_view() == code@,
            r.entry_view() == id@,
            r.key_view() == walnut_key@,
            r.output_view() is None,
            r.need_view() == false,
            r.labels_view() == Seq::<Seq<char>>::empty(),
            r.label_map_view() == Seq::<(Seq<char>, Seq<char>)>::empty(),
            r.ids_view() == Seq::<Seq<char>>::empty(),
            r.locs_view() == Seq::<(Seq<char>, Seq<char>)>::empty(),
    {
        proof {
            lemma_view_str_seq(Seq::<String>::empty());
            lemma_view_pair_seq(Seq::<(String, String)>::empty());
            assert(view_str_seq(Seq::<String>::empty()) =~= Seq::<Seq<char>>::empty());
            assert(view_pair_seq(Seq::<(String, String)>::empty()) =~= Seq::<
                (Seq<char>, Seq<char>),
            >::empty());
        }
        WalnutHandler {
            module,
            walnut_key,
            input_code: code,
            entry_id: id,
            output: None,
            need_resolver: false,
            resolver_labels: Vec::new(),
            label_map: Vec::new(),
            resolver_ids: Vec::new(),
            resolver_locs: Vec::new(),
        }
    }

    /// Runs the scan, rewrite and cleanup passes once.
    pub fn run(&mut self) -> (r: Result<(), WalnutError>)
        ensures
            final(self).key_view() == old(self).key_view(),
            final(self).input_view() == old(self).input_view(),
            final(self).entry_view() == old(self).entry_view(),
            final(self).labels_view() == Seq::<Seq<char>>::empty(),
            final(self).label_map_view() == Seq::<(Seq<char>, Seq<char>)>::empty(),
            match r {
                Ok(()) => {
                    &&& run_spec(old(self).module_view(), old(self).input_view(), old(self).key_view()) matches Ok(o)
                    &&& final(self).module_view() == o.module
                    &&& final(self).output_view() == o.output
                    &&& final(self).ids_view() == o.ids
                    &&& final(self).locs_view() == o.locs
                    &&& final(self).need_view() == o.need_resolver
                },
                Err(e) => {
                    &&& run_spec(old(self).module_view(), old(self).input_view(), old(self).key_view()) == Err::<RunOutcome, WalnutError>(e)
                    &&& final(self).module_view().items.len() == 0
                    &&& final(self).output_view() is None
                    &&& final(self).ids_view().len() == 0
                    &&& final(self).locs_view().len() == 0
                    &&& final(self).need_view() == false
                },
            },
    {
        proof {
            lemma_view_str_seq(Seq::<String>::empty());
            lemma_view_pair_seq(Seq::<(String, String)>::empty());
            assert(view_str_seq(Seq::<String>::empty()) =~= Seq::<Seq<char>>::empty());
            assert(view_pair_seq(Seq::<(String, String)>::empty()) =~= Seq::<
                (Seq<char>, Seq<char>),
            >::empty());
        }
        let mut m = Module { items: Vec::new() };
        core::mem::swap(&mut m, &mut self.module);
        let ghost m0 = view_module(m);
        let (scanned, flags) = scan_module(m);
        if !flags.should_run {
            self.module = scanned;
            let chars = str_chars(self.input_code.as_str());
            self.output = Some(chars);
            self.need_resolver = false;
            self.resolver_labels = Vec::new();
            self.label_map = Vec::new();
            self.resolver_ids = Vec::new();
            self.resolver_locs = Vec::new();
            return Ok(());
        }
        match transform_module(scanned, &self.walnut_key) {
            Err(e) => {
                self.module = Module { items: Vec::new() };
                self.output = None;
                self.need_resolver = false;
                self.resolver_labels = Vec::new();
                self.label_map = Vec::new();
                self.resolver_ids = Vec::new();
                self.resolver_locs = Vec::new();
                Err(e)
            },
            Ok((m2, ids)) => {
                let (m3, locs) = finalize_module(m2, &ids);
                let has_ids = ids.len() > 0;
                proof {
                    lemma_view_str_seq(ids@);
                }
                self.module = m3;
                self.output = None;
                self.need_resolver = has_ids;
                self.resolver_labels = Vec::new();
                self.label_map = Vec::new();
                self.resolver_ids = ids;
                self.resolver_locs = locs;
                Ok(())
            },
        }
    }

    /// The file identifier the session was built with: the base for module
    /// resolution.
    pub fn entry(&self) -> (r: &String)
        ensures
            r@ == self.entry_view(),
    {
        &self.entry_id
    }

    /// The pending `(identifier, origin module specifier)` pairs the caller
    /// has to resolve.
    pub fn pending_resolutions(&self) -> (r: Vec<(String, String)>)
        ensures
            view_pair_seq(r@) == self.locs_view(),
    {
        let ghost l0 = view_pair_seq(self.resolver_locs@);
        proof {
            lemma_view_pair_seq(self.resolver_locs@);
            lemma_view_pair_seq(Seq::<(String, String)>::empty());
            assert(view_pair_seq(Seq::<(String, String)>::empty()) =~= Seq::<
                (Seq<char>, Seq<char>),
            >::empty());
            assert(l0.take(0) =~= Seq::<(Seq<char>, Seq<char>)>::empty());
        }
        let mut out: Vec<(String, String)> = Vec::new();
        let mut i: usize = 0;
        while i < self.resolver_locs.len()
            invariant
                l0 == view_pair_seq(self.resolver_locs@),
                l0.len() == self.resolver_locs@.len(),
                forall|j: int| 0 <= j < self.resolver_locs@.len() ==> l0[j] == ((
                #[trigger] self.resolver_locs@[j]).0@, self.resolver_locs@[j].1@),
                i <= self.resolver_locs@.len(),
                view_pair_seq(out@) == l0.take(i as int),
            decreases self.resolver_locs@.len() - i,
        {
            let p = (self.resolver_locs[i].0.clone(), self.resolver_locs[i].1.clone());
            proof {
                lemma_view_pair_seq_push(out@, p);
                assert(view_pair_seq(out@.push(p)) =~= l0.take(i + 1));
            }
            out.push(p);
            i = i + 1;
        }
        proof {
            assert(l0.take(self.resolver_locs@.len() as int) =~= l0);
        }
        out
    }

    /// Installs the labels the caller resolved: `resolved` maps identifiers
    /// to labels; pending identifiers without an entry are skipped.
    pub fn install_labels(&mut self, resolved: &Vec<(String, String)>)
        ensures
            final(self).labels_view() == install_spec(
                old(self).ids_view(),
                view_pair_seq(resolved@),
            ).0,
            final(self).label_map_view() == install_spec(
                old(self).ids_view(),
                view_pair_seq(resolved@),
            ).1,
            final(self).module_view() == old(self).module_view(),
            final(self).output_view() == old(self).output_view(),
            final(self).ids_view() == old(self).ids_view(),
            final(self).locs_view() == old(self).locs_view(),
            final(self).key_view() == old(self).key_view(),
            final(self).input_view() == old(self).input_view(),
            final(self).entry_view() == old(self).entry_view(),
            final(self).need_view() == old(self).need_view(),
    {
        let ghost rv = view_pair_seq(resolved@);
        let ghost ids0 = view_str_seq(self.resolver_ids@);
        proof {
            lemma_view_pair_seq(resolved@);
            lemma_view_str_seq(self.resolver_ids@);
            lemma_view_str_seq(Seq::<String>::empty());
            lemma_view_pair_seq(Seq::<(String, String)>::empty());
            assert(view_str_seq(Seq::<String>::empty()) =~= Seq::<Seq<char>>::empty());
            assert(view_pair_seq(Seq::<(String, String)>::empty()) =~= Seq::<
                (Seq<char>, Seq<char>),
            >::empty());
            assert(ids0.take(0) =~= Seq::<Seq<char>>::empty());
            assert(install_spec(ids0.take(0), rv).0 =~= Seq::<Seq<char>>::empty());
        }
        let mut labels: Vec<String> = Vec::new();
        let mut map: Vec<(String, String)> = Vec::new();
        let mut i: usize = 0;
        while i < self.resolver_ids.len()
            invariant
                rv == view_pair_seq(resolved@),
                rv.len() == resolved@.len(),
                forall|j: int| 0 <= j < resolved@.len() ==> rv[j] == ((
                #[trigger] resolved@[j]).0@, resolved@[j].1@),
                ids0 == view_str_seq(self.resolver_ids@),
                ids0.len() == self.resolver_ids@.len(),
                forall|j: int| 0 <= j < self.resolver_ids@.len() ==> ids0[j] == (
                #[trigger] self.resolver_ids@[j])@,
                i <= self.resolver_ids@.len(),
                view_str_seq(labels@) == install_spec(ids0.take(i as int), rv).0,
                view_pair_seq(map@) == install_spec(ids0.take(i as int), rv).1,
            decreases self.resolver_ids@.len() - i,
        {
            proof {
                assert(ids0.take(i + 1).drop_last() =~= ids0.take(i as int));
                assert(ids0.take(i + 1).last() == ids0[i as int]);
            }
            let id = &self.resolver_ids[i];
            let looked = Self::lookup_first_exec(resolved, id);
            match looked {
                Some(lbl) => {
                    let entry = (lbl.clone(), id.clone());
                    proof {
                        lemma_view_str_seq_push(labels@, lbl);
                        lemma_view_pair_seq_push(map@, entry);
                    }
                    labels.push(lbl);
                    map.push(entry);
                    proof {
                        assert(view_str_seq(labels@) =~= install_spec(ids0.take(i + 1), rv).0);
                        assert(view_pair_seq(map@) =~= install_spec(ids0.take(i + 1), rv).1);
                    }
                },
                None => {
                    proof {
                        assert(view_str_seq(labels@) =~= install_spec(ids0.take(i + 1), rv).0);
                        assert(view_pair_seq(map@) =~= install_spec(ids0.take(i + 1), rv).1);
                    }
                },
            }
            i = i + 1;
        }
        proof {
            assert(ids0.take(self.resolver_ids@.len() as int) =~= ids0);
        }
        self.resolver_labels = labels;
        self.label_map = map;
    }

    /// The first label recorded for an identifier.
    fn lookup_first_exec(pairs: &Vec<(String, String)>, k: &String) -> (r: Option<String>)
        ensures
            match r {
                Some(v) => lookup_first(view_pair_seq(pairs@), k@, 0) == Some(v@),
                None => lookup_first(view_pair_seq(pairs@), k@, 0) is None,
            },
    {
        let ghost p0 = view_pair_seq(pairs@);
        proof {
            lemma_view_pair_seq(pairs@);
        }
        let mut i: usize = 0;
        while i < pairs.len()
            invariant
                p0 == view_pair_seq(pairs@),
                p0.len() == pairs@.len(),
                forall|j: int| 0 <= j < pairs@.len() ==> p0[j] == ((#[trigger] pairs@[j]).0@,
                pairs@[j].1@),
                i <= pairs@.len(),
                lookup_first(p0, k@, 0) == lookup_first(p0, k@, i as int),
            decreases pairs@.len() - i,
        {
            if string_eq(&pairs[i].0, k) {
                assert(p0[i as int].0 == k@);
                return Some(pairs[i].1.clone());
            }
            i = i + 1;
        }
        None
    }

    /// The last identifier recorded for a label.
    fn lookup_last_exec(pairs: &Vec<(String, String)>, k: &String) -> (r: Option<String>)
        ensures
            match r {
                Some(v) => lookup_last(view_pair_seq(pairs@), k@) == Some(v@),
                None => lookup_last(view_pair_seq(pairs@), k@) is None,
            },
    {
        let ghost p0 = view_pair_seq(pairs@);
        proof {
            lemma_view_pair_seq(pairs@);
        }
        let mut best: Option<String> = None;
        let mut i: usize = 0;
        while i < pairs.len()
            invariant
                p0 == view_pair_seq(pairs@),
                p0.len() == pairs@.len(),
                forall|j: int| 0 <= j < pairs@.len() ==> p0[j] == ((#[trigger] pairs@[j]).0@,
                pairs@[j].1@),
                i <= pairs@.len(),
                match best {
                    Some(v) => lookup_last(p0.take(i as int), k@) == Some(v@),
                    None => lookup_last(p0.take(i as int), k@) is None,
                },
            decreases pairs@.len() - i,
        {
            proof {
                assert(p0.take(i + 1).drop_last() =~= p0.take(i as int));
                assert(p0.take(i + 1).last() == p0[i as int]);
            }
            if string_eq(&pairs[i].0, k) {
                best = Some(pairs[i].1.clone());
            }
            i = i + 1;
        }
        proof {
            assert(p0.take(pairs@.len() as int) =~= p0);
        }
        best
    }

    /// Prints the tree on the first call and caches the text; later calls
    /// return the cached text unchanged.
    pub fn get_output(&mut self) -> (r: String)
        ensures
            r@ == session_output(old(self).output_view(), old(self).module_view()),
            final(self).output_view() == Some(
                session_output(old(self).output_view(), old(self).module_view()),
            ),
            final(self).module_view() == old(self).module_view(),
            final(self).key_view() == old(self).key_view(),
            final(self).input_view() == old(self).input_view(),
            final(self).entry_view() == old(self).entry_view(),
            final(self).labels_view() == old(self).labels_view(),
            final(self).label_map_view() == old(self).label_map_view(),
            final(self).ids_view() == old(self).ids_view(),
            final(self).locs_view() == old(self).locs_view(),
            final(self).need_view() == old(self).need_view(),
    {
        if self.output.is_none() {
            let printed = print_module_exec(&self.module);
            self.output = Some(printed);
        }
        match &self.output {
            Some(v) => chars_to_string(v),
            None => {
                proof {
                    assert(false);
                }
                String::new()
            },
        }
    }

    /// The resolved label list, in order of discovery.
    pub fn get_resolver_labels(&self) -> (r: Vec<String>)
        ensures
            view_str_seq(r@) == self.labels_view(),
    {
        let ghost l0 = view_str_seq(self.resolver_labels@);
        proof {
            lemma_view_str_seq(self.resolver_labels@);
            lemma_view_str_seq(Seq::<String>::empty());
            assert(view_str_seq(Seq::<String>::empty()) =~= Seq::<Seq<char>>::empty());
            assert(l0.take(0) =~= Seq::<Seq<char>>::empty());
        }
        let mut out: Vec<String> = Vec::new();
        let mut i: usize = 0;
        while i < self.resolver_labels.len()
            invariant
                l0 == view_str_seq(self.resolver_labels@),
                l0.len() == self.resolver_labels@.len(),
                forall|j: int| 0 <= j < self.resolver_labels@.len() ==> l0[j] == (
                #[trigger] self.resolver_labels@[j])@,
                i <= self.resolver_labels@.len(),
                view_str_seq(out@) == l0.take(i as int),
            decreases self.resolver_labels@.len() - i,
        {
            let s = self.resolver_labels[i].clone();
            proof {
                lemma_view_str_seq_push(out@, s);
                assert(view_str_seq(out@.push(s)) =~= l0.take(i + 1));
            }
            out.push(s);
            i = i + 1;
        }
        proof {
            assert(l0.take(self.resolver_labels@.len() as int) =~= l0);
        }
        out
    }

    /// Patches the cached output text: for each `(label, value)` pair, in
    /// order, the first occurrence of the label's marker is replaced by the
    /// value; an unknown label discards the whole batch, leaving the cached
    /// text as `get_output` produced it.
    #[verifier::loop_isolation(false)]
    pub fn satisfy_resolvers(&mut self, pairs: &Vec<(String, String)>)
        ensures
            ({
                let out0 = session_output(old(self).output_view(), old(self).module_view());
                match satisfy_spec(out0, old(self).label_map_view(), view_pair_seq(pairs@)) {
                    Some(code) => final(self).output_view() == Some(code),
                    None => final(self).output_view() == Some(out0),
                }
            }),
            final(self).module_view() == old(self).module_view(),
            final(self).key_view() == old(self).key_view(),
            final(self).input_view() == old(self).input_view(),
            final(self).entry_view() == old(self).entry_view(),
            final(self).labels_view() == old(self).labels_view(),
            final(self).label_map_view() == old(self).label_map_view(),
            final(self).ids_view() == old(self).ids_view(),
            final(self).locs_view() == old(self).locs_view(),
            final(self).need_view() == old(self).need_view(),
    {
        let ghost pv = view_pair_seq(pairs@);
        let ghost mv = view_pair_seq(self.label_map@);
        proof {
            lemma_view_pair_seq(pairs@);
        }
        if self.output.is_none() {
            let printed = print_module_exec(&self.module);
            self.output = Some(printed);
        }
        proof {
            assert(view_opt_chars(self.output) == Some(
                session_output(old(self).output_view(), old(self).module_view()),
            ));
        }
        let ghost out0 = view_opt_chars(self.output)->0;
        let mut code: Vec<char> = match &self.output {
            Some(v) => copy_chars(v),
            None => {
                proof {
                    assert(false);
                }
                Vec::new()
            },
        };
        proof {
            assert(pv.take(0) =~= Seq::<(Seq<char>, Seq<char>)>::empty());
        }
        let mut i: usize = 0;
        while i < pairs.len()
            invariant
                pv == view_pair_seq(pairs@),
                pv.len() == pairs@.len(),
                forall|j: int| 0 <= j < pairs@.len() ==> pv[j] == ((#[trigger] pairs@[j]).0@,
                pairs@[j].1@),
                mv == view_pair_seq(self.label_map@),
                i <= pairs@.len(),
                satisfy_spec(out0, mv, pv.take(i as int)) == Some(code@),
            decreases pairs@.len() - i,
        {
            proof {
                assert(pv.take(i + 1).drop_last() =~= pv.take(i as int));
                assert(pv.take(i + 1).last() == pv[i as int]);
            }
            let label = &pairs[i].0;
            let value = &pairs[i].1;
            match Self::lookup_last_exec(&self.label_map, label) {
                None => {
                    proof {
                        assert(satisfy_spec(out0, mv, pv.take(i + 1)) is None);
                        Self::lemma_satisfy_none(out0, mv, pv, i + 1);
                    }
                    return ;
                },
                Some(id) => {
                    let marker = crate::transform::marker_string(&id);
                    let marker_chars = str_chars(marker.as_str());
                    let value_chars = str_chars(value.as_str());
                    let new_code = replace_first(&code, &marker_chars, &value_chars);
                    proof {
                        assert(satisfy_spec(out0, mv, pv.take(i + 1)) == Some(new_code@));
                    }
                    code = new_code;
                },
            }
            i = i + 1;
        }
        proof {
            assert(pv.take(pairs@.len() as int) =~= pv);
        }
        self.output = Some(code);
    }

    /// A batch that has failed on some prefix stays failed.
    proof fn lemma_satisfy_none(
        out0: Seq<char>,
        map: Seq<(Seq<char>, Seq<char>)>,
        pairs: Seq<(Seq<char>, Seq<char>)>,
        i: int,
    )
        requires
            0 <= i <= pairs.len(),
            satisfy_spec(out0, map, pairs.take(i)) is None,
        ensures
            satisfy_spec(out0, map, pairs) is None,
        decreases pairs.len() - i,
    {
        if i < pairs.len() {
            assert(pairs.take(i + 1).drop_last() =~= pairs.take(i));
            Self::lemma_satisfy_none(out0, map, pairs, i + 1);
        } else {
            assert(pairs.take(i) =~= pairs);
        }
    }
}

/// Fast-path identity: for an input whose tree holds no DSL import, `run`
/// succeeds, leaves the tree as it was, and the session's output text is the
/// input text, byte for byte.
pub proof fn lemma_fast_path(m: ModuleView, input: Seq<char>, key: Seq<char>)
    requires
        !module_has_walnut_import(m),
    ensures
        run_spec(m, input, key) matches Ok(o) && o.module == m && session_output(
            o.output,
            o.module,
        ) == input,
{
    crate::scan_first::lemma_scan_without_dsl_import(m);
}

} // verus!
