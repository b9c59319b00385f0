use walnut_ts::ast::{
    Expr, ImportDecl, ImportSpecifier, JsxAttr, JsxAttrValue, JsxChild, JsxElement, Lit, Module,
    ModuleItem, Pat, Prop, PropKey, PropOrSpread, Stmt, VarDecl, VarDeclarator, VarKind,
    WalnutError,
};
use walnut_ts::resolver::{extract_resolver_label, resolve_dependencies};
use walnut_ts::select::select_value;
use walnut_ts::session::WalnutHandler;

fn ident(s: &str) -> Expr {
    Expr::Ident(String::from(s))
}

fn num(s: &str) -> Expr {
    Expr::Lit(Lit::Num(String::from(s)))
}

fn string_lit(s: &str) -> Expr {
    Expr::Lit(Lit::Str(String::from(s)))
}

fn call(callee: Expr, args: Vec<Expr>) -> Expr {
    Expr::Call(Box::new(callee), args)
}

fn kv(key: &str, value: Expr) -> PropOrSpread {
    PropOrSpread::Prop(Prop::KeyValue(PropKey::Ident(String::from(key)), Box::new(value)))
}

fn const_decl(name: &str, init: Expr) -> ModuleItem {
    ModuleItem::Stmt(Stmt::Decl(VarDecl {
        kind: VarKind::Const,
        decls: vec![VarDeclarator { name: Pat::Ident(String::from(name)), init: Some(init) }],
    }))
}

fn named_import(src: &str, names: &[&str]) -> ModuleItem {
    ModuleItem::Import(ImportDecl {
        src: String::from(src),
        specifiers: names
            .iter()
            .map(|n| ImportSpecifier::Named { local: String::from(*n), imported: None })
            .collect(),
    })
}

fn handler(module: Module, code: &str, key: &str) -> WalnutHandler {
    WalnutHandler::new(module, String::from(code), String::from("/src/index.tsx"), String::from(key))
}

fn val_call_module(key_import: &str, props: Vec<PropOrSpread>) -> Module {
    Module {
        items: vec![
            named_import("walnut-ts", &[key_import]),
            const_decl("x", call(ident(key_import), vec![Expr::Object(props)])),
        ],
    }
}

#[test]
fn fast_path_identity() {
    let module = Module {
        items: vec![named_import("react", &["useState"]), const_decl("n", num("1"))],
    };
    let mut h = handler(module, "const n = 1; // original text, kept verbatim", "a");
    h.run().unwrap();
    assert_eq!(h.get_output(), "const n = 1; // original text, kept verbatim");
    assert!(!h.need_resolver);
    assert!(h.get_resolver_labels().is_empty());
}

#[test]
fn value_selection_matching_key() {
    let module = val_call_module("$Val", vec![kv("a", num("1")), kv("b", num("2"))]);
    let mut h = handler(module, "irrelevant", "b");
    h.run().unwrap();
    assert_eq!(h.get_output(), "const x = 2;\n");
}

#[test]
fn value_selection_fallback_to_first() {
    let module = val_call_module("$Val", vec![kv("a", num("1")), kv("b", num("2"))]);
    let mut h = handler(module, "irrelevant", "z");
    h.run().unwrap();
    assert_eq!(h.get_output(), "const x = 1;\n");
}

#[test]
fn value_selection_pval_behaves_like_val() {
    let module = val_call_module("$PVal", vec![kv("a", string_lit("left")), kv("b", string_lit("right"))]);
    let mut h = handler(module, "irrelevant", "b");
    h.run().unwrap();
    assert_eq!(h.get_output(), "const x = \"right\";\n");
}

#[test]
fn spread_rejection_is_fatal() {
    let module = val_call_module(
        "$Val",
        vec![kv("a", num("1")), PropOrSpread::Spread(Box::new(ident("rest")))],
    );
    let mut h = handler(module, "irrelevant", "a");
    assert_eq!(h.run(), Err(WalnutError::UnsupportedSpread));
}

#[test]
fn shorthand_property_is_fatal() {
    let module = val_call_module(
        "$Val",
        vec![PropOrSpread::Prop(Prop::Shorthand(String::from("a")))],
    );
    let mut h = handler(module, "irrelevant", "a");
    assert_eq!(h.run(), Err(WalnutError::MissingPropertyValue));
}

#[test]
fn computed_key_is_fatal() {
    let module = val_call_module(
        "$Val",
        vec![PropOrSpread::Prop(Prop::KeyValue(
            PropKey::Computed(Box::new(ident("k"))),
            Box::new(num("1")),
        ))],
    );
    let mut h = handler(module, "irrelevant", "a");
    assert_eq!(h.run(), Err(WalnutError::InvalidKeyKind));
}

#[test]
fn empty_object_invalidates_declarator() {
    let module = val_call_module("$Val", vec![]);
    let mut h = handler(module, "irrelevant", "a");
    h.run().unwrap();
    // The declarator is dropped entirely by cleanup.
    assert_eq!(h.get_output(), "");
}

#[test]
fn select_value_direct() {
    let props = vec![kv("a", num("1")), kv("b", num("2"))];
    let r = select_value(props, &String::from("b"));
    assert_eq!(r, Ok(Some(num("2"))));

    let r2 = select_value(vec![], &String::from("b"));
    assert_eq!(r2, Ok(None));

    let r3 = select_value(
        vec![PropOrSpread::Spread(Box::new(ident("rest")))],
        &String::from("b"),
    );
    assert_eq!(r3, Err(WalnutError::UnsupportedSpread));

    // Keys are compared on textual form: a numeric key "2" matches "2".
    let r4 = select_value(
        vec![PropOrSpread::Prop(Prop::KeyValue(
            PropKey::Num(String::from("2")),
            Box::new(string_lit("two")),
        ))],
        &String::from("2"),
    );
    assert_eq!(r4, Ok(Some(string_lit("two"))));
}

fn resolve_module() -> Module {
    Module {
        items: vec![
            named_import("walnut-ts", &["$Resolve"]),
            named_import("./resolvers", &["fooResolver"]),
            const_decl("x", call(ident("$Resolve"), vec![ident("fooResolver")])),
        ],
    }
}

fn origin_module(label: &str) -> Module {
    Module {
        items: vec![const_decl(
            "fooResolver",
            call(
                Expr::Member(Box::new(ident("Walnut")), String::from("makeResolver")),
                vec![string_lit(label)],
            ),
        )],
    }
}

#[test]
fn resolve_round_trip() {
    let mut h = handler(resolve_module(), "irrelevant", "a");
    h.run().unwrap();
    assert!(h.need_resolver);

    let pending = h.pending_resolutions();
    assert_eq!(
        pending,
        vec![(String::from("fooResolver"), String::from("./resolvers"))]
    );

    // What the caller would do per pending pair: resolve and parse the origin
    // module, then extract the label.
    let origin = origin_module("my-label");
    let label = extract_resolver_label(&origin, &String::from("fooResolver")).unwrap();
    assert_eq!(label, "my-label");

    h.install_labels(&vec![(String::from("fooResolver"), label)]);
    assert_eq!(h.get_resolver_labels(), vec![String::from("my-label")]);

    assert_eq!(h.get_output(), "const x = \"/* __wres_fooResolver */\";\n");

    h.satisfy_resolvers(&vec![(String::from("my-label"), String::from("42"))]);
    assert_eq!(h.get_output(), "const x = \"42\";\n");
}

#[test]
fn satisfy_unknown_label_discards_batch() {
    let mut h = handler(resolve_module(), "irrelevant", "a");
    h.run().unwrap();
    h.install_labels(&vec![(String::from("fooResolver"), String::from("my-label"))]);
    let before = h.get_output();
    h.satisfy_resolvers(&vec![
        (String::from("unknown-label"), String::from("1")),
        (String::from("my-label"), String::from("2")),
    ]);
    assert_eq!(h.get_output(), before);
}

#[test]
fn resolve_non_identifier_argument_is_ignored() {
    let module = Module {
        items: vec![
            named_import("walnut-ts", &["$Resolve"]),
            const_decl("x", call(ident("$Resolve"), vec![num("3")])),
        ],
    };
    let mut h = handler(module, "irrelevant", "a");
    h.run().unwrap();
    assert!(!h.need_resolver);
    assert_eq!(h.get_output(), "const x = $Resolve(3);\n");
}

#[test]
fn import_pruning() {
    let module = Module {
        items: vec![
            named_import("walnut-ts", &["$Resolve"]),
            named_import("./lib", &["fooResolver", "useState"]),
            const_decl("x", call(ident("$Resolve"), vec![ident("fooResolver")])),
        ],
    };
    let mut h = handler(module, "irrelevant", "a");
    h.run().unwrap();
    let out = h.get_output();
    // The DSL-only import is gone; the mixed import keeps the ordinary name.
    assert!(out.contains("import { useState } from \"./lib\";"));
    assert!(!out.contains("walnut-ts"));
    assert!(!out.contains("fooResolver } from"));
}

#[test]
fn import_with_only_dsl_names_is_removed() {
    let mut h = handler(resolve_module(), "irrelevant", "a");
    h.run().unwrap();
    let out = h.get_output();
    assert!(!out.contains("import"));
    assert!(!out.contains("./resolvers"));
}

fn walnut_child(keys: JsxAttrValue, children: Vec<JsxChild>, self_closing: bool) -> JsxChild {
    JsxChild::Element(Box::new(JsxElement {
        name: String::from("$Walnut"),
        attrs: vec![JsxAttr { name: String::from("key"), value: Some(keys) }],
        children,
        self_closing,
    }))
}

fn jsx_module(child: JsxChild) -> Module {
    Module {
        items: vec![
            named_import("walnut-ts", &["$Walnut"]),
            ModuleItem::Stmt(Stmt::Expr(Box::new(Expr::Jsx(Box::new(JsxElement {
                name: String::from("div"),
                attrs: vec![],
                children: vec![child],
                self_closing: false,
            }))))),
        ],
    }
}

#[test]
fn jsx_matching_key_splices_children() {
    let child = walnut_child(
        JsxAttrValue::Lit(Lit::Str(String::from("x"))),
        vec![JsxChild::Text(String::from("A"))],
        false,
    );
    let mut h = handler(jsx_module(child), "irrelevant", "x");
    h.run().unwrap();
    assert_eq!(h.get_output(), "<div>A</div>;\n");
}

#[test]
fn jsx_non_matching_key_drops_subtree() {
    let child = walnut_child(
        JsxAttrValue::Lit(Lit::Str(String::from("x"))),
        vec![JsxChild::Text(String::from("A"))],
        false,
    );
    let mut h = handler(jsx_module(child), "irrelevant", "y");
    h.run().unwrap();
    assert_eq!(h.get_output(), "<div></div>;\n");
}

#[test]
fn jsx_self_closing_is_never_filtered() {
    let child = walnut_child(JsxAttrValue::Lit(Lit::Str(String::from("x"))), vec![], true);
    let mut h = handler(jsx_module(child), "irrelevant", "x");
    h.run().unwrap();
    assert_eq!(h.get_output(), "<div><$Walnut key=\"x\" /></div>;\n");
}

#[test]
fn jsx_array_key_set() {
    let keys = JsxAttrValue::Container(Box::new(Expr::Array(vec![
        Some(string_lit("a")),
        Some(string_lit("b")),
    ])));
    let child = walnut_child(keys, vec![JsxChild::Text(String::from("B"))], false);
    let mut h = handler(jsx_module(child), "irrelevant", "b");
    h.run().unwrap();
    assert_eq!(h.get_output(), "<div>B</div>;\n");
}

#[test]
fn idempotent_printing() {
    let module = val_call_module("$Val", vec![kv("a", num("1"))]);
    let mut h = handler(module, "irrelevant", "a");
    h.run().unwrap();
    let first = h.get_output();
    let second = h.get_output();
    assert_eq!(first, second);
}

#[test]
fn resolution_failure_isolation() {
    let module = Module {
        items: vec![
            named_import("walnut-ts", &["$Resolve"]),
            named_import("./missing", &["badResolver"]),
            named_import("./present", &["goodResolver"]),
            const_decl("a", call(ident("$Resolve"), vec![ident("badResolver")])),
            const_decl("b", call(ident("$Resolve"), vec![ident("goodResolver")])),
        ],
    };
    let mut h = handler(module, "irrelevant", "a");
    h.run().unwrap();
    let pending = h.pending_resolutions();
    assert_eq!(pending.len(), 2);
    // The first origin fails to resolve; only the second produces a label.
    h.install_labels(&vec![(String::from("goodResolver"), String::from("good-label"))]);
    assert_eq!(h.get_resolver_labels(), vec![String::from("good-label")]);
}

#[test]
fn extract_label_requires_fixed_shape() {
    // Not the fixed factory shape: wrong namespace.
    let wrong = Module {
        items: vec![const_decl(
            "fooResolver",
            call(
                Expr::Member(Box::new(ident("Other")), String::from("makeResolver")),
                vec![string_lit("nope")],
            ),
        )],
    };
    assert_eq!(extract_resolver_label(&wrong, &String::from("fooResolver")), None);

    // Non-literal first argument.
    let nonlit = Module {
        items: vec![const_decl(
            "fooResolver",
            call(
                Expr::Member(Box::new(ident("Walnut")), String::from("makeResolver")),
                vec![ident("dynamic")],
            ),
        )],
    };
    assert_eq!(extract_resolver_label(&nonlit, &String::from("fooResolver")), None);

    // No binding of that name at all.
    let other = origin_module("lbl");
    assert_eq!(extract_resolver_label(&other, &String::from("barResolver")), None);
}

#[test]
fn resolve_dependencies_lists_import_specifiers() {
    let module = Module {
        items: vec![
            named_import("react", &["useState"]),
            const_decl("n", num("1")),
            named_import("./util", &["helper"]),
        ],
    };
    let deps = resolve_dependencies(&module);
    assert_eq!(deps, vec![String::from("react"), String::from("./util")]);
}

#[test]
fn printer_formats() {
    // A DSL import forces the full pipeline, so the output below is the
    // crate's own printed form of the remaining items.
    let module2 = Module {
        items: vec![
            named_import("walnut-ts", &["$Val"]),
            ModuleItem::Import(ImportDecl {
                src: String::from("./m"),
                specifiers: vec![
                    ImportSpecifier::Namespace { local: String::from("ns") },
                    ImportSpecifier::Default { local: String::from("d") },
                    ImportSpecifier::Named {
                        local: String::from("b"),
                        imported: Some(String::from("a")),
                    },
                ],
            }),
            const_decl(
                "o",
                Expr::Object(vec![
                    kv("a", num("1")),
                    PropOrSpread::Prop(Prop::KeyValue(
                        PropKey::Str(String::from("two words")),
                        Box::new(string_lit("say \"hi\"")),
                    )),
                ]),
            ),
        ],
    };
    let mut h2 = handler(module2, "irrelevant", "zzz");
    h2.run().unwrap();
    assert_eq!(
        h2.get_output(),
        "import * as ns from \"./m\";\nimport { default as d, a as b } from \"./m\";\nconst o = { a: 1, \"two words\": \"say \\\"hi\\\"\" };\n"
    );
}

#[test]
fn val_call_nested_in_initializer_replaces_whole_initializer() {
    // The first DSL call site is found anywhere in the initializer subtree;
    // a value-selection call then replaces the entire initializer.
    let module = Module {
        items: vec![
            named_import("walnut-ts", &["$Val"]),
            const_decl(
                "x",
                call(
                    ident("f"),
                    vec![call(ident("$Val"), vec![Expr::Object(vec![kv("a", num("1"))])]), num("2")],
                ),
            ),
        ],
    };
    let mut h = handler(module, "irrelevant", "a");
    h.run().unwrap();
    assert_eq!(h.get_output(), "const x = 1;\n");
}

#[test]
fn resolve_nested_in_initializer_is_replaced_in_place() {
    let module = Module {
        items: vec![
            named_import("walnut-ts", &["$Resolve"]),
            named_import("./resolvers", &["foo"]),
            const_decl("x", call(ident("f"), vec![call(ident("$Resolve"), vec![ident("foo")])])),
        ],
    };
    let mut h = handler(module, "irrelevant", "a");
    h.run().unwrap();
    assert_eq!(h.get_output(), "const x = f(\"/* __wres_foo */\");\n");
}

#[test]
fn satisfy_replaces_first_occurrence_exactly_once() {
    // The same identifier is resolved twice, so its marker appears twice;
    // one (label, value) pair patches only the first occurrence.
    let module = Module {
        items: vec![
            named_import("walnut-ts", &["$Resolve"]),
            named_import("./resolvers", &["foo"]),
            const_decl("a", call(ident("$Resolve"), vec![ident("foo")])),
            const_decl("b", call(ident("$Resolve"), vec![ident("foo")])),
        ],
    };
    let mut h = handler(module, "irrelevant", "a");
    h.run().unwrap();
    h.install_labels(&vec![(String::from("foo"), String::from("L"))]);
    // Duplicate pending identifiers keep their positional duplicates.
    assert_eq!(h.get_resolver_labels(), vec![String::from("L"), String::from("L")]);
    h.satisfy_resolvers(&vec![(String::from("L"), String::from("9"))]);
    assert_eq!(
        h.get_output(),
        "const a = \"9\";\nconst b = \"/* __wres_foo */\";\n"
    );
}

#[test]
fn duplicate_labels_let_the_later_identifier_win() {
    // Two identifiers carrying the same label: the inverse map keeps the
    // later one, so a value for that label patches the later marker.
    let module = Module {
        items: vec![
            named_import("walnut-ts", &["$Resolve"]),
            named_import("./resolvers", &["foo", "bar"]),
            const_decl("a", call(ident("$Resolve"), vec![ident("foo")])),
            const_decl("b", call(ident("$Resolve"), vec![ident("bar")])),
        ],
    };
    let mut h = handler(module, "irrelevant", "a");
    h.run().unwrap();
    h.install_labels(&vec![
        (String::from("foo"), String::from("L")),
        (String::from("bar"), String::from("L")),
    ]);
    h.satisfy_resolvers(&vec![(String::from("L"), String::from("7"))]);
    assert_eq!(
        h.get_output(),
        "const a = \"/* __wres_foo */\";\nconst b = \"7\";\n"
    );
}

#[test]
fn empty_module_fast_path() {
    let mut h = handler(Module { items: vec![] }, "", "a");
    h.run().unwrap();
    assert_eq!(h.get_output(), "");
}

#[test]
fn val_object_argument_need_not_be_first() {
    // The object literal is the second argument; selection still runs on it.
    let module = Module {
        items: vec![
            named_import("walnut-ts", &["$Val"]),
            const_decl(
                "x",
                call(ident("$Val"), vec![ident("q"), Expr::Object(vec![kv("a", num("1"))])]),
            ),
        ],
    };
    let mut h = handler(module, "irrelevant", "a");
    h.run().unwrap();
    assert_eq!(h.get_output(), "const x = 1;\n");
}

#[test]
fn val_without_object_argument_invalidates_declarator() {
    let module = Module {
        items: vec![
            named_import("walnut-ts", &["$Val"]),
            const_decl("x", call(ident("$Val"), vec![ident("q"), num("2")])),
        ],
    };
    let mut h = handler(module, "irrelevant", "a");
    h.run().unwrap();
    assert_eq!(h.get_output(), "");
}

fn exported_origin_module(label: &str) -> Module {
    Module {
        items: vec![ModuleItem::Export(VarDecl {
            kind: VarKind::Const,
            decls: vec![VarDeclarator {
                name: Pat::Ident(String::from("fooResolver")),
                init: Some(call(
                    Expr::Member(Box::new(ident("Walnut")), String::from("makeResolver")),
                    vec![string_lit(label)],
                )),
            }],
        })],
    }
}

#[test]
fn extract_label_from_exported_binding() {
    let origin = exported_origin_module("exported-label");
    assert_eq!(
        extract_resolver_label(&origin, &String::from("fooResolver")),
        Some(String::from("exported-label"))
    );
}

#[test]
fn exported_declaration_is_transformed_and_printed() {
    let module = Module {
        items: vec![
            named_import("walnut-ts", &["$Val"]),
            ModuleItem::Export(VarDecl {
                kind: VarKind::Const,
                decls: vec![VarDeclarator {
                    name: Pat::Ident(String::from("x")),
                    init: Some(call(
                        ident("$Val"),
                        vec![Expr::Object(vec![kv("a", num("1")), kv("b", num("2"))])],
                    )),
                }],
            }),
        ],
    };
    let mut h = handler(module, "irrelevant", "b");
    h.run().unwrap();
    assert_eq!(h.get_output(), "export const x = 2;\n");
}

#[test]
fn exported_declaration_left_empty_is_removed() {
    let module = Module {
        items: vec![
            named_import("walnut-ts", &["$Val"]),
            ModuleItem::Export(VarDecl {
                kind: VarKind::Const,
                decls: vec![VarDeclarator {
                    name: Pat::Ident(String::from("x")),
                    init: Some(call(ident("$Val"), vec![Expr::Object(vec![])])),
                }],
            }),
        ],
    };
    let mut h = handler(module, "irrelevant", "a");
    h.run().unwrap();
    assert_eq!(h.get_output(), "");
}
