//! Scenario and unit tests that drive the assembler and the resolver on
//! hand-built event streams and token lists.
use turbo_md::ast::{
    stream_ok, turbo_text, turbo_text_extend, turbo_text_recursive, ModSet, TurboText, TurboTree,
};
use turbo_md::{clone_turbo, Code, Lang, ListKind, Turbo, TurboInlineRaw, TurboTextMod};

fn text_tok(s: &str) -> TurboInlineRaw {
    TurboInlineRaw::Text(s.to_string())
}

fn flag(m: TurboTextMod) -> TurboInlineRaw {
    TurboInlineRaw::ModFlag(m)
}

fn plain(s: &str) -> TurboText {
    TurboText::Plain(s.to_string())
}

fn line(ident: usize, s: &str) -> Turbo {
    Turbo::Line { ident, text: vec![text_tok(s)] }
}

fn item(ident: usize, s: &str) -> Turbo {
    Turbo::ListElemStart {
        ident,
        kind: ListKind::Unordered(None),
        check: None,
        content: vec![line(0, s)],
    }
}

fn para(s: &str) -> TurboTree {
    TurboTree::Text(TurboText::TextContainer(vec![plain(s)]))
}

#[test]
fn resolve_single_bold_word() {
    let toks = vec![flag(TurboTextMod::Bold), text_tok("bold"), flag(TurboTextMod::Bold)];
    let got = turbo_text(&toks);
    let expected = TurboText::TextContainer(vec![TurboText::Mod {
        kind: TurboTextMod::Bold,
        text: vec![plain("bold")],
    }]);
    assert_eq!(got, expected);
}

#[test]
fn resolve_nested_distinct_kinds() {
    let toks = vec![
        flag(TurboTextMod::Bold),
        text_tok("a"),
        flag(TurboTextMod::Cursive),
        text_tok("b"),
        flag(TurboTextMod::Cursive),
        text_tok("c"),
        flag(TurboTextMod::Bold),
    ];
    let got = turbo_text(&toks);
    let expected = TurboText::TextContainer(vec![TurboText::Mod {
        kind: TurboTextMod::Bold,
        text: vec![
            plain("a"),
            TurboText::Mod { kind: TurboTextMod::Cursive, text: vec![plain("b")] },
            plain("c"),
        ],
    }]);
    assert_eq!(got, expected);
}

#[test]
fn resolve_unterminated_closes_at_end() {
    let toks = vec![flag(TurboTextMod::Bold), text_tok("x")];
    let got = turbo_text(&toks);
    let expected = TurboText::TextContainer(vec![TurboText::Mod {
        kind: TurboTextMod::Bold,
        text: vec![plain("x")],
    }]);
    assert_eq!(got, expected);
}

#[test]
fn reresolving_flattened_spans_reproduces_tree() {
    // The resolved tree of an unterminated bold run flattens back to a
    // properly closed marker pair; resolving that reproduces the tree.
    let toks = vec![flag(TurboTextMod::Bold), text_tok("x")];
    let first = turbo_text(&toks);
    let flattened = vec![flag(TurboTextMod::Bold), text_tok("x"), flag(TurboTextMod::Bold)];
    let second = turbo_text(&flattened);
    assert_eq!(first, second);
}

#[test]
fn no_same_kind_self_nesting() {
    // An overlapping close: the second bold marker belongs to the open bold
    // span, so the cursive span in between closes silently and the third
    // bold marker opens a sibling span, never a bold span inside bold.
    let toks = vec![
        flag(TurboTextMod::Bold),
        flag(TurboTextMod::Cursive),
        flag(TurboTextMod::Bold),
        flag(TurboTextMod::Bold),
        text_tok("x"),
    ];
    let got = turbo_text(&toks);
    let expected = TurboText::TextContainer(vec![
        TurboText::Mod {
            kind: TurboTextMod::Bold,
            text: vec![TurboText::Mod { kind: TurboTextMod::Cursive, text: vec![] }],
        },
        TurboText::Mod { kind: TurboTextMod::Bold, text: vec![plain("x")] },
    ]);
    assert_eq!(got, expected);
}

#[test]
fn reresolving_overlapping_markers_is_idempotent() {
    let toks = vec![
        flag(TurboTextMod::Bold),
        flag(TurboTextMod::Cursive),
        flag(TurboTextMod::Bold),
        flag(TurboTextMod::Bold),
        text_tok("x"),
    ];
    let first = turbo_text(&toks);
    // The flattening of the resolved tree: every span as a closed marker pair.
    let flattened = vec![
        flag(TurboTextMod::Bold),
        flag(TurboTextMod::Cursive),
        flag(TurboTextMod::Cursive),
        flag(TurboTextMod::Bold),
        flag(TurboTextMod::Bold),
        text_tok("x"),
        flag(TurboTextMod::Bold),
    ];
    let second = turbo_text(&flattened);
    assert_eq!(first, second);
}

#[test]
fn kind_change_at_equal_indent_starts_new_list() {
    let styled = |style: Option<usize>, s: &str| Turbo::ListElemStart {
        ident: 0,
        kind: ListKind::Unordered(style),
        check: None,
        content: vec![line(0, s)],
    };
    let tree = TurboTree::generate(Turbo::Root(vec![
        styled(None, "one"),
        styled(None, "two"),
        styled(Some(1), "three"),
    ]));
    let expected = TurboTree::Root {
        content: vec![
            TurboTree::List {
                kind: ListKind::Unordered(None),
                items: vec![
                    TurboTree::ListItem { check: None, items: vec![para("one")] },
                    TurboTree::ListItem { check: None, items: vec![para("two")] },
                ],
            },
            TurboTree::List {
                kind: ListKind::Unordered(Some(1)),
                items: vec![TurboTree::ListItem { check: None, items: vec![para("three")] }],
            },
        ],
    };
    assert_eq!(tree, expected);
}

#[test]
fn stream_ok_accepts_and_rejects() {
    assert!(stream_ok(&vec![]));
    assert!(stream_ok(&vec![Turbo::Empty, line(0, "ok"), item(0, "x")]));
    // A top-level text line at nonzero indentation is never consumed.
    assert!(!stream_ok(&vec![line(2, "indented")]));
    // A nested stream root is illegal.
    assert!(!stream_ok(&vec![Turbo::Root(vec![])]));
    // A list item start must carry its attached content.
    assert!(!stream_ok(&vec![Turbo::ListElemStart {
        ident: 0,
        kind: ListKind::Unordered(None),
        check: None,
        content: vec![],
    }]));
    // Attached content must be unindented.
    assert!(!stream_ok(&vec![Turbo::ListElemStart {
        ident: 0,
        kind: ListKind::Unordered(None),
        check: None,
        content: vec![line(4, "bad")],
    }]));
}

#[test]
fn zero_events_assemble_to_empty_root() {
    let tree = TurboTree::generate(Turbo::Root(vec![]));
    assert_eq!(tree, TurboTree::Root { content: vec![] });
}

#[test]
fn single_blank_assembles_to_single_child() {
    let tree = TurboTree::generate(Turbo::Root(vec![Turbo::Empty]));
    assert_eq!(tree, TurboTree::Root { content: vec![TurboTree::Empty] });
}

#[test]
fn paragraph_merges_equal_indent_lines() {
    let tree = TurboTree::generate(Turbo::Root(vec![line(0, "foo"), line(0, "bar")]));
    let expected = TurboTree::Root {
        content: vec![TurboTree::Text(TurboText::TextContainer(vec![
            plain("foo"),
            plain(" "),
            plain("bar"),
        ]))],
    };
    assert_eq!(tree, expected);
}

#[test]
fn paragraph_breaks_on_indent_change_inside_list() {
    // Inside a list scope a deeper line is accepted, but the merge stops at
    // the first line with a different indent.
    let tree = TurboTree::generate(Turbo::Root(vec![
        item(0, "head"),
        Turbo::Line { ident: 4, text: vec![text_tok("deep")] },
        Turbo::Line { ident: 2, text: vec![text_tok("shallower")] },
    ]));
    let expected = TurboTree::Root {
        content: vec![TurboTree::List {
            kind: ListKind::Unordered(None),
            items: vec![TurboTree::ListItem {
                check: None,
                items: vec![para("head"), para("deep"), para("shallower")],
            }],
        }],
    };
    assert_eq!(tree, expected);
}

#[test]
fn flat_list_one_item_per_event() {
    let tree = TurboTree::generate(Turbo::Root(vec![
        item(0, "one"),
        item(0, "two"),
        item(0, "three"),
    ]));
    let expected = TurboTree::Root {
        content: vec![TurboTree::List {
            kind: ListKind::Unordered(None),
            items: vec![
                TurboTree::ListItem { check: None, items: vec![para("one")] },
                TurboTree::ListItem { check: None, items: vec![para("two")] },
                TurboTree::ListItem { check: None, items: vec![para("three")] },
            ],
        }],
    };
    assert_eq!(tree, expected);
}

#[test]
fn nested_text_attaches_to_preceding_item() {
    let tree = TurboTree::generate(Turbo::Root(vec![
        item(0, "item one"),
        line(4, "nested text"),
        item(0, "item two"),
    ]));
    let expected = TurboTree::Root {
        content: vec![TurboTree::List {
            kind: ListKind::Unordered(None),
            items: vec![
                TurboTree::ListItem {
                    check: None,
                    items: vec![para("item one"), para("nested text")],
                },
                TurboTree::ListItem { check: None, items: vec![para("item two")] },
            ],
        }],
    };
    assert_eq!(tree, expected);
}

#[test]
fn deeper_items_nest_under_preceding_item() {
    let tree = TurboTree::generate(Turbo::Root(vec![
        item(0, "outer"),
        item(4, "inner a"),
        item(4, "inner b"),
        item(0, "outer two"),
    ]));
    let expected = TurboTree::Root {
        content: vec![TurboTree::List {
            kind: ListKind::Unordered(None),
            items: vec![
                TurboTree::ListItem {
                    check: None,
                    items: vec![
                        para("outer"),
                        TurboTree::List {
                            kind: ListKind::Unordered(None),
                            items: vec![
                                TurboTree::ListItem {
                                    check: None,
                                    items: vec![para("inner a")],
                                },
                                TurboTree::ListItem {
                                    check: None,
                                    items: vec![para("inner b")],
                                },
                            ],
                        },
                    ],
                },
                TurboTree::ListItem { check: None, items: vec![para("outer two")] },
            ],
        }],
    };
    assert_eq!(tree, expected);
}

#[test]
fn deeper_runs_attach_after_each_sibling() {
    // Four siblings; the first and the third each followed by a deeper run.
    let tree = TurboTree::generate(Turbo::Root(vec![
        item(0, "a"),
        item(4, "a deep one"),
        item(4, "a deep two"),
        item(0, "b"),
        item(0, "c"),
        item(4, "c deep"),
        item(0, "d"),
    ]));
    let li = |children: Vec<TurboTree>| TurboTree::ListItem { check: None, items: children };
    let deep_list = |items: Vec<TurboTree>| TurboTree::List {
        kind: ListKind::Unordered(None),
        items,
    };
    let expected = TurboTree::Root {
        content: vec![TurboTree::List {
            kind: ListKind::Unordered(None),
            items: vec![
                li(vec![
                    para("a"),
                    deep_list(vec![
                        li(vec![para("a deep one")]),
                        li(vec![para("a deep two")]),
                    ]),
                ]),
                li(vec![para("b")]),
                li(vec![para("c"), deep_list(vec![li(vec![para("c deep")])])]),
                li(vec![para("d")]),
            ],
        }],
    };
    assert_eq!(tree, expected);
}

#[test]
fn checklist_marks_carry_over() {
    let tree = TurboTree::generate(Turbo::Root(vec![
        Turbo::ListElemStart {
            ident: 0,
            kind: ListKind::Unordered(None),
            check: Some(false),
            content: vec![line(0, "open")],
        },
        Turbo::ListElemStart {
            ident: 0,
            kind: ListKind::Unordered(None),
            check: Some(true),
            content: vec![line(0, "done")],
        },
    ]));
    let expected = TurboTree::Root {
        content: vec![TurboTree::List {
            kind: ListKind::Unordered(None),
            items: vec![
                TurboTree::ListItem { check: Some(false), items: vec![para("open")] },
                TurboTree::ListItem { check: Some(true), items: vec![para("done")] },
            ],
        }],
    };
    assert_eq!(tree, expected);
}

#[test]
fn heading_rule_and_include_assemble_standalone() {
    let tree = TurboTree::generate(Turbo::Root(vec![
        Turbo::Header { ident: 0, size: 2, text: vec![text_tok("title")] },
        Turbo::Horizontal,
        Turbo::Include { ident: 0, path: "chapter1".to_string() },
    ]));
    let expected = TurboTree::Root {
        content: vec![
            TurboTree::Heading {
                size: 2,
                text: TurboText::TextContainer(vec![plain("title")]),
            },
            TurboTree::Horizontal,
            TurboTree::Include("chapter1".to_string()),
        ],
    };
    assert_eq!(tree, expected);
}

#[test]
fn resolver_cursor_and_open_set() {
    let toks = vec![flag(TurboTextMod::Bold), text_tok("x"), flag(TurboTextMod::Bold), text_tok("y")];
    let mut stats = ModSet::new();
    let (stop, spans) = turbo_text_recursive(&toks, 1, &mut stats);
    // Called with no kind open, the bold marker at index two opens a span
    // that swallows the tail; the cursor ends past the input.
    assert_eq!(stop, 4);
    assert_eq!(
        spans,
        vec![
            plain("x"),
            TurboText::Mod { kind: TurboTextMod::Bold, text: vec![plain("y")] }
        ]
    );
}

#[test]
fn extend_appends_resolution_to_container() {
    let mut t = turbo_text(&vec![text_tok("a")]);
    turbo_text_extend(
        &mut t,
        &vec![flag(TurboTextMod::Bold), text_tok("b"), flag(TurboTextMod::Bold)],
    );
    let expected = TurboText::TextContainer(vec![
        plain("a"),
        TurboText::Mod { kind: TurboTextMod::Bold, text: vec![plain("b")] },
    ]);
    assert_eq!(t, expected);
}

#[test]
fn get_vec_mut_opens_container_children() {
    let mut t = turbo_text(&vec![text_tok("a")]);
    t.get_vec_mut().push(plain("b"));
    assert_eq!(
        t,
        TurboText::TextContainer(vec![plain("a"), plain("b")])
    );
}

#[test]
fn get_vec_returns_root_children() {
    let tree = TurboTree::generate(Turbo::Root(vec![Turbo::Empty]));
    assert_eq!(tree.get_vec(), &vec![TurboTree::Empty]);
}

#[test]
fn event_clone_is_deep() {
    let ev = item(2, "payload");
    let copy = clone_turbo(&ev);
    assert_eq!(ev, copy);
}

#[test]
fn lang_from_tag_known_and_unknown() {
    assert_eq!(Lang::from_tag("turbo"), Lang::Turbo);
    assert_eq!(Lang::from_tag("katex"), Lang::KaTeX);
    assert_eq!(Lang::from_tag("math"), Lang::KaTeX);
    assert_eq!(Lang::from_tag("rust"), Lang::Rust);
    assert_eq!(Lang::from_tag("nim"), Lang::Nim);
    assert_eq!(Lang::from_tag("python"), Lang::Python);
    assert_eq!(Lang::from_tag("c"), Lang::C);
    assert_eq!(Lang::from_tag("cpp"), Lang::CPP);
    assert_eq!(Lang::from_tag("c++"), Lang::CPP);
    assert_eq!(Lang::from_tag("zig"), Lang::Other("zig".to_string()));
    assert_eq!(Lang::from_tag(""), Lang::Other("".to_string()));
}

#[test]
fn lang_as_str_all_tags() {
    assert_eq!(Lang::Turbo.as_str(), "turbo");
    assert_eq!(Lang::KaTeX.as_str(), "katex");
    assert_eq!(Lang::Rust.as_str(), "rust");
    assert_eq!(Lang::Nim.as_str(), "nim");
    assert_eq!(Lang::Python.as_str(), "python");
    assert_eq!(Lang::C.as_str(), "c");
    assert_eq!(Lang::CPP.as_str(), "cpp");
    assert_eq!(Lang::Other("zig".to_string()).as_str(), "zig");
}

#[test]
fn turbo_root_returns_children() {
    let ev = Turbo::Root(vec![Turbo::Empty, Turbo::Horizontal]);
    let children = ev.root();
    assert_eq!(children.len(), 2);
    assert_eq!(children[0], Turbo::Empty);
}

#[test]
fn code_event_preserved_verbatim() {
    let body = "let x = *a* _b_;\n".to_string();
    let tree = TurboTree::generate(Turbo::Root(vec![Turbo::Code {
        ident: None,
        code: Code { lang: Lang::Rust, code: body.clone() },
    }]));
    let expected = TurboTree::Root {
        content: vec![TurboTree::Code(Code { lang: Lang::Rust, code: body })],
    };
    assert_eq!(tree, expected);
}
