use rpl::diag::Span;
use rpl::driver::{registered_tools, subtract_negative_matches, ErrorFound};
use rpl::lang_item::is_lang_item;
use rpl::matched_map::{AssignTarget, MatchedMap, MetaVariableAssign, MetaVariableAssignList, NonLocalMetaVars};
use rpl::meta::{parse_and_collect, CollectOutcome};
use rpl::translate::{
    get_body_id_from_hir_node, split_fn_path, translate_from_hir_function, Expr, ExprKind,
    FindExprBySpanAndFnPath, Node, QPath, TraitFn,
};

fn s(x: &str) -> String {
    x.to_string()
}

#[test]
fn lang_items_by_name() {
    assert!(is_lang_item("sized"));
    assert!(is_lang_item("Fn"));
    assert!(is_lang_item("drop_in_place"));
    assert!(is_lang_item("contract_check_requires"));
    assert!(!is_lang_item("Sized"));
    assert!(!is_lang_item("transmute"));
    assert!(!is_lang_item(""));
}

#[test]
fn body_ids_of_function_nodes() {
    assert_eq!(get_body_id_from_hir_node(Node::TraitItemFn(TraitFn::Provided(4))), Some(4));
    assert_eq!(get_body_id_from_hir_node(Node::TraitItemFn(TraitFn::Required)), None);
    assert_eq!(get_body_id_from_hir_node(Node::ImplItemFn(5)), Some(5));
    assert_eq!(get_body_id_from_hir_node(Node::ItemFn(6)), Some(6));
    assert_eq!(get_body_id_from_hir_node(Node::ItemOther), None);
    assert_eq!(get_body_id_from_hir_node(Node::TraitItemOther), None);
    assert_eq!(get_body_id_from_hir_node(Node::ImplItemOther), None);
    assert_eq!(get_body_id_from_hir_node(Node::Other), None);
}

#[test]
fn fn_paths_split_at_separators() {
    assert_eq!(split_fn_path("std::mem::transmute"), vec![s("std"), s("mem"), s("transmute")]);
    assert_eq!(split_fn_path("transmute"), vec![s("transmute")]);
    assert_eq!(split_fn_path(""), vec![s("")]);
    assert_eq!(split_fn_path("a:::b"), vec![s("a"), s(":b")]);
    assert_eq!(split_fn_path("::a::"), vec![s(""), s("a"), s("")]);
    assert_eq!(split_fn_path("core::ptr::null_mut").join("::"), "core::ptr::null_mut");
}

fn sp(lo: u32, hi: u32) -> Span {
    Span { lo, hi, ctxt: 0, parent: None }
}

fn call(span: Span, res: u64, args: Vec<Expr>) -> Expr {
    Expr {
        span,
        kind: ExprKind::Call(Box::new(Expr { span: sp(0, 0), kind: ExprKind::Path(QPath::Resolved(res)) }), args),
    }
}

#[test]
fn finder_looks_for_calls_at_the_span() {
    let body = Expr {
        span: sp(0, 100),
        kind: ExprKind::Other(vec![
            call(sp(1, 5), 7, vec![]),
            Expr { span: sp(6, 50), kind: ExprKind::Other(vec![call(sp(10, 20), 9, vec![call(sp(11, 12), 3, vec![])])]) },
        ]),
    };
    let mut f = FindExprBySpanAndFnPath::new(sp(10, 20), vec![9]);
    f.visit_expr(&body);
    assert!(f.found());
    let mut g = FindExprBySpanAndFnPath::new(sp(10, 20), vec![7]);
    g.visit_expr(&body);
    assert!(!g.found());
    let mut h = FindExprBySpanAndFnPath::new(sp(11, 12), vec![3]);
    h.visit_expr(&body);
    assert!(h.found());

    assert!(translate_from_hir_function(sp(1, 5), Some(Node::ItemFn(1)), Some(&body), vec![7, 8]));
    assert!(!translate_from_hir_function(sp(1, 5), None, Some(&body), vec![7]));
    assert!(!translate_from_hir_function(sp(1, 5), Some(Node::ItemOther), None, vec![7]));
    assert!(!translate_from_hir_function(sp(1, 6), Some(Node::ImplItemFn(2)), Some(&body), vec![7]));
    // the same offsets in another syntax context, or under another parent, are another span
    let expanded = Span { lo: 1, hi: 5, ctxt: 3, parent: None };
    assert!(!translate_from_hir_function(expanded, Some(Node::ItemFn(1)), Some(&body), vec![7]));
    let parented = Span { lo: 1, hi: 5, ctxt: 0, parent: Some(4) };
    assert!(!translate_from_hir_function(parented, Some(Node::ItemFn(1)), Some(&body), vec![7]));
    let inner = Expr { span: parented, kind: ExprKind::Other(vec![call(parented, 7, vec![])]) };
    assert!(translate_from_hir_function(parented, Some(Node::ItemFn(1)), Some(&inner), vec![7]));
}

#[test]
fn collecting_keeps_one_file_per_path() {
    let files = vec![(s("a.rpl"), s("one")), (s("b.rpl"), s("two")), (s("a.rpl"), s("three"))];
    let outcomes = vec![
        CollectOutcome::ParseFailed,
        CollectOutcome::Collected { has_error: false },
        CollectOutcome::Collected { has_error: false },
    ];
    let (mctx, has_error) = parse_and_collect(&files, &outcomes);
    assert!(!has_error);
    assert_eq!(mctx.len(), 2);
    assert_eq!(mctx.path(0), "a.rpl");
    assert_eq!(mctx.content(0), "three");
    assert_eq!(mctx.path(1), "b.rpl");
    assert_eq!(mctx.content(1), "two");

    let outcomes = vec![
        CollectOutcome::Collected { has_error: false },
        CollectOutcome::Collected { has_error: true },
        CollectOutcome::Collected { has_error: false },
    ];
    assert!(parse_and_collect(&files, &outcomes).1);
    let outcomes = vec![
        CollectOutcome::Collected { has_error: false },
        CollectOutcome::Collected { has_error: false },
        CollectOutcome::ParseFailed,
    ];
    assert!(parse_and_collect(&files, &outcomes).1);
    let (empty, err) = parse_and_collect(&vec![], &vec![]);
    assert_eq!(empty.len(), 0);
    assert!(!err);
}

#[test]
fn driver_decisions() {
    assert_eq!(ErrorFound.diag_message(), "An error was found with input RPL pattern(s)");
    assert_eq!(registered_tools(&vec![s("clippy")]), vec![s("clippy"), s("rpl")]);
    assert_eq!(registered_tools(&vec![s("rpl"), s("clippy")]), vec![s("rpl"), s("clippy")]);
    let twice = registered_tools(&registered_tools(&vec![s("clippy")]));
    assert_eq!(twice, vec![s("clippy"), s("rpl")]);
    assert_eq!(subtract_negative_matches(&vec![1, 2, 3, 2], &vec![2, 5]), vec![1, 3]);
    assert_eq!(subtract_negative_matches(&vec![4], &vec![]), vec![4]);
}

#[test]
fn matched_map_follows_names() {
    let target = NonLocalMetaVars { ty_vars: vec![s("$U"), s("$T")], const_vars: vec![s("$N")], place_vars: vec![] };
    let source = NonLocalMetaVars { ty_vars: vec![s("$T"), s("$U"), s("$U")], const_vars: vec![s("$N")], place_vars: vec![] };
    let config = MetaVariableAssignList {
        assigns: Some(vec![
            MetaVariableAssign { source: s("alloc"), target: AssignTarget::Label(s("ptr")) },
            MetaVariableAssign { source: s("$V"), target: AssignTarget::Var(s("$T")) },
            MetaVariableAssign { source: s("dealloc"), target: AssignTarget::Label(s("free")) },
        ]),
    };
    let m = MatchedMap::new(&target, &source, &config);
    assert_eq!(m.ty_vars, vec![1, 0]);
    assert_eq!(m.const_vars, vec![0]);
    assert!(m.place_vars.is_empty());
    assert_eq!(m.labels, vec![(s("ptr"), s("alloc")), (s("free"), s("dealloc"))]);
    let none = MatchedMap::new(&target, &source, &MetaVariableAssignList { assigns: None });
    assert!(none.labels.is_empty());
}

#[test]
fn matched_map_preconditions() {
    let target = NonLocalMetaVars { ty_vars: vec![s("$T")], const_vars: vec![], place_vars: vec![] };
    let source = NonLocalMetaVars { ty_vars: vec![s("$T")], const_vars: vec![], place_vars: vec![] };
    let ok = MetaVariableAssignList {
        assigns: Some(vec![
            MetaVariableAssign { source: s("a"), target: AssignTarget::Label(s("x")) },
            MetaVariableAssign { source: s("b"), target: AssignTarget::Var(s("x")) },
        ]),
    };
    assert!(MatchedMap::can_map(&target, &source, &ok));
    let twice = MetaVariableAssignList {
        assigns: Some(vec![
            MetaVariableAssign { source: s("a"), target: AssignTarget::Label(s("x")) },
            MetaVariableAssign { source: s("b"), target: AssignTarget::Label(s("x")) },
        ]),
    };
    assert!(!MatchedMap::can_map(&target, &source, &twice));
    let other = MetaVariableAssignList { assigns: Some(vec![MetaVariableAssign { source: s("a"), target: AssignTarget::Other }]) };
    assert!(!MatchedMap::can_map(&target, &source, &other));
    let unknown = NonLocalMetaVars { ty_vars: vec![s("$U")], const_vars: vec![], place_vars: vec![] };
    assert!(!MatchedMap::can_map(&unknown, &source, &MetaVariableAssignList { assigns: None }));
}

#[test]
fn more_negative_matches_keep_a_subsequence() {
    let positive = vec![1, 2, 3, 2, 4];
    let fewer = subtract_negative_matches(&positive, &vec![2]);
    let more = subtract_negative_matches(&positive, &vec![2, 4]);
    assert_eq!(fewer, vec![1, 3, 4]);
    assert_eq!(more, vec![1, 3]);
    assert_eq!(subtract_negative_matches(&positive, &vec![]), positive);
}
