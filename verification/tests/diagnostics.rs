use rpl::diag::{Applicability, DiagOp, DynamicError, Level, Span};
use rpl::diag_builder::{DynamicErrorBuilder, Matched};
use rpl::diag_parse::{
    parse_ident, parse_suggestion, DiagAttr, DiagAttrArg, DiagAttrs, DiagBlockItem, DiagItem,
    DiagMessage, DiagMessageInner, MetaVarEntry, MetaVarKind, MetaVariableType, MsgSeg,
    NonLocalMetaSymTab, ParseError, SpanWrapper, SubMsg,
};

fn sp(lo: u32, hi: u32) -> Span {
    Span { lo, hi, ctxt: 0, parent: None }
}

fn path() -> String {
    "p.rpl".to_string()
}

fn wrap(span: Span) -> SpanWrapper {
    SpanWrapper { span, path: path() }
}

fn text(s: &str) -> DiagMessageInner {
    DiagMessageInner { text: s.to_string(), segments: vec![MsgSeg::Text(s.to_string())] }
}

fn ident_attr(key: &str, lo: u32) -> DiagAttr {
    DiagAttr { key: key.to_string(), arg: None, span: sp(lo, lo + 1) }
}

fn value_attr(key: &str, value: &str, lo: u32) -> DiagAttr {
    DiagAttr {
        key: key.to_string(),
        arg: Some(DiagAttrArg::Value(DiagMessage { text: value.to_string(), inner: text(value) })),
        span: sp(lo, lo + 1),
    }
}

fn attrs(list: Vec<DiagAttr>) -> DiagAttrs {
    DiagAttrs { attrs: list, span: sp(100, 200) }
}

fn item(key: &str, args: Option<DiagAttrs>, message: DiagMessageInner, lo: u32) -> DiagItem {
    DiagItem { key: key.to_string(), args, message, span: sp(lo, lo + 5) }
}

fn symtab() -> NonLocalMetaSymTab {
    NonLocalMetaSymTab {
        vars: vec![
            MetaVarEntry { name: "$T".to_string(), kind: MetaVarKind::NonAdt(MetaVariableType::Type, 0) },
            MetaVarEntry { name: "$N".to_string(), kind: MetaVarKind::NonAdt(MetaVariableType::Const, 1) },
            MetaVarEntry { name: "$p".to_string(), kind: MetaVarKind::NonAdt(MetaVariableType::Place, 0) },
        ],
    }
}

fn matched() -> Matched {
    Matched {
        spans: vec![("ptr".to_string(), sp(10, 20)), ("len".to_string(), sp(30, 40))],
        types: vec!["u8".to_string()],
        consts: vec!["0".to_string(), "42".to_string()],
    }
}

#[test]
fn default_diagnostic_has_fixed_messages() {
    let e = DynamicError::default_diagnostic(sp(3, 9));
    assert_eq!(e.primary_span(), sp(3, 9));
    assert_eq!(e.lint().name, "rpl::missing_diagnostic");
    assert_eq!(e.lint().default_level, Level::Deny);
    let ops = e.decorate_lint();
    assert_eq!(ops.len(), 3);
    match &ops[0] {
        DiagOp::PrimaryMessage(m) => assert_eq!(m, "A pattern instance found in this span"),
        _ => panic!("expected the primary message first"),
    }
    match &ops[1] {
        DiagOp::Note(m) => assert_eq!(m, "This is a fallback diagnostic message."),
        _ => panic!("expected a note"),
    }
    match &ops[2] {
        DiagOp::Note(m) => assert_eq!(
            m,
            "You are seeing this because there is no corresponding diagnostic item in the RPL pattern file."
        ),
        _ => panic!("expected a note"),
    }
}

#[test]
fn sub_msg_parse_resolves_meta_variables() {
    let msg = DiagMessageInner {
        text: "cast to $T of $N".to_string(),
        segments: vec![
            MsgSeg::Text("cast to ".to_string()),
            MsgSeg::MetaVariable("$T".to_string()),
            MsgSeg::Text(" of ".to_string()),
            MsgSeg::MetaVariable("$N".to_string()),
        ],
    };
    let parts = SubMsg::parse(&msg, &symtab());
    assert_eq!(parts.len(), 4);
    assert!(matches!(&parts[0], SubMsg::Str(s) if s == "cast to "));
    assert!(matches!(parts[1], SubMsg::Ty(0)));
    assert!(matches!(parts[3], SubMsg::Const(1)));
}

#[test]
fn parse_ident_errors() {
    let two = attrs(vec![ident_attr("a", 1), ident_attr("b", 2)]);
    assert_eq!(parse_ident(&path(), &two), Err(ParseError::TooManyArguments(wrap(sp(100, 200)))));
    let valued = attrs(vec![value_attr("a", "x", 7)]);
    assert_eq!(parse_ident(&path(), &valued), Err(ParseError::NotAnIdentifier(wrap(sp(7, 8)))));
    let one = attrs(vec![ident_attr("ptr", 1)]);
    assert_eq!(parse_ident(&path(), &one), Ok("ptr".to_string()));
}

#[test]
fn parse_suggestion_reads_code_span_and_applicability() {
    let a = attrs(vec![
        value_attr("code", "foo()", 1),
        value_attr("span", "ptr", 2),
        value_attr("applicability", "maybe_incorrect", 3),
        ident_attr("ignored", 4),
    ]);
    let (code, span, app) = parse_suggestion(&path(), &a).unwrap();
    assert_eq!(code.text, "foo()");
    assert_eq!(span, Some("ptr".to_string()));
    assert_eq!(app, Applicability::MaybeIncorrect);

    let b = attrs(vec![value_attr("code", "x", 1)]);
    let (_, span, app) = parse_suggestion(&path(), &b).unwrap();
    assert_eq!(span, None);
    assert_eq!(app, Applicability::Unspecified);

    let c = attrs(vec![value_attr("span", "ptr", 1)]);
    assert_eq!(
        parse_suggestion(&path(), &c).err(),
        Some(ParseError::MissingValue("code", "suggestion", wrap(sp(100, 200))))
    );

    let d = attrs(vec![value_attr("code", "x", 1), value_attr("colour", "red", 5)]);
    assert_eq!(
        parse_suggestion(&path(), &d).err(),
        Some(ParseError::InvalidKey("colour".to_string(), wrap(sp(5, 6))))
    );
}

fn full_block() -> DiagBlockItem {
    let primary_msg = DiagMessageInner {
        text: "dangling $T".to_string(),
        segments: vec![MsgSeg::Text("dangling ".to_string()), MsgSeg::MetaVariable("$T".to_string())],
    };
    DiagBlockItem {
        diags: vec![
            item("primary", Some(attrs(vec![ident_attr("ptr", 1)])), primary_msg, 0),
            item("label", Some(attrs(vec![ident_attr("len", 1)])), text("length here"), 10),
            item("note", None, text("a note"), 20),
            item("help", Some(attrs(vec![ident_attr("ptr", 1)])), text("a help"), 30),
            item(
                "suggestion",
                Some(attrs(vec![value_attr("code", "fix()", 1), value_attr("span", "ptr", 2)])),
                text("try this"),
                40,
            ),
            item("name", None, text("dangling_ptr"), 50),
            item("level", None, text("warn"), 60),
        ],
        span: sp(0, 99),
    }
}

#[test]
fn builder_reads_block_and_builds_diagnostic() {
    let b = DynamicErrorBuilder::from_item(&full_block(), &path(), &symtab()).unwrap();
    let e = b.build(&matched());
    assert_eq!(e.lint().name, "rpl::dangling_ptr");
    assert_eq!(e.lint().default_level, Level::Warn);
    assert_eq!(e.primary_span(), sp(10, 20));
    let ops = e.decorate_lint();
    assert_eq!(ops.len(), 5);
    assert!(matches!(&ops[0], DiagOp::PrimaryMessage(m) if m == "dangling u8"));
    assert!(matches!(&ops[1], DiagOp::SpanLabel(s, m) if *s == sp(30, 40) && m == "length here"));
    assert!(matches!(&ops[2], DiagOp::SpanHelp(s, m) if *s == sp(10, 20) && m == "a help"));
    assert!(matches!(&ops[3], DiagOp::Note(m) if m == "a note"));
    assert!(matches!(
        &ops[4],
        DiagOp::SpanSuggestion(s, m, c, Applicability::Unspecified)
            if *s == sp(10, 20) && m == "try this" && c == "fix()"
    ));
}

#[test]
fn builder_errors() {
    let tab = symtab();
    // no primary message
    let no_primary = DiagBlockItem { diags: vec![item("name", None, text("x"), 1)], span: sp(0, 5) };
    assert_eq!(
        DynamicErrorBuilder::from_item(&no_primary, &path(), &tab).err(),
        Some(ParseError::PrimaryNotFound(wrap(sp(0, 5))))
    );
    // primary without its span argument
    let empty = DiagBlockItem { diags: vec![item("primary", None, text("x"), 7)], span: sp(0, 5) };
    assert_eq!(
        DynamicErrorBuilder::from_item(&empty, &path(), &tab).err(),
        Some(ParseError::Empty(wrap(sp(7, 12))))
    );
    // a name with arguments
    let named = DiagBlockItem {
        diags: vec![item("name", Some(attrs(vec![ident_attr("a", 1)])), text("x"), 3)],
        span: sp(0, 5),
    };
    assert_eq!(
        DynamicErrorBuilder::from_item(&named, &path(), &tab).err(),
        Some(ParseError::UnexpectedArguments(wrap(sp(3, 8))))
    );
    // a suggestion without arguments
    let sugg = DiagBlockItem { diags: vec![item("suggestion", None, text("x"), 9)], span: sp(0, 5) };
    assert_eq!(
        DynamicErrorBuilder::from_item(&sugg, &path(), &tab).err(),
        Some(ParseError::Empty(wrap(sp(9, 14))))
    );
    // the first error wins
    let two = DiagBlockItem {
        diags: vec![item("label", None, text("x"), 1), item("primary", None, text("y"), 2)],
        span: sp(0, 5),
    };
    assert_eq!(
        DynamicErrorBuilder::from_item(&two, &path(), &tab).err(),
        Some(ParseError::Empty(wrap(sp(1, 6))))
    );
    // the error variants that the grammar never produces still exist
    let _ = ParseError::NotAnArgumentList(wrap(sp(0, 0)));
    let _ = ParseError::NotAKeyValuePair(wrap(sp(0, 0)));
}

#[test]
fn default_level_is_deny_and_last_primary_wins() {
    let block = DiagBlockItem {
        diags: vec![
            item("primary", Some(attrs(vec![ident_attr("len", 1)])), text("first"), 0),
            item("primary", Some(attrs(vec![ident_attr("ptr", 1)])), text("second"), 5),
            item("name", None, text("n"), 9),
        ],
        span: sp(0, 20),
    };
    let b = DynamicErrorBuilder::from_item(&block, &path(), &symtab()).unwrap();
    let e = b.build(&matched());
    assert_eq!(e.lint().default_level, Level::Deny);
    assert_eq!(e.primary_span(), sp(10, 20));
    let ops = e.decorate_lint();
    assert!(matches!(&ops[0], DiagOp::PrimaryMessage(m) if m == "second"));
}

#[test]
fn blocks_that_can_be_read() {
    let tab = symtab();
    assert!(DynamicErrorBuilder::can_read(&full_block(), &path(), &tab));
    // an unknown key
    let unknown = DiagBlockItem { diags: vec![item("colour", None, text("x"), 1)], span: sp(0, 5) };
    assert!(!DynamicErrorBuilder::can_read(&unknown, &path(), &tab));
    // an unknown level
    let level = DiagBlockItem { diags: vec![item("level", None, text("loud"), 1)], span: sp(0, 5) };
    assert!(!DynamicErrorBuilder::can_read(&level, &path(), &tab));
    // a primary message without a name
    let unnamed = DiagBlockItem {
        diags: vec![item("primary", Some(attrs(vec![ident_attr("ptr", 1)])), text("x"), 0)],
        span: sp(0, 5),
    };
    assert!(!DynamicErrorBuilder::can_read(&unnamed, &path(), &tab));
    // a message naming a place meta variable
    let place_msg = DiagMessageInner { text: "$p".to_string(), segments: vec![MsgSeg::MetaVariable("$p".to_string())] };
    let place = DiagBlockItem {
        diags: vec![item("note", None, place_msg, 0), item("name", None, text("n"), 9)],
        span: sp(0, 5),
    };
    assert!(!DynamicErrorBuilder::can_read(&place, &path(), &tab));
    // an unknown applicability
    let appl = DiagBlockItem {
        diags: vec![item(
            "suggestion",
            Some(attrs(vec![value_attr("code", "x", 1), value_attr("applicability", "surely", 2)])),
            text("try"),
            0,
        )],
        span: sp(0, 5),
    };
    assert!(!DynamicErrorBuilder::can_read(&appl, &path(), &tab));
    // after the first error nothing more is read, so an unknown key there is fine
    let after_error = DiagBlockItem {
        diags: vec![item("primary", None, text("x"), 7), item("colour", None, text("x"), 9)],
        span: sp(0, 5),
    };
    assert!(DynamicErrorBuilder::can_read(&after_error, &path(), &tab));
    assert_eq!(
        DynamicErrorBuilder::from_item(&after_error, &path(), &tab).err(),
        Some(ParseError::Empty(wrap(sp(7, 12))))
    );
}

#[test]
fn matches_that_can_build() {
    let b = DynamicErrorBuilder::from_item(&full_block(), &path(), &symtab()).unwrap();
    let m = matched();
    assert!(m.knows_label("ptr"));
    assert!(!m.knows_label("free"));
    assert!(m.binds_all(&vec![SubMsg::Ty(0), SubMsg::Const(1), SubMsg::Str("x".to_string())]));
    assert!(!m.binds_all(&vec![SubMsg::Ty(1)]));
    assert!(b.can_build_with(&m));
    let missing_label = Matched { spans: vec![("ptr".to_string(), sp(10, 20))], types: m.types.clone(), consts: m.consts.clone() };
    assert!(!b.can_build_with(&missing_label));
    let missing_type = Matched { spans: m.spans.clone(), types: vec![], consts: m.consts.clone() };
    assert!(!b.can_build_with(&missing_type));
}
