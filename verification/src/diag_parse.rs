//! Parsing the diagnostic block of a pattern file into a
//! [`DynamicErrorBuilder`](crate::diag_builder::DynamicErrorBuilder).

use vstd::prelude::*;

use crate::diag::{Applicability, Span};

verus! {

/// The type of a non-local meta variable.
#[derive(Clone, Copy, Debug, PartialEq, Eq, Structural)]
pub enum MetaVariableType {
    Type,
    Const,
    Place,
}

/// What a meta variable of a symbol table stands for.
#[derive(Clone, Copy, Debug, PartialEq, Eq, Structural)]
pub enum MetaVarKind {
    /// A type, const or place meta variable, with its index among the
    /// variables of its type.
    NonAdt(MetaVariableType, usize),
    /// An ADT meta variable.
    Adt,
}

/// A meta variable declared by a pattern.
#[derive(Debug)]
pub struct MetaVarEntry {
    pub name: String,
    pub kind: MetaVarKind,
}

/// The non-local meta variables of a pattern, in declaration order.
#[derive(Debug)]
pub struct NonLocalMetaSymTab {
    pub vars: Vec<MetaVarEntry>,
}

/// A segment of a diagnostic message: a meta variable such as `$T`, or text.
#[derive(Debug)]
pub enum MsgSeg {
    MetaVariable(String),
    Text(String),
}

/// The text between the quotes of a diagnostic message, with its segments.
#[derive(Debug)]
pub struct DiagMessageInner {
    pub text: String,
    pub segments: Vec<MsgSeg>,
}

/// A quoted diagnostic message: its whole text and what is inside the quotes.
#[derive(Debug)]
pub struct DiagMessage {
    pub text: String,
    pub inner: DiagMessageInner,
}

/// What follows the key of a diagnostic attribute.
#[derive(Debug)]
pub enum DiagAttrArg {
    /// A parenthesized argument list.
    Arguments,
    /// `= "message"`.
    Value(DiagMessage),
}

/// One attribute of a diagnostic item, such as `span = "..."`.
#[derive(Debug)]
pub struct DiagAttr {
    pub key: String,
    pub arg: Option<DiagAttrArg>,
    pub span: Span,
}

/// A comma-separated list of attributes; the grammar admits no empty list.
#[derive(Debug)]
pub struct DiagAttrs {
    pub attrs: Vec<DiagAttr>,
    pub span: Span,
}

/// One diagnostic of a diagnostic block: `key(args) = "message"`.
#[derive(Debug)]
pub struct DiagItem {
    pub key: String,
    pub args: Option<DiagAttrs>,
    pub message: DiagMessageInner,
    pub span: Span,
}

/// The diagnostic block of one pattern.
#[derive(Debug)]
pub struct DiagBlockItem {
    pub diags: Vec<DiagItem>,
    pub span: Span,
}

/// A span of a pattern file, with the file's path.
#[derive(Debug, PartialEq, Eq)]
pub struct SpanWrapper {
    pub span: Span,
    pub path: String,
}

/// Errors in a diagnostic block.
#[derive(Debug, PartialEq, Eq)]
pub enum ParseError {
    /// Primary message not found.
    PrimaryNotFound(SpanWrapper),
    /// Expected an identifier.
    NotAnIdentifier(SpanWrapper),
    /// Expected an argument list.
    NotAnArgumentList(SpanWrapper),
    /// Expected a key-value pair.
    NotAKeyValuePair(SpanWrapper),
    /// No argument found.
    Empty(SpanWrapper),
    /// Too many arguments.
    TooManyArguments(SpanWrapper),
    /// Unexpected arguments.
    UnexpectedArguments(SpanWrapper),
    /// Invalid key.
    InvalidKey(String, SpanWrapper),
    /// Missing the first value in the second construct.
    MissingValue(&'static str, &'static str, SpanWrapper),
}

/// A piece of a message to format once a match is known.
#[derive(Debug)]
pub enum SubMsg {
    Str(String),
    Ty(usize),
    Const(usize),
}

// ---------------------------------------------------------------------------
// Specification
// ---------------------------------------------------------------------------

/// The first meta variable of `vars` named `name`.
pub open spec fn spec_lookup(vars: Seq<MetaVarEntry>, name: Seq<char>) -> Option<MetaVarKind>
    decreases vars.len(),
{
    if vars.len() == 0 {
        None
    } else {
        match spec_lookup(vars.drop_last(), name) {
            Some(k) => Some(k),
            None => if vars.last().name@ == name {
                Some(vars.last().kind)
            } else {
                None
            },
        }
    }
}

/// A segment can be formatted: it is text, or names a type or const meta variable.
pub open spec fn seg_resolves(seg: MsgSeg, tab: NonLocalMetaSymTab) -> bool {
    match seg {
        MsgSeg::Text(_) => true,
        MsgSeg::MetaVariable(n) => match spec_lookup(tab.vars@, n@) {
            Some(MetaVarKind::NonAdt(MetaVariableType::Type, _)) => true,
            Some(MetaVarKind::NonAdt(MetaVariableType::Const, _)) => true,
            _ => false,
        },
    }
}

pub open spec fn sub_msg_of(seg: MsgSeg, tab: NonLocalMetaSymTab) -> SubMsg {
    match seg {
        MsgSeg::Text(t) => SubMsg::Str(t),
        MsgSeg::MetaVariable(n) => match spec_lookup(tab.vars@, n@) {
            Some(MetaVarKind::NonAdt(MetaVariableType::Type, i)) => SubMsg::Ty(i),
            Some(MetaVarKind::NonAdt(MetaVariableType::Const, i)) => SubMsg::Const(i),
            _ => SubMsg::Str(n),
        },
    }
}

/// Every segment of a message can be formatted.
pub open spec fn msg_resolves(msg: DiagMessageInner, tab: NonLocalMetaSymTab) -> bool {
    forall|i: int| 0 <= i < msg.segments@.len() ==> seg_resolves(#[trigger] msg.segments@[i], tab)
}

/// The pieces of a message.
pub open spec fn spec_sub_msgs(msg: DiagMessageInner, tab: NonLocalMetaSymTab) -> Seq<SubMsg> {
    msg.segments@.map_values(|s: MsgSeg| sub_msg_of(s, tab))
}

pub open spec fn wrap(span: Span, path: String) -> SpanWrapper {
    SpanWrapper { span, path }
}

/// A single identifier argument, such as `(name)`.
pub open spec fn spec_parse_ident(path: String, attrs: DiagAttrs) -> Result<String, ParseError> {
    if attrs.attrs@.len() > 1 {
        Err(ParseError::TooManyArguments(wrap(attrs.span, path)))
    } else if attrs.attrs@[0].arg is Some {
        Err(ParseError::NotAnIdentifier(wrap(attrs.attrs@[0].span, path)))
    } else {
        Ok(attrs.attrs@[0].key)
    }
}

/// The applicability that a suggestion names, if it names a known one.
pub open spec fn spec_applicability(text: Seq<char>) -> Option<Applicability> {
    if text == "machine_applicable"@ {
        Some(Applicability::MachineApplicable)
    } else if text == "maybe_incorrect"@ {
        Some(Applicability::MaybeIncorrect)
    } else if text == "has_placeholders"@ {
        Some(Applicability::HasPlaceholders)
    } else if text == "unspecified"@ {
        Some(Applicability::Unspecified)
    } else {
        None
    }
}

/// What the attributes of a suggestion have given so far.
pub struct SuggestionState {
    pub code: Option<DiagMessageInner>,
    pub span: Option<String>,
    pub applicability: Option<Applicability>,
}

/// One attribute of a suggestion; attributes without a value are ignored.
pub open spec fn suggestion_step(st: SuggestionState, attr: DiagAttr, path: String) -> Result<
    SuggestionState,
    ParseError,
> {
    match attr.arg {
        Some(DiagAttrArg::Value(m)) => if attr.key@ == "code"@ {
            Ok(SuggestionState { code: Some(m.inner), ..st })
        } else if attr.key@ == "span"@ {
            Ok(SuggestionState { span: Some(m.inner.text), ..st })
        } else if attr.key@ == "applicability"@ {
            Ok(SuggestionState { applicability: spec_applicability(m.text@), ..st })
        } else {
            Err(ParseError::InvalidKey(attr.key, wrap(attr.span, path)))
        },
        _ => Ok(st),
    }
}

/// An attribute of a suggestion names a known applicability, if it names one.
pub open spec fn suggestion_step_ok(attr: DiagAttr) -> bool {
    match attr.arg {
        Some(DiagAttrArg::Value(m)) => attr.key@ == "applicability"@ ==> spec_applicability(
            m.text@,
        ) is Some,
        _ => true,
    }
}

pub open spec fn empty_suggestion_state() -> SuggestionState {
    SuggestionState { code: None, span: None, applicability: None }
}

/// The attributes of a suggestion, in order, up to the first error.
pub open spec fn suggestion_scan(attrs: Seq<DiagAttr>, path: String) -> Result<SuggestionState, ParseError>
    decreases attrs.len(),
{
    if attrs.len() == 0 {
        Ok(empty_suggestion_state())
    } else {
        match suggestion_scan(attrs.drop_last(), path) {
            Ok(st) => suggestion_step(st, attrs.last(), path),
            Err(e) => Err(e),
        }
    }
}

/// Every attribute read before the first error names a known applicability.
pub open spec fn suggestion_attrs_ok(attrs: Seq<DiagAttr>, path: String) -> bool
    decreases attrs.len(),
{
    if attrs.len() == 0 {
        true
    } else {
        suggestion_attrs_ok(attrs.drop_last(), path) && (suggestion_scan(attrs.drop_last(), path) is Ok
            ==> suggestion_step_ok(attrs.last()))
    }
}

/// The code, span and applicability of a suggestion; the code is required,
/// the applicability defaults to unspecified.
pub open spec fn spec_parse_suggestion(path: String, attrs: DiagAttrs) -> Result<
    (DiagMessageInner, Option<String>, Applicability),
    ParseError,
> {
    match suggestion_scan(attrs.attrs@, path) {
        Err(e) => Err(e),
        Ok(st) => match st.code {
            None => Err(ParseError::MissingValue("code", "suggestion", wrap(attrs.span, path))),
            Some(code) => Ok(
                (
                    code,
                    st.span,
                    match st.applicability {
                        Some(a) => a,
                        None => Applicability::Unspecified,
                    },
                ),
            ),
        },
    }
}

// ---------------------------------------------------------------------------
// Implementation
// ---------------------------------------------------------------------------

/// Whether `s` reads `lit`.
pub fn text_is(s: &String, lit: &str) -> (r: bool)
    ensures
        r == (s@ == lit@),
{
    *s == lit.to_owned()
}

fn lookup(tab: &NonLocalMetaSymTab, name: &String) -> (r: Option<MetaVarKind>)
    ensures
        r == spec_lookup(tab.vars@, name@),
{
    let mut i: usize = 0;
    while i < tab.vars.len()
        invariant
            i <= tab.vars@.len(),
            spec_lookup(tab.vars@.take(i as int), name@) is None,
        decreases tab.vars@.len() - i,
    {
        assert(tab.vars@.take(i + 1).drop_last() =~= tab.vars@.take(i as int));
        if tab.vars[i].name == *name {
            proof {
                lemma_lookup_prefix(tab.vars@, name@, i as int + 1);
            }
            return Some(tab.vars[i].kind);
        }
        i += 1;
    }
    assert(tab.vars@.take(i as int) =~= tab.vars@);
    None
}

/// A match found in a prefix is the match of the whole sequence.
proof fn lemma_lookup_prefix(vars: Seq<MetaVarEntry>, name: Seq<char>, k: int)
    requires
        0 <= k <= vars.len(),
        spec_lookup(vars.take(k), name) is Some,
    ensures
        spec_lookup(vars, name) == spec_lookup(vars.take(k), name),
    decreases vars.len() - k,
{
    if k < vars.len() {
        assert(vars.take(k + 1).drop_last() =~= vars.take(k));
        lemma_lookup_prefix(vars, name, k + 1);
    } else {
        assert(vars.take(k) =~= vars);
    }
}

impl SubMsg {
    /// The pieces of a message: text as is, meta variables by their index.
    pub fn parse(s: &DiagMessageInner, meta_vars: &NonLocalMetaSymTab) -> (r: Vec<SubMsg>)
        requires
            msg_resolves(*s, *meta_vars),
        ensures
            r@ == spec_sub_msgs(*s, *meta_vars),
    {
        let mut msgs: Vec<SubMsg> = Vec::new();
        for i in 0..s.segments.len()
            invariant
                msg_resolves(*s, *meta_vars),
                msgs@ =~= spec_sub_msgs(*s, *meta_vars).take(i as int),
        {
            let seg = &s.segments[i];
            assert(seg_resolves(s.segments@[i as int], *meta_vars));
            let m = match seg {
                MsgSeg::MetaVariable(name) => match lookup(meta_vars, name) {
                    Some(MetaVarKind::NonAdt(MetaVariableType::Type, idx)) => SubMsg::Ty(idx),
                    Some(MetaVarKind::NonAdt(MetaVariableType::Const, idx)) => SubMsg::Const(idx),
                    _ => SubMsg::Str(name.clone()),
                },
                MsgSeg::Text(text) => SubMsg::Str(text.clone()),
            };
            msgs.push(m);
        }
        msgs
    }
}

/// Parses a single identifier argument.
pub fn parse_ident(path: &String, attrs: &DiagAttrs) -> (r: Result<String, ParseError>)
    requires
        attrs.attrs@.len() >= 1,
    ensures
        r == spec_parse_ident(*path, *attrs),
{
    if attrs.attrs.len() > 1 {
        return Err(ParseError::TooManyArguments(SpanWrapper { span: attrs.span, path: path.clone() }));
    }
    let first = &attrs.attrs[0];
    if first.arg.is_some() {
        return Err(ParseError::NotAnIdentifier(SpanWrapper { span: first.span, path: path.clone() }));
    }
    Ok(first.key.clone())
}

/// Parses the attributes of a suggestion: its code, span and applicability.
pub fn parse_suggestion<'a>(path: &String, attrs: &'a DiagAttrs) -> (r: Result<
    (&'a DiagMessageInner, Option<String>, Applicability),
    ParseError,
>)
    requires
        suggestion_attrs_ok(attrs.attrs@, *path),
    ensures
        match (r, spec_parse_suggestion(*path, *attrs)) {
            (Ok(x), Ok(y)) => *x.0 == y.0 && x.1 == y.1 && x.2 == y.2,
            (Err(e), Err(f)) => e == f,
            _ => false,
        },
{
    let mut code: Option<&'a DiagMessageInner> = None;
    let mut span: Option<String> = None;
    let mut applicability: Option<Applicability> = None;
    let n = attrs.attrs.len();
    for i in 0..n
        invariant
            n == attrs.attrs@.len(),
            suggestion_attrs_ok(attrs.attrs@, *path),
            suggestion_scan(attrs.attrs@.take(i as int), *path) matches Ok(st) && (match (code, st.code) {
                (Some(c), Some(d)) => *c == d,
                (None, None) => true,
                _ => false,
            }) && span == st.span && applicability == st.applicability,
    {
        proof {
            lemma_suggestion_ok_prefix(attrs.attrs@, *path, i as int + 1);
            assert(attrs.attrs@.take(i + 1).drop_last() =~= attrs.attrs@.take(i as int));
        }
        let attr = &attrs.attrs[i];
        if let Some(DiagAttrArg::Value(message)) = &attr.arg {
            if text_is(&attr.key, "code") {
                code = Some(&message.inner);
            } else if text_is(&attr.key, "span") {
                span = Some(message.inner.text.clone());
            } else if text_is(&attr.key, "applicability") {
                applicability = if text_is(&message.text, "machine_applicable") {
                    Some(Applicability::MachineApplicable)
                } else if text_is(&message.text, "maybe_incorrect") {
                    Some(Applicability::MaybeIncorrect)
                } else if text_is(&message.text, "has_placeholders") {
                    Some(Applicability::HasPlaceholders)
                } else {
                    assert(message.text@ == "unspecified"@);
                    Some(Applicability::Unspecified)
                };
            } else {
                proof {
                    lemma_suggestion_err_persists(attrs.attrs@, *path, i as int + 1);
                }
                return Err(
                    ParseError::InvalidKey(attr.key.clone(), SpanWrapper { span: attr.span, path: path.clone() }),
                );
            }
        }
    }
    assert(attrs.attrs@.take(n as int) =~= attrs.attrs@);
    let code = match code {
        Some(code) => code,
        None => {
            return Err(
                ParseError::MissingValue(
                    "code",
                    "suggestion",
                    SpanWrapper { span: attrs.span, path: path.clone() },
                ),
            );
        },
    };
    let applicability = match applicability {
        Some(a) => a,
        None => Applicability::Unspecified,
    };
    Ok((code, span, applicability))
}

proof fn lemma_suggestion_err_persists(attrs: Seq<DiagAttr>, path: String, k: int)
    requires
        0 <= k <= attrs.len(),
        suggestion_scan(attrs.take(k), path) is Err,
    ensures
        suggestion_scan(attrs, path) == suggestion_scan(attrs.take(k), path),
    decreases attrs.len() - k,
{
    if k < attrs.len() {
        assert(attrs.take(k + 1).drop_last() =~= attrs.take(k));
        lemma_suggestion_err_persists(attrs, path, k + 1);
    } else {
        assert(attrs.take(k) =~= attrs);
    }
}

proof fn lemma_suggestion_ok_prefix(attrs: Seq<DiagAttr>, path: String, k: int)
    requires
        0 <= k <= attrs.len(),
        suggestion_attrs_ok(attrs, path),
    ensures
        suggestion_attrs_ok(attrs.take(k), path),
    decreases attrs.len() - k,
{
    if k < attrs.len() {
        lemma_suggestion_ok_prefix(attrs.drop_last(), path, k);
        assert(attrs.drop_last().take(k) =~= attrs.take(k));
    } else {
        assert(attrs.take(k) =~= attrs);
    }
}

/// Whether every segment of a message can be formatted.
pub(crate) fn msg_resolves_exec(msg: &DiagMessageInner, tab: &NonLocalMetaSymTab) -> (r: bool)
    ensures
        r == msg_resolves(*msg, *tab),
{
    for i in 0..msg.segments.len()
        invariant
            forall|j: int| 0 <= j < i ==> seg_resolves(#[trigger] msg.segments@[j], *tab),
    {
        let ok = match &msg.segments[i] {
            MsgSeg::Text(_) => true,
            MsgSeg::MetaVariable(n) => match lookup(tab, n) {
                Some(MetaVarKind::NonAdt(MetaVariableType::Type, _)) => true,
                Some(MetaVarKind::NonAdt(MetaVariableType::Const, _)) => true,
                _ => false,
            },
        };
        if !ok {
            assert(!seg_resolves(msg.segments@[i as int], *tab));
            return false;
        }
    }
    true
}

/// Whether the attributes of a suggestion can be read, as
/// [`parse_suggestion`] asks.
pub(crate) fn suggestion_attrs_ok_exec(attrs: &Vec<DiagAttr>, path: &String) -> (r: bool)
    ensures
        r == suggestion_attrs_ok(attrs@, *path),
{
    let n = attrs.len();
    let mut errored = false;
    for i in 0..n
        invariant
            n == attrs@.len(),
            suggestion_attrs_ok(attrs@.take(i as int), *path),
            errored == suggestion_scan(attrs@.take(i as int), *path) is Err,
    {
        assert(attrs@.take(i + 1).drop_last() =~= attrs@.take(i as int));
        assert(attrs@.take(i + 1).last() == attrs@[i as int]);
        if !errored {
            let attr = &attrs[i];
            if let Some(DiagAttrArg::Value(m)) = &attr.arg {
                if text_is(&attr.key, "applicability") {
                    if !(text_is(&m.text, "machine_applicable") || text_is(&m.text, "maybe_incorrect")
                        || text_is(&m.text, "has_placeholders") || text_is(&m.text, "unspecified")) {
                        assert(!suggestion_attrs_ok(attrs@.take(i + 1), *path));
                        proof {
                            if suggestion_attrs_ok(attrs@, *path) {
                                lemma_suggestion_ok_prefix(attrs@, *path, i as int + 1);
                            }
                        }
                        return false;
                    }
                } else if !(text_is(&attr.key, "code") || text_is(&attr.key, "span")) {
                    errored = true;
                }
            }
        }
    }
    assert(attrs@.take(n as int) =~= attrs@);
    true
}

/// The applicability that the last `applicability = "..."` attribute of a
/// suggestion names: `machine_applicable` is `MachineApplicable`,
/// `maybe_incorrect` is `MaybeIncorrect`, `has_placeholders` is
/// `HasPlaceholders`, `unspecified` is `Unspecified`; none without such an
/// attribute.
pub open spec fn last_named_applicability(attrs: Seq<DiagAttr>) -> Option<Applicability>
    decreases attrs.len(),
{
    if attrs.len() == 0 {
        None
    } else {
        let a = attrs.last();
        match a.arg {
            Some(DiagAttrArg::Value(m)) => if a.key@ == "applicability"@ {
                if m.text@ == "machine_applicable"@ {
                    Some(Applicability::MachineApplicable)
                } else if m.text@ == "maybe_incorrect"@ {
                    Some(Applicability::MaybeIncorrect)
                } else if m.text@ == "has_placeholders"@ {
                    Some(Applicability::HasPlaceholders)
                } else if m.text@ == "unspecified"@ {
                    Some(Applicability::Unspecified)
                } else {
                    None
                }
            } else {
                last_named_applicability(attrs.drop_last())
            },
            _ => last_named_applicability(attrs.drop_last()),
        }
    }
}

proof fn lemma_scan_applicability(attrs: Seq<DiagAttr>, path: String)
    ensures
        suggestion_scan(attrs, path) matches Ok(st) ==> st.applicability == last_named_applicability(
            attrs,
        ),
    decreases attrs.len(),
{
    reveal_strlit("code");
    reveal_strlit("span");
    reveal_strlit("applicability");
    assert("code"@.len() == 4 && "span"@.len() == 4 && "applicability"@.len() == 13);
    if attrs.len() > 0 {
        lemma_scan_applicability(attrs.drop_last(), path);
    }
}

/// A suggestion's applicability is the one its last applicability attribute
/// names, and `Unspecified` when it has none.
pub proof fn lemma_suggestion_applicability(path: String, attrs: DiagAttrs)
    ensures
        spec_parse_suggestion(path, attrs) matches Ok((_, _, a)) ==> a == match last_named_applicability(
            attrs.attrs@,
        ) {
            Some(named) => named,
            None => Applicability::Unspecified,
        },
{
    lemma_scan_applicability(attrs.attrs@, path);
}

} // verus!
