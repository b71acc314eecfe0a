//! The builder of a user-defined diagnostic: parsed once from the diagnostic
//! block of a pattern, then built into a [`DynamicError`] for every match.

use vstd::prelude::*;

use crate::diag::{Applicability, DynamicError, Level, Lint, Span};
use crate::diag_parse::{
    msg_resolves_exec, suggestion_attrs_ok_exec, msg_resolves, parse_ident, parse_suggestion, spec_parse_ident, spec_parse_suggestion,
    spec_sub_msgs, suggestion_attrs_ok, text_is, wrap, DiagBlockItem, DiagItem, DiagMessageInner,
    NonLocalMetaSymTab, ParseError, SpanWrapper, SubMsg,
};

verus! {

/// A diagnostic with its messages still to be formatted and its spans still
/// to be resolved, by name, in a match.
#[derive(Debug)]
pub struct DynamicErrorBuilder {
    /// Primary message and the name of its span.
    primary: (Vec<SubMsg>, String),
    /// Labels and the names of their spans.
    labels: Vec<(Vec<SubMsg>, String)>,
    /// Notes and the names of their spans, if any.
    notes: Vec<(Vec<SubMsg>, Option<String>)>,
    /// Helps and the names of their spans, if any.
    helps: Vec<(Vec<SubMsg>, Option<String>)>,
    /// Suggestions, alternative code, the names of their spans, and their
    /// applicability.
    suggestions: Vec<(Vec<SubMsg>, Vec<SubMsg>, Option<String>, Applicability)>,
    lint: Lint,
}

/// The content of a [`DynamicErrorBuilder`].
pub struct DynamicErrorBuilderView {
    pub primary: (Seq<SubMsg>, String),
    pub labels: Seq<(Seq<SubMsg>, String)>,
    pub notes: Seq<(Seq<SubMsg>, Option<String>)>,
    pub helps: Seq<(Seq<SubMsg>, Option<String>)>,
    pub suggestions: Seq<(Seq<SubMsg>, Seq<SubMsg>, Option<String>, Applicability)>,
    pub lint_name: Seq<char>,
    pub lint_level: Level,
}

pub open spec fn named_view(v: Seq<(Vec<SubMsg>, String)>) -> Seq<(Seq<SubMsg>, String)> {
    v.map_values(|p: (Vec<SubMsg>, String)| (p.0@, p.1))
}

pub open spec fn opt_named_view(v: Seq<(Vec<SubMsg>, Option<String>)>) -> Seq<
    (Seq<SubMsg>, Option<String>),
> {
    v.map_values(|p: (Vec<SubMsg>, Option<String>)| (p.0@, p.1))
}

pub open spec fn suggestions_view(v: Seq<(Vec<SubMsg>, Vec<SubMsg>, Option<String>, Applicability)>) -> Seq<
    (Seq<SubMsg>, Seq<SubMsg>, Option<String>, Applicability),
> {
    v.map_values(
        |p: (Vec<SubMsg>, Vec<SubMsg>, Option<String>, Applicability)| (p.0@, p.1@, p.2, p.3),
    )
}

impl View for DynamicErrorBuilder {
    type V = DynamicErrorBuilderView;

    closed spec fn view(&self) -> DynamicErrorBuilderView {
        DynamicErrorBuilderView {
            primary: (self.primary.0@, self.primary.1),
            labels: named_view(self.labels@),
            notes: opt_named_view(self.notes@),
            helps: opt_named_view(self.helps@),
            suggestions: suggestions_view(self.suggestions@),
            lint_name: self.lint.name@,
            lint_level: self.lint.default_level,
        }
    }
}

/// What the items of a diagnostic block have given so far.
pub struct BuilderState {
    pub primary: Option<(Seq<SubMsg>, String)>,
    pub labels: Seq<(Seq<SubMsg>, String)>,
    pub notes: Seq<(Seq<SubMsg>, Option<String>)>,
    pub helps: Seq<(Seq<SubMsg>, Option<String>)>,
    pub suggestions: Seq<(Seq<SubMsg>, Seq<SubMsg>, Option<String>, Applicability)>,
    pub level: Level,
    pub name: Option<DiagMessageInner>,
}

pub open spec fn initial_builder_state() -> BuilderState {
    BuilderState {
        primary: None,
        labels: Seq::empty(),
        notes: Seq::empty(),
        helps: Seq::empty(),
        suggestions: Seq::empty(),
        level: Level::Deny,
        name: None,
    }
}

/// The level that a diagnostic block names, if it names a known one.
pub open spec fn spec_level(text: Seq<char>) -> Option<Level> {
    if text == "allow"@ {
        Some(Level::Allow)
    } else if text == "warn"@ {
        Some(Level::Warn)
    } else if text == "deny"@ {
        Some(Level::Deny)
    } else if text == "forbid"@ {
        Some(Level::Forbid)
    } else {
        None
    }
}

/// The keys a diagnostic item may have.
pub open spec fn known_key(key: Seq<char>) -> bool {
    key == "primary"@ || key == "label"@ || key == "note"@ || key == "help"@ || key == "name"@
        || key == "level"@ || key == "suggestion"@
}

/// One item of a diagnostic block.
pub open spec fn item_step(st: BuilderState, d: DiagItem, path: String, tab: NonLocalMetaSymTab) -> Result<
    BuilderState,
    ParseError,
> {
    let msgs = spec_sub_msgs(d.message, tab);
    if d.key@ == "primary"@ {
        match d.args {
            None => Err(ParseError::Empty(wrap(d.span, path))),
            Some(a) => match spec_parse_ident(path, a) {
                Err(e) => Err(e),
                Ok(id) => Ok(BuilderState { primary: Some((msgs, id)), ..st }),
            },
        }
    } else if d.key@ == "label"@ {
        match d.args {
            None => Err(ParseError::Empty(wrap(d.span, path))),
            Some(a) => match spec_parse_ident(path, a) {
                Err(e) => Err(e),
                Ok(id) => Ok(BuilderState { labels: st.labels.push((msgs, id)), ..st }),
            },
        }
    } else if d.key@ == "note"@ {
        match d.args {
            None => Ok(BuilderState { notes: st.notes.push((msgs, None)), ..st }),
            Some(a) => match spec_parse_ident(path, a) {
                Err(e) => Err(e),
                Ok(id) => Ok(BuilderState { notes: st.notes.push((msgs, Some(id))), ..st }),
            },
        }
    } else if d.key@ == "help"@ {
        match d.args {
            None => Ok(BuilderState { helps: st.helps.push((msgs, None)), ..st }),
            Some(a) => match spec_parse_ident(path, a) {
                Err(e) => Err(e),
                Ok(id) => Ok(BuilderState { helps: st.helps.push((msgs, Some(id))), ..st }),
            },
        }
    } else if d.key@ == "name"@ {
        match d.args {
            Some(_) => Err(ParseError::UnexpectedArguments(wrap(d.span, path))),
            None => Ok(BuilderState { name: Some(d.message), ..st }),
        }
    } else if d.key@ == "level"@ {
        match spec_level(d.message.text@) {
            Some(l) => Ok(BuilderState { level: l, ..st }),
            None => Ok(st),
        }
    } else if d.key@ == "suggestion"@ {
        match d.args {
            None => Err(ParseError::Empty(wrap(d.span, path))),
            Some(a) => match spec_parse_suggestion(path, a) {
                Err(e) => Err(e),
                Ok((code, span, applicability)) => Ok(
                    BuilderState {
                        suggestions: st.suggestions.push(
                            (msgs, spec_sub_msgs(code, tab), span, applicability),
                        ),
                        ..st
                    },
                ),
            },
        }
    } else {
        Ok(st)
    }
}

/// Reading one item does not fail on unchecked input: its key and level are
/// known, its argument lists are not empty, and the messages it formats name
/// only type and const meta variables.
pub open spec fn item_ok(d: DiagItem, path: String, tab: NonLocalMetaSymTab) -> bool {
    &&& known_key(d.key@)
    &&& d.args matches Some(a) ==> a.attrs@.len() >= 1
    &&& d.key@ == "level"@ ==> spec_level(d.message.text@) is Some
    &&& (d.key@ == "primary"@ || d.key@ == "label"@) ==> (d.args matches Some(a)
        && spec_parse_ident(path, a) is Ok ==> msg_resolves(d.message, tab))
    &&& (d.key@ == "note"@ || d.key@ == "help"@) ==> (d.args is None || (d.args matches Some(a)
        && spec_parse_ident(path, a) is Ok) ==> msg_resolves(d.message, tab))
    &&& d.key@ == "suggestion"@ ==> (d.args matches Some(a) ==> {
        &&& suggestion_attrs_ok(a.attrs@, path)
        &&& spec_parse_suggestion(path, a) matches Ok((code, _, _)) ==> msg_resolves(code, tab)
            && msg_resolves(d.message, tab)
    })
}

/// The items of a diagnostic block, in order, up to the first error.
pub open spec fn items_scan(items: Seq<DiagItem>, path: String, tab: NonLocalMetaSymTab) -> Result<
    BuilderState,
    ParseError,
>
    decreases items.len(),
{
    if items.len() == 0 {
        Ok(initial_builder_state())
    } else {
        match items_scan(items.drop_last(), path, tab) {
            Ok(st) => item_step(st, items.last(), path, tab),
            Err(e) => Err(e),
        }
    }
}

/// Every item read before the first error can be read.
pub open spec fn items_ok(items: Seq<DiagItem>, path: String, tab: NonLocalMetaSymTab) -> bool
    decreases items.len(),
{
    if items.len() == 0 {
        true
    } else {
        items_ok(items.drop_last(), path, tab) && (items_scan(items.drop_last(), path, tab) is Ok
            ==> item_ok(items.last(), path, tab))
    }
}

/// A diagnostic block can be read: every item read can be, and a block with a
/// primary message also has a name.
pub open spec fn from_item_ok(item: DiagBlockItem, path: String, tab: NonLocalMetaSymTab) -> bool {
    &&& items_ok(item.diags@, path, tab)
    &&& items_scan(item.diags@, path, tab) matches Ok(st) ==> (st.primary is Some ==> st.name is Some)
}

/// The builder that a diagnostic block reads as: the first error of its items,
/// else an error if it has no primary message, else its primary message, its
/// labels, notes, helps and suggestions in order, under the lint `rpl::<name>`
/// at the level it names (deny by default).
pub open spec fn spec_from_item(item: DiagBlockItem, path: String, tab: NonLocalMetaSymTab) -> Result<
    DynamicErrorBuilderView,
    ParseError,
> {
    match items_scan(item.diags@, path, tab) {
        Err(e) => Err(e),
        Ok(st) => match st.primary {
            None => Err(ParseError::PrimaryNotFound(wrap(item.span, path))),
            Some(primary) => Ok(
                DynamicErrorBuilderView {
                    primary,
                    labels: st.labels,
                    notes: st.notes,
                    helps: st.helps,
                    suggestions: st.suggestions,
                    lint_name: "rpl::"@ + st.name.unwrap().text@,
                    lint_level: st.level,
                },
            ),
        },
    }
}

proof fn lemma_items_ok_prefix(items: Seq<DiagItem>, path: String, tab: NonLocalMetaSymTab, k: int)
    requires
        0 <= k <= items.len(),
        items_ok(items, path, tab),
    ensures
        items_ok(items.take(k), path, tab),
    decreases items.len() - k,
{
    if k < items.len() {
        lemma_items_ok_prefix(items.drop_last(), path, tab, k);
        assert(items.drop_last().take(k) =~= items.take(k));
    } else {
        assert(items.take(k) =~= items);
    }
}

proof fn lemma_items_err_persists(items: Seq<DiagItem>, path: String, tab: NonLocalMetaSymTab, k: int)
    requires
        0 <= k <= items.len(),
        items_scan(items.take(k), path, tab) is Err,
    ensures
        items_scan(items, path, tab) == items_scan(items.take(k), path, tab),
    decreases items.len() - k,
{
    if k < items.len() {
        assert(items.take(k + 1).drop_last() =~= items.take(k));
        lemma_items_err_persists(items, path, tab, k + 1);
    } else {
        assert(items.take(k) =~= items);
    }
}


/// The exec state of [`DynamicErrorBuilder::from_item`] holds what `st` says.
pub open spec fn state_matches(
    st: BuilderState,
    primary: Option<(Vec<SubMsg>, String)>,
    labels: Seq<(Vec<SubMsg>, String)>,
    notes: Seq<(Vec<SubMsg>, Option<String>)>,
    helps: Seq<(Vec<SubMsg>, Option<String>)>,
    suggestions: Seq<(Vec<SubMsg>, Vec<SubMsg>, Option<String>, Applicability)>,
    level: Level,
    name: Option<DiagMessageInner>,
) -> bool {
    &&& match (primary, st.primary) {
        (Some(p), Some(q)) => p.0@ == q.0 && p.1 == q.1,
        (None, None) => true,
        _ => false,
    }
    &&& named_view(labels) == st.labels
    &&& opt_named_view(notes) == st.notes
    &&& opt_named_view(helps) == st.helps
    &&& suggestions_view(suggestions) == st.suggestions
    &&& level == st.level
    &&& name == st.name
}

pub open spec fn deref_opt(o: Option<&DiagMessageInner>) -> Option<DiagMessageInner> {
    match o {
        Some(m) => Some(*m),
        None => None,
    }
}

fn lit(s: &str) -> (r: String)
    ensures
        r@ == s@,
{
    s.to_owned()
}

impl DynamicErrorBuilder {
    /// Reads the diagnostic block of a pattern into a builder.
    pub fn from_item(item: &DiagBlockItem, path: &String, meta_vars: &NonLocalMetaSymTab) -> (r: Result<
        Self,
        ParseError,
    >)
        requires
            from_item_ok(*item, *path, *meta_vars),
        ensures
            match (r, spec_from_item(*item, *path, *meta_vars)) {
                (Ok(b), Ok(v)) => b@ == v,
                (Err(e), Err(f)) => e == f,
                _ => false,
            },
    {
        let ghost items = item.diags@;
        let ghost tab = *meta_vars;
        let mut primary: Option<(Vec<SubMsg>, String)> = None;
        let mut labels: Vec<(Vec<SubMsg>, String)> = Vec::new();
        let mut notes: Vec<(Vec<SubMsg>, Option<String>)> = Vec::new();
        let mut helps: Vec<(Vec<SubMsg>, Option<String>)> = Vec::new();
        let mut suggestions: Vec<(Vec<SubMsg>, Vec<SubMsg>, Option<String>, Applicability)> =
            Vec::new();
        let mut level = Level::Deny;
        let mut name: Option<&DiagMessageInner> = None;
        assert(named_view(labels@) =~= Seq::empty());
        assert(opt_named_view(notes@) =~= Seq::empty());
        assert(opt_named_view(helps@) =~= Seq::empty());
        assert(suggestions_view(suggestions@) =~= Seq::empty());
        let n = item.diags.len();
        for i in 0..n
            invariant
                n == items.len(),
                items == item.diags@,
                tab == *meta_vars,
                from_item_ok(*item, *path, tab),
                items_scan(items.take(i as int), *path, tab) matches Ok(st) && state_matches(
                    st,
                    primary,
                    labels@,
                    notes@,
                    helps@,
                    suggestions@,
                    level,
                    deref_opt(name),
                ),
        {
            proof {
                lemma_items_ok_prefix(items, *path, tab, i as int + 1);
                assert(items.take(i + 1).drop_last() =~= items.take(i as int));
                assert(items.take(i + 1).last() == items[i as int]);
            }
            let diag = &item.diags[i];
            if text_is(&diag.key, "primary") {
                let args = match &diag.args {
                    Some(a) => a,
                    None => {
                        proof {
                            lemma_items_err_persists(items, *path, tab, i as int + 1);
                        }
                        return Err(ParseError::Empty(SpanWrapper { span: diag.span, path: path.clone() }));
                    },
                };
                let ident = match parse_ident(path, args) {
                    Ok(id) => id,
                    Err(e) => {
                        proof {
                            lemma_items_err_persists(items, *path, tab, i as int + 1);
                        }
                        return Err(e);
                    },
                };
                primary = Some((SubMsg::parse(&diag.message, meta_vars), ident));
            } else if text_is(&diag.key, "label") {
                let args = match &diag.args {
                    Some(a) => a,
                    None => {
                        proof {
                            lemma_items_err_persists(items, *path, tab, i as int + 1);
                        }
                        return Err(ParseError::Empty(SpanWrapper { span: diag.span, path: path.clone() }));
                    },
                };
                let ident = match parse_ident(path, args) {
                    Ok(id) => id,
                    Err(e) => {
                        proof {
                            lemma_items_err_persists(items, *path, tab, i as int + 1);
                        }
                        return Err(e);
                    },
                };
                let entry = (SubMsg::parse(&diag.message, meta_vars), ident);
                let ghost before = labels@;
                labels.push(entry);
                assert(named_view(labels@) =~= named_view(before).push((entry.0@, entry.1)));
            } else if text_is(&diag.key, "note") || text_is(&diag.key, "help") {
                let ident = match &diag.args {
                    None => None,
                    Some(args) => match parse_ident(path, args) {
                        Ok(id) => Some(id),
                        Err(e) => {
                            proof {
                                lemma_items_err_persists(items, *path, tab, i as int + 1);
                            }
                            return Err(e);
                        },
                    },
                };
                let entry = (SubMsg::parse(&diag.message, meta_vars), ident);
                if text_is(&diag.key, "note") {
                    let ghost before = notes@;
                    notes.push(entry);
                    assert(opt_named_view(notes@) =~= opt_named_view(before).push((entry.0@, entry.1)));
                } else {
                    let ghost before = helps@;
                    helps.push(entry);
                    assert(opt_named_view(helps@) =~= opt_named_view(before).push((entry.0@, entry.1)));
                }
            } else if text_is(&diag.key, "name") {
                if diag.args.is_some() {
                    proof {
                        lemma_items_err_persists(items, *path, tab, i as int + 1);
                    }
                    return Err(
                        ParseError::UnexpectedArguments(SpanWrapper { span: diag.span, path: path.clone() }),
                    );
                }
                name = Some(&diag.message);
            } else if text_is(&diag.key, "level") {
                let text = &diag.message.text;
                level = if text_is(text, "allow") {
                    Level::Allow
                } else if text_is(text, "warn") {
                    Level::Warn
                } else if text_is(text, "deny") {
                    Level::Deny
                } else {
                    Level::Forbid
                };
            } else {
                let args = match &diag.args {
                    Some(a) => a,
                    None => {
                        proof {
                            lemma_items_err_persists(items, *path, tab, i as int + 1);
                        }
                        return Err(ParseError::Empty(SpanWrapper { span: diag.span, path: path.clone() }));
                    },
                };
                let (code, span, applicability) = match parse_suggestion(path, args) {
                    Ok(parts) => parts,
                    Err(e) => {
                        proof {
                            lemma_items_err_persists(items, *path, tab, i as int + 1);
                        }
                        return Err(e);
                    },
                };
                let code = SubMsg::parse(code, meta_vars);
                let message = SubMsg::parse(&diag.message, meta_vars);
                let entry = (message, code, span, applicability);
                let ghost before = suggestions@;
                suggestions.push(entry);
                assert(suggestions_view(suggestions@) =~= suggestions_view(before).push(
                    (entry.0@, entry.1@, entry.2, entry.3),
                ));
            }
        }
        assert(items.take(n as int) =~= items);
        let primary = match primary {
            Some(p) => p,
            None => {
                return Err(ParseError::PrimaryNotFound(SpanWrapper { span: item.span, path: path.clone() }));
            },
        };
        let name = name.unwrap();
        let mut lint_name = lit("rpl::");
        lint_name.append(name.text.as_str());
        let builder = DynamicErrorBuilder {
            primary,
            labels,
            notes,
            helps,
            suggestions,
            lint: Lint { name: lint_name, default_level: level },
        };
        Ok(builder)
    }
}


/// What a match of a pattern gives a diagnostic: the span that each label
/// of the pattern matched, and the renderings of the types and consts bound
/// to its meta variables, by index.
#[derive(Debug)]
pub struct Matched {
    pub spans: Vec<(String, Span)>,
    pub types: Vec<String>,
    pub consts: Vec<String>,
}

/// The span of the first label named `name`.
pub open spec fn label_span(spans: Seq<(String, Span)>, name: Seq<char>) -> Option<Span>
    decreases spans.len(),
{
    if spans.len() == 0 {
        None
    } else {
        match label_span(spans.drop_last(), name) {
            Some(s) => Some(s),
            None => if spans.last().0@ == name {
                Some(spans.last().1)
            } else {
                None
            },
        }
    }
}

impl Matched {
    /// The span that the label `name` matched.
    pub open spec fn spec_span(&self, name: Seq<char>) -> Span {
        label_span(self.spans@, name).unwrap()
    }

    /// The rendering of the type bound to the type meta variable `idx`.
    pub open spec fn spec_type_meta_var(&self, idx: usize) -> Seq<char> {
        self.types@[idx as int]@
    }

    /// The rendering of the const bound to the const meta variable `idx`.
    pub open spec fn spec_const_meta_var(&self, idx: usize) -> Seq<char> {
        self.consts@[idx as int]@
    }

    /// The match knows the label `name`.
    pub open spec fn has_label(&self, name: Seq<char>) -> bool {
        label_span(self.spans@, name) is Some
    }

    /// The match binds every meta variable that `msgs` refers to.
    pub open spec fn binds(&self, msgs: Seq<SubMsg>) -> bool {
        forall|i: int|
            0 <= i < msgs.len() ==> match #[trigger] msgs[i] {
                SubMsg::Ty(idx) => idx < self.types@.len(),
                SubMsg::Const(idx) => idx < self.consts@.len(),
                SubMsg::Str(_) => true,
            }
    }

    /// The span that the label `name` matched.
    pub fn span(&self, name: &str) -> (r: Span)
        requires
            self.has_label(name@),
        ensures
            r == self.spec_span(name@),
    {
        let ghost spans = self.spans@;
        let mut i: usize = 0;
        let owned = name.to_owned();
        while i < self.spans.len()
            invariant
                spans == self.spans@,
                owned@ == name@,
                i <= spans.len(),
                label_span(spans.take(i as int), name@) is None,
                label_span(spans, name@) is Some,
            decreases spans.len() - i,
        {
            assert(spans.take(i + 1).drop_last() =~= spans.take(i as int));
            if self.spans[i].0 == owned {
                proof {
                    lemma_label_span_prefix(spans, name@, i as int + 1);
                }
                return self.spans[i].1;
            }
            i += 1;
        }
        assert(spans.take(i as int) =~= spans);
        self.spans[0].1
    }
}

proof fn lemma_label_span_prefix(spans: Seq<(String, Span)>, name: Seq<char>, k: int)
    requires
        0 <= k <= spans.len(),
        label_span(spans.take(k), name) is Some,
    ensures
        label_span(spans, name) == label_span(spans.take(k), name),
    decreases spans.len() - k,
{
    if k < spans.len() {
        assert(spans.take(k + 1).drop_last() =~= spans.take(k));
        lemma_label_span_prefix(spans, name, k + 1);
    } else {
        assert(spans.take(k) =~= spans);
    }
}

/// The text of one piece of a message in a match.
pub open spec fn spec_piece(msg: SubMsg, matched: Matched) -> Seq<char> {
    match msg {
        SubMsg::Str(s) => s@,
        SubMsg::Ty(idx) => matched.spec_type_meta_var(idx),
        SubMsg::Const(idx) => matched.spec_const_meta_var(idx),
    }
}

/// A message in a match: its pieces, concatenated.
pub open spec fn spec_format(msgs: Seq<SubMsg>, matched: Matched) -> Seq<char>
    decreases msgs.len(),
{
    if msgs.len() == 0 {
        Seq::empty()
    } else {
        spec_format(msgs.drop_last(), matched) + spec_piece(msgs.last(), matched)
    }
}

pub open spec fn spec_opt_span(name: Option<String>, matched: Matched) -> Option<Span> {
    match name {
        Some(n) => Some(matched.spec_span(n@)),
        None => None,
    }
}

pub open spec fn expected_labels(b: Seq<(Seq<SubMsg>, String)>, matched: Matched) -> Seq<
    (Seq<char>, Span),
> {
    b.map_values(|l: (Seq<SubMsg>, String)| (spec_format(l.0, matched), matched.spec_span(l.1@)))
}

pub open spec fn expected_opt(b: Seq<(Seq<SubMsg>, Option<String>)>, matched: Matched) -> Seq<
    (Seq<char>, Option<Span>),
> {
    b.map_values(
        |l: (Seq<SubMsg>, Option<String>)| (spec_format(l.0, matched), spec_opt_span(l.1, matched)),
    )
}

pub open spec fn expected_suggestions(
    b: Seq<(Seq<SubMsg>, Seq<SubMsg>, Option<String>, Applicability)>,
    matched: Matched,
) -> Seq<(Seq<char>, Seq<char>, Span, Applicability)> {
    b.map_values(
        |l: (Seq<SubMsg>, Seq<SubMsg>, Option<String>, Applicability)|
            (
                spec_format(l.0, matched),
                spec_format(l.1, matched),
                matched.spec_span(l.2.unwrap()@),
                l.3,
            ),
    )
}

pub open spec fn built_labels(v: Seq<(String, Span)>) -> Seq<(Seq<char>, Span)> {
    v.map_values(|p: (String, Span)| crate::diag::text_span_view(p))
}

pub open spec fn built_opt(v: Seq<(String, Option<Span>)>) -> Seq<(Seq<char>, Option<Span>)> {
    v.map_values(|p: (String, Option<Span>)| crate::diag::text_opt_span_view(p))
}

pub open spec fn built_suggestions(v: Seq<(String, String, Span, Applicability)>) -> Seq<
    (Seq<char>, Seq<char>, Span, Applicability),
> {
    v.map_values(|p: (String, String, Span, Applicability)| crate::diag::suggestion_view(p))
}

/// A match can build a diagnostic: it knows every label that the builder
/// names and binds every meta variable that its messages refer to, and every
/// suggestion names its span.
pub open spec fn can_build(b: DynamicErrorBuilderView, m: Matched) -> bool {
    &&& m.has_label(b.primary.1@) && m.binds(b.primary.0)
    &&& forall|i: int|
        0 <= i < b.labels.len() ==> m.has_label((#[trigger] b.labels[i]).1@) && m.binds(b.labels[i].0)
    &&& forall|i: int|
        0 <= i < b.notes.len() ==> m.binds((#[trigger] b.notes[i]).0) && (b.notes[i].1 matches Some(n)
            ==> m.has_label(n@))
    &&& forall|i: int|
        0 <= i < b.helps.len() ==> m.binds((#[trigger] b.helps[i]).0) && (b.helps[i].1 matches Some(n)
            ==> m.has_label(n@))
    &&& forall|i: int|
        0 <= i < b.suggestions.len() ==> m.binds((#[trigger] b.suggestions[i]).0) && m.binds(
            b.suggestions[i].1,
        ) && (b.suggestions[i].2 matches Some(n) && m.has_label(n@))
}

/// Formats a message in a match.
fn format(message: &Vec<SubMsg>, matched: &Matched) -> (r: String)
    requires
        matched.binds(message@),
    ensures
        r@ == spec_format(message@, *matched),
{
    let mut s = String::new();
    assert(message@.take(0) =~= Seq::<SubMsg>::empty());
    for i in 0..message.len()
        invariant
            matched.binds(message@),
            s@ == spec_format(message@.take(i as int), *matched),
    {
        assert(message@.take(i + 1).drop_last() =~= message@.take(i as int));
        match &message[i] {
            SubMsg::Str(smsg) => s.append(smsg.as_str()),
            SubMsg::Ty(idx) => {
                assert(matched.binds(message@) && message@[i as int] == SubMsg::Ty(*idx));
                s.append(matched.types[*idx].as_str());
            },
            SubMsg::Const(idx) => {
                assert(message@[i as int] == SubMsg::Const(*idx));
                s.append(matched.consts[*idx].as_str());
            },
        }
    }
    assert(message@.take(message@.len() as int) =~= message@);
    s
}

impl DynamicErrorBuilder {
    /// The diagnostic of a match: every message formatted and every span
    /// resolved in the match, under the builder's lint.
    pub fn build(&self, matched: &Matched) -> (r: DynamicError)
        requires
            can_build(self@, *matched),
        ensures
            r@.primary == (spec_format(self@.primary.0, *matched), matched.spec_span(self@.primary.1@)),
            r@.labels == expected_labels(self@.labels, *matched),
            r@.notes == expected_opt(self@.notes, *matched),
            r@.helps == expected_opt(self@.helps, *matched),
            r@.suggestions == expected_suggestions(self@.suggestions, *matched),
            r@.lint_name == self@.lint_name,
            r@.lint_level == self@.lint_level,
    {
        let primary = (format(&self.primary.0, matched), matched.span(self.primary.1.as_str()));
        let ghost bv = self@;
        let mut labels: Vec<(String, Span)> = Vec::new();
        for i in 0..self.labels.len()
            invariant
                bv == self@,
                can_build(bv, *matched),
                bv.labels.len() == self.labels@.len(),
                built_labels(labels@) =~= expected_labels(bv.labels.take(i as int), *matched),
        {
            let (label, span) = &self.labels[i];
            assert(bv.labels[i as int] == (self.labels@[i as int].0@, self.labels@[i as int].1));
            assert(matched.has_label(bv.labels[i as int].1@) && matched.binds(bv.labels[i as int].0));
            let entry = (format(label, matched), matched.span(span.as_str()));
            let ghost before = labels@;
            labels.push(entry);
            proof {
                assert(bv.labels[i as int] == (self.labels@[i as int].0@, self.labels@[i as int].1));
                assert(bv.labels.take(i + 1) =~= bv.labels.take(i as int).push(bv.labels[i as int]));
                assert(built_labels(labels@) =~= built_labels(before).push(
                    crate::diag::text_span_view(entry),
                ));
                assert(expected_labels(bv.labels.take(i + 1), *matched) =~= expected_labels(
                    bv.labels.take(i as int),
                    *matched,
                ).push(crate::diag::text_span_view(entry)));
            }
        }
        assert(bv.labels.take(self.labels@.len() as int) =~= bv.labels);
        let mut notes: Vec<(String, Option<Span>)> = Vec::new();
        for i in 0..self.notes.len()
            invariant
                bv == self@,
                can_build(bv, *matched),
                bv.notes.len() == self.notes@.len(),
                built_opt(notes@) =~= expected_opt(bv.notes.take(i as int), *matched),
        {
            let (note, span) = &self.notes[i];
            assert(bv.notes[i as int] == (self.notes@[i as int].0@, self.notes@[i as int].1));
            assert(matched.binds(bv.notes[i as int].0));
            let span = match span {
                Some(span) => Some(matched.span(span.as_str())),
                None => None,
            };
            let entry = (format(note, matched), span);
            let ghost before = notes@;
            notes.push(entry);
            proof {
                assert(bv.notes[i as int] == (self.notes@[i as int].0@, self.notes@[i as int].1));
                assert(bv.notes.take(i + 1) =~= bv.notes.take(i as int).push(bv.notes[i as int]));
                assert(built_opt(notes@) =~= built_opt(before).push(
                    crate::diag::text_opt_span_view(entry),
                ));
                assert(expected_opt(bv.notes.take(i + 1), *matched) =~= expected_opt(
                    bv.notes.take(i as int),
                    *matched,
                ).push(crate::diag::text_opt_span_view(entry)));
            }
        }
        assert(bv.notes.take(self.notes@.len() as int) =~= bv.notes);
        let mut helps: Vec<(String, Option<Span>)> = Vec::new();
        for i in 0..self.helps.len()
            invariant
                bv == self@,
                can_build(bv, *matched),
                bv.helps.len() == self.helps@.len(),
                built_opt(helps@) =~= expected_opt(bv.helps.take(i as int), *matched),
        {
            let (help, span) = &self.helps[i];
            assert(bv.helps[i as int] == (self.helps@[i as int].0@, self.helps@[i as int].1));
            assert(matched.binds(bv.helps[i as int].0));
            let span = match span {
                Some(span) => Some(matched.span(span.as_str())),
                None => None,
            };
            let entry = (format(help, matched), span);
            let ghost before = helps@;
            helps.push(entry);
            proof {
                assert(bv.helps[i as int] == (self.helps@[i as int].0@, self.helps@[i as int].1));
                assert(bv.helps.take(i + 1) =~= bv.helps.take(i as int).push(bv.helps[i as int]));
                assert(built_opt(helps@) =~= built_opt(before).push(
                    crate::diag::text_opt_span_view(entry),
                ));
                assert(expected_opt(bv.helps.take(i + 1), *matched) =~= expected_opt(
                    bv.helps.take(i as int),
                    *matched,
                ).push(crate::diag::text_opt_span_view(entry)));
            }
        }
        assert(bv.helps.take(self.helps@.len() as int) =~= bv.helps);
        let mut suggestions: Vec<(String, String, Span, Applicability)> = Vec::new();
        for i in 0..self.suggestions.len()
            invariant
                bv == self@,
                can_build(bv, *matched),
                bv.suggestions.len() == self.suggestions@.len(),
                built_suggestions(suggestions@) =~= expected_suggestions(
                    bv.suggestions.take(i as int),
                    *matched,
                ),
        {
            let (suggestion, code, span, applicability) = &self.suggestions[i];
            assert(bv.suggestions[i as int] == (
                self.suggestions@[i as int].0@,
                self.suggestions@[i as int].1@,
                self.suggestions@[i as int].2,
                self.suggestions@[i as int].3,
            ));
            assert(bv.suggestions[i as int].2 is Some);
            assert(matched.binds(bv.suggestions[i as int].0) && matched.binds(bv.suggestions[i as int].1));
            let span = match span {
                Some(span) => matched.span(span.as_str()),
                None => matched.span(""),
            };
            let entry = (format(suggestion, matched), format(code, matched), span, *applicability);
            let ghost before = suggestions@;
            suggestions.push(entry);
            proof {
                assert(bv.suggestions.take(i + 1) =~= bv.suggestions.take(i as int).push(
                    bv.suggestions[i as int],
                ));
                assert(built_suggestions(suggestions@) =~= built_suggestions(before).push(
                    crate::diag::suggestion_view(entry),
                ));
                assert(expected_suggestions(bv.suggestions.take(i + 1), *matched) =~= expected_suggestions(
                    bv.suggestions.take(i as int),
                    *matched,
                ).push(crate::diag::suggestion_view(entry)));
            }
        }
        assert(bv.suggestions.take(self.suggestions@.len() as int) =~= bv.suggestions);
        let lint = Lint { name: self.lint.name.clone(), default_level: self.lint.default_level };
        DynamicError::from_parts(primary, labels, notes, helps, suggestions, lint)
    }
}

impl Matched {
    /// Whether the match knows the label `name`.
    pub fn knows_label(&self, name: &str) -> (r: bool)
        ensures
            r == self.has_label(name@),
    {
        let ghost spans = self.spans@;
        let owned = name.to_owned();
        let mut i: usize = 0;
        while i < self.spans.len()
            invariant
                spans == self.spans@,
                owned@ == name@,
                i <= spans.len(),
                label_span(spans.take(i as int), name@) is None,
            decreases spans.len() - i,
        {
            assert(spans.take(i + 1).drop_last() =~= spans.take(i as int));
            if self.spans[i].0 == owned {
                proof {
                    lemma_label_span_prefix(spans, name@, i as int + 1);
                }
                return true;
            }
            i += 1;
        }
        assert(spans.take(i as int) =~= spans);
        false
    }

    /// Whether the match binds every meta variable that `msgs` refers to.
    pub fn binds_all(&self, msgs: &Vec<SubMsg>) -> (r: bool)
        ensures
            r == self.binds(msgs@),
    {
        for i in 0..msgs.len()
            invariant
                forall|j: int|
                    0 <= j < i ==> match #[trigger] msgs@[j] {
                        SubMsg::Ty(idx) => idx < self.types@.len(),
                        SubMsg::Const(idx) => idx < self.consts@.len(),
                        SubMsg::Str(_) => true,
                    },
        {
            let ok = match &msgs[i] {
                SubMsg::Ty(idx) => *idx < self.types.len(),
                SubMsg::Const(idx) => *idx < self.consts.len(),
                SubMsg::Str(_) => true,
            };
            if !ok {
                assert(!self.binds(msgs@)) by {
                    assert(msgs@[i as int] == msgs[i as int]);
                }
                return false;
            }
        }
        true
    }

    fn knows_opt_label(&self, name: &Option<String>) -> (r: bool)
        ensures
            r == (*name matches Some(n) ==> self.has_label(n@)),
    {
        match name {
            Some(n) => self.knows_label(n.as_str()),
            None => true,
        }
    }
}

impl DynamicErrorBuilder {
    /// Whether `matched` can build this builder's diagnostic, as
    /// [`DynamicErrorBuilder::build`] asks.
    pub fn can_build_with(&self, matched: &Matched) -> (r: bool)
        ensures
            r == can_build(self@, *matched),
    {
        let ghost b = self@;
        if !(matched.knows_label(self.primary.1.as_str()) && matched.binds_all(&self.primary.0)) {
            return false;
        }
        for i in 0..self.labels.len()
            invariant
                b == self@,
                b.labels.len() == self.labels@.len(),
                forall|j: int|
                    0 <= j < i ==> matched.has_label((#[trigger] b.labels[j]).1@) && matched.binds(
                        b.labels[j].0,
                    ),
        {
            assert(b.labels[i as int] == (self.labels@[i as int].0@, self.labels@[i as int].1));
            if !(matched.knows_label(self.labels[i].1.as_str()) && matched.binds_all(&self.labels[i].0)) {
                return false;
            }
        }
        for i in 0..self.notes.len()
            invariant
                b == self@,
                b.notes.len() == self.notes@.len(),
                forall|j: int|
                    0 <= j < i ==> matched.binds((#[trigger] b.notes[j]).0) && (b.notes[j].1 matches Some(
                        n,
                    ) ==> matched.has_label(n@)),
        {
            assert(b.notes[i as int] == (self.notes@[i as int].0@, self.notes@[i as int].1));
            if !(matched.binds_all(&self.notes[i].0) && matched.knows_opt_label(&self.notes[i].1)) {
                return false;
            }
        }
        for i in 0..self.helps.len()
            invariant
                b == self@,
                b.helps.len() == self.helps@.len(),
                forall|j: int|
                    0 <= j < i ==> matched.binds((#[trigger] b.helps[j]).0) && (b.helps[j].1 matches Some(
                        n,
                    ) ==> matched.has_label(n@)),
        {
            assert(b.helps[i as int] == (self.helps@[i as int].0@, self.helps@[i as int].1));
            if !(matched.binds_all(&self.helps[i].0) && matched.knows_opt_label(&self.helps[i].1)) {
                return false;
            }
        }
        for i in 0..self.suggestions.len()
            invariant
                b == self@,
                b.suggestions.len() == self.suggestions@.len(),
                forall|j: int|
                    0 <= j < i ==> matched.binds((#[trigger] b.suggestions[j]).0) && matched.binds(
                        b.suggestions[j].1,
                    ) && (b.suggestions[j].2 matches Some(n) && matched.has_label(n@)),
        {
            let s = &self.suggestions[i];
            assert(b.suggestions[i as int] == (s.0@, s.1@, s.2, s.3));
            let span_ok = match &s.2 {
                Some(n) => matched.knows_label(n.as_str()),
                None => false,
            };
            if !(matched.binds_all(&s.0) && matched.binds_all(&s.1) && span_ok) {
                return false;
            }
        }
        true
    }
}

/// Checks one item of a diagnostic block read after the state `st`: whether
/// it can be read, whether reading it fails, and whether it gives the primary
/// message or the name.
fn item_check(d: &DiagItem, path: &String, tab: &NonLocalMetaSymTab, Ghost(st): Ghost<BuilderState>) -> (r: (
    bool,
    bool,
    bool,
    bool,
))
    ensures
        r.0 == item_ok(*d, *path, *tab),
        r.0 ==> (item_step(st, *d, *path, *tab) is Err == r.1),
        r.0 && !r.1 ==> (item_step(st, *d, *path, *tab) matches Ok(next) && (next.primary is Some
            == (st.primary is Some || r.2)) && (next.name is Some == (st.name is Some || r.3))),
{
    proof {
        reveal_strlit("primary");
        reveal_strlit("label");
        reveal_strlit("note");
        reveal_strlit("help");
        reveal_strlit("name");
        reveal_strlit("level");
        reveal_strlit("suggestion");
        assert("level"@ != "label"@) by {
            assert("level"@[1] != "label"@[1]);
        }
        assert("name"@ != "note"@) by {
            assert("name"@[1] != "note"@[1]);
        }
        assert("name"@ != "help"@) by {
            assert("name"@[0] != "help"@[0]);
        }
        assert("note"@ != "help"@) by {
            assert("note"@[0] != "help"@[0]);
        }
        assert("primary"@.len() == 7 && "label"@.len() == 5 && "level"@.len() == 5);
        assert("note"@.len() == 4 && "help"@.len() == 4 && "name"@.len() == 4);
        assert("suggestion"@.len() == 10);
    }
    let is_primary = text_is(&d.key, "primary");
    let is_label = text_is(&d.key, "label");
    let is_note = text_is(&d.key, "note");
    let is_help = text_is(&d.key, "help");
    let is_name = text_is(&d.key, "name");
    let is_level = text_is(&d.key, "level");
    let is_suggestion = text_is(&d.key, "suggestion");
    if !(is_primary || is_label || is_note || is_help || is_name || is_level || is_suggestion) {
        return (false, false, false, false);
    }
    if let Some(a) = &d.args {
        if a.attrs.len() == 0 {
            return (false, false, false, false);
        }
    }
    if is_level {
        let t = &d.message.text;
        let known = text_is(t, "allow") || text_is(t, "warn") || text_is(t, "deny") || text_is(t, "forbid");
        return (known, false, false, false);
    }
    if is_name {
        return (true, d.args.is_some(), false, true);
    }
    if is_primary || is_label {
        return match &d.args {
            None => (true, true, false, false),
            Some(a) => match parse_ident(path, a) {
                Err(_) => (true, true, false, false),
                Ok(_) => (msg_resolves_exec(&d.message, tab), false, is_primary, false),
            },
        };
    }
    if is_note || is_help {
        let ident_ok = match &d.args {
            None => true,
            Some(a) => parse_ident(path, a).is_ok(),
        };
        if !ident_ok {
            return (true, true, false, false);
        }
        return (msg_resolves_exec(&d.message, tab), false, false, false);
    }
    match &d.args {
        None => (true, true, false, false),
        Some(a) => {
            if !suggestion_attrs_ok_exec(&a.attrs, path) {
                return (false, false, false, false);
            }
            match parse_suggestion(path, a) {
                Err(_) => (true, true, false, false),
                Ok((code, _, _)) => {
                    let ok = msg_resolves_exec(code, tab) && msg_resolves_exec(&d.message, tab);
                    (ok, false, false, false)
                },
            }
        },
    }
}

impl DynamicErrorBuilder {
    /// Whether a diagnostic block can be read, as
    /// [`DynamicErrorBuilder::from_item`] asks: its keys and levels are known,
    /// its argument lists are not empty, its messages name only type and const
    /// meta variables, its suggestions name known applicabilities, and a block
    /// with a primary message also has a name.
    pub fn can_read(item: &DiagBlockItem, path: &String, meta_vars: &NonLocalMetaSymTab) -> (r: bool)
        ensures
            r == from_item_ok(*item, *path, *meta_vars),
    {
        let ghost items = item.diags@;
        let ghost tab = *meta_vars;
        let mut errored = false;
        let mut has_primary = false;
        let mut has_name = false;
        let n = item.diags.len();
        for i in 0..n
            invariant
                n == items.len(),
                items == item.diags@,
                tab == *meta_vars,
                items_ok(items.take(i as int), *path, tab),
                errored == items_scan(items.take(i as int), *path, tab) is Err,
                !errored ==> (items_scan(items.take(i as int), *path, tab) matches Ok(st) && (st.primary is Some
                    == has_primary) && (st.name is Some == has_name)),
        {
            proof {
                assert(items.take(i + 1).drop_last() =~= items.take(i as int));
                assert(items.take(i + 1).last() == items[i as int]);
            }
            if !errored {
                let ghost st = match items_scan(items.take(i as int), *path, tab) {
                    Ok(s) => s,
                    Err(_) => initial_builder_state(),
                };
                let (ok, errs, sets_primary, sets_name) = item_check(
                    &item.diags[i],
                    path,
                    meta_vars,
                    Ghost(st),
                );
                if !ok {
                    proof {
                        if items_ok(items, *path, tab) {
                            lemma_items_ok_prefix(items, *path, tab, i as int + 1);
                        }
                    }
                    return false;
                }
                errored = errs;
                has_primary = has_primary || sets_primary;
                has_name = has_name || sets_name;
            }
        }
        assert(items.take(n as int) =~= items);
        errored || !has_primary || has_name
    }
}

/// The lint level that the last known `level = "..."` item of a diagnostic
/// block names: `allow` is `Allow`, `warn` is `Warn`, `deny` is `Deny`,
/// `forbid` is `Forbid`; `Deny` without such an item.
pub open spec fn last_named_level(items: Seq<DiagItem>) -> Level
    decreases items.len(),
{
    if items.len() == 0 {
        Level::Deny
    } else if items.last().key@ == "level"@ {
        let t = items.last().message.text@;
        if t == "allow"@ {
            Level::Allow
        } else if t == "warn"@ {
            Level::Warn
        } else if t == "deny"@ {
            Level::Deny
        } else if t == "forbid"@ {
            Level::Forbid
        } else {
            last_named_level(items.drop_last())
        }
    } else {
        last_named_level(items.drop_last())
    }
}

proof fn lemma_scan_level(items: Seq<DiagItem>, path: String, tab: NonLocalMetaSymTab)
    ensures
        items_scan(items, path, tab) matches Ok(st) ==> st.level == last_named_level(items),
    decreases items.len(),
{
    reveal_strlit("primary");
    reveal_strlit("label");
    reveal_strlit("note");
    reveal_strlit("help");
    reveal_strlit("name");
    reveal_strlit("level");
    assert("level"@ != "label"@) by {
        assert("level"@[1] != "label"@[1]);
    }
    assert("primary"@.len() == 7 && "level"@.len() == 5);
    assert("note"@.len() == 4 && "help"@.len() == 4 && "name"@.len() == 4);
    if items.len() > 0 {
        lemma_scan_level(items.drop_last(), path, tab);
    }
}

/// The lint level of a diagnostic block is the one its last known level item
/// names, and deny when it has none.
pub proof fn lemma_lint_level_is_last_named(item: DiagBlockItem, path: String, tab: NonLocalMetaSymTab)
    ensures
        spec_from_item(item, path, tab) matches Ok(b) ==> b.lint_level == last_named_level(item.diags@),
{
    lemma_scan_level(item.diags@, path, tab);
}

/// The text of the last `name = "..."` item of a diagnostic block, if any.
pub open spec fn last_name_text(items: Seq<DiagItem>) -> Option<Seq<char>>
    decreases items.len(),
{
    if items.len() == 0 {
        None
    } else if items.last().key@ == "name"@ {
        Some(items.last().message.text@)
    } else {
        last_name_text(items.drop_last())
    }
}

proof fn lemma_scan_name(items: Seq<DiagItem>, path: String, tab: NonLocalMetaSymTab)
    ensures
        items_scan(items, path, tab) matches Ok(st) ==> (match st.name {
            Some(m) => last_name_text(items) == Some(m.text@),
            None => last_name_text(items) is None,
        }),
    decreases items.len(),
{
    reveal_strlit("primary");
    reveal_strlit("label");
    reveal_strlit("note");
    reveal_strlit("help");
    reveal_strlit("name");
    assert("name"@ != "note"@) by {
        assert("name"@[1] != "note"@[1]);
    }
    assert("name"@ != "help"@) by {
        assert("name"@[0] != "help"@[0]);
    }
    assert("primary"@.len() == 7 && "label"@.len() == 5 && "name"@.len() == 4);
    if items.len() > 0 {
        lemma_scan_name(items.drop_last(), path, tab);
    }
}

/// A diagnostic block that reads into a builder names its lint `rpl::`
/// followed by the text of its last name item.
pub proof fn lemma_lint_name_is_last_named(item: DiagBlockItem, path: String, tab: NonLocalMetaSymTab)
    requires
        from_item_ok(item, path, tab),
    ensures
        spec_from_item(item, path, tab) matches Ok(b) ==> (last_name_text(item.diags@) matches Some(t)
            && b.lint_name == "rpl::"@ + t),
{
    lemma_scan_name(item.diags@, path, tab);
}

} // verus!
