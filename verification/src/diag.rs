//! User-defined diagnostics: the diagnostic a pattern match reports, the
//! builder that the diagnostic block of a pattern file is parsed into, and the
//! parsing of that block.

use vstd::prelude::*;

verus! {

/// A region of source code: its byte offsets, the syntax context it was
/// expanded in, and the definition it belongs to, if one is recorded. Two
/// spans are the same only when all four agree.
#[derive(Clone, Copy, Debug, PartialEq, Eq)]
pub struct Span {
    pub lo: u32,
    pub hi: u32,
    pub ctxt: u32,
    pub parent: Option<u32>,
}

/// How confident a suggestion is that its replacement code is correct.
#[derive(Clone, Copy, Debug, PartialEq, Eq, Structural)]
pub enum Applicability {
    MachineApplicable,
    MaybeIncorrect,
    HasPlaceholders,
    Unspecified,
}

/// The level at which a lint is reported by default.
#[derive(Clone, Copy, Debug, PartialEq, Eq, Structural)]
pub enum Level {
    Allow,
    Warn,
    Deny,
    Forbid,
}

/// A lint: its name and default level.
#[derive(Debug)]
pub struct Lint {
    pub name: String,
    pub default_level: Level,
}

/// One operation that reporting a diagnostic performs, in order.
#[derive(Debug)]
pub enum DiagOp {
    /// Sets the primary message.
    PrimaryMessage(String),
    /// Labels a span.
    SpanLabel(Span, String),
    /// Adds a help attached to a span.
    SpanHelp(Span, String),
    /// Adds a help without a span.
    Help(String),
    /// Adds a note attached to a span.
    SpanNote(Span, String),
    /// Adds a note without a span.
    Note(String),
    /// Suggests replacing a span with code.
    SpanSuggestion(Span, String, String, Applicability),
}

/// A dynamic error, used to report user-defined diagnostics.
#[derive(Debug)]
pub struct DynamicError {
    /// Primary message and its span: the main error message shown to the user.
    primary: (String, Span),
    /// Label descriptions and the spans they highlight.
    labels: Vec<(String, Span)>,
    notes: Vec<(String, Option<Span>)>,
    helps: Vec<(String, Option<Span>)>,
    /// Suggestion description, alternative code, the span to replace, and its
    /// applicability.
    suggestions: Vec<(String, String, Span, Applicability)>,
    lint: Lint,
}

/// The content of a [`DynamicError`], as mathematical values.
pub struct DynamicErrorView {
    pub primary: (Seq<char>, Span),
    pub labels: Seq<(Seq<char>, Span)>,
    pub notes: Seq<(Seq<char>, Option<Span>)>,
    pub helps: Seq<(Seq<char>, Option<Span>)>,
    pub suggestions: Seq<(Seq<char>, Seq<char>, Span, Applicability)>,
    pub lint_name: Seq<char>,
    pub lint_level: Level,
}

pub open spec fn text_span_view(p: (String, Span)) -> (Seq<char>, Span) {
    (p.0@, p.1)
}

pub open spec fn text_opt_span_view(p: (String, Option<Span>)) -> (Seq<char>, Option<Span>) {
    (p.0@, p.1)
}

pub open spec fn suggestion_view(p: (String, String, Span, Applicability)) -> (
    Seq<char>,
    Seq<char>,
    Span,
    Applicability,
) {
    (p.0@, p.1@, p.2, p.3)
}

impl View for DynamicError {
    type V = DynamicErrorView;

    closed spec fn view(&self) -> DynamicErrorView {
        DynamicErrorView {
            primary: text_span_view(self.primary),
            labels: self.labels@.map_values(|p: (String, Span)| text_span_view(p)),
            notes: self.notes@.map_values(|p: (String, Option<Span>)| text_opt_span_view(p)),
            helps: self.helps@.map_values(|p: (String, Option<Span>)| text_opt_span_view(p)),
            suggestions: self.suggestions@.map_values(
                |p: (String, String, Span, Applicability)| suggestion_view(p),
            ),
            lint_name: self.lint.name@,
            lint_level: self.lint.default_level,
        }
    }
}

pub open spec fn label_ops(e: DynamicErrorView) -> Seq<DiagOpView> {
    e.labels.map_values(|l: (Seq<char>, Span)| DiagOpView::SpanLabel(l.1, l.0))
}

pub open spec fn help_ops(e: DynamicErrorView) -> Seq<DiagOpView> {
    e.helps.map_values(
        |h: (Seq<char>, Option<Span>)|
            match h.1 {
                Some(s) => DiagOpView::SpanHelp(s, h.0),
                None => DiagOpView::Help(h.0),
            },
    )
}

pub open spec fn note_ops(e: DynamicErrorView) -> Seq<DiagOpView> {
    e.notes.map_values(
        |n: (Seq<char>, Option<Span>)|
            match n.1 {
                Some(s) => DiagOpView::SpanNote(s, n.0),
                None => DiagOpView::Note(n.0),
            },
    )
}

pub open spec fn suggestion_ops(e: DynamicErrorView) -> Seq<DiagOpView> {
    e.suggestions.map_values(
        |s: (Seq<char>, Seq<char>, Span, Applicability)| DiagOpView::SpanSuggestion(s.2, s.0, s.1, s.3),
    )
}

/// The operations that report a diagnostic, in the order they are applied:
/// the primary message, the labels, the helps, the notes, then the suggestions.
pub open spec fn spec_decorate_ops(e: DynamicErrorView) -> Seq<DiagOpView> {
    seq![DiagOpView::PrimaryMessage(e.primary.0)] + label_ops(e) + help_ops(e) + note_ops(e)
        + suggestion_ops(e)
}

/// A [`DiagOp`] as a mathematical value.
pub enum DiagOpView {
    PrimaryMessage(Seq<char>),
    SpanLabel(Span, Seq<char>),
    SpanHelp(Span, Seq<char>),
    Help(Seq<char>),
    SpanNote(Span, Seq<char>),
    Note(Seq<char>),
    SpanSuggestion(Span, Seq<char>, Seq<char>, Applicability),
}

impl View for DiagOp {
    type V = DiagOpView;

    open spec fn view(&self) -> DiagOpView {
        match self {
            DiagOp::PrimaryMessage(m) => DiagOpView::PrimaryMessage(m@),
            DiagOp::SpanLabel(s, m) => DiagOpView::SpanLabel(*s, m@),
            DiagOp::SpanHelp(s, m) => DiagOpView::SpanHelp(*s, m@),
            DiagOp::Help(m) => DiagOpView::Help(m@),
            DiagOp::SpanNote(s, m) => DiagOpView::SpanNote(*s, m@),
            DiagOp::Note(m) => DiagOpView::Note(m@),
            DiagOp::SpanSuggestion(s, m, c, a) => DiagOpView::SpanSuggestion(*s, m@, c@, *a),
        }
    }
}

pub open spec fn ops_view(ops: Seq<DiagOp>) -> Seq<DiagOpView> {
    ops.map_values(|o: DiagOp| o@)
}

proof fn lemma_ops_view_push(ops: Seq<DiagOp>, o: DiagOp)
    ensures
        ops_view(ops.push(o)) =~= ops_view(ops).push(o@),
{
    assert(ops.push(o)[ops.len() as int] == o);
}

fn lit(s: &str) -> (r: String)
    ensures
        r@ == s@,
{
    s.to_owned()
}

impl DynamicError {
    /// Assembles an error from its parts.
    pub(crate) fn from_parts(
        primary: (String, Span),
        labels: Vec<(String, Span)>,
        notes: Vec<(String, Option<Span>)>,
        helps: Vec<(String, Option<Span>)>,
        suggestions: Vec<(String, String, Span, Applicability)>,
        lint: Lint,
    ) -> (r: Self)
        ensures
            r@.primary == text_span_view(primary),
            r@.labels == labels@.map_values(|p: (String, Span)| text_span_view(p)),
            r@.notes == notes@.map_values(|p: (String, Option<Span>)| text_opt_span_view(p)),
            r@.helps == helps@.map_values(|p: (String, Option<Span>)| text_opt_span_view(p)),
            r@.suggestions == suggestions@.map_values(
                |p: (String, String, Span, Applicability)| suggestion_view(p),
            ),
            r@.lint_name == lint.name@,
            r@.lint_level == lint.default_level,
    {
        DynamicError { primary, labels, notes, helps, suggestions, lint }
    }

    /// The span of the primary message.
    pub fn primary_span(&self) -> (r: Span)
        ensures
            r == self@.primary.1,
    {
        self.primary.1
    }

    /// The lint this error is reported under.
    pub fn lint(&self) -> (r: &Lint)
        ensures
            r.name@ == self@.lint_name,
            r.default_level == self@.lint_level,
    {
        &self.lint
    }

    /// The diagnostic reported when a pattern has no diagnostic item: a fixed
    /// primary message at `span`, two fixed notes, under the lint
    /// `rpl::missing_diagnostic` at level deny.
    pub fn default_diagnostic(span: Span) -> (r: Self)
        ensures
            r@.primary == ("A pattern instance found in this span"@, span),
            r@.labels == Seq::<(Seq<char>, Span)>::empty(),
            r@.notes == seq![
                ("This is a fallback diagnostic message."@, None::<Span>),
                (
                    "You are seeing this because there is no corresponding diagnostic item in the RPL pattern file."@,
                    None::<Span>,
                ),
            ],
            r@.helps == Seq::<(Seq<char>, Option<Span>)>::empty(),
            r@.suggestions == Seq::<(Seq<char>, Seq<char>, Span, Applicability)>::empty(),
            r@.lint_name == "rpl::missing_diagnostic"@,
            r@.lint_level == Level::Deny,
    {
        let primary = (lit("A pattern instance found in this span"), span);
        let labels = Vec::new();
        let mut notes = Vec::new();
        notes.push((lit("This is a fallback diagnostic message."), None));
        notes.push(
            (
                lit(
                    "You are seeing this because there is no corresponding diagnostic item in the RPL pattern file.",
                ),
                None,
            ),
        );
        let helps = Vec::new();
        let suggestions = Vec::new();
        let r = DynamicError {
            primary,
            labels,
            notes,
            helps,
            suggestions,
            lint: Lint { name: lit("rpl::missing_diagnostic"), default_level: Level::Deny },
        };
        assert(r@.labels =~= Seq::<(Seq<char>, Span)>::empty());
        assert(r@.helps =~= Seq::<(Seq<char>, Option<Span>)>::empty());
        assert(r@.suggestions =~= Seq::<(Seq<char>, Seq<char>, Span, Applicability)>::empty());
        assert(r@.notes =~= seq![
            ("This is a fallback diagnostic message."@, None::<Span>),
            (
                "You are seeing this because there is no corresponding diagnostic item in the RPL pattern file."@,
                None::<Span>,
            ),
        ]);
        r
    }

    /// The operations that report this error as a diagnostic, in order.
    pub fn decorate_lint(self) -> (r: Vec<DiagOp>)
        ensures
            ops_view(r@) == spec_decorate_ops(self@),
    {
        let ghost e = self@;
        let mut ops: Vec<DiagOp> = Vec::new();
        ops.push(DiagOp::PrimaryMessage(self.primary.0.clone()));
        assert(ops_view(ops@) =~= seq![DiagOpView::PrimaryMessage(e.primary.0)]);
        for i in 0..self.labels.len()
            invariant
                e == self@,
                label_ops(e).len() == self.labels@.len(),
                ops_view(ops@) =~= seq![DiagOpView::PrimaryMessage(e.primary.0)] + label_ops(e).take(i as int),
        {
            let (label, span) = &self.labels[i];
            let op = DiagOp::SpanLabel(*span, label.clone());
            proof {
                lemma_ops_view_push(ops@, op);
                assert(label_ops(e).take(i + 1) =~= label_ops(e).take(i as int).push(op@));
            }
            ops.push(op);
        }
        assert(label_ops(e).take(self.labels@.len() as int) =~= label_ops(e));
        for i in 0..self.helps.len()
            invariant
                e == self@,
                help_ops(e).len() == self.helps@.len(),
                ops_view(ops@) =~= seq![DiagOpView::PrimaryMessage(e.primary.0)] + label_ops(e)
                    + help_ops(e).take(i as int),
        {
            let (help, span) = &self.helps[i];
            let op = match span {
                Some(span) => DiagOp::SpanHelp(*span, help.clone()),
                None => DiagOp::Help(help.clone()),
            };
            proof {
                lemma_ops_view_push(ops@, op);
                assert(help_ops(e).take(i + 1) =~= help_ops(e).take(i as int).push(op@));
            }
            ops.push(op);
        }
        assert(help_ops(e).take(self.helps@.len() as int) =~= help_ops(e));
        for i in 0..self.notes.len()
            invariant
                e == self@,
                note_ops(e).len() == self.notes@.len(),
                ops_view(ops@) =~= seq![DiagOpView::PrimaryMessage(e.primary.0)] + label_ops(e)
                    + help_ops(e) + note_ops(e).take(i as int),
        {
            let (note, span) = &self.notes[i];
            let op = match span {
                Some(span) => DiagOp::SpanNote(*span, note.clone()),
                None => DiagOp::Note(note.clone()),
            };
            proof {
                lemma_ops_view_push(ops@, op);
                assert(note_ops(e).take(i + 1) =~= note_ops(e).take(i as int).push(op@));
            }
            ops.push(op);
        }
        assert(note_ops(e).take(self.notes@.len() as int) =~= note_ops(e));
        for i in 0..self.suggestions.len()
            invariant
                e == self@,
                suggestion_ops(e).len() == self.suggestions@.len(),
                ops_view(ops@) =~= seq![DiagOpView::PrimaryMessage(e.primary.0)] + label_ops(e)
                    + help_ops(e) + note_ops(e) + suggestion_ops(e).take(i as int),
        {
            let (suggestion, code, span, applicability) = &self.suggestions[i];
            let op = DiagOp::SpanSuggestion(*span, suggestion.clone(), code.clone(), *applicability);
            proof {
                lemma_ops_view_push(ops@, op);
                assert(suggestion_ops(e).take(i + 1) =~= suggestion_ops(e).take(i as int).push(op@));
            }
            ops.push(op);
        }
        assert(suggestion_ops(e).take(self.suggestions@.len() as int) =~= suggestion_ops(e));
        ops
    }
}

/// Reporting a diagnostic applies, in this order: its primary message; a
/// label for each label; for each help a help at its span, or a plain help
/// when it has none; for each note likewise a note; then a suggestion for each
/// suggestion, each list in its own order.
pub proof fn lemma_decorate_order(e: DynamicErrorView)
    ensures
        ({
            let ops = spec_decorate_ops(e);
            let nl = e.labels.len();
            let nh = e.helps.len();
            let nn = e.notes.len();
            &&& ops.len() == 1 + nl + nh + nn + e.suggestions.len()
            &&& ops[0] == DiagOpView::PrimaryMessage(e.primary.0)
            &&& forall|i: int|
                0 <= i < nl ==> ops[1 + i] == DiagOpView::SpanLabel(
                    (#[trigger] e.labels[i]).1,
                    e.labels[i].0,
                )
            &&& forall|i: int|
                0 <= i < nh ==> ops[1 + nl + i] == match (#[trigger] e.helps[i]).1 {
                    Some(sp) => DiagOpView::SpanHelp(sp, e.helps[i].0),
                    None => DiagOpView::Help(e.helps[i].0),
                }
            &&& forall|i: int|
                0 <= i < nn ==> ops[1 + nl + nh + i] == match (#[trigger] e.notes[i]).1 {
                    Some(sp) => DiagOpView::SpanNote(sp, e.notes[i].0),
                    None => DiagOpView::Note(e.notes[i].0),
                }
            &&& forall|i: int|
                0 <= i < e.suggestions.len() ==> ops[1 + nl + nh + nn + i]
                    == DiagOpView::SpanSuggestion(
                    (#[trigger] e.suggestions[i]).2,
                    e.suggestions[i].0,
                    e.suggestions[i].1,
                    e.suggestions[i].3,
                )
        }),
{
    let p = seq![DiagOpView::PrimaryMessage(e.primary.0)];
    let a = p + label_ops(e);
    let b = a + help_ops(e);
    let c = b + note_ops(e);
    let ops = c + suggestion_ops(e);
    assert(ops == spec_decorate_ops(e));
    let nl = e.labels.len() as int;
    let nh = e.helps.len() as int;
    let nn = e.notes.len() as int;
    assert forall|i: int| 0 <= i < nl implies ops[1 + i] == DiagOpView::SpanLabel(
        (#[trigger] e.labels[i]).1,
        e.labels[i].0,
    ) by {
        assert(ops[1 + i] == c[1 + i]);
        assert(c[1 + i] == b[1 + i]);
        assert(b[1 + i] == a[1 + i]);
        assert(a[1 + i] == label_ops(e)[i]);
    }
    assert forall|i: int| 0 <= i < nh implies ops[1 + nl + i] == match (#[trigger] e.helps[i]).1 {
        Some(sp) => DiagOpView::SpanHelp(sp, e.helps[i].0),
        None => DiagOpView::Help(e.helps[i].0),
    } by {
        assert(ops[1 + nl + i] == c[1 + nl + i]);
        assert(c[1 + nl + i] == b[1 + nl + i]);
        assert(b[1 + nl + i] == help_ops(e)[i]);
    }
    assert forall|i: int| 0 <= i < nn implies ops[1 + nl + nh + i] == match (#[trigger] e.notes[i]).1 {
        Some(sp) => DiagOpView::SpanNote(sp, e.notes[i].0),
        None => DiagOpView::Note(e.notes[i].0),
    } by {
        assert(ops[1 + nl + nh + i] == c[1 + nl + nh + i]);
        assert(c[1 + nl + nh + i] == note_ops(e)[i]);
    }
    assert forall|i: int| 0 <= i < e.suggestions.len() implies ops[1 + nl + nh + nn + i]
        == DiagOpView::SpanSuggestion(
        (#[trigger] e.suggestions[i]).2,
        e.suggestions[i].0,
        e.suggestions[i].1,
        e.suggestions[i].3,
    ) by {
        assert(ops[1 + nl + nh + nn + i] == suggestion_ops(e)[i]);
    }
}

} // verus!
