//! Whether a MIR statement was lowered from a call of a given function in
//! the HIR: the function body that the statement's scope belongs to is
//! searched for a call, at the statement's span, of a function that the path
//! resolves to.

use vstd::prelude::*;

use crate::diag::Span;

verus! {

/// A body of a function, by id.
pub type BodyId = u32;

/// What a path resolves to, by id.
pub type Res = u64;

/// A function of a trait: required, or provided with a body.
#[derive(Clone, Copy, Debug, PartialEq, Eq, Structural)]
pub enum TraitFn {
    Required,
    Provided(BodyId),
}

/// A node of the HIR, as far as finding a function body goes.
#[derive(Clone, Copy, Debug, PartialEq, Eq, Structural)]
pub enum Node {
    /// A function declared in a trait.
    TraitItemFn(TraitFn),
    /// Any other trait item.
    TraitItemOther,
    /// A function of an impl, with its body.
    ImplItemFn(BodyId),
    /// Any other impl item.
    ImplItemOther,
    /// A function item, with its body.
    ItemFn(BodyId),
    /// Any other item.
    ItemOther,
    /// Any other node.
    Other,
}

/// The body of the function that a HIR node is, if it has one.
pub open spec fn spec_body_id(node: Node) -> Option<BodyId> {
    match node {
        Node::TraitItemFn(TraitFn::Provided(b)) => Some(b),
        Node::ImplItemFn(b) => Some(b),
        Node::ItemFn(b) => Some(b),
        _ => None,
    }
}

/// The body of the function that a HIR node is, if it has one.
pub fn get_body_id_from_hir_node(node: Node) -> (r: Option<BodyId>)
    ensures
        r == spec_body_id(node),
{
    match node {
        Node::TraitItemFn(trait_fn) => match trait_fn {
            TraitFn::Provided(body_id) => Some(body_id),
            TraitFn::Required => None,
        },
        Node::ImplItemFn(body_id) => Some(body_id),
        Node::ItemFn(body_id) => Some(body_id),
        _ => None,
    }
}

/// A qualified path in an expression.
#[derive(Debug)]
pub enum QPath {
    /// A path resolved to a definition.
    Resolved(Res),
    /// A type-relative or lang-item path.
    Other,
}

/// The kind of a HIR expression, with its subexpressions in visiting order.
#[derive(Debug)]
pub enum ExprKind {
    /// A call: the callee, then the arguments.
    Call(Box<Expr>, Vec<Expr>),
    /// A path.
    Path(QPath),
    /// Any other expression, with its subexpressions.
    Other(Vec<Expr>),
}

/// A HIR expression.
#[derive(Debug)]
pub struct Expr {
    pub span: Span,
    pub kind: ExprKind,
}

/// `e` calls, at `span`, a function that one of `res` names.
pub open spec fn is_target_call(e: Expr, span: Span, res: Seq<Res>) -> bool {
    e.span == span && match e.kind {
        ExprKind::Call(callee, _) => match callee.kind {
            ExprKind::Path(QPath::Resolved(r)) => res.contains(r),
            _ => false,
        },
        _ => false,
    }
}

/// `e` or one of its subexpressions is such a call.
pub open spec fn contains_target_call(e: Expr, span: Span, res: Seq<Res>) -> bool
    decreases e,
{
    is_target_call(e, span, res) || match e.kind {
        ExprKind::Call(callee, args) => contains_target_call(*callee, span, res) || exists|i: int|
            0 <= i < args@.len() && contains_target_call(#[trigger] args@[i], span, res),
        ExprKind::Path(_) => false,
        ExprKind::Other(children) => exists|i: int|
            0 <= i < children@.len() && contains_target_call(#[trigger] children@[i], span, res),
    }
}


/// Finds, in a function body, a call at a given span of a function that one
/// of the given resolutions names.
pub struct FindExprBySpanAndFnPath {
    /// The span of the matched MIR statement.
    span: Span,
    /// What the path of the function to find resolves to.
    resolved_res: Vec<Res>,
    /// Whether such a call was found.
    found: bool,
}

fn res_contains(res: &Vec<Res>, r: Res) -> (b: bool)
    ensures
        b == res@.contains(r),
{
    for i in 0..res.len()
        invariant
            forall|j: int| 0 <= j < i ==> res@[j] != r,
    {
        if res[i] == r {
            assert(res@[i as int] == r);
            return true;
        }
    }
    false
}

impl FindExprBySpanAndFnPath {
    pub closed spec fn spec_span(&self) -> Span {
        self.span
    }

    pub closed spec fn spec_res(&self) -> Seq<Res> {
        self.resolved_res@
    }

    pub closed spec fn spec_found(&self) -> bool {
        self.found
    }

    /// A finder for calls at `span` of functions that `resolved_res` names,
    /// with nothing found yet.
    pub fn new(span: Span, resolved_res: Vec<Res>) -> (r: Self)
        ensures
            r.spec_span() == span,
            r.spec_res() == resolved_res@,
            !r.spec_found(),
    {
        FindExprBySpanAndFnPath { span, resolved_res, found: false }
    }

    /// Whether a call was found.
    pub fn found(&self) -> (r: bool)
        ensures
            r == self.spec_found(),
    {
        self.found
    }

    fn is_target_call_exec(&self, ex: &Expr) -> (b: bool)
        ensures
            b == is_target_call(*ex, self.span, self.resolved_res@),
    {
        let same_parent = match (ex.span.parent, self.span.parent) {
            (Some(a), Some(b)) => a == b,
            (None, None) => true,
            _ => false,
        };
        if ex.span.lo != self.span.lo || ex.span.hi != self.span.hi || ex.span.ctxt != self.span.ctxt
            || !same_parent {
            return false;
        }
        match &ex.kind {
            ExprKind::Call(callee, _args) => match &callee.kind {
                ExprKind::Path(QPath::Resolved(r)) => res_contains(&self.resolved_res, *r),
                _ => false,
            },
            _ => false,
        }
    }

    /// Visits an expression: a matching call is recorded and not entered;
    /// any other expression has its subexpressions visited in order.
    pub fn visit_expr(&mut self, ex: &Expr)
        ensures
            final(self).spec_span() == old(self).spec_span(),
            final(self).spec_res() == old(self).spec_res(),
            final(self).spec_found() == (old(self).spec_found() || contains_target_call(
                *ex,
                old(self).spec_span(),
                old(self).spec_res(),
            )),
        decreases ex,
    {
        if self.is_target_call_exec(ex) {
            self.found = true;
        } else {
            match &ex.kind {
                ExprKind::Call(callee, args) => {
                    self.visit_expr(callee);
                    self.visit_list(args);
                },
                ExprKind::Path(_) => {},
                ExprKind::Other(children) => {
                    self.visit_list(children);
                },
            }
        }
    }

    fn visit_list(&mut self, es: &Vec<Expr>)
        ensures
            final(self).spec_span() == old(self).spec_span(),
            final(self).spec_res() == old(self).spec_res(),
            final(self).spec_found() == (old(self).spec_found() || exists|i: int|
                0 <= i < es@.len() && contains_target_call(
                    #[trigger] es@[i],
                    old(self).spec_span(),
                    old(self).spec_res(),
                )),
        decreases es,
    {
        let ghost span = self.span;
        let ghost res = self.resolved_res@;
        let ghost was = self.found;
        for i in 0..es.len()
            invariant
                self.span == span,
                self.resolved_res@ == res,
                self.found == (was || exists|j: int|
                    0 <= j < i && contains_target_call(#[trigger] es@[j], span, res)),
        {
            self.visit_expr(&es[i]);
        }
    }
}

/// Whether the statement at `span`, whose scope lies in the HIR node
/// `scope_node`, was lowered from a call of a function that
/// `resolved_res` names: the node must be a function with a body, and
/// `body_value`, the value of that body, must contain such a call at `span`.
pub fn translate_from_hir_function(
    span: Span,
    scope_node: Option<Node>,
    body_value: Option<&Expr>,
    resolved_res: Vec<Res>,
) -> (r: bool)
    requires
        scope_node matches Some(n) && spec_body_id(n) is Some ==> body_value is Some,
    ensures
        r == (scope_node matches Some(n) && spec_body_id(n) is Some && contains_target_call(
            *body_value.unwrap(),
            span,
            resolved_res@,
        )),
{
    let node = match scope_node {
        Some(node) => node,
        None => return false,
    };
    if get_body_id_from_hir_node(node).is_none() {
        return false;
    }
    let body = body_value.unwrap();
    let mut finder = FindExprBySpanAndFnPath::new(span, resolved_res);
    finder.visit_expr(body);
    finder.found()
}


/// A `::` separator starts at `k` in `s`.
pub open spec fn sep_at(s: Seq<char>, k: int) -> bool {
    0 <= k && k + 1 < s.len() && s[k] == ':' && s[k + 1] == ':'
}

/// The first `::` separator of `s` at or after `i`.
pub open spec fn first_sep_from(s: Seq<char>, i: int) -> Option<int>
    decreases s.len() - i,
{
    if i < 0 || i + 1 >= s.len() {
        None
    } else if sep_at(s, i) {
        Some(i)
    } else {
        first_sep_from(s, i + 1)
    }
}

/// `s` split at each `::`, from left to right.
pub open spec fn spec_split_path(s: Seq<char>) -> Seq<Seq<char>>
    decreases s.len(),
{
    match first_sep_from(s, 0) {
        Some(k) => if 0 <= k && k + 2 <= s.len() {
            seq![s.take(k)].add(spec_split_path(s.skip(k + 2)))
        } else {
            seq![s]
        },
        None => seq![s],
    }
}

/// The segments joined again, with `::` between each two.
pub open spec fn join_path(parts: Seq<Seq<char>>) -> Seq<char>
    decreases parts.len(),
{
    if parts.len() == 0 {
        Seq::empty()
    } else if parts.len() == 1 {
        parts[0]
    } else {
        parts[0] + seq![':', ':'] + join_path(parts.drop_first())
    }
}

proof fn lemma_first_sep_bounds(s: Seq<char>, i: int)
    requires
        0 <= i,
    ensures
        first_sep_from(s, i) matches Some(k) ==> i <= k && sep_at(s, k) && forall|j: int|
            i <= j < k ==> !sep_at(s, j),
        first_sep_from(s, i) is None ==> forall|j: int| i <= j ==> !sep_at(s, j),
    decreases s.len() - i,
{
    if i + 1 < s.len() && !sep_at(s, i) {
        lemma_first_sep_bounds(s, i + 1);
    }
}

/// Splitting a path at its `::` separators and joining the segments again
/// gives the path back.
pub proof fn lemma_split_join(s: Seq<char>)
    ensures
        join_path(spec_split_path(s)) == s,
        spec_split_path(s).len() >= 1,
    decreases s.len(),
{
    lemma_first_sep_bounds(s, 0);
    match first_sep_from(s, 0) {
        Some(k) => {
            let rest = s.skip(k + 2);
            lemma_split_join(rest);
            let parts = seq![s.take(k)].add(spec_split_path(rest));
            assert(parts.drop_first() =~= spec_split_path(rest));
            assert(s =~= s.take(k) + seq![':', ':'] + rest);
        },
        None => {},
    }
}

/// Whether `s` has a `::` separator starting at `k`.
fn sep_at_exec(s: &str, n: usize, k: usize) -> (b: bool)
    requires
        n == s@.len(),
    ensures
        b == sep_at(s@, k as int),
{
    if k >= n || n - k < 2 {
        return false;
    }
    s.get_char(k) == ':' && s.get_char(k + 1) == ':'
}

/// The segments of a function path such as `std::mem::transmute`, split at
/// each `::` from left to right.
pub fn split_fn_path(path: &str) -> (r: Vec<String>)
    ensures
        r@.map_values(|p: String| p@) == spec_split_path(path@),
{
    let n = path.unicode_len();
    let mut parts: Vec<String> = Vec::new();
    let mut start: usize = 0;
    let mut i: usize = 0;
    assert(path@.skip(0) =~= path@);
    assert(parts@.map_values(|p: String| p@) =~= Seq::<Seq<char>>::empty());
    while i < n
        invariant
            n == path@.len(),
            start <= i <= n,
            forall|j: int| start <= j < i ==> !sep_at(path@, j),
            parts@.map_values(|p: String| p@) + spec_split_path(path@.skip(start as int))
                == spec_split_path(path@),
        decreases n - i,
    {
        if sep_at_exec(path, n, i) {
            let ghost rest = path@.skip(start as int);
            proof {
                lemma_first_sep_bounds(rest, 0);
                assert forall|j: int| 0 <= j < i - start implies !sep_at(rest, j) by {
                    assert(!sep_at(path@, j + start));
                }
                assert(sep_at(rest, i - start));
                if first_sep_from(rest, 0) != Some((i - start) as int) {
                    let k = first_sep_from(rest, 0)->0;
                    assert(sep_at(path@, k + start));
                }
                assert(rest.take(i - start) =~= path@.subrange(start as int, i as int));
                assert(rest.skip(i - start + 2) =~= path@.skip(i + 2));
            }
            let part = path.substring_char(start, i).to_owned();
            let ghost before = parts@;
            parts.push(part);
            assert(parts@.map_values(|p: String| p@) =~= before.map_values(|p: String| p@).push(
                path@.subrange(start as int, i as int),
            ));
            start = i + 2;
            i = i + 2;
        } else {
            i += 1;
        }
    }
    let ghost rest = path@.skip(start as int);
    proof {
        lemma_first_sep_bounds(rest, 0);
        if first_sep_from(rest, 0) is Some {
            let k = first_sep_from(rest, 0)->0;
            assert(sep_at(path@, k + start));
        }
        assert(path@.subrange(start as int, n as int) =~= rest);
    }
    let last = path.substring_char(start, n).to_owned();
    let ghost before = parts@;
    parts.push(last);
    assert(parts@.map_values(|p: String| p@) =~= before.map_values(|p: String| p@).push(rest));
    parts
}

} // verus!
