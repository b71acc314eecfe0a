//! Facts about the locals of a MIR body, computed once per body and read by
//! the constraint predicates `is_null` and `product_of`.

use vstd::prelude::*;

verus! {

/// A local variable of a MIR body, named by its index.
pub type Local = usize;

/// A place: a local, possibly followed by projections (fields, derefs, ...).
#[derive(Clone, Copy, Debug, PartialEq, Eq)]
pub struct Place {
    pub local: Local,
    /// Whether the place has at least one projection.
    pub projected: bool,
}

/// An integer scalar: its raw bits and its size in bytes.
#[derive(Clone, Copy, Debug, PartialEq, Eq)]
pub struct ScalarInt {
    pub data: u128,
    pub size: u8,
}

/// A scalar value: an integer or a pointer into an allocation.
#[derive(Clone, Copy, Debug, PartialEq, Eq)]
pub enum Scalar {
    Int(ScalarInt),
    Ptr,
}

/// An evaluated constant value.
#[derive(Clone, Copy, Debug, PartialEq, Eq)]
pub enum ConstValue {
    Scalar(Scalar),
    /// Zero-sized, slice or indirect values.
    Other,
}

/// A type-level constant; a value tree is already converted to a constant value.
#[derive(Clone, Copy, Debug, PartialEq, Eq)]
pub enum TyConst {
    Value(ConstValue),
    /// Parameters, inference variables, unevaluated and other kinds.
    Other,
}

/// A MIR constant.
#[derive(Clone, Copy, Debug, PartialEq, Eq)]
pub enum MirConst {
    Ty(TyConst),
    Unevaluated,
    Val(ConstValue),
}

/// An operand of an rvalue.
#[derive(Clone, Copy, Debug, PartialEq, Eq)]
pub enum Operand {
    Copy(Place),
    Move(Place),
    Constant(MirConst),
}

/// The binary operators that the facts distinguish; every other operator
/// (remainder, bitwise, shifts, comparisons, offset) is `Other`.
#[derive(Clone, Copy, Debug, PartialEq, Eq)]
pub enum BinOp {
    Add,
    AddUnchecked,
    AddWithOverflow,
    Sub,
    SubUnchecked,
    SubWithOverflow,
    Mul,
    MulUnchecked,
    MulWithOverflow,
    Div,
    Other,
}

/// The right-hand side of an assignment.
#[derive(Clone, Copy, Debug, PartialEq, Eq)]
pub enum Rvalue {
    Use(Operand),
    /// A cast of the operand; the cast kind and target type do not matter here.
    Cast(Operand),
    BinaryOp(BinOp, Operand, Operand),
    /// Any other rvalue.
    Other,
}

/// A MIR statement.
#[derive(Clone, Copy, Debug, PartialEq, Eq)]
pub enum Statement {
    Assign(Place, Rvalue),
    Other,
}

/// A MIR body: its number of locals and the statements of its basic blocks.
pub struct Body {
    pub local_count: usize,
    pub basic_blocks: Vec<Vec<Statement>>,
}

// ---------------------------------------------------------------------------
// Specification
// ---------------------------------------------------------------------------

/// The local that a place denotes when it has no projection.
pub open spec fn place_local(p: Place) -> Option<Local> {
    if p.projected { None } else { Some(p.local) }
}

/// The local that an operand copies or moves, if it is a bare local.
pub open spec fn operand_local(op: Operand) -> Option<Local> {
    match op {
        Operand::Copy(p) => place_local(p),
        Operand::Move(p) => place_local(p),
        Operand::Constant(_) => None,
    }
}

/// Whether an evaluated constant is null: an integer is null when it is zero,
/// a pointer never is, any other value is unknown.
pub open spec fn spec_const_value_is_null(v: ConstValue) -> Option<bool> {
    match v {
        ConstValue::Scalar(Scalar::Int(i)) => Some(i.data == 0),
        ConstValue::Scalar(Scalar::Ptr) => Some(false),
        ConstValue::Other => None,
    }
}

pub open spec fn spec_ty_const_is_null(c: TyConst) -> Option<bool> {
    match c {
        TyConst::Value(v) => spec_const_value_is_null(v),
        TyConst::Other => None,
    }
}

pub open spec fn spec_mir_const_is_null(c: MirConst) -> Option<bool> {
    match c {
        MirConst::Ty(t) => spec_ty_const_is_null(t),
        MirConst::Unevaluated => None,
        MirConst::Val(v) => spec_const_value_is_null(v),
    }
}

/// The null facts after one statement.
pub open spec fn null_step(null: Seq<Option<bool>>, s: Statement) -> Seq<Option<bool>> {
    match s {
        Statement::Assign(lhs, rv) => match place_local(lhs) {
            Some(l) => match rv {
                Rvalue::Use(Operand::Constant(c)) => null.update(l as int, spec_mir_const_is_null(c)),
                Rvalue::Cast(Operand::Constant(c)) => null.update(l as int, spec_mir_const_is_null(c)),
                Rvalue::Use(op) => match operand_local(op) {
                    Some(r) => null.update(l as int, null[r as int]),
                    None => null,
                },
                _ => null,
            },
            None => null,
        },
        Statement::Other => null,
    }
}

/// Records that `i` relates to `j` with sign `v`, when `j` is a local.
pub open spec fn set_rel(p: Seq<Seq<Option<bool>>>, i: Local, j: Option<Local>, v: bool) -> Seq<
    Seq<Option<bool>>,
> {
    match j {
        Some(j) => p.update(i as int, p[i as int].update(j as int, Some(v))),
        None => p,
    }
}

/// Whether the operator makes its result a product of both operands.
pub open spec fn is_product_op(op: BinOp) -> bool {
    match op {
        BinOp::Div | BinOp::Other => false,
        _ => true,
    }
}

/// The product facts after one statement.
pub open spec fn product_step(p: Seq<Seq<Option<bool>>>, s: Statement) -> Seq<Seq<Option<bool>>> {
    match s {
        Statement::Assign(lhs, rv) => match place_local(lhs) {
            Some(l) => match rv {
                Rvalue::BinaryOp(op, a, b) => if is_product_op(op) {
                    set_rel(set_rel(p, l, operand_local(a), true), l, operand_local(b), true)
                } else if op == BinOp::Div {
                    set_rel(set_rel(p, l, operand_local(a), true), l, operand_local(b), false)
                } else {
                    p
                },
                Rvalue::Use(op) => set_rel(p, l, operand_local(op), true),
                Rvalue::Cast(op) => set_rel(p, l, operand_local(op), true),
                Rvalue::Other => p,
            },
            None => p,
        },
        Statement::Other => p,
    }
}

/// Null facts after a sequence of statements, in order.
pub open spec fn null_scan(null: Seq<Option<bool>>, stmts: Seq<Statement>) -> Seq<Option<bool>>
    decreases stmts.len(),
{
    if stmts.len() == 0 {
        null
    } else {
        null_step(null_scan(null, stmts.drop_last()), stmts.last())
    }
}

/// Product facts after a sequence of statements, in order.
pub open spec fn product_scan(p: Seq<Seq<Option<bool>>>, stmts: Seq<Statement>) -> Seq<
    Seq<Option<bool>>,
>
    decreases stmts.len(),
{
    if stmts.len() == 0 {
        p
    } else {
        product_step(product_scan(p, stmts.drop_last()), stmts.last())
    }
}

/// All statements of a body, block after block.
pub open spec fn body_statements(blocks: Seq<Seq<Statement>>) -> Seq<Statement>
    decreases blocks.len(),
{
    if blocks.len() == 0 {
        Seq::empty()
    } else {
        body_statements(blocks.drop_last()) + blocks.last()
    }
}

pub open spec fn blocks_view(body: &Body) -> Seq<Seq<Statement>> {
    body.basic_blocks@.map_values(|b: Vec<Statement>| b@)
}

/// Every local that a statement names is below `n`.
pub open spec fn statement_in_bounds(s: Statement, n: nat) -> bool {
    let op_ok = |op: Operand| match op {
        Operand::Copy(p) => p.local < n,
        Operand::Move(p) => p.local < n,
        Operand::Constant(_) => true,
    };
    match s {
        Statement::Assign(lhs, rv) => lhs.local < n && match rv {
            Rvalue::Use(op) => op_ok(op),
            Rvalue::Cast(op) => op_ok(op),
            Rvalue::BinaryOp(_, a, b) => op_ok(a) && op_ok(b),
            Rvalue::Other => true,
        },
        Statement::Other => true,
    }
}

/// A body is well formed when every statement names only its own locals.
pub open spec fn body_wf(body: &Body) -> bool {
    forall|b: int, s: int|
        0 <= b < body.basic_blocks@.len() && 0 <= s < body.basic_blocks@[b]@.len()
            ==> statement_in_bounds(#[trigger] body.basic_blocks@[b]@[s], body.local_count as nat)
}

pub open spec fn initial_null(n: nat) -> Seq<Option<bool>> {
    Seq::new(n, |i: int| None)
}

pub open spec fn initial_product(n: nat) -> Seq<Seq<Option<bool>>> {
    Seq::new(n, |i: int| Seq::new(n, |k: int| if i == k { Some(true) } else { None }))
}

/// One relaxation step of the closure: through `j`, from `i` to `k`.
pub open spec fn relax(p: Seq<Seq<Option<bool>>>, i: int, j: int, k: int) -> Seq<Seq<Option<bool>>> {
    if i == k {
        p
    } else {
        match (p[i][j], p[j][k]) {
            (Some(s1), Some(s2)) => p.update(i, p[i].update(k, Some(s1 == s2))),
            _ => p,
        }
    }
}

pub open spec fn relax_row(p: Seq<Seq<Option<bool>>>, j: int, i: int, kn: int) -> Seq<Seq<Option<bool>>>
    decreases kn,
{
    if kn <= 0 {
        p
    } else {
        relax(relax_row(p, j, i, kn - 1), i, j, kn - 1)
    }
}

pub open spec fn relax_pivot(p: Seq<Seq<Option<bool>>>, j: int, iN: int, n: int) -> Seq<Seq<Option<bool>>>
    decreases iN,
{
    if iN <= 0 {
        p
    } else {
        relax_row(relax_pivot(p, j, iN - 1, n), j, iN - 1, n)
    }
}

/// The closure: pivots `0..jN`, each relaxing every pair `(i, k)` in order.
pub open spec fn closure(p: Seq<Seq<Option<bool>>>, jN: int, n: int) -> Seq<Seq<Option<bool>>>
    decreases jN,
{
    if jN <= 0 {
        p
    } else {
        relax_pivot(closure(p, jN - 1, n), jN - 1, n, n)
    }
}

/// The null facts of a body.
pub open spec fn spec_body_null(body: &Body) -> Seq<Option<bool>> {
    null_scan(initial_null(body.local_count as nat), body_statements(blocks_view(body)))
}

/// The product facts that the statements record directly, before the closure.
pub open spec fn spec_direct_products(body: &Body) -> Seq<Seq<Option<bool>>> {
    product_scan(initial_product(body.local_count as nat), body_statements(blocks_view(body)))
}

/// The product facts of a body.
pub open spec fn spec_body_products(body: &Body) -> Seq<Seq<Option<bool>>> {
    closure(spec_direct_products(body), body.local_count as int, body.local_count as int)
}


/// The rows of a matrix of facts, as sequences.
pub open spec fn rows_view(p: Seq<Vec<Option<bool>>>) -> Seq<Seq<Option<bool>>> {
    p.map_values(|r: Vec<Option<bool>>| r@)
}

/// Whether a matrix of facts is square of side `n`.
pub open spec fn is_square(p: Seq<Seq<Option<bool>>>, n: nat) -> bool {
    p.len() == n && forall|i: int| 0 <= i < n ==> (#[trigger] p[i]).len() == n
}

// ---------------------------------------------------------------------------
// Implementation
// ---------------------------------------------------------------------------

fn const_value_is_null(v: &ConstValue) -> (r: Option<bool>)
    ensures
        r == spec_const_value_is_null(*v),
{
    match v {
        ConstValue::Scalar(Scalar::Int(i)) => Some(i.data == 0),
        ConstValue::Scalar(Scalar::Ptr) => Some(false),
        ConstValue::Other => None,
    }
}

fn set_rel_exec(p: &mut Vec<Vec<Option<bool>>>, i: Local, j: Option<Local>, v: bool)
    requires
        is_square(rows_view(old(p)@), old(p)@.len()),
        i < old(p)@.len(),
        j matches Some(j) ==> j < old(p)@.len(),
    ensures
        rows_view(final(p)@) == set_rel(rows_view(old(p)@), i, j, v),
        final(p)@.len() == old(p)@.len(),
{
    if let Some(j) = j {
        let ghost old_rows = rows_view(p@);
        assert(old_rows[i as int].len() == p@.len());
        p[i][j] = Some(v);
        assert(rows_view(p@) =~= old_rows.update(i as int, old_rows[i as int].update(j as int, Some(v))));
    }
}

fn operand_local_exec(op: &Operand) -> (r: Option<Local>)
    ensures
        r == operand_local(*op),
{
    match op {
        Operand::Copy(p) | Operand::Move(p) => if p.projected { None } else { Some(p.local) },
        Operand::Constant(_) => None,
    }
}

fn null_step_exec(null: &mut Vec<Option<bool>>, stmt: &Statement)
    requires
        statement_in_bounds(*stmt, old(null)@.len()),
    ensures
        final(null)@ == null_step(old(null)@, *stmt),
{
    if let Statement::Assign(lhs, rv) = stmt {
        if !lhs.projected {
            let l = lhs.local;
            match rv {
                Rvalue::Use(Operand::Constant(c)) => {
                    null.set(l, BodyInfoCache::mir_const_is_null(c));
                },
                Rvalue::Cast(Operand::Constant(c)) => {
                    null.set(l, BodyInfoCache::mir_const_is_null(c));
                },
                Rvalue::Use(op) => {
                    if let Some(r) = operand_local_exec(op) {
                        let v = null[r];
                        null.set(l, v);
                    }
                },
                _ => {},
            }
        }
    }
}

fn product_step_exec(p: &mut Vec<Vec<Option<bool>>>, stmt: &Statement)
    requires
        is_square(rows_view(old(p)@), old(p)@.len()),
        statement_in_bounds(*stmt, old(p)@.len()),
    ensures
        rows_view(final(p)@) == product_step(rows_view(old(p)@), *stmt),
        is_square(rows_view(final(p)@), old(p)@.len()),
        final(p)@.len() == old(p)@.len(),
{
    if let Statement::Assign(lhs, rv) = stmt {
        if !lhs.projected {
            let l = lhs.local;
            match rv {
                Rvalue::BinaryOp(op, a, b) => {
                    match op {
                        BinOp::Div => {
                            set_rel_exec(p, l, operand_local_exec(a), true);
                            set_rel_exec(p, l, operand_local_exec(b), false);
                        },
                        BinOp::Other => {},
                        _ => {
                            set_rel_exec(p, l, operand_local_exec(a), true);
                            set_rel_exec(p, l, operand_local_exec(b), true);
                        },
                    }
                },
                Rvalue::Use(op) => {
                    set_rel_exec(p, l, operand_local_exec(op), true);
                },
                Rvalue::Cast(op) => {
                    set_rel_exec(p, l, operand_local_exec(op), true);
                },
                Rvalue::Other => {},
            }
        }
    }
}

/// Facts about the locals of one MIR body.
pub struct BodyInfoCache {
    /// `null[i]` is `Some(true)` if `i` is null, `Some(false)` if `i` is not
    /// null, and `None` if the information is not available.
    null: Vec<Option<bool>>,
    /// `product_of[i][j]` is `Some(true)` if `i` may be a product of `j`,
    /// `Some(false)` if `i` may be a quotient of `j`, and `None` if there is no
    /// relationship.
    product_of: Vec<Vec<Option<bool>>>,
}

impl BodyInfoCache {
    /// The null facts, one per local.
    pub closed spec fn null_facts(&self) -> Seq<Option<bool>> {
        self.null@
    }

    /// The product facts, a square matrix indexed by locals.
    pub closed spec fn product_facts(&self) -> Seq<Seq<Option<bool>>> {
        rows_view(self.product_of@)
    }

    #[verifier::type_invariant]
    closed spec fn wf(&self) -> bool {
        is_square(self.product_facts(), self.null@.len())
    }

    /// Computes the facts of a body: null facts and direct product facts from
    /// its assignments, in order, then the closure of the product facts
    /// through every local as a pivot.
    pub fn new(body: &Body) -> (r: Self)
        requires
            body_wf(body),
        ensures
            r.null_facts() == spec_body_null(body),
            r.product_facts() == spec_body_products(body),
            r.null_facts().len() == body.local_count,
            is_square(r.product_facts(), body.local_count as nat),
    {
        let n = body.local_count;
        let mut null: Vec<Option<bool>> = Vec::new();
        for i in 0..n
            invariant
                null@ =~= Seq::new(i as nat, |x: int| None::<bool>),
        {
            null.push(None);
        }
        assert(null@ =~= initial_null(n as nat));
        let mut product_of: Vec<Vec<Option<bool>>> = Vec::new();
        for i in 0..n
            invariant
                product_of@.len() == i,
                forall|x: int|
                    0 <= x < i ==> (#[trigger] product_of@[x])@ =~= initial_product(n as nat)[x],
        {
            let mut row: Vec<Option<bool>> = Vec::new();
            for k in 0..n
                invariant
                    row@ =~= Seq::new(k as nat, |y: int| if i == y { Some(true) } else { None }),
            {
                row.push(if i == k { Some(true) } else { None });
            }
            product_of.push(row);
        }
        assert(rows_view(product_of@) =~= initial_product(n as nat));
        let ghost blocks = blocks_view(body);
        let nb = body.basic_blocks.len();
        for b in 0..nb
            invariant
                nb == body.basic_blocks@.len(),
                blocks == blocks_view(body),
                body_wf(body),
                n == body.local_count,
                null@ == null_scan(initial_null(n as nat), body_statements(blocks.take(b as int))),
                rows_view(product_of@) == product_scan(
                    initial_product(n as nat),
                    body_statements(blocks.take(b as int)),
                ),
                null@.len() == n,
                product_of@.len() == n,
                is_square(rows_view(product_of@), n as nat),
        {
            let ghost before = body_statements(blocks.take(b as int));
            let block = &body.basic_blocks[b];
            let ns = block.len();
            for t in 0..ns
                invariant
                    ns == block@.len(),
                    block == body.basic_blocks@[b as int],
                    b < body.basic_blocks@.len(),
                    body_wf(body),
                    n == body.local_count,
                    null@ == null_scan(initial_null(n as nat), before + block@.take(t as int)),
                    rows_view(product_of@) == product_scan(
                        initial_product(n as nat),
                        before + block@.take(t as int),
                    ),
                    null@.len() == n,
                    product_of@.len() == n,
                    is_square(rows_view(product_of@), n as nat),
            {
                let stmt = &block[t];
                assert(statement_in_bounds(body.basic_blocks@[b as int]@[t as int], n as nat));
                null_step_exec(&mut null, stmt);
                product_step_exec(&mut product_of, stmt);
                assert((before + block@.take(t + 1)).drop_last() =~= before + block@.take(t as int));
            }
            assert(block@.take(ns as int) =~= block@);
            assert(blocks.take(b + 1).drop_last() =~= blocks.take(b as int));
            assert(blocks.take(b + 1).last() == block@);
        }
        assert(blocks.take(nb as int) =~= blocks);
        let ghost direct = rows_view(product_of@);
        let mut j: usize = 0;
        while j < n
            invariant
                0 <= j <= n,
                product_of@.len() == n,
                is_square(rows_view(product_of@), n as nat),
                rows_view(product_of@) == closure(direct, j as int, n as int),
            decreases n - j,
        {
            let ghost at_pivot = rows_view(product_of@);
            let mut i: usize = 0;
            while i < n
                invariant
                    0 <= i <= n,
                    j < n,
                    product_of@.len() == n,
                    is_square(rows_view(product_of@), n as nat),
                    rows_view(product_of@) == relax_pivot(at_pivot, j as int, i as int, n as int),
                decreases n - i,
            {
                let ghost at_row = rows_view(product_of@);
                let mut k: usize = 0;
                while k < n
                    invariant
                        0 <= k <= n,
                        i < n,
                        j < n,
                        product_of@.len() == n,
                        is_square(rows_view(product_of@), n as nat),
                        rows_view(product_of@) == relax_row(at_row, j as int, i as int, k as int),
                    decreases n - k,
                {
                    if i != k {
                        let ghost cur = rows_view(product_of@);
                        assert(cur[i as int].len() == n && cur[j as int].len() == n);
                        let a = product_of[i][j];
                        let c = product_of[j][k];
                        if let (Some(s1), Some(s2)) = (a, c) {
                            product_of[i][k] = Some(s1 == s2);
                            assert(rows_view(product_of@) =~= cur.update(
                                i as int,
                                cur[i as int].update(k as int, Some(s1 == s2)),
                            ));
                        }
                    }
                    k += 1;
                }
                i += 1;
            }
            j += 1;
        }
        BodyInfoCache { null, product_of }
    }

    /// Whether a type-level constant is null.
    pub fn ty_const_is_null(c: &TyConst) -> (r: Option<bool>)
        ensures
            r == spec_ty_const_is_null(*c),
    {
        match c {
            TyConst::Value(v) => const_value_is_null(v),
            TyConst::Other => None,
        }
    }

    /// Whether a MIR constant is null.
    pub fn mir_const_is_null(c: &MirConst) -> (r: Option<bool>)
        ensures
            r == spec_mir_const_is_null(*c),
    {
        match c {
            MirConst::Ty(t) => Self::ty_const_is_null(t),
            MirConst::Unevaluated => None,
            MirConst::Val(v) => const_value_is_null(v),
        }
    }
}


/// Whether every two consecutive locals of `locals` are in the product
/// relation: the former is a product of the latter.
pub open spec fn spec_chain_of_products(facts: Seq<Seq<Option<bool>>>, locals: Seq<Local>) -> bool {
    forall|t: int|
        0 <= t < locals.len() - 1 ==> #[trigger] facts[locals[t] as int][locals[t + 1] as int]
            == Some(true)
}

/// The pairs that the product query reads are locals of the body: each pair
/// is read only while every earlier pair is in the relation.
pub open spec fn spec_product_query_in_bounds(
    facts: Seq<Seq<Option<bool>>>,
    n: nat,
    locals: Seq<Local>,
) -> bool {
    forall|t: int|
        0 <= t < locals.len() - 1 && (forall|u: int|
            0 <= u < t ==> #[trigger] facts[locals[u] as int][locals[u + 1] as int] == Some(true))
            ==> #[trigger] locals[t] < n && locals[t + 1] < n
}

/// Checks whether a local is null; unknown counts as not null.
pub fn is_null(cache: &BodyInfoCache, local: Local) -> (r: bool)
    requires
        local < cache.null_facts().len(),
    ensures
        r == (cache.null_facts()[local as int] == Some(true)),
{
    match cache.null[local] {
        Some(b) => b,
        None => false,
    }
}

/// Checks that the former local is a product of the latter for every two
/// consecutive locals; unknown counts as not a product.
pub fn product_of(cache: &BodyInfoCache, locals: Vec<Local>) -> (r: bool)
    requires
        spec_product_query_in_bounds(cache.product_facts(), cache.null_facts().len(), locals@),
    ensures
        r == spec_chain_of_products(cache.product_facts(), locals@),
{
    proof {
        use_type_invariant(cache);
    }
    let len = locals.len();
    if len < 2 {
        return true;
    }
    let mut t: usize = 0;
    while t + 1 < len
        invariant
            len == locals@.len(),
            len >= 2,
            t + 1 <= len,
            spec_product_query_in_bounds(cache.product_facts(), cache.null_facts().len(), locals@),
            is_square(cache.product_facts(), cache.null_facts().len()),
            forall|u: int|
                0 <= u < t ==> #[trigger] cache.product_facts()[locals@[u] as int][locals@[u + 1] as int]
                    == Some(true),
        decreases len - t,
    {
        let first = locals[t];
        let second = locals[t + 1];
        assert(cache.product_facts()[first as int].len() == cache.null_facts().len());
        let related = match cache.product_of[first][second] {
            Some(b) => b,
            None => false,
        };
        if !related {
            return false;
        }
        t += 1;
    }
    true
}

/// The known product facts in row-major order, as `(i, j, sign)` triples.
pub open spec fn row_entries(i: int, row: Seq<Option<bool>>) -> Seq<(Local, Local, bool)>
    decreases row.len(),
{
    if row.len() == 0 {
        Seq::empty()
    } else {
        row_entries(i, row.drop_last()) + match row.last() {
            Some(b) => seq![(i as usize, (row.len() - 1) as usize, b)],
            None => Seq::empty(),
        }
    }
}

pub open spec fn matrix_entries(p: Seq<Seq<Option<bool>>>) -> Seq<(Local, Local, bool)>
    decreases p.len(),
{
    if p.len() == 0 {
        Seq::empty()
    } else {
        matrix_entries(p.drop_last()) + row_entries(p.len() - 1, p.last())
    }
}

impl BodyInfoCache {
    /// The number of locals the cache has facts for: one null fact each, and a
    /// product table with one row and one column each, so a query of
    /// [`product_of`] on locals below this number stays in bounds.
    pub fn local_count(&self) -> (r: usize)
        ensures
            r == self.null_facts().len(),
            is_square(self.product_facts(), r as nat),
    {
        proof {
            use_type_invariant(self);
        }
        self.null.len()
    }

    /// The known product facts, row by row, as `(i, j, sign)` triples: the
    /// content of the cache's debug listing.
    pub fn debug_entries(&self) -> (r: Vec<(Local, Local, bool)>)
        ensures
            r@ == matrix_entries(self.product_facts()),
    {
        proof {
            use_type_invariant(self);
        }
        let n = self.product_of.len();
        let mut out: Vec<(Local, Local, bool)> = Vec::new();
        for i in 0..n
            invariant
                n == self.product_of@.len(),
                is_square(self.product_facts(), self.null@.len()),
                out@ == matrix_entries(self.product_facts().take(i as int)),
        {
            let row = &self.product_of[i];
            let m = row.len();
            let ghost before = out@;
            for k in 0..m
                invariant
                    m == row@.len(),
                    row == self.product_of@[i as int],
                    out@ == before + row_entries(i as int, row@.take(k as int)),
            {
                assert(row@.take(k + 1).drop_last() =~= row@.take(k as int));
                if let Some(b) = row[k] {
                    out.push((i, k, b));
                }
                assert(out@ =~= before + row_entries(i as int, row@.take(k + 1)));
            }
            assert(row@.take(m as int) =~= row@);
            assert(self.product_facts().take(i + 1).drop_last() =~= self.product_facts().take(i as int));
        }
        assert(self.product_facts().take(n as int) =~= self.product_facts());
        out
    }
}

fn operand_in_bounds(op: &Operand, n: usize) -> (r: bool)
    ensures
        r == match *op {
            Operand::Copy(p) => p.local < n,
            Operand::Move(p) => p.local < n,
            Operand::Constant(_) => true,
        },
{
    match op {
        Operand::Copy(p) | Operand::Move(p) => p.local < n,
        Operand::Constant(_) => true,
    }
}

fn statement_in_bounds_exec(s: &Statement, n: usize) -> (r: bool)
    ensures
        r == statement_in_bounds(*s, n as nat),
{
    match s {
        Statement::Assign(lhs, rv) => lhs.local < n && match rv {
            Rvalue::Use(op) => operand_in_bounds(op, n),
            Rvalue::Cast(op) => operand_in_bounds(op, n),
            Rvalue::BinaryOp(_, a, b) => operand_in_bounds(a, n) && operand_in_bounds(b, n),
            Rvalue::Other => true,
        },
        Statement::Other => true,
    }
}

/// Whether every statement of a body names only the body's own locals, as
/// [`BodyInfoCache::new`] asks.
pub fn body_is_wf(body: &Body) -> (r: bool)
    ensures
        r == body_wf(body),
{
    let n = body.local_count;
    for b in 0..body.basic_blocks.len()
        invariant
            n == body.local_count,
            forall|c: int, s: int|
                0 <= c < b && 0 <= s < body.basic_blocks@[c]@.len() ==> statement_in_bounds(
                    #[trigger] body.basic_blocks@[c]@[s],
                    n as nat,
                ),
    {
        let block = &body.basic_blocks[b];
        for t in 0..block.len()
            invariant
                n == body.local_count,
                b < body.basic_blocks@.len(),
                block == body.basic_blocks@[b as int],
                forall|c: int, s: int|
                    0 <= c < b && 0 <= s < body.basic_blocks@[c]@.len() ==> statement_in_bounds(
                        #[trigger] body.basic_blocks@[c]@[s],
                        n as nat,
                    ),
                forall|s: int| 0 <= s < t ==> statement_in_bounds(#[trigger] block@[s], n as nat),
        {
            if !statement_in_bounds_exec(&block[t], n) {
                assert(!statement_in_bounds(body.basic_blocks@[b as int]@[t as int], n as nat));
                return false;
            }
        }
    }
    true
}

} // verus!
