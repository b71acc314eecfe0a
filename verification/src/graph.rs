//! The control-flow edges of pattern bodies, with switch values normalized to
//! the bit patterns that MIR switches compare against.

use vstd::prelude::*;

verus! {

/// A basic block of a pattern body, by index.
pub type BasicBlock = usize;

/// The integer type of an integer literal in a pattern.
#[derive(Clone, Copy, Debug, PartialEq, Eq, Structural)]
pub enum IntTy {
    I8,
    I16,
    I32,
    I64,
    I128,
    Isize,
    U8,
    U16,
    U32,
    U64,
    U128,
    Usize,
}

/// An integer literal of a pattern: its magnitude, its sign and its type.
#[derive(Clone, Copy, Debug, PartialEq, Eq)]
pub struct IntValue {
    pub value: u128,
    pub negative: bool,
    pub ty: IntTy,
}

/// The switch targets of a pattern terminator: a block for each value, and
/// the block taken otherwise.
#[derive(Debug)]
pub struct SwitchTargets {
    pub targets: Vec<(IntValue, BasicBlock)>,
    pub otherwise: BasicBlock,
}

/// The terminator of a basic block of a pattern body; only the successors
/// matter here.
#[derive(Debug)]
pub enum TerminatorKind {
    Goto { target: BasicBlock },
    Drop { target: BasicBlock },
    Call { target: BasicBlock },
    SwitchInt { targets: SwitchTargets },
    Return,
    PatEnd,
}

/// Switch targets with values normalized to bit patterns.
#[derive(Debug)]
pub struct PatSwitchTargets {
    pub targets: Vec<(u128, BasicBlock)>,
    pub otherwise: BasicBlock,
}

/// The outgoing edges of a basic block.
#[derive(Debug)]
pub enum TerminatorEdges {
    Exit,
    Single(BasicBlock),
    AssignOnReturn { return_: Vec<BasicBlock>, cleanup: Option<BasicBlock> },
    SwitchInt(PatSwitchTargets),
}

/// The control-flow graph of a pattern body: the outgoing edges of each block.
#[derive(Debug)]
pub struct PatControlFlowGraph {
    pub edges: Vec<TerminatorEdges>,
}

/// [`TerminatorEdges`] as a mathematical value.
pub enum EdgesView {
    Exit,
    Single(BasicBlock),
    AssignOnReturn(Seq<BasicBlock>, Option<BasicBlock>),
    SwitchInt(Seq<(u128, BasicBlock)>, BasicBlock),
}

impl View for TerminatorEdges {
    type V = EdgesView;

    open spec fn view(&self) -> EdgesView {
        match self {
            TerminatorEdges::Exit => EdgesView::Exit,
            TerminatorEdges::Single(b) => EdgesView::Single(*b),
            TerminatorEdges::AssignOnReturn { return_, cleanup } => EdgesView::AssignOnReturn(
                return_@,
                *cleanup,
            ),
            TerminatorEdges::SwitchInt(t) => EdgesView::SwitchInt(t.targets@, t.otherwise),
        }
    }
}

/// The width in bytes of an integer type, with `pointer_bytes` for the
/// pointer-sized types.
pub open spec fn int_bytes(ty: IntTy, pointer_bytes: u64) -> int {
    match ty {
        IntTy::I8 | IntTy::U8 => 1,
        IntTy::I16 | IntTy::U16 => 2,
        IntTy::I32 | IntTy::U32 => 4,
        IntTy::I64 | IntTy::U64 => 8,
        IntTy::I128 | IntTy::U128 => 16,
        IntTy::Isize | IntTy::Usize => pointer_bytes as int,
    }
}

/// The number of bit patterns of a width in bytes.
pub open spec fn modulus(bytes: int) -> int {
    if bytes == 1 {
        0x100
    } else if bytes == 2 {
        0x1_0000
    } else if bytes == 4 {
        0x1_0000_0000
    } else if bytes == 8 {
        0x1_0000_0000_0000_0000int
    } else {
        u128::MAX as int + 1
    }
}

/// The integer a literal denotes.
pub open spec fn int_of(v: IntValue) -> int {
    if v.negative {
        -(v.value as int)
    } else {
        v.value as int
    }
}

/// The bit pattern of a literal at its type's width: its two's complement
/// representation.
pub open spec fn spec_normalize(v: IntValue, pointer_bytes: u64) -> int {
    int_of(v) % modulus(int_bytes(v.ty, pointer_bytes))
}

/// The pointer width of a target, in bytes.
pub open spec fn valid_pointer_bytes(pointer_bytes: u64) -> bool {
    pointer_bytes == 2 || pointer_bytes == 4 || pointer_bytes == 8
}

proof fn lemma_neg_mod(v: int, m: int)
    requires
        0 <= v,
        0 < m,
    ensures
        (-v) % m == (if v % m == 0 { 0 } else { m - v % m }),
{
    let q = v / m;
    let r = v % m;
    assert(v == q * m + r && 0 <= r < m) by (nonlinear_arith)
        requires
            0 <= v,
            0 < m,
            q == v / m,
            r == v % m,
    ;
    if r == 0 {
        assert(-v == (-q) * m) by (nonlinear_arith)
            requires
                v == q * m,
        ;
        assert((-v) % m == 0) by (nonlinear_arith)
            requires
                -v == (-q) * m,
                0 < m,
        ;
    } else {
        assert(-v == (-q - 1) * m + (m - r)) by (nonlinear_arith)
            requires
                v == q * m + r,
        ;
        vstd::arithmetic::div_mod::lemma_fundamental_div_mod_converse(-v, m, -q - 1, m - r);
    }
}

impl IntValue {
    /// The bit pattern of this literal at its type's width.
    pub fn normalize(self, pointer_bytes: u64) -> (r: u128)
        requires
            valid_pointer_bytes(pointer_bytes),
        ensures
            r as int == spec_normalize(self, pointer_bytes),
    {
        let bytes: u64 = match self.ty {
            IntTy::I8 | IntTy::U8 => 1,
            IntTy::I16 | IntTy::U16 => 2,
            IntTy::I32 | IntTy::U32 => 4,
            IntTy::I64 | IntTy::U64 => 8,
            IntTy::I128 | IntTy::U128 => 16,
            IntTy::Isize | IntTy::Usize => pointer_bytes,
        };
        assert(bytes == int_bytes(self.ty, pointer_bytes));
        if bytes == 16 {
            proof {
                lemma_neg_mod(self.value as int, modulus(16));
                vstd::arithmetic::div_mod::lemma_small_mod(self.value as nat, modulus(16) as nat);
            }
            if !self.negative || self.value == 0 {
                self.value
            } else {
                u128::MAX - self.value + 1
            }
        } else {
            let m: u128 = if bytes == 1 {
                0x100
            } else if bytes == 2 {
                0x1_0000
            } else if bytes == 4 {
                0x1_0000_0000
            } else {
                0x1_0000_0000_0000_0000
            };
            assert(m as int == modulus(bytes as int));
            let r = self.value % m;
            proof {
                lemma_neg_mod(self.value as int, m as int);
            }
            if !self.negative || r == 0 {
                r
            } else {
                m - r
            }
        }
    }
}

/// The normalized value of each switch target, keeping the order and blocks.
pub open spec fn spec_normalized_targets(targets: Seq<(IntValue, BasicBlock)>, pointer_bytes: u64) -> Seq<
    (u128, BasicBlock),
> {
    targets.map_values(
        |t: (IntValue, BasicBlock)| (spec_normalize(t.0, pointer_bytes) as u128, t.1),
    )
}

/// The outgoing edges of a block with the given terminator: none for a
/// missing terminator, a return or the end of the pattern; the target of a
/// goto or drop; the return target of a call, without cleanup; the normalized
/// targets of a switch.
pub open spec fn spec_normalized_edges(terminator: Option<&TerminatorKind>, pointer_bytes: u64) -> EdgesView {
    match terminator {
        None => EdgesView::Exit,
        Some(TerminatorKind::Return) => EdgesView::Exit,
        Some(TerminatorKind::PatEnd) => EdgesView::Exit,
        Some(TerminatorKind::Goto { target }) => EdgesView::Single(*target),
        Some(TerminatorKind::Drop { target }) => EdgesView::Single(*target),
        Some(TerminatorKind::Call { target }) => EdgesView::AssignOnReturn(seq![*target], None),
        Some(TerminatorKind::SwitchInt { targets }) => EdgesView::SwitchInt(
            spec_normalized_targets(targets.targets@, pointer_bytes),
            targets.otherwise,
        ),
    }
}

/// Switch targets with every value normalized.
pub fn pat_normalized_switch_targets(targets: &SwitchTargets, pointer_bytes: u64) -> (r: PatSwitchTargets)
    requires
        valid_pointer_bytes(pointer_bytes),
    ensures
        r.targets@ == spec_normalized_targets(targets.targets@, pointer_bytes),
        r.otherwise == targets.otherwise,
{
    let mut out: Vec<(u128, BasicBlock)> = Vec::new();
    for i in 0..targets.targets.len()
        invariant
            valid_pointer_bytes(pointer_bytes),
            out@ =~= spec_normalized_targets(targets.targets@, pointer_bytes).take(i as int),
    {
        let (value, bb) = targets.targets[i];
        out.push((value.normalize(pointer_bytes), bb));
    }
    PatSwitchTargets { targets: out, otherwise: targets.otherwise }
}

/// The outgoing edges of a block, with switch values normalized.
pub fn normalized_terminator_edges(terminator: Option<&TerminatorKind>, pointer_bytes: u64) -> (r:
    TerminatorEdges)
    requires
        valid_pointer_bytes(pointer_bytes),
    ensures
        r@ == spec_normalized_edges(terminator, pointer_bytes),
{
    match terminator {
        None => TerminatorEdges::Exit,
        Some(TerminatorKind::Return) | Some(TerminatorKind::PatEnd) => TerminatorEdges::Exit,
        Some(TerminatorKind::Goto { target }) | Some(TerminatorKind::Drop { target }) => TerminatorEdges::Single(*target),
        Some(TerminatorKind::Call { target }) => {
            let mut return_: Vec<BasicBlock> = Vec::new();
            return_.push(*target);
            assert(return_@ =~= seq![*target]);
            TerminatorEdges::AssignOnReturn { return_, cleanup: None }
        },
        Some(TerminatorKind::SwitchInt { targets }) => TerminatorEdges::SwitchInt(
            pat_normalized_switch_targets(targets, pointer_bytes),
        ),
    }
}

/// The control-flow graph of a pattern body whose blocks have the given
/// terminators.
pub fn pat_control_flow_graph(terminators: &Vec<Option<TerminatorKind>>, pointer_bytes: u64) -> (r:
    PatControlFlowGraph)
    requires
        valid_pointer_bytes(pointer_bytes),
    ensures
        r.edges@.len() == terminators@.len(),
        forall|b: int|
            0 <= b < terminators@.len() ==> (#[trigger] r.edges@[b])@ == spec_normalized_edges(
                match terminators@[b] {
                    Some(t) => Some(&t),
                    None => None,
                },
                pointer_bytes,
            ),
{
    let mut edges: Vec<TerminatorEdges> = Vec::new();
    for b in 0..terminators.len()
        invariant
            valid_pointer_bytes(pointer_bytes),
            edges@.len() == b,
            forall|c: int|
                0 <= c < b ==> (#[trigger] edges@[c])@ == spec_normalized_edges(
                    match terminators@[c] {
                        Some(t) => Some(&t),
                        None => None,
                    },
                    pointer_bytes,
                ),
    {
        let e = normalized_terminator_edges(terminators[b].as_ref(), pointer_bytes);
        edges.push(e);
    }
    PatControlFlowGraph { edges }
}


/// A literal that is non-negative and fits its type's width normalizes to its
/// own value, and every literal normalizes into the width of its type.
pub proof fn lemma_normalize_in_width(v: IntValue, pointer_bytes: u64)
    requires
        valid_pointer_bytes(pointer_bytes),
    ensures
        0 <= spec_normalize(v, pointer_bytes) < modulus(int_bytes(v.ty, pointer_bytes)),
        !v.negative && (v.value as int) < modulus(int_bytes(v.ty, pointer_bytes)) ==> spec_normalize(
            v,
            pointer_bytes,
        ) == v.value as int,
{
    let m = modulus(int_bytes(v.ty, pointer_bytes));
    assert(m > 0);
    vstd::arithmetic::div_mod::lemma_mod_bound(int_of(v), m);
    if !v.negative && (v.value as int) < m {
        vstd::arithmetic::div_mod::lemma_small_mod(v.value as nat, m as nat);
    }
}

/// The number of bit patterns of an integer type: 2^8 for `i8`/`u8`, 2^16
/// for `i16`/`u16`, 2^32 for `i32`/`u32`, 2^64 for `i64`/`u64`, 2^128 for
/// `i128`/`u128`, and 2^16, 2^32 or 2^64 for `isize`/`usize` on 2-, 4- or
/// 8-byte pointers.
pub open spec fn bit_patterns_of(ty: IntTy, pointer_bytes: u64) -> int {
    match ty {
        IntTy::I8 | IntTy::U8 => 0x100,
        IntTy::I16 | IntTy::U16 => 0x1_0000,
        IntTy::I32 | IntTy::U32 => 0x1_0000_0000,
        IntTy::I64 | IntTy::U64 => 0x1_0000_0000_0000_0000int,
        IntTy::I128 | IntTy::U128 => 0x1_0000_0000_0000_0000_0000_0000_0000_0000int,
        IntTy::Isize | IntTy::Usize => if pointer_bytes == 2 {
            0x1_0000
        } else if pointer_bytes == 4 {
            0x1_0000_0000
        } else {
            0x1_0000_0000_0000_0000int
        },
    }
}

/// A literal normalizes to its two's complement bit pattern at its type's
/// width: a value below the number of bit patterns of the type that differs
/// from the literal's integer by a multiple of that number.
pub proof fn lemma_normalize_is_twos_complement(v: IntValue, pointer_bytes: u64)
    requires
        valid_pointer_bytes(pointer_bytes),
    ensures
        0 <= spec_normalize(v, pointer_bytes) < bit_patterns_of(v.ty, pointer_bytes),
        (spec_normalize(v, pointer_bytes) - (if v.negative {
            -(v.value as int)
        } else {
            v.value as int
        })) % bit_patterns_of(v.ty, pointer_bytes) == 0,
{
    let m = bit_patterns_of(v.ty, pointer_bytes);
    assert(modulus(int_bytes(v.ty, pointer_bytes)) == m);
    let x = int_of(v);
    vstd::arithmetic::div_mod::lemma_mod_bound(x, m);
    vstd::arithmetic::div_mod::lemma_fundamental_div_mod(x, m);
    let q = x / m;
    assert(x % m - x == (-q) * m) by (nonlinear_arith)
        requires
            x == m * q + x % m,
    ;
    vstd::arithmetic::div_mod::lemma_mod_multiples_basic(-q, m);
}

} // verus!
