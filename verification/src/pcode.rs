//! PCode: expressions compiled to a stack program that is evaluated over the
//! columns of a chunk.

use crate::chunk::{rows_of, Chunk, Column};
use crate::expr::{arith_apply, arith_result, log_apply, log_result, rel_apply, rel_result, ArithOp, LogOp, RelOp};
use crate::includes::ColId;
use crate::row::{Datum, DatumView};
use vstd::prelude::*;

verus! {

/// One instruction. Operators pop their operands and push their result.
#[derive(Debug, PartialEq, Eq)]
pub enum PInstruction {
    /// Pushes a column of the input; NULL when the input has no such column.
    PushColumn(ColId),
    /// Pushes a constant.
    PushLit(Datum),
    /// Pops two operands and pushes their comparison.
    Compare(RelOp),
    /// Pops two integers and pushes the result of the arithmetic.
    Arith(ArithOp),
    /// Pops two operands and pushes the result of the logical operator.
    Log(LogOp),
    /// Pops an integer and pushes its negation.
    Neg,
    /// Pops a boolean and pushes its negation.
    Not,
}

impl Clone for PInstruction {
    fn clone(&self) -> (res: Self)
        ensures
            res == *self,
    {
        match self {
            PInstruction::PushColumn(c) => PInstruction::PushColumn(*c),
            PInstruction::PushLit(d) => PInstruction::PushLit(d.clone()),
            PInstruction::Compare(op) => PInstruction::Compare(*op),
            PInstruction::Arith(op) => PInstruction::Arith(*op),
            PInstruction::Log(op) => PInstruction::Log(*op),
            PInstruction::Neg => PInstruction::Neg,
            PInstruction::Not => PInstruction::Not,
        }
    }
}

/// Number of operands that an instruction pops.
pub open spec fn arity(inst: PInstruction) -> nat {
    match inst {
        PInstruction::PushColumn(_) | PInstruction::PushLit(_) => 0,
        PInstruction::Compare(_) | PInstruction::Arith(_) | PInstruction::Log(_) => 2,
        PInstruction::Neg | PInstruction::Not => 1,
    }
}

/// The value that an instruction pushes, given the stack it finds (which
/// holds at least its operands) and the row under evaluation. `None` where
/// the operands do not fit the operator.
pub open spec fn pushed(inst: PInstruction, stack: Seq<DatumView>, row: Seq<DatumView>) -> Option<DatumView> {
    let n = stack.len() as int;
    match inst {
        PInstruction::PushColumn(ix) => Some(
            if ix < row.len() {
                row[ix as int]
            } else {
                DatumView::Null
            },
        ),
        PInstruction::PushLit(d) => Some(d@),
        PInstruction::Compare(op) => match rel_result(op, stack[n - 2], stack[n - 1]) {
            Some(v) => Some(DatumView::Bool(v)),
            None => None,
        },
        PInstruction::Arith(op) => match arith_result(op, stack[n - 2], stack[n - 1]) {
            Some(v) => Some(DatumView::Int(v)),
            None => None,
        },
        PInstruction::Log(op) => match log_result(op, stack[n - 2], stack[n - 1]) {
            Some(v) => Some(DatumView::Bool(v)),
            None => None,
        },
        PInstruction::Neg => match arith_result(ArithOp::Sub, DatumView::Int(0), stack[n - 1]) {
            Some(v) => Some(DatumView::Int(v)),
            None => None,
        },
        PInstruction::Not => match log_result(LogOp::Not, stack[n - 1], DatumView::Null) {
            Some(v) => Some(DatumView::Bool(v)),
            None => None,
        },
    }
}

/// The value that a two-operand instruction pushes for operands `a` and `b`.
pub open spec fn binary_value(inst: PInstruction, a: DatumView, b: DatumView) -> Option<DatumView> {
    pushed(inst, seq![a, b], Seq::empty())
}

/// The value that a one-operand instruction pushes for operand `a`.
pub open spec fn unary_value(inst: PInstruction, a: DatumView) -> Option<DatumView> {
    pushed(inst, seq![a], Seq::empty())
}

/// The stack after one instruction, or `None` where the instruction fails.
pub open spec fn step(inst: PInstruction, stack: Seq<DatumView>, row: Seq<DatumView>) -> Option<Seq<DatumView>> {
    if stack.len() < arity(inst) {
        None
    } else {
        match pushed(inst, stack, row) {
            Some(v) => Some(stack.take(stack.len() - arity(inst)).push(v)),
            None => None,
        }
    }
}

/// The stack after running `code` on `row`, starting from `stack`.
pub open spec fn run(code: Seq<PInstruction>, stack: Seq<DatumView>, row: Seq<DatumView>) -> Option<Seq<DatumView>>
    decreases code.len(),
{
    if code.len() == 0 {
        Some(stack)
    } else {
        match run(code.drop_last(), stack, row) {
            Some(s) => step(code.last(), s, row),
            None => None,
        }
    }
}

/// The value of a program on one row: what is left on the stack, when that
/// is exactly one value.
pub open spec fn run_row(code: Seq<PInstruction>, row: Seq<DatumView>) -> Option<DatumView> {
    match run(code, Seq::empty(), row) {
        Some(s) => if s.len() == 1 {
            Some(s[0])
        } else {
            None
        },
        None => None,
    }
}

/// Height of the stack after `code`, starting at height `d`; `None` where an
/// instruction would find too few operands.
pub open spec fn depth(code: Seq<PInstruction>, d: nat) -> Option<nat>
    decreases code.len(),
{
    if code.len() == 0 {
        Some(d)
    } else {
        match depth(code.drop_last(), d) {
            Some(k) => if k < arity(code.last()) {
                None
            } else {
                Some((k - arity(code.last()) + 1) as nat)
            },
            None => None,
        }
    }
}

/// A program is well formed when every instruction finds its operands and
/// exactly one value is left at the end.
pub open spec fn well_formed(code: Seq<PInstruction>) -> bool {
    depth(code, 0) == Some(1nat)
}

/// Running two programs in sequence is running their concatenation.
pub proof fn lemma_run_concat(a: Seq<PInstruction>, b: Seq<PInstruction>, stack: Seq<DatumView>, row: Seq<DatumView>)
    ensures
        run(a + b, stack, row) == match run(a, stack, row) {
            Some(s) => run(b, s, row),
            None => None,
        },
    decreases b.len(),
{
    if b.len() == 0 {
        assert(a + b =~= a);
    } else {
        assert((a + b).drop_last() =~= a + b.drop_last());
        assert((a + b).last() == b.last());
        lemma_run_concat(a, b.drop_last(), stack, row);
    }
}

/// Once a prefix of a program has failed on a row, the program fails on it.
pub proof fn lemma_run_prefix_fails(code: Seq<PInstruction>, k: int, row: Seq<DatumView>)
    requires
        0 <= k <= code.len(),
        run(code.take(k), Seq::empty(), row) is None,
    ensures
        run(code, Seq::empty(), row) is None,
    decreases code.len() - k,
{
    if k == code.len() {
        assert(code.take(k) =~= code);
    } else {
        assert(code.take(k + 1).drop_last() =~= code.take(k));
        lemma_run_prefix_fails(code, k + 1, row);
    }
}

/// Once a prefix of a program has run out of operands, so has the program.
pub proof fn lemma_depth_prefix_fails(code: Seq<PInstruction>, k: int)
    requires
        0 <= k <= code.len(),
        depth(code.take(k), 0) is None,
    ensures
        depth(code, 0) is None,
    decreases code.len() - k,
{
    if k == code.len() {
        assert(code.take(k) =~= code);
    } else {
        assert(code.take(k + 1).drop_last() =~= code.take(k));
        lemma_depth_prefix_fails(code, k + 1);
    }
}

/// A compiled expression.
#[derive(Debug, PartialEq, Eq)]
pub struct PCode {
    pub instructions: Vec<PInstruction>,
}

impl View for PCode {
    type V = Seq<PInstruction>;

    open spec fn view(&self) -> Seq<PInstruction> {
        self.instructions@
    }
}

impl Clone for PCode {
    fn clone(&self) -> (res: Self)
        ensures
            res@ == self@,
    {
        let mut instructions: Vec<PInstruction> = Vec::new();
        let mut i: usize = 0;
        while i < self.instructions.len()
            invariant
                i <= self.instructions@.len(),
                instructions@ == self.instructions@.take(i as int),
            decreases self.instructions@.len() - i,
        {
            instructions.push(self.instructions[i].clone());
            assert(self.instructions@.take(i + 1) =~= self.instructions@.take(i as int).push(self.instructions@[i as int]));
            i += 1;
        }
        assert(self.instructions@.take(i as int) =~= self.instructions@);
        PCode { instructions }
    }
}

/// What the evaluator holds on its stack: a column of the input, an array it
/// computed, or a constant that stands for every row.
enum Operand {
    Input(usize),
    Array(Column),
    Scalar(Datum),
}

impl Operand {
    /// The operand has a value for every row of `input`.
    spec fn fits(self, input: &Chunk) -> bool {
        match self {
            Operand::Input(c) => c < input@.len(),
            Operand::Array(col) => col@.len() == input.spec_len(),
            Operand::Scalar(_) => true,
        }
    }

    /// The value of the operand at row `i`.
    spec fn value(self, input: &Chunk, i: int) -> DatumView {
        match self {
            Operand::Input(c) => input@[c as int][i],
            Operand::Array(col) => col@[i],
            Operand::Scalar(d) => d@,
        }
    }

    /// The value of the operand at row `i`.
    fn at(&self, input: &Chunk, i: usize) -> (d: Datum)
        requires
            input.wf(),
            self.fits(input),
            i < input.spec_len(),
        ensures
            d@ == self.value(input, i as int),
    {
        match self {
            Operand::Input(c) => {
                assert(input@[*c as int].len() == rows_of(input@));
                input.arrays[*c].get(i)
            },
            Operand::Array(col) => col.get(i),
            Operand::Scalar(d) => d.clone(),
        }
    }
}

/// The stack of one row, read off the evaluator's stack of operands.
spec fn lift(stack: Seq<Operand>, input: &Chunk, i: int) -> Seq<DatumView> {
    Seq::new(stack.len(), |j: int| stack[j].value(input, i))
}

/// Text of the error for a program that is not well formed.
pub open spec fn malformed_text() -> Seq<char> {
    "PCode: malformed program"@
}

/// Text of the error for operands that do not fit their operator.
pub open spec fn type_error_text() -> Seq<char> {
    "PCode: runtime type error"@
}

impl PCode {
    /// The empty program.
    pub fn new() -> (pcode: PCode)
        ensures
            pcode@ == Seq::<PInstruction>::empty(),
    {
        PCode { instructions: Vec::new() }
    }

    /// Appends an instruction.
    pub fn push(&mut self, inst: PInstruction)
        ensures
            final(self)@ == old(self)@.push(inst),
    {
        self.instructions.push(inst);
    }

    /// Number of instructions.
    pub fn len(&self) -> (n: usize)
        ensures
            n == self@.len(),
    {
        self.instructions.len()
    }

    /// Whether every instruction finds its operands and one value is left.
    pub fn is_well_formed(&self) -> (b: bool)
        ensures
            b == well_formed(self@),
    {
        let mut d: usize = 0;
        let mut pc: usize = 0;
        while pc < self.instructions.len()
            invariant
                pc <= self@.len(),
                d <= pc,
                depth(self@.take(pc as int), 0) == Some(d as nat),
            decreases self@.len() - pc,
        {
            proof {
                assert(self@.take(pc + 1).drop_last() =~= self@.take(pc as int));
            }
            let need: usize = match &self.instructions[pc] {
                PInstruction::PushColumn(_) | PInstruction::PushLit(_) => 0,
                PInstruction::Compare(_) | PInstruction::Arith(_) | PInstruction::Log(_) => 2,
                PInstruction::Neg | PInstruction::Not => 1,
            };
            if d < need {
                proof {
                    lemma_depth_prefix_fails(self@, pc + 1);
                }
                return false;
            }
            d = d - need + 1;
            pc += 1;
        }
        proof {
            assert(self@.take(pc as int) =~= self@);
        }
        d == 1
    }

    /// Compares two operands row by row.
    fn compare_rows(op: RelOp, a: &Operand, b: &Operand, input: &Chunk) -> (res: Option<Vec<bool>>)
        requires
            input.wf(),
            a.fits(input),
            b.fits(input),
        ensures
            match res {
                Some(v) => v@.len() == input.spec_len() && forall|i: int|
                    0 <= i < v@.len() ==> rel_result(op, a.value(input, i), b.value(input, i)) == Some(#[trigger] v@[i]),
                None => exists|i: int|
                    0 <= i < input.spec_len() && (#[trigger] rel_result(op, a.value(input, i), b.value(input, i))) is None,
            },
    {
        let n = input.len();
        let mut out: Vec<bool> = Vec::new();
        let mut i: usize = 0;
        while i < n
            invariant
                input.wf(),
                a.fits(input),
                b.fits(input),
                n == input.spec_len(),
                i <= n,
                out@.len() == i,
                forall|k: int|
                    0 <= k < i ==> rel_result(op, a.value(input, k), b.value(input, k)) == Some(#[trigger] out@[k]),
            decreases n - i,
        {
            let x = a.at(input, i);
            let y = b.at(input, i);
            match rel_apply(op, &x, &y) {
                Some(v) => out.push(v),
                None => {
                    assert(rel_result(op, a.value(input, i as int), b.value(input, i as int)) is None);
                    return None;
                },
            }
            i += 1;
        }
        Some(out)
    }

    /// Integer arithmetic on two operands row by row.
    fn arith_rows(op: ArithOp, a: &Operand, b: &Operand, input: &Chunk) -> (res: Option<Vec<i64>>)
        requires
            input.wf(),
            a.fits(input),
            b.fits(input),
        ensures
            match res {
                Some(v) => v@.len() == input.spec_len() && forall|i: int|
                    0 <= i < v@.len() ==> arith_result(op, a.value(input, i), b.value(input, i)) == Some(
                        #[trigger] v@[i] as int,
                    ),
                None => exists|i: int|
                    0 <= i < input.spec_len() && (#[trigger] arith_result(op, a.value(input, i), b.value(input, i))) is None,
            },
    {
        let n = input.len();
        let mut out: Vec<i64> = Vec::new();
        let mut i: usize = 0;
        while i < n
            invariant
                input.wf(),
                a.fits(input),
                b.fits(input),
                n == input.spec_len(),
                i <= n,
                out@.len() == i,
                forall|k: int|
                    0 <= k < i ==> arith_result(op, a.value(input, k), b.value(input, k)) == Some(
                        #[trigger] out@[k] as int,
                    ),
            decreases n - i,
        {
            let x = a.at(input, i);
            let y = b.at(input, i);
            match arith_apply(op, &x, &y) {
                Some(v) => out.push(v),
                None => {
                    assert(arith_result(op, a.value(input, i as int), b.value(input, i as int)) is None);
                    return None;
                },
            }
            i += 1;
        }
        Some(out)
    }

    /// A logical operator on two operands row by row.
    fn log_rows(op: LogOp, a: &Operand, b: &Operand, input: &Chunk) -> (res: Option<Vec<bool>>)
        requires
            input.wf(),
            a.fits(input),
            b.fits(input),
        ensures
            match res {
                Some(v) => v@.len() == input.spec_len() && forall|i: int|
                    0 <= i < v@.len() ==> log_result(op, a.value(input, i), b.value(input, i)) == Some(#[trigger] v@[i]),
                None => exists|i: int|
                    0 <= i < input.spec_len() && (#[trigger] log_result(op, a.value(input, i), b.value(input, i))) is None,
            },
    {
        let n = input.len();
        let mut out: Vec<bool> = Vec::new();
        let mut i: usize = 0;
        while i < n
            invariant
                input.wf(),
                a.fits(input),
                b.fits(input),
                n == input.spec_len(),
                i <= n,
                out@.len() == i,
                forall|k: int|
                    0 <= k < i ==> log_result(op, a.value(input, k), b.value(input, k)) == Some(#[trigger] out@[k]),
            decreases n - i,
        {
            let x = a.at(input, i);
            let y = b.at(input, i);
            match log_apply(op, &x, &y) {
                Some(v) => out.push(v),
                None => {
                    assert(log_result(op, a.value(input, i as int), b.value(input, i as int)) is None);
                    return None;
                },
            }
            i += 1;
        }
        Some(out)
    }

    /// Applies a two-operand instruction row by row.
    fn binary_rows(inst: &PInstruction, a: &Operand, b: &Operand, input: &Chunk) -> (res: Option<Column>)
        requires
            input.wf(),
            a.fits(input),
            b.fits(input),
            arity(*inst) == 2,
        ensures
            match res {
                Some(col) => col@.len() == input.spec_len() && forall|i: int|
                    0 <= i < col@.len() ==> binary_value(*inst, a.value(input, i), b.value(input, i))
                        == Some(#[trigger] col@[i]),
                None => exists|i: int|
                    0 <= i < input.spec_len() && (#[trigger] binary_value(*inst, a.value(input, i), b.value(input, i))) is None,
            },
    {
        match inst {
            PInstruction::Compare(op) => match Self::compare_rows(*op, a, b, input) {
                Some(v) => Some(Column::Bool(v)),
                None => {
                    let ghost i = choose|i: int|
                        0 <= i < input.spec_len() && (#[trigger] rel_result(*op, a.value(input, i), b.value(input, i))) is None;
                    assert(binary_value(*inst, a.value(input, i), b.value(input, i)) is None);
                    None
                },
            },
            PInstruction::Arith(op) => match Self::arith_rows(*op, a, b, input) {
                Some(v) => Some(Column::Int(v)),
                None => {
                    let ghost i = choose|i: int|
                        0 <= i < input.spec_len() && (#[trigger] arith_result(*op, a.value(input, i), b.value(input, i))) is None;
                    assert(binary_value(*inst, a.value(input, i), b.value(input, i)) is None);
                    None
                },
            },
            PInstruction::Log(op) => match Self::log_rows(*op, a, b, input) {
                Some(v) => Some(Column::Bool(v)),
                None => {
                    let ghost i = choose|i: int|
                        0 <= i < input.spec_len() && (#[trigger] log_result(*op, a.value(input, i), b.value(input, i))) is None;
                    assert(binary_value(*inst, a.value(input, i), b.value(input, i)) is None);
                    None
                },
            },
            _ => None,
        }
    }

    /// Applies a one-operand instruction row by row.
    fn unary_rows(inst: &PInstruction, a: &Operand, input: &Chunk) -> (res: Option<Column>)
        requires
            input.wf(),
            a.fits(input),
            arity(*inst) == 1,
        ensures
            match res {
                Some(col) => col@.len() == input.spec_len() && forall|i: int|
                    0 <= i < col@.len() ==> unary_value(*inst, a.value(input, i)) == Some(
                        #[trigger] col@[i],
                    ),
                None => exists|i: int|
                    0 <= i < input.spec_len() && (#[trigger] unary_value(*inst, a.value(input, i))) is None,
            },
    {
        match inst {
            PInstruction::Neg => {
                let zero = Operand::Scalar(Datum::INT(0));
                match Self::arith_rows(ArithOp::Sub, &zero, a, input) {
                    Some(v) => Some(Column::Int(v)),
                    None => {
                        let ghost i = choose|i: int|
                            0 <= i < input.spec_len() && (#[trigger] arith_result(
                                ArithOp::Sub,
                                zero.value(input, i),
                                a.value(input, i),
                            )) is None;
                        assert(unary_value(*inst, a.value(input, i)) is None);
                        None
                    },
                }
            },
            PInstruction::Not => {
                let null = Operand::Scalar(Datum::NULL);
                match Self::log_rows(LogOp::Not, a, &null, input) {
                    Some(v) => Some(Column::Bool(v)),
                    None => {
                        let ghost i = choose|i: int|
                            0 <= i < input.spec_len() && (#[trigger] log_result(
                                LogOp::Not,
                                a.value(input, i),
                                null.value(input, i),
                            )) is None;
                        assert(unary_value(*inst, a.value(input, i)) is None);
                        None
                    },
                }
            },
            _ => None,
        }
    }

    /// Evaluates the program over `input` and returns one value per row: the
    /// value that the program has on that row.
    ///
    /// Fails when the program is not well formed, and when on some row an
    /// instruction finds operands that do not fit it.
    pub fn eval(&self, input: &Chunk) -> (res: Result<Column, String>)
        requires
            input.wf(),
        ensures
            res is Ok <==> well_formed(self@) && forall|i: int|
                0 <= i < input.spec_len() ==> (#[trigger] run_row(self@, input.row(i))) is Some,
            res matches Ok(col) ==> col@.len() == input.spec_len() && forall|i: int|
                0 <= i < input.spec_len() ==> run_row(self@, input.row(i)) == Some(#[trigger] col@[i]),
            res matches Err(e) ==> e@ == if well_formed(self@) {
                type_error_text()
            } else {
                malformed_text()
            },
    {
        if !self.is_well_formed() {
            return Err(String::from_str("PCode: malformed program"));
        }
        let n = input.len();
        let mut stack: Vec<Operand> = Vec::new();
        let mut pc: usize = 0;
        while pc < self.instructions.len()
            invariant
                input.wf(),
                well_formed(self@),
                n == input.spec_len(),
                pc <= self@.len(),
                depth(self@.take(pc as int), 0) == Some(stack@.len()),
                forall|j: int| 0 <= j < stack@.len() ==> (#[trigger] stack@[j]).fits(input),
                forall|i: int|
                    0 <= i < n ==> (#[trigger] run(self@.take(pc as int), Seq::empty(), input.row(i))) == Some(
                        lift(stack@, input, i),
                    ),
            decreases self@.len() - pc,
        {
            proof {
                assert(self@.take(pc + 1).drop_last() =~= self@.take(pc as int));
                assert(self@.take(pc + 1).last() == self@[pc as int]);
            }
            let ghost before = stack@;
            let inst = &self.instructions[pc];
            match inst {
                PInstruction::PushColumn(ix) => {
                    if *ix < input.width() {
                        stack.push(Operand::Input(*ix));
                    } else {
                        stack.push(Operand::Scalar(Datum::NULL));
                    }
                    assert forall|i: int| 0 <= i < n implies (#[trigger] run(
                        self@.take(pc + 1),
                        Seq::empty(),
                        input.row(i),
                    )) == Some(lift(stack@, input, i)) by {
                        assert(run(self@.take(pc as int), Seq::empty(), input.row(i)) == Some(lift(before, input, i)));
                        assert(lift(before, input, i).take(before.len() as int) =~= lift(before, input, i));
                        assert(lift(stack@, input, i) =~= lift(before, input, i).push(
                            pushed(*inst, lift(before, input, i), input.row(i)).unwrap(),
                        ));
                    }
                },
                PInstruction::PushLit(d) => {
                    stack.push(Operand::Scalar(d.clone()));
                    assert forall|i: int| 0 <= i < n implies (#[trigger] run(
                        self@.take(pc + 1),
                        Seq::empty(),
                        input.row(i),
                    )) == Some(lift(stack@, input, i)) by {
                        assert(run(self@.take(pc as int), Seq::empty(), input.row(i)) == Some(lift(before, input, i)));
                        assert(lift(before, input, i).take(before.len() as int) =~= lift(before, input, i));
                        assert(lift(stack@, input, i) =~= lift(before, input, i).push(d@));
                    }
                },
                PInstruction::Compare(_) | PInstruction::Arith(_) | PInstruction::Log(_) => {
                    if stack.len() < 2 {
                        proof {
                            lemma_depth_prefix_fails(self@, pc + 1);
                        }
                        return Err(String::from_str("PCode: malformed program"));
                    }
                    let b = stack.pop().unwrap();
                    let a = stack.pop().unwrap();
                    match Self::binary_rows(inst, &a, &b, input) {
                        Some(col) => {
                            stack.push(Operand::Array(col));
                            assert forall|i: int| 0 <= i < n implies (#[trigger] run(
                                self@.take(pc + 1),
                                Seq::empty(),
                                input.row(i),
                            )) == Some(lift(stack@, input, i)) by {
                                let old_row = lift(before, input, i);
                                assert(run(self@.take(pc as int), Seq::empty(), input.row(i)) == Some(old_row));
                                assert(pushed(*inst, old_row, input.row(i)) == binary_value(*inst, a.value(input, i), b.value(input, i)));
                                assert(lift(stack@, input, i) =~= old_row.take(old_row.len() - 2).push(col@[i]));
                            }
                        },
                        None => {
                            proof {
                                let i = choose|i: int|
                                    0 <= i < input.spec_len() && (#[trigger] binary_value(*inst, a.value(input, i), b.value(input, i))) is None;
                                let old_row = lift(before, input, i);
                                assert(run(self@.take(pc as int), Seq::empty(), input.row(i)) == Some(old_row));
                                assert(pushed(*inst, old_row, input.row(i)) == binary_value(*inst, a.value(input, i), b.value(input, i)));
                                lemma_run_prefix_fails(self@, pc + 1, input.row(i));
                                assert(run_row(self@, input.row(i)) is None);
                            }
                            return Err(String::from_str("PCode: runtime type error"));
                        },
                    }
                },
                PInstruction::Neg | PInstruction::Not => {
                    if stack.len() < 1 {
                        proof {
                            lemma_depth_prefix_fails(self@, pc + 1);
                        }
                        return Err(String::from_str("PCode: malformed program"));
                    }
                    let a = stack.pop().unwrap();
                    match Self::unary_rows(inst, &a, input) {
                        Some(col) => {
                            stack.push(Operand::Array(col));
                            assert forall|i: int| 0 <= i < n implies (#[trigger] run(
                                self@.take(pc + 1),
                                Seq::empty(),
                                input.row(i),
                            )) == Some(lift(stack@, input, i)) by {
                                let old_row = lift(before, input, i);
                                assert(run(self@.take(pc as int), Seq::empty(), input.row(i)) == Some(old_row));
                                assert(pushed(*inst, old_row, input.row(i)) == unary_value(*inst, a.value(input, i)));
                                assert(lift(stack@, input, i) =~= old_row.take(old_row.len() - 1).push(col@[i]));
                            }
                        },
                        None => {
                            proof {
                                let i = choose|i: int|
                                    0 <= i < input.spec_len() && (#[trigger] unary_value(*inst, a.value(input, i))) is None;
                                let old_row = lift(before, input, i);
                                assert(run(self@.take(pc as int), Seq::empty(), input.row(i)) == Some(old_row));
                                assert(pushed(*inst, old_row, input.row(i)) == unary_value(*inst, a.value(input, i)));
                                lemma_run_prefix_fails(self@, pc + 1, input.row(i));
                                assert(run_row(self@, input.row(i)) is None);
                            }
                            return Err(String::from_str("PCode: runtime type error"));
                        },
                    }
                },
            }
            pc += 1;
        }
        proof {
            assert(self@.take(pc as int) =~= self@);
        }
        let ghost last = stack@;
        assert(last.len() == 1);
        let top = stack.pop().unwrap();
        assert(top == last[0]);
        assert(top.fits(input));
        let col = match top {
            Operand::Input(c) => {
                assert(input@[c as int].len() == rows_of(input@));
                input.arrays[c].clone()
            },
            Operand::Array(col) => col,
            Operand::Scalar(d) => Column::repeat(&d, n),
        };
        assert(col@.len() == input.spec_len());
        assert forall|i: int| 0 <= i < input.spec_len() implies run_row(self@, input.row(i)) == Some(
            #[trigger] col@[i],
        ) by {
            assert(run(self@, Seq::empty(), input.row(i)) == Some(lift(last, input, i)));
            assert(lift(last, input, i)[0] == top.value(input, i));
        }
        Ok(col)
    }
}

/// The instructions of each program of a list.
pub open spec fn code_views(v: Seq<PCode>) -> Seq<Seq<PInstruction>> {
    Seq::new(v.len(), |i: int| v[i]@)
}

/// The instructions of each program of an optional list.
pub open spec fn codes_of(v: Option<Vec<PCode>>) -> Option<Seq<Seq<PInstruction>>> {
    match v {
        Some(x) => Some(code_views(x@)),
        None => None,
    }
}

} // verus!
