use vstd::prelude::*;
use crate::arithparser::cmd_views;
use crate::labels::Labels;
use crate::lexer::{src_views, Lexed};
use crate::resolver::{
    expansion,
    fully_expanded,
    labelled,
    registered,
    resolve,
    structured,
    well_nested,
    ResolveError,
};
use crate::text::string_of;
use crate::value::{
    is_zero_number,
    loaded_form,
    number_is_zero,
    stored_form,
    truth_bits,
    Command,
    SourceReference,
    StackSlot,
    Visibility,
    ONE_BITS,
    ZERO_BITS,
};

verus! {

/// The value stack.
#[derive(Clone, Debug)]
pub struct Stack {
    stack: Vec<StackSlot>,
}

impl View for Stack {
    type V = Seq<StackSlot<Seq<char>>>;

    closed spec fn view(&self) -> Seq<StackSlot<Seq<char>>> {
        self.stack@.map_values(|v: StackSlot| v@)
    }
}

impl Stack {
    pub fn new() -> (r: Stack)
        ensures
            r@ == Seq::<StackSlot<Seq<char>>>::empty(),
    {
        let r = Stack { stack: Vec::new() };
        assert(r@ =~= Seq::<StackSlot<Seq<char>>>::empty());
        r
    }

    pub fn len(&self) -> (r: usize)
        ensures
            r == self@.len(),
    {
        self.stack.len()
    }

    pub fn push(&mut self, item: StackSlot)
        ensures
            final(self)@ == old(self)@.push(item@),
    {
        self.stack.push(item);
        assert(self@ =~= old(self)@.push(item@));
    }

    pub fn pop(&mut self) -> (r: Option<StackSlot>)
        ensures
            old(self)@.len() == 0 ==> r is None && final(self)@ == old(self)@,
            old(self)@.len() > 0 ==> final(self)@ == old(self)@.drop_last(),
            old(self)@.len() > 0 ==> (r matches Some(v) && v@ == old(self)@.last()),
    {
        let r = self.stack.pop();
        proof {
            if old(self)@.len() > 0 {
                assert(self@ =~= old(self)@.drop_last());
            } else {
                assert(self@ =~= old(self)@);
            }
        }
        r
    }

    /// A copy of the value at position `i`, counted from the bottom.
    pub fn peek(&self, i: usize) -> (r: StackSlot)
        requires
            i < self@.len(),
        ensures
            r@ == self@[i as int],
    {
        self.stack[i].duplicate()
    }

    /// Pops the top value; returns it when it is a number.
    pub fn pop_number(&mut self) -> (r: Option<u64>)
        ensures
            final(self)@ == (if old(self)@.len() > 0 {
                old(self)@.drop_last()
            } else {
                old(self)@
            }),
            r == (if old(self)@.len() > 0 && old(self)@.last() is Number {
                Some(old(self)@.last()->Number_0)
            } else {
                None
            }),
    {
        match self.pop() {
            Some(StackSlot::Number(n)) => Some(n),
            _ => None,
        }
    }

    /// Pops the top value; returns it when it is a text.
    pub fn pop_string(&mut self) -> (r: Option<String>)
        ensures
            final(self)@ == (if old(self)@.len() > 0 {
                old(self)@.drop_last()
            } else {
                old(self)@
            }),
            match r {
                Some(s) => old(self)@.len() > 0 && old(self)@.last() == StackSlot::String(s@),
                None => !(old(self)@.len() > 0 && old(self)@.last() is String),
            },
    {
        match self.pop() {
            Some(StackSlot::String(s)) => Some(s),
            _ => None,
        }
    }

    /// Pops the top value; returns it when it is a named reference.
    pub fn pop_reference(&mut self) -> (r: Option<(String, usize)>)
        ensures
            final(self)@ == (if old(self)@.len() > 0 {
                old(self)@.drop_last()
            } else {
                old(self)@
            }),
            match r {
                Some((s, n)) => old(self)@.len() > 0 && old(self)@.last()
                    == StackSlot::NamedReference(s@, n),
                None => !(old(self)@.len() > 0 && old(self)@.last() is NamedReference),
            },
    {
        match self.pop() {
            Some(StackSlot::NamedReference(s, n)) => Some((s, n)),
            _ => None,
        }
    }
}


/// A binary operation on two numbers, computed by the host in IEEE-754
/// binary64 arithmetic; comparisons give 1.0 or 0.0.
#[derive(Clone, Copy, Debug, PartialEq, Eq, Structural)]
pub enum NumOp {
    Add,
    Sub,
    Mul,
    Div,
    Mod,
    Lt,
    Le,
    Gt,
    Ge,
    Eq,
    Ne,
}

/// Floating-point work that the engine hands to its host, with what the
/// engine needs to finish the instruction once the answer comes back.
#[derive(Clone, Debug)]
pub enum NumTask<S = String> {
    /// `left op right`; answered by a `Number`.
    Arith(NumOp, u64, u64),
    /// The number as a byte (`as u8`) made a character, put in front of the
    /// text; answered by a `Char`.
    Prepend(u64, S),
    /// The same character put after the text; answered by a `Char`.
    Append(S, u64),
    /// A named reference moved on by the number taken as a count (`as
    /// usize`); answered by an `Index`.
    OffsetNamed(S, usize, u64),
    /// An absolute reference moved on likewise; answered by an `Index`.
    OffsetAbsolute(usize, u64),
    /// The number as a stack index: its sign and magnitude if it is whole;
    /// answered by a `Whole`.
    Pull(u64),
    /// A signed distance between two positions, as a number; answered by a
    /// `Number`.
    Distance(i128),
    /// The UTF-8 bytes of the text, each as a number; answered by `Numbers`.
    Bytes(S),
}

impl View for NumTask {
    type V = NumTask<Seq<char>>;

    open spec fn view(&self) -> NumTask<Seq<char>> {
        match self {
            NumTask::Arith(op, l, r) => NumTask::Arith(*op, *l, *r),
            NumTask::Prepend(n, s) => NumTask::Prepend(*n, s@),
            NumTask::Append(s, n) => NumTask::Append(s@, *n),
            NumTask::OffsetNamed(s, o, n) => NumTask::OffsetNamed(s@, *o, *n),
            NumTask::OffsetAbsolute(p, n) => NumTask::OffsetAbsolute(*p, *n),
            NumTask::Pull(n) => NumTask::Pull(*n),
            NumTask::Distance(d) => NumTask::Distance(*d),
            NumTask::Bytes(s) => NumTask::Bytes(s@),
        }
    }
}

/// The host's answer to a `NumTask`.
#[derive(Clone, Debug)]
pub enum NumReply<V = Vec<u64>> {
    Number(u64),
    Char(char),
    Index(usize),
    /// `Some((negative, magnitude))` for a whole number, `None` otherwise.
    Whole(Option<(bool, u64)>),
    Numbers(V),
}

impl View for NumReply {
    type V = NumReply<Seq<u64>>;

    open spec fn view(&self) -> NumReply<Seq<u64>> {
        match self {
            NumReply::Number(n) => NumReply::Number(*n),
            NumReply::Char(c) => NumReply::Char(*c),
            NumReply::Index(k) => NumReply::Index(*k),
            NumReply::Whole(w) => NumReply::Whole(*w),
            NumReply::Numbers(v) => NumReply::Numbers(v@),
        }
    }
}

/// What the host must do after a step.
#[derive(Clone, Debug)]
pub enum Action<S = String> {
    /// Nothing: step again.
    Continue,
    /// The position ran past the end of the program.
    Done,
    /// Write this value, or report an empty stack.
    Print(Option<StackSlot<S>>),
    /// Dump the stack.
    PrintStack,
    /// Read this file and splice it in with `Environment::splice`.
    Include(S),
    /// Compute this and answer with `Environment::resume`.
    Compute(NumTask<S>),
}

impl View for Action {
    type V = Action<Seq<char>>;

    open spec fn view(&self) -> Action<Seq<char>> {
        match self {
            Action::Continue => Action::Continue,
            Action::Done => Action::Done,
            Action::Print(v) => Action::Print(
                match v {
                    Some(x) => Some(x@),
                    None => None,
                },
            ),
            Action::PrintStack => Action::PrintStack,
            Action::Include(s) => Action::Include(s@),
            Action::Compute(t) => Action::Compute(t@),
        }
    }
}

/// The state the engine's rules speak of.
pub struct Machine {
    pub stack: Seq<StackSlot<Seq<char>>>,
    pub labels: Map<Seq<char>, usize>,
    pub program: Seq<Command<Seq<char>>>,
    pub idx: int,
    pub calls: Seq<(usize, usize)>,
}

/// What went wrong in a failed step.
#[derive(Clone, Copy, Debug, PartialEq, Eq, Structural)]
pub enum FaultKind {
    /// Fewer values on the stack than the instruction takes.
    StackUnderflow,
    /// A value of the wrong kind for the instruction.
    TypeMismatch,
    /// A name that the label table does not hold.
    UnknownLabel,
    /// A position outside the program, or one that does not fit a `usize`.
    OutOfRange,
    /// `loop?` outside any call.
    NotInCall,
    /// A placeholder instruction was reached.
    Placeholder,
    /// The host's answer does not fit the task it was given.
    BadReply,
}

/// The result of one step: the next state and what the host must do, or a
/// run-time fault of some kind.
pub enum Outcome {
    Next(Machine, Action<Seq<char>>),
    Fault(FaultKind),
}

/// The fault of an instruction that takes `need` values of some kind from
/// a stack of `n` that does not supply them.
pub open spec fn missing(n: int, need: int) -> FaultKind {
    if n < need {
        FaultKind::StackUnderflow
    } else {
        FaultKind::TypeMismatch
    }
}

/// The fault of a value that stands for no position: a named reference to
/// an unknown label, or no reference at all.
pub open spec fn unresolved(v: StackSlot<Seq<char>>) -> FaultKind {
    if v is NamedReference {
        FaultKind::UnknownLabel
    } else {
        FaultKind::TypeMismatch
    }
}

pub open spec fn with_stack(m: Machine, st: Seq<StackSlot<Seq<char>>>) -> Machine {
    Machine { stack: st, ..m }
}

/// Carry on at the next instruction with the stack `st`.
pub open spec fn next(m: Machine, st: Seq<StackSlot<Seq<char>>>) -> Outcome {
    Outcome::Next(Machine { stack: st, idx: m.idx + 1, ..m }, Action::Continue)
}

/// Carry on at the next instruction with the stack `st`, once the host has
/// done `t`.
pub open spec fn compute(m: Machine, st: Seq<StackSlot<Seq<char>>>, t: NumTask<Seq<char>>) -> Outcome {
    Outcome::Next(Machine { stack: st, idx: m.idx + 1, ..m }, Action::Compute(t))
}

/// The stack without its top value, if it has one.
pub open spec fn popped(st: Seq<StackSlot<Seq<char>>>) -> Seq<StackSlot<Seq<char>>> {
    if st.len() > 0 {
        st.drop_last()
    } else {
        st
    }
}

/// The position a reference value stands for: a named one through the
/// label table, plus its offset.
pub open spec fn slot_target(labels: Map<Seq<char>, usize>, v: StackSlot<Seq<char>>) -> Option<int> {
    match v {
        StackSlot::NamedReference(n, off) => if labels.contains_key(n) {
            Some(labels[n] + off)
        } else {
            None
        },
        StackSlot::AbsoluteReference(p) => Some(p as int),
        _ => None,
    }
}

/// A name without its reference sigil.
pub open spec fn unsigiled(name: Seq<char>) -> Seq<char> {
    if name.len() > 0 {
        name.drop_first()
    } else {
        name
    }
}

/// The text up to the first sigil.
pub open spec fn until_sigil(s: Seq<char>) -> Seq<char>
    decreases s.len(),
{
    if s.len() == 0 || s[0] == '@' {
        seq![]
    } else {
        seq![s[0]] + until_sigil(s.drop_first())
    }
}

/// The label that `->` writes through: the name between the reference's
/// first sigil and the next one.
pub open spec fn arrow_key(name: Seq<char>) -> Seq<char> {
    until_sigil(unsigiled(name))
}

/// Call the block that reference `v` stands for: record where to come
/// back, continue after its position.
pub open spec fn call(m: Machine, st: Seq<StackSlot<Seq<char>>>, v: StackSlot<Seq<char>>) -> Outcome {
    match slot_target(m.labels, v) {
        Some(t) => if 0 <= t && t + 1 <= usize::MAX {
            Outcome::Next(
                Machine { stack: st, calls: m.calls.push((m.idx as usize, t as usize)), idx: t + 1, ..m },
                Action::Continue,
            )
        } else {
            Outcome::Fault(FaultKind::OutOfRange)
        },
        None => Outcome::Fault(unresolved(v)),
    }
}

/// Skip a block: continue after position `i + skip`.
pub open spec fn skip_block(m: Machine, skip: int) -> Outcome {
    if m.idx + skip + 1 <= usize::MAX {
        Outcome::Next(Machine { idx: m.idx + skip + 1, ..m }, Action::Continue)
    } else {
        Outcome::Fault(FaultKind::OutOfRange)
    }
}

pub open spec fn is_arith(c: Command<Seq<char>>) -> bool {
    c is Mul || c is Div || c is Mod || c is LT || c is LE || c is GT || c is GE
}

pub open spec fn arith_op(c: Command<Seq<char>>) -> NumOp {
    match c {
        Command::Mul => NumOp::Mul,
        Command::Div => NumOp::Div,
        Command::Mod => NumOp::Mod,
        Command::LT => NumOp::Lt,
        Command::LE => NumOp::Le,
        Command::GT => NumOp::Gt,
        _ => NumOp::Ge,
    }
}

/// The `+` table: numbers add, texts concatenate, a number and a text join
/// as a character and the text, a number moves a reference on.
pub open spec fn add_spec(m: Machine, st: Seq<StackSlot<Seq<char>>>, l: StackSlot<Seq<char>>, r: StackSlot<Seq<char>>) -> Outcome {
    match (r, l) {
        (StackSlot::Number(rn), StackSlot::Number(ln)) => compute(m, st, NumTask::Arith(NumOp::Add, ln, rn)),
        (StackSlot::String(rs), StackSlot::Number(ln)) => compute(m, st, NumTask::Prepend(ln, rs)),
        (StackSlot::Number(rn), StackSlot::String(ls)) => compute(m, st, NumTask::Append(ls, rn)),
        (StackSlot::String(rs), StackSlot::String(ls)) => next(m, st.push(StackSlot::String(ls + rs))),
        (StackSlot::Number(rn), StackSlot::NamedReference(name, off)) => compute(
            m,
            st,
            NumTask::OffsetNamed(name, off, rn),
        ),
        (StackSlot::Number(rn), StackSlot::AbsoluteReference(p)) => compute(m, st, NumTask::OffsetAbsolute(p, rn)),
        _ => Outcome::Fault(FaultKind::TypeMismatch),
    }
}

pub open spec fn is_reference(v: StackSlot<Seq<char>>) -> bool {
    v is NamedReference || v is AbsoluteReference
}

/// `-`: numbers subtract; two references give the distance between the
/// positions they stand for.
pub open spec fn sub_spec(m: Machine, st: Seq<StackSlot<Seq<char>>>, l: StackSlot<Seq<char>>, r: StackSlot<Seq<char>>) -> Outcome {
    match (r, l) {
        (StackSlot::Number(rn), StackSlot::Number(ln)) => compute(m, st, NumTask::Arith(NumOp::Sub, ln, rn)),
        _ => if is_reference(l) && is_reference(r) && slot_target(m.labels, l) is Some && slot_target(
            m.labels,
            r,
        ) is Some {
            compute(
                m,
                st,
                NumTask::Distance((slot_target(m.labels, l)->0 - slot_target(m.labels, r)->0) as i128),
            )
        } else if is_reference(l) && is_reference(r) {
            Outcome::Fault(FaultKind::UnknownLabel)
        } else {
            Outcome::Fault(FaultKind::TypeMismatch)
        },
    }
}

/// `==` and `!=` (`equal` says which): numbers are compared by the host,
/// texts by their characters; values of any other pair are never equal.
pub open spec fn eq_spec(m: Machine, st: Seq<StackSlot<Seq<char>>>, l: StackSlot<Seq<char>>, r: StackSlot<Seq<char>>, equal: bool) -> Outcome {
    match (l, r) {
        (StackSlot::Number(ln), StackSlot::Number(rn)) => compute(
            m,
            st,
            NumTask::Arith(if equal { NumOp::Eq } else { NumOp::Ne }, ln, rn),
        ),
        (StackSlot::String(ls), StackSlot::String(rs)) => next(
            m,
            st.push(StackSlot::Number(truth_bits((ls == rs) == equal))),
        ),
        _ => next(m, st.push(StackSlot::Number(truth_bits(!equal)))),
    }
}

/// The instructions that pop a right and then a left operand.
pub open spec fn binary_spec(m: Machine, c: Command<Seq<char>>) -> Outcome {
    let n = m.stack.len();
    if n < 2 {
        Outcome::Fault(FaultKind::StackUnderflow)
    } else {
        let r = m.stack[n - 1];
        let l = m.stack[n - 2];
        let st = m.stack.take(n - 2);
        if c is Add {
            add_spec(m, st, l, r)
        } else if c is Sub {
            sub_spec(m, st, l, r)
        } else if c is EQ {
            eq_spec(m, st, l, r, true)
        } else if c is NE {
            eq_spec(m, st, l, r, false)
        } else {
            match (r, l) {
                (StackSlot::Number(rn), StackSlot::Number(ln)) => compute(m, st, NumTask::Arith(arith_op(c), ln, rn)),
                _ => Outcome::Fault(FaultKind::TypeMismatch),
            }
        }
    }
}

pub open spec fn is_binary(c: Command<Seq<char>>) -> bool {
    c is Add || c is Sub || c is EQ || c is NE || is_arith(c)
}

/// `put` and `->` write a value into the instruction after the position a
/// reference stands for.
pub open spec fn store(m: Machine, st: Seq<StackSlot<Seq<char>>>, pos: int, v: StackSlot<Seq<char>>, next_idx: int) -> Outcome {
    if 0 <= pos && pos + 1 < m.program.len() {
        Outcome::Next(
            Machine { stack: st, program: m.program.update(pos + 1, stored_form(v)), idx: next_idx, ..m },
            Action::Continue,
        )
    } else {
        Outcome::Fault(FaultKind::OutOfRange)
    }
}

/// One step of the engine from state `m`.
pub open spec fn step_spec(m: Machine) -> Outcome {
    let i = m.idx;
    let st = m.stack;
    let n = st.len();
    if i < 0 || i >= m.program.len() {
        Outcome::Next(m, Action::Done)
    } else {
        let c = m.program[i];
        match c {
            Command::Define(Visibility::Public, skip) => skip_block(
                Machine {
                    stack: popped(st),
                    labels: if i > 0 && m.program[i - 1] is Pushs {
                        m.labels.insert(m.program[i - 1]->Pushs_0, i as usize)
                    } else {
                        m.labels
                    },
                    ..m
                },
                skip as int,
            ),
            Command::Define(Visibility::Private, skip) => if i + skip + 1 > usize::MAX {
                Outcome::Fault(FaultKind::OutOfRange)
            } else if n > 0 && st.last() is String {
                skip_block(
                    Machine {
                        stack: popped(st),
                        labels: m.labels.insert(st.last()->String_0, i as usize),
                        ..m
                    },
                    skip as int,
                )
            } else {
                Outcome::Fault(missing(n as int, 1))
            },
            Command::Lambda(skip) => skip_block(
                with_stack(m, st.push(StackSlot::AbsoluteReference(i as usize))),
                skip as int,
            ),
            Command::Include => if n > 0 && st.last() is String {
                Outcome::Next(
                    Machine { stack: popped(st), idx: i + 1, ..m },
                    Action::Include(st.last()->String_0),
                )
            } else {
                Outcome::Fault(missing(n as int, 1))
            },
            Command::Pushn(v) => next(m, st.push(StackSlot::Number(v))),
            Command::Pushs(s) => next(m, st.push(StackSlot::String(s))),
            Command::EndDefine | Command::Return => if m.calls.len() > 0 {
                if m.calls.last().0 + 1 <= usize::MAX {
                    Outcome::Next(
                        Machine { idx: m.calls.last().0 + 1, calls: m.calls.drop_last(), ..m },
                        Action::Continue,
                    )
                } else {
                    Outcome::Fault(FaultKind::OutOfRange)
                }
            } else {
                next(m, st)
            },
            Command::LoopIf => if m.calls.len() == 0 {
                Outcome::Fault(FaultKind::NotInCall)
            } else if n == 0 || !(st.last() is Number) {
                Outcome::Fault(missing(n as int, 1))
            } else if is_zero_number(st.last()->Number_0) {
                next(m, popped(st))
            } else if m.calls.last().1 + 1 <= usize::MAX {
                Outcome::Next(
                    Machine { stack: popped(st), idx: m.calls.last().1 + 1, ..m },
                    Action::Continue,
                )
            } else {
                Outcome::Fault(FaultKind::OutOfRange)
            },
            Command::JmpIf => if n < 2 || !(st[n - 2] is Number) {
                Outcome::Fault(missing(n as int, 2))
            } else if is_zero_number(st[n - 2]->Number_0) {
                next(m, st.take(n - 2))
            } else {
                call(m, st.take(n - 2), st[n - 1])
            },
            Command::Jmp => if n == 0 {
                Outcome::Fault(FaultKind::StackUnderflow)
            } else {
                call(m, popped(st), st[n - 1])
            },
            Command::Not => if n > 0 && st.last() is Number {
                next(
                    m,
                    popped(st).push(StackSlot::Number(truth_bits(is_zero_number(st.last()->Number_0)))),
                )
            } else {
                Outcome::Fault(missing(n as int, 1))
            },
            Command::Dup => if n > 0 {
                next(m, st.push(st.last()))
            } else {
                Outcome::Fault(FaultKind::StackUnderflow)
            },
            Command::Swap => if n >= 2 {
                next(m, st.take(n - 2).push(st[n - 1]).push(st[n - 2]))
            } else {
                Outcome::Fault(FaultKind::StackUnderflow)
            },
            Command::Drop => next(m, popped(st)),
            Command::Print => Outcome::Next(
                Machine { stack: popped(st), idx: i + 1, ..m },
                Action::Print(if n > 0 { Some(st.last()) } else { None }),
            ),
            Command::ArrowPut => if n == 0 {
                Outcome::Fault(FaultKind::StackUnderflow)
            } else if i + 1 >= m.program.len() || !(m.program[i + 1] is NamedReference) {
                Outcome::Fault(FaultKind::TypeMismatch)
            } else {
                let key = arrow_key(m.program[i + 1]->NamedReference_0);
                if m.labels.contains_key(key) {
                    store(
                        m,
                        popped(st),
                        m.labels[key] + m.program[i + 1]->NamedReference_1,
                        st.last(),
                        i + 2,
                    )
                } else {
                    Outcome::Fault(FaultKind::UnknownLabel)
                }
            },
            Command::Put => if n < 2 {
                Outcome::Fault(FaultKind::StackUnderflow)
            } else if slot_target(m.labels, st[n - 1]) is None {
                Outcome::Fault(unresolved(st[n - 1]))
            } else {
                store(m, st.take(n - 2), slot_target(m.labels, st[n - 1])->0, st[n - 2], i + 1)
            },
            Command::Get => if n == 0 {
                Outcome::Fault(FaultKind::StackUnderflow)
            } else if slot_target(m.labels, st[n - 1]) is None {
                Outcome::Fault(unresolved(st[n - 1]))
            } else {
                let pos = slot_target(m.labels, st[n - 1])->0;
                if !(0 <= pos && pos + 1 < m.program.len()) {
                    Outcome::Fault(FaultKind::OutOfRange)
                } else if loaded_form(m.program[pos + 1]) is Some {
                    next(m, popped(st).push(loaded_form(m.program[pos + 1])->0))
                } else {
                    Outcome::Fault(FaultKind::TypeMismatch)
                }
            },
            Command::Pull => if n > 0 && st.last() is Number {
                compute(m, popped(st), NumTask::Pull(st.last()->Number_0))
            } else {
                Outcome::Fault(missing(n as int, 1))
            },
            Command::NamedReference(s, off) => {
                let name = unsigiled(s);
                if !m.labels.contains_key(name) {
                    Outcome::Fault(FaultKind::UnknownLabel)
                } else if m.labels[name] + off <= usize::MAX {
                    Outcome::Next(
                        Machine {
                            stack: st.push(StackSlot::NamedReference(name, off)),
                            program: m.program.update(
                                i,
                                Command::AbsoluteReference((m.labels[name] + off) as usize),
                            ),
                            idx: i + 1,
                            ..m
                        },
                        Action::Continue,
                    )
                } else {
                    Outcome::Fault(FaultKind::OutOfRange)
                }
            },
            Command::AbsoluteReference(p) => next(m, st.push(StackSlot::AbsoluteReference(p))),
            Command::AddressOf => if !(n > 0 && st.last() is String) {
                Outcome::Fault(missing(n as int, 1))
            } else if m.labels.contains_key(st.last()->String_0) {
                next(m, popped(st).push(StackSlot::NamedReference(st.last()->String_0, 0)))
            } else {
                Outcome::Fault(FaultKind::UnknownLabel)
            },
            Command::PrintStack => Outcome::Next(Machine { idx: i + 1, ..m }, Action::PrintStack),
            Command::Placeholder => Outcome::Fault(FaultKind::Placeholder),
            Command::Bytes => if n > 0 && st.last() is String {
                compute(m, popped(st), NumTask::Bytes(st.last()->String_0))
            } else {
                Outcome::Fault(missing(n as int, 1))
            },
            Command::Nop => next(m, st),
            _ => binary_spec(m, c),
        }
    }
}

/// The fault when the host's answer `a` to task `t` cannot be used: a result
/// out of range, a pull index that is not whole, or an answer of the wrong
/// kind.
pub open spec fn resume_fault(t: NumTask<Seq<char>>, a: NumReply<Seq<u64>>) -> FaultKind {
    match (t, a) {
        (NumTask::OffsetNamed(_, _, _), NumReply::Index(_)) => FaultKind::OutOfRange,
        (NumTask::OffsetAbsolute(_, _), NumReply::Index(_)) => FaultKind::OutOfRange,
        (NumTask::Pull(_), NumReply::Whole(Some(_))) => FaultKind::OutOfRange,
        (NumTask::Pull(_), NumReply::Whole(None)) => FaultKind::TypeMismatch,
        _ => FaultKind::BadReply,
    }
}

/// The state once the host has answered task `t` with `a`; `None` when the
/// answer does not fit the task or the result is out of range.
pub open spec fn resume_spec(m: Machine, t: NumTask<Seq<char>>, a: NumReply<Seq<u64>>) -> Option<Machine> {
    let st = m.stack;
    match (t, a) {
        (NumTask::Arith(_, _, _), NumReply::Number(b)) => Some(with_stack(m, st.push(StackSlot::Number(b)))),
        (NumTask::Distance(_), NumReply::Number(b)) => Some(with_stack(m, st.push(StackSlot::Number(b)))),
        (NumTask::Prepend(_, s), NumReply::Char(c)) => Some(
            with_stack(m, st.push(StackSlot::String(seq![c] + s))),
        ),
        (NumTask::Append(s, _), NumReply::Char(c)) => Some(
            with_stack(m, st.push(StackSlot::String(s.push(c)))),
        ),
        (NumTask::OffsetNamed(name, off, _), NumReply::Index(k)) => if off + k <= usize::MAX {
            Some(with_stack(m, st.push(StackSlot::NamedReference(name, (off + k) as usize))))
        } else {
            None
        },
        (NumTask::OffsetAbsolute(p, _), NumReply::Index(k)) => if p + k <= usize::MAX {
            Some(with_stack(m, st.push(StackSlot::AbsoluteReference((p + k) as usize))))
        } else {
            None
        },
        (NumTask::Pull(_), NumReply::Whole(Some((negative, mag)))) => {
            let at = if negative {
                st.len() - mag
            } else {
                mag as int
            };
            if 0 <= at < st.len() {
                Some(with_stack(m, st.push(st[at])))
            } else {
                None
            }
        },
        (NumTask::Bytes(_), NumReply::Numbers(v)) => Some(
            with_stack(m, st + v.map_values(|b: u64| StackSlot::<Seq<char>>::Number(b))),
        ),
        _ => None,
    }
}

/// The whole interpreter state: it persists across runs, so a program can
/// grow by later input.
pub struct Environment {
    pub stack: Stack,
    pub definitions: Labels,
    pub program: Vec<Command>,
    pub source: Vec<SourceReference>,
    pub idx: usize,
    pub calls: Vec<(usize, usize)>,
    pub execute: bool,
}

/// A fatal run-time error, with what a host needs to report it: the
/// message, the calls in progress, the source tokens of their targets, and
/// the source tokens around the failing position.
#[derive(Debug)]
pub struct RuntimeError {
    pub kind: FaultKind,
    pub msg: String,
    pub call_stack: Vec<(usize, usize)>,
    pub callers: Vec<SourceReference>,
    pub around: Vec<SourceReference>,
}

/// The source window shown for a failure at `idx`: up to ten positions on
/// either side.
pub open spec fn window(source: Seq<SourceReference<Seq<char>>>, idx: int) -> Seq<SourceReference<Seq<char>>> {
    let lo = if idx >= 10 {
        idx - 10
    } else {
        0
    };
    let hi = if idx + 10 <= source.len() {
        idx + 10
    } else {
        source.len() as int
    };
    if lo <= hi {
        source.subrange(lo, hi)
    } else {
        seq![]
    }
}

/// The source token of a call's target: the one just before the position
/// called.
pub open spec fn caller_source(source: Seq<SourceReference<Seq<char>>>, target: usize) -> SourceReference<Seq<char>> {
    if 1 <= target <= source.len() {
        source[target - 1]
    } else {
        SourceReference::Invisible
    }
}

impl RuntimeError {
    pub fn new(kind: FaultKind, msg: String, call_stack: &Vec<(usize, usize)>, env: &Environment) -> (r:
        RuntimeError)
        ensures
            r.kind == kind,
            r.msg@ == msg@,
            r.call_stack@ == call_stack@,
            src_views(r.around@) == window(src_views(env.source@), env.idx as int),
            src_views(r.callers@) == call_stack@.map_values(
                |f: (usize, usize)| caller_source(src_views(env.source@), f.1),
            ),
    {
        let ghost sv = src_views(env.source@);
        let n = env.source.len();
        let lo: usize = if env.idx >= 10 {
            env.idx - 10
        } else {
            0
        };
        let hi: usize = if n >= 10 && env.idx <= n - 10 {
            env.idx + 10
        } else {
            n
        };
        let mut around: Vec<SourceReference> = Vec::new();
        if lo <= hi {
            let mut k: usize = lo;
            while k < hi
                invariant
                    lo <= k <= hi <= n,
                    n == env.source@.len(),
                    sv == src_views(env.source@),
                    src_views(around@) == sv.subrange(lo as int, k as int),
                decreases hi - k,
            {
                let ghost prev = src_views(around@);
                around.push(env.source[k].duplicate());
                assert(src_views(around@) =~= prev.push(sv[k as int]));
                k += 1;
                assert(src_views(around@) =~= sv.subrange(lo as int, k as int));
            }
        }
        assert(src_views(around@) =~= window(sv, env.idx as int));
        let mut callers: Vec<SourceReference> = Vec::new();
        let mut q: usize = 0;
        let ghost f = |f: (usize, usize)| caller_source(sv, f.1);
        while q < call_stack.len()
            invariant
                q <= call_stack@.len(),
                n == env.source@.len(),
                sv == src_views(env.source@),
                f == (|f: (usize, usize)| caller_source(sv, f.1)),
                src_views(callers@) == call_stack@.take(q as int).map_values(f),
            decreases call_stack@.len() - q,
        {
            let t = call_stack[q].1;
            let entry = if t >= 1 && t <= n {
                env.source[t - 1].duplicate()
            } else {
                SourceReference::Invisible
            };
            let ghost prev = src_views(callers@);
            callers.push(entry);
            assert(src_views(callers@) =~= prev.push(f(call_stack@[q as int])));
            assert(call_stack@.take(q + 1).map_values(f) =~= call_stack@.take(q as int).map_values(
                f,
            ).push(f(call_stack@[q as int])));
            q += 1;
        }
        assert(call_stack@.take(q as int) =~= call_stack@);
        let mut calls: Vec<(usize, usize)> = Vec::new();
        let mut k: usize = 0;
        while k < call_stack.len()
            invariant
                k <= call_stack@.len(),
                calls@ == call_stack@.take(k as int),
            decreases call_stack@.len() - k,
        {
            calls.push(call_stack[k]);
            k += 1;
            assert(calls@ =~= call_stack@.take(k as int));
        }
        assert(call_stack@.take(k as int) =~= call_stack@);
        RuntimeError { kind, msg, call_stack: calls, callers, around }
    }

    /// The message.
    pub fn message(&self) -> (r: String)
        ensures
            r@ == self.msg@,
    {
        self.msg.clone()
    }
}

/// The fault for a stack of `n` values that lacks `need` of the right kind.
fn shortfall(n: usize, need: usize) -> (k: FaultKind)
    ensures
        k == missing(n as int, need as int),
{
    if n < need {
        FaultKind::StackUnderflow
    } else {
        FaultKind::TypeMismatch
    }
}

/// The fault for a value that stands for no position.
fn unresolved_kind(v: &StackSlot) -> (k: FaultKind)
    ensures
        k == unresolved(v@),
{
    match v {
        StackSlot::NamedReference(_, _) => FaultKind::UnknownLabel,
        _ => FaultKind::TypeMismatch,
    }
}

/// The label that `->` writes through.
fn arrow_name(name: &String) -> (r: String)
    ensures
        r@ == arrow_key(name@),
{
    let c = crate::text::chars_of(unsigil(name).as_str());
    let mut out: Vec<char> = Vec::new();
    let mut k: usize = 0;
    assert(c@.skip(0) =~= c@);
    while k < c.len() && c[k] != '@'
        invariant
            k <= c@.len(),
            out@ == c@.take(k as int),
            until_sigil(c@) == out@ + until_sigil(c@.skip(k as int)),
        decreases c@.len() - k,
    {
        assert(c@.skip(k as int).drop_first() =~= c@.skip(k + 1));
        out.push(c[k]);
        k += 1;
        assert(out@ =~= c@.take(k as int));
        assert(until_sigil(c@) =~= out@ + until_sigil(c@.skip(k as int)));
    }
    assert(until_sigil(c@.skip(k as int)) =~= Seq::<char>::empty());
    assert(out@ =~= out@ + Seq::<char>::empty());
    string_of(&out)
}

/// The stored form of a value, as `put` writes it.
pub fn stored(v: StackSlot) -> (r: Command)
    ensures
        r@ == stored_form(v@),
{
    match v {
        StackSlot::Number(n) => Command::Pushn(n),
        StackSlot::String(s) => Command::Pushs(s),
        StackSlot::NamedReference(r, o) => {
            let mut name: Vec<char> = Vec::new();
            name.push('@');
            let mut rest = crate::text::chars_of(r.as_str());
            name.append(&mut rest);
            assert(name@ =~= seq!['@'] + r@);
            Command::NamedReference(string_of(&name), o)
        },
        StackSlot::AbsoluteReference(p) => Command::AbsoluteReference(p),
    }
}

/// A name without its first character.
fn unsigil(name: &String) -> (r: String)
    ensures
        r@ == unsigiled(name@),
{
    let c = crate::text::chars_of(name.as_str());
    if c.len() == 0 {
        return name.clone();
    }
    let mut out: Vec<char> = Vec::new();
    let mut k: usize = 1;
    while k < c.len()
        invariant
            1 <= k <= c@.len(),
            out@ == c@.subrange(1, k as int),
        decreases c@.len() - k,
    {
        out.push(c[k]);
        k += 1;
        assert(out@ =~= c@.subrange(1, k as int));
    }
    assert(out@ =~= name@.drop_first());
    string_of(&out)
}

/// The value an instruction holds, as `get` reads it.
pub fn loaded(c: &Command) -> (r: Option<StackSlot>)
    ensures
        match r {
            Some(v) => loaded_form(c@) == Some(v@),
            None => loaded_form(c@) is None,
        },
{
    match c {
        Command::Pushn(n) => Some(StackSlot::Number(*n)),
        Command::Pushs(s) => Some(StackSlot::String(s.clone())),
        Command::NamedReference(s, o) => Some(StackSlot::NamedReference(unsigil(s), *o)),
        Command::AbsoluteReference(p) => Some(StackSlot::AbsoluteReference(*p)),
        _ => None,
    }
}

/// The error reports the calls in progress at state `m` and the source
/// around its position.
pub open spec fn faulted_at(m: Machine, src: Seq<SourceReference<Seq<char>>>, e: RuntimeError) -> bool {
    &&& e.call_stack@ == m.calls
    &&& src_views(e.around@) == window(src, m.idx)
    &&& src_views(e.callers@) == m.calls.map_values(|f: (usize, usize)| caller_source(src, f.1))
}

/// Whether a step did what `step_spec` says.
pub open spec fn stepped(m: Machine, e: Environment, src: Seq<SourceReference<Seq<char>>>, r: Result<Action, RuntimeError>) -> bool {
    &&& src_views(e.source@) == src
    &&& match (step_spec(m), r) {
        (Outcome::Next(m2, a), Ok(act)) => e.machine() == m2 && act@ == a,
        (Outcome::Fault(k), Err(err)) => e.machine().program == m.program && e.machine().labels
            == m.labels && faulted_at(m, src, err) && err.kind == k,
        _ => false,
    }
}

impl Environment {
    /// A fresh environment holding a lexed program, positioned at its start.
    pub fn new(program: Vec<Command>, source: Vec<SourceReference>) -> (r: Environment)
        ensures
            r.machine() == (Machine {
                stack: Seq::empty(),
                labels: Map::empty(),
                program: cmd_views(program@),
                idx: 0,
                calls: Seq::empty(),
            }),
            r.source@ == source@,
            r.execute,
    {
        let r = Environment {
            stack: Stack::new(),
            definitions: Labels::new(),
            program,
            source,
            idx: 0,
            calls: Vec::new(),
            execute: true,
        };
        assert(r.calls@ =~= Seq::<(usize, usize)>::empty());
        r
    }

    /// The state the rules speak of.
    pub open spec fn machine(&self) -> Machine {
        Machine {
            stack: self.stack@,
            labels: self.definitions@,
            program: cmd_views(self.program@),
            idx: self.idx as int,
            calls: self.calls@,
        }
    }

    fn fail(&self, kind: FaultKind, msg: &str) -> (r: RuntimeError)
        ensures
            faulted_at(self.machine(), src_views(self.source@), r),
            r.kind == kind,
    {
        RuntimeError::new(kind, msg.to_string(), &self.calls, self)
    }

    /// The position a reference value stands for.
    fn target_of(&self, v: &StackSlot) -> (r: Option<u128>)
        ensures
            match r {
                Some(t) => slot_target(self.definitions@, v@) == Some(t as int),
                None => slot_target(self.definitions@, v@) is None,
            },
    {
        match v {
            StackSlot::NamedReference(name, off) => match self.definitions.get(name) {
                Some(base) => Some(base as u128 + *off as u128),
                None => None,
            },
            StackSlot::AbsoluteReference(p) => Some(*p as u128),
            _ => None,
        }
    }
}

impl Environment {
    /// Carries on at the next instruction.
    fn advance(&mut self) -> (r: Result<Action, RuntimeError>)
        requires
            old(self).idx < old(self).program@.len(),
        ensures
            final(self).machine() == (Machine { idx: old(self).idx + 1, ..old(self).machine() }),
            final(self).source == old(self).source,
            r matches Ok(Action::Continue),
    {
        let n = self.program.len();
        assert(self.idx < n);
        self.idx = self.idx + 1;
        Ok(Action::Continue)
    }

    /// Calls the block that reference `v` stands for, recording the call.
    fn call_to(&mut self, v: &StackSlot) -> (r: Result<Action, RuntimeError>)
        ensures
            final(self).source == old(self).source,
            final(self).definitions@ == old(self).definitions@,
            final(self).program@ == old(self).program@,
            match (call(old(self).machine(), old(self).stack@, v@), r) {
                (Outcome::Next(m2, a), Ok(act)) => final(self).machine() == m2 && act@ == a,
                (Outcome::Fault(k), Err(e)) => faulted_at(
                    old(self).machine(),
                    src_views(old(self).source@),
                    e,
                ) && e.kind == k,
                _ => false,
            },
    {
        match self.target_of(v) {
            Some(t) => {
                if t < usize::MAX as u128 {
                    let i = self.idx;
                    self.calls.push((i, t as usize));
                    self.idx = (t + 1) as usize;
                    Ok(Action::Continue)
                } else {
                    Err(self.fail(FaultKind::OutOfRange, "jump target out of range"))
                }
            },
            None => Err(self.fail(unresolved_kind(v), "expected a known reference for a jump")),
        }
    }

    fn exec_define(&mut self, v: Visibility, skip: usize) -> (r: Result<Action, RuntimeError>)
        requires
            old(self).idx < old(self).program@.len(),
            old(self).program@[old(self).idx as int]@ == Command::<Seq<char>>::Define(v, skip),
        ensures
            stepped(old(self).machine(), *final(self), src_views(old(self).source@), r),
    {
        let ghost m = self.machine();
        let i = self.idx;
        if i as u128 + skip as u128 + 1 > usize::MAX as u128 {
            return Err(self.fail(FaultKind::OutOfRange, "block end out of range"));
        }
        match v {
            Visibility::Public => {
                if i > 0 {
                    assert(m.program[i - 1] == self.program@[i - 1]@);
                    if let Command::Pushs(name) = &self.program[i - 1] {
                        let name = name.clone();
                        self.definitions.set(name, i);
                    }
                }
                self.stack.pop();
            },
            Visibility::Private => {
                let depth = self.stack.len();
                match self.stack.pop_string() {
                    Some(name) => {
                        self.definitions.set(name, i);
                    },
                    None => {
                        return Err(self.fail(shortfall(depth, 1), "string required for private define"));
                    },
                }
            },
        }
        self.idx = i + skip + 1;
        Ok(Action::Continue)
    }

    fn exec_return(&mut self) -> (r: Result<Action, RuntimeError>)
        requires
            old(self).idx < old(self).program@.len(),
            old(self).program@[old(self).idx as int]@ is EndDefine || old(
                self,
            ).program@[old(self).idx as int]@ is Return,
        ensures
            stepped(old(self).machine(), *final(self), src_views(old(self).source@), r),
    {
        let ghost m = self.machine();
        let k = self.calls.len();
        if k > 0 && self.calls[k - 1].0 == usize::MAX {
            return Err(self.fail(FaultKind::OutOfRange, "return position out of range"));
        }
        match self.calls.pop() {
            Some((ret, _)) => {
                self.idx = ret + 1;
                assert(self.calls@ =~= m.calls.drop_last());
                Ok(Action::Continue)
            },
            None => self.advance(),
        }
    }

    fn exec_loop_if(&mut self) -> (r: Result<Action, RuntimeError>)
        requires
            old(self).idx < old(self).program@.len(),
            old(self).program@[old(self).idx as int]@ is LoopIf,
        ensures
            stepped(old(self).machine(), *final(self), src_views(old(self).source@), r),
    {
        let ghost m = self.machine();
        let k = self.calls.len();
        if k == 0 {
            return Err(self.fail(FaultKind::NotInCall, "can't use `loop?` on toplevel"));
        }
        let position = self.calls[k - 1].1;
        let depth = self.stack.len();
        match self.stack.pop_number() {
            Some(n) => {
                if number_is_zero(n) {
                    self.advance()
                } else if position == usize::MAX {
                    Err(self.fail(FaultKind::OutOfRange, "loop position out of range"))
                } else {
                    self.idx = position + 1;
                    Ok(Action::Continue)
                }
            },
            None => Err(self.fail(shortfall(depth, 1), "expected number for a loop")),
        }
    }

    fn exec_jump(&mut self, conditional: bool) -> (r: Result<Action, RuntimeError>)
        requires
            old(self).idx < old(self).program@.len(),
            old(self).program@[old(self).idx as int]@ == (if conditional {
                Command::<Seq<char>>::JmpIf
            } else {
                Command::<Seq<char>>::Jmp
            }),
        ensures
            stepped(old(self).machine(), *final(self), src_views(old(self).source@), r),
    {
        let ghost m = self.machine();
        let n = self.stack.len();
        if n == 0 {
            return Err(self.fail(FaultKind::StackUnderflow, "expected reference for a jump"));
        }
        let reference = self.stack.pop().unwrap();
        if conditional {
            if n < 2 {
                return Err(self.fail(shortfall(n, 2), "expected number for a conditional jump"));
            }
            match self.stack.pop_number() {
                Some(v) => {
                    assert(self.stack@ =~= m.stack.take(n - 2));
                    if number_is_zero(v) {
                        return self.advance();
                    }
                },
                None => {
                    return Err(self.fail(shortfall(n, 2), "expected number for a conditional jump"));
                },
            }
        }
        self.call_to(&reference)
    }
}

impl Environment {
    fn finish_compute(&mut self, t: NumTask) -> (r: Result<Action, RuntimeError>)
        requires
            old(self).idx < old(self).program@.len(),
        ensures
            final(self).machine() == (Machine { idx: old(self).idx + 1, ..old(self).machine() }),
            final(self).source == old(self).source,
            r matches Ok(a) && a@ == Action::Compute(t@),
    {
        let n = self.program.len();
        assert(self.idx < n);
        self.idx = self.idx + 1;
        Ok(Action::Compute(t))
    }

    fn exec_binary(&mut self, c: &Command) -> (r: Result<Action, RuntimeError>)
        requires
            old(self).idx < old(self).program@.len(),
            old(self).program@[old(self).idx as int]@ == c@,
            is_binary(c@),
        ensures
            stepped(old(self).machine(), *final(self), src_views(old(self).source@), r),
    {
        let ghost m = self.machine();
        let n = self.stack.len();
        if n < 2 {
            return Err(self.fail(FaultKind::StackUnderflow, "stack underflow in a binary operation"));
        }
        let right = self.stack.pop().unwrap();
        let left = self.stack.pop().unwrap();
        assert(self.stack@ =~= m.stack.take(n - 2));
        match c {
            Command::Add => match (right, left) {
                (StackSlot::Number(rn), StackSlot::Number(ln)) => self.finish_compute(
                    NumTask::Arith(NumOp::Add, ln, rn),
                ),
                (StackSlot::String(rs), StackSlot::Number(ln)) => self.finish_compute(
                    NumTask::Prepend(ln, rs),
                ),
                (StackSlot::Number(rn), StackSlot::String(ls)) => self.finish_compute(
                    NumTask::Append(ls, rn),
                ),
                (StackSlot::String(rs), StackSlot::String(ls)) => {
                    let joined = ls.concat(rs.as_str());
                    self.stack.push(StackSlot::String(joined));
                    self.advance()
                },
                (StackSlot::Number(rn), StackSlot::NamedReference(name, off)) => self.finish_compute(
                    NumTask::OffsetNamed(name, off, rn),
                ),
                (StackSlot::Number(rn), StackSlot::AbsoluteReference(p)) => self.finish_compute(
                    NumTask::OffsetAbsolute(p, rn),
                ),
                _ => Err(self.fail(FaultKind::TypeMismatch, "add operator only supported for numbers or strings")),
            },
            Command::Sub => {
                if let (StackSlot::Number(rn), StackSlot::Number(ln)) = (&right, &left) {
                    return self.finish_compute(NumTask::Arith(NumOp::Sub, *ln, *rn));
                }
                let is_ref_l = match &left {
                    StackSlot::NamedReference(_, _) | StackSlot::AbsoluteReference(_) => true,
                    _ => false,
                };
                let is_ref_r = match &right {
                    StackSlot::NamedReference(_, _) | StackSlot::AbsoluteReference(_) => true,
                    _ => false,
                };
                if !is_ref_l || !is_ref_r {
                    return Err(self.fail(FaultKind::TypeMismatch, "arithmetic is only supported for numbers"));
                }
                match (self.target_of(&left), self.target_of(&right)) {
                    (Some(lp), Some(rp)) => {
                        let d = lp as i128 - rp as i128;
                        self.finish_compute(NumTask::Distance(d))
                    },
                    _ => Err(self.fail(FaultKind::UnknownLabel, "reference not found in definitions for subtraction")),
                }
            },
            Command::EQ | Command::NE => {
                let equal = match c {
                    Command::EQ => true,
                    _ => false,
                };
                match (&left, &right) {
                    (StackSlot::Number(ln), StackSlot::Number(rn)) => {
                        let op = if equal {
                            NumOp::Eq
                        } else {
                            NumOp::Ne
                        };
                        self.finish_compute(NumTask::Arith(op, *ln, *rn))
                    },
                    (StackSlot::String(ls), StackSlot::String(rs)) => {
                        let same = *ls == *rs;
                        let v = if same == equal {
                            ONE_BITS
                        } else {
                            ZERO_BITS
                        };
                        self.stack.push(StackSlot::Number(v));
                        self.advance()
                    },
                    _ => {
                        let v = if equal {
                            ZERO_BITS
                        } else {
                            ONE_BITS
                        };
                        self.stack.push(StackSlot::Number(v));
                        self.advance()
                    },
                }
            },
            _ => match (right, left) {
                (StackSlot::Number(rn), StackSlot::Number(ln)) => {
                    let op = match c {
                        Command::Mul => NumOp::Mul,
                        Command::Div => NumOp::Div,
                        Command::Mod => NumOp::Mod,
                        Command::LT => NumOp::Lt,
                        Command::LE => NumOp::Le,
                        Command::GT => NumOp::Gt,
                        _ => NumOp::Ge,
                    };
                    self.finish_compute(NumTask::Arith(op, ln, rn))
                },
                _ => Err(self.fail(FaultKind::TypeMismatch, "arithmetic is only supported for numbers")),
            },
        }
    }
}

impl Environment {
    /// Writes the stored form of `v` after position `pos`, then continues at
    /// `next_idx`.
    fn store_at(&mut self, pos: u128, v: StackSlot, next_idx: usize) -> (r: Result<Action, RuntimeError>)
        ensures
            final(self).source == old(self).source,
            match (store(old(self).machine(), old(self).stack@, pos as int, v@, next_idx as int), r) {
                (Outcome::Next(m2, a), Ok(act)) => final(self).machine() == m2 && act@ == a,
                (Outcome::Fault(k), Err(e)) => final(self).machine() == old(self).machine()
                    && faulted_at(old(self).machine(), src_views(old(self).source@), e) && e.kind
                    == k,
                _ => false,
            },
    {
        let ghost m = self.machine();
        let n = self.program.len();
        if n == 0 || pos >= (n - 1) as u128 {
            return Err(self.fail(FaultKind::OutOfRange, "write target out of range"));
        }
        let w = (pos + 1) as usize;
        let cmd = stored(v);
        self.program.set(w, cmd);
        assert(cmd_views(self.program@) =~= m.program.update(w as int, stored_form(v@)));
        self.idx = next_idx;
        Ok(Action::Continue)
    }

    fn exec_put(&mut self) -> (r: Result<Action, RuntimeError>)
        requires
            old(self).idx < old(self).program@.len(),
            old(self).program@[old(self).idx as int]@ is Put,
        ensures
            stepped(old(self).machine(), *final(self), src_views(old(self).source@), r),
    {
        let ghost m = self.machine();
        let n = self.stack.len();
        if n < 2 {
            return Err(self.fail(FaultKind::StackUnderflow, "reference and value required for put"));
        }
        let reference = self.stack.pop().unwrap();
        let pos = match self.target_of(&reference) {
            Some(p) => p,
            None => {
                return Err(self.fail(unresolved_kind(&reference), "reference required for put"));
            },
        };
        let value = self.stack.pop().unwrap();
        assert(self.stack@ =~= m.stack.take(n - 2));
        let len = self.program.len();
        assert(self.idx < len);
        let next_idx = self.idx + 1;
        self.store_at(pos, value, next_idx)
    }

    fn exec_arrow_put(&mut self) -> (r: Result<Action, RuntimeError>)
        requires
            old(self).idx < old(self).program@.len(),
            old(self).program@[old(self).idx as int]@ is ArrowPut,
        ensures
            stepped(old(self).machine(), *final(self), src_views(old(self).source@), r),
    {
        let ghost m = self.machine();
        let i = self.idx;
        let len = self.program.len();
        if self.stack.len() == 0 {
            return Err(self.fail(FaultKind::StackUnderflow, "stack underflow for arrow expression"));
        }
        if i + 1 >= len {
            return Err(self.fail(FaultKind::TypeMismatch, "reference required for arrow put"));
        }
        assert(m.program[i + 1] == self.program@[i + 1]@);
        let (key, off) = match &self.program[i + 1] {
            Command::NamedReference(name, off) => (arrow_name(name), *off),
            _ => {
                return Err(self.fail(FaultKind::TypeMismatch, "reference required for arrow put"));
            },
        };
        match self.definitions.get(&key) {
            Some(base) => {
                let value = self.stack.pop().unwrap();
                self.store_at(base as u128 + off as u128, value, i + 2)
            },
            None => Err(self.fail(FaultKind::UnknownLabel, "no such symbol")),
        }
    }

    fn exec_get(&mut self) -> (r: Result<Action, RuntimeError>)
        requires
            old(self).idx < old(self).program@.len(),
            old(self).program@[old(self).idx as int]@ is Get,
        ensures
            stepped(old(self).machine(), *final(self), src_views(old(self).source@), r),
    {
        let ghost m = self.machine();
        let len = self.program.len();
        if self.stack.len() == 0 {
            return Err(self.fail(FaultKind::StackUnderflow, "reference required for get"));
        }
        let reference = self.stack.pop().unwrap();
        let pos = match self.target_of(&reference) {
            Some(p) => p,
            None => {
                return Err(self.fail(unresolved_kind(&reference), "reference required for get"));
            },
        };
        if pos + 1 >= len as u128 {
            return Err(self.fail(FaultKind::OutOfRange, "value required for get"));
        }
        let w = (pos + 1) as usize;
        assert(m.program[w as int] == self.program@[w as int]@);
        match loaded(&self.program[w]) {
            Some(v) => {
                self.stack.push(v);
                self.advance()
            },
            None => Err(self.fail(FaultKind::TypeMismatch, "value required for get")),
        }
    }

    fn exec_reference(&mut self, s: &String, off: usize) -> (r: Result<Action, RuntimeError>)
        requires
            old(self).idx < old(self).program@.len(),
            old(self).program@[old(self).idx as int]@ == Command::<Seq<char>>::NamedReference(s@, off),
        ensures
            stepped(old(self).machine(), *final(self), src_views(old(self).source@), r),
    {
        let ghost m = self.machine();
        let i = self.idx;
        let name = unsigil(s);
        match self.definitions.get(&name) {
            Some(base) => {
                if base as u128 + off as u128 > usize::MAX as u128 {
                    return Err(self.fail(FaultKind::OutOfRange, "reference out of range"));
                }
                let absolute = base + off;
                self.stack.push(StackSlot::NamedReference(name, off));
                self.program.set(i, Command::AbsoluteReference(absolute));
                assert(cmd_views(self.program@) =~= m.program.update(
                    i as int,
                    Command::AbsoluteReference(absolute),
                ));
                self.advance()
            },
            None => Err(self.fail(FaultKind::UnknownLabel, "no such symbol")),
        }
    }

    /// Executes the instruction at the current position. A number task,
    /// an include, or output is handed back to the host as an `Action`.
    pub fn step(&mut self) -> (r: Result<Action, RuntimeError>)
        ensures
            stepped(old(self).machine(), *final(self), src_views(old(self).source@), r),
    {
        let ghost m = self.machine();
        let i = self.idx;
        if i >= self.program.len() {
            return Ok(Action::Done);
        }
        let c = self.program[i].duplicate();
        let depth = self.stack.len();
        match c {
            Command::Define(v, skip) => self.exec_define(v, skip),
            Command::Lambda(skip) => {
                if i as u128 + skip as u128 + 1 > usize::MAX as u128 {
                    return Err(self.fail(FaultKind::OutOfRange, "block end out of range"));
                }
                self.stack.push(StackSlot::AbsoluteReference(i));
                self.idx = i + skip + 1;
                Ok(Action::Continue)
            },
            Command::Include => match self.stack.pop_string() {
                Some(f) => {
                    self.idx = i + 1;
                    Ok(Action::Include(f))
                },
                None => Err(self.fail(shortfall(depth, 1), "expected file name for include")),
            },
            Command::Pushn(v) => {
                self.stack.push(StackSlot::Number(v));
                self.advance()
            },
            Command::Pushs(s) => {
                self.stack.push(StackSlot::String(s));
                self.advance()
            },
            Command::EndDefine | Command::Return => self.exec_return(),
            Command::LoopIf => self.exec_loop_if(),
            Command::JmpIf => self.exec_jump(true),
            Command::Jmp => self.exec_jump(false),
            Command::Not => match self.stack.pop_number() {
                Some(n) => {
                    let v = if number_is_zero(n) {
                        ONE_BITS
                    } else {
                        ZERO_BITS
                    };
                    self.stack.push(StackSlot::Number(v));
                    self.advance()
                },
                None => Err(self.fail(shortfall(depth, 1), "negation is only supported for numbers")),
            },
            Command::Dup => {
                let n = self.stack.len();
                if n == 0 {
                    return Err(self.fail(FaultKind::StackUnderflow, "stack underflow while duplicating"));
                }
                let top = self.stack.peek(n - 1);
                self.stack.push(top);
                self.advance()
            },
            Command::Swap => {
                let n = self.stack.len();
                if n < 2 {
                    return Err(self.fail(FaultKind::StackUnderflow, "stack underflow while swapping"));
                }
                let top = self.stack.pop().unwrap();
                let bot = self.stack.pop().unwrap();
                assert(self.stack@ =~= m.stack.take(n - 2));
                self.stack.push(top);
                self.stack.push(bot);
                self.advance()
            },
            Command::Drop => {
                self.stack.pop();
                self.advance()
            },
            Command::Print => {
                let v = self.stack.pop();
                self.idx = i + 1;
                Ok(Action::Print(v))
            },
            Command::ArrowPut => self.exec_arrow_put(),
            Command::Put => self.exec_put(),
            Command::Get => self.exec_get(),
            Command::Pull => match self.stack.pop_number() {
                Some(n) => self.finish_compute(NumTask::Pull(n)),
                None => Err(self.fail(shortfall(depth, 1), "expected integer for pull")),
            },
            Command::NamedReference(s, off) => self.exec_reference(&s, off),
            Command::AbsoluteReference(p) => {
                self.stack.push(StackSlot::AbsoluteReference(p));
                self.advance()
            },
            Command::AddressOf => match self.stack.pop_string() {
                Some(name) => {
                    if self.definitions.get(&name).is_some() {
                        self.stack.push(StackSlot::NamedReference(name, 0));
                        self.advance()
                    } else {
                        Err(self.fail(FaultKind::UnknownLabel, "no such symbol"))
                    }
                },
                None => Err(self.fail(shortfall(depth, 1), "string required")),
            },
            Command::PrintStack => {
                self.idx = i + 1;
                Ok(Action::PrintStack)
            },
            Command::Placeholder => Err(self.fail(FaultKind::Placeholder, "encountered placeholder")),
            Command::Bytes => match self.stack.pop_string() {
                Some(s) => self.finish_compute(NumTask::Bytes(s)),
                None => Err(self.fail(shortfall(depth, 1), "needs a string to convert into number list")),
            },
            Command::Nop => self.advance(),
            _ => self.exec_binary(&c),
        }
    }
}

/// The state after loading instructions `added` at the end of the program
/// and resolving the whole program again.
pub open spec fn loaded_machine(m: Machine, added: Seq<Command<Seq<char>>>) -> Machine {
    let whole = m.program + added;
    let labels = registered(whole, m.labels, whole.len() as int);
    Machine { program: expansion(structured(whole), labels), labels, calls: seq![], ..m }
}

/// Whether the program with `added` at its end resolves.
pub open spec fn loads(m: Machine, added: Seq<Command<Seq<char>>>) -> bool {
    let whole = m.program + added;
    well_nested(whole) && labelled(whole) && fully_expanded(
        structured(whole),
        registered(whole, m.labels, whole.len() as int),
    )
}

/// Where a splice goes: the current position, or the end of the program if
/// the position is past it.
pub open spec fn splice_point(m: Machine) -> int {
    if 0 <= m.idx <= m.program.len() {
        m.idx
    } else {
        m.program.len() as int
    }
}

/// The program with `added` spliced in at the splice point.
pub open spec fn spliced_program(m: Machine, added: Seq<Command<Seq<char>>>) -> Seq<Command<Seq<char>>> {
    m.program.take(splice_point(m)) + added + m.program.skip(splice_point(m))
}

/// The state after splicing instructions `added` in at the current position
/// and resolving the whole program again.
pub open spec fn spliced_machine(m: Machine, added: Seq<Command<Seq<char>>>) -> Machine {
    let whole = spliced_program(m, added);
    let labels = registered(whole, m.labels, whole.len() as int);
    Machine { program: expansion(structured(whole), labels), labels, ..m }
}

/// The source references with `added` spliced in at the splice point (or at
/// their end, if they are shorter).
pub open spec fn spliced_source(
    m: Machine,
    src: Seq<SourceReference<Seq<char>>>,
    added: Seq<SourceReference<Seq<char>>>,
) -> Seq<SourceReference<Seq<char>>> {
    let at = if splice_point(m) <= src.len() {
        splice_point(m)
    } else {
        src.len() as int
    };
    src.take(at) + added + src.skip(at)
}

/// Whether the program with `added` spliced in at the current position
/// resolves.
pub open spec fn splices(m: Machine, added: Seq<Command<Seq<char>>>) -> bool {
    let whole = spliced_program(m, added);
    well_nested(whole) && labelled(whole) && fully_expanded(
        structured(whole),
        registered(whole, m.labels, whole.len() as int),
    )
}

fn append_commands(a: &Vec<Command>, b: &Vec<Command>) -> (r: Vec<Command>)
    ensures
        cmd_views(r@) == cmd_views(a@) + cmd_views(b@),
{
    let mut out: Vec<Command> = Vec::new();
    let mut k: usize = 0;
    while k < a.len()
        invariant
            k <= a@.len(),
            cmd_views(out@) == cmd_views(a@).take(k as int),
        decreases a@.len() - k,
    {
        let ghost prev = cmd_views(out@);
        out.push(a[k].duplicate());
        assert(cmd_views(out@) =~= prev.push(a@[k as int]@));
        k += 1;
        assert(cmd_views(out@) =~= cmd_views(a@).take(k as int));
    }
    let mut q: usize = 0;
    while q < b.len()
        invariant
            k == a@.len(),
            q <= b@.len(),
            cmd_views(out@) == cmd_views(a@) + cmd_views(b@).take(q as int),
        decreases b@.len() - q,
    {
        let ghost prev = cmd_views(out@);
        out.push(b[q].duplicate());
        assert(cmd_views(out@) =~= prev.push(b@[q as int]@));
        q += 1;
        assert(cmd_views(out@) =~= cmd_views(a@) + cmd_views(b@).take(q as int));
    }
    assert(cmd_views(b@).take(q as int) =~= cmd_views(b@));
    assert(cmd_views(a@).take(k as int) =~= cmd_views(a@));
    out
}

fn splice_commands(a: &Vec<Command>, at: usize, b: &Vec<Command>) -> (r: Vec<Command>)
    requires
        at <= a@.len(),
    ensures
        cmd_views(r@) == cmd_views(a@).take(at as int) + cmd_views(b@) + cmd_views(a@).skip(at as int),
{
    let mut head: Vec<Command> = Vec::new();
    let mut tail: Vec<Command> = Vec::new();
    let mut k: usize = 0;
    while k < a.len()
        invariant
            k <= a@.len(),
            at <= a@.len(),
            k <= at ==> cmd_views(head@) == cmd_views(a@).take(k as int) && tail@.len() == 0,
            k > at ==> cmd_views(head@) == cmd_views(a@).take(at as int) && cmd_views(tail@)
                == cmd_views(a@).subrange(at as int, k as int),
        decreases a@.len() - k,
    {
        if k < at {
            let ghost prev = cmd_views(head@);
            head.push(a[k].duplicate());
            assert(cmd_views(head@) =~= prev.push(a@[k as int]@));
            assert(cmd_views(head@) =~= cmd_views(a@).take(k + 1));
        } else {
            let ghost prev = cmd_views(tail@);
            tail.push(a[k].duplicate());
            assert(cmd_views(tail@) =~= prev.push(a@[k as int]@));
            assert(cmd_views(tail@) =~= cmd_views(a@).subrange(at as int, k + 1));
        }
        k += 1;
    }
    if at == a.len() {
        assert(cmd_views(head@) =~= cmd_views(a@).take(at as int));
        assert(cmd_views(tail@) =~= cmd_views(a@).skip(at as int));
    } else {
        assert(cmd_views(tail@) =~= cmd_views(a@).skip(at as int));
    }
    let front = append_commands(&head, b);
    append_commands(&front, &tail)
}

fn splice_sources(a: &Vec<SourceReference>, at: usize, b: &Vec<SourceReference>) -> (r: Vec<SourceReference>)
    requires
        at <= a@.len(),
    ensures
        src_views(r@) == src_views(a@).take(at as int) + src_views(b@) + src_views(a@).skip(at as int),
{
    let mut out: Vec<SourceReference> = Vec::new();
    let mut k: usize = 0;
    while k < at
        invariant
            k <= at <= a@.len(),
            src_views(out@) == src_views(a@).take(k as int),
        decreases at - k,
    {
        let ghost prev = src_views(out@);
        out.push(a[k].duplicate());
        assert(src_views(out@) =~= prev.push(a@[k as int]@));
        k += 1;
        assert(src_views(out@) =~= src_views(a@).take(k as int));
    }
    let mut q: usize = 0;
    while q < b.len()
        invariant
            k == at,
            at <= a@.len(),
            q <= b@.len(),
            src_views(out@) == src_views(a@).take(at as int) + src_views(b@).take(q as int),
        decreases b@.len() - q,
    {
        let ghost prev = src_views(out@);
        out.push(b[q].duplicate());
        assert(src_views(out@) =~= prev.push(b@[q as int]@));
        q += 1;
        assert(src_views(out@) =~= src_views(a@).take(at as int) + src_views(b@).take(q as int));
    }
    assert(src_views(b@).take(q as int) =~= src_views(b@));
    let mut j: usize = at;
    while j < a.len()
        invariant
            at <= j <= a@.len(),
            src_views(out@) == src_views(a@).take(at as int) + src_views(b@) + src_views(a@).subrange(at as int, j as int),
        decreases a@.len() - j,
    {
        let ghost prev = src_views(out@);
        out.push(a[j].duplicate());
        assert(src_views(out@) =~= prev.push(a@[j as int]@));
        j += 1;
        assert(src_views(out@) =~= src_views(a@).take(at as int) + src_views(b@) + src_views(a@).subrange(at as int, j as int));
    }
    assert(src_views(a@).subrange(at as int, j as int) =~= src_views(a@).skip(at as int));
    out
}

impl Environment {
    /// Finishes an instruction that waited for the host: `task` is what
    /// `step` handed out, `reply` the host's answer.
    pub fn resume(&mut self, task: NumTask, reply: NumReply) -> (r: Result<(), RuntimeError>)
        ensures
            final(self).source == old(self).source,
            match (resume_spec(old(self).machine(), task@, reply@), r) {
                (Some(m2), Ok(())) => final(self).machine() == m2,
                (None, Err(e)) => final(self).machine() == old(self).machine() && faulted_at(
                    old(self).machine(),
                    src_views(old(self).source@),
                    e,
                ) && e.kind == resume_fault(task@, reply@),
                _ => false,
            },
    {
        let ghost m = self.machine();
        match (task, reply) {
            (NumTask::Arith(_, _, _), NumReply::Number(b)) | (NumTask::Distance(_), NumReply::Number(b)) => {
                self.stack.push(StackSlot::Number(b));
                Ok(())
            },
            (NumTask::Prepend(_, s), NumReply::Char(c)) => {
                let mut text: Vec<char> = Vec::new();
                text.push(c);
                let mut rest = crate::text::chars_of(s.as_str());
                text.append(&mut rest);
                assert(text@ =~= seq![c] + s@);
                self.stack.push(StackSlot::String(string_of(&text)));
                Ok(())
            },
            (NumTask::Append(s, _), NumReply::Char(c)) => {
                let mut text = crate::text::chars_of(s.as_str());
                text.push(c);
                self.stack.push(StackSlot::String(string_of(&text)));
                Ok(())
            },
            (NumTask::OffsetNamed(name, off, _), NumReply::Index(k)) => {
                if off as u128 + k as u128 > usize::MAX as u128 {
                    return Err(self.fail(FaultKind::OutOfRange, "reference offset out of range"));
                }
                self.stack.push(StackSlot::NamedReference(name, off + k));
                Ok(())
            },
            (NumTask::OffsetAbsolute(p, _), NumReply::Index(k)) => {
                if p as u128 + k as u128 > usize::MAX as u128 {
                    return Err(self.fail(FaultKind::OutOfRange, "reference offset out of range"));
                }
                self.stack.push(StackSlot::AbsoluteReference(p + k));
                Ok(())
            },
            (NumTask::Pull(_), NumReply::Whole(Some((negative, mag)))) => {
                let n = self.stack.len();
                let at: usize = if negative {
                    if mag as u128 > n as u128 {
                        return Err(self.fail(FaultKind::OutOfRange, "pull index out of range"));
                    }
                    n - mag as usize
                } else {
                    if mag as u128 >= n as u128 {
                        return Err(self.fail(FaultKind::OutOfRange, "pull index out of range"));
                    }
                    mag as usize
                };
                if at >= n {
                    return Err(self.fail(FaultKind::OutOfRange, "pull index out of range"));
                }
                let v = self.stack.peek(at);
                self.stack.push(v);
                Ok(())
            },
            (NumTask::Bytes(_), NumReply::Numbers(v)) => {
                let ghost start = self.stack@;
                let mut k: usize = 0;
                while k < v.len()
                    invariant
                        k <= v@.len(),
                        self.machine() == with_stack(m, start + v@.take(k as int).map_values(
                            |b: u64| StackSlot::<Seq<char>>::Number(b),
                        )),
                        start == m.stack,
                        self.source == old(self).source,
                    decreases v@.len() - k,
                {
                    self.stack.push(StackSlot::Number(v[k]));
                    k += 1;
                    assert(start + v@.take(k as int).map_values(|b: u64| StackSlot::<Seq<char>>::Number(b))
                        =~= (start + v@.take(k - 1).map_values(|b: u64| StackSlot::<Seq<char>>::Number(b))).push(
                        StackSlot::Number(v@[k - 1]),
                    ));
                }
                assert(v@.take(k as int) =~= v@);
                Ok(())
            },
            (NumTask::Pull(_), NumReply::Whole(None)) => Err(self.fail(FaultKind::TypeMismatch, "expected integer for pull")),
            _ => Err(self.fail(FaultKind::BadReply, "the host's answer does not fit the task")),
        }
    }

    /// Appends a lexed program and resolves the whole program again; the
    /// position stays where the last run stopped, so the new code runs next.
    /// On a structural error the new code stays appended, unresolved, and
    /// nothing else changes.
    pub fn load(&mut self, lexed: Lexed) -> (r: Result<(), ResolveError>)
        ensures
            match r {
                Ok(()) => loads(old(self).machine(), cmd_views(lexed.program@)) && final(self).machine()
                    == loaded_machine(old(self).machine(), cmd_views(lexed.program@)) && src_views(
                    final(self).source@,
                ) == src_views(old(self).source@) + src_views(lexed.source@),
                Err(_) => !loads(old(self).machine(), cmd_views(lexed.program@)) && final(self).machine()
                    == (Machine {
                    program: old(self).machine().program + cmd_views(lexed.program@),
                    ..old(self).machine()
                }) && src_views(final(self).source@) == src_views(old(self).source@) + src_views(
                    lexed.source@,
                ),
            },
    {
        let whole = append_commands(&self.program, &lexed.program);
        let resolved = resolve(&whole, &self.definitions);
        let mut source = lexed.source;
        let ghost before = src_views(self.source@);
        let ghost added = src_views(source@);
        self.source.append(&mut source);
        assert(src_views(self.source@) =~= before + added);
        let (program, labels) = match resolved {
            Ok(r) => r,
            Err(e) => {
                self.program = whole;
                return Err(e);
            },
        };
        self.program = program;
        self.definitions = labels;
        self.calls = Vec::new();
        assert(self.calls@ =~= Seq::<(usize, usize)>::empty());
        Ok(())
    }

    /// Splices a lexed file in at the current position, so that it runs
    /// next, and resolves the whole program again. On a structural error
    /// nothing changes.
    pub fn splice(&mut self, lexed: Lexed) -> (r: Result<(), ResolveError>)
        ensures
            match r {
                Ok(()) => splices(old(self).machine(), cmd_views(lexed.program@)) && final(self).machine()
                    == spliced_machine(old(self).machine(), cmd_views(lexed.program@)) && src_views(
                    final(self).source@,
                ) == spliced_source(
                    old(self).machine(),
                    src_views(old(self).source@),
                    src_views(lexed.source@),
                ),
                Err(_) => !splices(old(self).machine(), cmd_views(lexed.program@)) && final(self).machine()
                    == old(self).machine() && final(self).source@ == old(self).source@,
            },
    {
        let at = if self.idx <= self.program.len() {
            self.idx
        } else {
            self.program.len()
        };
        let whole = splice_commands(&self.program, at, &lexed.program);
        let (program, labels) = resolve(&whole, &self.definitions)?;
        let source = if at <= self.source.len() {
            splice_sources(&self.source, at, &lexed.source)
        } else {
            splice_sources(&self.source, self.source.len(), &lexed.source)
        };
        self.source = source;
        self.program = program;
        self.definitions = labels;
        Ok(())
    }

    /// Moves past the end of the program, as after a run.
    pub fn finish(&mut self)
        ensures
            final(self).machine() == (Machine { idx: old(self).program@.len() as int, ..old(self).machine() }),
            final(self).source == old(self).source,
    {
        self.idx = self.program.len();
    }
}

} // verus!
