use vstd::prelude::*;

verus! {

/// Whether a definition's label comes from the text literal before it
/// (public) or from a text value popped at run time (private).
#[derive(Clone, Copy, Debug, PartialEq, Eq, Structural)]
pub enum Visibility {
    Public,
    Private,
}

/// What a source position shows in diagnostics: the token that produced an
/// instruction, or nothing for instructions synthesised by the lexer.
#[derive(Clone, Debug)]
pub enum SourceReference<S = String> {
    Visible(S),
    Invisible,
}

impl View for SourceReference {
    type V = SourceReference<Seq<char>>;

    open spec fn view(&self) -> SourceReference<Seq<char>> {
        match self {
            SourceReference::Visible(s) => SourceReference::Visible(s@),
            SourceReference::Invisible => SourceReference::Invisible,
        }
    }
}

impl SourceReference {
    pub fn duplicate(&self) -> (r: SourceReference)
        ensures
            r@ == self@,
    {
        match self {
            SourceReference::Visible(s) => SourceReference::Visible(s.clone()),
            SourceReference::Invisible => SourceReference::Invisible,
        }
    }
}

/// One instruction of the program tape.
///
/// Numbers are IEEE-754 binary64 values, held by their bit pattern.
/// A `NamedReference` keeps the reference sigil `@` in front of its name.
#[derive(Clone, Debug)]
pub enum Command<S = String> {
    Pushn(u64),
    Pushs(S),
    Define(Visibility, usize),
    EndDefine,
    Jmp,
    JmpIf,
    LoopIf,
    Add,
    Sub,
    Mul,
    Div,
    Mod,
    GT,
    GE,
    LT,
    LE,
    EQ,
    NE,
    NamedReference(S, usize),
    AbsoluteReference(usize),
    Print,
    Not,
    Dup,
    Swap,
    Drop,
    Put,
    Get,
    ArrowPut,
    AddressOf,
    Lambda(usize),
    Return,
    Pull,
    Nop,
    Include,
    PrintStack,
    Bytes,
    Placeholder,
}

impl View for Command {
    type V = Command<Seq<char>>;

    open spec fn view(&self) -> Command<Seq<char>> {
        match self {
            Command::Pushs(s) => Command::Pushs(s@),
            Command::NamedReference(s, o) => Command::NamedReference(s@, *o),
            Command::Pushn(n) => Command::Pushn(*n),
            Command::Define(v, k) => Command::Define(*v, *k),
            Command::EndDefine => Command::EndDefine,
            Command::Jmp => Command::Jmp,
            Command::JmpIf => Command::JmpIf,
            Command::LoopIf => Command::LoopIf,
            Command::Add => Command::Add,
            Command::Sub => Command::Sub,
            Command::Mul => Command::Mul,
            Command::Div => Command::Div,
            Command::Mod => Command::Mod,
            Command::GT => Command::GT,
            Command::GE => Command::GE,
            Command::LT => Command::LT,
            Command::LE => Command::LE,
            Command::EQ => Command::EQ,
            Command::NE => Command::NE,
            Command::AbsoluteReference(p) => Command::AbsoluteReference(*p),
            Command::Print => Command::Print,
            Command::Not => Command::Not,
            Command::Dup => Command::Dup,
            Command::Swap => Command::Swap,
            Command::Drop => Command::Drop,
            Command::Put => Command::Put,
            Command::Get => Command::Get,
            Command::ArrowPut => Command::ArrowPut,
            Command::AddressOf => Command::AddressOf,
            Command::Lambda(k) => Command::Lambda(*k),
            Command::Return => Command::Return,
            Command::Pull => Command::Pull,
            Command::Nop => Command::Nop,
            Command::Include => Command::Include,
            Command::PrintStack => Command::PrintStack,
            Command::Bytes => Command::Bytes,
            Command::Placeholder => Command::Placeholder,
        }
    }
}

impl Command {
    pub fn duplicate(&self) -> (r: Command)
        ensures
            r@ == self@,
    {
        match self {
            Command::Pushs(s) => Command::Pushs(s.clone()),
            Command::NamedReference(s, o) => Command::NamedReference(s.clone(), *o),
            Command::Pushn(n) => Command::Pushn(*n),
            Command::Define(v, k) => Command::Define(*v, *k),
            Command::EndDefine => Command::EndDefine,
            Command::Jmp => Command::Jmp,
            Command::JmpIf => Command::JmpIf,
            Command::LoopIf => Command::LoopIf,
            Command::Add => Command::Add,
            Command::Sub => Command::Sub,
            Command::Mul => Command::Mul,
            Command::Div => Command::Div,
            Command::Mod => Command::Mod,
            Command::GT => Command::GT,
            Command::GE => Command::GE,
            Command::LT => Command::LT,
            Command::LE => Command::LE,
            Command::EQ => Command::EQ,
            Command::NE => Command::NE,
            Command::AbsoluteReference(p) => Command::AbsoluteReference(*p),
            Command::Print => Command::Print,
            Command::Not => Command::Not,
            Command::Dup => Command::Dup,
            Command::Swap => Command::Swap,
            Command::Drop => Command::Drop,
            Command::Put => Command::Put,
            Command::Get => Command::Get,
            Command::ArrowPut => Command::ArrowPut,
            Command::AddressOf => Command::AddressOf,
            Command::Lambda(k) => Command::Lambda(*k),
            Command::Return => Command::Return,
            Command::Pull => Command::Pull,
            Command::Nop => Command::Nop,
            Command::Include => Command::Include,
            Command::PrintStack => Command::PrintStack,
            Command::Bytes => Command::Bytes,
            Command::Placeholder => Command::Placeholder,
        }
    }
}

/// A value on the run-time stack.
#[derive(Clone, Debug)]
pub enum StackSlot<S = String> {
    Number(u64),
    String(S),
    NamedReference(S, usize),
    AbsoluteReference(usize),
}

impl View for StackSlot {
    type V = StackSlot<Seq<char>>;

    open spec fn view(&self) -> StackSlot<Seq<char>> {
        match self {
            StackSlot::Number(n) => StackSlot::Number(*n),
            StackSlot::String(s) => StackSlot::String(s@),
            StackSlot::NamedReference(s, o) => StackSlot::NamedReference(s@, *o),
            StackSlot::AbsoluteReference(p) => StackSlot::AbsoluteReference(*p),
        }
    }
}

impl StackSlot {
    pub fn duplicate(&self) -> (r: StackSlot)
        ensures
            r@ == self@,
    {
        match self {
            StackSlot::Number(n) => StackSlot::Number(*n),
            StackSlot::String(s) => StackSlot::String(s.clone()),
            StackSlot::NamedReference(s, o) => StackSlot::NamedReference(s.clone(), *o),
            StackSlot::AbsoluteReference(p) => StackSlot::AbsoluteReference(*p),
        }
    }
}

/// The bit pattern of the number 1.0, pushed for "true".
pub const ONE_BITS: u64 = 0x3FF0_0000_0000_0000;

/// The bit pattern of the number 0.0, pushed for "false".
pub const ZERO_BITS: u64 = 0;

/// The bit pattern of -0.0.
pub const NEG_ZERO_BITS: u64 = 0x8000_0000_0000_0000;

/// A binary64 value compares equal to zero exactly when it is +0.0 or -0.0.
pub open spec fn is_zero_number(bits: u64) -> bool {
    bits == ZERO_BITS || bits == NEG_ZERO_BITS
}

pub fn number_is_zero(bits: u64) -> (r: bool)
    ensures
        r == is_zero_number(bits),
{
    bits == ZERO_BITS || bits == NEG_ZERO_BITS
}

/// The number standing for a truth value.
pub open spec fn truth_bits(b: bool) -> u64 {
    if b {
        ONE_BITS
    } else {
        ZERO_BITS
    }
}

/// The sigil that opens a reference token.
pub open spec fn sigil() -> char {
    '@'
}

/// The instruction that `put` writes for a stored value: a reference is kept
/// as a named reference with its sigil.
pub open spec fn stored_form(v: StackSlot<Seq<char>>) -> Command<Seq<char>> {
    match v {
        StackSlot::Number(n) => Command::Pushn(n),
        StackSlot::String(s) => Command::Pushs(s),
        StackSlot::NamedReference(r, o) => Command::NamedReference(seq![sigil()] + r, o),
        StackSlot::AbsoluteReference(p) => Command::AbsoluteReference(p),
    }
}

/// The value that `get` reads from an instruction, if it holds one.
pub open spec fn loaded_form(c: Command<Seq<char>>) -> Option<StackSlot<Seq<char>>> {
    match c {
        Command::Pushn(n) => Some(StackSlot::Number(n)),
        Command::Pushs(s) => Some(StackSlot::String(s)),
        Command::NamedReference(s, o) => Some(
            StackSlot::NamedReference(if s.len() > 0 { s.drop_first() } else { s }, o),
        ),
        Command::AbsoluteReference(p) => Some(StackSlot::AbsoluteReference(p)),
        _ => None,
    }
}

/// Reading back what was stored gives the stored value, whatever its kind.
pub proof fn lemma_stored_value_reads_back(v: StackSlot<Seq<char>>)
    ensures
        loaded_form(stored_form(v)) == Some(v),
{
    if let StackSlot::NamedReference(r, o) = v {
        assert((seq![sigil()] + r).drop_first() =~= r);
    }
}

} // verus!
