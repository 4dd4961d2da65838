use vstd::prelude::*;
use crate::engine::{slot_target, step_spec, unsigiled, Action, Machine, Outcome};
use crate::resolver::{
    expansion,
    lemma_skip_reaches_matching_end,
    matching_end,
    opens,
    skip_of,
    structured,
};
use crate::value::{lemma_stored_value_reads_back, stored_form, Command, StackSlot, Visibility};

verus! {

/// A definition binds its label to its own position whatever the label was
/// bound to before; a later jump through a named reference to that label,
/// with nothing redefined in between, continues just after that definition.
pub proof fn lemma_last_definition_wins(m: Machine, name: Seq<char>, later: Machine)
    requires
        1 <= m.idx < m.program.len(),
        m.program[m.idx] is Define,
        m.program[m.idx]->Define_0 == Visibility::Public,
        m.program[m.idx - 1] == Command::<Seq<char>>::Pushs(name),
        step_spec(m) is Next,
        later.labels.contains_key(name),
        later.labels[name] == (step_spec(m)->Next_0).labels[name],
        0 <= later.idx < later.program.len(),
        later.program[later.idx] is Jmp,
        later.stack.len() > 0,
        later.stack.last() == StackSlot::<Seq<char>>::NamedReference(name, 0),
        m.idx + 1 <= usize::MAX,
    ensures
        (step_spec(m)->Next_0).labels[name] == m.idx,
        step_spec(later) matches Outcome::Next(after, _) && after.idx == m.idx + 1
            && after.calls.last() == (later.idx as usize, m.idx as usize),
{
}

/// Running a named reference caches its target: the instruction becomes an
/// absolute reference to the same position, and running it again gives that
/// position whatever the label table holds by then.
pub proof fn lemma_reference_cached(m: Machine, again: Machine)
    requires
        0 <= m.idx < m.program.len(),
        m.program[m.idx] is NamedReference,
        step_spec(m) is Next,
        again.program == (step_spec(m)->Next_0).program,
        again.idx == m.idx,
    ensures
        ({
            let s = m.program[m.idx]->NamedReference_0;
            let off = m.program[m.idx]->NamedReference_1;
            let target = slot_target(m.labels, StackSlot::NamedReference(unsigiled(s), off));
            &&& target is Some
            &&& again.program[again.idx] == Command::<Seq<char>>::AbsoluteReference(target->0 as usize)
            &&& step_spec(again) matches Outcome::Next(after, Action::Continue) && after.stack
                == again.stack.push(StackSlot::AbsoluteReference(target->0 as usize))
                && after.program == again.program
        }),
{
}

/// A value written by `put` through a reference is read back unchanged by a
/// `get` through the same reference, for numbers, texts and references alike.
pub proof fn lemma_put_then_get(m: Machine, v: StackSlot<Seq<char>>, r: StackSlot<Seq<char>>, later: Machine)
    requires
        0 <= m.idx < m.program.len(),
        m.program[m.idx] is Put,
        m.stack.len() >= 2,
        m.stack.last() == r,
        m.stack[m.stack.len() - 2] == v,
        step_spec(m) is Next,
        later.program == (step_spec(m)->Next_0).program,
        later.labels == m.labels,
        0 <= later.idx < later.program.len(),
        later.program[later.idx] is Get,
        later.stack.len() > 0,
        later.stack.last() == r,
    ensures
        step_spec(later) matches Outcome::Next(after, Action::Continue) && after.stack
            == later.stack.drop_last().push(v),
{
    let pos = slot_target(m.labels, r)->0;
    assert(later.program[pos + 1] == stored_form(v));
    lemma_stored_value_reads_back(v);
}

/// Running a block opener of a resolved program goes straight past its
/// matching end: no instruction of the block runs. (A private definition
/// takes its label from the stack, so it needs a text there.)
pub proof fn lemma_block_skipped(
    source: Seq<Command<Seq<char>>>,
    labels: Map<Seq<char>, usize>,
    m: Machine,
    s: int,
    j: int,
)
    requires
        source.len() <= usize::MAX,
        m.program == expansion(structured(source), labels),
        matching_end(source, s, j),
        m.idx == s,
        m.program[s] is Define && m.program[s]->Define_0 == Visibility::Private ==> m.stack.len()
            > 0 && m.stack.last() is String,
    ensures
        step_spec(m) matches Outcome::Next(after, Action::Continue) && after.idx == j + 1,
{
    lemma_skip_reaches_matching_end(source, s, j);
    let c = structured(source)[s];
    assert(m.program[s] == c);
    assert(opens(c) && skip_of(c) == j - s);
}

} // verus!
