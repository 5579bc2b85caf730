//! What holds of the walk as a whole: when it fails, that reports are only
//! ever added, and how little an instruction can change of a binding.

use vstd::prelude::*;
use crate::binding::{Binding, Location, Name};
use crate::checker::{outcome, run, CheckerView, Use};
use crate::diagnostics::Violation;
use crate::ir::{Init, Instr, MalformedInput, Operand};
use crate::table::{lemma_resolve_in, lemma_scope_start_in};
use crate::release_laws::lemma_run_keeps_invariant;
use crate::value::kind_of;

verus! {

/// How many blocks are open before the instruction at `index`: the number
/// of `BlockEnter` among the instructions before it, less the number of
/// `BlockExit`.
pub open spec fn depth_before(program: Seq<Instr>, index: int) -> int
    decreases index,
{
    if index <= 0 {
        0
    } else {
        depth_before(program, index - 1) + match program[index - 1] {
            Instr::BlockEnter { .. } => 1int,
            Instr::BlockExit { .. } => -1int,
            _ => 0int,
        }
    }
}

/// Whether the instruction at `index` ends a block where none is open.
pub open spec fn unmatched(program: Seq<Instr>, index: int) -> bool {
    &&& 0 <= index < program.len()
    &&& program[index] is BlockExit
    &&& depth_before(program, index) <= 0
}

/// Whether `earlier` is the beginning of `later`.
pub open spec fn begins(earlier: Seq<Violation>, later: Seq<Violation>) -> bool {
    earlier.len() <= later.len() && later.subrange(0, earlier.len() as int) == earlier
}

/// Whether `after` is `before` with, at most, another state.
pub open spec fn same_but_state(before: Binding, after: Binding) -> bool {
    after == Binding { state: after.state, ..before }
}

/// Whether the bindings that `before` and `after` have in common differ in
/// their state at most, and, if nothing was reported in between, every
/// binding that had lost its value is as it was.
pub open spec fn keeps_bindings(before: CheckerView, after: CheckerView) -> bool {
    forall|i: int|
        0 <= i < before.table.bindings.len() && i < after.table.bindings.len() ==> {
            &&& same_but_state(before.table.bindings[i], #[trigger] after.table.bindings[i])
            &&& !(after.table.bindings[i].state is Dropped)
                || before.table.bindings[i].state is Dropped
            &&& (after.violations == before.violations && before.table.bindings[i].state is Moved
                ==> after.table.bindings[i] == before.table.bindings[i])
        }
}

/// A use of a name reports at most one violation, after those already
/// reported, and changes of the bindings at most the state of one.
pub proof fn lemma_use_keeps_bindings(
    state: CheckerView,
    name: Name,
    mode: Use,
    at: Location,
    operand: usize,
)
    ensures
        begins(state.violations, state.use_name(name, mode, at, operand).violations),
        keeps_bindings(state, state.use_name(name, mode, at, operand)),
        state.use_name(name, mode, at, operand).table.bindings.len() == state.table.bindings.len(),
        state.use_name(name, mode, at, operand).table.depth == state.table.depth,
{
    lemma_resolve_in(state.table.bindings, name);
    let after = state.use_name(name, mode, at, operand);
    assert(after.violations.subrange(0, state.violations.len() as int) == state.violations);
}

/// Passing arguments reports its violations after those already reported,
/// and changes of the bindings at most their states.
pub proof fn lemma_pass_keeps_bindings(
    state: CheckerView,
    args: Seq<Operand>,
    at: Location,
    count: nat,
)
    ensures
        begins(state.violations, state.pass(args, at, count).violations),
        keeps_bindings(state, state.pass(args, at, count)),
        state.pass(args, at, count).table.bindings.len() == state.table.bindings.len(),
        state.pass(args, at, count).table.depth == state.table.depth,
    decreases count,
{
    if count == 0 {
        assert(state.violations.subrange(0, state.violations.len() as int) == state.violations);
    } else {
        let index = (count - 1) as nat;
        let middle = state.pass(args, at, index);
        let after = state.pass(args, at, count);
        lemma_pass_keeps_bindings(state, args, at, index);
        lemma_use_keeps_bindings(
            middle,
            args[index as int].name,
            Use::Take(args[index as int].expects),
            at,
            index as usize,
        );
        lemma_begins_chain(state.violations, middle.violations, after.violations);
        assert forall|i: int|
            0 <= i < state.table.bindings.len() && i < after.table.bindings.len() implies {
            &&& same_but_state(state.table.bindings[i], #[trigger] after.table.bindings[i])
            &&& !(after.table.bindings[i].state is Dropped)
                || state.table.bindings[i].state is Dropped
            &&& (after.violations == state.violations && state.table.bindings[i].state is Moved
                ==> after.table.bindings[i] == state.table.bindings[i])
        } by {
            let b = middle.table.bindings[i];
            assert(same_but_state(state.table.bindings[i], b));
            if after.violations == state.violations {
                lemma_begins_squeeze(state.violations, middle.violations, after.violations);
            }
        }
    }
}

/// The beginning of a beginning is a beginning.
pub proof fn lemma_begins_chain(first: Seq<Violation>, second: Seq<Violation>, third: Seq<Violation>)
    requires
        begins(first, second),
        begins(second, third),
    ensures
        begins(first, third),
{
    assert(third.subrange(0, first.len() as int) == second.subrange(0, first.len() as int));
}

/// What lies between two equal lists, beginning with the one and beginning
/// the other, is equal to both.
pub proof fn lemma_begins_squeeze(first: Seq<Violation>, second: Seq<Violation>, third: Seq<Violation>)
    requires
        begins(first, second),
        begins(second, third),
        first == third,
    ensures
        second == first,
{
    assert(second.subrange(0, first.len() as int) == second);
}

/// Reports are only ever added, and a binding is frozen but for its state.
///
/// Whatever an instruction does, the violations reported before it stay
/// where they are, in their order, and new ones come after them. A binding
/// that stays in the table keeps its name, its kind and the place of its
/// declaration, and is never dropped there. A binding that has lost its
/// value stays so, with the same cause, unless the instruction reports a
/// violation: only the recovery from a reported use makes it live again.
pub proof fn law_step_keeps_bindings(state: CheckerView, instr: Instr)
    requires
        state.table.wf(),
    ensures
        state.step(instr) matches Ok(next) ==> begins(state.violations, next.violations)
            && keeps_bindings(state, next),
{
    assert(state.violations.subrange(0, state.violations.len() as int) == state.violations);
    match instr {
        Instr::Declare { name, ty, init, at } => {
            let kind = kind_of(ty);
            lemma_use_keeps_bindings(state, init->Ident_0, Use::Take(kind), at, 0);
            lemma_use_keeps_bindings(state, init->CloneOf_0, Use::Inspect, at, 0);
            let used = match init {
                Init::Value => state,
                Init::Ident(source) => state.use_name(source, Use::Take(kind), at, 0),
                Init::CloneOf(source) => state.use_name(source, Use::Inspect, at, 0),
            };
            let next = used.declare(name, kind, at);
            assert(next.violations.subrange(0, used.violations.len() as int) == used.violations);
            lemma_begins_chain(state.violations, used.violations, next.violations);
            assert forall|i: int|
                0 <= i < state.table.bindings.len() implies #[trigger] next.table.bindings[i]
                == used.table.bindings[i] by {}
            if next.violations == state.violations {
                lemma_begins_squeeze(state.violations, used.violations, next.violations);
            }
        },
        Instr::Read { name, at } => {
            lemma_use_keeps_bindings(state, name, Use::Inspect, at, 0);
        },
        Instr::Call { callee, args, at } => {
            lemma_pass_keeps_bindings(state, args@, at, args@.len());
        },
        Instr::Return { value, at } => {
            lemma_use_keeps_bindings(state, value.name, Use::Take(value.expects), at, 0);
        },
        Instr::BlockEnter { at } => {},
        Instr::BlockExit { at } => {
            lemma_scope_start_in(state.table.bindings, state.table.depth);
        },
    }
}

/// An instruction changes the depth as its kind says: a `BlockEnter` adds
/// one, a matched `BlockExit` takes one away, and any other leaves it.
pub proof fn lemma_step_depth(state: CheckerView, instr: Instr)
    ensures
        match state.step(instr) {
            Ok(next) => next.table.depth == state.table.depth + match instr {
                Instr::BlockEnter { .. } => 1int,
                Instr::BlockExit { .. } => -1int,
                _ => 0int,
            },
            Err(error) => instr is BlockExit && state.table.depth == 0 && error
                == (MalformedInput::UnmatchedBlockExit { at: instr.location() }),
        },
{
    match instr {
        Instr::Declare { name, ty, init, at } => {
            let kind = kind_of(ty);
            lemma_use_keeps_bindings(state, init->Ident_0, Use::Take(kind), at, 0);
            lemma_use_keeps_bindings(state, init->CloneOf_0, Use::Inspect, at, 0);
        },
        Instr::Read { name, at } => {
            lemma_use_keeps_bindings(state, name, Use::Inspect, at, 0);
        },
        Instr::Call { callee, args, at } => {
            lemma_pass_keeps_bindings(state, args@, at, args@.len());
        },
        Instr::Return { value, at } => {
            lemma_use_keeps_bindings(state, value.name, Use::Take(value.expects), at, 0);
        },
        Instr::BlockEnter { at } => {},
        Instr::BlockExit { at } => {},
    }
}

/// How far a walk gets: it is in a state after `count` instructions exactly
/// when none of them is an unmatched `BlockExit`, and then the depth of its
/// table is the number of blocks that are open; otherwise its error is the
/// first unmatched `BlockExit`.
pub proof fn lemma_run_nesting(program: Seq<Instr>, count: nat)
    requires
        count <= program.len(),
    ensures
        match run(CheckerView::initial(), program, count) {
            Ok(state) => state.table.depth == depth_before(program, count as int) && forall|i: int|
                0 <= i < count ==> !unmatched(program, i),
            Err(error) => exists|i: int|
                0 <= i < count && #[trigger] unmatched(program, i) && error
                    == (MalformedInput::UnmatchedBlockExit { at: program[i].location() })
                    && forall|j: int| 0 <= j < i ==> !unmatched(program, j),
        },
    decreases count,
{
    if count > 0 {
        let before = (count - 1) as nat;
        lemma_run_nesting(program, before);
        match run(CheckerView::initial(), program, before) {
            Ok(state) => {
                lemma_step_depth(state, program[before as int]);
                if state.step(program[before as int]) is Err {
                    assert(unmatched(program, before as int));
                }
            },
            Err(error) => {},
        }
    }
}

/// Failure is about nesting, and about nothing else.
///
/// The analysis of a program ends in a report exactly when its blocks nest:
/// no `BlockExit` comes where no block is open, and no block is open at the
/// end. Otherwise it fails with the first `BlockExit` that has no block to
/// end, or, if there is none, with the number of blocks left open.
pub proof fn law_failure_is_about_nesting(program: Seq<Instr>)
    requires
        program.len() <= usize::MAX,
    ensures
        match outcome(program) {
            Ok(_) => depth_before(program, program.len() as int) == 0 && forall|i: int|
                !unmatched(program, i),
            Err(MalformedInput::UnmatchedBlockExit { at }) => exists|i: int|
                #[trigger] unmatched(program, i) && at == program[i].location() && forall|j: int|
                    0 <= j < i ==> !unmatched(program, j),
            Err(MalformedInput::UnclosedBlock { depth }) => depth == depth_before(
                program,
                program.len() as int,
            ) && depth > 0 && forall|i: int| !unmatched(program, i),
        },
{
    lemma_run_nesting(program, program.len());
    lemma_run_keeps_invariant(program, program.len());
}

} // verus!
