//! The release planner: which values a scope has to release when it ends,
//! and in which order.

use vstd::prelude::*;
use crate::binding::{Binding, BindingState, DeclSite, Name};
use crate::value::ValueKind;

verus! {

/// The release of the value that one binding owns.
#[derive(Clone, Copy, Debug, PartialEq, Eq, Structural)]
pub struct Release {
    pub binding: Name,
    pub declared_at: DeclSite,
}

/// The release action for the value of `binding`.
pub open spec fn release_of(binding: Binding) -> Release {
    Release { binding: binding.name, declared_at: binding.declared_at }
}

/// The release plan for `leaving`: one action for each live binding with a
/// move-only value, in the order of `leaving`. A copyable value has nothing
/// to release, and a value that was moved away is released by its new owner.
pub open spec fn plan_for(leaving: Seq<Binding>) -> Seq<Release>
    decreases leaving.len(),
{
    if leaving.len() == 0 {
        Seq::empty()
    } else if leaving.last().owes_release() {
        plan_for(leaving.drop_last()).push(release_of(leaving.last()))
    } else {
        plan_for(leaving.drop_last())
    }
}

/// The binding after its scope has ended: dropped if its value had to be
/// released, unchanged otherwise.
pub open spec fn settle(binding: Binding) -> Binding {
    if binding.owes_release() {
        Binding { state: BindingState::Dropped, ..binding }
    } else {
        binding
    }
}

/// Plans the releases for the bindings that a scope hands over when it ends,
/// and marks each binding whose value is released as dropped.
///
/// `leaving` is expected latest declaration first, as `exit_scope` returns
/// it; the plan keeps that order.
pub fn plan_release(leaving: &mut Vec<Binding>) -> (plan: Vec<Release>)
    ensures
        plan@ == plan_for(old(leaving)@),
        final(leaving)@ == old(leaving)@.map_values(|b: Binding| settle(b)),
{
    let ghost before = leaving@;
    let mut plan: Vec<Release> = Vec::new();
    let mut i: usize = 0;
    while i < leaving.len()
        invariant
            i <= leaving@.len(),
            leaving@.len() == before.len(),
            plan@ == plan_for(before.take(i as int)),
            forall|j: int| 0 <= j < i ==> #[trigger] leaving@[j] == settle(before[j]),
            forall|j: int| i <= j < before.len() ==> #[trigger] leaving@[j] == before[j],
        decreases leaving@.len() - i,
    {
        let b = leaving[i];
        proof {
            assert(before.take(i as int + 1).drop_last() == before.take(i as int));
            assert(before.take(i as int + 1).last() == b);
        }
        match (b.state, b.kind) {
            (BindingState::Live, ValueKind::MoveOnly) => {
                plan.push(Release { binding: b.name, declared_at: b.declared_at });
                leaving[i] = Binding { state: BindingState::Dropped, ..b };
            },
            _ => {},
        }
        i += 1;
    }
    proof {
        assert(before.take(i as int) == before);
        assert(leaving@ == before.map_values(|b: Binding| settle(b)));
    }
    plan
}

} // verus!
