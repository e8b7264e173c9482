use crate::field::Field;
use vstd::prelude::*;

verus! {

/// Adding a cell at a dead position and then removing it leaves the living set
/// as it was.
pub proof fn add_then_remove(before: Field, added: Field, removed: Field, p: (i32, i32))
    requires
        !before.alive().contains((p.0 as int, p.1 as int)),
        added.alive() == before.alive().insert((p.0 as int, p.1 as int)),
        removed.alive() == added.alive().remove((p.0 as int, p.1 as int)),
    ensures
        removed.alive() == before.alive(),
{
    assert(removed.alive() =~= before.alive());
}

/// Adding the same cell twice has the effect of adding it once.
pub proof fn add_twice(before: Field, once: Field, twice: Field, p: (i32, i32))
    requires
        once.alive() == before.alive().insert((p.0 as int, p.1 as int)),
        twice.alive() == once.alive().insert((p.0 as int, p.1 as int)),
    ensures
        twice.alive() == once.alive(),
{
    assert(twice.alive() =~= once.alive());
}

/// A second backup right after a first one keeps the copy that the first made.
pub proof fn backup_twice(before: Field, once: Field, twice: Field)
    requires
        once.saved() == before.saved_after_backup(),
        once.backuped_cells is Some,
        once.cells@ == before.cells@,
        twice.saved() == once.saved_after_backup(),
        once.backuped_cells is Some ==> twice.backuped_cells == once.backuped_cells,
    ensures
        twice.saved() == once.saved(),
        twice.backuped_cells == once.backuped_cells,
{
}

/// Once a run of steps has started from a field with no saved copy, every
/// later state of the run holds that field's cells as its saved copy.
proof fn saved_through_run(states: Seq<Field>, n: int)
    requires
        1 <= n < states.len(),
        states[0].backuped_cells is None,
        forall|i: int| 0 <= i < states.len() - 1 ==> #[trigger] states[i].steps_to(&states[i + 1]),
    ensures
        states[n].saved() == Some(states[0].alive()),
        states[n].step_count == states[0].step_count + n,
    decreases n,
{
    let i = n - 1;
    assert(states[i].steps_to(&states[i + 1]));
    assert(i + 1 == n);
    if n > 1 {
        saved_through_run(states, n - 1);
    }
}

/// Restoring after one or more steps, the first of which started from a field
/// with no saved copy, gives back the cells from before that first step and a
/// step count of zero.
pub proof fn restore_after_steps(states: Seq<Field>, restored: Field)
    requires
        states.len() >= 2,
        states[0].backuped_cells is None,
        forall|i: int| 0 <= i < states.len() - 1 ==> #[trigger] states[i].steps_to(&states[i + 1]),
        states.last().restores_to(&restored),
    ensures
        restored.alive() == states[0].alive(),
        restored.step_count == 0,
        restored.backuped_cells is None,
{
    saved_through_run(states, states.len() - 1);
}

} // verus!
