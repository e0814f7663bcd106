//! Laws of the commands that arrive for a plant.
use crate::actuator::Actuator;
use crate::dynamic_model::DynamicModel;
use crate::plant;
use crate::plant::Plant;
use crate::state_registry::{EvaluationView, RegistryView};
use vstd::prelude::*;

verus! {

/// Whether the actuator keeps what it is commanded in the cell of this number, and changes nothing
/// else.
pub open spec fn keeps_in_cell<A: Actuator>(actuator: A, cell: int) -> bool {
    forall|before: EvaluationView, value: u64, after: EvaluationView|
        0 <= cell < before.commands.len() && #[trigger] actuator.writes(before, value, after) ==> {
            &&& after.values == before.values
            &&& after.links == before.links
            &&& after.commands.len() == before.commands.len()
            &&& after.commands[cell] == value
            &&& forall|i: int|
                0 <= i < before.commands.len() && i != cell ==> #[trigger] after.commands[i]
                    == before.commands[i]
        }
}

/// Whether each name that is catalogued has a cell, and no two names share one.
pub open spec fn cells_of_their_own<S, A: Actuator, C>(
    registry: RegistryView<S, A, C>,
    cells: spec_fn(Seq<char>) -> int,
) -> bool {
    &&& forall|name: Seq<char>| #[trigger]
        registry.actuators.found(name) is Some ==> {
            &&& 0 <= cells(name) < registry.evaluation.commands.len()
            &&& keeps_in_cell(registry.actuators.found(name)->0, cells(name))
        }
    &&& forall|one: Seq<char>, other: Seq<char>|
        #[trigger] registry.actuators.found(one) is Some && #[trigger] registry.actuators.found(
            other,
        ) is Some && one != other ==> cells(one) != cells(other)
}

/// Whether no command from `from` on names it.
pub open spec fn unnamed_from(commands: Seq<(String, u64)>, from: int, name: Seq<char>) -> bool {
    forall|k: int| from <= k < commands.len() ==> (#[trigger] commands[k]).0@ != name
}

/// Whether the first commands were obeyed: the cell of each catalogued actuator holds the value of the
/// last command that names it, and every cell that none of them names is as it was.
pub open spec fn cells_obey<S, A: Actuator, C>(
    registry: RegistryView<S, A, C>,
    cells: spec_fn(Seq<char>) -> int,
    commands: Seq<(String, u64)>,
    after: EvaluationView,
) -> bool {
    &&& after.values == registry.evaluation.values
    &&& after.links == registry.evaluation.links
    &&& after.commands.len() == registry.evaluation.commands.len()
    &&& forall|k: int|
        0 <= k < commands.len() && registry.actuators.found((#[trigger] commands[k]).0@) is Some
            && unnamed_from(commands, k + 1, commands[k].0@) ==> after.commands[cells(
            commands[k].0@,
        )] == commands[k].1
    &&& forall|c: int|
        0 <= c < after.commands.len() && (forall|k: int|
            0 <= k < commands.len() && registry.actuators.found((#[trigger] commands[k]).0@) is Some
                ==> cells(commands[k].0@) != c) ==> #[trigger] after.commands[c]
            == registry.evaluation.commands[c]
}

proof fn prefixes_are_commanded_alike<S, A: Actuator, C>(
    registry: RegistryView<S, A, C>,
    commands: Seq<(String, u64)>,
    others: Seq<(String, u64)>,
    n: nat,
    after: EvaluationView,
)
    requires
        n <= commands.len(),
        n <= others.len(),
        forall|k: int| 0 <= k < n ==> commands[k] == others[k],
        plant::commanded(registry, commands, n, after),
    ensures
        plant::commanded(registry, others, n, after),
    decreases n,
{
    if n > 0 {
        let m = (n - 1) as nat;
        let between = choose|between: EvaluationView|
            plant::commanded(registry, commands, m, between) && #[trigger] plant::obeyed(
                registry,
                commands[n - 1],
                between,
                after,
            );
        prefixes_are_commanded_alike(registry, commands, others, m, between);
        assert(plant::obeyed(registry, others[n - 1], between, after));
    }
}

proof fn cells_hold_the_last_command<S, A: Actuator, C>(
    registry: RegistryView<S, A, C>,
    cells: spec_fn(Seq<char>) -> int,
    commands: Seq<(String, u64)>,
    after: EvaluationView,
)
    requires
        cells_of_their_own(registry, cells),
        plant::commanded(registry, commands, commands.len(), after),
    ensures
        cells_obey(registry, cells, commands, after),
    decreases commands.len(),
{
    if commands.len() > 0 {
        let fewer = commands.drop_last();
        let m = fewer.len();
        let between = choose|between: EvaluationView|
            plant::commanded(registry, commands, m, between) && #[trigger] plant::obeyed(
                registry,
                commands[commands.len() - 1],
                between,
                after,
            );
        prefixes_are_commanded_alike(registry, commands, fewer, m, between);
        cells_hold_the_last_command(registry, cells, fewer, between);
        let last = commands.last();
        let known = registry.actuators.found(last.0@) is Some;
        if known {
            assert(registry.actuators.found(last.0@)->0.writes(between, last.1, after));
            assert(0 <= cells(last.0@) < between.commands.len());
        }
        assert forall|k: int|
            0 <= k < commands.len() && registry.actuators.found((#[trigger] commands[k]).0@) is Some
                && unnamed_from(commands, k + 1, commands[k].0@) implies after.commands[cells(
            commands[k].0@,
        )] == commands[k].1 by {
            if k < fewer.len() {
                let name = commands[k].0@;
                assert(fewer[k] == commands[k]);
                assert(unnamed_from(fewer, k + 1, name)) by {
                    assert forall|j: int| k + 1 <= j < fewer.len() implies (
                    #[trigger] fewer[j]).0@ != name by {
                        assert(fewer[j] == commands[j]);
                    }
                }
                assert(between.commands[cells(name)] == commands[k].1);
                assert(commands[commands.len() - 1].0@ != name);
            }
        }
        assert forall|c: int|
            0 <= c < after.commands.len() && (forall|k: int|
                0 <= k < commands.len() && registry.actuators.found(
                    (#[trigger] commands[k]).0@,
                ) is Some ==> cells(commands[k].0@) != c) implies #[trigger] after.commands[c]
            == registry.evaluation.commands[c] by {
            assert forall|k: int|
                0 <= k < fewer.len() && registry.actuators.found(
                    (#[trigger] fewer[k]).0@,
                ) is Some implies cells(fewer[k].0@) != c by {
                assert(fewer[k] == commands[k]);
            }
            assert(between.commands[c] == registry.evaluation.commands[c]);
            if known {
                assert(commands[commands.len() - 1] == last);
                assert(cells(last.0@) != c);
            }
        }
    }
}

/// Every actuator gets its own command: where actuators keep their commands in cells of their own, the
/// cell of each holds the value of the last command that names it. What no command names, and what is
/// no command, stays as it was, and a command for nobody is left out.
pub proof fn each_actuator_gets_its_last_command<S, A: Actuator, C, M: DynamicModel>(
    before: Plant<S, A, C, M>,
    cells: spec_fn(Seq<char>) -> int,
    commands: Seq<(String, u64)>,
    after: Plant<S, A, C, M>,
)
    requires
        cells_of_their_own(before.registry@, cells),
        plant::only_commanded(before, commands, after),
    ensures
        cells_obey(before.registry@, cells, commands, after.registry@.evaluation),
        after.registry@.current == before.registry@.current,
        after.model == before.model,
        after.states == before.states,
        after.derivatives == before.derivatives,
{
    cells_hold_the_last_command(before.registry@, cells, commands, after.registry@.evaluation);
}

proof fn commands_split<S, A: Actuator, C>(
    registry: RegistryView<S, A, C>,
    first: Seq<(String, u64)>,
    second: Seq<(String, u64)>,
    after: EvaluationView,
) -> (between: EvaluationView)
    requires
        plant::commanded(registry, first + second, (first + second).len(), after),
    ensures
        plant::commanded(registry, first, first.len(), between),
        plant::commanded(
            RegistryView { evaluation: between, ..registry },
            second,
            second.len(),
            after,
        ),
    decreases second.len(),
{
    let whole = first + second;
    if second.len() == 0 {
        prefixes_are_commanded_alike(registry, whole, first, first.len(), after);
        after
    } else {
        let m = (whole.len() - 1) as nat;
        let earlier = choose|earlier: EvaluationView|
            plant::commanded(registry, whole, m, earlier) && #[trigger] plant::obeyed(
                registry,
                whole[whole.len() - 1],
                earlier,
                after,
            );
        let fewer = second.drop_last();
        prefixes_are_commanded_alike(registry, whole, first + fewer, m, earlier);
        let between = commands_split(registry, first, fewer, earlier);
        let midway = RegistryView { evaluation: between, ..registry };
        prefixes_are_commanded_alike(midway, fewer, second, fewer.len(), earlier);
        assert(whole[whole.len() - 1] == second[second.len() - 1]);
        assert(plant::obeyed(midway, second[second.len() - 1], earlier, after));
        between
    }
}

/// Commands in a row are commands one after the other: to obey `first` and `second` together is to
/// obey `first`, and then `second`.
pub proof fn commands_are_obeyed_in_a_row<S, A: Actuator, C>(
    registry: RegistryView<S, A, C>,
    first: Seq<(String, u64)>,
    second: Seq<(String, u64)>,
    after: EvaluationView,
)
    requires
        plant::commanded(registry, first + second, (first + second).len(), after),
    ensures
        exists|between: EvaluationView|
            {
                &&& #[trigger] plant::commanded(registry, first, first.len(), between)
                &&& plant::commanded(
                    RegistryView { evaluation: between, ..registry },
                    second,
                    second.len(),
                    after,
                )
            },
{
    let between = commands_split(registry, first, second, after);
}

/// A single command is written to the actuator that is catalogued under its name, with its own value,
/// and to no other; where there is none nothing changes.
pub proof fn a_command_reaches_its_actuator<S, A: Actuator, C>(
    registry: RegistryView<S, A, C>,
    command: (String, u64),
    after: EvaluationView,
)
    requires
        plant::commanded(registry, seq![command], 1, after),
    ensures
        match registry.actuators.found(command.0@) {
            Some(actuator) => actuator.writes(registry.evaluation, command.1, after),
            None => after == registry.evaluation,
        },
{
    reveal_with_fuel(plant::commanded, 2);
    let between = choose|between: EvaluationView|
        plant::commanded(registry, seq![command], 0, between) && #[trigger] plant::obeyed(
            registry,
            seq![command][0],
            between,
            after,
        );
}

} // verus!
