//! Laws of handles and wrappers: what stands for something does what that does, and of what the built-in
//! models and components do.
use crate::actuator;
use crate::actuator::model::Actuator;
use crate::catalog::CatalogView;
use crate::component::{Construct, Factory, OfUnit};
use crate::controller::model::Controller;
use crate::declaration::running::{DeclaredModel, TaskModel};
use crate::declaration::signals::Signals;
use crate::dynamic_model::{Composite, CompositeDynamicModel, DynamicModel, FunctionModel};
use crate::laws;
use crate::numerical_method::integrator::{Dynamics, Field};
use crate::runtime_control::RuntimeControl;
use crate::sensor;
use crate::sensor::model::Sensor;
use crate::snapshot::Snapshot;
use crate::state_registry::{
    CommandCell, CurrentState, CurrentView, EvaluationState, EvaluationView, Layout, Outline,
    RegistryView, StateRegistry,
};
use std::rc::Rc;
use vstd::prelude::*;

verus! {

/// A shared or boxed model is the model that it holds.
pub proof fn a_held_model_is_the_model<T: DynamicModel>(
    shared: Rc<T>,
    boxed: Box<T>,
    outline: Outline,
    layout: Layout,
    current: CurrentView,
    before: EvaluationView,
    after: EvaluationView,
)
    ensures
        shared.title() == (*shared).title(),
        shared.integrable() == (*shared).integrable(),
        shared.ready(outline, layout) == (*shared).ready(outline, layout),
        shared.evaluates(current, before, after) == (*shared).evaluates(current, before, after),
        boxed.title() == (*boxed).title(),
        boxed.integrable() == (*boxed).integrable(),
        boxed.ready(outline, layout) == (*boxed).ready(outline, layout),
        boxed.evaluates(current, before, after) == (*boxed).evaluates(current, before, after),
{
}

/// A shared actuator is written as the actuator that it shares, and a command cell by its command.
pub proof fn a_held_actuator_is_the_actuator<T: actuator::Actuator>(
    shared: Rc<T>,
    cell: CommandCell,
    layout: Layout,
    before: EvaluationView,
    value: u64,
    after: EvaluationView,
)
    ensures
        actuator::Actuator::writable(&shared, layout) == (*shared).writable(layout),
        actuator::Actuator::writes(&shared, before, value, after) == (*shared).writes(
            before,
            value,
            after,
        ),
        actuator::Actuator::writes(&cell, before, value, after) && 0 <= cell.number()
            < before.commands.len() ==> {
            &&& after.commands.len() == before.commands.len()
            &&& after.commands[cell.number()] == value
            &&& forall|i: int|
                0 <= i < before.commands.len() && i != cell.number() ==> #[trigger] after.commands[i]
                    == before.commands[i]
            &&& after.values == before.values
            &&& after.links == before.links
        },
{
}

/// Wherever an actuator is evaluated, its law is asked for the rate with its own command and its own
/// state, in this order, and the answer goes to its derivative. A command changes its command alone.
pub proof fn an_actuator_asks_its_law<F: Fn(u64, u64) -> u64>(
    made: Actuator<F>,
    current: CurrentView,
    before: EvaluationView,
    after: EvaluationView,
    value: u64,
    state: int,
    derivative: int,
)
    requires
        laws::registry::addresses(before, made@.state, state),
        laws::registry::addresses(before, made@.derivative, derivative),
        0 <= made@.command.number() < before.commands.len(),
    ensures
        DynamicModel::evaluates(&made, current, before, after) ==> {
            &&& call_ensures(
                made@.dynamics,
                (before.commands[made@.command.number()], before.values[state]),
                after.values[derivative],
            )
            &&& after.values.len() == before.values.len()
            &&& forall|p: int|
                0 <= p < before.values.len() && p != derivative ==> #[trigger] after.values[p]
                    == before.values[p]
            &&& after.commands == before.commands
            &&& after.links == before.links
        },
        actuator::Actuator::writes(&made, before, value, after) ==> {
            &&& after.commands.len() == before.commands.len()
            &&& after.commands[made@.command.number()] == value
            &&& forall|i: int|
                0 <= i < before.commands.len() && i != made@.command.number()
                    ==> #[trigger] after.commands[i] == before.commands[i]
            &&& after.values == before.values
        },
        DynamicModel::integrable(&made).len() == 1,
        DynamicModel::integrable(&made)[0] == made@.key,
{
    if DynamicModel::evaluates(&made, current, before, after) {
        let rate = choose|rate: u64|
            #![trigger before.set(made@.derivative, rate)]
            call_ensures(
                made@.dynamics,
                (before.command(made@.command), before.get(made@.state)),
                rate,
            ) && after == before.set(made@.derivative, rate);
        laws::registry::a_proxy_keeps_to_its_slot(
            before,
            made@.derivative,
            derivative,
            rate,
        );
        laws::registry::a_proxy_keeps_to_its_slot(before, made@.state, state, rate);
    }
}

/// A controller changes nothing by itself and integrates nothing.
pub proof fn a_controller_changes_nothing(
    made: Controller,
    current: CurrentView,
    before: EvaluationView,
    after: EvaluationView,
)
    ensures
        DynamicModel::evaluates(&made, current, before, after) ==> after == before,
        DynamicModel::integrable(&made).len() == 0,
{
}

/// A model that is a function is evaluated by one call of it, on the confirmed state and the working
/// copy, and leaves what the function gives back. It has the name and the states that it was given.
pub proof fn a_function_model_calls_its_function<
    F: Fn(&CurrentState, EvaluationState) -> EvaluationState,
>(
    model: FunctionModel<F>,
    current: CurrentView,
    before: EvaluationView,
    after: EvaluationView,
)
    requires
        model.evaluates(current, before, after),
    ensures
        exists|given: CurrentState, state: EvaluationState, left: EvaluationState| #[trigger]
            call_ensures(model@.run, (&given, state), left) && given@ == current && state@ == before
                && left@ == after,
        model.title() == model@.name,
        model.integrable() == model@.states,
{
}

/// A declared model is evaluated by one call of what it computes, with its own signals, on the working
/// copy.
pub proof fn a_declared_model_computes_on_its_signals<
    F: Fn(&Signals, EvaluationState) -> EvaluationState,
>(
    model: DeclaredModel<F>,
    current: CurrentView,
    before: EvaluationView,
    after: EvaluationView,
)
    requires
        model.evaluates(current, before, after),
    ensures
        exists|state: EvaluationState, left: EvaluationState| #[trigger]
            call_ensures(model@.compute, (&model@.signals, state), left) && state@ == before && left@
                == after,
        model.title() == model@.name,
        model.integrable() == model@.states,
{
}

/// A composite is its children: it is ready where each of them is, integrates what they integrate, and
/// is evaluated as they are in a row.
pub proof fn a_composite_is_its_children<M: DynamicModel>(
    composite: Composite<M>,
    outline: Outline,
    layout: Layout,
    current: CurrentView,
    before: EvaluationView,
    after: EvaluationView,
) -> (states: Seq<EvaluationView>)
    ensures
        composite.children() == composite.parts(),
        composite.ready(outline, layout) <==> forall|i: int|
            0 <= i < composite.parts().len() ==> (#[trigger] composite.parts()[i]).ready(
                outline,
                layout,
            ),
        composite.integrable() == Seq::new(
            composite.parts().len(),
            |i: int| composite.parts()[i].integrable(),
        ).flatten(),
        composite.evaluates(current, before, after) ==> {
            &&& laws::models::each_evaluated(
                composite.parts(),
                composite.parts().len() as int,
                current,
                states,
            )
            &&& states[0] == before
            &&& states[composite.parts().len() as int] == after
        },
{
    laws::models::the_keys_of_every_model_are_listed(composite.parts());
    if composite.evaluates(current, before, after) {
        laws::models::every_model_is_evaluated_in_its_turn(
            composite.parts(),
            current,
            before,
            after,
        )
    } else {
        Seq::empty()
    }
}

/// A task integrates nothing.
pub proof fn a_task_integrates_nothing<
    F: Fn(&Signals, EvaluationState, Vec<u64>) -> (EvaluationState, Vec<u64>),
>(model: TaskModel<F>)
    ensures
        DynamicModel::integrable(&model).len() == 0,
        DynamicModel::title(&model) == model@.name,
{
}

/// The control shows the hour to whoever reads it, and reading does not change it.
pub proof fn the_control_shows_its_hour(
    before: RuntimeControl,
    current: CurrentView,
    value: u64,
    after: RuntimeControl,
)
    requires
        <RuntimeControl as sensor::Sensor>::reads(before, current, value, after),
    ensures
        value == before@.t_h,
        after@ == before@,
{
}

/// A sensor that is read as part of a plant is the sensor.
pub proof fn a_sensor_reads_as_its_view<B: sensor::model::SensorBehavior>(
    before: Sensor<B>,
    current: CurrentView,
    value: u64,
    after: Sensor<B>,
)
    ensures
        <Sensor<B> as sensor::Sensor>::reads(before, current, value, after) == before@.reads(
            current,
            value,
            after@,
        ),
{
}

/// A field of forces answers with what its law gives for the states that are tried.
pub proof fn a_field_answers_with_its_law<F: Fn(&Vec<u64>) -> Vec<u64>>(
    before: Field<F>,
    tried: Seq<u64>,
    rates: Seq<u64>,
    after: Field<F>,
) -> (call: (Vec<u64>, Vec<u64>))
    requires
        Field::responds(before, tried, rates, after),
    ensures
        call_ensures(before.law(), (&call.0,), call.1),
        call.0@ == tried,
        call.1@ == rates,
{
    let (given, answer) = choose|given: Vec<u64>, answer: Vec<u64>| #[trigger]
        call_ensures(before.law(), (&given,), answer) && given@ == tried && answer@ == rates;
    (given, answer)
}

/// A boxed constructor and the constructor of a unit's component build what they hold builds; the
/// latter names the unit.
pub proof fn a_held_constructor_builds_the_same<S, A, C, M, T: Construct<S, A, C, M>>(
    boxed: Box<T>,
    of_unit: OfUnit<T>,
    before: RegistryView<S, A, C>,
    config: CatalogView<u64>,
    built: Option<M>,
    after: RegistryView<S, A, C>,
)
    ensures
        boxed.builds(before, config, built, after) == (*boxed).builds(before, config, built, after),
        boxed.unit_name() == (*boxed).unit_name(),
        of_unit.builds(before, config, built, after) == of_unit.component.builds(
            before,
            config,
            built,
            after,
        ),
        Construct::<S, A, C, M>::unit_name(&of_unit) == Some(of_unit.unit@),
{
}

/// A factory builds by one call of its function, on the registry and with the configuration.
pub proof fn a_factory_calls_its_function<
    S,
    A,
    C,
    M,
    F: Fn(StateRegistry<S, A, C>, &Snapshot) -> (StateRegistry<S, A, C>, Option<M>),
>(
    factory: Factory<F>,
    before: RegistryView<S, A, C>,
    config: CatalogView<u64>,
    built: Option<M>,
    after: RegistryView<S, A, C>,
)
    requires
        factory.builds(before, config, built, after),
    ensures
        Construct::<S, A, C, M>::unit_name(&factory) is None,
        exists|
            registry: StateRegistry<S, A, C>,
            values: Snapshot,
            outcome: (StateRegistry<S, A, C>, Option<M>),
        |
            {
                &&& #[trigger] call_ensures(factory.build, (registry, &values), outcome)
                &&& registry@ == before
                &&& values@ == config
                &&& outcome.0@ == after
                &&& outcome.1 == built
            },
{
}

} // verus!
