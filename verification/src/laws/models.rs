//! Laws of models that are made of models, and of how components are built into them.
use crate::catalog::CatalogView;
use crate::component::{ComponentDescriptor, ComponentKind, Construct};
use crate::dynamic_model::DynamicModel;
use crate::state_registry::{CurrentView, EvaluationView, RegistryView};
use crate::{component, dynamic_model, order, simulation};
use vstd::prelude::*;

verus! {

/// Whether each model is evaluated once, in the order of the list, on what the one before it leaves
/// behind.
pub open spec fn each_evaluated<M: DynamicModel>(
    models: Seq<M>,
    n: int,
    current: CurrentView,
    states: Seq<EvaluationView>,
) -> bool {
    &&& states.len() == n + 1
    &&& forall|k: int|
        0 <= k < n ==> (#[trigger] models[k]).evaluates(current, states[k], states[k + 1])
}

proof fn models_are_evaluated<M: DynamicModel>(
    models: Seq<M>,
    n: nat,
    current: CurrentView,
    before: EvaluationView,
    after: EvaluationView,
) -> (states: Seq<EvaluationView>)
    requires
        n <= models.len(),
        dynamic_model::evaluated_in_order(models, n, current, before, after),
    ensures
        each_evaluated(models, n as int, current, states),
        states[0] == before,
        states[n as int] == after,
    decreases n,
{
    if n == 0 {
        seq![before]
    } else {
        let m = (n - 1) as nat;
        let between = choose|between: EvaluationView|
            dynamic_model::evaluated_in_order(models, m, current, before, between)
                && between.layout() == before.layout() && #[trigger] models[n - 1].evaluates(
                current,
                between,
                after,
            );
        let earlier = models_are_evaluated(models, m, current, before, between);
        let states = earlier.push(after);
        assert forall|k: int| 0 <= k < n implies (#[trigger] models[k]).evaluates(
            current,
            states[k],
            states[k + 1],
        ) by {
            if k < m {
                assert(states[k] == earlier[k]);
                assert(states[k + 1] == earlier[k + 1]);
            } else {
                assert(states[k] == earlier[m as int]);
            }
        }
        states
    }
}

/// An evaluation in order evaluates every model of the list once, from the first to the last, and each
/// sees what those before it have written.
pub proof fn every_model_is_evaluated_in_its_turn<M: DynamicModel>(
    models: Seq<M>,
    current: CurrentView,
    before: EvaluationView,
    after: EvaluationView,
) -> (states: Seq<EvaluationView>)
    requires
        dynamic_model::evaluated_in_order(models, models.len(), current, before, after),
    ensures
        each_evaluated(models, models.len() as int, current, states),
        states[0] == before,
        states[models.len() as int] == after,
{
    models_are_evaluated(models, models.len(), current, before, after)
}

proof fn keys_are_in_a_row<M: DynamicModel>(models: Seq<M>, n: nat)
    requires
        n <= models.len(),
    ensures
        dynamic_model::keys_in_order(models, n) == Seq::new(
            n,
            |i: int| models[i].integrable(),
        ).flatten(),
    decreases n,
{
    let parts = Seq::new(n, |i: int| models[i].integrable());
    if n == 0 {
        assert(parts =~= Seq::empty());
        assert(parts.flatten() =~= Seq::empty());
    } else {
        let m = (n - 1) as nat;
        keys_are_in_a_row(models, m);
        let earlier = Seq::new(m, |i: int| models[i].integrable());
        assert(parts =~= earlier.push(models[m as int].integrable()));
        earlier.lemma_flatten_push(models[m as int].integrable());
    }
}

/// The keys of a composition are the keys of every model of the list, one after the other.
pub proof fn the_keys_of_every_model_are_listed<M: DynamicModel>(models: Seq<M>)
    ensures
        dynamic_model::keys_in_order(models, models.len()) == Seq::new(
            models.len(),
            |i: int| models[i].integrable(),
        ).flatten(),
{
    keys_are_in_a_row(models, models.len());
}

/// The components of a kind are all those of the kind, in the order in which they were discovered.
pub proof fn every_component_of_a_kind_is_picked<F>(
    all: Seq<ComponentDescriptor<F>>,
    kind: ComponentKind,
) -> (places: Seq<int>)
    ensures
        order::is_part_of(all, component::of_kind(all, kind), places),
        forall|i: int| 0 <= i < all.len() ==> (places.contains(i) <==> (#[trigger] all[i]).kind == kind),
    decreases all.len(),
{
    let part = component::of_kind(all, kind);
    if all.len() == 0 {
        Seq::empty()
    } else {
        let m = all.len() - 1;
        let earlier = every_component_of_a_kind_is_picked(all.drop_last(), kind);
        let before = component::of_kind(all.drop_last(), kind);
        let places = if all[m].kind == kind {
            earlier.push(m)
        } else {
            earlier
        };
        assert forall|k: int| 0 <= k < places.len() implies 0 <= #[trigger] places[k] < all.len()
            && part[k] == all[places[k]] by {
            if k < earlier.len() {
                assert(places[k] == earlier[k]);
                assert(part[k] == before[k]);
                assert(all.drop_last()[earlier[k]] == all[earlier[k]]);
            }
        }
        assert forall|k: int, l: int| 0 <= k < l < places.len() implies #[trigger] places[k]
            < #[trigger] places[l] by {
            assert(places[k] == earlier[k]);
            if l < earlier.len() {
                assert(places[l] == earlier[l]);
            }
        }
        assert forall|i: int| 0 <= i < all.len() implies (places.contains(i) <==> (
        #[trigger] all[i]).kind == kind) by {
            if i < m {
                assert(all.drop_last()[i] == all[i]);
                if earlier.contains(i) {
                    let k = choose|k: int| 0 <= k < earlier.len() && earlier[k] == i;
                    assert(places[k] == i);
                }
                if places.contains(i) {
                    let k = choose|k: int| 0 <= k < places.len() && places[k] == i;
                    assert(k < earlier.len());
                    assert(earlier[k] == i);
                }
            } else {
                if all[m].kind == kind {
                    assert(places[places.len() - 1] == m);
                }
                if places.contains(i) {
                    let k = choose|k: int| 0 <= k < places.len() && places[k] == i;
                    if k < earlier.len() {
                        assert(earlier[k] < all.drop_last().len());
                    }
                }
            }
        }
        places
    }
}

/// Evaluated are the dynamic components in the order that was found for them, behind them the
/// actuators and last the controllers, these two as they were discovered. Sensors are not.
pub proof fn actuators_and_controllers_come_last<F>(all: Seq<ComponentDescriptor<F>>)
    ensures
        ({
            let sorted = order::arrangement(component::of_kind(all, ComponentKind::Dynamic)).0;
            let actuators = component::of_kind(all, ComponentKind::Actuator);
            let controllers = component::of_kind(all, ComponentKind::Controller);
            let whole = component::evaluation_order(all);
            let d = sorted.len() as int;
            let a = actuators.len() as int;
            let c = controllers.len() as int;
            &&& whole.len() == d + a + c
            &&& forall|i: int| 0 <= i < d ==> #[trigger] sorted[i] == whole[i]
            &&& forall|i: int| 0 <= i < a ==> #[trigger] actuators[i] == whole[d + i]
            &&& forall|i: int| 0 <= i < c ==> #[trigger] controllers[i] == whole[d + a + i]
        }),
{
}

/// Whether each component is built once, in the order of the list, on the registry that the one before
/// it leaves behind and with the same configuration.
pub open spec fn each_built<S, A, C, M, F: Construct<S, A, C, M>>(
    list: Seq<ComponentDescriptor<F>>,
    n: int,
    config: CatalogView<u64>,
    built: Seq<Option<M>>,
    registries: Seq<RegistryView<S, A, C>>,
) -> bool {
    &&& built.len() == n
    &&& registries.len() == n + 1
    &&& forall|k: int|
        0 <= k < n ==> (#[trigger] list[k]).construct.builds(
            registries[k],
            config,
            built[k],
            registries[k + 1],
        )
}

proof fn components_are_built<S, A, C, M, F: Construct<S, A, C, M>>(
    list: Seq<ComponentDescriptor<F>>,
    n: nat,
    config: CatalogView<u64>,
    before: RegistryView<S, A, C>,
    built: Seq<Option<M>>,
    after: RegistryView<S, A, C>,
) -> (registries: Seq<RegistryView<S, A, C>>)
    requires
        n <= list.len(),
        component::built_in_order(list, n, config, before, built, after),
    ensures
        each_built(list, n as int, config, built, registries),
        registries[0] == before,
        registries[n as int] == after,
    decreases n,
{
    if n == 0 {
        seq![before]
    } else {
        let m = (n - 1) as nat;
        let between = choose|between: RegistryView<S, A, C>|
            component::built_in_order(list, m, config, before, built.drop_last(), between)
                && #[trigger] list[n - 1].construct.builds(between, config, built.last(), after);
        let earlier = components_are_built(list, m, config, before, built.drop_last(), between);
        let registries = earlier.push(after);
        assert forall|k: int| 0 <= k < n implies (#[trigger] list[k]).construct.builds(
            registries[k],
            config,
            built[k],
            registries[k + 1],
        ) by {
            if k < m {
                assert(registries[k] == earlier[k]);
                assert(registries[k + 1] == earlier[k + 1]);
                assert(built[k] == built.drop_last()[k]);
            } else {
                assert(registries[k] == earlier[m as int]);
            }
        }
        registries
    }
}

/// Every component of a list is built, in the order of the list.
pub proof fn every_component_is_built_in_its_turn<S, A, C, M, F: Construct<S, A, C, M>>(
    list: Seq<ComponentDescriptor<F>>,
    config: CatalogView<u64>,
    before: RegistryView<S, A, C>,
    built: Seq<Option<M>>,
    after: RegistryView<S, A, C>,
) -> (registries: Seq<RegistryView<S, A, C>>)
    requires
        component::built_in_order(list, list.len(), config, before, built, after),
    ensures
        each_built(list, list.len() as int, config, built, registries),
        registries[0] == before,
        registries[list.len() as int] == after,
{
    components_are_built(list, list.len(), config, before, built, after)
}

/// The models that were built are all those that a component gave, in the order of the components.
pub proof fn every_model_that_was_built_is_kept<M>(built: Seq<Option<M>>) -> (places: Seq<int>)
    ensures
        places.len() == component::models_built(built).len(),
        forall|k: int|
            0 <= k < places.len() ==> 0 <= #[trigger] places[k] < built.len() && built[places[k]]
                == Some(component::models_built(built)[k]),
        forall|k: int, l: int|
            0 <= k < l < places.len() ==> #[trigger] places[k] < #[trigger] places[l],
        forall|i: int|
            0 <= i < built.len() ==> (places.contains(i) <==> (#[trigger] built[i]) is Some),
    decreases built.len(),
{
    let part = component::models_built(built);
    if built.len() == 0 {
        Seq::empty()
    } else {
        let m = built.len() - 1;
        let earlier = every_model_that_was_built_is_kept(built.drop_last());
        let before = component::models_built(built.drop_last());
        let places = if built[m] is Some {
            earlier.push(m)
        } else {
            earlier
        };
        assert forall|k: int| 0 <= k < places.len() implies 0 <= #[trigger] places[k] < built.len()
            && built[places[k]] == Some(part[k]) by {
            if k < earlier.len() {
                assert(places[k] == earlier[k]);
                assert(part[k] == before[k]);
                assert(built.drop_last()[earlier[k]] == built[earlier[k]]);
            }
        }
        assert forall|k: int, l: int| 0 <= k < l < places.len() implies #[trigger] places[k]
            < #[trigger] places[l] by {
            assert(places[k] == earlier[k]);
            if l < earlier.len() {
                assert(places[l] == earlier[l]);
            }
        }
        assert forall|i: int| 0 <= i < built.len() implies (places.contains(i) <==> (
        #[trigger] built[i]) is Some) by {
            if i < m {
                assert(built.drop_last()[i] == built[i]);
                if earlier.contains(i) {
                    let k = choose|k: int| 0 <= k < earlier.len() && earlier[k] == i;
                    assert(places[k] == i);
                }
                if places.contains(i) {
                    let k = choose|k: int| 0 <= k < places.len() && places[k] == i;
                    assert(k < earlier.len());
                    assert(earlier[k] == i);
                }
            } else {
                if built[m] is Some {
                    assert(places[places.len() - 1] == m);
                }
                if places.contains(i) {
                    let k = choose|k: int| 0 <= k < places.len() && places[k] == i;
                    if k < earlier.len() {
                        assert(earlier[k] < built.drop_last().len());
                    }
                }
            }
        }
        places
    }
}

/// Whether the sensors were catalogued first and the others built behind them, all of them in their
/// order and with the same configuration, and the models are those that the others gave.
pub open spec fn sensors_first<S, A, C, M, F: Construct<S, A, C, M>>(
    all: Seq<ComponentDescriptor<F>>,
    config: CatalogView<u64>,
    before: RegistryView<S, A, C>,
    models: Seq<M>,
    after: RegistryView<S, A, C>,
    steps: (
        Seq<Option<M>>,
        Seq<RegistryView<S, A, C>>,
        Seq<Option<M>>,
        Seq<RegistryView<S, A, C>>,
        Seq<int>,
    ),
) -> bool {
    let sensors = component::of_kind(all, ComponentKind::Sensor);
    let others = component::evaluation_order(all);
    &&& each_built(sensors, sensors.len() as int, config, steps.0, steps.1)
    &&& each_built(others, others.len() as int, config, steps.2, steps.3)
    &&& steps.1[0] == before
    &&& steps.3[0] == steps.1[sensors.len() as int]
    &&& steps.3[others.len() as int] == after
    &&& steps.4.len() == models.len()
    &&& forall|k: int|
        0 <= k < models.len() ==> 0 <= #[trigger] steps.4[k] < steps.2.len() && steps.2[steps.4[k]]
            == Some(models[k])
    &&& forall|k: int, l: int|
        0 <= k < l < steps.4.len() ==> #[trigger] steps.4[k] < #[trigger] steps.4[l]
    &&& forall|i: int|
        0 <= i < steps.2.len() ==> (steps.4.contains(i) <==> (#[trigger] steps.2[i]) is Some)
}

/// Attaching components catalogues every sensor and builds every other component behind them.
pub proof fn every_discovered_component_is_attached<S, A, C, M, F: Construct<S, A, C, M>>(
    all: Seq<ComponentDescriptor<F>>,
    config: CatalogView<u64>,
    before: RegistryView<S, A, C>,
    models: Seq<M>,
    after: RegistryView<S, A, C>,
) -> (steps: (
    Seq<Option<M>>,
    Seq<RegistryView<S, A, C>>,
    Seq<Option<M>>,
    Seq<RegistryView<S, A, C>>,
    Seq<int>,
))
    requires
        component::attached(all, config, before, models, after),
    ensures
        sensors_first(all, config, before, models, after, steps),
{
    let sensors = component::of_kind(all, ComponentKind::Sensor);
    let others = component::evaluation_order(all);
    let (between, catalogued, built) = choose|
        between: RegistryView<S, A, C>,
        catalogued: Seq<Option<M>>,
        built: Seq<Option<M>>,
    |
        {
            &&& #[trigger] component::built_in_order(
                sensors,
                sensors.len(),
                config,
                before,
                catalogued,
                between,
            )
            &&& #[trigger] component::built_in_order(
                others,
                others.len(),
                config,
                between,
                built,
                after,
            )
            &&& models == component::models_built(built)
        };
    let first = every_component_is_built_in_its_turn(sensors, config, before, catalogued, between);
    let second = every_component_is_built_in_its_turn(others, config, between, built, after);
    let places = every_model_that_was_built_is_kept(built);
    (catalogued, first, built, second, places)
}

/// The root of a simulation has the model of its factory first, where there is one that gives a model,
/// and the discovered components behind it, which are built on the registry that the factory left.
pub proof fn the_factory_comes_before_what_was_discovered<
    S,
    A,
    C,
    M,
    F: Construct<S, A, C, M>,
    D: Construct<S, A, C, M>,
>(
    factory: Option<F>,
    discovered: Seq<ComponentDescriptor<D>>,
    config: CatalogView<u64>,
    before: RegistryView<S, A, C>,
    children: Seq<M>,
    after: RegistryView<S, A, C>,
) -> (parts: (Option<M>, Seq<M>, RegistryView<S, A, C>))
    requires
        simulation::rooted(factory, discovered, config, before, children, after),
    ensures
        factory is None ==> parts.0 is None && parts.2 == before,
        factory matches Some(factory) ==> factory.builds(before, config, parts.0, parts.2),
        component::attached(discovered, config, parts.2, parts.1, after),
        parts.0 is None ==> children == parts.1,
        parts.0 matches Some(model) ==> {
            &&& children.len() == parts.1.len() + 1
            &&& children[0] == model
            &&& forall|i: int| 0 <= i < parts.1.len() ==> #[trigger] parts.1[i] == children[i + 1]
        },
{
    let (first, between, rest) = choose|
        first: Seq<M>,
        between: RegistryView<S, A, C>,
        rest: Seq<M>,
    |
        {
            &&& #[trigger] simulation::modelled(factory, config, before, first, between)
            &&& #[trigger] component::attached(discovered, config, between, rest, after)
            &&& children == first + rest
        };
    match factory {
        Some(factory) => {
            let built = choose|built: Option<M>| #[trigger]
                factory.builds(before, config, built, between) && first
                    == component::models_built(seq![built]);
            reveal_with_fuel(component::models_built, 3);
            assert(seq![built].drop_last() =~= Seq::empty());
            match built {
                Some(model) => {
                    assert(first =~= seq![model]);
                },
                None => {
                    assert(children =~= rest);
                },
            }
            (built, rest, between)
        },
        None => {
            assert(children =~= rest);
            (None, rest, between)
        },
    }
}

} // verus!
