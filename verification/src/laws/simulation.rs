//! Laws of setting up a simulation, of its configuration and of how it ends.
use crate::catalog::CatalogView;
use crate::component;
use crate::component::{ComponentDescriptor, ComponentKind, Construct};
use crate::dynamic_model::{Composite, DynamicModel};
use crate::order;
use crate::order::OrderError;
use crate::plant;
use crate::plant::{AssemblyError, Plant, PlantBinding};
use crate::runtime::{Launched, RuntimeView};
use crate::runtime_control::ControlView;
use crate::sensor::model::{Ideal, Sensor};
use crate::simulation;
use crate::simulation::{Launch, ServiceEvent, SimulationView, StartError};
use crate::state_registry::RegistryView;
use crate::{snapshot, text};
use vstd::prelude::*;

verus! {

/// A simulation that nobody has set up has no model and no configuration, and cannot be started. It
/// ticks twice a second and steps a second; a model or a configuration is enough to start it.
pub proof fn a_simulation_needs_a_model_or_a_configuration<F, K>(
    control: K,
    factory: F,
    path: Seq<char>,
    any: SimulationView<F, K>,
)
    ensures
        ({
            let bare = SimulationView::<F, K>::unset(control);
            &&& !bare.is_configured()
            &&& bare.model_factory is None
            &&& bare.config_path is None
            &&& bare.tick_interval == 500_000_000
            &&& bare.dt_hours == 0x3F32_3456_789A_BCDF
            &&& bare.runtime_control == control
        }),
        (SimulationView { model_factory: Some(factory), ..any }).is_configured(),
        (SimulationView { config_path: Some(path), ..any }).is_configured(),
        any.model_factory is None && any.config_path is None ==> !any.is_configured(),
{
}

/// A control that is new runs in real time at the hour zero, and nobody has asked it to stop.
pub proof fn a_new_control_runs_in_real_time()
    ensures
        simulation::fresh_control() == (ControlView {
            paused: false,
            reset_requested: false,
            speed: 0x3FF0_0000_0000_0000,
            t_h: 0,
        }),
{
}

/// What is launched is what was set up, field by field.
pub proof fn a_launch_is_what_was_set_up<F, K>(launch: Launch<F, K>)
    ensures
        launch@.model_factory == launch.model_factory,
        launch@.tick_interval == launch.tick_interval,
        launch@.dt_hours == launch.dt_hours,
        launch@.numerical_method == launch.numerical_method,
        launch@.runtime_control == launch.runtime_control,
        launch.config_path matches Some(path) ==> launch@.config_path == Some(path@),
        launch.config_path is None ==> launch@.config_path is None,
{
}

/// A plant that stopped ends well. One that failed or panicked ends with its own reason, told apart,
/// and one that said nothing ends with that.
pub proof fn an_end_is_reported_with_its_reason(
    event: Option<ServiceEvent>,
    outcome: Result<(), String>,
)
    requires
        simulation::is_outcome(event, outcome),
    ensures
        outcome is Ok <==> event == Some(ServiceEvent::Stopped),
        event matches Some(ServiceEvent::Failed(reason)) ==> (outcome matches Err(message) && message@
            == "plant: encerrou com erro fatal: "@ + reason@),
        event matches Some(ServiceEvent::Panicked(reason)) ==> (outcome matches Err(message)
            && message@ == "plant: entrou em pânico: "@ + reason@),
        event is None ==> (outcome matches Err(message) && message@
            == "wait: a plant thread não reportou nada — canal de lifecycle fechado inesperadamente"@),
{
}

/// A configuration is empty where no file was named. Else it is what the document of the file holds,
/// and a file that cannot be read or parsed is named with the reason.
pub proof fn a_configuration_is_what_its_file_holds(
    path: Seq<char>,
    content: Seq<char>,
    reason: Seq<char>,
    any: Result<Seq<char>, Seq<char>>,
)
    ensures
        simulation::loaded(None, any) is Ok,
        simulation::loaded(None, any)->Ok_0.names.len() == 0,
        simulation::loaded(None, any)->Ok_0.items.len() == 0,
        simulation::loaded(Some(path), Err(reason)) == Err::<CatalogView<u64>, Seq<char>>(
            "plant thread: falha ao carregar config de '"@ + path + "': "@ + (
            "Erro lendo arquivo '"@ + path + "': "@ + reason),
        ),
        snapshot::read_document(path, Err(reason)) == Err::<CatalogView<u64>, Seq<char>>(
            "Erro lendo arquivo '"@ + path + "': "@ + reason,
        ),
        snapshot::toml_document(content) matches Err(cause) ==> {
            &&& snapshot::read_document(path, Ok(content)) == Err::<CatalogView<u64>, Seq<char>>(
                "Erro parseando TOML '"@ + path + "': "@ + cause,
            )
            &&& simulation::loaded(Some(path), Ok(content)) == Err::<CatalogView<u64>, Seq<char>>(
                "plant thread: falha ao carregar config de '"@ + path + "': "@ + (
                "Erro parseando TOML '"@ + path + "': "@ + cause),
            )
        },
        snapshot::toml_document(content) matches Ok(tree) ==> {
            let pairs = snapshot::flattened(tree, Seq::empty());
            let found = snapshot::read_document(path, Ok(content));
            &&& found is Ok
            &&& found->Ok_0.names.len() == pairs.len()
            &&& found->Ok_0.items.len() == pairs.len()
            &&& forall|i: int|
                0 <= i < pairs.len() ==> found->Ok_0.names[i] == (#[trigger] pairs[i]).0
                    && found->Ok_0.items[i] == pairs[i].1
            &&& simulation::loaded(Some(path), Ok(content)) == found
        },
{
}

/// A plant starts from the configuration of its file: it does not start where that cannot be loaded, and
/// else it comes up, or fails, over what was loaded and what was discovered.
pub proof fn a_plant_starts_from_its_configuration<
    S: Clone,
    A,
    C,
    M: DynamicModel,
    F: Construct<S, A, C, M>,
    K,
    D: Construct<S, A, C, M>,
    G: Fn(Sensor<Ideal>) -> (S, S),
>(
    set_up: SimulationView<F, K>,
    content: Result<Seq<char>, Seq<char>>,
    discovered: Seq<ComponentDescriptor<D>>,
    share: G,
    started: Result<(Plant<S, A, C, Composite<M>>, PlantBinding<S>), StartError>,
)
    requires
        simulation::starts(set_up, content, discovered, share, started),
    ensures
        ({
            let config = simulation::loaded(set_up.config_path, content);
            &&& config matches Err(reason) ==> (started matches Err(StartError::Config(message))
                && message@ == reason)
            &&& config is Ok ==> !(started matches Err(StartError::Config(_)))
            &&& started matches Err(StartError::Order(error)) ==> component::not_attached::<
                S,
                A,
                C,
                M,
                D,
            >(discovered, error)
            &&& started matches Ok((plant, binding)) ==> component::attachable::<S, A, C, M, D>(
                discovered,
            ) && exists|root: Composite<M>, registry: RegistryView<S, A, C>|
                {
                    &&& simulation::rooted(
                        set_up.model_factory,
                        discovered,
                        config->Ok_0,
                        RegistryView::<S, A, C>::empty(),
                        root.parts(),
                        registry,
                    )
                    &&& #[trigger] plant::assembles(
                        registry,
                        root,
                        share,
                        Ok::<(Plant<S, A, C, Composite<M>>, PlantBinding<S>), AssemblyError>(
                            (plant, binding),
                        ),
                    )
                }
        }),
{
}

/// A registry that is new holds nothing and waits for nothing.
pub proof fn a_new_registry_is_empty<S, A, C>()
    ensures
        ({
            let bare = RegistryView::<S, A, C>::empty();
            &&& bare.keys.len() == 0
            &&& bare.current.generation == 0
            &&& bare.current.values.len() == 0
            &&& bare.evaluation.values.len() == 0
            &&& bare.evaluation.commands.len() == 0
            &&& bare.evaluation.links.bindings.len() == 0
            &&& bare.evaluation.links.pending.len() == 0
            &&& bare.current.links.bindings.len() == 0
            &&& bare.current.links.pending.len() == 0
            &&& bare.sensor_links.pending.len() == 0
            &&& bare.actuator_links.pending.len() == 0
            &&& bare.sensors.names.len() == 0
            &&& bare.actuators.names.len() == 0
            &&& bare.controllers.names.len() == 0
            &&& bare.wf()
        }),
{
}

/// The names and the values of a configuration are those of its pairs, and pairs that are added come
/// behind those that are there.
pub proof fn a_configuration_keeps_its_pairs(
    pairs: Seq<(Seq<char>, u64)>,
    more: Seq<(Seq<char>, u64)>,
    i: int,
)
    requires
        0 <= i < pairs.len(),
    ensures
        snapshot::holding(pairs).names.len() == pairs.len(),
        snapshot::holding(pairs).items.len() == pairs.len(),
        snapshot::holding(pairs).names[i] == pairs[i].0,
        snapshot::holding(pairs).items[i] == pairs[i].1,
        snapshot::extended(snapshot::holding(pairs), more) == snapshot::holding(pairs + more),
{
    let both = snapshot::holding(pairs + more);
    let grown = snapshot::extended(snapshot::holding(pairs), more);
    assert(grown.names =~= both.names);
    assert(grown.items =~= both.items);
}

/// A plant that is exchanged leaves its place empty and what the outside holds of it in place; only a
/// plant that came up takes the place.
pub proof fn a_place_is_taken_by_a_plant_that_came_up<B, R>(
    runtime: RuntimeView<B, R>,
    running: R,
    binding: B,
    launched: Launched<B, R>,
)
    ensures
        runtime.vacated().current is None,
        runtime.vacated().binding == runtime.binding,
        runtime.vacated().shut_down == runtime.shut_down,
        ({
            let after = runtime.replaced(Launched::Ready(running, binding));
            &&& after.current == Some(running)
            &&& after.binding == binding
            &&& after.shut_down == runtime.shut_down
        }),
        !(launched is Ready) ==> runtime.replaced(launched) == runtime,
{
}

/// Whether a component of this name is on the list.
pub open spec fn is_listed<F>(list: Seq<ComponentDescriptor<F>>, name: Seq<char>) -> bool {
    exists|i: int| 0 <= i < list.len() && (#[trigger] list[i]).name@ == name
}

/// Whether the component belongs to a unit that is not on the list.
pub open spec fn lacks_its_unit<S, A, C, M, F: Construct<S, A, C, M>>(
    list: Seq<ComponentDescriptor<F>>,
    i: int,
) -> bool {
    list[i].construct.unit_name() matches Some(unit) && !is_listed(list, unit)
}

/// Components can be attached only where each of them that belongs to a unit finds it among them, and
/// the first that does not is the reason of a refusal.
pub proof fn a_missing_unit_is_named<S, A, C, M, F: Construct<S, A, C, M>>(
    list: Seq<ComponentDescriptor<F>>,
    error: OrderError,
)
    ensures
        component::have_their_units::<S, A, C, M, F>(list) <==> forall|i: int|
            0 <= i < list.len() ==> !#[trigger] lacks_its_unit::<S, A, C, M, F>(list, i),
        component::orphan_reported::<S, A, C, M, F>(list, error) ==> exists|i: int|
            {
                &&& 0 <= i < list.len()
                &&& #[trigger] lacks_its_unit::<S, A, C, M, F>(list, i)
                &&& error matches OrderError::MissingUnit { unit } && list[i].construct.unit_name()
                    == Some(unit@)
                &&& forall|j: int|
                    0 <= j < i ==> !#[trigger] lacks_its_unit::<S, A, C, M, F>(list, j)
            },
{
    assert forall|i: int| 0 <= i < list.len() implies component::is_orphan::<S, A, C, M, F>(
        list,
        #[trigger] list[i],
    ) == lacks_its_unit::<S, A, C, M, F>(list, i) by {
        an_orphan_lacks_its_unit::<S, A, C, M, F>(list, i);
    }
    if component::have_their_units::<S, A, C, M, F>(list) {
        assert forall|i: int| 0 <= i < list.len() implies !#[trigger] lacks_its_unit::<
            S,
            A,
            C,
            M,
            F,
        >(list, i) by {
            assert(!component::is_orphan::<S, A, C, M, F>(list, list[i]));
        }
    }
    if forall|i: int| 0 <= i < list.len() ==> !#[trigger] lacks_its_unit::<S, A, C, M, F>(list, i) {
        assert forall|i: int| 0 <= i < list.len() implies !component::is_orphan::<S, A, C, M, F>(
            list,
            #[trigger] list[i],
        ) by {
            assert(!lacks_its_unit::<S, A, C, M, F>(list, i));
        }
    }
    if component::orphan_reported::<S, A, C, M, F>(list, error) {
        let i = choose|i: int|
            {
                &&& 0 <= i < list.len()
                &&& component::is_orphan::<S, A, C, M, F>(list, #[trigger] list[i])
                &&& list[i].construct.unit_name() == Some(error->unit@)
                &&& forall|j: int|
                    0 <= j < i ==> !component::is_orphan::<S, A, C, M, F>(list, #[trigger] list[j])
            };
        assert(lacks_its_unit::<S, A, C, M, F>(list, i));
        assert forall|j: int| 0 <= j < i implies !#[trigger] lacks_its_unit::<S, A, C, M, F>(
            list,
            j,
        ) by {
            assert(!component::is_orphan::<S, A, C, M, F>(list, list[j]));
        }
    }
}

proof fn an_orphan_lacks_its_unit<S, A, C, M, F: Construct<S, A, C, M>>(
    list: Seq<ComponentDescriptor<F>>,
    i: int,
)
    requires
        0 <= i < list.len(),
    ensures
        component::is_orphan::<S, A, C, M, F>(list, list[i]) == lacks_its_unit::<S, A, C, M, F>(
            list,
            i,
        ),
{
    match list[i].construct.unit_name() {
        Some(unit) => {
            assert(order::carries_name(list, unit) == is_listed(list, unit));
        },
        None => {},
    }
}

/// What was discovered is attached exactly where the dynamic components offer no key twice, wait for
/// each other in no circle and find their units; and a refusal is for one of these reasons.
pub proof fn components_are_attached_or_refused<S, A, C, M, F: Construct<S, A, C, M>>(
    all: Seq<ComponentDescriptor<F>>,
    error: OrderError,
)
    ensures
        component::attachable::<S, A, C, M, F>(all) ==> ({
            let dynamic = component::of_kind(all, ComponentKind::Dynamic);
            &&& order::first_repeat(order::offered_keys(dynamic)) is None
            &&& order::arrangement(dynamic).1.len() == 0
            &&& component::have_their_units::<S, A, C, M, F>(order::arrangement(dynamic).0)
        }),
        component::attachable::<S, A, C, M, F>(all) && component::not_attached::<S, A, C, M, F>(
            all,
            error,
        ) ==> !(error is MissingUnit),
        component::not_attached::<S, A, C, M, F>(all, error) && error is MissingUnit
            ==> component::orphan_reported::<S, A, C, M, F>(
            order::arrangement(component::of_kind(all, ComponentKind::Dynamic)).0,
            error,
        ),
        component::not_attached::<S, A, C, M, F>(all, error) && !(error is MissingUnit)
            ==> order::refused(component::of_kind(all, ComponentKind::Dynamic), error),
{
    let list = order::arrangement(component::of_kind(all, ComponentKind::Dynamic)).0;
    if component::attachable::<S, A, C, M, F>(all) && component::not_attached::<S, A, C, M, F>(
        all,
        error,
    ) && error is MissingUnit {
        let i = choose|i: int|
            {
                &&& 0 <= i < list.len()
                &&& component::is_orphan::<S, A, C, M, F>(list, #[trigger] list[i])
                &&& list[i].construct.unit_name() == Some(error->unit@)
                &&& forall|j: int|
                    0 <= j < i ==> !component::is_orphan::<S, A, C, M, F>(list, #[trigger] list[j])
            };
        assert(!component::is_orphan::<S, A, C, M, F>(list, list[i]));
    }
}

/// The message of a refusal names the key and both components that offer it, the components that are
/// stuck, or the unit that is missing.
pub proof fn a_refusal_names_what_is_wrong(error: OrderError)
    ensures
        error matches OrderError::DuplicateOffer { key, first, second } ==> error.text()
            == "chave '"@ + key@ + "' ofertada por dois componentes da fase (A): '"@ + first@
            + "' e '"@ + second@
            + "' — StateRegistry::subscribe() sobrescreveria o índice de um dos dois silenciosamente"@,
        error matches OrderError::Cycle { stuck } ==> error.text()
            == "ciclo real de dependência na fase (A) — nenhum destes componentes consegue progresso: "@
            + order::debug_list(text::texts(stuck@))
            + ". Verifique `needs`/`offers`/`after` de cada um."@,
        error matches OrderError::MissingUnit { unit } ==> error.text() == "'"@ + unit@
            + "' deveria já ter sido construída (offer_instance) antes de suas tarefas — `after` deveria garantir isso"@,
{
}

} // verus!
