use monjolo::component::{ComponentDescriptor, ComponentKind};
use monjolo::order::{sort_phase_a, OrderError};

fn names(list: &[&str]) -> Vec<String> {
    list.iter().map(|name| name.to_string()).collect()
}

fn component(
    name: &str,
    after: &[&str],
    needs: &[&str],
    offers: &[&str],
) -> ComponentDescriptor<()> {
    ComponentDescriptor {
        name: name.to_string(),
        kind: ComponentKind::Dynamic,
        after: names(after),
        needs: names(needs),
        offers: names(offers),
        construct: (),
    }
}

fn sorted_names(all: Vec<ComponentDescriptor<()>>) -> Vec<String> {
    match sort_phase_a(all) {
        Ok(sorted) => sorted.into_iter().map(|component| component.name).collect(),
        Err(error) => panic!("{}", error.message()),
    }
}

#[test]
fn sort_phase_a_does_not_guarantee_order_against_an_unlisted_sibling() {
    let x = component("X", &[], &[], &[]);
    let y1 = component("Y1", &["X"], &[], &[]);
    let y2 = component("Y2", &["X"], &[], &[]);
    let z = component("Z", &["Y1"], &[], &[]);

    let sorted = sorted_names(vec![z, x, y1, y2]);
    let position = |name: &str| sorted.iter().position(|other| other == name).unwrap();

    assert!(position("X") < position("Y1"));
    assert!(position("Y1") < position("Z"));
    assert!(position("Z") < position("Y2"));
}

#[test]
fn sort_phase_a_handles_pure_chains_transitively_for_free() {
    let a = component("ChainA", &[], &[], &[]);
    let b = component("ChainB", &["ChainA"], &[], &[]);
    let c = component("ChainC", &["ChainB"], &[], &[]);

    let sorted = sorted_names(vec![c, a, b]);
    let position = |name: &str| sorted.iter().position(|other| other == name).unwrap();

    assert!(position("ChainA") < position("ChainB"));
    assert!(position("ChainB") < position("ChainC"));
    assert!(position("ChainA") < position("ChainC"));
}

#[test]
fn sort_phase_a_orders_cross_unit_tasks_by_matching_needs_to_offers_with_no_after_declared() {
    let reactor_temperature =
        component("Reactor::temperature", &[], &[], &["reactor.temperature"]);
    let separator_pressure = component(
        "Separator::pressure",
        &[],
        &["reactor.temperature"],
        &["separator.pressure"],
    );
    let reactor_outlet_flow =
        component("Reactor::outlet_flow", &[], &["separator.pressure"], &["flows.stream7"]);

    let sorted = sorted_names(vec![reactor_outlet_flow, separator_pressure, reactor_temperature]);
    let position = |name: &str| sorted.iter().position(|other| other == name).unwrap();

    assert!(position("Reactor::temperature") < position("Separator::pressure"));
    assert!(position("Separator::pressure") < position("Reactor::outlet_flow"));
}

#[test]
#[should_panic(expected = "ciclo real de dependência")]
fn sort_phase_a_panics_on_a_real_cycle() {
    let a = component("A", &[], &["b.output"], &["a.output"]);
    let b = component("B", &[], &["a.output"], &["b.output"]);

    sorted_names(vec![a, b]);
}

#[test]
#[should_panic(expected = "ofertada por dois componentes")]
fn sort_phase_a_panics_on_duplicate_offer() {
    let a = component("A", &[], &[], &["duplicated.key"]);
    let b = component("B", &[], &[], &["duplicated.key"]);

    sorted_names(vec![a, b]);
}

#[test]
fn a_cycle_names_all_that_are_stuck() {
    let a = component("A", &[], &["b.output"], &["a.output"]);
    let b = component("B", &[], &["a.output"], &["b.output"]);
    let free = component("Free", &[], &[], &[]);
    let after_a = component("AfterA", &["A"], &[], &[]);
    let outcome = sort_phase_a(vec![a, free, b, after_a]);
    match outcome {
        Err(OrderError::Cycle { stuck }) => {
            assert_eq!(stuck, vec!["A", "B", "AfterA"]);
            let message = OrderError::Cycle { stuck }.message();
            assert!(message.contains("[\"A\", \"B\", \"AfterA\"]"), "{message}");
        }
        _ => panic!("expected a cycle"),
    }
}

#[test]
fn a_duplicate_offer_names_the_key_and_both_components() {
    let a = component("A", &[], &[], &["free", "taken"]);
    let b = component("B", &[], &[], &["taken"]);
    match sort_phase_a(vec![a, b]) {
        Err(OrderError::DuplicateOffer { key, first, second }) => {
            assert_eq!((key.as_str(), first.as_str(), second.as_str()), ("taken", "A", "B"));
        }
        _ => panic!("expected a duplicate offer"),
    }
}

#[test]
fn names_that_nobody_has_hold_nothing_up() {
    let a = component("A", &["Unknown"], &["unknown.key"], &[]);
    assert_eq!(sorted_names(vec![a]), vec!["A"]);
}

#[test]
fn components_without_an_order_keep_theirs() {
    let all = vec![
        component("C", &[], &[], &[]),
        component("A", &[], &[], &[]),
        component("B", &[], &[], &[]),
    ];
    assert_eq!(sorted_names(all), vec!["C", "A", "B"]);
}

#[test]
fn of_the_orders_that_are_possible_the_first_declared_is_found() {
    let sorted = sorted_names(vec![
        component("D", &["B"], &[], &[]),
        component("C", &[], &["k"], &[]),
        component("A", &[], &[], &[]),
        component("B", &[], &[], &["k"]),
    ]);
    assert_eq!(sorted, vec!["A", "B", "D", "C"]);
}

#[test]
fn ordering_twice_changes_nothing() {
    let all = || {
        vec![
            component("C", &["B"], &[], &["c"]),
            component("B", &[], &["a"], &["b"]),
            component("X", &[], &[], &[]),
            component("A", &[], &[], &["a"]),
        ]
    };
    let once = match sort_phase_a(all()) {
        Ok(sorted) => sorted,
        Err(error) => panic!("{}", error.message()),
    };
    let first: Vec<String> = once.iter().map(|component| component.name.clone()).collect();
    assert_eq!(first, vec!["X", "A", "B", "C"]);
    assert_eq!(sorted_names(once), first);
}

#[test]
fn a_missing_unit_is_named() {
    assert_eq!(
        OrderError::MissingUnit { unit: "Tank".to_string() }.message(),
        "'Tank' deveria já ter sido construída (offer_instance) antes de suas tarefas — `after` deveria garantir isso"
    );
}
