//! The descriptors by which declared components announce themselves.
use crate::component::{ComponentDescriptor, ComponentKind};
use crate::declaration::model::ModelPlan;
use crate::declaration::parts::{ActuatorPlan, ControllerPlan, SensorPlan};
use crate::declaration::tasks::TaskPlan;
use crate::text;
use vstd::prelude::*;

verus! {

/// Whether a descriptor says this.
pub open spec fn announces<F>(
    descriptor: ComponentDescriptor<F>,
    name: Seq<char>,
    kind: ComponentKind,
    after: Seq<Seq<char>>,
    needs: Seq<Seq<char>>,
    offers: Seq<Seq<char>>,
    construct: F,
) -> bool {
    &&& descriptor.name@ == name
    &&& descriptor.kind == kind
    &&& text::texts(descriptor.after@) == after
    &&& text::texts(descriptor.needs@) == needs
    &&& text::texts(descriptor.offers@) == offers
    &&& descriptor.construct == construct
}

fn no_names() -> (names: Vec<String>)
    ensures
        text::texts(names@) == Seq::<Seq<char>>::empty(),
{
    let names: Vec<String> = Vec::new();
    assert(text::texts(names@) =~= Seq::<Seq<char>>::empty());
    names
}

/// A declared model comes after the models that it names. Its keys do not order it.
pub fn announce_model<F>(plan: &ModelPlan, construct: F) -> (descriptor: ComponentDescriptor<F>)
    ensures
        announces(
            descriptor,
            plan.name@,
            ComponentKind::Dynamic,
            text::texts(plan.after@),
            Seq::empty(),
            Seq::empty(),
            construct,
        ),
{
    ComponentDescriptor {
        name: plan.name.clone(),
        kind: ComponentKind::Dynamic,
        after: text::copy_texts(&plan.after),
        needs: no_names(),
        offers: no_names(),
        construct,
    }
}

/// A task comes after its unit, and after the task that offers what it needs.
pub fn announce_task<F>(plan: &TaskPlan, construct: F) -> (descriptor: ComponentDescriptor<F>)
    ensures
        announces(
            descriptor,
            plan.name@,
            ComponentKind::Dynamic,
            seq![plan.after@],
            text::texts(plan.needs@),
            text::texts(plan.offers@),
            construct,
        ),
{
    let mut after: Vec<String> = Vec::new();
    after.push(plan.after.clone());
    assert(text::texts(after@) =~= seq![plan.after@]);
    ComponentDescriptor {
        name: plan.name.clone(),
        kind: ComponentKind::Dynamic,
        after,
        needs: text::copy_texts(&plan.needs),
        offers: text::copy_texts(&plan.offers),
        construct,
    }
}

/// A declared actuator, in its phase.
pub fn announce_actuator<F>(plan: &ActuatorPlan, construct: F) -> (descriptor: ComponentDescriptor<
    F,
>)
    ensures
        announces(
            descriptor,
            plan.name@,
            ComponentKind::Actuator,
            Seq::empty(),
            Seq::empty(),
            Seq::empty(),
            construct,
        ),
{
    ComponentDescriptor {
        name: plan.name.clone(),
        kind: ComponentKind::Actuator,
        after: no_names(),
        needs: no_names(),
        offers: no_names(),
        construct,
    }
}

/// A declared sensor, which is only catalogued.
pub fn announce_sensor<F>(plan: &SensorPlan, construct: F) -> (descriptor: ComponentDescriptor<F>)
    ensures
        announces(
            descriptor,
            plan.name@,
            ComponentKind::Sensor,
            Seq::empty(),
            Seq::empty(),
            Seq::empty(),
            construct,
        ),
{
    ComponentDescriptor {
        name: plan.name.clone(),
        kind: ComponentKind::Sensor,
        after: no_names(),
        needs: no_names(),
        offers: no_names(),
        construct,
    }
}

/// A declared controller, in its phase.
pub fn announce_controller<F>(plan: &ControllerPlan, construct: F) -> (descriptor:
    ComponentDescriptor<F>)
    ensures
        announces(
            descriptor,
            plan.name@,
            ComponentKind::Controller,
            Seq::empty(),
            Seq::empty(),
            Seq::empty(),
            construct,
        ),
{
    ComponentDescriptor {
        name: plan.name.clone(),
        kind: ComponentKind::Controller,
        after: no_names(),
        needs: no_names(),
        offers: no_names(),
        construct,
    }
}

} // verus!
