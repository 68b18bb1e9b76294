use crate::action::Action;
use crate::event::activeness::Activeness;
use crate::event::component::Components;
use vstd::prelude::*;

verus! {

/// A user defined structure: its id, the names of its parameters, and the
/// actions and components that each of its instances gets.
pub struct ComponentClass {
    pub id: usize,
    pub parameters: Vec<String>,
    pub actions: Vec<Action>,
    pub action_activeness: Activeness,
    pub components: Components,
}

impl ComponentClass {
    pub fn new(
        id: usize,
        parameters: Vec<String>,
        actions: Vec<Action>,
        action_activeness: Activeness,
        components: Components,
    ) -> (r: Self)
        ensures
            r.id == id,
            r.parameters == parameters,
            r.actions == actions,
            r.action_activeness == action_activeness,
            r.components == components,
    {
        Self { id, parameters, actions, action_activeness, components }
    }
}

} // verus!
