use crate::context::{Context, ContextView};
use crate::error::RuntimeError;
use crate::event::activeness::Activeness;
use crate::event::component::Components;
use crate::event::operations::{
    activeness_set, activeness_toggled, draw_effect_rect, draw_rect, draw_rect_outline, drawn,
    move_pos, move_pos_phase, moved, param_value, rotate_vec, rotated, set_activeness, summed,
    toggle_activeness, top_into, top_taken, value_set, DrawKind,
};
use crate::variable::stack::{
    lookup, lookup_typed, updated, vec_updated, Layers, Stack, VariableMap,
};
use crate::variable::values::{
    lemma_vec_view, variables_view, ValueView, VariableValue, VariableView,
};
use crate::variable::{Variable, VariableLocation};
use std::collections::HashMap;
use vstd::prelude::*;

verus! {

broadcast use vstd::std_specs::hash::group_hash_axioms;

/// A call of an operation: the id of the operation, the actual parameters,
/// the events of the body of the operation, and its static variables.
#[derive(Debug)]
pub struct Event {
    pub id: usize,
    pub params: Vec<Variable>,
    pub events: Vec<Event>,
    pub vars: VariableMap,
}

/// An operation: its id, the names of its operands, its body, the operands
/// that are iterated over, the main iterator first, and its static
/// variables.
#[derive(Debug)]
pub struct Operation {
    pub id: usize,
    pub operands: Vec<String>,
    pub events: Vec<Event>,
    pub iterators: Vec<usize>,
    pub variables: VariableMap,  // static values for each operation
}

/// The operations by their ids.
pub type Operations = HashMap<usize, Operation>;

/// What an event is to the contracts.
pub struct EventView {
    pub id: usize,
    pub params: Seq<VariableView>,
    pub events: Seq<EventView>,
    pub vars: Map<Seq<char>, ValueView>,
}

/// What of an operation a call needs: the names of its operands and the
/// operands that are iterated over.
pub struct OperationView {
    pub id: usize,
    pub operands: Seq<Seq<char>>,
    pub events: Seq<EventView>,
    pub iterators: Seq<usize>,
    pub variables: Map<Seq<char>, ValueView>,
}

/// The view of an event.
pub open spec fn event_view(e: Event) -> EventView
    decreases e,
{
    EventView {
        id: e.id,
        params: variables_view(e.params@),
        events: Seq::new(
            e.events.len() as nat,
            |i: int|
                if 0 <= i < e.events.len() {
                    event_view(e.events[i])
                } else {
                    EventView {
                        id: 0,
                        params: Seq::empty(),
                        events: Seq::empty(),
                        vars: Map::empty(),
                    }
                },
        ),
        vars: e.vars@,
    }
}

/// The views of a list of events.
pub open spec fn events_view(l: Seq<Event>) -> Seq<EventView> {
    l.map_values(|e: Event| event_view(e))
}

impl View for Event {
    type V = EventView;

    open spec fn view(&self) -> EventView {
        event_view(*self)
    }
}

impl View for Operation {
    type V = OperationView;

    open spec fn view(&self) -> OperationView {
        OperationView {
            id: self.id,
            operands: self.operands@.map_values(|s: String| s@),
            events: events_view(self.events@),
            iterators: self.iterators@,
            variables: self.variables@,
        }
    }
}

/// The events of the view of an event are the views of its events.
pub proof fn lemma_event_view(e: Event)
    ensures
        event_view(e).events == events_view(e.events@),
{
    assert(event_view(e).events =~= events_view(e.events@));
}

/// The state that a running program works on: the context, the layers of
/// the stack, and the activeness of the actions.
pub struct Machine {
    pub context: ContextView,
    pub layers: Layers,
    pub flags: Map<Seq<char>, bool>,
}

impl Machine {
    /// The machine with other layers, if there are any.
    pub open spec fn with_layers(self, layers: Result<Layers, RuntimeError>) -> Result<
        Machine,
        RuntimeError,
    > {
        match layers {
            Ok(l) => Ok(Machine { layers: l, ..self }),
            Err(e) => Err(e),
        }
    }

    /// The machine with other flags, if there are any.
    pub open spec fn with_flags(self, flags: Result<Map<Seq<char>, bool>, RuntimeError>) -> Result<
        Machine,
        RuntimeError,
    > {
        match flags {
            Ok(f) => Ok(Machine { flags: f, ..self }),
            Err(e) => Err(e),
        }
    }

    /// The machine with another context, if there is one.
    pub open spec fn with_context(self, context: Result<ContextView, RuntimeError>) -> Result<
        Machine,
        RuntimeError,
    > {
        match context {
            Ok(c) => Ok(Machine { context: c, ..self }),
            Err(e) => Err(e),
        }
    }
}

/// Whether an id names a built-in operation.
pub open spec fn builtin_id(id: usize) -> bool {
    1 <= id <= 13
}

/// What a built-in operation does to the machine.
pub open spec fn run_builtin(id: usize, params: Seq<VariableView>, m: Machine) -> Result<
    Machine,
    RuntimeError,
> {
    if id == 1 {
        m.with_layers(moved(params, m.context, m.layers, true))
    } else if id == 2 {
        m.with_layers(moved(params, m.context, m.layers, false))
    } else if id == 3 {
        m.with_context(drawn(params, m.context, m.layers, DrawKind::Outline))
    } else if id == 4 {
        m.with_flags(activeness_set(params, m.context, m.layers, m.flags, true))
    } else if id == 5 {
        m.with_flags(activeness_set(params, m.context, m.layers, m.flags, false))
    } else if id == 6 {
        m.with_layers(value_set(params, m.context, m.layers))
    } else if id == 7 {
        m.with_layers(rotated(params, m.context, m.layers))
    } else if id == 8 {
        m.with_layers(top_taken(params, m.context, m.layers))
    } else if id == 9 {
        m.with_layers(summed(params, m.context, m.layers, false))
    } else if id == 10 {
        m.with_context(drawn(params, m.context, m.layers, DrawKind::Filled))
    } else if id == 11 {
        m.with_context(drawn(params, m.context, m.layers, DrawKind::Effect))
    } else if id == 12 {
        m.with_flags(activeness_toggled(params, m.context, m.layers, m.flags))
    } else {
        m.with_layers(summed(params, m.context, m.layers, true))
    }
}

/// The values of the first `n` parameters, or the error of the first that
/// has none.
pub open spec fn param_values(
    params: Seq<VariableView>,
    context: ContextView,
    layers: Layers,
    n: nat,
) -> Result<Seq<ValueView>, RuntimeError>
    decreases n,
{
    if n == 0 {
        Ok(Seq::empty())
    } else {
        match param_values(params, context, layers, (n - 1) as nat) {
            Err(e) => Err(e),
            Ok(prev) => match param_value(params[n - 1], context, layers) {
                Err(e) => Err(e),
                Ok(v) => Ok(prev.push(v)),
            },
        }
    }
}

/// The values of the first `n` parameters, each asked for as a value of its
/// declared type.
pub open spec fn typed_param_values(
    params: Seq<VariableView>,
    context: ContextView,
    layers: Layers,
    n: nat,
) -> Result<Seq<ValueView>, RuntimeError>
    decreases n,
{
    if n == 0 {
        Ok(Seq::empty())
    } else {
        match typed_param_values(params, context, layers, (n - 1) as nat) {
            Err(e) => Err(e),
            Ok(prev) => match params[n - 1].typed_value(
                params[n - 1].typ,
                context.width,
                context.height,
                layers,
            ) {
                Err(e) => Err(e),
                Ok(v) => Ok(prev.push(v)),
            },
        }
    }
}

/// The layer after the first `n` names got their values; a name that the
/// layer holds already is an error.
pub open spec fn bound_layer(
    names: Seq<Seq<char>>,
    values: Seq<ValueView>,
    layer: Map<Seq<char>, ValueView>,
    n: nat,
) -> Result<Map<Seq<char>, ValueView>, RuntimeError>
    decreases n,
{
    if n == 0 {
        Ok(layer)
    } else {
        match bound_layer(names, values, layer, (n - 1) as nat) {
            Err(e) => Err(e),
            Ok(l) => if l.contains_key(names[n - 1]) {
                Err(RuntimeError::DuplicateVariable)
            } else {
                Ok(l.insert(names[n - 1], values[n - 1]))
            },
        }
    }
}

/// The stack at the start of a call: the values of the actual parameters
/// are taken in the stack of the caller, and a new layer holds the static
/// variables and, under the names of the operands, those values.
pub open spec fn pushed(
    operands: Seq<Seq<char>>,
    params: Seq<VariableView>,
    vars: Map<Seq<char>, ValueView>,
    context: ContextView,
    layers: Layers,
) -> Result<Layers, RuntimeError> {
    if params.len() != operands.len() {
        Err(RuntimeError::ParameterCount)
    } else {
        match param_values(params, context, layers, params.len()) {
            Err(e) => Err(e),
            Ok(values) => match bound_layer(operands, values, vars, operands.len()) {
                Err(e) => Err(e),
                Ok(layer) => Ok(layers.push(layer)),
            },
        }
    }
}

/// How often the body of a call runs: once without iterators, and else as
/// often as the collection of the main iterator has elements.
pub open spec fn iterations(
    iterators: Seq<usize>,
    params: Seq<VariableView>,
    context: ContextView,
    layers: Layers,
) -> Result<nat, RuntimeError> {
    if iterators.len() == 0 {
        Ok(1)
    } else if iterators[0] >= params.len() {
        Err(RuntimeError::ParameterCount)
    } else {
        match param_value(params[iterators[0] as int], context, layers) {
            Err(e) => Err(e),
            Ok(ValueView::Vec(v)) => Ok(v.len()),
            Ok(_) => Err(RuntimeError::TypeMismatch),
        }
    }
}

/// Whether the operand `i` is among the first `n` iterators.
pub open spec fn iterated(iterators: Seq<usize>, i: int, n: nat) -> bool
    decreases n,
{
    n > 0 && (iterated(iterators, i, (n - 1) as nat) || iterators[n - 1] == i)
}

/// Whether the first `n` iterators name operands.
pub open spec fn iterators_in_range(iterators: Seq<usize>, count: nat, n: nat) -> bool
    decreases n,
{
    n == 0 || (iterators_in_range(iterators, count, (n - 1) as nat) && iterators[n - 1] < count)
}

/// The layer in which the first `n` iterators are declared, each under the
/// name of its operand and without a value yet.
pub open spec fn declared(
    iterators: Seq<usize>,
    operands: Seq<Seq<char>>,
    n: nat,
) -> Result<Map<Seq<char>, ValueView>, RuntimeError>
    decreases n,
{
    if n == 0 {
        Ok(Map::empty())
    } else {
        match declared(iterators, operands, (n - 1) as nat) {
            Err(e) => Err(e),
            Ok(l) => if l.contains_key(operands[iterators[n - 1] as int]) {
                Err(RuntimeError::DuplicateVariable)
            } else {
                Ok(l.insert(operands[iterators[n - 1] as int], ValueView::Any(0)))
            },
        }
    }
}

/// The layers after the first `n` operands that are iterated over got, for
/// the iteration `it`, the value of the element of their collection at the
/// place `it`, counted round the collection.
pub open spec fn elements_bound(
    operands: Seq<Seq<char>>,
    iterators: Seq<usize>,
    values: Seq<ValueView>,
    context: ContextView,
    layers: Layers,
    it: nat,
    n: nat,
) -> Result<Layers, RuntimeError>
    decreases n,
{
    if n == 0 {
        Ok(layers)
    } else {
        match elements_bound(operands, iterators, values, context, layers, it, (n - 1) as nat) {
            Err(e) => Err(e),
            Ok(l) => if !iterated(iterators, n - 1, iterators.len()) {
                Ok(l)
            } else {
                match values[n - 1] {
                    ValueView::Vec(v) => if v.len() == 0 {
                        Err(RuntimeError::EmptyCollection)
                    } else {
                        match param_value(v[(it as int) % (v.len() as int)], context, l) {
                            Err(e) => Err(e),
                            Ok(element) => Ok(updated(l, operands[n - 1], element)),
                        }
                    },
                    _ => Err(RuntimeError::TypeMismatch),
                }
            },
        }
    }
}

/// The layers after the values of the first `n` operands that are iterated
/// over were written back, after the iteration `it`, to the elements of
/// their collections at the place `it`, counted round the collection. An
/// operand whose collection is not found under its name and the declared
/// type of its parameter is passed over.
pub open spec fn elements_saved(
    operands: Seq<Seq<char>>,
    iterators: Seq<usize>,
    params: Seq<VariableView>,
    layers: Layers,
    it: nat,
    n: nat,
) -> Result<Layers, RuntimeError>
    decreases n,
{
    if n == 0 {
        Ok(layers)
    } else {
        match elements_saved(operands, iterators, params, layers, it, (n - 1) as nat) {
            Err(e) => Err(e),
            Ok(l) => if !iterated(iterators, n - 1, iterators.len()) {
                Ok(l)
            } else {
                match lookup(l, operands[n - 1]) {
                    None => Err(RuntimeError::UnknownVariable),
                    Some(new_val) => match lookup_typed(l, operands[n - 1], params[n - 1].typ) {
                        None => Ok(l),
                        Some(ValueView::Vec(v)) => if v.len() == 0 {
                            Err(RuntimeError::EmptyCollection)
                        } else {
                            vec_updated(
                                l,
                                operands[n - 1],
                                (it as int) % (v.len() as int),
                                new_val,
                                ValueView::Vec(v).type_of(),
                            )
                        },
                        Some(_) => Err(RuntimeError::TypeMismatch),
                    },
                }
            },
        }
    }
}

/// The layers of the caller after the values that the first `n` operands
/// have in the layer of the call were copied back to the actual parameters
/// that name variables of the scope.
pub open spec fn copied_back(
    operands: Seq<Seq<char>>,
    params: Seq<VariableView>,
    layer: Map<Seq<char>, ValueView>,
    layers: Layers,
    n: nat,
) -> Result<Layers, RuntimeError>
    decreases n,
{
    if n == 0 {
        Ok(layers)
    } else {
        match copied_back(operands, params, layer, layers, (n - 1) as nat) {
            Err(e) => Err(e),
            Ok(l) => if !layer.contains_key(operands[n - 1]) {
                Err(RuntimeError::UnknownVariable)
            } else if params[n - 1].location == VariableLocation::Scope {
                params[n - 1].assigned(l, layer[operands[n - 1]])
            } else {
                Ok(l)
            },
        }
    }
}

impl EventView {
    /// What the event does to the machine: a built-in operation is done, any
    /// other operation is called.
    pub open spec fn run(self, m: Machine, ops: Map<usize, Operation>) -> Result<
        Machine,
        RuntimeError,
    >
        decreases self, 4nat, 0nat,
    {
        if builtin_id(self.id) {
            run_builtin(self.id, self.params, m)
        } else {
            self.run_operation(m, ops)
        }
    }

    /// What the call of an operation does to the machine.
    ///
    /// The values of the actual parameters are bound under the names of the
    /// operands in a new layer that also holds the static variables. The
    /// operands that are iterated over are declared in a further layer. The
    /// body runs once for each element of the collection of the main
    /// iterator, or once if nothing is iterated over. Then both layers are
    /// taken off, and the values of the operands are copied back to the
    /// actual parameters that name variables of the scope.
    pub open spec fn run_operation(self, m: Machine, ops: Map<usize, Operation>) -> Result<
        Machine,
        RuntimeError,
    >
        decreases self, 3nat, 0nat,
    {
        if !ops.contains_key(self.id) {
            Err(RuntimeError::UnknownOperation)
        } else {
            let op = ops[self.id]@;
            match pushed(op.operands, self.params, self.vars, m.context, m.layers) {
                Err(e) => Err(e),
                Ok(l1) => match iterations(op.iterators, self.params, m.context, l1) {
                    Err(e) => Err(e),
                    Ok(count) => if !iterators_in_range(
                        op.iterators,
                        self.params.len(),
                        op.iterators.len(),
                    ) {
                        Err(RuntimeError::ParameterCount)
                    } else {
                        match declared(op.iterators, op.operands, op.iterators.len()) {
                            Err(e) => Err(e),
                            Ok(layer) => match self.run_iterations(
                                Machine { layers: l1.push(layer), ..m },
                                ops,
                                count,
                            ) {
                                Err(e) => Err(e),
                                Ok(m2) => if m2.layers.len() < 2 {
                                    Err(RuntimeError::Unsupported)
                                } else {
                                    m2.with_layers(
                                        copied_back(
                                            op.operands,
                                            self.params,
                                            m2.layers.drop_last().last(),
                                            m2.layers.drop_last().drop_last(),
                                            op.operands.len(),
                                        ),
                                    )
                                },
                            },
                        }
                    },
                },
            }
        }
    }

    /// What the first `done` iterations of the body do to the machine.
    pub open spec fn run_iterations(
        self,
        m: Machine,
        ops: Map<usize, Operation>,
        done: nat,
    ) -> Result<Machine, RuntimeError>
        decreases self, 2nat, done,
    {
        if done == 0 {
            Ok(m)
        } else {
            match self.run_iterations(m, ops, (done - 1) as nat) {
                Err(e) => Err(e),
                Ok(m1) => self.run_iteration(m1, ops, (done - 1) as nat),
            }
        }
    }

    /// What the iteration `it` of the body does to the machine: the
    /// operands that are iterated over get the elements of their
    /// collections at the place `it`, the events of the body run, and the
    /// values of those operands are written back to the elements.
    pub open spec fn run_iteration(self, m1: Machine, ops: Map<usize, Operation>, it: nat) -> Result<
        Machine,
        RuntimeError,
    >
        decreases self, 1nat, 0nat,
    {
        if !ops.contains_key(self.id) {
            Err(RuntimeError::UnknownOperation)
        } else {
            let op = ops[self.id]@;
            match typed_param_values(self.params, m1.context, m1.layers, self.params.len()) {
                Err(e) => Err(e),
                Ok(values) => match elements_bound(
                    op.operands,
                    op.iterators,
                    values,
                    m1.context,
                    m1.layers,
                    it,
                    self.params.len(),
                ) {
                    Err(e) => Err(e),
                    Ok(l2) => match run_events(
                        self.events,
                        Machine { layers: l2, ..m1 },
                        ops,
                        self.events.len(),
                    ) {
                        Err(e) => Err(e),
                        Ok(m3) => m3.with_layers(
                            elements_saved(
                                op.operands,
                                op.iterators,
                                self.params,
                                m3.layers,
                                it,
                                self.params.len(),
                            ),
                        ),
                    },
                },
            }
        }
    }
}

/// What the first `n` events do to the machine, one after the other; an
/// error ends the run.
pub open spec fn run_events(
    events: Seq<EventView>,
    m: Machine,
    ops: Map<usize, Operation>,
    n: nat,
) -> Result<Machine, RuntimeError>
    decreases events, 0nat, n,
{
    if n == 0 || n > events.len() {
        Ok(m)
    } else {
        match run_events(events, m, ops, (n - 1) as nat) {
            Err(e) => Err(e),
            Ok(m1) => events[n - 1].run(m1, ops),
        }
    }
}

/// The views of a list of values.
pub open spec fn values_view(l: Seq<VariableValue>) -> Seq<ValueView> {
    l.map_values(|v: VariableValue| v@)
}

/// The views of a list of names.
pub open spec fn names_view(l: Seq<String>) -> Seq<Seq<char>> {
    l.map_values(|s: String| s@)
}

/// The machine that a context, a stack and the activeness of the actions
/// make up.
pub open spec fn machine(context: ContextView, layers: Layers, flags: Map<Seq<char>, bool>) -> Machine {
    Machine { context, layers, flags }
}

/// An error among the first `k` parameters is the error of any more.
pub proof fn lemma_param_values_error(
    params: Seq<VariableView>,
    context: ContextView,
    layers: Layers,
    k: nat,
    n: nat,
)
    requires
        param_values(params, context, layers, k) is Err,
        k <= n,
    ensures
        param_values(params, context, layers, n) == param_values(params, context, layers, k),
    decreases n,
{
    if k < n {
        lemma_param_values_error(params, context, layers, k, (n - 1) as nat);
    }
}

/// There are as many values as parameters.
pub proof fn lemma_typed_param_values_len(
    params: Seq<VariableView>,
    context: ContextView,
    layers: Layers,
    n: nat,
)
    ensures
        match typed_param_values(params, context, layers, n) {
            Ok(values) => values.len() == n,
            Err(_) => true,
        },
    decreases n,
{
    if n > 0 {
        lemma_typed_param_values_len(params, context, layers, (n - 1) as nat);
    }
}

/// An error among the first `k` parameters is the error of any more.
pub proof fn lemma_typed_param_values_error(
    params: Seq<VariableView>,
    context: ContextView,
    layers: Layers,
    k: nat,
    n: nat,
)
    requires
        typed_param_values(params, context, layers, k) is Err,
        k <= n,
    ensures
        typed_param_values(params, context, layers, n) == typed_param_values(
            params,
            context,
            layers,
            k,
        ),
    decreases n,
{
    if k < n {
        lemma_typed_param_values_error(params, context, layers, k, (n - 1) as nat);
    }
}

/// An error among the first `k` names is the error of any more.
pub proof fn lemma_bound_layer_error(
    names: Seq<Seq<char>>,
    values: Seq<ValueView>,
    layer: Map<Seq<char>, ValueView>,
    k: nat,
    n: nat,
)
    requires
        bound_layer(names, values, layer, k) is Err,
        k <= n,
    ensures
        bound_layer(names, values, layer, n) == bound_layer(names, values, layer, k),
    decreases n,
{
    if k < n {
        lemma_bound_layer_error(names, values, layer, k, (n - 1) as nat);
    }
}

/// An error among the first `k` iterators is the error of any more.
pub proof fn lemma_declared_error(iterators: Seq<usize>, operands: Seq<Seq<char>>, k: nat, n: nat)
    requires
        declared(iterators, operands, k) is Err,
        k <= n,
    ensures
        declared(iterators, operands, n) == declared(iterators, operands, k),
    decreases n,
{
    if k < n {
        lemma_declared_error(iterators, operands, k, (n - 1) as nat);
    }
}

/// An iterator out of range among the first `k` is one among any more.
pub proof fn lemma_iterators_out_of_range(iterators: Seq<usize>, count: nat, k: nat, n: nat)
    requires
        !iterators_in_range(iterators, count, k),
        k <= n,
    ensures
        !iterators_in_range(iterators, count, n),
    decreases n,
{
    if k < n {
        lemma_iterators_out_of_range(iterators, count, k, (n - 1) as nat);
    }
}

/// An error among the first `k` operands is the error of any more.
pub proof fn lemma_elements_bound_error(
    operands: Seq<Seq<char>>,
    iterators: Seq<usize>,
    values: Seq<ValueView>,
    context: ContextView,
    layers: Layers,
    it: nat,
    k: nat,
    n: nat,
)
    requires
        elements_bound(operands, iterators, values, context, layers, it, k) is Err,
        k <= n,
    ensures
        elements_bound(operands, iterators, values, context, layers, it, n) == elements_bound(
            operands,
            iterators,
            values,
            context,
            layers,
            it,
            k,
        ),
    decreases n,
{
    if k < n {
        lemma_elements_bound_error(
            operands,
            iterators,
            values,
            context,
            layers,
            it,
            k,
            (n - 1) as nat,
        );
    }
}

/// An error among the first `k` operands is the error of any more.
pub proof fn lemma_elements_saved_error(
    operands: Seq<Seq<char>>,
    iterators: Seq<usize>,
    params: Seq<VariableView>,
    layers: Layers,
    it: nat,
    k: nat,
    n: nat,
)
    requires
        elements_saved(operands, iterators, params, layers, it, k) is Err,
        k <= n,
    ensures
        elements_saved(operands, iterators, params, layers, it, n) == elements_saved(
            operands,
            iterators,
            params,
            layers,
            it,
            k,
        ),
    decreases n,
{
    if k < n {
        lemma_elements_saved_error(operands, iterators, params, layers, it, k, (n - 1) as nat);
    }
}

/// An error among the first `k` operands is the error of any more.
pub proof fn lemma_copied_back_error(
    operands: Seq<Seq<char>>,
    params: Seq<VariableView>,
    layer: Map<Seq<char>, ValueView>,
    layers: Layers,
    k: nat,
    n: nat,
)
    requires
        copied_back(operands, params, layer, layers, k) is Err,
        k <= n,
    ensures
        copied_back(operands, params, layer, layers, n) == copied_back(
            operands,
            params,
            layer,
            layers,
            k,
        ),
    decreases n,
{
    if k < n {
        lemma_copied_back_error(operands, params, layer, layers, k, (n - 1) as nat);
    }
}

/// An error among the first `k` events is the error of any more.
pub proof fn lemma_run_events_error(
    events: Seq<EventView>,
    m: Machine,
    ops: Map<usize, Operation>,
    k: nat,
    n: nat,
)
    requires
        run_events(events, m, ops, k) is Err,
        k <= n <= events.len(),
    ensures
        run_events(events, m, ops, n) == run_events(events, m, ops, k),
    decreases n,
{
    if k < n {
        lemma_run_events_error(events, m, ops, k, (n - 1) as nat);
    }
}

/// An error among the first `k` iterations is the error of any more.
pub proof fn lemma_run_iterations_error(
    e: EventView,
    m: Machine,
    ops: Map<usize, Operation>,
    k: nat,
    n: nat,
)
    requires
        e.run_iterations(m, ops, k) is Err,
        k <= n,
    ensures
        e.run_iterations(m, ops, n) == e.run_iterations(m, ops, k),
    decreases n,
{
    if k < n {
        lemma_run_iterations_error(e, m, ops, k, (n - 1) as nat);
    }
}

impl Operation {
    pub fn new(
        id: usize,
        operands: Vec<String>,
        events: Vec<Event>,
        iterators: Vec<usize>,
        variables: VariableMap,
    ) -> (r: Self)
        ensures
            r.id == id,
            r.operands == operands,
            r.events == events,
            r.iterators == iterators,
            r.variables == variables,
    {
        Self { id, operands, events, iterators, variables }
    }

    /// A call of the operation with the given actual parameters.
    pub fn instantiate(&self, params: Vec<Variable>) -> (r: Event)
        ensures
            r@.id == self@.id,
            r@.params == variables_view(params@),
            r@.events == self@.events,
            r@.vars == self@.variables,
    {
        let events = clone_events(&self.events);
        let r = Event { id: self.id, params, events, vars: self.variables.clone() };
        proof {
            lemma_event_view(r);
        }
        r
    }

    /// Starts a call; see `pushed`. After an error the stack is as it was.
    pub fn push_to_stack(
        &self,
        params: &Vec<Variable>,
        variables: &VariableMap,
        context: &Context,
        stack: &mut Stack,
    ) -> (r: Result<(), RuntimeError>)
        ensures
            match pushed(
                self@.operands,
                variables_view(params@),
                variables@,
                context@,
                old(stack)@,
            ) {
                Ok(layers) => r is Ok && final(stack)@ == layers,
                Err(e) => r == Err::<(), RuntimeError>(e) && final(stack)@ == old(stack)@,
            },
    {
        let ghost names = self@.operands;
        let ghost views = variables_view(params@);
        assert(names.len() == self.operands@.len());
        assert(views.len() == params@.len());
        if params.len() != self.operands.len() {
            return Err(RuntimeError::ParameterCount);
        }
        let mut values: Vec<VariableValue> = Vec::new();
        assert(values_view(values@) =~= Seq::<ValueView>::empty());
        let mut i: usize = 0;
        while i < params.len()
            invariant
                i <= params.len(),
                views == variables_view(params@),
                names == self@.operands,
                names.len() == views.len(),
                *stack == *old(stack),
                values@.len() == i,
                param_values(views, context@, stack@, i as nat) == Ok::<
                    Seq<ValueView>,
                    RuntimeError,
                >(values_view(values@)),
            decreases params.len() - i,
        {
            assert(views[i as int] == params@[i as int]@);
            match params[i].get_value(context, stack) {
                Ok(val) => {
                    let ghost before = values_view(values@);
                    values.push(val);
                    assert(values_view(values@) =~= before.push(val@));
                },
                Err(e) => {
                    proof {
                        assert(param_values(views, context@, stack@, (i + 1) as nat) == Err::<
                            Seq<ValueView>,
                            RuntimeError,
                        >(e));
                        lemma_param_values_error(
                            views,
                            context@,
                            stack@,
                            (i + 1) as nat,
                            views.len(),
                        );
                    }
                    return Err(e);
                },
            }
            i += 1;
        }
        let ghost bound_values = values_view(values@);
        let mut layer = variables.clone();
        let mut k: usize = 0;
        while k < self.operands.len()
            invariant
                k <= self.operands.len(),
                names == self@.operands,
                names.len() == views.len(),
                views == variables_view(params@),
                values@.len() == self.operands@.len(),
                bound_values == values_view(values@),
                param_values(views, context@, stack@, views.len()) == Ok::<
                    Seq<ValueView>,
                    RuntimeError,
                >(bound_values),
                *stack == *old(stack),
                bound_layer(names, bound_values, variables@, k as nat) == Ok::<
                    Map<Seq<char>, ValueView>,
                    RuntimeError,
                >(layer@),
            decreases self.operands.len() - k,
        {
            assert(names[k as int] == self.operands@[k as int]@);
            assert(bound_values[k as int] == values@[k as int]@);
            if layer.contains_key(self.operands[k].as_str()) {
                proof {
                    assert(bound_layer(names, bound_values, variables@, (k + 1) as nat) == Err::<
                        Map<Seq<char>, ValueView>,
                        RuntimeError,
                    >(RuntimeError::DuplicateVariable));
                    lemma_bound_layer_error(
                        names,
                        bound_values,
                        variables@,
                        (k + 1) as nat,
                        names.len(),
                    );
                }
                return Err(RuntimeError::DuplicateVariable);
            }
            layer.insert(self.operands[k].clone(), values[k].clone());
            k += 1;
        }
        stack.push_layer_with(layer);
        Ok(())
    }

    /// Ends a call: takes the layer of the call off the stack, which must
    /// have one, and copies the values of the operands back to the actual
    /// parameters that name variables of the scope; see `copied_back`.
    pub fn pop_from_stack(&self, params: &Vec<Variable>, context: &Context, stack: &mut Stack) -> (r:
        Result<(), RuntimeError>)
        requires
            old(stack)@.len() > 0,
            params@.len() == self@.operands.len(),
        ensures
            match copied_back(
                self@.operands,
                variables_view(params@),
                old(stack)@.last(),
                old(stack)@.drop_last(),
                self@.operands.len(),
            ) {
                Ok(layers) => r is Ok && final(stack)@ == layers,
                Err(e) => r == Err::<(), RuntimeError>(e),
            },
    {
        let ghost names = self@.operands;
        let ghost views = variables_view(params@);
        let ghost start = stack@.drop_last();
        let layer = stack.pop_layer();
        assert(names.len() == self.operands@.len());
        let mut i: usize = 0;
        while i < self.operands.len()
            invariant
                i <= self.operands.len(),
                names == self@.operands,
                names.len() == self.operands@.len(),
                views == variables_view(params@),
                params@.len() == self.operands@.len(),
                layer@ == old(stack)@.last(),
                start == old(stack)@.drop_last(),
                copied_back(names, views, layer@, start, i as nat) == Ok::<Layers, RuntimeError>(
                    stack@,
                ),
            decreases self.operands.len() - i,
        {
            assert(names[i as int] == self.operands@[i as int]@);
            assert(views[i as int] == params@[i as int]@);
            match layer.get(self.operands[i].as_str()) {
                Some(val) => {
                    if params[i].get_location() == VariableLocation::Scope {
                        match params[i].set_value(context, stack, val.clone()) {
                            Ok(()) => {},
                            Err(e) => {
                                proof {
                                    assert(copied_back(names, views, layer@, start, (i + 1) as nat)
                                        == Err::<Layers, RuntimeError>(e));
                                    lemma_copied_back_error(
                                        names,
                                        views,
                                        layer@,
                                        start,
                                        (i + 1) as nat,
                                        names.len(),
                                    );
                                }
                                return Err(e);
                            },
                        }
                    }
                },
                None => {
                    proof {
                        assert(copied_back(names, views, layer@, start, (i + 1) as nat) == Err::<
                            Layers,
                            RuntimeError,
                        >(RuntimeError::UnknownVariable));
                        lemma_copied_back_error(
                            names,
                            views,
                            layer@,
                            start,
                            (i + 1) as nat,
                            names.len(),
                        );
                    }
                    return Err(RuntimeError::UnknownVariable);
                },
            }
            i += 1;
        }
        Ok(())
    }

    pub fn get_iterators(&self) -> (r: &Vec<usize>)
        ensures
            r@ == self@.iterators,
    {
        &self.iterators
    }

    pub fn get_operands(&self) -> (r: &Vec<String>)
        ensures
            names_view(r@) == self@.operands,
    {
        &self.operands
    }
}

/// A copy of the events.
pub fn clone_events(events: &Vec<Event>) -> (r: Vec<Event>)
    ensures
        events_view(r@) == events_view(events@),
    decreases events,
{
    let mut out: Vec<Event> = Vec::new();
    let mut i: usize = 0;
    while i < events.len()
        invariant
            i <= events.len(),
            out@.len() == i,
            forall|k: int| 0 <= k < i ==> (#[trigger] out@[k])@ == events@[k]@,
        decreases events.len() - i,
    {
        proof {
            vstd::std_specs::vec::axiom_vec_index_decreases(*events, i as int);
        }
        out.push(events[i].clone());
        i += 1;
    }
    assert(events_view(out@) =~= events_view(events@));
    out
}

impl Clone for Event {
    fn clone(&self) -> (r: Self)
        ensures
            r@ == self@,
        decreases *self,
    {
        let mut params: Vec<Variable> = Vec::new();
        let mut i: usize = 0;
        while i < self.params.len()
            invariant
                i <= self.params.len(),
                params@.len() == i,
                forall|k: int| 0 <= k < i ==> (#[trigger] params@[k])@ == self.params@[k]@,
            decreases self.params.len() - i,
        {
            params.push(self.params[i].clone());
            i += 1;
        }
        assert(variables_view(params@) =~= variables_view(self.params@));
        let events = clone_events(&self.events);
        let r = Event { id: self.id, params, events, vars: self.vars.clone() };
        proof {
            lemma_event_view(r);
            lemma_event_view(*self);
        }
        r
    }
}

impl Clone for Operation {
    fn clone(&self) -> (r: Self)
        ensures
            r@ == self@,
    {
        let mut operands: Vec<String> = Vec::new();
        let mut i: usize = 0;
        while i < self.operands.len()
            invariant
                i <= self.operands.len(),
                operands@.len() == i,
                forall|k: int| 0 <= k < i ==> (#[trigger] operands@[k])@ == self.operands@[k]@,
            decreases self.operands.len() - i,
        {
            operands.push(self.operands[i].clone());
            i += 1;
        }
        assert(names_view(operands@) =~= names_view(self.operands@));
        let events = clone_events(&self.events);
        let iterators = self.iterators.clone();
        assert(iterators@ =~= self.iterators@);
        Self { id: self.id, operands, events, iterators, variables: self.variables.clone() }
    }
}

impl Event {
    pub fn new(id: usize, params: Vec<Variable>, events: Vec<Event>, vars: VariableMap) -> (r: Self)
        ensures
            r.id == id,
            r.params == params,
            r.events == events,
            r.vars == vars,
    {
        Self { id, params, events, vars }
    }

    /// Does what the event stands for; see `EventView::run`. After an error
    /// the state is that in which the error was met.
    pub fn process(
        &self,
        context: &mut Context,
        scope: &mut Stack,
        components: &mut Components,
        action_activeness: &mut Activeness,
        operations: &HashMap<usize, Operation>,
    ) -> (r: Result<(), RuntimeError>)
        ensures
            match self@.run(
                machine(old(context)@, old(scope)@, old(action_activeness)@),
                operations@,
            ) {
                Ok(m) => r is Ok && machine(
                    final(context)@,
                    final(scope)@,
                    final(action_activeness)@,
                ) == m,
                Err(e) => r == Err::<(), RuntimeError>(e),
            },
        decreases *self, 2nat,
    {
        match self.id {
            1 => move_pos(context, scope, &self.params),
            2 => move_pos_phase(context, scope, &self.params),
            3 => draw_rect_outline(context, scope, &self.params),
            4 => set_activeness(context, scope, action_activeness, &self.params, true),
            5 => set_activeness(context, scope, action_activeness, &self.params, false),
            6 => crate::event::operations::set(context, scope, &self.params),
            7 => rotate_vec(context, scope, &self.params),
            8 => top_into(context, scope, &self.params),
            9 => crate::event::operations::add(context, scope, &self.params),
            10 => draw_rect(context, scope, &self.params),
            11 => draw_effect_rect(context, scope, &self.params),
            12 => toggle_activeness(context, scope, action_activeness, &self.params),
            13 => crate::event::operations::sub(context, scope, &self.params),
            _ => self.process_operation(context, scope, components, action_activeness, operations),
        }
    }

    /// Which of the parameters are iterated over:
    /// params: Int, [Pos], [Pos], [Int]
    /// iterators: [3,1]
    /// returns [F,T,F,T]
    /// Every iterator must name a parameter.
    pub fn get_iterated_params(&self, iterators: &Vec<usize>) -> (r: Result<Vec<bool>, RuntimeError>)
        ensures
            match r {
                Ok(flags) => {
                    &&& iterators_in_range(iterators@, self@.params.len(), iterators@.len())
                    &&& flags@.len() == self@.params.len()
                    &&& forall|i: int|
                        0 <= i < flags@.len() ==> #[trigger] flags@[i] == iterated(
                            iterators@,
                            i,
                            iterators@.len(),
                        )
                },
                Err(e) => e == RuntimeError::ParameterCount && !iterators_in_range(
                    iterators@,
                    self@.params.len(),
                    iterators@.len(),
                ),
            },
    {
        let n = self.params.len();
        let mut ret: Vec<bool> = Vec::new();
        let mut i: usize = 0;
        while i < n
            invariant
                i <= n,
                ret@.len() == i,
                forall|j: int| 0 <= j < i ==> !(#[trigger] ret@[j]),
            decreases n - i,
        {
            ret.push(false);
            i += 1;
        }
        let mut k: usize = 0;
        while k < iterators.len()
            invariant
                k <= iterators.len(),
                n == self@.params.len(),
                ret@.len() == n,
                iterators_in_range(iterators@, n as nat, k as nat),
                forall|j: int|
                    0 <= j < n ==> #[trigger] ret@[j] == iterated(iterators@, j, k as nat),
            decreases iterators.len() - k,
        {
            let it = iterators[k];
            if it >= n {
                proof {
                    lemma_iterators_out_of_range(
                        iterators@,
                        n as nat,
                        (k + 1) as nat,
                        iterators@.len(),
                    );
                }
                return Err(RuntimeError::ParameterCount);
            }
            ret[it] = true;
            k += 1;
        }
        Ok(ret)
    }

    /// [] -> 1 iteration
    /// [3,1,2] -> as many iterations as the collection of the parameter 3
    /// has elements
    pub fn get_iterations(&self, iterators: &Vec<usize>, scope: &Stack, context: &Context) -> (r:
        Result<usize, RuntimeError>)
        ensures
            match iterations(iterators@, self@.params, context@, scope@) {
                Ok(count) => r is Ok && r->Ok_0 == count,
                Err(e) => r == Err::<usize, RuntimeError>(e),
            },
    {
        if iterators.len() == 0 {
            return Ok(1);
        }
        let main_iter = iterators[0];
        if main_iter >= self.params.len() {
            return Err(RuntimeError::ParameterCount);
        }
        assert(self@.params[main_iter as int] == self.params@[main_iter as int]@);
        match self.params[main_iter].get_value(context, scope)? {
            VariableValue::Vec(v) => {
                proof {
                    lemma_vec_view(v);
                }
                Ok(v.len())
            },
            _ => Err(RuntimeError::TypeMismatch),
        }
    }

    /// The values of the parameters, each as a value of its declared type.
    pub fn get_param_values(&self, context: &Context, scope: &Stack) -> (r: Result<
        Vec<VariableValue>,
        RuntimeError,
    >)
        ensures
            match typed_param_values(self@.params, context@, scope@, self@.params.len()) {
                Ok(values) => r is Ok && values_view(r->Ok_0@) == values,
                Err(e) => r == Err::<Vec<VariableValue>, RuntimeError>(e),
            },
    {
        let ghost views = self@.params;
        let mut values: Vec<VariableValue> = Vec::new();
        assert(values_view(values@) =~= Seq::<ValueView>::empty());
        assert(views.len() == self.params@.len());
        let mut i: usize = 0;
        while i < self.params.len()
            invariant
                i <= self.params.len(),
                views == self@.params,
                views.len() == self.params@.len(),
                values@.len() == i,
                typed_param_values(views, context@, scope@, i as nat) == Ok::<
                    Seq<ValueView>,
                    RuntimeError,
                >(values_view(values@)),
            decreases self.params.len() - i,
        {
            assert(views[i as int] == self.params@[i as int]@);
            match self.params[i].get_value_of_type(context, scope, self.params[i].get_type()) {
                Ok(val) => {
                    let ghost before = values_view(values@);
                    values.push(val);
                    assert(values_view(values@) =~= before.push(val@));
                },
                Err(e) => {
                    proof {
                        assert(typed_param_values(views, context@, scope@, (i + 1) as nat) == Err::<
                            Seq<ValueView>,
                            RuntimeError,
                        >(e));
                        lemma_typed_param_values_error(
                            views,
                            context@,
                            scope@,
                            (i + 1) as nat,
                            views.len(),
                        );
                    }
                    return Err(e);
                },
            }
            i += 1;
        }
        Ok(values)
    }

    /// Declares the operands that are iterated over in a new layer of the
    /// stack; see `declared`.
    fn declare_iterators(op: &Operation, scope: &mut Stack) -> (r: Result<(), RuntimeError>)
        requires
            iterators_in_range(op@.iterators, op@.operands.len(), op@.iterators.len()),
        ensures
            match declared(op@.iterators, op@.operands, op@.iterators.len()) {
                Ok(layer) => r is Ok && final(scope)@ == old(scope)@.push(layer),
                Err(e) => r == Err::<(), RuntimeError>(e) && final(scope)@ == old(scope)@,
            },
    {
        let mut layer = VariableMap::new();
        let mut k: usize = 0;
        while k < op.iterators.len()
            invariant
                k <= op.iterators.len(),
                iterators_in_range(op@.iterators, op@.operands.len(), op@.iterators.len()),
                declared(op@.iterators, op@.operands, k as nat) == Ok::<
                    Map<Seq<char>, ValueView>,
                    RuntimeError,
                >(layer@),
            decreases op.iterators.len() - k,
        {
            let i = op.iterators[k];
            proof {
                lemma_iterators_prefix(
                    op@.iterators,
                    op@.operands.len(),
                    (k + 1) as nat,
                    op@.iterators.len(),
                );
            }
            assert(op@.operands[i as int] == op.operands@[i as int]@);
            if layer.contains_key(op.operands[i].as_str()) {
                proof {
                    lemma_declared_error(
                        op@.iterators,
                        op@.operands,
                        (k + 1) as nat,
                        op@.iterators.len(),
                    );
                }
                return Err(RuntimeError::DuplicateVariable);
            }
            layer.insert(op.operands[i].clone(), VariableValue::empty());
            k += 1;
        }
        scope.push_layer_with(layer);
        Ok(())
    }

    /// Binds the elements of the collections that are iterated over for the
    /// iteration `it`; see `elements_bound`.
    fn bind_elements(
        op: &Operation,
        iterated_params: &Vec<bool>,
        param_values: &Vec<VariableValue>,
        context: &Context,
        scope: &mut Stack,
        it: usize,
    ) -> (r: Result<(), RuntimeError>)
        requires
            iterated_params@.len() == param_values@.len(),
            op@.operands.len() == param_values@.len(),
            forall|i: int|
                0 <= i < iterated_params@.len() ==> #[trigger] iterated_params@[i] == iterated(
                    op@.iterators,
                    i,
                    op@.iterators.len(),
                ),
        ensures
            match elements_bound(
                op@.operands,
                op@.iterators,
                values_view(param_values@),
                context@,
                old(scope)@,
                it as nat,
                param_values@.len(),
            ) {
                Ok(layers) => r is Ok && final(scope)@ == layers,
                Err(e) => r == Err::<(), RuntimeError>(e),
            },
    {
        let ghost start = scope@;
        let ghost values = values_view(param_values@);
        let mut i: usize = 0;
        while i < param_values.len()
            invariant
                i <= param_values.len(),
                iterated_params@.len() == param_values@.len(),
                op@.operands.len() == param_values@.len(),
                values == values_view(param_values@),
                start == old(scope)@,
                forall|j: int|
                    0 <= j < iterated_params@.len() ==> #[trigger] iterated_params@[j] == iterated(
                        op@.iterators,
                        j,
                        op@.iterators.len(),
                    ),
                elements_bound(
                    op@.operands,
                    op@.iterators,
                    values,
                    context@,
                    start,
                    it as nat,
                    i as nat,
                ) == Ok::<Layers, RuntimeError>(scope@),
            decreases param_values.len() - i,
        {
            if iterated_params[i] {
                assert(values[i as int] == param_values@[i as int]@);
                assert(op@.operands[i as int] == op.operands@[i as int]@);
                // get vector value
                let found = match &param_values[i] {
                    VariableValue::Vec(v) => {
                        proof {
                            lemma_vec_view(*v);
                        }
                        if v.len() == 0 {
                            Err(RuntimeError::EmptyCollection)
                        } else {
                            // get current iteration value
                            let index = it % v.len();
                            assert(variables_view(v@)[index as int] == v@[index as int]@);
                            v[index].get_value(context, scope)
                        }
                    },
                    _ => Err(RuntimeError::TypeMismatch),
                };
                match found {
                    Ok(element) => {
                        scope.update_variable(op.operands[i].as_str(), element);
                    },
                    Err(e) => {
                        proof {
                            assert(elements_bound(
                                op@.operands,
                                op@.iterators,
                                values,
                                context@,
                                start,
                                it as nat,
                                (i + 1) as nat,
                            ) == Err::<Layers, RuntimeError>(e));
                            lemma_elements_bound_error(
                                op@.operands,
                                op@.iterators,
                                values,
                                context@,
                                start,
                                it as nat,
                                (i + 1) as nat,
                                values.len(),
                            );
                        }
                        return Err(e);
                    },
                }
            }
            i += 1;
        }
        Ok(())
    }

    /// Writes the values of the operands that are iterated over back to
    /// their collections after the iteration `it`; see `elements_saved`.
    fn save_elements(
        &self,
        op: &Operation,
        iterated_params: &Vec<bool>,
        scope: &mut Stack,
        it: usize,
    ) -> (r: Result<(), RuntimeError>)
        requires
            iterated_params@.len() == self@.params.len(),
            op@.operands.len() == self@.params.len(),
            forall|i: int|
                0 <= i < iterated_params@.len() ==> #[trigger] iterated_params@[i] == iterated(
                    op@.iterators,
                    i,
                    op@.iterators.len(),
                ),
        ensures
            match elements_saved(
                op@.operands,
                op@.iterators,
                self@.params,
                old(scope)@,
                it as nat,
                self@.params.len(),
            ) {
                Ok(layers) => r is Ok && final(scope)@ == layers,
                Err(e) => r == Err::<(), RuntimeError>(e),
            },
    {
        let ghost start = scope@;
        let ghost views = self@.params;
        assert(views.len() == self.params@.len());
        let mut i: usize = 0;
        while i < self.params.len()
            invariant
                i <= self.params.len(),
                views == self@.params,
                views.len() == self.params@.len(),
                start == old(scope)@,
                iterated_params@.len() == self@.params.len(),
                op@.operands.len() == self@.params.len(),
                forall|j: int|
                    0 <= j < iterated_params@.len() ==> #[trigger] iterated_params@[j] == iterated(
                        op@.iterators,
                        j,
                        op@.iterators.len(),
                    ),
                elements_saved(op@.operands, op@.iterators, views, start, it as nat, i as nat)
                    == Ok::<Layers, RuntimeError>(scope@),
            decreases self.params.len() - i,
        {
            if iterated_params[i] {
                assert(views[i as int] == self.params@[i as int]@);
                assert(op@.operands[i as int] == op.operands@[i as int]@);
                let name = op.operands[i].as_str();
                // get iterated value from scope
                let saved = match scope.get_variable(name) {
                    None => Err(RuntimeError::UnknownVariable),
                    Some(new_val) => {
                        let new_val = new_val.clone();
                        // update vector
                        match scope.get_variable_of_type(name, self.params[i].get_type()) {
                            None => Ok(()),
                            Some(val) => {
                                match val {
                                    VariableValue::Vec(v) => {
                                        proof {
                                            lemma_vec_view(*v);
                                        }
                                        if v.len() == 0 {
                                            Err(RuntimeError::EmptyCollection)
                                        } else {
                                            let index = it % v.len();
                                            let vec_type = val.get_type();
                                            scope.update_vec_at(name, index, new_val, &vec_type)
                                        }
                                    },
                                    _ => Err(RuntimeError::TypeMismatch),
                                }
                            },
                        }
                    },
                };
                match saved {
                    Ok(()) => {},
                    Err(e) => {
                        proof {
                            assert(elements_saved(
                                op@.operands,
                                op@.iterators,
                                views,
                                start,
                                it as nat,
                                (i + 1) as nat,
                            ) == Err::<Layers, RuntimeError>(e));
                            lemma_elements_saved_error(
                                op@.operands,
                                op@.iterators,
                                views,
                                start,
                                it as nat,
                                (i + 1) as nat,
                                views.len(),
                            );
                        }
                        return Err(e);
                    },
                }
            }
            i += 1;
        }
        Ok(())
    }

    /// Calls the operation that the event names; see
    /// `EventView::run_operation`.
    pub fn process_operation(
        &self,
        context: &mut Context,
        scope: &mut Stack,
        components: &mut Components,
        action_activeness: &mut Activeness,
        operations: &HashMap<usize, Operation>,
    ) -> (r: Result<(), RuntimeError>)
        ensures
            match self@.run_operation(
                machine(old(context)@, old(scope)@, old(action_activeness)@),
                operations@,
            ) {
                Ok(m) => r is Ok && machine(
                    final(context)@,
                    final(scope)@,
                    final(action_activeness)@,
                ) == m,
                Err(e) => r == Err::<(), RuntimeError>(e),
            },
        decreases *self, 1nat,
    {
        let ghost ops = operations@;
        let ghost view = self@;
        let op = match operations.get(&self.id) {
            Some(op) => op,
            None => {
                return Err(RuntimeError::UnknownOperation);
            },
        };
        assert(ops[self.id] == *op);
        let ghost m0 = machine(context@, scope@, action_activeness@);
        op.push_to_stack(&self.params, &self.vars, context, scope)?;
        let ghost l1 = scope@;
        let count = self.get_iterations(&op.iterators, scope, context)?;
        let iterated_params = self.get_iterated_params(&op.iterators)?;
        // load iterated names
        Event::declare_iterators(op, scope)?;
        let ghost start = machine(context@, scope@, action_activeness@);
        let mut it: usize = 0;
        while it < count
            invariant
                it <= count,
                ops == operations@,
                view == self@,
                ops.contains_key(self.id),
                ops[self.id] == *op,
                m0 == machine(old(context)@, old(scope)@, old(action_activeness)@),
                pushed(op@.operands, view.params, view.vars, m0.context, m0.layers) == Ok::<
                    Layers,
                    RuntimeError,
                >(l1),
                iterations(op@.iterators, view.params, m0.context, l1) == Ok::<nat, RuntimeError>(
                    count as nat,
                ),
                iterators_in_range(op@.iterators, view.params.len(), op@.iterators.len()),
                declared(op@.iterators, op@.operands, op@.iterators.len()) is Ok,
                start == (Machine {
                    layers: l1.push(
                        declared(op@.iterators, op@.operands, op@.iterators.len())->Ok_0,
                    ),
                    ..m0
                }),
                iterated_params@.len() == self@.params.len(),
                op@.operands.len() == self@.params.len(),
                forall|i: int|
                    0 <= i < iterated_params@.len() ==> #[trigger] iterated_params@[i] == iterated(
                        op@.iterators,
                        i,
                        op@.iterators.len(),
                    ),
                view.run_iterations(start, ops, it as nat) == Ok::<Machine, RuntimeError>(
                    machine(context@, scope@, action_activeness@),
                ),
            decreases count - it,
        {
            let ghost before = machine(context@, scope@, action_activeness@);
            let step = self.run_iteration(
                op,
                &iterated_params,
                context,
                scope,
                components,
                action_activeness,
                operations,
                it,
            );
            match step {
                Ok(()) => {},
                Err(e) => {
                    proof {
                        assert(view.run_iterations(start, ops, (it + 1) as nat) == Err::<
                            Machine,
                            RuntimeError,
                        >(e));
                        lemma_run_iterations_error(
                            view,
                            start,
                            ops,
                            (it + 1) as nat,
                            count as nat,
                        );
                    }
                    return Err(e);
                },
            }
            it += 1;
        }
        if scope.layers.len() < 2 {
            return Err(RuntimeError::Unsupported);
        }
        scope.pop_layer();
        op.pop_from_stack(&self.params, context, scope)
    }

    /// One run of the body: the iteration `it` of a call of `op`.
    fn run_iteration(
        &self,
        op: &Operation,
        iterated_params: &Vec<bool>,
        context: &mut Context,
        scope: &mut Stack,
        components: &mut Components,
        action_activeness: &mut Activeness,
        operations: &HashMap<usize, Operation>,
        it: usize,
    ) -> (r: Result<(), RuntimeError>)
        requires
            operations@.contains_key(self.id),
            operations@[self.id] == *op,
            iterated_params@.len() == self@.params.len(),
            op@.operands.len() == self@.params.len(),
            forall|i: int|
                0 <= i < iterated_params@.len() ==> #[trigger] iterated_params@[i] == iterated(
                    op@.iterators,
                    i,
                    op@.iterators.len(),
                ),
        ensures
            match self@.run_iteration(
                machine(old(context)@, old(scope)@, old(action_activeness)@),
                operations@,
                it as nat,
            ) {
                Ok(m) => r is Ok && machine(
                    final(context)@,
                    final(scope)@,
                    final(action_activeness)@,
                ) == m,
                Err(e) => r == Err::<(), RuntimeError>(e),
            },
        decreases *self, 0nat,
    {
        let ghost ops = operations@;
        let ghost view = self@;
        let ghost first = machine(context@, scope@, action_activeness@);
        let param_values = self.get_param_values(context, scope)?;
        proof {
            lemma_typed_param_values_len(view.params, context@, scope@, view.params.len());
            assert(param_values@.len() == values_view(param_values@).len());
        }
        // update iterated values
        Event::bind_elements(op, iterated_params, &param_values, context, scope, it)?;
        // run events
        let ghost body_start = machine(context@, scope@, action_activeness@);
        let ghost values = values_view(param_values@);
        proof {
            lemma_event_view(*self);
        }
        let mut k: usize = 0;
        while k < self.events.len()
            invariant
                k <= self.events.len(),
                ops == operations@,
                view == self@,
                view.events == events_view(self.events@),
                ops.contains_key(self.id),
                ops[self.id] == *op,
                first == machine(old(context)@, old(scope)@, old(action_activeness)@),
                typed_param_values(view.params, first.context, first.layers, view.params.len())
                    == Ok::<Seq<ValueView>, RuntimeError>(values),
                elements_bound(
                    op@.operands,
                    op@.iterators,
                    values,
                    first.context,
                    first.layers,
                    it as nat,
                    view.params.len(),
                ) == Ok::<Layers, RuntimeError>(body_start.layers),
                body_start.context == first.context,
                body_start.flags == first.flags,
                iterated_params@.len() == self@.params.len(),
                op@.operands.len() == self@.params.len(),
                forall|i: int|
                    0 <= i < iterated_params@.len() ==> #[trigger] iterated_params@[i] == iterated(
                        op@.iterators,
                        i,
                        op@.iterators.len(),
                    ),
                run_events(view.events, body_start, ops, k as nat) == Ok::<Machine, RuntimeError>(
                    machine(context@, scope@, action_activeness@),
                ),
            decreases self.events.len() - k,
        {
            proof {
                vstd::std_specs::vec::axiom_vec_index_decreases(self.events, k as int);
                assert(decreases_to!(*self => self.events));
                assert(view.events[k as int] == self.events@[k as int]@);
            }
            match self.events[k].process(
                context,
                scope,
                components,
                action_activeness,
                operations,
            ) {
                Ok(()) => {},
                Err(e) => {
                    proof {
                        assert(run_events(view.events, body_start, ops, (k + 1) as nat) == Err::<
                            Machine,
                            RuntimeError,
                        >(e));
                        lemma_run_events_error(
                            view.events,
                            body_start,
                            ops,
                            (k + 1) as nat,
                            view.events.len(),
                        );
                    }
                    return Err(e);
                },
            }
            k += 1;
        }
        // save iterated values
        self.save_elements(op, iterated_params, scope, it)
    }
}

/// Where the first `n` iterators name operands, so do the first `k`.
pub proof fn lemma_iterators_prefix(iterators: Seq<usize>, count: nat, k: nat, n: nat)
    requires
        iterators_in_range(iterators, count, n),
        1 <= k <= n,
    ensures
        iterators[k - 1] < count,
    decreases n,
{
    if k < n {
        lemma_iterators_prefix(iterators, count, k, (n - 1) as nat);
    }
}

} // verus!
