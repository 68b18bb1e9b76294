use crate::action::{run_firings, Action, ActionView, Timestamp};
use crate::context::Context;
use crate::error::RuntimeError;
use crate::event::activeness::Activeness;
use crate::event::component::Components;
use crate::event::events::{machine, Machine, Operation};
use crate::variable::stack::Stack;
use std::collections::HashMap;
use vstd::prelude::*;

verus! {

/// Which of the actions are active at the start: each action by its name.
/// Two actions must not share a name, unless the name is empty; of actions
/// without a name the last decides.
pub fn get_action_activeness(actions: &Vec<Action>) -> (r: Result<Activeness, RuntimeError>)
    ensures
        match initial_activeness(actions_names(actions@), actions_flags(actions@), actions@.len()) {
            Some(flags) => r is Ok && r->Ok_0@ == flags,
            None => r is Err && r->Err_0 == RuntimeError::DuplicateAction,
        },
{
    let ghost names = actions_names(actions@);
    let ghost flags = actions_flags(actions@);
    let mut action_activeness = Activeness::new();
    let mut i: usize = 0;
    while i < actions.len()
        invariant
            i <= actions.len(),
            names == actions_names(actions@),
            flags == actions_flags(actions@),
            initial_activeness(names, flags, i as nat) == Some(action_activeness@),
        decreases actions.len() - i,
    {
        let a = &actions[i];
        assert(names[i as int] == a@.name);
        assert(flags[i as int] == a@.active);
        if action_activeness.insert(a.get_name().to_owned(), a.default_activeness()).is_some() {
            if !a.get_name().is_empty() {
                proof {
                    assert(initial_activeness(names, flags, (i + 1) as nat) is None);
                    lemma_initial_activeness_fails(names, flags, (i + 1) as nat, names.len());
                }
                return Err(RuntimeError::DuplicateAction);
            }
        }
        i += 1;
    }
    Ok(action_activeness)
}

/// The names of the actions.
pub open spec fn actions_names(actions: Seq<Action>) -> Seq<Seq<char>> {
    actions.map_values(|a: Action| a@.name)
}

/// Whether each action is active from the start.
pub open spec fn actions_flags(actions: Seq<Action>) -> Seq<bool> {
    actions.map_values(|a: Action| a@.active)
}

/// The flags of the first `n` actions, or nothing if two of them share a
/// name that is not empty.
pub open spec fn initial_activeness(names: Seq<Seq<char>>, flags: Seq<bool>, n: nat) -> Option<
    Map<Seq<char>, bool>,
>
    decreases n,
{
    if n == 0 {
        Some(Map::empty())
    } else {
        match initial_activeness(names, flags, (n - 1) as nat) {
            None => None,
            Some(m) => if m.contains_key(names[n - 1]) && names[n - 1].len() > 0 {
                None
            } else {
                Some(m.insert(names[n - 1], flags[n - 1]))
            },
        }
    }
}

/// A shared name among the first `k` actions is one among any more.
pub proof fn lemma_initial_activeness_fails(names: Seq<Seq<char>>, flags: Seq<bool>, k: nat, n: nat)
    requires
        initial_activeness(names, flags, k) is None,
        k <= n,
    ensures
        initial_activeness(names, flags, n) is None,
    decreases n,
{
    if k < n {
        lemma_initial_activeness_fails(names, flags, k, (n - 1) as nat);
    }
}

/// The views of the actions.
pub open spec fn actions_view(actions: Seq<Action>) -> Seq<ActionView> {
    actions.map_values(|a: Action| a@)
}

/// All the actions are well formed.
pub open spec fn actions_wf(actions: Seq<ActionView>) -> bool {
    forall|i: int| 0 <= i < actions.len() ==> (#[trigger] actions[i]).wf()
}

/// Whether the clock of an action has room for one more step of `millis`
/// milliseconds.
pub open spec fn can_step(a: ActionView, millis: nat) -> bool {
    match a.time_accumulator {
        Timestamp::Frame(f) => f < usize::MAX,
        Timestamp::Millis(m) => m + millis <= usize::MAX,
    }
}

/// What one pass over the first `n` actions does to them and to the
/// machine: each action that `active` calls active is stepped by `millis`
/// milliseconds and triggered, in the order of the actions. The flags of
/// the machine that an action changes play no part in this pass.
pub open spec fn pass(
    actions: Seq<ActionView>,
    active: Map<Seq<char>, bool>,
    m: Machine,
    ops: Map<usize, Operation>,
    millis: nat,
    n: nat,
) -> Result<(Seq<ActionView>, Machine), RuntimeError>
    decreases n,
{
    if n == 0 {
        Ok((actions, m))
    } else {
        match pass(actions, active, m, ops, millis, (n - 1) as nat) {
            Err(e) => Err(e),
            Ok((done, m1)) => {
                let a = done[n - 1];
                if !active.contains_key(a.name) {
                    Err(RuntimeError::UnknownAction)
                } else if !active[a.name] {
                    Ok((done, m1))
                } else if !can_step(a, millis) {
                    Err(RuntimeError::Overflow)
                } else {
                    let stepped = a.stepped(millis);
                    match run_firings(stepped.events, m1, ops, stepped.firings()) {
                        Err(e) => Err(e),
                        Ok(m2) => Ok((done.update(n - 1, stepped.triggered()), m2)),
                    }
                }
            },
        }
    }
}

/// An error among the first `k` actions is the error of any more.
pub proof fn lemma_pass_error(
    actions: Seq<ActionView>,
    active: Map<Seq<char>, bool>,
    m: Machine,
    ops: Map<usize, Operation>,
    millis: nat,
    k: nat,
    n: nat,
)
    requires
        pass(actions, active, m, ops, millis, k) is Err,
        k <= n,
    ensures
        pass(actions, active, m, ops, millis, n) == pass(actions, active, m, ops, millis, k),
    decreases n,
{
    if k < n {
        lemma_pass_error(actions, active, m, ops, millis, k, (n - 1) as nat);
    }
}

/// What the work on the next frame does: the context goes on to the next
/// frame, and one pass over the actions is made with the flags as they are
/// at its start.
pub open spec fn frame_run(
    actions: Seq<ActionView>,
    m: Machine,
    ops: Map<usize, Operation>,
    millis: nat,
) -> Result<(Seq<ActionView>, Machine), RuntimeError> {
    if m.context.frame_idx == usize::MAX {
        Err(RuntimeError::Overflow)
    } else {
        pass(
            actions,
            m.flags,
            Machine {
                context: crate::context::ContextView {
                    frame_idx: (m.context.frame_idx + 1) as usize,
                    ..m.context
                },
                ..m
            },
            ops,
            millis,
            actions.len(),
        )
    }
}

/// Works on the next frame; see `frame_run`. After an error the state is
/// that in which the error was met.
pub fn run_frame(
    actions: &mut Vec<Action>,
    context: &mut Context,
    globals: &mut Stack,
    components: &mut Components,
    action_activeness: &mut Activeness,
    operations: &HashMap<usize, Operation>,
    millis: usize,
) -> (r: Result<(), RuntimeError>)
    requires
        actions_wf(actions_view(old(actions)@)),
    ensures
        match frame_run(
            actions_view(old(actions)@),
            machine(old(context)@, old(globals)@, old(action_activeness)@),
            operations@,
            millis as nat,
        ) {
            Ok((done, m)) => {
                &&& r is Ok
                &&& actions_view(final(actions)@) == done
                &&& machine(final(context)@, final(globals)@, final(action_activeness)@) == m
                &&& actions_wf(done)
            },
            Err(e) => r == Err::<(), RuntimeError>(e),
        },
{
    if context.get_frame_index() == usize::MAX {
        return Err(RuntimeError::Overflow);
    }
    context.step();
    let active = action_activeness.clone();
    let ghost first = actions_view(actions@);
    let ghost start = machine(context@, globals@, action_activeness@);
    let ghost ops = operations@;
    let mut i: usize = 0;
    while i < actions.len()
        invariant
            i <= actions.len(),
            actions@.len() == old(actions)@.len(),
            first == actions_view(old(actions)@),
            ops == operations@,
            active@ == old(action_activeness)@,
            start.flags == old(action_activeness)@,
            old(context)@.frame_idx < usize::MAX,
            start == (Machine {
                context: crate::context::ContextView {
                    frame_idx: (old(context)@.frame_idx + 1) as usize,
                    ..old(context)@
                },
                layers: old(globals)@,
                flags: old(action_activeness)@,
            }),
            actions_wf(actions_view(actions@)),
            pass(first, active@, start, ops, millis as nat, i as nat) == Ok::<
                (Seq<ActionView>, Machine),
                RuntimeError,
            >((actions_view(actions@), machine(context@, globals@, action_activeness@))),
        decreases actions.len() - i,
    {
        let ghost done = actions_view(actions@);
        let ghost before = actions@;
        assert(done[i as int] == actions@[i as int]@);
        assert(done[i as int].wf());
        let step = match active.get(actions[i].get_name()) {
            None => Err(RuntimeError::UnknownAction),
            Some(false) => Ok(()),
            Some(true) => {
                let room = match actions[i].get_accumulator() {
                    Timestamp::Frame(f) => f < usize::MAX,
                    Timestamp::Millis(m) => m <= usize::MAX - millis,
                };
                if !room {
                    Err(RuntimeError::Overflow)
                } else {
                    actions[i].step(millis);
                    actions[i].trigger(context, globals, components, action_activeness, operations)
                }
            },
        };
        match step {
            Ok(()) => {
                proof {
                    assert(actions@.len() == before.len());
                    assert forall|k: int| 0 <= k < before.len() && k != i implies actions@[k]
                        == before[k] by {}
                    let a = done[i as int];
                    if active@[a.name] {
                        assert(actions_view(actions@) =~= done.update(
                            i as int,
                            a.stepped(millis as nat).triggered(),
                        ));
                    } else {
                        assert(actions_view(actions@) =~= done);
                    }
                    assert forall|k: int| 0 <= k < actions@.len() implies (
                    #[trigger] actions_view(actions@)[k]).wf() by {
                        if k != i {
                            assert(actions_view(actions@)[k] == done[k]);
                        }
                    }
                }
            },
            Err(e) => {
                proof {
                    assert(pass(first, active@, start, ops, millis as nat, (i + 1) as nat) == Err::<
                        (Seq<ActionView>, Machine),
                        RuntimeError,
                    >(e));
                    lemma_pass_error(
                        first,
                        active@,
                        start,
                        ops,
                        millis as nat,
                        (i + 1) as nat,
                        first.len(),
                    );
                }
                return Err(e);
            },
        }
        i += 1;
    }
    Ok(())
}

} // verus!
