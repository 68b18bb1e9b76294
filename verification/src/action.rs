use crate::context::Context;
use crate::error::RuntimeError;
use crate::event::activeness::Activeness;
use crate::event::component::Components;
use crate::event::events::{
    events_view, lemma_run_events_error, machine, run_events, Event, EventView, Machine, Operation,
};
use crate::variable::stack::Stack;
use std::collections::HashMap;
use vstd::arithmetic::div_mod::{lemma_fundamental_div_mod, lemma_fundamental_div_mod_converse};
use vstd::prelude::*;

verus! {

/// A point on the clock of an action: a number of frames, or a number of
/// milliseconds.
#[derive(Debug, Clone, Copy, PartialEq, Eq, Structural)]
pub enum Timestamp {
    Frame(usize),
    Millis(usize),
}

impl Timestamp {
    /// The number that the timestamp carries.
    pub open spec fn count(self) -> nat {
        match self {
            Timestamp::Frame(n) => n as nat,
            Timestamp::Millis(n) => n as nat,
        }
    }

    /// Whether the two timestamps count the same thing.
    pub open spec fn same_kind(self, other: Timestamp) -> bool {
        (self is Frame) == (other is Frame)
    }
}

/// A list of events that fires when its clock reaches a target.
#[derive(Debug)]
pub struct Action {
    name: String,
    active: bool,
    to_activate: Timestamp,
    time_accumulator: Timestamp,
    events: Vec<Event>,
    onetime: bool,
    activated: bool,
}

/// What an action is to the contracts.
pub struct ActionView {
    pub name: Seq<char>,
    pub active: bool,
    pub to_activate: Timestamp,
    pub time_accumulator: Timestamp,
    pub events: Seq<EventView>,
    pub onetime: bool,
    pub activated: bool,
}

impl View for Action {
    type V = ActionView;

    closed spec fn view(&self) -> ActionView {
        ActionView {
            name: self.name@,
            active: self.active,
            to_activate: self.to_activate,
            time_accumulator: self.time_accumulator,
            events: events_view(self.events@),
            onetime: self.onetime,
            activated: self.activated,
        }
    }
}

impl ActionView {
    /// The target and the accumulator count the same thing, and the target
    /// is not 0.
    pub open spec fn wf(self) -> bool {
        self.to_activate.same_kind(self.time_accumulator) && self.to_activate.count() > 0
    }

    /// The action after a step of `millis` milliseconds: a clock of frames
    /// goes on by one frame, a clock of milliseconds by `millis`.
    pub open spec fn stepped(self, millis: nat) -> ActionView {
        ActionView {
            time_accumulator: match self.time_accumulator {
                Timestamp::Frame(f) => Timestamp::Frame((f + 1) as usize),
                Timestamp::Millis(m) => Timestamp::Millis((m + millis) as usize),
            },
            ..self
        }
    }

    /// How often the action fires when it is triggered.
    ///
    /// A one-shot action that has fired does not fire again. An action on a
    /// clock of frames fires once if its accumulator has reached the target.
    /// An action on a clock of milliseconds fires once for each time that
    /// the target fits into its accumulator, but only once if it is a
    /// one-shot action.
    pub open spec fn firings(self) -> nat {
        if self.onetime && self.activated {
            0
        } else if self.time_accumulator.count() < self.to_activate.count() {
            0
        } else if self.to_activate is Frame || self.onetime {
            1
        } else {
            self.time_accumulator.count() / self.to_activate.count()
        }
    }

    /// The action after it was triggered: a clock of frames that fired
    /// starts again at 0; a clock of milliseconds keeps what is left over
    /// after its firings, but a one-shot action keeps its accumulator; a
    /// one-shot action that fired is marked.
    pub open spec fn triggered(self) -> ActionView {
        if self.firings() == 0 {
            self
        } else {
            ActionView {
                time_accumulator: match self.time_accumulator {
                    Timestamp::Frame(_) => Timestamp::Frame(0),
                    Timestamp::Millis(m) => if self.onetime {
                        Timestamp::Millis(m)
                    } else {
                        Timestamp::Millis((m as nat % self.to_activate.count()) as usize)
                    },
                },
                activated: self.activated || self.onetime,
                ..self
            }
        }
    }
}

/// What `count` firings of the events do to the machine, each running all
/// the events in turn.
pub open spec fn run_firings(
    events: Seq<EventView>,
    m: Machine,
    ops: Map<usize, Operation>,
    count: nat,
) -> Result<Machine, RuntimeError>
    decreases count,
{
    if count == 0 {
        Ok(m)
    } else {
        match run_firings(events, m, ops, (count - 1) as nat) {
            Err(e) => Err(e),
            Ok(m1) => run_events(events, m1, ops, events.len()),
        }
    }
}

/// An error among the first `k` firings is the error of any more.
pub proof fn lemma_run_firings_error(
    events: Seq<EventView>,
    m: Machine,
    ops: Map<usize, Operation>,
    k: nat,
    n: nat,
)
    requires
        run_firings(events, m, ops, k) is Err,
        k <= n,
    ensures
        run_firings(events, m, ops, n) == run_firings(events, m, ops, k),
    decreases n,
{
    if k < n {
        lemma_run_firings_error(events, m, ops, k, (n - 1) as nat);
    }
}

impl Action {
    /// A new action; the target and the accumulator must count the same
    /// thing, and the target must not be 0.
    pub fn new(
        name: String,
        active: bool,
        to_activate: Timestamp,
        time_accumulator: Timestamp,
        events: Vec<Event>,
        onetime: bool,
    ) -> (r: Self)
        requires
            to_activate.same_kind(time_accumulator),
            to_activate.count() > 0,
        ensures
            r@.wf(),
            r@ == (ActionView {
                name: name@,
                active,
                to_activate,
                time_accumulator,
                events: events_view(events@),
                onetime,
                activated: false,
            }),
    {
        Action { name, active, to_activate, time_accumulator, events, onetime, activated: false }
    }

    /// Whether the action is active according to the flags, which must know
    /// the action.
    pub fn is_active(&self, action_activeness: &Activeness) -> (r: bool)
        requires
            action_activeness@.contains_key(self@.name),
        ensures
            r == action_activeness@[self@.name],
    {
        match action_activeness.get(self.name.as_str()) {
            Some(b) => b,
            None => false,
        }
    }

    pub fn activate(&mut self)
        ensures
            final(self)@ == (ActionView { active: true, ..old(self)@ }),
    {
        self.active = true;
    }

    pub fn default_activeness(&self) -> (r: bool)
        ensures
            r == self@.active,
    {
        self.active
    }

    pub fn clear_accumulator(&mut self)
        ensures
            final(self)@ == (ActionView {
                time_accumulator: match old(self)@.to_activate {
                    Timestamp::Frame(_) => Timestamp::Frame(0),
                    Timestamp::Millis(_) => Timestamp::Millis(0),
                },
                ..old(self)@
            }),
    {
        self.time_accumulator = match self.to_activate {
            Timestamp::Frame(_) => Timestamp::Frame(0),
            Timestamp::Millis(_) => Timestamp::Millis(0),
        };
    }

    pub fn deactivate(&mut self)
        ensures
            final(self)@ == (ActionView { active: false, ..old(self)@ }),
    {
        self.active = false;
    }

    pub fn get_events(&self) -> (r: &Vec<Event>)
        ensures
            events_view(r@) == self@.events,
    {
        &self.events
    }

    pub fn is_onetime(&self) -> (r: bool)
        ensures
            r == self@.onetime,
    {
        self.onetime
    }

    pub fn get_name(&self) -> (r: &str)
        ensures
            r@ == self@.name,
    {
        self.name.as_str()
    }

    /// The target of the clock.
    pub fn get_target(&self) -> (r: Timestamp)
        ensures
            r == self@.to_activate,
    {
        self.to_activate
    }

    /// What the clock has gathered.
    pub fn get_accumulator(&self) -> (r: Timestamp)
        ensures
            r == self@.time_accumulator,
    {
        self.time_accumulator
    }

    /// Whether the action is a one-shot action that has fired.
    pub fn has_fired(&self) -> (r: bool)
        ensures
            r == self@.activated,
    {
        self.activated
    }

    /// Advances the clock; see `ActionView::stepped`. The accumulator must
    /// have room for the step.
    pub fn step(&mut self, millis: usize)
        requires
            old(self)@.wf(),
            match old(self)@.time_accumulator {
                Timestamp::Frame(f) => f < usize::MAX,
                Timestamp::Millis(m) => m + millis <= usize::MAX,
            },
        ensures
            final(self)@.wf(),
            final(self)@ == old(self)@.stepped(millis as nat),
    {
        match self.time_accumulator {
            Timestamp::Frame(f) => {
                self.time_accumulator = Timestamp::Frame(f + 1);
            },
            Timestamp::Millis(m) => {
                self.time_accumulator = Timestamp::Millis(m + millis);
            },
        }
    }

    /// Fires the action as often as it is due; see `ActionView::firings`
    /// and `ActionView::triggered`. After an error the state is that in
    /// which the error was met.
    pub fn trigger(
        &mut self,
        context: &mut Context,
        scope: &mut Stack,
        components: &mut Components,
        action_activeness: &mut Activeness,
        operations: &HashMap<usize, Operation>,
    ) -> (r: Result<(), RuntimeError>)
        requires
            old(self)@.wf(),
        ensures
            match run_firings(
                old(self)@.events,
                machine(old(context)@, old(scope)@, old(action_activeness)@),
                operations@,
                old(self)@.firings(),
            ) {
                Ok(m) => {
                    &&& r is Ok
                    &&& machine(final(context)@, final(scope)@, final(action_activeness)@) == m
                    &&& final(self)@ == old(self)@.triggered()
                    &&& final(self)@.wf()
                },
                Err(e) => r == Err::<(), RuntimeError>(e),
            },
    {
        if self.onetime && self.activated {
            return Ok(());
        }
        let ghost start = machine(context@, scope@, action_activeness@);
        let ghost events = self@.events;
        let ghost ops = operations@;
        proof {
            assert(run_firings(events, start, ops, 0) == Ok::<Machine, RuntimeError>(start));
            assert(run_firings(events, start, ops, 1) == run_events(
                events,
                start,
                ops,
                events.len(),
            ));
        }
        match (self.to_activate, self.time_accumulator) {
            (Timestamp::Frame(i), Timestamp::Frame(acc)) => {
                if acc >= i {
                    match self.process_events(
                        context,
                        scope,
                        components,
                        action_activeness,
                        operations,
                    ) {
                        Ok(()) => {},
                        Err(e) => {
                            assert(old(self)@.firings() == 1);
                            return Err(e);
                        },
                    }
                    if self.onetime {
                        self.activated = true;
                    }
                    self.clear_accumulator();
                }
                Ok(())
            },
            (Timestamp::Millis(i), Timestamp::Millis(acc)) => {
                let mut tmp_acc = acc;
                let tmp_i = i;
                let mut fired: usize = 0;
                if self.onetime {
                    if tmp_acc >= tmp_i {
                        match self.process_events(
                            context,
                            scope,
                            components,
                            action_activeness,
                            operations,
                        ) {
                            Ok(()) => {},
                            Err(e) => {
                                assert(old(self)@.firings() == 1);
                                return Err(e);
                            },
                        }
                        self.activated = true;
                    }
                    return Ok(());
                }
                while tmp_acc >= tmp_i
                    invariant
                        tmp_i > 0,
                        tmp_i == i,
                        fired <= acc,
                        !self.onetime,
                        old(self)@.to_activate == Timestamp::Millis(i),
                        old(self)@.time_accumulator == Timestamp::Millis(acc),
                        start == machine(old(context)@, old(scope)@, old(action_activeness)@),
                        events == self@.events,
                        ops == operations@,
                        self@ == old(self)@,
                        acc == tmp_acc + fired * tmp_i,
                        run_firings(events, start, ops, fired as nat) == Ok::<Machine, RuntimeError>(
                            machine(context@, scope@, action_activeness@),
                        ),
                    decreases tmp_acc,
                {
                    match self.process_events(
                        context,
                        scope,
                        components,
                        action_activeness,
                        operations,
                    ) {
                        Ok(()) => {},
                        Err(e) => {
                            proof {
                                assert(run_firings(events, start, ops, (fired + 1) as nat) == Err::<
                                    Machine,
                                    RuntimeError,
                                >(e));
                                lemma_division(acc as int, tmp_i as int, fired as int, tmp_acc as int);
                                lemma_run_firings_error(
                                    events,
                                    start,
                                    ops,
                                    (fired + 1) as nat,
                                    (acc / tmp_i) as nat,
                                );
                            }
                            return Err(e);
                        },
                    }
                    proof {
                        lemma_division(acc as int, tmp_i as int, fired as int, tmp_acc as int);
                        vstd::arithmetic::div_mod::lemma_div_is_ordered_by_denominator(
                            acc as int,
                            1,
                            tmp_i as int,
                        );
                        vstd::arithmetic::div_mod::lemma_div_basics(acc as int);
                    }
                    tmp_acc -= tmp_i;
                    proof {
                        assert(acc == tmp_acc + (fired + 1) * tmp_i) by (nonlinear_arith)
                            requires
                                acc == tmp_acc + tmp_i + fired * tmp_i,
                        ;
                    }
                    fired += 1;
                }
                proof {
                    assert(acc as int == (tmp_i as int) * (fired as int) + (tmp_acc as int))
                        by (nonlinear_arith)
                        requires
                            acc == tmp_acc + fired * tmp_i,
                    ;
                    lemma_fundamental_div_mod_converse(
                        acc as int,
                        tmp_i as int,
                        fired as int,
                        tmp_acc as int,
                    );
                    if acc < tmp_i {
                        vstd::arithmetic::div_mod::lemma_basic_div(acc as int, tmp_i as int);
                    }
                    assert(old(self)@.firings() == fired);
                }
                self.time_accumulator = Timestamp::Millis(tmp_acc);
                Ok(())
            },
            _ => Ok(()),
        }
    }

    /// Runs all the events of the action once.
    fn process_events(
        &self,
        context: &mut Context,
        scope: &mut Stack,
        components: &mut Components,
        action_activeness: &mut Activeness,
        operations: &HashMap<usize, Operation>,
    ) -> (r: Result<(), RuntimeError>)
        ensures
            match run_events(
                self@.events,
                machine(old(context)@, old(scope)@, old(action_activeness)@),
                operations@,
                self@.events.len(),
            ) {
                Ok(m) => r is Ok && machine(
                    final(context)@,
                    final(scope)@,
                    final(action_activeness)@,
                ) == m,
                Err(e) => r == Err::<(), RuntimeError>(e),
            },
    {
        let ghost start = machine(context@, scope@, action_activeness@);
        let ghost events = self@.events;
        let mut k: usize = 0;
        while k < self.events.len()
            invariant
                k <= self.events.len(),
                events == self@.events,
                events == events_view(self.events@),
                start == machine(old(context)@, old(scope)@, old(action_activeness)@),
                run_events(events, start, operations@, k as nat) == Ok::<Machine, RuntimeError>(
                    machine(context@, scope@, action_activeness@),
                ),
            decreases self.events.len() - k,
        {
            assert(events[k as int] == self.events@[k as int]@);
            match self.events[k].process(
                context,
                scope,
                components,
                action_activeness,
                operations,
            ) {
                Ok(()) => {},
                Err(e) => {
                    proof {
                        assert(run_events(events, start, operations@, (k + 1) as nat) == Err::<
                            Machine,
                            RuntimeError,
                        >(e));
                        lemma_run_events_error(
                            events,
                            start,
                            operations@,
                            (k + 1) as nat,
                            events.len(),
                        );
                    }
                    return Err(e);
                },
            }
            k += 1;
        }
        Ok(())
    }
}

/// Where `fired` targets and something at least as large as the target make
/// up the accumulator, the target fits more often than `fired` times.
proof fn lemma_division(acc: int, target: int, fired: int, rest: int)
    requires
        target > 0,
        fired >= 0,
        rest >= target,
        acc == rest + fired * target,
    ensures
        fired + 1 <= acc / target,
{
    lemma_fundamental_div_mod(acc, target);
    let q = acc / target;
    let r = acc % target;
    vstd::arithmetic::div_mod::lemma_mod_bound(acc, target);
    assert(fired + 1 <= q) by (nonlinear_arith)
        requires
            acc == target * q + r,
            0 <= r < target,
            acc == rest + fired * target,
            rest >= target,
            target > 0,
    ;
}

impl Clone for Action {
    fn clone(&self) -> (r: Self)
        ensures
            r@ == self@,
    {
        Action {
            name: self.name.clone(),
            active: self.active,
            to_activate: self.to_activate,
            time_accumulator: self.time_accumulator,
            events: crate::event::events::clone_events(&self.events),
            onetime: self.onetime,
            activated: self.activated,
        }
    }
}

/// What an action is built from.
pub struct ActionBuilder {
    pub name: Option<String>,
    pub active: bool,
    pub to_activate: Option<Timestamp>,
    pub events: Option<Vec<Event>>,
    pub onetime: bool,
}

impl ActionBuilder {
    pub fn new() -> (r: Self)
        ensures
            r.name is None,
            r.active,
            r.to_activate is None,
            r.events is None,
            !r.onetime,
    {
        ActionBuilder { name: None, active: true, to_activate: None, events: None, onetime: false }
    }

    pub fn with_events(self, events: Vec<Event>) -> (r: Self)
        ensures
            r.events == Some(events),
            r.name == self.name,
            r.active == self.active,
            r.to_activate == self.to_activate,
            r.onetime == self.onetime,
    {
        let mut b = self;
        b.events = Some(events);
        b
    }

    pub fn named(self, name: &str) -> (r: Self)
        ensures
            r.name is Some,
            r.name->Some_0@ == name@,
            r.events == self.events,
            r.active == self.active,
            r.to_activate == self.to_activate,
            r.onetime == self.onetime,
    {
        let mut b = self;
        b.name = Some(name.to_owned());
        b
    }

    pub fn onetime(self, onetime: bool) -> (r: Self)
        ensures
            r.onetime == onetime,
            r.name == self.name,
            r.active == self.active,
            r.to_activate == self.to_activate,
            r.events == self.events,
    {
        let mut b = self;
        b.onetime = onetime;
        b
    }

    pub fn activated_at(self, ts: Timestamp) -> (r: Self)
        ensures
            r.to_activate == Some(ts),
            r.name == self.name,
            r.active == self.active,
            r.events == self.events,
            r.onetime == self.onetime,
    {
        let mut b = self;
        b.to_activate = Some(ts);
        b
    }

    /// The action; it must have got a name and a target that is not 0. Its
    /// clock starts at 0, and without events it has none.
    pub fn build(self) -> (r: Action)
        requires
            self.name is Some,
            self.to_activate is Some,
            self.to_activate->Some_0.count() > 0,
        ensures
            r@.wf(),
            r@ == (ActionView {
                name: self.name->Some_0@,
                active: self.active,
                to_activate: self.to_activate->Some_0,
                time_accumulator: match self.to_activate->Some_0 {
                    Timestamp::Frame(_) => Timestamp::Frame(0),
                    Timestamp::Millis(_) => Timestamp::Millis(0),
                },
                events: match self.events {
                    Some(events) => events_view(events@),
                    None => Seq::empty(),
                },
                onetime: self.onetime,
                activated: false,
            }),
    {
        let to_activate = self.to_activate.unwrap();
        let acc = match to_activate {
            Timestamp::Frame(_) => Timestamp::Frame(0),
            Timestamp::Millis(_) => Timestamp::Millis(0),
        };
        let events = match self.events {
            Some(events) => events,
            None => {
                let none: Vec<Event> = Vec::new();
                assert(events_view(none@) =~= Seq::<EventView>::empty());
                none
            },
        };
        Action::new(self.name.unwrap(), self.active, to_activate, acc, events, self.onetime)
    }
}

/// The action after `n` pairs of a step and a trigger, the `k`-th step being
/// one of `deltas[k]` milliseconds.
pub open spec fn after_pairs(a: ActionView, deltas: Seq<nat>, n: nat) -> ActionView
    decreases n,
{
    if n == 0 {
        a
    } else {
        after_pairs(a, deltas, (n - 1) as nat).stepped(deltas[n - 1]).triggered()
    }
}

/// How often the action fires in `n` pairs of a step and a trigger.
pub open spec fn fired_in_pairs(a: ActionView, deltas: Seq<nat>, n: nat) -> nat
    decreases n,
{
    if n == 0 {
        0
    } else {
        fired_in_pairs(a, deltas, (n - 1) as nat) + after_pairs(
            a,
            deltas,
            (n - 1) as nat,
        ).stepped(deltas[n - 1]).firings()
    }
}

/// A repeating action on a clock of frames with the target `t` that starts
/// at 0 has fired `n / t` times after `n` pairs of a step and a trigger, and
/// its accumulator stands at `n % t`: it fires exactly once every `t` pairs.
pub proof fn lemma_frame_action_period(a: ActionView, deltas: Seq<nat>, n: nat)
    requires
        a.wf(),
        a.to_activate is Frame,
        a.time_accumulator == Timestamp::Frame(0),
        !a.onetime,
        n <= usize::MAX,
    ensures
        fired_in_pairs(a, deltas, n) == n / a.to_activate.count(),
        after_pairs(a, deltas, n).time_accumulator == Timestamp::Frame(
            (n % a.to_activate.count()) as usize,
        ),
        after_pairs(a, deltas, n).to_activate == a.to_activate,
        !after_pairs(a, deltas, n).onetime,
    decreases n,
{
    let t = a.to_activate.count() as int;
    if n == 0 {
        vstd::arithmetic::div_mod::lemma_basic_div(0, t);
        vstd::arithmetic::div_mod::lemma_small_mod(0, t as nat);
    } else {
        lemma_frame_action_period(a, deltas, (n - 1) as nat);
        let before = after_pairs(a, deltas, (n - 1) as nat);
        let q = (n - 1) / t;
        let r = (n - 1) % t;
        lemma_fundamental_div_mod(n - 1, t);
        vstd::arithmetic::div_mod::lemma_mod_bound(n - 1, t);
        let stepped = before.stepped(deltas[n - 1]);
        assert(stepped.time_accumulator == Timestamp::Frame((r + 1) as usize));
        if r + 1 == t {
            assert(n == t * (q + 1) + 0) by (nonlinear_arith)
                requires
                    n - 1 == t * q + r,
                    r + 1 == t,
            ;
            lemma_fundamental_div_mod_converse(n as int, t, q + 1, 0);
            assert(stepped.firings() == 1);
        } else {
            assert(n == t * q + (r + 1)) by (nonlinear_arith)
                requires
                    n - 1 == t * q + r,
            ;
            lemma_fundamental_div_mod_converse(n as int, t, q, r + 1);
            assert(stepped.firings() == 0);
        }
    }
}

/// A one-shot action fires at most once in any number of pairs of a step
/// and a trigger, and not at all once it has fired; whether it is active
/// plays no part in that.
pub proof fn lemma_one_shot_fires_once(a: ActionView, deltas: Seq<nat>, n: nat)
    requires
        a.onetime,
    ensures
        fired_in_pairs(a, deltas, n) <= 1,
        a.activated ==> fired_in_pairs(a, deltas, n) == 0,
        fired_in_pairs(a, deltas, n) == 1 ==> after_pairs(a, deltas, n).activated,
        a.activated ==> after_pairs(a, deltas, n).activated,
        after_pairs(a, deltas, n).onetime,
    decreases n,
{
    if n > 0 {
        lemma_one_shot_fires_once(a, deltas, (n - 1) as nat);
    }
}

/// Making a one-shot action active again does not let it fire again.
pub proof fn lemma_reactivation_does_not_refire(a: ActionView)
    requires
        a.onetime,
        a.activated,
    ensures
        (ActionView { active: true, ..a }).firings() == 0,
        (ActionView { active: true, ..a }).triggered().activated,
{
}

/// A repeating action on a clock of milliseconds whose accumulator stands
/// at `acc` fires, after a step of `delta` milliseconds, once for each time
/// that its target fits into `acc + delta`, and keeps what is left over.
pub proof fn lemma_catch_up(a: ActionView, delta: nat)
    requires
        a.wf(),
        a.to_activate is Millis,
        !a.onetime,
        a.time_accumulator.count() + delta <= usize::MAX,
    ensures
        a.stepped(delta).firings() == (a.time_accumulator.count() + delta)
            / a.to_activate.count(),
        a.stepped(delta).triggered().time_accumulator == Timestamp::Millis(
            ((a.time_accumulator.count() + delta) % a.to_activate.count()) as usize,
        ),
{
    let t = a.to_activate.count() as int;
    let total = (a.time_accumulator.count() + delta) as int;
    if total < t {
        vstd::arithmetic::div_mod::lemma_basic_div(total, t);
        vstd::arithmetic::div_mod::lemma_small_mod(total as nat, t as nat);
    } else {
        lemma_fundamental_div_mod(total, t);
        vstd::arithmetic::div_mod::lemma_mod_bound(total, t);
        assert(total / t >= 1) by (nonlinear_arith)
            requires
                total == t * (total / t) + total % t,
                0 <= total % t < t,
                total >= t,
                t > 0,
        ;
    }
}

} // verus!
