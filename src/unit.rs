use vstd::prelude::*;
use crate::delay::{
    ConfigurationError, TargetGroupAttribute, deregistration_timeout, spec_deregistration_timeout,
    delay_values, spec_parse_seconds,
};

verus! {

/// What is done with the instance in every target group of a run.
#[derive(Clone, Copy, Debug, PartialEq, Eq, Structural)]
pub enum Action {
    Register,
    Deregister,
}

/// What a deregistration does once the instance has left the target group.
#[derive(Clone, Copy, Debug, PartialEq, Eq, Structural)]
pub enum WaitPolicy {
    /// Finish at once.
    NoWait,
    /// Read the target group's configured deregistration delay and wait that long.
    TargetGroupDelay,
    /// Wait the given number of seconds, whatever the target group says.
    FixedDelay(u32),
}

/// A remote operation on one target group.
#[derive(Clone, Copy, Debug, PartialEq, Eq, Structural)]
pub enum RemoteCall {
    Register,
    Deregister,
    DescribeAttributes,
}

/// Why one target group's unit of work failed.
#[derive(Clone, Copy, Debug, PartialEq, Eq, Structural)]
pub enum UnitError {
    /// The remote service rejected the call.
    Remote(RemoteCall),
    /// The deregistration delay could not be read from the target group.
    Configuration(ConfigurationError),
}

/// How one target group's unit of work ended.
#[derive(Clone, Copy, Debug, PartialEq, Eq, Structural)]
pub enum Outcome {
    /// Done; `wait_skipped` tells that a deregistration finished without waiting.
    Succeeded { wait_skipped: bool },
    Failed(UnitError),
}

/// Where a unit of work stands.
#[derive(Clone, Copy, Debug, PartialEq, Eq, Structural)]
pub enum Phase {
    Idle,
    Registering,
    Deregistering,
    ResolvingDelay,
    Draining,
    Finished,
}

/// What the caller has to do next for a unit of work.
#[derive(Clone, Copy, Debug, PartialEq, Eq, Structural)]
pub enum Command {
    /// Make this remote call on the unit's target group, and report how it went.
    Call(RemoteCall),
    /// Suspend this unit (and only it) for the given number of seconds.
    Sleep(u32),
    /// The unit is over.
    Finish(Outcome),
}

/// What the caller reports back after carrying out a command.
pub enum Event {
    /// The remote call was accepted.
    CallSucceeded,
    /// The remote call was rejected.
    CallFailed,
    /// The description of the target group came back with this attribute list.
    DelayAttributes(Option<Vec<TargetGroupAttribute>>),
    /// The suspension is over.
    DrainElapsed,
}

pub open spec fn owned_attrs_view(a: Option<Vec<TargetGroupAttribute>>) -> Option<
    Seq<TargetGroupAttribute>,
> {
    match a {
        Some(v) => Some(v@),
        None => None,
    }
}

/// The phase and command with which a unit of work begins.
pub open spec fn first_command(action: Action) -> (Phase, Command) {
    match action {
        Action::Register => (Phase::Registering, Command::Call(RemoteCall::Register)),
        Action::Deregister => (Phase::Deregistering, Command::Call(RemoteCall::Deregister)),
    }
}

pub open spec fn finished(outcome: Outcome) -> (Phase, Command) {
    (Phase::Finished, Command::Finish(outcome))
}

pub open spec fn failed(e: UnitError) -> (Phase, Command) {
    finished(Outcome::Failed(e))
}

/// What follows once the instance has left the target group.
pub open spec fn after_deregistration(wait: WaitPolicy) -> (Phase, Command) {
    match wait {
        WaitPolicy::NoWait => finished(Outcome::Succeeded { wait_skipped: true }),
        WaitPolicy::TargetGroupDelay => (
            Phase::ResolvingDelay,
            Command::Call(RemoteCall::DescribeAttributes),
        ),
        WaitPolicy::FixedDelay(t) => (Phase::Draining, Command::Sleep(t)),
    }
}

/// The next phase and command after `event` in `phase`; `None` where the phase does
/// not expect that event.
pub open spec fn spec_step(wait: WaitPolicy, phase: Phase, event: Event) -> Option<(Phase, Command)> {
    match phase {
        Phase::Registering => match event {
            Event::CallSucceeded => Some(finished(Outcome::Succeeded { wait_skipped: false })),
            Event::CallFailed => Some(failed(UnitError::Remote(RemoteCall::Register))),
            _ => None,
        },
        Phase::Deregistering => match event {
            Event::CallSucceeded => Some(after_deregistration(wait)),
            Event::CallFailed => Some(failed(UnitError::Remote(RemoteCall::Deregister))),
            _ => None,
        },
        Phase::ResolvingDelay => match event {
            Event::CallFailed => Some(failed(UnitError::Remote(RemoteCall::DescribeAttributes))),
            Event::DelayAttributes(a) => Some(
                match spec_deregistration_timeout(owned_attrs_view(a)) {
                    Ok(t) => (Phase::Draining, Command::Sleep(t)),
                    Err(e) => failed(UnitError::Configuration(e)),
                },
            ),
            _ => None,
        },
        Phase::Draining => match event {
            Event::DrainElapsed => Some(finished(Outcome::Succeeded { wait_skipped: false })),
            _ => None,
        },
        _ => None,
    }
}

/// One target group's unit of work: register the instance, or deregister it and
/// then wait as `wait` says.
pub struct Unit {
    pub target_group: String,
    pub action: Action,
    pub wait: WaitPolicy,
    pub phase: Phase,
}

impl Unit {
    /// A unit of work that has not started yet.
    pub fn new(target_group: String, action: Action, wait: WaitPolicy) -> (r: Unit)
        ensures
            r.target_group@ == target_group@,
            r.action == action,
            r.wait == wait,
            r.phase == Phase::Idle,
    {
        Unit { target_group, action, wait, phase: Phase::Idle }
    }

    /// Starts the unit: its first command is the register or deregister call.
    pub fn start(&mut self) -> (c: Command)
        requires
            old(self).phase == Phase::Idle,
        ensures
            (final(self).phase, c) == first_command(old(self).action),
            final(self).target_group == old(self).target_group,
            final(self).action == old(self).action,
            final(self).wait == old(self).wait,
    {
        match self.action {
            Action::Register => {
                self.phase = Phase::Registering;
                Command::Call(RemoteCall::Register)
            },
            Action::Deregister => {
                self.phase = Phase::Deregistering;
                Command::Call(RemoteCall::Deregister)
            },
        }
    }

    /// Whether the unit, where it stands, expects `event`.
    pub fn accepts(&self, event: &Event) -> (r: bool)
        ensures
            r == spec_step(self.wait, self.phase, *event) is Some,
    {
        match (self.phase, event) {
            (Phase::Registering, Event::CallSucceeded) => true,
            (Phase::Registering, Event::CallFailed) => true,
            (Phase::Deregistering, Event::CallSucceeded) => true,
            (Phase::Deregistering, Event::CallFailed) => true,
            (Phase::ResolvingDelay, Event::CallFailed) => true,
            (Phase::ResolvingDelay, Event::DelayAttributes(_)) => true,
            (Phase::Draining, Event::DrainElapsed) => true,
            _ => false,
        }
    }

    /// Whether the unit is over.
    pub fn is_finished(&self) -> (r: bool)
        ensures
            r == (self.phase == Phase::Finished),
    {
        match self.phase {
            Phase::Finished => true,
            _ => false,
        }
    }

    /// Takes in how the last command went and gives the next one.
    pub fn on_event(&mut self, event: Event) -> (c: Command)
        requires
            spec_step(old(self).wait, old(self).phase, event) is Some,
        ensures
            spec_step(old(self).wait, old(self).phase, event) == Some((final(self).phase, c)),
            final(self).target_group == old(self).target_group,
            final(self).action == old(self).action,
            final(self).wait == old(self).wait,
    {
        let (phase, command) = match (self.phase, event) {
            (Phase::Registering, Event::CallSucceeded) => (
                Phase::Finished,
                Command::Finish(Outcome::Succeeded { wait_skipped: false }),
            ),
            (Phase::Registering, _) => (
                Phase::Finished,
                Command::Finish(Outcome::Failed(UnitError::Remote(RemoteCall::Register))),
            ),
            (Phase::Deregistering, Event::CallSucceeded) => match self.wait {
                WaitPolicy::NoWait => (
                    Phase::Finished,
                    Command::Finish(Outcome::Succeeded { wait_skipped: true }),
                ),
                WaitPolicy::TargetGroupDelay => (
                    Phase::ResolvingDelay,
                    Command::Call(RemoteCall::DescribeAttributes),
                ),
                WaitPolicy::FixedDelay(t) => (Phase::Draining, Command::Sleep(t)),
            },
            (Phase::Deregistering, _) => (
                Phase::Finished,
                Command::Finish(Outcome::Failed(UnitError::Remote(RemoteCall::Deregister))),
            ),
            (Phase::ResolvingDelay, Event::DelayAttributes(a)) => {
                let timeout = match &a {
                    Some(v) => deregistration_timeout(Some(v)),
                    None => deregistration_timeout(None),
                };
                match timeout {
                    Ok(t) => (Phase::Draining, Command::Sleep(t)),
                    Err(e) => (
                        Phase::Finished,
                        Command::Finish(Outcome::Failed(UnitError::Configuration(e))),
                    ),
                }
            },
            (Phase::ResolvingDelay, _) => (
                Phase::Finished,
                Command::Finish(
                    Outcome::Failed(UnitError::Remote(RemoteCall::DescribeAttributes)),
                ),
            ),
            (_, _) => (Phase::Finished, Command::Finish(Outcome::Succeeded { wait_skipped: false })),
        };
        self.phase = phase;
        command
    }
}

/// The phase reached and the commands given when `events` are handed, one by one,
/// to a unit in `phase`; it stops at the first event the unit does not expect.
pub open spec fn run_events(wait: WaitPolicy, phase: Phase, events: Seq<Event>) -> (Phase, Seq<Command>)
    decreases events.len(),
{
    if events.len() == 0 {
        (phase, Seq::empty())
    } else {
        match spec_step(wait, phase, events[0]) {
            Some((p, c)) => {
                let rest = run_events(wait, p, events.drop_first());
                (rest.0, seq![c] + rest.1)
            },
            None => (phase, Seq::empty()),
        }
    }
}

/// Every command that a unit of work gives, from its start, when it is handed `events`.
pub open spec fn trace(action: Action, wait: WaitPolicy, events: Seq<Event>) -> Seq<Command> {
    let (p, c) = first_command(action);
    seq![c] + run_events(wait, p, events).1
}

pub open spec fn is_wait_command(c: Command) -> bool {
    c is Sleep || c == Command::Call(RemoteCall::DescribeAttributes)
}

proof fn lemma_finished_is_silent(wait: WaitPolicy, events: Seq<Event>)
    ensures
        run_events(wait, Phase::Finished, events).1 == Seq::<Command>::empty(),
{
}

proof fn lemma_no_wait_run(phase: Phase, events: Seq<Event>)
    requires
        phase == Phase::Registering || phase == Phase::Deregistering || phase == Phase::Finished,
    ensures
        forall|i: int|
            0 <= i < run_events(WaitPolicy::NoWait, phase, events).1.len() ==> !is_wait_command(
                #[trigger] run_events(WaitPolicy::NoWait, phase, events).1[i],
            ),
    decreases events.len(),
{
    if events.len() > 0 {
        match spec_step(WaitPolicy::NoWait, phase, events[0]) {
            Some((p, c)) => {
                lemma_no_wait_run(p, events.drop_first());
                let rest = run_events(WaitPolicy::NoWait, p, events.drop_first()).1;
                assert forall|i: int|
                    0 <= i < (seq![c] + rest).len() implies !is_wait_command(
                    #[trigger] (seq![c] + rest)[i],
                ) by {
                    if i > 0 {
                        assert((seq![c] + rest)[i] == rest[i - 1]);
                    }
                }
            },
            None => {},
        }
    }
}

/// A deregistration that does not wait never reads the delay and never sleeps,
/// whatever happens to its calls; once the instance has left the target group it
/// finishes at once, reporting that the wait was skipped.
pub proof fn lemma_no_wait_never_waits(events: Seq<Event>)
    ensures
        forall|i: int|
            0 <= i < trace(Action::Deregister, WaitPolicy::NoWait, events).len()
                ==> !is_wait_command(#[trigger] trace(Action::Deregister, WaitPolicy::NoWait, events)[i]),
        events.len() > 0 && events[0] is CallSucceeded ==> trace(
            Action::Deregister,
            WaitPolicy::NoWait,
            events,
        ) == seq![
            Command::Call(RemoteCall::Deregister),
            Command::Finish(Outcome::Succeeded { wait_skipped: true }),
        ],
{
    let rest = run_events(WaitPolicy::NoWait, Phase::Deregistering, events).1;
    lemma_no_wait_run(Phase::Deregistering, events);
    let t = trace(Action::Deregister, WaitPolicy::NoWait, events);
    assert forall|i: int| 0 <= i < t.len() implies !is_wait_command(#[trigger] t[i]) by {
        if i > 0 {
            assert(t[i] == rest[i - 1]);
        }
    }
    if events.len() > 0 && events[0] is CallSucceeded {
        lemma_finished_is_silent(WaitPolicy::NoWait, events.drop_first());
        assert(t == seq![
            Command::Call(RemoteCall::Deregister),
            Command::Finish(Outcome::Succeeded { wait_skipped: true }),
        ]);
    }
}

/// A deregistration that waits on the target group's delay, once the instance has
/// left and the delay reads as `t` seconds, sleeps exactly `t` seconds and then
/// succeeds.
pub proof fn lemma_waits_for_configured_delay(attributes: Option<Vec<TargetGroupAttribute>>, t: u32)
    requires
        spec_deregistration_timeout(owned_attrs_view(attributes)) == Ok::<u32, ConfigurationError>(t),
    ensures
        trace(
            Action::Deregister,
            WaitPolicy::TargetGroupDelay,
            seq![Event::CallSucceeded, Event::DelayAttributes(attributes), Event::DrainElapsed],
        ) == seq![
            Command::Call(RemoteCall::Deregister),
            Command::Call(RemoteCall::DescribeAttributes),
            Command::Sleep(t),
            Command::Finish(Outcome::Succeeded { wait_skipped: false }),
        ],
{
    let w = WaitPolicy::TargetGroupDelay;
    let e = seq![Event::CallSucceeded, Event::DelayAttributes(attributes), Event::DrainElapsed];
    let e1 = e.drop_first();
    let e2 = e1.drop_first();
    assert(e1[0] == Event::DelayAttributes(attributes));
    assert(e2[0] == Event::DrainElapsed);
    lemma_finished_is_silent(w, e2.drop_first());
    let done = Command::Finish(Outcome::Succeeded { wait_skipped: false });
    assert(run_events(w, Phase::Draining, e2).1 =~= seq![done]);
    assert(run_events(w, Phase::ResolvingDelay, e1).1 =~= seq![Command::Sleep(t), done]);
    assert(run_events(w, Phase::Deregistering, e).1 =~= seq![
        Command::Call(RemoteCall::DescribeAttributes),
        Command::Sleep(t),
        done,
    ]);
    assert(trace(Action::Deregister, w, e) =~= seq![
        Command::Call(RemoteCall::Deregister),
        Command::Call(RemoteCall::DescribeAttributes),
        Command::Sleep(t),
        done,
    ]);
}

/// A deregistration that waits on the target group's delay fails with the
/// configuration error, and never sleeps, whatever the caller reports afterwards,
/// when the delay cannot be read from the attributes: no single value, or a value
/// that is not a number of seconds.
pub proof fn lemma_unreadable_delay_fails_without_sleeping(
    attributes: Option<Vec<TargetGroupAttribute>>,
    later: Seq<Event>,
)
    requires
        spec_deregistration_timeout(owned_attrs_view(attributes)) is Err,
    ensures
        trace(
            Action::Deregister,
            WaitPolicy::TargetGroupDelay,
            seq![Event::CallSucceeded, Event::DelayAttributes(attributes)] + later,
        ) == seq![
            Command::Call(RemoteCall::Deregister),
            Command::Call(RemoteCall::DescribeAttributes),
            Command::Finish(
                Outcome::Failed(
                    UnitError::Configuration(
                        spec_deregistration_timeout(owned_attrs_view(attributes))->Err_0,
                    ),
                ),
            ),
        ],
{
    let w = WaitPolicy::TargetGroupDelay;
    let e = seq![Event::CallSucceeded, Event::DelayAttributes(attributes)] + later;
    let e1 = e.drop_first();
    assert(e[0] == Event::CallSucceeded);
    assert(e1[0] == Event::DelayAttributes(attributes));
    lemma_finished_is_silent(w, e1.drop_first());
    let fail = Command::Finish(
        Outcome::Failed(
            UnitError::Configuration(spec_deregistration_timeout(owned_attrs_view(attributes))->Err_0),
        ),
    );
    assert(run_events(w, Phase::ResolvingDelay, e1).1 =~= seq![fail]);
    assert(run_events(w, Phase::Deregistering, e).1 =~= seq![
        Command::Call(RemoteCall::DescribeAttributes),
        fail,
    ]);
    assert(trace(Action::Deregister, w, e) =~= seq![
        Command::Call(RemoteCall::Deregister),
        Command::Call(RemoteCall::DescribeAttributes),
        fail,
    ]);
}

/// Where no attribute, or more than one, gives the deregistration delay, a
/// deregistration that waits on it fails with that configuration error and never
/// sleeps.
pub proof fn lemma_delay_not_unique_fails(attributes: Vec<TargetGroupAttribute>, later: Seq<Event>)
    requires
        delay_values(attributes@).len() != 1,
    ensures
        trace(
            Action::Deregister,
            WaitPolicy::TargetGroupDelay,
            seq![Event::CallSucceeded, Event::DelayAttributes(Some(attributes))] + later,
        ) == seq![
            Command::Call(RemoteCall::Deregister),
            Command::Call(RemoteCall::DescribeAttributes),
            Command::Finish(
                Outcome::Failed(
                    UnitError::Configuration(
                        ConfigurationError::DelayNotUnique {
                            found: delay_values(attributes@).len() as usize,
                        },
                    ),
                ),
            ),
        ],
{
    lemma_unreadable_delay_fails_without_sleeping(Some(attributes), later);
}

/// Where the one value of the deregistration delay is not a number of seconds that
/// fits in `u32`, a deregistration that waits on it fails with that configuration
/// error and never sleeps.
pub proof fn lemma_invalid_delay_fails(attributes: Vec<TargetGroupAttribute>, later: Seq<Event>)
    requires
        delay_values(attributes@).len() == 1,
        spec_parse_seconds(delay_values(attributes@)[0]) is None,
    ensures
        trace(
            Action::Deregister,
            WaitPolicy::TargetGroupDelay,
            seq![Event::CallSucceeded, Event::DelayAttributes(Some(attributes))] + later,
        ) == seq![
            Command::Call(RemoteCall::Deregister),
            Command::Call(RemoteCall::DescribeAttributes),
            Command::Finish(
                Outcome::Failed(UnitError::Configuration(ConfigurationError::InvalidTimeout)),
            ),
        ],
{
    lemma_unreadable_delay_fails_without_sleeping(Some(attributes), later);
}

} // verus!
