use tg_membership::delay::{ConfigurationError, TargetGroupAttribute, DELAY_KEY};
use tg_membership::fanout::{plan_units, prepare_run, Outcomes, RunError};
use tg_membership::unit::{
    Action, Command, Event, Outcome, Phase, RemoteCall, Unit, UnitError, WaitPolicy,
};

fn names(list: &[&str]) -> Vec<String> {
    list.iter().map(|s| s.to_string()).collect()
}

fn delay_attr(value: &str) -> TargetGroupAttribute {
    TargetGroupAttribute {
        key: Some(DELAY_KEY.to_string()),
        value: Some(value.to_string()),
    }
}

/// Hands `events` to a fresh unit and collects every command it gives.
fn drive(action: Action, wait: WaitPolicy, events: Vec<Event>) -> Vec<Command> {
    let mut unit = Unit::new("tg".to_string(), action, wait);
    let mut commands = vec![unit.start()];
    for event in events {
        if !unit.accepts(&event) {
            break;
        }
        commands.push(unit.on_event(event));
    }
    commands
}

#[test]
fn register_two_groups_with_one_rejected() {
    let tgs = names(&["tg-a", "tg-b"]);
    let plan = prepare_run(
        Some("i-0123".to_string()),
        None,
        Action::Register,
        WaitPolicy::TargetGroupDelay,
        &tgs,
    )
    .unwrap();
    assert_eq!(plan.target.instance_id, "i-0123");
    assert_eq!(plan.target.port, None);
    let mut units = plan.units;
    assert_eq!(units.len(), 2);
    assert_eq!(units[0].start(), Command::Call(RemoteCall::Register));
    assert_eq!(units[1].start(), Command::Call(RemoteCall::Register));

    let mut outcomes = Outcomes::new(units.len());
    let b = units[1].on_event(Event::CallFailed);
    let a = units[0].on_event(Event::CallSucceeded);
    let (Command::Finish(b), Command::Finish(a)) = (b, a) else {
        panic!("both units should be over");
    };
    assert!(!outcomes.is_complete());
    assert!(outcomes.record(1, b));
    assert!(!outcomes.is_complete());
    assert!(outcomes.record(0, a));
    assert!(outcomes.is_complete());
    assert_eq!(outcomes.outcome(0), Some(Outcome::Succeeded { wait_skipped: false }));
    let failures = outcomes.failures();
    assert_eq!(failures, vec![(1, UnitError::Remote(RemoteCall::Register))]);
    assert_eq!(units[failures[0].0].target_group, "tg-b");
}

#[test]
fn deregister_waits_for_configured_delay() {
    let commands = drive(
        Action::Deregister,
        WaitPolicy::TargetGroupDelay,
        vec![
            Event::CallSucceeded,
            Event::DelayAttributes(Some(vec![delay_attr("5")])),
            Event::DrainElapsed,
        ],
    );
    assert_eq!(
        commands,
        vec![
            Command::Call(RemoteCall::Deregister),
            Command::Call(RemoteCall::DescribeAttributes),
            Command::Sleep(5),
            Command::Finish(Outcome::Succeeded { wait_skipped: false }),
        ]
    );
}

#[test]
fn deregister_with_conflicting_delays_fails() {
    let commands = drive(
        Action::Deregister,
        WaitPolicy::TargetGroupDelay,
        vec![
            Event::CallSucceeded,
            Event::DelayAttributes(Some(vec![delay_attr("5"), delay_attr("10")])),
            Event::DrainElapsed,
        ],
    );
    assert_eq!(
        commands,
        vec![
            Command::Call(RemoteCall::Deregister),
            Command::Call(RemoteCall::DescribeAttributes),
            Command::Finish(Outcome::Failed(UnitError::Configuration(
                ConfigurationError::DelayNotUnique { found: 2 }
            ))),
        ]
    );
}

#[test]
fn deregister_without_wait_skips_waiting() {
    let commands = drive(
        Action::Deregister,
        WaitPolicy::NoWait,
        vec![Event::CallSucceeded, Event::DrainElapsed],
    );
    assert_eq!(
        commands,
        vec![
            Command::Call(RemoteCall::Deregister),
            Command::Finish(Outcome::Succeeded { wait_skipped: true }),
        ]
    );
}

#[test]
fn deregister_without_delay_attribute_fails_without_sleeping() {
    let commands = drive(
        Action::Deregister,
        WaitPolicy::TargetGroupDelay,
        vec![Event::CallSucceeded, Event::DelayAttributes(Some(Vec::new()))],
    );
    assert_eq!(
        commands[2],
        Command::Finish(Outcome::Failed(UnitError::Configuration(
            ConfigurationError::DelayNotUnique { found: 0 }
        )))
    );
    assert!(!commands.iter().any(|c| matches!(c, Command::Sleep(_))));
}

#[test]
fn deregister_with_unparsable_delay_fails() {
    let commands = drive(
        Action::Deregister,
        WaitPolicy::TargetGroupDelay,
        vec![
            Event::CallSucceeded,
            Event::DelayAttributes(Some(vec![delay_attr("five")])),
        ],
    );
    assert_eq!(
        commands[2],
        Command::Finish(Outcome::Failed(UnitError::Configuration(
            ConfigurationError::InvalidTimeout
        )))
    );
}

#[test]
fn describe_failure_ends_the_unit() {
    let commands = drive(
        Action::Deregister,
        WaitPolicy::TargetGroupDelay,
        vec![Event::CallSucceeded, Event::CallFailed],
    );
    assert_eq!(
        commands[2],
        Command::Finish(Outcome::Failed(UnitError::Remote(RemoteCall::DescribeAttributes)))
    );
    let commands = drive(
        Action::Deregister,
        WaitPolicy::TargetGroupDelay,
        vec![Event::CallSucceeded, Event::DelayAttributes(None)],
    );
    assert_eq!(
        commands[2],
        Command::Finish(Outcome::Failed(UnitError::Configuration(
            ConfigurationError::NoAttributes
        )))
    );
}

#[test]
fn rejected_deregistration_does_not_wait() {
    let commands = drive(
        Action::Deregister,
        WaitPolicy::TargetGroupDelay,
        vec![Event::CallFailed, Event::DrainElapsed],
    );
    assert_eq!(
        commands,
        vec![
            Command::Call(RemoteCall::Deregister),
            Command::Finish(Outcome::Failed(UnitError::Remote(RemoteCall::Deregister))),
        ]
    );
}

#[test]
fn fixed_delay_overrides_the_target_group() {
    let commands = drive(
        Action::Deregister,
        WaitPolicy::FixedDelay(30),
        vec![Event::CallSucceeded, Event::DrainElapsed],
    );
    assert_eq!(
        commands,
        vec![
            Command::Call(RemoteCall::Deregister),
            Command::Sleep(30),
            Command::Finish(Outcome::Succeeded { wait_skipped: false }),
        ]
    );
}

#[test]
fn unit_refuses_unexpected_events() {
    let mut unit = Unit::new("tg".to_string(), Action::Register, WaitPolicy::NoWait);
    assert_eq!(unit.phase, Phase::Idle);
    assert!(!unit.accepts(&Event::CallSucceeded));
    unit.start();
    assert!(!unit.accepts(&Event::DrainElapsed));
    assert!(!unit.accepts(&Event::DelayAttributes(None)));
    assert!(unit.accepts(&Event::CallFailed));
    unit.on_event(Event::CallSucceeded);
    assert!(unit.is_finished());
    assert!(!unit.accepts(&Event::CallSucceeded));
}

#[test]
fn identity_failure_plans_nothing() {
    let tgs = names(&["tg-a"]);
    let r = prepare_run(None, None, Action::Register, WaitPolicy::NoWait, &tgs);
    assert!(matches!(r, Err(RunError::IdentityUnresolved)));
}

#[test]
fn empty_target_group_list_is_refused() {
    let r = prepare_run(
        Some("i-1".to_string()),
        Some(8080),
        Action::Deregister,
        WaitPolicy::NoWait,
        &Vec::new(),
    );
    assert!(matches!(r, Err(RunError::NoTargetGroups)));
}

#[test]
fn duplicate_target_groups_each_get_a_unit() {
    let tgs = names(&["tg-x", "tg-x", "tg-y"]);
    let units = plan_units(Action::Deregister, WaitPolicy::FixedDelay(3), &tgs);
    assert_eq!(units.len(), 3);
    assert_eq!(units[0].target_group, "tg-x");
    assert_eq!(units[1].target_group, "tg-x");
    assert_eq!(units[2].target_group, "tg-y");
    assert!(units.iter().all(|u| u.phase == Phase::Idle && u.action == Action::Deregister));
}

#[test]
fn port_override_is_kept() {
    let tgs = names(&["tg-a"]);
    let plan = prepare_run(
        Some("i-1".to_string()),
        Some(8080),
        Action::Register,
        WaitPolicy::NoWait,
        &tgs,
    )
    .unwrap();
    assert_eq!(plan.target.port, Some(8080));
}

#[test]
fn each_unit_reports_once() {
    let mut outcomes = Outcomes::new(3);
    assert_eq!(outcomes.len(), 3);
    let fail = Outcome::Failed(UnitError::Remote(RemoteCall::Deregister));
    assert!(outcomes.record(2, fail));
    assert!(!outcomes.record(2, Outcome::Succeeded { wait_skipped: false }));
    assert!(!outcomes.record(3, fail));
    assert_eq!(outcomes.outcome(2), Some(fail));
    assert_eq!(outcomes.outcome(0), None);
    assert!(outcomes.record(0, Outcome::Succeeded { wait_skipped: true }));
    assert!(outcomes.record(1, fail));
    assert!(outcomes.is_complete());
    assert_eq!(
        outcomes.failures(),
        vec![
            (1, UnitError::Remote(RemoteCall::Deregister)),
            (2, UnitError::Remote(RemoteCall::Deregister)),
        ]
    );
}

#[test]
fn empty_run_is_complete() {
    let outcomes = Outcomes::new(0);
    assert!(outcomes.is_complete());
    assert!(outcomes.failures().is_empty());
}
