use teleconsole::app::{goes_on, plan_turn, Turn, Wake};
use teleconsole::ecs::StepError;

fn shape(turn: Turn<char, u8>) -> Option<(Option<char>, Option<u8>)> {
    match turn {
        Turn::Step { input, update } => Some((input, update)),
        Turn::Quit => None,
    }
}

#[test]
fn an_input_is_stepped_on_alone() {
    assert_eq!(shape(plan_turn(Wake::Input(Some('k')))), Some((Some('k'), None)));
    assert_eq!(shape(plan_turn(Wake::Input(None))), Some((None, None)));
}

#[test]
fn an_update_is_stepped_on_alone() {
    assert_eq!(shape(plan_turn(Wake::Update(Some(3)))), Some((None, Some(3))));
    assert_eq!(shape(plan_turn(Wake::Update(None))), Some((None, None)));
}

#[test]
fn a_transient_failure_is_no_update() {
    assert_eq!(shape(plan_turn(Wake::TransientFailure)), Some((None, None)));
}

#[test]
fn a_fatal_failure_ends_the_loop() {
    assert_eq!(shape(plan_turn(Wake::FatalFailure)), None);
}

#[test]
fn the_loop_goes_on_only_while_a_system_waits() {
    assert!(goes_on(&Ok(true)));
    assert!(!goes_on(&Ok(false)));
    assert!(!goes_on(&Err(StepError::DelegationCycle)));
    assert!(!goes_on(&Err(StepError::UnknownSystem { system: 0 })));
    assert!(!goes_on(&Err(StepError::UnresolvableState { system: 0, state: 4 })));
}
