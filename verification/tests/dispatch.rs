//! What comes next when a stack of backends is asked.
use gamut_png::dispatch::{step, Action, Event, Settled};
use gamut_png::error::{Cause, Error};

#[test]
fn a_request_turns_to_the_first_backend() {
    assert_eq!(step::<u8>(Event::Begun, 2), Action::Ask(0));
    assert_eq!(step::<u8>(Event::Begun, 0), Action::End(Ok(None)));
}

#[test]
fn a_backend_that_takes_the_request_on_is_run() {
    assert_eq!(step::<u8>(Event::Answered(1, true), 2), Action::Run(1));
}

#[test]
fn a_refusal_and_a_decline_turn_to_the_next_backend() {
    assert_eq!(step::<u8>(Event::Answered(0, false), 2), Action::Ask(1));
    assert_eq!(step::<u8>(Event::Answered(1, false), 2), Action::End(Ok(None)));
    assert_eq!(step::<u8>(Event::Replied(0, Settled::Declined), 2), Action::Ask(1));
    assert_eq!(step::<u8>(Event::Replied(1, Settled::Declined), 2), Action::End(Ok(None)));
}

#[test]
fn an_answer_and_an_error_end_the_asking() {
    assert_eq!(step(Event::Replied(0, Settled::Accepted(7u8)), 3), Action::End(Ok(Some(7))));
    assert_eq!(
        step::<u8>(Event::Replied(0, Settled::Ended(Error::new(Cause::BackendOverran))), 3),
        Action::End(Err(Error::new(Cause::BackendOverran)))
    );
}
