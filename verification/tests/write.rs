use themewalker::write::StepOutcome::{Denied, Done, Failed};
use themewalker::write::WriteProgress::{Fatal, Finished, Next};
use themewalker::write::WriteStep::{CreateParent, DirectWrite, ElevatedCreateParent, ElevatedWrite};
use themewalker::write::{first_step, next_step, StepOutcome, WriteProgress, WriteStep};

#[test]
fn writing_starts_with_the_directory_when_it_is_missing() {
    assert_eq!(first_step(true), WriteStep::DirectWrite);
    assert_eq!(first_step(false), WriteStep::CreateParent);
}

#[test]
fn steps_follow_each_other() {
    assert_eq!(next_step(CreateParent, Done), Next(DirectWrite));
    assert_eq!(next_step(CreateParent, Denied), Next(ElevatedCreateParent));
    assert_eq!(next_step(CreateParent, Failed), Fatal(CreateParent));
    assert_eq!(next_step(ElevatedCreateParent, Done), Next(DirectWrite));
    assert_eq!(next_step(ElevatedCreateParent, Denied), Fatal(ElevatedCreateParent));
    assert_eq!(next_step(ElevatedCreateParent, Failed), Fatal(ElevatedCreateParent));
    assert_eq!(next_step(DirectWrite, Done), Finished);
    assert_eq!(next_step(DirectWrite, Denied), Next(ElevatedWrite));
    assert_eq!(next_step(DirectWrite, Failed), Fatal(DirectWrite));
    assert_eq!(next_step(ElevatedWrite, Done), Finished);
    assert_eq!(next_step(ElevatedWrite, Denied), Fatal(ElevatedWrite));
    assert_eq!(next_step(ElevatedWrite, Failed), Fatal(ElevatedWrite));
}

#[test]
fn writing_ends_within_four_steps() {
    for outcomes in [
        [StepOutcome::Denied; 4],
        [StepOutcome::Done; 4],
        [StepOutcome::Denied, StepOutcome::Done, StepOutcome::Denied, StepOutcome::Done],
    ] {
        let mut step = first_step(false);
        let mut ended = false;
        for outcome in outcomes {
            match next_step(step, outcome) {
                WriteProgress::Next(next) => step = next,
                _ => {
                    ended = true;
                    break;
                }
            }
        }
        assert!(ended);
    }
}
