use droute::race::RaceOutcome;
use droute::race::RaceState;
use droute::upstreams::UpstreamError;

#[test]
fn first_success_wins_while_others_hang() {
    // Three racers: one fails, one succeeds, one never completes.
    let mut race: RaceState<UpstreamError> = RaceState::start(3);
    let d1 = race.on_outcome::<String>(Err(UpstreamError::TimeError("elapsed".to_string())));
    assert!(matches!(d1, RaceOutcome::Undecided));
    let d2 = race.on_outcome::<String>(Ok("answer".to_string()));
    match d2 {
        RaceOutcome::Winner(a) => assert_eq!(a, "answer"),
        _ => panic!("the successful racer must win"),
    }
    // The hanging racer's outcome is never fed in: the caller cancels it.
}

#[test]
fn failed_racer_never_wins() {
    let mut race: RaceState<UpstreamError> = RaceState::start(2);
    let d1 = race.on_outcome::<String>(Err(UpstreamError::ClientError("refused".to_string())));
    assert!(matches!(d1, RaceOutcome::Undecided));
}

#[test]
fn all_failures_report_the_first() {
    let mut race: RaceState<UpstreamError> = RaceState::start(2);
    let d1 = race.on_outcome::<String>(Err(UpstreamError::ProtoError("bad".to_string())));
    assert!(matches!(d1, RaceOutcome::Undecided));
    let d2 = race.on_outcome::<String>(Err(UpstreamError::TimeError("late".to_string())));
    match d2 {
        RaceOutcome::AllFailed(e) => {
            assert_eq!(e, UpstreamError::ProtoError("bad".to_string()));
        }
        _ => panic!("the race must fail once every racer has failed"),
    }
}
