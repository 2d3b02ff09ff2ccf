use image_grid::pipeline::PipelineError;
use image_grid::session::RunSession;

#[test]
fn fresh_session_has_no_outcome() {
    let s = RunSession::new();
    assert_eq!(s.latest_gen, 0);
    assert!(s.outcome.is_none());
}

#[test]
fn generations_increase_per_request() {
    let mut s = RunSession::new();
    let g1 = s.begin_request();
    let g2 = s.begin_request();
    assert_eq!(g1, 1);
    assert_eq!(g2, 2);
    assert!(g2 > g1);
}

#[test]
fn current_result_is_applied() {
    let mut s = RunSession::new();
    let g = s.begin_request();
    let result = Ok(("url".to_string(), "0\n".to_string()));
    assert!(s.apply_result(g, result.clone()));
    assert_eq!(s.outcome, Some(result));
}

#[test]
fn stale_result_is_discarded() {
    let mut s = RunSession::new();
    let stale = s.begin_request();
    let fresh = s.begin_request();
    let fresh_result: Result<(String, String), PipelineError> =
        Ok(("url".to_string(), "1\n".to_string()));
    assert!(s.apply_result(fresh, fresh_result.clone()));
    let stale_result: Result<(String, String), PipelineError> = Err(PipelineError::DecodeError);
    assert!(!s.apply_result(stale, stale_result));
    // the newer run's outcome is untouched
    assert_eq!(s.outcome, Some(fresh_result));
    assert_eq!(s.latest_gen, 2);
}

#[test]
fn failures_are_observable_outcomes() {
    let mut s = RunSession::new();
    let g = s.begin_request();
    assert!(s.apply_result(g, Err(PipelineError::DecodeError)));
    // an applied failure is distinct from "no image chosen yet"
    assert_eq!(s.outcome, Some(Err(PipelineError::DecodeError)));
}
