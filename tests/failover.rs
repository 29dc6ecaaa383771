use balance_agent::failover::{Failover, Step};

/// Runs one call over `count` endpoints whose outcomes are `outcomes`,
/// returning the endpoints tried, in order, and the result.
fn run(count: usize, outcomes: &[Result<&'static str, String>]) -> (Vec<usize>, Result<&'static str, String>) {
    let mut f = Failover::start(count);
    let mut tried = Vec::new();
    loop {
        let i = f.endpoint();
        tried.push(i);
        match f.on_outcome(outcomes[i].clone()) {
            Step::TryNext(next) => assert_eq!(next, i + 1),
            Step::Done(r) => return (tried, r),
        }
    }
}

#[test]
fn only_last_endpoint_succeeds() {
    let outcomes = vec![Err("a down".to_string()), Err("b down".to_string()), Ok("answer")];
    let (tried, r) = run(3, &outcomes);
    assert_eq!(tried, vec![0, 1, 2]);
    assert_eq!(r, Ok("answer"));
}

#[test]
fn every_endpoint_fails_with_last_error() {
    let outcomes = vec![Err("first".to_string()), Err("second".to_string()), Err("third".to_string())];
    let (tried, r) = run(3, &outcomes);
    assert_eq!(tried, vec![0, 1, 2]);
    assert_eq!(r, Err("third".to_string()));
}

#[test]
fn first_success_stops_the_call() {
    let outcomes = vec![Ok("first"), Ok("second")];
    let (tried, r) = run(2, &outcomes);
    assert_eq!(tried, vec![0]);
    assert_eq!(r, Ok("first"));
}

#[test]
fn single_endpoint_failure_is_final() {
    let outcomes = vec![Err("only".to_string())];
    let (tried, r) = run(1, &outcomes);
    assert_eq!(tried, vec![0]);
    assert_eq!(r, Err("only".to_string()));
}

#[test]
fn each_call_restarts_from_first_endpoint() {
    let outcomes = vec![Err("x".to_string()), Ok("y")];
    let (first, _) = run(2, &outcomes);
    let (second, _) = run(2, &outcomes);
    assert_eq!(first, vec![0, 1]);
    assert_eq!(second, vec![0, 1]);
}
