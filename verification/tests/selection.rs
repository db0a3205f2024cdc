use load_balancer::{LoadBalancer, ProbeOutcome};

fn pool(addresses: &[&str]) -> LoadBalancer {
    LoadBalancer::new(addresses.iter().map(|a| a.to_string()).collect(), 10_000, 0)
}

fn three() -> LoadBalancer {
    pool(&["127.0.0.1:8081", "127.0.0.1:8082", "127.0.0.1:8083"])
}

#[test]
fn nothing_is_chosen_before_the_first_pass() {
    let mut lb = three();
    assert_eq!(lb.choose_backend(), None);
    assert_eq!(lb.choose_backend(), None);
}

#[test]
fn empty_registry_has_no_backend() {
    let mut lb = pool(&[]);
    lb.health_check(&vec![], 1);
    assert_eq!(lb.choose_backend(), None);
    lb.health_check(&vec![ProbeOutcome::Responded(200)], 2);
    assert_eq!(lb.choose_backend(), None);
}

#[test]
fn all_healthy_backends_are_chosen_in_registry_order() {
    let mut lb = three();
    lb.health_check(&vec![ProbeOutcome::Responded(200); 3], 1);
    assert_eq!(lb.choose_backend(), Some("127.0.0.1:8081".to_string()));
    assert_eq!(lb.choose_backend(), Some("127.0.0.1:8082".to_string()));
    assert_eq!(lb.choose_backend(), Some("127.0.0.1:8083".to_string()));
    assert_eq!(lb.choose_backend(), Some("127.0.0.1:8081".to_string()));
    assert_eq!(lb.choose_backend(), Some("127.0.0.1:8082".to_string()));
    assert_eq!(lb.choose_backend(), Some("127.0.0.1:8083".to_string()));
}

#[test]
fn a_round_picks_each_backend_once() {
    let names = ["a:1", "b:2", "c:3", "d:4", "e:5"];
    let mut lb = pool(&names);
    lb.health_check(&vec![ProbeOutcome::Responded(204); 5], 1);
    // Move the cursor off the start first.
    assert_eq!(lb.choose_backend(), Some("a:1".to_string()));
    assert_eq!(lb.choose_backend(), Some("b:2".to_string()));
    let mut round: Vec<String> = Vec::new();
    for _ in 0..5 {
        round.push(lb.choose_backend().unwrap());
    }
    assert_eq!(round, vec!["c:3", "d:4", "e:5", "a:1", "b:2"]);
    let mut sorted = round.clone();
    sorted.sort();
    sorted.dedup();
    assert_eq!(sorted.len(), 5);
}

#[test]
fn an_unhealthy_backend_is_never_chosen() {
    let mut lb = three();
    lb.health_check(
        &vec![ProbeOutcome::Responded(200), ProbeOutcome::Responded(500), ProbeOutcome::Responded(200)],
        1,
    );
    let mut picks: Vec<String> = Vec::new();
    for _ in 0..6 {
        picks.push(lb.choose_backend().unwrap());
    }
    assert_eq!(
        picks,
        vec![
            "127.0.0.1:8081",
            "127.0.0.1:8083",
            "127.0.0.1:8081",
            "127.0.0.1:8083",
            "127.0.0.1:8081",
            "127.0.0.1:8083",
        ]
    );
}

#[test]
fn no_healthy_backend_is_unavailable_on_every_call() {
    let mut lb = three();
    lb.health_check(&vec![ProbeOutcome::Failed; 3], 1);
    for _ in 0..7 {
        assert_eq!(lb.choose_backend(), None);
        assert_eq!(lb.next_backend_index(), 0);
    }
    // The cursor is where it was: once all are back, the rotation starts at the first.
    lb.health_check(&vec![ProbeOutcome::Responded(200); 3], 2);
    assert_eq!(lb.choose_backend(), Some("127.0.0.1:8081".to_string()));
}

#[test]
fn the_cursor_moves_past_skipped_backends() {
    let mut lb = pool(&["a:1", "b:2", "c:3", "d:4"]);
    assert_eq!(lb.next_backend_index(), 0);
    lb.health_check(
        &vec![ProbeOutcome::Failed, ProbeOutcome::Failed, ProbeOutcome::Responded(200), ProbeOutcome::Failed],
        1,
    );
    assert_eq!(lb.next_backend_index(), 0);
    // Visits a, b, c: the cursor is then at d.
    assert_eq!(lb.choose_backend(), Some("c:3".to_string()));
    assert_eq!(lb.next_backend_index(), 3);
    // Visits d, a, b, c: the cursor is at d again.
    assert_eq!(lb.choose_backend(), Some("c:3".to_string()));
    assert_eq!(lb.next_backend_index(), 3);
    lb.health_check(&vec![ProbeOutcome::Responded(200); 4], 2);
    assert_eq!(lb.choose_backend(), Some("d:4".to_string()));
    assert_eq!(lb.choose_backend(), Some("a:1".to_string()));
}

#[test]
fn a_single_backend_is_chosen_again_and_again() {
    let mut lb = pool(&["only:80"]);
    lb.health_check(&vec![ProbeOutcome::Responded(200)], 1);
    assert_eq!(lb.choose_backend(), Some("only:80".to_string()));
    assert_eq!(lb.choose_backend(), Some("only:80".to_string()));
    lb.health_check(&vec![ProbeOutcome::Responded(503)], 2);
    assert_eq!(lb.choose_backend(), None);
}

#[test]
fn a_backend_that_went_down_is_dropped_by_the_next_pass() {
    let mut lb = three();
    lb.health_check(&vec![ProbeOutcome::Responded(200); 3], 1);
    assert_eq!(lb.choose_backend(), Some("127.0.0.1:8081".to_string()));
    // Until the next pass the record still holds the second backend as alive.
    assert_eq!(lb.choose_backend(), Some("127.0.0.1:8082".to_string()));
    lb.health_check(
        &vec![ProbeOutcome::Responded(200), ProbeOutcome::Failed, ProbeOutcome::Responded(200)],
        2,
    );
    for _ in 0..6 {
        assert_ne!(lb.choose_backend(), Some("127.0.0.1:8082".to_string()));
    }
}
