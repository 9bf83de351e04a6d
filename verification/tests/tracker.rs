use authwatch::tracker::{default_failure_maps, notify, Auth, AuthFailure, FailureMap};

fn plain_map() -> FailureMap {
    FailureMap::new(AuthFailure {
        kind: Auth::Sudo,
        message: b"badness".to_vec(),
        notify: String::from("badness detected"),
    })
}

#[test]
fn new_tracker_is_empty() {
    let m = plain_map();
    assert!(m.auth_failure_time.is_empty());
    assert!(m.notify_time.is_none());
    assert_eq!(m.auth_failure.kind, Auth::Sudo);
}

#[test]
fn add_appends_occurrence() {
    let mut m = plain_map();
    m.add(7);
    m.add(9);
    assert_eq!(m.auth_failure_time, vec![7, 9]);
}

#[test]
fn clean_prunes_expired_only() {
    let mut m = plain_map();
    m.add(0);
    m.add(200);
    m.add(400);
    m.clean(400);
    // 400 - 0 > 300 expires; 400 - 200 and 400 - 400 do not.
    assert_eq!(m.auth_failure_time, vec![200, 400]);
}

#[test]
fn clean_keeps_boundary_occurrence() {
    let mut m = plain_map();
    m.add(100);
    m.clean(400);
    // Exactly the window's width old: still within the window.
    assert_eq!(m.auth_failure_time, vec![100]);
    m.clean(401);
    assert!(m.auth_failure_time.is_empty());
}

#[test]
fn window_correctness_prunes_first_of_three() {
    // Occurrences at t1 = 0 and t2 = 200; queried at t3 = 301 the window
    // of 300 has dropped t1, so the third occurrence finds only two
    // active and the threshold of 3 is not crossed.
    let mut m = plain_map();
    m.add(0);
    m.add(200);
    let fired = notify(&mut m, 301);
    assert!(!fired);
    assert_eq!(m.auth_failure_time, vec![200, 301]);
    assert!(m.notify_time.is_none());
}

#[test]
fn threshold_edge_two_then_three() {
    let mut m = plain_map();
    assert!(!notify(&mut m, 10));
    assert!(!notify(&mut m, 20));
    let fired = notify(&mut m, 30);
    assert!(fired);
    // Hard reset into cooldown: occurrences cleared, alert time kept.
    assert!(m.auth_failure_time.is_empty());
    assert_eq!(m.notify_time, Some(30));
}

#[test]
fn cooldown_suppresses_repeat_alert() {
    let mut m = plain_map();
    assert!(!notify(&mut m, 10));
    assert!(!notify(&mut m, 20));
    assert!(notify(&mut m, 30));
    // A fresh burst within the cooldown reaches the threshold again but
    // stays silent.
    assert!(!notify(&mut m, 40));
    assert!(!notify(&mut m, 50));
    assert!(!notify(&mut m, 60));
    assert_eq!(m.notify_time, Some(30));
    assert_eq!(m.auth_failure_time, vec![40, 50, 60]);
    // Once the cooldown has elapsed and enough occurrences are active,
    // the alert fires again.
    assert!(notify(&mut m, 340));
    assert_eq!(m.notify_time, Some(340));
    assert!(m.auth_failure_time.is_empty());
}

#[test]
fn default_maps_hold_both_patterns() {
    let maps = default_failure_maps();
    assert_eq!(maps.len(), 2);
    assert_eq!(maps[0].auth_failure.kind, Auth::Sudo);
    assert_eq!(
        maps[0].auth_failure.message,
        b"pam_unix(sudo:auth): authentication failure;".to_vec()
    );
    assert_eq!(maps[0].auth_failure.notify, "sudo bashing detected");
    assert!(maps[0].auth_failure_time.is_empty());
    assert_eq!(maps[1].auth_failure.kind, Auth::System);
    assert_eq!(
        maps[1].auth_failure.message,
        b"pam_unix(system-auth:auth): authentication failure;".to_vec()
    );
    assert_eq!(maps[1].auth_failure.notify, "system-auth bashing detected");
    assert!(maps[1].auth_failure_time.is_empty());
}
