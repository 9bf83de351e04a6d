use authwatch::engine::{Action, AlertEngine, ChangeEvent};
use authwatch::tracker::default_failure_maps;
use authwatch::watch::Watched;

fn dir_event(name: &[u8], created: bool, moved_from: bool) -> ChangeEvent {
    ChangeEvent {
        name: Some(name.to_vec()),
        created,
        moved_from,
        modified: false,
        move_self: false,
        ignored: false,
    }
}

fn file_event(modified: bool, move_self: bool, ignored: bool) -> ChangeEvent {
    ChangeEvent { name: None, created: false, moved_from: false, modified, move_self, ignored }
}

fn engine_at(pos: u64) -> AlertEngine {
    AlertEngine::new(b"/var/log/auth.log".to_vec(), Some(pos), default_failure_maps())
}

#[test]
fn watched_splits_absolute_path() {
    let w = Watched::new(b"/var/log/auth.log".to_vec());
    assert_eq!(w.dir, b"/var/log".to_vec());
    assert_eq!(w.file, b"auth.log".to_vec());
    assert_eq!(w.pos, 0);
}

#[test]
fn watched_splits_bare_name_and_root_file() {
    let w = Watched::new(b"auth.log".to_vec());
    assert_eq!(w.dir, b"".to_vec());
    assert_eq!(w.file, b"auth.log".to_vec());
    let r = Watched::new(b"/auth.log".to_vec());
    assert_eq!(r.dir, b"/".to_vec());
    assert_eq!(r.file, b"auth.log".to_vec());
}

#[test]
fn classify_created_for_watched_name_is_rotation() {
    let e = engine_at(0);
    let ev = dir_event(b"auth.log", true, false);
    assert_eq!(e.classify(&ev), Action::Rewatch);
}

#[test]
fn classify_moved_from_alone_is_informational() {
    let e = engine_at(0);
    let ev = dir_event(b"auth.log", false, true);
    assert_eq!(e.classify(&ev), Action::Skip);
}

#[test]
fn classify_other_name_is_ignored() {
    let e = engine_at(0);
    let ev = dir_event(b"other.log", true, false);
    assert_eq!(e.classify(&ev), Action::Skip);
}

#[test]
fn classify_file_modify_reads() {
    let e = engine_at(0);
    assert_eq!(e.classify(&file_event(true, false, false)), Action::ReadAppend);
}

#[test]
fn classify_file_gone_skips_read() {
    let e = engine_at(0);
    assert_eq!(e.classify(&file_event(false, true, false)), Action::Skip);
    assert_eq!(e.classify(&file_event(false, false, true)), Action::Skip);
}

#[test]
fn rotation_resets_offset_to_zero() {
    // Offset 500 before a creation event for the watched name; after the
    // event the offset is exactly 0 and the replacement is scanned from
    // its start.
    let mut e = engine_at(500);
    let ev = dir_event(b"auth.log", true, false);
    assert_eq!(e.classify(&ev), Action::Rewatch);
    e.handle_rotation();
    assert_eq!(e.watch.pos, 0);
    let fired = e.handle_chunk(b"quiet line\n", 0);
    assert!(fired.is_empty());
    assert_eq!(e.watch.pos, 11);
}

#[test]
fn truncation_resets_offset() {
    // Offset 1000 but the file now measures 200 bytes: the reader must
    // not seek past end-of-file; the file is treated as replaced and
    // scanned from its start.
    let mut e = engine_at(1000);
    let start = e.prepare_read(200);
    assert_eq!(start, 0);
    assert_eq!(e.watch.pos, 0);
}

#[test]
fn prepare_read_keeps_offset_for_grown_file() {
    let mut e = engine_at(300);
    let start = e.prepare_read(450);
    assert_eq!(start, 300);
    assert_eq!(e.watch.pos, 300);
}

#[test]
fn offset_monotonic_across_appends() {
    let mut e = engine_at(0);
    e.handle_chunk(b"one\n", 0);
    assert_eq!(e.watch.pos, 4);
    e.handle_chunk(b"two\npart", 1);
    assert_eq!(e.watch.pos, 8);
    // The unterminated tail is not consumed; the offset never moves back.
    e.handle_chunk(b"partial done\n", 2);
    assert_eq!(e.watch.pos, 21);
}

#[test]
fn end_to_end_sudo_burst_alerts_once() {
    // The target starts empty; three lines holding the sudo-failure
    // literal arrive within 2 seconds; the sudo alert fires exactly once
    // and the system-auth tracker stays empty.
    let mut e = AlertEngine::new(b"/var/log/auth.log".to_vec(), None, default_failure_maps());
    let line = b"Jan 1 00:00:00 host sudo: pam_unix(sudo:auth): authentication failure; uid=0\n";
    let fired1 = e.handle_chunk(line, 0);
    assert!(fired1.is_empty());
    let fired2 = e.handle_chunk(line, 1);
    assert!(fired2.is_empty());
    let fired3 = e.handle_chunk(line, 2);
    assert_eq!(fired3, vec![0]);
    assert_eq!(e.maps[0].notify_time, Some(2));
    assert!(e.maps[0].auth_failure_time.is_empty());
    assert!(e.maps[1].auth_failure_time.is_empty());
    assert!(e.maps[1].notify_time.is_none());
}

#[test]
fn burst_in_one_chunk_alerts_once() {
    let mut e = AlertEngine::new(b"/var/log/auth.log".to_vec(), None, default_failure_maps());
    let mut chunk = Vec::new();
    for _ in 0..3 {
        chunk.extend_from_slice(b"sudo: pam_unix(sudo:auth): authentication failure; user=x\n");
    }
    let fired = e.handle_chunk(&chunk, 5);
    assert_eq!(fired, vec![0]);
}

#[test]
fn system_auth_lines_drive_second_tracker() {
    let mut e = AlertEngine::new(b"/var/log/auth.log".to_vec(), None, default_failure_maps());
    let line = b"login: pam_unix(system-auth:auth): authentication failure; user=y\n";
    assert!(e.handle_chunk(line, 0).is_empty());
    assert!(e.handle_chunk(line, 1).is_empty());
    assert_eq!(e.handle_chunk(line, 2), vec![1]);
    assert!(e.maps[0].auth_failure_time.is_empty());
}

#[test]
fn unmatched_lines_leave_trackers_empty() {
    let mut e = AlertEngine::new(b"/var/log/auth.log".to_vec(), None, default_failure_maps());
    let fired = e.handle_chunk(b"session opened for user root\n", 0);
    assert!(fired.is_empty());
    assert!(e.maps[0].auth_failure_time.is_empty());
    assert!(e.maps[1].auth_failure_time.is_empty());
}

#[test]
fn line_matching_both_patterns_feeds_both_trackers() {
    let mut e = AlertEngine::new(b"/var/log/auth.log".to_vec(), None, default_failure_maps());
    let line = b"pam_unix(sudo:auth): authentication failure; pam_unix(system-auth:auth): authentication failure;\n";
    assert!(e.handle_chunk(line, 0).is_empty());
    assert!(e.handle_chunk(line, 1).is_empty());
    // Both trackers reach their threshold on the same line: the alerts
    // come out in tracker order.
    assert_eq!(e.handle_chunk(line, 2), vec![0, 1]);
}

#[test]
fn line_split_across_chunks_counts_once() {
    let mut e = AlertEngine::new(b"/var/log/auth.log".to_vec(), None, default_failure_maps());
    let whole = b"sudo: pam_unix(sudo:auth): authentication failure; user=z\n";
    // The first half of the line arrives without its terminator: nothing
    // is consumed, nothing is matched.
    assert!(e.handle_chunk(&whole[..20], 0).is_empty());
    assert_eq!(e.watch.pos, 0);
    assert!(e.maps[0].auth_failure_time.is_empty());
    // The next read starts at the unchanged offset and sees the whole
    // line: it is matched exactly once.
    assert!(e.handle_chunk(whole, 1).is_empty());
    assert_eq!(e.watch.pos, whole.len() as u64);
    assert_eq!(e.maps[0].auth_failure_time, vec![1]);
}
