use recap::clock::{capture_stamp, session_stamp};
use recap::sessions::{
    claim_of, comm_matches, exe_name, is_abandoned, new_recording_name, new_session_name, newest_mtime,
    process_is_alive, recording_name, session_dir_name, session_owner_pid, sweep_stale_sessions,
    task_is_alive, Claim, FolderEntry,
};

const MINUTE: i128 = 60_000_000_000;

fn session(stamp: &str, owner: Option<u32>, alive: bool, newest: Option<i128>) -> FolderEntry {
    let name = match owner {
        Some(pid) => session_dir_name(stamp, pid),
        None => format!(".recap-tmp-{stamp}"),
    };
    FolderEntry { name, is_dir: true, owner_alive: alive, newest }
}

#[test]
fn a_session_folder_names_its_owner() {
    let name = session_dir_name("20260101_101010", 4242);
    assert_eq!(name, ".recap-tmp-20260101_101010-4242");
    assert_eq!(session_owner_pid(&name), Some(4242));
    assert_eq!(session_owner_pid(".recap-tmp-20260101_101010"), None);
}

#[test]
fn a_folder_whose_owner_died_is_swept() {
    let entries = vec![session("20260101_101010", Some(4242), false, None)];
    assert_eq!(sweep_stale_sessions(&entries, 0), vec![0]);
}

#[test]
fn a_folder_owned_by_a_live_process_is_left_alone() {
    let entries = vec![session("20260101_101010", Some(4242), true, None)];
    assert!(sweep_stale_sessions(&entries, 1000 * MINUTE).is_empty());
}

#[test]
fn an_unclaimed_folder_is_swept_only_once_it_has_gone_quiet() {
    let now = 5000 * MINUTE;
    let entries = vec![session("20260101_101010", None, false, Some(now))];
    assert!(sweep_stale_sessions(&entries, now).is_empty());
    assert_eq!(sweep_stale_sessions(&entries, now + 60 * MINUTE), vec![0]);
    assert!(!is_abandoned(&entries[0], now + 30 * MINUTE - 1));
    assert!(is_abandoned(&entries[0], now + 30 * MINUTE));
}

#[test]
fn the_sweep_only_ever_touches_its_own_prefix() {
    let file = |name: &str, is_dir: bool| FolderEntry {
        name: name.to_string(),
        is_dir,
        owner_alive: false,
        newest: Some(0),
    };
    let entries = vec![
        file("Recap_2026-01-01_10-10-10.mp4", false),
        file("Old exports", true),
        file(".recap-tmp-notes", false),
    ];
    assert!(sweep_stale_sessions(&entries, 60 * MINUTE).is_empty());
}

#[test]
fn age_follows_the_newest_file_not_the_folder() {
    let files = vec![Some(5), None, Some(70)];
    assert_eq!(newest_mtime(Some(10), Some(&files)), Some(70));
    assert_eq!(newest_mtime(Some(80), Some(&files)), Some(80));
    assert_eq!(newest_mtime(None, Some(&files)), Some(70));
    assert_eq!(newest_mtime(Some(10), Some(&Vec::new())), Some(10));
    assert_eq!(newest_mtime(Some(10), None), None);
}

#[test]
fn pid_reuse_does_not_keep_a_folder_forever() {
    assert!(comm_matches("/Applications/Recap.app/Contents/MacOS/Recap", "Recap"));
    assert!(comm_matches("recap", "recap"));
    assert!(!comm_matches("/usr/bin/vim", "Recap"));
}

#[test]
fn a_time_in_the_future_or_unknown_keeps_a_folder() {
    let future = session("20260101_101010", None, false, Some(100 * MINUTE));
    assert!(!is_abandoned(&future, 0));
    assert!(!is_abandoned(&session("20260101_101010", None, false, None), i128::MAX));
    assert!(!is_abandoned(&session("20260101_101010", None, false, Some(i128::MIN)), i128::MIN));
}

#[test]
fn several_stale_folders_come_in_order() {
    let entries = vec![
        session("20260101_101010", Some(1), false, None),
        session("20260101_101010", Some(2), true, None),
        session("20260101_101011", Some(3), false, None),
    ];
    assert_eq!(sweep_stale_sessions(&entries, 0), vec![0, 2]);
}

#[test]
fn claims_say_what_has_to_be_found_out() {
    assert!(matches!(claim_of(".recap-tmp-20260101_101010-7", true), Claim::Owned(7)));
    assert!(matches!(claim_of(".recap-tmp-20260101_101010", true), Claim::Unclaimed));
    assert!(matches!(claim_of(".recap-tmp-20260101_101010-7", false), Claim::Foreign));
    assert!(matches!(claim_of("holiday", true), Claim::Foreign));
}

#[test]
fn names_of_programs_come_from_paths() {
    assert_eq!(exe_name("/usr/bin/vim"), Some("vim".to_string()));
    assert_eq!(exe_name("/usr/bin/vim/."), Some("vim".to_string()));
    assert_eq!(exe_name("/usr/bin//"), Some("bin".to_string()));
    assert_eq!(exe_name("/usr/.."), None);
    assert_eq!(exe_name("/"), None);
    assert_eq!(exe_name(""), None);
}

#[test]
fn what_cannot_be_asked_counts_as_alive() {
    assert!(process_is_alive(None, Some("/opt/recap")));
    assert!(process_is_alive(Some((true, "/opt/recap\n")), Some("/opt/recap")));
    assert!(process_is_alive(Some((true, "vim\n")), None));
    assert!(process_is_alive(Some((true, "vim\n")), Some("/")));
    assert!(!process_is_alive(Some((true, "vim\n")), Some("/opt/recap")));
    assert!(!process_is_alive(Some((true, " \n")), Some("/opt/recap")));
    assert!(!process_is_alive(Some((false, "recap\n")), Some("/opt/recap")));
    assert!(task_is_alive(None, 42));
    assert!(task_is_alive(Some("recap.exe   42 Console"), 42));
    assert!(!task_is_alive(Some("INFO: No tasks are running"), 42));
}

#[test]
fn stamps_have_the_shape_of_a_local_time() {
    let s = session_stamp();
    assert_eq!(s.len(), 15);
    assert_eq!(&s[8..9], "_");
    assert!(s.chars().all(|c| c.is_ascii_digit() || c == '_'));
    let c = capture_stamp();
    assert_eq!(c.len(), 19);
    assert_eq!(&c[4..5], "-");
    assert_eq!(&c[10..11], "_");
}

#[test]
fn a_new_session_can_be_claimed_back() {
    let name = new_session_name(77);
    assert!(name.starts_with(".recap-tmp-2"));
    assert_eq!(session_owner_pid(&name), Some(77));
    let recording = new_recording_name();
    assert!(recording.starts_with("Recap_2") && recording.ends_with(".mp4"));
    assert_eq!(recording_name("2026-01-01_10-10-10"), "Recap_2026-01-01_10-10-10.mp4");
}
