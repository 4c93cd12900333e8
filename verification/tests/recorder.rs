use recap::capture::{active, Platform, ScreenDevice};
use recap::recorder::{
    begin_session, countdown_alive, countdown_step, enter_recording, finalize, finish_session, hotkey_pause, open_overlay,
    plan_segment, ready_to_begin, resolve_encoder, resolve_screen_id, segment_command, segment_started,
    set_region, shutdown, start, stop, stop_step, toggle_pause, toggle_record, CountdownStep, FinalizePlan, PauseAction, RecordToggle,
    Recorder, RecordingConfig, Region, RegionSel, Status, StopAction, StopStep,
    STOP_POLLS, STOP_POLL_MS,
};

fn recording_session(seg: &str) -> Recorder {
    let mut r = Recorder::new();
    r.status = Status::Recording;
    r.segments.push(seg.to_string());
    r.session_dir = Some("/tmp/recap-session".to_string());
    r
}

#[test]
fn the_stall_watchdog_aborts_a_session_that_is_still_live() {
    let seg = "/tmp/seg_000.mp4";
    let mut r = recording_session(seg);
    let id = r.session_id;

    let claimed = r.claim_failure(id, Some(seg));
    assert!(claimed.is_some());
    assert_eq!(claimed, Some((None, Some("/tmp/recap-session".to_string()))));
    assert_eq!(r.status, Status::Idle);
    assert!(r.segments.is_empty());
    assert_ne!(r.session_id, id, "a new session must not inherit the abort");
}

#[test]
fn a_stop_that_lands_first_disarms_the_stall_watchdog() {
    let seg = "/tmp/seg_000.mp4";
    let mut r = recording_session(seg);
    let id = r.session_id;

    r.status = Status::Finalizing;

    assert!(r.claim_failure(id, Some(seg)).is_none());
    assert_eq!(r.status, Status::Finalizing, "abort must not rewind the state");
    assert_eq!(r.segments, vec![seg.to_string()], "finalize must still see the segment");
    assert!(r.session_dir.is_some(), "the folder must still be there to concat from");
}

#[test]
fn a_watchdog_from_before_a_pause_cannot_shoot_down_the_new_segment() {
    let old = "/tmp/seg_000.mp4";
    let mut r = recording_session(old);
    let id = r.session_id;

    let new = "/tmp/seg_001.mp4";
    r.segments.push(new.to_string());

    assert!(r.claim_failure(id, Some(old)).is_none());
    assert_eq!(r.segments, vec![old.to_string(), new.to_string()]);
}

#[test]
fn an_abort_from_a_previous_session_is_ignored() {
    let seg = "/tmp/seg_000.mp4";
    let mut r = recording_session(seg);
    let stale_id = r.session_id;
    r.session_id += 1;

    assert!(r.claim_failure(stale_id, Some(seg)).is_none());
    assert_eq!(r.status, Status::Recording);
}

#[test]
fn an_abort_is_refused_from_states_that_have_already_ended_the_session() {
    for status in [Status::Paused, Status::Idle] {
        let seg = "/tmp/seg_000.mp4";
        let mut r = recording_session(seg);
        let id = r.session_id;
        r.status = status;
        assert!(r.claim_failure(id, Some(seg)).is_none(), "{status:?} should refuse");
    }
}

fn configured() -> Recorder {
    let mut r = Recorder::new();
    r.ffmpeg_path = Some("/opt/ffmpeg".to_string());
    r.config.output_dir = "/out".to_string();
    r
}

#[test]
fn a_fresh_recorder_is_idle_with_the_defaults() {
    let r = Recorder::new();
    assert_eq!(r.status.as_str(), "idle");
    assert_eq!(r.encoders, vec!["libx264".to_string()]);
    assert_eq!(r.session_id, 0);
    let c = RecordingConfig::default();
    assert_eq!((c.mode.as_str(), c.fps, c.encoder.as_str()), ("fullscreen", 30, "auto"));
    assert!(c.capture_cursor && !c.mic_enabled && c.mic_device.is_none() && c.output_dir.is_empty());
    assert_eq!(c.mic_name(), None);
}

#[test]
fn states_have_names() {
    assert_eq!(Status::Countdown.as_str(), "countdown");
    assert_eq!(Status::Recording.as_str(), "recording");
    assert_eq!(Status::Paused.as_str(), "paused");
    assert_eq!(Status::Finalizing.as_str(), "finalizing");
}

#[test]
fn a_start_is_refused_for_each_thing_that_is_missing() {
    let backend = active(Platform::MacOs);
    let mut r = configured();
    assert_eq!(start(&r, &backend), Ok("/out".to_string()));
    r.config.output_dir.clear();
    assert_eq!(start(&r, &backend), Err("Choose an output folder first.".to_string()));
    r.config.mode = "region".to_string();
    assert_eq!(start(&r, &backend), Err("Select a region first.".to_string()));
    r.ffmpeg_path = None;
    assert!(start(&r, &backend).unwrap_err().contains("ffmpeg"));
    r.status = Status::Paused;
    assert_eq!(start(&r, &backend), Err("Already recording.".to_string()));
    assert_eq!(ready_to_begin(&r), Err("Already recording.".to_string()));
    assert_eq!(begin_session(&mut r, "/d".to_string()), Err("Already recording.".to_string()));
}

#[test]
fn a_recording_goes_round_the_machine() {
    let backend = active(Platform::MacOs);
    let mut r = configured();
    let id = begin_session(&mut r, "/out/s".to_string()).unwrap();
    assert_eq!(id, 1);
    assert!(countdown_alive(&r, id));
    let plan = plan_segment(&r, id).unwrap_or_else(|e| panic!("{e}"));
    assert_eq!(plan.file_name, "seg_000.mp4");
    assert_eq!((plan.ffmpeg.as_str(), plan.session_dir.as_str()), ("/opt/ffmpeg", "/out/s"));
    let args = segment_command(&r, &backend, "/out/s/seg_000.mp4");
    assert!(args.join(" ").contains("-c:v libx264"));
    segment_started(&mut r, 5, "/out/s/seg_000.mp4".to_string());
    enter_recording(&mut r);
    assert!(hotkey_pause(&r));
    match toggle_pause(&mut r) {
        Ok(PauseAction::Pause(child)) => assert_eq!(child, 5),
        _ => panic!("must pause"),
    }
    assert_eq!(r.status, Status::Paused);
    match toggle_pause(&mut r) {
        Ok(PauseAction::Resume(session)) => assert_eq!(session, id),
        _ => panic!("must resume"),
    }
    assert_eq!(plan_segment(&r, id).map(|p| p.file_name).ok(), Some("seg_001.mp4".to_string()));
    segment_started(&mut r, 6, "/out/s/seg_001.mp4".to_string());
    enter_recording(&mut r);
    match stop(&mut r) {
        Ok(StopAction::Finalize(child)) => assert_eq!(child, Some(6)),
        _ => panic!("must stop"),
    }
    assert_eq!(r.status, Status::Finalizing);
    match finalize(&r, &vec![Some(4096), Some(2048)]) {
        Ok(FinalizePlan::Concat { ffmpeg, session_dir, list }) => {
            assert_eq!(ffmpeg, "/opt/ffmpeg");
            assert_eq!(session_dir, "/out/s");
            assert_eq!(list, "file '/out/s/seg_000.mp4'\nfile '/out/s/seg_001.mp4'\n");
        }
        _ => panic!("must join"),
    }
    match finalize(&r, &vec![Some(1024), Some(1025)]) {
        Ok(FinalizePlan::Move(path)) => assert_eq!(path, "/out/s/seg_001.mp4"),
        _ => panic!("must move"),
    }
    assert_eq!(
        finalize(&r, &vec![None, Some(10)]).err(),
        Some("No video was captured \u{2014} ffmpeg produced nothing.".to_string())
    );
    finish_session(&mut r);
    assert_eq!((r.status, r.child, r.session_dir.is_none()), (Status::Idle, None, true));
    assert!(r.segments.is_empty());
}

#[test]
fn joining_needs_ffmpeg_and_a_folder() {
    let mut r = configured();
    r.segments = vec!["a".to_string(), "b".to_string()];
    let sizes = vec![Some(5000), Some(5000)];
    assert_eq!(finalize(&r, &sizes).err(), Some("no session folder".to_string()));
    r.ffmpeg_path = None;
    assert_eq!(finalize(&r, &sizes).err(), Some("ffmpeg not found".to_string()));
}

#[test]
fn a_segment_is_refused_for_each_thing_that_is_missing() {
    let mut r = configured();
    assert_eq!(plan_segment(&r, 9).err(), Some("session was cancelled".to_string()));
    assert_eq!(plan_segment(&r, 0).err(), Some("no active session".to_string()));
    r.ffmpeg_path = None;
    assert_eq!(plan_segment(&r, 0).err(), Some("ffmpeg not found".to_string()));
}

#[test]
fn a_cancelled_countdown_is_over_for_good() {
    let mut r = configured();
    let id = begin_session(&mut r, "/out/s".to_string()).unwrap();
    match stop(&mut r) {
        Ok(StopAction::CancelCountdown(dir)) => assert_eq!(dir, Some("/out/s".to_string())),
        _ => panic!("must cancel"),
    }
    assert!(!countdown_alive(&r, id));
    let next = begin_session(&mut r, "/out/t".to_string()).unwrap();
    assert!(!countdown_alive(&r, id) && countdown_alive(&r, next));
    assert!(r.claim_failure(id, None).is_none());
}

#[test]
fn nothing_to_stop_or_pause_when_idle() {
    let mut r = Recorder::new();
    assert_eq!(stop(&mut r).err(), Some("Not recording.".to_string()));
    assert_eq!(toggle_pause(&mut r).err(), Some("Not recording.".to_string()));
    assert!(!hotkey_pause(&r));
    assert_eq!(toggle_record(&r), RecordToggle::Start);
    r.status = Status::Recording;
    assert_eq!(toggle_record(&r), RecordToggle::Stop);
    assert_eq!(toggle_pause(&mut r).err(), Some("recorder has no process".to_string()));
}

#[test]
fn a_shutdown_hands_out_the_process() {
    let mut r = recording_session("/tmp/seg_000.mp4");
    r.child = Some(3);
    assert_eq!(shutdown(&mut r), Some(3));
    assert_eq!((r.status, r.child, r.session_id), (Status::Idle, None, 1));
}

#[test]
fn a_region_is_dropped_with_its_display() {
    let mut r = configured();
    assert!(open_overlay(&mut r, 1, 2).is_ok());
    assert_eq!(open_overlay(&mut r, 2, 2), Err("monitor not found".to_string()));
    let g = set_region(&mut r, RegionSel { x: -4, y: 8, width: 101, height: 99 });
    assert_eq!(g, Region { monitor_index: 1, x: 0, y: 8, width: 100, height: 98 });
    assert_eq!(r.config.mode, "region");
    assert_eq!(r.monitor_to_capture(), 1);

    let mut same = r.config.clone();
    same.monitor_index = 1;
    r.apply_config(same);
    assert!(r.region_to_capture().is_some());
    let mut other = r.config.clone();
    other.monitor_index = 0;
    r.apply_config(other);
    assert!(r.region.is_none());
    assert_eq!(r.monitor_to_capture(), 0);
}

#[test]
fn auto_takes_the_first_encoder_that_works() {
    let win = active(Platform::Windows);
    let works = vec!["h264_qsv".to_string(), "h264_amf".to_string(), "libx264".to_string()];
    assert_eq!(resolve_encoder("auto", &works, &win), "h264_amf");
    assert_eq!(resolve_encoder("auto", &vec!["libx264".to_string()], &win), "libx264");
    assert_eq!(resolve_encoder("h264_nvenc", &works, &win), "h264_nvenc");
}

#[test]
fn screens_are_found_by_their_place_in_the_list() {
    let screens = vec![ScreenDevice { id: 7, label: "x".to_string() }];
    assert_eq!(resolve_screen_id(&screens, 0), 7);
    assert_eq!(resolve_screen_id(&screens, 3), 3);
}

#[test]
fn an_abort_is_granted_only_once() {
    let seg = "/tmp/seg_000.mp4";
    let mut r = recording_session(seg);
    r.child = Some(9);
    let id = r.session_id;
    assert_eq!(r.claim_failure(id, None), Some((Some(9), Some("/tmp/recap-session".to_string()))));
    assert!(r.claim_failure(id, None).is_none());
    let next = begin_session(&mut r, "/d".to_string()).unwrap();
    assert!(r.claim_failure(id, None).is_none());
    assert!(r.claim_failure(next, None).is_some());
}

#[test]
fn a_countdown_shows_three_numbers_and_begins() {
    let mut r = configured();
    let id = begin_session(&mut r, "/out/s".to_string()).unwrap();
    assert_eq!(countdown_step(&r, id, None), CountdownStep::Show(3));
    assert_eq!(countdown_step(&r, id, Some(3)), CountdownStep::Show(2));
    assert_eq!(countdown_step(&r, id, Some(2)), CountdownStep::Show(1));
    assert_eq!(countdown_step(&r, id, Some(1)), CountdownStep::Begin);
    assert_eq!(countdown_step(&r, id + 1, Some(2)), CountdownStep::Cancelled);
    assert!(stop(&mut r).is_ok());
    assert_eq!(countdown_step(&r, id, Some(2)), CountdownStep::Cancelled);
    assert_eq!(countdown_step(&r, id, Some(1)), CountdownStep::Cancelled);
}

#[test]
fn a_process_is_killed_after_four_seconds_only() {
    assert_eq!(STOP_POLLS as u64 * STOP_POLL_MS, 4000);
    assert_eq!(stop_step(0, false), StopStep::Wait);
    assert_eq!(stop_step(39, false), StopStep::Wait);
    assert_eq!(stop_step(40, false), StopStep::Kill);
    assert_eq!(stop_step(0, true), StopStep::Done);
    assert_eq!(stop_step(40, true), StopStep::Done);
}

#[test]
fn the_last_session_number_is_handed_out_and_refused_again() {
    let mut r = recording_session("/tmp/seg_000.mp4");
    r.session_id = u64::MAX - 1;
    assert!(r.claim_failure(u64::MAX - 1, None).is_some());
    assert_eq!(r.session_id, u64::MAX);
    assert!(r.claim_failure(u64::MAX - 1, None).is_none());
    assert!(r.claim_failure(u64::MAX, None).is_none());
    assert_eq!(stop(&mut r).err(), Some("Not recording.".to_string()));
}

#[test]
fn segments_are_told_apart_as_paths() {
    let granted = |platform: Platform, running: &str, expected: &str| {
        let mut r = recording_session(running);
        r.platform = platform;
        let id = r.session_id;
        r.claim_failure(id, Some(expected)).is_some()
    };
    for (a, b) in [
        ("/s/seg_000.mp4", "/s/seg_000.mp4"),
        ("/s/seg_000.mp4", "/s//seg_000.mp4"),
        ("/s/./seg_000.mp4", "/s/seg_000.mp4/"),
        ("s/seg_000.mp4", "s/././/seg_000.mp4/."),
        ("", ""),
        ("/", "//"),
        ("/s/seg_000.mp4", "/s/seg_001.mp4"),
        ("/s/seg_000.mp4", "s/seg_000.mp4"),
        ("./s", "s"),
        ("./s", ".//s"),
        (".", ""),
        ("/.", "/"),
        ("/s/../s", "/s"),
        ("/S", "/s"),
        ("/s\\a", "/s/a"),
        ("c:/s", "C:/s"),
    ] {
        let same = std::path::Path::new(a) == std::path::Path::new(b);
        assert_eq!(granted(Platform::MacOs, a, b), same, "{a} {b}");
        assert_eq!(granted(Platform::MacOs, b, a), same, "{b} {a}");
    }
    for (a, b, same) in [
        ("C:\\s\\seg_000.mp4", "C:\\s\\seg_000.mp4", true),
        ("C:\\s\\seg_000.mp4", "c:/s//seg_000.mp4", true),
        ("C:\\s\\seg_000.mp4", "C:\\s\\seg_001.mp4", false),
        ("C:\\s\\seg_000.mp4", "D:\\s\\seg_000.mp4", false),
        ("C:\\s", "C:s", false),
        ("C:\\s", "\\s", false),
        ("\\\\host\\s\\a", "\\\\host\\s\\.\\a", true),
        ("\\\\host\\s\\a", "\\host\\s\\a", false),
    ] {
        assert_eq!(granted(Platform::Windows, a, b), same, "{a} {b}");
        assert_eq!(granted(Platform::Windows, b, a), same, "{b} {a}");
    }
}
