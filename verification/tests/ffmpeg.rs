use recap::capture::{active, CaptureBackend, Platform};
use recap::ffmpeg::{
    bundle_resource_dir, concat_args, concat_list_line, gif_outcome, locate, probe_encoder, run_concat, search_order,
    to_gif, usable_encoders, ExeFolder, LocateStep, Place,
};
use recap::progress::{frames_in, stalled, StderrTail};

#[test]
fn concat_line_uses_forward_slashes_and_escapes_quotes() {
    let line = concat_list_line(r"C:\Users\j'k\seg_000.mp4");
    assert_eq!(line, "file 'C:/Users/j'\\''k/seg_000.mp4'");
}

#[test]
fn bundle_resources_are_found_from_the_executable() {
    assert_eq!(
        bundle_resource_dir("/Applications/Recap.app/Contents/MacOS"),
        Some("/Applications/Recap.app/Contents/Resources".to_string())
    );
}

#[test]
fn a_loose_binary_is_not_mistaken_for_a_bundle() {
    assert_eq!(bundle_resource_dir("/r/src-tauri/target/release"), None);
    assert_eq!(bundle_resource_dir("/r/build/MacOS"), None);
    assert_eq!(bundle_resource_dir("/"), None);
}

#[test]
fn software_fallback_is_always_offered() {
    // No probe succeeds without an ffmpeg.
    for platform in [Platform::MacOs, Platform::Windows] {
        let backend = active(platform);
        let encoders = usable_encoders(&backend, &vec![false; backend.hw_encoders().len()]);
        assert_eq!(encoders, vec!["libx264".to_string()]);
        assert_eq!(usable_encoders(&backend, &Vec::new()), vec!["libx264".to_string()]);
    }
}

#[test]
fn a_bundle_is_found_behind_odd_slashes() {
    assert_eq!(
        bundle_resource_dir("/A.app//Contents/./MacOS/"),
        Some("/A.app//Contents/Resources".to_string())
    );
    assert_eq!(bundle_resource_dir("Contents/MacOS"), Some("Contents/Resources".to_string()));
    assert_eq!(bundle_resource_dir("MacOS"), None);
    assert_eq!(bundle_resource_dir("/Contents/MacOS/.."), None);
}

#[test]
fn working_encoders_keep_the_backends_order() {
    let win = active(Platform::Windows);
    let hw = win.hw_encoders();
    let mut works = vec![true; hw.len()];
    works[0] = false;
    let mut expected: Vec<String> = hw[1..].iter().map(|e| e.to_string()).collect();
    expected.push("libx264".to_string());
    assert_eq!(usable_encoders(&win, &works), expected);
    let probe = probe_encoder("h264_qsv");
    assert_eq!(probe[10], "h264_qsv");
    assert_eq!(probe.last().map(String::as_str), Some("-"));
}

#[test]
fn the_search_goes_from_near_to_far() {
    let mac = active(Platform::MacOs);
    let name = mac.ffmpeg_filenames()[0].to_string();
    let exe = ExeFolder { bundled: true, levels: 2 };
    let found: Vec<(Place, Vec<String>)> =
        search_order(&mac, true, Some(exe)).into_iter().map(|c| (c.place, c.parts)).collect();
    let n = mac.ffmpeg_filenames().len();
    assert_eq!(found[0], (Place::Configured, vec![]));
    assert_eq!(found[1], (Place::ExeDir, vec![name.clone()]));
    assert_eq!(found[2], (Place::ExeDir, vec!["ffmpeg".to_string(), name.clone()]));
    assert_eq!(found[3], (Place::ExeDir, vec!["ffmpeg".to_string(), "bin".to_string(), name.clone()]));
    assert_eq!(found[1 + 3 * n], (Place::Resources, vec![name.clone()]));
    assert_eq!(found[1 + 4 * n], (Place::Above(0), vec!["vendor".to_string(), name.clone()]));
    assert_eq!(found[1 + 5 * n], (Place::Above(1), vec!["vendor".to_string(), name.clone()]));
    assert_eq!(found[1 + 6 * n], (Place::SearchPath, vec![name]));
    assert_eq!(found.len(), 1 + 7 * n);
    assert_eq!(search_order(&mac, false, None).len(), n);
}

#[test]
fn joining_is_judged_by_its_file() {
    assert_eq!(
        concat_args("l.txt", "o.mp4").join(" "),
        "-hide_banner -loglevel error -y -f concat -safe 0 -i l.txt -c copy o.mp4"
    );
    assert!(run_concat(Ok(true), true).is_ok());
    assert_eq!(run_concat(Ok(true), false), Err("segment concat failed".to_string()));
    assert_eq!(run_concat(Ok(false), true), Err("segment concat failed".to_string()));
    assert_eq!(run_concat(Err("gone"), true), Err("could not run ffmpeg concat: gone".to_string()));
}

#[test]
fn gifs_are_kept_small_and_failures_short() {
    let args = to_gif("a.mp4", "a.gif", 90, 4).join(" ");
    assert!(args.contains("fps=50,scale=16:-1:flags=lanczos"), "{args}");
    assert!(to_gif("a.mp4", "a.gif", 0, 640)[7].starts_with("fps=1,scale=640:"));
    assert!(args.ends_with("-loop 0 a.gif"));
    assert!(gif_outcome(Ok((true, "noise"))).is_ok());
    assert_eq!(
        gif_outcome(Ok((false, "one\ntwo\r\nthree\n"))),
        Err("GIF export failed: three two".to_string())
    );
    assert_eq!(gif_outcome(Err("gone")), Err("could not start ffmpeg: gone".to_string()));
}

#[test]
fn progress_lines_report_frames() {
    assert_eq!(frames_in("frame=120"), Some(120));
    assert_eq!(frames_in("  frame=  7 "), Some(7));
    assert_eq!(frames_in("frame=x"), None);
    assert_eq!(frames_in("fps=30"), None);
}

#[test]
fn the_tail_keeps_the_last_lines() {
    let mut tail = StderrTail::new();
    assert_eq!(tail.tail_string(), "");
    for i in 0..100 {
        tail.push(format!("line {i}"));
    }
    let shown = tail.tail_string();
    assert!(shown.starts_with("line 85\n") && shown.ends_with("\nline 99"));
    assert_eq!(shown.lines().count(), 15);
    tail.clear();
    tail.push("fresh".to_string());
    assert_eq!(tail.tail_string(), "fresh");
}

#[test]
fn the_first_candidate_that_is_there_is_found() {
    let list = search_order(&active(Platform::Windows), true, None);
    assert_eq!(list.len(), 2);
    assert_eq!(locate(&list, &vec![]), LocateStep::Look(0));
    assert_eq!(locate(&list, &vec![false]), LocateStep::Look(1));
    assert_eq!(locate(&list, &vec![true]), LocateStep::Found(0));
    assert_eq!(locate(&list, &vec![false, true]), LocateStep::Found(1));
    assert_eq!(locate(&list, &vec![true, true]), LocateStep::Found(0));
    assert_eq!(locate(&list, &vec![false, false]), LocateStep::Missing);
    assert_eq!(locate(&Vec::new(), &vec![]), LocateStep::Missing);
}

#[test]
fn a_segment_without_a_frame_is_dead() {
    assert!(stalled(0));
    assert!(!stalled(1));
}
