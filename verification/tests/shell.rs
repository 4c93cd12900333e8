use recap::capture::{active, CaptureBackend, Platform, ScreenDevice};
use recap::devctl::{
    answer_of, bad_json, dispatch, eval_script, no_window, report, report_of, request, Invoked, Member,
    Request,
};
use recap::permissions::screen_recording_granted;
use recap::recorder::{Recorder, RecordingConfig, Region};
use recap::settings::PendingSettings;
use recap::shell::{export_gif, init_info, monitor_name, take_stock, tray_action, TrayAction};
use recap::still::{
    after_grab, check_still, crop, crop_rect, new_still_names, plan_still, run, still_call,
    still_names, still_step, Ran, StillStep,
};

fn config(fps: u32) -> RecordingConfig {
    RecordingConfig { fps, ..RecordingConfig::default() }
}

#[test]
fn a_burst_of_changes_is_written_once() {
    let mut p = PendingSettings::new();
    assert!(p.due(0).is_none());
    let first = p.save_debounced(config(10));
    let second = p.save_debounced(config(20));
    assert!(p.due(first).is_none());
    assert_eq!(p.due(second).map(|c| c.fps), Some(20));
    assert_eq!(p.changes(), 2);
}

#[test]
fn startup_fits_the_configuration_to_the_machine() {
    let mut r = Recorder::new();
    r.config.monitor_index = 2;
    let screens = vec![ScreenDevice { id: 4, label: "s".to_string() }];
    init_info(
        &mut r,
        Some("/ff".to_string()),
        vec!["libx264".to_string()],
        screens,
        "/home/Recap".to_string(),
        false,
        2,
    );
    assert_eq!(r.config.output_dir, "/home/Recap");
    assert_eq!(r.config.monitor_index, 0);
    assert_eq!((r.ffmpeg_path.as_deref(), r.screens.len()), (Some("/ff"), 1));

    r.config.output_dir = "/mine".to_string();
    r.config.monitor_index = 1;
    init_info(&mut r, None, Vec::new(), Vec::new(), "/home/Recap".to_string(), true, 2);
    assert_eq!((r.config.output_dir.as_str(), r.config.monitor_index), ("/mine", 1));
    init_info(&mut r, None, Vec::new(), Vec::new(), "/home/Recap".to_string(), true, 0);
    assert_eq!(r.config.monitor_index, 0);
}

#[test]
fn stock_is_taken_with_and_without_ffmpeg() {
    let mac = active(Platform::MacOs);
    let none = take_stock(&mac, None);
    assert_eq!(none.encoders, vec!["libx264".to_string()]);
    assert!(none.audio_devices.is_empty() && none.screens.is_empty());
    let listing = "AVFoundation video devices:\n[x] [1] Capture screen 0\n\
                   AVFoundation audio devices:\n[x] [0] Mic\n";
    let works = vec![true; mac.hw_encoders().len()];
    let some = take_stock(&mac, Some((&works, listing)));
    assert_eq!(some.encoders.len(), mac.hw_encoders().len() + 1);
    assert_eq!((some.screens.len(), some.audio_devices.len()), (1, 1));
}

#[test]
fn monitors_without_a_name_are_numbered() {
    assert_eq!(monitor_name(None, 0), "Display 1");
    assert_eq!(monitor_name(Some("Left".to_string()), 0), "Left");
}

#[test]
fn a_gif_needs_ffmpeg_and_its_recording() {
    let mac = active(Platform::MacOs);
    let mut r = Recorder::new();
    assert_eq!(export_gif(&r, &mac, true), Err(mac.ffmpeg_hint().to_string()));
    r.ffmpeg_path = Some("/ff".to_string());
    assert_eq!(export_gif(&r, &mac, false), Err("that recording is no longer there".to_string()));
    assert_eq!(export_gif(&r, &mac, true), Ok("/ff".to_string()));
}

#[test]
fn the_tray_knows_its_items() {
    assert_eq!(tray_action("show"), TrayAction::Show);
    assert_eq!(tray_action("toggle"), TrayAction::Toggle);
    assert_eq!(tray_action("quit"), TrayAction::Quit);
    assert_eq!(tray_action("other"), TrayAction::Nothing);
}

#[test]
fn permission_is_asked_for_on_macos_only() {
    assert!(screen_recording_granted(Platform::Windows, false));
    assert!(screen_recording_granted(Platform::MacOs, true));
    assert!(!screen_recording_granted(Platform::MacOs, false));
}

#[test]
fn a_still_is_planned_like_a_recording() {
    let mut r = Recorder::new();
    assert_eq!(plan_still(&r).err(), Some("Choose an output folder first.".to_string()));
    r.config.output_dir = "/out".to_string();
    r.config.mode = "region".to_string();
    r.region = Some(Region { monitor_index: 3, x: 1, y: 2, width: 5, height: 7 });
    let plan = plan_still(&r).unwrap_or_else(|e| panic!("{e}"));
    assert_eq!((plan.output_dir.as_str(), plan.display_index), ("/out", 3));
    assert_eq!(plan.region.map(|g| crop_rect(&g)), Some((1, 2, 4, 6)));
    let far = Region { monitor_index: 0, x: u32::MAX, y: 9, width: 1, height: 2 };
    assert_eq!(crop_rect(&far), (0, 9, 2, 2));
}

#[test]
fn a_cropped_still_is_grabbed_elsewhere_first() {
    let (name, raw) = still_names("S", true);
    assert_eq!((name.as_str(), raw.as_str()), ("Recap_S.png", ".recap-raw-S.png"));
    assert_eq!(still_names("S", false), ("Recap_S.png".to_string(), "Recap_S.png".to_string()));
    let (name, raw) = new_still_names(true);
    assert_eq!(name.len(), "Recap_2026-01-01_10-10-10.png".len());
    assert_eq!(name["Recap_".len()..], raw[".recap-raw-".len()..]);
}

#[test]
fn stills_say_what_is_missing() {
    let win = active(Platform::Windows);
    let mac = active(Platform::MacOs);
    assert_eq!(still_call(&win, None, 0, "o.png").err(), Some(win.ffmpeg_hint().to_string()));
    assert!(still_call(&mac, None, 0, "o.png").is_ok());
    assert_eq!(still_call(&win, Some("ff"), 0, "o.png").map(|c| c.program).ok(), Some("ff".to_string()));
    assert!(check_still(&mac, Some(512)).is_ok());
    assert_eq!(check_still(&mac, Some(511)), Err(mac.stall_hint().to_string()));
    assert_eq!(check_still(&mac, None), Err(mac.stall_hint().to_string()));
    assert_eq!(crop(&mac, None, "a", (1, 2, 3, 4), "b").err(), Some(mac.ffmpeg_hint().to_string()));
    let call = crop(&mac, Some("ff"), "a.png", (1, 2, 30, 40), "b.png").unwrap();
    assert_eq!(call.args.join(" "), "-hide_banner -loglevel error -y -i a.png -vf crop=30:40:1:2 b.png");
}

#[test]
fn a_failed_capture_reports_its_last_words() {
    let mac = active(Platform::MacOs);
    assert!(run(&mac, Ran::Succeeded).is_ok());
    assert_eq!(
        run(&mac, Ran::NotStarted("screencapture", "gone")),
        Err("could not start screencapture: gone".to_string())
    );
    assert_eq!(
        run(&mac, Ran::Failed("exit status: 1", "a\nb\nc\nd\n")),
        Err("capture failed: d c b".to_string())
    );
    assert_eq!(
        run(&mac, Ran::Failed("exit status: 1", "")),
        Err("capture failed (exit status: 1)".to_string())
    );
    assert_eq!(run(&mac, Ran::TimedOut), Err(mac.stall_hint().to_string()));
    assert_eq!(run(&mac, Ran::Lost("why")), Err("capture failed: why".to_string()));
}

#[test]
fn requests_are_told_apart() {
    assert!(matches!(dispatch(Some("ping"), None, None, None), Request::Ping));
    assert!(matches!(dispatch(Some("state"), None, None, None), Request::State));
    assert!(matches!(dispatch(Some("windows"), None, None, None), Request::Windows));
    assert!(matches!(dispatch(Some("bounds"), None, None, None), Request::Bounds(w) if w == "main"));
    assert!(matches!(
        dispatch(Some("eval"), Some("editor"), Some("1+1"), None),
        Request::Eval(w, js) if w == "editor" && js == "1+1"
    ));
    assert!(matches!(
        dispatch(Some("eval"), None, None, None),
        Request::Refused(e) if e == "eval needs a `js` string"
    ));
    for (name, invoked) in [
        ("still", Invoked::Still),
        ("grab_text", Invoked::GrabText),
        ("record_start", Invoked::RecordStart),
        ("record_stop", Invoked::RecordStop),
        ("pause", Invoked::Pause),
    ] {
        assert!(matches!(
            dispatch(Some("invoke"), None, None, Some(name)),
            Request::Invoke(i) if i == invoked
        ));
    }
    assert!(matches!(
        dispatch(Some("invoke"), None, None, None),
        Request::Refused(e) if e == "unknown invoke ``"
    ));
    assert!(matches!(
        dispatch(Some("x"), None, None, None),
        Request::Refused(e) if e == "unknown cmd `x`"
    ));
    assert!(matches!(dispatch(None, None, None, None), Request::Refused(e) if e == "unknown cmd ``"));
    assert_eq!(no_window("overlay"), "no window `overlay`");
}

#[test]
fn code_travels_as_a_string() {
    let script = eval_script("a \"b\"\n\\\u{1}\u{1f}\u{7f}\u{8}\u{c}\r\t\u{e9}", 12);
    assert!(
        script.contains("const src = \"a \\\"b\\\"\\n\\\\\\u0001\\u001f\u{7f}\\b\\f\\r\\t\u{e9}\";\n"),
        "{script}"
    );
    assert!(script.contains("{ id: 12, value: out }"));
    assert!(script.starts_with("(async () => {\n  let out;") && script.ends_with("});\n})()"));
}

#[test]
fn a_grab_is_checked_before_it_is_cropped() {
    let mac = active(Platform::MacOs);
    let rect = Some((0, 0, 10, 10));
    assert_eq!(
        after_grab(&mac, Some("ff"), Some(3), rect, "r.png", "o.png"),
        Err(mac.stall_hint().to_string())
    );
    assert_eq!(
        after_grab(&mac, None, Some(600), rect, "r.png", "o.png"),
        Err(mac.ffmpeg_hint().to_string())
    );
    assert_eq!(after_grab(&mac, None, Some(600), None, "r.png", "r.png"), Ok(None));
    match after_grab(&mac, Some("ff"), Some(600), rect, "r.png", "o.png") {
        Ok(Some(call)) => assert!(call.args.join(" ").contains("crop=10:10:0:0 o.png")),
        _ => panic!("must crop"),
    }
}

#[test]
fn a_still_has_ten_seconds() {
    assert_eq!(still_step(false, 0), StillStep::Wait);
    assert_eq!(still_step(false, 9_999), StillStep::Wait);
    assert_eq!(still_step(false, 10_000), StillStep::TimedOut);
    assert_eq!(still_step(true, 0), StillStep::Ended);
    assert_eq!(still_step(true, 10_000), StillStep::Ended);
}

fn refusal(r: Request) -> String {
    match r {
        Request::Refused(e) => e,
        _ => panic!("must be refused"),
    }
}

#[test]
fn a_line_of_json_is_a_request() {
    assert!(matches!(request("{\"cmd\":\"ping\"}\n"), Request::Ping));
    assert!(matches!(request("{\"cmd\":\"bounds\"}"), Request::Bounds(w) if w == "main"));
    assert!(matches!(
        request("{\"cmd\":\"bounds\",\"window\":\"edit\\u0041\"}"),
        Request::Bounds(w) if w == "editA"
    ));
    assert!(matches!(
        request("{\"js\":\"a\\n\",\"window\":7,\"cmd\":\"eval\"}"),
        Request::Eval(w, js) if w == "main" && js == "a\n"
    ));
    assert!(matches!(
        request("{\"cmd\":\"invoke\",\"name\":\"pause\"}"),
        Request::Invoke(Invoked::Pause)
    ));
    assert_eq!(refusal(request("{\"cmd\":\"eval\",\"js\":1}")), "eval needs a `js` string");
    assert_eq!(refusal(request("{\"cmd\":\"dance\"}")), "unknown cmd `dance`");
    assert_eq!(refusal(request("{\"cmd\":\"invoke\"}")), "unknown invoke ``");
    assert_eq!(refusal(request("{}")), "unknown cmd ``");
    assert_eq!(refusal(request("[1]")), "unknown cmd ``");
}

#[test]
fn a_line_that_is_not_json_is_refused_in_words() {
    let line = "nonsense\n";
    let why = serde_json::from_str::<serde_json::Value>(line).unwrap_err().to_string();
    assert_eq!(refusal(request(line)), format!("bad JSON: {why}"));
    assert_eq!(refusal(request("")), "bad JSON: EOF while parsing a value at line 1 column 0");
    assert_eq!(refusal(bad_json("why")), "bad JSON: why");
}

#[test]
fn a_report_answers_the_request_it_names() {
    assert_eq!(
        report("{\"id\": 7, \"value\": { \"ok\": [1, null] }}"),
        Some((7, "{\"ok\":[1,null]}".to_string()))
    );
    assert_eq!(report("{\"id\":18446744073709551615}"), Some((u64::MAX, "null".to_string())));
    assert_eq!(report("{\"id\":-1,\"value\":1}"), None);
    assert_eq!(report("{\"id\":\"7\",\"value\":1}"), None);
    assert_eq!(report("{\"value\":1}"), None);
    assert_eq!(report("{"), None);

    let member = |number, json: &str| Some(Member { text: None, number, json: json.to_string() });
    assert_eq!(report_of(member(Some(3), "3"), member(None, "true")), Some((3, "true".to_string())));
    assert_eq!(report_of(member(Some(3), "3"), None), Some((3, "null".to_string())));
    assert_eq!(report_of(member(None, "1.5"), None), None);
    assert_eq!(report_of(None, member(None, "true")), None);
}

#[test]
fn an_answer_is_one_line_of_json() {
    assert_eq!(answer_of(Ok("true".to_string())), "{\"ok\":true}");
    assert_eq!(answer_of(Err("no \"x\"\n".to_string())), "{\"error\":\"no \\\"x\\\"\\n\"}");
}
