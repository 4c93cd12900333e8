use recap::capture::{
    active, cap_fps, macos::parse_avfoundation_devices, macos::MacOs, sanitize_region,
    windows::needs_hwdownload, windows::parse_dshow_audio, windows::Windows, Backend, CaptureBackend, CaptureTarget, Platform,
    ScreenDevice,
};
use recap::recorder::{RecordingConfig, Region};

fn cfg(output_dir: &str) -> RecordingConfig {
    RecordingConfig {
        mode: "fullscreen".to_string(),
        monitor_index: 0,
        fps: 30,
        encoder: "auto".to_string(),
        capture_cursor: true,
        mic_enabled: false,
        mic_device: None,
        output_dir: output_dir.to_string(),
    }
}

fn target(screen_id: u32, region: Option<Region>) -> CaptureTarget {
    CaptureTarget { screen_id, region }
}

const SAMPLE: &str = r#"
[AVFoundation indev @ 0x140607b30] AVFoundation video devices:
[AVFoundation indev @ 0x140607b30] [0] FaceTime HD Camera
[AVFoundation indev @ 0x140607b30] [1] Capture screen 0
[AVFoundation indev @ 0x140607b30] [2] Capture screen 1
[AVFoundation indev @ 0x140607b30] AVFoundation audio devices:
[AVFoundation indev @ 0x140607b30] [0] Justin's AirPods Pro #3
[AVFoundation indev @ 0x140607b30] [1] MacBook Pro Microphone
"#;

#[test]
fn parses_screens_skipping_cameras_but_keeping_their_indices() {
    let (screens, _) = parse_avfoundation_devices(SAMPLE);
    assert_eq!(
        screens,
        vec![
            ScreenDevice { id: 1, label: "Capture screen 0".to_string() },
            ScreenDevice { id: 2, label: "Capture screen 1".to_string() },
        ]
    );
}

#[test]
fn parses_audio_devices_with_index_ids() {
    let (_, audio) = parse_avfoundation_devices(SAMPLE);
    assert_eq!(audio.len(), 2);
    assert_eq!(audio[0].id, "0");
    assert_eq!(audio[0].label, "Justin's AirPods Pro #3");
    assert_eq!(audio[1].id, "1");
}

#[test]
fn log_prefix_brackets_are_not_mistaken_for_indices() {
    let (screens, audio) = parse_avfoundation_devices(
        "[AVFoundation indev @ 0x7f] AVFoundation video devices:\n\
         [AVFoundation indev @ 0x7f] [0] Capture screen 0\n",
    );
    assert_eq!(screens.len(), 1);
    assert_eq!(screens[0].id, 0);
    assert!(audio.is_empty());
}

#[test]
fn fullscreen_uses_videotoolbox_and_no_crop() {
    let args = MacOs.segment_args(&cfg("/tmp"), &target(1, None), "h264_videotoolbox", "/tmp/seg.mp4");
    let joined = args.join(" ");
    assert!(joined.contains("-f avfoundation"));
    assert!(joined.contains("-i 1:none"));
    assert!(joined.contains("-capture_cursor 1"));
    assert!(joined.contains("-c:v h264_videotoolbox"));
    assert!(!joined.contains("crop="));
    assert!(!joined.contains("-map 1:a"));
}

#[test]
fn region_adds_crop_filter_in_wh_xy_order() {
    let region = Region { monitor_index: 0, x: 100, y: 60, width: 800, height: 600 };
    let args = MacOs.segment_args(&cfg("/tmp"), &target(1, Some(region)), "libx264", "/tmp/seg.mp4");
    let joined = args.join(" ");
    assert!(joined.contains("-vf crop=800:600:100:60"));
    assert!(joined.contains("-c:v libx264"));
}

#[test]
fn mic_adds_second_avfoundation_input_by_index() {
    let mut c = cfg("/tmp");
    c.mic_enabled = true;
    c.mic_device = Some("1".to_string());
    let args = MacOs.segment_args(&c, &target(1, None), "libx264", "/tmp/seg.mp4");
    let joined = args.join(" ");
    assert!(joined.contains("-i :1"));
    assert!(joined.contains("-map 1:a"));
    assert!(joined.contains("-c:a aac"));
}

#[test]
fn cursor_off_is_passed_through() {
    let mut c = cfg("/tmp");
    c.capture_cursor = false;
    let args = MacOs.segment_args(&c, &target(0, None), "libx264", "/tmp/seg.mp4");
    assert!(args.join(" ").contains("-capture_cursor 0"));
}

#[test]
fn region_is_evened_and_clamped() {
    assert_eq!(sanitize_region(-3, 5, 801, 601), (0, 5, 800, 600));
    assert_eq!(sanitize_region(10, 10, 1, 1), (10, 10, 2, 2));
}

#[test]
fn active_backend_never_lists_libx264_as_hardware() {
    assert!(!active(Platform::MacOs).hw_encoders().contains(&"libx264"));
    assert!(!active(Platform::Windows).hw_encoders().contains(&"libx264"));
}

#[test]
fn fullscreen_nvenc_has_no_download_hop() {
    let args = Windows.segment_args(&cfg("C:/tmp"), &target(0, None), "h264_nvenc", "C:/tmp/seg.mp4");
    let joined = args.join(" ");
    assert!(joined.contains("ddagrab=output_idx=0:framerate=30:draw_mouse=1"));
    assert!(!joined.contains("hwdownload"));
    assert!(joined.contains("-c:v h264_nvenc"));
    assert!(!joined.contains("-map 1:a"));
}

#[test]
fn region_x264_downloads_and_sets_geometry() {
    let region = Region { monitor_index: 1, x: 100, y: 60, width: 800, height: 600 };
    let args = Windows.segment_args(&cfg("C:/tmp"), &target(1, Some(region)), "libx264", "C:/tmp/seg.mp4");
    let joined = args.join(" ");
    assert!(joined.contains("output_idx=1"));
    assert!(joined.contains("offset_x=100:offset_y=60:video_size=800x600"));
    assert!(joined.contains("hwdownload,format=bgra"));
    assert!(joined.contains("-pix_fmt yuv420p"));
}

#[test]
fn mic_adds_second_input_and_aac() {
    let mut c = cfg("C:/tmp");
    c.mic_enabled = true;
    c.mic_device = Some("Microphone (Yeti)".to_string());
    let args = Windows.segment_args(&c, &target(0, None), "libx264", "C:/tmp/seg.mp4");
    let joined = args.join(" ");
    assert!(joined.contains("audio=Microphone (Yeti)"));
    assert!(joined.contains("-map 1:a"));
    assert!(joined.contains("-c:a aac"));
}

#[test]
fn dshow_parse_extracts_audio_names_only() {
    let sample = r#"
[dshow @ 0000018] "OBS Virtual Camera" (video)
[dshow @ 0000018]   Alternative name "@device_pnp_..."
[dshow @ 0000018] "Microphone (Realtek(R) Audio)" (audio)
[dshow @ 0000018] "Line In (Yeti Stereo Microphone)" (audio)
"#;
    let devices = parse_dshow_audio(sample);
    let ids: Vec<&str> = devices.iter().map(|d| d.id.as_str()).collect();
    assert_eq!(
        ids,
        vec!["Microphone (Realtek(R) Audio)", "Line In (Yeti Stereo Microphone)"]
    );
}

#[test]
fn sanitizing_twice_is_sanitizing_once() {
    let (x, y, w, h) = sanitize_region(-3, 5, 801, 0);
    assert_eq!((x, y, w, h), (0, 5, 800, 2));
    assert_eq!(sanitize_region(x as i32, y as i32, w, h), (x, y, w, h));
}

#[test]
fn macos_never_asks_the_input_for_a_frame_rate() {
    let args = MacOs.segment_args(&cfg("/tmp"), &target(1, None), "h264_videotoolbox", "/tmp/seg.mp4");
    assert!(!args.iter().any(|a| a == "-framerate"));
    assert!(args.join(" ").contains("-r 30"));
    assert_eq!(args.last().map(String::as_str), Some("/tmp/seg.mp4"));
}

#[test]
fn frame_rates_are_capped() {
    assert_eq!(cap_fps(0), 1);
    assert_eq!(cap_fps(30), 30);
    assert_eq!(cap_fps(500), 120);
}

#[test]
fn stills_go_through_the_platforms_own_tool() {
    let mac: Backend = active(Platform::MacOs);
    let call = mac.still_command("", 1, "/tmp/a.png");
    assert_eq!(call.program, "screencapture");
    assert_eq!(call.args, vec!["-x", "-D", "2", "/tmp/a.png"]);
    let win: Backend = active(Platform::Windows);
    let call = win.still_command("C:/ffmpeg.exe", 1, "C:/a.png");
    assert_eq!(call.program, "C:/ffmpeg.exe");
    assert!(call.args.join(" ").contains("ddagrab=output_idx=1"));
    assert!(win.still_command("", 1, "C:/a.png").program.is_empty());
}

#[test]
fn windows_leaves_screens_to_the_window_system() {
    let win: Backend = active(Platform::Windows);
    assert!(win.screens("anything").is_empty());
    let mac: Backend = active(Platform::MacOs);
    assert_eq!(mac.screens(SAMPLE).len(), 2);
    assert_eq!(mac.audio_devices(SAMPLE).len(), 2);
    assert!(mac.list_devices_args().join(" ").contains("-list_devices true"));
}

#[test]
fn the_download_hop_follows_the_codec_that_is_written() {
    let after = |args: &[String], flag: &str| {
        args.iter().position(|a| a == flag).map(|i| args[i + 1].clone()).expect("flag")
    };
    for (encoder, codec, hop) in [
        ("h264_nvenc", "h264_nvenc", false),
        ("h264_amf", "h264_amf", false),
        ("h264_qsv", "h264_qsv", true),
        ("libx264", "libx264", true),
        ("h264_videotoolbox", "libx264", true),
        ("", "libx264", true),
    ] {
        let args = Windows.segment_args(&cfg("C:/tmp"), &target(0, None), encoder, "C:/tmp/seg.mp4");
        let graph = after(&args, "-i");
        assert_eq!(after(&args, "-c:v"), codec);
        assert_eq!(needs_hwdownload(encoder), hop);
        assert_eq!(graph.ends_with(",hwdownload,format=bgra"), hop);
        assert_eq!(graph.contains("hwdownload"), hop);
    }
}

#[test]
fn audio_listings_add_up() {
    let names = |text: &str| -> Vec<(String, String)> {
        parse_dshow_audio(text).into_iter().map(|d| (d.id, d.label)).collect()
    };
    let one = "[dshow] \"Mic\" (audio)\r";
    let two = "\"Cam\" (video)\n(audio) without quotes\n\"\" (audio)\n\"Line In\" (audio)\n";
    for (a, b) in [(one, two), (two, one), ("", one), (two, ""), (two, two)] {
        let mut both = names(a);
        both.extend(names(b));
        assert_eq!(names(&format!("{a}\n{b}")), both);
    }
    assert_eq!(names(one), vec![("Mic".to_string(), "Mic".to_string())]);
    assert_eq!(names(two), vec![("Line In".to_string(), "Line In".to_string())]);
}

#[test]
fn the_crop_stands_in_front_of_the_encoder() {
    let region = Region { monitor_index: 0, x: 2, y: 4, width: 6, height: 8 };
    let whole = MacOs.segment_args(&cfg("/tmp"), &target(1, None), "libx264", "/tmp/seg.mp4");
    let part = MacOs.segment_args(&cfg("/tmp"), &target(1, Some(region)), "libx264", "/tmp/seg.mp4");
    let at = whole.iter().position(|a| a == "-c:v").expect("codec");
    assert_eq!(whole[at - 2..at], ["-r".to_string(), "30".to_string()]);
    assert_eq!(part[..at], whole[..at]);
    assert_eq!(part[at..at + 2], ["-vf".to_string(), "crop=6:8:2:4".to_string()]);
    assert_eq!(part[at + 2..], whole[at..]);
}
