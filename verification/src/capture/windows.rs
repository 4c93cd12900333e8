//! Windows capture backend.
//!
//!   - Video: ffmpeg's `ddagrab` lavfi source (GPU Desktop Duplication).
//!     Region capture is native via offset_x/offset_y/video_size.
//!   - NVENC and AMF accept the D3D11 frames directly (zero copy).
//!   - QSV and libx264 get a `hwdownload,format=bgra` hop into system memory.
//!     libx264 stands in for every encoder that is not one of the other three.
//!   - Audio: a second `dshow` input encoded to AAC.
//!   - Stills: one frame of `ddagrab`, downloaded.

use super::{audio_encoder, audio_views, base_args, base_args_spec, cap_fps, capped_fps, screen_views, software_encoder, stream_map, AudioDevice, CaptureBackend, CaptureTarget, ProgramCall, ScreenDevice};
use crate::numbers::{dec, dec_string};
use crate::pieces::{lines, lines_of, push_all};
use crate::recorder::{ConfigView, RecordingConfig};
use crate::text::{contains, find_char, from_chars, has, index_from, same, slices, strs, to_chars, views};
use vstd::prelude::*;
use vstd::slice::slice_subrange;
use vstd::string::*;

verus! {

pub struct Windows;

/// Only NVENC and AMF take the D3D11 frames as they are. What any other name
/// stands for needs them pulled down to system memory.
pub open spec fn downloads(encoder: Seq<char>) -> bool {
    encoder != "h264_nvenc"@ && encoder != "h264_amf"@
}

pub fn needs_hwdownload(encoder: &str) -> (r: bool)
    ensures
        r == downloads(encoder@),
{
    !same(encoder, "h264_nvenc") && !same(encoder, "h264_amf")
}

// ---------------------------------------------------------------------------
// Device listing

/// The audio input that a line of the listing names: what stands between its
/// first two quotation marks.
pub open spec fn audio_name(line: Seq<char>) -> Option<Seq<char>> {
    let start = index_from(line, '"', 0);
    let end = index_from(line, '"', start + 1);
    if has(line, "(audio)"@) && start < line.len() && end < line.len() && end > start + 1 {
        Some(line.subrange(start + 1, end))
    } else {
        None
    }
}

/// The audio inputs among the first `n` lines. dshow addresses devices by name,
/// so the identifier is the label.
pub open spec fn dshow_upto(lines: Seq<Seq<char>>, n: int) -> Seq<(Seq<char>, Seq<char>)>
    decreases n,
{
    if n <= 0 {
        Seq::empty()
    } else {
        match audio_name(lines[n - 1]) {
            Some(name) => dshow_upto(lines, n - 1).push((name, name)),
            None => dshow_upto(lines, n - 1),
        }
    }
}

/// The audio inputs that a listing names.
pub open spec fn dshow_inputs(listing: Seq<char>) -> Seq<(Seq<char>, Seq<char>)> {
    dshow_upto(lines_of(listing), lines_of(listing).len() as int)
}

fn read_audio_name(line: &[char]) -> (r: Option<String>)
    ensures
        match r {
            Some(name) => audio_name(line@) == Some(name@),
            None => audio_name(line@) is None,
        },
{
    if !contains(line, "(audio)") {
        return None;
    }
    let start: usize = find_char(line, '"', 0);
    if start >= line.len() {
        return None;
    }
    let end: usize = find_char(line, '"', start + 1);
    if end >= line.len() || end == start + 1 {
        return None;
    }
    Some(from_chars(slice_subrange(line, start + 1, end)))
}

pub fn parse_dshow_audio(stderr_text: &str) -> (r: Vec<AudioDevice>)
    ensures
        audio_views(r@) == dshow_inputs(stderr_text@),
{
    let all = lines(to_chars(stderr_text).as_slice());
    let ghost text = lines_of(stderr_text@);
    let mut devices: Vec<AudioDevice> = Vec::new();
    let mut i: usize = 0;
    assert(audio_views(devices@) =~= Seq::empty());
    while i < all.len()
        invariant
            i <= all@.len(),
            text == views(all@),
            text == lines_of(stderr_text@),
            audio_views(devices@) == dshow_upto(text, i as int),
        decreases all@.len() - i,
    {
        assert(all@[i as int]@ == text[i as int]);
        let ghost before = devices@;
        match read_audio_name(all[i].as_slice()) {
            Some(name) => {
                devices.push(AudioDevice { id: name.clone(), label: name });
                assert(audio_views(devices@) =~= audio_views(before).push((name@, name@)));
            },
            None => {},
        }
        i = i + 1;
    }
    devices
}

// ---------------------------------------------------------------------------
// Segment arguments

pub open spec fn geometry(target: CaptureTarget) -> Seq<char> {
    match target.region {
        Some(r) => ":offset_x="@ + dec(r.x as nat) + ":offset_y="@ + dec(r.y as nat) + ":video_size="@ + dec(
            r.width as nat,
        ) + "x"@ + dec(r.height as nat),
        None => Seq::empty(),
    }
}

pub open spec fn download_hop(encoder: Seq<char>) -> Seq<char> {
    if downloads(encoder) {
        ",hwdownload,format=bgra"@
    } else {
        Seq::empty()
    }
}

/// The lavfi graph that grabs the screen.
pub open spec fn graph(cfg: ConfigView, target: CaptureTarget, encoder: Seq<char>) -> Seq<char> {
    "ddagrab=output_idx="@ + dec(target.screen_id as nat) + ":framerate="@ + dec(
        capped_fps(cfg.fps) as nat,
    ) + ":draw_mouse="@ + (if cfg.capture_cursor {
        "1"@
    } else {
        "0"@
    }) + geometry(target) + download_hop(encoder)
}

pub open spec fn mic_input(cfg: ConfigView) -> Seq<Seq<char>> {
    match cfg.mic() {
        Some(d) => seq!["-f"@, "dshow"@, "-i"@, "audio="@ + d],
        None => Seq::empty(),
    }
}

pub open spec fn video_encoder(encoder: Seq<char>) -> Seq<Seq<char>> {
    if encoder == "h264_nvenc"@ {
        seq!["-c:v"@, "h264_nvenc"@, "-preset"@, "p4"@, "-cq"@, "23"@]
    } else if encoder == "h264_amf"@ {
        seq!["-c:v"@, "h264_amf"@, "-quality"@, "balanced"@, "-b:v"@, "10M"@]
    } else if encoder == "h264_qsv"@ {
        seq!["-c:v"@, "h264_qsv"@, "-global_quality"@, "23"@, "-pix_fmt"@, "nv12"@]
    } else {
        software_encoder()
    }
}

fn graph_string(cfg: &RecordingConfig, target: &CaptureTarget, encoder: &str) -> (r: String)
    ensures
        r@ == graph(cfg@, *target, encoder@),
{
    let mut g = "ddagrab=output_idx=".to_owned();
    g.append(dec_string(target.screen_id as u64).as_str());
    g.append(":framerate=");
    g.append(dec_string(cap_fps(cfg.fps) as u64).as_str());
    g.append(":draw_mouse=");
    if cfg.capture_cursor {
        g.append("1");
    } else {
        g.append("0");
    }
    let ghost source = g@;
    if let Some(r) = target.region {
        g.append(":offset_x=");
        g.append(dec_string(r.x as u64).as_str());
        g.append(":offset_y=");
        g.append(dec_string(r.y as u64).as_str());
        g.append(":video_size=");
        g.append(dec_string(r.width as u64).as_str());
        g.append("x");
        g.append(dec_string(r.height as u64).as_str());
    }
    assert(g@ =~= source + geometry(*target));
    if needs_hwdownload(encoder) {
        g.append(",hwdownload,format=bgra");
    }
    assert(g@ =~= graph(cfg@, *target, encoder@));
    g
}

impl CaptureBackend for Windows {
    /// ddagrab has no enumeration of its own; its `output_idx` is the monitor
    /// index.
    open spec fn screens_in(&self, listing: Seq<char>) -> Seq<(u32, Seq<char>)> {
        Seq::empty()
    }

    open spec fn audio_in(&self, listing: Seq<char>) -> Seq<(Seq<char>, Seq<char>)> {
        dshow_inputs(listing)
    }

    open spec fn listing_args(&self) -> Seq<Seq<char>> {
        seq!["-hide_banner"@, "-list_devices"@, "true"@, "-f"@, "dshow"@, "-i"@, "dummy"@]
    }

    open spec fn still_program(&self, ff: Seq<char>) -> Seq<char> {
        ff
    }

    open spec fn still_args(&self, display_index: nat, out: Seq<char>) -> Seq<Seq<char>> {
        seq![
            "-hide_banner"@,
            "-loglevel"@,
            "error"@,
            "-y"@,
            "-f"@,
            "lavfi"@,
            "-i"@,
            "ddagrab=output_idx="@ + dec(display_index) + ",hwdownload,format=bgra"@,
            "-frames:v"@,
            "1"@,
            out,
        ]
    }

    open spec fn segment_args_of(
        &self,
        cfg: ConfigView,
        target: CaptureTarget,
        encoder: Seq<char>,
        out: Seq<char>,
    ) -> Seq<Seq<char>> {
        base_args_spec() + seq!["-f"@, "lavfi"@, "-i"@, graph(cfg, target, encoder)] + mic_input(cfg)
            + stream_map(cfg.mic() is Some) + video_encoder(encoder) + audio_encoder(cfg.mic() is Some)
            + seq![out]
    }

    open spec fn encoders(&self) -> Seq<Seq<char>> {
        seq!["h264_nvenc"@, "h264_amf"@, "h264_qsv"@]
    }

    open spec fn filenames(&self) -> Seq<Seq<char>> {
        seq!["ffmpeg.exe"@]
    }

    open spec fn label(&self) -> Seq<char> {
        "windows-ddagrab"@
    }

    open spec fn ffmpeg_hint_text(&self) -> Seq<char> {
        "ffmpeg not found. Install it (winget install Gyan.FFmpeg), drop ffmpeg.exe next to Recap, or set RECAP_FFMPEG."@
    }

    open spec fn stall_hint_text(&self) -> Seq<char> {
        "No frames were captured. Desktop Duplication couldn't read this display — it doesn't work over Remote Desktop, on a locked screen, or when the display is driven by a different GPU than the one ffmpeg picked."@
    }

    fn name(&self) -> (r: &'static str) {
        "windows-ddagrab"
    }

    fn hw_encoders(&self) -> (r: &'static [&'static str]) {
        let r: &'static [&'static str] = &["h264_nvenc", "h264_amf", "h264_qsv"];
        proof {
            assert(slices(r@) =~= self.encoders());
            reveal_strlit("libx264");
            reveal_strlit("h264_nvenc");
            reveal_strlit("h264_amf");
            reveal_strlit("h264_qsv");
            assert("libx264"@.len() == 7);
            assert("h264_nvenc"@.len() == 10);
            assert("h264_amf"@.len() == 8);
            assert("h264_qsv"@.len() == 8);
        }
        r
    }

    fn ffmpeg_filenames(&self) -> (r: &'static [&'static str]) {
        let r: &'static [&'static str] = &["ffmpeg.exe"];
        assert(slices(r@) =~= self.filenames());
        r
    }

    fn ffmpeg_hint(&self) -> (r: &'static str) {
        "ffmpeg not found. Install it (winget install Gyan.FFmpeg), drop ffmpeg.exe next to Recap, or set RECAP_FFMPEG."
    }

    fn stall_hint(&self) -> (r: &'static str) {
        "No frames were captured. Desktop Duplication couldn't read this display — it doesn't work over Remote Desktop, on a locked screen, or when the display is driven by a different GPU than the one ffmpeg picked."
    }

    fn list_devices_args(&self) -> (r: Vec<String>) {
        let mut a: Vec<String> = Vec::new();
        push_all(&mut a, &["-hide_banner", "-list_devices", "true", "-f", "dshow", "-i", "dummy"]);
        assert(strs(a@) =~= self.listing_args());
        a
    }

    fn screens(&self, listing: &str) -> (r: Vec<ScreenDevice>) {
        let none: Vec<ScreenDevice> = Vec::new();
        assert(screen_views(none@) =~= Seq::empty());
        none
    }

    fn audio_devices(&self, listing: &str) -> (r: Vec<AudioDevice>) {
        parse_dshow_audio(listing)
    }

    fn still_command(&self, ff: &str, display_index: usize, out: &str) -> (r: ProgramCall) {
        let mut source = "ddagrab=output_idx=".to_owned();
        source.append(dec_string(display_index as u64).as_str());
        source.append(",hwdownload,format=bgra");
        let mut args: Vec<String> = Vec::new();
        push_all(
            &mut args,
            &["-hide_banner", "-loglevel", "error", "-y", "-f", "lavfi", "-i", source.as_str(), "-frames:v", "1", out],
        );
        assert(strs(args@) =~= self.still_args(display_index as nat, out@));
        ProgramCall { program: ff.to_owned(), args }
    }

    fn segment_args(
        &self,
        cfg: &RecordingConfig,
        target: &CaptureTarget,
        encoder: &str,
        out: &str,
    ) -> (r: Vec<String>) {
        let mut a = base_args();

        // ---- video input: ddagrab lavfi graph ------------------------------
        let g = graph_string(cfg, target, encoder);
        push_all(&mut a, &["-f", "lavfi", "-i", g.as_str()]);
        let ghost head = base_args_spec() + seq!["-f"@, "lavfi"@, "-i"@, graph(cfg@, *target, encoder@)];
        assert(strs(a@) =~= head);

        // ---- optional mic input --------------------------------------------
        let mic = cfg.mic_name();
        if let Some(device) = mic {
            let mut input = "audio=".to_owned();
            input.append(device);
            push_all(&mut a, &["-f", "dshow", "-i", input.as_str()]);
        }
        let ghost inputs = head + mic_input(cfg@);
        assert(strs(a@) =~= inputs);

        // ---- stream mapping ------------------------------------------------
        push_all(&mut a, &["-map", "0:v"]);
        if mic.is_some() {
            push_all(&mut a, &["-map", "1:a"]);
        }
        let ghost mapped = inputs + stream_map(cfg@.mic() is Some);
        assert(strs(a@) =~= mapped);

        // ---- video encoder -------------------------------------------------
        if same(encoder, "h264_nvenc") {
            push_all(&mut a, &["-c:v", "h264_nvenc", "-preset", "p4", "-cq", "23"]);
        } else if same(encoder, "h264_amf") {
            push_all(&mut a, &["-c:v", "h264_amf", "-quality", "balanced", "-b:v", "10M"]);
        } else if same(encoder, "h264_qsv") {
            push_all(&mut a, &["-c:v", "h264_qsv", "-global_quality", "23", "-pix_fmt", "nv12"]);
        } else {
            push_all(&mut a, &["-c:v", "libx264", "-preset", "veryfast", "-crf", "23", "-pix_fmt", "yuv420p"]);
        }
        let ghost encoded = mapped + video_encoder(encoder@);
        assert(strs(a@) =~= encoded);

        // ---- audio encoder -------------------------------------------------
        if mic.is_some() {
            push_all(&mut a, &["-c:a", "aac", "-b:a", "160k"]);
        }
        assert(strs(a@) =~= encoded + audio_encoder(cfg@.mic() is Some));

        push_all(&mut a, &[out]);
        assert(strs(a@) =~= self.segment_args_of(cfg@, *target, encoder@, out@));
        a
    }
}

} // verus!
