//! macOS capture backend.
//!
//!   - Video: ffmpeg's `avfoundation` input device. Screens appear as devices
//!     named "Capture screen N", listed after any cameras.
//!   - Encoding: VideoToolbox with libx264 fallback.
//!   - Region capture: the full screen is grabbed and cropped in the filter
//!     graph.
//!   - Audio: a second `avfoundation` input, addressed by device index.
//!   - Stills: Apple's `screencapture`.
//!
//! The frame rate is set on the output. AVFoundation's screen input rejects
//! `-framerate`, after which ffmpeg duplicates frames without bound.

use super::{audio_encoder, audio_views, base_args, base_args_spec, cap_fps, capped_fps, crop_filter, crop_filter_string, screen_views, software_encoder, stream_map, AudioDevice, CaptureBackend, CaptureTarget, ProgramCall, ScreenDevice};
use crate::numbers::{dec, dec_string, is_digit, lemma_dec, parse_uint, read_uint};
use crate::pieces::{lines, lines_of, push_all};
use crate::recorder::{ConfigView, RecordingConfig};
use crate::text::{begins, contains, find_char, from_chars, has, index_from, is_white, last_index, lemma_index_from, lemma_index_from_is, lemma_last_before, lemma_last_index_is, lemma_match_from, occurs, rfind_char, same, slices, starts_with, strs, to_chars, trim, trimmed, views};
use crate::text_laws::{all_white, numbers_are_read_back, trimming_keeps_the_inside};
use vstd::prelude::*;
use vstd::slice::slice_subrange;
use vstd::string::*;

verus! {

pub struct MacOs;

// ---------------------------------------------------------------------------
// Device listing

#[derive(Clone, Copy, PartialEq, Eq, Structural)]
pub enum Section {
    Preamble,
    Video,
    Audio,
}

/// The section that a line of the listing opens, if it is a heading.
pub open spec fn heading(line: Seq<char>) -> Section {
    if has(line, "AVFoundation video devices:"@) {
        Section::Video
    } else if has(line, "AVFoundation audio devices:"@) {
        Section::Audio
    } else {
        Section::Preamble
    }
}

/// The section in which line `n` stands: that of the last heading above it.
pub open spec fn section_at(lines: Seq<Seq<char>>, n: int) -> Section
    decreases n,
{
    if n <= 0 {
        Section::Preamble
    } else if heading(lines[n - 1]) != Section::Preamble {
        heading(lines[n - 1])
    } else {
        section_at(lines, n - 1)
    }
}

/// The device that a line names: the number in its last pair of brackets, and
/// the text after them. (The log prefix uses brackets too.)
pub open spec fn device_of(line: Seq<char>) -> Option<(u32, Seq<char>)> {
    match last_index(line, '[') {
        None => None,
        Some(open) => {
            let close = index_from(line, ']', open);
            if close >= line.len() {
                None
            } else {
                let index = parse_uint(trimmed(line.subrange(open + 1, close)), u32::MAX as nat);
                let label = trimmed(line.skip(close + 1));
                match index {
                    Some(i) if label.len() > 0 => Some((i as u32, label)),
                    _ => None,
                }
            }
        },
    }
}

/// The device that line `n` lists in section `s`.
pub open spec fn listed(lines: Seq<Seq<char>>, n: int, s: Section) -> Option<(u32, Seq<char>)> {
    if heading(lines[n]) == Section::Preamble && section_at(lines, n) == s {
        device_of(lines[n])
    } else {
        None
    }
}

/// The screens among the first `n` lines. Cameras share the index space but
/// are no screens.
pub open spec fn screens_upto(lines: Seq<Seq<char>>, n: int) -> Seq<(u32, Seq<char>)>
    decreases n,
{
    if n <= 0 {
        Seq::empty()
    } else {
        match listed(lines, n - 1, Section::Video) {
            Some(d) if begins(d.1, "Capture screen"@) => screens_upto(lines, n - 1).push(d),
            _ => screens_upto(lines, n - 1),
        }
    }
}

/// The audio inputs among the first `n` lines.
pub open spec fn audio_upto(lines: Seq<Seq<char>>, n: int) -> Seq<(Seq<char>, Seq<char>)>
    decreases n,
{
    if n <= 0 {
        Seq::empty()
    } else {
        match listed(lines, n - 1, Section::Audio) {
            Some(d) => audio_upto(lines, n - 1).push((dec(d.0 as nat), d.1)),
            None => audio_upto(lines, n - 1),
        }
    }
}

fn read_device(line: &[char]) -> (r: Option<(u32, String)>)
    ensures
        match r {
            Some(d) => device_of(line@) == Some((d.0, d.1@)),
            None => device_of(line@) is None,
        },
{
    let open = match rfind_char(line, '[') {
        Some(i) => i,
        None => {
            return None;
        },
    };
    proof {
        lemma_last_before(line@, '[', line@.len() as int);
        lemma_index_from(line@, ']', open as int);
    }
    let close: usize = find_char(line, ']', open);
    if close >= line.len() {
        return None;
    }
    let inner = slice_subrange(line, open + 1, close);
    let rest = slice_subrange(line, close + 1, line.len());
    assert(rest@ == line@.skip(close + 1));
    let index = match read_uint(trim(inner), u32::MAX as u64) {
        Some(i) => i,
        None => {
            return None;
        },
    };
    let label = trim(rest);
    if label.len() == 0 {
        return None;
    }
    Some((index as u32, from_chars(label)))
}

/// Takes `ffmpeg -f avfoundation -list_devices true -i ""` error output apart
/// into its screens and audio inputs. Lines look like
/// `[AVFoundation indev @ 0x..] [0] Capture screen 0`.
pub fn parse_avfoundation_devices(stderr_text: &str) -> (r: (Vec<ScreenDevice>, Vec<AudioDevice>))
    ensures
        screen_views(r.0@) == screens_upto(lines_of(stderr_text@), lines_of(stderr_text@).len() as int),
        audio_views(r.1@) == audio_upto(lines_of(stderr_text@), lines_of(stderr_text@).len() as int),
{
    let all = lines(to_chars(stderr_text).as_slice());
    let ghost text = lines_of(stderr_text@);
    let mut section = Section::Preamble;
    let mut screens: Vec<ScreenDevice> = Vec::new();
    let mut audio: Vec<AudioDevice> = Vec::new();
    let mut i: usize = 0;
    assert(screen_views(screens@) =~= Seq::empty());
    assert(audio_views(audio@) =~= Seq::empty());
    while i < all.len()
        invariant
            i <= all@.len(),
            text == views(all@),
            text == lines_of(stderr_text@),
            section == section_at(text, i as int),
            screen_views(screens@) == screens_upto(text, i as int),
            audio_views(audio@) == audio_upto(text, i as int),
        decreases all@.len() - i,
    {
        let line = all[i].as_slice();
        assert(line@ == text[i as int]);
        let ghost old_screens = screens@;
        let ghost old_audio = audio@;
        if contains(line, "AVFoundation video devices:") {
            section = Section::Video;
        } else if contains(line, "AVFoundation audio devices:") {
            section = Section::Audio;
        } else {
            match read_device(line) {
                Some((index, label)) => match section {
                    Section::Video => if starts_with(to_chars(label.as_str()).as_slice(), "Capture screen") {
                        screens.push(ScreenDevice { id: index, label });
                        assert(screen_views(screens@) =~= screen_views(old_screens).push((index, label@)));
                    },
                    Section::Audio => {
                        audio.push(AudioDevice { id: dec_string(index as u64), label });
                        assert(audio_views(audio@) =~= audio_views(old_audio).push((dec(index as nat), label@)));
                    },
                    Section::Preamble => {},
                },
                None => {},
            }
        }
        i = i + 1;
    }
    (screens, audio)
}

// ---------------------------------------------------------------------------
// Segment arguments

pub open spec fn video_input(cfg: ConfigView, target: CaptureTarget) -> Seq<Seq<char>> {
    seq![
        "-f"@,
        "avfoundation"@,
        "-capture_cursor"@,
        if cfg.capture_cursor {
            "1"@
        } else {
            "0"@
        },
        "-capture_mouse_clicks"@,
        "0"@,
        "-i"@,
        dec(target.screen_id as nat) + ":none"@,
    ]
}

pub open spec fn mic_input(cfg: ConfigView) -> Seq<Seq<char>> {
    match cfg.mic() {
        Some(d) => seq!["-f"@, "avfoundation"@, "-i"@, ":"@ + d],
        None => Seq::empty(),
    }
}

pub open spec fn region_crop(target: CaptureTarget) -> Seq<Seq<char>> {
    match target.region {
        Some(r) => seq!["-vf"@, crop_filter(r.width, r.height, r.x, r.y)],
        None => Seq::empty(),
    }
}

pub open spec fn video_encoder(encoder: Seq<char>) -> Seq<Seq<char>> {
    if encoder == "h264_videotoolbox"@ {
        seq![
            "-c:v"@,
            "h264_videotoolbox"@,
            "-realtime"@,
            "1"@,
            "-b:v"@,
            "12M"@,
            "-pix_fmt"@,
            "yuv420p"@,
        ]
    } else {
        software_encoder()
    }
}

pub open spec fn output_rate(cfg: ConfigView) -> Seq<Seq<char>> {
    seq!["-r"@, dec(capped_fps(cfg.fps) as nat)]
}

impl CaptureBackend for MacOs {
    open spec fn screens_in(&self, listing: Seq<char>) -> Seq<(u32, Seq<char>)> {
        screens_upto(lines_of(listing), lines_of(listing).len() as int)
    }

    open spec fn audio_in(&self, listing: Seq<char>) -> Seq<(Seq<char>, Seq<char>)> {
        audio_upto(lines_of(listing), lines_of(listing).len() as int)
    }

    open spec fn listing_args(&self) -> Seq<Seq<char>> {
        seq!["-hide_banner"@, "-f"@, "avfoundation"@, "-list_devices"@, "true"@, "-i"@, ""@]
    }

    open spec fn still_program(&self, ff: Seq<char>) -> Seq<char> {
        "screencapture"@
    }

    open spec fn still_args(&self, display_index: nat, out: Seq<char>) -> Seq<Seq<char>> {
        seq!["-x"@, "-D"@, dec(display_index + 1), out]
    }

    open spec fn segment_args_of(
        &self,
        cfg: ConfigView,
        target: CaptureTarget,
        encoder: Seq<char>,
        out: Seq<char>,
    ) -> Seq<Seq<char>> {
        base_args_spec() + video_input(cfg, target) + mic_input(cfg) + stream_map(cfg.mic() is Some)
            + output_rate(cfg) + region_crop(target) + video_encoder(encoder) + audio_encoder(
            cfg.mic() is Some,
        ) + seq![out]
    }

    open spec fn encoders(&self) -> Seq<Seq<char>> {
        seq!["h264_videotoolbox"@]
    }

    open spec fn filenames(&self) -> Seq<Seq<char>> {
        seq!["ffmpeg"@]
    }

    open spec fn label(&self) -> Seq<char> {
        "macos-avfoundation"@
    }

    open spec fn ffmpeg_hint_text(&self) -> Seq<char> {
        "ffmpeg not found. Put a static build at vendor/ffmpeg, set RECAP_FFMPEG to its path, or install it (brew install ffmpeg)."@
    }

    open spec fn stall_hint_text(&self) -> Seq<char> {
        "No frames were captured. macOS is almost certainly blocking screen recording: open System Settings → Privacy & Security → Screen Recording, enable Recap, then restart the app."@
    }

    fn name(&self) -> (r: &'static str) {
        "macos-avfoundation"
    }

    fn hw_encoders(&self) -> (r: &'static [&'static str]) {
        let r: &'static [&'static str] = &["h264_videotoolbox"];
        proof {
            assert(slices(r@) =~= self.encoders());
            reveal_strlit("libx264");
            reveal_strlit("h264_videotoolbox");
            assert("libx264"@.len() != "h264_videotoolbox"@.len());
        }
        r
    }

    fn ffmpeg_filenames(&self) -> (r: &'static [&'static str]) {
        let r: &'static [&'static str] = &["ffmpeg"];
        assert(slices(r@) =~= self.filenames());
        r
    }

    fn ffmpeg_hint(&self) -> (r: &'static str) {
        "ffmpeg not found. Put a static build at vendor/ffmpeg, set RECAP_FFMPEG to its path, or install it (brew install ffmpeg)."
    }

    fn stall_hint(&self) -> (r: &'static str) {
        "No frames were captured. macOS is almost certainly blocking screen recording: open System Settings → Privacy & Security → Screen Recording, enable Recap, then restart the app."
    }

    fn list_devices_args(&self) -> (r: Vec<String>) {
        let mut a: Vec<String> = Vec::new();
        push_all(&mut a, &["-hide_banner", "-f", "avfoundation", "-list_devices", "true", "-i", ""]);
        assert(strs(a@) =~= self.listing_args());
        a
    }

    fn screens(&self, listing: &str) -> (r: Vec<ScreenDevice>) {
        parse_avfoundation_devices(listing).0
    }

    fn audio_devices(&self, listing: &str) -> (r: Vec<AudioDevice>) {
        parse_avfoundation_devices(listing).1
    }

    fn still_command(&self, ff: &str, display_index: usize, out: &str) -> (r: ProgramCall) {
        let number = dec_string(display_index as u64 + 1);
        let mut args: Vec<String> = Vec::new();
        push_all(&mut args, &["-x", "-D", number.as_str(), out]);
        assert(strs(args@) =~= self.still_args(display_index as nat, out@));
        ProgramCall { program: "screencapture".to_owned(), args }
    }

    fn segment_args(
        &self,
        cfg: &RecordingConfig,
        target: &CaptureTarget,
        encoder: &str,
        out: &str,
    ) -> (r: Vec<String>) {
        let mut a = base_args();

        // ---- video input: avfoundation screen device -----------------------
        // Input options must precede their -i.
        let cursor = if cfg.capture_cursor {
            "1"
        } else {
            "0"
        };
        let mut source = dec_string(target.screen_id as u64);
        source.append(":none");
        push_all(
            &mut a,
            &["-f", "avfoundation", "-capture_cursor", cursor, "-capture_mouse_clicks", "0", "-i", source.as_str()],
        );
        let ghost head = base_args_spec() + video_input(cfg@, *target);
        assert(strs(a@) =~= head);

        // ---- optional mic input --------------------------------------------
        let mic = cfg.mic_name();
        if let Some(device) = mic {
            let mut input = ":".to_owned();
            input.append(device);
            push_all(&mut a, &["-f", "avfoundation", "-i", input.as_str()]);
        }
        let ghost inputs = head + mic_input(cfg@);
        assert(strs(a@) =~= inputs);

        // ---- stream mapping ------------------------------------------------
        push_all(&mut a, &["-map", "0:v"]);
        if mic.is_some() {
            push_all(&mut a, &["-map", "1:a"]);
        }
        let ghost mapped = inputs + stream_map(cfg@.mic() is Some);
        assert(strs(a@) =~= mapped);

        // ---- frame rate ----------------------------------------------------
        let fps = dec_string(cap_fps(cfg.fps) as u64);
        push_all(&mut a, &["-r", fps.as_str()]);
        let ghost rated = mapped + output_rate(cfg@);
        assert(strs(a@) =~= rated);

        // ---- region crop ---------------------------------------------------
        if let Some(r) = target.region {
            let crop = crop_filter_string(r.width, r.height, r.x, r.y);
            push_all(&mut a, &["-vf", crop.as_str()]);
        }
        let ghost cropped = rated + region_crop(*target);
        assert(strs(a@) =~= cropped);

        // ---- video encoder -------------------------------------------------
        if same(encoder, "h264_videotoolbox") {
            push_all(
                &mut a,
                &["-c:v", "h264_videotoolbox", "-realtime", "1", "-b:v", "12M", "-pix_fmt", "yuv420p"],
            );
        } else {
            push_all(&mut a, &["-c:v", "libx264", "-preset", "veryfast", "-crf", "23", "-pix_fmt", "yuv420p"]);
        }
        let ghost encoded = cropped + video_encoder(encoder@);
        assert(strs(a@) =~= encoded);

        // ---- audio encoder -------------------------------------------------
        if mic.is_some() {
            push_all(&mut a, &["-c:a", "aac", "-b:a", "160k"]);
        }
        assert(strs(a@) =~= encoded + audio_encoder(cfg@.mic() is Some));

        push_all(&mut a, &[out]);
        assert(strs(a@) =~= self.segment_args_of(cfg@, *target, encoder@, out@));
        a
    }
}

/// Not the argument `-framerate`, by its length or its first character.
spec fn plain(arg: Seq<char>) -> bool {
    arg.len() != 10 || arg[0] != '-'
}

/// No argument in front of the output path sets `-framerate`: AVFoundation's
/// screen input rejects it.
pub proof fn no_input_frame_rate(
    cfg: ConfigView,
    target: CaptureTarget,
    encoder: Seq<char>,
    out: Seq<char>,
)
    ensures
        !MacOs.segment_args_of(cfg, target, encoder, out).drop_last().contains("-framerate"@),
{
    let args = MacOs.segment_args_of(cfg, target, encoder, out).drop_last();
    reveal_strlit("-framerate");
    reveal_strlit("-hide_banner");
    reveal_strlit("-loglevel");
    reveal_strlit("warning");
    reveal_strlit("-progress");
    reveal_strlit("pipe:1");
    reveal_strlit("-y");
    reveal_strlit("-f");
    reveal_strlit("avfoundation");
    reveal_strlit("-capture_cursor");
    reveal_strlit("1");
    reveal_strlit("0");
    reveal_strlit("-capture_mouse_clicks");
    reveal_strlit("-i");
    reveal_strlit(":");
    reveal_strlit("-map");
    reveal_strlit("0:v");
    reveal_strlit("1:a");
    reveal_strlit("-vf");
    reveal_strlit("crop=");
    reveal_strlit("-r");
    reveal_strlit("-c:v");
    reveal_strlit("h264_videotoolbox");
    reveal_strlit("-realtime");
    reveal_strlit("-b:v");
    reveal_strlit("12M");
    reveal_strlit("-pix_fmt");
    reveal_strlit("yuv420p");
    reveal_strlit("libx264");
    reveal_strlit("-preset");
    reveal_strlit("veryfast");
    reveal_strlit("-crf");
    reveal_strlit("23");
    reveal_strlit("-c:a");
    reveal_strlit("aac");
    reveal_strlit("-b:a");
    reveal_strlit("160k");
    let mic = cfg.mic() is Some;
    lemma_dec(target.screen_id as nat);
    let source = dec(target.screen_id as nat) + ":none"@;
    assert(is_digit(dec(target.screen_id as nat)[0]));
    assert(source[0] == dec(target.screen_id as nat)[0]);
    lemma_dec(capped_fps(cfg.fps) as nat);
    assert(is_digit(dec(capped_fps(cfg.fps) as nat)[0]));
    assert(forall|i: int| 0 <= i < 8 ==> plain(#[trigger] video_input(cfg, target)[i]));
    assert(forall|i: int| 0 <= i < mic_input(cfg).len() ==> plain(#[trigger] mic_input(cfg)[i])) by {
        if let Some(d) = cfg.mic() {
            assert((":"@ + d)[0] == ':');
        }
    }
    assert(forall|i: int| 0 <= i < region_crop(target).len() ==> plain(#[trigger] region_crop(target)[i])) by {
        if let Some(r) = target.region {
            assert(crop_filter(r.width, r.height, r.x, r.y)[0] == 'c');
        }
    }
    assert(forall|i: int| 0 <= i < 2 ==> plain(#[trigger] output_rate(cfg)[i]));
    assert(forall|i: int| 0 <= i < args.len() ==> plain(#[trigger] args[i]));
}

/// A region adds its crop, directly in front of the video encoder, and changes
/// nothing else.
pub proof fn a_region_adds_only_its_crop(
    cfg: ConfigView,
    target: CaptureTarget,
    encoder: Seq<char>,
    out: Seq<char>,
)
    ensures
        ({
            let whole = MacOs.segment_args_of(cfg, (CaptureTarget { region: None, ..target }), encoder, out);
            let n = whole.len() - 1 - audio_encoder(cfg.mic() is Some).len() - video_encoder(encoder).len();
            &&& 0 <= n < whole.len()
            &&& whole[n] == "-c:v"@
            &&& MacOs.segment_args_of(cfg, target, encoder, out) == whole.take(n) + region_crop(target)
                + whole.skip(n)
        }),
{
    let whole = MacOs.segment_args_of(cfg, CaptureTarget { region: None, ..target }, encoder, out);
    let front = base_args_spec() + video_input(cfg, target) + mic_input(cfg) + stream_map(cfg.mic() is Some)
        + output_rate(cfg);
    let back = video_encoder(encoder) + audio_encoder(cfg.mic() is Some) + seq![out];
    assert(whole =~= front + back);
    assert(whole.take(front.len() as int) =~= front);
    assert(whole.skip(front.len() as int) =~= back);
    assert(MacOs.segment_args_of(cfg, target, encoder, out) =~= front + region_crop(target) + back);
}

// ---------------------------------------------------------------------------
// Laws of the listing

/// A line of the listing names the device whose number stands in its last pair of
/// brackets, whatever stands in front of them, by the text behind them.
pub proof fn a_line_names_its_device(
    front: Seq<char>,
    inner: Seq<char>,
    n: nat,
    gap: Seq<char>,
    label: Seq<char>,
    end: Seq<char>,
)
    requires
        n <= u32::MAX,
        all_white(inner),
        all_white(gap),
        all_white(end),
        label.len() > 0,
        !is_white(label[0]),
        !is_white(label.last()),
        !label.contains('['),
    ensures
        device_of(front + seq!['['] + inner + dec(n) + inner + seq![']'] + gap + label + end) == Some(
            (n as u32, label),
        ),
        device_of(front + seq!['['] + inner + dec(n) + inner + seq![']'] + gap) is None,
{
    lemma_dec(n);
    let d = dec(n);
    assert(is_digit(d[0]) && is_digit(d[d.len() - 1]));
    let number = inner + d + inner;
    let head = front + seq!['['] + number + seq![']'];
    let open = front.len() as int;
    let close = open + 1 + number.len();
    assert forall|k: int| open < k < close implies head[k] != '[' && head[k] != ']' by {
        let i = k - open - 1;
        assert(head[k] == number[i]);
        if i < inner.len() {
            assert(is_white(inner[i]));
        } else if i < inner.len() + d.len() {
            assert(number[i] == d[i - inner.len()]);
            assert(is_digit(d[i - inner.len()]));
        } else {
            assert(number[i] == inner[i - inner.len() - d.len()]);
            assert(is_white(inner[i - inner.len() - d.len()]));
        }
    }
    trimming_keeps_the_inside(inner, d, inner);
    numbers_are_read_back(n, u32::MAX as nat);
    let line = front + seq!['['] + inner + dec(n) + inner + seq![']'] + gap + label + end;
    let tail = gap + label + end;
    assert(line =~= head + tail);
    assert forall|k: int| open < k < line.len() implies line[k] != '[' by {
        if k < head.len() {
            assert(line[k] == head[k]);
        } else {
            let i = k - head.len();
            assert(line[k] == tail[i]);
            if i < gap.len() {
                assert(is_white(gap[i]));
            } else if i < gap.len() + label.len() {
                assert(label.contains(label[i - gap.len()]));
            } else {
                assert(is_white(end[i - gap.len() - label.len()]));
            }
        }
    }
    assert(line[open] == '[' && line[close] == ']');
    lemma_last_index_is(line, '[', line.len() as int, open);
    assert forall|k: int| open <= k < close implies line[k] != ']' by {
        assert(line[k] == head[k]);
    }
    lemma_index_from_is(line, ']', open, close);
    assert(line.subrange(open + 1, close) =~= number);
    assert(line.skip(close + 1) =~= tail);
    trimming_keeps_the_inside(gap, label, end);
    let bare = front + seq!['['] + inner + dec(n) + inner + seq![']'] + gap;
    assert(bare =~= head + gap);
    assert forall|k: int| open < k < bare.len() implies bare[k] != '[' by {
        if k < head.len() {
            assert(bare[k] == head[k]);
        } else {
            assert(bare[k] == gap[k - head.len()]);
            assert(is_white(gap[k - head.len()]));
        }
    }
    assert(bare[open] == '[' && bare[close] == ']');
    lemma_last_index_is(bare, '[', bare.len() as int, open);
    assert forall|k: int| open <= k < close implies bare[k] != ']' by {
        assert(bare[k] == head[k]);
    }
    lemma_index_from_is(bare, ']', open, close);
    let none = Seq::<char>::empty();
    trimming_keeps_the_inside(gap, none, none);
    assert(gap + none + none =~= gap);
    assert(bare.skip(close + 1) =~= gap);
}

/// A heading opens its section wherever in the line it stands.
pub proof fn headings_open_their_sections(front: Seq<char>, rest: Seq<char>, line: Seq<char>)
    ensures
        heading(front + "AVFoundation video devices:"@ + rest) == Section::Video,
        has(line, "AVFoundation audio devices:"@) && !(has(line, "AVFoundation video devices:"@)) ==> heading(line)
            == Section::Audio,
        !(has(line, "AVFoundation audio devices:"@)) && !(has(line, "AVFoundation video devices:"@)) ==> heading(
            line,
        ) == Section::Preamble,
{
    let word = "AVFoundation video devices:"@;
    let all = front + word + rest;
    let j = front.len() as int;
    assert(all.subrange(j, j + word.len()) =~= word);
    assert(occurs(all, word, j));
    lemma_match_from(all, word, 0);
}

proof fn lemma_section(lines: Seq<Seq<char>>, h: int, n: int)
    requires
        0 <= h < n <= lines.len(),
        heading(lines[h]) != Section::Preamble,
        forall|k: int| h < k < n ==> heading(#[trigger] lines[k]) == Section::Preamble,
    ensures
        section_at(lines, n) == heading(lines[h]),
    decreases n,
{
    if h < n - 1 {
        assert(heading(lines[n - 1]) == Section::Preamble);
        lemma_section(lines, h, n - 1);
    }
}

proof fn lemma_preamble(lines: Seq<Seq<char>>, n: int)
    requires
        0 <= n <= lines.len(),
        forall|k: int| 0 <= k < n ==> heading(#[trigger] lines[k]) == Section::Preamble,
    ensures
        section_at(lines, n) == Section::Preamble,
    decreases n,
{
    if n > 0 {
        assert(heading(lines[n - 1]) == Section::Preamble);
        lemma_preamble(lines, n - 1);
    }
}

/// A device belongs to the section whose heading is the last above it. A heading
/// is no device, and neither is anything above the first heading.
pub proof fn a_device_belongs_to_the_heading_above_it(lines: Seq<Seq<char>>, h: int, n: int, s: Section)
    requires
        0 <= n < lines.len(),
        s != Section::Preamble,
    ensures
        heading(lines[n]) != Section::Preamble ==> listed(lines, n, s) is None,
        0 <= h < n && heading(lines[h]) != Section::Preamble && (forall|k: int|
            h < k <= n ==> heading(#[trigger] lines[k]) == Section::Preamble) ==> listed(lines, n, s) == (
        if heading(lines[h]) == s {
            device_of(lines[n])
        } else {
            None
        }),
        (forall|k: int| 0 <= k <= n ==> heading(#[trigger] lines[k]) == Section::Preamble) ==> listed(lines, n, s)
            is None,
{
    if 0 <= h < n && heading(lines[h]) != Section::Preamble && (forall|k: int|
        h < k <= n ==> heading(#[trigger] lines[k]) == Section::Preamble) {
        lemma_section(lines, h, n);
    }
    if forall|k: int| 0 <= k <= n ==> heading(#[trigger] lines[k]) == Section::Preamble {
        lemma_preamble(lines, n);
    }
}

/// Whether line `i` lists a screen: a video device whose name says so. Cameras are
/// video devices too.
pub open spec fn lists_screen(lines: Seq<Seq<char>>, i: int) -> bool {
    match listed(lines, i, Section::Video) {
        Some(d) => begins(d.1, "Capture screen"@),
        None => false,
    }
}

/// The lines that list screens.
pub open spec fn screen_lines(lines: Seq<Seq<char>>) -> spec_fn(int) -> bool {
    |i: int| lists_screen(lines, i)
}

/// The lines that list audio inputs.
pub open spec fn audio_lines(lines: Seq<Seq<char>>) -> spec_fn(int) -> bool {
    |i: int| listed(lines, i, Section::Audio) is Some
}

/// `p` lists the lines up to `n` for which `wanted` holds, from the first to the
/// last.
pub open spec fn picks(n: int, wanted: spec_fn(int) -> bool, p: Seq<int>) -> bool {
    &&& forall|a: int, b: int| 0 <= a < b < p.len() ==> p[a] < p[b]
    &&& forall|a: int| 0 <= a < p.len() ==> 0 <= #[trigger] p[a] < n && wanted(p[a])
    &&& forall|i: int| 0 <= i < n && #[trigger] wanted(i) ==> p.contains(i)
}

proof fn lemma_picks_more(n: int, wanted: spec_fn(int) -> bool, before: Seq<int>)
    requires
        n > 0,
        picks(n - 1, wanted, before),
    ensures
        wanted(n - 1) ==> picks(n, wanted, before.push(n - 1)),
        !wanted(n - 1) ==> picks(n, wanted, before),
{
    if wanted(n - 1) {
        let p = before.push(n - 1);
        assert forall|i: int| 0 <= i < n && #[trigger] wanted(i) implies p.contains(i) by {
            if i < n - 1 {
                let a = choose|a: int| 0 <= a < before.len() && before[a] == i;
                assert(p[a] == i);
            } else {
                assert(p[p.len() - 1] == i);
            }
        }
    }
}

proof fn lemma_screens(lines: Seq<Seq<char>>, n: int) -> (p: Seq<int>)
    requires
        0 <= n,
    ensures
        picks(n, screen_lines(lines), p),
        screens_upto(lines, n) == p.map_values(|i: int| listed(lines, i, Section::Video)->0),
    decreases n,
{
    let wanted = screen_lines(lines);
    if n == 0 {
        let p = Seq::<int>::empty();
        assert(screens_upto(lines, n) =~= p.map_values(|i: int| listed(lines, i, Section::Video)->0));
        p
    } else {
        let before = lemma_screens(lines, n - 1);
        lemma_picks_more(n, wanted, before);
        let p = if wanted(n - 1) {
            before.push(n - 1)
        } else {
            before
        };
        assert(screens_upto(lines, n) =~= p.map_values(|i: int| listed(lines, i, Section::Video)->0));
        p
    }
}

proof fn lemma_audio(lines: Seq<Seq<char>>, n: int) -> (p: Seq<int>)
    requires
        0 <= n,
    ensures
        picks(n, audio_lines(lines), p),
        audio_upto(lines, n) == p.map_values(|i: int| audio_entry(listed(lines, i, Section::Audio)->0)),
    decreases n,
{
    let wanted = audio_lines(lines);
    if n == 0 {
        let p = Seq::<int>::empty();
        assert(audio_upto(lines, n) =~= p.map_values(|i: int| audio_entry(listed(lines, i, Section::Audio)->0)));
        p
    } else {
        let before = lemma_audio(lines, n - 1);
        lemma_picks_more(n, wanted, before);
        let p = if wanted(n - 1) {
            before.push(n - 1)
        } else {
            before
        };
        assert(audio_upto(lines, n) =~= p.map_values(|i: int| audio_entry(listed(lines, i, Section::Audio)->0)));
        p
    }
}

/// An audio input is addressed by its number, which stands for it in the
/// arguments.
pub open spec fn audio_entry(device: (u32, Seq<char>)) -> (Seq<char>, Seq<char>) {
    (dec(device.0 as nat), device.1)
}

/// The screens and the audio inputs of a listing are all that it lists as such,
/// each once and in the order of the listing.
pub proof fn every_device_is_found(listing: Seq<char>)
    ensures
        exists|p: Seq<int>|
            #[trigger] picks(lines_of(listing).len() as int, screen_lines(lines_of(listing)), p)
                && MacOs.screens_in(listing) == p.map_values(
                |i: int| listed(lines_of(listing), i, Section::Video)->0,
            ),
        exists|p: Seq<int>|
            #[trigger] picks(
                lines_of(listing).len() as int,
                audio_lines(lines_of(listing)),
                p,
            ) && MacOs.audio_in(listing) == p.map_values(
                |i: int| audio_entry(listed(lines_of(listing), i, Section::Audio)->0),
            ),
{
    let lines = lines_of(listing);
    let p = lemma_screens(lines, lines.len() as int);
    let q = lemma_audio(lines, lines.len() as int);
    assert(picks(lines.len() as int, screen_lines(lines), p));
    assert(picks(lines.len() as int, audio_lines(lines), q));
}

/// A device listing is asked of the platform's own input, which is told to list
/// and given nothing to record.
pub proof fn devices_are_asked_for()
    ensures
        ({
            let args = MacOs.listing_args();
            exists|k: int| 0 <= k && k + 1 < args.len() && #[trigger] args[k] == "-list_devices"@ && args[k + 1] == "true"@
        }),
        ({
            let args = MacOs.listing_args();
            exists|k: int| 0 <= k && k + 1 < args.len() && #[trigger] args[k] == "-f"@ && args[k + 1] == "avfoundation"@
        }),
        ({
            let args = MacOs.listing_args();
            args.len() >= 2 && args[args.len() - 2] == "-i"@
        }),
{
    let args = MacOs.listing_args();
    assert(args[1] == "-f"@);
    assert(args[3] == "-list_devices"@);
}

} // verus!
