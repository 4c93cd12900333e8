//! Capture backends.
//!
//! Everything that differs per platform (which source grabs the screen, which
//! encoders exist, how audio devices are identified) lives behind
//! `CaptureBackend`. The backends only build argument lists and read listings,
//! so both can be used on any platform.

pub mod laws;
pub mod macos;
pub mod windows;
pub mod windows_laws;

use crate::numbers::{dec, dec_string};
use crate::pieces::push_all;
use crate::recorder::{ConfigView, RecordingConfig, Region};
use crate::text::{slices, strs};
use macos::MacOs;
use vstd::prelude::*;
use vstd::string::*;
use windows::Windows;

verus! {

/// A capturable screen, with its backend-native identifier: a ddagrab
/// `output_idx` on Windows, an AVFoundation device index on macOS.
#[derive(Debug, PartialEq, Eq)]
pub struct ScreenDevice {
    pub id: u32,
    pub label: String,
}

/// An audio input. `id` is an opaque backend token (a DirectShow device name on
/// Windows, an AVFoundation index on macOS); `label` is what the user sees.
#[derive(Debug, PartialEq, Eq)]
pub struct AudioDevice {
    pub id: String,
    pub label: String,
}

/// The identifier and label of each screen.
pub open spec fn screen_views(v: Seq<ScreenDevice>) -> Seq<(u32, Seq<char>)> {
    Seq::new(v.len(), |i: int| (v[i].id, v[i].label@))
}

/// The identifier and label of each audio input.
pub open spec fn audio_views(v: Seq<AudioDevice>) -> Seq<(Seq<char>, Seq<char>)> {
    Seq::new(v.len(), |i: int| (v[i].id@, v[i].label@))
}

/// What to capture: a backend-native screen id, optionally cropped to a region.
#[derive(Clone, Copy, Debug)]
pub struct CaptureTarget {
    pub screen_id: u32,
    pub region: Option<Region>,
}

/// A program and its arguments.
#[derive(Debug, PartialEq, Eq)]
pub struct ProgramCall {
    pub program: String,
    pub args: Vec<String>,
}

pub trait CaptureBackend {
    /// The screens that a device listing names.
    spec fn screens_in(&self, listing: Seq<char>) -> Seq<(u32, Seq<char>)>;

    /// The audio inputs that a device listing names.
    spec fn audio_in(&self, listing: Seq<char>) -> Seq<(Seq<char>, Seq<char>)>;

    /// The arguments of the device listing.
    spec fn listing_args(&self) -> Seq<Seq<char>>;

    /// The program that grabs one frame.
    spec fn still_program(&self, ff: Seq<char>) -> Seq<char>;

    /// The arguments with which it does.
    spec fn still_args(&self, display_index: nat, out: Seq<char>) -> Seq<Seq<char>>;

    /// The arguments of one recording segment.
    spec fn segment_args_of(
        &self,
        cfg: ConfigView,
        target: CaptureTarget,
        encoder: Seq<char>,
        out: Seq<char>,
    ) -> Seq<Seq<char>>;

    /// The hardware encoders.
    spec fn encoders(&self) -> Seq<Seq<char>>;

    /// The filenames of ffmpeg.
    spec fn filenames(&self) -> Seq<Seq<char>>;

    /// The backend's identifier.
    spec fn label(&self) -> Seq<char>;

    /// The text of the missing-ffmpeg hint.
    spec fn ffmpeg_hint_text(&self) -> Seq<char>;

    /// The text of the no-frames hint.
    spec fn stall_hint_text(&self) -> Seq<char>;

    /// Short identifier for logs and the UI.
    fn name(&self) -> (r: &'static str)
        ensures
            r@ == self.label(),
    ;

    /// Hardware encoders in auto-pick priority order. The software fallback
    /// libx264 never appears here.
    fn hw_encoders(&self) -> (r: &'static [&'static str])
        ensures
            slices(r@) == self.encoders(),
            !self.encoders().contains("libx264"@),
    ;

    /// Filenames to look for when hunting a bundled ffmpeg next to the exe.
    fn ffmpeg_filenames(&self) -> (r: &'static [&'static str])
        ensures
            slices(r@) == self.filenames(),
    ;

    /// Shown when ffmpeg can't be found anywhere.
    fn ffmpeg_hint(&self) -> (r: &'static str)
        ensures
            r@ == self.ffmpeg_hint_text(),
    ;

    /// Shown when ffmpeg started, didn't fail, and captured no frames anyway.
    /// That means the OS refused to hand over the screen, silently.
    fn stall_hint(&self) -> (r: &'static str)
        ensures
            r@ == self.stall_hint_text(),
    ;

    /// Arguments with which ffmpeg lists its devices on its error stream.
    fn list_devices_args(&self) -> (r: Vec<String>)
        ensures
            strs(r@) == self.listing_args(),
    ;

    /// The capturable screens in a device listing. An empty list means "this
    /// backend can't enumerate: fall back to the windowing system's list".
    fn screens(&self, listing: &str) -> (r: Vec<ScreenDevice>)
        ensures
            screen_views(r@) == self.screens_in(listing@),
    ;

    /// The audio inputs in a device listing.
    fn audio_devices(&self, listing: &str) -> (r: Vec<AudioDevice>)
        ensures
            audio_views(r@) == self.audio_in(listing@),
    ;

    /// Command that grabs one full-screen frame of `display_index` to `out` as
    /// PNG. `display_index` is a 0-based position in the UI's monitor list, not
    /// a `ScreenDevice::id`. An empty program means that the command needs an
    /// ffmpeg that is not there.
    fn still_command(&self, ff: &str, display_index: usize, out: &str) -> (r: ProgramCall)
        requires
            display_index < usize::MAX,
        ensures
            r.program@ == self.still_program(ff@),
            strs(r.args@) == self.still_args(display_index as nat, out@),
    ;

    /// The full ffmpeg argument list for one recording segment. `encoder` is
    /// already resolved, never "auto".
    fn segment_args(
        &self,
        cfg: &RecordingConfig,
        target: &CaptureTarget,
        encoder: &str,
        out: &str,
    ) -> (r: Vec<String>)
        ensures
            strs(r@) == self.segment_args_of(cfg@, *target, encoder@, out@),
    ;
}

// ---------------------------------------------------------------------------
// Shared helpers

/// The largest even number up to `n`, and at least 2.
pub open spec fn evened(n: int) -> int {
    if n < 2 {
        2
    } else {
        n - n % 2
    }
}

/// `n`, or 0 where it is negative.
pub open spec fn not_negative(n: int) -> int {
    if n < 0 {
        0
    } else {
        n
    }
}

/// H.264 4:2:0 needs even dimensions; overlay coordinates arrive in physical
/// pixels and may be odd. Also clamps negative offsets to 0.
pub fn sanitize_region(x: i32, y: i32, w: u32, h: u32) -> (r: (u32, u32, u32, u32))
    ensures
        r.0 == not_negative(x as int),
        r.1 == not_negative(y as int),
        r.2 == evened(w as int),
        r.3 == evened(h as int),
{
    let x: u32 = if x < 0 {
        0
    } else {
        x as u32
    };
    let y: u32 = if y < 0 {
        0
    } else {
        y as u32
    };
    let w: u32 = if w < 2 {
        2
    } else {
        w - w % 2
    };
    let h: u32 = if h < 2 {
        2
    } else {
        h - h % 2
    };
    (x, y, w, h)
}

/// A sanitized region stays as it is when it is sanitized again, its sides are
/// even, and neither is smaller than 2.
pub proof fn sanitizing_is_stable(n: int)
    ensures
        evened(n) % 2 == 0,
        evened(n) >= 2,
        n >= 2 ==> evened(n) <= n < evened(n) + 2,
        evened(evened(n)) == evened(n),
        not_negative(not_negative(n)) == not_negative(n) >= 0,
{
}

/// The frame rate that is asked of ffmpeg.
pub open spec fn capped_fps(fps: u32) -> u32 {
    if fps < 1 {
        1
    } else if fps > 120 {
        120
    } else {
        fps
    }
}

pub fn cap_fps(fps: u32) -> (r: u32)
    ensures
        r == capped_fps(fps),
{
    if fps < 1 {
        1
    } else if fps > 120 {
        120
    } else {
        fps
    }
}

pub open spec fn base_args_spec() -> Seq<Seq<char>> {
    seq!["-hide_banner"@, "-loglevel"@, "warning"@, "-progress"@, "pipe:1"@, "-y"@]
}

/// Common prefix for every segment invocation.
///
/// `-progress pipe:1` makes ffmpeg emit newline-separated `key=value` blocks on
/// stdout. The frame count in it is the recorder's proof of life.
pub fn base_args() -> (r: Vec<String>)
    ensures
        strs(r@) == base_args_spec(),
{
    let mut a: Vec<String> = Vec::new();
    push_all(&mut a, &["-hide_banner", "-loglevel", "warning", "-progress", "pipe:1", "-y"]);
    assert(strs(a@) =~= base_args_spec());
    a
}

// ---------------------------------------------------------------------------
// Argument groups that the backends share

/// ffmpeg's crop is w:h:x:y, not x:y:w:h.
pub open spec fn crop_filter(w: u32, h: u32, x: u32, y: u32) -> Seq<char> {
    "crop="@ + dec(w as nat) + ":"@ + dec(h as nat) + ":"@ + dec(x as nat) + ":"@ + dec(y as nat)
}

pub fn crop_filter_string(w: u32, h: u32, x: u32, y: u32) -> (r: String)
    ensures
        r@ == crop_filter(w, h, x, y),
{
    let mut s = "crop=".to_owned();
    s.append(dec_string(w as u64).as_str());
    s.append(":");
    s.append(dec_string(h as u64).as_str());
    s.append(":");
    s.append(dec_string(x as u64).as_str());
    s.append(":");
    s.append(dec_string(y as u64).as_str());
    s
}

pub open spec fn stream_map(mic: bool) -> Seq<Seq<char>> {
    if mic {
        seq!["-map"@, "0:v"@, "-map"@, "1:a"@]
    } else {
        seq!["-map"@, "0:v"@]
    }
}

pub open spec fn software_encoder() -> Seq<Seq<char>> {
    seq!["-c:v"@, "libx264"@, "-preset"@, "veryfast"@, "-crf"@, "23"@, "-pix_fmt"@, "yuv420p"@]
}

pub open spec fn audio_encoder(mic: bool) -> Seq<Seq<char>> {
    if mic {
        seq!["-c:a"@, "aac"@, "-b:a"@, "160k"@]
    } else {
        Seq::empty()
    }
}

// ---------------------------------------------------------------------------
// Selection

/// The platforms that have a backend.
#[derive(Clone, Copy, PartialEq, Eq, Structural, Debug)]
pub enum Platform {
    MacOs,
    Windows,
}

/// One of the backends.
pub enum Backend {
    MacOs(MacOs),
    Windows(Windows),
}

/// The backend of a platform.
pub fn active(platform: Platform) -> (r: Backend)
    ensures
        match platform {
            Platform::MacOs => r is MacOs,
            Platform::Windows => r is Windows,
        },
{
    match platform {
        Platform::MacOs => Backend::MacOs(MacOs),
        Platform::Windows => Backend::Windows(Windows),
    }
}

impl CaptureBackend for Backend {
    open spec fn screens_in(&self, listing: Seq<char>) -> Seq<(u32, Seq<char>)> {
        match self {
            Backend::MacOs(b) => b.screens_in(listing),
            Backend::Windows(b) => b.screens_in(listing),
        }
    }

    open spec fn audio_in(&self, listing: Seq<char>) -> Seq<(Seq<char>, Seq<char>)> {
        match self {
            Backend::MacOs(b) => b.audio_in(listing),
            Backend::Windows(b) => b.audio_in(listing),
        }
    }

    open spec fn listing_args(&self) -> Seq<Seq<char>> {
        match self {
            Backend::MacOs(b) => b.listing_args(),
            Backend::Windows(b) => b.listing_args(),
        }
    }

    open spec fn still_program(&self, ff: Seq<char>) -> Seq<char> {
        match self {
            Backend::MacOs(b) => b.still_program(ff),
            Backend::Windows(b) => b.still_program(ff),
        }
    }

    open spec fn still_args(&self, display_index: nat, out: Seq<char>) -> Seq<Seq<char>> {
        match self {
            Backend::MacOs(b) => b.still_args(display_index, out),
            Backend::Windows(b) => b.still_args(display_index, out),
        }
    }

    open spec fn segment_args_of(&self, cfg: ConfigView, target: CaptureTarget, encoder: Seq<char>, out: Seq<char>) -> Seq<Seq<char>> {
        match self {
            Backend::MacOs(b) => b.segment_args_of(cfg, target, encoder, out),
            Backend::Windows(b) => b.segment_args_of(cfg, target, encoder, out),
        }
    }

    open spec fn encoders(&self) -> Seq<Seq<char>> {
        match self {
            Backend::MacOs(b) => b.encoders(),
            Backend::Windows(b) => b.encoders(),
        }
    }

    open spec fn filenames(&self) -> Seq<Seq<char>> {
        match self {
            Backend::MacOs(b) => b.filenames(),
            Backend::Windows(b) => b.filenames(),
        }
    }

    open spec fn label(&self) -> Seq<char> {
        match self {
            Backend::MacOs(b) => b.label(),
            Backend::Windows(b) => b.label(),
        }
    }

    open spec fn ffmpeg_hint_text(&self) -> Seq<char> {
        match self {
            Backend::MacOs(b) => b.ffmpeg_hint_text(),
            Backend::Windows(b) => b.ffmpeg_hint_text(),
        }
    }

    open spec fn stall_hint_text(&self) -> Seq<char> {
        match self {
            Backend::MacOs(b) => b.stall_hint_text(),
            Backend::Windows(b) => b.stall_hint_text(),
        }
    }

    fn name(&self) -> (r: &'static str) {
        match self {
            Backend::MacOs(b) => b.name(),
            Backend::Windows(b) => b.name(),
        }
    }

    fn hw_encoders(&self) -> (r: &'static [&'static str]) {
        match self {
            Backend::MacOs(b) => b.hw_encoders(),
            Backend::Windows(b) => b.hw_encoders(),
        }
    }

    fn ffmpeg_filenames(&self) -> (r: &'static [&'static str]) {
        match self {
            Backend::MacOs(b) => b.ffmpeg_filenames(),
            Backend::Windows(b) => b.ffmpeg_filenames(),
        }
    }

    fn ffmpeg_hint(&self) -> (r: &'static str) {
        match self {
            Backend::MacOs(b) => b.ffmpeg_hint(),
            Backend::Windows(b) => b.ffmpeg_hint(),
        }
    }

    fn stall_hint(&self) -> (r: &'static str) {
        match self {
            Backend::MacOs(b) => b.stall_hint(),
            Backend::Windows(b) => b.stall_hint(),
        }
    }

    fn list_devices_args(&self) -> (r: Vec<String>) {
        match self {
            Backend::MacOs(b) => b.list_devices_args(),
            Backend::Windows(b) => b.list_devices_args(),
        }
    }

    fn screens(&self, listing: &str) -> (r: Vec<ScreenDevice>) {
        match self {
            Backend::MacOs(b) => b.screens(listing),
            Backend::Windows(b) => b.screens(listing),
        }
    }

    fn audio_devices(&self, listing: &str) -> (r: Vec<AudioDevice>) {
        match self {
            Backend::MacOs(b) => b.audio_devices(listing),
            Backend::Windows(b) => b.audio_devices(listing),
        }
    }

    fn still_command(&self, ff: &str, display_index: usize, out: &str) -> (r: ProgramCall) {
        match self {
            Backend::MacOs(b) => b.still_command(ff, display_index, out),
            Backend::Windows(b) => b.still_command(ff, display_index, out),
        }
    }

    fn segment_args(&self, cfg: &RecordingConfig, target: &CaptureTarget, encoder: &str, out: &str) -> (r: Vec<String>) {
        match self {
            Backend::MacOs(b) => b.segment_args(cfg, target, encoder, out),
            Backend::Windows(b) => b.segment_args(cfg, target, encoder, out),
        }
    }
}

} // verus!
