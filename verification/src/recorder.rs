//! Recording state machine.
//!
//!   Idle -> Countdown -> Recording <-> Paused -> Finalizing -> Idle
//!
//! Pause is "stop this segment, start a fresh one on resume"; all segments are
//! joined on stop. The machine holds the child process as a number; whoever
//! runs the processes keeps the table.

use crate::capture::{sanitize_region, evened, not_negative, screen_views, Backend, CaptureBackend, CaptureTarget, Platform, ScreenDevice};
use crate::ffmpeg::{concat_line, concat_list_line};
use crate::numbers::{dec, padded_string, zero_padded};
use crate::paths::{paths_equal, same_path};
use crate::text::{opt_str, same, slices, strs};
use vstd::prelude::*;
use vstd::string::*;

verus! {

// ---------------------------------------------------------------------------
// Types

#[derive(Debug)]
pub struct RecordingConfig {
    /// "fullscreen" or "region".
    pub mode: String,
    pub monitor_index: usize,
    pub fps: u32,
    /// "auto" or the name of an encoder.
    pub encoder: String,
    pub capture_cursor: bool,
    pub mic_enabled: bool,
    pub mic_device: Option<String>,
    pub output_dir: String,
}

/// A configuration, with its texts as character sequences.
#[verifier::ext_equal]
pub struct ConfigView {
    pub mode: Seq<char>,
    pub monitor_index: usize,
    pub fps: u32,
    pub encoder: Seq<char>,
    pub capture_cursor: bool,
    pub mic_enabled: bool,
    pub mic_device: Option<Seq<char>>,
    pub output_dir: Seq<char>,
}

impl View for RecordingConfig {
    type V = ConfigView;

    open spec fn view(&self) -> ConfigView {
        ConfigView {
            mode: self.mode@,
            monitor_index: self.monitor_index,
            fps: self.fps,
            encoder: self.encoder@,
            capture_cursor: self.capture_cursor,
            mic_enabled: self.mic_enabled,
            mic_device: opt_str(self.mic_device),
            output_dir: self.output_dir@,
        }
    }
}

impl ConfigView {
    /// The microphone to record: the chosen device, if the microphone is on
    /// and a device is chosen.
    pub open spec fn mic(&self) -> Option<Seq<char>> {
        match self.mic_device {
            Some(d) if self.mic_enabled && d.len() > 0 => Some(d),
            _ => None,
        }
    }
}

impl Clone for RecordingConfig {
    fn clone(&self) -> (r: Self)
        ensures
            r == *self,
    {
        RecordingConfig {
            mode: self.mode.clone(),
            monitor_index: self.monitor_index,
            fps: self.fps,
            encoder: self.encoder.clone(),
            capture_cursor: self.capture_cursor,
            mic_enabled: self.mic_enabled,
            mic_device: self.mic_device.clone(),
            output_dir: self.output_dir.clone(),
        }
    }
}

pub open spec fn default_config() -> ConfigView {
    ConfigView {
        mode: "fullscreen"@,
        monitor_index: 0,
        fps: 30,
        encoder: "auto"@,
        capture_cursor: true,
        mic_enabled: false,
        mic_device: None,
        output_dir: Seq::empty(),
    }
}

impl Default for RecordingConfig {
    fn default() -> (r: Self)
        ensures
            r@ == default_config(),
    {
        RecordingConfig {
            mode: "fullscreen".to_owned(),
            monitor_index: 0,
            fps: 30,
            encoder: "auto".to_owned(),
            capture_cursor: true,
            mic_enabled: false,
            mic_device: None,
            output_dir: String::new(),
        }
    }
}

impl RecordingConfig {
    /// The microphone to record.
    pub fn mic_name(&self) -> (r: Option<&str>)
        ensures
            match r {
                Some(d) => self@.mic() == Some(d@),
                None => self@.mic() is None,
            },
    {
        match &self.mic_device {
            Some(d) => if self.mic_enabled && !d.as_str().is_empty() {
                Some(d.as_str())
            } else {
                None
            },
            None => None,
        }
    }
}

/// What the region overlay reports (physical pixels, monitor-relative).
#[derive(Clone, Copy, Debug)]
pub struct RegionSel {
    pub x: i32,
    pub y: i32,
    pub width: u32,
    pub height: u32,
}

#[derive(Clone, Copy, PartialEq, Eq, Structural, Debug)]
pub struct Region {
    pub monitor_index: usize,
    pub x: u32,
    pub y: u32,
    pub width: u32,
    pub height: u32,
}

#[derive(Clone, Copy, PartialEq, Eq, Structural, Debug)]
pub enum Status {
    Idle,
    Countdown,
    Recording,
    Paused,
    Finalizing,
}

impl Status {
    pub open spec fn text(self) -> Seq<char> {
        match self {
            Status::Idle => "idle"@,
            Status::Countdown => "countdown"@,
            Status::Recording => "recording"@,
            Status::Paused => "paused"@,
            Status::Finalizing => "finalizing"@,
        }
    }

    pub fn as_str(&self) -> (r: &'static str)
        ensures
            r@ == self.text(),
    {
        match self {
            Status::Idle => "idle",
            Status::Countdown => "countdown",
            Status::Recording => "recording",
            Status::Paused => "paused",
            Status::Finalizing => "finalizing",
        }
    }
}

pub struct Recorder {
    pub status: Status,
    pub config: RecordingConfig,
    pub region: Option<Region>,
    /// Which monitor the currently-open overlay covers.
    pub pending_overlay_monitor: usize,
    pub ffmpeg_path: Option<String>,
    /// Encoders that passed the runtime probe at startup.
    pub encoders: Vec<String>,
    /// Screens as the capture backend enumerates them. Index is the UI's
    /// monitor index; `.id` is the backend-native identifier. Empty when the
    /// backend can't enumerate, where the two coincide.
    pub screens: Vec<ScreenDevice>,
    /// The running ffmpeg, by its number in the table of processes.
    pub child: Option<u64>,
    pub segments: Vec<String>,
    pub session_dir: Option<String>,
    /// Bumped on every start/cancel so stale countdown threads can bail.
    pub session_id: u64,
    /// Whose rules the paths follow.
    pub platform: Platform,
}

/// A recorder, with its texts as character sequences.
#[verifier::ext_equal]
pub struct RecorderView {
    pub status: Status,
    pub config: ConfigView,
    pub region: Option<Region>,
    pub pending_overlay_monitor: usize,
    pub ffmpeg_path: Option<Seq<char>>,
    pub encoders: Seq<Seq<char>>,
    pub screens: Seq<(u32, Seq<char>)>,
    pub child: Option<u64>,
    pub segments: Seq<Seq<char>>,
    pub session_dir: Option<Seq<char>>,
    pub session_id: u64,
    pub platform: Platform,
}

impl View for Recorder {
    type V = RecorderView;

    open spec fn view(&self) -> RecorderView {
        RecorderView {
            status: self.status,
            config: self.config@,
            region: self.region,
            pending_overlay_monitor: self.pending_overlay_monitor,
            ffmpeg_path: opt_str(self.ffmpeg_path),
            encoders: strs(self.encoders@),
            screens: screen_views(self.screens@),
            child: self.child,
            segments: strs(self.segments@),
            session_dir: opt_str(self.session_dir),
            session_id: self.session_id,
            platform: self.platform,
        }
    }
}

// ---------------------------------------------------------------------------
// The machine

impl RecorderView {
    /// A recorder that has done nothing yet.
    pub open spec fn fresh() -> RecorderView {
        RecorderView {
            status: Status::Idle,
            config: default_config(),
            region: None,
            pending_overlay_monitor: 0,
            ffmpeg_path: None,
            encoders: seq!["libx264"@],
            screens: Seq::empty(),
            child: None,
            segments: Seq::empty(),
            session_dir: None,
            session_id: 0,
            platform: Platform::MacOs,
        }
    }

    /// A region belongs to the display it was drawn on: it is kept only by a
    /// configuration that records a region of that display.
    pub open spec fn with_config(self, cfg: ConfigView) -> RecorderView {
        let keep = cfg.mode == "region"@ && self.region is Some && self.region->0.monitor_index
            == cfg.monitor_index;
        RecorderView {
            region: if keep {
                self.region
            } else {
                None
            },
            config: cfg,
            ..self
        }
    }

    /// The region that a capture is cropped to.
    pub open spec fn target_region(self) -> Option<Region> {
        if self.config.mode == "region"@ {
            self.region
        } else {
            None
        }
    }

    /// The monitor that is captured. A region belongs to the display it was
    /// drawn on.
    pub open spec fn target_monitor(self) -> usize {
        match self.target_region() {
            Some(r) => r.monitor_index,
            None => self.config.monitor_index,
        }
    }

    /// What the overlay selected becomes the region to record.
    pub open spec fn with_selection(self, sel: RegionSel) -> RecorderView {
        RecorderView {
            region: Some(
                Region {
                    monitor_index: self.pending_overlay_monitor,
                    x: not_negative(sel.x as int) as u32,
                    y: not_negative(sel.y as int) as u32,
                    width: evened(sel.width as int) as u32,
                    height: evened(sel.height as int) as u32,
                },
            ),
            config: ConfigView { mode: "region"@, ..self.config },
            ..self
        }
    }

    /// Why a recording cannot start, the first reason first.
    pub open spec fn start_refusal(self, ffmpeg_hint: Seq<char>) -> Option<Seq<char>> {
        if self.status != Status::Idle {
            Some("Already recording."@)
        } else if self.ffmpeg_path is None {
            Some(ffmpeg_hint)
        } else if self.config.mode == "region"@ && self.region is None {
            Some("Select a region first."@)
        } else if self.config.output_dir.len() == 0 {
            Some("Choose an output folder first."@)
        } else {
            None
        }
    }

    /// A new session counts down.
    pub open spec fn begun(self, dir: Seq<char>) -> RecorderView {
        RecorderView {
            session_dir: Some(dir),
            segments: Seq::empty(),
            session_id: (self.session_id + 1) as u64,
            status: Status::Countdown,
            ..self
        }
    }

    /// Whether session `id` still counts down.
    pub open spec fn counting(self, id: u64) -> bool {
        self.session_id == id && self.status == Status::Countdown
    }

    /// Why session `id` cannot have another segment.
    pub open spec fn segment_refusal(self, id: u64) -> Option<Seq<char>> {
        if self.session_id != id {
            Some("session was cancelled"@)
        } else if self.ffmpeg_path is None {
            Some("ffmpeg not found"@)
        } else if self.session_dir is None {
            Some("no active session"@)
        } else {
            None
        }
    }

    /// A segment has been started.
    pub open spec fn with_segment(self, child: u64, path: Seq<char>) -> RecorderView {
        RecorderView { child: Some(child), segments: self.segments.push(path), ..self }
    }

    /// Frames are being recorded.
    pub open spec fn recording(self) -> RecorderView {
        RecorderView { status: Status::Recording, ..self }
    }

    /// The segment has been handed out to be stopped.
    pub open spec fn paused(self) -> RecorderView {
        RecorderView { status: Status::Paused, child: None, ..self }
    }

    /// Whether an abort of session `id` is allowed: only of the live session,
    /// only while it counts down or records, and, where the abort is about one
    /// segment, only while that is the last one.
    pub open spec fn may_fail(self, id: u64, expect_last: Option<Seq<char>>) -> bool {
        &&& self.session_id == id
        &&& self.status == Status::Countdown || self.status == Status::Recording
        &&& match expect_last {
            Some(p) => self.segments.len() > 0 && same_path(self.platform, self.segments.last(), p),
            None => true,
        }
    }

    /// The session has been aborted.
    pub open spec fn failed(self) -> RecorderView {
        RecorderView {
            status: Status::Idle,
            session_id: (self.session_id + 1) as u64,
            segments: Seq::empty(),
            child: None,
            session_dir: None,
            ..self
        }
    }

    /// The recorder after a stop, where there is something to stop.
    pub open spec fn stopped(self) -> Option<RecorderView> {
        match self.status {
            Status::Countdown => Some(
                RecorderView {
                    session_id: (self.session_id + 1) as u64,
                    status: Status::Idle,
                    session_dir: None,
                    ..self
                },
            ),
            Status::Recording => Some(
                RecorderView { status: Status::Finalizing, child: None, ..self },
            ),
            Status::Paused => Some(RecorderView { status: Status::Finalizing, ..self }),
            _ => None,
        }
    }

    /// The session's files have been dealt with.
    pub open spec fn finalized(self) -> RecorderView {
        RecorderView {
            status: Status::Idle,
            child: None,
            segments: Seq::empty(),
            session_dir: None,
            ..self
        }
    }

    /// The application quits.
    pub open spec fn shut_down(self) -> RecorderView {
        RecorderView {
            status: Status::Idle,
            session_id: (self.session_id + 1) as u64,
            child: None,
            ..self
        }
    }

    /// Whether the disk still has to be watched for session `id`.
    pub open spec fn being_written(self, id: u64) -> bool {
        self.session_id == id && (self.status == Status::Recording || self.status == Status::Paused)
    }
}

impl Recorder {
    pub fn new() -> (r: Self)
        ensures
            r@ == RecorderView::fresh(),
    {
        let mut encoders: Vec<String> = Vec::new();
        encoders.push("libx264".to_owned());
        let r = Recorder {
            status: Status::Idle,
            config: RecordingConfig::default(),
            region: None,
            pending_overlay_monitor: 0,
            ffmpeg_path: None,
            encoders,
            screens: Vec::new(),
            child: None,
            segments: Vec::new(),
            session_dir: None,
            session_id: 0,
            platform: Platform::MacOs,
        };
        assert(r@ =~= RecorderView::fresh());
        r
    }

    /// Adopt a config from the UI, dropping any region it invalidates.
    ///
    /// A global hotkey goes straight to the recorder, so it is here that
    /// switching display discards a region drawn on another one.
    pub fn apply_config(&mut self, cfg: RecordingConfig)
        ensures
            final(self)@ == old(self)@.with_config(cfg@),
    {
        let keep = same(cfg.mode.as_str(), "region") && match self.region {
            Some(r) => r.monitor_index == cfg.monitor_index,
            None => false,
        };
        if !keep {
            self.region = None;
        }
        self.config = cfg;
    }

    /// Claim this session for an abort, or refuse because someone else already
    /// owns its ending. A claim hands out the process to kill and the folder to
    /// delete; a refusal changes nothing.
    pub fn claim_failure(&mut self, session_id: u64, expect_last: Option<&str>) -> (r: Option<
        (Option<u64>, Option<String>),
    >)
        requires
            old(self)@.may_fail(session_id, opt_slice(expect_last)) ==> old(self).session_id < u64::MAX,
        ensures
            r is Some <==> old(self)@.may_fail(session_id, opt_slice(expect_last)),
            match r {
                Some(claimed) => {
                    &&& claimed.0 == old(self)@.child
                    &&& opt_str(claimed.1) == old(self)@.session_dir
                    &&& final(self)@ == old(self)@.failed()
                },
                None => *final(self) == *old(self),
            },
    {
        if self.session_id != session_id {
            return None;
        }
        match self.status {
            Status::Countdown | Status::Recording => {},
            _ => {
                return None;
            },
        }
        if let Some(p) = expect_last {
            let n: usize = self.segments.len();
            if n == 0 || !paths_equal(self.platform, self.segments[n - 1].as_str(), p) {
                return None;
            }
        }
        self.status = Status::Idle;
        self.session_id = self.session_id + 1;
        self.segments.clear();
        let claimed = (self.child.take(), self.session_dir.take());
        assert(self@ =~= old(self)@.failed());
        Some(claimed)
    }

    /// The region that a capture is cropped to.
    pub fn region_to_capture(&self) -> (r: Option<Region>)
        ensures
            r == self@.target_region(),
    {
        if same(self.config.mode.as_str(), "region") {
            self.region
        } else {
            None
        }
    }

    /// The monitor that is captured.
    pub fn monitor_to_capture(&self) -> (r: usize)
        ensures
            r == self@.target_monitor(),
    {
        match self.region_to_capture() {
            Some(r) => r.monitor_index,
            None => self.config.monitor_index,
        }
    }
}

/// The characters of an optional string slice.
pub open spec fn opt_slice(s: Option<&str>) -> Option<Seq<char>> {
    match s {
        Some(v) => Some(v@),
        None => None,
    }
}

// ---------------------------------------------------------------------------
// Region

/// The overlay selected a region: record that, on the monitor it covered.
pub fn set_region(r: &mut Recorder, sel: RegionSel) -> (region: Region)
    ensures
        final(r)@ == old(r)@.with_selection(sel),
        Some(region) == final(r)@.region,
{
    let (x, y, width, height) = sanitize_region(sel.x, sel.y, sel.width, sel.height);
    let region = Region { monitor_index: r.pending_overlay_monitor, x, y, width, height };
    r.region = Some(region);
    r.config.mode = "region".to_owned();
    region
}

/// An overlay is to cover monitor `monitor_index` of `monitors`.
pub fn open_overlay(r: &mut Recorder, monitor_index: usize, monitors: usize) -> (res: Result<(), String>)
    ensures
        match res {
            Ok(()) => monitor_index < monitors && final(r)@ == (RecorderView {
                pending_overlay_monitor: monitor_index,
                ..old(r)@
            }),
            Err(e) => monitor_index >= monitors && *final(r) == *old(r) && e@ == "monitor not found"@,
        },
{
    if monitor_index >= monitors {
        return Err("monitor not found".to_owned());
    }
    r.pending_overlay_monitor = monitor_index;
    Ok(())
}

// ---------------------------------------------------------------------------
// Start / segments

/// Where a countdown begins; it goes down by one each second.
pub const COUNTDOWN_FROM: u32 = 3;

/// The cheap validation of a start. Returns the folder whose free space is to
/// be checked next.
pub fn start(r: &Recorder, backend: &Backend) -> (res: Result<String, String>)
    ensures
        match res {
            Ok(dir) => r@.start_refusal(backend.ffmpeg_hint_text()) is None && dir@
                == r@.config.output_dir,
            Err(e) => r@.start_refusal(backend.ffmpeg_hint_text()) == Some(e@),
        },
{
    match r.status {
        Status::Idle => {},
        _ => {
            return Err("Already recording.".to_owned());
        },
    }
    if r.ffmpeg_path.is_none() {
        return Err(backend.ffmpeg_hint().to_owned());
    }
    if same(r.config.mode.as_str(), "region") && r.region.is_none() {
        return Err("Select a region first.".to_owned());
    }
    if r.config.output_dir.as_str().is_empty() {
        return Err("Choose an output folder first.".to_owned());
    }
    Ok(r.config.output_dir.clone())
}

/// Whether a session may begin now. Asked again before the session folder is
/// made, because the recorder was free during the space check.
pub fn ready_to_begin(r: &Recorder) -> (res: Result<(), String>)
    ensures
        match res {
            Ok(()) => r@.status == Status::Idle,
            Err(e) => r@.status != Status::Idle && e@ == "Already recording."@,
        },
{
    match r.status {
        Status::Idle => Ok(()),
        _ => Err("Already recording.".to_owned()),
    }
}

/// Begins a session in `session_dir` and returns its number.
pub fn begin_session(r: &mut Recorder, session_dir: String) -> (res: Result<u64, String>)
    requires
        old(r).status == Status::Idle ==> old(r).session_id < u64::MAX,
    ensures
        match res {
            Ok(id) => old(r)@.status == Status::Idle && final(r)@ == old(r)@.begun(session_dir@)
                && id == final(r)@.session_id,
            Err(e) => old(r)@.status != Status::Idle && *final(r) == *old(r) && e@
                == "Already recording."@,
        },
{
    match r.status {
        Status::Idle => {},
        _ => {
            return Err("Already recording.".to_owned());
        },
    }
    r.session_dir = Some(session_dir);
    r.segments.clear();
    r.session_id = r.session_id + 1;
    r.status = Status::Countdown;
    assert(r@ =~= old(r)@.begun(session_dir@));
    Ok(r.session_id)
}

/// Whether session `session_id` still counts down; if not, its countdown has
/// nothing left to do.
pub fn countdown_alive(r: &Recorder, session_id: u64) -> (res: bool)
    ensures
        res == r@.counting(session_id),
{
    r.session_id == session_id && r.status == Status::Countdown
}

/// What a countdown does next.
#[derive(Clone, Copy, Debug, PartialEq, Eq, Structural)]
pub enum CountdownStep {
    /// Show this number for a second.
    Show(u32),
    /// The count is over: start the first segment.
    Begin,
    /// The session was cancelled meanwhile: do nothing more.
    Cancelled,
}

/// The step of a countdown after the number `shown`, or the first one.
pub open spec fn countdown_after(shown: Option<u32>, counting: bool) -> CountdownStep {
    match shown {
        None => CountdownStep::Show(COUNTDOWN_FROM),
        Some(n) => if !counting {
            CountdownStep::Cancelled
        } else if n > 1 {
            CountdownStep::Show((n - 1) as u32)
        } else {
            CountdownStep::Begin
        },
    }
}

/// What the countdown of session `session_id` does next, once `shown` has been
/// shown for a second. The first number is shown in any case.
pub fn countdown_step(r: &Recorder, session_id: u64, shown: Option<u32>) -> (res: CountdownStep)
    ensures
        res == countdown_after(shown, r@.counting(session_id)),
{
    match shown {
        None => CountdownStep::Show(COUNTDOWN_FROM),
        Some(n) => {
            if !countdown_alive(r, session_id) {
                CountdownStep::Cancelled
            } else if n > 1 {
                CountdownStep::Show(n - 1)
            } else {
                CountdownStep::Begin
            }
        },
    }
}

/// The encoder to use: the requested one, or, for "auto", the first hardware
/// encoder that is available, or libx264.
pub open spec fn chosen_encoder(requested: Seq<char>, available: Seq<Seq<char>>, hw: Seq<Seq<char>>) -> Seq<
    char,
> {
    if requested != "auto"@ {
        requested
    } else {
        first_available(available, hw, 0)
    }
}

pub open spec fn first_available(available: Seq<Seq<char>>, hw: Seq<Seq<char>>, i: int) -> Seq<char>
    decreases hw.len() - i,
{
    if i < 0 || i >= hw.len() {
        "libx264"@
    } else if available.contains(hw[i]) {
        hw[i]
    } else {
        first_available(available, hw, i + 1)
    }
}

fn listed(all: &Vec<String>, x: &str) -> (r: bool)
    ensures
        r == strs(all@).contains(x@),
{
    let mut i: usize = 0;
    while i < all.len()
        invariant
            i <= all@.len(),
            forall|k: int| 0 <= k < i ==> strs(all@)[k] != x@,
        decreases all@.len() - i,
    {
        if same(all[i].as_str(), x) {
            assert(strs(all@)[i as int] == x@);
            return true;
        }
        i = i + 1;
    }
    false
}

pub fn resolve_encoder(requested: &str, available: &Vec<String>, backend: &Backend) -> (r: String)
    ensures
        r@ == chosen_encoder(requested@, strs(available@), backend.encoders()),
{
    if !same(requested, "auto") {
        return requested.to_owned();
    }
    let hw = backend.hw_encoders();
    let mut i: usize = 0;
    while i < hw.len()
        invariant
            i <= hw@.len(),
            slices(hw@) == backend.encoders(),
            requested@ == "auto"@,
            first_available(strs(available@), backend.encoders(), i as int) == chosen_encoder(
                requested@,
                strs(available@),
                backend.encoders(),
            ),
        decreases hw@.len() - i,
    {
        assert(slices(hw@)[i as int] == hw@[i as int]@);
        if listed(available, hw[i]) {
            return hw[i].to_owned();
        }
        i = i + 1;
    }
    "libx264".to_owned()
}

/// The backend's identifier of a monitor. Where the backend lists no screen at
/// that position, the monitor index, cut to 32 bits, is the identifier.
pub open spec fn screen_id_of(screens: Seq<(u32, Seq<char>)>, monitor_index: usize) -> u32 {
    if monitor_index < screens.len() {
        screens[monitor_index as int].0
    } else {
        (monitor_index as int % 0x1_0000_0000) as u32
    }
}

/// Map a UI monitor index to the backend's native screen id.
pub fn resolve_screen_id(screens: &Vec<ScreenDevice>, monitor_index: usize) -> (r: u32)
    ensures
        r == screen_id_of(screen_views(screens@), monitor_index),
{
    if monitor_index < screens.len() {
        screens[monitor_index].id
    } else {
        ((monitor_index as u64) % 0x1_0000_0000) as u32
    }
}

/// The name of segment `n`.
pub open spec fn segment_name(n: nat) -> Seq<char> {
    "seg_"@ + zero_padded(dec(n), 3) + ".mp4"@
}

/// What a segment needs: the program, the folder and the name of its file.
pub struct SegmentPlan {
    pub ffmpeg: String,
    pub session_dir: String,
    pub file_name: String,
}

/// Plans the next segment of session `session_id`.
pub fn plan_segment(r: &Recorder, session_id: u64) -> (res: Result<SegmentPlan, String>)
    ensures
        match res {
            Ok(p) => {
                &&& r@.segment_refusal(session_id) is None
                &&& r@.ffmpeg_path == Some(p.ffmpeg@)
                &&& r@.session_dir == Some(p.session_dir@)
                &&& p.file_name@ == segment_name(r@.segments.len())
            },
            Err(e) => r@.segment_refusal(session_id) == Some(e@),
        },
{
    if r.session_id != session_id {
        return Err("session was cancelled".to_owned());
    }
    let ffmpeg = match &r.ffmpeg_path {
        Some(p) => p.clone(),
        None => {
            return Err("ffmpeg not found".to_owned());
        },
    };
    let session_dir = match &r.session_dir {
        Some(d) => d.clone(),
        None => {
            return Err("no active session".to_owned());
        },
    };
    let mut file_name = "seg_".to_owned();
    file_name.append(padded_string(r.segments.len() as u64, 3).as_str());
    file_name.append(".mp4");
    Ok(SegmentPlan { ffmpeg, session_dir, file_name })
}

/// The ffmpeg arguments that a segment of this recorder is recorded with.
pub open spec fn segment_command_of(r: RecorderView, backend: Backend, out: Seq<char>) -> Seq<Seq<char>> {
    backend.segment_args_of(
        r.config,
        CaptureTarget {
            screen_id: screen_id_of(r.screens, r.target_monitor()),
            region: r.target_region(),
        },
        chosen_encoder(r.config.encoder, r.encoders, backend.encoders()),
        out,
    )
}

/// The ffmpeg arguments that record a segment to `out`.
pub fn segment_command(r: &Recorder, backend: &Backend, out: &str) -> (args: Vec<String>)
    ensures
        strs(args@) == segment_command_of(r@, *backend, out@),
{
    let encoder = resolve_encoder(r.config.encoder.as_str(), &r.encoders, backend);
    let target = CaptureTarget {
        screen_id: resolve_screen_id(&r.screens, r.monitor_to_capture()),
        region: r.region_to_capture(),
    };
    backend.segment_args(&r.config, &target, encoder.as_str(), out)
}

/// A segment has been started: process `child` writes to `path`.
pub fn segment_started(r: &mut Recorder, child: u64, path: String)
    ensures
        final(r)@ == old(r)@.with_segment(child, path@),
{
    let ghost before = r.segments@;
    r.child = Some(child);
    r.segments.push(path);
    assert(strs(r.segments@) =~= strs(before).push(path@));
    assert(r@ =~= old(r)@.with_segment(child, path@));
}

/// The segment runs: the session records.
pub fn enter_recording(r: &mut Recorder)
    ensures
        final(r)@ == old(r)@.recording(),
{
    r.status = Status::Recording;
}

// ---------------------------------------------------------------------------
// Pause / resume

pub enum PauseAction {
    /// Stop this process.
    Pause(u64),
    /// Start another segment of this session.
    Resume(u64),
}

pub fn toggle_pause(r: &mut Recorder) -> (res: Result<PauseAction, String>)
    ensures
        match old(r)@.status {
            Status::Recording => match old(r)@.child {
                Some(c) => res == Ok::<PauseAction, String>(PauseAction::Pause(c)) && final(r)@
                    == old(r)@.paused(),
                None => *final(r) == *old(r) && res is Err && res->Err_0@
                    == "recorder has no process"@,
            },
            Status::Paused => *final(r) == *old(r) && res == Ok::<PauseAction, String>(
                PauseAction::Resume(old(r)@.session_id),
            ),
            _ => *final(r) == *old(r) && res is Err && res->Err_0@ == "Not recording."@,
        },
{
    match r.status {
        Status::Recording => match r.child {
            Some(child) => {
                r.child = None;
                r.status = Status::Paused;
                Ok(PauseAction::Pause(child))
            },
            None => Err("recorder has no process".to_owned()),
        },
        Status::Paused => Ok(PauseAction::Resume(r.session_id)),
        _ => Err("Not recording.".to_owned()),
    }
}

// ---------------------------------------------------------------------------
// Stop / finalize

pub enum StopAction {
    /// The countdown was cancelled; delete the session folder.
    CancelCountdown(Option<String>),
    /// Stop this process, then finalize.
    Finalize(Option<u64>),
}

pub fn stop(r: &mut Recorder) -> (res: Result<StopAction, String>)
    requires
        old(r).status == Status::Countdown ==> old(r).session_id < u64::MAX,
    ensures
        match old(r)@.stopped() {
            Some(after) => final(r)@ == after && match old(r)@.status {
                Status::Countdown => res is Ok && (res->Ok_0 matches StopAction::CancelCountdown(d)
                    && opt_str(d) == old(r)@.session_dir),
                Status::Recording => res == Ok::<StopAction, String>(
                    StopAction::Finalize(old(r)@.child),
                ),
                _ => res == Ok::<StopAction, String>(StopAction::Finalize(None)),
            },
            None => *final(r) == *old(r) && res is Err && res->Err_0@ == "Not recording."@,
        },
{
    match r.status {
        Status::Countdown => {
            r.session_id = r.session_id + 1;
            r.status = Status::Idle;
            let dir = r.session_dir.take();
            Ok(StopAction::CancelCountdown(dir))
        },
        Status::Recording => {
            r.status = Status::Finalizing;
            let child = r.child.take();
            Ok(StopAction::Finalize(child))
        },
        Status::Paused => {
            r.status = Status::Finalizing;
            Ok(StopAction::Finalize(None))
        },
        _ => Err("Not recording.".to_owned()),
    }
}

/// How often a process that was asked to finish is looked at, every
/// [`STOP_POLL_MS`] milliseconds, before it is killed. A hard kill truncates the
/// file, so it is the last resort.
pub const STOP_POLLS: u32 = 40;

pub const STOP_POLL_MS: u64 = 100;

/// What to do about a process that was asked to finish.
#[derive(Clone, Copy, Debug, PartialEq, Eq, Structural)]
pub enum StopStep {
    /// It has ended.
    Done,
    /// Look again in [`STOP_POLL_MS`] milliseconds.
    Wait,
    /// It had its time: kill it.
    Kill,
}

/// What to do about a process that was asked to finish and has been waited for
/// `polls` times, by whether it has ended.
pub open spec fn stop_after(polls: u32, ended: bool) -> StopStep {
    if ended {
        StopStep::Done
    } else if polls < STOP_POLLS {
        StopStep::Wait
    } else {
        StopStep::Kill
    }
}

pub fn stop_step(polls: u32, ended: bool) -> (r: StopStep)
    ensures
        r == stop_after(polls, ended),
{
    if ended {
        StopStep::Done
    } else if polls < STOP_POLLS {
        StopStep::Wait
    } else {
        StopStep::Kill
    }
}

/// A segment that is smaller than this holds no video.
pub const MIN_SEGMENT_BYTES: u64 = 1024;

/// The first `n` segments that hold video, by the sizes of their files.
pub open spec fn good_segments(segments: Seq<Seq<char>>, sizes: Seq<Option<u64>>, n: int) -> Seq<Seq<char>>
    decreases n,
{
    if n <= 0 {
        Seq::empty()
    } else {
        match sizes[n - 1] {
            Some(size) if size > MIN_SEGMENT_BYTES => good_segments(segments, sizes, n - 1).push(
                segments[n - 1],
            ),
            _ => good_segments(segments, sizes, n - 1),
        }
    }
}

/// The list that the concat demuxer reads.
pub open spec fn concat_list(segments: Seq<Seq<char>>) -> Seq<char>
    decreases segments.len(),
{
    if segments.len() == 0 {
        Seq::empty()
    } else {
        concat_list(segments.drop_last()) + concat_line(segments.last()) + "\n"@
    }
}

pub enum FinalizePlan {
    /// The one segment is the recording: move it.
    Move(String),
    /// Write `list` to a file in `session_dir` and have ffmpeg join the
    /// segments that it names.
    Concat { ffmpeg: String, session_dir: String, list: String },
}

/// What is to be done with the segments that hold video.
pub open spec fn is_plan(r: RecorderView, good: Seq<Seq<char>>, plan: FinalizePlan) -> bool {
    match plan {
        FinalizePlan::Move(path) => good.len() == 1 && path@ == good[0],
        FinalizePlan::Concat { ffmpeg, session_dir, list } => good.len() > 1 && r.ffmpeg_path == Some(
            ffmpeg@,
        ) && r.session_dir == Some(session_dir@) && list@ == concat_list(good),
    }
}

/// Why nothing can be done with the segments that hold video.
pub open spec fn finalize_refusal(r: RecorderView, good: Seq<Seq<char>>) -> Option<Seq<char>> {
    if good.len() == 0 {
        Some("No video was captured — ffmpeg produced nothing."@)
    } else if good.len() == 1 {
        None
    } else if r.ffmpeg_path is None {
        Some("ffmpeg not found"@)
    } else if r.session_dir is None {
        Some("no session folder"@)
    } else {
        None
    }
}

/// Plans the end of a recording. `sizes` holds the size of each segment's file,
/// where it has one.
pub fn finalize(r: &Recorder, sizes: &Vec<Option<u64>>) -> (res: Result<FinalizePlan, String>)
    requires
        sizes@.len() == r.segments@.len(),
    ensures
        ({
            let good = good_segments(r@.segments, sizes@, sizes@.len() as int);
            match res {
                Ok(plan) => finalize_refusal(r@, good) is None && is_plan(r@, good, plan),
                Err(e) => finalize_refusal(r@, good) == Some(e@),
            }
        }),
{
    let mut good: Vec<String> = Vec::new();
    let mut i: usize = 0;
    assert(strs(good@) =~= Seq::empty());
    while i < sizes.len()
        invariant
            i <= sizes@.len(),
            sizes@.len() == r.segments@.len(),
            strs(good@) == good_segments(r@.segments, sizes@, i as int),
        decreases sizes@.len() - i,
    {
        let ghost before = good@;
        match sizes[i] {
            Some(size) => if size > MIN_SEGMENT_BYTES {
                good.push(r.segments[i].clone());
                assert(strs(good@) =~= strs(before).push(r@.segments[i as int]));
            },
            None => {},
        }
        i = i + 1;
    }
    if good.len() == 0 {
        return Err("No video was captured — ffmpeg produced nothing.".to_owned());
    }
    if good.len() == 1 {
        assert(strs(good@)[0] == good@[0]@);
        return Ok(FinalizePlan::Move(good[0].clone()));
    }
    let ffmpeg = match &r.ffmpeg_path {
        Some(p) => p.clone(),
        None => {
            return Err("ffmpeg not found".to_owned());
        },
    };
    let session_dir = match &r.session_dir {
        Some(d) => d.clone(),
        None => {
            return Err("no session folder".to_owned());
        },
    };
    let mut list = String::new();
    let mut i: usize = 0;
    while i < good.len()
        invariant
            i <= good@.len(),
            list@ == concat_list(strs(good@).take(i as int)),
        decreases good@.len() - i,
    {
        let ghost upto = strs(good@).take(i + 1);
        assert(upto.drop_last() == strs(good@).take(i as int));
        assert(upto.last() == good@[i as int]@);
        list.append(concat_list_line(good[i].as_str()).as_str());
        list.append("\n");
        i = i + 1;
    }
    assert(strs(good@).take(good@.len() as int) == strs(good@));
    Ok(FinalizePlan::Concat { ffmpeg, session_dir, list })
}

/// The recording has been moved or joined, or neither could be done.
pub fn finish_session(r: &mut Recorder)
    ensures
        final(r)@ == old(r)@.finalized(),
{
    r.status = Status::Idle;
    r.child = None;
    r.segments.clear();
    r.session_dir = None;
    assert(r@ =~= old(r)@.finalized());
}

// ---------------------------------------------------------------------------
// Hotkeys / tray / shutdown entry points

#[derive(Clone, Copy, PartialEq, Eq, Structural, Debug)]
pub enum RecordToggle {
    Start,
    Stop,
}

/// The record hotkey and the tray item: start when idle, stop otherwise.
pub fn toggle_record(r: &Recorder) -> (res: RecordToggle)
    ensures
        res == (if r@.status == Status::Idle {
            RecordToggle::Start
        } else {
            RecordToggle::Stop
        }),
{
    match r.status {
        Status::Idle => RecordToggle::Start,
        _ => RecordToggle::Stop,
    }
}

/// The pause hotkey: only meaningful mid-recording.
pub fn hotkey_pause(r: &Recorder) -> (res: bool)
    ensures
        res == (r@.status == Status::Recording || r@.status == Status::Paused),
{
    match r.status {
        Status::Recording | Status::Paused => true,
        _ => false,
    }
}

/// Quit: no session is live any more. Returns the process to stop, so that no
/// orphaned ffmpeg is left running.
pub fn shutdown(r: &mut Recorder) -> (child: Option<u64>)
    requires
        old(r).session_id < u64::MAX,
    ensures
        child == old(r)@.child,
        final(r)@ == old(r)@.shut_down(),
{
    r.status = Status::Idle;
    r.session_id = r.session_id + 1;
    r.child.take()
}

} // verus!
