//! What the window shell decides: what it tells the window on load, and what its
//! menus and commands do.

use crate::capture::{audio_views, screen_views, AudioDevice, Backend, CaptureBackend, ScreenDevice};
use crate::ffmpeg::{usable_encoders, working};
use crate::numbers::{dec, dec_string};
use crate::recorder::{ConfigView, Recorder, RecorderView};
use crate::text::{opt_str, same, strs};
use vstd::prelude::*;
use vstd::string::*;

verus! {

/// What this machine can record with.
pub struct Inventory {
    pub encoders: Vec<String>,
    pub audio_devices: Vec<AudioDevice>,
    pub screens: Vec<ScreenDevice>,
}

/// Takes stock: from the outcome of the encoder probes and the device listing,
/// if ffmpeg was found. Without it there is still an encoder to select.
pub fn take_stock(backend: &Backend, found: Option<(&Vec<bool>, &str)>) -> (r: Inventory)
    ensures
        match found {
            Some((works, listing)) => {
                &&& strs(r.encoders@) == working(
                    backend.encoders(),
                    works@,
                    backend.encoders().len() as int,
                ).push("libx264"@)
                &&& audio_views(r.audio_devices@) == backend.audio_in(listing@)
                &&& screen_views(r.screens@) == backend.screens_in(listing@)
            },
            None => {
                &&& strs(r.encoders@) == seq!["libx264"@]
                &&& r.audio_devices@.len() == 0
                &&& r.screens@.len() == 0
            },
        },
{
    match found {
        Some((works, listing)) => Inventory {
            encoders: usable_encoders(backend, works),
            audio_devices: backend.audio_devices(listing),
            screens: backend.screens(listing),
        },
        None => {
            let mut encoders: Vec<String> = Vec::new();
            encoders.push("libx264".to_owned());
            assert(strs(encoders@) =~= seq!["libx264"@]);
            Inventory { encoders, audio_devices: Vec::new(), screens: Vec::new() }
        },
    }
}

/// A configuration that fits this machine: the output folder is one that is
/// there, and the monitor one of those that are connected.
pub open spec fn fitted(c: ConfigView, default_dir: Seq<char>, dir_exists: bool, monitors: usize) -> ConfigView {
    ConfigView {
        output_dir: if c.output_dir.len() == 0 || !dir_exists {
            default_dir
        } else {
            c.output_dir
        },
        monitor_index: if c.monitor_index >= (if monitors < 1 {
            1
        } else {
            monitors
        }) {
            0
        } else {
            c.monitor_index
        },
        ..c
    }
}

/// Tells the recorder what was found at startup, and fits its configuration to
/// it. A restored folder that has since been deleted is worse than useless, and
/// a display may have been unplugged.
///
/// `dir_exists` says whether the configured output folder is a folder.
pub fn init_info(
    r: &mut Recorder,
    ffmpeg_path: Option<String>,
    encoders: Vec<String>,
    screens: Vec<ScreenDevice>,
    default_dir: String,
    dir_exists: bool,
    monitors: usize,
)
    ensures
        final(r)@ == (RecorderView {
            ffmpeg_path: opt_str(ffmpeg_path),
            encoders: strs(encoders@),
            screens: screen_views(screens@),
            config: fitted(old(r)@.config, default_dir@, dir_exists, monitors),
            ..old(r)@
        }),
{
    r.ffmpeg_path = ffmpeg_path;
    r.encoders = encoders;
    r.screens = screens;
    if r.config.output_dir.as_str().is_empty() || !dir_exists {
        r.config.output_dir = default_dir;
    }
    let count: usize = if monitors < 1 {
        1
    } else {
        monitors
    };
    if r.config.monitor_index >= count {
        r.config.monitor_index = 0;
    }
    assert(r@ =~= (RecorderView {
        ffmpeg_path: opt_str(ffmpeg_path),
        encoders: strs(encoders@),
        screens: screen_views(screens@),
        config: fitted(old(r)@.config, default_dir@, dir_exists, monitors),
        ..old(r)@
    }));
}

/// A fitted configuration names a folder and a connected monitor, and fitting it
/// again to the same machine changes nothing.
pub proof fn fitting_is_stable(c: ConfigView, default_dir: Seq<char>, dir_exists: bool, monitors: usize)
    requires
        default_dir.len() > 0,
    ensures
        ({
            let f = fitted(c, default_dir, dir_exists, monitors);
            &&& f.output_dir.len() > 0
            &&& monitors > 0 ==> f.monitor_index < monitors
            &&& fitted(f, default_dir, true, monitors) == f
        }),
{
}

/// What a monitor is called: its own name, or its number.
pub fn monitor_name(name: Option<String>, index: usize) -> (r: String)
    requires
        index < usize::MAX,
    ensures
        r@ == match name {
            Some(n) => n@,
            None => "Display "@ + dec(index as nat + 1),
        },
{
    match name {
        Some(n) => n,
        None => {
            let mut r: String = "Display ".to_owned();
            r.append(dec_string(index as u64 + 1).as_str());
            r
        },
    }
}

/// Whether a recording can be turned into a GIF, and with which ffmpeg.
pub fn export_gif(r: &Recorder, backend: &Backend, src_exists: bool) -> (res: Result<String, String>)
    ensures
        match res {
            Ok(ff) => r@.ffmpeg_path == Some(ff@) && src_exists,
            Err(e) => if r@.ffmpeg_path is None {
                e@ == backend.ffmpeg_hint_text()
            } else {
                !src_exists && e@ == "that recording is no longer there"@
            },
        },
{
    match &r.ffmpeg_path {
        Some(ff) => {
            if !src_exists {
                return Err("that recording is no longer there".to_owned());
            }
            Ok(ff.clone())
        },
        None => Err(backend.ffmpeg_hint().to_owned()),
    }
}

/// What an item of the tray menu does.
#[derive(Clone, Copy, Debug, PartialEq, Eq, Structural)]
pub enum TrayAction {
    Show,
    Toggle,
    Quit,
    Nothing,
}

pub fn tray_action(id: &str) -> (r: TrayAction)
    ensures
        r == if id@ == "show"@ {
            TrayAction::Show
        } else if id@ == "toggle"@ {
            TrayAction::Toggle
        } else if id@ == "quit"@ {
            TrayAction::Quit
        } else {
            TrayAction::Nothing
        },
{
    if same(id, "show") {
        TrayAction::Show
    } else if same(id, "toggle") {
        TrayAction::Toggle
    } else if same(id, "quit") {
        TrayAction::Quit
    } else {
        TrayAction::Nothing
    }
}

/// What fits the machine is kept as it was chosen: a folder that is there, a
/// monitor that is connected, and everything else. Only a folder that is missing
/// gives way to the default, and only a monitor that is gone to the first.
pub proof fn what_fits_is_kept(c: ConfigView, default_dir: Seq<char>, dir_exists: bool, monitors: usize)
    ensures
        ({
            let f = fitted(c, default_dir, dir_exists, monitors);
            &&& c.output_dir.len() > 0 && dir_exists ==> f.output_dir == c.output_dir
            &&& c.output_dir.len() == 0 || !dir_exists ==> f.output_dir == default_dir
            &&& c.monitor_index < monitors ==> f.monitor_index == c.monitor_index
            &&& c.monitor_index >= monitors ==> f.monitor_index == 0
            &&& f == (ConfigView { output_dir: f.output_dir, monitor_index: f.monitor_index, ..c })
        }),
{
}

} // verus!
