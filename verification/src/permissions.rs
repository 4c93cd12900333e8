//! Permission to record the screen.

use crate::capture::Platform;
use vstd::prelude::*;

verus! {

/// The pane of the system's settings in which the permission is granted.
pub const SETTINGS_URL: &'static str =
    "x-apple.systempreferences:com.apple.preference.security?Privacy_ScreenCapture";

/// Whether the screen may be recorded. On macOS the system decides: `preflight`
/// is its answer. Nothing plays that role elsewhere; capture just works.
pub fn screen_recording_granted(platform: Platform, preflight: bool) -> (r: bool)
    ensures
        r == (platform is Windows || preflight),
{
    match platform {
        Platform::MacOs => preflight,
        Platform::Windows => true,
    }
}

} // verus!
