//! Screen recording, stills, text grab and scrolling capture: everything that
//! decides, parses or builds, with the operating system kept outside.

pub mod capture;
pub mod cli;
pub mod cli_laws;
pub mod clock;
pub mod devctl;
pub mod disk;
pub mod double;
pub mod editor;
pub mod ffmpeg;
pub mod ffmpeg_laws;
pub mod frame;
mod numbers;
pub mod ocr;
mod paths;
pub mod permissions;
mod pieces;
pub mod progress;
pub mod recorder;
pub mod recorder_laws;
pub mod scroll;
pub mod scroll_laws;
pub mod sessions;
pub mod settings;
pub mod shell;
mod single;
pub mod still;
mod text;
pub mod text_laws;
