//! What holds of the arguments of a recording, on either platform: which input of
//! a configuration ends up where, and what it leaves alone.

use super::{audio_views, capped_fps, crop_filter, evened, not_negative, screen_views, AudioDevice, Backend, CaptureBackend, CaptureTarget, ScreenDevice};
use super::macos::{self, MacOs};
use super::windows::{self, Windows};
use crate::numbers::{dec, is_digit, lemma_dec};
use crate::pieces::{joined, split_at};
use crate::recorder::ConfigView;
use crate::text_laws::splitting_undoes_joining;
use vstd::prelude::*;
use vstd::string::*;

verus! {

// ---------------------------------------------------------------------------
// Numbers

/// Neither offset nor size of a region is changed without need: what is even and
/// at least two, or not negative, stays; an odd side loses one pixel; what is less
/// becomes the least.
pub proof fn regions_are_changed_only_where_they_must_be(n: int)
    ensures
        n >= 2 && n % 2 == 0 ==> evened(n) == n,
        n >= 2 && n % 2 == 1 ==> evened(n) == n - 1,
        n < 2 ==> evened(n) == 2,
        n >= 0 ==> not_negative(n) == n,
        n < 0 ==> not_negative(n) == 0,
{
}

/// A frame rate from 1 to 120 is kept; one outside becomes the nearest inside.
pub proof fn frame_rates_are_kept_in_range(fps: u32, other: u32)
    ensures
        1 <= capped_fps(fps) <= 120,
        1 <= fps <= 120 ==> capped_fps(fps) == fps,
        fps <= other ==> capped_fps(fps) <= capped_fps(other),
        fps == 0 ==> capped_fps(fps) == 1,
        fps > 120 ==> capped_fps(fps) == 120,
{
}

/// The crop filter reads width, height, x, y, in that order.
pub proof fn a_crop_reads_size_before_offset(w: u32, h: u32, x: u32, y: u32)
    ensures
        crop_filter(w, h, x, y).len() >= 5,
        crop_filter(w, h, x, y).take(5) == seq!['c', 'r', 'o', 'p', '='],
        split_at(crop_filter(w, h, x, y).skip(5), ':') == seq![
            dec(w as nat),
            dec(h as nat),
            dec(x as nat),
            dec(y as nat),
        ],
{
    reveal_strlit("crop=");
    reveal_strlit(":");
    let (a, b, c, d) = (dec(w as nat), dec(h as nat), dec(x as nat), dec(y as nat));
    let parts = seq![a, b, c, d];
    lemma_no_colon(w as nat);
    lemma_no_colon(h as nat);
    lemma_no_colon(x as nat);
    lemma_no_colon(y as nat);
    let sep = seq![':'];
    assert(":"@ =~= sep);
    let text = crop_filter(w, h, x, y);
    assert(parts.drop_last() =~= seq![a, b, c]);
    assert(seq![a, b, c].drop_last() =~= seq![a, b]);
    assert(seq![a, b].drop_last() =~= seq![a]);
    assert(joined(seq![a], sep) == a);
    assert(joined(seq![a, b], sep) == a + sep + b);
    assert(joined(seq![a, b, c], sep) == a + sep + b + sep + c);
    assert(joined(parts, sep) == a + sep + b + sep + c + sep + d);
    assert(text.skip(5) =~= joined(parts, sep));
    assert(text.take(5) =~= seq!['c', 'r', 'o', 'p', '=']);
    splitting_undoes_joining(parts, ':');
}

proof fn lemma_no_colon(n: nat)
    ensures
        !dec(n).contains(':'),
{
    lemma_dec(n);
    assert forall|k: int| 0 <= k < dec(n).len() implies dec(n)[k] != ':' by {
        assert(is_digit(dec(n)[k]));
    }
}

// ---------------------------------------------------------------------------
// The microphone

/// The device that a platform's second input records: `:1`, or `audio=Mic`.
pub open spec fn mic_source(backend: Backend, device: Seq<char>) -> Seq<Seq<char>> {
    match backend {
        Backend::MacOs(_) => seq!["-f"@, "avfoundation"@, "-i"@, seq![':'] + device],
        Backend::Windows(_) => seq!["-f"@, "dshow"@, "-i"@, "audio="@ + device],
    }
}

/// How many arguments the video input takes up, with those in front of it.
pub open spec fn video_part(backend: Backend) -> int {
    match backend {
        Backend::MacOs(_) => 14,
        Backend::Windows(_) => 10,
    }
}

/// A microphone that is switched off, or for which no device is chosen, is not
/// recorded: the arguments are those of a configuration without any.
pub proof fn a_microphone_that_is_off_is_not_recorded(
    backend: Backend,
    cfg: ConfigView,
    target: CaptureTarget,
    encoder: Seq<char>,
    out: Seq<char>,
)
    requires
        !cfg.mic_enabled || cfg.mic_device is None || cfg.mic_device->0.len() == 0,
    ensures
        ({
            let args = backend.segment_args_of(cfg, target, encoder, out);
            &&& args == backend.segment_args_of(
                ConfigView { mic_enabled: false, mic_device: None, ..cfg },
                target,
                encoder,
                out,
            )
            &&& forall|k: int|
                0 <= k < args.len() - 1 ==> #[trigger] args[k] != "1:a"@ && args[k] != "-c:a"@ && args[k]
                    != "aac"@ && args[k] != "dshow"@
            &&& forall|k: int|
                0 <= k < args.len() - 1 && #[trigger] args[k] == "-i"@ ==> k == video_part(backend) - 2
        }),
{
    let silent = ConfigView { mic_enabled: false, mic_device: None, ..cfg };
    assert(cfg.mic() is None && silent.mic() is None);
    lemma_video_only(backend, cfg, target, encoder, out);
    match backend {
        Backend::MacOs(m) => {
            assert(m.segment_args_of(cfg, target, encoder, out) =~= m.segment_args_of(silent, target, encoder, out));
        },
        Backend::Windows(w) => {
            assert(windows::graph(cfg, target, encoder) == windows::graph(silent, target, encoder));
            assert(w.segment_args_of(cfg, target, encoder, out) =~= w.segment_args_of(silent, target, encoder, out));
        },
    }
}

/// Not one of the words that stand for sound.
spec fn silent_word(a: Seq<char>) -> bool {
    a != "1:a"@ && a != "-c:a"@ && a != "aac"@ && a != "dshow"@
}

#[verifier::rlimit(60)]
proof fn lemma_video_only(
    backend: Backend,
    cfg: ConfigView,
    target: CaptureTarget,
    encoder: Seq<char>,
    out: Seq<char>,
)
    requires
        cfg.mic() is None,
    ensures
        ({
            let args = backend.segment_args_of(cfg, target, encoder, out);
            forall|k: int|
                0 <= k < args.len() - 1 ==> silent_word(#[trigger] args[k]) && (args[k] == "-i"@ ==> k
                    == video_part(backend) - 2)
        }),
{
    reveal_strlit("1:a");
    reveal_strlit("-c:a");
    reveal_strlit("aac");
    reveal_strlit("dshow");
    reveal_strlit("-i");
    reveal_strlit("-hide_banner");
    reveal_strlit("-loglevel");
    reveal_strlit("warning");
    reveal_strlit("-progress");
    reveal_strlit("pipe:1");
    reveal_strlit("-y");
    reveal_strlit("-f");
    reveal_strlit("avfoundation");
    reveal_strlit("lavfi");
    reveal_strlit("-capture_cursor");
    reveal_strlit("1");
    reveal_strlit("0");
    reveal_strlit("-capture_mouse_clicks");
    reveal_strlit(":none");
    reveal_strlit("-map");
    reveal_strlit("0:v");
    reveal_strlit("-vf");
    reveal_strlit("-r");
    reveal_strlit("-c:v");
    reveal_strlit("h264_videotoolbox");
    reveal_strlit("h264_nvenc");
    reveal_strlit("h264_amf");
    reveal_strlit("h264_qsv");
    reveal_strlit("-realtime");
    reveal_strlit("-b:v");
    reveal_strlit("12M");
    reveal_strlit("10M");
    reveal_strlit("-pix_fmt");
    reveal_strlit("yuv420p");
    reveal_strlit("nv12");
    reveal_strlit("libx264");
    reveal_strlit("-preset");
    reveal_strlit("veryfast");
    reveal_strlit("p4");
    reveal_strlit("-crf");
    reveal_strlit("-cq");
    reveal_strlit("-quality");
    reveal_strlit("balanced");
    reveal_strlit("-global_quality");
    reveal_strlit("23");
    reveal_strlit("crop=");
    reveal_strlit("ddagrab=output_idx=");
    assert("1:a"@.len() == 3 && "1:a"@[1] == ':' && "1:a"@[2] == 'a');
    assert("-c:a"@.len() == 4 && "-c:a"@[3] == 'a' && "-c:a"@[1] == 'c');
    assert("aac"@.len() == 3 && "aac"@[0] == 'a');
    assert("dshow"@.len() == 5 && "dshow"@[0] == 'd' && "dshow"@[1] == 's');
    assert("-i"@.len() == 2 && "-i"@[1] == 'i' && "-i"@[0] == '-');
    lemma_dec(target.screen_id as nat);
    lemma_dec(capped_fps(cfg.fps) as nat);
    let args = backend.segment_args_of(cfg, target, encoder, out);
    match backend {
        Backend::MacOs(m) => {
            let source = dec(target.screen_id as nat) + ":none"@;
            assert(source.len() >= 6);
            let rate = dec(capped_fps(cfg.fps) as nat);
            assert(is_digit(rate[0]));
            assert(all_digits_no_colon(rate)) by {
                assert forall|k: int| 0 <= k < rate.len() implies '0' <= #[trigger] rate[k] <= '9' by {
                    assert(is_digit(rate[k]));
                }
            }
            match target.region {
                Some(r) => {
                    let crop = crop_filter(r.width, r.height, r.x, r.y);
                    assert(crop.len() >= 5 && crop[0] == 'c');
                },
                None => {},
            }
            assert(args =~= m.segment_args_of(cfg, target, encoder, out));
        },
        Backend::Windows(w) => {
            let g = windows::graph(cfg, target, encoder);
            assert(g.len() >= 10 && g[0] == 'd' && g[1] == 'd');
            assert(args =~= w.segment_args_of(cfg, target, encoder, out));
        },
    }
}

spec fn all_digits_no_colon(s: Seq<char>) -> bool {
    forall|k: int| 0 <= k < s.len() ==> '0' <= #[trigger] s[k] <= '9'
}

/// A microphone that is switched on and chosen is recorded: against a silent
/// recording the arguments gain a second input, which is that device, its sound
/// in the output, and an encoder for it, and nothing else changes.
pub proof fn a_microphone_that_is_on_is_recorded(
    backend: Backend,
    cfg: ConfigView,
    target: CaptureTarget,
    encoder: Seq<char>,
    out: Seq<char>,
)
    requires
        cfg.mic_enabled,
        cfg.mic_device is Some,
        cfg.mic_device->0.len() > 0,
    ensures
        ({
            let silent = backend.segment_args_of(
                ConfigView { mic_enabled: false, ..cfg },
                target,
                encoder,
                out,
            );
            let i = video_part(backend);
            &&& silent.len() > i + 3
            &&& silent[i] == "-map"@ && silent[i + 1] == "0:v"@
            &&& backend.segment_args_of(cfg, target, encoder, out) == silent.take(i) + mic_source(
                backend,
                cfg.mic_device->0,
            ) + silent.subrange(i, i + 2) + seq!["-map"@, "1:a"@] + silent.subrange(i + 2, silent.len() - 1)
                + seq!["-c:a"@, "aac"@, "-b:a"@, "160k"@] + seq![out]
        }),
{
    reveal_strlit(":");
    assert(":"@ =~= seq![':']);
    let off = ConfigView { mic_enabled: false, ..cfg };
    let silent = backend.segment_args_of(off, target, encoder, out);
    let i = video_part(backend);
    assert(cfg.mic() == cfg.mic_device);
    assert(off.mic() is None);
    match backend {
        Backend::MacOs(m) => {
            assert(silent =~= m.segment_args_of(off, target, encoder, out));
            assert(silent.take(i) =~= super::base_args_spec() + macos::video_input(cfg, target));
            assert(silent.subrange(i + 2, silent.len() - 1) =~= macos::output_rate(cfg) + macos::region_crop(
                target,
            ) + macos::video_encoder(encoder));
        },
        Backend::Windows(w) => {
            assert(windows::graph(cfg, target, encoder) == windows::graph(off, target, encoder));
            assert(silent =~= w.segment_args_of(off, target, encoder, out));
            assert(silent.take(i) =~= super::base_args_spec() + seq![
                "-f"@,
                "lavfi"@,
                "-i"@,
                windows::graph(cfg, target, encoder),
            ]);
            assert(silent.subrange(i + 2, silent.len() - 1) =~= windows::video_encoder(encoder));
        },
    }
    assert(backend.segment_args_of(cfg, target, encoder, out) =~= silent.take(i) + mic_source(
        backend,
        cfg.mic_device->0,
    ) + silent.subrange(i, i + 2) + seq!["-map"@, "1:a"@] + silent.subrange(i + 2, silent.len() - 1) + seq![
        "-c:a"@,
        "aac"@,
        "-b:a"@,
        "160k"@,
    ] + seq![out]);
}

// ---------------------------------------------------------------------------
// The picture

/// On macOS the screen, the pointer and the frame rate of the arguments are those
/// that were asked for: each stands behind its flag.
pub proof fn macos_records_what_was_asked_for(
    cfg: ConfigView,
    target: CaptureTarget,
    encoder: Seq<char>,
    out: Seq<char>,
)
    ensures
        ({
            let args = MacOs.segment_args_of(cfg, target, encoder, out);
            let sound = if cfg.mic_enabled && cfg.mic_device is Some && cfg.mic_device->0.len() > 0 {
                6int
            } else {
                0
            };
            &&& args.len() > 19 + sound
            &&& args[6] == "-f"@ && args[7] == "avfoundation"@
            &&& args[8] == "-capture_cursor"@ && args[9] == (if cfg.capture_cursor {
                "1"@
            } else {
                "0"@
            })
            &&& args[10] == "-capture_mouse_clicks"@ && args[11] == "0"@
            &&& args[12] == "-i"@ && args[13] == dec(target.screen_id as nat) + ":none"@
            &&& args[16 + sound] == "-r"@
            &&& 1 <= cfg.fps <= 120 ==> args[17 + sound] == dec(cfg.fps as nat)
            &&& cfg.fps > 120 ==> args[17 + sound] == dec(120)
            &&& target.region matches Some(r) ==> args[18 + sound] == "-vf"@ && args[19 + sound]
                == crop_filter(r.width, r.height, r.x, r.y)
            &&& target.region is None ==> args[18 + sound] == "-c:v"@
            &&& args.last() == out
        }),
{
}

/// On Windows the source of the picture names the screen, the frame rate, the
/// pointer and, for a region, its offset and its size.
pub proof fn windows_records_what_was_asked_for(
    cfg: ConfigView,
    target: CaptureTarget,
    encoder: Seq<char>,
    out: Seq<char>,
)
    ensures
        ({
            let args = Windows.segment_args_of(cfg, target, encoder, out);
            let rate = if cfg.fps < 1 {
                1
            } else if cfg.fps > 120 {
                120
            } else {
                cfg.fps
            };
            let source = "ddagrab=output_idx="@ + dec(target.screen_id as nat) + ":framerate="@ + dec(
                rate as nat,
            ) + ":draw_mouse="@ + (if cfg.capture_cursor {
                "1"@
            } else {
                "0"@
            });
            let part = match target.region {
                Some(r) => source + ":offset_x="@ + dec(r.x as nat) + ":offset_y="@ + dec(r.y as nat)
                    + ":video_size="@ + dec(r.width as nat) + "x"@ + dec(r.height as nat),
                None => source,
            };
            &&& args.len() > 10
            &&& args[6] == "-f"@ && args[7] == "lavfi"@ && args[8] == "-i"@
            &&& encoder == "h264_nvenc"@ || encoder == "h264_amf"@ ==> args[9] == part
            &&& encoder != "h264_nvenc"@ && encoder != "h264_amf"@ ==> args[9] == part
                + ",hwdownload,format=bgra"@
            &&& args.last() == out
        }),
{
    let args = Windows.segment_args_of(cfg, target, encoder, out);
    assert(args[9] == windows::graph(cfg, target, encoder));
    match target.region {
        Some(r) => {
            let source = "ddagrab=output_idx="@ + dec(target.screen_id as nat) + ":framerate="@ + dec(
                capped_fps(cfg.fps) as nat,
            ) + ":draw_mouse="@ + (if cfg.capture_cursor {
                "1"@
            } else {
                "0"@
            });
            let part = source + ":offset_x="@ + dec(r.x as nat) + ":offset_y="@ + dec(r.y as nat)
                + ":video_size="@ + dec(r.width as nat) + "x"@ + dec(r.height as nat);
            assert(source + windows::geometry(target) =~= part);
            assert(windows::graph(cfg, target, encoder) =~= part + windows::download_hop(encoder));
            assert(part + Seq::<char>::empty() =~= part);
        },
        None => {
            let source = "ddagrab=output_idx="@ + dec(target.screen_id as nat) + ":framerate="@ + dec(
                capped_fps(cfg.fps) as nat,
            ) + ":draw_mouse="@ + (if cfg.capture_cursor {
                "1"@
            } else {
                "0"@
            });
            assert(source + Seq::<char>::empty() + windows::download_hop(encoder) =~= source
                + windows::download_hop(encoder));
            assert(source + Seq::<char>::empty() =~= source);
        },
    }
}

/// How an encoder is set up: what follows its name.
pub open spec fn encoder_settings(codec: Seq<char>) -> Seq<Seq<char>> {
    if codec == "h264_videotoolbox"@ {
        seq!["-realtime"@, "1"@, "-b:v"@, "12M"@, "-pix_fmt"@, "yuv420p"@]
    } else if codec == "h264_nvenc"@ {
        seq!["-preset"@, "p4"@, "-cq"@, "23"@]
    } else if codec == "h264_amf"@ {
        seq!["-quality"@, "balanced"@, "-b:v"@, "10M"@]
    } else if codec == "h264_qsv"@ {
        seq!["-global_quality"@, "23"@, "-pix_fmt"@, "nv12"@]
    } else {
        seq!["-preset"@, "veryfast"@, "-crf"@, "23"@, "-pix_fmt"@, "yuv420p"@]
    }
}

/// `args` have the video encoded by `codec`, from the argument `k` on.
pub open spec fn encodes_with(args: Seq<Seq<char>>, k: int, codec: Seq<char>) -> bool {
    let n = encoder_settings(codec).len();
    &&& 0 <= k && k + 2 + n < args.len()
    &&& args[k] == "-c:v"@
    &&& args[k + 1] == codec
    &&& args.subrange(k + 2, k + 2 + n) == encoder_settings(codec)
}

/// What is recorded is encoded by the encoder that was chosen, wherever that is
/// one that the platform has, and by libx264 otherwise.
pub proof fn the_chosen_encoder_encodes(
    backend: Backend,
    cfg: ConfigView,
    target: CaptureTarget,
    encoder: Seq<char>,
    out: Seq<char>,
)
    ensures
        backend.encoders().contains(encoder) ==> exists|k: int|
            encodes_with(backend.segment_args_of(cfg, target, encoder, out), k, encoder),
        !backend.encoders().contains(encoder) ==> exists|k: int|
            encodes_with(backend.segment_args_of(cfg, target, encoder, out), k, "libx264"@),
        backend is MacOs ==> backend.encoders() == seq!["h264_videotoolbox"@],
        backend is Windows ==> backend.encoders() == seq!["h264_nvenc"@, "h264_amf"@, "h264_qsv"@],
{
    reveal_strlit("h264_videotoolbox");
    reveal_strlit("h264_nvenc");
    reveal_strlit("h264_amf");
    reveal_strlit("h264_qsv");
    reveal_strlit("libx264");
    assert("h264_videotoolbox"@.len() == 17 && "libx264"@.len() == 7);
    assert("h264_nvenc"@.len() == 10);
    assert("h264_amf"@.len() == 8 && "h264_amf"@[5] == 'a');
    assert("h264_qsv"@.len() == 8 && "h264_qsv"@[5] == 'q');
    let args = backend.segment_args_of(cfg, target, encoder, out);
    let all = backend.encoders();
    let (front, coder) = match backend {
        Backend::MacOs(m) => (
            super::base_args_spec() + macos::video_input(cfg, target) + macos::mic_input(cfg)
                + super::stream_map(cfg.mic() is Some) + macos::output_rate(cfg) + macos::region_crop(target),
            macos::video_encoder(encoder),
        ),
        Backend::Windows(w) => (
            super::base_args_spec() + seq!["-f"@, "lavfi"@, "-i"@, windows::graph(cfg, target, encoder)]
                + windows::mic_input(cfg) + super::stream_map(cfg.mic() is Some),
            windows::video_encoder(encoder),
        ),
    };
    let k = front.len() as int;
    let codec = coder[1];
    let n = encoder_settings(codec).len();
    assert(args =~= front + coder + super::audio_encoder(cfg.mic() is Some) + seq![out]);
    assert(codec == if all.contains(encoder) {
        encoder
    } else {
        "libx264"@
    }) by {
        match backend {
            Backend::MacOs(m) => {
                if encoder == "h264_videotoolbox"@ {
                    assert(all[0] == encoder);
                }
            },
            Backend::Windows(w) => {
                if encoder == "h264_nvenc"@ {
                    assert(all[0] == encoder);
                } else if encoder == "h264_amf"@ {
                    assert(all[1] == encoder);
                } else if encoder == "h264_qsv"@ {
                    assert(all[2] == encoder);
                }
            },
        }
    }
    assert(coder =~= seq!["-c:v"@, codec] + encoder_settings(codec));
    assert(args.subrange(k + 2, k + 2 + n) =~= encoder_settings(codec));
    assert(encodes_with(args, k, codec));
}

/// Every recording overwrites its file without asking, and reports its progress,
/// which is how a recording that captures nothing is noticed.
pub proof fn recordings_report_their_progress(
    backend: Backend,
    cfg: ConfigView,
    target: CaptureTarget,
    encoder: Seq<char>,
    out: Seq<char>,
)
    ensures
        ({
            let args = backend.segment_args_of(cfg, target, encoder, out);
            &&& args.len() > 6
            &&& args.take(6) == seq!["-hide_banner"@, "-loglevel"@, "warning"@, "-progress"@, "pipe:1"@, "-y"@]
            &&& args.last() == out
        }),
{
    let args = backend.segment_args_of(cfg, target, encoder, out);
    assert(args.take(6) =~= seq!["-hide_banner"@, "-loglevel"@, "warning"@, "-progress"@, "pipe:1"@, "-y"@]);
}

/// What each platform calls ffmpeg, and how it is asked for its devices.
pub proof fn platforms_know_their_ffmpeg(listing: Seq<char>)
    ensures
        MacOs.filenames() == seq!["ffmpeg"@],
        Windows.filenames() == seq!["ffmpeg.exe"@],
        Windows.listing_args() == seq![
            "-hide_banner"@,
            "-list_devices"@,
            "true"@,
            "-f"@,
            "dshow"@,
            "-i"@,
            "dummy"@,
        ],
        Windows.screens_in(listing).len() == 0,
{
}

/// What the contracts speak of is every device, with its identifier and its label.
pub proof fn devices_are_seen_whole(screens: Seq<ScreenDevice>, inputs: Seq<AudioDevice>, i: int)
    ensures
        screen_views(screens).len() == screens.len(),
        audio_views(inputs).len() == inputs.len(),
        0 <= i < screens.len() ==> screen_views(screens)[i] == (screens[i].id, screens[i].label@),
        0 <= i < inputs.len() ==> audio_views(inputs)[i] == (inputs[i].id@, inputs[i].label@),
{
}

} // verus!
