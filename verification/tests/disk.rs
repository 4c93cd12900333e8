use recap::disk::{
    almost_full, df_free_bytes, drive_free_bytes, free_space_script, human_bytes, parse_df_kb,
    session_writes, space_check, MIN_FREE_TO_CONTINUE, MIN_FREE_TO_START,
};
use recap::recorder::{Recorder, Status};

#[test]
fn df_available_column_survives_spaces_in_the_other_fields() {
    let normal = "Filesystem 1024-blocks      Used Available Capacity Mounted on\n\
                  /dev/disk3s5  971350180 123456789 400000000      24% /\n";
    assert_eq!(parse_df_kb(normal), Some(400000000));

    let spacey = "Filesystem 1024-blocks Used Available Capacity Mounted on\n\
                  map auto_home 100 40 60 40% /Volumes/My Big Disk\n";
    assert_eq!(parse_df_kb(spacey), Some(60));

    assert_eq!(parse_df_kb(""), None);
    assert_eq!(parse_df_kb("df: /nope: No such file or directory\n"), None);
}

#[test]
fn a_start_is_refused_only_when_we_know_the_disk_is_too_small() {
    assert!(space_check(Some(MIN_FREE_TO_START), MIN_FREE_TO_START, "/out").is_ok());
    assert!(space_check(None, MIN_FREE_TO_START, "/out").is_ok());

    let err = space_check(Some(300 * 1024 * 1024), MIN_FREE_TO_START, "/out").unwrap_err();
    assert!(err.contains("/out"), "{err}");
    assert!(err.contains("300 MB"), "{err}");
    assert!(err.contains("1.0 GB"), "{err}");
    assert_eq!(
        err,
        "Not enough free space in /out \u{2014} 300 MB left, 1.0 GB needed to start. \
         Free some space or choose another folder."
    );
}

#[test]
fn sizes_read_as_people_write_them() {
    const GB: u64 = 1024 * 1024 * 1024;
    for n in [
        0,
        1,
        1024 * 1024 - 1,
        1024 * 1024,
        GB - 1,
        GB,
        GB + GB / 4,
        GB + GB / 2,
        GB + 3 * (GB / 4),
        2 * GB + GB / 4,
        10 * GB - 1,
        123456789012345,
        (1 << 53) + 1,
        u64::MAX,
    ] {
        let expected = if n >= GB {
            format!("{:.1} GB", n as f64 / GB as f64)
        } else {
            format!("{} MB", n / (1024 * 1024))
        };
        assert_eq!(human_bytes(n), expected);
    }
}

#[test]
fn free_space_follows_the_tools() {
    let out = "Filesystem 1024-blocks Used Available Capacity Mounted on\n/dev/a 1 1 60 1% /\n";
    assert_eq!(df_free_bytes(true, out), Some(60 * 1024));
    assert_eq!(df_free_bytes(false, out), None);
    let huge = "head\n/dev/a 1 1 18446744073709551615 1% /\n";
    assert_eq!(df_free_bytes(true, huge), Some(u64::MAX));
    assert_eq!(drive_free_bytes(true, " 12345\r\n"), Some(12345));
    assert_eq!(drive_free_bytes(true, "\r\n"), None);
    assert_eq!(drive_free_bytes(false, "12345"), None);
    assert_eq!(
        free_space_script("C:\\it's"),
        "(Get-Item -LiteralPath 'C:\\it''s').PSDrive.Free"
    );
}

#[test]
fn a_capacity_without_a_number_before_it_is_passed_over() {
    assert_eq!(parse_df_kb("head\n40% a\nx y 7 9%\n"), Some(7));
    assert_eq!(parse_df_kb("head\nx y 9%\n"), None);
}

#[test]
fn the_watchdog_speaks_up_below_its_limit() {
    assert_eq!(almost_full(None), None);
    assert_eq!(almost_full(Some(MIN_FREE_TO_CONTINUE)), None);
    assert_eq!(
        almost_full(Some(MIN_FREE_TO_CONTINUE - 1)),
        Some(
            "Disk almost full (255 MB left) \u{2014} stopping now so the recording stays playable."
                .to_string()
        )
    );
}

#[test]
fn only_a_running_session_is_watched() {
    let mut r = Recorder::new();
    assert!(!session_writes(&r, 0));
    r.status = Status::Paused;
    assert!(session_writes(&r, 0));
    assert!(!session_writes(&r, 1));
}
