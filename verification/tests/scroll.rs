use image::{ImageFormat, Rgba, RgbaImage};
use recap::frame::Frame;
use recap::scroll::{
    can_plan, crop_capture, crop_decoded, crop_frame, find_shift, looks_identical, plan_capture,
    row_distance, signatures, stitch, Next, ScrollCapture, ScrollOptions, ROW_TOLERANCE, SAMPLES,
};
use std::io::Cursor;

fn frame(img: &RgbaImage) -> Frame {
    match Frame::from_rgba(img.width(), img.height(), img.as_raw().clone()) {
        Some(f) => f,
        None => panic!("a picture holds its pixels"),
    }
}

fn page(h: u32) -> Frame {
    let mut img = RgbaImage::new(200, h);
    for y in 0..h {
        let v = ((y * 7) % 251) as u8;
        for x in 0..200 {
            img.put_pixel(x, y, Rgba([v, v.wrapping_add(40), v ^ 0x5a, 255]));
        }
    }
    frame(&img)
}

fn window(src: &Frame, top: u32, h: u32) -> Frame {
    match crop_frame(src, (0, top, src.width(), h)) {
        Ok(f) => f,
        Err(e) => panic!("{e}"),
    }
}

#[test]
fn shift_is_recovered_exactly() {
    let p = page(1200);
    let a = signatures(&window(&p, 0, 400));
    let b = signatures(&window(&p, 137, 400));
    let (shift, _) = find_shift(&a, &b, 100).expect("frames should align");
    assert_eq!(shift, 137);
}

#[test]
fn an_unmoved_page_is_detected_rather_than_aligned() {
    let p = page(1200);
    let a = signatures(&window(&p, 300, 400));
    let b = signatures(&window(&p, 300, 400));
    assert!(looks_identical(&a, &b));
}

#[test]
fn unrelated_frames_do_not_produce_a_confident_alignment() {
    let a = signatures(&frame(&RgbaImage::from_pixel(200, 400, Rgba([0, 0, 0, 255]))));
    let mut noise = RgbaImage::new(200, 400);
    for y in 0..400u32 {
        for x in 0..200u32 {
            let v = ((x * 31 + y * 97) % 255) as u8;
            noise.put_pixel(x, y, Rgba([v, v, v, 255]));
        }
    }
    assert!(find_shift(&a, &signatures(&frame(&noise)), 100).is_none());
}

#[test]
fn stitching_reassembles_the_original_page() {
    let p = page(1000);
    let h = 400;
    let frames = vec![window(&p, 0, h), window(&p, 250, h), window(&p, 500, h)];
    let out = stitch(&frames, &[250, 250]);
    assert_eq!(out.height(), 900);
    for y in 0..900u32 {
        assert_eq!(out.get_pixel(10, y), p.get_pixel(10, y), "row {y} differs");
    }
}

#[test]
fn pixels_go_in_and_come_out() {
    let bytes: Vec<u8> = (0..24).collect();
    let f = match Frame::from_rgba(3, 2, bytes.clone()) {
        Some(f) => f,
        None => panic!("six pixels"),
    };
    assert_eq!(f.dimensions(), (3, 2));
    assert_eq!(f.get_pixel(1, 1), (16, 17, 18, 19));
    assert_eq!(f.to_rgba(), bytes);
    assert!(Frame::from_rgba(3, 2, vec![0; 23]).is_none());
    assert!(Frame::from_rgba(3, 2, vec![0; 25]).is_none());
}

#[test]
fn signatures_sample_brightness_across_the_row() {
    let mut img = RgbaImage::new(48, 1);
    for x in 0..48u32 {
        img.put_pixel(x, 0, Rgba([x as u8, x as u8, x as u8, 0]));
    }
    let s = signatures(&frame(&img));
    assert_eq!(s.len(), 1);
    for i in 0..SAMPLES {
        assert_eq!(s[0][i], i as u8);
    }
    let one = signatures(&frame(&RgbaImage::from_pixel(1, 1, Rgba([100, 50, 200, 9]))));
    assert_eq!(one[0], [81u8; SAMPLES]);
    assert_eq!(row_distance(&s[0], &[0; SAMPLES]), 47 << 28);
}

/// The library's whole units of 2^-64 as a single-precision number.
fn as_f32(units: u128) -> f32 {
    (units as f64 / (1u128 << 64) as f64) as f32
}

#[test]
fn the_first_of_equal_alignments_wins_and_tolerance_is_inclusive() {
    let flat = |v: u8, n: usize| vec![[v; SAMPLES]; n];
    let (shift, cost) = find_shift(&flat(10, 30), &flat(16, 30), 10).unwrap();
    assert_eq!((shift, cost), (1, ROW_TOLERANCE));
    assert_eq!(as_f32(cost), 6.0);
    assert!(find_shift(&flat(10, 30), &flat(17, 30), 10).is_none());
    assert!(find_shift(&flat(10, 30), &flat(10, 30), 30).is_none());
    assert!(looks_identical(&flat(10, 30), &flat(13, 30)));
    assert!(!looks_identical(&flat(10, 30), &flat(14, 30)));
    assert!(!looks_identical(&flat(10, 30), &flat(10, 29)));
    assert!(looks_identical(&[], &[]));
}

fn row_mean(a: &[u8; SAMPLES], b: &[u8; SAMPLES]) -> f32 {
    let sum: u32 = (0..SAMPLES).map(|i| a[i].abs_diff(b[i]) as u32).sum();
    sum as f32 / SAMPLES as f32
}

/// The alignment, computed on the machine's own single-precision numbers.
fn aligned(a: &[[u8; SAMPLES]], b: &[[u8; SAMPLES]], min_overlap: usize) -> Option<(usize, f32)> {
    let h = a.len().min(b.len());
    let mut best: Option<(usize, f32)> = None;
    for shift in 1..=h.checked_sub(min_overlap)? {
        let mut sum = 0.0f32;
        let mut n = 0u32;
        for y in (0..h - shift).step_by(3) {
            sum += row_mean(&a[y + shift], &b[y]);
            n += 1;
        }
        let cost = sum / n.max(1) as f32;
        if best.map_or(true, |(_, c)| cost < c) {
            best = Some((shift, cost));
        }
    }
    best.filter(|&(_, cost)| cost <= 6.0)
}

#[test]
fn scores_round_as_the_machine_does() {
    let mut seed = 12345u32;
    let mut random = move |limit: u32| {
        seed = seed.wrapping_mul(1664525).wrapping_add(1013904223);
        (seed >> 8) % limit
    };
    for round in 0..60 {
        let h = 1 + random(90) as usize;
        let spread = 1 + random(if round % 3 == 0 { 3 } else { 20 });
        let mut rows = |n: usize| -> Vec<[u8; SAMPLES]> {
            let mut v = vec![[0u8; SAMPLES]; n];
            for row in v.iter_mut() {
                for s in row.iter_mut() {
                    *s = 100 + random(spread) as u8;
                }
            }
            v
        };
        let (a, b) = (rows(h), rows(h));
        assert_eq!(row_distance(&a[0], &b[0]) as f32 / 536870912.0, row_mean(&a[0], &b[0]));
        for min_overlap in [0, 1, h / 2, h] {
            let found = find_shift(&a, &b, min_overlap).map(|(shift, cost)| (shift, as_f32(cost)));
            assert_eq!(found, if h <= min_overlap { None } else { aligned(&a, &b, min_overlap) });
        }
    }
}

#[test]
fn rows_that_no_frame_fills_stay_blank() {
    let p = page(10);
    let out = stitch(&[window(&p, 0, 4)], &[2]);
    assert_eq!(out.dimensions(), (200, 6));
    assert_eq!(out.get_pixel(0, 3), p.get_pixel(0, 3));
    assert_eq!(out.get_pixel(0, 5), (0, 0, 0, 0));
    let same = stitch(&[window(&p, 0, 4), window(&p, 4, 4)], &[0]);
    assert_eq!(same.to_rgba(), window(&p, 0, 4).to_rgba());
}

#[test]
fn a_region_is_cut_out_of_a_screenshot() {
    let mut img = RgbaImage::new(6, 5);
    for y in 0..5u32 {
        for x in 0..6u32 {
            img.put_pixel(x, y, Rgba([x as u8, y as u8, 7, 255]));
        }
    }
    let mut png: Vec<u8> = Vec::new();
    img.write_to(&mut Cursor::new(&mut png), ImageFormat::Png).unwrap();
    match crop_capture(&png, (4, 1, 10, 2)) {
        Ok(f) => {
            assert_eq!(f.dimensions(), (2, 2));
            assert_eq!(f.get_pixel(0, 0), (4, 1, 7, 255));
            assert_eq!(f.get_pixel(1, 1), (5, 2, 7, 255));
        }
        Err(e) => panic!("{e}"),
    }
    assert_eq!(crop_capture(&png, (6, 0, 1, 1)).err(), Some("region is outside the display".to_string()));
    let e = crop_capture(b"not a picture", (0, 0, 1, 1)).err().unwrap();
    assert!(e.starts_with("cannot read capture: "), "{e}");
    assert_eq!(
        crop_decoded(Err("why".to_string()), (0, 0, 1, 1)).err(),
        Some("cannot read capture: why".to_string())
    );
}

#[test]
fn a_capture_is_planned_from_its_region() {
    let d = ScrollOptions::default();
    assert_eq!((d.display, d.region, d.step, d.max_frames, d.settle_ms), (0, (0, 0, 800, 600), 0, 40, 550));
    let plan = plan_capture(&d).unwrap();
    assert_eq!((plan.pointer, plan.delta, plan.min_overlap), ((400, 300), -400, 200));
    let opts = |region, step| ScrollOptions { region, step, ..ScrollOptions::default() };
    assert_eq!(plan_capture(&opts((10, 20, 32, 64), 5)).unwrap().delta, -20);
    assert_eq!(plan_capture(&opts((10, 20, 32, 64), 500)).unwrap().delta, -44);
    assert_eq!(plan_capture(&opts((0, 0, 32, 64), 0)).unwrap().delta, -42);
    assert_eq!(plan_capture(&opts((0, 0, 32, 64), 0)).unwrap().min_overlap, 24);
    assert_eq!(
        plan_capture(&opts((0, 0, 31, 64), 0)),
        Err("region is too small to scroll-capture".to_string())
    );
    assert!(can_plan(&d));
    assert!(!can_plan(&opts((u32::MAX, 0, 32, 64), 0)));
    assert!(!can_plan(&opts((0, 0, 32, u32::MAX), 0)));
}

#[test]
fn a_capture_runs_to_the_end_of_the_page() {
    let p = page(700);
    let mut c = ScrollCapture::new(133, 40);
    assert!(matches!(c.accept(window(&p, 0, 400)), Ok(Next::Scroll)));
    assert!(matches!(c.accept(window(&p, 150, 400)), Ok(Next::Scroll)));
    assert!(matches!(c.accept(window(&p, 300, 400)), Ok(Next::Scroll)));
    assert!(matches!(c.accept(window(&p, 300, 400)), Ok(Next::Stop)));
    assert_eq!(c.frames(), 3);
    assert!(c.wants_frame() && c.can_finish());
    match c.finish() {
        Ok((picture, frames, reached_end)) => {
            assert_eq!((frames, reached_end), (3, true));
            assert_eq!(picture.to_rgba(), p.to_rgba());
        }
        Err(e) => panic!("{e}"),
    }
}

#[test]
fn a_capture_stops_where_nothing_lines_up() {
    let p = page(700);
    let mut c = ScrollCapture::new(133, 40);
    assert_eq!(c.frames(), 0);
    c.accept(window(&p, 0, 400)).unwrap();
    let white = || frame(&RgbaImage::from_pixel(200, 400, Rgba([255, 255, 255, 255])));
    assert_eq!(
        c.accept(white()).err(),
        Some("the region didn't scroll \u{2014} is the pointer over a scrollable area?".to_string())
    );
    c.accept(window(&p, 150, 400)).unwrap();
    assert!(matches!(c.accept(white()), Ok(Next::Stop)));
    match c.finish() {
        Ok((picture, frames, reached_end)) => {
            assert_eq!((picture.height(), frames, reached_end), (550, 2, false));
        }
        Err(e) => panic!("{e}"),
    }
    assert_eq!(ScrollCapture::new(10, 40).finish().err(), Some("captured nothing".to_string()));
}

#[test]
fn a_capture_takes_no_more_frames_than_it_may() {
    let p = page(700);
    let mut c = ScrollCapture::new(133, 2);
    assert!(c.wants_frame());
    c.accept(window(&p, 0, 400)).unwrap();
    assert!(c.wants_frame());
    c.accept(window(&p, 150, 400)).unwrap();
    assert!(!c.wants_frame());
    assert!(!ScrollCapture::new(133, 0).wants_frame());
}
