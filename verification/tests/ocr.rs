use recap::capture::Platform;
use recap::double::{is_more, subtract};
use recap::ocr::{assemble, can_recognize, observed_line, recognize, Observation, OcrLine, ONE, ROW_SLACK};

fn line(text: &str, x: f64, y: f64) -> OcrLine {
    OcrLine {
        text: text.to_string(),
        confidence_bits: 1.0f32.to_bits(),
        x: x.to_bits(),
        y: y.to_bits(),
        width: 0.2f64.to_bits(),
        height: 0.02f64.to_bits(),
    }
}

fn seen(text: Option<&str>, x: f64, y: f64, width: f64, height: f64) -> Observation {
    Observation {
        text: text.map(|t| t.to_string()),
        confidence_bits: 7,
        x: x.to_bits(),
        y: y.to_bits(),
        width: width.to_bits(),
        height: height.to_bits(),
    }
}

#[test]
fn lines_are_sorted_top_to_bottom() {
    let r = assemble(vec![line("third", 0.1, 0.9), line("first", 0.1, 0.1), line("second", 0.1, 0.5)]);
    assert_eq!(r.text, "first\nsecond\nthird");
}

#[test]
fn columns_on_one_row_read_left_to_right() {
    let r = assemble(vec![line("right", 0.7, 0.502), line("left", 0.1, 0.5)]);
    assert_eq!(r.text, "left\nright");
}

#[test]
fn a_clearly_lower_line_stays_below_even_when_further_left() {
    let r = assemble(vec![line("below", 0.05, 0.60), line("above", 0.80, 0.50)]);
    assert_eq!(r.text, "above\nbelow");
}

#[test]
fn empty_input_produces_empty_text_not_a_stray_newline() {
    let r = assemble(vec![]);
    assert_eq!(r.text, "");
    assert!(r.lines.is_empty());
}

#[test]
fn level_lines_keep_their_order() {
    let r = assemble(vec![line("a", 0.1, 0.5), line("b", 0.1, 0.5), line("c", 0.1, 0.5)]);
    assert_eq!(r.text, "a\nb\nc");
}

#[test]
fn rows_and_columns_together() {
    let r = assemble(vec![
        line("d", 0.6, 0.30),
        line("b", 0.6, 0.101),
        line("c", 0.1, 0.301),
        line("a", 0.1, 0.10),
    ]);
    assert_eq!(r.text, "a\nb\nc\nd");
}

#[test]
fn the_reach_of_a_row_is_half_the_lower_height_or_a_little() {
    // Half the height of 0.02 is 0.01.
    let near = assemble(vec![line("right", 0.7, 0.5), line("left", 0.1, 0.509)]);
    assert_eq!(near.text, "left\nright");
    let far = assemble(vec![line("right", 0.7, 0.5), line("left", 0.1, 0.5101)]);
    assert_eq!(far.text, "right\nleft");
    // Flat lines still reach 0.004.
    let flat = |text: &str, x: f64, y: f64| OcrLine { height: 0.0f64.to_bits(), ..line(text, x, y) };
    let near = assemble(vec![flat("right", 0.7, 0.5), flat("left", 0.1, 0.5039)]);
    assert_eq!(near.text, "left\nright");
    let far = assemble(vec![flat("right", 0.7, 0.5), flat("left", 0.1, 0.5041)]);
    assert_eq!(far.text, "right\nleft");
}

#[test]
fn boxes_are_turned_over_and_clamped() {
    let l = observed_line(seen(Some("x"), -0.25, 0.25, 1.5, 0.5)).unwrap();
    assert_eq!((l.x, l.y, l.width, l.height), (0, 0.25f64.to_bits(), ONE, 0.5f64.to_bits()));
    assert_eq!(l.confidence_bits, 7);
    let low = observed_line(seen(Some("x"), 0.5, -0.25, 0.5, 0.125)).unwrap();
    assert_eq!(low.y, ONE);
    let high = observed_line(seen(Some("x"), 0.5, 1.0, 0.5, 0.125)).unwrap();
    assert_eq!(high.y, 0);
    assert!(observed_line(seen(Some(" \t"), 0.0, 0.0, 0.0, 0.0)).is_none());
    assert!(observed_line(seen(None, 0.0, 0.0, 0.0, 0.0)).is_none());
}

#[test]
fn recognition_goes_from_boxes_to_text() {
    let r = recognize(Ok(vec![
        seen(Some("below"), 0.1, 0.1, 0.2, 0.02),
        seen(None, 0.1, 0.5, 0.2, 0.02),
        seen(Some("above"), 0.1, 0.9, 0.2, 0.02),
    ]));
    match r {
        Ok(r) => assert_eq!(r.text, "above\nbelow"),
        Err(e) => panic!("{e}"),
    }
    match recognize(Err("no model")) {
        Ok(_) => panic!("must fail"),
        Err(e) => assert_eq!(e, "text recognition failed: no model"),
    }
}

#[test]
fn text_grab_says_what_is_missing() {
    assert!(can_recognize(Platform::MacOs, true, true).is_ok());
    assert_eq!(
        can_recognize(Platform::Windows, true, true),
        Err("Text grab is macOS-only so far.".to_string())
    );
    assert_eq!(
        can_recognize(Platform::MacOs, false, true),
        Err("image to read text from is missing".to_string())
    );
    assert_eq!(
        can_recognize(Platform::MacOs, true, false),
        Err("path is not valid UTF-8".to_string())
    );
}

fn assert_same(bits: u64, v: f64) {
    if v.is_nan() {
        assert!(f64::from_bits(bits).is_nan());
    } else {
        assert_eq!(bits, v.to_bits());
    }
}

/// Numbers of every size, and the patterns at the edges.
fn samples() -> Vec<u64> {
    let mut out = vec![
        0,
        1,
        0xf_ffff_ffff_ffff,
        0x10_0000_0000_0000,
        0x1f_ffff_ffff_ffff,
        0x20_0000_0000_0000,
        0x3fef_ffff_ffff_ffff,
        ONE,
        ONE + 1,
        ROW_SLACK,
        0x7fef_ffff_ffff_ffff,
        0x7ff0_0000_0000_0000,
        0x7ff8_0000_0000_0001,
    ];
    let mut seed: u64 = 88172645463325252;
    for i in 0..300u64 {
        seed ^= seed << 13;
        seed ^= seed >> 7;
        seed ^= seed << 17;
        let exponent = if i % 3 == 0 { (seed >> 52) % 2047 } else { 950 + i % 80 };
        out.push((exponent << 52) | (seed % (1 << 52)));
        out.push((exponent << 52) | (seed % 4));
    }
    let negative: Vec<u64> = out.iter().map(|b| b | (1 << 63)).collect();
    out.extend(negative);
    out
}

#[test]
fn numbers_are_compared_and_subtracted_as_the_machine_does() {
    assert_eq!((f64::from_bits(ONE), f64::from_bits(ROW_SLACK)), (1.0, 0.004));
    let all = samples();
    for &a in &all {
        for &b in &all {
            let (x, y) = (f64::from_bits(a), f64::from_bits(b));
            assert_same(subtract(a, b), x - y);
            assert_eq!(is_more(a, b), x > y);
        }
    }
    assert_eq!(subtract(0.3f64.to_bits(), 0.1f64.to_bits()), (0.3f64 - 0.1).to_bits());
    assert_eq!(subtract(f64::MAX.to_bits(), (-f64::MAX).to_bits()), f64::INFINITY.to_bits());
}

#[test]
fn boxes_are_rounded_as_the_machine_does() {
    let all = samples();
    for (i, &y) in all.iter().enumerate() {
        let h = all[(i * 7 + 3) % all.len()];
        let (y, h) = (f64::from_bits(y), f64::from_bits(h));
        let l = observed_line(seen(Some("x"), y, y, h, h)).unwrap();
        assert_same(l.x, y.clamp(0.0, 1.0));
        assert_same(l.y, (1.0 - y - h).clamp(0.0, 1.0));
        assert_same(l.width, h.clamp(0.0, 1.0));
        assert_same(l.height, h.clamp(0.0, 1.0));
    }
    let l = observed_line(seen(Some("x"), 0.0, 0.1, 0.2, 0.2)).unwrap();
    assert_eq!(f64::from_bits(l.y), 1.0 - 0.1 - 0.2);
}

#[test]
fn pairs_are_ordered_as_the_machine_does() {
    let all = samples();
    let n = all.len();
    let pick = |i: usize| f64::from_bits(all[i % n]);
    let mut swapped = 0;
    for i in 0..20_000 {
        let (ay, by) = (pick(i), if i % 2 == 0 { pick(i) + 0.005 } else { pick(i * 31 + 7) });
        let (ah, bh) = (pick(i * 5 + 1), pick(i * 11 + 2));
        let (ax, bx) = (pick(i * 3), pick(i * 13 + 5));
        let same_row = (ay - by).abs() < (ah.min(bh) * 0.5).max(0.004);
        let after = if same_row { ax > bx } else { ay > by };
        let of = |text: &str, x: f64, y: f64, h: f64| OcrLine {
            x: x.to_bits(),
            y: y.to_bits(),
            height: h.to_bits(),
            ..line(text, 0.0, 0.0)
        };
        let r = assemble(vec![of("a", ax, ay, ah), of("b", bx, by, bh)]);
        assert_eq!(r.text, if after { "b\na" } else { "a\nb" });
        swapped += after as usize;
    }
    assert!(swapped > 1000);
}
