use recap::cli::{
    maybe_run, ocr_output, parse, run, scroll_note, scroll_output, shot_output, Invocation, Job, Verb, USAGE,
};

fn args(list: &[&str]) -> Vec<String> {
    list.iter().map(|a| a.to_string()).collect()
}

fn refused(list: &[&str]) -> String {
    match parse(&args(list)) {
        Ok(_) => panic!("must be refused"),
        Err(e) => e,
    }
}

#[test]
fn the_first_argument_decides() {
    assert_eq!(maybe_run(&args(&[])), Invocation::Window);
    assert_eq!(maybe_run(&args(&["shot", "a.png"])), Invocation::Run(Verb::Shot));
    assert_eq!(maybe_run(&args(&["ocr"])), Invocation::Run(Verb::Ocr));
    assert_eq!(maybe_run(&args(&["scroll"])), Invocation::Run(Verb::Scroll));
    for help in ["--help", "-h", "help"] {
        assert_eq!(maybe_run(&args(&[help])), Invocation::Help);
    }
    assert_eq!(maybe_run(&args(&["--flag"])), Invocation::Window);
}

#[test]
fn options_are_read_in_any_order() {
    let o = match parse(&args(&[
        "out.png", "--json", "--display", "2", "--region", " 1, -2 ,801,+3", "--step", "7", "--max", "9", "x",
    ])) {
        Ok(o) => o,
        Err(e) => panic!("{e}"),
    };
    assert_eq!((o.display, o.step, o.max_frames, o.json), (2, 7, 9, true));
    assert_eq!(o.region, Some((1, 0, 800, 2)));
    assert_eq!(o.positional, vec!["out.png", "x"]);
    let d = match parse(&Vec::new()) {
        Ok(o) => o,
        Err(e) => panic!("{e}"),
    };
    assert_eq!((d.display, d.step, d.max_frames, d.region, d.json), (0, 0, 40, None, false));
    assert!(d.positional.is_empty());
}

#[test]
fn every_bad_option_has_its_message() {
    assert_eq!(refused(&["--display"]), "--display needs a number");
    assert_eq!(refused(&["--display", "-1"]), "--display needs a number");
    assert_eq!(refused(&["--step", "x"]), "--step needs a number");
    assert_eq!(refused(&["--step", "4294967296"]), "--step needs a number");
    assert_eq!(refused(&["--max"]), "--max needs a number");
    assert_eq!(refused(&["--region"]), "--region needs X,Y,W,H");
    assert_eq!(refused(&["--region", "1,2,x,4"]), "--region wants numbers");
    assert_eq!(refused(&["--region", ""]), "--region wants numbers");
    assert_eq!(refused(&["--region", "1,2,3"]), "--region wants exactly X,Y,W,H");
    assert_eq!(refused(&["--region", "1,2,0,4"]), "--region width and height must be positive");
    assert_eq!(refused(&["--verbose"]), "unknown flag `--verbose`");
    assert_eq!(refused(&["-"]), "unknown flag `-`");
}

#[test]
fn numbers_beyond_thirty_two_bits_wrap() {
    let o = match parse(&args(&["--region", "4294967297,2147483648,4294967306,4294967296"])) {
        Ok(o) => o,
        Err(e) => panic!("{e}"),
    };
    assert_eq!(o.region, Some((1, 0, 10, 2)));
}

#[test]
fn each_verb_gets_what_it_needs() {
    match run(Verb::Shot, &args(&["--display", "1", "a.png"])) {
        Ok(Job::Shot(o, out)) => assert_eq!((o.display, out.as_str()), (1, "a.png")),
        _ => panic!("must plan a shot"),
    }
    match run(Verb::Scroll, &args(&["--region", "0,0,800,600", "--max", "1000", "a.png"])) {
        Ok(Job::Scroll(o, out)) => {
            assert_eq!((o.region, o.max_frames, o.settle_ms), ((0, 0, 800, 600), 200, 550));
            assert_eq!((o.display, o.step, out.as_str()), (0, 0, "a.png"));
        }
        _ => panic!("must plan a scroll capture"),
    }
    match run(Verb::Ocr, &args(&["--json"])) {
        Ok(Job::Ocr(o, image)) => assert!(o.json && image.is_none()),
        _ => panic!("must plan a text grab"),
    }
    match run(Verb::Ocr, &args(&["a.png"])) {
        Ok(Job::Ocr(_, image)) => assert_eq!(image, Some("a.png".to_string())),
        _ => panic!("must plan a text grab"),
    }
    assert_eq!(run(Verb::Shot, &args(&[])).err(), Some(format!("shot needs an output path\n\n{USAGE}")));
    assert_eq!(run(Verb::Scroll, &args(&[])).err(), Some(format!("scroll needs an output path\n\n{USAGE}")));
    assert_eq!(
        run(Verb::Scroll, &args(&["a.png"])).err(),
        Some("scroll needs --region X,Y,W,H".to_string())
    );
    assert_eq!(run(Verb::Ocr, &args(&["--nope"])).err(), Some("unknown flag `--nope`".to_string()));
}

#[test]
fn results_are_printed_on_lines() {
    assert_eq!(shot_output("/a.png"), "/a.png\n");
    assert_eq!(scroll_output("/a.png", 3, 800, 1500, ""), "/a.png\n3 frames, 800x1500\n");
    assert_eq!(ocr_output(""), "");
    assert_eq!(ocr_output("a\nb"), "a\nb\n");
    assert!(USAGE.starts_with("recap \u{2014} screen capture") && USAGE.ends_with("app starts.\n"));
}

#[test]
fn a_capture_that_was_cut_off_says_so() {
    assert_eq!(scroll_output("/a.png", 3, 800, 1500, scroll_note(true)), "/a.png\n3 frames, 800x1500\n");
    assert_eq!(
        scroll_output("/a.png", 40, 800, 9000, scroll_note(false)),
        "/a.png\n40 frames, 800x9000 (stopped before the end of the page)\n"
    );
}
