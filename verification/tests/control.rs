use fw_lights::daemon::{
    charger_placement, parse_request, read_offset, throttle, PlayArgs, Request, Side,
};

fn words<'a>(line: &'a str, request: Request) -> (&'a str, &'a str, PlayArgs) {
    match request {
        Request::Play { animation, display, args } => {
            (&line[animation.0..animation.1], &line[display.0..display.1], args)
        }
        _ => panic!("a request to play was expected"),
    }
}

fn offset(text: &str) -> Option<i8> {
    read_offset(text.as_bytes(), 0, text.len())
}

#[test]
fn charger_request_is_one_word() {
    assert_eq!(parse_request(b"charger\n"), Request::Charger);
    assert_eq!(parse_request(b"  charger \r\n"), Request::Charger);
    assert_eq!(parse_request(b"charger now\n"), Request::Unknown);
    assert_eq!(parse_request(b"Charger\n"), Request::Unknown);
    assert_eq!(parse_request(b"chargers\n"), Request::Unknown);
}

#[test]
fn play_request_names_animation_and_display() {
    let line = "play glow at left\n";
    assert_eq!(words(line, parse_request(line.as_bytes())), ("glow", "left", PlayArgs::Default));
    let line = "\tplay  wave   at right";
    assert_eq!(words(line, parse_request(line.as_bytes())), ("wave", "right", PlayArgs::Default));
}

#[test]
fn play_request_takes_an_offset() {
    let line = "play glow at left offset -12\n";
    assert_eq!(
        words(line, parse_request(line.as_bytes())),
        ("glow", "left", PlayArgs::Offset(-12))
    );
    let line = "play glow at left offset +7\n";
    assert_eq!(words(line, parse_request(line.as_bytes())).2, PlayArgs::Offset(7));
    let line = "play glow at left offset 128\n";
    assert_eq!(words(line, parse_request(line.as_bytes())).2, PlayArgs::BadOffset);
    let line = "play glow at left offset x\n";
    assert_eq!(words(line, parse_request(line.as_bytes())).2, PlayArgs::BadOffset);
}

#[test]
fn play_request_rejects_other_arguments() {
    let line = "play glow at left offset\n";
    assert_eq!(words(line, parse_request(line.as_bytes())).2, PlayArgs::BadArgs);
    let line = "play glow at left offset 1 2\n";
    assert_eq!(words(line, parse_request(line.as_bytes())).2, PlayArgs::BadArgs);
    let line = "play glow at left shift 1\n";
    assert_eq!(words(line, parse_request(line.as_bytes())).2, PlayArgs::BadArgs);
    let line = "play glow at left fast\n";
    assert_eq!(words(line, parse_request(line.as_bytes())).2, PlayArgs::BadArgs);
}

#[test]
fn other_lines_are_unknown() {
    assert_eq!(parse_request(b""), Request::Unknown);
    assert_eq!(parse_request(b"\n"), Request::Unknown);
    assert_eq!(parse_request(b"play glow at\n"), Request::Unknown);
    assert_eq!(parse_request(b"play glow on left\n"), Request::Unknown);
    assert_eq!(parse_request(b"stop glow at left\n"), Request::Unknown);
    assert_eq!(parse_request(b"play\n"), Request::Unknown);
}

#[test]
fn offsets_are_decimal_numbers_of_eight_bits() {
    assert_eq!(offset("0"), Some(0));
    assert_eq!(offset("-0"), Some(0));
    assert_eq!(offset("+0"), Some(0));
    assert_eq!(offset("007"), Some(7));
    assert_eq!(offset("127"), Some(127));
    assert_eq!(offset("+127"), Some(127));
    assert_eq!(offset("-128"), Some(-128));
    assert_eq!(offset("-0128"), Some(-128));
    assert_eq!(offset("128"), None);
    assert_eq!(offset("-129"), None);
    assert_eq!(offset("1000"), None);
    assert_eq!(offset("99999999999999999999999"), None);
    assert_eq!(offset(""), None);
    assert_eq!(offset("-"), None);
    assert_eq!(offset("+"), None);
    assert_eq!(offset("--1"), None);
    assert_eq!(offset("+-1"), None);
    assert_eq!(offset("1a"), None);
    assert_eq!(offset("a1"), None);
    assert_eq!(offset("1 "), None);
    assert_eq!(offset("0x10"), None);
    assert_eq!(read_offset(b"ab-45cd", 2, 5), Some(-45));
}

#[test]
fn charger_ports_have_their_place() {
    assert_eq!(charger_placement(0, 0), Some((Side::Right, 14)));
    assert_eq!(charger_placement(1, 0), Some((Side::Right, 24)));
    assert_eq!(charger_placement(2, 0), Some((Side::Left, 24)));
    assert_eq!(charger_placement(3, 0), Some((Side::Left, 14)));
    assert_eq!(charger_placement(4, 0), None);
    assert_eq!(charger_placement(usize::MAX, 0), None);
    assert_eq!(charger_placement(0, -14), Some((Side::Right, 0)));
    assert_eq!(charger_placement(1, -128), Some((Side::Right, -104)));
    assert_eq!(charger_placement(2, 103), Some((Side::Left, 127)));
    assert_eq!(charger_placement(2, 104), Some((Side::Left, 127)));
    assert_eq!(charger_placement(3, 127), Some((Side::Left, 127)));
}

#[test]
fn charger_requests_are_throttled_for_a_second() {
    assert_eq!(throttle(0, 1000), None);
    assert_eq!(throttle(0, 1001), Some(1001));
    assert_eq!(throttle(5000, 5500), None);
    assert_eq!(throttle(5000, 6001), Some(6001));
    assert_eq!(throttle(5000, 4000), None);
    assert_eq!(throttle(u64::MAX, 0), None);
    assert_eq!(throttle(0, u64::MAX), Some(u64::MAX));
}
