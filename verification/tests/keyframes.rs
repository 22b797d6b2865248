use fw_lights::animations::file::{FileAnimation, FrameOptions, ParseError};
use fw_lights::animations::{Frame, FrameData, FrameDuration, GrayFrame, IsFrame};
use fw_lights::proto::BwFrame;

const HEADER: &str = "min_duration = \"10ms\"\n---\n";

fn rows(row: &str, count: usize) -> String {
    let mut text = String::new();
    for _ in 0..count {
        text.push_str(row);
        text.push('\n');
    }
    text
}

fn bw_rows(lit_rows: usize) -> BwFrame {
    let mut frame = BwFrame::new();
    for y in 0..lit_rows {
        for x in 0..9 {
            frame.set(x, y as u8, true);
        }
    }
    frame
}

fn plain(data: FrameData, millis: u64) -> Frame {
    Frame { data, min_duration: FrameDuration::from_millis(millis), fullscreen: false }
}

fn parse(text: &str) -> Result<FileAnimation, ParseError> {
    FileAnimation::from_str(text)
}

fn frames_of(text: &str) -> Vec<Frame> {
    parse(text).unwrap().frames
}

#[test]
fn parser_reads_repeated_frames() {
    let text = format!("{}{}{{repeat=3}}\n{}", HEADER, rows(".........", 34), rows("#########", 34));
    let animation = parse(&text).unwrap();
    assert_eq!(animation.frames.len(), 4);
    assert_eq!(animation.default_offset, 0);
    assert_eq!(animation.frames[0], plain(FrameData::Bw(BwFrame::new()), 10));
    let on = plain(FrameData::Bw(bw_rows(34)), 10);
    assert_eq!(animation.frames[1], on);
    assert_eq!(animation.frames[2], on);
    assert_eq!(animation.frames[3], on);
}

#[test]
fn parser_reads_frames_parted_by_blank_lines() {
    let text = format!("{}{}\n\n{{repeat=3}}\n{}\n", HEADER, rows(".........", 2), rows("#########", 1));
    let frames = frames_of(&text);
    assert_eq!(frames.len(), 4);
    assert_eq!(frames[0], plain(FrameData::Bw(BwFrame::new()), 10));
    assert_eq!(frames[1], plain(FrameData::Bw(bw_rows(1)), 10));
    assert_eq!(frames[3], frames[1]);
}

#[test]
fn parser_rejects_short_line_with_its_number() {
    let text = format!("{}........\n", HEADER);
    assert_eq!(parse(&text).unwrap_err(), ParseError::WrongLineLength { line: 3 });
    let text = format!("{}.........\n..........\n", HEADER);
    assert_eq!(parse(&text).unwrap_err(), ParseError::WrongLineLength { line: 4 });
}

#[test]
fn parser_rejects_unknown_pixel_character() {
    let text = format!("{}.........\n....x....\n", HEADER);
    assert_eq!(parse(&text).unwrap_err(), ParseError::WrongPixel { line: 4 });
    let text = format!("{}#.......0\n", HEADER);
    assert_eq!(parse(&text).unwrap_err(), ParseError::WrongPixel { line: 3 });
}

#[test]
fn parser_needs_the_separator() {
    assert_eq!(parse("").unwrap_err(), ParseError::MissingSeparator);
    assert_eq!(parse("fullscreen = true\n").unwrap_err(), ParseError::MissingSeparator);
    assert_eq!(parse("---\n.........\n").unwrap_err(), ParseError::MissingSeparator);
    assert_eq!(parse("fullscreen = true\n---").unwrap_err(), ParseError::MissingSeparator);
    assert_eq!(parse("fullscreen = true\n ---\n").unwrap_err(), ParseError::MissingSeparator);
}

#[test]
fn parser_accepts_empty_header_and_no_frames() {
    let animation = parse("\n---\n").unwrap();
    assert_eq!(animation.frames.len(), 0);
    assert_eq!(animation.default_offset, 0);
    let animation = parse("\n---\n\n   \n\t\n").unwrap();
    assert_eq!(animation.frames.len(), 0);
}

#[test]
fn parser_reads_header_options() {
    let text = "default_offset = -7\nmin_duration = \"1s 500ms\"\nfullscreen = true\nunknown = [1, 2]\n---\n#########\n";
    let animation = parse(text).unwrap();
    assert_eq!(animation.default_offset, -7);
    assert_eq!(
        animation.frames,
        vec![Frame {
            data: FrameData::Bw(bw_rows(1)),
            min_duration: FrameDuration::from_millis(1500),
            fullscreen: true,
        }]
    );
}

#[test]
fn parser_defaults_header_options() {
    let animation = parse("\n---\n.........\n").unwrap();
    assert_eq!(animation.default_offset, 0);
    assert_eq!(
        animation.frames,
        vec![Frame {
            data: FrameData::Bw(BwFrame::new()),
            min_duration: FrameDuration::zero(),
            fullscreen: false,
        }]
    );
}

#[test]
fn parser_reports_header_errors_with_their_line() {
    assert_eq!(parse("fullscreen = 3\n---\n").unwrap_err(), ParseError::BadHeader { line: 1 });
    assert_eq!(
        parse("default_offset = 1\nfullscreen = \"yes\"\n---\n").unwrap_err(),
        ParseError::BadHeader { line: 2 }
    );
    assert_eq!(
        parse("fullscreen = true\n\nmin_duration = 10\n---\n").unwrap_err(),
        ParseError::BadHeader { line: 3 }
    );
    assert_eq!(parse("default_offset = 128\n---\n").unwrap_err(), ParseError::BadHeader { line: 1 });
    assert_eq!(parse("default_offset = -129\n---\n").unwrap_err(), ParseError::BadHeader { line: 1 });
    assert_eq!(parse("default_offset = 1.5\n---\n").unwrap_err(), ParseError::BadHeader { line: 1 });
    assert_eq!(
        parse("min_duration = \"soon\"\n---\n").unwrap_err(),
        ParseError::BadHeader { line: 1 }
    );
    assert_eq!(parse("fullscreen = \n---\n").unwrap_err(), ParseError::BadHeader { line: 1 });
}

#[test]
fn parser_reports_first_of_two_header_errors() {
    assert_eq!(
        parse("min_duration = 1\nfullscreen = 2\ndefault_offset = true\n---\n").unwrap_err(),
        ParseError::BadHeader { line: 1 }
    );
    assert_eq!(
        parse("fullscreen = true\ndefault_offset = true\nmin_duration = 1\n---\n").unwrap_err(),
        ParseError::BadHeader { line: 2 }
    );
}

#[test]
fn parser_passes_over_unknown_header_keys_of_any_shape() {
    let text = "a.b = 1\nfullscreen = true\nt = { x = 1 }\nf = 1.5\nd = 1979-05-27\n\n[table]\nmin_duration = 3\n\n[[list]]\nfullscreen = 1\n---\n.........\n";
    let animation = parse(text).unwrap();
    assert_eq!(animation.frames.len(), 1);
    assert!(animation.frames[0].fullscreen);
    assert_eq!(animation.frames[0].min_duration, FrameDuration::zero());
}

#[test]
fn parser_finds_known_header_keys_in_any_spelling() {
    assert_eq!(
        parse("a = 1\n\"fullscreen\" = 3\n---\n").unwrap_err(),
        ParseError::BadHeader { line: 2 }
    );
    assert_eq!(
        parse("a = 1\nfullscreen.x = 3\n---\n").unwrap_err(),
        ParseError::BadHeader { line: 2 }
    );
    assert_eq!(
        parse("a = 1\n\n[fullscreen]\nx = 3\n---\n").unwrap_err(),
        ParseError::BadHeader { line: 3 }
    );
    assert_eq!(
        parse("fullscreen = true\nfullscreen = false\n---\n").unwrap_err(),
        ParseError::BadHeader { line: 2 }
    );
    let animation = parse("'default_offset' = 0x10\n---\n").unwrap();
    assert_eq!(animation.default_offset, 16);
}

#[test]
fn option_lines_pass_over_unknown_keys_of_any_shape() {
    let text = format!("{}{{a.b = 1, c = [1], repeat = 2}}\n.........\n", HEADER);
    assert_eq!(frames_of(&text).len(), 2);
}

#[test]
fn parser_accepts_offsets_at_the_limits() {
    assert_eq!(parse("default_offset = 127\n---\n").unwrap().default_offset, 127);
    assert_eq!(parse("default_offset = -128\n---\n").unwrap().default_offset, -128);
}

#[test]
fn parser_reads_durations_with_units() {
    let frames = frames_of("min_duration = \"2min\"\n---\n.........\n");
    assert_eq!(frames[0].min_duration, FrameDuration::from_millis(120_000));
    let frames = frames_of("min_duration = \"1500us\"\n---\n.........\n");
    assert_eq!(frames[0].min_duration, FrameDuration::from_nanos(1_500_000));
    let frames = frames_of("min_duration = \"0\"\n---\n.........\n");
    assert_eq!(frames[0].min_duration, FrameDuration::zero());
    let frames = frames_of("min_duration = \"12345678901ns\"\n---\n.........\n");
    assert_eq!(frames[0].min_duration, FrameDuration::from_nanos(12_345_678_901));
}

#[test]
fn parser_rejects_durations_with_too_many_digits() {
    assert_eq!(
        parse("min_duration = \"123456789012ns\"\n---\n").unwrap_err(),
        ParseError::BadHeader { line: 1 }
    );
    assert_eq!(
        parse("min_duration = \"18446744073709551615s 1000000000ns\"\n---\n").unwrap_err(),
        ParseError::BadHeader { line: 1 }
    );
}

#[test]
fn option_lines_override_one_frame_only() {
    let text = format!(
        "{}{{ fullscreen = true, min_duration = \"1s\" }}\n#########\n\n.........\n",
        HEADER
    );
    let frames = frames_of(&text);
    assert_eq!(frames.len(), 2);
    assert_eq!(
        frames[0],
        Frame {
            data: FrameData::Bw(bw_rows(1)),
            min_duration: FrameDuration::from_millis(1000),
            fullscreen: true,
        }
    );
    assert_eq!(frames[1], plain(FrameData::Bw(BwFrame::new()), 10));
}

#[test]
fn option_lines_add_up_before_a_frame() {
    let text = format!(
        "{}{{repeat=5}}\n\n{{fullscreen=true}}\n{{repeat=2}}\n#########\n",
        HEADER
    );
    let frames = frames_of(&text);
    assert_eq!(frames.len(), 2);
    assert!(frames[0].fullscreen);
    assert_eq!(frames[0].min_duration, FrameDuration::from_millis(10));
    assert_eq!(frames[0], frames[1]);
}

#[test]
fn repeat_zero_drops_the_frame() {
    let text = format!("{}{{repeat=0}}\n#########\n\n.........\n", HEADER);
    let frames = frames_of(&text);
    assert_eq!(frames, vec![plain(FrameData::Bw(BwFrame::new()), 10)]);
}

#[test]
fn option_lines_without_a_frame_are_checked() {
    let text = format!("{}{{repeat=2}}\n", HEADER);
    assert_eq!(frames_of(&text).len(), 0);
    let text = format!("{}.........\n\n{{repeat=true}}\n", HEADER);
    assert_eq!(parse(&text).unwrap_err(), ParseError::BadOptions { line: 5 });
}

#[test]
fn parser_reports_bad_option_lines_with_their_line() {
    let text = format!("{}{{repeat=\"x\"}}\n#########\n", HEADER);
    assert_eq!(parse(&text).unwrap_err(), ParseError::BadOptions { line: 3 });
    let text = format!("{}\n\n{{repeat=-1}}\n#########\n", HEADER);
    assert_eq!(parse(&text).unwrap_err(), ParseError::BadOptions { line: 5 });
    let text = format!("{}{{repeat=1\n#########\n", HEADER);
    assert_eq!(parse(&text).unwrap_err(), ParseError::BadOptions { line: 3 });
    let text = format!("{}{{fullscreen=1}}\n#########\n", HEADER);
    assert_eq!(parse(&text).unwrap_err(), ParseError::BadOptions { line: 3 });
    let text = format!("{}{{min_duration=\"1 parsec\"}}\n#########\n", HEADER);
    assert_eq!(parse(&text).unwrap_err(), ParseError::BadOptions { line: 3 });
    let text = format!("{}{{other=1}}\n#########\n", HEADER);
    assert_eq!(frames_of(&text).len(), 1);
}

#[test]
fn line_numbers_count_the_header_lines() {
    let text = "fullscreen = false\ndefault_offset = 2\n\n---\n.........\n........\n";
    assert_eq!(parse(text).unwrap_err(), ParseError::WrongLineLength { line: 6 });
}

#[test]
fn parser_rejects_a_row_too_many() {
    let text = format!("{}{}", HEADER, rows(".........", 35));
    assert_eq!(parse(&text).unwrap_err(), ParseError::TooManyLines { line: 37 });
    let text = format!("{}{}", HEADER, rows("00 00 00 00 00 00 00 00 00", 35));
    assert_eq!(parse(&text).unwrap_err(), ParseError::TooManyLines { line: 37 });
    let text = format!("{}{}", HEADER, rows(".........", 34));
    assert_eq!(frames_of(&text).len(), 1);
    let text = format!("{}{}\n{}", HEADER, rows(".........", 34), rows(".........", 34));
    assert_eq!(frames_of(&text).len(), 2);
}

#[test]
fn unwritten_rows_stay_off() {
    let text = format!("{}{}", HEADER, rows("#########", 3));
    assert_eq!(frames_of(&text), vec![plain(FrameData::Bw(bw_rows(3)), 10)]);
    let text = format!("{}ff ff ff ff ff ff ff ff ff", HEADER);
    let mut gray = <GrayFrame as IsFrame>::blank();
    for x in 0..9 {
        gray.0[x][0] = 255;
    }
    assert_eq!(frames_of(&text), vec![plain(FrameData::Gray(gray), 10)]);
}

#[test]
fn parser_reads_grayscale_rows() {
    let text = format!("{}00 ff 10 0a A0 7f 01 02 03\n09 08 07 06 05 04 03 02 01\n", HEADER);
    let mut gray = <GrayFrame as IsFrame>::blank();
    let first = [0x00, 0xff, 0x10, 0x0a, 0xa0, 0x7f, 0x01, 0x02, 0x03];
    let second = [9, 8, 7, 6, 5, 4, 3, 2, 1];
    for x in 0..9 {
        gray.0[x][0] = first[x];
        gray.0[x][1] = second[x];
    }
    assert_eq!(frames_of(&text), vec![plain(FrameData::Gray(gray), 10)]);
}

#[test]
fn parser_rejects_bad_grayscale_rows() {
    let text = format!("{}00 00 00 00 00 00 00 00\n", HEADER);
    assert_eq!(parse(&text).unwrap_err(), ParseError::WrongLineLength { line: 3 });
    let text = format!("{}00 00 00 00 00 00 00 00 00 00\n", HEADER);
    assert_eq!(parse(&text).unwrap_err(), ParseError::WrongLineLength { line: 3 });
    let text = format!("{}00 00 00 00 00 00 00 00 0g\n", HEADER);
    assert_eq!(parse(&text).unwrap_err(), ParseError::WrongPixel { line: 3 });
    let text = format!("{}00 00 00 00 00 00 00 00 100\n", HEADER);
    assert_eq!(parse(&text).unwrap_err(), ParseError::WrongPixel { line: 3 });
    let text = format!("{}00 00 00 00 00 00 00 00 0\n", HEADER);
    assert_eq!(parse(&text).unwrap_err(), ParseError::WrongPixel { line: 3 });
    let text = format!("{}00 00 00 00 00 00 00 00 +1\n", HEADER);
    assert_eq!(parse(&text).unwrap_err(), ParseError::WrongPixel { line: 3 });
}

#[test]
fn grayscale_frame_starts_with_any_other_character() {
    let text = format!("{}x0 00 00 00 00 00 00 00 00\n", HEADER);
    assert_eq!(parse(&text).unwrap_err(), ParseError::WrongPixel { line: 3 });
    let text = format!("{}hello\n", HEADER);
    assert_eq!(parse(&text).unwrap_err(), ParseError::WrongLineLength { line: 3 });
}

#[test]
fn white_space_around_and_inside_rows_is_passed_over() {
    let text = format!("{}  # # # # # # # # #  \r\n\t.........\t\n", HEADER);
    let mut frame = bw_rows(1);
    frame.set(0, 1, false);
    assert_eq!(frames_of(&text), vec![plain(FrameData::Bw(frame), 10)]);
    let text = format!("{}\u{a0}#########\u{3000}\n\u{2003}{{repeat=2}}\u{85}\n.........\n", HEADER);
    assert_eq!(parse(&text).unwrap_err(), ParseError::WrongLineLength { line: 4 });
    let text = format!("{}\u{a0}#########\u{3000}\n\u{2028}\n\u{2003}{{repeat=2}}\u{85}\n\u{1680}.........\u{205f}\n", HEADER);
    let frames = frames_of(&text);
    assert_eq!(frames.len(), 3);
    assert_eq!(frames[0], plain(FrameData::Bw(bw_rows(1)), 10));
    assert_eq!(frames[1], plain(FrameData::Bw(BwFrame::new()), 10));
    assert_eq!(frames[2], frames[1]);
}

#[test]
fn vertical_tab_is_trimmed_but_is_no_gap() {
    let text = format!("{}\u{b}#########\u{b}\n", HEADER);
    assert_eq!(frames_of(&text).len(), 1);
    let text = format!("{}####\u{b}#####\n", HEADER);
    assert_eq!(parse(&text).unwrap_err(), ParseError::WrongLineLength { line: 3 });
    let text = format!("{}00 00 00 00\u{b}00 00 00 00 00\n", HEADER);
    assert_eq!(parse(&text).unwrap_err(), ParseError::WrongLineLength { line: 3 });
    let text = format!("{}00 00 00 00\u{c}00 00 00 00 00\n", HEADER);
    assert_eq!(frames_of(&text).len(), 1);
}

#[test]
fn text_without_final_newline_is_read() {
    let text = format!("{}#########\n#########", HEADER);
    assert_eq!(frames_of(&text), vec![plain(FrameData::Bw(bw_rows(2)), 10)]);
}

#[test]
fn bytes_and_text_read_alike() {
    let text = format!("{}#########\n", HEADER);
    let from_text = parse(&text).unwrap();
    let from_bytes = FileAnimation::from_bytes(text.as_bytes()).unwrap();
    assert_eq!(from_text.frames, from_bytes.frames);
    assert_eq!(from_text.default_offset, from_bytes.default_offset);
}

#[test]
fn bytes_that_are_no_text_are_read_as_a_replacement_character() {
    assert_eq!(
        FileAnimation::from_bytes(b"\xff\n---\n").unwrap_err(),
        ParseError::BadHeader { line: 1 }
    );
    assert_eq!(
        FileAnimation::from_bytes(b"\n---\n\xff\xff\xff\xff\xff\xff\xff\xff\xff\n").unwrap_err(),
        ParseError::WrongLineLength { line: 3 }
    );
    assert_eq!(
        FileAnimation::from_bytes(b"\n---\n#####\xff###\n").unwrap_err(),
        ParseError::WrongPixel { line: 3 }
    );
    let animation =
        FileAnimation::from_bytes(b"note = \"\xff\"\n---\n{repeat=2, note=\"\xfe\"}\n.........\n")
            .unwrap();
    assert_eq!(animation.frames.len(), 2);
}

#[test]
fn player_starts_before_the_first_frame() {
    let text = "default_offset = 2\n---\n#########\n\n.........\n";
    let animation = parse(text).unwrap();
    let player = animation.player(None);
    assert_eq!(player.position, 0);
    assert_eq!(player.offset, 2);
    assert_eq!(player.frames, animation.frames);
    let player = animation.player(Some(-3));
    assert_eq!(player.offset, -3);
}

#[test]
fn player_moves_frames_by_the_offset() {
    let text = "default_offset = 2\n---\n#########\n\n{min_duration=\"5ms\"}\n.........\n#########\n";
    let animation = parse(text).unwrap();
    let mut player = animation.at(None);
    let mut first = BwFrame::new();
    let mut second = BwFrame::new();
    for x in 0..9 {
        first.set(x, 2, true);
        second.set(x, 3, true);
    }
    assert_eq!(player.next(), Some(plain(FrameData::Bw(first), 0)));
    assert_eq!(player.next(), Some(plain(FrameData::Bw(second), 5)));
    assert_eq!(player.next(), None);
    assert_eq!(player.next(), None);
}

#[test]
fn players_of_one_file_are_independent() {
    let text = format!("{}#########\n", HEADER);
    let animation = parse(&text).unwrap();
    let mut shifted = animation.at(Some(33));
    let mut plain_player = animation.at(Some(0));
    let mut up = animation.at(Some(-1));
    let mut low = BwFrame::new();
    for x in 0..9 {
        low.set(x, 33, true);
    }
    assert_eq!(shifted.next(), Some(plain(FrameData::Bw(low), 10)));
    assert_eq!(plain_player.next(), Some(plain(FrameData::Bw(bw_rows(1)), 10)));
    assert_eq!(up.next(), Some(plain(FrameData::Bw(BwFrame::new()), 10)));
    assert_eq!(shifted.next(), None);
    assert_eq!(animation.frames.len(), 1);
}

#[test]
fn frame_options_merge_and_make_frames() {
    let mut options = FrameOptions { repeat: Some(2), fullscreen: None, min_duration: None };
    options.merge_with(&FrameOptions {
        repeat: None,
        fullscreen: Some(true),
        min_duration: Some(FrameDuration::from_millis(3)),
    });
    assert_eq!(
        options,
        FrameOptions {
            repeat: Some(2),
            fullscreen: Some(true),
            min_duration: Some(FrameDuration::from_millis(3)),
        }
    );
    options.merge_with(&FrameOptions { repeat: Some(9), fullscreen: Some(false), min_duration: None });
    assert_eq!(options.repeat, Some(9));
    assert_eq!(options.fullscreen, Some(false));
    assert_eq!(options.min_duration, Some(FrameDuration::from_millis(3)));
    let frame = options.make_bw(bw_rows(1));
    assert_eq!(frame, plain(FrameData::Bw(bw_rows(1)), 3));
    let unset = FrameOptions { repeat: None, fullscreen: None, min_duration: None };
    let gray = GrayFrame([[4; 34]; 9]);
    assert_eq!(unset.make_gray(gray), plain(FrameData::Gray(gray), 0));
    let whole = FrameOptions { repeat: None, fullscreen: Some(true), min_duration: None };
    assert!(whole.make_gray(gray).fullscreen);
    assert!(whole.make_bw(BwFrame::new()).fullscreen);
}
