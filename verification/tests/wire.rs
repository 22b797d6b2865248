use fw_lights::animations::{Frame, FrameData, FrameDuration, GrayFrame, IsFrame};
use fw_lights::proto::{BwFrame, Command, Pattern};
use fw_lights::{draw_frame, draw_gray_frame};

fn encoded(command: Command<'_>) -> Vec<u8> {
    command.to_bytes().to_vec()
}

#[test]
fn set_brightness_is_four_bytes() {
    assert_eq!(encoded(Command::SetBrightness(128)), vec![0x32, 0xAC, 0x00, 0x80]);
}

#[test]
fn draw_bw_of_blank_frame_is_header_and_zero_bytes() {
    let frame = BwFrame::new();
    let bytes = encoded(Command::DrawBw(&frame));
    assert_eq!(bytes.len(), 42);
    assert_eq!(&bytes[..3], &[0x32, 0xAC, 0x06]);
    assert_eq!(&bytes[3..], &[0u8; 39]);
}

#[test]
fn draw_bw_carries_the_packed_frame() {
    let mut frame = BwFrame::new();
    frame.set(0, 0, true);
    frame.set(8, 33, true);
    let bytes = encoded(Command::DrawBw(&frame));
    let mut expected = vec![0x32, 0xAC, 0x06];
    expected.extend_from_slice(&frame.0);
    assert_eq!(bytes, expected);
    assert_eq!(bytes[3], 1);
    assert_eq!(bytes[41], 2);
}

#[test]
fn stage_col_carries_index_and_levels() {
    let mut levels = [0u8; 34];
    levels[0] = 1;
    levels[33] = 255;
    let bytes = encoded(Command::StageCol(8, &levels));
    assert_eq!(bytes.len(), 38);
    assert_eq!(&bytes[..4], &[0x32, 0xAC, 0x07, 8]);
    assert_eq!(&bytes[4..], &levels);
}

#[test]
fn commands_without_payload_are_three_bytes() {
    assert_eq!(encoded(Command::Bootloader), vec![0x32, 0xAC, 0x02]);
    assert_eq!(encoded(Command::GetSleep), vec![0x32, 0xAC, 0x03]);
    assert_eq!(encoded(Command::GetAnimate), vec![0x32, 0xAC, 0x04]);
    assert_eq!(encoded(Command::Panic), vec![0x32, 0xAC, 0x05]);
    assert_eq!(encoded(Command::FlushCols), vec![0x32, 0xAC, 0x08]);
    assert_eq!(encoded(Command::GameStatus), vec![0x32, 0xAC, 0x12]);
    assert_eq!(encoded(Command::Version), vec![0x32, 0xAC, 0x20]);
}

#[test]
fn commands_with_one_byte_are_four_bytes() {
    assert_eq!(encoded(Command::Sleep(1)), vec![0x32, 0xAC, 0x03, 1]);
    assert_eq!(encoded(Command::Animate(0)), vec![0x32, 0xAC, 0x04, 0]);
    assert_eq!(encoded(Command::StartGame(2)), vec![0x32, 0xAC, 0x10, 2]);
    assert_eq!(encoded(Command::GameCtrl(9)), vec![0x32, 0xAC, 0x11, 9]);
}

#[test]
fn patterns_carry_their_tag() {
    assert_eq!(encoded(Command::Pattern(Pattern::Percentage(50))), vec![0x32, 0xAC, 0x01, 0, 50]);
    assert_eq!(encoded(Command::Pattern(Pattern::Gradient)), vec![0x32, 0xAC, 0x01, 1]);
    assert_eq!(encoded(Command::Pattern(Pattern::DoubleGradient)), vec![0x32, 0xAC, 0x01, 2]);
    assert_eq!(encoded(Command::Pattern(Pattern::LotusHorizontal)), vec![0x32, 0xAC, 0x01, 3]);
    assert_eq!(encoded(Command::Pattern(Pattern::ZigZag)), vec![0x32, 0xAC, 0x01, 4]);
    assert_eq!(encoded(Command::Pattern(Pattern::FullBrightness)), vec![0x32, 0xAC, 0x01, 5]);
    assert_eq!(encoded(Command::Pattern(Pattern::Panic)), vec![0x32, 0xAC, 0x01, 6]);
    assert_eq!(encoded(Command::Pattern(Pattern::LotusVertical)), vec![0x32, 0xAC, 0x01, 7]);
}

#[test]
fn reply_sizes_follow_the_opcode_table() {
    let frame = BwFrame::new();
    let levels = [0u8; 34];
    assert_eq!(Command::GetSleep.response_size(), 1);
    assert_eq!(Command::GetAnimate.response_size(), 1);
    assert_eq!(Command::Version.response_size(), 3);
    assert_eq!(Command::SetBrightness(1).response_size(), 0);
    assert_eq!(Command::Pattern(Pattern::Gradient).response_size(), 0);
    assert_eq!(Command::Bootloader.response_size(), 0);
    assert_eq!(Command::Sleep(1).response_size(), 0);
    assert_eq!(Command::Animate(1).response_size(), 0);
    assert_eq!(Command::Panic.response_size(), 0);
    assert_eq!(Command::DrawBw(&frame).response_size(), 0);
    assert_eq!(Command::StageCol(0, &levels).response_size(), 0);
    assert_eq!(Command::FlushCols.response_size(), 0);
    assert_eq!(Command::StartGame(1).response_size(), 0);
    assert_eq!(Command::GameCtrl(1).response_size(), 0);
    assert_eq!(Command::GameStatus.response_size(), 0);
}

#[test]
fn gray_frame_stages_lit_columns_and_flushes() {
    let mut frame = <GrayFrame as IsFrame>::blank();
    frame.0[2][5] = 9;
    frame.0[7][33] = 1;
    let commands = draw_gray_frame(&frame);
    assert_eq!(
        commands,
        vec![
            Command::StageCol(2, &frame.0[2]),
            Command::StageCol(7, &frame.0[7]),
            Command::FlushCols,
        ]
    );
    let packets: Vec<Vec<u8>> = commands.iter().map(|c| c.to_bytes().to_vec()).collect();
    let mut first = vec![0x32, 0xAC, 0x07, 2];
    first.extend_from_slice(&frame.0[2]);
    let mut second = vec![0x32, 0xAC, 0x07, 7];
    second.extend_from_slice(&frame.0[7]);
    assert_eq!(packets[0], first);
    assert_eq!(packets[1], second);
    assert_eq!(packets[2], vec![0x32, 0xAC, 0x08]);
    for command in &commands {
        assert_eq!(command.response_size(), 0);
    }
}

#[test]
fn dark_gray_frame_only_flushes() {
    let frame = <GrayFrame as IsFrame>::blank();
    assert_eq!(draw_gray_frame(&frame), vec![Command::FlushCols]);
}

#[test]
fn full_gray_frame_stages_every_column() {
    let frame = GrayFrame([[1; 34]; 9]);
    let commands = draw_gray_frame(&frame);
    assert_eq!(commands.len(), 10);
    for x in 0..9 {
        assert_eq!(commands[x], Command::StageCol(x as u8, &frame.0[x]));
        assert_eq!(commands[x].to_bytes().to_vec().len(), 38);
    }
    assert_eq!(commands[9], Command::FlushCols);
}

#[test]
fn draw_frame_picks_the_encoding_of_the_data() {
    let mut bw = BwFrame::new();
    bw.set(1, 1, true);
    let frame = Frame {
        data: FrameData::Bw(bw),
        min_duration: FrameDuration::zero(),
        fullscreen: false,
    };
    assert_eq!(draw_frame(&frame), vec![Command::DrawBw(&bw)]);
    let mut gray = <GrayFrame as IsFrame>::blank();
    gray.0[0][0] = 4;
    let frame = Frame {
        data: FrameData::Gray(gray),
        min_duration: FrameDuration::zero(),
        fullscreen: false,
    };
    assert_eq!(draw_frame(&frame), vec![Command::StageCol(0, &gray.0[0]), Command::FlushCols]);
}
