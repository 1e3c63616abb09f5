use ass_parser::{AssError, AssFileOptions, RgbColor, SrtData};

#[test]
fn srt_timestamps_are_converted() {
    let text = "1\n[00:00:05,000] --> [00:00:10,000]\nHello\nWorld\n\n".to_string();
    let records = SrtData::new().parse_srt(text).unwrap();
    assert_eq!(
        records,
        vec![SrtData {
            index: "1".to_string(),
            start: "00:00:05.000".to_string(),
            end: "00:00:10.000".to_string(),
            text: "Hello World ".to_string(),
        }]
    );
}

#[test]
fn srt_strips_one_character_at_each_end() {
    let text = "7\r\n00:00:01,500 --> 00:00:02,250\r\nLine\r\n".to_string();
    let records = SrtData::new().parse_srt(text).unwrap();
    assert_eq!(records.len(), 1);
    assert_eq!(records[0].index, "7");
    assert_eq!(records[0].start, "0:00:01.50");
    assert_eq!(records[0].end, "0:00:02.25");
    assert_eq!(records[0].text, "Line ");
}

#[test]
fn srt_blocks_are_separated_by_blank_lines() {
    let text = "1\n<a> --> <b>\nx\n\n\n2\n<c> --> <d>\ny\nz".to_string();
    let records = SrtData::new().parse_srt(text).unwrap();
    assert_eq!(records.len(), 2);
    assert_eq!(records[0].start, "a");
    assert_eq!(records[0].end, "b");
    assert_eq!(records[1].index, "2");
    assert_eq!(records[1].text, "y z ");
    assert_eq!(SrtData::new().parse_srt(String::new()).unwrap(), vec![]);
}

#[test]
fn srt_block_without_timestamps_is_malformed() {
    let one_line = "1\n\n".to_string();
    assert_eq!(SrtData::new().parse_srt(one_line).unwrap_err(), AssError::MalformedRow);
    let no_arrow = "1\n00:00:01,000 -> 00:00:02,000\nx\n".to_string();
    assert_eq!(SrtData::new().parse_srt(no_arrow).unwrap_err(), AssError::MalformedRow);
    let two_arrows = "1\na --> b --> c\nx\n".to_string();
    assert_eq!(SrtData::new().parse_srt(two_arrows).unwrap_err(), AssError::MalformedRow);
}

#[test]
fn srt_record_without_text() {
    let records = SrtData::new().parse_srt("3\n(1) --> (2)\n".to_string()).unwrap();
    assert_eq!(records[0].start, "1");
    assert_eq!(records[0].end, "2");
    assert_eq!(records[0].text, "");
}

#[test]
fn red_maps_to_blue_green_red_order() {
    let red = RgbColor { r: 255, g: 0, b: 0 };
    assert_eq!(AssFileOptions::get_ass_color(red), "&H0000ff");
}

#[test]
fn colors_are_zero_padded() {
    assert_eq!(AssFileOptions::get_ass_color(RgbColor { r: 255, g: 255, b: 0 }), "&H00ffff");
    assert_eq!(AssFileOptions::get_ass_color(RgbColor { r: 1, g: 2, b: 3 }), "&H030201");
    assert_eq!(AssFileOptions::get_ass_color(RgbColor { r: 0xab, g: 0xcd, b: 0xef }), "&Hefcdab");
}

#[test]
fn hex_color_channels_convert() {
    let c = hex_color::HexColor::YELLOW;
    let rgb = RgbColor { r: c.r, g: c.g, b: c.b };
    assert_eq!(AssFileOptions::get_ass_color(rgb), "&H00ffff");
}
