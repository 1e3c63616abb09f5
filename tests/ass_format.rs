use ass_parser::{
    get_info, parse_event, parse_script, parse_v4, AssError, AssFile, Dialogue, Events,
    ScriptInfo, V4Format,
};

const STYLE_FORMAT: &str = "Format: Name, Fontname, Fontsize, PrimaryColour, SecondaryColour, OutlineColour, BackColour, Bold, Italic, Underline, StrikeOut, ScaleX, ScaleY, Spacing, Angle, BorderStyle, Outline, Shadow, Alignment, MarginL, MarginR, MarginV, Encoding";
const EVENTS_FORMAT: &str = "Format: Layer, Start, End, Style, Name, MarginL, MarginR, MarginV, Effect, Text";

fn strings(v: &[&str]) -> Vec<String> {
    v.iter().map(|s| s.to_string()).collect()
}

fn sample_document() -> AssFile {
    let mut doc = AssFile::new();
    doc.components.script.set_script(ScriptInfo::default());
    doc.components.v4.set_v4(V4Format::default());
    let mut events = Events::new();
    events.add_dialogue(
        Dialogue::default()
            .set_start("0:00:00.10".to_string())
            .set_end("0:00:00.50".to_string())
            .set_text("First".to_string()),
    );
    events.add_dialogue(
        Dialogue::default()
            .set_start("0:00:00.50".to_string())
            .set_end("0:00:01.00".to_string())
            .set_text("Second, with a comma".to_string()),
    );
    doc.components.events.set_events(events);
    doc
}

fn expected_sample_text() -> String {
    let mut s = String::new();
    s.push_str("[Script Info]\n");
    s.push_str("ScriptType: v4.00+\nPlayResX: 384\nPlayResY: 288\n");
    s.push_str("ScaledBorderAndShadow: yes\nYCbCr Matrix: None\n");
    s.push_str("\n[V4+ Styles]\n");
    s.push_str(STYLE_FORMAT);
    s.push_str("\nStyle: Default,Arial,16,&Hffffff,&Hffffff,&H0,&H0,0,0,0,0,100,100,0,0,1,1,0,2,10,10,10,1\n");
    s.push_str("\n[Events]\n");
    s.push_str(EVENTS_FORMAT);
    s.push_str("\nDialogue: 0,0:00:00.10,0:00:00.50,Default,,0,0,0,,First\n");
    s.push_str("Dialogue: 0,0:00:00.50,0:00:01.00,Default,,0,0,0,,Second, with a comma\n");
    s
}

#[test]
fn serialize_default_document_with_two_dialogues() {
    let doc = sample_document();
    assert!(doc.is_complete());
    let text = doc.serialize();
    assert_eq!(text, expected_sample_text());
    let blocks: Vec<&str> = text.split("\n\n").collect();
    assert_eq!(blocks.len(), 3);
    assert!(blocks[0].starts_with("[Script Info]"));
    assert!(blocks[1].starts_with("[V4+ Styles]\nFormat:"));
    assert!(blocks[2].starts_with("[Events]\nFormat:"));
}

#[test]
fn round_trip_keeps_every_field() {
    let doc = sample_document();
    let text = doc.serialize();
    let parsed = AssFile::from_contents(&text, true).unwrap();
    assert_eq!(parsed.serialize(), text);
    assert_eq!(parsed.components.events.len(), 2);
}

#[test]
fn parsing_twice_after_a_round_trip_is_stable() {
    let text = sample_document().serialize();
    let once = AssFile::from_contents(&text, true).unwrap().serialize();
    let twice = AssFile::from_contents(&once, true).unwrap().serialize();
    assert_eq!(once, twice);
}

#[test]
fn partial_script_info_round_trips_only_when_lenient() {
    let mut doc = sample_document();
    let mut script = ScriptInfo::new();
    script.set_scripttype("FFMPEG".to_string());
    doc.components.script.set_script(script);
    let text = doc.serialize();
    assert!(text.starts_with("[Script Info]\nScriptType: FFMPEG\n\n[V4+ Styles]\n"));
    assert_eq!(AssFile::from_contents(&text, true).unwrap_err(), AssError::MissingField);
    let lenient = AssFile::from_contents(&text, false).unwrap();
    assert_eq!(lenient.serialize(), text);
}

#[test]
fn crlf_and_comments_are_accepted() {
    let text = expected_sample_text()
        .replace("\n", "\r\n")
        .replace("[Events]\r\n", "[Events]\r\n; a comment\r\n");
    let parsed = AssFile::from_contents(&text, true).unwrap();
    assert_eq!(parsed.serialize(), expected_sample_text());
}

#[test]
fn missing_section_gives_no_lines() {
    let lines = strings(&["[Script Info]", "ScriptType: v4.00+", "", "[Events]"]);
    assert!(get_info(&lines, "[V4+ Styles]").is_empty());
}

#[test]
fn section_lines_start_with_header_and_marker() {
    let lines = strings(&["x", "[Script Info]", "; note", "PlayResX: 384", "[Events]", "y"]);
    assert_eq!(
        get_info(&lines, "[Script Info]"),
        strings(&["[Script Info]", "\n", "PlayResX: 384"])
    );
}

#[test]
fn dialogue_with_nine_fields_is_malformed() {
    let lines = strings(&["[Events]", "Dialogue: 0,0:00:00.00,0:00:01.00,Default,,0,0,0,Effect"]);
    assert_eq!(parse_event(&lines).unwrap_err(), AssError::MalformedRow);
}

#[test]
fn dialogue_text_keeps_its_commas() {
    let lines = strings(&["Dialogue: 1,a,b,c,d,e,f,g,h,one, two,three"]);
    let events = parse_event(&lines).unwrap();
    assert_eq!(events.len(), 1);
    let mut doc = sample_document();
    doc.components.events.set_events(events);
    assert!(doc.serialize().ends_with("Dialogue: 1,a,b,c,d,e,f,g,h,one, two,three\n"));
}

#[test]
fn style_row_missing_or_short() {
    let none = strings(&["[V4+ Styles]", "Format: Name"]);
    assert_eq!(parse_v4(&none).unwrap_err(), AssError::MissingField);
    let short = strings(&["Style: a,b,c"]);
    assert_eq!(parse_v4(&short).unwrap_err(), AssError::MalformedRow);
}

#[test]
fn style_row_keeps_margin_order() {
    let row = "Style: n,f,1,c1,c2,c3,c4,0,0,0,0,100,100,0,0,1,1,0,2,11,12,13,7";
    let v4 = parse_v4(&strings(&[row])).unwrap();
    let mut doc = sample_document();
    doc.components.v4.set_v4(v4);
    assert!(doc.serialize().contains(&format!("\n{}\n", row)));
}

#[test]
fn script_info_strict_and_lenient() {
    let lines = strings(&["[Script Info]", "ScriptType: v4.00+", "PlayResX: 640"]);
    assert_eq!(parse_script(&lines, true).unwrap_err(), AssError::MissingField);
    assert!(parse_script(&lines, false).is_ok());
    let full = strings(&[
        "ScriptType: a",
        "PlayResX: b",
        "PlayResY: c",
        "ScaledBorderAndShadow: d",
        "YCbCr Matrix: e",
        "PlayResX: z",
    ]);
    let script = parse_script(&full, true).unwrap();
    let mut doc = sample_document();
    doc.components.script.set_script(script);
    assert!(doc.serialize().starts_with(
        "[Script Info]\nScriptType: a\nPlayResX: z\nPlayResY: c\nScaledBorderAndShadow: d\nYCbCr Matrix: e\n\n"
    ));
}

#[test]
fn document_errors_follow_section_order() {
    assert_eq!(AssFile::from_contents("", true).unwrap_err(), AssError::MissingField);
    let no_style = "[Script Info]\nScriptType: a\nPlayResX: b\nPlayResY: c\nScaledBorderAndShadow: d\nYCbCr Matrix: e\n";
    assert_eq!(AssFile::from_contents(no_style, true).unwrap_err(), AssError::MissingField);
    let bad_dialogue = format!(
        "{}\n[V4+ Styles]\nStyle: a,b,c,d,e,f,g,h,i,j,k,l,m,n,o,p,q,r,s,t,u,v,w\n\n[Events]\nDialogue: 0,1\n",
        no_style
    );
    assert_eq!(AssFile::from_contents(&bad_dialogue, true).unwrap_err(), AssError::MalformedRow);
}

#[test]
fn insert_first_needs_an_empty_list() {
    let mut events = Events::new();
    assert!(events.add_first_dialogue(Dialogue::default()).is_ok());
    assert_eq!(events.len(), 1);
    assert_eq!(
        events.add_first_dialogue(Dialogue::default()).unwrap_err(),
        AssError::OrderingViolation
    );
    assert_eq!(events.len(), 1);
    assert_eq!(Events::default().len(), 1);
}

#[test]
fn setters_replace_fields() {
    let mut doc = sample_document();
    doc.components
        .script
        .set_scripttype("FFMPEG".to_string())
        .set_playresx("1920".to_string())
        .set_playresy("1080".to_string())
        .set_scaledborderandshadow("no".to_string())
        .set_ycbcr_matrix("TV.709".to_string());
    doc.components
        .v4
        .set_name("Main".to_string())
        .set_fontname("Sans".to_string())
        .set_fontsize("20".to_string())
        .set_primarycolour("&H00ffff".to_string())
        .set_secondarycolour("&H1".to_string())
        .set_outlinecolour("&H2".to_string())
        .set_backcolour("&H3".to_string())
        .set_bold("-1".to_string())
        .set_italic("-1".to_string())
        .set_underline("0".to_string())
        .set_strikeout("0".to_string())
        .set_scalex("90".to_string())
        .set_scaley("95".to_string())
        .set_spacing("1".to_string())
        .set_angle("5".to_string())
        .set_borderstyle("3".to_string())
        .set_outline("2".to_string())
        .set_shadow("4".to_string())
        .set_alignment("8".to_string())
        .set_marginl("1".to_string())
        .set_marginr("2".to_string())
        .set_marginv("3".to_string())
        .set_encoding("0".to_string());
    let d = Dialogue::new()
        .set_layer("2".to_string())
        .set_start("s".to_string())
        .set_end("e".to_string())
        .set_style("Main".to_string())
        .set_name("N".to_string())
        .set_marginl("4".to_string())
        .set_marginr("5".to_string())
        .set_marginv("6".to_string())
        .set_effect("fx".to_string())
        .set_text("T".to_string());
    let mut events = Events::new();
    events.add_first_dialogue(d).unwrap();
    doc.components.events.set_events(events);
    let text = doc.serialize();
    assert!(text.starts_with("[Script Info]\nScriptType: FFMPEG\nPlayResX: 1920\nPlayResY: 1080\nScaledBorderAndShadow: no\nYCbCr Matrix: TV.709\n"));
    assert!(text.contains("\nStyle: Main,Sans,20,&H00ffff,&H1,&H2,&H3,-1,-1,0,0,90,95,1,5,3,2,4,8,1,2,3,0\n"));
    assert!(text.ends_with("\nDialogue: 2,s,e,Main,N,4,5,6,fx,T\n"));
}

#[test]
fn new_document_is_not_complete() {
    assert!(!AssFile::new().is_complete());
    let mut doc = sample_document();
    doc.components.events.add_dialogue(Dialogue::new());
    assert!(!doc.is_complete());
    let mut doc = sample_document();
    doc.components.v4.set_v4(V4Format::new());
    assert!(!doc.is_complete());
}

#[test]
fn section_lines_drop_a_trailing_carriage_return() {
    let lines = strings(&["[Events]\r", "Dialogue: x\r", "[Other]\r"]);
    assert_eq!(get_info(&lines, "[Events]"), strings(&["[Events]", "\n", "Dialogue: x"]));
    let odd = strings(&["a\r", "b"]);
    assert!(get_info(&odd, "a\r").is_empty());
}

#[test]
fn lone_carriage_returns_end_lines() {
    let text = expected_sample_text().replace("\n", "\r");
    let parsed = AssFile::from_contents(&text, true).unwrap();
    assert_eq!(parsed.serialize(), expected_sample_text());
}

#[test]
fn doubled_carriage_returns_only_add_blank_lines() {
    let text = expected_sample_text().replace("\n", "\r\r\n");
    let parsed = AssFile::from_contents(&text, true).unwrap();
    assert_eq!(parsed.serialize(), expected_sample_text());
}
