use webpconv::parse::{
    has_animation_tag, is_frame_header, parse_info_lines, parse_dimensions_from_line, parse_table_frame, parse_webpmux_info, FrameInfo,
};
use webpconv::text::extract_numbers;

fn frame(ox: usize, oy: usize, dur: u64, dispose: bool, blend: bool) -> FrameInfo {
    FrameInfo {
        offset_x: ox,
        offset_y: oy,
        duration_ms: dur,
        dispose_background: dispose,
        blend,
    }
}

#[test]
fn extract_numbers_reads_digit_runs() {
    assert_eq!(extract_numbers("Canvas size: 400 x 300"), vec![400, 300]);
    assert_eq!(extract_numbers("a1b22c333"), vec![1, 22, 333]);
    assert_eq!(extract_numbers("no digits"), Vec::<usize>::new());
    assert_eq!(extract_numbers(""), Vec::<usize>::new());
    assert_eq!(extract_numbers("007x"), vec![7]);
}

#[test]
fn extract_numbers_skips_runs_too_large() {
    assert_eq!(
        extract_numbers("1 99999999999999999999999 2"),
        vec![1, 2]
    );
}

#[test]
fn frame_header_detection() {
    assert!(is_frame_header("frame #1"));
    assert!(is_frame_header("frame 2:"));
    assert!(is_frame_header("frame   #3"));
    assert!(is_frame_header("frameframe 4"));
    assert!(!is_frame_header("frames: 3"));
    assert!(!is_frame_header("number of frames: 3"));
    assert!(!is_frame_header("frame"));
}

#[test]
fn dimensions_from_canvas_line() {
    assert_eq!(parse_dimensions_from_line("Canvas size: 400 x 300"), Some((400, 300)));
    assert_eq!(parse_dimensions_from_line("canvas 101x51"), Some((101, 51)));
    assert_eq!(parse_dimensions_from_line("canvas 101 by 51"), None);
    assert_eq!(parse_dimensions_from_line("canvas x 51"), None);
    assert_eq!(parse_dimensions_from_line("canvas: 10 x max 20"), Some((10, 20)));
    assert_eq!(parse_dimensions_from_line("canvas 7 x"), None);
}

#[test]
fn table_row_with_row_number() {
    let row = "   1:   400   300   yes     0     0   100 background    no     12345";
    assert_eq!(parse_table_frame(row), Some(frame(0, 0, 100, true, false)));
    let row = "2 : 20 10 no 10 5 150 none yes";
    assert_eq!(parse_table_frame(row), Some(frame(10, 5, 150, false, true)));
    let row = "20 10 no 3 4 70 BACKGROUND YES";
    assert_eq!(parse_table_frame(row), Some(frame(3, 4, 70, true, true)));
}

#[test]
fn table_row_rejections() {
    assert_eq!(parse_table_frame(""), None);
    assert_eq!(parse_table_frame("1: 400 300 yes 0 0 100"), None);
    assert_eq!(parse_table_frame("1: 0 300 yes 0 0 100 none yes"), None);
    assert_eq!(parse_table_frame("1: 400 0 yes 0 0 100 none yes"), None);
    assert_eq!(parse_table_frame("1: abc 300 yes 0 0 100 none yes"), None);
}

const TABLE_REPORT: &str = "Canvas size: 400 x 300\n\
Features present: animation transparency\n\
Background color : 0xFFFFFFFF  Loop Count : 0\n\
Number of frames: 3\n\
No.: width height alpha x_offset y_offset duration   dispose blend image_size  compression\n\
  1:   400   300   yes        0        0      100 background    no       5000       lossy\n\
  2:   bad   row\n\
  3:   200   100    no       10       20       80       none   yes       2000    lossless\n\
  4:     0   100    no       10       20       80       none   yes       2000    lossless\n\
  5:   100    50   yes        5        6       60       none    no       1000       lossy\n";

#[test]
fn table_mode_keeps_valid_rows_in_order() {
    let (w, h, frames) = parse_webpmux_info(TABLE_REPORT).unwrap();
    assert_eq!((w, h), (400, 300));
    assert_eq!(
        frames,
        vec![
            frame(0, 0, 100, true, false),
            frame(10, 20, 80, false, true),
            frame(5, 6, 60, false, false),
        ]
    );
}

#[test]
fn header_mode_with_defaults() {
    let report = "Canvas: 64 x 32\r\n\
Frame #1\r\n\
  Offset: 4, 8\r\n\
  Duration: 120\r\n\
  Dispose: background\r\n\
  Blend: no\r\n\
Frame #2\r\n\
Frame 3\r\n\
  duration 70\r\n\
  blend: yes\r\n";
    let (w, h, frames) = parse_webpmux_info(report).unwrap();
    assert_eq!((w, h), (64, 32));
    assert_eq!(
        frames,
        vec![
            frame(4, 8, 120, true, false),
            frame(0, 0, 33, false, true),
            frame(0, 0, 70, false, true),
        ]
    );
}

#[test]
fn canvas_last_matching_line_wins() {
    let report = "canvas 10 x 20\nNo.: w h\n 1: 4 4 no 0 0 10 none yes\ncanvas 30 x 40\n";
    let (w, h, frames) = parse_webpmux_info(report).unwrap();
    assert_eq!((w, h), (30, 40));
    assert_eq!(frames.len(), 1);
}

#[test]
fn missing_canvas_is_an_error() {
    let report = "Frame #1\nduration: 10\n";
    assert_eq!(
        parse_webpmux_info(report),
        Err("webpmux did not report a canvas size".to_string())
    );
}

#[test]
fn no_frames_error_previews_first_25_lines() {
    let mut report = String::from("Canvas size: 10 x 10\n");
    for i in 0..40 {
        report.push_str(&format!("line {}\n", i));
    }
    let err = parse_webpmux_info(&report).unwrap_err();
    let mut expected = String::from(
        "webpmux did not report any frames. Output preview:\nCanvas size: 10 x 10",
    );
    for i in 0..24 {
        expected.push_str(&format!("\nline {}", i));
    }
    assert_eq!(err, expected);
}

#[test]
fn header_lines_before_any_frame_are_ignored() {
    let report = "canvas 8 x 8\nduration 500\nframe #1\n";
    let (_, _, frames) = parse_webpmux_info(report).unwrap();
    assert_eq!(frames, vec![frame(0, 0, 33, false, true)]);
}

#[test]
fn default_frame_values() {
    assert_eq!(FrameInfo::default(), frame(0, 0, 33, false, true));
}

#[test]
fn animation_tags_are_found() {
    assert!(has_animation_tag(b"RIFF....WEBPVP8XxxxxANIMxxxx"));
    assert!(has_animation_tag(b"ANMF"));
    assert!(!has_animation_tag(b"RIFF....WEBPVP8 data"));
    assert!(!has_animation_tag(b"ANI"));
    assert!(!has_animation_tag(b"ANIX ANMG"));
    assert!(!has_animation_tag(b""));
}

fn char_lines(text: &[&str]) -> Vec<Vec<char>> {
    text.iter().map(|l| l.chars().collect()).collect()
}

#[test]
fn lines_with_their_lower_case_forms() {
    let lines = char_lines(&["CANVAS 10 x 20", "Frame #1", "Duration 5"]);
    let lowers = char_lines(&["canvas 10 x 20", "frame #1", "duration 5"]);
    let (w, h, frames) = parse_info_lines(&lines, &lowers).unwrap();
    assert_eq!((w, h), (10, 20));
    assert_eq!(frames, vec![frame(0, 0, 5, false, true)]);
    let upper_only = char_lines(&["CANVAS 10 X 20", "FRAME #1"]);
    assert_eq!(
        parse_info_lines(&upper_only, &upper_only),
        Err("webpmux did not report a canvas size".to_string())
    );
}
