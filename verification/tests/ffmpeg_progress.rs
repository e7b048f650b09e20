use sciproj::tools::ffmpeg::{
    ffmpeg_args, parse_u64, split_key_value_line, trim, FfmpegTool, ProgressParser, ReaderInput,
};
use sciproj::tools::Tool;
use std::path::PathBuf;

#[test]
fn key_value_lines_split_at_the_first_equals() {
    assert_eq!(split_key_value_line("frame=12"), Some(("frame", "12")));
    assert_eq!(split_key_value_line("a=b=c "), Some(("a", "b=c")));
    assert_eq!(split_key_value_line("speed=  1.5x \t"), Some(("speed", "1.5x")));
    assert_eq!(split_key_value_line("no separator"), None);
    assert_eq!(split_key_value_line("=v"), Some(("", "v")));
}

#[test]
fn trim_removes_unicode_white_space() {
    assert_eq!(trim("  x y \n"), "x y");
    assert_eq!(trim("\u{3000}z\u{a0}"), "z");
    assert_eq!(trim("   "), "");
}

#[test]
fn parse_u64_follows_from_str() {
    assert_eq!(parse_u64("1234"), Some(1234));
    assert_eq!(parse_u64("+7"), Some(7));
    assert_eq!(parse_u64("18446744073709551615"), Some(u64::MAX));
    assert_eq!(parse_u64("18446744073709551616"), None);
    assert_eq!(parse_u64(""), None);
    assert_eq!(parse_u64("+"), None);
    assert_eq!(parse_u64("-1"), None);
    assert_eq!(parse_u64("12a"), None);
    for s in ["0", "42", "+0", "x", "99999999999999999999"] {
        assert_eq!(parse_u64(s), s.parse::<u64>().ok());
    }
}

#[test]
fn progress_blocks_are_reported_at_progress_lines() {
    let mut p = ProgressParser::new();
    assert!(p.feed_line("frame=1").is_none());
    assert!(p.feed_line("out_time_ms=1500000").is_none());
    assert!(p.feed_line("garbage").is_none());
    let report = p.feed_line("progress=continue").unwrap();
    assert_eq!(report.out_time_us, 1_500_000);
    assert!(!report.done);
    assert_eq!(
        report.info,
        vec![
            ("frame".to_string(), "1".to_string()),
            ("out_time_ms".to_string(), "1500000".to_string())
        ]
    );
    assert!(p.info.is_empty());
    assert!(p.feed_line("out_time_ms=N/A").is_none());
    let last = p.feed_line("progress=end").unwrap();
    assert!(last.done);
    assert_eq!(last.out_time_us, 1_500_000);
}

#[test]
fn conversion_arguments() {
    let args = ffmpeg_args("in.wav", "ogg", &vec!["-q:a:0".to_string(), "4".to_string()], "tcp://127.0.0.1:9");
    assert_eq!(
        args,
        vec!["-nostdin", "-progress", "pipe:1", "-hide_banner", "-i", "in.wav", "-f", "ogg", "-q:a:0", "4", "tcp://127.0.0.1:9"]
    );
}

#[test]
fn tools_keep_their_paths() {
    let tool = Tool::from_path(PathBuf::from("/usr/bin/espeak"));
    assert_eq!(tool.binary_path(), &PathBuf::from("/usr/bin/espeak"));
    let ffmpeg = FfmpegTool::from_path(PathBuf::from("/bin/ffmpeg"), PathBuf::from("/bin/ffprobe"));
    assert_eq!(ffmpeg.ffmpeg_path(), &PathBuf::from("/bin/ffmpeg"));
    assert_eq!(ffmpeg.ffprobe_path(), &PathBuf::from("/bin/ffprobe"));
    assert_eq!(ReaderInput::new(5u8).into_reader(), 5u8);
}
