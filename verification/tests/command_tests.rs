use ytdl_core::command::{build_args, quality_options, quality_to_format};
use ytdl_core::orchestrator::extract_video_id;
use ytdl_core::progress::parse_progress_from_line;
use ytdl_core::thumbnail::thumbnail_url;

#[test]
fn quality_mapping_is_total() {
    assert_eq!(quality_to_format("1080p"), "best[height<=1080]");
    assert_eq!(quality_to_format("720p"), "best[height<=720]");
    assert_eq!(quality_to_format("480p"), "best[height<=480]");
    assert_eq!(quality_to_format("360p"), "best[height<=360]");
    assert_eq!(quality_to_format("Audio Only"), "bestaudio");
    assert_eq!(quality_to_format("whatever else"), "best");
    assert_eq!(quality_to_format(""), "best");
}

#[test]
fn quality_options_enumeration() {
    let opts = quality_options();
    assert_eq!(opts, vec!["1080p", "720p", "480p", "360p", "Audio Only"]);
}

#[test]
fn build_args_exact_command_line() {
    let args = build_args("https://www.youtube.com/watch?v=abc", "720p", "./downloads");
    assert_eq!(
        args,
        vec![
            "-f",
            "best[height<=720]",
            "--progress-template",
            "downloaded_bytes:%(progress._percent_str)s",
            "--newline",
            "-o",
            "./downloads/%(title)s.%(ext)s",
            "https://www.youtube.com/watch?v=abc",
        ]
    );
}

#[test]
fn progress_template_matches_parser() {
    // The template flag asks the tool for lines in exactly the parser's
    // format: a line shaped from the template must parse.
    let args = build_args("u", "720p", "d");
    assert!(args[3].starts_with("downloaded_bytes:"));
    let shaped = "downloaded_bytes: 62.0%";
    assert_eq!(parse_progress_from_line(shaped), Some(620_000));
}

#[test]
fn extract_id_from_watch_url() {
    assert_eq!(
        extract_video_id("https://www.youtube.com/watch?v=abc123&t=5s"),
        Some("abc123".to_string())
    );
}

#[test]
fn extract_id_runs_to_end_without_separator() {
    assert_eq!(extract_video_id("watch?v=abc123"), Some("abc123".to_string()));
}

#[test]
fn extract_id_without_marker() {
    assert_eq!(extract_video_id("https://example.com/hello"), None);
    assert_eq!(extract_video_id(""), None);
    assert_eq!(extract_video_id("v"), None);
}

#[test]
fn extract_id_empty_after_marker() {
    assert_eq!(extract_video_id("watch?v="), Some(String::new()));
}

#[test]
fn extract_id_stops_at_second_marker() {
    assert_eq!(extract_video_id("watch?v=ab v=cd&e"), Some("ab ".to_string()));
}

#[test]
fn extract_id_stops_at_first_ampersand() {
    assert_eq!(extract_video_id("watch?v=abc&x=1&y=2"), Some("abc".to_string()));
}

#[test]
fn thumbnail_url_shape() {
    assert_eq!(
        thumbnail_url("abc123"),
        "https://img.youtube.com/vi/abc123/hqdefault.jpg"
    );
}
