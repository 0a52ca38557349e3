use std::path::Path;

use transcribe_cli::video::{is_video_extension, is_video_file};

#[test]
fn detects_known_video_extensions_case_insensitively() {
    assert!(is_video_file(Path::new("clip.MP4")));
    assert!(is_video_file(Path::new("clip.webm")));
    assert!(!is_video_file(Path::new("clip.mp3")));
}

#[test]
fn only_what_follows_the_last_dot_counts() {
    assert!(!is_video_file(Path::new("mp4")));
    assert!(!is_video_file(Path::new(".mp4")));
    assert!(!is_video_file(Path::new("clip.mp4.txt")));
    assert!(is_video_file(Path::new("some.dir/clip.old.MkV")));
    assert!(is_video_extension("mp4"));
    assert!(!is_video_extension(".mp4"));
}
