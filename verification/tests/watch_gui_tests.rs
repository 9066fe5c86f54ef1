use smartpaper::gui::{
    check_ffmpeg_found, check_video_path, config_file_path, is_absolute_path,
    thumbnail_ffmpeg_args, thumbnail_path_for, thumbnail_result,
};
use smartpaper::paths::join_path;
use smartpaper::watch::{watch_events_for, watch_targets, FsEventKind, WatchEvent};

fn v(paths: &[&str]) -> Vec<String> {
    paths.iter().map(|s| s.to_string()).collect()
}

#[test]
fn config_file_event() {
    let ev = watch_events_for(&v(&["/c/app/config.json"]), "/c/app/config.json", FsEventKind::Modify);
    assert_eq!(ev, vec![WatchEvent::ConfigChanged]);
    let ev = watch_events_for(&v(&["/c/app/config.json"]), "/c/app/config.json", FsEventKind::Other);
    assert_eq!(ev, vec![WatchEvent::ConfigChanged]);
}

#[test]
fn directory_events_need_a_change() {
    let cfg = "/c/app/config.json";
    assert_eq!(watch_events_for(&v(&["/w/a.jpg"]), cfg, FsEventKind::Create), vec![WatchEvent::DirEvent]);
    assert_eq!(watch_events_for(&v(&["/w/a.jpg"]), cfg, FsEventKind::Remove), vec![WatchEvent::DirEvent]);
    assert_eq!(watch_events_for(&v(&["/w/a.jpg"]), cfg, FsEventKind::Other), vec![]);
    assert_eq!(watch_events_for(&v(&[]), cfg, FsEventKind::Create), vec![]);
}

#[test]
fn mixed_event_reports_both() {
    let ev = watch_events_for(&v(&["/w/a.jpg", "/c/app//config.json"]), "/c/app/config.json", FsEventKind::Modify);
    assert_eq!(ev, vec![WatchEvent::ConfigChanged, WatchEvent::DirEvent]);
}

#[test]
fn targets_are_config_dir_then_wallpaper_dir() {
    assert_eq!(watch_targets("/c/app/config.json", &Some("/w".to_string())), v(&["/c/app", "/w"]));
    assert_eq!(watch_targets("/c/app/config.json", &None), v(&["/c/app"]));
    assert_eq!(watch_targets("/", &None), Vec::<String>::new());
}

#[test]
fn joining_paths() {
    assert_eq!(join_path("/a", "b"), "/a/b");
    assert_eq!(join_path("/a/", "b"), "/a/b");
    assert_eq!(join_path("", "b"), "b");
    assert_eq!(join_path("/a", "/b"), "/b");
    assert_eq!(config_file_path("/home/u/.config"), "/home/u/.config/com.smart-wallpaper.app/config.json");
    assert_eq!(config_file_path("/home/u/.config/"), "/home/u/.config/com.smart-wallpaper.app/config.json");
}

#[test]
fn video_paths_must_be_absolute() {
    assert!(is_absolute_path("/v/rain.mp4"));
    assert!(!is_absolute_path("v/rain.mp4"));
    assert!(!is_absolute_path(""));
    assert_eq!(check_video_path("/v/rain.mp4"), Ok(()));
    assert_eq!(check_video_path("rain.mp4"), Err("Video path must be absolute".to_string()));
}

#[test]
fn thumbnail_file_and_arguments() {
    assert_eq!(thumbnail_path_for("/v/rain.mp4"), "/v/rain.mp4.thumb.jpg");
    assert_eq!(
        thumbnail_ffmpeg_args("/v/rain.mp4", "/v/rain.mp4.thumb.jpg"),
        v(&["-y", "-i", "/v/rain.mp4", "-ss", "00:00:01", "-vframes", "1", "/v/rain.mp4.thumb.jpg"])
    );
}

#[test]
fn missing_ffmpeg_is_refused() {
    assert_eq!(check_ffmpeg_found(true), Ok(()));
    assert_eq!(
        check_ffmpeg_found(false),
        Err("ffmpeg is not installed. Please install ffmpeg to generate thumbnails.".to_string())
    );
}

#[test]
fn thumbnail_outcomes() {
    let out = "/v/rain.mp4.thumb.jpg";
    assert_eq!(thumbnail_result(out, true, false), Ok(out.to_string()));
    assert_eq!(thumbnail_result(out, false, true), Ok(out.to_string()));
    assert_eq!(thumbnail_result(out, false, false), Err("Failed to generate thumbnail".to_string()));
}
