use smartpaper::model::{Config, MediaItem, MediaType};
use smartpaper::rotation::{wallpaper_launch, Daemon, DaemonAction, DaemonEvent, Scan, WallpaperManager};

fn item(path: &str, included: bool) -> MediaItem {
    MediaItem { path: path.to_string(), media_type: MediaType::Image, included }
}

fn sequential(media: Vec<MediaItem>) -> Config {
    Config { wallpaper_dir: Some("/w".to_string()), interval_seconds: 10, media, random: false }
}

#[test]
fn default_config() {
    let c = Config::default();
    assert_eq!(c.wallpaper_dir, None);
    assert_eq!(c.interval_seconds, 300);
    assert!(c.media.is_empty());
    assert!(c.random);
}

#[test]
fn rotation_starts_at_the_first_item_and_goes_round() {
    let mut d = Daemon::new(sequential(vec![item("/w/c.jpg", true), item("/w/a.jpg", true), item("/w/b.jpg", false)]));
    assert_eq!(d.current().unwrap().path, "/w/a.jpg");
    assert_eq!(d.advance().unwrap().path, "/w/c.jpg");
    assert_eq!(d.advance().unwrap().path, "/w/a.jpg");
    assert_eq!(d.advance().unwrap().path, "/w/c.jpg");
    assert_eq!(d.current_index, 1);
}

#[test]
fn empty_rotation_shows_nothing() {
    let mut d = Daemon::new(sequential(vec![item("/w/a.jpg", false)]));
    assert!(d.current().is_none());
    assert!(d.advance().is_none());
    assert_eq!(d.current_index, 0);
}

#[test]
fn interval_is_at_least_one_second() {
    let mut c = sequential(vec![]);
    c.interval_seconds = 0;
    assert_eq!(Daemon::new(c).interval_secs(), 1);
    assert_eq!(Daemon::new(sequential(vec![])).interval_secs(), 10);
}

#[test]
fn directory_change_is_seen() {
    let d = Daemon::new(sequential(vec![]));
    let mut other = sequential(vec![]);
    assert!(!d.wallpaper_dir_changed(&other));
    other.wallpaper_dir = Some("/w/".to_string());
    assert!(!d.wallpaper_dir_changed(&other));
    other.wallpaper_dir = Some("/v".to_string());
    assert!(d.wallpaper_dir_changed(&other));
    other.wallpaper_dir = None;
    assert!(d.wallpaper_dir_changed(&other));
}

#[test]
fn adopting_a_config_restarts_the_rotation() {
    let mut d = Daemon::new(sequential(vec![item("/w/a.jpg", true), item("/w/b.jpg", true)]));
    d.advance();
    assert_eq!(d.current_index, 1);
    d.adopt_config(sequential(vec![item("/w/x.jpg", true), item("/w/y.jpg", true), item("/w/z.jpg", true)]));
    assert_eq!(d.current_index, 0);
    assert_eq!(d.playlist.len(), 3);
    assert_eq!(d.current().unwrap().path, "/w/x.jpg");
}

#[test]
fn rescan_rebuilds_only_on_change() {
    let mut d = Daemon::new(sequential(vec![item("/w/b.jpg", true)]));
    d.advance();
    let present = vec!["/w/a.jpg".to_string(), "/w/b.jpg".to_string()];
    assert!(!d.rescan(vec![item("/w/b.jpg", true)], &present));
    assert!(d.rescan(vec![item("/w/a.jpg", true)], &present));
    assert_eq!(d.config.media.len(), 2);
    assert_eq!(d.current_index, 0);
    assert_eq!(d.current().unwrap().path, "/w/a.jpg");
}

#[test]
fn wallpaper_manager_skips_the_current_wallpaper() {
    let mut m = WallpaperManager::new();
    assert!(!m.is_current("/w/a.jpg"));
    m.record_set("/w/a.jpg");
    assert!(m.is_current("/w/a.jpg"));
    assert!(m.is_current("/w//a.jpg"));
    assert!(!m.is_current("/w/b.jpg"));
}

#[test]
fn switch_script_lives_under_home() {
    assert_eq!(
        WallpaperManager::script_path("/home/u"),
        "/home/u/.config/quickshell/ii/scripts/colors/switchwall.sh"
    );
    assert_eq!(
        WallpaperManager::script_path("/home/u/"),
        "/home/u/.config/quickshell/ii/scripts/colors/switchwall.sh"
    );
}

#[test]
fn setting_the_same_path_twice_is_skipped() {
    let mut m = WallpaperManager::new();
    m.record_set("/w/dir/../a.jpg");
    assert!(m.is_current("/w/dir/../a.jpg"));
}

#[test]
fn images_use_the_script_and_videos_mpvpaper() {
    let l = wallpaper_launch("/home/u", "/w/a.jpg", MediaType::Image);
    assert_eq!(l.program, "/home/u/.config/quickshell/ii/scripts/colors/switchwall.sh");
    assert_eq!(l.args, vec!["/w/a.jpg".to_string()]);
    let l = wallpaper_launch("/home/u", "/w/rain.mp4", MediaType::Video);
    assert_eq!(l.program, "mpvpaper");
    assert_eq!(l.args, vec!["-o", "loop", "*", "/w/rain.mp4"]);
}

#[test]
fn sequential_rotation_is_in_path_order() {
    let d = Daemon::new(sequential(vec![item("/w/b/c.jpg", true), item("/w/b.jpg", true), item("/w/a.jpg", true)]));
    let order: Vec<String> = d.playlist.iter().map(|m| m.path.clone()).collect();
    assert_eq!(order, vec!["/w/a.jpg", "/w/b/c.jpg", "/w/b.jpg"]);
}

fn shown(actions: &[DaemonAction]) -> Vec<String> {
    actions
        .iter()
        .map(|a| match a {
            DaemonAction::Show(m) => format!("show {}", m.path),
            DaemonAction::ResetTimer(s) => format!("timer {}", s),
            DaemonAction::SaveConfig => "save".to_string(),
            DaemonAction::ScanNewDirectory(c) => format!("scan {:?}", c.wallpaper_dir),
            DaemonAction::WatchDirectory => "watch".to_string(),
        })
        .collect()
}

#[test]
fn timer_and_next_restart_the_timer_then_show() {
    let mut d = Daemon::new(sequential(vec![item("/w/a.jpg", true), item("/w/b.jpg", true)]));
    assert_eq!(shown(&d.handle(DaemonEvent::TimerExpired)), vec!["timer 10", "show /w/b.jpg"]);
    assert_eq!(shown(&d.handle(DaemonEvent::NextRequested)), vec!["timer 10", "show /w/a.jpg"]);
    let mut empty = Daemon::new(sequential(vec![]));
    assert_eq!(shown(&empty.handle(DaemonEvent::TimerExpired)), vec!["timer 10"]);
}

#[test]
fn reload_with_the_same_directory_is_taken_at_once() {
    let mut d = Daemon::new(sequential(vec![item("/w/a.jpg", true)]));
    let mut c = sequential(vec![item("/w/b.jpg", true), item("/w/c.jpg", true)]);
    c.interval_seconds = 0;
    assert_eq!(shown(&d.handle(DaemonEvent::ConfigReloaded(c))), vec!["timer 1"]);
    assert_eq!(d.playlist.len(), 2);
    assert_eq!(d.current_index, 0);
}

#[test]
fn reload_with_another_directory_is_scanned_first() {
    let mut d = Daemon::new(sequential(vec![item("/w/a.jpg", true)]));
    let mut c = sequential(vec![]);
    c.wallpaper_dir = Some("/v".to_string());
    let actions = d.handle(DaemonEvent::ConfigReloaded(c));
    assert_eq!(shown(&actions), vec!["scan Some(\"/v\")"]);
    assert_eq!(d.config.wallpaper_dir.as_deref(), Some("/w"));
    let new_config = match actions.into_iter().next() {
        Some(DaemonAction::ScanNewDirectory(c)) => c,
        _ => panic!("expected a scan"),
    };
    let scan = Scan {
        discovered: vec![item("/v/x.png", true)],
        present: vec!["/v/x.png".to_string()],
    };
    let actions = d.handle(DaemonEvent::NewDirectoryScanned(new_config, Some(scan)));
    assert_eq!(shown(&actions), vec!["save", "watch", "timer 10"]);
    assert_eq!(d.config.wallpaper_dir.as_deref(), Some("/v"));
    assert_eq!(d.current().unwrap().path, "/v/x.png");
}

#[test]
fn failed_scan_of_a_new_directory_still_switches() {
    let mut d = Daemon::new(sequential(vec![item("/w/a.jpg", true)]));
    let mut c = sequential(vec![]);
    c.wallpaper_dir = Some("/v".to_string());
    let actions = d.handle(DaemonEvent::NewDirectoryScanned(c, None));
    assert_eq!(shown(&actions), vec!["watch", "timer 10"]);
    assert_eq!(d.config.wallpaper_dir.as_deref(), Some("/v"));
    assert!(d.current().is_none());
}

#[test]
fn directory_scan_saves_only_on_change() {
    let mut d = Daemon::new(sequential(vec![item("/w/a.jpg", true)]));
    let present = vec!["/w/a.jpg".to_string(), "/w/b.jpg".to_string()];
    let same = Scan { discovered: vec![item("/w/a.jpg", true)], present: present.clone() };
    assert!(d.handle(DaemonEvent::DirectoryScanned(same)).is_empty());
    let more = Scan { discovered: vec![item("/w/b.jpg", true)], present };
    assert_eq!(shown(&d.handle(DaemonEvent::DirectoryScanned(more))), vec!["save"]);
    assert_eq!(d.playlist.len(), 2);
}
