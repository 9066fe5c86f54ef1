use smartpaper::library::sync_media_items;
use smartpaper::model::{Config, MediaItem, MediaType};

fn item(path: &str, media_type: MediaType, included: bool) -> MediaItem {
    MediaItem { path: path.to_string(), media_type, included }
}

fn config_with(dir: Option<&str>, media: Vec<MediaItem>) -> Config {
    Config {
        wallpaper_dir: dir.map(|d| d.to_string()),
        interval_seconds: 60,
        media,
        random: false,
    }
}

fn paths(c: &Config) -> Vec<String> {
    c.media.iter().map(|m| m.path.clone()).collect()
}

#[test]
fn without_directory_nothing_happens() {
    let mut c = config_with(None, vec![item("/w/a.jpg", MediaType::Image, true)]);
    let changed = sync_media_items(
        &mut c,
        vec![item("/w/b.jpg", MediaType::Image, true)],
        &vec!["/w/b.jpg".to_string()],
    );
    assert!(!changed);
    assert_eq!(paths(&c), vec!["/w/a.jpg"]);
}

#[test]
fn new_files_are_added_and_gone_ones_dropped() {
    let mut c = config_with(
        Some("/w"),
        vec![item("/w/a.jpg", MediaType::Image, false), item("/w/gone.png", MediaType::Image, true)],
    );
    let discovered = vec![item("/w/a.jpg", MediaType::Image, true), item("/w/b.mp4", MediaType::Video, true)];
    let present = vec!["/w/a.jpg".to_string(), "/w/b.mp4".to_string()];
    let changed = sync_media_items(&mut c, discovered, &present);
    assert!(changed);
    assert_eq!(paths(&c), vec!["/w/a.jpg", "/w/b.mp4"]);
    // The user's toggle survives.
    assert!(!c.media[0].included);
    assert!(c.media[1].included);
    assert_eq!(c.media[1].media_type, MediaType::Video);
    assert_eq!(c.wallpaper_dir.as_deref(), Some("/w"));
    assert_eq!(c.interval_seconds, 60);
}

#[test]
fn second_sync_changes_nothing() {
    let mut c = config_with(Some("/w"), vec![]);
    let discovered = vec![item("/w/a.jpg", MediaType::Image, true), item("/w/b.png", MediaType::Image, true)];
    let present = vec!["/w/a.jpg".to_string(), "/w/b.png".to_string()];
    assert!(sync_media_items(&mut c, discovered.clone(), &present));
    assert!(!sync_media_items(&mut c, discovered, &present));
    assert_eq!(paths(&c), vec!["/w/a.jpg", "/w/b.png"]);
}

#[test]
fn items_outside_the_directory_are_dropped() {
    let mut c = config_with(
        Some("/w/"),
        vec![item("/old/a.jpg", MediaType::Image, true), item("/w/x.jpg", MediaType::Image, true)],
    );
    let present = vec!["/old/a.jpg".to_string(), "/w/x.jpg".to_string()];
    let changed = sync_media_items(&mut c, vec![], &present);
    assert!(changed);
    // "/w/" and "/w" are the same directory.
    assert_eq!(paths(&c), vec!["/w/x.jpg"]);
}

#[test]
fn equal_paths_are_not_added_twice() {
    let mut c = config_with(Some("/w"), vec![item("/w//a.jpg", MediaType::Image, false)]);
    let discovered = vec![item("/w/a.jpg", MediaType::Image, true), item("/w/a.jpg", MediaType::Image, true)];
    let present = vec!["/w//a.jpg".to_string(), "/w/a.jpg".to_string()];
    let changed = sync_media_items(&mut c, discovered, &present);
    assert!(!changed);
    assert_eq!(paths(&c), vec!["/w//a.jpg"]);
}

#[test]
fn an_added_item_that_is_dropped_still_counts_as_a_change() {
    let mut c = config_with(Some("/w"), vec![]);
    let changed = sync_media_items(&mut c, vec![item("/w/a.jpg", MediaType::Image, true)], &vec![]);
    assert!(changed);
    assert!(c.media.is_empty());
}

#[test]
fn a_settled_list_syncs_without_change() {
    let mut c = config_with(Some("/w"), vec![item("/w/a.jpg", MediaType::Image, false)]);
    let discovered = vec![item("/w/a.jpg", MediaType::Image, true), item("/w/b.jpg", MediaType::Image, true)];
    let present = vec!["/w/a.jpg".to_string(), "/w/b.jpg".to_string()];
    assert!(sync_media_items(&mut c, discovered.clone(), &present));
    let first = paths(&c);
    assert!(!sync_media_items(&mut c, discovered, &present));
    assert_eq!(paths(&c), first);
    assert!(!c.media[0].included);
}
