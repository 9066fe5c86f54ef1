use smartpaper::model::{Config, MediaItem, MediaType};
use smartpaper::playlist::{get_included_media, included_media, sort_by_path};

fn item(path: &str, included: bool) -> MediaItem {
    MediaItem { path: path.to_string(), media_type: MediaType::Image, included }
}

fn paths(v: &[MediaItem]) -> Vec<String> {
    v.iter().map(|m| m.path.clone()).collect()
}

#[test]
fn only_included_items_are_kept() {
    let media = vec![item("/w/c.jpg", true), item("/w/a.jpg", false), item("/w/b.jpg", true)];
    assert_eq!(paths(&included_media(&media)), vec!["/w/c.jpg", "/w/b.jpg"]);
}

#[test]
fn sorting_is_by_path() {
    let media = vec![item("/w/c.jpg", true), item("/w/a.jpg", true), item("/w/b.jpg", true)];
    assert_eq!(paths(&sort_by_path(&media)), vec!["/w/a.jpg", "/w/b.jpg", "/w/c.jpg"]);
}

#[test]
fn sorting_compares_components() {
    // By components "a" < "a.b"; as plain text "a.b" would come first.
    let media = vec![item("/w/a.b", true), item("/w/a/b", true)];
    assert_eq!(paths(&sort_by_path(&media)), vec!["/w/a/b", "/w/a.b"]);
}

#[test]
fn sorting_is_stable() {
    let media = vec![
        MediaItem { path: "/w/b.jpg".to_string(), media_type: MediaType::Video, included: true },
        item("/w/a.jpg", true),
        MediaItem { path: "/w//b.jpg".to_string(), media_type: MediaType::Image, included: true },
    ];
    let sorted = sort_by_path(&media);
    assert_eq!(paths(&sorted), vec!["/w/a.jpg", "/w/b.jpg", "/w//b.jpg"]);
    assert_eq!(sorted[1].media_type, MediaType::Video);
}

#[test]
fn sequential_order_sorts_the_included_items() {
    let c = Config {
        wallpaper_dir: Some("/w".to_string()),
        interval_seconds: 300,
        media: vec![item("/w/z.jpg", true), item("/w/m.jpg", false), item("/w/b.jpg", true)],
        random: false,
    };
    assert_eq!(paths(&get_included_media(&c)), vec!["/w/b.jpg", "/w/z.jpg"]);
}

#[test]
fn random_order_keeps_the_included_items() {
    let c = Config {
        wallpaper_dir: Some("/w".to_string()),
        interval_seconds: 300,
        media: (0..20).map(|i| item(&format!("/w/{}.jpg", i), i % 3 != 0)).collect(),
        random: true,
    };
    let mut got = paths(&get_included_media(&c));
    got.sort();
    let mut want: Vec<String> =
        (0..20).filter(|i| i % 3 != 0).map(|i| format!("/w/{}.jpg", i)).collect();
    want.sort();
    assert_eq!(got, want);
}
