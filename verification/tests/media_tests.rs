use smartpaper::media::{
    media_from_entries, media_type_for_extension, media_type_for_lowercase_extension,
    media_type_of_file, DirEntryInfo,
};
use smartpaper::model::MediaType;

#[test]
fn lower_case_extensions() {
    for e in ["jpg", "jpeg", "png", "webp"] {
        assert_eq!(media_type_for_lowercase_extension(e), Some(MediaType::Image));
    }
    for e in ["mp4", "webm", "mkv"] {
        assert_eq!(media_type_for_lowercase_extension(e), Some(MediaType::Video));
    }
    for e in ["", "gif", "txt", "JPG", "jp", "jpgg"] {
        assert_eq!(media_type_for_lowercase_extension(e), None);
    }
}

#[test]
fn extensions_in_any_case() {
    assert_eq!(media_type_for_extension("JPG"), Some(MediaType::Image));
    assert_eq!(media_type_for_extension("WebP"), Some(MediaType::Image));
    assert_eq!(media_type_for_extension("MKV"), Some(MediaType::Video));
    // The Kelvin sign lowers to an ASCII 'k'.
    assert_eq!(media_type_for_extension("M\u{212a}V"), Some(MediaType::Video));
    assert_eq!(media_type_for_extension("TXT"), None);
}

#[test]
fn file_kinds_by_extension() {
    assert_eq!(media_type_of_file("/home/u/Pictures/mountain.jpg"), Some(MediaType::Image));
    assert_eq!(media_type_of_file("/home/u/Pictures/rain.MP4"), Some(MediaType::Video));
    assert_eq!(media_type_of_file("/home/u/Pictures/archive.tar.png"), Some(MediaType::Image));
    assert_eq!(media_type_of_file("/home/u/Pictures/.png"), None);
    assert_eq!(media_type_of_file("/home/u/Pictures/noext"), None);
    assert_eq!(media_type_of_file("/home/u/Pictures/notes.txt"), None);
}

#[test]
fn listing_keeps_media_files_in_order() {
    let entries = vec![
        DirEntryInfo { path: "/w".to_string(), is_file: false },
        DirEntryInfo { path: "/w/b.PNG".to_string(), is_file: true },
        DirEntryInfo { path: "/w/sub.jpg".to_string(), is_file: false },
        DirEntryInfo { path: "/w/readme.md".to_string(), is_file: true },
        DirEntryInfo { path: "/w/a.webm".to_string(), is_file: true },
    ];
    let items = media_from_entries(&entries);
    assert_eq!(items.len(), 2);
    assert_eq!(items[0].path, "/w/b.PNG");
    assert_eq!(items[0].media_type, MediaType::Image);
    assert!(items[0].included);
    assert_eq!(items[1].path, "/w/a.webm");
    assert_eq!(items[1].media_type, MediaType::Video);
    assert!(items[1].included);
}

#[test]
fn empty_listing_gives_nothing() {
    assert!(media_from_entries(&Vec::new()).is_empty());
}
