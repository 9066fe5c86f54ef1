use vstd::prelude::*;
use crate::model::{MediaItem, MediaType};
use crate::paths::{lowercase_of, path_extension, path_extension_of, to_lowercase};

verus! {

/// One entry that a listing of the wallpaper directory gave: its path, and whether it is a
/// regular file (directories and symbolic links are not).
#[derive(Debug, Clone)]
pub struct DirEntryInfo {
    pub path: String,
    pub is_file: bool,
}

/// The kind of media that a lower-case file extension stands for: `jpg`, `jpeg`, `png` and
/// `webp` are images; `mp4`, `webm` and `mkv` are videos; anything else is neither.
pub open spec fn media_type_for_lowercase(ext: Seq<char>) -> Option<MediaType> {
    if ext == "jpg"@ || ext == "jpeg"@ || ext == "png"@ || ext == "webp"@ {
        Some(MediaType::Image)
    } else if ext == "mp4"@ || ext == "webm"@ || ext == "mkv"@ {
        Some(MediaType::Video)
    } else {
        None
    }
}

/// The kind of media that a file is, by its extension in lower case.
pub open spec fn file_media_type(path: Seq<char>) -> Option<MediaType> {
    match path_extension_of(path) {
        Some(e) => media_type_for_lowercase(lowercase_of(e)),
        None => None,
    }
}

/// The media item that a directory entry makes: a regular file of a known kind, taken in.
pub open spec fn entry_item(e: DirEntryInfo) -> Option<MediaItem> {
    if e.is_file {
        match file_media_type(e.path@) {
            Some(t) => Some(MediaItem { path: e.path, media_type: t, included: true }),
            None => None,
        }
    } else {
        None
    }
}

/// The media items that a directory listing makes, in the listing's order.
pub open spec fn media_of_entries(es: Seq<DirEntryInfo>) -> Seq<MediaItem>
    decreases es.len(),
{
    if es.len() == 0 {
        Seq::empty()
    } else {
        let r = media_of_entries(es.drop_last());
        match entry_item(es.last()) {
            Some(m) => r.push(m),
            None => r,
        }
    }
}

/// The two texts are the same.
pub(crate) fn same_text(s: &str, t: &str) -> (r: bool)
    ensures
        r == (s@ == t@),
{
    let n = s.unicode_len();
    if n != t.unicode_len() {
        return false;
    }
    let mut i: usize = 0;
    while i < n
        invariant
            n == s@.len(),
            n == t@.len(),
            i <= n,
            forall|j: int| 0 <= j < i ==> s@[j] == t@[j],
        decreases n - i,
    {
        if s.get_char(i) != t.get_char(i) {
            return false;
        }
        i = i + 1;
    }
    proof {
        assert(s@ =~= t@);
    }
    true
}

/// The kind of media that a lower-case file extension stands for.
pub fn media_type_for_lowercase_extension(ext: &str) -> (r: Option<MediaType>)
    ensures
        r == media_type_for_lowercase(ext@),
{
    if same_text(ext, "jpg") || same_text(ext, "jpeg") || same_text(ext, "png") || same_text(
        ext,
        "webp",
    ) {
        Some(MediaType::Image)
    } else if same_text(ext, "mp4") || same_text(ext, "webm") || same_text(ext, "mkv") {
        Some(MediaType::Video)
    } else {
        None
    }
}

/// The kind of media that a file extension stands for, in any case (`JPG` is an image).
pub fn media_type_for_extension(ext: &str) -> (r: Option<MediaType>)
    ensures
        r == media_type_for_lowercase(lowercase_of(ext@)),
{
    let lower = to_lowercase(ext);
    media_type_for_lowercase_extension(lower.as_str())
}

/// The kind of media that a file is, by its extension.
pub fn media_type_of_file(path: &str) -> (r: Option<MediaType>)
    ensures
        r == file_media_type(path@),
{
    match path_extension(path) {
        Some(e) => media_type_for_extension(e.as_str()),
        None => None,
    }
}

/// The media items found in a listing of the wallpaper directory: each regular file with
/// an image or video extension, taken in, in the listing's order.
pub fn media_from_entries(entries: &Vec<DirEntryInfo>) -> (r: Vec<MediaItem>)
    ensures
        r@ == media_of_entries(entries@),
{
    let mut out: Vec<MediaItem> = Vec::new();
    let mut i: usize = 0;
    while i < entries.len()
        invariant
            i <= entries@.len(),
            out@ == media_of_entries(entries@.take(i as int)),
        decreases entries@.len() - i,
    {
        proof {
            assert(entries@.take(i + 1).drop_last() =~= entries@.take(i as int));
            assert(entries@.take(i + 1).last() == entries@[i as int]);
        }
        let e = &entries[i];
        if e.is_file {
            match media_type_of_file(e.path.as_str()) {
                Some(t) => {
                    out.push(MediaItem { path: e.path.clone(), media_type: t, included: true });
                },
                None => {},
            }
        }
        i = i + 1;
    }
    proof {
        assert(entries@.take(i as int) =~= entries@);
    }
    out
}

/// Every item that a directory listing makes is a regular file of a known kind, taken in.
pub proof fn law_discovered_items_are_included(es: Seq<DirEntryInfo>)
    ensures
        forall|i: int|
            0 <= i < media_of_entries(es).len() ==> (#[trigger] media_of_entries(es)[i]).included
                && file_media_type(media_of_entries(es)[i].path@) == Some(
                media_of_entries(es)[i].media_type,
            ),
    decreases es.len(),
{
    if es.len() > 0 {
        law_discovered_items_are_included(es.drop_last());
        let r = media_of_entries(es.drop_last());
        assert forall|i: int| 0 <= i < media_of_entries(es).len() implies (#[trigger] media_of_entries(es)[i]).included
            && file_media_type(media_of_entries(es)[i].path@) == Some(media_of_entries(es)[i].media_type) by {
            if i < r.len() {
                assert(media_of_entries(es)[i] == r[i]);
            }
        }
    }
}

/// The extension table: `jpg`, `jpeg`, `png` and `webp` are images, `mp4`, `webm` and `mkv`
/// are videos, and no other lower-case extension is media.
pub proof fn law_extension_table(ext: Seq<char>)
    ensures
        media_type_for_lowercase(ext) == Some(MediaType::Image) <==> (ext == "jpg"@ || ext
            == "jpeg"@ || ext == "png"@ || ext == "webp"@),
        media_type_for_lowercase(ext) == Some(MediaType::Video) <==> (ext == "mp4"@ || ext
            == "webm"@ || ext == "mkv"@),
        media_type_for_lowercase(ext) is None <==> !(ext == "jpg"@ || ext == "jpeg"@ || ext
            == "png"@ || ext == "webp"@ || ext == "mp4"@ || ext == "webm"@ || ext == "mkv"@),
{
    reveal_strlit("jpg");
    reveal_strlit("jpeg");
    reveal_strlit("png");
    reveal_strlit("webp");
    reveal_strlit("mp4");
    reveal_strlit("webm");
    reveal_strlit("mkv");
    let imgs = seq!["jpg"@, "jpeg"@, "png"@, "webp"@];
    let vids = seq!["mp4"@, "webm"@, "mkv"@];
    assert forall|a: int, b: int| 0 <= a < 4 && 0 <= b < 3 implies #[trigger] imgs[a] != #[trigger] vids[b] by {
        if imgs[a][0] != vids[b][0] {
        } else {
            assert(imgs[a][3] != vids[b][3]);
        }
    }
    assert(imgs[0] == "jpg"@ && imgs[1] == "jpeg"@ && imgs[2] == "png"@ && imgs[3] == "webp"@);
    assert(vids[0] == "mp4"@ && vids[1] == "webm"@ && vids[2] == "mkv"@);
}

/// A listing gives one included item for each regular file whose extension, in lower case,
/// is in the table, in the listing's order, and nothing else: each item has the path of a
/// file of the listing and the kind that its extension names.
pub proof fn law_listing_keeps_media_files(es: Seq<DirEntryInfo>)
    ensures
        media_of_entries(es).len() <= es.len(),
        forall|i: int|
            0 <= i < media_of_entries(es).len() ==> exists|j: int|
                0 <= j < es.len() && es[j].is_file && es[j].path == (
                #[trigger] media_of_entries(es)[i]).path && media_of_entries(es)[i].included && (
                path_extension_of(es[j].path@) matches Some(e) && media_type_for_lowercase(
                    lowercase_of(e),
                ) == Some(media_of_entries(es)[i].media_type)),
        forall|j: int|
            0 <= j < es.len() && (#[trigger] es[j]).is_file && (path_extension_of(es[j].path@) matches Some(e)
                && media_type_for_lowercase(lowercase_of(e)) is Some) ==> exists|i: int|
                0 <= i < media_of_entries(es).len() && media_of_entries(es)[i].path == es[j].path,
    decreases es.len(),
{
    if es.len() > 0 {
        let d = es.drop_last();
        law_listing_keeps_media_files(d);
        let r = media_of_entries(d);
        let rr = media_of_entries(es);
        assert forall|i: int| 0 <= i < rr.len() implies exists|j: int|
            0 <= j < es.len() && es[j].is_file && es[j].path == (#[trigger] rr[i]).path
                && rr[i].included && (path_extension_of(es[j].path@) matches Some(e)
                && media_type_for_lowercase(lowercase_of(e)) == Some(rr[i].media_type)) by {
            if i < r.len() {
                assert(rr[i] == r[i]);
                let j = choose|j: int|
                    0 <= j < d.len() && d[j].is_file && d[j].path == (#[trigger] r[i]).path
                        && r[i].included && (path_extension_of(d[j].path@) matches Some(e)
                        && media_type_for_lowercase(lowercase_of(e)) == Some(r[i].media_type));
                assert(es[j] == d[j]);
            } else {
                assert(es[es.len() - 1] == es.last());
            }
        }
        assert forall|j: int|
            0 <= j < es.len() && (#[trigger] es[j]).is_file && (path_extension_of(es[j].path@) matches Some(e)
                && media_type_for_lowercase(lowercase_of(e)) is Some) implies exists|i: int|
            0 <= i < rr.len() && rr[i].path == es[j].path by {
            if j < d.len() {
                assert(d[j] == es[j]);
                let i = choose|i: int| 0 <= i < r.len() && r[i].path == d[j].path;
                assert(rr[i] == r[i]);
            } else {
                assert(rr[r.len() as int].path == es[j].path);
            }
        }
    }
}

} // verus!
