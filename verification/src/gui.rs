use vstd::prelude::*;
use crate::paths::{join_path, joined};

verus! {

/// The configuration file under the user's configuration directory (`~/.config`):
/// `com.smart-wallpaper.app/config.json`.
pub open spec fn config_file_in(config_home: Seq<char>) -> Seq<char> {
    joined(joined(config_home, "com.smart-wallpaper.app"@), "config.json"@)
}

/// The configuration file under the user's configuration directory.
pub fn config_file_path(config_home: &str) -> (r: String)
    ensures
        r@ == config_file_in(config_home@),
{
    let dir = join_path(config_home, "com.smart-wallpaper.app");
    join_path(dir.as_str(), "config.json")
}

/// The path is absolute: on Unix, it starts at the root.
pub open spec fn is_absolute(p: Seq<char>) -> bool {
    p.len() > 0 && p[0] == '/'
}

/// The path is absolute (`Path::is_absolute` on Unix).
pub fn is_absolute_path(p: &str) -> (r: bool)
    ensures
        r == is_absolute(p@),
{
    p.unicode_len() > 0 && p.get_char(0) == '/'
}

/// Refuses a video path that is not absolute, with the message shown to the user.
pub fn check_video_path(p: &str) -> (r: Result<(), String>)
    ensures
        r is Ok <==> is_absolute(p@),
        r matches Err(e) ==> e@ == "Video path must be absolute"@,
{
    if is_absolute_path(p) {
        Ok(())
    } else {
        Err("Video path must be absolute".to_owned())
    }
}

/// Where the thumbnail of a video is stored: beside it, with `.thumb.jpg` appended.
pub open spec fn thumbnail_of(video: Seq<char>) -> Seq<char> {
    video + ".thumb.jpg"@
}

/// Where the thumbnail of a video is stored.
pub fn thumbnail_path_for(video: &str) -> (r: String)
    ensures
        r@ == thumbnail_of(video@),
{
    let mut out = video.to_owned();
    out.append(".thumb.jpg");
    out
}

/// Refuses to go on when `ffmpeg` was not found, with the message shown to the user.
pub fn check_ffmpeg_found(found: bool) -> (r: Result<(), String>)
    ensures
        r is Ok <==> found,
        r matches Err(e) ==> e@
            == "ffmpeg is not installed. Please install ffmpeg to generate thumbnails."@,
{
    if found {
        Ok(())
    } else {
        Err("ffmpeg is not installed. Please install ffmpeg to generate thumbnails.".to_owned())
    }
}

/// What a thumbnail request answers once the thumbnail file exists or `ffmpeg` has run:
/// the thumbnail's path when it already existed or `ffmpeg` succeeded, an error otherwise.
pub fn thumbnail_result(output_path: &str, already_there: bool, ffmpeg_succeeded: bool) -> (r: Result<String, String>)
    ensures
        r is Ok <==> (already_there || ffmpeg_succeeded),
        r matches Ok(p) ==> p@ == output_path@,
        r matches Err(e) ==> e@ == "Failed to generate thumbnail"@,
{
    if already_there || ffmpeg_succeeded {
        Ok(output_path.to_owned())
    } else {
        Err("Failed to generate thumbnail".to_owned())
    }
}

/// The arguments for `ffmpeg` that write the frame at one second into the video to the
/// thumbnail file, overwriting it.
pub open spec fn thumbnail_args_of(video: Seq<char>, out: Seq<char>) -> Seq<Seq<char>> {
    seq!["-y"@, "-i"@, video, "-ss"@, "00:00:01"@, "-vframes"@, "1"@, out]
}

/// The arguments for `ffmpeg` that make a video's thumbnail.
pub fn thumbnail_ffmpeg_args(video: &str, out: &str) -> (r: Vec<String>)
    ensures
        r@.map_values(|s: String| s@) == thumbnail_args_of(video@, out@),
{
    let mut v: Vec<String> = Vec::new();
    v.push("-y".to_owned());
    v.push("-i".to_owned());
    v.push(video.to_owned());
    v.push("-ss".to_owned());
    v.push("00:00:01".to_owned());
    v.push("-vframes".to_owned());
    v.push("1".to_owned());
    v.push(out.to_owned());
    proof {
        assert(v@.map_values(|s: String| s@) =~= thumbnail_args_of(video@, out@));
    }
    v
}

} // verus!
