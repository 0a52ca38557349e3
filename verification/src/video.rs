//! Which files hold video.

use std::path::Path;

use vstd::prelude::*;

use crate::paths::{extension_text, path_extension};
use crate::text::{ascii_lowered, same_text, to_ascii_lower};

verus! {

/// The file name endings of video containers.
pub open spec fn video_extensions() -> Seq<Seq<char>> {
    seq![
        "3gp"@,
        "avi"@,
        "flv"@,
        "m2ts"@,
        "m4v"@,
        "mkv"@,
        "mov"@,
        "mp4"@,
        "mpeg"@,
        "mpg"@,
        "mts"@,
        "ts"@,
        "webm"@,
        "wmv"@,
    ]
}

fn known_video_extensions() -> (list: Vec<&'static str>)
    ensures
        list@.len() == video_extensions().len(),
        forall|i: int| 0 <= i < list@.len() ==> (#[trigger] list@[i])@ == video_extensions()[i],
{
    vec![
        "3gp", "avi", "flv", "m2ts", "m4v", "mkv", "mov", "mp4", "mpeg", "mpg", "mts", "ts", "webm",
        "wmv",
    ]
}

/// Whether an ending is one of a video container, whatever its case.
pub fn is_video_extension(extension: &str) -> (yes: bool)
    ensures
        yes == video_extensions().contains(ascii_lowered(extension@)),
{
    let lowered = to_ascii_lower(extension);
    let known = known_video_extensions();
    for i in 0..known.len()
        invariant
            lowered@ == ascii_lowered(extension@),
            known@.len() == video_extensions().len(),
            forall|j: int|
                0 <= j < known@.len() ==> (#[trigger] known@[j])@ == video_extensions()[j],
            forall|j: int| 0 <= j < i ==> video_extensions()[j] != lowered@,
    {
        if same_text(known[i], lowered.as_str()) {
            assert(video_extensions()[i as int] == lowered@);
            return true;
        }
    }
    false
}

/// Whether a path names a video file, by its ending.
pub fn is_video_file(path: &Path) -> (yes: bool)
    ensures
        yes == match path_extension(path) {
            Some(extension) => video_extensions().contains(ascii_lowered(extension)),
            None => false,
        },
{
    match extension_text(path) {
        Some(extension) => is_video_extension(extension.as_str()),
        None => false,
    }
}

/// These endings are those of video containers, and no others.
pub proof fn law_video_containers_are_known(extension: Seq<char>)
    ensures
        video_extensions().contains(extension) <==> (extension == "3gp"@ || extension == "avi"@
            || extension == "flv"@ || extension == "m2ts"@ || extension == "m4v"@ || extension
            == "mkv"@ || extension == "mov"@ || extension == "mp4"@ || extension == "mpeg"@
            || extension == "mpg"@ || extension == "mts"@ || extension == "ts"@ || extension
            == "webm"@ || extension == "wmv"@),
{
    let list = video_extensions();
    assert(list[0] == "3gp"@ && list[1] == "avi"@ && list[2] == "flv"@ && list[3] == "m2ts"@
        && list[4] == "m4v"@ && list[5] == "mkv"@ && list[6] == "mov"@ && list[7] == "mp4"@
        && list[8] == "mpeg"@ && list[9] == "mpg"@ && list[10] == "mts"@ && list[11] == "ts"@
        && list[12] == "webm"@ && list[13] == "wmv"@);
}

} // verus!
