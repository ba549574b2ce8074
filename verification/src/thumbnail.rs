//! Thumbnail lookup: the address of a video's preview image. Fetching the
//! bytes and decoding them into a bitmap is the shell's job; only the address
//! is the library's rule.

use vstd::prelude::*;
use vstd::string::*;

verus! {

/// The address of the standard high-quality thumbnail for a video id.
pub fn thumbnail_url(video_id: &str) -> (r: String)
    ensures
        r@ == "https://img.youtube.com/vi/"@ + video_id@ + "/hqdefault.jpg"@,
{
    let r = String::from_str("https://img.youtube.com/vi/").concat(video_id).concat(
        "/hqdefault.jpg",
    );
    proof {
        assert(r@ =~= "https://img.youtube.com/vi/"@ + video_id@ + "/hqdefault.jpg"@);
    }
    r
}

} // verus!
