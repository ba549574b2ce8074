//! Command construction for the external download tool: quality resolution
//! and the full argument list for one download.

use vstd::prelude::*;
use vstd::string::*;
use crate::text::str_eq;

verus! {

/// The format-selection expression for each quality selector. Total: any
/// selector outside the closed enumeration falls back to the best available
/// format.
pub open spec fn quality_format_spec(q: Seq<char>) -> Seq<char> {
    if q == "1080p"@ {
        "best[height<=1080]"@
    } else if q == "720p"@ {
        "best[height<=720]"@
    } else if q == "480p"@ {
        "best[height<=480]"@
    } else if q == "360p"@ {
        "best[height<=360]"@
    } else if q == "Audio Only"@ {
        "bestaudio"@
    } else {
        "best"@
    }
}

/// Resolves a quality selector to the tool's format-selection expression.
pub fn quality_to_format(quality: &str) -> (r: String)
    ensures
        r@ == quality_format_spec(quality@),
{
    if str_eq(quality, "1080p") {
        String::from_str("best[height<=1080]")
    } else if str_eq(quality, "720p") {
        String::from_str("best[height<=720]")
    } else if str_eq(quality, "480p") {
        String::from_str("best[height<=480]")
    } else if str_eq(quality, "360p") {
        String::from_str("best[height<=360]")
    } else if str_eq(quality, "Audio Only") {
        String::from_str("bestaudio")
    } else {
        String::from_str("best")
    }
}

/// The quality selectors offered to the user: a closed enumeration.
pub fn quality_options() -> (r: Vec<String>)
    ensures
        r@.len() == 5,
        r@[0]@ == "1080p"@,
        r@[1]@ == "720p"@,
        r@[2]@ == "480p"@,
        r@[3]@ == "360p"@,
        r@[4]@ == "Audio Only"@,
{
    let mut opts: Vec<String> = Vec::new();
    opts.push(String::from_str("1080p"));
    opts.push(String::from_str("720p"));
    opts.push(String::from_str("480p"));
    opts.push(String::from_str("360p"));
    opts.push(String::from_str("Audio Only"));
    opts
}

/// The argument list for one download: format selection, a machine-parsable
/// progress template in exactly the parser's line format, newline-delimited
/// streaming output, the output path template under the chosen directory,
/// and the resource locator last.
pub fn build_args(url: &str, quality: &str, download_folder: &str) -> (r: Vec<String>)
    ensures
        r@.len() == 8,
        r@[0]@ == "-f"@,
        r@[1]@ == quality_format_spec(quality@),
        r@[2]@ == "--progress-template"@,
        r@[3]@ == "downloaded_bytes:%(progress._percent_str)s"@,
        r@[4]@ == "--newline"@,
        r@[5]@ == "-o"@,
        r@[6]@ == download_folder@ + "/%(title)s.%(ext)s"@,
        r@[7]@ == url@,
{
    let mut args: Vec<String> = Vec::new();
    args.push(String::from_str("-f"));
    args.push(quality_to_format(quality));
    args.push(String::from_str("--progress-template"));
    args.push(String::from_str("downloaded_bytes:%(progress._percent_str)s"));
    args.push(String::from_str("--newline"));
    args.push(String::from_str("-o"));
    args.push(String::from_str(download_folder).concat("/%(title)s.%(ext)s"));
    args.push(String::from_str(url));
    args
}

} // verus!
