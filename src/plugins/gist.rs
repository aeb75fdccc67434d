//! Code kept in GitHub gists: recognising their addresses and finding the
//! Rust file in one.
use vstd::prelude::*;
use crate::pattern::{is_match, named_capture, regex_compiles, regex_is_match, regex_named_capture, Pattern};
use crate::text::{trim, trim_str};

verus! {

/// The address of a gist's page, with the gist's id in group `id`.
pub const GIST_URL: &'static str = "^(https?://)?gist.github.com/([^/ ]+/)?(?P<id>[0-9a-f]+)/?$";

/// The address of a raw file of a gist.
pub const RAW_GIST_URL: &'static str = "^(https?://)?gist.githubusercontent.com/[^/ ]+/[0-9a-f]+/raw(/.*)?";

/// Whether `pattern` compiles and matches `text`.
pub open spec fn matches_pattern(pattern: Seq<char>, text: Seq<char>) -> bool {
    regex_compiles(pattern) && regex_is_match(pattern, text)
}

fn pattern_matches(pattern: &str, text: &str) -> (r: bool)
    ensures
        r == matches_pattern(pattern@, text@),
{
    match Pattern::new(pattern) {
        Some(p) => is_match(&p, text),
        None => false,
    }
}

/// Whether `url` is the address of a gist or of a raw file of one.
pub fn is_gist_or_raw_gist_url(url: &str) -> (r: bool)
    ensures
        r == (matches_pattern(RAW_GIST_URL@, url@) || matches_pattern(GIST_URL@, url@)),
{
    pattern_matches(RAW_GIST_URL, url) || pattern_matches(GIST_URL, url)
}

/// Where the code of a gist is fetched from.
pub enum GistSource {
    /// The raw file itself.
    Raw(String),
    /// The API address that describes the gist and its files.
    Api(String),
    /// The text is no gist address.
    NotAGist,
}

pub open spec fn gist_id(url: Seq<char>) -> Option<Seq<char>> {
    if regex_compiles(GIST_URL@) {
        match regex_named_capture(GIST_URL@, url, "id"@) {
            Some(Some(id)) => Some(id),
            _ => None,
        }
    } else {
        None
    }
}

/// Where to fetch the code of the gist at `url`, once trimmed: a raw file
/// directly, a gist page through the API with the gist's id.
pub fn gist_source(url: &str) -> (r: GistSource)
    ensures
        matches_pattern(RAW_GIST_URL@, trim(url@)) ==> (r matches GistSource::Raw(u) && u@ == trim(
            url@,
        )),
        !matches_pattern(RAW_GIST_URL@, trim(url@)) ==> match gist_id(trim(url@)) {
            Some(id) => r matches GistSource::Api(u) && u@ == "https://api.github.com/gists/"@ + id,
            None => r is NotAGist,
        },
{
    let url = trim_str(url);
    if pattern_matches(RAW_GIST_URL, url) {
        return GistSource::Raw(url.to_owned());
    }
    match Pattern::new(GIST_URL) {
        Some(p) => match named_capture(&p, url, "id") {
            Some(Some(id)) => {
                let mut api = String::from_str("https://api.github.com/gists/");
                api.append(id.as_str());
                GistSource::Api(api)
            },
            _ => GistSource::NotAGist,
        },
        None => GistSource::NotAGist,
    }
}

/// Whether `name` ends in `.rs`.
pub open spec fn is_rust_file(name: Seq<char>) -> bool {
    name.len() >= 3 && name.skip(name.len() - 3) == ".rs"@
}

/// The first file, in the order given, whose name ends in `.rs`.
pub open spec fn first_rust_file(files: Seq<(Seq<char>, Seq<char>)>, i: int) -> Option<Seq<char>>
    decreases files.len() - i,
{
    if 0 <= i < files.len() {
        if is_rust_file(files[i].0) {
            Some(files[i].1)
        } else {
            first_rust_file(files, i + 1)
        }
    } else {
        None
    }
}

pub open spec fn file_views(files: Seq<(String, String)>) -> Seq<(Seq<char>, Seq<char>)> {
    files.map_values(|f: (String, String)| (f.0@, f.1@))
}

/// The content of the first of `files` (name, content) whose name ends in
/// `.rs`.
pub fn pick_rust_file(files: &Vec<(String, String)>) -> (r: Option<String>)
    ensures
        match r {
            Some(c) => first_rust_file(file_views(files@), 0) == Some(c@),
            None => first_rust_file(file_views(files@), 0) is None,
        },
{
    let ghost fs = file_views(files@);
    let mut i: usize = 0;
    while i < files.len()
        invariant
            i <= files@.len(),
            fs == file_views(files@),
            first_rust_file(fs, i as int) == first_rust_file(fs, 0),
        decreases files@.len() - i,
    {
        let name = files[i].0.as_str();
        let n = name.unicode_len();
        if n >= 3 && crate::text::text_eq(name.substring_char(n - 3, n), ".rs") {
            proof {
                assert(name@.skip(n - 3) =~= name@.subrange(n - 3, n as int));
            }
            return Some(files[i].1.clone());
        }
        proof {
            if n >= 3 {
                assert(name@.skip(n - 3) =~= name@.subrange(n - 3, n as int));
            }
        }
        i += 1;
    }
    None
}

} // verus!
