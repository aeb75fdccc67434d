//! The `crate` command: looks crates up on crates.io and describes them.
use vstd::prelude::*;
use vstd::utf8::encode_utf8;
use url::percent_encoding::{utf8_percent_encode, PATH_SEGMENT_ENCODE_SET};
use crate::cratesio::{percent_encoded, CrateView, Info};
use crate::plugin::{
    ExclusiveEntry, OnCommand, PluginContext, RegisterOnCommandHandler,
};
use crate::text::{join_words, joined, split_words, split_words_str, str_views, string_views, text_eq};

verus! {

/// The most crates that one command looks up.
pub const MAX_CRATES: usize = 3;

/// The bytes that a path segment carries as they are: printable ASCII other
/// than space, `"`, `#`, `<`, `>`, `` ` ``, `?`, `{`, `}`, `%` and `/`.
pub open spec fn keep_in_path_segment() -> spec_fn(u8) -> bool {
    |b: u8|
        0x20 < b && b < 0x7F && b != 0x22 && b != 0x23 && b != 0x3C && b != 0x3E && b != 0x60 && b
            != 0x3F && b != 0x7B && b != 0x7D && b != 0x25 && b != 0x2F
}

/// Relies on `url::percent_encoding::utf8_percent_encode` with
/// `PATH_SEGMENT_ENCODE_SET`: each UTF-8 byte of `s` that is a control
/// character, not ASCII, or one of ` "#<>`?{}%/` becomes `%` and two
/// upper-case hexadecimal digits.
#[verifier::external_body]
fn encode_path_segment(s: &str) -> (r: String)
    ensures
        r@ == percent_encoded(encode_utf8(s@), keep_in_path_segment()),
{
    utf8_percent_encode(s, PATH_SEGMENT_ENCODE_SET).collect::<String>()
}

/// Why a crate could not be described.
#[derive(Clone, Copy, Debug, PartialEq, Eq, Structural)]
pub enum LookupError {
    /// The registry knows no crate of that name.
    NotFound,
    /// The registry could not be asked, or its answer not read.
    Failed,
}

/// The answer to a lookup of `name`.
pub open spec fn crate_reply(name: Seq<char>, info: Result<CrateView, LookupError>) -> Seq<char> {
    match info {
        Ok(k) => {
            let url_name = percent_encoded(encode_utf8(k.name), keep_in_path_segment());
            k.name + " ("@ + k.max_version + ") - "@ + joined(split_words(k.description), " "@)
                + " -> https://crates.io/crates/"@ + url_name + " [https://docs.rs/crate/"@
                + url_name + "]"@
        },
        Err(LookupError::NotFound) => "Crate '"@ + name + "' does not exist."@,
        Err(LookupError::Failed) => "Failed to get crate info for "@ + name,
    }
}

pub open spec fn info_view(info: &Result<Info, LookupError>) -> Result<CrateView, LookupError> {
    match info {
        Ok(i) => Ok(i@),
        Err(e) => Err(*e),
    }
}

/// The answer to a lookup of `crate_name`: the crate's name, version,
/// description on one line and its pages, or why there is none.
pub fn crate_info_reply(crate_name: &str, info: &Result<Info, LookupError>) -> (r: String)
    ensures
        r@ == crate_reply(crate_name@, info_view(info)),
{
    match info {
        Ok(info) => {
            let krate = info.krate();
            let url_name = encode_path_segment(krate.name());
            let words = split_words_str(krate.description());
            let description = join_words(&words, " ");
            let mut out = String::from_str(krate.name());
            out.append(" (");
            out.append(krate.max_version());
            out.append(") - ");
            out.append(description.as_str());
            out.append(" -> https://crates.io/crates/");
            out.append(url_name.as_str());
            out.append(" [https://docs.rs/crate/");
            out.append(url_name.as_str());
            out.append("]");
            out
        },
        Err(LookupError::NotFound) => {
            let mut out = String::from_str("Crate '");
            out.append(crate_name);
            out.append("' does not exist.");
            out
        },
        Err(LookupError::Failed) => {
            let mut out = String::from_str("Failed to get crate info for ");
            out.append(crate_name);
            out
        },
    }
}

/// The crate-info plugin.
pub struct CrateInfo {}

impl CrateInfo {
    /// The plugin, with its request to own the `crate` command.
    pub fn new(ctx: &PluginContext) -> (r: (CrateInfo, RegisterOnCommandHandler))
        ensures
            r.1.command@ == "crate"@,
            r.1.handler@ == (ExclusiveEntry { plugin: ctx@.id, recipient: ctx@.address }),
    {
        (CrateInfo {  }, ctx.on_command(String::from_str("crate"), ctx.recipient()))
    }

    /// The crates that a `crate` command asks for: its first `MAX_CRATES`
    /// words. Any other command asks for none.
    pub fn handle(&self, event: &OnCommand) -> (r: Vec<String>)
        ensures
            event.command@ == "crate"@ ==> string_views(r@) == (if split_words(
                event.arg@,
            ).len() > MAX_CRATES {
                split_words(event.arg@).take(MAX_CRATES as int)
            } else {
                split_words(event.arg@)
            }),
            event.command@ != "crate"@ ==> r@.len() == 0,
    {
        let mut names: Vec<String> = Vec::new();
        if !text_eq(event.command.as_str(), "crate") {
            return names;
        }
        let words = split_words_str(event.arg.as_str());
        let ghost ws = split_words(event.arg@);
        let count = if words.len() > MAX_CRATES {
            MAX_CRATES
        } else {
            words.len()
        };
        let mut i: usize = 0;
        while i < count
            invariant
                i <= count,
                count <= words@.len(),
                str_views(words@) == ws,
                string_views(names@) == ws.take(i as int),
            decreases count - i,
        {
            let ghost before = names@;
            let w = words[i].to_owned();
            names.push(w);
            proof {
                assert(w@ == ws[i as int]);
                assert(string_views(names@) =~= string_views(before).push(w@));
                assert(ws.take(i + 1) =~= ws.take(i as int).push(ws[i as int]));
                assert(string_views(names@) =~= ws.take(i + 1));
            }
            i += 1;
        }
        proof {
            assert(ws.take(count as int) =~= (if ws.len() > MAX_CRATES {
                ws.take(MAX_CRATES as int)
            } else {
                ws
            }));
        }
        names
    }
}

} // verus!
