//! The `genword` command: a made-up word from two dictionary words.
use vstd::prelude::*;
use rand::seq::SliceRandom;
use crate::plugin::{ExclusiveEntry, OnCommand, PluginContext, RegisterOnCommandHandler};
use crate::text::{string_views, text_eq};
use vstd::utf8::encode_utf8;

verus! {

/// Whether `c` is lower case, as `char::is_lowercase` decides.
pub uninterp spec fn char_is_lowercase(c: char) -> bool;

/// Whether `c` is a letter or a digit, as `char::is_alphanumeric` decides.
pub uninterp spec fn char_is_alphanumeric(c: char) -> bool;

/// Relies on `char::is_lowercase`: the Unicode `Lowercase` property of `c`.
#[verifier::external_body]
fn is_lowercase(c: char) -> (r: bool)
    ensures
        r == char_is_lowercase(c),
{
    c.is_lowercase()
}

/// Relies on `char::is_alphanumeric`: the Unicode `Alphabetic` property or
/// general category `N` of `c`.
#[verifier::external_body]
fn is_alphanumeric(c: char) -> (r: bool)
    ensures
        r == char_is_alphanumeric(c),
{
    c.is_alphanumeric()
}

/// Relies on `rand::seq::SliceRandom::choose` with `rand::thread_rng`: one
/// of the words, picked at random, or none when there is none.
#[verifier::external_body]
fn choose_word(words: &Vec<String>) -> (r: Option<String>)
    ensures
        r is None <==> words@.len() == 0,
        r matches Some(w) ==> exists|i: int| 0 <= i < words@.len() && (#[trigger] words@[i])@ == w@,
{
    words.choose(&mut rand::thread_rng()).cloned()
}

/// The shortest word, in bytes, that the dictionary offers.
pub const MIN_WORD_BYTES: usize = 3;

/// Whether a dictionary line is offered as a word: lower-case letters and
/// digits only, and at least `MIN_WORD_BYTES` bytes long.
pub open spec fn is_dictionary_word(w: Seq<char>) -> bool {
    &&& forall|k: int| 0 <= k < w.len() ==> char_is_lowercase(#[trigger] w[k]) && char_is_alphanumeric(w[k])
    &&& encode_utf8(w).len() as usize >= MIN_WORD_BYTES
}

pub fn is_dictionary_line(w: &str) -> (r: bool)
    ensures
        r == is_dictionary_word(w@),
{
    let n = w.unicode_len();
    let mut i: usize = 0;
    while i < n
        invariant
            n == w@.len(),
            i <= n,
            forall|k: int| 0 <= k < i ==> char_is_lowercase(#[trigger] w@[k]) && char_is_alphanumeric(w@[k]),
        decreases n - i,
    {
        let c = w.get_char(i);
        if !(is_lowercase(c) && is_alphanumeric(c)) {
            return false;
        }
        i += 1;
    }
    w.len() >= MIN_WORD_BYTES
}

pub open spec fn keep_word() -> spec_fn(Seq<char>) -> bool {
    |w: Seq<char>| is_dictionary_word(w)
}

/// The lines of a dictionary that are offered as words, in order.
pub fn dictionary_words(lines: Vec<String>) -> (r: Vec<String>)
    ensures
        string_views(r@) == string_views(lines@).filter(keep_word()),
{
    let ghost src = string_views(lines@);
    let mut out: Vec<String> = Vec::new();
    let mut i: usize = 0;
    while i < lines.len()
        invariant
            i <= lines@.len(),
            src == string_views(lines@),
            string_views(out@) == src.take(i as int).filter(keep_word()),
        decreases lines@.len() - i,
    {
        let ghost before = out@;
        proof {
            assert(src.take(i + 1) =~= src.take(i as int).push(src[i as int]));
            src.take(i as int).lemma_filter_push(src[i as int], keep_word());
        }
        if is_dictionary_line(lines[i].as_str()) {
            let w = lines[i].clone();
            out.push(w);
            proof {
                assert(string_views(out@) =~= string_views(before).push(w@));
            }
        }
        i += 1;
    }
    proof {
        assert(src.take(lines@.len() as int) =~= src);
    }
    out
}

/// What stands in for a word when the dictionary holds none.
pub const NO_WORD: &'static str = "No word in word list";

/// A word of the dictionary, picked at random: the load error when the
/// dictionary could not be read, `NO_WORD` when it is empty.
pub fn random_word(words: &Result<Vec<String>, String>) -> (r: Result<String, String>)
    ensures
        match words {
            Err(e) => r matches Err(m) && m@ == e@,
            Ok(ws) => match r {
                Ok(w) => exists|i: int| 0 <= i < ws@.len() && (#[trigger] ws@[i])@ == w@,
                Err(m) => ws@.len() == 0 && m@ == NO_WORD@,
            },
        },
{
    match words {
        Err(e) => Err(e.clone()),
        Ok(ws) => match choose_word(ws) {
            Some(w) => Ok(w),
            None => Err(String::from_str(NO_WORD)),
        },
    }
}

/// A made-up word: two words of the dictionary, picked at random, one
/// after the other.
pub fn gen_word(words: &Result<Vec<String>, String>) -> (r: Result<String, String>)
    ensures
        match words {
            Err(e) => r matches Err(m) && m@ == e@,
            Ok(ws) => match r {
                Ok(w) => exists|i: int, j: int|
                    0 <= i < ws@.len() && 0 <= j < ws@.len() && w@ == (#[trigger] ws@[i])@ + (
                    #[trigger] ws@[j])@,
                Err(m) => ws@.len() == 0 && m@ == NO_WORD@,
            },
        },
{
    let first = match random_word(words) {
        Ok(w) => w,
        Err(e) => return Err(e),
    };
    let second = match random_word(words) {
        Ok(w) => w,
        Err(e) => return Err(e),
    };
    let mut word = first;
    word.append(second.as_str());
    Ok(word)
}

/// The word-generator plugin.
pub struct GenWord {}

impl GenWord {
    /// The plugin, with its request to own the `genword` command.
    pub fn new(ctx: &PluginContext) -> (r: (GenWord, RegisterOnCommandHandler))
        ensures
            r.1.command@ == "genword"@,
            r.1.handler@ == (ExclusiveEntry { plugin: ctx@.id, recipient: ctx@.address }),
    {
        (GenWord {  }, ctx.on_command(String::from_str("genword"), ctx.recipient()))
    }

    /// The reply to a `genword` command: a made-up word, or a note that none
    /// could be made. Any other command gets no reply.
    pub fn handle(&self, event: &OnCommand, words: &Result<Vec<String>, String>) -> (r: Option<String>)
        ensures
            event.command@ != "genword"@ ==> r is None,
            event.command@ == "genword"@ ==> match words {
                Err(_) => r matches Some(m) && m@ == "Failed to generate word"@,
                Ok(ws) => match r {
                    Some(m) => (ws@.len() == 0 && m@ == "Failed to generate word"@) || exists|
                        i: int,
                        j: int,
                    |
                        0 <= i < ws@.len() && 0 <= j < ws@.len() && m@ == (#[trigger] ws@[i])@ + (
                        #[trigger] ws@[j])@,
                    None => false,
                },
            },
    {
        if !text_eq(event.command.as_str(), "genword") {
            return None;
        }
        match gen_word(words) {
            Ok(word) => Some(word),
            Err(_) => Some(String::from_str("Failed to generate word")),
        }
    }
}

} // verus!
