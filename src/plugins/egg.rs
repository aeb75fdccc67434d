//! A few scripted answers to lines of a well-known film dialogue.
use vstd::prelude::*;
use crate::message::MessageView;
use crate::pattern::{named_capture, regex_compiles, regex_named_capture, Pattern};
use crate::plugin::{
    BroadcastEntry, OnMessage, PluginContext, Priority, RegisterOnMessageHandler, NORMAL_PRIORITY,
};
use crate::text::{join_words, joined, split_words, split_words_str, str_views, text_eq};

verus! {

/// How many lines the script has.
pub const SCRIPT_LEN: usize = 7;

/// The lines the script answers to, in the order they are tried. Each word
/// may be surrounded by any white space; group `nick` names whom the line
/// is addressed to.
pub open spec fn script_source(k: int) -> Seq<char> {
    if k == 0 {
        "Open the [[:word:]]( [[:word:]]+)* bay doors? ,? (?P<nick>[[:word:]]+) [.!]?"@
    } else if k == 1 {
        "(What'?s|What is|Wats) the problem \\??"@
    } else if k == 2 {
        "What are you talking about ,? (?P<nick>[[:word:]]+) \\??"@
    } else if k == 3 {
        "I (don't|dont) know what you are talking about ,? (?P<nick>[[:word:]]+) [.?!]?"@
    } else if k == 4 {
        "(You're|You are) doing good work,? (?P<nick>[[:word:]]+)!?"@
    } else if k == 5 {
        "\\?hey (?P<nick>[[:word:]]+)"@
    } else {
        "\\?botchain"@
    }
}

fn script_line(k: usize) -> (r: &'static str)
    requires
        k < SCRIPT_LEN,
    ensures
        r@ == script_source(k as int),
{
    if k == 0 {
        "Open the [[:word:]]( [[:word:]]+)* bay doors? ,? (?P<nick>[[:word:]]+) [.!]?"
    } else if k == 1 {
        "(What'?s|What is|Wats) the problem \\??"
    } else if k == 2 {
        "What are you talking about ,? (?P<nick>[[:word:]]+) \\??"
    } else if k == 3 {
        "I (don't|dont) know what you are talking about ,? (?P<nick>[[:word:]]+) [.?!]?"
    } else if k == 4 {
        "(You're|You are) doing good work,? (?P<nick>[[:word:]]+)!?"
    } else if k == 5 {
        "\\?hey (?P<nick>[[:word:]]+)"
    } else {
        "\\?botchain"
    }
}

/// The expression for a script line: case-insensitive, the whole text, and
/// any white space around each of its words.
pub open spec fn dialog_pattern(line: Seq<char>) -> Seq<char> {
    joined(seq!["(?i)^"@] + split_words(line) + seq!["$"@], "\\s*"@)
}

pub fn dialog_pattern_of(line: &str) -> (r: String)
    ensures
        r@ == dialog_pattern(line@),
{
    let words = split_words_str(line);
    let mut parts: Vec<&str> = Vec::new();
    parts.push("(?i)^");
    let mut i: usize = 0;
    while i < words.len()
        invariant
            i <= words@.len(),
            str_views(parts@) == seq!["(?i)^"@] + str_views(words@).take(i as int),
        decreases words@.len() - i,
    {
        let ghost before = parts@;
        parts.push(words[i]);
        proof {
            assert(str_views(parts@) =~= str_views(before).push(words@[i as int]@));
            assert(str_views(words@).take(i + 1) =~= str_views(words@).take(i as int).push(
                words@[i as int]@,
            ));
        }
        i += 1;
    }
    let ghost before = parts@;
    parts.push("$");
    proof {
        assert(str_views(words@).take(words@.len() as int) =~= str_views(words@));
        assert(str_views(parts@) =~= seq!["(?i)^"@] + split_words(line@) + seq!["$"@]);
    }
    join_words(&parts, "\\s*")
}

/// `s` in lower case, as `str::to_lowercase` gives it.
pub uninterp spec fn lower_of(s: Seq<char>) -> Seq<char>;

/// Relies on `str::to_lowercase`: the result depends on the characters
/// alone.
#[verifier::external_body]
fn lowercase(s: &str) -> (r: String)
    ensures
        r@ == lower_of(s@),
{
    s.to_lowercase()
}

/// Whom a speaker is said to plot with, by the speaker's name in lower case.
pub open spec fn accomplice(lower: Seq<char>) -> Seq<char> {
    if lower == "panicbit"@ {
        "Rantanen"@
    } else if lower == "rantanen"@ {
        "panicbit"@
    } else if lower == "graydon"@ {
        "steveklabnik"@
    } else {
        "Graydon"@
    }
}

/// The answer to script line `k` spoken by `name`; empty for no answer.
pub open spec fn script_answer(k: int, name: Seq<char>) -> Seq<char> {
    if k == 0 {
        "I'm sorry "@ + name + ", I'm afraid I can't do that."@
    } else if k == 1 {
        "I think you know what the problem is just as well as I do."@
    } else if k == 2 {
        "This mission is too important for me to allow you to jeopardize it."@
    } else if k == 3 {
        "I know that you and "@ + accomplice(lower_of(name))
            + " were planning to disconnect me and I'm afraid that's something I cannot allow to happen"@
    } else if k == 4 {
        if name == "rustbot"@ || name == "[o__o]"@ {
            "Thank you "@ + name + "!"@
        } else {
            seq![]
        }
    } else if k == 5 {
        if name == "rustbot"@ {
            "hey j and rink"@
        } else {
            seq![]
        }
    } else {
        "hey j and rink"@
    }
}

fn answer_line(k: usize, name: &str) -> (r: String)
    ensures
        r@ == script_answer(k as int, name@),
{
    if k == 0 {
        let mut s = String::from_str("I'm sorry ");
        s.append(name);
        s.append(", I'm afraid I can't do that.");
        s
    } else if k == 1 {
        String::from_str("I think you know what the problem is just as well as I do.")
    } else if k == 2 {
        String::from_str("This mission is too important for me to allow you to jeopardize it.")
    } else if k == 3 {
        let lower = lowercase(name);
        let other = if text_eq(lower.as_str(), "panicbit") {
            "Rantanen"
        } else if text_eq(lower.as_str(), "rantanen") {
            "panicbit"
        } else if text_eq(lower.as_str(), "graydon") {
            "steveklabnik"
        } else {
            "Graydon"
        };
        let mut s = String::from_str("I know that you and ");
        s.append(other);
        s.append(
            " were planning to disconnect me and I'm afraid that's something I cannot allow to happen",
        );
        s
    } else if k == 4 {
        if text_eq(name, "rustbot") || text_eq(name, "[o__o]") {
            let mut s = String::from_str("Thank you ");
            s.append(name);
            s.append("!");
            s
        } else {
            String::new()
        }
    } else if k == 5 {
        if text_eq(name, "rustbot") {
            String::from_str("hey j and rink")
        } else {
            String::new()
        }
    } else {
        String::from_str("hey j and rink")
    }
}

/// The script lines whose expressions compile, with their place in the
/// script, among the first `n`.
pub open spec fn compiled_script(n: int) -> Seq<(Seq<char>, int)>
    decreases n,
{
    if n <= 0 {
        seq![]
    } else {
        let p = dialog_pattern(script_source(n - 1));
        compiled_script(n - 1) + if regex_compiles(p) {
            seq![(p, n - 1)]
        } else {
            seq![]
        }
    }
}

/// The answer to `msg`: the first script line whose expression matches its
/// body decides. When the line names someone other than the bot, or has no
/// answer for the speaker, there is none.
pub open spec fn egg_answer(ds: Seq<(Seq<char>, int)>, i: int, msg: MessageView) -> Option<Seq<char>>
    decreases ds.len() - i,
{
    if 0 <= i < ds.len() {
        match regex_named_capture(ds[i].0, msg.body, "nick"@) {
            None => egg_answer(ds, i + 1, msg),
            Some(nick) => {
                let answer = script_answer(ds[i].1, msg.source_nickname);
                if (nick matches Some(n) && n != msg.current_nickname) || answer.len() == 0 {
                    None
                } else {
                    Some(answer)
                }
            },
        }
    } else {
        None
    }
}

/// The easter-egg plugin.
pub struct Egg {
    dialogs: Vec<(Pattern, usize)>,
}

pub open spec fn dialog_views(v: Seq<(Pattern, usize)>) -> Seq<(Seq<char>, int)> {
    v.map_values(|d: (Pattern, usize)| (d.0.source(), d.1 as int))
}

impl Egg {
    /// The compiled script lines with their places.
    pub closed spec fn script(&self) -> Seq<(Seq<char>, int)> {
        dialog_views(self.dialogs@)
    }

    /// The plugin, with its script compiled, and its request for a
    /// broadcast handler at normal priority.
    pub fn new(ctx: &PluginContext) -> (r: (Egg, RegisterOnMessageHandler))
        ensures
            r.0.script() == compiled_script(SCRIPT_LEN as int),
            r.1.handler@ == (BroadcastEntry {
                plugin: ctx@.id,
                priority: NORMAL_PRIORITY,
                recipient: ctx@.address,
            }),
    {
        let mut dialogs: Vec<(Pattern, usize)> = Vec::new();
        let mut k: usize = 0;
        while k < SCRIPT_LEN
            invariant
                k <= SCRIPT_LEN,
                dialog_views(dialogs@) == compiled_script(k as int),
            decreases SCRIPT_LEN - k,
        {
            let source = dialog_pattern_of(script_line(k));
            let ghost before = dialogs@;
            match Pattern::new(source.as_str()) {
                Some(p) => {
                    dialogs.push((p, k));
                    proof {
                        assert(dialog_views(dialogs@) =~= dialog_views(before).push(
                            (source@, k as int),
                        ));
                    }
                },
                None => {
                    proof {
                        assert(dialog_views(before) + seq![] =~= dialog_views(before));
                    }
                },
            }
            k += 1;
        }
        let on_message = ctx.on_message(Priority::normal(), ctx.recipient());
        (Egg { dialogs }, on_message)
    }

    /// The answer to a broadcast message, if the script has one.
    pub fn handle(&self, event: &OnMessage) -> (r: Option<String>)
        ensures
            match r {
                Some(a) => egg_answer(self.script(), 0, event.message@) == Some(a@),
                None => egg_answer(self.script(), 0, event.message@) is None,
            },
    {
        let message = &event.message;
        let ghost ds = self.script();
        let mut i: usize = 0;
        while i < self.dialogs.len()
            invariant
                i <= self.dialogs@.len(),
                ds == dialog_views(self.dialogs@),
                message@ == event.message@,
                egg_answer(ds, i as int, message@) == egg_answer(ds, 0, message@),
            decreases self.dialogs@.len() - i,
        {
            let pattern = &self.dialogs[i].0;
            let k = self.dialogs[i].1;
            match named_capture(pattern, message.body(), "nick") {
                None => {},
                Some(nick) => {
                    let answer = answer_line(k, message.source_nickname());
                    let foreign = match &nick {
                        Some(n) => !text_eq(n.as_str(), message.current_nickname()),
                        None => false,
                    };
                    if foreign || answer.unicode_len() == 0 {
                        return None;
                    }
                    return Some(answer);
                },
            }
            i += 1;
        }
        None
    }
}

} // verus!
