//! Reading chat lines off an IRC connection and cutting replies into lines
//! that IRC carries.
use vstd::prelude::*;
use vstd::utf8::encode_utf8;
use crate::command::starts_with;
use crate::text::{
    lines_of, scan_space, scan_space_at, str_views, string_views, text_lines,
    trim, trim_str,
};

verus! {

/// Whether a trimmed body is a CTCP request: at least two characters, the
/// first and the last `\x01`.
pub open spec fn is_ctcp(t: Seq<char>) -> bool {
    t.len() >= 2 && t[0] == '\u{1}' && t[t.len() - 1] == '\u{1}'
}

/// `s` without leading white space.
pub open spec fn trim_start(s: Seq<char>) -> Seq<char> {
    s.skip(scan_space(s, 0, s.len() as int))
}

/// The body a channel or private message delivers, and whether it was aimed
/// at the bot: none for a CTCP request; a body that starts with the bot's
/// nickname and then `:` or `,` is aimed at it and loses that address; a
/// body that starts with the nickname otherwise is not aimed at it; any
/// other body is aimed at the bot when it came privately.
pub open spec fn privmsg_view(body: Seq<char>, nickname: Seq<char>, to_channel: bool) -> Option<
    (Seq<char>, bool),
> {
    let t = trim(body);
    if is_ctcp(t) {
        None
    } else if starts_with(t, nickname) {
        let after = trim_start(t.skip(nickname.len() as int));
        if after.len() > 0 && (after[0] == ':' || after[0] == ',') {
            Some((trim_start(after.skip(1)), true))
        } else {
            Some((t, false))
        }
    } else {
        Some((t, !to_channel))
    }
}

fn trim_start_str<'a>(s: &'a str) -> (r: &'a str)
    ensures
        r@ == trim_start(s@),
{
    let n = s.unicode_len();
    let a = scan_space_at(s, n, 0, n);
    s.substring_char(a, n)
}

/// The body of an IRC message and whether it was aimed at the bot, as
/// `privmsg_view` gives them.
pub fn read_privmsg(body: &str, nickname: &str, to_channel: bool) -> (r: Option<(String, bool)>)
    ensures
        match r {
            Some((b, addressed)) => privmsg_view(body@, nickname@, to_channel) == Some(
                (b@, addressed),
            ),
            None => privmsg_view(body@, nickname@, to_channel) is None,
        },
{
    let t = trim_str(body);
    let n = t.unicode_len();
    if n >= 2 && t.get_char(0) == '\u{1}' && t.get_char(n - 1) == '\u{1}' {
        return None;
    }
    let k = nickname.unicode_len();
    if k <= n && crate::text::text_eq(t.substring_char(0, k), nickname) {
        let after = trim_start_str(t.substring_char(k, n));
        let an = after.unicode_len();
        if an > 0 && (after.get_char(0) == ':' || after.get_char(0) == ',') {
            let rest = trim_start_str(after.substring_char(1, an));
            return Some((rest.to_owned(), true));
        }
        Some((t.to_owned(), false))
    } else {
        Some((t.to_owned(), !to_channel))
    }
}

/// The longest line, in bytes, that a reply sends as it is.
pub const MAX_LINE_BYTES: usize = 400;

/// What stands in for a line that is too long to send.
pub const TOO_LONG: &'static str = "<<<message too long for irc>>>";

/// The pieces of `s[i..]` between carriage returns.
pub open spec fn cr_pieces(s: Seq<char>, i: int) -> Seq<Seq<char>>
    decreases s.len() - i,
    via cr_pieces_decreases
{
    let e = cr_end(s, i);
    if 0 <= i && e < s.len() {
        seq![s.subrange(i, e)] + cr_pieces(s, e + 1)
    } else {
        seq![s.subrange(i, s.len() as int)]
    }
}

#[via_fn]
proof fn cr_pieces_decreases(s: Seq<char>, i: int) {
    if 0 <= i {
        lemma_cr_end(s, i);
    }
}

/// The first index at or after `i` that holds a carriage return, or the
/// length.
pub open spec fn cr_end(s: Seq<char>, i: int) -> int
    decreases s.len() - i,
{
    if 0 <= i < s.len() && s[i] != '\r' {
        cr_end(s, i + 1)
    } else {
        i
    }
}

pub proof fn lemma_cr_end(s: Seq<char>, i: int)
    requires
        0 <= i,
    ensures
        i <= cr_end(s, i),
        i <= s.len() ==> cr_end(s, i) <= s.len(),
        cr_end(s, i) < s.len() ==> s[cr_end(s, i)] == '\r',
    decreases s.len() - i,
{
    if i < s.len() && s[i] != '\r' {
        lemma_cr_end(s, i + 1);
    }
}

/// A line as it is sent: itself, or a notice when it is too long.
pub open spec fn sendable(line: Seq<char>) -> Seq<char> {
    if encode_utf8(line).len() as usize > MAX_LINE_BYTES {
        TOO_LONG@
    } else {
        line
    }
}

pub open spec fn sendable_fn() -> spec_fn(Seq<char>) -> Seq<char> {
    |p: Seq<char>| sendable(p)
}

/// The IRC lines that send `message`: each of its lines, cut again at every
/// carriage return, each piece that is too long replaced by a notice.
pub open spec fn irc_lines(lines: Seq<Seq<char>>) -> Seq<Seq<char>>
    decreases lines.len(),
{
    if lines.len() == 0 {
        seq![]
    } else {
        irc_lines(lines.drop_last()) + cr_pieces(lines.last(), 0).map_values(sendable_fn())
    }
}

/// The lines that send `message` over IRC.
pub fn reply_lines(message: &str) -> (r: Vec<String>)
    ensures
        string_views(r@) == irc_lines(text_lines(message@)),
{
    let lines = lines_of(message);
    let ghost ls = str_views(lines@);
    let mut out: Vec<String> = Vec::new();
    let mut i: usize = 0;
    while i < lines.len()
        invariant
            i <= lines@.len(),
            ls == str_views(lines@),
            string_views(out@) == irc_lines(ls.take(i as int)),
        decreases lines@.len() - i,
    {
        let line = lines[i];
        let n = line.unicode_len();
        let ghost start = out@;
        let mut j: usize = 0;
        loop
            invariant_except_break
                string_views(out@) + cr_pieces(line@, j as int).map_values(sendable_fn())
                    == irc_lines(ls.take(i as int)) + cr_pieces(line@, 0).map_values(
                    sendable_fn(),
                ),
            invariant
                j <= n,
                n == line@.len(),
                i < lines@.len(),
                ls == str_views(lines@),
                line@ == ls[i as int],
            ensures
                string_views(out@) == irc_lines(ls.take(i as int)) + cr_pieces(line@, 0).map_values(
                    sendable_fn(),
                ),
            decreases n - j,
        {
            proof {
                lemma_cr_end(line@, j as int);
            }
            let mut e = j;
            while e < n && line.get_char(e) != '\r'
                invariant
                    n == line@.len(),
                    j <= e <= n,
                    cr_end(line@, e as int) == cr_end(line@, j as int),
                decreases n - e,
            {
                e += 1;
            }
            let piece = line.substring_char(j, e);
            let text = if piece.len() > MAX_LINE_BYTES {
                TOO_LONG.to_owned()
            } else {
                piece.to_owned()
            };
            let ghost before = out@;
            out.push(text);
            proof {
                assert(text@ == sendable(piece@));
                assert(string_views(out@) =~= string_views(before).push(text@));
            }
            if e == n {
                proof {
                    assert(cr_pieces(line@, j as int) == seq![piece@]);
                    assert(cr_pieces(line@, j as int).map_values(sendable_fn())
                        =~= seq![sendable(piece@)]);
                    assert(string_views(out@) =~= string_views(before) + cr_pieces(
                        line@,
                        j as int,
                    ).map_values(sendable_fn()));
                }
                break;
            }
            proof {
                let rest = cr_pieces(line@, e + 1);
                assert(cr_pieces(line@, j as int) == seq![piece@] + rest);
                assert((seq![piece@] + rest).map_values(sendable_fn()) =~= seq![
                    sendable(piece@),
                ] + rest.map_values(sendable_fn()));
                assert(string_views(out@) + rest.map_values(sendable_fn())
                    =~= string_views(before) + cr_pieces(line@, j as int).map_values(sendable_fn()));
            }
            j = e + 1;
        }
        proof {
            assert(ls.take(i + 1).drop_last() =~= ls.take(i as int));
            assert(ls.take(i + 1).last() == line@);
        }
        i += 1;
    }
    proof {
        assert(ls.take(lines@.len() as int) =~= ls);
    }
    out
}

} // verus!
