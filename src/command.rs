//! Splitting a message body into a command name and its arguments.
use vstd::prelude::*;
use crate::text::{
    is_space, lemma_scan_space, lemma_scan_word, lemma_trim_back, scan_space, scan_space_at,
    scan_word, scan_word_at, split_words, split_words_str, str_views, trim, trim_back, trim_str,
};

verus! {

/// What a parsed command holds.
pub struct CommandView {
    pub name: Seq<char>,
    pub args: Seq<Seq<char>>,
    pub raw_args: Seq<char>,
}

/// Whether `prefix` starts `s`.
pub open spec fn starts_with(s: Seq<char>, prefix: Seq<char>) -> bool {
    prefix.len() <= s.len() && s.take(prefix.len() as int) == prefix
}

/// The command that `body` holds under `prefix`: the body is trimmed, must
/// start with the prefix, and the rest splits at its first run of white space
/// into a non-empty name and the raw arguments.
pub open spec fn parse_command(prefix: Seq<char>, body: Seq<char>) -> Option<CommandView> {
    let t = trim(body);
    if starts_with(t, prefix) {
        let rest = t.skip(prefix.len() as int);
        let e = scan_word(rest, 0, rest.len() as int);
        if e == 0 {
            None
        } else {
            let raw = rest.skip(scan_space(rest, e, rest.len() as int));
            Some(CommandView { name: rest.take(e), args: split_words(raw), raw_args: raw })
        }
    } else {
        None
    }
}

/// A command parsed out of a message body, borrowing from it.
pub struct Command<'msg> {
    name: &'msg str,
    args: Vec<&'msg str>,
    raw_args: &'msg str,
}

impl<'msg> View for Command<'msg> {
    type V = CommandView;

    closed spec fn view(&self) -> CommandView {
        CommandView { name: self.name@, args: str_views(self.args@), raw_args: self.raw_args@ }
    }
}

impl<'msg> Command<'msg> {
    /// Parses `msg` as a command introduced by `prefix`.
    pub fn parse(prefix: &str, msg: &'msg str) -> (r: Option<Command<'msg>>)
        ensures
            match r {
                Some(c) => parse_command(prefix@, msg@) == Some(c@),
                None => parse_command(prefix@, msg@) is None,
            },
    {
        let t = trim_str(msg);
        let tn = t.unicode_len();
        let pn = prefix.unicode_len();
        if tn < pn {
            return None;
        }
        let mut k: usize = 0;
        while k < pn
            invariant
                pn == prefix@.len(),
                tn == t@.len(),
                t@ == trim(msg@),
                pn <= tn,
                k <= pn,
                forall|j: int| 0 <= j < k ==> t@[j] == prefix@[j],
            decreases pn - k,
        {
            if t.get_char(k) != prefix.get_char(k) {
                proof {
                    assert(t@.take(pn as int)[k as int] != prefix@[k as int]);
                    assert(t@.take(pn as int) != prefix@);
                }
                return None;
            }
            k += 1;
        }
        proof {
            assert(t@.take(pn as int) =~= prefix@);
        }
        let rest = t.substring_char(pn, tn);
        let rn = rest.unicode_len();
        let e = scan_word_at(rest, rn, 0, rn);
        if e == 0 {
            return None;
        }
        let name = rest.substring_char(0, e);
        let r = scan_space_at(rest, rn, e, rn);
        let raw_args = rest.substring_char(r, rn);
        let args = split_words_str(raw_args);
        Some(Command { name, args, raw_args })
    }

    pub fn name(&self) -> (r: &'msg str)
        ensures
            r@ == self@.name,
    {
        self.name
    }

    pub fn args(&self) -> (r: &[&'msg str])
        ensures
            str_views(r@) == self@.args,
    {
        self.args.as_slice()
    }

    pub fn raw_args(&self) -> (r: &'msg str)
        ensures
            r@ == self@.raw_args,
    {
        self.raw_args
    }
}

/// A body whose trimmed text does not start with the prefix is no command.
pub proof fn lemma_parse_requires_prefix(prefix: Seq<char>, body: Seq<char>)
    requires
        !starts_with(trim(body), prefix),
    ensures
        parse_command(prefix, body) is None,
{
}

/// Writing a prefix, a name, one space and arguments gives back that name,
/// the arguments verbatim as the raw arguments, and their words as the
/// arguments. White space at the outer ends would be trimmed away and white
/// space in the name would end it, so the prefix and the arguments neither
/// start nor end with white space and the name holds none.
pub proof fn lemma_parse_composed(prefix: Seq<char>, name: Seq<char>, args: Seq<char>)
    requires
        prefix.len() > 0 ==> !is_space(prefix[0]),
        name.len() > 0,
        forall|k: int| 0 <= k < name.len() ==> !is_space(#[trigger] name[k]),
        args.len() > 0 ==> !is_space(args[0]) && !is_space(args[args.len() - 1]),
    ensures
        parse_command(prefix, prefix + name + seq![' '] + args) == Some(
            CommandView { name: name, args: split_words(args), raw_args: args },
        ),
{
    let body = prefix + name + seq![' '] + args;
    let n = body.len() as int;
    let pl = prefix.len() as int;
    let nl = name.len() as int;
    assert(body[pl + nl] == ' ');
    assert(is_space(' '));
    assert(forall|k: int| 0 <= k < nl ==> body[pl + k] == name[k]);
    assert(forall|k: int| 0 <= k < args.len() ==> body[pl + nl + 1 + k] == args[k]);
    // the body starts with no white space
    lemma_scan_space(body, 0, n);
    let a = scan_space(body, 0, n);
    if pl > 0 {
        assert(body[0] == prefix[0]);
    } else {
        assert(body[0] == name[0]);
    }
    assert(a == 0);
    // and ends either at the last argument or at the name
    lemma_trim_back(body, 0, n);
    let b = trim_back(body, 0, n);
    let end = if args.len() > 0 {
        n
    } else {
        pl + nl
    };
    if args.len() > 0 {
        assert(body[n - 1] == args[args.len() - 1]);
        assert(b == n);
    } else {
        assert(body[n - 1] == ' ');
        assert(trim_back(body, 0, n) == trim_back(body, 0, n - 1));
        assert(body[n - 2] == name[nl - 1]);
        assert(b == n - 1);
    }
    let t = trim(body);
    assert(t =~= body.subrange(0, end));
    assert(t.take(pl) =~= prefix);
    let rest = t.skip(pl);
    let rl = rest.len() as int;
    assert(rest =~= if args.len() > 0 {
        name + seq![' '] + args
    } else {
        name
    });
    lemma_scan_word(rest, 0, rl);
    let e = scan_word(rest, 0, rl);
    assert(forall|k: int| 0 <= k < nl ==> rest[k] == name[k]);
    if e < nl {
        assert(!is_space(rest[e]));
    }
    if args.len() > 0 {
        assert(rest[nl] == ' ');
    }
    assert(e == nl);
    assert(rest.take(e) =~= name);
    lemma_scan_space(rest, e, rl);
    let r = scan_space(rest, e, rl);
    if args.len() > 0 {
        assert(rest[nl + 1] == args[0]);
        assert(r == nl + 1);
    } else {
        assert(r == nl);
    }
    assert(rest.skip(r) =~= args);
}

} // verus!
