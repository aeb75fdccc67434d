//! The `eval` command and direct evaluation: reading flags off the code,
//! wrapping the code in a program, and reading the playground's answer.
use vstd::prelude::*;
use crate::playground::{Channel, CrateType, Mode, Request, RequestView, Response, Version};
use crate::plugin::{
    BroadcastEntry, ExclusiveEntry, OnCommand, OnMessage, PluginContext, Priority,
    RegisterOnCommandHandler, RegisterOnMessageHandler, NORMAL_PRIORITY,
};
use crate::text::{
    lemma_scan_space, lemma_scan_word, lines_of, scan_space, scan_space_at, scan_word,
    scan_word_at, starts_with_str, str_views, string_views, text_eq, text_lines, trim, trim_str,
};

verus! {

/// How the code is wrapped before it runs.
#[derive(Clone, Copy, Debug, PartialEq, Eq, Structural)]
pub enum Template {
    /// The code is an expression whose value is printed.
    Expr,
    /// The code is a whole program or library.
    Bare,
    /// The code is an expression, run with allocation statistics.
    ExprAllocStats,
}

/// What one leading word of the code asks for.
#[derive(Clone, Copy, Debug, PartialEq, Eq, Structural)]
pub enum Flag {
    Channel(Channel),
    Version,
    Template(Template),
    Mode(Mode),
    Edition2015,
    Edition2018,
    Help,
    EndOfFlags,
    NotAFlag,
}

pub open spec fn flag_of(w: Seq<char>) -> Flag {
    if w == "--stable"@ {
        Flag::Channel(Channel::Stable)
    } else if w == "--beta"@ {
        Flag::Channel(Channel::Beta)
    } else if w == "--nightly"@ {
        Flag::Channel(Channel::Nightly)
    } else if w == "--version"@ || w == "VERSION"@ {
        Flag::Version
    } else if w == "--bare"@ || w == "--mini"@ {
        Flag::Template(Template::Bare)
    } else if w == "--allocs"@ || w == "--alloc"@ || w == "--stats"@ || w == "--alloc-stats"@ {
        Flag::Template(Template::ExprAllocStats)
    } else if w == "--debug"@ {
        Flag::Mode(Mode::Debug)
    } else if w == "--release"@ {
        Flag::Mode(Mode::Release)
    } else if w == "--2015"@ {
        Flag::Edition2015
    } else if w == "--2018"@ {
        Flag::Edition2018
    } else if w == "help"@ || w == "h"@ || w == "-h"@ || w == "-help"@ || w == "--help"@ || w
        == "--h"@ {
        Flag::Help
    } else if w == "--"@ {
        Flag::EndOfFlags
    } else {
        Flag::NotAFlag
    }
}

/// What the word `w` asks for.
pub fn classify_flag(w: &str) -> (r: Flag)
    ensures
        r == flag_of(w@),
{
    if text_eq(w, "--stable") {
        Flag::Channel(Channel::Stable)
    } else if text_eq(w, "--beta") {
        Flag::Channel(Channel::Beta)
    } else if text_eq(w, "--nightly") {
        Flag::Channel(Channel::Nightly)
    } else if text_eq(w, "--version") || text_eq(w, "VERSION") {
        Flag::Version
    } else if text_eq(w, "--bare") || text_eq(w, "--mini") {
        Flag::Template(Template::Bare)
    } else if text_eq(w, "--allocs") || text_eq(w, "--alloc") || text_eq(w, "--stats") || text_eq(
        w,
        "--alloc-stats",
    ) {
        Flag::Template(Template::ExprAllocStats)
    } else if text_eq(w, "--debug") {
        Flag::Mode(Mode::Debug)
    } else if text_eq(w, "--release") {
        Flag::Mode(Mode::Release)
    } else if text_eq(w, "--2015") {
        Flag::Edition2015
    } else if text_eq(w, "--2018") {
        Flag::Edition2018
    } else if text_eq(w, "help") || text_eq(w, "h") || text_eq(w, "-h") || text_eq(w, "-help")
        || text_eq(w, "--help") || text_eq(w, "--h") {
        Flag::Help
    } else if text_eq(w, "--") {
        Flag::EndOfFlags
    } else {
        Flag::NotAFlag
    }
}

/// What the flags in front of some code amount to.
pub enum FlagsView {
    /// Report the toolchain version of this channel.
    Version(Channel),
    /// Show the usage help.
    Help,
    /// Run the code that follows the flags, with these settings.
    Run(RequestView, Template, Seq<char>),
}

/// Reads the flags at the start of `s` one word at a time onto `req` and
/// `tpl`. A word that is no flag ends them and starts the code; `--` ends
/// them too and is dropped.
pub open spec fn apply_flags(s: Seq<char>, req: RequestView, tpl: Template) -> FlagsView
    decreases s.len(),
    via apply_flags_decreases
{
    let a = scan_space(s, 0, s.len() as int);
    let e = scan_word(s, a, s.len() as int);
    let rest = s.skip(e);
    if e == a {
        FlagsView::Run(req, tpl, s.skip(a))
    } else {
        match flag_of(s.subrange(a, e)) {
            Flag::Channel(c) => apply_flags(rest, RequestView { channel: c, ..req }, tpl),
            Flag::Version => FlagsView::Version(req.channel),
            Flag::Template(t) => apply_flags(rest, req, t),
            Flag::Mode(m) => apply_flags(rest, RequestView { mode: m, ..req }, tpl),
            Flag::Edition2015 => apply_flags(rest, RequestView { edition: Some("2015"@), ..req }, tpl),
            Flag::Edition2018 => apply_flags(rest, RequestView { edition: Some("2018"@), ..req }, tpl),
            Flag::Help => FlagsView::Help,
            Flag::EndOfFlags => FlagsView::Run(
                req,
                tpl,
                rest.skip(scan_space(rest, 0, rest.len() as int)),
            ),
            Flag::NotAFlag => FlagsView::Run(req, tpl, s.skip(a)),
        }
    }
}

#[via_fn]
proof fn apply_flags_decreases(s: Seq<char>, req: RequestView, tpl: Template) {
    lemma_scan_space(s, 0, s.len() as int);
    let a = scan_space(s, 0, s.len() as int);
    lemma_scan_word(s, a, s.len() as int);
}

/// The settings a fresh request starts from, with no code yet.
pub open spec fn default_request() -> RequestView {
    RequestView {
        channel: Channel::Stable,
        mode: Mode::Debug,
        edition: Some("2018"@),
        crate_type: CrateType::Bin,
        tests: false,
        backtrace: false,
        code: seq![],
    }
}

/// What the flags of `body` ask for.
pub enum Flags {
    Version(Channel),
    Help,
    Run { request: Request, template: Template, code: String },
}

pub open spec fn flags_view(f: Flags) -> FlagsView {
    match f {
        Flags::Version(c) => FlagsView::Version(c),
        Flags::Help => FlagsView::Help,
        Flags::Run { request, template, code } => FlagsView::Run(request@, template, code@),
    }
}

/// Reads the flags in front of the code in `body`, starting from a fresh
/// request that expects an expression.
pub fn parse_flags(body: &str) -> (r: Flags)
    ensures
        flags_view(r) == apply_flags(body@, default_request(), Template::Expr),
{
    let mut request = Request::new(String::new());
    proof {
        assert(request@ == default_request());
    }
    let mut template = Template::Expr;
    let mut cur: &str = body;
    loop
        invariant
            apply_flags(cur@, request@, template) == apply_flags(
                body@,
                default_request(),
                Template::Expr,
            ),
        decreases cur@.len(),
    {
        let n = cur.unicode_len();
        let a = scan_space_at(cur, n, 0, n);
        let e = scan_word_at(cur, n, a, n);
        let rest = cur.substring_char(e, n);
        if e == a {
            return Flags::Run { request, template, code: cur.substring_char(a, n).to_owned() };
        }
        let word = cur.substring_char(a, e);
        match classify_flag(word) {
            Flag::Channel(c) => request.set_channel(c),
            Flag::Version => {
                return Flags::Version(request.channel());
            },
            Flag::Template(t) => template = t,
            Flag::Mode(m) => request.set_mode(m),
            Flag::Edition2015 => request.set_edition(Some(String::from_str("2015"))),
            Flag::Edition2018 => request.set_edition(Some(String::from_str("2018"))),
            Flag::Help => {
                return Flags::Help;
            },
            Flag::EndOfFlags => {
                let rn = rest.unicode_len();
                let b = scan_space_at(rest, rn, 0, rn);
                return Flags::Run { request, template, code: rest.substring_char(b, rn).to_owned() };
            },
            Flag::NotAFlag => {
                return Flags::Run { request, template, code: cur.substring_char(a, n).to_owned() };
            },
        }
        cur = rest;
    }
}

/// The end of the crate attributes (`#![...]`, each after optional white
/// space and closed by the first `]` on its line) that follow `i` in `s`.
pub open spec fn crate_attrs_end(s: Seq<char>, i: int) -> int
    decreases s.len() - i,
    via crate_attrs_end_decreases
{
    let a = scan_space(s, i, s.len() as int);
    if 0 <= i && a + 3 <= s.len() && s[a] == '#' && s[a + 1] == '!' && s[a + 2] == '[' {
        let c = close_bracket(s, a + 3);
        if c < s.len() && s[c] == ']' {
            crate_attrs_end(s, c + 1)
        } else {
            i
        }
    } else {
        i
    }
}

#[via_fn]
proof fn crate_attrs_end_decreases(s: Seq<char>, i: int) {
    if 0 <= i <= s.len() {
        lemma_scan_space(s, i, s.len() as int);
        let a = scan_space(s, i, s.len() as int);
        if a + 3 <= s.len() {
            lemma_close_bracket(s, a + 3);
        }
    }
}

/// The first index at or after `j` that holds `]` or a line break, or the
/// length.
pub open spec fn close_bracket(s: Seq<char>, j: int) -> int
    decreases s.len() - j,
{
    if 0 <= j < s.len() && s[j] != ']' && s[j] != '\n' {
        close_bracket(s, j + 1)
    } else {
        j
    }
}

pub proof fn lemma_close_bracket(s: Seq<char>, j: int)
    requires
        0 <= j <= s.len(),
    ensures
        j <= close_bracket(s, j) <= s.len(),
    decreases s.len() - j,
{
    if j < s.len() && s[j] != ']' && s[j] != '\n' {
        lemma_close_bracket(s, j + 1);
    }
}

/// Where the crate attributes at the start of `code` end.
pub fn crate_attrs_len(code: &str) -> (r: usize)
    ensures
        r == crate_attrs_end(code@, 0),
        r <= code@.len(),
{
    let n = code.unicode_len();
    let mut i: usize = 0;
    loop
        invariant
            n == code@.len(),
            i <= n,
            crate_attrs_end(code@, i as int) == crate_attrs_end(code@, 0),
        decreases n - i,
    {
        let a = scan_space_at(code, n, i, n);
        if n - a >= 3 && code.get_char(a) == '#' && code.get_char(a + 1) == '!' && code.get_char(
            a + 2,
        ) == '[' {
            let mut c = a + 3;
            while c < n && code.get_char(c) != ']' && code.get_char(c) != '\n'
                invariant
                    n == code@.len(),
                    a + 3 <= c <= n,
                    close_bracket(code@, c as int) == close_bracket(code@, a + 3),
                decreases n - c,
            {
                c += 1;
            }
            if c < n && code.get_char(c) == ']' {
                i = c + 1;
            } else {
                return i;
            }
        } else {
            return i;
        }
    }
}

/// The first line of every generated program.
pub const PROGRAM_HEAD: &'static str = "#![allow(unreachable_code)]\n";

/// What comes between the crate attributes and the code of an expression.
pub const EXPR_OPEN: &'static str = "\n\nfn main() {\n    println!(\"{:?}\", {\n        ";

/// What follows the code of an expression.
pub const EXPR_CLOSE: &'static str = "\n    });\n}\n";

/// What comes between the crate attributes and the code of an expression
/// run with allocation statistics.
pub const ALLOC_STATS_OPEN: &'static str = "\n\nfn main() {\n    __STAT_ALLOC.reset();\n\n    {\n        ";

/// What follows the code of an expression run with allocation statistics:
/// the end of `main` and an allocator that counts.
pub const ALLOC_STATS_CLOSE: &'static str = "\n    };\n\n    __STAT_ALLOC.print_stats();\n}\n\n// CODE BELOW IS ALLOC STAT BOILERPLATE\n\n#[global_allocator]\nstatic __STAT_ALLOC: self::__stat_alloc::StatAlloc = self::__stat_alloc::StatAlloc {\n    allocator: std::alloc::System,\n    num_allocs: std::sync::atomic::AtomicUsize::new(0),\n    num_deallocs: std::sync::atomic::AtomicUsize::new(0),\n    bytes_allocd: std::sync::atomic::AtomicUsize::new(0),\n    bytes_deallocd: std::sync::atomic::AtomicUsize::new(0),\n};\n\nmod __stat_alloc {\n    use std::alloc::{GlobalAlloc, System, Layout};\n    use std::sync::atomic::{AtomicUsize, Ordering::SeqCst};\n\n    pub struct StatAlloc {\n        pub allocator: System,\n        pub num_allocs: AtomicUsize,\n        pub num_deallocs: AtomicUsize,\n        pub bytes_allocd: AtomicUsize,\n        pub bytes_deallocd: AtomicUsize,\n    }\n\n    impl StatAlloc {\n        pub fn print_stats(&self) {\n            let num_allocs = self.num_allocs.load(SeqCst);\n            let num_deallocs = self.num_deallocs.load(SeqCst);\n            let bytes_allocd = self.bytes_allocd.load(SeqCst);\n            let bytes_deallocd = self.bytes_deallocd.load(SeqCst);\n            println!(\"  #allocs: {},   allocated bytes: {}\", num_allocs, bytes_allocd);\n            println!(\"#deallocs: {}, deallocated bytes: {}\", num_deallocs, bytes_deallocd);\n            println!(\"lost bytes: {}\", bytes_allocd as isize - bytes_deallocd as isize);\n        }\n\n        pub fn reset(&self) {\n            self.num_allocs.store(0, SeqCst);\n            self.num_deallocs.store(0, SeqCst);\n            self.bytes_allocd.store(0, SeqCst);\n            self.bytes_deallocd.store(0, SeqCst);\n        }\n\n        fn count_alloc(&self, size: usize) {\n            self.num_allocs.fetch_add(1, SeqCst);\n            self.bytes_allocd.fetch_add(size, SeqCst);\n        }\n\n        fn count_dealloc(&self, size: usize) {\n            self.num_deallocs.fetch_add(1, SeqCst);\n            self.bytes_deallocd.fetch_add(size, SeqCst);\n        }\n    }\n\n    unsafe impl GlobalAlloc for StatAlloc {\n        unsafe fn alloc(&self, layout: Layout) -> *mut u8 {\n            self.count_alloc(layout.size());\n            self.allocator.alloc(layout)\n        }\n\n        unsafe fn dealloc(&self, ptr: *mut u8, layout: Layout) {\n            self.count_dealloc(layout.size());\n            self.allocator.dealloc(ptr, layout)\n        }\n\n        unsafe fn alloc_zeroed(&self, layout: Layout) -> *mut u8 {\n            self.count_alloc(layout.size());\n            self.allocator.alloc_zeroed(layout)\n        }\n\n        unsafe fn realloc(&self, ptr: *mut u8, layout: Layout, new_size: usize) -> *mut u8 {\n            self.count_dealloc(layout.size());\n            self.count_alloc(new_size);\n            self.allocator.realloc(ptr, layout, new_size)\n        }\n    }\n}\n";

/// The program that runs `code` under `tpl`: bare code runs as written; an
/// expression keeps its leading crate attributes at the top of the program
/// and goes into `main`.
pub open spec fn program(tpl: Template, code: Seq<char>) -> Seq<char> {
    let k = crate_attrs_end(code, 0);
    let attrs = code.take(k);
    let rest = code.skip(k);
    match tpl {
        Template::Bare => code,
        Template::Expr => PROGRAM_HEAD@ + attrs + EXPR_OPEN@ + rest + EXPR_CLOSE@,
        Template::ExprAllocStats => PROGRAM_HEAD@ + attrs + ALLOC_STATS_OPEN@ + rest
            + ALLOC_STATS_CLOSE@,
    }
}

/// The program that runs `code` under `tpl`.
pub fn render_program(tpl: Template, code: &str) -> (r: String)
    ensures
        r@ == program(tpl, code@),
{
    if tpl == Template::Bare {
        return code.to_owned();
    }
    let n = code.unicode_len();
    let k = crate_attrs_len(code);
    let mut out = String::from_str(PROGRAM_HEAD);
    out.append(code.substring_char(0, k));
    if tpl == Template::Expr {
        out.append(EXPR_OPEN);
        out.append(code.substring_char(k, n));
        out.append(EXPR_CLOSE);
    } else {
        out.append(ALLOC_STATS_OPEN);
        out.append(code.substring_char(k, n));
        out.append(ALLOC_STATS_CLOSE);
    }
    out
}

/// What a parse of the code as a Rust file found: whether it has a function
/// `main`, and the values of its `crate_type` attributes, in order.
pub struct FileFacts {
    pub has_main: bool,
    pub crate_types: Vec<String>,
}

/// The crate type after the `crate_type` values `vals[..i]`, starting from
/// `start`: `bin` and `lib` set it, any other value leaves it.
pub open spec fn crate_type_after(start: CrateType, vals: Seq<Seq<char>>, i: int) -> CrateType
    decreases i,
{
    if i <= 0 || i > vals.len() {
        start
    } else {
        let before = crate_type_after(start, vals, i - 1);
        if vals[i - 1] == "bin"@ {
            CrateType::Bin
        } else if vals[i - 1] == "lib"@ {
            CrateType::Lib
        } else {
            before
        }
    }
}

/// The crate type for bare code: a file without `main` is a library, and
/// its `crate_type` attributes have the last word; code that is no Rust
/// file keeps `current`.
pub open spec fn bare_crate_type(current: CrateType, facts: Option<(bool, Seq<Seq<char>>)>) -> CrateType {
    match facts {
        None => current,
        Some((has_main, vals)) => crate_type_after(
            if has_main {
                current
            } else {
                CrateType::Lib
            },
            vals,
            vals.len() as int,
        ),
    }
}

pub open spec fn facts_view(facts: &Option<FileFacts>) -> Option<(bool, Seq<Seq<char>>)> {
    match facts {
        None => None,
        Some(f) => Some((f.has_main, string_views(f.crate_types@))),
    }
}

/// The crate type for bare code, from what a parse of it found.
pub fn choose_crate_type(current: CrateType, facts: &Option<FileFacts>) -> (r: CrateType)
    ensures
        r == bare_crate_type(current, facts_view(facts)),
{
    match facts {
        None => current,
        Some(f) => {
            let mut t = if f.has_main {
                current
            } else {
                CrateType::Lib
            };
            let ghost start = t;
            let ghost vals = string_views(f.crate_types@);
            let mut i: usize = 0;
            while i < f.crate_types.len()
                invariant
                    i <= vals.len(),
                    vals == string_views(f.crate_types@),
                    t == crate_type_after(start, vals, i as int),
                decreases vals.len() - i,
            {
                let v = f.crate_types[i].as_str();
                if text_eq(v, "bin") {
                    t = CrateType::Bin;
                } else if text_eq(v, "lib") {
                    t = CrateType::Lib;
                }
                i += 1;
            }
            t
        },
    }
}

/// The request to send for code that the flags left: code fetched from a
/// gist runs bare; bare code gets its crate type from `facts`; the program
/// that wraps the code becomes the request's code.
pub fn finish_request(
    request: Request,
    template: Template,
    code: &str,
    from_gist: bool,
    facts: &Option<FileFacts>,
) -> (r: Request)
    ensures
        ({
            let tpl = if from_gist {
                Template::Bare
            } else {
                template
            };
            let ct = if tpl == Template::Bare {
                bare_crate_type(request@.crate_type, facts_view(facts))
            } else {
                request@.crate_type
            };
            r@ == RequestView { crate_type: ct, code: program(tpl, code@), ..request@ }
        }),
{
    let mut request = request;
    let tpl = if from_gist {
        Template::Bare
    } else {
        template
    };
    if tpl == Template::Bare {
        let ct = choose_crate_type(request.crate_type(), facts);
        request.set_crate_type(ct);
    }
    request.set_code(render_program(tpl, code));
    request
}

/// Whether a line of the compiler's error output only reports progress.
pub open spec fn is_progress(line: Seq<char>) -> bool {
    let t = trim(line);
    ("Compiling"@.len() <= t.len() && t.take("Compiling"@.len() as int) == "Compiling"@) || (
    "Finished"@.len() <= t.len() && t.take("Finished"@.len() as int) == "Finished"@) || (
    "Running"@.len() <= t.len() && t.take("Running"@.len() as int) == "Running"@)
}

pub open spec fn keep_line() -> spec_fn(Seq<char>) -> bool {
    |line: Seq<char>| !is_progress(line)
}

/// The lines worth showing: all of the output after a success, the error
/// output without progress lines after a failure.
pub open spec fn shown_lines(success: bool, stdout: Seq<char>, stderr: Seq<char>) -> Seq<Seq<char>> {
    if success {
        text_lines(stdout)
    } else {
        text_lines(stderr).filter(keep_line())
    }
}

/// How many lines are sent as replies: three after a success, one after a
/// failure.
pub open spec fn reply_line_limit(success: bool) -> nat {
    if success {
        3
    } else {
        1
    }
}

/// The replies to a playground response: the first lines worth showing, or
/// a note that a successful run printed nothing.
pub open spec fn response_replies(success: bool, stdout: Seq<char>, stderr: Seq<char>) -> Seq<
    Seq<char>,
> {
    let lines = shown_lines(success, stdout, stderr);
    let limit = reply_line_limit(success);
    if lines.len() == 0 && success {
        seq!["~~~ Code compiled successfully without output."@]
    } else if lines.len() > limit {
        lines.take(limit as int)
    } else {
        lines
    }
}

/// What to answer to a playground response.
pub struct ExecuteOutput {
    /// The lines to reply, in order.
    pub replies: Vec<String>,
    /// Whether more lines were worth showing than were replied, so that the
    /// whole output is worth a paste.
    pub paste: bool,
}

/// What to answer to `response`.
pub fn execute_output(response: &Response) -> (r: ExecuteOutput)
    ensures
        string_views(r.replies@) == response_replies(
            response.success,
            response.stdout@,
            response.stderr@,
        ),
        r.paste == (shown_lines(response.success, response.stdout@, response.stderr@).len()
            > reply_line_limit(response.success)),
{
    let success = response.success;
    let ghost want = shown_lines(success, response.stdout@, response.stderr@);
    let all = if success {
        lines_of(response.stdout.as_str())
    } else {
        lines_of(response.stderr.as_str())
    };
    let ghost src = str_views(all@);
    let mut shown: Vec<&str> = Vec::new();
    let mut i: usize = 0;
    while i < all.len()
        invariant
            i <= all@.len(),
            src == str_views(all@),
            str_views(shown@) == if success {
                src.take(i as int)
            } else {
                src.take(i as int).filter(keep_line())
            },
        decreases all@.len() - i,
    {
        let line = all[i];
        let ghost before = shown@;
        proof {
            assert(src.take(i + 1) =~= src.take(i as int).push(line@));
            src.take(i as int).lemma_filter_push(line@, keep_line());
        }
        if success || !is_progress_line(line) {
            shown.push(line);
            proof {
                assert(str_views(shown@) =~= str_views(before).push(line@));
            }
        }
        proof {
            if success {
                assert(str_views(shown@) =~= src.take(i + 1));
            }
        }
        i += 1;
    }
    proof {
        assert(src.take(all@.len() as int) =~= src);
        assert(str_views(shown@) == want);
    }
    let limit: usize = if success {
        3
    } else {
        1
    };
    let mut replies: Vec<String> = Vec::new();
    if shown.len() == 0 && success {
        replies.push(String::from_str("~~~ Code compiled successfully without output."));
        proof {
            assert(string_views(replies@) =~= seq!["~~~ Code compiled successfully without output."@]);
        }
    } else {
        let count = if shown.len() > limit {
            limit
        } else {
            shown.len()
        };
        let mut j: usize = 0;
        while j < count
            invariant
                j <= count,
                count <= shown@.len(),
                string_views(replies@) == str_views(shown@).take(j as int),
            decreases count - j,
        {
            let ghost before = replies@;
            let text = shown[j].to_owned();
            replies.push(text);
            proof {
                assert(string_views(replies@) =~= string_views(before).push(text@));
                assert(str_views(shown@).take(j + 1) =~= str_views(shown@).take(j as int).push(
                    text@,
                ));
            }
            j += 1;
        }
        proof {
            assert(str_views(shown@).take(count as int) =~= (if str_views(shown@).len() > limit {
                str_views(shown@).take(limit as int)
            } else {
                str_views(shown@)
            }));
        }
    }
    ExecuteOutput { replies, paste: shown.len() > limit }
}

/// Whether `line` only reports the compiler's progress.
fn is_progress_line(line: &str) -> (r: bool)
    ensures
        r == is_progress(line@),
{
    let t = trim_str(line);
    starts_with_str(t, "Compiling") || starts_with_str(t, "Finished") || starts_with_str(
        t,
        "Running",
    )
}

/// The reply that points to the pasted output.
pub fn full_output_reply(url: &str) -> (r: String)
    ensures
        r@ == "~~~ Full output: "@ + url@,
{
    let mut out = String::from_str("~~~ Full output: ");
    out.append(url);
    out
}

/// The text that is pasted when the output is too long to reply: the code,
/// then the output and the error output in a comment.
pub fn paste_text(code: &str, stdout: &str, stderr: &str) -> (r: String)
    ensures
        r@ == code@ + "\n\n/*\n~~~ stdout ~~~\n"@ + stdout@ + "\n~~~ stderr ~~~\n"@ + stderr@
            + "\n*/\n"@,
{
    let mut out = String::from_str(code);
    out.append("\n\n/*\n~~~ stdout ~~~\n");
    out.append(stdout);
    out.append("\n~~~ stderr ~~~\n");
    out.append(stderr);
    out.append("\n*/\n");
    out
}

/// How many characters of a commit hash a version reply shows.
pub const HASH_DIGITS: usize = 9;

/// The reply to a version question: the version, the first digits of the
/// commit hash and the date.
pub open spec fn version_text(version: Seq<char>, hash: Seq<char>, date: Seq<char>) -> Seq<char> {
    let h = if hash.len() > HASH_DIGITS {
        hash.take(HASH_DIGITS as int)
    } else {
        hash
    };
    version + " ("@ + h + " "@ + date + ")"@
}

pub fn version_reply(v: &Version) -> (r: String)
    ensures
        r@ == version_text(v.version@, v.hash@, v.date@),
{
    let n = v.hash.as_str().unicode_len();
    let k = if n > HASH_DIGITS {
        HASH_DIGITS
    } else {
        n
    };
    let mut out = String::from_str(v.version.as_str());
    out.append(" (");
    out.append(v.hash.as_str().substring_char(0, k));
    out.append(" ");
    out.append(v.date.as_str());
    out.append(")");
    proof {
        if n <= HASH_DIGITS {
            assert(v.hash@.subrange(0, k as int) =~= v.hash@);
        }
    }
    out
}

/// The playground plugin: it evaluates code sent to the bot directly and
/// code given to the `eval` command.
pub struct Playground {}

impl Playground {
    /// The plugin, with its requests for a broadcast handler at normal
    /// priority and for the `eval` command.
    pub fn new(ctx: &PluginContext) -> (r: (Playground, RegisterOnMessageHandler, RegisterOnCommandHandler))
        ensures
            r.1.handler@ == (BroadcastEntry {
                plugin: ctx@.id,
                priority: NORMAL_PRIORITY,
                recipient: ctx@.address,
            }),
            r.2.command@ == "eval"@,
            r.2.handler@ == (ExclusiveEntry { plugin: ctx@.id, recipient: ctx@.address }),
    {
        let on_message = ctx.on_message(Priority::normal(), ctx.recipient());
        let on_command = ctx.on_command(String::from_str("eval"), ctx.recipient());
        (Playground {  }, on_message, on_command)
    }

    /// The code in a broadcast message: its body, when the message was aimed
    /// at the bot directly.
    pub fn handle_message<'a>(&self, event: &'a OnMessage) -> (r: Option<&'a str>)
        ensures
            event.message@.directly_addressed ==> (r matches Some(b) && b@ == event.message@.body),
            !event.message@.directly_addressed ==> r is None,
    {
        if event.message.is_directly_addressed() {
            Some(event.message.body())
        } else {
            None
        }
    }

    /// The code in an `eval` command: its arguments.
    pub fn handle_command<'a>(&self, event: &'a OnCommand) -> (r: Option<&'a str>)
        ensures
            event.command@ == "eval"@ ==> (r matches Some(b) && b@ == event.arg@),
            event.command@ != "eval"@ ==> r is None,
    {
        if text_eq(event.command.as_str(), "eval") {
            Some(event.arg.as_str())
        } else {
            None
        }
    }
}

} // verus!
