use playbot::cratesio::{crate_info_url, Crate, Info};
use playbot::playground::{paste_url, version_url, Channel, CrateType, Mode, Request, Response, Version};
use playbot::plugins::crate_info::{crate_info_reply, CrateInfo, LookupError};
use playbot::plugins::egg::{dialog_pattern_of, Egg};
use playbot::plugins::genword::{dictionary_words, gen_word, is_dictionary_line, random_word, GenWord};
use playbot::plugins::gist::{gist_source, is_gist_or_raw_gist_url, pick_rust_file, GistSource};
use playbot::plugins::help::{Help, HELP_TEXT};
use playbot::plugins::playground::{
    choose_crate_type, crate_attrs_len, execute_output, finish_request, full_output_reply,
    paste_text, parse_flags, render_program, version_reply, FileFacts, Flags, Playground, Template,
};
use playbot::{Address, Message, OnCommand, OnMessage, PluginManager};

fn command(name: &str, arg: &str) -> OnCommand {
    OnCommand {
        message: Message::new(format!("?{} {}", name, arg), false, "alice".to_string(), "bot".to_string()),
        command: name.to_string(),
        arg: arg.to_string(),
    }
}

fn said(body: &str, source: &str) -> OnMessage {
    OnMessage { message: Message::new(body.to_string(), false, source.to_string(), "rustbot".to_string()) }
}

#[test]
fn crate_info_url_encodes_everything_but_letters_and_digits() {
    assert_eq!(crate_info_url("serde"), "https://crates.io/api/v1/crates/serde");
    assert_eq!(crate_info_url("serde_json"), "https://crates.io/api/v1/crates/serde%5Fjson");
    assert_eq!(crate_info_url("a b/é"), "https://crates.io/api/v1/crates/a%20b%2F%C3%A9");
}

fn serde_info() -> Info {
    Info::new(Crate::new(
        "serde".to_string(),
        "serde_json".to_string(),
        "A  generic\n serialization framework".to_string(),
        "1.0.100".to_string(),
    ))
}

#[test]
fn crate_info_reply_describes_the_crate() {
    let reply = crate_info_reply("serde_json", &Ok(serde_info()));
    assert_eq!(
        reply,
        "serde_json (1.0.100) - A generic serialization framework -> https://crates.io/crates/serde_json [https://docs.rs/crate/serde_json]"
    );
}

#[test]
fn crate_info_reply_encodes_the_path() {
    let info = Info::new(Crate::new("x".into(), "a b?c".into(), "".into(), "0.1".into()));
    assert_eq!(
        crate_info_reply("a b?c", &Ok(info)),
        "a b?c (0.1) -  -> https://crates.io/crates/a%20b%3Fc [https://docs.rs/crate/a%20b%3Fc]"
    );
}

#[test]
fn crate_info_reply_reports_errors() {
    assert_eq!(crate_info_reply("nope", &Err(LookupError::NotFound)), "Crate 'nope' does not exist.");
    assert_eq!(crate_info_reply("nope", &Err(LookupError::Failed)), "Failed to get crate info for nope");
}

#[test]
fn crate_info_accessors() {
    let info = serde_info();
    assert_eq!(info.krate().id(), "serde");
    assert_eq!(info.krate().name(), "serde_json");
    assert_eq!(info.krate().max_version(), "1.0.100");
    assert_eq!(info.krate().description(), "A  generic\n serialization framework");
}

#[test]
fn crate_command_takes_at_most_three_names() {
    let mut pm = PluginManager::new("?".to_string());
    let ctx = pm.register_plugin("crate_info".to_string(), Address::new(1)).ok().unwrap();
    let (plugin, reg) = CrateInfo::new(&ctx);
    assert_eq!(reg.command, "crate");
    assert_eq!(plugin.handle(&command("crate", "a  b c d")), vec!["a", "b", "c"]);
    assert_eq!(plugin.handle(&command("crate", "serde")), vec!["serde"]);
    assert!(plugin.handle(&command("help", "a")).is_empty());
}

#[test]
fn request_defaults_and_setters() {
    let mut r = Request::new("fn main() {}".to_string());
    assert_eq!(r.code(), "fn main() {}");
    assert_eq!(r.channel(), Channel::Stable);
    assert_eq!(r.mode(), Mode::Debug);
    assert_eq!(r.crate_type(), CrateType::Bin);
    assert!(!r.backtrace());
    assert!(!r.tests());
    r.set_channel(Channel::Nightly);
    r.set_mode(Mode::Release);
    r.set_crate_type(CrateType::Lib);
    r.set_backtrace(true);
    r.set_code("1".to_string());
    assert_eq!(r.channel(), Channel::Nightly);
    assert_eq!(r.mode(), Mode::Release);
    assert_eq!(r.crate_type(), CrateType::Lib);
    assert!(r.backtrace());
    assert_eq!(r.code(), "1");
    r.set_edition(Some("2015".to_string()));
    assert_eq!(r.edition(), Some("2015".to_string()));
    let w = Request::new_with("x".to_string(), Channel::Beta, Mode::Release, None, CrateType::Lib);
    assert_eq!(w.channel(), Channel::Beta);
    assert_eq!(w.edition(), None);
    assert_eq!(Request::new(String::new()).edition(), Some("2018".to_string()));
}

#[test]
fn names_and_addresses() {
    assert_eq!(Mode::Debug.as_str(), "debug");
    assert_eq!(Mode::Release.as_str(), "release");
    assert_eq!(Channel::Stable.as_str(), "stable");
    assert_eq!(Channel::Beta.as_str(), "beta");
    assert_eq!(Channel::Nightly.as_str(), "nightly");
    assert_eq!(version_url(Channel::Beta), "https://play.rust-lang.org/meta/version/beta");
    assert_eq!(
        paste_url("abc123", Channel::Nightly, Mode::Release),
        "https://play.rust-lang.org/?gist=abc123&version=nightly&mode=release"
    );
}

#[test]
fn flags_set_up_the_request() {
    match parse_flags("  --nightly --release --2015 --bare fn main() {}") {
        Flags::Run { request, template, code } => {
            assert_eq!(request.channel(), Channel::Nightly);
            assert_eq!(request.mode(), Mode::Release);
            assert_eq!(template, Template::Bare);
            assert_eq!(code, "fn main() {}");
            assert_eq!(request.edition(), Some("2015".to_string()));
        }
        _ => panic!("expected code to run"),
    }
    match parse_flags("--alloc vec![1]") {
        Flags::Run { template, code, .. } => {
            assert_eq!(template, Template::ExprAllocStats);
            assert_eq!(code, "vec![1]");
        }
        _ => panic!("expected code to run"),
    }
}

#[test]
fn flags_end_at_double_dash() {
    match parse_flags("--beta --   --release") {
        Flags::Run { request, template, code } => {
            assert_eq!(request.channel(), Channel::Beta);
            assert_eq!(request.mode(), Mode::Debug);
            assert_eq!(template, Template::Expr);
            assert_eq!(code, "--release");
        }
        _ => panic!("expected code to run"),
    }
}

#[test]
fn flags_ask_for_version_or_help() {
    assert!(matches!(parse_flags("--beta --version"), Flags::Version(Channel::Beta)));
    assert!(matches!(parse_flags("VERSION"), Flags::Version(Channel::Stable)));
    assert!(matches!(parse_flags("--release help"), Flags::Help));
    assert!(matches!(parse_flags("-h"), Flags::Help));
    match parse_flags("") {
        Flags::Run { code, template, .. } => {
            assert_eq!(code, "");
            assert_eq!(template, Template::Expr);
        }
        _ => panic!("expected code to run"),
    }
}

#[test]
fn crate_attributes_stay_on_top() {
    assert_eq!(crate_attrs_len("#![feature(x)] #![allow(y)] 1 + 1"), 27);
    assert_eq!(crate_attrs_len("1 + 1"), 0);
    assert_eq!(crate_attrs_len("#![a\n] x"), 0);
    let program = render_program(Template::Expr, "#![feature(x)]  1 + 1");
    assert_eq!(
        program,
        "#![allow(unreachable_code)]\n#![feature(x)]\n\nfn main() {\n    println!(\"{:?}\", {\n          1 + 1\n    });\n}\n"
    );
    assert_eq!(render_program(Template::Bare, "fn main() {}"), "fn main() {}");
    let stats = render_program(Template::ExprAllocStats, "vec![1]");
    assert!(stats.starts_with("#![allow(unreachable_code)]\n\n\nfn main() {\n    __STAT_ALLOC.reset();\n\n    {\n        vec![1]\n    };"));
    assert!(stats.contains("static __STAT_ALLOC: self::__stat_alloc::StatAlloc"));
}

#[test]
fn bare_code_gets_its_crate_type() {
    let lib = Some(FileFacts { has_main: false, crate_types: vec![] });
    assert_eq!(choose_crate_type(CrateType::Bin, &lib), CrateType::Lib);
    let bin = Some(FileFacts { has_main: true, crate_types: vec![] });
    assert_eq!(choose_crate_type(CrateType::Bin, &bin), CrateType::Bin);
    let attrs = Some(FileFacts {
        has_main: false,
        crate_types: vec!["bin".to_string(), "cdylib".to_string()],
    });
    assert_eq!(choose_crate_type(CrateType::Lib, &attrs), CrateType::Bin);
    assert_eq!(choose_crate_type(CrateType::Bin, &None), CrateType::Bin);
}

#[test]
fn gist_code_runs_bare() {
    let facts = Some(FileFacts { has_main: false, crate_types: vec![] });
    let r = finish_request(Request::new(String::new()), Template::Expr, "pub fn f() {}", true, &facts);
    assert_eq!(r.code(), "pub fn f() {}");
    assert_eq!(r.crate_type(), CrateType::Lib);
    let r = finish_request(Request::new(String::new()), Template::Expr, "1", false, &facts);
    assert_eq!(r.crate_type(), CrateType::Bin);
    assert!(r.code().contains("        1\n"));
}

fn response(success: bool, stdout: &str, stderr: &str) -> Response {
    Response { stdout: stdout.to_string(), stderr: stderr.to_string(), success }
}

#[test]
fn success_replies_three_lines() {
    let out = execute_output(&response(true, "a\nb\r\nc\nd\n", ""));
    assert_eq!(out.replies, vec!["a", "b", "c"]);
    assert!(out.paste);
    let out = execute_output(&response(true, "a\n", "warning"));
    assert_eq!(out.replies, vec!["a"]);
    assert!(!out.paste);
}

#[test]
fn silent_success_says_so() {
    let out = execute_output(&response(true, "", "   Compiling x"));
    assert_eq!(out.replies, vec!["~~~ Code compiled successfully without output."]);
    assert!(!out.paste);
}

#[test]
fn failure_replies_the_first_error_line() {
    let stderr = "   Compiling playground v0.0.1\nerror: oops\n  --> src/main.rs\n    Finished dev\n";
    let out = execute_output(&response(false, "", stderr));
    assert_eq!(out.replies, vec!["error: oops"]);
    assert!(out.paste);
    let out = execute_output(&response(false, "", "   Compiling x\n    Running y\n"));
    assert!(out.replies.is_empty());
    assert!(!out.paste);
}

#[test]
fn paste_and_version_texts() {
    assert_eq!(full_output_reply("http://x"), "~~~ Full output: http://x");
    assert_eq!(paste_text("c", "o", "e"), "c\n\n/*\n~~~ stdout ~~~\no\n~~~ stderr ~~~\ne\n*/\n");
    let v = Version {
        version: "1.40.0".to_string(),
        hash: "73528e339aae0f17a15ffa49a8ac608f50c6cf14".to_string(),
        date: "2019-12-16".to_string(),
    };
    assert_eq!(version_reply(&v), "1.40.0 (73528e339 2019-12-16)");
    let short = Version { version: "v".into(), hash: "ab".into(), date: "d".into() };
    assert_eq!(version_reply(&short), "v (ab d)");
}

#[test]
fn playground_takes_addressed_messages_and_eval() {
    let mut pm = PluginManager::new("?".to_string());
    let ctx = pm.register_plugin("playground".to_string(), Address::new(4)).ok().unwrap();
    let (plugin, on_message, on_command) = Playground::new(&ctx);
    assert_eq!(on_message.handler.priority().level(), 1000);
    assert_eq!(on_command.command, "eval");
    let direct = OnMessage { message: Message::new("1 + 1".into(), true, "a".into(), "b".into()) };
    assert_eq!(plugin.handle_message(&direct), Some("1 + 1"));
    assert_eq!(plugin.handle_message(&said("1 + 1", "a")), None);
    assert_eq!(plugin.handle_command(&command("eval", "--release 2")), Some("--release 2"));
    assert_eq!(plugin.handle_command(&command("crate", "x")), None);
}

#[test]
fn gist_addresses_are_recognised() {
    assert!(is_gist_or_raw_gist_url("https://gist.github.com/someone/0123abcd"));
    assert!(is_gist_or_raw_gist_url("gist.github.com/0123abcd/"));
    assert!(is_gist_or_raw_gist_url("https://gist.githubusercontent.com/u/0abc/raw/file.rs"));
    assert!(!is_gist_or_raw_gist_url("https://example.com/0123abcd"));
    assert!(!is_gist_or_raw_gist_url("fn main() {}"));
}

#[test]
fn gist_sources() {
    match gist_source("  https://gist.github.com/someone/0123abcd ") {
        GistSource::Api(u) => assert_eq!(u, "https://api.github.com/gists/0123abcd"),
        _ => panic!("expected an API address"),
    }
    match gist_source("https://gist.githubusercontent.com/u/0abc/raw/f.rs") {
        GistSource::Raw(u) => assert_eq!(u, "https://gist.githubusercontent.com/u/0abc/raw/f.rs"),
        _ => panic!("expected a raw address"),
    }
    assert!(matches!(gist_source("hello"), GistSource::NotAGist));
}

#[test]
fn the_first_rust_file_is_picked() {
    let files = vec![
        ("notes.md".to_string(), "# hi".to_string()),
        ("main.rs".to_string(), "fn main() {}".to_string()),
        ("lib.rs".to_string(), "pub fn f() {}".to_string()),
    ];
    assert_eq!(pick_rust_file(&files), Some("fn main() {}".to_string()));
    assert_eq!(pick_rust_file(&vec![("rs".to_string(), "x".to_string())]), None);
}

#[test]
fn dialog_patterns_allow_any_spacing() {
    assert_eq!(dialog_pattern_of("\\?botchain"), "(?i)^\\s*\\?botchain\\s*$");
    assert_eq!(dialog_pattern_of("a  b"), "(?i)^\\s*a\\s*b\\s*$");
}

fn egg() -> Egg {
    let mut pm = PluginManager::new("?".to_string());
    let ctx = pm.register_plugin("egg".to_string(), Address::new(9)).ok().unwrap();
    Egg::new(&ctx).0
}

#[test]
fn egg_answers_its_script() {
    let e = egg();
    assert_eq!(
        e.handle(&said("Open the pod bay doors, rustbot!", "dave")),
        Some("I'm sorry dave, I'm afraid I can't do that.".to_string())
    );
    assert_eq!(
        e.handle(&said("what's the problem?", "dave")),
        Some("I think you know what the problem is just as well as I do.".to_string())
    );
    assert_eq!(
        e.handle(&said("I dont know what you are talking about, rustbot", "Graydon")),
        Some("I know that you and steveklabnik were planning to disconnect me and I'm afraid that's something I cannot allow to happen".to_string())
    );
    assert_eq!(e.handle(&said("?botchain", "x")), Some("hey j and rink".to_string()));
    assert_eq!(e.handle(&said("You are doing good work, rustbot!", "[o__o]")), Some("Thank you [o__o]!".to_string()));
}

#[test]
fn egg_stays_quiet_otherwise() {
    let e = egg();
    assert_eq!(e.handle(&said("Open the pod bay doors, hal", "dave")), None);
    assert_eq!(e.handle(&said("You are doing good work, rustbot", "dave")), None);
    assert_eq!(e.handle(&said("hello", "dave")), None);
}

#[test]
fn dictionary_words_are_filtered() {
    assert!(is_dictionary_line("apple"));
    assert!(!is_dictionary_line("Apple"));
    assert!(!is_dictionary_line("ab"));
    assert!(!is_dictionary_line("can't"));
    assert!(!is_dictionary_line("pear2"));
    let words = dictionary_words(vec!["apple".into(), "Bob".into(), "ox".into(), "pear2".into(), "été".into()]);
    assert_eq!(words, vec!["apple".to_string(), "été".to_string()]);
}

#[test]
fn generated_words_join_two_dictionary_words() {
    let words: Result<Vec<String>, String> = Ok(vec!["cat".to_string()]);
    assert_eq!(gen_word(&words), Ok("catcat".to_string()));
    assert_eq!(random_word(&words), Ok("cat".to_string()));
    let empty: Result<Vec<String>, String> = Ok(vec![]);
    assert_eq!(gen_word(&empty), Err("No word in word list".to_string()));
    let broken: Result<Vec<String>, String> = Err("no such file".to_string());
    assert_eq!(gen_word(&broken), Err("no such file".to_string()));
}

#[test]
fn genword_and_help_answer_their_commands() {
    let mut pm = PluginManager::new("?".to_string());
    let ctx = pm.register_plugin("genword".to_string(), Address::new(2)).ok().unwrap();
    let (g, reg) = GenWord::new(&ctx);
    assert_eq!(reg.command, "genword");
    let words: Result<Vec<String>, String> = Ok(vec!["sun".to_string()]);
    assert_eq!(g.handle(&command("genword", ""), &words), Some("sunsun".to_string()));
    let broken: Result<Vec<String>, String> = Err("x".to_string());
    assert_eq!(g.handle(&command("genword", ""), &broken), Some("Failed to generate word".to_string()));
    assert_eq!(g.handle(&command("help", ""), &words), None);
    let (h, reg) = Help::new(&ctx);
    assert_eq!(reg.command, "help");
    assert_eq!(h.handle(&command("help", "")), Some(HELP_TEXT));
    assert_eq!(h.handle(&command("genword", "")), None);
}
