use playbot::registry::{CommandRegistry, Context, RegistryDelivery};
use playbot::{Address, Message};

fn message(body: &str) -> Message {
    Message::new(body.to_string(), false, "alice".to_string(), "bot".to_string())
}

fn named(d: &RegistryDelivery) -> (u64, String, String, String) {
    match d {
        RegistryDelivery::Named { handler, context, name, raw_args } => {
            (handler.id(), context.body().to_string(), name.clone(), raw_args.clone())
        }
        _ => panic!("expected a named delivery"),
    }
}

#[test]
fn named_handler_takes_its_command() {
    let mut r = CommandRegistry::new("?".to_string());
    r.set_named_handler("crate".to_string(), Address::new(1));
    r.add_fallback_handler(Address::new(9));
    let out = r.handle_message(&message("?crate serde rand"));
    assert_eq!(out.len(), 1);
    assert_eq!(named(&out[0]), (1, "?crate serde rand".to_string(), "crate".to_string(), "serde rand".to_string()));
}

#[test]
fn setting_a_name_again_replaces_its_handler() {
    let mut r = CommandRegistry::new("?".to_string());
    r.set_named_handler("help".to_string(), Address::new(1));
    r.set_named_handler("help".to_string(), Address::new(2));
    let out = r.handle_message(&message("?help"));
    assert_eq!(out.len(), 1);
    assert_eq!(named(&out[0]).0, 2);
}

#[test]
fn inline_commands_count_the_message_itself() {
    let mut r = CommandRegistry::new("?".to_string());
    for (k, name) in ["a", "b", "c"].iter().enumerate() {
        r.set_named_handler(name.to_string(), Address::new(k as u64 + 1));
    }
    r.add_fallback_handler(Address::new(9));
    let out = r.handle_message(&message("see {?a} {?x} {?c}"));
    assert_eq!(out.len(), 1);
    assert_eq!(named(&out[0]), (1, "?a".to_string(), "a".to_string(), String::new()));
}

#[test]
fn fallback_handlers_see_the_rest() {
    let mut r = CommandRegistry::new("?".to_string());
    r.set_named_handler("a".to_string(), Address::new(1));
    r.add_fallback_handler(Address::new(7));
    r.add_fallback_handler(Address::new(8));
    let out = r.handle_message(&message("plain text {?zzz}"));
    let handlers: Vec<u64> = out
        .iter()
        .map(|d| match d {
            RegistryDelivery::Fallback { handler, context } => {
                assert_eq!(context.body(), "plain text {?zzz}");
                handler.id()
            }
            _ => panic!("expected a fallback delivery"),
        })
        .collect();
    assert_eq!(handlers, vec![7, 8]);
}

#[test]
fn contexts_inherit_the_message() {
    let m = message("x {?a} {b}");
    let ctx = Context::new(&m).unwrap();
    assert_eq!(ctx.body(), "x {?a} {b}");
    let inline = ctx.inline_contexts();
    assert_eq!(inline.len(), 2);
    assert_eq!(inline[0].body(), "?a");
    assert_eq!(inline[1].body(), "b");
    assert_eq!(inline[1].source_nickname(), "alice");
    assert_eq!(inline[1].current_nickname(), "bot");
    assert!(!inline[0].is_directly_addressed());
    let addressed = Message::new("{?a}".to_string(), true, String::new(), String::new());
    assert!(Context::new(&addressed).unwrap().inline_contexts().is_empty());
}
