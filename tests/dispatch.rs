use playbot::{
    Address, Delivery, InlineMessage, Message, PluginManager, Priority, RegistrationError,
    UnloadPlugin,
};

fn channel_message(body: &str) -> Message {
    Message::new(body.to_string(), false, "alice".to_string(), "bot".to_string())
}

fn addressed_message(body: &str) -> Message {
    Message::new(body.to_string(), true, "alice".to_string(), "bot".to_string())
}

fn broadcast_recipients(deliveries: &[Delivery]) -> Vec<u64> {
    deliveries
        .iter()
        .map(|d| match d {
            Delivery::Broadcast { recipient, .. } => recipient.id(),
            _ => panic!("expected a broadcast delivery"),
        })
        .collect()
}

#[test]
fn second_plugin_with_same_name_is_refused() {
    let mut pm = PluginManager::new("?".to_string());
    let first = pm.register_plugin("crate_info".to_string(), Address::new(1)).ok().unwrap();
    let second = pm.register_plugin("crate_info".to_string(), Address::new(2));
    assert!(matches!(second, Err(RegistrationError::PluginExists)));
    let reg = first.on_command("crate".to_string(), first.recipient());
    assert!(pm.handle_register_on_command(reg).is_ok());
    let out = pm.dispatch(&channel_message("?crate serde"));
    assert_eq!(out.len(), 1);
    match &out[0] {
        Delivery::Command { recipient, .. } => assert_eq!(recipient.id(), 1),
        _ => panic!("expected a command delivery"),
    }
}

#[test]
fn second_command_binding_is_refused() {
    let mut pm = PluginManager::new("?".to_string());
    let a = pm.register_plugin("a".to_string(), Address::new(10)).ok().unwrap();
    let b = pm.register_plugin("b".to_string(), Address::new(20)).ok().unwrap();
    assert!(pm.handle_register_on_command(a.on_command("help".to_string(), a.recipient())).is_ok());
    let again = pm.handle_register_on_command(b.on_command("help".to_string(), b.recipient()));
    assert_eq!(again, Err(RegistrationError::CommandTaken));
    let out = pm.dispatch(&channel_message("?help"));
    assert_eq!(out.len(), 1);
    match &out[0] {
        Delivery::Command { recipient, on_command } => {
            assert_eq!(recipient.id(), 10);
            assert_eq!(on_command.command, "help");
            assert_eq!(on_command.arg, "");
        }
        _ => panic!("expected a command delivery"),
    }
}

fn priority_order_after(levels: &[i64]) -> Vec<u64> {
    let mut pm = PluginManager::new("?".to_string());
    for level in levels.iter() {
        let name = format!("p{}", level);
        let ctx = pm.register_plugin(name, Address::new(*level as u64)).ok().unwrap();
        pm.handle_register_on_message(ctx.on_message(Priority::new(*level), ctx.recipient()));
    }
    broadcast_recipients(&pm.dispatch(&channel_message("hello")))
}

#[test]
fn broadcast_runs_in_descending_priority() {
    assert_eq!(priority_order_after(&[10, 30, 20]), vec![30, 20, 10]);
    assert_eq!(priority_order_after(&[30, 10, 20]), vec![30, 20, 10]);
    assert_eq!(priority_order_after(&[20, 10, 30]), vec![30, 20, 10]);
}

#[test]
fn equal_priorities_keep_registration_order() {
    let mut pm = PluginManager::new("?".to_string());
    for id in [1u64, 2, 3] {
        let ctx = pm.register_plugin(format!("p{}", id), Address::new(id)).ok().unwrap();
        pm.handle_register_on_message(ctx.on_message(Priority::normal(), ctx.recipient()));
    }
    assert_eq!(broadcast_recipients(&pm.dispatch(&channel_message("hi"))), vec![1, 2, 3]);
}

#[test]
fn unload_removes_exactly_that_plugin() {
    let mut pm = PluginManager::new("?".to_string());
    let a = pm.register_plugin("a".to_string(), Address::new(1)).ok().unwrap();
    let b = pm.register_plugin("b".to_string(), Address::new(2)).ok().unwrap();
    pm.handle_register_on_message(a.on_message(Priority::new(5), a.recipient()));
    pm.handle_register_on_message(b.on_message(Priority::new(1), b.recipient()));
    assert!(pm.handle_register_on_command(a.on_command("crate".to_string(), a.recipient())).is_ok());
    assert!(pm.handle_register_on_command(b.on_command("help".to_string(), b.recipient())).is_ok());

    assert_eq!(pm.handle_unload(UnloadPlugin::ById(a.id().duplicate())), Ok(()));
    assert!(!pm.is_registered("a"));
    assert!(pm.is_registered("b"));

    assert_eq!(broadcast_recipients(&pm.dispatch(&channel_message("hello"))), vec![2]);
    let out = pm.dispatch(&channel_message("?crate serde"));
    assert_eq!(out.len(), 1);
    match &out[0] {
        Delivery::Reply { text, .. } => assert_eq!(text, "Command 'crate' does not exist"),
        _ => panic!("expected a reply"),
    }
    let out = pm.dispatch(&channel_message("?help"));
    match &out[0] {
        Delivery::Command { recipient, .. } => assert_eq!(recipient.id(), 2),
        _ => panic!("expected a command delivery"),
    }
}

#[test]
fn unloading_an_unknown_plugin_is_refused() {
    let mut pm = PluginManager::new("?".to_string());
    let id = playbot::PluginId::new("ghost".to_string());
    assert_eq!(pm.handle_unload(UnloadPlugin::ById(id)), Err(RegistrationError::UnknownPlugin));
}

#[test]
fn addressed_message_has_no_inline_commands() {
    let m = addressed_message("look at {?crate serde} and {?help}");
    assert!(InlineMessage::from_message(&m).is_empty());
}

#[test]
fn inline_commands_are_extracted_in_order() {
    let m = channel_message("look at {?crate serde} and {?help}");
    let derived = InlineMessage::from_message(&m);
    assert_eq!(derived.len(), 2);
    assert_eq!(derived[0].body(), "?crate serde");
    assert_eq!(derived[1].body(), "?help");
    assert_eq!(derived[0].source_nickname(), "alice");
    assert_eq!(derived[1].current_nickname(), "bot");
    assert!(!derived[0].is_directly_addressed());
}

#[test]
fn unmatched_brace_ends_extraction() {
    let m = channel_message("a {b} {c {d");
    let derived = m.inline_messages();
    assert_eq!(derived.len(), 1);
    assert_eq!(derived[0].body(), "b");
    let m = channel_message("{x{y} {} z}");
    let derived = m.inline_messages();
    assert_eq!(derived.len(), 2);
    assert_eq!(derived[0].body(), "x{y");
    assert_eq!(derived[1].body(), "");
}

#[test]
fn extraction_is_repeatable() {
    let m = channel_message("x {?a} y {?b c}");
    let first: Vec<String> = m.inline_messages().iter().map(|d| d.body().to_string()).collect();
    let second: Vec<String> = m.inline_messages().iter().map(|d| d.body().to_string()).collect();
    assert_eq!(first, second);
    assert_eq!(first, vec!["?a".to_string(), "?b c".to_string()]);
}

#[test]
fn crate_command_goes_to_its_handler_only() {
    let mut pm = PluginManager::new("?".to_string());
    let krate = pm.register_plugin("crate_info".to_string(), Address::new(7)).ok().unwrap();
    let other = pm.register_plugin("egg".to_string(), Address::new(8)).ok().unwrap();
    pm.handle_register_on_message(other.on_message(Priority::normal(), other.recipient()));
    assert!(pm
        .handle_register_on_command(krate.on_command("crate".to_string(), krate.recipient()))
        .is_ok());
    let out = pm.dispatch(&channel_message("?crate serde"));
    assert_eq!(out.len(), 1);
    match &out[0] {
        Delivery::Command { recipient, on_command } => {
            assert_eq!(recipient.id(), 7);
            assert_eq!(on_command.command, "crate");
            assert_eq!(on_command.arg, "serde");
            assert_eq!(on_command.message.body(), "?crate serde");
        }
        _ => panic!("expected a command delivery"),
    }
}

#[test]
fn plain_text_goes_to_every_broadcast_handler() {
    let mut pm = PluginManager::new("?".to_string());
    let low = pm.register_plugin("low".to_string(), Address::new(1)).ok().unwrap();
    let high = pm.register_plugin("high".to_string(), Address::new(5)).ok().unwrap();
    pm.handle_register_on_message(low.on_message(Priority::new(1), low.recipient()));
    pm.handle_register_on_message(high.on_message(Priority::new(5), high.recipient()));
    let out = pm.dispatch(&channel_message("hello bot"));
    assert_eq!(broadcast_recipients(&out), vec![5, 1]);
    for d in &out {
        match d {
            Delivery::Broadcast { on_message, .. } => assert_eq!(on_message.message.body(), "hello bot"),
            _ => panic!("expected a broadcast delivery"),
        }
    }
}

#[test]
fn unknown_command_is_answered() {
    let pm = PluginManager::new("?".to_string());
    let out = pm.dispatch(&channel_message("  ?nope x y  "));
    assert_eq!(out.len(), 1);
    match &out[0] {
        Delivery::Reply { text, message } => {
            assert_eq!(text, "Command 'nope' does not exist");
            assert_eq!(message.body(), "  ?nope x y  ");
        }
        _ => panic!("expected a reply"),
    }
}

#[test]
fn inline_commands_are_routed_after_the_message() {
    let mut pm = PluginManager::new("?".to_string());
    let h = pm.register_plugin("help".to_string(), Address::new(3)).ok().unwrap();
    let b = pm.register_plugin("egg".to_string(), Address::new(4)).ok().unwrap();
    pm.handle_register_on_message(b.on_message(Priority::normal(), b.recipient()));
    assert!(pm.handle_register_on_command(h.on_command("help".to_string(), h.recipient())).is_ok());
    let out = pm.dispatch(&channel_message("see {?help} and {?x}"));
    assert_eq!(out.len(), 3);
    assert!(matches!(&out[0], Delivery::Broadcast { recipient, .. } if recipient.id() == 4));
    assert!(matches!(&out[1], Delivery::Command { recipient, .. } if recipient.id() == 3));
    match &out[2] {
        Delivery::Reply { text, .. } => assert_eq!(text, "Command 'x' does not exist"),
        _ => panic!("expected a reply"),
    }
}

#[test]
fn at_most_three_inline_commands_are_routed() {
    let pm = PluginManager::new("?".to_string());
    let out = pm.dispatch(&channel_message("{?a} {?b} {?c} {?d}"));
    assert_eq!(out.len(), 3);
}
