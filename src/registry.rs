//! A simpler dispatcher: named handlers, each name bound to the handler
//! set last, and fallback handlers that see what no named handler took.
use vstd::prelude::*;
use crate::command::{parse_command, Command};
use crate::message::{inline_messages, message_views, Message, MessageView};
use crate::plugin::Address;
use crate::text::text_eq;

verus! {

/// A message as a handler sees it: a body of its own, and all else from the
/// message it came with.
pub struct Context {
    body: String,
    message: Message,
}

impl View for Context {
    type V = MessageView;

    closed spec fn view(&self) -> MessageView {
        MessageView { body: self.body@, ..self.message@ }
    }
}

impl Context {
    /// The context of `message`; there always is one.
    pub fn new(message: &Message) -> (r: Option<Context>)
        ensures
            r matches Some(c) && c@ == message@,
    {
        Some(Context { body: message.body().to_owned(), message: message.duplicate() })
    }

    pub fn body(&self) -> (r: &str)
        ensures
            r@ == self@.body,
    {
        self.body.as_str()
    }

    pub fn is_directly_addressed(&self) -> (r: bool)
        ensures
            r == self@.directly_addressed,
    {
        self.message.is_directly_addressed()
    }

    pub fn source_nickname(&self) -> (r: &str)
        ensures
            r@ == self@.source_nickname,
    {
        self.message.source_nickname()
    }

    pub fn current_nickname(&self) -> (r: &str)
        ensures
            r@ == self@.current_nickname,
    {
        self.message.current_nickname()
    }

    /// The context as a message.
    pub fn to_message(&self) -> (r: Message)
        ensures
            r@ == self@,
    {
        self.message.with_body(self.body.clone())
    }

    /// The contexts of the inline commands in this one, left to right.
    pub fn inline_contexts(&self) -> (r: Vec<Context>)
        ensures
            context_views(r@) == inline_messages(self@),
    {
        let derived = self.to_message().inline_messages();
        let ghost ds = message_views(derived@);
        let mut out: Vec<Context> = Vec::new();
        let mut i: usize = 0;
        while i < derived.len()
            invariant
                i <= derived@.len(),
                ds == message_views(derived@),
                ds == inline_messages(self@),
                context_views(out@) == ds.take(i as int),
            decreases derived@.len() - i,
        {
            let c = Context { body: derived[i].body().to_owned(), message: derived[i].duplicate() };
            let ghost before = out@;
            out.push(c);
            proof {
                assert(c@ == ds[i as int]);
                assert(context_views(out@) =~= context_views(before).push(c@));
                assert(ds.take(i + 1) =~= ds.take(i as int).push(ds[i as int]));
            }
            i += 1;
        }
        proof {
            assert(ds.take(derived@.len() as int) =~= ds);
        }
        out
    }
}

pub open spec fn context_views(v: Seq<Context>) -> Seq<MessageView> {
    v.map_values(|c: Context| c@)
}

/// What a registry holds.
pub struct RegistryView {
    pub prefix: Seq<char>,
    pub named: Seq<(Seq<char>, u64)>,
    pub fallback: Seq<u64>,
}

/// Every name is bound once at most.
pub open spec fn registry_wf(r: RegistryView) -> bool {
    forall|i: int, j: int|
        0 <= i < j < r.named.len() ==> (#[trigger] r.named[i]).0 != (#[trigger] r.named[j]).0
}

/// The handler bound to `name`, if any.
pub open spec fn named_handler(named: Seq<(Seq<char>, u64)>, name: Seq<char>) -> Option<u64> {
    if exists|k: int| 0 <= k < named.len() && (#[trigger] named[k]).0 == name {
        Some(named[choose|k: int| 0 <= k < named.len() && (#[trigger] named[k]).0 == name].1)
    } else {
        None
    }
}

/// What a registry delivery holds.
pub enum RegistryDeliveryView {
    Named { handler: u64, context: MessageView, name: Seq<char>, raw_args: Seq<char> },
    Fallback { handler: u64, context: MessageView },
}

/// The named handler that takes `ctx`, with the command it is handed.
pub open spec fn named_delivery(r: RegistryView, ctx: MessageView) -> Option<RegistryDeliveryView> {
    match parse_command(r.prefix, ctx.body) {
        Some(c) => match named_handler(r.named, c.name) {
            Some(h) => Some(
                RegistryDeliveryView::Named {
                    handler: h,
                    context: ctx,
                    name: c.name,
                    raw_args: c.raw_args,
                },
            ),
            None => None,
        },
        None => None,
    }
}

/// The named deliveries of several contexts, in order.
pub open spec fn named_deliveries(r: RegistryView, cs: Seq<MessageView>) -> Seq<RegistryDeliveryView>
    decreases cs.len(),
{
    if cs.len() == 0 {
        seq![]
    } else {
        named_deliveries(r, cs.drop_last()) + match named_delivery(r, cs.last()) {
            Some(d) => seq![d],
            None => seq![],
        }
    }
}

/// How many contexts one message offers to named handlers: itself and its
/// first inline commands.
pub const MAX_CONTEXTS: usize = 3;

/// The contexts one message offers: itself, then its inline commands, at
/// most `MAX_CONTEXTS` in all.
pub open spec fn offered_contexts(msg: MessageView) -> Seq<MessageView> {
    let all = seq![msg] + inline_messages(msg);
    if all.len() > MAX_CONTEXTS {
        all.take(MAX_CONTEXTS as int)
    } else {
        all
    }
}

/// Where one message goes: to the named handler of its command; else to
/// the named handlers of the commands among its offered contexts; else to
/// every fallback handler.
pub open spec fn registry_route(r: RegistryView, msg: MessageView) -> Seq<RegistryDeliveryView> {
    match named_delivery(r, msg) {
        Some(d) => seq![d],
        None => {
            let inline = named_deliveries(r, offered_contexts(msg));
            if inline.len() > 0 {
                inline
            } else {
                r.fallback.map_values(fallback_to(msg))
            }
        },
    }
}

pub open spec fn fallback_to(msg: MessageView) -> spec_fn(u64) -> RegistryDeliveryView {
    |h: u64| RegistryDeliveryView::Fallback { handler: h, context: msg }
}

/// One context handed to one handler.
pub enum RegistryDelivery {
    Named { handler: Address, context: Context, name: String, raw_args: String },
    Fallback { handler: Address, context: Context },
}

impl View for RegistryDelivery {
    type V = RegistryDeliveryView;

    open spec fn view(&self) -> RegistryDeliveryView {
        match self {
            RegistryDelivery::Named { handler, context, name, raw_args } => RegistryDeliveryView::Named {
                handler: handler@,
                context: context@,
                name: name@,
                raw_args: raw_args@,
            },
            RegistryDelivery::Fallback { handler, context } => RegistryDeliveryView::Fallback {
                handler: handler@,
                context: context@,
            },
        }
    }
}

pub open spec fn registry_delivery_views(v: Seq<RegistryDelivery>) -> Seq<RegistryDeliveryView> {
    v.map_values(|d: RegistryDelivery| d@)
}

/// Named and fallback handlers, by mailbox.
pub struct CommandRegistry {
    command_prefix: String,
    named_handlers: Vec<(String, Address)>,
    fallback_handlers: Vec<Address>,
}

pub open spec fn named_views(v: Seq<(String, Address)>) -> Seq<(Seq<char>, u64)> {
    v.map_values(|b: (String, Address)| (b.0@, b.1@))
}

pub open spec fn address_views(v: Seq<Address>) -> Seq<u64> {
    v.map_values(|a: Address| a@)
}

impl View for CommandRegistry {
    type V = RegistryView;

    closed spec fn view(&self) -> RegistryView {
        RegistryView {
            prefix: self.command_prefix@,
            named: named_views(self.named_handlers@),
            fallback: address_views(self.fallback_handlers@),
        }
    }
}

impl CommandRegistry {
    pub open spec fn well_formed(&self) -> bool {
        registry_wf(self@)
    }

    pub fn new(command_prefix: String) -> (r: CommandRegistry)
        ensures
            r@ == (RegistryView { prefix: command_prefix@, named: seq![], fallback: seq![] }),
            r.well_formed(),
    {
        let r = CommandRegistry {
            command_prefix,
            named_handlers: Vec::new(),
            fallback_handlers: Vec::new(),
        };
        proof {
            assert(r@.named =~= seq![]);
            assert(r@.fallback =~= seq![]);
        }
        r
    }

    /// Binds `name` to `handler`, in place of any handler it had.
    pub fn set_named_handler(&mut self, name: String, handler: Address)
        requires
            old(self).well_formed(),
        ensures
            final(self).well_formed(),
            final(self)@.prefix == old(self)@.prefix,
            final(self)@.fallback == old(self)@.fallback,
            named_handler(final(self)@.named, name@) == Some(handler@),
            forall|other: Seq<char>|
                other != name@ ==> named_handler(final(self)@.named, other) == named_handler(
                    old(self)@.named,
                    other,
                ),
    {
        let ghost before = self@;
        let mut i: usize = 0;
        while i < self.named_handlers.len()
            invariant
                self@ == before,
                before == old(self)@,
                registry_wf(before),
                i <= before.named.len(),
                forall|j: int| 0 <= j < i ==> before.named[j].0 != name@,
            decreases before.named.len() - i,
        {
            if self.named_handlers[i].0 == name {
                self.named_handlers.set(i, (name, handler));
                proof {
                    let after = self@.named;
                    assert(after =~= before.named.update(i as int, (name@, handler@)));
                    assert(after[i as int].0 == name@);
                    assert(forall|k: int| 0 <= k < after.len() ==> (#[trigger] after[k]).0 == before.named[k].0);
                    assert(registry_wf(self@));
                    assert forall|other: Seq<char>| other != name@ implies named_handler(
                        after,
                        other,
                    ) == named_handler(before.named, other) by {
                        if exists|k: int| 0 <= k < after.len() && (#[trigger] after[k]).0 == other {
                            let k = choose|k: int| 0 <= k < after.len() && (#[trigger] after[k]).0 == other;
                            assert(before.named[k].0 == other);
                            let k2 = choose|k: int| 0 <= k < before.named.len() && (#[trigger] before.named[k]).0 == other;
                            if k != k2 {
                                if k < k2 {
                                    assert(before.named[k].0 != before.named[k2].0);
                                } else {
                                    assert(before.named[k2].0 != before.named[k].0);
                                }
                            }
                        } else {
                            if exists|k: int| 0 <= k < before.named.len() && (#[trigger] before.named[k]).0 == other {
                                let k = choose|k: int| 0 <= k < before.named.len() && (#[trigger] before.named[k]).0 == other;
                                assert(after[k].0 == other);
                            }
                        }
                    }
                    let k = choose|k: int| 0 <= k < after.len() && (#[trigger] after[k]).0 == name@;
                    if k != i {
                        if k < i {
                            assert(before.named[k].0 != before.named[i as int].0);
                        } else {
                            assert(before.named[i as int].0 != before.named[k].0);
                        }
                    }
                }
                return;
            }
            i += 1;
        }
        self.named_handlers.push((name, handler));
        proof {
            let after = self@.named;
            let last = before.named.len() as int;
            assert(after =~= before.named.push((name@, handler@)));
            assert(after[last].0 == name@);
            let k = choose|k: int| 0 <= k < after.len() && (#[trigger] after[k]).0 == name@;
            assert(k == last);
            assert forall|other: Seq<char>| other != name@ implies named_handler(after, other)
                == named_handler(before.named, other) by {
                if exists|k: int| 0 <= k < after.len() && (#[trigger] after[k]).0 == other {
                    let k = choose|k: int| 0 <= k < after.len() && (#[trigger] after[k]).0 == other;
                    assert(before.named[k].0 == other);
                }
                if exists|k: int| 0 <= k < before.named.len() && (#[trigger] before.named[k]).0 == other {
                    let k = choose|k: int| 0 <= k < before.named.len() && (#[trigger] before.named[k]).0 == other;
                    assert(after[k].0 == other);
                }
            }
        }
    }

    /// Adds a fallback handler after the others.
    pub fn add_fallback_handler(&mut self, handler: Address)
        requires
            old(self).well_formed(),
        ensures
            final(self).well_formed(),
            final(self)@ == (RegistryView {
                fallback: old(self)@.fallback.push(handler@),
                ..old(self)@
            }),
    {
        self.fallback_handlers.push(handler);
        proof {
            assert(self@.fallback =~= old(self)@.fallback.push(handler@));
        }
    }

    /// The named delivery of `context`, if its command has a handler.
    fn execute_commands(&self, context: &Context) -> (r: Option<RegistryDelivery>)
        requires
            self.well_formed(),
        ensures
            match r {
                Some(d) => named_delivery(self@, context@) == Some(d@),
                None => named_delivery(self@, context@) is None,
            },
    {
        let command = match Command::parse(self.command_prefix.as_str(), context.body()) {
            Some(c) => c,
            None => return None,
        };
        let name = command.name();
        let mut i: usize = 0;
        while i < self.named_handlers.len()
            invariant
                self.well_formed(),
                i <= self@.named.len(),
                parse_command(self@.prefix, context@.body) == Some(command@),
                name@ == command@.name,
                forall|j: int| 0 <= j < i ==> self@.named[j].0 != name@,
            decreases self@.named.len() - i,
        {
            if text_eq(self.named_handlers[i].0.as_str(), name) {
                proof {
                    let named = self@.named;
                    assert(named[i as int].0 == name@);
                    let k = choose|k: int| 0 <= k < named.len() && (#[trigger] named[k]).0 == name@;
                    if k != i {
                        if k < i {
                            assert(named[k].0 != named[i as int].0);
                        } else {
                            assert(named[i as int].0 != named[k].0);
                        }
                    }
                }
                return Some(
                    RegistryDelivery::Named {
                        handler: self.named_handlers[i].1,
                        context: Context { body: context.body.clone(), message: context.message.duplicate() },
                        name: name.to_owned(),
                        raw_args: command.raw_args().to_owned(),
                    },
                );
            }
            i += 1;
        }
        None
    }

    /// Where `message` goes (`registry_route`).
    pub fn handle_message(&self, message: &Message) -> (r: Vec<RegistryDelivery>)
        requires
            self.well_formed(),
        ensures
            registry_delivery_views(r@) == registry_route(self@, message@),
    {
        let mut out: Vec<RegistryDelivery> = Vec::new();
        let context = match Context::new(message) {
            Some(context) => context,
            None => return out,
        };
        if let Some(d) = self.execute_commands(&context) {
            out.push(d);
            proof {
                assert(registry_delivery_views(out@) =~= seq![d@]);
            }
            return out;
        }
        let inline = context.inline_contexts();
        let ghost all = seq![context@] + context_views(inline@);
        let ghost offered = offered_contexts(message@);
        let count = if inline.len() >= MAX_CONTEXTS - 1 {
            MAX_CONTEXTS
        } else {
            inline.len() + 1
        };
        proof {
            assert(offered.len() == count);
            assert(forall|k: int| 0 <= k < count ==> offered[k] == all[k]);
        }
        let mut i: usize = 0;
        while i < count
            invariant
                self.well_formed(),
                i <= count,
                count <= inline@.len() + 1,
                offered.len() == count,
                all == seq![context@] + context_views(inline@),
                context@ == message@,
                forall|k: int| 0 <= k < count ==> offered[k] == #[trigger] all[k],
                registry_delivery_views(out@) == named_deliveries(self@, offered.take(i as int)),
            decreases count - i,
        {
            let found = if i == 0 {
                self.execute_commands(&context)
            } else {
                self.execute_commands(&inline[i - 1])
            };
            proof {
                assert(offered.take(i + 1).drop_last() =~= offered.take(i as int));
                assert(offered.take(i + 1).last() == offered[i as int]);
                if i > 0 {
                    assert(all[i as int] == context_views(inline@)[i - 1]);
                    assert(offered[i as int] == inline@[i - 1]@);
                } else {
                    assert(all[i as int] == context@);
                    assert(offered[i as int] == context@);
                }
            }
            match found {
                Some(d) => {
                    let ghost before = out@;
                    out.push(d);
                    proof {
                        assert(registry_delivery_views(out@) =~= registry_delivery_views(before).push(d@));
                        assert(registry_delivery_views(out@) =~= named_deliveries(self@, offered.take(i + 1)));
                    }
                },
                None => {
                    proof {
                        assert(registry_delivery_views(out@) =~= named_deliveries(self@, offered.take(i + 1)));
                    }
                },
            }
            i += 1;
        }
        proof {
            assert(offered.take(count as int) =~= offered);
        }
        if out.len() > 0 {
            return out;
        }
        let mut j: usize = 0;
        while j < self.fallback_handlers.len()
            invariant
                j <= self@.fallback.len(),
                context@ == message@,
                registry_delivery_views(out@) == self@.fallback.take(j as int).map_values(
                    fallback_to(message@),
                ),
            decreases self@.fallback.len() - j,
        {
            let d = RegistryDelivery::Fallback {
                handler: self.fallback_handlers[j],
                context: Context { body: context.body.clone(), message: context.message.duplicate() },
            };
            let ghost before = out@;
            out.push(d);
            proof {
                assert(registry_delivery_views(out@) =~= registry_delivery_views(before).push(d@));
                assert(self@.fallback.take(j + 1) =~= self@.fallback.take(j as int).push(
                    self@.fallback[j as int],
                ));
                assert(registry_delivery_views(out@) =~= self@.fallback.take(j + 1).map_values(
                    fallback_to(message@),
                ));
            }
            j += 1;
        }
        proof {
            assert(self@.fallback.take(self@.fallback.len() as int) =~= self@.fallback);
        }
        out
    }
}

} // verus!
