//! The plugin manager: the registry of plugins, broadcast handlers and
//! exclusive command handlers, and the routing of each received message.
use vstd::prelude::*;
use crate::command::{parse_command, Command};
use crate::message::{inline_messages, Message, MessageView};
use crate::plugin::{
    Address, BroadcastEntry, ExclusiveEntry, OnCommand, OnCommandHandler, OnMessage,
    OnMessageHandler, Plugin, PluginContext, PluginContextView, PluginId, RegisterOnCommandHandler,
    RegisterOnMessageHandler, RegisterPlugin, UnloadPlugin,
};
use crate::text::text_eq;

verus! {

/// The most inline commands that one message has routed.
pub const MAX_INLINE_COMMANDS: usize = 3;

/// A command name bound to its exclusive handler.
pub struct CommandBinding {
    pub command: Seq<char>,
    pub handler: ExclusiveEntry,
}

/// What a plugin manager holds.
pub struct ManagerView {
    pub prefix: Seq<char>,
    pub plugins: Seq<Seq<char>>,
    pub broadcast: Seq<BroadcastEntry>,
    pub commands: Seq<CommandBinding>,
}

/// Every earlier element stands in `rel` to every later one.
pub open spec fn pairwise<A>(s: Seq<A>, rel: spec_fn(A, A) -> bool) -> bool {
    forall|i: int, j: int| 0 <= i < j < s.len() ==> rel(#[trigger] s[i], #[trigger] s[j])
}

pub open spec fn higher_first() -> spec_fn(BroadcastEntry, BroadcastEntry) -> bool {
    |a: BroadcastEntry, b: BroadcastEntry| a.priority >= b.priority
}

pub open spec fn other_command() -> spec_fn(CommandBinding, CommandBinding) -> bool {
    |a: CommandBinding, b: CommandBinding| a.command != b.command
}

pub open spec fn other_plugin() -> spec_fn(Seq<char>, Seq<char>) -> bool {
    |a: Seq<char>, b: Seq<char>| a != b
}

pub open spec fn plugin_other_than(id: Seq<char>) -> spec_fn(Seq<char>) -> bool {
    |p: Seq<char>| p != id
}

pub open spec fn entry_not_of(id: Seq<char>) -> spec_fn(BroadcastEntry) -> bool {
    |e: BroadcastEntry| e.plugin != id
}

pub open spec fn binding_not_of(id: Seq<char>) -> spec_fn(CommandBinding) -> bool {
    |b: CommandBinding| b.handler.plugin != id
}

/// Broadcast entries run highest priority first, command names are bound at
/// most once, and plugin names are registered at most once.
pub open spec fn manager_wf(m: ManagerView) -> bool {
    &&& pairwise(m.broadcast, higher_first())
    &&& pairwise(m.commands, other_command())
    &&& pairwise(m.plugins, other_plugin())
}

/// The manager after registering a plugin under `name`; `None` when the name
/// is taken, and then nothing changes.
pub open spec fn after_register_plugin(m: ManagerView, name: Seq<char>) -> Option<ManagerView> {
    if m.plugins.contains(name) {
        None
    } else {
        Some(ManagerView { plugins: m.plugins.push(name), ..m })
    }
}

/// The first index at or after `i` whose entry has a priority below `p`, or
/// the length.
pub open spec fn insertion_point(s: Seq<BroadcastEntry>, p: i64, i: int) -> int
    decreases s.len() - i,
{
    if 0 <= i < s.len() && s[i].priority >= p {
        insertion_point(s, p, i + 1)
    } else {
        i
    }
}

/// The manager after adding a broadcast entry: it goes after every entry of
/// the same or a higher priority and before every entry of a lower one.
pub open spec fn after_add_broadcast(m: ManagerView, e: BroadcastEntry) -> ManagerView {
    ManagerView { broadcast: m.broadcast.insert(insertion_point(m.broadcast, e.priority, 0), e), ..m }
}

/// Whether `name` is bound to an exclusive handler.
pub open spec fn bound(cs: Seq<CommandBinding>, name: Seq<char>) -> bool {
    exists|k: int| 0 <= k < cs.len() && (#[trigger] cs[k]).command == name
}

/// The exclusive handler bound to `name`, if any.
pub open spec fn lookup(cs: Seq<CommandBinding>, name: Seq<char>) -> Option<ExclusiveEntry> {
    if bound(cs, name) {
        Some(cs[choose|k: int| 0 <= k < cs.len() && (#[trigger] cs[k]).command == name].handler)
    } else {
        None
    }
}

/// The manager after binding `name` to `h`; `None` when the name is bound
/// already, and then nothing changes.
pub open spec fn after_register_command(m: ManagerView, name: Seq<char>, h: ExclusiveEntry) -> Option<
    ManagerView,
> {
    if bound(m.commands, name) {
        None
    } else {
        Some(ManagerView { commands: m.commands.push(CommandBinding { command: name, handler: h }), ..m })
    }
}

/// The manager after unloading plugin `id`: the plugin and every broadcast
/// and exclusive entry it owns are gone, all else stays in order; `None`
/// when no such plugin is registered, and then nothing changes.
pub open spec fn after_unload(m: ManagerView, id: Seq<char>) -> Option<ManagerView> {
    if m.plugins.contains(id) {
        Some(
            ManagerView {
                prefix: m.prefix,
                plugins: m.plugins.filter(plugin_other_than(id)),
                broadcast: m.broadcast.filter(entry_not_of(id)),
                commands: m.commands.filter(binding_not_of(id)),
            },
        )
    } else {
        None
    }
}

/// What a delivery holds.
pub enum DeliveryView {
    Command { recipient: u64, message: MessageView, command: Seq<char>, arg: Seq<char> },
    Broadcast { recipient: u64, message: MessageView },
    Reply { message: MessageView, text: Seq<char> },
}

/// The reply to a command that no plugin handles.
pub open spec fn unknown_command_text(name: Seq<char>) -> Seq<char> {
    "Command '"@ + name + "' does not exist"@
}

/// The broadcast delivery of `msg` to an entry.
pub open spec fn broadcast_to(msg: MessageView) -> spec_fn(BroadcastEntry) -> DeliveryView {
    |e: BroadcastEntry| DeliveryView::Broadcast { recipient: e.recipient, message: msg }
}

/// Where one message goes: a command whose name is bound goes to that
/// handler alone; one whose name is not bound is answered that it does not
/// exist; anything else goes to every broadcast handler, in their order.
pub open spec fn route(m: ManagerView, msg: MessageView) -> Seq<DeliveryView> {
    match parse_command(m.prefix, msg.body) {
        Some(c) => match lookup(m.commands, c.name) {
            Some(h) => seq![
                DeliveryView::Command {
                    recipient: h.recipient,
                    message: msg,
                    command: c.name,
                    arg: c.raw_args,
                },
            ],
            None => seq![DeliveryView::Reply { message: msg, text: unknown_command_text(c.name) }],
        },
        None => m.broadcast.map_values(broadcast_to(msg)),
    }
}

/// The routes of several messages, one after the other.
pub open spec fn route_all(m: ManagerView, ms: Seq<MessageView>) -> Seq<DeliveryView>
    decreases ms.len(),
{
    if ms.len() == 0 {
        seq![]
    } else {
        route_all(m, ms.drop_last()) + route(m, ms.last())
    }
}

/// The first inline messages of `msg`, at most `MAX_INLINE_COMMANDS`.
pub open spec fn capped_inline(msg: MessageView) -> Seq<MessageView> {
    let d = inline_messages(msg);
    if d.len() > MAX_INLINE_COMMANDS {
        d.take(MAX_INLINE_COMMANDS as int)
    } else {
        d
    }
}

/// Everything one received message leads to: its own route, then the routes
/// of its first inline messages.
pub open spec fn dispatch_plan(m: ManagerView, msg: MessageView) -> Seq<DeliveryView> {
    route(m, msg) + route_all(m, capped_inline(msg))
}

/// Why a registration or an unload was refused.
#[derive(Clone, Copy, Debug, PartialEq, Eq, Structural)]
pub enum RegistrationError {
    PluginExists,
    CommandTaken,
    UnknownPlugin,
}

/// One event that routing hands to a plugin, or a reply to the sender.
pub enum Delivery {
    Command { recipient: Address, on_command: OnCommand },
    Broadcast { recipient: Address, on_message: OnMessage },
    Reply { message: Message, text: String },
}

impl View for Delivery {
    type V = DeliveryView;

    open spec fn view(&self) -> DeliveryView {
        match self {
            Delivery::Command { recipient, on_command } => DeliveryView::Command {
                recipient: recipient@,
                message: on_command.message@,
                command: on_command.command@,
                arg: on_command.arg@,
            },
            Delivery::Broadcast { recipient, on_message } => DeliveryView::Broadcast {
                recipient: recipient@,
                message: on_message.message@,
            },
            Delivery::Reply { message, text } => DeliveryView::Reply {
                message: message@,
                text: text@,
            },
        }
    }
}

pub open spec fn delivery_views(v: Seq<Delivery>) -> Seq<DeliveryView> {
    v.map_values(|d: Delivery| d@)
}

pub open spec fn binding_view(b: (String, OnCommandHandler)) -> CommandBinding {
    CommandBinding { command: b.0@, handler: b.1@ }
}

pub open spec fn plugin_views(v: Seq<Plugin>) -> Seq<Seq<char>> {
    v.map_values(|p: Plugin| p@)
}

pub open spec fn handler_views(v: Seq<OnMessageHandler>) -> Seq<BroadcastEntry> {
    v.map_values(|h: OnMessageHandler| h@)
}

pub open spec fn binding_views(v: Seq<(String, OnCommandHandler)>) -> Seq<CommandBinding> {
    v.map_values(|b: (String, OnCommandHandler)| binding_view(b))
}

/// The registry of plugins and their handlers. It is the only writer of its
/// entries: plugins reach it through the requests their context builds.
pub struct PluginManager {
    prefix: String,
    plugins: Vec<Plugin>,
    on_message_handlers: Vec<OnMessageHandler>,
    on_command_handlers: Vec<(String, OnCommandHandler)>,
}

impl View for PluginManager {
    type V = ManagerView;

    closed spec fn view(&self) -> ManagerView {
        ManagerView {
            prefix: self.prefix@,
            plugins: plugin_views(self.plugins@),
            broadcast: handler_views(self.on_message_handlers@),
            commands: binding_views(self.on_command_handlers@),
        }
    }
}

/// Adding an element that stands in `rel` to all others keeps `pairwise`.
pub proof fn lemma_pairwise_push<A>(s: Seq<A>, x: A, rel: spec_fn(A, A) -> bool)
    requires
        pairwise(s, rel),
        forall|k: int| 0 <= k < s.len() ==> rel(#[trigger] s[k], x),
    ensures
        pairwise(s.push(x), rel),
{
    assert forall|i: int, j: int| 0 <= i < j < s.push(x).len() implies rel(
        #[trigger] s.push(x)[i],
        #[trigger] s.push(x)[j],
    ) by {
        if j < s.len() {
            assert(rel(s[i], s[j]));
        } else {
            assert(rel(s[i], x));
        }
    }
}

/// Dropping elements keeps `pairwise`.
pub proof fn lemma_pairwise_filter<A>(s: Seq<A>, keep: spec_fn(A) -> bool, rel: spec_fn(A, A) -> bool)
    requires
        pairwise(s, rel),
    ensures
        pairwise(s.filter(keep), rel),
    decreases s.len(),
{
    reveal(Seq::filter);
    if s.len() > 0 {
        let d = s.drop_last();
        let x = s.last();
        assert(pairwise(d, rel)) by {
            assert forall|i: int, j: int| 0 <= i < j < d.len() implies rel(
                #[trigger] d[i],
                #[trigger] d[j],
            ) by {
                assert(rel(s[i], s[j]));
            }
        }
        lemma_pairwise_filter(d, keep, rel);
        if keep(x) {
            let f = d.filter(keep);
            assert forall|k: int| 0 <= k < f.len() implies rel(#[trigger] f[k], x) by {
                assert(f.contains(f[k]));
                d.lemma_filter_contains_rev(keep, f[k]);
                let w = choose|w: int| 0 <= w < d.len() && d[w] == f[k];
                assert(rel(s[w], s[s.len() - 1]));
            }
            lemma_pairwise_push(f, x, rel);
        }
    }
}

/// `insertion_point` stops at the first entry below `p`.
pub proof fn lemma_insertion_point(s: Seq<BroadcastEntry>, p: i64, i: int)
    requires
        0 <= i <= s.len(),
    ensures
        i <= insertion_point(s, p, i) <= s.len(),
        forall|k: int| i <= k < insertion_point(s, p, i) ==> (#[trigger] s[k]).priority >= p,
        insertion_point(s, p, i) < s.len() ==> s[insertion_point(s, p, i)].priority < p,
    decreases s.len() - i,
{
    if i < s.len() && s[i].priority >= p {
        lemma_insertion_point(s, p, i + 1);
    }
}

/// A new broadcast entry lands after every entry of the same or a higher
/// priority and before every entry of a lower one, so the entries stay
/// highest priority first and equal priorities keep their registration order.
pub proof fn lemma_add_broadcast_keeps_order(m: ManagerView, e: BroadcastEntry)
    requires
        manager_wf(m),
    ensures
        manager_wf(after_add_broadcast(m, e)),
        ({
            let s = after_add_broadcast(m, e).broadcast;
            let k = insertion_point(m.broadcast, e.priority, 0);
            &&& s[k] == e
            &&& forall|i: int| 0 <= i < k ==> (#[trigger] s[i]).priority >= e.priority
            &&& forall|i: int| k < i < s.len() ==> (#[trigger] s[i]).priority < e.priority
        }),
{
    let b = m.broadcast;
    let k = insertion_point(b, e.priority, 0);
    lemma_insertion_point(b, e.priority, 0);
    let s = b.insert(k, e);
    assert(s.len() == b.len() + 1);
    assert forall|i: int| k < i < s.len() implies (#[trigger] s[i]).priority < e.priority by {
        assert(s[i] == b[i - 1]);
        if i - 1 > k {
            assert(higher_first()(b[k], b[i - 1]));
        }
    }
    assert forall|i: int, j: int| 0 <= i < j < s.len() implies higher_first()(
        #[trigger] s[i],
        #[trigger] s[j],
    ) by {
        if j < k {
            assert(higher_first()(b[i], b[j]));
        } else if j == k {
            assert(b[i].priority >= e.priority);
        } else if i < k {
            assert(s[j] == b[j - 1]);
            assert(higher_first()(b[i], b[j - 1]));
        } else if i == k {
        } else {
            assert(higher_first()(b[i - 1], b[j - 1]));
        }
    }
}

/// The manager after adding the broadcast entries `es`, first to last.
pub open spec fn add_all(m: ManagerView, es: Seq<BroadcastEntry>) -> ManagerView
    decreases es.len(),
{
    if es.len() == 0 {
        m
    } else {
        after_add_broadcast(add_all(m, es.drop_last()), es.last())
    }
}

/// Whatever order broadcast handlers register in, the manager then holds
/// exactly the entries it held and the new ones, each once, highest
/// priority first.
pub proof fn lemma_registration_keeps_priority_order(m: ManagerView, es: Seq<BroadcastEntry>)
    requires
        manager_wf(m),
    ensures
        manager_wf(add_all(m, es)),
        add_all(m, es).broadcast.len() == m.broadcast.len() + es.len(),
        forall|x: BroadcastEntry|
            #[trigger] add_all(m, es).broadcast.contains(x) <==> m.broadcast.contains(x)
                || es.contains(x),
        forall|i: int, j: int|
            0 <= i < j < add_all(m, es).broadcast.len() ==> (#[trigger] add_all(
                m,
                es,
            ).broadcast[i]).priority >= (#[trigger] add_all(m, es).broadcast[j]).priority,
    decreases es.len(),
{
    if es.len() > 0 {
        let d = es.drop_last();
        let e = es.last();
        let prev = add_all(m, d);
        lemma_registration_keeps_priority_order(m, d);
        lemma_add_broadcast_keeps_order(prev, e);
        lemma_insertion_point(prev.broadcast, e.priority, 0);
        let k = insertion_point(prev.broadcast, e.priority, 0);
        let s = prev.broadcast.insert(k, e);
        assert forall|x: BroadcastEntry| #[trigger] s.contains(x) <==> prev.broadcast.contains(x)
            || x == e by {
            if s.contains(x) {
                let w = choose|w: int| 0 <= w < s.len() && s[w] == x;
                if w < k {
                    assert(prev.broadcast[w] == x);
                } else if w > k {
                    assert(prev.broadcast[w - 1] == x);
                }
            }
            if prev.broadcast.contains(x) {
                let w = choose|w: int| 0 <= w < prev.broadcast.len() && prev.broadcast[w] == x;
                if w < k {
                    assert(s[w] == x);
                } else {
                    assert(s[w + 1] == x);
                }
            }
            if x == e {
                assert(s[k] == x);
            }
        }
        assert forall|x: BroadcastEntry| #[trigger] es.contains(x) <==> d.contains(x) || x == e by {
            if es.contains(x) {
                let w = choose|w: int| 0 <= w < es.len() && es[w] == x;
                if w < es.len() - 1 {
                    assert(d[w] == x);
                }
            }
            if d.contains(x) {
                let w = choose|w: int| 0 <= w < d.len() && d[w] == x;
                assert(es[w] == x);
            }
            if x == e {
                assert(es[es.len() - 1] == x);
            }
        }
        assert forall|i: int, j: int| 0 <= i < j < s.len() implies (#[trigger] s[i]).priority
            >= (#[trigger] s[j]).priority by {
            assert(higher_first()(s[i], s[j]));
        }
    }
}

/// Every earlier entry has a strictly higher priority than every later one.
pub open spec fn strictly_descending(s: Seq<BroadcastEntry>) -> bool {
    forall|i: int, j: int| 0 <= i < j < s.len() ==> (#[trigger] s[i]).priority > (#[trigger] s[j]).priority
}

/// Two lists in strictly descending priority with the same entries are the
/// same list.
pub proof fn lemma_strictly_descending_unique(s1: Seq<BroadcastEntry>, s2: Seq<BroadcastEntry>)
    requires
        strictly_descending(s1),
        strictly_descending(s2),
        forall|x: BroadcastEntry| #[trigger] s1.contains(x) <==> s2.contains(x),
    ensures
        s1 == s2,
    decreases s1.len(),
{
    if s1.len() == 0 {
        if s2.len() > 0 {
            assert(s2.contains(s2[0]));
            assert(s1.contains(s2[0]));
        }
        assert(s1 =~= s2);
    } else {
        assert(s1.contains(s1[0]));
        assert(s2.contains(s1[0]));
        assert(s2.contains(s2[0]));
        assert(s1.contains(s2[0]));
        let k = choose|k: int| 0 <= k < s2.len() && s2[k] == s1[0];
        let j = choose|j: int| 0 <= j < s1.len() && s1[j] == s2[0];
        if k > 0 {
            assert(s2[0].priority > s2[k].priority);
            if j > 0 {
                assert(s1[0].priority > s1[j].priority);
            }
        }
        assert(s1[0] == s2[0]);
        let t1 = s1.skip(1);
        let t2 = s2.skip(1);
        assert forall|x: BroadcastEntry| #[trigger] t1.contains(x) <==> t2.contains(x) by {
            if t1.contains(x) {
                let w = choose|w: int| 0 <= w < t1.len() && t1[w] == x;
                assert(s1[w + 1] == x);
                assert(s1.contains(x));
                assert(s2.contains(x));
                let v = choose|v: int| 0 <= v < s2.len() && s2[v] == x;
                if v == 0 {
                    assert(s1[0].priority > s1[w + 1].priority);
                }
                assert(t2[v - 1] == x);
            }
            if t2.contains(x) {
                let w = choose|w: int| 0 <= w < t2.len() && t2[w] == x;
                assert(s2[w + 1] == x);
                assert(s2.contains(x));
                assert(s1.contains(x));
                let v = choose|v: int| 0 <= v < s1.len() && s1[v] == x;
                if v == 0 {
                    assert(s2[0].priority > s2[w + 1].priority);
                }
                assert(t1[v - 1] == x);
            }
        }
        lemma_strictly_descending_unique(t1, t2);
        assert(s1 =~= seq![s1[0]] + t1);
        assert(s2 =~= seq![s2[0]] + t2);
    }
}

/// Adding entries that are all new to an empty list leaves no entry twice.
proof fn lemma_add_all_distinct(m: ManagerView, es: Seq<BroadcastEntry>)
    requires
        manager_wf(m),
        m.broadcast.len() == 0,
        es.no_duplicates(),
    ensures
        add_all(m, es).broadcast.no_duplicates(),
    decreases es.len(),
{
    if es.len() > 0 {
        let d = es.drop_last();
        let e = es.last();
        assert(d.no_duplicates()) by {
            assert forall|i: int, j: int| 0 <= i < d.len() && 0 <= j < d.len() && i != j implies d[i]
                != d[j] by {
                assert(es[i] != es[j]);
            }
        }
        lemma_add_all_distinct(m, d);
        lemma_registration_keeps_priority_order(m, d);
        let prev = add_all(m, d).broadcast;
        if prev.contains(e) {
            assert(d.contains(e));
            let w = choose|w: int| 0 <= w < d.len() && d[w] == e;
            assert(es[w] == es[es.len() - 1]);
        }
        lemma_insertion_point(prev, e.priority, 0);
        let k = insertion_point(prev, e.priority, 0);
        let s = prev.insert(k, e);
        assert forall|i: int, j: int| 0 <= i < s.len() && 0 <= j < s.len() && i != j implies s[i]
            != s[j] by {
            if i != k && j != k {
                let pi = if i < k {
                    i
                } else {
                    i - 1
                };
                let pj = if j < k {
                    j
                } else {
                    j - 1
                };
                assert(s[i] == prev[pi]);
                assert(s[j] == prev[pj]);
            } else if i == k {
                let pj = if j < k {
                    j
                } else {
                    j - 1
                };
                assert(s[j] == prev[pj]);
                assert(prev.contains(prev[pj]));
            } else {
                let pi = if i < k {
                    i
                } else {
                    i - 1
                };
                assert(s[i] == prev[pi]);
                assert(prev.contains(prev[pi]));
            }
        }
    }
}

/// Registering the same broadcast handlers, with pairwise different
/// priorities, in any two orders gives the same list.
pub proof fn lemma_registration_order_irrelevant(
    m: ManagerView,
    es1: Seq<BroadcastEntry>,
    es2: Seq<BroadcastEntry>,
)
    requires
        manager_wf(m),
        m.broadcast.len() == 0,
        forall|x: BroadcastEntry| #[trigger] es1.contains(x) <==> es2.contains(x),
        forall|i: int, j: int|
            0 <= i < j < es1.len() ==> (#[trigger] es1[i]).priority != (#[trigger] es1[j]).priority,
        forall|i: int, j: int|
            0 <= i < j < es2.len() ==> (#[trigger] es2[i]).priority != (#[trigger] es2[j]).priority,
    ensures
        add_all(m, es1).broadcast == add_all(m, es2).broadcast,
{
    lemma_strictly_sorted_result(m, es1);
    lemma_strictly_sorted_result(m, es2);
    let r1 = add_all(m, es1).broadcast;
    let r2 = add_all(m, es2).broadcast;
    assert forall|x: BroadcastEntry| #[trigger] r1.contains(x) <==> r2.contains(x) by {
        assert(!m.broadcast.contains(x));
    }
    lemma_strictly_descending_unique(r1, r2);
}

proof fn lemma_strictly_sorted_result(m: ManagerView, es: Seq<BroadcastEntry>)
    requires
        manager_wf(m),
        m.broadcast.len() == 0,
        forall|i: int, j: int|
            0 <= i < j < es.len() ==> (#[trigger] es[i]).priority != (#[trigger] es[j]).priority,
    ensures
        strictly_descending(add_all(m, es).broadcast),
        forall|x: BroadcastEntry| #[trigger] add_all(m, es).broadcast.contains(x) <==> es.contains(x),
{
    assert(es.no_duplicates()) by {
        assert forall|i: int, j: int| 0 <= i < es.len() && 0 <= j < es.len() && i != j implies es[i]
            != es[j] by {
            if i < j {
                assert(es[i].priority != es[j].priority);
            } else {
                assert(es[j].priority != es[i].priority);
            }
        }
    }
    lemma_registration_keeps_priority_order(m, es);
    lemma_add_all_distinct(m, es);
    let r = add_all(m, es).broadcast;
    assert forall|x: BroadcastEntry| #[trigger] r.contains(x) <==> es.contains(x) by {
        assert(!m.broadcast.contains(x));
    }
    assert forall|i: int, j: int| 0 <= i < j < r.len() implies (#[trigger] r[i]).priority > (
    #[trigger] r[j]).priority by {
        assert(r[i].priority >= r[j].priority);
        if r[i].priority == r[j].priority {
            assert(r.contains(r[i]));
            assert(r.contains(r[j]));
            let a = choose|a: int| 0 <= a < es.len() && es[a] == r[i];
            let b = choose|b: int| 0 <= b < es.len() && es[b] == r[j];
            if a < b {
                assert(es[a].priority != es[b].priority);
            } else if b < a {
                assert(es[b].priority != es[a].priority);
            }
            assert(r[i] == r[j]);
        }
    }
}

impl PluginManager {
    /// The invariant that every operation keeps.
    pub open spec fn well_formed(&self) -> bool {
        manager_wf(self@)
    }

    /// An empty manager that recognises commands introduced by `prefix`.
    pub fn new(prefix: String) -> (r: PluginManager)
        ensures
            r@ == (ManagerView {
                prefix: prefix@,
                plugins: seq![],
                broadcast: seq![],
                commands: seq![],
            }),
            r.well_formed(),
    {
        let r = PluginManager {
            prefix,
            plugins: Vec::new(),
            on_message_handlers: Vec::new(),
            on_command_handlers: Vec::new(),
        };
        proof {
            assert(r@.plugins =~= seq![]);
            assert(r@.broadcast =~= seq![]);
            assert(r@.commands =~= seq![]);
        }
        r
    }

    /// The prefix that introduces commands.
    pub fn prefix(&self) -> (r: &str)
        ensures
            r@ == self@.prefix,
    {
        self.prefix.as_str()
    }

    /// Whether a plugin is registered under `name`.
    pub fn is_registered(&self, name: &str) -> (r: bool)
        ensures
            r == self@.plugins.contains(name@),
    {
        let mut i: usize = 0;
        while i < self.plugins.len()
            invariant
                i <= self.plugins@.len(),
                forall|j: int| 0 <= j < i ==> self@.plugins[j] != name@,
            decreases self.plugins@.len() - i,
        {
            if text_eq(self.plugins[i].id().name(), name) {
                proof {
                    assert(self@.plugins[i as int] == name@);
                }
                return true;
            }
            i += 1;
        }
        false
    }

    /// Registers a plugin under `name`, reachable at `address`, and returns
    /// the context bound to its new id. A name that is taken is refused.
    pub fn register_plugin(&mut self, name: String, address: Address) -> (r: Result<
        PluginContext,
        RegistrationError,
    >)
        requires
            old(self).well_formed(),
        ensures
            final(self).well_formed(),
            match r {
                Ok(ctx) => after_register_plugin(old(self)@, name@) == Some(final(self)@) && ctx@
                    == (PluginContextView { id: name@, address: address@ }),
                Err(e) => after_register_plugin(old(self)@, name@) is None && final(self)@ == old(
                    self,
                )@ && e == RegistrationError::PluginExists,
            },
    {
        if self.is_registered(name.as_str()) {
            return Err(RegistrationError::PluginExists);
        }
        let id = PluginId::new(name);
        let ghost before = self@;
        self.plugins.push(Plugin::new(id.duplicate()));
        proof {
            assert(self@.plugins =~= before.plugins.push(name@));
            assert forall|k: int| 0 <= k < before.plugins.len() implies other_plugin()(
                #[trigger] before.plugins[k],
                name@,
            ) by {
                assert(before.plugins.contains(before.plugins[k]));
            }
            lemma_pairwise_push(before.plugins, name@, other_plugin());
            assert(self@ == ManagerView { plugins: before.plugins.push(name@), ..before });
        }
        Ok(PluginContext::new(address, id))
    }

    /// Registers the plugin that `event` asks for (`register_plugin`).
    pub fn handle_register_plugin(&mut self, event: RegisterPlugin) -> (r: Result<
        PluginContext,
        RegistrationError,
    >)
        requires
            old(self).well_formed(),
        ensures
            final(self).well_formed(),
            match r {
                Ok(ctx) => after_register_plugin(old(self)@, event.name@) == Some(final(self)@)
                    && ctx@ == (PluginContextView { id: event.name@, address: event.address@ }),
                Err(e) => after_register_plugin(old(self)@, event.name@) is None && final(self)@
                    == old(self)@ && e == RegistrationError::PluginExists,
            },
    {
        self.register_plugin(event.name, event.address)
    }

    /// Adds a broadcast handler after every handler of the same or a higher
    /// priority and before every handler of a lower one.
    pub fn handle_register_on_message(&mut self, event: RegisterOnMessageHandler)
        requires
            old(self).well_formed(),
        ensures
            final(self).well_formed(),
            final(self)@ == after_add_broadcast(old(self)@, event.handler@),
    {
        let ghost before = self@;
        let p = event.handler.priority().level();
        let mut i: usize = 0;
        proof {
            lemma_insertion_point(before.broadcast, p, 0);
        }
        while i < self.on_message_handlers.len() && self.on_message_handlers[i].priority().level()
            >= p
            invariant
                self@ == before,
                p == event.handler@.priority,
                i <= before.broadcast.len(),
                insertion_point(before.broadcast, p, i as int) == insertion_point(
                    before.broadcast,
                    p,
                    0,
                ),
            decreases before.broadcast.len() - i,
        {
            i += 1;
        }
        let ghost h = event.handler@;
        self.on_message_handlers.insert(i, event.handler);
        proof {
            assert(self@.broadcast =~= before.broadcast.insert(i as int, h));
            assert(self@ == after_add_broadcast(before, h));
            lemma_add_broadcast_keeps_order(before, h);
        }
    }

    /// Binds `event.command` to its handler. A name that is bound already is
    /// refused.
    pub fn handle_register_on_command(&mut self, event: RegisterOnCommandHandler) -> (r: Result<
        (),
        RegistrationError,
    >)
        requires
            old(self).well_formed(),
        ensures
            final(self).well_formed(),
            match r {
                Ok(()) => after_register_command(old(self)@, event.command@, event.handler@) == Some(
                    final(self)@,
                ),
                Err(e) => after_register_command(old(self)@, event.command@, event.handler@) is None
                    && final(self)@ == old(self)@ && e == RegistrationError::CommandTaken,
            },
    {
        let ghost before = self@;
        let mut i: usize = 0;
        while i < self.on_command_handlers.len()
            invariant
                self@ == before,
                manager_wf(before),
                i <= before.commands.len(),
                forall|j: int| 0 <= j < i ==> before.commands[j].command != event.command@,
            decreases before.commands.len() - i,
        {
            if self.on_command_handlers[i].0 == event.command {
                proof {
                    assert(before.commands[i as int].command == event.command@);
                    assert(bound(before.commands, event.command@));
                }
                return Err(RegistrationError::CommandTaken);
            }
            i += 1;
        }
        let ghost b = CommandBinding { command: event.command@, handler: event.handler@ };
        self.on_command_handlers.push((event.command, event.handler));
        proof {
            assert(self@.commands =~= before.commands.push(b));
            assert forall|k: int| 0 <= k < before.commands.len() implies other_command()(
                #[trigger] before.commands[k],
                b,
            ) by {}
            lemma_pairwise_push(before.commands, b, other_command());
            assert(self@ == ManagerView { commands: before.commands.push(b), ..before });
        }
        Ok(())
    }

    /// Drops a plugin and every broadcast and exclusive entry it owns. An id
    /// that is not registered is refused.
    pub fn handle_unload(&mut self, event: UnloadPlugin) -> (r: Result<(), RegistrationError>)
        requires
            old(self).well_formed(),
        ensures
            final(self).well_formed(),
            ({
                let id = match event {
                    UnloadPlugin::ById(id) => id@,
                };
                match r {
                    Ok(()) => after_unload(old(self)@, id) == Some(final(self)@),
                    Err(e) => after_unload(old(self)@, id) is None && final(self)@ == old(self)@ && e
                        == RegistrationError::UnknownPlugin,
                }
            }),
    {
        let id = match event {
            UnloadPlugin::ById(id) => id,
        };
        if !self.is_registered(id.name()) {
            return Err(RegistrationError::UnknownPlugin);
        }
        let ghost before = self@;
        let ghost keep_plugin = plugin_other_than(id@);
        let ghost keep_entry = entry_not_of(id@);
        let ghost keep_binding = binding_not_of(id@);

        let mut plugins: Vec<Plugin> = Vec::new();
        let mut i: usize = 0;
        while i < self.plugins.len()
            invariant
                self@ == before,
                i <= before.plugins.len(),
                keep_plugin == plugin_other_than(id@),
                plugin_views(plugins@) == before.plugins.take(i as int).filter(
                    keep_plugin,
                ),
            decreases before.plugins.len() - i,
        {
            let ghost prev = plugins@;
            if !self.plugins[i].id().same(&id) {
                plugins.push(self.plugins[i].duplicate());
            }
            proof {
                assert(before.plugins.take(i + 1) =~= before.plugins.take(i as int).push(
                    before.plugins[i as int],
                ));
                before.plugins.take(i as int).lemma_filter_push(before.plugins[i as int], keep_plugin);
                assert(plugin_views(plugins@) =~= before.plugins.take(
                    i + 1,
                ).filter(keep_plugin));
            }
            i += 1;
        }

        let mut handlers: Vec<OnMessageHandler> = Vec::new();
        let mut i: usize = 0;
        while i < self.on_message_handlers.len()
            invariant
                self@ == before,
                i <= before.broadcast.len(),
                keep_entry == entry_not_of(id@),
                handler_views(handlers@) == before.broadcast.take(
                    i as int,
                ).filter(keep_entry),
            decreases before.broadcast.len() - i,
        {
            if !self.on_message_handlers[i].plugin_id().same(&id) {
                handlers.push(self.on_message_handlers[i].duplicate());
            }
            proof {
                assert(before.broadcast.take(i + 1) =~= before.broadcast.take(i as int).push(
                    before.broadcast[i as int],
                ));
                before.broadcast.take(i as int).lemma_filter_push(
                    before.broadcast[i as int],
                    keep_entry,
                );
                assert(handler_views(handlers@) =~= before.broadcast.take(
                    i + 1,
                ).filter(keep_entry));
            }
            i += 1;
        }

        let mut bindings: Vec<(String, OnCommandHandler)> = Vec::new();
        let mut i: usize = 0;
        while i < self.on_command_handlers.len()
            invariant
                self@ == before,
                manager_wf(before),
                i <= before.commands.len(),
                keep_binding == binding_not_of(id@),
                binding_views(bindings@)
                    == before.commands.take(i as int).filter(keep_binding),
            decreases before.commands.len() - i,
        {
            if !self.on_command_handlers[i].1.plugin_id().same(&id) {
                let command = self.on_command_handlers[i].0.clone();
                let handler = self.on_command_handlers[i].1.duplicate();
                proof {
                    assert(binding_view((command, handler)) == before.commands[i as int]);
                }
                bindings.push((command, handler));
            }
            proof {
                assert(before.commands.take(i + 1) =~= before.commands.take(i as int).push(
                    before.commands[i as int],
                ));
                before.commands.take(i as int).lemma_filter_push(
                    before.commands[i as int],
                    keep_binding,
                );
                assert(binding_views(bindings@)
                    =~= before.commands.take(i + 1).filter(keep_binding));
            }
            i += 1;
        }

        self.plugins = plugins;
        self.on_message_handlers = handlers;
        self.on_command_handlers = bindings;
        proof {
            assert(before.plugins.take(before.plugins.len() as int) =~= before.plugins);
            assert(before.broadcast.take(before.broadcast.len() as int) =~= before.broadcast);
            assert(before.commands.take(before.commands.len() as int) =~= before.commands);
            lemma_pairwise_filter(before.plugins, keep_plugin, other_plugin());
            lemma_pairwise_filter(before.broadcast, keep_entry, higher_first());
            lemma_pairwise_filter(before.commands, keep_binding, other_command());
            assert(after_unload(before, id@) == Some(self@));
        }
        Ok(())
    }

    /// Where one message goes (`route`): a command whose name is bound goes
    /// to its handler alone, one whose name is not bound is answered that it
    /// does not exist, and anything else goes to every broadcast handler,
    /// highest priority first.
    pub fn handle_on_message(&self, event: &OnMessage) -> (r: Vec<Delivery>)
        requires
            self.well_formed(),
        ensures
            delivery_views(r@) == route(self@, event.message@),
    {
        let message = &event.message;
        let ghost m = self@;
        let ghost msg = message@;
        let mut out: Vec<Delivery> = Vec::new();
        match Command::parse(self.prefix.as_str(), message.body()) {
            Some(command) => {
                let name = command.name();
                let mut i: usize = 0;
                while i < self.on_command_handlers.len()
                    invariant
                        self@ == m,
                        manager_wf(m),
                        message@ == msg,
                        event.message@ == msg,
                        m.prefix == self.prefix@,
                        parse_command(m.prefix, msg.body) == Some(command@),
                        name@ == command@.name,
                        out@.len() == 0,
                        i <= m.commands.len(),
                        forall|j: int| 0 <= j < i ==> m.commands[j].command != name@,
                    decreases m.commands.len() - i,
                {
                    if text_eq(self.on_command_handlers[i].0.as_str(), name) {
                        let recipient = self.on_command_handlers[i].1.recipient();
                        let d = Delivery::Command {
                            recipient,
                            on_command: OnCommand {
                                message: message.duplicate(),
                                command: name.to_owned(),
                                arg: command.raw_args().to_owned(),
                            },
                        };
                        out.push(d);
                        proof {
                            let cs = m.commands;
                            assert(recipient@ == cs[i as int].handler.recipient);
                            assert(out@ =~= seq![d]);
                            assert(d@ == (DeliveryView::Command {
                                recipient: cs[i as int].handler.recipient,
                                message: msg,
                                command: command@.name,
                                arg: command@.raw_args,
                            }));
                            assert(cs[i as int].command == name@);
                            assert(bound(cs, name@));
                            let k = choose|k: int| 0 <= k < cs.len() && (#[trigger] cs[k]).command
                                == name@;
                            if k < i {
                                assert(other_command()(cs[k], cs[i as int]));
                            } else if k > i {
                                assert(other_command()(cs[i as int], cs[k]));
                            }
                            assert(lookup(cs, name@) == Some(cs[i as int].handler));
                            assert(delivery_views(out@) =~= route(m, msg));
                        }
                        return out;
                    }
                    i += 1;
                }
                out.push(
                    Delivery::Reply { message: message.duplicate(), text: unknown_command_text_of(name) },
                );
                proof {
                    assert(!bound(m.commands, name@));
                    assert(delivery_views(out@) =~= route(m, msg));
                }
                out
            },
            None => {
                let mut i: usize = 0;
                while i < self.on_message_handlers.len()
                    invariant
                        self@ == m,
                        message@ == msg,
                        parse_command(m.prefix, msg.body) is None,
                        i <= m.broadcast.len(),
                        delivery_views(out@) == m.broadcast.take(i as int).map_values(
                            broadcast_to(msg),
                        ),
                    decreases m.broadcast.len() - i,
                {
                    let recipient = self.on_message_handlers[i].recipient();
                    let d = Delivery::Broadcast {
                        recipient,
                        on_message: OnMessage { message: message.duplicate() },
                    };
                    let ghost prev = out@;
                    proof {
                        assert(recipient@ == m.broadcast[i as int].recipient);
                        assert(d@ == broadcast_to(msg)(m.broadcast[i as int]));
                    }
                    out.push(d);
                    proof {
                        assert(delivery_views(out@) =~= delivery_views(prev).push(d@));
                        assert(m.broadcast.take(i + 1) =~= m.broadcast.take(i as int).push(
                            m.broadcast[i as int],
                        ));
                        assert(delivery_views(out@) =~= m.broadcast.take(i + 1).map_values(
                            broadcast_to(msg),
                        ));
                    }
                    i += 1;
                }
                proof {
                    assert(m.broadcast.take(m.broadcast.len() as int) =~= m.broadcast);
                }
                out
            },
        }
    }

    /// Everything one received message leads to (`dispatch_plan`): its own
    /// route, then the routes of its first `MAX_INLINE_COMMANDS` inline
    /// messages, each as if it had been received on its own.
    pub fn dispatch(&self, message: &Message) -> (r: Vec<Delivery>)
        requires
            self.well_formed(),
        ensures
            delivery_views(r@) == dispatch_plan(self@, message@),
    {
        let ghost m = self@;
        let mut out = self.handle_on_message(&OnMessage { message: message.duplicate() });
        let derived = message.inline_messages();
        let count = if derived.len() > MAX_INLINE_COMMANDS {
            MAX_INLINE_COMMANDS
        } else {
            derived.len()
        };
        let ghost ms = capped_inline(message@);
        proof {
            assert(ms.len() == count);
            assert(forall|k: int| 0 <= k < count ==> ms[k] == (#[trigger] derived@[k])@);
        }
        let mut i: usize = 0;
        while i < count
            invariant
                self@ == m,
                manager_wf(m),
                i <= count,
                count <= derived@.len(),
                ms.len() == count,
                forall|k: int| 0 <= k < count ==> ms[k] == (#[trigger] derived@[k])@,
                delivery_views(out@) == route(m, message@) + route_all(m, ms.take(i as int)),
            decreases count - i,
        {
            let mut part = self.handle_on_message(&OnMessage { message: derived[i].duplicate() });
            let ghost before = out@;
            let ghost added = part@;
            out.append(&mut part);
            proof {
                assert(ms.take(i + 1).drop_last() =~= ms.take(i as int));
                assert(ms.take(i + 1).last() == ms[i as int]);
                assert(delivery_views(out@) =~= delivery_views(before) + delivery_views(added));
                assert(route_all(m, ms.take(i + 1)) == route_all(m, ms.take(i as int)) + route(
                    m,
                    ms[i as int],
                ));
                assert(delivery_views(out@) =~= route(m, message@) + route_all(
                    m,
                    ms.take(i + 1),
                ));
            }
            i += 1;
        }
        proof {
            assert(ms.take(count as int) =~= ms);
        }
        out
    }
}

/// The reply to a command that no plugin handles.
fn unknown_command_text_of(name: &str) -> (r: String)
    ensures
        r@ == unknown_command_text(name@),
{
    let mut text = String::from_str("Command '");
    text.append(name);
    text.append("' does not exist");
    text
}

/// A second plugin under a name that is registered already is refused; the
/// refusal changes nothing, so the first plugin's handlers stay in place.
pub proof fn lemma_second_plugin_refused(m: ManagerView, name: Seq<char>, m1: ManagerView)
    requires
        after_register_plugin(m, name) == Some(m1),
    ensures
        after_register_plugin(m1, name) is None,
{
    assert(m1.plugins[m1.plugins.len() - 1] == name);
}

/// A second exclusive handler for a name that is bound already is refused,
/// and a message that parses to that name goes to the first handler alone.
pub proof fn lemma_second_binding_refused(
    m: ManagerView,
    name: Seq<char>,
    first: ExclusiveEntry,
    second: ExclusiveEntry,
    m1: ManagerView,
    msg: MessageView,
)
    requires
        manager_wf(m),
        after_register_command(m, name, first) == Some(m1),
    ensures
        after_register_command(m1, name, second) is None,
        match parse_command(m1.prefix, msg.body) {
            Some(c) => c.name == name ==> route(m1, msg) == seq![
                (DeliveryView::Command {
                    recipient: first.recipient,
                    message: msg,
                    command: name,
                    arg: c.raw_args,
                }),
            ],
            None => true,
        },
{
    let cs = m1.commands;
    let last = cs.len() - 1;
    assert(cs[last].command == name);
    assert(bound(cs, name));
    let k = choose|k: int| 0 <= k < cs.len() && (#[trigger] cs[k]).command == name;
    if k < last {
        assert(m.commands[k].command == name);
    }
    assert(lookup(cs, name) == Some(first));
}

/// A message that is no command goes to every broadcast handler, each once,
/// highest priority first.
pub proof fn lemma_broadcast_follows_priority(m: ManagerView, msg: MessageView)
    requires
        manager_wf(m),
        parse_command(m.prefix, msg.body) is None,
    ensures
        route(m, msg).len() == m.broadcast.len(),
        forall|i: int|
            0 <= i < m.broadcast.len() ==> #[trigger] route(m, msg)[i] == (DeliveryView::Broadcast {
                recipient: m.broadcast[i].recipient,
                message: msg,
            }),
        forall|i: int, j: int|
            0 <= i < j < m.broadcast.len() ==> #[trigger] m.broadcast[i].priority
                >= #[trigger] m.broadcast[j].priority,
{
    assert forall|i: int, j: int| 0 <= i < j < m.broadcast.len() implies #[trigger] m.broadcast[i].priority
        >= #[trigger] m.broadcast[j].priority by {
        assert(higher_first()(m.broadcast[i], m.broadcast[j]));
    }
}

/// Unloading a plugin drops exactly what it owns: none of its entries is
/// left, every entry of another plugin stays, and a command it owned is then
/// answered as one that does not exist.
pub proof fn lemma_unload_removes_exactly(
    m: ManagerView,
    id: Seq<char>,
    m1: ManagerView,
    msg: MessageView,
)
    requires
        manager_wf(m),
        after_unload(m, id) == Some(m1),
    ensures
        forall|k: int| 0 <= k < m1.broadcast.len() ==> (#[trigger] m1.broadcast[k]).plugin != id,
        forall|k: int|
            0 <= k < m1.commands.len() ==> (#[trigger] m1.commands[k]).handler.plugin != id,
        forall|k: int|
            0 <= k < m.broadcast.len() && (#[trigger] m.broadcast[k]).plugin != id
                ==> m1.broadcast.contains(m.broadcast[k]),
        forall|k: int|
            0 <= k < m.commands.len() && (#[trigger] m.commands[k]).handler.plugin != id
                ==> m1.commands.contains(m.commands[k]),
        match parse_command(m.prefix, msg.body) {
            Some(c) => match lookup(m.commands, c.name) {
                Some(h) => h.plugin == id ==> route(m1, msg) == seq![
                    (DeliveryView::Reply { message: msg, text: unknown_command_text(c.name) }),
                ],
                None => true,
            },
            None => true,
        },
{
    broadcast use vstd::seq_lib::group_filter_ensures;

    assert forall|k: int| 0 <= k < m1.broadcast.len() implies (#[trigger] m1.broadcast[k]).plugin
        != id by {
        m.broadcast.lemma_filter_pred(entry_not_of(id), k);
    }
    assert forall|k: int| 0 <= k < m1.commands.len() implies (
    #[trigger] m1.commands[k]).handler.plugin != id by {
        m.commands.lemma_filter_pred(binding_not_of(id), k);
    }
    assert forall|k: int|
        0 <= k < m.broadcast.len() && (#[trigger] m.broadcast[k]).plugin != id implies m1.broadcast.contains(
        m.broadcast[k],
    ) by {
        m.broadcast.lemma_filter_contains(entry_not_of(id), k);
    }
    assert forall|k: int|
        0 <= k < m.commands.len() && (#[trigger] m.commands[k]).handler.plugin != id implies m1.commands.contains(
        m.commands[k],
    ) by {
        m.commands.lemma_filter_contains(binding_not_of(id), k);
    }
    match parse_command(m.prefix, msg.body) {
        Some(c) => {
            let cs = m.commands;
            if lookup(cs, c.name) is Some && lookup(cs, c.name).unwrap().plugin == id {
                let k0 = choose|k: int| 0 <= k < cs.len() && (#[trigger] cs[k]).command == c.name;
                if bound(m1.commands, c.name) {
                    let w = choose|w: int|
                        0 <= w < m1.commands.len() && (#[trigger] m1.commands[w]).command == c.name;
                    let b = m1.commands[w];
                    cs.lemma_filter_pred(binding_not_of(id), w);
                    assert(m1.commands.contains(b));
                    cs.lemma_filter_contains_rev(binding_not_of(id), b);
                    let v = choose|v: int| 0 <= v < cs.len() && cs[v] == b;
                    if v < k0 {
                        assert(other_command()(cs[v], cs[k0]));
                    } else if v > k0 {
                        assert(other_command()(cs[k0], cs[v]));
                    }
                }
                assert(lookup(m1.commands, c.name) is None);
            }
        },
        None => {},
    }
}

} // verus!
