//! Plugin identities, handler entries, the registration events a plugin
//! sends to the manager, and the context through which it sends them.
use vstd::prelude::*;
use crate::message::Message;

verus! {

/// The identity of a registered plugin, derived from its registration name.
pub struct PluginId {
    name: String,
}

impl View for PluginId {
    type V = Seq<char>;

    closed spec fn view(&self) -> Seq<char> {
        self.name@
    }
}

impl PluginId {
    pub fn new(name: String) -> (r: PluginId)
        ensures
            r@ == name@,
    {
        PluginId { name }
    }

    pub fn name(&self) -> (r: &str)
        ensures
            r@ == self@,
    {
        self.name.as_str()
    }

    /// Whether both ids name the same plugin.
    pub fn same(&self, other: &PluginId) -> (r: bool)
        ensures
            r == (self@ == other@),
    {
        self.name == other.name
    }

    pub fn duplicate(&self) -> (r: PluginId)
        ensures
            r@ == self@,
    {
        PluginId { name: self.name.clone() }
    }
}

/// The level at which most broadcast handlers run.
pub const NORMAL_PRIORITY: i64 = 1000;

/// The order key of broadcast handlers: a higher level runs first.
#[derive(Clone, Copy, Debug, PartialEq, Eq, Structural, Hash)]
pub struct Priority {
    level: i64,
}

impl View for Priority {
    type V = i64;

    closed spec fn view(&self) -> i64 {
        self.level
    }
}

impl Priority {
    pub fn new(level: i64) -> (r: Priority)
        ensures
            r@ == level,
    {
        Priority { level }
    }

    /// The priority of ordinary handlers.
    pub fn normal() -> (r: Priority)
        ensures
            r@ == NORMAL_PRIORITY,
    {
        Priority { level: NORMAL_PRIORITY }
    }

    pub fn level(&self) -> (r: i64)
        ensures
            r == self@,
    {
        self.level
    }
}

/// The mailbox of one running plugin instance, through which it is handed
/// events.
#[derive(Clone, Copy, Debug, PartialEq, Eq, Structural, Hash)]
pub struct Address {
    id: u64,
}

impl View for Address {
    type V = u64;

    closed spec fn view(&self) -> u64 {
        self.id
    }
}

impl Address {
    pub fn new(id: u64) -> (r: Address)
        ensures
            r@ == id,
    {
        Address { id }
    }

    pub fn id(&self) -> (r: u64)
        ensures
            r == self@,
    {
        self.id
    }
}

/// What a broadcast entry holds.
pub struct BroadcastEntry {
    pub plugin: Seq<char>,
    pub priority: i64,
    pub recipient: u64,
}

/// What an exclusive entry holds.
pub struct ExclusiveEntry {
    pub plugin: Seq<char>,
    pub recipient: u64,
}

/// A broadcast handler: a plugin's mailbox that sees every message that is
/// no command, at its priority.
pub struct OnMessageHandler {
    plugin_id: PluginId,
    priority: Priority,
    recipient: Address,
}

impl View for OnMessageHandler {
    type V = BroadcastEntry;

    closed spec fn view(&self) -> BroadcastEntry {
        BroadcastEntry {
            plugin: self.plugin_id@,
            priority: self.priority@,
            recipient: self.recipient@,
        }
    }
}

impl OnMessageHandler {
    pub fn new(plugin_id: PluginId, priority: Priority, recipient: Address) -> (r: OnMessageHandler)
        ensures
            r@ == (BroadcastEntry {
                plugin: plugin_id@,
                priority: priority@,
                recipient: recipient@,
            }),
    {
        OnMessageHandler { plugin_id, priority, recipient }
    }

    pub fn plugin_id(&self) -> (r: &PluginId)
        ensures
            r@ == self@.plugin,
    {
        &self.plugin_id
    }

    pub fn priority(&self) -> (r: Priority)
        ensures
            r@ == self@.priority,
    {
        self.priority
    }

    pub fn recipient(&self) -> (r: Address)
        ensures
            r@ == self@.recipient,
    {
        self.recipient
    }

    pub fn duplicate(&self) -> (r: OnMessageHandler)
        ensures
            r@ == self@,
    {
        OnMessageHandler {
            plugin_id: self.plugin_id.duplicate(),
            priority: self.priority,
            recipient: self.recipient,
        }
    }
}

/// An exclusive handler: the one plugin mailbox that owns a command name.
pub struct OnCommandHandler {
    plugin_id: PluginId,
    recipient: Address,
}

impl View for OnCommandHandler {
    type V = ExclusiveEntry;

    closed spec fn view(&self) -> ExclusiveEntry {
        ExclusiveEntry { plugin: self.plugin_id@, recipient: self.recipient@ }
    }
}

impl OnCommandHandler {
    pub fn new(plugin_id: PluginId, recipient: Address) -> (r: OnCommandHandler)
        ensures
            r@ == (ExclusiveEntry { plugin: plugin_id@, recipient: recipient@ }),
    {
        OnCommandHandler { plugin_id, recipient }
    }

    pub fn plugin_id(&self) -> (r: &PluginId)
        ensures
            r@ == self@.plugin,
    {
        &self.plugin_id
    }

    pub fn recipient(&self) -> (r: Address)
        ensures
            r@ == self@.recipient,
    {
        self.recipient
    }

    pub fn duplicate(&self) -> (r: OnCommandHandler)
        ensures
            r@ == self@,
    {
        OnCommandHandler { plugin_id: self.plugin_id.duplicate(), recipient: self.recipient }
    }
}

/// A registered plugin.
pub struct Plugin {
    id: PluginId,
}

impl View for Plugin {
    type V = Seq<char>;

    closed spec fn view(&self) -> Seq<char> {
        self.id@
    }
}

impl Plugin {
    pub fn new(id: PluginId) -> (r: Plugin)
        ensures
            r@ == id@,
    {
        Plugin { id }
    }

    pub fn id(&self) -> (r: &PluginId)
        ensures
            r@ == self@,
    {
        &self.id
    }

    pub fn duplicate(&self) -> (r: Plugin)
        ensures
            r@ == self@,
    {
        Plugin { id: self.id.duplicate() }
    }
}

/// Asks the manager to start a plugin under `name`, reachable at `address`.
pub struct RegisterPlugin {
    pub name: String,
    pub address: Address,
}

/// Asks the manager to add a broadcast handler.
pub struct RegisterOnMessageHandler {
    pub handler: OnMessageHandler,
}

/// Asks the manager to bind `command` to an exclusive handler.
pub struct RegisterOnCommandHandler {
    pub handler: OnCommandHandler,
    pub command: String,
}

/// Asks the manager to drop a plugin and every entry it owns.
pub enum UnloadPlugin {
    ById(PluginId),
}

/// A message handed to a broadcast handler.
pub struct OnMessage {
    pub message: Message,
}

/// A command handed to the exclusive handler of its name, with the
/// arguments as they were written.
pub struct OnCommand {
    pub message: Message,
    pub command: String,
    pub arg: String,
}

/// What a plugin context holds.
pub struct PluginContextView {
    pub id: Seq<char>,
    pub address: u64,
}

/// The handle through which one plugin instance registers its handlers. It
/// is bound to the plugin's id, so every entry it asks for is owned by that
/// plugin.
pub struct PluginContext {
    address: Address,
    id: PluginId,
}

impl View for PluginContext {
    type V = PluginContextView;

    closed spec fn view(&self) -> PluginContextView {
        PluginContextView { id: self.id@, address: self.address@ }
    }
}

impl PluginContext {
    pub(crate) fn new(address: Address, id: PluginId) -> (r: PluginContext)
        ensures
            r@ == (PluginContextView { id: id@, address: address@ }),
    {
        PluginContext { address, id }
    }

    pub fn address(&self) -> (r: Address)
        ensures
            r@ == self@.address,
    {
        self.address
    }

    /// The mailbox through which this plugin is handed events.
    pub fn recipient(&self) -> (r: Address)
        ensures
            r@ == self@.address,
    {
        self.address
    }

    pub fn id(&self) -> (r: &PluginId)
        ensures
            r@ == self@.id,
    {
        &self.id
    }

    /// The request to add a broadcast handler of this plugin.
    pub fn on_message(&self, priority: Priority, recipient: Address) -> (r:
        RegisterOnMessageHandler)
        ensures
            r.handler@ == (BroadcastEntry {
                plugin: self@.id,
                priority: priority@,
                recipient: recipient@,
            }),
    {
        RegisterOnMessageHandler {
            handler: OnMessageHandler::new(self.id.duplicate(), priority, recipient),
        }
    }

    /// The request to bind `command` to an exclusive handler of this plugin.
    pub fn on_command(&self, command: String, recipient: Address) -> (r: RegisterOnCommandHandler)
        ensures
            r.command@ == command@,
            r.handler@ == (ExclusiveEntry { plugin: self@.id, recipient: recipient@ }),
    {
        RegisterOnCommandHandler {
            handler: OnCommandHandler::new(self.id.duplicate(), recipient),
            command,
        }
    }
}

} // verus!
