//! A chat bot core: a command parser, an inline-command extractor and a
//! plugin manager that routes each message to broadcast or exclusive
//! handlers, together with the pure logic of the bundled plugins.
pub mod text;
pub mod command;
pub mod message;
pub mod plugin;
pub mod manager;
pub mod registry;
pub mod playground;
pub mod cratesio;
pub mod plugins;
pub mod transport;
pub mod pattern;

pub use command::{Command, CommandView};
pub use message::{InlineMessage, Message, MessageView};
pub use plugin::{
    Address, OnCommand, OnCommandHandler, OnMessage, OnMessageHandler, Plugin, PluginContext,
    PluginId, Priority, RegisterOnCommandHandler, RegisterOnMessageHandler, RegisterPlugin,
    UnloadPlugin,
};
pub use manager::{Delivery, PluginManager, RegistrationError};
