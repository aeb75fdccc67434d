//! The `help` command.
use vstd::prelude::*;
use crate::plugin::{ExclusiveEntry, OnCommand, PluginContext, RegisterOnCommandHandler};
use crate::text::text_eq;

verus! {

/// Where the usage help lives.
pub const HELP_TEXT: &'static str = "Usage help can be found here: https://github.com/panicbit/playbot_ng/tree/master/README.md";

/// The help plugin.
pub struct Help {}

impl Help {
    /// The plugin, with its request to own the `help` command.
    pub fn new(ctx: &PluginContext) -> (r: (Help, RegisterOnCommandHandler))
        ensures
            r.1.command@ == "help"@,
            r.1.handler@ == (ExclusiveEntry { plugin: ctx@.id, recipient: ctx@.address }),
    {
        (Help {  }, ctx.on_command(String::from_str("help"), ctx.recipient()))
    }

    /// The reply to a `help` command; none to any other command.
    pub fn handle(&self, event: &OnCommand) -> (r: Option<&'static str>)
        ensures
            event.command@ == "help"@ ==> r == Some(HELP_TEXT),
            event.command@ != "help"@ ==> r is None,
    {
        if text_eq(event.command.as_str(), "help") {
            Some(display_help())
        } else {
            None
        }
    }
}

/// The usage help.
pub fn display_help() -> (r: &'static str)
    ensures
        r == HELP_TEXT,
{
    HELP_TEXT
}

} // verus!
