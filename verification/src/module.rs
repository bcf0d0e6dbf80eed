//! The modules that the host runs, and what the host asks of each.

use crate::client::console::{IncomingConsoleEvent, OutcomingConsoleEvent};
use crate::client::{Container, DrawAction};
use vstd::prelude::*;

pub mod command;
pub mod editor;

verus! {

/// A module has a place on the screen.
pub trait ModuleView {
    /// The rectangle that the module keeps for itself.
    fn get_container(&self) -> &Container;
}

/// What the host calls on a module. A module overrides what it cares for.
pub trait ModuleEvent {
    /// Shows the module an input before the focused module gets it. `idx` is
    /// the module's own index in the host. A module that does not override
    /// this asks nothing of the host.
    fn proxy_trigger_events(&mut self, _event: &IncomingConsoleEvent, _idx: u32) -> (r: Option<
        Vec<OutcomingConsoleEvent>,
    >)
        default_ensures
            r is None,
    {
        None
    }

    /// Called once, when the module is attached.
    fn on_load(&mut self) {
    }

    /// Hands the module an input while it has the focus. A module that does
    /// not override this asks nothing of the host.
    fn on_event(&mut self, _event: IncomingConsoleEvent) -> (r: Option<Vec<OutcomingConsoleEvent>>)
        default_ensures
            r is None,
    {
        None
    }

    /// Asks the module what it wants drawn. A module that does not override
    /// this wants nothing drawn.
    fn on_draw(&self) -> (r: Option<Vec<DrawAction>>)
        default_ensures
            r is None,
    {
        None
    }

    /// Tells the module its rectangle on the screen.
    fn on_resize(&mut self, _top: u32, _right: u32, _bottom: u32, _left: u32) {
    }

    /// Called when the host shuts down.
    fn on_destroy(&self) {
    }
}

/// A module of the host.
pub trait Module: ModuleView + ModuleEvent {

}

} // verus!
