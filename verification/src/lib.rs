//! The decision-making core of clicky: reading a model's streamed replies,
//! recognising a text-selection gesture, deciding what to offer, and the
//! settings that steer all of it. Windows, the clipboard, the keyboard and the
//! network live around this library, in the application.

pub mod text;
pub mod json;
pub mod model;
pub mod settings;
pub mod watcher;
pub mod selection;
pub mod panel;
pub mod reply;
