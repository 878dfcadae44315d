//! How a message is laid out on the terminal.

use vstd::prelude::*;
use crate::notify::{NotificationLevel, level_name};
use crate::text::push_text;

verus! {

/// The colour in which a level's name is shown.
#[derive(Debug, Clone, Copy, PartialEq, Eq, Structural)]
pub enum Hue {
    Blue,
    Magenta,
    Yellow,
    Red,
}

/// The colour for a level; `None` for the terminal's own.
pub open spec fn hue_of(level: NotificationLevel) -> Option<Hue> {
    match level {
        NotificationLevel::Debug => Some(Hue::Blue),
        NotificationLevel::Verbose => Some(Hue::Magenta),
        NotificationLevel::Info => None,
        NotificationLevel::Warn => Some(Hue::Yellow),
        NotificationLevel::Error => Some(Hue::Red),
    }
}

/// Lays out one event: the level's name in bold and in its colour, a colon,
/// and the message.
#[derive(Debug, Clone, Copy)]
pub struct EventFormatter;

impl EventFormatter {
    /// The colour for a level; `None` for the terminal's own.
    pub fn fg_color(&self, level: NotificationLevel) -> (hue: Option<Hue>)
        ensures
            hue == hue_of(level),
    {
        match level {
            NotificationLevel::Debug => Some(Hue::Blue),
            NotificationLevel::Verbose => Some(Hue::Magenta),
            NotificationLevel::Info => None,
            NotificationLevel::Warn => Some(Hue::Yellow),
            NotificationLevel::Error => Some(Hue::Red),
        }
    }

    /// What stands before the message: the level's name, a colon and a
    /// space.
    pub fn label(&self, level: NotificationLevel) -> (label: String)
        ensures
            label@ == level_name(level) + ": "@,
    {
        let mut label = level.name();
        push_text(&mut label, ": ");
        label
    }
}

} // verus!
