//! The settings window: what the user does in it, and what the main window
//! is to do about it.

use crate::i18n::Language;
use vstd::prelude::*;

verus! {

/// A theme, by its name.
#[derive(Debug, Clone)]
pub struct Theme {
    pub name: String,
}

/// The time zone in which times are shown.
#[derive(Debug, Clone, Copy, PartialEq, Eq, Structural)]
pub enum UserTimezone {
    Utc,
    Local,
}

/// The scale of the interface, in percent.
#[derive(Debug, Clone, Copy, PartialEq, Eq, Structural)]
pub struct ScaleFactor {
    pub percent: u32,
}

/// What the user did in the settings window.
#[derive(Debug, Clone)]
pub enum Message {
    ThemeSelected(Theme),
    OpenThemeEditor,
    SetTimezone(UserTimezone),
    ScaleFactorChanged(ScaleFactor),
    CloseRequested,
    LanguageChanged(Language),
}

/// What the main window is to do.
#[derive(Debug, Clone)]
pub enum Action {
    ThemeChanged(Theme),
    OpenThemeEditor,
    TimezoneChanged(UserTimezone),
    ScaleFactorChanged(ScaleFactor),
    Close,
    LanguageChanged(Language),
}

/// The action that answers a message.
pub open spec fn action_for(message: Message) -> Action {
    match message {
        Message::CloseRequested => Action::Close,
        Message::SetTimezone(timezone) => Action::TimezoneChanged(timezone),
        Message::ThemeSelected(theme) => Action::ThemeChanged(theme),
        Message::OpenThemeEditor => Action::OpenThemeEditor,
        Message::ScaleFactorChanged(scale_factor) => Action::ScaleFactorChanged(scale_factor),
        Message::LanguageChanged(language) => Action::LanguageChanged(language),
    }
}

/// The settings window. It holds nothing of its own: every setting lives in
/// the main window.
pub struct SettingWindow {}

impl SettingWindow {
    /// A settings window.
    pub fn new() -> (window: SettingWindow)
        ensures
            window == (SettingWindow {  }),
    {
        SettingWindow {  }
    }

    /// Takes a message of the window and says what the main window is to
    /// do. Every message has its action, and what the message carries goes
    /// on with the action as it is.
    pub fn update(&mut self, message: Message) -> (action: Option<Action>)
        ensures
            action == Some(action_for(message)),
            *final(self) == *old(self),
    {
        match message {
            Message::CloseRequested => Some(Action::Close),
            Message::SetTimezone(timezone) => Some(Action::TimezoneChanged(timezone)),
            Message::ThemeSelected(theme) => Some(Action::ThemeChanged(theme)),
            Message::OpenThemeEditor => Some(Action::OpenThemeEditor),
            Message::ScaleFactorChanged(scale_factor) => Some(
                Action::ScaleFactorChanged(scale_factor),
            ),
            Message::LanguageChanged(language) => Some(Action::LanguageChanged(language)),
        }
    }
}

impl Default for SettingWindow {
    fn default() -> (window: SettingWindow)
        ensures
            window == (SettingWindow {  }),
    {
        SettingWindow::new()
    }
}

} // verus!
