//! What the parts of a front end tell each other.

use crate::gpu_controller::GpuStats;
use vstd::prelude::*;

verus! {

/// The buttons of a dialog.
#[derive(Clone, Copy, Debug, PartialEq, Eq, Structural)]
pub enum ButtonsType {
    NoButtons,
    Confirm,
    Close,
    Cancel,
    YesNo,
    OkCancel,
}

/// What a dialog that asks for confirmation shows.
#[derive(Debug, PartialEq, Eq)]
pub struct ConfirmationOptions {
    pub title: &'static str,
    pub message: String,
    pub buttons_type: ButtonsType,
}

/// What a new profile starts from.
#[derive(Debug, PartialEq, Eq)]
pub enum ProfileBase {
    Empty,
    Default,
    Profile(String),
}

/// Whether the service can be reached.
#[derive(Clone, Copy, Debug, PartialEq, Eq, Structural)]
pub enum ConnectionStatusMsg {
    Disconnected,
    Reconnected,
}

/// A message of the front end.
#[derive(Debug, PartialEq, Eq)]
pub enum AppMsg {
    /// Something failed; the text says what.
    Error(String),
    ReloadData { full: bool },
    Stats(GpuStats),
    ApplyChanges,
    RevertChanges,
    ResetClocks,
    ResetPmfw,
    ShowGraphsWindow,
    DumpVBios,
    DebugSnapshot,
    EnableOverdrive,
    DisableOverdrive,
    ResetConfig,
    ReloadProfiles,
    SelectProfile(Option<String>),
    CreateProfile(String, ProfileBase),
    DeleteProfile(String),
    ConnectionStatus(ConnectionStatusMsg),
    /// Ask before the message inside is acted on.
    AskConfirmation(ConfirmationOptions, Box<AppMsg>),
}

impl AppMsg {
    /// The message that asks for confirmation of `inner` in a dialog with
    /// the given title, text and buttons.
    pub fn ask_confirmation(
        inner: AppMsg,
        title: &'static str,
        message: String,
        buttons_type: ButtonsType,
    ) -> (r: AppMsg)
        ensures
            r == AppMsg::AskConfirmation(
                ConfirmationOptions { title, message, buttons_type },
                Box::new(inner),
            ),
    {
        AppMsg::AskConfirmation(ConfirmationOptions { title, message, buttons_type }, Box::new(inner))
    }
}

} // verus!
