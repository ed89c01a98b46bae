//! What the desktop says when an application cannot be launched: a message,
//! a piece of advice and a detail line, chosen by the reason the platform
//! gave.
use crate::clock::{decimal, push_decimal, push_text};
use crate::platform::PlatformError;
use vstd::prelude::*;

verus! {

/// The text of the window that reports a failed launch.
pub struct LaunchFailureText {
    pub app_name: String,
    pub message: String,
    pub guidance: String,
    pub detail: String,
}

/// The message, advice and detail for a launch refused for `error`.
pub open spec fn failure_text(error: PlatformError) -> (Seq<char>, Seq<char>, Seq<char>) {
    match error {
        PlatformError::ProcessLaunchRejected { errno } => if errno == 1 {
            (
                "mochiOS blocked this app."@,
                "Its requested capabilities are not permitted by system policy."@,
                "Capability policy rejected the launch (error 1)."@,
            )
        } else if errno == 2 {
            (
                "mochiOS could not find a required file."@,
                "Reinstall the app or check its package contents."@,
                "Capability policy rejected the launch (error 2)."@,
            )
        } else {
            (
                "mochiOS blocked this app."@,
                "Check the app's capabilities or ask an administrator."@,
                "Capability policy rejected the launch (error "@ + decimal(errno as nat) + ")."@,
            )
        },
        PlatformError::PermissionDenied => (
            "mochiOS blocked this app."@,
            "Its requested capabilities are not permitted by system policy."@,
            "Capability policy rejected the launch (error 1)."@,
        ),
        _ => (
            "The app could not be started."@,
            "Check its installation and permissions, then try again."@,
            "Application launch failed."@,
        ),
    }
}

impl LaunchFailureText {
    /// The report of a failed launch of the application named `app_name`.
    pub fn new(app_name: &str, error: PlatformError) -> (text: Self)
        ensures
            text.app_name@ == app_name@,
            (text.message@, text.guidance@, text.detail@) == failure_text(error),
    {
        let (message, guidance, detail): (&str, &str, String) = match error {
            PlatformError::ProcessLaunchRejected { errno: 1 } | PlatformError::PermissionDenied => (
                "mochiOS blocked this app.",
                "Its requested capabilities are not permitted by system policy.",
                "Capability policy rejected the launch (error 1).".to_owned(),
            ),
            PlatformError::ProcessLaunchRejected { errno: 2 } => (
                "mochiOS could not find a required file.",
                "Reinstall the app or check its package contents.",
                "Capability policy rejected the launch (error 2).".to_owned(),
            ),
            PlatformError::ProcessLaunchRejected { errno } => {
                let mut detail = String::new();
                push_text(&mut detail, "Capability policy rejected the launch (error ");
                push_decimal(&mut detail, errno);
                push_text(&mut detail, ").");
                (
                    "mochiOS blocked this app.",
                    "Check the app's capabilities or ask an administrator.",
                    detail,
                )
            },
            _ => (
                "The app could not be started.",
                "Check its installation and permissions, then try again.",
                "Application launch failed.".to_owned(),
            ),
        };
        LaunchFailureText {
            app_name: app_name.to_owned(),
            message: message.to_owned(),
            guidance: guidance.to_owned(),
            detail,
        }
    }

    /// The report shown before the reason is known.
    pub fn default() -> (text: Self)
        ensures
            text.app_name@ == "Application"@,
            (text.message@, text.guidance@, text.detail@) == failure_text(PlatformError::ProcessLaunchFailed),
    {
        LaunchFailureText {
            app_name: "Application".to_owned(),
            message: "The app could not be started.".to_owned(),
            guidance: "Check its installation and permissions, then try again.".to_owned(),
            detail: "Application launch failed.".to_owned(),
        }
    }
}

} // verus!
