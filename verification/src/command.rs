//! The command protocol between the gateway and the monitor.
//!
//! Each user command carries the issuing user's id; the reply travels back on
//! a single-use slot that the surrounding application provides. Shutdown
//! carries no user and gets no reply: it is a terminal signal to the monitor
//! loop.

use vstd::prelude::*;

verus! {

/// A command for the monitor.
pub enum MonitorCommand {
    Subscribe { user_id: i64, channel_handle: String },
    Unsubscribe { user_id: i64, channel_handle: String },
    ListSubscriptions { user_id: i64 },
    Summarize { user_id: i64 },
    Shutdown,
}

/// The reply to one command, as a value; the application moves it into the
/// command's single-use reply slot.
pub enum CommandReply {
    Subscribe(Result<(), String>),
    Unsubscribe(Result<(), String>),
    List(Result<Vec<String>, String>),
    Summarize(Result<String, String>),
}

impl MonitorCommand {
    /// The issuing user, absent only for Shutdown.
    pub fn get_user_id(&self) -> (r: Option<i64>)
        ensures
            r == match self {
                MonitorCommand::Subscribe { user_id, .. } => Some(*user_id),
                MonitorCommand::Unsubscribe { user_id, .. } => Some(*user_id),
                MonitorCommand::ListSubscriptions { user_id } => Some(*user_id),
                MonitorCommand::Summarize { user_id } => Some(*user_id),
                MonitorCommand::Shutdown => None::<i64>,
            },
    {
        match self {
            MonitorCommand::Subscribe { user_id, .. } => Some(*user_id),
            MonitorCommand::Unsubscribe { user_id, .. } => Some(*user_id),
            MonitorCommand::ListSubscriptions { user_id } => Some(*user_id),
            MonitorCommand::Summarize { user_id } => Some(*user_id),
            MonitorCommand::Shutdown => None,
        }
    }

    /// The error reply carrying `message`, shaped for this command's reply
    /// slot; Shutdown has none.
    pub fn respond_with_error(self, message: String) -> (r: Option<CommandReply>)
        ensures
            r == match self {
                MonitorCommand::Subscribe { .. } => Some(
                    CommandReply::Subscribe(Err::<(), String>(message)),
                ),
                MonitorCommand::Unsubscribe { .. } => Some(
                    CommandReply::Unsubscribe(Err::<(), String>(message)),
                ),
                MonitorCommand::ListSubscriptions { .. } => Some(
                    CommandReply::List(Err::<Vec<String>, String>(message)),
                ),
                MonitorCommand::Summarize { .. } => Some(
                    CommandReply::Summarize(Err::<String, String>(message)),
                ),
                MonitorCommand::Shutdown => None::<CommandReply>,
            },
    {
        match self {
            MonitorCommand::Subscribe { .. } => Some(CommandReply::Subscribe(Err(message))),
            MonitorCommand::Unsubscribe { .. } => Some(CommandReply::Unsubscribe(Err(message))),
            MonitorCommand::ListSubscriptions { .. } => Some(CommandReply::List(Err(message))),
            MonitorCommand::Summarize { .. } => Some(CommandReply::Summarize(Err(message))),
            MonitorCommand::Shutdown => None,
        }
    }
}

} // verus!
