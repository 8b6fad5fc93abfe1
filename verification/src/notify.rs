//! Queuing a direct message to the owner, sent after the current turn.
use vstd::prelude::*;
use crate::text;
use crate::json::{self, JsonValue};

verus! {

/// Queues a direct message to the owner.
pub struct NotifyTool;

impl NotifyTool {
    /// The message to queue: the trimmed `message`, or the error.
    pub fn request(input: &JsonValue) -> (r: Result<String, String>)
        ensures
            match json::str_field(*input, "message"@) {
                None => r matches Err(e) && e@ == "missing message"@,
                Some(m) => if text::trim(m).len() == 0 {
                    r matches Err(e) && e@ == "message is empty"@
                } else {
                    r matches Ok(x) && x@ == text::trim(m)
                },
            },
    {
        match input.str_field("message") {
            None => Err(String::from_str("missing message")),
            Some(m) => {
                let t = text::trim_str(m.as_str());
                if t.len() == 0 {
                    Err(String::from_str("message is empty"))
                } else {
                    Ok(text::string_of(&t))
                }
            },
        }
    }

    /// The reply once the message is queued.
    pub fn queued() -> (r: String)
        ensures
            r@ == "Notification queued; you'll get a DM after this turn (if CHUMP_READY_DM_USER_ID is set and running in Discord)."@,
    {
        String::from_str(
            "Notification queued; you'll get a DM after this turn (if CHUMP_READY_DM_USER_ID is set and running in Discord).",
        )
    }
}

} // verus!
