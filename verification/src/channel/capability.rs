//! What channels are able to do.

use vstd::prelude::*;

verus! {

/// What a channel is able to do.
#[derive(Debug, Clone, Copy, PartialEq, Eq, Structural)]
pub struct ChannelCapabilities {
    /// Changes a sent message in place.
    pub patch_message: bool,
    /// Sends a new message in place of an update.
    pub append_update: bool,
    /// Asks the user structured questions.
    pub request_user_input: bool,
    /// Confirms by a reaction.
    pub reaction_ack: bool,
    /// Confirms by a text.
    pub text_ack: bool,
    /// Shows that it is typing.
    pub chat_action: bool,
    /// Keeps replies in their thread.
    pub reply_threading: bool,
    /// Reads attachments.
    pub inbound_attachments: bool,
    /// Sends attachments.
    pub outbound_attachments: bool,
}

impl ChannelCapabilities {
    /// The channel is able to send and receive texts, nothing more.
    pub fn none() -> (r: Self)
        ensures
            r == (ChannelCapabilities {
                patch_message: false,
                append_update: false,
                request_user_input: false,
                reaction_ack: false,
                text_ack: false,
                chat_action: false,
                reply_threading: false,
                inbound_attachments: false,
                outbound_attachments: false,
            }),
    {
        ChannelCapabilities {
            patch_message: false,
            append_update: false,
            request_user_input: false,
            reaction_ack: false,
            text_ack: false,
            chat_action: false,
            reply_threading: false,
            inbound_attachments: false,
            outbound_attachments: false,
        }
    }
}

} // verus!
