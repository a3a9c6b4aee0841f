//! Which channels there are and how they confirm.

use crate::channel::capability::ChannelCapabilities;
use crate::error::{AppError, AppResult, ErrorView};
use crate::text::same_text;
use vstd::prelude::*;

verus! {

/// What the daemon confirms to the user.
#[derive(Debug, Clone, Copy, PartialEq, Eq, Structural)]
pub enum ChannelAckKind {
    /// A message has been taken up.
    Received,
    /// A session has been reset.
    ResetDone,
    /// A turn has been stopped.
    StopDone,
}

/// How a channel confirms.
#[derive(Debug, Clone, Copy, PartialEq, Eq, Structural)]
pub enum ChannelAckCapability {
    /// By a reaction to the message.
    Reaction,
    /// By a short text.
    TextReply,
    /// By a passing state such as typing.
    ChatAction,
    /// Not at all.
    Silent,
}

/// The kinds of channels that are built in.
#[derive(Debug, Clone, Copy, PartialEq, Eq, Structural)]
pub enum BuiltinChannelKind {
    /// Feishu or Lark.
    Feishu,
    /// QQ.
    Qq,
    /// Telegram.
    Telegram,
}

/// The kind of channel that a configuration names.
pub open spec fn kind_of(name: Seq<char>) -> Option<BuiltinChannelKind> {
    if name == "feishu"@ || name == "lark"@ {
        Some(BuiltinChannelKind::Feishu)
    } else if name == "qq"@ || name == "qqbot"@ {
        Some(BuiltinChannelKind::Qq)
    } else if name == "telegram"@ || name == "tg"@ {
        Some(BuiltinChannelKind::Telegram)
    } else {
        None
    }
}

/// The kind of channel that a configuration names.
pub fn channel_kind(name: &str) -> (r: AppResult<BuiltinChannelKind>)
    ensures
        match r {
            Ok(kind) => kind_of(name@) == Some(kind),
            Err(e) => kind_of(name@) is None && e@ == ErrorView::UnsupportedChannel(name@),
        },
{
    if same_text(name, "feishu") || same_text(name, "lark") {
        Ok(BuiltinChannelKind::Feishu)
    } else if same_text(name, "qq") || same_text(name, "qqbot") {
        Ok(BuiltinChannelKind::Qq)
    } else if same_text(name, "telegram") || same_text(name, "tg") {
        Ok(BuiltinChannelKind::Telegram)
    } else {
        Err(AppError::UnsupportedChannel(String::from_str(name)))
    }
}

/// How Feishu confirms.
pub fn feishu_ack_capability(kind: ChannelAckKind) -> (r: ChannelAckCapability)
    ensures
        r == if kind == ChannelAckKind::StopDone {
            ChannelAckCapability::TextReply
        } else {
            ChannelAckCapability::Reaction
        },
{
    match kind {
        ChannelAckKind::StopDone => ChannelAckCapability::TextReply,
        _ => ChannelAckCapability::Reaction,
    }
}

/// What Feishu is able to do.
pub fn feishu_capabilities() -> (r: ChannelCapabilities)
    ensures
        r == (ChannelCapabilities {
            patch_message: true,
            append_update: false,
            request_user_input: true,
            reaction_ack: true,
            text_ack: true,
            chat_action: false,
            reply_threading: true,
            inbound_attachments: true,
            outbound_attachments: false,
        }),
{
    ChannelCapabilities {
        patch_message: true,
        append_update: false,
        request_user_input: true,
        reaction_ack: true,
        text_ack: true,
        chat_action: false,
        reply_threading: true,
        inbound_attachments: true,
        outbound_attachments: false,
    }
}

/// How Telegram confirms, given whether it confirms what it receives.
pub fn telegram_ack_capability(kind: ChannelAckKind, received_ack_enabled: bool) -> (r:
    ChannelAckCapability)
    ensures
        r == if kind == ChannelAckKind::Received && !received_ack_enabled {
            ChannelAckCapability::Silent
        } else {
            ChannelAckCapability::Reaction
        },
{
    match kind {
        ChannelAckKind::Received => if received_ack_enabled {
            ChannelAckCapability::Reaction
        } else {
            ChannelAckCapability::Silent
        },
        _ => ChannelAckCapability::Reaction,
    }
}

/// What Telegram is able to do.
pub fn telegram_capabilities(received_ack_enabled: bool, download_attachments: bool) -> (r:
    ChannelCapabilities)
    ensures
        r == (ChannelCapabilities {
            patch_message: true,
            append_update: false,
            request_user_input: true,
            reaction_ack: true,
            text_ack: true,
            chat_action: received_ack_enabled,
            reply_threading: true,
            inbound_attachments: download_attachments,
            outbound_attachments: false,
        }),
{
    ChannelCapabilities {
        patch_message: true,
        append_update: false,
        request_user_input: true,
        reaction_ack: true,
        text_ack: true,
        chat_action: received_ack_enabled,
        reply_threading: true,
        inbound_attachments: download_attachments,
        outbound_attachments: false,
    }
}

/// How QQ confirms.
pub fn qq_ack_capability(_kind: ChannelAckKind) -> (r: ChannelAckCapability)
    ensures
        r == ChannelAckCapability::TextReply,
{
    ChannelAckCapability::TextReply
}

/// What QQ is able to do.
pub fn qq_capabilities() -> (r: ChannelCapabilities)
    ensures
        r == (ChannelCapabilities {
            patch_message: false,
            append_update: true,
            request_user_input: true,
            reaction_ack: false,
            text_ack: true,
            chat_action: false,
            reply_threading: true,
            inbound_attachments: false,
            outbound_attachments: false,
        }),
{
    ChannelCapabilities {
        patch_message: false,
        append_update: true,
        request_user_input: true,
        reaction_ack: false,
        text_ack: true,
        chat_action: false,
        reply_threading: true,
        inbound_attachments: false,
        outbound_attachments: false,
    }
}

/// Every channel goes by two names, and no other name is one of a channel.
pub proof fn law_channels_go_by_their_names(name: Seq<char>)
    ensures
        kind_of("feishu"@) == Some(BuiltinChannelKind::Feishu),
        kind_of("lark"@) == Some(BuiltinChannelKind::Feishu),
        kind_of("qq"@) == Some(BuiltinChannelKind::Qq),
        kind_of("qqbot"@) == Some(BuiltinChannelKind::Qq),
        kind_of("telegram"@) == Some(BuiltinChannelKind::Telegram),
        kind_of("tg"@) == Some(BuiltinChannelKind::Telegram),
        kind_of(name) is Some ==> seq![
            "feishu"@,
            "lark"@,
            "qq"@,
            "qqbot"@,
            "telegram"@,
            "tg"@,
        ].contains(name),
{
    reveal_strlit("feishu");
    reveal_strlit("lark");
    reveal_strlit("qq");
    reveal_strlit("qqbot");
    reveal_strlit("telegram");
    reveal_strlit("tg");
    assert("feishu"@.len() == 6 && "lark"@.len() == 4 && "qqbot"@.len() == 5 && "telegram"@.len()
        == 8);
    assert("qq"@.len() == 2 && "tg"@.len() == 2 && "qq"@[0] == 'q' && "tg"@[0] == 't');
    let names = seq!["feishu"@, "lark"@, "qq"@, "qqbot"@, "telegram"@, "tg"@];
    assert(names[0] == "feishu"@ && names[1] == "lark"@ && names[2] == "qq"@ && names[3]
        == "qqbot"@ && names[4] == "telegram"@ && names[5] == "tg"@);
}

} // verus!
