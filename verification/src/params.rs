//! Request parameters of the web handlers for conversation notifications,
//! conversation relays and prompt optimization, as plain values.
//!
//! On the wire every field name is in camel case (`conversationId`,
//! `runId`, …).
use vstd::prelude::*;
use crate::json::Json;

verus! {

/// Claims the right to show one notification of a conversation run.
pub struct ClaimConversationNotificationParams {
    pub conversation_id: i32,
    pub run_id: String,
    /// The notification type, by its wire name.
    pub notification_type: String,
    pub message_id: Option<String>,
}

/// Names one notification of a conversation run.
pub struct ConversationNotificationKeyParams {
    pub conversation_id: i32,
    pub run_id: String,
    /// The notification type, by its wire name.
    pub notification_type: String,
}

pub struct DraftIdParams {
    pub target_draft_id: String,
    pub target_conversation_id: Option<i32>,
}

pub struct TargetConversationQuery {
    pub target_conversation_id: Option<i32>,
}

impl Default for TargetConversationQuery {
    /// The query with no target conversation.
    fn default() -> (r: Self)
        ensures
            r.target_conversation_id is None,
    {
        TargetConversationQuery { target_conversation_id: None }
    }
}

pub struct RelayIdParams {
    pub relay_id: i32,
}

pub struct ConversationIdParams {
    pub conversation_id: i32,
}

pub struct CancelRelayPreviewParams {
    pub request_id: String,
}

pub struct ReserveRelayPreviewParams {
    pub request_id: String,
    pub target_draft_id: String,
}

pub struct UpdateRelayContextParams {
    pub relay_id: i32,
    /// The relay patch, as the JSON the client sent.
    pub input: Json,
}

pub struct CancelPromptOptimizationRequest {
    pub request_id: String,
}

} // verus!
