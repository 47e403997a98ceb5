//! The wire protocol of the group hub: identifiers, the events a client may
//! send, the events the server answers with, and the deliveries that carry a
//! server event to a set of connections.
//!
//! A `Delivery` pairs one server event with the connection ids that must
//! receive it; the caller serializes the event once and writes it to each
//! target's outbound mailbox in order.

use vstd::prelude::*;

verus! {

pub type UserID = i32;

pub type GroupID = i32;

pub type ChannelID = i32;

pub type MessageID = i32;

/// Process-unique id of one accepted connection.
pub type ConnID = usize;

/// One channel of a group, as cached in the group registry.
#[derive(Clone, Debug, PartialEq)]
pub struct Channel {
    pub channel_id: ChannelID,
    pub name: String,
}

/// Whether a user currently holds at least one open connection to a group.
#[derive(Clone, Copy, Debug, PartialEq, Eq, Structural)]
pub enum UserStatus {
    Online,
    Offline,
}

/// Where a reported error arose.
#[derive(Clone, Copy, Debug, PartialEq, Eq, Structural)]
pub enum ErrorCategory {
    Application,
    Request,
    ChannelCreate,
    ChannelRename,
    ChannelDelete,
    GroupRename,
}

/// What exactly went wrong.
#[derive(Clone, Copy, Debug, PartialEq, Eq, Structural)]
pub enum ErrorCode {
    Json,
    Database,
    ChannelIdInvalid,
    MessageInvalid,
    NameInvalid,
    NameExists,
    LoneChannel,
    PictureInvalid,
}

/// A chat message as broadcast to the peers of the sender.
#[derive(Clone, Debug, PartialEq)]
pub struct RecentMessage {
    pub timestamp: u64,
    pub author: UserID,
    pub content: String,
    pub channel_id: ChannelID,
}

/// A chat message inside a requested history list.
#[derive(Clone, Debug, PartialEq)]
pub struct GenericRecentMessage {
    pub timestamp: u64,
    pub author: UserID,
    pub content: String,
}

/// One member of a group together with their live status, as answered to a
/// user-list request.
#[derive(Clone, Debug, PartialEq)]
pub struct MemberInfo {
    pub user_id: UserID,
    pub name: String,
    pub picture: String,
    pub status: UserStatus,
}

/// An event received from a client over its socket.
#[derive(Clone, Debug, PartialEq)]
pub enum ClientEvent {
    CreateMessage { content: String, channel_id: ChannelID },
    RequestRecentMessages { channel_id: ChannelID },
    CreateChannel { name: String },
    RequestChannels,
    DeleteChannel { channel_id: ChannelID },
    RenameChannel { channel_id: ChannelID, name: String },
    RequestOnline,
    RequestUsers,
    RenameGroup { name: String, picture: String },
}

/// An event the hub sends to clients.
#[derive(Clone, Debug, PartialEq)]
pub enum ServerEvent {
    Error { category: ErrorCategory, code: ErrorCode },
    MessageReceipt { timestamp: u64, channel_id: ChannelID },
    RecentMessage(RecentMessage),
    RecentMessageList { channel_id: ChannelID, messages: Vec<GenericRecentMessage> },
    ChannelCreated { channel_id: ChannelID, name: String },
    ChannelList { channels: Vec<Channel> },
    ChannelDeleted { channel_id: ChannelID },
    ChannelRenamed { channel_id: ChannelID, name: String },
    OnlineUserList { users: Vec<UserID> },
    UserList { users: Vec<MemberInfo> },
    UserStatusChanged { user_id: UserID, status: UserStatus },
    UserRenamed { user_id: UserID, name: String, picture: String },
    GroupRenamed { group_id: GroupID, name: String, picture: String },
    GroupDeleted { group_id: GroupID },
}

/// One server event bound for a set of connections.  The event is serialized
/// once; every target connection's mailbox receives the same frame.
#[derive(Clone, Debug, PartialEq)]
pub struct Delivery {
    pub event: ServerEvent,
    pub targets: Vec<ConnID>,
}

/// The identity of one admitted connection: who is connected, to which group,
/// over which socket.  Supplied by the session layer, which has already
/// verified the user and their membership.
#[derive(Clone, Copy, Debug, PartialEq, Eq, Structural)]
pub struct ConnectionContext {
    pub user_id: UserID,
    pub group_id: GroupID,
    pub conn_id: ConnID,
}

/// An error reply addressed to the connection that caused it.
pub fn error_reply(conn_id: ConnID, category: ErrorCategory, code: ErrorCode) -> (d: Delivery)
    ensures
        d.event == (ServerEvent::Error { category, code }),
        d.targets@ == seq![conn_id],
{
    let targets: Vec<ConnID> = vec![conn_id];
    Delivery { event: ServerEvent::Error { category, code }, targets }
}

/// Decode failures of a client frame are answered to the sender alone and
/// leave all state untouched.
pub fn malformed_event_reply(conn_id: ConnID) -> (d: Delivery)
    ensures
        d.event == (ServerEvent::Error {
            category: ErrorCategory::Request,
            code: ErrorCode::Json,
        }),
        d.targets@ == seq![conn_id],
{
    error_reply(conn_id, ErrorCategory::Request, ErrorCode::Json)
}

/// A storage failure is answered to the originating connection alone, as a
/// generic database error; no partial state change is visible to others.
pub fn database_error_reply(conn_id: ConnID) -> (d: Delivery)
    ensures
        d.event == (ServerEvent::Error {
            category: ErrorCategory::Application,
            code: ErrorCode::Database,
        }),
        d.targets@ == seq![conn_id],
{
    error_reply(conn_id, ErrorCategory::Application, ErrorCode::Database)
}

} // verus!
