//! The message dispatcher: decodes of client events have already happened at
//! the socket edge; here every event is validated against the live registry
//! state and turned into replies, broadcasts and storage work.
//!
//! Operations that need the backing store are split around the call:
//! `handle_event` validates and says what to ask the store (a `HandleStep`),
//! the embedding program performs the call, and the matching `..._apply` or
//! `..._reply` function finishes the operation for whatever the store
//! answered.  No registry lock needs to be held across the store call except
//! where the cache is mutated, which callers run under exclusive access.
//!
//! A failed operation never changes the registry: every error path leaves it
//! exactly as it was.

use vstd::prelude::*;

use crate::assoc::distinct_seq;
use crate::protocol::{ChannelID, ConnectionContext, ConnID, Delivery, ErrorCategory, ErrorCode,
    GenericRecentMessage, GroupID, MemberInfo, RecentMessage, ServerEvent, UserID, UserStatus,
    error_reply, ClientEvent};
use crate::registry::Registry;
use crate::roster::User;
use crate::validate::{channel_name_ok, group_name_ok, message_ok, url_ok, valid_channel_name,
    valid_group_name, valid_message, valid_url};

verus! {

/// A chat fact to append to the store: who posted what, where and when.
/// Broadcast precedes persistence, so delivery latency is not coupled to
/// storage latency; a storage failure is then reported to the sender alone.
#[derive(Clone, Debug, PartialEq)]
pub struct NewMessage {
    pub group_id: GroupID,
    pub channel_id: ChannelID,
    pub user_id: UserID,
    pub content: String,
    pub timestamp: u64,
}

/// What `handle_event` decided: either the operation is finished (the
/// deliveries say who receives what), or the store must be asked and the
/// matching completion function finishes the operation.
pub enum HandleStep {
    Done { deliveries: Vec<Delivery> },
    Persist { deliveries: Vec<Delivery>, message: NewMessage },
    FetchRecent { channel_id: ChannelID },
    StoreCreateChannel { name: String },
    StoreDeleteChannel { channel_id: ChannelID },
    StoreRenameChannel { channel_id: ChannelID, name: String },
    StoreRenameGroup { name: String, picture: String },
    FetchUsers,
}

/// The delivery answers `conn_id` alone with this error.
pub open spec fn is_error_reply(
    d: Delivery,
    conn_id: ConnID,
    category: ErrorCategory,
    code: ErrorCode,
) -> bool {
    d.event == (ServerEvent::Error { category, code }) && d.targets@ == seq![conn_id]
}

/// The step is finished and answers `conn_id` alone with this error.
pub open spec fn is_done_error(
    r: HandleStep,
    conn_id: ConnID,
    category: ErrorCategory,
    code: ErrorCode,
) -> bool {
    &&& r matches HandleStep::Done { deliveries } && deliveries@.len() == 1 && is_error_reply(
        deliveries@[0],
        conn_id,
        category,
        code,
    )
}

/// Validate one client event against the live registry state and decide what
/// happens: an immediate answer, an immediate broadcast, or a storage call.
pub fn handle_event(
    reg: &Registry,
    ctx: &ConnectionContext,
    event: ClientEvent,
    timestamp: u64,
) -> (r: HandleStep)
    requires
        reg.wf(),
        reg.has_group(ctx.group_id),
    ensures
        event matches ClientEvent::CreateMessage { content, channel_id } ==> {
            &&& !message_ok(content@) ==> is_done_error(
                r,
                ctx.conn_id,
                ErrorCategory::Request,
                ErrorCode::MessageInvalid,
            )
            &&& (message_ok(content@) && !reg.group_of(ctx.group_id).has_channel(channel_id))
                ==> is_done_error(
                r,
                ctx.conn_id,
                ErrorCategory::Request,
                ErrorCode::ChannelIdInvalid,
            )
            &&& (message_ok(content@) && reg.group_of(ctx.group_id).has_channel(channel_id)) ==> (r
                matches HandleStep::Persist { deliveries, message } && {
                &&& deliveries@.len() == 2
                &&& deliveries@[0].event == (ServerEvent::MessageReceipt { timestamp, channel_id })
                &&& deliveries@[0].targets@ == seq![ctx.conn_id]
                &&& deliveries@[1].event == (ServerEvent::RecentMessage(
                    RecentMessage { timestamp, author: ctx.user_id, content, channel_id },
                ))
                &&& distinct_seq(deliveries@[1].targets@)
                &&& !deliveries@[1].targets@.contains(ctx.conn_id)
                &&& forall|c: ConnID|
                    c != ctx.conn_id ==> deliveries@[1].targets@.contains(c) == reg.group_of(
                        ctx.group_id,
                    ).has_conn(c)
                &&& message == (NewMessage {
                    group_id: ctx.group_id,
                    channel_id,
                    user_id: ctx.user_id,
                    content,
                    timestamp,
                })
            })
        },
        event matches ClientEvent::RequestRecentMessages { channel_id } ==> {
            &&& !reg.group_of(ctx.group_id).has_channel(channel_id) ==> is_done_error(
                r,
                ctx.conn_id,
                ErrorCategory::Request,
                ErrorCode::ChannelIdInvalid,
            )
            &&& reg.group_of(ctx.group_id).has_channel(channel_id) ==> r == (
            HandleStep::FetchRecent { channel_id })
        },
        event matches ClientEvent::CreateChannel { name } ==> {
            &&& !channel_name_ok(name@) ==> is_done_error(
                r,
                ctx.conn_id,
                ErrorCategory::ChannelCreate,
                ErrorCode::NameInvalid,
            )
            &&& channel_name_ok(name@) ==> r == (HandleStep::StoreCreateChannel { name })
        },
        event matches ClientEvent::RequestChannels ==> (r matches HandleStep::Done { deliveries }
            && deliveries@.len() == 1 && (deliveries@[0].event matches ServerEvent::ChannelList {
            channels,
        } && channels@ == reg.group_of(ctx.group_id).channels@) && deliveries@[0].targets@
            == seq![ctx.conn_id]),
        event matches ClientEvent::DeleteChannel { channel_id } ==> {
            &&& reg.group_of(ctx.group_id).channels@.len() == 1 ==> is_done_error(
                r,
                ctx.conn_id,
                ErrorCategory::ChannelDelete,
                ErrorCode::LoneChannel,
            )
            &&& (reg.group_of(ctx.group_id).channels@.len() != 1 && !reg.group_of(
                ctx.group_id,
            ).has_channel(channel_id)) ==> is_done_error(
                r,
                ctx.conn_id,
                ErrorCategory::Request,
                ErrorCode::ChannelIdInvalid,
            )
            &&& (reg.group_of(ctx.group_id).channels@.len() != 1 && reg.group_of(
                ctx.group_id,
            ).has_channel(channel_id)) ==> r == (HandleStep::StoreDeleteChannel { channel_id })
        },
        event matches ClientEvent::RequestOnline ==> (r matches HandleStep::Done { deliveries }
            && deliveries@.len() == 1 && deliveries@[0].targets@ == seq![ctx.conn_id] && (
        deliveries@[0].event matches ServerEvent::OnlineUserList { users } && users@.len()
            == reg.group_of(ctx.group_id).presence.entries@.len() && forall|u: UserID|
            users@.contains(u) == reg.group_of(ctx.group_id).presence.is_online(u))),
        event matches ClientEvent::RequestUsers ==> r == (HandleStep::FetchUsers {}),
        event matches ClientEvent::RenameChannel { channel_id, name } ==> {
            &&& !channel_name_ok(name@) ==> is_done_error(
                r,
                ctx.conn_id,
                ErrorCategory::ChannelRename,
                ErrorCode::NameInvalid,
            )
            &&& (channel_name_ok(name@) && !reg.group_of(ctx.group_id).has_channel(channel_id))
                ==> is_done_error(
                r,
                ctx.conn_id,
                ErrorCategory::Request,
                ErrorCode::ChannelIdInvalid,
            )
            &&& (channel_name_ok(name@) && reg.group_of(ctx.group_id).has_channel(channel_id))
                ==> r == (HandleStep::StoreRenameChannel { channel_id, name })
        },
        event matches ClientEvent::RenameGroup { name, picture } ==> {
            &&& !group_name_ok(name@) ==> is_done_error(
                r,
                ctx.conn_id,
                ErrorCategory::GroupRename,
                ErrorCode::NameInvalid,
            )
            &&& (group_name_ok(name@) && !url_ok(picture@)) ==> is_done_error(
                r,
                ctx.conn_id,
                ErrorCategory::GroupRename,
                ErrorCode::PictureInvalid,
            )
            &&& (group_name_ok(name@) && url_ok(picture@)) ==> r == (HandleStep::StoreRenameGroup {
                name,
                picture,
            })
        },
{
    match event {
        ClientEvent::CreateMessage { content, channel_id } => {
            if !valid_message(&content) {
                return HandleStep::Done {
                    deliveries: one(
                        error_reply(
                            ctx.conn_id,
                            ErrorCategory::Request,
                            ErrorCode::MessageInvalid,
                        ),
                    ),
                };
            }
            if !reg.group_contains_channel(ctx.group_id, channel_id) {
                return HandleStep::Done {
                    deliveries: one(
                        error_reply(
                            ctx.conn_id,
                            ErrorCategory::Request,
                            ErrorCode::ChannelIdInvalid,
                        ),
                    ),
                };
            }
            let author = ctx.user_id;
            let peer_event = ServerEvent::RecentMessage(
                RecentMessage { timestamp, author, content: content.clone(), channel_id },
            );
            let reply_event = ServerEvent::MessageReceipt { timestamp, channel_id };
            let pair = match reg.broadcast_peer_reply(
                ctx.group_id,
                ctx.conn_id,
                peer_event,
                reply_event,
            ) {
                Some(pair) => pair,
                None => {
                    proof {
                        assert(false);
                    }
                    return HandleStep::FetchUsers {};
                },
            };
            let (reply, peer) = pair;
            let mut deliveries: Vec<Delivery> = Vec::new();
            deliveries.push(reply);
            deliveries.push(peer);
            let message = NewMessage {
                group_id: ctx.group_id,
                channel_id,
                user_id: ctx.user_id,
                content,
                timestamp,
            };
            HandleStep::Persist { deliveries, message }
        },
        ClientEvent::RequestRecentMessages { channel_id } => {
            if !reg.group_contains_channel(ctx.group_id, channel_id) {
                return HandleStep::Done {
                    deliveries: one(
                        error_reply(
                            ctx.conn_id,
                            ErrorCategory::Request,
                            ErrorCode::ChannelIdInvalid,
                        ),
                    ),
                };
            }
            HandleStep::FetchRecent { channel_id }
        },
        ClientEvent::CreateChannel { name } => {
            if !valid_channel_name(&name) {
                return HandleStep::Done {
                    deliveries: one(
                        error_reply(
                            ctx.conn_id,
                            ErrorCategory::ChannelCreate,
                            ErrorCode::NameInvalid,
                        ),
                    ),
                };
            }
            HandleStep::StoreCreateChannel { name }
        },
        ClientEvent::RequestChannels => {
            let channels = reg.channel_list(ctx.group_id);
            let mut targets: Vec<ConnID> = Vec::new();
            targets.push(ctx.conn_id);
            proof {
                assert(targets@ =~= seq![ctx.conn_id]);
                assert(channels@ == reg.group_of(ctx.group_id).channels@);
            }
            let d = Delivery { event: ServerEvent::ChannelList { channels }, targets };
            HandleStep::Done { deliveries: one(d) }
        },
        ClientEvent::DeleteChannel { channel_id } => {
            if reg.channel_count(ctx.group_id) == 1 {
                return HandleStep::Done {
                    deliveries: one(
                        error_reply(
                            ctx.conn_id,
                            ErrorCategory::ChannelDelete,
                            ErrorCode::LoneChannel,
                        ),
                    ),
                };
            }
            if !reg.group_contains_channel(ctx.group_id, channel_id) {
                return HandleStep::Done {
                    deliveries: one(
                        error_reply(
                            ctx.conn_id,
                            ErrorCategory::Request,
                            ErrorCode::ChannelIdInvalid,
                        ),
                    ),
                };
            }
            HandleStep::StoreDeleteChannel { channel_id }
        },
        ClientEvent::RequestOnline => {
            let users = reg.online_users(ctx.group_id);
            let mut targets: Vec<ConnID> = Vec::new();
            targets.push(ctx.conn_id);
            proof {
                assert(targets@ =~= seq![ctx.conn_id]);
            }
            HandleStep::Done {
                deliveries: one(Delivery { event: ServerEvent::OnlineUserList { users }, targets }),
            }
        },
        ClientEvent::RequestUsers => HandleStep::FetchUsers {},
        ClientEvent::RenameChannel { channel_id, name } => {
            if !valid_channel_name(&name) {
                return HandleStep::Done {
                    deliveries: one(
                        error_reply(
                            ctx.conn_id,
                            ErrorCategory::ChannelRename,
                            ErrorCode::NameInvalid,
                        ),
                    ),
                };
            }
            if !reg.group_contains_channel(ctx.group_id, channel_id) {
                return HandleStep::Done {
                    deliveries: one(
                        error_reply(
                            ctx.conn_id,
                            ErrorCategory::Request,
                            ErrorCode::ChannelIdInvalid,
                        ),
                    ),
                };
            }
            HandleStep::StoreRenameChannel { channel_id, name }
        },
        ClientEvent::RenameGroup { name, picture } => {
            if !valid_group_name(&name) {
                return HandleStep::Done {
                    deliveries: one(
                        error_reply(
                            ctx.conn_id,
                            ErrorCategory::GroupRename,
                            ErrorCode::NameInvalid,
                        ),
                    ),
                };
            }
            if !valid_url(&picture) {
                return HandleStep::Done {
                    deliveries: one(
                        error_reply(
                            ctx.conn_id,
                            ErrorCategory::GroupRename,
                            ErrorCode::PictureInvalid,
                        ),
                    ),
                };
            }
            HandleStep::StoreRenameGroup { name, picture }
        },
    }
}

/// Finish a channel creation for what the store answered: a fresh id is
/// broadcast and installed in the cache; a name collision is answered to the
/// sender alone and changes nothing.
pub fn create_channel_apply(
    reg: &mut Registry,
    ctx: &ConnectionContext,
    name: String,
    created: Option<ChannelID>,
) -> (r: Vec<Delivery>)
    requires
        old(reg).wf(),
        old(reg).has_group(ctx.group_id),
    ensures
        final(reg).wf(),
        final(reg).has_group(ctx.group_id),
        created matches None ==> *final(reg) == *old(reg) && r@.len() == 1 && is_error_reply(
            r@[0],
            ctx.conn_id,
            ErrorCategory::ChannelCreate,
            ErrorCode::NameExists,
        ),
        created matches Some(id) ==> {
            &&& final(reg).group_of(ctx.group_id).has_channel(id)
            &&& final(reg).group_of(ctx.group_id).channel_name_of(id) == name@
            &&& forall|id2: ChannelID|
                id2 != id ==> final(reg).group_of(ctx.group_id).has_channel(id2) == old(
                    reg,
                ).group_of(ctx.group_id).has_channel(id2)
            &&& final(reg).group_of(ctx.group_id).connections == old(reg).group_of(
                ctx.group_id,
            ).connections
            &&& final(reg).group_of(ctx.group_id).presence == old(reg).group_of(
                ctx.group_id,
            ).presence
            &&& forall|g: GroupID|
                g != ctx.group_id ==> final(reg).has_group(g) == old(reg).has_group(g)
            &&& forall|g: GroupID|
                g != ctx.group_id && old(reg).has_group(g) ==> final(reg).group_of(g) == old(
                    reg,
                ).group_of(g)
            &&& forall|u2: UserID, g2: GroupID|
                final(reg).in_index(u2, g2) == old(reg).in_index(u2, g2)
            &&& r@.len() == 1
            &&& r@[0].event == (ServerEvent::ChannelCreated { channel_id: id, name })
            &&& r@[0].targets@ == old(reg).group_of(ctx.group_id).connections@
        },
{
    match created {
        None => one(error_reply(ctx.conn_id, ErrorCategory::ChannelCreate, ErrorCode::NameExists)),
        Some(id) => {
            let event = ServerEvent::ChannelCreated { channel_id: id, name: name.clone() };
            let d = match reg.broadcast_all(ctx.group_id, event) {
                Some(d) => d,
                None => {
                    proof {
                        assert(false);
                    }
                    error_reply(ctx.conn_id, ErrorCategory::ChannelCreate, ErrorCode::NameExists)
                },
            };
            reg.install_channel(ctx.group_id, id, name);
            one(d)
        },
    }
}

/// Finish a channel deletion for what the store answered: a confirmed
/// deletion is removed from the cache and broadcast; a refused one is
/// answered to the sender alone and changes nothing.
pub fn delete_channel_apply(
    reg: &mut Registry,
    ctx: &ConnectionContext,
    channel_id: ChannelID,
    deleted: bool,
) -> (r: Vec<Delivery>)
    requires
        old(reg).wf(),
        old(reg).has_group(ctx.group_id),
    ensures
        final(reg).wf(),
        final(reg).has_group(ctx.group_id),
        !deleted ==> *final(reg) == *old(reg) && r@.len() == 1 && is_error_reply(
            r@[0],
            ctx.conn_id,
            ErrorCategory::Request,
            ErrorCode::ChannelIdInvalid,
        ),
        deleted ==> {
            &&& !final(reg).group_of(ctx.group_id).has_channel(channel_id)
            &&& forall|id2: ChannelID|
                id2 != channel_id ==> final(reg).group_of(ctx.group_id).has_channel(id2) == old(
                    reg,
                ).group_of(ctx.group_id).has_channel(id2)
            &&& final(reg).group_of(ctx.group_id).connections == old(reg).group_of(
                ctx.group_id,
            ).connections
            &&& final(reg).group_of(ctx.group_id).presence == old(reg).group_of(
                ctx.group_id,
            ).presence
            &&& forall|g: GroupID|
                g != ctx.group_id ==> final(reg).has_group(g) == old(reg).has_group(g)
            &&& forall|g: GroupID|
                g != ctx.group_id && old(reg).has_group(g) ==> final(reg).group_of(g) == old(
                    reg,
                ).group_of(g)
            &&& forall|u2: UserID, g2: GroupID|
                final(reg).in_index(u2, g2) == old(reg).in_index(u2, g2)
            &&& r@.len() == 1
            &&& r@[0].event == (ServerEvent::ChannelDeleted { channel_id })
            &&& r@[0].targets@ == old(reg).group_of(ctx.group_id).connections@
        },
{
    if !deleted {
        return one(error_reply(ctx.conn_id, ErrorCategory::Request, ErrorCode::ChannelIdInvalid));
    }
    reg.remove_channel(ctx.group_id, channel_id);
    let event = ServerEvent::ChannelDeleted { channel_id };
    let d = match reg.broadcast_all(ctx.group_id, event) {
        Some(d) => d,
        None => {
            proof {
                assert(false);
            }
            error_reply(ctx.conn_id, ErrorCategory::Request, ErrorCode::ChannelIdInvalid)
        },
    };
    one(d)
}

/// Finish a channel rename for what the store answered: a confirmed rename is
/// broadcast and the cached name replaced; a refused one (the new name is
/// taken) is answered to the sender alone and changes nothing.
pub fn rename_channel_apply(
    reg: &mut Registry,
    ctx: &ConnectionContext,
    channel_id: ChannelID,
    name: String,
    renamed: bool,
) -> (r: Vec<Delivery>)
    requires
        old(reg).wf(),
        old(reg).has_group(ctx.group_id),
        old(reg).group_of(ctx.group_id).has_channel(channel_id),
    ensures
        final(reg).wf(),
        final(reg).has_group(ctx.group_id),
        !renamed ==> *final(reg) == *old(reg) && r@.len() == 1 && is_error_reply(
            r@[0],
            ctx.conn_id,
            ErrorCategory::ChannelRename,
            ErrorCode::NameExists,
        ),
        renamed ==> {
            &&& final(reg).group_of(ctx.group_id).has_channel(channel_id)
            &&& final(reg).group_of(ctx.group_id).channel_name_of(channel_id) == name@
            &&& forall|id2: ChannelID|
                id2 != channel_id ==> final(reg).group_of(ctx.group_id).has_channel(id2) == old(
                    reg,
                ).group_of(ctx.group_id).has_channel(id2)
            &&& final(reg).group_of(ctx.group_id).connections == old(reg).group_of(
                ctx.group_id,
            ).connections
            &&& final(reg).group_of(ctx.group_id).presence == old(reg).group_of(
                ctx.group_id,
            ).presence
            &&& forall|g: GroupID|
                g != ctx.group_id ==> final(reg).has_group(g) == old(reg).has_group(g)
            &&& forall|g: GroupID|
                g != ctx.group_id && old(reg).has_group(g) ==> final(reg).group_of(g) == old(
                    reg,
                ).group_of(g)
            &&& forall|u2: UserID, g2: GroupID|
                final(reg).in_index(u2, g2) == old(reg).in_index(u2, g2)
            &&& r@.len() == 1
            &&& r@[0].event == (ServerEvent::ChannelRenamed { channel_id, name })
            &&& r@[0].targets@ == old(reg).group_of(ctx.group_id).connections@
        },
{
    if !renamed {
        return one(error_reply(ctx.conn_id, ErrorCategory::ChannelRename, ErrorCode::NameExists));
    }
    let event = ServerEvent::ChannelRenamed { channel_id, name: name.clone() };
    let d = match reg.broadcast_all(ctx.group_id, event) {
        Some(d) => d,
        None => {
            proof {
                assert(false);
            }
            error_reply(ctx.conn_id, ErrorCategory::ChannelRename, ErrorCode::NameExists)
        },
    };
    reg.install_channel(ctx.group_id, channel_id, name);
    one(d)
}

/// Answer a recent-messages request with the fetched history, to the
/// requester alone.
pub fn recent_messages_reply(
    ctx: &ConnectionContext,
    channel_id: ChannelID,
    messages: Vec<GenericRecentMessage>,
) -> (d: Delivery)
    ensures
        d.event == (ServerEvent::RecentMessageList { channel_id, messages }),
        d.targets@ == seq![ctx.conn_id],
{
    let mut targets: Vec<ConnID> = Vec::new();
    targets.push(ctx.conn_id);
    proof {
        assert(targets@ =~= seq![ctx.conn_id]);
    }
    Delivery { event: ServerEvent::RecentMessageList { channel_id, messages }, targets }
}

/// Answer a user-list request: the stored roster of the group, each member
/// tagged online or offline from the live presence table, to the requester
/// alone.
pub fn users_reply(reg: &Registry, ctx: &ConnectionContext, roster: &Vec<User>) -> (d: Delivery)
    requires
        reg.wf(),
        reg.has_group(ctx.group_id),
    ensures
        d.targets@ == seq![ctx.conn_id],
        d.event matches ServerEvent::UserList { users } && users@.len() == roster@.len() && forall|
            i: int,
        |
            0 <= i < users@.len() ==> {
                &&& (#[trigger] users@[i]).user_id == roster@[i].user_id
                &&& users@[i].name == roster@[i].name
                &&& users@[i].picture == roster@[i].picture
                &&& users@[i].status == (if reg.group_of(ctx.group_id).presence.is_online(
                    roster@[i].user_id,
                ) {
                    UserStatus::Online
                } else {
                    UserStatus::Offline
                })
            },
{
    let mut users: Vec<MemberInfo> = Vec::new();
    let mut i: usize = 0;
    while i < roster.len()
        invariant
            reg.wf(),
            reg.has_group(ctx.group_id),
            i <= roster@.len(),
            users@.len() == i,
            forall|j: int|
                0 <= j < i ==> {
                    &&& (#[trigger] users@[j]).user_id == roster@[j].user_id
                    &&& users@[j].name == roster@[j].name
                    &&& users@[j].picture == roster@[j].picture
                    &&& users@[j].status == (if reg.group_of(ctx.group_id).presence.is_online(
                        roster@[j].user_id,
                    ) {
                        UserStatus::Online
                    } else {
                        UserStatus::Offline
                    })
                },
        decreases roster@.len() - i,
    {
        let status = if reg.is_user_online(ctx.group_id, roster[i].user_id) {
            UserStatus::Online
        } else {
            UserStatus::Offline
        };
        users.push(
            MemberInfo {
                user_id: roster[i].user_id,
                name: roster[i].name.clone(),
                picture: roster[i].picture.clone(),
                status,
            },
        );
        i += 1;
    }
    let mut targets: Vec<ConnID> = Vec::new();
    targets.push(ctx.conn_id);
    proof {
        assert(targets@ =~= seq![ctx.conn_id]);
    }
    Delivery { event: ServerEvent::UserList { users }, targets }
}

/// The store refused a group rename (the name is taken): answer the sender
/// alone; nothing changes.
pub fn rename_group_denied(ctx: &ConnectionContext) -> (d: Delivery)
    ensures
        is_error_reply(d, ctx.conn_id, ErrorCategory::GroupRename, ErrorCode::NameExists),
{
    error_reply(ctx.conn_id, ErrorCategory::GroupRename, ErrorCode::NameExists)
}

/// After the store confirmed a group rename: one event per group member,
/// delivered to every connection that member holds in any group — a member
/// viewing another group in another tab still sees the rename.
pub fn rename_group_notify(
    reg: &Registry,
    ctx: &ConnectionContext,
    name: &String,
    picture: &String,
    member_ids: &Vec<UserID>,
) -> (r: Vec<Delivery>)
    requires
        reg.wf(),
    ensures
        r@.len() == member_ids@.len(),
        forall|i: int|
            0 <= i < r@.len() ==> (#[trigger] r@[i]).event == (ServerEvent::GroupRenamed {
                group_id: ctx.group_id,
                name: *name,
                picture: *picture,
            }),
        forall|i: int, c: ConnID|
            0 <= i < r@.len() ==> #[trigger] r@[i].targets@.contains(c) == exists|g: GroupID|
                #[trigger] reg.user_conn_in(member_ids@[i], g, c),
{
    let mut r: Vec<Delivery> = Vec::new();
    let mut i: usize = 0;
    while i < member_ids.len()
        invariant
            reg.wf(),
            i <= member_ids@.len(),
            r@.len() == i,
            forall|j: int|
                0 <= j < i ==> (#[trigger] r@[j]).event == (ServerEvent::GroupRenamed {
                    group_id: ctx.group_id,
                    name: *name,
                    picture: *picture,
                }),
            forall|j: int, c: ConnID|
                0 <= j < i ==> #[trigger] r@[j].targets@.contains(c) == exists|g: GroupID|
                    #[trigger] reg.user_conn_in(member_ids@[j], g, c),
        decreases member_ids@.len() - i,
    {
        let targets = reg.kick_user(member_ids[i]);
        let event = ServerEvent::GroupRenamed {
            group_id: ctx.group_id,
            name: name.clone(),
            picture: picture.clone(),
        };
        r.push(Delivery { event, targets });
        i += 1;
    }
    r
}

/// Ordering law: from one post-message operation the sender receives exactly
/// one receipt and no peer copy, and every other connection of the group
/// receives exactly one peer copy and no receipt.  The two deliveries are the
/// peer/reply split that `handle_event` builds for a valid post.
pub proof fn lemma_post_message_ordering(
    reg: Registry,
    ctx: ConnectionContext,
    receipt: Delivery,
    peer: Delivery,
)
    requires
        receipt.targets@ == seq![ctx.conn_id],
        distinct_seq(peer.targets@),
        !peer.targets@.contains(ctx.conn_id),
        forall|c: ConnID|
            c != ctx.conn_id ==> peer.targets@.contains(c) == reg.group_of(
                ctx.group_id,
            ).has_conn(c),
    ensures
        receipt.targets@.to_multiset().count(ctx.conn_id) == 1,
        peer.targets@.to_multiset().count(ctx.conn_id) == 0,
        forall|c: ConnID|
            c != ctx.conn_id && reg.group_of(ctx.group_id).has_conn(c)
                ==> peer.targets@.to_multiset().count(c) == 1
                && receipt.targets@.to_multiset().count(c) == 0,
{
    broadcast use vstd::seq_lib::group_to_multiset_ensures;

    assert(receipt.targets@.no_duplicates());
    receipt.targets@.lemma_multiset_has_no_duplicates();
    assert(receipt.targets@.contains(ctx.conn_id)) by {
        assert(receipt.targets@[0] == ctx.conn_id);
    }
    assert(receipt.targets@.to_multiset().count(ctx.conn_id) == 1);
    assert(peer.targets@.to_multiset().count(ctx.conn_id) == 0);
    assert(peer.targets@.no_duplicates());
    peer.targets@.lemma_multiset_has_no_duplicates();
    assert forall|c: ConnID|
        c != ctx.conn_id && reg.group_of(ctx.group_id).has_conn(c)
            implies peer.targets@.to_multiset().count(c) == 1
            && receipt.targets@.to_multiset().count(c) == 0 by {
        assert(peer.targets@.contains(c));
        assert(!receipt.targets@.contains(c)) by {
            if receipt.targets@.contains(c) {
                let m = choose|m: int| 0 <= m < receipt.targets@.len() && receipt.targets@[m] == c;
                assert(receipt.targets@[0] == ctx.conn_id);
            }
        }
    }
}

/// A one-element delivery list.
fn one(d: Delivery) -> (r: Vec<Delivery>)
    ensures
        r@.len() == 1,
        r@[0] == d,
{
    let mut r: Vec<Delivery> = Vec::new();
    r.push(d);
    r
}

} // verus!
