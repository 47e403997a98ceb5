//! The message dispatcher: every inbound event kind, every error reply, the
//! storage splits and the completion functions.

use chat::dispatch::{create_channel_apply, delete_channel_apply, handle_event,
    recent_messages_reply, rename_channel_apply, rename_group_denied, rename_group_notify,
    users_reply, HandleStep};
use chat::protocol::{Channel, ConnectionContext, ErrorCategory, ErrorCode, ClientEvent,
    GenericRecentMessage, ServerEvent, UserStatus, database_error_reply, malformed_event_reply};
use chat::registry::Registry;
use chat::roster::User;

fn channel(id: i32, name: &str) -> Channel {
    Channel { channel_id: id, name: name.to_string() }
}

fn setup() -> (Registry, ConnectionContext) {
    let mut reg = Registry::new();
    reg.join(7, 1, 10, Some(vec![channel(3, "general")]));
    reg.join(7, 2, 11, None);
    reg.join(7, 2, 12, None);
    (reg, ConnectionContext { user_id: 1, group_id: 7, conn_id: 10 })
}

fn expect_error(step: HandleStep, conn: usize, category: ErrorCategory, code: ErrorCode) {
    match step {
        HandleStep::Done { deliveries } => {
            assert_eq!(deliveries.len(), 1);
            assert_eq!(deliveries[0].event, ServerEvent::Error { category, code });
            assert_eq!(deliveries[0].targets, vec![conn]);
        },
        _ => panic!("expected an immediate error reply"),
    }
}

#[test]
fn post_message_broadcasts_then_persists() {
    let (reg, ctx) = setup();
    let event = ClientEvent::CreateMessage { content: "hi".to_string(), channel_id: 3 };
    match handle_event(&reg, &ctx, event, 1700000000) {
        HandleStep::Persist { deliveries, message } => {
            assert_eq!(deliveries.len(), 2);
            // the sender's receipt
            assert_eq!(
                deliveries[0].event,
                ServerEvent::MessageReceipt { timestamp: 1700000000, channel_id: 3 }
            );
            assert_eq!(deliveries[0].targets, vec![10]);
            // the copy for everyone else
            match &deliveries[1].event {
                ServerEvent::RecentMessage(m) => {
                    assert_eq!(m.timestamp, 1700000000);
                    assert_eq!(m.author, 1);
                    assert_eq!(m.content, "hi");
                    assert_eq!(m.channel_id, 3);
                },
                other => panic!("expected the peer copy, got {:?}", other),
            }
            assert_eq!(deliveries[1].targets, vec![11, 12]);
            // exactly one storage append
            assert_eq!(message.group_id, 7);
            assert_eq!(message.channel_id, 3);
            assert_eq!(message.user_id, 1);
            assert_eq!(message.content, "hi");
            assert_eq!(message.timestamp, 1700000000);
        },
        _ => panic!("expected a broadcast-then-persist step"),
    }
}

#[test]
fn post_message_rejects_empty_content() {
    let (reg, ctx) = setup();
    let event = ClientEvent::CreateMessage { content: "".to_string(), channel_id: 3 };
    let step = handle_event(&reg, &ctx, event, 1);
    expect_error(step, 10, ErrorCategory::Request, ErrorCode::MessageInvalid);
}

#[test]
fn post_message_rejects_unknown_channel() {
    let (reg, ctx) = setup();
    let event = ClientEvent::CreateMessage { content: "hi".to_string(), channel_id: 4 };
    let step = handle_event(&reg, &ctx, event, 1);
    expect_error(step, 10, ErrorCategory::Request, ErrorCode::ChannelIdInvalid);
}

#[test]
fn recent_messages_validates_channel() {
    let (reg, ctx) = setup();
    let step = handle_event(&reg, &ctx, ClientEvent::RequestRecentMessages { channel_id: 4 }, 1);
    expect_error(step, 10, ErrorCategory::Request, ErrorCode::ChannelIdInvalid);
    match handle_event(&reg, &ctx, ClientEvent::RequestRecentMessages { channel_id: 3 }, 1) {
        HandleStep::FetchRecent { channel_id } => assert_eq!(channel_id, 3),
        _ => panic!("expected a history fetch"),
    }
}

#[test]
fn recent_messages_reply_unicasts_history() {
    let (_, ctx) = setup();
    let messages = vec![GenericRecentMessage {
        timestamp: 5,
        author: 2,
        content: "hello".to_string(),
    }];
    let d = recent_messages_reply(&ctx, 3, messages.clone());
    assert_eq!(d.event, ServerEvent::RecentMessageList { channel_id: 3, messages });
    assert_eq!(d.targets, vec![10]);
}

#[test]
fn create_channel_validates_name() {
    let (reg, ctx) = setup();
    let step = handle_event(&reg, &ctx, ClientEvent::CreateChannel { name: "a b".to_string() }, 1);
    expect_error(step, 10, ErrorCategory::ChannelCreate, ErrorCode::NameInvalid);
    match handle_event(&reg, &ctx, ClientEvent::CreateChannel { name: "dev".to_string() }, 1) {
        HandleStep::StoreCreateChannel { name } => assert_eq!(name, "dev"),
        _ => panic!("expected a storage create"),
    }
}

#[test]
fn create_channel_collision_changes_nothing() {
    let (mut reg, ctx) = setup();
    let before = reg.channel_list(7).len();
    let ds = create_channel_apply(&mut reg, &ctx, "general".to_string(), None);
    assert_eq!(ds.len(), 1);
    assert_eq!(
        ds[0].event,
        ServerEvent::Error {
            category: ErrorCategory::ChannelCreate,
            code: ErrorCode::NameExists,
        }
    );
    assert_eq!(ds[0].targets, vec![10]);
    assert_eq!(reg.channel_list(7).len(), before);
}

#[test]
fn create_channel_success_broadcasts_and_caches() {
    let (mut reg, ctx) = setup();
    let ds = create_channel_apply(&mut reg, &ctx, "dev".to_string(), Some(5));
    assert_eq!(ds.len(), 1);
    assert_eq!(
        ds[0].event,
        ServerEvent::ChannelCreated { channel_id: 5, name: "dev".to_string() }
    );
    assert_eq!(ds[0].targets, vec![10, 11, 12]);
    let ids: Vec<i32> = reg.channel_list(7).into_iter().map(|c| c.channel_id).collect();
    assert_eq!(ids, vec![3, 5]);
}

#[test]
fn request_channels_answers_the_cache() {
    let (reg, ctx) = setup();
    match handle_event(&reg, &ctx, ClientEvent::RequestChannels, 1) {
        HandleStep::Done { deliveries } => {
            assert_eq!(deliveries.len(), 1);
            assert_eq!(deliveries[0].targets, vec![10]);
            match &deliveries[0].event {
                ServerEvent::ChannelList { channels } => {
                    assert_eq!(channels.len(), 1);
                    assert_eq!(channels[0].channel_id, 3);
                    assert_eq!(channels[0].name, "general");
                },
                other => panic!("expected the channel list, got {:?}", other),
            }
        },
        _ => panic!("expected an immediate reply"),
    }
}

#[test]
fn delete_channel_protects_the_last_channel() {
    let (reg, ctx) = setup();
    let step = handle_event(&reg, &ctx, ClientEvent::DeleteChannel { channel_id: 3 }, 1);
    expect_error(step, 10, ErrorCategory::ChannelDelete, ErrorCode::LoneChannel);
}

#[test]
fn delete_channel_validates_and_stores() {
    let (mut reg, ctx) = setup();
    reg.install_channel(7, 5, "dev".to_string());
    let step = handle_event(&reg, &ctx, ClientEvent::DeleteChannel { channel_id: 4 }, 1);
    expect_error(step, 10, ErrorCategory::Request, ErrorCode::ChannelIdInvalid);
    match handle_event(&reg, &ctx, ClientEvent::DeleteChannel { channel_id: 5 }, 1) {
        HandleStep::StoreDeleteChannel { channel_id } => assert_eq!(channel_id, 5),
        _ => panic!("expected a storage delete"),
    }
}

#[test]
fn delete_channel_apply_updates_cache() {
    let (mut reg, ctx) = setup();
    reg.install_channel(7, 5, "dev".to_string());
    // the store refused: nothing changes
    let ds = delete_channel_apply(&mut reg, &ctx, 5, false);
    assert_eq!(ds.len(), 1);
    assert_eq!(
        ds[0].event,
        ServerEvent::Error { category: ErrorCategory::Request, code: ErrorCode::ChannelIdInvalid }
    );
    assert_eq!(reg.channel_list(7).len(), 2);
    // the store confirmed: the entry goes, everyone hears of it
    let ds = delete_channel_apply(&mut reg, &ctx, 5, true);
    assert_eq!(ds.len(), 1);
    assert_eq!(ds[0].event, ServerEvent::ChannelDeleted { channel_id: 5 });
    assert_eq!(ds[0].targets, vec![10, 11, 12]);
    let ids: Vec<i32> = reg.channel_list(7).into_iter().map(|c| c.channel_id).collect();
    assert_eq!(ids, vec![3]);
}

#[test]
fn request_online_lists_present_users() {
    let (reg, ctx) = setup();
    match handle_event(&reg, &ctx, ClientEvent::RequestOnline, 1) {
        HandleStep::Done { deliveries } => {
            assert_eq!(deliveries.len(), 1);
            assert_eq!(deliveries[0].targets, vec![10]);
            assert_eq!(
                deliveries[0].event,
                ServerEvent::OnlineUserList { users: vec![1, 2] }
            );
        },
        _ => panic!("expected an immediate reply"),
    }
}

#[test]
fn request_users_crosses_roster_with_presence() {
    let (reg, ctx) = setup();
    match handle_event(&reg, &ctx, ClientEvent::RequestUsers, 1) {
        HandleStep::FetchUsers => {},
        _ => panic!("expected a roster fetch"),
    }
    let roster = vec![
        User { user_id: 1, name: "Ada".to_string(), picture: "a.png".to_string() },
        User { user_id: 9, name: "Joe".to_string(), picture: "j.png".to_string() },
    ];
    let d = users_reply(&reg, &ctx, &roster);
    assert_eq!(d.targets, vec![10]);
    match d.event {
        ServerEvent::UserList { users } => {
            assert_eq!(users.len(), 2);
            assert_eq!(users[0].user_id, 1);
            assert_eq!(users[0].status, UserStatus::Online);
            assert_eq!(users[1].user_id, 9);
            assert_eq!(users[1].status, UserStatus::Offline);
        },
        other => panic!("expected the user list, got {:?}", other),
    }
}

#[test]
fn rename_channel_validates_and_applies() {
    let (mut reg, ctx) = setup();
    let step = handle_event(
        &reg,
        &ctx,
        ClientEvent::RenameChannel { channel_id: 3, name: "a#b".to_string() },
        1,
    );
    expect_error(step, 10, ErrorCategory::ChannelRename, ErrorCode::NameInvalid);
    let step = handle_event(
        &reg,
        &ctx,
        ClientEvent::RenameChannel { channel_id: 4, name: "dev".to_string() },
        1,
    );
    expect_error(step, 10, ErrorCategory::Request, ErrorCode::ChannelIdInvalid);
    match handle_event(
        &reg,
        &ctx,
        ClientEvent::RenameChannel { channel_id: 3, name: "dev".to_string() },
        1,
    ) {
        HandleStep::StoreRenameChannel { channel_id, name } => {
            assert_eq!(channel_id, 3);
            assert_eq!(name, "dev");
        },
        _ => panic!("expected a storage rename"),
    }
    // the store refused: the cache keeps the old name
    let ds = rename_channel_apply(&mut reg, &ctx, 3, "dev".to_string(), false);
    assert_eq!(
        ds[0].event,
        ServerEvent::Error { category: ErrorCategory::ChannelRename, code: ErrorCode::NameExists }
    );
    assert_eq!(reg.channel_list(7)[0].name, "general");
    // the store confirmed: broadcast and rename
    let ds = rename_channel_apply(&mut reg, &ctx, 3, "dev".to_string(), true);
    assert_eq!(
        ds[0].event,
        ServerEvent::ChannelRenamed { channel_id: 3, name: "dev".to_string() }
    );
    assert_eq!(ds[0].targets, vec![10, 11, 12]);
    assert_eq!(reg.channel_list(7)[0].name, "dev");
}

#[test]
fn rename_group_validates_name_and_picture() {
    let (reg, ctx) = setup();
    let step = handle_event(
        &reg,
        &ctx,
        ClientEvent::RenameGroup { name: "".to_string(), picture: "https://e.net/p".to_string() },
        1,
    );
    expect_error(step, 10, ErrorCategory::GroupRename, ErrorCode::NameInvalid);
    let step = handle_event(
        &reg,
        &ctx,
        ClientEvent::RenameGroup { name: "team".to_string(), picture: "not a url".to_string() },
        1,
    );
    expect_error(step, 10, ErrorCategory::GroupRename, ErrorCode::PictureInvalid);
    match handle_event(
        &reg,
        &ctx,
        ClientEvent::RenameGroup {
            name: "team".to_string(),
            picture: "https://e.net/p".to_string(),
        },
        1,
    ) {
        HandleStep::StoreRenameGroup { name, picture } => {
            assert_eq!(name, "team");
            assert_eq!(picture, "https://e.net/p");
        },
        _ => panic!("expected a storage rename"),
    }
}

#[test]
fn rename_group_denied_answers_sender_only() {
    let (_, ctx) = setup();
    let d = rename_group_denied(&ctx);
    assert_eq!(
        d.event,
        ServerEvent::Error { category: ErrorCategory::GroupRename, code: ErrorCode::NameExists }
    );
    assert_eq!(d.targets, vec![10]);
}

#[test]
fn rename_group_notify_reaches_members_everywhere() {
    // the sender renames group 7 from one tab; user 2 also sits in group 9
    let (mut reg, ctx) = setup();
    reg.join(9, 2, 20, Some(vec![Channel { channel_id: 8, name: "general".to_string() }]));
    let name = "team".to_string();
    let picture = "https://e.net/p".to_string();
    let ds = rename_group_notify(&reg, &ctx, &name, &picture, &vec![1, 2]);
    assert_eq!(ds.len(), 2);
    for d in &ds {
        assert_eq!(
            d.event,
            ServerEvent::GroupRenamed {
                group_id: 7,
                name: name.clone(),
                picture: picture.clone(),
            }
        );
    }
    assert_eq!(ds[0].targets, vec![10]);
    let mut second = ds[1].targets.clone();
    second.sort();
    assert_eq!(second, vec![11, 12, 20]);
}

#[test]
fn malformed_frames_answer_the_sender_alone() {
    let d = malformed_event_reply(10);
    assert_eq!(
        d.event,
        ServerEvent::Error { category: ErrorCategory::Request, code: ErrorCode::Json }
    );
    assert_eq!(d.targets, vec![10]);
}

#[test]
fn storage_failures_answer_the_sender_alone() {
    let d = database_error_reply(10);
    assert_eq!(
        d.event,
        ServerEvent::Error { category: ErrorCategory::Application, code: ErrorCode::Database }
    );
    assert_eq!(d.targets, vec![10]);
}
