//! The group registry: admission, retirement, the cache and the broadcast
//! primitives, on concrete states.

use chat::protocol::{Channel, Delivery, ServerEvent, UserStatus};
use chat::registry::Registry;

fn channel(id: i32, name: &str) -> Channel {
    Channel { channel_id: id, name: name.to_string() }
}

fn one_channel_registry(group_id: i32, user_id: i32, conn_id: usize) -> Registry {
    let mut reg = Registry::new();
    let outcome = reg.join(group_id, user_id, conn_id, Some(vec![channel(3, "general")]));
    assert!(outcome.created_group);
    reg
}

#[test]
fn join_creates_group_with_fetched_cache() {
    let mut reg = Registry::new();
    let cache = vec![channel(1, "general"), channel(4, "random")];
    let outcome = reg.join(7, 42, 1, Some(cache));
    assert!(outcome.created_group);
    assert!(outcome.came_online);
    assert_eq!(outcome.deliveries.len(), 1);
    assert_eq!(
        outcome.deliveries[0].event,
        ServerEvent::UserStatusChanged { user_id: 42, status: UserStatus::Online }
    );
    // the joiner itself is a target of its own online broadcast
    assert_eq!(outcome.deliveries[0].targets, vec![1]);
    assert_eq!(reg.channel_list(7).len(), 2);
}

#[test]
fn second_join_does_not_create_again() {
    // two admissions for the same group: exactly one group instance, one
    // installed cache; the second join ignores its (absent) fetch
    let mut reg = Registry::new();
    let first = reg.join(7, 42, 1, Some(vec![channel(1, "general")]));
    assert!(first.created_group);
    let second = reg.join(7, 43, 2, None);
    assert!(!second.created_group);
    assert!(second.came_online);
    let names: Vec<String> = reg.channel_list(7).into_iter().map(|c| c.name).collect();
    assert_eq!(names, vec!["general".to_string()]);
    assert_eq!(reg.groups.len(), 1);
}

#[test]
fn online_broadcast_reaches_existing_connections() {
    let mut reg = one_channel_registry(7, 1, 10);
    let outcome = reg.join(7, 2, 11, None);
    assert!(outcome.came_online);
    assert_eq!(outcome.deliveries.len(), 1);
    assert_eq!(outcome.deliveries[0].targets, vec![10, 11]);
}

#[test]
fn leave_unknown_connection_is_a_no_op() {
    let mut reg = one_channel_registry(7, 1, 10);
    let before_groups = reg.groups.len();
    let outcome = reg.leave(7, 1, 999);
    assert!(!outcome.went_offline);
    assert!(!outcome.removed_group);
    assert!(outcome.deliveries.is_empty());
    assert_eq!(reg.groups.len(), before_groups);
    // and for a group that does not exist at all
    let outcome = reg.leave(8, 1, 10);
    assert!(!outcome.went_offline);
    assert!(!outcome.removed_group);
}

#[test]
fn leave_with_wrong_user_is_a_no_op() {
    // connection 10 belongs to user 1; a leave naming user 2 must not touch it
    let mut reg = one_channel_registry(7, 1, 10);
    let outcome = reg.leave(7, 2, 10);
    assert!(!outcome.went_offline);
    assert!(!outcome.removed_group);
    assert!(reg.is_user_online(7, 1));
}

#[test]
fn last_leave_removes_group() {
    let mut reg = one_channel_registry(7, 1, 10);
    let outcome = reg.leave(7, 1, 10);
    assert!(outcome.went_offline);
    assert!(outcome.removed_group);
    assert_eq!(outcome.deliveries.len(), 1);
    assert_eq!(
        outcome.deliveries[0].event,
        ServerEvent::UserStatusChanged { user_id: 1, status: UserStatus::Offline }
    );
    assert!(outcome.deliveries[0].targets.is_empty());
    assert!(reg.groups.is_empty());
    assert!(reg.user_groups.is_empty());
}

#[test]
fn offline_broadcast_reaches_remaining_connections() {
    let mut reg = one_channel_registry(7, 1, 10);
    reg.join(7, 2, 11, None);
    let outcome = reg.leave(7, 2, 11);
    assert!(outcome.went_offline);
    assert!(!outcome.removed_group);
    assert_eq!(outcome.deliveries.len(), 1);
    assert_eq!(outcome.deliveries[0].targets, vec![10]);
}

#[test]
fn broadcast_all_targets_every_connection() {
    let mut reg = one_channel_registry(7, 1, 10);
    reg.join(7, 2, 11, None);
    let d = reg.broadcast_all(7, ServerEvent::ChannelDeleted { channel_id: 3 }).unwrap();
    assert_eq!(d.targets, vec![10, 11]);
    assert!(reg.broadcast_all(8, ServerEvent::ChannelDeleted { channel_id: 3 }).is_none());
}

#[test]
fn peer_reply_splits_origin_from_peers() {
    let mut reg = one_channel_registry(7, 1, 10);
    reg.join(7, 2, 11, None);
    reg.join(7, 3, 12, None);
    let (reply, peer) = reg
        .broadcast_peer_reply(
            7,
            11,
            ServerEvent::ChannelDeleted { channel_id: 3 },
            ServerEvent::ChannelCreated { channel_id: 9, name: "x".to_string() },
        )
        .unwrap();
    assert_eq!(reply.targets, vec![11]);
    assert_eq!(peer.targets, vec![10, 12]);
}

#[test]
fn send_reply_unicasts() {
    let mut reg = one_channel_registry(7, 1, 10);
    let d = reg.send_reply(7, 10, ServerEvent::ChannelDeleted { channel_id: 3 }).unwrap();
    assert_eq!(d.targets, vec![10]);
    assert!(reg.send_reply(7, 11, ServerEvent::ChannelDeleted { channel_id: 3 }).is_none());
}

#[test]
fn install_channel_keeps_cache_sorted() {
    let mut reg = one_channel_registry(7, 1, 10);
    reg.install_channel(7, 9, "zulu".to_string());
    reg.install_channel(7, 1, "alpha".to_string());
    let ids: Vec<i32> = reg.channel_list(7).into_iter().map(|c| c.channel_id).collect();
    assert_eq!(ids, vec![1, 3, 9]);
    // installing a known id replaces the name
    reg.install_channel(7, 3, "renamed".to_string());
    let names: Vec<String> = reg.channel_list(7).into_iter().map(|c| c.name).collect();
    assert_eq!(names, vec!["alpha".to_string(), "renamed".to_string(), "zulu".to_string()]);
}

#[test]
fn remove_channel_deletes_only_that_entry() {
    let mut reg = one_channel_registry(7, 1, 10);
    reg.install_channel(7, 9, "zulu".to_string());
    reg.remove_channel(7, 3);
    let ids: Vec<i32> = reg.channel_list(7).into_iter().map(|c| c.channel_id).collect();
    assert_eq!(ids, vec![9]);
    // removing an unknown id changes nothing
    reg.remove_channel(7, 3);
    assert_eq!(reg.channel_list(7).len(), 1);
}

#[test]
fn online_users_and_status() {
    let mut reg = one_channel_registry(7, 1, 10);
    reg.join(7, 2, 11, None);
    reg.join(7, 2, 12, None);
    assert_eq!(reg.online_users(7), vec![1, 2]);
    assert!(reg.is_user_online(7, 1));
    assert!(!reg.is_user_online(7, 3));
}

#[test]
fn kick_user_collects_connections_across_groups() {
    let mut reg = Registry::new();
    reg.join(5, 42, 1, Some(vec![channel(1, "general")]));
    reg.join(9, 42, 2, Some(vec![channel(2, "general")]));
    reg.join(9, 7, 3, None);
    let mut kicked = reg.kick_user(42);
    kicked.sort();
    assert_eq!(kicked, vec![1, 2]);
    assert_eq!(reg.kick_user(1000), Vec::<usize>::new());
}

#[test]
fn kick_user_from_single_group() {
    let mut reg = Registry::new();
    reg.join(5, 42, 1, Some(vec![channel(1, "general")]));
    reg.join(9, 42, 2, Some(vec![channel(2, "general")]));
    assert_eq!(reg.kick_user_from_group(42, 5), vec![1]);
    assert_eq!(reg.kick_user_from_group(42, 6), Vec::<usize>::new());
}

#[test]
fn user_renamed_builds_one_delivery_per_group() {
    let mut reg = Registry::new();
    reg.join(5, 42, 1, Some(vec![channel(1, "general")]));
    reg.join(9, 7, 2, Some(vec![channel(2, "general")]));
    let name = "New Name".to_string();
    let picture = "https://example.net/p.png".to_string();
    let ds = reg.user_renamed(&vec![5, 9, 11], 42, &name, &picture);
    assert_eq!(ds.len(), 3);
    for d in &ds {
        assert_eq!(
            d.event,
            ServerEvent::UserRenamed { user_id: 42, name: name.clone(), picture: picture.clone() }
        );
    }
    assert_eq!(ds[0].targets, vec![1]);
    assert_eq!(ds[1].targets, vec![2]);
    assert!(ds[2].targets.is_empty());
}

#[test]
fn group_deleted_notify_kicks_and_informs() {
    let mut reg = Registry::new();
    reg.join(5, 42, 1, Some(vec![channel(1, "general")]));
    reg.join(9, 42, 2, Some(vec![channel(2, "general")]));
    let (kicks, deliveries) = reg.group_deleted_notify(&vec![42], 5);
    assert_eq!(kicks, vec![1]);
    assert_eq!(deliveries.len(), 1);
    assert_eq!(deliveries[0].event, ServerEvent::GroupDeleted { group_id: 5 });
    assert_eq!(deliveries[0].targets, vec![2]);
}

#[test]
fn deliveries_compare_by_value() {
    let d = Delivery { event: ServerEvent::GroupDeleted { group_id: 5 }, targets: vec![1, 2] };
    assert_eq!(d.clone(), d);
}
