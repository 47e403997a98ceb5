//! End-to-end scenarios over the hub: multi-device presence, posting, and
//! forced disconnects.

use chat::protocol::{Channel, ConnectionContext, ClientEvent, ServerEvent, UserStatus};
use chat::dispatch::{handle_event, HandleStep};
use chat::registry::Registry;

fn channel(id: i32, name: &str) -> Channel {
    Channel { channel_id: id, name: name.to_string() }
}

#[test]
fn two_devices_one_presence() {
    // the same user joins group 7 from two devices
    let mut reg = Registry::new();
    let first = reg.join(7, 42, 1, Some(vec![channel(3, "general")]));
    let second = reg.join(7, 42, 2, None);
    // presence count 2, exactly one online event in total
    assert!(first.came_online);
    assert!(!second.came_online);
    assert_eq!(first.deliveries.len() + second.deliveries.len(), 1);
    assert!(reg.is_user_online(7, 42));
    // and the index knows (42, 7)
    assert_eq!(reg.user_groups, vec![(42, vec![7])]);

    // the first device disconnects: still online, no offline event
    let leave1 = reg.leave(7, 42, 1);
    assert!(!leave1.went_offline);
    assert!(!leave1.removed_group);
    assert!(leave1.deliveries.is_empty());
    assert!(reg.is_user_online(7, 42));
    assert_eq!(reg.user_groups, vec![(42, vec![7])]);

    // the second disconnects: offline, the group and the index entry go
    let leave2 = reg.leave(7, 42, 2);
    assert!(leave2.went_offline);
    assert!(leave2.removed_group);
    assert_eq!(leave2.deliveries.len(), 1);
    assert_eq!(
        leave2.deliveries[0].event,
        ServerEvent::UserStatusChanged { user_id: 42, status: UserStatus::Offline }
    );
    assert!(reg.groups.is_empty());
    assert!(reg.user_groups.is_empty());
}

#[test]
fn posted_message_reaches_sender_once_and_peers_once() {
    let mut reg = Registry::new();
    reg.join(7, 1, 10, Some(vec![channel(3, "general")]));
    reg.join(7, 2, 11, None);
    reg.join(7, 3, 12, None);
    let ctx = ConnectionContext { user_id: 1, group_id: 7, conn_id: 10 };
    let event = ClientEvent::CreateMessage { content: "hi".to_string(), channel_id: 3 };
    match handle_event(&reg, &ctx, event, 99) {
        HandleStep::Persist { deliveries, message } => {
            // sender: one receipt, no copy
            assert_eq!(deliveries[0].targets.iter().filter(|c| **c == 10).count(), 1);
            assert_eq!(deliveries[1].targets.iter().filter(|c| **c == 10).count(), 0);
            // each peer: one copy, no receipt
            for peer in [11usize, 12usize] {
                assert_eq!(deliveries[1].targets.iter().filter(|c| **c == peer).count(), 1);
                assert_eq!(deliveries[0].targets.iter().filter(|c| **c == peer).count(), 0);
            }
            // one storage append for the post
            assert_eq!(message.content, "hi");
        },
        _ => panic!("expected a broadcast-then-persist step"),
    }
}

#[test]
fn kicked_user_loses_both_groups() {
    // user 42 holds connections in groups 5 and 9
    let mut reg = Registry::new();
    reg.join(5, 42, 1, Some(vec![channel(1, "general")]));
    reg.join(9, 42, 2, Some(vec![channel(2, "general")]));
    reg.join(9, 7, 3, None);

    // both sockets receive the close signal
    let mut kicked = reg.kick_user(42);
    kicked.sort();
    assert_eq!(kicked, vec![1, 2]);

    // each connection's own teardown then reconciles the registry
    reg.leave(5, 42, 1);
    reg.leave(9, 42, 2);
    assert!(!reg.is_user_online(9, 42));
    assert_eq!(reg.user_groups, vec![(7, vec![9])]);
    assert_eq!(reg.groups.len(), 1);
}

#[test]
fn group_exists_exactly_while_connected() {
    let mut reg = Registry::new();
    assert!(reg.groups.is_empty());
    reg.join(7, 1, 10, Some(vec![channel(3, "general")]));
    assert_eq!(reg.groups.len(), 1);
    assert!(!reg.groups[0].1.connections.is_empty());
    reg.join(7, 2, 11, None);
    reg.leave(7, 1, 10);
    assert_eq!(reg.groups.len(), 1);
    reg.leave(7, 2, 11);
    assert!(reg.groups.is_empty());
}
