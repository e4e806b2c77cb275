use lan_sync::client::{
    follower_from_lowercase, idle_client_status, parse_follower_device, ping_frame, server_url,
    sink_message, LanClient,
};
use lan_sync::server::LanServer;
use lan_sync::types::{DeviceType, LanMessage, ServerInfo};
use lan_sync::wire::encode;

fn registered_reply() -> String {
    encode(&LanMessage::Registered {
        client_id: "c1".to_string(),
        server_info: ServerInfo {
            server_id: "s1".to_string(),
            tenant_id: "t1".to_string(),
            connected_clients: 0,
            server_time: "st".to_string(),
        },
    })
}

#[test]
fn connect_on_registered_reply() {
    let mut c = LanClient::new(DeviceType::Kds, "t1".to_string());
    assert_eq!(c.can_connect(), Ok(()));
    assert_eq!(c.connect("10.0.0.1:3847".to_string(), Some(registered_reply()), "now".to_string()), Ok(()));
    let st = c.status();
    assert!(st.is_connected);
    assert_eq!(st.server_address, Some("10.0.0.1:3847".to_string()));
    assert_eq!(st.connected_at, Some("now".to_string()));
    assert_eq!(st.server_info.unwrap().server_id, "s1");
    assert_eq!(c.can_connect(), Err("Already connected to a server".to_string()));
    assert_eq!(
        c.connect("x".to_string(), Some(registered_reply()), "n".to_string()),
        Err("Already connected to a server".to_string())
    );
}

#[test]
fn connect_failures_change_nothing() {
    let mut c = LanClient::new(DeviceType::Bds, "t2".to_string());
    let refusal = encode(&LanMessage::Error { message: "Tenant ID mismatch".to_string(), code: "TENANT_MISMATCH".to_string() });
    assert_eq!(
        c.connect("a".to_string(), Some(refusal), "n".to_string()),
        Err("Registration failed: Tenant ID mismatch (TENANT_MISMATCH)".to_string())
    );
    assert_eq!(c.connect("a".to_string(), None, "n".to_string()), Err("No response from server".to_string()));
    assert_eq!(
        c.connect("a".to_string(), Some(encode(&LanMessage::Pong)), "n".to_string()),
        Err("Unexpected response from server".to_string())
    );
    assert!(!c.status().is_connected);
    assert!(c.status().server_address.is_none());
}

#[test]
fn disconnect_twice_leaves_same_state() {
    let mut c = LanClient::new(DeviceType::Kds, "t1".to_string());
    c.connect("a".to_string(), Some(registered_reply()), "n".to_string()).unwrap();
    assert_eq!(c.disconnect(), Ok(()));
    let first = c.status();
    assert_eq!(c.disconnect(), Ok(()));
    let second = c.status();
    assert!(!first.is_connected && !second.is_connected);
    assert!(first.server_address.is_none() && second.server_address.is_none());
    assert!(first.server_info.is_none() && second.server_info.is_none());
    assert!(first.connected_at.is_none() && second.connected_at.is_none());
    assert_eq!(first.device_type, second.device_type);
}

#[test]
fn session_end_marks_disconnected() {
    let mut c = LanClient::new(DeviceType::Kds, "t1".to_string());
    c.connect("a".to_string(), Some(registered_reply()), "n".to_string()).unwrap();
    c.session_ended();
    assert!(!c.is_connected());
}

#[test]
fn registration_frame_names_role_and_tenant() {
    let c = LanClient::new(DeviceType::Manager, "t9".to_string());
    assert_eq!(c.registration_frame(), "{\"type\":\"register\",\"device_type\":\"manager\",\"tenant_id\":\"t9\"}");
    assert_eq!(ping_frame(), "{\"type\":\"ping\"}");
}

#[test]
fn urls_get_a_scheme() {
    assert_eq!(server_url("10.0.0.1:3847"), "ws://10.0.0.1:3847");
    assert_eq!(server_url("ws://h:1"), "ws://h:1");
    assert_eq!(server_url("wss://h:1"), "wss://h:1");
    assert_eq!(server_url(""), "ws://");
}

#[test]
fn only_domain_events_reach_the_sink() {
    let created = LanMessage::OrderCreated { order: "{\"id\":\"o1\"}".to_string(), kitchen_order: "{}".to_string() };
    assert!(matches!(sink_message(&encode(&created)), Some(LanMessage::OrderCreated { .. })));
    let upd = LanMessage::OrderStatusUpdate { order_id: "o".to_string(), status: "s".to_string(), updated_at: "u".to_string() };
    assert!(matches!(sink_message(&encode(&upd)), Some(LanMessage::OrderStatusUpdate { .. })));
    assert!(matches!(sink_message(&encode(&LanMessage::SyncState { orders: vec![] })), Some(LanMessage::SyncState { .. })));
    assert!(sink_message(&encode(&LanMessage::Pong)).is_none());
    assert!(sink_message(&encode(&LanMessage::Ping)).is_none());
    assert!(sink_message("{\"type\":\"future_kind\"}").is_none());
    assert!(sink_message("}{").is_none());
}

#[test]
fn follower_device_names() {
    assert_eq!(parse_follower_device("KDS"), Ok(DeviceType::Kds));
    assert_eq!(parse_follower_device("Bds"), Ok(DeviceType::Bds));
    assert_eq!(parse_follower_device("manager"), Ok(DeviceType::Manager));
    assert_eq!(
        parse_follower_device("POS"),
        Err("Invalid device type. Must be 'kds', 'bds', or 'manager'".to_string())
    );
    assert_eq!(
        follower_from_lowercase("KDS"),
        Err("Invalid device type. Must be 'kds', 'bds', or 'manager'".to_string())
    );
}

#[test]
fn idle_client_is_disconnected_display() {
    let st = idle_client_status();
    assert!(!st.is_connected);
    assert_eq!(st.device_type, DeviceType::Kds);
}

#[test]
fn leader_and_followers_scenario() {
    // The leader starts for tenant t1.
    let mut server = LanServer::with_identity("t1".to_string(), "srv".to_string(), Some("192.168.0.10".to_string()), "t0".to_string());
    let address = server.start(None, None, "t1".to_string()).unwrap();
    assert_eq!(address, "ws://192.168.0.10:3847");

    // Client A registers as a kitchen display of t1.
    let mut a = LanClient::new(DeviceType::Kds, "t1".to_string());
    let (reply, ok) = server.register_client(&a.registration_frame(), "client-a".to_string(), "192.168.0.20".to_string(), "t2".to_string());
    assert!(ok);
    a.connect(address.clone(), Some(encode(&reply)), "t2".to_string()).unwrap();
    assert!(a.is_connected());

    // The leader publishes an order; A's sink sees it.
    let order = LanMessage::OrderCreated { order: "{\"id\":\"o1\"}".to_string(), kitchen_order: "{\"station\":\"grill\"}".to_string() };
    assert_eq!(server.broadcast(&order), Ok(1));
    let frames = server.take_outbound("client-a");
    assert_eq!(frames.len(), 1);
    match sink_message(&frames[0]) {
        Some(LanMessage::OrderCreated { order, .. }) => {
            let v: serde_json::Value = serde_json::from_str(&order).unwrap();
            assert_eq!(v["id"], "o1");
        }
        _ => panic!("expected an order"),
    }

    // Client B of another tenant is refused.
    let mut b = LanClient::new(DeviceType::Bds, "t2".to_string());
    let (reply, ok) = server.register_client(&b.registration_frame(), "client-b".to_string(), "192.168.0.21".to_string(), "t3".to_string());
    assert!(!ok);
    let err = b.connect(address.clone(), Some(encode(&reply)), "t3".to_string()).unwrap_err();
    assert!(err.contains("TENANT_MISMATCH"));
    assert_eq!(server.status().connected_clients.len(), 1);

    // A disconnects; the leader's count drops by one.
    a.disconnect().unwrap();
    server.remove_client("client-a");
    assert_eq!(server.status().connected_clients.len(), 0);

    // The leader stops.
    server.stop().unwrap();
    assert!(!server.status().is_running);
    assert!(!server.status().mdns_registered);
}
