use lan_sync::types::{DeviceType, LanMessage, ServerInfo};
use lan_sync::wire::{decode, encode, Decoded};

fn round_trip(m: &LanMessage) -> LanMessage {
    match decode(&encode(m)) {
        Decoded::Known(back) => back,
        Decoded::UnknownKind => panic!("unknown kind"),
        Decoded::Malformed => panic!("malformed"),
    }
}

#[test]
fn ping_has_its_wire_form() {
    assert_eq!(encode(&LanMessage::Ping), "{\"type\":\"ping\"}");
    assert_eq!(encode(&LanMessage::Pong), "{\"type\":\"pong\"}");
}

#[test]
fn register_has_its_wire_form() {
    let m = LanMessage::Register { device_type: DeviceType::Kds, tenant_id: "t1".to_string() };
    assert_eq!(encode(&m), "{\"type\":\"register\",\"device_type\":\"kds\",\"tenant_id\":\"t1\"}");
}

#[test]
fn registered_has_its_wire_form() {
    let m = LanMessage::Registered {
        client_id: "c".to_string(),
        server_info: ServerInfo {
            server_id: "s".to_string(),
            tenant_id: "t".to_string(),
            connected_clients: 120,
            server_time: "now".to_string(),
        },
    };
    assert_eq!(
        encode(&m),
        "{\"type\":\"registered\",\"client_id\":\"c\",\"server_info\":{\"serverId\":\"s\",\"tenantId\":\"t\",\"connectedClients\":120,\"serverTime\":\"now\"}}"
    );
}

#[test]
fn texts_are_escaped() {
    let m = LanMessage::Error { message: "a\"b\\c\nd\te\r".to_string(), code: "X".to_string() };
    assert_eq!(
        encode(&m),
        "{\"type\":\"error\",\"message\":\"a\\\"b\\\\c\\nd\\te\\r\",\"code\":\"X\"}"
    );
}

#[test]
fn every_kind_round_trips() {
    let order = "{\"id\":\"o1\",\"items\":[1,2]}".to_string();
    let m = round_trip(&LanMessage::OrderCreated { order: order.clone(), kitchen_order: "{}".to_string() });
    match m {
        LanMessage::OrderCreated { order: o, kitchen_order: k } => {
            assert_eq!(o, order);
            assert_eq!(k, "{}");
        }
        _ => panic!("wrong kind"),
    }
    match round_trip(&LanMessage::OrderStatusUpdate {
        order_id: "o1".to_string(),
        status: "ready".to_string(),
        updated_at: "2024-01-01T00:00:00+00:00".to_string(),
    }) {
        LanMessage::OrderStatusUpdate { order_id, status, updated_at } => {
            assert_eq!(order_id, "o1");
            assert_eq!(status, "ready");
            assert_eq!(updated_at, "2024-01-01T00:00:00+00:00");
        }
        _ => panic!("wrong kind"),
    }
    for orders in [vec![], vec!["{\"a\":1}".to_string()], vec!["x".to_string(), "y,]".to_string(), "".to_string()]] {
        match round_trip(&LanMessage::SyncState { orders: orders.clone() }) {
            LanMessage::SyncState { orders: back } => assert_eq!(back, orders),
            _ => panic!("wrong kind"),
        }
    }
    assert!(matches!(round_trip(&LanMessage::Ping), LanMessage::Ping));
    assert!(matches!(round_trip(&LanMessage::Pong), LanMessage::Pong));
    for d in [DeviceType::Pos, DeviceType::Kds, DeviceType::Bds, DeviceType::Manager] {
        match round_trip(&LanMessage::Register { device_type: d, tenant_id: "tenant \"q\"".to_string() }) {
            LanMessage::Register { device_type, tenant_id } => {
                assert_eq!(device_type, d);
                assert_eq!(tenant_id, "tenant \"q\"");
            }
            _ => panic!("wrong kind"),
        }
    }
    for n in [0usize, 7, 10, 99, 1000, usize::MAX] {
        let info = ServerInfo {
            server_id: "sid".to_string(),
            tenant_id: "tid".to_string(),
            connected_clients: n,
            server_time: "t".to_string(),
        };
        match round_trip(&LanMessage::Registered { client_id: "cid".to_string(), server_info: info }) {
            LanMessage::Registered { client_id, server_info } => {
                assert_eq!(client_id, "cid");
                assert_eq!(server_info.server_id, "sid");
                assert_eq!(server_info.tenant_id, "tid");
                assert_eq!(server_info.connected_clients, n);
                assert_eq!(server_info.server_time, "t");
            }
            _ => panic!("wrong kind"),
        }
    }
    match round_trip(&LanMessage::Error { message: "m\\".to_string(), code: "C".to_string() }) {
        LanMessage::Error { message, code } => {
            assert_eq!(message, "m\\");
            assert_eq!(code, "C");
        }
        _ => panic!("wrong kind"),
    }
}

#[test]
fn unknown_kind_is_ignored() {
    assert!(matches!(decode("{\"type\":\"order_deleted\",\"order_id\":\"o1\"}"), Decoded::UnknownKind));
}

#[test]
fn malformed_frames_are_rejected() {
    assert!(matches!(decode(""), Decoded::Malformed));
    assert!(matches!(decode("{\"type\":\"ping\"} "), Decoded::Malformed));
    assert!(matches!(decode("{\"type\":\"ping\""), Decoded::Malformed));
    assert!(matches!(decode("{\"kind\":\"ping\"}"), Decoded::Malformed));
    assert!(matches!(decode("{\"type\":\"register\",\"device_type\":\"oven\",\"tenant_id\":\"t\"}"), Decoded::Malformed));
    assert!(matches!(
        decode("{\"type\":\"registered\",\"client_id\":\"c\",\"server_info\":{\"serverId\":\"s\",\"tenantId\":\"t\",\"connectedClients\":007,\"serverTime\":\"n\"}}"),
        Decoded::Malformed
    ));
    assert!(matches!(
        decode("{\"type\":\"registered\",\"client_id\":\"c\",\"server_info\":{\"serverId\":\"s\",\"tenantId\":\"t\",\"connectedClients\":99999999999999999999999,\"serverTime\":\"n\"}}"),
        Decoded::Malformed
    ));
}

#[test]
fn device_types_have_wire_names() {
    assert_eq!(DeviceType::Pos.name(), "pos");
    assert_eq!(DeviceType::Kds.name(), "kds");
    assert_eq!(DeviceType::Bds.name(), "bds");
    assert_eq!(DeviceType::Manager.name(), "manager");
}

#[test]
fn other_control_characters_use_unicode_escapes() {
    let m = LanMessage::Error { message: "a\u{1}b\u{1f}".to_string(), code: "\u{0}".to_string() };
    assert_eq!(
        encode(&m),
        "{\"type\":\"error\",\"message\":\"a\\u0001b\\u001f\",\"code\":\"\\u0000\"}"
    );
    match round_trip(&m) {
        LanMessage::Error { message, code } => {
            assert_eq!(message, "a\u{1}b\u{1f}");
            assert_eq!(code, "\u{0}");
        }
        _ => panic!("wrong kind"),
    }
}

#[test]
fn non_canonical_escapes_are_rejected() {
    assert!(matches!(decode("{\"type\":\"error\",\"message\":\"\\u001F\",\"code\":\"c\"}"), Decoded::Malformed));
    assert!(matches!(decode("{\"type\":\"error\",\"message\":\"\\u000a\",\"code\":\"c\"}"), Decoded::Malformed));
    assert!(matches!(decode("{\"type\":\"error\",\"message\":\"\\u0041\",\"code\":\"c\"}"), Decoded::Malformed));
    assert!(matches!(decode("{\"type\":\"error\",\"message\":\"\u{1}\",\"code\":\"c\"}"), Decoded::Malformed));
}
