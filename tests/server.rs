use lan_sync::registry::BACKLOG_CAPACITY;
use lan_sync::server::{idle_status, reply_to_frame, LanServer};
use lan_sync::types::{DeviceType, LanMessage, LAN_SYNC_PORT};
use lan_sync::wire::{decode, encode, Decoded};

fn register_frame(device_type: DeviceType, tenant: &str) -> String {
    encode(&LanMessage::Register { device_type, tenant_id: tenant.to_string() })
}

fn running_server(tenant: &str) -> LanServer {
    let mut s = LanServer::with_identity(
        tenant.to_string(),
        "server-1".to_string(),
        Some("192.168.1.5".to_string()),
        "t0".to_string(),
    );
    let addr = s.start(None, None, "t1".to_string()).unwrap();
    assert_eq!(addr, "ws://192.168.1.5:3847");
    s
}

#[test]
fn start_twice_is_refused() {
    let mut s = running_server("t1");
    assert_eq!(s.start(None, None, "t2".to_string()), Err("LAN server is already running".to_string()));
    assert!(s.is_running());
}

#[test]
fn failed_bind_or_advertisement_leaves_server_stopped() {
    let mut s = LanServer::with_identity("t1".to_string(), "s".to_string(), None, "t0".to_string());
    assert_eq!(s.start(Some("port in use".to_string()), None, "t".to_string()), Err("port in use".to_string()));
    assert!(!s.is_running());
    assert_eq!(s.start(None, Some("no daemon".to_string()), "t".to_string()), Err("no daemon".to_string()));
    assert!(!s.is_running());
    assert!(!s.status().mdns_registered);
    assert_eq!(s.start(None, None, "t".to_string()), Ok("ws://localhost:3847".to_string()));
}

#[test]
fn registration_reports_count_before_admission() {
    let mut s = running_server("t1");
    for (i, id) in ["a", "b", "c"].iter().enumerate() {
        let (reply, ok) = s.register_client(&register_frame(DeviceType::Kds, "t1"), id.to_string(), "10.0.0.2".to_string(), "now".to_string());
        assert!(ok);
        match reply {
            LanMessage::Registered { client_id, server_info } => {
                assert_eq!(client_id, *id);
                assert_eq!(server_info.connected_clients, i);
                assert_eq!(server_info.tenant_id, "t1");
                assert_eq!(server_info.server_id, "server-1");
                assert_eq!(server_info.server_time, "now");
            }
            _ => panic!("expected Registered"),
        }
        assert_eq!(s.client_count(), i + 1);
    }
    let st = s.status();
    assert_eq!(st.connected_clients.len(), 3);
    assert_eq!(st.connected_clients[1].client_id, "b");
    assert_eq!(st.connected_clients[1].device_type, DeviceType::Kds);
    assert_eq!(st.connected_clients[1].ip_address, "10.0.0.2");
}

#[test]
fn tenant_mismatch_is_rejected() {
    let mut s = running_server("t1");
    s.register_client(&register_frame(DeviceType::Kds, "t1"), "a".to_string(), "ip".to_string(), "n".to_string());
    for frame in [register_frame(DeviceType::Bds, "t2"), encode(&LanMessage::Ping), "garbage".to_string()] {
        let (reply, ok) = s.register_client(&frame, "b".to_string(), "ip".to_string(), "n".to_string());
        assert!(!ok);
        match reply {
            LanMessage::Error { message, code } => {
                assert_eq!(code, "TENANT_MISMATCH");
                assert_eq!(message, "Tenant ID mismatch");
            }
            _ => panic!("expected Error"),
        }
        assert_eq!(s.client_count(), 1);
    }
}

#[test]
fn stop_twice_leaves_same_state() {
    let mut s = running_server("t1");
    s.register_client(&register_frame(DeviceType::Kds, "t1"), "a".to_string(), "ip".to_string(), "n".to_string());
    assert_eq!(s.stop(), Ok(()));
    let first = s.status();
    assert_eq!(s.stop(), Ok(()));
    let second = s.status();
    assert!(!first.is_running && !second.is_running);
    assert!(!first.mdns_registered && !second.mdns_registered);
    assert_eq!(first.connected_clients.len(), 0);
    assert_eq!(second.connected_clients.len(), 0);
    assert_eq!(first.started_at, second.started_at);
}

#[test]
fn broadcast_reaches_every_session_in_order() {
    let mut s = running_server("t1");
    let ids = ["a", "b", "c", "d"];
    for id in ids {
        s.register_client(&register_frame(DeviceType::Bds, "t1"), id.to_string(), "ip".to_string(), "n".to_string());
    }
    let m1 = LanMessage::OrderStatusUpdate { order_id: "o1".to_string(), status: "ready".to_string(), updated_at: "u".to_string() };
    let m2 = LanMessage::SyncState { orders: vec!["{}".to_string()] };
    assert_eq!(s.broadcast(&m1), Ok(4));
    assert_eq!(s.broadcast(&m2), Ok(4));
    for id in ids {
        assert_eq!(s.take_outbound(id), vec![encode(&m1), encode(&m2)]);
        assert!(s.take_outbound(id).is_empty());
    }
}

#[test]
fn broadcast_without_server_running_fails() {
    let mut s = LanServer::with_identity("t1".to_string(), "s".to_string(), None, "t0".to_string());
    assert_eq!(s.broadcast(&LanMessage::Ping), Err("LAN server is not running".to_string()));
}

#[test]
fn lagging_session_drops_oldest() {
    let mut s = running_server("t1");
    s.register_client(&register_frame(DeviceType::Kds, "t1"), "slow".to_string(), "ip".to_string(), "n".to_string());
    for i in 0..(BACKLOG_CAPACITY + 2) {
        let m = LanMessage::OrderStatusUpdate { order_id: format!("o{}", i), status: "s".to_string(), updated_at: "u".to_string() };
        assert_eq!(s.broadcast(&m), Ok(1));
    }
    let out = s.take_outbound("slow");
    assert_eq!(out.len(), BACKLOG_CAPACITY);
    match decode(&out[0]) {
        Decoded::Known(LanMessage::OrderStatusUpdate { order_id, .. }) => assert_eq!(order_id, "o2"),
        _ => panic!("expected an update"),
    }
}

#[test]
fn removing_a_client_shrinks_the_registry() {
    let mut s = running_server("t1");
    s.register_client(&register_frame(DeviceType::Kds, "t1"), "a".to_string(), "ip".to_string(), "n".to_string());
    s.register_client(&register_frame(DeviceType::Kds, "t1"), "b".to_string(), "ip".to_string(), "n".to_string());
    assert!(s.remove_client("a"));
    assert!(!s.remove_client("a"));
    assert_eq!(s.status().connected_clients.len(), 1);
    assert_eq!(s.status().connected_clients[0].client_id, "b");
}

#[test]
fn ping_gets_pong() {
    assert_eq!(reply_to_frame(&encode(&LanMessage::Ping)), Some(encode(&LanMessage::Pong)));
    assert_eq!(reply_to_frame(&encode(&LanMessage::Pong)), None);
    assert_eq!(reply_to_frame("nonsense"), None);
}

#[test]
fn idle_status_reports_nothing_running() {
    let st = idle_status(Some("10.1.1.1".to_string()));
    assert!(!st.is_running);
    assert_eq!(st.port, LAN_SYNC_PORT);
    assert_eq!(st.ip_address, Some("10.1.1.1".to_string()));
    assert!(st.started_at.is_none());
}

#[test]
fn new_server_has_fresh_identity() {
    let a = LanServer::new("t1".to_string());
    assert!(!a.is_running());
    assert_eq!(a.client_count(), 0);
}

#[test]
fn admitted_connections_get_distinct_ids() {
    let mut s = running_server("t1");
    let (r1, ok1) = s.admit_connection(&register_frame(DeviceType::Kds, "t1"), "10.0.0.7".to_string());
    let (r2, ok2) = s.admit_connection(&register_frame(DeviceType::Bds, "t1"), "10.0.0.8".to_string());
    assert!(ok1 && ok2);
    let id1 = match r1 {
        LanMessage::Registered { client_id, server_info } => {
            assert_eq!(server_info.connected_clients, 0);
            client_id
        }
        _ => panic!("expected Registered"),
    };
    let id2 = match r2 {
        LanMessage::Registered { client_id, server_info } => {
            assert_eq!(server_info.connected_clients, 1);
            client_id
        }
        _ => panic!("expected Registered"),
    };
    assert_ne!(id1, id2);
    assert_eq!(s.client_count(), 2);
    let (r3, ok3) = s.admit_connection(&register_frame(DeviceType::Kds, "other"), "10.0.0.9".to_string());
    assert!(!ok3);
    assert!(matches!(r3, LanMessage::Error { .. }));
    assert_eq!(s.client_count(), 2);
}

#[test]
fn status_reports_port_and_distinct_ids() {
    let mut s = running_server("t1");
    for id in ["a", "b", "c"] {
        s.register_client(&register_frame(DeviceType::Kds, "t1"), id.to_string(), "ip".to_string(), "n".to_string());
    }
    let st = s.status();
    assert_eq!(st.port, 3847);
    assert!(st.is_running && st.mdns_registered);
    let mut ids: Vec<String> = st.connected_clients.iter().map(|c| c.client_id.clone()).collect();
    ids.sort();
    ids.dedup();
    assert_eq!(ids.len(), 3);
    assert!(s.remove_client("b"));
    let after = s.status();
    assert_eq!(after.connected_clients.len(), 2);
    assert!(after.connected_clients.iter().all(|c| c.client_id != "b"));
    assert!(!s.has_client("b"));
    assert!(s.has_client("a"));
}

#[test]
fn issued_ids_are_remembered() {
    let mut s = running_server("t1");
    let (r, ok) = s.admit_connection(&register_frame(DeviceType::Kds, "t1"), "10.0.0.7".to_string());
    assert!(ok);
    let id = match r {
        LanMessage::Registered { client_id, server_info } => {
            assert!(server_info.server_time.ends_with("+00:00"));
            client_id
        }
        _ => panic!("expected Registered"),
    };
    assert!(s.was_issued(&id));
    let info = s.client_info(&id).unwrap();
    assert_eq!(info.device_type, DeviceType::Kds);
    assert_eq!(info.ip_address, "10.0.0.7");
    assert!(s.remove_client(&id));
    assert!(s.client_info(&id).is_none());
    assert!(s.was_issued(&id));
    s.stop().unwrap();
    assert!(s.was_issued(&id));
}
