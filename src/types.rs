//! The data model: device roles, messages, server and client snapshots.

use vstd::prelude::*;

verus! {

/// Well-known TCP port of the leader's message transport.
pub const LAN_SYNC_PORT: u16 = 3847;

/// Role of a connecting peer.
#[derive(Debug, Clone, Copy, PartialEq, Eq, Structural)]
pub enum DeviceType {
    Pos,
    Kds,
    Bds,
    Manager,
}

/// Server information sent to a client on registration.
#[derive(Debug, Clone)]
pub struct ServerInfo {
    pub server_id: String,
    pub tenant_id: String,
    pub connected_clients: usize,
    pub server_time: String,
}

/// Mathematical view of [`ServerInfo`].
pub struct ServerInfoView {
    pub server_id: Seq<char>,
    pub tenant_id: Seq<char>,
    pub connected_clients: nat,
    pub server_time: Seq<char>,
}

impl View for ServerInfo {
    type V = ServerInfoView;

    open spec fn view(&self) -> ServerInfoView {
        ServerInfoView {
            server_id: self.server_id@,
            tenant_id: self.tenant_id@,
            connected_clients: self.connected_clients as nat,
            server_time: self.server_time@,
        }
    }
}


/// Information about a connected client, as reported by the server's status.
#[derive(Debug, Clone)]
pub struct ClientInfo {
    pub client_id: String,
    pub device_type: DeviceType,
    pub connected_at: String,
    pub ip_address: String,
}

/// Snapshot of the leader's state.
#[derive(Debug, Clone)]
pub struct LanServerStatus {
    pub is_running: bool,
    pub port: u16,
    pub ip_address: Option<String>,
    pub mdns_registered: bool,
    pub connected_clients: Vec<ClientInfo>,
    pub started_at: Option<String>,
}

/// Snapshot of a follower's state.
#[derive(Debug, Clone)]
pub struct LanClientStatus {
    pub is_connected: bool,
    pub server_address: Option<String>,
    pub server_info: Option<ServerInfo>,
    pub connected_at: Option<String>,
    pub device_type: DeviceType,
}

/// A leader found by service discovery.
#[derive(Debug, Clone)]
pub struct DiscoveredServer {
    pub name: String,
    pub ip_address: String,
    pub port: u16,
    pub tenant_id: Option<String>,
}

/// The closed set of messages exchanged between leader and followers.
///
/// Order payloads are JSON texts owned by the order-management side; this
/// layer carries them verbatim and never looks inside.
#[derive(Debug, Clone)]
pub enum LanMessage {
    OrderCreated { order: String, kitchen_order: String },
    OrderStatusUpdate { order_id: String, status: String, updated_at: String },
    SyncState { orders: Vec<String> },
    Ping,
    Pong,
    Register { device_type: DeviceType, tenant_id: String },
    Registered { client_id: String, server_info: ServerInfo },
    Error { message: String, code: String },
}

/// Mathematical view of [`LanMessage`].
pub enum MessageView {
    OrderCreated { order: Seq<char>, kitchen_order: Seq<char> },
    OrderStatusUpdate { order_id: Seq<char>, status: Seq<char>, updated_at: Seq<char> },
    SyncState { orders: Seq<Seq<char>> },
    Ping,
    Pong,
    Register { device_type: DeviceType, tenant_id: Seq<char> },
    Registered { client_id: Seq<char>, server_info: ServerInfoView },
    Error { message: Seq<char>, code: Seq<char> },
}

/// The character sequences held by a sequence of strings.
pub open spec fn texts(v: Seq<String>) -> Seq<Seq<char>> {
    v.map_values(|s: String| s@)
}

impl View for LanMessage {
    type V = MessageView;

    open spec fn view(&self) -> MessageView {
        match self {
            LanMessage::OrderCreated { order, kitchen_order } => MessageView::OrderCreated {
                order: order@,
                kitchen_order: kitchen_order@,
            },
            LanMessage::OrderStatusUpdate { order_id, status, updated_at } =>
                MessageView::OrderStatusUpdate {
                order_id: order_id@,
                status: status@,
                updated_at: updated_at@,
            },
            LanMessage::SyncState { orders } => MessageView::SyncState { orders: texts(orders@) },
            LanMessage::Ping => MessageView::Ping,
            LanMessage::Pong => MessageView::Pong,
            LanMessage::Register { device_type, tenant_id } => MessageView::Register {
                device_type: *device_type,
                tenant_id: tenant_id@,
            },
            LanMessage::Registered { client_id, server_info } => MessageView::Registered {
                client_id: client_id@,
                server_info: server_info@,
            },
            LanMessage::Error { message, code } => MessageView::Error {
                message: message@,
                code: code@,
            },
        }
    }
}

} // verus!
