//! The follower: connection outcome, session state and inbound dispatch.

use vstd::prelude::*;
use crate::outside::{lower_of, lowercase, string_of};
use crate::text::chars_of;
use crate::text::{owned, push_str, text_eq};
use crate::types::{DeviceType, LanClientStatus, LanMessage, MessageView, ServerInfo, ServerInfoView};
use crate::wire::{decode, decode_text, encode, encoded, Decoded, DecodedView};

verus! {

/// Seconds between two keepalive pings.
pub const KEEPALIVE_INTERVAL_SECS: u64 = 30;

/// Mathematical view of a [`LanClient`].
pub struct ClientView {
    pub device_type: DeviceType,
    pub tenant_id: Seq<char>,
    pub client_id: Option<Seq<char>>,
    pub server_address: Option<Seq<char>>,
    pub server_info: Option<ServerInfoView>,
    pub connected: bool,
    pub connected_at: Option<Seq<char>>,
}

/// The state after a disconnect: nothing of the last session is kept.
pub open spec fn disconnected(v: ClientView) -> ClientView {
    ClientView {
        connected: false,
        client_id: None,
        server_address: None,
        server_info: None,
        connected_at: None,
        ..v
    }
}

/// `p` begins `s`.
pub open spec fn has_prefix(s: Seq<char>, p: Seq<char>) -> bool {
    p.len() <= s.len() && s.take(p.len() as int) == p
}

/// The URL of a server address: as it is when it names the scheme, else
/// after `ws://`.
pub open spec fn url_of(address: Seq<char>) -> Seq<char> {
    if has_prefix(address, "ws://"@) || has_prefix(address, "wss://"@) {
        address
    } else {
        "ws://"@ + address
    }
}

/// The error text for a registration the server refused.
pub open spec fn refusal_text(message: Seq<char>, code: Seq<char>) -> Seq<char> {
    "Registration failed: "@ + message + " ("@ + code + ")"@
}

/// Messages that are handed on to the local sink.
pub open spec fn forwarded(m: MessageView) -> bool {
    m is OrderCreated || m is OrderStatusUpdate || m is SyncState
}

/// A follower device type by its lower-case name.
pub open spec fn follower_named(s: Seq<char>) -> Option<DeviceType> {
    if s == "kds"@ {
        Some(DeviceType::Kds)
    } else if s == "bds"@ {
        Some(DeviceType::Bds)
    } else if s == "manager"@ {
        Some(DeviceType::Manager)
    } else {
        None
    }
}

/// The URL to open for a server address.
pub fn server_url(address: &str) -> (r: String)
    ensures
        r@ == url_of(address@),
{
    let a = chars_of(address);
    if starts_with(&a, "ws://") || starts_with(&a, "wss://") {
        string_of(&a)
    } else {
        let mut out: Vec<char> = Vec::new();
        push_str(&mut out, "ws://");
        push_str(&mut out, address);
        string_of(&out)
    }
}

fn starts_with(a: &Vec<char>, p: &str) -> (r: bool)
    ensures
        r == has_prefix(a@, p@),
{
    let v = chars_of(p);
    if v.len() > a.len() {
        return false;
    }
    let mut k: usize = 0;
    while k < v.len()
        invariant
            k <= v.len() <= a.len(),
            v@ == p@,
            a@.take(k as int) == v@.take(k as int),
        decreases v.len() - k,
    {
        if a[k] != v[k] {
            assert(a@.take(v.len() as int)[k as int] != v@[k as int]);
            return false;
        }
        k = k + 1;
        assert(a@.take(k as int) =~= v@.take(k as int));
    }
    assert(v@.take(k as int) =~= v@);
    true
}

/// The frame that a follower sends every keepalive interval.
pub fn ping_frame() -> (r: String)
    ensures
        r@ == encoded(MessageView::Ping),
{
    encode(&LanMessage::Ping)
}

/// The message of an inbound frame that goes on to the local sink: orders,
/// status updates and state syncs. Pongs, other kinds, unknown kinds and
/// malformed frames give nothing.
pub fn sink_message(frame: &str) -> (r: Option<LanMessage>)
    ensures
        match decode_text(frame@) {
            DecodedView::Known(m) => if forwarded(m) {
                r is Some && r->0@ == m
            } else {
                r is None
            },
            _ => r is None,
        },
{
    match decode(frame) {
        Decoded::Known(m) => match m {
            LanMessage::OrderCreated { .. } => Some(m),
            LanMessage::OrderStatusUpdate { .. } => Some(m),
            LanMessage::SyncState { .. } => Some(m),
            _ => None,
        },
        _ => None,
    }
}

/// The follower device type with a given lower-case name.
pub fn follower_from_lowercase(name: &str) -> (r: Result<DeviceType, String>)
    ensures
        match follower_named(name@) {
            Some(d) => r == Ok::<DeviceType, String>(d),
            None => r is Err && r->Err_0@
                == "Invalid device type. Must be 'kds', 'bds', or 'manager'"@,
        },
{
    if text_eq(name, "kds") {
        Ok(DeviceType::Kds)
    } else if text_eq(name, "bds") {
        Ok(DeviceType::Bds)
    } else if text_eq(name, "manager") {
        Ok(DeviceType::Manager)
    } else {
        Err(owned("Invalid device type. Must be 'kds', 'bds', or 'manager'"))
    }
}

/// The follower device type with a given name, in any case.
pub fn parse_follower_device(name: &str) -> (r: Result<DeviceType, String>)
    ensures
        match follower_named(lower_of(name@)) {
            Some(d) => r == Ok::<DeviceType, String>(d),
            None => r is Err && r->Err_0@
                == "Invalid device type. Must be 'kds', 'bds', or 'manager'"@,
        },
{
    let lower = lowercase(name);
    follower_from_lowercase(lower.as_str())
}

/// The status reported when no client exists.
pub fn idle_client_status() -> (r: LanClientStatus)
    ensures
        !r.is_connected,
        r.server_address is None,
        r.server_info is None,
        r.connected_at is None,
        r.device_type == DeviceType::Kds,
{
    LanClientStatus {
        is_connected: false,
        server_address: None,
        server_info: None,
        connected_at: None,
        device_type: DeviceType::Kds,
    }
}

/// A follower: its role, tenant and the state of its session.
pub struct LanClient {
    device_type: DeviceType,
    tenant_id: String,
    client_id: Option<String>,
    server_address: Option<String>,
    server_info: Option<ServerInfo>,
    connected: bool,
    connected_at: Option<String>,
}

impl View for LanClient {
    type V = ClientView;

    closed spec fn view(&self) -> ClientView {
        ClientView {
            device_type: self.device_type,
            tenant_id: self.tenant_id@,
            client_id: match self.client_id {
                Some(s) => Some(s@),
                None => None,
            },
            server_address: match self.server_address {
                Some(s) => Some(s@),
                None => None,
            },
            server_info: match self.server_info {
                Some(s) => Some(s@),
                None => None,
            },
            connected: self.connected,
            connected_at: match self.connected_at {
                Some(s) => Some(s@),
                None => None,
            },
        }
    }
}

fn copy_text(s: &Option<String>) -> (r: Option<String>)
    ensures
        match s {
            Some(x) => r is Some && r->0@ == x@,
            None => r is None,
        },
{
    match s {
        Some(x) => Some(x.clone()),
        None => None,
    }
}

fn copy_info(s: &Option<ServerInfo>) -> (r: Option<ServerInfo>)
    ensures
        match s {
            Some(x) => r is Some && r->0@ == x@,
            None => r is None,
        },
{
    match s {
        Some(x) => Some(
            ServerInfo {
                server_id: x.server_id.clone(),
                tenant_id: x.tenant_id.clone(),
                connected_clients: x.connected_clients,
                server_time: x.server_time.clone(),
            },
        ),
        None => None,
    }
}

impl LanClient {
    /// A disconnected client.
    pub fn new(device_type: DeviceType, tenant_id: String) -> (r: LanClient)
        ensures
            r@ == disconnected(
                ClientView {
                    device_type,
                    tenant_id: tenant_id@,
                    client_id: None,
                    server_address: None,
                    server_info: None,
                    connected: false,
                    connected_at: None,
                },
            ),
    {
        LanClient {
            device_type,
            tenant_id,
            client_id: None,
            server_address: None,
            server_info: None,
            connected: false,
            connected_at: None,
        }
    }

    /// Whether the client is connected.
    pub fn is_connected(&self) -> (r: bool)
        ensures
            r == self@.connected,
    {
        self.connected
    }

    /// Refuses a connection attempt while connected.
    pub fn can_connect(&self) -> (r: Result<(), String>)
        ensures
            r is Ok <==> !self@.connected,
            r is Err ==> r->Err_0@ == "Already connected to a server"@,
    {
        if self.connected {
            Err(owned("Already connected to a server"))
        } else {
            Ok(())
        }
    }

    /// The frame that registers this client with a server.
    pub fn registration_frame(&self) -> (r: String)
        ensures
            r@ == encoded(
                MessageView::Register { device_type: self@.device_type, tenant_id: self@.tenant_id },
            ),
    {
        encode(&LanMessage::Register { device_type: self.device_type, tenant_id: self.tenant_id.clone() })
    }

    /// Completes a connection on the server's one reply to the registration
    /// (`None` when none came in time). A `Registered` reply connects the
    /// client; an `Error` reply, no reply or any other reply fails the
    /// connection and changes nothing.
    pub fn connect(&mut self, server_address: String, reply: Option<String>, now: String) -> (r:
        Result<(), String>)
        ensures
            old(self)@.connected ==> r is Err && r->Err_0@ == "Already connected to a server"@
                && final(self)@ == old(self)@,
            !old(self)@.connected && reply is None ==> r is Err && r->Err_0@
                == "No response from server"@ && final(self)@ == old(self)@,
            !old(self)@.connected && reply is Some ==> match decode_text(reply->0@) {
                DecodedView::Known(MessageView::Registered { client_id, server_info }) => r is Ok
                    && final(self)@ == (ClientView {
                    connected: true,
                    client_id: Some(client_id),
                    server_info: Some(server_info),
                    server_address: Some(server_address@),
                    connected_at: Some(now@),
                    ..old(self)@
                }),
                DecodedView::Known(MessageView::Error { message, code }) => r is Err
                    && r->Err_0@ == refusal_text(message, code) && final(self)@ == old(self)@,
                _ => r is Err && r->Err_0@ == "Unexpected response from server"@
                    && final(self)@ == old(self)@,
            },
    {
        if self.connected {
            return Err(owned("Already connected to a server"));
        }
        let reply = match reply {
            Some(f) => f,
            None => return Err(owned("No response from server")),
        };
        match decode(reply.as_str()) {
            Decoded::Known(LanMessage::Registered { client_id, server_info }) => {
                self.client_id = Some(client_id);
                self.server_info = Some(server_info);
                self.server_address = Some(server_address);
                self.connected = true;
                self.connected_at = Some(now);
                Ok(())
            },
            Decoded::Known(LanMessage::Error { message, code }) => {
                let mut out: Vec<char> = Vec::new();
                push_str(&mut out, "Registration failed: ");
                push_str(&mut out, message.as_str());
                push_str(&mut out, " (");
                push_str(&mut out, code.as_str());
                push_str(&mut out, ")");
                Err(string_of(&out))
            },
            _ => Err(owned("Unexpected response from server")),
        }
    }

    /// Ends the session: signals the session loop and forgets the server.
    /// Disconnecting a disconnected client changes nothing.
    pub fn disconnect(&mut self) -> (r: Result<(), String>)
        ensures
            r is Ok,
            final(self)@ == disconnected(old(self)@),
    {
        self.connected = false;
        self.server_address = None;
        self.server_info = None;
        self.client_id = None;
        self.connected_at = None;
        Ok(())
    }

    /// Records that the session loop has ended, whatever the cause.
    pub fn session_ended(&mut self)
        ensures
            final(self)@ == (ClientView { connected: false, ..old(self)@ }),
    {
        self.connected = false;
    }

    /// A snapshot of the client's state.
    pub fn status(&self) -> (r: LanClientStatus)
        ensures
            r.is_connected == self@.connected,
            r.device_type == self@.device_type,
            match r.server_address {
                Some(s) => self@.server_address == Some(s@),
                None => self@.server_address is None,
            },
            match r.server_info {
                Some(s) => self@.server_info == Some(s@),
                None => self@.server_info is None,
            },
            match r.connected_at {
                Some(s) => self@.connected_at == Some(s@),
                None => self@.connected_at is None,
            },
    {
        LanClientStatus {
            is_connected: self.connected,
            server_address: copy_text(&self.server_address),
            server_info: copy_info(&self.server_info),
            connected_at: copy_text(&self.connected_at),
            device_type: self.device_type,
        }
    }
}

/// Disconnecting twice leaves the same state as disconnecting once.
pub proof fn lemma_disconnect_twice(v: ClientView)
    ensures
        disconnected(disconnected(v)) == disconnected(v),
{
}

} // verus!
