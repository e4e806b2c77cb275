//! The leader: lifecycle, registration handshake, broadcast and status.

use vstd::prelude::*;
use crate::outside::{local_address, new_id, now_text, string_of, utc_stamp};
use crate::text::{owned, push_str};
use crate::registry::{admitted, has_id, id_index, published, without, ClientSession, Registry, SessionView};
use crate::types::{
    ClientInfo, DeviceType, LanMessage, LanServerStatus, MessageView, ServerInfo, ServerInfoView, texts,
    LAN_SYNC_PORT,
};
use crate::wire::{decimal, decode, encode, encoded, decode_text, Decoded, DecodedView};

verus! {

/// Mathematical view of a [`LanServer`].
pub struct ServerView {
    pub port: u16,
    pub tenant_id: Seq<char>,
    pub server_id: Seq<char>,
    pub sessions: Seq<SessionView>,
    pub running: bool,
    pub advertised: bool,
    pub started_at: Seq<char>,
    pub local_ip: Option<Seq<char>>,
    /// Every client id this server has handed out, in order.
    pub issued: Seq<Seq<char>>,
}

/// No two sessions have the same client id.
pub open spec fn distinct_ids(v: Seq<SessionView>) -> bool {
    forall|i: int, j: int|
        0 <= i < v.len() && 0 <= j < v.len() && i != j ==> v[i].client_id != v[j].client_id
}

/// Every session's id is among the issued ids.
pub open spec fn ids_recorded(v: Seq<SessionView>, issued: Seq<Seq<char>>) -> bool {
    forall|i: int| 0 <= i < v.len() ==> issued.contains(#[trigger] v[i].client_id)
}

proof fn lemma_recorded_admitted(v: Seq<SessionView>, s: SessionView, issued: Seq<Seq<char>>)
    requires
        ids_recorded(v, issued),
    ensures
        ids_recorded(admitted(v, s), issued.push(s.client_id)),
{
    let w = admitted(v, s);
    let is2 = issued.push(s.client_id);
    assert(is2[issued.len() as int] == s.client_id);
    assert forall|i: int| 0 <= i < w.len() implies is2.contains(#[trigger] w[i].client_id) by {
        if w[i].client_id != s.client_id {
            assert(w[i] == v[i]);
            let j = choose|j: int| 0 <= j < issued.len() && issued[j] == v[i].client_id;
            assert(is2[j] == issued[j]);
        }
    }
}

proof fn lemma_recorded_without(v: Seq<SessionView>, id: Seq<char>, issued: Seq<Seq<char>>)
    requires
        ids_recorded(v, issued),
    ensures
        ids_recorded(without(v, id), issued),
{
    if has_id(v, id) {
        let k = id_index(v, id);
        let w = without(v, id);
        assert forall|i: int| 0 <= i < w.len() implies issued.contains(#[trigger] w[i].client_id) by {
            if i < k {
                assert(w[i] == v[i]);
            } else {
                assert(w[i] == v[i + 1]);
            }
        }
    }
}

proof fn lemma_recorded_published(v: Seq<SessionView>, f: Seq<char>, issued: Seq<Seq<char>>)
    requires
        ids_recorded(v, issued),
    ensures
        ids_recorded(published(v, f), issued),
{
    let w = published(v, f);
    assert forall|i: int| 0 <= i < w.len() implies issued.contains(#[trigger] w[i].client_id) by {
        assert(w[i].client_id == v[i].client_id);
    }
}

/// What holds of every server: distinct session ids, the well-known port,
/// and an advertisement exactly while running.
pub open spec fn server_inv(v: ServerView) -> bool {
    &&& distinct_ids(v.sessions)
    &&& ids_recorded(v.sessions, v.issued)
    &&& v.port == LAN_SYNC_PORT
    &&& v.running == v.advertised
}

/// The reply that refuses a registration when no fresh client id was found.
pub open spec fn no_id_reply() -> MessageView {
    MessageView::Error { message: "No client id available"@, code: "CLIENT_ID_UNAVAILABLE"@ }
}

/// How many ids a connection may draw before it is refused.
pub const ID_ATTEMPTS: usize = 8;

/// The state after a stop: not running, not advertised, no sessions.
pub open spec fn stopped(v: ServerView) -> ServerView {
    ServerView { running: false, advertised: false, sessions: Seq::empty(), ..v }
}

/// The address at which followers reach the leader.
pub open spec fn address_text(v: ServerView) -> Seq<char> {
    "ws://"@ + match v.local_ip {
        Some(ip) => ip,
        None => "localhost"@,
    } + seq![':'] + decimal(v.port as nat)
}

/// The reply that rejects a registration.
pub open spec fn mismatch_reply() -> MessageView {
    MessageView::Error { message: "Tenant ID mismatch"@, code: "TENANT_MISMATCH"@ }
}

/// The first frame of a connection registers a device of the leader's tenant.
pub open spec fn registers_tenant(frame: Seq<char>, tenant: Seq<char>) -> bool {
    match decode_text(frame) {
        DecodedView::Known(MessageView::Register { tenant_id, .. }) => tenant_id == tenant,
        _ => false,
    }
}

/// The device type that a registration frame names.
pub open spec fn registered_device(frame: Seq<char>) -> DeviceType {
    match decode_text(frame) {
        DecodedView::Known(MessageView::Register { device_type, .. }) => device_type,
        _ => DeviceType::Kds,
    }
}

/// The leader: its identity, lifecycle and registry of sessions.
pub struct LanServer {
    port: u16,
    tenant_id: String,
    server_id: String,
    registry: Registry,
    running: bool,
    advertised: bool,
    started_at: String,
    local_ip: Option<String>,
    issued: Vec<String>,
}

impl View for LanServer {
    type V = ServerView;

    closed spec fn view(&self) -> ServerView {
        ServerView {
            port: self.port,
            tenant_id: self.tenant_id@,
            server_id: self.server_id@,
            sessions: self.registry@,
            running: self.running,
            advertised: self.advertised,
            started_at: self.started_at@,
            local_ip: match self.local_ip {
                Some(ip) => Some(ip@),
                None => None,
            },
            issued: texts(self.issued@),
        }
    }
}

fn copy_opt(s: &Option<String>) -> (r: Option<String>)
    ensures
        match s {
            Some(x) => r is Some && r->0@ == x@,
            None => r is None,
        },
{
    match s {
        Some(x) => Some(x.clone()),
        None => None,
    }
}

impl LanServer {
    /// The registry is well formed.
    pub closed spec fn wf(&self) -> bool {
        &&& self.registry.wf()
        &&& ids_recorded(self.registry@, texts(self.issued@))
        &&& self.port == LAN_SYNC_PORT
        &&& self.running == self.advertised
    }

    /// A well-formed server keeps the invariant.
    pub proof fn lemma_wf(&self)
        requires
            self.wf(),
        ensures
            server_inv(self@),
    {
    }

    /// Whether the registration frame registers a device of this tenant;
    /// the device type when it does.
    fn registration_of(&self, frame: &str) -> (r: Option<DeviceType>)
        ensures
            r is Some <==> registers_tenant(frame@, self@.tenant_id),
            r is Some ==> r->0 == registered_device(frame@),
    {
        match decode(frame) {
            Decoded::Known(LanMessage::Register { device_type, tenant_id }) => {
                if crate::text::text_eq(tenant_id.as_str(), self.tenant_id.as_str()) {
                    Some(device_type)
                } else {
                    None
                }
            },
            _ => None,
        }
    }

    /// Whether the client id was ever handed out by this server.
    pub fn was_issued(&self, client_id: &str) -> (r: bool)
        ensures
            r == self@.issued.contains(client_id@),
    {
        let mut k: usize = 0;
        while k < self.issued.len()
            invariant
                k <= self.issued.len(),
                forall|i: int| 0 <= i < k ==> self@.issued[i] != client_id@,
            decreases self.issued.len() - k,
        {
            if crate::text::text_eq(self.issued[k].as_str(), client_id) {
                assert(self@.issued[k as int] == client_id@);
                return true;
            }
            k = k + 1;
        }
        false
    }

    /// What the status reports of the session with the client id, if any.
    pub fn client_info(&self, client_id: &str) -> (r: Option<ClientInfo>)
        requires
            self.wf(),
        ensures
            match r {
                Some(c) => has_id(self@.sessions, client_id@) && crate::registry::info_matches(
                    c,
                    self@.sessions[id_index(self@.sessions, client_id@)],
                ),
                None => !has_id(self@.sessions, client_id@),
            },
    {
        self.registry.info_of(client_id)
    }

    /// Whether a session has the client id.
    pub fn has_client(&self, client_id: &str) -> (r: bool)
        requires
            self.wf(),
        ensures
            r == has_id(self@.sessions, client_id@),
    {
        self.registry.contains(client_id)
    }

    /// A stopped server with the given identity.
    pub fn with_identity(
        tenant_id: String,
        server_id: String,
        local_ip: Option<String>,
        now: String,
    ) -> (r: LanServer)
        ensures
            r.wf(),
            r@.port == LAN_SYNC_PORT,
            r@.tenant_id == tenant_id@,
            r@.server_id == server_id@,
            r@.sessions == Seq::<SessionView>::empty(),
            !r@.running,
            !r@.advertised,
            r@.started_at == now@,
            r@.local_ip == (match local_ip {
                Some(ip) => Some(ip@),
                None => None::<Seq<char>>,
            }),
            r@.issued == Seq::<Seq<char>>::empty(),
    {
        let ghost none: Seq<String> = Seq::empty();
        assert(texts(none) =~= Seq::<Seq<char>>::empty());
        LanServer {
            port: LAN_SYNC_PORT,
            tenant_id,
            server_id,
            registry: Registry::new(),
            running: false,
            advertised: false,
            started_at: now,
            local_ip,
            issued: Vec::new(),
        }
    }

    /// A stopped server for the tenant, with a fresh server id.
    pub fn new(tenant_id: String) -> (r: LanServer)
        ensures
            r.wf(),
            r@.port == LAN_SYNC_PORT,
            r@.tenant_id == tenant_id@,
            r@.sessions == Seq::<SessionView>::empty(),
            !r@.running,
            !r@.advertised,
            r@.issued == Seq::<Seq<char>>::empty(),
            utc_stamp(r@.started_at),
    {
        let server_id = new_id();
        let local_ip = local_address();
        let now = now_text();
        LanServer::with_identity(tenant_id, server_id, local_ip, now)
    }

    /// The server id advertised to followers.
    pub fn server_id(&self) -> (r: &String)
        ensures
            r@ == self@.server_id,
    {
        &self.server_id
    }

    /// The tenant this server serves.
    pub fn tenant_id(&self) -> (r: &String)
        ensures
            r@ == self@.tenant_id,
    {
        &self.tenant_id
    }

    /// Whether the server is running.
    pub fn is_running(&self) -> (r: bool)
        ensures
            r == self@.running,
    {
        self.running
    }

    /// The number of registered sessions.
    pub fn client_count(&self) -> (r: usize)
        ensures
            r == self@.sessions.len(),
    {
        self.registry.len()
    }

    /// The address at which followers reach the leader.
    pub fn address(&self) -> (r: String)
        ensures
            r@ == address_text(self@),
    {
        let mut out: Vec<char> = Vec::new();
        push_str(&mut out, "ws://");
        match &self.local_ip {
            Some(ip) => push_str(&mut out, ip.as_str()),
            None => push_str(&mut out, "localhost"),
        }
        out.push(':');
        crate::wire::push_decimal(&mut out, self.port as u64);
        assert(out@ =~= address_text(self@));
        string_of(&out)
    }

    /// Moves to running once the port is bound and the service advertised;
    /// `bind_error` and `advertise_error` carry what went wrong in either
    /// step. Returns the address, or an error with nothing changed.
    pub fn start(
        &mut self,
        bind_error: Option<String>,
        advertise_error: Option<String>,
        now: String,
    ) -> (r: Result<String, String>)
        requires
            old(self).wf(),
        ensures
            final(self).wf(),
            old(self)@.running ==> r is Err && r->Err_0@ == "LAN server is already running"@
                && final(self)@ == old(self)@,
            !old(self)@.running && bind_error is Some ==> r is Err && r->Err_0@
                == bind_error->0@ && final(self)@ == old(self)@,
            !old(self)@.running && bind_error is None && advertise_error is Some ==> r is Err
                && r->Err_0@ == advertise_error->0@ && final(self)@ == old(self)@,
            !old(self)@.running && bind_error is None && advertise_error is None ==> r is Ok
                && final(self)@ == (ServerView {
                running: true,
                advertised: true,
                started_at: now@,
                ..old(self)@
            }) && r->Ok_0@ == address_text(final(self)@),
    {
        if self.running {
            return Err(owned("LAN server is already running"));
        }
        if let Some(e) = bind_error {
            return Err(e);
        }
        if let Some(e) = advertise_error {
            return Err(e);
        }
        self.running = true;
        self.advertised = true;
        self.started_at = now;
        Ok(self.address())
    }

    /// Stops the server: withdraws the advertisement and ends every session.
    /// Stopping a stopped server changes nothing.
    pub fn stop(&mut self) -> (r: Result<(), String>)
        requires
            old(self).wf(),
        ensures
            final(self).wf(),
            r is Ok,
            final(self)@ == stopped(old(self)@),
    {
        self.running = false;
        self.advertised = false;
        self.registry.clear();
        assert(self@ == stopped(old(self)@));
        Ok(())
    }

    /// Publishes a message to every session; the number of sessions.
    pub fn broadcast(&mut self, m: &LanMessage) -> (r: Result<usize, String>)
        requires
            old(self).wf(),
        ensures
            final(self).wf(),
            !old(self)@.running ==> r is Err && r->Err_0@ == "LAN server is not running"@
                && final(self)@ == old(self)@,
            old(self)@.running ==> r is Ok && r->Ok_0 == old(self)@.sessions.len(),
            old(self)@.running ==> final(self)@ == (ServerView {
                sessions: published(old(self)@.sessions, encoded(m@)),
                ..old(self)@
            }),
    {
        if !self.running {
            return Err(owned("LAN server is not running"));
        }
        let frame = encode(m);
        let n = self.registry.publish(&frame);
        Ok(n)
    }

    /// The registration handshake on a connection's first frame.
    ///
    /// A `Register` of the leader's tenant is answered with `Registered`,
    /// whose count is the number of sessions before this one, and the
    /// session is then admitted. Anything else is answered with a
    /// `TENANT_MISMATCH` error and admits nothing.
    pub fn register_client(
        &mut self,
        frame: &str,
        client_id: String,
        ip_address: String,
        now: String,
    ) -> (r: (LanMessage, bool))
        requires
            old(self).wf(),
        ensures
            final(self).wf(),
            r.1 == registers_tenant(frame@, old(self)@.tenant_id),
            r.1 ==> r.0@ == (MessageView::Registered {
                client_id: client_id@,
                server_info: ServerInfoView {
                    server_id: old(self)@.server_id,
                    tenant_id: old(self)@.tenant_id,
                    connected_clients: old(self)@.sessions.len(),
                    server_time: now@,
                },
            }) && final(self)@ == (ServerView {
                sessions: admitted(
                    old(self)@.sessions,
                    SessionView {
                        client_id: client_id@,
                        device_type: registered_device(frame@),
                        connected_at: now@,
                        ip_address: ip_address@,
                        backlog: Seq::empty(),
                    },
                ),
                issued: old(self)@.issued.push(client_id@),
                ..old(self)@
            }),
            r.1 && !has_id(old(self)@.sessions, client_id@) ==> final(self)@.sessions
                == old(self)@.sessions.push(
                SessionView {
                    client_id: client_id@,
                    device_type: registered_device(frame@),
                    connected_at: now@,
                    ip_address: ip_address@,
                    backlog: Seq::empty(),
                },
            ) && final(self)@.sessions.len() == old(self)@.sessions.len() + 1,
            !r.1 ==> r.0@ == mismatch_reply() && final(self)@ == old(self)@,
    {
        let device_type = match self.registration_of(frame) {
            Some(d) => d,
            None => return (mismatch_message(), false),
        };
        let info = ServerInfo {
            server_id: self.server_id.clone(),
            tenant_id: self.tenant_id.clone(),
            connected_clients: self.registry.len(),
            server_time: now.clone(),
        };
        let reply = LanMessage::Registered { client_id: client_id.clone(), server_info: info };
        let recorded = client_id.clone();
        let session = ClientSession::new(client_id, device_type, now, ip_address);
        let ghost sv = session@;
        self.registry.insert(session);
        self.issued.push(recorded);
        proof {
            lemma_recorded_admitted(old(self).registry@, sv, texts(old(self).issued@));
            assert(texts(self.issued@) =~= texts(old(self).issued@).push(recorded@));
        }
        (reply, true)
    }

    /// The registration handshake with a fresh client id, stamped with the
    /// current time. Ids are drawn until one is not in use, at most
    /// `ID_ATTEMPTS` times; if none is found the connection is refused and
    /// nothing changes.
    pub fn admit_connection(&mut self, frame: &str, ip_address: String) -> (r: (LanMessage, bool))
        requires
            old(self).wf(),
        ensures
            final(self).wf(),
            r.1 ==> registers_tenant(frame@, old(self)@.tenant_id),
            !registers_tenant(frame@, old(self)@.tenant_id) ==> r.0@ == mismatch_reply()
                && final(self)@ == old(self)@,
            registers_tenant(frame@, old(self)@.tenant_id) && !r.1 ==> r.0@ == no_id_reply()
                && final(self)@ == old(self)@,
            registers_tenant(frame@, old(self)@.tenant_id) && old(self)@.issued.len() == 0 ==> r.1,
            r.1 ==> match r.0@ {
                MessageView::Registered { client_id, server_info } => {
                    &&& !old(self)@.issued.contains(client_id)
                    &&& !has_id(old(self)@.sessions, client_id)
                    &&& server_info.server_id == old(self)@.server_id
                    &&& server_info.tenant_id == old(self)@.tenant_id
                    &&& server_info.connected_clients == old(self)@.sessions.len()
                    &&& utc_stamp(server_info.server_time)
                    &&& final(self)@ == (ServerView {
                        sessions: old(self)@.sessions.push(
                            SessionView {
                                client_id,
                                device_type: registered_device(frame@),
                                connected_at: server_info.server_time,
                                ip_address: ip_address@,
                                backlog: Seq::empty(),
                            },
                        ),
                        issued: old(self)@.issued.push(client_id),
                        ..old(self)@
                    })
                    &&& final(self)@.sessions.len() == old(self)@.sessions.len() + 1
                },
                _ => false,
            },
    {
        if self.registration_of(frame).is_none() {
            return (mismatch_message(), false);
        }
        let mut k: usize = 0;
        while k < ID_ATTEMPTS
            invariant
                self.wf(),
                self@ == old(self)@,
                registers_tenant(frame@, self@.tenant_id),
                self@.issued.len() == 0 ==> k == 0,
            decreases ID_ATTEMPTS - k,
        {
            let client_id = new_id();
            if !self.was_issued(client_id.as_str()) {
                proof {
                    if has_id(self@.sessions, client_id@) {
                        let i = id_index(self@.sessions, client_id@);
                        assert(self@.issued.contains(self@.sessions[i].client_id));
                    }
                }
                let now = now_text();
                return self.register_client(frame, client_id, ip_address, now);
            }
            k = k + 1;
        }
        (no_id_message(), false)
    }

    /// Ends the session with the id; whether there was one.
    pub fn remove_client(&mut self, client_id: &str) -> (r: bool)
        requires
            old(self).wf(),
        ensures
            final(self).wf(),
            r == has_id(old(self)@.sessions, client_id@),
            final(self)@ == (ServerView {
                sessions: without(old(self)@.sessions, client_id@),
                ..old(self)@
            }),
            !has_id(final(self)@.sessions, client_id@),
            final(self)@.sessions.len() == if r {
                old(self)@.sessions.len() - 1
            } else {
                old(self)@.sessions.len() as int
            },
    {
        self.registry.remove(client_id)
    }

    /// Takes the frames waiting for a session, oldest first.
    pub fn take_outbound(&mut self, client_id: &str) -> (r: Vec<String>)
        requires
            old(self).wf(),
        ensures
            final(self).wf(),
            has_id(old(self)@.sessions, client_id@) ==> texts(r@) == old(self)@.sessions[id_index(
                old(self)@.sessions,
                client_id@,
            )].backlog && final(self)@ == (ServerView {
                sessions: old(self)@.sessions.update(
                    id_index(old(self)@.sessions, client_id@),
                    SessionView {
                        backlog: Seq::empty(),
                        ..old(self)@.sessions[id_index(old(self)@.sessions, client_id@)]
                    },
                ),
                ..old(self)@
            }),
            !has_id(old(self)@.sessions, client_id@) ==> r@.len() == 0 && final(self)@ == old(
                self,
            )@,
    {
        self.registry.take_outbound(client_id)
    }

    /// A snapshot of the server's state.
    pub fn status(&self) -> (r: LanServerStatus)
        requires
            self.wf(),
        ensures
            r.is_running == self@.running,
            r.port == self@.port,
            r.mdns_registered == self@.advertised,
            match r.ip_address {
                Some(ip) => self@.local_ip == Some(ip@),
                None => self@.local_ip is None,
            },
            r.started_at is Some && r.started_at->0@ == self@.started_at,
            r.port == LAN_SYNC_PORT,
            r.is_running == r.mdns_registered,
            r.connected_clients@.len() == self@.sessions.len(),
            forall|i: int, j: int|
                0 <= i < r.connected_clients@.len() && 0 <= j < r.connected_clients@.len() && i
                    != j ==> r.connected_clients@[i].client_id@ != r.connected_clients@[j].client_id@,
            forall|i: int|
                0 <= i < r.connected_clients@.len() ==> crate::registry::info_matches(
                    #[trigger] r.connected_clients@[i],
                    self@.sessions[i],
                ),
    {
        LanServerStatus {
            is_running: self.running,
            port: self.port,
            ip_address: copy_opt(&self.local_ip),
            mdns_registered: self.advertised,
            connected_clients: self.registry.infos(),
            started_at: Some(self.started_at.clone()),
        }
    }
}

fn no_id_message() -> (r: LanMessage)
    ensures
        r@ == no_id_reply(),
{
    LanMessage::Error { message: owned("No client id available"), code: owned("CLIENT_ID_UNAVAILABLE") }
}

fn mismatch_message() -> (r: LanMessage)
    ensures
        r@ == mismatch_reply(),
{
    LanMessage::Error {
        message: owned("Tenant ID mismatch"),
        code: owned("TENANT_MISMATCH"),
    }
}

/// The leader's answer to a frame from a registered session: a `Pong` to a
/// `Ping`, nothing to anything else.
pub fn reply_to_frame(frame: &str) -> (r: Option<String>)
    ensures
        r is Some <==> decode_text(frame@) == DecodedView::Known(MessageView::Ping),
        r is Some ==> r->0@ == encoded(MessageView::Pong),
{
    match decode(frame) {
        Decoded::Known(LanMessage::Ping) => Some(encode(&LanMessage::Pong)),
        _ => None,
    }
}

/// The status reported when no server exists.
pub fn idle_status(local_ip: Option<String>) -> (r: LanServerStatus)
    ensures
        !r.is_running,
        r.port == LAN_SYNC_PORT,
        !r.mdns_registered,
        r.ip_address == local_ip,
        r.connected_clients@.len() == 0,
        r.started_at is None,
{
    LanServerStatus {
        is_running: false,
        port: LAN_SYNC_PORT,
        ip_address: local_ip,
        mdns_registered: false,
        connected_clients: Vec::new(),
        started_at: None,
    }
}

/// Stopping twice leaves the same state as stopping once.
pub proof fn lemma_stop_twice(v: ServerView)
    ensures
        stopped(stopped(v)) == stopped(v),
{
}

} // verus!
