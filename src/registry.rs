//! The registry of connected sessions and the broadcast bus that fans a
//! frame out to every session's bounded queue.

use vstd::prelude::*;
use crate::text::text_eq;
use crate::types::{ClientInfo, DeviceType, texts};

verus! {

/// How many undelivered frames a session may hold; beyond it the oldest is
/// dropped, so that publishing never waits on a slow subscriber.
pub const BACKLOG_CAPACITY: usize = 1000;

/// A connected, registered client and its outbound queue.
pub struct ClientSession {
    pub client_id: String,
    pub device_type: DeviceType,
    pub connected_at: String,
    pub ip_address: String,
    pub backlog: Vec<String>,
}

/// Mathematical view of a [`ClientSession`].
pub struct SessionView {
    pub client_id: Seq<char>,
    pub device_type: DeviceType,
    pub connected_at: Seq<char>,
    pub ip_address: Seq<char>,
    pub backlog: Seq<Seq<char>>,
}

impl View for ClientSession {
    type V = SessionView;

    open spec fn view(&self) -> SessionView {
        SessionView {
            client_id: self.client_id@,
            device_type: self.device_type,
            connected_at: self.connected_at@,
            ip_address: self.ip_address@,
            backlog: texts(self.backlog@),
        }
    }
}

impl ClientSession {
    /// A session with an empty outbound queue.
    pub fn new(
        client_id: String,
        device_type: DeviceType,
        connected_at: String,
        ip_address: String,
    ) -> (r: ClientSession)
        ensures
            r@ == (SessionView {
                client_id: client_id@,
                device_type,
                connected_at: connected_at@,
                ip_address: ip_address@,
                backlog: Seq::empty(),
            }),
    {
        let r = ClientSession { client_id, device_type, connected_at, ip_address, backlog: Vec::new() };
        assert(texts(r.backlog@) =~= Seq::<Seq<char>>::empty());
        r
    }
}

/// The queue after one more frame, the oldest dropped when it is full.
pub open spec fn bounded_push(q: Seq<Seq<char>>, f: Seq<char>) -> Seq<Seq<char>> {
    if q.len() >= BACKLOG_CAPACITY {
        q.drop_first().push(f)
    } else {
        q.push(f)
    }
}

/// The sessions after `f` is published to each of them.
pub open spec fn published(v: Seq<SessionView>, f: Seq<char>) -> Seq<SessionView> {
    Seq::new(
        v.len(),
        |i: int| SessionView { backlog: bounded_push(v[i].backlog, f), ..v[i] },
    )
}

/// The sessions after the frames `fs` are published, in order.
pub open spec fn published_all(v: Seq<SessionView>, fs: Seq<Seq<char>>) -> Seq<SessionView>
    decreases fs.len(),
{
    if fs.len() == 0 {
        v
    } else {
        published_all(published(v, fs[0]), fs.drop_first())
    }
}

/// Some session has the id.
pub open spec fn has_id(v: Seq<SessionView>, id: Seq<char>) -> bool {
    exists|k: int| 0 <= k < v.len() && v[k].client_id == id
}

/// The position of the session with the id.
pub open spec fn id_index(v: Seq<SessionView>, id: Seq<char>) -> int {
    choose|k: int| 0 <= k < v.len() && v[k].client_id == id
}

/// The sessions after `s` is admitted: it takes the place of a session with
/// the same id, or comes last.
pub open spec fn admitted(v: Seq<SessionView>, s: SessionView) -> Seq<SessionView> {
    if has_id(v, s.client_id) {
        v.update(id_index(v, s.client_id), s)
    } else {
        v.push(s)
    }
}

/// The sessions after the one with the id leaves.
pub open spec fn without(v: Seq<SessionView>, id: Seq<char>) -> Seq<SessionView> {
    if has_id(v, id) {
        v.remove(id_index(v, id))
    } else {
        v
    }
}

/// What the status reports of a session.
pub open spec fn info_matches(c: ClientInfo, s: SessionView) -> bool {
    c.client_id@ == s.client_id && c.device_type == s.device_type && c.connected_at@
        == s.connected_at && c.ip_address@ == s.ip_address
}

/// The table of currently connected sessions.
pub struct Registry {
    sessions: Vec<ClientSession>,
}

impl View for Registry {
    type V = Seq<SessionView>;

    closed spec fn view(&self) -> Seq<SessionView> {
        self.sessions@.map_values(|s: ClientSession| s@)
    }
}

impl Registry {
    /// Ids are unique and no queue is over capacity.
    pub open spec fn wf(&self) -> bool {
        &&& forall|i: int, j: int|
            0 <= i < self@.len() && 0 <= j < self@.len() && i != j ==> self@[i].client_id
                != self@[j].client_id
        &&& forall|i: int| 0 <= i < self@.len() ==> self@[i].backlog.len() <= BACKLOG_CAPACITY
    }

    /// An empty registry.
    pub fn new() -> (r: Registry)
        ensures
            r.wf(),
            r@ == Seq::<SessionView>::empty(),
    {
        let r = Registry { sessions: Vec::new() };
        assert(r@ =~= Seq::<SessionView>::empty());
        r
    }

    /// The number of sessions.
    pub fn len(&self) -> (r: usize)
        ensures
            r == self@.len(),
    {
        self.sessions.len()
    }

    /// The position of the session with the id, if any.
    pub fn find(&self, id: &str) -> (r: Option<usize>)
        requires
            self.wf(),
        ensures
            match r {
                Some(k) => has_id(self@, id@) && k == id_index(self@, id@),
                None => !has_id(self@, id@),
            },
    {
        let mut k: usize = 0;
        while k < self.sessions.len()
            invariant
                self.wf(),
                k <= self.sessions.len(),
                forall|m: int| 0 <= m < k ==> self@[m].client_id != id@,
            decreases self.sessions.len() - k,
        {
            if text_eq(self.sessions[k].client_id.as_str(), id) {
                assert(self@[k as int].client_id == id@);
                assert(has_id(self@, id@));
                let ghost c = id_index(self@, id@);
                assert(self@[c].client_id == id@);
                assert(c == k);
                return Some(k);
            }
            k = k + 1;
        }
        None
    }

    /// Whether a session has the id.
    pub fn contains(&self, id: &str) -> (r: bool)
        requires
            self.wf(),
        ensures
            r == has_id(self@, id@),
    {
        self.find(id).is_some()
    }

    /// Inserts a session.
    pub fn insert(&mut self, s: ClientSession)
        requires
            old(self).wf(),
            s@.backlog.len() <= BACKLOG_CAPACITY,
        ensures
            final(self).wf(),
            final(self)@ == admitted(old(self)@, s@),
    {
        let ghost sv = s@;
        match self.find(s.client_id.as_str()) {
            Some(k) => {
                self.sessions.set(k, s);
                assert(self@ =~= old(self)@.update(k as int, sv));
            },
            None => {
                self.sessions.push(s);
                assert(self@ =~= old(self)@.push(sv));
            },
        }
    }

    /// Removes the session with the id; whether there was one.
    pub fn remove(&mut self, id: &str) -> (r: bool)
        requires
            old(self).wf(),
        ensures
            final(self).wf(),
            r == has_id(old(self)@, id@),
            final(self)@ == without(old(self)@, id@),
            !has_id(final(self)@, id@),
            final(self)@.len() == if r {
                old(self)@.len() - 1
            } else {
                old(self)@.len() as int
            },
    {
        match self.find(id) {
            Some(k) => {
                let _ = self.sessions.remove(k);
                assert(self@ =~= old(self)@.remove(k as int));
                assert forall|j: int| 0 <= j < self@.len() implies self@[j].client_id != id@ by {
                    if j < k {
                        assert(self@[j] == old(self)@[j]);
                    } else {
                        assert(self@[j] == old(self)@[j + 1]);
                    }
                }
                true
            },
            None => false,
        }
    }

    /// What the status reports of the session with the id, if any.
    pub fn info_of(&self, id: &str) -> (r: Option<ClientInfo>)
        requires
            self.wf(),
        ensures
            match r {
                Some(c) => has_id(self@, id@) && info_matches(c, self@[id_index(self@, id@)]),
                None => !has_id(self@, id@),
            },
    {
        match self.find(id) {
            Some(k) => {
                let s = &self.sessions[k];
                Some(
                    ClientInfo {
                        client_id: s.client_id.clone(),
                        device_type: s.device_type,
                        connected_at: s.connected_at.clone(),
                        ip_address: s.ip_address.clone(),
                    },
                )
            },
            None => None,
        }
    }

    /// Removes every session.
    pub fn clear(&mut self)
        ensures
            final(self).wf(),
            final(self)@ == Seq::<SessionView>::empty(),
    {
        self.sessions.clear();
        assert(self@ =~= Seq::<SessionView>::empty());
    }

    /// Hands `frame` to every session's queue; the number of sessions.
    pub fn publish(&mut self, frame: &String) -> (r: usize)
        requires
            old(self).wf(),
        ensures
            final(self).wf(),
            final(self)@ == published(old(self)@, frame@),
            r == old(self)@.len(),
    {
        let n = self.sessions.len();
        let mut k: usize = 0;
        while k < n
            invariant
                n == self.sessions.len(),
                n == old(self)@.len(),
                k <= n,
                forall|m: int| 0 <= m < k ==> self@[m] == published(old(self)@, frame@)[m],
                forall|m: int| k <= m < n ==> self@[m] == old(self)@[m],
                old(self).wf(),
            decreases n - k,
        {
            let ghost before = self@;
            let ghost old_session = self.sessions@[k as int];
            assert(old_session@ == before[k as int]);
            assert(old_session.backlog@.len() == before[k as int].backlog.len());
            deliver(&mut self.sessions[k].backlog, frame.clone());
            proof {
                let ns = self.sessions@[k as int];
                assert(ns.client_id == old_session.client_id);
                assert(ns@ == self@[k as int]);
                assert(self@[k as int] == published(old(self)@, frame@)[k as int]);
                assert forall|m: int| 0 <= m < n && m != k implies self@[m] == before[m] by {}
                assert forall|m: int| 0 <= m <= k implies self@[m] == published(
                    old(self)@,
                    frame@,
                )[m] by {
                    if m < k {
                        assert(self@[m] == before[m]);
                    }
                }
            }
            k = k + 1;
        }
        assert(self@ =~= published(old(self)@, frame@));
        n
    }

    /// Takes the frames waiting for the session with the id, oldest first.
    pub fn take_outbound(&mut self, id: &str) -> (r: Vec<String>)
        requires
            old(self).wf(),
        ensures
            final(self).wf(),
            has_id(old(self)@, id@) ==> texts(r@) == old(self)@[id_index(old(self)@, id@)].backlog
                && final(self)@ == old(self)@.update(
                id_index(old(self)@, id@),
                SessionView { backlog: Seq::empty(), ..old(self)@[id_index(old(self)@, id@)] },
            ),
            !has_id(old(self)@, id@) ==> r@.len() == 0 && final(self)@ == old(self)@,
    {
        match self.find(id) {
            Some(k) => {
                let mut taken: Vec<String> = Vec::new();
                std::mem::swap(&mut self.sessions[k].backlog, &mut taken);
                assert(texts(self.sessions@[k as int].backlog@) =~= Seq::<Seq<char>>::empty());
                assert(self@[k as int] == SessionView {
                    backlog: Seq::empty(),
                    ..old(self)@[k as int]
                });
                assert(self@ =~= old(self)@.update(
                    k as int,
                    SessionView { backlog: Seq::empty(), ..old(self)@[k as int] },
                ));
                taken
            },
            None => Vec::new(),
        }
    }

    /// What the status reports of the sessions, in order.
    pub fn infos(&self) -> (r: Vec<ClientInfo>)
        ensures
            r@.len() == self@.len(),
            forall|i: int| 0 <= i < r@.len() ==> info_matches(#[trigger] r@[i], self@[i]),
    {
        let mut r: Vec<ClientInfo> = Vec::new();
        let mut k: usize = 0;
        while k < self.sessions.len()
            invariant
                k <= self.sessions.len(),
                r@.len() == k,
                forall|i: int| 0 <= i < k ==> info_matches(#[trigger] r@[i], self@[i]),
            decreases self.sessions.len() - k,
        {
            let s = &self.sessions[k];
            r.push(
                ClientInfo {
                    client_id: s.client_id.clone(),
                    device_type: s.device_type,
                    connected_at: s.connected_at.clone(),
                    ip_address: s.ip_address.clone(),
                },
            );
            k = k + 1;
        }
        r
    }
}

/// Appends a frame to a queue, dropping the oldest when it is full.
fn deliver(q: &mut Vec<String>, frame: String)
    requires
        old(q)@.len() <= BACKLOG_CAPACITY,
    ensures
        texts(final(q)@) == bounded_push(texts(old(q)@), frame@),
        final(q)@.len() <= BACKLOG_CAPACITY,
{
    if q.len() >= BACKLOG_CAPACITY {
        let _ = q.remove(0);
        assert(texts(q@) =~= texts(old(q)@).drop_first());
    }
    q.push(frame);
    assert(texts(final(q)@) =~= bounded_push(texts(old(q)@), frame@));
}


/// Publishing frames in order, to sessions none of which lags, appends them
/// to every session's queue in that order and keeps the set of sessions.
pub proof fn lemma_broadcast_in_order(v: Seq<SessionView>, fs: Seq<Seq<char>>)
    requires
        forall|i: int| 0 <= i < v.len() ==> v[i].backlog.len() + fs.len() <= BACKLOG_CAPACITY,
    ensures
        published_all(v, fs).len() == v.len(),
        forall|i: int|
            0 <= i < v.len() ==> (#[trigger] published_all(v, fs)[i]).backlog == v[i].backlog + fs
                && published_all(v, fs)[i].client_id == v[i].client_id,
    decreases fs.len(),
{
    if fs.len() > 0 {
        let w = published(v, fs[0]);
        assert forall|i: int| 0 <= i < w.len() implies w[i].backlog.len() + fs.drop_first().len()
            <= BACKLOG_CAPACITY by {}
        lemma_broadcast_in_order(w, fs.drop_first());
        assert forall|i: int| 0 <= i < v.len() implies (#[trigger] published_all(v, fs)[i]).backlog
            == v[i].backlog + fs by {
            assert(w[i].backlog == v[i].backlog.push(fs[0]));
            assert(v[i].backlog.push(fs[0]) + fs.drop_first() =~= v[i].backlog + fs);
        }
    } else {
        assert forall|i: int| 0 <= i < v.len() implies (#[trigger] published_all(v, fs)[i]).backlog
            == v[i].backlog + fs by {
            assert(v[i].backlog + fs =~= v[i].backlog);
        }
    }
}

} // verus!
