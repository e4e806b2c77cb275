//! Staff login state: the current session, PIN form and the lockout after
//! repeated failures.

use vstd::prelude::*;
use crate::outside::string_of;
use crate::text::chars_of;
use crate::text::{push_str, text_eq};
use crate::wire::{decimal, digit_value, push_decimal};

verus! {

/// Failed attempts after which a name is locked out.
pub const MAX_FAILED_ATTEMPTS: u32 = 3;

/// Seconds that a lockout lasts.
pub const LOCKOUT_SECS: i64 = 30;

/// A staff member.
#[derive(Debug, Clone)]
pub struct StaffUser {
    pub id: String,
    pub tenant_id: String,
    pub name: String,
    pub role: String,
    pub is_active: bool,
    pub permissions: Vec<String>,
    pub created_at: i64,
    pub last_login_at: Option<i64>,
}

/// The session of the staff member who is logged in.
#[derive(Debug, Clone)]
pub struct StaffSession {
    pub staff_id: String,
    pub tenant_id: String,
    pub name: String,
    pub role: String,
    pub permissions: Vec<String>,
    pub logged_in_at: i64,
}

/// Failed logins under one name.
#[derive(Debug, Clone)]
pub struct FailedLogins {
    pub name: String,
    pub attempts: u32,
    pub lockout_until: i64,
}

/// The in-memory staff login state.
pub struct StaffSessionState {
    current_session: Option<StaffSession>,
    failed_attempts: Vec<FailedLogins>,
}

/// The end of a lockout that starts at `now`.
pub open spec fn lockout_after(now: i64) -> i64 {
    if now <= i64::MAX - LOCKOUT_SECS {
        (now + LOCKOUT_SECS) as i64
    } else {
        i64::MAX
    }
}

/// The failures recorded after one more failed attempt.
pub open spec fn after_failure(prev: Option<(u32, i64)>, now: i64) -> (u32, i64) {
    let (a, l) = match prev {
        Some(p) => p,
        None => (0u32, 0i64),
    };
    let a2: u32 = if a < u32::MAX {
        (a + 1) as u32
    } else {
        a
    };
    (a2, if a2 >= MAX_FAILED_ATTEMPTS {
        lockout_after(now)
    } else {
        l
    })
}

/// The text refusing a login during a lockout.
pub open spec fn lockout_text(remaining: nat) -> Seq<char> {
    "Too many failed attempts. Try again in "@ + decimal(remaining) + " seconds"@
}

/// A PIN is four to six decimal digits.
pub open spec fn valid_pin(pin: Seq<char>) -> bool {
    4 <= pin.len() <= 6 && forall|i: int| 0 <= i < pin.len() ==> digit_value(#[trigger] pin[i]) is Some
}

/// Whether a PIN has the accepted form.
pub fn is_valid_pin(pin: &str) -> (r: bool)
    ensures
        r == valid_pin(pin@),
{
    let v = chars_of(pin);
    if v.len() < 4 || v.len() > 6 {
        return false;
    }
    let mut k: usize = 0;
    while k < v.len()
        invariant
            k <= v.len(),
            v@ == pin@,
            forall|i: int| 0 <= i < k ==> digit_value(#[trigger] v@[i]) is Some,
        decreases v.len() - k,
    {
        let c = v[k];
        if !(c == '0' || c == '1' || c == '2' || c == '3' || c == '4' || c == '5' || c == '6' || c
            == '7' || c == '8' || c == '9') {
            return false;
        }
        k = k + 1;
    }
    true
}

impl StaffSessionState {
    /// The session of whoever is logged in.
    pub closed spec fn session(&self) -> Option<StaffSession> {
        self.current_session
    }

    /// The session of whoever is logged in.
    pub fn current_session(&self) -> (r: &Option<StaffSession>)
        ensures
            *r == self.session(),
    {
        &self.current_session
    }

    /// The recorded failures, in order of first failure.
    pub closed spec fn entries(&self) -> Seq<(Seq<char>, u32, i64)> {
        self.failed_attempts@.map_values(
            |e: FailedLogins| (e.name@, e.attempts, e.lockout_until),
        )
    }

    /// Each name is recorded at most once.
    pub open spec fn wf(&self) -> bool {
        unique_names(self.entries())
    }

    /// The attempts and lockout end recorded for a name.
    pub open spec fn failures(&self, name: Seq<char>) -> Option<(u32, i64)> {
        record_in(self.entries(), name)
    }

    /// No session and no failures.
    pub fn new() -> (r: StaffSessionState)
        ensures
            r.wf(),
            r.session() is None,
            forall|n: Seq<char>| r.failures(n) is None,
    {
        let r = StaffSessionState { current_session: None, failed_attempts: Vec::new() };
        assert(r.entries() =~= Seq::<(Seq<char>, u32, i64)>::empty());
        r
    }

    fn find(&self, name: &str) -> (r: Option<usize>)
        requires
            self.wf(),
        ensures
            match r {
                Some(k) => k < self.entries().len() && self.entries()[k as int].0 == name@,
                None => forall|i: int|
                    0 <= i < self.entries().len() ==> self.entries()[i].0 != name@,
            },
    {
        let mut k: usize = 0;
        while k < self.failed_attempts.len()
            invariant
                k <= self.failed_attempts.len(),
                forall|i: int| 0 <= i < k ==> self.entries()[i].0 != name@,
            decreases self.failed_attempts.len() - k,
        {
            if text_eq(self.failed_attempts[k].name.as_str(), name) {
                return Some(k);
            }
            k = k + 1;
        }
        None
    }

    /// Refuses a login under a name while it is locked out.
    pub fn check_rate_limit(&self, name: &str, now: i64) -> (r: Result<(), String>)
        requires
            self.wf(),
        ensures
            match self.failures(name@) {
                Some((_, until)) => if until > now {
                    r is Err && r->Err_0@ == lockout_text((until - now) as nat)
                } else {
                    r is Ok
                },
                None => r is Ok,
            },
    {
        match self.find(name) {
            Some(k) => {
                let until = self.failed_attempts[k].lockout_until;
                proof {
                    let c = choose|i: int|
                        0 <= i < self.entries().len() && self.entries()[i].0 == name@;
                    assert(c == k);
                }
                if until > now {
                    let remaining = (until as i128 - now as i128) as u64;
                    let mut out = chars_of("Too many failed attempts. Try again in ");
                    push_decimal(&mut out, remaining);
                    push_str(&mut out, " seconds");
                    assert(out@ =~= lockout_text((until - now) as nat));
                    Err(string_of(&out))
                } else {
                    Ok(())
                }
            },
            None => Ok(()),
        }
    }

    /// Records a failed login under a name; the third failure starts a
    /// lockout.
    pub fn record_failed_attempt(&mut self, name: &str, now: i64)
        requires
            old(self).wf(),
        ensures
            final(self).wf(),
            final(self).session() == old(self).session(),
            final(self).failures(name@) == Some(after_failure(old(self).failures(name@), now)),
            forall|n: Seq<char>| n != name@ ==> final(self).failures(n) == old(self).failures(n),
    {
        let ghost before = self.entries();
        match self.find(name) {
            Some(k) => {
                proof {
                    let c = choose|i: int| 0 <= i < before.len() && before[i].0 == name@;
                    assert(c == k);
                }
                let a = self.failed_attempts[k].attempts;
                let l = self.failed_attempts[k].lockout_until;
                let a2 = if a < u32::MAX {
                    a + 1
                } else {
                    a
                };
                let l2 = if a2 >= MAX_FAILED_ATTEMPTS {
                    lockout(now)
                } else {
                    l
                };
                self.failed_attempts[k].attempts = a2;
                self.failed_attempts[k].lockout_until = l2;
                proof {
                    assert(self.entries() =~= before.update(k as int, (name@, a2, l2)));
                    lemma_update_keeps(before, self.entries(), k as int);
                    assert(self.entries()[k as int].0 == name@);
                }
            },
            None => {
                let e = FailedLogins {
                    name: string_of(&chars_of(name)),
                    attempts: 1,
                    lockout_until: if 1 >= MAX_FAILED_ATTEMPTS {
                        lockout(now)
                    } else {
                        0
                    },
                };
                self.failed_attempts.push(e);
                proof {
                    assert(self.entries() =~= before.push((name@, 1u32, 0i64)));
                    lemma_push_keeps(before, self.entries());
                    assert(self.entries()[before.len() as int].0 == name@);
                }
            },
        }
    }

    /// Forgets the failures under a name.
    pub fn clear_failed_attempts(&mut self, name: &str)
        requires
            old(self).wf(),
        ensures
            final(self).wf(),
            final(self).session() == old(self).session(),
            final(self).failures(name@) is None,
            forall|n: Seq<char>| n != name@ ==> final(self).failures(n) == old(self).failures(n),
    {
        let ghost before = self.entries();
        match self.find(name) {
            Some(k) => {
                let _ = self.failed_attempts.remove(k);
                proof {
                    assert(self.entries() =~= before.remove(k as int));
                    lemma_remove_keeps(before, self.entries(), k as int);
                }
            },
            None => {},
        }
    }

    /// Logs a staff member in at `now`.
    pub fn set_session(&mut self, user: StaffUser, now: i64)
        requires
            old(self).wf(),
        ensures
            final(self).wf(),
            final(self).entries() == old(self).entries(),
            match final(self).session() {
                Some(s) => s.staff_id@ == user.id@ && s.tenant_id@ == user.tenant_id@ && s.name@
                    == user.name@ && s.role@ == user.role@ && s.permissions@ == user.permissions@
                    && s.logged_in_at == now,
                None => false,
            },
    {
        self.current_session = Some(
            StaffSession {
                staff_id: user.id,
                tenant_id: user.tenant_id,
                name: user.name,
                role: user.role,
                permissions: user.permissions,
                logged_in_at: now,
            },
        );
    }

    /// Logs out whoever is logged in.
    pub fn logout(&mut self)
        requires
            old(self).wf(),
        ensures
            final(self).wf(),
            final(self).entries() == old(self).entries(),
            final(self).session() is None,
    {
        self.current_session = None;
    }

    /// Whether a staff member is logged in.
    pub fn is_authenticated(&self) -> (r: bool)
        ensures
            r == self.session() is Some,
    {
        self.current_session.is_some()
    }
}

fn lockout(now: i64) -> (r: i64)
    ensures
        r == lockout_after(now),
{
    if now <= i64::MAX - LOCKOUT_SECS {
        now + LOCKOUT_SECS
    } else {
        i64::MAX
    }
}

/// Names are unique in `s`.
pub open spec fn unique_names(s: Seq<(Seq<char>, u32, i64)>) -> bool {
    forall|i: int, j: int| 0 <= i < s.len() && 0 <= j < s.len() && i != j ==> s[i].0 != s[j].0
}

/// The record for a name in `s`, as `failures` reads it.
pub open spec fn record_in(s: Seq<(Seq<char>, u32, i64)>, name: Seq<char>) -> Option<(u32, i64)> {
    if exists|i: int| 0 <= i < s.len() && s[i].0 == name {
        let i = choose|i: int| 0 <= i < s.len() && s[i].0 == name;
        Some((s[i].1, s[i].2))
    } else {
        None
    }
}

proof fn lemma_update_keeps(a: Seq<(Seq<char>, u32, i64)>, b: Seq<(Seq<char>, u32, i64)>, k: int)
    requires
        unique_names(a),
        0 <= k < a.len(),
        b.len() == a.len(),
        b[k].0 == a[k].0,
        forall|i: int| 0 <= i < a.len() && i != k ==> b[i] == a[i],
    ensures
        unique_names(b),
        forall|n: Seq<char>| n != a[k].0 ==> record_in(b, n) == record_in(a, n),
        record_in(b, a[k].0) == Some((b[k].1, b[k].2)),
{
    assert forall|n: Seq<char>| n != a[k].0 implies record_in(b, n) == record_in(a, n) by {
        if exists|i: int| 0 <= i < a.len() && a[i].0 == n {
            let i = choose|i: int| 0 <= i < a.len() && a[i].0 == n;
            assert(b[i].0 == n);
            let j = choose|j: int| 0 <= j < b.len() && b[j].0 == n;
            assert(i == j);
        } else {
            assert forall|j: int| 0 <= j < b.len() implies b[j].0 != n by {
                if j != k {
                    assert(b[j] == a[j]);
                }
            }
        }
    }
    let j = choose|j: int| 0 <= j < b.len() && b[j].0 == a[k].0;
    assert(b[k].0 == a[k].0);
    assert(j == k);
}

proof fn lemma_push_keeps(a: Seq<(Seq<char>, u32, i64)>, b: Seq<(Seq<char>, u32, i64)>)
    requires
        unique_names(a),
        b.len() == a.len() + 1,
        forall|i: int| 0 <= i < a.len() ==> b[i] == a[i],
        forall|i: int| 0 <= i < a.len() ==> a[i].0 != b[a.len() as int].0,
    ensures
        unique_names(b),
        forall|n: Seq<char>| n != b[a.len() as int].0 ==> record_in(b, n) == record_in(a, n),
        record_in(b, b[a.len() as int].0) == Some((b[a.len() as int].1, b[a.len() as int].2)),
{
    let last = a.len() as int;
    assert forall|n: Seq<char>| n != b[last].0 implies record_in(b, n) == record_in(a, n) by {
        if exists|i: int| 0 <= i < a.len() && a[i].0 == n {
            let i = choose|i: int| 0 <= i < a.len() && a[i].0 == n;
            assert(b[i].0 == n);
            let j = choose|j: int| 0 <= j < b.len() && b[j].0 == n;
            assert(i == j);
        } else {
            assert forall|j: int| 0 <= j < b.len() implies b[j].0 != n by {
                if j < last {
                    assert(b[j] == a[j]);
                }
            }
        }
    }
    let j = choose|j: int| 0 <= j < b.len() && b[j].0 == b[last].0;
    assert(j == last);
}

proof fn lemma_remove_keeps(a: Seq<(Seq<char>, u32, i64)>, b: Seq<(Seq<char>, u32, i64)>, k: int)
    requires
        unique_names(a),
        0 <= k < a.len(),
        b == a.remove(k),
    ensures
        unique_names(b),
        forall|n: Seq<char>| n != a[k].0 ==> record_in(b, n) == record_in(a, n),
        record_in(b, a[k].0) is None,
{
    assert forall|i: int, j: int| 0 <= i < b.len() && 0 <= j < b.len() && i != j implies b[i].0
        != b[j].0 by {
        let ai = if i < k {
            i
        } else {
            i + 1
        };
        let aj = if j < k {
            j
        } else {
            j + 1
        };
        assert(b[i] == a[ai]);
        assert(b[j] == a[aj]);
    }
    assert forall|n: Seq<char>| n != a[k].0 implies record_in(b, n) == record_in(a, n) by {
        if exists|i: int| 0 <= i < a.len() && a[i].0 == n {
            let i = choose|i: int| 0 <= i < a.len() && a[i].0 == n;
            assert(i != k);
            let bi = if i < k {
                i
            } else {
                i - 1
            };
            assert(b[bi] == a[i]);
            let j = choose|j: int| 0 <= j < b.len() && b[j].0 == n;
            let aj = if j < k {
                j
            } else {
                j + 1
            };
            assert(b[j] == a[aj]);
            assert(aj == i);
        } else {
            assert forall|j: int| 0 <= j < b.len() implies b[j].0 != n by {
                let aj = if j < k {
                    j
                } else {
                    j + 1
                };
                assert(b[j] == a[aj]);
            }
        }
    }
    assert forall|j: int| 0 <= j < b.len() implies b[j].0 != a[k].0 by {
        let aj = if j < k {
            j
        } else {
            j + 1
        };
        assert(b[j] == a[aj]);
    }
}

} // verus!
