//! Session bookkeeping: the host-reported session lists, the
//! deletion-confirmation state, and the collision/increment resolver that
//! turns a desired base name into one not already in use.

use crate::item::{SessionAction, SessionInfo};
use crate::strutil::{dec_rep, str_eq, u32_to_string};
use vstd::prelude::*;

verus! {

/// Bookkeeping for live and recoverable sessions.
pub struct SessionManager {
    /// Sessions the host currently reports.
    sessions: Vec<SessionInfo>,
    /// Session name awaiting deletion confirmation, if any.
    pending_deletion: Option<String>,
    /// Recoverable sessions: name and seconds since they ended.
    resurrectable_sessions: Vec<(String, u64)>,
}

/// A call for the host to make: the part of a session action that leaves
/// this library.
pub enum HostCommand {
    /// Switch to the named live session.
    SwitchTo(String),
    /// Delete the named dead (recoverable) session.
    DeleteDead(String),
    /// Kill the named live session.
    KillLive(String),
}

/// Is `name` among the live session names?
pub open spec fn live_name_taken(sessions: Seq<SessionInfo>, name: Seq<char>) -> bool {
    exists|i: int| 0 <= i < sessions.len() && #[trigger] sessions[i].name@ == name
}

/// Is `name` among the recoverable session names?
pub open spec fn dead_name_taken(dead: Seq<(String, u64)>, name: Seq<char>) -> bool {
    exists|i: int| 0 <= i < dead.len() && #[trigger] dead[i].0@ == name
}

/// The candidate `base + separator + n`.
pub open spec fn inc_candidate(base: Seq<char>, sep: Seq<char>, n: int) -> Seq<char> {
    base + sep + dec_rep(n as nat)
}

/// The first `n` in `[n0, 1000]` whose candidate is not a live session name.
pub open spec fn first_free(
    sessions: Seq<SessionInfo>,
    base: Seq<char>,
    sep: Seq<char>,
    n0: int,
) -> Option<int>
    decreases 1001 - n0,
{
    if n0 > 1000 {
        None
    } else if !live_name_taken(sessions, inc_candidate(base, sep, n0)) {
        Some(n0)
    } else {
        first_free(sessions, base, sep, n0 + 1)
    }
}

/// What `generate_incremented_name` may return for `base`: the base itself
/// when free, the first free numeric candidate otherwise, or (with all
/// thousand taken) the base plus separator plus eight lowercase hex digits.
pub open spec fn increment_result(
    sessions: Seq<SessionInfo>,
    dead: Seq<(String, u64)>,
    base: Seq<char>,
    sep: Seq<char>,
    r: Seq<char>,
) -> bool {
    if !live_name_taken(sessions, base) && !dead_name_taken(dead, base) {
        r == base
    } else {
        match first_free(sessions, base, sep, 2) {
            Some(n) => r == inc_candidate(base, sep, n),
            None => r.len() == base.len() + sep.len() + 8 && r.take(
                (base.len() + sep.len()) as int,
            ) == base + sep && (forall|i: int|
                base.len() + sep.len() <= i < r.len() ==> is_hex_lower(#[trigger] r[i])),
        }
    }
}

/// Is `c` a lowercase hexadecimal digit?
pub open spec fn is_hex_lower(c: char) -> bool {
    (48 <= c as u32 <= 57) || (97 <= c as u32 <= 102)
}

/// Relies on uuid::Uuid::new_v4 and its hyphenated lowercase Display form:
/// the first eight characters of a v4 UUID string are lowercase hex digits.
/// The value is random; nothing more is assumed of it.
#[verifier::external_body]
fn random_hex8() -> (r: String)
    ensures
        r@.len() == 8,
        forall|i: int| 0 <= i < 8 ==> is_hex_lower(#[trigger] r@[i]),
{
    let s = uuid::Uuid::new_v4().to_string();
    s[..8].to_string()
}

impl SessionManager {
    /// The spec view of the live sessions.
    pub closed spec fn spec_sessions(&self) -> Seq<SessionInfo> {
        self.sessions@
    }

    /// The spec view of the recoverable sessions.
    pub closed spec fn spec_resurrectable(&self) -> Seq<(String, u64)> {
        self.resurrectable_sessions@
    }

    /// The spec view of the pending deletion.
    pub closed spec fn spec_pending(&self) -> Option<String> {
        self.pending_deletion
    }

    /// An empty manager: no sessions, nothing pending.
    pub fn new() -> (m: SessionManager)
        ensures
            m.spec_sessions().len() == 0,
            m.spec_resurrectable().len() == 0,
            m.spec_pending() is None,
    {
        SessionManager {
            sessions: Vec::new(),
            pending_deletion: None,
            resurrectable_sessions: Vec::new(),
        }
    }

    /// Replaces the live session list.
    pub fn update_sessions(&mut self, sessions: Vec<SessionInfo>)
        ensures
            final(self).spec_sessions() == sessions@,
            final(self).spec_pending() == old(self).spec_pending(),
            final(self).spec_resurrectable() == old(self).spec_resurrectable(),
    {
        self.sessions = sessions;
    }

    /// Replaces the recoverable session list.
    pub fn update_resurrectable_sessions(&mut self, resurrectable_sessions: Vec<(String, u64)>)
        ensures
            final(self).spec_resurrectable() == resurrectable_sessions@,
            final(self).spec_sessions() == old(self).spec_sessions(),
            final(self).spec_pending() == old(self).spec_pending(),
    {
        self.resurrectable_sessions = resurrectable_sessions;
    }

    pub fn sessions(&self) -> (r: &Vec<SessionInfo>)
        ensures
            r@ == self.spec_sessions(),
    {
        &self.sessions
    }

    pub fn resurrectable_sessions(&self) -> (r: &Vec<(String, u64)>)
        ensures
            r@ == self.spec_resurrectable(),
    {
        &self.resurrectable_sessions
    }

    /// Decides which host call performs an action: a kill turns into a
    /// dead-session deletion exactly when the name is recoverable.
    pub fn execute_action(&self, action: SessionAction) -> (c: HostCommand)
        ensures
            match action {
                SessionAction::Switch(name) => c matches HostCommand::SwitchTo(n) && n == name,
                SessionAction::Kill(name) => {
                    if dead_name_taken(self.spec_resurrectable(), name@) {
                        c matches HostCommand::DeleteDead(n) && n == name
                    } else {
                        c matches HostCommand::KillLive(n) && n == name
                    }
                },
            },
    {
        match action {
            SessionAction::Switch(name) => HostCommand::SwitchTo(name),
            SessionAction::Kill(name) => {
                let n = self.resurrectable_sessions.len();
                let mut i: usize = 0;
                let mut found = false;
                while i < n
                    invariant
                        n == self.resurrectable_sessions@.len(),
                        i <= n,
                        found == (exists|u: int|
                            0 <= u < i && #[trigger] self.resurrectable_sessions@[u].0@ == name@),
                    decreases n - i,
                {
                    if str_eq(self.resurrectable_sessions[i].0.as_str(), name.as_str()) {
                        found = true;
                    }
                    i = i + 1;
                }
                if found {
                    HostCommand::DeleteDead(name)
                } else {
                    HostCommand::KillLive(name)
                }
            },
        }
    }

    /// Remembers a session name awaiting the user's confirmation.
    pub fn start_deletion(&mut self, session_name: String)
        ensures
            final(self).spec_pending() == Some(session_name),
            final(self).spec_sessions() == old(self).spec_sessions(),
            final(self).spec_resurrectable() == old(self).spec_resurrectable(),
    {
        self.pending_deletion = Some(session_name);
    }

    /// Confirms the pending deletion: clears it and returns the host call
    /// that performs it, if one was pending.
    pub fn confirm_deletion(&mut self) -> (c: Option<HostCommand>)
        ensures
            final(self).spec_pending() is None,
            final(self).spec_sessions() == old(self).spec_sessions(),
            final(self).spec_resurrectable() == old(self).spec_resurrectable(),
            match old(self).spec_pending() {
                Some(name) => c matches Some(cmd) && (if dead_name_taken(
                    old(self).spec_resurrectable(),
                    name@,
                ) {
                    cmd matches HostCommand::DeleteDead(n) && n == name
                } else {
                    cmd matches HostCommand::KillLive(n) && n == name
                }),
                None => c is None,
            },
    {
        let pending = self.pending_deletion.take();
        match pending {
            Some(name) => Some(self.execute_action(SessionAction::Kill(name))),
            None => None,
        }
    }

    /// Drops the pending deletion without acting on it.
    pub fn cancel_deletion(&mut self)
        ensures
            final(self).spec_pending() is None,
            final(self).spec_sessions() == old(self).spec_sessions(),
            final(self).spec_resurrectable() == old(self).spec_resurrectable(),
    {
        self.pending_deletion = None;
    }

    /// The session name awaiting confirmation, if any.
    pub fn pending_deletion(&self) -> (r: Option<&String>)
        ensures
            match r {
                Some(s) => self.spec_pending() == Some(*s),
                None => self.spec_pending() is None,
            },
    {
        self.pending_deletion.as_ref()
    }

    fn live_name_exists(&self, name: &str) -> (r: bool)
        ensures
            r == live_name_taken(self.spec_sessions(), name@),
    {
        let n = self.sessions.len();
        let mut i: usize = 0;
        while i < n
            invariant
                n == self.sessions@.len(),
                i <= n,
                forall|u: int| 0 <= u < i ==> #[trigger] self.sessions@[u].name@ != name@,
            decreases n - i,
        {
            if str_eq(self.sessions[i].name.as_str(), name) {
                return true;
            }
            i = i + 1;
        }
        false
    }

    fn dead_name_exists(&self, name: &str) -> (r: bool)
        ensures
            r == dead_name_taken(self.spec_resurrectable(), name@),
    {
        let n = self.resurrectable_sessions.len();
        let mut i: usize = 0;
        while i < n
            invariant
                n == self.resurrectable_sessions@.len(),
                i <= n,
                forall|u: int|
                    0 <= u < i ==> #[trigger] self.resurrectable_sessions@[u].0@ != name@,
            decreases n - i,
        {
            if str_eq(self.resurrectable_sessions[i].0.as_str(), name) {
                return true;
            }
            i = i + 1;
        }
        false
    }

    /// Returns `base_name` untouched when no session (live or recoverable)
    /// uses it; otherwise the first free numeric candidate
    /// `base.sep.n` for `n` in 2..=1000, checked against live names only;
    /// with all thousand taken, a random eight-hex-digit suffix instead.
    pub fn generate_incremented_name(&self, base_name: &str, separator: &str) -> (r: String)
        ensures
            increment_result(
                self.spec_sessions(),
                self.spec_resurrectable(),
                base_name@,
                separator@,
                r@,
            ),
            !live_name_taken(self.spec_sessions(), base_name@) && !dead_name_taken(
                self.spec_resurrectable(),
                base_name@,
            ) ==> r@ == base_name@,
            (live_name_taken(self.spec_sessions(), base_name@) || dead_name_taken(
                self.spec_resurrectable(),
                base_name@,
            )) ==> match first_free(self.spec_sessions(), base_name@, separator@, 2) {
                Some(n) => r@ == inc_candidate(base_name@, separator@, n),
                None => r@.len() == base_name@.len() + separator@.len() + 8
                    && r@.take((base_name@.len() + separator@.len()) as int) == base_name@ + separator@
                    && (forall|i: int|
                    base_name@.len() + separator@.len() <= i < r@.len() ==> is_hex_lower(
                        #[trigger] r@[i],
                    )),
            },
    {
        let base_exists = self.live_name_exists(base_name) || self.dead_name_exists(base_name);
        if !base_exists {
            return base_name.to_owned();
        }
        let mut counter: u32 = 2;
        while counter <= 1000
            invariant
                2 <= counter <= 1001,
                live_name_taken(self.spec_sessions(), base_name@) || dead_name_taken(
                    self.spec_resurrectable(),
                    base_name@,
                ),
                first_free(self.spec_sessions(), base_name@, separator@, 2) == first_free(
                    self.spec_sessions(),
                    base_name@,
                    separator@,
                    counter as int,
                ),
            decreases 1001 - counter,
        {
            let mut candidate = base_name.to_owned();
            candidate.append(separator);
            let num = u32_to_string(counter);
            candidate.append(num.as_str());
            proof {
                assert(candidate@ =~= inc_candidate(base_name@, separator@, counter as int));
            }
            if !self.live_name_exists(candidate.as_str()) {
                return candidate;
            }
            counter = counter + 1;
        }
        let token = random_hex8();
        let mut fallback = base_name.to_owned();
        fallback.append(separator);
        fallback.append(token.as_str());
        proof {
            assert(fallback@ =~= (base_name@ + separator@) + token@);
            assert(fallback@.take((base_name@.len() + separator@.len()) as int) =~= base_name@
                + separator@);
        }
        fallback
    }
}

} // verus!
