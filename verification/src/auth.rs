//! The store that runs the login protocol: users register the public
//! values of their secret, ask for a challenge, and answer it once.

use crate::assoc::{
    assoc_map, distinct_keys, has_key, lemma_assoc_map_entry, lemma_assoc_map_keys,
    lemma_assoc_map_push, lemma_assoc_map_remove,
};
use crate::error::AuthError;
use crate::natural::Natural;
use crate::protocol::{
    lemma_session_name, nonce_span, serial_of, AuthState, RegistrationView, SessionView,
    NONCE_SPAN,
};
use crate::zkp::ZKP;
use vstd::arithmetic::power::lemma_pow1;
use vstd::prelude::*;

verus! {

/// What a completed login hands out: a number drawn at random, which
/// stands for the authenticated session.
#[derive(Debug)]
pub struct SessionToken {
    value: Natural,
}

impl View for SessionToken {
    type V = nat;

    closed spec fn view(&self) -> nat {
        self.value@
    }
}

impl SessionToken {
    /// The token as a number.
    pub fn value(&self) -> (r: &Natural)
        ensures
            r@ == self@,
    {
        &self.value
    }
}

struct Registration {
    user_id: String,
    y1: Natural,
    y2: Natural,
}

impl Registration {
    spec fn entry(self) -> (Seq<char>, RegistrationView) {
        (self.user_id@, RegistrationView { y1: self.y1@, y2: self.y2@ })
    }
}

struct ChallengeSession {
    auth_id: Natural,
    user_id: String,
    r1: Natural,
    r2: Natural,
    c: Natural,
    issued_at: u64,
}

impl ChallengeSession {
    spec fn entry(self) -> (nat, SessionView) {
        (
            self.auth_id@,
            SessionView {
                user_id: self.user_id@,
                r1: self.r1@,
                r2: self.r2@,
                c: self.c@,
                issued_at: self.issued_at as nat,
            },
        )
    }
}

spec fn registration_entries(registrations: Seq<Registration>) -> Seq<(Seq<char>, RegistrationView)> {
    registrations.map_values(|r: Registration| r.entry())
}

spec fn session_entries(sessions: Seq<ChallengeSession>) -> Seq<(nat, SessionView)> {
    sessions.map_values(|s: ChallengeSession| s.entry())
}

/// No two sessions share a serial number.
spec fn distinct_serials(sessions: Seq<ChallengeSession>) -> bool {
    forall|i: int, j: int|
        0 <= i < j < sessions.len() ==> serial_of(sessions[i].auth_id@) != serial_of(
            sessions[j].auth_id@,
        )
}

/// The session can still be answered at time `now`.
spec fn live(session: ChallengeSession, ttl: u64, now: u64) -> bool {
    now < session.issued_at + ttl
}

/// Every session has a serial number below the next one and a user who
/// is registered.
spec fn issued_to_users(
    registrations: Seq<Registration>,
    sessions: Seq<ChallengeSession>,
    next_serial: nat,
) -> bool {
    forall|i: int|
        0 <= i < sessions.len() ==> {
            &&& serial_of(#[trigger] sessions[i].auth_id@) < next_serial
            &&& has_key(registration_entries(registrations), sessions[i].user_id@)
        }
}

/// The store behind the protocol: the registrations and the sessions in
/// flight, for one group.
pub struct Authenticator {
    zkp: ZKP,
    session_ttl: u64,
    registrations: Vec<Registration>,
    sessions: Vec<ChallengeSession>,
    next_serial: Natural,
}

impl View for Authenticator {
    type V = AuthState;

    closed spec fn view(&self) -> AuthState {
        AuthState {
            group: self.zkp@,
            ttl: self.session_ttl as nat,
            registrations: assoc_map(registration_entries(self.registrations@)),
            sessions: assoc_map(session_entries(self.sessions@)),
            next_serial: self.next_serial@,
        }
    }
}

impl Authenticator {
    #[verifier::type_invariant]
    spec fn inv(self) -> bool {
        &&& distinct_keys(registration_entries(self.registrations@))
        &&& distinct_serials(self.sessions@)
        &&& issued_to_users(self.registrations@, self.sessions@, self.next_serial@)
    }

    /// An empty store for the group `zkp`, whose sessions can be answered
    /// for `session_ttl` units of time.
    pub fn new(zkp: ZKP, session_ttl: u64) -> (r: Authenticator)
        ensures
            r@ == (AuthState {
                group: zkp@,
                ttl: session_ttl as nat,
                registrations: Map::empty(),
                sessions: Map::empty(),
                next_serial: 0,
            }),
            r@.well_formed(),
    {
        Authenticator {
            zkp,
            session_ttl,
            registrations: Vec::new(),
            sessions: Vec::new(),
            next_serial: Natural::from_u32(0),
        }
    }

    /// The group that the store verifies in.
    pub fn zkp(&self) -> (r: &ZKP)
        ensures
            r@ == self@.group,
    {
        &self.zkp
    }

    fn find_registration(&self, user_id: &String) -> (r: Option<usize>)
        ensures
            r is Some <==> self@.registrations.contains_key(user_id@),
            r is Some ==> r->Some_0 < self.registrations.len()
                && self.registrations[r->Some_0 as int].user_id@ == user_id@,
    {
        let ghost entries = registration_entries(self.registrations@);
        let mut i: usize = 0;
        while i < self.registrations.len()
            invariant
                i <= self.registrations.len(),
                entries == registration_entries(self.registrations@),
                forall|j: int| 0 <= j < i ==> self.registrations[j].user_id@ != user_id@,
            decreases self.registrations.len() - i,
        {
            if self.registrations[i].user_id == *user_id {
                proof {
                    lemma_assoc_map_keys(entries);
                    assert(entries[i as int].0 == user_id@);
                }
                return Some(i);
            }
            i += 1;
        }
        proof {
            lemma_assoc_map_keys(entries);
            if has_key(entries, user_id@) {
                let j = choose|j: int| 0 <= j < entries.len() && #[trigger] entries[j].0 == user_id@;
                assert(self.registrations[j].user_id@ == user_id@);
            }
        }
        None
    }

    fn find_session(&self, auth_id: &Natural) -> (r: Option<usize>)
        ensures
            r is Some <==> self@.sessions.contains_key(auth_id@),
            r is Some ==> r->Some_0 < self.sessions.len() && self.sessions[r->Some_0 as int].auth_id@
                == auth_id@,
    {
        let ghost entries = session_entries(self.sessions@);
        let mut i: usize = 0;
        while i < self.sessions.len()
            invariant
                i <= self.sessions.len(),
                entries == session_entries(self.sessions@),
                forall|j: int| 0 <= j < i ==> self.sessions[j].auth_id@ != auth_id@,
            decreases self.sessions.len() - i,
        {
            if self.sessions[i].auth_id.same_value(auth_id) {
                proof {
                    lemma_assoc_map_keys(entries);
                    assert(entries[i as int].0 == auth_id@);
                }
                return Some(i);
            }
            i += 1;
        }
        proof {
            lemma_assoc_map_keys(entries);
            if has_key(entries, auth_id@) {
                let j = choose|j: int| 0 <= j < entries.len() && #[trigger] entries[j].0 == auth_id@;
                assert(self.sessions[j].auth_id@ == auth_id@);
            }
        }
        None
    }

    /// Stores the public values `(y1, y2)` of `user_id`, unless the user
    /// is registered already.
    pub fn register(&mut self, user_id: String, y1: Natural, y2: Natural) -> (r: Result<
        (),
        AuthError,
    >)
        ensures
            (final(self)@, r) == old(self)@.register(user_id@, y1@, y2@),
            final(self)@.well_formed(),
    {
        proof {
            use_type_invariant(&*self);
            lemma_well_formed(*self);
        }
        if self.find_registration(&user_id).is_some() {
            return Err(AuthError::AlreadyRegistered);
        }
        let ghost entries = registration_entries(self.registrations@);
        let registration = Registration { user_id, y1, y2 };
        proof {
            lemma_assoc_map_keys(entries);
            lemma_assoc_map_push(entries, registration.entry().0, registration.entry().1);
            assert(registration_entries(self.registrations@.push(registration)) =~= entries.push(
                registration.entry(),
            ));
            assert forall|i: int| 0 <= i < entries.len() implies entries[i].0
                != registration.entry().0 by {
                if entries[i].0 == registration.entry().0 {
                    assert(has_key(entries, registration.entry().0));
                }
            }
        }
        let ghost before = self.sessions@;
        // The sessions step aside while the registrations are out of the
        // store: a session cannot be without its user.
        let mut sessions: Vec<ChallengeSession> = Vec::new();
        let mut registrations: Vec<Registration> = Vec::new();
        std::mem::swap(&mut self.sessions, &mut sessions);
        std::mem::swap(&mut self.registrations, &mut registrations);
        registrations.push(registration);
        std::mem::swap(&mut self.registrations, &mut registrations);
        proof {
            assert forall|i: int| 0 <= i < before.len() implies has_key(
                registration_entries(self.registrations@),
                #[trigger] before[i].user_id@,
            ) by {
                let j = choose|j: int|
                    0 <= j < entries.len() && #[trigger] entries[j].0 == before[i].user_id@;
                assert(registration_entries(self.registrations@)[j].0 == before[i].user_id@);
            }
        }
        std::mem::swap(&mut self.sessions, &mut sessions);
        proof {
            lemma_well_formed(*self);
        }
        Ok(())
    }

    /// Opens a session for `user_id` at time `now` with the commitments
    /// `(r1, r2)`, the challenge `c` and `nonce` for the random part of
    /// its name, unless the user is not registered. The name that comes
    /// back holds the next serial number.
    ///
    /// A challenge or a name that the caller can predict protects nothing:
    /// outside tests, let `create_authentication_challenge` draw them.
    pub fn open_session(
        &mut self,
        user_id: String,
        r1: Natural,
        r2: Natural,
        c: Natural,
        nonce: Natural,
        now: u64,
    ) -> (r: Result<Natural, AuthError>)
        ensures
            final(self)@ == old(self)@.open_session(user_id@, r1@, r2@, c@, nonce@, now as nat).0,
            match r {
                Ok(id) => old(self)@.open_session(user_id@, r1@, r2@, c@, nonce@, now as nat).1
                    == Ok::<nat, AuthError>(id@),
                Err(e) => old(self)@.open_session(user_id@, r1@, r2@, c@, nonce@, now as nat).1
                    == Err::<nat, AuthError>(e),
            },
            final(self)@.well_formed(),
    {
        proof {
            use_type_invariant(&*self);
            lemma_well_formed(*self);
        }
        if self.find_registration(&user_id).is_none() {
            return Err(AuthError::UnknownUser);
        }
        let one = Natural::from_u32(1);
        let span = span();
        let auth_id = self.next_serial.times(&span).plus(&nonce.modpow(&one, &span));
        let next = self.next_serial.plus(&one);
        proof {
            lemma_pow1(nonce@ as int);
            lemma_session_name(self.next_serial@, nonce@);
        }
        let issued = auth_id.clone();
        let session = ChallengeSession { auth_id, user_id, r1, r2, c, issued_at: now };
        let ghost entries = session_entries(self.sessions@);
        proof {
            lemma_assoc_map_keys(registration_entries(self.registrations@));
            lemma_assoc_map_push(entries, session.entry().0, session.entry().1);
            assert(session_entries(self.sessions@.push(session)) =~= entries.push(session.entry()));
        }
        self.next_serial = next;
        let mut sessions: Vec<ChallengeSession> = Vec::new();
        std::mem::swap(&mut self.sessions, &mut sessions);
        sessions.push(session);
        std::mem::swap(&mut self.sessions, &mut sessions);
        proof {
            lemma_well_formed(*self);
        }
        Ok(issued)
    }

    /// Issues a challenge to `user_id` at time `now`, for the commitments
    /// `(r1, r2)`: draws the challenge below `q` and the random part of the
    /// session's name, and opens the session with them.
    ///
    /// Fails where the user is not registered, and only there. The name
    /// that comes back holds the next serial number, so no session in
    /// flight has it.
    pub fn create_authentication_challenge(
        &mut self,
        user_id: String,
        r1: Natural,
        r2: Natural,
        now: u64,
    ) -> (r: Result<(Natural, Natural), AuthError>)
        ensures
            match r {
                Ok((id, c)) => {
                    &&& old(self)@.registrations.contains_key(user_id@)
                    &&& c@ < old(self)@.group.q
                    &&& serial_of(id@) == old(self)@.next_serial
                    &&& !old(self)@.sessions.contains_key(id@)
                    &&& final(self)@ == (AuthState {
                        sessions: old(self)@.sessions.insert(
                            id@,
                            SessionView {
                                user_id: user_id@,
                                r1: r1@,
                                r2: r2@,
                                c: c@,
                                issued_at: now as nat,
                            },
                        ),
                        next_serial: old(self)@.next_serial + 1,
                        ..old(self)@
                    })
                },
                Err(e) => {
                    &&& e == AuthError::UnknownUser
                    &&& !old(self)@.registrations.contains_key(user_id@)
                    &&& final(self)@ == old(self)@
                },
            },
            final(self)@.well_formed(),
    {
        proof {
            use_type_invariant(&*self);
            lemma_well_formed(*self);
        }
        let c = ZKP::generate_rand_below(self.zkp.q());
        let nonce = ZKP::generate_rand_below(&span());
        let challenge = c.clone();
        let ghost serial = self.next_serial@;
        match self.open_session(user_id, r1, r2, c, nonce, now) {
            Ok(id) => {
                proof {
                    lemma_session_name(serial, nonce@);
                }
                Ok((id, challenge))
            },
            Err(e) => Err(e),
        }
    }

    /// Answers session `auth_id` with the response `s` at time `now`, and
    /// hands out a token, drawn at random below 2^128, where the response
    /// proves the user's secret.
    ///
    /// The session is removed whatever the outcome, so a name can be
    /// answered once.
    pub fn verify_authentication(&mut self, auth_id: &Natural, s: &Natural, now: u64) -> (r: Result<
        SessionToken,
        AuthError,
    >)
        ensures
            final(self)@ == old(self)@.close_session(auth_id@, s@, now as nat).0,
            match r {
                Ok(token) => token@ < nonce_span() && old(self)@.close_session(
                    auth_id@,
                    s@,
                    now as nat,
                ).1 == Ok::<(), AuthError>(()),
                Err(e) => old(self)@.close_session(auth_id@, s@, now as nat).1 == Err::<
                    (),
                    AuthError,
                >(e),
            },
            final(self)@.well_formed(),
    {
        proof {
            use_type_invariant(&*self);
            lemma_well_formed(*self);
        }
        let index = match self.find_session(auth_id) {
            Some(index) => index,
            None => {
                // The equations are evaluated all the same, so that a
                // refusal takes about as long with a session as without.
                let _decoy: bool = self.zkp.verify(s, s, s, s, s, s);
                return Err(AuthError::UnknownSession);
            },
        };
        let ghost entries = session_entries(self.sessions@);
        proof {
            lemma_distinct_sessions(self.sessions@);
            lemma_assoc_map_entry(entries, index as int);
            lemma_assoc_map_remove(entries, index as int);
            assert(session_entries(self.sessions@.remove(index as int)) =~= entries.remove(
                index as int,
            ));
        }
        let mut sessions: Vec<ChallengeSession> = Vec::new();
        std::mem::swap(&mut self.sessions, &mut sessions);
        let session = sessions.remove(index);
        std::mem::swap(&mut self.sessions, &mut sessions);
        proof {
            lemma_well_formed(*self);
        }
        if is_expired(session.issued_at, self.session_ttl, now) {
            let _decoy: bool = self.zkp.verify(s, s, s, s, s, s);
            return Err(AuthError::UnknownSession);
        }
        let found = match self.find_registration(&session.user_id) {
            Some(found) => found,
            None => {
                return Err(AuthError::UnknownUser);
            },
        };
        let registration = &self.registrations[found];
        proof {
            lemma_assoc_map_entry(registration_entries(self.registrations@), found as int);
        }
        if self.zkp.verify(
            &session.r1,
            &session.r2,
            &registration.y1,
            &registration.y2,
            &session.c,
            s,
        ) {
            Ok(SessionToken { value: ZKP::generate_rand_below(&span()) })
        } else {
            Err(AuthError::InvalidProof)
        }
    }

    /// Drops every session that can no longer be answered at time `now`,
    /// so that sessions nobody answers do not pile up.
    pub fn reap(&mut self, now: u64)
        ensures
            final(self)@ == old(self)@.reap(now as nat),
            final(self)@.well_formed(),
    {
        proof {
            use_type_invariant(&*self);
        }
        let ghost before = self.sessions@;
        let ghost state = self@;
        let ttl = self.session_ttl;
        let mut pending: Vec<ChallengeSession> = Vec::new();
        std::mem::swap(&mut self.sessions, &mut pending);
        let mut kept: Vec<ChallengeSession> = Vec::new();
        while pending.len() > 0
            invariant
                pending@ == before.take(pending.len() as int),
                pending.len() <= before.len(),
                distinct_serials(before),
                distinct_serials(kept@),
                forall|j: int|
                    0 <= j < kept.len() ==> before.contains(#[trigger] kept[j]) && live(
                        kept[j],
                        ttl,
                        now,
                    ),
                forall|j: int, i: int|
                    0 <= j < kept.len() && 0 <= i < pending.len() ==> serial_of(kept[j].auth_id@)
                        != serial_of(before[i].auth_id@),
                forall|i: int|
                    pending.len() <= i < before.len() && live(before[i], ttl, now)
                        ==> kept@.contains(#[trigger] before[i]),
            decreases pending.len(),
        {
            let ghost n = pending.len() as int;
            let ghost kept_before = kept@;
            let session = pending.pop().unwrap();
            assert(session == before[n - 1]);
            assert(pending@ =~= before.take(n - 1));
            if !is_expired(session.issued_at, ttl, now) {
                kept.push(session);
                assert(kept[kept.len() - 1] == before[n - 1]);
                assert forall|j: int| 0 <= j < kept.len() implies before.contains(
                    #[trigger] kept[j],
                ) && live(kept[j], ttl, now) by {
                    if j < kept_before.len() {
                        assert(kept[j] == kept_before[j]);
                    }
                }
                assert forall|j1: int, j2: int| 0 <= j1 < j2 < kept.len() implies serial_of(
                    kept[j1].auth_id@,
                ) != serial_of(kept[j2].auth_id@) by {
                    assert(kept[j1] == kept_before[j1]);
                    if j2 < kept_before.len() {
                        assert(kept[j2] == kept_before[j2]);
                    }
                }
                assert forall|j: int, i: int|
                    0 <= j < kept.len() && 0 <= i < pending.len() implies serial_of(
                    kept[j].auth_id@,
                ) != serial_of(before[i].auth_id@) by {
                    if j < kept_before.len() {
                        assert(kept[j] == kept_before[j]);
                    }
                }
            }
            assert forall|i: int|
                pending.len() <= i < before.len() && live(
                    before[i],
                    ttl,
                    now,
                ) implies kept@.contains(#[trigger] before[i]) by {
                if i >= n {
                    let j = choose|j: int| 0 <= j < kept_before.len() && kept_before[j] == before[i];
                    assert(kept[j] == before[i]);
                } else {
                    assert(kept[kept.len() - 1] == before[i]);
                }
            }
        }
        proof {
            lemma_reaped(before, kept@, state, now);
            assert forall|j: int| 0 <= j < kept.len() implies serial_of(kept[j].auth_id@)
                < self.next_serial@ by {
                assert(before.contains(kept[j]));
            }
        }
        std::mem::swap(&mut self.sessions, &mut kept);
        proof {
            lemma_well_formed(*self);
        }
    }
}

/// The number that bounds the random part of a name.
fn span() -> (r: Natural)
    ensures
        r@ == nonce_span(),
        r@ > 0,
{
    proof {
        lemma_session_name(0, 0);
    }
    Natural::from_bytes_be(NONCE_SPAN.as_slice())
}

fn is_expired(issued_at: u64, ttl: u64, now: u64) -> (r: bool)
    ensures
        r == (now >= issued_at + ttl),
{
    now >= issued_at && now - issued_at >= ttl
}

/// The sessions that are kept denote the map of the sessions before,
/// without those that have expired.
proof fn lemma_reaped(
    before: Seq<ChallengeSession>,
    kept: Seq<ChallengeSession>,
    state: AuthState,
    now: u64,
)
    requires
        distinct_serials(before),
        distinct_serials(kept),
        state.sessions == assoc_map(session_entries(before)),
        state.ttl <= u64::MAX,
        forall|j: int|
            0 <= j < kept.len() ==> before.contains(#[trigger] kept[j]) && live(
                kept[j],
                state.ttl as u64,
                now,
            ),
        forall|i: int|
            0 <= i < before.len() && live(before[i], state.ttl as u64, now) ==> kept.contains(
                #[trigger] before[i],
            ),
    ensures
        assoc_map(session_entries(kept)) == state.reap(now as nat).sessions,
{
    let old_entries = session_entries(before);
    let new_entries = session_entries(kept);
    let old_map = assoc_map(old_entries);
    let new_map = assoc_map(new_entries);
    let reaped = state.reap(now as nat).sessions;
    lemma_assoc_map_keys(old_entries);
    lemma_assoc_map_keys(new_entries);
    lemma_distinct_sessions(before);
    lemma_distinct_sessions(kept);
    assert forall|id: nat| #[trigger] new_map.contains_key(id) implies reaped.contains_key(id)
        && reaped[id] == new_map[id] by {
        assert(has_key(new_entries, id));
        let j = choose|j: int| 0 <= j < new_entries.len() && #[trigger] new_entries[j].0 == id;
        assert(before.contains(kept[j]));
        let i = choose|i: int| 0 <= i < before.len() && before[i] == kept[j];
        assert(old_entries[i].0 == id);
        lemma_assoc_map_entry(old_entries, i);
        lemma_assoc_map_entry(new_entries, j);
    }
    assert forall|id: nat| #[trigger] reaped.contains_key(id) implies new_map.contains_key(
        id,
    ) by {
        assert(has_key(old_entries, id));
        let i = choose|i: int| 0 <= i < old_entries.len() && #[trigger] old_entries[i].0 == id;
        lemma_assoc_map_entry(old_entries, i);
        assert(kept.contains(before[i]));
        let j = choose|j: int| 0 <= j < kept.len() && kept[j] == before[i];
        assert(new_entries[j].0 == id);
    }
    assert(new_map =~= reaped);
}

/// Sessions with distinct serial numbers have distinct names.
proof fn lemma_distinct_sessions(sessions: Seq<ChallengeSession>)
    requires
        distinct_serials(sessions),
    ensures
        distinct_keys(session_entries(sessions)),
{
}

/// Such sessions and registrations denote a well-formed state.
proof fn lemma_well_formed(store: Authenticator)
    requires
        store.inv(),
    ensures
        store@.well_formed(),
{
    let entries = session_entries(store.sessions@);
    lemma_assoc_map_keys(entries);
    lemma_assoc_map_keys(registration_entries(store.registrations@));
    lemma_distinct_sessions(store.sessions@);
    assert forall|id: nat| #[trigger] store@.sessions.contains_key(id) implies serial_of(id)
        < store@.next_serial && store@.registrations.contains_key(
        store@.sessions[id].user_id,
    ) by {
        assert(has_key(entries, id));
        let i = choose|i: int| 0 <= i < entries.len() && #[trigger] entries[i].0 == id;
        assert(store.sessions[i].auth_id@ == id);
        lemma_assoc_map_entry(entries, i);
    }
}

} // verus!
