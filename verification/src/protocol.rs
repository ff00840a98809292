//! The login protocol as a state machine over plain mathematical values:
//! what it remembers, what each operation does to that, and what follows.

use crate::error::AuthError;
use crate::natural::{be_value, lemma_be_value_positive, mod_exp};
use crate::theory::lemma_completeness;
use crate::zkp::ParameterSet;
use vstd::arithmetic::div_mod::{lemma_fundamental_div_mod_converse, lemma_mod_bound};
use vstd::prelude::*;

verus! {

/// What a user registered: `y1 = alpha^x mod p` and `y2 = beta^x mod p` for
/// the secret `x`, which the store never sees.
pub struct RegistrationView {
    pub y1: nat,
    pub y2: nat,
}

/// One login attempt in flight: the user, the commitments `(r1, r2)` that
/// the user sent, the challenge `c` that was issued, and when.
pub struct SessionView {
    pub user_id: Seq<char>,
    pub r1: nat,
    pub r2: nat,
    pub c: nat,
    pub issued_at: nat,
}

/// The random part of a session's name is a number below this one, 2^128,
/// given here in big-endian bytes.
pub const NONCE_SPAN: [u8; 17] = [1, 0, 0, 0, 0, 0, 0, 0, 0, 0, 0, 0, 0, 0, 0, 0, 0];

/// The number that `NONCE_SPAN` spells.
pub open spec fn nonce_span() -> nat {
    be_value(NONCE_SPAN@)
}

/// The name of the session with serial number `serial` and random part
/// `nonce`: the serial number, which no two sessions share, in the high
/// digits, and the random part, which makes the name hard to guess, in
/// the low ones.
pub open spec fn session_name(serial: nat, nonce: nat) -> nat {
    serial * nonce_span() + nonce % nonce_span()
}

/// The serial number in a session's name.
pub open spec fn serial_of(name: nat) -> nat {
    name / nonce_span()
}

/// The random part of a name never reaches its serial number.
pub proof fn lemma_session_name(serial: nat, nonce: nat)
    ensures
        nonce_span() > 0,
        serial_of(session_name(serial, nonce)) == serial,
{
    lemma_be_value_positive(NONCE_SPAN@, 0);
    let span = nonce_span() as int;
    lemma_mod_bound(nonce as int, span);
    assert(serial * nonce_span() == serial as int * span);
    lemma_fundamental_div_mod_converse(
        session_name(serial, nonce) as int,
        span,
        serial as int,
        nonce as int % span,
    );
}

/// Everything the protocol remembers.
pub struct AuthState {
    pub group: ParameterSet,
    /// How long a session can be answered, in the unit of `now`.
    pub ttl: nat,
    pub registrations: Map<Seq<char>, RegistrationView>,
    /// The sessions in flight, by name.
    pub sessions: Map<nat, SessionView>,
    /// The serial number of the next session.
    pub next_serial: nat,
}

impl AuthState {
    /// Every session was issued before the next one will be, to a user
    /// who is registered.
    pub open spec fn well_formed(self) -> bool {
        forall|id: nat| #[trigger]
            self.sessions.contains_key(id) ==> {
                &&& serial_of(id) < self.next_serial
                &&& self.registrations.contains_key(self.sessions[id].user_id)
            }
    }

    /// A session can be answered for `ttl` units of time after it was issued.
    pub open spec fn expired(self, session: SessionView, now: nat) -> bool {
        now >= session.issued_at + self.ttl
    }

    /// Registering `user` with the public values `(y1, y2)`: refused where
    /// the user is registered already, stored otherwise.
    pub open spec fn register(self, user: Seq<char>, y1: nat, y2: nat) -> (AuthState, Result<
        (),
        AuthError,
    >) {
        if self.registrations.contains_key(user) {
            (self, Err(AuthError::AlreadyRegistered))
        } else {
            (
                AuthState {
                    registrations: self.registrations.insert(user, RegistrationView { y1, y2 }),
                    ..self
                },
                Ok(()),
            )
        }
    }

    /// Opening a session for `user` at time `now`, with commitments
    /// `(r1, r2)`, challenge `c` and `nonce` for the random part of its
    /// name: refused where the user is not registered; otherwise the
    /// session is stored under the name with the next serial number.
    pub open spec fn open_session(
        self,
        user: Seq<char>,
        r1: nat,
        r2: nat,
        c: nat,
        nonce: nat,
        now: nat,
    ) -> (AuthState, Result<nat, AuthError>) {
        if !self.registrations.contains_key(user) {
            (self, Err(AuthError::UnknownUser))
        } else {
            let id = session_name(self.next_serial, nonce);
            let session = SessionView { user_id: user, r1, r2, c, issued_at: now };
            (
                AuthState {
                    sessions: self.sessions.insert(id, session),
                    next_serial: self.next_serial + 1,
                    ..self
                },
                Ok(id),
            )
        }
    }

    /// Answering session `id` with response `s` at time `now`.
    ///
    /// An unknown name changes nothing. A known session is removed whatever
    /// follows: the answer comes too late, the user is gone, the response
    /// is wrong, or the response is right.
    pub open spec fn close_session(self, id: nat, s: nat, now: nat) -> (AuthState, Result<
        (),
        AuthError,
    >) {
        if !self.sessions.contains_key(id) {
            (self, Err(AuthError::UnknownSession))
        } else {
            let session = self.sessions[id];
            let after = AuthState { sessions: self.sessions.remove(id), ..self };
            if self.expired(session, now) {
                (after, Err(AuthError::UnknownSession))
            } else if !self.registrations.contains_key(session.user_id) {
                (after, Err(AuthError::UnknownUser))
            } else {
                let registration = self.registrations[session.user_id];
                if self.group.accepts(
                    session.r1,
                    session.r2,
                    registration.y1,
                    registration.y2,
                    session.c,
                    s,
                ) {
                    (after, Ok(()))
                } else {
                    (after, Err(AuthError::InvalidProof))
                }
            }
        }
    }

    /// Dropping every session that can no longer be answered at time `now`.
    pub open spec fn reap(self, now: nat) -> AuthState {
        AuthState {
            sessions: Map::new(
                |id: nat| self.sessions.contains_key(id) && !self.expired(self.sessions[id], now),
                |id: nat| self.sessions[id],
            ),
            ..self
        }
    }
}

/// Every operation keeps the state well formed.
pub proof fn lemma_steps_keep_well_formed(
    state: AuthState,
    user: Seq<char>,
    id: nat,
    a: nat,
    b: nat,
    c: nat,
    nonce: nat,
    now: nat,
)
    requires
        state.well_formed(),
    ensures
        state.register(user, a, b).0.well_formed(),
        state.open_session(user, a, b, c, nonce, now).0.well_formed(),
        state.close_session(id, a, now).0.well_formed(),
        state.reap(now).well_formed(),
{
    lemma_session_name(state.next_serial, nonce);
}

/// Registrations stay: no operation removes or changes one.
pub proof fn lemma_registrations_stay(
    state: AuthState,
    user: Seq<char>,
    id: nat,
    a: nat,
    b: nat,
    c: nat,
    nonce: nat,
    now: nat,
    registered: Seq<char>,
)
    requires
        state.registrations.contains_key(registered),
    ensures
        state.register(user, a, b).0.registrations.contains_key(registered),
        state.register(user, a, b).0.registrations[registered] == state.registrations[registered],
        state.open_session(user, a, b, c, nonce, now).0.registrations == state.registrations,
        state.close_session(id, a, now).0.registrations == state.registrations,
        state.reap(now).registrations == state.registrations,
{
}

/// An answer finds the user of its session: in a well-formed state no
/// answer fails for want of a registration.
pub proof fn lemma_answers_find_users(state: AuthState, id: nat, s: nat, now: nat)
    requires
        state.well_formed(),
    ensures
        state.close_session(id, s, now).1 != Err::<(), AuthError>(AuthError::UnknownUser),
{
}

/// A user registers once: after a registration that succeeded, another one
/// for the same user is refused, whatever values it brings.
pub proof fn lemma_registers_once(state: AuthState, user: Seq<char>, y1: nat, y2: nat, z1: nat, z2: nat)
    requires
        state.register(user, y1, y2).1 is Ok,
    ensures
        state.register(user, y1, y2).0.register(user, z1, z2) == (
            state.register(user, y1, y2).0,
            Err::<(), AuthError>(AuthError::AlreadyRegistered),
        ),
{
}

/// Every session gets a name of its own: the name of a new session is not
/// held by any session in flight, and the next session gets another one.
pub proof fn lemma_names_are_fresh(
    state: AuthState,
    user: Seq<char>,
    r1: nat,
    r2: nat,
    c: nat,
    nonce: nat,
    now: nat,
    next_user: Seq<char>,
    next_r1: nat,
    next_r2: nat,
    next_c: nat,
    next_nonce: nat,
    later: nat,
)
    requires
        state.well_formed(),
        state.open_session(user, r1, r2, c, nonce, now).1 is Ok,
    ensures
        !state.sessions.contains_key(state.open_session(user, r1, r2, c, nonce, now).1->Ok_0),
        state.open_session(user, r1, r2, c, nonce, now).0.open_session(
            next_user,
            next_r1,
            next_r2,
            next_c,
            next_nonce,
            later,
        ).1 != state.open_session(user, r1, r2, c, nonce, now).1,
{
    lemma_session_name(state.next_serial, nonce);
    lemma_session_name(state.next_serial + 1, next_nonce);
}

/// A session is answered once: after one answer to a name, right or wrong,
/// in time or late, every further answer to that name finds no session.
pub proof fn lemma_single_use(state: AuthState, id: nat, s: nat, now: nat, s2: nat, now2: nat)
    ensures
        state.close_session(id, s, now).0.close_session(id, s2, now2).1 == Err::<(), AuthError>(
            AuthError::UnknownSession,
        ),
        state.close_session(id, s, now).0.close_session(id, s2, now2).0 == state.close_session(
            id,
            s,
            now,
        ).0,
{
}

/// An honest login succeeds. In a consistent group: a user who registered `alpha^x`, `beta^x`, committed to `alpha^k`,
/// `beta^k`, and answers the challenge in time with the response computed
/// from `k`, the challenge and `x`, is let in, whatever happened to other
/// users and sessions in between.
pub proof fn lemma_honest_login(
    state: AuthState,
    user: Seq<char>,
    id: nat,
    x: nat,
    k: nat,
    now: nat,
)
    requires
        state.group.consistent(),
        state.registrations.contains_key(user),
        state.registrations[user] == (RegistrationView {
            y1: mod_exp(state.group.alpha, x, state.group.p),
            y2: mod_exp(state.group.beta, x, state.group.p),
        }),
        state.sessions.contains_key(id),
        state.sessions[id].user_id == user,
        state.sessions[id].r1 == mod_exp(state.group.alpha, k, state.group.p),
        state.sessions[id].r2 == mod_exp(state.group.beta, k, state.group.p),
        !state.expired(state.sessions[id], now),
    ensures
        state.close_session(id, state.group.response(k, state.sessions[id].c, x), now).1 is Ok,
{
    lemma_completeness(state.group, x, k, state.sessions[id].c);
}

} // verus!
