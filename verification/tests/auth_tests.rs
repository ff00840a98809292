use chaum_pedersen::auth::Authenticator;
use chaum_pedersen::error::AuthError;
use chaum_pedersen::natural::Natural;
use chaum_pedersen::params::Profile;
use chaum_pedersen::zkp::ZKP;

fn n(value: u32) -> Natural {
    Natural::from_u32(value)
}

fn toy() -> ZKP {
    ZKP::new(n(23), n(11), n(4), n(9)).unwrap()
}

/// The name with the given serial number and random part: the serial number
/// in the high byte, the random part in the sixteen bytes below it.
fn name(serial: u8, nonce: u8) -> Natural {
    let mut bytes = vec![0u8; 17];
    bytes[0] = serial;
    bytes[16] = nonce;
    Natural::from_bytes_be(&bytes)
}

fn serial_of(name: &Natural) -> Natural {
    let bytes = name.to_bytes_be();
    if bytes.len() <= 16 {
        n(0)
    } else {
        Natural::from_bytes_be(&bytes[..bytes.len() - 16])
    }
}

/// A client that knows the secret `x` in the group of `zkp`.
struct Client {
    zkp: ZKP,
    x: Natural,
}

impl Client {
    fn toy(x: u32) -> Client {
        Client { zkp: toy(), x: n(x) }
    }

    fn public_values(&self) -> (Natural, Natural) {
        self.zkp.public_values(&self.x)
    }

    fn commit(&self) -> (Natural, Natural, Natural) {
        self.zkp.commit()
    }

    fn respond(&self, k: &Natural, c: &Natural) -> Natural {
        self.zkp.solve(k, c, &self.x)
    }
}

fn registered(user: &str, client: &Client, ttl: u64) -> Authenticator {
    let mut auth = Authenticator::new(toy(), ttl);
    let (y1, y2) = client.public_values();
    assert!(auth.register(user.to_string(), y1, y2).is_ok());
    auth
}

#[test]
fn register_succeeds_once_per_user() {
    let mut auth = Authenticator::new(toy(), 60);
    assert_eq!(auth.register("alice".to_string(), n(2), n(3)), Ok(()));
    assert_eq!(auth.register("alice".to_string(), n(2), n(3)), Err(AuthError::AlreadyRegistered));
    assert_eq!(auth.register("alice".to_string(), n(8), n(4)), Err(AuthError::AlreadyRegistered));
    assert_eq!(auth.register("bob".to_string(), n(2), n(3)), Ok(()));
    assert_eq!(auth.register("".to_string(), n(2), n(3)), Ok(()));
    assert_eq!(auth.register("".to_string(), n(2), n(3)), Err(AuthError::AlreadyRegistered));
}

#[test]
fn a_repeated_registration_does_not_replace_the_first() {
    let alice = Client::toy(6);
    let mut auth = registered("alice", &alice, 60);
    let impostor = Client::toy(7);
    let (y1, y2) = impostor.public_values();
    assert_eq!(auth.register("alice".to_string(), y1, y2), Err(AuthError::AlreadyRegistered));

    let (k, r1, r2) = alice.commit();
    let (id, c) = auth.create_authentication_challenge("alice".to_string(), r1, r2, 0).unwrap();
    assert!(auth.verify_authentication(&id, &alice.respond(&k, &c), 0).is_ok());
}

#[test]
fn a_challenge_needs_a_registration() {
    let mut auth = Authenticator::new(toy(), 60);
    let outcome = auth.create_authentication_challenge("alice".to_string(), n(8), n(4), 0);
    assert_eq!(outcome.err(), Some(AuthError::UnknownUser));
    assert_eq!(auth.register("alice".to_string(), n(2), n(3)), Ok(()));
    assert!(auth.create_authentication_challenge("alice".to_string(), n(8), n(4), 0).is_ok());
    let outcome = auth.create_authentication_challenge("Alice".to_string(), n(8), n(4), 0);
    assert_eq!(outcome.err(), Some(AuthError::UnknownUser));
}

#[test]
fn challenges_are_below_q_and_names_are_fresh() {
    let alice = Client::toy(6);
    let mut auth = registered("alice", &alice, 60);
    let mut names: Vec<Natural> = Vec::new();
    for round in 0..40u32 {
        let (id, c) =
            auth.create_authentication_challenge("alice".to_string(), n(8), n(4), 0).unwrap();
        assert!((0..11).any(|v| c == n(v)));
        assert_eq!(serial_of(&id), n(round));
        for earlier in &names {
            assert!(*earlier != id);
        }
        names.push(id);
    }
    // the low digits are drawn at random
    assert!(names[1] != name(1, 0) || names[2] != name(2, 0));
}

#[test]
fn open_session_numbers_the_sessions() {
    let mut auth = Authenticator::new(toy(), 60);
    assert_eq!(auth.register("alice".to_string(), n(2), n(3)), Ok(()));
    let first = auth.open_session("alice".to_string(), n(8), n(4), n(4), n(77), 10).unwrap();
    let second = auth.open_session("alice".to_string(), n(8), n(4), n(4), n(77), 10).unwrap();
    assert_eq!(first, name(0, 77));
    assert_eq!(first, n(77));
    assert_eq!(second, name(1, 77));
    let refused = auth.open_session("bob".to_string(), n(8), n(4), n(4), n(77), 10);
    assert_eq!(refused.err(), Some(AuthError::UnknownUser));
    // a refusal uses up no serial number
    let third = auth.open_session("alice".to_string(), n(8), n(4), n(4), n(5), 10).unwrap();
    assert_eq!(third, name(2, 5));
}

#[test]
fn open_session_keeps_the_random_part_below_the_serial_number() {
    let mut auth = Authenticator::new(toy(), 60);
    assert_eq!(auth.register("alice".to_string(), n(2), n(3)), Ok(()));
    // 2^128 + 3 leaves the random part 3, and 2^136 - 1 leaves 2^128 - 1
    let first = auth.open_session("alice".to_string(), n(8), n(4), n(4), name(1, 3), 0).unwrap();
    assert_eq!(first, name(0, 3));
    let wide = Natural::from_bytes_be(&[0xff; 17]);
    let second = auth.open_session("alice".to_string(), n(8), n(4), n(4), wide, 0).unwrap();
    let mut expected = vec![0xffu8; 17];
    expected[0] = 1;
    assert_eq!(second, Natural::from_bytes_be(&expected));
}

#[test]
fn the_literal_scenario_logs_in() {
    // x = 6, k = 7, c = 4: y = (2, 3), r = (8, 4), s = 5
    let mut auth = Authenticator::new(toy(), 60);
    assert_eq!(auth.register("alice".to_string(), n(2), n(3)), Ok(()));
    let id = auth.open_session("alice".to_string(), n(8), n(4), n(4), n(1), 0).unwrap();
    assert!(auth.verify_authentication(&id, &n(5), 0).is_ok());

    // the response for x' = 7 is refused
    let id = auth.open_session("alice".to_string(), n(8), n(4), n(4), n(1), 0).unwrap();
    let wrong = toy().solve(&n(7), &n(4), &n(7));
    assert_eq!(auth.verify_authentication(&id, &wrong, 0).err(), Some(AuthError::InvalidProof));
}

#[test]
fn end_to_end_login() {
    let alice = Client::toy(6);
    let mut auth = Authenticator::new(toy(), 60);
    let (y1, y2) = alice.public_values();
    assert_eq!(auth.register("alice".to_string(), y1, y2), Ok(()));
    let (y1, y2) = alice.public_values();
    assert_eq!(auth.register("alice".to_string(), y1, y2), Err(AuthError::AlreadyRegistered));

    for now in 0..20u64 {
        let (k, r1, r2) = alice.commit();
        let (id, c) =
            auth.create_authentication_challenge("alice".to_string(), r1, r2, now).unwrap();
        let s = alice.respond(&k, &c);
        assert!(auth.verify_authentication(&id, &s, now).is_ok());
        assert_eq!(auth.verify_authentication(&id, &s, now).err(), Some(AuthError::UnknownSession));
    }
}

#[test]
fn a_session_is_answered_once_after_a_wrong_response_too() {
    let alice = Client::toy(6);
    let mut auth = registered("alice", &alice, 60);
    let id = auth.open_session("alice".to_string(), n(8), n(4), n(4), n(9), 0).unwrap();
    // the right response is 5
    assert_eq!(auth.verify_authentication(&id, &n(6), 0).err(), Some(AuthError::InvalidProof));
    assert_eq!(auth.verify_authentication(&id, &n(5), 0).err(), Some(AuthError::UnknownSession));
    assert_eq!(auth.verify_authentication(&id, &n(6), 0).err(), Some(AuthError::UnknownSession));
}

#[test]
fn an_unknown_name_finds_no_session() {
    let alice = Client::toy(6);
    let mut auth = registered("alice", &alice, 60);
    let missing = name(0, 0);
    assert_eq!(auth.verify_authentication(&missing, &n(5), 0).err(), Some(AuthError::UnknownSession));
    let id = auth.open_session("alice".to_string(), n(8), n(4), n(4), n(9), 0).unwrap();
    // the serial number alone is not the name
    let guessed = name(0, 8);
    assert_eq!(auth.verify_authentication(&guessed, &n(5), 0).err(), Some(AuthError::UnknownSession));
    let other = name(1, 9);
    assert_eq!(auth.verify_authentication(&other, &n(5), 0).err(), Some(AuthError::UnknownSession));
    // a wrong guess leaves the session in place
    assert!(auth.verify_authentication(&id, &n(5), 0).is_ok());
}

#[test]
fn a_name_is_found_whatever_bytes_spell_it() {
    let alice = Client::toy(6);
    let mut auth = registered("alice", &alice, 60);
    auth.open_session("alice".to_string(), n(8), n(4), n(4), n(9), 0).unwrap();
    let spelled = Natural::from_bytes_be(&[0, 0, 9]);
    assert!(auth.verify_authentication(&spelled, &n(5), 0).is_ok());
}

#[test]
fn a_session_expires_after_its_time_to_live() {
    let alice = Client::toy(6);
    let mut auth = registered("alice", &alice, 60);
    let id = auth.open_session("alice".to_string(), n(8), n(4), n(4), n(9), 100).unwrap();
    assert_eq!(auth.verify_authentication(&id, &n(5), 160).err(), Some(AuthError::UnknownSession));
    // the late answer used the session up
    assert_eq!(auth.verify_authentication(&id, &n(5), 100).err(), Some(AuthError::UnknownSession));

    let id = auth.open_session("alice".to_string(), n(8), n(4), n(4), n(9), 100).unwrap();
    assert!(auth.verify_authentication(&id, &n(5), 159).is_ok());

    // a clock that runs backwards expires nothing
    let id = auth.open_session("alice".to_string(), n(8), n(4), n(4), n(9), 100).unwrap();
    assert!(auth.verify_authentication(&id, &n(5), 3).is_ok());
}

#[test]
fn a_time_to_live_of_zero_lets_nobody_in() {
    let alice = Client::toy(6);
    let mut auth = registered("alice", &alice, 0);
    let id = auth.open_session("alice".to_string(), n(8), n(4), n(4), n(9), 100).unwrap();
    assert_eq!(auth.verify_authentication(&id, &n(5), 100).err(), Some(AuthError::UnknownSession));
}

#[test]
fn expiry_does_not_overflow_at_the_end_of_time() {
    let alice = Client::toy(6);
    let mut auth = registered("alice", &alice, u64::MAX);
    let id = auth.open_session("alice".to_string(), n(8), n(4), n(4), n(9), u64::MAX).unwrap();
    assert!(auth.verify_authentication(&id, &n(5), u64::MAX).is_ok());
    let id = auth.open_session("alice".to_string(), n(8), n(4), n(4), n(9), 0).unwrap();
    assert_eq!(auth.verify_authentication(&id, &n(5), u64::MAX).err(), Some(AuthError::UnknownSession));
    let id = auth.open_session("alice".to_string(), n(8), n(4), n(4), n(9), 1).unwrap();
    assert!(auth.verify_authentication(&id, &n(5), u64::MAX).is_ok());
}

#[test]
fn reap_drops_expired_sessions_only() {
    let alice = Client::toy(6);
    let mut auth = registered("alice", &alice, 60);
    let old = auth.open_session("alice".to_string(), n(8), n(4), n(4), n(1), 0).unwrap();
    let mid = auth.open_session("alice".to_string(), n(8), n(4), n(4), n(2), 30).unwrap();
    let new = auth.open_session("alice".to_string(), n(8), n(4), n(4), n(3), 50).unwrap();
    auth.reap(59);
    auth.reap(60);
    auth.reap(89);
    // answered at a time at which none of them would have expired
    assert_eq!(auth.verify_authentication(&old, &n(5), 50).err(), Some(AuthError::UnknownSession));
    assert!(auth.verify_authentication(&mid, &n(5), 50).is_ok());
    assert!(auth.verify_authentication(&new, &n(5), 50).is_ok());
}

#[test]
fn reap_keeps_the_order_of_serial_numbers() {
    let alice = Client::toy(6);
    let mut auth = registered("alice", &alice, 10);
    for now in 0..10u64 {
        auth.open_session("alice".to_string(), n(8), n(4), n(4), n(1), now).unwrap();
    }
    auth.reap(15);
    let next = auth.open_session("alice".to_string(), n(8), n(4), n(4), n(1), 15).unwrap();
    assert_eq!(next, name(10, 1));
    for serial in 0..6u8 {
        let id = name(serial, 1);
        assert_eq!(auth.verify_authentication(&id, &n(5), 15).err(), Some(AuthError::UnknownSession));
    }
    for serial in 6..11u8 {
        let id = name(serial, 1);
        assert!(auth.verify_authentication(&id, &n(5), 15).is_ok());
    }
}

#[test]
fn sessions_of_different_users_do_not_mix() {
    let alice = Client::toy(6);
    let bob = Client::toy(3);
    let mut auth = registered("alice", &alice, 60);
    let (y1, y2) = bob.public_values();
    assert_eq!(auth.register("bob".to_string(), y1, y2), Ok(()));

    let (ka, a1, a2) = alice.commit();
    let (kb, b1, b2) = bob.commit();
    let (ida, ca) = auth.create_authentication_challenge("alice".to_string(), a1, a2, 0).unwrap();
    let (idb, cb) = auth.create_authentication_challenge("bob".to_string(), b1, b2, 0).unwrap();
    assert!(auth.verify_authentication(&idb, &bob.respond(&kb, &cb), 1).is_ok());
    assert!(auth.verify_authentication(&ida, &alice.respond(&ka, &ca), 1).is_ok());

    // bob cannot answer for alice, unless the challenge is 0
    let (k, r1, r2) = bob.commit();
    let (id, c) = auth.create_authentication_challenge("alice".to_string(), r1, r2, 2).unwrap();
    let outcome = auth.verify_authentication(&id, &bob.respond(&k, &c), 2);
    assert_eq!(outcome.is_ok(), c.is_zero());
}

#[test]
fn tokens_differ_from_login_to_login() {
    let alice = Client::toy(6);
    let mut auth = registered("alice", &alice, 60);
    let first = auth.open_session("alice".to_string(), n(8), n(4), n(4), n(1), 0).unwrap();
    let second = auth.open_session("alice".to_string(), n(8), n(4), n(4), n(1), 0).unwrap();
    let one = auth.verify_authentication(&first, &n(5), 0).unwrap();
    let two = auth.verify_authentication(&second, &n(5), 0).unwrap();
    assert!(one.value() != two.value());
    assert!(one.value().to_bytes_be().len() <= 16);
}

#[test]
fn end_to_end_login_in_the_rfc_5114_group() {
    let zkp = ZKP::provision(Profile::Rfc5114).unwrap();
    let client = Client { zkp: zkp.clone(), x: n(123_456_789) };
    let mut auth = Authenticator::new(zkp, 60);
    assert_eq!(*auth.zkp().beta(), *client.zkp.beta());

    let (y1, y2) = client.public_values();
    assert_eq!(auth.register("alice".to_string(), y1, y2), Ok(()));
    let (k, r1, r2) = client.commit();
    let (id, c) = auth.create_authentication_challenge("alice".to_string(), r1, r2, 5).unwrap();
    assert!(auth.verify_authentication(&id, &client.respond(&k, &c), 6).is_ok());

    let (k, r1, r2) = client.commit();
    let (id, c) = auth.create_authentication_challenge("alice".to_string(), r1, r2, 7).unwrap();
    let wrong = client.zkp.solve(&k, &c, &n(123_456_788));
    let outcome = auth.verify_authentication(&id, &wrong, 8);
    assert_eq!(outcome.is_ok(), c.is_zero());
}
