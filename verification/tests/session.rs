use beebo::session::{
    connect_target, first_key_offer, key_candidates, next_key_offer, password_of, session_step,
    user_or, KeyOffer, KeyTry, SessionAction, SessionEvent, SessionState,
};
use beebo::ssh_config::SshHost;

#[test]
fn state_labels() {
    assert_eq!(SessionState::Idle.label(), "Idle");
    assert_eq!(SessionState::Connecting.label(), "Connecting...");
    assert_eq!(SessionState::NeedPassword.label(), "Password required");
    assert_eq!(SessionState::Authenticating.label(), "Authenticating...");
    assert_eq!(SessionState::Connected.label(), "Connected");
    assert_eq!(SessionState::Disconnected("x".to_string()).label(), "Disconnected");
    assert!(SessionState::Connected.is_connected());
    assert!(!SessionState::Idle.is_connected());
}

fn step(s: &SessionState, e: SessionEvent) -> (String, String) {
    let (s2, a) = session_step(s, e);
    let sa = match a {
        SessionAction::Connect => "connect".to_string(),
        SessionAction::TryKeys => "keys".to_string(),
        SessionAction::AskPassword => "ask".to_string(),
        SessionAction::SendPassword(p) => format!("send:{p}"),
        SessionAction::OpenShell => "shell".to_string(),
        SessionAction::Forward => "forward".to_string(),
        SessionAction::Stop => "stop".to_string(),
        SessionAction::Ignore => "ignore".to_string(),
    };
    let ss = match s2 {
        SessionState::Disconnected(m) => format!("disconnected:{m}"),
        other => other.label().to_string(),
    };
    (ss, sa)
}

#[test]
fn key_auth_course() {
    let s = SessionState::Idle;
    assert_eq!(step(&s, SessionEvent::Started), ("Connecting...".into(), "connect".into()));
    let s = SessionState::Connecting;
    assert_eq!(step(&s, SessionEvent::TransportUp), ("Connecting...".into(), "keys".into()));
    assert_eq!(step(&s, SessionEvent::KeyAuth(true)), ("Connecting...".into(), "shell".into()));
    assert_eq!(step(&s, SessionEvent::ShellReady), ("Connected".into(), "forward".into()));
    let s = SessionState::Connected;
    assert_eq!(
        step(&s, SessionEvent::Ended),
        ("disconnected:Session ended".into(), "stop".into())
    );
}

#[test]
fn password_course() {
    let s = SessionState::Connecting;
    assert_eq!(step(&s, SessionEvent::KeyAuth(false)), ("Password required".into(), "ask".into()));
    let s = SessionState::NeedPassword;
    assert_eq!(
        step(&s, SessionEvent::PasswordEntered(Some(b"  hunter2 \n".to_vec()))),
        ("Authenticating...".into(), "send:hunter2".into())
    );
    assert_eq!(
        step(&s, SessionEvent::PasswordEntered(None)),
        ("disconnected:Password input cancelled".into(), "stop".into())
    );
    let s = SessionState::Authenticating;
    assert_eq!(
        step(&s, SessionEvent::PasswordAuth(false)),
        ("disconnected:Authentication failed".into(), "stop".into())
    );
    assert_eq!(step(&s, SessionEvent::PasswordAuth(true)), ("Authenticating...".into(), "shell".into()));
}

#[test]
fn failures_disconnect_with_their_message() {
    for s in [SessionState::Idle, SessionState::Connecting, SessionState::Connected] {
        assert_eq!(
            step(&s, SessionEvent::Failed("connection refused".to_string())),
            ("disconnected:connection refused".into(), "stop".into())
        );
    }
}

#[test]
fn events_out_of_place_are_ignored() {
    let s = SessionState::Idle;
    assert_eq!(step(&s, SessionEvent::Ended), ("Idle".into(), "ignore".into()));
    let s = SessionState::Disconnected("gone".to_string());
    assert_eq!(step(&s, SessionEvent::Started), ("disconnected:gone".into(), "ignore".into()));
}

#[test]
fn password_line_is_trimmed_and_decoded() {
    assert_eq!(password_of("pässwörd\n".as_bytes()), "pässwörd");
    assert_eq!(password_of(b"\t\n"), "");
    // an invalid byte becomes the replacement character
    assert_eq!(password_of(&[0x61, 0xff, 0x62]), "a\u{fffd}b");
}

#[test]
fn key_candidates_expand_home() {
    assert_eq!(
        key_candidates("/home/u", &Some("~/.ssh/work".to_string())),
        vec!["/home/u/.ssh/work", "/home/u/.ssh/id_ed25519", "/home/u/.ssh/id_rsa"]
    );
    assert_eq!(
        key_candidates("/home/u", &Some("/keys/k".to_string())),
        vec!["/keys/k", "/home/u/.ssh/id_ed25519", "/home/u/.ssh/id_rsa"]
    );
    assert_eq!(key_candidates(".", &None), vec!["./.ssh/id_ed25519", "./.ssh/id_rsa"]);
}

#[test]
fn user_falls_back_to_login_then_root() {
    assert_eq!(user_or(&Some("admin".to_string()), Some("me".to_string())), "admin");
    assert_eq!(user_or(&None, Some("me".to_string())), "me");
    assert_eq!(user_or(&None, None), "root");
}

#[test]
fn connect_target_of_host() {
    let h = SshHost {
        name: "box".to_string(),
        hostname: Some("10.1.1.1".to_string()),
        user: Some("ops".to_string()),
        port: Some(2022),
        identity_file: Some("~/.ssh/k".to_string()),
    };
    let t = connect_target(&h);
    assert_eq!(t.host, "10.1.1.1");
    assert_eq!(t.port, 2022);
    assert_eq!(t.user, "ops");
    assert_eq!(t.identity_file.as_deref(), Some("~/.ssh/k"));
    let bare = SshHost { name: "b".to_string(), hostname: None, user: None, port: None, identity_file: None };
    let t2 = connect_target(&bare);
    assert_eq!(t2.host, "b");
    assert_eq!(t2.port, 22);
    assert!(!t2.user.is_empty());
}

#[test]
fn only_disconnected_sessions_reconnect() {
    use_reconnect();
}

fn use_reconnect() {
    assert!(beebo::session::needs_reconnect(&SessionState::Disconnected("x".into())));
    assert!(!beebo::session::needs_reconnect(&SessionState::Connected));
    assert!(!beebo::session::needs_reconnect(&SessionState::Idle));
}

/// Runs the key offering over three candidates going as `outcomes`, and
/// returns the keys offered and the end.
fn offer_all(outcomes: [KeyTry; 3]) -> (Vec<usize>, KeyOffer) {
    let mut tried = Vec::new();
    let mut offer = first_key_offer(outcomes.len());
    while let KeyOffer::Try(i) = offer {
        tried.push(i);
        offer = next_key_offer(i, outcomes.len(), outcomes[i]);
    }
    (tried, offer)
}

#[test]
fn keys_are_offered_in_order_until_one_is_accepted() {
    assert_eq!(first_key_offer(0), KeyOffer::Exhausted);
    assert_eq!(
        offer_all([KeyTry::Missing, KeyTry::Accepted, KeyTry::Accepted]),
        (vec![0, 1], KeyOffer::Authenticated)
    );
    assert_eq!(
        offer_all([KeyTry::Unreadable, KeyTry::Refused, KeyTry::Missing]),
        (vec![0, 1, 2], KeyOffer::Exhausted)
    );
    assert_eq!(offer_all([KeyTry::Accepted, KeyTry::Refused, KeyTry::Refused]).0, vec![0]);
    assert_eq!(next_key_offer(2, 3, KeyTry::Refused), KeyOffer::Exhausted);
    assert_eq!(next_key_offer(0, 3, KeyTry::Refused), KeyOffer::Try(1));
}
