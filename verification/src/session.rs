//! One host's SSH session: its state, what it connects with, and the
//! decisions that take it from connecting to connected or disconnected.
//!
//! The network work (connecting, authenticating, the remote shell) is done
//! by the caller; `session_step` says, for the state the session is in and
//! what just happened, which state it is in next and what to do.
use vstd::prelude::*;
use vstd::utf8::{decode_utf8, valid_utf8};

use crate::ssh_config::{effective_hostname_of, effective_port_of, opt_view, SshHost};
use crate::text::{chars_of, has_prefix, push_str, string_of, sub_chars, trim, trim_chars};

verus! {

/// State of an SSH session.
#[derive(Debug, Clone)]
pub enum SessionState {
    Idle,
    Connecting,
    NeedPassword,
    Authenticating,
    Connected,
    Disconnected(String),
}

/// The value of a [`SessionState`], its message taken by its view.
pub enum SessionStateView {
    Idle,
    Connecting,
    NeedPassword,
    Authenticating,
    Connected,
    Disconnected(Seq<char>),
}

impl View for SessionState {
    type V = SessionStateView;

    open spec fn view(&self) -> SessionStateView {
        match self {
            SessionState::Idle => SessionStateView::Idle,
            SessionState::Connecting => SessionStateView::Connecting,
            SessionState::NeedPassword => SessionStateView::NeedPassword,
            SessionState::Authenticating => SessionStateView::Authenticating,
            SessionState::Connected => SessionStateView::Connected,
            SessionState::Disconnected(m) => SessionStateView::Disconnected(m@),
        }
    }
}

/// The text shown for a session state.
pub open spec fn state_label(s: SessionStateView) -> Seq<char> {
    match s {
        SessionStateView::Idle => "Idle"@,
        SessionStateView::Connecting => "Connecting..."@,
        SessionStateView::NeedPassword => "Password required"@,
        SessionStateView::Authenticating => "Authenticating..."@,
        SessionStateView::Connected => "Connected"@,
        SessionStateView::Disconnected(_) => "Disconnected"@,
    }
}

impl SessionState {
    pub fn label(&self) -> (r: &str)
        ensures
            r@ == state_label(self@),
    {
        match self {
            SessionState::Idle => "Idle",
            SessionState::Connecting => "Connecting...",
            SessionState::NeedPassword => "Password required",
            SessionState::Authenticating => "Authenticating...",
            SessionState::Connected => "Connected",
            SessionState::Disconnected(_) => "Disconnected",
        }
    }

    /// A copy of this state.
    pub fn duplicate(&self) -> (r: SessionState)
        ensures
            r@ == self@,
    {
        match self {
            SessionState::Idle => SessionState::Idle,
            SessionState::Connecting => SessionState::Connecting,
            SessionState::NeedPassword => SessionState::NeedPassword,
            SessionState::Authenticating => SessionState::Authenticating,
            SessionState::Connected => SessionState::Connected,
            SessionState::Disconnected(m) => SessionState::Disconnected(m.clone()),
        }
    }

    pub fn is_connected(&self) -> (b: bool)
        ensures
            b == (self@ is Connected),
    {
        match self {
            SessionState::Connected => true,
            _ => false,
        }
    }
}

// ---------------------------------------------------------------------------
// What a session connects with
// ---------------------------------------------------------------------------

/// Host name, port, user and identity file a session connects with.
pub struct ConnectTarget {
    pub host: String,
    pub port: u16,
    pub user: String,
    pub identity_file: Option<String>,
}

/// The user to log in as: the configured one, else the name of the local
/// user (`login`, when it could be found), else `root`.
pub open spec fn user_of(configured: Option<Seq<char>>, login: Option<Seq<char>>) -> Seq<char> {
    match configured {
        Some(u) => u,
        None => match login {
            Some(n) => n,
            None => "root"@,
        },
    }
}

/// The user to log in as, given the local user's name `login`.
pub fn user_or(configured: &Option<String>, login: Option<String>) -> (r: String)
    ensures
        r@ == user_of(opt_view(*configured), opt_view(login)),
{
    match configured {
        Some(u) => u.clone(),
        None => match login {
            Some(n) => n,
            None => "root".to_owned(),
        },
    }
}

/// The name of the user running this program (`whoami::username`), when
/// it can be found. Which name that is depends on the machine and is not
/// stated; a name found is not empty, since whoami reports an empty entry
/// of the user database as an error (`os_from_cstring` in its Unix back end).
#[verifier::external_body]
fn login_name() -> (r: Option<String>)
    ensures
        r matches Some(n) ==> n@.len() > 0,
{
    whoami::username().ok()
}

/// What a session to `host` connects with: the effective host name and
/// port, the user (see `user_of`; the local user's name is only looked up
/// when none is configured) and the identity file.
pub fn connect_target(host: &SshHost) -> (t: ConnectTarget)
    ensures
        t.host@ == effective_hostname_of(host@),
        t.port == effective_port_of(host@),
        host.user is Some ==> t.user@ == user_of(opt_view(host.user), None),
        host.user is None ==> t.user@.len() > 0,
        opt_view(t.identity_file) == opt_view(host.identity_file),
{
    let user = match &host.user {
        Some(u) => u.clone(),
        None => {
            let login = login_name();
            proof {
                reveal_strlit("root");
            }
            user_or(&None, login)
        },
    };
    let identity_file = match &host.identity_file {
        Some(f) => Some(f.clone()),
        None => None,
    };
    ConnectTarget {
        host: host.effective_hostname().to_owned(),
        port: host.effective_port(),
        user,
        identity_file,
    }
}

/// The private key files a session offers, in order: the configured
/// identity file (`~/` standing for `home`), then `home/.ssh/id_ed25519`
/// and `home/.ssh/id_rsa`.
pub open spec fn key_paths(home: Seq<char>, identity_file: Option<Seq<char>>) -> Seq<Seq<char>> {
    let defaults = seq![home + "/.ssh/id_ed25519"@, home + "/.ssh/id_rsa"@];
    match identity_file {
        Some(f) => seq![
            if has_prefix(f, "~/"@) {
                home + "/"@ + f.subrange(2, f.len() as int)
            } else {
                f
            },
        ] + defaults,
        None => defaults,
    }
}

/// The private key files to try for `identity_file`, with home directory
/// `home` (see `key_paths`).
pub fn key_candidates(home: &str, identity_file: &Option<String>) -> (r: Vec<String>)
    ensures
        r@.map_values(|s: String| s@) == key_paths(home@, opt_view(*identity_file)),
{
    let mut r: Vec<String> = Vec::new();
    proof {
        reveal_strlit("~/");
        reveal_strlit("/");
    }
    match identity_file {
        Some(f) => {
            let fc = chars_of(f.as_str());
            let tilde = fc.len() >= 2 && fc[0] == '~' && fc[1] == '/';
            assert(tilde == has_prefix(fc@, "~/"@)) by {
                reveal_strlit("~/");
                assert("~/"@ =~= seq!['~', '/']);
                if fc@.len() >= 2 {
                    assert(fc@.take(2)[0] == fc@[0]);
                    assert(fc@.take(2)[1] == fc@[1]);
                    if tilde {
                        assert(fc@.take(2) =~= "~/"@);
                    }
                }
            }
            if tilde {
                let mut p = chars_of(home);
                p.push('/');
                let rest = sub_chars(&fc, 2, fc.len());
                let mut i: usize = 0;
                let ghost p0 = p@;
                while i < rest.len()
                    invariant
                        i <= rest@.len(),
                        p@ == p0 + rest@.take(i as int),
                    decreases rest@.len() - i,
                {
                    p.push(rest[i]);
                    assert(rest@.take(i + 1) =~= rest@.take(i as int).push(rest@[i as int]));
                    i = i + 1;
                }
                assert(rest@.take(rest@.len() as int) =~= rest@);
                assert(p@ =~= home@ + "/"@ + f@.subrange(2, f@.len() as int));
                r.push(string_of(&p));
            } else {
                r.push(f.clone());
            }
        },
        None => {},
    }
    let mut a = chars_of(home);
    push_str(&mut a, "/.ssh/id_ed25519");
    r.push(string_of(&a));
    let mut b = chars_of(home);
    push_str(&mut b, "/.ssh/id_rsa");
    r.push(string_of(&b));
    assert(r@.map_values(|s: String| s@) =~= key_paths(home@, opt_view(*identity_file)));
    r
}

/// How offering one private key went.
#[derive(Debug, Clone, Copy, PartialEq, Eq, Structural)]
pub enum KeyTry {
    /// There is no such key file.
    Missing,
    /// The key file could not be read as a private key.
    Unreadable,
    /// The server did not accept the key, or authenticating failed.
    Refused,
    /// The server accepted the key.
    Accepted,
}

/// What to do while offering the keys.
#[derive(Debug, Clone, Copy, PartialEq, Eq, Structural)]
pub enum KeyOffer {
    /// Offer the key at this index of the candidates.
    Try(usize),
    /// A key was accepted: the session is authenticated.
    Authenticated,
    /// No key was accepted.
    Exhausted,
}

/// The first step of offering `count` keys: the first one, if any.
pub open spec fn first_offer_of(count: nat) -> KeyOffer {
    if count > 0 {
        KeyOffer::Try(0)
    } else {
        KeyOffer::Exhausted
    }
}

/// The step after key `i` of `count` went as `outcome`: an accepted key
/// ends the offering; otherwise the next key is offered, and after the
/// last one the offering fails.
pub open spec fn next_offer_of(i: nat, count: nat, outcome: KeyTry) -> KeyOffer {
    if outcome == KeyTry::Accepted {
        KeyOffer::Authenticated
    } else if i + 1 < count {
        KeyOffer::Try((i + 1) as usize)
    } else {
        KeyOffer::Exhausted
    }
}

/// The first step of offering `count` keys.
pub fn first_key_offer(count: usize) -> (r: KeyOffer)
    ensures
        r == first_offer_of(count as nat),
{
    if count > 0 {
        KeyOffer::Try(0)
    } else {
        KeyOffer::Exhausted
    }
}

/// The step after key `i` of `count` went as `outcome`.
pub fn next_key_offer(i: usize, count: usize, outcome: KeyTry) -> (r: KeyOffer)
    ensures
        r == next_offer_of(i as nat, count as nat, outcome),
{
    if outcome == KeyTry::Accepted {
        KeyOffer::Authenticated
    } else if count > 0 && i < count - 1 {
        KeyOffer::Try(i + 1)
    } else {
        KeyOffer::Exhausted
    }
}

/// The end of offering the keys from key `i` on, when key `k` goes as
/// `outcomes[k]`.
pub open spec fn offer_end(i: nat, outcomes: Seq<KeyTry>) -> KeyOffer
    decreases outcomes.len() - i,
{
    if i >= outcomes.len() {
        KeyOffer::Exhausted
    } else {
        match next_offer_of(i, outcomes.len(), outcomes[i as int]) {
            KeyOffer::Try(_) => offer_end(i + 1, outcomes),
            r => r,
        }
    }
}

/// Offering the keys in order, one step at a time, authenticates exactly
/// when one of them is accepted, whichever that is.
pub proof fn lemma_keys_offered_until_accepted(outcomes: Seq<KeyTry>)
    ensures
        (match first_offer_of(outcomes.len()) {
            KeyOffer::Try(_) => offer_end(0, outcomes),
            r => r,
        }) == if outcomes.contains(KeyTry::Accepted) {
            KeyOffer::Authenticated
        } else {
            KeyOffer::Exhausted
        },
{
    lemma_offer_end(0, outcomes);
}

proof fn lemma_offer_end(i: nat, outcomes: Seq<KeyTry>)
    ensures
        offer_end(i, outcomes) == if exists|k: int|
            i <= k < outcomes.len() && outcomes[k] == KeyTry::Accepted {
            KeyOffer::Authenticated
        } else {
            KeyOffer::Exhausted
        },
    decreases outcomes.len() - i,
{
    if i < outcomes.len() {
        lemma_offer_end(i + 1, outcomes);
        if outcomes[i as int] != KeyTry::Accepted {
            if exists|k: int| i <= k < outcomes.len() && outcomes[k] == KeyTry::Accepted {
                let k = choose|k: int| i <= k < outcomes.len() && outcomes[k] == KeyTry::Accepted;
                assert(i + 1 <= k);
            }
        }
    }
}

// ---------------------------------------------------------------------------
// The password typed
// ---------------------------------------------------------------------------

/// The text `String::from_utf8_lossy` makes of `bytes`.
pub uninterp spec fn utf8_lossy(bytes: Seq<u8>) -> Seq<char>;

/// `String::from_utf8_lossy`: the text of `bytes`, each invalid sequence
/// replaced by U+FFFD. For valid UTF-8 that is the text the bytes encode;
/// for other input the replacement is not stated here, only named.
#[verifier::external_body]
fn lossy_text(bytes: &[u8]) -> (s: String)
    ensures
        s@ == utf8_lossy(bytes@),
        valid_utf8(bytes@) ==> s@ == decode_utf8(bytes@),
{
    String::from_utf8_lossy(bytes).into_owned()
}

/// The password in a line typed at the prompt: its text without leading
/// and trailing whitespace (the newline that ends it among them).
pub fn password_of(line: &[u8]) -> (p: String)
    ensures
        p@ == trim(utf8_lossy(line@)),
        valid_utf8(line@) ==> p@ == trim(decode_utf8(line@)),
{
    let text = lossy_text(line);
    let cs = chars_of(text.as_str());
    let t = trim_chars(&cs);
    string_of(&t)
}

// ---------------------------------------------------------------------------
// The session's course
// ---------------------------------------------------------------------------

/// What happened while a session was running.
pub enum SessionEvent {
    /// The session task started.
    Started,
    /// The SSH transport to the host is up.
    TransportUp,
    /// Whether one of the keys was accepted.
    KeyAuth(bool),
    /// The line typed at the password prompt; `None` when the prompt was
    /// closed before a line came.
    PasswordEntered(Option<Vec<u8>>),
    /// Whether the server accepted the password.
    PasswordAuth(bool),
    /// The remote shell runs: channel, terminal, collectors and file
    /// browser are set up.
    ShellReady,
    /// The remote shell ended.
    Ended,
    /// The SSH layer failed, with this message.
    Failed(String),
}

/// What the session does next.
pub enum SessionAction {
    /// Open the transport to the host and port.
    Connect,
    /// Offer the private keys.
    TryKeys,
    /// Open the password input and wait for a line.
    AskPassword,
    /// Authenticate with this password.
    SendPassword(String),
    /// Open the channel, terminal and remote shell.
    OpenShell,
    /// Forward input and output until the shell ends.
    Forward,
    /// End the session.
    Stop,
    /// Nothing: the event has no meaning in this state.
    Ignore,
}

pub enum SessionEventView {
    Started,
    TransportUp,
    KeyAuth(bool),
    PasswordEntered(Option<Seq<u8>>),
    PasswordAuth(bool),
    ShellReady,
    Ended,
    Failed(Seq<char>),
}

pub enum SessionActionView {
    Connect,
    TryKeys,
    AskPassword,
    SendPassword(Seq<char>),
    OpenShell,
    Forward,
    Stop,
    Ignore,
}

impl View for SessionEvent {
    type V = SessionEventView;

    open spec fn view(&self) -> SessionEventView {
        match self {
            SessionEvent::Started => SessionEventView::Started,
            SessionEvent::TransportUp => SessionEventView::TransportUp,
            SessionEvent::KeyAuth(b) => SessionEventView::KeyAuth(*b),
            SessionEvent::PasswordEntered(l) => SessionEventView::PasswordEntered(
                match l {
                    Some(v) => Some(v@),
                    None => None,
                },
            ),
            SessionEvent::PasswordAuth(b) => SessionEventView::PasswordAuth(*b),
            SessionEvent::ShellReady => SessionEventView::ShellReady,
            SessionEvent::Ended => SessionEventView::Ended,
            SessionEvent::Failed(m) => SessionEventView::Failed(m@),
        }
    }
}

impl View for SessionAction {
    type V = SessionActionView;

    open spec fn view(&self) -> SessionActionView {
        match self {
            SessionAction::Connect => SessionActionView::Connect,
            SessionAction::TryKeys => SessionActionView::TryKeys,
            SessionAction::AskPassword => SessionActionView::AskPassword,
            SessionAction::SendPassword(p) => SessionActionView::SendPassword(p@),
            SessionAction::OpenShell => SessionActionView::OpenShell,
            SessionAction::Forward => SessionActionView::Forward,
            SessionAction::Stop => SessionActionView::Stop,
            SessionAction::Ignore => SessionActionView::Ignore,
        }
    }
}

/// The course of a session. It connects, offers its keys, and when none
/// is accepted asks for a password; once authenticated it opens the shell
/// and forwards input and output until the shell ends. A failure of the
/// SSH layer, a refused password, a closed prompt and the shell's end all
/// disconnect it, with the reason as message.
pub open spec fn session_next(s: SessionStateView, e: SessionEventView) -> (
    SessionStateView,
    SessionActionView,
) {
    match (s, e) {
        (_, SessionEventView::Failed(m)) => (
            SessionStateView::Disconnected(m),
            SessionActionView::Stop,
        ),
        (SessionStateView::Idle, SessionEventView::Started) => (
            SessionStateView::Connecting,
            SessionActionView::Connect,
        ),
        (SessionStateView::Connecting, SessionEventView::TransportUp) => (
            SessionStateView::Connecting,
            SessionActionView::TryKeys,
        ),
        (SessionStateView::Connecting, SessionEventView::KeyAuth(true)) => (
            SessionStateView::Connecting,
            SessionActionView::OpenShell,
        ),
        (SessionStateView::Connecting, SessionEventView::KeyAuth(false)) => (
            SessionStateView::NeedPassword,
            SessionActionView::AskPassword,
        ),
        (SessionStateView::NeedPassword, SessionEventView::PasswordEntered(Some(line))) => (
            SessionStateView::Authenticating,
            SessionActionView::SendPassword(trim(utf8_lossy(line))),
        ),
        (SessionStateView::NeedPassword, SessionEventView::PasswordEntered(None)) => (
            SessionStateView::Disconnected("Password input cancelled"@),
            SessionActionView::Stop,
        ),
        (SessionStateView::Authenticating, SessionEventView::PasswordAuth(true)) => (
            SessionStateView::Authenticating,
            SessionActionView::OpenShell,
        ),
        (SessionStateView::Authenticating, SessionEventView::PasswordAuth(false)) => (
            SessionStateView::Disconnected("Authentication failed"@),
            SessionActionView::Stop,
        ),
        (SessionStateView::Connecting, SessionEventView::ShellReady) => (
            SessionStateView::Connected,
            SessionActionView::Forward,
        ),
        (SessionStateView::Authenticating, SessionEventView::ShellReady) => (
            SessionStateView::Connected,
            SessionActionView::Forward,
        ),
        (SessionStateView::Connected, SessionEventView::Ended) => (
            SessionStateView::Disconnected("Session ended"@),
            SessionActionView::Stop,
        ),
        (s, _) => (s, SessionActionView::Ignore),
    }
}

/// The state a session in `state` is in after `event`, and what it does
/// next (see `session_next`).
pub fn session_step(state: &SessionState, event: SessionEvent) -> (r: (SessionState, SessionAction))
    ensures
        (r.0@, r.1@) == session_next(state@, event@),
{
    match event {
        SessionEvent::Failed(m) => (SessionState::Disconnected(m), SessionAction::Stop),
        SessionEvent::Started => match state {
            SessionState::Idle => (SessionState::Connecting, SessionAction::Connect),
            _ => (state.duplicate(), SessionAction::Ignore),
        },
        SessionEvent::TransportUp => match state {
            SessionState::Connecting => (SessionState::Connecting, SessionAction::TryKeys),
            _ => (state.duplicate(), SessionAction::Ignore),
        },
        SessionEvent::KeyAuth(ok) => match state {
            SessionState::Connecting => if ok {
                (SessionState::Connecting, SessionAction::OpenShell)
            } else {
                (SessionState::NeedPassword, SessionAction::AskPassword)
            },
            _ => (state.duplicate(), SessionAction::Ignore),
        },
        SessionEvent::PasswordEntered(line) => match state {
            SessionState::NeedPassword => match line {
                Some(l) => (
                    SessionState::Authenticating,
                    SessionAction::SendPassword(password_of(l.as_slice())),
                ),
                None => (
                    SessionState::Disconnected("Password input cancelled".to_owned()),
                    SessionAction::Stop,
                ),
            },
            _ => (state.duplicate(), SessionAction::Ignore),
        },
        SessionEvent::PasswordAuth(ok) => match state {
            SessionState::Authenticating => if ok {
                (SessionState::Authenticating, SessionAction::OpenShell)
            } else {
                (
                    SessionState::Disconnected("Authentication failed".to_owned()),
                    SessionAction::Stop,
                )
            },
            _ => (state.duplicate(), SessionAction::Ignore),
        },
        SessionEvent::ShellReady => match state {
            SessionState::Connecting | SessionState::Authenticating => (
                SessionState::Connected,
                SessionAction::Forward,
            ),
            _ => (state.duplicate(), SessionAction::Ignore),
        },
        SessionEvent::Ended => match state {
            SessionState::Connected => (
                SessionState::Disconnected("Session ended".to_owned()),
                SessionAction::Stop,
            ),
            _ => (state.duplicate(), SessionAction::Ignore),
        },
    }
}

/// A running session stops exactly when it becomes disconnected, and a
/// disconnected one stays as it is until it fails again; an event that has
/// no meaning in a state leaves the state as it is; a failure shows its
/// message; the password is asked for only after the keys were refused;
/// and a session becomes connected only once its shell is ready.
pub proof fn lemma_session_course(s: SessionStateView, e: SessionEventView)
    ensures
        !(s is Disconnected) ==> ((session_next(s, e).1 is Stop) <==> (session_next(
            s,
            e,
        ).0 is Disconnected)),
        s is Disconnected && !(e is Failed) ==> session_next(s, e) == (s, SessionActionView::Ignore),
        session_next(s, e).1 is Ignore ==> session_next(s, e).0 == s,
        e matches SessionEventView::Failed(m) ==> session_next(s, e) == (
            SessionStateView::Disconnected(m),
            SessionActionView::Stop,
        ),
        session_next(s, e).1 is AskPassword ==> s is Connecting && e == SessionEventView::KeyAuth(
            false,
        ),
        session_next(s, e).0 is Connected ==> s is Connected || e is ShellReady,
{
}

/// Whether focusing a session in `state` starts it again: a disconnected
/// session is reset to idle and its task started anew.
pub fn needs_reconnect(state: &SessionState) -> (b: bool)
    ensures
        b == (state@ is Disconnected),
{
    match state {
        SessionState::Disconnected(_) => true,
        _ => false,
    }
}

/// A disconnected session that is focused again is reset to idle, and from
/// there its task connects anew.
pub proof fn lemma_refocus_reconnects(s: SessionStateView)
    requires
        s is Disconnected,
    ensures
        session_next(SessionStateView::Idle, SessionEventView::Started) == (
            SessionStateView::Connecting,
            SessionActionView::Connect,
        ),
        session_next(s, SessionEventView::Started) == (s, SessionActionView::Ignore),
{
}

} // verus!
