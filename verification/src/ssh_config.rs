//! Hosts of an OpenSSH client configuration (`~/.ssh/config`).
use vstd::prelude::*;

use crate::text::{
    char_is_ws, chars_of, contains_char, decimal, decimal_chars, eq_str, is_ws,
    lemma_parse_decimal, lemma_trim_trimmed, lines, lines_of, lowercase, parse_uint,
    parse_unsigned, push_chars, push_str, seqs_of, string_of, sub_chars, to_lowercase, trim,
    trim_chars, trimmed,
};

verus! {

/// One `Host` block of an SSH client configuration.
#[derive(Debug, Clone)]
pub struct SshHost {
    pub name: String,
    pub hostname: Option<String>,
    pub user: Option<String>,
    pub port: Option<u16>,
    pub identity_file: Option<String>,
}

/// The value of an [`SshHost`]: its fields taken by their views.
pub struct SshHostView {
    pub name: Seq<char>,
    pub hostname: Option<Seq<char>>,
    pub user: Option<Seq<char>>,
    pub port: Option<u16>,
    pub identity_file: Option<Seq<char>>,
}

pub open spec fn opt_view(o: Option<String>) -> Option<Seq<char>> {
    match o {
        Some(s) => Some(s@),
        None => None,
    }
}

impl View for SshHost {
    type V = SshHostView;

    open spec fn view(&self) -> SshHostView {
        SshHostView {
            name: self.name@,
            hostname: opt_view(self.hostname),
            user: opt_view(self.user),
            port: self.port,
            identity_file: opt_view(self.identity_file),
        }
    }
}

/// The hosts `v`, each taken by its view.
pub open spec fn host_views(v: Seq<SshHost>) -> Seq<SshHostView> {
    v.map_values(|h: SshHost| h@)
}

/// The host name to connect to: `HostName`, or the block's own name.
pub open spec fn effective_hostname_of(h: SshHostView) -> Seq<char> {
    match h.hostname {
        Some(n) => n,
        None => h.name,
    }
}

/// The port to connect to: `Port`, or 22.
pub open spec fn effective_port_of(h: SshHostView) -> u16 {
    match h.port {
        Some(p) => p,
        None => 22,
    }
}

/// `user@host:port`, where `user@` appears only when a user is set and
/// `:port` only when the port is not 22.
pub open spec fn display_connection_of(h: SshHostView) -> Seq<char> {
    let host = effective_hostname_of(h);
    let port = effective_port_of(h);
    let with_user = match h.user {
        Some(u) => u + seq!['@'] + host,
        None => host,
    };
    if port != 22 {
        with_user + seq![':'] + decimal(port as nat)
    } else {
        with_user
    }
}

impl SshHost {
    /// Returns the effective hostname for connection (hostname or name as fallback).
    pub fn effective_hostname(&self) -> (r: &str)
        ensures
            r@ == effective_hostname_of(self@),
    {
        match &self.hostname {
            Some(h) => h.as_str(),
            None => self.name.as_str(),
        }
    }

    /// Returns the effective port (default 22).
    pub fn effective_port(&self) -> (r: u16)
        ensures
            r == effective_port_of(self@),
    {
        match self.port {
            Some(p) => p,
            None => 22,
        }
    }

    /// Returns a display string like "user@hostname:port".
    pub fn display_connection(&self) -> (r: String)
        ensures
            r@ == display_connection_of(self@),
    {
        let host = chars_of(self.effective_hostname());
        let port = self.effective_port();
        let mut out: Vec<char> = Vec::new();
        match &self.user {
            Some(u) => {
                push_str(&mut out, u.as_str());
                out.push('@');
            },
            None => {},
        }
        push_chars(&mut out, &host);
        let ghost with_user = out@;
        if port != 22 {
            out.push(':');
            let digits = decimal_chars(port as u64);
            push_chars(&mut out, &digits);
        }
        proof {
            match self@.user {
                Some(u) => {
                    assert(with_user =~= u + seq!['@'] + host@);
                },
                None => {
                    assert(with_user =~= host@);
                },
            }
            if port != 22 {
                assert(out@ =~= with_user + seq![':'] + decimal(port as nat));
            }
        }
        string_of(&out)
    }
}

/// A copy of an optional string.
pub fn copy_opt(o: &Option<String>) -> (r: Option<String>)
    ensures
        opt_view(r) == opt_view(*o),
{
    match o {
        Some(s) => Some(s.clone()),
        None => None,
    }
}

// ---------------------------------------------------------------------------
// Parsing
// ---------------------------------------------------------------------------

/// Index of the first character of `s` that is whitespace or `'='`, or `s.len()`.
pub open spec fn key_end(s: Seq<char>) -> nat
    decreases s.len(),
{
    if s.len() == 0 || is_ws(s[0]) || s[0] == '=' {
        0
    } else {
        1 + key_end(s.drop_first())
    }
}

proof fn lemma_key_end(s: Seq<char>, j: int)
    requires
        0 <= j <= s.len(),
        forall|k: int| 0 <= k < j ==> !is_ws(s[k]) && s[k] != '=',
        j == s.len() || is_ws(s[j]) || s[j] == '=',
    ensures
        key_end(s) == j,
    decreases j,
{
    if j > 0 {
        lemma_key_end(s.drop_first(), j - 1);
    }
}

/// The properties of the host block being read: lowercase key to value.
pub type Props = Map<Seq<char>, Seq<char>>;

pub open spec fn prop(props: Props, key: Seq<char>) -> Option<Seq<char>> {
    if props.dom().contains(key) {
        Some(props[key])
    } else {
        None
    }
}

/// The host that a block named `name` with properties `props` describes.
pub open spec fn host_of(name: Seq<char>, props: Props) -> SshHostView {
    SshHostView {
        name,
        hostname: prop(props, "hostname"@),
        user: prop(props, "user"@),
        port: match prop(props, "port"@) {
            Some(p) => match parse_unsigned(p, 65535) {
                Some(v) => Some(v as u16),
                None => None,
            },
            None => None,
        },
        identity_file: prop(props, "identityfile"@),
    }
}

/// Names with a wildcard (`*`, `?`) are patterns, not hosts.
pub open spec fn is_pattern(name: Seq<char>) -> bool {
    name == "*"@ || name.contains('*') || name.contains('?')
}

/// Reading state: the hosts found so far and the block being read.
pub struct ConfigState {
    pub hosts: Seq<SshHostView>,
    pub current: Option<(Seq<char>, Props)>,
}

/// The hosts found, the block being read included when it names a host.
pub open spec fn finished_hosts(st: ConfigState) -> Seq<SshHostView> {
    match st.current {
        Some((name, props)) => if !is_pattern(name) {
            st.hosts.push(host_of(name, props))
        } else {
            st.hosts
        },
        None => st.hosts,
    }
}

/// The effect of the entry `key value` of a line, `key` in lower case:
/// `host` ends the block being read (keeping its host) and starts one named
/// `value`; any other key sets that property of the block being read, and
/// is ignored before the first `Host` line.
pub open spec fn config_entry(st: ConfigState, key: Seq<char>, value: Seq<char>) -> ConfigState {
    if key == "host"@ {
        ConfigState { hosts: finished_hosts(st), current: Some((value, Map::empty())) }
    } else {
        match st.current {
            Some((name, props)) => ConfigState {
                hosts: st.hosts,
                current: Some((name, props.insert(key, value))),
            },
            None => st,
        }
    }
}

/// The effect of one configuration line: blank lines, comments and lines
/// without a value change nothing; otherwise the key (before the first
/// whitespace or `=`, trimmed and in lower case) and the value (the trimmed
/// rest) make an entry.
pub open spec fn config_step(st: ConfigState, line: Seq<char>) -> ConfigState {
    let t = trim(line);
    let i = key_end(t);
    if t.len() == 0 || t[0] == '#' || i >= t.len() {
        st
    } else {
        config_entry(st, lowercase(trim(t.take(i as int))), trim(t.skip(i + 1 as int)))
    }
}

/// The state after reading the lines `ls`.
pub open spec fn config_run(ls: Seq<Seq<char>>) -> ConfigState
    decreases ls.len(),
{
    if ls.len() == 0 {
        ConfigState { hosts: seq![], current: None }
    } else {
        config_step(config_run(ls.drop_last()), ls.last())
    }
}

/// The hosts an SSH client configuration `content` describes, in order:
/// one per `Host` line whose name has no wildcard, with the `HostName`,
/// `User`, `Port` and `IdentityFile` of its block (keys are matched without
/// regard to case; a later line for a key replaces an earlier one).
pub open spec fn parse_config(content: Seq<char>) -> Seq<SshHostView> {
    finished_hosts(config_run(lines(content)))
}

/// The properties of a block that a host takes.
pub struct HostProps {
    pub hostname: Option<String>,
    pub user: Option<String>,
    pub port: Option<String>,
    pub identity_file: Option<String>,
}

impl HostProps {
    pub open spec fn holds(&self, props: Props) -> bool {
        &&& opt_view(self.hostname) == prop(props, "hostname"@)
        &&& opt_view(self.user) == prop(props, "user"@)
        &&& opt_view(self.port) == prop(props, "port"@)
        &&& opt_view(self.identity_file) == prop(props, "identityfile"@)
    }

    pub fn new() -> (r: HostProps)
        ensures
            r.holds(Map::empty()),
    {
        HostProps { hostname: None, user: None, port: None, identity_file: None }
    }

    /// Records `value` for `key`.
    pub fn insert(&mut self, key: &[char], value: String)
        ensures
            forall|props: Props|
                old(self).holds(props) ==> #[trigger] final(self).holds(
                    props.insert(key@, value@),
                ),
    {
        proof {
            reveal_strlit("hostname");
            reveal_strlit("user");
            reveal_strlit("port");
            reveal_strlit("identityfile");
            assert("hostname"@.len() == 8 && "user"@.len() == 4 && "port"@.len() == 4
                && "identityfile"@.len() == 12);
            assert("user"@[0] == 'u' && "port"@[0] == 'p');
            assert("hostname"@ != "user"@ && "hostname"@ != "port"@ && "hostname"@
                != "identityfile"@ && "user"@ != "port"@ && "user"@ != "identityfile"@ && "port"@
                != "identityfile"@);
        }
        if eq_str(key, "hostname") {
            self.hostname = Some(value);
        } else if eq_str(key, "user") {
            self.user = Some(value);
        } else if eq_str(key, "port") {
            self.port = Some(value);
        } else if eq_str(key, "identityfile") {
            self.identity_file = Some(value);
        }
    }
}

/// The host a block named `name` with the properties `props` describes.
pub fn build_host(name: String, props: &HostProps) -> (h: SshHost)
    ensures
        forall|m: Props| props.holds(m) ==> #[trigger] host_of(name@, m) == h@,
{
    let port = match &props.port {
        Some(p) => {
            let cs = chars_of(p.as_str());
            match parse_uint(&cs, 65535) {
                Some(v) => Some(v as u16),
                None => None,
            }
        },
        None => None,
    };
    SshHost {
        name,
        hostname: copy_opt(&props.hostname),
        user: copy_opt(&props.user),
        port,
        identity_file: copy_opt(&props.identity_file),
    }
}

fn is_pattern_name(name: &String) -> (r: bool)
    ensures
        r == is_pattern(name@),
{
    let cs = chars_of(name.as_str());
    eq_str(&cs, "*") || contains_char(&cs, '*') || contains_char(&cs, '?')
}

/// A configuration being read: the hosts found so far, and the name and
/// properties of the block being read.
pub struct ConfigReader {
    pub hosts: Vec<SshHost>,
    pub current: Option<(String, HostProps)>,
}

impl ConfigReader {
    /// The reader stands for the reading state `st`: the same hosts, and
    /// the same block with the properties a host takes.
    pub open spec fn reads(&self, st: ConfigState) -> bool {
        &&& host_views(self.hosts@) == st.hosts
        &&& match self.current {
            Some((n, p)) => match st.current {
                Some((name, props)) => n@ == name && p.holds(props),
                None => false,
            },
            None => st.current is None,
        }
    }

    /// A reader that has read nothing.
    pub fn new() -> (r: ConfigReader)
        ensures
            r.reads(ConfigState { hosts: seq![], current: None }),
    {
        let r = ConfigReader { hosts: Vec::new(), current: None };
        assert(host_views(r.hosts@) =~= seq![]);
        r
    }

    /// The host of the block being read, added to the hosts found when its
    /// name is not a pattern; no block is being read afterwards.
    fn end_block(&mut self)
        ensures
            forall|st: ConfigState|
                old(self).reads(st) ==> #[trigger] final(self).reads(
                    ConfigState { hosts: finished_hosts(st), current: None },
                ),
    {
        let taken = self.current.take();
        match taken {
            Some((n, p)) => {
                if !is_pattern_name(&n) {
                    let ghost prev = host_views(self.hosts@);
                    let h = build_host(n, &p);
                    self.hosts.push(h);
                    assert(host_views(self.hosts@) =~= prev.push(h@));
                }
            },
            None => {},
        }
    }

    /// Applies the entry `key value` of a configuration line, `key` being
    /// in lower case.
    pub fn apply_entry(&mut self, key: &[char], value: String)
        ensures
            forall|st: ConfigState|
                old(self).reads(st) ==> #[trigger] final(self).reads(
                    config_entry(st, key@, value@),
                ),
    {
        let ghost pre = *self;
        if eq_str(key, "host") {
            self.end_block();
            let ghost mid = *self;
            self.current = Some((value, HostProps::new()));
            assert forall|st: ConfigState| pre.reads(st) implies self.reads(
                config_entry(st, key@, value@),
            ) by {
                assert(mid.reads(ConfigState { hosts: finished_hosts(st), current: None }));
            }
        } else {
            let taken = self.current.take();
            match taken {
                Some((n, p)) => {
                    let mut p = p;
                    let ghost p0 = p;
                    p.insert(key, value);
                    self.current = Some((n, p));
                    assert forall|st: ConfigState| pre.reads(st) implies self.reads(
                        config_entry(st, key@, value@),
                    ) by {
                        let (name, props) = st.current.unwrap();
                        assert(p0.holds(props));
                        assert(p.holds(props.insert(key@, value@)));
                    }
                },
                None => {},
            }
        }
    }

    /// The hosts found, the block being read included when it names a host.
    pub fn finish(self) -> (hosts: Vec<SshHost>)
        ensures
            forall|st: ConfigState| #[trigger] self.reads(st) ==> host_views(hosts@)
                == finished_hosts(st),
    {
        let mut r = self;
        r.end_block();
        assert forall|st: ConfigState| self.reads(st) implies host_views(r.hosts@) == finished_hosts(
            st,
        ) by {
            assert(r.reads(ConfigState { hosts: finished_hosts(st), current: None }));
        }
        r.hosts
    }
}

/// Parse the text of an SSH client configuration into its hosts.
/// Skips wildcard hosts (e.g. `Host *`).
pub fn parse_ssh_config_content(content: &str) -> (hosts: Vec<SshHost>)
    ensures
        host_views(hosts@) == parse_config(content@),
{
    let cs = chars_of(content);
    let ls = lines_of(&cs);
    let mut reader = ConfigReader::new();
    let mut i: usize = 0;
    while i < ls.len()
        invariant
            i <= ls@.len(),
            seqs_of(ls@) == lines(content@),
            reader.reads(config_run(seqs_of(ls@).take(i as int))),
        decreases ls@.len() - i,
    {
        let ghost before = config_run(seqs_of(ls@).take(i as int));
        let ghost line = seqs_of(ls@)[i as int];
        assert(seqs_of(ls@).take(i + 1).drop_last() =~= seqs_of(ls@).take(i as int));
        assert(ls@[i as int]@ == line);
        let t = trim_chars(ls[i].as_slice());
        if t.len() == 0 || t[0] == '#' {
            i = i + 1;
            continue;
        }
        let mut j: usize = 0;
        while j < t.len() && !(char_is_ws(t[j]) || t[j] == '=')
            invariant
                j <= t@.len(),
                forall|k: int| 0 <= k < j ==> !is_ws(t@[k]) && t@[k] != '=',
            decreases t@.len() - j,
        {
            j = j + 1;
        }
        proof {
            lemma_key_end(t@, j as int);
        }
        if j >= t.len() {
            i = i + 1;
            continue;
        }
        let raw_key = sub_chars(&t, 0, j);
        let key_text = string_of(&trim_chars(&raw_key));
        let key = chars_of(to_lowercase(key_text.as_str()).as_str());
        let value = string_of(&trim_chars(&sub_chars(&t, j + 1, t.len())));
        assert(raw_key@ =~= t@.take(j as int));
        assert(t@.subrange(j + 1, t@.len() as int) =~= t@.skip(j + 1));
        let ghost entry_value = value@;
        reader.apply_entry(&key, value);
        assert(reader.reads(config_entry(before, key@, entry_value)));
        i = i + 1;
    }
    assert(seqs_of(ls@).take(ls@.len() as int) =~= seqs_of(ls@));
    reader.finish()
}

/// Each text of `h` has no whitespace at either end, and its name no
/// wildcard.
pub open spec fn host_clean(h: SshHostView) -> bool {
    &&& trimmed(h.name)
    &&& !h.name.contains('*') && !h.name.contains('?')
    &&& (h.hostname matches Some(v) ==> trimmed(v))
    &&& (h.user matches Some(v) ==> trimmed(v))
    &&& (h.identity_file matches Some(v) ==> trimmed(v))
}

/// Every text of the reading state `st` has no whitespace at either end.
spec fn state_trimmed(st: ConfigState) -> bool {
    &&& forall|i: int| 0 <= i < st.hosts.len() ==> host_clean(#[trigger] st.hosts[i])
    &&& (st.current matches Some((name, props)) ==> trimmed(name) && forall|k: Seq<char>|
        #[trigger] props.dom().contains(k) ==> trimmed(props[k]))
}

proof fn lemma_finished_trimmed(st: ConfigState)
    requires
        state_trimmed(st),
    ensures
        forall|i: int|
            0 <= i < finished_hosts(st).len() ==> host_clean(#[trigger] finished_hosts(st)[i]),
{
    if let Some((name, props)) = st.current {
        if !is_pattern(name) {
            let h = host_of(name, props);
            assert(host_clean(h));
            assert forall|i: int| 0 <= i < finished_hosts(st).len() implies host_clean(
                #[trigger] finished_hosts(st)[i],
            ) by {
                if i < st.hosts.len() {
                    assert(finished_hosts(st)[i] == st.hosts[i]);
                }
            }
        }
    }
}

proof fn lemma_run_trimmed(ls: Seq<Seq<char>>)
    ensures
        state_trimmed(config_run(ls)),
    decreases ls.len(),
{
    if ls.len() > 0 {
        let st = config_run(ls.drop_last());
        lemma_run_trimmed(ls.drop_last());
        let t = trim(ls.last());
        let i = key_end(t);
        if !(t.len() == 0 || t[0] == '#' || i >= t.len()) {
            let key = lowercase(trim(t.take(i as int)));
            let value = trim(t.skip(i + 1 as int));
            lemma_trim_trimmed(t.skip(i + 1 as int));
            if key == "host"@ {
                lemma_finished_trimmed(st);
            } else if let Some((name, props)) = st.current {
                let p2 = props.insert(key, value);
                assert forall|k: Seq<char>| #[trigger] p2.dom().contains(k) implies trimmed(p2[k]) by {
                    if k != key {
                        assert(props.dom().contains(k));
                    }
                }
            }
        }
    }
}

/// The values of a configuration are read without the whitespace around
/// them, however the lines align them: every host read has its name, host
/// name, user and identity file without whitespace at either end. And no
/// host read is a pattern: no name has a `*` or `?`.
pub proof fn lemma_parsed_values_trimmed(content: Seq<char>)
    ensures
        forall|i: int|
            0 <= i < parse_config(content).len() ==> host_clean(#[trigger] parse_config(content)[i]),
{
    lemma_run_trimmed(lines(content));
    lemma_finished_trimmed(config_run(lines(content)));
}

/// A host takes its port from the value of its block's `Port` entry: the
/// decimal number `n` there gives port `n`.
pub proof fn lemma_host_port(name: Seq<char>, props: Props, n: u16)
    requires
        prop(props, "port"@) == Some(decimal(n as nat)),
    ensures
        host_of(name, props).port == Some(n),
{
    lemma_parse_decimal(n as nat, 65535);
}

} // verus!
