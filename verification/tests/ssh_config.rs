use beebo::ssh_config::{parse_ssh_config_content, ConfigReader, SshHost};

#[test]
fn test_parse_basic_config() {
    let content = r#"
Host myserver
  HostName 192.168.1.100
  User admin
  Port 2222
  IdentityFile ~/.ssh/id_rsa

Host dev-box
  HostName dev.example.com
  User developer

Host *
  ServerAliveInterval 60
"#;
    let hosts = parse_ssh_config_content(content);
    assert_eq!(hosts.len(), 2);

    assert_eq!(hosts[0].name, "myserver");
    assert_eq!(hosts[0].hostname.as_deref(), Some("192.168.1.100"));
    assert_eq!(hosts[0].user.as_deref(), Some("admin"));
    assert_eq!(hosts[0].port, Some(2222));

    assert_eq!(hosts[1].name, "dev-box");
    assert_eq!(hosts[1].hostname.as_deref(), Some("dev.example.com"));
    assert_eq!(hosts[1].user.as_deref(), Some("developer"));
    assert_eq!(hosts[1].port, None);
    assert_eq!(hosts[1].effective_port(), 22);
}

#[test]
fn test_display_connection() {
    let host = SshHost {
        name: "test".to_string(),
        hostname: Some("10.0.0.1".to_string()),
        user: Some("admin".to_string()),
        port: Some(2222),
        identity_file: None,
    };
    assert_eq!(host.display_connection(), "admin@10.0.0.1:2222");

    let host2 = SshHost {
        name: "test2".to_string(),
        hostname: Some("example.com".to_string()),
        user: Some("root".to_string()),
        port: None,
        identity_file: None,
    };
    assert_eq!(host2.display_connection(), "root@example.com");
}

fn bare(name: &str) -> SshHost {
    SshHost { name: name.to_string(), hostname: None, user: None, port: None, identity_file: None }
}

#[test]
fn display_connection_without_user() {
    let mut h = bare("box");
    assert_eq!(h.display_connection(), "box");
    h.port = Some(2200);
    assert_eq!(h.display_connection(), "box:2200");
    assert_eq!(h.effective_hostname(), "box");
}

#[test]
fn keywords_are_case_insensitive_and_wildcards_skipped() {
    let content = "host a\n  HOSTNAME a.example\n  port 22\nHost b?\n  User x\nHost c\n  Port notanumber\n";
    let hosts = parse_ssh_config_content(content);
    assert_eq!(hosts.len(), 2);
    assert_eq!(hosts[0].name, "a");
    assert_eq!(hosts[0].hostname.as_deref(), Some("a.example"));
    assert_eq!(hosts[0].port, Some(22));
    assert_eq!(hosts[1].name, "c");
    assert_eq!(hosts[1].port, None);
}

#[test]
fn identity_file_is_kept() {
    let hosts = parse_ssh_config_content("Host k\n  IdentityFile ~/.ssh/id_k\n");
    assert_eq!(hosts.len(), 1);
    assert_eq!(hosts[0].identity_file.as_deref(), Some("~/.ssh/id_k"));
}

fn chars(s: &str) -> Vec<char> {
    s.chars().collect()
}

#[test]
fn entries_build_blocks() {
    let mut r = ConfigReader::new();
    // a property before any Host line is ignored
    r.apply_entry(&chars("user"), "nobody".to_string());
    assert!(r.current.is_none());
    r.apply_entry(&chars("host"), "web".to_string());
    r.apply_entry(&chars("hostname"), "10.0.0.5".to_string());
    r.apply_entry(&chars("port"), "2200".to_string());
    r.apply_entry(&chars("port"), "2201".to_string());
    r.apply_entry(&chars("forwardagent"), "yes".to_string());
    {
        let (name, props) = r.current.as_ref().unwrap();
        assert_eq!(name, "web");
        assert_eq!(props.hostname.as_deref(), Some("10.0.0.5"));
        assert_eq!(props.port.as_deref(), Some("2201"));
        assert!(props.user.is_none());
    }
    assert!(r.hosts.is_empty());
    // the next block ends this one; a pattern block gives no host
    r.apply_entry(&chars("host"), "*".to_string());
    assert_eq!(r.hosts.len(), 1);
    assert_eq!(r.hosts[0].name, "web");
    assert_eq!(r.hosts[0].hostname.as_deref(), Some("10.0.0.5"));
    assert_eq!(r.hosts[0].port, Some(2201));
    r.apply_entry(&chars("user"), "root".to_string());
    r.apply_entry(&chars("host"), "db".to_string());
    assert_eq!(r.hosts.len(), 1);
    r.apply_entry(&chars("user"), "pg".to_string());
    let hosts = r.finish();
    assert_eq!(hosts.len(), 2);
    assert_eq!(hosts[1].name, "db");
    assert_eq!(hosts[1].user.as_deref(), Some("pg"));
    assert_eq!(hosts[1].port, None);
}
