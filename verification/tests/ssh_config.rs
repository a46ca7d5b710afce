use kenkoterminal::ssh_config::{home_relative, resolve_config};
use kenkoterminal::ssh_config;

#[test]
fn glob_and_exact() {
    assert!(ssh_config::matches("*", "anything"));
    assert!(ssh_config::matches("web1", "web1"));
    assert!(ssh_config::matches("*.example.com", "a.example.com"));
    assert!(ssh_config::matches("web*", "web42"));
    assert!(!ssh_config::matches("web*", "db1"));
}

#[test]
fn glob_star_in_the_middle_and_overlap() {
    assert!(ssh_config::matches("a*z", "az"));
    assert!(ssh_config::matches("a*z", "abcz"));
    assert!(!ssh_config::matches("ab*ba", "aba"));
    assert!(!ssh_config::matches("web", "web1"));
    assert!(ssh_config::matches("", ""));
    assert!(!ssh_config::matches("", "x"));
}

#[test]
fn resolves_matching_host_block() {
    let text = "# comment\n\
                Host other\n\
                  HostName other.example.com\n\
                Host web*\n\
                  HostName 10.0.0.5\n\
                  Port 2222\n\
                  User deploy\n\
                  IdentityFile ~/.ssh/id_web\n\
                  IdentityFile /etc/keys/extra\n\
                Host db\n\
                  User postgres\n";
    let r = resolve_config(text, "web42");
    assert_eq!(r.hostname.as_deref(), Some("10.0.0.5"));
    assert_eq!(r.port, Some(2222));
    assert_eq!(r.user.as_deref(), Some("deploy"));
    assert_eq!(r.identity_files, vec!["~/.ssh/id_web".to_string(), "/etc/keys/extra".to_string()]);
}

#[test]
fn keywords_are_case_insensitive_and_equals_is_accepted() {
    let text = "HOST a b c\r\n  hostNAME = alpha.example\r\n\tPORT=22\r\n";
    let r = resolve_config(text, "b");
    assert_eq!(r.hostname.as_deref(), Some("alpha.example"));
    assert_eq!(r.port, Some(22));
    let r = resolve_config(text, "d");
    assert_eq!(r.hostname, None);
    assert_eq!(r.port, None);
}

#[test]
fn invalid_port_unsets_and_later_values_override() {
    let text = "Host *\nPort 22\nPort 70000\nUser a\nUser b\n";
    let r = resolve_config(text, "x");
    assert_eq!(r.port, None);
    assert_eq!(r.user.as_deref(), Some("b"));
    let r = resolve_config("Host *\nPort +8022", "x");
    assert_eq!(r.port, Some(8022));
}

#[test]
fn nothing_applies_before_a_host_line() {
    let r = resolve_config("User root\nHostName h\n", "x");
    assert_eq!(r.user, None);
    assert_eq!(r.hostname, None);
    assert!(r.identity_files.is_empty());
}

#[test]
fn home_relative_paths() {
    assert_eq!(home_relative("~/.ssh/id_ed25519").as_deref(), Some(".ssh/id_ed25519"));
    assert_eq!(home_relative("/abs/key"), None);
    assert_eq!(home_relative("~user/key"), None);
}
