use kenkoterminal::connections::{password_change, with_password_flag, Connection, PasswordChange};
use kenkoterminal::records::{remove_by_key, upsert_by_key};
use kenkoterminal::ssh::SshConfig;
use kenkoterminal::tunnel::{rules_to_autostart, TunnelRule};

fn rule(id: &str, enabled: bool) -> TunnelRule {
    TunnelRule {
        id: id.to_string(),
        name: format!("rule {id}"),
        ssh: SshConfig { host: "h".into(), port: 22, user: "u".into(), password: None },
        local_host: "127.0.0.1".into(),
        local_port: 8080,
        remote_host: "db".into(),
        remote_port: 5432,
        enabled,
        mode: "local".into(),
    }
}

fn ids(v: &[TunnelRule]) -> Vec<(String, bool)> {
    v.iter().map(|r| (r.id.clone(), r.enabled)).collect()
}

#[test]
fn saving_replaces_and_moves_last() {
    let list = vec![rule("a", true), rule("b", true), rule("c", true)];
    let list = upsert_by_key(list, rule("b", false));
    assert_eq!(ids(&list), vec![("a".into(), true), ("c".into(), true), ("b".into(), false)]);
    let list = upsert_by_key(list, rule("b", false));
    assert_eq!(ids(&list), vec![("a".into(), true), ("c".into(), true), ("b".into(), false)]);
    let list = upsert_by_key(list, rule("d", true));
    assert_eq!(list.len(), 4);
}

#[test]
fn removing_drops_every_record_with_the_id() {
    let list = vec![rule("a", true), rule("x", true), rule("b", false), rule("x", false)];
    let list = remove_by_key(list, &"x".to_string());
    assert_eq!(ids(&list), vec![("a".into(), true), ("b".into(), false)]);
    let list = remove_by_key(list, &"zz".to_string());
    assert_eq!(list.len(), 2);
}

#[test]
fn only_enabled_rules_autostart() {
    let list = vec![rule("a", true), rule("b", false), rule("c", true)];
    assert_eq!(ids(&rules_to_autostart(list)), vec![("a".into(), true), ("c".into(), true)]);
}

fn conn(id: &str, has_password: bool) -> Connection {
    Connection {
        id: id.into(),
        name: "n".into(),
        kind: "ssh".into(),
        host: Some("h".into()),
        port: Some(22),
        user: None,
        path: None,
        baud: None,
        has_password,
        group: None,
    }
}

#[test]
fn password_changes() {
    assert!(matches!(password_change(None), PasswordChange::Keep));
    assert!(matches!(password_change(Some(String::new())), PasswordChange::Clear));
    match password_change(Some("s3cret".into())) {
        PasswordChange::Replace(p) => assert_eq!(p, "s3cret"),
        _ => panic!("expected a replacement"),
    }
    assert!(with_password_flag(conn("a", false), &PasswordChange::Replace("x".into())).has_password);
    assert!(!with_password_flag(conn("a", true), &PasswordChange::Clear).has_password);
    assert!(with_password_flag(conn("a", true), &PasswordChange::Keep).has_password);
    let list = upsert_by_key(vec![conn("a", false), conn("b", false)], conn("a", true));
    assert_eq!(list.iter().map(|c| (c.id.as_str(), c.has_password)).collect::<Vec<_>>(), vec![("b", false), ("a", true)]);
}
