use configserver::config::{
    config_location, Configuration, Credential, GitRepository, Net, SecretPolicy,
};
use configserver::text::eq_ignore_ascii_case;

fn repo(name: &str, credentials: Option<Vec<Credential>>) -> GitRepository {
    GitRepository {
        name: name.to_string(),
        url: format!("https://example.org/{}.git", name),
        user_name: String::new(),
        password: String::new(),
        refresh_interval: 1000,
        credentials,
    }
}

fn cred(user: &str, pass: &str) -> Credential {
    Credential { user_name: user.to_string(), password: pass.to_string() }
}

fn configuration(repositories: Vec<GitRepository>) -> Configuration {
    Configuration {
        name: "test".to_string(),
        encryption_key: "key".to_string(),
        network: Net { host: "127.0.0.1".to_string(), port: 8080 },
        repositories,
        secret_policy: SecretPolicy::FailClosed,
    }
}

#[test]
fn lookup_ignores_ascii_case() {
    let c = configuration(vec![repo("alpha", None), repo("Beta", None)]);
    assert_eq!(c.repository("alpha").unwrap().name, "alpha");
    assert_eq!(c.repository("ALPHA").unwrap().name, "alpha");
    assert_eq!(c.repository("AlPhA").unwrap().name, "alpha");
    assert_eq!(c.repository("beta").unwrap().name, "Beta");
}

#[test]
fn lookup_absent_names() {
    let c = configuration(vec![repo("alpha", None)]);
    assert!(c.repository("gamma").is_none());
    assert!(c.repository("").is_none());
    assert!(c.repository("alph").is_none());
    assert!(c.repository("alphaa").is_none());
    let empty = configuration(vec![]);
    assert!(empty.repository("alpha").is_none());
}

#[test]
fn lookup_returns_first_match() {
    let mut first = repo("alpha", None);
    first.url = "first".to_string();
    let mut second = repo("ALPHA", None);
    second.url = "second".to_string();
    let c = configuration(vec![first, second]);
    assert_eq!(c.repository("Alpha").unwrap().url, "first");
}

#[test]
fn open_repository_grants_anyone() {
    let r = repo("alpha", None);
    assert!(r.is_granted_for("anybody", "anything"));
    assert!(r.is_granted_for("", ""));
}

#[test]
fn empty_access_list_grants_nobody() {
    let r = repo("alpha", Some(vec![]));
    assert!(!r.is_granted_for("bob", "secret"));
}

#[test]
fn access_list_checks_user_and_password() {
    let r = repo("alpha", Some(vec![cred("bob", "secret"), cred("carol", "pw")]));
    assert!(r.is_granted_for("bob", "secret"));
    assert!(r.is_granted_for("BOB", "secret"));
    assert!(r.is_granted_for("carol", "pw"));
    assert!(!r.is_granted_for("bob", "SECRET"));
    assert!(!r.is_granted_for("bob", "pw"));
    assert!(!r.is_granted_for("alice", "secret"));
}

#[test]
fn ascii_case_comparison() {
    assert!(eq_ignore_ascii_case("Config", "cONFIG"));
    assert!(eq_ignore_ascii_case("", ""));
    assert!(!eq_ignore_ascii_case("a", "b"));
    assert!(!eq_ignore_ascii_case("ab", "abc"));
    assert!(eq_ignore_ascii_case("é-X", "é-x"));
    assert!(!eq_ignore_ascii_case("é", "É"));
}

#[test]
fn configuration_search_order() {
    assert_eq!(config_location(Some("/etc/cs.yml"), Some("/home/cs"), "/work"), "/etc/cs.yml");
    assert_eq!(config_location(None, Some("/home/cs"), "/work"), "/home/cs/configserver.yml");
    assert_eq!(config_location(None, Some("/home/cs/"), "/work"), "/home/cs/configserver.yml");
    assert_eq!(config_location(None, None, "/work"), "/work/configserver.yml");
    assert_eq!(config_location(None, None, ""), "configserver.yml");
}
