use configserver::config::{Configuration, Credential, GitRepository, Net, SecretPolicy};
use configserver::pipeline::{
    encrypt_body_content, is_request_authorized, parse_credentials, parse_query,
    AuthenticationState, ConfigServer, Outcome, Query, Route,
};
use configserver::secret::{decrypt_base64_string, encrypt_base64_string};

fn server(policy: SecretPolicy) -> ConfigServer {
    let alpha = GitRepository {
        name: "alpha".to_string(),
        url: "https://example.org/alpha.git".to_string(),
        user_name: String::new(),
        password: String::new(),
        refresh_interval: 1000,
        credentials: Some(vec![Credential {
            user_name: "bob".to_string(),
            password: "secret".to_string(),
        }]),
    };
    let open = GitRepository {
        name: "open".to_string(),
        url: "https://example.org/open.git".to_string(),
        user_name: String::new(),
        password: String::new(),
        refresh_interval: 1000,
        credentials: None,
    };
    let config = Configuration {
        name: "test".to_string(),
        encryption_key: "service-key".to_string(),
        network: Net { host: "127.0.0.1".to_string(), port: 8080 },
        repositories: vec![alpha, open],
        secret_policy: policy,
    };
    ConfigServer::new(config, "/srv/mirrors".to_string())
}

const ALICE_WRONG: &str = "Basic YWxpY2U6d3Jvbmc=";
const BOB_SECRET: &str = "Basic Ym9iOnNlY3JldA==";

fn read(repository: &str, file: &str) -> Route {
    Route::Read { repository: repository.to_string(), file: file.to_string() }
}

#[test]
fn wrong_user_is_unauthorized_and_right_one_reads() {
    let s = server(SecretPolicy::FailClosed);
    assert_eq!(s.route("/alpha/app.yml", Some(ALICE_WRONG)), Route::Unauthorized);
    assert_eq!(s.route("/alpha/app.yml", Some(BOB_SECRET)), read("alpha", "app.yml"));
    let out = s.serve(Some("key: value\n".to_string()));
    assert_eq!(out, Outcome::Content("key: value\n".to_string()));
    assert_eq!(out.status(), 200);
    assert_eq!(Outcome::Unauthorized.status(), 401);
}

#[test]
fn unknown_repository_is_not_found() {
    let s = server(SecretPolicy::FailClosed);
    assert_eq!(s.route("/unknown/app.yml", Some(BOB_SECRET)), Route::NotFound);
    assert_eq!(Outcome::NotFound.status(), 404);
}

#[test]
fn missing_or_bad_credentials_are_unauthorized() {
    let s = server(SecretPolicy::FailClosed);
    assert_eq!(s.route("/alpha/app.yml", None), Route::Unauthorized);
    assert_eq!(s.route("/alpha/app.yml", Some("Bearer Ym9iOnNlY3JldA==")), Route::Unauthorized);
    assert_eq!(s.route("/alpha/app.yml", Some("basic Ym9iOnNlY3JldA==")), Route::Unauthorized);
    assert_eq!(s.route("/alpha/app.yml", Some("Basic ***")), Route::Unauthorized);
    assert_eq!(s.route("/alpha/app.yml", Some("Basic Ym9i")), Route::Unauthorized);
    assert_eq!(s.route("/unknown/app.yml", None), Route::Unauthorized);
}

#[test]
fn open_repository_admits_any_credentials() {
    let s = server(SecretPolicy::FailClosed);
    assert_eq!(s.route("/open/app.yml", Some(ALICE_WRONG)), read("open", "app.yml"));
    assert_eq!(s.route("/OPEN/app.yml", Some(ALICE_WRONG)), read("open", "app.yml"));
}

#[test]
fn path_traversal_is_not_found() {
    let s = server(SecretPolicy::FailClosed);
    assert_eq!(s.route("/alpha/../../etc/passwd", Some(BOB_SECRET)), Route::NotFound);
    assert_eq!(s.route("/alpha/..", Some(BOB_SECRET)), Route::NotFound);
    assert_eq!(s.route("/alpha/a/../../b", Some(BOB_SECRET)), Route::NotFound);
    assert_eq!(s.route("/alpha/a/../b.yml", Some(BOB_SECRET)), read("alpha", "b.yml"));
    assert_eq!(s.route("/alpha/./x//y.yml", Some(BOB_SECRET)), read("alpha", "x/y.yml"));
}

#[test]
fn route_without_file_is_not_found() {
    let s = server(SecretPolicy::FailClosed);
    assert_eq!(s.route("/alpha", Some(BOB_SECRET)), Route::NotFound);
    assert_eq!(s.route("/alpha/", Some(BOB_SECRET)), Route::NotFound);
    assert_eq!(s.route("/alpha/.", Some(BOB_SECRET)), Route::NotFound);
    assert_eq!(s.route("alpha", Some(BOB_SECRET)), Route::NotFound);
    assert_eq!(s.route("", Some(BOB_SECRET)), Route::NotFound);
}

#[test]
fn encrypt_endpoint_bypasses_routing() {
    let s = server(SecretPolicy::FailClosed);
    assert_eq!(s.route("/encrypt", None), Route::Encrypt);
    assert_eq!(s.route("/encrypt", Some(ALICE_WRONG)), Route::Encrypt);
    assert_eq!(s.route("/encryption/app.yml", None), Route::Encrypt);
    assert_eq!(s.route("/encryptx", None), Route::Encrypt);
    assert_eq!(s.route("/encrypt/x", None), Route::Encrypt);
    assert_eq!(s.route("x/encrypt", None), Route::Unauthorized);
    assert_eq!(s.route("/encryp", None), Route::Unauthorized);
    assert_eq!(s.route("/alpha/encrypt", None), Route::Unauthorized);
}

#[test]
fn secrets_are_decrypted_when_served() {
    let envelope = encrypt_base64_string("service-key", "supersecret");
    let content = format!("db.password={{enc:{}}}", envelope);
    let s = server(SecretPolicy::FailClosed);
    assert_eq!(s.serve(Some(content)), Outcome::Content("db.password=supersecret".to_string()));
}

#[test]
fn foreign_secret_fails_closed_or_is_kept() {
    let envelope = encrypt_base64_string("another-key", "supersecret");
    let content = format!("db.password={{enc:{}}}", envelope);
    let closed = server(SecretPolicy::FailClosed).serve(Some(content.clone()));
    assert_eq!(closed, Outcome::InternalError);
    assert_eq!(closed.status(), 500);
    let kept = server(SecretPolicy::KeepToken).serve(Some(content.clone()));
    assert_eq!(kept, Outcome::Content(content));
}

#[test]
fn missing_file_is_not_found() {
    let s = server(SecretPolicy::FailClosed);
    assert_eq!(s.serve(None), Outcome::NotFound);
}

#[test]
fn encryption_endpoint_body() {
    let s = server(SecretPolicy::FailClosed);
    let out = encrypt_body_content(b"supersecret".to_vec(), &s.configuration);
    match out {
        Outcome::Content(envelope) => {
            assert_ne!(envelope, "supersecret");
            assert_eq!(decrypt_base64_string("service-key", &envelope), Ok("supersecret".to_string()));
        }
        other => panic!("unexpected {:?}", other),
    }
    let bad = encrypt_body_content(vec![0xff, 0xfe], &s.configuration);
    assert_eq!(bad, Outcome::BadRequest);
    assert_eq!(bad.status(), 400);
}

#[test]
fn basic_header_parsing() {
    assert_eq!(
        is_request_authorized(Some(BOB_SECRET)),
        AuthenticationState::Authorized { login: "bob".to_string(), password: "secret".to_string() }
    );
    assert_eq!(is_request_authorized(None), AuthenticationState::Unauthorized);
    assert_eq!(is_request_authorized(Some("Basic")), AuthenticationState::Unauthorized);
}

#[test]
fn credential_text_parsing() {
    assert_eq!(
        parse_credentials(b"user:pw".to_vec()),
        AuthenticationState::Authorized { login: "user".to_string(), password: "pw".to_string() }
    );
    assert_eq!(
        parse_credentials(b"user:pw:more".to_vec()),
        AuthenticationState::Authorized { login: "user".to_string(), password: "pw".to_string() }
    );
    assert_eq!(
        parse_credentials(b":".to_vec()),
        AuthenticationState::Authorized { login: String::new(), password: String::new() }
    );
    assert_eq!(parse_credentials(b"nocolon".to_vec()), AuthenticationState::Unauthorized);
    assert_eq!(parse_credentials(vec![0xc3, 0x28, b':']), AuthenticationState::Unauthorized);
}

#[test]
fn query_parsing() {
    assert_eq!(
        parse_query("/alpha/app.yml"),
        Query::Success { repository: "alpha".to_string(), path: "app.yml".to_string() }
    );
    assert_eq!(
        parse_query("/alpha/conf/app.yml"),
        Query::Success { repository: "alpha".to_string(), path: "conf/app.yml".to_string() }
    );
    assert_eq!(
        parse_query("/alpha"),
        Query::Success { repository: "alpha".to_string(), path: String::new() }
    );
    assert_eq!(parse_query("alpha"), Query::Invalid);
    assert_eq!(parse_query(""), Query::Invalid);
}
