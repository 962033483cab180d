use twodo_backend::auth::{
    AuthError, AuthService, PersistentMemoryUserRepository, UserLogin, UserRegistration,
    WasmPasswordService,
};
use twodo_backend::jwt::WasmTokenService;
use base64::Engine;

fn new_auth() -> AuthService {
    AuthService::new(
        PersistentMemoryUserRepository::new(),
        WasmPasswordService::new(),
        WasmTokenService::new("test-secret".to_string()),
    )
}

fn registration(name: &str, password: &str) -> UserRegistration {
    UserRegistration { username: name.to_string(), password: password.to_string() }
}

#[test]
fn register_and_login() {
    let mut auth = new_auth();
    let info = auth.register(&registration("alice", "correct horse")).unwrap();
    assert_eq!(info.username, "alice");
    assert_eq!(info.id.len(), 36);

    let result = auth
        .login(&UserLogin { username: "alice".to_string(), password: "correct horse".to_string() })
        .unwrap();
    assert_eq!(result.user.username, "alice");
    assert_eq!(result.user.id, info.id);
    // a JWT: three dot-separated parts, with the fixed header up front
    let parts: Vec<&str> = result.token.split('.').collect();
    assert_eq!(parts.len(), 3);
    assert_eq!(parts[0], "eyJhbGciOiJIUzI1NiIsInR5cCI6IkpXVCJ9");
}

#[test]
fn wrong_password_is_rejected() {
    let mut auth = new_auth();
    auth.register(&registration("bob", "password123")).unwrap();
    let r = auth
        .login(&UserLogin { username: "bob".to_string(), password: "password124".to_string() });
    assert_eq!(r.unwrap_err(), AuthError::InvalidCredentials);
}

#[test]
fn unknown_user_is_rejected() {
    let auth = new_auth();
    let r =
        auth.login(&UserLogin { username: "nobody".to_string(), password: "whatever1".to_string() });
    assert_eq!(r.unwrap_err(), AuthError::InvalidCredentials);
}

#[test]
fn username_length_is_checked() {
    let mut auth = new_auth();
    assert_eq!(auth.register(&registration("ab", "password123")).unwrap_err(), AuthError::UsernameLength);
    let long = "x".repeat(51);
    assert_eq!(auth.register(&registration(&long, "password123")).unwrap_err(), AuthError::UsernameLength);
}

#[test]
fn short_password_is_rejected() {
    let mut auth = new_auth();
    assert_eq!(auth.register(&registration("carol", "short")).unwrap_err(), AuthError::PasswordTooShort);
}

#[test]
fn duplicate_username_is_rejected() {
    let mut auth = new_auth();
    auth.register(&registration("dave", "password123")).unwrap();
    assert_eq!(
        auth.register(&registration("dave", "password456")).unwrap_err(),
        AuthError::UserAlreadyExists
    );
}

#[test]
fn lookup_by_id_round_trips() {
    let mut auth = new_auth();
    let info = auth.register(&registration("erin", "password123")).unwrap();
    let users = &auth.user_repository.users;
    assert_eq!(users.len(), 1);
    let found = auth.get_user_by_id(users[0].id).unwrap();
    assert_eq!(found.username, "erin");
    assert_eq!(found.id, info.id);
}

#[test]
fn password_hash_round_trips() {
    let service = WasmPasswordService::new();
    let hashed = service.hash_password("hunter2hunter2").unwrap();
    assert_eq!(hashed.salt.len(), 44);
    assert_eq!(service.verify_password("hunter2hunter2", &hashed), Ok(true));
    assert_eq!(service.verify_password("hunter3hunter3", &hashed), Ok(false));
}

#[test]
fn hashing_depends_on_the_salt() {
    let a = WasmPasswordService::hash_password_internal("secret stuff", "salt-one").unwrap();
    let b = WasmPasswordService::hash_password_internal("secret stuff", "salt-two").unwrap();
    assert_ne!(a.hash, b.hash);
    let again = WasmPasswordService::hash_password_internal("secret stuff", "salt-one").unwrap();
    assert_eq!(a.hash, again.hash);
}

#[test]
fn token_payload_is_well_formed_json() {
    let service = WasmTokenService::new("another-secret".to_string());
    let token = service
        .generate_token(twodo_backend::ids::UserId(7), "zoe\"\\name")
        .unwrap();
    let parts: Vec<&str> = token.split('.').collect();
    assert_eq!(parts.len(), 3);
    let payload_bytes =
        base64::engine::general_purpose::URL_SAFE_NO_PAD.decode(parts[1]).unwrap();
    let value: serde_json::Value = serde_json::from_slice(&payload_bytes).unwrap();
    assert_eq!(value["sub"], "00000000-0000-0000-0000-000000000007");
    assert_eq!(value["username"], "zoe\"\\name");
    let iat = value["iat"].as_u64().unwrap();
    let exp = value["exp"].as_u64().unwrap();
    assert_eq!(exp, iat + 86_400);
}

#[test]
fn fresh_salts_differ() {
    let service = WasmPasswordService::new();
    let a = service.hash_password("same password").unwrap();
    let b = service.hash_password("same password").unwrap();
    assert_ne!(a.salt, b.salt);
    assert_ne!(a.hash, b.hash);
    assert_eq!(a.hash.len(), 44);
}

#[test]
fn validate_token_is_not_offered() {
    let service = WasmTokenService::new("s".to_string());
    assert!(service.validate_token("a.b.c").is_err());
}
