//! Users and credentials: password hashing, the user store, and the
//! registration and login flows.

use vstd::prelude::*;
use vstd::string::*;
use vstd::utf8::encode_utf8;
use crate::ids::UserId;
use crate::crypto::{sha256, sha256_of, b64_encode_std, b64_std_of, random_bytes_32, uuid_to_string,
    uuid_text_of, concat_bytes};
use crate::jwt::{WasmTokenService, jwt_text};
use crate::service::fresh_id_bits;

verus! {

/// Relies on std's string-slice equality: two slices are equal exactly
/// when their characters are.
pub assume_specification[ <str as PartialEq>::eq ](a: &str, b: &str) -> (r: bool)
    ensures
        r == (a@ == b@),
;

/// A stored user account.
#[derive(Clone, Debug)]
pub struct User {
    pub id: UserId,
    pub username: String,
    /// The salted hash of the user's password.
    pub password_hash: HashedPassword,
    pub created_at: i64,
}

/// A salted password hash: the base64 digest and the salt it was computed
/// with.
#[derive(Clone, Debug, PartialEq, Eq)]
pub struct HashedPassword {
    pub hash: String,
    pub salt: String,
}

/// A request to create an account.
#[derive(Clone, Debug)]
pub struct UserRegistration {
    pub username: String,
    pub password: String,
}

/// A request to sign in.
#[derive(Clone, Debug)]
pub struct UserLogin {
    pub username: String,
    pub password: String,
}

/// A successful sign-in: the user and a fresh token.
#[derive(Clone, Debug)]
pub struct AuthResult {
    pub user: UserInfo,
    pub token: String,
}

/// A user as shown to callers.
#[derive(Clone, Debug, PartialEq, Eq)]
pub struct UserInfo {
    pub id: String,
    pub username: String,
}

/// The claims carried inside a token.
#[derive(Debug)]
pub struct JwtClaims {
    /// The user's identity, as hyphenated text.
    pub sub: String,
    pub username: String,
    /// Expiration, in seconds since the Unix epoch.
    pub exp: u64,
    /// Issued at, in seconds since the Unix epoch.
    pub iat: u64,
}

/// Why an authentication request failed.
#[derive(Clone, Copy, Debug, PartialEq, Eq, Structural)]
pub enum AuthError {
    /// The username must be between 3 and 50 bytes.
    UsernameLength,
    /// The password must be at least 8 bytes.
    PasswordTooShort,
    /// The username is taken.
    UserAlreadyExists,
    /// Unknown username, or wrong password.
    InvalidCredentials,
    /// The randomness source failed.
    RandomFailure,
    /// The claims are too large to encode.
    TokenTooLarge,
    /// Token validation is not offered yet.
    TokenValidationUnavailable,
}

/// The digest stored for a password and a salt: the standard base64 text
/// of the SHA-256 of the password's bytes followed by the salt's bytes.
pub open spec fn password_digest(password: Seq<char>, salt: Seq<char>) -> Seq<char> {
    b64_std_of(sha256_of(encode_utf8(password) + encode_utf8(salt)))
}

/// Password hashing and checking over the trusted digest.
pub struct WasmPasswordService;

impl WasmPasswordService {
    /// A password service.
    pub fn new() -> (r: Self) {
        WasmPasswordService
    }

    /// Draw a fresh salt: 44 characters of base64 over 32 random bytes.
    pub fn generate_salt() -> (r: Result<String, AuthError>)
        ensures
            match r {
                Ok(s) => s@.len() == 44,
                Err(e) => e == AuthError::RandomFailure,
            },
    {
        match random_bytes_32() {
            Ok(bytes) => Ok(b64_encode_std(bytes.as_slice())),
            Err(()) => Err(AuthError::RandomFailure),
        }
    }

    /// Hash a password under a given salt.
    pub fn hash_password_internal(password: &str, salt: &str) -> (r: Result<
        HashedPassword,
        AuthError,
    >)
        ensures
            match r {
                Ok(h) => h.salt@ == salt@ && h.hash@ == password_digest(password@, salt@),
                Err(_) => false,
            },
    {
        let combined = concat_bytes(password.as_bytes(), salt.as_bytes());
        let digest = sha256(combined.as_slice());
        let hash = b64_encode_std(digest.as_slice());
        Ok(HashedPassword { hash, salt: salt.to_owned() })
    }

    /// Check a password against a stored hash: true exactly when hashing
    /// the password under the stored salt reproduces the stored digest.
    pub fn verify_password_internal(password: &str, stored: &HashedPassword) -> (r: Result<
        bool,
        AuthError,
    >)
        ensures
            match r {
                Ok(b) => b == (password_digest(password@, stored.salt@) == stored.hash@),
                Err(_) => false,
            },
    {
        let computed = match Self::hash_password_internal(password, stored.salt.as_str()) {
            Ok(h) => h,
            Err(e) => {
                return Err(e);
            },
        };
        Ok(computed.hash.eq(&stored.hash))
    }

    /// Hash a password under a freshly drawn salt.
    pub fn hash_password(&self, password: &str) -> (r: Result<HashedPassword, AuthError>)
        ensures
            match r {
                Ok(h) => h.hash@ == password_digest(password@, h.salt@) && h.salt@.len() == 44,
                Err(e) => e == AuthError::RandomFailure,
            },
    {
        let salt = match Self::generate_salt() {
            Ok(s) => s,
            Err(e) => {
                return Err(e);
            },
        };
        Self::hash_password_internal(password, salt.as_str())
    }

    /// Check a password against a stored hash.
    pub fn verify_password(&self, password: &str, stored: &HashedPassword) -> (r: Result<
        bool,
        AuthError,
    >)
        ensures
            match r {
                Ok(b) => b == (password_digest(password@, stored.salt@) == stored.hash@),
                Err(_) => false,
            },
    {
        Self::verify_password_internal(password, stored)
    }
}


/// The port a password scheme fills: hashing a password and checking one
/// against a stored hash.
pub trait PasswordService {
    fn hash_password(&self, password: &str) -> Result<HashedPassword, AuthError>;

    fn verify_password(&self, password: &str, stored: &HashedPassword) -> Result<bool, AuthError>;
}

impl PasswordService for WasmPasswordService {
    fn hash_password(&self, password: &str) -> Result<HashedPassword, AuthError> {
        WasmPasswordService::hash_password(self, password)
    }

    fn verify_password(&self, password: &str, stored: &HashedPassword) -> Result<bool, AuthError> {
        WasmPasswordService::verify_password(self, password, stored)
    }
}

/// Index of the user with this username, or `-1` when absent.
pub open spec fn username_index(us: Seq<User>, name: Seq<char>) -> int
    decreases us.len(),
{
    if us.len() == 0 {
        -1
    } else if us.last().username@ == name {
        us.len() - 1
    } else {
        username_index(us.drop_last(), name)
    }
}

/// No two accounts share a username.
pub open spec fn unique_usernames(us: Seq<User>) -> bool {
    forall|i: int, j: int| 0 <= i < j < us.len() ==> us[i].username@ != us[j].username@
}

/// When present, the entry found by `username_index` is a real entry with
/// that username; when absent, no entry carries it.
pub proof fn lemma_username_index(us: Seq<User>, name: Seq<char>)
    ensures
        username_index(us, name) == -1 ==> forall|j: int| 0 <= j < us.len()
            ==> (#[trigger] us[j]).username@ != name,
        username_index(us, name) != -1 ==> 0 <= username_index(us, name) < us.len()
            && us[username_index(us, name)].username@ == name,
    decreases us.len(),
{
    if us.len() > 0 && us.last().username@ != name {
        lemma_username_index(us.drop_last(), name);
        assert(forall|j: int| 0 <= j < us.len() - 1 ==> us.drop_last()[j] == us[j]);
    }
}

/// Copy a user record field by field.
pub fn copy_user(u: &User) -> (r: User)
    ensures
        r == *u,
{
    User {
        id: u.id,
        username: u.username.clone(),
        password_hash: HashedPassword {
            hash: u.password_hash.hash.clone(),
            salt: u.password_hash.salt.clone(),
        },
        created_at: u.created_at,
    }
}

/// The user store: one account per username, kept across requests.
pub struct PersistentMemoryUserRepository {
    pub users: Vec<User>,
}

impl PersistentMemoryUserRepository {
    /// An empty store.
    pub fn new() -> (r: Self)
        ensures
            r.users@.len() == 0,
    {
        PersistentMemoryUserRepository { users: Vec::new() }
    }

    /// Store an account, replacing any account under the same username.
    #[verifier::loop_isolation(false)]
    pub fn create_user(&mut self, user: &User)
        requires
            unique_usernames(old(self).users@),
        ensures
            unique_usernames(final(self).users@),
            username_index(old(self).users@, user.username@) >= 0 ==> final(self).users@ == old(
                self,
            ).users@.update(username_index(old(self).users@, user.username@), *user),
            username_index(old(self).users@, user.username@) < 0 ==> final(self).users@ == old(
                self,
            ).users@.push(*user),
    {
        let ghost us0 = self.users@;
        proof {
            lemma_username_index(us0, user.username@);
        }
        let n = self.users.len();
        let mut i: usize = 0;
        while i < n
            invariant
                n == us0.len(),
                self.users@ == us0,
                0 <= i <= n,
                forall|j: int| 0 <= j < i ==> (#[trigger] us0[j]).username@ != user.username@,
            decreases n - i,
        {
            if self.users[i].username.eq(&user.username) {
                proof {
                    lemma_username_index(us0, user.username@);
                    assert(username_index(us0, user.username@) == i);
                }
                let u = copy_user(user);
                self.users.set(i, u);
                proof {
                    assert forall|a: int, b: int| 0 <= a < b < self.users@.len() implies
                        self.users@[a].username@ != self.users@[b].username@ by {
                        assert(us0[a].username@ != us0[b].username@);
                    }
                }
                return ;
            }
            i += 1;
        }
        proof {
            lemma_username_index(us0, user.username@);
        }
        let u = copy_user(user);
        self.users.push(u);
    }

    /// Fetch the account under this username, if any.
    #[verifier::loop_isolation(false)]
    pub fn get_user_by_username(&self, username: &str) -> (r: Option<User>)
        requires
            unique_usernames(self.users@),
        ensures
            match r {
                None => username_index(self.users@, username@) == -1,
                Some(u) => {
                    &&& 0 <= username_index(self.users@, username@) < self.users@.len()
                    &&& u == self.users@[username_index(self.users@, username@)]
                },
            },
    {
        proof {
            lemma_username_index(self.users@, username@);
        }
        let n = self.users.len();
        let mut i: usize = 0;
        while i < n
            invariant
                n == self.users@.len(),
                0 <= i <= n,
                forall|j: int| 0 <= j < i ==> (#[trigger] self.users@[j]).username@ != username@,
            decreases n - i,
        {
            if self.users[i].username.as_str().eq(username) {
                proof {
                    lemma_username_index(self.users@, username@);
                    assert(username_index(self.users@, username@) == i);
                }
                return Some(copy_user(&self.users[i]));
            }
            i += 1;
        }
        proof {
            lemma_username_index(self.users@, username@);
        }
        None
    }

    /// Fetch an account by user identity; the first stored match, if any.
    pub fn get_user_by_id(&self, user_id: UserId) -> (r: Option<User>)
        ensures
            match r {
                None => forall|j: int| 0 <= j < self.users@.len()
                    ==> (#[trigger] self.users@[j]).id != user_id,
                Some(u) => self.users@.contains(u) && u.id == user_id,
            },
    {
        let n = self.users.len();
        let mut i: usize = 0;
        while i < n
            invariant
                n == self.users@.len(),
                0 <= i <= n,
                forall|j: int| 0 <= j < i ==> (#[trigger] self.users@[j]).id != user_id,
            decreases n - i,
    {
            if self.users[i].id == user_id {
                let u = copy_user(&self.users[i]);
                proof {
                    assert(self.users@[i as int] == u);
                }
                return Some(u);
            }
            i += 1;
        }
        None
    }

    /// Whether an account exists under this username.
    pub fn username_exists(&self, username: &str) -> (r: bool)
        requires
            unique_usernames(self.users@),
        ensures
            r == (username_index(self.users@, username@) >= 0),
    {
        match self.get_user_by_username(username) {
            Some(_) => true,
            None => false,
        }
    }
}

/// Registration, login and lookup over the user store, the password
/// service and the token service.
pub struct AuthService {
    pub user_repository: PersistentMemoryUserRepository,
    pub password_service: WasmPasswordService,
    pub token_service: WasmTokenService,
}

impl AuthService {
    /// The store keeps one account per username.
    pub open spec fn wf(self) -> bool {
        unique_usernames(self.user_repository.users@)
    }

    /// Assemble the service.
    pub fn new(
        user_repository: PersistentMemoryUserRepository,
        password_service: WasmPasswordService,
        token_service: WasmTokenService,
    ) -> (r: Self)
        ensures
            r.user_repository == user_repository,
            r.token_service == token_service,
    {
        AuthService { user_repository, password_service, token_service }
    }

    /// Create an account: the username must be 3 to 50 bytes, the password
    /// at least 8 bytes, and the username free.
    pub fn register(&mut self, registration: &UserRegistration) -> (r: Result<UserInfo, AuthError>)
        requires
            old(self).wf(),
        ensures
            final(self).wf(),
            final(self).token_service == old(self).token_service,
            ({
                let us0 = old(self).user_repository.users@;
                let us1 = final(self).user_repository.users@;
                let name_bad = encode_utf8(registration.username@).len() < 3
                    || encode_utf8(registration.username@).len() > 50;
                let pw_bad = encode_utf8(registration.password@).len() < 8;
                let taken = username_index(us0, registration.username@) >= 0;
                if name_bad {
                    r == Result::<UserInfo, AuthError>::Err(AuthError::UsernameLength) && us1 == us0
                } else if pw_bad {
                    r == Result::<UserInfo, AuthError>::Err(AuthError::PasswordTooShort) && us1
                        == us0
                } else if taken {
                    r == Result::<UserInfo, AuthError>::Err(AuthError::UserAlreadyExists) && us1
                        == us0
                } else {
                    match r {
                        Ok(info) => {
                            &&& us1.len() == us0.len() + 1
                            &&& us1.drop_last() == us0
                            &&& us1.last().username == registration.username
                            &&& us1.last().password_hash.hash@ == password_digest(
                                registration.password@,
                                us1.last().password_hash.salt@,
                            )
                            &&& info.username == registration.username
                            &&& info.id@ == uuid_text_of(us1.last().id.0)
                        },
                        Err(e) => e == AuthError::RandomFailure && us1 == us0,
                    }
                }
            }),
    {
        let name_len = registration.username.as_str().as_bytes().len();
        if name_len < 3 || name_len > 50 {
            return Err(AuthError::UsernameLength);
        }
        if registration.password.as_str().as_bytes().len() < 8 {
            return Err(AuthError::PasswordTooShort);
        }
        if self.user_repository.username_exists(registration.username.as_str()) {
            return Err(AuthError::UserAlreadyExists);
        }
        let hashed = match self.password_service.hash_password(registration.password.as_str()) {
            Ok(h) => h,
            Err(e) => {
                return Err(e);
            },
        };
        let id = match fresh_id_bits() {
            Ok(bits) => UserId(bits),
            Err(()) => {
                return Err(AuthError::RandomFailure);
            },
        };
        let now = crate::service::now_millis();
        let user = User {
            id,
            username: registration.username.clone(),
            password_hash: hashed,
            created_at: now,
        };
        self.user_repository.create_user(&user);
        Ok(UserInfo { id: uuid_to_string(id.0), username: registration.username.clone() })
    }

    /// Sign a user in: the username must be known and the password must
    /// hash, under the stored salt, to the stored digest; success carries
    /// a fresh signed token.
    pub fn login(&self, login: &UserLogin) -> (r: Result<AuthResult, AuthError>)
        requires
            self.wf(),
        ensures
            ({
                let us = self.user_repository.users@;
                let idx = username_index(us, login.username@);
                if idx < 0 {
                    r == Result::<AuthResult, AuthError>::Err(AuthError::InvalidCredentials)
                } else if password_digest(login.password@, us[idx].password_hash.salt@)
                    != us[idx].password_hash.hash@ {
                    r == Result::<AuthResult, AuthError>::Err(AuthError::InvalidCredentials)
                } else {
                    match r {
                        Ok(result) => {
                            &&& result.user.id@ == uuid_text_of(us[idx].id.0)
                            &&& result.user.username == us[idx].username
                            &&& exists|c: JwtClaims|
                                {
                                    &&& (#[trigger] jwt_text(c, self.token_service.secret@))
                                        == result.token@
                                    &&& c.sub@ == uuid_text_of(us[idx].id.0)
                                    &&& c.username@ == us[idx].username@
                                    &&& c.exp == c.iat + 86400
                                }
                        },
                        Err(e) => e == AuthError::TokenTooLarge,
                    }
                }
            }),
    {
        let user = match self.user_repository.get_user_by_username(login.username.as_str()) {
            Some(u) => u,
            None => {
                return Err(AuthError::InvalidCredentials);
            },
        };
        let ok = match WasmPasswordService::verify_password_internal(
            login.password.as_str(),
            &user.password_hash,
        ) {
            Ok(b) => b,
            Err(_) => {
                return Err(AuthError::InvalidCredentials);
            },
        };
        if !ok {
            return Err(AuthError::InvalidCredentials);
        }
        let token = match self.token_service.generate_token(user.id, user.username.as_str()) {
            Ok(t) => t,
            Err(e) => {
                return Err(e);
            },
        };
        Ok(
            AuthResult {
                user: UserInfo { id: uuid_to_string(user.id.0), username: user.username },
                token,
            },
        )
    }

    /// Look a user up by identity.
    pub fn get_user_by_id(&self, user_id: UserId) -> (r: Option<UserInfo>)
        ensures
            match r {
                None => forall|j: int| 0 <= j < self.user_repository.users@.len()
                    ==> (#[trigger] self.user_repository.users@[j]).id != user_id,
                Some(info) => exists|j: int|
                    0 <= j < self.user_repository.users@.len()
                        && (#[trigger] self.user_repository.users@[j]).id == user_id
                        && info.username == self.user_repository.users@[j].username
                        && info.id@ == uuid_text_of(user_id.0),
            },
    {
        match self.user_repository.get_user_by_id(user_id) {
            None => None,
            Some(u) => {
                proof {
                    let j = choose|j: int|
                        0 <= j < self.user_repository.users@.len()
                            && self.user_repository.users@[j] == u;
                }
                Some(UserInfo { id: uuid_to_string(user_id.0), username: u.username })
            },
        }
    }
}

} // verus!
