//! A small model of users, administrators and login sessions. Its source is
//! the kind of text that the analyser is meant for: a trait, structs that
//! embed one another, a generic container and an enum of status codes.

use vstd::prelude::*;
use vstd::hash_map::StringHashMap;
use vstd::string::{StringExecFns, StringSliceAdditionalSpecFns};

verus! {

/// Something that can check a user's credentials.
pub trait Authenticator {
    /// The credentials that are accepted.
    spec fn accepts(&self, username: &str, password: &str) -> bool;

    /// Whether the credentials are accepted.
    fn authenticate(&self, username: &str, password: &str) -> (ok: bool)
        ensures
            ok == self.accepts(username, password),
    ;

    /// Ends the user's session. Nothing is computed.
    fn logout(&self);
}

/// A user: a name and a number.
#[derive(Debug, Clone)]
pub struct User {
    pub username: String,
    pub id: u32,
}

impl User {
    pub fn new(username: String, id: u32) -> (user: Self)
        ensures
            user.username == username,
            user.id == id,
    {
        User { username, id }
    }
}

/// A user with permissions.
#[derive(Debug, Clone)]
pub struct AdminUser {
    user: User,
    permissions: Vec<String>,
}

impl AdminUser {
    /// The user that the administrator is.
    pub closed spec fn user(&self) -> User {
        self.user
    }

    /// The permissions granted so far, oldest first.
    pub closed spec fn permissions(&self) -> Seq<String> {
        self.permissions@
    }

    /// An administrator without permissions.
    pub fn new(username: String, id: u32) -> (admin: Self)
        ensures
            admin.user().username == username,
            admin.user().id == id,
            admin.permissions() == Seq::<String>::empty(),
    {
        AdminUser { user: User::new(username, id), permissions: Vec::new() }
    }

    /// Grants one more permission.
    pub fn add_permission(&mut self, permission: String)
        ensures
            final(self).permissions() == old(self).permissions().push(permission),
            final(self).user() == old(self).user(),
    {
        self.permissions.push(permission);
    }

    /// The permissions granted so far.
    pub fn granted(&self) -> (r: &Vec<String>)
        ensures
            r@ == self.permissions(),
    {
        &self.permissions
    }

    /// The administrator's name.
    pub fn username(&self) -> (r: &String)
        ensures
            *r == self.user().username,
    {
        &self.user.username
    }

    /// A password is long enough with eight bytes.
    pub fn validate_password(&self, password: &str) -> (ok: bool)
        ensures
            ok == (password.spec_bytes().len() >= 8),
    {
        password.as_bytes().len() >= 8
    }
}

impl Authenticator for AdminUser {
    /// The name is the administrator's, neither name nor password is empty
    /// and the password is long enough.
    open spec fn accepts(&self, username: &str, password: &str) -> bool {
        &&& username@.len() > 0
        &&& password@.len() > 0
        &&& self.user().username@ == username@
        &&& password.spec_bytes().len() >= 8
    }

    fn authenticate(&self, username: &str, password: &str) -> (ok: bool) {
        if username.is_empty() || password.is_empty() {
            return false;
        }
        let given = String::from_str(username);
        self.user.username == given && self.validate_password(password)
    }

    fn logout(&self) {
    }
}

/// The sessions that are open, by session id.
#[verifier::reject_recursive_types(T)]
pub struct SessionManager<T> {
    sessions: StringHashMap<T>,
}

impl<T> View for SessionManager<T> {
    type V = Map<Seq<char>, T>;

    closed spec fn view(&self) -> Map<Seq<char>, T> {
        self.sessions@
    }
}

impl<T: Clone> SessionManager<T> {
    /// A manager without sessions.
    pub fn new() -> (manager: Self)
        ensures
            manager@ == Map::<Seq<char>, T>::empty(),
    {
        SessionManager { sessions: StringHashMap::new() }
    }

    /// Opens a session, replacing the one that had the same id.
    pub fn create_session(&mut self, session_id: String, user: T)
        ensures
            final(self)@ == old(self)@.insert(session_id@, user),
    {
        self.sessions.insert(session_id, user);
    }

    /// A copy of the user of a session, if the session is open.
    pub fn get_session(&self, session_id: &str) -> (found: Option<T>)
        ensures
            match found {
                Some(user) => self@.contains_key(session_id@) && cloned(
                    self@[session_id@],
                    user,
                ),
                None => !self@.contains_key(session_id@),
            },
    {
        self.sessions.get(session_id).cloned()
    }
}

/// The outcome of a request.
#[derive(Debug, Clone, Copy, PartialEq, Eq, Structural)]
pub enum StatusCode {
    Success,
    Unauthorized,
    Forbidden,
    NotFound,
}

impl StatusCode {
    /// The number of each status.
    pub open spec fn number(self) -> u16 {
        match self {
            StatusCode::Success => 200,
            StatusCode::Unauthorized => 401,
            StatusCode::Forbidden => 403,
            StatusCode::NotFound => 404,
        }
    }

    /// The text of each status.
    pub open spec fn text(self) -> Seq<char> {
        match self {
            StatusCode::Success => "OK"@,
            StatusCode::Unauthorized => "Unauthorized"@,
            StatusCode::Forbidden => "Forbidden"@,
            StatusCode::NotFound => "Not Found"@,
        }
    }

    /// The status as a number.
    pub fn code(&self) -> (n: u16)
        ensures
            n == self.number(),
    {
        match self {
            StatusCode::Success => 200,
            StatusCode::Unauthorized => 401,
            StatusCode::Forbidden => 403,
            StatusCode::NotFound => 404,
        }
    }

    /// The status in words.
    pub fn message(&self) -> (m: &'static str)
        ensures
            m@ == self.text(),
    {
        match self {
            StatusCode::Success => "OK",
            StatusCode::Unauthorized => "Unauthorized",
            StatusCode::Forbidden => "Forbidden",
            StatusCode::NotFound => "Not Found",
        }
    }
}

/// What a request for a session gives: the session's id, or the status that
/// turned the request down.
pub type AuthResult<T> = Result<T, StatusCode>;

/// Whether `c` is a digit of lower-case hexadecimal notation.
pub open spec fn is_hex_digit(c: char) -> bool {
    ('0' <= c <= '9') || ('a' <= c <= 'f')
}

/// The shape of a random identifier in its hyphenated form: five groups of
/// 8, 4, 4, 4 and 12 hexadecimal digits, the third group starting with the
/// version `4`, the fourth with one of `8`, `9`, `a`, `b`.
pub open spec fn is_token(s: Seq<char>) -> bool {
    &&& s.len() == 36
    &&& forall|i: int|
        0 <= i < 36 ==> if i == 8 || i == 13 || i == 18 || i == 23 {
            s[i] == '-'
        } else {
            is_hex_digit(#[trigger] s[i])
        }
    &&& s[14] == '4'
    &&& (s[19] == '8' || s[19] == '9' || s[19] == 'a' || s[19] == 'b')
}

/// The id of the session that a token opens.
pub open spec fn session_id_of(token: Seq<char>) -> Seq<char> {
    "session_"@ + token
}

/// Whether `id` is the id of a session opened by some token.
pub open spec fn is_session_id(id: Seq<char>) -> bool {
    exists|token: Seq<char>| is_token(token) && id == #[trigger] session_id_of(token)
}

/// Calls `uuid::Uuid::new_v4` and writes the identifier out through its
/// `Display`. The value is random, so the contract claims only its shape,
/// which is not proved here: the crate sets the version and variant bits
/// and writes the 128 bits as lower-case hexadecimal digits in hyphenated
/// groups.
#[verifier::external_body]
fn fresh_token() -> (token: String)
    ensures
        is_token(token@),
{
    uuid::Uuid::new_v4().to_string()
}

/// Opens a session for a copy of `user` under the id that `token` gives,
/// and returns the id.
fn record_session<T: Clone>(user: &T, token: &str, manager: &mut SessionManager<T>) -> (id: String)
    ensures
        id@ == session_id_of(token@),
        final(manager)@.contains_key(id@),
        cloned(*user, final(manager)@[id@]),
        final(manager)@ == old(manager)@.insert(id@, final(manager)@[id@]),
{
    let mut session_id = String::from_str("session_");
    session_id.append(token);
    let id = session_id.clone();
    manager.create_session(session_id, user.clone());
    id
}

/// Opens a session for `user` under the id that `token` gives, if the
/// credentials are accepted. Otherwise the request is unauthorized and no
/// session is opened.
pub fn open_session<T: Authenticator + Clone>(
    user: &T,
    username: &str,
    password: &str,
    token: &str,
    manager: &mut SessionManager<T>,
) -> (r: AuthResult<String>)
    ensures
        user.accepts(username, password) ==> r is Ok && r->Ok_0@ == session_id_of(token@)
            && final(manager)@.contains_key(r->Ok_0@) && cloned(*user, final(manager)@[r->Ok_0@])
            && final(manager)@ == old(manager)@.insert(r->Ok_0@, final(manager)@[r->Ok_0@]),
        !user.accepts(username, password) ==> r == Err::<String, StatusCode>(
            StatusCode::Unauthorized,
        ) && final(manager)@ == old(manager)@,
{
    if user.authenticate(username, password) {
        Ok(record_session(user, token, manager))
    } else {
        Err(StatusCode::Unauthorized)
    }
}

/// Opens a session for `user` under a fresh random id, if the credentials
/// are accepted. Otherwise the request is unauthorized and no session is
/// opened.
pub fn authenticate_and_create_session<T: Authenticator + Clone>(
    user: &T,
    username: &str,
    password: &str,
    manager: &mut SessionManager<T>,
) -> (r: AuthResult<String>)
    ensures
        user.accepts(username, password) ==> r is Ok && is_session_id(r->Ok_0@)
            && final(manager)@.contains_key(r->Ok_0@) && cloned(*user, final(manager)@[r->Ok_0@])
            && final(manager)@ == old(manager)@.insert(r->Ok_0@, final(manager)@[r->Ok_0@]),
        !user.accepts(username, password) ==> r == Err::<String, StatusCode>(
            StatusCode::Unauthorized,
        ) && final(manager)@ == old(manager)@,
{
    if user.authenticate(username, password) {
        let token = fresh_token();
        let id = record_session(user, token.as_str(), manager);
        assert(id@ == session_id_of(token@));
        Ok(id)
    } else {
        Err(StatusCode::Unauthorized)
    }
}

} // verus!
