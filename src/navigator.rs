//! Navigators: accounts with a validated name and an argon2 password hash.
//! Times are milliseconds since the Unix epoch.
use argon2::password_hash::rand_core::OsRng;
use argon2::password_hash::PasswordHasher;
use argon2::password_hash::PasswordVerifier;
use argon2::password_hash::SaltString;
use argon2::Argon2;
use argon2::PasswordHash;
use vstd::prelude::*;
use vstd::utf8::encode_utf8;

use crate::nutty_id::NuttyId;
use crate::session::Session;
use crate::session::SessionError;
use crate::push_chars;
use crate::string_from_chars;

verus! {

/// Whether `hash` is a PHC password hash that `password` matches under argon2.
pub uninterp spec fn argon2_accepts(hash: Seq<char>, password: Seq<char>) -> bool;

/// Relies on `SaltString::generate` with `OsRng` and argon2's
/// `PasswordHasher::hash_password`: the PHC text of the password hashed under a
/// fresh random salt, or the crate's error message. Nothing is known of the text.
#[verifier::external_body]
fn hash_password(password: &str) -> (r: Result<String, String>) {
    let salt = SaltString::generate(&mut OsRng);
    Argon2::default().hash_password(password.as_bytes(), &salt).map(|h| h.to_string()).map_err(
        |e| e.to_string(),
    )
}

/// Relies on `PasswordHash::new` and argon2's `PasswordVerifier::verify_password`:
/// whether `hash` parses and `password` matches it; the answer depends on the
/// two texts alone.
#[verifier::external_body]
fn verify_hash(hash: &str, password: &str) -> (r: bool)
    ensures
        r == argon2_accepts(hash@, password@),
{
    match PasswordHash::new(hash) {
        Ok(parsed) => Argon2::default().verify_password(password.as_bytes(), &parsed).is_ok(),
        Err(_) => false,
    }
}

/// `s` writes `n` in decimal digits, without leading zeros.
pub open spec fn decimal_of(s: Seq<char>, n: nat) -> bool
    decreases n,
{
    &&& s.len() >= 1
    &&& (s.last() as int) == 48 + (n % 10) as int
    &&& if n < 10 {
        s.len() == 1
    } else {
        decimal_of(s.drop_last(), n / 10)
    }
}

/// The decimal digits of `n`.
fn decimal(n: usize) -> (r: Vec<char>)
    ensures
        decimal_of(r@, n as nat),
    decreases n,
{
    let d = (n % 10) as u8;
    let c = (48 + d) as char;
    if n < 10 {
        let mut v: Vec<char> = Vec::new();
        v.push(c);
        v
    } else {
        let mut v = decimal(n / 10);
        let ghost before = v@;
        v.push(c);
        assert(v@.drop_last() =~= before);
        v
    }
}

/// A name character: a lowercase ASCII letter, an ASCII digit or `_`.
pub open spec fn is_name_char(c: char) -> bool {
    (97 <= (c as int) <= 122) || (48 <= (c as int) <= 57) || c == '_'
}

/// Every character of `s` is a name character.
pub open spec fn name_chars_ok(s: Seq<char>) -> bool {
    forall|i: int| 0 <= i < s.len() ==> is_name_char(#[trigger] s[i])
}

/// A valid name: 4 to 16 bytes (in UTF-8) of name characters.
pub open spec fn valid_name(name: Seq<char>) -> bool {
    4 <= encode_utf8(name).len() <= 16 && name_chars_ok(name)
}

/// Errors of navigators.
#[derive(Debug, Clone, PartialEq, Eq)]
pub enum NavigatorError {
    InvalidName(String),
    InvalidTimestamp { timestamp: i64 },
    PasswordHashingError(String),
}

/// Errors of navigator construction.
#[derive(Debug, Clone, PartialEq, Eq)]
pub enum NavigatorBuilderError {
    MissingName,
    MissingPassword,
    /// Identifier and timestamps must be given all together, and a stored hash
    /// only with them.
    MissingTimestampContext,
    CreateNavigator(NavigatorError),
    /// The update time lies before the creation time.
    InvalidUpdatedAt,
    InvalidTimestamp { timestamp: i64 },
    PasswordHashingError(String),
}

/// An account.
#[derive(Debug)]
pub struct Navigator {
    nutty_id: NuttyId,
    name: String,
    pass: String,
    created_at: i64,
    updated_at: i64,
}

impl Clone for Navigator {
    fn clone(&self) -> (r: Self)
        ensures
            r == *self,
    {
        Navigator {
            nutty_id: self.nutty_id,
            name: self.name.clone(),
            pass: self.pass.clone(),
            created_at: self.created_at,
            updated_at: self.updated_at,
        }
    }
}

impl Navigator {
    pub closed spec fn spec_nutty_id(&self) -> NuttyId {
        self.nutty_id
    }

    pub closed spec fn spec_name(&self) -> Seq<char> {
        self.name@
    }

    pub closed spec fn spec_pass(&self) -> Seq<char> {
        self.pass@
    }

    pub closed spec fn spec_created_at(&self) -> i64 {
        self.created_at
    }

    pub closed spec fn spec_updated_at(&self) -> i64 {
        self.updated_at
    }

    /// A new navigator named `name`, its password hashed, created at the time
    /// its fresh identifier records.
    pub fn new(name: String, password: &str) -> (r: Result<Self, NavigatorError>)
        ensures
            !valid_name(name@) ==> r matches Err(NavigatorError::InvalidName(_)),
            r matches Ok(n) ==> valid_name(name@) && n.spec_name() == name@
                && n.spec_created_at() == n.spec_updated_at(),
            r matches Err(e) ==> valid_name(name@) ==> e is PasswordHashingError,
    {
        match Navigator::validate_name(name.as_str()) {
            Ok(()) => {},
            Err(e) => {
                return Err(e);
            },
        }
        let pass = match hash_password(password) {
            Ok(h) => h,
            Err(e) => {
                return Err(NavigatorError::PasswordHashingError(e));
            },
        };
        let nutty_id = NuttyId::now();
        let timestamp = nutty_id.timestamp();
        assert(timestamp <= i64::MAX) by {
            assert(nutty_id.uuid / crate::nutty_id::TIMESTAMP_DIVISOR <= i64::MAX as int)
                by (nonlinear_arith)
                requires
                    nutty_id.uuid <= u128::MAX,
            ;
        }
        let now = timestamp as i64;
        Ok(Navigator { nutty_id, name, pass, created_at: now, updated_at: now })
    }

    /// Accepts a name of 4 to 16 bytes made of lowercase ASCII letters, ASCII
    /// digits and `_`; the length is checked first.
    pub fn validate_name(name: &str) -> (r: Result<(), NavigatorError>)
        ensures
            r is Ok <==> valid_name(name@),
            !(4 <= encode_utf8(name@).len() <= 16) ==> (r matches Err(NavigatorError::InvalidName(m))
                && exists|d: Seq<char>|
                decimal_of(d, encode_utf8(name@).len()) && m@ == "Name must be 4–16 characters (got "@
                    + d + ")"@),
            4 <= encode_utf8(name@).len() <= 16 && !name_chars_ok(name@) ==> (r matches Err(
                NavigatorError::InvalidName(m),
            ) && m@ == "Name must only contain lowercased alphanumeric characters & underscores"@),
    {
        let len = name.as_bytes().len();
        assert(len as nat == encode_utf8(name@).len());
        if len < 4 || len > 16 {
            let mut chars: Vec<char> = Vec::new();
            push_chars(&mut chars, "Name must be 4–16 characters (got ");
            let digits = decimal(len);
            let ghost d = digits@;
            let mut i: usize = 0;
            let ghost start = chars@;
            while i < digits.len()
                invariant
                    i <= digits@.len(),
                    chars@ == start + digits@.take(i as int),
                decreases digits@.len() - i,
            {
                chars.push(digits[i]);
                assert(digits@.take(i + 1) =~= digits@.take(i as int).push(digits@[i as int]));
                i = i + 1;
            }
            assert(digits@.take(digits@.len() as int) =~= digits@);
            push_chars(&mut chars, ")");
            let m = string_from_chars(&chars);
            assert(m@ =~= "Name must be 4–16 characters (got "@ + d + ")"@);
            assert(decimal_of(d, encode_utf8(name@).len()));
            return Err(NavigatorError::InvalidName(m));
        }
        let n = name.unicode_len();
        let mut i: usize = 0;
        while i < n
            invariant
                n == name@.len(),
                i <= n,
                4 <= encode_utf8(name@).len() <= 16,
                forall|j: int| 0 <= j < i ==> is_name_char(#[trigger] name@[j]),
            decreases n - i,
        {
            let c = name.get_char(i);
            let code = c as u32;
            if !((97 <= code && code <= 122) || (48 <= code && code <= 57) || c == '_') {
                assert(!is_name_char(name@[i as int]));
                return Err(
                    NavigatorError::InvalidName(
                        "Name must only contain lowercased alphanumeric characters & underscores".to_owned(),
                    ),
                );
            }
            i = i + 1;
        }
        Ok(())
    }

    /// Whether `password` matches the stored hash; false for a hash that does not parse.
    pub fn verify_password(&self, password: &str) -> (r: bool)
        ensures
            r == argon2_accepts(self.spec_pass(), password@),
    {
        verify_hash(self.pass.as_str(), password)
    }

    /// Renames the navigator, if `new_name` is valid.
    pub fn update_name(&mut self, new_name: &str) -> (r: Result<(), NavigatorError>)
        ensures
            r is Ok <==> valid_name(new_name@),
            r is Ok ==> final(self).spec_name() == new_name@,
            r is Err ==> final(self).spec_name() == old(self).spec_name(),
            final(self).spec_pass() == old(self).spec_pass(),
            final(self).spec_nutty_id() == old(self).spec_nutty_id(),
    {
        match Navigator::validate_name(new_name) {
            Ok(()) => {
                self.name = new_name.to_owned();
                Ok(())
            },
            Err(e) => Err(e),
        }
    }

    /// Stores a fresh hash of `new_password`.
    pub fn update_password(&mut self, new_password: &str) -> (r: Result<(), NavigatorError>)
        ensures
            r is Err ==> final(self).spec_pass() == old(self).spec_pass(),
            final(self).spec_name() == old(self).spec_name(),
            final(self).spec_nutty_id() == old(self).spec_nutty_id(),
    {
        match hash_password(new_password) {
            Ok(h) => {
                self.pass = h;
                Ok(())
            },
            Err(e) => Err(NavigatorError::PasswordHashingError(e)),
        }
    }

    /// A builder with nothing set.
    pub fn builder() -> (r: NavigatorBuilder)
        ensures
            r.nutty_id is None && r.name is None && r.password is None && !r.password_is_hashed
                && r.created_at is None && r.updated_at is None,
    {
        NavigatorBuilder {
            nutty_id: None,
            name: None,
            password: None,
            password_is_hashed: false,
            created_at: None,
            updated_at: None,
        }
    }

    pub fn nutty_id(&self) -> (r: &NuttyId)
        ensures
            *r == self.spec_nutty_id(),
    {
        &self.nutty_id
    }

    pub fn name(&self) -> (r: &str)
        ensures
            r@ == self.spec_name(),
    {
        self.name.as_str()
    }

    pub fn pass(&self) -> (r: &str)
        ensures
            r@ == self.spec_pass(),
    {
        self.pass.as_str()
    }

    pub fn created_at(&self) -> (r: i64)
        ensures
            r == self.spec_created_at(),
    {
        self.created_at
    }

    pub fn updated_at(&self) -> (r: i64)
        ensures
            r == self.spec_updated_at(),
    {
        self.updated_at
    }
}

/// Collects the parts of a navigator: a new one from a name and a password, or
/// a stored one with its identifier, times and password hash.
#[derive(Debug, Clone)]
pub struct NavigatorBuilder {
    pub nutty_id: Option<NuttyId>,
    pub name: Option<String>,
    pub password: Option<String>,
    pub password_is_hashed: bool,
    pub created_at: Option<i64>,
    pub updated_at: Option<i64>,
}

impl NavigatorBuilder {
    pub fn nutty_id(self, nutty_id: NuttyId) -> (r: Self)
        ensures
            r == (NavigatorBuilder { nutty_id: Some(nutty_id), ..self }),
    {
        NavigatorBuilder { nutty_id: Some(nutty_id), ..self }
    }

    pub fn name(self, name: String) -> (r: Self)
        ensures
            r == (NavigatorBuilder { name: Some(name), ..self }),
    {
        NavigatorBuilder { name: Some(name), ..self }
    }

    /// Sets a plain password, to be hashed.
    pub fn password(self, password: String) -> (r: Self)
        ensures
            r == (NavigatorBuilder { password: Some(password), ..self }),
    {
        NavigatorBuilder { password: Some(password), ..self }
    }

    /// Sets a stored password hash.
    pub fn password_hash(self, hash: String) -> (r: Self)
        ensures
            r == (NavigatorBuilder { password: Some(hash), password_is_hashed: true, ..self }),
    {
        NavigatorBuilder { password: Some(hash), password_is_hashed: true, ..self }
    }

    pub fn created_at(self, created_at: i64) -> (r: Self)
        ensures
            r == (NavigatorBuilder { created_at: Some(created_at), ..self }),
    {
        NavigatorBuilder { created_at: Some(created_at), ..self }
    }

    pub fn updated_at(self, updated_at: i64) -> (r: Self)
        ensures
            r == (NavigatorBuilder { updated_at: Some(updated_at), ..self }),
    {
        NavigatorBuilder { updated_at: Some(updated_at), ..self }
    }

    /// The navigator. With identifier and both times, a stored navigator (its
    /// plain password hashed, a given hash kept); with none of them, a new one
    /// from a plain password; otherwise `MissingTimestampContext`.
    pub fn try_build(self) -> (r: Result<Navigator, NavigatorBuilderError>)
        ensures
            self.name is None ==> r == Err::<Navigator, _>(NavigatorBuilderError::MissingName),
            self.name is Some && self.password is None ==> r == Err::<Navigator, _>(
                NavigatorBuilderError::MissingPassword,
            ),
            self.name is Some && self.password is Some ==> match (
                self.nutty_id,
                self.created_at,
                self.updated_at,
            ) {
                (Some(id), Some(c), Some(u)) => if u < c {
                    r == Err::<Navigator, _>(NavigatorBuilderError::InvalidUpdatedAt)
                } else {
                    (r matches Ok(n) ==> n.spec_nutty_id() == id && n.spec_name()
                        == self.name->0@ && n.spec_created_at() == c && n.spec_updated_at() == u
                        && (self.password_is_hashed ==> n.spec_pass() == self.password->0@))
                        && (self.password_is_hashed ==> r is Ok)
                },
                (None, None, None) => if self.password_is_hashed {
                    r == Err::<Navigator, _>(NavigatorBuilderError::MissingTimestampContext)
                } else {
                    r matches Ok(n) ==> n.spec_name() == self.name->0@
                },
                _ => r == Err::<Navigator, _>(NavigatorBuilderError::MissingTimestampContext),
            },
    {
        let name = match self.name {
            Some(n) => n,
            None => {
                return Err(NavigatorBuilderError::MissingName);
            },
        };
        let password = match self.password {
            Some(p) => p,
            None => {
                return Err(NavigatorBuilderError::MissingPassword);
            },
        };
        match (self.nutty_id, self.created_at, self.updated_at) {
            (Some(nutty_id), Some(created_at), Some(updated_at)) => {
                if updated_at < created_at {
                    return Err(NavigatorBuilderError::InvalidUpdatedAt);
                }
                let pass = if self.password_is_hashed {
                    password
                } else {
                    match hash_password(password.as_str()) {
                        Ok(h) => h,
                        Err(e) => {
                            return Err(NavigatorBuilderError::PasswordHashingError(e));
                        },
                    }
                };
                Ok(Navigator { nutty_id, name, pass, created_at, updated_at })
            },
            (None, None, None) => {
                if self.password_is_hashed {
                    Err(NavigatorBuilderError::MissingTimestampContext)
                } else {
                    match Navigator::new(name, password.as_str()) {
                        Ok(n) => Ok(n),
                        Err(e) => Err(NavigatorBuilderError::CreateNavigator(e)),
                    }
                }
            },
            _ => Err(NavigatorBuilderError::MissingTimestampContext),
        }
    }
}

/// A request to register: the name and the password.
#[derive(Debug, Clone)]
pub struct RegisterRequest {
    pub name: String,
    pub password: String,
}

/// A request to log in: the name and the password.
#[derive(Debug, Clone)]
pub struct LoginRequest {
    pub name: String,
    pub password: String,
}

/// Errors of the navigator service.
#[derive(Debug, Clone, PartialEq, Eq)]
pub enum NavigatorServiceError {
    /// The navigator could not be made.
    Create(NavigatorError),
    /// Another navigator has the name.
    DuplicateName,
    /// No navigator has the name, or the password does not match.
    InvalidCredentials,
    /// The session could not be made.
    CreateSession(SessionError),
}

/// Milliseconds in a day, the lifetime of a login session.
pub const SESSION_LIFETIME: i64 = 86400000;

/// Some navigator of `navigators` is named `name`.
pub open spec fn name_taken(navigators: Seq<Navigator>, name: Seq<char>) -> bool {
    exists|i: int| 0 <= i < navigators.len() && (#[trigger] navigators[i]).spec_name() == name
}

/// Navigator names are unique.
pub open spec fn names_unique(navigators: Seq<Navigator>) -> bool {
    forall|a: int, b: int|
        0 <= a < b < navigators.len() ==> (#[trigger] navigators[a]).spec_name() != (
        #[trigger] navigators[b]).spec_name()
}

/// Accounts and their login sessions.
pub struct NavigatorService {
    navigators: Vec<Navigator>,
    sessions: Vec<Session>,
}

impl NavigatorService {
    pub closed spec fn navigators(&self) -> Seq<Navigator> {
        self.navigators@
    }

    pub closed spec fn sessions(&self) -> Seq<Session> {
        self.sessions@
    }

    /// Names are unique.
    pub open spec fn wf(&self) -> bool {
        names_unique(self.navigators())
    }

    /// No accounts and no sessions.
    pub fn new() -> (r: Self)
        ensures
            r.wf(),
            r.navigators().len() == 0,
            r.sessions().len() == 0,
    {
        NavigatorService { navigators: Vec::new(), sessions: Vec::new() }
    }

    /// Index of the navigator named `name`.
    fn find_by_name(&self, name: &str) -> (r: Option<usize>)
        ensures
            r is Some <==> name_taken(self.navigators(), name@),
            r matches Some(i) ==> i < self.navigators().len() && self.navigators()[i as int].spec_name()
                == name@,
    {
        let wanted = name.to_owned();
        let mut i: usize = 0;
        while i < self.navigators.len()
            invariant
                wanted@ == name@,
                i <= self.navigators@.len(),
                forall|k: int| 0 <= k < i ==> (#[trigger] self.navigators@[k]).spec_name() != name@,
            decreases self.navigators@.len() - i,
        {
            if self.navigators[i].name == wanted {
                return Some(i);
            }
            i = i + 1;
        }
        None
    }

    /// Registers a navigator named `name` with the password `pass`.
    pub fn register(&mut self, name: String, pass: String) -> (r: Result<
        Navigator,
        NavigatorServiceError,
    >)
        requires
            old(self).wf(),
        ensures
            final(self).wf(),
            final(self).sessions() == old(self).sessions(),
            !valid_name(name@) ==> r matches Err(
                NavigatorServiceError::Create(NavigatorError::InvalidName(_)),
            ),
            r matches Ok(n) ==> n.spec_name() == name@ && !name_taken(old(self).navigators(), name@)
                && final(self).navigators() == old(self).navigators().push(n),
            r is Err ==> final(self).navigators() == old(self).navigators(),
            valid_name(name@) && name_taken(old(self).navigators(), name@) ==> r is Err,
    {
        let navigator = match Navigator::new(name, pass.as_str()) {
            Ok(n) => n,
            Err(e) => {
                return Err(NavigatorServiceError::Create(e));
            },
        };
        if self.find_by_name(navigator.name.as_str()).is_some() {
            return Err(NavigatorServiceError::DuplicateName);
        }
        let ghost before = self.navigators@;
        self.navigators.push(navigator.clone());
        proof {
            assert forall|a: int, b: int|
                0 <= a < b < self.navigators@.len() implies (#[trigger] self.navigators@[a]).spec_name()
                != (#[trigger] self.navigators@[b]).spec_name() by {
                if b < before.len() {
                    assert(before[a].spec_name() != before[b].spec_name());
                } else {
                    assert(self.navigators@[a] == before[a]);
                }
            }
        }
        Ok(navigator)
    }

    /// Logs in the navigator named `name`: with a matching password, a new
    /// session of one day for the client `user_agent`.
    pub fn login(&mut self, name: &str, password: &str, user_agent: String) -> (r: Result<
        (Navigator, Session),
        NavigatorServiceError,
    >)
        requires
            old(self).wf(),
        ensures
            final(self).wf(),
            final(self).navigators() == old(self).navigators(),
            !name_taken(old(self).navigators(), name@) ==> r == Err::<(Navigator, Session), _>(
                NavigatorServiceError::InvalidCredentials,
            ),
            r matches Ok((n, s)) ==> old(self).navigators().contains(n) && n.spec_name() == name@
                && argon2_accepts(n.spec_pass(), password@) && s.spec_navigator_id()
                == n.spec_nutty_id() && s.spec_user_agent() == user_agent@
                && final(self).sessions() == old(self).sessions().push(s),
            forall|i: int|
                0 <= i < old(self).navigators().len() && (#[trigger] old(self).navigators()[i]).spec_name()
                    == name@ ==> (r is Ok <==> argon2_accepts(
                    old(self).navigators()[i].spec_pass(),
                    password@,
                )),
            r is Err ==> final(self).sessions() == old(self).sessions(),
    {
        let i = match self.find_by_name(name) {
            Some(i) => i,
            None => {
                return Err(NavigatorServiceError::InvalidCredentials);
            },
        };
        proof {
            assert forall|k: int|
                0 <= k < self.navigators().len() && (#[trigger] self.navigators()[k]).spec_name()
                    == name@ implies k == i as int by {
                if k < i as int {
                    assert(self.navigators@[k].spec_name() != self.navigators@[i as int].spec_name());
                } else if k > i as int {
                    assert(self.navigators@[i as int].spec_name() != self.navigators@[k].spec_name());
                }
            }
        }
        if !self.navigators[i].verify_password(password) {
            return Err(NavigatorServiceError::InvalidCredentials);
        }
        let navigator = self.navigators[i].clone();
        let session = match Session::new(navigator.nutty_id, user_agent, SESSION_LIFETIME) {
            Ok(s) => s,
            Err(e) => {
                return Err(NavigatorServiceError::CreateSession(e));
            },
        };
        self.sessions.push(session.clone());
        assert(self.navigators@[i as int] == navigator);
        Ok((navigator, session))
    }

    /// The navigator with identifier `id`, if any.
    pub fn get_navigator_by_id(&self, id: &NuttyId) -> (r: Option<Navigator>)
        ensures
            r matches Some(n) ==> n.spec_nutty_id() == *id && self.navigators().contains(n),
            r is None ==> forall|k: int|
                0 <= k < self.navigators().len() ==> (#[trigger] self.navigators()[k]).spec_nutty_id()
                    != *id,
    {
        let mut i: usize = 0;
        while i < self.navigators.len()
            invariant
                i <= self.navigators@.len(),
                forall|k: int| 0 <= k < i ==> (#[trigger] self.navigators@[k]).spec_nutty_id() != *id,
            decreases self.navigators@.len() - i,
        {
            if self.navigators[i].nutty_id == *id {
                let n = self.navigators[i].clone();
                assert(self.navigators@[i as int] == n);
                return Some(n);
            }
            i = i + 1;
        }
        None
    }

    /// The session with identifier `id`, if any.
    pub fn get_session_by_id(&self, id: &NuttyId) -> (r: Option<Session>)
        ensures
            r matches Some(s) ==> s.spec_nutty_id() == *id && self.sessions().contains(s),
            r is None ==> forall|k: int|
                0 <= k < self.sessions().len() ==> (#[trigger] self.sessions()[k]).spec_nutty_id()
                    != *id,
    {
        let mut i: usize = 0;
        while i < self.sessions.len()
            invariant
                i <= self.sessions@.len(),
                forall|k: int| 0 <= k < i ==> (#[trigger] self.sessions@[k]).spec_nutty_id() != *id,
            decreases self.sessions@.len() - i,
        {
            if *self.sessions[i].nutty_id() == *id {
                let s = self.sessions[i].clone();
                assert(self.sessions@[i as int] == s);
                return Some(s);
            }
            i = i + 1;
        }
        None
    }
}

} // verus!
