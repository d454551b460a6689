//! Login sessions: which navigator a session belongs to, the client it was
//! issued to, and until when it is valid. Times are milliseconds since the
//! Unix epoch.
use vstd::prelude::*;

use crate::nutty_id::NuttyId;
use crate::nutty_tag::trim;
use crate::nutty_tag::trimmed;
use crate::string_from_chars;

verus! {

/// The largest timestamp a 48-bit identifier can hold, plus one.
pub const TIMESTAMP_BOUND: i64 = 281474976710656;

/// Relies on `chrono::Local::now` and `DateTime::timestamp_millis`: the current
/// time; nothing is known of its value.
#[verifier::external_body]
pub(crate) fn now_millis() -> (r: i64) {
    chrono::Local::now().timestamp_millis()
}

/// `a + b`, held to the range of `i64`.
pub open spec fn clamped_sum(a: int, b: int) -> int {
    if a + b > i64::MAX {
        i64::MAX as int
    } else if a + b < i64::MIN {
        i64::MIN as int
    } else {
        a + b
    }
}

fn add_clamped(a: i64, b: i64) -> (r: i64)
    ensures
        r as int == clamped_sum(a as int, b as int),
{
    if b > 0 && a > i64::MAX - b {
        i64::MAX
    } else if b < 0 && a < i64::MIN - b {
        i64::MIN
    } else {
        a + b
    }
}

/// The pieces of `s` between `;` separators, as `str::split(';')` yields them.
pub open spec fn cookie_pieces(s: Seq<char>) -> Seq<Seq<char>>
    decreases s.len(),
{
    if s.len() == 0 {
        seq![Seq::empty()]
    } else {
        let r = cookie_pieces(s.drop_last());
        if s.last() == ';' {
            r.push(Seq::empty())
        } else {
            r.update(r.len() - 1, r.last().push(s.last()))
        }
    }
}

/// The name under which the session identifier travels, with its `=`.
pub open spec fn session_key() -> Seq<char> {
    seq!['s', 'e', 's', 's', 'i', 'o', 'n', '_', 'i', 'd', '=']
}

/// Whether `s` starts with `p`.
pub open spec fn has_prefix(s: Seq<char>, p: Seq<char>) -> bool {
    p.len() <= s.len() && s.take(p.len() as int) == p
}

/// The trimmed cookie pieces of all `headers`, in order.
pub open spec fn cookie_candidates(headers: Seq<Seq<char>>) -> Seq<Seq<char>>
    decreases headers.len(),
{
    if headers.len() == 0 {
        Seq::empty()
    } else {
        cookie_candidates(headers.drop_last()) + cookie_pieces(headers.last()).map_values(
            |p: Seq<char>| trimmed(p),
        )
    }
}

/// The value after `session_id=` of the first candidate that starts with it.
pub open spec fn first_session_value(candidates: Seq<Seq<char>>) -> Option<Seq<char>>
    decreases candidates.len(),
{
    if candidates.len() == 0 {
        None
    } else if has_prefix(candidates[0], session_key()) {
        Some(candidates[0].skip(session_key().len() as int))
    } else {
        first_session_value(candidates.skip(1))
    }
}

proof fn lemma_pieces_nonempty(s: Seq<char>)
    ensures
        cookie_pieces(s).len() >= 1,
    decreases s.len(),
{
    if s.len() > 0 {
        lemma_pieces_nonempty(s.drop_last());
    }
}

/// With no match among `a`, the first match of `a + b` is that of `b`.
proof fn lemma_first_value_skips(a: Seq<Seq<char>>, b: Seq<Seq<char>>)
    requires
        first_session_value(a) is None,
    ensures
        first_session_value(a + b) == first_session_value(b),
    decreases a.len(),
{
    if a.len() > 0 {
        assert((a + b).skip(1) =~= a.skip(1) + b);
        assert((a + b)[0] == a[0]);
        lemma_first_value_skips(a.skip(1), b);
    } else {
        assert(a + b =~= b);
    }
}

/// Whether `s` starts with `session_id=`.
fn starts_with_session_key(s: &str) -> (r: bool)
    ensures
        r == has_prefix(s@, session_key()),
{
    let key = vec!['s', 'e', 's', 's', 'i', 'o', 'n', '_', 'i', 'd', '='];
    assert(key@ =~= session_key());
    let n = s.unicode_len();
    if n < 11 {
        return false;
    }
    let mut i: usize = 0;
    while i < 11
        invariant
            n == s@.len(),
            n >= 11,
            i <= 11,
            key@ == session_key(),
            s@.take(i as int) == key@.take(i as int),
        decreases 11 - i,
    {
        if s.get_char(i) != key[i] {
            assert(s@.take(11)[i as int] != key@[i as int]);
            return false;
        }
        assert(s@.take(i + 1) =~= s@.take(i as int).push(s@[i as int]));
        assert(key@.take(i + 1) =~= key@.take(i as int).push(key@[i as int]));
        i = i + 1;
    }
    assert(key@.take(11) =~= key@);
    true
}

/// The session identifier text carried by the `Cookie` header values
/// `headers`: the value of the first `;`-separated piece, trimmed, that starts
/// with `session_id=`.
pub fn session_cookie(headers: &Vec<String>) -> (r: Option<String>)
    ensures
        r matches Some(v) ==> first_session_value(
            cookie_candidates(headers@.map_values(|h: String| h@)),
        ) == Some(v@),
        r is None ==> first_session_value(cookie_candidates(headers@.map_values(|h: String| h@)))
            is None,
{
    let ghost views = headers@.map_values(|h: String| h@);
    let mut k: usize = 0;
    assert(views.take(0) =~= Seq::<Seq<char>>::empty());
    while k < headers.len()
        invariant
            k <= headers@.len(),
            views == headers@.map_values(|h: String| h@),
            first_session_value(cookie_candidates(views.take(k as int))) is None,
        decreases headers@.len() - k,
    {
        let h = headers[k].as_str();
        let n = h.unicode_len();
        let ghost done = cookie_candidates(views.take(k as int));
        let mut cur: Vec<char> = Vec::new();
        let ghost mut finished: Seq<Seq<char>> = Seq::empty();
        let mut i: usize = 0;
        proof {
            assert(h@.take(0) =~= Seq::<char>::empty());
            assert(cookie_pieces(h@.take(0)) =~= finished.push(cur@));
        }
        while i < n
            invariant
                n == h@.len(),
                i <= n,
                h@ == views[k as int],
                k < headers@.len(),
                views == headers@.map_values(|h: String| h@),
                done == cookie_candidates(views.take(k as int)),
                first_session_value(done) is None,
                cookie_pieces(h@.take(i as int)) == finished.push(cur@),
                first_session_value(finished.map_values(|p: Seq<char>| trimmed(p))) is None,
            decreases n - i,
        {
            let c = h.get_char(i);
            proof {
                assert(h@.take(i + 1).drop_last() =~= h@.take(i as int));
                assert(h@.take(i + 1).last() == c);
            }
            if c == ';' {
                let piece = string_from_chars(&cur);
                let t = trim(piece.as_str());
                let ghost trimmed_done = finished.map_values(|p: Seq<char>| trimmed(p));
                if starts_with_session_key(t.as_str()) {
                    let v = t.as_str().substring_char(11, t.as_str().unicode_len());
                    proof {
                        assert(v@ =~= t@.skip(11));
                        lemma_candidates_split(views, k as int, i as int, finished, cur@);
                    }
                    return Some(v.to_owned());
                }
                proof {
                    let next = finished.push(cur@);
                    assert(next.map_values(|p: Seq<char>| trimmed(p)) =~= trimmed_done.push(t@));
                    assert(first_session_value(seq![t@]) is None) by {
                        assert(seq![t@].skip(1) =~= Seq::<Seq<char>>::empty());
                        assert(first_session_value(Seq::<Seq<char>>::empty()) is None);
                        assert(!has_prefix(t@, session_key()));
                    }
                    lemma_first_value_skips(trimmed_done, seq![t@]);
                    assert(trimmed_done + seq![t@] =~= trimmed_done.push(t@));
                    finished = next;
                }
                cur = Vec::new();
                proof {
                    assert(cookie_pieces(h@.take(i + 1)) =~= finished.push(cur@));
                }
            } else {
                let ghost before = cur@;
                cur.push(c);
                proof {
                    lemma_pieces_nonempty(h@.take(i as int));
                    assert(cookie_pieces(h@.take(i + 1)) =~= finished.push(cur@));
                }
            }
            i = i + 1;
        }
        let piece = string_from_chars(&cur);
        let t = trim(piece.as_str());
        let ghost trimmed_done = finished.map_values(|p: Seq<char>| trimmed(p));
        proof {
            assert(h@.take(n as int) =~= h@);
        }
        if starts_with_session_key(t.as_str()) {
            let v = t.as_str().substring_char(11, t.as_str().unicode_len());
            proof {
                assert(v@ =~= t@.skip(11));
                lemma_candidates_split(views, k as int, n as int, finished, cur@);
            }
            return Some(v.to_owned());
        }
        proof {
            let last = finished.push(cur@).map_values(|p: Seq<char>| trimmed(p));
            assert(last =~= trimmed_done.push(t@));
            assert(first_session_value(seq![t@]) is None) by {
                assert(seq![t@].skip(1) =~= Seq::<Seq<char>>::empty());
                        assert(first_session_value(Seq::<Seq<char>>::empty()) is None);
                        assert(!has_prefix(t@, session_key()));
            }
            lemma_first_value_skips(trimmed_done, seq![t@]);
            assert(trimmed_done + seq![t@] =~= last);
            assert(views.take(k + 1).drop_last() =~= views.take(k as int));
            assert(views.take(k + 1).last() == h@);
            lemma_first_value_skips(done, last);
        }
        k = k + 1;
    }
    assert(views.take(headers@.len() as int) =~= views);
    None
}

/// The session identifier named by the `Cookie` header values `headers`:
/// `MissingCookie` without a `session_id` piece, `InvalidCookie` when its value
/// is not the text form of an identifier.
pub fn session_id_from_cookies(headers: &Vec<String>) -> (r: Result<NuttyId, SessionError>)
    ensures
        first_session_value(cookie_candidates(headers@.map_values(|h: String| h@))) is None ==> r
            == Err::<NuttyId, _>(SessionError::MissingCookie),
        first_session_value(cookie_candidates(headers@.map_values(|h: String| h@))) is Some ==> (
        r is Ok || r == Err::<NuttyId, _>(SessionError::InvalidCookie)),
{
    match session_cookie(headers) {
        None => Err(SessionError::MissingCookie),
        Some(value) => match NuttyId::from_text(value.as_str()) {
            Ok(id) => Ok(id),
            Err(_) => Err(SessionError::InvalidCookie),
        },
    }
}

/// Where a candidate of header `k` matches after the pieces `finished` of its
/// first `i` characters (the current piece being `cur`), it is the first match
/// over all headers.
proof fn lemma_candidates_split(
    views: Seq<Seq<char>>,
    k: int,
    i: int,
    finished: Seq<Seq<char>>,
    cur: Seq<char>,
)
    requires
        0 <= k < views.len(),
        0 <= i <= views[k].len(),
        cookie_pieces(views[k].take(i)) == finished.push(cur),
        first_session_value(cookie_candidates(views.take(k))) is None,
        first_session_value(finished.map_values(|p: Seq<char>| trimmed(p))) is None,
        has_prefix(trimmed(cur), session_key()),
        i == views[k].len() || views[k][i] == ';',
    ensures
        first_session_value(cookie_candidates(views)) == Some(trimmed(cur).skip(
            session_key().len() as int,
        )),
{
    let h = views[k];
    let tail = if i == h.len() {
        Seq::<Seq<char>>::empty()
    } else {
        cookie_pieces(h.skip(i + 1))
    };
    if i == h.len() {
        assert(h.take(i) =~= h);
    } else {
        assert(h =~= h.take(i) + seq![';'] + h.skip(i + 1));
        lemma_pieces_split(h.take(i), h.skip(i + 1));
    }
    assert(cookie_pieces(h) =~= finished.push(cur) + tail);
    let f = |p: Seq<char>| trimmed(p);
    let tf = finished.map_values(f);
    let mapped = cookie_pieces(h).map_values(f);
    assert(mapped =~= tf + (seq![trimmed(cur)] + tail.map_values(f)));
    lemma_candidates_concat(views.take(k), views.skip(k));
    assert(views =~= views.take(k) + views.skip(k));
    assert(views.skip(k) =~= seq![h] + views.skip(k + 1));
    lemma_candidates_concat(seq![h], views.skip(k + 1));
    assert(seq![h].drop_last() =~= Seq::<Seq<char>>::empty());
    assert(cookie_candidates(Seq::<Seq<char>>::empty()) =~= Seq::<Seq<char>>::empty());
    assert(Seq::<Seq<char>>::empty() + mapped =~= mapped);
    assert(cookie_candidates(seq![h]) =~= mapped);
    let y = seq![trimmed(cur)] + tail.map_values(f);
    let rest = cookie_candidates(views.skip(k + 1));
    assert(cookie_candidates(views) =~= cookie_candidates(views.take(k)) + (tf + (y + rest)));
    lemma_first_value_skips(cookie_candidates(views.take(k)), tf + (y + rest));
    lemma_first_value_skips(tf, y + rest);
    assert((y + rest)[0] == trimmed(cur));
}

/// Splitting at a `;` splits the pieces.
proof fn lemma_pieces_split(x: Seq<char>, y: Seq<char>)
    ensures
        cookie_pieces(x + seq![';'] + y) == cookie_pieces(x) + cookie_pieces(y),
    decreases y.len(),
{
    if y.len() == 0 {
        assert(x + seq![';'] + y =~= x.push(';'));
        assert((x.push(';')).drop_last() =~= x);
        assert(cookie_pieces(y) =~= seq![Seq::<char>::empty()]);
    } else {
        let y1 = y.drop_last();
        lemma_pieces_split(x, y1);
        lemma_pieces_nonempty(y1);
        lemma_pieces_nonempty(x);
        assert((x + seq![';'] + y).drop_last() =~= x + seq![';'] + y1);
        let a = cookie_pieces(x);
        let b = cookie_pieces(y1);
        if y.last() == ';' {
            assert((a + b).push(Seq::<char>::empty()) =~= a + b.push(Seq::<char>::empty()));
        } else {
            assert((a + b).update((a + b).len() - 1, (a + b).last().push(y.last())) =~= a
                + b.update(b.len() - 1, b.last().push(y.last())));
        }
    }
}

/// The candidates of two lists of headers are those of each, in order.
proof fn lemma_candidates_concat(a: Seq<Seq<char>>, b: Seq<Seq<char>>)
    ensures
        cookie_candidates(a + b) == cookie_candidates(a) + cookie_candidates(b),
    decreases b.len(),
{
    if b.len() == 0 {
        assert(a + b =~= a);
        assert(cookie_candidates(a) + cookie_candidates(b) =~= cookie_candidates(a));
    } else {
        lemma_candidates_concat(a, b.drop_last());
        assert((a + b).drop_last() =~= a + b.drop_last());
        assert((a + b).last() == b.last());
        let f = |p: Seq<char>| trimmed(p);
        assert(cookie_candidates(a) + cookie_candidates(b.drop_last()) + cookie_pieces(
            b.last(),
        ).map_values(f) =~= cookie_candidates(a) + (cookie_candidates(b.drop_last())
            + cookie_pieces(b.last()).map_values(f)));
    }
}

/// Errors of sessions.
#[derive(Debug, Clone, PartialEq, Eq)]
pub enum SessionError {
    InvalidTimestamp { timestamp: i64 },
    SessionNotFound,
    SessionExpired,
    MissingCookie,
    InvalidCookie,
    UserAgentMismatch,
}

/// Errors of session construction.
#[derive(Debug, Clone, PartialEq, Eq)]
pub enum SessionBuilderError {
    MissingNuttyId,
    MissingNavigatorId,
    MissingUserAgent,
    MissingExpiresAt,
    MissingCreatedAt,
    MissingUpdatedAt,
    /// The update time lies before the creation time.
    InvalidUpdatedAt,
}

/// A login session.
#[derive(Debug)]
pub struct Session {
    nutty_id: NuttyId,
    navigator_id: NuttyId,
    user_agent: String,
    expires_at: i64,
    created_at: i64,
    updated_at: i64,
}

impl Clone for Session {
    fn clone(&self) -> (r: Self)
        ensures
            r == *self,
    {
        Session {
            nutty_id: self.nutty_id,
            navigator_id: self.navigator_id,
            user_agent: self.user_agent.clone(),
            expires_at: self.expires_at,
            created_at: self.created_at,
            updated_at: self.updated_at,
        }
    }
}

impl Session {
    pub closed spec fn spec_nutty_id(&self) -> NuttyId {
        self.nutty_id
    }

    pub closed spec fn spec_navigator_id(&self) -> NuttyId {
        self.navigator_id
    }

    pub closed spec fn spec_user_agent(&self) -> Seq<char> {
        self.user_agent@
    }

    pub closed spec fn spec_expires_at(&self) -> i64 {
        self.expires_at
    }

    pub closed spec fn spec_created_at(&self) -> i64 {
        self.created_at
    }

    pub closed spec fn spec_updated_at(&self) -> i64 {
        self.updated_at
    }

    /// A fresh session of `navigator_id` for the client `user_agent`, created
    /// at the time its identifier records and valid for `duration` milliseconds.
    pub fn new(navigator_id: NuttyId, user_agent: String, duration: i64) -> (r: Result<
        Self,
        SessionError,
    >)
        requires
            duration <= i64::MAX - TIMESTAMP_BOUND,
        ensures
            r matches Ok(s) && s.spec_navigator_id() == navigator_id && s.spec_user_agent()
                == user_agent@ && s.spec_created_at() == s.spec_updated_at() && s.spec_expires_at()
                == s.spec_created_at() + duration && s.spec_created_at() == s.spec_nutty_id().uuid
                / crate::nutty_id::TIMESTAMP_DIVISOR,
    {
        let nutty_id = NuttyId::now();
        let timestamp = nutty_id.timestamp();
        assert(timestamp < TIMESTAMP_BOUND) by {
            assert(nutty_id.uuid / crate::nutty_id::TIMESTAMP_DIVISOR < TIMESTAMP_BOUND as int)
                by (nonlinear_arith)
                requires
                    nutty_id.uuid <= u128::MAX,
            ;
        }
        let now = timestamp as i64;
        Ok(
            Session {
                nutty_id,
                navigator_id,
                user_agent,
                expires_at: now + duration,
                created_at: now,
                updated_at: now,
            },
        )
    }

    /// Whether the session has expired at time `now`.
    pub fn is_expired_at(&self, now: i64) -> (r: bool)
        ensures
            r == (now > self.spec_expires_at()),
    {
        now > self.expires_at
    }

    /// Whether the session has expired by now.
    pub fn is_expired(&self) -> (r: bool) {
        self.is_expired_at(now_millis())
    }

    /// Renews the session at time `now` for `duration` milliseconds (held to the
    /// range of the time line).
    pub fn extend_at(&mut self, now: i64, duration: i64)
        ensures
            final(self).spec_expires_at() as int == clamped_sum(now as int, duration as int),
            final(self).spec_updated_at() == now,
            final(self).spec_created_at() == old(self).spec_created_at(),
            final(self).spec_nutty_id() == old(self).spec_nutty_id(),
            final(self).spec_navigator_id() == old(self).spec_navigator_id(),
            final(self).spec_user_agent() == old(self).spec_user_agent(),
    {
        self.expires_at = add_clamped(now, duration);
        self.updated_at = now;
    }

    /// Renews the session from now for `duration` milliseconds.
    pub fn extend(&mut self, duration: i64)
        ensures
            final(self).spec_expires_at() as int == clamped_sum(
                final(self).spec_updated_at() as int,
                duration as int,
            ),
            final(self).spec_created_at() == old(self).spec_created_at(),
            final(self).spec_nutty_id() == old(self).spec_nutty_id(),
            final(self).spec_navigator_id() == old(self).spec_navigator_id(),
    {
        let now = now_millis();
        self.extend_at(now, duration);
    }

    /// Admits a request at time `now` from the client `user_agent`: refused
    /// once the session has expired, then when the client differs from the one
    /// the session was issued to.
    pub fn check_request(&self, user_agent: &str, now: i64) -> (r: Result<(), SessionError>)
        ensures
            now > self.spec_expires_at() ==> r == Err::<(), _>(SessionError::SessionExpired),
            now <= self.spec_expires_at() && user_agent@ != self.spec_user_agent() ==> r == Err::<
                (),
                _,
            >(SessionError::UserAgentMismatch),
            now <= self.spec_expires_at() && user_agent@ == self.spec_user_agent() ==> r is Ok,
    {
        if self.is_expired_at(now) {
            return Err(SessionError::SessionExpired);
        }
        let given = user_agent.to_owned();
        if given != self.user_agent {
            return Err(SessionError::UserAgentMismatch);
        }
        Ok(())
    }

    /// A builder with nothing set.
    pub fn builder() -> (r: SessionBuilder)
        ensures
            r.nutty_id is None && r.navigator_id is None && r.user_agent is None && r.expires_at is None
                && r.created_at is None && r.updated_at is None,
    {
        SessionBuilder {
            nutty_id: None,
            navigator_id: None,
            user_agent: None,
            expires_at: None,
            created_at: None,
            updated_at: None,
        }
    }

    pub fn nutty_id(&self) -> (r: &NuttyId)
        ensures
            *r == self.spec_nutty_id(),
    {
        &self.nutty_id
    }

    pub fn navigator_id(&self) -> (r: &NuttyId)
        ensures
            *r == self.spec_navigator_id(),
    {
        &self.navigator_id
    }

    pub fn user_agent(&self) -> (r: &str)
        ensures
            r@ == self.spec_user_agent(),
    {
        self.user_agent.as_str()
    }

    pub fn expires_at(&self) -> (r: i64)
        ensures
            r == self.spec_expires_at(),
    {
        self.expires_at
    }

    pub fn created_at(&self) -> (r: i64)
        ensures
            r == self.spec_created_at(),
    {
        self.created_at
    }

    pub fn updated_at(&self) -> (r: i64)
        ensures
            r == self.spec_updated_at(),
    {
        self.updated_at
    }
}

/// Collects the parts of a stored session; all are required.
#[derive(Debug, Clone)]
pub struct SessionBuilder {
    pub nutty_id: Option<NuttyId>,
    pub navigator_id: Option<NuttyId>,
    pub user_agent: Option<String>,
    pub expires_at: Option<i64>,
    pub created_at: Option<i64>,
    pub updated_at: Option<i64>,
}

impl SessionBuilder {
    pub fn nutty_id(self, nutty_id: NuttyId) -> (r: Self)
        ensures
            r == (SessionBuilder { nutty_id: Some(nutty_id), ..self }),
    {
        SessionBuilder { nutty_id: Some(nutty_id), ..self }
    }

    pub fn navigator_id(self, navigator_id: NuttyId) -> (r: Self)
        ensures
            r == (SessionBuilder { navigator_id: Some(navigator_id), ..self }),
    {
        SessionBuilder { navigator_id: Some(navigator_id), ..self }
    }

    pub fn user_agent(self, user_agent: String) -> (r: Self)
        ensures
            r == (SessionBuilder { user_agent: Some(user_agent), ..self }),
    {
        SessionBuilder { user_agent: Some(user_agent), ..self }
    }

    pub fn expires_at(self, expires_at: i64) -> (r: Self)
        ensures
            r == (SessionBuilder { expires_at: Some(expires_at), ..self }),
    {
        SessionBuilder { expires_at: Some(expires_at), ..self }
    }

    pub fn created_at(self, created_at: i64) -> (r: Self)
        ensures
            r == (SessionBuilder { created_at: Some(created_at), ..self }),
    {
        SessionBuilder { created_at: Some(created_at), ..self }
    }

    pub fn updated_at(self, updated_at: i64) -> (r: Self)
        ensures
            r == (SessionBuilder { updated_at: Some(updated_at), ..self }),
    {
        SessionBuilder { updated_at: Some(updated_at), ..self }
    }

    /// The session; the first missing part, in field order, is reported, and
    /// an update before the creation is refused.
    pub fn try_build(self) -> (r: Result<Session, SessionBuilderError>)
        ensures
            self.nutty_id is None ==> r == Err::<Session, _>(SessionBuilderError::MissingNuttyId),
            self.nutty_id is Some && self.navigator_id is None ==> r == Err::<Session, _>(
                SessionBuilderError::MissingNavigatorId,
            ),
            self.nutty_id is Some && self.navigator_id is Some && self.user_agent is None ==> r
                == Err::<Session, _>(SessionBuilderError::MissingUserAgent),
            self.nutty_id is Some && self.navigator_id is Some && self.user_agent is Some
                && self.expires_at is None ==> r == Err::<Session, _>(
                SessionBuilderError::MissingExpiresAt,
            ),
            self.nutty_id is Some && self.navigator_id is Some && self.user_agent is Some
                && self.expires_at is Some && self.created_at is None ==> r == Err::<Session, _>(
                SessionBuilderError::MissingCreatedAt,
            ),
            self.nutty_id is Some && self.navigator_id is Some && self.user_agent is Some
                && self.expires_at is Some && self.created_at is Some && self.updated_at is None
                ==> r == Err::<Session, _>(SessionBuilderError::MissingUpdatedAt),
            r matches Ok(s) ==> self.updated_at == Some(s.spec_updated_at()) && self.created_at
                == Some(s.spec_created_at()) && s.spec_created_at() <= s.spec_updated_at()
                && self.expires_at == Some(s.spec_expires_at()) && self.nutty_id == Some(
                s.spec_nutty_id(),
            ) && self.navigator_id == Some(s.spec_navigator_id()),
            self.nutty_id is Some && self.navigator_id is Some && self.user_agent is Some
                && self.expires_at is Some && self.created_at is Some && self.updated_at is Some
                ==> (r is Ok <==> self.created_at->0 <= self.updated_at->0),
    {
        let nutty_id = match self.nutty_id {
            Some(v) => v,
            None => {
                return Err(SessionBuilderError::MissingNuttyId);
            },
        };
        let navigator_id = match self.navigator_id {
            Some(v) => v,
            None => {
                return Err(SessionBuilderError::MissingNavigatorId);
            },
        };
        let user_agent = match self.user_agent {
            Some(v) => v,
            None => {
                return Err(SessionBuilderError::MissingUserAgent);
            },
        };
        let expires_at = match self.expires_at {
            Some(v) => v,
            None => {
                return Err(SessionBuilderError::MissingExpiresAt);
            },
        };
        let created_at = match self.created_at {
            Some(v) => v,
            None => {
                return Err(SessionBuilderError::MissingCreatedAt);
            },
        };
        let updated_at = match self.updated_at {
            Some(v) => v,
            None => {
                return Err(SessionBuilderError::MissingUpdatedAt);
            },
        };
        if updated_at < created_at {
            return Err(SessionBuilderError::InvalidUpdatedAt);
        }
        Ok(Session { nutty_id, navigator_id, user_agent, expires_at, created_at, updated_at })
    }
}

} // verus!
