//! The envelope of API responses: one object, several, or a list of errors,
//! each error unwinding its chain of causes.
use vstd::prelude::*;

verus! {

/// The body of a response.
#[derive(Debug)]
pub enum Response<T> {
    /// A single resource object.
    Single { data: Option<T> },
    /// An array of resource objects.
    Multiple { data: Vec<T> },
    /// An array of errors.
    Error { errors: Vec<Error> },
}

impl<T> Response<T> {
    /// The object of a single-object response.
    pub fn extract_object(&self) -> (r: Option<&T>)
        ensures
            self matches Response::Single { data: Some(d) } ==> r == Some(d),
            !(self matches Response::Single { data: Some(_) }) ==> r is None,
    {
        match self {
            Response::Single { data } => match data {
                Some(d) => Some(d),
                None => None,
            },
            _ => None,
        }
    }

    /// The objects of the response: the single one if present, all of a
    /// multiple-object response, none of an error response.
    pub fn extract_objects(&self) -> (r: Vec<&T>)
        ensures
            self matches Response::Single { data: Some(d) } ==> r@ == seq![d],
            self matches Response::Single { data: None } ==> r@.len() == 0,
            self matches Response::Multiple { data } ==> r@.len() == data@.len() && forall|k: int|
                0 <= k < r@.len() ==> *r@[k] == data@[k],
            self is Error ==> r@.len() == 0,
    {
        match self {
            Response::Single { data } => match data {
                Some(d) => {
                    let mut v: Vec<&T> = Vec::new();
                    v.push(d);
                    v
                },
                None => Vec::new(),
            },
            Response::Multiple { data } => {
                let mut v: Vec<&T> = Vec::new();
                let mut i: usize = 0;
                while i < data.len()
                    invariant
                        i <= data@.len(),
                        v@.len() == i,
                        forall|k: int| 0 <= k < i ==> *v@[k] == data@[k],
                    decreases data@.len() - i,
                {
                    v.push(&data[i]);
                    i = i + 1;
                }
                v
            },
            Response::Error { .. } => Vec::new(),
        }
    }
}

/// Position of the first `(` or space of `s`, or its length.
pub open spec fn word_end(s: Seq<char>) -> int
    decreases s.len(),
{
    if s.len() == 0 {
        0
    } else if s[0] == '(' || s[0] == ' ' {
        0
    } else {
        1 + word_end(s.skip(1))
    }
}

/// The leading word of a debug rendering: the text before the first `(` or space.
pub open spec fn first_word(s: Seq<char>) -> Seq<char> {
    s.take(word_end(s))
}

/// An error object.
#[derive(Debug, Clone)]
pub struct Error {
    /// The name of the error's type or variant.
    pub code: Option<String>,
    /// The chain of causes, outermost first.
    pub trace: Vec<String>,
    /// The message of the outermost error.
    pub message: Option<String>,
    /// A short, human-readable summary of the problem.
    pub summary: Option<String>,
}

/// Relies on `Debug` through `format!`: the debug rendering of the error.
#[verifier::external_body]
fn rendering_of<E: std::fmt::Debug>(error: &E) -> (r: String) {
    format!("{error:?}")
}

/// Relies on `std::error::Error::source`, followed to the end of the chain: the
/// `Debug` rendering of each cause, nearest first.
#[verifier::external_body]
fn cause_renderings<E: std::error::Error + 'static>(error: &E) -> (r: Vec<String>) {
    std::iter::successors(error.source(), |e| e.source()).map(|e| format!("{e:?}")).collect()
}

/// Relies on `ToString::to_string` through `Display`: the message of the error.
#[verifier::external_body]
fn message_of<E: std::error::Error + 'static>(error: &E) -> (r: String) {
    error.to_string()
}

/// The leading word of `s`.
fn leading_word(s: &str) -> (r: String)
    ensures
        r@ == first_word(s@),
{
    let len = s.unicode_len();
    let mut e: usize = 0;
    let mut stop = false;
    while !stop && e < len
        invariant
            len == s@.len(),
            e <= len,
            forall|q: int| 0 <= q < e ==> s@[q] != '(' && s@[q] != ' ',
            stop ==> e < len && (s@[e as int] == '(' || s@[e as int] == ' '),
        decreases len - e + (if stop { 0int } else { 1int }),
    {
        let ch = s.get_char(e);
        if ch == '(' || ch == ' ' {
            stop = true;
        } else {
            e = e + 1;
        }
    }
    proof {
        lemma_word_end(s@, e as int);
    }
    let w = s.substring_char(0, e);
    assert(s@.subrange(0, e as int) =~= s@.take(e as int));
    w.to_owned()
}

impl Error {
    /// An error object from the parts of an error: the debug rendering of the
    /// error, those of its causes (nearest first) and its message. The code is
    /// the leading word of the rendering, the name of the error's type or
    /// variant; the trace starts with it and continues with the leading words
    /// of the causes.
    pub fn from_parts(rendering: &str, causes: &Vec<String>, message: String) -> (r: Self)
        ensures
            r.code matches Some(c) && c@ == first_word(rendering@),
            r.trace@.len() == causes@.len() + 1,
            r.trace@[0]@ == first_word(rendering@),
            forall|k: int| 0 <= k < causes@.len() ==> (#[trigger] r.trace@[k + 1])@ == first_word(causes@[k]@),
            r.message matches Some(m) && m@ == message@,
            r.summary is None,
    {
        let code = leading_word(rendering);
        let mut trace: Vec<String> = Vec::new();
        trace.push(code.clone());
        let mut k: usize = 0;
        while k < causes.len()
            invariant
                k <= causes@.len(),
                trace@.len() == k + 1,
                trace@[0]@ == first_word(rendering@),
                forall|j: int| 0 <= j < k ==> (#[trigger] trace@[j + 1])@ == first_word(causes@[j]@),
            decreases causes@.len() - k,
        {
            trace.push(leading_word(causes[k].as_str()));
            k = k + 1;
        }
        Error { code: Some(code), trace, message: Some(message), summary: None }
    }

    /// An error object from `error`: the name of its type or variant as the
    /// code, the chain of causes unwound from the outermost, and its message.
    pub fn from_error<E: std::error::Error + 'static>(error: &E) -> (r: Self)
        ensures
            r.code is Some,
            r.trace@.len() >= 1,
            r.code matches Some(c) && r.trace@[0]@ == c@,
            r.message is Some,
            r.summary is None,
    {
        let rendering = rendering_of(error);
        let causes = cause_renderings(error);
        let message = message_of(error);
        Self::from_parts(rendering.as_str(), &causes, message)
    }

    /// The same error with `summary` attached.
    pub fn with_summary(self, summary: &str) -> (r: Self)
        ensures
            r.code == self.code,
            r.trace == self.trace,
            r.message == self.message,
            r.summary matches Some(s) && s@ == summary@,
    {
        Error { summary: Some(summary.to_owned()), ..self }
    }
}

/// With no `(` or space before position `e`, and one at `e` or the text ending
/// there, the leading word ends at `e`.
proof fn lemma_word_end(s: Seq<char>, e: int)
    requires
        0 <= e <= s.len(),
        forall|q: int| 0 <= q < e ==> s[q] != '(' && s[q] != ' ',
        e < s.len() ==> s[e] == '(' || s[e] == ' ',
    ensures
        word_end(s) == e,
    decreases e,
{
    if e > 0 {
        let t = s.skip(1);
        assert forall|q: int| 0 <= q < e - 1 implies t[q] != '(' && t[q] != ' ' by {
            assert(t[q] == s[q + 1]);
        }
        if e < s.len() {
            assert(t[e - 1] == s[e]);
        }
        lemma_word_end(t, e - 1);
    }
}

} // verus!
