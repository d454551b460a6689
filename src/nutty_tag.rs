//! Wikilink-style tags that embed a short identifier in block text:
//! `[[abcdefg]]` or `[[abcdefg|Display Text]]`.
use vstd::prelude::*;

use crate::nutty_id::is_short_id;
use crate::nutty_id::DissociatedNuttyId;
use crate::nutty_id::NuttyIdError;
use crate::push_chars;
use crate::string_from_chars;

verus! {

/// Whether `c` has the Unicode `White_Space` property (25 code points).
pub open spec fn is_white_space(c: char) -> bool {
    let x = c as int;
    (9 <= x <= 13) || x == 32 || x == 133 || x == 160 || x == 5760 || (8192 <= x <= 8202) || x
        == 8232 || x == 8233 || x == 8239 || x == 8287 || x == 12288
}

/// `s` without its leading white space.
pub open spec fn trim_start(s: Seq<char>) -> Seq<char>
    decreases s.len(),
{
    if s.len() > 0 && is_white_space(s[0]) {
        trim_start(s.skip(1))
    } else {
        s
    }
}

/// `s` without its trailing white space.
pub open spec fn trim_end(s: Seq<char>) -> Seq<char>
    decreases s.len(),
{
    if s.len() > 0 && is_white_space(s.last()) {
        trim_end(s.drop_last())
    } else {
        s
    }
}

/// `s` without leading and trailing white space.
pub open spec fn trimmed(s: Seq<char>) -> Seq<char> {
    trim_end(trim_start(s))
}

/// The texts that the tag pattern `pattern` matches in `text`, in order.
pub uninterp spec fn pattern_matches(pattern: Seq<char>, text: Seq<char>) -> Seq<Seq<char>>;

/// Relies on `str::trim`: the text without leading and trailing characters of
/// the Unicode `White_Space` property.
#[verifier::external_body]
pub(crate) fn trim(s: &str) -> (r: String)
    ensures
        r@ == trimmed(s@),
{
    s.trim().to_string()
}

/// Relies on `regex::Regex::new` and `regex::Regex::find_iter`: the texts of the
/// successive non-overlapping matches of `pattern` in `text`, or `None` when the
/// pattern does not compile. The tag pattern compiles: its `]` right after
/// `[^` is taken as a literal, and it is far below the size limit.
#[verifier::external_body]
fn find_matches(pattern: &str, text: &str) -> (r: Option<Vec<String>>)
    ensures
        r matches Some(v) ==> v@.map_values(|m: String| m@) == pattern_matches(pattern@, text@),
        pattern@ == tag_pattern() ==> r is Some,
{
    regex::Regex::new(pattern).ok().map(|re| re.find_iter(text).map(|m| m.as_str().to_string()).collect())
}

/// Errors of tag parsing.
#[derive(Debug, Clone, PartialEq, Eq)]
pub enum NuttyTagError {
    /// The text is not enclosed in `[[` and `]]`.
    MissingBrackets(String),
    /// The text holds more than one `|`.
    InvalidTag(String),
    /// The identifier part is not a short identifier.
    InvalidNuttyId(NuttyIdError),
}

/// A tag: a short identifier and optional text to show in its place.
#[derive(Debug, Clone)]
pub struct NuttyTag {
    nutty_id: DissociatedNuttyId,
    display_text: Option<String>,
}

/// Whether `v` is enclosed in `[[` and `]]`.
pub open spec fn has_brackets(v: Seq<char>) -> bool {
    &&& v.len() >= 4
    &&& v[0] == '[' && v[1] == '['
    &&& v[v.len() - 2] == ']' && v[v.len() - 1] == ']'
}

/// The text between the brackets.
pub open spec fn tag_body(v: Seq<char>) -> Seq<char> {
    v.subrange(2, v.len() - 2)
}

/// Number of `|` in `s`.
pub open spec fn pipe_count(s: Seq<char>) -> nat {
    s.filter(|c: char| c == '|').len()
}

/// Position of the first `|` in `s`, or its length.
pub open spec fn first_pipe(s: Seq<char>) -> int
    decreases s.len(),
{
    if s.len() == 0 {
        0
    } else if s[0] == '|' {
        0
    } else {
        1 + first_pipe(s.skip(1))
    }
}

/// The identifier text and the display text that a well-bracketed tag `v` with
/// at most one `|` splits into, both trimmed.
pub open spec fn tag_parts(v: Seq<char>) -> (Seq<char>, Option<Seq<char>>) {
    let body = tag_body(v);
    if pipe_count(body) == 0 {
        (trimmed(body), None)
    } else {
        let p = first_pipe(body);
        (trimmed(body.take(p)), Some(trimmed(body.skip(p + 1))))
    }
}

/// Whether `v` parses as a tag.
pub open spec fn parses(v: Seq<char>) -> bool {
    has_brackets(v) && pipe_count(tag_body(v)) <= 1 && is_short_id(tag_parts(v).0)
}

/// The matched texts that parse as tags, in order, with their parts.
pub open spec fn parsed_tags(texts: Seq<Seq<char>>) -> Seq<(Seq<char>, Option<Seq<char>>)>
    decreases texts.len(),
{
    if texts.len() == 0 {
        Seq::empty()
    } else {
        let rest = parsed_tags(texts.drop_last());
        if parses(texts.last()) {
            rest.push(tag_parts(texts.last()))
        } else {
            rest
        }
    }
}

/// The tag pattern: `[[`, then one or more characters other than `]`, then `]]`.
pub open spec fn tag_pattern() -> Seq<char> {
    seq!['\\', '[', '\\', '[', '(', '[', '^', ']', ']', '+', ')', '\\', ']', '\\', ']']
}

/// Counts the `|` of `s` (up to two) and finds the first.
fn scan_pipes(s: &str) -> (r: (usize, usize))
    ensures
        pipe_count(s@) <= 2 ==> r.0 as int == pipe_count(s@),
        pipe_count(s@) > 2 ==> r.0 == 2,
        pipe_count(s@) >= 1 ==> r.1 as int == first_pipe(s@) && 0 <= r.1 < s@.len(),
{
    let n = s.unicode_len();
    let mut count: usize = 0;
    let mut first: usize = n;
    let mut i: usize = 0;
    let ghost pred = |c: char| c == '|';
    proof {
        assert(s@.take(0).filter(pred) =~= Seq::<char>::empty()) by {
            reveal(Seq::filter);
        }
    }
    while i < n
        invariant
            n == s@.len(),
            i <= n,
            pred == (|c: char| c == '|'),
            s@.take(i as int).filter(pred).len() <= 2 ==> count as int == s@.take(
                i as int,
            ).filter(pred).len(),
            s@.take(i as int).filter(pred).len() > 2 ==> count == 2,
            s@.take(i as int).filter(pred).len() == 0 ==> forall|k: int| 0 <= k < i ==> s@[k] != '|',
            s@.take(i as int).filter(pred).len() >= 1 ==> first < i && first_pipe(s@) == first as int,
        decreases n - i,
    {
        let c = s.get_char(i);
        proof {
            assert(s@.take(i + 1).drop_last() =~= s@.take(i as int));
            reveal(Seq::filter);
        }
        if c == '|' {
            if count == 0 {
                first = i;
                proof {
                    lemma_first_pipe(s@, i as int);
                }
            }
            if count < 2 {
                count = count + 1;
            }
        }
        i = i + 1;
    }
    assert(s@.take(n as int) =~= s@);
    (count, first)
}

/// With no `|` before position `i` and one at `i`, the first `|` is at `i`.
proof fn lemma_first_pipe(s: Seq<char>, i: int)
    requires
        0 <= i < s.len(),
        s[i] == '|',
        forall|k: int| 0 <= k < i ==> s[k] != '|',
    ensures
        first_pipe(s) == i,
    decreases i,
{
    if i > 0 {
        let t = s.skip(1);
        assert forall|k: int| 0 <= k < i - 1 implies t[k] != '|' by {
            assert(t[k] == s[k + 1]);
        }
        assert(t[i - 1] == s[i]);
        lemma_first_pipe(t, i - 1);
    }
}

impl NuttyTag {
    /// The short identifier of the tag.
    pub closed spec fn spec_nid(&self) -> Seq<char> {
        self.nutty_id@
    }

    /// The display text of the tag, if any.
    pub closed spec fn spec_display(&self) -> Option<Seq<char>> {
        match &self.display_text {
            Some(t) => Some(t@),
            None => None,
        }
    }

    /// A tag of `nutty_id`, shown as `display_text` if given.
    pub fn new(nutty_id: DissociatedNuttyId, display_text: Option<String>) -> (r: Self)
        ensures
            r.spec_nid() == nutty_id@,
            r.spec_display() == match display_text {
                Some(t) => Some(t@),
                None => None::<Seq<char>>,
            },
    {
        NuttyTag { nutty_id, display_text }
    }

    /// Parses `[[abcdefg]]` or `[[abcdefg|Display Text]]`; both parts are trimmed.
    pub fn parse(value: &str) -> (r: Result<Self, NuttyTagError>)
        ensures
            r is Ok <==> parses(value@),
            r matches Ok(t) ==> t.spec_nid() == tag_parts(value@).0 && t.spec_display()
                == tag_parts(value@).1,
            !has_brackets(value@) ==> (r matches Err(NuttyTagError::MissingBrackets(s)) && s@
                == value@),
            has_brackets(value@) && pipe_count(tag_body(value@)) >= 2 ==> (r matches Err(
                NuttyTagError::InvalidTag(s),
            ) && s@ == value@),
            has_brackets(value@) && pipe_count(tag_body(value@)) <= 1 && !is_short_id(
                tag_parts(value@).0,
            ) ==> (r matches Err(NuttyTagError::InvalidNuttyId(NuttyIdError::ValidationError(s)))
                && s@ == tag_parts(value@).0),
    {
        let n = value.unicode_len();
        if n < 4 || value.get_char(0) != '[' || value.get_char(1) != '[' || value.get_char(n - 2)
            != ']' || value.get_char(n - 1) != ']' {
            return Err(NuttyTagError::MissingBrackets(value.to_owned()));
        }
        let body = value.substring_char(2, n - 2);
        let (count, first) = scan_pipes(body);
        if count >= 2 {
            return Err(NuttyTagError::InvalidTag(value.to_owned()));
        }
        if count == 0 {
            let id = trim(body);
            match DissociatedNuttyId::new(id.as_str()) {
                Ok(nid) => Ok(NuttyTag { nutty_id: nid, display_text: None }),
                Err(e) => Err(NuttyTagError::InvalidNuttyId(e)),
            }
        } else {
            let len = body.unicode_len();
            let id = trim(body.substring_char(0, first));
            let display = trim(body.substring_char(first + 1, len));
            proof {
                assert(body@.subrange(0, first as int) =~= body@.take(first as int));
                assert(body@.subrange(first + 1, len as int) =~= body@.skip(first + 1));
            }
            match DissociatedNuttyId::new(id.as_str()) {
                Ok(nid) => Ok(NuttyTag { nutty_id: nid, display_text: Some(display) }),
                Err(e) => Err(NuttyTagError::InvalidNuttyId(e)),
            }
        }
    }

    /// Same as [`NuttyTag::parse`].
    pub fn try_from(value: &str) -> (r: Result<Self, NuttyTagError>)
        ensures
            r is Ok <==> parses(value@),
            r matches Ok(t) ==> t.spec_nid() == tag_parts(value@).0 && t.spec_display()
                == tag_parts(value@).1,
    {
        Self::parse(value)
    }

    /// The tags among `texts` (in order), leaving out those that do not parse.
    pub fn parse_matches(texts: &Vec<String>) -> (r: Vec<Self>)
        ensures
            r@.map_values(|t: NuttyTag| (t.spec_nid(), t.spec_display())) == parsed_tags(
                texts@.map_values(|s: String| s@),
            ),
    {
        let ghost views = texts@.map_values(|s: String| s@);
        let mut out: Vec<NuttyTag> = Vec::new();
        let mut i: usize = 0;
        while i < texts.len()
            invariant
                i <= texts@.len(),
                views == texts@.map_values(|s: String| s@),
                out@.map_values(|t: NuttyTag| (t.spec_nid(), t.spec_display())) == parsed_tags(
                    views.take(i as int),
                ),
            decreases texts@.len() - i,
        {
            let ghost before = out@;
            let parsed = Self::parse(texts[i].as_str());
            proof {
                assert(views.take(i + 1).drop_last() =~= views.take(i as int));
                assert(views.take(i + 1).last() == texts@[i as int]@);
            }
            match parsed {
                Ok(tag) => {
                    out.push(tag);
                    assert(out@.map_values(|t: NuttyTag| (t.spec_nid(), t.spec_display()))
                        =~= before.map_values(|t: NuttyTag| (t.spec_nid(), t.spec_display())).push(
                        (out@.last().spec_nid(), out@.last().spec_display()),
                    ));
                },
                Err(_) => {},
            }
            i = i + 1;
        }
        assert(views.take(texts@.len() as int) =~= views);
        out
    }

    /// The tags in `value`: each `[[...]]` (no `]` inside) that parses, in order.
    pub fn parse_all(value: &str) -> (r: Vec<Self>)
        ensures
            r@.map_values(|t: NuttyTag| (t.spec_nid(), t.spec_display())) == parsed_tags(
                pattern_matches(tag_pattern(), value@),
            ),
    {
        let pattern = string_from_chars(
            &vec!['\\', '[', '\\', '[', '(', '[', '^', ']', ']', '+', ')', '\\', ']', '\\', ']'],
        );
        proof {
            assert(pattern@ =~= tag_pattern());
        }
        match find_matches(pattern.as_str(), value) {
            Some(texts) => Self::parse_matches(&texts),
            None => Vec::new(),
        }
    }

    /// The short identifier of the tag.
    pub fn nutty_id(&self) -> (r: &DissociatedNuttyId)
        ensures
            r@ == self.spec_nid(),
    {
        &self.nutty_id
    }

    /// The display text, if any.
    pub fn display_text(&self) -> (r: Option<&str>)
        ensures
            r matches Some(t) ==> self.spec_display() == Some(t@),
            r is None ==> self.spec_display() is None,
    {
        match &self.display_text {
            Some(t) => Some(t.as_str()),
            None => None,
        }
    }

    /// The tag written out: `[[nid]]`, or `[[nid|display]]` with display text.
    pub fn to_string(&self) -> (r: String)
        ensures
            r@ == seq!['[', '['] + self.spec_nid() + match self.spec_display() {
                Some(d) => seq!['|'] + d,
                None => Seq::<char>::empty(),
            } + seq![']', ']'],
    {
        let mut chars: Vec<char> = Vec::new();
        chars.push('[');
        chars.push('[');
        let nid = self.nutty_id.nid();
        push_chars(&mut chars, nid.as_str());
        match &self.display_text {
            Some(d) => {
                chars.push('|');
                push_chars(&mut chars, d.as_str());
            },
            None => {},
        }
        chars.push(']');
        chars.push(']');
        let r = string_from_chars(&chars);
        proof {
            match self.spec_display() {
                Some(d) => {
                    assert(r@ =~= seq!['[', '['] + self.spec_nid() + (seq!['|'] + d) + seq![']', ']']);
                },
                None => {
                    assert(r@ =~= seq!['[', '['] + self.spec_nid() + Seq::<char>::empty() + seq![']', ']']);
                },
            }
        }
        r
    }
}

} // verus!
