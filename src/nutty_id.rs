//! Block and navigator identifiers: a 128-bit time-ordered identifier, and the
//! seven-symbol base-58 short identifier derived from its last 41 bits.
use vstd::prelude::*;

use crate::push_chars;
use crate::string_from_chars;

verus! {

/// 2^41: the short identifier encodes the identifier modulo this.
pub const SHORT_ID_MODULUS: u128 = 2199023255552;

/// 2^80: the millisecond timestamp sits above the last 80 bits.
pub const TIMESTAMP_DIVISOR: u128 = 1208925819614629174706176;

/// Code point of base-58 digit `d`: `1`-`9`, `A`-`H`, `J`-`N`, `P`-`Z`, `a`-`k`, `m`-`z`.
pub open spec fn b58_code(d: int) -> int {
    if d < 9 {
        49 + d
    } else if d < 17 {
        56 + d
    } else if d < 22 {
        57 + d
    } else if d < 33 {
        58 + d
    } else if d < 44 {
        64 + d
    } else {
        65 + d
    }
}

/// Base-58 digit of the character with code point `code`, or -1 outside the alphabet.
pub open spec fn b58_index(code: int) -> int {
    if 49 <= code <= 57 {
        code - 49
    } else if 65 <= code <= 72 {
        code - 56
    } else if 74 <= code <= 78 {
        code - 57
    } else if 80 <= code <= 90 {
        code - 58
    } else if 97 <= code <= 107 {
        code - 64
    } else if 109 <= code <= 122 {
        code - 65
    } else {
        -1
    }
}

/// Whether `c` belongs to the base-58 alphabet.
pub open spec fn is_b58(c: char) -> bool {
    b58_index(c as int) >= 0
}

/// Base-58 digits of `v`, most significant first, without leading zeros.
pub open spec fn b58_digits(v: nat) -> Seq<int>
    decreases v,
{
    if v == 0 {
        Seq::empty()
    } else {
        b58_digits(v / 58).push((v % 58) as int)
    }
}

/// Base-58 digits of `v`, left-padded with zeros up to `width`.
pub open spec fn b58_padded(v: nat, width: nat) -> Seq<int> {
    let d = b58_digits(v);
    Seq::new(if width > d.len() { (width - d.len()) as nat } else { 0 }, |i: int| 0int) + d
}

/// `s` writes the base-58 digits `d`, one symbol each.
pub open spec fn spells(s: Seq<char>, d: Seq<int>) -> bool {
    &&& s.len() == d.len()
    &&& forall|i: int| 0 <= i < s.len() ==> (#[trigger] s[i] as int) == b58_code(d[i])
}

/// The largest short identifier, the encoding of 2^41 - 1.
pub open spec fn max_short_id() -> Seq<char> {
    seq!['z', 'm', 'M', '9', 'z', '4', 'E']
}

/// `s` is at most `t` in the character order (both of one length).
pub open spec fn chars_at_most(s: Seq<char>, t: Seq<char>) -> bool {
    s == t || exists|k: int|
        0 <= k < s.len() && k < t.len() && s.take(k) == t.take(k) && (s[k] as int) < (t[k] as int)
}

/// A short identifier: seven base-58 symbols, at most the encoding of 2^41 - 1.
pub open spec fn is_short_id(s: Seq<char>) -> bool {
    &&& s.len() == 7
    &&& forall|i: int| 0 <= i < s.len() ==> is_b58(#[trigger] s[i])
    &&& chars_at_most(s, max_short_id())
}

/// The symbol of base-58 digit `d`.
fn b58_char(d: u32) -> (c: char)
    requires
        d < 58,
    ensures
        c as int == b58_code(d as int),
        is_b58(c),
{
    let d = d as u8;
    let code: u8 = if d < 9 {
        49 + d
    } else if d < 17 {
        56 + d
    } else if d < 22 {
        57 + d
    } else if d < 33 {
        58 + d
    } else if d < 44 {
        64 + d
    } else {
        65 + d
    };
    code as char
}

/// Writes `value` in base 58, most significant digit first, left-padded with `1`
/// (the zero symbol) up to `pad_width` symbols.
pub fn encode_base_58(value: u128, pad_width: usize) -> (r: String)
    ensures
        spells(r@, b58_padded(value as nat, pad_width as nat)),
{
    let mut digits: Vec<u32> = Vec::new();
    let mut remaining = value;
    while remaining > 0
        invariant
            b58_digits(value as nat) == b58_digits(remaining as nat) + Seq::new(
                digits@.len(),
                |i: int| digits@[digits@.len() - 1 - i] as int,
            ),
            forall|j: int| 0 <= j < digits@.len() ==> #[trigger] digits@[j] < 58,
        decreases remaining,
    {
        let ghost before = digits@;
        digits.push((remaining % 58) as u32);
        proof {
            let r = remaining as nat;
            let old_rev = Seq::new(before.len(), |i: int| before[before.len() - 1 - i] as int);
            let new_rev = Seq::new(digits@.len(), |i: int| digits@[digits@.len() - 1 - i] as int);
            assert(new_rev =~= seq![(r % 58) as int] + old_rev);
            assert(b58_digits(r) == b58_digits(r / 58).push((r % 58) as int));
            assert(b58_digits(r / 58).push((r % 58) as int) + old_rev =~= b58_digits(r / 58) + new_rev);
        }
        remaining = remaining / 58;
    }
    let ghost d = b58_digits(value as nat);
    proof {
        assert(b58_digits(0) =~= Seq::<int>::empty());
        assert(b58_digits(remaining as nat) + Seq::new(
            digits@.len(),
            |i: int| digits@[digits@.len() - 1 - i] as int,
        ) =~= Seq::new(digits@.len(), |i: int| digits@[digits@.len() - 1 - i] as int));
    }
    let n = digits.len();
    let pad = if pad_width > n {
        pad_width - n
    } else {
        0
    };
    let ghost target = b58_padded(value as nat, pad_width as nat);
    let mut chars: Vec<char> = Vec::new();
    let mut i: usize = 0;
    while i < pad
        invariant
            i <= pad,
            chars@.len() == i,
            d.len() == n,
            target == Seq::new(pad as nat, |k: int| 0int) + d,
            forall|j: int| 0 <= j < i ==> (#[trigger] chars@[j] as int) == b58_code(target[j]),
        decreases pad - i,
    {
        chars.push(b58_char(0));
        i = i + 1;
    }
    let mut j: usize = 0;
    while j < n
        invariant
            j <= n,
            n == digits@.len(),
            chars@.len() == pad + j,
            d.len() == n,
            d == Seq::new(digits@.len(), |i: int| digits@[digits@.len() - 1 - i] as int),
            forall|k: int| 0 <= k < digits@.len() ==> #[trigger] digits@[k] < 58,
            target == Seq::new(pad as nat, |k: int| 0int) + d,
            forall|k: int| 0 <= k < pad + j ==> (#[trigger] chars@[k] as int) == b58_code(target[k]),
        decreases n - j,
    {
        let c = b58_char(digits[n - 1 - j]);
        chars.push(c);
        proof {
            assert(target[pad + j] == d[j as int]);
        }
        j = j + 1;
    }
    string_from_chars(&chars)
}

/// Code point of symbol `k` of the largest short identifier.
fn max_short_id_code(k: usize) -> (r: u32)
    requires
        k < 7,
    ensures
        r as int == max_short_id()[k as int] as int,
{
    if k == 0 {
        122
    } else if k == 1 {
        109
    } else if k == 2 {
        77
    } else if k == 3 {
        57
    } else if k == 4 {
        122
    } else if k == 5 {
        52
    } else {
        69
    }
}

/// Whether `id` is a short identifier: seven base-58 symbols, at most `zmM9z4E`.
pub fn is_valid_nutty_id(id: &str) -> (r: bool)
    ensures
        r == is_short_id(id@),
{
    let len = id.unicode_len();
    if len != 7 {
        return false;
    }
    let ghost m = max_short_id();
    let mut i: usize = 0;
    while i < 7
        invariant
            i <= 7,
            len == id@.len(),
            len == 7,
            forall|j: int| 0 <= j < i ==> is_b58(#[trigger] id@[j]),
        decreases 7 - i,
    {
        let c = id.get_char(i);
        let code = c as u32;
        let ok = (49 <= code && code <= 57) || (65 <= code && code <= 72) || (74 <= code && code
            <= 78) || (80 <= code && code <= 90) || (97 <= code && code <= 107) || (109 <= code
            && code <= 122);
        if !ok {
            assert(!is_b58(id@[i as int]));
            return false;
        }
        i = i + 1;
    }
    let ghost s = id@;
    let mut k: usize = 0;
    while k < 7
        invariant
            k <= 7,
            s == id@,
            s.len() == 7,
            m == max_short_id(),
            m.len() == 7,
            forall|j: int| 0 <= j < 7 ==> is_b58(#[trigger] id@[j]),
            s.take(k as int) == m.take(k as int),
        decreases 7 - k,
    {
        let a = id.get_char(k) as u32;
        let b = max_short_id_code(k);
        if a < b {
            assert(s[k as int] == id@[k as int]);
            assert((s[k as int] as int) < (m[k as int] as int));
            assert(chars_at_most(s, m));
            return true;
        }
        if a > b {
            proof {
                assert(s != m);
                assert forall|q: int|
                    0 <= q < s.len() && q < m.len() && s.take(q) == m.take(q) implies !((s[q] as int)
                    < (m[q] as int)) by {
                    if q < k {
                        assert(s.take(k as int)[q] == s[q]);
                        assert(m.take(k as int)[q] == m[q]);
                    } else if q > k {
                        assert(s.take(q)[k as int] == s[k as int]);
                        assert(m.take(q)[k as int] == m[k as int]);
                    }
                }
            }
            return false;
        }
        assert(s.take(k + 1) =~= s.take(k as int).push(s[k as int]));
        assert(m.take(k + 1) =~= m.take(k as int).push(m[k as int]));
        k = k + 1;
    }
    assert(s =~= s.take(7));
    assert(m =~= m.take(7));
    true
}

/// The last 41 bits of `uuid`.
pub fn extract_last_41_bits(uuid: u128) -> (r: u128)
    ensures
        r == uuid % SHORT_ID_MODULUS,
{
    uuid % SHORT_ID_MODULUS
}

/// Value of the base-58 text `s`, most significant symbol first.
pub open spec fn b58_value(s: Seq<char>) -> int
    decreases s.len(),
{
    if s.len() == 0 {
        0
    } else {
        b58_value(s.drop_last()) * 58 + b58_index(s.last() as int)
    }
}

/// Every character of `s` is a base-58 symbol.
pub open spec fn all_b58(s: Seq<char>) -> bool {
    forall|i: int| 0 <= i < s.len() ==> is_b58(#[trigger] s[i])
}

/// Reading more symbols never lowers the value.
proof fn lemma_b58_value_grows(s: Seq<char>, i: int, j: int)
    requires
        0 <= i <= j <= s.len(),
        all_b58(s),
    ensures
        0 <= b58_value(s.take(i)) <= b58_value(s.take(j)),
    decreases j - i,
{
    if i < j {
        lemma_b58_value_grows(s, i, j - 1);
        assert(s.take(j).drop_last() =~= s.take(j - 1));
        assert(is_b58(s[j - 1]));
    } else {
        lemma_b58_value_nonneg(s.take(i));
    }
}

proof fn lemma_b58_value_nonneg(s: Seq<char>)
    requires
        all_b58(s),
    ensures
        b58_value(s) >= 0,
    decreases s.len(),
{
    if s.len() > 0 {
        assert(all_b58(s.drop_last())) by {
            assert forall|i: int| 0 <= i < s.drop_last().len() implies is_b58(#[trigger] s.drop_last()[i]) by {
                assert(s.drop_last()[i] == s[i]);
            }
        }
        lemma_b58_value_nonneg(s.drop_last());
        assert(is_b58(s[s.len() - 1]));
    }
}

/// Numeric value of base-58 digits, most significant first.
pub open spec fn b58_number(d: Seq<int>) -> int
    decreases d.len(),
{
    if d.len() == 0 {
        0
    } else {
        b58_number(d.drop_last()) * 58 + d.last()
    }
}

proof fn lemma_b58_number_digits(v: nat)
    ensures
        b58_number(b58_digits(v)) == v,
        forall|i: int| 0 <= i < b58_digits(v).len() ==> 0 <= #[trigger] b58_digits(v)[i] < 58,
    decreases v,
{
    if v > 0 {
        lemma_b58_number_digits(v / 58);
        let d = b58_digits(v);
        assert(d.drop_last() =~= b58_digits(v / 58));
        assert forall|i: int| 0 <= i < d.len() implies 0 <= #[trigger] d[i] < 58 by {
            if i < d.len() - 1 {
                assert(d[i] == b58_digits(v / 58)[i]);
            }
        }
    }
}

proof fn lemma_b58_number_zeros(z: Seq<int>, x: Seq<int>)
    requires
        forall|i: int| 0 <= i < z.len() ==> #[trigger] z[i] == 0,
    ensures
        b58_number(z + x) == b58_number(x),
    decreases x.len() + z.len(),
{
    if x.len() == 0 {
        assert(z + x =~= z);
        if z.len() > 0 {
            lemma_b58_number_zeros(z.drop_last(), x);
            assert(z.drop_last() + x =~= z.drop_last());
        }
    } else {
        lemma_b58_number_zeros(z, x.drop_last());
        assert((z + x).drop_last() =~= z + x.drop_last());
    }
}

proof fn lemma_b58_value_spelled(s: Seq<char>, d: Seq<int>)
    requires
        spells(s, d),
        forall|i: int| 0 <= i < d.len() ==> 0 <= #[trigger] d[i] < 58,
    ensures
        all_b58(s),
        b58_value(s) == b58_number(d),
    decreases s.len(),
{
    if s.len() > 0 {
        let s1 = s.drop_last();
        let d1 = d.drop_last();
        assert forall|i: int| 0 <= i < s1.len() implies (#[trigger] s1[i] as int) == b58_code(d1[i]) by {
            assert(s1[i] == s[i] && d1[i] == d[i]);
        }
        assert forall|i: int| 0 <= i < d1.len() implies 0 <= #[trigger] d1[i] < 58 by {
            assert(d1[i] == d[i]);
        }
        lemma_b58_value_spelled(s1, d1);
        assert((s.last() as int) == b58_code(d.last()));
        assert forall|i: int| 0 <= i < s.len() implies is_b58(#[trigger] s[i]) by {
            assert((s[i] as int) == b58_code(d[i]));
            if i < s.len() - 1 {
                assert(s1[i] == s[i]);
            }
        }
    }
}

/// Decoding undoes encoding: the text that `encode_base_58` writes for `v`, at
/// any padding width, is base-58 text whose value is `v`.
pub proof fn lemma_decode_undoes_encode(v: nat, width: nat, s: Seq<char>)
    requires
        spells(s, b58_padded(v, width)),
    ensures
        all_b58(s),
        b58_value(s) == v,
{
    let d = b58_digits(v);
    let z = Seq::new(if width > d.len() { (width - d.len()) as nat } else { 0 }, |i: int| 0int);
    lemma_b58_number_digits(v);
    lemma_b58_number_zeros(z, d);
    let p = b58_padded(v, width);
    assert(p == z + d);
    assert forall|i: int| 0 <= i < p.len() implies 0 <= #[trigger] p[i] < 58 by {
        if i >= z.len() {
            assert(p[i] == d[i - z.len()]);
        }
    }
    lemma_b58_value_spelled(s, p);
}

/// Reads base-58 text: its value, or the first character outside the
/// alphabet, or `InvalidInput` for empty text and for a value beyond 128 bits.
pub fn decode_base_58(input: &str) -> (r: Result<u128, DecodeError>)
    ensures
        input@.len() == 0 ==> (r matches Err(DecodeError::InvalidInput(t)) && t@ == "<empty>"@),
        input@.len() > 0 && !all_b58(input@) ==> (r matches Err(DecodeError::InvalidCharacter(c))
            && exists|i: int|
            0 <= i < input@.len() && input@[i] == c && !is_b58(c) && forall|j: int|
                0 <= j < i ==> is_b58(#[trigger] input@[j])),
        input@.len() > 0 && all_b58(input@) && b58_value(input@) <= u128::MAX ==> r == Ok::<
            u128,
            DecodeError,
        >(b58_value(input@) as u128),
        input@.len() > 0 && all_b58(input@) && b58_value(input@) > u128::MAX ==> (r matches Err(
            DecodeError::InvalidInput(t),
        ) && t@ == input@),
{
    let n = input.unicode_len();
    if n == 0 {
        return Err(DecodeError::InvalidInput("<empty>".to_owned()));
    }
    let mut i: usize = 0;
    while i < n
        invariant
            n == input@.len(),
            i <= n,
            forall|j: int| 0 <= j < i ==> is_b58(#[trigger] input@[j]),
        decreases n - i,
    {
        let c = input.get_char(i);
        if b58_digit(c).is_none() {
            return Err(DecodeError::InvalidCharacter(c));
        }
        i = i + 1;
    }
    let mut acc: u128 = 0;
    let mut i: usize = 0;
    assert(input@.take(0) =~= Seq::<char>::empty());
    while i < n
        invariant
            n == input@.len(),
            i <= n,
            all_b58(input@),
            acc as int == b58_value(input@.take(i as int)),
        decreases n - i,
    {
        let c = input.get_char(i);
        let d = match b58_digit(c) {
            Some(d) => d,
            None => 0,
        };
        assert(input@.take(i + 1).drop_last() =~= input@.take(i as int));
        assert(is_b58(input@[i as int]));
        if acc > (u128::MAX - d) / 58 {
            proof {
                assert(acc * 58 + d > u128::MAX) by (nonlinear_arith)
                    requires
                        acc > (u128::MAX - d) / 58,
                        d < 58,
                ;
                lemma_b58_value_grows(input@, i + 1, n as int);
                assert(input@.take(n as int) =~= input@);
            }
            return Err(DecodeError::InvalidInput(input.to_owned()));
        }
        proof {
            assert(acc * 58 + d <= u128::MAX) by (nonlinear_arith)
                requires
                    acc <= (u128::MAX - d) / 58,
                    d < 58,
            ;
        }
        acc = acc * 58 + d;
        i = i + 1;
    }
    assert(input@.take(n as int) =~= input@);
    Ok(acc)
}

/// The base-58 digit of `c`, if it is a symbol.
fn b58_digit(c: char) -> (r: Option<u128>)
    ensures
        r is Some <==> is_b58(c),
        r matches Some(d) ==> d as int == b58_index(c as int) && d < 58,
{
    let code = c as u32;
    if 49 <= code && code <= 57 {
        Some((code - 49) as u128)
    } else if 65 <= code && code <= 72 {
        Some((code - 56) as u128)
    } else if 74 <= code && code <= 78 {
        Some((code - 57) as u128)
    } else if 80 <= code && code <= 90 {
        Some((code - 58) as u128)
    } else if 97 <= code && code <= 107 {
        Some((code - 64) as u128)
    } else if 109 <= code && code <= 122 {
        Some((code - 65) as u128)
    } else {
        None
    }
}

/// Relies on `uuid::Uuid::now_v7`: a fresh time-ordered identifier; nothing is
/// known of its bits.
#[verifier::external_body]
fn fresh_uuid() -> (r: u128) {
    uuid::Uuid::now_v7().as_u128()
}

/// A 128-bit identifier of a block, a link or a navigator.
#[derive(Debug, Clone, Copy, PartialEq, Eq, Hash, Structural)]
pub struct NuttyId {
    pub uuid: u128,
}

impl NuttyId {
    /// The identifier with the given 128 bits.
    pub fn new(uuid: u128) -> (r: Self)
        ensures
            r.uuid == uuid,
    {
        NuttyId { uuid }
    }

    /// A fresh time-ordered identifier.
    pub fn now() -> (r: Self) {
        NuttyId { uuid: fresh_uuid() }
    }

    /// The 128 bits of the identifier.
    pub fn uuid(&self) -> (r: u128)
        ensures
            r == self.uuid,
    {
        self.uuid
    }

    /// The short identifier: the last 41 bits in seven base-58 symbols.
    pub fn nid(&self) -> (r: String)
        ensures
            spells(r@, b58_padded((self.uuid % SHORT_ID_MODULUS) as nat, 7)),
    {
        encode_base_58(extract_last_41_bits(self.uuid), 7)
    }

    /// The millisecond timestamp held in the first 48 bits.
    pub fn timestamp(&self) -> (r: u64)
        ensures
            r == self.uuid / TIMESTAMP_DIVISOR,
    {
        (self.uuid / TIMESTAMP_DIVISOR) as u64
    }

    /// The text form: the 128 bits in 22 base-58 symbols, `:`, and the short identifier.
    pub fn to_text(&self) -> (r: String)
        ensures
            is_id_text(r@, *self),
    {
        let long = encode_base_58(self.uuid, 22);
        let short = self.nid();
        let mut chars: Vec<char> = Vec::new();
        push_chars(&mut chars, long.as_str());
        chars.push(':');
        push_chars(&mut chars, short.as_str());
        let r = string_from_chars(&chars);
        assert(r@ =~= long@ + seq![':'] + short@);
        assert(spells(long@, b58_padded(self.uuid as nat, 22)));
        r
    }

    /// Reads the text form, checking the short identifier against the bits.
    pub fn from_text(text: &str) -> (r: Result<Self, NuttyIdTextError>)
        ensures
            colon_count(text@) != 1 ==> r == Err::<Self, _>(NuttyIdTextError::InvalidFormat),
            r matches Ok(id) ==> colon_count(text@) == 1 && exists|p: int|
                0 <= p < text@.len() && text@[p] == ':' && b58_value(text@.take(p)) == id.uuid
                    && all_b58(text@.take(p)) && p > 0 && spells(
                    text@.skip(p + 1),
                    b58_padded((id.uuid % SHORT_ID_MODULUS) as nat, 7),
                ),
    {
        let n = text.unicode_len();
        let mut colons: usize = 0;
        let mut at: usize = 0;
        let mut i: usize = 0;
        let ghost pred = |c: char| c == ':';
        assert(text@.take(0).filter(pred) =~= Seq::<char>::empty()) by {
            reveal(Seq::filter);
        }
        while i < n
            invariant
                n == text@.len(),
                i <= n,
                pred == (|c: char| c == ':'),
                colons <= 2,
                text@.take(i as int).filter(pred).len() <= 2 ==> colons as int == text@.take(
                    i as int,
                ).filter(pred).len(),
                text@.take(i as int).filter(pred).len() > 2 ==> colons == 2,
                colons >= 1 ==> at < i && text@[at as int] == ':',
            decreases n - i,
        {
            let c = text.get_char(i);
            proof {
                assert(text@.take(i + 1).drop_last() =~= text@.take(i as int));
                reveal(Seq::filter);
            }
            if c == ':' {
                if colons == 0 {
                    at = i;
                }
                if colons < 2 {
                    colons = colons + 1;
                }
            }
            i = i + 1;
        }
        assert(text@.take(n as int) =~= text@);
        if colons != 1 {
            return Err(NuttyIdTextError::InvalidFormat);
        }
        let head = text.substring_char(0, at);
        let tail = text.substring_char(at + 1, n);
        assert(text@.subrange(0, at as int) =~= text@.take(at as int));
        assert(text@.subrange(at + 1, n as int) =~= text@.skip(at + 1));
        let uuid = match decode_base_58(head) {
            Ok(v) => v,
            Err(e) => {
                return Err(NuttyIdTextError::InvalidUuid(e));
            },
        };
        let id = NuttyId { uuid };
        let nid = id.nid();
        let expected = tail.to_owned();
        if nid != expected {
            return Err(NuttyIdTextError::NidMismatch);
        }
        proof {
            assert(head@.len() > 0);
            assert(all_b58(head@));
            lemma_b58_value_nonneg(head@);
            assert(b58_value(head@) <= u128::MAX);
            assert(b58_value(head@) == uuid as int);
            let p = at as int;
            assert(text@[p] == ':');
            assert(text@.take(p) == head@);
            assert(text@.skip(p + 1) == nid@);
        }
        Ok(id)
    }

    /// The short identifier alone.
    pub fn dissociate(&self) -> (r: DissociatedNuttyId)
        ensures
            spells(r@, b58_padded((self.uuid % SHORT_ID_MODULUS) as nat, 7)),
    {
        DissociatedNuttyId { nid: self.nid() }
    }
}

/// `s` is the text form of `id`: the 128 bits in at least 22 base-58 symbols,
/// `:`, and the short identifier.
pub open spec fn is_id_text(s: Seq<char>, id: NuttyId) -> bool {
    exists|a: Seq<char>, b: Seq<char>|
        #![trigger spells(a, b58_padded(id.uuid as nat, 22)), spells(b, b58_padded((id.uuid % SHORT_ID_MODULUS) as nat, 7))]
        s == a + seq![':'] + b && spells(a, b58_padded(id.uuid as nat, 22)) && spells(
            b,
            b58_padded((id.uuid % SHORT_ID_MODULUS) as nat, 7),
        )
}

proof fn lemma_spells_same(s1: Seq<char>, s2: Seq<char>, d: Seq<int>)
    requires
        spells(s1, d),
        spells(s2, d),
    ensures
        s1 == s2,
{
    assert forall|i: int| 0 <= i < s1.len() implies s1[i] == s2[i] by {
        assert((s1[i] as int) == (s2[i] as int));
    }
    assert(s1 =~= s2);
}

/// An identifier has one text form.
pub proof fn lemma_id_text_unique(s1: Seq<char>, s2: Seq<char>, id: NuttyId)
    requires
        is_id_text(s1, id),
        is_id_text(s2, id),
    ensures
        s1 == s2,
{
    let long = b58_padded(id.uuid as nat, 22);
    let short = b58_padded((id.uuid % SHORT_ID_MODULUS) as nat, 7);
    let (a1, b1) = choose|a: Seq<char>, b: Seq<char>|
        #![trigger spells(a, long), spells(b, short)]
        s1 == a + seq![':'] + b && spells(a, long) && spells(b, short);
    let (a2, b2) = choose|a: Seq<char>, b: Seq<char>|
        #![trigger spells(a, long), spells(b, short)]
        s2 == a + seq![':'] + b && spells(a, long) && spells(b, short);
    lemma_spells_same(a1, a2, long);
    lemma_spells_same(b1, b2, short);
}

/// Errors of reading the text form of an identifier.
#[derive(Debug, Clone, PartialEq, Eq)]
pub enum NuttyIdTextError {
    /// The text is not two parts joined by one `:`.
    InvalidFormat,
    /// The first part is not the base-58 text of 128 bits.
    InvalidUuid(DecodeError),
    /// The second part is not the short identifier of the first.
    NidMismatch,
}

/// Number of `:` in `s`.
pub open spec fn colon_count(s: Seq<char>) -> nat {
    s.filter(|c: char| c == ':').len()
}

/// Errors of short-identifier construction.
#[derive(Debug, Clone, PartialEq, Eq)]
pub enum NuttyIdError {
    /// The text could not be held as seven symbols.
    ConversionError(String),
    /// The text is not a short identifier.
    ValidationError(String),
}

/// Errors of base-58 decoding.
#[derive(Debug, Clone, PartialEq, Eq)]
pub enum DecodeError {
    /// A character outside the base-58 alphabet.
    InvalidCharacter(char),
    /// The input cannot be decoded as a whole.
    InvalidInput(String),
}

/// A short identifier on its own, without the identifier it was derived from.
#[derive(Debug)]
pub struct DissociatedNuttyId {
    nid: String,
}

impl View for DissociatedNuttyId {
    type V = Seq<char>;

    closed spec fn view(&self) -> Seq<char> {
        self.nid@
    }
}

impl DissociatedNuttyId {
    /// Takes `nid` as a short identifier, or rejects it.
    pub fn new(nid: &str) -> (r: Result<Self, NuttyIdError>)
        ensures
            is_short_id(nid@) <==> r is Ok,
            r matches Ok(d) ==> d@ == nid@,
            r matches Err(e) ==> e matches NuttyIdError::ValidationError(t) && t@ == nid@,
    {
        if !is_valid_nutty_id(nid) {
            return Err(NuttyIdError::ValidationError(nid.to_owned()));
        }
        Ok(DissociatedNuttyId { nid: nid.to_owned() })
    }

    /// The text of the short identifier.
    pub fn nid(&self) -> (r: String)
        ensures
            r@ == self@,
    {
        self.nid.clone()
    }
}

impl Clone for DissociatedNuttyId {
    fn clone(&self) -> (r: Self)
        ensures
            r@ == self@,
    {
        DissociatedNuttyId { nid: self.nid.clone() }
    }
}

impl PartialEq for DissociatedNuttyId {
    fn eq(&self, other: &Self) -> (r: bool)
        ensures
            r == (self@ == other@),
    {
        self.nid == other.nid
    }
}

impl vstd::std_specs::cmp::PartialEqSpecImpl for DissociatedNuttyId {
    open spec fn obeys_eq_spec() -> bool {
        true
    }

    open spec fn eq_spec(&self, other: &Self) -> bool {
        self@ == other@
    }
}

} // verus!
