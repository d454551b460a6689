//! Order keys for sibling blocks: strings over the 94 visible ASCII symbols
//! (`!` to `~`), compared as digit sequences after right-padding with the
//! smallest symbol, with a midpoint between any two distinct keys.
use vstd::arithmetic::power::lemma_pow_positive;
use vstd::arithmetic::power::pow;
use std::cmp::Ordering;
use vstd::prelude::*;

use crate::string_from_chars;

verus! {

/// Code point of the smallest symbol, `!`.
pub const MIN_CHAR: u32 = 33;

/// Code point of the largest symbol, `~`.
pub const MAX_CHAR: u32 = 126;

/// Number of symbols, which is the base of the digit arithmetic.
pub const BASE: u32 = 94;

/// Whether `c` is a symbol of the key alphabet.
pub open spec fn is_symbol(c: char) -> bool {
    33 <= (c as int) <= 126
}

/// Whether every character of `s` is a symbol of the key alphabet.
pub open spec fn is_key(s: Seq<char>) -> bool {
    forall|i: int| 0 <= i < s.len() ==> is_symbol(#[trigger] s[i])
}

/// Alphabet positions of `s`, right-padded with the smallest position up to `len`.
pub open spec fn positions(s: Seq<char>, len: nat) -> Seq<int> {
    Seq::new(len, |i: int| if i < s.len() { (s[i] as int) - 33 } else { 0 })
}

/// The longer of the two lengths.
pub open spec fn common_len(a: Seq<char>, b: Seq<char>) -> nat {
    if a.len() >= b.len() {
        a.len()
    } else {
        b.len()
    }
}

/// Lexicographic order of two digit sequences.
pub open spec fn lex_less(x: Seq<int>, y: Seq<int>) -> bool {
    exists|k: int| 0 <= k < x.len() && k < y.len() && x.take(k) == y.take(k) && x[k] < y[k]
}

/// The order of keys: position sequences compared after padding to a common length.
pub open spec fn key_less(a: Seq<char>, b: Seq<char>) -> bool {
    lex_less(positions(a, common_len(a, b)), positions(b, common_len(a, b)))
}

/// Equality in the padded order: neither key comes before the other.
pub open spec fn key_equal(a: Seq<char>, b: Seq<char>) -> bool {
    !key_less(a, b) && !key_less(b, a)
}

/// Whether every entry is a digit of base 94.
pub open spec fn digits_ok(d: Seq<int>) -> bool {
    forall|i: int| 0 <= i < d.len() ==> 0 <= #[trigger] d[i] < 94
}

/// Numeric value of a base-94 digit sequence, most significant digit first.
pub open spec fn number(d: Seq<int>) -> int
    decreases d.len(),
{
    if d.len() == 0 {
        0
    } else {
        number(d.drop_last()) * 94 + d.last()
    }
}

/// Value of key `s` read as a number of `len` digits.
pub open spec fn value_at(s: Seq<char>, len: nat) -> int {
    number(positions(s, len))
}

/// `m` is the midpoint of `a` and `b`: its value is the average of theirs, and it
/// has one digit more than the longer of them exactly when their sum is odd.
pub open spec fn is_midpoint(a: Seq<char>, b: Seq<char>, m: Seq<char>) -> bool {
    let n = common_len(a, b);
    let sum = value_at(a, n) + value_at(b, n);
    &&& is_key(m)
    &&& m.len() == if sum % 2 == 0 { n } else { n + 1 }
    &&& 2 * value_at(m, n + 1) == value_at(a, n + 1) + value_at(b, n + 1)
}

proof fn lemma_pow_step(e: nat)
    requires
        e > 0,
    ensures
        pow(94, e) == 94 * pow(94, (e - 1) as nat),
{
    reveal(pow);
}

proof fn lemma_number_bounds(d: Seq<int>)
    requires
        digits_ok(d),
    ensures
        0 <= number(d) < pow(94, d.len()),
    decreases d.len(),
{
    if d.len() == 0 {
        reveal(pow);
    } else {
        let d1 = d.drop_last();
        assert(digits_ok(d1)) by {
            assert forall|i: int| 0 <= i < d1.len() implies 0 <= #[trigger] d1[i] < 94 by {
                assert(d1[i] == d[i]);
            }
        }
        lemma_number_bounds(d1);
        lemma_pow_step(d.len());
        let p = pow(94, d1.len());
        let n1 = number(d1);
        let l = d.last();
        assert(0 <= l < 94);
        assert(0 <= n1 * 94 + l < 94 * p) by (nonlinear_arith)
            requires
                0 <= n1 < p,
                0 <= l < 94,
        ;
    }
}

proof fn lemma_number_concat(x: Seq<int>, y: Seq<int>)
    ensures
        number(x + y) == number(x) * pow(94, y.len()) + number(y),
    decreases y.len(),
{
    if y.len() == 0 {
        assert(x + y =~= x);
        reveal(pow);
    } else {
        let y1 = y.drop_last();
        lemma_number_concat(x, y1);
        assert((x + y).drop_last() =~= x + y1);
        assert((x + y).last() == y.last());
        lemma_pow_step(y.len());
        let nx = number(x);
        let p1 = pow(94, y1.len());
        let ny1 = number(y1);
        let l = y.last();
        assert((nx * p1 + ny1) * 94 + l == nx * (94 * p1) + (ny1 * 94 + l)) by (nonlinear_arith);
    }
}

proof fn lemma_number_zeros(k: nat)
    ensures
        number(Seq::new(k, |i: int| 0int)) == 0,
    decreases k,
{
    if k > 0 {
        assert(Seq::new(k, |i: int| 0int).drop_last() =~= Seq::new((k - 1) as nat, |i: int| 0int));
        lemma_number_zeros((k - 1) as nat);
    }
}

proof fn lemma_positions_ok(s: Seq<char>, len: nat)
    requires
        is_key(s),
    ensures
        digits_ok(positions(s, len)),
{
    assert forall|i: int| 0 <= i < len implies 0 <= #[trigger] positions(s, len)[i] < 94 by {
        if i < s.len() {
            assert(is_symbol(s[i]));
        }
    }
}

/// Reading a key with more digits multiplies its value by a power of the base.
proof fn lemma_value_scale(s: Seq<char>, l1: nat, l2: nat)
    requires
        s.len() <= l1 <= l2,
    ensures
        value_at(s, l2) == value_at(s, l1) * pow(94, (l2 - l1) as nat),
{
    let zeros = Seq::new((l2 - l1) as nat, |i: int| 0int);
    assert(positions(s, l2) =~= positions(s, l1) + zeros);
    lemma_number_concat(positions(s, l1), zeros);
    lemma_number_zeros((l2 - l1) as nat);
}

proof fn lemma_lex_trichotomy(x: Seq<int>, y: Seq<int>)
    requires
        x.len() == y.len(),
    ensures
        lex_less(x, y) || x == y || lex_less(y, x),
    decreases x.len(),
{
    if x.len() == 0 {
        assert(x =~= y);
    } else {
        let x1 = x.drop_last();
        let y1 = y.drop_last();
        lemma_lex_trichotomy(x1, y1);
        if lex_less(x1, y1) {
            let k = choose|k: int|
                0 <= k < x1.len() && k < y1.len() && x1.take(k) == y1.take(k) && x1[k] < y1[k];
            assert(x.take(k) =~= x1.take(k));
            assert(y.take(k) =~= y1.take(k));
            assert(x[k] == x1[k] && y[k] == y1[k]);
        } else if lex_less(y1, x1) {
            let k = choose|k: int|
                0 <= k < y1.len() && k < x1.len() && y1.take(k) == x1.take(k) && y1[k] < x1[k];
            assert(x.take(k) =~= x1.take(k));
            assert(y.take(k) =~= y1.take(k));
            assert(x[k] == x1[k] && y[k] == y1[k]);
        } else {
            let k = x.len() - 1;
            assert(x.take(k) =~= x1);
            assert(y.take(k) =~= y1);
            if x[k] < y[k] {
            } else if y[k] < x[k] {
            } else {
                assert forall|i: int| 0 <= i < x.len() implies x[i] == y[i] by {
                    if i < k {
                        assert(x[i] == x1[i] && y[i] == y1[i]);
                    }
                }
                assert(x =~= y);
            }
        }
    }
}

proof fn lemma_lex_less_number(x: Seq<int>, y: Seq<int>)
    requires
        x.len() == y.len(),
        digits_ok(x),
        digits_ok(y),
        lex_less(x, y),
    ensures
        number(x) < number(y),
{
    let k = choose|k: int| 0 <= k < x.len() && k < y.len() && x.take(k) == y.take(k) && x[k] < y[k];
    let hx = x.take(k + 1);
    let hy = y.take(k + 1);
    let tx = x.skip(k + 1);
    let ty = y.skip(k + 1);
    assert(hx + tx =~= x);
    assert(hy + ty =~= y);
    lemma_number_concat(hx, tx);
    lemma_number_concat(hy, ty);
    assert(hx.drop_last() =~= x.take(k));
    assert(hy.drop_last() =~= y.take(k));
    assert(digits_ok(tx)) by {
        assert forall|i: int| 0 <= i < tx.len() implies 0 <= #[trigger] tx[i] < 94 by {
            assert(tx[i] == x[i + k + 1]);
        }
    }
    assert(digits_ok(ty)) by {
        assert forall|i: int| 0 <= i < ty.len() implies 0 <= #[trigger] ty[i] < 94 by {
            assert(ty[i] == y[i + k + 1]);
        }
    }
    lemma_number_bounds(tx);
    lemma_number_bounds(ty);
    lemma_pow_positive(94, tx.len());
    let p = pow(94, tx.len());
    let a = number(x.take(k));
    let xk = x[k];
    let yk = y[k];
    let rx = number(tx);
    let ry = number(ty);
    assert((a * 94 + xk) * p + rx < (a * 94 + yk) * p + ry) by (nonlinear_arith)
        requires
            xk < yk,
            0 <= rx < p,
            0 <= ry,
            p > 0,
    ;
}

/// For digit sequences of one length, lexicographic order is numeric order.
proof fn lemma_lex_iff_number(x: Seq<int>, y: Seq<int>)
    requires
        x.len() == y.len(),
        digits_ok(x),
        digits_ok(y),
    ensures
        lex_less(x, y) <==> number(x) < number(y),
        x == y <==> number(x) == number(y),
{
    lemma_lex_trichotomy(x, y);
    if lex_less(x, y) {
        lemma_lex_less_number(x, y);
    } else if lex_less(y, x) {
        lemma_lex_less_number(y, x);
    }
}

/// Keys compare as their values read with any common number of digits.
pub proof fn lemma_key_less_value(a: Seq<char>, b: Seq<char>, len: nat)
    requires
        is_key(a),
        is_key(b),
        common_len(a, b) <= len,
    ensures
        key_less(a, b) <==> value_at(a, len) < value_at(b, len),
{
    let n = common_len(a, b);
    lemma_positions_ok(a, n);
    lemma_positions_ok(b, n);
    lemma_lex_iff_number(positions(a, n), positions(b, n));
    lemma_value_scale(a, n, len);
    lemma_value_scale(b, n, len);
    lemma_pow_positive(94, (len - n) as nat);
    let p = pow(94, (len - n) as nat);
    let va = value_at(a, n);
    let vb = value_at(b, n);
    assert(va < vb <==> va * p < vb * p) by (nonlinear_arith)
        requires
            p > 0,
    ;
}

/// The midpoint relation read with any number of digits past the longer bound.
pub proof fn lemma_midpoint_value(a: Seq<char>, b: Seq<char>, m: Seq<char>, len: nat)
    requires
        is_midpoint(a, b, m),
        common_len(a, b) + 1 <= len,
    ensures
        2 * value_at(m, len) == value_at(a, len) + value_at(b, len),
{
    let l1 = common_len(a, b) + 1;
    lemma_value_scale(a, l1, len);
    lemma_value_scale(b, l1, len);
    lemma_value_scale(m, l1, len);
    let p = pow(94, (len - l1) as nat);
    let vm = value_at(m, l1);
    let va = value_at(a, l1);
    let vb = value_at(b, l1);
    assert(2 * (vm * p) == va * p + vb * p) by (nonlinear_arith)
        requires
            2 * vm == va + vb,
    ;
}

/// A midpoint is determined by its bounds: two calls of `between` on the same
/// keys give the same key.
pub proof fn lemma_midpoint_unique(a: Seq<char>, b: Seq<char>, m1: Seq<char>, m2: Seq<char>)
    requires
        is_midpoint(a, b, m1),
        is_midpoint(a, b, m2),
    ensures
        m1 == m2,
{
    let len = common_len(a, b) + 1;
    let p1 = positions(m1, len);
    let p2 = positions(m2, len);
    lemma_positions_ok(m1, len);
    lemma_positions_ok(m2, len);
    lemma_lex_iff_number(p1, p2);
    assert(p1 == p2);
    assert forall|i: int| 0 <= i < m1.len() implies m1[i] == m2[i] by {
        assert(p1[i] == p2[i]);
        assert((m1[i] as int) == (m2[i] as int));
    }
    assert(m1 =~= m2);
}

/// The order of keys is transitive.
pub proof fn lemma_key_less_transitive(a: Seq<char>, b: Seq<char>, c: Seq<char>)
    requires
        is_key(a),
        is_key(b),
        is_key(c),
        key_less(a, b),
        key_less(b, c),
    ensures
        key_less(a, c),
{
    let len = a.len() + b.len() + c.len();
    lemma_key_less_value(a, b, len);
    lemma_key_less_value(b, c, len);
    lemma_key_less_value(a, c, len);
}

/// A midpoint of two ordered keys lies strictly between them.
pub proof fn lemma_midpoint_between(a: Seq<char>, b: Seq<char>, m: Seq<char>)
    requires
        is_key(a),
        is_key(b),
        key_less(a, b),
        is_midpoint(a, b, m),
    ensures
        key_less(a, m),
        key_less(m, b),
{
    let len = common_len(a, b) + 1;
    lemma_midpoint_value(a, b, m, len);
    lemma_key_less_value(a, b, len);
    lemma_key_less_value(a, m, len);
    lemma_key_less_value(m, b, len);
}

/// Inserting again at the same boundary stays between the outer neighbours:
/// a midpoint of `a` and the first midpoint `m1`, or of `m1` and `b`, still lies
/// strictly between `a` and `b`.
pub proof fn lemma_repeated_insertion(a: Seq<char>, b: Seq<char>, m1: Seq<char>, m2: Seq<char>)
    requires
        is_key(a),
        is_key(b),
        key_less(a, b),
        is_midpoint(a, b, m1),
        is_midpoint(a, m1, m2) || is_midpoint(m1, b, m2),
    ensures
        key_less(a, m2),
        key_less(m2, b),
{
    lemma_midpoint_between(a, b, m1);
    if is_midpoint(a, m1, m2) {
        lemma_midpoint_between(a, m1, m2);
        lemma_key_less_transitive(m2, m1, b);
    } else {
        lemma_midpoint_between(m1, b, m2);
        lemma_key_less_transitive(a, m1, m2);
    }
}

/// Padding-aware comparison of two keys agrees with the comparison of their
/// midpoints towards a common bound `c`, on either side.
pub proof fn lemma_midpoints_keep_order(
    x: Seq<char>,
    y: Seq<char>,
    c: Seq<char>,
    mx: Seq<char>,
    my: Seq<char>,
)
    requires
        is_key(x),
        is_key(y),
        is_key(c),
        is_midpoint(x, c, mx) && is_midpoint(y, c, my) || is_midpoint(c, x, mx) && is_midpoint(
            c,
            y,
            my,
        ),
    ensures
        key_less(x, y) <==> key_less(mx, my),
{
    let len = x.len() + y.len() + c.len() + 2;
    if is_midpoint(x, c, mx) && is_midpoint(y, c, my) {
        lemma_midpoint_value(x, c, mx, len);
        lemma_midpoint_value(y, c, my, len);
    } else {
        lemma_midpoint_value(c, x, mx, len);
        lemma_midpoint_value(c, y, my, len);
    }
    lemma_key_less_value(x, y, len);
    lemma_key_less_value(mx, my, len);
}

/// Errors of key construction and key generation.
#[derive(Debug, Clone, PartialEq, Eq)]
pub enum FractionalIndexError {
    /// A character outside the key alphabet.
    InvalidCharacter(char),
    /// The two bounds of a midpoint are the same key.
    IdenticalIndices,
}

/// An order key among siblings.
#[derive(Debug)]
pub struct FractionalIndex {
    index: String,
}

impl View for FractionalIndex {
    type V = Seq<char>;

    closed spec fn view(&self) -> Seq<char> {
        self.index@
    }
}

impl FractionalIndex {
    #[verifier::type_invariant]
    closed spec fn inv(self) -> bool {
        is_key(self.index@)
    }

    /// Makes a key of `index`, or names the first character outside the alphabet.
    pub fn new(index: String) -> (r: Result<Self, FractionalIndexError>)
        ensures
            is_key(index@) <==> r is Ok,
            r matches Ok(k) ==> k@ == index@,
            r matches Err(e) ==> exists|i: int|
                0 <= i < index@.len() && !is_symbol(index@[i]) && e == FractionalIndexError::InvalidCharacter(index@[i])
                    && forall|j: int| 0 <= j < i ==> is_symbol(#[trigger] index@[j]),
    {
        let len = index.as_str().unicode_len();
        let mut i: usize = 0;
        while i < len
            invariant
                len == index@.len(),
                i <= len,
                forall|j: int| 0 <= j < i ==> is_symbol(#[trigger] index@[j]),
            decreases len - i,
        {
            let c = index.as_str().get_char(i);
            let code = c as u32;
            if code < MIN_CHAR || code > MAX_CHAR {
                return Err(FractionalIndexError::InvalidCharacter(c));
            }
            i = i + 1;
        }
        Ok(FractionalIndex { index })
    }

    /// The smallest one-symbol key, `!`.
    pub fn start() -> (r: Self)
        ensures
            r@ == seq!['!'],
    {
        let index = "!".to_owned();
        proof {
            reveal_strlit("!");
            assert(index@ =~= seq!['!']);
        }
        FractionalIndex { index }
    }

    /// The largest one-symbol key, `~`.
    pub fn end() -> (r: Self)
        ensures
            r@ == seq!['~'],
    {
        let index = "~".to_owned();
        proof {
            reveal_strlit("~");
            assert(index@ =~= seq!['~']);
        }
        FractionalIndex { index }
    }

    /// A key strictly between `before` and `after` (in either order): their midpoint.
    ///
    /// Fails with `IdenticalIndices` when the two keys are equal in the padded
    /// order (the same text, or texts such as `P` and `P!`), since nothing lies
    /// strictly between them.
    pub fn between(before: &Self, after: &Self) -> (r: Result<Self, FractionalIndexError>)
        ensures
            key_equal(before@, after@) ==> r matches Err(FractionalIndexError::IdenticalIndices),
            !key_equal(before@, after@) ==> (r matches Ok(m) && is_midpoint(
                before@,
                after@,
                m@,
            )),
            key_less(before@, after@) ==> (r matches Ok(m) ==> key_less(before@, m@) && key_less(
                m@,
                after@,
            )),
            key_less(after@, before@) ==> (r matches Ok(m) ==> key_less(after@, m@) && key_less(
                m@,
                before@,
            )),
    {
        proof {
            use_type_invariant(before);
            use_type_invariant(after);
        }
        let same = match compare_keys(before.index.as_str(), after.index.as_str()) {
            Ordering::Equal => true,
            _ => false,
        };
        if same {
            return Err(FractionalIndexError::IdenticalIndices);
        }
        let a = before.index.as_str();
        let b = after.index.as_str();
        let la = a.unicode_len();
        let lb = b.unicode_len();
        let n = if la >= lb {
            la
        } else {
            lb
        };
        let ghost x = positions(a@, n as nat);
        let ghost y = positions(b@, n as nat);
        // The position sequences of both keys, padded to the common length.
        let mut xs: Vec<u32> = Vec::new();
        let mut ys: Vec<u32> = Vec::new();
        let mut i: usize = 0;
        while i < n
            invariant
                i <= n,
                la == a@.len(),
                lb == b@.len(),
                is_key(a@),
                is_key(b@),
                x == positions(a@, n as nat),
                y == positions(b@, n as nat),
                xs@.len() == i,
                ys@.len() == i,
                forall|j: int| 0 <= j < i ==> #[trigger] xs@[j] < 94 && xs@[j] as int == x[j],
                forall|j: int| 0 <= j < i ==> #[trigger] ys@[j] < 94 && ys@[j] as int == y[j],
            decreases n - i,
        {
            let da = position_at(a, la, i);
            let db = position_at(b, lb, i);
            xs.push(da);
            ys.push(db);
            i = i + 1;
        }
        // Digit-wise sum, least significant digit first.
        let mut sum: Vec<u32> = Vec::new();
        let mut i: usize = 0;
        while i < n
            invariant
                i <= n,
                sum@.len() == i,
                forall|j: int| 0 <= j < i ==> sum@[j] == 0,
            decreases n - i,
        {
            sum.push(0);
            i = i + 1;
        }
        let mut carry: u32 = 0;
        let mut k: usize = n;
        while k > 0
            invariant
                k <= n,
                xs@.len() == n,
                ys@.len() == n,
                sum@.len() == n,
                carry <= 1,
                forall|j: int| 0 <= j < n ==> #[trigger] xs@[j] < 94 && xs@[j] as int == x[j],
                forall|j: int| 0 <= j < n ==> #[trigger] ys@[j] < 94 && ys@[j] as int == y[j],
                forall|j: int| k <= j < n ==> #[trigger] sum@[j] < 94,
                x.len() == n,
                y.len() == n,
                number(x.subrange(k as int, n as int)) + number(y.subrange(k as int, n as int))
                    == carry * pow(94, (n - k) as nat) + number(
                    ints(sum@).subrange(k as int, n as int),
                ),
            decreases k,
        {
            k = k - 1;
            let t = xs[k] + ys[k] + carry;
            let ghost old_sum = sum@;
            let ghost c = carry;
            sum[k] = t % BASE;
            carry = t / BASE;
            proof {
                let xk = x.subrange(k as int, n as int);
                let yk = y.subrange(k as int, n as int);
                let sk = ints(sum@).subrange(k as int, n as int);
                assert(xk.skip(1) =~= x.subrange(k + 1, n as int));
                assert(yk.skip(1) =~= y.subrange(k + 1, n as int));
                assert(sk.skip(1) =~= ints(old_sum).subrange(k + 1, n as int));
                lemma_number_cons(xk);
                lemma_number_cons(yk);
                lemma_number_cons(sk);
                lemma_pow_step((n - k) as nat);
                let p = pow(94, (n - k - 1) as nat);
                let nx = number(x.subrange(k + 1, n as int));
                let ny = number(y.subrange(k + 1, n as int));
                let ns = number(ints(old_sum).subrange(k + 1, n as int));
                let tt = t as int;
                assert(tt == xk[0] + yk[0] + c);
                assert(tt == 94 * (carry as int) + sk[0]);
                assert(xk[0] * p + nx + yk[0] * p + ny == (carry as int) * (94 * p) + (sk[0] * p
                    + ns)) by (nonlinear_arith)
                    requires
                        nx + ny == c * p + ns,
                        tt == xk[0] + yk[0] + c,
                        tt == 94 * (carry as int) + sk[0],
                ;
            }
        }
        proof {
            assert(x.subrange(0, n as int) =~= x);
            assert(y.subrange(0, n as int) =~= y);
            assert(ints(sum@).subrange(0, n as int) =~= ints(sum@));
        }
        // Halving, most significant digit first; the top carry leads.
        let ghost top = carry;
        let mut mid: Vec<u32> = Vec::new();
        let mut rem: u32 = carry;
        proof {
            reveal(pow);
            assert(ints(sum@).take(0) =~= Seq::<int>::empty());
            assert(ints(mid@) =~= Seq::<int>::empty());
        }
        let mut i: usize = 0;
        while i < n
            invariant
                i <= n,
                sum@.len() == n,
                forall|j: int| 0 <= j < n ==> #[trigger] sum@[j] < 94,
                mid@.len() == i,
                forall|j: int| 0 <= j < i ==> #[trigger] mid@[j] < 94,
                rem <= 1,
                top <= 1,
                top * pow(94, i as nat) + number(ints(sum@).take(i as int)) == 2 * number(
                    ints(mid@),
                ) + rem,
            decreases n - i,
        {
            let cur = rem * BASE + sum[i];
            let ghost old_mid = mid@;
            let ghost r0 = rem;
            mid.push(cur / 2);
            rem = cur % 2;
            proof {
                assert(ints(mid@).drop_last() =~= ints(old_mid));
                assert(ints(sum@).take(i + 1).drop_last() =~= ints(sum@).take(i as int));
                lemma_pow_step((i + 1) as nat);
                let p = pow(94, i as nat);
                let ns = number(ints(sum@).take(i as int));
                let nm = number(ints(old_mid));
                let si = sum@[i as int] as int;
                let cc = cur as int;
                assert(top * (94 * p) + (ns * 94 + si) == 2 * (nm * 94 + cc / 2) + cc % 2)
                    by (nonlinear_arith)
                    requires
                        top * p + ns == 2 * nm + r0,
                        cc == r0 * 94 + si,
                ;
            }
            i = i + 1;
        }
        let ghost half = ints(mid@);
        proof {
            assert(ints(sum@).take(n as int) =~= ints(sum@));
        }
        if rem == 1 {
            mid.push(47);
        }
        // Back to symbols.
        let mut chars: Vec<char> = Vec::new();
        let mut i: usize = 0;
        while i < mid.len()
            invariant
                i <= mid@.len(),
                chars@.len() == i,
                forall|j: int| 0 <= j < mid@.len() ==> #[trigger] mid@[j] < 94,
                forall|j: int| 0 <= j < i ==> is_symbol(#[trigger] chars@[j]) && (chars@[j] as int) - 33
                    == mid@[j] as int,
            decreases mid@.len() - i,
        {
            let d = mid[i] as u8;
            let c = (d + 33) as char;
            chars.push(c);
            i = i + 1;
        }
        let index = string_from_chars(&chars);
        let r = FractionalIndex { index };
        proof {
            let m = r@;
            let nn = n as nat;
            let va = value_at(a@, nn);
            let vb = value_at(b@, nn);
            let nm = number(half);
            assert(va + vb == 2 * nm + rem);
            assert((2 * nm + rem) % 2 == rem as int);
            assert(m == chars@);
            lemma_value_scale(a@, nn, nn + 1);
            lemma_value_scale(b@, nn, nn + 1);
            lemma_pow_step(1);
            reveal(pow);
            assert(pow(94, 1) == 94);
            assert(((nn + 1) - nn) as nat == 1);
            assert(value_at(a@, nn + 1) == va * 94);
            assert(value_at(b@, nn + 1) == vb * 94);
            if rem == 1 {
                assert(positions(m, nn + 1) =~= ints(mid@));
                assert(ints(mid@).drop_last() =~= half);
                assert(value_at(m, nn + 1) == nm * 94 + 47);
            } else {
                assert(positions(m, nn) =~= half);
                lemma_value_scale(m, nn, nn + 1);
                assert(value_at(m, nn) == nm);
                assert(value_at(m, nn + 1) == nm * 94);
            }
            assert(2 * value_at(m, nn + 1) == value_at(a@, nn + 1) + value_at(b@, nn + 1));
            assert(is_midpoint(a@, b@, m));
            lemma_key_less_value(a@, b@, nn + 1);
            lemma_key_less_value(a@, m, nn + 1);
            lemma_key_less_value(m, b@, nn + 1);
            lemma_key_less_value(b@, a@, nn + 1);
            lemma_key_less_value(b@, m, nn + 1);
            lemma_key_less_value(m, a@, nn + 1);
        }
        Ok(r)
    }

    /// The text of the key.
    pub fn as_str(&self) -> (r: &str)
        ensures
            r@ == self@,
    {
        self.index.as_str()
    }
}

/// Widens a sequence of machine digits to integers.
pub open spec fn ints(v: Seq<u32>) -> Seq<int> {
    Seq::new(v.len(), |i: int| v[i] as int)
}

proof fn lemma_number_cons(d: Seq<int>)
    requires
        d.len() > 0,
    ensures
        number(d) == d[0] * pow(94, (d.len() - 1) as nat) + number(d.skip(1)),
{
    let h = seq![d[0]];
    assert(h + d.skip(1) =~= d);
    lemma_number_concat(h, d.skip(1));
    assert(h.drop_last() =~= Seq::<int>::empty());
    assert(number(h.drop_last()) == 0);
    assert(number(h) == d[0]);
}

/// Alphabet position of character `i` of `s`, or the smallest position past its end.
fn position_at(s: &str, len: usize, i: usize) -> (d: u32)
    requires
        len == s@.len(),
        is_key(s@),
    ensures
        d < 94,
        i < len ==> d as int == (s@[i as int] as int) - 33,
        i >= len ==> d == 0,
{
    if i < len {
        let c = s.get_char(i);
        assert(is_symbol(s@[i as int]));
        (c as u32) - MIN_CHAR
    } else {
        0
    }
}

/// Orders two keys by their padded position sequences.
fn compare_keys(a: &str, b: &str) -> (r: Ordering)
    requires
        is_key(a@),
        is_key(b@),
    ensures
        (r == Ordering::Less) == key_less(a@, b@),
        (r == Ordering::Greater) == key_less(b@, a@),
{
    let la = a.unicode_len();
    let lb = b.unicode_len();
    let n = if la >= lb {
        la
    } else {
        lb
    };
    let ghost x = positions(a@, n as nat);
    let ghost y = positions(b@, n as nat);
    proof {
        lemma_positions_ok(a@, n as nat);
        lemma_positions_ok(b@, n as nat);
        lemma_lex_iff_number(x, y);
        lemma_lex_iff_number(y, x);
    }
    let mut i: usize = 0;
    while i < n
        invariant
            i <= n,
            n == common_len(a@, b@),
            la == a@.len(),
            lb == b@.len(),
            x == positions(a@, n as nat),
            y == positions(b@, n as nat),
            x.take(i as int) == y.take(i as int),
            lex_less(x, y) <==> number(x) < number(y),
            lex_less(y, x) <==> number(y) < number(x),
            is_key(a@),
            is_key(b@),
        decreases n - i,
    {
        let da = position_at(a, la, i);
        let db = position_at(b, lb, i);
        assert(x[i as int] == da as int);
        assert(y[i as int] == db as int);
        if da < db {
            assert(lex_less(x, y));
            return Ordering::Less;
        }
        if da > db {
            assert(lex_less(y, x));
            return Ordering::Greater;
        }
        assert(x.take(i + 1) =~= x.take(i as int).push(x[i as int]));
        assert(y.take(i + 1) =~= y.take(i as int).push(y[i as int]));
        i = i + 1;
    }
    assert(x =~= x.take(n as int));
    assert(y =~= y.take(n as int));
    Ordering::Equal
}

impl Clone for FractionalIndex {
    fn clone(&self) -> (r: Self)
        ensures
            r@ == self@,
    {
        proof {
            use_type_invariant(self);
        }
        FractionalIndex { index: self.index.clone() }
    }
}

impl PartialEq for FractionalIndex {
    /// Equality in the padded order, as `partial_cmp` has it.
    fn eq(&self, other: &Self) -> (r: bool)
        ensures
            r == key_equal(self@, other@),
    {
        proof {
            use_type_invariant(self);
            use_type_invariant(other);
        }
        match compare_keys(self.index.as_str(), other.index.as_str()) {
            Ordering::Equal => true,
            _ => false,
        }
    }
}

impl vstd::std_specs::cmp::PartialEqSpecImpl for FractionalIndex {
    open spec fn obeys_eq_spec() -> bool {
        true
    }

    open spec fn eq_spec(&self, other: &Self) -> bool {
        key_equal(self@, other@)
    }
}

impl PartialOrd for FractionalIndex {
    fn partial_cmp(&self, other: &Self) -> (r: Option<Ordering>) {
        proof {
            use_type_invariant(self);
            use_type_invariant(other);
        }
        Some(compare_keys(self.index.as_str(), other.index.as_str()))
    }
}

impl vstd::std_specs::cmp::PartialOrdSpecImpl for FractionalIndex {
    open spec fn obeys_partial_cmp_spec() -> bool {
        true
    }

    open spec fn partial_cmp_spec(&self, other: &Self) -> Option<Ordering> {
        if key_less(self@, other@) {
            Some(Ordering::Less)
        } else if key_less(other@, self@) {
            Some(Ordering::Greater)
        } else {
            Some(Ordering::Equal)
        }
    }
}

} // verus!
