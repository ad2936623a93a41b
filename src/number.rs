use vstd::prelude::*;

verus! {

/// Why a geometry text was refused.
#[derive(Clone, Copy, Debug, PartialEq, Eq, Structural)]
pub enum ParseError {
    /// A malformed number inside an accepted record.
    Format,
    /// A face refers to a vertex, texture coordinate or normal that does not exist.
    Index,
}

/// Coordinates are held in millionths of a unit.
pub const MICRO: i64 = 1_000_000;

/// The integer part of a coordinate must stay below this bound.
pub const INT_LIMIT: u64 = 1_000_000_000;

/// Every coordinate read lies strictly between `-COORD_LIMIT` and `COORD_LIMIT` millionths.
pub const COORD_LIMIT: i64 = 1_000_000_000_000_000;

pub open spec fn is_digit(c: u8) -> bool {
    48 <= c <= 57
}

pub open spec fn all_digits(s: Seq<u8>) -> bool {
    forall|i: int| 0 <= i < s.len() ==> is_digit(#[trigger] s[i])
}

/// The number written by the decimal digits `s` (most significant first).
pub open spec fn digits_value(s: Seq<u8>) -> int
    decreases s.len(),
{
    if s.len() == 0 {
        0
    } else {
        digits_value(s.drop_last()) * 10 + (s.last() - 48)
    }
}

/// Six zero digits.
pub open spec fn six_zeros() -> Seq<u8> {
    seq![48u8, 48u8, 48u8, 48u8, 48u8, 48u8]
}

/// A fraction's digits read as millionths: the first six digits, padded with
/// zeros; later digits are dropped.
pub open spec fn frac_micro(f: Seq<u8>) -> int {
    digits_value((f + six_zeros()).take(6))
}

/// `body` is `digits '.' digits` with the point at `d`.
pub open spec fn dot_at(body: Seq<u8>, d: int) -> bool {
    0 <= d < body.len() && body[d] == 46 && all_digits(body.take(d)) && all_digits(body.skip(d + 1))
}

/// The integer and fraction digits of an unsigned decimal, if `body` is one.
pub open spec fn decimal_parts(body: Seq<u8>) -> Option<(Seq<u8>, Seq<u8>)> {
    if all_digits(body) {
        Some((body, Seq::empty()))
    } else if exists|d: int| dot_at(body, d) {
        let d = choose|d: int| dot_at(body, d);
        Some((body.take(d), body.skip(d + 1)))
    } else {
        None
    }
}

/// The unsigned part of a numeric token, after an optional sign.
pub open spec fn unsigned_part(tok: Seq<u8>) -> Seq<u8> {
    if tok.len() > 0 && (tok[0] == 45 || tok[0] == 43) {
        tok.skip(1)
    } else {
        tok
    }
}

/// The letter `e` or `E`, which introduces a decimal exponent.
pub open spec fn is_exp_mark(c: u8) -> bool {
    c == 101 || c == 69
}

/// The largest exponent magnitude accepted.
pub const EXP_LIMIT: i64 = 99;

/// `n` zero digits.
pub open spec fn zeros(n: int) -> Seq<u8> {
    Seq::new(n as nat, |i: int| 48u8)
}

/// The integer digits of the digit string `s` with its point placed after
/// `p` digits (padding with zeros when `p` passes the end).
pub open spec fn int_digits(s: Seq<u8>, p: int) -> Seq<u8> {
    if p <= 0 {
        Seq::empty()
    } else if p <= s.len() {
        s.take(p)
    } else {
        s + zeros(p - s.len())
    }
}

/// The fraction digits of `s` with its point placed after `p` digits
/// (leading zeros when `p` is negative).
pub open spec fn frac_digits(s: Seq<u8>, p: int) -> Seq<u8> {
    if p <= 0 {
        zeros(-p) + s
    } else if p <= s.len() {
        s.skip(p)
    } else {
        Seq::empty()
    }
}

/// The value of an exponent: an optional sign and digits, at most `EXP_LIMIT`.
pub open spec fn exponent_value(x: Seq<u8>) -> Option<int> {
    let b = unsigned_part(x);
    if b.len() == 0 || !all_digits(b) || digits_value(b) > EXP_LIMIT {
        None
    } else {
        Some(
            if x[0] == 45 {
                -digits_value(b)
            } else {
                digits_value(b)
            },
        )
    }
}

/// The value in millionths of the signed decimal `m` times ten to the `e`:
/// digits, an optional point and more digits, at least one digit in all;
/// the point is moved `e` places, digits past the sixth decimal place are
/// dropped, and the integer part must stay below `INT_LIMIT`.
pub open spec fn mantissa_value(m: Seq<u8>, e: int) -> Option<int> {
    let neg = m.len() > 0 && m[0] == 45;
    match decimal_parts(unsigned_part(m)) {
        None => None,
        Some((ip, fp)) => {
            let s = ip + fp;
            let id = int_digits(s, ip.len() + e);
            let fd = frac_digits(s, ip.len() + e);
            if s.len() == 0 || digits_value(id) >= INT_LIMIT {
                None
            } else {
                let v = digits_value(id) * MICRO + frac_micro(fd);
                Some(
                    if neg {
                        -v
                    } else {
                        v
                    },
                )
            }
        },
    }
}

/// The value of a numeric token in millionths: a signed decimal, optionally
/// followed by `e` or `E` and an exponent. Anything else is no number.
pub open spec fn number_value(tok: Seq<u8>) -> Option<int> {
    if exists|q: int| 0 <= q < tok.len() && is_exp_mark(#[trigger] tok[q]) {
        let q = choose|q: int| 0 <= q < tok.len() && is_exp_mark(#[trigger] tok[q]);
        match exponent_value(tok.skip(q + 1)) {
            None => None,
            Some(e) => mantissa_value(tok.take(q), e),
        }
    } else {
        mantissa_value(tok, 0)
    }
}

/// A 1-based reference to one of `count` entries, as a 0-based position.
pub open spec fn index_value(tok: Seq<u8>, count: nat) -> Result<usize, ParseError> {
    if tok.len() == 0 || !all_digits(tok) {
        Err(ParseError::Format)
    } else if digits_value(tok) == 0 || digits_value(tok) > count {
        Err(ParseError::Index)
    } else {
        Ok((digits_value(tok) - 1) as usize)
    }
}

proof fn lemma_digits_nonneg(s: Seq<u8>)
    requires
        all_digits(s),
    ensures
        digits_value(s) >= 0,
    decreases s.len(),
{
    if s.len() > 0 {
        assert(all_digits(s.drop_last()));
        lemma_digits_nonneg(s.drop_last());
    }
}

/// Among digit strings, a longer prefix never reads as a smaller number.
proof fn lemma_digits_prefix_monotone(s: Seq<u8>, j: int, k: int)
    requires
        all_digits(s),
        0 <= j <= k <= s.len(),
    ensures
        digits_value(s.take(j)) <= digits_value(s.take(k)),
    decreases k - j,
{
    if j < k {
        lemma_digits_prefix_monotone(s, j, k - 1);
        assert(s.take(k).drop_last() =~= s.take(k - 1));
        assert(all_digits(s.take(k - 1)));
        lemma_digits_nonneg(s.take(k - 1));
    }
}

/// Whether `s[lo..hi]` is all decimal digits.
fn digits_between(s: &[u8], lo: usize, hi: usize) -> (r: bool)
    requires
        lo <= hi <= s@.len(),
    ensures
        r == all_digits(s@.subrange(lo as int, hi as int)),
{
    let mut i = lo;
    while i < hi
        invariant
            lo <= i <= hi <= s@.len(),
            all_digits(s@.subrange(lo as int, i as int)),
        decreases hi - i,
    {
        if s[i] < 48 || s[i] > 57 {
            assert(s@.subrange(lo as int, hi as int)[i - lo] == s@[i as int]);
            return false;
        }
        i = i + 1;
    }
    true
}

/// The value of the digits `s[lo..hi]` if it is below `cap`.
fn digits_below(s: &[u8], lo: usize, hi: usize, cap: u64) -> (r: Option<u64>)
    requires
        lo <= hi <= s@.len(),
        all_digits(s@.subrange(lo as int, hi as int)),
        0 < cap < 0x1000_0000_0000_0000,
    ensures
        r matches Some(v) ==> v < cap,
        digits_value(s@.subrange(lo as int, hi as int)) < cap ==> r == Some(
            digits_value(s@.subrange(lo as int, hi as int)) as u64,
        ),
        digits_value(s@.subrange(lo as int, hi as int)) >= cap ==> r is None,
{
    let ghost t = s@.subrange(lo as int, hi as int);
    let mut acc: u64 = 0;
    let mut i = lo;
    while i < hi
        invariant
            lo <= i <= hi <= s@.len(),
            t == s@.subrange(lo as int, hi as int),
            all_digits(t),
            0 < cap < 0x1000_0000_0000_0000,
            acc == digits_value(t.take(i - lo)),
            acc < cap,
        decreases hi - i,
    {
        assert(t.take(i + 1 - lo).drop_last() =~= t.take(i - lo));
        assert(t[i - lo] == s@[i as int]);
        acc = acc * 10 + (s[i] - 48) as u64;
        if acc >= cap {
            proof {
                lemma_digits_prefix_monotone(t, i + 1 - lo, t.len() as int);
                assert(t.take(t.len() as int) =~= t);
            }
            return None;
        }
        i = i + 1;
    }
    assert(t.take(hi - lo) =~= t);
    Some(acc)
}

/// The millionths written by the fraction digits `s[lo..hi]`.
fn frac_between(s: &[u8], lo: usize, hi: usize) -> (r: u64)
    requires
        lo <= hi <= s@.len(),
        all_digits(s@.subrange(lo as int, hi as int)),
    ensures
        r == frac_micro(s@.subrange(lo as int, hi as int)),
        r < MICRO,
{
    let ghost f = s@.subrange(lo as int, hi as int);
    let ghost p = (f + six_zeros()).take(6);
    let mut acc: u64 = 0;
    let mut j: usize = 0;
    while j < 6
        invariant
            lo <= hi <= s@.len(),
            f == s@.subrange(lo as int, hi as int),
            all_digits(f),
            p == (f + six_zeros()).take(6),
            j <= 6,
            acc == digits_value(p.take(j as int)),
            acc < pow10_small(j as nat),
        decreases 6 - j,
    {
        assert(p.take(j + 1).drop_last() =~= p.take(j as int));
        let d: u8 = if j < hi - lo {
            s[lo + j]
        } else {
            48
        };
        assert(p[j as int] == d);
        assert(pow10_small((j + 1) as nat) == 10 * pow10_small(j as nat));
        assert(pow10_small(j as nat) <= 100000) by {
            reveal_with_fuel(pow10_small, 7);
            if j == 0 {
            } else if j == 1 {
            } else if j == 2 {
            } else if j == 3 {
            } else if j == 4 {
            } else {
            }
        }
        acc = acc * 10 + (d - 48) as u64;
        j = j + 1;
    }
    proof {
        reveal_with_fuel(pow10_small, 7);
        assert(p.take(6) =~= p);
    }
    acc
}

/// Ten to the power `n`, for the few small powers used here.
pub open spec fn pow10_small(n: nat) -> int
    decreases n,
{
    if n == 0 {
        1
    } else {
        10 * pow10_small((n - 1) as nat)
    }
}

/// Where the integer and fraction digits of a signed decimal lie.
#[verifier::rlimit(40)]
fn mantissa_parts(tok: &[u8]) -> (r: Option<(usize, usize, usize)>)
    ensures
        decimal_parts(unsigned_part(tok@)) is None ==> r is None,
        decimal_parts(unsigned_part(tok@)) matches Some((ip, fp)) ==> (ip.len() + fp.len() == 0
            <==> r is None),
        r matches Some((a, b, c)) ==> a <= b <= c <= tok@.len() && decimal_parts(
            unsigned_part(tok@),
        ) == Some((tok@.subrange(a as int, b as int), tok@.subrange(c as int, tok@.len() as int))),
{
    let n = tok.len();
    let start: usize = if n > 0 && (tok[0] == 45 || tok[0] == 43) {
        1
    } else {
        0
    };
    let ghost body = unsigned_part(tok@);
    assert(body =~= tok@.subrange(start as int, n as int));
    // the first point, if any
    let mut d = start;
    while d < n && tok[d] != 46
        invariant
            start <= d <= n == tok@.len(),
            forall|j: int| start <= j < d ==> tok@[j] != 46,
        decreases n - d,
    {
        d = d + 1;
    }
    let (ip_end, fp_start) = if d < n {
        (d, d + 1)
    } else {
        (n, n)
    };
    if !digits_between(tok, start, ip_end) || !digits_between(tok, fp_start, n) {
        proof {
            assert(!all_digits(body)) by {
                if d < n {
                    assert(body[d - start] == 46);
                } else {
                    assert(tok@.subrange(start as int, ip_end as int) =~= body);
                }
            }
            assert forall|e: int| !dot_at(body, e) by {
                if dot_at(body, e) {
                    if e + start < d {
                        assert(tok@[e + start] == 46);
                    } else if e + start > d {
                        assert(body.take(e)[d - start] == 46);
                    } else {
                        assert(tok@.subrange(start as int, ip_end as int) =~= body.take(e));
                        assert(tok@.subrange(fp_start as int, n as int) =~= body.skip(e + 1));
                    }
                }
            }
        }
        return None;
    }
    let ghost ip = tok@.subrange(start as int, ip_end as int);
    let ghost fp = tok@.subrange(fp_start as int, n as int);
    proof {
        if d < n {
            assert(ip =~= body.take(d - start));
            assert(fp =~= body.skip(d - start + 1));
            assert(dot_at(body, d - start));
            assert(!all_digits(body)) by {
                assert(body[d - start] == 46);
            }
            let e = choose|e: int| dot_at(body, e);
            if e != d - start {
                if e + start < d {
                    assert(tok@[e + start] == 46);
                } else {
                    assert(body.take(e)[d - start] == 46);
                }
            }
        } else {
            assert(ip =~= body);
            assert(fp =~= Seq::<u8>::empty());
        }
        assert(decimal_parts(body) == Some((ip, fp)));
    }
    if ip_end - start + (n - fp_start) == 0 {
        return None;
    }
    Some((start, ip_end, fp_start))
}

/// Appends `s[lo..hi]` to `v`.
fn push_range(v: &mut Vec<u8>, s: &[u8], lo: usize, hi: usize)
    requires
        lo <= hi <= s@.len(),
    ensures
        final(v)@ == old(v)@ + s@.subrange(lo as int, hi as int),
{
    let ghost start = v@;
    let mut i = lo;
    while i < hi
        invariant
            lo <= i <= hi <= s@.len(),
            v@ == start + s@.subrange(lo as int, i as int),
        decreases hi - i,
    {
        v.push(s[i]);
        assert(start + s@.subrange(lo as int, i + 1) =~= (start + s@.subrange(lo as int, i as int)).push(s@[i as int]));
        i = i + 1;
    }
}

/// Appends `n` zero digits to `v`.
fn push_zeros(v: &mut Vec<u8>, n: usize)
    ensures
        final(v)@ == old(v)@ + zeros(n as int),
{
    let ghost start = v@;
    let mut i: usize = 0;
    while i < n
        invariant
            i <= n,
            v@ == start + zeros(i as int),
        decreases n - i,
    {
        v.push(48);
        assert(start + zeros(i + 1) =~= (start + zeros(i as int)).push(48u8));
        i = i + 1;
    }
}

proof fn lemma_mark_spoils_decimal(body: Seq<u8>, j: int)
    requires
        0 <= j < body.len(),
        is_exp_mark(body[j]),
    ensures
        decimal_parts(body) is None,
{
    assert(!all_digits(body));
    assert forall|d: int| !dot_at(body, d) by {
        if dot_at(body, d) {
            if j < d {
                assert(body.take(d)[j] == body[j]);
            } else if j > d {
                assert(body.skip(d + 1)[j - d - 1] == body[j]);
            }
        }
    }
}

proof fn lemma_mark_spoils_mantissa(m: Seq<u8>, j: int, e: int)
    requires
        0 <= j < m.len(),
        is_exp_mark(m[j]),
    ensures
        mantissa_value(m, e) is None,
{
    let u = unsigned_part(m);
    if m.len() > 0 && (m[0] == 45 || m[0] == 43) {
        assert(u[j - 1] == m[j]);
        lemma_mark_spoils_decimal(u, j - 1);
    } else {
        lemma_mark_spoils_decimal(u, j);
    }
}

proof fn lemma_parts_are_digits(body: Seq<u8>)
    requires
        decimal_parts(body) is Some,
    ensures
        decimal_parts(body) matches Some((ip, fp)) ==> all_digits(ip) && all_digits(fp),
{
    if !all_digits(body) {
        let d = choose|d: int| dot_at(body, d);
        assert(dot_at(body, d));
    }
}

/// The exponent written in `tok[lo..]`.
fn exponent_of(tok: &[u8], lo: usize) -> (r: Option<i64>)
    requires
        lo <= tok@.len(),
    ensures
        exponent_value(tok@.subrange(lo as int, tok@.len() as int)) matches Some(e) ==> r == Some(
            e as i64,
        ),
        exponent_value(tok@.subrange(lo as int, tok@.len() as int)) is None ==> r is None,
        exponent_value(tok@.subrange(lo as int, tok@.len() as int)) matches Some(e) ==> -EXP_LIMIT
            <= e <= EXP_LIMIT,
        r matches Some(e) ==> -EXP_LIMIT <= e <= EXP_LIMIT,
{
    let n = tok.len();
    let ghost x = tok@.subrange(lo as int, n as int);
    let neg = lo < n && tok[lo] == 45;
    let start = if lo < n && (tok[lo] == 45 || tok[lo] == 43) {
        lo + 1
    } else {
        lo
    };
    assert(unsigned_part(x) =~= tok@.subrange(start as int, n as int));
    proof {
        if all_digits(unsigned_part(x)) {
            lemma_digits_nonneg(unsigned_part(x));
        }
    }
    if start == n || !digits_between(tok, start, n) {
        return None;
    }
    match digits_below(tok, start, n, 100) {
        None => None,
        Some(v) => {
            proof {
                lemma_digits_nonneg(unsigned_part(x));
            }
            if v > 99 {
                None
            } else if neg {
                assert(x[0] == 45);
                Some(-(v as i64))
            } else {
                Some(v as i64)
            }
        },
    }
}

/// The millionths written by the signed decimal `m` times ten to the `e`.
#[verifier::rlimit(40)]
fn mantissa_number(m: &[u8], e: i64) -> (r: Result<i64, ParseError>)
    requires
        -EXP_LIMIT <= e <= EXP_LIMIT,
    ensures
        mantissa_value(m@, e as int) matches Some(v) ==> r == Ok::<i64, ParseError>(v as i64),
        mantissa_value(m@, e as int) is None ==> r == Err::<i64, ParseError>(ParseError::Format),
        r matches Ok(v) ==> -COORD_LIMIT < v < COORD_LIMIT,
{
    let (a, b, c) = match mantissa_parts(m) {
        Some(t) => t,
        None => {
            return Err(ParseError::Format);
        },
    };
    let n = m.len();
    let neg = n > 0 && m[0] == 45;
    let ghost ip = m@.subrange(a as int, b as int);
    let ghost fp = m@.subrange(c as int, n as int);
    proof {
        lemma_parts_are_digits(unsigned_part(m@));
    }
    let mut s: Vec<u8> = Vec::new();
    push_range(&mut s, m, a, b);
    push_range(&mut s, m, c, n);
    assert(s@ =~= ip + fp);
    assert(all_digits(s@));
    let p: i128 = (b - a) as i128 + e as i128;
    let len = s.len();
    let mut id: Vec<u8> = Vec::new();
    let mut fd: Vec<u8> = Vec::new();
    if p <= 0 {
        push_zeros(&mut fd, (-p) as usize);
        push_range(&mut fd, s.as_slice(), 0, len);
        assert(s@.subrange(0, len as int) =~= s@);
    } else if p <= len as i128 {
        push_range(&mut id, s.as_slice(), 0, p as usize);
        push_range(&mut fd, s.as_slice(), p as usize, len);
        assert(s@.subrange(0, p as int) =~= s@.take(p as int));
        assert(s@.subrange(p as int, len as int) =~= s@.skip(p as int));
    } else {
        push_range(&mut id, s.as_slice(), 0, len);
        push_zeros(&mut id, (p - len as i128) as usize);
        assert(s@.subrange(0, len as int) =~= s@);
    }
    let ghost pp = ip.len() + e;
    assert(id@ =~= int_digits(s@, pp));
    assert(fd@ =~= frac_digits(s@, pp));
    assert(all_digits(id@));
    assert(all_digits(fd@));
    assert(id@.subrange(0, id@.len() as int) =~= id@);
    assert(fd@.subrange(0, fd@.len() as int) =~= fd@);
    let int_part = match digits_below(id.as_slice(), 0, id.len(), INT_LIMIT) {
        Some(v) => v,
        None => {
            return Err(ParseError::Format);
        },
    };
    let frac = frac_between(fd.as_slice(), 0, fd.len());
    proof {
        lemma_digits_nonneg(id@);
    }
    Ok(micro_value(int_part, frac, neg))
}

/// Reads a signed decimal token, with an optional exponent, as millionths of
/// a unit.
pub fn parse_number(tok: &[u8]) -> (r: Result<i64, ParseError>)
    ensures
        number_value(tok@) is Some ==> r == Ok::<i64, ParseError>(number_value(tok@)->0 as i64),
        number_value(tok@) is None ==> r == Err::<i64, ParseError>(ParseError::Format),
        r matches Ok(v) ==> -COORD_LIMIT < v < COORD_LIMIT,
{
    let n = tok.len();
    let mut q: usize = 0;
    while q < n && tok[q] != 101 && tok[q] != 69
        invariant
            q <= n == tok@.len(),
            forall|j: int| 0 <= j < q ==> !is_exp_mark(#[trigger] tok@[j]),
        decreases n - q,
    {
        q = q + 1;
    }
    if q == n {
        assert(tok@.subrange(0, n as int) =~= tok@);
        return mantissa_number(tok, 0);
    }
    let mut j = q + 1;
    while j < n && tok[j] != 101 && tok[j] != 69
        invariant
            q < j <= n == tok@.len(),
            forall|i: int| q < i < j ==> !is_exp_mark(#[trigger] tok@[i]),
        decreases n - j,
    {
        j = j + 1;
    }
    if j < n {
        proof {
            assert(is_exp_mark(tok@[q as int]));
            let k = choose|k: int| 0 <= k < tok@.len() && is_exp_mark(#[trigger] tok@[k]);
            if k == q {
                let x = tok@.skip(q + 1);
                let b = unsigned_part(x);
                if x.len() > 0 && (x[0] == 45 || x[0] == 43) {
                    assert(b[j - q - 2] == tok@[j as int]);
                } else {
                    assert(b[j - q - 1] == tok@[j as int]);
                }
            } else {
                let mq = tok@.take(k);
                if k > q {
                    assert(mq[q as int] == tok@[q as int]);
                    lemma_mark_spoils_mantissa(mq, q as int, 0);
                    if let Some(e) = exponent_value(tok@.skip(k + 1)) {
                        lemma_mark_spoils_mantissa(mq, q as int, e);
                    }
                }
            }
        }
        return Err(ParseError::Format);
    }
    let mut mant: Vec<u8> = Vec::new();
    push_range(&mut mant, tok, 0, q);
    proof {
        assert(is_exp_mark(tok@[q as int]));
        let k = choose|k: int| 0 <= k < tok@.len() && is_exp_mark(#[trigger] tok@[k]);
        assert(k == q);
        assert(mant@ =~= tok@.take(q as int));
        assert(tok@.subrange(q + 1, n as int) =~= tok@.skip(q + 1));
        assert(number_value(tok@) == match exponent_value(tok@.skip(q + 1)) {
            None => None,
            Some(e) => mantissa_value(tok@.take(q as int), e),
        });
    }
    match exponent_of(tok, q + 1) {
        None => Err(ParseError::Format),
        Some(e) => mantissa_number(mant.as_slice(), e),
    }
}

/// Millionths from an integer part and a fraction in millionths.
fn micro_value(int_part: u64, frac: u64, neg: bool) -> (r: i64)
    requires
        int_part < INT_LIMIT,
        frac < MICRO,
    ensures
        r == (if neg {
            -(int_part * MICRO + frac)
        } else {
            int_part * MICRO + frac
        }),
        -COORD_LIMIT < r < COORD_LIMIT,
{
    let m: i64 = (int_part * 1_000_000 + frac) as i64;
    if neg {
        -m
    } else {
        m
    }
}

/// Reads a 1-based reference to one of `count` entries as a 0-based position.
pub fn parse_index(tok: &[u8], count: usize) -> (r: Result<usize, ParseError>)
    ensures
        r == index_value(tok@, count as nat),
        r matches Ok(k) ==> k < count,
{
    let n = tok.len();
    if n == 0 || !digits_between(tok, 0, n) {
        proof {
            if n > 0 {
                assert(tok@.subrange(0, n as int) =~= tok@);
            }
        }
        return Err(ParseError::Format);
    }
    assert(tok@.subrange(0, n as int) =~= tok@);
    let mut acc: u128 = 0;
    let mut i: usize = 0;
    while i < n
        invariant
            i <= n == tok@.len(),
            all_digits(tok@),
            acc == digits_value(tok@.take(i as int)),
            acc <= count,
        decreases n - i,
    {
        assert(tok@.take(i + 1).drop_last() =~= tok@.take(i as int));
        acc = acc * 10 + (tok[i] - 48) as u128;
        if acc > count as u128 {
            proof {
                lemma_digits_prefix_monotone(tok@, i + 1, n as int);
                assert(tok@.take(n as int) =~= tok@);
            }
            return Err(ParseError::Index);
        }
        i = i + 1;
    }
    assert(tok@.take(n as int) =~= tok@);
    if acc == 0 {
        return Err(ParseError::Index);
    }
    Ok((acc - 1) as usize)
}

} // verus!

verus! {

/// An exact rational `num / den`, with `den > 0` wherever the library builds one.
#[derive(Clone, Copy, Debug, PartialEq, Eq, Structural)]
pub struct Ratio {
    pub num: i128,
    pub den: i128,
}

} // verus!
