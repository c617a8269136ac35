//! A plain duration value in whole seconds, and the parser that reads one
//! from a textual interval such as `2 days 3 hours`.
//!
//! The text is ASCII: tokens separated by whitespace, read in pairs of a
//! signed decimal value and a unit word (`day`, `hour`, `minute`, `second`,
//! each also in plural). The pair contributions are summed left to right.

use vstd::prelude::*;

verus! {

/// A signed duration in seconds. Cool-down intervals are stored as values of
/// this type; a textual interval parses into one.
#[derive(Clone, Copy, Debug, PartialEq, Eq, Structural)]
pub struct MyDuration(pub i64);

impl MyDuration {
    /// The number of seconds this duration spans.
    pub fn duration(&self) -> (r: i64)
        ensures
            r == self.0,
    {
        self.0
    }
}

/// Why an interval text was refused.
#[derive(Clone, Copy, Debug, PartialEq, Eq, Structural)]
pub enum IntervalParseError {
    /// A value token is not a signed decimal number that fits.
    BadNumber,
    /// A unit token names no known unit.
    BadUnit,
    /// A trailing value token has no unit after it.
    DanglingValue,
    /// The running total left the range a duration can hold.
    OutOfRange,
}

/// ASCII whitespace: space, tab, line feed, vertical tab, form feed,
/// carriage return.
pub open spec fn is_space(b: u8) -> bool {
    b == 32 || b == 9 || b == 10 || b == 11 || b == 12 || b == 13
}

/// The longest whitespace-free prefix.
pub open spec fn take_token(s: Seq<u8>) -> Seq<u8>
    decreases s.len(),
{
    if s.len() > 0 && !is_space(s[0]) {
        seq![s[0]] + take_token(s.drop_first())
    } else {
        Seq::<u8>::empty()
    }
}

proof fn lemma_take_token_len(s: Seq<u8>)
    ensures
        take_token(s).len() <= s.len(),
        s.len() > 0 && !is_space(s[0]) ==> take_token(s).len() >= 1,
    decreases s.len(),
{
    if s.len() > 0 && !is_space(s[0]) {
        lemma_take_token_len(s.drop_first());
    }
}

/// The whitespace-separated tokens of the text, in order.
pub open spec fn tokenize(s: Seq<u8>) -> Seq<Seq<u8>>
    decreases s.len(),
    via tokenize_decreases
{
    if s.len() == 0 {
        Seq::<Seq<u8>>::empty()
    } else if is_space(s[0]) {
        tokenize(s.drop_first())
    } else {
        seq![take_token(s)] + tokenize(s.skip(take_token(s).len() as int))
    }
}

#[via_fn]
proof fn tokenize_decreases(s: Seq<u8>) {
    if s.len() > 0 && !is_space(s[0]) {
        lemma_take_token_len(s);
    }
}

/// An ASCII decimal digit.
pub open spec fn is_digit(b: u8) -> bool {
    48 <= b <= 57
}

/// The value of a digit string, most significant first.
pub open spec fn digits_val(t: Seq<u8>) -> int
    decreases t.len(),
{
    if t.len() == 0 {
        0
    } else {
        digits_val(t.drop_last()) * 10 + (t.last() - 48)
    }
}

/// The digit part of a value token: everything after an optional leading
/// `+` or `-`.
pub open spec fn token_digits(t: Seq<u8>) -> Seq<u8> {
    if t.len() > 0 && (t[0] == 43 || t[0] == 45) {
        t.drop_first()
    } else {
        t
    }
}

/// Whether a value token is negative: it starts with `-`.
pub open spec fn token_negative(t: Seq<u8>) -> bool {
    t.len() > 0 && t[0] == 45
}

/// A signed decimal number that fits a 64-bit value: an optional sign, then
/// at least one digit, within range.
pub open spec fn valid_int_token(t: Seq<u8>) -> bool {
    let digits = token_digits(t);
    &&& digits.len() >= 1
    &&& forall|i: int| 0 <= i < digits.len() ==> is_digit(#[trigger] digits[i])
    &&& (if token_negative(t) {
        digits_val(digits) <= 0x8000_0000_0000_0000
    } else {
        digits_val(digits) <= 0x7fff_ffff_ffff_ffff
    })
}

/// The value a valid value token denotes.
pub open spec fn int_token_val(t: Seq<u8>) -> int {
    if token_negative(t) {
        -digits_val(token_digits(t))
    } else {
        digits_val(token_digits(t))
    }
}

/// The seconds one unit word stands for, if it names a unit. The words are
/// ASCII `day`, `hour`, `minute`, `second` and their plurals.
pub open spec fn unit_secs(t: Seq<u8>) -> Option<int> {
    if t.len() == 3 && t[0] == 100 && t[1] == 97 && t[2] == 121 {
        Some(86400int)  // day
    } else if t.len() == 4 && t[0] == 100 && t[1] == 97 && t[2] == 121 && t[3] == 115 {
        Some(86400int)  // days
    } else if t.len() == 4 && t[0] == 104 && t[1] == 111 && t[2] == 117 && t[3] == 114 {
        Some(3600int)  // hour
    } else if t.len() == 5 && t[0] == 104 && t[1] == 111 && t[2] == 117 && t[3] == 114 && t[4]
        == 115 {
        Some(3600int)  // hours
    } else if t.len() == 6 && t[0] == 109 && t[1] == 105 && t[2] == 110 && t[3] == 117 && t[4]
        == 116 && t[5] == 101 {
        Some(60int)  // minute
    } else if t.len() == 7 && t[0] == 109 && t[1] == 105 && t[2] == 110 && t[3] == 117 && t[4]
        == 116 && t[5] == 101 && t[6] == 115 {
        Some(60int)  // minutes
    } else if t.len() == 6 && t[0] == 115 && t[1] == 101 && t[2] == 99 && t[3] == 111 && t[4]
        == 110 && t[5] == 100 {
        Some(1int)  // second
    } else if t.len() == 7 && t[0] == 115 && t[1] == 101 && t[2] == 99 && t[3] == 111 && t[4]
        == 110 && t[5] == 100 && t[6] == 115 {
        Some(1int)  // seconds
    } else {
        None
    }
}

/// What reading the token list pair by pair leaves: the accumulated seconds,
/// or the first fault. Each value-unit pair adds its contribution to the
/// running total, which must stay within 64-bit range at every step.
pub open spec fn interval_fold(tokens: Seq<Seq<u8>>, acc: int) -> Result<
    int,
    IntervalParseError,
>
    decreases tokens.len(),
{
    if tokens.len() == 0 {
        Ok(acc)
    } else if tokens.len() == 1 {
        Err(IntervalParseError::DanglingValue)
    } else if !valid_int_token(tokens[0]) {
        Err(IntervalParseError::BadNumber)
    } else {
        match unit_secs(tokens[1]) {
            None => Err(IntervalParseError::BadUnit),
            Some(u) => {
                let acc2 = acc + int_token_val(tokens[0]) * u;
                if acc2 < i64::MIN || acc2 > i64::MAX {
                    Err(IntervalParseError::OutOfRange)
                } else {
                    interval_fold(tokens.skip(2), acc2)
                }
            },
        }
    }
}

/// What an interval text denotes: the seconds of its token pairs, or the
/// first fault in reading them.
pub open spec fn interval_of(s: Seq<u8>) -> Result<int, IntervalParseError> {
    interval_fold(tokenize(s), 0)
}

/// The byte sequences a token list holds.
pub open spec fn views_of(toks: Seq<Vec<u8>>) -> Seq<Seq<u8>> {
    toks.map_values(|t: Vec<u8>| t@)
}

fn is_space_byte(b: u8) -> (r: bool)
    ensures
        r == is_space(b),
{
    b == 32 || b == 9 || b == 10 || b == 11 || b == 12 || b == 13
}

/// A whitespace-free run ending at the text's end or at whitespace is
/// exactly what `take_token` reads.
proof fn lemma_take_token_chars(t: Seq<u8>, k: int)
    requires
        0 <= k <= t.len(),
        forall|m: int| 0 <= m < k ==> !is_space(#[trigger] t[m]),
        k == t.len() || is_space(t[k]),
    ensures
        take_token(t) == t.take(k),
    decreases k,
{
    if k == 0 {
        assert(t.take(0) =~= Seq::<u8>::empty());
    } else {
        let rest = t.drop_first();
        assert forall|m: int| 0 <= m < k - 1 implies !is_space(#[trigger] rest[m]) by {
            assert(rest[m] == t[m + 1]);
        }
        lemma_take_token_chars(rest, k - 1);
        assert(take_token(t) =~= seq![t[0]] + rest.take(k - 1));
        assert(t.take(k) =~= seq![t[0]] + rest.take(k - 1));
    }
}

/// Split the text into its whitespace-separated tokens.
fn tokenize_bytes(s: &[u8]) -> (r: Vec<Vec<u8>>)
    ensures
        views_of(r@) == tokenize(s@),
{
    let n = s.len();
    let mut toks: Vec<Vec<u8>> = Vec::new();
    let mut i: usize = 0;
    proof {
        assert(s@.skip(0) =~= s@);
        assert(views_of(toks@) =~= Seq::<Seq<u8>>::empty());
    }
    while i < n
        invariant
            n == s@.len(),
            i <= n,
            tokenize(s@) == views_of(toks@) + tokenize(s@.skip(i as int)),
        decreases n - i,
    {
        if is_space_byte(s[i]) {
            proof {
                assert(s@.skip(i as int)[0] == s@[i as int]);
                assert(s@.skip(i as int).drop_first() =~= s@.skip(i as int + 1));
            }
            i = i + 1;
        } else {
            let start = i;
            let mut tok: Vec<u8> = Vec::new();
            proof {
                assert(tok@ =~= s@.subrange(start as int, start as int));
            }
            while i < n && !is_space_byte(s[i])
                invariant
                    n == s@.len(),
                    start <= i <= n,
                    start < n,
                    tok@ == s@.subrange(start as int, i as int),
                    forall|m: int| start <= m < i ==> !is_space(#[trigger] s@[m]),
                decreases n - i,
            {
                tok.push(s[i]);
                proof {
                    assert(tok@ =~= s@.subrange(start as int, i as int + 1));
                }
                i = i + 1;
            }
            proof {
                let t = s@.skip(start as int);
                let k = i - start;
                assert forall|m: int| 0 <= m < k implies !is_space(#[trigger] t[m]) by {
                    assert(t[m] == s@[start + m]);
                }
                assert(k == t.len() || is_space(t[k]));
                lemma_take_token_chars(t, k);
                assert(t.take(k) =~= s@.subrange(start as int, i as int));
                assert(take_token(t) == tok@);
                assert(t.skip(take_token(t).len() as int) =~= s@.skip(i as int));
                assert(tokenize(t) == seq![tok@] + tokenize(s@.skip(i as int)));
                let prev = views_of(toks@);
                assert(tokenize(s@) == prev + (seq![tok@] + tokenize(s@.skip(i as int))));
                assert(prev + (seq![tok@] + tokenize(s@.skip(i as int))) =~= (prev + seq![tok@])
                    + tokenize(s@.skip(i as int)));
            }
            let ghost prev = views_of(toks@);
            toks.push(tok);
            proof {
                assert(views_of(toks@) =~= prev + seq![tok@]);
            }
        }
    }
    proof {
        assert(s@.skip(n as int) =~= Seq::<u8>::empty());
        assert(views_of(toks@) =~= views_of(toks@) + tokenize(s@.skip(n as int)));
    }
    toks
}

proof fn lemma_digits_val_nonneg(t: Seq<u8>)
    requires
        forall|m: int| 0 <= m < t.len() ==> is_digit(#[trigger] t[m]),
    ensures
        digits_val(t) >= 0,
    decreases t.len(),
{
    if t.len() > 0 {
        assert forall|m: int| 0 <= m < t.drop_last().len() implies is_digit(
            #[trigger] t.drop_last()[m],
        ) by {
            assert(t.drop_last()[m] == t[m]);
        }
        lemma_digits_val_nonneg(t.drop_last());
    }
}

/// A digit string is worth at least any of its prefixes.
proof fn lemma_digits_val_mono(t: Seq<u8>, k: int)
    requires
        0 <= k <= t.len(),
        forall|m: int| 0 <= m < t.len() ==> is_digit(#[trigger] t[m]),
    ensures
        digits_val(t.take(k)) <= digits_val(t),
    decreases t.len() - k,
{
    if k == t.len() {
        assert(t.take(k) =~= t);
    } else {
        assert(t.take(k + 1).drop_last() =~= t.take(k));
        assert forall|m: int| 0 <= m < t.take(k).len() implies is_digit(
            #[trigger] t.take(k)[m],
        ) by {
            assert(t.take(k)[m] == t[m]);
        }
        lemma_digits_val_nonneg(t.take(k));
        assert(digits_val(t.take(k + 1)) == digits_val(t.take(k)) * 10 + (t[k] - 48));
        lemma_digits_val_mono(t, k + 1);
    }
}

/// Read a signed decimal number, exactly as the value grammar defines it;
/// `None` on any malformed or out-of-range token.
fn parse_i64_bytes(t: &Vec<u8>) -> (r: Option<i64>)
    ensures
        match r {
            Some(v) => valid_int_token(t@) && v == int_token_val(t@),
            None => !valid_int_token(t@),
        },
{
    let n = t.len();
    let has_sign = n > 0 && (t[0] == 43 || t[0] == 45);
    let neg = n > 0 && t[0] == 45;
    let start: usize = if has_sign {
        1
    } else {
        0
    };
    proof {
        assert(token_digits(t@) =~= t@.subrange(start as int, n as int));
    }
    if n == start {
        return None;
    }
    let mut acc: i64 = 0;
    let mut j: usize = start;
    proof {
        assert(t@.subrange(start as int, start as int) =~= Seq::<u8>::empty());
    }
    while j < n
        invariant
            n == t@.len(),
            start <= j <= n,
            start < n,
            token_digits(t@) == t@.subrange(start as int, n as int),
            neg == token_negative(t@),
            forall|m: int| start <= m < j ==> is_digit(#[trigger] t@[m]),
            acc == if neg {
                -digits_val(t@.subrange(start as int, j as int))
            } else {
                digits_val(t@.subrange(start as int, j as int))
            },
        decreases n - j,
    {
        let b = t[j];
        if b < 48 || b > 57 {
            proof {
                assert(!is_digit(token_digits(t@)[j - start]));
            }
            return None;
        }
        let d = (b - 48) as i64;
        let ghost prefix = t@.subrange(start as int, j as int);
        let ghost prefix2 = t@.subrange(start as int, j as int + 1);
        proof {
            assert(prefix2.drop_last() =~= prefix);
            assert(digits_val(prefix2) == digits_val(prefix) * 10 + (t@[j as int] - 48));
        }
        let step = match acc.checked_mul(10) {
            Some(a) => {
                if neg {
                    a.checked_sub(d)
                } else {
                    a.checked_add(d)
                }
            },
            None => None,
        };
        match step {
            Some(a2) => {
                acc = a2;
            },
            None => {
                // The running value left 64-bit range, so the whole token is
                // out of range too — unless a later byte is not a digit, in
                // which case the token is malformed anyway.
                proof {
                    assert forall|m: int| 0 <= m < prefix.len() implies is_digit(
                        #[trigger] prefix[m],
                    ) by {
                        assert(prefix[m] == t@[start + m]);
                    }
                    lemma_digits_val_nonneg(prefix);
                    let dv = digits_val(prefix);
                    if neg {
                        assert(dv * 10 + (t@[j as int] - 48) > 0x8000_0000_0000_0000int);
                    } else {
                        assert(dv * 10 + (t@[j as int] - 48) > 0x7fff_ffff_ffff_ffffint);
                    }
                    let digits = token_digits(t@);
                    if valid_int_token(t@) {
                        assert(digits.take(j - start + 1) =~= prefix2);
                        lemma_digits_val_mono(digits, j - start + 1);
                        assert(false);
                    }
                }
                return None;
            },
        }
        j = j + 1;
    }
    proof {
        assert(t@.subrange(start as int, n as int) =~= token_digits(t@));
        lemma_digits_val_nonneg(token_digits(t@));
    }
    Some(acc)
}

/// Name the unit a token stands for, exactly as the unit table defines it.
fn unit_secs_of(t: &Vec<u8>) -> (r: Option<i64>)
    ensures
        match r {
            Some(u) => unit_secs(t@) == Some(u as int),
            None => unit_secs(t@) is None,
        },
{
    let n = t.len();
    if n == 3 && t[0] == 100 && t[1] == 97 && t[2] == 121 {
        Some(86400)
    } else if n == 4 && t[0] == 100 && t[1] == 97 && t[2] == 121 && t[3] == 115 {
        Some(86400)
    } else if n == 4 && t[0] == 104 && t[1] == 111 && t[2] == 117 && t[3] == 114 {
        Some(3600)
    } else if n == 5 && t[0] == 104 && t[1] == 111 && t[2] == 117 && t[3] == 114 && t[4] == 115 {
        Some(3600)
    } else if n == 6 && t[0] == 109 && t[1] == 105 && t[2] == 110 && t[3] == 117 && t[4] == 116
        && t[5] == 101 {
        Some(60)
    } else if n == 7 && t[0] == 109 && t[1] == 105 && t[2] == 110 && t[3] == 117 && t[4] == 116
        && t[5] == 101 && t[6] == 115 {
        Some(60)
    } else if n == 6 && t[0] == 115 && t[1] == 101 && t[2] == 99 && t[3] == 111 && t[4] == 110
        && t[5] == 100 {
        Some(1)
    } else if n == 7 && t[0] == 115 && t[1] == 101 && t[2] == 99 && t[3] == 111 && t[4] == 110
        && t[5] == 100 && t[6] == 115 {
        Some(1)
    } else {
        None
    }
}

/// Read a textual interval, ASCII value-unit pairs such as `2 days 3
/// hours`, into a duration in seconds. Fails on a malformed value, an
/// unknown unit, a value without a unit, or a running total outside 64-bit
/// range, reporting the first fault.
pub fn parse_postgres_interval(s: &[u8]) -> (r: Result<MyDuration, IntervalParseError>)
    ensures
        match r {
            Ok(d) => interval_of(s@) == Ok::<int, IntervalParseError>(d.0 as int),
            Err(e) => interval_of(s@) == Err::<int, IntervalParseError>(e),
        },
{
    let toks = tokenize_bytes(s);
    let ghost tseq = views_of(toks@);
    let n = toks.len();
    let mut acc: i64 = 0;
    let mut p: usize = 0;
    proof {
        assert(tseq.skip(0) =~= tseq);
    }
    while n - p > 1
        invariant
            tseq == views_of(toks@),
            tseq == tokenize(s@),
            n == toks@.len(),
            p <= n,
            interval_fold(tseq, 0) == interval_fold(tseq.skip(p as int), acc as int),
        decreases n - p,
    {
        proof {
            assert(tseq.skip(p as int)[0] == tseq[p as int]);
            assert(tseq.skip(p as int)[1] == tseq[p as int + 1]);
        }
        let v = match parse_i64_bytes(&toks[p]) {
            Some(v) => v,
            None => {
                proof {
                    assert(tseq[p as int] == toks@[p as int]@);
                    assert(tseq.skip(p as int).len() >= 2);
                    assert(interval_fold(tseq.skip(p as int), acc as int) == Err::<
                        int,
                        IntervalParseError,
                    >(IntervalParseError::BadNumber));
                }
                return Err(IntervalParseError::BadNumber);
            },
        };
        let u = match unit_secs_of(&toks[p + 1]) {
            Some(u) => u,
            None => {
                proof {
                    assert(tseq[p as int] == toks@[p as int]@);
                    assert(tseq[p as int + 1] == toks@[p as int + 1]@);
                    assert(tseq.skip(p as int).len() >= 2);
                    assert(interval_fold(tseq.skip(p as int), acc as int) == Err::<
                        int,
                        IntervalParseError,
                    >(IntervalParseError::BadUnit));
                }
                return Err(IntervalParseError::BadUnit);
            },
        };
        proof {
            assert(u == 86400 || u == 3600 || u == 60 || u == 1);
            assert((v as i128) * (u as i128) == v as int * u as int) by (nonlinear_arith);
            assert(v as int * u as int <= 0x8000_0000_0000_0000int * 86400
                && v as int * u as int >= -0x8000_0000_0000_0000int * 86400) by (nonlinear_arith)
                requires
                    -0x8000_0000_0000_0000 <= v as int <= 0x7fff_ffff_ffff_ffff,
                    1 <= u as int <= 86400,
            ;
        }
        let pair_secs: i128 = (v as i128) * (u as i128);
        let acc2: i128 = (acc as i128) + pair_secs;
        if acc2 < i64::MIN as i128 || acc2 > i64::MAX as i128 {
            return Err(IntervalParseError::OutOfRange);
        }
        acc = acc2 as i64;
        proof {
            assert(tseq.skip(p as int).skip(2) =~= tseq.skip(p as int + 2));
        }
        p = p + 2;
    }
    if p < n {
        proof {
            assert(tseq.skip(p as int).len() == 1);
        }
        return Err(IntervalParseError::DanglingValue);
    }
    proof {
        assert(tseq.skip(p as int).len() == 0);
    }
    Ok(MyDuration(acc))
}

} // verus!
