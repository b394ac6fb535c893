use vstd::prelude::*;
use vstd::string::StrSliceExecFns;

verus! {

/// Largest magnitude, in cents, that a single amount may have.
///
/// Amounts are held as whole cents; this bound plays the part of
/// "finite" for a decimal amount and keeps every total exact.
pub const MAX_AMOUNT: i64 = 1_000_000_000_000_000;

/// Errors that the ledger reports.
#[derive(Debug, Clone, Copy, PartialEq, Eq, Structural)]
pub enum LedgerError {
    /// An amount was not a valid number, or lies outside the allowed range.
    InvalidAmount,
    /// Persisted data exists but does not describe a valid ledger.
    CorruptState,
    /// The copy of the previous state could not be made before a save.
    BackupFailure,
    /// An underlying read or write failed.
    IOFailure,
}

/// An amount, in cents, that the ledger accepts.
pub open spec fn valid_amount(a: int) -> bool {
    -MAX_AMOUNT <= a <= MAX_AMOUNT
}

/// Accepts `a` when it is a valid amount, and rejects it otherwise.
pub fn check_amount(a: i64) -> (r: Result<i64, LedgerError>)
    ensures
        valid_amount(a as int) ==> r == Ok::<i64, LedgerError>(a),
        !valid_amount(a as int) ==> r == Err::<i64, LedgerError>(LedgerError::InvalidAmount),
{
    if -MAX_AMOUNT <= a && a <= MAX_AMOUNT {
        Ok(a)
    } else {
        Err(LedgerError::InvalidAmount)
    }
}

/// `c` is a decimal digit.
pub open spec fn is_digit(c: char) -> bool {
    '0' <= c && c <= '9'
}

/// Every character of `s` is a decimal digit.
pub open spec fn all_digits(s: Seq<char>) -> bool {
    forall|i: int| 0 <= i < s.len() ==> is_digit(#[trigger] s[i])
}

/// The value of the decimal digits `s`; zero for no digits.
pub open spec fn digits_value(s: Seq<char>) -> int
    decreases s.len(),
{
    if s.len() == 0 {
        0
    } else {
        digits_value(s.drop_last()) * 10 + (s.last() as int - '0' as int)
    }
}

/// Where the whole part of an unsigned amount ends: before a `.` that is
/// followed by one or two characters, else at the end.
pub open spec fn whole_end(b: Seq<char>) -> int {
    if b.len() >= 3 && b[b.len() - 2] == '.' {
        b.len() - 2
    } else if b.len() >= 4 && b[b.len() - 3] == '.' {
        b.len() - 3
    } else {
        b.len() as int
    }
}

/// The characters after the `.` of an unsigned amount, if any.
pub open spec fn fraction_of(b: Seq<char>) -> Seq<char> {
    if whole_end(b) == b.len() {
        Seq::empty()
    } else {
        b.subrange(whole_end(b) + 1, b.len() as int)
    }
}

/// The value in cents of an unsigned amount written as one or more digits,
/// optionally followed by `.` and one or two digits; `None` for any other text.
pub open spec fn unsigned_cents(b: Seq<char>) -> Option<int> {
    let w = b.take(whole_end(b));
    let f = fraction_of(b);
    if w.len() > 0 && all_digits(w) && all_digits(f) {
        Some(digits_value(w) * 100 + digits_value(f) * if f.len() == 1 { 10int } else { 1int })
    } else {
        None
    }
}

/// The value in cents of an amount written as an unsigned amount with an
/// optional leading `-`; `None` for any other text.
pub open spec fn amount_text(s: Seq<char>) -> Option<int> {
    if s.len() > 0 && s[0] == '-' {
        match unsigned_cents(s.drop_first()) {
            Some(v) => Some(-v),
            None => None,
        }
    } else {
        unsigned_cents(s)
    }
}

proof fn lemma_digits_step(s: Seq<char>, k: int)
    requires
        0 <= k < s.len(),
    ensures
        digits_value(s.take(k + 1)) == digits_value(s.take(k)) * 10 + (s[k] as int - '0' as int),
{
    assert(s.take(k + 1).drop_last() =~= s.take(k));
}

proof fn lemma_digits_nonneg(s: Seq<char>)
    requires
        all_digits(s),
    ensures
        digits_value(s) >= 0,
    decreases s.len(),
{
    if s.len() > 0 {
        let t = s.drop_last();
        assert(all_digits(t)) by {
            assert forall|i: int| 0 <= i < t.len() implies is_digit(#[trigger] t[i]) by {
                assert(t[i] == s[i]);
            }
        }
        lemma_digits_nonneg(t);
        assert(is_digit(s[s.len() - 1]));
    }
}

/// A prefix of a run of digits is worth no more than the whole run.
proof fn lemma_digits_prefix(s: Seq<char>, k: int)
    requires
        all_digits(s),
        0 <= k <= s.len(),
    ensures
        digits_value(s.take(k)) <= digits_value(s),
    decreases s.len() - k,
{
    if k < s.len() {
        lemma_digits_step(s, k);
        let p = s.take(k);
        assert(all_digits(p)) by {
            assert forall|i: int| 0 <= i < p.len() implies is_digit(#[trigger] p[i]) by {
                assert(p[i] == s[i]);
            }
        }
        lemma_digits_nonneg(p);
        assert(is_digit(s[k]));
        lemma_digits_prefix(s, k + 1);
    } else {
        assert(s.take(k) =~= s);
    }
}

/// Reads the digits `c[from..to]`; `None` when one is not a digit or their
/// value exceeds `MAX_AMOUNT`.
fn read_digits(c: &Vec<char>, from: usize, to: usize) -> (r: Option<i64>)
    requires
        from <= to <= c@.len(),
    ensures
        r matches Some(v) ==> all_digits(c@.subrange(from as int, to as int))
            && v == digits_value(c@.subrange(from as int, to as int)) && 0 <= v <= MAX_AMOUNT,
        r is None ==> !all_digits(c@.subrange(from as int, to as int))
            || digits_value(c@.subrange(from as int, to as int)) > MAX_AMOUNT,
{
    let ghost d = c@.subrange(from as int, to as int);
    let mut acc: i64 = 0;
    let mut i: usize = from;
    while i < to
        invariant
            from <= i <= to <= c@.len(),
            d == c@.subrange(from as int, to as int),
            all_digits(d.take(i - from)),
            acc == digits_value(d.take(i - from)),
            0 <= acc <= MAX_AMOUNT,
        decreases to - i,
    {
        let ch = c[i];
        let ghost k = i - from;
        assert(d[k as int] == ch);
        if !('0' <= ch && ch <= '9') {
            assert(!is_digit(d[k as int]));
            return None;
        }
        proof {
            lemma_digits_step(d, k as int);
            assert forall|j: int| 0 <= j < k + 1 implies is_digit(#[trigger] d.take(k + 1)[j]) by {
                if j < k {
                    assert(d.take(k + 1)[j] == d.take(k as int)[j]);
                }
            }
        }
        let digit: i64 = (ch as u32 - '0' as u32) as i64;
        acc = acc * 10 + digit;
        i = i + 1;
        if acc > MAX_AMOUNT {
            proof {
                if all_digits(d) {
                    lemma_digits_prefix(d, k + 1);
                }
            }
            return None;
        }
    }
    assert(d.take(to - from) =~= d);
    Some(acc)
}

/// One or two digits are worth at most 99.
proof fn lemma_short_digits(f: Seq<char>)
    requires
        all_digits(f),
        f.len() <= 2,
    ensures
        0 <= digits_value(f) <= 99,
{
    if f.len() == 2 {
        let g = f.drop_last();
        assert(g.drop_last() =~= Seq::<char>::empty());
        assert(g.last() == f[0]);
        assert(f.last() == f[1]);
        assert(digits_value(g.drop_last()) == 0);
        assert(digits_value(g) == f[0] as int - '0' as int);
        assert(digits_value(f) == digits_value(g) * 10 + (f[1] as int - '0' as int));
        assert(is_digit(f[0]) && is_digit(f[1]));
        assert('0' as int <= f[0] as int <= '9' as int);
        assert('0' as int <= f[1] as int <= '9' as int);
    } else if f.len() == 1 {
        assert(f.drop_last() =~= Seq::<char>::empty());
        assert(digits_value(f.drop_last()) == 0);
        assert(f.last() == f[0]);
        assert(is_digit(f[0]));
        assert('0' as int <= f[0] as int <= '9' as int);
    } else {
        assert(f.len() == 0);
    }
}

/// Reads the unsigned amount `c[start..]` into cents; `None` when it is not
/// one, or when its whole part exceeds `MAX_AMOUNT`.
fn parse_unsigned(c: &Vec<char>, start: usize) -> (r: Option<i64>)
    requires
        start <= c@.len(),
    ensures
        r matches Some(v) ==> unsigned_cents(c@.subrange(start as int, c@.len() as int)) == Some(v as int)
            && 0 <= v,
        r is None ==> match unsigned_cents(c@.subrange(start as int, c@.len() as int)) {
            Some(v) => v > MAX_AMOUNT,
            None => true,
        },
{
    let ghost b = c@.subrange(start as int, c@.len() as int);
    let n = c.len();
    let len = n - start;
    let end: usize = if len >= 3 && c[n - 2] == '.' {
        n - 2
    } else if len >= 4 && c[n - 3] == '.' {
        n - 3
    } else {
        n
    };
    assert(end - start == whole_end(b));
    assert(c@.subrange(start as int, end as int) =~= b.take(whole_end(b)));
    let frac_from: usize = if end == n { n } else { end + 1 };
    assert(c@.subrange(frac_from as int, n as int) =~= fraction_of(b));
    if end == start {
        return None;
    }
    let whole = match read_digits(c, start, end) {
        Some(w) => w,
        None => {
            proof {
                if all_digits(fraction_of(b)) {
                    lemma_digits_nonneg(fraction_of(b));
                }
            }
            return None;
        },
    };
    let frac = match read_digits(c, frac_from, n) {
        Some(f) => f,
        None => {
            return None;
        },
    };
    proof {
        lemma_short_digits(fraction_of(b));
    }
    Some(whole * 100 + if n - frac_from == 1 { frac * 10 } else { frac })
}

/// Parses an amount written in units with up to two decimals (`"12"`,
/// `"-3.5"`, `"0.07"`) into cents. Fails with `InvalidAmount` on any other
/// text and on an amount that is not valid.
pub fn parse_amount(s: &str) -> (r: Result<i64, LedgerError>)
    ensures
        r matches Ok(v) ==> amount_text(s@) == Some(v as int) && valid_amount(v as int),
        r is Err ==> r == Err::<i64, LedgerError>(LedgerError::InvalidAmount)
            && (amount_text(s@) matches Some(v) ==> !valid_amount(v)),
{
    let n = s.unicode_len();
    let mut c: Vec<char> = Vec::new();
    let mut i: usize = 0;
    while i < n
        invariant
            n == s@.len(),
            i <= n,
            c@ == s@.take(i as int),
        decreases n - i,
    {
        c.push(s.get_char(i));
        i = i + 1;
        assert(c@ =~= s@.take(i as int));
    }
    assert(c@ =~= s@);
    let neg = n > 0 && c[0] == '-';
    let start: usize = if neg { 1 } else { 0 };
    proof {
        if neg {
            assert(c@.subrange(1, n as int) =~= s@.drop_first());
        } else {
            assert(c@.subrange(0, n as int) =~= s@);
        }
    }
    let cents = match parse_unsigned(&c, start) {
        Some(v) => v,
        None => {
            return Err(LedgerError::InvalidAmount);
        },
    };
    if cents > MAX_AMOUNT {
        return Err(LedgerError::InvalidAmount);
    }
    if neg {
        Ok(-cents)
    } else {
        Ok(cents)
    }
}

} // verus!
