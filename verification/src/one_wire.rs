//! One-wire temperature records and probes.
//!
//! A record is the byte content of a device file: hexadecimal scratchpad
//! lines, a `YES`/`NO` transfer confirmation, and a `t=<n>` field giving the
//! measured temperature as an integer count of millidegrees Celsius. This
//! module parses such records, models the parse exactly as spec functions,
//! and keeps a probe's last known-good reading.
use vstd::prelude::*;
use vstd::arithmetic::div_mod::lemma_fundamental_div_mod;
use vstd::string::StringExecFns;
use crate::w1_errors::NumError;
use crate::w1_errors::W1Error;

verus! {

/// `x` fits in a 64-bit signed integer.
pub open spec fn in_i64(x: int) -> bool {
    i64::MIN as int <= x <= i64::MAX as int
}

// ---------------------------------------------------------------------------
// The record model: what a raw record parses to.
// ---------------------------------------------------------------------------

/// ASCII whitespace as the record format uses it.
pub open spec fn is_w1_space(b: u8) -> bool {
    b == 32 || b == 9 || b == 10 || b == 13
}

pub open spec fn is_ascii_digit(b: u8) -> bool {
    48 <= b && b <= 57
}

pub open spec fn digit_val(b: u8) -> int {
    b - 48
}

/// `pat` occurs in `s` starting at index `i`.
pub open spec fn match_at(s: Seq<u8>, pat: Seq<u8>, i: int) -> bool {
    &&& 0 <= i
    &&& i + pat.len() <= s.len()
    &&& forall|j: int| 0 <= j < pat.len() ==> s[i + j] == #[trigger] pat[j]
}

pub open spec fn contains_seq(s: Seq<u8>, pat: Seq<u8>) -> bool {
    exists|i: int| match_at(s, pat, i)
}

/// The transfer/CRC confirmation token, `YES`.
pub open spec fn yes_marker() -> Seq<u8> {
    seq![89u8, 69u8, 83u8]
}

/// The temperature field marker, `t=`.
pub open spec fn t_marker() -> Seq<u8> {
    seq![116u8, 61u8]
}

/// `s` with leading and trailing whitespace removed.
pub open spec fn trim_spec(s: Seq<u8>) -> Seq<u8>
    decreases s.len(),
{
    if s.len() == 0 {
        s
    } else if is_w1_space(s.first()) {
        trim_spec(s.drop_first())
    } else if is_w1_space(s.last()) {
        trim_spec(s.drop_last())
    } else {
        s
    }
}

pub open spec fn all_digits(s: Seq<u8>) -> bool {
    forall|i: int| 0 <= i < s.len() ==> is_ascii_digit(#[trigger] s[i])
}

/// Value of a sequence of ASCII digits read in base ten.
pub open spec fn digits_val(s: Seq<u8>) -> int
    decreases s.len(),
{
    if s.len() == 0 {
        0
    } else {
        10 * digits_val(s.drop_last()) + digit_val(s.last())
    }
}

pub open spec fn has_sign(t: Seq<u8>) -> bool {
    t.len() > 0 && (t[0] == 45u8 || t[0] == 43u8)
}

/// The digit part of a signed decimal numeral.
pub open spec fn num_digits(t: Seq<u8>) -> Seq<u8> {
    if has_sign(t) {
        t.drop_first()
    } else {
        t
    }
}

/// The signed value of a decimal numeral (meaningful when its digits are
/// well formed).
pub open spec fn num_val(t: Seq<u8>) -> int {
    if t.len() > 0 && t[0] == 45u8 {
        -digits_val(num_digits(t))
    } else {
        digits_val(num_digits(t))
    }
}

/// What parsing a trimmed numeral yields: its value as a signed 64-bit
/// count, or the fault that stops the parse.
pub open spec fn num_outcome(t: Seq<u8>) -> Result<int, NumError> {
    if t.len() == 0 {
        Err(NumError::Empty)
    } else if num_digits(t).len() == 0 || !all_digits(num_digits(t)) {
        Err(NumError::InvalidDigit)
    } else if !in_i64(num_val(t)) {
        Err(NumError::Overflow)
    } else {
        Ok(num_val(t))
    }
}

/// What extracting the temperature from a record yields: the millidegree
/// count written after the first `t=` marker, or the fault. The suffix runs
/// from the marker to the end of the record and is trimmed before parsing.
pub open spec fn parse_after_t(s: Seq<u8>) -> Result<int, W1Error>
    decreases s.len(),
{
    if s.len() < 2 {
        Err(W1Error::MissingMarker)
    } else if s[0] == 116u8 && s[1] == 61u8 {
        match num_outcome(trim_spec(s.subrange(2, s.len() as int))) {
            Ok(v) => Ok(v),
            Err(e) => Err(W1Error::Parse(e)),
        }
    } else {
        parse_after_t(s.drop_first())
    }
}

/// What parsing a whole raw record yields: a record without the `YES`
/// confirmation is a bad serial connection whatever else it holds; otherwise
/// the temperature field decides.
pub open spec fn record_outcome(s: Seq<u8>) -> Result<int, W1Error> {
    if !contains_seq(s, yes_marker()) {
        Err(W1Error::BadSerialConnection)
    } else {
        parse_after_t(s)
    }
}

/// What a whole read attempt yields, a failed device read included.
pub open spec fn read_outcome(read: Result<Vec<u8>, W1Error>) -> Result<int, W1Error> {
    match read {
        Ok(data) => record_outcome(data@),
        Err(e) => Err(e),
    }
}

// ---------------------------------------------------------------------------
// Temperature values.
// ---------------------------------------------------------------------------

/// Micro-degrees Fahrenheit of a millidegree-Celsius count, by the exact
/// linear rule `F = C / 5 * 9 + 32`.
pub open spec fn micro_fahrenheit_of(milli_c: int) -> int {
    1800 * milli_c + 32_000_000
}

/// A temperature in millidegrees Celsius, as the sensor reports it. Only
/// ever derived from a record that carried the `YES` confirmation and a
/// well-formed `t=` field.
#[derive(Clone, Copy, Debug, PartialEq, Eq, Structural)]
pub struct MilliCelsius(pub i64);

impl MilliCelsius {
    /// The reading in thousandths of a degree Celsius, the sensor's native
    /// unit.
    pub fn as_celsius(&self) -> (r: i64)
        ensures
            r == self.0,
    {
        self.0
    }

    /// The reading in millionths of a degree Fahrenheit. The conversion is
    /// lossless: every millidegree Celsius is a whole number of
    /// micro-degrees Fahrenheit.
    pub fn to_fahrenheit(&self) -> (r: i64)
        requires
            in_i64(1800 * self.0 as int),
            in_i64(micro_fahrenheit_of(self.0 as int)),
        ensures
            r == micro_fahrenheit_of(self.0 as int),
    {
        1800 * self.0 + 32_000_000
    }
}

// ---------------------------------------------------------------------------
// Searching, trimming and numeral parsing, verified against the model.
// ---------------------------------------------------------------------------

fn byte_is_space(b: u8) -> (r: bool)
    ensures
        r == is_w1_space(b),
{
    b == 32 || b == 9 || b == 10 || b == 13
}

/// Index of the first occurrence of `pat` in `s`, if any.
#[verifier::loop_isolation(false)]
fn find_seq(s: &[u8], pat: &[u8]) -> (r: Option<usize>)
    ensures
        match r {
            Some(i) => match_at(s@, pat@, i as int) && forall|j: int|
                0 <= j < i as int ==> !match_at(s@, pat@, j),
            None => !contains_seq(s@, pat@),
        },
{
    let n: usize = s.len();
    let m: usize = pat.len();
    if m > n {
        proof {
            assert forall|i: int| !match_at(s@, pat@, i) by {}
        }
        return None;
    }
    let mut i: usize = 0;
    while i <= n - m
        invariant
            m <= n == s@.len(),
            m == pat@.len(),
            i <= n - m + 1,
            forall|j: int| 0 <= j < i as int ==> !match_at(s@, pat@, j),
        decreases n - m + 1 - i,
    {
        let mut k: usize = 0;
        let mut is_match = true;
        while k < m
            invariant
                m <= n == s@.len(),
                m == pat@.len(),
                i + m <= n,
                k <= m,
                is_match ==> forall|j: int| 0 <= j < k as int ==> s@[i + j] == #[trigger] pat@[j],
                !is_match ==> !match_at(s@, pat@, i as int),
            decreases m - k,
        {
            if s[i + k] != pat[k] {
                is_match = false;
                k = m;
            } else {
                k += 1;
            }
        }
        if is_match {
            return Some(i);
        }
        i += 1;
    }
    proof {
        assert forall|j: int| !match_at(s@, pat@, j) by {
            if 0 <= j && j + m <= n {
                assert(j < i as int);
            }
        }
    }
    None
}

/// Trimming an all-but-the-edges characterised window gives `trim_spec`.
proof fn lemma_trim_subrange(t: Seq<u8>, a: int, b: int)
    requires
        0 <= a <= b <= t.len(),
        forall|i: int| 0 <= i < a ==> is_w1_space(#[trigger] t[i]),
        forall|i: int| b <= i < t.len() ==> is_w1_space(#[trigger] t[i]),
        a == b || (!is_w1_space(t[a]) && !is_w1_space(t[b - 1])),
    ensures
        trim_spec(t) == t.subrange(a, b),
    decreases t.len(),
{
    if t.len() == 0 {
        assert(t.subrange(0, 0) =~= t);
    } else if is_w1_space(t.first()) {
        let t2 = t.drop_first();
        if a == 0 {
            // The boundary clause forces a == b here: t[0] is whitespace.
            assert(a == b);
            assert forall|i: int| 0 <= i < t2.len() implies is_w1_space(#[trigger] t2[i]) by {
                assert(t2[i] == t[i + 1]);
            }
            lemma_trim_subrange(t2, 0, 0);
            assert(t.subrange(0, 0) =~= t2.subrange(0, 0));
        } else {
            assert forall|i: int| 0 <= i < a - 1 implies is_w1_space(#[trigger] t2[i]) by {
                assert(t2[i] == t[i + 1]);
            }
            assert forall|i: int| b - 1 <= i < t2.len() implies is_w1_space(#[trigger] t2[i]) by {
                assert(t2[i] == t[i + 1]);
            }
            if a < b {
                assert(t2[a - 1] == t[a]);
                assert(t2[b - 2] == t[b - 1]);
            }
            lemma_trim_subrange(t2, a - 1, b - 1);
            assert(t2.subrange(a - 1, b - 1) =~= t.subrange(a, b));
        }
    } else if is_w1_space(t.last()) {
        let t2 = t.drop_last();
        if b == t.len() {
            // Unreachable: the whitespace last byte cannot end the window,
            // so a == b == t.len(); but the first byte is not whitespace
            // here, so a == 0, and the sequence is not empty.
            assert(a == b);
            assert(a == 0);
            assert(false);
        } else {
            assert forall|i: int| 0 <= i < a implies is_w1_space(#[trigger] t2[i]) by {
                assert(t2[i] == t[i]);
            }
            assert forall|i: int| b <= i < t2.len() implies is_w1_space(#[trigger] t2[i]) by {
                assert(t2[i] == t[i]);
            }
            lemma_trim_subrange(t2, a, b);
            assert(t2.subrange(a, b) =~= t.subrange(a, b));
        }
    } else {
        assert(a == 0 && b == t.len());
        assert(t.subrange(0, t.len() as int) =~= t);
    }
}

/// Narrow `[from, to)` to the window that survives whitespace trimming.
#[verifier::loop_isolation(false)]
fn trim_range(s: &[u8], from: usize, to: usize) -> (r: (usize, usize))
    requires
        from <= to <= s@.len(),
    ensures
        from <= r.0 <= r.1 <= to,
        s@.subrange(r.0 as int, r.1 as int) == trim_spec(s@.subrange(from as int, to as int)),
{
    let mut a: usize = from;
    let mut b: usize = to;
    while a < b && byte_is_space(s[a])
        invariant
            from <= a <= b <= to <= s@.len(),
            forall|i: int| from <= i < a ==> is_w1_space(#[trigger] s@[i]),
        decreases b - a,
    {
        a += 1;
    }
    while b > a && byte_is_space(s[b - 1])
        invariant
            from <= a <= b <= to <= s@.len(),
            forall|i: int| from <= i < a ==> is_w1_space(#[trigger] s@[i]),
            forall|i: int| b <= i < to ==> is_w1_space(#[trigger] s@[i]),
            a == b || !is_w1_space(s@[a as int]),
        decreases b - a,
    {
        b -= 1;
    }
    proof {
        let t = s@.subrange(from as int, to as int);
        let ta = a - from;
        let tb = b - from;
        assert forall|i: int| 0 <= i < ta implies is_w1_space(#[trigger] t[i]) by {
            assert(t[i] == s@[from + i]);
        }
        assert forall|i: int| tb <= i < t.len() implies is_w1_space(#[trigger] t[i]) by {
            assert(t[i] == s@[from + i]);
        }
        if ta < tb {
            assert(t[ta] == s@[a as int]);
            assert(t[tb - 1] == s@[b - 1]);
        }
        lemma_trim_subrange(t, ta, tb);
        assert(t.subrange(ta, tb) =~= s@.subrange(a as int, b as int));
    }
    (a, b)
}

proof fn lemma_digits_val_nonneg(s: Seq<u8>)
    requires
        all_digits(s),
    ensures
        digits_val(s) >= 0,
    decreases s.len(),
{
    if s.len() > 0 {
        assert(all_digits(s.drop_last())) by {
            assert forall|i: int| 0 <= i < s.drop_last().len() implies is_ascii_digit(
                #[trigger] s.drop_last()[i],
            ) by {
                assert(s.drop_last()[i] == s[i]);
            }
        }
        lemma_digits_val_nonneg(s.drop_last());
    }
}

/// A digit string is worth at least any of its prefixes.
proof fn lemma_digits_val_prefix(s: Seq<u8>, a: int, k: int, b: int)
    requires
        0 <= a <= k <= b <= s.len(),
        forall|i: int| a <= i < b ==> is_ascii_digit(#[trigger] s[i]),
    ensures
        digits_val(s.subrange(a, k)) <= digits_val(s.subrange(a, b)),
    decreases b - k,
{
    if k < b {
        let p = s.subrange(a, k);
        let q = s.subrange(a, k + 1);
        assert(q.drop_last() =~= p);
        assert(q.last() == s[k]);
        assert(all_digits(p)) by {
            assert forall|i: int| 0 <= i < p.len() implies is_ascii_digit(#[trigger] p[i]) by {
                assert(p[i] == s[a + i]);
            }
        }
        lemma_digits_val_nonneg(p);
        assert(digits_val(q) == 10 * digits_val(p) + digit_val(s[k]));
        lemma_digits_val_prefix(s, a, k + 1, b);
    } else {
        assert(s.subrange(a, k) =~= s.subrange(a, b));
    }
}

/// Parse the numeral in `s[from..to]`, exactly as `num_outcome` says.
#[verifier::loop_isolation(false)]
fn parse_signed(s: &[u8], from: usize, to: usize) -> (r: Result<i64, NumError>)
    requires
        from <= to <= s@.len(),
    ensures
        ({
            let t = s@.subrange(from as int, to as int);
            match num_outcome(t) {
                Ok(v) => r == Ok::<i64, NumError>(v as i64),
                Err(e) => r == Err::<i64, NumError>(e),
            }
        }),
{
    let ghost t = s@.subrange(from as int, to as int);
    if from == to {
        return Err(NumError::Empty);
    }
    let c0 = s[from];
    let neg: bool = c0 == 45u8;
    let digs_from: usize = if c0 == 45u8 || c0 == 43u8 {
        from + 1
    } else {
        from
    };
    proof {
        assert(t[0] == s@[from as int]);
        assert(num_digits(t) =~= s@.subrange(digs_from as int, to as int));
    }
    let ghost digits = s@.subrange(digs_from as int, to as int);
    if digs_from == to {
        return Err(NumError::InvalidDigit);
    }
    let mut k: usize = digs_from;
    while k < to
        invariant
            digs_from <= k <= to <= s@.len(),
            forall|i: int| digs_from <= i < k ==> is_ascii_digit(#[trigger] s@[i]),
        decreases to - k,
    {
        let c = s[k];
        if c < 48 || c > 57 {
            proof {
                assert(digits[k - digs_from] == s@[k as int]);
                assert(!all_digits(digits));
            }
            return Err(NumError::InvalidDigit);
        }
        k += 1;
    }
    proof {
        assert(all_digits(digits)) by {
            assert forall|i: int| 0 <= i < digits.len() implies is_ascii_digit(
                #[trigger] digits[i],
            ) by {
                assert(digits[i] == s@[digs_from + i]);
            }
        }
    }
    // The magnitude may reach 2^63 for a negative numeral, one more than
    // i64::MAX, so it is accumulated unsigned.
    let limit: u64 = if neg {
        9223372036854775808
    } else {
        9223372036854775807
    };
    let mut mag: u64 = 0;
    k = digs_from;
    while k < to
        invariant
            digs_from <= k <= to <= s@.len(),
            digits == s@.subrange(digs_from as int, to as int),
            all_digits(digits),
            forall|i: int| digs_from <= i < to ==> is_ascii_digit(#[trigger] s@[i]),
            mag as int == digits_val(s@.subrange(digs_from as int, k as int)),
            mag <= limit,
            limit == if neg {
                9223372036854775808u64
            } else {
                9223372036854775807u64
            },
        decreases to - k,
    {
        let d: u64 = (s[k] - 48) as u64;
        let ghost pre = s@.subrange(digs_from as int, k as int);
        let ghost ext = s@.subrange(digs_from as int, k + 1 as int);
        proof {
            assert(ext.drop_last() =~= pre);
            assert(ext.last() == s@[k as int]);
            assert(digits_val(ext) == 10 * digits_val(pre) + digit_val(s@[k as int]));
            lemma_fundamental_div_mod(limit - d, 10);
        }
        if mag > (limit - d) / 10 {
            proof {
                assert(digits_val(ext) > limit);
                assert(ext =~= digits.subrange(0, k + 1 - digs_from));
                lemma_digits_val_prefix(digits, 0, k + 1 - digs_from, digits.len() as int);
                assert(digits.subrange(0, digits.len() as int) =~= digits);
                assert(digits_val(digits) > limit);
                assert(!in_i64(num_val(t)));
            }
            return Err(NumError::Overflow);
        }
        mag = mag * 10 + d;
        k += 1;
    }
    proof {
        assert(s@.subrange(digs_from as int, k as int) =~= digits);
        assert(mag as int == digits_val(digits));
    }
    let v: i64 = if neg {
        if mag == 9223372036854775808 {
            i64::MIN
        } else {
            -(mag as i64)
        }
    } else {
        mag as i64
    };
    proof {
        assert(num_outcome(t) == Ok::<int, NumError>(num_val(t)));
        assert(v as int == num_val(t));
    }
    Ok(v)
}

/// No `t=` marker anywhere means the whole record has none.
proof fn lemma_parse_after_t_none(s: Seq<u8>)
    requires
        forall|j: int| !match_at(s, t_marker(), j),
    ensures
        parse_after_t(s) == Err::<int, W1Error>(W1Error::MissingMarker),
    decreases s.len(),
{
    assert(t_marker()[0] == 116u8);
    assert(t_marker()[1] == 61u8);
    if s.len() >= 2 {
        if s[0] == 116u8 && s[1] == 61u8 {
            assert(match_at(s, t_marker(), 0));
        }
        let s2 = s.drop_first();
        assert forall|j: int| !match_at(s2, t_marker(), j) by {
            if match_at(s2, t_marker(), j) {
                assert(s2[j] == s[j + 1]);
                assert(s2[j + 1] == s[j + 2]);
                assert(match_at(s, t_marker(), j + 1));
            }
        }
        lemma_parse_after_t_none(s2);
    }
}

/// The first `t=` occurrence decides the parse: the suffix after it, to the
/// end of the record, is what `parse_after_t` trims and reads.
proof fn lemma_parse_after_t_at(s: Seq<u8>, i: int)
    requires
        match_at(s, t_marker(), i),
        forall|j: int| 0 <= j < i ==> !match_at(s, t_marker(), j),
    ensures
        parse_after_t(s) == match num_outcome(trim_spec(s.subrange(i + 2, s.len() as int))) {
            Ok(v) => Ok::<int, W1Error>(v),
            Err(e) => Err::<int, W1Error>(W1Error::Parse(e)),
        },
    decreases i,
{
    assert(t_marker()[0] == 116u8);
    assert(t_marker()[1] == 61u8);
    assert(s[i] == 116u8);
    assert(s[i + 1] == 61u8);
    if i == 0 {
        assert(s.len() >= 2);
    } else {
        assert(s.len() >= 2);
        if s[0] == 116u8 && s[1] == 61u8 {
            assert(match_at(s, t_marker(), 0));
        }
        let s2 = s.drop_first();
        assert(match_at(s2, t_marker(), i - 1)) by {
            assert(s2[i - 1] == s[i]);
            assert(s2[i] == s[i + 1]);
            assert forall|j: int| 0 <= j < t_marker().len() implies s2[i - 1 + j] == #[trigger] t_marker()[j] by {
                assert(s2[i - 1 + j] == s[i + j]);
            }
        }
        assert forall|j: int| 0 <= j < i - 1 implies !match_at(s2, t_marker(), j) by {
            if match_at(s2, t_marker(), j) {
                assert forall|jj: int| 0 <= jj < t_marker().len() implies s[j + 1 + jj] == #[trigger] t_marker()[jj] by {
                    assert(s2[j + jj] == s[j + 1 + jj]);
                }
                assert(match_at(s, t_marker(), j + 1));
            }
        }
        lemma_parse_after_t_at(s2, i - 1);
        assert(s2.subrange(i + 1, s2.len() as int) =~= s.subrange(i + 2, s.len() as int));
    }
}

/// A record that confirms its transfer with `YES` and whose first `t=`
/// marker is followed (after trimming) by a well-formed numeral in range
/// parses to exactly that millidegree count.
pub proof fn lemma_valid_record_parses(s: Seq<u8>, i: int, n: int)
    requires
        contains_seq(s, yes_marker()),
        match_at(s, t_marker(), i),
        forall|j: int| 0 <= j < i ==> !match_at(s, t_marker(), j),
        num_outcome(trim_spec(s.subrange(i + 2, s.len() as int))) == Ok::<int, NumError>(n),
    ensures
        record_outcome(s) == Ok::<int, W1Error>(n),
{
    assert(t_marker().len() == 2);
    lemma_parse_after_t_at(s, i);
}

/// A record without the `YES` confirmation is a bad serial connection,
/// whether or not a `t=` field is present.
pub proof fn lemma_no_yes_is_bad_connection(s: Seq<u8>)
    requires
        !contains_seq(s, yes_marker()),
    ensures
        record_outcome(s) == Err::<int, W1Error>(W1Error::BadSerialConnection),
{
}

/// A record with the `YES` confirmation but no `t=` marker anywhere fails
/// with the missing-marker fault.
pub proof fn lemma_yes_without_marker(s: Seq<u8>)
    requires
        contains_seq(s, yes_marker()),
        !contains_seq(s, t_marker()),
    ensures
        record_outcome(s) == Err::<int, W1Error>(W1Error::MissingMarker),
{
    lemma_parse_after_t_none(s);
}

/// Extract the millidegree count from a raw record: find the first `t=`
/// marker, trim the suffix after it, and read it as a signed numeral.
pub fn parse_temp(temp_data: &[u8]) -> (r: Result<i64, W1Error>)
    ensures
        ({
            match parse_after_t(temp_data@) {
                Ok(v) => r == Ok::<i64, W1Error>(v as i64),
                Err(e) => r == Err::<i64, W1Error>(e),
            }
        }),
{
    let mut tm: Vec<u8> = Vec::new();
    tm.push(116u8);
    tm.push(61u8);
    proof {
        assert(tm@ =~= t_marker());
    }
    match find_seq(temp_data, tm.as_slice()) {
        None => {
            proof {
                lemma_parse_after_t_none(temp_data@);
            }
            Err(W1Error::MissingMarker)
        }
        Some(i) => {
            let n = temp_data.len();
            proof {
                assert(t_marker().len() == 2);
                lemma_parse_after_t_at(temp_data@, i as int);
                assert(i as int + 2 <= n as int);
            }
            let start = i + 2;
            let (a, b) = trim_range(temp_data, start, n);
            match parse_signed(temp_data, a, b) {
                Ok(v) => Ok(v),
                Err(e) => Err(W1Error::Parse(e)),
            }
        }
    }
}

// ---------------------------------------------------------------------------
// Where a probe's device file lives.
// ---------------------------------------------------------------------------

/// Where the one-wire bus exposes its devices. Explicit configuration, so
/// the subsystem can be pointed at synthetic paths for testing.
pub struct W1Config {
    pub bus_root: String,
    pub slave_file: String,
}

impl W1Config {
    /// The kernel driver's fixed locations.
    pub fn sys_default() -> (r: W1Config)
        ensures
            r.bus_root@ == "/sys/bus/w1/devices"@,
            r.slave_file@ == "w1_slave"@,
    {
        W1Config {
            bus_root: String::from_str("/sys/bus/w1/devices"),
            slave_file: String::from_str("w1_slave"),
        }
    }

    /// The device file of the probe at `address`:
    /// `<bus_root>/<address>/<slave_file>`.
    pub fn device_path(&self, address: &str) -> (r: String)
        ensures
            r@ == self.bus_root@ + "/"@ + address@ + "/"@ + self.slave_file@,
    {
        let mut p = self.bus_root.clone();
        p.append("/");
        p.append(address);
        p.append("/");
        p.append(self.slave_file.as_str());
        p
    }
}

// ---------------------------------------------------------------------------
// The probe.
// ---------------------------------------------------------------------------

/// A one-wire temperature probe: an immutable bus address and the last
/// reading that parsed, absent until a read first succeeds.
pub struct TempProbe {
    pub address: String,
    pub temp_c: Option<MilliCelsius>,
}

impl TempProbe {
    pub fn new(address: String) -> (r: TempProbe)
        ensures
            r.address == address,
            r.temp_c is None,
    {
        TempProbe { address, temp_c: None }
    }

    /// Judge one read attempt without touching the cached value: a record
    /// is valid only if it confirms the transfer with `YES`; the `t=` field
    /// then gives the millidegree count.
    pub fn read_temp(&self, read: Result<Vec<u8>, W1Error>) -> (r: Result<MilliCelsius, W1Error>)
        ensures
            match read_outcome(read) {
                Ok(v) => r == Ok::<MilliCelsius, W1Error>(MilliCelsius(v as i64)),
                Err(e) => r == Err::<MilliCelsius, W1Error>(e),
            },
    {
        match read {
            Err(e) => Err(e),
            Ok(data) => {
                let mut yes: Vec<u8> = Vec::new();
                yes.push(89u8);
                yes.push(69u8);
                yes.push(83u8);
                proof {
                    assert(yes@ =~= yes_marker());
                }
                match find_seq(data.as_slice(), yes.as_slice()) {
                    None => Err(W1Error::BadSerialConnection),
                    Some(_) => match parse_temp(data.as_slice()) {
                        Ok(v) => Ok(MilliCelsius(v)),
                        Err(e) => Err(e),
                    },
                }
            }
        }
    }

    /// Apply one read attempt: a reading that parses replaces the cached
    /// value; any failure leaves the previous cached value untouched, so one
    /// failed poll never erases the last known-good reading.
    pub fn update_temp(&mut self, read: Result<Vec<u8>, W1Error>) -> (r: Result<(), W1Error>)
        ensures
            final (self).address == old(self).address,
            match read_outcome(read) {
                Ok(v) => final (self).temp_c == Some(MilliCelsius(v as i64)) && r == Ok::<(),
                    W1Error,
                >(()),
                Err(e) => final (self).temp_c == old(self).temp_c && r == Err::<(), W1Error>(e),
            },
    {
        match self.read_temp(read) {
            Ok(t) => {
                self.temp_c = Some(t);
                Ok(())
            }
            Err(e) => Err(e),
        }
    }
}

} // verus!
