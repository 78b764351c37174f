//! Human-readable summaries of probes and readings, with the decimal
//! rendering verified character by character.
use vstd::prelude::*;
use vstd::arithmetic::div_mod::lemma_div_decreases;
use vstd::arithmetic::div_mod::lemma_div_pos_is_pos;
use vstd::string::StrSliceExecFns;
use vstd::string::StringExecFns;
use crate::one_wire::MilliCelsius;
use crate::one_wire::TempProbe;

verus! {

/// The character of one decimal digit.
pub open spec fn digit_char(d: int) -> char
    recommends
        0 <= d < 10,
{
    ((48 + d) as u8) as char
}

/// Decimal representation of a nonnegative integer: most significant digit
/// first, no leading zeros.
pub open spec fn dec_rep(n: int) -> Seq<char>
    decreases n,
        when n >= 0
        via dec_rep_decreases
{
    if n < 10 {
        seq![digit_char(n)]
    } else {
        dec_rep(n / 10).push(digit_char(n % 10))
    }
}

#[via_fn]
proof fn dec_rep_decreases(n: int) {
    if n >= 10 {
        lemma_div_decreases(n, 10);
        lemma_div_pos_is_pos(n, 10);
    }
}

/// A millidegree count rendered as degrees: an optional sign, the whole
/// part, a point, and exactly three fractional digits (`22.875`).
pub open spec fn milli_rep(v: int) -> Seq<char> {
    let m = if v < 0 {
        -v
    } else {
        v
    };
    let sign = if v < 0 {
        seq!['-']
    } else {
        Seq::<char>::empty()
    };
    sign + dec_rep(m / 1000) + seq![
        '.',
        digit_char(m / 100 % 10),
        digit_char(m / 10 % 10),
        digit_char(m % 10),
    ]
}

/// The digits already peeled off a number, least significant first, read
/// back in printing order.
spec fn rev_digit_chars(s: Seq<u8>) -> Seq<char>
    decreases s.len(),
{
    if s.len() == 0 {
        Seq::empty()
    } else {
        seq![digit_char(s.last() as int)] + rev_digit_chars(s.drop_last())
    }
}

/// Append one digit's character.
fn push_digit(out: &mut String, d: u8)
    requires
        d < 10,
    ensures
        final (out)@ == old(out)@.push(digit_char(d as int)),
{
    let digits = "0123456789";
    proof {
        reveal_strlit("0123456789");
    }
    let c = digits.substring_ascii(d as usize, d as usize + 1);
    out.append(c);
    proof {
        assert(out@ =~= old(out)@.push(digit_char(d as int)));
    }
}

/// Render a nonnegative count in decimal.
#[verifier::loop_isolation(false)]
fn format_u64(n: u64) -> (r: String)
    ensures
        r@ == dec_rep(n as int),
{
    let ghost full = dec_rep(n as int);
    let mut ds: Vec<u8> = Vec::new();
    let mut cur: u64 = n;
    proof {
        assert(full =~= dec_rep(cur as int) + rev_digit_chars(ds@));
    }
    while cur >= 10
        invariant
            full == dec_rep(cur as int) + rev_digit_chars(ds@),
            forall|j: int| 0 <= j < ds@.len() ==> #[trigger] ds@[j] < 10,
        decreases cur,
    {
        let d: u8 = (cur % 10) as u8;
        let ghost ds0 = ds@;
        let ghost cur0 = cur as int;
        ds.push(d);
        cur = cur / 10;
        proof {
            assert(ds@.drop_last() =~= ds0);
            assert(rev_digit_chars(ds@) == seq![digit_char(d as int)] + rev_digit_chars(ds0));
            assert(dec_rep(cur0) == dec_rep(cur as int).push(digit_char(d as int)));
            assert(dec_rep(cur as int).push(digit_char(d as int)) + rev_digit_chars(ds0)
                =~= dec_rep(cur as int) + rev_digit_chars(ds@));
        }
    }
    let mut out = String::new();
    push_digit(&mut out, cur as u8);
    proof {
        assert(ds@.take(ds@.len() as int) =~= ds@);
        assert(out@ + rev_digit_chars(ds@.take(ds@.len() as int)) =~= full);
    }
    let mut i: usize = ds.len();
    while i > 0
        invariant
            i <= ds@.len(),
            forall|j: int| 0 <= j < ds@.len() ==> #[trigger] ds@[j] < 10,
            out@ + rev_digit_chars(ds@.take(i as int)) == full,
        decreases i,
    {
        i -= 1;
        let ghost out0 = out@;
        push_digit(&mut out, ds[i]);
        proof {
            assert(ds@.take(i + 1).last() == ds@[i as int]);
            assert(ds@.take(i + 1).drop_last() =~= ds@.take(i as int));
            assert(rev_digit_chars(ds@.take(i + 1)) == seq![digit_char(ds@[i as int] as int)]
                + rev_digit_chars(ds@.take(i as int)));
            assert(out@ + rev_digit_chars(ds@.take(i as int)) =~= out0 + rev_digit_chars(
                ds@.take(i + 1),
            ));
        }
    }
    proof {
        assert(ds@.take(0) =~= Seq::<u8>::empty());
        assert(out@ =~= full);
    }
    out
}

/// Render a millidegree count as degrees with three fractional digits.
pub fn format_milli(v: i64) -> (r: String)
    ensures
        r@ == milli_rep(v as int),
{
    let mag: u64 = if v >= 0 {
        v as u64
    } else if v == i64::MIN {
        9223372036854775808
    } else {
        (-v) as u64
    };
    let mut out = if v < 0 {
        proof {
            reveal_strlit("-");
        }
        let s = String::from_str("-");
        proof {
            assert(s@ =~= seq!['-']);
        }
        s
    } else {
        String::new()
    };
    let whole = format_u64(mag / 1000);
    out.append(whole.as_str());
    proof {
        reveal_strlit(".");
    }
    out.append(".");
    push_digit(&mut out, ((mag / 100) % 10) as u8);
    push_digit(&mut out, ((mag / 10) % 10) as u8);
    push_digit(&mut out, (mag % 10) as u8);
    proof {
        assert(out@ =~= milli_rep(v as int));
    }
    out
}

impl MilliCelsius {
    /// The reading as reporting shows it: degrees Celsius with three
    /// fractional digits.
    pub fn display(&self) -> (r: String)
        ensures
            r@ == milli_rep(self.0 as int),
    {
        format_milli(self.0)
    }
}

impl TempProbe {
    /// The probe's summary: its address and, when a reading has ever
    /// succeeded, the cached temperature; an address alone otherwise.
    pub fn display(&self) -> (r: String)
        ensures
            r@ == match self.temp_c {
                Some(t) => "address: "@ + self.address@ + ", temperature: "@ + milli_rep(
                    t.0 as int,
                ) + " C"@,
                None => "address: "@ + self.address@,
            },
    {
        let mut out = String::from_str("address: ");
        out.append(self.address.as_str());
        match self.temp_c {
            Some(t) => {
                out.append(", temperature: ");
                let reading = format_milli(t.0);
                out.append(reading.as_str());
                out.append(" C");
                proof {
                    assert(out@ =~= "address: "@ + self.address@ + ", temperature: "@ + milli_rep(
                        t.0 as int,
                    ) + " C"@);
                }
                out
            }
            None => out,
        }
    }
}

} // verus!
