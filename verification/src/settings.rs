//! The installation-name setting: the pure rules behind reading and
//! reporting the brewery name. Where the name comes from (a prompt, a
//! settings store) and where it goes are the callers' business.
use vstd::prelude::*;
use vstd::string::StrSliceExecFns;
use vstd::string::StringExecFns;

verus! {

/// A freshly entered name with one trailing line break (`\n` or `\r\n`)
/// removed; an empty entry falls back to the default name.
pub open spec fn normalized_name(s: Seq<char>) -> Seq<char> {
    let a = if s.len() > 0 && s.last() == '\n' {
        s.drop_last()
    } else {
        s
    };
    let b = if a.len() > 0 && a.last() == '\r' {
        a.drop_last()
    } else {
        a
    };
    if b.len() == 0 {
        "Elsinore"@
    } else {
        b
    }
}

/// Clean up a brewery name as it was entered: strip one trailing line
/// break, and default to `Elsinore` when nothing is left.
pub fn normalize_brewery_name(s: &str) -> (r: String)
    ensures
        r@ == normalized_name(s@),
{
    let mut n: usize = s.unicode_len();
    if n > 0 && s.get_char(n - 1) == '\n' {
        n -= 1;
    }
    if n > 0 && s.get_char(n - 1) == '\r' {
        n -= 1;
    }
    if n == 0 {
        String::from_str("Elsinore")
    } else {
        let sub = s.substring_char(0, n);
        proof {
            assert(normalized_name(s@) =~= sub@);
        }
        sub.to_owned()
    }
}

/// The setting that counts is the one stored last: the final row of the
/// settings table, if the table has any.
pub fn latest_brewery_name(rows: Vec<String>) -> (r: Option<String>)
    ensures
        rows@.len() == 0 ==> r is None,
        rows@.len() > 0 ==> r == Some(rows@.last()),
{
    let mut v = rows;
    v.pop()
}

} // verus!
