//! Flat textual renderings: the human-readable description of a `Spec`
//! and the comma-joined record a `BenchResult` is reported as.

use vstd::prelude::*;
use vstd::string::StringExecFns;
use crate::params::{BenchResult, Spec};

verus! {

/// The decimal digit character for `d`.
pub open spec fn dec_digit(d: int) -> char {
    if d == 0 {
        '0'
    } else if d == 1 {
        '1'
    } else if d == 2 {
        '2'
    } else if d == 3 {
        '3'
    } else if d == 4 {
        '4'
    } else if d == 5 {
        '5'
    } else if d == 6 {
        '6'
    } else if d == 7 {
        '7'
    } else if d == 8 {
        '8'
    } else {
        '9'
    }
}

/// The decimal rendering of a nonnegative number, most significant
/// digit first and without leading zeros.
pub open spec fn dec_rep(n: int) -> Seq<char>
    decreases n,
{
    if n < 10 {
        seq![dec_digit(n)]
    } else {
        dec_rep(n / 10).push(dec_digit(n % 10))
    }
}

/// The one-character string for the digit `d`.
fn dec_digit_str(d: u32) -> (s: &'static str)
    requires
        d < 10,
    ensures
        s@.len() == 1,
        s@[0] == dec_digit(d as int),
{
    proof {
        reveal_strlit("0");
        reveal_strlit("1");
        reveal_strlit("2");
        reveal_strlit("3");
        reveal_strlit("4");
        reveal_strlit("5");
        reveal_strlit("6");
        reveal_strlit("7");
        reveal_strlit("8");
        reveal_strlit("9");
    }
    match d {
        0 => "0",
        1 => "1",
        2 => "2",
        3 => "3",
        4 => "4",
        5 => "5",
        6 => "6",
        7 => "7",
        8 => "8",
        _ => "9",
    }
}

/// The decimal rendering of `n` as an owned string.
pub fn u32_string(n: u32) -> (s: String)
    ensures
        s@ == dec_rep(n as int),
    decreases n,
{
    if n < 10 {
        let s = String::from_str(dec_digit_str(n));
        proof {
            assert(s@ =~= dec_rep(n as int));
        }
        s
    } else {
        let mut s = u32_string(n / 10);
        s.append(dec_digit_str(n % 10));
        proof {
            assert(s@ =~= dec_rep(n as int));
        }
        s
    }
}

/// What `Spec::describe` spells out.
pub open spec fn describe_rep(s: Spec) -> Seq<char> {
    dec_rep(s.procs as int) + " procs with "@ + dec_rep(s.messages as int) + " messages "@
        + dec_rep(s.parallel as int) + " in parallel of a size of "@ + dec_rep(s.size as int)
}

/// What `BenchResult::record` spells out: the flat comma-joined record
/// `name,procs,messages,parallel,size`.
pub open spec fn record_rep(r: BenchResult) -> Seq<char> {
    r.name@ + ","@ + dec_rep(r.spec.procs as int) + ","@ + dec_rep(r.spec.messages as int)
        + ","@ + dec_rep(r.spec.parallel as int) + ","@ + dec_rep(r.spec.size as int)
}

impl Spec {
    /// A sentence describing this benchmark point.
    pub fn describe(&self) -> (out: String)
        ensures
            out@ == describe_rep(*self),
    {
        let mut out = u32_string(self.procs);
        out.append(" procs with ");
        let m = u32_string(self.messages);
        out.append(m.as_str());
        out.append(" messages ");
        let p = u32_string(self.parallel);
        out.append(p.as_str());
        out.append(" in parallel of a size of ");
        let z = u32_string(self.size);
        out.append(z.as_str());
        proof {
            assert(out@ =~= describe_rep(*self));
        }
        out
    }
}

impl BenchResult {
    /// The flat record this result is reported as.
    pub fn record(&self) -> (out: String)
        ensures
            out@ == record_rep(*self),
    {
        let mut out = self.name.clone();
        out.append(",");
        let a = u32_string(self.spec.procs);
        out.append(a.as_str());
        out.append(",");
        let b = u32_string(self.spec.messages);
        out.append(b.as_str());
        out.append(",");
        let c = u32_string(self.spec.parallel);
        out.append(c.as_str());
        out.append(",");
        let d = u32_string(self.spec.size);
        out.append(d.as_str());
        proof {
            assert(out@ =~= record_rep(*self));
        }
        out
    }
}

} // verus!
