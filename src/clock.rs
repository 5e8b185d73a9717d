//! Local date and time as plain fields, and the fixed textual forms that the
//! transcript and the summary record use.

use chrono::{Datelike, Timelike};
use vstd::prelude::*;
use vstd::string::*;

use crate::text::no_newline;

verus! {

/// A local calendar date and wall-clock time.
#[derive(Clone, Copy, Debug, PartialEq, Eq)]
pub struct Stamp {
    pub year: i32,
    pub month: u32,
    pub day: u32,
    pub hour: u32,
    pub minute: u32,
    pub second: u32,
}

impl Stamp {
    pub open spec fn wf(&self) -> bool {
        &&& 1 <= self.month <= 12
        &&& 1 <= self.day <= 31
        &&& self.hour < 24
        &&& self.minute < 60
        &&& self.second < 60
    }

    /// The local date and time now.
    pub fn now() -> (r: Stamp)
        ensures
            r.wf(),
    {
        local_now()
    }
}

/// Relies on `chrono::Local::now` and its `Datelike` / `Timelike` accessors:
/// month in 1..=12, day in 1..=31, hour in 0..=23, minute and second in 0..=59.
#[verifier::external_body]
fn local_now() -> (r: Stamp)
    ensures
        r.wf(),
{
    let t = chrono::Local::now();
    Stamp {
        year: t.year(),
        month: t.month(),
        day: t.day(),
        hour: t.hour(),
        minute: t.minute(),
        second: t.second(),
    }
}

pub open spec fn digit_char(d: nat) -> char {
    if d == 0 {
        '0'
    } else if d == 1 {
        '1'
    } else if d == 2 {
        '2'
    } else if d == 3 {
        '3'
    } else if d == 4 {
        '4'
    } else if d == 5 {
        '5'
    } else if d == 6 {
        '6'
    } else if d == 7 {
        '7'
    } else if d == 8 {
        '8'
    } else {
        '9'
    }
}

/// Decimal digits of `n`, zero-padded on the left to at least `width` digits.
pub open spec fn decimal(n: nat, width: nat) -> Seq<char>
    decreases n, width,
{
    if n < 10 && width <= 1 {
        seq![digit_char(n)]
    } else {
        decimal(n / 10, if width > 0 { (width - 1) as nat } else { 0 }).push(digit_char(n % 10))
    }
}

pub proof fn lemma_decimal_no_newline(n: nat, width: nat)
    ensures
        no_newline(decimal(n, width)),
    decreases n, width,
{
    if !(n < 10 && width <= 1) {
        let w2: nat = if width > 0 { (width - 1) as nat } else { 0 };
        lemma_decimal_no_newline(n / 10, w2);
        let d = decimal(n / 10, w2);
        assert forall|k: int| 0 <= k < decimal(n, width).len() implies decimal(n, width)[k]
            != '\n' by {
            if k < d.len() {
                assert(decimal(n, width)[k] == d[k]);
            }
        }
    }
}

pub proof fn lemma_date_time_no_newline(st: Stamp)
    ensures
        no_newline(date_time_text(st)),
{
    lemma_decimal_no_newline(st.day as nat, 2);
    lemma_decimal_no_newline(st.month as nat, 2);
    lemma_decimal_no_newline(st.hour as nat, 2);
    lemma_decimal_no_newline(st.minute as nat, 2);
    lemma_decimal_no_newline(st.second as nat, 2);
    let y = st.year as int;
    if 0 <= y <= 9999 {
        lemma_decimal_no_newline(y as nat, 4);
    } else if y > 9999 {
        lemma_decimal_no_newline(y as nat, 4);
    } else {
        lemma_decimal_no_newline((-y) as nat, 4);
    }
    let t = date_time_text(st);
    assert forall|k: int| 0 <= k < t.len() implies t[k] != '\n' by {
        assert(no_newline(year_text(y)));
    }
}

/// Year as `%Y` writes it: four digits, with a sign outside 0..=9999.
pub open spec fn year_text(y: int) -> Seq<char> {
    if 0 <= y <= 9999 {
        decimal(y as nat, 4)
    } else if y > 9999 {
        seq!['+'] + decimal(y as nat, 4)
    } else {
        seq!['-'] + decimal((-y) as nat, 4)
    }
}

/// `%d-%m-%y`: the name of a day's transcript file.
pub open spec fn day_text(st: Stamp) -> Seq<char> {
    decimal(st.day as nat, 2) + seq!['-'] + decimal(st.month as nat, 2) + seq!['-'] + decimal(
        (st.year as int % 100) as nat,
        2,
    )
}

/// `%H:%M:%S`.
pub open spec fn time_text(st: Stamp) -> Seq<char> {
    decimal(st.hour as nat, 2) + seq![':'] + decimal(st.minute as nat, 2) + seq![':'] + decimal(
        st.second as nat,
        2,
    )
}

/// `%d-%m-%Y %H:%M:%S`.
pub open spec fn date_time_text(st: Stamp) -> Seq<char> {
    decimal(st.day as nat, 2) + seq!['-'] + decimal(st.month as nat, 2) + seq!['-'] + year_text(
        st.year as int,
    ) + seq![' '] + time_text(st)
}

fn digit_str(d: u32) -> (r: &'static str)
    requires
        d < 10,
    ensures
        r@ == seq![digit_char(d as nat)],
{
    proof {
        reveal_strlit("0");
        reveal_strlit("1");
        reveal_strlit("2");
        reveal_strlit("3");
        reveal_strlit("4");
        reveal_strlit("5");
        reveal_strlit("6");
        reveal_strlit("7");
        reveal_strlit("8");
        reveal_strlit("9");
    }
    if d == 0 {
        "0"
    } else if d == 1 {
        "1"
    } else if d == 2 {
        "2"
    } else if d == 3 {
        "3"
    } else if d == 4 {
        "4"
    } else if d == 5 {
        "5"
    } else if d == 6 {
        "6"
    } else if d == 7 {
        "7"
    } else if d == 8 {
        "8"
    } else {
        "9"
    }
}

/// Decimal text of `n`, zero-padded to at least `width` digits.
pub fn decimal_text(n: u32, width: u32) -> (r: String)
    ensures
        r@ == decimal(n as nat, width as nat),
{
    let mut acc = String::new();
    let mut m: u32 = n;
    let mut w: u32 = width;
    loop
        invariant
            decimal(n as nat, width as nat) == decimal(m as nat, w as nat) + acc@,
        decreases m, w,
    {
        if m < 10 && w <= 1 {
            let mut s = String::from_str(digit_str(m));
            s.append(acc.as_str());
            return s;
        }
        let mut s = String::from_str(digit_str(m % 10));
        s.append(acc.as_str());
        proof {
            let w2: nat = if w > 0 { (w - 1) as nat } else { 0 };
            assert(decimal(m as nat, w as nat) == decimal((m / 10) as nat, w2).push(
                digit_char((m % 10) as nat),
            ));
            assert(decimal(m as nat, w as nat) + acc@ =~= decimal((m / 10) as nat, w2) + s@);
        }
        acc = s;
        m = m / 10;
        if w > 0 {
            w = w - 1;
        }
    }
}

fn concat(mut a: String, b: &str) -> (r: String)
    ensures
        r@ == a@ + b@,
{
    a.append(b);
    a
}

/// The text of a year as `%Y` writes it.
pub fn year_string(y: i32) -> (r: String)
    ensures
        r@ == year_text(y as int),
{
    if 0 <= y && y <= 9999 {
        decimal_text(y as u32, 4)
    } else if y > 9999 {
        proof {
            reveal_strlit("+");
        }
        concat(String::from_str("+"), decimal_text(y as u32, 4).as_str())
    } else {
        proof {
            reveal_strlit("-");
        }
        let a: u32 = if y == i32::MIN {
            2147483648u32
        } else {
            (-y) as u32
        };
        concat(String::from_str("-"), decimal_text(a, 4).as_str())
    }
}

impl Stamp {
    /// `%d-%m-%y`.
    pub fn day_string(&self) -> (r: String)
        ensures
            r@ == day_text(*self),
    {
        proof {
            reveal_strlit("-");
        }
        let yy: u32 = if self.year >= 0 {
            (self.year % 100) as u32
        } else {
            let t: i32 = self.year % 100;
            if t == 0 {
                0
            } else {
                (t + 100) as u32
            }
        };
        assert(yy as int == self.year as int % 100);
        let mut r = decimal_text(self.day, 2);
        r.append("-");
        r.append(decimal_text(self.month, 2).as_str());
        r.append("-");
        r.append(decimal_text(yy, 2).as_str());
        r
    }

    /// `%H:%M:%S`.
    pub fn time_string(&self) -> (r: String)
        ensures
            r@ == time_text(*self),
    {
        proof {
            reveal_strlit(":");
        }
        let mut r = decimal_text(self.hour, 2);
        r.append(":");
        r.append(decimal_text(self.minute, 2).as_str());
        r.append(":");
        r.append(decimal_text(self.second, 2).as_str());
        r
    }

    /// `%d-%m-%Y %H:%M:%S`.
    pub fn date_time_string(&self) -> (r: String)
        ensures
            r@ == date_time_text(*self),
    {
        proof {
            reveal_strlit("-");
            reveal_strlit(" ");
        }
        let mut r = decimal_text(self.day, 2);
        r.append("-");
        r.append(decimal_text(self.month, 2).as_str());
        r.append("-");
        r.append(year_string(self.year).as_str());
        r.append(" ");
        r.append(self.time_string().as_str());
        r
    }
}

} // verus!
