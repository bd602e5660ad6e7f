//! Recurrence rules: `[+]<N><unit>` where the unit letter is one of
//! d/w/m/y/b (day, week, month, year, business day) in either case, `N`
//! defaults to 1, and a leading `+` makes the rule strict (the next occurrence
//! is computed from the task's own due date rather than from today).

use vstd::prelude::*;

use crate::date::Date;
use crate::date::add_business_days;
use crate::date::add_days;
use crate::date::add_months;
use crate::date::add_years;
use crate::date::spec_add_business_days;
use crate::date::spec_add_days;
use crate::date::spec_add_months;
use crate::date::spec_add_years;
use crate::date::spec_char_digit;
use crate::date::spec_digit_char;
use crate::date::spec_is_digit;

verus! {

#[derive(Clone, Copy, Debug, PartialEq, Eq, Structural)]
pub enum Unit {
    Day,
    Week,
    Month,
    Year,
    Business,
}

#[derive(Clone, Copy, Debug, PartialEq, Eq, Structural)]
pub struct Recurrence {
    pub period: u32,
    pub unit: Unit,
    pub strict: bool,
}

pub open spec fn spec_unit_of_char(c: char) -> Option<Unit> {
    if c == 'd' || c == 'D' {
        Some(Unit::Day)
    } else if c == 'w' || c == 'W' {
        Some(Unit::Week)
    } else if c == 'm' || c == 'M' {
        Some(Unit::Month)
    } else if c == 'y' || c == 'Y' {
        Some(Unit::Year)
    } else if c == 'b' || c == 'B' {
        Some(Unit::Business)
    } else {
        None
    }
}

pub open spec fn spec_unit_char(u: Unit) -> char {
    match u {
        Unit::Day => 'd',
        Unit::Week => 'w',
        Unit::Month => 'm',
        Unit::Year => 'y',
        Unit::Business => 'b',
    }
}

pub open spec fn spec_all_digits(ds: Seq<char>) -> bool {
    forall|j: int| 0 <= j < ds.len() ==> spec_is_digit(ds[j])
}

/// Value of a string of decimal digits, most significant first.
pub open spec fn spec_digits_val(ds: Seq<char>) -> int
    decreases ds.len(),
{
    if ds.len() == 0 {
        0
    } else {
        spec_digits_val(ds.drop_last()) * 10 + spec_char_digit(ds.last())
    }
}

pub proof fn lemma_digits_val_bounds(ds: Seq<char>)
    requires
        forall|j: int| 0 <= j < ds.len() ==> spec_is_digit(ds[j]),
    ensures
        0 <= spec_digits_val(ds),
        forall|i: int|
            0 <= i <= ds.len() ==> spec_digits_val(#[trigger] ds.take(i)) <= spec_digits_val(ds),
    decreases ds.len(),
{
    if ds.len() > 0 {
        lemma_digits_val_bounds(ds.drop_last());
        assert forall|i: int|
            0 <= i <= ds.len() implies spec_digits_val(#[trigger] ds.take(i)) <= spec_digits_val(
            ds,
        ) by {
            if i < ds.len() {
                assert(ds.take(i) =~= ds.drop_last().take(i));
            } else {
                assert(ds.take(i) =~= ds);
            }
        }
    }
}

/// The decimal digits of `n`, without leading zeros (a single `0` for zero).
pub open spec fn spec_digits_of(n: nat) -> Seq<char>
    decreases n,
{
    if n < 10 {
        seq![spec_digit_char(n as int)]
    } else {
        spec_digits_of(n / 10).push(spec_digit_char((n % 10) as int))
    }
}

pub proof fn lemma_digits_of(n: nat)
    ensures
        spec_digits_of(n).len() >= 1,
        forall|j: int| 0 <= j < spec_digits_of(n).len() ==> spec_is_digit(spec_digits_of(n)[j]),
        spec_digits_val(spec_digits_of(n)) == n,
    decreases n,
{
    if n < 10 {
        assert(spec_digits_of(n) =~= seq![spec_digit_char(n as int)]);
        assert(seq![spec_digit_char(n as int)].drop_last() =~= Seq::<char>::empty());
        assert(spec_digits_val(Seq::<char>::empty()) == 0);
        assert(spec_char_digit(spec_digit_char(n as int)) == n);
        assert(spec_digits_val(spec_digits_of(n)) == spec_char_digit(spec_digit_char(n as int)));
    } else {
        lemma_digits_of(n / 10);
        assert(spec_digits_of(n).drop_last() =~= spec_digits_of(n / 10));
        assert(spec_digits_of(n).last() == spec_digit_char((n % 10) as int));
        assert(spec_char_digit(spec_digit_char((n % 10) as int)) == n % 10);
        assert(spec_digits_val(spec_digits_of(n)) == (n / 10) * 10 + n % 10);
    }
}

fn digits_of(n: u32) -> (r: Vec<char>)
    ensures
        r@ == spec_digits_of(n as nat),
{
    let mut out: Vec<char> = Vec::new();
    let mut cur: u32 = n;
    loop
        invariant
            spec_digits_of(n as nat) == spec_digits_of(cur as nat) + out@,
        decreases cur,
    {
        let d: u32 = cur % 10;
        let next: u32 = cur / 10;
        out.insert(0, crate::date::digit_char(d));
        if next == 0 {
            proof {
                assert(spec_digits_of(cur as nat) =~= seq![
                    spec_digit_char(d as int),
                ] + Seq::<char>::empty()) by {
                    if cur >= 10 {
                        assert(cur / 10 > 0);
                    }
                }
                assert(spec_digits_of(n as nat) =~= out@);
            }
            return out;
        }
        proof {
            assert(spec_digits_of(cur as nat) =~= spec_digits_of(
                next as nat,
            ) + seq![spec_digit_char(d as int)]);
        }
        cur = next;
    }
}

impl Recurrence {
    /// Reads `[+]<N><unit-letter>`: an optional leading `+` (strict), an
    /// optional run of digits whose value must be a positive integer that a
    /// u32 can hold (1 when no digit is given), and one unit letter; any
    /// other shape is no recurrence.
    pub open spec fn spec_parse(w: Seq<char>) -> Option<Recurrence> {
        let strict = w.len() > 0 && w[0] == '+';
        let body = if strict {
            w.skip(1)
        } else {
            w
        };
        if body.len() == 0 {
            None
        } else if spec_unit_of_char(body.last()) is None {
            None
        } else {
            let unit = spec_unit_of_char(body.last())->Some_0;
            let ds = body.drop_last();
            if !spec_all_digits(ds) {
                None
            } else if ds.len() == 0 {
                Some(Recurrence { period: 1, unit, strict })
            } else if 1 <= spec_digits_val(ds) <= u32::MAX {
                Some(Recurrence { period: spec_digits_val(ds) as u32, unit, strict })
            } else {
                None
            }
        }
    }

    /// The canonical written form: `+` when strict, the period's digits, and
    /// the lower-case unit letter.
    pub open spec fn spec_fmt(self) -> Seq<char> {
        let base = spec_digits_of(self.period as nat).push(spec_unit_char(self.unit));
        if self.strict {
            seq!['+'] + base
        } else {
            base
        }
    }

    /// The next occurrence after `reference`: day, week and year advance on
    /// the calendar directly, months clamp the day-of-month, and business
    /// days step one day at a time counting only Monday to Friday.
    pub open spec fn spec_apply(self, d: Date) -> Date {
        match self.unit {
            Unit::Day => spec_add_days(d, self.period as nat),
            Unit::Week => spec_add_days(d, (7 * self.period) as nat),
            Unit::Month => spec_add_months(d, self.period as nat),
            Unit::Year => spec_add_years(d, self.period as nat),
            Unit::Business => spec_add_business_days(d, self.period as nat),
        }
    }

    /// Headroom so that no date field can run over its machine range while
    /// the rule is applied.
    pub open spec fn spec_apply_safe(self, d: Date) -> bool {
        &&& d.year as int + 7 * self.period as int <= u32::MAX as int
        &&& 1 <= d.month <= 12
        &&& d.day <= 31
    }
}

fn unit_of_char(c: char) -> (r: Option<Unit>)
    ensures
        r == spec_unit_of_char(c),
{
    if c == 'd' || c == 'D' {
        Some(Unit::Day)
    } else if c == 'w' || c == 'W' {
        Some(Unit::Week)
    } else if c == 'm' || c == 'M' {
        Some(Unit::Month)
    } else if c == 'y' || c == 'Y' {
        Some(Unit::Year)
    } else if c == 'b' || c == 'B' {
        Some(Unit::Business)
    } else {
        None
    }
}

#[verifier::rlimit(30)]
#[verifier::loop_isolation(false)]
pub fn parse_recurrence(w: &Vec<char>) -> (r: Option<Recurrence>)
    ensures
        r == Recurrence::spec_parse(w@),
        r is Some ==> r->Some_0.period >= 1,
{
    let strict = w.len() > 0 && w[0] == '+';
    let start: usize = if strict {
        1
    } else {
        0
    };
    let ghost body = if strict {
        w@.skip(1)
    } else {
        w@
    };
    if w.len() == start {
        assert(body.len() == 0);
        return None;
    }
    assert(body.len() > 0);
    assert(body.last() == w@[w@.len() - 1]);
    let unit = match unit_of_char(w[w.len() - 1]) {
        Some(u) => u,
        None => {
            assert(Recurrence::spec_parse(w@) is None);
            return None;
        },
    };
    let endd: usize = w.len() - 1;
    let ghost ds = w@.subrange(start as int, endd as int);
    proof {
        assert(body.drop_last() =~= ds);
        assert(ds.take(0) =~= Seq::<char>::empty());
        assert(spec_digits_val(Seq::<char>::empty()) == 0);
    }
    let mut i: usize = start;
    let mut val: u64 = 0;
    while i < endd
        invariant
            start <= i <= endd,
            endd == w@.len() - 1,
            ds == w@.subrange(start as int, endd as int),
            forall|j: int| 0 <= j < i - start ==> spec_is_digit(ds[j]),
            val <= u32::MAX,
            val == spec_digits_val(ds.take(i - start)),
        decreases endd - i,
    {
        assert(ds[i - start] == w@[i as int]);
        let c = w[i];
        if !crate::date::is_digit(c) {
            proof {
                assert(0 <= i - start < ds.len() && !spec_is_digit(ds[i - start]));
                assert(!spec_all_digits(ds));
            }
            return None;
        }
        let dv: u32 = crate::date::char_digit(c);
        let newval: u64 = val * 10 + dv as u64;
        proof {
            assert(ds.take(i - start + 1).drop_last() =~= ds.take(i - start));
            assert(ds.take(i - start + 1).last() == ds[i - start]);
            assert(spec_digits_val(ds.take(i - start + 1)) == newval);
        }
        if newval > u32::MAX as u64 {
            proof {
                lemma_digits_val_bounds_partial(ds, i - start + 1);
                assert(spec_all_digits(ds) ==> spec_digits_val(ds) > u32::MAX);
            }
            return None;
        }
        val = newval;
        i = i + 1;
    }
    proof {
        assert(ds.take(endd - start) =~= ds);
    }
    if endd == start {
        assert(ds.len() == 0);
        return Some(Recurrence { period: 1, unit, strict });
    }
    if val == 0 {
        return None;
    }
    Some(Recurrence { period: val as u32, unit, strict })
}

/// Once a digit prefix is already over the range, the whole run is too,
/// provided every later character is a digit or the value check fails anyway.
proof fn lemma_digits_val_bounds_partial(ds: Seq<char>, i: int)
    requires
        0 <= i <= ds.len(),
        forall|j: int| 0 <= j < i ==> spec_is_digit(ds[j]),
        spec_digits_val(ds.take(i)) > u32::MAX,
    ensures
        spec_all_digits(ds) ==> spec_digits_val(ds) > u32::MAX,
{
    if spec_all_digits(ds) {
        lemma_digits_val_bounds(ds);
        assert(spec_digits_val(ds.take(i)) <= spec_digits_val(ds));
    }
}

pub fn fmt_recurrence(r: Recurrence) -> (out: Vec<char>)
    ensures
        out@ == r.spec_fmt(),
{
    let mut out: Vec<char> = Vec::new();
    if r.strict {
        out.push('+');
    }
    let ds = digits_of(r.period);
    let mut i: usize = 0;
    while i < ds.len()
        invariant
            i <= ds@.len(),
            ds@ == spec_digits_of(r.period as nat),
            out@ == (if r.strict {
                seq!['+']
            } else {
                Seq::<char>::empty()
            }) + ds@.take(i as int),
        decreases ds@.len() - i,
    {
        out.push(ds[i]);
        proof {
            assert(ds@.take(i + 1 as int) =~= ds@.take(i as int).push(ds@[i as int]));
        }
        i = i + 1;
    }
    proof {
        assert(ds@.take(ds@.len() as int) =~= ds@);
    }
    out.push(match r.unit {
        Unit::Day => 'd',
        Unit::Week => 'w',
        Unit::Month => 'm',
        Unit::Year => 'y',
        Unit::Business => 'b',
    });
    proof {
        assert(out@ =~= r.spec_fmt());
    }
    out
}

pub fn apply_recurrence(r: Recurrence, d: Date) -> (out: Date)
    requires
        r.spec_apply_safe(d),
    ensures
        out == r.spec_apply(d),
{
    match r.unit {
        Unit::Day => add_days(d, r.period as u64),
        Unit::Week => add_days(d, 7 * (r.period as u64)),
        Unit::Month => add_months(d, r.period),
        Unit::Year => add_years(d, r.period),
        Unit::Business => add_business_days(d, r.period),
    }
}

/// Writing a rule and reading it back yields the same rule.
pub proof fn lemma_recurrence_roundtrip(r: Recurrence)
    requires
        r.period >= 1,
    ensures
        Recurrence::spec_parse(r.spec_fmt()) == Some(r),
{
    let w = r.spec_fmt();
    lemma_digits_of(r.period as nat);
    let base = spec_digits_of(r.period as nat).push(spec_unit_char(r.unit));
    if r.strict {
        assert(w[0] == '+');
        assert(w.skip(1) =~= base);
    } else {
        assert(spec_is_digit(w[0]));
        assert(w[0] != '+');
    }
    assert(base.last() == spec_unit_char(r.unit));
    assert(base.drop_last() =~= spec_digits_of(r.period as nat));
}

} // verus!
