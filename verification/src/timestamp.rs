//! Wall-clock timestamps at second resolution, their `YYYY-MM-DDTHH-MM-SS`
//! rendering, and the proof that the rendering preserves chronological order.
use vstd::prelude::*;
use crate::bytes::{lex_lt, lemma_lex_append_prefix, lemma_lex_append_lt};

verus! {

/// A local wall-clock time at second resolution.
#[derive(Clone, Copy)]
pub struct Timestamp {
    pub year: u16,
    pub month: u8,
    pub day: u8,
    pub hour: u8,
    pub minute: u8,
    pub second: u8,
}

impl Timestamp {
    /// Field ranges of a calendar time the formatter accepts.
    pub open spec fn valid(self) -> bool {
        &&& self.year <= 9999
        &&& 1 <= self.month <= 12
        &&& 1 <= self.day <= 31
        &&& self.hour <= 23
        &&& self.minute <= 59
        &&& self.second <= 59
    }
}

/// Chronological order: lexicographic on the field tuple.
pub open spec fn ts_lt(a: Timestamp, b: Timestamp) -> bool {
    if a.year != b.year {
        a.year < b.year
    } else if a.month != b.month {
        a.month < b.month
    } else if a.day != b.day {
        a.day < b.day
    } else if a.hour != b.hour {
        a.hour < b.hour
    } else if a.minute != b.minute {
        a.minute < b.minute
    } else {
        a.second < b.second
    }
}

/// The ASCII digit of `n % 10`.
pub open spec fn digit(n: int) -> u8 {
    (48 + (n % 10)) as u8
}

/// Two-digit zero-padded decimal rendering of `n < 100`.
pub open spec fn fmt2(n: int) -> Seq<u8> {
    seq![digit(n / 10), digit(n % 10)]
}

/// Four-digit zero-padded decimal rendering of `n < 10000`.
pub open spec fn fmt4(n: int) -> Seq<u8> {
    fmt2(n / 100) + fmt2(n % 100)
}

/// The snapshot timestamp rendering `YYYY-MM-DDTHH-MM-SS` (45 is `-`, 84 is `T`).
pub open spec fn spec_format(t: Timestamp) -> Seq<u8> {
    fmt4(t.year as int) + seq![45u8] + fmt2(t.month as int) + seq![45u8] + fmt2(t.day as int)
        + seq![84u8] + fmt2(t.hour as int) + seq![45u8] + fmt2(t.minute as int) + seq![45u8]
        + fmt2(t.second as int)
}

proof fn lemma_fmt2_monotone(a: int, b: int)
    requires
        0 <= a < b < 100,
    ensures
        lex_lt(fmt2(a), fmt2(b)),
{
    assert(0 <= a / 10 <= 9 && 0 <= b / 10 <= 9 && 0 <= a % 10 <= 9 && 0 <= b % 10 <= 9) by (nonlinear_arith)
        requires
            0 <= a < 100,
            0 <= b < 100,
    ;
    assert((a / 10) % 10 == a / 10 && (b / 10) % 10 == b / 10);
    if a / 10 < b / 10 {
        assert(digit(a / 10) < digit(b / 10));
        assert(lex_lt(fmt2(a), fmt2(b)));
    } else {
        assert(a / 10 >= b / 10 ==> a / 10 == b / 10) by (nonlinear_arith)
            requires
                0 <= a < b < 100,
        ;
        assert(a % 10 < b % 10) by (nonlinear_arith)
            requires
                0 <= a < b < 100,
                a / 10 == b / 10,
        ;
        assert(digit(a / 10) == digit(b / 10));
        assert(digit(a % 10) < digit(b % 10));
        let s = fmt2(a);
        let t = fmt2(b);
        assert(s.skip(1) =~= seq![digit(a % 10)]);
        assert(t.skip(1) =~= seq![digit(b % 10)]);
        assert(lex_lt(s.skip(1), t.skip(1)));
    }
}

/// Strict lexicographic order on integer tuples of equal length.
pub open spec fn int_lex_lt(a: Seq<int>, b: Seq<int>) -> bool
    decreases a.len(),
{
    if a.len() == 0 || b.len() == 0 {
        false
    } else if a[0] < b[0] {
        true
    } else if a[0] > b[0] {
        false
    } else {
        int_lex_lt(a.skip(1), b.skip(1))
    }
}

/// Two-digit groups glued with one separator string between neighbours.
pub open spec fn glue(gs: Seq<int>, seps: Seq<Seq<u8>>) -> Seq<u8>
    decreases gs.len(),
{
    if gs.len() == 0 {
        Seq::empty()
    } else if gs.len() == 1 {
        fmt2(gs[0])
    } else {
        fmt2(gs[0]) + seps[0] + glue(gs.skip(1), seps.skip(1))
    }
}

proof fn lemma_glue_monotone(ga: Seq<int>, gb: Seq<int>, seps: Seq<Seq<u8>>)
    requires
        ga.len() == gb.len(),
        ga.len() >= 1,
        seps.len() >= ga.len() - 1,
        forall|i: int| 0 <= i < ga.len() ==> 0 <= #[trigger] ga[i] < 100,
        forall|i: int| 0 <= i < gb.len() ==> 0 <= #[trigger] gb[i] < 100,
        int_lex_lt(ga, gb),
    ensures
        lex_lt(glue(ga, seps), glue(gb, seps)),
    decreases ga.len(),
{
    if ga.len() == 1 {
        if ga[0] == gb[0] {
            assert(ga.skip(1).len() == 0);
            assert(!int_lex_lt(ga.skip(1), gb.skip(1)));
            assert(false);
        }
        assert(ga[0] < gb[0]);
        lemma_fmt2_monotone(ga[0], gb[0]);
    } else if ga[0] < gb[0] {
        lemma_fmt2_monotone(ga[0], gb[0]);
        lemma_lex_append_lt(
            fmt2(ga[0]),
            fmt2(gb[0]),
            seps[0] + glue(ga.skip(1), seps.skip(1)),
            seps[0] + glue(gb.skip(1), seps.skip(1)),
        );
        assert(glue(ga, seps) =~= fmt2(ga[0]) + (seps[0] + glue(ga.skip(1), seps.skip(1))));
        assert(glue(gb, seps) =~= fmt2(gb[0]) + (seps[0] + glue(gb.skip(1), seps.skip(1))));
    } else {
        assert(ga[0] == gb[0]);
        lemma_glue_monotone(ga.skip(1), gb.skip(1), seps.skip(1));
        let p = fmt2(ga[0]) + seps[0];
        assert(glue(ga, seps) =~= p + glue(ga.skip(1), seps.skip(1)));
        assert(glue(gb, seps) =~= p + glue(gb.skip(1), seps.skip(1)));
        lemma_lex_append_prefix(p, glue(ga.skip(1), seps.skip(1)), glue(gb.skip(1), seps.skip(1)));
    }
}

/// The groups of the rendering: the year split in two, then month, day,
/// hour, minute, second.
pub open spec fn groups(t: Timestamp) -> Seq<int> {
    seq![
        t.year as int / 100,
        t.year as int % 100,
        t.month as int,
        t.day as int,
        t.hour as int,
        t.minute as int,
        t.second as int,
    ]
}

/// The separator strings of the rendering.
pub open spec fn group_seps() -> Seq<Seq<u8>> {
    seq![Seq::empty(), seq![45u8], seq![45u8], seq![84u8], seq![45u8], seq![45u8]]
}

#[verifier::rlimit(60)]
proof fn lemma_format_is_glue(t: Timestamp)
    requires
        t.valid(),
    ensures
        spec_format(t) =~= glue(groups(t), group_seps()),
{
    reveal_with_fuel(glue, 8);
    let gs = groups(t);
    let sp = group_seps();
    assert(gs.skip(1) =~= seq![
        t.year as int % 100,
        t.month as int,
        t.day as int,
        t.hour as int,
        t.minute as int,
        t.second as int,
    ]);
    assert(gs.skip(1).skip(1) =~= seq![
        t.month as int,
        t.day as int,
        t.hour as int,
        t.minute as int,
        t.second as int,
    ]);
    assert(gs.skip(1).skip(1).skip(1) =~= seq![
        t.day as int,
        t.hour as int,
        t.minute as int,
        t.second as int,
    ]);
    assert(gs.skip(1).skip(1).skip(1).skip(1) =~= seq![
        t.hour as int,
        t.minute as int,
        t.second as int,
    ]);
    assert(gs.skip(1).skip(1).skip(1).skip(1).skip(1) =~= seq![t.minute as int, t.second as int]);
    assert(gs.skip(1).skip(1).skip(1).skip(1).skip(1).skip(1) =~= seq![t.second as int]);
    assert(sp.skip(1) =~= seq![seq![45u8], seq![45u8], seq![84u8], seq![45u8], seq![45u8]]);
    assert(sp.skip(1).skip(1) =~= seq![seq![45u8], seq![84u8], seq![45u8], seq![45u8]]);
    assert(sp.skip(1).skip(1).skip(1) =~= seq![seq![84u8], seq![45u8], seq![45u8]]);
    assert(sp.skip(1).skip(1).skip(1).skip(1) =~= seq![seq![45u8], seq![45u8]]);
    assert(sp.skip(1).skip(1).skip(1).skip(1).skip(1) =~= seq![seq![45u8]]);
}

/// `int_lex_lt` follows from a first index where the tuples differ.
proof fn lemma_int_lex_from_point(a: Seq<int>, b: Seq<int>, k: int)
    requires
        a.len() == b.len(),
        0 <= k < a.len(),
        forall|i: int| 0 <= i < k ==> a[i] == b[i],
        a[k] < b[k],
    ensures
        int_lex_lt(a, b),
    decreases k,
{
    if k == 0 {
    } else {
        assert(a[0] == b[0]);
        assert(forall|i: int| 0 <= i < k - 1 ==> a.skip(1)[i] == b.skip(1)[i]);
        assert(a.skip(1)[k - 1] < b.skip(1)[k - 1]);
        lemma_int_lex_from_point(a.skip(1), b.skip(1), k - 1);
    }
}

proof fn lemma_groups_bounded(t: Timestamp)
    requires
        t.valid(),
    ensures
        forall|i: int| 0 <= i < groups(t).len() ==> 0 <= #[trigger] groups(t)[i] < 100,
{
    assert(0 <= t.year as int / 100 < 100 && 0 <= t.year as int % 100 < 100) by (nonlinear_arith)
        requires
            0 <= t.year <= 9999,
    ;
}

#[verifier::spinoff_prover]
proof fn lemma_groups_lt(a: Timestamp, b: Timestamp)
    requires
        a.valid(),
        b.valid(),
        ts_lt(a, b),
    ensures
        int_lex_lt(groups(a), groups(b)),
{
    let ga = groups(a);
    let gb = groups(b);
    {
        if a.year < b.year {
            assert(a.year as int / 100 <= b.year as int / 100 && (a.year as int / 100
                == b.year as int / 100 ==> a.year as int % 100 < b.year as int % 100))
                by (nonlinear_arith)
                requires
                    0 <= a.year < b.year,
            ;
            if ga[0] < gb[0] {
                lemma_int_lex_from_point(ga, gb, 0);
            } else {
                lemma_int_lex_from_point(ga, gb, 1);
            }
        } else if a.month != b.month {
            lemma_int_lex_from_point(ga, gb, 2);
        } else if a.day != b.day {
            lemma_int_lex_from_point(ga, gb, 3);
        } else if a.hour != b.hour {
            lemma_int_lex_from_point(ga, gb, 4);
        } else if a.minute != b.minute {
            lemma_int_lex_from_point(ga, gb, 5);
        } else {
            lemma_int_lex_from_point(ga, gb, 6);
        }
    }
}

/// Chronological order of timestamps is exactly lexicographic order of their
/// renderings: an earlier time always formats to a lexicographically smaller
/// name, so sorted snapshot names are sorted by creation time.
#[verifier::spinoff_prover]
#[verifier::rlimit(100)]
pub proof fn lemma_format_monotone(a: Timestamp, b: Timestamp)
    requires
        a.valid(),
        b.valid(),
        ts_lt(a, b),
    ensures
        lex_lt(spec_format(a), spec_format(b)),
{
    lemma_format_is_glue(a);
    lemma_format_is_glue(b);
    lemma_groups_bounded(a);
    lemma_groups_bounded(b);
    lemma_groups_lt(a, b);
    lemma_glue_monotone(groups(a), groups(b), group_seps());
}

fn push2(v: &mut Vec<u8>, n: u8)
    requires
        n < 100,
    ensures
        final(v)@ =~= old(v)@ + fmt2(n as int),
{
    v.push(48 + n / 10);
    v.push(48 + n % 10);
}

impl Timestamp {
    /// Renders the timestamp as `YYYY-MM-DDTHH-MM-SS`.
    pub fn format(&self) -> (r: Vec<u8>)
        requires
            self.valid(),
        ensures
            r@ =~= spec_format(*self),
    {
        let mut v: Vec<u8> = Vec::new();
        push2(&mut v, (self.year / 100) as u8);
        push2(&mut v, (self.year % 100) as u8);
        assert(v@ =~= fmt4(self.year as int)) by {
            assert(self.year as int / 100 == (self.year / 100) as u8 as int);
            assert(self.year as int % 100 == (self.year % 100) as u8 as int);
        }
        v.push(45);
        push2(&mut v, self.month);
        v.push(45);
        push2(&mut v, self.day);
        v.push(84);
        push2(&mut v, self.hour);
        v.push(45);
        push2(&mut v, self.minute);
        v.push(45);
        push2(&mut v, self.second);
        assert(v@ =~= spec_format(*self));
        v
    }

    /// Builds a timestamp from raw clock fields, rejecting out-of-range ones.
    pub fn from_clock(year: i32, month: u32, day: u32, hour: u32, minute: u32, second: u32) -> (r:
        Option<Timestamp>)
        ensures
            r matches Some(t) ==> {
                &&& t.valid()
                &&& t.year == year
                &&& t.month == month
                &&& t.day == day
                &&& t.hour == hour
                &&& t.minute == minute
                &&& t.second == second
            },
            r is None ==> !(0 <= year <= 9999 && 1 <= month <= 12 && 1 <= day <= 31 && hour <= 23
                && minute <= 59 && second <= 59),
    {
        if 0 <= year && year <= 9999 && 1 <= month && month <= 12 && 1 <= day && day <= 31
            && hour <= 23 && minute <= 59 && second <= 59 {
            Some(
                Timestamp {
                    year: year as u16,
                    month: month as u8,
                    day: day as u8,
                    hour: hour as u8,
                    minute: minute as u8,
                    second: second as u8,
                },
            )
        } else {
            None
        }
    }
}

/// Relies on chrono's `Local::now` with the `Datelike` and `Timelike`
/// accessors: month is 1 to 12, day 1 to 31, hour 0 to 23, minute and
/// second 0 to 59; the year is unconstrained.
#[verifier::external_body]
fn clock_now() -> (r: (i32, u32, u32, u32, u32, u32))
    ensures
        1 <= r.1 <= 12,
        1 <= r.2 <= 31,
        r.3 <= 23,
        r.4 <= 59,
        r.5 <= 59,
{
    let now = chrono::Local::now();
    (
        chrono::Datelike::year(&now),
        chrono::Datelike::month(&now),
        chrono::Datelike::day(&now),
        chrono::Timelike::hour(&now),
        chrono::Timelike::minute(&now),
        chrono::Timelike::second(&now),
    )
}

/// The current local time, when its year fits the four-digit rendering.
pub fn current_timestamp() -> (r: Option<Timestamp>)
    ensures
        r matches Some(t) ==> t.valid(),
{
    let (y, mo, d, h, mi, s) = clock_now();
    Timestamp::from_clock(y, mo, d, h, mi, s)
}

} // verus!
