//! Lunar month periods: the spans between successive new moons, and the principal
//! solar terms that fall into them.

use crate::civil::{
    cst_date_of, date_only_of, lemma_date_only_of, lemma_day_number_monotonic, local_day,
    within_cst_range, DateOnly,
};
use vstd::prelude::*;

verus! {

/// An even-numbered solar term: its instant, its local calendar date and its number `1..=12`,
/// where 11 is the winter solstice.
#[derive(Clone, Copy, Debug, PartialEq, Eq, Structural)]
pub struct PrincipalTerm {
    pub instant_utc_ms: i64,
    pub cst_date: DateOnly,
    pub term_index: u32,
}

/// One lunar month: from a new moon up to, and not including, the next.
#[derive(Clone, Copy, Debug, PartialEq, Eq, Structural)]
pub struct MonthPeriod {
    pub start_utc_ms: i64,
    pub end_utc_ms: i64,
    pub start_cst: DateOnly,
    pub end_cst: DateOnly,
    pub has_principal: bool,
    pub is_leap: bool,
    pub month_number: u32,
}

/// Number `1..=12` of the principal term at an even sector of 15 degrees of solar longitude:
/// sector 0 is term 2, sector 18 the winter solstice, term 11, and sector 22 term 1.
pub open spec fn term_index_of_sector(sector: int) -> int {
    let raw = sector / 2 + 2;
    if raw > 12 {
        raw - 12
    } else {
        raw
    }
}

/// The principal term of a solar-term crossing at an even sector.
pub open spec fn principal_term_of(pair: (i64, u32), offset_seconds: int) -> PrincipalTerm {
    PrincipalTerm {
        instant_utc_ms: pair.0,
        cst_date: date_only_of(pair.0 as int, offset_seconds),
        term_index: term_index_of_sector(pair.1 as int) as u32,
    }
}

/// The principal terms among solar-term crossings `(instant, sector)`: those at even
/// sectors, in the order given.
pub open spec fn principal_terms_of(pairs: Seq<(i64, u32)>, offset_seconds: int) -> Seq<
    PrincipalTerm,
>
    decreases pairs.len(),
{
    if pairs.len() == 0 {
        Seq::empty()
    } else {
        let before = principal_terms_of(pairs.drop_last(), offset_seconds);
        if pairs.last().1 % 2 == 0 {
            before.push(principal_term_of(pairs.last(), offset_seconds))
        } else {
            before
        }
    }
}

/// The period between two new moons, not yet numbered.
pub open spec fn blank_period(start_ms: i64, end_ms: i64, offset_seconds: int) -> MonthPeriod {
    MonthPeriod {
        start_utc_ms: start_ms,
        end_utc_ms: end_ms,
        start_cst: date_only_of(start_ms as int, offset_seconds),
        end_cst: date_only_of(end_ms as int, offset_seconds),
        has_principal: false,
        is_leap: false,
        month_number: 0,
    }
}

/// The periods between each new moon and the next, not yet numbered.
pub open spec fn periods_of(new_moons: Seq<i64>, offset_seconds: int) -> Seq<MonthPeriod> {
    if new_moons.len() < 2 {
        Seq::empty()
    } else {
        Seq::new(
            (new_moons.len() - 1) as nat,
            |i: int| blank_period(new_moons[i], new_moons[i + 1], offset_seconds),
        )
    }
}

/// Whether a period holds a calendar date between its first day and the day of the next new
/// moon, the latter excluded.
pub open spec fn period_has_date(period: MonthPeriod, date: DateOnly) -> bool {
    date.within(period.start_cst, period.end_cst)
}

/// Whether a period holds an instant, its end excluded.
pub open spec fn period_has_instant(period: MonthPeriod, instant_ms: int) -> bool {
    period.start_utc_ms <= instant_ms < period.end_utc_ms
}

/// Index of the first period from `from` on that holds a calendar date.
pub open spec fn first_period_with_date(periods: Seq<MonthPeriod>, date: DateOnly, from: int)
    -> Option<int>
    decreases periods.len() - from,
{
    if from < 0 || from >= periods.len() {
        None
    } else if period_has_date(periods[from], date) {
        Some(from)
    } else {
        first_period_with_date(periods, date, from + 1)
    }
}

/// Index of the first period from `from` on that holds an instant.
pub open spec fn first_period_with_instant(periods: Seq<MonthPeriod>, instant_ms: int, from: int)
    -> Option<int>
    decreases periods.len() - from,
{
    if from < 0 || from >= periods.len() {
        None
    } else if period_has_instant(periods[from], instant_ms) {
        Some(from)
    } else {
        first_period_with_instant(periods, instant_ms, from + 1)
    }
}

/// Whether some principal term falls, by its calendar date, first into the period at index `i`.
pub open spec fn receives_term(periods: Seq<MonthPeriod>, terms: Seq<PrincipalTerm>, i: int)
    -> bool {
    exists|k: int|
        0 <= k < terms.len() && first_period_with_date(periods, #[trigger] terms[k].cst_date, 0)
            == Some(i)
}

/// Whether two sequences of periods cover the same spans, instant by instant and date by date.
pub open spec fn same_spans(a: Seq<MonthPeriod>, b: Seq<MonthPeriod>) -> bool {
    &&& a.len() == b.len()
    &&& forall|i: int|
        0 <= i < a.len() ==> {
            &&& (#[trigger] a[i]).start_utc_ms == b[i].start_utc_ms
            &&& a[i].end_utc_ms == b[i].end_utc_ms
            &&& a[i].start_cst == b[i].start_cst
            &&& a[i].end_cst == b[i].end_cst
        }
}

/// The periods with each one marked that receives a principal term.
pub open spec fn tagged(periods: Seq<MonthPeriod>, terms: Seq<PrincipalTerm>) -> Seq<MonthPeriod> {
    Seq::new(
        periods.len(),
        |i: int|
            MonthPeriod {
                has_principal: periods[i].has_principal || receives_term(periods, terms, i),
                ..periods[i]
            },
    )
}

/// The month periods between the new moons, each marked if a principal term falls into it.
pub open spec fn segment_spec(
    new_moons: Seq<i64>,
    terms: Seq<PrincipalTerm>,
    offset_seconds: int,
) -> Seq<MonthPeriod> {
    tagged(periods_of(new_moons, offset_seconds), terms)
}

/// The number `1..=12` of the principal term at an even sector.
pub fn term_index_for_sector(sector: u32) -> (term_index: u32)
    ensures
        term_index == term_index_of_sector(sector as int),
        sector <= 23 ==> 1 <= term_index <= 12,
{
    let term_index_raw: u32 = (sector / 2) + 2;
    if term_index_raw > 12 {
        term_index_raw - 12
    } else {
        term_index_raw
    }
}

/// Picks the principal terms out of solar-term crossings `(instant in milliseconds, sector)`
/// and dates each in local time.
pub fn build_principal_terms(solar_term_pairs: &Vec<(i64, u32)>, offset_seconds: i32) -> (terms:
    Vec<PrincipalTerm>)
    ensures
        terms@ == principal_terms_of(solar_term_pairs@, offset_seconds as int),
{
    let mut terms: Vec<PrincipalTerm> = Vec::new();
    let mut i: usize = 0;
    while i < solar_term_pairs.len()
        invariant
            i <= solar_term_pairs.len(),
            terms@ == principal_terms_of(solar_term_pairs@.take(i as int), offset_seconds as int),
        decreases solar_term_pairs.len() - i,
    {
        let (ts, idx) = solar_term_pairs[i];
        proof {
            assert(solar_term_pairs@.take(i + 1).drop_last() == solar_term_pairs@.take(i as int));
        }
        if idx % 2 == 0 {
            let term_index: u32 = term_index_for_sector(idx);
            let cst_date = cst_date_of(ts, offset_seconds);
            terms.push(PrincipalTerm { instant_utc_ms: ts, cst_date, term_index });
        }
        i += 1;
    }
    proof {
        assert(solar_term_pairs@.take(solar_term_pairs.len() as int) == solar_term_pairs@);
    }
    terms
}

/// Cuts time into periods at the new moons, given in milliseconds; none where fewer than
/// two new moons are given.
pub fn build_periods(new_moons: &Vec<i64>, offset_seconds: i32) -> (periods: Vec<MonthPeriod>)
    ensures
        periods@ == periods_of(new_moons@, offset_seconds as int),
{
    let mut periods: Vec<MonthPeriod> = Vec::new();
    if new_moons.len() < 2 {
        assert(periods@ =~= periods_of(new_moons@, offset_seconds as int));
        return periods;
    }
    let mut i: usize = 0;
    while i < new_moons.len() - 1
        invariant
            new_moons.len() >= 2,
            i <= new_moons.len() - 1,
            periods@.len() == i,
            forall|k: int|
                0 <= k < i ==> periods@[k] == blank_period(
                    new_moons@[k],
                    new_moons@[k + 1],
                    offset_seconds as int,
                ),
        decreases new_moons.len() - 1 - i,
    {
        let start_utc_ms: i64 = new_moons[i];
        let end_utc_ms: i64 = new_moons[i + 1];
        let start_cst = cst_date_of(start_utc_ms, offset_seconds);
        let end_cst = cst_date_of(end_utc_ms, offset_seconds);
        periods.push(
            MonthPeriod {
                start_utc_ms,
                end_utc_ms,
                start_cst,
                end_cst,
                has_principal: false,
                is_leap: false,
                month_number: 0,
            },
        );
        i += 1;
    }
    assert(periods@ =~= periods_of(new_moons@, offset_seconds as int));
    periods
}

/// Index of the first period that holds a calendar date.
pub fn find_period_with_date(periods: &Vec<MonthPeriod>, date: &DateOnly) -> (found: Option<usize>)
    ensures
        match found {
            Some(i) => first_period_with_date(periods@, *date, 0) == Some(i as int) && i
                < periods.len() && period_has_date(periods@[i as int], *date),
            None => first_period_with_date(periods@, *date, 0).is_none(),
        },
{
    let mut i: usize = 0;
    while i < periods.len()
        invariant
            i <= periods.len(),
            first_period_with_date(periods@, *date, 0) == first_period_with_date(
                periods@,
                *date,
                i as int,
            ),
        decreases periods.len() - i,
    {
        if within_cst_range(date, &periods[i].start_cst, &periods[i].end_cst) {
            return Some(i);
        }
        i += 1;
    }
    None
}

/// Index of the first period that holds an instant.
pub fn find_period_with_instant(periods: &Vec<MonthPeriod>, instant_ms: i64) -> (found: Option<
    usize,
>)
    ensures
        match found {
            Some(i) => first_period_with_instant(periods@, instant_ms as int, 0) == Some(i as int)
                && i < periods.len() && period_has_instant(periods@[i as int], instant_ms as int),
            None => first_period_with_instant(periods@, instant_ms as int, 0).is_none(),
        },
{
    let mut i: usize = 0;
    while i < periods.len()
        invariant
            i <= periods.len(),
            first_period_with_instant(periods@, instant_ms as int, 0) == first_period_with_instant(
                periods@,
                instant_ms as int,
                i as int,
            ),
        decreases periods.len() - i,
    {
        if periods[i].start_utc_ms <= instant_ms && instant_ms < periods[i].end_utc_ms {
            return Some(i);
        }
        i += 1;
    }
    None
}

/// The first period that holds a date depends on the periods' spans alone.
pub proof fn lemma_first_period_with_date_by_spans(
    a: Seq<MonthPeriod>,
    b: Seq<MonthPeriod>,
    date: DateOnly,
    from: int,
)
    requires
        same_spans(a, b),
    ensures
        first_period_with_date(a, date, from) == first_period_with_date(b, date, from),
    decreases a.len() - from,
{
    if 0 <= from < a.len() {
        assert(a[from].start_cst == b[from].start_cst);
        lemma_first_period_with_date_by_spans(a, b, date, from + 1);
    }
}

/// Marks each period into which a principal term falls by its calendar date; a term marks
/// the first period whose dates hold it.
pub fn tag_principal_terms(periods: &mut Vec<MonthPeriod>, terms: &Vec<PrincipalTerm>)
    ensures
        final(periods)@ == tagged(old(periods)@, terms@),
{
    let ghost base = periods@;
    let mut k: usize = 0;
    while k < terms.len()
        invariant
            k <= terms.len(),
            same_spans(periods@, base),
            forall|i: int|
                0 <= i < base.len() ==> (#[trigger] periods@[i]).is_leap == base[i].is_leap
                    && periods@[i].month_number == base[i].month_number,
            forall|i: int|
                0 <= i < base.len() ==> ((#[trigger] periods@[i]).has_principal <==> (
                base[i].has_principal || receives_term(base, terms@.take(k as int), i))),
        decreases terms.len() - k,
    {
        let date = terms[k].cst_date;
        let found = find_period_with_date(periods, &date);
        proof {
            lemma_first_period_with_date_by_spans(periods@, base, date, 0);
        }
        let ghost before = periods@;
        match found {
            Some(i) => {
                let mut p = periods[i];
                p.has_principal = true;
                periods.set(i, p);
            },
            None => {},
        }
        proof {
            let prev = terms@.take(k as int);
            let next = terms@.take(k + 1);
            assert(next[k as int] == terms@[k as int]);
            assert forall|i: int| 0 <= i < base.len() implies ((#[trigger] periods@[i]).has_principal
                <==> (base[i].has_principal || receives_term(base, next, i))) by {
                if receives_term(base, prev, i) {
                    let w = choose|w: int|
                        0 <= w < prev.len() && first_period_with_date(
                            base,
                            #[trigger] prev[w].cst_date,
                            0,
                        ) == Some(i);
                    assert(next[w] == prev[w]);
                }
                if receives_term(base, next, i) {
                    let w = choose|w: int|
                        0 <= w < next.len() && first_period_with_date(
                            base,
                            #[trigger] next[w].cst_date,
                            0,
                        ) == Some(i);
                    if w < k {
                        assert(prev[w] == next[w]);
                    }
                }
            }
        }
        k += 1;
    }
    proof {
        assert(terms@.take(terms.len() as int) == terms@);
        assert(periods@ =~= tagged(base, terms@));
    }
}

/// The month periods between the new moons, each marked if a principal term falls into it.
pub fn segment(new_moons: &Vec<i64>, terms: &Vec<PrincipalTerm>, offset_seconds: i32) -> (periods:
    Vec<MonthPeriod>)
    ensures
        periods@ == segment_spec(new_moons@, terms@, offset_seconds as int),
{
    let mut periods = build_periods(new_moons, offset_seconds);
    tag_principal_terms(&mut periods, terms);
    periods
}


/// Whether instants never run backward.
pub open spec fn instants_ordered(instants: Seq<i64>) -> bool {
    forall|i: int, j: int| 0 <= i < j < instants.len() ==> instants[i] <= instants[j]
}

/// Whether the periods are the spans between each new moon and the next.
pub open spec fn spans_new_moons(periods: Seq<MonthPeriod>, new_moons: Seq<i64>) -> bool {
    &&& periods.len() + 1 == new_moons.len()
    &&& forall|i: int|
        0 <= i < periods.len() ==> (#[trigger] periods[i]).start_utc_ms == new_moons[i]
            && periods[i].end_utc_ms == new_moons[i + 1]
}

/// With two new moons or more, segmentation yields the spans between each and the next.
pub proof fn lemma_segment_spans(
    new_moons: Seq<i64>,
    terms: Seq<PrincipalTerm>,
    offset_seconds: int,
)
    requires
        new_moons.len() >= 2,
    ensures
        spans_new_moons(segment_spec(new_moons, terms, offset_seconds), new_moons),
        same_spans(
            segment_spec(new_moons, terms, offset_seconds),
            periods_of(new_moons, offset_seconds),
        ),
{
}

/// Adjacent periods meet: each ends at the instant at which the next starts, the first starts
/// at the first new moon and the last ends at the last.
pub proof fn lemma_periods_contiguous(periods: Seq<MonthPeriod>, new_moons: Seq<i64>)
    requires
        spans_new_moons(periods, new_moons),
    ensures
        forall|i: int|
            0 <= i && i + 1 < periods.len() ==> (#[trigger] periods[i]).end_utc_ms == periods[i
                + 1].start_utc_ms,
        periods.len() > 0 ==> periods[0].start_utc_ms == new_moons[0] && periods[periods.len()
            - 1].end_utc_ms == new_moons[new_moons.len() - 1],
{
}

/// No two periods overlap: an instant lies in one period at most.
pub proof fn lemma_periods_disjoint(
    periods: Seq<MonthPeriod>,
    new_moons: Seq<i64>,
    instant_ms: int,
    i: int,
    j: int,
)
    requires
        spans_new_moons(periods, new_moons),
        instants_ordered(new_moons),
        0 <= i < periods.len(),
        0 <= j < periods.len(),
        period_has_instant(periods[i], instant_ms),
        period_has_instant(periods[j], instant_ms),
    ensures
        i == j,
{
    if i < j {
        assert(new_moons[i + 1] <= new_moons[j]);
    }
    if j < i {
        assert(new_moons[j + 1] <= new_moons[i]);
    }
}

/// The periods leave no gap: every instant from the first new moon up to the last lies in
/// a period.
pub proof fn lemma_periods_cover(
    periods: Seq<MonthPeriod>,
    new_moons: Seq<i64>,
    instant_ms: int,
    upto: int,
)
    requires
        spans_new_moons(periods, new_moons),
        1 <= upto < new_moons.len(),
        new_moons[0] <= instant_ms < new_moons[upto],
    ensures
        exists|i: int| 0 <= i < upto && period_has_instant(#[trigger] periods[i], instant_ms),
    decreases upto,
{
    if new_moons[upto - 1] <= instant_ms {
        assert(period_has_instant(periods[upto - 1], instant_ms));
    } else {
        lemma_periods_cover(periods, new_moons, instant_ms, upto - 1);
        let i = choose|i: int|
            0 <= i < upto - 1 && period_has_instant(#[trigger] periods[i], instant_ms);
        assert(period_has_instant(periods[i], instant_ms));
    }
}

/// The first period from `from` on that holds an instant, if there is one, holds it, and none
/// between `from` and it does.
pub proof fn lemma_first_period_with_instant(
    periods: Seq<MonthPeriod>,
    instant_ms: int,
    from: int,
)
    requires
        0 <= from,
    ensures
        match first_period_with_instant(periods, instant_ms, from) {
            Some(i) => {
                &&& from <= i < periods.len()
                &&& period_has_instant(periods[i], instant_ms)
                &&& forall|j: int|
                    from <= j < i ==> !period_has_instant(#[trigger] periods[j], instant_ms)
            },
            None => forall|j: int|
                from <= j < periods.len() ==> !period_has_instant(
                    #[trigger] periods[j],
                    instant_ms,
                ),
        },
    decreases periods.len() - from,
{
    if from < periods.len() && !period_has_instant(periods[from], instant_ms) {
        lemma_first_period_with_instant(periods, instant_ms, from + 1);
    }
}

/// The first period from `from` on that holds a date, if there is one, holds it, and none
/// between `from` and it does.
pub proof fn lemma_first_period_with_date(periods: Seq<MonthPeriod>, date: DateOnly, from: int)
    requires
        0 <= from,
    ensures
        match first_period_with_date(periods, date, from) {
            Some(i) => {
                &&& from <= i < periods.len()
                &&& period_has_date(periods[i], date)
                &&& forall|j: int| from <= j < i ==> !period_has_date(#[trigger] periods[j], date)
            },
            None => forall|j: int|
                from <= j < periods.len() ==> !period_has_date(#[trigger] periods[j], date),
        },
    decreases periods.len() - from,
{
    if from < periods.len() && !period_has_date(periods[from], date) {
        lemma_first_period_with_date(periods, date, from + 1);
    }
}

/// A new moon belongs to the period that it starts, and to no other: a period holds its
/// first instant and not its last.
pub proof fn lemma_new_moon_starts_its_period(
    periods: Seq<MonthPeriod>,
    new_moons: Seq<i64>,
    i: int,
)
    requires
        spans_new_moons(periods, new_moons),
        instants_ordered(new_moons),
        0 <= i < periods.len(),
        new_moons[i] < new_moons[i + 1],
    ensures
        period_has_instant(periods[i], new_moons[i] as int),
        !period_has_instant(periods[i], new_moons[i + 1] as int),
        first_period_with_instant(periods, new_moons[i] as int, 0) == Some(i),
        forall|j: int|
            0 <= j < periods.len() && j != i ==> !period_has_instant(
                #[trigger] periods[j],
                new_moons[i] as int,
            ),
{
    let t = new_moons[i] as int;
    assert(period_has_instant(periods[i], t));
    assert forall|j: int| 0 <= j < periods.len() && j != i implies !period_has_instant(
        #[trigger] periods[j],
        t,
    ) by {
        if period_has_instant(periods[j], t) {
            lemma_periods_disjoint(periods, new_moons, t, i, j);
        }
    }
    lemma_first_period_with_instant(periods, t, 0);
}

/// A later instant falls on no earlier local date.
pub proof fn lemma_dates_follow_instants(earlier_ms: i64, later_ms: i64, offset_seconds: i32)
    requires
        earlier_ms <= later_ms,
    ensures
        !date_only_of(later_ms as int, offset_seconds as int).before(
            date_only_of(earlier_ms as int, offset_seconds as int),
        ),
{
    let a = date_only_of(earlier_ms as int, offset_seconds as int);
    let b = date_only_of(later_ms as int, offset_seconds as int);
    lemma_date_only_of(earlier_ms as int, offset_seconds as int);
    lemma_date_only_of(later_ms as int, offset_seconds as int);
    assert(local_day(earlier_ms as int, offset_seconds as int) <= local_day(
        later_ms as int,
        offset_seconds as int,
    ));
    if b.before(a) {
        lemma_day_number_monotonic(
            b.y as int,
            b.m as int,
            b.d as int,
            a.y as int,
            a.m as int,
            a.d as int,
        );
    }
}

/// Where the new moons are in order of time, a calendar date falls into one period at most.
pub proof fn lemma_date_in_one_period(
    new_moons: Seq<i64>,
    terms: Seq<PrincipalTerm>,
    offset_seconds: i32,
    date: DateOnly,
    i: int,
    j: int,
)
    requires
        instants_ordered(new_moons),
        0 <= i < j < segment_spec(new_moons, terms, offset_seconds as int).len(),
        period_has_date(segment_spec(new_moons, terms, offset_seconds as int)[i], date),
    ensures
        !period_has_date(segment_spec(new_moons, terms, offset_seconds as int)[j], date),
{
    let periods = segment_spec(new_moons, terms, offset_seconds as int);
    assert(periods[i].end_cst == date_only_of(new_moons[i + 1] as int, offset_seconds as int));
    assert(periods[j].start_cst == date_only_of(new_moons[j] as int, offset_seconds as int));
    lemma_dates_follow_instants(new_moons[i + 1], new_moons[j], offset_seconds);
}

} // verus!
