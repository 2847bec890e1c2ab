//! Numbering of lunar months: the period that holds the winter solstice is the eleventh
//! month, and the numbers run forward and backward from it; a period without a principal
//! term is a leap month and repeats the number of the month before it.

use crate::civil::{local_date, utc_ms_to_date_parts};
use crate::segment::{same_spans, spans_new_moons, MonthPeriod, PrincipalTerm};
use vstd::prelude::*;

verus! {

/// Gregorian year, in UTC, of an instant.
pub open spec fn utc_year(instant_ms: int) -> int {
    local_date(instant_ms, 0).0
}

/// Whether a term is a winter solstice.
pub open spec fn is_solstice(term: PrincipalTerm) -> bool {
    term.term_index == 11
}

/// Whether a term is the winter solstice of a Gregorian year.
pub open spec fn is_solstice_of_year(term: PrincipalTerm, year: int) -> bool {
    is_solstice(term) && utc_year(term.instant_utc_ms as int) == year
}

/// Index of the first winter solstice of a Gregorian year among the terms from `from` on.
pub open spec fn first_solstice_of_year(terms: Seq<PrincipalTerm>, year: int, from: int) -> Option<
    int,
>
    decreases terms.len() - from,
{
    if from < 0 || from >= terms.len() {
        None
    } else if is_solstice_of_year(terms[from], year) {
        Some(from)
    } else {
        first_solstice_of_year(terms, year, from + 1)
    }
}

/// Number of years between the year of a term and a target year.
pub open spec fn year_distance(term: PrincipalTerm, target_year: int) -> int {
    let y = utc_year(term.instant_utc_ms as int);
    if y >= target_year {
        y - target_year
    } else {
        target_year - y
    }
}

/// Index of the winter solstice nearest in years to a target year among the first `upto`
/// terms; of several equally near, the first.
pub open spec fn nearest_solstice(terms: Seq<PrincipalTerm>, target_year: int, upto: int)
    -> Option<int>
    decreases upto,
{
    if upto <= 0 || upto > terms.len() {
        None
    } else {
        let before = nearest_solstice(terms, target_year, upto - 1);
        let k = upto - 1;
        if !is_solstice(terms[k]) {
            before
        } else {
            match before {
                None => Some(k),
                Some(b) => if year_distance(terms[k], target_year) < year_distance(
                    terms[b],
                    target_year,
                ) {
                    Some(k)
                } else {
                    Some(b)
                },
            }
        }
    }
}

/// Index of the winter solstice that goes with a target year: the first of that year, or
/// else the nearest in years.
pub open spec fn chosen_solstice(terms: Seq<PrincipalTerm>, target_year: int) -> Option<int> {
    match first_solstice_of_year(terms, target_year, 0) {
        Some(i) => Some(i),
        None => nearest_solstice(terms, target_year, terms.len() as int),
    }
}

/// Index of the winter solstice from which the months round an instant are numbered: the one
/// chosen for the target year, or, where the instant lies before it, that of the year before
/// if there is one.
pub open spec fn anchor_solstice(terms: Seq<PrincipalTerm>, instant_ms: int, target_year: int)
    -> Option<int> {
    match chosen_solstice(terms, target_year) {
        None => None,
        Some(c) => if instant_ms >= terms[c].instant_utc_ms {
            Some(c)
        } else {
            match first_solstice_of_year(terms, target_year - 1, 0) {
                Some(p) => Some(p),
                None => Some(c),
            }
        },
    }
}

/// The nearest solstice, if there is one, is a solstice no farther in years than any other,
/// and nearer than every solstice before it.
pub proof fn lemma_nearest_solstice(terms: Seq<PrincipalTerm>, target_year: int, upto: int)
    requires
        0 <= upto <= terms.len(),
    ensures
        match nearest_solstice(terms, target_year, upto) {
            Some(b) => {
                &&& 0 <= b < upto
                &&& is_solstice(terms[b])
                &&& forall|j: int|
                    0 <= j < upto && is_solstice(#[trigger] terms[j]) ==> year_distance(
                        terms[b],
                        target_year,
                    ) <= year_distance(terms[j], target_year)
                &&& forall|j: int|
                    0 <= j < b && is_solstice(#[trigger] terms[j]) ==> year_distance(
                        terms[b],
                        target_year,
                    ) < year_distance(terms[j], target_year)
            },
            None => forall|j: int| 0 <= j < upto ==> !is_solstice(#[trigger] terms[j]),
        },
    decreases upto,
{
    if upto > 0 {
        lemma_nearest_solstice(terms, target_year, upto - 1);
    }
}

/// The first solstice of a year, if there is one, is a solstice of that year with none
/// of that year before it.
pub proof fn lemma_first_solstice_of_year(terms: Seq<PrincipalTerm>, year: int, from: int)
    requires
        0 <= from,
    ensures
        match first_solstice_of_year(terms, year, from) {
            Some(i) => {
                &&& from <= i < terms.len()
                &&& is_solstice_of_year(terms[i], year)
                &&& forall|j: int| from <= j < i ==> !is_solstice_of_year(#[trigger] terms[j], year)
            },
            None => forall|j: int|
                from <= j < terms.len() ==> !is_solstice_of_year(#[trigger] terms[j], year),
        },
    decreases terms.len() - from,
{
    if from < terms.len() && !is_solstice_of_year(terms[from], year) {
        lemma_first_solstice_of_year(terms, year, from + 1);
    }
}

/// Gregorian year, in UTC, of an instant.
pub fn utc_year_of(instant_ms: i64) -> (year: i32)
    ensures
        year == utc_year(instant_ms as int),
{
    let (y, _, _, _, _, _) = utc_ms_to_date_parts(instant_ms, 0);
    y
}

/// Index of the first winter solstice of a Gregorian year.
pub fn find_solstice_of_year(terms: &Vec<PrincipalTerm>, year: i64) -> (found: Option<usize>)
    ensures
        match found {
            Some(i) => first_solstice_of_year(terms@, year as int, 0) == Some(i as int) && i
                < terms.len(),
            None => first_solstice_of_year(terms@, year as int, 0).is_none(),
        },
{
    let mut i: usize = 0;
    while i < terms.len()
        invariant
            i <= terms.len(),
            first_solstice_of_year(terms@, year as int, 0) == first_solstice_of_year(
                terms@,
                year as int,
                i as int,
            ),
        decreases terms.len() - i,
    {
        if terms[i].term_index == 11 && utc_year_of(terms[i].instant_utc_ms) as i64 == year {
            return Some(i);
        }
        i += 1;
    }
    None
}

/// Index of the winter solstice nearest in years to a target year; of several equally near,
/// the first.
pub fn find_nearest_solstice(terms: &Vec<PrincipalTerm>, target_year: i32) -> (found: Option<
    usize,
>)
    ensures
        match found {
            Some(i) => nearest_solstice(terms@, target_year as int, terms.len() as int) == Some(
                i as int,
            ) && i < terms.len(),
            None => nearest_solstice(terms@, target_year as int, terms.len() as int).is_none(),
        },
{
    let mut best: Option<usize> = None;
    let mut best_distance: i64 = 0;
    let mut i: usize = 0;
    while i < terms.len()
        invariant
            i <= terms.len(),
            match best {
                Some(b) => nearest_solstice(terms@, target_year as int, i as int) == Some(b as int)
                    && b < i && best_distance == year_distance(terms@[b as int], target_year as int),
                None => nearest_solstice(terms@, target_year as int, i as int).is_none(),
            },
        decreases terms.len() - i,
    {
        if terms[i].term_index == 11 {
            let y: i64 = utc_year_of(terms[i].instant_utc_ms) as i64;
            let distance: i64 = if y >= target_year as i64 {
                y - target_year as i64
            } else {
                target_year as i64 - y
            };
            match best {
                None => {
                    best = Some(i);
                    best_distance = distance;
                },
                Some(_) => {
                    if distance < best_distance {
                        best = Some(i);
                        best_distance = distance;
                    }
                },
            }
        }
        i += 1;
    }
    best
}

/// Index of the winter solstice from which the months round an instant are numbered.
pub fn select_anchor(terms: &Vec<PrincipalTerm>, instant_ms: i64, target_year: i32) -> (anchor:
    Option<usize>)
    ensures
        match anchor {
            Some(a) => anchor_solstice(terms@, instant_ms as int, target_year as int) == Some(
                a as int,
            ) && a < terms.len() && is_solstice(terms@[a as int]),
            None => anchor_solstice(terms@, instant_ms as int, target_year as int).is_none(),
        },
        anchor.is_none() <==> forall|j: int| 0 <= j < terms.len() ==> !is_solstice(#[trigger] terms@[j]),
{
    proof {
        lemma_first_solstice_of_year(terms@, target_year as int, 0);
        lemma_first_solstice_of_year(terms@, target_year - 1, 0);
        lemma_nearest_solstice(terms@, target_year as int, terms.len() as int);
    }
    let chosen: Option<usize> = match find_solstice_of_year(terms, target_year as i64) {
        Some(i) => Some(i),
        None => find_nearest_solstice(terms, target_year),
    };
    match chosen {
        None => None,
        Some(c) => {
            if instant_ms >= terms[c].instant_utc_ms {
                Some(c)
            } else {
                match find_solstice_of_year(terms, target_year as i64 - 1) {
                    Some(p) => Some(p),
                    None => Some(c),
                }
            }
        },
    }
}

/// Month number of a period at or after the anchor at index `zi`: eleven at the anchor, then one
/// more, round the twelve, with each period that has a principal term.
pub open spec fn forward_counter(periods: Seq<MonthPeriod>, zi: int, i: int) -> int
    decreases i - zi,
{
    if i <= zi {
        11
    } else {
        let prev = forward_counter(periods, zi, i - 1);
        if periods[i].has_principal {
            prev % 12 + 1
        } else {
            prev
        }
    }
}

/// Whether the period at index `i` is a regular month when the anchor is at index `zi`: the
/// anchor is one, and so is every other period that has a principal term.
pub open spec fn is_regular(periods: Seq<MonthPeriod>, zi: int, i: int) -> bool {
    i == zi || periods[i].has_principal
}

/// The month number before `number`, round the twelve.
pub open spec fn month_before(number: int) -> int {
    (number + 10) % 12 + 1
}

/// Month number of a period at or before the anchor at index `zi`: eleven at the anchor; going
/// back, one less, round the twelve, than the period that follows where that one is a regular
/// month, and the same number where it is a leap month.
pub open spec fn backward_counter(periods: Seq<MonthPeriod>, zi: int, i: int) -> int
    decreases zi - i,
{
    if i >= zi {
        11
    } else {
        let next = backward_counter(periods, zi, i + 1);
        if is_regular(periods, zi, i + 1) {
            month_before(next)
        } else {
            next
        }
    }
}

/// Month number given to the period at index `i` when the anchor is at index `zi`.
pub open spec fn month_number_at(periods: Seq<MonthPeriod>, zi: int, i: int) -> int {
    if i >= zi {
        forward_counter(periods, zi, i)
    } else {
        backward_counter(periods, zi, i)
    }
}

/// The periods numbered from the anchor at index `zi`, which is the eleventh month and no leap
/// month; every other period is a leap month exactly if it has no principal term.
pub open spec fn resolved(periods: Seq<MonthPeriod>, zi: int) -> Seq<MonthPeriod> {
    Seq::new(
        periods.len(),
        |i: int|
            MonthPeriod {
                month_number: month_number_at(periods, zi, i) as u32,
                is_leap: !is_regular(periods, zi, i),
                ..periods[i]
            },
    )
}

proof fn lemma_forward_counter_range(periods: Seq<MonthPeriod>, zi: int, i: int)
    ensures
        1 <= forward_counter(periods, zi, i) <= 12,
    decreases i - zi,
{
    if i > zi {
        lemma_forward_counter_range(periods, zi, i - 1);
    }
}

proof fn lemma_backward_counter_range(periods: Seq<MonthPeriod>, zi: int, i: int)
    ensures
        1 <= backward_counter(periods, zi, i) <= 12,
    decreases zi - i,
{
    if i < zi {
        lemma_backward_counter_range(periods, zi, i + 1);
    }
}

/// Month numbers lie between 1 and 12.
pub proof fn lemma_month_number_range(periods: Seq<MonthPeriod>, zi: int, i: int)
    ensures
        1 <= month_number_at(periods, zi, i) <= 12,
{
    lemma_forward_counter_range(periods, zi, i);
    lemma_backward_counter_range(periods, zi, i);
}

/// Numbers the periods from the anchor at index `zi_index`.
pub fn resolve_leap_months(periods: &mut Vec<MonthPeriod>, zi_index: usize)
    requires
        zi_index < old(periods).len(),
    ensures
        final(periods)@ == resolved(old(periods)@, zi_index as int),
{
    let ghost base = periods@;
    let ghost zi = zi_index as int;
    let n: usize = periods.len();
    let mut anchor = periods[zi_index];
    anchor.month_number = 11;
    anchor.is_leap = false;
    periods.set(zi_index, anchor);

    let mut current: u32 = 11;
    let mut i: usize = zi_index + 1;
    while i < n
        invariant
            zi_index < i <= n,
            n == base.len(),
            periods@.len() == n,
            zi == zi_index,
            current == forward_counter(base, zi, i - 1),
            1 <= current <= 12,
            forall|j: int| 0 <= j < zi ==> periods@[j] == base[j],
            forall|j: int| i <= j < n ==> periods@[j] == base[j],
            forall|j: int| zi <= j < i ==> periods@[j] == resolved(base, zi)[j],
        decreases n - i,
    {
        let mut p = periods[i];
        if p.has_principal {
            current = (current % 12) + 1;
            p.month_number = current;
            p.is_leap = false;
        } else {
            p.month_number = current;
            p.is_leap = true;
        }
        periods.set(i, p);
        i += 1;
    }

    if zi_index > 0 {
        current = 11;
        let mut next_is_regular: bool = true;
        let mut i: usize = zi_index;
        while i > 0
            invariant
                i <= zi_index < n,
                n == base.len(),
                periods@.len() == n,
                zi == zi_index,
                current == backward_counter(base, zi, i as int),
                next_is_regular == is_regular(base, zi, i as int),
                1 <= current <= 12,
                forall|j: int| 0 <= j < i ==> periods@[j] == base[j],
                forall|j: int| i <= j < n ==> periods@[j] == resolved(base, zi)[j],
            decreases i,
        {
            i -= 1;
            if next_is_regular {
                current = if current > 1 {
                    current - 1
                } else {
                    12
                };
            }
            let mut p = periods[i];
            if p.has_principal {
                p.month_number = current;
                p.is_leap = false;
            } else {
                p.month_number = current;
                p.is_leap = true;
            }
            next_is_regular = p.has_principal;
            periods.set(i, p);
        }
    }
    assert(periods@ =~= resolved(base, zi));
}

/// Whether the period at index `j` is the nearest before index `i` that is no leap month.
pub open spec fn is_nearest_regular_before(numbered: Seq<MonthPeriod>, j: int, i: int) -> bool {
    &&& 0 <= j < i <= numbered.len()
    &&& !numbered[j].is_leap
    &&& forall|k: int| j < k < i ==> (#[trigger] numbered[k]).is_leap
}

/// A leap month carries the number of the period just before it, and a regular month the
/// number after that, round the twelve, whichever side of the anchor they lie on.
pub proof fn lemma_month_number_step(periods: Seq<MonthPeriod>, zi: int, k: int)
    requires
        0 <= zi < periods.len(),
        0 <= k,
        k + 1 < periods.len(),
    ensures
        resolved(periods, zi)[k + 1].month_number == if resolved(periods, zi)[k + 1].is_leap {
            resolved(periods, zi)[k].month_number as int
        } else {
            resolved(periods, zi)[k].month_number % 12 + 1
        },
{
    lemma_month_number_range(periods, zi, k);
    lemma_month_number_range(periods, zi, k + 1);
    if k + 1 <= zi {
        let next = backward_counter(periods, zi, k + 1);
        assert(backward_counter(periods, zi, k) == if is_regular(periods, zi, k + 1) {
            month_before(next)
        } else {
            next
        });
        assert(forward_counter(periods, zi, zi) == 11);
        assert(backward_counter(periods, zi, zi) == 11);
    }
}

/// A period without a principal term, other than the anchor, is a leap month and carries the
/// number of the nearest period before it that is none, on either side of the anchor.
pub proof fn lemma_leap_month_rule(periods: Seq<MonthPeriod>, zi: int, i: int, j: int)
    requires
        0 <= zi < periods.len(),
        0 <= i < periods.len(),
        i != zi,
        !periods[i].has_principal,
        is_nearest_regular_before(resolved(periods, zi), j, i),
    ensures
        resolved(periods, zi)[i].is_leap,
        resolved(periods, zi)[i].month_number == resolved(periods, zi)[j].month_number,
    decreases i - j,
{
    let numbered = resolved(periods, zi);
    lemma_month_number_step(periods, zi, i - 1);
    if j < i - 1 {
        assert(numbered[i - 1].is_leap);
        assert(is_nearest_regular_before(numbered, j, i - 1));
        lemma_leap_month_rule(periods, zi, i - 1, j);
    }
}

/// A regular month carries the number after that of the nearest regular month before it,
/// round the twelve, on either side of the anchor.
pub proof fn lemma_regular_month_rule(periods: Seq<MonthPeriod>, zi: int, i: int, j: int)
    requires
        0 <= zi < periods.len(),
        0 <= i < periods.len(),
        is_regular(periods, zi, i),
        is_nearest_regular_before(resolved(periods, zi), j, i),
    ensures
        !resolved(periods, zi)[i].is_leap,
        resolved(periods, zi)[i].month_number == resolved(periods, zi)[j].month_number % 12 + 1,
{
    let numbered = resolved(periods, zi);
    lemma_month_number_step(periods, zi, i - 1);
    if j < i - 1 {
        assert(numbered[i - 1].is_leap);
        assert(is_nearest_regular_before(numbered, j, i - 1));
        lemma_leap_month_rule(periods, zi, i - 1, j);
    }
}

/// After the anchor, every period has a regular month before it: the anchor, or one nearer.
pub proof fn lemma_regular_month_before(periods: Seq<MonthPeriod>, zi: int, i: int)
    requires
        0 <= zi < i < periods.len(),
    ensures
        exists|j: int|
            zi <= j && #[trigger] is_nearest_regular_before(resolved(periods, zi), j, i),
    decreases i - zi,
{
    let numbered = resolved(periods, zi);
    if !numbered[i - 1].is_leap {
        assert(is_nearest_regular_before(numbered, i - 1, i));
    } else {
        lemma_regular_month_before(periods, zi, i - 1);
        let w = choose|j: int| zi <= j && #[trigger] is_nearest_regular_before(numbered, j, i - 1);
        assert(is_nearest_regular_before(numbered, w, i));
    }
}

proof fn lemma_numbers_agree_forward(
    periods: Seq<MonthPeriod>,
    z1: int,
    z2: int,
    from: int,
    i: int,
)
    requires
        0 <= z1 < periods.len(),
        0 <= z2 < periods.len(),
        periods[z1].has_principal,
        periods[z2].has_principal,
        0 <= from <= i < periods.len(),
        resolved(periods, z1)[from].month_number == resolved(periods, z2)[from].month_number,
    ensures
        resolved(periods, z1)[i].month_number == resolved(periods, z2)[i].month_number,
    decreases i - from,
{
    if from < i {
        lemma_numbers_agree_forward(periods, z1, z2, from, i - 1);
        lemma_month_number_step(periods, z1, i - 1);
        lemma_month_number_step(periods, z2, i - 1);
    }
}

proof fn lemma_numbers_agree_backward(
    periods: Seq<MonthPeriod>,
    z1: int,
    z2: int,
    from: int,
    i: int,
)
    requires
        0 <= z1 < periods.len(),
        0 <= z2 < periods.len(),
        periods[z1].has_principal,
        periods[z2].has_principal,
        0 <= i <= from < periods.len(),
        resolved(periods, z1)[from].month_number == resolved(periods, z2)[from].month_number,
    ensures
        resolved(periods, z1)[i].month_number == resolved(periods, z2)[i].month_number,
    decreases from - i,
{
    if i < from {
        lemma_numbers_agree_backward(periods, z1, z2, from, i + 1);
        lemma_month_number_step(periods, z1, i);
        lemma_month_number_step(periods, z2, i);
        lemma_month_number_range(periods, z1, i);
        lemma_month_number_range(periods, z2, i);
    }
}

/// The numbering does not depend on which winter solstice anchors it: where two periods with
/// a principal term are both the eleventh month by the numbering from one of them, the
/// numbering from the other is the same, month by month.
pub proof fn lemma_anchor_independent(periods: Seq<MonthPeriod>, z1: int, z2: int)
    requires
        0 <= z1 < periods.len(),
        0 <= z2 < periods.len(),
        periods[z1].has_principal,
        periods[z2].has_principal,
        resolved(periods, z1)[z2].month_number == 11,
    ensures
        resolved(periods, z1) == resolved(periods, z2),
{
    lemma_month_number_range(periods, z2, z2);
    assert(resolved(periods, z2)[z2].month_number == 11);
    assert forall|i: int| 0 <= i < periods.len() implies resolved(periods, z1)[i] == resolved(
        periods,
        z2,
    )[i] by {
        if i >= z2 {
            lemma_numbers_agree_forward(periods, z1, z2, z2, i);
        } else {
            lemma_numbers_agree_backward(periods, z1, z2, z2, i);
        }
    }
    assert(resolved(periods, z1) =~= resolved(periods, z2));
}

/// Every period but the anchor is a leap month exactly if it has no principal term; the
/// anchor is the eleventh month and none.
pub proof fn lemma_resolved_flags(periods: Seq<MonthPeriod>, zi: int, i: int)
    requires
        0 <= zi < periods.len(),
        0 <= i < periods.len(),
    ensures
        1 <= resolved(periods, zi)[i].month_number <= 12,
        i != zi ==> resolved(periods, zi)[i].is_leap == !periods[i].has_principal,
        resolved(periods, zi)[zi].month_number == 11 && !resolved(periods, zi)[zi].is_leap,
{
    lemma_month_number_range(periods, zi, i);
}

/// Numbering leaves the spans of the periods and their principal terms as they are.
pub proof fn lemma_resolved_spans(periods: Seq<MonthPeriod>, zi: int, new_moons: Seq<i64>)
    ensures
        same_spans(resolved(periods, zi), periods),
        spans_new_moons(periods, new_moons) ==> spans_new_moons(resolved(periods, zi), new_moons),
        forall|i: int|
            0 <= i < periods.len() ==> (#[trigger] resolved(periods, zi)[i]).has_principal
                == periods[i].has_principal,
{
}

} // verus!
