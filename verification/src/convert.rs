//! Conversion of an instant into its lunisolar date and four pillars, from the new moons and
//! solar-term crossings around it.

use crate::civil::{
    cst_date_of, date_only_of, days_from_civil, lemma_date_only_of, lemma_day_number_span,
    local_date, local_day, local_second_of_day, utc_ms_to_date_parts, DateOnly,
};
use crate::ephemeris::{
    compute_new_moons, compute_solar_terms, new_moon_found, new_moons_scanned, oracle_is_function,
    oracles_total, scan_steps, solar_term_found, solar_terms_scanned, year_start_spec,
    MAX_SCAN_YEAR, MIN_SCAN_YEAR,
};
use crate::ganzhi::{
    branch_label, branch_name, cycle_branch, cycle_stem, day_cycle, day_cycle_number, hour_cycle,
    hour_pillar, month_cycle, month_pillar, stem_label, stem_name, year_cycle, year_cycle_number,
};
use crate::huangdao::{
    construction_star, gyp_spirit, spirit_index, spirit_is_auspicious, spirit_label, star_index,
    star_label,
};
use crate::leap::{
    anchor_solstice, is_nearest_regular_before, lemma_leap_month_rule, lemma_month_number_range,
    resolve_leap_months, resolved, select_anchor,
};
use crate::segment::{
    build_principal_terms, find_period_with_date, find_period_with_instant,
    first_period_with_date, first_period_with_instant, instants_ordered,
    lemma_first_period_with_date, lemma_first_period_with_instant, period_has_date,
    principal_terms_of, segment, segment_spec, MonthPeriod,
};
use vstd::prelude::*;

verus! {

/// Why an instant could not be converted.
#[derive(Clone, Copy, Debug, PartialEq, Eq, Structural)]
pub enum ConvertError {
    /// Fewer than two new moons were given.
    InsufficientEventData,
    /// The new moons or the solar-term crossings run backward in time, or a crossing names a
    /// sector beyond 23.
    MalformedInput,
    /// No winter solstice is among the solar-term crossings.
    MissingSolsticeTerm,
    /// No period between the new moons holds the winter solstice that anchors the numbering.
    SolsticePeriodNotFound,
    /// No period between the new moons holds the local date of the instant.
    PeriodNotFound,
}

impl ConvertError {
    /// The text that describes the error.
    pub open spec fn message_text(self) -> Seq<char> {
        match self {
            ConvertError::InsufficientEventData => "Insufficient new moon data"@,
            ConvertError::MalformedInput => "Malformed event data"@,
            ConvertError::MissingSolsticeTerm => "No Winter Solstice (Z11) term found"@,
            ConvertError::SolsticePeriodNotFound => "Failed to locate Zi-month containing Winter Solstice"@,
            ConvertError::PeriodNotFound => "No lunar month period found for target date"@,
        }
    }

    /// The text that describes the error.
    pub fn message(&self) -> (text: &'static str)
        ensures
            text@ == self.message_text(),
    {
        match self {
            ConvertError::InsufficientEventData => "Insufficient new moon data",
            ConvertError::MalformedInput => "Malformed event data",
            ConvertError::MissingSolsticeTerm => "No Winter Solstice (Z11) term found",
            ConvertError::SolsticePeriodNotFound => "Failed to locate Zi-month containing Winter Solstice",
            ConvertError::PeriodNotFound => "No lunar month period found for target date",
        }
    }
}

/// A lunisolar date with its four pillars and day qualities, in numbers.
pub struct LunarFacts {
    pub lunar_year: int,
    pub lunar_month: int,
    pub lunar_day: int,
    pub is_leap_month: bool,
    pub year_cycle: int,
    pub month_cycle: int,
    pub day_cycle: int,
    pub hour_cycle: int,
    pub star: int,
    pub spirit: int,
}

/// A lunisolar date with its four pillars and day qualities, in numbers and labels.
#[derive(Debug)]
pub struct LunisolarResult {
    pub lunar_year: i32,
    pub lunar_month: u32,
    pub lunar_day: u32,
    pub is_leap_month: bool,
    pub year_stem: String,
    pub year_branch: String,
    pub year_cycle: usize,
    pub month_stem: String,
    pub month_branch: String,
    pub month_cycle: usize,
    pub day_stem: String,
    pub day_branch: String,
    pub day_cycle: usize,
    pub hour_stem: String,
    pub hour_branch: String,
    pub hour_cycle: usize,
    pub construction_star: String,
    pub gyp_spirit: String,
    pub gyp_path_type: String,
}

/// What a `LunisolarResult` holds, with each label as its text.
pub struct LunisolarView {
    pub lunar_year: int,
    pub lunar_month: int,
    pub lunar_day: int,
    pub is_leap_month: bool,
    pub year_stem: Seq<char>,
    pub year_branch: Seq<char>,
    pub year_cycle: int,
    pub month_stem: Seq<char>,
    pub month_branch: Seq<char>,
    pub month_cycle: int,
    pub day_stem: Seq<char>,
    pub day_branch: Seq<char>,
    pub day_cycle: int,
    pub hour_stem: Seq<char>,
    pub hour_branch: Seq<char>,
    pub hour_cycle: int,
    pub construction_star: Seq<char>,
    pub gyp_spirit: Seq<char>,
    pub gyp_path_type: Seq<char>,
}

impl View for LunisolarResult {
    type V = LunisolarView;

    open spec fn view(&self) -> LunisolarView {
        LunisolarView {
            lunar_year: self.lunar_year as int,
            lunar_month: self.lunar_month as int,
            lunar_day: self.lunar_day as int,
            is_leap_month: self.is_leap_month,
            year_stem: self.year_stem@,
            year_branch: self.year_branch@,
            year_cycle: self.year_cycle as int,
            month_stem: self.month_stem@,
            month_branch: self.month_branch@,
            month_cycle: self.month_cycle as int,
            day_stem: self.day_stem@,
            day_branch: self.day_branch@,
            day_cycle: self.day_cycle as int,
            hour_stem: self.hour_stem@,
            hour_branch: self.hour_branch@,
            hour_cycle: self.hour_cycle as int,
            construction_star: self.construction_star@,
            gyp_spirit: self.gyp_spirit@,
            gyp_path_type: self.gyp_path_type@,
        }
    }
}

impl LunisolarResult {
    /// Whether the month, the day and the four cycle positions lie in their ranges.
    pub open spec fn in_range(&self) -> bool {
        &&& 1 <= self.lunar_month <= 12
        &&& 1 <= self.lunar_day <= 30
        &&& 1 <= self.year_cycle <= 60
        &&& 1 <= self.month_cycle <= 60
        &&& 1 <= self.day_cycle <= 60
        &&& 1 <= self.hour_cycle <= 60
    }
}

/// Label of the path of a spirit: yellow for the auspicious, black for the others.
pub open spec fn path_label(auspicious: bool) -> Seq<char> {
    if auspicious {
        "黄道"@
    } else {
        "黑道"@
    }
}

/// The facts with each stem, branch, star and spirit written as its label.
pub open spec fn render(facts: LunarFacts) -> LunisolarView {
    LunisolarView {
        lunar_year: facts.lunar_year,
        lunar_month: facts.lunar_month,
        lunar_day: facts.lunar_day,
        is_leap_month: facts.is_leap_month,
        year_stem: stem_label(cycle_stem(facts.year_cycle)),
        year_branch: branch_label(cycle_branch(facts.year_cycle)),
        year_cycle: facts.year_cycle,
        month_stem: stem_label(cycle_stem(facts.month_cycle)),
        month_branch: branch_label(cycle_branch(facts.month_cycle)),
        month_cycle: facts.month_cycle,
        day_stem: stem_label(cycle_stem(facts.day_cycle)),
        day_branch: branch_label(cycle_branch(facts.day_cycle)),
        day_cycle: facts.day_cycle,
        hour_stem: stem_label(cycle_stem(facts.hour_cycle)),
        hour_branch: branch_label(cycle_branch(facts.hour_cycle)),
        hour_cycle: facts.hour_cycle,
        construction_star: star_label(facts.star),
        gyp_spirit: spirit_label(facts.spirit),
        gyp_path_type: path_label(spirit_is_auspicious(facts.spirit)),
    }
}

/// Whether solar-term crossings never run backward in time and name sectors up to 23.
pub open spec fn crossings_well_formed(pairs: Seq<(i64, u32)>) -> bool {
    &&& forall|i: int, j: int| 0 <= i < j < pairs.len() ==> pairs[i].0 <= pairs[j].0
    &&& forall|i: int| 0 <= i < pairs.len() ==> (#[trigger] pairs[i]).1 <= 23
}

/// Day of the lunar month: days from the first day of the period, counted from 1 and kept
/// within 1 and 30.
pub open spec fn lunar_day_of(target_day: int, start_day: int) -> int {
    let raw = target_day - start_day + 1;
    if raw < 1 {
        1
    } else if raw > 30 {
        30
    } else {
        raw
    }
}

/// Lunar year of a numbered period: the Gregorian year, in UTC, in which the period starts;
/// for a twelfth month that starts in January or February, the year before.
pub open spec fn lunar_year_of(period: MonthPeriod) -> int {
    let start = local_date(period.start_utc_ms as int, 0);
    if period.month_number <= 11 {
        start.0
    } else if start.1 <= 2 {
        start.0 - 1
    } else {
        start.0
    }
}

/// Hour of the day, `0..24`, of local wall-clock time at an instant.
pub open spec fn local_hour(utc_ms: int, offset_seconds: int) -> int {
    local_second_of_day(utc_ms, offset_seconds) / 3600
}

/// The lunisolar date and pillars of an instant that falls into a numbered period.
pub open spec fn facts_of(period: MonthPeriod, instant_ms: int, offset_seconds: int) -> LunarFacts {
    let lunar_year = lunar_year_of(period);
    let lunar_month = period.month_number as int;
    let day = local_day(instant_ms, offset_seconds);
    let day_pos = day_cycle(day);
    LunarFacts {
        lunar_year,
        lunar_month,
        lunar_day: lunar_day_of(day, period.start_cst.day_number()),
        is_leap_month: period.is_leap,
        year_cycle: year_cycle(lunar_year),
        month_cycle: month_cycle(lunar_year, lunar_month),
        day_cycle: day_pos,
        hour_cycle: hour_cycle(Some(cycle_stem(day_pos)), local_hour(instant_ms, offset_seconds)),
        star: star_index(lunar_month, cycle_branch(day_pos)),
        spirit: spirit_index(lunar_month, cycle_branch(day_pos)),
    }
}

/// The lunisolar date of an instant at a fixed offset from UTC, from new moons and solar-term
/// crossings in milliseconds; or the reason why there is none.
pub open spec fn convert_spec(
    instant_ms: int,
    offset_seconds: int,
    new_moons: Seq<i64>,
    crossings: Seq<(i64, u32)>,
) -> Result<LunarFacts, ConvertError> {
    if new_moons.len() < 2 {
        Err(ConvertError::InsufficientEventData)
    } else if !instants_ordered(new_moons) || !crossings_well_formed(crossings) {
        Err(ConvertError::MalformedInput)
    } else {
        let terms = principal_terms_of(crossings, offset_seconds);
        let periods = segment_spec(new_moons, terms, offset_seconds);
        let target_year = local_date(instant_ms, offset_seconds).0;
        match anchor_solstice(terms, instant_ms, target_year) {
            None => Err(ConvertError::MissingSolsticeTerm),
            Some(a) => match first_period_with_instant(
                periods,
                terms[a].instant_utc_ms as int,
                0,
            ) {
                None => Err(ConvertError::SolsticePeriodNotFound),
                Some(zi) => {
                    let numbered = resolved(periods, zi);
                    match first_period_with_date(
                        numbered,
                        date_only_of(instant_ms, offset_seconds),
                        0,
                    ) {
                        None => Err(ConvertError::PeriodNotFound),
                        Some(t) => Ok(facts_of(numbered[t], instant_ms, offset_seconds)),
                    }
                },
            },
        }
    }
}

/// Whether the outcome of a conversion is the one that `expected` describes.
pub open spec fn conversion_matches(
    outcome: Result<LunisolarResult, ConvertError>,
    expected: Result<LunarFacts, ConvertError>,
) -> bool {
    match (outcome, expected) {
        (Ok(r), Ok(f)) => r@ == render(f),
        (Err(e), Err(x)) => e == x,
        _ => false,
    }
}

/// Whether the instants never run backward.
pub fn instants_in_order(instants: &Vec<i64>) -> (ordered: bool)
    ensures
        ordered == instants_ordered(instants@),
{
    if instants.len() < 2 {
        return true;
    }
    let mut i: usize = 1;
    while i < instants.len()
        invariant
            1 <= i <= instants.len(),
            forall|a: int, b: int| 0 <= a < b < i ==> instants@[a] <= instants@[b],
        decreases instants.len() - i,
    {
        if instants[i - 1] > instants[i] {
            return false;
        }
        i += 1;
    }
    true
}

/// Whether the crossings never run backward in time and name sectors up to 23.
pub fn crossings_in_order(pairs: &Vec<(i64, u32)>) -> (ordered: bool)
    ensures
        ordered == crossings_well_formed(pairs@),
{
    let mut i: usize = 0;
    while i < pairs.len()
        invariant
            i <= pairs.len(),
            forall|a: int, b: int| 0 <= a < b < i ==> pairs@[a].0 <= pairs@[b].0,
            forall|a: int| 0 <= a < i ==> (#[trigger] pairs@[a]).1 <= 23,
        decreases pairs.len() - i,
    {
        if pairs[i].1 > 23 {
            return false;
        }
        if i > 0 && pairs[i - 1].0 > pairs[i].0 {
            return false;
        }
        i += 1;
    }
    true
}

/// Day of the lunar month of a date in a period that starts on `start`.
pub fn lunar_day_in_period(target: &DateOnly, start: &DateOnly) -> (lunar_day: u32)
    requires
        1 <= target.m <= 12 && 1 <= target.d <= 31,
        1 <= start.m <= 12 && 1 <= start.d <= 31,
    ensures
        lunar_day == lunar_day_of(target.day_number(), start.day_number()),
        1 <= lunar_day <= 30,
{
    let start_days: i64 = days_from_civil(start.y, start.m, start.d);
    let tgt_days: i64 = days_from_civil(target.y, target.m, target.d);
    proof {
        lemma_day_number_span(target.y as int, target.m as int, target.d as int);
        lemma_day_number_span(start.y as int, start.m as int, start.d as int);
    }
    let lunar_day_raw: i64 = tgt_days - start_days + 1;
    if lunar_day_raw < 1 {
        1
    } else if lunar_day_raw > 30 {
        30
    } else {
        lunar_day_raw as u32
    }
}

/// Lunar year of a numbered period.
pub fn lunar_year_of_period(period: &MonthPeriod) -> (lunar_year: i32)
    ensures
        lunar_year == lunar_year_of(*period),
{
    let (period_start_utc_year, period_start_utc_month, _, _, _, _) = utc_ms_to_date_parts(
        period.start_utc_ms,
        0,
    );
    if period.month_number <= 11 {
        period_start_utc_year
    } else if period_start_utc_month <= 2 {
        period_start_utc_year - 1
    } else {
        period_start_utc_year
    }
}

/// The lunisolar date and pillars of an instant that falls into a numbered period.
pub fn describe_period(period: &MonthPeriod, timestamp_ms: i64, tz_offset_seconds: i32) -> (result:
    LunisolarResult)
    requires
        1 <= period.month_number <= 12,
        1 <= period.start_cst.m <= 12 && 1 <= period.start_cst.d <= 31,
    ensures
        result@ == render(facts_of(*period, timestamp_ms as int, tz_offset_seconds as int)),
        result.in_range(),
{
    let target_cst = cst_date_of(timestamp_ms, tz_offset_seconds);
    let lunar_day: u32 = lunar_day_in_period(&target_cst, &period.start_cst);
    let lunar_year: i32 = lunar_year_of_period(period);
    let lunar_month: u32 = period.month_number;

    let (_, _, _, wh, _, _) = utc_ms_to_date_parts(timestamp_ms, tz_offset_seconds);
    let local_day_number: i64 = days_from_civil(target_cst.y, target_cst.m, target_cst.d);

    let y_cycle: usize = year_cycle_number(lunar_year);
    let (m_stem, m_branch, m_cycle) = month_pillar((y_cycle - 1) % 10, lunar_month);
    let d_cycle: usize = day_cycle_number(local_day_number);
    let d_stem: usize = (d_cycle - 1) % 10;
    let d_branch: usize = (d_cycle - 1) % 12;
    let (h_stem, h_branch, h_cycle) = hour_pillar(wh, Some(d_stem));

    let cs = construction_star(lunar_month, d_branch);
    let (spirit, spirit_auspicious) = gyp_spirit(lunar_month, d_branch);

    LunisolarResult {
        lunar_year,
        lunar_month,
        lunar_day,
        is_leap_month: period.is_leap,
        year_stem: stem_name((y_cycle - 1) % 10).to_owned(),
        year_branch: branch_name((y_cycle - 1) % 12).to_owned(),
        year_cycle: y_cycle,
        month_stem: stem_name(m_stem).to_owned(),
        month_branch: branch_name(m_branch).to_owned(),
        month_cycle: m_cycle,
        day_stem: stem_name(d_stem).to_owned(),
        day_branch: branch_name(d_branch).to_owned(),
        day_cycle: d_cycle,
        hour_stem: stem_name(h_stem).to_owned(),
        hour_branch: branch_name(h_branch).to_owned(),
        hour_cycle: h_cycle,
        construction_star: cs.to_owned(),
        gyp_spirit: spirit.to_owned(),
        gyp_path_type: if spirit_auspicious {
            "黄道".to_owned()
        } else {
            "黑道".to_owned()
        },
    }
}

/// Converts an instant in milliseconds since 1970-01-01 UTC, at a fixed offset from UTC in
/// seconds, into its lunisolar date and pillars. The new moons and the solar-term crossings
/// `(instant, sector)` round the instant are given in milliseconds and in order of time.
pub fn from_solar_date_core(
    timestamp_ms: i64,
    tz_offset_seconds: i32,
    new_moon_timestamps: &Vec<i64>,
    solar_term_pairs: &Vec<(i64, u32)>,
) -> (result: Result<LunisolarResult, ConvertError>)
    ensures
        conversion_matches(
            result,
            convert_spec(
                timestamp_ms as int,
                tz_offset_seconds as int,
                new_moon_timestamps@,
                solar_term_pairs@,
            ),
        ),
        result matches Ok(r) ==> r.in_range(),
{
    if new_moon_timestamps.len() < 2 {
        return Err(ConvertError::InsufficientEventData);
    }
    if !instants_in_order(new_moon_timestamps) || !crossings_in_order(solar_term_pairs) {
        return Err(ConvertError::MalformedInput);
    }
    let (local_year, _, _, _, _, _) = utc_ms_to_date_parts(timestamp_ms, tz_offset_seconds);
    let principal_terms = build_principal_terms(solar_term_pairs, tz_offset_seconds);
    let mut periods = segment(new_moon_timestamps, &principal_terms, tz_offset_seconds);

    let anchor: usize = match select_anchor(&principal_terms, timestamp_ms, local_year) {
        Some(a) => a,
        None => {
            return Err(ConvertError::MissingSolsticeTerm);
        },
    };
    let anchor_solstice_ms: i64 = principal_terms[anchor].instant_utc_ms;

    let zi_index: usize = match find_period_with_instant(&periods, anchor_solstice_ms) {
        Some(zi) => zi,
        None => {
            return Err(ConvertError::SolsticePeriodNotFound);
        },
    };
    let ghost tagged_periods = periods@;
    resolve_leap_months(&mut periods, zi_index);

    let target_cst = cst_date_of(timestamp_ms, tz_offset_seconds);
    let target: usize = match find_period_with_date(&periods, &target_cst) {
        Some(t) => t,
        None => {
            return Err(ConvertError::PeriodNotFound);
        },
    };
    let target_period = periods[target];
    proof {
        lemma_month_number_range(tagged_periods, zi_index as int, target as int);
        lemma_date_only_of(new_moon_timestamps@[target as int] as int, tz_offset_seconds as int);
    }
    Ok(describe_period(&target_period, timestamp_ms, tz_offset_seconds))
}

/// Two outcomes that both answer one conversion are the same: converting an instant twice
/// with the same event data gives the same result.
pub proof fn lemma_conversion_unique(
    first: Result<LunisolarResult, ConvertError>,
    second: Result<LunisolarResult, ConvertError>,
    instant_ms: int,
    offset_seconds: int,
    new_moons: Seq<i64>,
    crossings: Seq<(i64, u32)>,
)
    requires
        conversion_matches(first, convert_spec(instant_ms, offset_seconds, new_moons, crossings)),
        conversion_matches(second, convert_spec(instant_ms, offset_seconds, new_moons, crossings)),
    ensures
        match (first, second) {
            (Ok(a), Ok(b)) => a@ == b@,
            (Err(a), Err(b)) => a == b,
            _ => false,
        },
{
}

/// The month periods as they are numbered for the conversion of an instant; none where the
/// event data are refused or hold no anchor.
pub open spec fn numbered_periods(
    instant_ms: int,
    offset_seconds: int,
    new_moons: Seq<i64>,
    crossings: Seq<(i64, u32)>,
) -> Option<Seq<MonthPeriod>> {
    if new_moons.len() < 2 || !instants_ordered(new_moons) || !crossings_well_formed(crossings) {
        None
    } else {
        let terms = principal_terms_of(crossings, offset_seconds);
        let periods = segment_spec(new_moons, terms, offset_seconds);
        match anchor_solstice(terms, instant_ms, local_date(instant_ms, offset_seconds).0) {
            None => None,
            Some(a) => match first_period_with_instant(
                periods,
                terms[a].instant_utc_ms as int,
                0,
            ) {
                None => None,
                Some(zi) => Some(resolved(periods, zi)),
            },
        }
    }
}

/// Index, among the numbered periods, of the period into which the local date of an instant
/// falls.
pub open spec fn target_period(
    instant_ms: int,
    offset_seconds: int,
    new_moons: Seq<i64>,
    crossings: Seq<(i64, u32)>,
) -> Option<int> {
    match numbered_periods(instant_ms, offset_seconds, new_moons, crossings) {
        None => None,
        Some(numbered) => first_period_with_date(
            numbered,
            date_only_of(instant_ms, offset_seconds),
            0,
        ),
    }
}

/// A conversion succeeds exactly where the instant has a target period, and reports the month
/// number and the leap flag of that period.
pub proof fn lemma_conversion_reports_target(
    instant_ms: int,
    offset_seconds: int,
    new_moons: Seq<i64>,
    crossings: Seq<(i64, u32)>,
)
    ensures
        match convert_spec(instant_ms, offset_seconds, new_moons, crossings) {
            Ok(facts) => {
                &&& target_period(instant_ms, offset_seconds, new_moons, crossings) matches Some(t)
                &&& numbered_periods(
                    instant_ms,
                    offset_seconds,
                    new_moons,
                    crossings,
                ) matches Some(numbered)
                &&& 0 <= t < numbered.len()
                &&& period_has_date(numbered[t], date_only_of(instant_ms, offset_seconds))
                &&& facts.lunar_month == numbered[t].month_number
                &&& facts.is_leap_month == numbered[t].is_leap
            },
            Err(_) => target_period(instant_ms, offset_seconds, new_moons, crossings).is_none(),
        },
{
    match numbered_periods(instant_ms, offset_seconds, new_moons, crossings) {
        Some(numbered) => {
            lemma_first_period_with_date(
                numbered,
                date_only_of(instant_ms, offset_seconds),
                0,
            );
        },
        None => {},
    }
}

/// A leap month is reported with the number of the month before it: where one instant falls
/// into a leap month and another into the nearest period before it that is none, and the
/// months are numbered alike for both, the two conversions give the same lunar month.
pub proof fn lemma_leap_month_repeats_in_conversion(
    leap_ms: int,
    regular_ms: int,
    offset_seconds: int,
    new_moons: Seq<i64>,
    crossings: Seq<(i64, u32)>,
)
    requires
        convert_spec(leap_ms, offset_seconds, new_moons, crossings) matches Ok(leap)
            && leap.is_leap_month,
        convert_spec(regular_ms, offset_seconds, new_moons, crossings) is Ok,
        numbered_periods(leap_ms, offset_seconds, new_moons, crossings) == numbered_periods(
            regular_ms,
            offset_seconds,
            new_moons,
            crossings,
        ),
        is_nearest_regular_before(
            numbered_periods(leap_ms, offset_seconds, new_moons, crossings).unwrap(),
            target_period(regular_ms, offset_seconds, new_moons, crossings).unwrap(),
            target_period(leap_ms, offset_seconds, new_moons, crossings).unwrap(),
        ),
    ensures
        convert_spec(leap_ms, offset_seconds, new_moons, crossings).unwrap().lunar_month
            == convert_spec(
            regular_ms,
            offset_seconds,
            new_moons,
            crossings,
        ).unwrap().lunar_month,
{
    lemma_conversion_reports_target(leap_ms, offset_seconds, new_moons, crossings);
    lemma_conversion_reports_target(regular_ms, offset_seconds, new_moons, crossings);
    let terms = principal_terms_of(crossings, offset_seconds);
    let periods = segment_spec(new_moons, terms, offset_seconds);
    let a = anchor_solstice(terms, leap_ms, local_date(leap_ms, offset_seconds).0).unwrap();
    let zi = first_period_with_instant(periods, terms[a].instant_utc_ms as int, 0).unwrap();
    let i = target_period(leap_ms, offset_seconds, new_moons, crossings).unwrap();
    let j = target_period(regular_ms, offset_seconds, new_moons, crossings).unwrap();
    lemma_first_period_with_instant(periods, terms[a].instant_utc_ms as int, 0);
    assert(resolved(periods, zi)[i].is_leap);
    lemma_leap_month_rule(periods, zi, i, j);
}

/// Whether the years round a local year can be searched for events.
pub open spec fn window_searchable(local_year: int) -> bool {
    MIN_SCAN_YEAR < local_year && local_year + 1 < MAX_SCAN_YEAR
}

/// Whether new moons and solar terms are what a search of the three years round a local
/// year may find with the two oracles, each kind in order of time.
pub open spec fn events_found<S: Fn(i64) -> i64, M: Fn(i64) -> i64>(
    sun_lon: &S,
    moon_lon: &M,
    local_year: int,
    new_moons: Seq<i64>,
    crossings: Seq<(i64, u32)>,
) -> bool {
    &&& forall|k: int|
        0 <= k < new_moons.len() ==> new_moon_found(
            sun_lon,
            moon_lon,
            year_start_spec(local_year - 1),
            year_start_spec(local_year + 2),
            #[trigger] new_moons[k],
        )
    &&& forall|k: int|
        0 <= k < crossings.len() ==> solar_term_found(
            sun_lon,
            year_start_spec(local_year - 1),
            year_start_spec(local_year + 2),
            (#[trigger] crossings[k]).0,
            crossings[k].1,
        )
    &&& instants_ordered(new_moons)
    &&& crossings_well_formed(crossings)
}

/// The lunisolar date of an instant from the new moons and solar terms that a search of the
/// three years round it finds by the values of two oracles; insufficient data where those
/// years cannot be searched.
pub open spec fn auto_convert_spec<S: Fn(i64) -> i64, M: Fn(i64) -> i64>(
    sun_lon: &S,
    moon_lon: &M,
    instant_ms: int,
    offset_seconds: int,
) -> Result<LunarFacts, ConvertError> {
    let local_year = local_date(instant_ms, offset_seconds).0;
    if !window_searchable(local_year) {
        Err(ConvertError::InsufficientEventData)
    } else {
        let start = year_start_spec(local_year - 1);
        let steps = scan_steps(start, year_start_spec(local_year + 2));
        convert_spec(
            instant_ms,
            offset_seconds,
            new_moons_scanned(sun_lon, moon_lon, start, steps),
            solar_terms_scanned(sun_lon, start, steps),
        )
    }
}

/// The years to search for the events round an instant: from the year before its local
/// year to the year after.
pub fn event_window(timestamp_ms: i64, tz_offset_seconds: i32) -> (window: (i32, i32))
    ensures
        window.0 == local_date(timestamp_ms as int, tz_offset_seconds as int).0 - 1,
        window.1 == local_date(timestamp_ms as int, tz_offset_seconds as int).0 + 1,
{
    let (local_year, _, _, _, _, _) = utc_ms_to_date_parts(timestamp_ms, tz_offset_seconds);
    (local_year - 1, local_year + 1)
}

/// Converts an instant into its lunisolar date and pillars, searching the longitudes that
/// two oracles give for the new moons and solar terms of the three years round it. Where
/// those years cannot be searched, no event is found and the data are insufficient.
pub fn from_solar_date_auto<S: Fn(i64) -> i64, M: Fn(i64) -> i64>(
    timestamp_ms: i64,
    tz_offset_seconds: i32,
    sun_lon: &S,
    moon_lon: &M,
) -> (result: Result<LunisolarResult, ConvertError>)
    requires
        oracles_total(sun_lon, moon_lon),
    ensures
        !window_searchable(local_date(timestamp_ms as int, tz_offset_seconds as int).0)
            ==> (result matches Err(e) && e == ConvertError::InsufficientEventData),
        window_searchable(local_date(timestamp_ms as int, tz_offset_seconds as int).0)
            ==> exists|new_moons: Seq<i64>, crossings: Seq<(i64, u32)>|
            #[trigger] events_found(
                sun_lon,
                moon_lon,
                local_date(timestamp_ms as int, tz_offset_seconds as int).0,
                new_moons,
                crossings,
            ) && conversion_matches(
                result,
                convert_spec(
                    timestamp_ms as int,
                    tz_offset_seconds as int,
                    new_moons,
                    crossings,
                ),
            ),
        !(result matches Err(e) && e == ConvertError::MalformedInput),
        result matches Ok(r) ==> r.in_range(),
        oracle_is_function(sun_lon) && oracle_is_function(moon_lon) ==> conversion_matches(
            result,
            auto_convert_spec(
                sun_lon,
                moon_lon,
                timestamp_ms as int,
                tz_offset_seconds as int,
            ),
        ),
{
    let (start_year, end_year) = event_window(timestamp_ms, tz_offset_seconds);
    if start_year < MIN_SCAN_YEAR || end_year >= MAX_SCAN_YEAR {
        return Err(ConvertError::InsufficientEventData);
    }
    let new_moons = compute_new_moons(start_year, end_year, sun_lon, moon_lon);
    let solar_terms = compute_solar_terms(start_year, end_year, sun_lon);
    proof {
        assert(events_found(
            sun_lon,
            moon_lon,
            local_date(timestamp_ms as int, tz_offset_seconds as int).0,
            new_moons@,
            solar_terms@,
        ));
    }
    if new_moons.len() < 2 {
        return Err(ConvertError::InsufficientEventData);
    }
    if solar_terms.len() == 0 {
        proof {
            assert(principal_terms_of(solar_terms@, tz_offset_seconds as int).len() == 0);
        }
        return Err(ConvertError::MissingSolsticeTerm);
    }
    from_solar_date_core(timestamp_ms, tz_offset_seconds, &new_moons, &solar_terms)
}

} // verus!
