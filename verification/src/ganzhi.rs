//! The sexagenary cycle: ten heavenly stems paired with twelve earthly branches,
//! and the year, month, day and hour pillars drawn from it.

use crate::civil::{
    day_number, days_from_civil, floor_div, floor_mod, lemma_days_before_month_table,
};
use crate::text::same_text;
use vstd::prelude::*;

verus! {

/// Label of the heavenly stem with index `i`, for `i` in `0..10`.
pub open spec fn stem_label(i: int) -> Seq<char> {
    if i == 0 {
        "甲"@
    } else if i == 1 {
        "乙"@
    } else if i == 2 {
        "丙"@
    } else if i == 3 {
        "丁"@
    } else if i == 4 {
        "戊"@
    } else if i == 5 {
        "己"@
    } else if i == 6 {
        "庚"@
    } else if i == 7 {
        "辛"@
    } else if i == 8 {
        "壬"@
    } else if i == 9 {
        "癸"@
    } else {
        Seq::empty()
    }
}

/// Label of the earthly branch with index `i`, for `i` in `0..12`.
pub open spec fn branch_label(i: int) -> Seq<char> {
    if i == 0 {
        "子"@
    } else if i == 1 {
        "丑"@
    } else if i == 2 {
        "寅"@
    } else if i == 3 {
        "卯"@
    } else if i == 4 {
        "辰"@
    } else if i == 5 {
        "巳"@
    } else if i == 6 {
        "午"@
    } else if i == 7 {
        "未"@
    } else if i == 8 {
        "申"@
    } else if i == 9 {
        "酉"@
    } else if i == 10 {
        "戌"@
    } else if i == 11 {
        "亥"@
    } else {
        Seq::empty()
    }
}

/// Index of the stem that a label names, if it names one.
pub open spec fn stem_of_label(s: Seq<char>) -> Option<int> {
    if s == "甲"@ {
        Some(0)
    } else if s == "乙"@ {
        Some(1)
    } else if s == "丙"@ {
        Some(2)
    } else if s == "丁"@ {
        Some(3)
    } else if s == "戊"@ {
        Some(4)
    } else if s == "己"@ {
        Some(5)
    } else if s == "庚"@ {
        Some(6)
    } else if s == "辛"@ {
        Some(7)
    } else if s == "壬"@ {
        Some(8)
    } else if s == "癸"@ {
        Some(9)
    } else {
        None
    }
}

/// Index of the branch that a label names, if it names one.
pub open spec fn branch_of_label(s: Seq<char>) -> Option<int> {
    if s == "子"@ {
        Some(0)
    } else if s == "丑"@ {
        Some(1)
    } else if s == "寅"@ {
        Some(2)
    } else if s == "卯"@ {
        Some(3)
    } else if s == "辰"@ {
        Some(4)
    } else if s == "巳"@ {
        Some(5)
    } else if s == "午"@ {
        Some(6)
    } else if s == "未"@ {
        Some(7)
    } else if s == "申"@ {
        Some(8)
    } else if s == "酉"@ {
        Some(9)
    } else if s == "戌"@ {
        Some(10)
    } else if s == "亥"@ {
        Some(11)
    } else {
        None
    }
}

/// Every stem label is a single character, and no two stems share one.
pub proof fn lemma_stem_labels(i: int)
    requires
        0 <= i < 10,
    ensures
        stem_label(i).len() == 1,
        stem_of_label(stem_label(i)) == Some(i),
{
    reveal_strlit("甲");
    reveal_strlit("乙");
    reveal_strlit("丙");
    reveal_strlit("丁");
    reveal_strlit("戊");
    reveal_strlit("己");
    reveal_strlit("庚");
    reveal_strlit("辛");
    reveal_strlit("壬");
    reveal_strlit("癸");
    assert("甲"@[0] == '甲');
    assert("乙"@[0] == '乙');
    assert("丙"@[0] == '丙');
    assert("丁"@[0] == '丁');
    assert("戊"@[0] == '戊');
    assert("己"@[0] == '己');
    assert("庚"@[0] == '庚');
    assert("辛"@[0] == '辛');
    assert("壬"@[0] == '壬');
    assert("癸"@[0] == '癸');
}

/// Every branch label is a single character, and no two branches share one.
pub proof fn lemma_branch_labels(i: int)
    requires
        0 <= i < 12,
    ensures
        branch_label(i).len() == 1,
        branch_of_label(branch_label(i)) == Some(i),
{
    reveal_strlit("子");
    reveal_strlit("丑");
    reveal_strlit("寅");
    reveal_strlit("卯");
    reveal_strlit("辰");
    reveal_strlit("巳");
    reveal_strlit("午");
    reveal_strlit("未");
    reveal_strlit("申");
    reveal_strlit("酉");
    reveal_strlit("戌");
    reveal_strlit("亥");
    assert("子"@[0] == '子');
    assert("丑"@[0] == '丑');
    assert("寅"@[0] == '寅');
    assert("卯"@[0] == '卯');
    assert("辰"@[0] == '辰');
    assert("巳"@[0] == '巳');
    assert("午"@[0] == '午');
    assert("未"@[0] == '未');
    assert("申"@[0] == '申');
    assert("酉"@[0] == '酉');
    assert("戌"@[0] == '戌');
    assert("亥"@[0] == '亥');
}

/// A label that names a stem is that stem's label.
pub proof fn lemma_stem_of_label(s: Seq<char>)
    ensures
        match stem_of_label(s) {
            Some(i) => 0 <= i < 10 && stem_label(i) == s,
            None => forall|i: int| 0 <= i < 10 ==> stem_label(i) != s,
        },
{
}

/// A label that names a branch is that branch's label.
pub proof fn lemma_branch_of_label(s: Seq<char>)
    ensures
        match branch_of_label(s) {
            Some(i) => 0 <= i < 12 && branch_label(i) == s,
            None => forall|i: int| 0 <= i < 12 ==> branch_label(i) != s,
        },
{
}

/// The label of the heavenly stem with index `i`.
pub fn stem_name(i: usize) -> (s: &'static str)
    requires
        i < 10,
    ensures
        s@ == stem_label(i as int),
{
    match i {
        0 => "甲",
        1 => "乙",
        2 => "丙",
        3 => "丁",
        4 => "戊",
        5 => "己",
        6 => "庚",
        7 => "辛",
        8 => "壬",
        _ => "癸",
    }
}

/// The label of the earthly branch with index `i`.
pub fn branch_name(i: usize) -> (s: &'static str)
    requires
        i < 12,
    ensures
        s@ == branch_label(i as int),
{
    match i {
        0 => "子",
        1 => "丑",
        2 => "寅",
        3 => "卯",
        4 => "辰",
        5 => "巳",
        6 => "午",
        7 => "未",
        8 => "申",
        9 => "酉",
        10 => "戌",
        _ => "亥",
    }
}

/// Position of a label among the heavenly stems.
pub fn stem_index(label: &str) -> (r: Option<usize>)
    ensures
        match r {
            Some(i) => stem_of_label(label@) == Some(i as int) && i < 10,
            None => stem_of_label(label@).is_none(),
        },
{
    let mut i: usize = 0;
    while i < 10
        invariant
            i <= 10,
            forall|k: int| 0 <= k < i ==> stem_label(k) != label@,
        decreases 10 - i,
    {
        if same_text(label, stem_name(i)) {
            proof {
                lemma_stem_of_label(label@);
            }
            return Some(i);
        }
        i += 1;
    }
    proof {
        lemma_stem_of_label(label@);
    }
    None
}

/// Position of a label among the earthly branches.
pub fn branch_index(label: &str) -> (r: Option<usize>)
    ensures
        match r {
            Some(i) => branch_of_label(label@) == Some(i as int) && i < 12,
            None => branch_of_label(label@).is_none(),
        },
{
    let mut i: usize = 0;
    while i < 12
        invariant
            i <= 12,
            forall|k: int| 0 <= k < i ==> branch_label(k) != label@,
        decreases 12 - i,
    {
        if same_text(label, branch_name(i)) {
            proof {
                lemma_branch_of_label(label@);
            }
            return Some(i);
        }
        i += 1;
    }
    proof {
        lemma_branch_of_label(label@);
    }
    None
}

/// Stem index of a position in the sixty-fold cycle, counted from 1.
pub open spec fn cycle_stem(cycle: int) -> int {
    (cycle - 1) % 10
}

/// Branch index of a position in the sixty-fold cycle, counted from 1.
pub open spec fn cycle_branch(cycle: int) -> int {
    (cycle - 1) % 12
}

/// Whether a stem and a branch occur together in the cycle: both in range and of the same parity.
pub open spec fn pairs_in_cycle(stem: int, branch: int) -> bool {
    0 <= stem < 10 && 0 <= branch < 12 && stem % 2 == branch % 2
}

/// The position in `1..=60` at which a stem and a branch that pair meet.
pub open spec fn cycle_of(stem: int, branch: int) -> int {
    (6 * stem - 5 * branch) % 60 + 1
}

/// Within one round of sixty, a position is determined by its stem and branch.
pub proof fn lemma_cycle_injective(c1: int, c2: int)
    requires
        1 <= c1 <= 60,
        1 <= c2 <= 60,
        cycle_stem(c1) == cycle_stem(c2),
        cycle_branch(c1) == cycle_branch(c2),
    ensures
        c1 == c2,
{
    let n1 = c1 - 1;
    let n2 = c2 - 1;
    let a = n1 / 10 - n2 / 10;
    let b = n1 / 12 - n2 / 12;
    assert(n1 == 10 * (n1 / 10) + n1 % 10);
    assert(n2 == 10 * (n2 / 10) + n2 % 10);
    assert(n1 == 12 * (n1 / 12) + n1 % 12);
    assert(n2 == 12 * (n2 / 12) + n2 % 12);
    assert(n1 - n2 == 10 * a);
    assert(n1 - n2 == 12 * b);
    assert(-6 < a < 6);
    assert(-5 < b < 5);
}

/// Every position of the cycle shows a stem and a branch that pair, and is found again from them.
pub proof fn lemma_cycle_of_position(cycle: int)
    requires
        1 <= cycle <= 60,
    ensures
        pairs_in_cycle(cycle_stem(cycle), cycle_branch(cycle)),
        cycle_of(cycle_stem(cycle), cycle_branch(cycle)) == cycle,
{
    let n = cycle - 1;
    let q1 = n / 10;
    let q2 = n / 12;
    let s = n % 10;
    let b = n % 12;
    assert(n == 10 * q1 + s);
    assert(n == 12 * q2 + b);
    assert(s % 2 == n % 2);
    assert(b % 2 == n % 2);
    assert(6 * s - 5 * b == 60 * (q2 - q1) + n);
    vstd::arithmetic::div_mod::lemma_mod_multiples_vanish(q2 - q1, n, 60);
}

/// A stem and a branch that pair meet at exactly one position of the cycle.
pub proof fn lemma_cycle_of_pair(stem: int, branch: int)
    requires
        pairs_in_cycle(stem, branch),
    ensures
        1 <= cycle_of(stem, branch) <= 60,
        cycle_stem(cycle_of(stem, branch)) == stem,
        cycle_branch(cycle_of(stem, branch)) == branch,
{
    let x = 6 * stem - 5 * branch;
    let n = x % 60;
    let k = x / 60;
    let j = (stem - branch) / 2;
    assert((stem - branch) % 2 == 0);
    assert(stem - branch == 2 * j);
    assert(x == 60 * k + n);
    assert(n == 10 * (j - 6 * k) + stem);
    assert(n == 12 * (j - 5 * k) + branch);
    vstd::arithmetic::div_mod::lemma_mod_multiples_vanish(j - 6 * k, stem, 10);
    vstd::arithmetic::div_mod::lemma_mod_multiples_vanish(j - 5 * k, branch, 12);
}

/// The position in the cycle of a stem and a branch given by indices counted from 1;
/// position 1 when the two never meet.
pub fn cycle_from_stem_branch(stem_idx1: usize, branch_idx1: usize) -> (cycle: usize)
    requires
        stem_idx1 >= 1,
        branch_idx1 >= 1,
    ensures
        1 <= cycle <= 60,
        pairs_in_cycle(stem_idx1 - 1, branch_idx1 - 1) ==> cycle == cycle_of(
            stem_idx1 - 1,
            branch_idx1 - 1,
        ) && cycle_stem(cycle as int) == stem_idx1 - 1 && cycle_branch(cycle as int) == branch_idx1
            - 1,
        !pairs_in_cycle(stem_idx1 - 1, branch_idx1 - 1) ==> cycle == 1,
{
    let stem0: usize = stem_idx1 - 1;
    let branch0: usize = branch_idx1 - 1;
    let mut cycle: usize = 1;
    while cycle <= 60
        invariant
            1 <= cycle <= 61,
            stem0 == stem_idx1 - 1,
            branch0 == branch_idx1 - 1,
            forall|c: int|
                1 <= c < cycle ==> !(cycle_stem(c) == stem0 && cycle_branch(c) == branch0),
        decreases 61 - cycle,
    {
        let s: usize = (cycle - 1) % 10;
        let b: usize = (cycle - 1) % 12;
        if s == stem0 && b == branch0 {
            proof {
                lemma_cycle_of_position(cycle as int);
            }
            return cycle;
        }
        cycle += 1;
    }
    proof {
        if pairs_in_cycle(stem0 as int, branch0 as int) {
            lemma_cycle_of_pair(stem0 as int, branch0 as int);
        }
    }
    1
}

/// Position in the cycle of a lunar year: year 4 of the common era opens a round.
pub open spec fn year_cycle(lunar_year: int) -> int {
    (lunar_year - 4) % 60 + 1
}

/// Stem of the first month of a year, by the stem of the year: the five pairs of year stems
/// open their first months on the third, fifth, seventh, ninth and first stem.
pub open spec fn first_month_stem(year_stem: int) -> int {
    if year_stem == 0 || year_stem == 5 {
        2
    } else if year_stem == 1 || year_stem == 6 {
        4
    } else if year_stem == 2 || year_stem == 7 {
        6
    } else if year_stem == 3 || year_stem == 8 {
        8
    } else if year_stem == 4 || year_stem == 9 {
        0
    } else {
        2
    }
}

/// Stem index of a lunar month in a year whose stem is `year_stem`.
pub open spec fn month_stem(year_stem: int, lunar_month: int) -> int {
    (first_month_stem(year_stem) + (lunar_month - 1)) % 10
}

/// Branch index of a lunar month: the first month is the third branch, whatever the year.
pub open spec fn month_branch(lunar_month: int) -> int {
    (lunar_month + 1) % 12
}

/// Position in the cycle of a lunar month of a lunar year.
pub open spec fn month_cycle(lunar_year: int, lunar_month: int) -> int {
    cycle_of(month_stem(cycle_stem(year_cycle(lunar_year)), lunar_month), month_branch(lunar_month))
}

/// Position in the cycle of the day with the given day number: 31 January of year 4 opens a round.
pub open spec fn day_cycle(day: int) -> int {
    (day - day_number(4, 1, 31)) % 60 + 1
}

/// Branch index of the two-hour slot that holds an hour of the day; the first slot runs
/// from 23:00 to 00:59.
pub open spec fn hour_branch(hour: int) -> int {
    if hour >= 23 || hour < 1 {
        0
    } else {
        (hour - 1) / 2 + 1
    }
}

/// Stem of the first two-hour slot of a day, by the stem of the day: the five pairs of day
/// stems open on the first, third, fifth, seventh and ninth stem. A day stem that is
/// not known opens on the first.
pub open spec fn zi_hour_stem(day_stem: Option<int>) -> int {
    match day_stem {
        Some(s) => if s == 0 || s == 5 {
            0
        } else if s == 1 || s == 6 {
            2
        } else if s == 2 || s == 7 {
            4
        } else if s == 3 || s == 8 {
            6
        } else if s == 4 || s == 9 {
            8
        } else {
            0
        },
        None => 0,
    }
}

/// The day stem that counts for an hour: from 23:00 on, the stem of the next day.
pub open spec fn day_stem_for_hour(day_stem: Option<int>, hour: int) -> Option<int> {
    if hour >= 23 {
        match day_stem {
            Some(s) => Some((s + 1) % 10),
            None => None,
        }
    } else {
        day_stem
    }
}

/// Stem index of the two-hour slot that holds an hour, on a day with the given stem.
pub open spec fn hour_stem(day_stem: Option<int>, hour: int) -> int {
    (zi_hour_stem(day_stem_for_hour(day_stem, hour)) + hour_branch(hour)) % 10
}

/// Position in the cycle of the two-hour slot that holds an hour, on a day with the given stem.
pub open spec fn hour_cycle(day_stem: Option<int>, hour: int) -> int {
    cycle_of(hour_stem(day_stem, hour), hour_branch(hour))
}

/// Hour of the day, `0..24`, of a wall-clock time in milliseconds.
pub open spec fn wall_hour(wall_ms: int) -> int {
    ((wall_ms / 1000) % 86400) / 3600
}

/// Day number of a wall-clock time in milliseconds.
pub open spec fn wall_day(wall_ms: int) -> int {
    (wall_ms / 1000) / 86400
}

/// Position in the cycle of a lunar year.
pub fn year_cycle_number(lunar_year: i32) -> (cycle: usize)
    ensures
        cycle == year_cycle(lunar_year as int),
        1 <= cycle <= 60,
{
    let mut year_cycle: i64 = ((lunar_year as i64 - 4) % 60) + 1;
    if year_cycle <= 0 {
        year_cycle += 60;
    }
    year_cycle as usize
}

/// Stem label, branch label and cycle position of a lunar year.
pub fn year_ganzhi(lunar_year: i32) -> (pillar: (&'static str, &'static str, usize))
    ensures
        pillar.2 == year_cycle(lunar_year as int),
        1 <= pillar.2 <= 60,
        pillar.0@ == stem_label(cycle_stem(pillar.2 as int)),
        pillar.1@ == branch_label(cycle_branch(pillar.2 as int)),
{
    let year_cycle: usize = year_cycle_number(lunar_year);
    let stem = stem_name((year_cycle - 1) % 10);
    let branch = branch_name((year_cycle - 1) % 12);
    (stem, branch, year_cycle)
}

/// The first month's stem is always even, so a month's stem and branch pair.
pub proof fn lemma_month_pairs(year_stem: int, lunar_month: int)
    requires
        0 <= year_stem < 10,
        1 <= lunar_month <= 12,
    ensures
        pairs_in_cycle(month_stem(year_stem, lunar_month), month_branch(lunar_month)),
{
    let f = first_month_stem(year_stem);
    assert(f % 2 == 0 && 0 <= f <= 8);
}

/// Stem index, branch index and cycle position of a lunar month in a year whose stem has
/// index `year_stem`.
pub fn month_pillar(year_stem: usize, lunar_month: u32) -> (pillar: (usize, usize, usize))
    requires
        year_stem < 10,
        1 <= lunar_month <= 12,
    ensures
        pillar.0 == month_stem(year_stem as int, lunar_month as int),
        pillar.1 == month_branch(lunar_month as int),
        pillar.2 == cycle_of(pillar.0 as int, pillar.1 as int),
        pillar.0 < 10,
        pillar.1 < 12,
        1 <= pillar.2 <= 60,
        cycle_stem(pillar.2 as int) == pillar.0,
        cycle_branch(pillar.2 as int) == pillar.1,
{
    let year_stem_idx: usize = year_stem + 1;
    let first_month_stem_idx: usize = match year_stem_idx {
        1 | 6 => 3,
        2 | 7 => 5,
        3 | 8 => 7,
        4 | 9 => 9,
        5 | 10 => 1,
        _ => 3,
    };
    assert(first_month_stem_idx - 1 == first_month_stem(year_stem as int));

    let month_stem_idx: usize = ((first_month_stem_idx - 1 + (lunar_month as usize - 1)) % 10) + 1;
    let mut month_branch_idx: usize = (lunar_month as usize + 2) % 12;
    if month_branch_idx == 0 {
        month_branch_idx = 12;
    }
    assert(month_branch_idx - 1 == month_branch(lunar_month as int));
    proof {
        lemma_month_pairs(year_stem as int, lunar_month as int);
    }
    let month_cycle: usize = cycle_from_stem_branch(month_stem_idx, month_branch_idx);
    (month_stem_idx - 1, month_branch_idx - 1, month_cycle)
}

/// Stem label, branch label and cycle position of a lunar month of a lunar year.
pub fn month_ganzhi(lunar_year: i32, lunar_month: u32) -> (pillar: (
    &'static str,
    &'static str,
    usize,
))
    requires
        1 <= lunar_month <= 12,
    ensures
        pillar.2 == month_cycle(lunar_year as int, lunar_month as int),
        1 <= pillar.2 <= 60,
        cycle_stem(pillar.2 as int) == month_stem(
            cycle_stem(year_cycle(lunar_year as int)),
            lunar_month as int,
        ),
        cycle_branch(pillar.2 as int) == month_branch(lunar_month as int),
        pillar.0@ == stem_label(cycle_stem(pillar.2 as int)),
        pillar.1@ == branch_label(cycle_branch(pillar.2 as int)),
{
    let year_cycle: usize = year_cycle_number(lunar_year);
    let (stem, branch, month_cycle) = month_pillar((year_cycle - 1) % 10, lunar_month);
    (stem_name(stem), branch_name(branch), month_cycle)
}

/// Position in the cycle of the day with the given day number.
pub fn day_cycle_number(day: i64) -> (cycle: usize)
    ensures
        cycle == day_cycle(day as int),
        1 <= cycle <= 60,
{
    let ref_days: i64 = days_from_civil(4, 1, 31);
    proof {
        lemma_days_before_month_table(4, 1);
        assert(ref_days == -718037);
    }
    let day_in_round: i64 = floor_mod(day, 60);
    let ref_in_round: i64 = floor_mod(ref_days, 60);
    assert(ref_in_round == 43);
    let shift: i64 = day_in_round - ref_in_round;
    let cycle: i64 = ((shift % 60) + 60) % 60 + 1;
    proof {
        let q = day as int / 60;
        assert(day == 60 * q + day_in_round);
        assert(day - ref_days == 60 * (q + 11967) + (day_in_round + 17));
        if day_in_round + 17 >= 60 {
            assert(day - ref_days == 60 * (q + 11968) + (day_in_round - 43));
            assert((day - ref_days) % 60 == day_in_round - 43);
        } else {
            assert((day - ref_days) % 60 == day_in_round + 17);
        }
    }
    cycle as usize
}

/// Stem label, branch label and cycle position of the day of a wall-clock time in
/// milliseconds; the day changes at midnight of that clock.
pub fn day_ganzhi(timestamp_ms: i64) -> (pillar: (&'static str, &'static str, usize))
    ensures
        pillar.2 == day_cycle(wall_day(timestamp_ms as int)),
        1 <= pillar.2 <= 60,
        pillar.0@ == stem_label(cycle_stem(pillar.2 as int)),
        pillar.1@ == branch_label(cycle_branch(pillar.2 as int)),
{
    let total_s: i64 = floor_div(timestamp_ms, 1000);
    let day_from_epoch: i64 = floor_div(total_s, 86400);
    let day_cycle: usize = day_cycle_number(day_from_epoch);
    let stem = stem_name((day_cycle - 1) % 10);
    let branch = branch_name((day_cycle - 1) % 12);
    (stem, branch, day_cycle)
}

/// A stem index that may be missing, as a mathematical integer.
pub open spec fn stem_option(stem: Option<usize>) -> Option<int> {
    match stem {
        Some(s) => Some(s as int),
        None => None,
    }
}

/// The first slot's stem is always even, so an hour's stem and branch pair.
pub proof fn lemma_hour_pairs(day_stem: Option<int>, hour: int)
    requires
        0 <= hour < 24,
    ensures
        pairs_in_cycle(hour_stem(day_stem, hour), hour_branch(hour)),
{
    let z = zi_hour_stem(day_stem_for_hour(day_stem, hour));
    assert(z % 2 == 0 && 0 <= z <= 8);
    let b = hour_branch(hour);
    assert(0 <= b < 12);
}

/// Stem index, branch index and cycle position of the two-hour slot that holds an hour of
/// the day, on a day with the given stem.
pub fn hour_pillar(hour: u32, day_stem: Option<usize>) -> (pillar: (usize, usize, usize))
    requires
        hour < 24,
        hour >= 23 ==> day_stem.is_some(),
        day_stem matches Some(s) ==> s < 10,
    ensures
        pillar.0 == hour_stem(stem_option(day_stem), hour as int),
        pillar.1 == hour_branch(hour as int),
        pillar.2 == hour_cycle(stem_option(day_stem), hour as int),
        pillar.0 < 10,
        pillar.1 < 12,
        1 <= pillar.2 <= 60,
        cycle_stem(pillar.2 as int) == pillar.0,
        cycle_branch(pillar.2 as int) == pillar.1,
{
    let branch_index0: usize = if hour >= 23 || hour < 1 {
        0
    } else {
        let idx: usize = ((hour - 1) / 2) as usize + 1;
        if idx >= 12 {
            11
        } else {
            idx
        }
    };
    assert(branch_index0 == hour_branch(hour as int));

    let branch_idx1: usize = branch_index0 + 1;

    let effective_stem: Option<usize> = if hour >= 23 {
        match day_stem {
            Some(day_stem_idx) => Some((day_stem_idx + 1) % 10),
            None => None,
        }
    } else {
        day_stem
    };
    assert(stem_option(effective_stem) == day_stem_for_hour(
        stem_option(day_stem),
        hour as int,
    ));

    let zi_stem_index0: usize = match effective_stem {
        Some(0) | Some(5) => 0,
        Some(1) | Some(6) => 2,
        Some(2) | Some(7) => 4,
        Some(3) | Some(8) => 6,
        Some(4) | Some(9) => 8,
        _ => 0,
    };
    assert(zi_stem_index0 == zi_hour_stem(stem_option(effective_stem)));

    let hour_stem_index0: usize = (zi_stem_index0 + (branch_idx1 - 1)) % 10;
    proof {
        lemma_hour_pairs(stem_option(day_stem), hour as int);
    }
    let cycle: usize = cycle_from_stem_branch(hour_stem_index0 + 1, branch_idx1);
    (hour_stem_index0, branch_idx1 - 1, cycle)
}

/// Stem label, branch label and cycle position of the two-hour slot of a wall-clock time in
/// milliseconds, on a day whose stem label is `base_day_stem`.
pub fn hour_ganzhi(local_date_utc_ms: i64, base_day_stem: &str) -> (pillar: (
    &'static str,
    &'static str,
    usize,
))
    requires
        wall_hour(local_date_utc_ms as int) >= 23 ==> stem_of_label(base_day_stem@).is_some(),
    ensures
        pillar.2 == hour_cycle(
            stem_of_label(base_day_stem@),
            wall_hour(local_date_utc_ms as int),
        ),
        1 <= pillar.2 <= 60,
        cycle_stem(pillar.2 as int) == hour_stem(
            stem_of_label(base_day_stem@),
            wall_hour(local_date_utc_ms as int),
        ),
        cycle_branch(pillar.2 as int) == hour_branch(wall_hour(local_date_utc_ms as int)),
        pillar.0@ == stem_label(cycle_stem(pillar.2 as int)),
        pillar.1@ == branch_label(cycle_branch(pillar.2 as int)),
{
    let total_s: i64 = floor_div(local_date_utc_ms, 1000);
    let time_of_day: u32 = floor_mod(total_s, 86400) as u32;
    let hour: u32 = time_of_day / 3600;
    let day_stem: Option<usize> = stem_index(base_day_stem);
    let (stem, branch, cycle) = hour_pillar(hour, day_stem);
    (stem_name(stem), branch_name(branch), cycle)
}

} // verus!
