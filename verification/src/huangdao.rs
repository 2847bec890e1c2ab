//! Day qualities of the almanac: the twelve construction stars and the twelve spirits of
//! the yellow and black paths.

use vstd::prelude::*;

verus! {

/// Label of the construction star with index `i`, for `i` in `0..12`.
pub open spec fn star_label(i: int) -> Seq<char> {
    if i == 0 {
        "建"@
    } else if i == 1 {
        "除"@
    } else if i == 2 {
        "满"@
    } else if i == 3 {
        "平"@
    } else if i == 4 {
        "定"@
    } else if i == 5 {
        "执"@
    } else if i == 6 {
        "破"@
    } else if i == 7 {
        "危"@
    } else if i == 8 {
        "成"@
    } else if i == 9 {
        "收"@
    } else if i == 10 {
        "开"@
    } else if i == 11 {
        "闭"@
    } else {
        Seq::empty()
    }
}

/// Label of the spirit with index `i`, for `i` in `0..12`, counted from the Azure Dragon.
pub open spec fn spirit_label(i: int) -> Seq<char> {
    if i == 0 {
        "青龙"@
    } else if i == 1 {
        "明堂"@
    } else if i == 2 {
        "天刑"@
    } else if i == 3 {
        "朱雀"@
    } else if i == 4 {
        "金匮"@
    } else if i == 5 {
        "天德"@
    } else if i == 6 {
        "白虎"@
    } else if i == 7 {
        "玉堂"@
    } else if i == 8 {
        "天牢"@
    } else if i == 9 {
        "玄武"@
    } else if i == 10 {
        "司命"@
    } else if i == 11 {
        "勾陈"@
    } else {
        Seq::empty()
    }
}

/// Whether the spirit with index `i` walks the yellow, auspicious path.
pub open spec fn spirit_is_auspicious(i: int) -> bool {
    i == 0 || i == 1 || i == 4 || i == 5 || i == 7 || i == 10
}

/// Branch on which a lunar month is built: the third branch for the first month, one further
/// for each month after it.
pub open spec fn building_branch(lunar_month: int) -> int {
    (lunar_month + 1) % 12
}

/// Branch on which the Azure Dragon stands in a lunar month: the first branch in the first
/// month, two further for each month after it.
pub open spec fn azure_start(lunar_month: int) -> int {
    (2 * (lunar_month - 1)) % 12
}

/// Index of the construction star of a day, by its branch and the lunar month.
pub open spec fn star_index(lunar_month: int, day_branch: int) -> int {
    (day_branch - building_branch(lunar_month)) % 12
}

/// Index of the spirit of a day, by its branch and the lunar month.
pub open spec fn spirit_index(lunar_month: int, day_branch: int) -> int {
    (day_branch - azure_start(lunar_month)) % 12
}

/// The label of the construction star with index `i`.
pub fn star_name(i: usize) -> (s: &'static str)
    requires
        i < 12,
    ensures
        s@ == star_label(i as int),
{
    match i {
        0 => "建",
        1 => "除",
        2 => "满",
        3 => "平",
        4 => "定",
        5 => "执",
        6 => "破",
        7 => "危",
        8 => "成",
        9 => "收",
        10 => "开",
        _ => "闭",
    }
}

/// The label of the spirit with index `i`, and whether it is auspicious.
pub fn spirit_name(i: usize) -> (s: (&'static str, bool))
    requires
        i < 12,
    ensures
        s.0@ == spirit_label(i as int),
        s.1 == spirit_is_auspicious(i as int),
{
    match i {
        0 => ("青龙", true),
        1 => ("明堂", true),
        2 => ("天刑", false),
        3 => ("朱雀", false),
        4 => ("金匮", true),
        5 => ("天德", true),
        6 => ("白虎", false),
        7 => ("玉堂", true),
        8 => ("天牢", false),
        9 => ("玄武", false),
        10 => ("司命", true),
        _ => ("勾陈", false),
    }
}

/// The branch on which a lunar month is built.
pub fn building_branch_of(lunar_month: u32) -> (b: usize)
    requires
        1 <= lunar_month <= 12,
    ensures
        b == building_branch(lunar_month as int),
        b < 12,
{
    match lunar_month {
        1 => 2,
        2 => 3,
        3 => 4,
        4 => 5,
        5 => 6,
        6 => 7,
        7 => 8,
        8 => 9,
        9 => 10,
        10 => 11,
        11 => 0,
        _ => 1,
    }
}

/// The branch on which the Azure Dragon stands in a lunar month.
pub fn azure_start_of(lunar_month: u32) -> (b: usize)
    requires
        1 <= lunar_month <= 12,
    ensures
        b == azure_start(lunar_month as int),
        b < 12,
{
    match lunar_month {
        1 => 0,
        2 => 2,
        3 => 4,
        4 => 6,
        5 => 8,
        6 => 10,
        7 => 0,
        8 => 2,
        9 => 4,
        10 => 6,
        11 => 8,
        _ => 10,
    }
}

/// Index of the construction star of a day, by its branch and the lunar month.
pub fn construction_star_index(lunar_month: u32, day_branch_idx: usize) -> (i: usize)
    requires
        1 <= lunar_month <= 12,
    ensures
        i == star_index(lunar_month as int, day_branch_idx as int),
        i < 12,
{
    let building: usize = building_branch_of(lunar_month);
    (day_branch_idx % 12 + 12 - building) % 12
}

/// Index of the spirit of a day, by its branch and the lunar month.
pub fn gyp_spirit_index(lunar_month: u32, day_branch_idx: usize) -> (i: usize)
    requires
        1 <= lunar_month <= 12,
    ensures
        i == spirit_index(lunar_month as int, day_branch_idx as int),
        i < 12,
{
    let start: usize = azure_start_of(lunar_month);
    (day_branch_idx % 12 + 12 - start) % 12
}

/// Label of the construction star of a day, by its branch and the lunar month.
pub fn construction_star(lunar_month: u32, day_branch_idx: usize) -> (star: &'static str)
    requires
        1 <= lunar_month <= 12,
    ensures
        star@ == star_label(star_index(lunar_month as int, day_branch_idx as int)),
{
    star_name(construction_star_index(lunar_month, day_branch_idx))
}

/// Label of the spirit of a day and whether it is auspicious, by the day's branch and the
/// lunar month.
pub fn gyp_spirit(lunar_month: u32, day_branch_idx: usize) -> (spirit: (&'static str, bool))
    requires
        1 <= lunar_month <= 12,
    ensures
        spirit.0@ == spirit_label(spirit_index(lunar_month as int, day_branch_idx as int)),
        spirit.1 == spirit_is_auspicious(spirit_index(lunar_month as int, day_branch_idx as int)),
{
    spirit_name(gyp_spirit_index(lunar_month, day_branch_idx))
}

} // verus!
