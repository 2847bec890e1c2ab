//! Four Pillars analysis: elements and polarities of stems and branches, the twelve stages
//! of life, the ten gods, and the combinations, transformations and punishments among the
//! pillars of a chart.

use crate::ganzhi::{
    branch_index, branch_label, branch_name, branch_of_label, cycle_branch, cycle_stem,
    stem_index, stem_label, stem_name, stem_of_label,
};
use crate::text::same_text;
use vstd::prelude::*;

verus! {

/// Element of each heavenly stem.
pub const STEM_ELEMENT: [&'static str; 10] = [
    "Wood",
    "Wood",
    "Fire",
    "Fire",
    "Earth",
    "Earth",
    "Metal",
    "Metal",
    "Water",
    "Water",
];

/// Polarity of each heavenly stem.
pub const STEM_POLARITY: [&'static str; 10] = [
    "Yang",
    "Yin",
    "Yang",
    "Yin",
    "Yang",
    "Yin",
    "Yang",
    "Yin",
    "Yang",
    "Yin",
];

/// Element of each earthly branch.
pub const BRANCH_ELEMENT: [&'static str; 12] = [
    "Water",
    "Earth",
    "Wood",
    "Wood",
    "Earth",
    "Fire",
    "Fire",
    "Earth",
    "Metal",
    "Metal",
    "Earth",
    "Water",
];

/// The five pairs of stems that combine, each with the element into which it transforms.
pub const STEM_TRANSFORMATIONS: [(usize, usize, &'static str); 5] = [
    (0, 5, "Earth"),
    (1, 6, "Metal"),
    (2, 7, "Water"),
    (3, 8, "Wood"),
    (4, 9, "Fire"),
];

/// The round of production: each element with the one it produces.
pub const GEN_MAP: [(&'static str, &'static str); 5] = [
    ("Wood", "Fire"),
    ("Fire", "Earth"),
    ("Earth", "Metal"),
    ("Metal", "Water"),
    ("Water", "Wood"),
];

/// The round of control: each element with the one it controls.
pub const CONTROL_MAP: [(&'static str, &'static str); 5] = [
    ("Wood", "Earth"),
    ("Fire", "Metal"),
    ("Earth", "Water"),
    ("Metal", "Wood"),
    ("Water", "Fire"),
];

/// Branch at which the first stage of life of each stem stands.
pub const LONGEVITY_START: [usize; 10] = [11, 6, 2, 9, 2, 9, 5, 0, 8, 3];

/// The six combinations of branches.
pub const LIU_HE: [(usize, usize); 6] = [(0, 1), (2, 11), (3, 10), (4, 9), (5, 8), (6, 7)];

/// The six clashes of branches.
pub const LIU_CHONG: [(usize, usize); 6] = [(0, 6), (1, 7), (2, 8), (3, 9), (4, 10), (5, 11)];

/// The six harms of branches.
pub const LIU_HAI: [(usize, usize); 6] = [(0, 7), (1, 6), (2, 5), (3, 4), (8, 11), (9, 10)];

/// The pairs of branches that harm each other.
pub const HARM_PAIRS: [(usize, usize); 6] = [(0, 7), (1, 6), (2, 5), (3, 4), (8, 11), (9, 10)];

/// The branches that punish themselves.
pub const SELF_PUNISH_BRANCHES: [usize; 4] = [4, 6, 9, 11];

/// The pair of branches of the uncivil punishment.
pub const UNCIVIL_PUNISH_PAIRS: [(usize, usize); 1] = [(0, 3)];

/// The pairs of branches of the bullying punishments.
pub const BULLY_PUNISH_PAIRS: [(usize, usize); 6] = [
    (2, 5),
    (5, 8),
    (2, 8),
    (1, 10),
    (10, 7),
    (1, 7),
];

/// Name of the element with index `e`: wood, fire, earth, metal and water are 0 to 4, in the
/// order in which each produces the next. Empty for any other index.
pub open spec fn element_name(e: int) -> &'static str {
    if e == 0 {
        "Wood"
    } else if e == 1 {
        "Fire"
    } else if e == 2 {
        "Earth"
    } else if e == 3 {
        "Metal"
    } else if e == 4 {
        "Water"
    } else {
        ""
    }
}

/// Index of the element that a name names, if it names one.
pub open spec fn element_of_name(s: Seq<char>) -> Option<int> {
    if s == "Wood"@ {
        Some(0)
    } else if s == "Fire"@ {
        Some(1)
    } else if s == "Earth"@ {
        Some(2)
    } else if s == "Metal"@ {
        Some(3)
    } else if s == "Water"@ {
        Some(4)
    } else {
        None
    }
}

/// Element that an element produces.
pub open spec fn produced_by(e: int) -> int {
    (e + 1) % 5
}

/// Element that an element controls.
pub open spec fn controlled_by(e: int) -> int {
    (e + 2) % 5
}

/// Element index of a stem: two stems to each element, in order.
pub open spec fn stem_element_index(stem: int) -> int {
    stem / 2
}

/// Whether a stem is yang: the even ones are.
pub open spec fn stem_is_yang(stem: int) -> bool {
    stem % 2 == 0
}

/// Name of the polarity of a stem.
pub open spec fn polarity_name(yang: bool) -> &'static str {
    if yang {
        "Yang"
    } else {
        "Yin"
    }
}

/// Element index of a branch.
pub open spec fn branch_element_index(branch: int) -> int {
    if branch == 0 || branch == 11 {
        4
    } else if branch == 2 || branch == 3 {
        0
    } else if branch == 5 || branch == 6 {
        1
    } else if branch == 8 || branch == 9 {
        3
    } else {
        2
    }
}

/// Name of the element that the named element produces; empty if the name is no element's.
pub open spec fn produced_name(s: Seq<char>) -> &'static str {
    match element_of_name(s) {
        Some(e) => element_name(produced_by(e)),
        None => "",
    }
}

/// Name of the element that the named element controls; empty if the name is no element's.
pub open spec fn controlled_name(s: Seq<char>) -> &'static str {
    match element_of_name(s) {
        Some(e) => element_name(controlled_by(e)),
        None => "",
    }
}

/// Whether `(a, b)` occurs in a list of pairs, in either order.
pub open spec fn pair_listed(set: Seq<(usize, usize)>, a: int, b: int) -> bool {
    exists|k: int|
        0 <= k < set.len() && ((a == (#[trigger] set[k]).0 && b == set[k].1) || (a == set[k].1
            && b == set[k].0))
}

/// Element into which two stems transform when they combine: stems five apart combine.
pub open spec fn transformation_target(s1: int, s2: int) -> Option<int> {
    let lo = if s1 <= s2 {
        s1
    } else {
        s2
    };
    let hi = if s1 <= s2 {
        s2
    } else {
        s1
    };
    if 0 <= lo < 5 && hi == lo + 5 {
        Some((lo + 2) % 5)
    } else {
        None
    }
}

/// Whether a branch punishes itself.
pub open spec fn self_punishing(b: int) -> bool {
    b == 4 || b == 6 || b == 9 || b == 11
}

/// The five element names are distinct, and none is empty.
pub proof fn lemma_element_names(e: int)
    requires
        0 <= e < 5,
    ensures
        element_of_name(element_name(e)@) == Some(e),
        element_name(e)@.len() > 0,
        ""@.len() == 0,
        element_of_name(""@).is_none(),
{
    reveal_strlit("Wood");
    reveal_strlit("Fire");
    reveal_strlit("Earth");
    reveal_strlit("Metal");
    reveal_strlit("Water");
    reveal_strlit("");
    assert("Wood"@[0] == 'W');
    assert("Fire"@[0] == 'F');
    assert("Earth"@[0] == 'E');
    assert("Metal"@[0] == 'M');
    assert("Water"@[1] == 'a');
    assert("Wood"@[1] == 'o');
}

/// The tables of production and control list, for each element in order, what it produces
/// and what it controls.
pub proof fn lemma_element_rounds(e: int)
    requires
        0 <= e < 5,
    ensures
        GEN_MAP[e] == (element_name(e), element_name(produced_by(e))),
        CONTROL_MAP[e] == (element_name(e), element_name(controlled_by(e))),
{
}

/// The index of the element that a name names.
pub fn element_index(name: &str) -> (r: Option<usize>)
    ensures
        match r {
            Some(e) => element_of_name(name@) == Some(e as int) && e < 5,
            None => element_of_name(name@).is_none(),
        },
{
    if same_text(name, "Wood") {
        Some(0)
    } else if same_text(name, "Fire") {
        Some(1)
    } else if same_text(name, "Earth") {
        Some(2)
    } else if same_text(name, "Metal") {
        Some(3)
    } else if same_text(name, "Water") {
        Some(4)
    } else {
        None
    }
}

/// Name of the element that the named element produces; empty if the name is no element's.
pub fn gen_of(element: &str) -> (name: &'static str)
    ensures
        name == produced_name(element@),
{
    match element_index(element) {
        Some(0) => "Fire",
        Some(1) => "Earth",
        Some(2) => "Metal",
        Some(3) => "Water",
        Some(4) => "Wood",
        _ => "",
    }
}

/// Name of the element that the named element controls; empty if the name is no element's.
pub fn control_of(element: &str) -> (name: &'static str)
    ensures
        name == controlled_name(element@),
{
    match element_index(element) {
        Some(0) => "Earth",
        Some(1) => "Metal",
        Some(2) => "Water",
        Some(3) => "Wood",
        Some(4) => "Fire",
        _ => "",
    }
}

/// Whether `(a, b)` occurs in a list of pairs, in either order.
pub fn pair_in_set(a: usize, b: usize, set: &[(usize, usize)]) -> (found: bool)
    ensures
        found == pair_listed(set@, a as int, b as int),
{
    let mut k: usize = 0;
    while k < set.len()
        invariant
            k <= set.len(),
            forall|i: int|
                0 <= i < k ==> !((a == (#[trigger] set@[i]).0 && b == set@[i].1) || (a
                    == set@[i].1 && b == set@[i].0)),
        decreases set.len() - k,
    {
        let (x, y) = set[k];
        if (a == x && b == y) || (a == y && b == x) {
            return true;
        }
        k += 1;
    }
    false
}

/// Position of a label among the heavenly stems.
pub fn stem_idx_of(stem: &str) -> (r: Option<usize>)
    ensures
        match r {
            Some(i) => stem_of_label(stem@) == Some(i as int) && i < 10,
            None => stem_of_label(stem@).is_none(),
        },
{
    stem_index(stem)
}

/// Name of the element into which two stems transform when they combine.
pub fn stem_transformation_target(s1: usize, s2: usize) -> (target: Option<&'static str>)
    ensures
        match transformation_target(s1 as int, s2 as int) {
            Some(e) => target == Some(element_name(e)),
            None => target.is_none(),
        },
{
    let mut k: usize = 0;
    while k < 5
        invariant
            k <= 5,
            forall|i: int|
                0 <= i < k ==> !((s1 == (#[trigger] STEM_TRANSFORMATIONS[i]).0 && s2
                    == STEM_TRANSFORMATIONS[i].1) || (s1 == STEM_TRANSFORMATIONS[i].1 && s2
                    == STEM_TRANSFORMATIONS[i].0)),
        decreases 5 - k,
    {
        let (a, b, elem) = STEM_TRANSFORMATIONS[k];
        if (s1 == a && s2 == b) || (s1 == b && s2 == a) {
            return Some(elem);
        }
        k += 1;
    }
    assert(!(s1 == STEM_TRANSFORMATIONS[0].0 && s2 == STEM_TRANSFORMATIONS[0].1));
    assert(!(s1 == STEM_TRANSFORMATIONS[1].0 && s2 == STEM_TRANSFORMATIONS[1].1));
    assert(!(s1 == STEM_TRANSFORMATIONS[2].0 && s2 == STEM_TRANSFORMATIONS[2].1));
    assert(!(s1 == STEM_TRANSFORMATIONS[3].0 && s2 == STEM_TRANSFORMATIONS[3].1));
    assert(!(s1 == STEM_TRANSFORMATIONS[4].0 && s2 == STEM_TRANSFORMATIONS[4].1));
    assert(!(s1 == STEM_TRANSFORMATIONS[0].1 && s2 == STEM_TRANSFORMATIONS[0].0));
    assert(!(s1 == STEM_TRANSFORMATIONS[1].1 && s2 == STEM_TRANSFORMATIONS[1].0));
    assert(!(s1 == STEM_TRANSFORMATIONS[2].1 && s2 == STEM_TRANSFORMATIONS[2].0));
    assert(!(s1 == STEM_TRANSFORMATIONS[3].1 && s2 == STEM_TRANSFORMATIONS[3].0));
    assert(!(s1 == STEM_TRANSFORMATIONS[4].1 && s2 == STEM_TRANSFORMATIONS[4].0));
    None
}

/// Whether a branch punishes itself.
pub fn is_self_punish_branch(b: usize) -> (r: bool)
    ensures
        r == self_punishing(b as int),
{
    let mut k: usize = 0;
    while k < 4
        invariant
            k <= 4,
            forall|i: int| 0 <= i < k ==> #[trigger] SELF_PUNISH_BRANCHES[i] != b,
        decreases 4 - k,
    {
        if SELF_PUNISH_BRANCHES[k] == b {
            return true;
        }
        k += 1;
    }
    assert(SELF_PUNISH_BRANCHES[0] != b);
    assert(SELF_PUNISH_BRANCHES[1] != b);
    assert(SELF_PUNISH_BRANCHES[2] != b);
    assert(SELF_PUNISH_BRANCHES[3] != b);
    false
}

/// Name of the element of the stem that a label names; empty if it names none.
pub fn stem_element(stem: &str) -> (name: &'static str)
    ensures
        name == match stem_of_label(stem@) {
            Some(i) => element_name(stem_element_index(i)),
            None => "",
        },
{
    match stem_idx_of(stem) {
        Some(i) => STEM_ELEMENT[i],
        None => "",
    }
}

/// Name of the polarity of the stem that a label names; empty if it names none.
pub fn stem_polarity(stem: &str) -> (name: &'static str)
    ensures
        name == match stem_of_label(stem@) {
            Some(i) => polarity_name(stem_is_yang(i)),
            None => "",
        },
{
    match stem_idx_of(stem) {
        Some(i) => STEM_POLARITY[i],
        None => "",
    }
}

/// Name of the element of the branch that a label names; empty if it names none.
pub fn branch_element(branch: &str) -> (name: &'static str)
    ensures
        name == match branch_of_label(branch@) {
            Some(i) => element_name(branch_element_index(i)),
            None => "",
        },
{
    match branch_index(branch) {
        Some(i) => BRANCH_ELEMENT[i],
        None => "",
    }
}

/// Stem and branch labels of a position `1..=60` in the cycle.
pub fn ganzhi_from_cycle(cycle: usize) -> (pair: (&'static str, &'static str))
    requires
        1 <= cycle <= 60,
    ensures
        pair.0@ == stem_label(cycle_stem(cycle as int)),
        pair.1@ == branch_label(cycle_branch(cycle as int)),
{
    (stem_name((cycle - 1) % 10), branch_name((cycle - 1) % 12))
}

/// Names of the twelve stages of life, from birth on.
pub const LONGEVITY_STAGES: [&'static str; 12] = [
    "长生",
    "沐浴",
    "冠带",
    "临官",
    "帝旺",
    "衰",
    "病",
    "死",
    "墓",
    "绝",
    "胎",
    "养",
];

/// English names of the twelve stages of life.
pub const LONGEVITY_STAGES_EN: [&'static str; 12] = [
    "Growth",
    "Bath",
    "Crown Belt",
    "Coming of Age",
    "Prosperity Peak",
    "Decline",
    "Sickness",
    "Death",
    "Grave",
    "Termination",
    "Conception",
    "Nurture",
];

/// Vietnamese names of the twelve stages of life.
pub const LONGEVITY_STAGES_VI: [&'static str; 12] = [
    "Trường Sinh",
    "Mộc Dục",
    "Quan Đới",
    "Lâm Quan",
    "Đế Vượng",
    "Suy",
    "Bệnh",
    "Tử",
    "Mộ",
    "Tuyệt",
    "Thai",
    "Dưỡng",
];

/// The sound element of each position of the cycle: element, Chinese, Vietnamese and English
/// name. Two neighbouring positions share one.
pub const NAYIN_DATA: [(&'static str, &'static str, &'static str, &'static str); 60] = [
    ("Metal", "海中金", "Hải Trung Kim", "Sea Metal"),
    ("Metal", "海中金", "Hải Trung Kim", "Sea Metal"),
    ("Fire", "爐中火", "Lư Trung Hỏa", "Furnace Fire"),
    ("Fire", "爐中火", "Lư Trung Hỏa", "Furnace Fire"),
    ("Wood", "大林木", "Đại Lâm Mộc", "Great Forest Wood"),
    ("Wood", "大林木", "Đại Lâm Mộc", "Great Forest Wood"),
    ("Earth", "路旁土", "Lộ Bàng Thổ", "Roadside Earth"),
    ("Earth", "路旁土", "Lộ Bàng Thổ", "Roadside Earth"),
    ("Metal", "劍鋒金", "Kiếm Phong Kim", "Sword-Point Metal"),
    ("Metal", "劍鋒金", "Kiếm Phong Kim", "Sword-Point Metal"),
    ("Fire", "山头火", "Sơn Đầu Hỏa", "Mountain-Top Fire"),
    ("Fire", "山头火", "Sơn Đầu Hỏa", "Mountain-Top Fire"),
    ("Water", "澗下水", "Giản Hạ Thuỷ", "Ravine Water"),
    ("Water", "澗下水", "Giản Hạ Thuỷ", "Ravine Water"),
    ("Earth", "城头土", "Thành Đầu Thổ", "City Wall Earth"),
    ("Earth", "城头土", "Thành Đầu Thổ", "City Wall Earth"),
    ("Metal", "白蜡金", "Bạch Lạp Kim", "White Wax Metal"),
    ("Metal", "白蜡金", "Bạch Lạp Kim", "White Wax Metal"),
    ("Wood", "杨柳木", "Dương Liễu Mộc", "Willow Wood"),
    ("Wood", "杨柳木", "Dương Liễu Mộc", "Willow Wood"),
    ("Water", "井泉水", "Tỉnh Tuyền Thủy", "Well Spring Water"),
    ("Water", "井泉水", "Tỉnh Tuyền Thủy", "Well Spring Water"),
    ("Earth", "屋上土", "Ốc Thượng Thổ", "Rooftop Earth"),
    ("Earth", "屋上土", "Ốc Thượng Thổ", "Rooftop Earth"),
    ("Fire", "霹雳火", "Tích Lịch Hỏa", "Thunderbolt Fire"),
    ("Fire", "霹雳火", "Tích Lịch Hỏa", "Thunderbolt Fire"),
    ("Wood", "松柏木", "Tùng Bách Mộc", "Pine & Cypress Wood"),
    ("Wood", "松柏木", "Tùng Bách Mộc", "Pine & Cypress Wood"),
    ("Water", "长流水", "Trường Lưu Thủy", "Long Flowing Water"),
    ("Water", "长流水", "Trường Lưu Thủy", "Long Flowing Water"),
    ("Metal", "砂中金", "Sa Thạch Kim", "Sand-Middle Metal"),
    ("Metal", "砂中金", "Sa Thạch Kim", "Sand-Middle Metal"),
    ("Fire", "山下火", "Sơn Hạ Hỏa", "Mountain-Base Fire"),
    ("Fire", "山下火", "Sơn Hạ Hỏa", "Mountain-Base Fire"),
    ("Wood", "平地木", "Bình Địa Mộc", "Flat Land Wood"),
    ("Wood", "平地木", "Bình Địa Mộc", "Flat Land Wood"),
    ("Earth", "壁上土", "Bích Thượng Thổ", "Wall Earth"),
    ("Earth", "壁上土", "Bích Thượng Thổ", "Wall Earth"),
    ("Metal", "金箔金", "Kim Bạc Kim", "Gold Foil Metal"),
    ("Metal", "金箔金", "Kim Bạc Kim", "Gold Foil Metal"),
    ("Fire", "覆灯火", "Phúc Đăng Hỏa", "Covered Lamp Fire"),
    ("Fire", "覆灯火", "Phúc Đăng Hỏa", "Covered Lamp Fire"),
    ("Water", "天河水", "Thiên Hà Thủy", "Sky River Water"),
    ("Water", "天河水", "Thiên Hà Thủy", "Sky River Water"),
    ("Earth", "大驿土", "Đại Dịch Thổ", "Great Post Earth"),
    ("Earth", "大驿土", "Đại Dịch Thổ", "Great Post Earth"),
    ("Metal", "钗钏金", "Thoa Xuyến Kim", "Hairpin Metal"),
    ("Metal", "钗钏金", "Thoa Xuyến Kim", "Hairpin Metal"),
    ("Wood", "桑柘木", "Tang Chá Mộc", "Mulberry Wood"),
    ("Wood", "桑柘木", "Tang Chá Mộc", "Mulberry Wood"),
    ("Water", "大溪水", "Đại Khê Thủy", "Great Stream Water"),
    ("Water", "大溪水", "Đại Khê Thủy", "Great Stream Water"),
    ("Earth", "沙中土", "Sa Trung Thổ", "Sand Earth"),
    ("Earth", "沙中土", "Sa Trung Thổ", "Sand Earth"),
    ("Fire", "天上火", "Thiên Thượng Hỏa", "Heavenly Fire"),
    ("Fire", "天上火", "Thiên Thượng Hỏa", "Heavenly Fire"),
    ("Wood", "石榴木", "Thạch Lựu Mộc", "Pomegranate Wood"),
    ("Wood", "石榴木", "Thạch Lựu Mộc", "Pomegranate Wood"),
    ("Water", "大海水", "Đại Hải Thủy", "Great Ocean Water"),
    ("Water", "大海水", "Đại Hải Thủy", "Great Ocean Water"),
];

/// The sound element of a position of the cycle.
#[derive(Debug, Clone, Copy)]
pub struct NaYinEntry {
    pub element: &'static str,
    pub chinese: &'static str,
    pub vietnamese: &'static str,
    pub english: &'static str,
}

/// A stage of life of a stem at a branch, by number and names, and whether it counts as strong.
#[derive(Debug, Clone, Copy)]
pub struct LifeStageDetail {
    pub index: usize,
    pub chinese: &'static str,
    pub english: &'static str,
    pub vietnamese: &'static str,
    pub strength_class: &'static str,
}

/// Branch at which the first stage of life of a stem stands.
pub open spec fn longevity_start(stem: int) -> int {
    LONGEVITY_START[stem] as int
}

/// Number `1..=12` of the stage of life of a stem at a branch: yang stems walk the branches
/// forward from their start, yin stems backward.
pub open spec fn stage_index(stem: int, branch: int) -> int {
    if stem_is_yang(stem) {
        (branch - longevity_start(stem)) % 12 + 1
    } else {
        (longevity_start(stem) - branch) % 12 + 1
    }
}

/// Strength class of a stage: the first five are strong.
pub open spec fn strength_class_name(stage: int) -> &'static str {
    if stage <= 5 {
        "strong"
    } else {
        "weak"
    }
}

/// The stage of life of a stem at a branch, with its names.
pub open spec fn life_stage_of(stem: int, branch: int) -> LifeStageDetail {
    let idx = stage_index(stem, branch);
    LifeStageDetail {
        index: idx as usize,
        chinese: LONGEVITY_STAGES[idx - 1],
        english: LONGEVITY_STAGES_EN[idx - 1],
        vietnamese: LONGEVITY_STAGES_VI[idx - 1],
        strength_class: strength_class_name(idx),
    }
}

/// Name of the relation in which the element named `other` stands to the element named `dm`:
/// the same; producing it; produced by it; controlled by it; controlling it. Empty where
/// none holds.
pub open spec fn relation_name(dm: Seq<char>, other: Seq<char>) -> &'static str {
    if other == dm {
        "same"
    } else if produced_name(other)@ == dm {
        "sheng"
    } else if produced_name(dm)@ == other {
        "wo_sheng"
    } else if controlled_name(dm)@ == other {
        "wo_ke"
    } else if controlled_name(other)@ == dm {
        "ke"
    } else {
        ""
    }
}

/// Name of the relation of an element that lies `distance` steps ahead of another on the
/// round of production.
pub open spec fn relation_of_distance(distance: int) -> &'static str {
    if distance == 0 {
        "same"
    } else if distance == 4 {
        "sheng"
    } else if distance == 1 {
        "wo_sheng"
    } else if distance == 2 {
        "wo_ke"
    } else if distance == 3 {
        "ke"
    } else {
        ""
    }
}

/// Steps from the element of one stem to that of another on the round of production.
pub open spec fn element_distance(dm_stem: int, target_stem: int) -> int {
    (stem_element_index(target_stem) - stem_element_index(dm_stem)) % 5
}

/// Name of the god that a stem is to a day master, by the steps between their elements and
/// by whether their polarities agree.
pub open spec fn ten_god_name(distance: int, same_polarity: bool) -> &'static str {
    if distance == 0 {
        if same_polarity {
            "比肩"
        } else {
            "劫财"
        }
    } else if distance == 4 {
        if same_polarity {
            "偏印"
        } else {
            "正印"
        }
    } else if distance == 1 {
        if same_polarity {
            "食神"
        } else {
            "伤官"
        }
    } else if distance == 2 {
        if same_polarity {
            "偏财"
        } else {
            "正财"
        }
    } else if distance == 3 {
        if same_polarity {
            "七杀"
        } else {
            "正官"
        }
    } else {
        ""
    }
}

/// The sound element at a position `1..=60` of the cycle.
pub open spec fn nayin_entry(cycle: int) -> NaYinEntry {
    NaYinEntry {
        element: NAYIN_DATA[cycle - 1].0,
        chinese: NAYIN_DATA[cycle - 1].1,
        vietnamese: NAYIN_DATA[cycle - 1].2,
        english: NAYIN_DATA[cycle - 1].3,
    }
}

/// Between two elements, the relation is given by the steps from one to the other on the
/// round of production.
pub proof fn lemma_relation_of_elements(dm: int, other: int)
    requires
        0 <= dm < 5,
        0 <= other < 5,
    ensures
        relation_name(element_name(dm)@, element_name(other)@) == relation_of_distance(
            (other - dm) % 5,
        ),
{
    lemma_element_names(dm);
    lemma_element_names(other);
    lemma_element_names(produced_by(dm));
    lemma_element_names(produced_by(other));
    lemma_element_names(controlled_by(dm));
    lemma_element_names(controlled_by(other));
}

/// The names of the relations are distinct.
pub proof fn lemma_relation_names_distinct()
    ensures
        "same"@ != "sheng"@,
        "same"@ != "wo_sheng"@,
        "same"@ != "wo_ke"@,
        "same"@ != "ke"@,
        "same"@ != ""@,
        "sheng"@ != "wo_sheng"@,
        "sheng"@ != "wo_ke"@,
        "sheng"@ != "ke"@,
        "sheng"@ != ""@,
        "wo_sheng"@ != "wo_ke"@,
        "wo_sheng"@ != "ke"@,
        "wo_sheng"@ != ""@,
        "wo_ke"@ != "ke"@,
        "wo_ke"@ != ""@,
        "ke"@ != ""@,
        "Yang"@ != "Yin"@,
{
    reveal_strlit("same");
    reveal_strlit("sheng");
    reveal_strlit("wo_sheng");
    reveal_strlit("wo_ke");
    reveal_strlit("ke");
    reveal_strlit("");
    reveal_strlit("Yang");
    reveal_strlit("Yin");
    assert("same"@.len() == 4);
    assert("sheng"@.len() == 5);
    assert("wo_sheng"@.len() == 8);
    assert("wo_ke"@.len() == 5);
    assert("ke"@.len() == 2);
    assert(""@.len() == 0);
    assert("sheng"@[0] == 's');
    assert("wo_ke"@[0] == 'w');
    assert("Yang"@.len() == 4);
    assert("Yin"@.len() == 3);
}

/// Number and name of the stage of life of a stem at a branch.
#[verifier::rlimit(30)]
pub fn changsheng_stage(stem_idx: usize, branch_idx: usize) -> (stage: (usize, &'static str))
    requires
        stem_idx < 10,
    ensures
        stage.0 == stage_index(stem_idx as int, branch_idx as int),
        1 <= stage.0 <= 12,
        stage.1 == LONGEVITY_STAGES[stage.0 - 1],
{
    let start: usize = LONGEVITY_START[stem_idx];
    assert(start < 12);
    proof {
        lemma_relation_names_distinct();
    }
    let offset: usize = if same_text(STEM_POLARITY[stem_idx], "Yang") {
        (branch_idx % 12 + 12 - start) % 12
    } else {
        (start + 12 - branch_idx % 12) % 12
    };
    let idx: usize = offset + 1;
    (idx, LONGEVITY_STAGES[idx - 1])
}

/// The stage of life of a stem at a branch, with its names and its strength class.
pub fn life_stage_detail(stem_idx: usize, branch_idx: usize) -> (detail: LifeStageDetail)
    requires
        stem_idx < 10,
    ensures
        detail == life_stage_of(stem_idx as int, branch_idx as int),
        1 <= detail.index <= 12,
{
    let (idx, cn) = changsheng_stage(stem_idx, branch_idx);
    LifeStageDetail {
        index: idx,
        chinese: cn,
        english: LONGEVITY_STAGES_EN[idx - 1],
        vietnamese: LONGEVITY_STAGES_VI[idx - 1],
        strength_class: if idx <= 5 {
            "strong"
        } else {
            "weak"
        },
    }
}

/// Name of the relation in which the element named `other_elem` stands to the element
/// named `dm_elem`.
pub fn element_relation(dm_elem: &str, other_elem: &str) -> (name: &'static str)
    ensures
        name == relation_name(dm_elem@, other_elem@),
{
    if same_text(other_elem, dm_elem) {
        return "same";
    }
    if same_text(gen_of(other_elem), dm_elem) {
        return "sheng";
    }
    if same_text(gen_of(dm_elem), other_elem) {
        return "wo_sheng";
    }
    if same_text(control_of(dm_elem), other_elem) {
        return "wo_ke";
    }
    if same_text(control_of(other_elem), dm_elem) {
        return "ke";
    }
    ""
}

/// Name of the god that the stem at `target_stem_idx` is to the day master at `dm_stem_idx`.
pub fn ten_god(dm_stem_idx: usize, target_stem_idx: usize) -> (name: &'static str)
    requires
        dm_stem_idx < 10,
        target_stem_idx < 10,
    ensures
        name == ten_god_name(
            element_distance(dm_stem_idx as int, target_stem_idx as int),
            stem_is_yang(dm_stem_idx as int) == stem_is_yang(target_stem_idx as int),
        ),
{
    let dm_elem = STEM_ELEMENT[dm_stem_idx];
    let t_elem = STEM_ELEMENT[target_stem_idx];
    assert(dm_elem == element_name(stem_element_index(dm_stem_idx as int)));
    assert(t_elem == element_name(stem_element_index(target_stem_idx as int)));
    let rel = element_relation(dm_elem, t_elem);
    let same_pol: bool = same_text(STEM_POLARITY[dm_stem_idx], STEM_POLARITY[target_stem_idx]);
    proof {
        lemma_relation_of_elements(
            stem_element_index(dm_stem_idx as int),
            stem_element_index(target_stem_idx as int),
        );
        lemma_relation_names_distinct();
        assert(STEM_POLARITY[dm_stem_idx as int] == polarity_name(stem_is_yang(dm_stem_idx as int)));
        assert(STEM_POLARITY[target_stem_idx as int] == polarity_name(
            stem_is_yang(target_stem_idx as int),
        ));
    }
    if same_text(rel, "same") {
        if same_pol {
            "比肩"
        } else {
            "劫财"
        }
    } else if same_text(rel, "sheng") {
        if same_pol {
            "偏印"
        } else {
            "正印"
        }
    } else if same_text(rel, "wo_sheng") {
        if same_pol {
            "食神"
        } else {
            "伤官"
        }
    } else if same_text(rel, "wo_ke") {
        if same_pol {
            "偏财"
        } else {
            "正财"
        }
    } else if same_text(rel, "ke") {
        if same_pol {
            "七杀"
        } else {
            "正官"
        }
    } else {
        ""
    }
}

/// The sound element at a position of the cycle; none outside `1..=60`.
pub fn nayin_for_cycle(cycle: usize) -> (entry: Option<NaYinEntry>)
    ensures
        1 <= cycle <= 60 ==> entry == Some(nayin_entry(cycle as int)),
        !(1 <= cycle <= 60) ==> entry.is_none(),
{
    if 1 <= cycle && cycle <= 60 {
        let (element, chinese, vietnamese, english) = NAYIN_DATA[cycle - 1];
        Some(NaYinEntry { element, chinese, vietnamese, english })
    } else {
        None
    }
}

/// The four pillars of a chart: year, month, day and hour, each a stem index and a branch index.
pub type FourPillars = [(usize, usize); 4];

/// The stems hidden in each branch, main stem first; an empty label where a branch hides fewer
/// than three.
pub const BRANCH_HIDDEN_STEMS: [(&'static str, &'static str, &'static str); 12] = [
    ("癸", "", ""),
    ("己", "癸", "辛"),
    ("甲", "丙", "戊"),
    ("乙", "", ""),
    ("戊", "乙", "癸"),
    ("丙", "戊", "庚"),
    ("丁", "己", ""),
    ("己", "丁", "乙"),
    ("庚", "壬", "戊"),
    ("辛", "", ""),
    ("戊", "辛", "丁"),
    ("壬", "甲", ""),
];

/// Two stems of a chart that combine.
#[derive(Debug, Clone, Copy)]
pub struct StemCombination {
    pub pair: (usize, usize),
    pub stems: (usize, usize),
    pub target_element: &'static str,
}

/// Two stems of a chart that combine, with the conditions under which they transform.
#[derive(Debug, Clone, Copy)]
pub struct Transformation {
    pub pair: (usize, usize),
    pub stems: (usize, usize),
    pub target_element: &'static str,
    pub month_support: bool,
    pub leading_present: bool,
    pub blocked: bool,
    pub severely_clashed: bool,
    pub proximity_score: u32,
    pub status: &'static str,
    pub confidence: u32,
}

/// A pillar of a chart that a passing pillar repeats.
#[derive(Debug, Clone, Copy)]
pub struct PhucNgamEvent {
    pub match_type: &'static str,
    pub natal_pillar: usize,
    pub dynamic_stem_idx: usize,
    pub dynamic_branch_idx: usize,
    pub confidence: u32,
}

/// Whether the four pillars hold stem indices below 10 and branch indices below 12.
pub open spec fn pillars_valid(pillars: Seq<(usize, usize)>) -> bool {
    &&& pillars.len() == 4
    &&& forall|i: int| 0 <= i < 4 ==> (#[trigger] pillars[i]).0 < 10 && pillars[i].1 < 12
}

/// The `k`-th pair of pillars, in the order (0,1), (0,2), (0,3), (1,2), (1,3), (2,3).
pub open spec fn pair_at(k: int) -> (int, int) {
    if k == 0 {
        (0, 1)
    } else if k == 1 {
        (0, 2)
    } else if k == 2 {
        (0, 3)
    } else if k == 3 {
        (1, 2)
    } else if k == 4 {
        (1, 3)
    } else {
        (2, 3)
    }
}

/// Number of pairs of pillars that come before the pair `(i, j)`.
pub open spec fn pair_rank(i: int, j: int) -> int {
    (if i == 0 {
        0int
    } else if i == 1 {
        3int
    } else if i == 2 {
        5int
    } else {
        6int
    }) + (j - i - 1)
}

/// The combinations among the first `upto` pairs of pillars.
pub open spec fn stem_combinations(pillars: Seq<(usize, usize)>, upto: int) -> Seq<StemCombination>
    decreases upto,
{
    if upto <= 0 {
        Seq::empty()
    } else {
        let before = stem_combinations(pillars, upto - 1);
        let (i, j) = pair_at(upto - 1);
        match transformation_target(pillars[i].0 as int, pillars[j].0 as int) {
            Some(e) => before.push(
                StemCombination {
                    pair: (i as usize, j as usize),
                    stems: (pillars[i].0, pillars[j].0),
                    target_element: element_name(e),
                },
            ),
            None => before,
        }
    }
}

/// Element index of the stem of a pillar.
pub open spec fn pillar_element(pillars: Seq<(usize, usize)>, i: int) -> int {
    stem_element_index(pillars[i].0 as int)
}

/// Whether a pillar between two pillars that are not neighbours holds a stem whose element
/// controls the element of either.
pub open spec fn obstructed(pillars: Seq<(usize, usize)>, pa: int, pb: int) -> bool {
    let lo = if pa <= pb {
        pa
    } else {
        pb
    };
    let hi = if pa <= pb {
        pb
    } else {
        pa
    };
    exists|mid: int|
        lo < mid < hi && (#[trigger] controlled_by(pillar_element(pillars, mid)) == pillar_element(
            pillars,
            pa,
        ) || controlled_by(pillar_element(pillars, mid)) == pillar_element(pillars, pb))
}

/// Whether the stem of pillar `i` clashes severely with a target element: its element controls
/// the target, and it is the month stem or differs in polarity from the day stem.
pub open spec fn clashes_at(pillars: Seq<(usize, usize)>, target: Seq<char>, i: int) -> bool {
    element_name(controlled_by(pillar_element(pillars, i)))@ == target && (i == 1 || stem_is_yang(
        pillars[i].0 as int,
    ) != stem_is_yang(pillars[2].0 as int))
}

/// Whether some stem of the chart clashes severely with a target element.
pub open spec fn severely_clashed(pillars: Seq<(usize, usize)>, target: Seq<char>) -> bool {
    exists|i: int| 0 <= i < 4 && #[trigger] clashes_at(pillars, target, i)
}

/// Label of the hidden stem in a slot `0..3` of a branch.
pub open spec fn hidden_label(branch: int, slot: int) -> &'static str {
    if slot == 0 {
        BRANCH_HIDDEN_STEMS[branch].0
    } else if slot == 1 {
        BRANCH_HIDDEN_STEMS[branch].1
    } else {
        BRANCH_HIDDEN_STEMS[branch].2
    }
}

/// Whether the stem hidden in a slot of a branch is of element `e`.
pub open spec fn hidden_stem_is(branch: int, slot: int, e: int) -> bool {
    match stem_of_label(hidden_label(branch, slot)@) {
        Some(s) => stem_element_index(s) == e,
        None => false,
    }
}

/// Whether a stem of element `e` is hidden in a branch.
pub open spec fn hides_element(branch: int, e: int) -> bool {
    hidden_stem_is(branch, 0, e) || hidden_stem_is(branch, 1, e) || hidden_stem_is(branch, 2, e)
}

/// Whether the element `e` shows in a stem of a pillar other than `i` and `j`.
pub open spec fn shown_by_other_stem(pillars: Seq<(usize, usize)>, i: int, j: int, e: int) -> bool {
    exists|k: int| 0 <= k < 4 && k != i && k != j && #[trigger] pillar_element(pillars, k) == e
}

/// Whether the element `e` is hidden in the branch of some pillar.
pub open spec fn hidden_in_chart(pillars: Seq<(usize, usize)>, e: int) -> bool {
    exists|k: int| 0 <= k < 4 && #[trigger] hides_element(pillars[k].1 as int, e)
}

/// Whether the element `e` leads a combination of the pillars `i` and `j`: it shows in another
/// stem, or is hidden in a branch of the chart.
pub open spec fn leading(pillars: Seq<(usize, usize)>, i: int, j: int, e: int) -> bool {
    shown_by_other_stem(pillars, i, j, e) || hidden_in_chart(pillars, e)
}

/// Whether a combination transforms, before any clash is counted: the pillars are neighbours,
/// the month supports the target, nothing stands between, and the target leads or is not
/// clashed.
pub open spec fn transforms(
    adjacent: bool,
    month_support: bool,
    leads: bool,
    blocked: bool,
    clashed: bool,
) -> bool {
    adjacent && month_support && (leads || !clashed) && !blocked
}

/// Status of a combination.
pub open spec fn transformation_status(
    adjacent: bool,
    month_support: bool,
    leads: bool,
    blocked: bool,
    clashed: bool,
) -> &'static str {
    if transforms(adjacent, month_support, leads, blocked, clashed) {
        if clashed {
            "Hóa (suppressed by clash)"
        } else {
            "Hóa (successful)"
        }
    } else if (month_support || leads) && !blocked {
        "Hợp (bound)"
    } else if blocked {
        "Blocked"
    } else {
        "Hợp (bound)"
    }
}

/// Confidence, in percent, in the status of a combination.
pub open spec fn transformation_confidence(
    adjacent: bool,
    month_support: bool,
    leads: bool,
    blocked: bool,
    clashed: bool,
) -> int {
    if transforms(adjacent, month_support, leads, blocked, clashed) {
        let full: int = if leads {
            95
        } else {
            85
        };
        if clashed {
            if full - 30 < 20 {
                20
            } else {
                full - 30
            }
        } else {
            full
        }
    } else if (month_support || leads) && !blocked {
        65
    } else if blocked {
        10
    } else {
        40
    }
}

/// The combination of the pillars `i` and `j` into the element `e`, in a chart whose month
/// branch is `month_branch`.
pub open spec fn transformation_of(
    pillars: Seq<(usize, usize)>,
    month_branch: int,
    i: int,
    j: int,
    e: int,
) -> Transformation {
    let adjacent = j == i + 1;
    let month_support = branch_element_index(month_branch) == e;
    let leads = leading(pillars, i, j, e);
    let blocked = obstructed(pillars, i, j);
    let clashed = severely_clashed(pillars, element_name(e)@);
    Transformation {
        pair: (i as usize, j as usize),
        stems: (pillars[i].0, pillars[j].0),
        target_element: element_name(e),
        month_support,
        leading_present: leads,
        blocked,
        severely_clashed: clashed,
        proximity_score: if adjacent {
            2
        } else {
            1
        },
        status: transformation_status(adjacent, month_support, leads, blocked, clashed),
        confidence: transformation_confidence(adjacent, month_support, leads, blocked, clashed) as u32,
    }
}

/// The combinations among the first `upto` pairs of pillars, each with its conditions.
pub open spec fn transformations(pillars: Seq<(usize, usize)>, month_branch: int, upto: int) -> Seq<
    Transformation,
>
    decreases upto,
{
    if upto <= 0 {
        Seq::empty()
    } else {
        let before = transformations(pillars, month_branch, upto - 1);
        let (i, j) = pair_at(upto - 1);
        match transformation_target(pillars[i].0 as int, pillars[j].0 as int) {
            Some(e) => before.push(transformation_of(pillars, month_branch, i, j, e)),
            None => before,
        }
    }
}

/// What the pillar `i` of a chart is to a passing pillar: a full repeat, a repeat of the
/// branch alone, or nothing.
pub open spec fn phuc_ngam_at(pillars: Seq<(usize, usize)>, stem: usize, branch: usize, i: int)
    -> Option<PhucNgamEvent> {
    if pillars[i].0 == stem && pillars[i].1 == branch {
        Some(
            PhucNgamEvent {
                match_type: "exact",
                natal_pillar: i as usize,
                dynamic_stem_idx: stem,
                dynamic_branch_idx: branch,
                confidence: if i == 1 {
                    95
                } else {
                    90
                },
            },
        )
    } else if pillars[i].1 == branch {
        Some(
            PhucNgamEvent {
                match_type: "branch",
                natal_pillar: i as usize,
                dynamic_stem_idx: stem,
                dynamic_branch_idx: branch,
                confidence: if i == 1 {
                    70
                } else {
                    60
                },
            },
        )
    } else {
        None
    }
}

/// The repeats of a passing pillar among the first `upto` pillars of a chart.
pub open spec fn phuc_ngam_events(
    pillars: Seq<(usize, usize)>,
    stem: usize,
    branch: usize,
    upto: int,
) -> Seq<PhucNgamEvent>
    decreases upto,
{
    if upto <= 0 {
        Seq::empty()
    } else {
        let before = phuc_ngam_events(pillars, stem, branch, upto - 1);
        match phuc_ngam_at(pillars, stem, branch, upto - 1) {
            Some(event) => before.push(event),
            None => before,
        }
    }
}

/// Whether a pillar between two pillars holds a stem whose element controls the element
/// of either.
pub fn check_obstruction(pillars: &FourPillars, pa: usize, pb: usize) -> (blocked: bool)
    requires
        pillars_valid(pillars@),
        pa < 4,
        pb < 4,
    ensures
        blocked == obstructed(pillars@, pa as int, pb as int),
{
    let lo: usize = if pa <= pb {
        pa
    } else {
        pb
    };
    let hi: usize = if pa <= pb {
        pb
    } else {
        pa
    };
    if hi - lo <= 1 {
        return false;
    }
    let e1 = STEM_ELEMENT[pillars[pa].0];
    let e2 = STEM_ELEMENT[pillars[pb].0];
    let mut mid: usize = lo + 1;
    while mid < hi
        invariant
            lo < mid <= hi < 4,
            pillars_valid(pillars@),
            pa < 4,
            pb < 4,
            lo == if pa <= pb { pa } else { pb },
            hi == if pa <= pb { pb } else { pa },
            e1 == element_name(pillar_element(pillars@, pa as int)),
            e2 == element_name(pillar_element(pillars@, pb as int)),
            forall|m: int|
                lo < m < mid ==> !(#[trigger] controlled_by(pillar_element(pillars@, m))
                    == pillar_element(pillars@, pa as int) || controlled_by(
                    pillar_element(pillars@, m),
                ) == pillar_element(pillars@, pb as int)),
        decreases hi - mid,
    {
        let ctrl = control_of(STEM_ELEMENT[pillars[mid].0]);
        proof {
            let em = pillar_element(pillars@, mid as int);
            lemma_element_names(em);
            lemma_element_names(controlled_by(em));
            lemma_element_names(pillar_element(pillars@, pa as int));
            lemma_element_names(pillar_element(pillars@, pb as int));
            assert(ctrl == element_name(controlled_by(em)));
        }
        if !same_text(ctrl, "") && (same_text(ctrl, e1) || same_text(ctrl, e2)) {
            return true;
        }
        mid += 1;
    }
    false
}

/// Whether some stem of the chart clashes severely with the element named `target_element`.
pub fn check_severe_clash(pillars: &FourPillars, target_element: &str) -> (clashed: bool)
    requires
        pillars_valid(pillars@),
    ensures
        clashed == severely_clashed(pillars@, target_element@),
{
    let dm_pol = STEM_POLARITY[pillars[2].0];
    let mut i: usize = 0;
    while i < 4
        invariant
            i <= 4,
            pillars_valid(pillars@),
            dm_pol == polarity_name(stem_is_yang(pillars@[2].0 as int)),
            forall|k: int| 0 <= k < i ==> !#[trigger] clashes_at(pillars@, target_element@, k),
        decreases 4 - i,
    {
        let s_idx: usize = pillars[i].0;
        let ctrl = control_of(STEM_ELEMENT[s_idx]);
        proof {
            let e = pillar_element(pillars@, i as int);
            lemma_element_names(e);
            assert(ctrl == element_name(controlled_by(e)));
            lemma_relation_names_distinct();
            assert(STEM_POLARITY[s_idx as int] == polarity_name(stem_is_yang(s_idx as int)));
        }
        if same_text(ctrl, target_element) && (i == 1 || !same_text(STEM_POLARITY[s_idx], dm_pol)) {
            assert(clashes_at(pillars@, target_element@, i as int));
            return true;
        }
        i += 1;
    }
    false
}

/// The pairs of stems of a chart that combine, with the element into which each transforms.
pub fn detect_stem_combinations(pillars: &FourPillars) -> (results: Vec<StemCombination>)
    ensures
        results@ == stem_combinations(pillars@, 6),
{
    let mut results: Vec<StemCombination> = Vec::new();
    let mut i: usize = 0;
    while i < 4
        invariant
            i <= 4,
            results@ == stem_combinations(pillars@, pair_rank(i as int, i + 1)),
        decreases 4 - i,
    {
        let mut j: usize = i + 1;
        while j < 4
            invariant
                i < 4,
                i < j <= 4,
                results@ == stem_combinations(pillars@, pair_rank(i as int, j as int)),
            decreases 4 - j,
        {
            let s1: usize = pillars[i].0;
            let s2: usize = pillars[j].0;
            proof {
                assert(pair_at(pair_rank(i as int, j as int)) == (i as int, j as int));
                assert(pair_rank(i as int, j + 1) == pair_rank(i as int, j as int) + 1);
            }
            match stem_transformation_target(s1, s2) {
                Some(target) => {
                    results.push(StemCombination { pair: (i, j), stems: (s1, s2), target_element: target });
                },
                None => {},
            }
            j += 1;
        }
        i += 1;
    }
    results
}

/// The repeats of a passing pillar among the pillars of a chart.
pub fn detect_phuc_ngam(pillars: &FourPillars, dynamic_stem_idx: usize, dynamic_branch_idx: usize)
    -> (results: Vec<PhucNgamEvent>)
    ensures
        results@ == phuc_ngam_events(pillars@, dynamic_stem_idx, dynamic_branch_idx, 4),
{
    let mut results: Vec<PhucNgamEvent> = Vec::new();
    let mut i: usize = 0;
    while i < 4
        invariant
            i <= 4,
            results@ == phuc_ngam_events(
                pillars@,
                dynamic_stem_idx,
                dynamic_branch_idx,
                i as int,
            ),
        decreases 4 - i,
    {
        let (s, b) = pillars[i];
        if s == dynamic_stem_idx && b == dynamic_branch_idx {
            results.push(
                PhucNgamEvent {
                    match_type: "exact",
                    natal_pillar: i,
                    dynamic_stem_idx,
                    dynamic_branch_idx,
                    confidence: if i == 1 {
                        95
                    } else {
                        90
                    },
                },
            );
        } else if b == dynamic_branch_idx {
            results.push(
                PhucNgamEvent {
                    match_type: "branch",
                    natal_pillar: i,
                    dynamic_stem_idx,
                    dynamic_branch_idx,
                    confidence: if i == 1 {
                        70
                    } else {
                        60
                    },
                },
            );
        }
        i += 1;
    }
    results
}

/// Whether the stem that a label names is of the element that `target` names.
pub fn stem_label_has_element(label: &str, target: &str) -> (r: bool)
    ensures
        r == match (stem_of_label(label@), element_of_name(target@)) {
            (Some(s), Some(e)) => stem_element_index(s) == e,
            _ => false,
        },
{
    match stem_idx_of(label) {
        Some(idx) => {
            proof {
                lemma_element_names(stem_element_index(idx as int));
                assert(STEM_ELEMENT[idx as int] == element_name(stem_element_index(idx as int)));
            }
            same_text(STEM_ELEMENT[idx], target)
        },
        None => false,
    }
}

/// Whether a stem of the element that `target` names is hidden in a branch.
pub fn branch_hides(branch: usize, target: &str) -> (r: bool)
    requires
        branch < 12,
    ensures
        r == match element_of_name(target@) {
            Some(e) => hides_element(branch as int, e),
            None => false,
        },
{
    let (main, middle, residual) = BRANCH_HIDDEN_STEMS[branch];
    stem_label_has_element(main, target) || stem_label_has_element(middle, target)
        || stem_label_has_element(residual, target)
}

/// Whether the element that `target` names is hidden in the branch of some pillar.
pub fn hidden_stem_shows(pillars: &FourPillars, target: &str) -> (shown: bool)
    requires
        pillars_valid(pillars@),
    ensures
        shown == match element_of_name(target@) {
            Some(e) => hidden_in_chart(pillars@, e),
            None => false,
        },
{
    let mut k: usize = 0;
    while k < 4
        invariant
            k <= 4,
            pillars_valid(pillars@),
            match element_of_name(target@) {
                Some(e) => forall|q: int|
                    0 <= q < k ==> !#[trigger] hides_element(pillars@[q].1 as int, e),
                None => true,
            },
        decreases 4 - k,
    {
        if branch_hides(pillars[k].1, target) {
            return true;
        }
        k += 1;
    }
    false
}

/// Whether the element that `target` names shows in a stem of a pillar other than `i` and `j`.
pub fn other_stem_shows(pillars: &FourPillars, i: usize, j: usize, target: &str) -> (shown: bool)
    requires
        pillars_valid(pillars@),
    ensures
        shown == match element_of_name(target@) {
            Some(e) => shown_by_other_stem(pillars@, i as int, j as int, e),
            None => false,
        },
{
    let mut k: usize = 0;
    while k < 4
        invariant
            k <= 4,
            pillars_valid(pillars@),
            match element_of_name(target@) {
                Some(e) => forall|q: int|
                    0 <= q < k && q != i && q != j ==> #[trigger] pillar_element(pillars@, q) != e,
                None => true,
            },
        decreases 4 - k,
    {
        proof {
            lemma_element_names(pillar_element(pillars@, k as int));
            assert(STEM_ELEMENT[pillars@[k as int].0 as int] == element_name(
                pillar_element(pillars@, k as int),
            ));
        }
        if k != i && k != j && same_text(STEM_ELEMENT[pillars[k].0], target) {
            assert(element_of_name(target@) == Some(pillar_element(pillars@, k as int)));
            return true;
        }
        k += 1;
    }
    false
}

/// The three statuses that a rating starts from are distinct.
pub proof fn lemma_status_names_distinct()
    ensures
        "Hóa (successful)"@ != "Hợp (bound)"@,
        "Hóa (successful)"@ != "Blocked"@,
{
    reveal_strlit("Hóa (successful)");
    reveal_strlit("Hợp (bound)");
    reveal_strlit("Blocked");
    assert("Hóa (successful)"@.len() == 16);
    assert("Hợp (bound)"@.len() == 11);
    assert("Blocked"@.len() == 7);
}

/// Status of a combination and the confidence in it, from its conditions.
pub fn rate_transformation(
    proximity_score: u32,
    month_support: bool,
    leading: bool,
    blocked: bool,
    severely_clashed: bool,
) -> (rating: (&'static str, u32))
    requires
        1 <= proximity_score <= 2,
    ensures
        rating.0 == transformation_status(
            proximity_score == 2,
            month_support,
            leading,
            blocked,
            severely_clashed,
        ),
        rating.1 == transformation_confidence(
            proximity_score == 2,
            month_support,
            leading,
            blocked,
            severely_clashed,
        ),
{
    let mut status: &'static str = "Hợp (bound)";
    let mut confidence: u32 = 40;
    if proximity_score == 2 && month_support && (leading || !severely_clashed) && !blocked {
        status = "Hóa (successful)";
        confidence = if leading {
            95
        } else {
            85
        };
    } else if proximity_score >= 1 && (month_support || leading) && !blocked {
        status = "Hợp (bound)";
        confidence = 65;
    } else if blocked {
        status = "Blocked";
        confidence = 10;
    }
    proof {
        lemma_status_names_distinct();
    }
    if same_text(status, "Hóa (successful)") && severely_clashed {
        status = "Hóa (suppressed by clash)";
        let reduced: u32 = if confidence >= 30 {
            confidence - 30
        } else {
            0
        };
        confidence = if reduced < 20 {
            20
        } else {
            reduced
        };
    }
    (status, confidence)
}

/// The pairs of stems of a chart that combine, each with the conditions under which it
/// transforms, its status and the confidence in it.
#[verifier::rlimit(30)]
pub fn detect_transformations(pillars: &FourPillars, month_branch_idx: usize) -> (results: Vec<
    Transformation,
>)
    requires
        pillars_valid(pillars@),
        month_branch_idx < 12,
    ensures
        results@ == transformations(pillars@, month_branch_idx as int, 6),
{
    let mut results: Vec<Transformation> = Vec::new();
    let month_elem = BRANCH_ELEMENT[month_branch_idx];
    let adjacent: [(usize, usize); 3] = [(0, 1), (1, 2), (2, 3)];

    let mut i: usize = 0;
    while i < 4
        invariant
            i <= 4,
            pillars_valid(pillars@),
            month_branch_idx < 12,
            month_elem == element_name(branch_element_index(month_branch_idx as int)),
            adjacent@ == seq![(0usize, 1usize), (1usize, 2usize), (2usize, 3usize)],
            results@ == transformations(
                pillars@,
                month_branch_idx as int,
                pair_rank(i as int, i + 1),
            ),
        decreases 4 - i,
    {
        let mut j: usize = i + 1;
        while j < 4
            invariant
                i < 4,
                i < j <= 4,
                pillars_valid(pillars@),
                month_branch_idx < 12,
                month_elem == element_name(branch_element_index(month_branch_idx as int)),
                adjacent@ == seq![(0usize, 1usize), (1usize, 2usize), (2usize, 3usize)],
                results@ == transformations(
                    pillars@,
                    month_branch_idx as int,
                    pair_rank(i as int, j as int),
                ),
            decreases 4 - j,
        {
            let s1: usize = pillars[i].0;
            let s2: usize = pillars[j].0;
            proof {
                assert(pair_at(pair_rank(i as int, j as int)) == (i as int, j as int));
                assert(pair_rank(i as int, j + 1) == pair_rank(i as int, j as int) + 1);
            }
            match stem_transformation_target(s1, s2) {
                Some(target) => {
                    let ghost e = transformation_target(s1 as int, s2 as int).unwrap();
                    proof {
                        lemma_element_names(e);
                        lemma_element_names(branch_element_index(month_branch_idx as int));
                    }
                    let is_adjacent: bool = pair_in_set(i, j, &adjacent);
                    proof {
                        if j == i + 1 {
                            assert(adjacent@[i as int] == (i, j));
                        }
                    }
                    let proximity_score: u32 = if is_adjacent {
                        2
                    } else {
                        1
                    };
                    let blocked: bool = check_obstruction(pillars, i, j);
                    let month_support: bool = same_text(month_elem, target);

                    let mut leading: bool = other_stem_shows(pillars, i, j, target);
                    if !leading {
                        leading = hidden_stem_shows(pillars, target);
                    }
                    let severely_clashed: bool = check_severe_clash(pillars, target);
                    let (status, confidence) = rate_transformation(
                        proximity_score,
                        month_support,
                        leading,
                        blocked,
                        severely_clashed,
                    );
                    results.push(
                        Transformation {
                            pair: (i, j),
                            stems: (s1, s2),
                            target_element: target,
                            month_support,
                            leading_present: leading,
                            blocked,
                            severely_clashed,
                            proximity_score,
                            status,
                            confidence,
                        },
                    );
                },
                None => {},
            }
            j += 1;
        }
        i += 1;
    }
    results
}

/// A punishment or harm between the branches of two pillars.
#[derive(Debug, Clone, Copy)]
pub struct Punishment {
    pub punishment_type: &'static str,
    pub pair: (usize, usize),
    pub branches: (usize, usize),
    pub severity: u32,
    pub life_areas: &'static [&'static str],
}

/// What a `Punishment` holds, with the areas of life as a sequence.
pub struct PunishmentView {
    pub punishment_type: &'static str,
    pub pair: (usize, usize),
    pub branches: (usize, usize),
    pub severity: u32,
    pub life_areas: Seq<&'static str>,
}

impl View for Punishment {
    type V = PunishmentView;

    open spec fn view(&self) -> PunishmentView {
        PunishmentView {
            punishment_type: self.punishment_type,
            pair: self.pair,
            branches: self.branches,
            severity: self.severity,
            life_areas: self.life_areas@,
        }
    }
}

/// The views of a sequence of punishments.
pub open spec fn punishment_views(found: Seq<Punishment>) -> Seq<PunishmentView> {
    found.map_values(|p: Punishment| p@)
}

/// Severity of a punishment between the pillars `i` and `j`: highest where the day pillar is
/// one of them, then the month pillar.
pub open spec fn pair_severity(i: int, j: int) -> u32 {
    if i == 2 || j == 2 {
        80
    } else if i == 1 || j == 1 {
        70
    } else {
        50
    }
}

/// Name of a kind of punishment: the self-punishment is 0, the uncivil 1, the bullying 2 and
/// the harm 3.
pub open spec fn punishment_name(kind: int) -> &'static str {
    if kind == 0 {
        "Tự hình (Self-punish)"
    } else if kind == 1 {
        "Vô lễ chi hình (Uncivil)"
    } else if kind == 2 {
        "Ỷ thế chi hình (Bully)"
    } else {
        "Hại (Harm)"
    }
}

/// The areas of life that a kind of punishment touches.
pub open spec fn punishment_areas(kind: int) -> Seq<&'static str> {
    if kind == 0 {
        seq!["health", "self-sabotage"]
    } else if kind == 1 {
        seq!["relationship", "secrets"]
    } else if kind == 2 {
        seq!["career", "power struggles"]
    } else {
        seq!["health", "relationship"]
    }
}

/// Whether the branches `bi` and `bj` stand in a kind of punishment.
pub open spec fn punishes(kind: int, bi: int, bj: int) -> bool {
    if kind == 0 {
        bi == bj && self_punishing(bi)
    } else if kind == 1 {
        pair_listed(UNCIVIL_PUNISH_PAIRS@, bi, bj)
    } else if kind == 2 {
        pair_listed(BULLY_PUNISH_PAIRS@, bi, bj)
    } else {
        pair_listed(HARM_PAIRS@, bi, bj)
    }
}

/// The punishment of a kind between the pillars `i` and `j`.
pub open spec fn punishment_of(pillars: Seq<(usize, usize)>, i: int, j: int, kind: int)
    -> PunishmentView {
    PunishmentView {
        punishment_type: punishment_name(kind),
        pair: (i as usize, j as usize),
        branches: (pillars[i].1, pillars[j].1),
        severity: pair_severity(i, j),
        life_areas: punishment_areas(kind),
    }
}

/// The punishments found so far, and after them the punishment of a kind between the pillars
/// `i` and `j` if their branches stand in it.
pub open spec fn with_punishment(
    found: Seq<PunishmentView>,
    pillars: Seq<(usize, usize)>,
    i: int,
    j: int,
    kind: int,
) -> Seq<PunishmentView> {
    if punishes(kind, pillars[i].1 as int, pillars[j].1 as int) {
        found.push(punishment_of(pillars, i, j, kind))
    } else {
        found
    }
}

/// The punishments found so far, and after them those between the pillars `i` and `j`, in
/// the order of the kinds.
pub open spec fn with_pair_punishments(
    found: Seq<PunishmentView>,
    pillars: Seq<(usize, usize)>,
    i: int,
    j: int,
) -> Seq<PunishmentView> {
    with_punishment(
        with_punishment(
            with_punishment(with_punishment(found, pillars, i, j, 0), pillars, i, j, 1),
            pillars,
            i,
            j,
            2,
        ),
        pillars,
        i,
        j,
        3,
    )
}

/// The punishments among the first `upto` pairs of pillars.
pub open spec fn punishments(pillars: Seq<(usize, usize)>, upto: int) -> Seq<PunishmentView>
    decreases upto,
{
    if upto <= 0 {
        Seq::empty()
    } else {
        let (i, j) = pair_at(upto - 1);
        with_pair_punishments(punishments(pillars, upto - 1), pillars, i, j)
    }
}

/// Adds a punishment to those found so far.
pub fn record_punishment(results: &mut Vec<Punishment>, found: Punishment)
    ensures
        punishment_views(final(results)@) == punishment_views(old(results)@).push(found@),
        final(results)@ == old(results)@.push(found),
{
    results.push(found);
    assert(punishment_views(results@) =~= punishment_views(old(results)@).push(found@));
}

/// Adds the punishments between the pillars `i` and `j` to those found so far.
pub fn push_pair_punishments(
    results: &mut Vec<Punishment>,
    pillars: &FourPillars,
    i: usize,
    j: usize,
)
    requires
        i < 4,
        j < 4,
    ensures
        punishment_views(final(results)@) == with_pair_punishments(
            punishment_views(old(results)@),
            pillars@,
            i as int,
            j as int,
        ),
{
    let ghost p = pillars@;
    let ghost v0 = punishment_views(results@);
    let bi: usize = pillars[i].1;
    let bj: usize = pillars[j].1;
    let involves_day: bool = i == 2 || j == 2;
    let involves_month: bool = i == 1 || j == 1;
    let severity: u32 = if involves_day {
        80
    } else if involves_month {
        70
    } else {
        50
    };

    if bi == bj && is_self_punish_branch(bi) {
        let found = Punishment {
            punishment_type: "Tự hình (Self-punish)",
            pair: (i, j),
            branches: (bi, bj),
            severity,
            life_areas: &["health", "self-sabotage"],
        };
        assert(found.life_areas@ =~= punishment_areas(0));
        record_punishment(results, found);
    }
    let ghost v1 = punishment_views(results@);
    assert(v1 == with_punishment(v0, p, i as int, j as int, 0));

    if pair_in_set(bi, bj, &UNCIVIL_PUNISH_PAIRS) {
        let found = Punishment {
            punishment_type: "Vô lễ chi hình (Uncivil)",
            pair: (i, j),
            branches: (bi, bj),
            severity,
            life_areas: &["relationship", "secrets"],
        };
        assert(found.life_areas@ =~= punishment_areas(1));
        record_punishment(results, found);
    }
    let ghost v2 = punishment_views(results@);
    assert(v2 == with_punishment(v1, p, i as int, j as int, 1));

    if pair_in_set(bi, bj, &BULLY_PUNISH_PAIRS) {
        let found = Punishment {
            punishment_type: "Ỷ thế chi hình (Bully)",
            pair: (i, j),
            branches: (bi, bj),
            severity,
            life_areas: &["career", "power struggles"],
        };
        assert(found.life_areas@ =~= punishment_areas(2));
        record_punishment(results, found);
    }
    let ghost v3 = punishment_views(results@);
    assert(v3 == with_punishment(v2, p, i as int, j as int, 2));

    if pair_in_set(bi, bj, &HARM_PAIRS) {
        let found = Punishment {
            punishment_type: "Hại (Harm)",
            pair: (i, j),
            branches: (bi, bj),
            severity,
            life_areas: &["health", "relationship"],
        };
        assert(found.life_areas@ =~= punishment_areas(3));
        record_punishment(results, found);
    }
    assert(punishment_views(results@) == with_punishment(v3, p, i as int, j as int, 3));
}

/// The punishments and harms among the branches of the four pillars.
pub fn detect_punishments(pillars: &FourPillars) -> (results: Vec<Punishment>)
    ensures
        punishment_views(results@) == punishments(pillars@, 6),
{
    let mut results: Vec<Punishment> = Vec::new();
    assert(punishment_views(results@) =~= punishments(pillars@, 0));
    let mut i: usize = 0;
    while i < 4
        invariant
            i <= 4,
            punishment_views(results@) == punishments(pillars@, pair_rank(i as int, i + 1)),
        decreases 4 - i,
    {
        let mut j: usize = i + 1;
        while j < 4
            invariant
                i < 4,
                i < j <= 4,
                punishment_views(results@) == punishments(pillars@, pair_rank(i as int, j as int)),
            decreases 4 - j,
        {
            proof {
                assert(pair_at(pair_rank(i as int, j as int)) == (i as int, j as int));
                assert(pair_rank(i as int, j + 1) == pair_rank(i as int, j as int) + 1);
            }
            push_pair_punishments(&mut results, pillars, i, j);
            j += 1;
        }
        i += 1;
    }
    results
}

} // verus!
