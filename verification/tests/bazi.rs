use lunisolar::bazi::{
    branch_element, changsheng_stage, control_of, detect_phuc_ngam, detect_punishments,
    detect_stem_combinations, detect_transformations, element_relation, ganzhi_from_cycle,
    gen_of, life_stage_detail, nayin_for_cycle, pair_in_set, rate_transformation, stem_element,
    stem_polarity, stem_transformation_target, ten_god, FourPillars, LIU_HE,
};

#[test]
fn test_stem_element_lookup() {
    assert_eq!(stem_element("甲"), "Wood");
    assert_eq!(stem_element("丙"), "Fire");
    assert_eq!(stem_element("庚"), "Metal");
    assert_eq!(stem_element("癸"), "Water");
}

#[test]
fn test_stem_polarity_lookup() {
    assert_eq!(stem_polarity("甲"), "Yang");
    assert_eq!(stem_polarity("乙"), "Yin");
}

#[test]
fn test_branch_element_lookup() {
    assert_eq!(branch_element("子"), "Water");
    assert_eq!(branch_element("寅"), "Wood");
    assert_eq!(branch_element("午"), "Fire");
}

#[test]
fn test_ganzhi_from_cycle() {
    assert_eq!(ganzhi_from_cycle(1), ("甲", "子"));
    assert_eq!(ganzhi_from_cycle(60), ("癸", "亥"));
}

#[test]
fn test_changsheng_stage() {
    assert_eq!(changsheng_stage(0, 11), (1, "长生"));
    assert_eq!(changsheng_stage(0, 0), (2, "沐浴"));
}

#[test]
fn test_element_relation() {
    assert_eq!(element_relation("Wood", "Wood"), "same");
    assert_eq!(element_relation("Wood", "Fire"), "wo_sheng");
    assert_eq!(element_relation("Wood", "Water"), "sheng");
    assert_eq!(element_relation("Wood", "Earth"), "wo_ke");
    assert_eq!(element_relation("Wood", "Metal"), "ke");
}

#[test]
fn test_ten_god_self() {
    assert_eq!(ten_god(0, 0), "比肩");
    assert_eq!(ten_god(0, 1), "劫财");
}

#[test]
fn test_nayin_for_cycle() {
    let ny = nayin_for_cycle(1).unwrap();
    assert_eq!(ny.element, "Metal");
    assert_eq!(ny.chinese, "海中金");
    assert_eq!(ny.english, "Sea Metal");

    let ny60 = nayin_for_cycle(60).unwrap();
    assert_eq!(ny60.element, "Water");
    assert_eq!(ny60.english, "Great Ocean Water");

    assert!(nayin_for_cycle(0).is_none());
    assert!(nayin_for_cycle(61).is_none());
}

#[test]
fn test_detect_punishments_harm() {
    let pillars: FourPillars = [(0, 0), (1, 1), (2, 7), (3, 3)];
    let results = detect_punishments(&pillars);
    let harms: Vec<_> = results
        .iter()
        .filter(|p| p.punishment_type == "Hại (Harm)")
        .collect();
    assert_eq!(harms.len(), 1);
    assert_eq!(harms[0].branches, (0, 7));
}

#[test]
fn elements_produce_and_control_round_the_five() {
    assert_eq!(gen_of("Wood"), "Fire");
    assert_eq!(gen_of("Fire"), "Earth");
    assert_eq!(gen_of("Earth"), "Metal");
    assert_eq!(gen_of("Metal"), "Water");
    assert_eq!(gen_of("Water"), "Wood");
    assert_eq!(gen_of("Gold"), "");
    assert_eq!(control_of("Wood"), "Earth");
    assert_eq!(control_of("Fire"), "Metal");
    assert_eq!(control_of("Earth"), "Water");
    assert_eq!(control_of("Metal"), "Wood");
    assert_eq!(control_of("Water"), "Fire");
    assert_eq!(control_of(""), "");
    assert_eq!(element_relation("Wood", "Gold"), "");
    assert_eq!(element_relation("Gold", "Gold"), "same");
    assert_eq!(element_relation("", "Gold"), "sheng");
    assert_eq!(element_relation("Gold", ""), "wo_sheng");
    assert_eq!(stem_element("子"), "");
    assert_eq!(stem_polarity("子"), "");
    assert_eq!(branch_element("甲"), "");
    assert_eq!(branch_element("亥"), "Water");
    assert_eq!(branch_element("丑"), "Earth");
    assert_eq!(branch_element("酉"), "Metal");
}

#[test]
fn ten_gods_by_element_and_polarity() {
    assert_eq!(ten_god(0, 8), "偏印");
    assert_eq!(ten_god(0, 9), "正印");
    assert_eq!(ten_god(0, 2), "食神");
    assert_eq!(ten_god(0, 3), "伤官");
    assert_eq!(ten_god(0, 4), "偏财");
    assert_eq!(ten_god(0, 5), "正财");
    assert_eq!(ten_god(0, 6), "七杀");
    assert_eq!(ten_god(0, 7), "正官");
    assert_eq!(ten_god(9, 9), "比肩");
    assert_eq!(ten_god(9, 0), "伤官");
    assert_eq!(ten_god(9, 5), "七杀");
}

#[test]
fn stages_of_life_walk_forward_for_yang_and_backward_for_yin() {
    assert_eq!(changsheng_stage(0, 10), (12, "养"));
    assert_eq!(changsheng_stage(1, 6), (1, "长生"));
    assert_eq!(changsheng_stage(1, 5), (2, "沐浴"));
    assert_eq!(changsheng_stage(1, 7), (12, "养"));
    assert_eq!(changsheng_stage(9, 3), (1, "长生"));
    assert_eq!(changsheng_stage(0, 23), (1, "长生"));
    let d = life_stage_detail(0, 3);
    assert_eq!(d.index, 5);
    assert_eq!(d.chinese, "帝旺");
    assert_eq!(d.english, "Prosperity Peak");
    assert_eq!(d.vietnamese, "Đế Vượng");
    assert_eq!(d.strength_class, "strong");
    let d = life_stage_detail(0, 4);
    assert_eq!(d.index, 6);
    assert_eq!(d.chinese, "衰");
    assert_eq!(d.english, "Decline");
    assert_eq!(d.vietnamese, "Suy");
    assert_eq!(d.strength_class, "weak");
}

#[test]
fn stems_five_apart_combine() {
    assert_eq!(stem_transformation_target(0, 5), Some("Earth"));
    assert_eq!(stem_transformation_target(5, 0), Some("Earth"));
    assert_eq!(stem_transformation_target(1, 6), Some("Metal"));
    assert_eq!(stem_transformation_target(7, 2), Some("Water"));
    assert_eq!(stem_transformation_target(3, 8), Some("Wood"));
    assert_eq!(stem_transformation_target(9, 4), Some("Fire"));
    assert_eq!(stem_transformation_target(0, 1), None);
    assert_eq!(stem_transformation_target(5, 10), None);
    assert!(pair_in_set(1, 0, &LIU_HE));
    assert!(pair_in_set(2, 11, &LIU_HE));
    assert!(!pair_in_set(0, 2, &LIU_HE));
    assert!(!pair_in_set(0, 0, &[]));
    let found = detect_stem_combinations(&[(0, 0), (5, 1), (1, 2), (6, 3)]);
    assert_eq!(found.len(), 2);
    assert_eq!(found[0].pair, (0, 1));
    assert_eq!(found[0].stems, (0, 5));
    assert_eq!(found[0].target_element, "Earth");
    assert_eq!(found[1].pair, (2, 3));
    assert_eq!(found[1].stems, (1, 6));
    assert_eq!(found[1].target_element, "Metal");
    let found = detect_stem_combinations(&[(0, 0), (1, 1), (5, 2), (0, 3)]);
    assert_eq!(found.len(), 2);
    assert_eq!(found[0].pair, (0, 2));
    assert_eq!(found[1].pair, (2, 3));
    assert_eq!(found[1].stems, (5, 0));
    assert!(detect_stem_combinations(&[(0, 0), (1, 1), (2, 2), (3, 3)]).is_empty());
}

#[test]
fn transformations_are_rated_by_their_conditions() {
    let found = detect_transformations(&[(0, 2), (5, 6), (2, 8), (7, 0)], 6);
    assert_eq!(found.len(), 2);
    assert_eq!(found[0].pair, (0, 1));
    assert_eq!(found[0].stems, (0, 5));
    assert_eq!(found[0].target_element, "Earth");
    assert!(!found[0].month_support);
    assert!(found[0].leading_present);
    assert!(!found[0].blocked);
    assert!(!found[0].severely_clashed);
    assert_eq!(found[0].proximity_score, 2);
    assert_eq!(found[0].status, "Hợp (bound)");
    assert_eq!(found[0].confidence, 65);
    assert_eq!(found[1].pair, (2, 3));
    assert_eq!(found[1].target_element, "Water");
    assert!(found[1].leading_present);
    assert!(found[1].severely_clashed);
    assert_eq!(found[1].status, "Hợp (bound)");
    assert_eq!(found[1].confidence, 65);

    let found = detect_transformations(&[(0, 4), (5, 4), (4, 4), (9, 4)], 4);
    assert_eq!(found.len(), 2);
    assert_eq!(found[0].status, "Hóa (successful)");
    assert_eq!(found[0].confidence, 95);
    assert!(found[0].month_support);
    assert!(found[0].leading_present);
    assert_eq!(found[1].pair, (2, 3));
    assert_eq!(found[1].target_element, "Fire");
    assert!(!found[1].leading_present);
    assert!(found[1].severely_clashed);
    assert_eq!(found[1].status, "Hợp (bound)");
    assert_eq!(found[1].confidence, 40);

    let found = detect_transformations(&[(1, 4), (0, 4), (5, 4), (4, 4)], 4);
    assert_eq!(found.len(), 1);
    assert_eq!(found[0].pair, (1, 2));
    assert!(found[0].severely_clashed);
    assert_eq!(found[0].status, "Hóa (suppressed by clash)");
    assert_eq!(found[0].confidence, 65);

    let found = detect_transformations(&[(0, 0), (6, 0), (5, 0), (3, 0)], 0);
    assert_eq!(found.len(), 1);
    assert_eq!(found[0].pair, (0, 2));
    assert!(found[0].blocked);
    assert_eq!(found[0].proximity_score, 1);
    assert_eq!(found[0].status, "Blocked");
    assert_eq!(found[0].confidence, 10);

    assert_eq!(rate_transformation(2, true, false, false, false), ("Hóa (successful)", 85));
    assert_eq!(rate_transformation(2, true, true, false, true), ("Hóa (suppressed by clash)", 65));
    assert_eq!(rate_transformation(1, true, true, false, false), ("Hợp (bound)", 65));
    assert_eq!(rate_transformation(2, true, true, true, false), ("Blocked", 10));
    assert_eq!(rate_transformation(1, false, false, false, true), ("Hợp (bound)", 40));
}

#[test]
fn a_passing_pillar_repeats_natal_ones() {
    let pillars: FourPillars = [(0, 0), (1, 1), (2, 7), (3, 1)];
    let found = detect_phuc_ngam(&pillars, 1, 1);
    assert_eq!(found.len(), 2);
    assert_eq!(found[0].match_type, "exact");
    assert_eq!(found[0].natal_pillar, 1);
    assert_eq!(found[0].confidence, 95);
    assert_eq!(found[0].dynamic_stem_idx, 1);
    assert_eq!(found[0].dynamic_branch_idx, 1);
    assert_eq!(found[1].match_type, "branch");
    assert_eq!(found[1].natal_pillar, 3);
    assert_eq!(found[1].confidence, 60);
    let found = detect_phuc_ngam(&pillars, 2, 7);
    assert_eq!(found.len(), 1);
    assert_eq!(found[0].match_type, "exact");
    assert_eq!(found[0].confidence, 90);
    let found = detect_phuc_ngam(&pillars, 9, 1);
    assert_eq!(found.len(), 2);
    assert_eq!(found[0].match_type, "branch");
    assert_eq!(found[0].confidence, 70);
    assert!(detect_phuc_ngam(&pillars, 0, 5).is_empty());
}

#[test]
fn punishments_are_weighed_by_the_pillars_they_touch() {
    let found = detect_punishments(&[(0, 4), (1, 4), (2, 0), (3, 3)]);
    let kinds: Vec<(&str, (usize, usize), u32)> =
        found.iter().map(|p| (p.punishment_type, p.pair, p.severity)).collect();
    assert_eq!(
        kinds,
        vec![
            ("Tự hình (Self-punish)", (0, 1), 70),
            ("Hại (Harm)", (0, 3), 50),
            ("Hại (Harm)", (1, 3), 70),
            ("Vô lễ chi hình (Uncivil)", (2, 3), 80),
        ]
    );
    assert_eq!(found[0].life_areas, &["health", "self-sabotage"]);
    assert_eq!(found[0].branches, (4, 4));
    assert_eq!(found[1].life_areas, &["health", "relationship"]);
    assert_eq!(found[3].life_areas, &["relationship", "secrets"]);
    let found = detect_punishments(&[(0, 2), (1, 5), (2, 8), (3, 2)]);
    let kinds: Vec<(&str, (usize, usize), u32)> =
        found.iter().map(|p| (p.punishment_type, p.pair, p.severity)).collect();
    assert_eq!(
        kinds,
        vec![
            ("Ỷ thế chi hình (Bully)", (0, 1), 70),
            ("Hại (Harm)", (0, 1), 70),
            ("Ỷ thế chi hình (Bully)", (0, 2), 80),
            ("Ỷ thế chi hình (Bully)", (1, 2), 80),
            ("Ỷ thế chi hình (Bully)", (1, 3), 70),
            ("Hại (Harm)", (1, 3), 70),
            ("Ỷ thế chi hình (Bully)", (2, 3), 80),
        ]
    );
    assert_eq!(found[0].life_areas, &["career", "power struggles"]);
    assert!(detect_punishments(&[(0, 0), (0, 0), (0, 0), (0, 0)]).is_empty());
}

#[test]
fn sound_elements_come_in_pairs() {
    for cycle in (1..=59usize).step_by(2) {
        let a = nayin_for_cycle(cycle).unwrap();
        let b = nayin_for_cycle(cycle + 1).unwrap();
        assert_eq!(a.chinese, b.chinese);
        assert_eq!(a.element, b.element);
    }
    let ny = nayin_for_cycle(42).unwrap();
    assert_eq!(ny.element, "Fire");
    assert_eq!(ny.chinese, "覆灯火");
    assert_eq!(ny.vietnamese, "Phúc Đăng Hỏa");
    assert_eq!(ny.english, "Covered Lamp Fire");
}
