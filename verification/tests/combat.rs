use damage_calc::Calc;
use damage_calc::Stats;
use damage_calc::Unit;
use damage_calc::damage::Rolls;

fn zero_stats() -> Stats {
    Stats {
        attack: 0,
        min_dmg: 0,
        max_dmg: 0,
        defense: 0,
        health: 0,
        luck: 0,
        leadership: 0,
        absorb: 0,
        desc: String::new(),
    }
}

fn unit(name: &str, value: i32) -> Unit {
    Unit {
        name: name.to_string(),
        stats: zero_stats(),
        value,
        damage_left: 0,
    }
}

fn rolls(base: i64) -> Rolls {
    Rolls {
        base,
        luck: 99,
        leadership: 99,
    }
}

/// A registry with one class whose attack, defence, damage range and
/// health are given; luck and leadership are zero.
fn one_class(calc: &mut Calc, name: &str, attack: i32, defence: i32, dmg: i32, health: i32) {
    let json = format!(
        r#"{{"{}": {{"attack": {}, "min_dmg": {}, "max_dmg": {}, "defence": {}, "health": {}, "description": ""}}}}"#,
        name, attack, dmg, dmg, defence, health,
    );
    assert_eq!(calc.update(&json), 0);
}

#[test]
fn equal_stats_multiplier_is_one() {
    let mut calc = Calc::default();
    one_class(&mut calc, "C", 3, 3, 2, 10);
    let mut attacker = unit("C", 10);
    let mut defender = unit("C", 100);
    let (dmg, retal, _) =
        calc.calculate_with_rolls(&mut defender, &mut attacker, 100, false, &rolls(2), &rolls(0));
    assert_eq!(dmg, 2 * 10);
    assert!(retal.is_none());
}

#[test]
fn equal_stats_percent_truncates() {
    let mut calc = Calc::default();
    one_class(&mut calc, "C", 3, 3, 3, 10);
    let mut attacker = unit("C", 1);
    let mut defender = unit("C", 100);
    let (dmg, _, _) =
        calc.calculate_with_rolls(&mut defender, &mut attacker, 50, false, &rolls(3), &rolls(0));
    // 3 * 1 * 0.5 = 1.5, reported truncated
    assert_eq!(dmg, 1);
}

#[test]
fn attack_bonus_saturates_at_four() {
    let mut calc = Calc::default();
    // attack 60 ahead of defence: multiplier pinned at 4.0
    one_class(&mut calc, "C", 60, 0, 2, 1000);
    let mut attacker = unit("C", 1);
    let mut defender = unit("C", 100);
    let (dmg, _, _) =
        calc.calculate_with_rolls(&mut defender, &mut attacker, 100, false, &rolls(2), &rolls(0));
    assert_eq!(dmg, 8);
    // far past the threshold the multiplier does not grow
    let mut calc2 = Calc::default();
    one_class(&mut calc2, "C", 200, 0, 2, 1000);
    let mut attacker2 = unit("C", 1);
    let mut defender2 = unit("C", 100);
    let (dmg2, _, _) =
        calc2.calculate_with_rolls(&mut defender2, &mut attacker2, 100, false, &rolls(2), &rolls(0));
    assert_eq!(dmg2, 8);
}

#[test]
fn defence_bonus_saturates_at_three_tenths() {
    let mut calc = Calc::default();
    // defence 28 ahead of attack: multiplier pinned at 0.30
    one_class(&mut calc, "C", 0, 28, 10, 1000);
    let mut attacker = unit("C", 1);
    let mut defender = unit("C", 100);
    let (dmg, _, _) =
        calc.calculate_with_rolls(&mut defender, &mut attacker, 100, false, &rolls(10), &rolls(0));
    assert_eq!(dmg, 3);
    let mut calc2 = Calc::default();
    one_class(&mut calc2, "C", 0, 90, 10, 1000);
    let mut attacker2 = unit("C", 1);
    let mut defender2 = unit("C", 100);
    let (dmg2, _, _) =
        calc2.calculate_with_rolls(&mut defender2, &mut attacker2, 100, false, &rolls(10), &rolls(0));
    assert_eq!(dmg2, 3);
}

#[test]
fn absorb_swallows_a_small_hit() {
    let mut calc = Calc::default();
    one_class(&mut calc, "C", 1, 1, 1, 10);
    let mut attacker = unit("C", 23);
    let mut defender = unit("C", 5);
    defender.stats.absorb = 50;
    let (dmg, _, _) =
        calc.calculate_with_rolls(&mut defender, &mut attacker, 100, false, &rolls(1), &rolls(0));
    assert_eq!(dmg, 0);
    assert_eq!(defender.value, 5);
    assert_eq!(defender.damage_left, 0);
    assert_eq!(defender.stats.absorb, 50 - 23);
}

#[test]
fn absorb_breaks_and_the_rest_hits_health() {
    let mut calc = Calc::default();
    one_class(&mut calc, "C", 1, 1, 1, 10);
    let mut attacker = unit("C", 23);
    let mut defender = unit("C", 5);
    defender.stats.absorb = 5;
    let (dmg, _, _) =
        calc.calculate_with_rolls(&mut defender, &mut attacker, 100, false, &rolls(1), &rolls(0));
    // 23 raw, 5 absorbed: 18 through; pool 50, remaining 32
    assert_eq!(dmg, 18);
    assert_eq!(defender.stats.absorb, 0);
    assert_eq!(defender.value, 4);
    assert_eq!(defender.damage_left, 8);
}

#[test]
fn casualty_ceiling_splits_the_partial_creature() {
    let mut calc = Calc::default();
    one_class(&mut calc, "C", 1, 1, 1, 10);
    let mut attacker = unit("C", 23);
    let mut defender = unit("C", 5);
    let (dmg, _, _) =
        calc.calculate_with_rolls(&mut defender, &mut attacker, 100, false, &rolls(1), &rolls(0));
    // raw damage 23 against a pool of 50: remaining 27 of health 10 each
    assert_eq!(dmg, 23);
    assert_eq!(defender.value, 3);
    assert_eq!(defender.damage_left, 3);
}

#[test]
fn damage_left_carries_into_the_next_hit() {
    let mut calc = Calc::default();
    one_class(&mut calc, "C", 1, 1, 1, 10);
    let mut attacker = unit("C", 23);
    let mut defender = unit("C", 5);
    calc.calculate_with_rolls(&mut defender, &mut attacker, 100, false, &rolls(1), &rolls(0));
    assert_eq!((defender.value, defender.damage_left), (3, 3));
    // second identical hit: pool 30 - 3 - 23 = 4 left
    calc.calculate_with_rolls(&mut defender, &mut attacker, 100, false, &rolls(1), &rolls(0));
    assert_eq!(defender.value, 1);
    assert_eq!(defender.damage_left, 6);
}

#[test]
fn annihilation_drives_value_to_zero() {
    let mut calc = Calc::default();
    one_class(&mut calc, "C", 1, 1, 1, 10);
    let mut attacker = unit("C", 50);
    let mut defender = unit("C", 5);
    let (dmg, _, _) =
        calc.calculate_with_rolls(&mut defender, &mut attacker, 100, false, &rolls(1), &rolls(0));
    assert_eq!(dmg, 50);
    assert_eq!(defender.value, 0);
    assert_eq!(defender.damage_left, 0);
}

#[test]
fn retaliation_is_exactly_one_level_deep() {
    let mut calc = Calc::default();
    one_class(&mut calc, "C", 1, 1, 2, 100);
    let mut attacker = unit("C", 10);
    let mut defender = unit("C", 10);
    let (dmg, retal, _) =
        calc.calculate_with_rolls(&mut defender, &mut attacker, 100, true, &rolls(2), &rolls(2));
    assert_eq!(dmg, 20);
    // the counter-hit is a plain damage number with flavor: the tuple
    // carries no further retaliation slot
    let (retal_dmg, (retal_luck, retal_lead)): (i32, (String, String)) =
        retal.expect("retaliation requested");
    assert_eq!(retal_dmg, 20);
    assert_eq!(retal_luck, "");
    assert_eq!(retal_lead, "");
    // both sides took their hit
    assert_eq!(defender.damage_left, 20 % 100);
    assert_eq!(attacker.damage_left, 20 % 100);
}

#[test]
fn retaliation_strikes_with_the_reduced_stack() {
    let mut calc = Calc::default();
    one_class(&mut calc, "C", 1, 1, 1, 10);
    let mut attacker = unit("C", 23);
    let mut defender = unit("C", 5);
    let (dmg, retal, _) =
        calc.calculate_with_rolls(&mut defender, &mut attacker, 100, true, &rolls(1), &rolls(1));
    assert_eq!(dmg, 23);
    assert_eq!(defender.value, 3);
    // the counter-hit comes from the 3 survivors, not the original 5
    let (retal_dmg, _) = retal.unwrap();
    assert_eq!(retal_dmg, 3);
    assert_eq!(attacker.value, 23);
    assert_eq!(attacker.damage_left, 3);
}

#[test]
fn no_retaliation_leaves_the_attacker_untouched() {
    let mut calc = Calc::default();
    one_class(&mut calc, "C", 1, 1, 1, 10);
    let mut attacker = unit("C", 23);
    let mut defender = unit("C", 5);
    let (_, retal, _) =
        calc.calculate_with_rolls(&mut defender, &mut attacker, 100, false, &rolls(1), &rolls(0));
    assert!(retal.is_none());
    assert_eq!(attacker.value, 23);
    assert_eq!(attacker.damage_left, 0);
    assert_eq!(attacker.stats.absorb, 0);
}

#[test]
fn luck_roll_below_threshold_earns_the_flavor() {
    let mut calc = Calc::default();
    let json = r#"{"C": {"attack": 1, "min_dmg": 1, "max_dmg": 1, "defence": 1, "health": 10,
                          "luck": 10, "leadership": 0, "description": ""}}"#;
    assert_eq!(calc.update(json), 0);
    let mut attacker = unit("C", 1);
    let mut defender = unit("C", 5);
    let lucky = Rolls { base: 1, luck: 9, leadership: 9 };
    let (_, _, (luck_s, lead_s)) =
        calc.calculate_with_rolls(&mut defender, &mut attacker, 100, false, &lucky, &rolls(0));
    assert_eq!(luck_s, "Ооо повезло-повезло!");
    assert_eq!(lead_s, "");
    let mut defender2 = unit("C", 5);
    let unlucky = Rolls { base: 1, luck: 10, leadership: 9 };
    let (_, _, (luck_s2, _)) =
        calc.calculate_with_rolls(&mut defender2, &mut attacker, 100, false, &unlucky, &rolls(0));
    assert_eq!(luck_s2, "");
}

#[test]
fn leadership_roll_below_threshold_earns_the_flavor() {
    let mut calc = Calc::default();
    let json = r#"{"C": {"attack": 1, "min_dmg": 1, "max_dmg": 1, "defence": 1, "health": 10,
                          "luck": 0, "leadership": 100, "description": ""}}"#;
    assert_eq!(calc.update(json), 0);
    let mut attacker = unit("C", 1);
    let mut defender = unit("C", 5);
    let (_, _, (luck_s, lead_s)) =
        calc.calculate_with_rolls(&mut defender, &mut attacker, 100, false, &rolls(1), &rolls(0));
    // threshold 100 beats every roll; threshold 0 never fires
    assert_eq!(luck_s, "");
    assert_eq!(lead_s, "Ебаны рот погнали!");
}

#[test]
fn calculate_with_equal_bounds_is_deterministic() {
    let mut calc = Calc::default();
    // min_dmg == max_dmg: the rolled base damage can only be 2
    one_class(&mut calc, "C", 1, 1, 2, 10);
    let mut attacker = unit("C", 10);
    let mut defender = unit("C", 10);
    let (dmg, retal, _) = calc.calculate(&mut defender, &mut attacker, 100, false);
    assert_eq!(dmg, 20);
    assert!(retal.is_none());
    assert_eq!(defender.value, 8);
    assert_eq!(defender.damage_left, 0);
}

#[test]
fn calculate_certain_luck_attaches_the_flavor() {
    let mut calc = Calc::default();
    let json = r#"{"C": {"attack": 1, "min_dmg": 2, "max_dmg": 2, "defence": 1, "health": 10,
                          "luck": 100, "leadership": 0, "description": ""}}"#;
    assert_eq!(calc.update(json), 0);
    let mut attacker = unit("C", 1);
    let mut defender = unit("C", 5);
    let (_, _, (luck_s, lead_s)) = calc.calculate(&mut defender, &mut attacker, 100, false);
    // a luck threshold of one hundred beats every roll of [0, 100)
    assert_eq!(luck_s, "Ооо повезло-повезло!");
    assert_eq!(lead_s, "");
}

#[test]
fn calculate_with_retaliation_hits_both_sides() {
    let mut calc = Calc::default();
    one_class(&mut calc, "C", 1, 1, 2, 100);
    let mut attacker = unit("C", 10);
    let mut defender = unit("C", 10);
    let (dmg, retal, _) = calc.calculate(&mut defender, &mut attacker, 100, true);
    assert_eq!(dmg, 20);
    let (back, _) = retal.expect("retaliation requested");
    assert_eq!(back, 20);
    assert_eq!(defender.damage_left, 20);
    assert_eq!(attacker.damage_left, 20);
}

#[test]
fn calculate_draws_within_the_damage_range() {
    let mut calc = Calc::default();
    one_class(&mut calc, "C", 1, 1, 0, 1000);
    // personal deltas put the range at [3, 5]
    let mut attacker = unit("C", 1);
    attacker.stats.min_dmg = 3;
    attacker.stats.max_dmg = 5;
    for _ in 0..50 {
        let mut defender = unit("C", 100);
        let (dmg, _, _) = calc.calculate(&mut defender, &mut attacker, 100, false);
        assert!((3..=5).contains(&dmg), "damage {} outside the rolled range", dmg);
    }
}

#[test]
fn end_to_end_archer_against_goblin() {
    let mut calc = Calc::default();
    let json = r#"{
        "Archer": {"attack": 5, "min_dmg": 2, "max_dmg": 4, "defence": 2, "health": 10, "description": ""},
        "Goblin": {"attack": 2, "min_dmg": 1, "max_dmg": 2, "defence": 1, "health": 8, "description": ""}
    }"#;
    assert_eq!(calc.update(json), 0);
    let mut attacker = unit("Archer", 10);
    let mut defender = unit("Goblin", 10);
    // attack 5 against defence 1: multiplier 1.2; injected roll 3 of [2, 4]
    let (dmg, retal, _) =
        calc.calculate_with_rolls(&mut defender, &mut attacker, 100, false, &rolls(3), &rolls(0));
    assert_eq!(dmg, 36);
    assert!(retal.is_none());
    // pool 80, remaining 44 of health 8 each: 6 stand, the front one hurt
    assert_eq!(defender.value, 6);
    assert_eq!(defender.damage_left, 4);
    // the ceiling law holds for the other possible rolls too
    for (base, want_dmg, want_value, want_left) in
        [(2i64, 24i32, 7i32, 0i32), (4, 48, 4, 0)]
    {
        let mut d2 = unit("Goblin", 10);
        let mut a2 = unit("Archer", 10);
        let (dmg2, _, _) =
            calc.calculate_with_rolls(&mut d2, &mut a2, 100, false, &rolls(base), &rolls(0));
        assert_eq!(dmg2, want_dmg);
        assert_eq!(d2.value, want_value);
        assert_eq!(d2.damage_left, want_left);
    }
}

#[test]
fn zero_stack_attacker_deals_nothing() {
    let mut calc = Calc::default();
    one_class(&mut calc, "C", 1, 1, 2, 10);
    let mut attacker = unit("C", 0);
    let mut defender = unit("C", 5);
    let (dmg, _, _) =
        calc.calculate_with_rolls(&mut defender, &mut attacker, 100, false, &rolls(2), &rolls(0));
    assert_eq!(dmg, 0);
    assert_eq!(defender.value, 5);
    assert_eq!(defender.damage_left, 0);
}

#[test]
fn zero_percent_hit_is_fully_absorbed() {
    let mut calc = Calc::default();
    one_class(&mut calc, "C", 1, 1, 2, 10);
    let mut attacker = unit("C", 5);
    let mut defender = unit("C", 5);
    let (dmg, _, _) =
        calc.calculate_with_rolls(&mut defender, &mut attacker, 0, false, &rolls(2), &rolls(0));
    assert_eq!(dmg, 0);
    assert_eq!(defender.value, 5);
}
