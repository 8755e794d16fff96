//! The damage resolver.
//!
//! One hit is resolved exactly, over integers: the damage multiplier
//! is a rational with denominator 40 (so 2.5-percent steps are exact),
//! and with the strength percentage applied every intermediate damage
//! quantity is a rational with denominator 4000, or 4000 times the
//! defender's effective health for the casualty accounting. The
//! reported damage and the stored fields are the integer truncations
//! the formulas call for; a stored field saturates at the `i32` range
//! where the exact value would not fit.

use vstd::arithmetic::div_mod::lemma_div_nonincreasing;
use vstd::arithmetic::div_mod::lemma_div_pos_is_pos;
use vstd::arithmetic::div_mod::lemma_fundamental_div_mod;
use vstd::arithmetic::div_mod::lemma_fundamental_div_mod_converse;
use vstd::arithmetic::div_mod::lemma_mod_bound;
use vstd::prelude::*;

use crate::registry::Calc;
use crate::stats::StatsModel;
use crate::stats::Unit;
use crate::stats::UnitModel;

verus! {

/// Quotient of `n / d`, truncated toward zero.
pub open spec fn trunc_div(n: int, d: int) -> int {
    if n >= 0 {
        n / d
    } else {
        -((-n) / d)
    }
}

/// Quotient of `n / d`, rounded up.
pub open spec fn ceil_div(n: int, d: int) -> int {
    if n % d == 0 {
        n / d
    } else {
        n / d + 1
    }
}

/// `x` held to the `i32` range.
pub open spec fn clamp_i32(x: int) -> int {
    if x < i32::MIN as int {
        i32::MIN as int
    } else if x > i32::MAX as int {
        i32::MAX as int
    } else {
        x
    }
}

/// Effective attack of a unit: its personal delta plus its class base.
pub open spec fn eff_attack(reg: Map<Seq<char>, StatsModel>, u: UnitModel) -> int {
    u.stats.attack + reg[u.name].attack
}

/// Effective defence of a unit.
pub open spec fn eff_defense(reg: Map<Seq<char>, StatsModel>, u: UnitModel) -> int {
    u.stats.defense + reg[u.name].defense
}

/// Effective health of one creature of the unit's stack.
pub open spec fn eff_health(reg: Map<Seq<char>, StatsModel>, u: UnitModel) -> int {
    u.stats.health + reg[u.name].health
}

/// Smallest base damage the unit can roll.
pub open spec fn eff_min_dmg(reg: Map<Seq<char>, StatsModel>, u: UnitModel) -> int {
    u.stats.min_dmg + reg[u.name].min_dmg
}

/// Largest base damage the unit can roll.
pub open spec fn eff_max_dmg(reg: Map<Seq<char>, StatsModel>, u: UnitModel) -> int {
    u.stats.max_dmg + reg[u.name].max_dmg
}

/// Effective luck of a unit.
pub open spec fn eff_luck(reg: Map<Seq<char>, StatsModel>, u: UnitModel) -> int {
    u.stats.luck + reg[u.name].luck
}

/// Effective leadership of a unit.
pub open spec fn eff_leadership(reg: Map<Seq<char>, StatsModel>, u: UnitModel) -> int {
    u.stats.leadership + reg[u.name].leadership
}

/// The damage multiplier, in fortieths: with the attack ahead the
/// bonus is two fortieths (five percent) per point, capped at 120
/// (three hundred percent); with the defence ahead the penalty is one
/// fortieth (two and a half percent) per point, capped at 28 (seventy
/// percent); equal stats multiply by one.
pub open spec fn mult_num(attack: int, defence: int) -> int {
    if attack > defence {
        40 + vstd::math::min((attack - defence) * 2, 120)
    } else if attack < defence {
        40 - vstd::math::min(defence - attack, 28)
    } else {
        40
    }
}

/// Raw damage of a hit, in four-thousandths: base roll times stack
/// size times the multiplier (fortieths) times the strength percent
/// (hundredths).
pub open spec fn raw_damage_num(
    reg: Map<Seq<char>, StatsModel>,
    def: UnitModel,
    atk: UnitModel,
    percent: int,
    base: int,
) -> int {
    base * atk.value * mult_num(eff_attack(reg, atk), eff_defense(reg, def)) * percent
}

/// What one hit does: the damage reported and the defender afterwards.
pub struct HitModel {
    pub damage: int,
    pub defender: UnitModel,
}

/// One hit, resolved exactly.
///
/// If the raw damage does not exceed the defender's absorb shield, the
/// shield is reduced by the truncated raw damage and nothing else
/// changes. Otherwise the remaining shield is subtracted from the raw
/// damage and zeroed, and the stack is reduced: of the health pool
/// `value * health - damage_left` the hit takes the shielded damage;
/// the survivors are the pool left, divided by the health of one
/// creature, rounded up; the new partial-damage remainder is what the
/// rounding spared, truncated.
pub open spec fn hit_model(
    reg: Map<Seq<char>, StatsModel>,
    def: UnitModel,
    atk: UnitModel,
    percent: int,
    base: int,
) -> HitModel {
    let raw = raw_damage_num(reg, def, atk, percent, base);
    let h = eff_health(reg, def);
    if raw <= def.stats.absorb * 4000 {
        HitModel {
            damage: 0,
            defender: UnitModel {
                stats: StatsModel {
                    absorb: clamp_i32(def.stats.absorb - trunc_div(raw, 4000)),
                    ..def.stats
                },
                ..def
            },
        }
    } else {
        let dd = raw - def.stats.absorb * 4000;
        let rem = (def.value * h - def.damage_left) * 4000 - dd;
        let c = ceil_div(rem, 4000 * h);
        let nn = c * (4000 * h) - rem;
        HitModel {
            damage: clamp_i32(trunc_div(dd, 4000)),
            defender: UnitModel {
                stats: StatsModel { absorb: 0, ..def.stats },
                value: clamp_i32(c),
                damage_left: clamp_i32(trunc_div(nn, 4000)),
                ..def
            },
        }
    }
}

/// The fixed text attached when a luck roll succeeds.
pub open spec fn lucky_text() -> Seq<char> {
    "Ооо повезло-повезло!"@
}

/// The fixed text attached when a leadership roll succeeds.
pub open spec fn leadership_text() -> Seq<char> {
    "Ебаны рот погнали!"@
}

/// The flavor a roll earns: the text on success, nothing otherwise.
pub open spec fn flavor_of(threshold: int, roll: int, text: Seq<char>) -> Seq<char> {
    if roll < threshold {
        text
    } else {
        Seq::<char>::empty()
    }
}

/// Quotient truncated toward zero, as the exact formulas store it.
fn div_trunc(n: i128, d: i128) -> (r: i128)
    requires
        1 <= d,
        i128::MIN < n,
    ensures
        r as int == trunc_div(n as int, d as int),
        0 <= n ==> 0 <= r <= n,
        n < 0 ==> n <= r <= 0,
{
    if n >= 0 {
        proof {
            lemma_div_pos_is_pos(n as int, d as int);
            lemma_div_nonincreasing(n as int, d as int);
        }
        let q = (n as u128) / (d as u128);
        q as i128
    } else {
        let m = -n;
        proof {
            lemma_div_pos_is_pos(m as int, d as int);
            lemma_div_nonincreasing(m as int, d as int);
        }
        let q = (m as u128) / (d as u128);
        -(q as i128)
    }
}

/// Euclidean quotient and remainder with a positive divisor.
fn div_mod_euclid(n: i128, d: i128) -> (r: (i128, i128))
    requires
        1 <= d,
        i128::MIN < n,
    ensures
        r.0 as int == n as int / d as int,
        r.1 as int == n as int % d as int,
        0 <= n ==> 0 <= r.0 <= n,
        n < 0 ==> r.0 <= 0,
{
    if n >= 0 {
        proof {
            lemma_div_pos_is_pos(n as int, d as int);
            lemma_div_nonincreasing(n as int, d as int);
            lemma_mod_bound(n as int, d as int);
            lemma_fundamental_div_mod(n as int, d as int);
        }
        let q = (n as u128) / (d as u128);
        let m = (n as u128) % (d as u128);
        (q as i128, m as i128)
    } else {
        let minus = -n;
        proof {
            lemma_div_pos_is_pos(minus as int, d as int);
            lemma_div_nonincreasing(minus as int, d as int);
            lemma_mod_bound(minus as int, d as int);
            lemma_fundamental_div_mod(minus as int, d as int);
        }
        let qu = (minus as u128) / (d as u128);
        let ru = (minus as u128) % (d as u128);
        proof {
            assert(minus as int == d as int * (qu as int) + ru as int);
            assert(0 <= (ru as int) && (ru as int) < (d as int));
        }
        if ru == 0 {
            proof {
                assert(n as int == (-(qu as int)) * (d as int) + 0) by (nonlinear_arith)
                    requires
                        minus as int == d as int * (qu as int) + ru as int,
                        ru as int == 0,
                        n as int == -(minus as int),
                ;
                lemma_fundamental_div_mod_converse(n as int, d as int, -(qu as int), 0);
            }
            (-(qu as i128), 0)
        } else {
            proof {
                assert(n as int == (-(qu as int) - 1) * (d as int) + (d as int - ru as int))
                    by (nonlinear_arith)
                    requires
                        minus as int == d as int * (qu as int) + ru as int,
                        n as int == -(minus as int),
                ;
                lemma_fundamental_div_mod_converse(
                    n as int,
                    d as int,
                    -(qu as int) - 1,
                    d as int - ru as int,
                );
            }
            (-(qu as i128) - 1, d - (ru as i128))
        }
    }
}

/// `x` stored into an `i32`, saturating at the ends of its range.
fn clamp_to_i32(x: i128) -> (r: i32)
    ensures
        r as int == clamp_i32(x as int),
{
    if x < i32::MIN as i128 {
        i32::MIN
    } else if x > i32::MAX as i128 {
        i32::MAX
    } else {
        x as i32
    }
}

impl Calc {
    /// One hit of `attacker` on `defender`, with the three rolls given:
    /// damage reported, and the luck and leadership flavor.
    fn strike(
        &self,
        defender: &mut Unit,
        attacker: &Unit,
        percent: i32,
        base_roll: i64,
        luck_roll: i64,
        lead_roll: i64,
    ) -> (r: (i32, String, String))
        requires
            self@.contains_key(attacker.name@),
            self@.contains_key(old(defender).name@),
            eff_health(self@, old(defender)@) >= 1,
            percent >= 0,
            eff_min_dmg(self@, attacker@) <= base_roll as int <= eff_max_dmg(self@, attacker@),
            0 <= luck_roll < 100,
            0 <= lead_roll < 100,
        ensures
            ({
                let hm = hit_model(self@, old(defender)@, attacker@, percent as int, base_roll as int);
                &&& r.0 as int == hm.damage
                &&& final(defender)@ == hm.defender
            }),
            r.1@ == flavor_of(eff_luck(self@, attacker@), luck_roll as int, lucky_text()),
            r.2@ == flavor_of(eff_leadership(self@, attacker@), lead_roll as int, leadership_text()),
    {
        let ghost reg = self@;
        let ghost def0 = defender@;
        let acls = self.lookup(&attacker.name).unwrap();
        let attack: i64 = attacker.stats.attack as i64 + acls.attack as i64;
        let luck_thr: i64 = attacker.stats.luck as i64 + acls.luck as i64;
        let lead_thr: i64 = attacker.stats.leadership as i64 + acls.leadership as i64;
        let dcls = self.lookup(&defender.name).unwrap();
        let defence: i64 = defender.stats.defense as i64 + dcls.defense as i64;
        let health: i64 = defender.stats.health as i64 + dcls.health as i64;
        proof {
            assert(attack as int == eff_attack(reg, attacker@));
            assert(defence as int == eff_defense(reg, def0));
            assert(health as int == eff_health(reg, def0));
        }
        let luck_s: String = if luck_roll < luck_thr {
            "Ооо повезло-повезло!".to_owned()
        } else {
            String::new()
        };
        let lead_s: String = if lead_roll < lead_thr {
            "Ебаны рот погнали!".to_owned()
        } else {
            String::new()
        };
        let m: i64 = if attack > defence {
            let d2: i64 = (attack - defence) * 2;
            if d2 >= 120 {
                160
            } else {
                40 + d2
            }
        } else if attack < defence {
            let d1: i64 = defence - attack;
            if d1 >= 28 {
                12
            } else {
                40 - d1
            }
        } else {
            40
        };
        proof {
            assert(m as int == mult_num(attack as int, defence as int));
            assert(12 <= m <= 160);
        }
        let ghost bi = base_roll as int;
        let ghost vi = defender@.value as int;
        proof {
            let ai = attacker@.value as int;
            assert(-0x8000000000000000 <= bi * ai <= 0x8000000000000000) by (nonlinear_arith)
                requires
                    -0x100000000 <= bi <= 0x100000000,
                    -0x80000000 <= ai <= 0x80000000,
            ;
        }
        let bv: i128 = (base_roll as i128) * (attacker.value as i128);
        proof {
            let mi = m as int;
            assert(-0x500000000000000000 <= bv as int * mi <= 0x500000000000000000)
                by (nonlinear_arith)
                requires
                    -0x8000000000000000 <= bv as int <= 0x8000000000000000,
                    12 <= mi <= 160,
            ;
        }
        let bvm: i128 = bv * (m as i128);
        proof {
            let pi = percent as int;
            assert(-0x28000000000000000000000000 <= bvm as int * pi <= 0x28000000000000000000000000)
                by (nonlinear_arith)
                requires
                    -0x500000000000000000 <= bvm as int <= 0x500000000000000000,
                    0 <= pi <= 0x80000000,
            ;
        }
        let raw: i128 = bvm * (percent as i128);
        proof {
            assert(raw as int == raw_damage_num(reg, def0, attacker@, percent as int, bi));
        }
        let absorb: i128 = defender.stats.absorb as i128;
        if raw <= absorb * 4000 {
            let t = div_trunc(raw, 4000);
            proof {
                assert(-0x28000000000000000000000000 <= t as int <= 0x28000000000000000000000000);
            }
            let na: i128 = absorb - t;
            defender.stats.absorb = clamp_to_i32(na);
            return (0, luck_s, lead_s);
        }
        let dd: i128 = raw - absorb * 4000;
        let dmg = clamp_to_i32(div_trunc(dd, 4000));
        let h: i128 = health as i128;
        let den2: i128 = 4000 * h;
        proof {
            assert(-0x8000000000000000 <= vi * h as int <= 0x8000000000000000) by (nonlinear_arith)
                requires
                    -0x80000000 <= vi <= 0x80000000,
                    1 <= h as int <= 0x100000000,
            ;
        }
        let pool: i128 = (defender.value as i128) * h - (defender.damage_left as i128);
        let rem: i128 = pool * 4000 - dd;
        let (q, rr) = div_mod_euclid(rem, den2);
        let ghost ci = if rr as int == 0 {
            q as int
        } else {
            q as int + 1
        };
        proof {
            lemma_fundamental_div_mod(rem as int, den2 as int);
            lemma_mod_bound(rem as int, den2 as int);
            assert(ci == ceil_div(rem as int, den2 as int));
            assert(ci * (den2 as int) - rem as int == if rr as int == 0 {
                0int
            } else {
                den2 as int - rr as int
            }) by (nonlinear_arith)
                requires
                    rem as int == den2 as int * (q as int) + rr as int,
                    ci == if rr as int == 0 {
                        q as int
                    } else {
                        q as int + 1
                    },
            ;
        }
        let c: i128 = if rr == 0 {
            q
        } else {
            q + 1
        };
        let nn: i128 = if rr == 0 {
            0
        } else {
            den2 - rr
        };
        let dl = clamp_to_i32(div_trunc(nn, 4000));
        defender.value = clamp_to_i32(c);
        defender.damage_left = dl;
        defender.stats.absorb = 0;
        (dmg, luck_s, lead_s)
    }
}

/// Mathematical image of a set of rolls.
pub struct RollsModel {
    pub base: int,
    pub luck: int,
    pub leadership: int,
}

/// The three random draws one hit consumes: the base damage and the
/// luck and leadership percentage rolls.
pub struct Rolls {
    pub base: i64,
    pub luck: i64,
    pub leadership: i64,
}

impl View for Rolls {
    type V = RollsModel;

    open spec fn view(&self) -> RollsModel {
        RollsModel {
            base: self.base as int,
            luck: self.luck as int,
            leadership: self.leadership as int,
        }
    }
}

/// The rolls a hit by `atk` may consume: a base damage within the
/// unit's effective damage range, and two rolls below one hundred.
pub open spec fn rolls_ok(
    reg: Map<Seq<char>, StatsModel>,
    atk: UnitModel,
    rm: RollsModel,
) -> bool {
    &&& eff_min_dmg(reg, atk) <= rm.base <= eff_max_dmg(reg, atk)
    &&& 0 <= rm.luck < 100
    &&& 0 <= rm.leadership < 100
}

/// What a retaliation reports: a damage number and its flavor — never
/// a further retaliation.
pub struct RetaliationOutcome {
    pub damage: int,
    pub luck_flavor: Seq<char>,
    pub leadership_flavor: Seq<char>,
}

/// Everything a resolver call yields and changes.
pub struct CalcOutcome {
    pub damage: int,
    pub luck_flavor: Seq<char>,
    pub leadership_flavor: Seq<char>,
    pub strike_back: Option<RetaliationOutcome>,
    pub defender: UnitModel,
    pub attacker: UnitModel,
}

/// A full resolver step: the attacker's hit on the defender and, if
/// retaliation is on, one counter-hit of the damaged defender back at
/// the attacker, at full strength and with no further retaliation.
pub open spec fn calc_model(
    reg: Map<Seq<char>, StatsModel>,
    def: UnitModel,
    atk: UnitModel,
    percent: int,
    retaliation: bool,
    first: RollsModel,
    second: RollsModel,
) -> CalcOutcome {
    let hm = hit_model(reg, def, atk, percent, first.base);
    let lf = flavor_of(eff_luck(reg, atk), first.luck, lucky_text());
    let df = flavor_of(eff_leadership(reg, atk), first.leadership, leadership_text());
    if retaliation {
        let hm2 = hit_model(reg, atk, hm.defender, 100, second.base);
        CalcOutcome {
            damage: hm.damage,
            luck_flavor: lf,
            leadership_flavor: df,
            strike_back: Some(
                RetaliationOutcome {
                    damage: hm2.damage,
                    luck_flavor: flavor_of(eff_luck(reg, hm.defender), second.luck, lucky_text()),
                    leadership_flavor: flavor_of(
                        eff_leadership(reg, hm.defender),
                        second.leadership,
                        leadership_text(),
                    ),
                },
            ),
            defender: hm.defender,
            attacker: hm2.defender,
        }
    } else {
        CalcOutcome {
            damage: hm.damage,
            luck_flavor: lf,
            leadership_flavor: df,
            strike_back: None,
            defender: hm.defender,
            attacker: atk,
        }
    }
}

/// The result `r` and the two units after the call match the outcome,
/// component by component.
pub open spec fn result_matches(
    oc: CalcOutcome,
    r: (i32, Option<(i32, (String, String))>, (String, String)),
    def1: UnitModel,
    atk1: UnitModel,
) -> bool {
    &&& r.0 as int == oc.damage
    &&& r.2.0@ == oc.luck_flavor
    &&& r.2.1@ == oc.leadership_flavor
    &&& def1 == oc.defender
    &&& atk1 == oc.attacker
    &&& match (r.1, oc.strike_back) {
        (Some(rr), Some(ro)) => {
            &&& rr.0 as int == ro.damage
            &&& rr.1.0@ == ro.luck_flavor
            &&& rr.1.1@ == ro.leadership_flavor
        },
        (None, None) => true,
        _ => false,
    }
}

/// The pair of roll sets `f`, `s` is admissible and explains the
/// result `r` and the two units after the call.
pub open spec fn possible_outcome(
    reg: Map<Seq<char>, StatsModel>,
    def0: UnitModel,
    atk0: UnitModel,
    percent: int,
    retaliation: bool,
    f: RollsModel,
    s: RollsModel,
    r: (i32, Option<(i32, (String, String))>, (String, String)),
    def1: UnitModel,
    atk1: UnitModel,
) -> bool {
    &&& rolls_ok(reg, atk0, f)
    &&& (retaliation ==> rolls_ok(reg, def0, s))
    &&& result_matches(calc_model(reg, def0, atk0, percent, retaliation, f, s), r, def1, atk1)
}

impl Calc {
    /// The resolver with the randomness injected: resolves the
    /// attacker's hit on the defender from the given rolls and, if
    /// retaliation is on, the counter-hit from the second set. The
    /// whole outcome is `calc_model` of the rolls.
    pub fn calculate_with_rolls(
        &self,
        defender: &mut Unit,
        attacker: &mut Unit,
        percent: i32,
        retaliation: bool,
        first: &Rolls,
        second: &Rolls,
    ) -> (r: (i32, Option<(i32, (String, String))>, (String, String)))
        requires
            self@.contains_key(old(attacker).name@),
            self@.contains_key(old(defender).name@),
            eff_health(self@, old(defender)@) >= 1,
            retaliation ==> eff_health(self@, old(attacker)@) >= 1,
            percent >= 0,
            rolls_ok(self@, old(attacker)@, first@),
            retaliation ==> rolls_ok(self@, old(defender)@, second@),
        ensures
            result_matches(
                calc_model(
                    self@,
                    old(defender)@,
                    old(attacker)@,
                    percent as int,
                    retaliation,
                    first@,
                    second@,
                ),
                r,
                final(defender)@,
                final(attacker)@,
            ),
    {
        let ghost reg = self@;
        let ghost def0 = defender@;
        let ghost atk0 = attacker@;
        let (dmg, luck_s, lead_s) = self.strike(
            defender,
            attacker,
            percent,
            first.base,
            first.luck,
            first.leadership,
        );
        if retaliation {
            proof {
                let hm = hit_model(reg, def0, atk0, percent as int, first@.base);
                assert(defender@ == hm.defender);
                assert(defender@.name == def0.name);
                assert(defender@.stats.min_dmg == def0.stats.min_dmg);
                assert(defender@.stats.max_dmg == def0.stats.max_dmg);
            }
            let (dmg2, luck_s2, lead_s2) = self.strike(
                attacker,
                defender,
                100,
                second.base,
                second.luck,
                second.leadership,
            );
            (dmg, Some((dmg2, (luck_s2, lead_s2))), (luck_s, lead_s))
        } else {
            (dmg, None, (luck_s, lead_s))
        }
    }

    /// The resolver as the host calls it: rolls the base damage in the
    /// attacker's damage range and the two percentage rolls, resolves
    /// the hit, and — if retaliation is on — rolls and resolves one
    /// counter-hit. Some admissible pair of roll sets explains
    /// whatever comes back.
    pub fn calculate(
        &self,
        defender: &mut Unit,
        attacker: &mut Unit,
        percent: i32,
        retaliation: bool,
    ) -> (r: (i32, Option<(i32, (String, String))>, (String, String)))
        requires
            self@.contains_key(old(attacker).name@),
            self@.contains_key(old(defender).name@),
            eff_health(self@, old(defender)@) >= 1,
            retaliation ==> eff_health(self@, old(attacker)@) >= 1,
            percent >= 0,
            eff_min_dmg(self@, old(attacker)@) <= eff_max_dmg(self@, old(attacker)@),
            retaliation ==> eff_min_dmg(self@, old(defender)@) <= eff_max_dmg(
                self@,
                old(defender)@,
            ),
        ensures
            exists|f: RollsModel, s: RollsModel|
                #[trigger] possible_outcome(
                    self@,
                    old(defender)@,
                    old(attacker)@,
                    percent as int,
                    retaliation,
                    f,
                    s,
                    r,
                    final(defender)@,
                    final(attacker)@,
                ),
    {
        let first: Rolls = {
            let acls = self.lookup(&attacker.name).unwrap();
            let amin: i64 = attacker.stats.min_dmg as i64 + acls.min_dmg as i64;
            let amax: i64 = attacker.stats.max_dmg as i64 + acls.max_dmg as i64;
            Rolls {
                base: crate::rng::roll_range(amin, amax),
                luck: crate::rng::roll_range(0, 99),
                leadership: crate::rng::roll_range(0, 99),
            }
        };
        let second: Rolls = if retaliation {
            let dcls = self.lookup(&defender.name).unwrap();
            let dmin: i64 = defender.stats.min_dmg as i64 + dcls.min_dmg as i64;
            let dmax: i64 = defender.stats.max_dmg as i64 + dcls.max_dmg as i64;
            Rolls {
                base: crate::rng::roll_range(dmin, dmax),
                luck: crate::rng::roll_range(0, 99),
                leadership: crate::rng::roll_range(0, 99),
            }
        } else {
            Rolls { base: 0, luck: 0, leadership: 0 }
        };
        let r = self.calculate_with_rolls(defender, attacker, percent, retaliation, &first, &second);
        proof {
            assert(possible_outcome(
                self@,
                old(defender)@,
                old(attacker)@,
                percent as int,
                retaliation,
                first@,
                second@,
                r,
                defender@,
                attacker@,
            ));
        }
        r
    }
}

/// With equal effective attack and defence the multiplier is exactly
/// one.
pub proof fn lemma_equal_stats_multiplier(a: int, d: int)
    requires
        a == d,
    ensures
        mult_num(a, d) == 40,
{
}

/// Scaling numerator and denominator by the same positive factor
/// leaves a truncating quotient unchanged.
proof fn lemma_trunc_scale(k: int, m: int, d: int)
    requires
        1 <= m,
        1 <= d,
    ensures
        trunc_div(m * k, m * d) == trunc_div(k, d),
{
    vstd::arithmetic::mul::lemma_mul_strictly_positive(m, d);
    if k >= 0 {
        assert(m * k >= 0) by (nonlinear_arith)
            requires
                m >= 1,
                k >= 0,
        ;
        vstd::arithmetic::div_mod::lemma_div_denominator(m * k, m, d);
        vstd::arithmetic::div_mod::lemma_div_multiples_vanish(k, m);
        assert((m * k) / (m * d) == k / d);
    } else {
        assert(m * k < 0 && -(m * k) == m * (-k) && m * (-k) >= 0) by (nonlinear_arith)
            requires
                m >= 1,
                k < 0,
        ;
        vstd::arithmetic::div_mod::lemma_div_denominator(m * (-k), m, d);
        vstd::arithmetic::div_mod::lemma_div_multiples_vanish(-k, m);
        assert((m * (-k)) / (m * d) == (-k) / d);
    }
}

/// With equal effective attack and defence the reported raw damage
/// reduces to the base roll times the stack size times the strength
/// percent over one hundred, truncated: the multiplier drops out.
pub proof fn lemma_equal_stats_damage(base: int, value: int, percent: int)
    ensures
        trunc_div(base * value * 40 * percent, 4000) == trunc_div(base * value * percent, 100),
{
    let k = base * value * percent;
    assert(base * value * 40 * percent == 40 * k) by (nonlinear_arith)
        requires
            k == base * value * percent,
    ;
    lemma_trunc_scale(k, 40, 100);
}

/// On a hit with equal effective attack and defence and no shield in
/// the way, the reported damage is exactly the base roll times the
/// stack size times the strength percent over one hundred, truncated.
pub proof fn lemma_equal_stats_hit_damage(
    reg: Map<Seq<char>, StatsModel>,
    def: UnitModel,
    atk: UnitModel,
    percent: int,
    base: int,
)
    requires
        eff_attack(reg, atk) == eff_defense(reg, def),
        def.stats.absorb == 0,
        raw_damage_num(reg, def, atk, percent, base) > 0,
    ensures
        hit_model(reg, def, atk, percent, base).damage == clamp_i32(
            trunc_div(base * atk.value * percent, 100),
        ),
{
    lemma_equal_stats_multiplier(eff_attack(reg, atk), eff_defense(reg, def));
    lemma_equal_stats_damage(base, atk.value, percent);
}

/// The attack bonus saturates: sixty points ahead or more pin the
/// multiplier at four (a three-hundred-percent bonus).
pub proof fn lemma_attack_bonus_saturates(a: int, d: int)
    requires
        a - d >= 60,
    ensures
        mult_num(a, d) == 160,
{
}

/// The defence bonus saturates: twenty-eight points ahead or more pin
/// the multiplier at three tenths (a seventy-percent penalty).
pub proof fn lemma_defence_bonus_saturates(a: int, d: int)
    requires
        d - a >= 28,
    ensures
        mult_num(a, d) == 12,
{
}

/// On a hit with the attack sixty or more ahead of the defence and no
/// shield in the way, the reported damage is exactly four times the
/// base roll times the stack size, scaled by the strength percent over
/// one hundred and truncated: the saturated bonus in full.
pub proof fn lemma_attack_saturated_hit_damage(
    reg: Map<Seq<char>, StatsModel>,
    def: UnitModel,
    atk: UnitModel,
    percent: int,
    base: int,
)
    requires
        eff_attack(reg, atk) - eff_defense(reg, def) >= 60,
        def.stats.absorb == 0,
        raw_damage_num(reg, def, atk, percent, base) > 0,
    ensures
        hit_model(reg, def, atk, percent, base).damage == clamp_i32(
            trunc_div(base * atk.value * 4 * percent, 100),
        ),
{
    lemma_attack_bonus_saturates(eff_attack(reg, atk), eff_defense(reg, def));
    let kk = base * atk.value * 4 * percent;
    assert(base * atk.value * 160 * percent == 40 * kk) by (nonlinear_arith)
        requires
            kk == base * atk.value * 4 * percent,
    ;
    lemma_trunc_scale(kk, 40, 100);
}

/// On a hit with the defence twenty-eight or more ahead of the attack
/// and no shield in the way, the reported damage is exactly three
/// tenths of the unscaled damage: three times the base roll times the
/// stack size times the percent, over one thousand, truncated.
pub proof fn lemma_defence_saturated_hit_damage(
    reg: Map<Seq<char>, StatsModel>,
    def: UnitModel,
    atk: UnitModel,
    percent: int,
    base: int,
)
    requires
        eff_defense(reg, def) - eff_attack(reg, atk) >= 28,
        def.stats.absorb == 0,
        raw_damage_num(reg, def, atk, percent, base) > 0,
    ensures
        hit_model(reg, def, atk, percent, base).damage == clamp_i32(
            trunc_div(base * atk.value * 3 * percent, 1000),
        ),
{
    lemma_defence_bonus_saturates(eff_attack(reg, atk), eff_defense(reg, def));
    let kk = base * atk.value * 3 * percent;
    assert(base * atk.value * 12 * percent == 4 * kk) by (nonlinear_arith)
        requires
            kk == base * atk.value * 3 * percent,
    ;
    lemma_trunc_scale(kk, 4, 1000);
}

/// A hit no larger than the absorb shield reports zero damage, leaves
/// the stack size and the partial-damage remainder untouched, and
/// reduces the shield by the truncated raw damage.
pub proof fn lemma_absorb_consumption(
    reg: Map<Seq<char>, StatsModel>,
    def: UnitModel,
    atk: UnitModel,
    percent: int,
    base: int,
)
    requires
        raw_damage_num(reg, def, atk, percent, base) <= def.stats.absorb * 4000,
    ensures
        ({
            let hm = hit_model(reg, def, atk, percent, base);
            &&& hm.damage == 0
            &&& hm.defender.value == def.value
            &&& hm.defender.damage_left == def.damage_left
            &&& hm.defender.stats.absorb == clamp_i32(
                def.stats.absorb - trunc_div(raw_damage_num(reg, def, atk, percent, base), 4000),
            )
        }),
{
}

/// A hit that exceeds the absorb shield zeroes the shield, and the
/// shield's remaining capacity is subtracted from the raw damage
/// before the health accounting.
pub proof fn lemma_absorb_break(
    reg: Map<Seq<char>, StatsModel>,
    def: UnitModel,
    atk: UnitModel,
    percent: int,
    base: int,
)
    requires
        raw_damage_num(reg, def, atk, percent, base) > def.stats.absorb * 4000,
    ensures
        ({
            let hm = hit_model(reg, def, atk, percent, base);
            &&& hm.defender.stats.absorb == 0
            &&& hm.damage == clamp_i32(
                trunc_div(
                    raw_damage_num(reg, def, atk, percent, base) - def.stats.absorb * 4000,
                    4000,
                ),
            )
        }),
{
}

/// Retaliation is exactly one level deep: the counter-hit of a
/// retaliating call is a single hit of the damaged defender back at
/// the attacker, at full strength, and its outcome carries a damage
/// number and flavor only — no further retaliation exists in it.
pub proof fn lemma_retaliation_single_level(
    reg: Map<Seq<char>, StatsModel>,
    def: UnitModel,
    atk: UnitModel,
    percent: int,
    f: RollsModel,
    s: RollsModel,
)
    ensures
        ({
            let oc = calc_model(reg, def, atk, percent, true, f, s);
            let hm = hit_model(reg, def, atk, percent, f.base);
            let hm2 = hit_model(reg, atk, hm.defender, 100, s.base);
            &&& oc.strike_back matches Some(ro) && ro.damage == hm2.damage
            &&& oc.attacker == hm2.defender
        }),
{
}

/// After a hit that breaks the shield, the new partial-damage
/// remainder lies in `[0, health)`: the defender invariant is kept.
pub proof fn lemma_damage_left_range(
    reg: Map<Seq<char>, StatsModel>,
    def: UnitModel,
    atk: UnitModel,
    percent: int,
    base: int,
)
    requires
        eff_health(reg, def) >= 1,
        raw_damage_num(reg, def, atk, percent, base) > def.stats.absorb * 4000,
    ensures
        0 <= hit_model(reg, def, atk, percent, base).defender.damage_left < eff_health(reg, def),
{
    let raw = raw_damage_num(reg, def, atk, percent, base);
    let h = eff_health(reg, def);
    let dd = raw - def.stats.absorb * 4000;
    let rem = (def.value * h - def.damage_left) * 4000 - dd;
    let den2 = 4000 * h;
    assert(den2 >= 4000 && den2 == h * 4000) by (nonlinear_arith)
        requires
            h >= 1,
            den2 == 4000 * h,
    ;
    lemma_fundamental_div_mod(rem, den2);
    lemma_mod_bound(rem, den2);
    let q = rem / den2;
    let rr = rem % den2;
    let c = ceil_div(rem, den2);
    let nn = c * den2 - rem;
    assert(nn == if rr == 0 {
        0int
    } else {
        den2 - rr
    }) by (nonlinear_arith)
        requires
            rem == den2 * q + rr,
            c == if rr == 0 {
                q
            } else {
                q + 1
            },
            nn == c * den2 - rem,
    ;
    assert(0 <= nn < den2);
    lemma_div_pos_is_pos(nn, 4000);
    assert(nn / 4000 < h) by {
        vstd::arithmetic::div_mod::lemma_div_by_multiple_is_strongly_ordered(nn, den2, h, 4000);
    }
    assert(trunc_div(nn, 4000) == nn / 4000);
    assert(clamp_i32(nn / 4000) <= nn / 4000);
}

} // verus!



