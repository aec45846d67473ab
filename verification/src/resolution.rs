//! Resolution of attacks and saves: what is rolled, what is computed from
//! the rolls, and the lines that report it.

use vstd::prelude::*;
use crate::dice::{
    damage_formula,
    damage_result,
    dice_rolled,
    roll_dice,
    roll_die,
    valid_rolls,
};
use crate::event_log::{appended_all, last_n, line_views, EventLog, LOG_CAPACITY};
use crate::roster::{
    first_named,
    lemma_first_named_once,
    name_absent,
    Combatant,
    CombatantView,
    Roster,
};
use crate::template::{ability_name, ability_text, Ability, Attack, AttackView, Monster};
use crate::text::{int_text, push_int};

verus! {

/// The time of day as hours, minutes and seconds: calls `chrono::Local::now`,
/// which reads the system's clock, and formats what it gives with
/// `%H:%M:%S`. The contract claims nothing of the text.
#[verifier::external_body]
fn clock_stamp() -> (r: String) {
    chrono::Local::now().format("%H:%M:%S").to_string()
}

/// What the dice showed for one attack of a turn.
#[derive(Debug, PartialEq, Eq)]
pub struct SubAttack {
    /// The twenty-sided die rolled to hit.
    pub die_roll: i32,
    /// The damage dice.
    pub damage_rolls: Vec<i32>,
}

/// The number of damage dice of an attack whose roll to hit showed
/// `die_roll`: twice the attack's dice on a twenty, the attack's dice
/// otherwise.
pub open spec fn damage_dice(attack: AttackView, die_roll: int) -> int {
    if die_roll == 20 {
        2 * attack.num_dice
    } else {
        attack.num_dice
    }
}

/// Whether `outcome` can come of one attack with `attack`.
pub open spec fn valid_sub_attack(outcome: SubAttack, attack: AttackView) -> bool {
    &&& 1 <= outcome.die_roll <= 20
    &&& valid_rolls(
        outcome.damage_rolls@,
        damage_dice(attack, outcome.die_roll as int),
        attack.damage_die,
    )
}

/// Whether `outcomes` can come of a turn's attacks with `attack`: one for
/// each attack of the turn.
pub open spec fn valid_attack_outcome(outcomes: Seq<SubAttack>, attack: AttackView) -> bool {
    &&& outcomes.len() == dice_rolled(attack.num_attacks)
    &&& forall|i: int| 0 <= i < outcomes.len() ==> valid_sub_attack(#[trigger] outcomes[i], attack)
}

/// What the attacker adds to the die when it rolls to hit with `attack`:
/// the modifier of the attack's ability and the proficiency bonus.
pub open spec fn hit_bonus(c: CombatantView, attack: AttackView) -> int {
    c.monster_template.modifier(attack.ability_used) + c.monster_template.pb
}

/// The total of a roll to hit.
pub open spec fn to_hit(c: CombatantView, attack: AttackView, die_roll: int) -> int {
    die_roll + hit_bonus(c, attack)
}

/// The difficulty of the save against `attack`.
pub open spec fn save_dc(c: CombatantView, attack: AttackView) -> int {
    8 + hit_bonus(c, attack)
}

/// What opens every line about an attack: the time, the combatant and the
/// attack's name.
pub open spec fn line_head(stamp: Seq<char>, c: CombatantView, attack: AttackView) -> Seq<char> {
    stamp + ": "@ + c.instance_name + " - "@ + attack.attack_name
}

/// The mark that a roll to hit of `die_roll` gets.
pub open spec fn critical_mark(die_roll: int) -> Seq<char> {
    if die_roll == 20 {
        " -> CRITICAL HIT!"@
    } else {
        Seq::empty()
    }
}

/// The line for the attack at place `index` of a turn, counted from 1.
pub open spec fn attack_line_text(
    stamp: Seq<char>,
    c: CombatantView,
    attack: AttackView,
    index: int,
    outcome: SubAttack,
) -> Seq<char> {
    line_head(stamp, c, attack) + " attack "@ + int_text(index) + ": To hit: "@ + int_text(
        outcome.die_roll as int,
    ) + " + "@ + int_text(hit_bonus(c, attack)) + " (Total Mod) = "@ + int_text(
        to_hit(c, attack, outcome.die_roll as int),
    ) + critical_mark(outcome.die_roll as int) + "; Damage: "@ + damage_formula(
        outcome.damage_rolls@,
        c.monster_template.modifier(attack.ability_used),
    )
}

/// The lines for the attacks of a turn, in order.
pub open spec fn attack_lines_text(
    stamp: Seq<char>,
    c: CombatantView,
    attack: AttackView,
    outcomes: Seq<SubAttack>,
) -> Seq<Seq<char>> {
    Seq::new(outcomes.len(), |i: int| attack_line_text(stamp, c, attack, i + 1, outcomes[i]))
}

/// The line for an attack that the target saves against: the difficulty of
/// the save, and the damage as rolled, with nothing added.
pub open spec fn save_attack_line_text(
    stamp: Seq<char>,
    c: CombatantView,
    attack: AttackView,
    rolls: Seq<i32>,
) -> Seq<char> {
    line_head(stamp, c, attack) + ": Save DC "@ + int_text(save_dc(c, attack)) + "; Damage: "@
        + damage_formula(rolls, 0)
}

/// The line for a save that the combatant makes with `ability`.
pub open spec fn ability_save_line_text(
    stamp: Seq<char>,
    c: CombatantView,
    ability: Ability,
    die_roll: int,
) -> Seq<char> {
    stamp + ": "@ + c.instance_name + " "@ + ability_text(ability) + " save: "@ + int_text(
        die_roll,
    ) + " + "@ + int_text(c.monster_template.modifier(ability)) + " = "@ + int_text(
        die_roll + c.monster_template.modifier(ability),
    )
}

/// Whether the log went from `before` to `after` by one use of `attack` by
/// `c`, at some time and with some dice.
///
/// An attack that the target saves against gives one line: the difficulty
/// of the save and the damage of the attack's dice. Any other attack gives
/// one line for each attack of the turn: the roll to hit, and the damage
/// with the ability's modifier, of twice the dice where the die showed
/// twenty.
pub open spec fn attack_resolved(
    before: Seq<Seq<char>>,
    after: Seq<Seq<char>>,
    c: CombatantView,
    attack: AttackView,
) -> bool {
    if attack.is_saving_throw {
        exists|stamp: Seq<char>, rolls: Seq<i32>|
            valid_rolls(rolls, attack.num_dice, attack.damage_die) && after == last_n(
                before.push(#[trigger] save_attack_line_text(stamp, c, attack, rolls)),
                LOG_CAPACITY as nat,
            )
    } else {
        exists|stamp: Seq<char>, outcomes: Seq<SubAttack>|
            valid_attack_outcome(outcomes, attack) && after == appended_all(
                before,
                #[trigger] attack_lines_text(stamp, c, attack, outcomes),
            )
    }
}

/// Whether the log went from `before` to `after` by one save of `c` with
/// `ability`, at some time and with some roll of a twenty-sided die.
pub open spec fn save_resolved(
    before: Seq<Seq<char>>,
    after: Seq<Seq<char>>,
    c: CombatantView,
    ability: Ability,
) -> bool {
    exists|stamp: Seq<char>, die_roll: int|
        1 <= die_roll <= 20 && after == last_n(
            before.push(#[trigger] ability_save_line_text(stamp, c, ability, die_roll)),
            LOG_CAPACITY as nat,
        )
}

/// Whether no attack of `attacks` is called `name`.
pub open spec fn attack_absent(attacks: Seq<AttackView>, name: Seq<char>) -> bool {
    forall|k: int| 0 <= k < attacks.len() ==> (#[trigger] attacks[k]).attack_name != name
}

/// Whether `k` is the place of the first attack of `attacks` called `name`.
pub open spec fn first_attack(attacks: Seq<AttackView>, name: Seq<char>, k: int) -> bool {
    &&& 0 <= k < attacks.len()
    &&& attacks[k].attack_name == name
    &&& attack_absent(attacks.take(k), name)
}

/// The number of damage dice of an attack whose roll to hit showed
/// `die_roll`.
pub fn damage_dice_count(attack: &Attack, die_roll: i32) -> (r: i64)
    ensures
        r as int == damage_dice(attack@, die_roll as int),
{
    if die_roll == 20 {
        2 * (attack.num_dice as i64)
    } else {
        attack.num_dice as i64
    }
}

/// Rolls a turn's attacks with `attack`: for each a twenty-sided die to
/// hit, then the damage dice, twice as many where the die showed twenty.
pub fn roll_attack(attack: &Attack) -> (outcomes: Vec<SubAttack>)
    ensures
        valid_attack_outcome(outcomes@, attack@),
{
    let mut outcomes: Vec<SubAttack> = Vec::new();
    let mut i: i32 = 0;
    while i < attack.num_attacks
        invariant
            0 <= i,
            i <= attack.num_attacks || i == 0,
            outcomes@.len() == i,
            forall|j: int|
                0 <= j < outcomes@.len() ==> valid_sub_attack(#[trigger] outcomes@[j], attack@),
        decreases attack.num_attacks - i,
    {
        let die_roll = roll_die(20);
        let damage_rolls = roll_dice(damage_dice_count(attack, die_roll), attack.damage_die);
        outcomes.push(SubAttack { die_roll, damage_rolls });
        i += 1;
    }
    outcomes
}

fn push_line_head(out: &mut String, stamp: &str, combatant: &Combatant, attack: &Attack)
    ensures
        final(out)@ == old(out)@ + line_head(stamp@, combatant@, attack@),
{
    out.append(stamp);
    out.append(": ");
    out.append(combatant.instance_name.as_str());
    out.append(" - ");
    out.append(attack.attack_name.as_str());
    assert(out@ =~= old(out)@ + line_head(stamp@, combatant@, attack@));
}

/// The line for the attack at place `index` of a turn, counted from 1.
pub fn attack_line(
    stamp: &str,
    combatant: &Combatant,
    attack: &Attack,
    index: usize,
    outcome: &SubAttack,
) -> (r: String)
    ensures
        r@ == attack_line_text(stamp@, combatant@, attack@, index as int, *outcome),
{
    let modifier = combatant.monster_template.ability_modifier(attack.ability_used);
    let bonus: i128 = (modifier as i128) + (combatant.monster_template.pb as i128);
    let formula = damage_result(&outcome.damage_rolls, modifier).1;
    let mut out = String::new();
    push_line_head(&mut out, stamp, combatant, attack);
    out.append(" attack ");
    push_int(&mut out, index as i128);
    out.append(": To hit: ");
    push_int(&mut out, outcome.die_roll as i128);
    out.append(" + ");
    push_int(&mut out, bonus);
    out.append(" (Total Mod) = ");
    push_int(&mut out, (outcome.die_roll as i128) + bonus);
    if outcome.die_roll == 20 {
        out.append(" -> CRITICAL HIT!");
    }
    out.append("; Damage: ");
    out.append(formula.as_str());
    assert(out@ =~= attack_line_text(stamp@, combatant@, attack@, index as int, *outcome));
    out
}

/// The lines for the attacks of a turn, in order.
pub fn attack_lines(
    stamp: &str,
    combatant: &Combatant,
    attack: &Attack,
    outcomes: &Vec<SubAttack>,
) -> (r: Vec<String>)
    ensures
        line_views(r@) == attack_lines_text(stamp@, combatant@, attack@, outcomes@),
{
    let mut lines: Vec<String> = Vec::new();
    let mut i: usize = 0;
    while i < outcomes.len()
        invariant
            i <= outcomes.len(),
            line_views(lines@) == attack_lines_text(stamp@, combatant@, attack@, outcomes@).take(
                i as int,
            ),
        decreases outcomes.len() - i,
    {
        let line = attack_line(stamp, combatant, attack, i + 1, &outcomes[i]);
        let ghost before = lines@;
        lines.push(line);
        assert(line_views(before).len() == i);
        i += 1;
        assert(line_views(lines@) =~= attack_lines_text(
            stamp@,
            combatant@,
            attack@,
            outcomes@,
        ).take(i as int));
    }
    assert(attack_lines_text(stamp@, combatant@, attack@, outcomes@).take(i as int)
        =~= attack_lines_text(stamp@, combatant@, attack@, outcomes@));
    lines
}

/// The difficulty of the save against `attack`: eight, the modifier of the
/// attack's ability and the proficiency bonus.
pub fn save_difficulty(combatant: &Combatant, attack: &Attack) -> (r: i64)
    ensures
        r as int == save_dc(combatant@, attack@),
{
    let modifier = combatant.monster_template.ability_modifier(attack.ability_used);
    8 + (modifier as i64) + (combatant.monster_template.pb as i64)
}

/// The line for an attack that the target saves against.
pub fn save_attack_line(stamp: &str, combatant: &Combatant, attack: &Attack, rolls: &Vec<i32>) -> (r:
    String)
    ensures
        r@ == save_attack_line_text(stamp@, combatant@, attack@, rolls@),
{
    let formula = damage_result(rolls, 0).1;
    let mut out = String::new();
    push_line_head(&mut out, stamp, combatant, attack);
    out.append(": Save DC ");
    push_int(&mut out, save_difficulty(combatant, attack) as i128);
    out.append("; Damage: ");
    out.append(formula.as_str());
    assert(out@ =~= save_attack_line_text(stamp@, combatant@, attack@, rolls@));
    out
}

/// The line for a save that the combatant makes with `ability`.
pub fn ability_save_line(stamp: &str, combatant: &Combatant, ability: Ability, die_roll: i32) -> (r:
    String)
    ensures
        r@ == ability_save_line_text(stamp@, combatant@, ability, die_roll as int),
{
    let modifier = combatant.monster_template.ability_modifier(ability);
    let mut out = String::from_str(stamp);
    out.append(": ");
    out.append(combatant.instance_name.as_str());
    out.append(" ");
    out.append(ability_name(ability));
    out.append(" save: ");
    push_int(&mut out, die_roll as i128);
    out.append(" + ");
    push_int(&mut out, modifier as i128);
    out.append(" = ");
    push_int(&mut out, (die_roll as i128) + (modifier as i128));
    assert(out@ =~= ability_save_line_text(stamp@, combatant@, ability, die_roll as int));
    out
}

/// Resolves one use of `attack` by `combatant` and reports it in `log`,
/// under the time of the call.
pub fn resolve_attack(combatant: &Combatant, attack: &Attack, log: &mut EventLog)
    ensures
        attack_resolved(old(log)@, final(log)@, combatant@, attack@),
{
    let stamp = clock_stamp();
    if attack.is_saving_throw {
        let rolls = roll_dice(attack.num_dice as i64, attack.damage_die);
        let line = save_attack_line(stamp.as_str(), combatant, attack, &rolls);
        log.append(line);
        assert(log@ == last_n(
            old(log)@.push(save_attack_line_text(stamp@, combatant@, attack@, rolls@)),
            LOG_CAPACITY as nat,
        ));
    } else {
        let outcomes = roll_attack(attack);
        let lines = attack_lines(stamp.as_str(), combatant, attack, &outcomes);
        log.append_all(&lines);
        assert(log@ == appended_all(
            old(log)@,
            attack_lines_text(stamp@, combatant@, attack@, outcomes@),
        ));
    }
}

/// Resolves a save that `combatant` makes with `ability`: a twenty-sided
/// die and the ability's modifier, reported in one line of `log` under the
/// time of the call.
pub fn resolve_save(combatant: &Combatant, ability: Ability, log: &mut EventLog)
    ensures
        save_resolved(old(log)@, final(log)@, combatant@, ability),
{
    let stamp = clock_stamp();
    let die_roll = roll_die(20);
    let line = ability_save_line(stamp.as_str(), combatant, ability, die_roll);
    log.append(line);
    assert(log@ == last_n(
        old(log)@.push(ability_save_line_text(stamp@, combatant@, ability, die_roll as int)),
        LOG_CAPACITY as nat,
    ));
}

/// Whether the log went from `before` to `after` when the combatant of
/// `live` called `name` used its attack called `attack_name`: by one use
/// of the first attack of that name by the first combatant of that name;
/// where there is no such combatant or no such attack, nothing was
/// reported.
pub open spec fn attack_used(
    live: Seq<CombatantView>,
    before: Seq<Seq<char>>,
    after: Seq<Seq<char>>,
    name: Seq<char>,
    attack_name: Seq<char>,
) -> bool {
    &&& name_absent(live, name) ==> after == before
    &&& forall|i: int| #[trigger]
        first_named(live, name, i) ==> {
            let c = live[i];
            &&& attack_absent(c.monster_template.attacks, attack_name) ==> after == before
            &&& forall|k: int| #[trigger]
                first_attack(c.monster_template.attacks, attack_name, k) ==> attack_resolved(
                    before,
                    after,
                    c,
                    c.monster_template.attacks[k],
                )
        }
}

/// Whether the log went from `before` to `after` when the combatant of
/// `live` called `name` made a save with `ability`: by one save of the
/// first combatant of that name; where there is none, nothing was reported.
pub open spec fn save_made(
    live: Seq<CombatantView>,
    before: Seq<Seq<char>>,
    after: Seq<Seq<char>>,
    name: Seq<char>,
    ability: Ability,
) -> bool {
    &&& name_absent(live, name) ==> after == before
    &&& forall|i: int| #[trigger]
        first_named(live, name, i) ==> save_resolved(before, after, live[i], ability)
}

/// The place of the first attack of `template` called `attack_name`, if
/// there is one.
pub fn find_attack(template: &Monster, attack_name: &str) -> (r: Option<usize>)
    ensures
        match r {
            Some(k) => first_attack(template@.attacks, attack_name@, k as int),
            None => attack_absent(template@.attacks, attack_name@),
        },
{
    let wanted = String::from_str(attack_name);
    let mut k: usize = 0;
    while k < template.attacks.len()
        invariant
            k <= template.attacks.len(),
            wanted@ == attack_name@,
            attack_absent(template@.attacks.take(k as int), attack_name@),
        decreases template.attacks.len() - k,
    {
        if template.attacks[k].attack_name == wanted {
            return Some(k);
        }
        k += 1;
    }
    assert(template@.attacks.take(k as int) =~= template@.attacks);
    None
}

impl Roster {
    /// The live combatant called `instance_name` uses its attack called
    /// `attack_name`, which is reported in `log`. Where nobody is called so,
    /// or the combatant has no attack of that name, nothing is reported.
    pub fn use_attack(&self, instance_name: &str, attack_name: &str, log: &mut EventLog)
        ensures
            attack_used(self@.live, old(log)@, final(log)@, instance_name@, attack_name@),
    {
        match self.find_live(instance_name) {
            None => {},
            Some(i) => {
                let combatant = &self.live[i];
                proof {
                    assert forall|j: int| first_named(self@.live, instance_name@, j) implies j
                        == i by {
                        lemma_first_named_once(self@.live, instance_name@, i as int, j);
                    }
                }
                match find_attack(&combatant.monster_template, attack_name) {
                    None => {},
                    Some(k) => {
                        let attack = &combatant.monster_template.attacks[k];
                        resolve_attack(combatant, attack, log);
                        proof {
                            let attacks = combatant@.monster_template.attacks;
                            assert(attack@ == attacks[k as int]);
                            assert forall|m: int|
                                first_attack(attacks, attack_name@, m) implies m == k by {
                                if m < k {
                                    assert(attacks.take(k as int)[m] == attacks[m]);
                                } else if k < m {
                                    assert(attacks.take(m)[k as int] == attacks[k as int]);
                                }
                            }
                        }
                    },
                }
            },
        }
    }

    /// The live combatant called `instance_name` makes a save with
    /// `ability`, which is reported in `log`. Where nobody is called so,
    /// nothing is reported.
    pub fn make_save(&self, instance_name: &str, ability: Ability, log: &mut EventLog)
        ensures
            save_made(self@.live, old(log)@, final(log)@, instance_name@, ability),
    {
        match self.find_live(instance_name) {
            None => {},
            Some(i) => {
                proof {
                    assert forall|j: int| first_named(self@.live, instance_name@, j) implies j
                        == i by {
                        lemma_first_named_once(self@.live, instance_name@, i as int, j);
                    }
                }
                resolve_save(&self.live[i], ability, log);
            },
        }
    }
}

} // verus!
