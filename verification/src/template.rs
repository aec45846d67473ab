//! Monster templates: the reference data that combatants are spawned from.

use vstd::prelude::*;

verus! {

/// One of the six abilities a monster has a modifier for.
#[derive(Clone, Copy, Debug, PartialEq, Eq, Structural)]
pub enum Ability {
    Str,
    Dex,
    Con,
    Int,
    Wis,
    Cha,
}

/// The name of an ability in writing.
pub open spec fn ability_text(ability: Ability) -> Seq<char> {
    match ability {
        Ability::Str => "str"@,
        Ability::Dex => "dex"@,
        Ability::Con => "con"@,
        Ability::Int => "int"@,
        Ability::Wis => "wis"@,
        Ability::Cha => "cha"@,
    }
}

/// The name of an ability in writing.
pub fn ability_name(ability: Ability) -> (r: &'static str)
    ensures
        r@ == ability_text(ability),
{
    match ability {
        Ability::Str => "str",
        Ability::Dex => "dex",
        Ability::Con => "con",
        Ability::Int => "int",
        Ability::Wis => "wis",
        Ability::Cha => "cha",
    }
}

/// Different abilities have different names.
pub proof fn lemma_ability_text_tells(a: Ability, b: Ability)
    requires
        ability_text(a) == ability_text(b),
    ensures
        a == b,
{
    reveal_strlit("str");
    reveal_strlit("dex");
    reveal_strlit("con");
    reveal_strlit("int");
    reveal_strlit("wis");
    reveal_strlit("cha");
    assert("str"@[0] == 's' && "dex"@[0] == 'd' && "int"@[0] == 'i' && "wis"@[0] == 'w');
    assert("con"@[0] == 'c' && "con"@[1] == 'o' && "cha"@[0] == 'c' && "cha"@[1] == 'h');
}

/// The ability that `name` is the name of, if it is one.
pub fn ability_from_name(name: &str) -> (r: Option<Ability>)
    ensures
        match r {
            Some(a) => name@ == ability_text(a),
            None => forall|a: Ability| name@ != #[trigger] ability_text(a),
        },
{
    let given = String::from_str(name);
    if given == String::from_str("str") {
        Some(Ability::Str)
    } else if given == String::from_str("dex") {
        Some(Ability::Dex)
    } else if given == String::from_str("con") {
        Some(Ability::Con)
    } else if given == String::from_str("int") {
        Some(Ability::Int)
    } else if given == String::from_str("wis") {
        Some(Ability::Wis)
    } else if given == String::from_str("cha") {
        Some(Ability::Cha)
    } else {
        None
    }
}

/// One attack a monster can make.
#[derive(Debug, PartialEq, Eq)]
pub struct Attack {
    pub attack_name: String,
    pub ability_used: Ability,
    /// Number of sides of the damage die (6 for a six-sided die).
    pub damage_die: i32,
    pub num_dice: i32,
    pub num_attacks: i32,
    /// Whether the target saves against the attack instead of the attacker
    /// rolling to hit.
    pub is_saving_throw: bool,
}

/// What an [`Attack`] holds, as mathematical values.
pub struct AttackView {
    pub attack_name: Seq<char>,
    pub ability_used: Ability,
    pub damage_die: int,
    pub num_dice: int,
    pub num_attacks: int,
    pub is_saving_throw: bool,
}

impl View for Attack {
    type V = AttackView;

    open spec fn view(&self) -> AttackView {
        AttackView {
            attack_name: self.attack_name@,
            ability_used: self.ability_used,
            damage_die: self.damage_die as int,
            num_dice: self.num_dice as int,
            num_attacks: self.num_attacks as int,
            is_saving_throw: self.is_saving_throw,
        }
    }
}

impl Clone for Attack {
    fn clone(&self) -> (r: Self)
        ensures
            r@ == self@,
    {
        Attack {
            attack_name: self.attack_name.clone(),
            ability_used: self.ability_used,
            damage_die: self.damage_die,
            num_dice: self.num_dice,
            num_attacks: self.num_attacks,
            is_saving_throw: self.is_saving_throw,
        }
    }
}

/// A monster template, keyed by its unique name.
#[derive(Debug, PartialEq, Eq)]
pub struct Monster {
    pub name: String,
    pub hp: i32,
    pub ac: i32,
    /// Proficiency bonus.
    pub pb: i32,
    pub str_mod: i32,
    pub dex_mod: i32,
    pub con_mod: i32,
    pub int_mod: i32,
    pub wis_mod: i32,
    pub cha_mod: i32,
    /// Experience awarded for killing one instance.
    pub exp: i32,
    pub attacks: Vec<Attack>,
}

/// What a [`Monster`] holds, as mathematical values.
pub struct MonsterView {
    pub name: Seq<char>,
    pub hp: int,
    pub ac: int,
    pub pb: int,
    pub str_mod: int,
    pub dex_mod: int,
    pub con_mod: int,
    pub int_mod: int,
    pub wis_mod: int,
    pub cha_mod: int,
    pub exp: int,
    pub attacks: Seq<AttackView>,
}

impl MonsterView {
    /// The modifier the template has for `ability`.
    pub open spec fn modifier(self, ability: Ability) -> int {
        match ability {
            Ability::Str => self.str_mod,
            Ability::Dex => self.dex_mod,
            Ability::Con => self.con_mod,
            Ability::Int => self.int_mod,
            Ability::Wis => self.wis_mod,
            Ability::Cha => self.cha_mod,
        }
    }
}

/// The views of a sequence of attacks, in order.
pub open spec fn attack_views(attacks: Seq<Attack>) -> Seq<AttackView> {
    attacks.map_values(|a: Attack| a@)
}

impl View for Monster {
    type V = MonsterView;

    open spec fn view(&self) -> MonsterView {
        MonsterView {
            name: self.name@,
            hp: self.hp as int,
            ac: self.ac as int,
            pb: self.pb as int,
            str_mod: self.str_mod as int,
            dex_mod: self.dex_mod as int,
            con_mod: self.con_mod as int,
            int_mod: self.int_mod as int,
            wis_mod: self.wis_mod as int,
            cha_mod: self.cha_mod as int,
            exp: self.exp as int,
            attacks: attack_views(self.attacks@),
        }
    }
}

impl Clone for Monster {
    fn clone(&self) -> (r: Self)
        ensures
            r@ == self@,
    {
        let mut attacks: Vec<Attack> = Vec::new();
        let mut i: usize = 0;
        while i < self.attacks.len()
            invariant
                i <= self.attacks.len(),
                attack_views(attacks@) == attack_views(self.attacks@).take(i as int),
            decreases self.attacks.len() - i,
        {
            let a = self.attacks[i].clone();
            let ghost prev = attacks@;
            attacks.push(a);
            assert(attack_views(prev).len() == i);
            i += 1;
            assert(attack_views(attacks@) =~= attack_views(self.attacks@).take(i as int));
        }
        assert(attack_views(attacks@) =~= attack_views(self.attacks@));
        Monster {
            name: self.name.clone(),
            hp: self.hp,
            ac: self.ac,
            pb: self.pb,
            str_mod: self.str_mod,
            dex_mod: self.dex_mod,
            con_mod: self.con_mod,
            int_mod: self.int_mod,
            wis_mod: self.wis_mod,
            cha_mod: self.cha_mod,
            exp: self.exp,
            attacks,
        }
    }
}

impl Monster {
    /// The template's modifier for `ability`.
    pub fn ability_modifier(&self, ability: Ability) -> (r: i32)
        ensures
            r as int == self@.modifier(ability),
    {
        match ability {
            Ability::Str => self.str_mod,
            Ability::Dex => self.dex_mod,
            Ability::Con => self.con_mod,
            Ability::Int => self.int_mod,
            Ability::Wis => self.wis_mod,
            Ability::Cha => self.cha_mod,
        }
    }
}

/// Appends `new_attack` to the monster's attacks; nothing else changes.
pub fn add_attack_to_monster(monster: &mut Monster, new_attack: Attack)
    ensures
        final(monster)@ == (MonsterView {
            attacks: old(monster)@.attacks.push(new_attack@),
            ..old(monster)@
        }),
{
    monster.attacks.push(new_attack);
    assert(attack_views(monster.attacks@) =~= attack_views(old(monster).attacks@).push(
        new_attack@,
    ));
}

/// Removes every attack called `attack_name` from the monster; the other
/// attacks keep their order, and nothing else changes.
pub fn delete_attack_from_monster(monster: &mut Monster, attack_name: &str)
    ensures
        final(monster)@ == (MonsterView {
            attacks: old(monster)@.attacks.filter(
                |a: AttackView| a.attack_name != attack_name@,
            ),
            ..old(monster)@
        }),
{
    let ghost keep = |a: AttackView| a.attack_name != attack_name@;
    let ghost before = attack_views(monster.attacks@);
    let unwanted = String::from_str(attack_name);
    let mut kept: Vec<Attack> = Vec::new();
    let mut i: usize = 0;
    proof {
        assert(before.take(0) =~= Seq::<AttackView>::empty());
        before.take(0).lemma_filter_len(keep);
    }
    while i < monster.attacks.len()
        invariant
            i <= monster.attacks.len(),
            *monster == *old(monster),
            before == attack_views(monster.attacks@),
            keep == |a: AttackView| a.attack_name != attack_name@,
            attack_views(kept@) == before.take(i as int).filter(keep),
            unwanted@ == attack_name@,
        decreases monster.attacks.len() - i,
    {
        proof {
            assert(before.take(i + 1) =~= before.take(i as int).push(before[i as int]));
            before.take(i as int).lemma_filter_push(before[i as int], keep);
        }
        if !(monster.attacks[i].attack_name == unwanted) {
            let a = monster.attacks[i].clone();
            assert(a@ == before[i as int]);
            assert(keep(before[i as int]));
            kept.push(a);
            assert(attack_views(kept@) =~= before.take(i as int).filter(keep).push(
                before[i as int],
            ));
        }
        i += 1;
    }
    assert(before.take(i as int) =~= before);
    monster.attacks = kept;
}

} // verus!
