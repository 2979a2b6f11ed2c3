//! `export_descr_unit.txt`: the units, their soldiers, weapons and
//! defences.
//!
//! Decimal values (the speed modifier and the lethality of weapons) are
//! kept as their text, known to be a number that `str::parse::<f64>`
//! accepts. Formations and discipline are kept as the names the file gives.
use vstd::prelude::*;

use crate::chars::{
    after_word, clean_lines, clean_lines_of, eq_str, fields, split_fields, split_word, starts_with,
    starts_with_str, string_of, strings_of, subvec, views,
};
use crate::numbers::{i32_text, is_float_chars, is_float_text, parse_i32, parse_u32, u32_text};
use crate::parse::manifest::ParserMode;
use crate::parse::ParseError;
use crate::records::{
    entries_of, entries_view, group_by_header, group_lines, group_views, leads_with, lemma_map_all_err,
    lemma_map_all_step, line_value, map_all, opt_string_view, opt_view, record_entries, value_of,
    Entries,
};

verus! {

/// An attribute of a unit.
#[derive(Debug, PartialEq, Eq)]
pub enum Attr {
    SeaFaring,
    HideForest,
    HideImprovedForest,
    HideLongGrass,
    HideAnywhere,
    CanSap,
    FrightenFoot,
    FrightenMounted,
    CanRunAmok,
    GeneralUnit,
    GeneralUnitUpgrade(String),
    CantabrianCircle,
    NoCustom,
    Command,
    ScreechingWomen,
    MercenaryUnit,
    Hardy,
    VeryHardy,
    ExtremelyHardy,
    Inexhaustible,
    Warcry,
    Druid,
    PowerCharge,
    CanSwim,
    IsPeasant,
    CanHorde,
    LegionaryName,
    InfiniteAmmo,
    NonScaling,
    FreeUpkeep,
    CanWithdraw,
    FormedCharge,
    Knight,
    Gunpowder,
    Stakes,
    FireByRank,
    NoSkirmish,
    Unique,
    UiOrAiHint,
    Unknown,
}

/// An attribute as a mathematical value: the event of a general's upgrade
/// as a character sequence, every other attribute as it is.
pub enum AttrView {
    Plain(Attr),
    GeneralUnitUpgrade(Seq<char>),
}

pub open spec fn attr_view(a: Attr) -> AttrView {
    match a {
        Attr::GeneralUnitUpgrade(e) => AttrView::GeneralUnitUpgrade(e@),
        _ => AttrView::Plain(a),
    }
}

/// An attribute of a weapon.
#[derive(Debug, Clone, Copy, PartialEq, Eq, Structural)]
pub enum WeaponAttr {
    ArmorPiercing,
    BodyPiercing,
    Spear,
    LongPike,
    ShortPike,
    LightSpear,
    Precharge,
    Thrown,
    Launching,
    Area,
    SpearBonus(u32),
    Fire,
    Unknown,
}

/// The names of the attributes that are hints to the interface or the AI.
pub open spec fn is_hint(s: Seq<char>) -> bool {
    ||| s == "guncavalry"@
    ||| s == "crossbow"@
    ||| s == "gunmen"@
    ||| s == "peasant"@
    ||| s == "pike"@
    ||| s == "incendiary"@
    ||| s == "artillery"@
    ||| s == "cannon"@
    ||| s == "rocket"@
    ||| s == "mortar"@
    ||| s == "explode"@
    ||| s == "standard"@
    ||| s == "wagon_fort"@
    ||| s == "start_not_skirmishing"@
}

/// The attribute that a name denotes, other than a general's upgrade.
pub open spec fn named_attr(s: Seq<char>) -> Attr {
    if s == "sea_faring"@ { Attr::SeaFaring }
    else if s == "hide_forest"@ { Attr::HideForest }
    else if s == "hide_improved_forest"@ { Attr::HideImprovedForest }
    else if s == "hide_long_grass"@ { Attr::HideLongGrass }
    else if s == "hide_anywhere"@ { Attr::HideAnywhere }
    else if s == "can_sap"@ { Attr::CanSap }
    else if s == "frighten_foot"@ { Attr::FrightenFoot }
    else if s == "frighten_mounted"@ { Attr::FrightenMounted }
    else if s == "can_run_amok"@ { Attr::CanRunAmok }
    else if s == "general_unit"@ { Attr::GeneralUnit }
    else if s == "cantabrian_circle"@ { Attr::CantabrianCircle }
    else if s == "no_custom"@ { Attr::NoCustom }
    else if s == "command"@ { Attr::Command }
    else if s == "screeching_women"@ { Attr::ScreechingWomen }
    else if s == "mercenary_unit"@ { Attr::MercenaryUnit }
    else if s == "hardy"@ { Attr::Hardy }
    else if s == "very_hardy"@ { Attr::VeryHardy }
    else if s == "extremely_hardy"@ { Attr::ExtremelyHardy }
    else if s == "inexhaustible"@ { Attr::Inexhaustible }
    else if s == "warcry"@ { Attr::Warcry }
    else if s == "druid"@ { Attr::Druid }
    else if s == "power_charge"@ { Attr::PowerCharge }
    else if s == "can_swim"@ { Attr::CanSwim }
    else if s == "is_peasant"@ { Attr::IsPeasant }
    else if s == "can_horde"@ { Attr::CanHorde }
    else if s == "legionary_name"@ { Attr::LegionaryName }
    else if s == "infinite_ammo"@ { Attr::InfiniteAmmo }
    else if s == "non_scaling"@ { Attr::NonScaling }
    else if s == "free_upkeep_unit"@ { Attr::FreeUpkeep }
    else if s == "can_withdraw"@ { Attr::CanWithdraw }
    else if s == "can_formed_charge"@ { Attr::FormedCharge }
    else if s == "knight"@ { Attr::Knight }
    else if s == "gunpowder_unit"@ { Attr::Gunpowder }
    else if s == "stakes"@ { Attr::Stakes }
    else if s == "fire_by_rank"@ { Attr::FireByRank }
    else if s == "cannot_skirmish"@ { Attr::NoSkirmish }
    else if s == "unique_unit"@ { Attr::Unique }
    else if is_hint(s) { Attr::UiOrAiHint }
    else { Attr::Unknown }
}

/// Each known attribute name reads as the attribute of that name:
/// `sea_faring` as sea faring, `warcry` as a war cry, `power_charge` as a
/// power charge, and so on for every name the data files use.
pub proof fn law_attribute_names()
    ensures
        attr_of("sea_faring"@) == AttrView::Plain(Attr::SeaFaring),
        attr_of("hide_forest"@) == AttrView::Plain(Attr::HideForest),
        attr_of("hide_improved_forest"@) == AttrView::Plain(Attr::HideImprovedForest),
        attr_of("hide_long_grass"@) == AttrView::Plain(Attr::HideLongGrass),
        attr_of("hide_anywhere"@) == AttrView::Plain(Attr::HideAnywhere),
        attr_of("can_sap"@) == AttrView::Plain(Attr::CanSap),
        attr_of("frighten_foot"@) == AttrView::Plain(Attr::FrightenFoot),
        attr_of("frighten_mounted"@) == AttrView::Plain(Attr::FrightenMounted),
        attr_of("can_run_amok"@) == AttrView::Plain(Attr::CanRunAmok),
        attr_of("general_unit"@) == AttrView::Plain(Attr::GeneralUnit),
        attr_of("cantabrian_circle"@) == AttrView::Plain(Attr::CantabrianCircle),
        attr_of("no_custom"@) == AttrView::Plain(Attr::NoCustom),
        attr_of("command"@) == AttrView::Plain(Attr::Command),
        attr_of("screeching_women"@) == AttrView::Plain(Attr::ScreechingWomen),
        attr_of("mercenary_unit"@) == AttrView::Plain(Attr::MercenaryUnit),
        attr_of("hardy"@) == AttrView::Plain(Attr::Hardy),
        attr_of("very_hardy"@) == AttrView::Plain(Attr::VeryHardy),
        attr_of("extremely_hardy"@) == AttrView::Plain(Attr::ExtremelyHardy),
        attr_of("inexhaustible"@) == AttrView::Plain(Attr::Inexhaustible),
        attr_of("warcry"@) == AttrView::Plain(Attr::Warcry),
        attr_of("druid"@) == AttrView::Plain(Attr::Druid),
        attr_of("power_charge"@) == AttrView::Plain(Attr::PowerCharge),
        attr_of("can_swim"@) == AttrView::Plain(Attr::CanSwim),
        attr_of("is_peasant"@) == AttrView::Plain(Attr::IsPeasant),
        attr_of("can_horde"@) == AttrView::Plain(Attr::CanHorde),
        attr_of("legionary_name"@) == AttrView::Plain(Attr::LegionaryName),
        attr_of("infinite_ammo"@) == AttrView::Plain(Attr::InfiniteAmmo),
        attr_of("non_scaling"@) == AttrView::Plain(Attr::NonScaling),
        attr_of("free_upkeep_unit"@) == AttrView::Plain(Attr::FreeUpkeep),
        attr_of("can_withdraw"@) == AttrView::Plain(Attr::CanWithdraw),
        attr_of("can_formed_charge"@) == AttrView::Plain(Attr::FormedCharge),
        attr_of("knight"@) == AttrView::Plain(Attr::Knight),
        attr_of("gunpowder_unit"@) == AttrView::Plain(Attr::Gunpowder),
        attr_of("stakes"@) == AttrView::Plain(Attr::Stakes),
        attr_of("fire_by_rank"@) == AttrView::Plain(Attr::FireByRank),
        attr_of("cannot_skirmish"@) == AttrView::Plain(Attr::NoSkirmish),
        attr_of("unique_unit"@) == AttrView::Plain(Attr::Unique),
{
    reveal_strlit("sea_faring");
    reveal_strlit("hide_forest");
    reveal_strlit("hide_improved_forest");
    reveal_strlit("hide_long_grass");
    reveal_strlit("hide_anywhere");
    reveal_strlit("can_sap");
    reveal_strlit("frighten_foot");
    reveal_strlit("frighten_mounted");
    reveal_strlit("can_run_amok");
    reveal_strlit("general_unit");
    reveal_strlit("cantabrian_circle");
    reveal_strlit("no_custom");
    reveal_strlit("command");
    reveal_strlit("screeching_women");
    reveal_strlit("mercenary_unit");
    reveal_strlit("hardy");
    reveal_strlit("very_hardy");
    reveal_strlit("extremely_hardy");
    reveal_strlit("inexhaustible");
    reveal_strlit("warcry");
    reveal_strlit("druid");
    reveal_strlit("power_charge");
    reveal_strlit("can_swim");
    reveal_strlit("is_peasant");
    reveal_strlit("can_horde");
    reveal_strlit("legionary_name");
    reveal_strlit("infinite_ammo");
    reveal_strlit("non_scaling");
    reveal_strlit("free_upkeep_unit");
    reveal_strlit("can_withdraw");
    reveal_strlit("can_formed_charge");
    reveal_strlit("knight");
    reveal_strlit("gunpowder_unit");
    reveal_strlit("stakes");
    reveal_strlit("fire_by_rank");
    reveal_strlit("cannot_skirmish");
    reveal_strlit("unique_unit");
    assert("hide_forest"@ != "sea_faring"@) by {
        assert("hide_forest"@.len() != "sea_faring"@.len());
    }
    assert("hide_improved_forest"@ != "sea_faring"@) by {
        assert("hide_improved_forest"@.len() != "sea_faring"@.len());
    }
    assert("hide_improved_forest"@ != "hide_forest"@) by {
        assert("hide_improved_forest"@.len() != "hide_forest"@.len());
    }
    assert("hide_long_grass"@ != "sea_faring"@) by {
        assert("hide_long_grass"@.len() != "sea_faring"@.len());
    }
    assert("hide_long_grass"@ != "hide_forest"@) by {
        assert("hide_long_grass"@.len() != "hide_forest"@.len());
    }
    assert("hide_long_grass"@ != "hide_improved_forest"@) by {
        assert("hide_long_grass"@.len() != "hide_improved_forest"@.len());
    }
    assert("hide_anywhere"@ != "sea_faring"@) by {
        assert("hide_anywhere"@.len() != "sea_faring"@.len());
    }
    assert("hide_anywhere"@ != "hide_forest"@) by {
        assert("hide_anywhere"@.len() != "hide_forest"@.len());
    }
    assert("hide_anywhere"@ != "hide_improved_forest"@) by {
        assert("hide_anywhere"@.len() != "hide_improved_forest"@.len());
    }
    assert("hide_anywhere"@ != "hide_long_grass"@) by {
        assert("hide_anywhere"@.len() != "hide_long_grass"@.len());
    }
    assert("can_sap"@ != "sea_faring"@) by {
        assert("can_sap"@.len() != "sea_faring"@.len());
    }
    assert("can_sap"@ != "hide_forest"@) by {
        assert("can_sap"@.len() != "hide_forest"@.len());
    }
    assert("can_sap"@ != "hide_improved_forest"@) by {
        assert("can_sap"@.len() != "hide_improved_forest"@.len());
    }
    assert("can_sap"@ != "hide_long_grass"@) by {
        assert("can_sap"@.len() != "hide_long_grass"@.len());
    }
    assert("can_sap"@ != "hide_anywhere"@) by {
        assert("can_sap"@.len() != "hide_anywhere"@.len());
    }
    assert("frighten_foot"@ != "sea_faring"@) by {
        assert("frighten_foot"@.len() != "sea_faring"@.len());
    }
    assert("frighten_foot"@ != "hide_forest"@) by {
        assert("frighten_foot"@.len() != "hide_forest"@.len());
    }
    assert("frighten_foot"@ != "hide_improved_forest"@) by {
        assert("frighten_foot"@.len() != "hide_improved_forest"@.len());
    }
    assert("frighten_foot"@ != "hide_long_grass"@) by {
        assert("frighten_foot"@.len() != "hide_long_grass"@.len());
    }
    assert("frighten_foot"@ != "hide_anywhere"@) by {
        assert("frighten_foot"@[0] != "hide_anywhere"@[0]);
    }
    assert("frighten_foot"@ != "can_sap"@) by {
        assert("frighten_foot"@.len() != "can_sap"@.len());
    }
    assert("frighten_mounted"@ != "sea_faring"@) by {
        assert("frighten_mounted"@.len() != "sea_faring"@.len());
    }
    assert("frighten_mounted"@ != "hide_forest"@) by {
        assert("frighten_mounted"@.len() != "hide_forest"@.len());
    }
    assert("frighten_mounted"@ != "hide_improved_forest"@) by {
        assert("frighten_mounted"@.len() != "hide_improved_forest"@.len());
    }
    assert("frighten_mounted"@ != "hide_long_grass"@) by {
        assert("frighten_mounted"@.len() != "hide_long_grass"@.len());
    }
    assert("frighten_mounted"@ != "hide_anywhere"@) by {
        assert("frighten_mounted"@.len() != "hide_anywhere"@.len());
    }
    assert("frighten_mounted"@ != "can_sap"@) by {
        assert("frighten_mounted"@.len() != "can_sap"@.len());
    }
    assert("frighten_mounted"@ != "frighten_foot"@) by {
        assert("frighten_mounted"@.len() != "frighten_foot"@.len());
    }
    assert("can_run_amok"@ != "sea_faring"@) by {
        assert("can_run_amok"@.len() != "sea_faring"@.len());
    }
    assert("can_run_amok"@ != "hide_forest"@) by {
        assert("can_run_amok"@.len() != "hide_forest"@.len());
    }
    assert("can_run_amok"@ != "hide_improved_forest"@) by {
        assert("can_run_amok"@.len() != "hide_improved_forest"@.len());
    }
    assert("can_run_amok"@ != "hide_long_grass"@) by {
        assert("can_run_amok"@.len() != "hide_long_grass"@.len());
    }
    assert("can_run_amok"@ != "hide_anywhere"@) by {
        assert("can_run_amok"@.len() != "hide_anywhere"@.len());
    }
    assert("can_run_amok"@ != "can_sap"@) by {
        assert("can_run_amok"@.len() != "can_sap"@.len());
    }
    assert("can_run_amok"@ != "frighten_foot"@) by {
        assert("can_run_amok"@.len() != "frighten_foot"@.len());
    }
    assert("can_run_amok"@ != "frighten_mounted"@) by {
        assert("can_run_amok"@.len() != "frighten_mounted"@.len());
    }
    assert("general_unit"@ != "sea_faring"@) by {
        assert("general_unit"@.len() != "sea_faring"@.len());
    }
    assert("general_unit"@ != "hide_forest"@) by {
        assert("general_unit"@.len() != "hide_forest"@.len());
    }
    assert("general_unit"@ != "hide_improved_forest"@) by {
        assert("general_unit"@.len() != "hide_improved_forest"@.len());
    }
    assert("general_unit"@ != "hide_long_grass"@) by {
        assert("general_unit"@.len() != "hide_long_grass"@.len());
    }
    assert("general_unit"@ != "hide_anywhere"@) by {
        assert("general_unit"@.len() != "hide_anywhere"@.len());
    }
    assert("general_unit"@ != "can_sap"@) by {
        assert("general_unit"@.len() != "can_sap"@.len());
    }
    assert("general_unit"@ != "frighten_foot"@) by {
        assert("general_unit"@.len() != "frighten_foot"@.len());
    }
    assert("general_unit"@ != "frighten_mounted"@) by {
        assert("general_unit"@.len() != "frighten_mounted"@.len());
    }
    assert("general_unit"@ != "can_run_amok"@) by {
        assert("general_unit"@[0] != "can_run_amok"@[0]);
    }
    assert("cantabrian_circle"@ != "sea_faring"@) by {
        assert("cantabrian_circle"@.len() != "sea_faring"@.len());
    }
    assert("cantabrian_circle"@ != "hide_forest"@) by {
        assert("cantabrian_circle"@.len() != "hide_forest"@.len());
    }
    assert("cantabrian_circle"@ != "hide_improved_forest"@) by {
        assert("cantabrian_circle"@.len() != "hide_improved_forest"@.len());
    }
    assert("cantabrian_circle"@ != "hide_long_grass"@) by {
        assert("cantabrian_circle"@.len() != "hide_long_grass"@.len());
    }
    assert("cantabrian_circle"@ != "hide_anywhere"@) by {
        assert("cantabrian_circle"@.len() != "hide_anywhere"@.len());
    }
    assert("cantabrian_circle"@ != "can_sap"@) by {
        assert("cantabrian_circle"@.len() != "can_sap"@.len());
    }
    assert("cantabrian_circle"@ != "frighten_foot"@) by {
        assert("cantabrian_circle"@.len() != "frighten_foot"@.len());
    }
    assert("cantabrian_circle"@ != "frighten_mounted"@) by {
        assert("cantabrian_circle"@.len() != "frighten_mounted"@.len());
    }
    assert("cantabrian_circle"@ != "can_run_amok"@) by {
        assert("cantabrian_circle"@.len() != "can_run_amok"@.len());
    }
    assert("cantabrian_circle"@ != "general_unit"@) by {
        assert("cantabrian_circle"@.len() != "general_unit"@.len());
    }
    assert("no_custom"@ != "sea_faring"@) by {
        assert("no_custom"@.len() != "sea_faring"@.len());
    }
    assert("no_custom"@ != "hide_forest"@) by {
        assert("no_custom"@.len() != "hide_forest"@.len());
    }
    assert("no_custom"@ != "hide_improved_forest"@) by {
        assert("no_custom"@.len() != "hide_improved_forest"@.len());
    }
    assert("no_custom"@ != "hide_long_grass"@) by {
        assert("no_custom"@.len() != "hide_long_grass"@.len());
    }
    assert("no_custom"@ != "hide_anywhere"@) by {
        assert("no_custom"@.len() != "hide_anywhere"@.len());
    }
    assert("no_custom"@ != "can_sap"@) by {
        assert("no_custom"@.len() != "can_sap"@.len());
    }
    assert("no_custom"@ != "frighten_foot"@) by {
        assert("no_custom"@.len() != "frighten_foot"@.len());
    }
    assert("no_custom"@ != "frighten_mounted"@) by {
        assert("no_custom"@.len() != "frighten_mounted"@.len());
    }
    assert("no_custom"@ != "can_run_amok"@) by {
        assert("no_custom"@.len() != "can_run_amok"@.len());
    }
    assert("no_custom"@ != "general_unit"@) by {
        assert("no_custom"@.len() != "general_unit"@.len());
    }
    assert("no_custom"@ != "cantabrian_circle"@) by {
        assert("no_custom"@.len() != "cantabrian_circle"@.len());
    }
    assert("command"@ != "sea_faring"@) by {
        assert("command"@.len() != "sea_faring"@.len());
    }
    assert("command"@ != "hide_forest"@) by {
        assert("command"@.len() != "hide_forest"@.len());
    }
    assert("command"@ != "hide_improved_forest"@) by {
        assert("command"@.len() != "hide_improved_forest"@.len());
    }
    assert("command"@ != "hide_long_grass"@) by {
        assert("command"@.len() != "hide_long_grass"@.len());
    }
    assert("command"@ != "hide_anywhere"@) by {
        assert("command"@.len() != "hide_anywhere"@.len());
    }
    assert("command"@ != "can_sap"@) by {
        assert("command"@[1] != "can_sap"@[1]);
    }
    assert("command"@ != "frighten_foot"@) by {
        assert("command"@.len() != "frighten_foot"@.len());
    }
    assert("command"@ != "frighten_mounted"@) by {
        assert("command"@.len() != "frighten_mounted"@.len());
    }
    assert("command"@ != "can_run_amok"@) by {
        assert("command"@.len() != "can_run_amok"@.len());
    }
    assert("command"@ != "general_unit"@) by {
        assert("command"@.len() != "general_unit"@.len());
    }
    assert("command"@ != "cantabrian_circle"@) by {
        assert("command"@.len() != "cantabrian_circle"@.len());
    }
    assert("command"@ != "no_custom"@) by {
        assert("command"@.len() != "no_custom"@.len());
    }
    assert("screeching_women"@ != "sea_faring"@) by {
        assert("screeching_women"@.len() != "sea_faring"@.len());
    }
    assert("screeching_women"@ != "hide_forest"@) by {
        assert("screeching_women"@.len() != "hide_forest"@.len());
    }
    assert("screeching_women"@ != "hide_improved_forest"@) by {
        assert("screeching_women"@.len() != "hide_improved_forest"@.len());
    }
    assert("screeching_women"@ != "hide_long_grass"@) by {
        assert("screeching_women"@.len() != "hide_long_grass"@.len());
    }
    assert("screeching_women"@ != "hide_anywhere"@) by {
        assert("screeching_women"@.len() != "hide_anywhere"@.len());
    }
    assert("screeching_women"@ != "can_sap"@) by {
        assert("screeching_women"@.len() != "can_sap"@.len());
    }
    assert("screeching_women"@ != "frighten_foot"@) by {
        assert("screeching_women"@.len() != "frighten_foot"@.len());
    }
    assert("screeching_women"@ != "frighten_mounted"@) by {
        assert("screeching_women"@[0] != "frighten_mounted"@[0]);
    }
    assert("screeching_women"@ != "can_run_amok"@) by {
        assert("screeching_women"@.len() != "can_run_amok"@.len());
    }
    assert("screeching_women"@ != "general_unit"@) by {
        assert("screeching_women"@.len() != "general_unit"@.len());
    }
    assert("screeching_women"@ != "cantabrian_circle"@) by {
        assert("screeching_women"@.len() != "cantabrian_circle"@.len());
    }
    assert("screeching_women"@ != "no_custom"@) by {
        assert("screeching_women"@.len() != "no_custom"@.len());
    }
    assert("screeching_women"@ != "command"@) by {
        assert("screeching_women"@.len() != "command"@.len());
    }
    assert("mercenary_unit"@ != "sea_faring"@) by {
        assert("mercenary_unit"@.len() != "sea_faring"@.len());
    }
    assert("mercenary_unit"@ != "hide_forest"@) by {
        assert("mercenary_unit"@.len() != "hide_forest"@.len());
    }
    assert("mercenary_unit"@ != "hide_improved_forest"@) by {
        assert("mercenary_unit"@.len() != "hide_improved_forest"@.len());
    }
    assert("mercenary_unit"@ != "hide_long_grass"@) by {
        assert("mercenary_unit"@.len() != "hide_long_grass"@.len());
    }
    assert("mercenary_unit"@ != "hide_anywhere"@) by {
        assert("mercenary_unit"@.len() != "hide_anywhere"@.len());
    }
    assert("mercenary_unit"@ != "can_sap"@) by {
        assert("mercenary_unit"@.len() != "can_sap"@.len());
    }
    assert("mercenary_unit"@ != "frighten_foot"@) by {
        assert("mercenary_unit"@.len() != "frighten_foot"@.len());
    }
    assert("mercenary_unit"@ != "frighten_mounted"@) by {
        assert("mercenary_unit"@.len() != "frighten_mounted"@.len());
    }
    assert("mercenary_unit"@ != "can_run_amok"@) by {
        assert("mercenary_unit"@.len() != "can_run_amok"@.len());
    }
    assert("mercenary_unit"@ != "general_unit"@) by {
        assert("mercenary_unit"@.len() != "general_unit"@.len());
    }
    assert("mercenary_unit"@ != "cantabrian_circle"@) by {
        assert("mercenary_unit"@.len() != "cantabrian_circle"@.len());
    }
    assert("mercenary_unit"@ != "no_custom"@) by {
        assert("mercenary_unit"@.len() != "no_custom"@.len());
    }
    assert("mercenary_unit"@ != "command"@) by {
        assert("mercenary_unit"@.len() != "command"@.len());
    }
    assert("mercenary_unit"@ != "screeching_women"@) by {
        assert("mercenary_unit"@.len() != "screeching_women"@.len());
    }
    assert("hardy"@ != "sea_faring"@) by {
        assert("hardy"@.len() != "sea_faring"@.len());
    }
    assert("hardy"@ != "hide_forest"@) by {
        assert("hardy"@.len() != "hide_forest"@.len());
    }
    assert("hardy"@ != "hide_improved_forest"@) by {
        assert("hardy"@.len() != "hide_improved_forest"@.len());
    }
    assert("hardy"@ != "hide_long_grass"@) by {
        assert("hardy"@.len() != "hide_long_grass"@.len());
    }
    assert("hardy"@ != "hide_anywhere"@) by {
        assert("hardy"@.len() != "hide_anywhere"@.len());
    }
    assert("hardy"@ != "can_sap"@) by {
        assert("hardy"@.len() != "can_sap"@.len());
    }
    assert("hardy"@ != "frighten_foot"@) by {
        assert("hardy"@.len() != "frighten_foot"@.len());
    }
    assert("hardy"@ != "frighten_mounted"@) by {
        assert("hardy"@.len() != "frighten_mounted"@.len());
    }
    assert("hardy"@ != "can_run_amok"@) by {
        assert("hardy"@.len() != "can_run_amok"@.len());
    }
    assert("hardy"@ != "general_unit"@) by {
        assert("hardy"@.len() != "general_unit"@.len());
    }
    assert("hardy"@ != "cantabrian_circle"@) by {
        assert("hardy"@.len() != "cantabrian_circle"@.len());
    }
    assert("hardy"@ != "no_custom"@) by {
        assert("hardy"@.len() != "no_custom"@.len());
    }
    assert("hardy"@ != "command"@) by {
        assert("hardy"@.len() != "command"@.len());
    }
    assert("hardy"@ != "screeching_women"@) by {
        assert("hardy"@.len() != "screeching_women"@.len());
    }
    assert("hardy"@ != "mercenary_unit"@) by {
        assert("hardy"@.len() != "mercenary_unit"@.len());
    }
    assert("very_hardy"@ != "sea_faring"@) by {
        assert("very_hardy"@[0] != "sea_faring"@[0]);
    }
    assert("very_hardy"@ != "hide_forest"@) by {
        assert("very_hardy"@.len() != "hide_forest"@.len());
    }
    assert("very_hardy"@ != "hide_improved_forest"@) by {
        assert("very_hardy"@.len() != "hide_improved_forest"@.len());
    }
    assert("very_hardy"@ != "hide_long_grass"@) by {
        assert("very_hardy"@.len() != "hide_long_grass"@.len());
    }
    assert("very_hardy"@ != "hide_anywhere"@) by {
        assert("very_hardy"@.len() != "hide_anywhere"@.len());
    }
    assert("very_hardy"@ != "can_sap"@) by {
        assert("very_hardy"@.len() != "can_sap"@.len());
    }
    assert("very_hardy"@ != "frighten_foot"@) by {
        assert("very_hardy"@.len() != "frighten_foot"@.len());
    }
    assert("very_hardy"@ != "frighten_mounted"@) by {
        assert("very_hardy"@.len() != "frighten_mounted"@.len());
    }
    assert("very_hardy"@ != "can_run_amok"@) by {
        assert("very_hardy"@.len() != "can_run_amok"@.len());
    }
    assert("very_hardy"@ != "general_unit"@) by {
        assert("very_hardy"@.len() != "general_unit"@.len());
    }
    assert("very_hardy"@ != "cantabrian_circle"@) by {
        assert("very_hardy"@.len() != "cantabrian_circle"@.len());
    }
    assert("very_hardy"@ != "no_custom"@) by {
        assert("very_hardy"@.len() != "no_custom"@.len());
    }
    assert("very_hardy"@ != "command"@) by {
        assert("very_hardy"@.len() != "command"@.len());
    }
    assert("very_hardy"@ != "screeching_women"@) by {
        assert("very_hardy"@.len() != "screeching_women"@.len());
    }
    assert("very_hardy"@ != "mercenary_unit"@) by {
        assert("very_hardy"@.len() != "mercenary_unit"@.len());
    }
    assert("very_hardy"@ != "hardy"@) by {
        assert("very_hardy"@.len() != "hardy"@.len());
    }
    assert("extremely_hardy"@ != "sea_faring"@) by {
        assert("extremely_hardy"@.len() != "sea_faring"@.len());
    }
    assert("extremely_hardy"@ != "hide_forest"@) by {
        assert("extremely_hardy"@.len() != "hide_forest"@.len());
    }
    assert("extremely_hardy"@ != "hide_improved_forest"@) by {
        assert("extremely_hardy"@.len() != "hide_improved_forest"@.len());
    }
    assert("extremely_hardy"@ != "hide_long_grass"@) by {
        assert("extremely_hardy"@[0] != "hide_long_grass"@[0]);
    }
    assert("extremely_hardy"@ != "hide_anywhere"@) by {
        assert("extremely_hardy"@.len() != "hide_anywhere"@.len());
    }
    assert("extremely_hardy"@ != "can_sap"@) by {
        assert("extremely_hardy"@.len() != "can_sap"@.len());
    }
    assert("extremely_hardy"@ != "frighten_foot"@) by {
        assert("extremely_hardy"@.len() != "frighten_foot"@.len());
    }
    assert("extremely_hardy"@ != "frighten_mounted"@) by {
        assert("extremely_hardy"@.len() != "frighten_mounted"@.len());
    }
    assert("extremely_hardy"@ != "can_run_amok"@) by {
        assert("extremely_hardy"@.len() != "can_run_amok"@.len());
    }
    assert("extremely_hardy"@ != "general_unit"@) by {
        assert("extremely_hardy"@.len() != "general_unit"@.len());
    }
    assert("extremely_hardy"@ != "cantabrian_circle"@) by {
        assert("extremely_hardy"@.len() != "cantabrian_circle"@.len());
    }
    assert("extremely_hardy"@ != "no_custom"@) by {
        assert("extremely_hardy"@.len() != "no_custom"@.len());
    }
    assert("extremely_hardy"@ != "command"@) by {
        assert("extremely_hardy"@.len() != "command"@.len());
    }
    assert("extremely_hardy"@ != "screeching_women"@) by {
        assert("extremely_hardy"@.len() != "screeching_women"@.len());
    }
    assert("extremely_hardy"@ != "mercenary_unit"@) by {
        assert("extremely_hardy"@.len() != "mercenary_unit"@.len());
    }
    assert("extremely_hardy"@ != "hardy"@) by {
        assert("extremely_hardy"@.len() != "hardy"@.len());
    }
    assert("extremely_hardy"@ != "very_hardy"@) by {
        assert("extremely_hardy"@.len() != "very_hardy"@.len());
    }
    assert("inexhaustible"@ != "sea_faring"@) by {
        assert("inexhaustible"@.len() != "sea_faring"@.len());
    }
    assert("inexhaustible"@ != "hide_forest"@) by {
        assert("inexhaustible"@.len() != "hide_forest"@.len());
    }
    assert("inexhaustible"@ != "hide_improved_forest"@) by {
        assert("inexhaustible"@.len() != "hide_improved_forest"@.len());
    }
    assert("inexhaustible"@ != "hide_long_grass"@) by {
        assert("inexhaustible"@.len() != "hide_long_grass"@.len());
    }
    assert("inexhaustible"@ != "hide_anywhere"@) by {
        assert("inexhaustible"@[0] != "hide_anywhere"@[0]);
    }
    assert("inexhaustible"@ != "can_sap"@) by {
        assert("inexhaustible"@.len() != "can_sap"@.len());
    }
    assert("inexhaustible"@ != "frighten_foot"@) by {
        assert("inexhaustible"@[0] != "frighten_foot"@[0]);
    }
    assert("inexhaustible"@ != "frighten_mounted"@) by {
        assert("inexhaustible"@.len() != "frighten_mounted"@.len());
    }
    assert("inexhaustible"@ != "can_run_amok"@) by {
        assert("inexhaustible"@.len() != "can_run_amok"@.len());
    }
    assert("inexhaustible"@ != "general_unit"@) by {
        assert("inexhaustible"@.len() != "general_unit"@.len());
    }
    assert("inexhaustible"@ != "cantabrian_circle"@) by {
        assert("inexhaustible"@.len() != "cantabrian_circle"@.len());
    }
    assert("inexhaustible"@ != "no_custom"@) by {
        assert("inexhaustible"@.len() != "no_custom"@.len());
    }
    assert("inexhaustible"@ != "command"@) by {
        assert("inexhaustible"@.len() != "command"@.len());
    }
    assert("inexhaustible"@ != "screeching_women"@) by {
        assert("inexhaustible"@.len() != "screeching_women"@.len());
    }
    assert("inexhaustible"@ != "mercenary_unit"@) by {
        assert("inexhaustible"@.len() != "mercenary_unit"@.len());
    }
    assert("inexhaustible"@ != "hardy"@) by {
        assert("inexhaustible"@.len() != "hardy"@.len());
    }
    assert("inexhaustible"@ != "very_hardy"@) by {
        assert("inexhaustible"@.len() != "very_hardy"@.len());
    }
    assert("inexhaustible"@ != "extremely_hardy"@) by {
        assert("inexhaustible"@.len() != "extremely_hardy"@.len());
    }
    assert("warcry"@ != "sea_faring"@) by {
        assert("warcry"@.len() != "sea_faring"@.len());
    }
    assert("warcry"@ != "hide_forest"@) by {
        assert("warcry"@.len() != "hide_forest"@.len());
    }
    assert("warcry"@ != "hide_improved_forest"@) by {
        assert("warcry"@.len() != "hide_improved_forest"@.len());
    }
    assert("warcry"@ != "hide_long_grass"@) by {
        assert("warcry"@.len() != "hide_long_grass"@.len());
    }
    assert("warcry"@ != "hide_anywhere"@) by {
        assert("warcry"@.len() != "hide_anywhere"@.len());
    }
    assert("warcry"@ != "can_sap"@) by {
        assert("warcry"@.len() != "can_sap"@.len());
    }
    assert("warcry"@ != "frighten_foot"@) by {
        assert("warcry"@.len() != "frighten_foot"@.len());
    }
    assert("warcry"@ != "frighten_mounted"@) by {
        assert("warcry"@.len() != "frighten_mounted"@.len());
    }
    assert("warcry"@ != "can_run_amok"@) by {
        assert("warcry"@.len() != "can_run_amok"@.len());
    }
    assert("warcry"@ != "general_unit"@) by {
        assert("warcry"@.len() != "general_unit"@.len());
    }
    assert("warcry"@ != "cantabrian_circle"@) by {
        assert("warcry"@.len() != "cantabrian_circle"@.len());
    }
    assert("warcry"@ != "no_custom"@) by {
        assert("warcry"@.len() != "no_custom"@.len());
    }
    assert("warcry"@ != "command"@) by {
        assert("warcry"@.len() != "command"@.len());
    }
    assert("warcry"@ != "screeching_women"@) by {
        assert("warcry"@.len() != "screeching_women"@.len());
    }
    assert("warcry"@ != "mercenary_unit"@) by {
        assert("warcry"@.len() != "mercenary_unit"@.len());
    }
    assert("warcry"@ != "hardy"@) by {
        assert("warcry"@.len() != "hardy"@.len());
    }
    assert("warcry"@ != "very_hardy"@) by {
        assert("warcry"@.len() != "very_hardy"@.len());
    }
    assert("warcry"@ != "extremely_hardy"@) by {
        assert("warcry"@.len() != "extremely_hardy"@.len());
    }
    assert("warcry"@ != "inexhaustible"@) by {
        assert("warcry"@.len() != "inexhaustible"@.len());
    }
    assert("druid"@ != "sea_faring"@) by {
        assert("druid"@.len() != "sea_faring"@.len());
    }
    assert("druid"@ != "hide_forest"@) by {
        assert("druid"@.len() != "hide_forest"@.len());
    }
    assert("druid"@ != "hide_improved_forest"@) by {
        assert("druid"@.len() != "hide_improved_forest"@.len());
    }
    assert("druid"@ != "hide_long_grass"@) by {
        assert("druid"@.len() != "hide_long_grass"@.len());
    }
    assert("druid"@ != "hide_anywhere"@) by {
        assert("druid"@.len() != "hide_anywhere"@.len());
    }
    assert("druid"@ != "can_sap"@) by {
        assert("druid"@.len() != "can_sap"@.len());
    }
    assert("druid"@ != "frighten_foot"@) by {
        assert("druid"@.len() != "frighten_foot"@.len());
    }
    assert("druid"@ != "frighten_mounted"@) by {
        assert("druid"@.len() != "frighten_mounted"@.len());
    }
    assert("druid"@ != "can_run_amok"@) by {
        assert("druid"@.len() != "can_run_amok"@.len());
    }
    assert("druid"@ != "general_unit"@) by {
        assert("druid"@.len() != "general_unit"@.len());
    }
    assert("druid"@ != "cantabrian_circle"@) by {
        assert("druid"@.len() != "cantabrian_circle"@.len());
    }
    assert("druid"@ != "no_custom"@) by {
        assert("druid"@.len() != "no_custom"@.len());
    }
    assert("druid"@ != "command"@) by {
        assert("druid"@.len() != "command"@.len());
    }
    assert("druid"@ != "screeching_women"@) by {
        assert("druid"@.len() != "screeching_women"@.len());
    }
    assert("druid"@ != "mercenary_unit"@) by {
        assert("druid"@.len() != "mercenary_unit"@.len());
    }
    assert("druid"@ != "hardy"@) by {
        assert("druid"@[0] != "hardy"@[0]);
    }
    assert("druid"@ != "very_hardy"@) by {
        assert("druid"@.len() != "very_hardy"@.len());
    }
    assert("druid"@ != "extremely_hardy"@) by {
        assert("druid"@.len() != "extremely_hardy"@.len());
    }
    assert("druid"@ != "inexhaustible"@) by {
        assert("druid"@.len() != "inexhaustible"@.len());
    }
    assert("druid"@ != "warcry"@) by {
        assert("druid"@.len() != "warcry"@.len());
    }
    assert("power_charge"@ != "sea_faring"@) by {
        assert("power_charge"@.len() != "sea_faring"@.len());
    }
    assert("power_charge"@ != "hide_forest"@) by {
        assert("power_charge"@.len() != "hide_forest"@.len());
    }
    assert("power_charge"@ != "hide_improved_forest"@) by {
        assert("power_charge"@.len() != "hide_improved_forest"@.len());
    }
    assert("power_charge"@ != "hide_long_grass"@) by {
        assert("power_charge"@.len() != "hide_long_grass"@.len());
    }
    assert("power_charge"@ != "hide_anywhere"@) by {
        assert("power_charge"@.len() != "hide_anywhere"@.len());
    }
    assert("power_charge"@ != "can_sap"@) by {
        assert("power_charge"@.len() != "can_sap"@.len());
    }
    assert("power_charge"@ != "frighten_foot"@) by {
        assert("power_charge"@.len() != "frighten_foot"@.len());
    }
    assert("power_charge"@ != "frighten_mounted"@) by {
        assert("power_charge"@.len() != "frighten_mounted"@.len());
    }
    assert("power_charge"@ != "can_run_amok"@) by {
        assert("power_charge"@[0] != "can_run_amok"@[0]);
    }
    assert("power_charge"@ != "general_unit"@) by {
        assert("power_charge"@[0] != "general_unit"@[0]);
    }
    assert("power_charge"@ != "cantabrian_circle"@) by {
        assert("power_charge"@.len() != "cantabrian_circle"@.len());
    }
    assert("power_charge"@ != "no_custom"@) by {
        assert("power_charge"@.len() != "no_custom"@.len());
    }
    assert("power_charge"@ != "command"@) by {
        assert("power_charge"@.len() != "command"@.len());
    }
    assert("power_charge"@ != "screeching_women"@) by {
        assert("power_charge"@.len() != "screeching_women"@.len());
    }
    assert("power_charge"@ != "mercenary_unit"@) by {
        assert("power_charge"@.len() != "mercenary_unit"@.len());
    }
    assert("power_charge"@ != "hardy"@) by {
        assert("power_charge"@.len() != "hardy"@.len());
    }
    assert("power_charge"@ != "very_hardy"@) by {
        assert("power_charge"@.len() != "very_hardy"@.len());
    }
    assert("power_charge"@ != "extremely_hardy"@) by {
        assert("power_charge"@.len() != "extremely_hardy"@.len());
    }
    assert("power_charge"@ != "inexhaustible"@) by {
        assert("power_charge"@.len() != "inexhaustible"@.len());
    }
    assert("power_charge"@ != "warcry"@) by {
        assert("power_charge"@.len() != "warcry"@.len());
    }
    assert("power_charge"@ != "druid"@) by {
        assert("power_charge"@.len() != "druid"@.len());
    }
    assert("can_swim"@ != "sea_faring"@) by {
        assert("can_swim"@.len() != "sea_faring"@.len());
    }
    assert("can_swim"@ != "hide_forest"@) by {
        assert("can_swim"@.len() != "hide_forest"@.len());
    }
    assert("can_swim"@ != "hide_improved_forest"@) by {
        assert("can_swim"@.len() != "hide_improved_forest"@.len());
    }
    assert("can_swim"@ != "hide_long_grass"@) by {
        assert("can_swim"@.len() != "hide_long_grass"@.len());
    }
    assert("can_swim"@ != "hide_anywhere"@) by {
        assert("can_swim"@.len() != "hide_anywhere"@.len());
    }
    assert("can_swim"@ != "can_sap"@) by {
        assert("can_swim"@.len() != "can_sap"@.len());
    }
    assert("can_swim"@ != "frighten_foot"@) by {
        assert("can_swim"@.len() != "frighten_foot"@.len());
    }
    assert("can_swim"@ != "frighten_mounted"@) by {
        assert("can_swim"@.len() != "frighten_mounted"@.len());
    }
    assert("can_swim"@ != "can_run_amok"@) by {
        assert("can_swim"@.len() != "can_run_amok"@.len());
    }
    assert("can_swim"@ != "general_unit"@) by {
        assert("can_swim"@.len() != "general_unit"@.len());
    }
    assert("can_swim"@ != "cantabrian_circle"@) by {
        assert("can_swim"@.len() != "cantabrian_circle"@.len());
    }
    assert("can_swim"@ != "no_custom"@) by {
        assert("can_swim"@.len() != "no_custom"@.len());
    }
    assert("can_swim"@ != "command"@) by {
        assert("can_swim"@.len() != "command"@.len());
    }
    assert("can_swim"@ != "screeching_women"@) by {
        assert("can_swim"@.len() != "screeching_women"@.len());
    }
    assert("can_swim"@ != "mercenary_unit"@) by {
        assert("can_swim"@.len() != "mercenary_unit"@.len());
    }
    assert("can_swim"@ != "hardy"@) by {
        assert("can_swim"@.len() != "hardy"@.len());
    }
    assert("can_swim"@ != "very_hardy"@) by {
        assert("can_swim"@.len() != "very_hardy"@.len());
    }
    assert("can_swim"@ != "extremely_hardy"@) by {
        assert("can_swim"@.len() != "extremely_hardy"@.len());
    }
    assert("can_swim"@ != "inexhaustible"@) by {
        assert("can_swim"@.len() != "inexhaustible"@.len());
    }
    assert("can_swim"@ != "warcry"@) by {
        assert("can_swim"@.len() != "warcry"@.len());
    }
    assert("can_swim"@ != "druid"@) by {
        assert("can_swim"@.len() != "druid"@.len());
    }
    assert("can_swim"@ != "power_charge"@) by {
        assert("can_swim"@.len() != "power_charge"@.len());
    }
    assert("is_peasant"@ != "sea_faring"@) by {
        assert("is_peasant"@[0] != "sea_faring"@[0]);
    }
    assert("is_peasant"@ != "hide_forest"@) by {
        assert("is_peasant"@.len() != "hide_forest"@.len());
    }
    assert("is_peasant"@ != "hide_improved_forest"@) by {
        assert("is_peasant"@.len() != "hide_improved_forest"@.len());
    }
    assert("is_peasant"@ != "hide_long_grass"@) by {
        assert("is_peasant"@.len() != "hide_long_grass"@.len());
    }
    assert("is_peasant"@ != "hide_anywhere"@) by {
        assert("is_peasant"@.len() != "hide_anywhere"@.len());
    }
    assert("is_peasant"@ != "can_sap"@) by {
        assert("is_peasant"@.len() != "can_sap"@.len());
    }
    assert("is_peasant"@ != "frighten_foot"@) by {
        assert("is_peasant"@.len() != "frighten_foot"@.len());
    }
    assert("is_peasant"@ != "frighten_mounted"@) by {
        assert("is_peasant"@.len() != "frighten_mounted"@.len());
    }
    assert("is_peasant"@ != "can_run_amok"@) by {
        assert("is_peasant"@.len() != "can_run_amok"@.len());
    }
    assert("is_peasant"@ != "general_unit"@) by {
        assert("is_peasant"@.len() != "general_unit"@.len());
    }
    assert("is_peasant"@ != "cantabrian_circle"@) by {
        assert("is_peasant"@.len() != "cantabrian_circle"@.len());
    }
    assert("is_peasant"@ != "no_custom"@) by {
        assert("is_peasant"@.len() != "no_custom"@.len());
    }
    assert("is_peasant"@ != "command"@) by {
        assert("is_peasant"@.len() != "command"@.len());
    }
    assert("is_peasant"@ != "screeching_women"@) by {
        assert("is_peasant"@.len() != "screeching_women"@.len());
    }
    assert("is_peasant"@ != "mercenary_unit"@) by {
        assert("is_peasant"@.len() != "mercenary_unit"@.len());
    }
    assert("is_peasant"@ != "hardy"@) by {
        assert("is_peasant"@.len() != "hardy"@.len());
    }
    assert("is_peasant"@ != "very_hardy"@) by {
        assert("is_peasant"@[0] != "very_hardy"@[0]);
    }
    assert("is_peasant"@ != "extremely_hardy"@) by {
        assert("is_peasant"@.len() != "extremely_hardy"@.len());
    }
    assert("is_peasant"@ != "inexhaustible"@) by {
        assert("is_peasant"@.len() != "inexhaustible"@.len());
    }
    assert("is_peasant"@ != "warcry"@) by {
        assert("is_peasant"@.len() != "warcry"@.len());
    }
    assert("is_peasant"@ != "druid"@) by {
        assert("is_peasant"@.len() != "druid"@.len());
    }
    assert("is_peasant"@ != "power_charge"@) by {
        assert("is_peasant"@.len() != "power_charge"@.len());
    }
    assert("is_peasant"@ != "can_swim"@) by {
        assert("is_peasant"@.len() != "can_swim"@.len());
    }
    assert("can_horde"@ != "sea_faring"@) by {
        assert("can_horde"@.len() != "sea_faring"@.len());
    }
    assert("can_horde"@ != "hide_forest"@) by {
        assert("can_horde"@.len() != "hide_forest"@.len());
    }
    assert("can_horde"@ != "hide_improved_forest"@) by {
        assert("can_horde"@.len() != "hide_improved_forest"@.len());
    }
    assert("can_horde"@ != "hide_long_grass"@) by {
        assert("can_horde"@.len() != "hide_long_grass"@.len());
    }
    assert("can_horde"@ != "hide_anywhere"@) by {
        assert("can_horde"@.len() != "hide_anywhere"@.len());
    }
    assert("can_horde"@ != "can_sap"@) by {
        assert("can_horde"@.len() != "can_sap"@.len());
    }
    assert("can_horde"@ != "frighten_foot"@) by {
        assert("can_horde"@.len() != "frighten_foot"@.len());
    }
    assert("can_horde"@ != "frighten_mounted"@) by {
        assert("can_horde"@.len() != "frighten_mounted"@.len());
    }
    assert("can_horde"@ != "can_run_amok"@) by {
        assert("can_horde"@.len() != "can_run_amok"@.len());
    }
    assert("can_horde"@ != "general_unit"@) by {
        assert("can_horde"@.len() != "general_unit"@.len());
    }
    assert("can_horde"@ != "cantabrian_circle"@) by {
        assert("can_horde"@.len() != "cantabrian_circle"@.len());
    }
    assert("can_horde"@ != "no_custom"@) by {
        assert("can_horde"@[0] != "no_custom"@[0]);
    }
    assert("can_horde"@ != "command"@) by {
        assert("can_horde"@.len() != "command"@.len());
    }
    assert("can_horde"@ != "screeching_women"@) by {
        assert("can_horde"@.len() != "screeching_women"@.len());
    }
    assert("can_horde"@ != "mercenary_unit"@) by {
        assert("can_horde"@.len() != "mercenary_unit"@.len());
    }
    assert("can_horde"@ != "hardy"@) by {
        assert("can_horde"@.len() != "hardy"@.len());
    }
    assert("can_horde"@ != "very_hardy"@) by {
        assert("can_horde"@.len() != "very_hardy"@.len());
    }
    assert("can_horde"@ != "extremely_hardy"@) by {
        assert("can_horde"@.len() != "extremely_hardy"@.len());
    }
    assert("can_horde"@ != "inexhaustible"@) by {
        assert("can_horde"@.len() != "inexhaustible"@.len());
    }
    assert("can_horde"@ != "warcry"@) by {
        assert("can_horde"@.len() != "warcry"@.len());
    }
    assert("can_horde"@ != "druid"@) by {
        assert("can_horde"@.len() != "druid"@.len());
    }
    assert("can_horde"@ != "power_charge"@) by {
        assert("can_horde"@.len() != "power_charge"@.len());
    }
    assert("can_horde"@ != "can_swim"@) by {
        assert("can_horde"@.len() != "can_swim"@.len());
    }
    assert("can_horde"@ != "is_peasant"@) by {
        assert("can_horde"@.len() != "is_peasant"@.len());
    }
    assert("legionary_name"@ != "sea_faring"@) by {
        assert("legionary_name"@.len() != "sea_faring"@.len());
    }
    assert("legionary_name"@ != "hide_forest"@) by {
        assert("legionary_name"@.len() != "hide_forest"@.len());
    }
    assert("legionary_name"@ != "hide_improved_forest"@) by {
        assert("legionary_name"@.len() != "hide_improved_forest"@.len());
    }
    assert("legionary_name"@ != "hide_long_grass"@) by {
        assert("legionary_name"@.len() != "hide_long_grass"@.len());
    }
    assert("legionary_name"@ != "hide_anywhere"@) by {
        assert("legionary_name"@.len() != "hide_anywhere"@.len());
    }
    assert("legionary_name"@ != "can_sap"@) by {
        assert("legionary_name"@.len() != "can_sap"@.len());
    }
    assert("legionary_name"@ != "frighten_foot"@) by {
        assert("legionary_name"@.len() != "frighten_foot"@.len());
    }
    assert("legionary_name"@ != "frighten_mounted"@) by {
        assert("legionary_name"@.len() != "frighten_mounted"@.len());
    }
    assert("legionary_name"@ != "can_run_amok"@) by {
        assert("legionary_name"@.len() != "can_run_amok"@.len());
    }
    assert("legionary_name"@ != "general_unit"@) by {
        assert("legionary_name"@.len() != "general_unit"@.len());
    }
    assert("legionary_name"@ != "cantabrian_circle"@) by {
        assert("legionary_name"@.len() != "cantabrian_circle"@.len());
    }
    assert("legionary_name"@ != "no_custom"@) by {
        assert("legionary_name"@.len() != "no_custom"@.len());
    }
    assert("legionary_name"@ != "command"@) by {
        assert("legionary_name"@.len() != "command"@.len());
    }
    assert("legionary_name"@ != "screeching_women"@) by {
        assert("legionary_name"@.len() != "screeching_women"@.len());
    }
    assert("legionary_name"@ != "mercenary_unit"@) by {
        assert("legionary_name"@[0] != "mercenary_unit"@[0]);
    }
    assert("legionary_name"@ != "hardy"@) by {
        assert("legionary_name"@.len() != "hardy"@.len());
    }
    assert("legionary_name"@ != "very_hardy"@) by {
        assert("legionary_name"@.len() != "very_hardy"@.len());
    }
    assert("legionary_name"@ != "extremely_hardy"@) by {
        assert("legionary_name"@.len() != "extremely_hardy"@.len());
    }
    assert("legionary_name"@ != "inexhaustible"@) by {
        assert("legionary_name"@.len() != "inexhaustible"@.len());
    }
    assert("legionary_name"@ != "warcry"@) by {
        assert("legionary_name"@.len() != "warcry"@.len());
    }
    assert("legionary_name"@ != "druid"@) by {
        assert("legionary_name"@.len() != "druid"@.len());
    }
    assert("legionary_name"@ != "power_charge"@) by {
        assert("legionary_name"@.len() != "power_charge"@.len());
    }
    assert("legionary_name"@ != "can_swim"@) by {
        assert("legionary_name"@.len() != "can_swim"@.len());
    }
    assert("legionary_name"@ != "is_peasant"@) by {
        assert("legionary_name"@.len() != "is_peasant"@.len());
    }
    assert("legionary_name"@ != "can_horde"@) by {
        assert("legionary_name"@.len() != "can_horde"@.len());
    }
    assert("infinite_ammo"@ != "sea_faring"@) by {
        assert("infinite_ammo"@.len() != "sea_faring"@.len());
    }
    assert("infinite_ammo"@ != "hide_forest"@) by {
        assert("infinite_ammo"@.len() != "hide_forest"@.len());
    }
    assert("infinite_ammo"@ != "hide_improved_forest"@) by {
        assert("infinite_ammo"@.len() != "hide_improved_forest"@.len());
    }
    assert("infinite_ammo"@ != "hide_long_grass"@) by {
        assert("infinite_ammo"@.len() != "hide_long_grass"@.len());
    }
    assert("infinite_ammo"@ != "hide_anywhere"@) by {
        assert("infinite_ammo"@[0] != "hide_anywhere"@[0]);
    }
    assert("infinite_ammo"@ != "can_sap"@) by {
        assert("infinite_ammo"@.len() != "can_sap"@.len());
    }
    assert("infinite_ammo"@ != "frighten_foot"@) by {
        assert("infinite_ammo"@[0] != "frighten_foot"@[0]);
    }
    assert("infinite_ammo"@ != "frighten_mounted"@) by {
        assert("infinite_ammo"@.len() != "frighten_mounted"@.len());
    }
    assert("infinite_ammo"@ != "can_run_amok"@) by {
        assert("infinite_ammo"@.len() != "can_run_amok"@.len());
    }
    assert("infinite_ammo"@ != "general_unit"@) by {
        assert("infinite_ammo"@.len() != "general_unit"@.len());
    }
    assert("infinite_ammo"@ != "cantabrian_circle"@) by {
        assert("infinite_ammo"@.len() != "cantabrian_circle"@.len());
    }
    assert("infinite_ammo"@ != "no_custom"@) by {
        assert("infinite_ammo"@.len() != "no_custom"@.len());
    }
    assert("infinite_ammo"@ != "command"@) by {
        assert("infinite_ammo"@.len() != "command"@.len());
    }
    assert("infinite_ammo"@ != "screeching_women"@) by {
        assert("infinite_ammo"@.len() != "screeching_women"@.len());
    }
    assert("infinite_ammo"@ != "mercenary_unit"@) by {
        assert("infinite_ammo"@.len() != "mercenary_unit"@.len());
    }
    assert("infinite_ammo"@ != "hardy"@) by {
        assert("infinite_ammo"@.len() != "hardy"@.len());
    }
    assert("infinite_ammo"@ != "very_hardy"@) by {
        assert("infinite_ammo"@.len() != "very_hardy"@.len());
    }
    assert("infinite_ammo"@ != "extremely_hardy"@) by {
        assert("infinite_ammo"@.len() != "extremely_hardy"@.len());
    }
    assert("infinite_ammo"@ != "inexhaustible"@) by {
        assert("infinite_ammo"@[2] != "inexhaustible"@[2]);
    }
    assert("infinite_ammo"@ != "warcry"@) by {
        assert("infinite_ammo"@.len() != "warcry"@.len());
    }
    assert("infinite_ammo"@ != "druid"@) by {
        assert("infinite_ammo"@.len() != "druid"@.len());
    }
    assert("infinite_ammo"@ != "power_charge"@) by {
        assert("infinite_ammo"@.len() != "power_charge"@.len());
    }
    assert("infinite_ammo"@ != "can_swim"@) by {
        assert("infinite_ammo"@.len() != "can_swim"@.len());
    }
    assert("infinite_ammo"@ != "is_peasant"@) by {
        assert("infinite_ammo"@.len() != "is_peasant"@.len());
    }
    assert("infinite_ammo"@ != "can_horde"@) by {
        assert("infinite_ammo"@.len() != "can_horde"@.len());
    }
    assert("infinite_ammo"@ != "legionary_name"@) by {
        assert("infinite_ammo"@.len() != "legionary_name"@.len());
    }
    assert("non_scaling"@ != "sea_faring"@) by {
        assert("non_scaling"@.len() != "sea_faring"@.len());
    }
    assert("non_scaling"@ != "hide_forest"@) by {
        assert("non_scaling"@[0] != "hide_forest"@[0]);
    }
    assert("non_scaling"@ != "hide_improved_forest"@) by {
        assert("non_scaling"@.len() != "hide_improved_forest"@.len());
    }
    assert("non_scaling"@ != "hide_long_grass"@) by {
        assert("non_scaling"@.len() != "hide_long_grass"@.len());
    }
    assert("non_scaling"@ != "hide_anywhere"@) by {
        assert("non_scaling"@.len() != "hide_anywhere"@.len());
    }
    assert("non_scaling"@ != "can_sap"@) by {
        assert("non_scaling"@.len() != "can_sap"@.len());
    }
    assert("non_scaling"@ != "frighten_foot"@) by {
        assert("non_scaling"@.len() != "frighten_foot"@.len());
    }
    assert("non_scaling"@ != "frighten_mounted"@) by {
        assert("non_scaling"@.len() != "frighten_mounted"@.len());
    }
    assert("non_scaling"@ != "can_run_amok"@) by {
        assert("non_scaling"@.len() != "can_run_amok"@.len());
    }
    assert("non_scaling"@ != "general_unit"@) by {
        assert("non_scaling"@.len() != "general_unit"@.len());
    }
    assert("non_scaling"@ != "cantabrian_circle"@) by {
        assert("non_scaling"@.len() != "cantabrian_circle"@.len());
    }
    assert("non_scaling"@ != "no_custom"@) by {
        assert("non_scaling"@.len() != "no_custom"@.len());
    }
    assert("non_scaling"@ != "command"@) by {
        assert("non_scaling"@.len() != "command"@.len());
    }
    assert("non_scaling"@ != "screeching_women"@) by {
        assert("non_scaling"@.len() != "screeching_women"@.len());
    }
    assert("non_scaling"@ != "mercenary_unit"@) by {
        assert("non_scaling"@.len() != "mercenary_unit"@.len());
    }
    assert("non_scaling"@ != "hardy"@) by {
        assert("non_scaling"@.len() != "hardy"@.len());
    }
    assert("non_scaling"@ != "very_hardy"@) by {
        assert("non_scaling"@.len() != "very_hardy"@.len());
    }
    assert("non_scaling"@ != "extremely_hardy"@) by {
        assert("non_scaling"@.len() != "extremely_hardy"@.len());
    }
    assert("non_scaling"@ != "inexhaustible"@) by {
        assert("non_scaling"@.len() != "inexhaustible"@.len());
    }
    assert("non_scaling"@ != "warcry"@) by {
        assert("non_scaling"@.len() != "warcry"@.len());
    }
    assert("non_scaling"@ != "druid"@) by {
        assert("non_scaling"@.len() != "druid"@.len());
    }
    assert("non_scaling"@ != "power_charge"@) by {
        assert("non_scaling"@.len() != "power_charge"@.len());
    }
    assert("non_scaling"@ != "can_swim"@) by {
        assert("non_scaling"@.len() != "can_swim"@.len());
    }
    assert("non_scaling"@ != "is_peasant"@) by {
        assert("non_scaling"@.len() != "is_peasant"@.len());
    }
    assert("non_scaling"@ != "can_horde"@) by {
        assert("non_scaling"@.len() != "can_horde"@.len());
    }
    assert("non_scaling"@ != "legionary_name"@) by {
        assert("non_scaling"@.len() != "legionary_name"@.len());
    }
    assert("non_scaling"@ != "infinite_ammo"@) by {
        assert("non_scaling"@.len() != "infinite_ammo"@.len());
    }
    assert("free_upkeep_unit"@ != "sea_faring"@) by {
        assert("free_upkeep_unit"@.len() != "sea_faring"@.len());
    }
    assert("free_upkeep_unit"@ != "hide_forest"@) by {
        assert("free_upkeep_unit"@.len() != "hide_forest"@.len());
    }
    assert("free_upkeep_unit"@ != "hide_improved_forest"@) by {
        assert("free_upkeep_unit"@.len() != "hide_improved_forest"@.len());
    }
    assert("free_upkeep_unit"@ != "hide_long_grass"@) by {
        assert("free_upkeep_unit"@.len() != "hide_long_grass"@.len());
    }
    assert("free_upkeep_unit"@ != "hide_anywhere"@) by {
        assert("free_upkeep_unit"@.len() != "hide_anywhere"@.len());
    }
    assert("free_upkeep_unit"@ != "can_sap"@) by {
        assert("free_upkeep_unit"@.len() != "can_sap"@.len());
    }
    assert("free_upkeep_unit"@ != "frighten_foot"@) by {
        assert("free_upkeep_unit"@.len() != "frighten_foot"@.len());
    }
    assert("free_upkeep_unit"@ != "frighten_mounted"@) by {
        assert("free_upkeep_unit"@[2] != "frighten_mounted"@[2]);
    }
    assert("free_upkeep_unit"@ != "can_run_amok"@) by {
        assert("free_upkeep_unit"@.len() != "can_run_amok"@.len());
    }
    assert("free_upkeep_unit"@ != "general_unit"@) by {
        assert("free_upkeep_unit"@.len() != "general_unit"@.len());
    }
    assert("free_upkeep_unit"@ != "cantabrian_circle"@) by {
        assert("free_upkeep_unit"@.len() != "cantabrian_circle"@.len());
    }
    assert("free_upkeep_unit"@ != "no_custom"@) by {
        assert("free_upkeep_unit"@.len() != "no_custom"@.len());
    }
    assert("free_upkeep_unit"@ != "command"@) by {
        assert("free_upkeep_unit"@.len() != "command"@.len());
    }
    assert("free_upkeep_unit"@ != "screeching_women"@) by {
        assert("free_upkeep_unit"@[0] != "screeching_women"@[0]);
    }
    assert("free_upkeep_unit"@ != "mercenary_unit"@) by {
        assert("free_upkeep_unit"@.len() != "mercenary_unit"@.len());
    }
    assert("free_upkeep_unit"@ != "hardy"@) by {
        assert("free_upkeep_unit"@.len() != "hardy"@.len());
    }
    assert("free_upkeep_unit"@ != "very_hardy"@) by {
        assert("free_upkeep_unit"@.len() != "very_hardy"@.len());
    }
    assert("free_upkeep_unit"@ != "extremely_hardy"@) by {
        assert("free_upkeep_unit"@.len() != "extremely_hardy"@.len());
    }
    assert("free_upkeep_unit"@ != "inexhaustible"@) by {
        assert("free_upkeep_unit"@.len() != "inexhaustible"@.len());
    }
    assert("free_upkeep_unit"@ != "warcry"@) by {
        assert("free_upkeep_unit"@.len() != "warcry"@.len());
    }
    assert("free_upkeep_unit"@ != "druid"@) by {
        assert("free_upkeep_unit"@.len() != "druid"@.len());
    }
    assert("free_upkeep_unit"@ != "power_charge"@) by {
        assert("free_upkeep_unit"@.len() != "power_charge"@.len());
    }
    assert("free_upkeep_unit"@ != "can_swim"@) by {
        assert("free_upkeep_unit"@.len() != "can_swim"@.len());
    }
    assert("free_upkeep_unit"@ != "is_peasant"@) by {
        assert("free_upkeep_unit"@.len() != "is_peasant"@.len());
    }
    assert("free_upkeep_unit"@ != "can_horde"@) by {
        assert("free_upkeep_unit"@.len() != "can_horde"@.len());
    }
    assert("free_upkeep_unit"@ != "legionary_name"@) by {
        assert("free_upkeep_unit"@.len() != "legionary_name"@.len());
    }
    assert("free_upkeep_unit"@ != "infinite_ammo"@) by {
        assert("free_upkeep_unit"@.len() != "infinite_ammo"@.len());
    }
    assert("free_upkeep_unit"@ != "non_scaling"@) by {
        assert("free_upkeep_unit"@.len() != "non_scaling"@.len());
    }
    assert("can_withdraw"@ != "sea_faring"@) by {
        assert("can_withdraw"@.len() != "sea_faring"@.len());
    }
    assert("can_withdraw"@ != "hide_forest"@) by {
        assert("can_withdraw"@.len() != "hide_forest"@.len());
    }
    assert("can_withdraw"@ != "hide_improved_forest"@) by {
        assert("can_withdraw"@.len() != "hide_improved_forest"@.len());
    }
    assert("can_withdraw"@ != "hide_long_grass"@) by {
        assert("can_withdraw"@.len() != "hide_long_grass"@.len());
    }
    assert("can_withdraw"@ != "hide_anywhere"@) by {
        assert("can_withdraw"@.len() != "hide_anywhere"@.len());
    }
    assert("can_withdraw"@ != "can_sap"@) by {
        assert("can_withdraw"@.len() != "can_sap"@.len());
    }
    assert("can_withdraw"@ != "frighten_foot"@) by {
        assert("can_withdraw"@.len() != "frighten_foot"@.len());
    }
    assert("can_withdraw"@ != "frighten_mounted"@) by {
        assert("can_withdraw"@.len() != "frighten_mounted"@.len());
    }
    assert("can_withdraw"@ != "can_run_amok"@) by {
        assert("can_withdraw"@[4] != "can_run_amok"@[4]);
    }
    assert("can_withdraw"@ != "general_unit"@) by {
        assert("can_withdraw"@[0] != "general_unit"@[0]);
    }
    assert("can_withdraw"@ != "cantabrian_circle"@) by {
        assert("can_withdraw"@.len() != "cantabrian_circle"@.len());
    }
    assert("can_withdraw"@ != "no_custom"@) by {
        assert("can_withdraw"@.len() != "no_custom"@.len());
    }
    assert("can_withdraw"@ != "command"@) by {
        assert("can_withdraw"@.len() != "command"@.len());
    }
    assert("can_withdraw"@ != "screeching_women"@) by {
        assert("can_withdraw"@.len() != "screeching_women"@.len());
    }
    assert("can_withdraw"@ != "mercenary_unit"@) by {
        assert("can_withdraw"@.len() != "mercenary_unit"@.len());
    }
    assert("can_withdraw"@ != "hardy"@) by {
        assert("can_withdraw"@.len() != "hardy"@.len());
    }
    assert("can_withdraw"@ != "very_hardy"@) by {
        assert("can_withdraw"@.len() != "very_hardy"@.len());
    }
    assert("can_withdraw"@ != "extremely_hardy"@) by {
        assert("can_withdraw"@.len() != "extremely_hardy"@.len());
    }
    assert("can_withdraw"@ != "inexhaustible"@) by {
        assert("can_withdraw"@.len() != "inexhaustible"@.len());
    }
    assert("can_withdraw"@ != "warcry"@) by {
        assert("can_withdraw"@.len() != "warcry"@.len());
    }
    assert("can_withdraw"@ != "druid"@) by {
        assert("can_withdraw"@.len() != "druid"@.len());
    }
    assert("can_withdraw"@ != "power_charge"@) by {
        assert("can_withdraw"@[0] != "power_charge"@[0]);
    }
    assert("can_withdraw"@ != "can_swim"@) by {
        assert("can_withdraw"@.len() != "can_swim"@.len());
    }
    assert("can_withdraw"@ != "is_peasant"@) by {
        assert("can_withdraw"@.len() != "is_peasant"@.len());
    }
    assert("can_withdraw"@ != "can_horde"@) by {
        assert("can_withdraw"@.len() != "can_horde"@.len());
    }
    assert("can_withdraw"@ != "legionary_name"@) by {
        assert("can_withdraw"@.len() != "legionary_name"@.len());
    }
    assert("can_withdraw"@ != "infinite_ammo"@) by {
        assert("can_withdraw"@.len() != "infinite_ammo"@.len());
    }
    assert("can_withdraw"@ != "non_scaling"@) by {
        assert("can_withdraw"@.len() != "non_scaling"@.len());
    }
    assert("can_withdraw"@ != "free_upkeep_unit"@) by {
        assert("can_withdraw"@.len() != "free_upkeep_unit"@.len());
    }
    assert("can_formed_charge"@ != "sea_faring"@) by {
        assert("can_formed_charge"@.len() != "sea_faring"@.len());
    }
    assert("can_formed_charge"@ != "hide_forest"@) by {
        assert("can_formed_charge"@.len() != "hide_forest"@.len());
    }
    assert("can_formed_charge"@ != "hide_improved_forest"@) by {
        assert("can_formed_charge"@.len() != "hide_improved_forest"@.len());
    }
    assert("can_formed_charge"@ != "hide_long_grass"@) by {
        assert("can_formed_charge"@.len() != "hide_long_grass"@.len());
    }
    assert("can_formed_charge"@ != "hide_anywhere"@) by {
        assert("can_formed_charge"@.len() != "hide_anywhere"@.len());
    }
    assert("can_formed_charge"@ != "can_sap"@) by {
        assert("can_formed_charge"@.len() != "can_sap"@.len());
    }
    assert("can_formed_charge"@ != "frighten_foot"@) by {
        assert("can_formed_charge"@.len() != "frighten_foot"@.len());
    }
    assert("can_formed_charge"@ != "frighten_mounted"@) by {
        assert("can_formed_charge"@.len() != "frighten_mounted"@.len());
    }
    assert("can_formed_charge"@ != "can_run_amok"@) by {
        assert("can_formed_charge"@.len() != "can_run_amok"@.len());
    }
    assert("can_formed_charge"@ != "general_unit"@) by {
        assert("can_formed_charge"@.len() != "general_unit"@.len());
    }
    assert("can_formed_charge"@ != "cantabrian_circle"@) by {
        assert("can_formed_charge"@[3] != "cantabrian_circle"@[3]);
    }
    assert("can_formed_charge"@ != "no_custom"@) by {
        assert("can_formed_charge"@.len() != "no_custom"@.len());
    }
    assert("can_formed_charge"@ != "command"@) by {
        assert("can_formed_charge"@.len() != "command"@.len());
    }
    assert("can_formed_charge"@ != "screeching_women"@) by {
        assert("can_formed_charge"@.len() != "screeching_women"@.len());
    }
    assert("can_formed_charge"@ != "mercenary_unit"@) by {
        assert("can_formed_charge"@.len() != "mercenary_unit"@.len());
    }
    assert("can_formed_charge"@ != "hardy"@) by {
        assert("can_formed_charge"@.len() != "hardy"@.len());
    }
    assert("can_formed_charge"@ != "very_hardy"@) by {
        assert("can_formed_charge"@.len() != "very_hardy"@.len());
    }
    assert("can_formed_charge"@ != "extremely_hardy"@) by {
        assert("can_formed_charge"@.len() != "extremely_hardy"@.len());
    }
    assert("can_formed_charge"@ != "inexhaustible"@) by {
        assert("can_formed_charge"@.len() != "inexhaustible"@.len());
    }
    assert("can_formed_charge"@ != "warcry"@) by {
        assert("can_formed_charge"@.len() != "warcry"@.len());
    }
    assert("can_formed_charge"@ != "druid"@) by {
        assert("can_formed_charge"@.len() != "druid"@.len());
    }
    assert("can_formed_charge"@ != "power_charge"@) by {
        assert("can_formed_charge"@.len() != "power_charge"@.len());
    }
    assert("can_formed_charge"@ != "can_swim"@) by {
        assert("can_formed_charge"@.len() != "can_swim"@.len());
    }
    assert("can_formed_charge"@ != "is_peasant"@) by {
        assert("can_formed_charge"@.len() != "is_peasant"@.len());
    }
    assert("can_formed_charge"@ != "can_horde"@) by {
        assert("can_formed_charge"@.len() != "can_horde"@.len());
    }
    assert("can_formed_charge"@ != "legionary_name"@) by {
        assert("can_formed_charge"@.len() != "legionary_name"@.len());
    }
    assert("can_formed_charge"@ != "infinite_ammo"@) by {
        assert("can_formed_charge"@.len() != "infinite_ammo"@.len());
    }
    assert("can_formed_charge"@ != "non_scaling"@) by {
        assert("can_formed_charge"@.len() != "non_scaling"@.len());
    }
    assert("can_formed_charge"@ != "free_upkeep_unit"@) by {
        assert("can_formed_charge"@.len() != "free_upkeep_unit"@.len());
    }
    assert("can_formed_charge"@ != "can_withdraw"@) by {
        assert("can_formed_charge"@.len() != "can_withdraw"@.len());
    }
    assert("knight"@ != "sea_faring"@) by {
        assert("knight"@.len() != "sea_faring"@.len());
    }
    assert("knight"@ != "hide_forest"@) by {
        assert("knight"@.len() != "hide_forest"@.len());
    }
    assert("knight"@ != "hide_improved_forest"@) by {
        assert("knight"@.len() != "hide_improved_forest"@.len());
    }
    assert("knight"@ != "hide_long_grass"@) by {
        assert("knight"@.len() != "hide_long_grass"@.len());
    }
    assert("knight"@ != "hide_anywhere"@) by {
        assert("knight"@.len() != "hide_anywhere"@.len());
    }
    assert("knight"@ != "can_sap"@) by {
        assert("knight"@.len() != "can_sap"@.len());
    }
    assert("knight"@ != "frighten_foot"@) by {
        assert("knight"@.len() != "frighten_foot"@.len());
    }
    assert("knight"@ != "frighten_mounted"@) by {
        assert("knight"@.len() != "frighten_mounted"@.len());
    }
    assert("knight"@ != "can_run_amok"@) by {
        assert("knight"@.len() != "can_run_amok"@.len());
    }
    assert("knight"@ != "general_unit"@) by {
        assert("knight"@.len() != "general_unit"@.len());
    }
    assert("knight"@ != "cantabrian_circle"@) by {
        assert("knight"@.len() != "cantabrian_circle"@.len());
    }
    assert("knight"@ != "no_custom"@) by {
        assert("knight"@.len() != "no_custom"@.len());
    }
    assert("knight"@ != "command"@) by {
        assert("knight"@.len() != "command"@.len());
    }
    assert("knight"@ != "screeching_women"@) by {
        assert("knight"@.len() != "screeching_women"@.len());
    }
    assert("knight"@ != "mercenary_unit"@) by {
        assert("knight"@.len() != "mercenary_unit"@.len());
    }
    assert("knight"@ != "hardy"@) by {
        assert("knight"@.len() != "hardy"@.len());
    }
    assert("knight"@ != "very_hardy"@) by {
        assert("knight"@.len() != "very_hardy"@.len());
    }
    assert("knight"@ != "extremely_hardy"@) by {
        assert("knight"@.len() != "extremely_hardy"@.len());
    }
    assert("knight"@ != "inexhaustible"@) by {
        assert("knight"@.len() != "inexhaustible"@.len());
    }
    assert("knight"@ != "warcry"@) by {
        assert("knight"@[0] != "warcry"@[0]);
    }
    assert("knight"@ != "druid"@) by {
        assert("knight"@.len() != "druid"@.len());
    }
    assert("knight"@ != "power_charge"@) by {
        assert("knight"@.len() != "power_charge"@.len());
    }
    assert("knight"@ != "can_swim"@) by {
        assert("knight"@.len() != "can_swim"@.len());
    }
    assert("knight"@ != "is_peasant"@) by {
        assert("knight"@.len() != "is_peasant"@.len());
    }
    assert("knight"@ != "can_horde"@) by {
        assert("knight"@.len() != "can_horde"@.len());
    }
    assert("knight"@ != "legionary_name"@) by {
        assert("knight"@.len() != "legionary_name"@.len());
    }
    assert("knight"@ != "infinite_ammo"@) by {
        assert("knight"@.len() != "infinite_ammo"@.len());
    }
    assert("knight"@ != "non_scaling"@) by {
        assert("knight"@.len() != "non_scaling"@.len());
    }
    assert("knight"@ != "free_upkeep_unit"@) by {
        assert("knight"@.len() != "free_upkeep_unit"@.len());
    }
    assert("knight"@ != "can_withdraw"@) by {
        assert("knight"@.len() != "can_withdraw"@.len());
    }
    assert("knight"@ != "can_formed_charge"@) by {
        assert("knight"@.len() != "can_formed_charge"@.len());
    }
    assert("gunpowder_unit"@ != "sea_faring"@) by {
        assert("gunpowder_unit"@.len() != "sea_faring"@.len());
    }
    assert("gunpowder_unit"@ != "hide_forest"@) by {
        assert("gunpowder_unit"@.len() != "hide_forest"@.len());
    }
    assert("gunpowder_unit"@ != "hide_improved_forest"@) by {
        assert("gunpowder_unit"@.len() != "hide_improved_forest"@.len());
    }
    assert("gunpowder_unit"@ != "hide_long_grass"@) by {
        assert("gunpowder_unit"@.len() != "hide_long_grass"@.len());
    }
    assert("gunpowder_unit"@ != "hide_anywhere"@) by {
        assert("gunpowder_unit"@.len() != "hide_anywhere"@.len());
    }
    assert("gunpowder_unit"@ != "can_sap"@) by {
        assert("gunpowder_unit"@.len() != "can_sap"@.len());
    }
    assert("gunpowder_unit"@ != "frighten_foot"@) by {
        assert("gunpowder_unit"@.len() != "frighten_foot"@.len());
    }
    assert("gunpowder_unit"@ != "frighten_mounted"@) by {
        assert("gunpowder_unit"@.len() != "frighten_mounted"@.len());
    }
    assert("gunpowder_unit"@ != "can_run_amok"@) by {
        assert("gunpowder_unit"@.len() != "can_run_amok"@.len());
    }
    assert("gunpowder_unit"@ != "general_unit"@) by {
        assert("gunpowder_unit"@.len() != "general_unit"@.len());
    }
    assert("gunpowder_unit"@ != "cantabrian_circle"@) by {
        assert("gunpowder_unit"@.len() != "cantabrian_circle"@.len());
    }
    assert("gunpowder_unit"@ != "no_custom"@) by {
        assert("gunpowder_unit"@.len() != "no_custom"@.len());
    }
    assert("gunpowder_unit"@ != "command"@) by {
        assert("gunpowder_unit"@.len() != "command"@.len());
    }
    assert("gunpowder_unit"@ != "screeching_women"@) by {
        assert("gunpowder_unit"@.len() != "screeching_women"@.len());
    }
    assert("gunpowder_unit"@ != "mercenary_unit"@) by {
        assert("gunpowder_unit"@[0] != "mercenary_unit"@[0]);
    }
    assert("gunpowder_unit"@ != "hardy"@) by {
        assert("gunpowder_unit"@.len() != "hardy"@.len());
    }
    assert("gunpowder_unit"@ != "very_hardy"@) by {
        assert("gunpowder_unit"@.len() != "very_hardy"@.len());
    }
    assert("gunpowder_unit"@ != "extremely_hardy"@) by {
        assert("gunpowder_unit"@.len() != "extremely_hardy"@.len());
    }
    assert("gunpowder_unit"@ != "inexhaustible"@) by {
        assert("gunpowder_unit"@.len() != "inexhaustible"@.len());
    }
    assert("gunpowder_unit"@ != "warcry"@) by {
        assert("gunpowder_unit"@.len() != "warcry"@.len());
    }
    assert("gunpowder_unit"@ != "druid"@) by {
        assert("gunpowder_unit"@.len() != "druid"@.len());
    }
    assert("gunpowder_unit"@ != "power_charge"@) by {
        assert("gunpowder_unit"@.len() != "power_charge"@.len());
    }
    assert("gunpowder_unit"@ != "can_swim"@) by {
        assert("gunpowder_unit"@.len() != "can_swim"@.len());
    }
    assert("gunpowder_unit"@ != "is_peasant"@) by {
        assert("gunpowder_unit"@.len() != "is_peasant"@.len());
    }
    assert("gunpowder_unit"@ != "can_horde"@) by {
        assert("gunpowder_unit"@.len() != "can_horde"@.len());
    }
    assert("gunpowder_unit"@ != "legionary_name"@) by {
        assert("gunpowder_unit"@[0] != "legionary_name"@[0]);
    }
    assert("gunpowder_unit"@ != "infinite_ammo"@) by {
        assert("gunpowder_unit"@.len() != "infinite_ammo"@.len());
    }
    assert("gunpowder_unit"@ != "non_scaling"@) by {
        assert("gunpowder_unit"@.len() != "non_scaling"@.len());
    }
    assert("gunpowder_unit"@ != "free_upkeep_unit"@) by {
        assert("gunpowder_unit"@.len() != "free_upkeep_unit"@.len());
    }
    assert("gunpowder_unit"@ != "can_withdraw"@) by {
        assert("gunpowder_unit"@.len() != "can_withdraw"@.len());
    }
    assert("gunpowder_unit"@ != "can_formed_charge"@) by {
        assert("gunpowder_unit"@.len() != "can_formed_charge"@.len());
    }
    assert("gunpowder_unit"@ != "knight"@) by {
        assert("gunpowder_unit"@.len() != "knight"@.len());
    }
    assert("stakes"@ != "sea_faring"@) by {
        assert("stakes"@.len() != "sea_faring"@.len());
    }
    assert("stakes"@ != "hide_forest"@) by {
        assert("stakes"@.len() != "hide_forest"@.len());
    }
    assert("stakes"@ != "hide_improved_forest"@) by {
        assert("stakes"@.len() != "hide_improved_forest"@.len());
    }
    assert("stakes"@ != "hide_long_grass"@) by {
        assert("stakes"@.len() != "hide_long_grass"@.len());
    }
    assert("stakes"@ != "hide_anywhere"@) by {
        assert("stakes"@.len() != "hide_anywhere"@.len());
    }
    assert("stakes"@ != "can_sap"@) by {
        assert("stakes"@.len() != "can_sap"@.len());
    }
    assert("stakes"@ != "frighten_foot"@) by {
        assert("stakes"@.len() != "frighten_foot"@.len());
    }
    assert("stakes"@ != "frighten_mounted"@) by {
        assert("stakes"@.len() != "frighten_mounted"@.len());
    }
    assert("stakes"@ != "can_run_amok"@) by {
        assert("stakes"@.len() != "can_run_amok"@.len());
    }
    assert("stakes"@ != "general_unit"@) by {
        assert("stakes"@.len() != "general_unit"@.len());
    }
    assert("stakes"@ != "cantabrian_circle"@) by {
        assert("stakes"@.len() != "cantabrian_circle"@.len());
    }
    assert("stakes"@ != "no_custom"@) by {
        assert("stakes"@.len() != "no_custom"@.len());
    }
    assert("stakes"@ != "command"@) by {
        assert("stakes"@.len() != "command"@.len());
    }
    assert("stakes"@ != "screeching_women"@) by {
        assert("stakes"@.len() != "screeching_women"@.len());
    }
    assert("stakes"@ != "mercenary_unit"@) by {
        assert("stakes"@.len() != "mercenary_unit"@.len());
    }
    assert("stakes"@ != "hardy"@) by {
        assert("stakes"@.len() != "hardy"@.len());
    }
    assert("stakes"@ != "very_hardy"@) by {
        assert("stakes"@.len() != "very_hardy"@.len());
    }
    assert("stakes"@ != "extremely_hardy"@) by {
        assert("stakes"@.len() != "extremely_hardy"@.len());
    }
    assert("stakes"@ != "inexhaustible"@) by {
        assert("stakes"@.len() != "inexhaustible"@.len());
    }
    assert("stakes"@ != "warcry"@) by {
        assert("stakes"@[0] != "warcry"@[0]);
    }
    assert("stakes"@ != "druid"@) by {
        assert("stakes"@.len() != "druid"@.len());
    }
    assert("stakes"@ != "power_charge"@) by {
        assert("stakes"@.len() != "power_charge"@.len());
    }
    assert("stakes"@ != "can_swim"@) by {
        assert("stakes"@.len() != "can_swim"@.len());
    }
    assert("stakes"@ != "is_peasant"@) by {
        assert("stakes"@.len() != "is_peasant"@.len());
    }
    assert("stakes"@ != "can_horde"@) by {
        assert("stakes"@.len() != "can_horde"@.len());
    }
    assert("stakes"@ != "legionary_name"@) by {
        assert("stakes"@.len() != "legionary_name"@.len());
    }
    assert("stakes"@ != "infinite_ammo"@) by {
        assert("stakes"@.len() != "infinite_ammo"@.len());
    }
    assert("stakes"@ != "non_scaling"@) by {
        assert("stakes"@.len() != "non_scaling"@.len());
    }
    assert("stakes"@ != "free_upkeep_unit"@) by {
        assert("stakes"@.len() != "free_upkeep_unit"@.len());
    }
    assert("stakes"@ != "can_withdraw"@) by {
        assert("stakes"@.len() != "can_withdraw"@.len());
    }
    assert("stakes"@ != "can_formed_charge"@) by {
        assert("stakes"@.len() != "can_formed_charge"@.len());
    }
    assert("stakes"@ != "knight"@) by {
        assert("stakes"@[0] != "knight"@[0]);
    }
    assert("stakes"@ != "gunpowder_unit"@) by {
        assert("stakes"@.len() != "gunpowder_unit"@.len());
    }
    assert("fire_by_rank"@ != "sea_faring"@) by {
        assert("fire_by_rank"@.len() != "sea_faring"@.len());
    }
    assert("fire_by_rank"@ != "hide_forest"@) by {
        assert("fire_by_rank"@.len() != "hide_forest"@.len());
    }
    assert("fire_by_rank"@ != "hide_improved_forest"@) by {
        assert("fire_by_rank"@.len() != "hide_improved_forest"@.len());
    }
    assert("fire_by_rank"@ != "hide_long_grass"@) by {
        assert("fire_by_rank"@.len() != "hide_long_grass"@.len());
    }
    assert("fire_by_rank"@ != "hide_anywhere"@) by {
        assert("fire_by_rank"@.len() != "hide_anywhere"@.len());
    }
    assert("fire_by_rank"@ != "can_sap"@) by {
        assert("fire_by_rank"@.len() != "can_sap"@.len());
    }
    assert("fire_by_rank"@ != "frighten_foot"@) by {
        assert("fire_by_rank"@.len() != "frighten_foot"@.len());
    }
    assert("fire_by_rank"@ != "frighten_mounted"@) by {
        assert("fire_by_rank"@.len() != "frighten_mounted"@.len());
    }
    assert("fire_by_rank"@ != "can_run_amok"@) by {
        assert("fire_by_rank"@[0] != "can_run_amok"@[0]);
    }
    assert("fire_by_rank"@ != "general_unit"@) by {
        assert("fire_by_rank"@[0] != "general_unit"@[0]);
    }
    assert("fire_by_rank"@ != "cantabrian_circle"@) by {
        assert("fire_by_rank"@.len() != "cantabrian_circle"@.len());
    }
    assert("fire_by_rank"@ != "no_custom"@) by {
        assert("fire_by_rank"@.len() != "no_custom"@.len());
    }
    assert("fire_by_rank"@ != "command"@) by {
        assert("fire_by_rank"@.len() != "command"@.len());
    }
    assert("fire_by_rank"@ != "screeching_women"@) by {
        assert("fire_by_rank"@.len() != "screeching_women"@.len());
    }
    assert("fire_by_rank"@ != "mercenary_unit"@) by {
        assert("fire_by_rank"@.len() != "mercenary_unit"@.len());
    }
    assert("fire_by_rank"@ != "hardy"@) by {
        assert("fire_by_rank"@.len() != "hardy"@.len());
    }
    assert("fire_by_rank"@ != "very_hardy"@) by {
        assert("fire_by_rank"@.len() != "very_hardy"@.len());
    }
    assert("fire_by_rank"@ != "extremely_hardy"@) by {
        assert("fire_by_rank"@.len() != "extremely_hardy"@.len());
    }
    assert("fire_by_rank"@ != "inexhaustible"@) by {
        assert("fire_by_rank"@.len() != "inexhaustible"@.len());
    }
    assert("fire_by_rank"@ != "warcry"@) by {
        assert("fire_by_rank"@.len() != "warcry"@.len());
    }
    assert("fire_by_rank"@ != "druid"@) by {
        assert("fire_by_rank"@.len() != "druid"@.len());
    }
    assert("fire_by_rank"@ != "power_charge"@) by {
        assert("fire_by_rank"@[0] != "power_charge"@[0]);
    }
    assert("fire_by_rank"@ != "can_swim"@) by {
        assert("fire_by_rank"@.len() != "can_swim"@.len());
    }
    assert("fire_by_rank"@ != "is_peasant"@) by {
        assert("fire_by_rank"@.len() != "is_peasant"@.len());
    }
    assert("fire_by_rank"@ != "can_horde"@) by {
        assert("fire_by_rank"@.len() != "can_horde"@.len());
    }
    assert("fire_by_rank"@ != "legionary_name"@) by {
        assert("fire_by_rank"@.len() != "legionary_name"@.len());
    }
    assert("fire_by_rank"@ != "infinite_ammo"@) by {
        assert("fire_by_rank"@.len() != "infinite_ammo"@.len());
    }
    assert("fire_by_rank"@ != "non_scaling"@) by {
        assert("fire_by_rank"@.len() != "non_scaling"@.len());
    }
    assert("fire_by_rank"@ != "free_upkeep_unit"@) by {
        assert("fire_by_rank"@.len() != "free_upkeep_unit"@.len());
    }
    assert("fire_by_rank"@ != "can_withdraw"@) by {
        assert("fire_by_rank"@[0] != "can_withdraw"@[0]);
    }
    assert("fire_by_rank"@ != "can_formed_charge"@) by {
        assert("fire_by_rank"@.len() != "can_formed_charge"@.len());
    }
    assert("fire_by_rank"@ != "knight"@) by {
        assert("fire_by_rank"@.len() != "knight"@.len());
    }
    assert("fire_by_rank"@ != "gunpowder_unit"@) by {
        assert("fire_by_rank"@.len() != "gunpowder_unit"@.len());
    }
    assert("fire_by_rank"@ != "stakes"@) by {
        assert("fire_by_rank"@.len() != "stakes"@.len());
    }
    assert("cannot_skirmish"@ != "sea_faring"@) by {
        assert("cannot_skirmish"@.len() != "sea_faring"@.len());
    }
    assert("cannot_skirmish"@ != "hide_forest"@) by {
        assert("cannot_skirmish"@.len() != "hide_forest"@.len());
    }
    assert("cannot_skirmish"@ != "hide_improved_forest"@) by {
        assert("cannot_skirmish"@.len() != "hide_improved_forest"@.len());
    }
    assert("cannot_skirmish"@ != "hide_long_grass"@) by {
        assert("cannot_skirmish"@[0] != "hide_long_grass"@[0]);
    }
    assert("cannot_skirmish"@ != "hide_anywhere"@) by {
        assert("cannot_skirmish"@.len() != "hide_anywhere"@.len());
    }
    assert("cannot_skirmish"@ != "can_sap"@) by {
        assert("cannot_skirmish"@.len() != "can_sap"@.len());
    }
    assert("cannot_skirmish"@ != "frighten_foot"@) by {
        assert("cannot_skirmish"@.len() != "frighten_foot"@.len());
    }
    assert("cannot_skirmish"@ != "frighten_mounted"@) by {
        assert("cannot_skirmish"@.len() != "frighten_mounted"@.len());
    }
    assert("cannot_skirmish"@ != "can_run_amok"@) by {
        assert("cannot_skirmish"@.len() != "can_run_amok"@.len());
    }
    assert("cannot_skirmish"@ != "general_unit"@) by {
        assert("cannot_skirmish"@.len() != "general_unit"@.len());
    }
    assert("cannot_skirmish"@ != "cantabrian_circle"@) by {
        assert("cannot_skirmish"@.len() != "cantabrian_circle"@.len());
    }
    assert("cannot_skirmish"@ != "no_custom"@) by {
        assert("cannot_skirmish"@.len() != "no_custom"@.len());
    }
    assert("cannot_skirmish"@ != "command"@) by {
        assert("cannot_skirmish"@.len() != "command"@.len());
    }
    assert("cannot_skirmish"@ != "screeching_women"@) by {
        assert("cannot_skirmish"@.len() != "screeching_women"@.len());
    }
    assert("cannot_skirmish"@ != "mercenary_unit"@) by {
        assert("cannot_skirmish"@.len() != "mercenary_unit"@.len());
    }
    assert("cannot_skirmish"@ != "hardy"@) by {
        assert("cannot_skirmish"@.len() != "hardy"@.len());
    }
    assert("cannot_skirmish"@ != "very_hardy"@) by {
        assert("cannot_skirmish"@.len() != "very_hardy"@.len());
    }
    assert("cannot_skirmish"@ != "extremely_hardy"@) by {
        assert("cannot_skirmish"@[0] != "extremely_hardy"@[0]);
    }
    assert("cannot_skirmish"@ != "inexhaustible"@) by {
        assert("cannot_skirmish"@.len() != "inexhaustible"@.len());
    }
    assert("cannot_skirmish"@ != "warcry"@) by {
        assert("cannot_skirmish"@.len() != "warcry"@.len());
    }
    assert("cannot_skirmish"@ != "druid"@) by {
        assert("cannot_skirmish"@.len() != "druid"@.len());
    }
    assert("cannot_skirmish"@ != "power_charge"@) by {
        assert("cannot_skirmish"@.len() != "power_charge"@.len());
    }
    assert("cannot_skirmish"@ != "can_swim"@) by {
        assert("cannot_skirmish"@.len() != "can_swim"@.len());
    }
    assert("cannot_skirmish"@ != "is_peasant"@) by {
        assert("cannot_skirmish"@.len() != "is_peasant"@.len());
    }
    assert("cannot_skirmish"@ != "can_horde"@) by {
        assert("cannot_skirmish"@.len() != "can_horde"@.len());
    }
    assert("cannot_skirmish"@ != "legionary_name"@) by {
        assert("cannot_skirmish"@.len() != "legionary_name"@.len());
    }
    assert("cannot_skirmish"@ != "infinite_ammo"@) by {
        assert("cannot_skirmish"@.len() != "infinite_ammo"@.len());
    }
    assert("cannot_skirmish"@ != "non_scaling"@) by {
        assert("cannot_skirmish"@.len() != "non_scaling"@.len());
    }
    assert("cannot_skirmish"@ != "free_upkeep_unit"@) by {
        assert("cannot_skirmish"@.len() != "free_upkeep_unit"@.len());
    }
    assert("cannot_skirmish"@ != "can_withdraw"@) by {
        assert("cannot_skirmish"@.len() != "can_withdraw"@.len());
    }
    assert("cannot_skirmish"@ != "can_formed_charge"@) by {
        assert("cannot_skirmish"@.len() != "can_formed_charge"@.len());
    }
    assert("cannot_skirmish"@ != "knight"@) by {
        assert("cannot_skirmish"@.len() != "knight"@.len());
    }
    assert("cannot_skirmish"@ != "gunpowder_unit"@) by {
        assert("cannot_skirmish"@.len() != "gunpowder_unit"@.len());
    }
    assert("cannot_skirmish"@ != "stakes"@) by {
        assert("cannot_skirmish"@.len() != "stakes"@.len());
    }
    assert("cannot_skirmish"@ != "fire_by_rank"@) by {
        assert("cannot_skirmish"@.len() != "fire_by_rank"@.len());
    }
    assert("unique_unit"@ != "sea_faring"@) by {
        assert("unique_unit"@.len() != "sea_faring"@.len());
    }
    assert("unique_unit"@ != "hide_forest"@) by {
        assert("unique_unit"@[0] != "hide_forest"@[0]);
    }
    assert("unique_unit"@ != "hide_improved_forest"@) by {
        assert("unique_unit"@.len() != "hide_improved_forest"@.len());
    }
    assert("unique_unit"@ != "hide_long_grass"@) by {
        assert("unique_unit"@.len() != "hide_long_grass"@.len());
    }
    assert("unique_unit"@ != "hide_anywhere"@) by {
        assert("unique_unit"@.len() != "hide_anywhere"@.len());
    }
    assert("unique_unit"@ != "can_sap"@) by {
        assert("unique_unit"@.len() != "can_sap"@.len());
    }
    assert("unique_unit"@ != "frighten_foot"@) by {
        assert("unique_unit"@.len() != "frighten_foot"@.len());
    }
    assert("unique_unit"@ != "frighten_mounted"@) by {
        assert("unique_unit"@.len() != "frighten_mounted"@.len());
    }
    assert("unique_unit"@ != "can_run_amok"@) by {
        assert("unique_unit"@.len() != "can_run_amok"@.len());
    }
    assert("unique_unit"@ != "general_unit"@) by {
        assert("unique_unit"@.len() != "general_unit"@.len());
    }
    assert("unique_unit"@ != "cantabrian_circle"@) by {
        assert("unique_unit"@.len() != "cantabrian_circle"@.len());
    }
    assert("unique_unit"@ != "no_custom"@) by {
        assert("unique_unit"@.len() != "no_custom"@.len());
    }
    assert("unique_unit"@ != "command"@) by {
        assert("unique_unit"@.len() != "command"@.len());
    }
    assert("unique_unit"@ != "screeching_women"@) by {
        assert("unique_unit"@.len() != "screeching_women"@.len());
    }
    assert("unique_unit"@ != "mercenary_unit"@) by {
        assert("unique_unit"@.len() != "mercenary_unit"@.len());
    }
    assert("unique_unit"@ != "hardy"@) by {
        assert("unique_unit"@.len() != "hardy"@.len());
    }
    assert("unique_unit"@ != "very_hardy"@) by {
        assert("unique_unit"@.len() != "very_hardy"@.len());
    }
    assert("unique_unit"@ != "extremely_hardy"@) by {
        assert("unique_unit"@.len() != "extremely_hardy"@.len());
    }
    assert("unique_unit"@ != "inexhaustible"@) by {
        assert("unique_unit"@.len() != "inexhaustible"@.len());
    }
    assert("unique_unit"@ != "warcry"@) by {
        assert("unique_unit"@.len() != "warcry"@.len());
    }
    assert("unique_unit"@ != "druid"@) by {
        assert("unique_unit"@.len() != "druid"@.len());
    }
    assert("unique_unit"@ != "power_charge"@) by {
        assert("unique_unit"@.len() != "power_charge"@.len());
    }
    assert("unique_unit"@ != "can_swim"@) by {
        assert("unique_unit"@.len() != "can_swim"@.len());
    }
    assert("unique_unit"@ != "is_peasant"@) by {
        assert("unique_unit"@.len() != "is_peasant"@.len());
    }
    assert("unique_unit"@ != "can_horde"@) by {
        assert("unique_unit"@.len() != "can_horde"@.len());
    }
    assert("unique_unit"@ != "legionary_name"@) by {
        assert("unique_unit"@.len() != "legionary_name"@.len());
    }
    assert("unique_unit"@ != "infinite_ammo"@) by {
        assert("unique_unit"@.len() != "infinite_ammo"@.len());
    }
    assert("unique_unit"@ != "non_scaling"@) by {
        assert("unique_unit"@[0] != "non_scaling"@[0]);
    }
    assert("unique_unit"@ != "free_upkeep_unit"@) by {
        assert("unique_unit"@.len() != "free_upkeep_unit"@.len());
    }
    assert("unique_unit"@ != "can_withdraw"@) by {
        assert("unique_unit"@.len() != "can_withdraw"@.len());
    }
    assert("unique_unit"@ != "can_formed_charge"@) by {
        assert("unique_unit"@.len() != "can_formed_charge"@.len());
    }
    assert("unique_unit"@ != "knight"@) by {
        assert("unique_unit"@.len() != "knight"@.len());
    }
    assert("unique_unit"@ != "gunpowder_unit"@) by {
        assert("unique_unit"@.len() != "gunpowder_unit"@.len());
    }
    assert("unique_unit"@ != "stakes"@) by {
        assert("unique_unit"@.len() != "stakes"@.len());
    }
    assert("unique_unit"@ != "fire_by_rank"@) by {
        assert("unique_unit"@.len() != "fire_by_rank"@.len());
    }
    assert("unique_unit"@ != "cannot_skirmish"@) by {
        assert("unique_unit"@.len() != "cannot_skirmish"@.len());
    }
}

/// Whether a name is one of those that `named_attr` knows.
pub open spec fn is_named_attr(s: Seq<char>) -> bool {
    named_attr(s) != Attr::Unknown
}

/// Whether the event of a general's upgrade can be read from the name:
/// where text follows `general_unit_upgrade` and its white space, its first
/// and last characters (the quotes) are ASCII and not the same one.
pub open spec fn attr_ok(s: Seq<char>) -> bool {
    !is_named_attr(s) && starts_with(s, "general_unit_upgrade"@) ==> match after_word(s) {
        None => true,
        Some(r) => r.len() >= 2 && (r[0] as u32) < 0x80 && (r.last() as u32) < 0x80,
    }
}

/// The attribute that a name denotes: a known name, or
/// `general_unit_upgrade` with the event in quotes after it
/// (`marian_reforms` where there is none), or an unknown one.
pub open spec fn attr_of(s: Seq<char>) -> AttrView {
    if is_named_attr(s) {
        AttrView::Plain(named_attr(s))
    } else if starts_with(s, "general_unit_upgrade"@) {
        AttrView::GeneralUnitUpgrade(
            match after_word(s) {
                None => "marian_reforms"@,
                Some(r) => r.subrange(1, r.len() - 1),
            },
        )
    } else {
        AttrView::Plain(Attr::Unknown)
    }
}

/// The attribute that a name denotes, where it is not a general's upgrade.
fn named_attribute(s: &Vec<char>) -> (a: Attr)
    ensures
        a == named_attr(s@),
{
    if eq_str(s, "sea_faring") { Attr::SeaFaring }
    else if eq_str(s, "hide_forest") { Attr::HideForest }
    else if eq_str(s, "hide_improved_forest") { Attr::HideImprovedForest }
    else if eq_str(s, "hide_long_grass") { Attr::HideLongGrass }
    else if eq_str(s, "hide_anywhere") { Attr::HideAnywhere }
    else if eq_str(s, "can_sap") { Attr::CanSap }
    else if eq_str(s, "frighten_foot") { Attr::FrightenFoot }
    else if eq_str(s, "frighten_mounted") { Attr::FrightenMounted }
    else if eq_str(s, "can_run_amok") { Attr::CanRunAmok }
    else if eq_str(s, "general_unit") { Attr::GeneralUnit }
    else if eq_str(s, "cantabrian_circle") { Attr::CantabrianCircle }
    else if eq_str(s, "no_custom") { Attr::NoCustom }
    else if eq_str(s, "command") { Attr::Command }
    else if eq_str(s, "screeching_women") { Attr::ScreechingWomen }
    else if eq_str(s, "mercenary_unit") { Attr::MercenaryUnit }
    else if eq_str(s, "hardy") { Attr::Hardy }
    else if eq_str(s, "very_hardy") { Attr::VeryHardy }
    else if eq_str(s, "extremely_hardy") { Attr::ExtremelyHardy }
    else if eq_str(s, "inexhaustible") { Attr::Inexhaustible }
    else if eq_str(s, "warcry") { Attr::Warcry }
    else if eq_str(s, "druid") { Attr::Druid }
    else if eq_str(s, "power_charge") { Attr::PowerCharge }
    else if eq_str(s, "can_swim") { Attr::CanSwim }
    else if eq_str(s, "is_peasant") { Attr::IsPeasant }
    else if eq_str(s, "can_horde") { Attr::CanHorde }
    else if eq_str(s, "legionary_name") { Attr::LegionaryName }
    else if eq_str(s, "infinite_ammo") { Attr::InfiniteAmmo }
    else if eq_str(s, "non_scaling") { Attr::NonScaling }
    else if eq_str(s, "free_upkeep_unit") { Attr::FreeUpkeep }
    else if eq_str(s, "can_withdraw") { Attr::CanWithdraw }
    else if eq_str(s, "can_formed_charge") { Attr::FormedCharge }
    else if eq_str(s, "knight") { Attr::Knight }
    else if eq_str(s, "gunpowder_unit") { Attr::Gunpowder }
    else if eq_str(s, "stakes") { Attr::Stakes }
    else if eq_str(s, "fire_by_rank") { Attr::FireByRank }
    else if eq_str(s, "cannot_skirmish") { Attr::NoSkirmish }
    else if eq_str(s, "unique_unit") { Attr::Unique }
    else if eq_str(s, "guncavalry") || eq_str(s, "crossbow") || eq_str(s, "gunmen") || eq_str(s, "peasant")
        || eq_str(s, "pike") || eq_str(s, "incendiary") || eq_str(s, "artillery") || eq_str(s, "cannon")
        || eq_str(s, "rocket") || eq_str(s, "mortar") || eq_str(s, "explode") || eq_str(s, "standard")
        || eq_str(s, "wagon_fort") || eq_str(s, "start_not_skirmishing") { Attr::UiOrAiHint }
    else { Attr::Unknown }
}

/// Whether the event of a general's upgrade can be read from the name.
fn attribute_ok(s: &Vec<char>) -> (b: bool)
    ensures
        b == attr_ok(s@),
{
    if !matches!(named_attribute(s), Attr::Unknown) || !starts_with_str(s, "general_unit_upgrade") {
        return true;
    }
    match split_word(s).1 {
        None => true,
        Some(r) => r.len() >= 2 && (r[0] as u32) < 0x80 && (r[r.len() - 1] as u32) < 0x80,
    }
}

/// The attribute that a name denotes.
pub fn parse_attribute(s: &Vec<char>) -> (a: Attr)
    requires
        attr_ok(s@),
    ensures
        attr_view(a) == attr_of(s@),
{
    let n = named_attribute(s);
    if !matches!(n, Attr::Unknown) {
        n
    } else if starts_with_str(s, "general_unit_upgrade") {
        match split_word(s).1 {
            None => Attr::GeneralUnitUpgrade(string_of(&crate::chars::chars_of("marian_reforms"))),
            Some(r) => Attr::GeneralUnitUpgrade(string_of(&subvec(&r, 1, r.len() - 1))),
        }
    } else {
        Attr::Unknown
    }
}

/// The attribute of a weapon that a name denotes: `spear_bonus_` followed
/// by a number is a spear bonus.
pub open spec fn weapon_attr_of(s: Seq<char>) -> Result<WeaponAttr, ParseError> {
    if s == "ap"@ { Ok(WeaponAttr::ArmorPiercing) }
    else if s == "bp"@ { Ok(WeaponAttr::BodyPiercing) }
    else if s == "spear"@ { Ok(WeaponAttr::Spear) }
    else if s == "long_pike"@ { Ok(WeaponAttr::LongPike) }
    else if s == "short_pike"@ { Ok(WeaponAttr::ShortPike) }
    else if s == "light_spear"@ { Ok(WeaponAttr::LightSpear) }
    else if s == "prec"@ { Ok(WeaponAttr::Precharge) }
    else if s == "thrown"@ { Ok(WeaponAttr::Thrown) }
    else if s == "launching"@ { Ok(WeaponAttr::Launching) }
    else if s == "area"@ { Ok(WeaponAttr::Area) }
    else if s == "fire "@ { Ok(WeaponAttr::Fire) }
    else if starts_with(s, "spear_bonus_"@) {
        match u32_text(s.skip(12)) {
            Some(n) => Ok(WeaponAttr::SpearBonus(n)),
            None => Err(ParseError::InvalidNumber("spear bonus")),
        }
    } else { Ok(WeaponAttr::Unknown) }
}

/// The attribute of a weapon that a name denotes.
pub fn parse_weapon_attribute(s: &Vec<char>) -> (r: Result<WeaponAttr, ParseError>)
    ensures
        r == weapon_attr_of(s@),
{
    if eq_str(s, "ap") { Ok(WeaponAttr::ArmorPiercing) }
    else if eq_str(s, "bp") { Ok(WeaponAttr::BodyPiercing) }
    else if eq_str(s, "spear") { Ok(WeaponAttr::Spear) }
    else if eq_str(s, "long_pike") { Ok(WeaponAttr::LongPike) }
    else if eq_str(s, "short_pike") { Ok(WeaponAttr::ShortPike) }
    else if eq_str(s, "light_spear") { Ok(WeaponAttr::LightSpear) }
    else if eq_str(s, "prec") { Ok(WeaponAttr::Precharge) }
    else if eq_str(s, "thrown") { Ok(WeaponAttr::Thrown) }
    else if eq_str(s, "launching") { Ok(WeaponAttr::Launching) }
    else if eq_str(s, "area") { Ok(WeaponAttr::Area) }
    else if eq_str(s, "fire ") { Ok(WeaponAttr::Fire) }
    else if starts_with_str(s, "spear_bonus_") {
        proof {
            reveal_strlit("spear_bonus_");
        }
        let rest = subvec(s, 12, s.len());
        assert(rest@ =~= s@.skip(12));
        match parse_u32(&rest) {
            Some(n) => Ok(WeaponAttr::SpearBonus(n)),
            None => Err(ParseError::InvalidNumber("spear bonus")),
        }
    } else { Ok(WeaponAttr::Unknown) }
}

/// A comma or a space, the separators of most lists of values.
pub open spec fn opt_comma() -> Seq<char> {
    seq![',', ' ']
}

/// The factions that own a unit: the names separated by commas or spaces.
pub open spec fn ownership_of(owners: Seq<char>) -> Seq<Seq<char>> {
    fields(owners, opt_comma(), false)
}

fn chars2(a: char, b: char) -> (r: Vec<char>)
    ensures
        r@ == seq![a, b],
{
    let mut r: Vec<char> = Vec::new();
    r.push(a);
    r.push(b);
    assert(r@ =~= seq![a, b]);
    r
}

/// The factions that own a unit.
pub fn parse_ownership(owners: &Vec<char>) -> (r: Vec<String>)
    ensures
        r.deep_view() == ownership_of(owners@),
{
    strings_of(&split_fields(owners, &chars2(',', ' '), false))
}

/// The bonuses of a unit on kinds of ground.
#[derive(Debug, Clone, Copy, PartialEq, Eq, Structural)]
pub struct GroundBonus {
    pub scrub: i32,
    pub sand: i32,
    pub forest: i32,
    pub snow: i32,
}

/// The defence of a unit or of its mount.
#[derive(Debug, Clone, Copy, PartialEq, Eq, Structural)]
pub struct Defense {
    pub armor: i32,
    pub skill: i32,
    pub shield: i32,
}

/// A weapon of a unit.
#[derive(Debug)]
pub struct Weapon {
    pub factor: u32,
    pub charge: u32,
    pub missile: String,
    pub range: u32,
    pub ammo: u32,
    pub lethality: String,
    pub weapon_type: String,
    pub tech_type: String,
    pub attributes: Vec<WeaponAttr>,
}

pub struct WeaponView {
    pub factor: u32,
    pub charge: u32,
    pub missile: Seq<char>,
    pub range: u32,
    pub ammo: u32,
    pub lethality: Seq<char>,
    pub weapon_type: Seq<char>,
    pub tech_type: Seq<char>,
    pub attributes: Seq<WeaponAttr>,
}

pub open spec fn weapon_view(w: Weapon) -> WeaponView {
    WeaponView {
        factor: w.factor,
        charge: w.charge,
        missile: w.missile@,
        range: w.range,
        ammo: w.ammo,
        lethality: w.lethality@,
        weapon_type: w.weapon_type@,
        tech_type: w.tech_type@,
        attributes: w.attributes@,
    }
}

/// The weapon of a unit that has none.
pub open spec fn no_weapon() -> WeaponView {
    WeaponView {
        factor: 0,
        charge: 0,
        missile: seq![],
        range: 0,
        ammo: 0,
        lethality: "0"@,
        weapon_type: "no"@,
        tech_type: "no"@,
        attributes: seq![],
    }
}

impl Default for Weapon {
    fn default() -> (w: Self)
        ensures
            weapon_view(w) == no_weapon(),
    {
        Weapon {
            factor: 0,
            charge: 0,
            missile: String::new(),
            range: 0,
            ammo: 0,
            lethality: string_of(&crate::chars::chars_of("0")),
            weapon_type: string_of(&crate::chars::chars_of("no")),
            tech_type: string_of(&crate::chars::chars_of("no")),
            attributes: Vec::new(),
        }
    }
}

/// The `u32` at position `i` of a list of values.
pub open spec fn u32_at(ws: Seq<Seq<char>>, i: int, what: &'static str) -> Result<u32, ParseError> {
    if i >= ws.len() {
        Err(ParseError::Missing(what))
    } else {
        match u32_text(ws[i]) {
            None => Err(ParseError::InvalidNumber(what)),
            Some(n) => Ok(n),
        }
    }
}

/// The `i32` at position `i` of a list of values.
pub open spec fn i32_at(ws: Seq<Seq<char>>, i: int, what: &'static str) -> Result<i32, ParseError> {
    if i >= ws.len() {
        Err(ParseError::Missing(what))
    } else {
        match i32_text(ws[i]) {
            None => Err(ParseError::InvalidNumber(what)),
            Some(n) => Ok(n),
        }
    }
}

/// The value at position `i` of a list of values.
pub open spec fn word_at(ws: Seq<Seq<char>>, i: int, what: &'static str) -> Result<Seq<char>, ParseError> {
    if i >= ws.len() {
        Err(ParseError::Missing(what))
    } else {
        Ok(ws[i])
    }
}

fn u32_at_of(ws: &Vec<Vec<char>>, i: usize, what: &'static str) -> (r: Result<u32, ParseError>)
    ensures
        r == u32_at(views(ws@), i as int, what),
{
    if i >= ws.len() {
        Err(ParseError::Missing(what))
    } else {
        assert(views(ws@)[i as int] == ws@[i as int]@);
        match parse_u32(&ws[i]) {
            None => Err(ParseError::InvalidNumber(what)),
            Some(n) => Ok(n),
        }
    }
}

fn i32_at_of(ws: &Vec<Vec<char>>, i: usize, what: &'static str) -> (r: Result<i32, ParseError>)
    ensures
        r == i32_at(views(ws@), i as int, what),
{
    if i >= ws.len() {
        Err(ParseError::Missing(what))
    } else {
        assert(views(ws@)[i as int] == ws@[i as int]@);
        match parse_i32(&ws[i]) {
            None => Err(ParseError::InvalidNumber(what)),
            Some(n) => Ok(n),
        }
    }
}

fn word_at_of(ws: &Vec<Vec<char>>, i: usize, what: &'static str) -> (r: Result<String, ParseError>)
    ensures
        match (r, word_at(views(ws@), i as int, what)) {
            (Ok(a), Ok(b)) => a@ == b,
            (Err(e1), Err(e2)) => e1 == e2,
            _ => false,
        },
{
    if i >= ws.len() {
        Err(ParseError::Missing(what))
    } else {
        assert(views(ws@)[i as int] == ws@[i as int]@);
        Ok(string_of(&ws[i]))
    }
}

/// The attributes of a weapon, those that are not `no`, in order.
pub open spec fn weapon_attrs_of(attrs: Seq<Seq<char>>) -> Result<Seq<WeaponAttr>, ParseError>
    decreases attrs.len(),
{
    if attrs.len() == 0 {
        Ok(seq![])
    } else {
        match weapon_attrs_of(attrs.drop_last()) {
            Err(e) => Err(e),
            Ok(p) => if attrs.last() == "no"@ {
                Ok(p)
            } else {
                match weapon_attr_of(attrs.last()) {
                    Err(e) => Err(e),
                    Ok(a) => Ok(p.push(a)),
                }
            },
        }
    }
}

/// A weapon from its statistics and attributes: none where the first
/// statistic is `no`; else the strength, charge bonus, missile, range and
/// ammunition, the weapon and tech types (the sixth and seventh values),
/// and the lethality (the eleventh value where it is a number, else 1).
pub open spec fn weapon_of(stats: Seq<Seq<char>>, attrs: Seq<Seq<char>>) -> Result<WeaponView, ParseError> {
    if stats.len() > 0 && stats[0] == "no"@ {
        Ok(no_weapon())
    } else {
        match (u32_at(stats, 0, "weapon strength"), u32_at(stats, 1, "charge bonus")) {
            (Err(e), _) => Err(e),
            (_, Err(e)) => Err(e),
            (Ok(factor), Ok(charge)) => match (word_at(stats, 2, "missile"), u32_at(stats, 3, "range")) {
                (Err(e), _) => Err(e),
                (_, Err(e)) => Err(e),
                (Ok(missile), Ok(range)) => match (u32_at(stats, 4, "ammo"), word_at(stats, 5, "weapon type")) {
                    (Err(e), _) => Err(e),
                    (_, Err(e)) => Err(e),
                    (Ok(ammo), Ok(weapon_type)) => match (word_at(stats, 6, "tech type"), weapon_attrs_of(attrs)) {
                        (Err(e), _) => Err(e),
                        (_, Err(e)) => Err(e),
                        (Ok(tech_type), Ok(attributes)) => Ok(
                            WeaponView {
                                factor,
                                charge,
                                missile,
                                range,
                                ammo,
                                lethality: if stats.len() > 10 && is_float_text(stats[10]) {
                                    stats[10]
                                } else {
                                    "1.0"@
                                },
                                weapon_type,
                                tech_type,
                                attributes,
                            },
                        ),
                    },
                },
            },
        }
    }
}

/// The attributes of a weapon.
fn parse_weapon_attrs(attrs: &Vec<Vec<char>>) -> (r: Result<Vec<WeaponAttr>, ParseError>)
    ensures
        match (r, weapon_attrs_of(views(attrs@))) {
            (Ok(a), Ok(b)) => a@ == b,
            (Err(e1), Err(e2)) => e1 == e2,
            _ => false,
        },
{
    let ghost av = views(attrs@);
    let mut out: Vec<WeaponAttr> = Vec::new();
    let mut i: usize = 0;
    assert(av.take(0) =~= Seq::<Seq<char>>::empty());
    while i < attrs.len()
        invariant
            0 <= i <= attrs.len(),
            av == views(attrs@),
            weapon_attrs_of(av.take(i as int)) == Ok::<Seq<WeaponAttr>, ParseError>(out@),
        decreases attrs.len() - i,
    {
        let ghost pre = av.take(i + 1);
        assert(pre.drop_last() =~= av.take(i as int));
        assert(pre.last() == attrs@[i as int]@);
        if !eq_str(&attrs[i], "no") {
            match parse_weapon_attribute(&attrs[i]) {
                Err(e) => {
                    proof {
                        lemma_weapon_attrs_err(av, i as int + 1, e);
                    }
                    return Err(e);
                },
                Ok(a) => {
                    out.push(a);
                },
            }
        }
        i += 1;
    }
    assert(av.take(attrs.len() as int) =~= av);
    Ok(out)
}

proof fn lemma_weapon_attrs_err(attrs: Seq<Seq<char>>, k: int, e: ParseError)
    requires
        0 <= k <= attrs.len(),
        weapon_attrs_of(attrs.take(k)) == Err::<Seq<WeaponAttr>, ParseError>(e),
    ensures
        weapon_attrs_of(attrs) == Err::<Seq<WeaponAttr>, ParseError>(e),
    decreases attrs.len() - k,
{
    if k < attrs.len() {
        assert(attrs.take(k + 1).drop_last() =~= attrs.take(k));
        lemma_weapon_attrs_err(attrs, k + 1, e);
    } else {
        assert(attrs.take(k) =~= attrs);
    }
}

/// A weapon from its statistics and attributes.
fn parse_weapon(stats: &Vec<Vec<char>>, attrs: &Vec<Vec<char>>) -> (r: Result<Weapon, ParseError>)
    ensures
        match (r, weapon_of(views(stats@), views(attrs@))) {
            (Ok(a), Ok(b)) => weapon_view(a) == b,
            (Err(e1), Err(e2)) => e1 == e2,
            _ => false,
        },
{
    let ghost sv = views(stats@);
    if stats.len() > 0 && eq_str(&stats[0], "no") {
        assert(sv[0] == stats@[0]@);
        return Ok(Weapon::default());
    }
    let factor = match u32_at_of(stats, 0, "weapon strength") {
        Err(e) => {
            return Err(e);
        },
        Ok(x) => x,
    };
    let charge = match u32_at_of(stats, 1, "charge bonus") {
        Err(e) => {
            return Err(e);
        },
        Ok(x) => x,
    };
    let missile = match word_at_of(stats, 2, "missile") {
        Err(e) => {
            return Err(e);
        },
        Ok(x) => x,
    };
    let range = match u32_at_of(stats, 3, "range") {
        Err(e) => {
            return Err(e);
        },
        Ok(x) => x,
    };
    let ammo = match u32_at_of(stats, 4, "ammo") {
        Err(e) => {
            return Err(e);
        },
        Ok(x) => x,
    };
    let weapon_type = match word_at_of(stats, 5, "weapon type") {
        Err(e) => {
            return Err(e);
        },
        Ok(x) => x,
    };
    let tech_type = match word_at_of(stats, 6, "tech type") {
        Err(e) => {
            return Err(e);
        },
        Ok(x) => x,
    };
    let attributes = match parse_weapon_attrs(attrs) {
        Err(e) => {
            return Err(e);
        },
        Ok(x) => x,
    };
    let lethality = if stats.len() > 10 && is_float_chars(&stats[10]) {
        assert(sv[10] == stats@[10]@);
        string_of(&stats[10])
    } else {
        proof {
            if stats.len() > 10 {
                assert(sv[10] == stats@[10]@);
            }
        }
        string_of(&crate::chars::chars_of("1.0"))
    };
    Ok(
        Weapon {
            factor,
            charge,
            missile,
            range,
            ammo,
            lethality,
            weapon_type,
            tech_type,
            attributes,
        },
    )
}

/// The value at position `i` where it is an `i32`, else 0.
pub open spec fn i32_or_zero(ws: Seq<Seq<char>>, i: int) -> i32 {
    if i < ws.len() && i32_text(ws[i]) is Some {
        i32_text(ws[i]).unwrap()
    } else {
        0
    }
}

/// A defence from its statistics: the armour and skill (each required,
/// and 0 where it is not a number) and the shield (0 where it is missing or
/// not a number).
pub open spec fn defense_of(ws: Seq<Seq<char>>) -> Result<Defense, ParseError> {
    if ws.len() < 1 {
        Err(ParseError::Missing("armor bonus"))
    } else if ws.len() < 2 {
        Err(ParseError::Missing("skill bonus"))
    } else {
        Ok(Defense { armor: i32_or_zero(ws, 0), skill: i32_or_zero(ws, 1), shield: i32_or_zero(ws, 2) })
    }
}

fn i32_or_zero_of(ws: &Vec<Vec<char>>, i: usize) -> (r: i32)
    ensures
        r == i32_or_zero(views(ws@), i as int),
{
    if i < ws.len() {
        assert(views(ws@)[i as int] == ws@[i as int]@);
        match parse_i32(&ws[i]) {
            Some(n) => n,
            None => 0,
        }
    } else {
        0
    }
}

/// A defence from its statistics.
fn parse_defense(ws: &Vec<Vec<char>>) -> (r: Result<Defense, ParseError>)
    ensures
        r == defense_of(views(ws@)),
{
    if ws.len() < 1 {
        Err(ParseError::Missing("armor bonus"))
    } else if ws.len() < 2 {
        Err(ParseError::Missing("skill bonus"))
    } else {
        Ok(
            Defense {
                armor: i32_or_zero_of(ws, 0),
                skill: i32_or_zero_of(ws, 1),
                shield: i32_or_zero_of(ws, 2),
            },
        )
    }
}

/// The ground bonuses: on scrub, sand, forest and snow.
pub open spec fn ground_of(ws: Seq<Seq<char>>) -> Result<GroundBonus, ParseError> {
    match (i32_at(ws, 0, "scrub bonus"), i32_at(ws, 1, "sand bonus")) {
        (Err(e), _) => Err(e),
        (_, Err(e)) => Err(e),
        (Ok(scrub), Ok(sand)) => match (i32_at(ws, 2, "forest bonus"), i32_at(ws, 3, "snow bonus")) {
            (Err(e), _) => Err(e),
            (_, Err(e)) => Err(e),
            (Ok(forest), Ok(snow)) => Ok(GroundBonus { scrub, sand, forest, snow }),
        },
    }
}

/// The ground bonuses.
fn parse_ground(ws: &Vec<Vec<char>>) -> (r: Result<GroundBonus, ParseError>)
    ensures
        r == ground_of(views(ws@)),
{
    let scrub = match i32_at_of(ws, 0, "scrub bonus") {
        Err(e) => {
            return Err(e);
        },
        Ok(x) => x,
    };
    let sand = match i32_at_of(ws, 1, "sand bonus") {
        Err(e) => {
            return Err(e);
        },
        Ok(x) => x,
    };
    let forest = match i32_at_of(ws, 2, "forest bonus") {
        Err(e) => {
            return Err(e);
        },
        Ok(x) => x,
    };
    let snow = match i32_at_of(ws, 3, "snow bonus") {
        Err(e) => {
            return Err(e);
        },
        Ok(x) => x,
    };
    Ok(GroundBonus { scrub, sand, forest, snow })
}

/// The statistics of a unit.
#[derive(Debug)]
pub struct StatBlock {
    pub soldiers: u32,
    pub officers: u32,
    pub mount: Option<String>,
    pub attributes: Vec<Attr>,
    pub formations: Vec<String>,
    pub hp: i32,
    pub hp_mount: i32,
    pub primary_weapon: Weapon,
    pub secondary_weapon: Weapon,
    pub defense: Defense,
    pub defense_mount: Defense,
    pub heat: i32,
    pub ground_bonus: GroundBonus,
    pub morale: u32,
    pub discipline: String,
    pub turns: u32,
    pub cost: u32,
    pub upkeep: u32,
    pub speed_mod: String,
}

/// A unit.
#[derive(Debug)]
pub struct Unit {
    pub id: String,
    pub key: String,
    pub category: String,
    pub class: String,
    pub stats: StatBlock,
    pub ownership: Vec<String>,
}

pub struct StatView {
    pub soldiers: u32,
    pub officers: u32,
    pub mount: Option<Seq<char>>,
    pub attributes: Seq<AttrView>,
    pub formations: Seq<Seq<char>>,
    pub hp: i32,
    pub hp_mount: i32,
    pub primary_weapon: WeaponView,
    pub secondary_weapon: WeaponView,
    pub defense: Defense,
    pub defense_mount: Defense,
    pub heat: i32,
    pub ground_bonus: GroundBonus,
    pub morale: u32,
    pub discipline: Seq<char>,
    pub turns: u32,
    pub cost: u32,
    pub upkeep: u32,
    pub speed_mod: Seq<char>,
}

pub struct UnitView {
    pub id: Seq<char>,
    pub key: Seq<char>,
    pub category: Seq<char>,
    pub class: Seq<char>,
    pub stats: StatView,
    pub ownership: Seq<Seq<char>>,
}

pub open spec fn attrs_view(a: Seq<Attr>) -> Seq<AttrView> {
    Seq::new(a.len(), |i: int| attr_view(a[i]))
}

pub open spec fn stat_view(s: StatBlock) -> StatView {
    StatView {
        soldiers: s.soldiers,
        officers: s.officers,
        mount: opt_string_view(s.mount),
        attributes: attrs_view(s.attributes@),
        formations: s.formations.deep_view(),
        hp: s.hp,
        hp_mount: s.hp_mount,
        primary_weapon: weapon_view(s.primary_weapon),
        secondary_weapon: weapon_view(s.secondary_weapon),
        defense: s.defense,
        defense_mount: s.defense_mount,
        heat: s.heat,
        ground_bonus: s.ground_bonus,
        morale: s.morale,
        discipline: s.discipline@,
        turns: s.turns,
        cost: s.cost,
        upkeep: s.upkeep,
        speed_mod: s.speed_mod@,
    }
}

pub open spec fn unit_view(u: Unit) -> UnitView {
    UnitView {
        id: u.id@,
        key: u.key@,
        category: u.category@,
        class: u.class@,
        stats: stat_view(u.stats),
        ownership: u.ownership.deep_view(),
    }
}

pub open spec fn units_view(us: Seq<Unit>) -> Seq<UnitView> {
    Seq::new(us.len(), |i: int| unit_view(us[i]))
}

/// The values of a line, split at the separators, trimmed, empty ones
/// dropped; `None` where the line is not there or has no value.
pub open spec fn split_line(es: Entries, key: Seq<char>, seps: Seq<char>) -> Option<Seq<Seq<char>>> {
    match line_value(es, key) {
        None => None,
        Some(v) => Some(fields(v, seps, false)),
    }
}

/// The number of soldiers: the second value of a `soldier` line, else the
/// first of a `soldiers` line.
pub open spec fn soldiers_of(soldier: Option<Seq<Seq<char>>>, soldiers: Option<Seq<Seq<char>>>) -> Result<
    u32,
    ParseError,
> {
    match soldier {
        Some(l) => u32_at(l, 1, "# of soldiers"),
        None => match soldiers {
            Some(l) => u32_at(l, 0, "# of soldiers"),
            None => Err(ParseError::Missing("soldier/soldiers info")),
        },
    }
}

/// How many entries have the keyword `key`.
pub open spec fn count_key(es: Entries, key: Seq<char>) -> nat
    decreases es.len(),
{
    if es.len() == 0 {
        0
    } else {
        count_key(es.drop_last(), key) + if es.last().0 == key {
            1nat
        } else {
            0nat
        }
    }
}

pub open spec fn attrs_all_ok(attrs: Seq<Seq<char>>) -> bool {
    forall|i: int| 0 <= i < attrs.len() ==> attr_ok(#[trigger] attrs[i])
}

/// The statistics from the values of their lines, in the order in which
/// they are read: the speed modifier (1.0 where there is none), the
/// soldiers, the attributes, the formations (from the sixth value of the
/// `formation` line on), the hit points, the weapons, the defences, the
/// heat, ground and mental statistics and the costs.
pub open spec fn stat_values(
    es: Entries,
    attrs: Seq<Seq<char>>,
    forms: Seq<Seq<char>>,
    health: Seq<Seq<char>>,
    pri: Seq<Seq<char>>,
    pri_attr: Seq<Seq<char>>,
    sec: Seq<Seq<char>>,
    sec_attr: Seq<Seq<char>>,
    pri_armour: Seq<Seq<char>>,
    sec_armour: Seq<Seq<char>>,
    heat: Seq<Seq<char>>,
    ground: Seq<Seq<char>>,
    mental: Seq<Seq<char>>,
    cost: Seq<Seq<char>>,
) -> Result<StatView, ParseError> {
    let speed = match line_value(es, "move_speed_mod"@) {
        Some(v) => v,
        None => "1.0"@,
    };
    if !is_float_text(speed) {
        Err(ParseError::InvalidNumber("move_speed_mod"))
    } else {
        match soldiers_of(
            split_line(es, "soldier"@, opt_comma()),
            split_line(es, "soldiers"@, opt_comma()),
        ) {
            Err(e) => Err(e),
            Ok(soldiers) => if !attrs_all_ok(attrs) {
                Err(ParseError::Invalid("general_unit_upgrade"))
            } else if forms.len() < 5 {
                Err(ParseError::Missing("formations"))
            } else {
                match (i32_at(health, 0, "hit points"), i32_at(health, 1, "mount hit points")) {
                    (Err(e), _) => Err(e),
                    (_, Err(e)) => Err(e),
                    (Ok(hp), Ok(hp_mount)) => match (weapon_of(pri, pri_attr), weapon_of(sec, sec_attr)) {
                        (Err(e), _) => Err(e),
                        (_, Err(e)) => Err(e),
                        (Ok(w1), Ok(w2)) => match (defense_of(pri_armour), defense_of(sec_armour)) {
                            (Err(e), _) => Err(e),
                            (_, Err(e)) => Err(e),
                            (Ok(d1), Ok(d2)) => match (i32_at(heat, 0, "heat bonus/penalty"), ground_of(ground)) {
                                (Err(e), _) => Err(e),
                                (_, Err(e)) => Err(e),
                                (Ok(h), Ok(g)) => match (u32_at(mental, 0, "morale"), word_at(mental, 1, "morale")) {
                                    (Err(e), _) => Err(e),
                                    (_, Err(e)) => Err(e),
                                    (Ok(morale), Ok(discipline)) => match (
                                        u32_at(cost, 0, "build turns"),
                                        u32_at(cost, 1, "cost"),
                                        u32_at(cost, 2, "upkeep"),
                                    ) {
                                        (Err(e), _, _) => Err(e),
                                        (_, Err(e), _) => Err(e),
                                        (_, _, Err(e)) => Err(e),
                                        (Ok(turns), Ok(c), Ok(upkeep)) => Ok(
                                            StatView {
                                                soldiers,
                                                officers: count_key(es, "officer"@) as u32,
                                                mount: line_value(es, "mount"@),
                                                attributes: Seq::new(attrs.len(), |i: int| attr_of(attrs[i])),
                                                formations: forms.skip(5),
                                                hp,
                                                hp_mount,
                                                primary_weapon: w1,
                                                secondary_weapon: w2,
                                                defense: d1,
                                                defense_mount: d2,
                                                heat: h,
                                                ground_bonus: g,
                                                morale,
                                                discipline,
                                                turns,
                                                cost: c,
                                                upkeep,
                                                speed_mod: speed,
                                            },
                                        ),
                                    },
                                },
                            },
                        },
                    },
                }
            },
        }
    }
}

/// The statistics of a unit's entries: the lines they are read from must
/// all be there, with values; `attributes` is split at commas, the others at
/// commas and spaces.
pub open spec fn statblock_of(es: Entries) -> Result<StatView, ParseError> {
    let oc = opt_comma();
    let attrs = split_line(es, "attributes"@, seq![',']);
    let forms = split_line(es, "formation"@, oc);
    let health = split_line(es, "stat_health"@, oc);
    let pri = split_line(es, "stat_pri"@, oc);
    let pri_attr = split_line(es, "stat_pri_attr"@, oc);
    let sec = split_line(es, "stat_sec"@, oc);
    let sec_attr = split_line(es, "stat_sec_attr"@, oc);
    let pri_armour = split_line(es, "stat_pri_armour"@, oc);
    let sec_armour = split_line(es, "stat_sec_armour"@, oc);
    let heat = split_line(es, "stat_heat"@, oc);
    let ground = split_line(es, "stat_ground"@, oc);
    let mental = split_line(es, "stat_mental"@, oc);
    let cost = split_line(es, "stat_cost"@, oc);
    if attrs is None {
        Err(ParseError::KeyNotFound("attributes"))
    } else if forms is None {
        Err(ParseError::KeyNotFound("formation"))
    } else if health is None {
        Err(ParseError::KeyNotFound("stat_health"))
    } else if pri is None {
        Err(ParseError::KeyNotFound("stat_pri"))
    } else if pri_attr is None {
        Err(ParseError::KeyNotFound("stat_pri_attr"))
    } else if sec is None {
        Err(ParseError::KeyNotFound("stat_sec"))
    } else if sec_attr is None {
        Err(ParseError::KeyNotFound("stat_sec_attr"))
    } else if pri_armour is None {
        Err(ParseError::KeyNotFound("stat_pri_armour"))
    } else if sec_armour is None {
        Err(ParseError::KeyNotFound("stat_sec_armour"))
    } else if heat is None {
        Err(ParseError::KeyNotFound("stat_heat"))
    } else if ground is None {
        Err(ParseError::KeyNotFound("stat_ground"))
    } else if mental is None {
        Err(ParseError::KeyNotFound("stat_mental"))
    } else if cost is None {
        Err(ParseError::KeyNotFound("stat_cost"))
    } else {
        stat_values(
            es,
            attrs.unwrap(),
            forms.unwrap(),
            health.unwrap(),
            pri.unwrap(),
            pri_attr.unwrap(),
            sec.unwrap(),
            sec_attr.unwrap(),
            pri_armour.unwrap(),
            sec_armour.unwrap(),
            heat.unwrap(),
            ground.unwrap(),
            mental.unwrap(),
            cost.unwrap(),
        )
    }
}

/// A unit record: its `type` (the id), `dictionary` key, `category`,
/// `class`, `ownership` and statistics.
pub open spec fn unit_of(g: Seq<Seq<char>>) -> Result<UnitView, ParseError> {
    let es = record_entries(g);
    match (line_value(es, "type"@), line_value(es, "dictionary"@)) {
        (None, _) => Err(ParseError::KeyNotFound("type")),
        (_, None) => Err(ParseError::KeyNotFound("dictionary")),
        (Some(id), Some(key)) => match (line_value(es, "category"@), line_value(es, "class"@)) {
            (None, _) => Err(ParseError::KeyNotFound("category")),
            (_, None) => Err(ParseError::KeyNotFound("class")),
            (Some(category), Some(class)) => match line_value(es, "ownership"@) {
                None => Err(ParseError::KeyNotFound("ownership")),
                Some(o) => match statblock_of(es) {
                    Err(e) => Err(e),
                    Ok(stats) => Ok(
                        UnitView { id, key, category, class, stats, ownership: ownership_of(o) },
                    ),
                },
            },
        },
    }
}

pub open spec fn unit_reader() -> spec_fn(Seq<Seq<char>>) -> Result<UnitView, ParseError> {
    |g: Seq<Seq<char>>| unit_of(g)
}

/// The units of an `export_descr_unit.txt` text, in file order.
pub open spec fn unit_file(s: Seq<char>) -> Result<Seq<UnitView>, ParseError> {
    map_all(group_by_header(clean_lines(s), "type"@), unit_reader())
}

type EntryList = Vec<(Vec<char>, Option<Vec<char>>)>;

/// The values of a line, split at the separators.
fn line_fields(es: &EntryList, key: &str, seps: &Vec<char>) -> (r: Option<Vec<Vec<char>>>)
    ensures
        match (r, split_line(entries_view(es@), key@, seps@)) {
            (Some(a), Some(b)) => views(a@) == b,
            (None, None) => true,
            _ => false,
        },
{
    match value_of(es, key) {
        None => None,
        Some(v) => Some(split_fields(&v, seps, false)),
    }
}

/// How many entries have the keyword `officer`.
fn count_officers(es: &EntryList) -> (r: u32)
    ensures
        r == count_key(entries_view(es@), "officer"@) as u32,
{
    let ghost ev = entries_view(es@);
    let mut c: usize = 0;
    let mut i: usize = 0;
    assert(ev.take(0) =~= Seq::<(Seq<char>, Option<Seq<char>>)>::empty());
    while i < es.len()
        invariant
            0 <= i <= es.len(),
            ev == entries_view(es@),
            c == count_key(ev.take(i as int), "officer"@),
            c <= i,
        decreases es.len() - i,
    {
        let ghost pre = ev.take(i + 1);
        assert(pre.drop_last() =~= ev.take(i as int));
        assert(pre.last() == ev[i as int]);
        if eq_str(&es[i].0, "officer") {
            c += 1;
        }
        i += 1;
    }
    assert(ev.take(es.len() as int) =~= ev);
    c as u32
}

/// The attributes of a unit, where the event of every general's upgrade
/// among them can be read.
fn parse_attributes(attrs: &Vec<Vec<char>>) -> (r: Option<Vec<Attr>>)
    ensures
        match r {
            Some(a) => attrs_all_ok(views(attrs@)) && attrs_view(a@) == Seq::new(
                attrs@.len(),
                |i: int| attr_of(views(attrs@)[i]),
            ),
            None => !attrs_all_ok(views(attrs@)),
        },
{
    let ghost av = views(attrs@);
    let mut out: Vec<Attr> = Vec::new();
    let mut i: usize = 0;
    while i < attrs.len()
        invariant
            0 <= i <= attrs.len(),
            av == views(attrs@),
            out@.len() == i,
            forall|j: int| 0 <= j < i ==> attr_ok(#[trigger] av[j]),
            forall|j: int| 0 <= j < i ==> attr_view(#[trigger] out@[j]) == attr_of(av[j]),
        decreases attrs.len() - i,
    {
        assert(av[i as int] == attrs@[i as int]@);
        if !attribute_ok(&attrs[i]) {
            return None;
        }
        out.push(parse_attribute(&attrs[i]));
        i += 1;
    }
    assert(attrs_view(out@) =~= Seq::new(attrs@.len(), |i: int| attr_of(av[i])));
    Some(out)
}

/// The values from position `from` on.
fn tail_of(ws: &Vec<Vec<char>>, from: usize) -> (r: Vec<String>)
    requires
        from <= ws.len(),
    ensures
        r.deep_view() == views(ws@).skip(from as int),
{
    let mut r: Vec<String> = Vec::new();
    let mut i = from;
    while i < ws.len()
        invariant
            from <= i <= ws.len(),
            r.deep_view() == views(ws@).subrange(from as int, i as int),
        decreases ws.len() - i,
    {
        let ghost before = r.deep_view();
        r.push(string_of(&ws[i]));
        assert(r.deep_view() =~= before.push(ws@[i as int]@));
        assert(r.deep_view() =~= views(ws@).subrange(from as int, i + 1));
        i += 1;
    }
    assert(views(ws@).subrange(from as int, ws.len() as int) =~= views(ws@).skip(from as int));
    r
}

/// The statistics from the values of their lines.
#[verifier::rlimit(40)]
fn parse_stat_values(
    es: &EntryList,
    attrs: &Vec<Vec<char>>,
    forms: &Vec<Vec<char>>,
    health: &Vec<Vec<char>>,
    pri: &Vec<Vec<char>>,
    pri_attr: &Vec<Vec<char>>,
    sec: &Vec<Vec<char>>,
    sec_attr: &Vec<Vec<char>>,
    pri_armour: &Vec<Vec<char>>,
    sec_armour: &Vec<Vec<char>>,
    heat: &Vec<Vec<char>>,
    ground: &Vec<Vec<char>>,
    mental: &Vec<Vec<char>>,
    cost: &Vec<Vec<char>>,
) -> (r: Result<StatBlock, ParseError>)
    ensures
        match (
            r,
            stat_values(
                entries_view(es@),
                views(attrs@),
                views(forms@),
                views(health@),
                views(pri@),
                views(pri_attr@),
                views(sec@),
                views(sec_attr@),
                views(pri_armour@),
                views(sec_armour@),
                views(heat@),
                views(ground@),
                views(mental@),
                views(cost@),
            ),
        ) {
            (Ok(a), Ok(b)) => stat_view(a) == b,
            (Err(e1), Err(e2)) => e1 == e2,
            _ => false,
        },
{
    let speed = match value_of(es, "move_speed_mod") {
        Some(v) => v,
        None => crate::chars::chars_of("1.0"),
    };
    if !is_float_chars(&speed) {
        return Err(ParseError::InvalidNumber("move_speed_mod"));
    }
    let oc = chars2(',', ' ');
    let soldier = line_fields(es, "soldier", &oc);
    let soldiers = match &soldier {
        Some(l) => u32_at_of(l, 1, "# of soldiers"),
        None => match line_fields(es, "soldiers", &oc) {
            Some(l) => u32_at_of(&l, 0, "# of soldiers"),
            None => Err(ParseError::Missing("soldier/soldiers info")),
        },
    };
    let soldiers = match soldiers {
        Err(e) => {
            return Err(e);
        },
        Ok(n) => n,
    };
    let attributes = match parse_attributes(attrs) {
        None => {
            return Err(ParseError::Invalid("general_unit_upgrade"));
        },
        Some(a) => a,
    };
    if forms.len() < 5 {
        return Err(ParseError::Missing("formations"));
    }
    let hp = match i32_at_of(health, 0, "hit points") {
        Err(e) => {
            return Err(e);
        },
        Ok(x) => x,
    };
    let hp_mount = match i32_at_of(health, 1, "mount hit points") {
        Err(e) => {
            return Err(e);
        },
        Ok(x) => x,
    };
    let primary_weapon = match parse_weapon(pri, pri_attr) {
        Err(e) => {
            return Err(e);
        },
        Ok(x) => x,
    };
    let secondary_weapon = match parse_weapon(sec, sec_attr) {
        Err(e) => {
            return Err(e);
        },
        Ok(x) => x,
    };
    let defense = match parse_defense(pri_armour) {
        Err(e) => {
            return Err(e);
        },
        Ok(x) => x,
    };
    let defense_mount = match parse_defense(sec_armour) {
        Err(e) => {
            return Err(e);
        },
        Ok(x) => x,
    };
    let heat_v = match i32_at_of(heat, 0, "heat bonus/penalty") {
        Err(e) => {
            return Err(e);
        },
        Ok(x) => x,
    };
    let ground_bonus = match parse_ground(ground) {
        Err(e) => {
            return Err(e);
        },
        Ok(x) => x,
    };
    let morale = match u32_at_of(mental, 0, "morale") {
        Err(e) => {
            return Err(e);
        },
        Ok(x) => x,
    };
    let discipline = match word_at_of(mental, 1, "morale") {
        Err(e) => {
            return Err(e);
        },
        Ok(x) => x,
    };
    let turns = match u32_at_of(cost, 0, "build turns") {
        Err(e) => {
            return Err(e);
        },
        Ok(x) => x,
    };
    let cost_v = match u32_at_of(cost, 1, "cost") {
        Err(e) => {
            return Err(e);
        },
        Ok(x) => x,
    };
    let upkeep = match u32_at_of(cost, 2, "upkeep") {
        Err(e) => {
            return Err(e);
        },
        Ok(x) => x,
    };
    let mount = match value_of(es, "mount") {
        Some(m) => Some(string_of(&m)),
        None => None,
    };
    Ok(
        StatBlock {
            soldiers,
            officers: count_officers(es),
            mount,
            attributes,
            formations: tail_of(forms, 5),
            hp,
            hp_mount,
            primary_weapon,
            secondary_weapon,
            defense,
            defense_mount,
            heat: heat_v,
            ground_bonus,
            morale,
            discipline,
            turns,
            cost: cost_v,
            upkeep,
            speed_mod: string_of(&speed),
        },
    )
}

/// A required line's values, or the error that it is not there.
fn required_fields(es: &EntryList, key: &'static str, seps: &Vec<char>) -> (r: Result<
    Vec<Vec<char>>,
    ParseError,
>)
    ensures
        match (r, split_line(entries_view(es@), key@, seps@)) {
            (Ok(a), Some(b)) => views(a@) == b,
            (Err(e), None) => e == ParseError::KeyNotFound(key),
            _ => false,
        },
{
    match line_fields(es, key, seps) {
        Some(v) => Ok(v),
        None => Err(ParseError::KeyNotFound(key)),
    }
}

/// The statistics of a unit's entries.
#[verifier::rlimit(40)]
fn parse_statblock(es: &EntryList) -> (r: Result<StatBlock, ParseError>)
    ensures
        match (r, statblock_of(entries_view(es@))) {
            (Ok(a), Ok(b)) => stat_view(a) == b,
            (Err(e1), Err(e2)) => e1 == e2,
            _ => false,
        },
{
    let oc = chars2(',', ' ');
    let mut comma: Vec<char> = Vec::new();
    comma.push(',');
    assert(comma@ =~= seq![',']);
    let attrs = match required_fields(es, "attributes", &comma) {
        Err(e) => {
            return Err(e);
        },
        Ok(x) => x,
    };
    let forms = match required_fields(es, "formation", &oc) {
        Err(e) => {
            return Err(e);
        },
        Ok(x) => x,
    };
    let health = match required_fields(es, "stat_health", &oc) {
        Err(e) => {
            return Err(e);
        },
        Ok(x) => x,
    };
    let pri = match required_fields(es, "stat_pri", &oc) {
        Err(e) => {
            return Err(e);
        },
        Ok(x) => x,
    };
    let pri_attr = match required_fields(es, "stat_pri_attr", &oc) {
        Err(e) => {
            return Err(e);
        },
        Ok(x) => x,
    };
    let sec = match required_fields(es, "stat_sec", &oc) {
        Err(e) => {
            return Err(e);
        },
        Ok(x) => x,
    };
    let sec_attr = match required_fields(es, "stat_sec_attr", &oc) {
        Err(e) => {
            return Err(e);
        },
        Ok(x) => x,
    };
    let pri_armour = match required_fields(es, "stat_pri_armour", &oc) {
        Err(e) => {
            return Err(e);
        },
        Ok(x) => x,
    };
    let sec_armour = match required_fields(es, "stat_sec_armour", &oc) {
        Err(e) => {
            return Err(e);
        },
        Ok(x) => x,
    };
    let heat = match required_fields(es, "stat_heat", &oc) {
        Err(e) => {
            return Err(e);
        },
        Ok(x) => x,
    };
    let ground = match required_fields(es, "stat_ground", &oc) {
        Err(e) => {
            return Err(e);
        },
        Ok(x) => x,
    };
    let mental = match required_fields(es, "stat_mental", &oc) {
        Err(e) => {
            return Err(e);
        },
        Ok(x) => x,
    };
    let cost = match required_fields(es, "stat_cost", &oc) {
        Err(e) => {
            return Err(e);
        },
        Ok(x) => x,
    };
    parse_stat_values(
        es,
        &attrs,
        &forms,
        &health,
        &pri,
        &pri_attr,
        &sec,
        &sec_attr,
        &pri_armour,
        &sec_armour,
        &heat,
        &ground,
        &mental,
        &cost,
    )
}

/// A unit record.
fn parse_unit(lines: &Vec<Vec<char>>) -> (r: Result<Unit, ParseError>)
    ensures
        match (r, unit_of(views(lines@))) {
            (Ok(a), Ok(b)) => unit_view(a) == b,
            (Err(e1), Err(e2)) => e1 == e2,
            _ => false,
        },
{
    let es = entries_of(lines);
    let id = match value_of(&es, "type") {
        None => {
            return Err(ParseError::KeyNotFound("type"));
        },
        Some(v) => v,
    };
    let key = match value_of(&es, "dictionary") {
        None => {
            return Err(ParseError::KeyNotFound("dictionary"));
        },
        Some(v) => v,
    };
    let category = match value_of(&es, "category") {
        None => {
            return Err(ParseError::KeyNotFound("category"));
        },
        Some(v) => v,
    };
    let class = match value_of(&es, "class") {
        None => {
            return Err(ParseError::KeyNotFound("class"));
        },
        Some(v) => v,
    };
    let owners = match value_of(&es, "ownership") {
        None => {
            return Err(ParseError::KeyNotFound("ownership"));
        },
        Some(v) => v,
    };
    let stats = match parse_statblock(&es) {
        Err(e) => {
            return Err(e);
        },
        Ok(s) => s,
    };
    Ok(
        Unit {
            id: string_of(&id),
            key: string_of(&key),
            category: string_of(&category),
            class: string_of(&class),
            stats,
            ownership: parse_ownership(&owners),
        },
    )
}

/// Reads the units of an `export_descr_unit.txt` text: comments cut, lines
/// trimmed and non-empty, grouped into records that each begin with a
/// `type` line.
pub fn parse(data: &str, _mode: ParserMode) -> (res: Result<Vec<Unit>, ParseError>)
    requires
        leads_with(clean_lines(data@), "type"@),
    ensures
        match (res, unit_file(data@)) {
            (Ok(a), Ok(b)) => units_view(a@) == b,
            (Err(e1), Err(e2)) => e1 == e2,
            _ => false,
        },
{
    let ls = clean_lines_of(data);
    let gs = group_lines(ls, "type");
    let ghost spec_gs = group_by_header(clean_lines(data@), "type"@);
    let ghost f = unit_reader();
    let mut out: Vec<Unit> = Vec::new();
    let mut i: usize = 0;
    assert(spec_gs.take(0) =~= Seq::<Seq<Seq<char>>>::empty());
    assert(units_view(out@) =~= Seq::<UnitView>::empty());
    while i < gs.len()
        invariant
            0 <= i <= gs.len(),
            group_views(gs@) == spec_gs,
            spec_gs == group_by_header(clean_lines(data@), "type"@),
            f == unit_reader(),
            map_all(spec_gs.take(i as int), f) == Ok::<_, ParseError>(units_view(out@)),
        decreases gs.len() - i,
    {
        proof {
            lemma_map_all_step(spec_gs, f, i as int);
        }
        assert(spec_gs[i as int] == views(gs@[i as int]@));
        match parse_unit(&gs[i]) {
            Err(e) => {
                proof {
                    lemma_map_all_err(spec_gs, f, i + 1, e);
                }
                return Err(e);
            },
            Ok(u) => {
                let ghost old = units_view(out@);
                out.push(u);
                assert(units_view(out@) =~= old.push(unit_view(u)));
            },
        }
        i += 1;
    }
    assert(spec_gs.take(gs.len() as int) =~= spec_gs);
    Ok(out)
}

} // verus!
