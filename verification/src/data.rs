use vstd::prelude::*;

use crate::collections::{AssocMap, KeySet};
use crate::components::{CardEffect, Faction, Leader, Location, SpiceCard, TreacheryCard};

verus! {

/// What a faction starts the game with.
pub struct FactionStartingValues {
    /// Forces placed on the board during setup.
    pub units: u8,
    /// Where the starting forces may go; any territory when absent.
    pub possible_locations: Option<KeySet<Location>>,
    pub spice: u8,
}

pub struct FactionData {
    pub name: String,
    pub starting_values: FactionStartingValues,
    /// How many of the faction's twenty forces are special forces.
    pub special_forces: u8,
}

pub struct LeaderData {
    pub name: String,
    pub power: u8,
    pub faction: Faction,
    pub texture: String,
}

pub struct CardEffectData {
    pub description: String,
}

pub struct TreacheryCardData {
    pub name: String,
    pub effect: CardEffect,
    pub textures: Vec<String>,
}

pub struct SpiceCardData {
    pub name: String,
    /// Where the card blows spice; absent for the worm.
    pub location_data: Option<SpiceLocationData>,
    pub texture: String,
}

/// The sector a spice card blows in and how much spice it places there.
#[derive(Copy, Clone, PartialEq, Eq, Structural, Debug, Hash)]
pub struct SpiceLocationData {
    pub location: Location,
    pub sector: u8,
    pub spice: u8,
}

impl View for FactionData {
    type V = FactionData;

    open spec fn view(&self) -> FactionData {
        *self
    }
}

impl View for LeaderData {
    type V = LeaderData;

    open spec fn view(&self) -> LeaderData {
        *self
    }
}

impl View for TreacheryCardData {
    type V = TreacheryCardData;

    open spec fn view(&self) -> TreacheryCardData {
        *self
    }
}

impl View for SpiceCardData {
    type V = SpiceCardData;

    open spec fn view(&self) -> SpiceCardData {
        *self
    }
}

/// The rule tables of the game: factions, leaders, cards.
pub struct Data {
    pub leaders: AssocMap<Leader, LeaderData>,
    pub factions: AssocMap<Faction, FactionData>,
    pub treachery_cards: AssocMap<TreacheryCard, TreacheryCardData>,
    pub spice_cards: AssocMap<SpiceCard, SpiceCardData>,
    /// The treachery cards of a game, in the order they are dealt into the deck.
    pub treachery_deck: Vec<TreacheryCard>,
}

/// Every faction has an entry in the faction table.
pub open spec fn has_all_factions(data: &Data) -> bool {
    forall|f: Faction| #[trigger] data.factions@.dom().contains(f)
}

impl Data {
    /// Whether every faction has an entry in the faction table.
    pub fn has_all_factions(&self) -> (r: bool)
        ensures
            r == has_all_factions(self),
    {
        let all = Faction::all();
        let mut i: usize = 0;
        while i < all.len()
            invariant
                i <= all@.len(),
                all@ == crate::components::all_factions(),
                forall|j: int| 0 <= j < i ==> self.factions@.dom().contains(#[trigger] all@[j]),
            decreases all@.len() - i,
        {
            if !self.factions.contains_key(&all[i]) {
                return false;
            }
            i = i + 1;
        }
        assert forall|f: Faction| #[trigger] self.factions@.dom().contains(f) by {
            match f {
                Faction::Atreides => assert(all@[0] == f),
                Faction::Harkonnen => assert(all@[1] == f),
                Faction::Emperor => assert(all@[2] == f),
                Faction::SpacingGuild => assert(all@[3] == f),
                Faction::Fremen => assert(all@[4] == f),
                Faction::BeneGesserit => assert(all@[5] == f),
            }
        }
        true
    }
}

} // verus!
