use vstd::prelude::*;

use crate::collections::{AssocMap, KeySet};
use crate::components::Faction;
use crate::data::Data;
use crate::object::{Object, ObjectId, ObjectSet};
use crate::components::{Location, LocationSector, SpiceCard};
use crate::phase::{Phase, SetupPhase};
use crate::rules::{orders_deck, consumed, record, forces_of_in, worm_ridden, forces_in, with_forces, with_added_forces, bids_opened, with_sector_spice, sector_spice, location_or_empty, sector_or_empty, with_sector, apply, consumable, valid, validatable, is_first_index, after_pass};
use crate::state::{copy_vec, has_card, is_order_of, Deck, GameStateView, PlayerView, TanksView, SectorView, Bid, Forces, LocationState, LocationView, SectorState, SpawnType, BidState, DeckType, GameEvent, GameState, Player, PlayerId, Prompt, BeneGesseritPredictions};
use crate::components::Troop;

verus! {

/// Whether every id of `ids` names a force of `forces`.
fn all_contained(ids: &KeySet<ObjectId>, forces: &ObjectSet<Troop>) -> (r: bool)
    ensures
        r == ids@.subset_of(forces@.dom()),
{
    let v = ids.to_vec();
    let mut i: usize = 0;
    while i < v.len()
        invariant
            i <= v@.len(),
            forall|k: ObjectId| v@.contains(k) <==> ids@.contains(k),
            forall|j: int| 0 <= j < i ==> forces@.dom().contains(#[trigger] v@[j]),
        decreases v@.len() - i,
    {
        if !forces.contains(&v[i]) {
            assert(ids@.contains(v@[i as int]));
            return false;
        }
        i = i + 1;
    }
    assert forall|k: ObjectId| ids@.contains(k) implies forces@.dom().contains(k) by {
        assert(v@.contains(k));
        let j = choose|j: int| 0 <= j < v@.len() && v@[j] == k;
    }
    true
}

impl GameState {
    /// Whether some player plays `faction`.
    fn has_player_with_faction(&self, faction: Faction) -> (r: bool)
        ensures
            r == exists|p: PlayerId| #[trigger] self@.players.dom().contains(p) && self@.players[p].faction == faction,
    {
        let ids = self.players.keys();
        let mut i: usize = 0;
        while i < ids.len()
            invariant
                i <= ids@.len(),
                forall|k: PlayerId| ids@.contains(k) <==> self@.players.dom().contains(k),
                forall|j: int| 0 <= j < i ==> self@.players[#[trigger] ids@[j]].faction != faction,
            decreases ids@.len() - i,
        {
            assert(ids@.contains(ids@[i as int]));
            let p = self.players.get(&ids[i]).unwrap();
            if p.faction == faction {
                return true;
            }
            i = i + 1;
        }
        assert forall|p: PlayerId| #[trigger] self@.players.dom().contains(p) implies self@.players[p].faction != faction by {
            assert(ids@.contains(p));
            let j = choose|j: int| 0 <= j < ids@.len() && ids@[j] == p;
        }
        false
    }

    /// Whether a client may send `event` now.
    pub fn validate(&self, data: &Data, event: &GameEvent) -> (r: bool)
        requires
            validatable(self@, data, event@),
        ensures
            r == valid(self@, data, event@),
    {
        match event {
            GameEvent::Pass => self.play_order.len() == self.players.len(),
            GameEvent::ChooseFaction { player_id, .. } => {
                if self.phase == Phase::Setup(SetupPhase::ChooseFactions) {
                    return self.active_player == Some(*player_id);
                }
                false
            },
            GameEvent::ChooseTraitor { player_id, card_id } => {
                if self.phase == Phase::Setup(SetupPhase::DealTraitors) {
                    if let Some(player) = self.players.get(player_id) {
                        if player.traitor_cards.contains(card_id) {
                            return player.faction != Faction::Harkonnen;
                        }
                    }
                }
                false
            },
            GameEvent::MakeFactionPrediction { faction } => {
                self.phase == Phase::Setup(SetupPhase::Prediction) && self.factions.contains_key(
                    &Faction::BeneGesserit,
                ) && self.has_player_with_faction(*faction)
            },
            GameEvent::MakeTurnPrediction { turn } => {
                self.phase == Phase::Setup(SetupPhase::Prediction) && self.factions.contains_key(
                    &Faction::BeneGesserit,
                ) && *turn < 15
            },
            GameEvent::ShipForces { player_id, to, forces } => {
                if self.active_player == Some(*player_id) {
                    let player = self.players.get(player_id).unwrap();
                    if all_contained(forces, &player.offworld_forces) {
                        if self.phase == Phase::Setup(SetupPhase::PlaceForces) {
                            let faction_data = data.factions.get(&player.faction).unwrap();
                            match &faction_data.starting_values.possible_locations {
                                Some(locations) => {
                                    if locations.contains(&to.location) {
                                        return true;
                                    }
                                },
                                None => {
                                    return true;
                                },
                            }
                        }
                    }
                }
                false
            },
            GameEvent::MakeBid { player_id, spice } => {
                if self.active_player == Some(*player_id) {
                    if self.bidding_cards.len() > 0 {
                        let bid_state = &self.bidding_cards[self.bidding_cards.len() - 1];
                        if let Some(current_bid) = &bid_state.current_bid {
                            if let Some(spice) = spice {
                                return *spice > current_bid.spice;
                            } else {
                                return true;
                            }
                        }
                    }
                }
                false
            },
            GameEvent::WinBid { player_id, card_id } => {
                if self.bidding_cards.len() > 0 {
                    let bid_state = &self.bidding_cards[self.bidding_cards.len() - 1];
                    if bid_state.passed.len() == self.players.len() && !bid_state.passed.contains(player_id) {
                        if let Some(current_bid) = &bid_state.current_bid {
                            return bid_state.card.id == *card_id && current_bid.player_id == *player_id;
                        }
                    }
                }
                false
            },
            _ => false,
        }
    }
}


impl Prompt {
    /// A prompt equal to this one.
    pub fn duplicate(&self) -> (r: Prompt)
        ensures
            r@ == self@,
    {
        match self {
            Prompt::Faction { remaining } => Prompt::Faction { remaining: remaining.duplicate() },
            Prompt::Traitor => Prompt::Traitor,
            Prompt::FactionPrediction => Prompt::FactionPrediction,
            Prompt::TurnPrediction => Prompt::TurnPrediction,
            Prompt::GuildShip => Prompt::GuildShip,
        }
    }
}

impl GameState {
    /// The events that touch only a few plain fields.
    fn apply_simple(&mut self, data: &Data, e: &GameEvent)
        requires
            consumable(old(self)@, data, e@),
            e is EndGame || e is SetActive || e is StartRound || e is AdvancePhase || e is ShowPrompt
                || e is SetPlayOrder || e is ChooseTraitor || e is MakeFactionPrediction || e is MakeTurnPrediction
                || e is PlayerDisconnected || e is PlayerJoined || e is ChooseFaction,
        ensures
            final(self)@ == apply(old(self)@, data, e@),
    {
        match e {
            GameEvent::EndGame { .. } => {
                self.phase = Phase::EndGame;
            },
            GameEvent::PlayerJoined { .. } => {},
            GameEvent::PlayerDisconnected { player_id } => {
                self.players.remove(player_id);
            },
            GameEvent::SetActive { player_id } => {
                self.active_player = Some(*player_id);
            },
            GameEvent::StartRound => {
                self.active_player = Some(self.play_order[0]);
            },
            GameEvent::AdvancePhase => {
                self.phase = self.phase.next();
                self.active_player = None;
            },
            GameEvent::ShowPrompt { player_id, prompt } => {
                self.prompts.insert(*player_id, prompt.duplicate());
            },
            GameEvent::SetPlayOrder { play_order } => {
                self.play_order = copy_vec(play_order);
            },
            GameEvent::ChooseTraitor { player_id, .. } => {
                self.prompts.remove(player_id);
            },
            GameEvent::MakeFactionPrediction { faction } => {
                let bg = *self.factions.get(&Faction::BeneGesserit).unwrap();
                self.prompts.remove(&bg);
                self.bg_predictions = BeneGesseritPredictions { faction: Some(*faction), turn: self.bg_predictions.turn };
            },
            GameEvent::MakeTurnPrediction { turn } => {
                let bg = *self.factions.get(&Faction::BeneGesserit).unwrap();
                self.prompts.remove(&bg);
                self.bg_predictions = BeneGesseritPredictions { faction: self.bg_predictions.faction, turn: Some(*turn) };
            },
            GameEvent::ChooseFaction { player_id, faction } => {
                self.players.remove(player_id);
                let faction_data = data.factions.get(faction).unwrap();
                self.factions.insert(*faction, *player_id);
                self.players.insert(*player_id, Player::new(*faction, faction_data.starting_values.spice));
                self.prompts.remove(player_id);
                assert(self@.players =~= old(self)@.players.insert(*player_id, crate::state::new_player_view(*faction, crate::rules::spice_of(data, *faction))));
            },
            _ => {},
        }
        assert(self@ =~= apply(old(self)@, data, e@));
    }

    /// The active player passes to the next player in play order.
    fn apply_pass(&mut self, data: &Data, e: &GameEvent)
        requires
            consumable(old(self)@, data, e@),
            e is Pass,
        ensures
            final(self)@ == apply(old(self)@, data, e@),
    {
        if let Some(player_id) = self.active_player {
            let mut i: usize = 0;
            while i < self.play_order.len() && self.play_order[i] != player_id
                invariant
                    i <= self.play_order@.len(),
                    self.play_order@.contains(player_id),
                    forall|k: int| 0 <= k < i ==> self.play_order@[k] != player_id,
                decreases self.play_order@.len() - i,
            {
                i = i + 1;
            }
            proof {
                if i == self.play_order@.len() {
                    let j = choose|j: int| 0 <= j < self.play_order@.len() && self.play_order@[j] == player_id;
                    assert(false);
                }
                assert(is_first_index(self.play_order@, player_id, i as int));
                let c = choose|c: int| is_first_index(self.play_order@, player_id, c);
                if c < i {
                } else if c > i {
                }
                assert(c == i);
            }
            if i + 1 == self.play_order.len() {
                self.active_player = None;
            } else {
                self.active_player = Some(self.play_order[i + 1]);
            }
        }
        assert(self@ =~= apply(old(self)@, data, e@));
    }
}


impl GameState {
    /// A spawned object is recorded where it belongs.
    fn apply_spawn_object(&mut self, data: &Data, e: &GameEvent)
        requires
            consumable(old(self)@, data, e@),
            e is SpawnObject,
        ensures
            final(self)@ == apply(old(self)@, data, e@),
    {
        if let GameEvent::SpawnObject { spawn_type } = e {
            match spawn_type {
                SpawnType::Leader { player_id, leader } => {
                    let mut p = self.players.remove(player_id).unwrap();
                    let kept = match p.living_leaders.get(&leader.id) {
                        Some(entry) => entry.0,
                        None => leader.inner,
                    };
                    p.living_leaders.insert(leader.id, (kept, false));
                    self.players.insert(*player_id, p);
                },
                SpawnType::Troop { player_id, unit } => {
                    let mut p = self.players.remove(player_id).unwrap();
                    p.offworld_forces.insert(*unit);
                    self.players.insert(*player_id, p);
                },
                SpawnType::TraitorCard(card) => {
                    self.decks.traitor.add(*card);
                },
                SpawnType::TreacheryCard(card) => {
                    self.decks.treachery.add(*card);
                },
                SpawnType::SpiceCard(card) => {
                    self.decks.spice.add(*card);
                },
                SpawnType::StormCard(card) => {
                    self.decks.storm.add(*card);
                },
                SpawnType::Worm { location, id } => {
                    let mut l = self.board.remove(location).unwrap();
                    l.worm = Some(*id);
                    self.board.insert(*location, l);
                },
            }
        }
        assert(self@ =~= apply(old(self)@, data, e@));
    }

    /// The events that move cards between decks and other places.
    fn apply_cards(&mut self, data: &Data, e: &GameEvent)
        requires
            consumable(old(self)@, data, e@),
            e is SetDeckOrder || e is RevealStorm || e is MoveStorm || e is RevealSpiceBlow || e is DealCard
                || e is DiscardCard,
        ensures
            final(self)@ == apply(old(self)@, data, e@),
    {
        match e {
            GameEvent::SetDeckOrder { deck_order, deck_type } => match deck_type {
                DeckType::Traitor => self.decks.traitor.set_order(copy_vec(deck_order)),
                DeckType::Treachery => self.decks.treachery.set_order(copy_vec(deck_order)),
                DeckType::Storm => self.decks.storm.set_order(copy_vec(deck_order)),
                DeckType::Spice => self.decks.spice.set_order(copy_vec(deck_order)),
            },
            GameEvent::RevealStorm => {
                self.storm_card = Some(self.decks.storm.draw().unwrap());
            },
            GameEvent::MoveStorm { sectors } => {
                self.storm_sector = (self.storm_sector + *sectors) % 18;
                if let Some(storm_card) = self.storm_card {
                    self.decks.storm.add(storm_card);
                }
                self.storm_card = None;
            },
            GameEvent::RevealSpiceBlow => {
                let card = self.decks.spice.draw().unwrap();
                if card.inner == SpiceCard::ShaiHalud {
                    if self.game_turn > 0 && self.nexus.is_none() {
                        self.nexus = match self.decks.spice.last_discarded() {
                            Some(c) => Some(*c),
                            None => None,
                        };
                    }
                }
                if let Some(old_card) = self.spice_card {
                    self.decks.spice.discard(old_card);
                }
                self.spice_card = Some(card);
            },
            GameEvent::DealCard { player_id, from } => {
                let mut player = self.players.remove(player_id).unwrap();
                match from {
                    DeckType::Traitor => {
                        if let Some(card) = self.decks.traitor.draw() {
                            player.traitor_cards.insert(card);
                        }
                    },
                    _ => {
                        if let Some(card) = self.decks.treachery.draw() {
                            player.treachery_cards.insert(card);
                        }
                    },
                }
                self.players.insert(*player_id, player);
                assert(self@.players =~= apply(old(self)@, data, e@).players);
            },
            GameEvent::DiscardCard { player_id, card_id, to } => {
                let mut player = self.players.remove(player_id).unwrap();
                let ghost before = player@;
                match to {
                    DeckType::Traitor => {
                        if let Some(card) = player.traitor_cards.take(card_id) {
                            self.decks.traitor.discard(card);
                        } else {
                            assert(player@.traitor_cards =~= before.traitor_cards);
                        }
                    },
                    _ => {
                        if let Some(card) = player.treachery_cards.take(card_id) {
                            self.decks.treachery.discard(card);
                        } else {
                            assert(player@.treachery_cards =~= before.treachery_cards);
                        }
                    },
                }
                self.players.insert(*player_id, player);
                assert(self@.players =~= apply(old(self)@, data, e@).players);
            },
            _ => {},
        }
        assert(self@ =~= apply(old(self)@, data, e@));
    }
}


/// Takes sector `ls` out of the board to change it: the territory comes out of
/// the board and the sector out of the territory, each empty when absent.
fn take_sector(board: &mut AssocMap<Location, LocationState>, ls: LocationSector) -> (r: (LocationState, SectorState))
    ensures
        final(board)@ == old(board)@.remove(ls.location),
        r.0@ == (LocationView {
            sectors: location_or_empty(old(board)@, ls.location).sectors.remove(ls.sector),
            worm: location_or_empty(old(board)@, ls.location).worm,
        }),
        r.1@ == sector_or_empty(old(board)@, ls),
{
    let mut l = match board.remove(&ls.location) {
        Some(l) => l,
        None => LocationState::default(),
    };
    let s = match l.sectors.remove(&ls.sector) {
        Some(s) => s,
        None => SectorState::default(),
    };
    (l, s)
}

proof fn lemma_take_put(board: Map<Location, LocationView>, ls: LocationSector, s: SectorView)
    ensures
        board.remove(ls.location).insert(
            ls.location,
            LocationView {
                sectors: location_or_empty(board, ls.location).sectors.remove(ls.sector).insert(ls.sector, s),
                worm: location_or_empty(board, ls.location).worm,
            },
        ) == with_sector(board, ls, s),
{
    let l = location_or_empty(board, ls.location);
    assert(l.sectors.remove(ls.sector).insert(ls.sector, s) =~= l.sectors.insert(ls.sector, s));
    assert(board.remove(ls.location).insert(
        ls.location,
        LocationView { sectors: l.sectors.insert(ls.sector, s), worm: l.worm },
    ) =~= with_sector(board, ls, s));
}

/// Puts a territory back into the board with sector `ls` being `s`.
fn put_sector(board: &mut AssocMap<Location, LocationState>, ls: LocationSector, l: LocationState, s: SectorState)
    ensures
        final(board)@ == old(board)@.insert(
            ls.location,
            LocationView { sectors: l@.sectors.insert(ls.sector, s@), worm: l@.worm },
        ),
{
    let mut l = l;
    l.sectors.insert(ls.sector, s);
    board.insert(ls.location, l);
}

impl GameState {
    /// The events that move spice.
    fn apply_spice(&mut self, data: &Data, e: &GameEvent)
        requires
            consumable(old(self)@, data, e@),
            e is CollectSpice || e is Bribe || e is PlaceSpice,
        ensures
            final(self)@ == apply(old(self)@, data, e@),
    {
        match e {
            GameEvent::CollectSpice { player_id, spice, from } => {
                if let Some(from) = from {
                    let ghost b = self.board@;
                    let (l, mut sector) = take_sector(&mut self.board, *from);
                    sector.spice = sector.spice - *spice;
                    put_sector(&mut self.board, *from, l, sector);
                    proof {
                        lemma_take_put(b, *from, sector@);
                        assert(sector@ == SectorView { forces: sector_or_empty(b, *from).forces, spice: (sector_spice(b, *from) - *spice) as u8 });
                    }
                }
                let mut p = self.players.remove(player_id).unwrap();
                p.spice = p.spice + *spice;
                self.players.insert(*player_id, p);
            },
            GameEvent::Bribe { player_id, other_player_id, spice } => {
                let mut p = self.players.remove(player_id).unwrap();
                p.spice = p.spice - *spice;
                self.players.insert(*player_id, p);
                let mut q = self.players.remove(other_player_id).unwrap();
                q.spice = q.spice + *spice;
                self.players.insert(*other_player_id, q);
            },
            GameEvent::PlaceSpice { location, spice } => {
                if let Some(spice_card) = self.spice_card {
                    self.decks.spice.discard(spice_card);
                }
                self.spice_card = None;
                if self.storm_sector != location.sector {
                    let ghost b = self.board@;
                    let (l, mut sector) = take_sector(&mut self.board, *location);
                    sector.spice = sector.spice + *spice;
                    put_sector(&mut self.board, *location, l, sector);
                    proof {
                        lemma_take_put(b, *location, sector@);
                        assert(sector@ == SectorView { forces: sector_or_empty(b, *location).forces, spice: (sector_spice(b, *location) + *spice) as u8 });
                    }
                }
            },
            _ => {},
        }
        assert(self@ =~= apply(old(self)@, data, e@));
    }
}


proof fn lemma_take_put_forces(
    board: Map<Location, LocationView>,
    ls: LocationSector,
    p: crate::state::PlayerId,
    f: Map<ObjectId, Troop>,
)
    ensures
        with_sector(
            board,
            ls,
            SectorView { forces: sector_or_empty(board, ls).forces.remove(p).insert(p, f), spice: sector_or_empty(board, ls).spice },
        ) == with_forces(board, ls, p, f),
{
    let s = sector_or_empty(board, ls);
    assert(s.forces.remove(p).insert(p, f) =~= s.forces.insert(p, f));
}

impl GameState {
    /// The events that move forces.
    fn apply_forces(&mut self, data: &Data, e: &GameEvent)
        requires
            consumable(old(self)@, data, e@),
            e is ShipForces || e is MoveForces || e is Revive,
        ensures
            final(self)@ == apply(old(self)@, data, e@),
    {
        match e {
            GameEvent::ShipForces { player_id, to, forces } => {
                let active = self.active_player.unwrap();
                let ghost b = self.board@;
                let (l, mut sector) = take_sector(&mut self.board, *to);
                let mut here = match sector.forces.remove(&active) {
                    Some(f) => f,
                    None => Forces::default(),
                };
                assert(here@ == forces_in(b, *to, active));
                let mut player = self.players.remove(player_id).unwrap();
                let moved = player.offworld_forces.take_ids(forces);
                here.forces.extend_from(&moved);
                player.shipped = true;
                sector.forces.insert(active, here);
                put_sector(&mut self.board, *to, l, sector);
                self.players.insert(*player_id, player);
                proof {
                    lemma_take_put(b, *to, sector@);
                    lemma_take_put_forces(b, *to, active, here@);
                }
            },
            GameEvent::MoveForces { path, forces, .. } => {
                let from = path[0];
                let to = path[path.len() - 1];
                let active = self.active_player.unwrap();
                let ghost b = self.board@;
                let (l, mut sector) = take_sector(&mut self.board, from);
                let mut there = sector.forces.remove(&active).unwrap();
                assert(there@ == forces_in(b, from, active));
                let moved = there.forces.take_ids(forces);
                sector.forces.insert(active, there);
                put_sector(&mut self.board, from, l, sector);
                proof {
                    lemma_take_put(b, from, sector@);
                    lemma_take_put_forces(b, from, active, there@);
                }
                let ghost b1 = self.board@;
                let (l2, mut sector2) = take_sector(&mut self.board, to);
                let mut here = match sector2.forces.remove(&active) {
                    Some(f) => f,
                    None => Forces::default(),
                };
                assert(here@ == forces_in(b1, to, active));
                here.forces.extend_from(&moved);
                sector2.forces.insert(active, here);
                put_sector(&mut self.board, to, l2, sector2);
                proof {
                    lemma_take_put(b1, to, sector2@);
                    lemma_take_put_forces(b1, to, active, here@);
                }
            },
            GameEvent::Revive { forces, leader, .. } => {
                let active = self.active_player.unwrap();
                let mut player = self.players.remove(&active).unwrap();
                if let Some(leader) = leader {
                    let revived = player.tanks.leaders.take(leader).unwrap();
                    let kept = match player.living_leaders.get(leader) {
                        Some(entry) => entry.0,
                        None => revived.inner,
                    };
                    player.living_leaders.insert(*leader, (kept, true));
                }
                let revived_forces = player.tanks.forces.take_ids(forces);
                player.offworld_forces.extend_from(&revived_forces);
                self.players.insert(active, player);
            },
            _ => {},
        }
        assert(self@ =~= apply(old(self)@, data, e@));
    }

    /// The events of the auction of treachery cards.
    fn apply_bidding(&mut self, data: &Data, e: &GameEvent)
        requires
            consumable(old(self)@, data, e@),
            e is StartBidding || e is MakeBid || e is WinBid,
        ensures
            final(self)@ == apply(old(self)@, data, e@),
    {
        match e {
            GameEvent::StartBidding => {
                let n = self.players.len();
                let ghost cards = self.decks.treachery@.cards;
                let ghost m = cards.len();
                let ghost bids = self@.bidding_cards;
                let mut i: usize = 0;
                while i < n
                    invariant
                        i <= n,
                        self@ == (crate::state::GameStateView {
                            bidding_cards: self@.bidding_cards,
                            decks: self@.decks,
                            ..old(self)@
                        }),
                        self@.decks == (crate::state::DecksView {
                            treachery: crate::state::DeckView { cards: self@.decks.treachery.cards, ..old(self)@.decks.treachery },
                            ..old(self)@.decks
                        }),
                        cards == old(self)@.decks.treachery.cards,
                        m == cards.len(),
                        bids == old(self)@.bidding_cards,
                        ({
                            let k: nat = if i < m { i as nat } else { m };
                            &&& self@.decks.treachery.cards == cards.take(m - k)
                            &&& self@.bidding_cards == bids + Seq::new(
                                k,
                                |j: int| crate::state::BidStateView { card: cards[m - 1 - j], current_bid: None, passed: Set::empty() },
                            )
                        }),
                    decreases n - i,
                {
                    let ghost before = self@.bidding_cards;
                    if let Some(card) = self.decks.treachery.draw() {
                        let bs = BidState { card, current_bid: None, passed: KeySet::new() };
                        self.bidding_cards.push(bs);
                        assert(self@.bidding_cards =~= before.push(bs@));
                    }
                    proof {
                        let k: nat = if i < m { i as nat } else { m };
                        let k2: nat = if i + 1 < m { (i + 1) as nat } else { m };
                        assert(self@.decks.treachery.cards =~= cards.take(m - k2));
                        assert(self@.bidding_cards =~= bids + Seq::new(
                            k2,
                            |j: int| crate::state::BidStateView { card: cards[m - 1 - j], current_bid: None, passed: Set::empty() },
                        ));
                    }
                    i = i + 1;
                }
                assert(self@ =~= bids_opened(old(self)@));
            },
            GameEvent::MakeBid { player_id, spice } => {
                if self.bidding_cards.len() > 0 {
                    let ghost before = self@.bidding_cards;
                    let mut bid_state = self.bidding_cards.pop().unwrap();
                    match spice {
                        Some(spice) => {
                            bid_state.current_bid = Some(Bid { player_id: *player_id, spice: *spice });
                            bid_state.passed.remove(player_id);
                        },
                        None => {
                            bid_state.passed.insert(*player_id);
                        },
                    }
                    self.bidding_cards.push(bid_state);
                    assert(self@.bidding_cards =~= apply(old(self)@, data, e@).bidding_cards);
                }
            },
            GameEvent::WinBid { player_id, .. } => {
                let ghost before = self@.bidding_cards;
                let bid_state = self.bidding_cards.pop().unwrap();
                let mut player = self.players.remove(player_id).unwrap();
                player.treachery_cards.insert(bid_state.card);
                self.players.insert(*player_id, player);
                assert(self@.bidding_cards =~= before.drop_last());
            },
            _ => {},
        }
        assert(self@ =~= apply(old(self)@, data, e@));
    }
}


proof fn lemma_take_contains<T>(s: Seq<T>, n: int, x: T)
    requires
        0 <= n < s.len(),
    ensures
        s.take(n + 1).contains(x) <==> (s.take(n).contains(x) || s[n] == x),
{
    if s.take(n + 1).contains(x) {
        let a = choose|a: int| 0 <= a < n + 1 && #[trigger] s.take(n + 1)[a] == x;
        if a < n {
            assert(s.take(n)[a] == x);
        }
    }
    if s.take(n).contains(x) {
        let a = choose|a: int| 0 <= a < n && #[trigger] s.take(n)[a] == x;
        assert(s.take(n + 1)[a] == x);
    }
    if s[n] == x {
        assert(s.take(n + 1)[n] == x);
    }
}

/// The forces of player `p` in the sectors that `done` marks for `p`.
spec fn gathered(sectors: Map<u8, SectorView>, done: spec_fn(u8, PlayerId) -> bool, p: PlayerId) -> Set<ObjectId> {
    Set::new(
        |id: ObjectId|
            exists|s: u8|
                #![trigger sectors[s].forces[p].dom().contains(id)]
                done(s, p) && sectors.dom().contains(s) && sectors[s].forces.dom().contains(p)
                    && sectors[s].forces[p].dom().contains(id),
    )
}

/// `after` is `before` with the forces of the sectors that `done` marks moved
/// into their owners' tanks.
spec fn tanks_gathered(
    before: Map<PlayerId, PlayerView>,
    after: Map<PlayerId, PlayerView>,
    sectors: Map<u8, SectorView>,
    done: spec_fn(u8, PlayerId) -> bool,
) -> bool {
    &&& after.dom() == before.dom()
    &&& forall|p: PlayerId| #[trigger] before.dom().contains(p) ==> {
        &&& after[p] == PlayerView { tanks: TanksView { forces: after[p].tanks.forces, ..before[p].tanks }, ..before[p] }
        &&& after[p].tanks.forces.dom() == before[p].tanks.forces.dom() + gathered(sectors, done, p)
        &&& forall|id: ObjectId| #[trigger] after[p].tanks.forces.dom().contains(id) ==> if before[p].tanks.forces.dom().contains(id) {
            after[p].tanks.forces[id] == before[p].tanks.forces[id]
        } else {
            exists|s: u8|
                #![trigger sectors[s].forces[p][id]]
                done(s, p) && sectors.dom().contains(s) && sectors[s].forces.dom().contains(p)
                    && sectors[s].forces[p].dom().contains(id) && sectors[s].forces[p][id] == after[p].tanks.forces[id]
        }
    }
}

proof fn lemma_gathered_none(before: Map<PlayerId, PlayerView>, sectors: Map<u8, SectorView>, done: spec_fn(u8, PlayerId) -> bool)
    requires
        forall|s: u8, p: PlayerId| !#[trigger] done(s, p),
    ensures
        tanks_gathered(before, before, sectors, done),
{
    assert forall|p: PlayerId| #[trigger] before.dom().contains(p) implies before[p].tanks.forces.dom() == before[p].tanks.forces.dom()
        + gathered(sectors, done, p) by {
        assert(gathered(sectors, done, p) =~= Set::empty());
        assert(before[p].tanks.forces.dom() + gathered(sectors, done, p) =~= before[p].tanks.forces.dom());
    }
}

/// Gathering depends only on which sectors holding forces of a player are marked.
proof fn lemma_gathered_same(
    before: Map<PlayerId, PlayerView>,
    after: Map<PlayerId, PlayerView>,
    sectors: Map<u8, SectorView>,
    d1: spec_fn(u8, PlayerId) -> bool,
    d2: spec_fn(u8, PlayerId) -> bool,
)
    requires
        tanks_gathered(before, after, sectors, d1),
        forall|s: u8, p: PlayerId| sectors.dom().contains(s) && sectors[s].forces.dom().contains(p) ==> #[trigger] d1(s, p) == #[trigger] d2(s, p),
    ensures
        tanks_gathered(before, after, sectors, d2),
{
    assert forall|p: PlayerId| #[trigger] before.dom().contains(p) implies gathered(sectors, d1, p) == gathered(sectors, d2, p) by {
        assert(gathered(sectors, d1, p) =~= gathered(sectors, d2, p));
    }
    assert forall|p: PlayerId| #[trigger] before.dom().contains(p) implies {
        forall|id: ObjectId| #[trigger] after[p].tanks.forces.dom().contains(id) ==> if before[p].tanks.forces.dom().contains(id) {
            after[p].tanks.forces[id] == before[p].tanks.forces[id]
        } else {
            exists|s: u8|
                #![trigger sectors[s].forces[p][id]]
                d2(s, p) && sectors.dom().contains(s) && sectors[s].forces.dom().contains(p)
                    && sectors[s].forces[p].dom().contains(id) && sectors[s].forces[p][id] == after[p].tanks.forces[id]
        }
    } by {
        assert forall|id: ObjectId| #[trigger] after[p].tanks.forces.dom().contains(id) && !before[p].tanks.forces.dom().contains(id) implies
            exists|s: u8|
                #![trigger sectors[s].forces[p][id]]
                d2(s, p) && sectors.dom().contains(s) && sectors[s].forces.dom().contains(p)
                    && sectors[s].forces[p].dom().contains(id) && sectors[s].forces[p][id] == after[p].tanks.forces[id] by {
            let s = choose|s: u8|
                #![trigger sectors[s].forces[p][id]]
                d1(s, p) && sectors.dom().contains(s) && sectors[s].forces.dom().contains(p)
                    && sectors[s].forces[p].dom().contains(id) && sectors[s].forces[p][id] == after[p].tanks.forces[id];
            assert(d2(s, p));
        }
    }
}

/// Gathering the forces of one more player in one more sector.
proof fn lemma_gathered_step(
    before: Map<PlayerId, PlayerView>,
    after: Map<PlayerId, PlayerView>,
    sectors: Map<u8, SectorView>,
    done: spec_fn(u8, PlayerId) -> bool,
    s0: u8,
    p0: PlayerId,
)
    requires
        tanks_gathered(before, after, sectors, done),
        !done(s0, p0),
        after.dom().contains(p0),
        sectors.dom().contains(s0),
        sectors[s0].forces.dom().contains(p0),
    ensures
        ({
            let q = after[p0];
            let moved = sectors[s0].forces[p0].union_prefer_right(q.tanks.forces);
            tanks_gathered(
                before,
                after.insert(p0, PlayerView { tanks: TanksView { forces: moved, ..q.tanks }, ..q }),
                sectors,
                |s: u8, p: PlayerId| done(s, p) || (s == s0 && p == p0),
            )
        }),
{
    let q = after[p0];
    let moved = sectors[s0].forces[p0].union_prefer_right(q.tanks.forces);
    let after2 = after.insert(p0, PlayerView { tanks: TanksView { forces: moved, ..q.tanks }, ..q });
    let done2 = |s: u8, p: PlayerId| done(s, p) || (s == s0 && p == p0);
    assert(after2.dom() =~= before.dom());
    assert forall|p: PlayerId| #[trigger] before.dom().contains(p) implies {
        &&& after2[p] == PlayerView { tanks: TanksView { forces: after2[p].tanks.forces, ..before[p].tanks }, ..before[p] }
        &&& after2[p].tanks.forces.dom() == before[p].tanks.forces.dom() + gathered(sectors, done2, p)
        &&& forall|id: ObjectId| #[trigger] after2[p].tanks.forces.dom().contains(id) ==> if before[p].tanks.forces.dom().contains(id) {
            after2[p].tanks.forces[id] == before[p].tanks.forces[id]
        } else {
            exists|s: u8|
                #![trigger sectors[s].forces[p][id]]
                done2(s, p) && sectors.dom().contains(s) && sectors[s].forces.dom().contains(p)
                    && sectors[s].forces[p].dom().contains(id) && sectors[s].forces[p][id] == after2[p].tanks.forces[id]
        }
    } by {
        if p == p0 {
            let g1 = gathered(sectors, done, p);
            let g2 = gathered(sectors, done2, p);
            assert(g2 =~= g1 + sectors[s0].forces[p0].dom()) by {
                assert forall|id: ObjectId| g2.contains(id) implies (g1 + sectors[s0].forces[p0].dom()).contains(id) by {
                    let s = choose|s: u8|
                        #![trigger sectors[s].forces[p].dom().contains(id)]
                        done2(s, p) && sectors.dom().contains(s) && sectors[s].forces.dom().contains(p)
                            && sectors[s].forces[p].dom().contains(id);
                    if done(s, p) {
                        assert(g1.contains(id));
                    }
                }
                assert forall|id: ObjectId| (g1 + sectors[s0].forces[p0].dom()).contains(id) implies g2.contains(id) by {
                    if g1.contains(id) {
                        let s = choose|s: u8|
                            #![trigger sectors[s].forces[p].dom().contains(id)]
                            done(s, p) && sectors.dom().contains(s) && sectors[s].forces.dom().contains(p)
                                && sectors[s].forces[p].dom().contains(id);
                        assert(done2(s, p));
                    } else {
                        assert(done2(s0, p));
                        assert(sectors[s0].forces[p].dom().contains(id));
                    }
                }
            }
            assert(after2[p].tanks.forces.dom() =~= before[p].tanks.forces.dom() + gathered(sectors, done2, p));
            assert forall|id: ObjectId| #[trigger] after2[p].tanks.forces.dom().contains(id) && !before[p].tanks.forces.dom().contains(id) implies
                exists|s: u8|
                    #![trigger sectors[s].forces[p][id]]
                    done2(s, p) && sectors.dom().contains(s) && sectors[s].forces.dom().contains(p)
                        && sectors[s].forces[p].dom().contains(id) && sectors[s].forces[p][id] == after2[p].tanks.forces[id] by {
                if after[p].tanks.forces.dom().contains(id) {
                    let s = choose|s: u8|
                        #![trigger sectors[s].forces[p][id]]
                        done(s, p) && sectors.dom().contains(s) && sectors[s].forces.dom().contains(p)
                            && sectors[s].forces[p].dom().contains(id) && sectors[s].forces[p][id] == after[p].tanks.forces[id];
                    assert(done2(s, p));
                } else {
                    assert(done2(s0, p));
                    assert(sectors[s0].forces[p][id] == after2[p].tanks.forces[id]);
                }
            }
        } else {
            let g1 = gathered(sectors, done, p);
            let g2 = gathered(sectors, done2, p);
            assert(g2 =~= g1) by {
                assert forall|id: ObjectId| g2.contains(id) implies g1.contains(id) by {
                    let s = choose|s: u8|
                        #![trigger sectors[s].forces[p].dom().contains(id)]
                        done2(s, p) && sectors.dom().contains(s) && sectors[s].forces.dom().contains(p)
                            && sectors[s].forces[p].dom().contains(id);
                    assert(done(s, p));
                }
                assert forall|id: ObjectId| g1.contains(id) implies g2.contains(id) by {
                    let s = choose|s: u8|
                        #![trigger sectors[s].forces[p].dom().contains(id)]
                        done(s, p) && sectors.dom().contains(s) && sectors[s].forces.dom().contains(p)
                            && sectors[s].forces[p].dom().contains(id);
                    assert(done2(s, p));
                }
            }
            assert forall|id: ObjectId| #[trigger] after2[p].tanks.forces.dom().contains(id) && !before[p].tanks.forces.dom().contains(id) implies
                exists|s: u8|
                    #![trigger sectors[s].forces[p][id]]
                    done2(s, p) && sectors.dom().contains(s) && sectors[s].forces.dom().contains(p)
                        && sectors[s].forces[p].dom().contains(id) && sectors[s].forces[p][id] == after2[p].tanks.forces[id] by {
                let s = choose|s: u8|
                    #![trigger sectors[s].forces[p][id]]
                    done(s, p) && sectors.dom().contains(s) && sectors[s].forces.dom().contains(p)
                        && sectors[s].forces[p].dom().contains(id) && sectors[s].forces[p][id] == after[p].tanks.forces[id];
                assert(done2(s, p));
            }
        }
    }
}


impl GameState {
    /// The worm swallows everything in a territory.
    fn apply_worm(&mut self, data: &Data, e: &GameEvent, location: Location)
        requires
            consumable(old(self)@, data, e@),
            *e == (GameEvent::RideTheWorm { location }),
        ensures
            worm_ridden(old(self)@, location, final(self)@),
            final(self)@.history == old(self)@.history,
    {
        let mut l = self.board.remove(&location).unwrap();
        let ghost sectors = l@.sectors;
        let ghost players0 = self@.players;
        let sector_keys = l.sectors.keys();
        proof {
            lemma_gathered_none(players0, sectors, |s: u8, p: PlayerId| sector_keys@.take(0).contains(s));
        }
        let mut i: usize = 0;
        while i < sector_keys.len()
            invariant
                i <= sector_keys@.len(),
                forall|k: u8| sector_keys@.contains(k) <==> sectors.dom().contains(k),
                l@.sectors == sectors,
                sector_keys@.no_duplicates(),
                sectors == old(self)@.board[location].sectors,
                l@.worm == old(self)@.board[location].worm,
                consumable(old(self)@, data, e@),
                *e == (GameEvent::RideTheWorm { location }),
                players0 == old(self)@.players,
                self@ == (GameStateView {
                    players: self@.players,
                    board: old(self)@.board.remove(location),
                    ..old(self)@
                }),
                tanks_gathered(players0, self@.players, sectors, |s: u8, p: PlayerId| sector_keys@.take(i as int).contains(s)),
            decreases sector_keys@.len() - i,
        {
            let sk = sector_keys[i];
            assert(sector_keys@.contains(sk));
            let sector = l.sectors.get(&sk).unwrap();
            let player_keys = sector.forces.keys();
            let ghost done_before = |s: u8, p: PlayerId| sector_keys@.take(i as int).contains(s);
            let ghost done_start = |s: u8, p: PlayerId| sector_keys@.take(i as int).contains(s) || (s == sk && player_keys@.take(0).contains(p));
            proof {
                lemma_gathered_same(players0, self@.players, sectors, done_before, done_start);
            }
            let mut j: usize = 0;
            while j < player_keys.len()
                invariant
                    j <= player_keys@.len(),
                    i < sector_keys@.len(),
                    sk == sector_keys@[i as int],
                    sector_keys@.no_duplicates(),
                    forall|k: u8| sector_keys@.contains(k) <==> sectors.dom().contains(k),
                    sectors.dom().contains(sk),
                    sector@ == sectors[sk],
                    player_keys@.no_duplicates(),
                    forall|k: PlayerId| player_keys@.contains(k) <==> sectors[sk].forces.dom().contains(k),
                    sectors == old(self)@.board[location].sectors,
                    consumable(old(self)@, data, e@),
                    *e == (GameEvent::RideTheWorm { location }),
                    players0 == old(self)@.players,
                    self@ == (GameStateView {
                        players: self@.players,
                        board: old(self)@.board.remove(location),
                        ..old(self)@
                    }),
                    tanks_gathered(
                        players0,
                        self@.players,
                        sectors,
                        |s: u8, p: PlayerId| sector_keys@.take(i as int).contains(s) || (s == sk && player_keys@.take(j as int).contains(p)),
                    ),
                decreases player_keys@.len() - j,
            {
                let pk = player_keys[j];
                assert(player_keys@.contains(pk));
                let forces = sector.forces.get(&pk).unwrap();
                assert(old(self)@.board[location].sectors[sk].forces.dom().contains(pk));
                assert(players0.dom().contains(pk));
                let ghost done_j = |s: u8, p: PlayerId| sector_keys@.take(i as int).contains(s) || (s == sk && player_keys@.take(j as int).contains(p));
                let ghost done_j1 = |s: u8, p: PlayerId| sector_keys@.take(i as int).contains(s) || (s == sk && player_keys@.take(j + 1).contains(p));
                proof {
                    assert(!sector_keys@.take(i as int).contains(sk)) by {
                        if sector_keys@.take(i as int).contains(sk) {
                            let a = choose|a: int| 0 <= a < i && sector_keys@.take(i as int)[a] == sk;
                            assert(sector_keys@[a] == sector_keys@[i as int]);
                        }
                    }
                    assert(!player_keys@.take(j as int).contains(pk)) by {
                        if player_keys@.take(j as int).contains(pk) {
                            let a = choose|a: int| 0 <= a < j && player_keys@.take(j as int)[a] == pk;
                            assert(player_keys@[a] == player_keys@[j as int]);
                        }
                    }
                    lemma_gathered_step(players0, self@.players, sectors, done_j, sk, pk);
                    let done_step = |s: u8, p: PlayerId| done_j(s, p) || (s == sk && p == pk);
                    assert forall|s: u8, p: PlayerId| sectors.dom().contains(s) && sectors[s].forces.dom().contains(p) implies #[trigger] done_step(s, p) == #[trigger] done_j1(s, p) by {
                        lemma_take_contains(player_keys@, j as int, p);
                    }
                }
                let mut player = self.players.remove(&pk).unwrap();
                player.tanks.forces.extend_from(&forces.forces);
                self.players.insert(pk, player);
                proof {
                    let q = old(self)@.players;
                    assert(self@.players =~= self@.players);
                    lemma_gathered_same(
                        players0,
                        self@.players,
                        sectors,
                        |s: u8, p: PlayerId| done_j(s, p) || (s == sk && p == pk),
                        done_j1,
                    );
                }
                j = j + 1;
            }
            proof {
                let done_end = |s: u8, p: PlayerId| sector_keys@.take(i as int).contains(s) || (s == sk && player_keys@.take(j as int).contains(p));
                let done_next = |s: u8, p: PlayerId| sector_keys@.take(i + 1).contains(s);
                assert(player_keys@.take(j as int) =~= player_keys@);
                assert forall|s: u8, p: PlayerId| sectors.dom().contains(s) && sectors[s].forces.dom().contains(p) implies #[trigger] done_end(s, p) == #[trigger] done_next(s, p) by {
                    lemma_take_contains(sector_keys@, i as int, s);
                }
                lemma_gathered_same(players0, self@.players, sectors, done_end, done_next);
            }
            i = i + 1;
        }
        l.sectors = AssocMap::new();
        self.board.insert(location, l);
        proof {
            let done_all = |s: u8, p: PlayerId| sector_keys@.take(i as int).contains(s);
            let everything = |s: u8, p: PlayerId| true;
            assert(sector_keys@.take(i as int) =~= sector_keys@);
            lemma_gathered_same(players0, self@.players, sectors, done_all, everything);
            assert forall|p: PlayerId| #[trigger] players0.dom().contains(p) implies gathered(sectors, everything, p) == forces_of_in(sectors, p) by {
                assert(gathered(sectors, everything, p) =~= forces_of_in(sectors, p));
            }
            assert(self@.board =~= old(self)@.board.insert(location, LocationView { sectors: Map::empty(), worm: old(self)@.board[location].worm }));
        }
    }
}


impl GameState {
    /// Keeps `event` in the history of recent events.
    fn record_event(&mut self, event: GameEvent)
        ensures
            final(self)@ == (GameStateView { history: record(old(self)@.history, event@), ..old(self)@ }),
    {
        let recorded = match &event {
            GameEvent::PlayerJoined { .. } | GameEvent::PlayerDisconnected { .. } => false,
            _ => true,
        };
        let ghost h = self.history@;
        let ghost ev = event@;
        if recorded {
            self.history.push_back(event);
            assert(self.history@.map_values(|e: GameEvent| e@) =~= h.map_values(|e: GameEvent| e@).push(ev));
            if self.history.len() > 10 {
                let ghost h2 = self.history@;
                self.history.pop_front();
                assert(self.history@.map_values(|e: GameEvent| e@) =~= h2.map_values(|e: GameEvent| e@).drop_first());
            }
        }
        assert(self@ =~= GameStateView { history: record(old(self)@.history, ev), ..old(self)@ });
    }

    /// Applies `event` to the game.
    pub fn consume(&mut self, data: &Data, event: GameEvent)
        requires
            consumable(old(self)@, data, event@),
        ensures
            consumed(old(self)@, data, event@, final(self)@),
    {
        match &event {
            GameEvent::EndGame { .. } | GameEvent::PlayerJoined { .. } | GameEvent::PlayerDisconnected { .. }
            | GameEvent::SetActive { .. } | GameEvent::StartRound | GameEvent::AdvancePhase
            | GameEvent::ShowPrompt { .. } | GameEvent::SetPlayOrder { .. } | GameEvent::ChooseFaction { .. }
            | GameEvent::ChooseTraitor { .. } | GameEvent::MakeFactionPrediction { .. }
            | GameEvent::MakeTurnPrediction { .. } => self.apply_simple(data, &event),
            GameEvent::Pass => self.apply_pass(data, &event),
            GameEvent::SpawnObject { .. } => self.apply_spawn_object(data, &event),
            GameEvent::SetDeckOrder { .. } | GameEvent::RevealStorm | GameEvent::MoveStorm { .. }
            | GameEvent::RevealSpiceBlow | GameEvent::DealCard { .. } | GameEvent::DiscardCard { .. } => self.apply_cards(
                data,
                &event,
            ),
            GameEvent::CollectSpice { .. } | GameEvent::Bribe { .. } | GameEvent::PlaceSpice { .. } => self.apply_spice(
                data,
                &event,
            ),
            GameEvent::ShipForces { .. } | GameEvent::MoveForces { .. } | GameEvent::Revive { .. } => self.apply_forces(
                data,
                &event,
            ),
            GameEvent::StartBidding | GameEvent::MakeBid { .. } | GameEvent::WinBid { .. } => self.apply_bidding(
                data,
                &event,
            ),
            GameEvent::RideTheWorm { location } => self.apply_worm(data, &event, *location),
            GameEvent::SetBattlePlan { .. } => {},
        }
        let ghost mid = self@;
        self.record_event(event);
        assert(self@ =~= GameStateView { history: self@.history, ..mid });
    }
}


/// The spice lying in sector `ls` of `board`.
fn spice_at(board: &AssocMap<Location, LocationState>, ls: LocationSector) -> (r: u8)
    ensures
        r == sector_spice(board@, ls),
{
    match board.get(&ls.location) {
        Some(l) => match l.sectors.get(&ls.sector) {
            Some(sector) => sector.spice,
            None => 0,
        },
        None => 0,
    }
}

impl<C: Copy> Deck<C> {
    /// Whether `order` names every card of the deck once.
    pub fn is_order(&self, order: &Vec<ObjectId>) -> (r: bool)
        ensures
            r == is_order_of(self@.cards, order@),
    {
        if order.len() != self.cards.len() {
            return false;
        }
        let mut i: usize = 0;
        while i < order.len()
            invariant
                i <= order@.len(),
                order@.len() == self@.cards.len(),
                forall|a: int, b: int| 0 <= a < i && 0 <= b < order@.len() && a != b ==> order@[a] != order@[b],
                forall|a: int| 0 <= a < i ==> has_card(self@.cards, #[trigger] order@[a]),
            decreases order@.len() - i,
        {
            let mut k: usize = 0;
            while k < order.len()
                invariant
                    k <= order@.len(),
                    i < order@.len(),
                    forall|b: int| 0 <= b < k && b != i ==> order@[i as int] != order@[b],
                decreases order@.len() - k,
            {
                if k != i && order[k] == order[i] {
                    assert(!order@.no_duplicates());
                    return false;
                }
                k = k + 1;
            }
            let mut j: usize = 0;
            let mut found = false;
            while j < self.cards.len() && !found
                invariant
                    j <= self@.cards.len(),
                    i < order@.len(),
                    found ==> 0 < j && self@.cards[j - 1].id == order@[i as int],
                    !found ==> forall|a: int| 0 <= a < j ==> self@.cards[a].id != order@[i as int],
                decreases self@.cards.len() - j,
            {
                if self.cards[j].id == order[i] {
                    found = true;
                }
                j = j + 1;
            }
            if !found {
                assert(!has_card(self@.cards, order@[i as int]));
                return false;
            }
            assert(self@.cards[j - 1].id == order@[i as int]);
            i = i + 1;
        }
        assert(order@.no_duplicates());
        true
    }
}

impl GameState {
    /// Whether the state can take `event`: the game has no meaning for an
    /// event for which this is false, and refuses it.
    pub fn can_consume(&self, data: &Data, event: &GameEvent) -> (r: bool)
        ensures
            r == consumable(self@, data, event@),
    {
        match event {
            GameEvent::SpawnObject { spawn_type } => match spawn_type {
                SpawnType::Leader { player_id, .. } => self.players.contains_key(player_id),
                SpawnType::Troop { player_id, .. } => self.players.contains_key(player_id),
                SpawnType::Worm { location, .. } => self.board.contains_key(location),
                _ => true,
            },
            GameEvent::SetDeckOrder { deck_order, deck_type } => match deck_type {
                DeckType::Traitor => self.decks.traitor.is_order(deck_order),
                DeckType::Treachery => self.decks.treachery.is_order(deck_order),
                DeckType::Storm => self.decks.storm.is_order(deck_order),
                DeckType::Spice => self.decks.spice.is_order(deck_order),
            },
            GameEvent::ChooseFaction { faction, .. } => data.factions.contains_key(faction),
            GameEvent::MakeFactionPrediction { .. } | GameEvent::MakeTurnPrediction { .. } => self.factions.contains_key(
                &Faction::BeneGesserit,
            ),
            GameEvent::Pass => match self.active_player {
                Some(p) => {
                    let mut i: usize = 0;
                    while i < self.play_order.len()
                        invariant
                            i <= self.play_order@.len(),
                            *event == GameEvent::Pass,
                            self.active_player == Some(p),
                            forall|k: int| 0 <= k < i ==> self.play_order@[k] != p,
                        decreases self.play_order@.len() - i,
                    {
                        if self.play_order[i] == p {
                            assert(self.play_order@[i as int] == p);
                            assert(self@.play_order.contains(p));
                            return true;
                        }
                        i = i + 1;
                    }
                    false
                },
                None => true,
            },
            GameEvent::StartRound => self.play_order.len() > 0,
            GameEvent::CollectSpice { player_id, spice, from } => {
                match self.players.get(player_id) {
                    Some(p) => {
                        if p.spice > u8::MAX - *spice {
                            return false;
                        }
                        match from {
                            Some(ls) => spice_at(&self.board, *ls) >= *spice,
                            None => true,
                        }
                    },
                    None => false,
                }
            },
            GameEvent::Bribe { player_id, other_player_id, spice } => {
                match (self.players.get(player_id), self.players.get(other_player_id)) {
                    (Some(p), Some(q)) => p.spice >= *spice && (*player_id == *other_player_id || q.spice
                        <= u8::MAX - *spice),
                    _ => false,
                }
            },
            GameEvent::ShipForces { player_id, forces, .. } => {
                if self.active_player.is_none() {
                    return false;
                }
                match self.players.get(player_id) {
                    Some(p) => all_contained(forces, &p.offworld_forces),
                    None => false,
                }
            },
            GameEvent::MoveForces { path, forces, .. } => {
                if path.len() == 0 {
                    return false;
                }
                let from = path[0];
                match self.active_player {
                    Some(a) => match self.board.get(&from.location) {
                        Some(l) => match l.sectors.get(&from.sector) {
                            Some(sector) => match sector.forces.get(&a) {
                                Some(f) => all_contained(forces, &f.forces),
                                None => false,
                            },
                            None => false,
                        },
                        None => false,
                    },
                    None => false,
                }
            },
            GameEvent::RevealStorm => self.decks.storm.cards.len() > 0,
            GameEvent::MoveStorm { sectors } => self.storm_sector <= u8::MAX - *sectors,
            GameEvent::RevealSpiceBlow => self.decks.spice.cards.len() > 0,
            GameEvent::PlaceSpice { location, spice } => location.sector == self.storm_sector || spice_at(
                &self.board,
                *location,
            ) <= u8::MAX - *spice,
            GameEvent::RideTheWorm { location } => match self.board.get(location) {
                Some(l) => {
                    let sector_keys = l.sectors.keys();
                    let mut i: usize = 0;
                    while i < sector_keys.len()
                        invariant
                            i <= sector_keys@.len(),
                            *event == (GameEvent::RideTheWorm { location: *location }),
                            self@.board.dom().contains(*location),
                            l@ == self@.board[*location],
                            forall|k: u8| sector_keys@.contains(k) <==> l@.sectors.dom().contains(k),
                            forall|a: int, p: PlayerId|
                                0 <= a < i && #[trigger] l@.sectors[sector_keys@[a]].forces.dom().contains(p)
                                    ==> self@.players.dom().contains(p),
                        decreases sector_keys@.len() - i,
                    {
                        assert(sector_keys@.contains(sector_keys@[i as int]));
                        let sector = l.sectors.get(&sector_keys[i]).unwrap();
                        let player_keys = sector.forces.keys();
                        let mut j: usize = 0;
                        while j < player_keys.len()
                            invariant
                                j <= player_keys@.len(),
                                i < sector_keys@.len(),
                                sector@ == l@.sectors[sector_keys@[i as int]],
                                forall|k: u8| sector_keys@.contains(k) <==> l@.sectors.dom().contains(k),
                                *event == (GameEvent::RideTheWorm { location: *location }),
                                self@.board.dom().contains(*location),
                                l@ == self@.board[*location],
                                forall|k: PlayerId| player_keys@.contains(k) <==> sector@.forces.dom().contains(k),
                                forall|b: int| 0 <= b < j ==> self@.players.dom().contains(#[trigger] player_keys@[b]),
                            decreases player_keys@.len() - j,
                        {
                            assert(player_keys@.contains(player_keys@[j as int]));
                            if !self.players.contains_key(&player_keys[j]) {
                                assert(sector_keys@.contains(sector_keys@[i as int]));
                                assert(l@.sectors.dom().contains(sector_keys@[i as int]));
                                assert(self@.board[*location].sectors[sector_keys@[i as int]].forces.dom().contains(player_keys@[j as int]));
                                return false;
                            }
                            j = j + 1;
                        }
                        assert forall|p: PlayerId| #[trigger] sector@.forces.dom().contains(p) implies self@.players.dom().contains(p) by {
                            assert(player_keys@.contains(p));
                            let b = choose|b: int| 0 <= b < player_keys@.len() && player_keys@[b] == p;
                        }
                        i = i + 1;
                    }
                    assert forall|sector: u8, p: PlayerId|
                        l@.sectors.dom().contains(sector) && #[trigger] l@.sectors[sector].forces.dom().contains(p) implies
                        self@.players.dom().contains(p) by {
                        assert(sector_keys@.contains(sector));
                        let a = choose|a: int| 0 <= a < sector_keys@.len() && sector_keys@[a] == sector;
                        assert(l@.sectors[sector_keys@[a]].forces.dom().contains(p));
                    }
                    true
                },
                None => false,
            },
            GameEvent::WinBid { player_id, .. } => self.bidding_cards.len() > 0 && self.players.contains_key(player_id),
            GameEvent::Revive { leader, .. } => match self.active_player {
                Some(a) => match self.players.get(&a) {
                    Some(p) => match leader {
                        Some(l) => p.tanks.leaders.contains(l),
                        None => true,
                    },
                    None => false,
                },
                None => false,
            },
            GameEvent::SetBattlePlan { .. } => false,
            GameEvent::DealCard { player_id, from } => self.players.contains_key(player_id) && (*from
                == DeckType::Traitor || *from == DeckType::Treachery),
            GameEvent::DiscardCard { player_id, to, .. } => self.players.contains_key(player_id) && (*to
                == DeckType::Traitor || *to == DeckType::Treachery),
            _ => true,
        }
    }
}


impl GameState {
    /// Whether validating `event` is defined.
    pub fn can_validate(&self, data: &Data, event: &GameEvent) -> (r: bool)
        ensures
            r == validatable(self@, data, event@),
    {
        match event {
            GameEvent::Bribe { .. } | GameEvent::MoveForces { .. } | GameEvent::Revive { .. }
            | GameEvent::SetBattlePlan { .. } => false,
            GameEvent::ShipForces { player_id, forces, .. } => {
                if self.active_player != Some(*player_id) {
                    return true;
                }
                match self.players.get(player_id) {
                    Some(player) => {
                        if all_contained(forces, &player.offworld_forces) && self.phase == Phase::Setup(
                            SetupPhase::PlaceForces,
                        ) {
                            data.factions.contains_key(&player.faction)
                        } else {
                            true
                        }
                    },
                    None => false,
                }
            },
            _ => true,
        }
    }
}

} // verus!
