use dune::collections::{AssocMap, KeySet};
use dune::components::{Faction, Leader, Location, SpiceCard, StormCard, TraitorCard, Troop};
use dune::data::{Data, FactionData, FactionStartingValues};
use dune::object::{ObjectId, WithObjectId};
use dune::phase::{Phase, SetupPhase, StormPhase};
use dune::state::{DeckType, GameEvent, GameState, PlayerId, SpawnType};

fn faction(spice: u8, units: u8, special_forces: u8) -> FactionData {
    FactionData {
        name: String::from("faction"),
        starting_values: FactionStartingValues { units, possible_locations: None, spice },
        special_forces,
    }
}

fn rules() -> Data {
    let mut factions = AssocMap::new();
    factions.insert(Faction::Atreides, faction(10, 10, 0));
    factions.insert(Faction::Harkonnen, faction(10, 10, 0));
    factions.insert(Faction::Emperor, faction(10, 0, 5));
    factions.insert(Faction::SpacingGuild, faction(5, 5, 0));
    factions.insert(Faction::Fremen, faction(3, 10, 3));
    factions.insert(Faction::BeneGesserit, faction(5, 1, 0));
    Data {
        leaders: AssocMap::new(),
        factions,
        treachery_cards: AssocMap::new(),
        spice_cards: AssocMap::new(),
        treachery_deck: Vec::new(),
    }
}

fn apply(state: &mut GameState, data: &Data, event: GameEvent) {
    assert!(state.can_consume(data, &event));
    state.consume(data, event);
}

fn two_players(data: &Data) -> GameState {
    let mut s = GameState::default();
    apply(&mut s, data, GameEvent::ChooseFaction { player_id: PlayerId(1), faction: Faction::Atreides });
    apply(&mut s, data, GameEvent::ChooseFaction { player_id: PlayerId(2), faction: Faction::Fremen });
    s
}

#[test]
fn a_new_game_is_empty() {
    let s = GameState::default();
    assert_eq!(s.phase, Phase::EndGame);
    assert!(s.players.is_empty());
    assert!(s.decks.is_empty());
    assert_eq!(s.history.len(), 0);
    assert_eq!(s.storm_sector, 0);
}

#[test]
fn choosing_a_faction_seats_the_player() {
    let data = rules();
    let s = two_players(&data);
    let p = s.players.get(&PlayerId(2)).unwrap();
    assert_eq!(p.faction, Faction::Fremen);
    assert_eq!(p.spice, 3);
    assert!(!p.shipped);
    assert_eq!(s.factions.get(&Faction::Atreides), Some(&PlayerId(1)));
    assert_eq!(s.history.len(), 2);
}

#[test]
fn choosing_an_unknown_faction_cannot_be_applied() {
    let mut data = rules();
    data.factions.remove(&Faction::Emperor);
    let s = GameState::default();
    let e = GameEvent::ChooseFaction { player_id: PlayerId(1), faction: Faction::Emperor };
    assert!(!s.can_consume(&data, &e));
}

#[test]
fn a_bribe_moves_spice() {
    let data = rules();
    let mut s = two_players(&data);
    apply(&mut s, &data, GameEvent::Bribe { player_id: PlayerId(1), other_player_id: PlayerId(2), spice: 4 });
    assert_eq!(s.players.get(&PlayerId(1)).unwrap().spice, 6);
    assert_eq!(s.players.get(&PlayerId(2)).unwrap().spice, 7);
    let too_much = GameEvent::Bribe { player_id: PlayerId(2), other_player_id: PlayerId(1), spice: 8 };
    assert!(!s.can_consume(&data, &too_much));
}

#[test]
fn collecting_spice_takes_it_from_the_board() {
    let data = rules();
    let mut s = two_players(&data);
    let ls = Location::TheGreatFlat.with_sector(14);
    apply(&mut s, &data, GameEvent::PlaceSpice { location: ls, spice: 10 });
    apply(&mut s, &data, GameEvent::CollectSpice { player_id: PlayerId(2), spice: 4, from: Some(ls) });
    assert_eq!(s.players.get(&PlayerId(2)).unwrap().spice, 7);
    let sector = s.board.get(&Location::TheGreatFlat).unwrap().sectors.get(&14).unwrap();
    assert_eq!(sector.spice, 6);
    let more = GameEvent::CollectSpice { player_id: PlayerId(2), spice: 7, from: Some(ls) };
    assert!(!s.can_consume(&data, &more));
    apply(&mut s, &data, GameEvent::CollectSpice { player_id: PlayerId(1), spice: 2, from: None });
    assert_eq!(s.players.get(&PlayerId(1)).unwrap().spice, 12);
}

#[test]
fn spice_does_not_land_under_the_storm() {
    let data = rules();
    let mut s = GameState::default();
    let ls = Location::TheGreatFlat.with_sector(0);
    apply(&mut s, &data, GameEvent::PlaceSpice { location: ls, spice: 10 });
    assert!(s.board.get(&Location::TheGreatFlat).is_none());
}

#[test]
fn the_storm_wraps_around_the_board() {
    let data = rules();
    let mut s = GameState::default();
    apply(&mut s, &data, GameEvent::MoveStorm { sectors: 10 });
    assert_eq!(s.storm_sector, 10);
    apply(&mut s, &data, GameEvent::MoveStorm { sectors: 10 });
    assert_eq!(s.storm_sector, 2);
    apply(&mut s, &data, GameEvent::MoveStorm { sectors: 36 });
    assert_eq!(s.storm_sector, 2);
}

#[test]
fn history_keeps_the_last_ten_events() {
    let data = rules();
    let mut s = GameState::default();
    for _ in 0..12 {
        apply(&mut s, &data, GameEvent::AdvancePhase);
    }
    assert_eq!(s.history.len(), 10);
    apply(&mut s, &data, GameEvent::PlayerJoined { player_id: PlayerId(5) });
    assert_eq!(s.history.len(), 10);
    assert!(matches!(s.history.back(), Some(GameEvent::AdvancePhase)));
    apply(&mut s, &data, GameEvent::MoveStorm { sectors: 1 });
    assert!(matches!(s.history.back(), Some(GameEvent::MoveStorm { sectors: 1 })));
}

#[test]
fn advancing_starts_setup_and_clears_the_active_player() {
    let data = rules();
    let mut s = GameState::default();
    apply(&mut s, &data, GameEvent::SetActive { player_id: PlayerId(3) });
    apply(&mut s, &data, GameEvent::AdvancePhase);
    assert_eq!(s.phase, Phase::Setup(SetupPhase::ChooseFactions));
    assert_eq!(s.active_player, None);
}

#[test]
fn passing_walks_the_play_order() {
    let data = rules();
    let mut s = GameState::default();
    apply(&mut s, &data, GameEvent::SetPlayOrder { play_order: vec![PlayerId(2), PlayerId(1)] });
    apply(&mut s, &data, GameEvent::StartRound);
    assert_eq!(s.active_player, Some(PlayerId(2)));
    apply(&mut s, &data, GameEvent::Pass);
    assert_eq!(s.active_player, Some(PlayerId(1)));
    apply(&mut s, &data, GameEvent::Pass);
    assert_eq!(s.active_player, None);
}

#[test]
fn starting_a_round_needs_a_play_order() {
    let data = rules();
    let s = GameState::default();
    assert!(!s.can_consume(&data, &GameEvent::StartRound));
}

#[test]
fn a_leaving_player_loses_the_seat() {
    let data = rules();
    let mut s = two_players(&data);
    apply(&mut s, &data, GameEvent::PlayerDisconnected { player_id: PlayerId(1) });
    assert!(s.players.get(&PlayerId(1)).is_none());
    assert_eq!(s.history.len(), 2);
}

#[test]
fn decks_are_ordered_and_dealt_from_the_top() {
    let data = rules();
    let mut s = two_players(&data);
    for (i, leader) in [Leader::DuncanIdaho, Leader::GurneyHalleck, Leader::ThufirHawat].iter().enumerate() {
        let card = TraitorCard { leader: *leader }.with_id(ObjectId(10 + i as u64));
        apply(&mut s, &data, GameEvent::SpawnObject { spawn_type: SpawnType::TraitorCard(card) });
    }
    assert!(!s.decks.is_empty());
    let bad = GameEvent::SetDeckOrder { deck_order: vec![ObjectId(10), ObjectId(10), ObjectId(11)], deck_type: DeckType::Traitor };
    assert!(!s.can_consume(&data, &bad));
    let order = vec![ObjectId(12), ObjectId(10), ObjectId(11)];
    assert!(s.decks.traitor.is_order(&order));
    apply(&mut s, &data, GameEvent::SetDeckOrder { deck_order: order, deck_type: DeckType::Traitor });
    let ids: Vec<ObjectId> = s.decks.traitor.cards.iter().map(|c| c.id).collect();
    assert_eq!(ids, vec![ObjectId(12), ObjectId(10), ObjectId(11)]);
    apply(&mut s, &data, GameEvent::DealCard { player_id: PlayerId(1), from: DeckType::Traitor });
    let p = s.players.get(&PlayerId(1)).unwrap();
    assert!(p.traitor_cards.contains(&ObjectId(11)));
    assert_eq!(s.decks.traitor.cards.len(), 2);
    apply(&mut s, &data, GameEvent::DiscardCard { player_id: PlayerId(1), card_id: ObjectId(11), to: DeckType::Traitor });
    assert_eq!(s.decks.traitor.last_discarded().map(|c| c.id), Some(ObjectId(11)));
    assert!(!s.players.get(&PlayerId(1)).unwrap().traitor_cards.contains(&ObjectId(11)));
}

#[test]
fn revealing_the_storm_card_drives_the_storm() {
    let data = rules();
    let mut s = GameState::default();
    let card = StormCard { val: 5 }.with_id(ObjectId(1));
    apply(&mut s, &data, GameEvent::SpawnObject { spawn_type: SpawnType::StormCard(card) });
    apply(&mut s, &data, GameEvent::RevealStorm);
    assert_eq!(s.storm_card.map(|c| c.inner.val), Some(5));
    assert!(s.decks.storm.cards.is_empty());
    apply(&mut s, &data, GameEvent::MoveStorm { sectors: 5 });
    assert_eq!(s.storm_sector, 5);
    assert!(s.storm_card.is_none());
    assert_eq!(s.decks.storm.cards.len(), 1);
    assert!(!GameState::default().can_consume(&data, &GameEvent::RevealStorm));
}

#[test]
fn the_spice_blow_reveals_and_places() {
    let data = rules();
    let mut s = GameState::default();
    let card = SpiceCard::OldGap.with_id(ObjectId(3));
    apply(&mut s, &data, GameEvent::SpawnObject { spawn_type: SpawnType::SpiceCard(card) });
    apply(&mut s, &data, GameEvent::RevealSpiceBlow);
    assert_eq!(s.spice_card.map(|c| c.id), Some(ObjectId(3)));
    apply(&mut s, &data, GameEvent::PlaceSpice { location: Location::OldGap.with_sector(9), spice: 6 });
    assert!(s.spice_card.is_none());
    assert_eq!(s.decks.spice.discard.len(), 1);
}

#[test]
fn shipped_forces_reach_the_board() {
    let data = rules();
    let mut s = two_players(&data);
    for i in 0..3u64 {
        let unit = Troop { is_special: false }.with_id(ObjectId(100 + i));
        apply(&mut s, &data, GameEvent::SpawnObject { spawn_type: SpawnType::Troop { player_id: PlayerId(1), unit } });
    }
    apply(&mut s, &data, GameEvent::SetActive { player_id: PlayerId(1) });
    let mut forces = KeySet::new();
    forces.insert(ObjectId(100));
    forces.insert(ObjectId(101));
    let to = Location::Arrakeen.with_sector(9);
    apply(&mut s, &data, GameEvent::ShipForces { player_id: PlayerId(1), to, forces });
    let p = s.players.get(&PlayerId(1)).unwrap();
    assert_eq!(p.offworld_forces.len(), 1);
    assert!(p.shipped);
    let sector = s.board.get(&Location::Arrakeen).unwrap().sectors.get(&9).unwrap();
    assert_eq!(sector.forces.get(&PlayerId(1)).unwrap().forces.len(), 2);
}

#[test]
fn the_worm_sends_forces_to_the_tanks() {
    let data = rules();
    let mut s = two_players(&data);
    let unit = Troop { is_special: true }.with_id(ObjectId(100));
    apply(&mut s, &data, GameEvent::SpawnObject { spawn_type: SpawnType::Troop { player_id: PlayerId(2), unit } });
    apply(&mut s, &data, GameEvent::SetActive { player_id: PlayerId(2) });
    let mut forces = KeySet::new();
    forces.insert(ObjectId(100));
    let to = Location::HaggaBasin.with_sector(11);
    apply(&mut s, &data, GameEvent::ShipForces { player_id: PlayerId(2), to, forces });
    apply(&mut s, &data, GameEvent::SpawnObject { spawn_type: SpawnType::Worm { location: Location::HaggaBasin, id: ObjectId(7) } });
    apply(&mut s, &data, GameEvent::RideTheWorm { location: Location::HaggaBasin });
    let p = s.players.get(&PlayerId(2)).unwrap();
    assert!(p.tanks.forces.contains(&ObjectId(100)));
    assert!(s.board.get(&Location::HaggaBasin).unwrap().sectors.is_empty());
    assert_eq!(s.board.get(&Location::HaggaBasin).unwrap().worm, Some(ObjectId(7)));
}

#[test]
fn validation_follows_the_phase_and_the_turn() {
    let data = rules();
    let mut s = GameState::default();
    let choose = GameEvent::ChooseFaction { player_id: PlayerId(1), faction: Faction::Fremen };
    assert!(s.can_validate(&data, &choose));
    assert!(!s.validate(&data, &choose));
    apply(&mut s, &data, GameEvent::AdvancePhase);
    apply(&mut s, &data, GameEvent::SetActive { player_id: PlayerId(1) });
    assert!(s.validate(&data, &choose));
    let other = GameEvent::ChooseFaction { player_id: PlayerId(2), faction: Faction::Fremen };
    assert!(!s.validate(&data, &other));
    assert!(s.validate(&data, &GameEvent::Pass));
    apply(&mut s, &data, choose);
    assert!(!s.validate(&data, &GameEvent::Pass));
    assert!(!s.validate(&data, &GameEvent::AdvancePhase));
    assert!(!s.validate(&data, &GameEvent::MoveStorm { sectors: 3 }));
    let bribe = GameEvent::Bribe { player_id: PlayerId(1), other_player_id: PlayerId(2), spice: 1 };
    assert!(!s.can_validate(&data, &bribe));
}

#[test]
fn turn_predictions_stop_at_fifteen() {
    let data = rules();
    let mut s = GameState::default();
    apply(&mut s, &data, GameEvent::ChooseFaction { player_id: PlayerId(4), faction: Faction::BeneGesserit });
    s.phase = Phase::Setup(SetupPhase::Prediction);
    assert!(s.validate(&data, &GameEvent::MakeTurnPrediction { turn: 14 }));
    assert!(!s.validate(&data, &GameEvent::MakeTurnPrediction { turn: 15 }));
    apply(&mut s, &data, GameEvent::MakeTurnPrediction { turn: 3 });
    assert_eq!(s.bg_predictions.turn, Some(3));
    assert!(s.validate(&data, &GameEvent::MakeFactionPrediction { faction: Faction::BeneGesserit }));
    assert!(!s.validate(&data, &GameEvent::MakeFactionPrediction { faction: Faction::Emperor }));
    s.phase = Phase::Storm(StormPhase::Reveal);
    assert!(!s.validate(&data, &GameEvent::MakeTurnPrediction { turn: 3 }));
}

#[test]
fn battle_plans_cannot_be_applied() {
    let data = rules();
    let s = two_players(&data);
    let e = GameEvent::SetBattlePlan { player_id: PlayerId(1), forces: 2, leader: None, treachery_cards: vec![] };
    assert!(!s.can_consume(&data, &e));
}
