use dune::collections::{AssocMap, KeySet};
use dune::components::{Faction, Leader, Location, SpiceCard, TreacheryCard, TreacheryCardKind};
use dune::data::{Data, FactionData, FactionStartingValues, LeaderData, SpiceCardData};
use dune::object::ObjectId;
use dune::phase::{Phase, SetupPhase, SpiceBlowPhase, StormPhase};
use dune::server::{Server, ServerError, ServerEvent};
use dune::state::{DeckType, GameEvent, GameState, PlayerId, Prompt};

const TREACHERY_CARDS: usize = 40;

fn faction(spice: u8, units: u8, special_forces: u8) -> FactionData {
    FactionData {
        name: String::from("faction"),
        starting_values: FactionStartingValues { units, possible_locations: None, spice },
        special_forces,
    }
}

fn rules() -> Data {
    let mut factions = AssocMap::new();
    factions.insert(Faction::Atreides, faction(10, 10, 0));
    factions.insert(Faction::Harkonnen, faction(10, 10, 0));
    factions.insert(Faction::Emperor, faction(10, 0, 5));
    factions.insert(Faction::SpacingGuild, faction(5, 5, 0));
    factions.insert(Faction::Fremen, faction(3, 10, 3));
    factions.insert(Faction::BeneGesserit, faction(5, 1, 0));
    let owners = [
        Faction::Atreides,
        Faction::BeneGesserit,
        Faction::Emperor,
        Faction::Fremen,
        Faction::Harkonnen,
        Faction::SpacingGuild,
    ];
    let mut leaders = AssocMap::new();
    for (i, leader) in Leader::all().into_iter().enumerate() {
        let data = LeaderData { name: String::from("leader"), power: 1, faction: owners[i / 5], texture: String::new() };
        leaders.insert(leader, data);
    }
    let mut spice_cards = AssocMap::new();
    for card in [SpiceCard::OldGap, SpiceCard::BrokenLand, SpiceCard::ShaiHalud] {
        spice_cards.insert(card, SpiceCardData { name: String::from("spice"), location_data: None, texture: String::new() });
    }
    let treachery_deck =
        (0..TREACHERY_CARDS).map(|variant| TreacheryCard { kind: TreacheryCardKind::Lasgun, variant }).collect();
    Data { leaders, factions, treachery_cards: AssocMap::new(), spice_cards, treachery_deck }
}

/// A client's copy of the game, kept up to date from what the server sends.
fn replay(client: &mut GameState, data: &Data, events: Vec<GameEvent>) {
    for e in events {
        assert!(client.can_consume(data, &e));
        client.consume(data, e);
    }
}

fn lobby_of_two() -> (Server, GameState, Data) {
    let mut server = Server::new(rules());
    let data = rules();
    let client = GameState::default();
    let direct = server.client_connected(PlayerId(1)).unwrap();
    assert_eq!(direct.len(), 1);
    let direct = server.client_connected(PlayerId(2)).unwrap();
    assert_eq!(direct.len(), 2);
    (server, client, data)
}

fn active(server: &Server) -> PlayerId {
    server.state.active_player.unwrap()
}

#[test]
fn a_lone_player_cannot_start() {
    let mut server = Server::new(rules());
    server.client_connected(PlayerId(1)).unwrap();
    assert_eq!(server.lobby_message(PlayerId(1), ServerEvent::StartGame), Ok(false));
    assert!(server.ready_players.is_empty());
    assert_eq!(server.state.phase, Phase::EndGame);
}

#[test]
fn a_joining_client_hears_of_everyone_waiting() {
    let mut server = Server::new(rules());
    server.client_connected(PlayerId(7)).unwrap();
    server.client_connected(PlayerId(8)).unwrap();
    let direct = server.client_connected(PlayerId(9)).unwrap();
    let mut ids: Vec<u64> = direct
        .iter()
        .map(|e| match e {
            GameEvent::PlayerJoined { player_id } => player_id.0,
            _ => panic!("unexpected event"),
        })
        .collect();
    ids.sort();
    assert_eq!(ids, vec![7, 8, 9]);
    let outbox = server.take_outbox();
    assert_eq!(outbox.len(), 3);
}

#[test]
fn a_full_setup_runs_and_clients_keep_in_step() {
    let (mut server, mut client, data) = lobby_of_two();
    assert_eq!(server.lobby_message(PlayerId(1), ServerEvent::StartGame), Ok(true));
    assert_eq!(server.state.phase, Phase::EndGame);
    assert_eq!(server.lobby_message(PlayerId(2), ServerEvent::StartGame), Ok(true));
    assert_eq!(server.state.phase, Phase::Setup(SetupPhase::ChooseFactions));
    assert_eq!(server.state.play_order.len(), 2);
    assert!(server.state.play_order.contains(&PlayerId(1)));
    assert!(server.state.play_order.contains(&PlayerId(2)));
    assert!(server.ready_players.is_empty());
    let first = active(&server);
    assert!(matches!(server.state.prompts.get(&first), Some(Prompt::Faction { .. })));
    replay(&mut client, &data, server.take_outbox());

    // Someone who is not on turn cannot pick.
    let second = if first == PlayerId(1) { PlayerId(2) } else { PlayerId(1) };
    let early = GameEvent::ChooseFaction { player_id: second, faction: Faction::Fremen };
    assert_eq!(server.client_event(early), Ok(false));

    assert_eq!(server.client_event(GameEvent::ChooseFaction { player_id: first, faction: Faction::Atreides }), Ok(true));
    assert_eq!(active(&server), second);
    match server.state.prompts.get(&second) {
        Some(Prompt::Faction { remaining }) => {
            assert_eq!(remaining.len(), 5);
            assert!(!remaining.contains(&Faction::Atreides));
        }
        _ => panic!("no faction prompt"),
    }
    assert_eq!(server.state.players.get(&first).unwrap().offworld_forces.len(), 20);
    assert_eq!(server.state.players.get(&first).unwrap().living_leaders.len(), 5);

    assert_eq!(server.client_event(GameEvent::ChooseFaction { player_id: second, faction: Faction::Fremen }), Ok(true));
    // No Bene Gesserit: the prediction is skipped, the decks are dealt and the
    // traitors shown.
    assert_eq!(server.state.phase, Phase::Setup(SetupPhase::DealTraitors));
    let outbox = server.take_outbox();
    let treachery_order: Vec<ObjectId> = outbox
        .iter()
        .find_map(|e| match e {
            GameEvent::SetDeckOrder { deck_order, deck_type: DeckType::Treachery } => Some(deck_order.clone()),
            _ => None,
        })
        .unwrap();
    assert_eq!(treachery_order.len(), TREACHERY_CARDS);
    let mut sorted = treachery_order.clone();
    sorted.sort();
    assert_ne!(sorted, treachery_order);
    replay(&mut client, &data, outbox);

    for p in [first, second] {
        let player = server.state.players.get(&p).unwrap();
        assert_eq!(player.traitor_cards.len(), 4);
        assert!(matches!(server.state.prompts.get(&p), Some(Prompt::Traitor)));
    }
    // 10 traitor cards (two factions, five leaders each) less eight dealt.
    assert_eq!(server.state.decks.traitor.cards.len(), 2);
    assert_eq!(server.state.decks.storm.cards.len(), 6);
    assert_eq!(server.state.decks.spice.cards.len(), 3);

    for p in [first, second] {
        let keep = server.state.players.get(&p).unwrap().traitor_cards.objects()[0].id;
        assert_eq!(server.client_event(GameEvent::ChooseTraitor { player_id: p, card_id: keep }), Ok(true));
        assert_eq!(server.state.players.get(&p).unwrap().traitor_cards.len(), 1);
    }
    assert_eq!(server.state.decks.traitor.discard.len(), 6);
    assert_eq!(server.state.phase, Phase::Setup(SetupPhase::PlaceForces));
    assert_eq!(active(&server), server.state.play_order[0]);

    let to = Location::Arrakeen.with_sector(9);
    let on_turn = active(&server);
    let ids: Vec<ObjectId> = server.state.players.get(&on_turn).unwrap().offworld_forces.objects().iter().map(|o| o.id).collect();
    let forces = KeySet::from_vec(ids[..10].to_vec());
    assert_eq!(server.client_event(GameEvent::ShipForces { player_id: on_turn, to, forces }), Ok(true));
    let next = active(&server);
    assert_ne!(next, on_turn);
    let ids: Vec<ObjectId> = server.state.players.get(&next).unwrap().offworld_forces.objects().iter().map(|o| o.id).collect();
    let forces = KeySet::from_vec(ids[..10].to_vec());
    assert_eq!(server.client_event(GameEvent::ShipForces { player_id: next, to, forces }), Ok(true));

    // Treachery is dealt and the first storm moves at random.
    assert_eq!(server.state.phase, Phase::SpiceBlow(SpiceBlowPhase::Reveal));
    assert!(server.state.storm_sector < 18);
    for p in [first, second] {
        assert_eq!(server.state.players.get(&p).unwrap().treachery_cards.len(), 1);
    }
    replay(&mut client, &data, server.take_outbox());
    assert_eq!(client.phase, server.state.phase);
    assert_eq!(client.storm_sector, server.state.storm_sector);
    assert_eq!(client.play_order, server.state.play_order);
    assert_eq!(client.active_player, server.state.active_player);
    for p in [first, second] {
        let a = client.players.get(&p).unwrap();
        let b = server.state.players.get(&p).unwrap();
        assert_eq!(a.spice, b.spice);
        assert_eq!(a.faction, b.faction);
        assert_eq!(a.offworld_forces.len(), b.offworld_forces.len());
        assert_eq!(a.treachery_cards.len(), b.treachery_cards.len());
    }
    assert_eq!(client.decks.treachery.cards.len(), server.state.decks.treachery.cards.len());
}

#[test]
fn a_leaving_player_ends_the_game() {
    let (mut server, mut client, data) = lobby_of_two();
    server.client_disconnected(PlayerId(2)).unwrap();
    assert!(!server.waiting_players.contains(&PlayerId(2)));
    assert_eq!(server.state.phase, Phase::EndGame);
    let outbox = server.take_outbox();
    assert_eq!(outbox.len(), 4);
    assert!(matches!(outbox[2], GameEvent::PlayerDisconnected { player_id: PlayerId(2) }));
    assert!(matches!(outbox.last(), Some(GameEvent::EndGame { .. })));
    replay(&mut client, &data, outbox);
}

#[test]
fn a_server_event_from_a_client_is_dropped() {
    let (mut server, _, _) = lobby_of_two();
    server.take_outbox();
    assert_eq!(server.client_event(GameEvent::AdvancePhase), Ok(false));
    assert_eq!(server.client_event(GameEvent::MoveStorm { sectors: 3 }), Ok(false));
    assert!(server.take_outbox().is_empty());
}

#[test]
fn error_unvalidatable() {
    let (mut server, _, _) = lobby_of_two();
    let bribe = GameEvent::Bribe { player_id: PlayerId(1), other_player_id: PlayerId(2), spice: 1 };
    assert_eq!(server.client_event(bribe), Err(ServerError::Unvalidatable));
}

#[test]
fn error_unconsumable() {
    let mut data = rules();
    data.factions.remove(&Faction::Emperor);
    let mut server = Server::new(data);
    server.state.phase = Phase::Setup(SetupPhase::ChooseFactions);
    server.state.active_player = Some(PlayerId(1));
    let e = GameEvent::ChooseFaction { player_id: PlayerId(1), faction: Faction::Emperor };
    assert_eq!(server.client_event(e), Err(ServerError::Unconsumable));
    assert!(server.take_outbox().is_empty());
}

#[test]
fn error_missing_data() {
    let mut data = rules();
    data.leaders.remove(&Leader::Stilgar);
    let mut server = Server::new(data);
    server.client_connected(PlayerId(1)).unwrap();
    server.client_connected(PlayerId(2)).unwrap();
    server.lobby_message(PlayerId(1), ServerEvent::StartGame).unwrap();
    server.lobby_message(PlayerId(2), ServerEvent::StartGame).unwrap();
    let first = active(&server);
    server.client_event(GameEvent::ChooseFaction { player_id: first, faction: Faction::Atreides }).unwrap();
    let second = active(&server);
    let r = server.client_event(GameEvent::ChooseFaction { player_id: second, faction: Faction::Harkonnen });
    assert_eq!(r, Err(ServerError::MissingData));
}

#[test]
fn error_missing_player() {
    let data = rules();
    let mut server = Server::new(rules());
    let mut s = GameState::default();
    s.consume(&data, GameEvent::ChooseFaction { player_id: PlayerId(1), faction: Faction::Atreides });
    s.consume(&data, GameEvent::ChooseFaction { player_id: PlayerId(3), faction: Faction::Fremen });
    s.consume(&data, GameEvent::SetPlayOrder { play_order: vec![PlayerId(1), PlayerId(2)] });
    s.consume(&data, GameEvent::SetActive { player_id: PlayerId(1) });
    s.phase = Phase::Setup(SetupPhase::PlaceForces);
    server.state = s;
    assert_eq!(server.client_event(GameEvent::Pass), Err(ServerError::MissingPlayer));
}

#[test]
fn error_missing_storm_card() {
    let mut server = Server::new(rules());
    server.client_connected(PlayerId(1)).unwrap();
    server.client_connected(PlayerId(2)).unwrap();
    server.state.phase = Phase::Storm(StormPhase::FamilyAtomics);
    server.state.game_turn = 1;
    server.lobby_message(PlayerId(1), ServerEvent::StartGame).unwrap();
    let r = server.lobby_message(PlayerId(2), ServerEvent::StartGame);
    assert_eq!(r, Err(ServerError::MissingStormCard));
    assert_eq!(server.state.phase, Phase::Storm(StormPhase::MoveStorm));
}

#[test]
fn error_no_active_player() {
    let data = rules();
    let mut server = Server::new(rules());
    let mut s = GameState::default();
    s.consume(&data, GameEvent::ChooseFaction { player_id: PlayerId(1), faction: Faction::BeneGesserit });
    s.phase = Phase::Setup(SetupPhase::Prediction);
    server.state = s;
    let e = GameEvent::MakeFactionPrediction { faction: Faction::BeneGesserit };
    assert_eq!(server.client_event(e), Err(ServerError::NoActivePlayer));
}

#[test]
fn error_out_of_ids() {
    let mut server = Server::new(rules());
    server.state.phase = Phase::Setup(SetupPhase::ChooseFactions);
    server.state.active_player = Some(PlayerId(1));
    server.ids.last = Some(ObjectId(u64::MAX - 3));
    let e = GameEvent::ChooseFaction { player_id: PlayerId(1), faction: Faction::Fremen };
    assert_eq!(server.client_event(e), Err(ServerError::OutOfIds));
}

#[test]
fn the_bene_gesserit_predict_before_the_decks_are_dealt() {
    let (mut server, mut client, data) = lobby_of_two();
    server.lobby_message(PlayerId(1), ServerEvent::StartGame).unwrap();
    server.lobby_message(PlayerId(2), ServerEvent::StartGame).unwrap();
    let first = active(&server);
    server.client_event(GameEvent::ChooseFaction { player_id: first, faction: Faction::BeneGesserit }).unwrap();
    let second = active(&server);
    server.client_event(GameEvent::ChooseFaction { player_id: second, faction: Faction::Fremen }).unwrap();
    assert_eq!(server.state.phase, Phase::Setup(SetupPhase::Prediction));
    assert_eq!(active(&server), first);
    assert!(matches!(server.state.prompts.get(&first), Some(Prompt::FactionPrediction)));
    // Only a seated faction can be predicted.
    let wrong = GameEvent::MakeFactionPrediction { faction: Faction::Emperor };
    assert_eq!(server.client_event(wrong), Ok(false));
    let outbox_before = server.outbox.len();
    assert_eq!(server.client_event(GameEvent::MakeFactionPrediction { faction: Faction::Fremen }), Ok(true));
    assert!(matches!(server.outbox[outbox_before], GameEvent::MakeFactionPrediction { faction: Faction::Fremen }));
    assert!(matches!(
        server.outbox[outbox_before + 1],
        GameEvent::ShowPrompt { prompt: Prompt::TurnPrediction, .. }
    ));
    assert_eq!(server.client_event(GameEvent::MakeTurnPrediction { turn: 15 }), Ok(false));
    let outbox_before = server.outbox.len();
    assert_eq!(server.client_event(GameEvent::MakeTurnPrediction { turn: 7 }), Ok(true));
    assert!(matches!(server.outbox[outbox_before + 1], GameEvent::AdvancePhase));
    assert_eq!(server.state.bg_predictions.faction, Some(Faction::Fremen));
    assert_eq!(server.state.bg_predictions.turn, Some(7));
    assert_eq!(server.state.phase, Phase::Setup(SetupPhase::DealTraitors));
    replay(&mut client, &data, server.take_outbox());
    assert_eq!(client.bg_predictions.turn, Some(7));
    assert_eq!(client.phase, server.state.phase);
}

#[test]
fn a_chosen_faction_is_spawned_with_fresh_ids_then_the_turn_passes() {
    let (mut server, _, _) = lobby_of_two();
    server.lobby_message(PlayerId(1), ServerEvent::StartGame).unwrap();
    server.lobby_message(PlayerId(2), ServerEvent::StartGame).unwrap();
    let first = active(&server);
    server.take_outbox();
    let last_before = server.ids.last.map(|id| id.0).unwrap_or(0);
    server.client_event(GameEvent::ChooseFaction { player_id: first, faction: Faction::Fremen }).unwrap();
    let outbox = server.take_outbox();
    assert!(matches!(outbox[0], GameEvent::ChooseFaction { .. }));
    let mut ids = Vec::new();
    for e in &outbox[1..26] {
        match e {
            GameEvent::SpawnObject { spawn_type: dune::state::SpawnType::Leader { leader, .. } } => ids.push(leader.id.0),
            GameEvent::SpawnObject { spawn_type: dune::state::SpawnType::Troop { unit, .. } } => ids.push(unit.id.0),
            _ => panic!("expected a spawn"),
        }
    }
    let expected: Vec<u64> = (1..=25).map(|k| last_before + k).collect();
    assert_eq!(ids, expected);
    let specials = outbox[1..26]
        .iter()
        .filter(|e| matches!(e, GameEvent::SpawnObject { spawn_type: dune::state::SpawnType::Troop { unit, .. } } if unit.inner.is_special))
        .count();
    assert_eq!(specials, 3);
    assert!(matches!(outbox[26], GameEvent::Pass));
    assert!(matches!(outbox[27], GameEvent::ShowPrompt { prompt: Prompt::Faction { .. }, .. }));
    assert_eq!(outbox.len(), 28);
}

#[test]
fn the_bene_gesserit_are_made_active_and_asked_to_predict() {
    let (mut server, _, _) = lobby_of_two();
    server.lobby_message(PlayerId(1), ServerEvent::StartGame).unwrap();
    server.lobby_message(PlayerId(2), ServerEvent::StartGame).unwrap();
    let first = active(&server);
    server.client_event(GameEvent::ChooseFaction { player_id: first, faction: Faction::BeneGesserit }).unwrap();
    let second = active(&server);
    server.take_outbox();
    server.client_event(GameEvent::ChooseFaction { player_id: second, faction: Faction::Atreides }).unwrap();
    let outbox = server.take_outbox();
    let n = outbox.len();
    assert!(matches!(outbox[n - 2], GameEvent::SetActive { player_id } if player_id == first));
    assert!(matches!(outbox[n - 1], GameEvent::ShowPrompt { player_id, prompt: Prompt::FactionPrediction } if player_id == first));
    assert!(matches!(outbox[n - 3], GameEvent::AdvancePhase));
}

#[test]
fn a_faction_is_spawned_with_exactly_enough_ids() {
    let mut server = Server::new(rules());
    server.state.phase = Phase::Setup(SetupPhase::ChooseFactions);
    server.state.active_player = Some(PlayerId(1));
    // Five leaders and twenty forces take twenty-five ids.
    server.ids.last = Some(ObjectId(u64::MAX - 25));
    let e = GameEvent::ChooseFaction { player_id: PlayerId(1), faction: Faction::Fremen };
    let r = server.client_event(e);
    assert_ne!(r, Err(ServerError::OutOfIds));
    let player = server.state.players.get(&PlayerId(1)).unwrap();
    assert_eq!(player.offworld_forces.len(), 20);
    assert_eq!(player.living_leaders.len(), 5);
    assert_eq!(server.ids.last, Some(ObjectId(u64::MAX)));
}

#[test]
fn a_faction_one_id_short_is_refused() {
    let mut server = Server::new(rules());
    server.state.phase = Phase::Setup(SetupPhase::ChooseFactions);
    server.state.active_player = Some(PlayerId(1));
    server.ids.last = Some(ObjectId(u64::MAX - 24));
    let e = GameEvent::ChooseFaction { player_id: PlayerId(1), faction: Faction::Fremen };
    assert_eq!(server.client_event(e), Err(ServerError::OutOfIds));
}
