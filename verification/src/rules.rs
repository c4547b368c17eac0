use vstd::prelude::*;

use crate::components::{Faction, Location, LocationSector, SpiceCard};
use crate::data::{Data, FactionData};
use crate::object::{Object, ObjectId};
use crate::phase::{next_phase, Phase, SetupPhase};
use crate::state::{
    new_player_view, Bid, BeneGesseritPredictions, TanksView,
    is_order_of, ordered_cards,
    empty_location, empty_sector, BidStateView, DeckType, DeckView, DecksView, GameEventView, GameStateView, LocationView, PlayerId,
    PlayerView, SectorView, SpawnType,
};
use crate::components::Troop;

verus! {

/// The history after `e` happened: joins and leaves are not recorded, and only
/// the last ten events are kept.
pub open spec fn record(h: Seq<GameEventView>, e: GameEventView) -> Seq<GameEventView> {
    match e {
        GameEventView::PlayerJoined { .. } | GameEventView::PlayerDisconnected { .. } => h,
        _ => if h.len() + 1 > 10 {
            h.push(e).drop_first()
        } else {
            h.push(e)
        },
    }
}

/// `i` is the first position of `p` in `s`.
pub open spec fn is_first_index(s: Seq<PlayerId>, p: PlayerId, i: int) -> bool {
    &&& 0 <= i < s.len()
    &&& s[i] == p
    &&& forall|k: int| 0 <= k < i ==> s[k] != p
}

/// Who is active after the active player passes: the next player in play
/// order, or nobody after the last one.
pub open spec fn after_pass(order: Seq<PlayerId>, active: Option<PlayerId>) -> Option<PlayerId> {
    match active {
        Some(p) => {
            let i = choose|i: int| is_first_index(order, p, i);
            if i + 1 == order.len() {
                None
            } else {
                Some(order[i + 1])
            }
        },
        None => None,
    }
}

/// A territory as it stands, or an empty one.
pub open spec fn location_or_empty(board: Map<Location, LocationView>, l: Location) -> LocationView {
    if board.dom().contains(l) {
        board[l]
    } else {
        empty_location()
    }
}

/// A sector as it stands, or an empty one.
pub open spec fn sector_or_empty(board: Map<Location, LocationView>, ls: LocationSector) -> SectorView {
    let l = location_or_empty(board, ls.location);
    if l.sectors.dom().contains(ls.sector) {
        l.sectors[ls.sector]
    } else {
        empty_sector()
    }
}

/// The spice lying in a sector.
pub open spec fn sector_spice(board: Map<Location, LocationView>, ls: LocationSector) -> u8 {
    sector_or_empty(board, ls).spice
}

/// The board with sector `ls` replaced by `s`, creating the territory if needed.
pub open spec fn with_sector(
    board: Map<Location, LocationView>,
    ls: LocationSector,
    s: SectorView,
) -> Map<Location, LocationView> {
    let l = location_or_empty(board, ls.location);
    board.insert(ls.location, LocationView { sectors: l.sectors.insert(ls.sector, s), worm: l.worm })
}

/// The board with `spice` lying in sector `ls`.
pub open spec fn with_sector_spice(
    board: Map<Location, LocationView>,
    ls: LocationSector,
    spice: u8,
) -> Map<Location, LocationView> {
    let s = sector_or_empty(board, ls);
    with_sector(board, ls, SectorView { forces: s.forces, spice })
}

/// The forces that player `p` has in sector `ls`.
pub open spec fn forces_in(board: Map<Location, LocationView>, ls: LocationSector, p: PlayerId) -> Map<
    ObjectId,
    Troop,
> {
    let s = sector_or_empty(board, ls);
    if s.forces.dom().contains(p) {
        s.forces[p]
    } else {
        Map::empty()
    }
}

/// The board with the forces of player `p` in sector `ls` being `f`.
pub open spec fn with_forces(
    board: Map<Location, LocationView>,
    ls: LocationSector,
    p: PlayerId,
    f: Map<ObjectId, Troop>,
) -> Map<Location, LocationView> {
    let s = sector_or_empty(board, ls);
    with_sector(board, ls, SectorView { forces: s.forces.insert(p, f), spice: s.spice })
}

/// The forces of `p` in `ls` joined by `moved`; a force already there stays as it is.
pub open spec fn with_added_forces(
    board: Map<Location, LocationView>,
    ls: LocationSector,
    p: PlayerId,
    moved: Map<ObjectId, Troop>,
) -> Map<Location, LocationView> {
    with_forces(board, ls, p, moved.union_prefer_right(forces_in(board, ls, p)))
}

/// `m` with the object `o` added unless its id is already there.
pub open spec fn add_object<T>(m: Map<ObjectId, T>, o: Object<T>) -> Map<ObjectId, T> {
    if m.dom().contains(o.id) {
        m
    } else {
        m.insert(o.id, o.inner)
    }
}

pub open spec fn with_player(s: GameStateView, id: PlayerId, p: PlayerView) -> GameStateView {
    GameStateView { players: s.players.insert(id, p), ..s }
}

pub open spec fn spice_of(data: &Data, f: Faction) -> u8 {
    data.factions@[f].starting_values.spice
}

/// The deck that `t` names.
pub open spec fn deck_cards_len(d: DecksView, t: DeckType) -> nat {
    match t {
        DeckType::Traitor => d.traitor.cards.len(),
        DeckType::Treachery => d.treachery.cards.len(),
        DeckType::Storm => d.storm.cards.len(),
        DeckType::Spice => d.spice.cards.len(),
    }
}

/// The spawned object is recorded where it belongs.
pub open spec fn apply_spawn(s: GameStateView, st: SpawnType) -> GameStateView {
    match st {
        SpawnType::Leader { player_id, leader } => {
            let p = s.players[player_id];
            let kept = if p.living_leaders.dom().contains(leader.id) {
                p.living_leaders[leader.id].0
            } else {
                leader.inner
            };
            with_player(
                s,
                player_id,
                PlayerView { living_leaders: p.living_leaders.insert(leader.id, (kept, false)), ..p },
            )
        },
        SpawnType::Troop { player_id, unit } => {
            let p = s.players[player_id];
            with_player(s, player_id, PlayerView { offworld_forces: add_object(p.offworld_forces, unit), ..p })
        },
        SpawnType::TraitorCard(c) => GameStateView {
            decks: DecksView { traitor: DeckView { cards: s.decks.traitor.cards.push(c), ..s.decks.traitor }, ..s.decks },
            ..s
        },
        SpawnType::TreacheryCard(c) => GameStateView {
            decks: DecksView {
                treachery: DeckView { cards: s.decks.treachery.cards.push(c), ..s.decks.treachery },
                ..s.decks
            },
            ..s
        },
        SpawnType::SpiceCard(c) => GameStateView {
            decks: DecksView { spice: DeckView { cards: s.decks.spice.cards.push(c), ..s.decks.spice }, ..s.decks },
            ..s
        },
        SpawnType::StormCard(c) => GameStateView {
            decks: DecksView { storm: DeckView { cards: s.decks.storm.cards.push(c), ..s.decks.storm }, ..s.decks },
            ..s
        },
        SpawnType::Worm { location, id } => GameStateView {
            board: s.board.insert(location, LocationView { worm: Some(id), ..s.board[location] }),
            ..s
        },
    }
}


/// The decks with deck `t` rearranged into the order `order` names.
pub open spec fn deck_ordered(d: DecksView, order: Seq<ObjectId>, t: DeckType) -> DecksView {
    match t {
        DeckType::Traitor => DecksView {
            traitor: DeckView { cards: ordered_cards(d.traitor.cards, order), ..d.traitor },
            ..d
        },
        DeckType::Treachery => DecksView {
            treachery: DeckView { cards: ordered_cards(d.treachery.cards, order), ..d.treachery },
            ..d
        },
        DeckType::Storm => DecksView { storm: DeckView { cards: ordered_cards(d.storm.cards, order), ..d.storm }, ..d },
        DeckType::Spice => DecksView { spice: DeckView { cards: ordered_cards(d.spice.cards, order), ..d.spice }, ..d },
    }
}

/// `order` names every card of the deck `t` once.
pub open spec fn orders_deck(d: DecksView, order: Seq<ObjectId>, t: DeckType) -> bool {
    match t {
        DeckType::Traitor => is_order_of(d.traitor.cards, order),
        DeckType::Treachery => is_order_of(d.treachery.cards, order),
        DeckType::Storm => is_order_of(d.storm.cards, order),
        DeckType::Spice => is_order_of(d.spice.cards, order),
    }
}

/// The auction of the treachery cards begins: one card per player, fewer when the
/// deck runs out, taken from the top of the deck.
pub open spec fn bids_opened(s: GameStateView) -> GameStateView {
    let cards = s.decks.treachery.cards;
    let n = cards.len();
    let k: nat = if s.players.len() < n { s.players.len() } else { n };
    GameStateView {
        bidding_cards: s.bidding_cards + Seq::new(
            k,
            |j: int| BidStateView { card: cards[n - 1 - j], current_bid: None, passed: Set::empty() },
        ),
        decks: DecksView {
            treachery: DeckView { cards: cards.take(n - k), ..s.decks.treachery },
            ..s.decks
        },
        ..s
    }
}

/// Whether the state has what consuming `e` needs: a player, a card or a
/// territory that the event names, or room in a `u8` for the spice it adds.
pub open spec fn consumable(s: GameStateView, data: &Data, e: GameEventView) -> bool {
    match e {
        GameEventView::SpawnObject { spawn_type } => match spawn_type {
            SpawnType::Leader { player_id, .. } => s.players.dom().contains(player_id),
            SpawnType::Troop { player_id, .. } => s.players.dom().contains(player_id),
            SpawnType::Worm { location, .. } => s.board.dom().contains(location),
            _ => true,
        },
        GameEventView::SetDeckOrder { deck_order, deck_type } => orders_deck(s.decks, deck_order, deck_type),
        GameEventView::ChooseFaction { faction, .. } => data.factions@.dom().contains(faction),
        GameEventView::MakeFactionPrediction { .. } => s.factions.dom().contains(Faction::BeneGesserit),
        GameEventView::MakeTurnPrediction { .. } => s.factions.dom().contains(Faction::BeneGesserit),
        GameEventView::Pass => match s.active_player {
            Some(p) => s.play_order.contains(p),
            None => true,
        },
        GameEventView::StartRound => s.play_order.len() > 0,
        GameEventView::CollectSpice { player_id, spice, from } => {
            &&& s.players.dom().contains(player_id)
            &&& s.players[player_id].spice + spice <= u8::MAX
            &&& from matches Some(ls) ==> sector_spice(s.board, ls) >= spice
        },
        GameEventView::Bribe { player_id, other_player_id, spice } => {
            &&& s.players.dom().contains(player_id)
            &&& s.players.dom().contains(other_player_id)
            &&& s.players[player_id].spice >= spice
            &&& if player_id == other_player_id {
                s.players[player_id].spice <= u8::MAX
            } else {
                s.players[other_player_id].spice + spice <= u8::MAX
            }
        },
        GameEventView::ShipForces { player_id, forces, .. } => {
            &&& s.active_player is Some
            &&& s.players.dom().contains(player_id)
            &&& forces.subset_of(s.players[player_id].offworld_forces.dom())
        },
        GameEventView::MoveForces { path, forces, .. } => {
            &&& path.len() > 0
            &&& s.active_player is Some
            &&& s.board.dom().contains(path[0].location)
            &&& s.board[path[0].location].sectors.dom().contains(path[0].sector)
            &&& s.board[path[0].location].sectors[path[0].sector].forces.dom().contains(s.active_player->0)
            &&& forces.subset_of(
                s.board[path[0].location].sectors[path[0].sector].forces[s.active_player->0].dom(),
            )
        },
        GameEventView::RevealStorm => s.decks.storm.cards.len() > 0,
        GameEventView::MoveStorm { sectors } => s.storm_sector + sectors <= u8::MAX,
        GameEventView::RevealSpiceBlow => s.decks.spice.cards.len() > 0,
        GameEventView::PlaceSpice { location, spice } => location.sector != s.storm_sector ==> sector_spice(
            s.board,
            location,
        ) + spice <= u8::MAX,
        GameEventView::RideTheWorm { location } => {
            &&& s.board.dom().contains(location)
            &&& forall|sector: u8, p: PlayerId|
                #![trigger s.board[location].sectors[sector].forces.dom().contains(p)]
                s.board[location].sectors.dom().contains(sector) && s.board[location].sectors[sector].forces.dom().contains(p)
                    ==> s.players.dom().contains(p)
        },
        GameEventView::WinBid { player_id, .. } => s.bidding_cards.len() > 0 && s.players.dom().contains(player_id),
        GameEventView::Revive { leader, .. } => {
            &&& s.active_player is Some
            &&& s.players.dom().contains(s.active_player->0)
            &&& leader matches Some(l) ==> s.players[s.active_player->0].tanks.leaders.dom().contains(l)
        },
        GameEventView::SetBattlePlan { .. } => false,
        GameEventView::DealCard { player_id, from } => s.players.dom().contains(player_id) && (from == DeckType::Traitor
            || from == DeckType::Treachery),
        GameEventView::DiscardCard { player_id, to, .. } => s.players.dom().contains(player_id) && (to == DeckType::Traitor
            || to == DeckType::Treachery),
        _ => true,
    }
}


/// The state after `e`, history aside. A worm riding is described apart, by
/// `worm_ridden`.
pub open spec fn apply(s: GameStateView, data: &Data, e: GameEventView) -> GameStateView {
    match e {
        GameEventView::EndGame { .. } => GameStateView { phase: Phase::EndGame, ..s },
        GameEventView::PlayerJoined { .. } => s,
        GameEventView::PlayerDisconnected { player_id } => GameStateView { players: s.players.remove(player_id), ..s },
        GameEventView::SetActive { player_id } => GameStateView { active_player: Some(player_id), ..s },
        GameEventView::Pass => GameStateView { active_player: after_pass(s.play_order, s.active_player), ..s },
        GameEventView::StartRound => GameStateView { active_player: Some(s.play_order[0]), ..s },
        GameEventView::AdvancePhase => GameStateView { phase: next_phase(s.phase), active_player: None, ..s },
        GameEventView::SpawnObject { spawn_type } => apply_spawn(s, spawn_type),
        GameEventView::ShowPrompt { player_id, prompt } => GameStateView {
            prompts: s.prompts.insert(player_id, prompt),
            ..s
        },
        GameEventView::SetPlayOrder { play_order } => GameStateView { play_order: play_order, ..s },
        GameEventView::SetDeckOrder { deck_order, deck_type } => GameStateView {
            decks: deck_ordered(s.decks, deck_order, deck_type),
            ..s
        },
        GameEventView::ChooseFaction { player_id, faction } => GameStateView {
            players: s.players.insert(player_id, new_player_view(faction, spice_of(data, faction))),
            factions: s.factions.insert(faction, player_id),
            prompts: s.prompts.remove(player_id),
            ..s
        },
        GameEventView::ChooseTraitor { player_id, .. } => GameStateView { prompts: s.prompts.remove(player_id), ..s },
        GameEventView::MakeFactionPrediction { faction } => GameStateView {
            prompts: s.prompts.remove(s.factions[Faction::BeneGesserit]),
            bg_predictions: BeneGesseritPredictions { faction: Some(faction), ..s.bg_predictions },
            ..s
        },
        GameEventView::MakeTurnPrediction { turn } => GameStateView {
            prompts: s.prompts.remove(s.factions[Faction::BeneGesserit]),
            bg_predictions: BeneGesseritPredictions { turn: Some(turn), ..s.bg_predictions },
            ..s
        },
        GameEventView::CollectSpice { player_id, spice, from } => {
            let board = match from {
                Some(ls) => with_sector_spice(s.board, ls, (sector_spice(s.board, ls) - spice) as u8),
                None => s.board,
            };
            let p = s.players[player_id];
            GameStateView {
                board,
                players: s.players.insert(player_id, PlayerView { spice: (p.spice + spice) as u8, ..p }),
                ..s
            }
        },
        GameEventView::Bribe { player_id, other_player_id, spice } => {
            let p = s.players[player_id];
            let players = s.players.insert(player_id, PlayerView { spice: (p.spice - spice) as u8, ..p });
            let q = players[other_player_id];
            GameStateView {
                players: players.insert(other_player_id, PlayerView { spice: (q.spice + spice) as u8, ..q }),
                ..s
            }
        },
        GameEventView::ShipForces { player_id, to, forces } => {
            let p = s.players[player_id];
            let moved = p.offworld_forces.restrict(forces);
            GameStateView {
                board: with_added_forces(s.board, to, s.active_player->0, moved),
                players: s.players.insert(
                    player_id,
                    PlayerView { offworld_forces: p.offworld_forces.remove_keys(forces), shipped: true, ..p },
                ),
                ..s
            }
        },
        GameEventView::MoveForces { path, forces, .. } => {
            let from = path[0];
            let to = path.last();
            let a = s.active_player->0;
            let there = forces_in(s.board, from, a);
            let board = with_forces(s.board, from, a, there.remove_keys(forces));
            GameStateView { board: with_added_forces(board, to, a, there.restrict(forces)), ..s }
        },
        GameEventView::RevealStorm => GameStateView {
            storm_card: Some(s.decks.storm.cards.last()),
            decks: DecksView {
                storm: DeckView { cards: s.decks.storm.cards.drop_last(), ..s.decks.storm },
                ..s.decks
            },
            ..s
        },
        GameEventView::MoveStorm { sectors } => GameStateView {
            storm_sector: ((s.storm_sector + sectors) % 18) as u8,
            storm_card: None,
            decks: match s.storm_card {
                Some(c) => DecksView {
                    storm: DeckView { cards: s.decks.storm.cards.push(c), ..s.decks.storm },
                    ..s.decks
                },
                None => s.decks,
            },
            ..s
        },
        GameEventView::RevealSpiceBlow => {
            let deck = s.decks.spice;
            let card = deck.cards.last();
            let nexus = if card.inner == SpiceCard::ShaiHalud && s.game_turn > 0 && s.nexus is None {
                if deck.discard.len() > 0 {
                    Some(deck.discard.last())
                } else {
                    None
                }
            } else {
                s.nexus
            };
            let discard = match s.spice_card {
                Some(old) => deck.discard.push(old),
                None => deck.discard,
            };
            GameStateView {
                nexus,
                spice_card: Some(card),
                decks: DecksView { spice: DeckView { cards: deck.cards.drop_last(), discard }, ..s.decks },
                ..s
            }
        },
        GameEventView::PlaceSpice { location, spice } => GameStateView {
            spice_card: None,
            decks: match s.spice_card {
                Some(c) => DecksView {
                    spice: DeckView { discard: s.decks.spice.discard.push(c), ..s.decks.spice },
                    ..s.decks
                },
                None => s.decks,
            },
            board: if s.storm_sector != location.sector {
                with_sector_spice(s.board, location, (sector_spice(s.board, location) + spice) as u8)
            } else {
                s.board
            },
            ..s
        },
        GameEventView::RideTheWorm { .. } => s,
        GameEventView::StartBidding => bids_opened(s),
        GameEventView::MakeBid { player_id, spice } => if s.bidding_cards.len() > 0 {
            let last = s.bidding_cards.last();
            let changed = match spice {
                Some(v) => BidStateView {
                    current_bid: Some(Bid { player_id, spice: v }),
                    passed: last.passed.remove(player_id),
                    ..last
                },
                None => BidStateView { passed: last.passed.insert(player_id), ..last },
            };
            GameStateView { bidding_cards: s.bidding_cards.update(s.bidding_cards.len() - 1, changed), ..s }
        } else {
            s
        },
        GameEventView::WinBid { player_id, .. } => {
            let won = s.bidding_cards.last().card;
            let p = s.players[player_id];
            GameStateView {
                bidding_cards: s.bidding_cards.drop_last(),
                players: s.players.insert(
                    player_id,
                    PlayerView { treachery_cards: add_object(p.treachery_cards, won), ..p },
                ),
                ..s
            }
        },
        GameEventView::Revive { forces, leader, .. } => {
            let a = s.active_player->0;
            let p = s.players[a];
            let (living, tank_leaders) = match leader {
                Some(l) => {
                    let kept = if p.living_leaders.dom().contains(l) {
                        p.living_leaders[l].0
                    } else {
                        p.tanks.leaders[l]
                    };
                    (p.living_leaders.insert(l, (kept, true)), p.tanks.leaders.remove(l))
                },
                None => (p.living_leaders, p.tanks.leaders),
            };
            let revived = p.tanks.forces.restrict(forces);
            with_player(
                s,
                a,
                PlayerView {
                    living_leaders: living,
                    offworld_forces: revived.union_prefer_right(p.offworld_forces),
                    tanks: TanksView { leaders: tank_leaders, forces: p.tanks.forces.remove_keys(forces) },
                    ..p
                },
            )
        },
        GameEventView::SetBattlePlan { .. } => s,
        GameEventView::DealCard { player_id, from } => {
            let p = s.players[player_id];
            match from {
                DeckType::Traitor => if s.decks.traitor.cards.len() > 0 {
                    let c = s.decks.traitor.cards.last();
                    GameStateView {
                        decks: DecksView {
                            traitor: DeckView { cards: s.decks.traitor.cards.drop_last(), ..s.decks.traitor },
                            ..s.decks
                        },
                        players: s.players.insert(
                            player_id,
                            PlayerView { traitor_cards: add_object(p.traitor_cards, c), ..p },
                        ),
                        ..s
                    }
                } else {
                    s
                },
                _ => if s.decks.treachery.cards.len() > 0 {
                    let c = s.decks.treachery.cards.last();
                    GameStateView {
                        decks: DecksView {
                            treachery: DeckView { cards: s.decks.treachery.cards.drop_last(), ..s.decks.treachery },
                            ..s.decks
                        },
                        players: s.players.insert(
                            player_id,
                            PlayerView { treachery_cards: add_object(p.treachery_cards, c), ..p },
                        ),
                        ..s
                    }
                } else {
                    s
                },
            }
        },
        GameEventView::DiscardCard { player_id, card_id, to } => {
            let p = s.players[player_id];
            match to {
                DeckType::Traitor => if p.traitor_cards.dom().contains(card_id) {
                    GameStateView {
                        decks: DecksView {
                            traitor: DeckView {
                                discard: s.decks.traitor.discard.push(
                                    Object { id: card_id, inner: p.traitor_cards[card_id] },
                                ),
                                ..s.decks.traitor
                            },
                            ..s.decks
                        },
                        players: s.players.insert(
                            player_id,
                            PlayerView { traitor_cards: p.traitor_cards.remove(card_id), ..p },
                        ),
                        ..s
                    }
                } else {
                    s
                },
                _ => if p.treachery_cards.dom().contains(card_id) {
                    GameStateView {
                        decks: DecksView {
                            treachery: DeckView {
                                discard: s.decks.treachery.discard.push(
                                    Object { id: card_id, inner: p.treachery_cards[card_id] },
                                ),
                                ..s.decks.treachery
                            },
                            ..s.decks
                        },
                        players: s.players.insert(
                            player_id,
                            PlayerView { treachery_cards: p.treachery_cards.remove(card_id), ..p },
                        ),
                        ..s
                    }
                } else {
                    s
                },
            }
        },
    }
}

/// The forces of player `p` found anywhere in the sectors `sectors`.
pub open spec fn forces_of_in(sectors: Map<u8, SectorView>, p: PlayerId) -> Set<ObjectId> {
    Set::new(
        |id: ObjectId|
            exists|sector: u8|
                #![trigger sectors[sector].forces[p].dom().contains(id)]
                sectors.dom().contains(sector) && sectors[sector].forces.dom().contains(p)
                    && sectors[sector].forces[p].dom().contains(id),
    )
}

/// The worm swallows everything in territory `l`: its sectors are emptied and
/// every force that stood there goes to its owner's tanks. Forces already in
/// the tanks stay as they are; a force found in two sectors is taken from one.
pub open spec fn worm_ridden(s: GameStateView, l: Location, t: GameStateView) -> bool {
    let sectors = s.board[l].sectors;
    &&& t == GameStateView {
        board: s.board.insert(l, LocationView { sectors: Map::empty(), worm: s.board[l].worm }),
        players: t.players,
        history: t.history,
        ..s
    }
    &&& t.players.dom() == s.players.dom()
    &&& forall|p: PlayerId| #[trigger] s.players.dom().contains(p) ==> {
        let before = s.players[p];
        let after = t.players[p];
        &&& after == PlayerView { tanks: TanksView { forces: after.tanks.forces, ..before.tanks }, ..before }
        &&& after.tanks.forces.dom() == before.tanks.forces.dom() + forces_of_in(sectors, p)
        &&& forall|id: ObjectId| #[trigger] after.tanks.forces.dom().contains(id) ==> if before.tanks.forces.dom().contains(id) {
            after.tanks.forces[id] == before.tanks.forces[id]
        } else {
            exists|sector: u8|
                #![trigger sectors[sector].forces[p][id]]
                sectors.dom().contains(sector) && sectors[sector].forces.dom().contains(p)
                    && sectors[sector].forces[p].dom().contains(id) && sectors[sector].forces[p][id]
                    == after.tanks.forces[id]
        }
    }
}

/// `t` is the state after `s` consumes `e`.
pub open spec fn consumed(s: GameStateView, data: &Data, e: GameEventView, t: GameStateView) -> bool {
    &&& t.history == record(s.history, e)
    &&& match e {
        GameEventView::RideTheWorm { location } => worm_ridden(s, location, t),
        _ => t == GameStateView { history: t.history, ..apply(s, data, e) },
    }
}


/// Whether a client may send `e` now. Events that only the server creates are
/// never valid from a client.
pub open spec fn valid(s: GameStateView, data: &Data, e: GameEventView) -> bool {
    match e {
        GameEventView::Pass => s.play_order.len() == s.players.len(),
        GameEventView::ChooseFaction { player_id, .. } => s.phase == Phase::Setup(SetupPhase::ChooseFactions)
            && s.active_player == Some(player_id),
        GameEventView::ChooseTraitor { player_id, card_id } => {
            &&& s.phase == Phase::Setup(SetupPhase::DealTraitors)
            &&& s.players.dom().contains(player_id)
            &&& s.players[player_id].traitor_cards.dom().contains(card_id)
            &&& s.players[player_id].faction != Faction::Harkonnen
        },
        GameEventView::MakeFactionPrediction { faction } => {
            &&& s.phase == Phase::Setup(SetupPhase::Prediction)
            &&& s.factions.dom().contains(Faction::BeneGesserit)
            &&& exists|p: PlayerId| #[trigger] s.players.dom().contains(p) && s.players[p].faction == faction
        },
        GameEventView::MakeTurnPrediction { turn } => {
            &&& s.phase == Phase::Setup(SetupPhase::Prediction)
            &&& s.factions.dom().contains(Faction::BeneGesserit)
            &&& turn < 15
        },
        GameEventView::ShipForces { player_id, to, forces } => {
            &&& s.active_player == Some(player_id)
            &&& forces.subset_of(s.players[player_id].offworld_forces.dom())
            &&& s.phase == Phase::Setup(SetupPhase::PlaceForces)
            &&& match data.factions@[s.players[player_id].faction].starting_values.possible_locations {
                Some(locations) => locations@.contains(to.location),
                None => true,
            }
        },
        GameEventView::MakeBid { player_id, spice } => {
            &&& s.active_player == Some(player_id)
            &&& s.bidding_cards.len() > 0
            &&& s.bidding_cards.last().current_bid is Some
            &&& spice matches Some(v) ==> v > s.bidding_cards.last().current_bid->0.spice
        },
        GameEventView::WinBid { player_id, card_id } => {
            &&& s.bidding_cards.len() > 0
            &&& s.bidding_cards.last().passed.len() == s.players.len()
            &&& !s.bidding_cards.last().passed.contains(player_id)
            &&& s.bidding_cards.last().current_bid is Some
            &&& s.bidding_cards.last().card.id == card_id
            &&& s.bidding_cards.last().current_bid->0.player_id == player_id
        },
        _ => false,
    }
}

/// Whether the rules say anything of the validity of `e`: they do not for a
/// bribe, a movement, a revival or a battle plan, for a shipment by an active
/// player who has no faction yet, nor for one by a player whose faction is
/// missing from the rule tables.
pub open spec fn validatable(s: GameStateView, data: &Data, e: GameEventView) -> bool {
    match e {
        GameEventView::Bribe { .. } | GameEventView::MoveForces { .. } | GameEventView::Revive { .. }
        | GameEventView::SetBattlePlan { .. } => false,
        GameEventView::ShipForces { player_id, forces, .. } => s.active_player == Some(player_id) ==> {
            &&& s.players.dom().contains(player_id)
            &&& (forces.subset_of(s.players[player_id].offworld_forces.dom()) && s.phase == Phase::Setup(
                SetupPhase::PlaceForces,
            )) ==> data.factions@.dom().contains(s.players[player_id].faction)
        },
        _ => true,
    }
}

} // verus!
