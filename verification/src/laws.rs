use vstd::prelude::*;

use crate::data::{has_all_factions, Data};
use crate::components::LocationSector;
use crate::rules::{consumable, consumed, forces_in, location_or_empty, sector_or_empty, sector_spice, valid, validatable, with_sector};
use crate::server::{is_run, replays};
use crate::object::{Object, ObjectId};
use crate::state::{first_with_id, is_first_with_id, is_order_of, ordered_cards, GameEventView, GameStateView, PlayerId, SectorView, LocationView};

verus! {

/// The events a client may send; every other event is made by the server.
pub open spec fn from_client(e: GameEventView) -> bool {
    ||| e is Pass
    ||| e is ChooseFaction
    ||| e is ChooseTraitor
    ||| e is MakeFactionPrediction
    ||| e is MakeTurnPrediction
    ||| e is ShipForces
    ||| e is MakeBid
    ||| e is WinBid
}

/// No event that only the server makes is ever valid coming from a client.
pub proof fn law_only_client_events_are_valid(s: GameStateView, data: &Data, e: GameEventView)
    requires
        valid(s, data, e),
    ensures
        from_client(e),
{
}

/// An event that a client may send now can be applied to the state without
/// fault. Passing and winning a bid are left out: a pass is valid once every
/// player is in the play order, even when the active player is not; a bid can
/// be won by a player id that has no seat. A faction can be chosen only when
/// the rule tables know every faction.
pub proof fn law_valid_events_apply(s: GameStateView, data: &Data, e: GameEventView)
    requires
        validatable(s, data, e),
        valid(s, data, e),
        !(e is Pass),
        !(e is WinBid),
        e is ChooseFaction ==> has_all_factions(data),
    ensures
        consumable(s, data, e),
{
}

/// The history never grows past the last ten events.
pub proof fn law_history_stays_short(s: GameStateView, data: &Data, e: GameEventView, t: GameStateView)
    requires
        s.history.len() <= 10,
        consumed(s, data, e, t),
    ensures
        t.history.len() <= 10,
{
}

/// Joining and leaving leave the history as it was; every other event becomes
/// its last entry.
pub proof fn law_history_records_last_event(s: GameStateView, data: &Data, e: GameEventView, t: GameStateView)
    requires
        consumed(s, data, e, t),
    ensures
        (e is PlayerJoined || e is PlayerDisconnected) ==> t.history == s.history,
        !(e is PlayerJoined || e is PlayerDisconnected) ==> t.history.len() > 0 && t.history.last() == e,
{
}

/// The storm never leaves the eighteen sectors of the board.
pub proof fn law_storm_stays_on_board(s: GameStateView, data: &Data, e: GameEventView, t: GameStateView)
    requires
        s.storm_sector < 18,
        consumed(s, data, e, t),
    ensures
        t.storm_sector < 18,
{
}

/// Apart from a worm riding, whose victims may reach the tanks in more than
/// one way, an event leads from a state to exactly one next state.
pub proof fn law_events_are_deterministic(
    s: GameStateView,
    data: &Data,
    e: GameEventView,
    t1: GameStateView,
    t2: GameStateView,
)
    requires
        !(e is RideTheWorm),
        consumed(s, data, e, t1),
        consumed(s, data, e, t2),
    ensures
        t1 == t2,
{
}

/// A bribe moves spice from one player to another and makes or loses none.
pub proof fn law_bribe_moves_spice(
    s: GameStateView,
    data: &Data,
    from: PlayerId,
    to: PlayerId,
    spice: u8,
    t: GameStateView,
)
    requires
        from != to,
        consumable(s, data, GameEventView::Bribe { player_id: from, other_player_id: to, spice }),
        consumed(s, data, GameEventView::Bribe { player_id: from, other_player_id: to, spice }, t),
    ensures
        t.players[from].spice == s.players[from].spice - spice,
        t.players[to].spice == s.players[to].spice + spice,
        t.players[from].spice + t.players[to].spice == s.players[from].spice + s.players[to].spice,
        t.players.dom() == s.players.dom(),
        forall|p: PlayerId| p != from && p != to && #[trigger] s.players.dom().contains(p) ==> t.players[p]
            == s.players[p],
{
}

/// Spice collected from the board is what the collecting player gains, and
/// the sector holds that much less.
pub proof fn law_collected_spice_leaves_the_board(
    s: GameStateView,
    data: &Data,
    player: PlayerId,
    spice: u8,
    from: crate::components::LocationSector,
    t: GameStateView,
)
    requires
        consumable(s, data, GameEventView::CollectSpice { player_id: player, spice, from: Some(from) }),
        consumed(s, data, GameEventView::CollectSpice { player_id: player, spice, from: Some(from) }, t),
    ensures
        t.players[player].spice == s.players[player].spice + spice,
        sector_spice(t.board, from) == sector_spice(s.board, from) - spice,
        t.players[player].spice + sector_spice(t.board, from) == s.players[player].spice + sector_spice(
            s.board,
            from,
        ),
{
}

/// No two cards share an id.
pub open spec fn ids_distinct<C>(cards: Seq<Object<C>>) -> bool {
    forall|i: int, j: int| 0 <= i < j < cards.len() ==> cards[i].id != cards[j].id
}

proof fn lemma_first_with_id_is_the_card<C>(cards: Seq<Object<C>>, j: int)
    requires
        ids_distinct(cards),
        0 <= j < cards.len(),
    ensures
        is_first_with_id(cards, cards[j].id, j),
        first_with_id(cards, cards[j].id) == cards[j],
{
    let id = cards[j].id;
    assert(is_first_with_id(cards, id, j));
    let c = choose|k: int| is_first_with_id(cards, id, k);
    assert(is_first_with_id(cards, id, c));
    if c < j {
        assert(cards[c].id != cards[j].id);
    } else if c > j {
        assert(cards[j].id != cards[c].id);
    }
}

/// Putting a deck whose cards have distinct ids in a new order keeps every
/// card of it and adds none: the result holds the same cards, each once.
/// The one condition, distinct ids, is what the decks of a game meet: their
/// cards are spawned with fresh ids.
pub proof fn law_reordering_keeps_cards<C>(cards: Seq<Object<C>>, order: Seq<ObjectId>)
    requires
        is_order_of(cards, order),
        ids_distinct(cards),
    ensures
        ordered_cards(cards, order).len() == cards.len(),
        ids_distinct(ordered_cards(cards, order)),
        forall|i: int| 0 <= i < cards.len() ==> cards.contains(#[trigger] ordered_cards(cards, order)[i]),
        forall|j: int| 0 <= j < cards.len() ==> ordered_cards(cards, order).contains(#[trigger] cards[j]),
{
    let r = ordered_cards(cards, order);
    let ids = cards.map_values(|c: Object<C>| c.id);
    assert forall|i: int| 0 <= i < order.len() implies #[trigger] r[i] == cards[choose|j: int|
        0 <= j < cards.len() && cards[j].id == order[i]] && r[i].id == order[i] && ids.to_set().contains(
        order[i],
    ) by {
        assert(crate::state::has_card(cards, order[i]));
        let j = choose|j: int| 0 <= j < cards.len() && cards[j].id == order[i];
        lemma_first_with_id_is_the_card(cards, j);
        assert(ids[j] == order[i]);
    }
    assert forall|i: int| 0 <= i < cards.len() implies cards.contains(#[trigger] r[i]) by {
        let j = choose|j: int| 0 <= j < cards.len() && cards[j].id == order[i];
        assert(cards[j] == r[i]);
    }
    assert(ids.no_duplicates()) by {
        assert forall|a: int, b: int| 0 <= a < ids.len() && 0 <= b < ids.len() && a != b implies ids[a]
            != ids[b] by {
            if a < b {
                assert(cards[a].id != cards[b].id);
            } else {
                assert(cards[b].id != cards[a].id);
            }
        }
    }
    ids.unique_seq_to_set();
    order.unique_seq_to_set();
    vstd::seq_lib::seq_to_set_is_finite(ids);
    vstd::seq_lib::seq_to_set_is_finite(order);
    assert forall|x: ObjectId| order.to_set().contains(x) implies ids.to_set().contains(x) by {
        assert(order.contains(x));
        let i = choose|i: int| 0 <= i < order.len() && order[i] == x;
        assert(r[i].id == order[i]);
    }
    vstd::set_lib::lemma_subset_equality(order.to_set(), ids.to_set());
    assert forall|j: int| 0 <= j < cards.len() implies r.contains(#[trigger] cards[j]) by {
        assert(ids.to_set().contains(ids[j]));
        assert(order.to_set().contains(cards[j].id));
        let i = choose|i: int| 0 <= i < order.len() && order[i] == cards[j].id;
        lemma_first_with_id_is_the_card(cards, j);
        assert(r[i] == cards[j]);
    }
    assert forall|a: int, b: int| 0 <= a < b < r.len() implies r[a].id != r[b].id by {
        assert(r[a].id == order[a]);
        assert(r[b].id == order[b]);
    }
}

proof fn lemma_runs_agree(
    s: GameStateView,
    data: &Data,
    events: Seq<GameEventView>,
    t1: GameStateView,
    t2: GameStateView,
    run1: Seq<GameStateView>,
    run2: Seq<GameStateView>,
    i: int,
)
    requires
        is_run(s, data, events, t1, run1),
        is_run(s, data, events, t2, run2),
        forall|k: int| 0 <= k < events.len() ==> !(#[trigger] events[k] is RideTheWorm),
        0 <= i <= events.len(),
    ensures
        run1[i] == run2[i],
    decreases i,
{
    if i > 0 {
        lemma_runs_agree(s, data, events, t1, t2, run1, run2, i - 1);
        let j = i - 1;
        assert(consumed(run1[j], data, events[j], run1[j + 1]));
        assert(consumed(run2[j], data, events[j], run2[j + 1]));
        assert(!(events[j] is RideTheWorm));
        law_events_are_deterministic(run1[j], data, events[j], run1[j + 1], run2[j + 1]);
    }
}

/// Two machines that start from the same state and apply the same events
/// reach the same state: this is what keeps every client in step with the
/// server. A worm riding is left out, as its effect is described loosely.
pub proof fn law_replays_agree(
    s: GameStateView,
    data: &Data,
    events: Seq<GameEventView>,
    t1: GameStateView,
    t2: GameStateView,
)
    requires
        replays(s, data, events, t1),
        replays(s, data, events, t2),
        forall|k: int| 0 <= k < events.len() ==> !(#[trigger] events[k] is RideTheWorm),
    ensures
        t1 == t2,
{
    let run1 = choose|run: Seq<GameStateView>| #[trigger] is_run(s, data, events, t1, run);
    let run2 = choose|run: Seq<GameStateView>| #[trigger] is_run(s, data, events, t2, run);
    lemma_runs_agree(s, data, events, t1, t2, run1, run2, events.len() as int);
}


/// Replacing one sector of the board leaves every other sector as it was.
pub proof fn lemma_with_sector_reads(
    board: Map<crate::components::Location, LocationView>,
    ls: LocationSector,
    x: SectorView,
    other: LocationSector,
)
    ensures
        sector_or_empty(with_sector(board, ls, x), ls) == x,
        other != ls ==> sector_or_empty(with_sector(board, ls, x), other) == sector_or_empty(board, other),
{
    let b2 = with_sector(board, ls, x);
    assert(location_or_empty(b2, ls.location).sectors == location_or_empty(board, ls.location).sectors.insert(
        ls.sector,
        x,
    ));
    if other != ls {
        if other.location == ls.location {
            assert(other.sector != ls.sector);
        } else {
            assert(location_or_empty(b2, other.location) == location_or_empty(board, other.location));
        }
    }
}

/// Spice placed outside the storm joins the spice already lying in the sector,
/// and no other sector gains or loses any; spice placed in the storm is lost.
pub proof fn law_placed_spice_adds_up(
    s: GameStateView,
    data: &Data,
    location: LocationSector,
    spice: u8,
    other: LocationSector,
    t: GameStateView,
)
    requires
        consumable(s, data, GameEventView::PlaceSpice { location, spice }),
        consumed(s, data, GameEventView::PlaceSpice { location, spice }, t),
    ensures
        location.sector != s.storm_sector ==> sector_spice(t.board, location) == sector_spice(s.board, location)
            + spice,
        location.sector == s.storm_sector ==> t.board == s.board,
        other != location ==> sector_spice(t.board, other) == sector_spice(s.board, other),
        sector_or_empty(t.board, location).forces == sector_or_empty(s.board, location).forces,
{
    if location.sector != s.storm_sector {
        let sec = sector_or_empty(s.board, location);
        lemma_with_sector_reads(
            s.board,
            location,
            SectorView { forces: sec.forces, spice: (sec.spice + spice) as u8 },
            other,
        );
    }
}

/// A bid must be higher than the bid it answers: a bid of the same amount, or
/// less, is never valid, and a valid bid answers a bid already standing.
pub proof fn law_bids_must_raise(s: GameStateView, data: &Data, player: PlayerId, spice: u8)
    requires
        valid(s, data, GameEventView::MakeBid { player_id: player, spice: Some(spice) }),
    ensures
        s.bidding_cards.len() > 0,
        s.bidding_cards.last().current_bid is Some,
        spice > s.bidding_cards.last().current_bid->0.spice,
        !valid(
            s,
            data,
            GameEventView::MakeBid { player_id: player, spice: Some(s.bidding_cards.last().current_bid->0.spice) },
        ),
{
}

/// Moving forces keeps every one of them: the mover's forces that leave the
/// first sector of the path join those already in its last sector, each force
/// keeping what it is, and every other sector stays as it was.
pub proof fn law_moving_keeps_forces(
    s: GameStateView,
    data: &Data,
    player: PlayerId,
    path: Seq<LocationSector>,
    forces: Set<crate::object::ObjectId>,
    other: LocationSector,
    t: GameStateView,
)
    requires
        consumable(s, data, GameEventView::MoveForces { player_id: player, path, forces }),
        consumed(s, data, GameEventView::MoveForces { player_id: player, path, forces }, t),
    ensures
        ({
            let a = s.active_player->0;
            let from = path[0];
            let to = path.last();
            let before_from = forces_in(s.board, from, a);
            let before_to = forces_in(s.board, to, a);
            let after_from = forces_in(t.board, from, a);
            let after_to = forces_in(t.board, to, a);
            &&& from == to ==> after_to == before_to
            &&& from != to ==> {
                &&& after_from.dom() == before_from.dom().difference(forces)
                &&& after_to.dom() == before_to.dom().union(forces)
                &&& forall|id: crate::object::ObjectId| #[trigger] after_from.dom().contains(id) ==> after_from[id]
                    == before_from[id]
                &&& forall|id: crate::object::ObjectId| #[trigger] after_to.dom().contains(id) ==> after_to[id]
                    == (if before_to.dom().contains(id) { before_to[id] } else { before_from[id] })
            }
            &&& other != from && other != to ==> sector_or_empty(t.board, other) == sector_or_empty(s.board, other)
        }),
{
    let a = s.active_player->0;
    let from = path[0];
    let to = path.last();
    let there = forces_in(s.board, from, a);
    let sf = sector_or_empty(s.board, from);
    let x1 = SectorView { forces: sf.forces.insert(a, there.remove_keys(forces)), spice: sf.spice };
    let b1 = with_sector(s.board, from, x1);
    lemma_with_sector_reads(s.board, from, x1, to);
    lemma_with_sector_reads(s.board, from, x1, other);
    let moved = there.restrict(forces);
    let st = sector_or_empty(b1, to);
    let merged = moved.union_prefer_right(forces_in(b1, to, a));
    let x2 = SectorView { forces: st.forces.insert(a, merged), spice: st.spice };
    assert(t.board == with_sector(b1, to, x2));
    lemma_with_sector_reads(b1, to, x2, from);
    lemma_with_sector_reads(b1, to, x2, other);
    assert(forces_in(t.board, to, a) == merged);
    assert(forces_in(b1, from, a) == there.remove_keys(forces));
    if from == to {
        assert(merged =~= there);
    } else {
        assert(forces_in(t.board, from, a) == there.remove_keys(forces));
        assert(forces_in(b1, to, a) == forces_in(s.board, to, a));
        assert(forces.subset_of(there.dom()));
        assert(merged.dom() =~= forces_in(s.board, to, a).dom().union(forces));
        assert(there.remove_keys(forces).dom() =~= there.dom().difference(forces));
    }
}

/// Opening the bidding puts one treachery card up for auction per seated
/// player, fewer when the deck runs short: the cards come off the top of the
/// deck, the last card of the deck first, and the deck shrinks by as many.
pub proof fn law_bidding_opens_one_card_per_player(s: GameStateView, data: &Data, t: GameStateView)
    requires
        consumed(s, data, GameEventView::StartBidding, t),
    ensures
        ({
            let deck = s.decks.treachery.cards;
            let k: int = if s.players.len() <= deck.len() { s.players.len() as int } else { deck.len() as int };
            &&& t.bidding_cards.len() == s.bidding_cards.len() + k
            &&& t.decks.treachery.cards.len() == deck.len() - k
            &&& t.decks.treachery.cards == deck.subrange(0, deck.len() - k)
            &&& forall|i: int| 0 <= i < s.bidding_cards.len() ==> t.bidding_cards[i] == s.bidding_cards[i]
            &&& forall|j: int|
                0 <= j < k ==> (#[trigger] t.bidding_cards[s.bidding_cards.len() + j]).card == deck[deck.len() - 1
                    - j] && t.bidding_cards[s.bidding_cards.len() + j].current_bid is None
                    && t.bidding_cards[s.bidding_cards.len() + j].passed == Set::<PlayerId>::empty()
            &&& t.players == s.players
        }),
{
}

} // verus!
