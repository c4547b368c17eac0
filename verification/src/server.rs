use rand::seq::SliceRandom;
use rand::Rng;
use vstd::prelude::*;

use crate::collections::KeySet;
use crate::components::{all_leaders, Faction, Leader, SpiceCard, StormCard, TraitorCard, TreacheryCard, Troop};
use crate::data::Data;
use crate::laws::ids_distinct;
use crate::object::{can_issue, last_number, Object, ObjectId, ObjectIdGenerator};
use crate::phase::{next_phase, Phase, SetupPhase, StormPhase};
use crate::rules::{consumable, consumed, valid, validatable};
use crate::state::{
    copy_vec, has_card, is_order_of, DeckType, DecksView, EndGameReason, PlayerView, GameEvent, GameEventView, GameState, GameStateView, PlayerId, Prompt, PromptView,
    SpawnType,
};

verus! {

/// Puts the elements of `v` in a random order, with rand's `SliceRandom::shuffle`
/// driven by the thread's generator (`rand::thread_rng`). Claimed: the
/// elements are swapped about, so each stays as often as it was and the length
/// is kept; which order comes out is left open.
#[verifier::external_body]
fn shuffle<T>(v: &mut Vec<T>)
    ensures
        final(v)@.to_multiset() == old(v)@.to_multiset(),
        final(v)@.len() == old(v)@.len(),
{
    let mut rng = rand::thread_rng();
    v.shuffle(&mut rng);
}

/// A number drawn at random below `bound`, with rand's `Rng::gen_range` on the
/// thread's generator (`rand::thread_rng`). Claimed: the number lies in
/// `0..bound`, which must not be empty, as `gen_range` panics on an empty
/// range; which number comes out is left open.
#[verifier::external_body]
fn random_below(bound: u8) -> (r: u8)
    requires
        bound > 0,
    ensures
        r < bound,
{
    rand::thread_rng().gen_range(0..bound)
}

/// The messages that drive the lobby rather than the game.
#[derive(Copy, Clone, Debug, PartialEq, Eq, Structural)]
pub enum ServerEvent {
    LoadAssets,
    StartGame,
}

/// Why the server stopped running the game.
#[derive(Copy, Clone, Debug, PartialEq, Eq, Structural)]
pub enum ServerError {
    /// An event that the game state cannot take was about to be applied.
    Unconsumable,
    /// A client sent an event whose validity is not defined.
    Unvalidatable,
    /// The rule tables lack an entry the game needs, or hold one it cannot use.
    MissingData,
    /// A player the game refers to has no faction yet.
    MissingPlayer,
    /// The storm has no card to move by.
    MissingStormCard,
    /// No player is active where one must be.
    NoActivePlayer,
    /// Every object id has been handed out.
    OutOfIds,
    /// Events kept triggering further events past any sensible depth.
    TooDeep,
}

/// `states` runs from `s` to `t`, each state consuming the next of `events`.
pub open spec fn is_run(s: GameStateView, data: &Data, events: Seq<GameEventView>, t: GameStateView, states: Seq<GameStateView>) -> bool {
    &&& states.len() == events.len() + 1
    &&& states[0] == s
    &&& states.last() == t
    &&& forall|i: int| 0 <= i < events.len() ==> #[trigger] consumed(states[i], data, events[i], states[i + 1])
}

/// `t` is reached from `s` by consuming `events` in order.
pub open spec fn replays(s: GameStateView, data: &Data, events: Seq<GameEventView>, t: GameStateView) -> bool {
    exists|states: Seq<GameStateView>| #[trigger] is_run(s, data, events, t, states)
}

pub proof fn lemma_replays_none(s: GameStateView, data: &Data)
    ensures
        replays(s, data, Seq::empty(), s),
{
    assert(is_run(s, data, Seq::empty(), s, seq![s]));
}

pub proof fn lemma_replays_step(
    s: GameStateView,
    data: &Data,
    events: Seq<GameEventView>,
    mid: GameStateView,
    e: GameEventView,
    t: GameStateView,
)
    requires
        replays(s, data, events, mid),
        consumed(mid, data, e, t),
    ensures
        replays(s, data, events.push(e), t),
{
    let states = choose|states: Seq<GameStateView>| #[trigger] is_run(s, data, events, mid, states);
    let states2 = states.push(t);
    let events2 = events.push(e);
    assert forall|i: int| 0 <= i < events2.len() implies #[trigger] consumed(states2[i], data, events2[i], states2[i + 1]) by {
        if i < events.len() {
            assert(states2[i] == states[i] && states2[i + 1] == states[i + 1] && events2[i] == events[i]);
            assert(consumed(states[i], data, events[i], states[i + 1]));
        } else {
            assert(states2[i] == states.last());
        }
    }
    assert(is_run(s, data, events2, t, states2));
}

/// The views of a list of events.
pub open spec fn views(events: Seq<GameEvent>) -> Seq<GameEventView> {
    events.map_values(|e: GameEvent| e@)
}

/// The events the server applies without reacting to them.
pub open spec fn is_quiet(e: GameEventView) -> bool {
    !(e is AdvancePhase || e is StartRound || e is Pass || e is MakeFactionPrediction || e is MakeTurnPrediction
        || e is ChooseFaction || e is ChooseTraitor || e is ShipForces)
}

/// How many ids a generator can still hand out: the ids given back, and the
/// numbers above the last one handed out.
pub open spec fn ids_left(g: ObjectIdGenerator) -> int {
    g.free@.len() + (u64::MAX - last_number(g))
}

proof fn lemma_views_push(before: Seq<GameEvent>, after: Seq<GameEvent>, e: GameEventView)
    requires
        after.len() == before.len() + 1,
        forall|i: int| 0 <= i < before.len() ==> after[i] == before[i],
        after[before.len() as int]@ == e,
    ensures
        views(after) == views(before).push(e),
{
    assert(views(after) =~= views(before).push(e));
}

/// The ids of `cards`, in order.
pub open spec fn ids_of<C>(cards: Seq<Object<C>>) -> Seq<ObjectId> {
    cards.map_values(|c: Object<C>| c.id)
}

/// Every deck of `d` holds cards with distinct ids.
pub open spec fn decks_distinct(d: DecksView) -> bool {
    &&& ids_distinct(d.traitor.cards)
    &&& ids_distinct(d.treachery.cards)
    &&& ids_distinct(d.spice.cards)
    &&& ids_distinct(d.storm.cards)
}

/// `e` puts the deck `t`, which holds `cards`, in a new order: one that names
/// the ids of `cards`, each as often as the deck holds it.
pub open spec fn reorders<C>(e: GameEventView, cards: Seq<Object<C>>, t: DeckType) -> bool {
    e matches GameEventView::SetDeckOrder { deck_order, deck_type } && deck_type == t
        && deck_order.to_multiset() == ids_of(cards).to_multiset()
}

proof fn lemma_permuted_order<C>(cards: Seq<Object<C>>, order: Seq<ObjectId>)
    requires
        order.to_multiset() == ids_of(cards).to_multiset(),
    ensures
        is_order_of(cards, order) <==> ids_distinct(cards),
{
    let ids = ids_of(cards);
    order.to_multiset_ensures();
    ids.to_multiset_ensures();
    assert forall|x: ObjectId| order.contains(x) <==> ids.contains(x) by {
        assert(order.contains(x) <==> order.to_multiset().count(x) > 0);
        assert(ids.contains(x) <==> ids.to_multiset().count(x) > 0);
    }
    assert(ids.no_duplicates() <==> ids_distinct(cards)) by {
        if ids.no_duplicates() {
            assert forall|i: int, j: int| 0 <= i < j < cards.len() implies cards[i].id != cards[j].id by {
                assert(ids[i] == cards[i].id && ids[j] == cards[j].id);
            }
        }
        if ids_distinct(cards) {
            assert forall|i: int, j: int| 0 <= i < ids.len() && 0 <= j < ids.len() && i != j implies ids[i]
                != ids[j] by {
                if i < j {
                    assert(cards[i].id != cards[j].id);
                } else {
                    assert(cards[j].id != cards[i].id);
                }
            }
        }
    }
    if ids.no_duplicates() {
        ids.lemma_multiset_has_no_duplicates();
        assert forall|x: ObjectId| order.to_multiset().contains(x) implies order.to_multiset().count(x) == 1 by {
            assert(ids.to_multiset().contains(x));
        }
        order.lemma_multiset_has_no_duplicates_conv();
        assert forall|i: int| 0 <= i < order.len() implies has_card(cards, #[trigger] order[i]) by {
            assert(order.contains(order[i]));
            assert(ids.contains(order[i]));
            let j = choose|j: int| 0 <= j < ids.len() && ids[j] == order[i];
            assert(cards[j].id == order[i]);
        }
    }
    if order.no_duplicates() {
        order.lemma_multiset_has_no_duplicates();
        assert forall|x: ObjectId| ids.to_multiset().contains(x) implies ids.to_multiset().count(x) == 1 by {
            assert(order.to_multiset().contains(x));
        }
        ids.lemma_multiset_has_no_duplicates_conv();
    }
}

/// Every leader has an entry in the leader table.
pub open spec fn all_leaders_known(data: &Data) -> bool {
    forall|l: Leader| #[trigger] data.leaders@.dom().contains(l)
}

/// The leaders of `ls` whose faction, by the rule tables, is among `seated`, in order.
pub open spec fn leader_traitors(ls: Seq<Leader>, data: &Data, seated: Set<Faction>) -> Seq<Leader>
    decreases ls.len(),
{
    if ls.len() == 0 {
        Seq::empty()
    } else {
        leader_traitors(ls.drop_last(), data, seated) + if seated.contains(data.leaders@[ls.last()].faction) {
            seq![ls.last()]
        } else {
            Seq::<Leader>::empty()
        }
    }
}

/// The leaders that get a traitor card: those of the factions in the game.
pub open spec fn dealt_traitors(data: &Data, seated: Set<Faction>) -> Seq<Leader> {
    leader_traitors(crate::components::all_leaders(), data, seated)
}

/// How many cards the decks start with: the treachery deck, a traitor card for
/// each leader of a faction in the game, the spice cards and six storm cards.
pub open spec fn deck_card_count(data: &Data, seated: Set<Faction>) -> int {
    (data.treachery_deck@.len() + dealt_traitors(data, seated).len() + data.spice_cards@.len() + 6) as int
}

proof fn lemma_leader_traitors_prefix(ls: Seq<Leader>, data: &Data, seated: Set<Faction>, i: int, j: int)
    requires
        0 <= i <= j <= ls.len(),
    ensures
        leader_traitors(ls.take(i), data, seated).len() <= leader_traitors(ls.take(j), data, seated).len(),
    decreases j - i,
{
    if i < j {
        lemma_leader_traitors_prefix(ls, data, seated, i, j - 1);
        assert(ls.take(j).drop_last() =~= ls.take(j - 1));
    }
}

proof fn lemma_dealt_traitors_len(ls: Seq<Leader>, data: &Data, seated: Set<Faction>)
    ensures
        leader_traitors(ls, data, seated).len() <= ls.len(),
    decreases ls.len(),
{
    if ls.len() > 0 {
        lemma_dealt_traitors_len(ls.drop_last(), data, seated);
    }
}

/// `e` brings the treachery card `c` into play.
pub open spec fn spawns_treachery(e: GameEventView, c: TreacheryCard) -> bool {
    e matches GameEventView::SpawnObject { spawn_type: SpawnType::TreacheryCard(o) } && o.inner == c
}

/// `e` brings into play the traitor card of leader `l`.
pub open spec fn spawns_traitor(e: GameEventView, l: Leader) -> bool {
    e matches GameEventView::SpawnObject { spawn_type: SpawnType::TraitorCard(o) } && o.inner == (TraitorCard {
        leader: l,
    })
}

/// `e` brings the spice card `c` into play.
pub open spec fn spawns_spice(e: GameEventView, c: SpiceCard) -> bool {
    e matches GameEventView::SpawnObject { spawn_type: SpawnType::SpiceCard(o) } && o.inner == c
}

/// `e` brings into play the storm card with value `val`.
pub open spec fn spawns_storm(e: GameEventView, val: int) -> bool {
    e matches GameEventView::SpawnObject { spawn_type: SpawnType::StormCard(o) } && o.inner.val == val
}

/// `sent` brings the decks into play: the treachery deck in order, the traitor
/// cards of `traitors`, the spice cards `spice`, then the storm cards 1 to 6.
pub open spec fn deck_spawns(
    sent: Seq<GameEventView>,
    data: &Data,
    traitors: Seq<Leader>,
    spice: Seq<SpiceCard>,
) -> bool {
    let t = data.treachery_deck@.len() as int;
    let k = traitors.len() as int;
    let sp = spice.len() as int;
    &&& sent.len() == t + k + sp + 6
    &&& forall|i: int| 0 <= i < t ==> spawns_treachery(#[trigger] sent[i], data.treachery_deck@[i])
    &&& forall|i: int| 0 <= i < k ==> spawns_traitor(#[trigger] sent[t + i], traitors[i])
    &&& forall|i: int| 0 <= i < sp ==> spawns_spice(#[trigger] sent[t + k + i], spice[i])
    &&& forall|i: int| 0 <= i < 6 ==> spawns_storm(#[trigger] sent[t + k + sp + i], i + 1)
}

/// The id of the object that `e` brings into play, if it brings one.
pub open spec fn spawned_id(e: GameEventView) -> Option<ObjectId> {
    match e {
        GameEventView::SpawnObject { spawn_type } => match spawn_type {
            SpawnType::Leader { leader, .. } => Some(leader.id),
            SpawnType::Troop { unit, .. } => Some(unit.id),
            SpawnType::TraitorCard(c) => Some(c.id),
            SpawnType::TreacheryCard(c) => Some(c.id),
            SpawnType::SpiceCard(c) => Some(c.id),
            SpawnType::StormCard(c) => Some(c.id),
            SpawnType::Worm { id, .. } => Some(id),
        },
        _ => None,
    }
}

/// The events of `sent` from position `from` up to `to` bring objects into
/// play whose ids are the numbers after `base`, in order: each a new one.
pub open spec fn fresh_ids_from(sent: Seq<GameEventView>, from: int, to: int, base: u64) -> bool {
    forall|k: int| from <= k < to && k < sent.len() ==> #[trigger] spawned_id(sent[k]) == Some(ObjectId((base + (k - from) + 1) as u64))
}

/// The leaders that the rule tables give to faction `f`.
pub open spec fn leaders_of(data: &Data, f: Faction) -> Set<Leader> {
    data.leaders@.dom().filter(|l: Leader| data.leaders@[l].faction == f)
}

/// The rule tables give faction `f` a number of special forces, at most twenty.
pub open spec fn forces_known(data: &Data, f: Faction) -> bool {
    data.factions@.dom().contains(f) && data.factions@[f].special_forces <= 20
}

/// `e` brings leader `l` into play for `p`.
pub open spec fn spawns_leader(e: GameEventView, p: PlayerId, l: Leader) -> bool {
    e matches GameEventView::SpawnObject { spawn_type: SpawnType::Leader { player_id, leader } } && player_id == p
        && leader.inner == l
}

/// `e` brings a force of `p` into play, special or not as `special` says.
pub open spec fn spawns_troop(e: GameEventView, p: PlayerId, special: bool) -> bool {
    e matches GameEventView::SpawnObject { spawn_type: SpawnType::Troop { player_id, unit } } && player_id == p
        && unit.inner == (Troop { is_special: special })
}

/// `sent` brings the leaders `ls` into play for `p`, then twenty forces, the
/// last `special` of them special ones.
pub open spec fn faction_spawns(sent: Seq<GameEventView>, p: PlayerId, ls: Seq<Leader>, special: int) -> bool {
    &&& sent.len() == ls.len() + 20
    &&& forall|k: int| 0 <= k < ls.len() ==> spawns_leader(#[trigger] sent[k], p, ls[k])
    &&& forall|k: int| ls.len() <= k < ls.len() + 20 ==> spawns_troop(#[trigger] sent[k], p, k >= ls.len() + 20 - special)
}

/// `player` discards the traitor cards `ids`, in order.
pub open spec fn discards(ids: Seq<ObjectId>, player: PlayerId) -> Seq<GameEventView> {
    ids.map_values(|id: ObjectId| GameEventView::DiscardCard { player_id: player, card_id: id, to: DeckType::Traitor })
}

/// `ids` names each element of `set` once, and nothing else.
pub open spec fn names_each_once(ids: Seq<ObjectId>, set: Set<ObjectId>) -> bool {
    &&& ids.no_duplicates()
    &&& forall|x: ObjectId| ids.contains(x) <==> set.contains(x)
}

/// `k` copies of `events`, one after the other.
pub open spec fn repeated(events: Seq<GameEventView>, k: nat) -> Seq<GameEventView>
    decreases k,
{
    if k == 0 {
        Seq::empty()
    } else {
        repeated(events, (k - 1) as nat) + events
    }
}

/// The traitor cards dealt at the start: four rounds of one card to each
/// player of `order`.
pub open spec fn traitor_deals(order: Seq<PlayerId>) -> Seq<GameEventView> {
    repeated(deals_from(order, DeckType::Traitor), 4)
}

/// The prompts to keep a traitor, to each player of `order` in turn but the
/// Harkonnen, who keep them all.
pub open spec fn traitor_prompts(order: Seq<PlayerId>, players: Map<PlayerId, PlayerView>) -> Seq<GameEventView>
    decreases order.len(),
{
    if order.len() == 0 {
        Seq::empty()
    } else {
        traitor_prompts(order.drop_last(), players) + if players[order.last()].faction != Faction::Harkonnen {
            seq![GameEventView::ShowPrompt { player_id: order.last(), prompt: PromptView::Traitor }]
        } else {
            Seq::<GameEventView>::empty()
        }
    }
}

/// Everyone in the play order has a seat.
pub open spec fn play_order_seated(s: GameStateView) -> bool {
    forall|i: int| 0 <= i < s.play_order.len() ==> s.players.dom().contains(#[trigger] s.play_order[i])
}

/// A card from deck `from` dealt to each player of `order`, in turn.
pub open spec fn deals_from(order: Seq<PlayerId>, from: DeckType) -> Seq<GameEventView> {
    order.map_values(|p: PlayerId| GameEventView::DealCard { player_id: p, from })
}

/// The treachery cards dealt at the start: one to each player in play order,
/// then a second to the Harkonnen, when they are in the game.
pub open spec fn treachery_deals(s: GameStateView) -> Seq<GameEventView> {
    deals_from(s.play_order, DeckType::Treachery) + if s.factions.dom().contains(Faction::Harkonnen) {
        seq![GameEventView::DealCard { player_id: s.factions[Faction::Harkonnen], from: DeckType::Treachery }]
    } else {
        Seq::<GameEventView>::empty()
    }
}

/// Everyone in the play order, and the Harkonnen player if there is one, has a seat.
pub open spec fn treachery_receivers_seated(s: GameStateView) -> bool {
    &&& play_order_seated(s)
    &&& s.factions.dom().contains(Faction::Harkonnen) ==> s.players.dom().contains(s.factions[Faction::Harkonnen])
}

proof fn lemma_views_prefix(before: Seq<GameEventView>, after: Seq<GameEventView>)
    requires
        after.len() >= before.len(),
        forall|i: int| 0 <= i < before.len() ==> after[i] == before[i],
    ensures
        after.subrange(0, before.len() as int) == before,
{
    assert(after.subrange(0, before.len() as int) =~= before);
}

proof fn lemma_continues(
    d: nat,
    s: GameStateView,
    data: &Data,
    ids: int,
    ready: Set<PlayerId>,
    n: int,
    mid: Seq<GameEventView>,
    sq: GameStateView,
    x: GameEventView,
    sent: Seq<GameEventView>,
    err: Option<ServerError>,
)
    requires
        0 <= n <= mid.len(),
        replays(s, data, mid.skip(n), sq),
        sent.len() >= mid.len(),
        forall|k: int| 0 <= k < mid.len() ==> sent[k] == mid[k],
        then_reacts(d, sq, data, ids, ready, x, mid.len() as int, sent, err),
    ensures
        continues(d, s, data, ids, ready, n, mid.len() as int, x, sent, err),
{
    assert(sent.subrange(n, mid.len() as int) =~= mid.skip(n));
    assert(replays(s, data, sent.subrange(n, mid.len() as int), sq));
}

proof fn lemma_views_extend(a: Seq<GameEvent>, b: Seq<GameEvent>)
    requires
        b.len() >= a.len(),
        forall|i: int| 0 <= i < a.len() ==> b[i] == a[i],
    ensures
        views(b).len() == b.len(),
        views(a).len() == a.len(),
        forall|k: int| 0 <= k < a.len() ==> views(b)[k] == views(a)[k],
{
}

proof fn lemma_tail(
    d: nat,
    s0: GameStateView,
    data: &Data,
    ids: int,
    ready: Set<PlayerId>,
    n: int,
    mid: Seq<GameEvent>,
    sq: GameStateView,
    x: GameEventView,
    fin: Seq<GameEvent>,
    err: Option<ServerError>,
)
    requires
        0 <= n <= mid.len(),
        replays(s0, data, views(mid).skip(n), sq),
        fin.len() >= mid.len(),
        forall|i: int| 0 <= i < mid.len() ==> fin[i] == mid[i],
        then_reacts(d, sq, data, ids, ready, x, mid.len() as int, views(fin), err),
    ensures
        continues(d, s0, data, ids, ready, n, mid.len() as int, x, views(fin), err),
{
    lemma_views_extend(mid, fin);
    lemma_continues(d, s0, data, ids, ready, n, views(mid), sq, x, views(fin), err);
}

proof fn lemma_advance(
    s0: GameStateView,
    data: &Data,
    k: int,
    before: Seq<GameEventView>,
    bs: GameStateView,
    after: Seq<GameEventView>,
    t: GameStateView,
)
    requires
        0 <= k <= before.len(),
        replays(s0, data, before.skip(k), bs),
        after.len() == before.len() + 1,
        forall|i: int| 0 <= i < before.len() ==> after[i] == before[i],
        consumed(bs, data, after.last(), t),
    ensures
        replays(s0, data, after.skip(k), t),
{
    assert(after.skip(k) =~= before.skip(k).push(after.last()));
    lemma_replays_step(s0, data, before.skip(k), bs, after.last(), t);
}

proof fn lemma_replays_concat(
    s: GameStateView,
    data: &Data,
    e1: Seq<GameEventView>,
    m: GameStateView,
    e2: Seq<GameEventView>,
    t: GameStateView,
)
    requires
        replays(s, data, e1, m),
        replays(m, data, e2, t),
    ensures
        replays(s, data, e1 + e2, t),
{
    let r1 = choose|r: Seq<GameStateView>| #[trigger] is_run(s, data, e1, m, r);
    let r2 = choose|r: Seq<GameStateView>| #[trigger] is_run(m, data, e2, t, r);
    let run = r1 + r2.skip(1);
    let es = e1 + e2;
    assert forall|i: int| 0 <= i < es.len() implies #[trigger] consumed(run[i], data, es[i], run[i + 1]) by {
        if i < e1.len() {
            assert(run[i] == r1[i]);
            assert(run[i + 1] == r1[i + 1]);
            assert(es[i] == e1[i]);
            assert(consumed(r1[i], data, e1[i], r1[i + 1]));
        } else {
            let j = i - e1.len();
            assert(run[i] == r2[j]);
            assert(run[i + 1] == r2[j + 1]);
            assert(es[i] == e2[j]);
            assert(consumed(r2[j], data, e2[j], r2[j + 1]));
        }
    }
    assert(is_run(s, data, es, t, run));
}

/// `order` names each of `players` once, in some order.
pub open spec fn is_arrangement_of(order: Seq<PlayerId>, players: Set<PlayerId>) -> bool {
    &&& order.no_duplicates()
    &&& forall|p: PlayerId| order.contains(p) <==> players.contains(p)
}

proof fn lemma_shuffled_arrangement(a: Seq<PlayerId>, b: Seq<PlayerId>, players: Set<PlayerId>)
    requires
        is_arrangement_of(a, players),
        a.to_multiset() == b.to_multiset(),
    ensures
        is_arrangement_of(b, players),
{
    a.to_multiset_ensures();
    b.to_multiset_ensures();
    a.lemma_multiset_has_no_duplicates();
    assert forall|x: PlayerId| b.to_multiset().contains(x) implies b.to_multiset().count(x) == 1 by {
        assert(a.to_multiset().contains(x));
    }
    b.lemma_multiset_has_no_duplicates_conv();
    assert forall|p: PlayerId| b.contains(p) <==> players.contains(p) by {
        assert(b.contains(p) <==> b.to_multiset().count(p) > 0);
        assert(a.contains(p) <==> a.to_multiset().count(p) > 0);
    }
}

/// The error a result carries, if any.
pub open spec fn error_of<T>(r: Result<T, ServerError>) -> Option<ServerError> {
    match r {
        Ok(_) => None,
        Err(e) => Some(e),
    }
}

/// From position `n` of `sent` on, the server sends nothing and does not fail.
pub open spec fn nothing_more(n: int, sent: Seq<GameEventView>, err: Option<ServerError>) -> bool {
    sent.len() == n && err is None
}

/// The events `sent[n..m]` take the game from `s` to some state, in which
/// the server then sends `x` at position `m`, followed by its reaction to it.
pub open spec fn continues(
    d: nat,
    s: GameStateView,
    data: &Data,
    ids: int,
    ready: Set<PlayerId>,
    n: int,
    m: int,
    x: GameEventView,
    sent: Seq<GameEventView>,
    err: Option<ServerError>,
) -> bool
    decreases d, 2nat,
{
    &&& 0 <= n <= m <= sent.len()
    &&& exists|sq: GameStateView|
        #[trigger] replays(s, data, sent.subrange(n, m), sq) && then_reacts(d, sq, data, ids, ready, x, m, sent, err)
}

/// The server applies `x` to the game at `s`: when the game can take it, it
/// is sent at position `pos` of `sent` and followed by the server's reaction
/// to it, with `d` levels of reaction left; otherwise nothing is sent and the
/// server fails.
pub open spec fn then_reacts(
    d: nat,
    s: GameStateView,
    data: &Data,
    ids: int,
    ready: Set<PlayerId>,
    x: GameEventView,
    pos: int,
    sent: Seq<GameEventView>,
    err: Option<ServerError>,
) -> bool
    decreases d, 1nat,
{
    if consumable(s, data, x) {
        &&& 0 <= pos < sent.len()
        &&& sent[pos] == x
        &&& exists|t: GameStateView| #[trigger] consumed(s, data, x, t) && reacts(d, t, data, ids, ready, x, pos + 1, sent, err)
    } else {
        err == Some(ServerError::Unconsumable) && sent.len() == pos
    }
}

/// The server's whole reaction to `last`, the event that brought the game to
/// `s`, with `ready` the players ready to play and `depth` levels of reaction
/// left: the events it sends itself, from position `n` of `sent` on, in order,
/// each followed by the reaction to it where it has one, and how it ends. At
/// the last level it stops with `TooDeep`; one level above, what it sends is
/// left open.
pub open spec fn reacts(
    depth: nat,
    s: GameStateView,
    data: &Data,
    ids: int,
    ready: Set<PlayerId>,
    last: GameEventView,
    n: int,
    sent: Seq<GameEventView>,
    err: Option<ServerError>,
) -> bool
    decreases depth, 0nat,
{
    if depth == 0 {
        err == Some(ServerError::TooDeep) && sent.len() == n
    } else if depth == 1 {
        true
    } else {
        let d = (depth - 1) as nat;
        match last {
            GameEventView::AdvancePhase => match s.phase {
                Phase::Setup(SetupPhase::ChooseFactions) => {
                    &&& sent.len() > n
                    &&& sent[n] matches GameEventView::SetPlayOrder { play_order } && is_arrangement_of(play_order, ready)
                    &&& continues(d, s, data, ids, Set::<PlayerId>::empty(), n, n + 1, GameEventView::StartRound, sent, err)
                },
                Phase::Setup(SetupPhase::Prediction) => if s.factions.dom().contains(Faction::BeneGesserit) {
                    let bg = s.factions[Faction::BeneGesserit];
                    &&& sent.len() == n + 2
                    &&& sent[n] == GameEventView::SetActive { player_id: bg }
                    &&& sent[n + 1] == GameEventView::ShowPrompt { player_id: bg, prompt: PromptView::FactionPrediction }
                    &&& err is None
                } else {
                    continues(d, s, data, ids, ready, n, n, GameEventView::AdvancePhase, sent, err)
                },
                Phase::Setup(SetupPhase::AtStart) => {
                    let c = deck_card_count(data, s.factions.dom());
                    ||| (err == Some(ServerError::OutOfIds) && ids < c || err == Some(ServerError::MissingData)
                        && !all_leaders_known(data)) && n <= sent.len() < n + c
                    ||| {
                        &&& n + c <= sent.len()
                        &&& exists|spice: Seq<SpiceCard>|
                            #[trigger] deck_spawns(sent.subrange(n, n + c), data, dealt_traitors(data, s.factions.dom()), spice)
                                && spice.no_duplicates() && spice.to_set() == data.spice_cards@.dom()
                        &&& exists|sq: GameStateView|
                            #[trigger] replays(s, data, sent.subrange(n, n + c), sq) && shuffled_then(
                                d,
                                s,
                                sq,
                                data,
                                ids - c,
                                ready,
                                n,
                                n + c,
                                sent,
                                err,
                            )
                    }
                },
                Phase::Setup(SetupPhase::DealTraitors) => if play_order_seated(s) {
                    &&& err is None
                    &&& n <= sent.len()
                    &&& sent.skip(n) == traitor_deals(s.play_order) + traitor_prompts(s.play_order, s.players)
                } else {
                    err == Some(ServerError::Unconsumable)
                },
                Phase::Setup(SetupPhase::PlaceForces) => continues(
                    d,
                    s,
                    data,
                    ids,
                    ready,
                    n,
                    n,
                    GameEventView::StartRound,
                    sent,
                    err,
                ),
                Phase::Setup(SetupPhase::DealTreachery) => if treachery_receivers_seated(s) {
                    let k = treachery_deals(s).len() as int;
                    &&& n + k <= sent.len()
                    &&& sent.subrange(n, n + k) == treachery_deals(s)
                    &&& continues(d, s, data, ids, ready, n, n + k, GameEventView::AdvancePhase, sent, err)
                } else {
                    err == Some(ServerError::Unconsumable)
                },
                Phase::Storm(StormPhase::Reveal) => if s.game_turn > 0 {
                    if s.decks.storm.cards.len() > 0 {
                        &&& sent.len() > n
                        &&& sent[n] == GameEventView::RevealStorm
                        &&& continues(d, s, data, ids, ready, n, n + 1, GameEventView::AdvancePhase, sent, err)
                    } else {
                        err == Some(ServerError::Unconsumable) && sent.len() == n
                    }
                } else {
                    continues(d, s, data, ids, ready, n, n, GameEventView::AdvancePhase, sent, err)
                },
                Phase::Storm(StormPhase::WeatherControl) | Phase::Storm(StormPhase::FamilyAtomics) => continues(
                    d,
                    s,
                    data,
                    ids,
                    ready,
                    n,
                    n,
                    GameEventView::AdvancePhase,
                    sent,
                    err,
                ),
                Phase::Storm(StormPhase::MoveStorm) => if s.game_turn == 0 {
                    ||| {
                        &&& sent.len() > n
                        &&& sent[n] matches GameEventView::MoveStorm { sectors } && sectors < 18 && s.storm_sector
                            + sectors <= u8::MAX
                        &&& continues(d, s, data, ids, ready, n, n + 1, GameEventView::AdvancePhase, sent, err)
                    }
                    ||| s.storm_sector + 17 > u8::MAX && err == Some(ServerError::Unconsumable) && sent.len() == n
                } else {
                    match s.storm_card {
                        Some(c) => if s.storm_sector + c.inner.val <= u8::MAX {
                            &&& sent.len() > n
                            &&& sent[n] == GameEventView::MoveStorm { sectors: c.inner.val }
                            &&& continues(d, s, data, ids, ready, n, n + 1, GameEventView::AdvancePhase, sent, err)
                        } else {
                            err == Some(ServerError::Unconsumable) && sent.len() == n
                        },
                        None => err == Some(ServerError::MissingStormCard) && sent.len() == n,
                    }
                },
                _ => nothing_more(n, sent, err),
            },
            GameEventView::StartRound | GameEventView::Pass => match s.phase {
                Phase::Setup(SetupPhase::ChooseFactions) => match s.active_player {
                    Some(p) => {
                        &&& sent.len() == n + 1
                        &&& sent[n] == GameEventView::ShowPrompt {
                            player_id: p,
                            prompt: PromptView::Faction {
                                remaining: crate::components::all_factions().to_set().difference(s.factions.dom()),
                            },
                        }
                        &&& err is None
                    },
                    None => continues(d, s, data, ids, ready, n, n, GameEventView::AdvancePhase, sent, err),
                },
                Phase::Setup(SetupPhase::DealTraitors) => if s.prompts.dom().len() == 0 {
                    continues(d, s, data, ids, ready, n, n, GameEventView::AdvancePhase, sent, err)
                } else {
                    nothing_more(n, sent, err)
                },
                Phase::Setup(SetupPhase::PlaceForces) => match s.active_player {
                    Some(p) => if !s.players.dom().contains(p) {
                        err == Some(ServerError::MissingPlayer) && sent.len() == n
                    } else if !data.factions@.dom().contains(s.players[p].faction) {
                        err == Some(ServerError::MissingData) && sent.len() == n
                    } else if data.factions@[s.players[p].faction].starting_values.units == 0 {
                        continues(d, s, data, ids, ready, n, n, GameEventView::Pass, sent, err)
                    } else {
                        nothing_more(n, sent, err)
                    },
                    None => continues(d, s, data, ids, ready, n, n, GameEventView::AdvancePhase, sent, err),
                },
                _ => nothing_more(n, sent, err),
            },
            GameEventView::ChooseFaction { player_id, faction } => {
                let c = leaders_of(data, faction).len() + 20;
                ||| err == Some(ServerError::Unconsumable) && !s.players.dom().contains(player_id) && sent.len() == n
                ||| err == Some(ServerError::MissingData) && !forces_known(data, faction) && n <= sent.len() < n + c
                ||| err == Some(ServerError::OutOfIds) && ids < c && n <= sent.len() < n + c
                ||| {
                    &&& s.players.dom().contains(player_id)
                    &&& forces_known(data, faction)
                    &&& n + c <= sent.len()
                    &&& exists|ls: Seq<Leader>|
                        #[trigger] faction_spawns(
                            sent.subrange(n, n + c),
                            player_id,
                            ls,
                            data.factions@[faction].special_forces as int,
                        ) && ls.no_duplicates() && ls.to_set() == leaders_of(data, faction)
                    &&& continues(d, s, data, ids - c, ready, n, n + c, GameEventView::Pass, sent, err)
                }
            },
            GameEventView::ChooseTraitor { player_id, card_id } => if !s.players.dom().contains(player_id) {
                err == Some(ServerError::MissingPlayer) && sent.len() == n
            } else {
                exists|gone: Seq<ObjectId>|
                    #![trigger discards(gone, player_id)]
                    {
                        &&& n + gone.len() <= sent.len()
                        &&& sent.subrange(n, n + gone.len()) == discards(gone, player_id)
                        &&& names_each_once(gone, s.players[player_id].traitor_cards.dom().remove(card_id))
                        &&& continues(d, s, data, ids, ready, n, n + gone.len(), GameEventView::Pass, sent, err)
                    }
            },
            GameEventView::MakeFactionPrediction { .. } => match s.active_player {
                Some(p) => {
                    &&& sent.len() == n + 1
                    &&& sent[n] == GameEventView::ShowPrompt { player_id: p, prompt: PromptView::TurnPrediction }
                    &&& err is None
                },
                None => err == Some(ServerError::NoActivePlayer) && sent.len() == n,
            },
            GameEventView::MakeTurnPrediction { .. } => continues(
                d,
                s,
                data,
                ids,
                ready,
                n,
                n,
                GameEventView::AdvancePhase,
                sent,
                err,
            ),
            GameEventView::ShipForces { .. } => if s.phase == Phase::Setup(SetupPhase::PlaceForces)
                && s.active_player is Some {
                let p = s.active_player->0;
                if !s.players.dom().contains(p) {
                    err == Some(ServerError::MissingPlayer) && sent.len() == n
                } else if !data.factions@.dom().contains(s.players[p].faction)
                    || data.factions@[s.players[p].faction].starting_values.units > 20 {
                    err == Some(ServerError::MissingData) && sent.len() == n
                } else if s.players[p].offworld_forces.len() == 20
                    - data.factions@[s.players[p].faction].starting_values.units {
                    continues(d, s, data, ids, ready, n, n, GameEventView::Pass, sent, err)
                } else {
                    nothing_more(n, sent, err)
                }
            } else {
                nothing_more(n, sent, err)
            },
            _ => nothing_more(n, sent, err),
        }
    }
}

/// After the decks were brought into play, reaching `sq` at position `m`, the
/// server shuffles the four decks and moves to the next phase; a deck whose
/// cards share an id cannot be put in a new order, and the server fails.
pub open spec fn shuffled_then(
    d: nat,
    s: GameStateView,
    sq: GameStateView,
    data: &Data,
    ids: int,
    ready: Set<PlayerId>,
    n: int,
    m: int,
    sent: Seq<GameEventView>,
    err: Option<ServerError>,
) -> bool
    decreases d, 3nat,
{
    if decks_distinct(sq.decks) {
        &&& m + 4 <= sent.len()
        &&& reorders(sent[m], sq.decks.traitor.cards, DeckType::Traitor)
        &&& reorders(sent[m + 1], sq.decks.treachery.cards, DeckType::Treachery)
        &&& reorders(sent[m + 2], sq.decks.spice.cards, DeckType::Spice)
        &&& reorders(sent[m + 3], sq.decks.storm.cards, DeckType::Storm)
        &&& continues(d, s, data, ids, ready, n, m + 4, GameEventView::AdvancePhase, sent, err)
    } else {
        err == Some(ServerError::Unconsumable) && m <= sent.len() <= m + 4
    }
}

/// The game server: it keeps the authoritative game state, decides what happens
/// next, and collects every event it applies, in order, to send to the clients.
pub struct Server {
    pub state: GameState,
    pub data: Data,
    pub waiting_players: KeySet<PlayerId>,
    pub ready_players: KeySet<PlayerId>,
    pub ids: ObjectIdGenerator,
    /// The events applied since the clients were last sent events, oldest first.
    pub outbox: Vec<GameEvent>,
    /// The state the clients hold: the state before the events of the outbox.
    pub sent: Ghost<GameStateView>,
}

impl Server {
    /// The clients, applying the events of the outbox to the state they hold,
    /// reach the server's state.
    pub open spec fn in_step(&self) -> bool {
        replays(self.sent@, &self.data, views(self.outbox@), self.state@)
    }

    /// This server came from `older` by applying events: it is in step with what
    /// it has queued, and only added events to the queue.
    pub open spec fn follows(&self, older: &Server) -> bool {
        &&& self.in_step()
        &&& self.sent@ == older.sent@
        &&& self.data == older.data
        &&& self.outbox@.len() >= older.outbox@.len()
        &&& forall|i: int| 0 <= i < older.outbox@.len() ==> self.outbox@[i] == older.outbox@[i]
    }

    /// As `follows`, with the lobby left alone but for the ready players, who
    /// are taken into the play order when the factions are about to be picked;
    /// where no event was sent, the game is as it was.
    pub open spec fn keeps(&self, older: &Server) -> bool {
        &&& self.follows(older)
        &&& self.waiting_players@ == older.waiting_players@
        &&& (self.ready_players@ == older.ready_players@ || self.ready_players@ == Set::<PlayerId>::empty())
        &&& self.outbox@.len() == older.outbox@.len() ==> self.state@ == older.state@ && self.ready_players@
            == older.ready_players@
    }

    /// A server for a game not started yet, with the given rule tables.
    pub fn new(data: Data) -> (r: Server)
        ensures
            r.in_step(),
            r.state@ == crate::state::initial_state(),
            r.outbox@.len() == 0,
            r.waiting_players@.len() == 0,
            r.ready_players@.len() == 0,
    {
        let r = Server {
            state: GameState::default(),
            data,
            waiting_players: KeySet::new(),
            ready_players: KeySet::new(),
            ids: ObjectIdGenerator::default(),
            outbox: Vec::new(),
            sent: Ghost(crate::state::initial_state()),
        };
        assert(views(r.outbox@) =~= Seq::<GameEventView>::empty());
        proof {
            lemma_replays_none(crate::state::initial_state(), &r.data);
        }
        r
    }

    /// Hands over the events to send to the clients; the clients then hold the
    /// server's state.
    pub fn take_outbox(&mut self) -> (r: Vec<GameEvent>)
        requires
            old(self).in_step(),
        ensures
            r@ == old(self).outbox@,
            replays(old(self).sent@, &old(self).data, views(r@), final(self).state@),
            final(self).in_step(),
            final(self).outbox@.len() == 0,
            final(self).state == old(self).state,
            final(self).data == old(self).data,
    {
        let mut out = Vec::new();
        std::mem::swap(&mut out, &mut self.outbox);
        self.sent = Ghost(self.state@);
        assert(views(self.outbox@) =~= Seq::<GameEventView>::empty());
        proof {
            lemma_replays_none(self.state@, &self.data);
        }
        out
    }

    /// Applies `event`, queues it for the clients and lets the game react to it.
    fn generate(&mut self, event: GameEvent, depth: u64) -> (r: Result<(), ServerError>)
        requires
            old(self).in_step(),
        ensures
            final(self).keeps(old(self)),
            consumable(old(self).state@, &old(self).data, event@) <==> final(self).outbox@.len() > old(self).outbox@.len(),
            final(self).outbox@.len() > old(self).outbox@.len() ==> final(self).outbox@[old(self).outbox@.len() as int]@
                == event@,
            !consumable(old(self).state@, &old(self).data, event@) ==> r == Err::<(), ServerError>(ServerError::Unconsumable),
            final(self).outbox@.len() == old(self).outbox@.len() + 1 ==> final(self).ready_players@ == old(
                self,
            ).ready_players@ && consumed(old(self).state@, &old(self).data, event@, final(self).state@),
            consumable(old(self).state@, &old(self).data, event@) && depth == 0 ==> r == Err::<(), ServerError>(
                ServerError::TooDeep,
            ),
            consumable(old(self).state@, &old(self).data, event@) && depth > 0 && is_quiet(event@) ==> r is Ok
                && views(final(self).outbox@) == views(old(self).outbox@).push(event@) && final(self).ids == old(
                self,
            ).ids,
            then_reacts(
                depth as nat,
                old(self).state@,
                &old(self).data,
                ids_left(old(self).ids),
                old(self).ready_players@,
                event@,
                old(self).outbox@.len() as int,
                views(final(self).outbox@),
                error_of(r),
            ),
            depth >= 2 && consumable(old(self).state@, &old(self).data, event@) && old(self).ids.free@.len() == 0
                ==> (event@ matches GameEventView::ChooseFaction { faction, .. } ==> fresh_ids_from(
                views(final(self).outbox@),
                old(self).outbox@.len() + 1int,
                old(self).outbox@.len() + 1int + leaders_of(&old(self).data, faction).len() + 20,
                last_number(old(self).ids),
            )),
        decreases depth, 3u64,
    {
        if !self.state.can_consume(&self.data, &event) {
            return Err(ServerError::Unconsumable);
        }
        let sent = event.duplicate();
        let last = event.duplicate();
        let ghost before = self.state@;
        let ghost outbox = self.outbox@;
        self.state.consume(&self.data, event);
        self.outbox.push(sent);
        let ghost mid = self.state@;
        proof {
            assert(views(self.outbox@) =~= views(outbox).push(sent@));
            lemma_replays_step(self.sent@, &self.data, views(outbox), before, sent@, self.state@);
        }
        let ghost pushed = self.outbox@;
        let r = self.react(&last, depth);
        assert(consumed(before, &self.data, last@, mid));
        proof {
            if depth > 0 && is_quiet(last@) {
                lemma_views_push(outbox, self.outbox@, sent@);
            }
        }
        r
    }

    /// The server's reaction to the event it has just applied.
    #[verifier::spinoff_prover]
    #[verifier::rlimit(100)]
    fn react(&mut self, last: &GameEvent, depth: u64) -> (r: Result<(), ServerError>)
        requires
            old(self).in_step(),
        ensures
            final(self).keeps(old(self)),
            depth == 0 ==> r == Err::<(), ServerError>(ServerError::TooDeep) && final(self).outbox@ == old(
                self,
            ).outbox@,
            depth > 0 && is_quiet(last@) ==> final(self).ids == old(self).ids && r is Ok && final(self).outbox@
                == old(self).outbox@,
            reacts(
                depth as nat,
                old(self).state@,
                &old(self).data,
                ids_left(old(self).ids),
                old(self).ready_players@,
                last@,
                old(self).outbox@.len() as int,
                views(final(self).outbox@),
                error_of(r),
            ),
            depth >= 2 && old(self).ids.free@.len() == 0 ==> (last@ matches GameEventView::ChooseFaction {
                faction,
                ..
            } ==> fresh_ids_from(
                views(final(self).outbox@),
                old(self).outbox@.len() as int,
                old(self).outbox@.len() + leaders_of(&old(self).data, faction).len() + 20int,
                last_number(old(self).ids),
            )),
        decreases depth, 2u64,
    {
        let ghost s0 = self.state@;
        let ghost n = self.outbox@.len() as int;
        let ghost ready0 = self.ready_players@;
        proof {
            lemma_replays_none(s0, &self.data);
            assert(views(self.outbox@).skip(n) =~= Seq::<GameEventView>::empty());
        }
        if depth == 0 {
            return Err(ServerError::TooDeep);
        }
        let d = depth - 1;
        match last {
            GameEvent::AdvancePhase => self.react_advance(depth),
            GameEvent::StartRound | GameEvent::Pass => self.react_turn(last, depth),
            GameEvent::ChooseFaction { player_id, faction } => {
                let ghost before_spawn = self.outbox@;
                let ghost ids_before = self.ids;
                let sr = self.spawn_faction(*player_id, *faction, d);
                proof {
                    if d > 0 && ids_before.free@.len() == 0 && sr is Err {
                        assert(fresh_ids_from(
                            views(self.outbox@),
                            n,
                            n + leaders_of(&old(self).data, *faction).len() + 20,
                            last_number(old(self).ids),
                        ));
                    }
                }
                sr?;
                let ghost mid = self.outbox@;
                let ghost sq = self.state@;
                let ghost gi = ids_left(self.ids);
                proof {
                    if d > 0 {
                        let ls = choose|ls: Seq<Leader>|
                            #[trigger] faction_spawns(
                                views(mid).skip(n),
                                *player_id,
                                ls,
                                old(self).data.factions@[*faction].special_forces as int,
                            ) && ls.no_duplicates() && ls.to_set() == leaders_of(&old(self).data, *faction);
                        ls.unique_seq_to_set();
                        assert(mid.len() == n + leaders_of(&old(self).data, *faction).len() + 20);
                    }
                }
                let r = self.generate(GameEvent::Pass, d);
                proof {
                    if d > 0 {
                        lemma_tail(d as nat, s0, &old(self).data, gi, ready0, n, mid, sq, GameEventView::Pass, self.outbox@, error_of(r));
                        lemma_views_extend(mid, self.outbox@);
                        assert(views(self.outbox@).subrange(n, mid.len() as int) =~= views(mid).skip(n));
                        if ids_before.free@.len() == 0 {
                            let fin = views(self.outbox@);
                            let base = last_number(old(self).ids);
                            assert forall|k: int| n <= k < mid.len() && k < fin.len() implies #[trigger] spawned_id(fin[k])
                                == Some(ObjectId((base + (k - n) + 1) as u64)) by {
                                assert(fin[k] == views(mid)[k]);
                                assert(spawned_id(views(mid)[k]) == Some(ObjectId((base + (k - n) + 1) as u64)));
                            }
                        }
                    }
                }
                r
            },
            GameEvent::ChooseTraitor { player_id, card_id } => {
                self.discard_traitors(*player_id, *card_id, d)?;
                let ghost mid = self.outbox@;
                let ghost sq = self.state@;
                let ghost ids = choose|ids: Seq<ObjectId>|
                    #![trigger discards(ids, *player_id)]
                    views(mid) == views(old(self).outbox@) + discards(ids, *player_id) && names_each_once(
                        ids,
                        old(self).state@.players[*player_id].traitor_cards.dom().remove(*card_id),
                    );
                let r = self.generate(GameEvent::Pass, d);
                proof {
                    if d > 0 {
                        assert(views(mid).skip(n) =~= discards(ids, *player_id));
                        lemma_tail(d as nat, s0, &old(self).data, ids_left(old(self).ids), ready0, n, mid, sq, GameEventView::Pass, self.outbox@, error_of(r));
                        lemma_views_extend(mid, self.outbox@);
                        assert(views(self.outbox@).subrange(n, mid.len() as int) =~= views(mid).skip(n));
                    }
                }
                r
            },
            GameEvent::MakeFactionPrediction { .. } => match self.state.active_player {
                Some(player_id) => self.generate(GameEvent::ShowPrompt { player_id, prompt: Prompt::TurnPrediction }, d),
                None => Err(ServerError::NoActivePlayer),
            },
            GameEvent::MakeTurnPrediction { .. } => {
                let ghost mid = self.outbox@;
                let r = self.generate(GameEvent::AdvancePhase, d);
                proof {
                    if d > 0 {
                        lemma_tail(d as nat, s0, &old(self).data, ids_left(old(self).ids), ready0, n, mid, s0, GameEventView::AdvancePhase, self.outbox@, error_of(r));
                    }
                }
                r
            },
            GameEvent::ShipForces { .. } => {
                if self.state.phase == Phase::Setup(SetupPhase::PlaceForces) {
                    if let Some(player_id) = self.state.active_player {
                        let (placed, units) = match self.state.players.get(&player_id) {
                            Some(player) => match self.data.factions.get(&player.faction) {
                                Some(faction_data) => (player.offworld_forces.len(), faction_data.starting_values.units),
                                None => {
                                    return Err(ServerError::MissingData);
                                },
                            },
                            None => {
                                return Err(ServerError::MissingPlayer);
                            },
                        };
                        if units > 20 {
                            return Err(ServerError::MissingData);
                        }
                        if placed == 20 - units as usize {
                            let ghost mid = self.outbox@;
                            let r = self.generate(GameEvent::Pass, d);
                            proof {
                                if d > 0 {
                                    lemma_tail(d as nat, s0, &old(self).data, ids_left(old(self).ids), ready0, n, mid, s0, GameEventView::Pass, self.outbox@, error_of(r));
                                }
                            }
                            return r;
                        }
                    }
                }
                Ok(())
            },
            _ => Ok(()),
        }
    }

    /// The server's reaction to a change of phase.
    #[verifier::spinoff_prover]
    #[verifier::rlimit(100)]
    fn react_advance(&mut self, depth: u64) -> (r: Result<(), ServerError>)
        requires
            old(self).in_step(),
            depth > 0,
        ensures
            final(self).keeps(old(self)),
            reacts(
                depth as nat,
                old(self).state@,
                &old(self).data,
                ids_left(old(self).ids),
                old(self).ready_players@,
                GameEventView::AdvancePhase,
                old(self).outbox@.len() as int,
                views(final(self).outbox@),
                error_of(r),
            ),
        decreases depth, 1u64,
    {
        let ghost s0 = self.state@;
        let ghost n = self.outbox@.len() as int;
        let ghost ready0 = self.ready_players@;
        proof {
            lemma_replays_none(s0, &self.data);
            assert(views(self.outbox@).skip(n) =~= Seq::<GameEventView>::empty());
        }
        let d = depth - 1;
        match self.state.phase {
            Phase::Setup(SetupPhase::ChooseFactions) => {
                let mut play_order = self.ready_players.to_vec();
                let ghost listed = play_order@;
                self.ready_players = KeySet::new();
                assert(self.ready_players@ == Set::<PlayerId>::empty());
                shuffle(&mut play_order);
                proof {
                    lemma_shuffled_arrangement(listed, play_order@, old(self).ready_players@);
                }
                let ghost bv = views(self.outbox@);
                self.generate(GameEvent::SetPlayOrder { play_order }, d)?;
                let ghost mid = self.outbox@;
                let ghost sq = self.state@;
                proof {
                    if d > 0 {
                        lemma_advance(s0, &old(self).data, n, bv, s0, views(self.outbox@), self.state@);
                    }
                }
                let r = self.generate(GameEvent::StartRound, d);
                proof {
                    if d > 0 {
                        lemma_tail(d as nat, s0, &old(self).data, ids_left(old(self).ids), Set::<PlayerId>::empty(), n, mid, sq, GameEventView::StartRound, self.outbox@, error_of(r));
                    }
                }
                r
            },
            Phase::Setup(SetupPhase::Prediction) => match self.state.factions.get(&Faction::BeneGesserit) {
                Some(bg) => {
                    let bg = *bg;
                    self.generate(GameEvent::SetActive { player_id: bg }, d)?;
                    self.generate(GameEvent::ShowPrompt { player_id: bg, prompt: Prompt::FactionPrediction }, d)
                },
                None => {
                    let ghost mid = self.outbox@;
                    let r = self.generate(GameEvent::AdvancePhase, d);
                    proof {
                        if d > 0 {
                            lemma_tail(d as nat, s0, &old(self).data, ids_left(old(self).ids), ready0, n, mid, s0, GameEventView::AdvancePhase, self.outbox@, error_of(r));
                        }
                    }
                    r
                },
            },
            Phase::Setup(SetupPhase::AtStart) => self.react_at_start(depth),
            Phase::Setup(SetupPhase::DealTraitors) => {
                let ghost v0 = views(self.outbox@);
                let r = self.deal_traitors(d);
                proof {
                    if d > 0 && play_order_seated(s0) {
                        assert(views(self.outbox@).skip(n) =~= traitor_deals(s0.play_order) + traitor_prompts(
                            s0.play_order,
                            s0.players,
                        ));
                    }
                }
                r
            },
            Phase::Setup(SetupPhase::PlaceForces) => {
                let ghost mid = self.outbox@;
                let r = self.generate(GameEvent::StartRound, d);
                proof {
                    if d > 0 {
                        lemma_tail(d as nat, s0, &old(self).data, ids_left(old(self).ids), ready0, n, mid, s0, GameEventView::StartRound, self.outbox@, error_of(r));
                    }
                }
                r
            },
            Phase::Setup(SetupPhase::DealTreachery) => self.deal_treachery(d),
            Phase::Storm(_) => self.react_storm(depth),
            _ => Ok(()),
        }
    }

    /// The server's reaction to the start of the game setup: the decks are
    /// brought into play and shuffled, then the next phase begins.
    #[verifier::spinoff_prover]
    #[verifier::rlimit(100)]
    fn react_at_start(&mut self, depth: u64) -> (r: Result<(), ServerError>)
        requires
            old(self).in_step(),
            depth > 0,
            old(self).state@.phase == Phase::Setup(SetupPhase::AtStart),
        ensures
            final(self).keeps(old(self)),
            reacts(
                depth as nat,
                old(self).state@,
                &old(self).data,
                ids_left(old(self).ids),
                old(self).ready_players@,
                GameEventView::AdvancePhase,
                old(self).outbox@.len() as int,
                views(final(self).outbox@),
                error_of(r),
            ),
        decreases depth, 0u64,
    {
        let ghost s0 = self.state@;
        let ghost n = self.outbox@.len() as int;
        let ghost ready0 = self.ready_players@;
        let d = depth - 1;
        self.spawn_decks(d)?;
        let ghost mid1 = self.outbox@;
        let ghost s1 = self.state@;
        let ghost c = deck_card_count(&old(self).data, s0.factions.dom());
        proof {
            if d > 0 {
                let spice = choose|spice: Seq<SpiceCard>|
                    #[trigger] deck_spawns(
                        views(mid1).skip(n),
                        &old(self).data,
                        dealt_traitors(&old(self).data, s0.factions.dom()),
                        spice,
                    ) && spice.no_duplicates() && spice.to_set() == old(self).data.spice_cards@.dom();
                spice.unique_seq_to_set();
                assert(mid1.len() == n + c);
            }
        }
        match self.shuffle_decks(d) {
            Ok(()) => {},
            Err(e) => {
                proof {
                    if d > 0 {
                        let fin = views(self.outbox@);
                        lemma_views_extend(mid1, self.outbox@);
                        assert(fin.subrange(n, n + c) =~= views(mid1).skip(n));
                        assert(replays(s0, &old(self).data, fin.subrange(n, n + c), s1));
                        assert(shuffled_then(d as nat, s0, s1, &old(self).data, ids_left(old(self).ids) - c, ready0, n, n + c, fin, Some(e)));
                    }
                }
                return Err(e);
            },
        }
        let ghost mid = self.outbox@;
        let ghost sq = self.state@;
        let ghost gi = ids_left(self.ids);
        proof {
            if d > 0 {
                lemma_replays_concat(s0, &old(self).data, views(mid1).skip(n), s1, views(mid).skip(mid1.len() as int), sq);
                lemma_views_extend(mid1, mid);
                assert(views(mid1).skip(n) + views(mid).skip(mid1.len() as int) =~= views(mid).skip(n));
            }
        }
        let r = self.generate(GameEvent::AdvancePhase, d);
        proof {
            if d > 0 {
                lemma_tail(d as nat, s0, &old(self).data, gi, ready0, n, mid, sq, GameEventView::AdvancePhase, self.outbox@, error_of(r));
                let fin = views(self.outbox@);
                lemma_views_extend(mid1, self.outbox@);
                lemma_views_extend(mid, self.outbox@);
                assert(fin.subrange(n, n + c) =~= views(mid1).skip(n));
                assert(replays(s0, &old(self).data, fin.subrange(n, n + c), s1));
                assert(gi == ids_left(old(self).ids) - c);
                assert(shuffled_then(d as nat, s0, s1, &old(self).data, ids_left(old(self).ids) - c, ready0, n, n + c, fin, error_of(r)));
            }
        }
        r
    }

    /// The server's reaction to the change into a step of the storm phase.
    #[verifier::spinoff_prover]
    #[verifier::rlimit(100)]
    fn react_storm(&mut self, depth: u64) -> (r: Result<(), ServerError>)
        requires
            old(self).in_step(),
            depth > 0,
            old(self).state@.phase is Storm,
        ensures
            final(self).keeps(old(self)),
            reacts(
                depth as nat,
                old(self).state@,
                &old(self).data,
                ids_left(old(self).ids),
                old(self).ready_players@,
                GameEventView::AdvancePhase,
                old(self).outbox@.len() as int,
                views(final(self).outbox@),
                error_of(r),
            ),
        decreases depth, 0u64,
    {
        let ghost s0 = self.state@;
        let ghost n = self.outbox@.len() as int;
        let ghost ready0 = self.ready_players@;
        proof {
            lemma_replays_none(s0, &self.data);
            assert(views(self.outbox@).skip(n) =~= Seq::<GameEventView>::empty());
        }
        let d = depth - 1;
        match self.state.phase {
            Phase::Storm(StormPhase::Reveal) => {
                let ghost bv = views(self.outbox@);
                if self.state.game_turn > 0 {
                    self.generate(GameEvent::RevealStorm, d)?;
                    proof {
                        if d > 0 {
                            lemma_advance(s0, &old(self).data, n, bv, s0, views(self.outbox@), self.state@);
                        }
                    }
                }
                let ghost mid = self.outbox@;
                let ghost sq = self.state@;
                let r = self.generate(GameEvent::AdvancePhase, d);
                proof {
                    if d > 0 {
                        lemma_tail(d as nat, s0, &old(self).data, ids_left(old(self).ids), ready0, n, mid, sq, GameEventView::AdvancePhase, self.outbox@, error_of(r));
                    }
                }
                r
            },
            Phase::Storm(StormPhase::WeatherControl) => {
                let ghost mid = self.outbox@;
                let r = self.generate(GameEvent::AdvancePhase, d);
                proof {
                    if d > 0 {
                        lemma_tail(d as nat, s0, &old(self).data, ids_left(old(self).ids), ready0, n, mid, s0, GameEventView::AdvancePhase, self.outbox@, error_of(r));
                    }
                }
                r
            },
            Phase::Storm(StormPhase::FamilyAtomics) => {
                let ghost mid = self.outbox@;
                let r = self.generate(GameEvent::AdvancePhase, d);
                proof {
                    if d > 0 {
                        lemma_tail(d as nat, s0, &old(self).data, ids_left(old(self).ids), ready0, n, mid, s0, GameEventView::AdvancePhase, self.outbox@, error_of(r));
                    }
                }
                r
            },
            Phase::Storm(StormPhase::MoveStorm) => {
                let sectors = if self.state.game_turn == 0 {
                    random_below(18)
                } else {
                    match self.state.storm_card {
                        Some(card) => card.inner.val,
                        None => {
                            return Err(ServerError::MissingStormCard);
                        },
                    }
                };
                let ghost bv = views(self.outbox@);
                self.generate(GameEvent::MoveStorm { sectors }, d)?;
                let ghost mid = self.outbox@;
                let ghost sq = self.state@;
                proof {
                    if d > 0 {
                        lemma_advance(s0, &old(self).data, n, bv, s0, views(self.outbox@), self.state@);
                    }
                }
                let r = self.generate(GameEvent::AdvancePhase, d);
                proof {
                    if d > 0 {
                        lemma_tail(d as nat, s0, &old(self).data, ids_left(old(self).ids), ready0, n, mid, sq, GameEventView::AdvancePhase, self.outbox@, error_of(r));
                    }
                }
                r
            },
            _ => Ok(()),
        }
    }

    /// The server's reaction to the start of a round or to a pass.
    #[verifier::spinoff_prover]
    #[verifier::rlimit(100)]
    fn react_turn(&mut self, last: &GameEvent, depth: u64) -> (r: Result<(), ServerError>)
        requires
            old(self).in_step(),
            depth > 0,
            last@ is StartRound || last@ is Pass,
        ensures
            final(self).keeps(old(self)),
            reacts(
                depth as nat,
                old(self).state@,
                &old(self).data,
                ids_left(old(self).ids),
                old(self).ready_players@,
                last@,
                old(self).outbox@.len() as int,
                views(final(self).outbox@),
                error_of(r),
            ),
        decreases depth, 1u64,
    {
        let ghost s0 = self.state@;
        let ghost n = self.outbox@.len() as int;
        let ghost ready0 = self.ready_players@;
        proof {
            lemma_replays_none(s0, &self.data);
            assert(views(self.outbox@).skip(n) =~= Seq::<GameEventView>::empty());
        }
        let d = depth - 1;
        match self.state.phase {
            Phase::Setup(SetupPhase::ChooseFactions) => match self.state.active_player {
                Some(player_id) => {
                    let remaining = self.remaining_factions();
                    self.generate(GameEvent::ShowPrompt { player_id, prompt: Prompt::Faction { remaining } }, d)
                },
                None => {
                    let ghost mid = self.outbox@;
                    let r = self.generate(GameEvent::AdvancePhase, d);
                    proof {
                        if d > 0 {
                            lemma_tail(d as nat, s0, &old(self).data, ids_left(old(self).ids), ready0, n, mid, s0, GameEventView::AdvancePhase, self.outbox@, error_of(r));
                        }
                    }
                    r
                },
            },
            Phase::Setup(SetupPhase::DealTraitors) => {
                if self.state.prompts.is_empty() {
                    let ghost mid = self.outbox@;
                    let r = self.generate(GameEvent::AdvancePhase, d);
                    proof {
                        if d > 0 {
                            lemma_tail(d as nat, s0, &old(self).data, ids_left(old(self).ids), ready0, n, mid, s0, GameEventView::AdvancePhase, self.outbox@, error_of(r));
                        }
                    }
                    r
                } else {
                    Ok(())
                }
            },
            Phase::Setup(SetupPhase::PlaceForces) => match self.state.active_player {
                Some(player_id) => {
                    let units = match self.state.players.get(&player_id) {
                        Some(player) => match self.data.factions.get(&player.faction) {
                            Some(faction_data) => faction_data.starting_values.units,
                            None => {
                                return Err(ServerError::MissingData);
                            },
                        },
                        None => {
                            return Err(ServerError::MissingPlayer);
                        },
                    };
                    if units == 0 {
                        let ghost mid = self.outbox@;
                        let r = self.generate(GameEvent::Pass, d);
                        proof {
                            if d > 0 {
                                lemma_tail(d as nat, s0, &old(self).data, ids_left(old(self).ids), ready0, n, mid, s0, GameEventView::Pass, self.outbox@, error_of(r));
                            }
                        }
                        r
                    } else {
                        Ok(())
                    }
                },
                None => {
                    let ghost mid = self.outbox@;
                    let r = self.generate(GameEvent::AdvancePhase, d);
                    proof {
                        if d > 0 {
                            lemma_tail(d as nat, s0, &old(self).data, ids_left(old(self).ids), ready0, n, mid, s0, GameEventView::AdvancePhase, self.outbox@, error_of(r));
                        }
                    }
                    r
                },
            },
            _ => Ok(()),
        }
    }

    /// The factions nobody has picked yet.
    fn remaining_factions(&self) -> (r: KeySet<Faction>)
        ensures
            r@ == crate::components::all_factions().to_set().difference(self.state@.factions.dom()),
    {
        let all = Faction::all();
        let mut remaining = KeySet::from_vec(all);
        let taken = self.state.factions.keys();
        let mut i: usize = 0;
        while i < taken.len()
            invariant
                i <= taken@.len(),
                forall|k: Faction| taken@.contains(k) <==> self.state@.factions.dom().contains(k),
                remaining@ == crate::components::all_factions().to_set().difference(taken@.take(i as int).to_set()),
            decreases taken@.len() - i,
        {
            remaining.remove(&taken[i]);
            proof {
                taken@.take(i as int).lemma_push_to_set_commute(taken@[i as int]);
                assert(taken@.take(i + 1) =~= taken@.take(i as int).push(taken@[i as int]));
                assert(remaining@ =~= crate::components::all_factions().to_set().difference(taken@.take(i + 1).to_set()));
            }
            i = i + 1;
        }
        assert(taken@.take(taken@.len() as int) =~= taken@);
        assert(taken@.to_set() =~= self.state@.factions.dom());
        remaining
    }
}


impl Server {
    /// Brings every card of the game into play: the treachery cards, a traitor
    /// card for each leader of a faction in the game, the spice cards and the
    /// six storm cards.
    fn spawn_decks(&mut self, d: u64) -> (r: Result<(), ServerError>)
        requires
            old(self).in_step(),
        ensures
            final(self).keeps(old(self)),
            d > 0 && r is Ok ==> all_leaders_known(&old(self).data) && exists|spice: Seq<SpiceCard>|
                #[trigger] deck_spawns(
                    views(final(self).outbox@).skip(old(self).outbox@.len() as int),
                    &old(self).data,
                    dealt_traitors(&old(self).data, old(self).state@.factions.dom()),
                    spice,
                ) && spice.no_duplicates() && spice.to_set() == old(self).data.spice_cards@.dom(),
            d > 0 && all_leaders_known(&old(self).data) && ids_left(old(self).ids) >= deck_card_count(
                &old(self).data,
                old(self).state@.factions.dom(),
            ) ==> r is Ok,
            d > 0 && r is Err ==> {
                ||| r == Err::<(), ServerError>(ServerError::OutOfIds) && ids_left(old(self).ids) < deck_card_count(
                    &old(self).data,
                    old(self).state@.factions.dom(),
                )
                ||| r == Err::<(), ServerError>(ServerError::MissingData) && !all_leaders_known(&old(self).data)
            },
            d > 0 && r is Ok ==> replays(
                old(self).state@,
                &old(self).data,
                views(final(self).outbox@).skip(old(self).outbox@.len() as int),
                final(self).state@,
            ) && final(self).ready_players@ == old(self).ready_players@,
            d > 0 && r is Err ==> views(final(self).outbox@).len() < old(self).outbox@.len() + deck_card_count(
                &old(self).data,
                old(self).state@.factions.dom(),
            ),
            d > 0 && r is Ok ==> ids_left(final(self).ids) == ids_left(old(self).ids) - deck_card_count(
                &old(self).data,
                old(self).state@.factions.dom(),
            ),
        decreases d, 4u64,
    {
        let ghost s0 = self.state@;
        let ghost start = views(self.outbox@);
        proof {
            lemma_replays_none(self.state@, &self.data);
            assert(views(self.outbox@).skip(start.len() as int) =~= Seq::<GameEventView>::empty());
        }
        let ghost ids0 = self.ids;
        let ghost seated = s0.factions.dom();
        let ghost deck = self.data.treachery_deck@;
        let ghost mut block: Seq<GameEventView> = Seq::empty();
        proof {
            lemma_dealt_traitors_len(all_leaders(), &self.data, seated);
        }
        let mut i: usize = 0;
        while i < self.data.treachery_deck.len()
            invariant
                replays(s0, &old(self).data, views(self.outbox@).skip(start.len() as int), self.state@),
                self.ready_players@ == old(self).ready_players@,
                self.keeps(old(self)),
                s0 == old(self).state@,
                start == views(old(self).outbox@),
                ids0 == old(self).ids,
                seated == s0.factions.dom(),
                deck == old(self).data.treachery_deck@,
                self.state@.factions == s0.factions,
                i <= deck.len(),
                views(self.outbox@) == start + block,
                block.len() == i,
                ids_left(self.ids) == ids_left(ids0) - block.len(),
                forall|k: int| 0 <= k < i ==> spawns_treachery(#[trigger] block[k], deck[k]),
                deck_card_count(&old(self).data, seated) >= deck.len() + 6,
            decreases self.data.treachery_deck@.len() - i,
        {
            if !self.ids.has_id_left() {
                return Err(ServerError::OutOfIds);
            }
            let ghost before = views(self.outbox@);
            let card = self.ids.spawn(self.data.treachery_deck[i]);
            let ghost bs = self.state@;
            let ghost bv = views(self.outbox@);
            self.generate(GameEvent::SpawnObject { spawn_type: SpawnType::TreacheryCard(card) }, d)?;
            proof {
                lemma_advance(s0, &old(self).data, start.len() as int, bv, bs, views(self.outbox@), self.state@);
            }
            proof {
                let e = GameEventView::SpawnObject { spawn_type: SpawnType::TreacheryCard(card) };
                let b2 = block.push(e);
                assert(start + b2 =~= before.push(e));
                assert forall|k: int| 0 <= k < i + 1 implies spawns_treachery(#[trigger] b2[k], deck[k]) by {
                    if k < i {
                        assert(b2[k] == block[k]);
                    }
                }
                block = b2;
            }
            i = i + 1;
        }
        let ghost t = deck.len();
        let leaders = Leader::all();
        let mut i: usize = 0;
        while i < leaders.len()
            invariant
                replays(s0, &old(self).data, views(self.outbox@).skip(start.len() as int), self.state@),
                self.ready_players@ == old(self).ready_players@,
                self.keeps(old(self)),
                s0 == old(self).state@,
                start == views(old(self).outbox@),
                ids0 == old(self).ids,
                seated == s0.factions.dom(),
                deck == old(self).data.treachery_deck@,
                t == deck.len(),
                leaders@ == all_leaders(),
                self.state@.factions == s0.factions,
                i <= leaders@.len(),
                views(self.outbox@) == start + block,
                block.len() == t + dealt_traitors(&old(self).data, seated).len() - (dealt_traitors(
                    &old(self).data,
                    seated,
                ).len() - leader_traitors(leaders@.take(i as int), &old(self).data, seated).len()),
                leader_traitors(leaders@.take(i as int), &old(self).data, seated).len() <= dealt_traitors(
                    &old(self).data,
                    seated,
                ).len(),
                ids_left(self.ids) == ids_left(ids0) - block.len(),
                forall|k: int| 0 <= k < t ==> spawns_treachery(#[trigger] block[k], deck[k]),
                forall|k: int| 0 <= k < leader_traitors(leaders@.take(i as int), &old(self).data, seated).len()
                    ==> spawns_traitor(#[trigger] block[t + k], leader_traitors(leaders@.take(i as int), &old(self).data, seated)[k]),
                forall|j: int| 0 <= j < i ==> old(self).data.leaders@.dom().contains(#[trigger] leaders@[j]),
                deck_card_count(&old(self).data, seated) == t + dealt_traitors(&old(self).data, seated).len()
                    + old(self).data.spice_cards@.len() + 6,
            decreases leaders@.len() - i,
        {
            let leader = leaders[i];
            let ghost tl = leader_traitors(leaders@.take(i as int), &old(self).data, seated);
            proof {
                let t2 = leaders@.take(i + 1);
                assert(t2.drop_last() =~= leaders@.take(i as int));
                assert(t2.last() == leader);
                lemma_leader_traitors_prefix(leaders@, &old(self).data, seated, i + 1, leaders@.len() as int);
                assert(leaders@.take(leaders@.len() as int) =~= leaders@);
            }
            let faction = match self.data.leaders.get(&leader) {
                Some(leader_data) => leader_data.faction,
                None => {
                    return Err(ServerError::MissingData);
                },
            };
            if self.state.factions.contains_key(&faction) {
                if !self.ids.has_id_left() {
                    return Err(ServerError::OutOfIds);
                }
                let ghost before = views(self.outbox@);
                let card = self.ids.spawn(TraitorCard { leader });
                let ghost bs = self.state@;
                let ghost bv = views(self.outbox@);
                self.generate(GameEvent::SpawnObject { spawn_type: SpawnType::TraitorCard(card) }, d)?;
                proof {
                    lemma_advance(s0, &old(self).data, start.len() as int, bv, bs, views(self.outbox@), self.state@);
                }
                proof {
                    let e = GameEventView::SpawnObject { spawn_type: SpawnType::TraitorCard(card) };
                    let b2 = block.push(e);
                    let tl2 = leader_traitors(leaders@.take(i + 1), &old(self).data, seated);
                    assert(tl2 == tl.push(leader)) by {
                        assert(tl2 =~= tl + seq![leader]);
                    }
                    assert(start + b2 =~= before.push(e));
                    assert forall|k: int| 0 <= k < t implies spawns_treachery(#[trigger] b2[k], deck[k]) by {
                        assert(b2[k] == block[k]);
                    }
                    assert forall|k: int| 0 <= k < tl2.len() implies spawns_traitor(#[trigger] b2[t + k], tl2[k]) by {
                        if k < tl.len() {
                            assert(b2[t + k] == block[t + k]);
                        }
                    }
                    block = b2;
                }
            } else {
                proof {
                    let tl2 = leader_traitors(leaders@.take(i + 1), &old(self).data, seated);
                    assert(tl2 =~= tl);
                }
            }
            i = i + 1;
        }
        proof {
            assert(leaders@.take(leaders@.len() as int) =~= leaders@);
            assert forall|l: Leader| #[trigger] old(self).data.leaders@.dom().contains(l) by {
                crate::components::lemma_all_leaders_complete(l);
                let j = choose|j: int| 0 <= j < leaders@.len() && leaders@[j] == l;
            }
        }
        let ghost k0 = dealt_traitors(&old(self).data, seated).len();
        let spice_cards = self.data.spice_cards.keys();
        let mut i: usize = 0;
        while i < spice_cards.len()
            invariant
                replays(s0, &old(self).data, views(self.outbox@).skip(start.len() as int), self.state@),
                self.ready_players@ == old(self).ready_players@,
                self.keeps(old(self)),
                s0 == old(self).state@,
                start == views(old(self).outbox@),
                ids0 == old(self).ids,
                seated == s0.factions.dom(),
                deck == old(self).data.treachery_deck@,
                t == deck.len(),
                k0 == dealt_traitors(&old(self).data, seated).len(),
                all_leaders_known(&old(self).data),
                self.state@.factions == s0.factions,
                spice_cards@.len() == old(self).data.spice_cards@.len(),
                i <= spice_cards@.len(),
                views(self.outbox@) == start + block,
                block.len() == t + k0 + i,
                ids_left(self.ids) == ids_left(ids0) - block.len(),
                forall|k: int| 0 <= k < t ==> spawns_treachery(#[trigger] block[k], deck[k]),
                forall|k: int| 0 <= k < k0 ==> spawns_traitor(#[trigger] block[t + k], dealt_traitors(&old(self).data, seated)[k]),
                forall|k: int| 0 <= k < i ==> spawns_spice(#[trigger] block[t + k0 + k], spice_cards@[k]),
                deck_card_count(&old(self).data, seated) == t + k0 + old(self).data.spice_cards@.len() + 6,
            decreases spice_cards@.len() - i,
        {
            if !self.ids.has_id_left() {
                return Err(ServerError::OutOfIds);
            }
            let ghost before = views(self.outbox@);
            let card = self.ids.spawn(spice_cards[i]);
            let ghost bs = self.state@;
            let ghost bv = views(self.outbox@);
            self.generate(GameEvent::SpawnObject { spawn_type: SpawnType::SpiceCard(card) }, d)?;
            proof {
                lemma_advance(s0, &old(self).data, start.len() as int, bv, bs, views(self.outbox@), self.state@);
            }
            proof {
                let e = GameEventView::SpawnObject { spawn_type: SpawnType::SpiceCard(card) };
                let b2 = block.push(e);
                assert(start + b2 =~= before.push(e));
                assert forall|k: int| 0 <= k < t implies spawns_treachery(#[trigger] b2[k], deck[k]) by {
                    assert(b2[k] == block[k]);
                }
                assert forall|k: int| 0 <= k < k0 implies spawns_traitor(#[trigger] b2[t + k], dealt_traitors(&old(self).data, seated)[k]) by {
                    assert(b2[t + k] == block[t + k]);
                }
                assert forall|k: int| 0 <= k < i + 1 implies spawns_spice(#[trigger] b2[t + k0 + k], spice_cards@[k]) by {
                    if k < i {
                        assert(b2[t + k0 + k] == block[t + k0 + k]);
                    }
                }
                block = b2;
            }
            i = i + 1;
        }
        let ghost sp = spice_cards@.len();
        let mut val: u8 = 1;
        while val <= 6
            invariant
                replays(s0, &old(self).data, views(self.outbox@).skip(start.len() as int), self.state@),
                self.ready_players@ == old(self).ready_players@,
                self.keeps(old(self)),
                s0 == old(self).state@,
                start == views(old(self).outbox@),
                ids0 == old(self).ids,
                seated == s0.factions.dom(),
                deck == old(self).data.treachery_deck@,
                t == deck.len(),
                k0 == dealt_traitors(&old(self).data, seated).len(),
                sp == spice_cards@.len(),
                sp == old(self).data.spice_cards@.len(),
                all_leaders_known(&old(self).data),
                1 <= val <= 7,
                views(self.outbox@) == start + block,
                block.len() == t + k0 + sp + val - 1,
                ids_left(self.ids) == ids_left(ids0) - block.len(),
                forall|k: int| 0 <= k < t ==> spawns_treachery(#[trigger] block[k], deck[k]),
                forall|k: int| 0 <= k < k0 ==> spawns_traitor(#[trigger] block[t + k], dealt_traitors(&old(self).data, seated)[k]),
                forall|k: int| 0 <= k < sp ==> spawns_spice(#[trigger] block[t + k0 + k], spice_cards@[k]),
                forall|k: int| 0 <= k < val - 1 ==> spawns_storm(#[trigger] block[t + k0 + sp + k], k + 1),
                deck_card_count(&old(self).data, seated) == t + k0 + sp + 6,
            decreases 7 - val,
        {
            if !self.ids.has_id_left() {
                return Err(ServerError::OutOfIds);
            }
            let ghost before = views(self.outbox@);
            let card = self.ids.spawn(StormCard { val });
            let ghost bs = self.state@;
            let ghost bv = views(self.outbox@);
            self.generate(GameEvent::SpawnObject { spawn_type: SpawnType::StormCard(card) }, d)?;
            proof {
                lemma_advance(s0, &old(self).data, start.len() as int, bv, bs, views(self.outbox@), self.state@);
            }
            proof {
                let e = GameEventView::SpawnObject { spawn_type: SpawnType::StormCard(card) };
                let b2 = block.push(e);
                assert(start + b2 =~= before.push(e));
                assert forall|k: int| 0 <= k < t implies spawns_treachery(#[trigger] b2[k], deck[k]) by {
                    assert(b2[k] == block[k]);
                }
                assert forall|k: int| 0 <= k < k0 implies spawns_traitor(#[trigger] b2[t + k], dealt_traitors(&old(self).data, seated)[k]) by {
                    assert(b2[t + k] == block[t + k]);
                }
                assert forall|k: int| 0 <= k < sp implies spawns_spice(#[trigger] b2[t + k0 + k], spice_cards@[k]) by {
                    assert(b2[t + k0 + k] == block[t + k0 + k]);
                }
                assert forall|k: int| 0 <= k < val implies spawns_storm(#[trigger] b2[t + k0 + sp + k], k + 1) by {
                    if k < val - 1 {
                        assert(b2[t + k0 + sp + k] == block[t + k0 + sp + k]);
                    }
                }
                block = b2;
            }
            val = val + 1;
        }
        proof {
            assert(views(self.outbox@).skip(start.len() as int) =~= block);
            assert(deck_spawns(block, &old(self).data, dealt_traitors(&old(self).data, seated), spice_cards@));
            spice_cards@.unique_seq_to_set();
            assert(spice_cards@.to_set() =~= old(self).data.spice_cards@.dom());
        }
        Ok(())
    }

    /// Puts every deck in a random order, the traitor deck first, then the
    /// treachery, spice and storm decks.
    #[verifier::spinoff_prover]
    #[verifier::rlimit(40)]
    fn shuffle_decks(&mut self, d: u64) -> (r: Result<(), ServerError>)
        requires
            old(self).in_step(),
        ensures
            final(self).keeps(old(self)),
            d > 0 && decks_distinct(old(self).state@.decks) ==> {
                let n = old(self).outbox@.len() as int;
                let sent = views(final(self).outbox@);
                let decks = old(self).state@.decks;
                &&& r is Ok
                &&& sent.len() == n + 4
                &&& reorders(sent[n], decks.traitor.cards, DeckType::Traitor)
                &&& reorders(sent[n + 1], decks.treachery.cards, DeckType::Treachery)
                &&& reorders(sent[n + 2], decks.spice.cards, DeckType::Spice)
                &&& reorders(sent[n + 3], decks.storm.cards, DeckType::Storm)
            },
            d > 0 && !decks_distinct(old(self).state@.decks) ==> r == Err::<(), ServerError>(ServerError::Unconsumable),
            d > 0 && r is Ok ==> replays(
                old(self).state@,
                &old(self).data,
                views(final(self).outbox@).skip(old(self).outbox@.len() as int),
                final(self).state@,
            ) && final(self).ready_players@ == old(self).ready_players@,
            d > 0 && r is Err ==> views(final(self).outbox@).len() <= old(self).outbox@.len() + 4,
            d > 0 && r is Ok ==> final(self).ids == old(self).ids,
        decreases d, 4u64,
    {
        let ghost decks = self.state@.decks;
        let ghost s0 = self.state@;
        let ghost start = views(self.outbox@);
        proof {
            lemma_replays_none(self.state@, &self.data);
            assert(views(self.outbox@).skip(start.len() as int) =~= Seq::<GameEventView>::empty());
        }
        let mut deck_order = card_ids(&self.state.decks.traitor.cards);
        shuffle(&mut deck_order);
        proof {
            lemma_permuted_order(decks.traitor.cards, deck_order@);
        }
        let ghost o1 = deck_order@;
        let ghost bs = self.state@;
        let ghost bv = views(self.outbox@);
        self.generate(GameEvent::SetDeckOrder { deck_order, deck_type: DeckType::Traitor }, d)?;
        proof {
            lemma_advance(s0, &old(self).data, start.len() as int, bv, bs, views(self.outbox@), self.state@);
        }
        assert(views(self.outbox@) == start.push(GameEventView::SetDeckOrder { deck_order: o1, deck_type: DeckType::Traitor }));
        let ghost after1 = views(self.outbox@);
        let mut deck_order = card_ids(&self.state.decks.treachery.cards);
        shuffle(&mut deck_order);
        proof {
            lemma_permuted_order(decks.treachery.cards, deck_order@);
        }
        let ghost o2 = deck_order@;
        let ghost bs = self.state@;
        let ghost bv = views(self.outbox@);
        self.generate(GameEvent::SetDeckOrder { deck_order, deck_type: DeckType::Treachery }, d)?;
        proof {
            lemma_advance(s0, &old(self).data, start.len() as int, bv, bs, views(self.outbox@), self.state@);
        }
        assert(views(self.outbox@) == after1.push(GameEventView::SetDeckOrder { deck_order: o2, deck_type: DeckType::Treachery }));
        let ghost after2 = views(self.outbox@);
        let mut deck_order = card_ids(&self.state.decks.spice.cards);
        shuffle(&mut deck_order);
        proof {
            lemma_permuted_order(decks.spice.cards, deck_order@);
        }
        let ghost o3 = deck_order@;
        let ghost bs = self.state@;
        let ghost bv = views(self.outbox@);
        self.generate(GameEvent::SetDeckOrder { deck_order, deck_type: DeckType::Spice }, d)?;
        proof {
            lemma_advance(s0, &old(self).data, start.len() as int, bv, bs, views(self.outbox@), self.state@);
        }
        assert(views(self.outbox@) == after2.push(GameEventView::SetDeckOrder { deck_order: o3, deck_type: DeckType::Spice }));
        let ghost after3 = views(self.outbox@);
        let mut deck_order = card_ids(&self.state.decks.storm.cards);
        shuffle(&mut deck_order);
        proof {
            lemma_permuted_order(decks.storm.cards, deck_order@);
        }
        let ghost o4 = deck_order@;
        let ghost bs = self.state@;
        let ghost bv = views(self.outbox@);
        let r = self.generate(GameEvent::SetDeckOrder { deck_order, deck_type: DeckType::Storm }, d);
        proof {
            if r is Ok {
                assert(views(self.outbox@) == after3.push(GameEventView::SetDeckOrder { deck_order: o4, deck_type: DeckType::Storm }));
                lemma_advance(s0, &old(self).data, start.len() as int, bv, bs, views(self.outbox@), self.state@);
            }
        }
        r
    }

    /// Deals four traitor cards to each player, one round of the play order at a
    /// time, then asks every player but the Harkonnen to keep one.
    fn deal_traitors(&mut self, d: u64) -> (r: Result<(), ServerError>)
        requires
            old(self).in_step(),
        ensures
            final(self).keeps(old(self)),
            d > 0 && play_order_seated(old(self).state@) ==> r is Ok && views(final(self).outbox@) == views(
                old(self).outbox@,
            ) + traitor_deals(old(self).state@.play_order) + traitor_prompts(
                old(self).state@.play_order,
                old(self).state@.players,
            ),
            d > 0 && !play_order_seated(old(self).state@) ==> r == Err::<(), ServerError>(ServerError::Unconsumable),
            d > 0 && r is Ok ==> replays(
                old(self).state@,
                &old(self).data,
                views(final(self).outbox@).skip(old(self).outbox@.len() as int),
                final(self).state@,
            ) && final(self).ready_players@ == old(self).ready_players@,
        decreases d, 4u64,
    {
        let ghost s0 = self.state@;
        let ghost start = views(self.outbox@);
        proof {
            lemma_replays_none(self.state@, &self.data);
            assert(views(self.outbox@).skip(start.len() as int) =~= Seq::<GameEventView>::empty());
        }
        let ghost one = deals_from(s0.play_order, DeckType::Traitor);
        let order = copy_vec(&self.state.play_order);
        let mut round: usize = 0;
        while round < 4
            invariant
                replays(s0, &old(self).data, views(self.outbox@).skip(start.len() as int), self.state@),
                self.ready_players@ == old(self).ready_players@,
                self.keeps(old(self)),
                s0 == old(self).state@,
                start == views(old(self).outbox@),
                one == deals_from(s0.play_order, DeckType::Traitor),
                order@ == s0.play_order,
                round <= 4,
                views(self.outbox@) == start + repeated(one, round as nat),
                self.state@.players.dom() == s0.players.dom(),
                forall|p: PlayerId| #[trigger] s0.players.dom().contains(p) ==> self.state@.players[p].faction
                    == s0.players[p].faction,
                self.state@.play_order == s0.play_order,
                round > 0 ==> play_order_seated(s0),
                round > 0 && order@.len() > 0 ==> d > 0,
            decreases 4 - round,
        {
            let mut i: usize = 0;
            while i < order.len()
                invariant
                    replays(s0, &old(self).data, views(self.outbox@).skip(start.len() as int), self.state@),
                    self.ready_players@ == old(self).ready_players@,
                    self.keeps(old(self)),
                    s0 == old(self).state@,
                    start == views(old(self).outbox@),
                    one == deals_from(s0.play_order, DeckType::Traitor),
                    order@ == s0.play_order,
                    round < 4,
                    i <= order@.len(),
                    views(self.outbox@) == start + repeated(one, round as nat) + one.take(i as int),
                    self.state@.players.dom() == s0.players.dom(),
                    forall|p: PlayerId| #[trigger] s0.players.dom().contains(p) ==> self.state@.players[p].faction
                        == s0.players[p].faction,
                    self.state@.play_order == s0.play_order,
                    round > 0 ==> play_order_seated(s0),
                    forall|j: int| 0 <= j < i ==> s0.players.dom().contains(#[trigger] order@[j]),
                    (round > 0 || i > 0) && order@.len() > 0 ==> d > 0,
                decreases order@.len() - i,
            {
                let ghost before = views(self.outbox@);
                let ghost bs = self.state@;
                let ghost bv = views(self.outbox@);
                self.generate(GameEvent::DealCard { player_id: order[i], from: DeckType::Traitor }, d)?;
                proof {
                    lemma_advance(s0, &old(self).data, start.len() as int, bv, bs, views(self.outbox@), self.state@);
                }
                assert(one.take(i + 1) =~= one.take(i as int).push(one[i as int]));
                assert(start + repeated(one, round as nat) + one.take(i + 1) =~= before.push(one[i as int]));
                i = i + 1;
            }
            assert(one.take(order@.len() as int) =~= one);
            assert(repeated(one, (round + 1) as nat) == repeated(one, round as nat) + one);
            round = round + 1;
        }
        let ghost dealt = views(self.outbox@);
        assert(dealt == start + traitor_deals(s0.play_order));
        let order = copy_vec(&self.state.play_order);
        let mut i: usize = 0;
        while i < order.len()
            invariant
                replays(s0, &old(self).data, views(self.outbox@).skip(start.len() as int), self.state@),
                self.ready_players@ == old(self).ready_players@,
                self.keeps(old(self)),
                s0 == old(self).state@,
                order@ == s0.play_order,
                i <= order@.len(),
                dealt == start + traitor_deals(s0.play_order),
                views(self.outbox@) == dealt + traitor_prompts(order@.take(i as int), s0.players),
                self.state@.players.dom() == s0.players.dom(),
                forall|p: PlayerId| #[trigger] s0.players.dom().contains(p) ==> self.state@.players[p].faction
                    == s0.players[p].faction,
                play_order_seated(s0),
                order@.len() > 0 ==> d > 0,
            decreases order@.len() - i,
        {
            let player_id = order[i];
            assert(s0.players.dom().contains(s0.play_order[i as int]));
            let faction = match self.state.players.get(&player_id) {
                Some(player) => player.faction,
                None => {
                    return Err(ServerError::MissingPlayer);
                },
            };
            let ghost before = views(self.outbox@);
            if faction != Faction::Harkonnen {
                let ghost bs = self.state@;
                let ghost bv = views(self.outbox@);
                self.generate(GameEvent::ShowPrompt { player_id, prompt: Prompt::Traitor }, d)?;
                proof {
                    lemma_advance(s0, &old(self).data, start.len() as int, bv, bs, views(self.outbox@), self.state@);
                }
            }
            proof {
                let t = order@.take(i + 1);
                assert(t.drop_last() =~= order@.take(i as int));
                assert(t.last() == player_id);
            }
            i = i + 1;
        }
        assert(order@.take(order@.len() as int) =~= order@);
        Ok(())
    }

    /// Deals a treachery card to each player in play order, and a second one to
    /// the Harkonnen, then moves on.
    fn deal_treachery(&mut self, d: u64) -> (r: Result<(), ServerError>)
        requires
            old(self).in_step(),
        ensures
            final(self).keeps(old(self)),
            d > 0 && treachery_receivers_seated(old(self).state@) ==> {
                let n = old(self).outbox@.len() as int;
                let sent = views(final(self).outbox@);
                let deals = treachery_deals(old(self).state@);
                &&& sent.len() > n + deals.len()
                &&& sent.subrange(n, n + deals.len()) == deals
                &&& sent[n + deals.len()] == GameEventView::AdvancePhase
            },
            d > 0 && !treachery_receivers_seated(old(self).state@) ==> r == Err::<(), ServerError>(
                ServerError::Unconsumable,
            ),
            d > 0 && treachery_receivers_seated(old(self).state@) ==> continues(
                d as nat,
                old(self).state@,
                &old(self).data,
                ids_left(old(self).ids),
                old(self).ready_players@,
                old(self).outbox@.len() as int,
                (old(self).outbox@.len() + treachery_deals(old(self).state@).len()) as int,
                GameEventView::AdvancePhase,
                views(final(self).outbox@),
                error_of(r),
            ),
        decreases d, 4u64,
    {
        let ghost s0 = self.state@;
        let ghost start = views(self.outbox@);
        proof {
            lemma_replays_none(self.state@, &self.data);
            assert(views(self.outbox@).skip(start.len() as int) =~= Seq::<GameEventView>::empty());
        }
        let ghost one = deals_from(s0.play_order, DeckType::Treachery);
        let order = copy_vec(&self.state.play_order);
        let mut i: usize = 0;
        while i < order.len()
            invariant
                self.ids == old(self).ids,
                replays(s0, &old(self).data, views(self.outbox@).skip(start.len() as int), self.state@),
                self.ready_players@ == old(self).ready_players@,
                self.keeps(old(self)),
                s0 == old(self).state@,
                start == views(old(self).outbox@),
                one == deals_from(s0.play_order, DeckType::Treachery),
                order@ == s0.play_order,
                i <= order@.len(),
                views(self.outbox@) == start + one.take(i as int),
                self.state@.players.dom() == s0.players.dom(),
                self.state@.factions == s0.factions,
                forall|j: int| 0 <= j < i ==> s0.players.dom().contains(#[trigger] order@[j]),
            decreases order@.len() - i,
        {
            let ghost before = views(self.outbox@);
            let ghost bs = self.state@;
            let ghost bv = views(self.outbox@);
            self.generate(GameEvent::DealCard { player_id: order[i], from: DeckType::Treachery }, d)?;
            proof {
                lemma_advance(s0, &old(self).data, start.len() as int, bv, bs, views(self.outbox@), self.state@);
            }
            assert(one.take(i + 1) =~= one.take(i as int).push(one[i as int]));
            assert(start + one.take(i + 1) =~= before.push(one[i as int]));
            i = i + 1;
        }
        assert(one.take(order@.len() as int) =~= one);
        let ghost dealt = views(self.outbox@);
        match self.state.factions.get(&Faction::Harkonnen) {
            Some(hk) => {
                let hk = *hk;
                let ghost bs = self.state@;
                let ghost bv = views(self.outbox@);
                self.generate(GameEvent::DealCard { player_id: hk, from: DeckType::Treachery }, d)?;
                proof {
                    lemma_advance(s0, &old(self).data, start.len() as int, bv, bs, views(self.outbox@), self.state@);
                }
                assert(views(self.outbox@) == dealt.push(GameEventView::DealCard { player_id: hk, from: DeckType::Treachery }));
            },
            None => {},
        }
        let ghost before = views(self.outbox@);
        let ghost sq = self.state@;
        assert(before == start + treachery_deals(s0));
        let r = self.generate(GameEvent::AdvancePhase, d);
        proof {
            let td = treachery_deals(s0);
            let fin = views(self.outbox@);
            lemma_views_prefix(before, fin);
            assert forall|k: int| 0 <= k < td.len() implies fin[start.len() + k] == td[k] by {
                assert(before[start.len() + k] == td[k]);
                assert(fin[start.len() + k] == before[start.len() + k]);
            }
            assert(fin.subrange(start.len() as int, before.len() as int) =~= td);
            if d > 0 {
                lemma_continues(d as nat, s0, &old(self).data, ids_left(old(self).ids), old(self).ready_players@, start.len() as int, before, sq,
                    GameEventView::AdvancePhase, fin, error_of(r));
            }
        }
        r
    }

    /// Brings the leaders and the twenty forces of the faction just picked into
    /// play, the ordinary forces before the special ones.
    fn spawn_faction(&mut self, player_id: PlayerId, faction: Faction, d: u64) -> (r: Result<(), ServerError>)
        requires
            old(self).in_step(),
        ensures
            final(self).keeps(old(self)),
            d > 0 && r is Ok ==> {
                &&& old(self).state@.players.dom().contains(player_id)
                &&& forces_known(&old(self).data, faction)
                &&& exists|ls: Seq<Leader>|
                    #[trigger] faction_spawns(
                        views(final(self).outbox@).skip(old(self).outbox@.len() as int),
                        player_id,
                        ls,
                        old(self).data.factions@[faction].special_forces as int,
                    ) && ls.no_duplicates() && ls.to_set() == leaders_of(&old(self).data, faction)
            },
            d > 0 && old(self).state@.players.dom().contains(player_id) && forces_known(&old(self).data, faction)
                && ids_left(old(self).ids) >= leaders_of(&old(self).data, faction).len() + 20 ==> r is Ok,
            d > 0 && r is Err ==> {
                ||| r == Err::<(), ServerError>(ServerError::OutOfIds) && ids_left(old(self).ids) < leaders_of(
                    &old(self).data,
                    faction,
                ).len() + 20
                ||| r == Err::<(), ServerError>(ServerError::MissingData) && !forces_known(&old(self).data, faction)
                ||| r == Err::<(), ServerError>(ServerError::Unconsumable) && !old(self).state@.players.dom().contains(
                    player_id,
                )
            },
            d > 0 && r is Ok ==> replays(
                old(self).state@,
                &old(self).data,
                views(final(self).outbox@).skip(old(self).outbox@.len() as int),
                final(self).state@,
            ) && final(self).ready_players@ == old(self).ready_players@,
            d > 0 && r is Err ==> views(final(self).outbox@).len() < old(self).outbox@.len() + leaders_of(
                &old(self).data,
                faction,
            ).len() + 20,
            d > 0 && r == Err::<(), ServerError>(ServerError::Unconsumable) ==> final(self).outbox@.len() == old(
                self,
            ).outbox@.len(),
            d > 0 && old(self).ids.free@.len() == 0 ==> fresh_ids_from(
                views(final(self).outbox@),
                old(self).outbox@.len() as int,
                views(final(self).outbox@).len() as int,
                last_number(old(self).ids),
            ),
            d > 0 && r is Ok ==> ids_left(final(self).ids) == ids_left(old(self).ids) - (leaders_of(
                &old(self).data,
                faction,
            ).len() + 20),
        decreases d, 4u64,
    {
        let ghost s0 = self.state@;
        let ghost start = views(self.outbox@);
        proof {
            lemma_replays_none(self.state@, &self.data);
            assert(views(self.outbox@).skip(start.len() as int) =~= Seq::<GameEventView>::empty());
        }
        let ghost ids0 = self.ids;
        let ghost mine = leaders_of(&self.data, faction);
        let leaders = self.data.leaders.keys();
        proof {
            assert(self.data.leaders@.dom() =~= leaders@.to_set());
            vstd::seq_lib::seq_to_set_is_finite(leaders@);
            vstd::set_lib::lemma_len_subset(mine, self.data.leaders@.dom());
        }
        let ghost mut ls: Seq<Leader> = Seq::empty();
        let mut i: usize = 0;
        while i < leaders.len()
            invariant
                replays(s0, &old(self).data, views(self.outbox@).skip(start.len() as int), self.state@),
                self.ready_players@ == old(self).ready_players@,
                self.keeps(old(self)),
                s0 == old(self).state@,
                start == views(old(self).outbox@),
                ids0 == old(self).ids,
                mine == leaders_of(&old(self).data, faction),
                mine.finite(),
                leaders@.no_duplicates(),
                forall|k: Leader| leaders@.contains(k) <==> old(self).data.leaders@.dom().contains(k),
                i <= leaders@.len(),
                self.state@.players.dom() == s0.players.dom(),
                ls.no_duplicates(),
                forall|x: Leader| ls.contains(x) <==> old(self).data.leaders@[x].faction == faction && exists|a: int|
                    0 <= a < i && #[trigger] leaders@[a] == x,
                views(self.outbox@).len() == start.len() + ls.len(),
                forall|k: int| 0 <= k < ls.len() ==> spawns_leader(#[trigger] views(self.outbox@)[start.len() + k], player_id, ls[k]),
                ids_left(self.ids) == ids_left(ids0) - ls.len(),
                ids0.free@.len() == 0 ==> self.ids.free@.len() == 0 && last_number(self.ids) == last_number(ids0)
                    + (views(self.outbox@).len() - start.len()) && fresh_ids_from(
                    views(self.outbox@),
                    start.len() as int,
                    views(self.outbox@).len() as int,
                    last_number(ids0),
                ),
                ls.len() > 0 ==> s0.players.dom().contains(player_id) && d > 0,
            decreases leaders@.len() - i,
        {
            let leader = leaders[i];
            let of_faction = match self.data.leaders.get(&leader) {
                Some(leader_data) => leader_data.faction == faction,
                None => false,
            };
            proof {
                assert(leaders@.contains(leader));
                assert(!ls.contains(leader)) by {
                    if ls.contains(leader) {
                        let a = choose|a: int| 0 <= a < i && #[trigger] leaders@[a] == leader;
                        assert(leaders@[a] == leaders@[i as int]);
                    }
                }
                assert(ls.to_set().subset_of(mine)) by {
                    assert forall|x: Leader| ls.to_set().contains(x) implies mine.contains(x) by {
                        assert(ls.contains(x));
                        let a = choose|a: int| 0 <= a < i && #[trigger] leaders@[a] == x;
                        assert(leaders@.contains(x));
                    }
                }
                ls.unique_seq_to_set();
                vstd::set_lib::lemma_len_subset(ls.to_set(), mine);
            }
            if of_faction {
                if !self.ids.has_id_left() {
                    proof {
                        assert(mine.contains(leader));
                        assert(ls.push(leader).to_set().subset_of(mine)) by {
                            assert forall|x: Leader| ls.push(leader).to_set().contains(x) implies mine.contains(x) by {
                                if x != leader {
                                    assert(ls.push(leader).contains(x));
                                    let k = choose|k: int| 0 <= k < ls.len() + 1 && ls.push(leader)[k] == x;
                                    assert(ls.contains(x)) by { assert(ls[k] == x); }
                                    assert(ls.to_set().contains(x));
                                }
                            }
                        }
                        ls.push(leader).unique_seq_to_set();
                        vstd::set_lib::lemma_len_subset(ls.push(leader).to_set(), mine);
                    }
                    return Err(ServerError::OutOfIds);
                }
                let ghost before = views(self.outbox@);
                let leader_obj = self.ids.spawn(leader);
                let ghost bs = self.state@;
                let ghost bv = views(self.outbox@);
                self.generate(GameEvent::SpawnObject { spawn_type: SpawnType::Leader { player_id, leader: leader_obj } }, d)?;
                proof {
                    lemma_advance(s0, &old(self).data, start.len() as int, bv, bs, views(self.outbox@), self.state@);
                }
                proof {
                    let ls2 = ls.push(leader);
                    assert forall|x: Leader| ls2.contains(x) <==> old(self).data.leaders@[x].faction == faction && exists|a: int|
                        0 <= a < i + 1 && #[trigger] leaders@[a] == x by {
                        if x == leader {
                            assert(ls2[ls.len() as int] == x);
                        }
                        if ls2.contains(x) && x != leader {
                            let k = choose|k: int| 0 <= k < ls2.len() && ls2[k] == x;
                            assert(ls.contains(x)) by { assert(ls[k] == x); }
                        }
                        if x != leader && exists|a: int| 0 <= a < i + 1 && #[trigger] leaders@[a] == x {
                            let a = choose|a: int| 0 <= a < i + 1 && #[trigger] leaders@[a] == x;
                            assert(a < i);
                            if old(self).data.leaders@[x].faction == faction {
                                assert(ls.contains(x));
                                let k = choose|k: int| 0 <= k < ls.len() && ls[k] == x;
                                assert(ls2[k] == x);
                            }
                        }
                    }
                    assert forall|k: int| 0 <= k < ls2.len() implies spawns_leader(
                        #[trigger] views(self.outbox@)[start.len() + k],
                        player_id,
                        ls2[k],
                    ) by {
                        if k < ls.len() {
                            assert(views(self.outbox@)[start.len() + k] == before[start.len() + k]);
                        }
                    }
                    ls = ls2;
                }
            } else {
                proof {
                    assert forall|x: Leader| ls.contains(x) <==> old(self).data.leaders@[x].faction == faction && exists|a: int|
                        0 <= a < i + 1 && #[trigger] leaders@[a] == x by {
                        if old(self).data.leaders@[x].faction == faction && exists|a: int| 0 <= a < i + 1 && #[trigger] leaders@[a] == x {
                            let a = choose|a: int| 0 <= a < i + 1 && #[trigger] leaders@[a] == x;
                            if a == i {
                                assert(false);
                            }
                        }
                    }
                }
            }
            i = i + 1;
        }
        proof {
            assert(ls.to_set() =~= mine) by {
                assert forall|x: Leader| ls.to_set().contains(x) <==> mine.contains(x) by {
                    if mine.contains(x) {
                        assert(leaders@.contains(x));
                        let a = choose|a: int| 0 <= a < leaders@.len() && leaders@[a] == x;
                    }
                }
            }
            ls.unique_seq_to_set();
        }
        let special = match self.data.factions.get(&faction) {
            Some(faction_data) => faction_data.special_forces,
            None => {
                return Err(ServerError::MissingData);
            },
        };
        if special > 20 {
            return Err(ServerError::MissingData);
        }
        let ghost base = start.len() + ls.len();
        let mut n: u8 = 0;
        while n < 20 - special
            invariant
                replays(s0, &old(self).data, views(self.outbox@).skip(start.len() as int), self.state@),
                self.ready_players@ == old(self).ready_players@,
                self.keeps(old(self)),
                s0 == old(self).state@,
                start == views(old(self).outbox@),
                ids0 == old(self).ids,
                special <= 20,
                special == old(self).data.factions@[faction].special_forces,
                n <= 20 - special,
                base == start.len() + ls.len(),
                mine == leaders_of(&old(self).data, faction),
                ls.len() == mine.len(),
                self.state@.players.dom() == s0.players.dom(),
                views(self.outbox@).len() == base + n,
                forall|k: int| 0 <= k < ls.len() ==> spawns_leader(#[trigger] views(self.outbox@)[start.len() + k], player_id, ls[k]),
                forall|k: int| base <= k < base + n ==> spawns_troop(#[trigger] views(self.outbox@)[k], player_id, false),
                ids_left(self.ids) == ids_left(ids0) - ls.len() - n,
                ids0.free@.len() == 0 ==> self.ids.free@.len() == 0 && last_number(self.ids) == last_number(ids0)
                    + (views(self.outbox@).len() - start.len()) && fresh_ids_from(
                    views(self.outbox@),
                    start.len() as int,
                    views(self.outbox@).len() as int,
                    last_number(ids0),
                ),
                ls.len() + n > 0 ==> s0.players.dom().contains(player_id) && d > 0,
            decreases 20 - special - n,
        {
            if !self.ids.has_id_left() {
                return Err(ServerError::OutOfIds);
            }
            let ghost before = views(self.outbox@);
            let unit = self.ids.spawn(Troop { is_special: false });
            let ghost bs = self.state@;
            let ghost bv = views(self.outbox@);
            self.generate(GameEvent::SpawnObject { spawn_type: SpawnType::Troop { player_id, unit } }, d)?;
            proof {
                lemma_advance(s0, &old(self).data, start.len() as int, bv, bs, views(self.outbox@), self.state@);
            }
            proof {
                assert forall|k: int| 0 <= k < ls.len() implies spawns_leader(#[trigger] views(self.outbox@)[start.len() + k], player_id, ls[k]) by {
                    assert(views(self.outbox@)[start.len() + k] == before[start.len() + k]);
                }
                assert forall|k: int| base <= k < base + n + 1 implies spawns_troop(#[trigger] views(self.outbox@)[k], player_id, false) by {
                    if k < base + n {
                        assert(views(self.outbox@)[k] == before[k]);
                    }
                }
            }
            n = n + 1;
        }
        let mut m: u8 = 0;
        while m < special
            invariant
                replays(s0, &old(self).data, views(self.outbox@).skip(start.len() as int), self.state@),
                self.ready_players@ == old(self).ready_players@,
                self.keeps(old(self)),
                s0 == old(self).state@,
                start == views(old(self).outbox@),
                ids0 == old(self).ids,
                special <= 20,
                special == old(self).data.factions@[faction].special_forces,
                m <= special,
                base == start.len() + ls.len(),
                mine == leaders_of(&old(self).data, faction),
                ls.len() == mine.len(),
                self.state@.players.dom() == s0.players.dom(),
                views(self.outbox@).len() == base + 20 - special + m,
                forall|k: int| 0 <= k < ls.len() ==> spawns_leader(#[trigger] views(self.outbox@)[start.len() + k], player_id, ls[k]),
                forall|k: int| base <= k < base + 20 - special + m ==> spawns_troop(#[trigger] views(self.outbox@)[k], player_id, k >= base + 20 - special),
                ids_left(self.ids) == ids_left(ids0) - ls.len() - (20 - special) - m,
                ids0.free@.len() == 0 ==> self.ids.free@.len() == 0 && last_number(self.ids) == last_number(ids0)
                    + (views(self.outbox@).len() - start.len()) && fresh_ids_from(
                    views(self.outbox@),
                    start.len() as int,
                    views(self.outbox@).len() as int,
                    last_number(ids0),
                ),
                ls.len() + 20 - special + m > 0 ==> s0.players.dom().contains(player_id) && d > 0,
            decreases special - m,
        {
            if !self.ids.has_id_left() {
                return Err(ServerError::OutOfIds);
            }
            let ghost before = views(self.outbox@);
            let unit = self.ids.spawn(Troop { is_special: true });
            let ghost bs = self.state@;
            let ghost bv = views(self.outbox@);
            self.generate(GameEvent::SpawnObject { spawn_type: SpawnType::Troop { player_id, unit } }, d)?;
            proof {
                lemma_advance(s0, &old(self).data, start.len() as int, bv, bs, views(self.outbox@), self.state@);
            }
            proof {
                assert forall|k: int| 0 <= k < ls.len() implies spawns_leader(#[trigger] views(self.outbox@)[start.len() + k], player_id, ls[k]) by {
                    assert(views(self.outbox@)[start.len() + k] == before[start.len() + k]);
                }
                assert forall|k: int| base <= k < base + 20 - special + m + 1 implies spawns_troop(#[trigger] views(self.outbox@)[k], player_id, k >= base + 20 - special) by {
                    if k < base + 20 - special + m {
                        assert(views(self.outbox@)[k] == before[k]);
                    }
                }
            }
            m = m + 1;
        }
        proof {
            let sent = views(self.outbox@).skip(start.len() as int);
            assert(faction_spawns(sent, player_id, ls, special as int)) by {
                assert forall|k: int| 0 <= k < ls.len() implies spawns_leader(#[trigger] sent[k], player_id, ls[k]) by {
                    assert(sent[k] == views(self.outbox@)[start.len() + k]);
                }
                assert forall|k: int| ls.len() <= k < ls.len() + 20 implies spawns_troop(#[trigger] sent[k], player_id, k >= ls.len() + 20 - special) by {
                    assert(sent[k] == views(self.outbox@)[start.len() + k]);
                }
            }
        }
        Ok(())
    }

    /// Discards every traitor card of the player but the one kept.
    fn discard_traitors(&mut self, player_id: PlayerId, kept: ObjectId, d: u64) -> (r: Result<(), ServerError>)
        requires
            old(self).in_step(),
        ensures
            final(self).keeps(old(self)),
            !old(self).state@.players.dom().contains(player_id) ==> r == Err::<(), ServerError>(
                ServerError::MissingPlayer,
            ) && final(self).outbox@ == old(self).outbox@,
            d > 0 && old(self).state@.players.dom().contains(player_id) ==> r is Ok && exists|ids: Seq<ObjectId>|
                #![trigger discards(ids, player_id)]
                views(final(self).outbox@) == views(old(self).outbox@) + discards(ids, player_id) && names_each_once(
                    ids,
                    old(self).state@.players[player_id].traitor_cards.dom().remove(kept),
                ),
            d > 0 && r is Ok ==> replays(
                old(self).state@,
                &old(self).data,
                views(final(self).outbox@).skip(old(self).outbox@.len() as int),
                final(self).state@,
            ) && final(self).ready_players@ == old(self).ready_players@,
            d > 0 && r is Ok ==> final(self).ids == old(self).ids,
        decreases d, 4u64,
    {
        let ghost s0 = self.state@;
        let ghost start = views(self.outbox@);
        proof {
            lemma_replays_none(self.state@, &self.data);
            assert(views(self.outbox@).skip(start.len() as int) =~= Seq::<GameEventView>::empty());
        }
        let cards = match self.state.players.get(&player_id) {
            Some(player) => player.traitor_cards.objects(),
            None => {
                return Err(ServerError::MissingPlayer);
            },
        };
        let ghost held = s0.players[player_id].traitor_cards;
        let ghost mut ids: Seq<ObjectId> = Seq::empty();
        let mut i: usize = 0;
        while i < cards.len()
            invariant
                self.ids == old(self).ids,
                replays(s0, &old(self).data, views(self.outbox@).skip(start.len() as int), self.state@),
                self.ready_players@ == old(self).ready_players@,
                self.keeps(old(self)),
                s0 == old(self).state@,
                start == views(old(self).outbox@),
                s0.players.dom().contains(player_id),
                held == s0.players[player_id].traitor_cards,
                i <= cards@.len(),
                cards@.len() == held.len(),
                forall|a: int, b: int| 0 <= a < cards@.len() && 0 <= b < cards@.len() && a != b ==> cards@[a].id
                    != cards@[b].id,
                forall|a: int| 0 <= a < cards@.len() ==> held.dom().contains(#[trigger] cards@[a].id),
                forall|id: ObjectId| held.dom().contains(id) ==> exists|a: int| 0 <= a < cards@.len() && #[trigger] cards@[a].id == id,
                self.state@.players.dom().contains(player_id),
                views(self.outbox@) == start + discards(ids, player_id),
                ids.no_duplicates(),
                forall|x: ObjectId| ids.contains(x) <==> x != kept && exists|a: int| 0 <= a < i && #[trigger] cards@[a].id == x,
            decreases cards@.len() - i,
        {
            let card_id = cards[i].id;
            let ghost before = views(self.outbox@);
            if card_id != kept {
                let ghost bs = self.state@;
                let ghost bv = views(self.outbox@);
                self.generate(GameEvent::DiscardCard { player_id, card_id, to: DeckType::Traitor }, d)?;
                proof {
                    lemma_advance(s0, &old(self).data, start.len() as int, bv, bs, views(self.outbox@), self.state@);
                }
                proof {
                    assert(!ids.contains(card_id)) by {
                        if ids.contains(card_id) {
                            let a = choose|a: int| 0 <= a < i && #[trigger] cards@[a].id == card_id;
                            assert(cards@[a].id != cards@[i as int].id);
                        }
                    }
                    let ids2 = ids.push(card_id);
                    assert(discards(ids2, player_id) =~= discards(ids, player_id).push(
                        GameEventView::DiscardCard { player_id, card_id, to: DeckType::Traitor },
                    ));
                    assert(start + discards(ids2, player_id) =~= before.push(
                        GameEventView::DiscardCard { player_id, card_id, to: DeckType::Traitor },
                    ));
                    assert forall|x: ObjectId| ids2.contains(x) <==> x != kept && exists|a: int|
                        0 <= a < i + 1 && #[trigger] cards@[a].id == x by {
                        if x == card_id {
                            assert(ids2[ids.len() as int] == x);
                        }
                        if ids2.contains(x) && x != card_id {
                            let k = choose|k: int| 0 <= k < ids2.len() && ids2[k] == x;
                            assert(ids.contains(x)) by {
                                assert(ids[k] == x);
                            }
                        }
                        if x != kept && x != card_id && exists|a: int| 0 <= a < i + 1 && #[trigger] cards@[a].id == x {
                            let a = choose|a: int| 0 <= a < i + 1 && #[trigger] cards@[a].id == x;
                            assert(a < i);
                            assert(ids.contains(x));
                            let k = choose|k: int| 0 <= k < ids.len() && ids[k] == x;
                            assert(ids2[k] == x);
                        }
                    }
                    ids = ids2;
                }
            } else {
                assert forall|x: ObjectId| ids.contains(x) <==> x != kept && exists|a: int|
                    0 <= a < i + 1 && #[trigger] cards@[a].id == x by {
                    if x != kept && exists|a: int| 0 <= a < i + 1 && #[trigger] cards@[a].id == x {
                        let a = choose|a: int| 0 <= a < i + 1 && #[trigger] cards@[a].id == x;
                        assert(a < i);
                    }
                }
            }
            i = i + 1;
        }
        assert(names_each_once(ids, held.dom().remove(kept))) by {
            assert forall|x: ObjectId| ids.contains(x) <==> held.dom().remove(kept).contains(x) by {
                if held.dom().contains(x) {
                    let a = choose|a: int| 0 <= a < cards@.len() && #[trigger] cards@[a].id == x;
                }
            }
        }
        Ok(())
    }
}

/// The ids of `cards`, in order.
fn card_ids<C: Copy>(cards: &Vec<Object<C>>) -> (r: Vec<ObjectId>)
    ensures
        r@ == ids_of(cards@),
{
    let mut r: Vec<ObjectId> = Vec::new();
    let mut i: usize = 0;
    while i < cards.len()
        invariant
            i <= cards@.len(),
            r@ == ids_of(cards@.take(i as int)),
        decreases cards@.len() - i,
    {
        r.push(cards[i].id);
        assert(ids_of(cards@.take(i + 1)) =~= ids_of(cards@.take(i as int)).push(cards@[i as int].id));
        i = i + 1;
    }
    assert(cards@.take(cards@.len() as int) =~= cards@);
    r
}


impl Server {
    /// A client connected: it joins the lobby. Returns the events to send to
    /// that client alone, telling it of every player waiting, itself included.
    pub fn client_connected(&mut self, player_id: PlayerId) -> (r: Result<Vec<GameEvent>, ServerError>)
        requires
            old(self).in_step(),
        ensures
            final(self).follows(old(self)),
            final(self).waiting_players@ == old(self).waiting_players@.insert(player_id),
            final(self).ready_players@ == old(self).ready_players@,
            r is Ok,
            r matches Ok(v) ==> v@.len() == final(self).waiting_players@.len() && forall|p: PlayerId|
                final(self).waiting_players@.contains(p) <==> exists|i: int|
                    0 <= i < v@.len() && #[trigger] v@[i]@ == (GameEventView::PlayerJoined { player_id: p }),
            final(self).outbox@.len() == old(self).outbox@.len() + 1,
            final(self).outbox@.last()@ == (GameEventView::PlayerJoined { player_id }),
    {
        self.waiting_players.insert(player_id);
        let waiting = self.waiting_players.to_vec();
        let mut direct: Vec<GameEvent> = Vec::new();
        let mut i: usize = 0;
        while i < waiting.len()
            invariant
                i <= waiting@.len(),
                direct@.len() == i,
                forall|j: int| 0 <= j < i ==> #[trigger] direct@[j]@ == (GameEventView::PlayerJoined { player_id: waiting@[j] }),
            decreases waiting@.len() - i,
        {
            direct.push(GameEvent::PlayerJoined { player_id: waiting[i] });
            i = i + 1;
        }
        let ghost joined = self.waiting_players@;
        self.generate(GameEvent::PlayerJoined { player_id }, 1000)?;
        assert forall|p: PlayerId| joined.contains(p) <==> exists|i: int|
            0 <= i < direct@.len() && #[trigger] direct@[i]@ == (GameEventView::PlayerJoined { player_id: p }) by {
            if joined.contains(p) {
                assert(waiting@.contains(p));
                let j = choose|j: int| 0 <= j < waiting@.len() && waiting@[j] == p;
                assert(direct@[j]@ == (GameEventView::PlayerJoined { player_id: p }));
            }
            if exists|i: int| 0 <= i < direct@.len() && #[trigger] direct@[i]@ == (GameEventView::PlayerJoined { player_id: p }) {
                let j = choose|i: int| 0 <= i < direct@.len() && #[trigger] direct@[i]@ == (GameEventView::PlayerJoined { player_id: p });
                assert(waiting@[j] == p);
                assert(waiting@.contains(p));
            }
        }
        Ok(direct)
    }

    /// A client disconnected: it leaves the lobby and the game ends.
    pub fn client_disconnected(&mut self, player_id: PlayerId) -> (r: Result<(), ServerError>)
        requires
            old(self).in_step(),
        ensures
            final(self).follows(old(self)),
            final(self).waiting_players@ == old(self).waiting_players@.remove(player_id),
            final(self).ready_players@ == old(self).ready_players@.remove(player_id),
            r is Ok,
            final(self).outbox@.len() == old(self).outbox@.len() + 2,
            final(self).outbox@[old(self).outbox@.len() as int]@ == (GameEventView::PlayerDisconnected { player_id }),
            final(self).outbox@[old(self).outbox@.len() + 1int]@ == (GameEventView::EndGame {
                reason: EndGameReason::PlayerLeft { player_id },
            }),
            final(self).state@.phase == Phase::EndGame,
    {
        self.waiting_players.remove(&player_id);
        self.ready_players.remove(&player_id);
        self.generate(GameEvent::PlayerDisconnected { player_id }, 1000)?;
        self.generate(GameEvent::EndGame { reason: EndGameReason::PlayerLeft { player_id } }, 1000)
    }

    /// A client sent a lobby message. Returns whether to pass the message on to
    /// every client: lobby messages are ignored while fewer than two players are
    /// connected.
    pub fn lobby_message(&mut self, client: PlayerId, event: ServerEvent) -> (r: Result<bool, ServerError>)
        requires
            old(self).in_step(),
        ensures
            final(self).follows(old(self)),
            old(self).waiting_players@.len() + old(self).ready_players@.len() < 2 ==> r == Ok::<bool, ServerError>(false) && final(self).waiting_players@
                == old(self).waiting_players@ && final(self).ready_players@ == old(self).ready_players@,
            old(self).waiting_players@.len() + old(self).ready_players@.len() >= 2 && r is Ok ==> r == Ok::<bool, ServerError>(true),
            old(self).waiting_players@.len() + old(self).ready_players@.len() >= 2 && (event != ServerEvent::StartGame
                || !old(self).waiting_players@.contains(client) || old(self).waiting_players@.len() > 1) ==> r
                == Ok::<bool, ServerError>(true),
            old(self).waiting_players@.len() + old(self).ready_players@.len() >= 2 && event == ServerEvent::StartGame
                && old(self).waiting_players@.contains(client) ==> {
                &&& final(self).waiting_players@ == old(self).waiting_players@.remove(client)
                &&& (final(self).ready_players@ == old(self).ready_players@.insert(client) || final(self).ready_players@
                    == Set::<PlayerId>::empty())
            },
            old(self).waiting_players@.len() + old(self).ready_players@.len() >= 2 && (event != ServerEvent::StartGame
                || !old(self).waiting_players@.contains(client)) ==> {
                &&& final(self).waiting_players@ == old(self).waiting_players@
                &&& final(self).ready_players@ == old(self).ready_players@
                &&& final(self).outbox@ == old(self).outbox@
            },
            old(self).waiting_players@.len() + old(self).ready_players@.len() >= 2 && event == ServerEvent::StartGame
                && old(self).waiting_players@ == set![client] && old(self).state@.phase == Phase::EndGame ==> {
                &&& final(self).outbox@.len() > old(self).outbox@.len() + 1
                &&& final(self).outbox@[old(self).outbox@.len() as int]@ == GameEventView::AdvancePhase
                &&& final(self).outbox@[old(self).outbox@.len() + 1int]@ matches GameEventView::SetPlayOrder {
                    play_order,
                } && is_arrangement_of(play_order, old(self).ready_players@.insert(client))
            },
            old(self).waiting_players@.len() + old(self).ready_players@.len() >= 2 && event == ServerEvent::StartGame
                && old(self).waiting_players@ == set![client] ==> then_reacts(
                1000,
                old(self).state@,
                &old(self).data,
                ids_left(old(self).ids),
                old(self).ready_players@.insert(client),
                GameEventView::AdvancePhase,
                old(self).outbox@.len() as int,
                views(final(self).outbox@),
                error_of(r),
            ),
    {
        let waiting = self.waiting_players.len();
        let ready = self.ready_players.len();
        if waiting < 2 && ready < 2 - waiting {
            return Ok(false);
        }
        if event == ServerEvent::StartGame {
            if self.waiting_players.remove(&client) {
                self.ready_players.insert(client);
                if self.waiting_players.len() == 0 {
                    self.generate(GameEvent::AdvancePhase, 1000)?;
                }
            }
        }
        Ok(true)
    }
}


impl Server {
    /// A client sent a game event: a valid one is applied and sent to every
    /// client; an invalid one is dropped. Returns whether it was applied.
    pub fn client_event(&mut self, event: GameEvent) -> (r: Result<bool, ServerError>)
        requires
            old(self).in_step(),
        ensures
            final(self).follows(old(self)),
            !validatable(old(self).state@, &old(self).data, event@) ==> r == Err::<bool, ServerError>(ServerError::Unvalidatable)
                && final(self).outbox@ == old(self).outbox@ && final(self).state@ == old(self).state@,
            validatable(old(self).state@, &old(self).data, event@) && !valid(old(self).state@, &old(self).data, event@)
                ==> r == Ok::<bool, ServerError>(false) && final(self).outbox@ == old(self).outbox@ && final(self).state@
                == old(self).state@,
            !(validatable(old(self).state@, &old(self).data, event@) && valid(old(self).state@, &old(self).data, event@))
                ==> final(self).ready_players@ == old(self).ready_players@ && final(self).waiting_players@ == old(
                self,
            ).waiting_players@ && final(self).ids == old(self).ids,
            validatable(old(self).state@, &old(self).data, event@) && valid(old(self).state@, &old(self).data, event@)
                ==> {
                &&& r matches Ok(applied) ==> applied
                &&& consumable(old(self).state@, &old(self).data, event@) ==> final(self).outbox@.len() > old(
                    self,
                ).outbox@.len() && final(self).outbox@[old(self).outbox@.len() as int]@ == event@
                &&& !consumable(old(self).state@, &old(self).data, event@) ==> r == Err::<bool, ServerError>(
                    ServerError::Unconsumable,
                ) && final(self).outbox@.len() == old(self).outbox@.len()
                &&& then_reacts(
                    1000,
                    old(self).state@,
                    &old(self).data,
                    ids_left(old(self).ids),
                    old(self).ready_players@,
                    event@,
                    old(self).outbox@.len() as int,
                    views(final(self).outbox@),
                    error_of(r),
                )
            },
            validatable(old(self).state@, &old(self).data, event@) && valid(old(self).state@, &old(self).data, event@)
                && consumable(old(self).state@, &old(self).data, event@) && old(self).ids.free@.len() == 0 ==> (
            event@ matches GameEventView::ChooseFaction { faction, .. } ==> fresh_ids_from(
                views(final(self).outbox@),
                old(self).outbox@.len() + 1int,
                old(self).outbox@.len() + 1int + leaders_of(&old(self).data, faction).len() + 20,
                last_number(old(self).ids),
            )),
    {
        if !self.state.can_validate(&self.data, &event) {
            return Err(ServerError::Unvalidatable);
        }
        if self.state.validate(&self.data, &event) {
            self.generate(event, 1000)?;
            Ok(true)
        } else {
            Ok(false)
        }
    }
}

} // verus!
