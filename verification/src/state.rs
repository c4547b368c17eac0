use vstd::prelude::*;

use crate::collections::{AssocMap, KeySet, MapKey};
use crate::components::{
    Bonus, Faction, Leader, Location, LocationSector, SpiceCard, StormCard, TraitorCard, TreacheryCard, Troop,
};
use crate::object::{Object, ObjectId, ObjectSet};
use crate::phase::Phase;

verus! {

/// A player, known by the client id it connected with.
#[derive(Copy, Clone, Debug, PartialOrd, Ord, PartialEq, Eq, Structural, Hash)]
pub struct PlayerId(pub u64);

impl View for PlayerId {
    type V = PlayerId;

    open spec fn view(&self) -> PlayerId {
        *self
    }
}

impl MapKey for PlayerId {
    fn same(&self, other: &Self) -> (r: bool) {
        *self == *other
    }
}

/// The forces and leaders of a player that have been killed.
pub struct TleilaxuTanks {
    pub leaders: ObjectSet<Leader>,
    pub forces: ObjectSet<Troop>,
}

#[verifier::ext_equal]
pub struct TanksView {
    pub leaders: Map<ObjectId, Leader>,
    pub forces: Map<ObjectId, Troop>,
}

impl View for TleilaxuTanks {
    type V = TanksView;

    open spec fn view(&self) -> TanksView {
        TanksView { leaders: self.leaders@, forces: self.forces@ }
    }
}

impl Default for TleilaxuTanks {
    fn default() -> (r: Self)
        ensures
            r@ == (TanksView { leaders: Map::empty(), forces: Map::empty() }),
    {
        TleilaxuTanks { leaders: ObjectSet::new(), forces: ObjectSet::new() }
    }
}

pub struct Player {
    pub faction: Faction,
    pub treachery_cards: ObjectSet<TreacheryCard>,
    pub traitor_cards: ObjectSet<TraitorCard>,
    pub spice: u8,
    /// The player's leaders that are alive, and whether each has been revived.
    pub living_leaders: AssocMap<ObjectId, (Leader, bool)>,
    pub offworld_forces: ObjectSet<Troop>,
    pub shipped: bool,
    pub tanks: TleilaxuTanks,
    pub bonuses: KeySet<Bonus>,
}

#[verifier::ext_equal]
pub struct PlayerView {
    pub faction: Faction,
    pub treachery_cards: Map<ObjectId, TreacheryCard>,
    pub traitor_cards: Map<ObjectId, TraitorCard>,
    pub spice: u8,
    pub living_leaders: Map<ObjectId, (Leader, bool)>,
    pub offworld_forces: Map<ObjectId, Troop>,
    pub shipped: bool,
    pub tanks: TanksView,
    pub bonuses: Set<Bonus>,
}

impl View for Player {
    type V = PlayerView;

    open spec fn view(&self) -> PlayerView {
        PlayerView {
            faction: self.faction,
            treachery_cards: self.treachery_cards@,
            traitor_cards: self.traitor_cards@,
            spice: self.spice,
            living_leaders: self.living_leaders@,
            offworld_forces: self.offworld_forces@,
            shipped: self.shipped,
            tanks: self.tanks@,
            bonuses: self.bonuses@,
        }
    }
}

/// A player who has just picked `faction` and starts with `spice`.
pub open spec fn new_player_view(faction: Faction, spice: u8) -> PlayerView {
    PlayerView {
        faction,
        treachery_cards: Map::empty(),
        traitor_cards: Map::empty(),
        spice,
        living_leaders: Map::empty(),
        offworld_forces: Map::empty(),
        shipped: false,
        tanks: TanksView { leaders: Map::empty(), forces: Map::empty() },
        bonuses: Set::empty(),
    }
}

impl Player {
    /// A player who has just picked `faction` and starts with `spice`.
    pub fn new(faction: Faction, spice: u8) -> (r: Player)
        ensures
            r@ == new_player_view(faction, spice),
    {
        let r = Player {
            faction,
            treachery_cards: ObjectSet::new(),
            traitor_cards: ObjectSet::new(),
            spice,
            living_leaders: AssocMap::new(),
            offworld_forces: ObjectSet::new(),
            shipped: false,
            tanks: TleilaxuTanks::default(),
            bonuses: KeySet::new(),
        };
        assert(r@ =~= new_player_view(faction, spice));
        r
    }
}

#[derive(Copy, Clone, Debug, PartialEq, Eq, Structural)]
pub struct Bid {
    pub player_id: PlayerId,
    pub spice: u8,
}

/// A treachery card up for auction.
pub struct BidState {
    pub card: Object<TreacheryCard>,
    pub current_bid: Option<Bid>,
    pub passed: KeySet<PlayerId>,
}

#[verifier::ext_equal]
pub struct BidStateView {
    pub card: Object<TreacheryCard>,
    pub current_bid: Option<Bid>,
    pub passed: Set<PlayerId>,
}

impl View for BidState {
    type V = BidStateView;

    open spec fn view(&self) -> BidStateView {
        BidStateView { card: self.card, current_bid: self.current_bid, passed: self.passed@ }
    }
}

/// A question put to a player.
pub enum Prompt {
    /// Pick one of the factions not taken yet.
    Faction { remaining: KeySet<Faction> },
    Traitor,
    FactionPrediction,
    TurnPrediction,
    GuildShip,
}

#[verifier::ext_equal]
pub enum PromptView {
    Faction { remaining: Set<Faction> },
    Traitor,
    FactionPrediction,
    TurnPrediction,
    GuildShip,
}

impl View for Prompt {
    type V = PromptView;

    open spec fn view(&self) -> PromptView {
        match self {
            Prompt::Faction { remaining } => PromptView::Faction { remaining: remaining@ },
            Prompt::Traitor => PromptView::Traitor,
            Prompt::FactionPrediction => PromptView::FactionPrediction,
            Prompt::TurnPrediction => PromptView::TurnPrediction,
            Prompt::GuildShip => PromptView::GuildShip,
        }
    }
}

/// A connected client that has not taken a faction yet, with the question
/// it is waiting to answer.
pub struct UnpickedPlayer {
    pub prompt: Option<Prompt>,
}

impl Default for UnpickedPlayer {
    fn default() -> (r: Self)
        ensures
            r.prompt.is_none(),
    {
        UnpickedPlayer { prompt: None }
    }
}

/// The Bene Gesserit's secret prediction of who wins and when.
#[derive(Copy, Clone, Debug, PartialEq, Eq, Structural)]
pub struct BeneGesseritPredictions {
    pub faction: Option<Faction>,
    pub turn: Option<u8>,
}

impl Default for BeneGesseritPredictions {
    fn default() -> (r: Self)
        ensures
            r.faction.is_none(),
            r.turn.is_none(),
    {
        BeneGesseritPredictions { faction: None, turn: None }
    }
}

/// A deck: the cards to draw, the top being the last, and the discard pile.
pub struct Deck<C> {
    pub cards: Vec<Object<C>>,
    pub discard: Vec<Object<C>>,
}

#[verifier::ext_equal]
pub struct DeckView<C> {
    pub cards: Seq<Object<C>>,
    pub discard: Seq<Object<C>>,
}

impl<C> View for Deck<C> {
    type V = DeckView<C>;

    open spec fn view(&self) -> DeckView<C> {
        DeckView { cards: self.cards@, discard: self.discard@ }
    }
}

/// `j` is the first position in `cards` of a card with id `id`.
pub open spec fn is_first_with_id<C>(cards: Seq<Object<C>>, id: ObjectId, j: int) -> bool {
    &&& 0 <= j < cards.len()
    &&& cards[j].id == id
    &&& forall|k: int| 0 <= k < j ==> cards[k].id != id
}

/// The first card in `cards` with id `id`.
pub open spec fn first_with_id<C>(cards: Seq<Object<C>>, id: ObjectId) -> Object<C> {
    cards[choose|j: int| is_first_with_id(cards, id, j)]
}

/// The cards in the order `order` names them, each taken from `cards`.
pub open spec fn ordered_cards<C>(cards: Seq<Object<C>>, order: Seq<ObjectId>) -> Seq<Object<C>> {
    order.map_values(|id: ObjectId| first_with_id(cards, id))
}

/// Whether `order` names each card of `cards` exactly once.
pub open spec fn is_order_of<C>(cards: Seq<Object<C>>, order: Seq<ObjectId>) -> bool {
    &&& order.no_duplicates()
    &&& order.len() == cards.len()
    &&& forall|i: int| 0 <= i < order.len() ==> has_card(cards, #[trigger] order[i])
}

/// Some card of `cards` has id `id`.
pub open spec fn has_card<C>(cards: Seq<Object<C>>, id: ObjectId) -> bool {
    exists|j: int| 0 <= j < cards.len() && cards[j].id == id
}

impl<C: Copy> Default for Deck<C> {
    fn default() -> (r: Self)
        ensures
            r@.cards.len() == 0,
            r@.discard.len() == 0,
    {
        Deck { cards: Vec::new(), discard: Vec::new() }
    }
}


impl<C: Copy> Deck<C> {
    /// Puts `card` on top of the deck.
    pub fn add(&mut self, card: Object<C>)
        ensures
            final(self)@ == (DeckView { cards: old(self)@.cards.push(card), discard: old(self)@.discard }),
    {
        self.cards.push(card);
    }

    /// Takes the top card, if there is one.
    pub fn draw(&mut self) -> (r: Option<Object<C>>)
        ensures
            old(self)@.cards.len() == 0 ==> r.is_none() && final(self)@ == old(self)@,
            old(self)@.cards.len() > 0 ==> r == Some(old(self)@.cards.last()) && final(self)@ == (DeckView {
                cards: old(self)@.cards.drop_last(),
                discard: old(self)@.discard,
            }),
    {
        self.cards.pop()
    }

    /// Puts `card` on the discard pile.
    pub fn discard(&mut self, card: Object<C>)
        ensures
            final(self)@ == (DeckView { cards: old(self)@.cards, discard: old(self)@.discard.push(card) }),
    {
        self.discard.push(card);
    }

    /// The card discarded last, if any.
    pub fn last_discarded(&self) -> (r: Option<&Object<C>>)
        ensures
            self@.discard.len() == 0 ==> r.is_none(),
            self@.discard.len() > 0 ==> r == Some(&self@.discard.last()),
    {
        if self.discard.len() == 0 {
            None
        } else {
            Some(&self.discard[self.discard.len() - 1])
        }
    }

    fn position_of(&self, id: ObjectId) -> (r: usize)
        requires
            exists|j: int| 0 <= j < self@.cards.len() && self@.cards[j].id == id,
        ensures
            is_first_with_id(self@.cards, id, r as int),
            self@.cards[r as int] == first_with_id(self@.cards, id),
    {
        let mut i: usize = 0;
        while i < self.cards.len()
            invariant
                i <= self@.cards.len(),
                forall|k: int| 0 <= k < i ==> self@.cards[k].id != id,
                exists|j: int| 0 <= j < self@.cards.len() && self@.cards[j].id == id,
            decreases self@.cards.len() - i,
        {
            if self.cards[i].id == id {
                proof {
                    let c = choose|j: int| is_first_with_id(self@.cards, id, j);
                    assert(is_first_with_id(self@.cards, id, i as int));
                    if c < i {
                    } else if c > i {
                    }
                }
                return i;
            }
            i = i + 1;
        }
        proof {
            let j = choose|j: int| 0 <= j < self@.cards.len() && self@.cards[j].id == id;
            assert(self@.cards[j].id != id);
        }
        0
    }

    /// Rearranges the cards into the order that `order` names them in.
    pub fn set_order(&mut self, order: Vec<ObjectId>)
        requires
            is_order_of(old(self)@.cards, order@),
        ensures
            final(self)@ == (DeckView {
                cards: ordered_cards(old(self)@.cards, order@),
                discard: old(self)@.discard,
            }),
    {
        let mut cards: Vec<Object<C>> = Vec::new();
        let mut i: usize = 0;
        while i < order.len()
            invariant
                i <= order@.len(),
                is_order_of(self@.cards, order@),
                cards@.len() == i,
                forall|k: int| 0 <= k < i ==> cards@[k] == first_with_id(self@.cards, #[trigger] order@[k]),
            decreases order@.len() - i,
        {
            let id = order[i];
            assert(has_card(self@.cards, order@[i as int]));
            let p = self.position_of(id);
            cards.push(self.cards[p]);
            i = i + 1;
        }
        assert(cards@ =~= ordered_cards(self@.cards, order@));
        self.cards = cards;
    }
}

/// All the decks of the game.
pub struct Decks {
    pub traitor: Deck<TraitorCard>,
    pub treachery: Deck<TreacheryCard>,
    pub storm: Deck<StormCard>,
    pub spice: Deck<SpiceCard>,
}

#[verifier::ext_equal]
pub struct DecksView {
    pub traitor: DeckView<TraitorCard>,
    pub treachery: DeckView<TreacheryCard>,
    pub storm: DeckView<StormCard>,
    pub spice: DeckView<SpiceCard>,
}

impl View for Decks {
    type V = DecksView;

    open spec fn view(&self) -> DecksView {
        DecksView { traitor: self.traitor@, treachery: self.treachery@, storm: self.storm@, spice: self.spice@ }
    }
}

/// No deck holds a card, neither to draw nor discarded.
pub open spec fn decks_empty(d: DecksView) -> bool {
    &&& d.traitor.cards.len() == 0
    &&& d.traitor.discard.len() == 0
    &&& d.treachery.cards.len() == 0
    &&& d.treachery.discard.len() == 0
    &&& d.storm.cards.len() == 0
    &&& d.storm.discard.len() == 0
    &&& d.spice.cards.len() == 0
    &&& d.spice.discard.len() == 0
}

impl Default for Decks {
    fn default() -> (r: Self)
        ensures
            decks_empty(r@),
    {
        Decks { traitor: Deck::default(), treachery: Deck::default(), storm: Deck::default(), spice: Deck::default() }
    }
}

impl Decks {
    /// Whether no deck holds a card, neither to draw nor discarded.
    pub fn is_empty(&self) -> (r: bool)
        ensures
            r == decks_empty(self@),
    {
        self.traitor.cards.len() == 0 && self.traitor.discard.len() == 0 && self.treachery.cards.len() == 0
            && self.treachery.discard.len() == 0 && self.storm.cards.len() == 0 && self.storm.discard.len() == 0
            && self.spice.cards.len() == 0 && self.spice.discard.len() == 0
    }
}

#[derive(Copy, Clone, Debug, PartialEq, Eq, Structural)]
pub enum DeckType {
    Traitor,
    Treachery,
    Storm,
    Spice,
}

/// The forces one player has in one sector.
pub struct Forces {
    pub forces: ObjectSet<Troop>,
}

impl View for Forces {
    type V = Map<ObjectId, Troop>;

    open spec fn view(&self) -> Map<ObjectId, Troop> {
        self.forces@
    }
}

impl Default for Forces {
    fn default() -> (r: Self)
        ensures
            r@ == Map::<ObjectId, Troop>::empty(),
    {
        Forces { forces: ObjectSet::new() }
    }
}

/// What lies in one sector of a territory.
pub struct SectorState {
    pub forces: AssocMap<PlayerId, Forces>,
    pub spice: u8,
}

#[verifier::ext_equal]
pub struct SectorView {
    pub forces: Map<PlayerId, Map<ObjectId, Troop>>,
    pub spice: u8,
}

impl View for SectorState {
    type V = SectorView;

    open spec fn view(&self) -> SectorView {
        SectorView { forces: self.forces@, spice: self.spice }
    }
}

pub open spec fn empty_sector() -> SectorView {
    SectorView { forces: Map::empty(), spice: 0 }
}

impl Default for SectorState {
    fn default() -> (r: Self)
        ensures
            r@ == empty_sector(),
    {
        let r = SectorState { forces: AssocMap::new(), spice: 0 };
        assert(r@ =~= empty_sector());
        r
    }
}

/// What lies in one territory.
pub struct LocationState {
    pub sectors: AssocMap<u8, SectorState>,
    pub worm: Option<ObjectId>,
}

#[verifier::ext_equal]
pub struct LocationView {
    pub sectors: Map<u8, SectorView>,
    pub worm: Option<ObjectId>,
}

impl View for LocationState {
    type V = LocationView;

    open spec fn view(&self) -> LocationView {
        LocationView { sectors: self.sectors@, worm: self.worm }
    }
}

pub open spec fn empty_location() -> LocationView {
    LocationView { sectors: Map::empty(), worm: None }
}

impl Default for LocationState {
    fn default() -> (r: Self)
        ensures
            r@ == empty_location(),
    {
        let r = LocationState { sectors: AssocMap::new(), worm: None };
        assert(r@ =~= empty_location());
        r
    }
}

#[derive(Copy, Clone, Debug, PartialEq, Eq, Structural)]
pub enum EndGameReason {
    PlayerLeft { player_id: PlayerId },
}

/// A game object brought into play.
#[derive(Copy, Clone, Debug)]
pub enum SpawnType {
    Leader { player_id: PlayerId, leader: Object<Leader> },
    Troop { player_id: PlayerId, unit: Object<Troop> },
    TraitorCard(Object<TraitorCard>),
    TreacheryCard(Object<TreacheryCard>),
    SpiceCard(Object<SpiceCard>),
    StormCard(Object<StormCard>),
    Worm { location: Location, id: ObjectId },
}

#[allow(inconsistent_fields)]
/// Everything that can happen in a game. Clients and the server apply the same
/// events to their copies of the game state.
pub enum GameEvent {
    EndGame { reason: EndGameReason },
    PlayerJoined { player_id: PlayerId },
    PlayerDisconnected { player_id: PlayerId },
    SetActive { player_id: PlayerId },
    Pass,
    StartRound,
    AdvancePhase,
    SpawnObject { spawn_type: SpawnType },
    ShowPrompt { player_id: PlayerId, prompt: Prompt },
    SetPlayOrder { play_order: Vec<PlayerId> },
    DealCard { player_id: PlayerId, from: DeckType },
    DiscardCard { player_id: PlayerId, card_id: ObjectId, to: DeckType },
    SetDeckOrder { deck_order: Vec<ObjectId>, deck_type: DeckType },
    ChooseFaction { player_id: PlayerId, faction: Faction },
    ChooseTraitor { player_id: PlayerId, card_id: ObjectId },
    MakeFactionPrediction { faction: Faction },
    MakeTurnPrediction { turn: u8 },
    CollectSpice { player_id: PlayerId, spice: u8, from: Option<LocationSector> },
    Bribe { player_id: PlayerId, other_player_id: PlayerId, spice: u8 },
    ShipForces { player_id: PlayerId, to: LocationSector, forces: KeySet<ObjectId> },
    MoveForces { player_id: PlayerId, path: Vec<LocationSector>, forces: KeySet<ObjectId> },
    RevealStorm,
    MoveStorm { sectors: u8 },
    RevealSpiceBlow,
    PlaceSpice { location: LocationSector, spice: u8 },
    RideTheWorm { location: Location },
    StartBidding,
    MakeBid { player_id: PlayerId, spice: Option<u8> },
    WinBid { player_id: PlayerId, card_id: ObjectId },
    Revive { player_id: PlayerId, forces: KeySet<ObjectId>, leader: Option<ObjectId> },
    SetBattlePlan { player_id: PlayerId, forces: u8, leader: Option<ObjectId>, treachery_cards: Vec<ObjectId> },
}

#[allow(inconsistent_fields)]
/// What an event says, its collections taken by their views.
#[verifier::ext_equal]
pub enum GameEventView {
    EndGame { reason: EndGameReason },
    PlayerJoined { player_id: PlayerId },
    PlayerDisconnected { player_id: PlayerId },
    SetActive { player_id: PlayerId },
    Pass,
    StartRound,
    AdvancePhase,
    SpawnObject { spawn_type: SpawnType },
    ShowPrompt { player_id: PlayerId, prompt: PromptView },
    SetPlayOrder { play_order: Seq<PlayerId> },
    DealCard { player_id: PlayerId, from: DeckType },
    DiscardCard { player_id: PlayerId, card_id: ObjectId, to: DeckType },
    SetDeckOrder { deck_order: Seq<ObjectId>, deck_type: DeckType },
    ChooseFaction { player_id: PlayerId, faction: Faction },
    ChooseTraitor { player_id: PlayerId, card_id: ObjectId },
    MakeFactionPrediction { faction: Faction },
    MakeTurnPrediction { turn: u8 },
    CollectSpice { player_id: PlayerId, spice: u8, from: Option<LocationSector> },
    Bribe { player_id: PlayerId, other_player_id: PlayerId, spice: u8 },
    ShipForces { player_id: PlayerId, to: LocationSector, forces: Set<ObjectId> },
    MoveForces { player_id: PlayerId, path: Seq<LocationSector>, forces: Set<ObjectId> },
    RevealStorm,
    MoveStorm { sectors: u8 },
    RevealSpiceBlow,
    PlaceSpice { location: LocationSector, spice: u8 },
    RideTheWorm { location: Location },
    StartBidding,
    MakeBid { player_id: PlayerId, spice: Option<u8> },
    WinBid { player_id: PlayerId, card_id: ObjectId },
    Revive { player_id: PlayerId, forces: Set<ObjectId>, leader: Option<ObjectId> },
    SetBattlePlan { player_id: PlayerId, forces: u8, leader: Option<ObjectId>, treachery_cards: Seq<ObjectId> },
}

impl View for GameEvent {
    type V = GameEventView;

    open spec fn view(&self) -> GameEventView {
        match self {
            GameEvent::EndGame { reason } => GameEventView::EndGame { reason: *reason },
            GameEvent::PlayerJoined { player_id } => GameEventView::PlayerJoined { player_id: *player_id },
            GameEvent::PlayerDisconnected { player_id } => GameEventView::PlayerDisconnected { player_id: *player_id },
            GameEvent::SetActive { player_id } => GameEventView::SetActive { player_id: *player_id },
            GameEvent::Pass => GameEventView::Pass,
            GameEvent::StartRound => GameEventView::StartRound,
            GameEvent::AdvancePhase => GameEventView::AdvancePhase,
            GameEvent::SpawnObject { spawn_type } => GameEventView::SpawnObject { spawn_type: *spawn_type },
            GameEvent::ShowPrompt { player_id, prompt } => GameEventView::ShowPrompt { player_id: *player_id, prompt: prompt@ },
            GameEvent::SetPlayOrder { play_order } => GameEventView::SetPlayOrder { play_order: play_order@ },
            GameEvent::DealCard { player_id, from } => GameEventView::DealCard { player_id: *player_id, from: *from },
            GameEvent::DiscardCard { player_id, card_id, to } => GameEventView::DiscardCard { player_id: *player_id, card_id: *card_id, to: *to },
            GameEvent::SetDeckOrder { deck_order, deck_type } => GameEventView::SetDeckOrder { deck_order: deck_order@, deck_type: *deck_type },
            GameEvent::ChooseFaction { player_id, faction } => GameEventView::ChooseFaction { player_id: *player_id, faction: *faction },
            GameEvent::ChooseTraitor { player_id, card_id } => GameEventView::ChooseTraitor { player_id: *player_id, card_id: *card_id },
            GameEvent::MakeFactionPrediction { faction } => GameEventView::MakeFactionPrediction { faction: *faction },
            GameEvent::MakeTurnPrediction { turn } => GameEventView::MakeTurnPrediction { turn: *turn },
            GameEvent::CollectSpice { player_id, spice, from } => GameEventView::CollectSpice { player_id: *player_id, spice: *spice, from: *from },
            GameEvent::Bribe { player_id, other_player_id, spice } => GameEventView::Bribe { player_id: *player_id, other_player_id: *other_player_id, spice: *spice },
            GameEvent::ShipForces { player_id, to, forces } => GameEventView::ShipForces { player_id: *player_id, to: *to, forces: forces@ },
            GameEvent::MoveForces { player_id, path, forces } => GameEventView::MoveForces { player_id: *player_id, path: path@, forces: forces@ },
            GameEvent::RevealStorm => GameEventView::RevealStorm,
            GameEvent::MoveStorm { sectors } => GameEventView::MoveStorm { sectors: *sectors },
            GameEvent::RevealSpiceBlow => GameEventView::RevealSpiceBlow,
            GameEvent::PlaceSpice { location, spice } => GameEventView::PlaceSpice { location: *location, spice: *spice },
            GameEvent::RideTheWorm { location } => GameEventView::RideTheWorm { location: *location },
            GameEvent::StartBidding => GameEventView::StartBidding,
            GameEvent::MakeBid { player_id, spice } => GameEventView::MakeBid { player_id: *player_id, spice: *spice },
            GameEvent::WinBid { player_id, card_id } => GameEventView::WinBid { player_id: *player_id, card_id: *card_id },
            GameEvent::Revive { player_id, forces, leader } => GameEventView::Revive { player_id: *player_id, forces: forces@, leader: *leader },
            GameEvent::SetBattlePlan { player_id, forces, leader, treachery_cards } => GameEventView::SetBattlePlan { player_id: *player_id, forces: *forces, leader: *leader, treachery_cards: treachery_cards@ },
        }
    }
}

impl GameEvent {
    /// An event equal to this one.
    pub fn duplicate(&self) -> (r: GameEvent)
        ensures
            r@ == self@,
    {
        match self {
            GameEvent::EndGame { reason } => GameEvent::EndGame { reason: *reason },
            GameEvent::PlayerJoined { player_id } => GameEvent::PlayerJoined { player_id: *player_id },
            GameEvent::PlayerDisconnected { player_id } => GameEvent::PlayerDisconnected { player_id: *player_id },
            GameEvent::SetActive { player_id } => GameEvent::SetActive { player_id: *player_id },
            GameEvent::Pass => GameEvent::Pass,
            GameEvent::StartRound => GameEvent::StartRound,
            GameEvent::AdvancePhase => GameEvent::AdvancePhase,
            GameEvent::SpawnObject { spawn_type } => GameEvent::SpawnObject { spawn_type: *spawn_type },
            GameEvent::ShowPrompt { player_id, prompt } => GameEvent::ShowPrompt { player_id: *player_id, prompt: prompt.duplicate() },
            GameEvent::SetPlayOrder { play_order } => GameEvent::SetPlayOrder { play_order: copy_vec(play_order) },
            GameEvent::DealCard { player_id, from } => GameEvent::DealCard { player_id: *player_id, from: *from },
            GameEvent::DiscardCard { player_id, card_id, to } => GameEvent::DiscardCard { player_id: *player_id, card_id: *card_id, to: *to },
            GameEvent::SetDeckOrder { deck_order, deck_type } => GameEvent::SetDeckOrder { deck_order: copy_vec(deck_order), deck_type: *deck_type },
            GameEvent::ChooseFaction { player_id, faction } => GameEvent::ChooseFaction { player_id: *player_id, faction: *faction },
            GameEvent::ChooseTraitor { player_id, card_id } => GameEvent::ChooseTraitor { player_id: *player_id, card_id: *card_id },
            GameEvent::MakeFactionPrediction { faction } => GameEvent::MakeFactionPrediction { faction: *faction },
            GameEvent::MakeTurnPrediction { turn } => GameEvent::MakeTurnPrediction { turn: *turn },
            GameEvent::CollectSpice { player_id, spice, from } => GameEvent::CollectSpice { player_id: *player_id, spice: *spice, from: *from },
            GameEvent::Bribe { player_id, other_player_id, spice } => GameEvent::Bribe { player_id: *player_id, other_player_id: *other_player_id, spice: *spice },
            GameEvent::ShipForces { player_id, to, forces } => GameEvent::ShipForces { player_id: *player_id, to: *to, forces: forces.duplicate() },
            GameEvent::MoveForces { player_id, path, forces } => GameEvent::MoveForces { player_id: *player_id, path: copy_vec(path), forces: forces.duplicate() },
            GameEvent::RevealStorm => GameEvent::RevealStorm,
            GameEvent::MoveStorm { sectors } => GameEvent::MoveStorm { sectors: *sectors },
            GameEvent::RevealSpiceBlow => GameEvent::RevealSpiceBlow,
            GameEvent::PlaceSpice { location, spice } => GameEvent::PlaceSpice { location: *location, spice: *spice },
            GameEvent::RideTheWorm { location } => GameEvent::RideTheWorm { location: *location },
            GameEvent::StartBidding => GameEvent::StartBidding,
            GameEvent::MakeBid { player_id, spice } => GameEvent::MakeBid { player_id: *player_id, spice: *spice },
            GameEvent::WinBid { player_id, card_id } => GameEvent::WinBid { player_id: *player_id, card_id: *card_id },
            GameEvent::Revive { player_id, forces, leader } => GameEvent::Revive { player_id: *player_id, forces: forces.duplicate(), leader: *leader },
            GameEvent::SetBattlePlan { player_id, forces, leader, treachery_cards } => GameEvent::SetBattlePlan { player_id: *player_id, forces: *forces, leader: *leader, treachery_cards: copy_vec(treachery_cards) },
        }
    }
}

/// The state of a game, rebuilt on every machine from the events of the game.
pub struct GameState {
    pub phase: Phase,
    pub game_turn: u8,
    pub active_player: Option<PlayerId>,
    pub players: AssocMap<PlayerId, Player>,
    pub play_order: Vec<PlayerId>,
    pub factions: AssocMap<Faction, PlayerId>,
    pub prompts: AssocMap<PlayerId, Prompt>,
    pub decks: Decks,
    pub board: AssocMap<Location, LocationState>,
    pub storm_sector: u8,
    /// The storm card revealed this turn, until the storm has moved.
    pub storm_card: Option<Object<StormCard>>,
    /// The spice card revealed this turn, until its spice is placed.
    pub spice_card: Option<Object<SpiceCard>>,
    pub bidding_cards: Vec<BidState>,
    /// The territory card that the worm appeared on, once there is a nexus.
    pub nexus: Option<Object<SpiceCard>>,
    pub bg_predictions: BeneGesseritPredictions,
    /// The most recent events, at most ten of them.
    pub history: std::collections::VecDeque<GameEvent>,
}

#[verifier::ext_equal]
pub struct GameStateView {
    pub phase: Phase,
    pub game_turn: u8,
    pub active_player: Option<PlayerId>,
    pub players: Map<PlayerId, PlayerView>,
    pub play_order: Seq<PlayerId>,
    pub factions: Map<Faction, PlayerId>,
    pub prompts: Map<PlayerId, PromptView>,
    pub decks: DecksView,
    pub board: Map<Location, LocationView>,
    pub storm_sector: u8,
    pub storm_card: Option<Object<StormCard>>,
    pub spice_card: Option<Object<SpiceCard>>,
    pub bidding_cards: Seq<BidStateView>,
    pub nexus: Option<Object<SpiceCard>>,
    pub bg_predictions: BeneGesseritPredictions,
    pub history: Seq<GameEventView>,
}

impl View for GameState {
    type V = GameStateView;

    open spec fn view(&self) -> GameStateView {
        GameStateView {
            phase: self.phase,
            game_turn: self.game_turn,
            active_player: self.active_player,
            players: self.players@,
            play_order: self.play_order@,
            factions: self.factions@,
            prompts: self.prompts@,
            decks: self.decks@,
            board: self.board@,
            storm_sector: self.storm_sector,
            storm_card: self.storm_card,
            spice_card: self.spice_card,
            bidding_cards: self.bidding_cards@.map_values(|b: BidState| b@),
            nexus: self.nexus,
            bg_predictions: self.bg_predictions,
            history: self.history@.map_values(|e: GameEvent| e@),
        }
    }
}

/// The state of a game that has not started.
pub open spec fn initial_state() -> GameStateView {
    GameStateView {
        phase: Phase::EndGame,
        game_turn: 0,
        active_player: None,
        players: Map::empty(),
        play_order: Seq::empty(),
        factions: Map::empty(),
        prompts: Map::empty(),
        decks: DecksView {
            traitor: DeckView { cards: Seq::empty(), discard: Seq::empty() },
            treachery: DeckView { cards: Seq::empty(), discard: Seq::empty() },
            storm: DeckView { cards: Seq::empty(), discard: Seq::empty() },
            spice: DeckView { cards: Seq::empty(), discard: Seq::empty() },
        },
        board: Map::empty(),
        storm_sector: 0,
        storm_card: None,
        spice_card: None,
        bidding_cards: Seq::empty(),
        nexus: None,
        bg_predictions: BeneGesseritPredictions { faction: None, turn: None },
        history: Seq::empty(),
    }
}

impl Default for GameState {
    fn default() -> (r: Self)
        ensures
            r@ == initial_state(),
    {
        let r = GameState {
            phase: Phase::default(),
            game_turn: 0,
            active_player: None,
            players: AssocMap::new(),
            play_order: Vec::new(),
            factions: AssocMap::new(),
            prompts: AssocMap::new(),
            decks: Decks::default(),
            board: AssocMap::new(),
            storm_sector: 0,
            storm_card: None,
            spice_card: None,
            bidding_cards: Vec::new(),
            nexus: None,
            bg_predictions: BeneGesseritPredictions::default(),
            history: std::collections::VecDeque::new(),
        };
        assert(r@.decks =~= initial_state().decks);
        assert(r@.bidding_cards =~= Seq::<BidStateView>::empty());
        assert(r@ =~= initial_state());
        r
    }
}

/// A copy of `v`.
pub fn copy_vec<T: Copy>(v: &Vec<T>) -> (r: Vec<T>)
    ensures
        r@ == v@,
{
    let mut r: Vec<T> = Vec::new();
    let mut i: usize = 0;
    while i < v.len()
        invariant
            i <= v@.len(),
            r@ == v@.take(i as int),
        decreases v@.len() - i,
    {
        r.push(v[i]);
        assert(v@.take(i + 1) =~= v@.take(i as int).push(v@[i as int]));
        i = i + 1;
    }
    assert(v@.take(v@.len() as int) =~= v@);
    r
}

} // verus!
