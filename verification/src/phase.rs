use vstd::prelude::*;

verus! {

#[derive(Copy, Clone, Debug, PartialEq, Eq, Structural, Hash)]
pub enum SetupPhase {
    ChooseFactions,
    Prediction,
    AtStart,
    DealTraitors,
    PlaceForces,
    DealTreachery,
}

#[derive(Copy, Clone, Debug, PartialEq, Eq, Structural, Hash)]
pub enum StormPhase {
    Reveal,
    WeatherControl,
    FamilyAtomics,
    MoveStorm,
}

#[derive(Copy, Clone, Debug, PartialEq, Eq, Structural, Hash)]
pub enum SpiceBlowPhase {
    Reveal,
    ShaiHalud,
    PlaceSpice,
}

#[derive(Copy, Clone, Debug, PartialEq, Eq, Structural, Hash)]
pub enum BiddingPhase {
    DealCards,
    Bidding,
}

/// Where the game is in its turn structure.
#[derive(Copy, Clone, Debug, PartialEq, Eq, Structural, Hash)]
pub enum Phase {
    Setup(SetupPhase),
    Storm(StormPhase),
    SpiceBlow(SpiceBlowPhase),
    Nexus,
    Bidding(BiddingPhase),
    Revival,
    Movement,
    Battle,
    Collection,
    Control,
    EndGame,
}

/// The phase that follows `p`.
pub open spec fn next_phase(p: Phase) -> Phase {
    match p {
        Phase::Setup(s) => match s {
            SetupPhase::ChooseFactions => Phase::Setup(SetupPhase::Prediction),
            SetupPhase::Prediction => Phase::Setup(SetupPhase::AtStart),
            SetupPhase::AtStart => Phase::Setup(SetupPhase::DealTraitors),
            SetupPhase::DealTraitors => Phase::Setup(SetupPhase::PlaceForces),
            SetupPhase::PlaceForces => Phase::Setup(SetupPhase::DealTreachery),
            SetupPhase::DealTreachery => Phase::Storm(StormPhase::Reveal),
        },
        Phase::Storm(s) => match s {
            StormPhase::Reveal => Phase::Storm(StormPhase::WeatherControl),
            StormPhase::WeatherControl => Phase::Storm(StormPhase::FamilyAtomics),
            StormPhase::FamilyAtomics => Phase::Storm(StormPhase::MoveStorm),
            StormPhase::MoveStorm => Phase::SpiceBlow(SpiceBlowPhase::Reveal),
        },
        Phase::SpiceBlow(s) => match s {
            SpiceBlowPhase::Reveal => Phase::SpiceBlow(SpiceBlowPhase::ShaiHalud),
            SpiceBlowPhase::ShaiHalud => Phase::SpiceBlow(SpiceBlowPhase::PlaceSpice),
            SpiceBlowPhase::PlaceSpice => Phase::Nexus,
        },
        Phase::Nexus => Phase::Bidding(BiddingPhase::DealCards),
        Phase::Bidding(s) => match s {
            BiddingPhase::DealCards => Phase::Bidding(BiddingPhase::Bidding),
            BiddingPhase::Bidding => Phase::Revival,
        },
        Phase::Revival => Phase::Movement,
        Phase::Movement => Phase::Battle,
        Phase::Battle => Phase::Collection,
        Phase::Collection => Phase::Control,
        Phase::Control => Phase::Storm(StormPhase::Reveal),
        Phase::EndGame => Phase::Setup(SetupPhase::ChooseFactions),
    }
}

/// The phase reached from `p` after `n` advances.
pub open spec fn advance_n(p: Phase, n: nat) -> Phase
    decreases n,
{
    if n == 0 {
        p
    } else {
        advance_n(next_phase(p), (n - 1) as nat)
    }
}

/// A phase of the game round, as opposed to setup or the end of the game.
pub open spec fn is_round_phase(p: Phase) -> bool {
    !(p is Setup) && !(p is EndGame)
}

/// The text shown to the players while the game is in phase `p`.
pub open spec fn phase_label(p: Phase) -> Seq<char> {
    match p {
        Phase::Setup(s) => match s {
            SetupPhase::ChooseFactions => "Choosing Factions..."@,
            SetupPhase::Prediction => "Bene Gesserit are making a prediction..."@,
            SetupPhase::AtStart => "Start of Game Setup..."@,
            SetupPhase::DealTraitors => "Picking Traitor Cards..."@,
            SetupPhase::PlaceForces => "Placing Forces..."@,
            SetupPhase::DealTreachery => "Dealing Treachery Cards..."@,
        },
        Phase::Storm(_) => "Storm Phase"@,
        Phase::SpiceBlow(_) => "Spice Blow Phase"@,
        Phase::Nexus => "Nexus Phase"@,
        Phase::Bidding(_) => "Bidding Phase"@,
        Phase::Revival => "Revival Phase"@,
        Phase::Movement => "Movement Phase"@,
        Phase::Battle => "Battle Phase"@,
        Phase::Collection => "Collection Phase"@,
        Phase::Control => "Control Phase"@,
        Phase::EndGame => ""@,
    }
}

impl Default for Phase {
    fn default() -> (r: Self)
        ensures
            r == Phase::EndGame,
    {
        Phase::EndGame
    }
}

impl Phase {
    pub fn next(&self) -> (r: Self)
        ensures
            r == next_phase(*self),
    {
        match self {
            Phase::Setup(subphase) => match subphase {
                SetupPhase::ChooseFactions => Phase::Setup(SetupPhase::Prediction),
                SetupPhase::Prediction => Phase::Setup(SetupPhase::AtStart),
                SetupPhase::AtStart => Phase::Setup(SetupPhase::DealTraitors),
                SetupPhase::DealTraitors => Phase::Setup(SetupPhase::PlaceForces),
                SetupPhase::PlaceForces => Phase::Setup(SetupPhase::DealTreachery),
                SetupPhase::DealTreachery => Phase::Storm(StormPhase::Reveal),
            },
            Phase::Storm(subphase) => match subphase {
                StormPhase::Reveal => Phase::Storm(StormPhase::WeatherControl),
                StormPhase::WeatherControl => Phase::Storm(StormPhase::FamilyAtomics),
                StormPhase::FamilyAtomics => Phase::Storm(StormPhase::MoveStorm),
                StormPhase::MoveStorm => Phase::SpiceBlow(SpiceBlowPhase::Reveal),
            },
            Phase::SpiceBlow(subphase) => match subphase {
                SpiceBlowPhase::Reveal => Phase::SpiceBlow(SpiceBlowPhase::ShaiHalud),
                SpiceBlowPhase::ShaiHalud => Phase::SpiceBlow(SpiceBlowPhase::PlaceSpice),
                SpiceBlowPhase::PlaceSpice => Phase::Nexus,
            },
            Phase::Nexus => Phase::Bidding(BiddingPhase::DealCards),
            Phase::Bidding(subphase) => match subphase {
                BiddingPhase::DealCards => Phase::Bidding(BiddingPhase::Bidding),
                BiddingPhase::Bidding => Phase::Revival,
            },
            Phase::Revival => Phase::Movement,
            Phase::Movement => Phase::Battle,
            Phase::Battle => Phase::Collection,
            Phase::Collection => Phase::Control,
            Phase::Control => Phase::Storm(StormPhase::Reveal),
            Phase::EndGame => Phase::Setup(SetupPhase::ChooseFactions),
        }
    }

    /// The text shown to the players while the game is in this phase.
    pub fn label(&self) -> (r: &'static str)
        ensures
            r@ == phase_label(*self),
    {
        match self {
            Phase::Setup(subphase) => match subphase {
                SetupPhase::ChooseFactions => "Choosing Factions...",
                SetupPhase::Prediction => "Bene Gesserit are making a prediction...",
                SetupPhase::AtStart => "Start of Game Setup...",
                SetupPhase::DealTraitors => "Picking Traitor Cards...",
                SetupPhase::PlaceForces => "Placing Forces...",
                SetupPhase::DealTreachery => "Dealing Treachery Cards...",
            },
            Phase::Storm(_) => "Storm Phase",
            Phase::SpiceBlow(_) => "Spice Blow Phase",
            Phase::Nexus => "Nexus Phase",
            Phase::Bidding(_) => "Bidding Phase",
            Phase::Revival => "Revival Phase",
            Phase::Movement => "Movement Phase",
            Phase::Battle => "Battle Phase",
            Phase::Collection => "Collection Phase",
            Phase::Control => "Control Phase",
            Phase::EndGame => "",
        }
    }
}

/// Advancing never ends the game: the end comes only from an explicit event.
pub proof fn lemma_next_never_ends(p: Phase)
    ensures
        next_phase(p) != Phase::EndGame,
{
}

/// A game round has fifteen phases: advancing fifteen times from any phase of
/// the round comes back to it, and the round stays within round phases.
pub proof fn lemma_round_is_cyclic(p: Phase)
    requires
        is_round_phase(p),
    ensures
        advance_n(p, 15) == p,
        is_round_phase(next_phase(p)),
{
    reveal_with_fuel(advance_n, 16);
}

/// After the game ends, a new game's setup runs through its six steps and the
/// first round starts with the storm being revealed.
pub proof fn lemma_setup_leads_to_first_round()
    ensures
        advance_n(Phase::EndGame, 1) == Phase::Setup(SetupPhase::ChooseFactions),
        advance_n(Phase::EndGame, 7) == Phase::Storm(StormPhase::Reveal),
        forall|n: nat| 1 <= n < 7 ==> #[trigger] advance_n(Phase::EndGame, n) is Setup,
{
    reveal_with_fuel(advance_n, 8);
    assert forall|n: nat| 1 <= n < 7 implies #[trigger] advance_n(Phase::EndGame, n) is Setup by {
        reveal_with_fuel(advance_n, 8);
        if n == 1 {
        } else if n == 2 {
        } else if n == 3 {
        } else if n == 4 {
        } else if n == 5 {
        } else {
        }
    }
}

/// The phases of a game round in the order of the rule book: the storm, the
/// spice blow, the nexus, the bidding, revival, movement, battle, collection
/// and control.
pub open spec fn round_order() -> Seq<Phase> {
    seq![
        Phase::Storm(StormPhase::Reveal),
        Phase::Storm(StormPhase::WeatherControl),
        Phase::Storm(StormPhase::FamilyAtomics),
        Phase::Storm(StormPhase::MoveStorm),
        Phase::SpiceBlow(SpiceBlowPhase::Reveal),
        Phase::SpiceBlow(SpiceBlowPhase::ShaiHalud),
        Phase::SpiceBlow(SpiceBlowPhase::PlaceSpice),
        Phase::Nexus,
        Phase::Bidding(BiddingPhase::DealCards),
        Phase::Bidding(BiddingPhase::Bidding),
        Phase::Revival,
        Phase::Movement,
        Phase::Battle,
        Phase::Collection,
        Phase::Control,
    ]
}

/// A round runs through its phases in the order of the rule book, the last
/// one leading back to the first: every round phase stands in that order, and
/// advancing from the phase at place `i` reaches the phase at the next place.
pub proof fn law_round_follows_rule_book(i: int, p: Phase)
    requires
        0 <= i < 15,
    ensures
        round_order().len() == 15,
        next_phase(round_order()[i]) == round_order()[(i + 1) % 15],
        is_round_phase(p) ==> round_order().contains(p),
{
    let o = round_order();
    assert(o.len() == 15);
    if is_round_phase(p) {
        let k: int = match p {
            Phase::Storm(StormPhase::Reveal) => 0,
            Phase::Storm(StormPhase::WeatherControl) => 1,
            Phase::Storm(StormPhase::FamilyAtomics) => 2,
            Phase::Storm(StormPhase::MoveStorm) => 3,
            Phase::SpiceBlow(SpiceBlowPhase::Reveal) => 4,
            Phase::SpiceBlow(SpiceBlowPhase::ShaiHalud) => 5,
            Phase::SpiceBlow(SpiceBlowPhase::PlaceSpice) => 6,
            Phase::Nexus => 7,
            Phase::Bidding(BiddingPhase::DealCards) => 8,
            Phase::Bidding(BiddingPhase::Bidding) => 9,
            Phase::Revival => 10,
            Phase::Movement => 11,
            Phase::Battle => 12,
            Phase::Collection => 13,
            _ => 14,
        };
        assert(o[k] == p);
    }
}

} // verus!
