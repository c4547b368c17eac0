use vstd::prelude::*;

use crate::collections::MapKey;

verus! {

/// Spice tokens lying on a board node.
#[derive(Copy, Clone, Debug)]
pub struct Spice {
    pub value: i32,
}

/// A fighting unit; special units are Fedaykin, Sardaukar and the like.
#[derive(Copy, Clone, Debug, Default, PartialEq, Eq, Structural, Hash)]
pub struct Troop {
    pub is_special: bool,
}

/// The storm marker on the board.
#[derive(Copy, Clone, Debug, Default, PartialEq, Eq, Structural)]
pub struct Storm {
    pub sector: i32,
}

/// One sector of one territory of the board.
#[derive(Copy, Clone, Debug, PartialEq, Eq, Structural, Hash)]
pub struct LocationSector {
    pub location: Location,
    pub sector: u8,
}

/// Marks units that have lost their organisation.
#[derive(Copy, Clone, Debug)]
pub struct Disorganized;

/// Marks an entity that may answer a prompt.
#[derive(Copy, Clone, Debug)]
pub struct CanRespond;

/// The value printed on a storm card.
#[derive(Copy, Clone, Debug, PartialEq, Eq, Structural)]
pub struct StormCardValue {
    pub val: u8,
}

/// A Bene Gesserit prediction card naming a turn.
#[derive(Copy, Clone, Debug, PartialEq, Eq, Structural)]
pub struct TurnPredictionCard {
    pub turn: u8,
}

#[derive(Copy, Clone, PartialEq, Eq, Structural, Debug, Hash)]
pub enum Faction {
    Atreides,
    Harkonnen,
    Emperor,
    SpacingGuild,
    Fremen,
    BeneGesserit,
}

/// The two-letter code of a faction, used to name its assets.
pub open spec fn faction_code(f: Faction) -> Seq<char> {
    match f {
        Faction::Atreides => "at"@,
        Faction::Harkonnen => "hk"@,
        Faction::Emperor => "em"@,
        Faction::SpacingGuild => "sg"@,
        Faction::Fremen => "fr"@,
        Faction::BeneGesserit => "bg"@,
    }
}

/// Every faction, in declaration order.
pub open spec fn all_factions() -> Seq<Faction> {
    seq![
        Faction::Atreides,
        Faction::Harkonnen,
        Faction::Emperor,
        Faction::SpacingGuild,
        Faction::Fremen,
        Faction::BeneGesserit,
    ]
}

impl Faction {
    pub fn code(&self) -> (r: &'static str)
        ensures
            r@ == faction_code(*self),
    {
        match self {
            Faction::Atreides => "at",
            Faction::Harkonnen => "hk",
            Faction::Emperor => "em",
            Faction::SpacingGuild => "sg",
            Faction::Fremen => "fr",
            Faction::BeneGesserit => "bg",
        }
    }

    /// Every faction, in declaration order.
    pub fn all() -> (r: Vec<Faction>)
        ensures
            r@ == all_factions(),
    {
        let r = vec![
            Faction::Atreides,
            Faction::Harkonnen,
            Faction::Emperor,
            Faction::SpacingGuild,
            Faction::Fremen,
            Faction::BeneGesserit,
        ];
        assert(r@ =~= all_factions());
        r
    }
}

/// A leader token; each belongs to one faction.
#[derive(Copy, Clone, PartialEq, Eq, Structural, Debug, Hash)]
pub enum Leader {
    GurneyHalleck,
    ThufirHawat,
    DuncanIdaho,
    LadyJessica,
    DrWellingtonYueh,
    Alia,
    MargotLadyFenring,
    PrincessIrulan,
    MotherRamallo,
    WannaMarcus,
    CaptainAramsham,
    Bashar,
    Burseg,
    Caid,
    HasimirFenring,
    Chani,
    Jamis,
    ShadoutMapes,
    Otheym,
    Stilgar,
    UmmanKudu,
    CaptainIakinNefud,
    BeastRabban,
    FeydRautha,
    PiterDeVries,
    MasterBewt,
    EsmarTuek,
    GuildRep,
    SooSooSook,
    StabanTuek,
}

/// Every leader, in declaration order.
pub open spec fn all_leaders() -> Seq<Leader> {
    seq![
        Leader::GurneyHalleck,
        Leader::ThufirHawat,
        Leader::DuncanIdaho,
        Leader::LadyJessica,
        Leader::DrWellingtonYueh,
        Leader::Alia,
        Leader::MargotLadyFenring,
        Leader::PrincessIrulan,
        Leader::MotherRamallo,
        Leader::WannaMarcus,
        Leader::CaptainAramsham,
        Leader::Bashar,
        Leader::Burseg,
        Leader::Caid,
        Leader::HasimirFenring,
        Leader::Chani,
        Leader::Jamis,
        Leader::ShadoutMapes,
        Leader::Otheym,
        Leader::Stilgar,
        Leader::UmmanKudu,
        Leader::CaptainIakinNefud,
        Leader::BeastRabban,
        Leader::FeydRautha,
        Leader::PiterDeVries,
        Leader::MasterBewt,
        Leader::EsmarTuek,
        Leader::GuildRep,
        Leader::SooSooSook,
        Leader::StabanTuek,
    ]
}

/// Every leader is listed by `all_leaders`.
pub proof fn lemma_all_leaders_complete(l: Leader)
    ensures
        all_leaders().contains(l),
{
    match l {
        Leader::GurneyHalleck => assert(all_leaders()[0] == l),
        Leader::ThufirHawat => assert(all_leaders()[1] == l),
        Leader::DuncanIdaho => assert(all_leaders()[2] == l),
        Leader::LadyJessica => assert(all_leaders()[3] == l),
        Leader::DrWellingtonYueh => assert(all_leaders()[4] == l),
        Leader::Alia => assert(all_leaders()[5] == l),
        Leader::MargotLadyFenring => assert(all_leaders()[6] == l),
        Leader::PrincessIrulan => assert(all_leaders()[7] == l),
        Leader::MotherRamallo => assert(all_leaders()[8] == l),
        Leader::WannaMarcus => assert(all_leaders()[9] == l),
        Leader::CaptainAramsham => assert(all_leaders()[10] == l),
        Leader::Bashar => assert(all_leaders()[11] == l),
        Leader::Burseg => assert(all_leaders()[12] == l),
        Leader::Caid => assert(all_leaders()[13] == l),
        Leader::HasimirFenring => assert(all_leaders()[14] == l),
        Leader::Chani => assert(all_leaders()[15] == l),
        Leader::Jamis => assert(all_leaders()[16] == l),
        Leader::ShadoutMapes => assert(all_leaders()[17] == l),
        Leader::Otheym => assert(all_leaders()[18] == l),
        Leader::Stilgar => assert(all_leaders()[19] == l),
        Leader::UmmanKudu => assert(all_leaders()[20] == l),
        Leader::CaptainIakinNefud => assert(all_leaders()[21] == l),
        Leader::BeastRabban => assert(all_leaders()[22] == l),
        Leader::FeydRautha => assert(all_leaders()[23] == l),
        Leader::PiterDeVries => assert(all_leaders()[24] == l),
        Leader::MasterBewt => assert(all_leaders()[25] == l),
        Leader::EsmarTuek => assert(all_leaders()[26] == l),
        Leader::GuildRep => assert(all_leaders()[27] == l),
        Leader::SooSooSook => assert(all_leaders()[28] == l),
        Leader::StabanTuek => assert(all_leaders()[29] == l),
    }
}

impl Leader {
    /// Every leader, in declaration order.
    pub fn all() -> (r: Vec<Leader>)
        ensures
            r@ == all_leaders(),
    {
        let r = vec![
            Leader::GurneyHalleck,
            Leader::ThufirHawat,
            Leader::DuncanIdaho,
            Leader::LadyJessica,
            Leader::DrWellingtonYueh,
            Leader::Alia,
            Leader::MargotLadyFenring,
            Leader::PrincessIrulan,
            Leader::MotherRamallo,
            Leader::WannaMarcus,
            Leader::CaptainAramsham,
            Leader::Bashar,
            Leader::Burseg,
            Leader::Caid,
            Leader::HasimirFenring,
            Leader::Chani,
            Leader::Jamis,
            Leader::ShadoutMapes,
            Leader::Otheym,
            Leader::Stilgar,
            Leader::UmmanKudu,
            Leader::CaptainIakinNefud,
            Leader::BeastRabban,
            Leader::FeydRautha,
            Leader::PiterDeVries,
            Leader::MasterBewt,
            Leader::EsmarTuek,
            Leader::GuildRep,
            Leader::SooSooSook,
            Leader::StabanTuek,
        ];
        assert(r@ =~= all_leaders());
        r
    }
}

/// A territory of the board.
#[derive(Copy, Clone, PartialEq, Eq, Structural, Debug, Hash)]
pub enum Location {
    Arrakeen,
    Arsunt,
    Basin,
    BightOfTheCliff,
    BrokenLand,
    Carthag,
    CielagoDepression,
    CielagoEast,
    CielagoNorth,
    CielagoSouth,
    CielagoWest,
    FalseWallEast,
    FalseWallSouth,
    FalseWallWest,
    FuneralPlain,
    GaraKulon,
    HabbanyaErg,
    HabbanyaRidgeFlat,
    HabbanyaSietch,
    HaggaBasin,
    HargPass,
    HoleInTheRock,
    ImperialBasin,
    Meridian,
    OldGap,
    PastyMesa,
    PlasticBasin,
    RedChasm,
    RimWallWest,
    RockOutcroppings,
    SihayaRidge,
    ShieldWall,
    SietchTabr,
    SouthMesa,
    TheGreatFlat,
    TheGreaterFlat,
    TheMinorErg,
    Tsimpo,
    TueksSietch,
    WindPassNorth,
    WindPass,
    PolarSink,
}

impl Location {
    pub fn with_sector(self, sector: u8) -> (r: LocationSector)
        ensures
            r == (LocationSector { location: self, sector }),
    {
        LocationSector { location: self, sector }
    }
}

/// The kind of ground a territory is made of.
#[derive(Copy, Clone, PartialEq, Eq, Structural, Debug, Hash)]
pub enum Terrain {
    Sand,
    Rock,
    Stronghold,
    PolarSink,
}

/// A bonus that holding a stronghold grants.
#[derive(Copy, Clone, PartialEq, Eq, Structural, Debug, Hash)]
pub enum Bonus {
    Carryalls,
    Ornothopters,
    Smugglers,
    Harvesters,
}

/// What playing a treachery card does.
#[derive(Copy, Clone, PartialEq, Eq, Structural, Debug, Hash)]
pub enum CardEffect {
    Worthless,
    PoisonWeapon,
    ProjectileWeapon,
    CheapHero,
    PoisonDefense,
    ProjectileDefense,
    Atomics,
    Movement,
    Karama,
    Lasgun,
    Revive,
    Truthtrance,
    WeatherControl,
}

/// The printed kinds of treachery cards.
#[derive(Copy, Clone, PartialEq, Eq, Structural, Debug, Hash)]
pub enum TreacheryCardKind {
    Lasgun,
    Chrysknife,
    MaulaPistol,
    SlipTip,
    Stunner,
    Chaumas,
    Chaumurky,
    EllacaDrug,
    GomJabbar,
    Shield,
    Snooper,
    CheapHero,
    CheapHeroine,
    TleilaxuGhola,
    FamilyAtomics,
    Hajr,
    Karama,
    Truthtrance,
    WeatherControl,
    Baliset,
    JubbaCloak,
    Kulon,
    LaLaLa,
    TripToGamont,
}

/// A treachery card: its kind and which of the printed variants it is.
#[derive(Copy, Clone, PartialEq, Eq, Structural, Debug, Hash)]
pub struct TreacheryCard {
    pub kind: TreacheryCardKind,
    pub variant: usize,
}

/// A card of the spice deck: a territory where spice blows, or the worm.
#[derive(Copy, Clone, PartialEq, Eq, Structural, Debug, Hash)]
pub enum SpiceCard {
    BrokenLand,
    CielagoNorth,
    CielagoSouth,
    FuneralPlain,
    TheGreatFlat,
    HabbanyaErg,
    HabbanyaRidgeFlat,
    HaggaBasin,
    TheMinorErg,
    OldGap,
    RedChasm,
    RockOutcroppings,
    SihayaRidge,
    SouthMesa,
    WindPassNorth,
    ShaiHalud,
}

/// A Bene Gesserit prediction card naming a faction.
#[derive(Copy, Clone, PartialEq, Eq, Structural, Debug, Hash)]
pub struct FactionPredictionCard {
    pub faction: Faction,
}

/// A card offered to a player choosing a faction.
#[derive(Copy, Clone, PartialEq, Eq, Structural, Debug, Hash)]
pub struct FactionChoiceCard {
    pub faction: Faction,
}

/// A traitor card naming a leader.
#[derive(Copy, Clone, PartialEq, Eq, Structural, Debug, Hash)]
pub struct TraitorCard {
    pub leader: Leader,
}

/// A storm card: how many sectors the storm moves.
#[derive(Copy, Clone, PartialEq, Eq, Structural, Debug, Hash)]
pub struct StormCard {
    pub val: u8,
}

/// Marks the traitor deck on the table.
#[derive(Copy, Clone, Debug)]
pub struct TraitorDeck;

/// Marks the treachery deck on the table.
#[derive(Copy, Clone, Debug)]
pub struct TreacheryDeck;

/// Marks the storm deck on the table.
#[derive(Copy, Clone, Debug)]
pub struct StormDeck;

/// Marks the spice deck on the table.
#[derive(Copy, Clone, Debug)]
pub struct SpiceDeck;

impl View for Troop {
    type V = Troop;

    open spec fn view(&self) -> Troop {
        *self
    }
}

impl View for Faction {
    type V = Faction;

    open spec fn view(&self) -> Faction {
        *self
    }
}

impl View for Leader {
    type V = Leader;

    open spec fn view(&self) -> Leader {
        *self
    }
}

impl View for Location {
    type V = Location;

    open spec fn view(&self) -> Location {
        *self
    }
}

impl View for Bonus {
    type V = Bonus;

    open spec fn view(&self) -> Bonus {
        *self
    }
}

impl View for TreacheryCard {
    type V = TreacheryCard;

    open spec fn view(&self) -> TreacheryCard {
        *self
    }
}

impl View for SpiceCard {
    type V = SpiceCard;

    open spec fn view(&self) -> SpiceCard {
        *self
    }
}

impl View for TraitorCard {
    type V = TraitorCard;

    open spec fn view(&self) -> TraitorCard {
        *self
    }
}

impl View for StormCard {
    type V = StormCard;

    open spec fn view(&self) -> StormCard {
        *self
    }
}

impl MapKey for Faction {
    fn same(&self, other: &Self) -> (r: bool) {
        *self == *other
    }
}

impl MapKey for Leader {
    fn same(&self, other: &Self) -> (r: bool) {
        *self == *other
    }
}

impl MapKey for Location {
    fn same(&self, other: &Self) -> (r: bool) {
        *self == *other
    }
}

impl MapKey for SpiceCard {
    fn same(&self, other: &Self) -> (r: bool) {
        *self == *other
    }
}

impl MapKey for TreacheryCard {
    fn same(&self, other: &Self) -> (r: bool) {
        *self == *other
    }
}

impl MapKey for Bonus {
    fn same(&self, other: &Self) -> (r: bool) {
        *self == *other
    }
}

} // verus!
