use dune::collections::{AssocMap, KeySet};
use dune::components::{Faction, Leader, Location, LocationSector};
use dune::network::GameEvents;
use dune::object::{ObjectId, ObjectIdGenerator, ObjectSet, WithObjectId};
use dune::phase::{BiddingPhase, Phase, SetupPhase, SpiceBlowPhase, StormPhase};
use dune::stack::EffectStack;
use dune::components::CardEffect;
use dune::state::{GameEvent, PlayerId};
use dune::util::divide_spice;

#[test]
fn faction_codes() {
    assert_eq!(Faction::Atreides.code(), "at");
    assert_eq!(Faction::Harkonnen.code(), "hk");
    assert_eq!(Faction::Emperor.code(), "em");
    assert_eq!(Faction::SpacingGuild.code(), "sg");
    assert_eq!(Faction::Fremen.code(), "fr");
    assert_eq!(Faction::BeneGesserit.code(), "bg");
}

#[test]
fn every_faction_listed_once() {
    let all = Faction::all();
    assert_eq!(all.len(), 6);
    assert_eq!(all[0], Faction::Atreides);
    assert_eq!(all[5], Faction::BeneGesserit);
    for (i, f) in all.iter().enumerate() {
        assert!(!all[i + 1..].contains(f));
    }
}

#[test]
fn every_leader_listed_once() {
    let all = Leader::all();
    for (i, l) in all.iter().enumerate() {
        assert!(!all[i + 1..].contains(l));
    }
    assert!(all.len() >= 30);
}

#[test]
fn location_with_sector() {
    let ls = Location::Arrakeen.with_sector(9);
    assert_eq!(ls, LocationSector { location: Location::Arrakeen, sector: 9 });
}

#[test]
fn setup_runs_into_the_first_storm() {
    let mut p = Phase::default();
    assert_eq!(p, Phase::EndGame);
    p = p.next();
    assert_eq!(p, Phase::Setup(SetupPhase::ChooseFactions));
    let expected = [
        Phase::Setup(SetupPhase::Prediction),
        Phase::Setup(SetupPhase::AtStart),
        Phase::Setup(SetupPhase::DealTraitors),
        Phase::Setup(SetupPhase::PlaceForces),
        Phase::Setup(SetupPhase::DealTreachery),
        Phase::Storm(StormPhase::Reveal),
    ];
    for e in expected {
        p = p.next();
        assert_eq!(p, e);
    }
}

#[test]
fn a_round_has_fifteen_steps() {
    let start = Phase::Storm(StormPhase::Reveal);
    let mut p = start;
    let mut seen = vec![p];
    for _ in 0..15 {
        p = p.next();
        seen.push(p);
    }
    assert_eq!(p, start);
    assert!(seen.contains(&Phase::SpiceBlow(SpiceBlowPhase::ShaiHalud)));
    assert!(seen.contains(&Phase::Bidding(BiddingPhase::Bidding)));
    assert!(seen.contains(&Phase::Nexus));
    assert!(!seen.contains(&Phase::EndGame));
    for q in &seen[1..15] {
        assert_ne!(*q, start);
    }
}

#[test]
fn phase_labels() {
    assert_eq!(Phase::Setup(SetupPhase::ChooseFactions).label(), "Choosing Factions...");
    assert_eq!(Phase::Setup(SetupPhase::Prediction).label(), "Bene Gesserit are making a prediction...");
    assert_eq!(Phase::Storm(StormPhase::MoveStorm).label(), "Storm Phase");
    assert_eq!(Phase::Control.label(), "Control Phase");
    assert_eq!(Phase::EndGame.label(), "");
}

#[test]
fn object_ids_count_up_and_reuse_returned_ones() {
    assert_eq!(ObjectId(4).next(), ObjectId(5));
    let mut g = ObjectIdGenerator::default();
    assert!(g.has_id_left());
    assert_eq!(g.next_id(), ObjectId(1));
    assert_eq!(g.next_id(), ObjectId(2));
    g.free.push(ObjectId(7));
    assert_eq!(g.next_id(), ObjectId(7));
    assert_eq!(g.next_id(), ObjectId(3));
    let o = g.spawn(Faction::Fremen);
    assert_eq!(o.id, ObjectId(4));
    assert_eq!(o.inner, Faction::Fremen);
}

#[test]
fn generator_runs_out_at_the_last_id() {
    let mut g = ObjectIdGenerator { last: Some(ObjectId(u64::MAX)), free: Vec::new() };
    assert!(!g.has_id_left());
    g.free.push(ObjectId(12));
    assert!(g.has_id_left());
}

#[test]
fn objects_compare_by_id() {
    let a = Faction::Fremen.with_id(ObjectId(3));
    let b = Faction::Emperor.with_id(ObjectId(3));
    let c = Faction::Fremen.with_id(ObjectId(4));
    assert!(a == b);
    assert!(a != c);
}

#[test]
fn assoc_map_insert_get_remove() {
    let mut m: AssocMap<u8, u32> = AssocMap::new();
    assert!(m.is_empty());
    assert_eq!(m.insert(3, 30), None);
    assert_eq!(m.insert(4, 40), None);
    assert_eq!(m.insert(3, 33), Some(30));
    assert_eq!(m.len(), 2);
    assert_eq!(m.get(&3), Some(&33));
    assert!(m.contains_key(&4));
    assert_eq!(m.remove(&4), Some(40));
    assert_eq!(m.remove(&4), None);
    assert_eq!(m.get(&4), None);
    assert_eq!(m.keys(), vec![3]);
}

#[test]
fn key_set_keeps_each_key_once() {
    let mut s = KeySet::from_vec(vec![PlayerId(1), PlayerId(2), PlayerId(1)]);
    assert_eq!(s.len(), 2);
    assert!(!s.insert(PlayerId(2)));
    assert!(s.insert(PlayerId(3)));
    assert!(s.contains(&PlayerId(3)));
    assert!(s.remove(&PlayerId(1)));
    assert!(!s.remove(&PlayerId(1)));
    let d = s.duplicate();
    let mut v = d.to_vec();
    v.sort();
    assert_eq!(v, vec![PlayerId(2), PlayerId(3)]);
    assert!(!KeySet::<PlayerId>::new().contains(&PlayerId(2)));
}

#[test]
fn object_set_moves_objects() {
    let mut a: ObjectSet<Faction> = ObjectSet::new();
    assert!(a.insert(Faction::Fremen.with_id(ObjectId(1))));
    assert!(a.insert(Faction::Emperor.with_id(ObjectId(2))));
    assert!(!a.insert(Faction::Atreides.with_id(ObjectId(2))));
    assert_eq!(a.len(), 2);
    let mut ids = KeySet::new();
    ids.insert(ObjectId(2));
    ids.insert(ObjectId(9));
    let taken = a.take_ids(&ids);
    assert_eq!(taken.len(), 1);
    assert!(taken.contains(&ObjectId(2)));
    assert!(!a.contains(&ObjectId(2)));
    let mut b: ObjectSet<Faction> = ObjectSet::new();
    b.extend_from(&taken);
    b.extend_from(&a);
    assert_eq!(b.len(), 2);
    let one = b.take(&ObjectId(1)).unwrap();
    assert_eq!(one.inner, Faction::Fremen);
    assert!(b.take(&ObjectId(1)).is_none());
    assert_eq!(b.objects().len(), 1);
}

#[test]
fn divide_spice_greedily() {
    assert_eq!(divide_spice(37), (3, 1, 1, 0));
    assert_eq!(divide_spice(4), (0, 0, 2, 0));
    assert_eq!(divide_spice(9), (0, 1, 2, 0));
    assert_eq!(divide_spice(1), (0, 0, 0, 1));
    assert_eq!(divide_spice(20), (2, 0, 0, 0));
    assert_eq!(divide_spice(0), (0, 0, 0, 0));
    assert_eq!(divide_spice(-5), (0, 0, 0, 0));
}

#[test]
fn divided_spice_adds_up() {
    for t in 1..200 {
        let (a, b, c, d) = divide_spice(t);
        assert_eq!(10 * a + 5 * b + 2 * c + d, t);
        assert!(b <= 1 && c <= 2 && d <= 1);
    }
}

#[test]
fn effect_stack_is_last_in_first_out() {
    let mut s = EffectStack::default();
    assert!(s.is_empty());
    assert!(s.peek().is_none());
    s.push(CardEffect::Karama);
    s.extend(vec![CardEffect::Lasgun, CardEffect::Atomics]);
    assert_eq!(s.len(), 3);
    assert_eq!(s.peek(), Some(&CardEffect::Atomics));
    assert_eq!(s.pop(), Some(CardEffect::Atomics));
    assert_eq!(s.pop(), Some(CardEffect::Lasgun));
    assert_eq!(s.pop(), Some(CardEffect::Karama));
    assert_eq!(s.pop(), None);
}

#[test]
fn game_events_are_first_in_first_out() {
    let mut q = GameEvents::default();
    assert!(q.peek().is_none());
    q.push(GameEvent::Pass);
    q.push(GameEvent::StartRound);
    assert!(matches!(q.peek(), Some(GameEvent::Pass)));
    assert!(matches!(q.next(), Some(GameEvent::Pass)));
    assert!(matches!(q.next(), Some(GameEvent::StartRound)));
    assert!(q.next().is_none());
}
