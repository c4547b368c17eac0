use vstd::prelude::*;

use crate::state::GameEvent;

verus! {

/// The game events a client has received and not yet applied, oldest first.
pub struct GameEvents {
    queue: std::collections::VecDeque<GameEvent>,
}

impl View for GameEvents {
    type V = Seq<GameEvent>;

    closed spec fn view(&self) -> Seq<GameEvent> {
        self.queue@
    }
}

impl Default for GameEvents {
    fn default() -> (r: Self)
        ensures
            r@ == Seq::<GameEvent>::empty(),
    {
        GameEvents { queue: std::collections::VecDeque::new() }
    }
}

impl GameEvents {
    /// Queues `event` behind those already waiting.
    pub fn push(&mut self, event: GameEvent)
        ensures
            final(self)@ == old(self)@.push(event),
    {
        self.queue.push_back(event);
    }

    /// Takes the oldest waiting event off the queue.
    pub fn next(&mut self) -> (r: Option<GameEvent>)
        ensures
            old(self)@.len() == 0 ==> r is None && final(self)@ == old(self)@,
            old(self)@.len() > 0 ==> r == Some(old(self)@[0]) && final(self)@ == old(
                self,
            )@.drop_first(),
    {
        self.queue.pop_front()
    }

    /// The oldest waiting event, left on the queue.
    pub fn peek(&self) -> (r: Option<&GameEvent>)
        ensures
            self@.len() == 0 ==> r is None,
            self@.len() > 0 ==> r == Some(&self@[0]),
    {
        if self.queue.len() == 0 {
            None
        } else {
            Some(&self.queue[0])
        }
    }
}

} // verus!
