use vstd::prelude::*;

use crate::components::CardEffect;

verus! {

/// The card effects waiting to resolve; the last one pushed resolves first.
pub struct EffectStack(pub Vec<CardEffect>);

impl View for EffectStack {
    type V = Seq<CardEffect>;

    open spec fn view(&self) -> Seq<CardEffect> {
        self.0@
    }
}

impl Default for EffectStack {
    fn default() -> (r: Self)
        ensures
            r@ == Seq::<CardEffect>::empty(),
    {
        EffectStack(Vec::new())
    }
}

impl EffectStack {
    pub fn is_empty(&self) -> (r: bool)
        ensures
            r == (self@.len() == 0),
    {
        self.0.len() == 0
    }

    pub fn push(&mut self, action: CardEffect)
        ensures
            final(self)@ == old(self)@.push(action),
    {
        self.0.push(action);
    }

    /// The effect on top of the stack, if any.
    pub fn peek(&self) -> (r: Option<&CardEffect>)
        ensures
            self@.len() == 0 ==> r is None,
            self@.len() > 0 ==> r == Some(&self@.last()),
    {
        let n = self.0.len();
        if n == 0 {
            None
        } else {
            Some(&self.0[n - 1])
        }
    }

    /// Takes the effect on top of the stack off it.
    pub fn pop(&mut self) -> (r: Option<CardEffect>)
        ensures
            old(self)@.len() == 0 ==> r is None && final(self)@ == old(self)@,
            old(self)@.len() > 0 ==> r == Some(old(self)@.last()) && final(self)@ == old(
                self,
            )@.drop_last(),
    {
        self.0.pop()
    }

    pub fn len(&self) -> (r: usize)
        ensures
            r == self@.len(),
    {
        self.0.len()
    }

    /// Pushes each of `effects` in turn, so the last of them ends on top.
    pub fn extend(&mut self, effects: Vec<CardEffect>)
        ensures
            final(self)@ == old(self)@ + effects@,
    {
        let mut i: usize = 0;
        while i < effects.len()
            invariant
                i <= effects.len(),
                self@ == old(self)@ + effects@.subrange(0, i as int),
            decreases effects.len() - i,
        {
            self.0.push(effects[i]);
            i = i + 1;
            assert(effects@.subrange(0, i as int) == effects@.subrange(0, i - 1 as int).push(
                effects@[i - 1],
            ));
        }
        assert(effects@.subrange(0, effects@.len() as int) == effects@);
    }
}

} // verus!
