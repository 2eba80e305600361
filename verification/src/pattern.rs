use vstd::prelude::*;

verus! {

/// The play handles that start together at one step of a pattern.
pub struct PatternFrame<H> {
    pub frame: Vec<H>,
}

impl<H> PatternFrame<H> {
    /// A step that starts nothing.
    pub fn new() -> (p: Self)
        ensures
            p.frame@.len() == 0,
    {
        PatternFrame { frame: Vec::new() }
    }

    /// The step with `handle` added last.
    pub fn push(self, handle: H) -> (p: Self)
        ensures
            p.frame@ == self.frame@.push(handle),
    {
        let mut this = self;
        this.frame.push(handle);
        this
    }
}

/// A sequence of steps, played one after the other.
pub struct Pattern<H> {
    pattern: Vec<PatternFrame<H>>,
    tick: usize,
}

impl<H> Pattern<H> {
    /// The steps, in order.
    pub closed spec fn steps(&self) -> Seq<PatternFrame<H>> {
        self.pattern@
    }

    /// The step position.
    pub closed spec fn position(&self) -> nat {
        self.tick as nat
    }

    /// A pattern without steps.
    pub fn new() -> (p: Self)
        ensures
            p.steps().len() == 0,
            p.position() == 0,
    {
        Pattern { pattern: Vec::new(), tick: 0 }
    }

    /// Appends the steps of `other` after those of this pattern.
    pub fn merge(&mut self, other: Self)
        ensures
            final(self).steps() == old(self).steps() + other.steps(),
            final(self).position() == old(self).position(),
    {
        let mut other = other;
        self.pattern.append(&mut other.pattern);
    }

    /// The pattern with `pattern` added as its last step.
    pub fn push(self, pattern: PatternFrame<H>) -> (p: Self)
        ensures
            p.steps() == self.steps().push(pattern),
            p.position() == self.position(),
    {
        let mut this = self;
        this.pattern.push(pattern);
        this
    }

    /// The pattern with a step that starts nothing added last.
    pub fn push_empty(self) -> (p: Self)
        ensures
            p.steps().len() == self.steps().len() + 1,
            p.steps().drop_last() == self.steps(),
            p.steps().last().frame@.len() == 0,
            p.position() == self.position(),
    {
        let mut this = self;
        this.pattern.push(PatternFrame::new());
        proof {
            assert(this.pattern@.drop_last() =~= self.pattern@);
        }
        this
    }

    /// Takes the steps out for playing, in order, starting over from the
    /// first step when the position is past the last one.
    pub fn into_steps(self) -> (steps: Vec<PatternFrame<H>>)
        ensures
            steps@ == self.steps(),
    {
        let mut this = self;
        if this.tick >= this.pattern.len() {
            this.tick = 0;
        }
        this.pattern
    }
}

} // verus!
