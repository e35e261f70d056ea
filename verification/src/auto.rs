use vstd::prelude::*;
use vstd::pervasive::cloned;

use crate::dezoomer::ZoomLevel;
use crate::errors::ZoomError;
use crate::selector::Arguments;

verus! {

impl Arguments {
    /// Find the requested protocol implementation among the registered
    /// names: the first name equal to the requested one wins; an unknown
    /// name is an error carrying it.
    pub fn find_dezoomer(&self, names: &Vec<String>) -> (r: Result<usize, ZoomError>)
        ensures
            match r {
                Ok(i) => {
                    &&& i < names@.len()
                    &&& names@[i as int]@ == self.dezoomer@
                    &&& forall|j: int| 0 <= j < i ==> (#[trigger] names@[j])@ != self.dezoomer@
                },
                Err(e) => {
                    &&& e matches ZoomError::NoSuchDezoomer { name } && name@ == self.dezoomer@
                    &&& forall|j: int|
                        0 <= j < names@.len() ==> (#[trigger] names@[j])@ != self.dezoomer@
                },
            },
    {
        let mut i: usize = 0;
        while i < names.len()
            invariant
                0 <= i <= names@.len(),
                forall|j: int| 0 <= j < i ==> (#[trigger] names@[j])@ != self.dezoomer@,
            decreases names@.len() - i,
        {
            if names[i] == self.dezoomer {
                return Ok(i);
            }
            i = i + 1;
        }
        Err(ZoomError::NoSuchDezoomer { name: self.dezoomer.clone() })
    }
}

/// What one attempt of the "auto" aggregate produced: the zoom levels a
/// protocol implementation resolved to, or the reason its probe failed.
pub enum AttemptOutcome {
    Levels { levels: Vec<ZoomLevel> },
    Failure { msg: String },
}

/// What the "auto" aggregate does next.
pub enum AutoStep {
    /// Probe the implementation with this priority index.
    TryNext { index: usize },
    /// An implementation yielded at least one zoom level: done.
    Done { levels: Vec<ZoomLevel> },
    /// Every implementation failed; the aggregated reasons, in priority
    /// order. An attempt that resolved to an empty level list is recorded
    /// with an empty reason.
    AllFailed { error: ZoomError },
}

/// The "auto" pseudo-implementation: it tries every registered protocol
/// implementation in a fixed priority order against the same input and
/// stops at the first whose probe yields at least one zoom level. The
/// probes themselves (and their resolution loops) run outside; this state
/// machine decides, after each attempt, whether to accept, go on, or give
/// up with the collected failure reasons.
pub struct AutoProbe {
    /// How many implementations are registered.
    pub total: usize,
    /// The priority index the next attempt should probe.
    pub next_index: usize,
    /// One failure reason per attempt made so far.
    pub failures: Vec<String>,
}

impl AutoProbe {
    /// One reason was recorded for every attempt already made.
    pub open spec fn wf(self) -> bool {
        self.failures@.len() == self.next_index && self.next_index <= self.total
    }

    pub fn new(total: usize) -> (r: AutoProbe)
        ensures
            r.wf(),
            r.total == total,
            r.next_index == 0,
            r.failures@.len() == 0,
    {
        AutoProbe { total, next_index: 0, failures: Vec::new() }
    }

    /// Which implementation to try now, or nothing when all were tried.
    pub fn current(&self) -> (r: Option<usize>)
        ensures
            r == if self.next_index < self.total {
                Some(self.next_index)
            } else {
                None::<usize>
            },
    {
        if self.next_index < self.total {
            Some(self.next_index)
        } else {
            None
        }
    }

    /// Record one attempt's outcome and decide what to do next: a
    /// non-empty level list is accepted as is; anything else adds a
    /// failure reason and moves on, until every implementation has been
    /// tried and the reasons are handed back together.
    pub fn on_attempt(&mut self, outcome: AttemptOutcome) -> (r: AutoStep)
        requires
            old(self).wf(),
            old(self).next_index < old(self).total,
        ensures
            final(self).wf(),
            final(self).total == old(self).total,
            match outcome {
                AttemptOutcome::Levels { levels } => {
                    if levels@.len() > 0 {
                        &&& r == (AutoStep::Done { levels })
                        &&& *final(self) == *old(self)
                    } else {
                        &&& final(self).next_index == old(self).next_index + 1
                        &&& final(self).failures@.len() == old(self).failures@.len() + 1
                        &&& final(self).failures@.last()@ == Seq::<char>::empty()
                        &&& final(self).failures@.drop_last() == old(self).failures@
                        &&& next_step_matches(r, *final(self))
                    }
                },
                AttemptOutcome::Failure { msg } => {
                    &&& final(self).next_index == old(self).next_index + 1
                    &&& final(self).failures@ == old(self).failures@.push(msg)
                    &&& next_step_matches(r, *final(self))
                },
            },
    {
        match outcome {
            AttemptOutcome::Levels { levels } => {
                if levels.len() > 0 {
                    AutoStep::Done { levels }
                } else {
                    self.failures.push(String::new());
                    self.next_index = self.next_index + 1;
                    self.give_next_step()
                }
            }
            AttemptOutcome::Failure { msg } => {
                self.failures.push(msg);
                self.next_index = self.next_index + 1;
                self.give_next_step()
            }
        }
    }

    fn give_next_step(&self) -> (r: AutoStep)
        ensures
            next_step_matches(r, *self),
    {
        if self.next_index < self.total {
            AutoStep::TryNext { index: self.next_index }
        } else {
            let reasons = self.failures.clone();
            proof {
                assert forall|i: int| 0 <= i < self.failures@.len() implies reasons@[i]
                    == self.failures@[i] by {
                    assert(cloned::<String>(self.failures@[i], reasons@[i]));
                }
                assert(reasons@ =~= self.failures@);
            }
            AutoStep::AllFailed {
                error: ZoomError::NoCompatibleDezoomer { reasons },
            }
        }
    }
}

/// After a failed attempt: either the next implementation in priority
/// order is tried, or, once all were tried, the aggregate failure carries
/// exactly the recorded reasons.
pub open spec fn next_step_matches(r: AutoStep, a: AutoProbe) -> bool {
    if a.next_index < a.total {
        r == (AutoStep::TryNext { index: a.next_index })
    } else {
        r matches AutoStep::AllFailed {
            error: ZoomError::NoCompatibleDezoomer { reasons },
        } && reasons@ == a.failures@
    }
}

} // verus!
