use vstd::prelude::*;

use crate::errors::ZoomError;
use crate::vec2d::Vec2d;

verus! {

/// What a protocol implementation currently knows: the identifier it was
/// pointed at, plus the raw bytes previously fetched for that identifier,
/// if any.
pub struct DezoomerInput {
    pub uri: String,
    pub contents: Option<Vec<u8>>,
}

/// One tile of a zoom level: where its top-left corner goes on the final
/// canvas, and the identifier its bytes are fetched from.
pub struct TileReference {
    pub url: String,
    pub position: Vec2d,
}

/// One zoom level exposed by a protocol implementation: a human-readable
/// name, an optional total-size hint, the transport headers its tiles
/// require, and its tile references. Enumerating a reference may itself
/// fail per item; a failed item carries its reason instead.
pub struct ZoomLevel {
    pub name: String,
    pub size_hint: Option<Vec2d>,
    pub headers: Vec<(String, String)>,
    pub tiles: Vec<Result<TileReference, String>>,
}

impl ZoomLevel {
    pub fn new(
        name: String,
        size_hint: Option<Vec2d>,
        headers: Vec<(String, String)>,
        tiles: Vec<Result<TileReference, String>>,
    ) -> (r: ZoomLevel)
        ensures
            r == (ZoomLevel { name, size_hint, headers, tiles }),
    {
        ZoomLevel { name, size_hint, headers, tiles }
    }

    pub fn size_hint(&self) -> (r: Option<Vec2d>)
        ensures
            r == self.size_hint,
    {
        self.size_hint
    }

    pub fn name(&self) -> (r: &String)
        ensures
            r == self.name,
    {
        &self.name
    }

    pub fn http_headers(&self) -> (r: &Vec<(String, String)>)
        ensures
            r == self.headers,
    {
        &self.headers
    }

    /// Consume the level, handing out its tile references.
    pub fn tiles(self) -> (r: Vec<Result<TileReference, String>>)
        ensures
            r == self.tiles,
    {
        self.tiles
    }
}

/// Why a probe call did not return zoom levels: either it first needs the
/// bytes behind one more identifier, or it failed outright.
pub enum DezoomerError {
    NeedsData { uri: String },
    Failed { msg: String },
}

/// What the resolution loop does after one probe call.
pub enum ResolveStep {
    /// The probe answered: discovery is finished.
    Done { levels: Vec<ZoomLevel> },
    /// Fetch the bytes behind this identifier, supply them, and probe again.
    FetchMore { uri: String },
    /// Terminal failure, propagated unchanged.
    Abort { error: ZoomError },
}

/// The state of the input resolution loop: the input the next probe call
/// will see, and how many discovery fetches were performed so far.
///
/// The engine, not the protocol implementation, owns network access, so the
/// loop body that actually fetches runs outside the library; it consults
/// [`ResolutionLoop::step`] after every probe call and records each fetched
/// answer with [`ResolutionLoop::supply_data`]. No iteration bound is
/// imposed: a probe that keeps requesting data keeps the loop in its probing
/// state.
pub struct ResolutionLoop {
    pub input: DezoomerInput,
    pub fetches: usize,
}

impl ResolutionLoop {
    /// Start probing from a user-supplied identifier, with no bytes yet.
    pub fn new(uri: String) -> (r: ResolutionLoop)
        ensures
            r.input.uri == uri,
            r.input.contents is None,
            r.fetches == 0,
    {
        ResolutionLoop { input: DezoomerInput { uri, contents: None }, fetches: 0 }
    }

    pub fn input(&self) -> (r: &DezoomerInput)
        ensures
            r == self.input,
    {
        &self.input
    }

    /// Decide from one probe outcome what the loop does next: success ends
    /// it, a data request keeps it probing, any other error is terminal.
    pub fn step(&self, outcome: Result<Vec<ZoomLevel>, DezoomerError>) -> (r: ResolveStep)
        ensures
            r == step_model(outcome),
    {
        match outcome {
            Ok(levels) => ResolveStep::Done { levels },
            Err(DezoomerError::NeedsData { uri }) => ResolveStep::FetchMore { uri },
            Err(DezoomerError::Failed { msg }) => ResolveStep::Abort {
                error: ZoomError::Dezoomer { msg },
            },
        }
    }

    /// Record the answer to one `FetchMore` request: the next probe call
    /// sees exactly the fetched identifier and bytes, and the fetch count
    /// grows by one.
    pub fn supply_data(&mut self, uri: String, contents: Vec<u8>)
        requires
            old(self).fetches < usize::MAX,
        ensures
            final(self).input.uri == uri,
            final(self).input.contents == Some(contents),
            final(self).fetches == old(self).fetches + 1,
    {
        self.input = DezoomerInput { uri, contents: Some(contents) };
        self.fetches = self.fetches + 1;
    }
}

/// The decision taken after one probe call, as a mathematical function.
pub open spec fn step_model(outcome: Result<Vec<ZoomLevel>, DezoomerError>) -> ResolveStep {
    match outcome {
        Ok(levels) => ResolveStep::Done { levels },
        Err(DezoomerError::NeedsData { uri }) => ResolveStep::FetchMore { uri },
        Err(DezoomerError::Failed { msg }) => ResolveStep::Abort {
            error: ZoomError::Dezoomer { msg },
        },
    }
}

/// How a full run of the resolution loop ends, in the model below.
pub enum RunOutcome {
    /// The probe succeeded: the number of fetches performed, the input the
    /// successful probe call saw, and the levels it returned.
    Finished { fetches: int, last_input: DezoomerInput, levels: Vec<ZoomLevel> },
    /// The probe failed outright after some number of fetches.
    Aborted { fetches: int, msg: String },
    /// The scripted answers ran out before the probe concluded.
    Starved,
}

/// Model of a whole resolution-loop run against fixed behaviours of its two
/// collaborators: `outcomes[i]` is what the probe returns on its `i`-th
/// call, and `fetched[j]` is the `(identifier, bytes)` pair the transport
/// returns for the `j`-th `NeedsData` request. `input` is what the next
/// probe call sees and `k` the fetches performed so far.
pub open spec fn run_model(
    outcomes: Seq<Result<Vec<ZoomLevel>, DezoomerError>>,
    fetched: Seq<(String, Vec<u8>)>,
    input: DezoomerInput,
    k: int,
) -> RunOutcome
    decreases outcomes.len(),
{
    if outcomes.len() == 0 {
        RunOutcome::Starved
    } else {
        match outcomes[0] {
            Ok(levels) => RunOutcome::Finished { fetches: k, last_input: input, levels },
            Err(DezoomerError::Failed { msg }) => RunOutcome::Aborted { fetches: k, msg },
            Err(DezoomerError::NeedsData { uri: _ }) => {
                if fetched.len() == 0 {
                    RunOutcome::Starved
                } else {
                    run_model(
                        outcomes.drop_first(),
                        fetched.drop_first(),
                        DezoomerInput {
                            uri: fetched[0].0,
                            contents: Some(fetched[0].1),
                        },
                        k + 1,
                    )
                }
            }
        }
    }
}

/// Resolution-loop law: a probe that answers `NeedsData` to its first `n`
/// calls and succeeds on call `n` causes exactly `n` additional fetches,
/// and the successful probe call sees precisely the identifier and bytes of
/// the `n`-th fetch (for `n == 0`, the untouched initial input).
pub proof fn lemma_resolution_fetch_count(
    outcomes: Seq<Result<Vec<ZoomLevel>, DezoomerError>>,
    fetched: Seq<(String, Vec<u8>)>,
    input0: DezoomerInput,
    n: int,
)
    requires
        0 <= n < outcomes.len(),
        n <= fetched.len(),
        forall|i: int|
            0 <= i < n ==> (#[trigger] outcomes[i]) matches Err(DezoomerError::NeedsData { .. }),
        outcomes[n] is Ok,
    ensures
        run_model(outcomes, fetched, input0, 0) == (RunOutcome::Finished {
            fetches: n,
            last_input: if n == 0 {
                input0
            } else {
                DezoomerInput { uri: fetched[n - 1].0, contents: Some(fetched[n - 1].1) }
            },
            levels: outcomes[n]->Ok_0,
        }),
{
    lemma_resolution_fetch_count_from(outcomes, fetched, input0, n, 0);
}

/// Helper for the law above, generalised over the fetches already counted.
proof fn lemma_resolution_fetch_count_from(
    outcomes: Seq<Result<Vec<ZoomLevel>, DezoomerError>>,
    fetched: Seq<(String, Vec<u8>)>,
    input0: DezoomerInput,
    n: int,
    k: int,
)
    requires
        0 <= n < outcomes.len(),
        n <= fetched.len(),
        forall|i: int|
            0 <= i < n ==> (#[trigger] outcomes[i]) matches Err(DezoomerError::NeedsData { .. }),
        outcomes[n] is Ok,
    ensures
        run_model(outcomes, fetched, input0, k) == (RunOutcome::Finished {
            fetches: k + n,
            last_input: if n == 0 {
                input0
            } else {
                DezoomerInput { uri: fetched[n - 1].0, contents: Some(fetched[n - 1].1) }
            },
            levels: outcomes[n]->Ok_0,
        }),
    decreases n,
{
    if n == 0 {
    } else {
        assert(outcomes[0] matches Err(DezoomerError::NeedsData { .. }));
        let input1 = DezoomerInput { uri: fetched[0].0, contents: Some(fetched[0].1) };
        lemma_resolution_fetch_count_from(
            outcomes.drop_first(),
            fetched.drop_first(),
            input1,
            n - 1,
            k + 1,
        );
        assert(outcomes.drop_first()[n - 1] == outcomes[n]);
        if n - 1 > 0 {
            assert(fetched.drop_first()[n - 2] == fetched[n - 1]);
        }
    }
}

} // verus!
