use vstd::prelude::*;
use vstd::seq_lib::group_seq_properties;

use crate::dezoomer::ZoomLevel;
use crate::errors::ZoomError;
use crate::vec2d::Vec2d;

verus! {

/// The configuration the engine consumes: which protocol implementation to
/// use, the zoom-level selection policy, and the concurrency degree.
pub struct Arguments {
    /// Input URL or local file name, when given up front.
    pub input_uri: Option<String>,
    /// Path the resulting image should be saved to.
    pub outfile: String,
    /// Name of the protocol implementation to use; "auto" tries them all.
    pub dezoomer: String,
    /// Among several zoom levels, select the one with the greatest area.
    pub largest: bool,
    /// Among several zoom levels, select the greatest-area one whose hinted
    /// width is strictly below this bound.
    pub max_width: Option<u32>,
    /// Like `max_width`, for the hinted height.
    pub max_height: Option<u32>,
    /// At most this many tiles are downloaded at the same time.
    pub num_threads: Option<usize>,
}

impl Arguments {
    /// Whether any size-based selection policy is active at all.
    pub open spec fn has_size_policy(self) -> bool {
        self.largest || self.max_width is Some || self.max_height is Some
    }

    /// Whether a hinted size may take part in the policy comparison: under
    /// "largest" every size may; under the bounds, only sizes strictly
    /// below every given bound.
    pub open spec fn eligible(self, s: Vec2d) -> bool {
        if self.largest {
            true
        } else {
            (match self.max_width {
                Some(w) => s.x < w,
                None => true,
            }) && (match self.max_height {
                Some(h) => s.y < h,
                None => true,
            })
        }
    }

    /// Select the best size under the active policy: the greatest-area
    /// eligible size, the first-encountered one on an exact area tie.
    pub fn best_size(&self, sizes: &Vec<Vec2d>) -> (r: Option<Vec2d>)
        ensures
            r == best_of(*self, sizes@),
    {
        if !self.largest && self.max_width.is_none() && self.max_height.is_none() {
            return None;
        }
        let mut best: Option<Vec2d> = None;
        let mut i: usize = 0;
        while i < sizes.len()
            invariant
                0 <= i <= sizes@.len(),
                self.has_size_policy(),
                best == best_of(*self, sizes@.take(i as int)),
            decreases sizes@.len() - i,
        {
            let s = sizes[i];
            let elig = if self.largest {
                true
            } else {
                (match self.max_width {
                    Some(w) => s.x < w,
                    None => true,
                }) && (match self.max_height {
                    Some(h) => s.y < h,
                    None => true,
                })
            };
            if elig {
                best = match best {
                    None => Some(s),
                    Some(c) => if s.area() > c.area() {
                        Some(s)
                    } else {
                        Some(c)
                    },
                };
            }
            proof {
                assert(sizes@.take(i + 1).drop_last() =~= sizes@.take(i as int));
                assert(sizes@.take(i + 1).last() == sizes@[i as int]);
            }
            i = i + 1;
        }
        proof {
            assert(sizes@.take(sizes@.len() as int) =~= sizes@);
        }
        best
    }
}

/// The selected size under a policy, as a mathematical function: scanning
/// left to right, an eligible size replaces the current best only when its
/// area is strictly greater, so the first-encountered maximum wins.
pub open spec fn best_of(args: Arguments, sizes: Seq<Vec2d>) -> Option<Vec2d>
    decreases sizes.len(),
{
    if !args.has_size_policy() || sizes.len() == 0 {
        None
    } else {
        let prev = best_of(args, sizes.drop_last());
        let s = sizes.last();
        if !args.eligible(s) {
            prev
        } else {
            match prev {
                None => Some(s),
                Some(c) => if s.spec_area() > c.spec_area() {
                    Some(s)
                } else {
                    Some(c)
                },
            }
        }
    }
}

/// What `best_of` returns, characterised without the scan: nothing when no
/// size is eligible; otherwise the first eligible size whose area no other
/// eligible size exceeds.
pub proof fn lemma_best_of_characterisation(args: Arguments, sizes: Seq<Vec2d>)
    requires
        args.has_size_policy(),
    ensures
        (best_of(args, sizes) is None) <==> (forall|j: int|
            0 <= j < sizes.len() ==> !args.eligible(#[trigger] sizes[j])),
        best_of(args, sizes) matches Some(b) ==> exists|i: int|
            {
                &&& 0 <= i < sizes.len()
                &&& #[trigger] sizes[i] == b
                &&& args.eligible(b)
                &&& forall|j: int|
                    0 <= j < sizes.len() && args.eligible(#[trigger] sizes[j])
                        ==> sizes[j].spec_area() <= b.spec_area()
                &&& forall|j: int|
                    0 <= j < i && args.eligible(#[trigger] sizes[j])
                        ==> sizes[j].spec_area() < b.spec_area()
            },
    decreases sizes.len(),
{
    if sizes.len() == 0 {
    } else {
        lemma_best_of_characterisation(args, sizes.drop_last());
        let s = sizes.last();
        let prev = best_of(args, sizes.drop_last());
        assert(forall|j: int| 0 <= j < sizes.len() - 1 ==> sizes[j] == sizes.drop_last()[j]);
        if let Some(b) = best_of(args, sizes) {
            if args.eligible(s) && (prev is None || s.spec_area() > prev->0.spec_area()) {
                assert(b == s);
                assert(sizes[sizes.len() - 1] == b);
            } else {
                let i = choose|i: int|
                    {
                        &&& 0 <= i < sizes.drop_last().len()
                        &&& #[trigger] sizes.drop_last()[i] == b
                        &&& args.eligible(b)
                        &&& forall|j: int|
                            0 <= j < sizes.drop_last().len()
                                && args.eligible(#[trigger] sizes.drop_last()[j])
                                ==> sizes.drop_last()[j].spec_area() <= b.spec_area()
                        &&& forall|j: int|
                            0 <= j < i && args.eligible(#[trigger] sizes.drop_last()[j])
                                ==> sizes.drop_last()[j].spec_area() < b.spec_area()
                    };
                assert(sizes[i] == b);
            }
        }
    }
}

/// Largest-policy law: when one size's area strictly exceeds every other
/// area in the sequence, that size is selected, wherever it stands.
pub proof fn lemma_largest_selects_max(args: Arguments, sizes: Seq<Vec2d>, m: Vec2d)
    requires
        args.largest,
        sizes.contains(m),
        forall|j: int|
            0 <= j < sizes.len() && #[trigger] sizes[j] != m
                ==> sizes[j].spec_area() < m.spec_area(),
    ensures
        best_of(args, sizes) == Some(m),
    decreases sizes.len(),
{
    let s = sizes.last();
    if sizes.len() == 1 {
        assert(sizes[0] == m);
    } else {
        assert(forall|j: int| 0 <= j < sizes.len() - 1 ==> sizes[j] == sizes.drop_last()[j]);
        if s == m {
            lemma_best_of_characterisation(args, sizes.drop_last());
            match best_of(args, sizes.drop_last()) {
                None => {}
                Some(c) => {
                    if c != m {
                        let i = choose|i: int|
                            0 <= i < sizes.drop_last().len() && #[trigger] sizes.drop_last()[i]
                                == c;
                        assert(sizes[i] == c);
                        assert(c.spec_area() < m.spec_area());
                    } else {
                        assert(best_of(args, sizes) == Some(m));
                    }
                }
            }
        } else {
            assert(s.spec_area() < m.spec_area());
            let prefix = sizes.drop_last();
            let i = choose|i: int| 0 <= i < sizes.len() && #[trigger] sizes[i] == m;
            assert(prefix[i] == m);
            assert(prefix.contains(m));
            lemma_largest_selects_max(args, prefix, m);
        }
    }
}

/// Order-independence law for the "largest" policy: over sizes with
/// pairwise distinct areas, any two orders of the same sizes select the
/// same level. (Order decides only exact area ties, where the
/// first-encountered size wins; two distinct sizes of equal area, such as
/// transposes of each other, are such a tie.)
pub proof fn lemma_largest_order_independent(args: Arguments, s1: Seq<Vec2d>, s2: Seq<Vec2d>)
    requires
        args.largest,
        s1.len() > 0,
        s1.to_multiset() == s2.to_multiset(),
        forall|i: int, j: int|
            0 <= i < j < s1.len() ==> (#[trigger] s1[i]).spec_area() != (#[trigger] s1[j]).spec_area(),
    ensures
        best_of(args, s1) == best_of(args, s2),
{
    broadcast use group_seq_properties;

    lemma_best_of_characterisation(args, s1);
    let b = best_of(args, s1)->0;
    let i = choose|i: int|
        {
            &&& 0 <= i < s1.len()
            &&& #[trigger] s1[i] == b
            &&& args.eligible(b)
            &&& forall|j: int|
                0 <= j < s1.len() && args.eligible(#[trigger] s1[j])
                    ==> s1[j].spec_area() <= b.spec_area()
        };
    assert(forall|j: int|
        0 <= j < s1.len() && #[trigger] s1[j] != b ==> s1[j].spec_area() < b.spec_area()) by {
        assert forall|j: int| 0 <= j < s1.len() && #[trigger] s1[j] != b implies s1[j].spec_area()
            < b.spec_area() by {
            if j < i {
                assert(s1[j].spec_area() != s1[i].spec_area());
            } else if j > i {
                assert(s1[i].spec_area() != s1[j].spec_area());
            }
        }
    }
    lemma_largest_selects_max(args, s1, b);
    // transfer membership and maximality to s2 through the multiset
    s1.to_multiset_ensures();
    s2.to_multiset_ensures();
    assert(s1.to_multiset().count(b) > 0);
    assert(s2.contains(b));
    assert forall|j: int| 0 <= j < s2.len() && #[trigger] s2[j] != b implies s2[j].spec_area()
        < b.spec_area() by {
        assert(s2.to_multiset().count(s2[j]) > 0);
        assert(s1.to_multiset().count(s2[j]) > 0);
        assert(s1.contains(s2[j]));
        let k = choose|k: int| 0 <= k < s1.len() && #[trigger] s1[k] == s2[j];
        assert(s1[k] != b);
    }
    lemma_largest_selects_max(args, s2, b);
}

/// Width-bound law: whatever a sequence of hinted sizes holds, a size
/// selected under a `max_width` bound has width strictly below the bound,
/// and no eligible size has strictly greater area.
pub proof fn lemma_max_width_bound(args: Arguments, sizes: Seq<Vec2d>, b: Vec2d)
    requires
        !args.largest,
        args.max_width is Some,
        best_of(args, sizes) == Some(b),
    ensures
        b.x < args.max_width->0,
        forall|j: int|
            0 <= j < sizes.len() && args.eligible(#[trigger] sizes[j])
                ==> sizes[j].spec_area() <= b.spec_area(),
{
    lemma_best_of_characterisation(args, sizes);
    let i = choose|i: int|
        {
            &&& 0 <= i < sizes.len()
            &&& #[trigger] sizes[i] == b
            &&& args.eligible(b)
            &&& forall|j: int|
                0 <= j < sizes.len() && args.eligible(#[trigger] sizes[j])
                    ==> sizes[j].spec_area() <= b.spec_area()
        };
}

/// The size hints of a sequence of levels, in order, levels without a hint
/// left out.
pub open spec fn hinted_sizes(levels: Seq<ZoomLevel>) -> Seq<Vec2d>
    decreases levels.len(),
{
    if levels.len() == 0 {
        Seq::empty()
    } else {
        let rest = hinted_sizes(levels.drop_last());
        match levels.last().size_hint {
            Some(s) => rest.push(s),
            None => rest,
        }
    }
}

/// What the selector decided for a sequence of levels.
pub enum LevelSelection {
    /// The policy (or the trivial single-level case) picked this level.
    Picked { level: ZoomLevel },
    /// No usable policy or no level within the bounds: fall back to an
    /// interactive pick among these levels.
    AskUser { levels: Vec<ZoomLevel> },
    /// There was no level at all.
    NoLevels,
}

/// Choose one zoom level: none is a failure, a single one is returned
/// as is, and among several the policy's best hinted size decides; the
/// first level hinting exactly that size is picked. Without a policy
/// verdict the caller must ask the user.
pub fn choose_level(levels: Vec<ZoomLevel>, args: &Arguments) -> (r: LevelSelection)
    ensures
        levels@.len() == 0 ==> r is NoLevels,
        levels@.len() == 1 ==> r == (LevelSelection::Picked { level: levels@[0] }),
        levels@.len() >= 2 ==> match best_of(*args, hinted_sizes(levels@)) {
            Some(b) => r matches LevelSelection::Picked { level } && exists|i: int|
                {
                    &&& 0 <= i < levels@.len()
                    &&& #[trigger] levels@[i] == level
                    &&& levels@[i].size_hint == Some(b)
                    &&& forall|j: int| 0 <= j < i ==> (#[trigger] levels@[j]).size_hint != Some(b)
                },
            None => r == (LevelSelection::AskUser { levels }),
        },
{
    let ghost orig = levels@;
    if levels.len() == 0 {
        return LevelSelection::NoLevels;
    }
    if levels.len() == 1 {
        let mut levels = levels;
        let level = levels.swap_remove(0);
        return LevelSelection::Picked { level };
    }
    let mut sizes: Vec<Vec2d> = Vec::new();
    let mut i: usize = 0;
    while i < levels.len()
        invariant
            orig == levels@,
            0 <= i <= levels@.len(),
            sizes@ == hinted_sizes(levels@.take(i as int)),
        decreases levels@.len() - i,
    {
        match levels[i].size_hint {
            Some(s) => sizes.push(s),
            None => {}
        }
        proof {
            assert(levels@.take(i + 1).drop_last() =~= levels@.take(i as int));
            assert(levels@.take(i + 1).last() == levels@[i as int]);
        }
        i = i + 1;
    }
    proof {
        assert(levels@.take(levels@.len() as int) =~= levels@);
    }
    match args.best_size(&sizes) {
        None => LevelSelection::AskUser { levels },
        Some(b) => {
            let mut i: usize = 0;
            while i < levels.len()
                invariant
                    orig == levels@,
                    0 <= i <= levels@.len(),
                    levels@.len() >= 2,
                    best_of(*args, hinted_sizes(levels@)) == Some(b),
                    forall|j: int| 0 <= j < i ==> (#[trigger] levels@[j]).size_hint != Some(b),
                decreases levels@.len() - i,
            {
                let hit = match levels[i].size_hint {
                    Some(s) => s == b,
                    None => false,
                };
                if hit {
                    let ghost wi = i as int;
                    let mut levels = levels;
                    let level = levels.swap_remove(i);
                    proof {
                        assert(orig[wi] == level);
                        assert(orig[wi].size_hint == Some(b));
                        assert(exists|k: int|
                            {
                                &&& 0 <= k < orig.len()
                                &&& #[trigger] orig[k] == level
                                &&& orig[k].size_hint == Some(b)
                                &&& forall|j: int|
                                    0 <= j < k ==> (#[trigger] orig[j]).size_hint != Some(b)
                            });
                    }
                    return LevelSelection::Picked { level };
                }
                i = i + 1;
            }
            proof {
                // the best size came from the hints, so some level carries
                // it; that contradicts the completed search above
                lemma_best_of_characterisation(*args, hinted_sizes(levels@));
                let bi = choose|bi: int|
                    0 <= bi < hinted_sizes(levels@).len() && #[trigger] hinted_sizes(
                        levels@,
                    )[bi] == b;
                assert(hinted_sizes(levels@).contains(b));
                lemma_hinted_size_has_level(levels@, b);
                assert(false);
            }
            LevelSelection::AskUser { levels }
        }
    }
}

/// Every hinted size comes from some level of the sequence.
proof fn lemma_hinted_size_has_level(levels: Seq<ZoomLevel>, s: Vec2d)
    requires
        hinted_sizes(levels).contains(s),
    ensures
        exists|i: int| 0 <= i < levels.len() && (#[trigger] levels[i]).size_hint == Some(s),
    decreases levels.len(),
{
    if levels.len() > 0 {
        let rest = hinted_sizes(levels.drop_last());
        if levels.last().size_hint == Some(s) {
            assert(levels[levels.len() - 1].size_hint == Some(s));
        } else {
            assert(rest.contains(s)) by {
                match levels.last().size_hint {
                    Some(x) => {
                        let j = choose|j: int|
                            0 <= j < hinted_sizes(levels).len() && #[trigger] hinted_sizes(
                                levels,
                            )[j] == s;
                        assert(j < rest.len());
                    }
                    None => {}
                }
            }
            lemma_hinted_size_has_level(levels.drop_last(), s);
            let i = choose|i: int|
                0 <= i < levels.drop_last().len() && (#[trigger] levels.drop_last()[i]).size_hint
                    == Some(s);
            assert(levels[i].size_hint == Some(s));
        }
    }
}

/// Validated pick for the interactive fallback: an in-range index selects
/// that level; an out-of-range one hands the levels back for another try.
pub fn pick_level(levels: Vec<ZoomLevel>, index: usize) -> (r: Result<ZoomLevel, Vec<ZoomLevel>>)
    ensures
        index < levels@.len() ==> r == Ok::<ZoomLevel, Vec<ZoomLevel>>(levels@[index as int]),
        index >= levels@.len() ==> r == Err::<ZoomLevel, Vec<ZoomLevel>>(levels),
{
    if index < levels.len() {
        let mut levels = levels;
        Ok(levels.swap_remove(index))
    } else {
        Err(levels)
    }
}

} // verus!
