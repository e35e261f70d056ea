use vstd::prelude::*;

verus! {

/// The baseline transport headers every request carries. A chosen zoom
/// level's own headers are merged over these with
/// [`headers_for_level`]; on a name collision the level's value wins.
pub fn default_headers() -> (r: Vec<(String, String)>)
    ensures
        r@.len() == 1,
        r@[0].0@ == "User-Agent"@,
        r@[0].1@ == "Mozilla/5.0 Gecko/20100101 Firefox/59.0"@,
{
    let mut v: Vec<(String, String)> = Vec::new();
    v.push(("User-Agent".to_owned(), "Mozilla/5.0 Gecko/20100101 Firefox/59.0".to_owned()));
    v
}

/// The value a header list gives for a name: the first entry with that
/// name decides.
pub open spec fn header_lookup(hs: Seq<(String, String)>, name: Seq<char>) -> Option<Seq<char>>
    decreases hs.len(),
{
    if hs.len() == 0 {
        None
    } else if hs[0].0@ == name {
        Some(hs[0].1@)
    } else {
        header_lookup(hs.drop_first(), name)
    }
}

/// The entries of `base` whose names `level` does not bind, in order.
pub open spec fn kept_base(
    base: Seq<(String, String)>,
    level: Seq<(String, String)>,
) -> Seq<(String, String)>
    decreases base.len(),
{
    if base.len() == 0 {
        Seq::empty()
    } else {
        let rest = kept_base(base.drop_last(), level);
        if header_lookup(level, base.last().0@) is None {
            rest.push(base.last())
        } else {
            rest
        }
    }
}

/// Looking a name up in a concatenation: the left part answers first.
proof fn lemma_lookup_concat(a: Seq<(String, String)>, b: Seq<(String, String)>, name: Seq<char>)
    ensures
        header_lookup(a + b, name) == (match header_lookup(a, name) {
            Some(v) => Some(v),
            None => header_lookup(b, name),
        }),
    decreases a.len(),
{
    if a.len() == 0 {
        assert(a + b =~= b);
    } else {
        assert((a + b)[0] == a[0]);
        assert((a + b).drop_first() =~= a.drop_first() + b);
        lemma_lookup_concat(a.drop_first(), b, name);
    }
}

/// Looking a name up after appending one entry at the back: the existing
/// entries answer first.
proof fn lemma_lookup_snoc(s: Seq<(String, String)>, e: (String, String), name: Seq<char>)
    ensures
        header_lookup(s.push(e), name) == (match header_lookup(s, name) {
            Some(v) => Some(v),
            None => if e.0@ == name {
                Some(e.1@)
            } else {
                None
            },
        }),
{
    let single = seq![e];
    assert(s.push(e) =~= s + single);
    lemma_lookup_concat(s, single, name);
    assert(single.drop_first() =~= Seq::<(String, String)>::empty());
    assert(header_lookup(single.drop_first(), name) is None);
    assert(single[0] == e);
    assert(header_lookup(single, name) == (if e.0@ == name {
        Some(e.1@)
    } else {
        None
    }));
}

/// What the kept part of the baseline answers: nothing for a name the
/// level binds, the baseline's own answer otherwise.
proof fn lemma_lookup_kept(
    base: Seq<(String, String)>,
    level: Seq<(String, String)>,
    name: Seq<char>,
)
    ensures
        header_lookup(kept_base(base, level), name) == (if header_lookup(level, name) is Some {
            None
        } else {
            header_lookup(base, name)
        }),
    decreases base.len(),
{
    if base.len() == 0 {
    } else {
        let init = base.drop_last();
        let last = base.last();
        lemma_lookup_kept(init, level, name);
        assert(init.push(last) =~= base);
        lemma_lookup_snoc(init, last, name);
        if header_lookup(level, last.0@) is None {
            lemma_lookup_snoc(kept_base(init, level), last, name);
        }
    }
}

/// Override law of the header configuration: the merged list answers with
/// the level's value for every name the level binds, and with the
/// baseline's value otherwise.
pub proof fn lemma_merge_override(
    base: Seq<(String, String)>,
    level: Seq<(String, String)>,
    name: Seq<char>,
)
    ensures
        header_lookup(level + kept_base(base, level), name) == (match header_lookup(level, name) {
            Some(v) => Some(v),
            None => header_lookup(base, name),
        }),
{
    lemma_lookup_concat(level, kept_base(base, level), name);
    lemma_lookup_kept(base, level, name);
}

/// Whether a header list binds a name.
fn binds_name(hs: &Vec<(String, String)>, name: &String) -> (r: bool)
    ensures
        r == (header_lookup(hs@, name@) is Some),
{
    let mut i: usize = 0;
    while i < hs.len()
        invariant
            0 <= i <= hs@.len(),
            forall|j: int| 0 <= j < i ==> (#[trigger] hs@[j]).0@ != name@,
        decreases hs@.len() - i,
    {
        if hs[i].0 == *name {
            proof {
                lemma_lookup_found(hs@, name@, i as int);
            }
            return true;
        }
        i = i + 1;
    }
    proof {
        lemma_lookup_missing(hs@, name@);
    }
    false
}

/// A list whose entry `i` carries the name, none before it, answers.
proof fn lemma_lookup_found(hs: Seq<(String, String)>, name: Seq<char>, i: int)
    requires
        0 <= i < hs.len(),
        hs[i].0@ == name,
        forall|j: int| 0 <= j < i ==> (#[trigger] hs[j]).0@ != name,
    ensures
        header_lookup(hs, name) is Some,
    decreases i,
{
    if i > 0 {
        lemma_lookup_found(hs.drop_first(), name, i - 1);
    }
}

/// A list none of whose entries carries the name answers nothing.
proof fn lemma_lookup_missing(hs: Seq<(String, String)>, name: Seq<char>)
    requires
        forall|j: int| 0 <= j < hs.len() ==> (#[trigger] hs[j]).0@ != name,
    ensures
        header_lookup(hs, name) is None,
    decreases hs.len(),
{
    if hs.len() > 0 {
        lemma_lookup_missing(hs.drop_first(), name);
    }
}

/// Merge the baseline headers with a chosen level's own: the level's
/// entries come first and win on a name collision; baseline entries for
/// names the level does not bind follow, in their order (see
/// [`lemma_merge_override`]).
pub fn headers_for_level(
    base: &Vec<(String, String)>,
    level: &Vec<(String, String)>,
) -> (r: Vec<(String, String)>)
    ensures
        r@ == level@ + kept_base(base@, level@),
{
    let mut r: Vec<(String, String)> = Vec::new();
    let mut i: usize = 0;
    while i < level.len()
        invariant
            0 <= i <= level@.len(),
            r@.len() == i,
            forall|j: int| 0 <= j < i ==> r@[j] == level@[j],
        decreases level@.len() - i,
    {
        r.push((level[i].0.clone(), level[i].1.clone()));
        i = i + 1;
    }
    proof {
        assert(r@ =~= level@);
    }
    let ghost level_part = r@;
    let mut i: usize = 0;
    while i < base.len()
        invariant
            level_part == level@,
            0 <= i <= base@.len(),
            r@ == level_part + kept_base(base@.take(i as int), level@),
        decreases base@.len() - i,
    {
        if !binds_name(level, &base[i].0) {
            r.push((base[i].0.clone(), base[i].1.clone()));
        }
        proof {
            assert(base@.take(i + 1).drop_last() =~= base@.take(i as int));
            assert(base@.take(i + 1).last() == base@[i as int]);
            if header_lookup(level@, base@[i as int].0@) is None {
                assert(r@ =~= level_part + kept_base(base@.take(i + 1), level@));
            }
        }
        i = i + 1;
    }
    proof {
        assert(base@.take(base@.len() as int) =~= base@);
    }
    r
}

} // verus!
