//! What an alternation promises: its alternatives are tried in order from
//! the same match, and the first one that does not fail decides.

use vstd::prelude::*;

use super::alternation::spec_alternation_from;
use super::pattern::spec_pattern;
use super::MatchView;

verus! {

/// Alternative `j` of `subs`, tried from `m`, fails outright.
pub open spec fn alternative_fails(
    subs: Seq<Seq<char>>,
    j: int,
    outer: Seq<char>,
    group_idx: Option<usize>,
    line: Seq<char>,
    m: MatchView,
) -> bool {
    spec_pattern(subs[j], outer, group_idx, line, m) matches Ok(Err(_))
}

proof fn lemma_alternation_from_reaches(
    subs: Seq<Seq<char>>,
    k: int,
    i: int,
    outer: Seq<char>,
    group_idx: Option<usize>,
    line: Seq<char>,
    m: MatchView,
)
    requires
        0 <= k <= i <= subs.len(),
        forall|j: int| k <= j < i ==> #[trigger] alternative_fails(subs, j, outer, group_idx, line, m),
    ensures
        spec_alternation_from(subs, k, outer, group_idx, line, m) == spec_alternation_from(
            subs,
            i,
            outer,
            group_idx,
            line,
            m,
        ),
    decreases i - k,
{
    if k < i {
        assert(alternative_fails(subs, k, outer, group_idx, line, m));
        lemma_alternation_from_reaches(subs, k + 1, i, outer, group_idx, line, m);
    }
}

/// `a1|..|an` gives what its first alternative that does not fail gives,
/// whichever alternative that is: when alternatives `0..i` all fail from
/// `m` and alternative `i` matches (or stops with an error), the
/// alternation gives that same result.
pub proof fn lemma_alternation_first_that_does_not_fail(
    subs: Seq<Seq<char>>,
    i: int,
    outer: Seq<char>,
    group_idx: Option<usize>,
    line: Seq<char>,
    m: MatchView,
)
    requires
        0 <= i < subs.len(),
        forall|j: int| 0 <= j < i ==> #[trigger] alternative_fails(subs, j, outer, group_idx, line, m),
        !alternative_fails(subs, i, outer, group_idx, line, m),
    ensures
        spec_alternation_from(subs, 0, outer, group_idx, line, m) == spec_pattern(
            subs[i],
            outer,
            group_idx,
            line,
            m,
        ),
{
    lemma_alternation_from_reaches(subs, 0, i, outer, group_idx, line, m);
}

/// `a1|..|an` fails, handing back `m`, exactly when every alternative
/// fails from `m`.
pub proof fn lemma_alternation_fails_when_all_fail(
    subs: Seq<Seq<char>>,
    outer: Seq<char>,
    group_idx: Option<usize>,
    line: Seq<char>,
    m: MatchView,
)
    requires
        forall|j: int| 0 <= j < subs.len() ==> #[trigger] alternative_fails(subs, j, outer, group_idx, line, m),
    ensures
        spec_alternation_from(subs, 0, outer, group_idx, line, m) == Ok::<
            Result<MatchView, MatchView>,
            super::MatchError,
        >(Err(m)),
{
    lemma_alternation_from_reaches(subs, 0, subs.len() as int, outer, group_idx, line, m);
}

} // verus!
