//! What the repetition operators promise: `x+` tries every repetition count
//! down to one, and `x*` every count down to none, before it gives up.

use vstd::prelude::*;
use vstd::utf8::encode_utf8;

use super::bounds_law::lemma_greedy_steps;
use super::one_or_more_quantifier::spec_one_or_more;
use super::progress_law::{lemma_attempt_keeps_progress, lemma_backtrack_keeps_progress};
use super::repetition::{lemma_steps_sum_nonneg, spec_attempt, spec_backtrack, spec_greedy, steps_sum};
use super::zero_or_more_quantifier::spec_zero_or_more;
use super::{advanced, spec_matcher, Capture, MatchView, SpecMatcher, SpecOutcome};

verus! {

/// What follows a repetition never fails outright at `offset`, whatever
/// captures the match carries there: it matches (or stops with an error).
pub open spec fn rest_never_fails_at(
    rest_of_inner_scope: Seq<char>,
    group_idx: Option<usize>,
    rest_of_outer_scope: Seq<char>,
    line: Seq<char>,
    offset: usize,
) -> bool {
    forall|c: Seq<Capture>|
        !(#[trigger] spec_attempt(
            rest_of_inner_scope,
            group_idx,
            rest_of_outer_scope,
            line,
            MatchView { offset, captures: c },
        ) matches Ok(Err(_)))
}

/// The outcome is no plain failure: a match, or an error.
pub open spec fn not_refused(r: SpecOutcome) -> bool {
    !(r matches Ok(Err(_)))
}

/// Repeating keeps the steps already taken in front of the new ones.
proof fn lemma_greedy_keeps_steps(inner: SpecMatcher, line: Seq<char>, m: MatchView, incs: Seq<usize>)
    ensures
        spec_greedy(inner, line, m, incs) matches Ok((mx, incs2)) ==> incs.len() <= incs2.len() && (
        incs.len() > 0 ==> incs2[0] == incs[0]),
    decreases usize::MAX - m.offset,
{
    match spec_matcher(inner, line, m) {
        Ok(Ok(ext)) => {
            if ext.offset > m.offset {
                lemma_greedy_keeps_steps(inner, line, ext, incs.push((ext.offset - m.offset) as usize));
            }
        },
        _ => {},
    }
}

/// Backing off reaches the position of the first step: when what follows
/// never fails there, backing off does not fail.
proof fn lemma_backtrack_reaches_first(
    rest_of_inner_scope: Seq<char>,
    group_idx: Option<usize>,
    rest_of_outer_scope: Seq<char>,
    line: Seq<char>,
    m: MatchView,
    incs: Seq<usize>,
)
    requires
        encode_utf8(line).len() <= usize::MAX,
        incs.len() >= 1,
        steps_sum(incs) <= m.offset,
        rest_never_fails_at(
            rest_of_inner_scope,
            group_idx,
            rest_of_outer_scope,
            line,
            (m.offset - steps_sum(incs) + incs[0]) as usize,
        ),
    ensures
        not_refused(spec_backtrack(rest_of_inner_scope, group_idx, rest_of_outer_scope, line, m, incs)),
    decreases incs.len(),
{
    lemma_attempt_keeps_progress(rest_of_inner_scope, group_idx, rest_of_outer_scope, line, m);
    lemma_steps_sum_nonneg(incs.drop_last());
    if let Ok(Err(same)) = spec_attempt(rest_of_inner_scope, group_idx, rest_of_outer_scope, line, m) {
        if incs.len() == 1 {
            assert(incs.drop_last() =~= Seq::<usize>::empty());
            assert(steps_sum(Seq::<usize>::empty()) == 0);
            assert(m == MatchView { offset: m.offset, captures: m.captures });
            assert(spec_attempt(
                rest_of_inner_scope,
                group_idx,
                rest_of_outer_scope,
                line,
                MatchView { offset: m.offset, captures: m.captures },
            ) matches Ok(Err(_)));
        } else {
            let back = advanced(same, -(incs.last() as int));
            let rest = incs.drop_last();
            assert(rest[0] == incs[0]);
            lemma_backtrack_reaches_first(rest_of_inner_scope, group_idx, rest_of_outer_scope, line, back, rest);
        }
    }
}

/// The match reached by `k` repetitions of `inner` from `m`, each one
/// matching and moving forward; `None` when one of them does not.
pub open spec fn repeated(inner: SpecMatcher, line: Seq<char>, m: MatchView, k: nat) -> Option<MatchView>
    decreases k,
{
    if k == 0 {
        Some(m)
    } else {
        match spec_matcher(inner, line, m) {
            Ok(Ok(e)) => if e.offset > m.offset {
                repeated(inner, line, e, (k - 1) as nat)
            } else {
                None
            },
            _ => None,
        }
    }
}

/// `inner` cannot match once more at `m`.
pub open spec fn stops_at(inner: SpecMatcher, line: Seq<char>, m: MatchView) -> bool {
    spec_matcher(inner, line, m) is Ok && spec_matcher(inner, line, m)->Ok_0 is Err
}

/// Repeating from `m` as long as `inner` matches ends where the
/// repetitions stop.
proof fn lemma_greedy_reaches(inner: SpecMatcher, line: Seq<char>, m: MatchView, k: nat, incs: Seq<usize>, max: MatchView)
    requires
        repeated(inner, line, m, k) == Some(max),
        stops_at(inner, line, max),
    ensures
        spec_greedy(inner, line, m, incs) matches Ok((mx, _)) && mx == max,
    decreases k,
{
    if k > 0 {
        let e = spec_matcher(inner, line, m)->Ok_0->Ok_0;
        lemma_greedy_reaches(inner, line, e, (k - 1) as nat, incs.push((e.offset - m.offset) as usize), max);
    }
}

/// `x+` is greedy and needs one repetition only: when `x` repeats `n >= 1`
/// times from the match's offset and then stops, and what follows matches
/// after those repetitions giving `found`, `x+` gives `found`. With `n`
/// equal to 1: `x+` settles for a single repetition.
pub proof fn lemma_one_or_more_takes_all_repetitions(
    inner: SpecMatcher,
    rest_of_inner_scope: Seq<char>,
    group_idx: Option<usize>,
    rest_of_outer_scope: Seq<char>,
    line: Seq<char>,
    m: MatchView,
    n: nat,
    max: MatchView,
    found: MatchView,
)
    requires
        n >= 1,
        repeated(inner, line, m, n) == Some(max),
        stops_at(inner, line, max),
        spec_attempt(rest_of_inner_scope, group_idx, rest_of_outer_scope, line, max) == Ok::<
            Result<MatchView, MatchView>,
            super::MatchError,
        >(Ok(found)),
    ensures
        spec_one_or_more(inner, rest_of_inner_scope, group_idx, rest_of_outer_scope, line, m) == Ok::<
            Result<MatchView, MatchView>,
            super::MatchError,
        >(Ok(found)),
{
    let first = spec_matcher(inner, line, m)->Ok_0->Ok_0;
    let incs = seq![(first.offset - m.offset) as usize];
    lemma_greedy_reaches(inner, line, first, (n - 1) as nat, incs, max);
    lemma_greedy_keeps_steps(inner, line, first, incs);
}

/// `x*` is greedy: when `x` repeats `n` times from the match's offset
/// (`n` may be 0) and then stops, and what follows matches after those
/// repetitions giving `found`, `x*` gives `found`.
pub proof fn lemma_zero_or_more_takes_all_repetitions(
    inner: SpecMatcher,
    rest_of_inner_scope: Seq<char>,
    group_idx: Option<usize>,
    rest_of_outer_scope: Seq<char>,
    line: Seq<char>,
    m: MatchView,
    n: nat,
    max: MatchView,
    found: MatchView,
)
    requires
        repeated(inner, line, m, n) == Some(max),
        stops_at(inner, line, max),
        spec_attempt(rest_of_inner_scope, group_idx, rest_of_outer_scope, line, max) == Ok::<
            Result<MatchView, MatchView>,
            super::MatchError,
        >(Ok(found)),
    ensures
        spec_zero_or_more(inner, rest_of_inner_scope, group_idx, rest_of_outer_scope, line, m) == Ok::<
            Result<MatchView, MatchView>,
            super::MatchError,
        >(Ok(found)),
{
    lemma_greedy_reaches(inner, line, m, n, Seq::<usize>::empty(), max);
}

/// `x+` backs off down to a single repetition: when `x` matches at the
/// match's offset and what follows never fails where that first repetition
/// ends, `x+` does not fail either.
pub proof fn lemma_one_or_more_backs_off_to_one(
    inner: SpecMatcher,
    rest_of_inner_scope: Seq<char>,
    group_idx: Option<usize>,
    rest_of_outer_scope: Seq<char>,
    line: Seq<char>,
    m: MatchView,
    first: MatchView,
)
    requires
        encode_utf8(line).len() <= usize::MAX,
        spec_matcher(inner, line, m) == Ok::<Result<MatchView, MatchView>, super::MatchError>(Ok(first)),
        first.offset > m.offset,
        rest_never_fails_at(rest_of_inner_scope, group_idx, rest_of_outer_scope, line, first.offset),
    ensures
        not_refused(spec_one_or_more(inner, rest_of_inner_scope, group_idx, rest_of_outer_scope, line, m)),
{
    let incs = seq![(first.offset - m.offset) as usize];
    assert(incs.drop_last() =~= Seq::<usize>::empty());
    assert(steps_sum(Seq::<usize>::empty()) == 0);
    assert(steps_sum(incs) == first.offset - m.offset);
    lemma_greedy_steps(inner, line, first, incs);
    lemma_greedy_keeps_steps(inner, line, first, incs);
    if let Ok((max, incs2)) = spec_greedy(inner, line, first, incs) {
        assert(max.offset - steps_sum(incs2) + incs2[0] == first.offset);
        lemma_backtrack_reaches_first(rest_of_inner_scope, group_idx, rest_of_outer_scope, line, max, incs2);
    }
}

/// `x*` backs off down to no repetition at all: when what follows never
/// fails at the match's offset, `x*` does not fail, whether or not `x`
/// matches there.
pub proof fn lemma_zero_or_more_backs_off_to_zero(
    inner: SpecMatcher,
    rest_of_inner_scope: Seq<char>,
    group_idx: Option<usize>,
    rest_of_outer_scope: Seq<char>,
    line: Seq<char>,
    m: MatchView,
)
    requires
        encode_utf8(line).len() <= usize::MAX,
        rest_never_fails_at(rest_of_inner_scope, group_idx, rest_of_outer_scope, line, m.offset),
    ensures
        not_refused(spec_zero_or_more(inner, rest_of_inner_scope, group_idx, rest_of_outer_scope, line, m)),
{
    let incs = Seq::<usize>::empty();
    assert(steps_sum(incs) == 0);
    lemma_greedy_steps(inner, line, m, incs);
    if let Ok((max, incs2)) = spec_greedy(inner, line, m, incs) {
        lemma_backtrack_keeps_progress(rest_of_inner_scope, group_idx, rest_of_outer_scope, line, max, incs2);
        if let Ok(Err(same)) = spec_backtrack(rest_of_inner_scope, group_idx, rest_of_outer_scope, line, max, incs2) {
            let at = MatchView { offset: m.offset, captures: same.captures };
            assert(same == at);
            assert(!(spec_attempt(rest_of_inner_scope, group_idx, rest_of_outer_scope, line, at) matches Ok(Err(_))));
        }
    }
}

/// `x*` where `x` does not match at the match's offset is just what
/// follows it, matched there: its match, or `m` handed back.
pub proof fn lemma_zero_or_more_without_repetition(
    inner: SpecMatcher,
    rest_of_inner_scope: Seq<char>,
    group_idx: Option<usize>,
    rest_of_outer_scope: Seq<char>,
    line: Seq<char>,
    m: MatchView,
)
    requires
        spec_matcher(inner, line, m) is Ok && spec_matcher(inner, line, m)->Ok_0 is Err,
    ensures
        spec_zero_or_more(inner, rest_of_inner_scope, group_idx, rest_of_outer_scope, line, m) == match spec_attempt(
            rest_of_inner_scope,
            group_idx,
            rest_of_outer_scope,
            line,
            m,
        ) {
            Ok(Err(_)) => Ok(Err(m)),
            r => r,
        },
{
    assert(spec_greedy(inner, line, m, Seq::<usize>::empty()) == Ok::<(MatchView, Seq<usize>), super::MatchError>(
        (m, Seq::<usize>::empty()),
    ));
}

/// The match after `j` repetitions of `inner` from `m`, carrying the
/// captures `c`.
pub open spec fn after_repetitions(inner: SpecMatcher, line: Seq<char>, m: MatchView, j: nat, c: Seq<Capture>) -> MatchView {
    MatchView { offset: repeated(inner, line, m, j)->0.offset, captures: c }
}

/// Fewer repetitions than a number that succeeds succeed too.
proof fn lemma_repeated_prefix(inner: SpecMatcher, line: Seq<char>, m: MatchView, n: nat, j: nat)
    requires
        j <= n,
        repeated(inner, line, m, n) is Some,
    ensures
        repeated(inner, line, m, j) is Some,
    decreases j,
{
    if j > 0 {
        let e = spec_matcher(inner, line, m)->Ok_0->Ok_0;
        lemma_repeated_prefix(inner, line, e, (n - 1) as nat, (j - 1) as nat);
    }
}

/// Repeating records, as its steps, how far each repetition moved.
proof fn lemma_greedy_records_repetitions(
    inner: SpecMatcher,
    line: Seq<char>,
    x: MatchView,
    k: nat,
    incs: Seq<usize>,
    max: MatchView,
)
    requires
        repeated(inner, line, x, k) == Some(max),
        stops_at(inner, line, max),
    ensures
        spec_greedy(inner, line, x, incs) matches Ok((mx, incs2)) && mx == max && incs2.len() == incs.len()
            + k && incs2.take(incs.len() as int) == incs && forall|j: nat|
            j < k ==> #[trigger] incs2[(incs.len() + j) as int] == repeated(inner, line, x, j + 1)->0.offset
                - repeated(inner, line, x, j)->0.offset,
    decreases k,
{
    if k > 0 {
        let e = spec_matcher(inner, line, x)->Ok_0->Ok_0;
        let incs1 = incs.push((e.offset - x.offset) as usize);
        lemma_greedy_records_repetitions(inner, line, e, (k - 1) as nat, incs1, max);
        let incs2 = spec_greedy(inner, line, e, incs1)->Ok_0.1;
        assert(incs2.take(incs.len() as int) =~= incs) by {
            assert(incs2.take(incs1.len() as int) == incs1);
            assert forall|i: int| 0 <= i < incs.len() implies incs2.take(incs.len() as int)[i] == incs[i] by {
                assert(incs2.take(incs1.len() as int)[i] == incs1[i]);
            }
        }
        assert forall|j: nat| j < k implies #[trigger] incs2[(incs.len() + j) as int] == repeated(inner, line, x, j + 1)->0.offset
            - repeated(inner, line, x, j)->0.offset by {
            if j == 0 {
                assert(incs2.take(incs1.len() as int)[incs.len() as int] == incs1[incs.len() as int]);
                assert(incs2[(incs.len() + j) as int] == incs1[incs.len() as int]);
                assert(repeated(inner, line, e, 0) == Some(e));
                assert(repeated(inner, line, x, 1) == repeated(inner, line, e, 0));
                assert(repeated(inner, line, x, 0) == Some(x));
            } else {
                let jj = (j - 1) as nat;
                assert(jj < k - 1);
                let idx = (incs1.len() + jj) as int;
                assert(idx == (incs.len() + j) as int);
                assert(incs2[idx] == repeated(inner, line, e, jj + 1)->0.offset - repeated(inner, line, e, jj)->0.offset);
                assert(repeated(inner, line, x, j + 1) == repeated(inner, line, e, jj + 1));
                assert(repeated(inner, line, x, j) == repeated(inner, line, e, jj));
            }
        }
    } else {
        assert(incs.take(incs.len() as int) =~= incs);
    }
}

/// Backing off from `i` repetitions, one at a time, passing over the counts
/// at which what follows fails and hands back the match, down to count
/// `k`: there it gives what follows gives (`k >= 1`), or, at count 0, hands
/// back the match at the start.
proof fn lemma_backtrack_walks_down(
    inner: SpecMatcher,
    rest_of_inner_scope: Seq<char>,
    group_idx: Option<usize>,
    rest_of_outer_scope: Seq<char>,
    line: Seq<char>,
    m: MatchView,
    c: Seq<Capture>,
    incs: Seq<usize>,
    i: nat,
    k: nat,
)
    requires
        k <= i <= incs.len(),
        repeated(inner, line, m, incs.len()) is Some,
        forall|j: nat|
            j < incs.len() ==> #[trigger] incs[j as int] == repeated(inner, line, m, j + 1)->0.offset
                - repeated(inner, line, m, j)->0.offset,
        forall|j: nat|
            k < j <= i ==> #[trigger] spec_attempt(
                rest_of_inner_scope,
                group_idx,
                rest_of_outer_scope,
                line,
                after_repetitions(inner, line, m, j, c),
            ) == Ok::<Result<MatchView, MatchView>, super::MatchError>(
                Err(after_repetitions(inner, line, m, j, c)),
            ),
        k >= 1 ==> !(spec_attempt(
            rest_of_inner_scope,
            group_idx,
            rest_of_outer_scope,
            line,
            after_repetitions(inner, line, m, k, c),
        ) matches Ok(Err(_))),
    ensures
        spec_backtrack(
            rest_of_inner_scope,
            group_idx,
            rest_of_outer_scope,
            line,
            after_repetitions(inner, line, m, i, c),
            incs.take(i as int),
        ) == if k == 0 {
            Ok::<Result<MatchView, MatchView>, super::MatchError>(Err(after_repetitions(inner, line, m, 0, c)))
        } else {
            spec_attempt(
                rest_of_inner_scope,
                group_idx,
                rest_of_outer_scope,
                line,
                after_repetitions(inner, line, m, k, c),
            )
        },
    decreases i,
{
    let t = incs.take(i as int);
    if i == 0 {
        assert(t.len() == 0);
    } else if i > k {
        let here = after_repetitions(inner, line, m, i, c);
        assert(spec_attempt(rest_of_inner_scope, group_idx, rest_of_outer_scope, line, here) == Ok::<
            Result<MatchView, MatchView>,
            super::MatchError,
        >(Err(here)));
        lemma_repeated_prefix(inner, line, m, incs.len(), i);
        lemma_repeated_prefix(inner, line, m, incs.len(), (i - 1) as nat);
        assert(t.last() == incs[i - 1]);
        assert(incs[(i - 1) as nat as int] == repeated(inner, line, m, i)->0.offset - repeated(
            inner,
            line,
            m,
            (i - 1) as nat,
        )->0.offset);
        assert(advanced(here, -(t.last() as int)) == after_repetitions(inner, line, m, (i - 1) as nat, c));
        assert(t.drop_last() =~= incs.take(i - 1));
        lemma_backtrack_walks_down(
            inner,
            rest_of_inner_scope,
            group_idx,
            rest_of_outer_scope,
            line,
            m,
            c,
            incs,
            (i - 1) as nat,
            k,
        );
    }
}

/// `x+` backs off one repetition at a time: when `x` repeats `n` times from
/// the match's offset and then stops, and what follows fails, handing back
/// the match, after each count from `n` down to `k + 1` (`k >= 1`), the
/// captures being those reached after all `n` repetitions, then `x+` gives
/// what follows gives after `k` repetitions.
pub proof fn lemma_one_or_more_backs_off_one_at_a_time(
    inner: SpecMatcher,
    rest_of_inner_scope: Seq<char>,
    group_idx: Option<usize>,
    rest_of_outer_scope: Seq<char>,
    line: Seq<char>,
    m: MatchView,
    n: nat,
    k: nat,
    max: MatchView,
    found: MatchView,
)
    requires
        1 <= k <= n,
        repeated(inner, line, m, n) == Some(max),
        stops_at(inner, line, max),
        forall|j: nat|
            k < j <= n ==> #[trigger] spec_attempt(
                rest_of_inner_scope,
                group_idx,
                rest_of_outer_scope,
                line,
                after_repetitions(inner, line, m, j, max.captures),
            ) == Ok::<Result<MatchView, MatchView>, super::MatchError>(
                Err(after_repetitions(inner, line, m, j, max.captures)),
            ),
        spec_attempt(
            rest_of_inner_scope,
            group_idx,
            rest_of_outer_scope,
            line,
            after_repetitions(inner, line, m, k, max.captures),
        ) == Ok::<Result<MatchView, MatchView>, super::MatchError>(Ok(found)),
    ensures
        spec_one_or_more(inner, rest_of_inner_scope, group_idx, rest_of_outer_scope, line, m) == Ok::<
            Result<MatchView, MatchView>,
            super::MatchError,
        >(Ok(found)),
{
    let first = spec_matcher(inner, line, m)->Ok_0->Ok_0;
    let incs = seq![(first.offset - m.offset) as usize];
    lemma_greedy_records_repetitions(inner, line, first, (n - 1) as nat, incs, max);
    let incs2 = spec_greedy(inner, line, first, incs)->Ok_0.1;
    assert forall|j: nat| j < incs2.len() implies #[trigger] incs2[j as int] == repeated(inner, line, m, j + 1)->0.offset
        - repeated(inner, line, m, j)->0.offset by {
        if j == 0 {
            assert(incs2.take(1)[0] == incs[0]);
            assert(repeated(inner, line, first, 0) == Some(first));
            assert(repeated(inner, line, m, 1) == repeated(inner, line, first, 0));
            assert(repeated(inner, line, m, 0) == Some(m));
        } else {
            let jj = (j - 1) as nat;
            assert(jj < n - 1);
            let idx = (incs.len() + jj) as int;
            assert(idx == j as int);
            assert(incs2[idx] == repeated(inner, line, first, jj + 1)->0.offset - repeated(inner, line, first, jj)->0.offset);
            assert(repeated(inner, line, m, j + 1) == repeated(inner, line, first, jj + 1));
            assert(repeated(inner, line, m, j) == repeated(inner, line, first, jj));
        }
    }
    assert(after_repetitions(inner, line, m, n, max.captures) == max);
    assert(incs2.take(n as int) =~= incs2);
    lemma_backtrack_walks_down(inner, rest_of_inner_scope, group_idx, rest_of_outer_scope, line, m, max.captures, incs2, n, k);
}

/// `x*` backs off one repetition at a time, down to none: when `x` repeats
/// `n` times from the match's offset and then stops, and what follows
/// fails, handing back the match, after each count from `n` down to
/// `k + 1`, the captures being those reached after all `n` repetitions,
/// then `x*` gives what follows gives after `k` repetitions (`k` may be 0).
pub proof fn lemma_zero_or_more_backs_off_one_at_a_time(
    inner: SpecMatcher,
    rest_of_inner_scope: Seq<char>,
    group_idx: Option<usize>,
    rest_of_outer_scope: Seq<char>,
    line: Seq<char>,
    m: MatchView,
    n: nat,
    k: nat,
    max: MatchView,
    found: MatchView,
)
    requires
        k <= n,
        repeated(inner, line, m, n) == Some(max),
        stops_at(inner, line, max),
        forall|j: nat|
            k < j <= n ==> #[trigger] spec_attempt(
                rest_of_inner_scope,
                group_idx,
                rest_of_outer_scope,
                line,
                after_repetitions(inner, line, m, j, max.captures),
            ) == Ok::<Result<MatchView, MatchView>, super::MatchError>(
                Err(after_repetitions(inner, line, m, j, max.captures)),
            ),
        spec_attempt(
            rest_of_inner_scope,
            group_idx,
            rest_of_outer_scope,
            line,
            after_repetitions(inner, line, m, k, max.captures),
        ) == Ok::<Result<MatchView, MatchView>, super::MatchError>(Ok(found)),
    ensures
        spec_zero_or_more(inner, rest_of_inner_scope, group_idx, rest_of_outer_scope, line, m) == Ok::<
            Result<MatchView, MatchView>,
            super::MatchError,
        >(Ok(found)),
{
    lemma_greedy_records_repetitions(inner, line, m, n, Seq::<usize>::empty(), max);
    let incs2 = spec_greedy(inner, line, m, Seq::<usize>::empty())->Ok_0.1;
    assert forall|j: nat| j < incs2.len() implies #[trigger] incs2[j as int] == repeated(inner, line, m, j + 1)->0.offset
        - repeated(inner, line, m, j)->0.offset by {
        assert(incs2[(0 + j) as int] == incs2[j as int]);
    }
    assert(after_repetitions(inner, line, m, n, max.captures) == max);
    assert(incs2.take(n as int) =~= incs2);
    lemma_backtrack_walks_down(inner, rest_of_inner_scope, group_idx, rest_of_outer_scope, line, m, max.captures, incs2, n, k);
}

} // verus!
