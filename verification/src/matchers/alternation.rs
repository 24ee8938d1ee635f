use vstd::prelude::*;
use vstd::utf8::encode_utf8;

use super::pattern::{spec_pattern, Pattern};
use super::{outcome_view, Match, MatchError, MatchResult, MatchView, Matcher, SpecOutcome};

verus! {

/// Splitting `regex` at its top-level, unescaped `|`s, from position `idx`
/// on: `depth` counts the unescaped `(` not yet closed, `start` is where the
/// current alternative began and `acc` holds the finished alternatives.
pub open spec fn split_scan(regex: Seq<char>, idx: int, depth: int, start: int, acc: Seq<Seq<char>>) -> Seq<Seq<char>>
    decreases regex.len() - idx,
{
    if idx < 0 || idx >= regex.len() {
        acc.push(regex.subrange(start, regex.len() as int))
    } else {
        let c = regex[idx];
        let unescaped = idx == 0 || regex[idx - 1] != '\\';
        if c == '(' && unescaped {
            split_scan(regex, idx + 1, depth + 1, start, acc)
        } else if c == ')' && unescaped {
            split_scan(regex, idx + 1, depth - 1, start, acc)
        } else if depth == 0 && c == '|' && unescaped {
            split_scan(regex, idx + 1, depth, idx + 1, acc.push(regex.subrange(start, idx)))
        } else {
            split_scan(regex, idx + 1, depth, start, acc)
        }
    }
}

/// The alternatives of `regex`: its pieces between top-level `|`s.
pub open spec fn split_alternatives(regex: Seq<char>) -> Seq<Seq<char>> {
    split_scan(regex, 0, 0, 0, Seq::empty())
}

/// The length of the longest of `subs`.
pub open spec fn max_len(subs: Seq<Seq<char>>) -> nat
    decreases subs.len(),
{
    if subs.len() == 0 {
        0
    } else {
        let m = max_len(subs.drop_last());
        if subs.last().len() > m {
            subs.last().len()
        } else {
            m
        }
    }
}

pub proof fn lemma_max_len(subs: Seq<Seq<char>>, i: int)
    requires
        0 <= i < subs.len(),
    ensures
        subs[i].len() <= max_len(subs),
    decreases subs.len(),
{
    if i < subs.len() - 1 {
        lemma_max_len(subs.drop_last(), i);
    }
}

proof fn lemma_max_len_bound(subs: Seq<Seq<char>>, bound: nat)
    requires
        forall|j: int| 0 <= j < subs.len() ==> #[trigger] subs[j].len() <= bound,
    ensures
        max_len(subs) <= bound,
    decreases subs.len(),
{
    if subs.len() > 0 {
        lemma_max_len_bound(subs.drop_last(), bound);
    }
}

proof fn lemma_split_scan_pieces(regex: Seq<char>, idx: int, depth: int, start: int, acc: Seq<Seq<char>>)
    requires
        0 <= start <= idx <= regex.len(),
        forall|j: int| 0 <= j < acc.len() ==> #[trigger] acc[j].len() <= regex.len(),
    ensures
        forall|j: int|
            0 <= j < split_scan(regex, idx, depth, start, acc).len() ==> #[trigger] split_scan(
                regex,
                idx,
                depth,
                start,
                acc,
            )[j].len() <= regex.len(),
    decreases regex.len() - idx,
{
    if idx < regex.len() {
        let c = regex[idx];
        let unescaped = idx == 0 || regex[idx - 1] != '\\';
        let next = if c == '(' && unescaped {
            (depth + 1, start, acc)
        } else if c == ')' && unescaped {
            (depth - 1, start, acc)
        } else if depth == 0 && c == '|' && unescaped {
            (depth, idx + 1, acc.push(regex.subrange(start, idx)))
        } else {
            (depth, start, acc)
        };
        assert forall|j: int| 0 <= j < next.2.len() implies #[trigger] next.2[j].len() <= regex.len() by {
            if j < acc.len() {
                assert(acc.push(regex.subrange(start, idx))[j] == acc[j]);
            }
        }
        lemma_split_scan_pieces(regex, idx + 1, next.0, next.1, next.2);
        assert(split_scan(regex, idx, depth, start, acc) == split_scan(regex, idx + 1, next.0, next.1, next.2));
    } else {
        let acc2 = acc.push(regex.subrange(start, regex.len() as int));
        assert forall|j: int| 0 <= j < acc2.len() implies #[trigger] acc2[j].len() <= regex.len() by {
            if j < acc.len() {
                assert(acc2[j] == acc[j]);
            }
        }
        assert(split_scan(regex, idx, depth, start, acc) == acc2);
    }
}

/// No alternative is longer than the whole pattern.
pub proof fn lemma_split_max_len(regex: Seq<char>)
    ensures
        max_len(split_alternatives(regex)) <= regex.len(),
{
    lemma_split_scan_pieces(regex, 0, 0, 0, Seq::empty());
    lemma_max_len_bound(split_alternatives(regex), regex.len());
}

/// Trying the alternatives `subs` from the `i`-th on, each from the match
/// `m`, until one extends it; `m` is handed back when none does.
pub open spec fn spec_alternation_from(
    subs: Seq<Seq<char>>,
    i: int,
    outer: Seq<char>,
    group_idx: Option<usize>,
    line: Seq<char>,
    m: MatchView,
) -> SpecOutcome
    decreases max_len(subs) + outer.len(), 6nat, subs.len() - i,
{
    if i < 0 || i >= subs.len() {
        Ok(Err(m))
    } else {
        proof {
            lemma_max_len(subs, i);
        }
        match spec_pattern(subs[i], outer, group_idx, line, m) {
            Err(e) => Err(e),
            Ok(Ok(sub)) => Ok(Ok(sub)),
            Ok(Err(_)) => spec_alternation_from(subs, i + 1, outer, group_idx, line, m),
        }
    }
}

/// The total byte length of `subs`.
pub open spec fn sum_byte_lens(subs: Seq<Seq<char>>) -> nat
    decreases subs.len(),
{
    if subs.len() == 0 {
        0
    } else {
        sum_byte_lens(subs.drop_last()) + encode_utf8(subs.last()).len()
    }
}

proof fn lemma_sum_byte_lens_prefix(subs: Seq<Seq<char>>, i: int)
    requires
        0 <= i <= subs.len(),
    ensures
        sum_byte_lens(subs.take(i)) <= sum_byte_lens(subs),
    decreases subs.len() - i,
{
    if i < subs.len() {
        lemma_sum_byte_lens_prefix(subs, i + 1);
        assert(subs.take(i + 1).drop_last() =~= subs.take(i));
    } else {
        assert(subs.take(i) =~= subs);
    }
}

/// The alternatives `subs` joined with `|` between them.
pub open spec fn join_alternatives(subs: Seq<Seq<char>>) -> Seq<char>
    decreases subs.len(),
{
    if subs.len() == 0 {
        Seq::empty()
    } else if subs.len() == 1 {
        subs[0]
    } else {
        join_alternatives(subs.drop_last()) + seq!['|'] + subs.last()
    }
}

proof fn lemma_split_scan_join(regex: Seq<char>, idx: int, depth: int, start: int, acc: Seq<Seq<char>>)
    requires
        0 <= start <= idx <= regex.len(),
        acc.len() == 0 ==> start == 0,
        acc.len() > 0 ==> join_alternatives(acc) + seq!['|'] == regex.subrange(0, start),
    ensures
        split_scan(regex, idx, depth, start, acc).len() >= 1,
        join_alternatives(split_scan(regex, idx, depth, start, acc)) == regex,
    decreases regex.len() - idx,
{
    if idx < regex.len() {
        let c = regex[idx];
        let unescaped = idx == 0 || regex[idx - 1] != '\\';
        if c == '(' && unescaped {
            lemma_split_scan_join(regex, idx + 1, depth + 1, start, acc);
        } else if c == ')' && unescaped {
            lemma_split_scan_join(regex, idx + 1, depth - 1, start, acc);
        } else if depth == 0 && c == '|' && unescaped {
            let acc2 = acc.push(regex.subrange(start, idx));
            assert(acc2.drop_last() == acc);
            if acc.len() == 0 {
                assert(join_alternatives(acc2) == regex.subrange(0, idx));
            } else {
                assert(join_alternatives(acc2) == join_alternatives(acc) + seq!['|'] + regex.subrange(start, idx));
                assert(regex.subrange(0, idx) =~= regex.subrange(0, start) + regex.subrange(start, idx));
            }
            assert(join_alternatives(acc2) + seq!['|'] =~= regex.subrange(0, idx + 1));
            lemma_split_scan_join(regex, idx + 1, depth, idx + 1, acc2);
        } else {
            lemma_split_scan_join(regex, idx + 1, depth, start, acc);
        }
    } else {
        let acc2 = acc.push(regex.subrange(start, regex.len() as int));
        assert(acc2.drop_last() == acc);
        if acc.len() == 0 {
            assert(regex.subrange(0, regex.len() as int) =~= regex);
        } else {
            assert(regex =~= regex.subrange(0, start) + regex.subrange(start, regex.len() as int));
        }
        assert(split_scan(regex, idx, depth, start, acc) == acc2);
    }
}

/// Joining the alternatives of a pattern with `|` gives back the pattern;
/// there is always at least one alternative.
pub proof fn lemma_join_split_alternatives(regex: Seq<char>)
    ensures
        split_alternatives(regex).len() >= 1,
        join_alternatives(split_alternatives(regex)) == regex,
{
    lemma_split_scan_join(regex, 0, 0, 0, Seq::empty());
}

/// The bytes of two strings one after the other are the bytes of the
/// first followed by those of the second.
pub proof fn lemma_encode_concat(a: Seq<char>, b: Seq<char>)
    ensures
        encode_utf8(a + b) == encode_utf8(a) + encode_utf8(b),
    decreases a.len(),
{
    if a.len() == 0 {
        assert(a + b =~= b);
        assert(encode_utf8(a) + encode_utf8(b) =~= encode_utf8(b));
    } else {
        assert((a + b).drop_first() =~= a.drop_first() + b);
        lemma_encode_concat(a.drop_first(), b);
        let e0 = vstd::utf8::encode_scalar(a[0] as u32);
        assert(encode_utf8(a + b) == e0 + encode_utf8(a.drop_first() + b));
        assert(e0 + (encode_utf8(a.drop_first()) + encode_utf8(b)) =~= (e0 + encode_utf8(a.drop_first()))
            + encode_utf8(b));
    }
}

proof fn lemma_join_byte_len(subs: Seq<Seq<char>>)
    requires
        subs.len() >= 1,
    ensures
        encode_utf8(join_alternatives(subs)).len() == subs.len() - 1 + sum_byte_lens(subs),
    decreases subs.len(),
{
    if subs.len() > 1 {
        lemma_join_byte_len(subs.drop_last());
        let j = join_alternatives(subs.drop_last());
        lemma_encode_concat(j + seq!['|'], subs.last());
        lemma_encode_concat(j, seq!['|']);
        assert(vstd::utf8::is_ascii_chars(seq!['|']));
        vstd::utf8::is_ascii_chars_encode_utf8(seq!['|']);
    } else {
        assert(sum_byte_lens(subs.drop_last()) == 0);
        assert(subs.last() == subs[0]);
    }
}

/// `a|b|..`: the alternatives of a pattern, tried in order.
pub struct Alternation<'regex> {
    subpatterns: Vec<&'regex str>,
    rest_of_outer_scope: &'regex str,
    group_idx: Option<usize>,
}

impl<'regex> Alternation<'regex> {
    #[verifier::type_invariant]
    spec fn has_alternative(&self) -> bool {
        self.subpatterns.len() >= 1
    }

    /// The alternatives.
    pub closed spec fn subpatterns(&self) -> Seq<Seq<char>> {
        self.subpatterns@.map_values(|s: &str| s@)
    }

    /// What follows the alternation's enclosing repetitions.
    pub closed spec fn rest_of_outer_scope(&self) -> Seq<char> {
        self.rest_of_outer_scope@
    }

    /// The capture the alternation is inside of, if any.
    pub closed spec fn group_idx(&self) -> Option<usize> {
        self.group_idx
    }

    /// Splits `regex` at its top-level `|`s: those outside parentheses and
    /// not right after a backslash.
    pub fn new(regex: &'regex str, rest_of_outer_scope: &'regex str, group_idx: Option<usize>) -> (a: Self)
        ensures
            a.subpatterns() == split_alternatives(regex@),
            a.rest_of_outer_scope() == rest_of_outer_scope@,
            a.group_idx() == group_idx,
    {
        let n = regex.unicode_len();
        let mut subpatterns: Vec<&'regex str> = Vec::new();
        let mut innestation: i128 = 0;
        let mut subpattern_start: usize = 0;
        let mut idx: usize = 0;
        assert(subpatterns@.map_values(|s: &str| s@) =~= Seq::<Seq<char>>::empty());
        while idx < n
            invariant
                subpattern_start <= idx <= n,
                n == regex@.len(),
                -(idx as int) <= innestation <= idx,
                split_scan(
                    regex@,
                    idx as int,
                    innestation as int,
                    subpattern_start as int,
                    subpatterns@.map_values(|s: &str| s@),
                ) == split_alternatives(regex@),
            decreases n - idx,
        {
            let c = regex.get_char(idx);
            let unescaped = idx == 0 || regex.get_char(idx - 1) != '\\';
            if c == '(' && unescaped {
                innestation = innestation + 1;
            } else if c == ')' && unescaped {
                innestation = innestation - 1;
            } else if innestation == 0 && c == '|' && unescaped {
                let ghost before = subpatterns@.map_values(|s: &str| s@);
                let piece = regex.substring_char(subpattern_start, idx);
                subpatterns.push(piece);
                assert(subpatterns@.map_values(|s: &str| s@) =~= before.push(piece@));
                subpattern_start = idx + 1;
            }
            idx = idx + 1;
        }
        let ghost before = subpatterns@.map_values(|s: &str| s@);
        let last = regex.substring_char(subpattern_start, n);
        subpatterns.push(last);
        assert(subpatterns@.map_values(|s: &str| s@) =~= before.push(last@));
        Self { subpatterns, rest_of_outer_scope, group_idx }
    }

    pub(crate) fn extend(&self, input_line: &str, previous_match: Match) -> (r: Result<MatchResult, MatchError>)
        ensures
            outcome_view(r) == spec_alternation_from(
                self.subpatterns(),
                0,
                self.rest_of_outer_scope(),
                self.group_idx(),
                input_line@,
                previous_match@,
            ),
            r matches Ok(Err(q)) ==> q@ == previous_match@,
            r matches Ok(Ok(q)) ==> q.offset >= previous_match.offset,
        decreases max_len(self.subpatterns()) + self.rest_of_outer_scope().len(), 6nat, 0nat,
    {
        let ghost subs = self.subpatterns();
        let ghost m0 = previous_match@;
        let mut current = previous_match;
        let mut i: usize = 0;
        while i < self.subpatterns.len()
            invariant
                m0 == previous_match@,
                current@ == m0,
                i <= self.subpatterns.len(),
                subs == self.subpatterns(),
                subs.len() == self.subpatterns.len(),
                spec_alternation_from(
                    subs,
                    i as int,
                    self.rest_of_outer_scope(),
                    self.group_idx(),
                    input_line@,
                    current@,
                ) == spec_alternation_from(
                    subs,
                    0,
                    self.rest_of_outer_scope(),
                    self.group_idx(),
                    input_line@,
                    m0,
                ),
            decreases self.subpatterns.len() - i,
        {
            proof {
                lemma_max_len(subs, i as int);
            }
            assert(subs[i as int] == self.subpatterns@[i as int]@);
            let submatcher = Pattern::new(self.subpatterns[i], self.rest_of_outer_scope, self.group_idx);
            match submatcher.extend(input_line, current) {
                Err(e) => {
                    return Err(e);
                },
                Ok(Ok(submatch)) => {
                    return Ok(Ok(submatch));
                },
                Ok(Err(pm)) => {
                    current = pm;
                },
            }
            i = i + 1;
        }
        Ok(Err(current))
    }
}

impl<'regex> Matcher for Alternation<'regex> {
    /// The byte length of the alternatives and the `|`s between them.
    open spec fn spec_len(&self) -> nat {
        (self.subpatterns().len() - 1 + sum_byte_lens(self.subpatterns())) as nat
    }

    open spec fn spec_extend_from(&self, input_line: Seq<char>, previous_match: MatchView) -> SpecOutcome {
        spec_alternation_from(
            self.subpatterns(),
            0,
            self.rest_of_outer_scope(),
            self.group_idx(),
            input_line,
            previous_match,
        )
    }

    fn len(&self) -> (n: usize) {
        proof {
            use_type_invariant(self);
        }
        let ghost subs = self.subpatterns();
        let n_patterns = self.subpatterns.len();
        let n_pipes = n_patterns - 1;
        let mut subpatterns_len: usize = 0;
        let mut i: usize = 0;
        while i < n_patterns
            invariant
                i <= n_patterns,
                n_patterns == subs.len(),
                n_patterns >= 1,
                subs == self.subpatterns(),
                n_pipes + sum_byte_lens(subs) <= usize::MAX,
                subpatterns_len == sum_byte_lens(subs.take(i as int)),
            decreases n_patterns - i,
        {
            proof {
                lemma_sum_byte_lens_prefix(subs, i + 1);
                assert(subs.take(i + 1).drop_last() =~= subs.take(i as int));
            }
            subpatterns_len = subpatterns_len + self.subpatterns[i].len();
            i = i + 1;
        }
        assert(subs.take(n_patterns as int) =~= subs);
        n_pipes + subpatterns_len
    }

    fn extend_from(&self, input_line: &str, previous_match: Match) -> (r: Result<MatchResult, MatchError>) {
        self.extend(input_line, previous_match)
    }
}

/// The alternation of a pattern stands for the whole pattern: its byte
/// length (the alternatives and the `|`s between them) is the pattern's.
pub proof fn lemma_alternation_len(regex: Seq<char>)
    ensures
        split_alternatives(regex).len() - 1 + sum_byte_lens(split_alternatives(regex)) == encode_utf8(
            regex,
        ).len(),
{
    lemma_join_split_alternatives(regex);
    lemma_join_byte_len(split_alternatives(regex));
}

} // verus!
