//! Hierarchical numbering of headings and the nesting of their table of
//! contents entries, stated over the sequence of heading levels (1 to 6).

use vstd::prelude::*;

verus! {

/// Every level lies between 1 and 6.
pub open spec fn valid_levels(levels: Seq<nat>) -> bool {
    forall|i: int| 0 <= i < levels.len() ==> 1 <= #[trigger] levels[i] <= 6
}

/// The counter table after a heading of level `level`: counters above it are
/// reset to 0, its own is incremented, those below are kept.
pub open spec fn bump(c: Seq<nat>, level: nat) -> Seq<nat> {
    Seq::new(6, |k: int| if k + 1 < level { c[k] } else if k + 1 == level { c[k] + 1 } else { 0 })
}

/// The counter table (index k holds the count of level k + 1) after the
/// first `n` headings.
pub open spec fn counters_after(levels: Seq<nat>, n: nat) -> Seq<nat>
    decreases n,
{
    if n == 0 || n > levels.len() {
        Seq::new(6, |k: int| 0)
    } else {
        bump(counters_after(levels, (n - 1) as nat), levels[n - 1])
    }
}

/// The numeric path of heading `i`: the counters of levels 1 to its own level.
pub open spec fn number_path(levels: Seq<nat>, i: nat) -> Seq<nat> {
    counters_after(levels, i + 1).take(levels[i as int] as int)
}

/// The entry under which heading `i` is nested: the last earlier heading
/// with a lower level, if there is one.
pub open spec fn is_toc_parent(levels: Seq<nat>, i: int, j: int) -> bool {
    &&& 0 <= j < i < levels.len()
    &&& levels[j] < levels[i]
    &&& forall|k: int| j < k < i ==> levels[k] >= levels[i]
}

/// Heading `i` is a top-level entry: no earlier heading has a lower level.
pub open spec fn is_toc_root(levels: Seq<nat>, i: int) -> bool {
    forall|k: int| 0 <= k < i ==> levels[k] >= levels[i]
}

/// What the parent table of a whole outline holds.
pub open spec fn parents_of(levels: Seq<nat>, parents: Seq<Option<usize>>) -> bool {
    &&& parents.len() == levels.len()
    &&& forall|i: int| 0 <= i < levels.len() ==> match #[trigger] parents[i] {
        Some(j) => is_toc_parent(levels, i, j as int),
        None => is_toc_root(levels, i),
    }
}

pub proof fn lemma_counters_len(levels: Seq<nat>, n: nat)
    ensures
        counters_after(levels, n).len() == 6,
        forall|k: int| 0 <= k < 6 ==> #[trigger] counters_after(levels, n)[k] <= n,
    decreases n,
{
    if n > 0 && n <= levels.len() {
        lemma_counters_len(levels, (n - 1) as nat);
    }
}

/// Skipped levels read 0: in the path of heading `i`, every level strictly
/// between the previous heading's level (0 for the first heading) and its own
/// is 0, and its own level's count is at least 1.
pub proof fn lemma_level_skip_resets(levels: Seq<nat>, i: nat, k: nat)
    requires
        valid_levels(levels),
        i < levels.len(),
        (if i == 0 { 0 } else { levels[i - 1] }) < k < levels[i as int],
    ensures
        number_path(levels, i).len() == levels[i as int],
        number_path(levels, i)[k - 1] == 0,
        number_path(levels, i)[levels[i as int] - 1] >= 1,
{
    lemma_counters_len(levels, i);
    if i > 0 {
        lemma_counters_len(levels, (i - 1) as nat);
    }
}

/// Nesting follows headings: when heading `j` has the level just above
/// heading `i`, and no heading between them is shallower than `i`, the entry
/// of `i` is nested under the entry of `j`.
pub proof fn lemma_nested_under_previous_level(
    levels: Seq<nat>,
    parents: Seq<Option<usize>>,
    i: int,
    j: int,
)
    requires
        parents_of(levels, parents),
        0 <= j < i < levels.len(),
        levels[j] + 1 == levels[i],
        forall|k: int| j < k < i ==> levels[k] >= levels[i],
    ensures
        parents[i] == Some(j as usize),
{
    match parents[i] {
        Some(p) => {
            if (p as int) < j {
                assert(levels[j] >= levels[i]);
            } else if (p as int) > j {
                assert(levels[p as int] >= levels[i]);
            }
        },
        None => {
            assert(levels[j] >= levels[i]);
        },
    }
}

/// Computes, for each heading, the entry it is nested under, with a stack of
/// open entries whose levels strictly increase.
#[verifier::rlimit(80)]
pub fn toc_parents(levels: &Vec<u8>) -> (parents: Vec<Option<usize>>)
    ensures
        parents_of(levels@.map_values(|l: u8| l as nat), parents@),
{
    let ghost lv = levels@.map_values(|l: u8| l as nat);
    let mut parents: Vec<Option<usize>> = Vec::new();
    let mut stack: Vec<usize> = Vec::new();
    let mut i: usize = 0;
    while i < levels.len()
        invariant
            lv == levels@.map_values(|l: u8| l as nat),
            i <= levels.len(),
            parents@.len() == i,
            forall|a: int| 0 <= a < i ==> match #[trigger] parents@[a] {
                Some(j) => is_toc_parent(lv, a, j as int),
                None => is_toc_root(lv, a),
            },
            forall|t: int| 0 <= t < stack@.len() ==> #[trigger] stack@[t] < i,
            forall|t: int, u: int| 0 <= t < u < stack@.len() ==> stack@[t] < stack@[u] && lv[stack@[t] as int] < lv[stack@[u] as int],
            i > 0 ==> stack@.len() > 0 && stack@[stack@.len() - 1] == i - 1,
            forall|t: int, k: int| #![trigger stack@[t], lv[k]] 0 <= t < stack@.len() && stack@[t] < k < i ==> lv[k] > lv[stack@[t] as int],
            forall|t: int, k: int| #![trigger stack@[t], lv[k]] 0 <= t < stack@.len() && (if t == 0 { 0 } else { stack@[t - 1] + 1 }) <= k < stack@[t] ==> lv[k] >= lv[stack@[t] as int],
            stack@.len() == 0 ==> i == 0,
        decreases levels.len() - i,
    {
        let level = levels[i];
        while stack.len() > 0 && levels[stack[stack.len() - 1]] >= level
            invariant
                lv == levels@.map_values(|l: u8| l as nat),
                i < levels.len(),
                level == levels@[i as int],
                forall|t: int| 0 <= t < stack@.len() ==> #[trigger] stack@[t] < i,
                forall|t: int, u: int| 0 <= t < u < stack@.len() ==> stack@[t] < stack@[u] && lv[stack@[t] as int] < lv[stack@[u] as int],
                forall|t: int, k: int| #![trigger stack@[t], lv[k]] 0 <= t < stack@.len() && stack@[t] < k < i ==> lv[k] > lv[stack@[t] as int] || lv[k] >= lv[i as int],
                forall|t: int, k: int| #![trigger stack@[t], lv[k]] 0 <= t < stack@.len() && (if t == 0 { 0 } else { stack@[t - 1] + 1 }) <= k < stack@[t] ==> lv[k] >= lv[stack@[t] as int],
                stack@.len() > 0 ==> forall|k: int| stack@[stack@.len() - 1] < k < i ==> lv[k] >= lv[i as int],
                stack@.len() == 0 ==> forall|k: int| 0 <= k < i ==> lv[k] >= lv[i as int],
            decreases stack.len(),
        {
            let ghost old_stack = stack@;
            let top = stack.pop().unwrap();
            proof {
                assert(stack@ == old_stack.drop_last());
                if stack@.len() > 0 {
                    assert forall|k: int| stack@[stack@.len() - 1] < k < i implies lv[k] >= lv[i as int] by {
                        if k < top as int {
                            assert(lv[k] >= lv[old_stack[old_stack.len() - 1] as int]);
                        } else if k > top as int {
                        }
                    }
                } else {
                    assert forall|k: int| 0 <= k < i implies lv[k] >= lv[i as int] by {
                        if k < top as int {
                            assert(lv[k] >= lv[old_stack[0] as int]);
                        }
                    }
                }
            }
        }
        let ghost before = stack@;
        let ghost prev_parents = parents@;
        if stack.len() > 0 {
            parents.push(Some(stack[stack.len() - 1]));
            proof {
                assert(is_toc_parent(lv, i as int, before[before.len() - 1] as int));
            }
        } else {
            parents.push(None);
            proof {
                assert(is_toc_root(lv, i as int));
            }
        }
        proof {
            assert forall|a: int| 0 <= a < i + 1 implies match #[trigger] parents@[a] {
                Some(j) => is_toc_parent(lv, a, j as int),
                None => is_toc_root(lv, a),
            } by {
                if a < i {
                    assert(parents@[a] == prev_parents[a]);
                }
            }
        }
        stack.push(i);
        proof {
            assert forall|t: int, k: int| #![trigger stack@[t], lv[k]] 0 <= t < stack@.len() && stack@[t] < k < i + 1 implies lv[k] > lv[stack@[t] as int] by {
                if t < before.len() {
                    if k == i as int {
                    } else {
                        assert(lv[k] > lv[before[t] as int] || lv[k] >= lv[i as int]);
                        if !(lv[k] > lv[before[t] as int]) {
                            assert(lv[before[t] as int] < lv[i as int]) by {
                                assert(lv[before[t] as int] <= lv[before[before.len() - 1] as int]);
                            }
                        }
                    }
                }
            }
        }
        i = i + 1;
    }
    parents
}


/// Searching down from `j`, the last heading before `j` with a level below `level`.
pub open spec fn last_lower(levels: Seq<nat>, level: nat, j: int) -> Option<nat>
    decreases j,
{
    if j <= 0 || j > levels.len() {
        None
    } else if levels[j - 1] < level {
        Some((j - 1) as nat)
    } else {
        last_lower(levels, level, j - 1)
    }
}

/// The entry that heading `i` is nested under, if any.
pub open spec fn toc_parent(levels: Seq<nat>, i: int) -> Option<nat> {
    last_lower(levels, levels[i], i)
}

proof fn lemma_last_lower_skip(levels: Seq<nat>, level: nat, a: int, j: int)
    requires
        0 <= a <= j <= levels.len(),
        forall|k: int| a <= k < j ==> levels[k] >= level,
    ensures
        last_lower(levels, level, j) == last_lower(levels, level, a),
    decreases j - a,
{
    if j > a {
        lemma_last_lower_skip(levels, level, a, j - 1);
    }
}

/// A parent table computed by `toc_parents` agrees with `toc_parent`.
pub proof fn lemma_parents_agree(levels: Seq<nat>, parents: Seq<Option<usize>>, i: int)
    requires
        parents_of(levels, parents),
        0 <= i < levels.len(),
    ensures
        toc_parent(levels, i) == (match parents[i] {
            Some(j) => Some(j as nat),
            None => None::<nat>,
        }),
{
    match parents[i] {
        Some(j) => {
            lemma_last_lower_skip(levels, levels[i], j + 1, i);
        },
        None => {
            lemma_last_lower_skip(levels, levels[i], 0, i);
        },
    }
}

/// Counters over the first `n` headings do not depend on later ones.
pub proof fn lemma_counters_prefix(levels: Seq<nat>, x: nat, n: nat)
    requires
        n <= levels.len(),
    ensures
        counters_after(levels.push(x), n) == counters_after(levels, n),
    decreases n,
{
    if n > 0 {
        lemma_counters_prefix(levels, x, (n - 1) as nat);
        assert(levels.push(x)[n - 1] == levels[n - 1]);
    }
}


/// Among the first `n` headings, the number of level-`k` headings since the
/// last heading shallower than `k`.
pub open spec fn count_since_shallower(levels: Seq<nat>, n: nat, k: nat) -> nat
    decreases n,
{
    if n == 0 || n > levels.len() {
        0
    } else if levels[n - 1] < k {
        0
    } else {
        count_since_shallower(levels, (n - 1) as nat, k) + (if levels[n - 1] == k { 1nat } else { 0nat })
    }
}

/// Each count of a heading's numeric path is the number of headings of that
/// level since the last shallower heading: a level reset by a shallower
/// heading and not seen since reads 0, never carried forward.
pub proof fn lemma_path_counts(levels: Seq<nat>, i: nat, k: nat)
    requires
        valid_levels(levels),
        i < levels.len(),
        1 <= k <= levels[i as int],
    ensures
        number_path(levels, i)[k - 1] == count_since_shallower(levels, i + 1, k),
{
    lemma_counters_count(levels, i + 1, k);
    lemma_counters_len(levels, i + 1);
}

proof fn lemma_counters_count(levels: Seq<nat>, n: nat, k: nat)
    requires
        n <= levels.len(),
        1 <= k <= 6,
    ensures
        counters_after(levels, n)[k - 1] == count_since_shallower(levels, n, k),
    decreases n,
{
    if n > 0 {
        lemma_counters_count(levels, (n - 1) as nat, k);
        lemma_counters_len(levels, (n - 1) as nat);
    }
}


/// Searching down from `j`, the last heading before `j` at level `v`.
pub open spec fn last_at_level(levels: Seq<nat>, v: nat, j: int) -> Option<nat>
    decreases j,
{
    if j <= 0 || j > levels.len() {
        None
    } else if levels[j - 1] == v {
        Some((j - 1) as nat)
    } else {
        last_at_level(levels, v, j - 1)
    }
}

/// No heading is more than one level deeper than the one before it.
pub open spec fn no_level_skips(levels: Seq<nat>) -> bool {
    forall|i: int| 0 < i < levels.len() ==> #[trigger] levels[i] <= levels[i - 1] + 1
}

proof fn lemma_lower_is_one_up(levels: Seq<nat>, i: int, j: int)
    requires
        no_level_skips(levels),
        0 <= j <= i < levels.len(),
        levels[i] >= 2,
        forall|m: int| j <= m < i ==> levels[m] >= levels[i],
    ensures
        last_lower(levels, levels[i], j) == last_at_level(levels, (levels[i] - 1) as nat, j),
    decreases j,
{
    if j > 0 {
        assert(levels[j] <= levels[j - 1] + 1);
        if levels[j - 1] >= levels[i] {
            lemma_lower_is_one_up(levels, i, j - 1);
        }
    }
}

/// With no level skipped, the table of contents nests each entry exactly as
/// its heading nests: a level-1 entry is top-level, and a deeper entry sits
/// under the most recent entry one level up.
pub proof fn lemma_toc_parent_one_level_up(levels: Seq<nat>, i: int)
    requires
        valid_levels(levels),
        no_level_skips(levels),
        0 <= i < levels.len(),
    ensures
        levels[i] == 1 ==> toc_parent(levels, i) is None,
        levels[i] >= 2 ==> toc_parent(levels, i) == last_at_level(levels, (levels[i] - 1) as nat, i),
{
    if levels[i] == 1 {
        lemma_none_below_one(levels, i);
    } else {
        lemma_lower_is_one_up(levels, i, i);
    }
}

proof fn lemma_none_below_one(levels: Seq<nat>, j: int)
    requires
        valid_levels(levels),
        0 <= j < levels.len(),
    ensures
        last_lower(levels, 1, j) is None,
    decreases j,
{
    if j > 0 {
        lemma_none_below_one(levels, j - 1);
    }
}

} // verus!
