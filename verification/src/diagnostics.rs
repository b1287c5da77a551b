//! "Did you mean?" suggestions for mistyped names: the Levenshtein edit
//! distance, the choice of close candidates, and the label that carries them.
use vstd::prelude::*;

use crate::text::{join, strs_view, strings_view, to_chars, chars_eq, owned, push_str};

verus! {

/// The smaller of two naturals.
pub open spec fn min_nat(x: nat, y: nat) -> nat {
    if x <= y { x } else { y }
}

/// The larger of two naturals.
pub open spec fn max_nat(x: nat, y: nat) -> nat {
    if x >= y { x } else { y }
}

/// The Levenshtein distance between `a` and `b`: the least number of
/// single-character insertions, deletions and substitutions that turn `a`
/// into `b`.
pub open spec fn edit_distance(a: Seq<char>, b: Seq<char>) -> nat
    decreases a.len() + b.len(),
{
    if a.len() == 0 {
        b.len()
    } else if b.len() == 0 {
        a.len()
    } else {
        let cost: nat = if a.last() == b.last() { 0 } else { 1 };
        min_nat(
            min_nat(edit_distance(a.drop_last(), b) + 1, edit_distance(a, b.drop_last()) + 1),
            edit_distance(a.drop_last(), b.drop_last()) + cost,
        )
    }
}

/// The distance never exceeds the length of the longer string.
pub proof fn lemma_edit_distance_bound(a: Seq<char>, b: Seq<char>)
    ensures
        edit_distance(a, b) <= max_nat(a.len(), b.len()),
    decreases a.len() + b.len(),
{
    if a.len() > 0 && b.len() > 0 {
        lemma_edit_distance_bound(a.drop_last(), b.drop_last());
    }
}

/// Law: a string is at distance zero from itself.
pub proof fn law_edit_distance_identity(a: Seq<char>)
    ensures
        edit_distance(a, a) == 0,
    decreases a.len(),
{
    if a.len() > 0 {
        law_edit_distance_identity(a.drop_last());
    }
}

/// Law: the distance does not depend on which string comes first.
pub proof fn law_edit_distance_symmetric(a: Seq<char>, b: Seq<char>)
    ensures
        edit_distance(a, b) == edit_distance(b, a),
    decreases a.len() + b.len(),
{
    if a.len() > 0 && b.len() > 0 {
        law_edit_distance_symmetric(a.drop_last(), b);
        law_edit_distance_symmetric(a, b.drop_last());
        law_edit_distance_symmetric(a.drop_last(), b.drop_last());
    }
}

/// Distance between the first `i` characters of `a` and the first `j` of `b`.
pub open spec fn prefix_distance(a: Seq<char>, b: Seq<char>, i: int, j: int) -> nat {
    edit_distance(a.take(i), b.take(j))
}

proof fn lemma_prefix_step(a: Seq<char>, b: Seq<char>, i: int, j: int)
    requires
        0 < i <= a.len(),
        0 < j <= b.len(),
    ensures
        prefix_distance(a, b, i, j) == min_nat(
            min_nat(prefix_distance(a, b, i - 1, j) + 1, prefix_distance(a, b, i, j - 1) + 1),
            prefix_distance(a, b, i - 1, j - 1) + (if a[i - 1] == b[j - 1] { 0nat } else { 1nat }),
        ),
        prefix_distance(a, b, i, j) <= max_nat(i as nat, j as nat),
{
    assert(a.take(i).drop_last() =~= a.take(i - 1));
    assert(b.take(j).drop_last() =~= b.take(j - 1));
    lemma_edit_distance_bound(a.take(i), b.take(j));
}

proof fn lemma_prefix_edges(a: Seq<char>, b: Seq<char>, i: int, j: int)
    requires
        0 <= i <= a.len(),
        0 <= j <= b.len(),
    ensures
        prefix_distance(a, b, 0, j) == j,
        prefix_distance(a, b, i, 0) == i,
        prefix_distance(a, b, i, j) <= max_nat(i as nat, j as nat),
{
    lemma_edit_distance_bound(a.take(i), b.take(j));
}

/// Computes the Levenshtein edit distance between two strings, counting
/// characters.
pub fn levenshtein(a: &str, b: &str) -> (d: usize)
    ensures
        d == edit_distance(a@, b@),
{
    let ac = to_chars(a);
    let bc = to_chars(b);
    levenshtein_chars(&ac, &bc)
}

/// [`levenshtein`] on character vectors: two rows of the usual dynamic
/// programme, the previous and the current one.
pub fn levenshtein_chars(a: &Vec<char>, b: &Vec<char>) -> (d: usize)
    ensures
        d == edit_distance(a@, b@),
{
    let n = a.len();
    let m = b.len();
    if n == 0 {
        return m;
    }
    if m == 0 {
        return n;
    }
    let ghost sa = a@;
    let ghost sb = b@;
    let mut prev: Vec<usize> = Vec::new();
    let mut curr: Vec<usize> = Vec::new();
    prev.push(0);
    curr.push(0);
    let mut j: usize = 0;
    while j < m
        invariant
            m == sb.len(),
            n == sa.len(),
            n > 0,
            j <= m,
            prev@.len() == j + 1,
            curr@.len() == j + 1,
            forall|k: int| 0 <= k <= j ==> #[trigger] prev@[k] == k,
        decreases m - j,
    {
        prev.push(j + 1);
        curr.push(0);
        j = j + 1;
    }
    proof {
        assert forall|k: int| 0 <= k <= m implies #[trigger] prev@[k] == prefix_distance(sa, sb, 0, k) by {
            lemma_prefix_edges(sa, sb, 0, k);
        }
    }
    let mut i: usize = 0;
    while i < n
        invariant
            sa == a@,
            sb == b@,
            m == sb.len(),
            n == sa.len(),
            0 <= i <= n,
            prev@.len() == m + 1,
            curr@.len() == m + 1,
            forall|k: int| 0 <= k <= m ==> #[trigger] prev@[k] == prefix_distance(sa, sb, i as int, k),
        decreases n - i,
    {
        let row = i + 1;
        curr.set(0, row);
        proof {
            lemma_prefix_edges(sa, sb, row as int, 0);
        }
        let mut j: usize = 0;
        while j < m
            invariant
                sa == a@,
                sb == b@,
                m == sb.len(),
                n == sa.len(),
                row == i + 1,
                1 <= row <= n,
                0 <= j <= m,
                prev@.len() == m + 1,
                curr@.len() == m + 1,
                forall|k: int| 0 <= k <= m ==> #[trigger] prev@[k] == prefix_distance(sa, sb, i as int, k),
                forall|k: int| 0 <= k <= j ==> #[trigger] curr@[k] == prefix_distance(sa, sb, row as int, k),
            decreases m - j,
        {
            let col = j + 1;
            proof {
                lemma_prefix_step(sa, sb, row as int, col as int);
                lemma_prefix_edges(sa, sb, i as int, col as int);
                lemma_prefix_edges(sa, sb, row as int, j as int);
                lemma_prefix_edges(sa, sb, i as int, j as int);
            }
            let cost: usize = if a[i] == b[j] { 0 } else { 1 };
            let mut best = prev[j] + cost;
            if prev[col] < best {
                let deletion = prev[col] + 1;
                if deletion < best {
                    best = deletion;
                }
            }
            if curr[j] < best {
                let insertion = curr[j] + 1;
                if insertion < best {
                    best = insertion;
                }
            }
            curr.set(col, best);
            j = col;
        }
        std::mem::swap(&mut prev, &mut curr);
        i = i + 1;
    }
    assert(sa.take(n as int) =~= sa);
    assert(sb.take(m as int) =~= sb);
    prev[m]
}

/// How far a candidate may be from a name of `len` characters to count as
/// a plausible typo: a third of the length but at least two, and never more
/// than half the length (rounded up, at least one).
pub open spec fn max_suggestion_distance(len: nat) -> nat {
    min_nat(max_nat(len / 3, 2), max_nat((len + 1) / 2, 1))
}

/// The candidates, in their order, that differ from `target` and lie at
/// distance exactly `d` from it.
pub open spec fn bucket(target: Seq<char>, cands: Seq<Seq<char>>, d: nat) -> Seq<Seq<char>>
    decreases cands.len(),
{
    if cands.len() == 0 {
        Seq::empty()
    } else {
        let rest = bucket(target, cands.drop_last(), d);
        let c = cands.last();
        if c != target && edit_distance(target, c) == d {
            rest.push(c)
        } else {
            rest
        }
    }
}

/// The candidates other than `target` at distance at most `d`, ordered by
/// distance; candidates at the same distance keep their order.
pub open spec fn ranked(target: Seq<char>, cands: Seq<Seq<char>>, d: nat) -> Seq<Seq<char>>
    decreases d,
{
    if d == 0 {
        bucket(target, cands, 0)
    } else {
        ranked(target, cands, (d - 1) as nat) + bucket(target, cands, d)
    }
}

/// `s` with every element dropped that equals the element just before it.
pub open spec fn dedup_adjacent(s: Seq<Seq<char>>) -> Seq<Seq<char>>
    decreases s.len(),
{
    if s.len() == 0 {
        s
    } else {
        let rest = dedup_adjacent(s.drop_last());
        if rest.len() > 0 && rest.last() == s.last() {
            rest
        } else {
            rest.push(s.last())
        }
    }
}

/// What [`did_you_mean`] returns: the close candidates ranked by distance,
/// neighbouring repeats removed, at most `max_count` of them.
pub open spec fn suggestions(target: Seq<char>, cands: Seq<Seq<char>>, max_count: nat) -> Seq<Seq<char>> {
    if max_count == 0 {
        Seq::empty()
    } else {
        let r = dedup_adjacent(ranked(target, cands, max_suggestion_distance(target.len())));
        if r.len() <= max_count {
            r
        } else {
            r.take(max_count as int)
        }
    }
}

proof fn lemma_bucket_members(target: Seq<char>, cands: Seq<Seq<char>>, d: nat)
    ensures
        forall|k: int| 0 <= k < bucket(target, cands, d).len() ==> {
            &&& #[trigger] bucket(target, cands, d)[k] != target
            &&& edit_distance(target, bucket(target, cands, d)[k]) == d
        },
    decreases cands.len(),
{
    if cands.len() > 0 {
        lemma_bucket_members(target, cands.drop_last(), d);
        let rest = bucket(target, cands.drop_last(), d);
        let b = bucket(target, cands, d);
        assert forall|k: int| 0 <= k < b.len() implies #[trigger] b[k] != target
            && edit_distance(target, b[k]) == d by {
            if k < rest.len() {
                assert(b[k] == rest[k]);
            }
        }
    }
}

proof fn lemma_ranked_members(target: Seq<char>, cands: Seq<Seq<char>>, d: nat)
    ensures
        forall|k: int| 0 <= k < ranked(target, cands, d).len() ==> {
            &&& #[trigger] ranked(target, cands, d)[k] != target
            &&& edit_distance(target, ranked(target, cands, d)[k]) <= d
        },
        forall|k1: int, k2: int| 0 <= k1 <= k2 < ranked(target, cands, d).len() ==>
            edit_distance(target, #[trigger] ranked(target, cands, d)[k1])
                <= edit_distance(target, #[trigger] ranked(target, cands, d)[k2]),
    decreases d,
{
    lemma_bucket_members(target, cands, d);
    if d > 0 {
        lemma_ranked_members(target, cands, (d - 1) as nat);
        let r = ranked(target, cands, (d - 1) as nat);
        let b = bucket(target, cands, d);
        assert forall|k: int| 0 <= k < (r + b).len() implies #[trigger] (r + b)[k] != target
            && edit_distance(target, (r + b)[k]) <= d by {
            if k < r.len() {
                assert((r + b)[k] == r[k]);
            } else {
                assert((r + b)[k] == b[k - r.len()]);
            }
        }
        assert forall|k1: int, k2: int| 0 <= k1 <= k2 < (r + b).len() implies
            edit_distance(target, #[trigger] (r + b)[k1]) <= edit_distance(target, #[trigger] (r + b)[k2]) by {
            if k1 < r.len() {
                assert((r + b)[k1] == r[k1]);
            } else {
                assert((r + b)[k1] == b[k1 - r.len()]);
            }
            if k2 < r.len() {
                assert((r + b)[k2] == r[k2]);
            } else {
                assert((r + b)[k2] == b[k2 - r.len()]);
            }
        }
    }
}

proof fn lemma_dedup_subseq(s: Seq<Seq<char>>)
    ensures
        dedup_adjacent(s).len() <= s.len(),
        forall|k: int| 0 <= k < dedup_adjacent(s).len() ==> exists|m: int| 0 <= m < s.len()
            && #[trigger] dedup_adjacent(s)[k] == s[m],
        forall|k1: int, k2: int| 0 <= k1 <= k2 < dedup_adjacent(s).len() ==> exists|m1: int, m2: int|
            0 <= m1 <= m2 < s.len() && #[trigger] dedup_adjacent(s)[k1] == s[m1]
                && #[trigger] dedup_adjacent(s)[k2] == s[m2],
    decreases s.len(),
{
    if s.len() > 0 {
        let p = s.drop_last();
        lemma_dedup_subseq(p);
        let r = dedup_adjacent(p);
        assert forall|k: int| 0 <= k < dedup_adjacent(s).len() implies exists|m: int| 0 <= m < s.len()
            && #[trigger] dedup_adjacent(s)[k] == s[m] by {
            if k < r.len() {
                let m = choose|m: int| 0 <= m < p.len() && r[k] == p[m];
                assert(s[m] == p[m]);
            } else {
                assert(dedup_adjacent(s)[k] == s[s.len() - 1]);
            }
        }
        assert forall|k1: int, k2: int| 0 <= k1 <= k2 < dedup_adjacent(s).len() implies exists|m1: int, m2: int|
            0 <= m1 <= m2 < s.len() && #[trigger] dedup_adjacent(s)[k1] == s[m1]
                && #[trigger] dedup_adjacent(s)[k2] == s[m2] by {
            if k2 < r.len() {
                let (m1, m2) = choose|m1: int, m2: int| 0 <= m1 <= m2 < p.len() && r[k1] == p[m1] && r[k2] == p[m2];
                assert(s[m1] == p[m1] && s[m2] == p[m2]);
            } else {
                if k1 < r.len() {
                    let m1 = choose|m1: int| 0 <= m1 < p.len() && r[k1] == p[m1];
                    assert(s[m1] == p[m1]);
                    assert(dedup_adjacent(s)[k2] == s[s.len() - 1]);
                } else {
                    assert(dedup_adjacent(s)[k1] == s[s.len() - 1]);
                }
            }
        }
    }
}

/// Every suggestion differs from the target and lies within the allowed
/// distance; the suggestions come in order of distance, and there are at
/// most `max_count` of them.
pub proof fn lemma_suggestions_sound(target: Seq<char>, cands: Seq<Seq<char>>, max_count: nat)
    ensures
        suggestions(target, cands, max_count).len() <= max_count,
        forall|k: int| 0 <= k < suggestions(target, cands, max_count).len() ==> {
            &&& #[trigger] suggestions(target, cands, max_count)[k] != target
            &&& edit_distance(target, suggestions(target, cands, max_count)[k])
                <= max_suggestion_distance(target.len())
        },
        forall|k1: int, k2: int| 0 <= k1 <= k2 < suggestions(target, cands, max_count).len() ==>
            edit_distance(target, #[trigger] suggestions(target, cands, max_count)[k1])
                <= edit_distance(target, #[trigger] suggestions(target, cands, max_count)[k2]),
{
    if max_count > 0 {
        let md = max_suggestion_distance(target.len());
        let rk = ranked(target, cands, md);
        lemma_ranked_members(target, cands, md);
        lemma_dedup_subseq(rk);
        let r = dedup_adjacent(rk);
        let out = suggestions(target, cands, max_count);
        assert forall|k: int| 0 <= k < out.len() implies #[trigger] out[k] != target
            && edit_distance(target, out[k]) <= md by {
            assert(out[k] == r[k]);
            let m = choose|m: int| 0 <= m < rk.len() && r[k] == rk[m];
            assert(rk[m] != target);
        }
        assert forall|k1: int, k2: int| 0 <= k1 <= k2 < out.len() implies
            edit_distance(target, #[trigger] out[k1]) <= edit_distance(target, #[trigger] out[k2]) by {
            assert(out[k1] == r[k1] && out[k2] == r[k2]);
            let (m1, m2) = choose|m1: int, m2: int| 0 <= m1 <= m2 < rk.len() && r[k1] == rk[m1] && r[k2] == rk[m2];
            assert(edit_distance(target, rk[m1]) <= edit_distance(target, rk[m2]));
        }
    }
}

/// Picks up to `max_count` names from `candidates` that are close enough to
/// `target` to plausibly be what was meant: not `target` itself, within
/// [`max_suggestion_distance`], closest first (ties keep the candidates'
/// order), with neighbouring repeats dropped.
pub fn did_you_mean(target: &str, candidates: &[&str], max_count: usize) -> (out: Vec<String>)
    ensures
        strings_view(out@) == suggestions(target@, strs_view(candidates@), max_count as nat),
{
    let ghost cands = strs_view(candidates@);
    if max_count == 0 {
        let empty: Vec<String> = Vec::new();
        assert(strings_view(empty@) =~= Seq::<Seq<char>>::empty());
        return empty;
    }
    let tchars = to_chars(target);
    let tlen = tchars.len();
    let third = tlen / 3;
    let floor_bound: usize = if third > 2 { third } else { 2 };
    let half = tlen / 2 + tlen % 2;
    let ceil_bound: usize = if half > 1 { half } else { 1 };
    let max_distance: usize = if floor_bound <= ceil_bound { floor_bound } else { ceil_bound };
    assert(max_distance == max_suggestion_distance(target@.len()));
    let n = candidates.len();
    let mut eligible: Vec<bool> = Vec::new();
    let mut dists: Vec<usize> = Vec::new();
    let mut i: usize = 0;
    while i < n
        invariant
            n == candidates@.len(),
            cands == strs_view(candidates@),
            tchars@ == target@,
            i <= n,
            eligible@.len() == i,
            dists@.len() == i,
            forall|k: int| 0 <= k < i ==> #[trigger] eligible@[k] == (cands[k] != target@),
            forall|k: int| 0 <= k < i ==> #[trigger] dists@[k] == edit_distance(target@, cands[k]),
        decreases n - i,
    {
        let cchars = to_chars(candidates[i]);
        let same = chars_eq(&tchars, &cchars);
        eligible.push(!same);
        dists.push(levenshtein_chars(&tchars, &cchars));
        i = i + 1;
    }
    let mut ranked_out: Vec<String> = Vec::new();
    let mut d: usize = 0;
    while d <= max_distance
        invariant
            n == candidates@.len(),
            cands == strs_view(candidates@),
            max_distance == max_suggestion_distance(target@.len()),
            max_distance < usize::MAX,
            eligible@.len() == n,
            dists@.len() == n,
            forall|k: int| 0 <= k < n ==> #[trigger] eligible@[k] == (cands[k] != target@),
            forall|k: int| 0 <= k < n ==> #[trigger] dists@[k] == edit_distance(target@, cands[k]),
            d <= max_distance + 1,
            d == 0 ==> strings_view(ranked_out@) == Seq::<Seq<char>>::empty(),
            d > 0 ==> strings_view(ranked_out@) == ranked(target@, cands, (d - 1) as nat),
        decreases max_distance + 1 - d,
    {
        let ghost before = strings_view(ranked_out@);
        let mut j: usize = 0;
        while j < n
            invariant
                n == candidates@.len(),
                cands == strs_view(candidates@),
                eligible@.len() == n,
                dists@.len() == n,
                forall|k: int| 0 <= k < n ==> #[trigger] eligible@[k] == (cands[k] != target@),
                forall|k: int| 0 <= k < n ==> #[trigger] dists@[k] == edit_distance(target@, cands[k]),
                j <= n,
                strings_view(ranked_out@) == before + bucket(target@, cands.take(j as int), d as nat),
            decreases n - j,
        {
            proof {
                assert(cands.take(j + 1).drop_last() =~= cands.take(j as int));
                assert(cands.take(j + 1).last() == cands[j as int]);
            }
            if eligible[j] && dists[j] == d {
                let name = owned(candidates[j]);
                let ghost prior = ranked_out@;
                ranked_out.push(name);
                proof {
                    assert(strings_view(ranked_out@) =~= strings_view(prior).push(cands[j as int]));
                    assert(strings_view(ranked_out@) =~= before + bucket(target@, cands.take(j + 1), d as nat));
                }
            } else {
                proof {
                    assert(strings_view(ranked_out@) =~= before + bucket(target@, cands.take(j + 1), d as nat));
                }
            }
            j = j + 1;
        }
        proof {
            assert(cands.take(n as int) =~= cands);
            if d == 0 {
                assert(strings_view(ranked_out@) =~= ranked(target@, cands, 0));
            } else {
                assert(strings_view(ranked_out@) =~= ranked(target@, cands, d as nat));
            }
        }
        d = d + 1;
    }
    let ghost rk = ranked(target@, cands, max_distance as nat);
    let mut deduped: Vec<String> = Vec::new();
    let mut k: usize = 0;
    while k < ranked_out.len()
        invariant
            strings_view(ranked_out@) == rk,
            k <= ranked_out@.len(),
            strings_view(deduped@) == dedup_adjacent(rk.take(k as int)),
        decreases ranked_out.len() - k,
    {
        proof {
            assert(rk.take(k + 1).drop_last() =~= rk.take(k as int));
            assert(rk.take(k + 1).last() == rk[k as int]);
        }
        let keep = if deduped.len() == 0 {
            true
        } else {
            let last = deduped.len() - 1;
            !(deduped[last] == ranked_out[k])
        };
        let ghost prior = deduped@;
        if keep {
            let copy = ranked_out[k].clone();
            deduped.push(copy);
            assert(strings_view(deduped@) =~= strings_view(prior).push(rk[k as int]));
        }
        proof {
            assert(strings_view(deduped@) =~= dedup_adjacent(rk.take(k + 1)));
        }
        k = k + 1;
    }
    proof {
        assert(rk.take(ranked_out@.len() as int) =~= rk);
    }
    let ghost dd = dedup_adjacent(rk);
    let mut out: Vec<String> = Vec::new();
    let mut t: usize = 0;
    while t < deduped.len() && t < max_count
        invariant
            strings_view(deduped@) == dd,
            t <= deduped@.len(),
            t <= max_count,
            strings_view(out@) == dd.take(t as int),
        decreases deduped.len() - t,
    {
        let copy = deduped[t].clone();
        let ghost prior = out@;
        out.push(copy);
        proof {
            assert(strings_view(out@) =~= strings_view(prior).push(dd[t as int]));
            assert(strings_view(out@) =~= dd.take(t + 1));
        }
        t = t + 1;
    }
    proof {
        if dd.len() <= max_count {
            assert(dd.take(t as int) =~= dd);
        }
    }
    out
}

/// What [`label_with_suggestions`] returns.
pub open spec fn suggestion_label(name: Seq<char>, sugg: Seq<Seq<char>>) -> Seq<char> {
    if sugg.len() == 0 {
        name
    } else {
        name + " (did you mean: "@ + join(sugg, ", or "@) + "?)"@
    }
}

/// Appends a "(did you mean: …?)" hint to `name` when there is at least one
/// suggestion; several suggestions are separated by ", or ". With no
/// suggestion, `name` comes back unchanged.
pub fn label_with_suggestions(name: &str, suggestions: &[String]) -> (label: String)
    ensures
        label@ == suggestion_label(name@, strings_view(suggestions@)),
{
    let ghost sv = strings_view(suggestions@);
    let mut label = owned(name);
    if suggestions.len() == 0 {
        return label;
    }
    push_str(&mut label, " (did you mean: ");
    push_str(&mut label, suggestions[0].as_str());
    let ghost head = name@ + " (did you mean: "@;
    proof {
        assert(sv.take(1) =~= seq![sv[0]]);
    }
    let mut i: usize = 1;
    while i < suggestions.len()
        invariant
            sv == strings_view(suggestions@),
            1 <= i <= suggestions@.len(),
            label@ == head + join(sv.take(i as int), ", or "@),
        decreases suggestions.len() - i,
    {
        push_str(&mut label, ", or ");
        push_str(&mut label, suggestions[i].as_str());
        proof {
            assert(sv.take(i + 1).drop_last() =~= sv.take(i as int));
            assert(label@ =~= head + join(sv.take(i + 1), ", or "@));
        }
        i = i + 1;
    }
    push_str(&mut label, "?)");
    proof {
        assert(sv.take(suggestions@.len() as int) =~= sv);
    }
    label
}

} // verus!
