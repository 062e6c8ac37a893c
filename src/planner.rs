//! Splits the target names into those already subscribed and those still to
//! subscribe, comparing names without regard to case.

use vstd::prelude::*;
use vstd::multiset::Multiset;
use crate::text::{lower_of, to_lower, same_text};

verus! {

broadcast use vstd::seq_lib::group_seq_properties;

/// The two halves of a reconciliation, each in target order.
#[derive(Debug)]
pub struct SyncPlan {
    pub already_subscribed: Vec<String>,
    pub to_subscribe: Vec<String>,
}

/// The texts a vector of strings holds.
pub open spec fn texts(v: Seq<String>) -> Seq<Seq<char>> {
    v.map_values(|s: String| s@)
}

/// `t` names one of the `current` subscriptions, ignoring case.
pub open spec fn is_subscribed(current: Seq<Seq<char>>, t: Seq<char>) -> bool {
    exists|i: int| 0 <= i < current.len() && #[trigger] lower_of(current[i]) == lower_of(t)
}

pub open spec fn subscribed_in(current: Seq<Seq<char>>) -> spec_fn(Seq<char>) -> bool {
    |t: Seq<char>| is_subscribed(current, t)
}

pub open spec fn missing_from(current: Seq<Seq<char>>) -> spec_fn(Seq<char>) -> bool {
    |t: Seq<char>| !is_subscribed(current, t)
}

/// `sub` is `full` with some elements left out, the rest in their order.
pub open spec fn is_subsequence(sub: Seq<Seq<char>>, full: Seq<Seq<char>>) -> bool {
    exists|idx: Seq<int>|
        #![trigger idx.len()]
        {
            &&& idx.len() == sub.len()
            &&& forall|k: int|
                0 <= k < idx.len() ==> 0 <= #[trigger] idx[k] < full.len() && full[idx[k]]
                    == sub[k]
            &&& forall|k1: int, k2: int|
                0 <= k1 < k2 < idx.len() ==> #[trigger] idx[k1] < #[trigger] idx[k2]
        }
}

/// Whether some string of `v` holds exactly the text `x`.
fn holds_text(v: &Vec<String>, x: &str) -> (r: bool)
    ensures
        r == exists|k: int| 0 <= k < v@.len() && #[trigger] v@[k]@ == x@,
{
    for k in 0..v.len()
        invariant
            forall|m: int| 0 <= m < k ==> #[trigger] v@[m]@ != x@,
    {
        if same_text(v[k].as_str(), x) {
            return true;
        }
    }
    false
}

/// `x` equals one of the `folded` names.
pub open spec fn is_among(folded: Seq<Seq<char>>, x: Seq<char>) -> bool {
    exists|i: int| 0 <= i < folded.len() && #[trigger] folded[i] == x
}

/// The elements of `s` at the positions where `keep` holds, in order.
pub open spec fn selected(s: Seq<Seq<char>>, keep: spec_fn(int) -> bool) -> Seq<Seq<char>>
    decreases s.len(),
{
    if s.len() == 0 {
        Seq::empty()
    } else {
        let prev = selected(s.drop_last(), keep);
        if keep(s.len() - 1) {
            prev.push(s.last())
        } else {
            prev
        }
    }
}

/// Position `k` holds a target whose folded form is among `current_folded`.
pub open spec fn known_at(current_folded: Seq<Seq<char>>, targets_folded: Seq<Seq<char>>) -> spec_fn(
    int,
) -> bool {
    |k: int| is_among(current_folded, targets_folded[k])
}

pub open spec fn unknown_at(current_folded: Seq<Seq<char>>, targets_folded: Seq<Seq<char>>) -> spec_fn(
    int,
) -> bool {
    |k: int| !is_among(current_folded, targets_folded[k])
}

/// Builds the plan from names already folded to lower case: target `k`, whose
/// folded form is `targets_folded[k]`, is already subscribed when that form
/// equals one of `current_folded`.
pub fn plan_folded(
    current_folded: &Vec<String>,
    targets: &Vec<String>,
    targets_folded: &Vec<String>,
) -> (r: SyncPlan)
    requires
        targets_folded@.len() == targets@.len(),
    ensures
        texts(r.already_subscribed@) == selected(
            texts(targets@),
            known_at(texts(current_folded@), texts(targets_folded@)),
        ),
        texts(r.to_subscribe@) == selected(
            texts(targets@),
            unknown_at(texts(current_folded@), texts(targets_folded@)),
        ),
{
    let ghost cf = texts(current_folded@);
    let ghost tf = texts(targets_folded@);
    let mut already: Vec<String> = Vec::new();
    let mut missing: Vec<String> = Vec::new();
    for i in 0..targets.len()
        invariant
            targets_folded@.len() == targets@.len(),
            cf == texts(current_folded@),
            tf == texts(targets_folded@),
            texts(already@) == selected(texts(targets@).take(i as int), known_at(cf, tf)),
            texts(missing@) == selected(texts(targets@).take(i as int), unknown_at(cf, tf)),
    {
        let t = &targets[i];
        let found = holds_text(current_folded, targets_folded[i].as_str());
        proof {
            assert(tf[i as int] == targets_folded@[i as int]@);
            if found {
                let k = choose|k: int|
                    0 <= k < current_folded@.len() && #[trigger] current_folded@[k]@
                        == targets_folded@[i as int]@;
                assert(cf[k] == current_folded@[k]@);
            } else {
                assert forall|k: int| 0 <= k < cf.len() implies #[trigger] cf[k] != tf[i as int] by {
                    assert(cf[k] == current_folded@[k]@);
                }
            }
            let s = texts(targets@);
            assert(s.take(i + 1).drop_last() =~= s.take(i as int));
            assert(s.take(i + 1).last() == t@);
        }
        if found {
            already.push(t.clone());
        } else {
            missing.push(t.clone());
        }
        proof {
            assert(texts(already@) =~= selected(texts(targets@).take(i + 1), known_at(cf, tf)));
            assert(texts(missing@) =~= selected(texts(targets@).take(i + 1), unknown_at(cf, tf)));
        }
    }
    proof {
        assert(texts(targets@).take(targets@.len() as int) == texts(targets@));
    }
    SyncPlan { already_subscribed: already, to_subscribe: missing }
}

/// The lower-case forms of `v`.
fn fold_all(v: &Vec<String>) -> (r: Vec<String>)
    ensures
        r@.len() == v@.len(),
        forall|k: int| 0 <= k < v@.len() ==> #[trigger] r@[k]@ == lower_of(v@[k]@),
{
    let mut out: Vec<String> = Vec::new();
    for i in 0..v.len()
        invariant
            out@.len() == i,
            forall|k: int| 0 <= k < i ==> #[trigger] out@[k]@ == lower_of(v@[k]@),
    {
        out.push(to_lower(v[i].as_str()));
    }
    out
}

proof fn lemma_selected_is_filter(
    ts: Seq<Seq<char>>,
    cur: Seq<Seq<char>>,
    cf: Seq<Seq<char>>,
    tf: Seq<Seq<char>>,
)
    requires
        cf.len() == cur.len(),
        forall|i: int| 0 <= i < cur.len() ==> #[trigger] cf[i] == lower_of(cur[i]),
        tf.len() >= ts.len(),
        forall|k: int| 0 <= k < ts.len() ==> #[trigger] tf[k] == lower_of(ts[k]),
    ensures
        selected(ts, known_at(cf, tf)) == ts.filter(subscribed_in(cur)),
        selected(ts, unknown_at(cf, tf)) == ts.filter(missing_from(cur)),
    decreases ts.len(),
{
    if ts.len() > 0 {
        let p = ts.drop_last();
        let n = ts.len() - 1;
        assert forall|k: int| 0 <= k < p.len() implies #[trigger] tf[k] == lower_of(p[k]) by {
            assert(p[k] == ts[k]);
        }
        lemma_selected_is_filter(p, cur, cf, tf);
        assert(p.push(ts.last()) == ts);
        p.lemma_filter_push(ts.last(), subscribed_in(cur));
        p.lemma_filter_push(ts.last(), missing_from(cur));
        assert(tf[n] == lower_of(ts[n]));
        assert(ts[n] == ts.last());
        if is_among(cf, tf[n]) {
            let i = choose|i: int| 0 <= i < cf.len() && #[trigger] cf[i] == tf[n];
            assert(lower_of(cur[i]) == lower_of(ts.last()));
            assert(is_subscribed(cur, ts.last()));
        } else {
            assert forall|i: int| 0 <= i < cur.len() implies #[trigger] lower_of(cur[i]) != lower_of(
                ts.last(),
            ) by {
                assert(cf[i] == lower_of(cur[i]));
            }
        }
    }
}

/// Position `k` of `ts` holds the first name of its lower-case form.
pub open spec fn first_of_form(ts: Seq<Seq<char>>) -> spec_fn(int) -> bool {
    |k: int| forall|j: int| 0 <= j < k ==> lower_of(#[trigger] ts[j]) != lower_of(ts[k])
}

/// Position `k` holds the first occurrence of its folded form `folded[k]`.
pub open spec fn first_of_folded(folded: Seq<Seq<char>>) -> spec_fn(int) -> bool {
    |k: int| forall|j: int| 0 <= j < k ==> #[trigger] folded[j] != folded[k]
}

/// The targets with later repeats of a folded form left out, in order;
/// `folded[k]` is the lower-case form of `targets[k]`.
pub fn distinct_targets_folded(targets: &Vec<String>, folded: &Vec<String>) -> (r: Vec<String>)
    requires
        folded@.len() == targets@.len(),
    ensures
        texts(r@) == selected(texts(targets@), first_of_folded(texts(folded@))),
{
    let ghost fs = texts(folded@);
    let mut out: Vec<String> = Vec::new();
    for i in 0..targets.len()
        invariant
            folded@.len() == targets@.len(),
            fs == texts(folded@),
            texts(out@) == selected(texts(targets@).take(i as int), first_of_folded(fs)),
    {
        let mut seen = false;
        for j in 0..i
            invariant
                i < folded@.len(),
                fs == texts(folded@),
                !seen ==> forall|m: int| 0 <= m < j ==> #[trigger] fs[m] != fs[i as int],
                seen ==> exists|m: int| 0 <= m < i && #[trigger] fs[m] == fs[i as int],
        {
            if !seen && same_text(folded[j].as_str(), folded[i].as_str()) {
                assert(fs[j as int] == folded@[j as int]@ && fs[i as int] == folded@[i as int]@);
                seen = true;
            }
        }
        proof {
            if !seen {
                assert(first_of_folded(fs)(i as int));
            } else {
                assert(!first_of_folded(fs)(i as int));
            }
            let s = texts(targets@);
            assert(s.take(i + 1).drop_last() =~= s.take(i as int));
            assert(s.take(i + 1).last() == targets@[i as int]@);
        }
        if !seen {
            out.push(targets[i].clone());
        }
        proof {
            assert(texts(out@) =~= selected(texts(targets@).take(i + 1), first_of_folded(fs)));
        }
    }
    proof {
        assert(texts(targets@).take(targets@.len() as int) == texts(targets@));
    }
    out
}

proof fn lemma_selected_same_keep(
    s: Seq<Seq<char>>,
    k1: spec_fn(int) -> bool,
    k2: spec_fn(int) -> bool,
)
    requires
        forall|i: int| 0 <= i < s.len() ==> #[trigger] k1(i) == k2(i),
    ensures
        selected(s, k1) == selected(s, k2),
    decreases s.len(),
{
    if s.len() > 0 {
        lemma_selected_same_keep(s.drop_last(), k1, k2);
    }
}

/// The targets with every name whose lower-case form came earlier left out,
/// in order: the first target of each form is kept.
pub fn distinct_targets(targets: &Vec<String>) -> (r: Vec<String>)
    ensures
        texts(r@) == selected(texts(targets@), first_of_form(texts(targets@))),
{
    let folded = fold_all(targets);
    let r = distinct_targets_folded(targets, &folded);
    proof {
        let ts = texts(targets@);
        let fs = texts(folded@);
        assert forall|k: int| 0 <= k < ts.len() implies #[trigger] first_of_folded(fs)(k) == first_of_form(ts)(k) by {
            assert forall|j: int| 0 <= j < k implies (fs[j] == fs[k]) == (lower_of(ts[j]) == lower_of(ts[k])) by {
                assert(fs[j] == folded@[j]@ && fs[k] == folded@[k]@);
                assert(ts[j] == targets@[j]@ && ts[k] == targets@[k]@);
            }
            if !first_of_folded(fs)(k) {
                let j = choose|j: int| 0 <= j < k && #[trigger] fs[j] == fs[k];
                assert(lower_of(ts[j]) == lower_of(ts[k]));
            }
            if !first_of_form(ts)(k) {
                let j = choose|j: int| 0 <= j < k && lower_of(#[trigger] ts[j]) == lower_of(ts[k]);
                assert(fs[j] == fs[k]);
            }
        }
        lemma_selected_same_keep(ts, first_of_folded(fs), first_of_form(ts));
    }
    r
}

/// `x` is one of the first `m` elements of `ts`.
pub open spec fn in_prefix(ts: Seq<Seq<char>>, m: int, x: Seq<char>) -> bool {
    exists|j: int| 0 <= j < m && #[trigger] ts[j] == x
}

proof fn lemma_selected_prefix_distinct(ts: Seq<Seq<char>>, m: int)
    requires
        0 <= m <= ts.len(),
    ensures
        ({
            let r = selected(ts.take(m), first_of_form(ts));
            &&& forall|i: int| 0 <= i < r.len() ==> #[trigger] in_prefix(ts, m, r[i])
            &&& forall|a: int, b: int|
                0 <= a < b < r.len() ==> lower_of(#[trigger] r[a]) != lower_of(#[trigger] r[b])
        }),
    decreases m,
{
    if m > 0 {
        lemma_selected_prefix_distinct(ts, m - 1);
        let t = ts.take(m);
        assert(t.drop_last() =~= ts.take(m - 1));
        assert(t.last() == ts[m - 1]);
        let prev = selected(ts.take(m - 1), first_of_form(ts));
        let r = selected(t, first_of_form(ts));
        if first_of_form(ts)(m - 1) {
            assert(r == prev.push(ts[m - 1]));
            assert forall|i: int| 0 <= i < r.len() implies #[trigger] in_prefix(ts, m, r[i]) by {
                if i < prev.len() {
                    assert(in_prefix(ts, m - 1, prev[i]));
                    let j = choose|j: int| 0 <= j < m - 1 && #[trigger] ts[j] == prev[i];
                    assert(ts[j] == r[i]);
                } else {
                    assert(ts[m - 1] == r[i]);
                }
            }
            assert forall|a: int, b: int| 0 <= a < b < r.len() implies lower_of(#[trigger] r[a]) != lower_of(#[trigger] r[b]) by {
                if b < prev.len() {
                    assert(r[a] == prev[a] && r[b] == prev[b]);
                } else {
                    assert(r[a] == prev[a]);
                    assert(in_prefix(ts, m - 1, prev[a]));
                    let j = choose|j: int| 0 <= j < m - 1 && #[trigger] ts[j] == prev[a];
                    assert(lower_of(ts[j]) != lower_of(ts[m - 1]));
                }
            }
        } else {
            assert(r == prev);
            assert forall|i: int| 0 <= i < r.len() implies #[trigger] in_prefix(ts, m, r[i]) by {
                assert(in_prefix(ts, m - 1, prev[i]));
                let j = choose|j: int| 0 <= j < m - 1 && #[trigger] ts[j] == prev[i];
            }
        }
    } else {
        assert(ts.take(0) =~= Seq::<Seq<char>>::empty());
    }
}

/// Once repeats are left out, no two targets share a lower-case form, and
/// every target kept is one of the given targets.
pub proof fn lemma_distinct_targets_distinct(ts: Seq<Seq<char>>)
    ensures
        ({
            let r = selected(ts, first_of_form(ts));
            &&& forall|a: int, b: int|
                0 <= a < b < r.len() ==> lower_of(#[trigger] r[a]) != lower_of(#[trigger] r[b])
            &&& forall|i: int| 0 <= i < r.len() ==> ts.contains(#[trigger] r[i])
        }),
{
    lemma_selected_prefix_distinct(ts, ts.len() as int);
    assert(ts.take(ts.len() as int) =~= ts);
    let r = selected(ts, first_of_form(ts));
    assert forall|i: int| 0 <= i < r.len() implies ts.contains(#[trigger] r[i]) by {
        assert(in_prefix(ts, ts.len() as int, r[i]));
        let j = choose|j: int| 0 <= j < ts.len() && #[trigger] ts[j] == r[i];
    }
}

/// Builds the plan: a target whose lower-case form equals that of a current
/// subscription is already subscribed; every other target is to subscribe.
pub fn plan(current: &Vec<String>, targets: &Vec<String>) -> (r: SyncPlan)
    ensures
        texts(r.already_subscribed@) == texts(targets@).filter(subscribed_in(texts(current@))),
        texts(r.to_subscribe@) == texts(targets@).filter(missing_from(texts(current@))),
{
    let current_folded = fold_all(current);
    let targets_folded = fold_all(targets);
    let r = plan_folded(&current_folded, targets, &targets_folded);
    proof {
        let cur = texts(current@);
        let cf = texts(current_folded@);
        let ts = texts(targets@);
        let tf = texts(targets_folded@);
        assert forall|i: int| 0 <= i < cur.len() implies #[trigger] cf[i] == lower_of(cur[i]) by {
            assert(cf[i] == current_folded@[i]@);
        }
        assert forall|k: int| 0 <= k < ts.len() implies #[trigger] tf[k] == lower_of(ts[k]) by {
            assert(tf[k] == targets_folded@[k]@);
        }
        lemma_selected_is_filter(ts, cur, cf, tf);
    }
    r
}

proof fn lemma_filter_split(s: Seq<Seq<char>>, current: Seq<Seq<char>>)
    ensures
        s.filter(subscribed_in(current)).to_multiset().add(
            s.filter(missing_from(current)).to_multiset(),
        ) == s.to_multiset(),
    decreases s.len(),
{
    if s.len() == 0 {
        assert(s.filter(subscribed_in(current)) =~= Seq::<Seq<char>>::empty());
        assert(s.filter(missing_from(current)) =~= Seq::<Seq<char>>::empty());
        assert(s.to_multiset() =~= Multiset::empty());
        assert(Seq::<Seq<char>>::empty().to_multiset() =~= Multiset::empty());
    } else {
        let p = s.drop_last();
        lemma_filter_split(p, current);
        assert(p.push(s.last()) == s);
        p.lemma_filter_push(s.last(), subscribed_in(current));
        p.lemma_filter_push(s.last(), missing_from(current));
        let a = p.filter(subscribed_in(current));
        let b = p.filter(missing_from(current));
        if is_subscribed(current, s.last()) {
            assert(s.filter(subscribed_in(current)) == a.push(s.last()));
            assert(s.filter(missing_from(current)) == b);
        } else {
            assert(s.filter(subscribed_in(current)) == a);
            assert(s.filter(missing_from(current)) == b.push(s.last()));
        }
        assert(s.filter(subscribed_in(current)).to_multiset().add(
            s.filter(missing_from(current)).to_multiset(),
        ) =~= s.to_multiset());
    }
}

proof fn lemma_filter_indices(s: Seq<Seq<char>>, pred: spec_fn(Seq<char>) -> bool) -> (idx: Seq<
    int,
>)
    ensures
        idx.len() == s.filter(pred).len(),
        forall|k: int|
            0 <= k < idx.len() ==> 0 <= #[trigger] idx[k] < s.len() && s[idx[k]] == s.filter(
                pred,
            )[k],
        forall|k1: int, k2: int| 0 <= k1 < k2 < idx.len() ==> #[trigger] idx[k1] < #[trigger] idx[k2],
    decreases s.len(),
{
    if s.len() == 0 {
        Seq::empty()
    } else {
        let p = s.drop_last();
        let prev = lemma_filter_indices(p, pred);
        assert(p.push(s.last()) == s);
        p.lemma_filter_push(s.last(), pred);
        if pred(s.last()) {
            let idx = prev.push(s.len() - 1);
            assert forall|k: int| 0 <= k < idx.len() implies 0 <= #[trigger] idx[k] < s.len()
                && s[idx[k]] == s.filter(pred)[k] by {
                if k < prev.len() {
                    assert(idx[k] == prev[k]);
                    assert(s[prev[k]] == p[prev[k]]);
                }
            }
            idx
        } else {
            assert forall|k: int| 0 <= k < prev.len() implies 0 <= #[trigger] prev[k] < s.len()
                && s[prev[k]] == s.filter(pred)[k] by {
                assert(s[prev[k]] == p[prev[k]]);
            }
            prev
        }
    }
}

/// Every target lands in exactly one half: the halves together hold each target
/// as often as the targets do, and no name of one half equals, ignoring case, a
/// name of the other.
pub proof fn lemma_plan_partitions(current: Seq<Seq<char>>, targets: Seq<Seq<char>>)
    ensures
        ({
            let a = targets.filter(subscribed_in(current));
            let b = targets.filter(missing_from(current));
            &&& a.len() + b.len() == targets.len()
            &&& a.to_multiset().add(b.to_multiset()) == targets.to_multiset()
            &&& forall|i: int, j: int|
                0 <= i < a.len() && 0 <= j < b.len() ==> lower_of(#[trigger] a[i]) != lower_of(
                    #[trigger] b[j],
                )
        }),
{
    let a = targets.filter(subscribed_in(current));
    let b = targets.filter(missing_from(current));
    lemma_filter_split(targets, current);
    a.to_multiset_ensures();
    b.to_multiset_ensures();
    targets.to_multiset_ensures();
    assert forall|i: int, j: int|
        0 <= i < a.len() && 0 <= j < b.len() implies lower_of(#[trigger] a[i]) != lower_of(
        #[trigger] b[j],
    ) by {
        targets.lemma_filter_pred(subscribed_in(current), i);
        targets.lemma_filter_pred(missing_from(current), j);
        assert(is_subscribed(current, a[i]));
        assert(!is_subscribed(current, b[j]));
        if lower_of(a[i]) == lower_of(b[j]) {
            let w = choose|w: int| 0 <= w < current.len() && #[trigger] lower_of(current[w]) == lower_of(a[i]);
            assert(lower_of(current[w]) == lower_of(b[j]));
        }
    }
}

/// Both halves keep the relative order that the names have among the targets.
pub proof fn lemma_plan_keeps_order(current: Seq<Seq<char>>, targets: Seq<Seq<char>>)
    ensures
        is_subsequence(targets.filter(subscribed_in(current)), targets),
        is_subsequence(targets.filter(missing_from(current)), targets),
{
    let ia = lemma_filter_indices(targets, subscribed_in(current));
    let ib = lemma_filter_indices(targets, missing_from(current));
    assert(ia.len() == targets.filter(subscribed_in(current)).len());
    assert(ib.len() == targets.filter(missing_from(current)).len());
}

} // verus!
