use vstd::prelude::*;
use crate::geometry::{iou_above, iou_exceeds, lemma_full_threshold_never_exceeded, Candidate, PROB_SCALE};

verus! {

/// How Non-Max Suppression compares boxes: a kept box suppresses a later one
/// when their IoU is strictly above `iou_threshold / PROB_SCALE`, only within
/// one class when `class_aware` holds, across classes otherwise.
#[derive(Clone, Copy, Debug, PartialEq, Eq, Structural)]
pub struct SuppressConfig {
    pub iou_threshold: u32,
    pub class_aware: bool,
}

/// `k`, once kept, removes `c`. Candidates without a box never take part.
pub open spec fn suppresses(k: Candidate, c: Candidate, cfg: SuppressConfig) -> bool {
    match (k.bbox, c.bbox) {
        (Some(a), Some(b)) => (!cfg.class_aware || k.class_id == c.class_id)
            && iou_exceeds(a, b, cfg.iou_threshold as int),
        _ => false,
    }
}

/// Confidences never increase along `s`.
pub open spec fn sorted_desc(s: Seq<Candidate>) -> bool {
    forall|i: int, j: int| 0 <= i < j < s.len() ==> s[i].confidence >= s[j].confidence
}

/// Places `c` after every element of `s` whose confidence is at least its own
/// (stable insertion into a descending sequence).
pub open spec fn insert_desc(s: Seq<Candidate>, c: Candidate) -> Seq<Candidate>
    decreases s.len(),
{
    if s.len() == 0 {
        seq![c]
    } else if s.last().confidence >= c.confidence {
        s.push(c)
    } else {
        insert_desc(s.drop_last(), c).push(s.last())
    }
}

/// Stable sort by descending confidence: equal confidences keep input order.
pub open spec fn sort_desc(s: Seq<Candidate>) -> Seq<Candidate>
    decreases s.len(),
{
    if s.len() == 0 {
        seq![]
    } else {
        insert_desc(sort_desc(s.drop_last()), s.last())
    }
}

pub open spec fn suppressed_by_any(kept: Seq<Candidate>, c: Candidate, cfg: SuppressConfig) -> bool {
    exists|i: int| 0 <= i < kept.len() && suppresses(kept[i], c, cfg)
}

/// Greedy selection along `s`: an element is kept unless an element kept
/// before it suppresses it.
pub open spec fn greedy_keep(s: Seq<Candidate>, cfg: SuppressConfig) -> Seq<Candidate>
    decreases s.len(),
{
    if s.len() == 0 {
        seq![]
    } else {
        let k = greedy_keep(s.drop_last(), cfg);
        if suppressed_by_any(k, s.last(), cfg) {
            k
        } else {
            k.push(s.last())
        }
    }
}

/// The result of Non-Max Suppression on `s`.
pub open spec fn suppressed(s: Seq<Candidate>, cfg: SuppressConfig) -> Seq<Candidate> {
    greedy_keep(sort_desc(s), cfg)
}

/// No element of `s` suppresses a later one.
pub open spec fn mutually_clear(s: Seq<Candidate>, cfg: SuppressConfig) -> bool {
    forall|i: int, j: int| 0 <= i < j < s.len() ==> !suppresses(s[i], s[j], cfg)
}

proof fn lemma_insert_at(s: Seq<Candidate>, c: Candidate, j: int)
    requires
        0 <= j <= s.len(),
        forall|k: int| j <= k < s.len() ==> s[k].confidence < c.confidence,
        j == 0 || s[j - 1].confidence >= c.confidence,
    ensures
        insert_desc(s, c) == s.insert(j, c),
    decreases s.len(),
{
    if s.len() == 0 {
        assert(insert_desc(s, c) =~= s.insert(j, c));
    } else if s.last().confidence >= c.confidence {
        assert(insert_desc(s, c) =~= s.insert(j, c));
    } else {
        lemma_insert_at(s.drop_last(), c, j);
        assert(insert_desc(s, c) =~= s.insert(j, c));
    }
}

proof fn lemma_insert_desc(s: Seq<Candidate>, c: Candidate)
    ensures
        insert_desc(s, c).len() == s.len() + 1,
        forall|i: int| 0 <= i < s.len() + 1 ==>
            insert_desc(s, c)[i] == c || s.contains(#[trigger] insert_desc(s, c)[i]),
        sorted_desc(s) ==> sorted_desc(insert_desc(s, c)),
    decreases s.len(),
{
    if s.len() == 0 {
    } else if s.last().confidence >= c.confidence {
        let r = s.push(c);
        assert forall|i: int| 0 <= i < s.len() + 1 implies r[i] == c || s.contains(#[trigger] r[i]) by {
            if i < s.len() {
                assert(r[i] == s[i]);
            }
        }
    } else {
        let d = s.drop_last();
        lemma_insert_desc(d, c);
        let r0 = insert_desc(d, c);
        let r = r0.push(s.last());
        assert forall|i: int| 0 <= i < s.len() + 1 implies r[i] == c || s.contains(#[trigger] r[i]) by {
            if i < s.len() {
                assert(r[i] == r0[i]);
                if r0[i] != c {
                    let k = choose|k: int| 0 <= k < d.len() && d[k] == r0[i];
                    assert(s[k] == r[i]);
                }
            } else {
                assert(r[i] == s[s.len() - 1]);
            }
        }
        if sorted_desc(s) {
            assert forall|i: int, j: int| 0 <= i < j < r.len() implies r[i].confidence >= r[j].confidence by {
                if j == r.len() - 1 {
                    assert(r[i] == r0[i]);
                    if r0[i] != c {
                        let k = choose|k: int| 0 <= k < d.len() && d[k] == r0[i];
                        assert(s[k] == r0[i]);
                    }
                } else {
                    assert(r[i] == r0[i]);
                    assert(r[j] == r0[j]);
                }
            }
        }
    }
}

/// The stable sort is a descending arrangement of elements of its input.
pub proof fn lemma_sort_desc(s: Seq<Candidate>)
    ensures
        sort_desc(s).len() == s.len(),
        sorted_desc(sort_desc(s)),
        forall|i: int| 0 <= i < s.len() ==> s.contains(#[trigger] sort_desc(s)[i]),
    decreases s.len(),
{
    if s.len() > 0 {
        let d = s.drop_last();
        lemma_sort_desc(d);
        let r0 = sort_desc(d);
        lemma_insert_desc(r0, s.last());
        let r = sort_desc(s);
        assert forall|i: int| 0 <= i < s.len() implies s.contains(#[trigger] r[i]) by {
            if r[i] == s.last() {
                assert(s[s.len() - 1] == r[i]);
            } else {
                let k = choose|k: int| 0 <= k < r0.len() && r0[k] == r[i];
                let m = choose|m: int| 0 <= m < d.len() && d[m] == r0[k];
                assert(s[m] == r[i]);
            }
        }
    }
}

/// Sorting a sequence that is already descending leaves it as it is.
pub proof fn lemma_sort_desc_of_sorted(s: Seq<Candidate>)
    requires
        sorted_desc(s),
    ensures
        sort_desc(s) == s,
    decreases s.len(),
{
    if s.len() > 0 {
        let d = s.drop_last();
        assert(sorted_desc(d));
        lemma_sort_desc_of_sorted(d);
        if d.len() == 0 {
            assert(sort_desc(s) =~= s);
        } else {
            assert(d.last() == s[s.len() - 2]);
            assert(sort_desc(s) =~= s);
        }
    }
}

/// What greedy selection keeps is a part of its input: no longer, every kept
/// element taken from it, a descending input giving a descending result,
/// and no kept element suppressing a later one.
pub proof fn lemma_greedy_keep(s: Seq<Candidate>, cfg: SuppressConfig)
    ensures
        greedy_keep(s, cfg).len() <= s.len(),
        forall|i: int| 0 <= i < greedy_keep(s, cfg).len() ==> s.contains(#[trigger] greedy_keep(s, cfg)[i]),
        sorted_desc(s) ==> sorted_desc(greedy_keep(s, cfg)),
        mutually_clear(greedy_keep(s, cfg), cfg),
    decreases s.len(),
{
    if s.len() > 0 {
        let d = s.drop_last();
        lemma_greedy_keep(d, cfg);
        let k = greedy_keep(d, cfg);
        let r = greedy_keep(s, cfg);
        assert forall|i: int| 0 <= i < r.len() implies s.contains(#[trigger] r[i]) by {
            if i < k.len() {
                assert(r[i] == k[i]);
                let m = choose|m: int| 0 <= m < d.len() && d[m] == k[i];
                assert(s[m] == r[i]);
            } else {
                assert(s[s.len() - 1] == r[i]);
            }
        }
        if sorted_desc(s) {
            assert(sorted_desc(d));
            assert forall|i: int, j: int| 0 <= i < j < r.len() implies r[i].confidence >= r[j].confidence by {
                assert(r[i] == k[i]);
                if j == k.len() {
                    let m = choose|m: int| 0 <= m < d.len() && d[m] == k[i];
                    assert(s[m] == k[i]);
                } else {
                    assert(r[j] == k[j]);
                }
            }
        }
        assert forall|i: int, j: int| 0 <= i < j < r.len() implies !suppresses(r[i], r[j], cfg) by {
            assert(r[i] == k[i]);
            if j < k.len() {
                assert(r[j] == k[j]);
            }
        }
    }
}

/// Greedy selection keeps everything of a sequence in which nothing suppresses
/// a later element.
pub proof fn lemma_greedy_keep_of_clear(s: Seq<Candidate>, cfg: SuppressConfig)
    requires
        mutually_clear(s, cfg),
    ensures
        greedy_keep(s, cfg) == s,
    decreases s.len(),
{
    if s.len() > 0 {
        let d = s.drop_last();
        assert(mutually_clear(d, cfg));
        lemma_greedy_keep_of_clear(d, cfg);
        assert(!suppressed_by_any(d, s.last(), cfg)) by {
            assert forall|i: int| 0 <= i < d.len() implies !suppresses(d[i], s.last(), cfg) by {
                assert(d[i] == s[i]);
            }
        }
        assert(greedy_keep(s, cfg) =~= s);
    }
}

/// Everything that Non-Max Suppression returns was among its input, and it
/// returns at most as many elements.
pub proof fn lemma_suppressed_from_input(s: Seq<Candidate>, cfg: SuppressConfig)
    ensures
        suppressed(s, cfg).len() <= s.len(),
        forall|i: int| 0 <= i < suppressed(s, cfg).len() ==> s.contains(#[trigger] suppressed(s, cfg)[i]),
{
    let t = sort_desc(s);
    lemma_sort_desc(s);
    lemma_greedy_keep(t, cfg);
    let r = suppressed(s, cfg);
    assert forall|i: int| 0 <= i < r.len() implies s.contains(#[trigger] r[i]) by {
        let m = choose|m: int| 0 <= m < t.len() && t[m] == r[i];
        assert(s.contains(t[m]));
    }
}

/// Non-Max Suppression returns its result ranked by descending confidence,
/// and no returned prediction suppresses a later one.
pub proof fn lemma_suppressed_ranked_and_clear(s: Seq<Candidate>, cfg: SuppressConfig)
    ensures
        sorted_desc(suppressed(s, cfg)),
        mutually_clear(suppressed(s, cfg), cfg),
{
    lemma_sort_desc(s);
    lemma_greedy_keep(sort_desc(s), cfg);
}

/// Running Non-Max Suppression again on its own output, with the same
/// configuration, changes nothing.
pub proof fn lemma_suppress_idempotent(s: Seq<Candidate>, cfg: SuppressConfig)
    ensures
        suppressed(suppressed(s, cfg), cfg) == suppressed(s, cfg),
{
    let k = suppressed(s, cfg);
    lemma_suppressed_ranked_and_clear(s, cfg);
    lemma_sort_desc_of_sorted(k);
    lemma_greedy_keep_of_clear(k, cfg);
}

/// With an IoU threshold of one or more nothing is suppressed: every
/// candidate comes back, so no other threshold keeps more.
pub proof fn lemma_full_threshold_keeps_all(
    s: Seq<Candidate>,
    full: SuppressConfig,
    other: SuppressConfig,
)
    requires
        full.iou_threshold >= PROB_SCALE,
    ensures
        suppressed(s, full).len() == s.len(),
        suppressed(s, other).len() <= suppressed(s, full).len(),
{
    let t = sort_desc(s);
    lemma_sort_desc(s);
    assert forall|i: int, j: int| 0 <= i < j < t.len() implies !suppresses(t[i], t[j], full) by {
        match (t[i].bbox, t[j].bbox) {
            (Some(a), Some(b)) => {
                lemma_full_threshold_never_exceeded(a, b, full.iou_threshold as int);
            },
            _ => {},
        }
    }
    lemma_greedy_keep_of_clear(t, full);
    lemma_suppressed_from_input(s, other);
}

/// Every prediction that Non-Max Suppression returns is at least as confident
/// as a bound that all of its input meets.
pub proof fn lemma_suppressed_keeps_confidence_floor(s: Seq<Candidate>, cfg: SuppressConfig, floor: int)
    requires
        forall|i: int| 0 <= i < s.len() ==> s[i].confidence >= floor,
    ensures
        forall|i: int| 0 <= i < suppressed(s, cfg).len() ==> suppressed(s, cfg)[i].confidence >= floor,
{
    lemma_suppressed_from_input(s, cfg);
}

/// Decides `suppresses(*k, *c, cfg)`.
pub fn suppresses_exec(k: &Candidate, c: &Candidate, cfg: SuppressConfig) -> (r: bool)
    ensures
        r == suppresses(*k, *c, cfg),
{
    match (&k.bbox, &c.bbox) {
        (Some(a), Some(b)) => {
            if cfg.class_aware && k.class_id != c.class_id {
                false
            } else {
                iou_above(a, b, cfg.iou_threshold)
            }
        },
        _ => false,
    }
}

/// Stable sort by descending confidence.
pub fn sort_by_confidence(v: &Vec<Candidate>) -> (r: Vec<Candidate>)
    ensures
        r@ == sort_desc(v@),
{
    let mut r: Vec<Candidate> = Vec::new();
    let mut i: usize = 0;
    while i < v.len()
        invariant
            i <= v.len(),
            r@ == sort_desc(v@.take(i as int)),
        decreases v.len() - i,
    {
        let c = v[i];
        let mut j: usize = r.len();
        while j > 0 && r[j - 1].confidence < c.confidence
            invariant
                j <= r.len(),
                forall|k: int| j <= k < r.len() ==> r@[k].confidence < c.confidence,
            decreases j,
        {
            j -= 1;
        }
        proof {
            lemma_insert_at(r@, c, j as int);
            assert(v@.take(i + 1).drop_last() =~= v@.take(i as int));
        }
        r.insert(j, c);
        i += 1;
    }
    proof {
        assert(v@.take(v.len() as int) =~= v@);
    }
    r
}

/// Non-Max Suppression: candidates are ranked by descending confidence
/// (stable on ties), then each is kept unless a candidate kept before it
/// suppresses it. The result is ranked by descending confidence.
pub fn suppress(candidates: &Vec<Candidate>, cfg: SuppressConfig) -> (r: Vec<Candidate>)
    ensures
        r@ == suppressed(candidates@, cfg),
        sorted_desc(r@),
        mutually_clear(r@, cfg),
        candidates@.len() == 0 ==> r@.len() == 0,
{
    let sorted = sort_by_confidence(candidates);
    let mut kept: Vec<Candidate> = Vec::new();
    let mut i: usize = 0;
    while i < sorted.len()
        invariant
            i <= sorted.len(),
            kept@ == greedy_keep(sorted@.take(i as int), cfg),
        decreases sorted.len() - i,
    {
        let c = sorted[i];
        let mut hit = false;
        let mut j: usize = 0;
        while j < kept.len()
            invariant
                j <= kept.len(),
                hit == (exists|k: int| 0 <= k < j && suppresses(kept@[k], c, cfg)),
            decreases kept.len() - j,
        {
            if suppresses_exec(&kept[j], &c, cfg) {
                hit = true;
            }
            j += 1;
        }
        proof {
            let t = sorted@.take(i + 1);
            assert(t.drop_last() =~= sorted@.take(i as int));
            assert(t.last() == c);
        }
        if !hit {
            kept.push(c);
        }
        i += 1;
    }
    proof {
        assert(sorted@.take(sorted.len() as int) =~= sorted@);
        lemma_suppressed_ranked_and_clear(candidates@, cfg);
    }
    kept
}

} // verus!
