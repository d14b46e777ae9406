//! Merging the records of many scanners: fingerprints, priority-based
//! conflict resolution, the separate treatment of store apps, and the final
//! ordering by display name.
use vstd::prelude::*;

use crate::codec::{lower_of, lowercase, trim_of, trimmed};
use crate::path::{normalize_path, normalized_path};
use crate::text::{chars_of, str_eq};
use crate::types::{DesktopIcon, RankedIcon};

verus! {

/// The name part of a fingerprint: the display name trimmed and case-folded.
pub open spec fn name_key(r: DesktopIcon) -> Seq<char> {
    lower_of(trim_of(r.name@))
}

/// The target part of a fingerprint: the normalised target path, case-folded.
pub open spec fn target_key(r: DesktopIcon) -> Seq<char> {
    lower_of(normalized_path(r.target_path@))
}

/// What identifies "the same application" across scanners.
pub open spec fn fingerprint(r: DesktopIcon) -> (Seq<char>, Seq<char>) {
    (name_key(r), target_key(r))
}

/// A computed fingerprint.
pub struct Fingerprint {
    pub name: String,
    pub target: String,
}

impl View for Fingerprint {
    type V = (Seq<char>, Seq<char>);

    open spec fn view(&self) -> (Seq<char>, Seq<char>) {
        (self.name@, self.target@)
    }
}

/// Computes the fingerprint of a record.
pub fn fingerprint_of(icon: &DesktopIcon) -> (r: Fingerprint)
    ensures
        r@ == fingerprint(*icon),
{
    let t = trimmed(icon.name.as_str());
    let name = lowercase(t.as_str());
    let n = normalize_path(icon.target_path.as_str());
    let target = lowercase(n.as_str());
    Fingerprint { name, target }
}

fn same_fingerprint(a: &Fingerprint, b: &Fingerprint) -> (r: bool)
    ensures
        r == (a@ == b@),
{
    a.name == b.name && a.target == b.target
}

/// The record carries an image payload.
pub open spec fn has_payload(r: DesktopIcon) -> bool {
    r.icon_base64@.len() > 0
}

/// A newcomer replaces the record kept so far: it has a higher priority, or
/// the same priority and a payload where the kept one has none.
pub open spec fn should_replace(kept: RankedIcon, newcomer: RankedIcon) -> bool {
    newcomer.priority > kept.priority || (newcomer.priority == kept.priority && !has_payload(
        kept.icon,
    ) && has_payload(newcomer.icon))
}

/// Some record of `m` has fingerprint `f`.
pub open spec fn holds_fingerprint(m: Seq<RankedIcon>, f: (Seq<char>, Seq<char>)) -> bool {
    exists|j: int| 0 <= j < m.len() && #[trigger] fingerprint(m[j].icon) == f
}

/// No two records of `m` share a fingerprint.
pub open spec fn distinct_fingerprints(m: Seq<RankedIcon>) -> bool {
    forall|j1: int, j2: int|
        0 <= j1 < m.len() && 0 <= j2 < m.len() && j1 != j2 ==> fingerprint(#[trigger] m[j1].icon)
            != fingerprint(#[trigger] m[j2].icon)
}

/// Adds one record to a merged list: it takes the place of the record with
/// its fingerprint when it should replace it, and is appended when no record
/// has its fingerprint.
pub open spec fn merge_step(m: Seq<RankedIcon>, e: RankedIcon) -> Seq<RankedIcon> {
    if holds_fingerprint(m, fingerprint(e.icon)) {
        let j = choose|j: int| 0 <= j < m.len() && #[trigger] fingerprint(m[j].icon) == fingerprint(
            e.icon,
        );
        if should_replace(m[j], e) {
            m.update(j, e)
        } else {
            m
        }
    } else {
        m.push(e)
    }
}

/// A batch merged by fingerprint, in the order in which fingerprints first appear.
pub open spec fn merged(s: Seq<RankedIcon>) -> Seq<RankedIcon>
    decreases s.len(),
{
    if s.len() == 0 {
        Seq::empty()
    } else {
        merge_step(merged(s.drop_last()), s.last())
    }
}

proof fn lemma_merge_step_distinct(m: Seq<RankedIcon>, e: RankedIcon)
    requires
        distinct_fingerprints(m),
    ensures
        distinct_fingerprints(merge_step(m, e)),
{
    if holds_fingerprint(m, fingerprint(e.icon)) {
        let j = choose|j: int| 0 <= j < m.len() && #[trigger] fingerprint(m[j].icon) == fingerprint(
            e.icon,
        );
        let r = merge_step(m, e);
        assert forall|j1: int, j2: int|
            0 <= j1 < r.len() && 0 <= j2 < r.len() && j1 != j2 implies fingerprint(
            #[trigger] r[j1].icon,
        ) != fingerprint(#[trigger] r[j2].icon) by {
            assert(fingerprint(r[j1].icon) == fingerprint(m[j1].icon));
            assert(fingerprint(r[j2].icon) == fingerprint(m[j2].icon));
        }
    } else {
        let r = merge_step(m, e);
        assert forall|j1: int, j2: int|
            0 <= j1 < r.len() && 0 <= j2 < r.len() && j1 != j2 implies fingerprint(
            #[trigger] r[j1].icon,
        ) != fingerprint(#[trigger] r[j2].icon) by {
            if j1 == m.len() {
                assert(fingerprint(m[j2].icon) != fingerprint(e.icon));
            } else if j2 == m.len() {
                assert(fingerprint(m[j1].icon) != fingerprint(e.icon));
            }
        }
    }
}

/// No two records of a merged batch share a fingerprint.
pub proof fn lemma_merged_distinct(s: Seq<RankedIcon>)
    ensures
        distinct_fingerprints(merged(s)),
    decreases s.len(),
{
    if s.len() > 0 {
        lemma_merged_distinct(s.drop_last());
        lemma_merge_step_distinct(merged(s.drop_last()), s.last());
    }
}

/// Merging a batch whose fingerprints are already distinct changes nothing.
pub proof fn lemma_merge_distinct_is_identity(s: Seq<RankedIcon>)
    requires
        distinct_fingerprints(s),
    ensures
        merged(s) == s,
    decreases s.len(),
{
    if s.len() > 0 {
        let p = s.drop_last();
        assert(distinct_fingerprints(p)) by {
            assert forall|j1: int, j2: int|
                0 <= j1 < p.len() && 0 <= j2 < p.len() && j1 != j2 implies fingerprint(
                #[trigger] p[j1].icon,
            ) != fingerprint(#[trigger] p[j2].icon) by {
                assert(p[j1] == s[j1] && p[j2] == s[j2]);
            }
        }
        lemma_merge_distinct_is_identity(p);
        assert(!holds_fingerprint(p, fingerprint(s.last().icon))) by {
            if holds_fingerprint(p, fingerprint(s.last().icon)) {
                let j = choose|j: int| 0 <= j < p.len() && #[trigger] fingerprint(p[j].icon)
                    == fingerprint(s.last().icon);
                assert(p[j] == s[j]);
                assert(fingerprint(s[j].icon) != fingerprint(s[s.len() - 1].icon));
            }
        }
        assert(p.push(s.last()) =~= s);
    }
}

/// Merging is idempotent: merging a merged batch again gives the same records.
pub proof fn lemma_merge_idempotent(s: Seq<RankedIcon>)
    ensures
        merged(merged(s)) == merged(s),
{
    lemma_merged_distinct(s);
    lemma_merge_distinct_is_identity(merged(s));
}

/// For every record of a batch, exactly one record with its fingerprint
/// survives the merge; it comes from the batch, its priority is at least the
/// record's, and when the priorities are equal and the record has a payload,
/// so has the survivor.
pub proof fn lemma_merge_keeps_best(s: Seq<RankedIcon>)
    ensures
        distinct_fingerprints(merged(s)),
        forall|k: int| 0 <= k < merged(s).len() ==> s.contains(#[trigger] merged(s)[k]),
        forall|i: int|
            0 <= i < s.len() ==> exists|j: int|
                0 <= j < merged(s).len() && #[trigger] fingerprint(merged(s)[j].icon)
                    == fingerprint(#[trigger] s[i].icon) && merged(s)[j].priority >= s[i].priority
                    && (merged(s)[j].priority == s[i].priority && has_payload(s[i].icon)
                    ==> has_payload(merged(s)[j].icon)),
    decreases s.len(),
{
    lemma_merged_distinct(s);
    if s.len() > 0 {
        let p = s.drop_last();
        let e = s.last();
        let m = merged(p);
        let r = merged(s);
        lemma_merge_keeps_best(p);
        assert(r == merge_step(m, e));
        assert forall|k: int| 0 <= k < r.len() implies s.contains(#[trigger] r[k]) by {
            if r[k] == e {
                assert(s[s.len() - 1] == e);
            } else {
                assert(k < m.len() && r[k] == m[k]);
                assert(p.contains(m[k]));
                let q = choose|q: int| 0 <= q < p.len() && p[q] == m[k];
                assert(s[q] == p[q]);
            }
        }
        assert forall|i: int| 0 <= i < s.len() implies exists|j: int|
            0 <= j < r.len() && #[trigger] fingerprint(r[j].icon) == fingerprint(
                #[trigger] s[i].icon,
            ) && r[j].priority >= s[i].priority && (r[j].priority == s[i].priority && has_payload(
                s[i].icon,
            ) ==> has_payload(r[j].icon)) by {
            if holds_fingerprint(m, fingerprint(e.icon)) {
                let jj = choose|j: int| 0 <= j < m.len() && #[trigger] fingerprint(m[j].icon)
                    == fingerprint(e.icon);
                if i < s.len() - 1 {
                    assert(s[i] == p[i]);
                    let j = choose|j: int|
                        0 <= j < m.len() && #[trigger] fingerprint(m[j].icon) == fingerprint(
                            #[trigger] p[i].icon,
                        ) && m[j].priority >= p[i].priority && (m[j].priority == p[i].priority
                            && has_payload(p[i].icon) ==> has_payload(m[j].icon));
                    assert(fingerprint(r[j].icon) == fingerprint(s[i].icon));
                } else {
                    assert(s[i] == e);
                    assert(fingerprint(r[jj].icon) == fingerprint(s[i].icon));
                }
            } else {
                if i < s.len() - 1 {
                    assert(s[i] == p[i]);
                    let j = choose|j: int|
                        0 <= j < m.len() && #[trigger] fingerprint(m[j].icon) == fingerprint(
                            #[trigger] p[i].icon,
                        ) && m[j].priority >= p[i].priority && (m[j].priority == p[i].priority
                            && has_payload(p[i].icon) ==> has_payload(m[j].icon));
                    assert(r[j] == m[j]);
                    assert(fingerprint(r[j].icon) == fingerprint(s[i].icon));
                } else {
                    assert(r[m.len() as int] == e);
                    assert(fingerprint(r[m.len() as int].icon) == fingerprint(s[i].icon));
                }
            }
        }
    }
}

/// Record `i` is the one that survives for its fingerprint: no record with
/// its fingerprint has a higher priority; if it has a payload, no earlier
/// record of its fingerprint and priority has one; if it has none, no record
/// of its fingerprint and priority has one and none of them comes earlier.
pub open spec fn is_survivor(s: Seq<RankedIcon>, i: int) -> bool {
    &&& 0 <= i < s.len()
    &&& forall|q: int|
        0 <= q < s.len() && fingerprint(#[trigger] s[q].icon) == fingerprint(s[i].icon)
            ==> s[q].priority <= s[i].priority
    &&& has_payload(s[i].icon) ==> forall|q: int|
        0 <= q < i && fingerprint(#[trigger] s[q].icon) == fingerprint(s[i].icon) && s[q].priority
            == s[i].priority ==> !has_payload(s[q].icon)
    &&& !has_payload(s[i].icon) ==> forall|q: int|
        0 <= q < s.len() && q != i && fingerprint(#[trigger] s[q].icon) == fingerprint(s[i].icon)
            && s[q].priority == s[i].priority ==> !has_payload(s[q].icon) && q > i
}

proof fn lemma_survivor_extends(s: Seq<RankedIcon>, i: int)
    requires
        s.len() > 0,
        is_survivor(s.drop_last(), i),
        fingerprint(s[i].icon) != fingerprint(s.last().icon),
    ensures
        is_survivor(s, i),
{
    let p = s.drop_last();
    assert(s[i] == p[i]);
    assert forall|q: int|
        0 <= q < s.len() && fingerprint(#[trigger] s[q].icon) == fingerprint(s[i].icon) implies s[q].priority
        <= s[i].priority by {
        if q < s.len() - 1 {
            assert(s[q] == p[q]);
        }
    }
    if !has_payload(s[i].icon) {
        assert forall|q: int|
            0 <= q < s.len() && q != i && fingerprint(#[trigger] s[q].icon) == fingerprint(
                s[i].icon,
            ) && s[q].priority == s[i].priority implies !has_payload(s[q].icon) && q > i by {
            if q < s.len() - 1 {
                assert(s[q] == p[q]);
            }
        }
    } else {
        assert forall|q: int|
            0 <= q < i && fingerprint(#[trigger] s[q].icon) == fingerprint(s[i].icon) && s[q].priority
                == s[i].priority implies !has_payload(s[q].icon) by {
            assert(s[q] == p[q]);
        }
    }
}

proof fn lemma_survivor_replaced(s: Seq<RankedIcon>, i0: int)
    requires
        s.len() > 0,
        is_survivor(s.drop_last(), i0),
        fingerprint(s[i0].icon) == fingerprint(s.last().icon),
        should_replace(s[i0], s.last()),
    ensures
        is_survivor(s, s.len() - 1),
{
    let p = s.drop_last();
    let n = s.len() - 1;
    assert(s[i0] == p[i0]);
    assert forall|q: int|
        0 <= q < s.len() && fingerprint(#[trigger] s[q].icon) == fingerprint(s[n].icon) implies s[q].priority
        <= s[n].priority by {
        if q < n {
            assert(s[q] == p[q]);
            assert(fingerprint(p[q].icon) == fingerprint(p[i0].icon));
        }
    }
    if has_payload(s[n].icon) {
        assert forall|q: int|
            0 <= q < n && fingerprint(#[trigger] s[q].icon) == fingerprint(s[n].icon) && s[q].priority
                == s[n].priority implies !has_payload(s[q].icon) by {
            assert(s[q] == p[q]);
            assert(fingerprint(p[q].icon) == fingerprint(p[i0].icon));
            assert(p[q].priority <= p[i0].priority);
        }
    } else {
        assert forall|q: int|
            0 <= q < s.len() && q != n && fingerprint(#[trigger] s[q].icon) == fingerprint(
                s[n].icon,
            ) && s[q].priority == s[n].priority implies !has_payload(s[q].icon) && q > n by {
            assert(s[q] == p[q]);
            assert(fingerprint(p[q].icon) == fingerprint(p[i0].icon));
            assert(p[q].priority <= p[i0].priority);
        }
    }
}

proof fn lemma_survivor_kept(s: Seq<RankedIcon>, i0: int)
    requires
        s.len() > 0,
        is_survivor(s.drop_last(), i0),
        fingerprint(s[i0].icon) == fingerprint(s.last().icon),
        !should_replace(s[i0], s.last()),
    ensures
        is_survivor(s, i0),
{
    let p = s.drop_last();
    let n = s.len() - 1;
    assert(s[i0] == p[i0]);
    assert forall|q: int|
        0 <= q < s.len() && fingerprint(#[trigger] s[q].icon) == fingerprint(s[i0].icon) implies s[q].priority
        <= s[i0].priority by {
        if q < n {
            assert(s[q] == p[q]);
        }
    }
    if !has_payload(s[i0].icon) {
        assert forall|q: int|
            0 <= q < s.len() && q != i0 && fingerprint(#[trigger] s[q].icon) == fingerprint(
                s[i0].icon,
            ) && s[q].priority == s[i0].priority implies !has_payload(s[q].icon) && q > i0 by {
            if q < n {
                assert(s[q] == p[q]);
            }
        }
    } else {
        assert forall|q: int|
            0 <= q < i0 && fingerprint(#[trigger] s[q].icon) == fingerprint(s[i0].icon)
                && s[q].priority == s[i0].priority implies !has_payload(s[q].icon) by {
            assert(s[q] == p[q]);
        }
    }
}

proof fn lemma_fingerprints_held(p: Seq<RankedIcon>)
    ensures
        forall|q: int| 0 <= q < p.len() ==> holds_fingerprint(merged(p), fingerprint(#[trigger] p[q].icon)),
{
    lemma_merge_keeps_best(p);
    assert forall|q: int| 0 <= q < p.len() implies holds_fingerprint(
        merged(p),
        fingerprint(#[trigger] p[q].icon),
    ) by {
        let j = choose|j: int|
            0 <= j < merged(p).len() && #[trigger] fingerprint(merged(p)[j].icon) == fingerprint(
                #[trigger] p[q].icon,
            ) && merged(p)[j].priority >= p[q].priority && (merged(p)[j].priority == p[q].priority
                && has_payload(p[q].icon) ==> has_payload(merged(p)[j].icon));
    }
}

proof fn lemma_survivor_new(s: Seq<RankedIcon>)
    requires
        s.len() > 0,
        forall|q: int|
            0 <= q < s.len() - 1 ==> fingerprint(#[trigger] s[q].icon) != fingerprint(
                s.last().icon,
            ),
    ensures
        is_survivor(s, s.len() - 1),
{
}

/// Every record of a merged batch is the survivor of its fingerprint: the
/// highest priority wins, on a tie the first record with a payload, and
/// when none of them has one, the first seen.
#[verifier::rlimit(60)]
pub proof fn lemma_merge_picks_survivor(s: Seq<RankedIcon>)
    ensures
        forall|k: int|
            0 <= k < merged(s).len() ==> exists|i: int|
                is_survivor(s, i) && #[trigger] merged(s)[k] == s[i],
    decreases s.len(),
{
    if s.len() > 0 {
        let p = s.drop_last();
        let e = s.last();
        let n = s.len() - 1;
        let m = merged(p);
        let r = merged(s);
        lemma_merge_picks_survivor(p);
        lemma_fingerprints_held(p);
        lemma_merged_distinct(p);
        assert(r == merge_step(m, e));
        assert(s[n] == e);
        if holds_fingerprint(m, fingerprint(e.icon)) {
            let jj = choose|j: int| 0 <= j < m.len() && #[trigger] fingerprint(m[j].icon)
                == fingerprint(e.icon);
            let i0 = choose|i: int| is_survivor(p, i) && #[trigger] m[jj] == p[i];
            assert(s[i0] == p[i0]);
            if should_replace(m[jj], e) {
                lemma_survivor_replaced(s, i0);
            } else {
                lemma_survivor_kept(s, i0);
            }
            assert forall|k: int| 0 <= k < r.len() implies exists|i: int|
                is_survivor(s, i) && #[trigger] r[k] == s[i] by {
                if k == jj {
                    if should_replace(m[jj], e) {
                        assert(r[k] == s[n]);
                    } else {
                        assert(r[k] == s[i0]);
                    }
                } else {
                    assert(r[k] == m[k]);
                    let i = choose|i: int| is_survivor(p, i) && #[trigger] m[k] == p[i];
                    assert(fingerprint(m[k].icon) != fingerprint(m[jj].icon));
                    assert(s[i] == p[i]);
                    lemma_survivor_extends(s, i);
                }
            }
        } else {
            assert forall|q: int| 0 <= q < n implies fingerprint(#[trigger] s[q].icon)
                != fingerprint(e.icon) by {
                assert(s[q] == p[q]);
                assert(holds_fingerprint(m, fingerprint(p[q].icon)));
            }
            lemma_survivor_new(s);
            assert forall|k: int| 0 <= k < r.len() implies exists|i: int|
                is_survivor(s, i) && #[trigger] r[k] == s[i] by {
                if k == m.len() {
                    assert(r[k] == s[n]);
                } else {
                    assert(r[k] == m[k]);
                    let i = choose|i: int| is_survivor(p, i) && #[trigger] m[k] == p[i];
                    if fingerprint(m[k].icon) == fingerprint(e.icon) {
                        assert(holds_fingerprint(m, fingerprint(e.icon)));
                    }
                    assert(s[i] == p[i]);
                    lemma_survivor_extends(s, i);
                }
            }
        }
    }
}

/// The records of a vector in reverse order.
fn reversed<T>(v: Vec<T>) -> (r: Vec<T>)
    ensures
        r@.len() == v@.len(),
        forall|k: int| 0 <= k < v@.len() ==> r@[k] == v@[v@.len() - 1 - k],
{
    let ghost orig = v@;
    let mut v = v;
    let mut r: Vec<T> = Vec::new();
    while v.len() > 0
        invariant
            v@.len() + r@.len() == orig.len(),
            v@ == orig.subrange(0, v@.len() as int),
            forall|k: int| 0 <= k < r@.len() ==> r@[k] == orig[orig.len() - 1 - k],
        decreases v@.len(),
    {
        let x = v.pop().unwrap();
        r.push(x);
    }
    r
}

/// Merges a batch by fingerprint: for each fingerprint one record survives,
/// the one of highest priority, on a tie the one with a payload, else the
/// first seen.
pub fn merge_by_fingerprint(entries: Vec<RankedIcon>) -> (r: Vec<RankedIcon>)
    ensures
        r@ == merged(entries@),
{
    let ghost orig = entries@;
    let n = entries.len();
    let mut rev = reversed(entries);
    let mut out: Vec<RankedIcon> = Vec::new();
    let mut fps: Vec<Fingerprint> = Vec::new();
    let mut i: usize = 0;
    while i < n
        invariant
            n == orig.len(),
            i <= n,
            rev@.len() == n - i,
            forall|k: int| 0 <= k < n - i ==> rev@[k] == orig[n - 1 - k],
            out@ == merged(orig.subrange(0, i as int)),
            fps@.len() == out@.len(),
            forall|k: int| 0 <= k < out@.len() ==> (#[trigger] fps@[k])@ == fingerprint(out@[k].icon),
        decreases n - i,
    {
        let e = rev.pop().unwrap();
        assert(e == orig[i as int]);
        let f = fingerprint_of(&e.icon);
        let ghost m = out@;
        proof {
            lemma_merged_distinct(orig.subrange(0, i as int));
            assert(orig.subrange(0, i + 1).drop_last() =~= orig.subrange(0, i as int));
            assert(orig.subrange(0, i + 1).last() == e);
        }
        let mut j: usize = 0;
        while j < out.len() && !same_fingerprint(&fps[j], &f)
            invariant
                fps@.len() == out@.len(),
                j <= out@.len(),
                forall|k: int| 0 <= k < j ==> (#[trigger] fps@[k])@ != f@,
            decreases out@.len() - j,
        {
            j = j + 1;
        }
        if j < out.len() {
            proof {
                assert(fingerprint(m[j as int].icon) == fingerprint(e.icon));
                let jj = choose|jj: int| 0 <= jj < m.len() && #[trigger] fingerprint(m[jj].icon)
                    == fingerprint(e.icon);
                assert(jj == j);
            }
            let kept_priority = out[j].priority;
            let kept_empty = out[j].icon.icon_base64.as_str().is_empty();
            let replace = e.priority > kept_priority || (e.priority == kept_priority && kept_empty
                && !e.icon.icon_base64.as_str().is_empty());
            if replace {
                out.set(j, e);
            }
        } else {
            proof {
                assert(!holds_fingerprint(m, fingerprint(e.icon))) by {
                    if holds_fingerprint(m, fingerprint(e.icon)) {
                        let jj = choose|jj: int| 0 <= jj < m.len() && #[trigger] fingerprint(m[jj].icon)
                            == fingerprint(e.icon);
                        assert(fps@[jj]@ == f@);
                    }
                }
            }
            out.push(e);
            fps.push(f);
        }
        i = i + 1;
    }
    assert(orig.subrange(0, n as int) =~= orig);
    out
}

/// The record comes from the store-app catalogue.
pub open spec fn is_uwp(r: DesktopIcon) -> bool {
    r.file_type matches Some(t) && t@ == "UWP App"@
}

/// Whether a record comes from the store-app catalogue.
pub fn is_uwp_icon(icon: &DesktopIcon) -> (r: bool)
    ensures
        r == is_uwp(*icon),
{
    match &icon.file_type {
        Some(t) => str_eq(t.as_str(), "UWP App"),
        None => false,
    }
}

/// The records of a batch that are (or are not) store apps, in order.
pub open spec fn part(s: Seq<RankedIcon>, uwp: bool) -> Seq<RankedIcon>
    decreases s.len(),
{
    if s.len() == 0 {
        Seq::empty()
    } else {
        let p = part(s.drop_last(), uwp);
        if is_uwp(s.last().icon) == uwp {
            p.push(s.last())
        } else {
            p
        }
    }
}

/// Some record of `m` has the name key of `r`.
pub open spec fn name_clash(m: Seq<RankedIcon>, r: DesktopIcon) -> bool {
    exists|j: int| 0 <= j < m.len() && #[trigger] name_key(m[j].icon) == name_key(r)
}

/// The records of `u` whose name key no record of `m` has, in order.
pub open spec fn unclashed(u: Seq<RankedIcon>, m: Seq<RankedIcon>) -> Seq<RankedIcon>
    decreases u.len(),
{
    if u.len() == 0 {
        Seq::empty()
    } else {
        let p = unclashed(u.drop_last(), m);
        if name_clash(m, u.last().icon) {
            p
        } else {
            p.push(u.last())
        }
    }
}

/// The records without their priorities.
pub open spec fn icons_of(s: Seq<RankedIcon>) -> Seq<DesktopIcon> {
    s.map_values(|e: RankedIcon| e.icon)
}

/// The survivors of a multi-source batch before ordering: the merged
/// file-backed records, then the merged store apps whose name no file-backed
/// survivor has.
pub open spec fn combined_sources(s: Seq<RankedIcon>) -> Seq<DesktopIcon> {
    let files = merged(part(s, false));
    let apps = merged(part(s, true));
    icons_of(files) + icons_of(unclashed(apps, files))
}

/// `a` is at most `b` in the order of Unicode scalar values, character by character.
pub open spec fn chars_le(a: Seq<char>, b: Seq<char>) -> bool
    decreases a.len(),
{
    if a.len() == 0 {
        true
    } else if b.len() == 0 {
        false
    } else if a[0] != b[0] {
        a[0] < b[0]
    } else {
        chars_le(a.drop_first(), b.drop_first())
    }
}

/// The records are ordered by display name.
pub open spec fn sorted_by_name(r: Seq<DesktopIcon>) -> bool {
    forall|k1: int, k2: int|
        0 <= k1 < k2 < r.len() ==> chars_le(#[trigger] r[k1].name@, #[trigger] r[k2].name@)
}

proof fn lemma_chars_le_total(a: Seq<char>, b: Seq<char>)
    ensures
        chars_le(a, b) || chars_le(b, a),
    decreases a.len(),
{
    if a.len() > 0 && b.len() > 0 && a[0] == b[0] {
        lemma_chars_le_total(a.drop_first(), b.drop_first());
    }
}

proof fn lemma_chars_le_trans(a: Seq<char>, b: Seq<char>, c: Seq<char>)
    requires
        chars_le(a, b),
        chars_le(b, c),
    ensures
        chars_le(a, c),
    decreases a.len(),
{
    if a.len() > 0 && b.len() > 0 && c.len() > 0 && a[0] == b[0] && b[0] == c[0] {
        lemma_chars_le_trans(a.drop_first(), b.drop_first(), c.drop_first());
    }
}

fn name_le(a: &Vec<char>, b: &Vec<char>) -> (r: bool)
    ensures
        r == chars_le(a@, b@),
{
    let mut i: usize = 0;
    assert(a@.subrange(0, a@.len() as int) =~= a@);
    assert(b@.subrange(0, b@.len() as int) =~= b@);
    while i < a.len() && i < b.len() && a[i] == b[i]
        invariant
            i <= a@.len() && i <= b@.len(),
            chars_le(a@, b@) == chars_le(a@.subrange(i as int, a@.len() as int), b@.subrange(
                i as int,
                b@.len() as int,
            )),
        decreases a@.len() - i,
    {
        proof {
            let sa = a@.subrange(i as int, a@.len() as int);
            let sb = b@.subrange(i as int, b@.len() as int);
            assert(sa.drop_first() =~= a@.subrange(i + 1, a@.len() as int));
            assert(sb.drop_first() =~= b@.subrange(i + 1, b@.len() as int));
        }
        i = i + 1;
    }
    if i == a.len() {
        true
    } else if i == b.len() {
        false
    } else {
        a[i] < b[i]
    }
}

/// Orders records by display name; records with equal names keep their order.
pub fn sort_by_name(icons: Vec<DesktopIcon>) -> (r: Vec<DesktopIcon>)
    ensures
        sorted_by_name(r@),
        r@.to_multiset() == icons@.to_multiset(),
{
    broadcast use vstd::seq_lib::group_to_multiset_ensures;

    let ghost orig = icons@;
    let n = icons.len();
    let mut rev = reversed(icons);
    let mut out: Vec<DesktopIcon> = Vec::new();
    let mut keys: Vec<Vec<char>> = Vec::new();
    let mut i: usize = 0;
    while i < n
        invariant
            n == orig.len(),
            i <= n,
            rev@.len() == n - i,
            forall|k: int| 0 <= k < n - i ==> rev@[k] == orig[n - 1 - k],
            keys@.len() == out@.len(),
            forall|k: int| 0 <= k < out@.len() ==> (#[trigger] keys@[k])@ == out@[k].name@,
            sorted_by_name(out@),
            out@.to_multiset() == orig.subrange(0, i as int).to_multiset(),
        decreases n - i,
    {
        let e = rev.pop().unwrap();
        assert(e == orig[i as int]);
        let key = chars_of(e.name.as_str());
        let mut p: usize = 0;
        while p < out.len() && name_le(&keys[p], &key)
            invariant
                keys@.len() == out@.len(),
                p <= out@.len(),
                forall|k: int| 0 <= k < out@.len() ==> (#[trigger] keys@[k])@ == out@[k].name@,
                forall|k: int| 0 <= k < p ==> chars_le(#[trigger] out@[k].name@, key@),
            decreases out@.len() - p,
        {
            p = p + 1;
        }
        let ghost old_out = out@;
        proof {
            if p < old_out.len() {
                lemma_chars_le_total(old_out[p as int].name@, key@);
            }
            assert forall|k1: int, k2: int|
                0 <= k1 < k2 < old_out.len() + 1 implies chars_le(
                #[trigger] old_out.insert(p as int, e)[k1].name@,
                #[trigger] old_out.insert(p as int, e)[k2].name@,
            ) by {
                let s = old_out.insert(p as int, e);
                if k1 < p && k2 < p {
                    assert(s[k1] == old_out[k1] && s[k2] == old_out[k2]);
                } else if k1 < p && k2 == p {
                    assert(s[k1] == old_out[k1]);
                } else if k1 < p {
                    assert(s[k1] == old_out[k1] && s[k2] == old_out[k2 - 1]);
                } else if k1 == p {
                    assert(s[k2] == old_out[k2 - 1]);
                    if k2 - 1 > p {
                        assert(chars_le(old_out[p as int].name@, old_out[k2 - 1].name@));
                        lemma_chars_le_trans(key@, old_out[p as int].name@, old_out[k2 - 1].name@);
                    }
                } else {
                    assert(s[k1] == old_out[k1 - 1] && s[k2] == old_out[k2 - 1]);
                }
            }
            assert(orig.subrange(0, i + 1) =~= orig.subrange(0, i as int).push(e));
            vstd::seq_lib::to_multiset_build(orig.subrange(0, i as int), e);
            vstd::seq_lib::to_multiset_insert(old_out, p as int, e);
        }
        out.insert(p, e);
        keys.insert(p, key);
        proof {
            assert forall|k: int| 0 <= k < out@.len() implies (#[trigger] keys@[k])@
                == out@[k].name@ by {
                if k < p {
                    assert(out@[k] == old_out[k]);
                } else if k > p {
                    assert(out@[k] == old_out[k - 1]);
                }
            }
        }
        i = i + 1;
    }
    assert(orig.subrange(0, n as int) =~= orig);
    out
}

/// Splits a batch into its file-backed records and its store apps, each in order.
fn split_by_kind(entries: Vec<RankedIcon>) -> (r: (Vec<RankedIcon>, Vec<RankedIcon>))
    ensures
        r.0@ == part(entries@, false),
        r.1@ == part(entries@, true),
{
    let ghost orig = entries@;
    let n = entries.len();
    let mut rev = reversed(entries);
    let mut files: Vec<RankedIcon> = Vec::new();
    let mut apps: Vec<RankedIcon> = Vec::new();
    let mut i: usize = 0;
    while i < n
        invariant
            n == orig.len(),
            i <= n,
            rev@.len() == n - i,
            forall|k: int| 0 <= k < n - i ==> rev@[k] == orig[n - 1 - k],
            files@ == part(orig.subrange(0, i as int), false),
            apps@ == part(orig.subrange(0, i as int), true),
        decreases n - i,
    {
        let e = rev.pop().unwrap();
        proof {
            assert(orig.subrange(0, i + 1).drop_last() =~= orig.subrange(0, i as int));
            assert(orig.subrange(0, i + 1).last() == e);
        }
        if is_uwp_icon(&e.icon) {
            apps.push(e);
        } else {
            files.push(e);
        }
        i = i + 1;
    }
    assert(orig.subrange(0, n as int) =~= orig);
    (files, apps)
}

/// Computes the name part of a record's fingerprint.
pub fn name_key_of(icon: &DesktopIcon) -> (r: String)
    ensures
        r@ == name_key(*icon),
{
    let t = trimmed(icon.name.as_str());
    lowercase(t.as_str())
}

/// Keeps the records of `apps` whose name key no record of `files` has.
fn drop_name_clashes(apps: Vec<RankedIcon>, files: &Vec<RankedIcon>) -> (r: Vec<RankedIcon>)
    ensures
        r@ == unclashed(apps@, files@),
{
    let mut names: Vec<String> = Vec::new();
    let mut k: usize = 0;
    while k < files.len()
        invariant
            k <= files@.len(),
            names@.len() == k,
            forall|q: int| 0 <= q < k ==> (#[trigger] names@[q])@ == name_key(files@[q].icon),
        decreases files@.len() - k,
    {
        names.push(name_key_of(&files[k].icon));
        k = k + 1;
    }
    let ghost orig = apps@;
    let n = apps.len();
    let mut rev = reversed(apps);
    let mut out: Vec<RankedIcon> = Vec::new();
    let mut i: usize = 0;
    while i < n
        invariant
            n == orig.len(),
            i <= n,
            rev@.len() == n - i,
            forall|q: int| 0 <= q < n - i ==> rev@[q] == orig[n - 1 - q],
            names@.len() == files@.len(),
            forall|q: int| 0 <= q < names@.len() ==> (#[trigger] names@[q])@ == name_key(
                files@[q].icon,
            ),
            out@ == unclashed(orig.subrange(0, i as int), files@),
        decreases n - i,
    {
        let e = rev.pop().unwrap();
        proof {
            assert(orig.subrange(0, i + 1).drop_last() =~= orig.subrange(0, i as int));
            assert(orig.subrange(0, i + 1).last() == e);
        }
        let key = name_key_of(&e.icon);
        let mut j: usize = 0;
        while j < names.len() && !(names[j] == key)
            invariant
                j <= names@.len(),
                forall|q: int| 0 <= q < j ==> (#[trigger] names@[q])@ != key@,
            decreases names@.len() - j,
        {
            j = j + 1;
        }
        if j == names.len() {
            proof {
                assert(!name_clash(files@, e.icon)) by {
                    if name_clash(files@, e.icon) {
                        let q = choose|q: int| 0 <= q < files@.len() && #[trigger] name_key(
                            files@[q].icon,
                        ) == name_key(e.icon);
                        assert(names@[q]@ == key@);
                    }
                }
            }
            out.push(e);
        } else {
            assert(name_key(files@[j as int].icon) == name_key(e.icon));
        }
        i = i + 1;
    }
    assert(orig.subrange(0, n as int) =~= orig);
    out
}

/// The records without their priorities, appended to `out`.
fn append_icons(out: &mut Vec<DesktopIcon>, v: Vec<RankedIcon>)
    ensures
        final(out)@ == old(out)@ + icons_of(v@),
{
    let ghost orig = v@;
    let ghost start = out@;
    let n = v.len();
    let mut rev = reversed(v);
    let mut i: usize = 0;
    while i < n
        invariant
            n == orig.len(),
            i <= n,
            rev@.len() == n - i,
            forall|q: int| 0 <= q < n - i ==> rev@[q] == orig[n - 1 - q],
            out@ == start + icons_of(orig.subrange(0, i as int)),
        decreases n - i,
    {
        let e = rev.pop().unwrap();
        out.push(e.icon);
        proof {
            assert(icons_of(orig.subrange(0, i + 1)) =~= icons_of(orig.subrange(0, i as int)).push(
                orig[i as int].icon,
            ));
            assert(start + icons_of(orig.subrange(0, i + 1)) =~= (start + icons_of(
                orig.subrange(0, i as int),
            )).push(orig[i as int].icon));
        }
        i = i + 1;
    }
    assert(orig.subrange(0, n as int) =~= orig);
}

/// No two records share a fingerprint.
pub open spec fn distinct_icon_fingerprints(r: Seq<DesktopIcon>) -> bool {
    forall|k1: int, k2: int|
        0 <= k1 < r.len() && 0 <= k2 < r.len() && k1 != k2 ==> fingerprint(#[trigger] r[k1])
            != fingerprint(#[trigger] r[k2])
}

proof fn lemma_unclashed_parts(u: Seq<RankedIcon>, m: Seq<RankedIcon>)
    requires
        distinct_fingerprints(u),
    ensures
        distinct_fingerprints(unclashed(u, m)),
        forall|k: int|
            0 <= k < unclashed(u, m).len() ==> !name_clash(m, (#[trigger] unclashed(u, m)[k]).icon)
                && exists|q: int| 0 <= q < u.len() && u[q] == unclashed(u, m)[k],
    decreases u.len(),
{
    if u.len() > 0 {
        let p = u.drop_last();
        assert(distinct_fingerprints(p)) by {
            assert forall|j1: int, j2: int|
                0 <= j1 < p.len() && 0 <= j2 < p.len() && j1 != j2 implies fingerprint(
                #[trigger] p[j1].icon,
            ) != fingerprint(#[trigger] p[j2].icon) by {
                assert(p[j1] == u[j1] && p[j2] == u[j2]);
            }
        }
        lemma_unclashed_parts(p, m);
        let c = unclashed(p, m);
        let r = unclashed(u, m);
        if !name_clash(m, u.last().icon) {
            assert(r == c.push(u.last()));
            assert forall|k: int| 0 <= k < c.len() implies fingerprint((#[trigger] c[k]).icon)
                != fingerprint(u.last().icon) by {
                let q = choose|q: int| 0 <= q < p.len() && p[q] == c[k];
                assert(u[q] == p[q]);
                assert(fingerprint(u[q].icon) != fingerprint(u[u.len() - 1].icon));
            }
            assert forall|j1: int, j2: int|
                0 <= j1 < r.len() && 0 <= j2 < r.len() && j1 != j2 implies fingerprint(
                #[trigger] r[j1].icon,
            ) != fingerprint(#[trigger] r[j2].icon) by {
                if j1 < c.len() && j2 < c.len() {
                    assert(r[j1] == c[j1] && r[j2] == c[j2]);
                } else if j1 < c.len() {
                    assert(r[j1] == c[j1]);
                } else {
                    assert(r[j2] == c[j2]);
                }
            }
            assert forall|k: int| 0 <= k < r.len() implies !name_clash(m, (#[trigger] r[k]).icon)
                && exists|q: int| 0 <= q < u.len() && u[q] == r[k] by {
                if k < c.len() {
                    assert(r[k] == c[k]);
                    let q = choose|q: int| 0 <= q < p.len() && p[q] == c[k];
                    assert(u[q] == p[q]);
                } else {
                    assert(r[k] == u[u.len() - 1]);
                }
            }
        } else {
            assert(r == c);
            assert forall|k: int| 0 <= k < r.len() implies !name_clash(m, (#[trigger] r[k]).icon)
                && exists|q: int| 0 <= q < u.len() && u[q] == r[k] by {
                let q = choose|q: int| 0 <= q < p.len() && p[q] == c[k];
                assert(u[q] == p[q]);
            }
        }
    }
}

/// The survivors of a multi-source batch share no fingerprint: each merge
/// leaves one record per fingerprint, and a store app whose name a
/// file-backed survivor has is dropped.
pub proof fn lemma_combined_distinct(s: Seq<RankedIcon>)
    ensures
        distinct_icon_fingerprints(combined_sources(s)),
{
    let files = merged(part(s, false));
    let apps = merged(part(s, true));
    lemma_merged_distinct(part(s, false));
    lemma_merged_distinct(part(s, true));
    lemma_unclashed_parts(apps, files);
    let kept = unclashed(apps, files);
    let c = combined_sources(s);
    let nf = files.len() as int;
    assert(c == icons_of(files) + icons_of(kept));
    assert forall|k1: int, k2: int|
        0 <= k1 < c.len() && 0 <= k2 < c.len() && k1 != k2 implies fingerprint(#[trigger] c[k1])
        != fingerprint(#[trigger] c[k2]) by {
        if k1 < nf && k2 < nf {
            assert(c[k1] == files[k1].icon && c[k2] == files[k2].icon);
        } else if k1 >= nf && k2 >= nf {
            assert(c[k1] == kept[k1 - nf].icon && c[k2] == kept[k2 - nf].icon);
        } else if k1 < nf {
            assert(c[k1] == files[k1].icon && c[k2] == kept[k2 - nf].icon);
            assert(!name_clash(files, kept[k2 - nf].icon));
            assert(name_key(files[k1].icon) != name_key(kept[k2 - nf].icon));
        } else {
            assert(c[k2] == files[k2].icon && c[k1] == kept[k1 - nf].icon);
            assert(!name_clash(files, kept[k1 - nf].icon));
            assert(name_key(files[k2].icon) != name_key(kept[k1 - nf].icon));
        }
    }
}

proof fn lemma_permutation_keeps_distinct(a: Seq<DesktopIcon>, b: Seq<DesktopIcon>)
    requires
        distinct_icon_fingerprints(a),
        a.to_multiset() == b.to_multiset(),
    ensures
        distinct_icon_fingerprints(b),
{
    broadcast use vstd::seq_lib::to_multiset_contains;

    assert(a.no_duplicates()) by {
        assert forall|i: int, j: int| 0 <= i < a.len() && 0 <= j < a.len() && i != j implies a[i]
            != a[j] by {
            assert(fingerprint(a[i]) != fingerprint(a[j]));
        }
    }
    a.lemma_multiset_has_no_duplicates();
    b.lemma_multiset_has_no_duplicates_conv();
    assert forall|k1: int, k2: int|
        0 <= k1 < b.len() && 0 <= k2 < b.len() && k1 != k2 implies fingerprint(#[trigger] b[k1])
        != fingerprint(#[trigger] b[k2]) by {
        assert(b.contains(b[k1]));
        assert(b.contains(b[k2]));
        assert(b.to_multiset().count(b[k1]) > 0);
        assert(b.to_multiset().count(b[k2]) > 0);
        assert(a.to_multiset().count(b[k1]) > 0);
        assert(a.to_multiset().count(b[k2]) > 0);
        assert(a.contains(b[k1]));
        assert(a.contains(b[k2]));
        let i1 = choose|i: int| 0 <= i < a.len() && a[i] == b[k1];
        let i2 = choose|i: int| 0 <= i < a.len() && a[i] == b[k2];
        assert(b[k1] != b[k2]);
        assert(i1 != i2);
        assert(fingerprint(a[i1]) != fingerprint(a[i2]));
    }
}

/// Aggregates the records of several scanners: file-backed records and store
/// apps are merged by fingerprint separately, store apps that share a name
/// with a file-backed survivor are dropped, and the rest is ordered by name.
pub fn aggregate_sources(entries: Vec<RankedIcon>) -> (r: Vec<DesktopIcon>)
    ensures
        sorted_by_name(r@),
        r@.to_multiset() == combined_sources(entries@).to_multiset(),
        distinct_icon_fingerprints(r@),
{
    let ghost s = entries@;
    let (files, apps) = split_by_kind(entries);
    let files = merge_by_fingerprint(files);
    let apps = merge_by_fingerprint(apps);
    let kept_apps = drop_name_clashes(apps, &files);
    let mut all: Vec<DesktopIcon> = Vec::new();
    append_icons(&mut all, files);
    append_icons(&mut all, kept_apps);
    assert(all@ =~= combined_sources(s));
    let r = sort_by_name(all);
    proof {
        lemma_combined_distinct(s);
        lemma_permutation_keeps_distinct(combined_sources(s), r@);
    }
    r
}

/// Aggregates the records of all scanners under the same rules as a
/// multi-source request: file-backed records and store apps are merged
/// separately, store apps named like a file-backed survivor are dropped, and
/// the rest is ordered by name.
pub fn aggregate_all(entries: Vec<RankedIcon>) -> (r: Vec<DesktopIcon>)
    ensures
        sorted_by_name(r@),
        r@.to_multiset() == combined_sources(entries@).to_multiset(),
        distinct_icon_fingerprints(r@),
{
    aggregate_sources(entries)
}

} // verus!
