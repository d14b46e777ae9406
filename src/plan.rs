//! Extraction planning: records that show the same icon share one extraction
//! key, each key is extracted once, and the results are attached back to
//! every record that asked for them.
use vstd::prelude::*;

use crate::aggregate::{has_payload, is_uwp, is_uwp_icon};
use crate::codec::{lower_of, lowercase, string_from_chars, trim_of, trimmed};
use crate::path::{normalize_path, normalized_path};
use crate::text::{chars_eq, chars_of};
use crate::types::{well_formed_icon, well_formed_record, DesktopIcon, IconData};

verus! {

/// What an extraction works on.
#[derive(Clone, Copy, Debug, PartialEq, Eq, Structural)]
pub enum ExtractKind {
    /// A file whose icon resource is read, at an index.
    File,
    /// A shell item, such as a store app, rendered by the shell.
    ShellItem,
}

/// The locator of a record's icon: its icon source path, else its own path.
pub open spec fn icon_locator(r: DesktopIcon) -> Seq<char> {
    match r.icon_source_path {
        Some(p) => p@,
        None => r.file_path@,
    }
}

/// A text without its leading double quotes.
pub open spec fn strip_leading_quotes(s: Seq<char>) -> Seq<char>
    decreases s.len(),
{
    if s.len() > 0 && s[0] == '"' {
        strip_leading_quotes(s.drop_first())
    } else {
        s
    }
}

/// A text without its trailing double quotes.
pub open spec fn strip_trailing_quotes(s: Seq<char>) -> Seq<char>
    decreases s.len(),
{
    if s.len() > 0 && s.last() == '"' {
        strip_trailing_quotes(s.drop_last())
    } else {
        s
    }
}

/// A text without the double quotes at either end.
pub open spec fn trim_quotes(s: Seq<char>) -> Seq<char> {
    strip_trailing_quotes(strip_leading_quotes(s))
}

/// A path with every `/` turned into `\`.
pub open spec fn unify_separators(s: Seq<char>) -> Seq<char> {
    s.map_values(|c: char| if c == '/' { '\\' } else { c })
}

/// The verbatim prefix `\\?\`.
pub open spec fn verbatim_prefix() -> Seq<char> {
    seq!['\\', '\\', '?', '\\']
}

/// A path without a leading verbatim prefix.
pub open spec fn strip_verbatim(s: Seq<char>) -> Seq<char> {
    if s.len() >= 4 && s.subrange(0, 4) == verbatim_prefix() {
        s.subrange(4, s.len() as int)
    } else {
        s
    }
}

/// The path handed to the extractor for a record.
pub open spec fn plan_path(r: DesktopIcon) -> Seq<char> {
    normalized_path(trim_quotes(trim_of(icon_locator(r))))
}

/// The path part of a record's extraction key: trimmed, case-folded, without
/// quotes, with unified separators and no verbatim prefix.
pub open spec fn key_path(r: DesktopIcon) -> Seq<char> {
    strip_verbatim(unify_separators(normalized_path(trim_quotes(lower_of(trim_of(icon_locator(r)))))))
}

/// The icon index used for a record: none for a shell item, else its own
/// index or 0.
pub open spec fn key_index(r: DesktopIcon) -> i32 {
    if is_uwp(r) {
        0
    } else {
        match r.icon_source_index {
            Some(i) => i,
            None => 0,
        }
    }
}

/// The kind of extraction a record needs.
pub open spec fn key_kind(r: DesktopIcon) -> ExtractKind {
    if is_uwp(r) {
        ExtractKind::ShellItem
    } else {
        ExtractKind::File
    }
}

/// The extraction key of a record: what identifies its icon.
pub open spec fn key_of(r: DesktopIcon) -> (ExtractKind, i32, Seq<char>) {
    (key_kind(r), key_index(r), key_path(r))
}

/// The record still has no image payload.
pub open spec fn needs_fill(r: DesktopIcon) -> bool {
    !has_payload(r)
}

/// A computed extraction key.
pub struct ExtractionKey {
    pub kind: ExtractKind,
    pub index: i32,
    pub path: Vec<char>,
}

impl View for ExtractionKey {
    type V = (ExtractKind, i32, Seq<char>);

    open spec fn view(&self) -> (ExtractKind, i32, Seq<char>) {
        (self.kind, self.index, self.path@)
    }
}

/// One unit of extraction work: its key and the inputs of the extractor.
pub struct ExtractionPlan {
    pub key: ExtractionKey,
    pub kind: ExtractKind,
    pub path: String,
    pub icon_index: i32,
}

/// `p` is the plan entry made from record `r`.
pub open spec fn plans_for(p: ExtractionPlan, r: DesktopIcon) -> bool {
    p.key@ == key_of(r) && p.kind == key_kind(r) && p.path@ == plan_path(r) && p.icon_index
        == key_index(r)
}

fn trim_quote_chars(s: &Vec<char>) -> (r: Vec<char>)
    ensures
        r@ == trim_quotes(s@),
{
    let n = s.len();
    let mut a: usize = 0;
    assert(s@.subrange(0, n as int) =~= s@);
    while a < n && s[a] == '"'
        invariant
            n == s@.len(),
            a <= n,
            strip_leading_quotes(s@) == strip_leading_quotes(s@.subrange(a as int, n as int)),
        decreases n - a,
    {
        assert(s@.subrange(a as int, n as int).drop_first() =~= s@.subrange(a + 1, n as int));
        a = a + 1;
    }
    let ghost t = s@.subrange(a as int, n as int);
    assert(strip_leading_quotes(s@) == t);
    let mut b: usize = n;
    assert(t.subrange(0, (b - a) as int) =~= t);
    while b > a && s[b - 1] == '"'
        invariant
            a <= b <= n,
            n == s@.len(),
            t == s@.subrange(a as int, n as int),
            strip_trailing_quotes(t) == strip_trailing_quotes(s@.subrange(a as int, b as int)),
        decreases b,
    {
        assert(s@.subrange(a as int, b as int).drop_last() =~= s@.subrange(a as int, b - 1));
        b = b - 1;
    }
    let mut out: Vec<char> = Vec::new();
    let mut k: usize = a;
    while k < b
        invariant
            a <= k <= b <= n,
            n == s@.len(),
            out@ == s@.subrange(a as int, k as int),
        decreases b - k,
    {
        out.push(s[k]);
        assert(s@.subrange(a as int, k + 1) =~= s@.subrange(a as int, k as int).push(s@[k as int]));
        k = k + 1;
    }
    out
}

fn unify_and_strip(s: &Vec<char>) -> (r: Vec<char>)
    ensures
        r@ == strip_verbatim(unify_separators(s@)),
{
    let ghost u = unify_separators(s@);
    let mut unified: Vec<char> = Vec::new();
    let mut k: usize = 0;
    while k < s.len()
        invariant
            k <= s@.len(),
            u == unify_separators(s@),
            unified@ == u.subrange(0, k as int),
        decreases s@.len() - k,
    {
        let c = s[k];
        unified.push(if c == '/' { '\\' } else { c });
        assert(u.subrange(0, k + 1) =~= u.subrange(0, k as int).push(u[k as int]));
        k = k + 1;
    }
    assert(unified@ =~= u);
    let n = unified.len();
    if n >= 4 && unified[0] == '\\' && unified[1] == '\\' && unified[2] == '?' && unified[3] == '\\' {
        assert(u.subrange(0, 4) =~= verbatim_prefix());
        let mut out: Vec<char> = Vec::new();
        let mut k: usize = 4;
        while k < n
            invariant
                4 <= k <= n,
                n == unified@.len(),
                out@ == unified@.subrange(4, k as int),
            decreases n - k,
        {
            out.push(unified[k]);
            assert(unified@.subrange(4, k + 1) =~= unified@.subrange(4, k as int).push(
                unified@[k as int],
            ));
            k = k + 1;
        }
        out
    } else {
        proof {
            if u.len() >= 4 && u.subrange(0, 4) == verbatim_prefix() {
                assert(u.subrange(0, 4)[0] == u[0] && u.subrange(0, 4)[1] == u[1] && u.subrange(
                    0,
                    4,
                )[2] == u[2] && u.subrange(0, 4)[3] == u[3]);
            }
        }
        unified
    }
}

fn locator_of(icon: &DesktopIcon) -> (r: &str)
    ensures
        r@ == icon_locator(*icon),
{
    match &icon.icon_source_path {
        Some(p) => p.as_str(),
        None => icon.file_path.as_str(),
    }
}

/// Computes the extraction key of a record.
pub fn extraction_key(icon: &DesktopIcon) -> (r: ExtractionKey)
    ensures
        r@ == key_of(*icon),
{
    let raw = locator_of(icon);
    let t = trimmed(raw);
    let lower = lowercase(t.as_str());
    let unquoted = trim_quote_chars(&chars_of(lower.as_str()));
    let normal = normalize_path(string_from_chars(&unquoted).as_str());
    let path = unify_and_strip(&chars_of(normal.as_str()));
    let uwp = is_uwp_icon(icon);
    let kind = if uwp {
        ExtractKind::ShellItem
    } else {
        ExtractKind::File
    };
    let index = if uwp {
        0
    } else {
        match icon.icon_source_index {
            Some(i) => i,
            None => 0,
        }
    };
    ExtractionKey { kind, index, path }
}

/// Makes the plan entry of a record.
pub fn plan_entry(icon: &DesktopIcon) -> (r: ExtractionPlan)
    ensures
        plans_for(r, *icon),
{
    let key = extraction_key(icon);
    let t = trimmed(locator_of(icon));
    let unquoted = trim_quote_chars(&chars_of(t.as_str()));
    let path = normalize_path(string_from_chars(&unquoted).as_str());
    ExtractionPlan { kind: key.kind, icon_index: key.index, key, path }
}

/// Whether two extraction keys are the same.
pub fn keys_equal(a: &ExtractionKey, b: &ExtractionKey) -> (r: bool)
    ensures
        r == (a@ == b@),
{
    a.kind == b.kind && a.index == b.index && chars_eq(&a.path, &b.path)
}

/// Record `i` needs an icon and no earlier record that needs one has its key.
pub open spec fn first_with_key(icons: Seq<DesktopIcon>, i: int) -> bool {
    &&& 0 <= i < icons.len()
    &&& needs_fill(icons[i])
    &&& forall|q: int|
        0 <= q < i && needs_fill(#[trigger] icons[q]) ==> key_of(icons[q]) != key_of(icons[i])
}

/// Every entry of the plan is made from the first record that needs its key.
#[verifier::opaque]
pub open spec fn made_from_first(plan: Seq<ExtractionPlan>, icons: Seq<DesktopIcon>) -> bool {
    forall|j: int|
        0 <= j < plan.len() ==> exists|i: int|
            first_with_key(icons, i) && plans_for(#[trigger] plan[j], #[trigger] icons[i])
}

/// A plan for a batch: one entry per distinct key among the records that
/// need an icon, each made from the first such record.
pub open spec fn is_plan_for(plan: Seq<ExtractionPlan>, icons: Seq<DesktopIcon>) -> bool {
    &&& forall|j1: int, j2: int|
        0 <= j1 < plan.len() && 0 <= j2 < plan.len() && j1 != j2 ==> (#[trigger] plan[j1]).key@
            != (#[trigger] plan[j2]).key@
    &&& made_from_first(plan, icons)
    &&& forall|i: int|
        0 <= i < icons.len() && needs_fill(#[trigger] icons[i]) ==> exists|j: int|
            0 <= j < plan.len() && (#[trigger] plan[j]).key@ == key_of(icons[i])
}

/// Plans the extraction of a batch: every record without a payload is
/// covered, and each distinct key is planned once.
pub fn build_extraction_plan(icons: &Vec<DesktopIcon>) -> (r: Vec<ExtractionPlan>)
    ensures
        is_plan_for(r@, icons@),
{
    let ghost s = icons@;
    let mut plan: Vec<ExtractionPlan> = Vec::new();
    proof {
        reveal(made_from_first);
    }
    let mut i: usize = 0;
    while i < icons.len()
        invariant
            s == icons@,
            i <= s.len(),
            forall|j1: int, j2: int|
                0 <= j1 < plan@.len() && 0 <= j2 < plan@.len() && j1 != j2 ==> (
                #[trigger] plan@[j1]).key@ != (#[trigger] plan@[j2]).key@,
            made_from_first(plan@, s),
            forall|q: int|
                0 <= q < i && needs_fill(#[trigger] s[q]) ==> exists|j: int|
                    0 <= j < plan@.len() && (#[trigger] plan@[j]).key@ == key_of(s[q]),
        decreases s.len() - i,
    {
        if icons[i].icon_base64.as_str().is_empty() {
            let entry = plan_entry(&icons[i]);
            let mut j: usize = 0;
            while j < plan.len() && !keys_equal(&plan[j].key, &entry.key)
                invariant
                    j <= plan@.len(),
                    forall|k: int| 0 <= k < j ==> (#[trigger] plan@[k]).key@ != entry.key@,
                decreases plan@.len() - j,
            {
                j = j + 1;
            }
            if j == plan.len() {
                let ghost old_plan = plan@;
                proof {
                    assert forall|q: int|
                        0 <= q < i && needs_fill(#[trigger] s[q]) implies key_of(s[q]) != key_of(
                        s[i as int],
                    ) by {
                        let jj = choose|jj: int|
                            0 <= jj < old_plan.len() && (#[trigger] old_plan[jj]).key@ == key_of(
                                s[q],
                            );
                        assert(old_plan[jj].key@ != entry.key@);
                    }
                    assert(first_with_key(s, i as int));
                }
                plan.push(entry);
                proof {
                    assert forall|j1: int, j2: int|
                        0 <= j1 < plan@.len() && 0 <= j2 < plan@.len() && j1 != j2 implies (
                        #[trigger] plan@[j1]).key@ != (#[trigger] plan@[j2]).key@ by {
                        if j1 < old_plan.len() && j2 < old_plan.len() {
                            assert(plan@[j1] == old_plan[j1] && plan@[j2] == old_plan[j2]);
                        } else if j1 < old_plan.len() {
                            assert(old_plan[j1].key@ != entry.key@);
                        } else {
                            assert(old_plan[j2].key@ != entry.key@);
                        }
                    }
                    reveal(made_from_first);
                    assert forall|j: int| 0 <= j < plan@.len() implies exists|q: int|
                        first_with_key(s, q) && plans_for(#[trigger] plan@[j], #[trigger] s[q]) by {
                        if j < old_plan.len() {
                            assert(plan@[j] == old_plan[j]);
                        } else {
                            assert(plans_for(plan@[j], s[i as int]));
                        }
                    }
                    assert forall|q: int| 0 <= q < i + 1 && needs_fill(#[trigger] s[q]) implies exists|
                        j: int,
                    | 0 <= j < plan@.len() && (#[trigger] plan@[j]).key@ == key_of(s[q]) by {
                        if q < i {
                            let jj = choose|jj: int|
                                0 <= jj < old_plan.len() && (#[trigger] old_plan[jj]).key@
                                    == key_of(s[q]);
                            assert(plan@[jj] == old_plan[jj]);
                        } else {
                            assert(plan@[old_plan.len() as int].key@ == key_of(s[q]));
                        }
                    }
                }
            } else {
                assert(plan@[j as int].key@ == key_of(s[i as int]));
            }
        } else {
            assert(!needs_fill(s[i as int]));
        }
        i = i + 1;
    }
    plan
}

/// Entry `j` is the first entry of the plan with key `k`.
pub open spec fn first_entry_with_key(
    plan: Seq<ExtractionPlan>,
    j: int,
    k: (ExtractKind, i32, Seq<char>),
) -> bool {
    &&& 0 <= j < plan.len()
    &&& plan[j].key@ == k
    &&& forall|q: int| 0 <= q < j ==> (#[trigger] plan[q]).key@ != k
}

/// A record with an extraction result attached.
pub open spec fn with_icon(r: DesktopIcon, d: IconData) -> DesktopIcon {
    DesktopIcon { icon_base64: d.base64, icon_width: d.width, icon_height: d.height, ..r }
}

/// `after` is `before` with the result of its key attached, when it needed one
/// and the plan has its key; else `after` is `before`.
pub open spec fn attached(
    before: DesktopIcon,
    after: DesktopIcon,
    plan: Seq<ExtractionPlan>,
    results: Seq<IconData>,
) -> bool {
    if needs_fill(before) && exists|j: int|
        0 <= j < plan.len() && (#[trigger] plan[j]).key@ == key_of(before) {
        exists|j: int|
            first_entry_with_key(plan, j, key_of(before)) && after == with_icon(
                before,
                #[trigger] results[j],
            )
    } else {
        after == before
    }
}

/// Attaches extraction results to the records: each record without a payload
/// takes the payload and dimensions that its key produced. Records whose key
/// produced only a placeholder receive that placeholder.
pub fn attach_extracted(
    icons: &mut Vec<DesktopIcon>,
    plan: &Vec<ExtractionPlan>,
    results: &Vec<IconData>,
)
    requires
        plan@.len() == results@.len(),
    ensures
        final(icons)@.len() == old(icons)@.len(),
        forall|i: int|
            0 <= i < old(icons)@.len() ==> attached(
                #[trigger] old(icons)@[i],
                final(icons)@[i],
                plan@,
                results@,
            ),
        (forall|j: int| 0 <= j < results@.len() ==> well_formed_icon(#[trigger] results@[j]))
            ==> forall|i: int|
            0 <= i < old(icons)@.len() && well_formed_record(#[trigger] old(icons)@[i])
                ==> well_formed_record(final(icons)@[i]),
{
    let ghost orig = icons@;
    let mut i: usize = 0;
    while i < icons.len()
        invariant
            plan@.len() == results@.len(),
            icons@.len() == orig.len(),
            i <= orig.len(),
            forall|q: int| 0 <= q < i ==> attached(#[trigger] orig[q], icons@[q], plan@, results@),
            forall|q: int| i <= q < orig.len() ==> #[trigger] icons@[q] == orig[q],
        decreases orig.len() - i,
    {
        if icons[i].icon_base64.as_str().is_empty() {
            let key = extraction_key(&icons[i]);
            let mut j: usize = 0;
            while j < plan.len() && !keys_equal(&plan[j].key, &key)
                invariant
                    j <= plan@.len(),
                    forall|q: int| 0 <= q < j ==> (#[trigger] plan@[q]).key@ != key@,
                decreases plan@.len() - j,
            {
                j = j + 1;
            }
            if j < plan.len() {
                let b = results[j].base64.clone();
                let w = results[j].width;
                let h = results[j].height;
                let ghost before = icons@;
                icons[i].icon_base64 = b;
                icons[i].icon_width = w;
                icons[i].icon_height = h;
                proof {
                    assert(first_entry_with_key(plan@, j as int, key_of(orig[i as int])));
                    assert(icons@[i as int] == with_icon(orig[i as int], results@[j as int]));
                    assert forall|q: int| 0 <= q < orig.len() && q != i implies icons@[q]
                        == before[q] by {}
                }
            } else {
                assert(!exists|jj: int|
                    0 <= jj < plan@.len() && (#[trigger] plan@[jj]).key@ == key_of(orig[i as int]));
            }
        }
        i = i + 1;
    }
}

/// Records that share an extraction key and both needed an icon receive the
/// same payload, width and height, when the plan was built for their batch.
pub proof fn lemma_shared_key_same_icon(
    icons: Seq<DesktopIcon>,
    plan: Seq<ExtractionPlan>,
    results: Seq<IconData>,
    filled: Seq<DesktopIcon>,
    i1: int,
    i2: int,
)
    requires
        is_plan_for(plan, icons),
        plan.len() == results.len(),
        filled.len() == icons.len(),
        forall|i: int| 0 <= i < icons.len() ==> attached(#[trigger] icons[i], filled[i], plan, results),
        0 <= i1 < icons.len(),
        0 <= i2 < icons.len(),
        needs_fill(icons[i1]),
        needs_fill(icons[i2]),
        key_of(icons[i1]) == key_of(icons[i2]),
    ensures
        filled[i1].icon_base64 == filled[i2].icon_base64,
        filled[i1].icon_width == filled[i2].icon_width,
        filled[i1].icon_height == filled[i2].icon_height,
{
    assert(attached(icons[i1], filled[i1], plan, results));
    assert(attached(icons[i2], filled[i2], plan, results));
    let k = key_of(icons[i1]);
    let ja = choose|j: int| first_entry_with_key(plan, j, k) && filled[i1] == with_icon(
        icons[i1],
        #[trigger] results[j],
    );
    let jb = choose|j: int| first_entry_with_key(plan, j, k) && filled[i2] == with_icon(
        icons[i2],
        #[trigger] results[j],
    );
    if ja < jb {
        assert(plan[ja].key@ == k);
    } else if jb < ja {
        assert(plan[jb].key@ == k);
    }
}

} // verus!
