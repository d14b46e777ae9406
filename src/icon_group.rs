//! Icon-group resources: parsing their directories, scoring groups, ordering
//! them, and choosing the best entry of a group.
use vstd::prelude::*;

use crate::types::ExtractError;

verus! {

/// Size in bytes of a group directory header.
pub const GROUP_HEADER_LEN: usize = 6;

/// Size in bytes of one group directory entry.
pub const GROUP_ENTRY_LEN: usize = 14;

/// Header of an icon-group resource.
#[derive(Clone, Copy, Debug, PartialEq, Eq, Structural)]
pub struct IconGroupDir {
    pub reserved: u16,
    /// 1 for an icon group.
    pub resource_type: u16,
    pub icon_count: u16,
}

/// One entry of an icon-group resource; a width or height of 0 stands for 256.
#[derive(Clone, Copy, Debug, PartialEq, Eq, Structural)]
pub struct IconGroupDirEntry {
    pub width: u8,
    pub height: u8,
    pub color_count: u8,
    pub reserved: u8,
    pub planes: u16,
    pub bit_count: u16,
    pub bytes_in_res: u32,
    pub icon_id: u16,
}

/// The little-endian 16-bit number at offset `o`.
pub open spec fn le_u16(b: Seq<u8>, o: int) -> u16 {
    (b[o + 1] as int * 0x100 + b[o] as int) as u16
}

/// The little-endian 32-bit number at offset `o`.
pub open spec fn le_u32_at(b: Seq<u8>, o: int) -> u32 {
    (b[o + 3] as int * 0x100_0000 + b[o + 2] as int * 0x1_0000 + b[o + 1] as int * 0x100
        + b[o] as int) as u32
}

/// The directory header at the start of the data.
pub open spec fn group_dir_of(b: Seq<u8>) -> IconGroupDir {
    IconGroupDir { reserved: le_u16(b, 0), resource_type: le_u16(b, 2), icon_count: le_u16(b, 4) }
}

/// Entry `i` of the directory.
pub open spec fn entry_of(b: Seq<u8>, i: int) -> IconGroupDirEntry {
    let o = 6 + 14 * i;
    IconGroupDirEntry {
        width: b[o],
        height: b[o + 1],
        color_count: b[o + 2],
        reserved: b[o + 3],
        planes: le_u16(b, o + 4),
        bit_count: le_u16(b, o + 6),
        bytes_in_res: le_u32_at(b, o + 8),
        icon_id: le_u16(b, o + 12),
    }
}

/// A stored side length: 0 stands for 256.
pub open spec fn side(v: u8) -> int {
    if v == 0 {
        256
    } else {
        v as int
    }
}

/// The longest side of an entry.
pub open spec fn entry_size(e: IconGroupDirEntry) -> int {
    if side(e.width) >= side(e.height) {
        side(e.width)
    } else {
        side(e.height)
    }
}

/// The area of an entry.
pub open spec fn entry_area(e: IconGroupDirEntry) -> int {
    side(e.width) * side(e.height)
}

/// The number of entries that the header declares and the data holds in full.
pub open spec fn readable_entries(b: Seq<u8>) -> int {
    let fit = (b.len() - 6) / 14;
    let declared = group_dir_of(b).icon_count as int;
    if declared <= fit {
        declared
    } else {
        fit
    }
}

/// The largest entry size among the first `k` entries (0 when there are none).
pub open spec fn max_size_upto(b: Seq<u8>, k: int) -> int
    decreases k,
{
    if k <= 0 {
        0
    } else {
        let m = max_size_upto(b, k - 1);
        let s = entry_size(entry_of(b, k - 1));
        if s > m {
            s
        } else {
            m
        }
    }
}

/// Some entry among the first `k` has size `s`.
pub open spec fn any_size_upto(b: Seq<u8>, k: int, s: int) -> bool
    decreases k,
{
    if k <= 0 {
        false
    } else {
        any_size_upto(b, k - 1, s) || entry_size(entry_of(b, k - 1)) == s
    }
}

/// The number of distinct sizes among the first `k` entries.
pub open spec fn distinct_sizes_upto(b: Seq<u8>, k: int) -> int
    decreases k,
{
    if k <= 0 {
        0
    } else {
        distinct_sizes_upto(b, k - 1) + if any_size_upto(b, k - 1, entry_size(entry_of(b, k - 1))) {
            0int
        } else {
            1int
        }
    }
}

/// The number of entries of at least 32 bits per pixel among the first `k`.
pub open spec fn deep_entries_upto(b: Seq<u8>, k: int) -> int
    decreases k,
{
    if k <= 0 {
        0
    } else {
        deep_entries_upto(b, k - 1) + if entry_of(b, k - 1).bit_count >= 32 {
            1int
        } else {
            0int
        }
    }
}

/// The data is an icon-group directory: a whole header of resource type 1.
pub open spec fn is_icon_group(b: Seq<u8>) -> bool {
    b.len() >= 6 && group_dir_of(b).resource_type == 1
}

/// The score of a group: +1000 for a 256px entry; +50, +30, +10 for 48, 32,
/// 16px entries; +20 per distinct size; +5 per entry of at least 32 bits;
/// twice the largest size; +1 per declared entry. A group that is not an
/// icon group or declares no entry scores 0.
pub open spec fn group_score(b: Seq<u8>) -> int {
    if !is_icon_group(b) || group_dir_of(b).icon_count == 0 {
        0
    } else {
        let n = readable_entries(b);
        (if any_size_upto(b, n, 256) {
            1000int
        } else {
            0int
        }) + (if any_size_upto(b, n, 48) {
            50int
        } else {
            0int
        }) + (if any_size_upto(b, n, 32) {
            30int
        } else {
            0int
        }) + (if any_size_upto(b, n, 16) {
            10int
        } else {
            0int
        }) + 20 * distinct_sizes_upto(b, n) + 5 * deep_entries_upto(b, n) + 2 * max_size_upto(b, n)
            + group_dir_of(b).icon_count as int
    }
}

/// What ranks a group against others.
#[derive(Clone, Copy, Debug, PartialEq, Eq, Structural)]
pub struct GroupRank {
    pub score: u32,
    pub max_size: u32,
    pub icon_count: u32,
}

/// The rank of a group directory, when it is an icon group.
pub open spec fn group_rank(b: Seq<u8>) -> Option<GroupRank> {
    if is_icon_group(b) {
        Some(
            GroupRank {
                score: group_score(b) as u32,
                max_size: max_size_upto(b, readable_entries(b)) as u32,
                icon_count: group_dir_of(b).icon_count as u32,
            },
        )
    } else {
        None
    }
}

/// `a` ranks strictly before `b`: higher score, then larger maximum size, then
/// more entries.
pub open spec fn rank_before(a: GroupRank, b: GroupRank) -> bool {
    a.score > b.score || (a.score == b.score && a.max_size > b.max_size) || (a.score == b.score
        && a.max_size == b.max_size && a.icon_count > b.icon_count)
}

/// Group `i` comes before group `j`: it ranks before, or ranks the same and
/// comes first.
pub open spec fn group_precedes(ranks: Seq<GroupRank>, i: int, j: int) -> bool {
    rank_before(ranks[i], ranks[j]) || (ranks[i] == ranks[j] && i < j)
}

fn read_u16(b: &[u8], o: usize) -> (r: u16)
    requires
        o + 2 <= b@.len(),
    ensures
        r == le_u16(b@, o as int),
{
    let n = b.len();
    assert(o + 1 < n);
    (b[o + 1] as u16) * 0x100 + (b[o] as u16)
}

fn read_u32(b: &[u8], o: usize) -> (r: u32)
    requires
        o + 4 <= b@.len(),
    ensures
        r == le_u32_at(b@, o as int),
{
    let n = b.len();
    assert(o + 3 < n);
    (b[o + 3] as u32) * 0x100_0000 + (b[o + 2] as u32) * 0x1_0000 + (b[o + 1] as u32) * 0x100 + (b[o]
        as u32)
}

/// Reads the directory header.
pub fn parse_group_dir(data: &[u8]) -> (r: Option<IconGroupDir>)
    ensures
        data@.len() < 6 ==> r is None,
        data@.len() >= 6 ==> r == Some(group_dir_of(data@)),
{
    if data.len() < GROUP_HEADER_LEN {
        return None;
    }
    Some(
        IconGroupDir {
            reserved: read_u16(data, 0),
            resource_type: read_u16(data, 2),
            icon_count: read_u16(data, 4),
        },
    )
}

/// Reads entry `i` of the directory.
pub fn parse_group_entry(data: &[u8], i: usize) -> (r: IconGroupDirEntry)
    requires
        6 + 14 * (i + 1) <= data@.len(),
    ensures
        r == entry_of(data@, i as int),
{
    let n = data.len();
    assert(6 + 14 * i < n);
    let o: usize = GROUP_HEADER_LEN + GROUP_ENTRY_LEN * i;
    IconGroupDirEntry {
        width: data[o],
        height: data[o + 1],
        color_count: data[o + 2],
        reserved: data[o + 3],
        planes: read_u16(data, o + 4),
        bit_count: read_u16(data, o + 6),
        bytes_in_res: read_u32(data, o + 8),
        icon_id: read_u16(data, o + 12),
    }
}

fn side_of(v: u8) -> (r: u32)
    ensures
        r == side(v),
{
    if v == 0 {
        256
    } else {
        v as u32
    }
}

fn size_of_entry(e: &IconGroupDirEntry) -> (r: u32)
    ensures
        r == entry_size(*e),
        1 <= r <= 256,
{
    let w = side_of(e.width);
    let h = side_of(e.height);
    if w >= h {
        w
    } else {
        h
    }
}

/// The number of entries to read: those declared, as far as the data holds them.
fn readable_count(data: &[u8], dir: &IconGroupDir) -> (r: usize)
    requires
        data@.len() >= 6,
        *dir == group_dir_of(data@),
    ensures
        r == readable_entries(data@),
        r <= 0xffff,
        6 + 14 * r <= data@.len(),
{
    let fit = (data.len() - GROUP_HEADER_LEN) / GROUP_ENTRY_LEN;
    let declared = dir.icon_count as usize;
    if declared <= fit {
        declared
    } else {
        fit
    }
}

proof fn lemma_upto_bounds(b: Seq<u8>, k: int)
    requires
        0 <= k,
    ensures
        0 <= max_size_upto(b, k) <= 256,
        0 <= distinct_sizes_upto(b, k) <= k,
        0 <= deep_entries_upto(b, k) <= k,
        k >= 1 ==> distinct_sizes_upto(b, k) >= 1,
    decreases k,
{
    if k > 0 {
        lemma_upto_bounds(b, k - 1);
        if k == 1 {
            assert(!any_size_upto(b, 0, entry_size(entry_of(b, 0))));
        }
    }
}

/// Analyses a group directory: its largest entry size and its declared count.
pub fn analyze_icon_group(group_data: &[u8]) -> (r: Result<(u32, u32), ExtractError>)
    ensures
        group_data@.len() < 6 ==> r == Err::<(u32, u32), ExtractError>(ExtractError::TooShort),
        group_data@.len() >= 6 && !is_icon_group(group_data@) ==> r == Err::<(u32, u32), ExtractError>(
            ExtractError::BadHeader,
        ),
        is_icon_group(group_data@) ==> r == Ok::<(u32, u32), ExtractError>(
            (
                max_size_upto(group_data@, readable_entries(group_data@)) as u32,
                group_dir_of(group_data@).icon_count as u32,
            ),
        ),
{
    let dir = match parse_group_dir(group_data) {
        Some(d) => d,
        None => return Err(ExtractError::TooShort),
    };
    if dir.resource_type != 1 {
        return Err(ExtractError::BadHeader);
    }
    let n = readable_count(group_data, &dir);
    let mut max_size: u32 = 0;
    let mut i: usize = 0;
    while i < n
        invariant
            n == readable_entries(group_data@),
            6 + 14 * n <= group_data@.len(),
            i <= n,
            max_size == max_size_upto(group_data@, i as int),
        decreases n - i,
    {
        let e = parse_group_entry(group_data, i);
        let s = size_of_entry(&e);
        if s > max_size {
            max_size = s;
        }
        i = i + 1;
    }
    Ok((max_size, dir.icon_count as u32))
}

/// Scores a group directory; see `group_score`.
pub fn score_icon_group(group_data: &[u8]) -> (r: u32)
    ensures
        r == group_score(group_data@),
{
    let ghost b = group_data@;
    let dir = match parse_group_dir(group_data) {
        Some(d) => d,
        None => return 0,
    };
    if dir.resource_type != 1 || dir.icon_count == 0 {
        return 0;
    }
    let n = readable_count(group_data, &dir);
    let mut has256 = false;
    let mut has48 = false;
    let mut has32 = false;
    let mut has16 = false;
    let mut distinct: u32 = 0;
    let mut deep: u32 = 0;
    let mut max_size: u32 = 0;
    let mut i: usize = 0;
    while i < n
        invariant
            b == group_data@,
            n == readable_entries(b),
            n <= 0xffff,
            6 + 14 * n <= b.len(),
            i <= n,
            has256 == any_size_upto(b, i as int, 256),
            has48 == any_size_upto(b, i as int, 48),
            has32 == any_size_upto(b, i as int, 32),
            has16 == any_size_upto(b, i as int, 16),
            distinct == distinct_sizes_upto(b, i as int),
            deep == deep_entries_upto(b, i as int),
            max_size == max_size_upto(b, i as int),
        decreases n - i,
    {
        proof {
            lemma_upto_bounds(b, i as int);
        }
        let e = parse_group_entry(group_data, i);
        let s = size_of_entry(&e);
        let mut seen = false;
        let mut j: usize = 0;
        while j < i
            invariant
                b == group_data@,
                6 + 14 * n <= b.len(),
                i < n,
                j <= i,
                s == entry_size(entry_of(b, i as int)),
                seen == any_size_upto(b, j as int, s as int),
            decreases i - j,
        {
            let other = parse_group_entry(group_data, j);
            if size_of_entry(&other) == s {
                seen = true;
            }
            j = j + 1;
        }
        if !seen {
            distinct = distinct + 1;
        }
        if e.bit_count >= 32 {
            deep = deep + 1;
        }
        if s > max_size {
            max_size = s;
        }
        if s == 256 {
            has256 = true;
        }
        if s == 48 {
            has48 = true;
        }
        if s == 32 {
            has32 = true;
        }
        if s == 16 {
            has16 = true;
        }
        i = i + 1;
    }
    proof {
        lemma_upto_bounds(b, n as int);
    }
    let mut score: u32 = 0;
    if has256 {
        score = score + 1000;
    }
    if has48 {
        score = score + 50;
    }
    if has32 {
        score = score + 30;
    }
    if has16 {
        score = score + 10;
    }
    score = score + distinct * 20;
    score = score + deep * 5;
    score = score + max_size * 2;
    score = score + dir.icon_count as u32;
    score
}

/// Ranks a group directory, when it is an icon group.
pub fn rank_icon_group(group_data: &[u8]) -> (r: Option<GroupRank>)
    ensures
        r == group_rank(group_data@),
{
    match analyze_icon_group(group_data) {
        Ok((max_size, icon_count)) => Some(
            GroupRank { score: score_icon_group(group_data), max_size, icon_count },
        ),
        Err(_) => None,
    }
}

proof fn lemma_size_witness(b: Seq<u8>, k: int, i: int)
    requires
        0 <= i < k,
    ensures
        any_size_upto(b, k, entry_size(entry_of(b, i))),
        max_size_upto(b, k) >= entry_size(entry_of(b, i)),
        entry_of(b, i).bit_count >= 32 ==> deep_entries_upto(b, k) >= 1,
    decreases k,
{
    if i < k - 1 {
        lemma_size_witness(b, k - 1, i);
    }
    lemma_upto_bounds(b, k - 1);
}

proof fn lemma_size_at_most_max(b: Seq<u8>, k: int, s: int)
    requires
        0 <= k,
        any_size_upto(b, k, s),
    ensures
        s <= max_size_upto(b, k),
    decreases k,
{
    if k > 0 && any_size_upto(b, k - 1, s) {
        lemma_size_at_most_max(b, k - 1, s);
    }
}

/// A group holding a 256px entry of at least 32 bits per pixel ranks before a
/// group whose largest entry is 48px, however many entries the first holds,
/// as long as the second declares no more than 51.
pub proof fn lemma_large_group_outranks(a: Seq<u8>, b: Seq<u8>, ia: int)
    requires
        is_icon_group(a),
        0 <= ia < readable_entries(a),
        entry_size(entry_of(a, ia)) == 256,
        entry_of(a, ia).bit_count >= 32,
        is_icon_group(b),
        max_size_upto(b, readable_entries(b)) == 48,
        group_dir_of(b).icon_count <= 51,
    ensures
        group_rank(a) is Some && group_rank(b) is Some,
        rank_before(group_rank(a)->Some_0, group_rank(b)->Some_0),
{
    let na = readable_entries(a);
    let nb = readable_entries(b);
    lemma_upto_bounds(a, na);
    lemma_upto_bounds(b, nb);
    lemma_size_witness(a, na, ia);
    if any_size_upto(b, nb, 256) {
        lemma_size_at_most_max(b, nb, 256);
    }
    assert(nb >= 0);
    if nb == 0 {
        assert(max_size_upto(b, 0) == 0);
    }
    assert(group_dir_of(b).icon_count > 0);
    assert(max_size_upto(a, na) == 256);
    let sa = group_score(a);
    let sb = group_score(b);
    assert(sa >= 1000 + 20 + 5 + 512 + 1);
    assert(sb <= 90 + 20 * 51 + 5 * 51 + 96 + 51);
    assert(sa <= 0xffff_ffff);
}

fn ranks_before(a: &GroupRank, b: &GroupRank) -> (r: bool)
    ensures
        r == rank_before(*a, *b),
{
    a.score > b.score || (a.score == b.score && a.max_size > b.max_size) || (a.score == b.score
        && a.max_size == b.max_size && a.icon_count > b.icon_count)
}

/// The rank of group `i` of a list (meaningful when it is an icon group).
pub open spec fn rank_at(gs: Seq<Vec<u8>>, i: int) -> GroupRank {
    group_rank(gs[i]@)->Some_0
}

/// Group `i` of a list comes before group `j`.
pub open spec fn comes_before(gs: Seq<Vec<u8>>, i: int, j: int) -> bool {
    rank_before(rank_at(gs, i), rank_at(gs, j)) || (rank_at(gs, i) == rank_at(gs, j) && i < j)
}

/// Orders the icon groups of a module for extraction: best score first, then
/// the largest maximum size, then the most entries, earlier groups first
/// among equals. Directories that are not icon groups are left out.
pub fn order_icon_groups(groups: &Vec<Vec<u8>>) -> (r: Vec<usize>)
    ensures
        forall|k: int| 0 <= k < r@.len() ==> r@[k] < groups@.len() && (#[trigger] group_rank(
            groups@[r@[k] as int]@,
        )) is Some,
        forall|i: int|
            0 <= i < groups@.len() && (#[trigger] group_rank(groups@[i]@)) is Some ==> r@.contains(
                i as usize,
            ),
        forall|k1: int, k2: int|
            0 <= k1 < k2 < r@.len() ==> comes_before(groups@, #[trigger] r@[k1] as int, #[trigger] r@[k2] as int),
{
    let ghost gs = groups@;
    let mut out: Vec<usize> = Vec::new();
    let mut out_ranks: Vec<GroupRank> = Vec::new();
    let mut i: usize = 0;
    while i < groups.len()
        invariant
            gs == groups@,
            i <= gs.len(),
            out_ranks@.len() == out@.len(),
            forall|k: int|
                0 <= k < out@.len() ==> out@[k] < i && (#[trigger] group_rank(gs[out@[k] as int]@)) is Some
                    && out_ranks@[k] == rank_at(gs, out@[k] as int),
            forall|j: int|
                0 <= j < i && (#[trigger] group_rank(gs[j]@)) is Some ==> out@.contains(j as usize),
            forall|k1: int, k2: int|
                0 <= k1 < k2 < out@.len() ==> comes_before(gs, #[trigger] out@[k1] as int, #[trigger] out@[k2] as int),
        decreases gs.len() - i,
    {
        match rank_icon_group(groups[i].as_slice()) {
            None => {},
            Some(cur) => {
                let mut p: usize = 0;
                while p < out.len() && !ranks_before(&cur, &out_ranks[p])
                    invariant
                        out_ranks@.len() == out@.len(),
                        p <= out@.len(),
                        forall|k: int| 0 <= k < p ==> !rank_before(cur, #[trigger] out_ranks@[k]),
                    decreases out@.len() - p,
                {
                    p = p + 1;
                }
                let ghost old_out = out@;
                let ghost old_ranks = out_ranks@;
                proof {
                    assert(cur == rank_at(gs, i as int));
                    assert forall|k1: int, k2: int|
                        0 <= k1 < k2 < old_out.len() + 1 implies comes_before(
                        gs,
                        #[trigger] old_out.insert(p as int, i)[k1] as int,
                        #[trigger] old_out.insert(p as int, i)[k2] as int,
                    ) by {
                        let s = old_out.insert(p as int, i);
                        if k1 < p && k2 < p {
                            assert(s[k1] == old_out[k1] && s[k2] == old_out[k2]);
                        } else if k1 < p && k2 == p {
                            assert(s[k1] == old_out[k1]);
                            assert(!rank_before(cur, old_ranks[k1]));
                        } else if k1 < p {
                            assert(s[k1] == old_out[k1] && s[k2] == old_out[k2 - 1]);
                        } else if k1 == p {
                            assert(s[k2] == old_out[k2 - 1]);
                            assert(rank_before(cur, old_ranks[p as int]));
                            if k2 - 1 > p {
                                assert(comes_before(gs, old_out[p as int] as int, old_out[k2 - 1] as int));
                            }
                        } else {
                            assert(s[k1] == old_out[k1 - 1] && s[k2] == old_out[k2 - 1]);
                        }
                    }
                }
                out.insert(p, i);
                out_ranks.insert(p, cur);
                proof {
                    assert forall|j: int|
                        0 <= j < i + 1 && (#[trigger] group_rank(gs[j]@)) is Some implies out@.contains(
                        j as usize,
                    ) by {
                        if j < i {
                            let k = choose|k: int| 0 <= k < old_out.len() && old_out[k] == j as usize;
                            if k < p {
                                assert(out@[k] == j as usize);
                            } else {
                                assert(out@[k + 1] == j as usize);
                            }
                        } else {
                            assert(out@[p as int] == i);
                        }
                    }
                    assert forall|k: int| 0 <= k < out@.len() implies out@[k] < i + 1 && (
                    #[trigger] group_rank(gs[out@[k] as int]@)) is Some && out_ranks@[k] == rank_at(
                        gs,
                        out@[k] as int,
                    ) by {
                        if k < p {
                            assert(out@[k] == old_out[k]);
                        } else if k > p {
                            assert(out@[k] == old_out[k - 1]);
                        }
                    }
                }
            },
        }
        i = i + 1;
    }
    out
}

/// The entry chosen from a group, with where it stands.
#[derive(Clone, Copy, Debug, PartialEq, Eq, Structural)]
pub struct IconEntryChoice {
    pub index: usize,
    pub icon_id: u16,
    pub width: u32,
    pub height: u32,
}

/// Entry `a` is better than entry `b`: larger area, or the same area and more
/// bits per pixel.
pub open spec fn entry_better(a: IconGroupDirEntry, b: IconGroupDirEntry) -> bool {
    entry_area(a) > entry_area(b) || (entry_area(a) == entry_area(b) && a.bit_count > b.bit_count)
}

/// Entry `idx` is the first of the best entries among the declared ones.
pub open spec fn is_best_entry(b: Seq<u8>, idx: int) -> bool {
    let n = group_dir_of(b).icon_count as int;
    &&& 0 <= idx < n
    &&& forall|j: int| 0 <= j < n ==> !entry_better(#[trigger] entry_of(b, j), entry_of(b, idx))
    &&& forall|j: int| 0 <= j < idx ==> entry_better(entry_of(b, idx), #[trigger] entry_of(b, j))
}

fn area_of_entry(e: &IconGroupDirEntry) -> (r: u32)
    ensures
        r == entry_area(*e),
{
    let w = side_of(e.width);
    let h = side_of(e.height);
    assert(w * h <= 256 * 256) by (nonlinear_arith)
        requires
            w <= 256,
            h <= 256,
    ;
    w * h
}

/// Chooses, within a group directory, the entry of the largest area, then of
/// the most bits per pixel; the first one among equals.
pub fn select_best_entry(group_data: &[u8]) -> (r: Result<IconEntryChoice, ExtractError>)
    ensures
        group_data@.len() < 6 ==> r == Err::<IconEntryChoice, ExtractError>(ExtractError::TooShort),
        group_data@.len() >= 6 && group_dir_of(group_data@).icon_count == 0 ==> r == Err::<
            IconEntryChoice,
            ExtractError,
        >(ExtractError::EmptyGroup),
        group_data@.len() >= 6 && group_dir_of(group_data@).icon_count > 0 && group_data@.len() < 6
            + 14 * group_dir_of(group_data@).icon_count ==> r == Err::<
            IconEntryChoice,
            ExtractError,
        >(ExtractError::TooShort),
        group_data@.len() >= 6 && group_dir_of(group_data@).icon_count > 0 && group_data@.len() >= 6
            + 14 * group_dir_of(group_data@).icon_count ==> (r matches Ok(c) && is_best_entry(
            group_data@,
            c.index as int,
        ) && c.icon_id == entry_of(group_data@, c.index as int).icon_id && c.width == side(
            entry_of(group_data@, c.index as int).width,
        ) && c.height == side(entry_of(group_data@, c.index as int).height)),
{
    let ghost b = group_data@;
    let dir = match parse_group_dir(group_data) {
        Some(d) => d,
        None => return Err(ExtractError::TooShort),
    };
    if dir.icon_count == 0 {
        return Err(ExtractError::EmptyGroup);
    }
    let n = dir.icon_count as usize;
    if group_data.len() < GROUP_HEADER_LEN + n * GROUP_ENTRY_LEN {
        return Err(ExtractError::TooShort);
    }
    let mut best_index: usize = 0;
    let mut best = parse_group_entry(group_data, 0);
    let mut best_area = area_of_entry(&best);
    let mut i: usize = 1;
    while i < n
        invariant
            b == group_data@,
            n == group_dir_of(b).icon_count,
            6 + 14 * n <= b.len(),
            1 <= i <= n,
            best_index < i,
            best == entry_of(b, best_index as int),
            best_area == entry_area(best),
            forall|j: int| 0 <= j < i ==> !entry_better(#[trigger] entry_of(b, j), best),
            forall|j: int| 0 <= j < best_index ==> entry_better(best, #[trigger] entry_of(b, j)),
        decreases n - i,
    {
        let e = parse_group_entry(group_data, i);
        let area = area_of_entry(&e);
        if area > best_area || (area == best_area && e.bit_count > best.bit_count) {
            proof {
                assert forall|j: int| 0 <= j < i implies entry_better(e, #[trigger] entry_of(b, j)) by {
                    assert(!entry_better(entry_of(b, j), best));
                }
            }
            best_index = i;
            best = e;
            best_area = area;
        }
        i = i + 1;
    }
    Ok(
        IconEntryChoice {
            index: best_index,
            icon_id: best.icon_id,
            width: side_of(best.width),
            height: side_of(best.height),
        },
    )
}

/// The directory declares entries and holds all of them, so that an entry
/// can be chosen from it.
pub open spec fn selectable(b: Seq<u8>) -> bool {
    b.len() >= 6 && group_dir_of(b).icon_count > 0 && b.len() >= 6 + 14 * group_dir_of(
        b,
    ).icon_count
}

/// A group and the entry chosen from it.
#[derive(Clone, Copy, Debug, PartialEq, Eq, Structural)]
pub struct GroupChoice {
    pub group: usize,
    pub entry: IconEntryChoice,
}

/// `c` is the entry chosen from directory `b`.
pub open spec fn is_choice_for(b: Seq<u8>, c: IconEntryChoice) -> bool {
    is_best_entry(b, c.index as int) && c.icon_id == entry_of(b, c.index as int).icon_id && c.width
        == side(entry_of(b, c.index as int).width) && c.height == side(
        entry_of(b, c.index as int).height,
    )
}

/// The candidates to load, best first: every icon group from which an entry
/// can be chosen, in the order of `order_icon_groups`, with its chosen entry.
/// Loading walks them in turn and keeps the first that loads.
pub fn plan_group_candidates(groups: &Vec<Vec<u8>>) -> (r: Vec<GroupChoice>)
    ensures
        forall|k: int|
            0 <= k < r@.len() ==> (#[trigger] r@[k]).group < groups@.len() && group_rank(
                groups@[r@[k].group as int]@,
            ) is Some && selectable(groups@[r@[k].group as int]@) && is_choice_for(
                groups@[r@[k].group as int]@,
                r@[k].entry,
            ),
        forall|k1: int, k2: int|
            0 <= k1 < k2 < r@.len() ==> comes_before(
                groups@,
                (#[trigger] r@[k1]).group as int,
                (#[trigger] r@[k2]).group as int,
            ),
        forall|i: int|
            0 <= i < groups@.len() && (#[trigger] group_rank(groups@[i]@)) is Some && selectable(
                groups@[i]@,
            ) ==> exists|k: int| 0 <= k < r@.len() && r@[k].group == i,
{
    let ghost gs = groups@;
    let glen = groups.len();
    let order = order_icon_groups(groups);
    assert forall|k: int| 0 <= k < order@.len() implies #[trigger] order@[k] < gs.len() by {
        assert(group_rank(gs[order@[k] as int]@) is Some);
    }
    let mut out: Vec<GroupChoice> = Vec::new();
    let ghost mut from: Seq<int> = Seq::empty();
    let mut t: usize = 0;
    while t < order.len()
        invariant
            gs == groups@,
            t <= order@.len(),
            forall|k: int| 0 <= k < order@.len() ==> #[trigger] order@[k] < gs.len(),
            forall|k: int| 0 <= k < order@.len() ==> order@[k] < gs.len() && (#[trigger] group_rank(
                gs[order@[k] as int]@,
            )) is Some,
            forall|i: int|
                0 <= i < gs.len() && (#[trigger] group_rank(gs[i]@)) is Some ==> order@.contains(
                    i as usize,
                ),
            forall|k1: int, k2: int|
                0 <= k1 < k2 < order@.len() ==> comes_before(gs, #[trigger] order@[k1] as int, #[trigger] order@[k2] as int),
            from.len() == out@.len(),
            forall|k: int|
                0 <= k < out@.len() ==> 0 <= #[trigger] from[k] < t && out@[k].group == order@[from[k]]
                    && out@[k].group < gs.len() && group_rank(gs[out@[k].group as int]@) is Some
                    && selectable(gs[out@[k].group as int]@) && is_choice_for(
                    gs[out@[k].group as int]@,
                    out@[k].entry,
                ),
            forall|k1: int, k2: int| 0 <= k1 < k2 < out@.len() ==> #[trigger] from[k1] < #[trigger] from[k2],
            forall|q: int|
                0 <= q < t && selectable(gs[order@[q] as int]@) ==> exists|k: int|
                    0 <= k < out@.len() && #[trigger] from[k] == q,
        decreases order@.len() - t,
    {
        let g = order[t];
        assert(g < gs.len());
        assert(group_rank(gs[order@[t as int] as int]@) is Some);
        let ghost old_out = out@;
        let ghost old_from = from;
        match select_best_entry(groups[g].as_slice()) {
            Ok(choice) => {
                proof {
                    assert(selectable(gs[g as int]@));
                }
                out.push(GroupChoice { group: g, entry: choice });
                proof {
                    from = from.push(t as int);
                    assert(from[from.len() - 1] == t);
                    assert forall|k: int| 0 <= k < old_out.len() implies out@[k] == old_out[k]
                        && from[k] == old_from[k] by {}
                    assert forall|q: int|
                        0 <= q < t + 1 && selectable(gs[order@[q] as int]@) implies exists|k: int|
                        0 <= k < out@.len() && #[trigger] from[k] == q by {
                        if q == t {
                            assert(from[old_out.len() as int] == q);
                        } else {
                            let k = choose|k: int| 0 <= k < old_out.len() && #[trigger] old_from[k] == q;
                            assert(from[k] == q);
                        }
                    }
                }
            },
            Err(_) => {
                assert(!selectable(gs[g as int]@));
            },
        }
        t = t + 1;
    }
    proof {
        assert forall|k: int| 0 <= k < out@.len() implies (#[trigger] out@[k]).group < gs.len()
            && group_rank(gs[out@[k].group as int]@) is Some && selectable(
            gs[out@[k].group as int]@,
        ) && is_choice_for(gs[out@[k].group as int]@, out@[k].entry) by {
            assert(0 <= from[k]);
        }
        assert forall|k1: int, k2: int| 0 <= k1 < k2 < out@.len() implies comes_before(
            gs,
            (#[trigger] out@[k1]).group as int,
            (#[trigger] out@[k2]).group as int,
        ) by {
            assert(from[k1] < from[k2]);
            assert(comes_before(gs, order@[from[k1]] as int, order@[from[k2]] as int));
        }
        assert forall|i: int|
            0 <= i < gs.len() && (#[trigger] group_rank(gs[i]@)) is Some && selectable(gs[i]@) implies exists|
            k: int,
        | 0 <= k < out@.len() && out@[k].group == i by {
            assert(order@.contains(i as usize));
            assert(i < glen);
            let q = choose|q: int| 0 <= q < order@.len() && order@[q] == i as usize;
            assert(order@[q] as int == i);
            assert(selectable(gs[order@[q] as int]@));
            let k = choose|k: int| 0 <= k < out@.len() && #[trigger] from[k] == q;
            assert(out@[k].group == order@[from[k]]);
            assert(out@[k].group == i);
        }
    }
    out
}

} // verus!
