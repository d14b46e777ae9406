use icon_engine::icon_group::{
    analyze_icon_group, order_icon_groups, plan_group_candidates, parse_group_dir, parse_group_entry, rank_icon_group,
    score_icon_group, select_best_entry, GroupRank,
};
use icon_engine::types::ExtractError;

/// (width, height, bit count, icon id); a side of 0 stands for 256.
fn group(entries: &[(u8, u8, u16, u16)]) -> Vec<u8> {
    let mut v = vec![0u8, 0, 1, 0];
    v.extend_from_slice(&(entries.len() as u16).to_le_bytes());
    for &(w, h, bits, id) in entries {
        v.extend_from_slice(&[w, h, 0, 0]);
        v.extend_from_slice(&1u16.to_le_bytes());
        v.extend_from_slice(&bits.to_le_bytes());
        v.extend_from_slice(&1234u32.to_le_bytes());
        v.extend_from_slice(&id.to_le_bytes());
    }
    v
}

#[test]
fn largest_entry_is_selected() {
    let data = group(&[(16, 16, 8, 1), (32, 32, 32, 2), (0, 0, 32, 3)]);
    let c = select_best_entry(&data).unwrap();
    assert_eq!(c.index, 2);
    assert_eq!(c.icon_id, 3);
    assert_eq!((c.width, c.height), (256, 256));
}

#[test]
fn equal_area_prefers_more_bits_then_first() {
    let data = group(&[(48, 48, 8, 1), (48, 48, 32, 2), (48, 48, 32, 3)]);
    let c = select_best_entry(&data).unwrap();
    assert_eq!(c.icon_id, 2);
}

#[test]
fn entry_selection_errors() {
    assert_eq!(select_best_entry(&[0, 0, 1]).unwrap_err(), ExtractError::TooShort);
    assert_eq!(select_best_entry(&group(&[])).unwrap_err(), ExtractError::EmptyGroup);
    let mut data = group(&[(16, 16, 8, 1), (32, 32, 8, 2)]);
    data.truncate(data.len() - 1);
    assert_eq!(select_best_entry(&data).unwrap_err(), ExtractError::TooShort);
}

#[test]
fn directory_fields_are_read_little_endian() {
    let data = group(&[(0, 48, 32, 0x0102)]);
    let dir = parse_group_dir(&data).unwrap();
    assert_eq!((dir.reserved, dir.resource_type, dir.icon_count), (0, 1, 1));
    let e = parse_group_entry(&data, 0);
    assert_eq!((e.width, e.height, e.bit_count, e.planes), (0, 48, 32, 1));
    assert_eq!((e.bytes_in_res, e.icon_id), (1234, 0x0102));
    assert!(parse_group_dir(&[1, 2]).is_none());
}

#[test]
fn analyze_reports_max_size_and_count() {
    let data = group(&[(16, 16, 8, 1), (0, 0, 32, 2), (48, 64, 32, 3)]);
    assert_eq!(analyze_icon_group(&data).unwrap(), (256, 3));
    assert_eq!(analyze_icon_group(&[0, 0]).unwrap_err(), ExtractError::TooShort);
    let mut other = group(&[(16, 16, 8, 1)]);
    other[2] = 2;
    assert_eq!(analyze_icon_group(&other).unwrap_err(), ExtractError::BadHeader);
}

#[test]
fn score_follows_the_formula() {
    // 256 (+1000), one distinct size (+20), one deep entry (+5), 2*256, one entry.
    assert_eq!(score_icon_group(&group(&[(0, 0, 32, 1)])), 1538);
    // 48, 32, 16 present (+90), three sizes (+60), two deep (+10), 2*48, three entries.
    let data = group(&[(16, 16, 8, 1), (32, 32, 32, 2), (48, 48, 32, 3)]);
    assert_eq!(score_icon_group(&data), 90 + 60 + 10 + 96 + 3);
    // repeated sizes count once among the distinct sizes.
    let data = group(&[(32, 32, 8, 1), (32, 32, 32, 2)]);
    assert_eq!(score_icon_group(&data), 30 + 20 + 5 + 64 + 2);
    assert_eq!(score_icon_group(&group(&[])), 0);
    assert_eq!(score_icon_group(&[1]), 0);
}

#[test]
fn large_deep_group_outranks_many_small_entries() {
    let big = group(&[(0, 0, 32, 1)]);
    let small: Vec<(u8, u8, u16, u16)> = (0..40).map(|i| (48, 48, 32, i as u16)).collect();
    let small = group(&small);
    assert_eq!(score_icon_group(&small), 50 + 20 + 5 * 40 + 96 + 40);
    let order = order_icon_groups(&vec![small, big]);
    assert_eq!(order, vec![1, 0]);
}

#[test]
fn ordering_skips_non_groups_and_keeps_ties_in_order() {
    let a = group(&[(32, 32, 32, 1)]);
    let b = group(&[(32, 32, 32, 2)]);
    let c = group(&[(0, 0, 32, 3)]);
    let not_group = vec![1u8, 2, 3];
    let order = order_icon_groups(&vec![a.clone(), not_group, b, c]);
    assert_eq!(order, vec![3, 0, 2]);
    let r = rank_icon_group(&a).unwrap();
    assert_eq!(r, GroupRank { score: 30 + 20 + 5 + 64 + 1, max_size: 32, icon_count: 1 });
    assert!(rank_icon_group(&[1, 2, 3]).is_none());
}

#[test]
fn candidates_follow_rank_and_skip_unusable_groups() {
    let small = group(&[(16, 16, 8, 1), (32, 32, 32, 2)]);
    let big = group(&[(48, 48, 32, 3), (0, 0, 32, 4)]);
    let mut truncated = group(&[(0, 0, 32, 5), (0, 0, 32, 6)]);
    truncated.truncate(truncated.len() - 14);
    let mut not_icons = group(&[(0, 0, 32, 7)]);
    not_icons[2] = 3;
    let c = plan_group_candidates(&vec![not_icons, small, truncated, big]);
    let picked: Vec<(usize, u16)> = c.iter().map(|g| (g.group, g.entry.icon_id)).collect();
    assert_eq!(picked, vec![(3, 4), (1, 2)]);
}
