use qs_ui::fenwick::{Fenwick, Heights};
use std::sync::Arc;

fn reference_offsets(heights: &[u32]) -> Vec<u64> {
    let mut out = vec![0u64];
    for &h in heights {
        let last = *out.last().unwrap_or(&0);
        out.push(last + u64::from(h));
    }
    out
}

#[test]
fn an_empty_tree_is_usable() {
    let tree = Fenwick::from_heights(&[]);
    assert!(tree.is_empty());
    assert_eq!(tree.total(), 0);
    assert_eq!(tree.index_at(0), (0, 0));
    assert_eq!(tree.height_of(0), 0);
}

#[test]
fn offsets_match_a_naive_prefix_sum() {
    let heights: Vec<u32> = (0..1000).map(|i| 20 + (i % 13) as u32).collect();
    let tree = Fenwick::from_heights(&heights);
    let reference = reference_offsets(&heights);
    for (i, &expected) in reference.iter().enumerate() {
        assert_eq!(tree.offset_of(i), expected, "offset_of({i})");
    }
    assert_eq!(tree.total(), *reference.last().unwrap());
}

#[test]
fn heights_round_trip() {
    let heights: Vec<u32> = (0..500).map(|i| 1 + (i * 7 % 40) as u32).collect();
    let tree = Fenwick::from_heights(&heights);
    for (i, &expected) in heights.iter().enumerate() {
        assert_eq!(tree.height_of(i), expected, "height_of({i})");
    }
}

#[test]
fn index_at_inverts_offset_of() {
    let heights: Vec<u32> = (0..777).map(|i| 18 + (i % 11) as u32).collect();
    let tree = Fenwick::from_heights(&heights);
    for (i, &height) in heights.iter().enumerate() {
        let top = tree.offset_of(i);
        assert_eq!(tree.index_at(top), (i, 0), "top edge of row {i}");
        let middle = top + u64::from(height) / 2;
        let (index, within) = tree.index_at(middle);
        assert_eq!(index, i);
        assert_eq!(within, middle - top);
    }
}

#[test]
fn an_offset_past_the_end_clamps_to_the_last_row() {
    let tree = Fenwick::from_heights(&[10, 10, 10]);
    let (index, _) = tree.index_at(999_999);
    assert_eq!(index, 2, "past the end must clamp, not wrap or panic");
}

#[test]
fn a_million_rows_stays_exact() {
    let heights = vec![28u32; 1_000_000];
    let tree = Fenwick::from_heights(&heights);
    assert_eq!(tree.total(), 28_000_000);
    assert_eq!(tree.offset_of(999_999), 27_999_972);
    assert_eq!(tree.index_at(27_999_972), (999_999, 0));
    assert_eq!(tree.index_at(27_999_999), (999_999, 27));
}

#[test]
fn the_uniform_fast_path_agrees_with_the_tree() {
    let row_count = 5000u64;
    let height = 28u32;
    let uniform = Heights::Uniform(height);
    let variable = Heights::Variable(Arc::new(Fenwick::from_heights(&vec![
        height;
        row_count as usize
    ])));
    assert_eq!(uniform.total(row_count), variable.total(row_count));
    for index in [0u64, 1, 42, 2499, row_count - 1] {
        assert_eq!(uniform.offset_of(index), variable.offset_of(index));
        assert_eq!(uniform.height_of(index), variable.height_of(index));
    }
    for offset in [0u64, 27, 28, 29, 1000, 139_999] {
        assert_eq!(
            uniform.index_at(offset, row_count),
            variable.index_at(offset, row_count),
            "offset {offset}"
        );
    }
}

#[test]
fn a_zero_height_row_does_not_divide_by_zero() {
    let uniform = Heights::Uniform(0);
    assert_eq!(uniform.index_at(100, 10), (9, 100 - 9));
}

#[test]
fn power_of_two_and_off_by_one_lengths_are_all_correct() {
    for len in [
        1usize, 2, 3, 4, 5, 7, 8, 9, 15, 16, 17, 31, 32, 33, 63, 64, 65,
    ] {
        let heights: Vec<u32> = (0..len).map(|i| (i as u32 % 5) + 1).collect();
        let tree = Fenwick::from_heights(&heights);
        let reference = reference_offsets(&heights);
        for (i, &expected) in reference.iter().enumerate() {
            assert_eq!(tree.offset_of(i), expected, "len {len}, offset_of({i})");
        }
        for (i, &offset) in reference.iter().take(len).enumerate() {
            assert_eq!(tree.index_at(offset), (i, 0), "len {len}, row {i}");
        }
    }
}

#[test]
fn a_tree_knows_its_shortest_row_and_its_length() {
    let tree = Fenwick::from_heights(&[30, 18, 42]);
    assert_eq!(tree.min_height(), 18);
    assert_eq!(tree.len(), 3);
    assert_eq!(Heights::Uniform(28).min_height(), 28);
}

#[test]
fn the_shortest_row_counts_as_a_pixel_where_it_has_no_height() {
    assert_eq!(Fenwick::from_heights(&[]).min_height(), 1);
    assert_eq!(Fenwick::from_heights(&[30, 0, 40]).min_height(), 1);
    assert_eq!(Fenwick::from_heights(&[30, 18, 40]).min_height(), 18);
}
