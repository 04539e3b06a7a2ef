use atom_cloud::depth::{depth_key, depth_order, reorder, sort_by_depth};

fn bits(values: &[f32]) -> Vec<u32> {
    values.iter().map(|v| v.to_bits()).collect()
}

#[test]
fn depth_key_exact_values() {
    assert_eq!(depth_key(0.0f32.to_bits()), 0);
    assert_eq!(depth_key((-0.0f32).to_bits()), -1);
    assert_eq!(depth_key(1.0f32.to_bits()), 0x3f80_0000);
    assert_eq!(depth_key((-1.0f32).to_bits()), -0x3f80_0001);
    assert_eq!(depth_key(0x7fff_ffff), i32::MAX);
    assert_eq!(depth_key(0xffff_ffff), i32::MIN);
}

#[test]
fn depth_key_follows_total_order() {
    let values = [
        f32::NEG_INFINITY,
        -3.5,
        -1.0,
        -f32::MIN_POSITIVE,
        -0.0,
        0.0,
        f32::MIN_POSITIVE,
        0.25,
        1.0,
        f32::MAX,
        f32::INFINITY,
        f32::NAN,
        -f32::NAN,
    ];
    for a in values {
        for b in values {
            assert_eq!(
                depth_key(a.to_bits()).cmp(&depth_key(b.to_bits())),
                a.total_cmp(&b),
                "{} vs {}",
                a,
                b
            );
        }
    }
}

#[test]
fn depth_order_sorts_ascending() {
    assert_eq!(depth_order(&bits(&[3.0, 1.0, 2.0])), vec![1, 2, 0]);
    assert_eq!(depth_order(&bits(&[0.5, -0.5, 0.0, -0.0])), vec![1, 3, 2, 0]);
}

#[test]
fn depth_order_keeps_ties_in_place() {
    assert_eq!(depth_order(&bits(&[1.0, 0.5, 1.0, 0.5])), vec![1, 3, 0, 2]);
    assert_eq!(depth_order(&bits(&[2.0, 2.0, 2.0])), vec![0, 1, 2]);
}

#[test]
fn depth_order_empty_and_single() {
    assert_eq!(depth_order(&Vec::new()), Vec::<usize>::new());
    assert_eq!(depth_order(&bits(&[0.75])), vec![0]);
}

#[test]
fn depth_order_adjacent_depths_non_decreasing() {
    let mut state: u32 = 12345;
    let mut depths = Vec::new();
    for _ in 0..200 {
        state = state.wrapping_mul(1_103_515_245).wrapping_add(12345);
        let z = (state >> 8) as f32 / (1u32 << 24) as f32 * 2.0 - 1.0;
        depths.push(z);
    }
    depths.push(depths[3]);
    depths.push(depths[10]);
    let order = depth_order(&bits(&depths));
    assert_eq!(order.len(), depths.len());
    let mut seen = vec![false; depths.len()];
    for &i in &order {
        assert!(!seen[i]);
        seen[i] = true;
    }
    for w in order.windows(2) {
        assert!(depths[w[0]] <= depths[w[1]]);
        if depths[w[0]] == depths[w[1]] {
            assert!(w[0] < w[1]);
        }
    }
}

#[test]
fn depth_order_is_deterministic() {
    let depths = bits(&[0.3, -0.7, 0.3, 0.9, -0.7, 0.0, 0.1]);
    let first = depth_order(&depths);
    let second = depth_order(&depths.clone());
    assert_eq!(first, second);
    assert_eq!(first, vec![1, 4, 5, 6, 0, 2, 3]);
}

#[test]
fn reorder_picks_items_by_index() {
    let items = vec!['a', 'b', 'c'];
    assert_eq!(reorder(&items, &vec![2, 0, 1]), vec!['c', 'a', 'b']);
    assert_eq!(reorder(&items, &vec![1, 1]), vec!['b', 'b']);
    assert_eq!(reorder(&items, &Vec::new()), Vec::<char>::new());
}

#[test]
fn sort_by_depth_orders_items() {
    let items = vec![(10, 'x'), (20, 'y'), (30, 'z'), (40, 'w')];
    let depths = bits(&[0.2, -0.4, 0.2, 0.0]);
    assert_eq!(
        sort_by_depth(&items, &depths),
        vec![(20, 'y'), (40, 'w'), (10, 'x'), (30, 'z')]
    );
}

#[test]
fn sort_by_depth_single_item_unchanged() {
    let items = vec![[0.5f32, -0.25, 0.125]];
    let depths = bits(&[0.125]);
    assert_eq!(sort_by_depth(&items, &depths), items);
}
