use voy_search::vector::{has_fixed_width, normalize, DIMENSION};

#[test]
fn normalize_pads_a_short_vector_with_zeros() {
    let fixed = normalize(&vec![1.0f32.to_bits(), 2.0f32.to_bits(), 3.0f32.to_bits()]);

    assert_eq!(fixed.len(), 768);
    assert_eq!(fixed[0], 0x3f80_0000);
    assert_eq!(fixed[1], 0x4000_0000);
    assert_eq!(fixed[2], 0x4040_0000);
    assert!(fixed[3..].iter().all(|pattern| *pattern == 0));
    assert_eq!(f32::from_bits(fixed[767]), 0.0);
}

#[test]
fn normalize_cuts_a_long_vector_behind_the_width() {
    let long: Vec<u32> = (0..770u32).collect();
    let fixed = normalize(&long);

    assert_eq!(fixed.len(), 768);
    assert_eq!(fixed, (0..768u32).collect::<Vec<u32>>());
}

#[test]
fn normalize_keeps_a_vector_of_the_width() {
    let exact: Vec<u32> = (0..768u32).map(|i| i * 7).collect();

    assert_eq!(normalize(&exact), exact);
}

#[test]
fn normalize_of_nothing_is_all_zeros() {
    assert_eq!(normalize(&Vec::new()), vec![0u32; 768]);
}

#[test]
fn normalize_gives_the_same_vector_each_time() {
    let v = vec![0x3f80_0000, 0xbf80_0000, 0x7fc0_0000];

    assert_eq!(normalize(&v), normalize(&v));
    assert_eq!(normalize(&normalize(&v)), normalize(&v));
}

#[test]
fn the_width_is_told_exactly() {
    assert_eq!(DIMENSION, 768);
    assert!(has_fixed_width(&vec![0u32; 768]));
    assert!(!has_fixed_width(&vec![0u32; 767]));
    assert!(!has_fixed_width(&vec![0u32; 769]));
    assert!(!has_fixed_width(&Vec::new()));
}
