use membase::utils::alignment::{
    align_down, align_up, cache_line_size, get_alignment, is_aligned, is_power_of_two,
};

#[test]
fn align_up_rounds_to_next_multiple() {
    assert_eq!(align_up(4097, 4096), 8192);
    assert_eq!(align_up(4096, 4096), 4096);
    assert_eq!(align_up(0, 4096), 0);
    assert_eq!(align_up(1, 1), 1);
    assert_eq!(align_up(13, 8), 16);
}

#[test]
fn align_down_rounds_to_previous_multiple() {
    assert_eq!(align_down(4097, 4096), 4096);
    assert_eq!(align_down(4095, 4096), 0);
    assert_eq!(align_down(8192, 4096), 8192);
    assert_eq!(align_down(13, 8), 8);
}

#[test]
fn is_aligned_tests_multiples() {
    assert!(is_aligned(0x1000, 0x1000));
    assert!(!is_aligned(0x1001, 0x1000));
    assert!(is_aligned(0, 64));
    assert!(is_aligned(7, 1));
}

#[test]
fn align_up_properties_on_a_range() {
    let aligns: [usize; 5] = [1, 2, 8, 64, 4096];
    for a in aligns {
        for x in 0..10_000usize {
            let up = align_up(x, a);
            assert_eq!(up % a, 0);
            assert!(up >= x);
            assert!(up - x < a);
            assert_eq!(align_up(up, a), up);
        }
    }
}

#[test]
fn align_up_at_the_top_of_the_range() {
    let a: usize = 4096;
    let x: usize = usize::MAX - (a - 1);
    assert_eq!(align_up(x, a), x);
}

#[test]
fn power_of_two_is_recognised() {
    assert!(is_power_of_two(1));
    assert!(is_power_of_two(2));
    assert!(is_power_of_two(4096));
    assert!(is_power_of_two(1usize << (usize::BITS - 1)));
    assert!(!is_power_of_two(0));
    assert!(!is_power_of_two(3));
    assert!(!is_power_of_two(4097));
    assert!(!is_power_of_two(usize::MAX));
}

#[test]
fn alignment_of_an_address_is_its_lowest_set_bit() {
    assert_eq!(get_alignment(0), 0);
    assert_eq!(get_alignment(1), 1);
    assert_eq!(get_alignment(0x1000), 0x1000);
    assert_eq!(get_alignment(0x1008), 8);
    assert_eq!(get_alignment(12), 4);
    assert_eq!(get_alignment(usize::MAX), 1);
    assert_eq!(get_alignment(1usize << (usize::BITS - 1)), 1usize << (usize::BITS - 1));
}

#[test]
fn cache_line_is_64_bytes() {
    assert_eq!(cache_line_size(), 64);
}
