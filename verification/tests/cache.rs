//! Caches.

use qwen3_rs::inference::cache::{fill, overwrite, push_ring, repeat, tap};

#[test]
fn lists_are_filled_and_overwritten() {
    let mut numbers = repeat(7u8, 5);
    assert_eq!(numbers, vec![7; 5]);
    overwrite(&mut numbers, 3, &[1, 2]);
    assert_eq!(numbers, vec![7, 7, 7, 1, 2]);
    overwrite(&mut numbers, 5, &[]);
    assert_eq!(numbers, vec![7, 7, 7, 1, 2]);
    fill(&mut numbers, 0);
    assert_eq!(numbers, vec![0; 5]);
}

#[test]
fn convolution_sees_inputs_in_order() {
    let kernel = 3;
    let stride = 2;
    let mut ring = repeat(0u32, stride * kernel);
    for pos in 0..7usize {
        let row = [10 * (pos as u32 + 1), 10 * (pos as u32 + 1) + 1];
        push_ring(&mut ring, kernel, pos, &row);
        for ch in 0..stride {
            let seen: Vec<u32> = (0..kernel).map(|t| tap(&ring, kernel, stride, pos, t, ch)).collect();
            let expected: Vec<u32> = (0..kernel)
                .map(|t| if pos + t + 1 >= kernel { 10 * (pos + t + 1 - kernel + 1) as u32 + ch as u32 } else { 0 })
                .collect();
            assert_eq!(seen, expected);
        }
    }
}

#[test]
fn convolution_of_one_tap_sees_the_last_input() {
    let mut ring = repeat(0u32, 1);
    push_ring(&mut ring, 1, 5, &[9]);
    assert_eq!(tap(&ring, 1, 1, 5, 0, 0), 9);
}
