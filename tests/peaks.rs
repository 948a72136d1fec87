use wasm_audio::{choose_peak, detect_peaks, key_maximum, order_key, threshold_key, value_key, value_keys};

fn keys(values: &[f32]) -> Vec<i64> {
    let bits: Vec<u32> = values.iter().map(|v| v.to_bits()).collect();
    value_keys(&bits)
}

fn key(v: f32) -> i64 {
    order_key(v.to_bits())
}

#[test]
fn single_interior_peak() {
    let data = keys(&[1.0, 2.0, -1.0, -2.0, 3.0, 4.0, 1.0, -5.0]);
    assert_eq!(detect_peaks(&data), vec![(5, key(4.0))]);
}

#[test]
fn peak_of_integer_sequence() {
    let data: Vec<i64> = vec![1, 2, -1, -2, 3, 4, 1, -5];
    assert_eq!(detect_peaks(&data), vec![(5, 4)]);
}

#[test]
fn empty_input_has_no_peaks() {
    assert_eq!(detect_peaks(&[]), vec![]);
}

#[test]
fn all_positive_has_no_peaks() {
    assert_eq!(detect_peaks(&[1, 5, 3, 2]), vec![]);
}

#[test]
fn all_negative_has_no_peaks() {
    assert_eq!(detect_peaks(&[-1, -5, -3]), vec![]);
}

#[test]
fn terminal_run_gives_no_peak() {
    assert_eq!(detect_peaks(&[-1, 3, -2, 4, 7]), vec![(1, 3)]);
}

#[test]
fn several_peaks_in_order() {
    let data: Vec<i64> = vec![5, -1, 2, 8, 3, -4, -4, 6, -1, 0, 9, 9, 1, -3, 2];
    assert_eq!(detect_peaks(&data), vec![(3, 8), (7, 6), (10, 9)]);
}

#[test]
fn zero_is_not_positive() {
    let data = keys(&[-1.0, 0.0, 0.0, -1.0, -0.0, 2.0, -0.0]);
    assert_eq!(detect_peaks(&data), vec![(5, key(2.0))]);
}

#[test]
fn zero_separates_runs() {
    let data = keys(&[-1.0, 2.0, 0.0, 3.0, -1.0]);
    assert_eq!(detect_peaks(&data), vec![(1, key(2.0)), (3, key(3.0))]);
}

#[test]
fn lone_zero_is_no_peak() {
    assert_eq!(detect_peaks(&keys(&[-1.0, 0.0, -1.0])), vec![]);
    assert_eq!(detect_peaks(&[0, 0, 0]), vec![]);
}

#[test]
fn nan_separates_runs() {
    let data = keys(&[-1.0, 2.0, f32::NAN, 3.0, -f32::NAN, 1.0, -1.0]);
    assert_eq!(detect_peaks(&data), vec![(1, key(2.0)), (3, key(3.0)), (5, key(1.0))]);
}

#[test]
fn nan_keys() {
    assert_eq!(value_key(f32::NAN.to_bits()), i64::MIN);
    assert_eq!(value_key((-f32::NAN).to_bits()), i64::MIN);
    assert_eq!(threshold_key(f32::NAN.to_bits()), i64::MAX);
    assert_eq!(value_key(f32::INFINITY.to_bits()), 0x7f80_0000);
    assert_eq!(threshold_key(0.6f32.to_bits()), key(0.6));
    assert_eq!(choose_peak(vec![(2, key(0.9))], threshold_key(f32::NAN.to_bits()), key(0.6)), None);
}

#[test]
fn equal_values_give_first_index() {
    assert_eq!(detect_peaks(&[-1, 4, 4, 2, -1]), vec![(1, 4)]);
}

#[test]
fn negative_zero_key_is_negative() {
    assert_eq!(order_key(0.0f32.to_bits()), 0);
    assert_eq!(order_key((-0.0f32).to_bits()), -1);
    assert_eq!(order_key(1.0f32.to_bits()), 0x3f80_0000);
    assert_eq!(order_key((-1.0f32).to_bits()), -0x3f80_0000 - 1);
}

#[test]
fn keys_order_as_values() {
    let values = [f32::NEG_INFINITY, -3.5, -1.0, -1e-30, -0.0, 0.0, 1e-30, 0.6, 0.95, 1.0, 7.25, f32::INFINITY];
    let k = keys(&values);
    for i in 1..k.len() {
        assert!(k[i - 1] < k[i]);
    }
}

#[test]
fn choose_first_peak_above_both_thresholds() {
    let peaks = vec![(2, 50), (4, 90), (9, 95), (12, 99)];
    assert_eq!(choose_peak(peaks.clone(), 85, 60), Some((4, 90)));
    assert_eq!(choose_peak(peaks.clone(), 40, 60), Some((4, 90)));
    assert_eq!(choose_peak(peaks.clone(), 40, 10), Some((2, 50)));
    assert_eq!(choose_peak(peaks, 99, 60), None);
}

#[test]
fn choose_is_strict() {
    assert_eq!(choose_peak(vec![(3, 60), (5, 70)], 60, 60), Some((5, 70)));
    assert_eq!(choose_peak(vec![], 0, 0), None);
}

#[test]
fn choose_with_float_thresholds() {
    let nsdf = [0.7f32, 0.93, 0.97];
    let peaks = vec![(3, key(nsdf[0])), (7, key(nsdf[1])), (11, key(nsdf[2]))];
    let top = key_maximum(&peaks).unwrap();
    assert_eq!(top, (11, key(0.97)));
    let thresh = 0.97f32 * 0.95;
    assert_eq!(choose_peak(peaks, key(thresh), key(0.6)), Some((7, key(0.93))));
}

#[test]
fn raising_pick_threshold_only_tightens() {
    let peaks = vec![(3, key(0.7)), (7, key(0.9)), (11, key(0.97))];
    let mut last_index = 0;
    for pick in [0.5f32, 0.8, 0.95, 0.99, 1.0] {
        let r = choose_peak(peaks.clone(), key(0.97 * pick), key(0.6));
        match r {
            Some(p) => {
                assert!(p.0 >= last_index);
                last_index = p.0;
            }
            None => assert_eq!(pick, 1.0),
        }
    }
    assert_eq!(choose_peak(peaks.clone(), key(0.97 * 0.5), key(0.6)), Some((3, key(0.7))));
    assert_eq!(choose_peak(peaks, key(0.97 * 0.99), key(0.6)), Some((11, key(0.97))));
}

#[test]
fn key_maximum_takes_last_of_equal() {
    assert_eq!(key_maximum(&vec![(1, 5), (3, 9), (6, 9), (8, 2)]), Some((6, 9)));
    assert_eq!(key_maximum(&vec![(4, -3)]), Some((4, -3)));
    assert_eq!(key_maximum(&vec![]), None);
}

#[test]
fn value_keys_empty() {
    assert_eq!(value_keys(&[]), Vec::<i64>::new());
}
