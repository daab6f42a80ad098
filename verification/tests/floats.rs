use hwgauge::units::{format_size, nearest_float_of};

const TIB: u64 = 1 << 40;

fn samples() -> Vec<u64> {
    let mut all = vec![0, 1, (1 << 53) - 1, 1 << 53, (1 << 53) + 1, (1 << 53) + 2, (1 << 53) + 3];
    for shift in 53..64 {
        let base = 1u64 << shift;
        let step = 1u64 << (shift - 52);
        for k in [0, 1, 2, 3, 5, 1 << 20, (1 << 52) - 2, (1 << 52) - 1] {
            let multiple = base + k * step;
            for offset in [0, 1, step / 2 - 1, step / 2, step / 2 + 1, step - 1] {
                all.push(multiple.wrapping_add(offset).max(1));
            }
        }
    }
    all.push(u64::MAX - 1024);
    all.push(u64::MAX - 1023);
    all.push(u64::MAX);
    all
}

#[test]
fn nearest_float_agrees_with_the_conversion() {
    for n in samples() {
        assert_eq!(nearest_float_of(n), (n as f64) as u128, "{}", n);
    }
    assert_eq!(nearest_float_of(u64::MAX), 1u128 << 64);
    assert_eq!(nearest_float_of((1 << 53) + 1), 1 << 53);
    assert_eq!(nearest_float_of((1 << 53) + 3), (1 << 53) + 4);
}

#[test]
fn large_sizes_are_rounded_as_floating_point_numbers() {
    for n in samples() {
        if n >= 100 * TIB {
            let expected = format!("{}T", (n as f64 / TIB as f64).round());
            assert_eq!(format_size(n), expected, "{}", n);
        }
    }
    assert_eq!(format_size(8192 * TIB + TIB / 2 - 1), "8193T");
    assert_eq!(format_size(8191 * TIB + TIB / 2 - 1), "8191T");
    assert_eq!(format_size(8191 * TIB + TIB / 2), "8192T");
}
