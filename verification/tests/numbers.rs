use record_engine::decimal::{
    digit_text, hundredths_of, integer_to_text, magnitude_of, push_integer, push_natural,
    push_quantity, push_two_decimals, push_two_digits, quantity_to_text, UNITS_PER_ONE,
};
use record_engine::lexical::{place, same_text, Placement};
use record_engine::sample::{
    floor_quotient, greatest_of, least_of, mean_of, rank_of, sorted_copy, sum_of,
};

#[test]
fn quantities_read_as_shortest_decimals() {
    assert_eq!(UNITS_PER_ONE, 1000);
    assert_eq!(quantity_to_text(1500), "1.5");
    assert_eq!(quantity_to_text(-10_000), "-10");
    assert_eq!(quantity_to_text(20), "0.02");
    assert_eq!(quantity_to_text(0), "0");
    assert_eq!(quantity_to_text(-1), "-0.001");
    assert_eq!(quantity_to_text(100), "0.1");
    assert_eq!(quantity_to_text(1_230), "1.23");
    assert_eq!(quantity_to_text(1_203), "1.203");
    assert_eq!(quantity_to_text(450_000), "450");
    assert_eq!(quantity_to_text(i64::MAX), "9223372036854775.807");
    assert_eq!(quantity_to_text(i64::MIN), "-9223372036854775.808");
    assert_eq!(format!("{}", -10.0_f64), quantity_to_text(-10_000));
    assert_eq!(format!("{}", 12.5_f64), quantity_to_text(12_500));
}

#[test]
fn integers_read_as_decimals() {
    assert_eq!(integer_to_text(0), "0");
    assert_eq!(integer_to_text(7), "7");
    assert_eq!(integer_to_text(-42), "-42");
    assert_eq!(integer_to_text(1_000_000), "1000000");
    assert_eq!(integer_to_text(i64::MAX), i64::MAX.to_string());
    assert_eq!(integer_to_text(i64::MIN), i64::MIN.to_string());
    assert_eq!(magnitude_of(i64::MIN), 9_223_372_036_854_775_808);
    assert_eq!(magnitude_of(-3), 3);
    assert_eq!(magnitude_of(3), 3);
    assert_eq!(digit_text(0), "0");
    assert_eq!(digit_text(9), "9");
}

#[test]
fn pushing_appends_to_what_is_there() {
    let mut s = "n=".to_string();
    push_natural(&mut s, 1203);
    assert_eq!(s, "n=1203");
    push_integer(&mut s, -5);
    assert_eq!(s, "n=1203-5");
    let mut t = "T".to_string();
    push_two_digits(&mut t, 7);
    push_two_digits(&mut t, 59);
    push_two_digits(&mut t, 0);
    push_two_digits(&mut t, 123);
    assert_eq!(t, "T075900123");
    let mut q = "q:".to_string();
    push_quantity(&mut q, 2_050);
    assert_eq!(q, "q:2.05");
    assert_eq!(u64::MAX.to_string(), {
        let mut m = String::new();
        push_natural(&mut m, u64::MAX);
        m
    });
}

#[test]
fn two_decimals_round_ties_to_even() {
    let text = |units: i64| {
        let mut s = String::new();
        push_two_decimals(&mut s, units);
        s
    };
    assert_eq!(text(1_500), "1.50");
    assert_eq!(text(125), "0.12");
    assert_eq!(text(135), "0.14");
    assert_eq!(text(126), "0.13");
    assert_eq!(text(124), "0.12");
    assert_eq!(text(0), "0.00");
    assert_eq!(text(995), "1.00");
    assert_eq!(text(99_995), "100.00");
    assert_eq!(text(-1_234), "-1.23");
    assert_eq!(text(-4), "-0.00");
    assert_eq!(text(12_000), "12.00");
    assert_eq!(hundredths_of(125), 12);
    assert_eq!(hundredths_of(-135), 14);
    assert_eq!(hundredths_of(i64::MIN), 922_337_203_685_477_581);
    assert_eq!(format!("{:.2}", 0.125_f64), text(125));
    assert_eq!(format!("{:.2}", 2.5_f64), text(2_500));
}

#[test]
fn texts_compare_as_str_does() {
    let samples = ["", "a", "A", "ab", "abc", "b", "é", "e", "z", "日本", "~", "a\u{10FFFF}", "a\u{7f}"];
    for x in samples.iter() {
        for y in samples.iter() {
            let expected = if x < y {
                Placement::Before
            } else if x == y {
                Placement::Same
            } else {
                Placement::After
            };
            assert_eq!(place(x, y), expected, "{:?} against {:?}", x, y);
            assert_eq!(same_text(x, y), x == y);
        }
    }
    assert_eq!(place("alpha", "alphabet"), Placement::Before);
    assert_eq!(place("beta", "alpha"), Placement::After);
}

#[test]
fn sample_statistics_have_exact_values() {
    let v: Vec<i64> = vec![5, -3, 9, 0, 9, -3, 2];
    assert_eq!(sum_of(&v), 19);
    assert_eq!(mean_of(&v), 2);
    assert_eq!(least_of(&v), -3);
    assert_eq!(greatest_of(&v), 9);
    assert_eq!(sorted_copy(&v), vec![-3, -3, 0, 2, 5, 9, 9]);
    let empty: Vec<i64> = Vec::new();
    assert_eq!(sum_of(&empty), 0);
    assert_eq!(mean_of(&empty), 0);
    assert_eq!(least_of(&empty), 0);
    assert_eq!(greatest_of(&empty), 0);
    assert!(sorted_copy(&empty).is_empty());
    assert_eq!(mean_of(&vec![-1, 0]), -1);
    assert_eq!(mean_of(&vec![-7, -8]), -8);
    assert_eq!(mean_of(&vec![i64::MIN, i64::MIN]), i64::MIN);
    assert_eq!(mean_of(&vec![i64::MAX, i64::MAX, i64::MAX]), i64::MAX);
    assert_eq!(sum_of(&vec![i64::MIN, i64::MIN]), 2 * (i64::MIN as i128));
}

#[test]
fn sorting_matches_the_standard_sort() {
    let mut seed: u64 = 0x2545F4914F6CDD1D;
    for n in [1usize, 2, 3, 7, 8, 64, 257, 1000] {
        let mut v: Vec<i64> = Vec::new();
        for _ in 0..n {
            seed ^= seed << 13;
            seed ^= seed >> 7;
            seed ^= seed << 17;
            v.push((seed % 2001) as i64 - 1000);
        }
        let mut expected = v.clone();
        expected.sort();
        assert_eq!(sorted_copy(&v), expected);
    }
    assert_eq!(sorted_copy(&vec![3, 2, 1]), vec![1, 2, 3]);
    assert_eq!(sorted_copy(&vec![i64::MAX, i64::MIN, 0]), vec![i64::MIN, 0, i64::MAX]);
}

#[test]
fn ranks_are_clamped_floors() {
    assert_eq!(rank_of(1, 50), 0);
    assert_eq!(rank_of(1, 99), 0);
    assert_eq!(rank_of(2, 50), 1);
    assert_eq!(rank_of(3, 50), 1);
    assert_eq!(rank_of(4, 50), 2);
    assert_eq!(rank_of(20, 95), 19);
    assert_eq!(rank_of(100, 95), 95);
    assert_eq!(rank_of(100, 99), 99);
    assert_eq!(rank_of(100, 100), 99);
    assert_eq!(rank_of(100, 0), 0);
    assert_eq!(rank_of(101, 99), 99);
    assert_eq!(rank_of(usize::MAX, 100), usize::MAX - 1);
    for n in 1usize..400 {
        assert_eq!(rank_of(n, 50), ((n as f64 * 0.50) as usize).min(n - 1));
        assert_eq!(rank_of(n, 95), ((n as f64 * 0.95) as usize).min(n - 1));
        assert_eq!(rank_of(n, 99), ((n as f64 * 0.99) as usize).min(n - 1));
    }
}

#[test]
fn quotients_round_down() {
    assert_eq!(floor_quotient(7, 2), 3);
    assert_eq!(floor_quotient(-7, 2), -4);
    assert_eq!(floor_quotient(-8, 2), -4);
    assert_eq!(floor_quotient(0, 5), 0);
    assert_eq!(floor_quotient(-1, 1000), -1);
    assert_eq!(floor_quotient(i128::MAX, 1), i128::MAX);
    assert_eq!(floor_quotient(-i128::MAX, 1), -i128::MAX);
}
