use claude_statusline::format_tokens::format_tokens;

// Values >= 1,000,000 format with one decimal place + "m"
#[test]
fn million_exact() {
    assert_eq!(format_tokens(1_000_000), "1.0m");
}

#[test]
fn million_and_a_half() {
    assert_eq!(format_tokens(1_500_000), "1.5m");
}

#[test]
fn millions_truncated() {
    assert_eq!(format_tokens(2_345_678), "2.3m");
}

#[test]
fn large_millions() {
    assert_eq!(format_tokens(10_000_000), "10.0m");
}

// Values >= 1,000 and < 1,000,000 format with one decimal place + "k"
#[test]
fn thousand_exact() {
    assert_eq!(format_tokens(1_000), "1.0k");
}

#[test]
fn thousand_and_a_half() {
    assert_eq!(format_tokens(1_500), "1.5k");
}

#[test]
fn sixty_thousand() {
    assert_eq!(format_tokens(60_000), "60.0k");
}

#[test]
fn hundred_thousand() {
    assert_eq!(format_tokens(100_000), "100.0k");
}

#[test]
fn just_under_million() {
    assert_eq!(format_tokens(999_999), "1000.0k");
}

// Values < 1,000 format as plain integer
#[test]
fn zero() {
    assert_eq!(format_tokens(0), "0");
}

#[test]
fn five_hundred() {
    assert_eq!(format_tokens(500), "500");
}

#[test]
fn nine_ninety_nine() {
    assert_eq!(format_tokens(999), "999");
}

// Boundary tests
#[test]
fn boundary_999_to_1000() {
    assert_eq!(format_tokens(999), "999");
    assert_eq!(format_tokens(1_000), "1.0k");
}

#[test]
fn boundary_999999_to_1000000() {
    assert_eq!(format_tokens(999_999), "1000.0k");
    assert_eq!(format_tokens(1_000_000), "1.0m");
}

// The reference: the same value formatted through binary64 arithmetic.
fn through_binary64(count: u64) -> String {
    if count >= 1_000_000 {
        format!("{:.1}m", count as f64 / 1_000_000.0)
    } else if count >= 1_000 {
        format!("{:.1}k", count as f64 / 1_000.0)
    } else {
        format!("{}", count)
    }
}

#[test]
fn halfway_tenths_round_like_binary64() {
    // 1.25 is exact in binary and goes to the even tenth; 1.05 and 1.15 are
    // not exact and go the way their binary value lies.
    assert_eq!(format_tokens(1_250), "1.2k");
    assert_eq!(format_tokens(1_350), "1.4k");
    assert_eq!(format_tokens(1_050), through_binary64(1_050));
    assert_eq!(format_tokens(1_150), through_binary64(1_150));
    assert_eq!(format_tokens(2_250_000), "2.2m");
    assert_eq!(format_tokens(2_750_000), "2.8m");
    for count in [1_050u64, 1_150, 1_450, 1_550, 2_050, 999_950, 1_050_000, 1_150_000, 3_350_000] {
        assert_eq!(format_tokens(count), through_binary64(count), "count {}", count);
    }
}

#[test]
fn every_count_below_two_hundred_thousand_matches_binary64() {
    for count in 0u64..200_000 {
        assert_eq!(format_tokens(count), through_binary64(count), "count {}", count);
    }
}

#[test]
fn halfway_counts_up_to_a_billion_match_binary64() {
    let mut count: u64 = 50;
    while count < 1_000_000_000 {
        assert_eq!(format_tokens(count), through_binary64(count), "count {}", count);
        count += 100;
        if count > 2_000_000 {
            count += 99_900;
        }
    }
}

#[test]
fn huge_counts_match_binary64() {
    let mut samples: Vec<u64> = vec![
        u64::MAX,
        u64::MAX - 1,
        1 << 53,
        (1 << 53) + 1,
        (1 << 53) - 1,
        (1 << 54) + 3,
        9_007_199_254_740_993,
        18_446_744_073_709_500_000,
        123_456_789_012_345_678,
    ];
    let mut x: u64 = 0x9e37_79b9_7f4a_7c15;
    for _ in 0..20_000 {
        x = x.wrapping_mul(6_364_136_223_846_793_005).wrapping_add(1_442_695_040_888_963_407);
        samples.push(x >> (x % 64));
        samples.push(x);
    }
    for count in samples {
        assert_eq!(format_tokens(count), through_binary64(count), "count {}", count);
    }
}

#[test]
fn round_counts_are_shown_exactly() {
    assert_eq!(format_tokens(123_400), "123.4k");
    assert_eq!(format_tokens(7_700_000), "7.7m");
    assert_eq!(format_tokens(4_500_000_000_000), "4500000.0m");
}

fn shown_tenths(text: &str) -> (u128, u128) {
    let (number, unit) = if let Some(n) = text.strip_suffix('m') {
        (n, 1_000_000u128)
    } else {
        (text.strip_suffix('k').expect("a unit suffix"), 1_000u128)
    };
    let (whole, fraction) = number.split_once('.').expect("one decimal place");
    assert_eq!(fraction.len(), 1);
    let tenths = whole.parse::<u128>().unwrap() * 10 + fraction.parse::<u128>().unwrap();
    (tenths, unit)
}

#[test]
fn shown_value_is_within_half_a_tenth() {
    let mut x: u64 = 12_345;
    for _ in 0..50_000 {
        x = x.wrapping_mul(2_862_933_555_777_941_757).wrapping_add(3_037_000_493);
        let count = (x >> (x % 54)).max(1_000);
        let (tenths, unit) = shown_tenths(&format_tokens(count));
        let exact = 10 * count as u128;
        let diff = if exact > tenths * unit { exact - tenths * unit } else { tenths * unit - exact };
        assert!(100 * diff <= 53 * unit, "count {}", count);
        if count < (1 << 53) {
            assert!(100 * diff <= 51 * unit, "count {}", count);
        }
    }
}
