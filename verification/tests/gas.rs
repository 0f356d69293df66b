use soldebug::gas::format_gas;

fn float_text(gas: u64) -> String {
    if gas >= 1_000_000 {
        format!("{:.2}M", gas as f64 / 1_000_000.0)
    } else if gas >= 1_000 {
        format!("{:.1}K", gas as f64 / 1_000.0)
    } else {
        gas.to_string()
    }
}

#[test]
fn gas_below_a_thousand_is_exact() {
    assert_eq!(format_gas(0), "0");
    assert_eq!(format_gas(7), "7");
    assert_eq!(format_gas(999), "999");
}

#[test]
fn gas_in_thousands() {
    assert_eq!(format_gas(1000), "1.0K");
    assert_eq!(format_gas(29834), "29.8K");
    assert_eq!(format_gas(51900), "51.9K");
    assert_eq!(format_gas(421_000), "421.0K");
    assert_eq!(format_gas(999_999), "1000.0K");
}

#[test]
fn gas_halfway_cases_follow_the_double() {
    // 1.05 is stored slightly above, 1.15 slightly below the half.
    assert_eq!(format_gas(1050), "1.1K");
    assert_eq!(format_gas(1150), "1.1K");
    // 1.25 is exact: ties go to the even digit.
    assert_eq!(format_gas(1250), "1.2K");
    assert_eq!(format_gas(1_125_000), "1.12M");
}

#[test]
fn gas_in_millions() {
    assert_eq!(format_gas(1_000_000), "1.00M");
    assert_eq!(format_gas(30_000_000), "30.00M");
    assert_eq!(format_gas(12_345_678), "12.35M");
    assert_eq!(format_gas(u64::MAX), "18446744073709.55M");
}

#[test]
fn gas_matches_float_formatting() {
    let mut samples: Vec<u64> = Vec::new();
    for g in 0..20_000u64 {
        samples.push(g);
    }
    for g in (20_000..3_000_000u64).step_by(37) {
        samples.push(g);
    }
    for k in 0..2000u64 {
        samples.push(1_000_000 + k * 5_000);
        samples.push(k * 10_000 + 5_000);
        samples.push(k * 100 + 50);
    }
    let mut x: u64 = 0x9e37_79b9_7f4a_7c15;
    for _ in 0..20_000 {
        x ^= x << 13;
        x ^= x >> 7;
        x ^= x << 17;
        samples.push(x);
        samples.push(x >> 20);
        samples.push(x >> 40);
    }
    for s in [1u64 << 53, (1u64 << 53) + 1, (1u64 << 54) + 3, u64::MAX - 1, u64::MAX] {
        samples.push(s);
    }
    for g in samples {
        assert_eq!(format_gas(g), float_text(g), "gas {}", g);
    }
}
