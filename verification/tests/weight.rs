use ephpm_middleware_modules::weight::positive;

/// The midpoint between zero and the least positive single-precision number.
const MIDPOINT: &str = "0.000000000000000000000000000000000000000000000700649232162408535461864791644958065640130970938257885878534141944895541342930300743319094181060791015625";

fn check(s: &str) {
    assert_eq!(positive(s), s.parse::<f32>().is_ok_and(|v| v > 0.0), "{s:?}");
}

#[test]
fn weights_agree_with_single_precision() {
    for s in [
        "", ".", "+", "-", "0", "1", "0.0", "0.5", "1.0", "0.001", "00.000", "1.", ".5", "+.5",
        "-.5", "-0", "-1", "+1", "--1", "+-1", "1e5", "1E5", "1e", "1e+", "1e-", "1e+5", "1e-5",
        "e5", ".e5", "0e5", "0e999999999999999999999999", "1e-45", "1e-46", "7e-46", "7.1e-46",
        "7.0064923216240853e-46", "7.0064923216240854e-46", "1.4e-45", "1e-400",
        "1e-99999999999999999999999999999999999999", "1e99999999999999999999999999999999999999",
        "100000e-50", "100000e-51", "0.00000001e-38", "0.00000001e-37", "inf", "INF", "+inf",
        "-inf", "infinity", "Infinity", "infinit", "infinityy", "nan", "NaN", "-nan", "+nan",
        "1.2.3", "1,5", "0x1", "1_000", "1 ", " 1", "\u{0661}", "1e5e5", "1.e3", "1e3.5", "q",
        "٣", "1f", "0.1f", "1e-150", "99999999999999999999999999999999999999999999999999e-95",
    ] {
        check(s);
    }
}

#[test]
fn the_midpoint_rounds_to_zero() {
    check(MIDPOINT);
    assert!(!positive(MIDPOINT));
    let above = format!("{MIDPOINT}0000000001");
    check(&above);
    assert!(positive(&above));
    let below = format!("{}4", &MIDPOINT[..MIDPOINT.len() - 1]);
    check(&below);
    assert!(!positive(&below));
}

#[test]
fn weights_agree_on_many_texts() {
    let alphabet: Vec<char> = "0123456789..eE+-05".chars().collect();
    let mut state: u64 = 1;
    for _ in 0..200_000 {
        let mut s = String::new();
        state = state.wrapping_mul(6364136223846793005).wrapping_add(1442695040888963407);
        let len = (state >> 33) % 9;
        for _ in 0..len {
            state = state.wrapping_mul(6364136223846793005).wrapping_add(1442695040888963407);
            s.push(alphabet[(state >> 33) as usize % alphabet.len()]);
        }
        check(&s);
    }
}
