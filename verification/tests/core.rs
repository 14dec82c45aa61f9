//! Scoring, the random stream, settings and texts.

use waldo_core::lobby::sanitize_name;
use waldo_core::protocol::{Config, Spot};
use waldo_core::rng::{Rng, PARTS};
use waldo_core::scoring::{
    bonus_points, rank_points, score_round, BONUS_WENDA, MAX_SCORE, MISS_PENALTY, ODLAW_PENALTY,
    WALDO_HIT_RADIUS,
};
use waldo_core::session::{draw_code, gen_token, load_session, save_session};
use waldo_core::text::{
    chars_of, push_decimal, push_hex, push_signed, same, starts_with, strip_slashes, strip_start,
    takes_bytes, trim,
};

#[test]
fn config_clamps() {
    let c = Config { rounds: 99, round_secs: 1 }.clamped();
    assert_eq!(c.rounds, 10);
    assert_eq!(c.round_secs, 10);
}

#[test]
fn config_keeps_what_is_in_range() {
    let c = Config { rounds: 0, round_secs: 301 }.clamped();
    assert_eq!((c.rounds, c.round_secs), (1, 300));
    let c = Config { rounds: 7, round_secs: 120 }.clamped();
    assert_eq!((c.rounds, c.round_secs), (7, 120));
    assert_eq!(Config::default(), Config { rounds: 3, round_secs: 90 });
}

#[test]
fn deterministic() {
    let mut a = Rng::new(42);
    let mut b = Rng::new(42);
    for _ in 0..1000 {
        assert_eq!(a.next_u32(), b.next_u32());
    }
}

#[test]
fn seeds_differ() {
    let mut a = Rng::new(1);
    let mut b = Rng::new(2);
    let same = (0..100).filter(|_| a.next_u32() == b.next_u32()).count();
    assert!(same < 5);
}

#[test]
fn f32_in_range() {
    let mut r = Rng::new(7);
    for _ in 0..10_000 {
        let x = r.unit() as f32 / PARTS as f32;
        assert!((0.0..1.0).contains(&x));
    }
}

/// The stream written out with the machine's own rotation.
fn reference_stream(seed: u64, n: usize) -> Vec<u32> {
    let inc = (seed << 1) | 1;
    let mut state = 0u64;
    let mut step = |state: &mut u64| {
        let old = *state;
        *state = old.wrapping_mul(6364136223846793005).wrapping_add(inc);
        ((((old >> 18) ^ old) >> 27) as u32).rotate_right((old >> 59) as u32)
    };
    step(&mut state);
    state = state.wrapping_add(seed);
    step(&mut state);
    (0..n).map(|_| step(&mut state)).collect()
}

#[test]
fn the_stream_is_pcg32() {
    for seed in [0, 1, 42, 0xC0FFEE, u64::MAX] {
        let mut r = Rng::new(seed);
        let drawn: Vec<u32> = (0..500).map(|_| r.next_u32()).collect();
        assert_eq!(drawn, reference_stream(seed, 500));
    }
}

#[test]
fn below_rounds_as_single_precision_does() {
    for n in [1usize, 2, 3, 9, 26, 1000, 16_777_216, 16_777_217, 33_554_435, 4_000_000_123] {
        let mut a = Rng::new(n as u64);
        let mut b = Rng::new(n as u64);
        for _ in 0..300 {
            let unit = (b.next_u32() >> 8) as f32 / (1u32 << 24) as f32;
            let expected = (unit * n as f32) as usize % n.max(1);
            assert_eq!(a.below(n), expected, "n = {}", n);
        }
    }
    assert_eq!(Rng::new(3).below(0), 0);
}

#[test]
fn rank_order_pays() {
    let mut prev = u32::MAX;
    for r in 1..=12 {
        let p = rank_points(r);
        assert!(p <= prev, "rank {} should not pay more than rank {}", r, r - 1);
        assert!(p >= 250);
        if prev > 250 && prev != u32::MAX {
            assert!(p < prev, "ranks above the floor must strictly decrease");
        }
        prev = p;
    }
    assert_eq!(rank_points(1), 1000);
    assert_eq!(rank_points(0), 0);
}

#[test]
fn every_rank_has_its_price() {
    let paid: Vec<u32> = (0..=13).map(rank_points).collect();
    assert_eq!(
        paid,
        vec![0, 1000, 700, 550, 450, 400, 375, 350, 325, 300, 275, 250, 250, 250]
    );
}

#[test]
fn perfect_round() {
    assert_eq!(score_round(1, 0, true, true, true, false), MAX_SCORE);
}

#[test]
fn misses_and_odlaw_cost() {
    assert_eq!(score_round(1, 2, false, false, false, false), 1000 - 50);
    assert_eq!(score_round(1, 0, false, false, false, true), 1000 - 150);
    assert!(
        score_round(2, 0, false, false, false, false)
            < score_round(1, 0, false, false, false, false)
    );
}

#[test]
fn not_found_can_still_bonus() {
    assert_eq!(score_round(0, 0, true, false, false, false), BONUS_WENDA);
}

#[test]
fn never_negative() {
    assert_eq!(score_round(0, 50, false, false, false, true), 0);
}

#[test]
fn no_number_of_misses_is_too_many() {
    assert_eq!(score_round(1, 40, false, false, false, false), 0);
    assert_eq!(score_round(1, 171_798_692, false, false, false, false), 0);
    assert_eq!(score_round(1, u32::MAX, true, true, true, false), 0);
    assert_eq!(score_round(u32::MAX, 9, false, false, false, false), 25);
    assert_eq!(rank_points(171_798_697), 250);
    assert_eq!(rank_points(u32::MAX), 250);
}

#[test]
fn bonuses_add_up() {
    assert_eq!(bonus_points(true, true, true, false), 325);
    assert_eq!(bonus_points(true, false, false, true), -50);
    assert_eq!(bonus_points(false, false, false, true), -150);
    assert_eq!((MISS_PENALTY, ODLAW_PENALTY), (25, 150));
    assert_eq!(f32::from_bits(WALDO_HIT_RADIUS), 1.2);
}

#[test]
fn names_are_cleaned_up() {
    assert_eq!(sanitize_name("  Alice\u{7}\n "), "Alice");
    assert_eq!(sanitize_name(""), "Player");
    assert_eq!(sanitize_name(" \t\u{0} "), "Player");
    assert_eq!(sanitize_name("abcdefghijklmnopqrstuvwxyz"), "abcdefghijklmnopqrst");
    // trimmed after it is cut, so a name may end up shorter still
    assert_eq!(sanitize_name("                   a b"), "a");
    assert_eq!(sanitize_name("\u{3000}Žižek\u{85}"), "Žižek");
    for name in ["", "  Alice\u{7}\n ", "                   a b", "abcdefghijklmnopqrstuvwxyz"] {
        let clean = sanitize_name(name);
        assert_eq!(sanitize_name(&clean), clean);
    }
}

#[test]
fn spots_know_whether_they_are_finite() {
    let at = |x: f32, y: f32, z: f32| Spot { x: x.to_bits(), y: y.to_bits(), z: z.to_bits() };
    assert!(at(1.0, -2.5, 0.0).all_finite());
    assert!(at(f32::MAX, f32::MIN_POSITIVE, -0.0).all_finite());
    assert!(!at(f32::NAN, 0.0, 0.0).all_finite());
    assert!(!at(0.0, f32::INFINITY, 0.0).all_finite());
    assert!(!at(0.0, 0.0, f32::NEG_INFINITY).all_finite());
}

#[test]
fn tokens_are_three_draws_in_hexadecimal() {
    let mut a = Rng::new(99);
    let mut b = Rng::new(99);
    let token = gen_token(&mut a);
    let expected = format!("{:08x}{:08x}{:08x}", b.next_u32(), b.next_u32(), b.next_u32());
    assert_eq!(token, expected);
    assert_eq!(a.next_u32(), b.next_u32());
}

#[test]
fn codes_are_four_capitals() {
    let mut a = Rng::new(5);
    let mut b = Rng::new(5);
    for _ in 0..200 {
        let code = draw_code(&mut a);
        let expected: String = (0..4).map(|_| (b'A' + b.below(26) as u8) as char).collect();
        assert_eq!(code, expected);
        assert!(code.len() == 4 && code.chars().all(|c| c.is_ascii_uppercase()));
    }
}

#[test]
fn a_stored_session_comes_back() {
    let text = save_session("ABCD", "00ff:12");
    assert_eq!(text, "ABCD:00ff:12");
    assert_eq!(load_session(&text), Some(("ABCD".to_string(), "00ff:12".to_string())));
    assert_eq!(load_session("nothing here"), None);
    assert_eq!(load_session(":"), Some((String::new(), String::new())));
}

#[test]
fn texts_are_trimmed_and_measured() {
    for s in ["", " a ", "\u{2003}x y\u{a0}", "no", "\n\n", "\u{200b}kept\u{200b}"] {
        assert_eq!(trim(s), s.trim());
        assert_eq!(chars_of(s), s.chars().collect::<Vec<char>>());
        for n in 0..12 {
            assert_eq!(takes_bytes(s, n), s.len() == n);
        }
    }
    assert!(takes_bytes("é\u{10000}x", 7));
    assert!(same("waldo", "waldo") && !same("waldo", "Waldo"));
    assert!(starts_with("https://x", "https://") && !starts_with("http", "https"));
    assert_eq!(strip_start("ababc", "ab"), "c");
    assert_eq!(strip_start("abc", ""), "abc");
    assert_eq!(strip_slashes("http://x///"), "http://x");
}

#[test]
fn numbers_are_written_as_rust_writes_them() {
    for n in [0u64, 9, 10, 1234567890, u64::MAX] {
        let mut s = String::from("n=");
        push_decimal(&mut s, n);
        assert_eq!(s, format!("n={}", n));
    }
    for n in [0i32, -1, 150, i32::MIN, i32::MAX] {
        let mut s = String::new();
        push_signed(&mut s, n);
        assert_eq!(s, format!("{}", n));
    }
    let mut s = String::new();
    push_hex(&mut s, 0xBEEF, 8);
    assert_eq!(s, "0000beef");
}
