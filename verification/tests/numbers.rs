use sawskas_profiler::binary64::Binary64;
use sawskas_profiler::chart::{
    bar_cells_of, bar_of, done_cells_of, done_percent_of, done_share_of, full_scale_of,
};
use sawskas_profiler::human::{human_bytes, human_ns};
use sawskas_profiler::order::{precedes, stable_order_of};
use sawskas_profiler::rate::{
    mib_per_second_of, millis_of, per_second_of, seconds_of, share_of,
};
use sawskas_profiler::text::{
    begins, chars_of, concat_of, decimal_of, join_of, left_align, lowercase_of, piece_of,
    repeat_of, right_align, same, space, split_of, strip_front, trim_of, unsigned_of,
    zero_padded_of, Cut,
};

/// Numbers of all sizes, in a fixed order.
fn numbers() -> Vec<u64> {
    let mut v = vec![0, 1, 2, 3, 5, 7, 999, 1_000, 1_023, 1_024, 1_025, 999_999, 1_000_000];
    for k in 0..64 {
        let p = 1u64 << k;
        v.push(p);
        v.push(p.wrapping_sub(1));
        v.push(p.wrapping_add(1));
        v.push(p.wrapping_mul(3));
    }
    let mut x: u64 = 0x9e37_79b9_7f4a_7c15;
    for k in 0..300u32 {
        x ^= x << 13;
        x ^= x >> 7;
        x ^= x << 17;
        v.push(x >> (k % 64));
    }
    v.push(u64::MAX);
    v
}

fn float(b: Binary64) -> f64 {
    f64::from_bits(b.bits())
}

#[test]
fn whole_numbers_are_rounded_as_doubles_are() {
    for n in numbers() {
        let b = Binary64::from_u64(n);
        assert_eq!(b.bits(), (n as f64).to_bits(), "{}", n);
        for p in 0..5u32 {
            assert_eq!(b.fixed_of(p), format!("{:.*}", p as usize, n as f64));
        }
    }
}

#[test]
fn rates_are_rounded_as_doubles_are() {
    let all = numbers();
    for (i, bytes) in all.iter().enumerate() {
        for j in 0..40 {
            let nanos = all[(i * 31 + j * 17) % all.len()];
            let rate = mib_per_second_of(*bytes, nanos);
            let want = if nanos == 0 {
                0.0
            } else {
                (*bytes as f64 / (1024.0 * 1024.0)) / (nanos as f64 / 1e9)
            };
            assert_eq!(rate.bits(), want.to_bits(), "{} in {}", bytes, nanos);
            for p in 0..5u32 {
                assert_eq!(rate.fixed_of(p), format!("{:.*}", p as usize, want));
            }
            let per = per_second_of(*bytes, nanos);
            let want_per = if nanos == 0 { 0.0 } else { *bytes as f64 / (nanos as f64 / 1e9) };
            assert_eq!(per.bits(), want_per.to_bits());
            assert_eq!(per.fixed_of(1), format!("{:.1}", want_per));
            let share = share_of(*bytes, nanos);
            let want_share = if nanos == 0 { 0.0 } else { *bytes as f64 / nanos as f64 };
            assert_eq!(share.bits(), want_share.to_bits());
            assert_eq!(share.fixed_of(4), format!("{:.4}", want_share));
            assert_eq!(share.less_than(rate), want_share < want);
            assert_eq!(float(share.max_with(rate)), want_share.max(want));
            let scaled = share.times(100);
            assert_eq!(scaled.bits(), (want_share * 100.0).to_bits());
        }
    }
}

#[test]
fn times_are_rounded_as_doubles_are() {
    for n in numbers() {
        assert_eq!(seconds_of(n).bits(), (n as f64 / 1e9).to_bits());
        assert_eq!(millis_of(n).bits(), (n as f64 / 1e6).to_bits());
        assert_eq!(millis_of(n).fixed_of(3), format!("{:.3}", n as f64 / 1e6));
    }
    assert_eq!(seconds_of(1).bits(), 1e-9f64.to_bits());
}

#[test]
fn sums_and_roundings_are_those_of_doubles() {
    let all = numbers();
    for (i, a) in all.iter().enumerate() {
        let b = all[(i * 7 + 3) % all.len()];
        if *a == 0 || b == 0 {
            continue;
        }
        let x = share_of(*a, 1_000);
        let y = share_of(b, 1_000);
        let (low, high) = if x.exponent <= y.exponent { (x, y) } else { (y, x) };
        if high.exponent - low.exponent > 60 {
            continue;
        }
        assert_eq!(low.add_to(high).bits(), (float(low) + float(high)).to_bits());
    }
    for n in 0..5_000u64 {
        let x = share_of(n, 64);
        assert_eq!(x.round_of(), (n as f64 / 64.0).round() as u64);
        assert_eq!(x.floor_of(), (n as f64 / 64.0) as u64);
    }
}

#[test]
fn bars_scale_to_the_largest() {
    let values: Vec<Binary64> = [3u64, 10, 0, 7].iter().map(|n| Binary64::from_u64(*n)).collect();
    let full = full_scale_of(&values);
    assert_eq!(float(full), 10.0);
    for v in &values {
        let want = (float(*v) / 10.0) * 440.0;
        match bar_of(*v, full, 440) {
            Some(b) => assert_eq!(float(b), want),
            None => assert!(want <= 0.25),
        }
        let cells = ((float(*v) / 10.0) * 28.0).round() as usize;
        assert_eq!(bar_cells_of(*v, full, 28), cells.max(1));
    }
    assert_eq!(float(full_scale_of(&vec![])), 1e-9);
}

/// The double that a number is held as.
fn held(x: f64) -> Binary64 {
    let bits = x.to_bits();
    let high = (bits >> 52) as i32;
    let low = bits & 0xf_ffff_ffff_ffff;
    if bits == 0 {
        Binary64 { mantissa: 0, exponent: 0 }
    } else if high == 0 {
        Binary64 { mantissa: low, exponent: -1074 }
    } else {
        Binary64 { mantissa: low + (1 << 52), exponent: high - 1075 }
    }
}

#[test]
fn bars_scale_over_all_doubles() {
    let all = [
        0.0,
        5e-324,
        1e-310,
        f64::MIN_POSITIVE,
        1e-300,
        1e-18,
        1e-10,
        1e-9,
        0.25,
        1.0,
        3.5,
        1e9,
        2.5e9,
        1e300,
        9.5e299,
        f64::MAX / 3.0,
        f64::MAX,
    ];
    for a in all {
        assert_eq!(held(a).bits(), a.to_bits());
        for b in all {
            assert_eq!(held(a).less_than(held(b)), a < b);
            let full = full_scale_of(&vec![held(a), held(b)]);
            let top = a.max(b).max(1e-9);
            assert_eq!(float(full), top);
            for v in [a, b] {
                let want = (v / top) * 440.0;
                match bar_of(held(v), full, 440) {
                    Some(x) => assert_eq!(x.bits(), want.to_bits()),
                    None => assert!(want <= 0.25),
                }
                let cells = ((v / top) * 28.0).round() as usize;
                assert_eq!(bar_cells_of(held(v), full, 28), cells.max(1));
            }
        }
    }
}

#[test]
fn progress_is_clamped() {
    let all = numbers();
    for (i, done) in all.iter().enumerate() {
        let size = all[(i * 13 + 5) % all.len()];
        let frac = if size == 0 { 1.0 } else { (*done as f64 / size as f64).clamp(0.0, 1.0) };
        assert_eq!(float(done_share_of(*done, size)), frac);
        assert_eq!(done_cells_of(*done, size, 30), (frac * 30.0).round() as usize);
        assert_eq!(done_percent_of(*done, size), (frac * 100.0) as u64);
    }
    assert_eq!(done_cells_of(7, 7, 30), 30);
    assert_eq!(done_percent_of(9, 7), 100);
    assert_eq!(done_cells_of(0, 7, 30), 0);
}

#[test]
fn byte_counts_are_readable() {
    let reference = |n: u64| {
        let units = ["B", "KiB", "MiB", "GiB"];
        let mut v = n as f64;
        let mut i = 0;
        while v >= 1024.0 && i < units.len() - 1 {
            v /= 1024.0;
            i += 1;
        }
        if i == 0 {
            format!("{} B", n)
        } else {
            format!("{:.1} {}", v, units[i])
        }
    };
    for n in numbers() {
        assert_eq!(human_bytes(n), reference(n));
    }
    assert_eq!(human_bytes(1_023), "1023 B");
    assert_eq!(human_bytes(1_536), "1.5 KiB");
    assert_eq!(human_bytes(5 << 40), "5120.0 GiB");
}

#[test]
fn durations_are_readable() {
    assert_eq!(human_ns(0), "0 ns");
    assert_eq!(human_ns(999), "999 ns");
    assert_eq!(human_ns(1_999), "1 µs");
    assert_eq!(human_ns(999_999), "999 µs");
    assert_eq!(human_ns(1_000_000), "1 ms");
    assert_eq!(human_ns(12_345_678_901), "12345 ms");
}

#[test]
fn numerals_are_decimal() {
    for n in numbers() {
        assert_eq!(decimal_of(n as u128), n.to_string());
        assert_eq!(zero_padded_of(n as u128, 2), format!("{:02}", n));
        assert_eq!(unsigned_of(&n.to_string()), n.to_string().parse::<usize>().ok());
    }
    assert_eq!(decimal_of(u128::MAX), u128::MAX.to_string());
    for s in ["", "+", "+5", "-5", "007", " 5", "5 ", "٣", "18446744073709551615", "18446744073709551616", "99999999999999999999999", "1_0", "++1", "+-1"] {
        assert_eq!(unsigned_of(s), s.parse::<usize>().ok(), "{}", s);
    }
}

#[test]
fn white_space_is_that_of_characters() {
    for n in 0..0x11_0000u32 {
        if let Some(c) = char::from_u32(n) {
            assert_eq!(space(c), c.is_whitespace(), "{}", n);
        }
    }
}

#[test]
fn texts_are_trimmed_split_and_joined() {
    for s in ["", " ", "a", "  a b\t\n", "\u{3000}x\u{a0}", "a,b c", ",,", "a\nb\n", "Äß I"] {
        assert_eq!(trim_of(s), s.trim());
        assert_eq!(lowercase_of(s), s.to_ascii_lowercase());
        assert_eq!(
            split_of(s, Cut::CommaOrSpace),
            s.split(|c: char| c == ',' || c.is_whitespace()).collect::<Vec<_>>()
        );
        assert_eq!(split_of(s, Cut::Newline), s.split('\n').collect::<Vec<_>>());
        assert_eq!(split_of(s, Cut::Blank), s.split(' ').collect::<Vec<_>>());
        assert_eq!(chars_of(s), s.chars().collect::<Vec<_>>());
    }
    assert_eq!(split_of("a/b\\c", Cut::Slash), vec!["a", "b", "c"]);
    let parts = vec!["a".to_string(), "".to_string(), "c".to_string()];
    assert_eq!(join_of(&parts, ", "), parts.join(", "));
    assert_eq!(concat_of(&parts), "ac");
    assert_eq!(strip_front("**.*rs", '*'), ".*rs");
    assert!(begins("-x", '-'));
    assert!(!begins("", '-'));
    assert!(same("ab", "ab"));
    assert!(!same("ab", "aB"));
}

#[test]
fn texts_are_padded_by_their_characters() {
    for s in ["", "ab", "≤ 1 µs", "longer than ten"] {
        assert_eq!(left_align(s, 10), format!("{:<10}", s));
        assert_eq!(right_align(s, 10), format!("{:>10}", s));
    }
    assert_eq!(repeat_of('█', 3), "███");
    assert_eq!(repeat_of('x', 0), "");
    assert_eq!(piece_of(&chars_of("hello"), 1, 3), "el");
}

#[test]
fn orders_are_stable() {
    let mut x: u64 = 12_345;
    for n in 0..60usize {
        let keys: Vec<Vec<u64>> = (0..n)
            .map(|_| {
                x = x.wrapping_mul(6_364_136_223_846_793_005).wrapping_add(1);
                (0..(x >> 60) % 3).map(|k| (x >> (20 + k)) % 3).collect()
            })
            .collect();
        let mut want: Vec<usize> = (0..n).collect();
        want.sort_by(|a, b| keys[*a].cmp(&keys[*b]));
        assert_eq!(stable_order_of(&keys), want);
    }
    assert!(precedes(&vec![1, 2], &vec![1, 2]));
    assert!(precedes(&vec![1], &vec![1, 2]));
    assert!(!precedes(&vec![2], &vec![1, 2]));
}
