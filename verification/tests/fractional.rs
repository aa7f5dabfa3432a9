use std::cmp::Ordering;

use scene_core::fractional::{
    cmp_keys, decrement_integer, generate_key_between, generate_n_keys_between,
    increment_integer, smallest_integer, validate_order_key,
};


/// Assert a slice is strictly increasing under the key contract.
fn assert_sorted_unique(keys: &[String]) {
    for w in keys.windows(2) {
        assert_eq!(
            cmp_keys(&w[0], &w[1]),
            Ordering::Less,
            "not strictly sorted: {:?} !< {:?}",
            w[0],
            w[1]
        );
    }
}

/// Assert `lo < mid < hi`.
fn assert_strictly_between(lo: &str, mid: &str, hi: &str) {
    assert_eq!(cmp_keys(lo, mid), Ordering::Less, "expected {lo:?} < {mid:?}");
    assert_eq!(cmp_keys(mid, hi), Ordering::Less, "expected {mid:?} < {hi:?}");
}

// --- Reference golden values (from rocicorp/fractional-indexing) ---

#[test]
fn golden_first_and_append() {
    assert_eq!(generate_key_between(None, None).unwrap(), "a0");
    assert_eq!(generate_key_between(Some("a0"), None).unwrap(), "a1");
    assert_eq!(generate_key_between(Some("a1"), None).unwrap(), "a2");
}

#[test]
fn golden_prepend() {
    // Before "a0" the integer steps down to "Zz".
    assert_eq!(generate_key_between(None, Some("a0")).unwrap(), "Zz");
    assert_eq!(generate_key_between(None, Some("Zz")).unwrap(), "Zy");
}

#[test]
fn golden_between_adjacent() {
    // Between a0 and a1 the reference yields "a0V" (midpoint digit 'V'=31).
    assert_eq!(generate_key_between(Some("a0"), Some("a1")).unwrap(), "a0V");
}

#[test]
fn golden_between_prefix() {
    // a0 < a0V: integer parts equal, midpoint("", "V") -> dig between 0 and V.
    let k = generate_key_between(Some("a0"), Some("a0V")).unwrap();
    assert_strictly_between("a0", &k, "a0V");
}

#[test]
fn golden_n_keys_both_null() {
    assert_eq!(
        generate_n_keys_between(None, None, 5).unwrap(),
        vec!["a0", "a1", "a2", "a3", "a4"]
    );
}

// --- Property tests ---

#[test]
fn cmp_keys_is_plain_str_cmp() {
    assert_eq!(cmp_keys("a0", "a1"), Ordering::Less);
    assert_eq!(cmp_keys("a1", "a1"), Ordering::Equal);
    assert_eq!(cmp_keys("a2", "a1"), Ordering::Greater);
    // Negative heads sort before positive (byte 'Z' < 'a').
    assert_eq!(cmp_keys("Zz", "a0"), Ordering::Less);
}

#[test]
fn between_two_adjacent_keys_yields_strictly_between() {
    let a = generate_key_between(None, None).unwrap();
    let b = generate_key_between(Some(&a), None).unwrap();
    let mid = generate_key_between(Some(&a), Some(&b)).unwrap();
    assert_strictly_between(&a, &mid, &b);
}

#[test]
fn append_grows_strictly() {
    let mut keys = vec![generate_key_between(None, None).unwrap()];
    for _ in 0..60 {
        let last = keys.last().cloned();
        let next = generate_key_between(last.as_deref(), None).unwrap();
        assert_eq!(
            cmp_keys(keys.last().unwrap(), &next),
            Ordering::Less,
            "append must strictly increase: {:?} !< {next:?}",
            keys.last().unwrap()
        );
        keys.push(next);
    }
    assert_sorted_unique(&keys);
}

#[test]
fn prepend_shrinks_strictly() {
    let mut keys = vec![generate_key_between(None, None).unwrap()];
    for _ in 0..60 {
        let first = keys.first().cloned();
        let prev = generate_key_between(None, first.as_deref()).unwrap();
        assert_eq!(
            cmp_keys(&prev, keys.first().unwrap()),
            Ordering::Less,
            "prepend must strictly decrease: {prev:?} !< {:?}",
            keys.first().unwrap()
        );
        keys.insert(0, prev);
    }
    assert_sorted_unique(&keys);
}

#[test]
fn repeated_subdivision_stays_ordered() {
    // Repeatedly insert into a shrinking gap; ordering holds at every depth.
    let lo = generate_key_between(None, None).unwrap();
    let hi = generate_key_between(Some(&lo), None).unwrap();
    let mut left = lo.clone();
    let mut right = hi.clone();
    let mut all = vec![lo, hi];
    for step in 0..120 {
        let mid = generate_key_between(Some(&left), Some(&right)).unwrap();
        assert_strictly_between(&left, &mid, &right);
        all.push(mid.clone());
        if step % 2 == 0 {
            right = mid;
        } else {
            left = mid;
        }
    }
    all.sort();
    let before = all.len();
    all.dedup();
    assert_eq!(before, all.len(), "subdivision produced duplicates");
}

#[test]
fn rejects_a_ge_b() {
    assert!(generate_key_between(Some("a1"), Some("a1")).is_err());
    assert!(generate_key_between(Some("a2"), Some("a1")).is_err());
}

#[test]
fn rejects_malformed_key() {
    assert!(generate_key_between(Some(""), None).is_err());
    assert!(validate_order_key("a0V0").is_err()); // trailing fractional zero
    assert!(validate_order_key("a0V").is_ok());
    assert!(validate_order_key("a0!").is_err()); // bad digit
    assert!(validate_order_key(&smallest_integer()).is_err()); // sentinel
}

#[test]
fn generate_n_keys_is_monotonic() {
    for n in [0usize, 1, 2, 3, 5, 8, 13, 21, 64] {
        let keys = generate_n_keys_between(None, None, n).unwrap();
        assert_eq!(keys.len(), n, "n={n} produced wrong count");
        assert_sorted_unique(&keys);
    }
}

#[test]
fn generate_n_keys_within_bounds() {
    let a = generate_key_between(None, None).unwrap();
    let b = generate_key_between(Some(&a), None).unwrap();
    let keys = generate_n_keys_between(Some(&a), Some(&b), 25).unwrap();
    assert_eq!(keys.len(), 25);
    assert_eq!(cmp_keys(&a, &keys[0]), Ordering::Less);
    assert_eq!(cmp_keys(keys.last().unwrap(), &b), Ordering::Less);
    assert_sorted_unique(&keys);
}

#[test]
fn generate_n_keys_one_null_bound() {
    // a == null: consecutive descending integers, reversed to ascending.
    let keys = generate_n_keys_between(None, Some("a0"), 4).unwrap();
    assert_eq!(keys.len(), 4);
    assert_sorted_unique(&keys);
    assert_eq!(cmp_keys(keys.last().unwrap(), "a0"), Ordering::Less);

    // b == null: consecutive ascending integers.
    let keys2 = generate_n_keys_between(Some("a0"), None, 4).unwrap();
    assert_eq!(keys2, vec!["a1", "a2", "a3", "a4"]);
}

#[test]
fn generate_n_keys_zero_and_bad_bounds() {
    assert!(generate_n_keys_between(None, None, 0).unwrap().is_empty());
    assert!(generate_n_keys_between(Some("a5"), Some("a5"), 3).is_err());
}

#[test]
fn deterministic_index_driven_insertions_stay_sorted() {
    // Deterministic, "random-ish" insertion stream: each slot is a pure
    // function of the loop index (no RNG), visiting front, back, interior.
    let mut keys: Vec<String> = vec![generate_key_between(None, None).unwrap()];
    for i in 0..400usize {
        let len = keys.len();
        let slot = (i * 7 + 3) % (len + 1);
        let left = if slot == 0 { None } else { Some(keys[slot - 1].as_str()) };
        let right = if slot == len { None } else { Some(keys[slot].as_str()) };
        let k = generate_key_between(left, right).unwrap();
        if let Some(l) = left {
            assert_eq!(cmp_keys(l, &k), Ordering::Less, "step {i}: {l:?} !< {k:?}");
        }
        if let Some(r) = right {
            assert_eq!(cmp_keys(&k, r), Ordering::Less, "step {i}: {k:?} !< {r:?}");
        }
        keys.insert(slot, k);
    }
    assert_sorted_unique(&keys);
}

#[test]
fn generated_keys_round_trip_through_validate() {
    let keys = generate_n_keys_between(None, None, 80).unwrap();
    for k in &keys {
        validate_order_key(k)
            .unwrap_or_else(|e| panic!("generated key {k:?} failed validation: {e}"));
    }
}

#[test]
fn many_appends_widen_integer_and_stay_sorted() {
    // Append past a single integer width (62 ⇒ widen) to exercise the head
    // transition; ordering must hold across the boundary.
    let mut last = generate_key_between(None, None).unwrap();
    let mut all = vec![last.clone()];
    for _ in 0..700 {
        let next = generate_key_between(Some(&last), None).unwrap();
        assert_eq!(cmp_keys(&last, &next), Ordering::Less, "{last:?} !< {next:?}");
        last = next.clone();
        all.push(next);
    }
    assert_sorted_unique(&all);
    // Must have widened beyond the 2-char positive integer at least once.
    assert!(all.iter().any(|k| k.starts_with('b')), "integer never widened");
}

#[test]
fn increment_then_decrement_round_trips() {
    for x in ["a0", "a1", "az", "Zz", "Zy", "Z0"] {
        if let Some(inc) = increment_integer(x).unwrap() {
            let back = decrement_integer(&inc).unwrap().unwrap();
            assert_eq!(back, x, "inc/dec round trip failed for {x:?}");
        }
    }
}

#[test]
fn negative_side_orders_below_positive() {
    // Many prepends produce a strictly descending negative-then-positive
    // sequence that sorts correctly.
    let mut keys = vec![generate_key_between(None, None).unwrap()];
    for _ in 0..70 {
        let first = keys[0].clone();
        let prev = generate_key_between(None, Some(&first)).unwrap();
        keys.insert(0, prev);
    }
    assert_sorted_unique(&keys);
    // The earliest keys are on the negative ('A'..='Z') head side.
    assert!(keys[0].as_bytes()[0] < b'a', "expected negative head, got {:?}", keys[0]);
}

#[test]
fn refused_keys_say_why() {
    assert_eq!(validate_order_key("").unwrap_err(), "invalid order key: empty");
    assert_eq!(validate_order_key("!0").unwrap_err(), "invalid order key head: '!'");
    assert_eq!(validate_order_key("b1").unwrap_err(), "invalid order key: \"b1\"");
    assert_eq!(validate_order_key("a!").unwrap_err(), "invalid order-key digit: '!'");
    assert_eq!(validate_order_key("a1-").unwrap_err(), "invalid order-key digit: '-'");
    assert_eq!(validate_order_key("a10").unwrap_err(), "invalid order key: \"a10\"");
    assert!(validate_order_key("a1V").is_ok());
}

#[test]
fn refused_bounds_say_why() {
    assert_eq!(generate_key_between(Some("a1"), Some("a0")).unwrap_err(), "\"a1\" >= \"a0\"");
    assert_eq!(generate_key_between(Some("a0"), Some("!")).unwrap_err(), "invalid order key head: '!'");
    assert_eq!(generate_n_keys_between(Some(""), None, 2).unwrap_err(), "invalid order key: empty");
    assert!(generate_n_keys_between(Some(""), None, 0).unwrap().is_empty());
}

#[test]
fn stepping_an_integer_names_the_digit_it_cannot_read() {
    assert_eq!(increment_integer("a%").unwrap_err(), "invalid order-key digit: '%'");
    assert_eq!(decrement_integer("b1#").unwrap_err(), "invalid order-key digit: '#'");
    // Digits left of the carry are never read.
    assert_eq!(increment_integer("b#1").unwrap(), Some("b#2".to_string()));
}
