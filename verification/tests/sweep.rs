use actor_bench::{gen_tests, generate_specs, pow_u32, Spec};

fn entry(procs: u32, messages: u32, parallel: u32) -> Spec {
    Spec { procs, messages, parallel, size: 100 }
}

#[test]
fn generate_specs_k1_is_exact() {
    let v = generate_specs(1);
    assert_eq!(v.len(), 2);
    assert_eq!(v[0], entry(4, 5, 1));
    assert_eq!(v[1], entry(4, 5, 2));
}

#[test]
fn generate_specs_k2_count_and_order() {
    let v = generate_specs(2);
    assert_eq!(v.len(), 2 * 2 * 3);
    let expected = vec![
        entry(4, 5, 1),
        entry(4, 5, 2),
        entry(4, 5, 4),
        entry(4, 25, 1),
        entry(4, 25, 2),
        entry(4, 25, 4),
        entry(16, 5, 1),
        entry(16, 5, 2),
        entry(16, 5, 4),
        entry(16, 25, 1),
        entry(16, 25, 2),
        entry(16, 25, 4),
    ];
    assert_eq!(v, expected);
}

#[test]
fn generate_specs_count_formula() {
    for k in 0..6u32 {
        let v = generate_specs(k);
        assert_eq!(v.len() as u32, k * k * (k + 1));
    }
}

#[test]
fn gen_tests_bounds() {
    let empty = gen_tests(Some(0)).unwrap();
    assert_eq!(empty.len(), 0);
    let widest = gen_tests(Some(13)).unwrap();
    assert_eq!(widest.len(), 13 * 13 * 14);
    assert!(gen_tests(Some(14)).is_none());
}

#[test]
fn gen_tests_default_uses_host() {
    let v = gen_tests(None).unwrap();
    // At least one CPU exists, so the resolved bound is at least 2.
    assert!(v.len() >= 2 * 2 * 3);
    assert_eq!(v[0], entry(4, 5, 1));
}

#[test]
fn pow_u32_values() {
    assert_eq!(pow_u32(4, 0), 1);
    assert_eq!(pow_u32(2, 10), 1024);
    assert_eq!(pow_u32(5, 13), 1220703125);
}
