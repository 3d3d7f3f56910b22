use actor_bench::{run_ring, u32_string, BenchResult, Spec};

#[test]
fn u32_string_values() {
    assert_eq!(u32_string(0), "0");
    assert_eq!(u32_string(7), "7");
    assert_eq!(u32_string(10), "10");
    assert_eq!(u32_string(100), "100");
    assert_eq!(u32_string(1220703125), "1220703125");
    assert_eq!(u32_string(u32::MAX), "4294967295");
}

#[test]
fn spec_describes_itself() {
    let spec = Spec { procs: 4, messages: 5, parallel: 2, size: 100 };
    assert_eq!(spec.describe(), "4 procs with 5 messages 2 in parallel of a size of 100");
}

#[test]
fn result_serializes_flat() {
    let spec = Spec { procs: 4, messages: 5, parallel: 2, size: 100 };
    let result = BenchResult { name: String::from("rust_shakespeare"), spec };
    assert_eq!(result.record(), "rust_shakespeare,4,5,2,100");
}

#[test]
fn run_result_record_echoes_spec() {
    let spec = Spec { procs: 3, messages: 2, parallel: 1, size: 100 };
    let result = run_ring(&spec);
    assert_eq!(result.record(), "rust_shakespeare,3,2,1,100");
}
