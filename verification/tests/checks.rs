use gpu_host::checks::compare::{
    check_row_sums, check_softmax, compare_absolute, compare_relative, find_greatest, is_ascending,
    within,
};
use gpu_host::checks::matrices::{
    blocks_reported, build, element, expected_product, mapped_expected, TestMatrix,
};
use gpu_host::checks::messages::{
    any_contains, check_async_single, check_async_two, check_blocks, check_branch, check_countdown,
    check_file_io, check_hello, check_marker, check_marks, check_sequence, check_stdin, check_time,
    contains, packets_for, Finding,
};
use gpu_host::checks::words::{
    check_pointers, count_differing, expected_sums, hybrid_expected, stress_sum_expected,
    stress_xorshift_expected, swapped_expected,
};
use gpu_host::scalar::{Constant, Scalar};

/// Single-precision numbers.
#[derive(Clone, Copy, Debug, PartialEq)]
struct F32(f32);

impl Scalar for F32 {
    fn constant(c: Constant) -> F32 {
        F32(match c {
            Constant::Zero => 0.0,
            Constant::One => 1.0,
            Constant::Two => 2.0,
            Constant::Half => 0.5,
            Constant::MinusOne => -1.0,
            Constant::GeluScale => 0.797_884_6,
            Constant::GeluCoefficient => 0.044_715,
            Constant::Masked => -1.0e38,
            Constant::NegInfinity => f32::NEG_INFINITY,
        })
    }
    fn from_count(n: usize) -> F32 {
        F32(n as f32)
    }
    fn from_bits(bits: u32) -> F32 {
        F32(f32::from_bits(bits))
    }
    fn to_bits(&self) -> u32 {
        self.0.to_bits()
    }
    fn dup(&self) -> F32 {
        *self
    }
    fn plus(&self, other: &F32) -> F32 {
        F32(self.0 + other.0)
    }
    fn minus(&self, other: &F32) -> F32 {
        F32(self.0 - other.0)
    }
    fn times(&self, other: &F32) -> F32 {
        F32(self.0 * other.0)
    }
    fn over(&self, other: &F32) -> F32 {
        F32(self.0 / other.0)
    }
    fn fused(&self, factor: &F32, addend: &F32) -> F32 {
        F32(self.0.mul_add(factor.0, addend.0))
    }
    fn sqrt(&self) -> F32 {
        F32(self.0.sqrt())
    }
    fn exp(&self) -> F32 {
        F32(self.0.exp())
    }
    fn tanh(&self) -> F32 {
        F32(self.0.tanh())
    }
    fn larger(&self, other: &F32) -> F32 {
        F32(self.0.max(other.0))
    }
    fn exceeds(&self, other: &F32) -> bool {
        self.0 > other.0
    }
}

fn floats(x: &[f32]) -> Vec<F32> {
    x.iter().map(|&v| F32(v)).collect()
}

fn texts(x: &[&str]) -> Vec<String> {
    x.iter().map(|s| s.to_string()).collect()
}

#[test]
fn texts_are_found() {
    for (text, needle) in
        [("", ""), ("abc", ""), ("abc", "bc"), ("abc", "abcd"), ("aab", "ab"), ("äöü", "ö"), ("", "x")]
    {
        assert_eq!(contains(text, needle), text.contains(needle));
    }
    assert!(any_contains(&texts(&["x", "yz"]), "z"));
    assert!(!any_contains(&texts(&[]), ""));
}

#[test]
fn greetings_are_checked() {
    let hello = texts(&["[0] Hello from GPU!"]);
    assert_eq!(check_hello(1, &hello), Finding::Passed);
    assert_eq!(check_hello(0, &hello), Finding::NoSuccess);
    assert_eq!(check_hello(1, &texts(&["Hello"])), Finding::WrongMessages);
    assert_eq!(check_hello(1, &texts(&["Hello from GPU!", "x"])), Finding::WrongMessages);
    assert_eq!(check_blocks(4, 4, 4), Finding::Passed);
    assert_eq!(check_blocks(3, 4, 4), Finding::NoSuccess);
    assert_eq!(check_blocks(4, 3, 4), Finding::WrongMessages);
    assert_eq!((packets_for(4), packets_for(32), packets_for(65537)), (8, 32, 8));
}

#[test]
fn marks_are_checked() {
    assert_eq!(check_marker(1), Finding::Passed);
    assert_eq!(check_marker(2), Finding::NoSuccess);
    assert_eq!(check_countdown(42, 1), Finding::Passed);
    assert_eq!(check_countdown(41, 1), Finding::WrongNumber);
    assert_eq!(check_countdown(42, 0), Finding::NoSuccess);
    assert_eq!(check_async_single(1, &texts(&["Async hello!"])), Finding::Passed);
    assert_eq!(check_async_single(1, &texts(&[])), Finding::WrongMessages);
    assert_eq!(check_async_single(0, &texts(&["Async hello!"])), Finding::NoSuccess);
    assert_eq!(check_async_two(1, 2), Finding::Passed);
    assert_eq!(check_async_two(1, 1), Finding::WrongMessages);
    assert_eq!(check_stdin(1, 17, 0x48), Finding::Passed);
    assert_eq!(check_stdin(1, 0, 0x48), Finding::WrongNumber);
    assert_eq!(check_stdin(0, 17, 0x48), Finding::NoSuccess);
    assert_eq!(check_time(5, 1_700_000_000), Finding::Passed);
    assert_eq!(check_time(0, 1_700_000_000), Finding::WrongNumber);
    assert_eq!(check_time(5, 1_699_999_999), Finding::WrongNumber);
}

#[test]
fn programs_are_checked() {
    let good = texts(&["[OK] write_all: 27 bytes", "[OK] read_to_end: 27 bytes", "[DONE] x"]);
    assert_eq!(check_file_io(&good), Finding::Passed);
    assert_eq!(check_file_io(&texts(&["[DONE]"])), Finding::WrongMessages);
    assert_eq!(check_file_io(&texts(&["[ERR] x", "[DONE]"])), Finding::ReportedError);
    assert_eq!(check_marks(&texts(&["[DONE] y"]), "[ERR]", "[DONE]"), Finding::Passed);
    assert_eq!(check_marks(&texts(&["y"]), "[ERR]", "[DONE]"), Finding::WrongMessages);
    assert_eq!(
        check_marks(&texts(&["[STDIN] FAIL"]), "[STDIN] FAIL", "[STDIN] PASS"),
        Finding::ReportedError
    );
    let two = texts(&["branch: then", "branch: done"]);
    assert!(check_branch(1, &two, "branch: then", "branch: done"));
    assert!(!check_branch(1, &two, "branch: else", "branch: done"));
    assert!(!check_branch(0, &two, "branch: then", "branch: done"));
    assert!(check_sequence(1, &texts(&["a 1/2", "b 2/2"]), &vec!["1/2", "2/2"]));
    assert!(!check_sequence(1, &texts(&["b 2/2", "a 1/2"]), &vec!["1/2", "2/2"]));
}

#[test]
fn words_are_compared() {
    assert_eq!(count_differing(&vec![1, 2, 3], &vec![1, 0, 0]), 2);
    assert_eq!(expected_sums(&(1..=10).collect()), (25, 30, 55));
    assert_eq!((hybrid_expected(0), hybrid_expected(31)), (1, 962));
    assert_eq!((stress_sum_expected(0), stress_sum_expected(1)), (1, 5151));
    let mut val: u32 = 0xDEAD_0000 | 3;
    for _ in 0..200 {
        val ^= val << 13;
        val ^= val >> 17;
        val ^= val << 5;
    }
    assert_eq!(stress_xorshift_expected(3), val);
    assert_eq!((swapped_expected(4), swapped_expected(5)), (6, 5));
}

#[test]
fn blocks_must_lie_apart() {
    assert_eq!(check_pointers(&vec![128, 64, 192]), Finding::Passed);
    assert_eq!(check_pointers(&vec![128, 64, 127]), Finding::WrongNumber);
    assert_eq!(check_pointers(&vec![128, 0, 64]), Finding::NoSuccess);
}

#[test]
fn test_matrices() {
    let striped = TestMatrix::StripedRows { striped: true };
    let columns = TestMatrix::StripedColumns { striped: true };
    assert_eq!(expected_product(striped, columns, 6, 9, 16), 3 * 10 * 16);
    assert_eq!(expected_product(TestMatrix::Identity, TestMatrix::Counting, 2, 3, 16), 20);
    assert_eq!(element(TestMatrix::PatternA, 1, 2), (7 + 6) % 5 + 1);
    assert_eq!(element(TestMatrix::PatternB, 1, 2), (11 + 26) % 7 + 1);
    let bits = build(TestMatrix::Counting, 2, 8);
    assert_eq!(bits.len(), 16);
    assert_eq!(f32::from_bits(bits[8 + 7]), 16.0);
    assert_eq!(mapped_expected(0, 0), 1);
    assert_eq!(mapped_expected(31, 3), (3 * 2 + 9) * 8 + 7 + 1);
    assert!(blocks_reported(24, 24) && !blocks_reported(23, 24));
}

#[test]
fn results_are_compared() {
    let want = floats(&[10.0, 0.0, -4.0]);
    let got = floats(&[10.5, 0.0, -4.0]);
    let c = compare_absolute(&got, &want, &F32(0.4));
    assert_eq!((c.mismatches, c.farthest.0), (1, 0.5));
    let c = compare_absolute(&got, &want, &F32(0.5));
    assert_eq!(c.mismatches, 0);
    let c = compare_relative(&got, &want, &F32(1e-6), &F32(0.01), &F32(0.1));
    assert_eq!((c.mismatches, c.farthest.0), (1, 0.05));
    let c = compare_relative(&got, &want, &F32(1e-6), &F32(0.01), &F32(1.0));
    assert_eq!(c.mismatches, 0);
    assert!(within(&got, &want, &F32(0.6)));
    assert!(!within(&got, &want, &F32(0.5)));
}

#[test]
fn distributions_are_checked() {
    let (sum_ok, ascends, at) = check_softmax(&floats(&[0.1, 0.2, 0.7]), &F32(0.01));
    assert!(sum_ok && ascends);
    assert_eq!(at, 2);
    let (sum_ok, ascends, at) = check_softmax(&floats(&[0.5, 0.2, 0.2]), &F32(0.01));
    assert!(!sum_ok && !ascends);
    assert_eq!(at, 0);
    assert_eq!(find_greatest(&floats(&[1.0, 3.0, 3.0])), 2);
    assert!(is_ascending(&floats(&[])));
    assert!(check_row_sums(&floats(&[0.5, 0.5, 0.25, 0.75]), 2, 2, &F32(0.01)));
    assert!(!check_row_sums(&floats(&[0.5, 0.5, 0.25, 0.7]), 2, 2, &F32(0.01)));
}
