use bernoulli_numbers::factorial;
use bernoulli_numbers::EulerUpDown;
use bernoulli_numbers::EvenBernoulli;
use num_bigint::BigInt;
use num_rational::BigRational;

fn ratio(n: i64, d: i64) -> BigRational {
    BigRational::new(BigInt::from(n), BigInt::from(d))
}

fn first_bernoulli_terms(count: usize) -> Vec<BigRational> {
    let mut seq = EvenBernoulli::default();
    let mut out = Vec::new();
    for _ in 0..count {
        out.push(seq.next().unwrap());
    }
    out
}

#[test]
fn zigzag_canonical_prefix() {
    let mut seq = EulerUpDown::default();
    let expected: [u64; 10] = [1, 1, 1, 2, 5, 16, 61, 272, 1385, 7936];
    for want in expected {
        assert_eq!(seq.next().unwrap(), BigInt::from(want));
    }
}

#[test]
fn zigzag_bulk_matches_canonical_prefix() {
    let mut seq = EulerUpDown::default();
    let got = seq.next_terms(8);
    let expected: [u64; 8] = [1, 1, 1, 2, 5, 16, 61, 272];
    assert_eq!(got.len(), 8);
    for (g, want) in got.iter().zip(expected) {
        assert_eq!(*g, BigInt::from(want));
    }
}

#[test]
fn bernoulli_canonical_prefix() {
    let got = first_bernoulli_terms(8);
    let expected = [
        ratio(1, 1),
        ratio(1, 6),
        ratio(-1, 30),
        ratio(1, 42),
        ratio(-1, 30),
        ratio(5, 66),
        ratio(-691, 2730),
        ratio(7, 6),
    ];
    assert_eq!(got, expected);
}

#[test]
fn bernoulli_terms_are_reduced() {
    let got = first_bernoulli_terms(8);
    assert_eq!(*got[1].numer(), BigInt::from(1));
    assert_eq!(*got[1].denom(), BigInt::from(6));
    assert_eq!(*got[6].numer(), BigInt::from(-691));
    assert_eq!(*got[6].denom(), BigInt::from(2730));
}

#[test]
fn zigzag_deterministic_across_instances() {
    let mut a = EulerUpDown::default();
    let mut b = EulerUpDown::default();
    for _ in 0..20 {
        assert_eq!(a.next().unwrap(), b.next().unwrap());
    }
}

#[test]
fn bernoulli_deterministic_across_instances() {
    let mut a = EvenBernoulli::default();
    let mut b = EvenBernoulli::default();
    for _ in 0..15 {
        assert_eq!(a.next().unwrap(), b.next().unwrap());
    }
}

#[test]
fn zigzag_resumable_one_at_a_time_equals_bulk() {
    let mut bulk = EulerUpDown::default();
    let all = bulk.next_terms(12);
    let mut step = EulerUpDown::default();
    let mut concatenated = Vec::new();
    for _ in 0..12 {
        concatenated.push(step.next().unwrap());
    }
    assert_eq!(all, concatenated);
}

#[test]
fn zigzag_resumable_split_batches() {
    let mut split = EulerUpDown::default();
    let mut got = split.next_terms(5);
    got.extend(split.next_terms(7));
    let mut bulk = EulerUpDown::default();
    assert_eq!(got, bulk.next_terms(12));
}

#[test]
fn bernoulli_resumable_one_at_a_time_equals_bulk() {
    let mut bulk = EvenBernoulli::default();
    let all = bulk.next_terms(10);
    let mut step = EvenBernoulli::default();
    let mut concatenated = Vec::new();
    for _ in 0..10 {
        concatenated.push(step.next().unwrap());
    }
    assert_eq!(all, concatenated);
}

#[test]
fn bernoulli_resumable_split_batches() {
    let mut split = EvenBernoulli::default();
    let mut got = split.next_terms(4);
    got.extend(split.next_terms(6));
    let mut bulk = EvenBernoulli::default();
    assert_eq!(got, bulk.next_terms(10));
}

#[test]
fn bernoulli_numerator_signs_alternate_in_scenario() {
    let got = first_bernoulli_terms(8);
    let signs: Vec<i32> = got
        .iter()
        .map(|q| {
            let zero = BigInt::from(0u64);
            if *q.numer() > zero {
                1
            } else if *q.numer() < zero {
                -1
            } else {
                0
            }
        })
        .collect();
    assert_eq!(signs, vec![1, 1, -1, 1, -1, 1, -1, 1]);
    for pair in signs[1..].windows(2) {
        assert_eq!(pair[0] * pair[1], -1);
    }
}

#[test]
fn bernoulli_exact_reconstruction() {
    let got = first_bernoulli_terms(10);
    for q in &got {
        let numer = q.numer().clone();
        let denom = q.denom().clone();
        let rebuilt = BigRational::new(numer.clone(), denom.clone());
        assert_eq!(rebuilt, *q);
        let scaled = &rebuilt * BigRational::from_integer(denom);
        assert_eq!(scaled, BigRational::from_integer(numer));
    }
}

#[test]
fn factorial_small_values() {
    let expected: [(u64, u64); 8] =
        [(0, 1), (1, 1), (2, 2), (3, 6), (4, 24), (5, 120), (6, 720), (7, 5040)];
    for (input, want) in expected {
        assert_eq!(factorial(&BigInt::from(input)), BigInt::from(want));
    }
}

#[test]
fn factorial_large_value_is_exact() {
    let got = factorial(&BigInt::from(25u64));
    let want: BigInt = "15511210043330985984000000".parse().unwrap();
    assert_eq!(got, want);
}

#[test]
fn bulk_of_zero_terms_is_empty_and_does_not_advance() {
    let mut zig = EulerUpDown::default();
    assert!(zig.next_terms(0).is_empty());
    assert_eq!(zig.next().unwrap(), BigInt::from(1u64));
    let mut bern = EvenBernoulli::default();
    assert!(bern.next_terms(0).is_empty());
    assert_eq!(bern.next().unwrap(), ratio(1, 1));
}

#[test]
fn bernoulli_term_after_scenario_prefix() {
    let got = first_bernoulli_terms(9);
    assert_eq!(got[8], ratio(-3617, 510));
}
