use vigilator::outputs::ModelOutput;
use vigilator::score::Score;
use vigilator::top_k::{top_k, DimensionMismatch};

fn scores(values: &[f32]) -> Vec<Score> {
    values.iter().map(|v| Score::from_bits(v.to_bits())).collect()
}

fn pairs(found: Vec<(u32, Score)>) -> Vec<(u32, f32)> {
    found.into_iter().map(|(id, s)| (id, f32::from_bits(s.to_bits()))).collect()
}

// Sorts a copy from the highest down and looks each score up by equality.
fn by_sorting(token_ids: &[u32], logits: &[f32], k: u64) -> Vec<(u32, f32)> {
    let mut sorted = logits.to_vec();
    sorted.sort_by(|a, b| b.partial_cmp(a).unwrap());
    let mut found = vec![];
    for top in sorted.iter().take(k as usize) {
        let at = logits.iter().position(|x| x == top).unwrap();
        found.push((token_ids[at], *top));
    }
    found
}

#[test]
fn test_get_top_token_logprob() {
    let token_ids = vec![1, 2, 3];
    let logits = vec![0.1f32, 0.2, 0.3];
    let text = "foo bar".to_string();

    let output = ModelOutput::new(text.clone(), token_ids.clone(), scores(&logits));
    vigilator::db::insert_row(&output).expect("Failed to insert output");

    let results = pairs(output.get_top_token_id(2).unwrap());
    assert_eq!(results.get(0).unwrap().1, 0.3);
    assert_eq!(results.get(0).unwrap().0, 3);

    assert_eq!(results.get(1).unwrap().1, 0.2);
    assert_eq!(results.get(1).unwrap().0, 2);
    assert_eq!(results.len(), 2);
}

#[test]
fn asking_for_more_than_there_is_gives_all() {
    let found = pairs(top_k(&vec![1, 2, 3], &scores(&[0.1, 0.2, 0.3]), 10).unwrap());
    assert_eq!(found, vec![(3, 0.3), (2, 0.2), (1, 0.1)]);
    let found = top_k(&vec![1, 2, 3], &scores(&[0.1, 0.2, 0.3]), u64::MAX).unwrap();
    assert_eq!(found.len(), 3);
    let found = top_k(&vec![1, 2, 3], &scores(&[0.1, 0.2, 0.3]), 3).unwrap();
    assert_eq!(found.len(), 3);
}

#[test]
fn asking_for_none_gives_none() {
    assert_eq!(top_k(&vec![1, 2, 3], &scores(&[0.1, 0.2, 0.3]), 0), Ok(vec![]));
    assert_eq!(top_k(&vec![], &scores(&[]), 5), Ok(vec![]));
}

#[test]
fn equal_scores_carry_the_token_of_the_first() {
    let found = pairs(top_k(&vec![10, 20, 30, 40], &scores(&[0.5, 0.9, 0.5, 0.1]), 4).unwrap());
    assert_eq!(found, vec![(20, 0.9), (10, 0.5), (10, 0.5), (40, 0.1)]);
}

#[test]
fn the_two_zeros_rank_alike_and_keep_their_places() {
    let found = top_k(&vec![7, 8, 9], &scores(&[-0.0, 1.0, 0.0]), 3).unwrap();
    let bits: Vec<(u32, u32)> = found.iter().map(|(id, s)| (*id, s.to_bits())).collect();
    assert_eq!(bits, vec![(8, 1.0f32.to_bits()), (7, (-0.0f32).to_bits()), (7, 0.0f32.to_bits())]);
}

#[test]
fn negative_scores_come_after_positive_ones() {
    let found = pairs(top_k(&vec![1, 2, 3, 4, 5], &scores(&[-1.5, 2.0, -0.25, 0.0, 1.0e-40]), 5).unwrap());
    assert_eq!(found, vec![(2, 2.0), (5, 1.0e-40), (4, 0.0), (3, -0.25), (1, -1.5)]);
}

#[test]
fn the_selection_agrees_with_sorting() {
    let mut state: u32 = 12345;
    for round in 0..40usize {
        let n = (round * 7) % 23;
        let mut token_ids = vec![];
        let mut logits = vec![];
        for i in 0..n {
            state = state.wrapping_mul(1664525).wrapping_add(1013904223);
            let pick = (state >> 24) % 9;
            logits.push((pick as f32 - 4.0) * 0.75);
            token_ids.push(1000 + i as u32);
        }
        for k in [0u64, 1, 2, 5, n as u64, n as u64 + 3] {
            let expected = by_sorting(&token_ids, &logits, k);
            let found = pairs(top_k(&token_ids, &scores(&logits), k).unwrap());
            assert_eq!(found.len(), expected.len());
            for (a, b) in found.iter().zip(expected.iter()) {
                assert_eq!(a.0, b.0);
                assert_eq!(a.1.to_bits(), b.1.to_bits());
            }
        }
    }
}

#[test]
fn sequences_of_different_length_are_refused() {
    assert_eq!(
        top_k(&vec![1, 2], &scores(&[0.1, 0.2, 0.3]), 2),
        Err(DimensionMismatch { token_ids: 2, scores: 3 })
    );
    assert_eq!(
        top_k(&vec![1, 2, 3], &scores(&[]), 0),
        Err(DimensionMismatch { token_ids: 3, scores: 0 })
    );
    let output = ModelOutput::new("t".to_string(), vec![1], scores(&[]));
    assert_eq!(
        output.get_top_token_id(1),
        Err(DimensionMismatch { token_ids: 1, scores: 0 })
    );
}

#[test]
fn rank_grows_with_the_number() {
    let values = [
        f32::NEG_INFINITY,
        f32::MIN,
        -2.5,
        -1.0e-40,
        -0.0,
        1.0e-45,
        0.1,
        0.2,
        0.3,
        1.0,
        f32::MAX,
        f32::INFINITY,
    ];
    for (i, a) in values.iter().enumerate() {
        for (j, b) in values.iter().enumerate() {
            let ra = Score::from_bits(a.to_bits()).ranked();
            let rb = Score::from_bits(b.to_bits()).ranked();
            assert_eq!(ra < rb, a < b, "{} {}", i, j);
            assert_eq!(ra == rb, a == b, "{} {}", i, j);
        }
    }
    assert_eq!(Score::from_bits(0).ranked(), 0);
    assert_eq!(Score::from_bits(0x8000_0000).ranked(), 0);
    assert_eq!(Score::from_bits(1).ranked(), 1);
    assert_eq!(Score::from_bits(0x8000_0001).ranked(), -1);
    assert_eq!(Score::from_bits(0x3f80_0000).ranked(), 0x3f80_0000);
    assert_eq!(Score::from_bits(u32::MAX).ranked(), -0x7fff_ffff);
}

#[test]
fn finite_is_what_the_float_says() {
    for v in [0.0f32, -0.0, 1.0, -1.0, f32::MAX, f32::MIN, 1.0e-45, f32::INFINITY, f32::NEG_INFINITY, f32::NAN] {
        assert_eq!(Score::from_bits(v.to_bits()).finite(), v.is_finite());
    }
    assert!(!Score::from_bits(0x7fc0_0001).finite());
    assert!(!Score::from_bits(0xffff_ffff).finite());
    assert!(Score::from_bits(0x7f7f_ffff).finite());
}
