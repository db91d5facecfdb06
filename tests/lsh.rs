use hamming_lsh::{
    hamming_distance, hamming_peturb, hash, nearest, HammingCode, HammingLSH, HammingTable,
};

#[test]
fn test_hamming_distance() {
    assert_eq!(hamming_distance(0, u128::MAX), 128);
    assert_eq!(hamming_distance(0b101u128, 0b011u128), 2);
}

#[test]
fn test_hash() {
    assert_eq!(hash(&[0b01u128], 0b1u128), 1);
    assert_eq!(hash(&[0b10u128], 0b1u128), 0);
    assert_eq!(hash(&[0b01u128, 0b10u128], 0b10u128), 0b10);
    assert_eq!(hash(&[1u128 << 127], 1u128 << 127), 1);
}

#[test]
fn test_nearest() {
    assert_eq!(
        nearest(&[Some((0b110, 0)), Some((0b001, 1))], 0b001),
        Some((0b001, 1))
    );
    assert_eq!(nearest::<u32>(&[None], 0b001), None);
}

#[test]
fn distance_is_symmetric_zero_on_self_and_bounded() {
    let codes: [HammingCode; 4] = [0, u128::MAX, 0xDEAD_BEEF, 1u128 << 127 | 5];
    for &a in codes.iter() {
        assert_eq!(hamming_distance(a, a), 0);
        for &b in codes.iter() {
            assert_eq!(hamming_distance(a, b), hamming_distance(b, a));
            assert!(hamming_distance(a, b) <= 128);
        }
    }
    assert_eq!(hamming_distance(0xF0, 0x0F), 8);
    assert_eq!(hamming_distance(1u128 << 127, 0), 1);
}

#[test]
fn perturb_flips_exactly_the_requested_count() {
    let codes: [HammingCode; 3] = [0, u128::MAX, 0x0123_4567_89AB_CDEF_0123_4567_89AB_CDEF];
    for &c in codes.iter() {
        for n in [0u32, 1, 4, 37, 64, 127, 128] {
            assert_eq!(hamming_distance(c, hamming_peturb(c, n)), n);
        }
    }
    assert_eq!(hamming_peturb(0, 128), u128::MAX);
    assert_eq!(hamming_peturb(42, 0), 42);
}

#[test]
fn perturb_positions_are_random() {
    let first = hamming_peturb(0, 4);
    let mut differs = false;
    for _ in 0..50 {
        if hamming_peturb(0, 4) != first {
            differs = true;
        }
    }
    assert!(differs);
}

#[test]
fn tables_sample_different_positions() {
    // With positions fixed, every table would file code 1 in the same bucket.
    let mut buckets = Vec::new();
    for _ in 0..40 {
        let t: HammingTable<usize> = HammingTable::new(4);
        buckets.push(t.hash(1));
    }
    assert!(buckets.iter().any(|&h| h != buckets[0]));
}

#[test]
fn hash_is_stable_across_calls_and_inserts() {
    let mut t: HammingTable<usize> = HammingTable::new(8);
    let code: HammingCode = 0x1234_5678_9ABC_DEF0_1234_5678_9ABC_DEF0;
    let h = t.hash(code);
    assert_eq!(t.hash(code), h);
    assert!(h < 256);
    t.insert(code, 0);
    t.insert(!code, 1);
    assert_eq!(t.hash(code), h);
}

#[test]
fn hash_with_no_planes_is_zero() {
    assert_eq!(hash(&[], u128::MAX), 0);
    assert_eq!(hash(&[0b11u128], 0b10u128), 1);
    assert_eq!(hash(&[0b100u128, 0b1u128, 0b10u128], 0b110u128), 0b101);
}

#[test]
fn single_bucket_table_returns_a_member_whatever_the_query() {
    let mut t: HammingTable<u32> = HammingTable::new(0);
    assert_eq!(t.get(0), None);
    assert_eq!(t.get(u128::MAX), None);
    let entries: [(HammingCode, u32); 3] = [(0b1, 10), (u128::MAX, 20), (0xFF00, 30)];
    for &(c, p) in entries.iter() {
        t.insert(c, p);
    }
    for q in [0u128, u128::MAX, 0xFF0F, 1u128 << 100] {
        assert_eq!(t.hash(q), 0);
        let r = t.get(q).unwrap();
        assert!(entries.contains(&r));
    }
    assert_eq!(t.get(0xFF0F), Some((0xFF00, 30)));
    assert_eq!(t.get(u128::MAX - 1), Some((u128::MAX, 20)));
}

#[test]
fn equal_distances_go_to_the_first_inserted() {
    let mut t: HammingTable<u32> = HammingTable::new(0);
    let a: HammingCode = 0b0011;
    let b: HammingCode = 0b1100;
    let q: HammingCode = 0b0110;
    assert_eq!(hamming_distance(a, q), hamming_distance(b, q));
    t.insert(a, 1);
    t.insert(b, 2);
    assert_eq!(t.get(q), Some((a, 1)));

    let mut u: HammingTable<u32> = HammingTable::new(0);
    u.insert(b, 2);
    u.insert(a, 1);
    assert_eq!(u.get(q), Some((b, 2)));
}

#[test]
fn nearest_first_wins_ties_and_skips_empty() {
    assert_eq!(
        nearest(&[None, Some((0b11u128, 'x')), Some((0b1100u128, 'y')), None], 0b0110),
        Some((0b11, 'x'))
    );
    assert_eq!(nearest::<u8>(&[], 0), None);
    assert_eq!(nearest(&[None, Some((5u128, 1u8))], 0), Some((5, 1)));
}

#[test]
fn index_scenario_exact_match() {
    let mut lsh = HammingLSH::new(4, 2);
    lsh.insert(0x00, "a");
    lsh.insert(0xFFu128 << 120, "b");
    lsh.insert(0x0Fu128 << 120, "c");
    let (code, payload) = lsh.get(0x00).unwrap();
    assert_eq!(code, 0);
    assert_eq!(*payload, "a");
    assert_eq!(hamming_distance(code, 0x00), 0);
}

#[test]
fn empty_index_finds_nothing() {
    let lsh: HammingLSH<u32> = HammingLSH::new(4, 3);
    assert!(lsh.get(0).is_none());
    let mut none: HammingLSH<u32> = HammingLSH::new(4, 0);
    none.insert(7, 7);
    assert!(none.get(7).is_none());
}

#[test]
fn brute_force_index_finds_the_nearest() {
    let mut lsh = HammingLSH::new(0, 3);
    let codes: [HammingCode; 4] = [0, 0xFFFF, 0xFF, u128::MAX];
    for (i, &c) in codes.iter().enumerate() {
        lsh.insert(c, i);
    }
    let (c, p) = lsh.get(0x7F).unwrap();
    assert_eq!((c, *p), (0xFF, 2));
    let (c, p) = lsh.get(u128::MAX - 3).unwrap();
    assert_eq!((c, *p), (u128::MAX, 3));
}

#[test]
fn index_is_no_worse_than_its_best_table() {
    // Every table of a k = 0 index sees all entries, so the result is the true nearest.
    let mut lsh = HammingLSH::new(0, 2);
    let mut all = Vec::new();
    for i in 0..200usize {
        let c: HammingCode = rand::random();
        lsh.insert(c, i);
        all.push(c);
    }
    for _ in 0..20 {
        let q: HammingCode = rand::random();
        let best = all.iter().map(|&c| hamming_distance(c, q)).min().unwrap();
        let (c, _) = lsh.get(q).unwrap();
        assert_eq!(hamming_distance(c, q), best);
    }
}

fn match_rate(k: u32, l: u32, codes: &[HammingCode], f: u32) -> f64 {
    let mut lsh = HammingLSH::new(k, l);
    for (i, &c) in codes.iter().enumerate() {
        lsh.insert(c, i);
    }
    let mut hits = 0usize;
    for (i, &c) in codes.iter().enumerate() {
        if let Some((_, p)) = lsh.get(hamming_peturb(c, f)) {
            if *p == i {
                hits += 1;
            }
        }
    }
    hits as f64 / codes.len() as f64
}

#[test]
fn recall_is_high_for_small_noise_and_low_near_half() {
    let codes: Vec<HammingCode> = (0..1000).map(|_| rand::random()).collect();
    let near = match_rate(8, 4, &codes, 4);
    let far = match_rate(8, 4, &codes, 64);
    assert!(near > 0.5);
    assert!(far < 0.2);
    assert!(near > far);
}
