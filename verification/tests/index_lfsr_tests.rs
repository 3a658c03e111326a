use neptun::index_lfsr::IndexLfsr;
use std::collections::HashSet;

#[test]
fn emitted_indices_do_not_repeat() {
    let mut lfsr = IndexLfsr::default();
    let mut seen = HashSet::new();
    for _ in 0..10_000 {
        match lfsr.try_next() {
            Some(v) => {
                assert!(v <= 0xffffff);
                assert!(seen.insert(v), "index repeated before wrap-around");
            }
            None => break,
        }
    }
}

#[test]
fn random_index_is_nonzero_24_bit() {
    for _ in 0..100 {
        let v = IndexLfsr::random_index();
        assert!(v > 0 && v <= 0xffffff);
    }
}
