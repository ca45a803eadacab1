use cram_codec::model::Model;

#[test]
fn test_new_model() {
    let model = Model::new(3);
    assert_eq!(model.symbols, vec![0, 1, 2, 3]);
    assert_eq!(model.frequencies, vec![1, 1, 1, 1]);
    assert_eq!(model.total_freq, 4);
}

#[test]
fn test_decode_selects_by_cumulative_window() {
    // frequencies [1, 1, 1]: window 0 is [0, 1), 1 is [1, 2), 2 is [2, 3)
    let mut model = Model::new(2);
    let (sym, acc, freq) = model.decode(1);
    assert_eq!((sym, acc, freq), (1, 1, 1));
    // the decoded slot grew and bubbled one slot forward
    assert_eq!(model.symbols, vec![1, 0, 2]);
    assert_eq!(model.frequencies, vec![17, 1, 1]);
    assert_eq!(model.total_freq, 19);
}

#[test]
fn test_symbols_stay_a_permutation() {
    let mut model = Model::new(4);
    for i in 0..1000u32 {
        let freq = i % model.total_freq;
        model.decode(freq);
    }
    let mut seen = model.symbols.clone();
    seen.sort();
    assert_eq!(seen, vec![0, 1, 2, 3, 4]);
}

#[test]
fn test_total_always_equals_frequency_sum() {
    let mut model = Model::new(7);
    for i in 0..5000u32 {
        let freq = (i * 31) % model.total_freq;
        model.decode(freq);
        let sum: u32 = model.frequencies.iter().sum();
        assert_eq!(model.total_freq, sum);
        assert!(model.frequencies.iter().all(|&f| f >= 1));
    }
}

#[test]
fn test_renormalize_halves_up_and_keeps_the_sum() {
    // alphabet 0..=2, all frequencies one, total three; decoding slot zero
    // grows the total by sixteen per step, so the cap at 65519 falls after
    // 4095 steps
    let mut model = Model::new(2);
    for _ in 0..4095u32 {
        model.decode(0);
    }
    // the renormalization halved every frequency upward
    assert!(model.total_freq <= 65519);
    let sum: u32 = model.frequencies.iter().sum();
    assert_eq!(model.total_freq, sum);
    assert!(model.frequencies.iter().all(|&f| f >= 1));
}
