use sigrand::reservoir::{DRAW_BITS, DRAW_SCALE};
use sigrand::{accepts, select_signature, ReservoirSelector, StreamStatus, ToSignatures};

/// Random bits whose 53 leading bits are `numerator`.
fn bits_for(numerator: u64) -> u64 {
    numerator << 11
}

fn sample_corpus() -> String {
    let mut corpus = String::new();
    for i in 0..675 {
        corpus.push_str(&format!("Quote number {i}\n    -- somebody, {i} times\n%%\n"));
    }
    corpus
}

#[test]
fn test_select_signature() {
    let corpus = sample_corpus();
    let mut stream = ToSignatures::new(corpus.as_bytes());
    let sig = select_signature(&mut stream).unwrap();
    assert!(!sig.is_empty());
    assert!(!sig.contains("%%"));
    assert!(corpus.contains(&sig));
}

#[test]
fn draw_scale_is_two_to_the_draw_bits() {
    assert_eq!(DRAW_BITS, 53);
    assert_eq!(DRAW_SCALE, 1u64 << 53);
    assert_eq!(DRAW_SCALE, 9_007_199_254_740_992);
}

#[test]
fn first_record_is_always_taken() {
    assert!(accepts(1, 0));
    assert!(accepts(1, 1));
    assert!(accepts(1, u64::MAX));
    assert!(accepts(1, bits_for(DRAW_SCALE - 1)));
}

#[test]
fn second_record_is_taken_by_the_lower_half_of_the_draws() {
    assert!(accepts(2, 0));
    assert!(accepts(2, bits_for((1 << 52) - 1)));
    assert!(accepts(2, bits_for((1 << 52) - 1) | 0x7ff));
    assert!(!accepts(2, bits_for(1 << 52)));
    assert!(!accepts(2, 1 << 63));
    assert!(!accepts(2, u64::MAX));
}

#[test]
fn third_record_is_taken_up_to_a_third_of_the_scale() {
    assert!(accepts(3, bits_for(3_002_399_751_580_330)));
    assert!(!accepts(3, bits_for(3_002_399_751_580_331)));
}

#[test]
fn comparison_with_one_is_strict() {
    assert!(!accepts(4, bits_for(1 << 51)));
    assert!(accepts(4, bits_for((1 << 51) - 1)));
    assert!(!accepts(1 << 53, bits_for(1)));
    assert!(accepts((1 << 53) - 1, bits_for(1)));
}

#[test]
fn low_bits_of_a_draw_do_not_count() {
    assert_eq!(accepts(7, bits_for(12345)), accepts(7, bits_for(12345) | 0x7ff));
    assert!(accepts(u64::MAX, 0x7ff));
    assert!(!accepts(u64::MAX, 0x800));
}

#[test]
fn zero_draw_takes_any_record() {
    assert!(accepts(u64::MAX, 0));
    assert!(accepts(1_000_000, 0));
}

#[test]
fn selector_without_records_is_empty() {
    let selector = ReservoirSelector::new();
    assert_eq!(selector.seen(), 0);
    assert_eq!(selector.finish(), None);
}

#[test]
fn selector_keeps_the_last_accepted_record() {
    let mut selector = ReservoirSelector::new();
    selector.consider(String::from("One\n"), u64::MAX);
    assert_eq!(selector.seen(), 1);
    selector.consider(String::from("Two\n"), bits_for((1 << 52) - 1));
    selector.consider(String::from("Three\n"), bits_for(3_002_399_751_580_331));
    selector.consider(String::from("Four\n"), u64::MAX);
    assert_eq!(selector.seen(), 4);
    assert_eq!(selector.finish(), Some(String::from("Two\n")));
}

#[test]
fn selector_keeps_the_first_record_when_no_later_draw_is_low() {
    let mut selector = ReservoirSelector::new();
    selector.consider(String::from("One\n"), u64::MAX);
    selector.consider(String::from("Two\n"), 1 << 63);
    selector.consider(String::from("Three\n"), u64::MAX);
    assert_eq!(selector.finish(), Some(String::from("One\n")));
}

#[test]
fn selector_takes_the_last_record_on_a_zero_draw() {
    let mut selector = ReservoirSelector::new();
    selector.consider(String::from("One\n"), 0);
    selector.consider(String::from("Two\n"), 0);
    selector.consider(String::from("Three\n"), 0);
    assert_eq!(selector.finish(), Some(String::from("Three\n")));
}

#[test]
fn offered_record_is_counted_and_one_record_is_held() {
    let mut selector = ReservoirSelector::new();
    selector.offer(String::from("One\n"));
    assert_eq!(selector.seen(), 1);
    selector.offer(String::from("Two\n"));
    assert_eq!(selector.seen(), 2);
    let chosen = selector.finish().unwrap();
    assert!(chosen == "One\n" || chosen == "Two\n");
}

#[test]
fn sole_offered_record_is_chosen() {
    let mut selector = ReservoirSelector::new();
    selector.offer(String::from("Only\n"));
    assert_eq!(selector.finish(), Some(String::from("Only\n")));
}

#[test]
fn nothing_is_selected_from_an_empty_corpus() {
    let mut stream = ToSignatures::new("".as_bytes());
    assert_eq!(select_signature(&mut stream), None);
    assert_eq!(stream.status(), StreamStatus::Exhausted);
}

#[test]
fn nothing_is_selected_from_unterminated_text() {
    let mut stream = ToSignatures::new("One\nTwo\n".as_bytes());
    assert_eq!(select_signature(&mut stream), None);
    assert_eq!(stream.status(), StreamStatus::Exhausted);
}

#[test]
fn sole_record_is_always_selected() {
    for _ in 0..100 {
        let mut stream = ToSignatures::new("One\nTwo\n%%\nrest".as_bytes());
        assert_eq!(select_signature(&mut stream), Some(String::from("One\nTwo\n")));
        assert_eq!(stream.status(), StreamStatus::Exhausted);
    }
}

#[test]
fn selection_spends_the_stream_and_keeps_its_failure() {
    let corpus: Vec<u8> = vec![0x41, 0x0a, 0x25, 0x25, 0x0a, 0xff, 0x0a, 0x25, 0x25, 0x0a];
    let mut stream = ToSignatures::new(&corpus);
    assert_eq!(select_signature(&mut stream), Some(String::from("A\n")));
    assert_eq!(stream.status(), StreamStatus::Failed);
    assert_eq!(stream.next(), None);
}

#[test]
fn selection_starts_where_the_stream_stands() {
    let mut stream = ToSignatures::new("One\n%%\nTwo\n%%\n".as_bytes());
    assert_eq!(stream.next(), Some(String::from("One\n")));
    assert_eq!(select_signature(&mut stream), Some(String::from("Two\n")));
    assert_eq!(select_signature(&mut stream), None);
}

#[test]
fn every_record_is_selected_about_equally_often() {
    let corpus = "One\n%%\nTwo\n%%\nThree\n%%\nFour\n%%\n";
    let names = ["One\n", "Two\n", "Three\n", "Four\n"];
    let mut counts = [0u32; 4];
    let trials = 40_000;
    for _ in 0..trials {
        let mut stream = ToSignatures::new(corpus.as_bytes());
        let chosen = select_signature(&mut stream).unwrap();
        let index = names.iter().position(|name| *name == chosen).unwrap();
        counts[index] += 1;
    }
    assert_eq!(counts.iter().sum::<u32>(), trials);
    for count in counts {
        assert!(count > 9_300 && count < 10_700, "count {count} is far from 10000");
    }
}

#[test]
fn offering_with_fresh_draws_is_about_uniform() {
    let mut first = 0u32;
    let trials = 20_000;
    for _ in 0..trials {
        let mut selector = ReservoirSelector::new();
        selector.offer(String::from("a"));
        selector.offer(String::from("b"));
        if selector.finish().unwrap() == "a" {
            first += 1;
        }
    }
    assert!(first > 9_400 && first < 10_600, "count {first} is far from 10000");
}
