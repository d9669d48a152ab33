use sigrand::stream::is_delimiter_line;
use sigrand::{RecordStream, StreamStatus, ToSignatures};

fn sample_corpus() -> String {
    let mut corpus = String::new();
    for i in 0..675 {
        corpus.push_str(&format!("Quote number {i}\n    -- somebody, {i} times\n%%\n"));
    }
    corpus
}

#[test]
fn test_empty() {
    const EMPTY_FILE: &str = "";
    let sigs = ToSignatures::new(EMPTY_FILE.as_bytes()).collect();
    assert!(sigs.is_empty());
}

#[test]
fn test_single_signature() {
    const SINGLE_SIG: &str = "One\nTwo\n%%\n";
    let sigs = ToSignatures::new(SINGLE_SIG.as_bytes()).collect();
    assert_eq!(sigs[0], "One\nTwo\n");
}

#[test]
fn test_three_signatures() {
    const THREE_SIGS: &str = "One\n%%\nTwo\n%%\nThree\n%%\n";
    let sigs = ToSignatures::new(THREE_SIGS.as_bytes()).collect();
    assert_eq!(sigs, vec!["One\n", "Two\n", "Three\n"]);
}

#[test]
fn test_partial_single() {
    const PARTIAL_SINGLE: &str = "One\nTwo\n";
    let sigs = ToSignatures::new(PARTIAL_SINGLE.as_bytes()).collect();
    assert!(sigs.is_empty());
}

#[test]
fn test_partial_final() {
    const PARTIAL_FINAL: &str = "One\n%%\nTwo\n";
    let sigs = ToSignatures::new(PARTIAL_FINAL.as_bytes()).collect();
    assert_eq!(sigs, vec!["One\n"]);
}

#[test]
fn test_sigfile() {
    let corpus = sample_corpus();
    let sigs = ToSignatures::new(corpus.as_bytes()).collect();
    assert_eq!(675, sigs.len());
}

#[test]
fn single_record_is_the_only_one() {
    let sigs = ToSignatures::new("One\nTwo\n%%\n".as_bytes()).collect();
    assert_eq!(sigs, vec!["One\nTwo\n"]);
}

#[test]
fn stream_reports_how_it_ended() {
    let mut clean = ToSignatures::new("One\n%%\nTwo\n".as_bytes());
    assert_eq!(clean.status(), StreamStatus::Open);
    assert_eq!(clean.next(), Some(String::from("One\n")));
    assert_eq!(clean.status(), StreamStatus::Open);
    assert_eq!(clean.next(), None);
    assert_eq!(clean.status(), StreamStatus::Exhausted);
    assert_eq!(clean.next(), None);
    assert_eq!(clean.status(), StreamStatus::Exhausted);
}

#[test]
fn delimiter_without_line_feed_closes_nothing() {
    let mut stream = ToSignatures::new("One\n%%".as_bytes());
    assert_eq!(stream.collect(), Vec::<String>::new());
    assert_eq!(stream.status(), StreamStatus::Exhausted);
}

#[test]
fn delimiter_must_be_the_whole_line() {
    let corpus = "a%%\n %%\n%% \n%%%\n%\n%%\r\n%%\nnext\n%%\n";
    let sigs = ToSignatures::new(corpus.as_bytes()).collect();
    assert_eq!(sigs, vec!["a%%\n %%\n%% \n%%%\n%\n%%\r\n", "next\n"]);
}

#[test]
fn empty_records_are_records() {
    let sigs = ToSignatures::new("%%\n%%\nOne\n%%\n%%\n".as_bytes()).collect();
    assert_eq!(sigs, vec!["", "", "One\n", ""]);
}

#[test]
fn text_beyond_ascii_is_kept_byte_for_byte() {
    let corpus = "Grüße, 世界\n\t— «quoted» 🦀\n%%\n";
    let sigs = ToSignatures::new(corpus.as_bytes()).collect();
    assert_eq!(sigs, vec!["Grüße, 世界\n\t— «quoted» 🦀\n"]);
}

#[test]
fn undecodable_line_ends_the_stream() {
    let mut corpus: Vec<u8> = Vec::new();
    corpus.extend_from_slice(b"One\n%%\nTwo\n");
    corpus.extend_from_slice(&[0x66, 0xff, 0x0a]);
    corpus.extend_from_slice(b"%%\nThree\n%%\n");
    let mut stream = ToSignatures::new(&corpus);
    assert_eq!(stream.next(), Some(String::from("One\n")));
    assert_eq!(stream.status(), StreamStatus::Open);
    assert_eq!(stream.next(), None);
    assert_eq!(stream.status(), StreamStatus::Failed);
    assert_eq!(stream.next(), None);
    assert_eq!(stream.status(), StreamStatus::Failed);
}

#[test]
fn undecodable_tail_is_a_failure_not_an_end() {
    let corpus: Vec<u8> = vec![0x25, 0x25, 0x0a, 0xc3];
    let mut stream = ToSignatures::new(&corpus);
    assert_eq!(stream.collect(), vec![""]);
    assert_eq!(stream.status(), StreamStatus::Failed);
}

#[test]
fn character_split_by_a_line_feed_is_undecodable() {
    let corpus: Vec<u8> = vec![0xc3, 0x0a, 0xa9, 0x0a, 0x25, 0x25, 0x0a];
    let mut stream = ToSignatures::new(&corpus);
    assert_eq!(stream.collect(), Vec::<String>::new());
    assert_eq!(stream.status(), StreamStatus::Failed);
}

#[test]
fn records_and_delimiters_rebuild_the_complete_prefix() {
    let corpus = "One\n%%\n\nTwo\n  three\n%%\n%%\nThree\n";
    let sigs = ToSignatures::new(corpus.as_bytes()).collect();
    assert_eq!(sigs.len(), 3);
    let rebuilt = sigs.join("%%\n") + "%%\n";
    assert_eq!(rebuilt, "One\n%%\n\nTwo\n  three\n%%\n%%\n");
    assert!(corpus.starts_with(&rebuilt));
    assert_eq!(&corpus[rebuilt.len()..], "Three\n");
}

#[test]
fn large_corpus_round_trips() {
    let corpus = sample_corpus();
    let sigs = ToSignatures::new(corpus.as_bytes()).collect();
    let rebuilt = sigs.join("%%\n") + "%%\n";
    assert_eq!(rebuilt, corpus);
    assert_eq!(sigs[674], "Quote number 674\n    -- somebody, 674 times\n");
}

#[test]
fn delimiter_line_is_recognised_exactly() {
    assert!(is_delimiter_line("%%\n"));
    assert!(!is_delimiter_line("%%"));
    assert!(!is_delimiter_line("%%\r\n"));
    assert!(!is_delimiter_line(" %%\n"));
    assert!(!is_delimiter_line("%\n"));
    assert!(!is_delimiter_line("%%%\n"));
    assert!(!is_delimiter_line(""));
    assert!(!is_delimiter_line("\n"));
}

#[test]
fn accumulator_yields_a_record_at_each_delimiter() {
    let mut lines = RecordStream::new();
    assert_eq!(lines.status(), StreamStatus::Open);
    assert_eq!(lines.push_line("One\n"), None);
    assert_eq!(lines.push_line("Two\n"), None);
    assert_eq!(lines.push_line("%%\n"), Some(String::from("One\nTwo\n")));
    assert_eq!(lines.push_line("%%\n"), Some(String::new()));
    assert_eq!(lines.push_line("Three\n"), None);
    assert_eq!(lines.push_line("%%\n"), Some(String::from("Three\n")));
    assert_eq!(lines.status(), StreamStatus::Open);
}

#[test]
fn accumulator_drops_the_partial_record_at_the_end() {
    let mut lines = RecordStream::new();
    assert_eq!(lines.push_line("One\n"), None);
    lines.end_of_input();
    assert_eq!(lines.status(), StreamStatus::Exhausted);
    assert_eq!(lines.push_line("%%\n"), None);
    assert_eq!(lines.push_line("Two\n"), None);
    assert_eq!(lines.push_line("%%\n"), None);
    assert_eq!(lines.status(), StreamStatus::Exhausted);
    lines.read_failed();
    assert_eq!(lines.status(), StreamStatus::Exhausted);
}

#[test]
fn accumulator_stops_for_good_at_a_read_failure() {
    let mut lines = RecordStream::new();
    assert_eq!(lines.push_line("One\n"), None);
    lines.read_failed();
    assert_eq!(lines.status(), StreamStatus::Failed);
    assert_eq!(lines.push_line("%%\n"), None);
    lines.end_of_input();
    assert_eq!(lines.status(), StreamStatus::Failed);
}

#[test]
fn rebuilt_prefix_reads_back_to_the_same_records() {
    let mut corpus: Vec<u8> = Vec::new();
    corpus.extend_from_slice("One\n%%\n%%\nTwo\n%%\nThree\n".as_bytes());
    corpus.extend_from_slice(&[0xff, 0x0a]);
    corpus.extend_from_slice("%%\n".as_bytes());
    let mut stream = ToSignatures::new(&corpus);
    let sigs = stream.collect();
    assert_eq!(sigs, vec!["One\n", "", "Two\n"]);
    assert_eq!(stream.status(), StreamStatus::Failed);

    let rebuilt = sigs.join("%%\n") + "%%\n";
    assert_eq!(rebuilt.as_bytes(), &corpus[..rebuilt.len()]);
    let mut again = ToSignatures::new(rebuilt.as_bytes());
    assert_eq!(again.collect(), sigs);
    assert_eq!(again.status(), StreamStatus::Exhausted);
}

#[test]
fn reading_line_by_line_agrees_with_reading_the_corpus() {
    let corpus = "One\nTwo\n%%\n\n%%\n%%\nThree %%\n%%\nleft over";
    let mut lines = RecordStream::new();
    let mut pushed: Vec<String> = Vec::new();
    for line in corpus.split_inclusive('\n') {
        if let Some(record) = lines.push_line(line) {
            pushed.push(record);
        }
    }
    lines.end_of_input();
    assert_eq!(pushed, vec!["One\nTwo\n", "\n", "", "Three %%\n"]);
    assert_eq!(ToSignatures::new(corpus.as_bytes()).collect(), pushed);
}
