use chunked_decoder::{ChunkedDecoder, PayloadSink};

fn runs_of(fragments: &[&str]) -> Vec<String> {
    let mut runs: Vec<String> = Vec::new();
    let mut decoder = ChunkedDecoder::new();
    for fragment in fragments {
        decoder.decode_chunk(fragment, &mut runs).unwrap();
    }
    runs
}

#[test]
fn each_payload_in_a_fragment_is_one_run() {
    assert_eq!(
        runs_of(&["5\r\nhello\r\n3\r\nabc\r\n1\r\n!\r\n0\r\n\r\n"]),
        vec!["hello".to_string(), "abc".to_string(), "!".to_string()]
    );
}

#[test]
fn a_payload_cut_by_fragments_comes_in_one_run_for_each() {
    assert_eq!(
        runs_of(&["5\r\nhe", "l", "lo\r\n3\r\na", "bc\r\n0\r\n\r\n"]),
        vec![
            "he".to_string(),
            "l".to_string(),
            "lo".to_string(),
            "a".to_string(),
            "bc".to_string()
        ]
    );
}

#[test]
fn no_run_is_empty() {
    assert_eq!(runs_of(&["3\r\n", "", "abc", "\r\n", "0\r\n\r\n"]), vec!["abc".to_string()]);
    assert_eq!(runs_of(&["0\r\n\r\n"]), Vec::<String>::new());
    assert_eq!(runs_of(&["3", "\r", "\n"]), Vec::<String>::new());
}

#[test]
fn runs_before_an_error_are_handed_out() {
    let mut runs: Vec<String> = Vec::new();
    let mut decoder = ChunkedDecoder::new();
    assert!(decoder.decode_chunk("2\r\nab\r\n1\r\nc\r\nzz", &mut runs).is_err());
    assert_eq!(runs, vec!["ab".to_string(), "c".to_string()]);
}

#[test]
fn line_endings_inside_a_payload_stay_in_its_run() {
    assert_eq!(
        runs_of(&["5\r\n0\r\n\r\n\r\n", "2\r\n\r\n\r\n0\r\n\r\n"]),
        vec!["0\r\n\r\n".to_string(), "\r\n".to_string()]
    );
}

#[test]
fn string_sink_appends_and_vector_sink_pushes() {
    let mut text = String::from("so far: ");
    text.on_data("one");
    text.on_data("two");
    assert_eq!(text, "so far: onetwo");

    let mut runs = vec!["zero".to_string()];
    runs.on_data("one");
    runs.on_data("two");
    assert_eq!(runs, vec!["zero".to_string(), "one".to_string(), "two".to_string()]);
}

struct Counter {
    calls: usize,
    characters: usize,
}

impl PayloadSink for Counter {
    type Model = ();

    fn on_data(&mut self, run: &str) {
        self.calls += 1;
        self.characters += run.len();
    }
}

#[test]
fn a_sink_of_the_caller_sees_every_run() {
    let mut counter = Counter { calls: 0, characters: 0 };
    let mut decoder = ChunkedDecoder::new();
    for fragment in ["4\r\nab", "cd\r\n2\r\nef\r", "\n0\r\n\r\n"] {
        decoder.decode_chunk(fragment, &mut counter).unwrap();
    }
    decoder.finalize().unwrap();
    assert_eq!(counter.calls, 3);
    assert_eq!(counter.characters, 6);
}
