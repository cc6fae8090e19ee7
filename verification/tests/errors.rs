use chunked_decoder::{hex_value, ChunkedCollectingDecoder, ChunkedDecoder, DecodeError};

fn feed_fresh(input: &str) -> (Result<(), DecodeError>, String) {
    let mut dec = ChunkedCollectingDecoder::new();
    let result = dec.decode_chunk(input);
    (result, dec.result().to_string())
}

#[test]
fn truncated_stream_is_not_finished() {
    let mut dec = ChunkedCollectingDecoder::new();
    assert_eq!(dec.decode_chunk("3\r\nabc"), Ok(()));
    assert!(!dec.is_done());
    assert_eq!(dec.finalize(), Err(DecodeError::NotFinished));
    assert_eq!(dec.result(), "abc");
}

#[test]
fn fresh_decoder_is_not_finished() {
    let decoder = ChunkedDecoder::new();
    assert!(!decoder.is_done());
    assert_eq!(decoder.finalize(), Err(DecodeError::NotFinished));
}

#[test]
fn stream_without_its_last_line_ending_is_not_finished() {
    let mut dec = ChunkedCollectingDecoder::new();
    assert_eq!(dec.decode_chunk("3\r\nabc\r\n0\r\n"), Ok(()));
    assert_eq!(dec.finalize(), Err(DecodeError::NotFinished));
    assert_eq!(dec.decode_chunk("\r"), Ok(()));
    assert_eq!(dec.finalize(), Err(DecodeError::NotFinished));
    assert_eq!(dec.decode_chunk("\n"), Ok(()));
    assert_eq!(dec.finalize(), Ok(()));
}

#[test]
fn invalid_hex_digit_in_size_is_rejected() {
    assert_eq!(feed_fresh("g\r\n"), (Err(DecodeError::InvalidChunkSize), String::new()));
    assert_eq!(feed_fresh("1g\r\n"), (Err(DecodeError::InvalidChunkSize), String::new()));
    assert_eq!(feed_fresh(" 1\r\n"), (Err(DecodeError::InvalidChunkSize), String::new()));
    assert_eq!(feed_fresh("\n"), (Err(DecodeError::InvalidChunkSize), String::new()));
    assert_eq!(feed_fresh("0x1\r\n"), (Err(DecodeError::InvalidChunkSize), String::new()));
    assert_eq!(feed_fresh("1;ext=1\r\n"), (Err(DecodeError::InvalidChunkSize), String::new()));
}

#[test]
fn empty_size_is_rejected() {
    assert_eq!(feed_fresh("\r\n"), (Err(DecodeError::EmptyChunkSize), String::new()));

    let mut dec = ChunkedCollectingDecoder::new();
    assert_eq!(dec.decode_chunk("1\r\na\r\n\r"), Ok(()));
    assert_eq!(dec.decode_chunk("\n"), Err(DecodeError::EmptyChunkSize));
    assert_eq!(dec.result(), "a");
}

#[test]
fn size_that_does_not_fit_is_rejected() {
    let digits = (usize::BITS / 4) as usize;

    let too_long = "f".repeat(digits + 1);
    assert_eq!(feed_fresh(&too_long), (Err(DecodeError::ChunkSizeOverflow), String::new()));

    let one_past = format!("1{}", "0".repeat(digits));
    assert_eq!(feed_fresh(&one_past), (Err(DecodeError::ChunkSizeOverflow), String::new()));

    let forty = "123456789abcdef0123456789abcdef012345678";
    assert_eq!(feed_fresh(forty), (Err(DecodeError::ChunkSizeOverflow), String::new()));
}

#[test]
fn largest_size_and_leading_zeros_fit() {
    let digits = (usize::BITS / 4) as usize;

    let mut dec = ChunkedCollectingDecoder::new();
    let largest = format!("{}\r\nab", "f".repeat(digits));
    assert_eq!(dec.decode_chunk(&largest), Ok(()));
    assert_eq!(dec.result(), "ab");
    assert!(!dec.is_done());

    let mut dec = ChunkedCollectingDecoder::new();
    let padded = format!("{}2\r\nab\r\n{}\r\n\r\n", "0".repeat(100), "0".repeat(100));
    assert_eq!(dec.decode_chunk(&padded), Ok(()));
    assert_eq!(dec.result(), "ab");
    assert!(dec.is_done());
}

#[test]
fn carriage_return_in_size_line_needs_its_line_feed() {
    assert_eq!(
        feed_fresh("1\rX"),
        (Err(DecodeError::ExpectedLfAfterCrInSizeLine), String::new())
    );
    assert_eq!(
        feed_fresh("1\r\r\n"),
        (Err(DecodeError::ExpectedLfAfterCrInSizeLine), String::new())
    );
    assert_eq!(
        feed_fresh("\r1"),
        (Err(DecodeError::ExpectedLfAfterCrInSizeLine), String::new())
    );

    let mut dec = ChunkedCollectingDecoder::new();
    assert_eq!(dec.decode_chunk("1\r"), Ok(()));
    assert_eq!(dec.decode_chunk("a"), Err(DecodeError::ExpectedLfAfterCrInSizeLine));
}

#[test]
fn payload_must_be_followed_by_a_line_ending() {
    assert_eq!(feed_fresh("1\r\naX"), (Err(DecodeError::ExpectedCrlf), "a".to_string()));
    assert_eq!(feed_fresh("1\r\na\n"), (Err(DecodeError::ExpectedCrlf), "a".to_string()));
    assert_eq!(feed_fresh("1\r\na\rX"), (Err(DecodeError::ExpectedCrlf), "a".to_string()));
    assert_eq!(feed_fresh("2\r\nab\r\r\n"), (Err(DecodeError::ExpectedCrlf), "ab".to_string()));
    assert_eq!(feed_fresh("3\r\nabcd\r\n"), (Err(DecodeError::ExpectedCrlf), "abc".to_string()));

    let mut dec = ChunkedCollectingDecoder::new();
    assert_eq!(dec.decode_chunk("1\r\na\r"), Ok(()));
    assert_eq!(dec.decode_chunk("\r"), Err(DecodeError::ExpectedCrlf));
}

#[test]
fn closing_size_line_must_be_followed_by_a_line_ending() {
    assert_eq!(feed_fresh("0\r\nX"), (Err(DecodeError::ExpectedCrlf), String::new()));
    assert_eq!(feed_fresh("0\r\n\rX"), (Err(DecodeError::ExpectedCrlf), String::new()));
    assert_eq!(feed_fresh("0\r\n0\r\n"), (Err(DecodeError::ExpectedCrlf), String::new()));
    assert_eq!(
        feed_fresh("0\r\nTrailer: x\r\n\r\n"),
        (Err(DecodeError::ExpectedCrlf), String::new())
    );
}

#[test]
fn non_ascii_fragment_is_rejected_whole() {
    let mut out = String::new();
    let mut decoder = ChunkedDecoder::new();
    assert_eq!(decoder.decode_chunk("4\r\nab", &mut out), Ok(()));
    assert_eq!(out, "ab");

    assert_eq!(
        decoder.decode_chunk("cd\r\n2\r\n\u{e9}", &mut out),
        Err(DecodeError::NonAsciiInput)
    );
    assert_eq!(out, "ab");
    assert!(!decoder.is_done());

    assert_eq!(decoder.decode_chunk("cd\r\n0\r\n\r\n", &mut out), Ok(()));
    assert_eq!(out, "abcd");
    assert!(decoder.is_done());
}

#[test]
fn non_ascii_is_rejected_even_after_the_closing_marker_of_the_same_fragment() {
    assert_eq!(
        feed_fresh("0\r\n\r\n\u{20ac}"),
        (Err(DecodeError::NonAsciiInput), String::new())
    );
    assert_eq!(feed_fresh("\u{80}"), (Err(DecodeError::NonAsciiInput), String::new()));
    assert_eq!(feed_fresh("1\r\n\u{7f}\r\n"), (Ok(()), "\u{7f}".to_string()));
}

#[test]
fn first_error_wins() {
    assert_eq!(feed_fresh("1\r\na\r\ng\r\n\r\n"), (Err(DecodeError::InvalidChunkSize), "a".to_string()));
    assert_eq!(feed_fresh("1\r\nab\r\n\r\n"), (Err(DecodeError::ExpectedCrlf), "a".to_string()));
}

#[test]
fn hex_value_of_every_byte() {
    for b in 0u8..=255 {
        let expected = match b {
            b'0'..=b'9' => Some(b - b'0'),
            b'a'..=b'f' => Some(b - b'a' + 10),
            b'A'..=b'F' => Some(b - b'A' + 10),
            _ => None,
        };
        assert_eq!(hex_value(b), expected);
    }
    assert_eq!(hex_value(b'0'), Some(0));
    assert_eq!(hex_value(b'9'), Some(9));
    assert_eq!(hex_value(b'a'), Some(10));
    assert_eq!(hex_value(b'f'), Some(15));
    assert_eq!(hex_value(b'A'), Some(10));
    assert_eq!(hex_value(b'F'), Some(15));
    assert_eq!(hex_value(b'/'), None);
    assert_eq!(hex_value(b':'), None);
    assert_eq!(hex_value(b'@'), None);
    assert_eq!(hex_value(b'G'), None);
    assert_eq!(hex_value(b'`'), None);
    assert_eq!(hex_value(b'g'), None);
    assert_eq!(hex_value(b'\r'), None);
}

#[test]
fn errors_describe_themselves() {
    assert_eq!(
        DecodeError::NonAsciiInput.message(),
        "Non-ASCII input is not supported (this repo assumes ASCII payload)."
    );
    assert_eq!(
        DecodeError::ExpectedLfAfterCrInSizeLine.message(),
        "Invalid chunked encoding: expected LF after CR in size line."
    );
    assert_eq!(DecodeError::EmptyChunkSize.message(), "Invalid chunk size: \"\"");
    assert_eq!(DecodeError::InvalidChunkSize.message(), "Invalid chunk size.");
    assert_eq!(DecodeError::ChunkSizeOverflow.message(), "Invalid chunk size (overflow).");
    assert_eq!(
        DecodeError::ExpectedCrlf.message(),
        "Invalid chunked encoding: expected CRLF."
    );
    assert_eq!(DecodeError::NotFinished.message(), "Chunked stream not finished.");
}

#[test]
fn errors_compare_and_copy() {
    let e = DecodeError::ExpectedCrlf;
    let f = e;
    assert_eq!(e, f.clone());
    assert_ne!(e, DecodeError::NotFinished);
    assert_eq!(format!("{:?}", e), "ExpectedCrlf");
}
