use simple8b::{CodecError, Decoder};

#[test]
fn decoder_over_nothing_has_no_value() {
    let mut d = Decoder::new(Vec::new());
    assert_eq!(d.read(), Err(CodecError::DecoderExhausted));
    assert!(!d.next());
    assert_eq!(d.read(), Err(CodecError::DecoderExhausted));
    assert!(!d.next());
}

#[test]
fn decoder_has_no_value_before_the_first_next() {
    let d = Decoder::new(vec![0xF0, 0, 0, 0, 0, 0, 0, 9]);
    assert_eq!(d.read(), Err(CodecError::DecoderExhausted));
}

#[test]
fn decoder_reads_words_most_significant_byte_first() {
    let mut d = Decoder::new(vec![0xF1, 0x23, 0x45, 0x67, 0x89, 0xAB, 0xCD, 0xEF]);
    assert!(d.next());
    assert_eq!(d.read(), Ok(0x0123_4567_89AB_CDEF));
    assert_eq!(d.read(), Ok(0x0123_4567_89AB_CDEF));
    assert!(!d.next());
    assert_eq!(d.read(), Err(CodecError::DecoderExhausted));
}

#[test]
fn decoder_walks_through_the_values_of_every_word() {
    let mut bytes = vec![0xC0, 0x00, 0x80, 0x00, 0xC0, 0x01, 0x00, 0x01];
    bytes.extend_from_slice(&[0xE0, 0x00, 0x00, 0x00, 0x80, 0x00, 0x00, 0x03]);
    let mut d = Decoder::new(bytes);
    let mut got = Vec::new();
    while d.next() {
        got.push(d.read().unwrap());
    }
    assert_eq!(got, vec![1, 2, 3, 4, 3, 2]);
    assert!(!d.next());
    assert_eq!(d.read(), Err(CodecError::DecoderExhausted));
}

#[test]
fn decoder_leaves_out_a_broken_last_word() {
    let mut bytes = vec![0xF0, 0, 0, 0, 0, 0, 0, 9];
    bytes.extend_from_slice(&[0xF0, 0, 0, 0, 0, 0, 0]);
    let mut d = Decoder::new(bytes);
    assert!(d.next());
    assert_eq!(d.read(), Ok(9));
    assert!(!d.next());
    let mut d = Decoder::new(vec![0xF0, 0, 0]);
    assert!(!d.next());
}

#[test]
fn decoder_still_has_the_values_of_its_last_word_when_the_bytes_are_used_up() {
    let mut d = Decoder::new(vec![0u8; 8]);
    for _ in 0..240 {
        assert!(d.next());
        assert_eq!(d.read(), Ok(1));
    }
    assert_eq!(d.pos, 8);
    assert!(!d.next());
}

#[test]
fn set_bytes_starts_over() {
    let mut d = Decoder::new(vec![0xF0, 0, 0, 0, 0, 0, 0, 9]);
    assert!(d.next());
    assert_eq!(d.read(), Ok(9));
    d.set_bytes(vec![0xE0, 0x00, 0x00, 0x00, 0x80, 0x00, 0x00, 0x03]);
    assert_eq!(d.read(), Err(CodecError::DecoderExhausted));
    assert!(d.next());
    assert_eq!(d.read(), Ok(3));
    assert!(d.next());
    assert_eq!(d.read(), Ok(2));
    assert!(!d.next());
}
