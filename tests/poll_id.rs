use poll::poll_id::{encode_base64_u64, random_base64_u64, read_base64_u64, PollID};
use poll::poll_type::ParseError;

#[test]
fn test_poll_id() {
    let poll_id = PollID::new(12, 5732390254647088000);
    let encoded = poll_id.to_string();
    assert_eq!(&encoded, "12+gJMmqpCKjU8");
    let decoded = PollID::try_from(encoded.as_str());
    assert_eq!(decoded, Ok(poll_id));
}

#[test]
fn poll_id_parts() {
    let id = PollID::new(7, 99);
    assert_eq!(id.index(), 7);
    assert_eq!(id.randpart(), 99);
    assert_eq!(PollID::generate(41).index(), 41);
}

#[test]
fn poll_id_round_trips_extremes() {
    for (i, r) in [(0u64, 0u64), (u64::MAX, u64::MAX), (1, 1 << 63)] {
        let id = PollID::new(i, r);
        assert_eq!(PollID::try_from(id.to_string().as_str()), Ok(id));
    }
}

#[test]
fn poll_id_errors() {
    assert_eq!(PollID::try_from("12gJMmqpCKjU8"), Err(ParseError::PlusNotFound));
    assert_eq!(PollID::try_from("x+gJMmqpCKjU8"), Err(ParseError::InvalidNumber));
    assert_eq!(PollID::try_from("+gJMmqpCKjU8"), Err(ParseError::InvalidNumber));
    assert_eq!(PollID::try_from("18446744073709551616+AA"), Err(ParseError::InvalidNumber));
    assert_eq!(PollID::try_from("12+g!MmqpCKjU8"), Err(ParseError::InvalidBase64));
    assert_eq!(PollID::try_from("12+gJMmqpCKjU8AAAA"), Err(ParseError::InvalidBase64));
    assert_eq!(PollID::try_from("12+gJMmqpCKjU8é"), Err(ParseError::InvalidBase64));
}

#[test]
fn poll_id_index_text() {
    // an index is read as an unsigned decimal, which may carry a leading `+`
    let id = PollID::try_from("+12+gJMmqpCKjU8");
    assert_eq!(id, Err(ParseError::InvalidNumber));
    let id = PollID::try_from("012+gJMmqpCKjU8").unwrap();
    assert_eq!(id.index(), 12);
}

#[test]
fn base64_u64_encoding() {
    assert_eq!(encode_base64_u64(5732390254647088000), "gJMmqpCKjU8");
    assert_eq!(encode_base64_u64(0), "AAAAAAAAAAA");
    assert_eq!(read_base64_u64("gJMmqpCKjU8"), Ok(5732390254647088000));
    assert_eq!(read_base64_u64("AAAAAAAAAAA"), Ok(0));
    assert_eq!(read_base64_u64("@@"), Err(ParseError::InvalidBase64));
}

#[test]
fn random_tokens_are_eleven_characters() {
    let a = random_base64_u64();
    assert_eq!(a.len(), 11);
    assert!(read_base64_u64(&a).is_ok());
}
