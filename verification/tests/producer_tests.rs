use brahmaputra::codec::{ByteBuff, CodecError, Endianness};
use brahmaputra::producer::{producer_decode_msg, Producer, PRODUCER_MSG_CODE};
use brahmaputra::select_partition::select_partition;

fn test_producer() -> Producer {
    Producer {
        servers: "localhost:9092".to_string(),
        acks: Some("all".to_string()),
        compression_type: Some("lz4".to_string()),
        max_buffer_size: Some(1000),
        pool: Some(1),
        ..Default::default()
    }
}

#[test]
fn push_frame_decodes_to_its_fields_end_to_end() {
    // one push against a pool of size 1: exactly one outbound frame whose
    // decoded fields are the topic, key, partition and payload that went in
    let producer = test_producer();
    let frame = producer.producer_encode_msg_v1(
        "logs".to_string(),
        "user-42".to_string(),
        vec![1, 2, 3],
    );

    // outer frame: 8-byte big-endian length prefix, then the body
    let mut outer = ByteBuff::new(Endianness::Big, 10000);
    outer.wrap(frame.clone());
    let body = outer.get().unwrap();
    assert_eq!(frame.len(), 8 + body.len());

    // body fields, in the fixed message order
    let mut rd = ByteBuff::new(Endianness::Big, 10000);
    rd.wrap(body);
    assert_eq!(rd.get_string(), Ok("V_1".to_string()));
    assert_eq!(rd.get_string(), Ok("logs".to_string()));
    assert_eq!(rd.get_string(), Ok("P".to_string()));
    assert_eq!(rd.get_int(), Ok(PRODUCER_MSG_CODE));
    assert_eq!(rd.get_string(), Ok("lz4".to_string()));
    assert_eq!(rd.get_string(), Ok("all".to_string()));
    assert_eq!(
        rd.get_int(),
        Ok(select_partition("user-42".to_string(), 5) as i32)
    );
    let correlation_id = rd.get_string().unwrap();
    assert_eq!(correlation_id.len(), 36);
    assert_eq!(rd.get_string(), Ok("user-42".to_string()));
    assert_eq!(rd.get(), Ok(vec![1, 2, 3]));
}

#[test]
fn encode_with_fixed_id_is_reproducible() {
    let producer = test_producer();
    let a = producer.producer_encode_msg_v1_with_id(
        "logs".to_string(),
        "k".to_string(),
        "0000-fixed-id".to_string(),
        vec![42],
    );
    let b = producer.producer_encode_msg_v1_with_id(
        "logs".to_string(),
        "k".to_string(),
        "0000-fixed-id".to_string(),
        vec![42],
    );
    assert_eq!(a, b);
}

#[test]
fn fresh_correlation_ids_differ_but_frames_agree_elsewhere() {
    let producer = test_producer();
    let a = producer.producer_encode_msg_v1("t".to_string(), "k".to_string(), vec![]);
    let b = producer.producer_encode_msg_v1("t".to_string(), "k".to_string(), vec![]);
    assert_eq!(a.len(), b.len());
}

fn encoded_response() -> Vec<u8> {
    let mut bb = ByteBuff::new(Endianness::Big, 10000);
    bb.put_string("P".to_string());
    bb.put_int(0);
    bb.put_string("stored".to_string());
    bb.put_string("logs".to_string());
    bb.put_int(3);
    bb.put_string("some-correlation-id".to_string());
    bb.put_string("user-42".to_string());
    bb.to_array()
}

#[test]
fn response_round_trip() {
    let resp = producer_decode_msg(encoded_response()).unwrap();
    assert_eq!(resp.client_type, "P");
    assert_eq!(resp.error_code, 0);
    assert_eq!(resp.error_msg, "stored");
    assert_eq!(resp.topic, "logs");
    assert_eq!(resp.partition, 3);
    assert_eq!(resp.unique_key, "some-correlation-id");
    assert_eq!(resp.key, "user-42");
}

#[test]
fn truncated_response_is_underflow_not_zero_values() {
    let mut body = encoded_response();
    body.truncate(body.len() - 3);
    assert!(matches!(
        producer_decode_msg(body),
        Err(CodecError::Underflow)
    ));
    assert!(matches!(
        producer_decode_msg(vec![]),
        Err(CodecError::Underflow)
    ));
}

#[test]
fn response_with_invalid_utf8_field_is_an_error() {
    // kind field: tag 1, length 2, bytes that are not UTF-8
    let body = vec![1, 2, 0xff, 0xfe];
    assert!(matches!(
        producer_decode_msg(body),
        Err(CodecError::InvalidUtf8)
    ));
}

#[test]
fn default_producer_has_everything_unset() {
    let p = Producer::default();
    assert_eq!(p.servers, "");
    assert!(p.max_buffer_size.is_none());
    assert!(p.compression_type.is_none());
    assert!(p.acks.is_none());
    assert!(p.retries.is_none());
    assert!(p.retry_backoff_ms.is_none());
    assert!(p.reconnect_backoff_ms.is_none());
    assert!(p.socket_keepalive_enable.is_none());
    assert!(p.pool.is_none());
}
