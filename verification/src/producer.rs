//! The producer configuration and the message schema: the fixed field order
//! that turns (topic, key, payload, configuration) into one encoded
//! application message wrapped in an outer length-prefixed frame, and the
//! parser that takes a response frame body back apart into its fields.
//!
//! Delivery is best-effort and fire-and-forget: encoding and enqueueing a
//! frame is no delivery or acknowledgement guarantee, and the embedding
//! around this library handles connect, write and read failures locally.
use vstd::prelude::*;
use crate::codec::{
    blob_enc,
    word_bytes,
    vstr_enc,
    dec_string,
    dec_word,
    u32_of_i32,
    i32_of_u32,
    ByteBuff,
    CodecError,
    Endianness,
};
use crate::select_partition::{select_partition, spec_select_partition};
use vstd::utf8::encode_utf8;

verus! {

/// Message code of a producer push message.
pub const PRODUCER_MSG_CODE: i32 = 100;

/// Partition count handed to the selector on every push. Hard-coded for
/// now; a natural future configuration value with this as its default.
pub const PARTITION_COUNT: u64 = 5;

/// Producer configuration. Only `servers`, `pool`, `max_buffer_size`,
/// `acks` and `compression_type` affect behaviour. The remaining fields —
/// the timeouts, `batch_size`, `retries`, the retry and reconnect backoff
/// windows and `socket_keepalive_enable` — are accepted but inert: no retry,
/// reconnection, batching or keep-alive is implemented, and a failed
/// connection slot stays dead for the life of the process.
pub struct Producer {
    /// Capacity of the bounded outbound frame queue; unset means the
    /// default 100000.
    pub max_buffer_size: Option<u64>,
    /// Broker address, as `host:port`.
    pub servers: String,
    /// Accepted but inert.
    pub message_timeout_ms: Option<u64>,
    /// Accepted but inert.
    pub delivery_timeout_ms: Option<u64>,
    /// Accepted but inert.
    pub batch_size: Option<u64>,
    /// Compression tag passed through to the broker, not interpreted
    /// locally.
    pub compression_type: Option<String>,
    /// Acknowledgement mode passed through to the broker, not interpreted
    /// locally.
    pub acks: Option<String>,
    /// Accepted but inert.
    pub retries: Option<u8>,
    /// Accepted but inert.
    pub retry_backoff_ms: Option<u64>,
    /// Accepted but inert.
    pub retry_backoff_max_ms: Option<u64>,
    /// Accepted but inert.
    pub reconnect_backoff_ms: Option<u64>,
    /// Accepted but inert.
    pub reconnect_backoff_max_ms: Option<u64>,
    /// Accepted but inert.
    pub socket_keepalive_enable: Option<bool>,
    /// Connection pool size; unset means one connection.
    pub pool: Option<i32>,
}

impl Default for Producer {
    /// An empty configuration: no address and every option unset.
    fn default() -> (r: Producer)
        ensures
            r.servers@ == Seq::<char>::empty(),
            r.max_buffer_size is None,
            r.message_timeout_ms is None,
            r.delivery_timeout_ms is None,
            r.batch_size is None,
            r.compression_type is None,
            r.acks is None,
            r.retries is None,
            r.retry_backoff_ms is None,
            r.retry_backoff_max_ms is None,
            r.reconnect_backoff_ms is None,
            r.reconnect_backoff_max_ms is None,
            r.socket_keepalive_enable is None,
            r.pool is None,
    {
        Producer {
            max_buffer_size: None,
            servers: String::new(),
            message_timeout_ms: None,
            delivery_timeout_ms: None,
            batch_size: None,
            compression_type: None,
            acks: None,
            retries: None,
            retry_backoff_ms: None,
            retry_backoff_max_ms: None,
            reconnect_backoff_ms: None,
            reconnect_backoff_max_ms: None,
            socket_keepalive_enable: None,
            pool: None,
        }
    }
}

/// The application message body, field by field in its fixed order:
/// version, topic, kind, message code, compression, acks, partition,
/// correlation id, key, payload blob. All strings use the variable-width
/// encoding, all words are big-endian.
pub open spec fn msg_v1_bytes(
    topic: Seq<char>,
    compression: Seq<char>,
    acks: Seq<char>,
    partition: nat,
    correlation_id: Seq<char>,
    key: Seq<char>,
    payload: Seq<u8>,
) -> Seq<u8> {
    vstr_enc(true, encode_utf8("V_1"@)) + vstr_enc(true, encode_utf8(topic)) + vstr_enc(
        true,
        encode_utf8("P"@),
    ) + word_bytes(true, u32_of_i32(PRODUCER_MSG_CODE), 4) + vstr_enc(
        true,
        encode_utf8(compression),
    ) + vstr_enc(true, encode_utf8(acks)) + word_bytes(true, partition, 4) + vstr_enc(
        true,
        encode_utf8(correlation_id),
    ) + vstr_enc(true, encode_utf8(key)) + blob_enc(true, payload)
}

/// Relies on `uuid::Uuid::new_v4` and `Display` for `Uuid`: a freshly drawn
/// random version-4 UUID, rendered in the hyphenated form of 36 characters.
/// The value is random; nothing relates two calls.
#[verifier::external_body]
fn new_correlation_id() -> (r: String)
    ensures
        r@.len() == 36,
{
    uuid::Uuid::new_v4().to_string()
}

/// The fields parsed out of a response frame body, in their fixed order.
/// The response payload is deliberately not parsed out (the decode path
/// stops after the key); extending the schema there is a deliberate wire
/// format change, not a bug fix.
#[derive(Debug, Clone)]
pub struct Response {
    /// Client or message kind tag.
    pub client_type: String,
    /// Error code reported by the broker.
    pub error_code: i32,
    /// Error message reported by the broker.
    pub error_msg: String,
    /// Topic the response concerns.
    pub topic: String,
    /// Partition the response concerns.
    pub partition: i32,
    /// Opaque correlation id passed through from the request.
    pub unique_key: String,
    /// Message key the response concerns.
    pub key: String,
}

/// Parsing a response frame body, field by field in its fixed order:
/// kind, error code, error message, topic, partition, correlation id, key.
/// Any bytes after the key are left unread.
pub open spec fn dec_response(s: Seq<u8>) -> Result<
    (Seq<char>, int, Seq<char>, Seq<char>, int, Seq<char>, Seq<char>),
    CodecError,
> {
    match dec_string(true, s, 0) {
        Err(e) => Err(e),
        Ok(ct) => match dec_word(true, s, ct.1, 4) {
            Err(e) => Err(e),
            Ok(ec) => match dec_string(true, s, ec.1) {
                Err(e) => Err(e),
                Ok(em) => match dec_string(true, s, em.1) {
                    Err(e) => Err(e),
                    Ok(tp) => match dec_word(true, s, tp.1, 4) {
                        Err(e) => Err(e),
                        Ok(pt) => match dec_string(true, s, pt.1) {
                            Err(e) => Err(e),
                            Ok(uk) => match dec_string(true, s, uk.1) {
                                Err(e) => Err(e),
                                Ok(k) => Ok(
                                    (
                                        ct.0,
                                        i32_of_u32(ec.0),
                                        em.0,
                                        tp.0,
                                        i32_of_u32(pt.0),
                                        uk.0,
                                        k.0,
                                    ),
                                ),
                            },
                        },
                    },
                },
            },
        },
    }
}

impl Producer {
    /// Encodes one application message around the given correlation id and
    /// wraps it in the outer 8-byte length-prefixed frame: the bit-exact
    /// outbound bytes of one push.
    pub fn producer_encode_msg_v1_with_id(
        &self,
        topic: String,
        key: String,
        correlation_id: String,
        msg: Vec<u8>,
    ) -> (r: Vec<u8>)
        requires
            self.compression_type is Some,
            self.acks is Some,
        ensures
            r@ == blob_enc(
                true,
                msg_v1_bytes(
                    topic@,
                    self.compression_type->0@,
                    self.acks->0@,
                    spec_select_partition(key@, PARTITION_COUNT as u64),
                    correlation_id@,
                    key@,
                    msg@,
                ),
            ),
    {
        let ghost topic_view = topic@;
        let ghost key_view = key@;
        let ghost msg_view = msg@;
        let mut bb = ByteBuff::new(Endianness::Big, 10000);
        bb.put_string(String::from_str("V_1"));
        bb.put_string(topic);
        bb.put_string(String::from_str("P"));
        bb.put_int(PRODUCER_MSG_CODE);
        bb.put_string(self.compression_type.as_ref().unwrap().clone());
        bb.put_string(self.acks.as_ref().unwrap().clone());
        let partition = select_partition(key.clone(), PARTITION_COUNT);
        bb.put_int(partition as i32);
        bb.put_string(correlation_id);
        bb.put_string(key);
        bb.put(msg);
        let total_msg = bb.to_array();
        proof {
            assert(u32_of_i32(partition as i32) == spec_select_partition(
                key_view,
                PARTITION_COUNT as u64,
            ));
            assert(total_msg@ =~= msg_v1_bytes(
                topic_view,
                self.compression_type->0@,
                self.acks->0@,
                spec_select_partition(key_view, PARTITION_COUNT as u64),
                correlation_id@,
                key_view,
                msg_view,
            ));
        }
        let mut wrap_byte = ByteBuff::new(Endianness::Big, 10000);
        wrap_byte.put(total_msg);
        let r = wrap_byte.to_array();
        proof {
            assert(r@ =~= blob_enc(
                true,
                msg_v1_bytes(
                    topic_view,
                    self.compression_type->0@,
                    self.acks->0@,
                    spec_select_partition(key_view, PARTITION_COUNT as u64),
                    correlation_id@,
                    key_view,
                    msg_view,
                ),
            ));
        }
        r
    }

    /// Encodes one push into its outbound frame, drawing a fresh opaque
    /// correlation id for it: some 36-character id is in the frame, and
    /// everything else about the bytes is pinned down exactly.
    pub fn producer_encode_msg_v1(&self, topic: String, key: String, msg: Vec<u8>) -> (r: Vec<u8>)
        requires
            self.compression_type is Some,
            self.acks is Some,
        ensures
            exists|cid: Seq<char>|
                cid.len() == 36 && r@ == blob_enc(
                    true,
                    #[trigger] msg_v1_bytes(
                        topic@,
                        self.compression_type->0@,
                        self.acks->0@,
                        spec_select_partition(key@, PARTITION_COUNT as u64),
                        cid,
                        key@,
                        msg@,
                    ),
                ),
    {
        let ghost topic_view = topic@;
        let ghost key_view = key@;
        let ghost msg_view = msg@;
        let correlation_id = new_correlation_id();
        let ghost cid = correlation_id@;
        let r = self.producer_encode_msg_v1_with_id(topic, key, correlation_id, msg);
        proof {
            assert(r@ == blob_enc(
                true,
                msg_v1_bytes(
                    topic_view,
                    self.compression_type->0@,
                    self.acks->0@,
                    spec_select_partition(key_view, PARTITION_COUNT as u64),
                    cid,
                    key_view,
                    msg_view,
                ),
            ));
        }
        r
    }
}

/// Decodes a response frame body into its fields, in the fixed response
/// order. A short body or an invalid UTF-8 string field is an explicit
/// error to the caller, which decides whether to drop the frame or to
/// terminate the connection; nothing is silently replaced by zero values.
pub fn producer_decode_msg(total_buf: Vec<u8>) -> (r: Result<Response, CodecError>)
    ensures
        match dec_response(total_buf@) {
            Ok(f) => r matches Ok(resp) && resp.client_type@ == f.0 && resp.error_code as int
                == f.1 && resp.error_msg@ == f.2 && resp.topic@ == f.3 && resp.partition as int
                == f.4 && resp.unique_key@ == f.5 && resp.key@ == f.6,
            Err(e) => r matches Err(e2) && e2 == e,
        },
{
    let mut bb = ByteBuff::new(Endianness::Big, 10000);
    bb.wrap(total_buf);
    let client_type = match bb.get_string() {
        Ok(v) => v,
        Err(e) => {
            return Err(e);
        },
    };
    let error_code = match bb.get_int() {
        Ok(v) => v,
        Err(e) => {
            return Err(e);
        },
    };
    let error_msg = match bb.get_string() {
        Ok(v) => v,
        Err(e) => {
            return Err(e);
        },
    };
    let topic = match bb.get_string() {
        Ok(v) => v,
        Err(e) => {
            return Err(e);
        },
    };
    let partition = match bb.get_int() {
        Ok(v) => v,
        Err(e) => {
            return Err(e);
        },
    };
    let unique_key = match bb.get_string() {
        Ok(v) => v,
        Err(e) => {
            return Err(e);
        },
    };
    let key = match bb.get_string() {
        Ok(v) => v,
        Err(e) => {
            return Err(e);
        },
    };
    Ok(
        Response {
            client_type,
            error_code,
            error_msg,
            topic,
            partition,
            unique_key,
            key,
        },
    )
}

} // verus!
