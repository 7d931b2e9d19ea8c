//! MQTT 3.1.1 packet encoding for a QoS 0 publisher.

use vstd::prelude::*;
use vstd::string::StringSliceAdditionalSpecFns;

verus! {

/// The MQTT "remaining length" field: seven bits per byte, least significant
/// group first, with the top bit set on every byte but the last.
pub open spec fn remaining_len_encoding(n: nat) -> Seq<u8>
    decreases n,
{
    if n < 128 {
        seq![n as u8]
    } else {
        seq![(n % 128 + 128) as u8] + remaining_len_encoding(n / 128)
    }
}

/// Appends the MQTT variable-length encoding of `len` to `buf`.
pub fn encode_remaining_len(buf: &mut Vec<u8>, len: usize)
    ensures
        final(buf)@ == old(buf)@ + remaining_len_encoding(len as nat),
{
    let ghost start = buf@;
    let mut rest: usize = len;
    loop
        invariant_except_break
            start + remaining_len_encoding(len as nat) == buf@ + remaining_len_encoding(rest as nat),
        ensures
            buf@ == start + remaining_len_encoding(len as nat),
        decreases rest,
    {
        let low: u8 = (rest % 128) as u8;
        let ghost before = buf@;
        let ghost r = rest;
        rest = rest / 128;
        if rest > 0 {
            let b: u8 = low | 0x80;
            assert(low < 128 ==> low | 0x80 == low + 128) by (bit_vector);
            buf.push(b);
            assert(remaining_len_encoding(r as nat) == seq![b] + remaining_len_encoding(rest as nat));
            assert(buf@ + remaining_len_encoding(rest as nat) == before + remaining_len_encoding(r as nat));
        } else {
            buf.push(low);
            assert(remaining_len_encoding(r as nat) == seq![low]);
            break;
        }
    }
}


/// The value that a remaining-length field encodes: seven bits per byte,
/// least significant group first.
pub open spec fn remaining_len_value(bytes: Seq<u8>) -> nat
    decreases bytes.len(),
{
    if bytes.len() == 0 {
        0
    } else {
        (bytes[0] % 128) as nat + 128 * remaining_len_value(bytes.drop_first())
    }
}

/// The remaining-length field is a well-formed MQTT variable-length integer
/// for `n`: it decodes to `n`, every byte but the last has its continuation
/// bit set, and the last has it clear.
pub proof fn lemma_remaining_len_roundtrip(n: nat)
    ensures
        remaining_len_value(remaining_len_encoding(n)) == n,
        remaining_len_encoding(n).len() >= 1,
        forall|i: int|
            0 <= i < remaining_len_encoding(n).len() - 1 ==> #[trigger] remaining_len_encoding(
                n,
            )[i] >= 128,
        remaining_len_encoding(n).last() < 128,
    decreases n,
{
    let e = remaining_len_encoding(n);
    if n < 128 {
        assert(e.drop_first() =~= Seq::<u8>::empty());
        assert(e[0] == n);
        assert(remaining_len_value(e.drop_first()) == 0);
        assert(remaining_len_value(e) == (e[0] % 128) as nat + 128 * remaining_len_value(e.drop_first()));
    } else {
        lemma_remaining_len_roundtrip(n / 128);
        let rest = remaining_len_encoding(n / 128);
        assert(e.drop_first() =~= rest);
        assert(e[0] == n % 128 + 128);
        assert(e[0] % 128 == n % 128);
        assert(n == n % 128 + 128 * (n / 128));
        assert(remaining_len_value(e) == (e[0] % 128) as nat + 128 * remaining_len_value(e.drop_first()));
        assert forall|i: int| 0 <= i < e.len() - 1 implies #[trigger] e[i] >= 128 by {
            if i > 0 {
                assert(e[i] == rest[i - 1]);
            }
        }
    }
}

/// Appends the bytes of `bytes`.
fn append_bytes(buf: &mut Vec<u8>, bytes: &[u8])
    ensures
        final(buf)@ == old(buf)@ + bytes@,
{
    let ghost start = buf@;
    let mut i: usize = 0;
    while i < bytes.len()
        invariant
            i <= bytes@.len(),
            buf@ == start + bytes@.take(i as int),
        decreases bytes.len() - i,
    {
        buf.push(bytes[i]);
        i = i + 1;
        assert(buf@ =~= start + bytes@.take(i as int));
    }
    assert(bytes@.take(bytes@.len() as int) =~= bytes@);
}

/// The two-byte big-endian length prefix of an MQTT string of `n` bytes
/// (the low 16 bits of `n`).
pub open spec fn length_prefix(n: nat) -> Seq<u8> {
    seq![((n / 256) % 256) as u8, (n % 256) as u8]
}

/// The protocol name "MQTT", protocol level 4 (3.1.1), the clean-session
/// flag and a keep-alive of 0.
pub open spec fn connect_variable_header() -> Seq<u8> {
    seq![0x00u8, 0x04u8, 0x4du8, 0x51u8, 0x54u8, 0x54u8, 0x04u8, 0x02u8, 0x00u8, 0x00u8]
}

/// A CONNECT packet for the client id with bytes `id`.
pub open spec fn connect_packet_spec(id: Seq<u8>) -> Seq<u8> {
    seq![0x10u8] + remaining_len_encoding(12 + id.len()) + connect_variable_header()
        + length_prefix(id.len()) + id
}

/// A PUBLISH packet at QoS 0 for the topic with bytes `topic`.
pub open spec fn publish_packet_spec(topic: Seq<u8>, payload: Seq<u8>, retain: bool) -> Seq<u8> {
    seq![if retain { 0x31u8 } else { 0x30u8 }] + remaining_len_encoding(
        2 + topic.len() + payload.len(),
    ) + length_prefix(topic.len()) + topic + payload
}

/// Appends the length prefix of a string of `n` bytes.
fn push_length_prefix(buf: &mut Vec<u8>, n: usize)
    ensures
        final(buf)@ == old(buf)@ + length_prefix(n as nat),
{
    buf.push(((n / 256) % 256) as u8);
    buf.push((n % 256) as u8);
    assert(final(buf)@ =~= old(buf)@ + length_prefix(n as nat));
}

/// The CONNECT packet that opens a session for `client_id`.
pub fn connect_packet(client_id: &str) -> (pkt: Vec<u8>)
    requires
        client_id.spec_bytes().len() + 12 <= usize::MAX,
    ensures
        pkt@ == connect_packet_spec(client_id.spec_bytes()),
{
    let id = client_id.as_bytes();
    let remaining = 10 + 2 + id.len();
    let mut pkt: Vec<u8> = Vec::new();
    pkt.push(0x10);
    encode_remaining_len(&mut pkt, remaining);
    let header: [u8; 10] = [0x00, 0x04, 0x4d, 0x51, 0x54, 0x54, 0x04, 0x02, 0x00, 0x00];
    append_bytes(&mut pkt, &header);
    assert(header@ =~= connect_variable_header());
    push_length_prefix(&mut pkt, id.len());
    append_bytes(&mut pkt, id);
    assert(pkt@ =~= connect_packet_spec(client_id.spec_bytes()));
    pkt
}

/// The PUBLISH packet at QoS 0 for `payload` on `topic`.
pub fn publish_packet(topic: &str, payload: &[u8], retain: bool) -> (pkt: Vec<u8>)
    requires
        2 + topic.spec_bytes().len() + payload@.len() <= usize::MAX,
    ensures
        pkt@ == publish_packet_spec(topic.spec_bytes(), payload@, retain),
{
    let topic_bytes = topic.as_bytes();
    let remaining = 2 + topic_bytes.len() + payload.len();
    let first: u8 = if retain {
        0x31
    } else {
        0x30
    };
    let mut pkt: Vec<u8> = Vec::new();
    pkt.push(first);
    encode_remaining_len(&mut pkt, remaining);
    push_length_prefix(&mut pkt, topic_bytes.len());
    append_bytes(&mut pkt, topic_bytes);
    append_bytes(&mut pkt, payload);
    assert(pkt@ =~= publish_packet_spec(topic.spec_bytes(), payload@, retain));
    pkt
}

/// Why a CONNACK packet is refused.
#[derive(Debug, PartialEq, Eq, Clone, Copy)]
pub enum ConnackError {
    /// The packet is not a CONNACK: its first byte (the packet type) or its
    /// remaining length is wrong. Holds the first byte.
    InvalidData(u8),
    /// The broker refused the connection. Holds the return code.
    ConnectionRefused(u8),
}

/// How a 4-byte CONNACK packet is judged.
pub open spec fn parse_connack_spec(buf: Seq<u8>) -> Result<(), ConnackError> {
    if buf[0] != 0x20 || buf[1] != 0x02 {
        Err(ConnackError::InvalidData(buf[0]))
    } else if buf[3] != 0 {
        Err(ConnackError::ConnectionRefused(buf[3]))
    } else {
        Ok(())
    }
}

/// Checks the CONNACK packet that answers a CONNECT.
pub fn parse_connack(buf: [u8; 4]) -> (r: Result<(), ConnackError>)
    ensures
        r == parse_connack_spec(buf@),
{
    if buf[0] != 0x20 || buf[1] != 0x02 {
        return Err(ConnackError::InvalidData(buf[0]));
    }
    if buf[3] != 0 {
        return Err(ConnackError::ConnectionRefused(buf[3]));
    }
    Ok(())
}


/// A PUBLISH packet frames itself: its remaining-length field decodes to the
/// number of bytes that follow the field, the length prefix gives the topic's
/// length (for topics under 64 KiB), and the topic and payload follow it.
pub proof fn lemma_publish_packet_framing(topic: Seq<u8>, payload: Seq<u8>, retain: bool)
    ensures
        ({
            let pkt = publish_packet_spec(topic, payload, retain);
            let n = 2 + topic.len() + payload.len();
            let e = remaining_len_encoding(n as nat);
            let l = e.len() as int;
            &&& pkt.len() == 1 + l + n
            &&& pkt.subrange(1, 1 + l) == e
            &&& remaining_len_value(e) == n
            &&& (topic.len() < 0x10000 ==> pkt[1 + l] * 256 + pkt[2 + l] == topic.len())
            &&& pkt.skip(3 + l) == topic + payload
        }),
{
    let pkt = publish_packet_spec(topic, payload, retain);
    let n = 2 + topic.len() + payload.len();
    let e = remaining_len_encoding(n as nat);
    let l = e.len() as int;
    lemma_remaining_len_roundtrip(n as nat);
    let head = seq![if retain { 0x31u8 } else { 0x30u8 }];
    assert(pkt == head + e + length_prefix(topic.len()) + topic + payload);
    assert(pkt.subrange(1, 1 + l) =~= e);
    assert(pkt.skip(3 + l) =~= topic + payload);
    assert(pkt[1 + l] == length_prefix(topic.len())[0]);
    assert(pkt[2 + l] == length_prefix(topic.len())[1]);
}

/// A CONNECT packet frames itself: its remaining-length field decodes to the
/// number of bytes that follow the field, and the client id follows the
/// fixed variable header behind its length prefix (for ids under 64 KiB).
pub proof fn lemma_connect_packet_framing(id: Seq<u8>)
    ensures
        ({
            let pkt = connect_packet_spec(id);
            let n = 12 + id.len();
            let e = remaining_len_encoding(n as nat);
            let l = e.len() as int;
            &&& pkt.len() == 1 + l + n
            &&& pkt.subrange(1, 1 + l) == e
            &&& remaining_len_value(e) == n
            &&& pkt.subrange(1 + l, 11 + l) == connect_variable_header()
            &&& (id.len() < 0x10000 ==> pkt[11 + l] * 256 + pkt[12 + l] == id.len())
            &&& pkt.skip(13 + l) == id
        }),
{
    let pkt = connect_packet_spec(id);
    let n = 12 + id.len();
    let e = remaining_len_encoding(n as nat);
    let l = e.len() as int;
    lemma_remaining_len_roundtrip(n as nat);
    assert(pkt.subrange(1, 1 + l) =~= e);
    assert(pkt.subrange(1 + l, 11 + l) =~= connect_variable_header());
    assert(pkt.skip(13 + l) =~= id);
    assert(pkt[11 + l] == length_prefix(id.len())[0]);
    assert(pkt[12 + l] == length_prefix(id.len())[1]);
}

/// The first byte of every PUBLISH packet is the packet type PUBLISH with
/// QoS 0, `0x30`, with the retain bit (bit 0) set exactly when `retain` is
/// true, whatever the topic and payload.
pub proof fn lemma_publish_first_byte(topic: Seq<u8>, payload: Seq<u8>, retain: bool)
    ensures
        publish_packet_spec(topic, payload, retain)[0] == (if retain {
            0x31u8
        } else {
            0x30u8
        }),
        publish_packet_spec(topic, payload, retain)[0] / 16 == 3,
        (publish_packet_spec(topic, payload, retain)[0] % 2 == 1) == retain,
        (publish_packet_spec(topic, payload, retain)[0] / 2) % 4 == 0,
{
}

/// A CONNACK (first byte `0x20`, remaining length 2) is accepted exactly when
/// its return code, the fourth byte, is 0; every other return code is a
/// refused connection that carries that code; and a packet with other first
/// bytes is rejected as invalid data.
pub proof fn lemma_connack_return_code(buf: Seq<u8>)
    requires
        buf.len() == 4,
    ensures
        buf[0] == 0x20 && buf[1] == 0x02 ==> (parse_connack_spec(buf) is Ok <==> buf[3] == 0),
        buf[0] == 0x20 && buf[1] == 0x02 && buf[3] != 0 ==> parse_connack_spec(buf)
            == Err::<(), ConnackError>(ConnackError::ConnectionRefused(buf[3])),
        !(buf[0] == 0x20 && buf[1] == 0x02) ==> parse_connack_spec(buf) == Err::<
            (),
            ConnackError,
        >(ConnackError::InvalidData(buf[0])),
{
}

} // verus!
