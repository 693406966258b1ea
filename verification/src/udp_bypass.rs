//! Splitting the first voice packet of a UDP socket.
//!
//! Before the first datagram of the voice handshake's size goes out, two
//! one-byte datagrams are sent to the same address and the sender pauses
//! briefly.  The caller performs the sends and the pause.

use vstd::prelude::*;
use crate::state::SocketState;

verus! {

/// Size of the datagram that opens a voice connection.
pub const VOICE_PACKET_LEN: i32 = 74;

/// Pause after the decoy datagrams, in milliseconds.
pub const SPLIT_DELAY_MS: u64 = 50;

/// Decoy datagrams and the pause that follows them.
pub struct VoiceSplit {
    pub packets: Vec<Vec<u8>>,
    pub delay_ms: u64,
}

/// The decoy datagrams: one zero byte, then one byte of value one.
pub open spec fn decoy_packets() -> Seq<Seq<u8>> {
    seq![seq![0u8], seq![1u8]]
}

/// The split is `decoy_packets()` followed by `SPLIT_DELAY_MS` of waiting.
pub open spec fn is_voice_split(split: VoiceSplit) -> bool {
    &&& split.packets@.len() == 2
    &&& split.packets@[0]@ == decoy_packets()[0]
    &&& split.packets@[1]@ == decoy_packets()[1]
    &&& split.delay_ms == SPLIT_DELAY_MS
}

fn make_voice_split() -> (split: VoiceSplit)
    ensures
        is_voice_split(split),
{
    let mut first: Vec<u8> = Vec::new();
    first.push(0u8);
    let mut second: Vec<u8> = Vec::new();
    second.push(1u8);
    let mut packets: Vec<Vec<u8>> = Vec::new();
    packets.push(first);
    packets.push(second);
    assert(packets@[0]@ =~= decoy_packets()[0]);
    assert(packets@[1]@ =~= decoy_packets()[1]);
    VoiceSplit { packets, delay_ms: SPLIT_DELAY_MS }
}

/// `sendto` of `len` bytes on a socket: a UDP socket sending a datagram of
/// the voice size is split.
pub fn check_and_split_udp_sendto(state: &SocketState, len: i32) -> (split: Option<VoiceSplit>)
    ensures
        split is Some <==> state.is_udp && len == 74,
        split matches Some(s) ==> is_voice_split(s),
        split matches Some(s) ==> s.packets@.len() == 2 && s.packets@[0]@ == seq![0u8]
            && s.packets@[1]@ == seq![1u8] && s.delay_ms == 50,
{
    if !state.is_udp || len != VOICE_PACKET_LEN {
        return None;
    }
    Some(make_voice_split())
}

/// `WSASendTo` looks at its first buffer only for a UDP socket sending exactly one buffer.
pub fn wsa_sendto_reads_first_buffer(state: &SocketState, buffer_count: u32) -> (r: bool)
    ensures
        r == (state.is_udp && buffer_count == 1),
{
    state.is_udp && buffer_count == 1
}

/// `WSASendTo` with `buffer_count` buffers, the first of `first_len` bytes
/// when it was read: a UDP socket sending one buffer of the voice size is split.
pub fn check_and_split_wsa_sendto(state: &SocketState, buffer_count: u32, first_len: Option<u32>) -> (split: Option<VoiceSplit>)
    ensures
        split is Some <==> state.is_udp && buffer_count == 1 && first_len == Some(74u32),
        split matches Some(s) ==> is_voice_split(s),
        split matches Some(s) ==> s.packets@.len() == 2 && s.packets@[0]@ == seq![0u8]
            && s.packets@[1]@ == seq![1u8] && s.delay_ms == 50,
{
    if !wsa_sendto_reads_first_buffer(state, buffer_count) {
        return None;
    }
    match first_len {
        Some(l) => {
            if l != VOICE_PACKET_LEN as u32 {
                return None;
            }
            Some(make_voice_split())
        },
        None => None,
    }
}

} // verus!
