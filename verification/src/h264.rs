//! Sending H264 RTP payloads into a workflow as media notifications.
//! Depacketizing is done by the `rtp` crate; the gating logic around it —
//! skip empty payloads, hold everything back until the first key frame,
//! emit only completed access units — is verified here.

use vstd::prelude::*;
use rtp::packetizer::Depacketizer;
use crate::media::MediaNotificationContent;
use crate::media::VideoCodec;

verus! {

pub const NALU_TTYPE_STAP_A: u32 = 24;

pub const NALU_TTYPE_SPS: u32 = 7;

pub const NALU_TYPE_BITMASK: u32 = 0x1F;

/// Whether an H264 payload begins a key frame: its first four bytes, read
/// big-endian, name an SPS NAL unit, either directly or as the first entry
/// of a STAP-A aggregate.
pub open spec fn spec_is_key_frame(data: Seq<u8>) -> bool {
    if data.len() < 4 {
        false
    } else {
        let word = ((data[0] as u32) * 0x1000000 + (data[1] as u32) * 0x10000 + (
        data[2] as u32) * 0x100 + (data[3] as u32)) as u32;
        let nalu_type = (word / 0x1000000) % 0x20;
        (nalu_type == NALU_TTYPE_STAP_A && word % 0x20 == NALU_TTYPE_SPS) || (nalu_type
            == NALU_TTYPE_SPS)
    }
}

/// Whether an H264 payload begins a key frame.
pub fn is_key_frame(data: &[u8]) -> (r: bool)
    ensures
        r == spec_is_key_frame(data@),
{
    if data.len() < 4 {
        false
    } else {
        let b0 = data[0] as u32;
        let b1 = data[1] as u32;
        let b2 = data[2] as u32;
        let b3 = data[3] as u32;
        let word: u32 = b0 * 0x1000000 + b1 * 0x10000 + b2 * 0x100 + b3;
        let nalu_type = (word >> 24) & NALU_TYPE_BITMASK;
        proof {
            assert(nalu_type == (word / 0x1000000) % 0x20) by (bit_vector)
                requires
                    nalu_type == (word >> 24u32) & 0x1Fu32,
            ;
            assert(word & 0x1Fu32 == word % 0x20) by (bit_vector);
        }
        (nalu_type == NALU_TTYPE_STAP_A && (word & NALU_TYPE_BITMASK) == NALU_TTYPE_SPS) || (
        nalu_type == NALU_TTYPE_SPS)
    }
}


/// The length walk of a STAP-A aggregate, as rtp's depacketizer performs
/// it: from `offset`, read a two-byte big-endian entry size, skip the
/// entry, repeat.  The walk is in bounds when it never stops on the last
/// byte, where the depacketizer would read a second size byte past the
/// buffer.  A walk that runs past the remaining bytes is fine: the
/// depacketizer answers that with an error, not a read.
pub open spec fn stapa_walk_in_bounds(data: Seq<u8>, offset: int) -> bool
    decreases data.len() - offset,
{
    if offset >= data.len() {
        true
    } else if offset + 1 >= data.len() {
        false
    } else {
        let size = (data[offset] as int) * 256 + (data[offset + 1] as int);
        if data.len() < offset + 2 + size {
            true
        } else {
            stapa_walk_in_bounds(data, offset + 2 + size)
        }
    }
}

/// Payloads rtp's `H264Packet::depacketize` handles without reading out of
/// bounds: everything but a STAP-A aggregate whose length walk stops on
/// the buffer's last byte.  Short payloads and foreign NAL types take the
/// depacketizer's error or copy paths, which index nothing unchecked.
pub open spec fn spec_depacketize_safe(data: Seq<u8>) -> bool {
    data.len() <= 2 || (data[0] as int) % 32 != (NALU_TTYPE_STAP_A as int) || stapa_walk_in_bounds(
        data,
        1,
    )
}

/// Whether a payload is safe to hand to the depacketizer.
fn depacketize_safe(payload: &Vec<u8>) -> (r: bool)
    ensures
        r == spec_depacketize_safe(payload@),
{
    let n = payload.len();
    if n <= 2 {
        return true;
    }
    let t = payload[0] % 32;
    if (t as u32) != NALU_TTYPE_STAP_A {
        return true;
    }
    let mut offset: usize = 1;
    while offset < n
        invariant
            1 <= offset,
            n == payload@.len(),
            n > 2,
            (payload@[0] as int) % 32 == NALU_TTYPE_STAP_A as int,
            stapa_walk_in_bounds(payload@, 1) == stapa_walk_in_bounds(payload@, offset as int),
        decreases n - offset,
    {
        if offset + 1 >= n {
            proof {
                assert(!stapa_walk_in_bounds(payload@, offset as int));
            }
            return false;
        }
        let size = (payload[offset] as usize) * 256 + (payload[offset + 1] as usize);
        let remaining = n - (offset + 2);
        if remaining < size {
            proof {
                assert(stapa_walk_in_bounds(payload@, offset as int));
            }
            return true;
        }
        proof {
            assert(stapa_walk_in_bounds(payload@, offset as int) == stapa_walk_in_bounds(
                payload@,
                offset + 2 + size,
            ));
        }
        offset = offset + 2 + size;
    }
    proof {
        assert(stapa_walk_in_bounds(payload@, offset as int));
    }
    true
}

/// An error from depacketizing an RTP payload.
#[derive(Debug)]
pub struct H264DepacketizeError {
    pub message: String,
}

/// Depacketizer state: partial fragmented NAL units are held between
/// packets.
pub struct H264MediaSender {
    cached_packet: rtp::codecs::h264::H264Packet,
    has_sent_keyframe: bool,
}

#[verifier::external_type_specification]
#[verifier::external_body]
pub struct ExH264Packet(rtp::codecs::h264::H264Packet);

#[verifier::external_type_specification]
#[verifier::external_body]
pub struct ExRtpError(rtp::Error);

/// Relies on rtp's `H264Packet::default`: a depacketizer with no partial
/// fragment buffered.
#[verifier::external_body]
fn new_h264_packet() -> rtp::codecs::h264::H264Packet {
    rtp::codecs::h264::H264Packet::default()
}

/// Relies on rtp's `H264Packet::depacketize`: it turns one RTP payload
/// into the bytes of the contained NAL units, buffering fragmented units
/// until complete, and returns an empty buffer for a fragment that does
/// not end a unit.  What it returns depends on the accumulated state, so
/// nothing is stated of the result; the logic around the call is verified
/// for every outcome.  The `requires` keeps the call from panicking: the
/// depacketizer's STAP-A loop reads two size bytes after checking that
/// only one remains, so a STAP-A aggregate whose length walk stops on the
/// last byte would index out of bounds.
#[verifier::external_body]
fn depacketize(cached: &mut rtp::codecs::h264::H264Packet, payload: &Vec<u8>) -> (r: Result<
    Vec<u8>,
    rtp::Error,
>)
    requires
        spec_depacketize_safe(payload@),
{
    let bytes = bytes::Bytes::copy_from_slice(payload.as_slice());
    match cached.depacketize(&bytes) {
        Ok(out) => Ok(out.to_vec()),
        Err(e) => Err(e),
    }
}

/// Relies on `rtp::Error`'s `Display` implementation for the error text.
#[verifier::external_body]
fn rtp_error_text(e: &rtp::Error) -> String {
    format!("{}", e)
}

impl H264MediaSender {
    pub fn new() -> (r: H264MediaSender)
        ensures
            !r.spec_has_sent_keyframe(),
    {
        H264MediaSender { cached_packet: new_h264_packet(), has_sent_keyframe: false }
    }

    pub closed spec fn spec_has_sent_keyframe(&self) -> bool {
        self.has_sent_keyframe
    }

    /// Take in one RTP payload with its timestamp.  Empty payloads are
    /// skipped; nothing flows until the first key frame arrives; a payload
    /// the depacketizer cannot walk safely is rejected; a payload that
    /// completes an access unit yields one video notification carrying
    /// exactly the depacketized bytes; a partial fragment yields nothing.
    pub fn send_rtp_data(&mut self, payload: &Vec<u8>, timestamp_ms: u64) -> (r: Result<
        Option<MediaNotificationContent>,
        H264DepacketizeError,
    >)
        ensures
            payload@.len() == 0 ==> (r matches Ok(o) && o is None && *final(self) == *old(self)),
            !old(self).spec_has_sent_keyframe() && !spec_is_key_frame(payload@) && payload@.len()
                != 0 ==> (r matches Ok(o) && o is None && *final(self) == *old(self)),
            payload@.len() != 0 && (old(self).spec_has_sent_keyframe() || spec_is_key_frame(
                payload@,
            )) && !spec_depacketize_safe(payload@) ==> (r is Err && *final(self) == *old(self)),
            r matches Ok(Some(c)) ==> (c matches MediaNotificationContent::Video {
                codec,
                is_keyframe,
                is_sequence_header,
                timestamp_ms: ts,
                ..
            } && codec == VideoCodec::H264 && is_keyframe == spec_is_key_frame(payload@)
                && !is_sequence_header && ts == timestamp_ms),
            r matches Ok(Some(_)) ==> final(self).spec_has_sent_keyframe(),
    {
        if payload.len() == 0 {
            return Ok(None);
        }
        let key_frame = is_key_frame(payload.as_slice());
        if !self.has_sent_keyframe && !key_frame {
            return Ok(None);
        }
        if !depacketize_safe(payload) {
            // a malformed aggregate the depacketizer would read past
            return Err(
                H264DepacketizeError { message: "malformed aggregate packet".to_owned() },
            );
        }
        match depacketize(&mut self.cached_packet, payload) {
            Err(e) => Err(H264DepacketizeError { message: rtp_error_text(&e) }),
            Ok(data) => {
                if data.len() == 0 {
                    // a partial fragment: nothing to emit yet
                    Ok(None)
                } else {
                    self.has_sent_keyframe = true;
                    Ok(
                        Some(
                            MediaNotificationContent::Video {
                                codec: VideoCodec::H264,
                                is_keyframe: key_frame,
                                is_sequence_header: false,
                                timestamp_ms,
                                data,
                            },
                        ),
                    )
                }
            },
        }
    }
}

} // verus!
