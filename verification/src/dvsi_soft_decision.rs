//! Soft-decision decoder packets for AMBE-family vocoder chips.
//!
//! A native soft bit is an `i8`: its sign is the hard decision (`> 0` means
//! `1`), its magnitude the confidence.  The chip takes each channel bit as a
//! 4-bit value on an offset-binary ramp from "certainly 0" (`0b0000`) to
//! "certainly 1" (`0b1111`); its top bit is the hard decision.
//!
//! A host packet is 60 words of 16 bits: a fixed header word, eleven words of
//! overhead, then 48 data words that carry 192 four-bit slots, the first slot
//! in the high nibble.  The raw stream format carries the slots alone, two per
//! byte.

use vstd::prelude::*;

verus! {

/// Packet header word.
pub const SD_HEADER: u16 = 0x13EC;

/// 16-bit words in a packet.
pub const SD_PACKET_WORDS: usize = 60;

/// Overhead words before the slot data.
pub const SD_OVERHEAD_WORDS: usize = 12;

/// Words of slot data, four slots each.
pub const SD_DATA_WORDS: usize = 48;

/// Soft-decision slots in one packet.
pub const SD_SLOTS: usize = 192;

/// Channel bits of the half-rate mode.
pub const RATE_33_CHANNEL_BITS: usize = 72;

/// Channel bits of the full-rate mode.
pub const IMBE_FULL_RATE_CHANNEL_BITS: usize = 144;

/// Chip rate-control vector for P25 full rate with error correction.
pub const DVSI_P25_FULLRATE_FEC: [u16; 6] = [0x0558, 0x086B, 0x1030, 0x0000, 0x0000, 0x0190];

/// Chip rate-control vector for P25 full rate without error correction.
pub const DVSI_P25_FULLRATE_NOFEC: [u16; 6] = [0x0558, 0x086B, 0x0000, 0x0000, 0x0000, 0x0158];

/// Confidence level of a soft bit: its magnitude in steps of 16, at most 7.
pub open spec fn sd_level(llr: int) -> int {
    let magnitude = if llr < 0 { -llr } else { llr };
    if magnitude / 16 > 7 { 7 } else { magnitude / 16 }
}

/// The 4-bit soft value of a native soft bit.
pub open spec fn sd_nibble(llr: int) -> int {
    if llr > 0 { 8 + sd_level(llr) } else { 7 - sd_level(llr) }
}

/// The representative soft bit of a 4-bit soft value.
pub open spec fn sd_llr(nibble: int) -> int {
    if nibble > 8 {
        (nibble - 8) * 127 / 7
    } else if nibble == 8 {
        1
    } else {
        -((7 - nibble) * 127 / 7)
    }
}

/// Converts one soft bit into its 4-bit soft value.
pub fn llr_to_sd_nibble(llr: i8) -> (nibble: u8)
    ensures
        nibble == sd_nibble(llr as int),
        nibble <= 15,
        nibble >= 8 <==> llr > 0,
        llr > 0 ==> 16 * (nibble - 8) <= llr && (llr < 16 * (nibble - 7) || nibble == 15),
        llr <= 0 ==> 16 * (7 - nibble) <= -llr && (-llr < 16 * (8 - nibble) || nibble == 0),
{
    let magnitude: u8 = if llr < 0 { (-(llr as i16)) as u8 } else { llr as u8 };
    let shifted: u8 = magnitude >> 4;
    assert(magnitude >> 4 == magnitude / 16) by (bit_vector);
    let level: u8 = if shifted > 7 { 7 } else { shifted };
    if llr > 0 {
        8 + level
    } else {
        7 - level
    }
}

/// Converts a 4-bit soft value into its representative soft bit.  Bits of `n`
/// above the low nibble are ignored.
pub fn sd_nibble_to_llr(n: u8) -> (llr: i8)
    ensures
        llr == sd_llr(n as int % 16),
{
    assert(n & 0xF == n % 16) by (bit_vector);
    let n: u8 = n & 0xF;
    if n >= 8 {
        let level: i16 = (n - 8) as i16;
        let scaled: i16 = level * 127 / 7;
        if scaled < 1 {
            1
        } else {
            scaled as i8
        }
    } else {
        let level: i16 = (7 - n) as i16;
        let scaled: i16 = level * 127 / 7;
        (0 - scaled) as i8
    }
}

/// Every 4-bit soft value survives the trip through its soft bit.
pub proof fn law_nibble_roundtrip(nibble: int)
    requires
        0 <= nibble <= 15,
    ensures
        sd_nibble(sd_llr(nibble)) == nibble,
        -128 <= sd_llr(nibble) <= 127,
{
}

/// The top bit of a soft value is the hard decision, and both conversions
/// keep it.
pub proof fn law_hard_decision(llr: int, nibble: int)
    requires
        -128 <= llr <= 127,
        0 <= nibble <= 15,
    ensures
        0 <= sd_nibble(llr) <= 15,
        sd_nibble(llr) >= 8 <==> llr > 0,
        sd_llr(nibble) > 0 <==> nibble >= 8,
{
}

/// A bit that leans further towards one never gets a smaller soft value.
pub proof fn law_nibble_monotone(a: int, b: int)
    requires
        -128 <= a <= b <= 127,
    ensures
        sd_nibble(a) <= sd_nibble(b),
{
}


/// The overhead words of a packet, without the fixed header word.
#[derive(Clone, Copy, Debug, PartialEq, Eq)]
pub struct SdPacketHeader {
    /// Word 1, high byte.
    pub power_control: u8,
    /// Word 1, low byte.
    pub control_word1: u8,
    /// Words 2 to 6; specific to chip and rate, supplied by the caller.
    pub rate_info: [u16; 5],
    /// Word 10.
    pub dtmf_control: u16,
    /// Word 11.
    pub control_word2: u16,
}

impl SdPacketHeader {
    /// A header that carries the rate words, with every other field zero.
    pub fn new(rate_info: [u16; 5]) -> (header: Self)
        ensures
            header.rate_info == rate_info,
            header.power_control == 0,
            header.control_word1 == 0,
            header.dtmf_control == 0,
            header.control_word2 == 0,
    {
        SdPacketHeader {
            power_control: 0,
            control_word1: 0,
            rate_info,
            dtmf_control: 0,
            control_word2: 0,
        }
    }
}

impl Default for SdPacketHeader {
    fn default() -> (header: Self)
        ensures
            header.rate_info@ == seq![0u16, 0u16, 0u16, 0u16, 0u16],
            header.power_control == 0,
            header.control_word1 == 0,
            header.dtmf_control == 0,
            header.control_word2 == 0,
    {
        let header = SdPacketHeader::new([0, 0, 0, 0, 0]);
        assert(header.rate_info@ =~= seq![0u16, 0u16, 0u16, 0u16, 0u16]);
        header
    }
}

/// Why a packet could not be packed or unpacked.
#[derive(Clone, Copy, Debug, PartialEq, Eq, Structural)]
pub enum SoftDecisionError {
    /// More channel bits than the packet has slots; carries their number.
    TooManyChannelBits(usize),
    /// The header word was not [`SD_HEADER`]; carries the word found.
    BadHeader(u16),
}

/// The soft value in slot `s`: that of the channel bit, or the most confident
/// zero past the last one.
pub open spec fn slot_nibble(llrs: Seq<i8>, s: int) -> int {
    if 0 <= s < llrs.len() { sd_nibble(llrs[s] as int) } else { 0 }
}

/// Word `w` of the packet for `llrs` under `header`.
pub open spec fn packet_word(llrs: Seq<i8>, header: SdPacketHeader, w: int) -> int {
    if w == 0 {
        SD_HEADER as int
    } else if w == 1 {
        header.power_control * 256 + header.control_word1
    } else if 2 <= w < 7 {
        header.rate_info@[w - 2] as int
    } else if w < 10 {
        0
    } else if w == 10 {
        header.dtmf_control as int
    } else if w == 11 {
        header.control_word2 as int
    } else {
        slot_nibble(llrs, 4 * (w - 12)) * 4096 + slot_nibble(llrs, 4 * (w - 12) + 1) * 256
            + slot_nibble(llrs, 4 * (w - 12) + 2) * 16 + slot_nibble(llrs, 4 * (w - 12) + 3)
    }
}

/// The whole packet for `llrs` under `header`.
pub open spec fn is_packet(words: Seq<u16>, llrs: Seq<i8>, header: SdPacketHeader) -> bool {
    &&& words.len() == SD_PACKET_WORDS
    &&& forall|w: int| 0 <= w < SD_PACKET_WORDS ==> words[w] == packet_word(llrs, header, w)
}

/// The four bits that a packet holds in slot `s`.
pub open spec fn packet_nibble(words: Seq<u16>, s: int) -> int {
    let word = words[12 + s / 4] as int;
    if s % 4 == 0 {
        word / 4096
    } else if s % 4 == 1 {
        word / 256 % 16
    } else if s % 4 == 2 {
        word / 16 % 16
    } else {
        word % 16
    }
}

/// `header` holds the overhead words of `words`.
pub open spec fn is_header_of(header: SdPacketHeader, words: Seq<u16>) -> bool {
    &&& header.power_control == words[1] / 256
    &&& header.control_word1 == words[1] % 256
    &&& header.rate_info@ == words.subrange(2, 7)
    &&& header.dtmf_control == words[10]
    &&& header.control_word2 == words[11]
}

fn slot_value(llrs: &[i8], s: usize) -> (nibble: u16)
    ensures
        nibble == slot_nibble(llrs@, s as int),
        nibble <= 15,
{
    if s < llrs.len() {
        llr_to_sd_nibble(llrs[s]) as u16
    } else {
        0
    }
}

fn join_nibbles(a: u16, b: u16, c: u16, d: u16) -> (word: u16)
    requires
        a <= 15,
        b <= 15,
        c <= 15,
        d <= 15,
    ensures
        word == a * 4096 + b * 256 + c * 16 + d,
{
    assert((a << 12) | (b << 8) | (c << 4) | d == a * 4096 + b * 256 + c * 16 + d) by (bit_vector)
        requires
            a <= 15,
            b <= 15,
            c <= 15,
            d <= 15,
    ;
    (a << 12) | (b << 8) | (c << 4) | d
}

/// Packs soft channel bits into a host packet.
///
/// Fewer bits than slots is the normal case; the slots left over hold the most
/// confident zero.
pub fn pack_channel_bits(channel_llrs: &[i8], header: &SdPacketHeader) -> (packed: Result<
    [u16; SD_PACKET_WORDS],
    SoftDecisionError,
>)
    ensures
        channel_llrs@.len() > SD_SLOTS ==> packed == Err::<[u16; SD_PACKET_WORDS], SoftDecisionError>(
            SoftDecisionError::TooManyChannelBits(channel_llrs@.len() as usize),
        ),
        channel_llrs@.len() <= SD_SLOTS ==> packed is Ok && is_packet(
            packed->Ok_0@,
            channel_llrs@,
            *header,
        ),
{
    if channel_llrs.len() > SD_SLOTS {
        return Err(SoftDecisionError::TooManyChannelBits(channel_llrs.len()));
    }
    let mut words: [u16; SD_PACKET_WORDS] = [0;60];
    words[0] = SD_HEADER;
    let high: u16 = header.power_control as u16;
    let low: u16 = header.control_word1 as u16;
    assert((high << 8) | low == high * 256 + low) by (bit_vector)
        requires
            high <= 255,
            low <= 255,
    ;
    words[1] = (high << 8) | low;
    let mut i: usize = 0;
    while i < 5
        invariant
            i <= 5,
            words@[0] == SD_HEADER,
            words@[1] == header.power_control * 256 + header.control_word1,
            forall|w: int| 2 <= w < 2 + i ==> words@[w] == header.rate_info@[w - 2],
            forall|w: int| 7 <= w < 60 ==> words@[w] == 0,
        decreases 5 - i,
    {
        words[2 + i] = header.rate_info[i];
        i = i + 1;
    }
    words[10] = header.dtmf_control;
    words[11] = header.control_word2;
    let mut w: usize = 0;
    while w < SD_DATA_WORDS
        invariant
            w <= SD_DATA_WORDS,
            forall|k: int|
                0 <= k < 12 + w ==> words@[k] == packet_word(channel_llrs@, *header, k),
        decreases SD_DATA_WORDS - w,
    {
        let b: usize = 4 * w;
        let first: u16 = slot_value(channel_llrs, b);
        let second: u16 = slot_value(channel_llrs, b + 1);
        let third: u16 = slot_value(channel_llrs, b + 2);
        let fourth: u16 = slot_value(channel_llrs, b + 3);
        words[SD_OVERHEAD_WORDS + w] = join_nibbles(first, second, third, fourth);
        w = w + 1;
    }
    Ok(words)
}

/// Unpacks a host packet into its header and all 192 slots as soft bits.
pub fn unpack_packet(words: &[u16; SD_PACKET_WORDS]) -> (unpacked: Result<
    (SdPacketHeader, [i8; SD_SLOTS]),
    SoftDecisionError,
>)
    ensures
        words@[0] != SD_HEADER ==> unpacked == Err::<
            (SdPacketHeader, [i8; SD_SLOTS]),
            SoftDecisionError,
        >(SoftDecisionError::BadHeader(words@[0])),
        words@[0] == SD_HEADER ==> {
            &&& unpacked is Ok
            &&& is_header_of(unpacked->Ok_0.0, words@)
            &&& forall|s: int|
                0 <= s < SD_SLOTS ==> unpacked->Ok_0.1@[s] == sd_llr(packet_nibble(words@, s))
        },
{
    if words[0] != SD_HEADER {
        return Err(SoftDecisionError::BadHeader(words[0]));
    }
    let control: u16 = words[1];
    assert(control >> 8 == control / 256 && control & 0xFF == control % 256) by (bit_vector);
    let rate_info: [u16; 5] = [words[2], words[3], words[4], words[5], words[6]];
    assert(rate_info@ =~= words@.subrange(2, 7));
    let header = SdPacketHeader {
        power_control: (control >> 8) as u8,
        control_word1: (control & 0xFF) as u8,
        rate_info,
        dtmf_control: words[10],
        control_word2: words[11],
    };
    let mut llrs: [i8; SD_SLOTS] = [0;192];
    let mut w: usize = 0;
    while w < SD_DATA_WORDS
        invariant
            w <= SD_DATA_WORDS,
            forall|s: int| 0 <= s < 4 * w ==> llrs@[s] == sd_llr(packet_nibble(words@, s)),
        decreases SD_DATA_WORDS - w,
    {
        let word: u16 = words[SD_OVERHEAD_WORDS + w];
        let b: usize = 4 * w;
        assert(((word >> 12) as u8) % 16 == word / 4096 && ((word >> 8) as u8) % 16 == word / 256
            % 16 && ((word >> 4) as u8) % 16 == word / 16 % 16 && (word as u8) % 16 == word % 16)
            by (bit_vector);
        llrs[b] = sd_nibble_to_llr((word >> 12) as u8);
        llrs[b + 1] = sd_nibble_to_llr((word >> 8) as u8);
        llrs[b + 2] = sd_nibble_to_llr((word >> 4) as u8);
        llrs[b + 3] = sd_nibble_to_llr(word as u8);
        w = w + 1;
    }
    Ok((header, llrs))
}

/// Serialises a packet: two bytes per word, high byte first.
pub fn packet_to_bytes(words: &[u16; SD_PACKET_WORDS]) -> (bytes: [u8; 120])
    ensures
        forall|w: int|
            0 <= w < SD_PACKET_WORDS ==> {
                &&& #[trigger] bytes@[2 * w] == words@[w] / 256
                &&& bytes@[2 * w + 1] == words@[w] % 256
            },
{
    let mut out: [u8; 120] = [0;120];
    let mut i: usize = 0;
    while i < SD_PACKET_WORDS
        invariant
            i <= SD_PACKET_WORDS,
            forall|w: int|
                0 <= w < i ==> {
                    &&& #[trigger] out@[2 * w] == words@[w] / 256
                    &&& out@[2 * w + 1] == words@[w] % 256
                },
        decreases SD_PACKET_WORDS - i,
    {
        let word: u16 = words[i];
        assert(word >> 8 == word / 256 && word & 0xFF == word % 256) by (bit_vector);
        out[2 * i] = (word >> 8) as u8;
        out[2 * i + 1] = (word & 0xFF) as u8;
        i = i + 1;
    }
    out
}

/// Packs soft channel bits into the raw stream: two slots per byte, the first
/// in the high nibble.  After an odd number of bits the last low nibble is the
/// most confident zero.
pub fn pack_nibble_stream(channel_llrs: &[i8]) -> (bytes: Vec<u8>)
    ensures
        is_stream(bytes@, channel_llrs@),
        2 * bytes@.len() == channel_llrs@.len() + channel_llrs@.len() % 2,
        forall|i: int|
            0 <= i < bytes@.len() ==> #[trigger] bytes@[i] / 16 == sd_nibble(
                channel_llrs@[2 * i] as int,
            ),
        forall|i: int|
            0 <= i < bytes@.len() && 2 * i + 1 < channel_llrs@.len() ==> #[trigger] bytes@[i] % 16
                == sd_nibble(channel_llrs@[2 * i + 1] as int),
        channel_llrs@.len() % 2 == 1 ==> bytes@.last() % 16 == 0,
{
    let n: usize = channel_llrs.len();
    let mut out: Vec<u8> = Vec::new();
    let mut at: usize = 0;
    while at < n
        invariant
            n == channel_llrs@.len(),
            at % 2 == 0,
            at <= n + 1,
            at <= n || n % 2 == 1,
            out@.len() == at / 2,
            forall|i: int|
                0 <= i < out@.len() ==> #[trigger] out@[i] == slot_nibble(channel_llrs@, 2 * i) * 16
                    + slot_nibble(channel_llrs@, 2 * i + 1),
        decreases n + 1 - at,
    {
        let high: u8 = llr_to_sd_nibble(channel_llrs[at]);
        let low: u8 = if n - at >= 2 { llr_to_sd_nibble(channel_llrs[at + 1]) } else { 0 };
        assert((high << 4) | low == high * 16 + low) by (bit_vector)
            requires
                high <= 15,
                low <= 15,
        ;
        out.push((high << 4) | low);
        if n - at < 2 {
            return out;
        }
        at = at + 2;
    }
    out
}

/// Unpacks a raw stream into soft bits, two per byte.
pub fn unpack_nibble_stream(bytes: &[u8]) -> (llrs: Vec<i8>)
    ensures
        llrs@.len() == 2 * bytes@.len(),
        forall|s: int|
            0 <= s < llrs@.len() ==> #[trigger] llrs@[s] == sd_llr(stream_nibble(bytes@, s)),
        forall|i: int|
            0 <= i < bytes@.len() ==> {
                &&& llrs@[2 * i] == sd_llr(#[trigger] bytes@[i] as int / 16)
                &&& llrs@[2 * i + 1] == sd_llr(bytes@[i] as int % 16)
            },
{
    let mut out: Vec<i8> = Vec::new();
    let mut at: usize = 0;
    while at < bytes.len()
        invariant
            at <= bytes@.len(),
            out@.len() == 2 * at,
            forall|s: int|
                0 <= s < out@.len() ==> #[trigger] out@[s] == sd_llr(stream_nibble(bytes@, s)),
        decreases bytes@.len() - at,
    {
        let byte: u8 = bytes[at];
        assert(((byte >> 4) & 0xF) == byte / 16 && (byte & 0xF) == byte % 16) by (bit_vector);
        out.push(sd_nibble_to_llr((byte >> 4) & 0xF));
        out.push(sd_nibble_to_llr(byte & 0xF));
        at = at + 1;
    }
    out
}

proof fn lemma_slot_range(llrs: Seq<i8>, s: int)
    ensures
        0 <= slot_nibble(llrs, s) <= 15,
{
}

proof fn lemma_split_word(a: int, b: int, c: int, d: int)
    requires
        0 <= a <= 15,
        0 <= b <= 15,
        0 <= c <= 15,
        0 <= d <= 15,
    ensures
        (a * 4096 + b * 256 + c * 16 + d) / 4096 == a,
        (a * 4096 + b * 256 + c * 16 + d) / 256 % 16 == b,
        (a * 4096 + b * 256 + c * 16 + d) / 16 % 16 == c,
        (a * 4096 + b * 256 + c * 16 + d) % 16 == d,
{
    let word = a * 4096 + b * 256 + c * 16 + d;
    assert(word / 256 == a * 16 + b);
    assert(word / 16 == a * 256 + b * 16 + c);
}

proof fn lemma_packet_slot(words: Seq<u16>, llrs: Seq<i8>, header: SdPacketHeader, s: int)
    requires
        is_packet(words, llrs, header),
        0 <= s < SD_SLOTS,
    ensures
        packet_nibble(words, s) == slot_nibble(llrs, s),
{
    let w = 12 + s / 4;
    assert(words[w] == packet_word(llrs, header, w));
    let b = 4 * (w - 12);
    lemma_slot_range(llrs, b);
    lemma_slot_range(llrs, b + 1);
    lemma_slot_range(llrs, b + 2);
    lemma_slot_range(llrs, b + 3);
    lemma_split_word(
        slot_nibble(llrs, b),
        slot_nibble(llrs, b + 1),
        slot_nibble(llrs, b + 2),
        slot_nibble(llrs, b + 3),
    );
    assert(s == b + s % 4);
}

/// A packet gives back the header it was packed with and, in every slot, the
/// soft value of its channel bit, and with it the hard decision; slots past the
/// last bit hold the most confident zero.
pub proof fn law_packet_roundtrip(
    words: Seq<u16>,
    llrs: Seq<i8>,
    packed: SdPacketHeader,
    unpacked: SdPacketHeader,
)
    requires
        llrs.len() <= SD_SLOTS,
        is_packet(words, llrs, packed),
        is_header_of(unpacked, words),
    ensures
        words[0] == SD_HEADER,
        unpacked.power_control == packed.power_control,
        unpacked.control_word1 == packed.control_word1,
        unpacked.rate_info@ == packed.rate_info@,
        unpacked.dtmf_control == packed.dtmf_control,
        unpacked.control_word2 == packed.control_word2,
        forall|s: int|
            0 <= s < SD_SLOTS ==> sd_nibble(sd_llr(#[trigger] packet_nibble(words, s)))
                == slot_nibble(llrs, s),
        forall|s: int|
            0 <= s < llrs.len() ==> (sd_llr(#[trigger] packet_nibble(words, s)) > 0 <==> llrs[s]
                > 0),
{
    assert(unpacked.rate_info@ =~= packed.rate_info@) by {
        assert forall|i: int| 0 <= i < 5 implies unpacked.rate_info@[i] == packed.rate_info@[i] by {
            assert(words.subrange(2, 7)[i] == words[2 + i]);
            assert(words[2 + i] == packet_word(llrs, packed, 2 + i));
        }
    }
    assert(words[0] == packet_word(llrs, packed, 0));
    assert(words[1] == packet_word(llrs, packed, 1));
    assert(words[10] == packet_word(llrs, packed, 10));
    assert(words[11] == packet_word(llrs, packed, 11));
    assert forall|s: int| 0 <= s < SD_SLOTS implies sd_nibble(
        sd_llr(#[trigger] packet_nibble(words, s)),
    ) == slot_nibble(llrs, s) by {
        lemma_packet_slot(words, llrs, packed, s);
        lemma_slot_range(llrs, s);
        law_nibble_roundtrip(slot_nibble(llrs, s));
    }
    assert forall|s: int| 0 <= s < llrs.len() implies (sd_llr(#[trigger] packet_nibble(words, s))
        > 0 <==> llrs[s] > 0) by {
        lemma_packet_slot(words, llrs, packed, s);
        lemma_slot_range(llrs, s);
        law_hard_decision(llrs[s] as int, slot_nibble(llrs, s));
    }
}

/// A packet keeps exactly the slot values of its bits: two bit vectors give the
/// same packet only if they agree in every slot value.
pub proof fn law_packet_determines_slots(
    words: Seq<u16>,
    left: Seq<i8>,
    right: Seq<i8>,
    header: SdPacketHeader,
)
    requires
        left.len() <= SD_SLOTS,
        right.len() <= SD_SLOTS,
        is_packet(words, left, header),
        is_packet(words, right, header),
    ensures
        forall|s: int|
            0 <= s < SD_SLOTS ==> #[trigger] slot_nibble(left, s) == slot_nibble(right, s),
{
    assert forall|s: int| 0 <= s < SD_SLOTS implies #[trigger] slot_nibble(left, s) == slot_nibble(
        right,
        s,
    ) by {
        lemma_packet_slot(words, left, header, s);
        lemma_packet_slot(words, right, header, s);
    }
}

/// `bytes` is the raw stream of `llrs`.
pub open spec fn is_stream(bytes: Seq<u8>, llrs: Seq<i8>) -> bool {
    &&& bytes.len() == (llrs.len() + 1) / 2
    &&& forall|i: int|
        0 <= i < bytes.len() ==> #[trigger] bytes[i] == slot_nibble(llrs, 2 * i) * 16 + slot_nibble(
            llrs,
            2 * i + 1,
        )
}

/// The soft value that a raw stream holds in slot `s`.
pub open spec fn stream_nibble(bytes: Seq<u8>, s: int) -> int {
    if s % 2 == 0 { bytes[s / 2] as int / 16 } else { bytes[s / 2] as int % 16 }
}

/// A raw stream gives back the soft value of every bit packed into it, and
/// with it the hard decision; an odd bit count adds one most confident zero.
pub proof fn law_stream_roundtrip(llrs: Seq<i8>, bytes: Seq<u8>)
    requires
        is_stream(bytes, llrs),
    ensures
        llrs.len() <= 2 * bytes.len() <= llrs.len() + 1,
        forall|s: int|
            0 <= s < 2 * bytes.len() ==> sd_nibble(sd_llr(#[trigger] stream_nibble(bytes, s)))
                == slot_nibble(llrs, s),
        forall|s: int|
            0 <= s < llrs.len() ==> (sd_llr(#[trigger] stream_nibble(bytes, s)) > 0 <==> llrs[s]
                > 0),
        llrs.len() % 2 == 1 ==> stream_nibble(bytes, llrs.len() as int) == 0,
{
    assert forall|s: int| 0 <= s < 2 * bytes.len() implies #[trigger] stream_nibble(bytes, s)
        == slot_nibble(llrs, s) by {
        let i = s / 2;
        assert(bytes[i] == slot_nibble(llrs, 2 * i) * 16 + slot_nibble(llrs, 2 * i + 1));
        lemma_slot_range(llrs, 2 * i);
        lemma_slot_range(llrs, 2 * i + 1);
        assert(s == 2 * i + s % 2);
    }
    assert forall|s: int| 0 <= s < 2 * bytes.len() implies sd_nibble(
        sd_llr(#[trigger] stream_nibble(bytes, s)),
    ) == slot_nibble(llrs, s) by {
        lemma_slot_range(llrs, s);
        law_nibble_roundtrip(slot_nibble(llrs, s));
    }
    assert forall|s: int| 0 <= s < llrs.len() implies (sd_llr(#[trigger] stream_nibble(bytes, s))
        > 0 <==> llrs[s] > 0) by {
        lemma_slot_range(llrs, s);
        law_hard_decision(llrs[s] as int, slot_nibble(llrs, s));
    }
}

/// The bytes of a packet determine its words.
pub proof fn law_bytes_determine_words(left: Seq<u16>, right: Seq<u16>, bytes: Seq<u8>)
    requires
        left.len() == SD_PACKET_WORDS,
        right.len() == SD_PACKET_WORDS,
        forall|w: int|
            0 <= w < SD_PACKET_WORDS ==> {
                &&& #[trigger] bytes[2 * w] == left[w] / 256
                &&& bytes[2 * w + 1] == left[w] % 256
            },
        forall|w: int|
            0 <= w < SD_PACKET_WORDS ==> {
                &&& #[trigger] bytes[2 * w] == right[w] / 256
                &&& bytes[2 * w + 1] == right[w] % 256
            },
    ensures
        left == right,
{
    assert forall|w: int| 0 <= w < SD_PACKET_WORDS implies left[w] == right[w] by {
        assert(bytes[2 * w] == left[w] / 256);
        assert(bytes[2 * w] == right[w] / 256);
    }
    assert(left =~= right);
}

/// The decimal or hexadecimal digit `d`, upper case.
pub open spec fn digit_char(d: int) -> char {
    if d == 0 { '0' } else if d == 1 { '1' } else if d == 2 { '2' } else if d == 3 { '3' } else if d
        == 4 { '4' } else if d == 5 { '5' } else if d == 6 { '6' } else if d == 7 { '7' } else if d
        == 8 { '8' } else if d == 9 { '9' } else if d == 10 { 'A' } else if d == 11 { 'B' } else if d
        == 12 { 'C' } else if d == 13 { 'D' } else if d == 14 { 'E' } else { 'F' }
}

/// `n` in decimal, without leading zeros.
pub open spec fn decimal_text(n: nat) -> Seq<char>
    decreases n,
{
    if n < 10 {
        seq![digit_char(n as int)]
    } else {
        decimal_text(n / 10).push(digit_char((n % 10) as int))
    }
}

/// `w` as four upper-case hexadecimal digits.
pub open spec fn hex_text(w: int) -> Seq<char> {
    seq![
        digit_char(w / 4096),
        digit_char(w / 256 % 16),
        digit_char(w / 16 % 16),
        digit_char(w % 16),
    ]
}

fn digit_str(d: u16) -> (text: &'static str)
    requires
        d < 16,
    ensures
        text@ == seq![digit_char(d as int)],
{
    proof {
        reveal_strlit("0");
        reveal_strlit("1");
        reveal_strlit("2");
        reveal_strlit("3");
        reveal_strlit("4");
        reveal_strlit("5");
        reveal_strlit("6");
        reveal_strlit("7");
        reveal_strlit("8");
        reveal_strlit("9");
        reveal_strlit("A");
        reveal_strlit("B");
        reveal_strlit("C");
        reveal_strlit("D");
        reveal_strlit("E");
        reveal_strlit("F");
    }
    let text = match d {
        0 => "0",
        1 => "1",
        2 => "2",
        3 => "3",
        4 => "4",
        5 => "5",
        6 => "6",
        7 => "7",
        8 => "8",
        9 => "9",
        10 => "A",
        11 => "B",
        12 => "C",
        13 => "D",
        14 => "E",
        _ => "F",
    };
    assert(text@ =~= seq![digit_char(d as int)]);
    text
}

fn append_decimal(out: &mut String, n: usize)
    ensures
        final(out)@ == old(out)@ + decimal_text(n as nat),
    decreases n,
{
    if n >= 10 {
        append_decimal(out, n / 10);
    }
    out.append(digit_str((n % 10) as u16));
    assert(out@ =~= old(out)@ + decimal_text(n as nat));
}

fn append_hex(out: &mut String, w: u16)
    ensures
        final(out)@ == old(out)@ + hex_text(w as int),
{
    out.append(digit_str(w / 4096));
    out.append(digit_str(w / 256 % 16));
    out.append(digit_str(w / 16 % 16));
    out.append(digit_str(w % 16));
    assert(out@ =~= old(out)@ + hex_text(w as int));
}

impl SoftDecisionError {
    /// The message that [`SoftDecisionError::message`] returns.
    pub open spec fn message_text(self) -> Seq<char> {
        match self {
            SoftDecisionError::TooManyChannelBits(n) => decimal_text(n as nat)
                + " channel bits exceeds the 192-slot DVSI SD packet"@,
            SoftDecisionError::BadHeader(w) => "bad SD packet header 0x"@ + hex_text(w as int)
                + ", expected 0x13EC"@,
        }
    }

    /// A message for people.
    pub fn message(&self) -> (text: String)
        ensures
            text@ == self.message_text(),
    {
        let mut text = String::new();
        match self {
            SoftDecisionError::TooManyChannelBits(n) => {
                append_decimal(&mut text, *n);
                text.append(" channel bits exceeds the 192-slot DVSI SD packet");
            },
            SoftDecisionError::BadHeader(w) => {
                text.append("bad SD packet header 0x");
                append_hex(&mut text, *w);
                text.append(", expected 0x13EC");
            },
        }
        assert(text@ =~= self.message_text());
        text
    }
}

// ---- Layouts, on the words and bytes themselves -----------------------------

/// The soft value of a bit is 8 plus a level for a one and 7 less a level for a
/// zero; the level counts full sixteens of the bit's magnitude and stops at 7.
pub proof fn law_soft_value_steps(llr: int)
    requires
        -128 <= llr <= 127,
    ensures
        llr > 0 ==> 8 <= sd_nibble(llr) <= 15 && 16 * (sd_nibble(llr) - 8) <= llr < 16 * (sd_nibble(
            llr,
        ) - 7),
        -128 < llr <= 0 ==> 0 <= sd_nibble(llr) <= 7 && 16 * (7 - sd_nibble(llr)) <= -llr < 16 * (8
            - sd_nibble(llr)),
        llr == -128 ==> sd_nibble(llr) == 0,
{
}

/// The soft bit of a soft value grows evenly with it, to 127 at either end: 7 times
/// its magnitude is the level times 127, but for rounding down; only the least
/// confident one is 1 in place of 0, to keep its sign.
pub proof fn law_soft_bit_steps(nibble: int)
    requires
        0 <= nibble <= 15,
    ensures
        nibble >= 9 ==> 7 * sd_llr(nibble) <= 127 * (nibble - 8) < 7 * (sd_llr(nibble) + 1),
        nibble == 8 ==> sd_llr(nibble) == 1,
        nibble <= 7 ==> 7 * -sd_llr(nibble) <= 127 * (7 - nibble) < 7 * (1 - sd_llr(nibble)),
        nibble == 15 ==> sd_llr(nibble) == 127,
        nibble == 0 ==> sd_llr(nibble) == -127,
{
}

/// The bytes of a raw stream.  Byte `i` holds bit `2 i` in its high nibble and bit
/// `2 i + 1` in its low one, so the first bits come first; its top bit and its bit 3
/// are their hard decisions; and after an odd number of bits the last low nibble is
/// zero.
pub proof fn law_stream_bytes(llrs: Seq<i8>, bytes: Seq<u8>, i: int)
    requires
        is_stream(bytes, llrs),
        0 <= i < bytes.len(),
    ensures
        2 * i < llrs.len(),
        2 * bytes.len() == llrs.len() + llrs.len() % 2,
        bytes[i] / 16 == sd_nibble(llrs[2 * i] as int),
        2 * i + 1 < llrs.len() ==> bytes[i] % 16 == sd_nibble(llrs[2 * i + 1] as int),
        2 * i + 1 == llrs.len() ==> bytes[i] % 16 == 0,
        bytes[i] >= 128 <==> llrs[2 * i] > 0,
        2 * i + 1 < llrs.len() ==> (bytes[i] % 16 >= 8 <==> llrs[2 * i + 1] > 0),
{
    assert(bytes[i] == slot_nibble(llrs, 2 * i) * 16 + slot_nibble(llrs, 2 * i + 1));
    lemma_slot_range(llrs, 2 * i);
    lemma_slot_range(llrs, 2 * i + 1);
}

/// The soft bits of an unpacked raw stream.  Bits `2 i` and `2 i + 1` come from the
/// high and the low nibble of byte `i`; each is a one exactly if its nibble is 8 or
/// more.
pub proof fn law_stream_bits(bytes: Seq<u8>, llrs: Seq<i8>, i: int)
    requires
        llrs.len() == 2 * bytes.len(),
        forall|s: int|
            0 <= s < llrs.len() ==> #[trigger] llrs[s] == sd_llr(stream_nibble(bytes, s)),
        0 <= i < bytes.len(),
    ensures
        llrs[2 * i] == sd_llr(bytes[i] as int / 16),
        llrs[2 * i + 1] == sd_llr(bytes[i] as int % 16),
        llrs[2 * i] > 0 <==> bytes[i] >= 128,
        llrs[2 * i + 1] > 0 <==> bytes[i] % 16 >= 8,
{
    assert(llrs[2 * i] == sd_llr(stream_nibble(bytes, 2 * i)));
    assert(llrs[2 * i + 1] == sd_llr(stream_nibble(bytes, 2 * i + 1)));
}

/// Packing a raw stream goes byte by byte: bits put in front by pairs come out as
/// bytes in front.
pub proof fn law_streams_concatenate(
    front: Seq<i8>,
    rest: Seq<i8>,
    front_bytes: Seq<u8>,
    rest_bytes: Seq<u8>,
    bytes: Seq<u8>,
)
    requires
        front.len() % 2 == 0,
        is_stream(front_bytes, front),
        is_stream(rest_bytes, rest),
        is_stream(bytes, front + rest),
    ensures
        bytes == front_bytes + rest_bytes,
{
    let joined = front_bytes + rest_bytes;
    assert(bytes.len() == joined.len());
    assert forall|i: int| 0 <= i < bytes.len() implies bytes[i] == joined[i] by {
        law_stream_bytes(front + rest, bytes, i);
        if i < front_bytes.len() {
            law_stream_bytes(front, front_bytes, i);
            assert((front + rest)[2 * i] == front[2 * i]);
            assert((front + rest)[2 * i + 1] == front[2 * i + 1]);
        } else {
            let k = i - front_bytes.len();
            law_stream_bytes(rest, rest_bytes, k);
            assert((front + rest)[2 * i] == rest[2 * k]);
            if 2 * k + 1 < rest.len() {
                assert((front + rest)[2 * i + 1] == rest[2 * k + 1]);
            }
        }
    }
    assert(bytes =~= joined);
}

/// The data words of a packet.  Word `12 + w` holds bits `4 w` to `4 w + 3`, the
/// first in its highest four bits; what lies past the last bit is zero.
pub proof fn law_packet_data_words(
    words: Seq<u16>,
    llrs: Seq<i8>,
    header: SdPacketHeader,
    w: int,
)
    requires
        is_packet(words, llrs, header),
        0 <= w < SD_DATA_WORDS,
    ensures
        words.len() == 60,
        words[12 + w] / 4096 == (if 4 * w < llrs.len() {
            sd_nibble(llrs[4 * w] as int)
        } else {
            0
        }),
        words[12 + w] / 256 % 16 == (if 4 * w + 1 < llrs.len() {
            sd_nibble(llrs[4 * w + 1] as int)
        } else {
            0
        }),
        words[12 + w] / 16 % 16 == (if 4 * w + 2 < llrs.len() {
            sd_nibble(llrs[4 * w + 2] as int)
        } else {
            0
        }),
        words[12 + w] % 16 == (if 4 * w + 3 < llrs.len() {
            sd_nibble(llrs[4 * w + 3] as int)
        } else {
            0
        }),
        4 * w < llrs.len() ==> (words[12 + w] >= 0x8000 <==> llrs[4 * w] > 0),
{
    assert(words[12 + w] == packet_word(llrs, header, 12 + w));
    lemma_slot_range(llrs, 4 * w);
    lemma_slot_range(llrs, 4 * w + 1);
    lemma_slot_range(llrs, 4 * w + 2);
    lemma_slot_range(llrs, 4 * w + 3);
    lemma_split_word(
        slot_nibble(llrs, 4 * w),
        slot_nibble(llrs, 4 * w + 1),
        slot_nibble(llrs, 4 * w + 2),
        slot_nibble(llrs, 4 * w + 3),
    );
}

/// The overhead words of a packet: the fixed word, the two control bytes with the
/// first in front, the five rate words, three zero words, and the two last control
/// words.
pub proof fn law_packet_overhead_words(words: Seq<u16>, llrs: Seq<i8>, header: SdPacketHeader)
    requires
        is_packet(words, llrs, header),
    ensures
        words[0] == 0x13EC,
        words[1] / 256 == header.power_control,
        words[1] % 256 == header.control_word1,
        words[2] == header.rate_info@[0],
        words[3] == header.rate_info@[1],
        words[4] == header.rate_info@[2],
        words[5] == header.rate_info@[3],
        words[6] == header.rate_info@[4],
        words[7] == 0,
        words[8] == 0,
        words[9] == 0,
        words[10] == header.dtmf_control,
        words[11] == header.control_word2,
{
    assert(words[0] == packet_word(llrs, header, 0));
    assert(words[1] == packet_word(llrs, header, 1));
    assert(words[2] == packet_word(llrs, header, 2));
    assert(words[3] == packet_word(llrs, header, 3));
    assert(words[4] == packet_word(llrs, header, 4));
    assert(words[5] == packet_word(llrs, header, 5));
    assert(words[6] == packet_word(llrs, header, 6));
    assert(words[7] == packet_word(llrs, header, 7));
    assert(words[8] == packet_word(llrs, header, 8));
    assert(words[9] == packet_word(llrs, header, 9));
    assert(words[10] == packet_word(llrs, header, 10));
    assert(words[11] == packet_word(llrs, header, 11));
}

/// The soft bits of an unpacked packet come from the words in order, four to a
/// word, the highest four bits first.
pub proof fn law_packet_bits(words: Seq<u16>, llrs: Seq<i8>, w: int)
    requires
        forall|s: int| 0 <= s < SD_SLOTS ==> llrs[s] == sd_llr(#[trigger] packet_nibble(words, s)),
        0 <= w < SD_DATA_WORDS,
    ensures
        llrs[4 * w] == sd_llr(words[12 + w] as int / 4096),
        llrs[4 * w + 1] == sd_llr(words[12 + w] as int / 256 % 16),
        llrs[4 * w + 2] == sd_llr(words[12 + w] as int / 16 % 16),
        llrs[4 * w + 3] == sd_llr(words[12 + w] as int % 16),
        llrs[4 * w] > 0 <==> words[12 + w] >= 0x8000,
{
    assert(llrs[4 * w] == sd_llr(packet_nibble(words, 4 * w)));
    assert(llrs[4 * w + 1] == sd_llr(packet_nibble(words, 4 * w + 1)));
    assert(llrs[4 * w + 2] == sd_llr(packet_nibble(words, 4 * w + 2)));
    assert(llrs[4 * w + 3] == sd_llr(packet_nibble(words, 4 * w + 3)));
}

/// The header of an unpacked packet is read off its overhead words.
pub proof fn law_header_fields(header: SdPacketHeader, words: Seq<u16>)
    requires
        is_header_of(header, words),
        words.len() == SD_PACKET_WORDS,
    ensures
        words[1] == 256 * header.power_control + header.control_word1,
        header.rate_info@[0] == words[2],
        header.rate_info@[1] == words[3],
        header.rate_info@[2] == words[4],
        header.rate_info@[3] == words[5],
        header.rate_info@[4] == words[6],
        header.dtmf_control == words[10],
        header.control_word2 == words[11],
{
    assert(words.subrange(2, 7)[0] == words[2]);
    assert(words.subrange(2, 7)[1] == words[3]);
    assert(words.subrange(2, 7)[2] == words[4]);
    assert(words.subrange(2, 7)[3] == words[5]);
    assert(words.subrange(2, 7)[4] == words[6]);
}

/// The number that a text of decimal digits denotes.
pub open spec fn decimal_value(text: Seq<char>) -> int
    decreases text.len(),
{
    if text.len() == 0 {
        0
    } else {
        10 * decimal_value(text.drop_last()) + (text.last() as int - '0' as int)
    }
}

/// The decimal text of a number denotes that number, consists of digits, and has no
/// leading zero but in the text of zero.
pub proof fn law_decimal_text(n: nat)
    ensures
        decimal_value(decimal_text(n)) == n,
        decimal_text(n).len() >= 1,
        forall|i: int|
            0 <= i < decimal_text(n).len() ==> '0' <= #[trigger] decimal_text(n)[i] <= '9',
        n > 0 ==> decimal_text(n)[0] != '0',
    decreases n,
{
    reveal_with_fuel(decimal_value, 2);
    if n >= 10 {
        law_decimal_text(n / 10);
        let text = decimal_text(n);
        assert(text.drop_last() =~= decimal_text(n / 10));
        assert(text.last() == digit_char((n % 10) as int));
    } else {
        assert(decimal_text(n).drop_last() =~= Seq::<char>::empty());
    }
}

/// Hexadecimal digits are `0` to `9` and `A` to `F`, and the four digits of a word
/// are its four-bit groups, the highest first.
pub proof fn law_hex_digits(w: int, d: int)
    requires
        0 <= w <= 0xFFFF,
        0 <= d <= 15,
    ensures
        d <= 9 ==> digit_char(d) as int == '0' as int + d,
        d >= 10 ==> digit_char(d) as int == 'A' as int + d - 10,
        hex_text(w).len() == 4,
        hex_text(w)[0] == digit_char(w / 4096),
        hex_text(w)[1] == digit_char(w / 256 % 16),
        hex_text(w)[2] == digit_char(w / 16 % 16),
        hex_text(w)[3] == digit_char(w % 16),
{
}

} // verus!
