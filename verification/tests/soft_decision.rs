//! Packet and stream formats of the soft-decision interface.

use blip25_mbe::dvsi_soft_decision::{
    llr_to_sd_nibble, pack_channel_bits, pack_nibble_stream, packet_to_bytes, sd_nibble_to_llr,
    unpack_nibble_stream, unpack_packet, SdPacketHeader, SoftDecisionError, DVSI_P25_FULLRATE_FEC,
    DVSI_P25_FULLRATE_NOFEC, IMBE_FULL_RATE_CHANNEL_BITS, RATE_33_CHANNEL_BITS, SD_HEADER,
    SD_OVERHEAD_WORDS, SD_SLOTS,
};

#[test]
fn doc_truth_table_anchors() {
    assert_eq!(llr_to_sd_nibble(-127), 0b0000, "most confident 0");
    assert_eq!(llr_to_sd_nibble(0), 0b0111, "least confident 0 (llr 0 is hard-0)");
    assert_eq!(llr_to_sd_nibble(1), 0b1000, "least confident 1");
    assert_eq!(llr_to_sd_nibble(127), 0b1111, "most confident 1");
}

#[test]
fn msb_is_the_hard_decision() {
    for llr in i8::MIN..=i8::MAX {
        let n = llr_to_sd_nibble(llr);
        let hard = u8::from(llr > 0);
        assert_eq!(n >> 3, hard, "llr {llr} -> sd {n:04b}");
        assert!(n <= 15);
    }
}

#[test]
fn nibble_increases_with_p_bit_is_one() {
    let mut prev = 0u8;
    for llr in -127i8..=127 {
        let n = llr_to_sd_nibble(llr);
        assert!(n >= prev, "non-monotonic at llr {llr}: {n} < {prev}");
        prev = n;
    }
}

#[test]
fn nibble_llr_roundtrips_every_value() {
    for n in 0u8..=15 {
        let llr = sd_nibble_to_llr(n);
        assert_eq!(llr_to_sd_nibble(llr), n, "sd {n} -> llr {llr} -> sd mismatch");
    }
}

#[test]
fn header_word_is_0x13ec() {
    let pkt = pack_channel_bits(&[], &SdPacketHeader::default()).unwrap();
    assert_eq!(pkt[0], SD_HEADER);
    assert_eq!(pkt[0], 0x13EC);
}

#[test]
fn rate_info_lands_in_words_2_through_6() {
    let header = SdPacketHeader::new([0x1111, 0x2222, 0x3333, 0x4444, 0x5555]);
    let pkt = pack_channel_bits(&[], &header).unwrap();
    assert_eq!(&pkt[2..7], &[0x1111, 0x2222, 0x3333, 0x4444, 0x5555]);
}

#[test]
fn sd0_is_high_nibble_of_first_data_word() {
    let llrs = [127i8, -127, -127, -127];
    let pkt = pack_channel_bits(&llrs, &SdPacketHeader::default()).unwrap();
    assert_eq!(pkt[SD_OVERHEAD_WORDS], 0xF000, "SD0 must be the high nibble");
}

#[test]
fn rate_33_uses_first_72_slots_rest_filled_zero() {
    let llrs = [100i8; RATE_33_CHANNEL_BITS];
    let pkt = pack_channel_bits(&llrs, &SdPacketHeader::default()).unwrap();
    let (_, sd) = unpack_packet(&pkt).unwrap();
    for (i, &s) in sd.iter().enumerate() {
        if i < RATE_33_CHANNEL_BITS {
            assert!(s > 0, "active slot {i} should be hard-1");
        } else {
            assert_eq!(llr_to_sd_nibble(s), 0, "unused slot {i} must be most-conf-0");
        }
    }
}

#[test]
fn pack_unpack_roundtrip_preserves_sd_field_and_header() {
    let header = SdPacketHeader {
        power_control: 0xAB,
        control_word1: 0xCD,
        rate_info: [0x0558, 0x086B, 0x1030, 0x0000, 0x0190],
        dtmf_control: 0x1234,
        control_word2: 0x5678,
    };
    let mut llrs = [0i8; IMBE_FULL_RATE_CHANNEL_BITS];
    let mut state = 0xC0FFEEu32;
    for s in llrs.iter_mut() {
        state = state.wrapping_mul(1664525).wrapping_add(1013904223);
        *s = (state >> 24) as i8;
    }
    let pkt = pack_channel_bits(&llrs, &header).unwrap();
    let (h2, sd) = unpack_packet(&pkt).unwrap();
    assert_eq!(h2, header, "header must round-trip");
    for (i, &orig) in llrs.iter().enumerate() {
        assert_eq!(
            llr_to_sd_nibble(sd[i]),
            llr_to_sd_nibble(orig),
            "slot {i} SD nibble changed across round-trip"
        );
    }
}

#[test]
fn too_many_channel_bits_errors() {
    let llrs = [0i8; SD_SLOTS + 1];
    assert_eq!(
        pack_channel_bits(&llrs, &SdPacketHeader::default()),
        Err(SoftDecisionError::TooManyChannelBits(SD_SLOTS + 1))
    );
}

#[test]
fn bad_header_rejected_on_unpack() {
    let mut pkt = pack_channel_bits(&[], &SdPacketHeader::default()).unwrap();
    pkt[0] = 0x0000;
    assert_eq!(unpack_packet(&pkt), Err(SoftDecisionError::BadHeader(0x0000)));
}

#[test]
fn packet_is_960_bits_and_header_bytes_are_0x13_0xec() {
    let pkt = pack_channel_bits(&[], &SdPacketHeader::default()).unwrap();
    let bytes = packet_to_bytes(&pkt);
    assert_eq!(bytes.len(), 120, "120 bytes = 960 bits");
    assert_eq!(bytes[0], 0x13);
    assert_eq!(bytes[1], 0xEC);
}

#[test]
fn nibble_stream_sd0_is_high_nibble() {
    let bytes = pack_nibble_stream(&[127i8, -127]);
    assert_eq!(bytes, vec![0xF0]);
}

#[test]
fn nibble_stream_roundtrips() {
    let mut llrs = [0i8; IMBE_FULL_RATE_CHANNEL_BITS];
    let mut state = 0xBADC0DEu32;
    for s in llrs.iter_mut() {
        state = state.wrapping_mul(1664525).wrapping_add(1013904223);
        *s = (state >> 24) as i8;
    }
    let bytes = pack_nibble_stream(&llrs);
    assert_eq!(bytes.len(), IMBE_FULL_RATE_CHANNEL_BITS / 2, "2 nibbles/byte");
    let back = unpack_nibble_stream(&bytes);
    for (i, &orig) in llrs.iter().enumerate() {
        assert_eq!(
            llr_to_sd_nibble(back[i]),
            llr_to_sd_nibble(orig),
            "slot {i} nibble changed across stream round-trip"
        );
    }
}

#[test]
fn nibble_stream_odd_length_pads_low_nibble_zero() {
    let bytes = pack_nibble_stream(&[127i8]);
    assert_eq!(bytes, vec![0xF0]);
}

#[test]
fn nibble_stream_msb_is_hard_bit() {
    let llrs: Vec<i8> = (-120..120).step_by(7).collect();
    let bytes = pack_nibble_stream(&llrs);
    let recovered = unpack_nibble_stream(&bytes);
    for (i, &llr) in llrs.iter().enumerate() {
        let hard = llr > 0;
        assert_eq!(recovered[i] > 0, hard, "slot {i} hard bit flipped");
    }
}

#[test]
fn verified_rate_control_words_match_cmpp25() {
    assert_eq!(
        DVSI_P25_FULLRATE_FEC,
        [0x0558, 0x086B, 0x1030, 0x0000, 0x0000, 0x0190]
    );
    assert_eq!(
        DVSI_P25_FULLRATE_NOFEC,
        [0x0558, 0x086B, 0x0000, 0x0000, 0x0000, 0x0158]
    );
}

#[test]
fn soft_values_of_the_middle_of_the_ramp() {
    assert_eq!(llr_to_sd_nibble(15), 8);
    assert_eq!(llr_to_sd_nibble(16), 9);
    assert_eq!(llr_to_sd_nibble(-16), 6);
    assert_eq!(llr_to_sd_nibble(-128), 0);
    assert_eq!(sd_nibble_to_llr(0), -127);
    assert_eq!(sd_nibble_to_llr(7), 0);
    assert_eq!(sd_nibble_to_llr(8), 1);
    assert_eq!(sd_nibble_to_llr(11), 54);
    assert_eq!(sd_nibble_to_llr(15), 127);
}

#[test]
fn upper_bits_of_a_soft_value_are_ignored() {
    for n in 0u8..=255 {
        assert_eq!(sd_nibble_to_llr(n), sd_nibble_to_llr(n & 15));
    }
}

#[test]
fn full_packet_is_accepted() {
    let llrs = [-128i8; SD_SLOTS];
    let pkt = pack_channel_bits(&llrs, &SdPacketHeader::default()).unwrap();
    assert!(pkt[SD_OVERHEAD_WORDS..].iter().all(|&w| w == 0));
}

#[test]
fn data_word_holds_four_slots_in_order() {
    let llrs = [127i8, 1, 0, -127, 32];
    let header = SdPacketHeader {
        power_control: 0x12,
        control_word1: 0x34,
        rate_info: [0; 5],
        dtmf_control: 0xBEEF,
        control_word2: 0xCAFE,
    };
    let pkt = pack_channel_bits(&llrs, &header).unwrap();
    assert_eq!(pkt[1], 0x1234);
    assert_eq!(&pkt[7..10], &[0, 0, 0]);
    assert_eq!(pkt[10], 0xBEEF);
    assert_eq!(pkt[11], 0xCAFE);
    assert_eq!(pkt[12], 0xF870);
    assert_eq!(pkt[13], 0xA000);
}

#[test]
fn bytes_are_big_endian_words() {
    let mut words = [0u16; 60];
    for (w, slot) in words.iter_mut().enumerate() {
        *slot = 0x0101 * w as u16 + 7;
    }
    let bytes = packet_to_bytes(&words);
    for w in 0..60 {
        assert_eq!(u16::from_be_bytes([bytes[2 * w], bytes[2 * w + 1]]), words[w]);
    }
}

#[test]
fn error_messages() {
    assert_eq!(
        SoftDecisionError::TooManyChannelBits(1930).message(),
        "1930 channel bits exceeds the 192-slot DVSI SD packet"
    );
    assert_eq!(
        SoftDecisionError::TooManyChannelBits(0).message(),
        "0 channel bits exceeds the 192-slot DVSI SD packet"
    );
    assert_eq!(
        SoftDecisionError::BadHeader(0x0AF5).message(),
        "bad SD packet header 0x0AF5, expected 0x13EC"
    );
}
