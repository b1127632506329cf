use lsb_stego::{
    embed, extract, frame_bits, perform, vec_u8_to_bin, vec_u8_to_lsb, write_bits, Mode,
    StegoError, HEADER_BITS, MAX_HEADER_VALUE,
};

const F: bool = false;
const T: bool = true;

fn sample_bytes(len: usize, seed: u32) -> Vec<u8> {
    let mut state = seed;
    let mut out = Vec::with_capacity(len);
    for _ in 0..len {
        state = state.wrapping_mul(1664525).wrapping_add(1013904223);
        out.push((state >> 24) as u8);
    }
    out
}

#[test]
fn header_constants() {
    assert_eq!(HEADER_BITS, 16);
    assert_eq!(MAX_HEADER_VALUE, 65535);
}

#[test]
fn frame_without_header_is_the_payload() {
    let bits = vec_u8_to_bin(&[5, 9]);
    assert_eq!(frame_bits(&bits, false), Ok(bits.clone()));
    assert_eq!(frame_bits(&[], false), Ok(vec![]));
}

#[test]
fn frame_with_header_leads_with_the_bit_count() {
    let bits = vec_u8_to_bin(&[5, 9]);
    let frame = frame_bits(&bits, true).unwrap();
    assert_eq!(frame.len(), 32);
    assert_eq!(
        frame,
        vec![
            F, F, F, F, F, F, F, F, F, F, F, T, F, F, F, F, F, F, F, F, F, T, F, T, F, F, F, F, T,
            F, F, T
        ]
    );
    assert_eq!(frame_bits(&[], true), Ok(vec![F; 16]));
    assert_eq!(
        frame_bits(&[T, T, T], true),
        Ok(vec![F, F, F, F, F, F, F, F, F, F, F, F, F, F, T, T, T, T, T])
    );
}

#[test]
fn frame_with_header_takes_65535_bits_and_no_more() {
    let most = vec![T; 65535];
    let frame = frame_bits(&most, true).unwrap();
    assert_eq!(frame.len(), 65551);
    assert_eq!(frame[..16], [T; 16]);
    let over = vec![T; 65536];
    assert_eq!(frame_bits(&over, true), Err(StegoError::HeaderOverflow));
    assert_eq!(frame_bits(&over, false), Ok(over.clone()));
}

#[test]
fn write_bits_sets_parities() {
    let mut carrier = vec![4u8, 4, 7, 7, 10];
    assert_eq!(write_bits(&[T, F, T, F], &mut carrier), Ok(()));
    assert_eq!(carrier, vec![5, 4, 7, 6, 10]);
}

#[test]
fn write_bits_fills_a_carrier_exactly_and_refuses_one_bit_more() {
    let mut carrier = vec![4u8; 17];
    assert_eq!(write_bits(&[T; 17], &mut carrier), Ok(()));
    assert_eq!(carrier, vec![5u8; 17]);
    let mut carrier = vec![4u8; 17];
    assert_eq!(
        write_bits(&[T; 18], &mut carrier),
        Err(StegoError::CapacityError { required: 18, available: 17 })
    );
    assert_eq!(carrier, vec![4u8; 17]);
}

#[test]
fn write_bits_with_an_empty_frame_changes_nothing() {
    let mut carrier = vec![1u8, 2, 3];
    assert_eq!(write_bits(&[], &mut carrier), Ok(()));
    assert_eq!(carrier, vec![1, 2, 3]);
    let mut none: Vec<u8> = vec![];
    assert_eq!(write_bits(&[], &mut none), Ok(()));
}

#[test]
fn embed_without_header_on_an_even_carrier() {
    let mut carrier = vec![4u8; 32];
    assert_eq!(embed(&[5, 9], &mut carrier, false), Ok(()));
    assert_eq!(
        carrier,
        vec![
            4, 4, 4, 4, 4, 5, 4, 5, 4, 4, 4, 4, 5, 4, 4, 5, 4, 4, 4, 4, 4, 4, 4, 4, 4, 4, 4, 4, 4,
            4, 4, 4
        ]
    );
    assert_eq!(extract(&carrier, false, Some(16)), Ok(vec![5, 9]));
}

#[test]
fn embed_with_header_on_an_even_carrier() {
    let mut carrier = vec![4u8; 40];
    assert_eq!(embed(&[5, 9], &mut carrier, true), Ok(()));
    assert_eq!(
        carrier,
        vec![
            4, 4, 4, 4, 4, 4, 4, 4, 4, 4, 4, 5, 4, 4, 4, 4, 4, 4, 4, 4, 4, 5, 4, 5, 4, 4, 4, 4, 5,
            4, 4, 5, 4, 4, 4, 4, 4, 4, 4, 4
        ]
    );
    assert_eq!(
        vec_u8_to_lsb(&carrier[..16]),
        vec![F, F, F, F, F, F, F, F, F, F, F, T, F, F, F, F]
    );
    assert_eq!(extract(&carrier, true, None), Ok(vec![5, 9]));
}

#[test]
fn embed_with_header_on_a_carrier_of_exactly_32() {
    let mut carrier = vec![4u8; 32];
    assert_eq!(embed(&[5, 9], &mut carrier, true), Ok(()));
    assert_eq!(extract(&carrier, true, None), Ok(vec![5, 9]));
}

#[test]
fn embed_lowers_odd_bytes_for_zero_bits() {
    let mut carrier = vec![7u8; 10];
    assert_eq!(embed(&[0xA5], &mut carrier, false), Ok(()));
    assert_eq!(carrier, vec![7, 6, 7, 6, 6, 7, 6, 7, 7, 7]);
    let mut carrier = vec![255u8, 0, 255, 0, 255, 0, 255, 0];
    assert_eq!(embed(&[0x0F], &mut carrier, false), Ok(()));
    assert_eq!(carrier, vec![254, 0, 254, 0, 255, 1, 255, 1]);
}

#[test]
fn embed_leaves_the_bytes_beyond_the_frame() {
    let before = sample_bytes(100, 7);
    let mut carrier = before.clone();
    assert_eq!(embed(&[1, 2, 3], &mut carrier, true), Ok(()));
    assert_eq!(carrier.len(), 100);
    assert_eq!(carrier[40..], before[40..]);
    for i in 0..40 {
        assert_eq!(carrier[i] >> 1, before[i] >> 1);
    }
}

#[test]
fn embed_twice_is_embed_once() {
    let mut once = sample_bytes(64, 3);
    assert_eq!(embed(b"hello", &mut once, true), Ok(()));
    let mut twice = once.clone();
    assert_eq!(embed(b"hello", &mut twice, true), Ok(()));
    assert_eq!(twice, once);
}

#[test]
fn embed_an_empty_payload() {
    let mut carrier = vec![3u8; 20];
    assert_eq!(embed(&[], &mut carrier, false), Ok(()));
    assert_eq!(carrier, vec![3u8; 20]);
    assert_eq!(embed(&[], &mut carrier, true), Ok(()));
    assert_eq!(carrier, vec![2, 2, 2, 2, 2, 2, 2, 2, 2, 2, 2, 2, 2, 2, 2, 2, 3, 3, 3, 3]);
    assert_eq!(extract(&carrier, true, None), Ok(vec![]));
    let mut none: Vec<u8> = vec![];
    assert_eq!(embed(&[], &mut none, false), Ok(()));
}

#[test]
fn embed_fills_a_carrier_exactly_without_header() {
    let mut carrier = vec![4u8; 16];
    assert_eq!(embed(&[5, 9], &mut carrier, false), Ok(()));
    assert_eq!(carrier, vec![4, 4, 4, 4, 4, 5, 4, 5, 4, 4, 4, 4, 5, 4, 4, 5]);
    assert_eq!(extract(&carrier, false, Some(16)), Ok(vec![5, 9]));
}

#[test]
fn embed_refuses_a_carrier_one_byte_short_without_header() {
    let mut carrier = vec![4u8; 15];
    assert_eq!(
        embed(&[5, 9], &mut carrier, false),
        Err(StegoError::CapacityError { required: 16, available: 15 })
    );
    assert_eq!(carrier, vec![4u8; 15]);
}

#[test]
fn embed_refuses_a_carrier_one_byte_short_with_header() {
    let mut carrier = vec![4u8; 31];
    assert_eq!(
        embed(&[5, 9], &mut carrier, true),
        Err(StegoError::CapacityError { required: 32, available: 31 })
    );
    assert_eq!(carrier, vec![4u8; 31]);
}

#[test]
fn embed_refuses_an_empty_carrier() {
    let mut carrier: Vec<u8> = vec![];
    assert_eq!(
        embed(&[1], &mut carrier, false),
        Err(StegoError::CapacityError { required: 8, available: 0 })
    );
    assert_eq!(
        embed(&[], &mut carrier, true),
        Err(StegoError::CapacityError { required: 16, available: 0 })
    );
}

#[test]
fn embed_with_header_takes_8191_bytes() {
    let payload = sample_bytes(8191, 11);
    let mut carrier = sample_bytes(65528 + 16, 12);
    assert_eq!(embed(&payload, &mut carrier, true), Ok(()));
    assert_eq!(
        vec_u8_to_lsb(&carrier[..16]),
        vec![T, T, T, T, T, T, T, T, T, T, T, T, T, F, F, F]
    );
    assert_eq!(extract(&carrier, true, None), Ok(payload));
}

#[test]
fn embed_with_header_refuses_8192_bytes() {
    let payload = sample_bytes(8192, 13);
    let before = sample_bytes(70000, 14);
    let mut carrier = before.clone();
    assert_eq!(embed(&payload, &mut carrier, true), Err(StegoError::HeaderOverflow));
    assert_eq!(carrier, before);
}

#[test]
fn embed_reports_header_overflow_before_capacity() {
    let payload = vec![0u8; 8192];
    let mut carrier = vec![1u8; 4];
    assert_eq!(embed(&payload, &mut carrier, true), Err(StegoError::HeaderOverflow));
    assert_eq!(carrier, vec![1u8; 4]);
}

#[test]
fn embed_without_header_has_no_header_limit() {
    let payload = sample_bytes(8192, 15);
    let mut carrier = sample_bytes(65536, 16);
    assert_eq!(embed(&payload, &mut carrier, false), Ok(()));
    assert_eq!(extract(&carrier, false, Some(65536)), Ok(payload));
}

#[test]
fn extract_with_header_needs_sixteen_bytes() {
    assert_eq!(extract(&[], true, None), Err(StegoError::TruncatedCarrier));
    assert_eq!(extract(&[0u8; 15], true, None), Err(StegoError::TruncatedCarrier));
    assert_eq!(extract(&[1u8; 15], true, None), Err(StegoError::TruncatedCarrier));
    assert_eq!(extract(&[0u8; 16], true, None), Ok(vec![]));
}

#[test]
fn extract_with_header_needs_as_many_bytes_as_declared() {
    let mut carrier = vec![0u8; 16 + 7];
    carrier[12] = 1;
    assert_eq!(extract(&carrier, true, None), Err(StegoError::TruncatedCarrier));
    carrier.push(0);
    assert_eq!(extract(&carrier, true, None), Ok(vec![0]));
    assert_eq!(extract(&[1u8; 16], true, None), Err(StegoError::TruncatedCarrier));
    assert_eq!(extract(&[1u8; 65550], true, None), Err(StegoError::TruncatedCarrier));
}

#[test]
fn extract_with_header_reads_the_declared_length() {
    let mut carrier = vec![0u8; 16];
    carrier[12] = 1;
    carrier.extend_from_slice(&[9, 8, 7, 6, 5, 4, 3, 2, 255, 255, 255]);
    assert_eq!(extract(&carrier, true, None), Ok(vec![0b1010_1010]));
    assert_eq!(extract(&carrier, true, Some(0)), Ok(vec![0b1010_1010]));
}

#[test]
fn extract_with_header_of_all_ones() {
    let carrier = vec![1u8; 16 + 65535];
    let found = extract(&carrier, true, None).unwrap();
    assert_eq!(found, vec![255u8; 8191]);
}

#[test]
fn extract_drops_a_trailing_partial_group() {
    let mut carrier = vec![0u8; 16];
    carrier[12] = 1;
    carrier[15] = 1;
    carrier.extend_from_slice(&[1; 9]);
    assert_eq!(extract(&carrier, true, None), Ok(vec![255]));
    assert_eq!(extract(&[1u8; 20], false, Some(15)), Ok(vec![255]));
    assert_eq!(extract(&[1u8; 20], false, Some(7)), Ok(vec![]));
}

#[test]
fn extract_without_header_reads_the_known_length() {
    let carrier = [4u8, 4, 4, 4, 4, 5, 4, 5, 4, 4, 4, 4, 5, 4, 4, 5, 9, 9];
    assert_eq!(extract(&carrier, false, Some(16)), Ok(vec![5, 9]));
    assert_eq!(extract(&carrier, false, Some(8)), Ok(vec![5]));
    assert_eq!(extract(&carrier, false, Some(0)), Ok(vec![]));
    assert_eq!(extract(&carrier, false, Some(18)), Ok(vec![5, 9]));
    assert_eq!(extract(&[], false, Some(0)), Ok(vec![]));
}

#[test]
fn extract_without_header_needs_as_many_bytes_as_known() {
    assert_eq!(extract(&[0u8; 16], false, Some(17)), Err(StegoError::TruncatedCarrier));
    assert_eq!(extract(&[], false, Some(1)), Err(StegoError::TruncatedCarrier));
    assert_eq!(
        extract(&[0u8; 16], false, Some(u32::MAX)),
        Err(StegoError::TruncatedCarrier)
    );
}

#[test]
fn extract_does_not_depend_on_the_upper_bits() {
    let mut low = vec![0u8; 40];
    assert_eq!(embed(b"abc", &mut low, true), Ok(()));
    let high: Vec<u8> = low.iter().map(|b| b | 0xF0).collect();
    assert_eq!(extract(&low, true, None), Ok(b"abc".to_vec()));
    assert_eq!(extract(&high, true, None), Ok(b"abc".to_vec()));
}

#[test]
fn whatever_is_embedded_with_header_is_extracted() {
    for len in [0usize, 1, 2, 3, 17, 100, 1000] {
        let payload = sample_bytes(len, len as u32 + 1);
        for spare in [0usize, 1, 50] {
            let mut carrier = sample_bytes(8 * len + 16 + spare, 99);
            assert_eq!(embed(&payload, &mut carrier, true), Ok(()));
            assert_eq!(extract(&carrier, true, None), Ok(payload.clone()));
        }
    }
}

#[test]
fn whatever_is_embedded_without_header_is_extracted() {
    for len in [0usize, 1, 2, 3, 17, 100, 1000] {
        let payload = sample_bytes(len, len as u32 + 5);
        for spare in [0usize, 1, 50] {
            let mut carrier = sample_bytes(8 * len + spare, 98);
            assert_eq!(embed(&payload, &mut carrier, false), Ok(()));
            assert_eq!(
                extract(&carrier, false, Some(8 * len as u32)),
                Ok(payload.clone())
            );
        }
    }
}

#[test]
fn mode_says_what_it_does() {
    assert!(Mode::WriteWithHeader.is_write());
    assert!(Mode::WriteRaw.is_write());
    assert!(!Mode::ReadWithHeader.is_write());
    assert!(!Mode::ReadRaw.is_write());
    assert!(Mode::WriteWithHeader.uses_header());
    assert!(!Mode::WriteRaw.uses_header());
    assert!(Mode::ReadWithHeader.uses_header());
    assert!(!Mode::ReadRaw.uses_header());
}

#[test]
fn perform_writes_and_reads_with_header() {
    let mut carrier = vec![4u8; 40];
    assert_eq!(perform(Mode::WriteWithHeader, &[5, 9], &mut carrier, None), Ok(None));
    let mut expected = vec![4u8; 40];
    assert_eq!(embed(&[5, 9], &mut expected, true), Ok(()));
    assert_eq!(carrier, expected);
    assert_eq!(
        perform(Mode::ReadWithHeader, &[], &mut carrier, None),
        Ok(Some(vec![5, 9]))
    );
    assert_eq!(carrier, expected);
}

#[test]
fn perform_writes_and_reads_raw() {
    let mut carrier = vec![4u8; 32];
    assert_eq!(perform(Mode::WriteRaw, &[5, 9], &mut carrier, None), Ok(None));
    assert_eq!(
        carrier,
        vec![
            4, 4, 4, 4, 4, 5, 4, 5, 4, 4, 4, 4, 5, 4, 4, 5, 4, 4, 4, 4, 4, 4, 4, 4, 4, 4, 4, 4, 4,
            4, 4, 4
        ]
    );
    let written = carrier.clone();
    assert_eq!(
        perform(Mode::ReadRaw, &[1, 2, 3], &mut carrier, Some(16)),
        Ok(Some(vec![5, 9]))
    );
    assert_eq!(carrier, written);
}

#[test]
fn perform_hands_on_each_error() {
    let mut carrier = vec![4u8; 8];
    assert_eq!(
        perform(Mode::WriteRaw, &[5, 9], &mut carrier, None),
        Err(StegoError::CapacityError { required: 16, available: 8 })
    );
    assert_eq!(
        perform(Mode::WriteWithHeader, &[0u8; 8192], &mut carrier, None),
        Err(StegoError::HeaderOverflow)
    );
    assert_eq!(
        perform(Mode::ReadWithHeader, &[], &mut carrier, None),
        Err(StegoError::TruncatedCarrier)
    );
    assert_eq!(
        perform(Mode::ReadRaw, &[], &mut carrier, Some(9)),
        Err(StegoError::TruncatedCarrier)
    );
    assert_eq!(carrier, vec![4u8; 8]);
}
