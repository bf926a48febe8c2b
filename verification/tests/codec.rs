use slmodem_sip_bridge::codec::{
    align_slin_buffer, decode_ulaw, encode_ulaw, slin_sample_to_ulaw, ulaw_sample_to_slin,
};

#[test]
fn silence_roundtrips() {
    // Digital silence: slin 0 encodes to mu-law 0xFF, decodes back to 0.
    assert_eq!(slin_sample_to_ulaw(0), 0xFF);
    assert_eq!(ulaw_sample_to_slin(0xFF), 0);
}

#[test]
fn max_positive_roundtrip_within_quantization() {
    let ulaw = slin_sample_to_ulaw(i16::MAX);
    let back = ulaw_sample_to_slin(ulaw);
    let error = (back as i32 - i16::MAX as i32).unsigned_abs();
    assert!(error < 700, "roundtrip error {error} exceeds tolerance");
}

#[test]
fn max_negative_roundtrip_within_quantization() {
    let ulaw = slin_sample_to_ulaw(i16::MIN + 1);
    let back = ulaw_sample_to_slin(ulaw);
    let error = (back as i32 - (i16::MIN as i32 + 1)).unsigned_abs();
    assert!(error < 700, "roundtrip error {error} exceeds tolerance");
}

#[test]
fn small_values_have_fine_quantization() {
    for sample in [-100i16, -10, -1, 1, 10, 100] {
        let ulaw = slin_sample_to_ulaw(sample);
        let back = ulaw_sample_to_slin(ulaw);
        let error = (back as i32 - sample as i32).unsigned_abs();
        assert!(error < 8, "sample {sample}: roundtrip error {error} too large for small value");
    }
}

#[test]
fn buffer_encode_decode_preserves_length() {
    let slin_input: Vec<u8> = vec![0, 0, 0xFF, 0x7F, 0x01, 0x80];
    let ulaw = encode_ulaw(&slin_input);
    assert_eq!(ulaw.len(), 3, "ulaw should be half the slin size");
    let slin_output = decode_ulaw(&ulaw);
    assert_eq!(slin_output.len(), 6, "decoded slin should be twice ulaw size");
}

#[test]
fn align_handles_even_input() {
    let mut residual = None;
    let result = align_slin_buffer(&mut residual, &[1, 2, 3, 4]);
    assert_eq!(result, vec![1, 2, 3, 4]);
    assert!(residual.is_none());
}

#[test]
fn align_handles_odd_input() {
    let mut residual = None;
    let result = align_slin_buffer(&mut residual, &[1, 2, 3]);
    assert_eq!(result, vec![1, 2]);
    assert_eq!(residual, Some(3));
}

#[test]
fn align_prepends_residual() {
    let mut residual = Some(0xAA);
    let result = align_slin_buffer(&mut residual, &[0xBB, 0xCC, 0xDD]);
    assert_eq!(result, vec![0xAA, 0xBB, 0xCC, 0xDD]);
    assert!(residual.is_none());
}

#[test]
fn known_code_points() {
    assert_eq!(slin_sample_to_ulaw(i16::MAX), 0x80);
    assert_eq!(slin_sample_to_ulaw(i16::MIN), 0x00);
    assert_eq!(slin_sample_to_ulaw(-1), 0x7F);
    assert_eq!(slin_sample_to_ulaw(1000), 0xCE);
    assert_eq!(ulaw_sample_to_slin(0x80), 32124);
    assert_eq!(ulaw_sample_to_slin(0x00), -32124);
    assert_eq!(ulaw_sample_to_slin(0xCE), 988);
}

#[test]
fn every_byte_but_negative_zero_survives() {
    for byte in 0..=255u8 {
        let again = slin_sample_to_ulaw(ulaw_sample_to_slin(byte));
        if byte == 127 {
            assert_eq!(again, 255);
        } else {
            assert_eq!(again, byte);
        }
    }
}

#[test]
fn every_sample_stays_in_tolerance_and_order() {
    let mut last = i16::MIN as i32;
    for sample in i16::MIN..=i16::MAX {
        let back = ulaw_sample_to_slin(slin_sample_to_ulaw(sample)) as i32;
        assert!((back - sample as i32).abs() < 700);
        assert!(back >= last);
        last = back;
    }
}

#[test]
fn opposite_samples_decode_to_opposite_values() {
    for sample in [1i16, 31, 500, 9999, 32767] {
        let up = ulaw_sample_to_slin(slin_sample_to_ulaw(sample));
        let down = ulaw_sample_to_slin(slin_sample_to_ulaw(-sample));
        assert_eq!(up, -down);
    }
}

#[test]
fn buffers_hold_little_endian_samples() {
    assert_eq!(encode_ulaw(&[0xE8, 0x03, 0x00, 0x80]), vec![0xCE, 0x00]);
    assert_eq!(decode_ulaw(&[0xCE, 0x00]), vec![0xDC, 0x03, 0x84, 0x82]);
    assert_eq!(encode_ulaw(&[]), Vec::<u8>::new());
}

#[test]
fn alignment_does_not_depend_on_reads() {
    let stream: Vec<u8> = (0..31u8).collect();
    let mut whole = None;
    let at_once = align_slin_buffer(&mut whole, &stream);
    for cut in 0..stream.len() {
        let mut residual = None;
        let mut parts = align_slin_buffer(&mut residual, &stream[..cut]);
        parts.extend(align_slin_buffer(&mut residual, &stream[cut..]));
        assert_eq!(parts, at_once);
        assert_eq!(residual, whole);
    }
}
