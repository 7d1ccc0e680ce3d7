use bytes::BufMut;
use compu::decoder::{DecodeError, DecodeStatus, Interface};
use compu::{decoder, encoder, Buffer, EncodeOp, EncodeStatus};

const SMALL: &[u8] = b"XXXXXXXXXXYYYYYYYYYY";

const SMALL_BROTLI: &[u8] = &[
    0x1b, 0x13, 0x00, 0x00, 0xa4, 0xb0, 0xb2, 0xea, 0x81, 0x47, 0x02, 0x8a,
];

const WORDS: [&str; 16] = [
    "alice", "rabbit", "queen", "garden", "croquet", "hatter", "dormouse", "teapot", "curious",
    "wonder", "mushroom", "caterpillar", "duchess", "gryphon", "turtle", "verdict",
];

/// About 150 KiB of text with the statistics of prose: words from a small
/// vocabulary in an order that does not repeat.
fn large() -> Vec<u8> {
    let mut text = Vec::with_capacity(152_089);
    let mut state: u32 = 29;
    while text.len() < 152_089 {
        state = state.wrapping_mul(1_103_515_245).wrapping_add(12_345);
        let word = WORDS[((state >> 16) % 16) as usize];
        text.extend_from_slice(word.as_bytes());
        text.push(if (state >> 20) % 11 == 0 { b'\n' } else { b' ' });
    }
    text.truncate(152_089);
    text
}

fn brotli_of(data: &[u8]) -> Vec<u8> {
    let mut encoder = <dyn encoder::Interface>::brotli_rust(Default::default());
    let mut compressed = Vec::new();
    let result = encoder.encode_vec_full(data, &mut compressed, EncodeOp::Finish).expect("room");
    assert_eq!(result.status, EncodeStatus::Finished);
    compressed
}

fn test_case(idx: usize, decoder: &mut decoder::Decoder, data: &[u8], compressed: &[u8]) {
    println!("{idx}: DATA.len()={} || COMPRESSED.len()={}", data.len(), compressed.len());

    //Full
    let mut output = vec![0; data.len()];
    let result = decoder.decode(compressed, output.as_mut());
    assert_eq!(result.status, Ok(DecodeStatus::Finished));
    assert_eq!(result.input_remain, 0);
    assert_eq!(result.output_remain, 0);
    assert_eq!(data, output);
    decoder.reset();

    //Partial buffer
    let data_sets = 2;
    let result = decoder.decode(compressed, &mut output[..data_sets / 2]);
    assert_eq!(result.status, Ok(DecodeStatus::NeedOutput));
    assert_eq!(result.output_remain, 0);

    //decoders like Brotli come with own buffers that store everything inside, while zlib will wait
    //for more output buffer to be available before proceeding.
    let remaining = &compressed[compressed.len() - result.input_remain..];
    let result = decoder.decode(remaining, &mut output[data_sets / 2..]);
    assert_eq!(result.status, Ok(DecodeStatus::Finished));
    assert_eq!(data, output);
    decoder.reset();

    //Buffered decoder
    let mut buffer = Buffer::<4096>::new();
    let mut buffer_input = compressed;
    output.clear();
    loop {
        let (consumed, status) = match buffer.decode(decoder, buffer_input) {
            Ok(result) => result,
            Err(error) => panic!("Unexpected failure: {:?}", decoder.describe_error(error)),
        };
        buffer_input = &buffer_input[consumed..];
        output.extend_from_slice(buffer.data());
        buffer.consume();
        if status == DecodeStatus::Finished {
            break;
        }
    }
    assert_eq!(data, output);
    decoder.reset();

    //Full vec
    output.clear();
    let result = decoder.decode_vec_full(compressed, &mut output).expect("success");
    assert_eq!(result.status, Ok(DecodeStatus::Finished));
    assert_eq!(result.input_remain, 0);
    //Spare capacity leftover will be present as we do not have precise ability to allocate
    assert_eq!(data, output);
    decoder.reset();

    let error = DecodeError::no_error();
    let error = decoder.describe_error(error).expect("to get generic error");
    println!("error={error}");
}

fn test_case_bytes(idx: usize, decoder: &mut decoder::Decoder, data: &[u8], compressed: &[u8]) {
    println!("bytes({idx}): DATA.len()={} || COMPRESSED.len()={}", data.len(), compressed.len());

    //Full
    let mut output = bytes::BytesMut::new();
    //BytesMut allocs automatically, but generally you should prefer to reserve memory
    //output.reserve(data.len());
    let expected_output_remain = output.remaining_mut() - data.len();
    let result = decoder.decode_buf(compressed, &mut output);
    assert_eq!(result.status, Ok(DecodeStatus::Finished));
    assert_eq!(result.input_remain, 0);
    assert_eq!(result.output_remain, expected_output_remain);
    assert_eq!(data, output);
    decoder.reset();
}

#[test]
fn should_decode_brotli_rust() {
    let large = large();
    let data_sets: [&[u8]; 2] = [SMALL, &large];
    let compressed_sets: [Vec<u8>; 2] = [SMALL_BROTLI.to_vec(), brotli_of(&large)];
    let mut decoder = <dyn Interface>::brotli_rust();
    for idx in 0..data_sets.len() {
        test_case(idx, &mut decoder, data_sets[idx], &compressed_sets[idx]);
        test_case_bytes(idx, &mut decoder, data_sets[idx], &compressed_sets[idx]);
    }
}

#[test]
fn should_describe_every_brotli_error_that_has_a_name() {
    let decoder = <dyn Interface>::brotli_rust();
    assert_eq!(decoder.describe_error(DecodeError::no_error()), Some("NO_ERROR"));
    assert_eq!(
        decoder.describe_error(DecodeError::from_raw(-1)),
        Some("ERROR_FORMAT_EXUBERANT_NIBBLE")
    );
    assert_eq!(decoder.describe_error(DecodeError::from_raw(-16)), Some("ERROR_FORMAT_DISTANCE"));
    assert_eq!(decoder.describe_error(DecodeError::from_raw(-31)), Some("ERROR_UNREACHABLE"));
    for reserved in [-17, -18, -23, -24, -28, -29, -32, 1, 2, 3, i32::MIN, i32::MAX] {
        assert_eq!(decoder.describe_error(DecodeError::from_raw(reserved)), None);
    }
    let named = (-31..=0).filter(|code| decoder.describe_error(DecodeError::from_raw(*code)).is_some());
    assert_eq!(named.count(), 26);
}

#[test]
fn should_report_brotli_error_code_on_broken_stream() {
    let mut decoder = <dyn Interface>::brotli_rust();
    let mut output = vec![0; 64];
    let broken = [0xff_u8; 16];
    let result = decoder.decode(&broken, &mut output);
    let error = result.status.expect_err("broken stream");
    assert!(error.as_raw() < 0);
    assert!(decoder.describe_error(error).is_some());
    assert!(!decoder.is_finished());

    //output is left alone when decoding into a vector fails
    let mut decoder = <dyn Interface>::brotli_rust();
    let mut output = b"kept".to_vec();
    output.reserve(64);
    let result = decoder.decode_vec(&broken, &mut output);
    assert!(result.status.is_err());
    assert_eq!(output, b"kept");
}
