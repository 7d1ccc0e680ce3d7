use bytes::BufMut;
use compu::decoder::{DecodeStatus, Decoder, Detection};
use compu::encoder::{EncodeOp, EncodeStatus, Encoder, Interface};
use compu::{decoder, encoder};

const SMALL: &[u8] = b"XXXXXXXXXXYYYYYYYYYY";

const WORDS: [&str; 16] = [
    "alice", "rabbit", "queen", "garden", "croquet", "hatter", "dormouse", "teapot", "curious",
    "wonder", "mushroom", "caterpillar", "duchess", "gryphon", "turtle", "verdict",
];

/// About 150 KiB of text with the statistics of prose: words from a small
/// vocabulary in an order that does not repeat.
fn large() -> Vec<u8> {
    let mut text = Vec::with_capacity(152_089);
    let mut state: u32 = 29;
    while text.len() < 152_089 {
        state = state.wrapping_mul(1_103_515_245).wrapping_add(12_345);
        let word = WORDS[((state >> 16) % 16) as usize];
        text.extend_from_slice(word.as_bytes());
        text.push(if (state >> 20) % 11 == 0 { b'\n' } else { b' ' });
    }
    text.truncate(152_089);
    text
}

fn test_case(
    idx: usize,
    encoder: &mut Encoder,
    decoder: &mut Decoder,
    data: &[u8],
    expected_detection: Detection,
) {
    println!("{idx}: DATA.len()={}", data.len());

    let mut compressed = vec![0; data.len()];
    let mut decompressed = vec![0; data.len()];
    let result = encoder.encode(data, compressed.as_mut(), EncodeOp::Finish);
    assert_eq!(result.input_remain, 0);

    if result.status == EncodeStatus::NeedOutput {
        //Some formats have overhead on small data that makes compression pointless (due to header size)
        //so allocate more space and finalize it
        compressed.reserve(100);
        let result = encoder.encode_vec(&[], &mut compressed, EncodeOp::Finish);
        assert_eq!(result.status, EncodeStatus::Finished);
    } else {
        compressed.truncate(compressed.len() - result.output_remain);
    }

    assert_eq!(Detection::detect(&compressed), Some(expected_detection));
    let result = decoder.decode(&compressed, decompressed.as_mut());
    assert_eq!(result.status, Ok(DecodeStatus::Finished));
    assert_eq!(data, decompressed);

    encoder.reset();
    decoder.reset();
}

fn test_case_bytes(
    idx: usize,
    encoder: &mut Encoder,
    decoder: &mut Decoder,
    data: &[u8],
    expected_detection: Detection,
) {
    println!("{idx}: DATA.len()={}", data.len());

    let mut compressed = bytes::BytesMut::from(b"test".as_slice());
    compressed.truncate(0);

    let mut decompressed = bytes::BytesMut::new();
    decompressed.reserve(data.len());
    let result = encoder.encode_buf(data, &mut compressed, EncodeOp::Finish);

    let expected_remain_output = compressed.remaining_mut();
    assert_eq!(result.input_remain, 0);
    assert_eq!(result.output_remain, expected_remain_output);

    if result.status == EncodeStatus::NeedOutput {
        //Some formats have overhead on small data that makes compression pointless (due to header size)
        //so allocate more space and finalize it
        compressed.reserve(100);
        let result = encoder.encode_buf(&[], &mut compressed, EncodeOp::Finish);
        assert_eq!(result.status, EncodeStatus::Finished);
    }

    let compressed = compressed.freeze();

    assert_eq!(Detection::detect(&compressed), Some(expected_detection));
    let result = decoder.decode_buf(&compressed, &mut decompressed);
    assert_eq!(result.status, Ok(DecodeStatus::Finished));
    assert_eq!(data, decompressed);

    encoder.reset();
    decoder.reset();
}

fn test_case_empty_final(idx: usize, encoder: &mut Encoder, decoder: &mut Decoder, data: &[u8]) {
    println!("{idx}: DATA.len()={}", data.len());

    let mut compressed = vec![0; data.len()];
    let mut decompressed = vec![0; data.len() + 100];
    compressed.truncate(0);

    let result = encoder.encode_vec(data, &mut compressed, EncodeOp::Process);
    assert_ne!(result.status, EncodeStatus::Error);

    let result =
        encoder.encode_vec(&data[data.len() - result.input_remain..], &mut compressed, EncodeOp::Flush);
    assert_eq!(result.input_remain, 0);
    assert_eq!(result.status, EncodeStatus::Continue);

    compressed.reserve(100);
    let result = encoder.encode_vec(&[], &mut compressed, EncodeOp::Finish);
    assert_eq!(result.status, EncodeStatus::Finished);

    decompressed.truncate(0);
    for (idx, chunk) in compressed.chunks(compressed.len() / 4).enumerate() {
        println!("compressed(idx={idx}) with len={}", chunk.len());
        let spare = decompressed.capacity() - decompressed.len();

        let result = decoder.decode_vec(chunk, &mut decompressed);
        assert_eq!(result.input_remain, 0);
        assert!(result.output_remain > 0);
        assert!(result.output_remain <= spare);

        let status = result.status.expect("to decode");
        if status == DecodeStatus::Finished {
            break;
        } else {
            assert_eq!(status, DecodeStatus::NeedInput);
        }
    }
    assert_eq!(data, decompressed);

    encoder.reset();
    decoder.reset();
}

#[test]
fn should_encode_and_decode_brotli_rust() {
    let large = large();
    let data_sets: [&[u8]; 2] = [SMALL, &large];
    let mut encoder = <dyn Interface>::brotli_rust(Default::default());
    let mut decoder = <dyn decoder::Interface>::brotli_rust();
    for idx in 0..data_sets.len() {
        test_case(idx, &mut encoder, &mut decoder, data_sets[idx], Detection::Unknown);
    }
}

#[test]
fn should_encode_with_empty_final_and_decode_brotli_rust() {
    let large = large();
    let data_sets: [&[u8]; 2] = [SMALL, &large];
    let mut encoder = <dyn Interface>::brotli_rust(Default::default());
    let mut decoder = <dyn decoder::Interface>::brotli_rust();
    for idx in 0..data_sets.len() {
        test_case_empty_final(idx, &mut encoder, &mut decoder, data_sets[idx]);
    }
}

#[test]
fn should_encode_and_decode_brotli_rust_bytes() {
    let large = large();
    let data_sets: [&[u8]; 2] = [SMALL, &large];
    let mut encoder = <dyn Interface>::brotli_rust(Default::default());
    let mut decoder = <dyn decoder::Interface>::brotli_rust();
    for idx in 0..data_sets.len() {
        test_case_bytes(idx, &mut encoder, &mut decoder, data_sets[idx], Detection::Unknown);
    }
}

#[test]
fn should_keep_what_is_in_bytes_buffer_and_append() {
    let mut encoder = <dyn Interface>::brotli_rust(Default::default());
    let mut decoder = <dyn decoder::Interface>::brotli_rust();

    let mut compressed = bytes::BytesMut::from(b"head".as_slice());
    let room = compressed.remaining_mut();
    let result = encoder.encode_buf(SMALL, &mut compressed, EncodeOp::Finish);
    assert_eq!(result.status, EncodeStatus::Finished);
    assert_eq!(result.input_remain, 0);
    assert_eq!(&compressed[..4], b"head");
    assert!(compressed.len() > 4);
    assert_eq!(result.output_remain, room - (compressed.len() - 4));

    let mut decompressed = bytes::BytesMut::from(b"tail".as_slice());
    let result = decoder.decode_buf(&compressed[4..], &mut decompressed);
    assert_eq!(result.status, Ok(DecodeStatus::Finished));
    assert_eq!(&decompressed[..4], b"tail");
    assert_eq!(&decompressed[4..], SMALL);
}

#[test]
fn should_honour_brotli_options() {
    let large = large();
    let mut sizes = Vec::new();
    for quality in [1, 5, 11] {
        let options = encoder::BrotliOptions::new()
            .quality(quality)
            .mode(encoder::BrotliEncoderMode::Text);
        let mut encoder = <dyn Interface>::brotli_rust(options);
        let mut compressed = Vec::new();
        let result =
            encoder.encode_vec_full(&large, &mut compressed, EncodeOp::Finish).expect("room");
        assert_eq!(result.status, EncodeStatus::Finished);

        //options survive reset
        assert!(encoder.reset());
        let mut again = Vec::new();
        encoder.encode_vec_full(&large, &mut again, EncodeOp::Finish).expect("room");
        assert_eq!(compressed, again);

        let mut decoder = <dyn decoder::Interface>::brotli_rust();
        let mut output = Vec::new();
        let result = decoder.decode_vec_full(&compressed, &mut output).expect("room");
        assert_eq!(result.status, Ok(DecodeStatus::Finished));
        assert_eq!(output, large);
        sizes.push(compressed.len());
    }
    assert!(sizes[0] > sizes[2]);
}
