use compu::decoder::DecoderResult;
use compu::encoder::{BrotliEncoderMode, BrotliOptions};
use compu::{decoder, encoder};
use compu::{DecodeStatus, Decoder, EncodeOp, EncodeStatus, Encoder};

const SMALL: &[u8] = b"XXXXXXXXXXYYYYYYYYYY";

const WORDS: [&str; 16] = [
    "alice", "rabbit", "queen", "garden", "croquet", "hatter", "dormouse", "teapot", "curious",
    "wonder", "mushroom", "caterpillar", "duchess", "gryphon", "turtle", "verdict",
];

/// Text with the statistics of prose: words from a small vocabulary in an
/// order that does not repeat.
fn text(len: usize) -> Vec<u8> {
    let mut text = Vec::with_capacity(len + 16);
    let mut state: u32 = 29;
    while text.len() < len {
        state = state.wrapping_mul(1_103_515_245).wrapping_add(12_345);
        let word = WORDS[((state >> 16) % 16) as usize];
        text.extend_from_slice(word.as_bytes());
        text.push(if (state >> 20) % 11 == 0 { b'\n' } else { b' ' });
    }
    text.truncate(len);
    text
}

/// Bytes with no pattern to them.
fn noise(len: usize) -> Vec<u8> {
    let mut state: u32 = 0x9E37_79B9;
    (0..len)
        .map(|_| {
            state ^= state << 13;
            state ^= state >> 17;
            state ^= state << 5;
            (state >> 24) as u8
        })
        .collect()
}

fn pattern(len: usize) -> Vec<u8> {
    (0..len).map(|idx| if idx % 2 == 0 { 0xAB } else { 0xCD }).collect()
}

fn new_encoder(options: BrotliOptions) -> Encoder {
    <dyn encoder::Interface>::brotli_rust(options)
}

fn new_decoder() -> Decoder {
    <dyn decoder::Interface>::brotli_rust()
}

fn compress(encoder: &mut Encoder, data: &[u8]) -> Vec<u8> {
    let mut compressed = Vec::new();
    let result = encoder.encode_vec_full(data, &mut compressed, EncodeOp::Finish).expect("room");
    assert_eq!(result.status, EncodeStatus::Finished);
    assert_eq!(result.input_remain, 0);
    compressed
}

fn decompress(decoder: &mut Decoder, compressed: &[u8]) -> Vec<u8> {
    let mut data = Vec::new();
    let result = decoder.decode_vec_full(compressed, &mut data).expect("room");
    assert_eq!(result.status, Ok(DecodeStatus::Finished));
    assert_eq!(result.input_remain, 0);
    data
}

#[test]
fn should_round_trip_every_input_with_every_option() {
    let inputs = [Vec::new(), vec![0u8], SMALL.to_vec(), text(2_000), noise(3_000), pattern(20_000)];
    let modes = [BrotliEncoderMode::Generic, BrotliEncoderMode::Text, BrotliEncoderMode::Font];
    for data in &inputs {
        let compressed = compress(&mut new_encoder(BrotliOptions::new()), data);
        assert!(!compressed.is_empty());
        assert_eq!(&decompress(&mut new_decoder(), &compressed), data);
        for quality in [1, 6, 11] {
            for mode in modes {
                let options = BrotliOptions::new().quality(quality).mode(mode);
                let compressed = compress(&mut new_encoder(options), data);
                assert_eq!(&decompress(&mut new_decoder(), &compressed), data);
            }
        }
    }
}

#[test]
fn should_round_trip_through_every_wrapper() {
    let data = text(50_000);

    let mut compressor = compu::compressor::memory::Compressor::new(new_encoder(Default::default()));
    assert!(compressor.push(&data, EncodeOp::Finish));
    let compressed = compressor.take();

    let mut compressor =
        compu::compressor::write::Compressor::new(new_encoder(Default::default()), Vec::new());
    assert_eq!(compressor.push(&data, EncodeOp::Finish), Ok(compressed.len()));
    assert_eq!(compressor.take(), compressed);

    let mut decompressor = compu::decompressor::memory::Decompressor::new(new_decoder());
    assert_eq!(decompressor.push(&compressed), DecoderResult::Finished);
    assert_eq!(decompressor.take(), data);

    let mut decompressor = compu::decompressor::write::Decompressor::new(new_decoder(), Vec::new());
    assert_eq!(decompressor.push(&compressed), Ok((DecoderResult::Finished, data.len())));
    assert_eq!(decompressor.take(), data);
}

#[test]
fn should_decompress_to_same_data_however_input_was_chunked() {
    let data = text(40_000);
    let at_once = compress(&mut new_encoder(Default::default()), &data);
    for size in [1, 7, 1000, 4096, 39_999, 40_000] {
        let mut compressor =
            compu::compressor::memory::Compressor::new(new_encoder(Default::default()));
        for chunk in data.chunks(size) {
            assert!(compressor.push(chunk, EncodeOp::Process));
            assert!(!compressor.encoder().is_finished());
        }
        assert!(compressor.push(&[], EncodeOp::Finish));
        assert!(compressor.encoder().is_finished());
        let compressed = compressor.take();
        assert_eq!(decompress(&mut new_decoder(), &compressed), data);
        assert_eq!(decompress(&mut new_decoder(), &at_once), data);

        //and however the compressed stream is chunked
        let mut decompressor = compu::decompressor::memory::Decompressor::new(new_decoder());
        let mut last = DecoderResult::NeedInput;
        for chunk in compressed.chunks(size) {
            assert_eq!(last, DecoderResult::NeedInput);
            last = decompressor.push(chunk);
        }
        assert_eq!(last, DecoderResult::Finished);
        assert_eq!(decompressor.output(), data);
    }
}

#[test]
fn should_flush_all_input_given_so_far() {
    let data = text(10_000);
    let mut compressor =
        compu::compressor::memory::Compressor::new(new_encoder(Default::default()));
    assert!(compressor.push(&data[..6_000], EncodeOp::Flush));
    let flushed = compressor.consume_output().to_vec();

    let mut decoder = new_decoder();
    let mut output = vec![0; 20_000];
    let result = decoder.decode(&flushed, &mut output);
    assert_eq!(result.status, Ok(DecodeStatus::NeedInput));
    assert_eq!(result.input_remain, 0);
    assert_eq!(result.output_remain, 14_000);
    assert_eq!(&output[..6_000], &data[..6_000]);

    assert!(compressor.push(&data[6_000..], EncodeOp::Finish));
    let result = decoder.decode(compressor.output(), &mut output[6_000..]);
    assert_eq!(result.status, Ok(DecodeStatus::Finished));
    assert_eq!(result.output_remain, 10_000);
    assert_eq!(&output[..10_000], data);
}

#[test]
fn should_pause_when_output_buffer_is_too_small() {
    let data = text(30_000);
    let compressed = compress(&mut new_encoder(Default::default()), &data);
    let mut decoder = new_decoder();

    let mut output = vec![0; data.len()];
    let (head, tail) = output.split_at_mut(10_000);
    let result = decoder.decode(&compressed, head);
    assert_eq!(result.status, Ok(DecodeStatus::NeedOutput));
    assert_eq!(result.output_remain, 0);
    assert!(!decoder.is_finished());

    let rest = &compressed[compressed.len() - result.input_remain..];
    let result = decoder.decode(rest, tail);
    assert_eq!(result.status, Ok(DecodeStatus::Finished));
    assert_eq!(result.input_remain, 0);
    assert_eq!(result.output_remain, 0);
    assert_eq!(output, data);
}

#[test]
fn should_decode_after_reset_as_a_fresh_decoder_does() {
    let first = compress(&mut new_encoder(Default::default()), &text(5_000));
    let second_data = noise(4_000);
    let second = compress(&mut new_encoder(Default::default()), &second_data);

    let mut fresh = new_decoder();
    let mut expected = vec![0; second_data.len() + 10];
    let expected_result = fresh.decode(&second, &mut expected);
    assert_eq!(expected_result.status, Ok(DecodeStatus::Finished));

    let mut reused = new_decoder();
    assert_eq!(decompress(&mut reused, &first), text(5_000));
    assert!(reused.is_finished());
    assert!(reused.reset());
    assert!(!reused.is_finished());
    let mut output = vec![0; second_data.len() + 10];
    let result = reused.decode(&second, &mut output);
    assert_eq!(result, expected_result);
    assert_eq!(output, expected);
    assert_eq!(&output[..second_data.len()], second_data);

    //also when the first stream was left half way, or broken
    for garbage in [&first[..first.len() / 2], b"\xff\xff\xff\xff".as_slice()] {
        let mut reused = new_decoder();
        let mut scratch = Vec::new();
        let _ = reused.decode_vec_full(garbage, &mut scratch);
        assert!(reused.reset());
        let mut output = vec![0; second_data.len() + 10];
        assert_eq!(reused.decode(&second, &mut output), expected_result);
        assert_eq!(output, expected);
    }
}

#[test]
fn should_answer_alike_however_the_codec_came_to_its_handle() {
    let data = text(3_000);
    let options = BrotliOptions::new().quality(5).mode(BrotliEncoderMode::Text);
    let expected = compress(&mut new_encoder(options), &data);

    let codec = encoder::brotli_rust::BrotliEncoder::new(options);
    let mut bound = Encoder::new(codec, options.as_raw());
    assert_eq!(compress(&mut bound, &data), expected);
    assert!(bound.reset());
    assert_eq!(compress(&mut bound, &data), expected);

    let mut bound = Decoder::new(decoder::brotli_rust::BrotliDecoder::new());
    assert_eq!(decompress(&mut bound, &expected), data);
    assert_eq!(bound.describe_error(compu::DecodeError::no_error()), Some("NO_ERROR"));
    assert!(bound.reset());
    assert!(bound.is_usable());
    assert_eq!(decompress(&mut bound, &expected), data);
    assert_eq!(decompress(&mut new_decoder(), &expected), data);
}

#[test]
fn should_encode_after_reset_as_a_fresh_encoder_does() {
    let data = text(5_000);
    let options = BrotliOptions::new().quality(4);
    let expected = compress(&mut new_encoder(options), &data);

    let mut reused = new_encoder(options);
    let mut scratch = Vec::new();
    reused.encode_vec_full(&noise(999), &mut scratch, EncodeOp::Process).expect("room");
    assert!(reused.reset());
    assert_eq!(compress(&mut reused, &data), expected);
    assert!(reused.is_finished());
    assert!(reused.reset());
    assert!(!reused.is_finished());
    assert_eq!(compress(&mut reused, &data), expected);
}

#[test]
fn should_refuse_input_after_finish_until_reset() {
    let mut encoder = new_encoder(Default::default());
    let mut output = Vec::with_capacity(256);
    let result = encoder.encode_vec(SMALL, &mut output, EncodeOp::Finish);
    assert_eq!(result.status, EncodeStatus::Finished);
    let result = encoder.encode_vec(SMALL, &mut output, EncodeOp::Process);
    assert_eq!(result.status, EncodeStatus::Error);
    assert_eq!(result.input_remain, SMALL.len());
    assert!(encoder.reset());
    let result = encoder.encode_vec(SMALL, &mut output, EncodeOp::Finish);
    assert_eq!(result.status, EncodeStatus::Finished);
}

#[test]
fn should_compress_repeating_pattern_within_first_reservation() {
    let data = pattern(64 * 1024);
    let mut encoder = new_encoder(Default::default());
    let mut compressed = Vec::new();
    let result = encoder.encode_vec_full(&data, &mut compressed, EncodeOp::Finish).expect("room");
    assert_eq!(result.status, EncodeStatus::Finished);
    assert_eq!(result.input_remain, 0);
    assert!(compressed.len() < 1024);
    //one reservation up front and at most two more
    assert!(compressed.capacity() >= 64 * 1024 / 3);
    assert!(compressed.capacity() <= 64 * 1024 / 3 + 2 * 8192);
    assert_eq!(result.output_remain, compressed.capacity() - compressed.len());

    assert_eq!(decompress(&mut new_decoder(), &compressed), data);
}

#[test]
fn should_grow_output_for_data_that_does_not_compress() {
    let data = noise(100_000);
    let mut encoder = new_encoder(BrotliOptions::new().quality(1));
    let mut compressed = b"head".to_vec();
    let result = encoder.encode_vec_full(&data, &mut compressed, EncodeOp::Finish).expect("room");
    assert_eq!(result.status, EncodeStatus::Finished);
    assert!(compressed.len() > 100_000);
    assert_eq!(&compressed[..4], b"head");
    assert_eq!(decompress(&mut new_decoder(), &compressed[4..]), data);

    let mut output = b"tail".to_vec();
    let result = new_decoder().decode_vec_full(&compressed[4..], &mut output).expect("room");
    assert_eq!(result.status, Ok(DecodeStatus::Finished));
    assert_eq!(&output[..4], b"tail");
    assert_eq!(&output[4..], data);
}
