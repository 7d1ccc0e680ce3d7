use compu::compressor::Compress;
use compu::decoder::DecoderResult;
use compu::decompressor::Decompress;
use compu::sink::Output;
use compu::{decoder, encoder};
use compu::{DecodeStatus, Decoder, EncodeOp, EncodeStatus, Encoder};

const SMALL: &[u8] = b"XXXXXXXXXXYYYYYYYYYY";

const SMALL_COMPRESSED: &[u8] = &[
    0x1b, 0x13, 0x00, 0x00, 0xa4, 0xb0, 0xb2, 0xea, 0x81, 0x47, 0x02, 0x8a,
];

const WORDS: [&str; 16] = [
    "alice", "rabbit", "queen", "garden", "croquet", "hatter", "dormouse", "teapot", "curious",
    "wonder", "mushroom", "caterpillar", "duchess", "gryphon", "turtle", "verdict",
];

/// About 150 KiB of text with the statistics of prose: words from a small
/// vocabulary in an order that does not repeat.
fn large() -> Vec<u8> {
    let mut text = Vec::with_capacity(152_089);
    let mut state: u32 = 29;
    while text.len() < 152_089 {
        state = state.wrapping_mul(1_103_515_245).wrapping_add(12_345);
        let word = WORDS[((state >> 16) % 16) as usize];
        text.extend_from_slice(word.as_bytes());
        text.push(if (state >> 20) % 11 == 0 { b'\n' } else { b' ' });
    }
    text.truncate(152_089);
    text
}

fn data_sets() -> [Vec<u8>; 2] {
    [SMALL.to_vec(), large()]
}

fn new_encoder() -> Encoder {
    <dyn encoder::Interface>::brotli_rust(Default::default())
}

fn new_decoder() -> Decoder {
    <dyn decoder::Interface>::brotli_rust()
}

/// One call with `Finish` into a buffer that is large enough.
fn compress_at_once(data: &[u8]) -> Vec<u8> {
    let mut encoder = new_encoder();
    let mut compressed = vec![0; data.len() + 1024];
    let result = encoder.encode(data, compressed.as_mut(), EncodeOp::Finish);
    assert_eq!(result.status, EncodeStatus::Finished);
    assert_eq!(result.input_remain, 0);
    compressed.truncate(compressed.len() - result.output_remain);
    compressed
}

fn compressed_sets(data: &[Vec<u8>; 2]) -> [Vec<u8>; 2] {
    [SMALL_COMPRESSED.to_vec(), compress_at_once(&data[1])]
}

#[test]
fn brotli_should_auto_finish_compressor() {
    for (idx, data) in data_sets().iter().enumerate() {
        println!("DATA set {}:\n", idx);

        let mut encoder =
            compu::compressor::write::Compressor::new(new_encoder(), Vec::new()).auto_finish();
        encoder.push(data, EncodeOp::Process).expect("Successful write compression");
        assert!(!encoder.encoder().is_finished());

        assert!(encoder.finish());
        assert!(encoder.encoder().is_finished());
        assert!(!encoder.finish());
        let compressed = encoder.writer().clone();

        let mut decoder = compu::decompressor::write::Decompressor::new(new_decoder(), Vec::new());
        decoder.push(&compressed).expect("Successful write compression");
        assert!(decoder.decoder().is_finished());

        assert_eq!(&decoder.take(), data);
    }
}

#[test]
fn brotli_should_compress_data() {
    for (idx, data) in data_sets().iter().enumerate() {
        println!("DATA set {}:\n", idx);

        let mut encoder = new_encoder();
        let mut compressed = vec![0; data.len() + 1024];

        let result = encoder.encode(data, compressed.as_mut(), EncodeOp::Finish);
        //Remove extra
        compressed.truncate(compressed.len() - result.output_remain);

        assert_eq!(result.status, EncodeStatus::Finished);
        assert_eq!(result.input_remain, 0);

        let compressed2 = data.as_slice().compress(&mut new_encoder()).expect("Compress brotli");
        assert!(compressed == compressed2);

        let mut compressed3 = Output::new(Vec::new());
        data.as_slice()
            .compress_into(&mut new_encoder(), &mut compressed3)
            .expect("Compress into brotli");
        assert!(&compressed == compressed3.writer());

        let data_chunks = data.chunks(5).collect::<Vec<_>>();
        let compressed4 =
            data_chunks.as_slice().compress(&mut new_encoder()).expect("Compress chunks brotli");
        assert!(compressed4 == compressed);

        let mut compressed5 = Output::new(Vec::new());
        data_chunks
            .as_slice()
            .compress_into(&mut new_encoder(), &mut compressed5)
            .expect("Compress into chunks brotli");
        assert!(compressed5.take() == compressed);

        let mut decoder = new_decoder();
        let mut decompressed = vec![0; data.len()];

        let result = decoder.decode(&compressed, decompressed.as_mut());

        assert_eq!(result.status, Ok(DecodeStatus::Finished));
        assert_eq!(result.input_remain, 0);
        assert_eq!(result.output_remain, 0);
        assert_eq!(&decompressed, data);
    }
}

#[test]
fn brotli_should_decompress_data() {
    let data_sets = data_sets();
    let compressed_sets = compressed_sets(&data_sets);
    for idx in 0..data_sets.len() {
        println!("DATA set {}:\n", idx);
        let data = &data_sets[idx];
        let data_compressed = compressed_sets[idx].as_slice();
        let mut decoder = new_decoder();

        let mut output = vec![0; data.len()];

        let result = decoder.decode(data_compressed, output.as_mut());

        assert_eq!(result.status, Ok(DecodeStatus::Finished));
        assert_eq!(result.input_remain, 0);
        assert_eq!(result.output_remain, 0);
        assert_eq!(&output, data);

        let output2 = data_compressed.decompress(&mut new_decoder()).expect("decompress brotli");
        assert!(&output2 == data);
        let mut output3 = Output::new(Vec::new());
        data_compressed
            .decompress_into(&mut new_decoder(), &mut output3)
            .expect("decompress into brotli");
        assert!(output3.writer() == data);

        let data_compressed_chunks = data_compressed.chunks(5).collect::<Vec<_>>();
        let output4 = data_compressed_chunks
            .as_slice()
            .decompress(&mut new_decoder())
            .expect("decompress brotli");
        assert!(&output4 == data);

        let mut output5 = Output::new(Vec::new());
        data_compressed_chunks
            .as_slice()
            .decompress_into(&mut new_decoder(), &mut output5)
            .expect("decompress brotli");
        assert!(&output5.take() == data);
    }
}

#[test]
fn brotli_should_compress_data_high() {
    for (idx, data) in data_sets().iter().enumerate() {
        println!("DATA set {}: ", idx);

        let mut data_compressed = Vec::new();

        let mut encoder = compu::compressor::memory::Compressor::new(new_encoder());
        let result = encoder.push(&data[..data.len() / 2], EncodeOp::Process);
        assert!(result);
        assert!(!encoder.encoder().is_finished());
        data_compressed.extend_from_slice(encoder.consume_output());
        let result = encoder.push(&data[data.len() / 2..], EncodeOp::Finish);
        assert!(result);
        assert!(encoder.encoder().is_finished());
        data_compressed.extend_from_slice(encoder.consume_output());

        let mut encoder = compu::compressor::write::Compressor::new(new_encoder(), Vec::new());
        let result = encoder.push(data, EncodeOp::Finish).expect("Successful write compression");
        assert!(result > 0);
        assert!(encoder.encoder().is_finished());
        let data_compressed_write = encoder.take();
        assert_eq!(data_compressed_write, data_compressed);

        let mut decoder = compu::decompressor::memory::Decompressor::new(new_decoder());

        let result = decoder.push(&data_compressed);

        assert_eq!(result, DecoderResult::Finished);
        assert_eq!(decoder.output().len(), data.len());
        assert!(decoder.output() == data);
        assert!(decoder.decoder().is_finished());

        let mut decoder = compu::decompressor::write::Decompressor::new(new_decoder(), Vec::new());
        let result = decoder.push(&data_compressed).expect("Successful write decompression");
        assert_eq!(result, (DecoderResult::Finished, data.len()));
        assert!(decoder.decoder().is_finished());
        let output = decoder.take();
        assert_eq!(output.len(), data.len());
        assert!(&output == data);

        println!("Ok");
    }
}

#[test]
fn brotli_should_decompress_data_high() {
    let data_sets = data_sets();
    let compressed_sets = compressed_sets(&data_sets);
    for idx in 0..data_sets.len() {
        println!("DATA set {}: ", idx);
        let data = &data_sets[idx];
        let data_compressed = compressed_sets[idx].as_slice();
        let mut data_decompressed = Vec::with_capacity(data.len());

        let mut decoder = compu::decompressor::memory::Decompressor::new(new_decoder());

        let result = decoder.push(&data_compressed[..data_compressed.len() / 2]);

        assert_eq!(result, DecoderResult::NeedInput);
        data_decompressed.extend_from_slice(decoder.consume_output());
        assert_eq!(decoder.output().len(), 0);

        let result = decoder.push(&data_compressed[data_compressed.len() / 2..]);
        assert_eq!(result, DecoderResult::Finished);
        data_decompressed.extend_from_slice(decoder.consume_output());
        assert_eq!(decoder.output().len(), 0);

        assert_eq!(&data_decompressed, data);

        println!("Ok");
    }
}

#[test]
fn brotli_insufficient_output_buffer() {
    let data_sets = data_sets();
    let compressed_sets = compressed_sets(&data_sets);
    for idx in 0..data_sets.len() {
        println!("DATA set {}:\n", idx);
        let data = &data_sets[idx];
        let data_compressed = compressed_sets[idx].as_slice();
        let mut decoder = new_decoder();

        let mut output = vec![0; data_sets.len() / 2];

        let result = decoder.decode(data_compressed, output.as_mut());
        assert_eq!(result.status, Ok(DecodeStatus::NeedOutput));

        let output_offset = output.len() - result.output_remain;
        output.resize(data.len(), 0);

        let data_compressed = &data_compressed[data_compressed.len() - result.input_remain..];

        let result = decoder.decode(data_compressed, &mut output.as_mut_slice()[output_offset..]);
        assert_eq!(result.input_remain, 0);
        assert_eq!(result.output_remain, 0);
        assert_eq!(result.status, Ok(DecodeStatus::Finished));
        assert_eq!(&output, data);
    }
}
