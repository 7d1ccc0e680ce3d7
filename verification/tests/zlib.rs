use compu::compressor::Compress;
use compu::decoder::{Decode, DecodeError, DecodeStatus, DecoderResult, Detection, ZlibMode};
use compu::decompressor::Decompress;
use compu::encoder::{Encode, EncodeOp, EncodeStatus};
use compu::sink::Output;
use compu::{decoder, encoder, Decoder, Encoder};

use miniz_oxide::deflate::stream::deflate;
use miniz_oxide::inflate::stream::{inflate, InflateState};
use miniz_oxide::{DataFormat, MZFlush, MZStatus, StreamResult};

const SMALL: &[u8] = b"XXXXXXXXXXYYYYYYYYYY";

const SMALL_DEFLATED: &[u8] = &[
    0x78, 0xda, 0x8b, 0x88, 0x80, 0x81, 0x48, 0x38, 0x00, 0x00, 0x48, 0x7b, 0x06, 0xeb,
];

const SMALL_GZIP: &[u8] = &[
    0x1f, 0x8b, 0x08, 0x00, 0x00, 0x00, 0x00, 0x00, 0x02, 0x03, 0x8b, 0x88, 0x80, 0x81, 0x48, 0x38,
    0x00, 0x00, 0x8b, 0x53, 0xd8, 0xaf, 0x14, 0x00, 0x00, 0x00,
];

const GZIP_HEADER: [u8; 10] = [0x1f, 0x8b, 0x08, 0x00, 0x00, 0x00, 0x00, 0x00, 0x02, 0x03];
const GZIP_TRAILER_LEN: usize = 8;

const WORDS: [&str; 16] = [
    "alice", "rabbit", "queen", "garden", "croquet", "hatter", "dormouse", "teapot", "curious",
    "wonder", "mushroom", "caterpillar", "duchess", "gryphon", "turtle", "verdict",
];

/// About 150 KiB of text with the statistics of prose: words from a small
/// vocabulary in an order that does not repeat.
fn large() -> Vec<u8> {
    let mut text = Vec::with_capacity(152_089);
    let mut state: u32 = 29;
    while text.len() < 152_089 {
        state = state.wrapping_mul(1_103_515_245).wrapping_add(12_345);
        let word = WORDS[((state >> 16) % 16) as usize];
        text.extend_from_slice(word.as_bytes());
        text.push(if (state >> 20) % 11 == 0 { b'\n' } else { b' ' });
    }
    text.truncate(152_089);
    text
}

fn crc32(mut crc: u32, data: &[u8]) -> u32 {
    crc = !crc;
    for byte in data {
        crc ^= *byte as u32;
        for _ in 0..8 {
            crc = if crc & 1 == 1 { (crc >> 1) ^ 0xEDB8_8320 } else { crc >> 1 };
        }
    }
    !crc
}

fn code_of(result: &StreamResult) -> i32 {
    match result.status {
        Ok(MZStatus::Ok) => 0,
        Ok(MZStatus::StreamEnd) => 1,
        Ok(MZStatus::NeedDict) => 2,
        Err(error) => error as i32,
    }
}

/// Calls `inflate` until it has nothing more to give or nowhere to put it.
/// Unlike zlib it takes input ahead of the output it has room for, and
/// returns with room left while it still holds output back.
///
/// Returns a zlib return code, and how much input and output room is left.
fn inflate_all(state: &mut InflateState, input: &[u8], output: &mut [u8]) -> (i32, usize, usize) {
    let mut consumed = 0;
    let mut written = 0;
    loop {
        let result = inflate(state, &input[consumed..], &mut output[written..], MZFlush::None);
        consumed += result.bytes_consumed;
        written += result.bytes_written;
        let code = code_of(&result);
        let full = written == output.len();
        if code != decoder::zlib::Z_OK || full {
            return (code, input.len() - consumed, output.len() - written);
        }
    }
}

/// What the return code of the last call of `inflate` means.
fn inflate_status(
    code: i32,
    input_remain: usize,
    output_remain: usize,
) -> Result<DecodeStatus, DecodeError> {
    match code {
        decoder::zlib::Z_STREAM_END => Ok(DecodeStatus::Finished),
        decoder::zlib::Z_OK => Ok(DecodeStatus::NeedOutput),
        decoder::zlib::Z_BUF_ERROR if input_remain == 0 && output_remain > 0 => {
            Ok(DecodeStatus::NeedInput)
        }
        decoder::zlib::Z_BUF_ERROR => Ok(DecodeStatus::NeedOutput),
        other => Err(DecodeError::from_raw(other)),
    }
}

/// A zlib decoder for the library to drive: inflate by `miniz_oxide`, with
/// the gzip container taken off by hand.
struct ZlibDecoder {
    mode: ZlibMode,
    state: Option<Box<InflateState>>,
    /// Bytes of gzip header left to skip.
    header_left: usize,
    /// Bytes of gzip trailer left to skip, once the deflate stream has ended.
    trailer_left: Option<usize>,
    gzip: bool,
}

impl ZlibDecoder {
    fn new(mode: ZlibMode) -> Self {
        Self { mode, state: None, header_left: 0, trailer_left: None, gzip: false }
    }

    fn start(&mut self, input: &[u8]) -> bool {
        let format = match self.mode {
            ZlibMode::Deflate => DataFormat::Raw,
            ZlibMode::Zlib => DataFormat::Zlib,
            ZlibMode::Gzip => {
                self.gzip = true;
                DataFormat::Raw
            }
            ZlibMode::Auto => match Detection::detect(input) {
                Some(Detection::Gzip) => {
                    self.gzip = true;
                    DataFormat::Raw
                }
                Some(_) => DataFormat::Zlib,
                None => return false,
            },
        };
        if self.gzip {
            self.header_left = GZIP_HEADER.len();
        }
        self.state = Some(InflateState::new_boxed(format));
        true
    }
}

impl decoder::Interface for ZlibDecoder {
    fn decode(&mut self, input: &[u8], output: &mut [u8]) -> Decode {
        let mut input_remain = input.len();
        let mut output_remain = output.len();
        if self.state.is_none() && !self.start(input) {
            return Decode { input_remain, output_remain, status: Ok(DecodeStatus::NeedInput) };
        }

        let skipped = self.header_left.min(input_remain);
        self.header_left -= skipped;
        input_remain -= skipped;

        let mut code = decoder::zlib::Z_OK;
        if self.header_left == 0 && self.trailer_left.is_none() {
            let state = self.state.as_mut().expect("started");
            let skipped = input.len() - input_remain;
            (code, input_remain, output_remain) = inflate_all(state, &input[skipped..], output);
            if code == decoder::zlib::Z_STREAM_END {
                self.trailer_left = Some(if self.gzip { GZIP_TRAILER_LEN } else { 0 });
            }
        }
        if let Some(left) = self.trailer_left {
            let skipped = left.min(input_remain);
            input_remain -= skipped;
            self.trailer_left = Some(left - skipped);
            code = if left == skipped {
                decoder::zlib::Z_STREAM_END
            } else {
                decoder::zlib::Z_BUF_ERROR
            };
        } else if self.header_left > 0 {
            code = decoder::zlib::Z_BUF_ERROR;
        }
        Decode { input_remain, output_remain, status: inflate_status(code, input_remain, output_remain) }
    }

    fn reset(&mut self) -> bool {
        *self = Self::new(self.mode);
        true
    }

    fn describe_error(&self, code: i32) -> Option<&'static str> {
        match code {
            0 => Some(""),
            -2 => Some("stream error"),
            -3 => Some("data error"),
            -5 => Some("buffer error"),
            _ => None,
        }
    }
}

/// A zlib encoder for the library to drive: deflate by `miniz_oxide`, with
/// the gzip container put on by hand.
struct ZlibEncoder {
    options: encoder::ZlibOptions,
    state: Box<miniz_oxide::deflate::core::CompressorOxide>,
    header_left: usize,
    trailer: Option<Vec<u8>>,
    crc: u32,
    total: u32,
}

impl ZlibEncoder {
    fn new(options: encoder::ZlibOptions) -> Self {
        let gzip = matches!(options.mode, encoder::ZlibMode::Gzip);
        let window_bits = match options.mode {
            encoder::ZlibMode::Zlib => 15,
            _ => -15,
        };
        let flags = miniz_oxide::deflate::core::create_comp_flags_from_zip_params(
            options.compression as i32,
            window_bits,
            options.strategy.as_raw(),
        );
        Self {
            options,
            state: Box::new(miniz_oxide::deflate::core::CompressorOxide::new(flags)),
            header_left: if gzip { GZIP_HEADER.len() } else { 0 },
            trailer: None,
            crc: 0,
            total: 0,
        }
    }
}

impl encoder::Interface for ZlibEncoder {
    fn encode(&mut self, input: &[u8], output: &mut [u8], op: EncodeOp) -> Encode {
        let gzip = matches!(self.options.mode, encoder::ZlibMode::Gzip);
        let mut written = 0;
        while self.header_left > 0 && written < output.len() {
            output[written] = GZIP_HEADER[GZIP_HEADER.len() - self.header_left];
            self.header_left -= 1;
            written += 1;
        }
        let mut input_remain = input.len();
        let mut code = encoder::zlib::Z_BUF_ERROR;
        if self.header_left == 0 && self.trailer.is_none() {
            let flush = match encoder::zlib::flush_of(op) {
                encoder::zlib::Z_FINISH => MZFlush::Finish,
                encoder::zlib::Z_SYNC_FLUSH => MZFlush::Sync,
                _ => MZFlush::None,
            };
            let result = deflate(&mut self.state, input, &mut output[written..], flush);
            self.crc = crc32(self.crc, &input[..result.bytes_consumed]);
            self.total = self.total.wrapping_add(result.bytes_consumed as u32);
            input_remain -= result.bytes_consumed;
            written += result.bytes_written;
            code = code_of(&result);
            if code == encoder::zlib::Z_STREAM_END {
                let mut trailer = Vec::new();
                if gzip {
                    trailer.extend_from_slice(&self.crc.to_le_bytes());
                    trailer.extend_from_slice(&self.total.to_le_bytes());
                }
                self.trailer = Some(trailer);
            }
        }
        if let Some(trailer) = self.trailer.as_mut() {
            while !trailer.is_empty() && written < output.len() {
                output[written] = trailer.remove(0);
                written += 1;
            }
            code = if trailer.is_empty() { encoder::zlib::Z_STREAM_END } else { encoder::zlib::Z_OK };
        }
        Encode {
            input_remain,
            output_remain: output.len() - written,
            status: encoder::zlib::status_of(code, op),
        }
    }

    fn reset(&mut self, _: [u8; 2]) -> bool {
        *self = Self::new(self.options);
        true
    }
}

fn zlib_decoder(mode: ZlibMode) -> Decoder {
    Decoder::new(ZlibDecoder::new(mode))
}

fn zlib_encoder(options: encoder::ZlibOptions) -> Encoder {
    Encoder::new(ZlibEncoder::new(options), [0; 2])
}

fn compress_with(options: encoder::ZlibOptions, data: &[u8]) -> Vec<u8> {
    data.compress(&mut zlib_encoder(options)).expect("to compress")
}

#[test]
fn zlib_should_decompress_data() {
    let large = large();
    let data_sets: [&[u8]; 2] = [SMALL, &large];
    let zlib = encoder::ZlibOptions::new().mode(encoder::ZlibMode::Zlib);
    let gzip = encoder::ZlibOptions::new().mode(encoder::ZlibMode::Gzip);
    let deflated: [Vec<u8>; 2] = [SMALL_DEFLATED.to_vec(), compress_with(zlib, &large)];
    let gzipped: [Vec<u8>; 2] = [SMALL_GZIP.to_vec(), compress_with(gzip, &large)];

    for idx in 0..data_sets.len() {
        println!("DATA set {}:\n", idx);
        let data = data_sets[idx];
        let data_compressed = deflated[idx].as_slice();
        let data_gzip = gzipped[idx].as_slice();
        let mut decoder = zlib_decoder(ZlibMode::default());

        let mut output = vec![0; data.len()];

        let result = decoder.decode(data_compressed, output.as_mut());

        assert_eq!(DecoderResult::from_status(result.status), DecoderResult::Finished);
        assert_eq!(result.input_remain, 0);
        assert_eq!(result.output_remain, 0);
        assert_eq!(output, data);

        let mut decoder =
            compu::decompressor::memory::Decompressor::new(zlib_decoder(ZlibMode::default()));

        let result = decoder.push(&data_compressed[..data_compressed.len() / 2]);
        assert_eq!(result, DecoderResult::NeedInput);

        let result = decoder.push(&data_compressed[data_compressed.len() / 2..]);
        assert_eq!(result, DecoderResult::Finished);

        assert_eq!(decoder.output(), data);
        let output = data_compressed
            .decompress(&mut zlib_decoder(ZlibMode::default()))
            .expect("decompress zlib");
        assert!(output == data);
        let mut output2 = Output::new(Vec::new());
        data_compressed
            .decompress_into(&mut zlib_decoder(ZlibMode::default()), &mut output2)
            .expect("decompress zlib");
        assert!(output2.writer() == data);

        let data_compressed_chunks = data_compressed.chunks(5).collect::<Vec<_>>();
        let output3 = data_compressed_chunks
            .as_slice()
            .decompress(&mut zlib_decoder(ZlibMode::default()))
            .expect("decompress chunks zlib");
        assert!(output3 == data);
        let mut output4 = Output::new(Vec::new());
        data_compressed_chunks
            .as_slice()
            .decompress_into(&mut zlib_decoder(ZlibMode::default()), &mut output4)
            .expect("decompress zlib");
        assert!(output4.take() == data);

        let mut decoder = compu::decompressor::write::Decompressor::new(
            zlib_decoder(ZlibMode::default()),
            Vec::new(),
        );
        let result = decoder.push(data_gzip).expect("To write decompressed data");
        assert_eq!(result, (DecoderResult::Finished, data.len()));
        assert_eq!(decoder.writer(), data);
    }
}

#[test]
fn zlib_should_compress_data() {
    let large = large();
    let data_sets: [&[u8]; 2] = [SMALL, &large];
    for idx in 0..data_sets.len() {
        println!("DATA set {}:\n", idx);
        let data = data_sets[idx];

        //Zlib
        let mut encoder = compu::compressor::write::Compressor::new(
            zlib_encoder(Default::default()),
            Vec::new(),
        );

        let written = encoder.push(data, EncodeOp::Finish).expect("To write compressed data");
        assert!(written > 0);
        assert!(encoder.encoder().is_finished());
        let output = encoder.take();
        assert_eq!(Detection::detect(&output), Some(Detection::Gzip));

        let mut decoder =
            compu::decompressor::memory::Decompressor::new(zlib_decoder(ZlibMode::default()));
        let result = decoder.push(&output);
        assert_eq!(result, DecoderResult::Finished);
        assert_eq!(decoder.output(), data);

        let output2 = data.compress(&mut zlib_encoder(Default::default())).expect("Compress zlib");
        assert!(output == output2);

        let mut output3 = Output::new(Vec::new());
        data.compress_into(&mut zlib_encoder(Default::default()), &mut output3)
            .expect("Compress into zlib");
        assert!(&output == output3.writer());

        let data_chunks = data.chunks(5).collect::<Vec<_>>();
        let output4 = data_chunks
            .as_slice()
            .compress(&mut zlib_encoder(Default::default()))
            .expect("Compress chunks zlib");
        assert!(output4 == output);

        let mut output5 = Output::new(Vec::new());
        data_chunks
            .as_slice()
            .compress_into(&mut zlib_encoder(Default::default()), &mut output5)
            .expect("Compress into chunks zlib");
        assert!(output5.take() == output);

        let mut decoder =
            compu::decompressor::memory::Decompressor::new(zlib_decoder(ZlibMode::default()));
        let result = decoder.push(&output2);
        assert_eq!(result, DecoderResult::Finished);
        assert_eq!(decoder.output(), data);

        //Deflate
        let options = encoder::ZlibOptions::default().mode(encoder::ZlibMode::Deflate);
        let mut encoder =
            compu::compressor::write::Compressor::new(zlib_encoder(options), Vec::new());

        let written = encoder.push(data, EncodeOp::Finish).expect("To write compressed data");
        assert!(written > 0);
        assert!(encoder.encoder().is_finished());
        let output = encoder.take();

        let mut decoder =
            compu::decompressor::memory::Decompressor::new(zlib_decoder(ZlibMode::Deflate));
        let result = decoder.push(&output);
        assert_eq!(result, DecoderResult::Finished);
        assert_eq!(decoder.output(), data);

        //Gzip
        let options =
            encoder::ZlibOptions::default().mode(encoder::ZlibMode::Gzip).compression(9);
        let mut encoder = zlib_encoder(options);
        let mut output = vec![0; data.len()];

        let result = encoder.encode(data, output.as_mut(), EncodeOp::Finish);
        assert_ne!(result.status, EncodeStatus::Error);
        assert_eq!(result.input_remain, 0);
        let mut remaining_output = result.output_remain;

        //On very small inputs gzip has quite overhead
        if remaining_output == 0 {
            assert!(!encoder.is_finished());
            let old_len = output.len();
            output.resize(100, 0);
            let result = encoder.encode(&[], &mut output[old_len..], EncodeOp::Finish);

            assert_ne!(result.status, EncodeStatus::Error);
            assert!(encoder.is_finished());

            remaining_output = result.output_remain;
        } else {
            assert!(encoder.is_finished());
        }

        let written_len = output.len() - remaining_output;
        output.truncate(written_len);

        let mut decoder =
            compu::decompressor::memory::Decompressor::new(zlib_decoder(ZlibMode::default()));
        let result = decoder.push(&output);
        assert_eq!(result, DecoderResult::Finished);
        assert_eq!(decoder.output(), data);
    }
}

#[test]
fn should_round_trip_zlib_in_every_mode() {
    let inputs = [Vec::new(), vec![7u8], SMALL.to_vec(), large()];
    let modes = [
        (encoder::ZlibMode::Deflate, ZlibMode::Deflate, Detection::Unknown),
        (encoder::ZlibMode::Zlib, ZlibMode::Zlib, Detection::Zlib),
        (encoder::ZlibMode::Gzip, ZlibMode::Gzip, Detection::Gzip),
    ];
    for data in &inputs {
        for (mode, decoder_mode, detection) in modes {
            for level in [1, 6, 9] {
                let options = encoder::ZlibOptions::new().mode(mode).compression(level);
                let compressed = compress_with(options, data);
                if detection != Detection::Unknown {
                    assert_eq!(Detection::detect(&compressed), Some(detection));
                }
                let output = compressed
                    .as_slice()
                    .decompress(&mut zlib_decoder(decoder_mode))
                    .expect("decompress");
                assert_eq!(&output, data);
            }
        }
    }
}

#[test]
fn should_pause_zlib_on_insufficient_output_buffer() {
    let data = large();
    let options = encoder::ZlibOptions::new().mode(encoder::ZlibMode::Zlib);
    let compressed = compress_with(options, &data);
    let mut decoder = zlib_decoder(ZlibMode::Zlib);

    let mut output = vec![0; data.len()];
    let (head, tail) = output.split_at_mut(data.len() / 2);
    let result = decoder.decode(&compressed, head);
    assert_eq!(result.status, Ok(DecodeStatus::NeedOutput));
    assert_eq!(result.output_remain, 0);
    assert!(result.input_remain > 0);

    let rest = &compressed[compressed.len() - result.input_remain..];
    let result = decoder.decode(rest, tail);
    assert_eq!(result.status, Ok(DecodeStatus::Finished));
    assert_eq!(result.input_remain, 0);
    assert_eq!(result.output_remain, 0);
    assert_eq!(output, data);
}

#[test]
fn should_decode_zlib_after_reset_as_a_fresh_decoder_does() {
    let data = large();
    let options = encoder::ZlibOptions::new().mode(encoder::ZlibMode::Gzip);
    let compressed = compress_with(options, &data);

    let mut decoder = zlib_decoder(ZlibMode::Auto);
    let mut output = Vec::new();
    let result = decoder.decode_vec_full(SMALL_DEFLATED, &mut output).expect("room");
    assert_eq!(result.status, Ok(DecodeStatus::Finished));
    assert_eq!(output, SMALL);
    assert!(decoder.reset());

    output.clear();
    let result = decoder.decode_vec_full(&compressed, &mut output).expect("room");
    let mut fresh = Vec::new();
    let expected =
        zlib_decoder(ZlibMode::Auto).decode_vec_full(&compressed, &mut fresh).expect("room");
    assert_eq!(result.status, expected.status);
    assert_eq!(result.input_remain, expected.input_remain);
    assert_eq!(output, fresh);
    assert_eq!(output, data);
}
