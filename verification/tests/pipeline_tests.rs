use f2v2f::{
    DecodeConfig, Decoder, EncodeConfig, Encoder, F2V2FError, VideoComposer, VideoValidator,
};
use f2v2f::composer::{parse_metadata, render_metadata};
use sha2::Digest;

fn encode_config(width: u32, height: u32, chunk_size: usize, use_compression: bool) -> EncodeConfig {
    let mut c = EncodeConfig::default();
    c.width = width;
    c.height = height;
    c.chunk_size = chunk_size;
    c.use_compression = use_compression;
    c.num_threads = 1;
    c
}

fn decode_config(width: u32, height: u32) -> DecodeConfig {
    let mut c = DecodeConfig::default();
    c.width = width;
    c.height = height;
    c.num_threads = 1;
    c
}

/// Encode a payload to frames and decode them back, with no lossy
/// transform in between.
fn round_trip(data: &[u8], chunk_size: usize, use_compression: bool) -> (Vec<u8>, bool, String, String) {
    let encoder = Encoder::new(encode_config(64, 64, chunk_size, use_compression)).unwrap();
    let (info, payload) = encoder.encode_payload(&data.to_vec()).unwrap();
    let composer = VideoComposer::new(64, 64, 30);
    let frames = composer.frames_from_payload(&payload, info.chunk_size).unwrap();
    assert_eq!(frames.len() as u64, info.num_frames);
    let decoder = Decoder::new(decode_config(64, 64)).unwrap();
    let collected = decoder.decode_frames(&frames, info.chunk_size, info.encoded_size).unwrap();
    let (final_data, dinfo) = decoder.decode_payload(collected).unwrap();
    assert_eq!(dinfo.extracted_size, final_data.len() as u64);
    (final_data, dinfo.was_compressed, dinfo.checksum, info.checksum)
}

#[test]
fn test_encoder_creation() {
    let config = EncodeConfig::default();
    let encoder = Encoder::new(config).unwrap();
    assert!(encoder.config.validate().is_ok());
}

#[test]
fn test_decoder_creation() {
    let config = DecodeConfig::default();
    let decoder = Decoder::new(config).unwrap();
    assert!(decoder.config.validate().is_ok());
}

#[test]
fn test_estimate_video_size() {
    let config = EncodeConfig::default();
    let encoder = Encoder::new(config).unwrap();

    let estimated = encoder.estimate_video_size(1024 * 1024);
    assert!(estimated > 0);
}

#[test]
fn estimate_video_size_exact() {
    // One full-HD frame of one uncompressed 4 KiB chunk, halved by the
    // video codec: 1920 * 1080 * 4 / 2 bytes.
    let mut config = EncodeConfig::default();
    config.use_compression = false;
    let encoder = Encoder::new(config).unwrap();
    assert_eq!(encoder.estimate_video_size(4096), 1920 * 1080 * 4 / 2);
}

#[test]
fn test_zstd_magic_detection() {
    let zstd_data = vec![0x28, 0xB5, 0x2F, 0xFD, 0x00, 0x00];
    assert!(Decoder::is_zstd_compressed(&zstd_data));

    let raw_data = vec![0x00, 0x01, 0x02, 0x03];
    assert!(!Decoder::is_zstd_compressed(&raw_data));

    let empty = vec![];
    assert!(!Decoder::is_zstd_compressed(&empty));
}

#[test]
fn test_verify_checksum() {
    let decoder = Decoder::new(DecodeConfig::default()).unwrap();
    let data = b"test data".to_vec();

    let mut hasher = sha2::Sha256::new();
    hasher.update(b"test data");
    let expected_checksum = format!("{:x}", hasher.finalize());

    assert!(decoder.verify_checksum(&data, &expected_checksum).unwrap());
    assert!(!decoder.verify_checksum(&data, "wrongchecksum").unwrap());
}

#[test]
fn checksum_is_lowercase_hex_sha256() {
    let encoder = Encoder::new(encode_config(64, 64, 512, false)).unwrap();
    let (info, _) = encoder.encode_payload(&b"abc".to_vec()).unwrap();
    assert_eq!(
        info.checksum,
        "ba7816bf8f01cfea414140de5dae2223b00361a396177a9cb410ff61f20015ad"
    );
    assert_eq!(info.checksum.len(), 64);
}

#[test]
fn empty_input_is_rejected_before_any_work() {
    let encoder = Encoder::new(encode_config(64, 64, 512, true)).unwrap();
    let empty: Vec<u8> = Vec::new();
    assert!(matches!(
        encoder.encode_payload(&empty),
        Err(F2V2FError::InvalidInput(_))
    ));
}

#[test]
fn encode_payload_without_compression() {
    let encoder = Encoder::new(encode_config(64, 64, 512, false)).unwrap();
    let data = b"test data".to_vec();
    let (info, payload) = encoder.encode_payload(&data).unwrap();
    assert_eq!(info.original_file_size, 9);
    assert_eq!(payload, data);
    assert_eq!(info.encoded_size, 9);
    assert_eq!(info.compression_ratio_percent, 100);
    assert_eq!(info.num_frames, 1);
}

#[test]
fn encode_payload_with_compression_carries_the_magic() {
    let encoder = Encoder::new(encode_config(64, 64, 512, true)).unwrap();
    let data: Vec<u8> = b"Hello, world! This is a test."
        .iter()
        .cycle()
        .take(3000)
        .copied()
        .collect();
    let (info, payload) = encoder.encode_payload(&data).unwrap();
    assert_eq!(info.original_file_size, 3000);
    assert!(Decoder::is_zstd_compressed(&payload));
    assert!(payload.len() < data.len());
    assert!(info.compression_ratio_percent > 100);
    assert_eq!(info.encoded_size, payload.len() as u64);
}

#[test]
fn full_round_trip_uncompressed() {
    let data = b"some plain bytes that do not start with the magic".to_vec();
    let (out, was_compressed, decode_checksum, encode_checksum) = round_trip(&data, 16, false);
    assert_eq!(out, data);
    assert!(!was_compressed);
    assert_eq!(decode_checksum, encode_checksum);
}

#[test]
fn full_round_trip_compressed() {
    let data: Vec<u8> = b"Hello, world! This is a test."
        .iter()
        .cycle()
        .take(3000)
        .copied()
        .collect();
    let (out, was_compressed, decode_checksum, encode_checksum) = round_trip(&data, 512, true);
    assert_eq!(out, data);
    assert!(was_compressed);
    assert_eq!(decode_checksum, encode_checksum);
}

#[test]
fn compression_survives_incompressible_data() {
    // Pseudo-random bytes grow under compression; the round trip must
    // still be exact.
    let mut state: u64 = 0x2545F4914F6CDD1D;
    let data: Vec<u8> = (0..2048)
        .map(|_| {
            state = state.wrapping_mul(6364136223846793005).wrapping_add(1442695040888963407);
            (state >> 56) as u8
        })
        .collect();
    let (out, was_compressed, _, _) = round_trip(&data, 512, true);
    assert_eq!(out, data);
    assert!(was_compressed);
}

#[test]
fn padding_is_stripped_exactly() {
    // 10 bytes over 4-byte chunks: the last chunk is padded, and the
    // decoded output is 10 bytes again, not 12.
    let data = b"0123456789".to_vec();
    let (out, _, _, _) = round_trip(&data, 4, false);
    assert_eq!(out.len(), 10);
    assert_eq!(out, data);
}

#[test]
fn round_trip_of_exact_chunk_multiple() {
    let data = b"abcdefgh".to_vec();
    let (out, _, _, _) = round_trip(&data, 4, false);
    assert_eq!(out, data);
}

#[test]
fn round_trip_one_byte_past_a_chunk_multiple() {
    let data = b"abcdefghi".to_vec();
    let (out, _, _, _) = round_trip(&data, 4, false);
    assert_eq!(out, data);
}

#[test]
fn adaptive_chunk_sizing_caps_the_frame_count() {
    let encoder = Encoder::new(encode_config(64, 64, 1, false)).unwrap();
    let data = vec![7u8; 5000];
    let (info, payload) = encoder.encode_payload(&data).unwrap();
    // The configured single-byte chunks would need 5000 frames; the
    // chunk size is raised to 5 so 1000 frames suffice.
    assert_eq!(info.chunk_size, 5);
    assert_eq!(info.num_frames, 1000);

    // The sidecar records the adjusted chunk size, not the configured
    // one.
    let sidecar = render_metadata(info.chunk_size, info.encoded_size, info.original_file_size);
    let (chunk, compressed, original) = parse_metadata(&sidecar, 1);
    assert_eq!(chunk, 5);
    assert_eq!(compressed, payload.len() as u64);
    assert_eq!(original, 5000);
}

#[test]
fn sidecar_metadata_round_trips() {
    let text = render_metadata(4096, 99, 123456789);
    assert_eq!(text, "chunk_size=4096\ncompressed_size=99\noriginal_size=123456789\n");
    assert_eq!(parse_metadata(&text, 1), (4096, 99, 123456789));
}

#[test]
fn sidecar_parser_ignores_what_it_does_not_know() {
    let (chunk, compressed, original) =
        parse_metadata("note=hello\nchunk_size=9\n\nchunk_size=oops\r\n", 4096);
    assert_eq!(chunk, 9);
    assert_eq!(compressed, 0);
    assert_eq!(original, 0);
}

#[test]
fn sidecar_parser_falls_back_to_defaults() {
    assert_eq!(parse_metadata("", 4096), (4096, 0, 0));
}

#[test]
fn sidecar_parser_ignores_out_of_range_values() {
    // One past u64::MAX cannot be represented and leaves the default.
    let text = "compressed_size=18446744073709551616
original_size=18446744073709551615
";
    assert_eq!(parse_metadata(text, 7), (7, 0, u64::MAX));
}

#[test]
fn later_sidecar_lines_override_earlier_ones() {
    let text = "chunk_size=5
chunk_size=9
";
    assert_eq!(parse_metadata(text, 1).0, 9);
}

#[test]
fn decode_payload_rejects_a_broken_compressed_stream() {
    let decoder = Decoder::new(decode_config(64, 64)).unwrap();
    // The magic without a valid stream behind it.
    let broken = vec![0x28, 0xB5, 0x2F, 0xFD, 1, 2, 3];
    assert!(matches!(decoder.decode_payload(broken), Err(F2V2FError::Io(_))));
}

#[test]
fn decode_frames_rejects_an_undersized_frame() {
    let decoder = Decoder::new(decode_config(64, 64)).unwrap();
    let frames = vec![vec![0u8; 10]];
    assert!(matches!(
        decoder.decode_frames(&frames, 5, 0),
        Err(F2V2FError::DecodingError(_))
    ));
}

#[test]
fn composer_rejects_a_chunk_larger_than_the_frame() {
    let composer = VideoComposer::new(64, 64, 30);
    let payload = vec![1u8; 10];
    assert!(matches!(
        composer.frames_from_payload(&payload, 64 * 64 + 1),
        Err(F2V2FError::ConfigError(_))
    ));
}

#[test]
fn validator_checks_existence_and_size() {
    assert!(matches!(
        VideoValidator::is_valid_video(false, 4096),
        Err(F2V2FError::InvalidInput(_))
    ));
    assert!(matches!(
        VideoValidator::is_valid_video(true, 100),
        Err(F2V2FError::InvalidInput(_))
    ));
    assert_eq!(VideoValidator::is_valid_video(true, 2048).unwrap(), true);
}
