use f2v2f::GeometricArtGenerator;

#[test]
fn test_generator_creation() {
    let gen = GeometricArtGenerator::new(1920, 1080, 42);
    assert_eq!(gen.width, 1920);
    assert_eq!(gen.height, 1080);
}

#[test]
fn test_pattern_computation() {
    let gen = GeometricArtGenerator::new(256, 256, 42);
    let pattern = gen.compute_pattern(128, 128);
    // The pattern is a deterministic function of the coordinates alone.
    assert_eq!(pattern, gen.compute_pattern(128, 128));
    assert!(pattern <= 255);
}

#[test]
fn chunk_round_trip_identity_channel() {
    let gen = GeometricArtGenerator::new(64, 64, 42);
    let data: Vec<u8> = vec![0, 255, 7, 128, 42];
    let frame = gen.generate_from_data(&data).unwrap();
    assert_eq!(frame.len(), 64 * 64 * 4);
    let decoded = gen.decode_from_image(&frame, data.len()).unwrap();
    assert_eq!(decoded, data);
}

#[test]
fn chunk_round_trip_single_byte_chunk() {
    let gen = GeometricArtGenerator::new(64, 64, 7);
    let data: Vec<u8> = vec![201];
    let frame = gen.generate_from_data(&data).unwrap();
    let decoded = gen.decode_from_image(&frame, 1).unwrap();
    assert_eq!(decoded, data);
}

#[test]
fn chunk_round_trip_chunk_equal_to_pixel_count() {
    // The largest chunk a frame can carry: one byte per pixel.
    let gen = GeometricArtGenerator::new(16, 16, 1);
    let data: Vec<u8> = (0..=255).collect();
    let frame = gen.generate_from_data(&data).unwrap();
    let decoded = gen.decode_from_image(&frame, 256).unwrap();
    assert_eq!(decoded, data);
}

#[test]
fn decode_tolerates_small_pixel_noise() {
    let gen = GeometricArtGenerator::new(64, 64, 42);
    let data: Vec<u8> = vec![50, 100, 150, 200, 120];
    let mut frame = gen.generate_from_data(&data).unwrap();
    // Perturb the grayscale of a few pixels by one step each, as a
    // lossy transform's quantization would.
    for p in [0usize, 5, 10] {
        let base = 4 * p;
        if frame[base] < 255 {
            frame[base] += 1;
            frame[base + 1] += 1;
            frame[base + 2] += 1;
        } else {
            frame[base] -= 1;
            frame[base + 1] -= 1;
            frame[base + 2] -= 1;
        }
    }
    let decoded = gen.decode_from_image(&frame, data.len()).unwrap();
    assert_eq!(decoded, data);
}

#[test]
fn generate_rejects_empty_chunk() {
    let gen = GeometricArtGenerator::new(64, 64, 42);
    let empty: Vec<u8> = Vec::new();
    assert!(gen.generate_from_data(&empty).is_err());
}

#[test]
fn generate_rejects_oversized_chunk() {
    let gen = GeometricArtGenerator::new(16, 16, 42);
    let data: Vec<u8> = vec![1; 16 * 16 + 1];
    assert!(gen.generate_from_data(&data).is_err());
}

#[test]
fn decode_rejects_wrong_buffer_size() {
    let gen = GeometricArtGenerator::new(64, 64, 42);
    let bad = vec![0u8; 10];
    assert!(gen.decode_from_image(&bad, 5).is_err());
}

#[test]
fn generate_pattern_frame() {
    let gen = GeometricArtGenerator::new(64, 64, 42);
    let frame = gen.generate().unwrap();
    assert_eq!(frame.len(), 64 * 64 * 4);
    // Alpha is fixed; R, G and B carry the same grayscale pattern.
    assert_eq!(frame[3], 255);
    assert_eq!(frame[0], frame[1]);
    assert_eq!(frame[1], frame[2]);
    assert_eq!(frame[0], gen.compute_pattern(0, 0));
}
