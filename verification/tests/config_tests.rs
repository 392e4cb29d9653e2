use f2v2f::{DecodeConfig, EncodeConfig, ErrorContext, F2V2FError, F2V2FErrorCode};

#[test]
fn test_parse_resolution() {
    assert_eq!(EncodeConfig::parse_resolution("1920x1080").unwrap(), (1920, 1080));
    assert_eq!(EncodeConfig::parse_resolution("3840x2160").unwrap(), (3840, 2160));
    assert!(EncodeConfig::parse_resolution("invalid").is_err());
    assert!(EncodeConfig::parse_resolution("100x100").is_err());
}

#[test]
fn parse_resolution_edge_cases() {
    assert_eq!(EncodeConfig::parse_resolution("256x256").unwrap(), (256, 256));
    assert_eq!(EncodeConfig::parse_resolution("7680x4320").unwrap(), (7680, 4320));
    assert!(EncodeConfig::parse_resolution("7681x4320").is_err());
    assert!(EncodeConfig::parse_resolution("1920x1080x60").is_err());
    assert!(EncodeConfig::parse_resolution("x1080").is_err());
    assert!(EncodeConfig::parse_resolution("1920x").is_err());
    assert!(EncodeConfig::parse_resolution("").is_err());
    assert!(EncodeConfig::parse_resolution("19 20x1080").is_err());
    assert!(matches!(
        EncodeConfig::parse_resolution("99999999999999999999x1080"),
        Err(F2V2FError::InvalidInput(_))
    ));
    // Leading zeros are plain decimal digits.
    assert_eq!(EncodeConfig::parse_resolution("0256x0256").unwrap(), (256, 256));
}

#[test]
fn test_validate_config() {
    let config = EncodeConfig::default();
    assert!(config.validate().is_ok());

    let mut bad_config = EncodeConfig::default();
    bad_config.fps = 0;
    assert!(bad_config.validate().is_err());
}

#[test]
fn validate_rejects_each_bad_range() {
    let mut c = EncodeConfig::default();
    c.fps = 121;
    assert!(matches!(c.validate(), Err(F2V2FError::ConfigError(_))));

    let mut c = EncodeConfig::default();
    c.chunk_size = 0;
    assert!(matches!(c.validate(), Err(F2V2FError::ConfigError(_))));

    let mut c = EncodeConfig::default();
    c.chunk_size = 10 * 1024 * 1024 + 1;
    assert!(matches!(c.validate(), Err(F2V2FError::ConfigError(_))));

    let mut c = EncodeConfig::default();
    c.num_threads = 0;
    assert!(matches!(c.validate(), Err(F2V2FError::ConfigError(_))));

    let mut d = DecodeConfig::default();
    assert!(d.validate().is_ok());
    d.num_threads = 0;
    assert!(matches!(d.validate(), Err(F2V2FError::ConfigError(_))));
}

#[test]
fn error_context_describes_itself() {
    let ctx = ErrorContext {
        file_offset: 1024,
        frame_number: 3,
        operation: "encode".to_string(),
    };
    assert_eq!(ctx.describe(), "Operation: encode, Frame: 3, File Offset: 1024 bytes");
}

#[test]
fn error_codes_match_the_boundary_contract() {
    assert_eq!(F2V2FErrorCode::Success.code(), 0);
    assert_eq!(F2V2FErrorCode::InvalidInput.code(), 1);
    assert_eq!(F2V2FErrorCode::IoError.code(), 2);
    assert_eq!(F2V2FErrorCode::EncodingError.code(), 3);
    assert_eq!(F2V2FErrorCode::DecodingError.code(), 4);
    assert_eq!(F2V2FErrorCode::ConfigError.code(), 5);
    assert_eq!(F2V2FErrorCode::OperationInProgress.code(), 6);
    assert_eq!(F2V2FErrorCode::InvalidHandle.code(), 7);
    assert_eq!(F2V2FErrorCode::Unknown.code(), 255);
}
