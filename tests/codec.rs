use heartbeat::flags::{DataPointFlags, FrameMetadata};
use heartbeat::frame::{sample_offset, Field, Frame, ProtocolError, SAMPLE_SCALE};

const GOOD_LINE: &str = "$1700000000,G,20000,37.1,-122.1,10.0,3,45.0,1.0,2,600,424,1024";

fn normalized(raw: i64) -> f64 {
    sample_offset(raw) as f64 / SAMPLE_SCALE as f64
}

#[test]
fn scenario_line_parses_to_frame() {
    let frame = Frame::parse(GOOD_LINE).expect("frame");
    assert_eq!(frame.timestamp(), Some(1700000000));
    assert!(frame.has_gps_fix());
    assert!(!frame.is_clipping());
    assert_eq!(frame.samples(), &[600, 424]);
    let samples: Vec<f64> = frame.samples().iter().map(|r| normalized(*r)).collect();
    assert_eq!(samples, vec![(600.0 - 512.0) / 512.0, (424.0 - 512.0) / 512.0]);
    assert_eq!(frame.sample_rate(), "20000");
    assert_eq!(frame.latitude(), "37.1");
    assert_eq!(frame.longitude(), "-122.1");
    assert_eq!(frame.elevation(), "10.0");
    assert_eq!(frame.satellites(), 3);
    assert_eq!(frame.satellite_count(), 3);
    assert_eq!(frame.speed(), "45.0");
    assert_eq!(frame.angle(), "1.0");
    assert_eq!(frame.latitude().parse::<f32>().unwrap(), 37.1f32);
}

#[test]
fn scenario_wrong_checksum_is_rejected() {
    let line = "$1700000000,G,20000,37.1,-122.1,10.0,3,45.0,1.0,2,600,424,1023";
    assert_eq!(Frame::parse(line).err(), Some(ProtocolError::ChecksumMismatch));
}

#[test]
fn checksum_followed_by_line_break() {
    let frame = Frame::parse("$1,,1.5,2,3,4,5,6,7,3,1,2,3,6\n").expect("frame");
    assert_eq!(frame.samples(), &[1, 2, 3]);
}

#[test]
fn line_without_marker_decodes_too() {
    let line = &GOOD_LINE[1..];
    assert!(Frame::parse(line).is_ok());
}

#[test]
fn unreadable_timestamp_is_absent() {
    let frame = Frame::parse("$abc,GO,1,2,3,4,5,6,7,0,0").expect("frame");
    assert_eq!(frame.timestamp(), None);
    assert!(frame.has_gps_fix());
    assert!(frame.is_clipping());
    assert!(frame.samples().is_empty());
}

#[test]
fn fewer_samples_than_declared() {
    let line = "$1,G,1,2,3,4,5,6,7,3,600,424,1024";
    assert_eq!(Frame::parse(line).err(), Some(ProtocolError::SampleCountMismatch));
    let short = "$1,G,1,2,3,4,5,6,7,3,600";
    assert_eq!(Frame::parse(short).err(), Some(ProtocolError::SampleCountMismatch));
}

#[test]
fn missing_fields_are_named() {
    assert_eq!(Frame::parse("$1").err(), Some(ProtocolError::MissingField(Field::Flags)));
    assert_eq!(Frame::parse("$1,G").err(), Some(ProtocolError::MissingField(Field::SampleRate)));
    assert_eq!(
        Frame::parse("$1,G,1,2,3,4,5,6,7").err(),
        Some(ProtocolError::MissingField(Field::SampleCount))
    );
}

#[test]
fn unreadable_fields_are_named() {
    assert_eq!(
        Frame::parse("$1,G,x,2,3,4,5,6,7,0,0").err(),
        Some(ProtocolError::FieldParseError(Field::SampleRate))
    );
    assert_eq!(
        Frame::parse("$1,G,1,2,3,4,70000,6,7,0,0").err(),
        Some(ProtocolError::FieldParseError(Field::Satellites))
    );
    assert_eq!(
        Frame::parse("$1,G,1,2,3,4,5,6,7,-1,0").err(),
        Some(ProtocolError::FieldParseError(Field::SampleCount))
    );
    assert_eq!(
        Frame::parse("$1,G,1,2,3,4,5,6,7,1,1.5,0").err(),
        Some(ProtocolError::FieldParseError(Field::Sample))
    );
    assert_eq!(
        Frame::parse("$1,G,1,2,3,4,5,6,7,1,5,x").err(),
        Some(ProtocolError::FieldParseError(Field::Checksum))
    );
}

#[test]
fn error_messages_name_the_field() {
    assert_eq!(ProtocolError::MissingField(Field::Latitude).message(), "missing field latitude");
    assert_eq!(
        ProtocolError::FieldParseError(Field::Checksum).message(),
        "cannot read field checksum"
    );
    assert_eq!(ProtocolError::ChecksumMismatch.message(), "checksum mismatch");
}

#[test]
fn negative_samples_wrap_in_the_checksum() {
    // -1 + 2 = 1
    let frame = Frame::parse("$1,,1,2,3,4,5,6,7,2,-1,2,1").expect("frame");
    assert_eq!(frame.samples(), &[-1, 2]);
    // the accumulator is unsigned 64-bit: a lone -1 sums to 2^64 - 1
    assert!(Frame::parse("$1,,1,2,3,4,5,6,7,1,-1,18446744073709551615").is_ok());
}

#[test]
fn normalization_of_raw_samples() {
    assert_eq!(normalized(512), 0.0);
    assert_eq!(normalized(0), -1.0);
    assert!((normalized(1023) - 0.998).abs() < 0.001);
}

#[test]
fn flags_are_independent() {
    let g = DataPointFlags::parse("G");
    assert!(g.has_gps_fix() && !g.is_clipping());
    let o = FrameMetadata::parse("xO");
    assert!(!o.has_gps_fix() && o.is_clipping());
    let none = DataPointFlags::parse("go");
    assert!(!none.has_gps_fix() && !none.is_clipping());
    let both = DataPointFlags::parse("OG");
    assert!(both.has_gps_fix() && both.is_clipping());
    let fresh = DataPointFlags::new();
    assert!(!fresh.has_gps_fix() && !fresh.is_clipping());
}

#[test]
fn flags_token_round_trip() {
    let both = DataPointFlags::parse("OG");
    assert_eq!(both.to_string(), "GO");
    assert_eq!(DataPointFlags::parse("xG").to_string(), "G");
    assert_eq!(DataPointFlags::new().to_string(), "");
    assert_eq!(DataPointFlags::parse(&both.to_string()), both);
}

#[test]
fn exponent_float_fields_decode() {
    let line = "$1700000000,G,2e4,3.71E+1,-1.221e2,1.,3,.5,1.5E-3,2,600,424,1024";
    let frame = Frame::parse(line).expect("frame");
    assert_eq!(frame.sample_rate(), "2e4");
    assert_eq!(frame.sample_rate().parse::<f32>().unwrap(), 20000.0);
    assert_eq!(frame.latitude(), "3.71E+1");
    assert_eq!(frame.elevation(), "1.");
    assert_eq!(frame.speed(), ".5");
    assert_eq!(frame.angle(), "1.5E-3");
    let wrong = "$1700000000,G,2e4,3.71E+1,-1.221e2,1.,3,.5,1.5E-3,2,600,424,1023";
    assert_eq!(Frame::parse(wrong).err(), Some(ProtocolError::ChecksumMismatch));
}

#[test]
fn nan_and_infinity_fields_decode() {
    let frame = Frame::parse("$1,G,20000,NaN,nan,-inf,3,Infinity,+INF,0,0").expect("frame");
    assert_eq!(frame.latitude(), "NaN");
    assert!(frame.latitude().parse::<f32>().unwrap().is_nan());
    assert_eq!(frame.elevation(), "-inf");
    assert_eq!(frame.speed(), "Infinity");
    assert_eq!(frame.angle(), "+INF");
}

#[test]
fn malformed_float_fields_are_refused() {
    for bad in ["e5", ".", "1e", "1e+", "na", "infinit", "1.2.3", "+-1", ""] {
        let line = format!("$1,G,{},2,3,4,5,6,7,0,0", bad);
        assert_eq!(
            Frame::parse(&line).err(),
            Some(ProtocolError::FieldParseError(Field::SampleRate)),
            "{}",
            bad
        );
        assert!(bad.parse::<f32>().is_err(), "{}", bad);
    }
}
