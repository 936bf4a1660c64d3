use mgba_gateway::double::cut_down;
use mgba_gateway::numbers::{
    NumberError, decimal_of, hex8_of, hex_of, parse_number,
};
use mgba_gateway::string_map::StringMap;
use mgba_gateway::streaming::control::{MAX_CLIENT_COUNTER, MAX_CLIENT_FPS};
use mgba_gateway::streaming::protocol::{
    ClientMetrics, ProtocolError, ViewerControl, parse_viewer_control_message,
};
use mgba_gateway::text::{split_at_each, text_eq};
use std::collections::BTreeMap;

fn chars(s: &str) -> Vec<char> {
    s.chars().collect()
}

#[test]
fn numbers_are_written_as_std_writes_them() {
    for n in [0u64, 1, 9, 10, 99, 100, 12345, u32::MAX as u64, u64::MAX] {
        assert_eq!(decimal_of(n), n.to_string());
        assert_eq!(parse_number(&chars(&n.to_string()), 10, u64::MAX), Ok(n));
    }
    for n in [0u32, 0xab, 0x0200_000c, u32::MAX] {
        assert_eq!(hex8_of(n), format!("{n:08x}"));
    }
    assert_eq!(hex_of(&[0, 0x0f, 0xa0, 0xff]), "000fa0ff");
    assert_eq!(hex_of(&[]), "");
}

#[test]
fn numbers_are_parsed_as_std_parses_them() {
    for s in ["", "+", "-", "+1", "-1", "ff", "FF", "fF+", "100000000", "ffffffff", "1g", "fffffffffg"] {
        let hex = parse_number(&chars(s), 16, u32::MAX as u64);
        assert_eq!(hex.ok(), u32::from_str_radix(s, 16).ok().map(u64::from), "{s}");
        let dec = parse_number(&chars(s), 10, u8::MAX as u64);
        assert_eq!(dec.ok(), s.parse::<u8>().ok().map(u64::from), "{s}");
    }
    assert_eq!(parse_number(&[], 10, 9), Err(NumberError::Empty));
    assert_eq!(parse_number(&chars("x"), 10, 9), Err(NumberError::InvalidDigit));
    assert_eq!(parse_number(&chars("10"), 10, 9), Err(NumberError::TooLarge));
    assert_eq!(parse_number(&chars("10x"), 10, 9), Err(NumberError::TooLarge));
    assert_eq!(parse_number(&chars("x10"), 10, 9), Err(NumberError::InvalidDigit));
}

#[test]
fn texts_are_split_as_std_splits_them() {
    for s in ["", ",", "a", "a,b", ",a,,b,", "é,ü"] {
        let parts: Vec<&str> = s.split(',').collect();
        assert_eq!(split_at_each(&chars(s), ','), parts);
    }
    assert!(text_eq("é", "é"));
    assert!(!text_eq("e", "é"));
}

#[test]
fn maps_agree_with_std() {
    let mut map = StringMap::new();
    let mut model = BTreeMap::new();
    let keys = ["b", "a", "", "ab", "a", "é", "b", "z"];
    for (i, key) in keys.into_iter().enumerate() {
        assert_eq!(map.insert(key, i), model.insert(key.to_string(), i));
        assert_eq!(map.len(), model.len());
    }
    assert_eq!(map.remove("a"), model.remove("a"));
    assert_eq!(map.remove("a"), None);
    assert_eq!(map.keys(), &model.keys().cloned().collect::<Vec<_>>());
    for key in keys {
        assert_eq!(map.get(key), model.get(key));
        assert_eq!(map.contains_key(key), model.contains_key(key));
    }
    map.clear();
    assert_eq!(map.len(), 0);
}

#[test]
fn limits_are_the_numbers_they_stand_for() {
    assert_eq!(f64::from_bits(MAX_CLIENT_COUNTER), 10_000_000.0);
    assert_eq!(f64::from_bits(MAX_CLIENT_FPS), 1000.0);
}

#[test]
fn numbers_are_cut_down_as_doubles_are() {
    let max = 1000.0f64;
    for x in [
        0.0, -0.0, 1.0, -1.0, 999.9, 1000.0, 1000.1, 5e-324, -5e-324, f64::MAX, f64::MIN,
        f64::INFINITY, f64::NEG_INFINITY, f64::NAN,
    ] {
        let expected = if x.is_finite() && x >= 0.0 {
            Some(x.min(max).to_bits())
        } else {
            None
        };
        assert_eq!(cut_down(x.to_bits(), max.to_bits()), expected, "{x}");
    }
}

fn report(metrics: &str) -> ClientMetrics {
    let text = format!("{{\"type\":\"client-metrics\",\"metrics\":{metrics}}}");
    match parse_viewer_control_message(text.as_bytes()) {
        Ok(ViewerControl::ClientMetrics(m)) => m,
        other => panic!("unexpected {other:?}"),
    }
}

#[test]
fn reports_keep_what_is_usable() {
    let m = report(
        r#"{"decodedFrames":1e9,"droppedFrames":3,"fps":59.94,"keyframeRecoveries":"2",
           "reconnects":null,"renderedFrames":-0.0,"sequenceGaps":18446744073709551615}"#,
    );
    assert_eq!(m.decoded_frames, Some(10_000_000.0f64.to_bits()));
    assert_eq!(m.dropped_frames, Some(3.0f64.to_bits()));
    assert_eq!(m.fps, Some(59.94f64.to_bits()));
    assert_eq!(m.keyframe_recoveries, None);
    assert_eq!(m.reconnects, None);
    assert_eq!(m.rendered_frames, Some((-0.0f64).to_bits()));
    assert_eq!(m.sequence_gaps, Some(10_000_000.0f64.to_bits()));
    for nothing in ["[1,2]", "null", "{}", "7"] {
        assert_eq!(report(nothing).fps, None);
    }
}

#[test]
fn malformed_messages_are_told_apart() {
    let words = |text: &str| parse_viewer_control_message(text.as_bytes()).unwrap_err().message();
    assert_eq!(words("[1]"), "invalid JSON: message must be an object");
    assert_eq!(words("{}"), "invalid JSON: missing type");
    assert_eq!(words(r#"{"type":1}"#), "invalid JSON: missing type");
    assert_eq!(words(r#"{"type":"x"}"#), "unknown message type: x");
    let outside = serde_json::from_slice::<serde_json::Value>(b"{").unwrap_err().to_string();
    assert_eq!(words("{"), format!("invalid JSON: {outside}"));
    let long = vec![b' '; 4097];
    let error = parse_viewer_control_message(&long).unwrap_err();
    assert!(matches!(error, ProtocolError::TooLarge));
    assert_eq!(error.message(), "message too large");
    let mut padded = br#"{"type":"keyframe"}"#.to_vec();
    padded.resize(4096, b' ');
    assert_eq!(parse_viewer_control_message(&padded).unwrap(), ViewerControl::Keyframe);
}
