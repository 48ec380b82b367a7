use osu_ipc::connection::{connection_response, decode_request, decode_request_payload,
    encode_response_frame, ConnectionOutcome};
use osu_ipc::dispatch::{build_response_message, ruleset_for_id};
use osu_ipc::frame::{decode_frame, encode_frame, encode_len};
use osu_ipc::message::{deserialize_message, encode_request, encode_response, OsuMessageData};
use osu_ipc::{ByteOrder, CalculationError, ConnectionError, DecodeError, FramingError, Ruleset};

fn frame_for(text: &str, order: ByteOrder) -> Vec<u8> {
    let payload: Vec<u8> = text.as_bytes().to_vec();
    encode_frame(&payload, order).expect("payload fits a frame")
}

fn request_text(beatmap_file: &str, ruleset_id: u8, mods: u32) -> String {
    encode_request(&OsuMessageData {
        beatmap_file: beatmap_file.to_string(),
        ruleset_id,
        mods,
    })
}

#[test]
fn request_round_trip_plain_path() {
    let text = request_text("/maps/song.osu", 0, 0);
    let decoded = deserialize_message(&text).expect("canonical encoding decodes");
    assert_eq!(decoded.beatmap_file, "/maps/song.osu");
    assert_eq!(decoded.ruleset_id, 0);
    assert_eq!(decoded.mods, 0);
}

#[test]
fn request_round_trip_escaped_path() {
    let path = "C:\\osu!\\Songs\\a \"b\"\t.osu";
    let text = request_text(path, 3, 0xffff_ffff);
    let decoded = deserialize_message(&text).expect("escaped encoding decodes");
    assert_eq!(decoded.beatmap_file, path);
    assert_eq!(decoded.ruleset_id, 3);
    assert_eq!(decoded.mods, 0xffff_ffff);
}

#[test]
fn request_decodes_with_whitespace_and_unicode() {
    let text = "{ \"Type\": \"System.Object\",\n \"Value\": { \"MessageType\": \"x\",\r\n \"MessageData\": { \"BeatmapFile\": \"/s\u{00e9}/\u{3042}.osu\", \"RulesetId\": 2, \"Mods\": 64 } } }";
    let decoded = deserialize_message(text).expect("whitespace is insignificant");
    assert_eq!(decoded.beatmap_file, "/s\u{00e9}/\u{3042}.osu");
    assert_eq!(decoded.ruleset_id, 2);
    assert_eq!(decoded.mods, 64);
}

#[test]
fn request_rejects_malformed_json() {
    assert_eq!(deserialize_message(""), Err(DecodeError::InvalidJson));
    assert_eq!(deserialize_message("not json"), Err(DecodeError::InvalidJson));
    assert_eq!(
        deserialize_message("{\"Type\":\"System.Object\""),
        Err(DecodeError::InvalidJson)
    );
}

#[test]
fn request_rejects_wrong_schema() {
    // wrong key in place of Type
    let text = "{\"Kind\":\"System.Object\",\"Value\":{\"MessageType\":\"m\",\"MessageData\":{\"BeatmapFile\":\"f\",\"RulesetId\":0,\"Mods\":0}}}";
    assert_eq!(deserialize_message(text), Err(DecodeError::SchemaMismatch));
    // a number where a string is required
    let text = "{\"Type\":3,\"Value\":{\"MessageType\":\"m\",\"MessageData\":{\"BeatmapFile\":\"f\",\"RulesetId\":0,\"Mods\":0}}}";
    assert_eq!(deserialize_message(text), Err(DecodeError::SchemaMismatch));
    // a ruleset id outside eight bits
    let text = "{\"Type\":\"t\",\"Value\":{\"MessageType\":\"m\",\"MessageData\":{\"BeatmapFile\":\"f\",\"RulesetId\":256,\"Mods\":0}}}";
    assert_eq!(deserialize_message(text), Err(DecodeError::SchemaMismatch));
    // a mods bitmask outside thirty-two bits
    let text = "{\"Type\":\"t\",\"Value\":{\"MessageType\":\"m\",\"MessageData\":{\"BeatmapFile\":\"f\",\"RulesetId\":0,\"Mods\":4294967296}}}";
    assert_eq!(deserialize_message(text), Err(DecodeError::SchemaMismatch));
}

#[test]
fn request_rejects_trailing_nul_padding() {
    let mut text = request_text("/maps/song.osu", 0, 0);
    text.push('\u{0}');
    assert_eq!(deserialize_message(&text), Err(DecodeError::InvalidJson));
}

#[test]
fn payload_decodes_non_ascii_utf8_bytes() {
    let path = "/maps/\u{00e9}t\u{00fc}de \u{3042}.osu";
    let text = request_text(path, 2, 8);
    let bytes: Vec<u8> = text.as_bytes().to_vec();
    let decoded = decode_request_payload(&bytes).expect("UTF-8 bytes decode");
    assert_eq!(decoded.beatmap_file, path);
    assert_eq!(decoded.ruleset_id, 2);
    assert_eq!(decoded.mods, 8);
}

#[test]
fn payload_rejects_invalid_utf8() {
    let bytes: Vec<u8> = vec![0xff, 0xfe, b'{', b'}'];
    assert_eq!(decode_request_payload(&bytes), Err(DecodeError::InvalidUtf8));
}

#[test]
fn response_text_is_exact() {
    let msg = build_response_message(&Ok("5.43".to_string()));
    let text = encode_response(&msg);
    assert_eq!(
        text,
        "{\"Type\":\"System.Object\",\"Value\":{\"MessageType\":\"LegacyIpcDifficultyCalculationResponse\",\"MessageData\":{\"StarRating\":5.43}}}"
    );
}

#[test]
fn response_frame_prefix_reads_back_as_payload_length() {
    for order in [ByteOrder::Little, ByteOrder::Big] {
        let msg = build_response_message(&Ok("7.25".to_string()));
        let frame = encode_response_frame(&msg, order).expect("response fits a frame");
        let text = encode_response(&msg);
        let prefix = &frame[0..4];
        let expected = encode_len(text.as_bytes().len() as u32, order);
        assert_eq!(prefix, &expected[..]);
        let body = decode_frame(&frame, order).expect("the frame reads back");
        assert_eq!(body, text.as_bytes());
    }
}

#[test]
fn frame_round_trip_both_orders() {
    for order in [ByteOrder::Little, ByteOrder::Big] {
        let payload: Vec<u8> = vec![1, 2, 3, 250, 251];
        let frame = encode_frame(&payload, order).expect("payload fits");
        assert_eq!(frame.len(), 9);
        assert_eq!(decode_frame(&frame, order), Ok(payload));
    }
}

#[test]
fn little_and_big_prefixes_are_reversed() {
    let le = encode_len(0x0102_0304, ByteOrder::Little);
    let be = encode_len(0x0102_0304, ByteOrder::Big);
    assert_eq!(le, vec![4, 3, 2, 1]);
    assert_eq!(be, vec![1, 2, 3, 4]);
}

#[test]
fn short_header_fails() {
    let avail: Vec<u8> = vec![7, 0];
    assert_eq!(decode_frame(&avail, ByteOrder::Little), Err(FramingError::ShortHeader));
}

#[test]
fn declared_length_past_stream_close_is_short_body() {
    // the header declares 10 bytes; only 3 arrived before the close
    let mut avail = encode_len(10, ByteOrder::Little);
    avail.extend_from_slice(&[1, 2, 3]);
    assert_eq!(decode_frame(&avail, ByteOrder::Little), Err(FramingError::ShortBody));
}

#[test]
fn zero_length_frame_is_empty_message_and_gets_no_response() {
    let avail = encode_len(0, ByteOrder::Little);
    let err = decode_request(&avail, ByteOrder::Little).unwrap_err();
    assert_eq!(err, ConnectionError::Framing(FramingError::EmptyMessage));
    let response = connection_response(&ConnectionOutcome::Undecodable(err), ByteOrder::Little);
    assert!(response.is_none());
}

#[test]
fn ruleset_ids_map_fixedly_and_others_are_rejected() {
    assert_eq!(ruleset_for_id(0), Ok(Ruleset::Standard));
    assert_eq!(ruleset_for_id(1), Ok(Ruleset::Taiko));
    assert_eq!(ruleset_for_id(2), Ok(Ruleset::Catch));
    assert_eq!(ruleset_for_id(3), Ok(Ruleset::Mania));
    for id in [4u8, 9, 100, 255] {
        assert_eq!(ruleset_for_id(id), Err(CalculationError::InvalidRuleset));
    }
}

#[test]
fn rated_request_gets_the_engine_rating_back() {
    // a valid request the engine rates at 5.43
    let order = ByteOrder::Little;
    let avail = frame_for(&request_text("/maps/rated.osu", 0, 0), order);
    let request = decode_request(&avail, order).expect("the request decodes");
    assert_eq!(ruleset_for_id(request.ruleset_id), Ok(Ruleset::Standard));
    let outcome = ConnectionOutcome::Dispatched(Ok("5.43".to_string()));
    let frame = connection_response(&outcome, order).expect("a decoded request is answered");
    let body = decode_frame(&frame, order).expect("the response frame reads back");
    let text = String::from_utf8(body).expect("the response is UTF-8");
    assert!(text.contains("{\"StarRating\":5.43}"));
}

#[test]
fn missing_beatmap_gets_the_sentinel_response() {
    let order = ByteOrder::Little;
    let outcome = ConnectionOutcome::Dispatched(Err(CalculationError::FileNotFound));
    let frame = connection_response(&outcome, order).expect("a decoded request is answered");
    let body = decode_frame(&frame, order).expect("the response frame reads back");
    let text = String::from_utf8(body).expect("the response is UTF-8");
    assert!(text.contains("{\"StarRating\":0.0}"));
}

#[test]
fn invalid_ruleset_gets_the_sentinel_response() {
    let order = ByteOrder::Little;
    let avail = frame_for(&request_text("/maps/song.osu", 9, 0), order);
    let request = decode_request(&avail, order).expect("the envelope itself is valid");
    let err = ruleset_for_id(request.ruleset_id).unwrap_err();
    assert_eq!(err, CalculationError::InvalidRuleset);
    let frame = connection_response(&ConnectionOutcome::Dispatched(Err(err)), order)
        .expect("a decoded request is answered");
    let body = decode_frame(&frame, order).expect("the response frame reads back");
    let text = String::from_utf8(body).expect("the response is UTF-8");
    assert!(text.contains("{\"StarRating\":0.0}"));
}

#[test]
fn malformed_connection_does_not_disturb_the_next() {
    let order = ByteOrder::Little;
    // connection 1: a zero-length frame; no response is sent
    let first = encode_len(0, order);
    let err = decode_request(&first, order).unwrap_err();
    assert!(connection_response(&ConnectionOutcome::Undecodable(err), order).is_none());
    // connection 2: a valid request; it gets a correct, non-sentinel response
    let second = frame_for(&request_text("/maps/next.osu", 1, 16), order);
    let request = decode_request(&second, order).expect("the second connection decodes");
    assert_eq!(request.beatmap_file, "/maps/next.osu");
    assert_eq!(ruleset_for_id(request.ruleset_id), Ok(Ruleset::Taiko));
    let frame = connection_response(&ConnectionOutcome::Dispatched(Ok("4.1".to_string())), order)
        .expect("the second connection is answered");
    let body = decode_frame(&frame, order).expect("the response frame reads back");
    let text = String::from_utf8(body).expect("the response is UTF-8");
    assert!(text.contains("{\"StarRating\":4.1}"));
}
