use nuttyverse_core::nutty_id::NuttyIdTextError;
use nuttyverse_core::nutty_id::DecodeError;
use nuttyverse_core::nutty_id::decode_base_58;
use nuttyverse_core::nutty_id::encode_base_58;
use nuttyverse_core::nutty_id::extract_last_41_bits;
use nuttyverse_core::nutty_id::is_valid_nutty_id;
use nuttyverse_core::nutty_id::DissociatedNuttyId;
use nuttyverse_core::nutty_id::NuttyId;
use nuttyverse_core::nutty_id::NuttyIdError;

fn from_bytes(bytes: [u8; 16]) -> NuttyId {
    NuttyId::new(u128::from_be_bytes(bytes))
}

#[test]
fn test_hand_calculated_nutty_id() {
    let nutty_id = from_bytes([
        0x01, 0x96, 0x23, 0x29, 0xad, 0x5a, 0x7f, 0xfd, 0x83, 0x13, 0x7f, 0xaf, 0x55, 0xd2, 0x91,
        0xf6,
    ]);
    assert_eq!(nutty_id.nid(), "qfWLRgy");
}

#[test]
fn test_zero_value() {
    let nutty_id = from_bytes([0; 16]);
    assert_eq!(nutty_id.nid(), "1111111");
}

#[test]
fn test_max_value() {
    let mut bytes = [0; 16];
    (11..16).for_each(|i| {
        bytes[i] = 0xFF;
    });
    bytes[10] |= 0x01;
    let uuid = u128::from_be_bytes(bytes);
    let nutty_id = NuttyId::new(uuid);

    let max_value = (1u128 << 41) - 1;
    let extracted = extract_last_41_bits(uuid);
    assert_eq!(extracted, max_value);
    assert_eq!(nutty_id.nid().len(), 7);
    assert_eq!(nutty_id.nid(), "zmM9z4E");
}

#[test]
fn test_is_valid_nutty_id() {
    assert!(is_valid_nutty_id("1111111"));
    assert!(is_valid_nutty_id("abcdefg"));
    assert!(is_valid_nutty_id("ABCDEFG"));
    assert!(is_valid_nutty_id("1234567"));
    assert!(is_valid_nutty_id("zmM9z4E"));

    assert!(!is_valid_nutty_id(""));
    assert!(!is_valid_nutty_id("123456"));
    assert!(!is_valid_nutty_id("12345678"));
    assert!(!is_valid_nutty_id("abcdef0"));
    assert!(!is_valid_nutty_id("abcdefO"));
    assert!(!is_valid_nutty_id("abcdefI"));
    assert!(!is_valid_nutty_id("abcdefl"));
    assert!(!is_valid_nutty_id("abcdef!"));
    assert!(!is_valid_nutty_id("zzzzzzz"));
}

#[test]
fn test_timestamp_extraction() {
    let mut bytes = [0; 16];
    bytes[0] = 0x01;
    bytes[1] = 0x86;
    bytes[2] = 0x74;
    bytes[3] = 0x1B;
    bytes[4] = 0x0D;
    bytes[5] = 0x80;
    bytes[6] = (bytes[6] & 0x0F) | 0x70;
    bytes[8] = (bytes[8] & 0x3F) | 0x80;
    (9..16).for_each(|i| {
        bytes[i] = i as u8;
    });
    let nutty_id = from_bytes(bytes);
    let expected_timestamp = 0x0186741B0D80;
    assert_eq!(nutty_id.timestamp(), expected_timestamp);
}

#[test]
fn test_now_timestamp_is_current() {
    let before_ms = std::time::SystemTime::now()
        .duration_since(std::time::UNIX_EPOCH)
        .expect("Time went backwards")
        .as_millis() as u64;
    let nutty_id = NuttyId::now();
    let after_ms = std::time::SystemTime::now()
        .duration_since(std::time::UNIX_EPOCH)
        .expect("Time went backwards")
        .as_millis() as u64;
    let extracted_ms = nutty_id.timestamp();
    assert!(
        extracted_ms >= before_ms && extracted_ms <= after_ms,
        "Extracted timestamp ({extracted_ms}) should be between {before_ms} and {after_ms}"
    );
}

#[test]
fn encode_pads_with_ones() {
    assert_eq!(encode_base_58(0, 3), "111");
    assert_eq!(encode_base_58(0, 0), "");
    assert_eq!(encode_base_58(57, 1), "z");
    assert_eq!(encode_base_58(58, 1), "21");
    assert_eq!(encode_base_58(58, 4), "1121");
    assert_eq!(encode_base_58(1852570767862, 7), "qfWLRgy");
}

#[test]
fn dissociated_id_keeps_valid_text_only() {
    let d = DissociatedNuttyId::new("abcdefg").unwrap();
    assert_eq!(d.nid(), "abcdefg");
    assert_eq!(
        DissociatedNuttyId::new("abcdef0").unwrap_err(),
        NuttyIdError::ValidationError("abcdef0".to_string())
    );
    let id = from_bytes([0; 16]);
    assert_eq!(id.dissociate().nid(), "1111111");
}

#[test]
fn decode_base_58_values_and_errors() {
    assert_eq!(decode_base_58("21"), Ok(58));
    assert_eq!(decode_base_58("qfWLRgy"), Ok(1852570767862));
    assert_eq!(decode_base_58(""), Err(DecodeError::InvalidInput("<empty>".to_string())));
    assert_eq!(decode_base_58("ab0c"), Err(DecodeError::InvalidCharacter('0')));
    let max = encode_base_58(u128::MAX, 22);
    assert_eq!(decode_base_58(&max), Ok(u128::MAX));
    let over = format!("{max}z");
    assert_eq!(decode_base_58(&over), Err(DecodeError::InvalidInput(over.clone())));
}

#[test]
fn text_form_round_trips() {
    let id = NuttyId::now();
    let text = id.to_text();
    assert_eq!(NuttyId::from_text(&text), Ok(id));
    assert_eq!(NuttyId::from_text("abc"), Err(NuttyIdTextError::InvalidFormat));
    assert_eq!(NuttyId::from_text("a:b:c"), Err(NuttyIdTextError::InvalidFormat));
    let wrong = format!("{}:1234567", encode_base_58(id.uuid(), 22));
    if id.nid() != "1234567" {
        assert_eq!(NuttyId::from_text(&wrong), Err(NuttyIdTextError::NidMismatch));
    }
    assert!(matches!(NuttyId::from_text("not-a-uuid:1111111"), Err(NuttyIdTextError::InvalidUuid(_))));
}

#[test]
fn nutty_id_test_deserialize() {
    let nutty_id = NuttyId::now();
    let uuid = nutty_id.uuid();
    let correct_nid = nutty_id.nid();

    let well_formed = format!("{}:{correct_nid}", encode_base_58(uuid, 22));
    assert!(NuttyId::from_text(&well_formed).is_ok());

    let wrong_nid = "1234567";
    let malformed = format!("{uuid}:{wrong_nid}");
    assert!(NuttyId::from_text(&malformed).is_err());

    let no_colon = format!("{uuid}{correct_nid}");
    assert!(NuttyId::from_text(&no_colon).is_err());

    let invalid_uuid = format!("not-a-uuid:{correct_nid}");
    assert!(NuttyId::from_text(&invalid_uuid).is_err());

    let invalid_nid = format!("{uuid}:12345");
    assert!(NuttyId::from_text(&invalid_nid).is_err());

    let invalid_nid = format!("{uuid}:abcdef0");
    assert!(NuttyId::from_text(&invalid_nid).is_err());
}
