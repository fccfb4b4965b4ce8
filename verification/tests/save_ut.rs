//! The versioned save record: its JSON text and the restore path.
use routes64::save::{
    decode_save, encode_save, interpret_loaded_text, reports_save, save_text, wants_auto_save,
    SaveData, SaveLoadError,
};
use routes64::scenario::Current;

#[test]
fn test_save_and_load() {
    let original_current = Current {
        id: "R101".to_string(),
        depth: 3,
        trail: vec![
            "R".to_string(),
            "R1".to_string(),
            "R10".to_string(),
            "R101".to_string(),
        ],
    };

    let json = encode_save(&SaveData::from_state(&original_current));
    let loaded = decode_save(&json).unwrap();
    assert!(loaded.is_some());

    let loaded_current = loaded.unwrap();
    assert_eq!(loaded_current.id, original_current.id);
    assert_eq!(loaded_current.depth, original_current.depth);
    assert_eq!(loaded_current.trail, original_current.trail);
}

#[test]
fn test_load_nonexistent_save() {
    let result = interpret_loaded_text(false, None).unwrap();
    assert!(result.is_none());
    assert!(!reports_save(false, false));
}

#[test]
fn disabled_mode_degrades_gracefully() {
    let current = Current {
        id: "R1".to_string(),
        depth: 1,
        trail: vec!["R".to_string(), "R1".to_string()],
    };
    assert!(save_text(true, &current).is_none());
    assert!(interpret_loaded_text(true, Some("garbage")).unwrap().is_none());
    assert!(!reports_save(true, true));

    let text = save_text(false, &current).unwrap();
    let restored = interpret_loaded_text(false, Some(&text)).unwrap().unwrap();
    assert_eq!(restored.id, current.id);
    assert!(reports_save(false, true));
}

#[test]
fn test_version_mismatch() {
    let invalid_save = r#"{"version": 255, "current": "R", "depth": 0, "trail": ["R"]}"#;

    let result = decode_save(invalid_save).unwrap();
    assert!(result.is_none());
}

#[test]
fn encoded_record_text_is_exact() {
    let current = Current {
        id: "R1".to_string(),
        depth: 1,
        trail: vec!["R".to_string(), "R1".to_string()],
    };
    let json = encode_save(&SaveData::from_state(&current));
    assert_eq!(
        json,
        r#"{"version":1,"current":"R1","depth":1,"trail":["R","R1"]}"#
    );
}

#[test]
fn record_round_trip_preserves_the_state() {
    let current = Current {
        id: "R0110".to_string(),
        depth: 4,
        trail: vec![
            "R".to_string(),
            "R0".to_string(),
            "R01".to_string(),
            "R011".to_string(),
            "R0110".to_string(),
        ],
    };
    let restored = SaveData::from_state(&current).to_state().unwrap();
    assert_eq!(restored.id, current.id);
    assert_eq!(restored.depth, current.depth);
    assert_eq!(restored.trail, current.trail);
}

#[test]
fn awkward_characters_survive_the_text_round_trip() {
    let current = Current {
        id: "R\"1\\2\n3".to_string(),
        depth: 6,
        trail: vec!["R".to_string(), "雨の\tトレイル".to_string(), "R\"1\\2\n3".to_string()],
    };
    let json = encode_save(&SaveData::from_state(&current));
    let restored = decode_save(&json).unwrap().unwrap();
    assert_eq!(restored.id, current.id);
    assert_eq!(restored.depth, current.depth);
    assert_eq!(restored.trail, current.trail);
}

#[test]
fn foreign_versions_restore_to_nothing_without_erroring() {
    for version in [0u8, 2, 7, 255] {
        let rec = SaveData {
            version,
            current: "R1".to_string(),
            depth: 1,
            trail: vec!["R".to_string(), "R1".to_string()],
        };
        assert!(rec.to_state().is_none());
        assert!(decode_save(&encode_save(&rec)).unwrap().is_none());
    }
}

#[test]
fn malformed_record_text_is_an_error() {
    assert_eq!(decode_save("not json at all").unwrap_err(), SaveLoadError::Malformed);
    assert_eq!(
        decode_save(r#"{"version": 1, "current": "R"}"#).unwrap_err(),
        SaveLoadError::Malformed
    );
    assert_eq!(
        decode_save(r#"{"version": 999, "current": "R", "depth": 0, "trail": []}"#).unwrap_err(),
        SaveLoadError::Malformed
    );
    assert_eq!(
        decode_save(r#"{"version": 1, "current": "R", "depth": 0, "trail": [4]}"#).unwrap_err(),
        SaveLoadError::Malformed
    );
}

#[test]
fn pretty_printed_records_load() {
    let pretty = "{\n  \"version\": 1,\n  \"current\": \"R10\",\n  \"depth\": 2,\n  \"trail\": [\n    \"R\",\n    \"R1\",\n    \"R10\"\n  ]\n}";
    let restored = decode_save(pretty).unwrap().unwrap();
    assert_eq!(restored.id, "R10");
    assert_eq!(restored.depth, 2);
    assert_eq!(restored.trail, vec!["R", "R1", "R10"]);

    let empty_trail = "{ \"version\" : 1 , \"current\" : \"R\" , \"depth\" : 0 , \"trail\" : [ ] }";
    let restored = decode_save(empty_trail).unwrap().unwrap();
    assert_eq!(restored.id, "R");
    assert!(restored.trail.is_empty());
}

#[test]
fn record_fields_keep_their_written_order() {
    let reordered = r#"{"trail": ["R", "R1"], "depth": 1, "version": 1, "current": "R1"}"#;
    assert_eq!(decode_save(reordered).unwrap_err(), SaveLoadError::Malformed);
}

#[test]
fn four_digit_escapes_read_back() {
    let text = r#"{"version":1,"current":"Ré\u000A","depth":2,"trail":[]}"#;
    let restored = decode_save(text).unwrap().unwrap();
    assert_eq!(restored.id, "R\u{00E9}\n");

    let surrogate = r#"{"version":1,"current":"\ud800","depth":0,"trail":[]}"#;
    assert_eq!(decode_save(surrogate).unwrap_err(), SaveLoadError::Malformed);
}

#[test]
fn escaped_record_text_reads_back() {
    let text = r#"{"version":1,"current":"a\"b\\c\/d\ne\tfAé","depth":8,"trail":[]}"#;
    let restored = decode_save(text).unwrap().unwrap();
    assert_eq!(restored.id, "a\"b\\c/d\ne\tfA\u{00E9}");
}

#[test]
fn restored_depth_is_recomputed_from_the_identifier() {
    let tampered = SaveData {
        version: 1,
        current: "R101".to_string(),
        depth: 9,
        trail: vec!["R".to_string(), "R101".to_string()],
    };
    let restored = tampered.to_state().unwrap();
    assert_eq!(restored.depth, 3);

    let through_text = decode_save(&encode_save(&tampered)).unwrap().unwrap();
    assert_eq!(through_text.depth, 3);
    assert_eq!(through_text.id, "R101");
}

#[test]
fn auto_save_waits_for_the_first_choice() {
    let fresh = Current::default();
    assert!(!wants_auto_save(true, &fresh));

    let advanced = Current {
        id: "R1".to_string(),
        depth: 1,
        trail: vec!["R".to_string(), "R1".to_string()],
    };
    assert!(wants_auto_save(true, &advanced));
    assert!(!wants_auto_save(false, &advanced));
}
