//! Scenario loading, validation, traversal, and ending detection.
use routes64::scenario::{Current, LoadError, ScenarioData, TransitionError};

fn sample_scenario_json() -> &'static str {
    r#"{
      "meta": {
        "title": "64ルート",
        "depth": 2,
        "default_background": "images/bg01.png",
        "rain_bgm": "audio/rain.ogg",
        "font": "fonts/NotoSansJP-Regular.ttf"
      },
      "nodes": [
        {
          "id": "R",
          "text": "雨。窓に当たる音だけが続く。",
          "bg": "images/bg01.png",
          "choices": [
            {"label": "家を出る", "to": "R1"},
            {"label": "今日は出ない", "to": "R0"}
          ]
        },
        {
          "id": "R1",
          "text": "鍵を手に取る。外は本降りだ。",
          "bg": "images/bg02.png",
          "choices": [
            {"label": "傘をさす", "to": "R11"},
            {"label": "走る", "to": "R10"}
          ]
        },
        {
          "id": "R0",
          "text": "今日は止めておこう。",
          "choices": [
            {"label": "読書する", "to": "R01"},
            {"label": "寝る", "to": "R00"}
          ]
        },
        {
          "id": "R11",
          "text": "傘をさして外に出る。",
          "ending": {"tag": "傘END"}
        },
        {
          "id": "R10",
          "text": "走って外に出る。",
          "ending": {"tag": "走りEND"}
        },
        {
          "id": "R01",
          "text": "本を読んで過ごす。",
          "ending": {"tag": "読書END"}
        },
        {
          "id": "R00",
          "text": "寝て過ごす。",
          "ending": {"tag": "睡眠END"}
        }
      ]
    }"#
}

#[test]
fn test_load_scenario() {
    let scenario_data = ScenarioData::load_from_json(sample_scenario_json()).unwrap();
    assert_eq!(scenario_data.scenario.meta.title, "64ルート");
    assert_eq!(scenario_data.scenario.meta.depth, 2);
    assert_eq!(scenario_data.scenario.nodes.len(), 7);
}

#[test]
fn test_transition() {
    let scenario_data = ScenarioData::load_from_json(sample_scenario_json()).unwrap();
    let current = Current::default();

    let next = scenario_data.transition(&current, 0).unwrap();
    assert_eq!(next.id, "R1");
    assert_eq!(next.depth, 1);
    assert_eq!(next.trail, vec!["R", "R1"]);
}

#[test]
fn test_ending_detection() {
    let scenario_data = ScenarioData::load_from_json(sample_scenario_json()).unwrap();
    let ending_current = Current {
        id: "R11".to_string(),
        depth: 2,
        trail: vec!["R".to_string(), "R1".to_string(), "R11".to_string()],
    };

    assert!(scenario_data.is_ending(&ending_current));
}

#[test]
fn test_invalid_reference() {
    let invalid_json = r#"{
      "meta": {"title": "Test", "depth": 1, "default_background": "", "rain_bgm": "", "font": ""},
      "nodes": [
        {
          "id": "R",
          "text": "test",
          "choices": [{"label": "test", "to": "INVALID"}]
        }
      ]
    }"#;

    let result = ScenarioData::load_from_json(invalid_json);
    assert!(result.is_err());
}

#[test]
fn test_get_node_or_fallback() {
    let scenario_data = ScenarioData::load_from_json(sample_scenario_json()).unwrap();

    let existing_node = scenario_data.get_node_or_fallback("R1");
    assert_eq!(existing_node.id, "R1");

    let fallback_node = scenario_data.get_node_or_fallback("NONEXISTENT");
    assert_eq!(fallback_node.id, "R");
}

#[test]
fn invalid_reference_names_the_broken_edge() {
    let invalid_json = r#"{
      "meta": {"title": "Test", "depth": 1, "default_background": "", "rain_bgm": "", "font": ""},
      "nodes": [
        {
          "id": "R",
          "text": "test",
          "choices": [{"label": "a", "to": "R1"}, {"label": "b", "to": "MISSING"}]
        },
        {
          "id": "R1",
          "text": "fine",
          "choices": []
        }
      ]
    }"#;

    match ScenarioData::load_from_json(invalid_json) {
        Err(LoadError::InvalidReference { node_id, target }) => {
            assert_eq!(node_id, "R");
            assert_eq!(target, "MISSING");
        }
        other => panic!("expected a broken-reference rejection, got {:?}", other.is_ok()),
    }
}

#[test]
fn malformed_document_is_a_parse_error() {
    let result = ScenarioData::load_from_json("this is not json");
    assert!(matches!(result, Err(LoadError::Parse)));

    let missing_meta = ScenarioData::load_from_json(r#"{"nodes": []}"#);
    assert!(matches!(missing_meta, Err(LoadError::Parse)));
}

#[test]
fn empty_node_list_loads() {
    let empty = r#"{
      "meta": {"title": "Test", "depth": 0, "default_background": "", "rain_bgm": "", "font": ""},
      "nodes": []
    }"#;
    let scenario_data = ScenarioData::load_from_json(empty).unwrap();
    assert_eq!(scenario_data.scenario.nodes.len(), 0);
    assert!(scenario_data.get_node("R").is_none());
}

#[test]
fn transition_depth_tracks_identifier_length() {
    let scenario_data = ScenarioData::load_from_json(sample_scenario_json()).unwrap();
    let first = scenario_data.transition(&Current::default(), 1).unwrap();
    assert_eq!(first.id, "R0");
    assert_eq!(first.depth, first.id.chars().count() - 1);
    let second = scenario_data.transition(&first, 0).unwrap();
    assert_eq!(second.id, "R01");
    assert_eq!(second.depth, second.id.chars().count() - 1);
    assert_eq!(second.trail, vec!["R", "R0", "R01"]);
}

#[test]
fn transition_is_pure() {
    let scenario_data = ScenarioData::load_from_json(sample_scenario_json()).unwrap();
    let current = Current::default();

    let once = scenario_data.transition(&current, 0).unwrap();
    let twice = scenario_data.transition(&current, 0).unwrap();
    assert_eq!(once.id, twice.id);
    assert_eq!(once.depth, twice.depth);
    assert_eq!(once.trail, twice.trail);

    assert_eq!(current.id, "R");
    assert_eq!(current.depth, 0);
    assert_eq!(current.trail, vec!["R"]);
}

#[test]
fn transition_rejects_out_of_range_choice() {
    let scenario_data = ScenarioData::load_from_json(sample_scenario_json()).unwrap();
    let result = scenario_data.transition(&Current::default(), 5);
    assert_eq!(result.unwrap_err(), TransitionError::InvalidChoiceIndex);
}

#[test]
fn transition_rejects_unknown_current_node() {
    let scenario_data = ScenarioData::load_from_json(sample_scenario_json()).unwrap();
    let stray = Current {
        id: "GHOST".to_string(),
        depth: 0,
        trail: vec!["GHOST".to_string()],
    };
    let result = scenario_data.transition(&stray, 0);
    assert_eq!(result.unwrap_err(), TransitionError::NodeNotFound);
}

#[test]
fn leaf_without_tag_is_not_an_ending() {
    let json = r#"{
      "meta": {"title": "Test", "depth": 1, "default_background": "", "rain_bgm": "", "font": ""},
      "nodes": [
        {
          "id": "R",
          "text": "root",
          "choices": [{"label": "a", "to": "R1"}, {"label": "b", "to": "R0"}]
        },
        {"id": "R1", "text": "tagged", "ending": {"tag": "done"}},
        {"id": "R0", "text": "untagged", "choices": []}
      ]
    }"#;
    let scenario_data = ScenarioData::load_from_json(json).unwrap();

    let tagged = Current { id: "R1".to_string(), depth: 1, trail: vec![] };
    assert!(scenario_data.is_ending(&tagged));

    let untagged = Current { id: "R0".to_string(), depth: 1, trail: vec![] };
    assert!(!scenario_data.is_ending(&untagged));

    let too_shallow = Current { id: "R".to_string(), depth: 0, trail: vec![] };
    assert!(!scenario_data.is_ending(&too_shallow));
}

#[test]
fn untagged_depth_two_leaf_is_not_an_ending() {
    let json = sample_scenario_json().replace(r#""ending": {"tag": "傘END"}"#, r#""choices": []"#);
    let scenario_data = ScenarioData::load_from_json(&json).unwrap();
    let at_r11 = Current {
        id: "R11".to_string(),
        depth: 2,
        trail: vec!["R".to_string(), "R1".to_string(), "R11".to_string()],
    };
    assert!(!scenario_data.is_ending(&at_r11));
}

#[test]
fn ending_coverage_full() {
    let scenario_data = ScenarioData::load_from_json(sample_scenario_json()).unwrap();
    let report = scenario_data.ending_coverage();
    assert_eq!(report.expected, 4);
    assert_eq!(report.found, 4);
    assert!(report.missing.is_empty());
}

#[test]
fn ending_coverage_reports_gaps() {
    let json = r#"{
      "meta": {"title": "Test", "depth": 1, "default_background": "", "rain_bgm": "", "font": ""},
      "nodes": [
        {
          "id": "R",
          "text": "root",
          "choices": [{"label": "a", "to": "R1"}, {"label": "b", "to": "R0"}]
        },
        {"id": "R1", "text": "tagged", "ending": {"tag": "done"}},
        {"id": "R0", "text": "untagged leaf", "choices": []}
      ]
    }"#;
    let scenario_data = ScenarioData::load_from_json(json).unwrap();
    let report = scenario_data.ending_coverage();
    assert_eq!(report.expected, 2);
    assert_eq!(report.found, 1);
    assert_eq!(report.missing, vec!["R0"]);
}

#[test]
fn duplicate_identifiers_resolve_to_the_last_definition() {
    let json = r#"{
      "meta": {"title": "Test", "depth": 0, "default_background": "", "rain_bgm": "", "font": ""},
      "nodes": [
        {"id": "R", "text": "first", "choices": []},
        {"id": "R", "text": "second", "choices": []}
      ]
    }"#;
    let scenario_data = ScenarioData::load_from_json(json).unwrap();
    assert_eq!(scenario_data.get_node("R").unwrap().text, "second");
}

#[test]
fn null_background_reads_as_absent() {
    let json = r#"{
      "meta": {"title": "Test", "depth": 0, "default_background": "bg.png", "rain_bgm": "", "font": ""},
      "nodes": [
        {"id": "R", "text": "root", "bg": null, "choices": []}
      ]
    }"#;
    let scenario_data = ScenarioData::load_from_json(json).unwrap();
    assert!(scenario_data.get_node("R").unwrap().bg.is_none());
}

#[test]
fn scenario_fields_keep_their_authored_order() {
    let reordered = r#"{
      "meta": {"depth": 0, "title": "Test", "default_background": "", "rain_bgm": "", "font": ""},
      "nodes": []
    }"#;
    assert!(matches!(ScenarioData::load_from_json(reordered), Err(LoadError::Parse)));
}

#[test]
fn default_state_is_the_fresh_root() {
    let current = Current::default();
    assert_eq!(current.id, "R");
    assert_eq!(current.depth, 0);
    assert_eq!(current.trail, vec!["R"]);
}
