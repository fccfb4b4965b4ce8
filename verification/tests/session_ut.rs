//! The session state machine and boot readiness.
use routes64::scenario::{Current, ScenarioData, TransitionError};
use routes64::session::{default_font, font_candidates, AppState, ResourceReadiness, Session};

fn sample_scenario() -> ScenarioData {
    let json = r#"{
      "meta": {"title": "Test", "depth": 1, "default_background": "", "rain_bgm": "", "font": ""},
      "nodes": [
        {
          "id": "R",
          "text": "root",
          "choices": [{"label": "a", "to": "R1"}, {"label": "b", "to": "R0"}]
        },
        {"id": "R1", "text": "tagged", "ending": {"tag": "done"}},
        {"id": "R0", "text": "untagged", "choices": []}
      ]
    }"#;
    ScenarioData::load_from_json(json).unwrap()
}

#[test]
fn test_constants_validity() {
    let candidates = font_candidates();
    assert_eq!(candidates.len(), 3);
    assert_eq!(default_font(), candidates[0]);
}

#[test]
fn test_app_state_default() {
    assert_eq!(AppState::default(), AppState::Boot);
}

#[test]
fn test_app_state_transitions() {
    let states = [AppState::Boot, AppState::Title, AppState::Playing, AppState::Ending];
    for state in states {
        match state {
            AppState::Boot => assert_ne!(state, AppState::Title),
            AppState::Title => assert_ne!(state, AppState::Playing),
            AppState::Playing => assert_ne!(state, AppState::Ending),
            AppState::Ending => assert_ne!(state, AppState::Boot),
        }
    }
}

#[test]
fn readiness_is_the_conjunction_of_its_flags() {
    let mut readiness = ResourceReadiness::default();
    assert!(!readiness.all_ready());
    readiness.scenario_loaded = true;
    assert!(!readiness.all_ready());
    readiness.font_loaded = true;
    assert!(readiness.all_ready());
}

#[test]
fn begin_new_resets_to_the_fresh_root_state() {
    let mut session = Session::new();
    assert_eq!(session.phase, AppState::Boot);
    session.finish_boot();
    assert_eq!(session.phase, AppState::Title);
    session.begin_new();
    assert_eq!(session.phase, AppState::Playing);
    let current = session.current.as_ref().unwrap();
    assert_eq!(current.id, "R");
    assert_eq!(current.depth, 0);
    assert_eq!(current.trail, vec!["R"]);
}

#[test]
fn continue_with_nothing_loaded_stays_on_title() {
    let mut session = Session::new();
    session.finish_boot();
    session.continue_game(None);
    assert_eq!(session.phase, AppState::Title);
    assert!(session.current.is_none());
}

#[test]
fn continue_resumes_the_loaded_state() {
    let mut session = Session::new();
    session.finish_boot();
    let loaded = Current {
        id: "R0".to_string(),
        depth: 1,
        trail: vec!["R".to_string(), "R0".to_string()],
    };
    session.continue_game(Some(loaded));
    assert_eq!(session.phase, AppState::Playing);
    assert_eq!(session.current.as_ref().unwrap().id, "R0");
}

#[test]
fn choices_play_through_to_an_ending_and_restart() {
    let store = sample_scenario();
    let mut session = Session::new();
    session.finish_boot();
    session.begin_new();

    let outcome = session.make_choice(&store, 1);
    assert!(outcome.is_ok());
    assert_eq!(session.phase, AppState::Playing);
    assert_eq!(session.current.as_ref().unwrap().id, "R0");

    let mut replay = Session::new();
    replay.finish_boot();
    replay.begin_new();
    let outcome = replay.make_choice(&store, 0);
    assert!(outcome.is_ok());
    assert_eq!(replay.phase, AppState::Ending);
    assert_eq!(replay.current.as_ref().unwrap().id, "R1");
    assert_eq!(replay.current.as_ref().unwrap().trail, vec!["R", "R1"]);

    replay.restart();
    assert_eq!(replay.phase, AppState::Title);
    assert!(replay.current.is_none());
}

#[test]
fn rejected_choice_leaves_the_session_unchanged() {
    let store = sample_scenario();
    let mut session = Session::new();
    session.finish_boot();
    session.begin_new();

    let outcome = session.make_choice(&store, 9);
    assert_eq!(outcome.unwrap_err(), TransitionError::InvalidChoiceIndex);
    assert_eq!(session.phase, AppState::Playing);
    assert_eq!(session.current.as_ref().unwrap().id, "R");
    assert_eq!(session.current.as_ref().unwrap().trail, vec!["R"]);
}
