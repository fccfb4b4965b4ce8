//! The session state machine: boot, title, play, ending, and the handling of
//! the intents the presentation layer feeds it. All decisions are made here;
//! the surrounding shell only performs I/O and hands the outcomes back.
use crate::scenario::{
    fresh_state, is_ending_spec, transition_spec, Current, ScenarioData, StateV, TransitionError,
};
use vstd::prelude::*;

verus! {

/// The top-level phases of a session.
#[derive(Debug, Clone, Copy, Default, PartialEq, Eq, Hash, Structural)]
pub enum AppState {
    /// Resources are still being readied.
    #[default]
    Boot,
    /// The title screen; no traversal state need exist.
    Title,
    /// Active play over a traversal state.
    Playing,
    /// A canonical ending was reached; the state is kept for display.
    Ending,
}

/// Intent: start a fresh session from the root.
pub struct BeginNewGame;

/// Intent: resume play from the persisted state.
pub struct ContinueGame;

/// Intent: take the choice at the given index of the current node.
#[derive(Debug)]
pub struct MakeChoice {
    pub choice_index: usize,
}

/// Intent: leave the ending screen for the title.
pub struct RestartGame;

/// The font asset reference the boot collaborator loads by default: the
/// first of the candidates.
pub open spec fn default_font_spec() -> Seq<char> {
    "fonts/NotoSansJP-Regular.ttf"@
}

/// The font asset candidates, in preference order.
pub fn font_candidates() -> (r: Vec<&'static str>)
    ensures
        r@.len() == 3,
        r@[0]@ == default_font_spec(),
        r@[1]@ == "fonts/NotoSansJP-Medium.ttf"@,
        r@[2]@ == "fonts/NotoSansJP-Bold.ttf"@,
{
    let mut v: Vec<&'static str> = Vec::new();
    v.push("fonts/NotoSansJP-Regular.ttf");
    v.push("fonts/NotoSansJP-Medium.ttf");
    v.push("fonts/NotoSansJP-Bold.ttf");
    v
}

/// The default font: the first candidate.
pub fn default_font() -> (r: &'static str)
    ensures
        r@ == default_font_spec(),
{
    "fonts/NotoSansJP-Regular.ttf"
}

/// Readiness flags of the boot collaborator, one per required resource.
#[derive(Debug)]
pub struct ResourceReadiness {
    pub scenario_loaded: bool,
    pub font_loaded: bool,
}

impl Default for ResourceReadiness {
    /// Nothing is ready until the boot collaborator reports it.
    fn default() -> (r: ResourceReadiness)
        ensures
            !r.scenario_loaded && !r.font_loaded,
    {
        ResourceReadiness { scenario_loaded: false, font_loaded: false }
    }
}

impl ResourceReadiness {
    /// Boot is ready exactly when every required resource is.
    pub fn all_ready(&self) -> (r: bool)
        ensures
            r == (self.scenario_loaded && self.font_loaded),
    {
        self.scenario_loaded && self.font_loaded
    }
}

/// One interactive session: the phase of the state machine and, during play
/// and at an ending, the traversal state. The state is created on begin or
/// continue, replaced wholesale by each successful step, and discarded on
/// restart.
#[derive(Debug)]
pub struct Session {
    pub phase: AppState,
    pub current: Option<Current>,
}

impl Session {
    /// Well-formedness: during play and at an ending a traversal state
    /// exists.
    pub open spec fn wf(&self) -> bool {
        (self.phase is Playing || self.phase is Ending) ==> self.current is Some
    }

    /// A session begins in the boot phase with no traversal state.
    pub fn new() -> (r: Session)
        ensures
            r.phase is Boot,
            r.current is None,
            r.wf(),
    {
        Session { phase: AppState::Boot, current: None }
    }

    /// Move from boot to the title once the boot collaborator reports every
    /// resource ready.
    pub fn finish_boot(&mut self)
        requires
            old(self).phase is Boot,
        ensures
            final(self).phase is Title,
            final(self).current == old(self).current,
            final(self).wf(),
    {
        self.phase = AppState::Title;
    }

    /// Begin a new game from the title: the traversal state is reset to the
    /// fresh root state unconditionally and play begins.
    pub fn begin_new(&mut self)
        requires
            old(self).phase is Title,
        ensures
            final(self).phase is Playing,
            final(self).current matches Some(c) && c@ == fresh_state(),
            final(self).wf(),
    {
        self.current = Some(Current::default());
        self.phase = AppState::Playing;
    }

    /// Resume from a state the persistence layer loaded: play begins on that
    /// state. With nothing loaded the intent is dropped and the session
    /// stays at the title, unchanged.
    pub fn continue_game(&mut self, loaded: Option<Current>)
        requires
            old(self).phase is Title,
        ensures
            match loaded {
                Some(c) => final(self).phase is Playing && final(self).current == Some(c),
                None => *final(self) == *old(self),
            },
            final(self).wf(),
    {
        match loaded {
            Some(c) => {
                self.current = Some(c);
                self.phase = AppState::Playing;
            },
            None => {},
        }
    }

    /// Take the choice at `choice_index` of the current node: on success the
    /// session holds the transition's new state and moves to the ending
    /// phase exactly when that state is a canonical ending; a rejected step
    /// reports why and leaves the session unchanged.
    pub fn make_choice(&mut self, store: &ScenarioData, choice_index: usize) -> (r: Result<
        (),
        TransitionError,
    >)
        requires
            old(self).phase is Playing,
            old(self).wf(),
        ensures
            final(self).wf(),
            match r {
                Ok(()) => {
                    &&& old(self).current matches Some(oc) && transition_spec(
                        store.nodes_view(),
                        oc@,
                        choice_index as int,
                    ) matches Ok(st) && final(self).current matches Some(c) && c@ == st
                        && final(self).phase == (if is_ending_spec(
                        store.nodes_view(),
                        store.scenario.meta.depth as int,
                        st,
                    ) {
                        AppState::Ending
                    } else {
                        AppState::Playing
                    })
                },
                Err(e) => {
                    &&& *final(self) == *old(self)
                    &&& old(self).current matches Some(oc) && transition_spec(
                        store.nodes_view(),
                        oc@,
                        choice_index as int,
                    ) == Err::<StateV, TransitionError>(e)
                },
            },
    {
        let cur = self.current.as_ref().unwrap();
        match store.transition(cur, choice_index) {
            Ok(next) => {
                let ending = store.is_ending(&next);
                self.current = Some(next);
                self.phase = if ending {
                    AppState::Ending
                } else {
                    AppState::Playing
                };
                Ok(())
            },
            Err(e) => Err(e),
        }
    }

    /// Leave an ending for the title. The in-memory traversal state is
    /// discarded and not re-persisted, so a finished save stays loadable
    /// until a later auto-save overwrites it.
    pub fn restart(&mut self)
        requires
            old(self).phase is Ending,
        ensures
            final(self).phase is Title,
            final(self).current is None,
            final(self).wf(),
    {
        self.current = None;
        self.phase = AppState::Title;
    }
}

} // verus!
