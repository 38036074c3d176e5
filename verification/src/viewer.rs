//! What the picture view does with its input: which actions a key press triggers,
//! how files dragged over the window are shown, and when clicks make a double click.

use vstd::prelude::*;
use crate::configuration::Configuration;
use crate::image_cache::cache::ImageCache;
use crate::input_handling::{
    action_triggered, default_binding, invocation_view, planned_commands, triggered_commands,
    CommandInvocation, effective_binding, keys_trigger, Modifiers, ESCAPE_NAME,
    IMG_DEL_NAME, IMG_FIT_BEST_NAME, IMG_FIT_NAME, IMG_NEXT_NAME, IMG_ORIG_NAME, IMG_PREV_NAME,
    PLAY_ANIM_NAME, PLAY_PRESENT_NAME, PLAY_PRESENT_RND_NAME, TOGGLE_FULLSCREEN_NAME,
};
use crate::playback::{FileTarget, LoadRequest, LoadedImgPath, PlaybackManager, PlaybackState, MAX_TIME};
use crate::gui::RenderValidity;

verus! {

/// How the image is scaled to the view.
#[derive(Debug, Clone, Copy, PartialEq, Eq, Structural)]
pub enum ScalingMode {
    /// A fixed number of screen pixels per image pixel.
    Fixed,
    /// Fit the view, enlarging small images.
    FitStretch,
    /// Fit the view, leaving small images at their size.
    FitMin,
}

/// A direction of panning or zooming asked for by held keys.
#[derive(Debug, Clone, Copy, PartialEq, Eq, Structural)]
pub enum MovementDir {
    /// No movement.
    Still,
    Positive,
    Negative,
}

impl MovementDir {
    /// Whether a movement is asked for.
    pub fn moving(self) -> (r: bool)
        ensures
            r == !(self is Still),
    {
        match self {
            MovementDir::Still => false,
            _ => true,
        }
    }
}

/// The actions of the picture view bound to keys, in the order a key press is
/// checked against them.
#[derive(Debug, Clone, Copy, PartialEq, Eq, Structural)]
pub enum ViewerAction {
    ToggleFullscreen,
    Escape,
    PlayAnim,
    ImgPrev,
    ImgNext,
    ImgFit,
    ImgFitBest,
    ImgOrig,
    PlayPresent,
    PlayPresentRnd,
    ImgDel,
}

/// The configuration name of an action.
pub open spec fn action_name(a: ViewerAction) -> Seq<char> {
    match a {
        ViewerAction::ToggleFullscreen => "toggle_fullscreen"@,
        ViewerAction::Escape => "escape"@,
        ViewerAction::PlayAnim => "play_anim"@,
        ViewerAction::ImgPrev => "img_prev"@,
        ViewerAction::ImgNext => "img_next"@,
        ViewerAction::ImgFit => "img_fit"@,
        ViewerAction::ImgFitBest => "img_fit_best"@,
        ViewerAction::ImgOrig => "img_orig"@,
        ViewerAction::PlayPresent => "play_present"@,
        ViewerAction::PlayPresentRnd => "play_present_rnd"@,
        ViewerAction::ImgDel => "img_del"@,
    }
}

/// The order in which a key press is checked against the actions.
pub open spec fn action_order() -> Seq<ViewerAction> {
    seq![
        ViewerAction::ToggleFullscreen,
        ViewerAction::Escape,
        ViewerAction::PlayAnim,
        ViewerAction::ImgPrev,
        ViewerAction::ImgNext,
        ViewerAction::ImgFit,
        ViewerAction::ImgFitBest,
        ViewerAction::ImgOrig,
        ViewerAction::PlayPresent,
        ViewerAction::PlayPresentRnd,
        ViewerAction::ImgDel,
    ]
}

/// The actions among `actions` that the key press triggers, in order.
pub open spec fn triggered_among(
    actions: Seq<ViewerAction>,
    config: Configuration,
    input_key: Seq<char>,
    m: Modifiers,
) -> Seq<ViewerAction>
    decreases actions.len(),
{
    if actions.len() == 0 {
        Seq::empty()
    } else {
        let p = triggered_among(actions.drop_last(), config, input_key, m);
        if keys_trigger(effective_binding(config, action_name(actions.last())), input_key, m) {
            p.push(actions.last())
        } else {
            p
        }
    }
}

/// The configuration name of an action; every action has a default binding.
fn action_name_str(a: ViewerAction) -> (r: &'static str)
    ensures
        r@ == action_name(a),
        default_binding(r@) is Some,
{
    proof {
        reveal_strlit("toggle_fullscreen");
        reveal_strlit("escape");
        reveal_strlit("play_anim");
        reveal_strlit("img_prev");
        reveal_strlit("img_next");
        reveal_strlit("img_fit");
        reveal_strlit("img_fit_best");
        reveal_strlit("img_orig");
        reveal_strlit("play_present");
        reveal_strlit("play_present_rnd");
        reveal_strlit("img_del");
        reveal_strlit("pan");
    }
    match a {
        ViewerAction::ToggleFullscreen => TOGGLE_FULLSCREEN_NAME,
        ViewerAction::Escape => ESCAPE_NAME,
        ViewerAction::PlayAnim => PLAY_ANIM_NAME,
        ViewerAction::ImgPrev => IMG_PREV_NAME,
        ViewerAction::ImgNext => IMG_NEXT_NAME,
        ViewerAction::ImgFit => IMG_FIT_NAME,
        ViewerAction::ImgFitBest => IMG_FIT_BEST_NAME,
        ViewerAction::ImgOrig => IMG_ORIG_NAME,
        ViewerAction::PlayPresent => PLAY_PRESENT_NAME,
        ViewerAction::PlayPresentRnd => PLAY_PRESENT_RND_NAME,
        ViewerAction::ImgDel => IMG_DEL_NAME,
    }
}

/// The actions in checking order, as a vector.
fn all_actions() -> (r: Vec<ViewerAction>)
    ensures
        r@ == action_order(),
{
    let r = vec![
        ViewerAction::ToggleFullscreen,
        ViewerAction::Escape,
        ViewerAction::PlayAnim,
        ViewerAction::ImgPrev,
        ViewerAction::ImgNext,
        ViewerAction::ImgFit,
        ViewerAction::ImgFitBest,
        ViewerAction::ImgOrig,
        ViewerAction::PlayPresent,
        ViewerAction::PlayPresentRnd,
        ViewerAction::ImgDel,
    ];
    assert(r@ =~= action_order());
    r
}

/// The actions a key press triggers, in the order the picture view carries them out.
pub fn triggered_actions(config: &Configuration, input_key: &str, modifiers: Modifiers) -> (r: Vec<
    ViewerAction,
>)
    ensures
        r@ == triggered_among(action_order(), *config, input_key@, modifiers),
{
    let actions = all_actions();
    let mut r: Vec<ViewerAction> = Vec::new();
    let mut i: usize = 0;
    while i < actions.len()
        invariant
            0 <= i <= actions.len(),
            actions@ == action_order(),
            r@ == triggered_among(actions@.take(i as int), *config, input_key@, modifiers),
        decreases actions.len() - i,
    {
        let a = actions[i];
        let name = action_name_str(a);
        let hit = action_triggered(config, name, input_key, modifiers);
        proof {
            assert(actions@.take(i + 1).drop_last() =~= actions@.take(i as int));
            assert(actions@.take(i + 1).last() == a);
        }
        if hit {
            r.push(a);
        }
        i = i + 1;
    }
    assert(actions@.take(actions.len() as int) =~= actions@);
    r
}

/// What the escape action does: leave full screen, or else ask to exit.
#[derive(Debug, Clone, Copy, PartialEq, Eq, Structural)]
pub enum EscapeOutcome {
    LeaveFullscreen,
    Exit,
}

/// What the escape action does in or out of full screen.
pub fn escape_outcome(fullscreen: bool) -> (r: EscapeOutcome)
    ensures
        r == (if fullscreen {
            EscapeOutcome::LeaveFullscreen
        } else {
            EscapeOutcome::Exit
        }),
{
    if fullscreen {
        EscapeOutcome::LeaveFullscreen
    } else {
        EscapeOutcome::Exit
    }
}

/// The longest time between two clicks of a double click, in milliseconds.
pub const DOUBLE_CLICK_MILLIS: u64 = 250;

/// Whether a click `millis_since_last_click` after the previous one makes a double
/// click.
pub fn is_double_click(millis_since_last_click: u64) -> (r: bool)
    ensures
        r == (millis_since_last_click < DOUBLE_CLICK_MILLIS),
{
    millis_since_last_click < DOUBLE_CLICK_MILLIS
}

/// Whether a file is dragged over the view, and which file was shown before.
#[derive(Debug, Clone, PartialEq, Eq)]
pub enum HoverState {
    Idle,
    ItemHovered { prev_path: String },
}

/// What happens with files dragged over the view.
#[derive(Debug, Clone, PartialEq, Eq)]
pub enum DragEvent {
    /// A file was dropped.
    Dropped(String),
    /// A file is dragged over the view.
    Hovered(String),
    /// The drag left the view.
    Cancelled,
}

/// A dragged file is shown while it hovers and stays when dropped; when the drag
/// leaves, the file shown before it comes back. Answers the next state and the file to
/// load, if any. `current_path` is the file shown now.
pub open spec fn drag_step(state: HoverState, event: DragEvent, current_path: Seq<char>) -> (
    Option<Seq<char>>,
    Option<Seq<char>>,
) {
    match event {
        DragEvent::Dropped(p) => (None, Some(p@)),
        DragEvent::Hovered(p) => (
            match state {
                HoverState::Idle => Some(current_path),
                HoverState::ItemHovered { prev_path } => Some(prev_path@),
            },
            Some(p@),
        ),
        DragEvent::Cancelled => match state {
            HoverState::Idle => (None, None),
            HoverState::ItemHovered { prev_path } => (None, Some(prev_path@)),
        },
    }
}

/// The path a hover state keeps, `None` when idle.
pub open spec fn hover_view(state: HoverState) -> Option<Seq<char>> {
    match state {
        HoverState::Idle => None,
        HoverState::ItemHovered { prev_path } => Some(prev_path@),
    }
}

/// Takes in a drag event: see `drag_step`.
pub fn on_drag_event(state: HoverState, event: DragEvent, current_path: String) -> (r: (
    HoverState,
    Option<String>,
))
    ensures
        (hover_view(r.0), match r.1 {
            Some(p) => Some(p@),
            None => None,
        }) == drag_step(state, event, current_path@),
{
    match event {
        DragEvent::Dropped(p) => (HoverState::Idle, Some(p)),
        DragEvent::Hovered(p) => {
            let next = match state {
                HoverState::Idle => HoverState::ItemHovered { prev_path: current_path },
                HoverState::ItemHovered { prev_path } => HoverState::ItemHovered { prev_path },
            };
            (next, Some(p))
        },
        DragEvent::Cancelled => match state {
            HoverState::Idle => (HoverState::Idle, None),
            HoverState::ItemHovered { prev_path } => (HoverState::Idle, Some(prev_path)),
        },
    }
}

/// `drag_step` on the path kept alone: the next kept path and the file to load.
pub open spec fn drag_view_step(h: Option<Seq<char>>, event: DragEvent, current: Seq<char>) -> (
    Option<Seq<char>>,
    Option<Seq<char>>,
) {
    match event {
        DragEvent::Dropped(p) => (None, Some(p@)),
        DragEvent::Hovered(p) => (
            match h {
                None => Some(current),
                Some(q) => Some(q),
            },
            Some(p@),
        ),
        DragEvent::Cancelled => (None, h),
    }
}

/// A drag step depends on the hover state only through the path it keeps.
pub proof fn lemma_drag_step_by_view(state: HoverState, event: DragEvent, current: Seq<char>)
    ensures
        drag_step(state, event, current) == drag_view_step(hover_view(state), event, current),
{
}

/// The path kept and the file shown after the drag events `events`, starting from the
/// kept path `h` with `shown` shown: each event's file to load becomes the file shown.
pub open spec fn drag_through(h: Option<Seq<char>>, events: Seq<DragEvent>, shown: Seq<char>) -> (
    Option<Seq<char>>,
    Seq<char>,
)
    decreases events.len(),
{
    if events.len() == 0 {
        (h, shown)
    } else {
        let prev = drag_through(h, events.drop_last(), shown);
        let step = drag_view_step(prev.0, events.last(), prev.1);
        (
            step.0,
            match step.1 {
                Some(l) => l,
                None => prev.1,
            },
        )
    }
}

/// A drag of any number of files over the view keeps the file shown before the first:
/// after one or more hovers the kept path is that file.
pub proof fn lemma_hovers_keep_first_shown(events: Seq<DragEvent>, shown: Seq<char>)
    requires
        events.len() >= 1,
        forall|i: int| 0 <= i < events.len() ==> #[trigger] events[i] is Hovered,
    ensures
        drag_through(None, events, shown).0 == Some(shown),
    decreases events.len(),
{
    if events.len() > 1 {
        let d = events.drop_last();
        assert forall|i: int| 0 <= i < d.len() implies #[trigger] d[i] is Hovered by {
            assert(d[i] == events[i]);
        }
        lemma_hovers_keep_first_shown(d, shown);
    } else {
        assert(events.drop_last() =~= Seq::<DragEvent>::empty());
    }
    assert(events[events.len() - 1] is Hovered);
    assert(events.last() is Hovered);
    let prev = drag_through(None, events.drop_last(), shown);
    assert(prev.0 is None ==> prev.1 == shown);
    assert(prev.0 is Some ==> prev.0 == Some(shown));
}

/// Any number of hovers and then a cancelled drag bring back the file shown before the
/// drag, and the drag is over.
pub proof fn lemma_hovers_then_cancel_restore(events: Seq<DragEvent>, shown: Seq<char>)
    requires
        events.len() >= 1,
        forall|i: int| 0 <= i < events.len() ==> #[trigger] events[i] is Hovered,
    ensures
        drag_through(None, events.push(DragEvent::Cancelled), shown) == (None::<Seq<char>>, shown),
{
    lemma_hovers_keep_first_shown(events, shown);
    assert(events.push(DragEvent::Cancelled).drop_last() =~= events);
}

/// The file a drag event asks to show: the dragged file, or on a cancelled drag the
/// file kept from before it (see `drag_step`).
pub fn drag_target_path(state: &HoverState, event: &DragEvent) -> (r: Option<String>)
    ensures
        forall|current: Seq<char>| #[trigger] drag_step(*state, *event, current).1 == (match r {
            Some(p) => Some(p@),
            None => None::<Seq<char>>,
        }),
{
    match event {
        DragEvent::Dropped(p) => Some(p.clone()),
        DragEvent::Hovered(p) => Some(p.clone()),
        DragEvent::Cancelled => match state {
            HoverState::Idle => None,
            HoverState::ItemHovered { prev_path } => Some(prev_path.clone()),
        },
    }
}

impl<F: Clone> PlaybackManager<F> {
    /// Takes in a drag event over the view: the next hover state (see `drag_step`); the
    /// file the event asks to show, located as `target`, is asked of the folder player
    /// (and the image player starts at its first frame); the view is to be drawn again.
    pub fn apply_drag(
        &mut self,
        validity: &mut RenderValidity,
        state: HoverState,
        event: DragEvent,
        current_path: String,
        target: Option<FileTarget>,
    ) -> (r: HoverState)
        requires
            old(self).wf(),
            match drag_step(state, event, current_path@).1 {
                Some(p) => target matches Some(t) && t.path@ == p,
                None => target is None,
            },
        ensures
            final(self).wf(),
            hover_view(r) == drag_step(state, event, current_path@).0,
            !final(validity).is_valid(),
            final(self).cache() == old(self).cache(),
            final(self).folder().state() == old(self).folder().state(),
            match target {
                Some(t) => final(self).folder().request() == LoadRequest::FilePath(t)
                    && final(self).frames().request() == LoadRequest::Jump(0),
                None => final(self).folder() == old(self).folder() && final(self).frames()
                    == old(self).frames(),
            },
    {
        let (next, _load) = on_drag_event(state, event, current_path);
        match target {
            Some(t) => self.request_load(LoadRequest::FilePath(t)),
            None => {},
        }
        validity.invalidate();
        next
    }
}

impl<F> PlaybackManager<F> {
    /// The custom commands a key press runs: none while no image is shown; otherwise
    /// those the key triggers, with `${img}` the shown file and `${folder}` its folder
    /// (see `triggered_commands`).
    pub fn commands_for_key(&self, config: &Configuration, input_key: &str, modifiers: Modifiers) -> (r: Vec<
        CommandInvocation,
    >)
        ensures
            match self.folder().path() {
                LoadedImgPath::Loaded(p) => r@.map_values(|c: CommandInvocation| invocation_view(c)) == (
                match config.commands {
                    Some(cmds) => planned_commands(
                        cmds@,
                        input_key@,
                        modifiers,
                        p@,
                        self.cache().dir().path_view(),
                    ),
                    None => Seq::empty(),
                }),
                _ => r@.len() == 0,
            },
    {
        match self.shown_file_path() {
            LoadedImgPath::Loaded(p) => triggered_commands(
                config,
                input_key,
                modifiers,
                p.as_str(),
                self.cache_ref().dir_path(),
            ),
            _ => Vec::new(),
        }
    }
}

/// A drag of any number of files over the view that is then cancelled asks the player
/// for the file shown before the drag: the cancelled event's file is that file.
pub proof fn lemma_cancelled_drag_requests_first_shown(
    events: Seq<DragEvent>,
    shown: Seq<char>,
    state: HoverState,
    current: Seq<char>,
)
    requires
        events.len() >= 1,
        forall|i: int| 0 <= i < events.len() ==> #[trigger] events[i] is Hovered,
        hover_view(state) == drag_through(None, events, shown).0,
    ensures
        drag_step(state, DragEvent::Cancelled, current) == (None::<Seq<char>>, Some(shown)),
{
    lemma_hovers_keep_first_shown(events, shown);
}

/// The playback state after switching between `mode` and pausing.
pub open spec fn toggled(state: PlaybackState, mode: PlaybackState) -> PlaybackState {
    if state == mode {
        PlaybackState::Paused
    } else {
        mode
    }
}

impl<F: Clone> PlaybackManager<F> {
    /// Switches the folder between `mode` and pausing: a player already in `mode`
    /// pauses, any other starts `mode` at the instant `now`.
    pub fn toggle_playback(&mut self, mode: PlaybackState, now: u64)
        requires
            old(self).wf(),
            old(self).cache().dir_safe(),
            now <= MAX_TIME,
            !(mode is Paused),
        ensures
            final(self).wf(),
            final(self).cache().dir_safe(),
            final(self).folder().state() == toggled(old(self).folder().state(), mode),
            final(self).folder().request() == old(self).folder().request(),
    {
        if self.playback_state() == mode {
            self.pause_playback();
        } else {
            match mode {
                PlaybackState::Forward => self.start_playback_forward(now),
                PlaybackState::Present => self.start_presentation(now),
                _ => {
                    let _ = self.start_random_presentation(now);
                },
            }
        }
    }
}

impl<F: Clone> PlaybackManager<F> {
    /// Carries out the playback part of a triggered action: the play actions switch
    /// their mode on and off (see `toggle_playback`), the image steps ask for the next
    /// or previous image; the other actions (the view's scaling, full screen, escape,
    /// deletion) leave the players as they are.
    pub fn apply_action(&mut self, action: ViewerAction, now: u64)
        requires
            old(self).wf(),
            old(self).cache().dir_safe(),
            now <= MAX_TIME,
        ensures
            final(self).wf(),
            final(self).cache().dir_safe(),
            match action {
                ViewerAction::PlayAnim => final(self).folder().state() == toggled(
                    old(self).folder().state(),
                    PlaybackState::Forward,
                ) && final(self).folder().request() == old(self).folder().request(),
                ViewerAction::PlayPresent => final(self).folder().state() == toggled(
                    old(self).folder().state(),
                    PlaybackState::Present,
                ) && final(self).folder().request() == old(self).folder().request(),
                ViewerAction::PlayPresentRnd => final(self).folder().state() == toggled(
                    old(self).folder().state(),
                    PlaybackState::RandomPresent,
                ) && final(self).folder().request() == old(self).folder().request(),
                ViewerAction::ImgPrev => final(self).folder().request() == LoadRequest::LoadPrevious
                    && final(self).folder().state() == old(self).folder().state() && final(self).cache()
                    == old(self).cache(),
                ViewerAction::ImgNext => final(self).folder().request() == LoadRequest::LoadNext
                    && final(self).folder().state() == old(self).folder().state() && final(self).cache()
                    == old(self).cache(),
                _ => *final(self) == *old(self),
            },
    {
        match action {
            ViewerAction::PlayAnim => self.toggle_playback(PlaybackState::Forward, now),
            ViewerAction::PlayPresent => self.toggle_playback(PlaybackState::Present, now),
            ViewerAction::PlayPresentRnd => self.toggle_playback(PlaybackState::RandomPresent, now),
            ViewerAction::ImgPrev => self.request_load(LoadRequest::LoadPrevious),
            ViewerAction::ImgNext => self.request_load(LoadRequest::LoadNext),
            _ => {},
        }
    }
}

/// Which way a pan or zoom input moves after a key bound to the direction `dir` is
/// pressed or released: pressing starts the movement that way, releasing the key of
/// the current movement stops it; anything else keeps the movement.
pub open spec fn movement_step(input: MovementDir, dir: MovementDir, pressed: bool) -> MovementDir {
    if input == dir && !pressed {
        MovementDir::Still
    } else if input != dir && pressed {
        dir
    } else {
        input
    }
}

/// Takes in a press or release of a key bound to the direction `dir`: the new movement
/// and whether a movement starts (the camera then starts moving).
pub fn movement_after_key(input: MovementDir, dir: MovementDir, pressed: bool) -> (r: (MovementDir, bool))
    ensures
        r.0 == movement_step(input, dir, pressed),
        r.1 == (input != dir && pressed),
{
    if input == dir && !pressed {
        (MovementDir::Still, false)
    } else if input != dir && pressed {
        (dir, true)
    } else {
        (input, false)
    }
}

/// Pressing a movement key and releasing it again stops the movement; pressing the key
/// of the other direction turns the movement round.
pub proof fn lemma_press_release_stops(dir: MovementDir, other: MovementDir)
    requires
        !(dir is Still),
        !(other is Still),
        other != dir,
    ensures
        movement_step(movement_step(MovementDir::Still, dir, true), dir, false) == MovementDir::Still,
        movement_step(movement_step(MovementDir::Still, dir, true), other, true) == other,
{
}

/// A help image shown over the view: whether it is visible, whether its drawing is
/// up to date, and its size in pixels.
#[derive(Debug, Clone, Copy, PartialEq, Eq, Structural)]
pub struct HelpScreen {
    pub visible: bool,
    pub rendered_valid: bool,
    pub width: u32,
    pub height: u32,
}

impl HelpScreen {
    /// A hidden help screen for an image of `width` by `height` pixels, not drawn yet.
    pub fn new(width: u32, height: u32) -> (r: HelpScreen)
        ensures
            r == (HelpScreen { visible: false, rendered_valid: false, width, height }),
    {
        HelpScreen { visible: false, rendered_valid: false, width, height }
    }

    /// Shows or hides the help; it is drawn again either way.
    pub fn set_visible(&mut self, visible: bool)
        ensures
            *final(self) == (HelpScreen { visible, rendered_valid: false, ..*old(self) }),
    {
        self.visible = visible;
        self.rendered_valid = false;
    }

    /// Whether the drawing is up to date.
    pub fn is_valid(&self) -> (r: bool)
        ensures
            r == self.rendered_valid,
    {
        self.rendered_valid
    }

    /// Marks the help as drawn.
    pub fn mark_drawn(&mut self)
        ensures
            *final(self) == (HelpScreen { rendered_valid: true, ..*old(self) }),
    {
        self.rendered_valid = true;
    }
}

/// Switching a mode on and off again pauses; switching from one mode to another
/// leaves the other mode on.
pub proof fn lemma_toggle_twice(state: PlaybackState, mode: PlaybackState)
    requires
        !(mode is Paused),
    ensures
        toggled(toggled(PlaybackState::Paused, mode), mode) == PlaybackState::Paused,
        state != mode ==> toggled(state, mode) == mode,
{
}

/// Dragging a file over the view and away again brings back the file shown before:
/// the hovered file is shown, and the cancelled drag loads the earlier file and goes
/// idle. A file dragged over twice keeps the first earlier file.
pub proof fn lemma_drag_away_restores(current: Seq<char>, first: String, second: String)
    ensures
        drag_step(HoverState::Idle, DragEvent::Hovered(first), current) == (
            Some(current),
            Some(first@),
        ),
        ({
            let hovered = HoverState::ItemHovered { prev_path: second };
            second@ == current ==> drag_step(hovered, DragEvent::Cancelled, first@) == (
                None::<Seq<char>>,
                Some(current),
            ) && drag_step(hovered, DragEvent::Hovered(first), first@).0 == Some(current)
        }),
{
}

} // verus!
