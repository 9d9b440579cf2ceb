//! What the keyboard does.

use vstd::prelude::*;
use vstd::string::StrSliceExecFns;
use crate::app::{App, AppView, DeferredAction, Effects};
use crate::modal::{Modal, ModalKind, ModalResult, ModalView};
use crate::time::Secs;

verus! {

/// A key that means something.
#[derive(Clone, Copy, Debug, PartialEq, Eq, Structural)]
pub enum Key {
    C,
    E,
    G,
    I,
    M,
    O,
    S,
    T,
    V,
    X,
    Z,
    ArrowLeft,
    ArrowRight,
    ArrowUp,
    ArrowDown,
    Backspace,
    Enter,
    Escape,
    Space,
    Other,
}

/// What a key asks for.
#[derive(Clone, Copy, Debug, PartialEq, Eq, Structural)]
pub enum Command {
    Nothing,
    AskTempo,
    Dialog(DeferredAction),
    Undo,
    Redo,
    Copy,
    Cut,
    Paste,
    NewTrack,
    Split,
    Delete,
    ClearSelection,
    ToggleMute,
    PlayPause,
    Seek(bool),
    AdjustGain(bool),
    AdjustTrackGain(bool),
}

/// What a key asks for that the editor cannot do alone: that the player plays or pauses, that the
/// playhead moves left or right, or that the gain of the selected clip, or of the selected track,
/// takes a step up or down.
#[derive(Clone, Copy, Debug, PartialEq, Eq, Structural)]
pub enum Request {
    PlayPause,
    Left,
    Right,
    Louder,
    Softer,
    TrackLouder,
    TrackSofter,
}

/// What a key asks for, with the modifiers that are down, in a project with tracks or without.
pub open spec fn command_of(key: Key, super_key: bool, shift_key: bool, has_tracks: bool) -> Command {
    match key {
        Key::G if super_key => Command::AskTempo,
        Key::O if super_key => Command::Dialog(DeferredAction::OpenProject),
        Key::I if super_key => Command::Dialog(DeferredAction::OpenFile),
        Key::S => if !super_key {
            Command::Split
        } else if shift_key {
            Command::Dialog(DeferredAction::SaveProjectAs)
        } else {
            Command::Dialog(DeferredAction::SaveProject)
        },
        Key::E if super_key && has_tracks => Command::Dialog(DeferredAction::ExportWav),
        Key::Z if super_key => if shift_key {
            Command::Redo
        } else {
            Command::Undo
        },
        Key::C if super_key => Command::Copy,
        Key::X if super_key => Command::Cut,
        Key::V if super_key => Command::Paste,
        Key::T if super_key => Command::NewTrack,
        Key::M if !super_key => Command::ToggleMute,
        Key::Backspace if has_tracks => Command::Delete,
        Key::Escape => Command::ClearSelection,
        Key::Space => Command::PlayPause,
        Key::ArrowLeft => Command::Seek(false),
        Key::ArrowRight => Command::Seek(true),
        Key::ArrowUp if super_key => if shift_key {
            Command::AdjustTrackGain(true)
        } else {
            Command::AdjustGain(true)
        },
        Key::ArrowDown if super_key => if shift_key {
            Command::AdjustTrackGain(false)
        } else {
            Command::AdjustGain(false)
        },
        _ => Command::Nothing,
    }
}

/// What a key asks for.
pub fn command_for(key: Key, super_key: bool, shift_key: bool, has_tracks: bool) -> (r: Command)
    ensures
        r == command_of(key, super_key, shift_key, has_tracks),
{
    match key {
        Key::S => {
            if !super_key {
                Command::Split
            } else if shift_key {
                Command::Dialog(DeferredAction::SaveProjectAs)
            } else {
                Command::Dialog(DeferredAction::SaveProject)
            }
        },
        Key::Escape => Command::ClearSelection,
        Key::Space => Command::PlayPause,
        Key::ArrowLeft => Command::Seek(false),
        Key::ArrowRight => Command::Seek(true),
        Key::Backspace => {
            if has_tracks {
                Command::Delete
            } else {
                Command::Nothing
            }
        },
        Key::M => {
            if super_key {
                Command::Nothing
            } else {
                Command::ToggleMute
            }
        },
        _ => {
            if !super_key {
                return Command::Nothing;
            }
            match key {
                Key::G => Command::AskTempo,
                Key::ArrowUp => {
                    if shift_key {
                        Command::AdjustTrackGain(true)
                    } else {
                        Command::AdjustGain(true)
                    }
                },
                Key::ArrowDown => {
                    if shift_key {
                        Command::AdjustTrackGain(false)
                    } else {
                        Command::AdjustGain(false)
                    }
                },
                Key::O => Command::Dialog(DeferredAction::OpenProject),
                Key::I => Command::Dialog(DeferredAction::OpenFile),
                Key::E => {
                    if has_tracks {
                        Command::Dialog(DeferredAction::ExportWav)
                    } else {
                        Command::Nothing
                    }
                },
                Key::Z => {
                    if shift_key {
                        Command::Redo
                    } else {
                        Command::Undo
                    }
                },
                Key::C => Command::Copy,
                Key::X => Command::Cut,
                Key::V => Command::Paste,
                Key::T => Command::NewTrack,
                _ => Command::Nothing,
            }
        },
    }
}

/// The modal after some characters were typed: what was confirmed, or the modal as it is then. No
/// character after a confirmation is looked at.
pub open spec fn text_typed(m: ModalView, text: Seq<char>) -> (Option<ModalView>, Option<Seq<char>>)
    decreases text.len(),
{
    if text.len() == 0 {
        (Some(m), None)
    } else if m.confirms(text[0]) {
        (None, Some(m.input))
    } else {
        text_typed(m.typed(text[0]), text.subrange(1, text.len() as int))
    }
}

impl AppView {
    /// What a key asks for in this editor.
    pub open spec fn command(self, key: Key) -> Command {
        command_of(key, self.super_key, self.shift_key, self.tracks.len() > 0)
    }

    /// Whether what the command works on is there.
    pub open spec fn can_do(self, command: Command) -> bool {
        match command {
            Command::Undo => self.can_undo(),
            Command::Redo => self.can_redo(),
            Command::NewTrack => self.selected_track matches Some(t) ==> t < self.tracks.len(),
            Command::Split => match (self.selected_track, self.selected_clip) {
                (Some(t), Some(c)) => self.has_clip(t, c),
                _ => true,
            },
            _ => true,
        }
    }

    /// The editor after a command.
    pub open spec fn done(self, command: Command, playhead: Secs) -> AppView {
        match command {
            Command::AskTempo => AppView {
                modal: Some(
                    ModalView {
                        title: "BPM"@,
                        input: Seq::empty(),
                        visible: true,
                        kind: ModalKind::ClickTrackBpm,
                    },
                ),
                ..self
            },
            Command::Dialog(action) => AppView { deferred_action: Some(action), ..self },
            Command::Undo => self.undone(),
            Command::Redo => self.redone(),
            Command::Copy => self.copied(),
            Command::Cut => self.cut(),
            Command::Paste => self.pasted(playhead),
            Command::NewTrack => self.track_created(),
            Command::Split => self.split(playhead),
            Command::Delete => self.deleted(),
            Command::ClearSelection => self.selection_cleared(),
            Command::ToggleMute => self.mute_toggled(),
            _ => self,
        }
    }

    /// What has to be brought up to date after a command.
    pub open spec fn done_effects(self, command: Command, playhead: Secs) -> Effects {
        match command {
            Command::AskTempo => Effects::Redraw,
            Command::Undo if self.undo_manager.undo.len() > 0 => Effects::Refresh,
            Command::Redo if self.undo_manager.redo.len() > 0 => Effects::Refresh,
            Command::Cut if self.can_cut() => Effects::Remix,
            Command::Paste if self.paste_track(playhead) is Some => Effects::Remix,
            Command::NewTrack => Effects::Refresh,
            Command::Split if self.split_clip(playhead) is Some => Effects::Remix,
            Command::Delete if self.can_cut() => Effects::Refresh,
            Command::ClearSelection if self.has_selection() => Effects::Redraw,
            Command::ToggleMute if self.has_selected_track() => Effects::Refresh,
            _ => Effects::Nothing,
        }
    }

    /// Whether the modal takes the keyboard.
    pub open spec fn modal_is_open(self) -> bool {
        self.modal matches Some(m) && m.visible
    }

    /// The editor after some characters were typed into its modal.
    pub open spec fn typed_in_modal(self, text: Seq<char>) -> AppView {
        AppView { modal: text_typed(self.modal->0, text).0, ..self }
    }
}

impl App {
    /// Does what a command asks for. Returns what has to be brought up to date, and what is left
    /// to do.
    pub fn run_command(&mut self, command: Command, playhead: Secs) -> (r: (Effects, Option<Request>))
        requires
            old(self)@.ok(),
            old(self)@.can_do(command),
        ensures
            final(self)@ == old(self)@.done(command, playhead),
            final(self)@.ok(),
            r.0 == old(self)@.done_effects(command, playhead),
            r.1 == (match command {
                Command::PlayPause => Some(Request::PlayPause),
                Command::Seek(right) => Some(
                    if right {
                        Request::Right
                    } else {
                        Request::Left
                    },
                ),
                Command::AdjustGain(up) => Some(
                    if up {
                        Request::Louder
                    } else {
                        Request::Softer
                    },
                ),
                Command::AdjustTrackGain(up) => Some(
                    if up {
                        Request::TrackLouder
                    } else {
                        Request::TrackSofter
                    },
                ),
                _ => None,
            }),
    {
        let ghost before = self@;
        match command {
            Command::Nothing => (Effects::Nothing, None),
            Command::AskTempo => {
                self.modal = Some(Modal::new("BPM", ModalKind::ClickTrackBpm));
                assert(self@ =~= before.done(command, playhead));
                (Effects::Redraw, None)
            },
            Command::Dialog(action) => {
                self.deferred_action = Some(action);
                (Effects::Nothing, None)
            },
            Command::Undo => (self.perform_undo(), None),
            Command::Redo => (self.perform_redo(), None),
            Command::Copy => {
                self.copy();
                (Effects::Nothing, None)
            },
            Command::Cut => (self.cut(), None),
            Command::Paste => (self.paste(playhead), None),
            Command::NewTrack => (self.new_track(), None),
            Command::Split => (self.split(playhead), None),
            Command::Delete => (self.delete(), None),
            Command::ClearSelection => (self.clear_selection(), None),
            Command::ToggleMute => (self.toggle_mute(), None),
            Command::PlayPause => (Effects::Nothing, Some(Request::PlayPause)),
            Command::Seek(right) => {
                if right {
                    (Effects::Nothing, Some(Request::Right))
                } else {
                    (Effects::Nothing, Some(Request::Left))
                }
            },
            Command::AdjustGain(up) => {
                if up {
                    (Effects::Nothing, Some(Request::Louder))
                } else {
                    (Effects::Nothing, Some(Request::Softer))
                }
            },
            Command::AdjustTrackGain(up) => {
                if up {
                    (Effects::Nothing, Some(Request::TrackLouder))
                } else {
                    (Effects::Nothing, Some(Request::TrackSofter))
                }
            },
        }
    }

    /// What a key asks for in this editor.
    pub fn command(&self, key: Key) -> (r: Command)
        ensures
            r == self@.command(key),
    {
        command_for(key, self.super_key, self.shift_key, self.tracks.len() > 0)
    }

    /// Whether the modal takes the keyboard.
    pub fn modal_is_open(&self) -> (r: bool)
        ensures
            r == self@.modal_is_open(),
    {
        match &self.modal {
            Some(m) => m.visible,
            None => false,
        }
    }

    /// Types some characters into the modal. Returns what was confirmed, which closes the modal.
    pub fn type_in_modal(&mut self, text: &str) -> (r: Option<ModalResult>)
        requires
            old(self)@.ok(),
            old(self)@.modal is Some,
        ensures
            final(self)@ == old(self)@.typed_in_modal(text@),
            final(self)@.ok(),
            match r {
                Some(res) => text_typed(old(self)@.modal->0, text@).1 == Some(res.text()) && res.kind()
                    == old(self)@.modal->0.kind,
                None => text_typed(old(self)@.modal->0, text@).1 is None,
            },
    {
        let ghost before = self@;
        let mut open: Option<Modal> = None;
        core::mem::swap(&mut open, &mut self.modal);
        let mut m: Modal = match open {
            Some(m) => m,
            None => {
                return None;
            },
        };
        let ghost first = m@;
        let n: usize = text.unicode_len();
        let mut i: usize = 0;
        assert(text@.subrange(0, text@.len() as int) =~= text@);
        while i < n
            invariant
                i <= n,
                n == text@.len(),
                m@.ok(),
                m@.kind == first.kind,
                first == before.modal->0,
                before == old(self)@,
                before.ok(),
                self@ == (AppView { modal: None, ..before }),
                text_typed(first, text@) == text_typed(m@, text@.subrange(i as int, n as int)),
            decreases n - i,
        {
            let ghost rest = text@.subrange(i as int, n as int);
            let ghost here = m@;
            let c: char = text.get_char(i);
            assert(rest[0] == c);
            assert(rest.subrange(1, rest.len() as int) =~= text@.subrange(i + 1, n as int));
            match m.handle_char(c) {
                Some(res) => {
                    assert(self@ =~= before.typed_in_modal(text@));
                    return Some(res);
                },
                None => {},
            }
            i = i + 1;
        }
        assert(text@.subrange(n as int, n as int) =~= Seq::empty());
        self.modal = Some(m);
        assert(self@ =~= before.typed_in_modal(text@));
        None
    }

    /// A key while the modal is open: Escape closes it, Backspace takes a character back, Enter
    /// confirms, and other keys type their text. Returns what was confirmed.
    pub fn press_in_modal(&mut self, key: Key, text: Option<&str>) -> (r: (Effects, Option<ModalResult>))
        requires
            old(self)@.ok(),
            old(self)@.modal is Some,
        ensures
            final(self)@.ok(),
            match key {
                Key::Escape => final(self)@ == (AppView { modal: None, ..old(self)@ }) && r == (
                    Effects::Redraw,
                    None::<ModalResult>,
                ),
                Key::Backspace => final(self)@ == (AppView {
                    modal: Some(old(self)@.modal->0.erased()),
                    ..old(self)@
                }) && r == (Effects::Redraw, None::<ModalResult>),
                _ => {
                    let typed = match (key, text) {
                        (Key::Enter, _) => Some("\n"@),
                        (_, Some(t)) => Some(t@),
                        (_, None) => None,
                    };
                    match typed {
                        Some(t) => final(self)@ == old(self)@.typed_in_modal(t) && r.0
                            == Effects::Redraw && match r.1 {
                            Some(res) => text_typed(old(self)@.modal->0, t).1 == Some(res.text())
                                && res.kind() == old(self)@.modal->0.kind,
                            None => text_typed(old(self)@.modal->0, t).1 is None,
                        },
                        None => final(self)@ == old(self)@ && r == (
                            Effects::Nothing,
                            None::<ModalResult>,
                        ),
                    }
                },
            },
    {
        let ghost before = self@;
        match key {
            Key::Escape => {
                self.modal = None;
                assert(self@ =~= AppView { modal: None, ..before });
                (Effects::Redraw, None)
            },
            Key::Backspace => {
                let mut open: Option<Modal> = None;
                core::mem::swap(&mut open, &mut self.modal);
                match open {
                    Some(m) => {
                        let mut m: Modal = m;
                        m.handle_backspace();
                        self.modal = Some(m);
                    },
                    None => {},
                }
                assert(self@ =~= AppView { modal: Some(before.modal->0.erased()), ..before });
                (Effects::Redraw, None)
            },
            Key::Enter => {
                let confirmed: Option<ModalResult> = self.type_in_modal("\n");
                (Effects::Redraw, confirmed)
            },
            _ => {
                match text {
                    Some(t) => {
                        let confirmed: Option<ModalResult> = self.type_in_modal(t);
                        (Effects::Redraw, confirmed)
                    },
                    None => (Effects::Nothing, None),
                }
            },
        }
    }
}

/// What the keys are for, with the command key down.
pub proof fn law_command_keys(shift: bool, has_tracks: bool)
    ensures
        command_of(Key::Z, true, false, has_tracks) == Command::Undo,
        command_of(Key::Z, true, true, has_tracks) == Command::Redo,
        command_of(Key::C, true, shift, has_tracks) == Command::Copy,
        command_of(Key::X, true, shift, has_tracks) == Command::Cut,
        command_of(Key::V, true, shift, has_tracks) == Command::Paste,
        command_of(Key::T, true, shift, has_tracks) == Command::NewTrack,
        command_of(Key::G, true, shift, has_tracks) == Command::AskTempo,
        command_of(Key::O, true, shift, has_tracks) == Command::Dialog(DeferredAction::OpenProject),
        command_of(Key::I, true, shift, has_tracks) == Command::Dialog(DeferredAction::OpenFile),
        command_of(Key::S, true, false, has_tracks) == Command::Dialog(DeferredAction::SaveProject),
        command_of(Key::S, true, true, has_tracks) == Command::Dialog(DeferredAction::SaveProjectAs),
        command_of(Key::E, true, shift, true) == Command::Dialog(DeferredAction::ExportWav),
        command_of(Key::E, true, shift, false) == Command::Nothing,
        command_of(Key::M, true, shift, has_tracks) == Command::Nothing,
        command_of(Key::ArrowUp, true, false, has_tracks) == Command::AdjustGain(true),
        command_of(Key::ArrowDown, true, false, has_tracks) == Command::AdjustGain(false),
        command_of(Key::ArrowUp, true, true, has_tracks) == Command::AdjustTrackGain(true),
        command_of(Key::ArrowDown, true, true, has_tracks) == Command::AdjustTrackGain(false),
{
}

/// What the keys are for, whether the command key is down or not.
pub proof fn law_plain_keys(cmd: bool, shift: bool, has_tracks: bool)
    ensures
        command_of(Key::S, false, shift, has_tracks) == Command::Split,
        command_of(Key::M, false, shift, has_tracks) == Command::ToggleMute,
        command_of(Key::Backspace, cmd, shift, true) == Command::Delete,
        command_of(Key::Backspace, cmd, shift, false) == Command::Nothing,
        command_of(Key::Escape, cmd, shift, has_tracks) == Command::ClearSelection,
        command_of(Key::Space, cmd, shift, has_tracks) == Command::PlayPause,
        command_of(Key::ArrowLeft, cmd, shift, has_tracks) == Command::Seek(false),
        command_of(Key::ArrowRight, cmd, shift, has_tracks) == Command::Seek(true),
        command_of(Key::Z, false, shift, has_tracks) == Command::Nothing,
        command_of(Key::C, false, shift, has_tracks) == Command::Nothing,
        command_of(Key::X, false, shift, has_tracks) == Command::Nothing,
        command_of(Key::V, false, shift, has_tracks) == Command::Nothing,
        command_of(Key::T, false, shift, has_tracks) == Command::Nothing,
        command_of(Key::ArrowUp, false, shift, has_tracks) == Command::Nothing,
        command_of(Key::ArrowDown, false, shift, has_tracks) == Command::Nothing,
{
}

/// Each command makes its own edit.
pub proof fn law_a_command_makes_its_edit(v: AppView, playhead: Secs)
    ensures
        v.done(Command::Undo, playhead) == v.undone(),
        v.done(Command::Redo, playhead) == v.redone(),
        v.done(Command::Copy, playhead) == v.copied(),
        v.done(Command::Cut, playhead) == v.cut(),
        v.done(Command::Paste, playhead) == v.pasted(playhead),
        v.done(Command::Split, playhead) == v.split(playhead),
        v.done(Command::Delete, playhead) == v.deleted(),
        v.done(Command::NewTrack, playhead) == v.track_created(),
        v.done(Command::ToggleMute, playhead) == v.mute_toggled(),
        v.done(Command::PlayPause, playhead) == v,
        v.done(Command::ClearSelection, playhead).selection is None,
        v.done(Command::ClearSelection, playhead).multi_selected_clips.len() == 0,
        v.done(Command::ClearSelection, playhead).tracks == v.tracks,
        v.done(Command::AskTempo, playhead).modal is Some,
        v.done(Command::AskTempo, playhead).tracks == v.tracks,
{
}

/// Where a command changes a track, the mix is made anew; where nothing is brought up to date, no track
/// has changed.
pub proof fn law_a_changed_track_is_mixed_anew(v: AppView, command: Command, playhead: Secs)
    ensures
        ({
            let e = v.done_effects(command, playhead);
            v.done(command, playhead).tracks != v.tracks ==> e == Effects::Remix || e == Effects::Refresh
        }),
{
}

/// Characters are typed one after the other, up to the one that confirms; what is confirmed is what was
/// typed before it, and the modal is gone then.
pub proof fn law_characters_are_typed_in_turn(m: ModalView, c: char, rest: Seq<char>)
    ensures
        text_typed(m, Seq::empty()) == (Some(m), None::<Seq<char>>),
        text_typed(m, seq![c] + rest) == if (c == '\r' || c == '\n')
            && crate::modal::is_positive_number(m.input) {
            (None::<ModalView>, Some(m.input))
        } else {
            text_typed(m.typed(c), rest)
        },
{
    let text = seq![c] + rest;
    assert(text[0] == c);
    assert(text.subrange(1, text.len() as int) =~= rest);
}

} // verus!
