//! The input session: the SKK state machine over the editor stack, with
//! nested sessions for word registration.

use vstd::prelude::*;
use crate::backend::Backend;
use crate::bridge::{Annotator, CandidateWindow, Clipboard, DynamicCompletor, FrontEnd, Messenger};
use crate::completer::{next_position, prev_position, Completer};
use crate::config::Config;
use crate::context::{InputContext, OutputModel, RegistrationState, UndoResult};
use crate::backend::registered;
use crate::editor::{
    edited, EditorEvent,
    byte_char, is_kana_mode, lower, queue_fixed, queue_pending, typed_into, BottomEditor, EditorId, InputEngine,
    PrimaryEditor, RegisterEditor,
};
use crate::event::attribute::{
    COMP_CONVERSION, DIRECT, ENTER_ABBREV, ENTER_JAPANESE, INPUT_CHARS, NEXT_CANDIDATE, NEXT_COMPLETION,
    PREV_CANDIDATE, PREV_COMPLETION, REMOVE_TRIGGER, STICKY_KEY, SWITCH_TO_ASCII, SWITCH_TO_JISX0208_LATIN,
    TOGGLE_JISX0201_KANA, TOGGLE_KANA, UPPER_CASES,
};
use crate::trie::converted;
use crate::entry::Entry;
use crate::event::{Event, EventId, HandleOption};
use crate::input_mode::InputMode;
use crate::machine::{StateHandler, StateMachine, StateResult, SystemEvent};
use crate::selector::{Selector, SelectorModel};
use crate::text::{chars_of, copy_str, string_of};
use crate::trie::RomanKanaConverter;

verus! {

/// The states of an input session.
#[derive(Debug, Clone, Copy, PartialEq, Eq, Hash, Structural)]
pub enum StateId {
    Top,
    Primary,
    KanaInput,
    Hirakana,
    Katakana,
    Jisx0201Kana,
    LatinInput,
    Ascii,
    Jisx0208Latin,
    Composing,
    Edit,
    EntryInput,
    KanaEntry,
    AsciiEntry,
    EntryCompletion,
    SelectCandidate,
    OkuriInput,
    EntryRemove,
    RecursiveRegister,
}

/// External resources of a session.
#[derive(Debug)]
pub struct SessionParameter<F, W, M, C, A, D> {
    pub backend: Backend,
    pub converter: RomanKanaConverter,
    pub config: Config,
    pub frontend: F,
    pub window: W,
    pub messenger: M,
    pub clipboard: C,
    pub annotator: A,
    pub completor: D,
}

/// One suspended level of nested word registration.
#[derive(Debug)]
struct Level {
    engine: InputEngine,
    machine: StateMachine,
    selector: Selector,
    completer: Completer,
}

/// The state handlers of the active level, with the resources they use.
struct Core<F, W, M, C, A, D> {
    param: SessionParameter<F, W, M, C, A, D>,
    context: InputContext,
    engine: InputEngine,
    selector: Selector,
    completer: Completer,
    system_log: Ghost<Seq<(StateId, SystemEvent)>>,
    event_log: Ghost<Seq<(StateId, StateResult)>>,
    heard_log: Ghost<Seq<Event>>,
    asked_after_log: Ghost<Seq<nat>>,
}

/// ASCII upper case of a byte.
fn to_upper(code: u8) -> (r: u8)
    ensures
        r == if 0x61 <= code <= 0x7a {
            (code - 0x20) as u8
        } else {
            code
        },
{
    if 0x61 <= code && code <= 0x7a {
        code - 0x20
    } else {
        code
    }
}

impl<F: FrontEnd, W: CandidateWindow, M: Messenger, C: Clipboard, A: Annotator, D: DynamicCompletor> Core<
    F,
    W,
    M,
    C,
    A,
    D,
> {
    /// What committing does, from `self` to `n`: pending romaji fixed, the
    /// reading or the selected candidate (registered) committed as fixed
    /// text, everything else kept.
    pub closed spec fn commits_into(self, n: Self) -> bool {
        &&& n.engine.mode() == self.engine.mode()
        &&& n.engine.editors() == self.engine.editors()
        &&& n.engine.registering() == self.engine.registering()
        &&& n.engine.changed() == self.engine.changed()
        &&& n.engine.queue().mode() == self.engine.queue().mode()
        &&& n.engine.queue().pending() == Seq::<char>::empty() || (!self.param.config.fix_intermediate_conversion
            && n.engine.queue().pending() == self.engine.queue().pending())
        &&& n.param == (SessionParameter { backend: n.param.backend, ..self.param })
        &&& n.selector == self.selector
        &&& n.completer == self.completer
        &&& self.engine.queue().pending().len() == 0 && !self.engine.registering() && self.engine.editors() == seq![
            EditorId::Bottom,
            EditorId::Composing,
        ] ==> n.context.output@.fixed == self.context.output@.fixed + self.engine.reading_editor().text()
            && n.param.backend == self.param.backend
        &&& self.engine.queue().pending().len() == 0 && !self.engine.registering() && self.engine.editors() == seq![
            EditorId::Bottom,
            EditorId::Candidate,
        ] ==> n.context.output@.fixed == self.context.output@.fixed + self.engine.candidate_view().shown_text()
            && registered(
            self.param.backend,
            n.param.backend,
            self.engine.candidate_view().reading(),
            self.engine.candidate_view().selected(),
        )
    }

    /// What Enter does at the direct input level, from `self` to `n`: the
    /// editors' text committed (the reading or the selected candidate as
    /// fixed text), and a registration finished with the committed word
    /// and the reading's okurigana, or aborted when nothing was committed.
    /// With only the bottom editor, the committed word is the word typed
    /// into a registration (nothing outside one).
    pub closed spec fn entered_into(self, n: Self) -> bool {
        &&& n.engine.mode() == self.engine.mode()
        &&& !n.context.event_handled
        &&& n.engine.committed_word().len() > 0 ==> n.context.registration.progress()
            == RegistrationState::Finished && n.context.registration.text() == n.engine.committed_word()
            + n.context.entry.okuri()
        &&& n.engine.committed_word().len() == 0 ==> n.context.registration.progress() == RegistrationState::Aborted
            && n.context.registration.text() == Seq::<char>::empty()
        &&& self.engine.queue().pending().len() == 0 && self.engine.editors() == seq![EditorId::Bottom]
            ==> n.engine.committed_word() == match self.engine.register_word() {
            Some(w) => w,
            None => Seq::<char>::empty(),
        }
        &&& self.engine.queue().pending().len() == 0 && !self.engine.registering() && self.engine.editors() == seq![
            EditorId::Bottom,
            EditorId::Composing,
        ] ==> n.context.output@.fixed == self.context.output@.fixed + self.engine.reading_editor().text()
        &&& self.engine.queue().pending().len() == 0 && !self.engine.registering() && self.engine.editors() == seq![
            EditorId::Bottom,
            EditorId::Candidate,
        ] ==> n.context.output@.fixed == self.context.output@.fixed + self.engine.candidate_view().shown_text()
    }

    fn commit(&mut self)
        requires
            old(self).engine.wf(),
        ensures
            final(self).system_log == old(self).system_log,
            final(self).event_log == old(self).event_log,
            final(self).engine.wf(),
            old(self).commits_into(*final(self)),
    {
        self.engine.commit(&mut self.context, &mut self.param.backend, &self.param.converter, &self.param.config);
    }

    /// Backspace handed to the engine, from `self` to `n`.
    pub closed spec fn backspaced(self, n: Self) -> bool {
        &&& n.engine.mode() == self.engine.mode()
        &&& n.engine.queue().pending() == if self.engine.queue().pending().len() > 0 {
            self.engine.queue().pending().drop_last()
        } else {
            self.engine.queue().pending()
        }
        &&& self.engine.direct_input() && self.engine.queue().pending().len() == 0 ==> n.context == (InputContext {
            event_handled: false,
            ..self.context
        })
        &&& self.engine.queue().pending().len() == 0 && self.engine.editors().last() == EditorId::Composing ==> (
        n.engine.reading_editor().text(), n.engine.reading_editor().cursor()) == edited(
            self.engine.reading_editor().text(),
            self.engine.reading_editor().cursor(),
            EditorEvent::BackSpace,
        )
    }

    /// An editing key other than backspace handed to the engine.
    pub closed spec fn edited_by(self, n: Self, event: EditorEvent) -> bool {
        &&& n.engine.mode() == self.engine.mode()
        &&& n.engine.queue().pending() == Seq::<char>::empty()
        &&& self.engine.queue().pending().len() > 0 || self.engine.direct_input() ==> n.context == (InputContext {
            event_handled: false,
            ..self.context
        })
        &&& self.engine.queue().pending().len() == 0 && self.engine.editors().last() == EditorId::Composing ==> (
        n.engine.reading_editor().text(), n.engine.reading_editor().cursor()) == edited(
            self.engine.reading_editor().text(),
            self.engine.reading_editor().cursor(),
            event,
        )
    }

    /// The selector's cursor moved by a cursor key, and the candidate shown
    /// follows it.
    pub closed spec fn selection_moved(self, n: Self, event: EventId) -> bool {
        let m = self.selector@;
        &&& n.selector@ == match event {
            EventId::Left => if !m.inline && m.cursor != 0 {
                SelectorModel { cursor: (m.cursor - 1) as nat, ..m }
            } else {
                m
            },
            EventId::Right => if !m.inline && m.cursor + 1 < m.view_len() {
                SelectorModel { cursor: m.cursor + 1, ..m }
            } else {
                m
            },
            EventId::Up => if !m.inline {
                SelectorModel { cursor: 0, ..m }
            } else {
                m
            },
            _ => if !m.inline {
                SelectorModel { cursor: if m.view_len() > 0 { (m.view_len() - 1) as nat } else { 0 }, ..m }
            } else {
                m
            },
        }
        &&& n.selector@.selected() matches Some(c) ==> n.context.candidate@ == c
    }

    /// The answer to `event` of the direct input state, from `self` to `n`.
    pub closed spec fn primary_answer(self, n: Self, event: Event, r: StateResult) -> bool {
        match event.id {
            EventId::AsciiMode => r == StateResult::Transition(StateId::Ascii) && n == self,
            EventId::HirakanaMode => r == StateResult::Transition(StateId::Hirakana) && n == self,
            EventId::KatakanaMode => r == StateResult::Transition(StateId::Katakana) && n == self,
            EventId::Jisx0201KanaMode => r == StateResult::Transition(StateId::Jisx0201Kana) && n == self,
            EventId::Jisx0208LatinMode => r == StateResult::Transition(StateId::Jisx0208Latin) && n == self,
            EventId::Ping => r == StateResult::Handled && n == self,
            EventId::Undo => r == StateResult::Transition(StateId::KanaEntry) || r == StateResult::Transition(
                StateId::AsciiEntry,
            ) || (r == StateResult::Handled && !n.context.event_handled),
            EventId::JMode => r == StateResult::Handled && self.commits_into(n),
            EventId::Enter => r == StateResult::Handled && self.entered_into(n),
            EventId::Cancel => r == StateResult::Handled && n.engine.mode() == self.engine.mode() && (
            self.engine.queue().pending().len() == 0 ==> !n.context.event_handled
                && n.context.registration.progress() == RegistrationState::Aborted),
            EventId::Paste => r == StateResult::Handled && n.engine.queue() == self.engine.queue() && (
            self.engine.direct_input() ==> !n.context.event_handled && n.context.output == self.context.output),
            EventId::Backspace => r == StateResult::Handled && self.backspaced(n),
            EventId::Delete => r == StateResult::Handled && self.edited_by(n, EditorEvent::Delete),
            EventId::Left => r == StateResult::Handled && self.edited_by(n, EditorEvent::CursorLeft),
            EventId::Right => r == StateResult::Handled && self.edited_by(n, EditorEvent::CursorRight),
            EventId::Up => r == StateResult::Handled && self.edited_by(n, EditorEvent::CursorUp),
            EventId::Down => r == StateResult::Handled && self.edited_by(n, EditorEvent::CursorDown),
            _ => r == StateResult::Handled && n.engine.mode() == self.engine.mode() && !n.context.event_handled && (
            n.engine.queue().pending() == Seq::<char>::empty() || (!self.param.config.fix_intermediate_conversion
                && n.engine.queue().pending() == self.engine.queue().pending())),
        }
    }

    /// The answer of the kana input state.
    pub closed spec fn kana_input_answer(self, n: Self, event: Event, r: StateResult) -> bool {
        let plain = !self.converts(event.code);
        &&& r == if event.id == EventId::Char {
            if plain && event.has(SWITCH_TO_ASCII) {
                StateResult::Transition(StateId::Ascii)
            } else if plain && event.has(SWITCH_TO_JISX0208_LATIN) {
                StateResult::Transition(StateId::Jisx0208Latin)
            } else if plain && event.has(ENTER_ABBREV) {
                StateResult::Transition(StateId::AsciiEntry)
            } else if plain && event.has(ENTER_JAPANESE) {
                StateResult::Transition(StateId::KanaEntry)
            } else if event.has(STICKY_KEY) {
                StateResult::Transition(StateId::KanaEntry)
            } else if event.has(UPPER_CASES) {
                StateResult::Forward(StateId::KanaEntry)
            } else if event.has(INPUT_CHARS) {
                StateResult::Handled
            } else {
                StateResult::Super(StateId::Primary)
            }
        } else {
            StateResult::Super(StateId::Primary)
        }
        &&& r != StateResult::Handled ==> n == self
        &&& r == StateResult::Handled ==> n.engine.queue().pending() == queue_pending(
            self.param.converter.rules(),
            self.engine.mode(),
            self.engine.queue().pending(),
            event.code,
            event.has(DIRECT),
        )
    }

    /// The answer of the latin input state.
    pub closed spec fn latin_input_answer(self, n: Self, event: Event, r: StateResult) -> bool {
        &&& r == match event.id {
            EventId::JMode => StateResult::Transition(StateId::Hirakana),
            EventId::Char => if event.has(INPUT_CHARS) {
                StateResult::Handled
            } else {
                StateResult::Super(StateId::Primary)
            },
            _ => StateResult::Super(StateId::Primary),
        }
        &&& r != StateResult::Handled ==> n == self
    }

    /// The answer of the reading edit state.
    pub closed spec fn edit_answer(self, n: Self, event: Event, r: StateResult) -> bool {
        match event.id {
            EventId::Enter | EventId::JMode => self.commits_into(n) && r == if event.id == EventId::Enter
                && !self.param.config.suppress_newline_on_commit {
                StateResult::Forward(StateId::KanaInput)
            } else {
                StateResult::Transition(StateId::KanaInput)
            },
            EventId::Cancel => r == StateResult::Transition(StateId::KanaInput) && n.engine == self.engine && (
            self.context.undo.reading().len() > 0 ==> n.context.output@ == (OutputModel {
                fixed: self.context.output@.fixed + self.context.undo.word(),
                ..self.context.output@
            })) && (self.context.undo.reading().len() == 0 ==> n.context.output == self.context.output),
            EventId::Backspace => self.backspaced(n) && r == if n.context.needs_setback {
                StateResult::Transition(StateId::KanaInput)
            } else {
                StateResult::Handled
            },
            EventId::Delete => r == StateResult::Handled && self.edited_by(n, EditorEvent::Delete),
            EventId::Left => r == StateResult::Handled && self.edited_by(n, EditorEvent::CursorLeft),
            EventId::Right => r == StateResult::Handled && self.edited_by(n, EditorEvent::CursorRight),
            EventId::Up => r == StateResult::Handled && self.edited_by(n, EditorEvent::CursorUp),
            EventId::Down => r == StateResult::Handled && self.edited_by(n, EditorEvent::CursorDown),
            EventId::Char => if event.has(COMP_CONVERSION) || event.has(NEXT_CANDIDATE) {
                &&& event.has(COMP_CONVERSION) && self.engine.queue().pending().len() == 0 ==> exists|q: Entry|
                    #![trigger self.param.backend.completed(q.key(), 1)]
                    self.context.entry.normalizes_to(self.engine.mode(), q) && n.completer.items()
                        == self.param.backend.completed(q.key(), 1).result
                &&& !event.has(COMP_CONVERSION) && self.engine.queue().pending().len() == 0 && r
                    != StateResult::Transition(StateId::KanaInput) ==> exists|q: Entry|
                    #![trigger self.param.backend.found_for(q.key(), q.okuri())]
                    self.context.entry.normalizes_to(self.engine.mode(), q) && n.selector@.candidates
                        == self.param.backend.found_for(q.key(), q.okuri()).candidates
                &&& r == StateResult::Transition(StateId::KanaInput) || (r == StateResult::Transition(
                    StateId::SelectCandidate,
                ) && n.selector@.candidates.len() > 0) || (r == StateResult::Transition(StateId::RecursiveRegister)
                    && n.selector@.candidates.len() == 0)
                &&& !event.has(COMP_CONVERSION) ==> (r == StateResult::Transition(StateId::KanaInput) <==> self.context.entry.reading().len() == 0)
            } else {
                r == StateResult::Handled && n == self
            },
            _ => r == StateResult::Super(StateId::Composing) && n == self,
        }
    }

    /// The answer of the entry input state.
    pub closed spec fn entry_input_answer(self, n: Self, event: Event, r: StateResult) -> bool {
        if event.id == EventId::Tab {
            r == if n.completer.items().len() > 0 {
                StateResult::Transition(StateId::EntryCompletion)
            } else {
                StateResult::Handled
            }
        } else {
            r == StateResult::Super(StateId::Edit) && n == self
        }
    }

    /// The answer of the kana reading state.
    pub closed spec fn kana_entry_answer(self, n: Self, event: Event, r: StateResult) -> bool {
        let empty = self.context.entry.reading().len() == 0;
        let plain = !self.converts(event.code);
        &&& r == if event.id == EventId::Char {
            if event.has(NEXT_CANDIDATE) {
                StateResult::Super(StateId::EntryInput)
            } else if event.has(TOGGLE_KANA) || event.has(TOGGLE_JISX0201_KANA) {
                StateResult::Transition(StateId::KanaInput)
            } else if event.has(STICKY_KEY) {
                if empty {
                    StateResult::Transition(StateId::KanaInput)
                } else {
                    StateResult::Transition(StateId::OkuriInput)
                }
            } else if event.has(UPPER_CASES) && !empty {
                StateResult::Forward(StateId::OkuriInput)
            } else if plain && event.has(SWITCH_TO_ASCII) {
                StateResult::Transition(StateId::Ascii)
            } else if plain && event.has(SWITCH_TO_JISX0208_LATIN) {
                StateResult::Transition(StateId::Jisx0208Latin)
            } else if plain && event.has(ENTER_JAPANESE) {
                if self.param.config.handle_recursive_entry_as_okuri && !empty {
                    StateResult::Transition(StateId::OkuriInput)
                } else {
                    StateResult::Forward(StateId::KanaInput)
                }
            } else if event.has(INPUT_CHARS) {
                StateResult::Handled
            } else {
                StateResult::Super(StateId::EntryInput)
            }
        } else {
            StateResult::Super(StateId::EntryInput)
        }
        &&& (r is Super || r == StateResult::Transition(StateId::OkuriInput) || r == StateResult::Forward(
            StateId::OkuriInput,
        )) ==> n == self
    }

    /// The answer of the ASCII reading state.
    pub closed spec fn ascii_entry_answer(self, n: Self, event: Event, r: StateResult) -> bool {
        &&& r == if event.id == EventId::Char {
            if event.has(NEXT_CANDIDATE) {
                StateResult::Super(StateId::EntryInput)
            } else if event.has(TOGGLE_JISX0201_KANA) && self.context.entry.reading().len() > 0 {
                StateResult::Transition(StateId::KanaInput)
            } else if event.has(INPUT_CHARS) {
                StateResult::Handled
            } else {
                StateResult::Super(StateId::EntryInput)
            }
        } else {
            StateResult::Super(StateId::EntryInput)
        }
        &&& r is Super ==> n == self
    }

    /// The answer of the completion state.
    pub closed spec fn entry_completion_answer(self, n: Self, event: Event, r: StateResult) -> bool {
        if event.id == EventId::Tab || event.id == EventId::Char {
            if event.id == EventId::Tab || event.has(NEXT_COMPLETION) {
                r == StateResult::Handled && n.completer.items() == self.completer.items() && n.completer.position()
                    == next_position(self.completer.position(), self.completer.items().len())
            } else if event.has(PREV_COMPLETION) {
                r == StateResult::Handled && n.completer.items() == self.completer.items() && n.completer.position()
                    == prev_position(self.completer.position(), self.completer.items().len())
            } else if event.has(NEXT_CANDIDATE) {
                r == StateResult::Super(StateId::Edit) && n == self
            } else if event.has(REMOVE_TRIGGER) {
                &&& r == StateResult::Transition(StateId::KanaInput) || r == StateResult::Handled
                &&& self.completer.selected() is None ==> r == StateResult::Handled
                &&& self.completer.selected() matches Some(k) ==> (r == StateResult::Transition(StateId::KanaInput)
                    <==> n.param.backend.found_for(k, Seq::empty()).candidates.len() == 0)
            } else {
                r == StateResult::DeepForward(StateId::EntryInput) && n == self
            }
        } else {
            r == StateResult::DeepForward(StateId::EntryInput) && n == self
        }
    }

    /// One step through the candidates, from `self` to `n`: the selector
    /// is where `step` (the selector's `next` or `prev`) puts it; after a
    /// move the candidate shown is the one selected, and without a move
    /// nothing else changes.
    pub closed spec fn stepped_to(self, n: Self, step: (SelectorModel, bool)) -> bool {
        &&& n.selector@ == step.0
        &&& step.1 ==> (n.selector@.selected() matches Some(c) ==> n.context.candidate@ == c)
        &&& !step.1 ==> n.context == self.context && n.engine == self.engine
    }

    /// The answer of the candidate selection state.
    pub closed spec fn select_candidate_answer(self, n: Self, event: Event, r: StateResult) -> bool {
        match event.id {
            EventId::Enter | EventId::JMode => self.commits_into(n) && r == if event.id == EventId::Enter
                && !self.param.config.suppress_newline_on_commit {
                StateResult::Forward(StateId::KanaInput)
            } else {
                StateResult::Transition(StateId::KanaInput)
            },
            EventId::Cancel => r == StateResult::DeepHistory(StateId::EntryInput) && n == self,
            EventId::Left | EventId::Right | EventId::Up | EventId::Down => r == StateResult::Handled
                && self.selection_moved(n, event.id),
            EventId::Backspace | EventId::Char => if event.id == EventId::Backspace && self.selector@.inline
                && self.param.config.inline_backspace_implies_commit {
                r == StateResult::Forward(StateId::KanaInput)
            } else if event.id == EventId::Backspace || event.has(PREV_CANDIDATE) {
                &&& r == if self.selector@.prev().1 {
                    StateResult::Handled
                } else {
                    StateResult::DeepHistory(StateId::EntryInput)
                }
                &&& self.stepped_to(n, self.selector@.prev())
            } else if event.has(NEXT_CANDIDATE) {
                &&& r == if self.selector@.next().1 {
                    StateResult::Handled
                } else {
                    StateResult::Transition(StateId::RecursiveRegister)
                }
                &&& self.stepped_to(n, self.selector@.next())
            } else if event.has(REMOVE_TRIGGER) {
                r == StateResult::Transition(StateId::EntryRemove) && n == self
            } else if event.has(INPUT_CHARS) || event.has(TOGGLE_JISX0201_KANA) {
                if self.selector@.inline {
                    r == StateResult::DeepForward(StateId::KanaInput)
                } else {
                    &&& r == StateResult::Transition(StateId::KanaInput) || r == StateResult::Handled
                    &&& r == StateResult::Handled ==> n.selector@ == self.selector@ && n.context == self.context
                        && n.engine == self.engine
                    &&& r == StateResult::Transition(StateId::KanaInput) ==> n.selector@.cursor
                        < self.selector@.view_len() && n.selector@ == (SelectorModel {
                        cursor: n.selector@.cursor,
                        ..self.selector@
                    })
                }
            } else {
                r == StateResult::Handled && n == self
            },
            _ => r == StateResult::Super(StateId::Composing) && n == self,
        }
    }

    /// The answer of the okurigana input state.
    pub closed spec fn okuri_input_answer(self, n: Self, event: Event, r: StateResult) -> bool {
        match event.id {
            EventId::Enter | EventId::JMode => self.commits_into(n) && r == if event.id == EventId::Enter
                && !self.param.config.suppress_newline_on_commit {
                StateResult::Forward(StateId::KanaInput)
            } else {
                StateResult::Transition(StateId::KanaInput)
            },
            EventId::Cancel => r == StateResult::Transition(StateId::KanaEntry),
            EventId::Tab | EventId::Delete | EventId::Left | EventId::Right | EventId::Up | EventId::Down => r
                == StateResult::Handled && n == self,
            EventId::Backspace => r == if n.context.needs_setback {
                StateResult::Transition(StateId::KanaEntry)
            } else {
                StateResult::Handled
            },
            EventId::Char => {
                &&& r == StateResult::Handled || (r == StateResult::Transition(StateId::SelectCandidate)
                    && n.selector@.candidates.len() > 0) || (r == StateResult::Transition(StateId::RecursiveRegister)
                    && n.selector@.candidates.len() == 0)
                &&& event.has(NEXT_CANDIDATE) ==> r != StateResult::Handled
            },
            _ => r == StateResult::Super(StateId::Top) && n == self,
        }
    }

    /// The answer of the removal confirmation state.
    pub closed spec fn entry_remove_answer(self, n: Self, event: Event, r: StateResult) -> bool {
        match event.id {
            EventId::Enter => r == if n.context.needs_setback {
                StateResult::Transition(StateId::SelectCandidate)
            } else {
                StateResult::Transition(StateId::KanaInput)
            },
            EventId::Cancel => r == StateResult::Transition(StateId::SelectCandidate) && n == self,
            EventId::Backspace => r == StateResult::Handled,
            EventId::Char => if event.has(INPUT_CHARS) {
                r == StateResult::Handled
            } else {
                r == StateResult::Super(StateId::Top) && n == self
            },
            _ => r == StateResult::Super(StateId::Top) && n == self,
        }
    }

    pub closed spec fn hirakana_answer(self, event: Event) -> StateResult {
        match event.id {
            EventId::HirakanaMode => StateResult::Handled,
            EventId::Char => if !(event.has(INPUT_CHARS) && self.converts(event.code)) && event.has(TOGGLE_KANA) {
                StateResult::Transition(StateId::Katakana)
            } else if !(event.has(INPUT_CHARS) && self.converts(event.code)) && event.has(TOGGLE_JISX0201_KANA) {
                StateResult::Transition(StateId::Jisx0201Kana)
            } else {
                StateResult::Super(StateId::KanaInput)
            },
            _ => StateResult::Super(StateId::KanaInput),
        }
    }

    pub closed spec fn katakana_answer(self, event: Event) -> StateResult {
        if event.id == EventId::KatakanaMode {
            StateResult::Handled
        } else if !(event.id == EventId::Char && event.has(INPUT_CHARS) && self.converts(event.code)) && (event.id
            == EventId::JMode || event.has(TOGGLE_KANA)) {
            StateResult::Transition(StateId::Hirakana)
        } else if !(event.id == EventId::Char && event.has(INPUT_CHARS) && self.converts(event.code)) && event.has(
            TOGGLE_JISX0201_KANA,
        ) {
            StateResult::Transition(StateId::Jisx0201Kana)
        } else {
            StateResult::Super(StateId::KanaInput)
        }
    }

    pub closed spec fn jisx0201_kana_answer(self, event: Event) -> StateResult {
        if event.id == EventId::Jisx0201KanaMode {
            StateResult::Handled
        } else if !(event.id == EventId::Char && event.has(INPUT_CHARS) && self.converts(event.code)) && (event.id
            == EventId::JMode || event.has(TOGGLE_KANA) || event.has(TOGGLE_JISX0201_KANA)) {
            StateResult::Transition(StateId::Hirakana)
        } else {
            StateResult::Super(StateId::KanaInput)
        }
    }

    pub closed spec fn ascii_answer(self, event: Event) -> StateResult {
        if event.id == EventId::AsciiMode {
            StateResult::Handled
        } else {
            StateResult::Super(StateId::LatinInput)
        }
    }

    pub closed spec fn jisx0208_latin_answer(self, event: Event) -> StateResult {
        match event.id {
            EventId::Jisx0208LatinMode => StateResult::Handled,
            EventId::AsciiMode => StateResult::Transition(StateId::Ascii),
            _ => if !event.has(INPUT_CHARS) && event.has(SWITCH_TO_ASCII) {
                StateResult::Transition(StateId::Ascii)
            } else {
                StateResult::Super(StateId::LatinInput)
            },
        }
    }

    pub closed spec fn composing_answer(self, event: Event) -> StateResult {
        if event.id == EventId::Ping {
            StateResult::Handled
        } else {
            StateResult::Super(StateId::Top)
        }
    }

    pub closed spec fn recursive_register_answer(self, event: Event) -> StateResult {
        match event.id {
            EventId::Enter => StateResult::Transition(StateId::KanaInput),
            EventId::Cancel => StateResult::DeepHistory(StateId::Composing),
            _ => StateResult::Super(StateId::Top),
        }
    }

    /// The editor stack.
    pub closed spec fn engine_of(self) -> InputEngine {
        self.engine
    }

    /// The shared input context.
    pub closed spec fn context_of(self) -> InputContext {
        self.context
    }

    fn answer(&mut self, state: StateId, event: &Event) -> (r: StateResult)
        requires
            old(self).engine.wf(),
        ensures
            final(self).engine.wf(),
            final(self).system_log == old(self).system_log,
            final(self).event_log == old(self).event_log,
            forall|s: StateId| #[trigger] final(self).probe(s) == old(self).probe(s),
            state == StateId::Top ==> r == StateResult::Handled && *final(self) == *old(self),
            state == StateId::Primary ==> old(self).primary_answer(*final(self), *event, r),
            state == StateId::KanaInput ==> old(self).kana_input_answer(*final(self), *event, r),
            state == StateId::Hirakana ==> r == old(self).hirakana_answer(*event) && *final(self) == *old(self),
            state == StateId::Katakana ==> r == old(self).katakana_answer(*event) && *final(self) == *old(self),
            state == StateId::Jisx0201Kana ==> r == old(self).jisx0201_kana_answer(*event) && *final(self)
                == *old(self),
            state == StateId::LatinInput ==> old(self).latin_input_answer(*final(self), *event, r),
            state == StateId::Ascii ==> r == old(self).ascii_answer(*event) && *final(self) == *old(self),
            state == StateId::Jisx0208Latin ==> r == old(self).jisx0208_latin_answer(*event) && *final(self)
                == *old(self),
            state == StateId::Composing ==> r == old(self).composing_answer(*event) && *final(self) == *old(self),
            state == StateId::Edit ==> old(self).edit_answer(*final(self), *event, r),
            state == StateId::EntryInput ==> old(self).entry_input_answer(*final(self), *event, r),
            state == StateId::KanaEntry ==> old(self).kana_entry_answer(*final(self), *event, r),
            state == StateId::AsciiEntry ==> old(self).ascii_entry_answer(*final(self), *event, r),
            state == StateId::EntryCompletion ==> old(self).entry_completion_answer(*final(self), *event, r),
            state == StateId::SelectCandidate ==> old(self).select_candidate_answer(*final(self), *event, r),
            state == StateId::OkuriInput ==> old(self).okuri_input_answer(*final(self), *event, r),
            state == StateId::EntryRemove ==> old(self).entry_remove_answer(*final(self), *event, r),
            state == StateId::RecursiveRegister ==> r == old(self).recursive_register_answer(*event) && *final(self)
                == *old(self),
    {
        match state {
            StateId::Top => StateResult::Handled,
            StateId::Primary => self.primary(event),
            StateId::KanaInput => self.kana_input(event),
            StateId::Hirakana => self.hirakana(event),
            StateId::Katakana => self.katakana(event),
            StateId::Jisx0201Kana => self.jisx0201_kana(event),
            StateId::LatinInput => self.latin_input(event),
            StateId::Ascii => self.ascii(event),
            StateId::Jisx0208Latin => self.jisx0208_latin(event),
            StateId::Composing => self.composing(event),
            StateId::Edit => self.edit(event),
            StateId::EntryInput => self.entry_input(event),
            StateId::KanaEntry => self.kana_entry(event),
            StateId::AsciiEntry => self.ascii_entry(event),
            StateId::EntryCompletion => self.entry_completion(event),
            StateId::SelectCandidate => self.select_candidate(event),
            StateId::OkuriInput => self.okuri_input(event),
            StateId::EntryRemove => self.entry_remove(event),
            StateId::RecursiveRegister => self.recursive_register(event),
        }
    }

    /// `self` with the event logs of `other`.
    pub closed spec fn relogged(self, other: Self) -> Self {
        Core { system_log: other.system_log, event_log: other.event_log, heard_log: other.heard_log, asked_after_log: other.asked_after_log, ..self }
    }

    /// Leaving candidate selection: only the candidate window is touched
    /// (closed, unless the candidates were shown inline).
    pub closed spec fn window_closed_into(self, n: Self) -> bool {
        &&& n.selector@ == self.selector@
        &&& n.engine == self.engine
        &&& n.context == self.context
        &&& n.completer == self.completer
        &&& n.param == (SessionParameter { window: n.param.window, ..self.param })
    }

    fn react(&mut self, state: StateId, event: SystemEvent) -> (r: StateResult)
        requires
            old(self).engine.wf(),
        ensures
            final(self).engine.wf(),
            final(self).system_log == old(self).system_log,
            final(self).event_log == old(self).event_log,
            event == SystemEvent::Probe ==> *final(self) == *old(self),
            r == system_answer(state, event),
            event == SystemEvent::Init ==> *final(self) == *old(self),
            event == SystemEvent::Exit && state != StateId::Edit && state != StateId::SelectCandidate ==> *final(self)
                == *old(self),
            event == SystemEvent::Exit && state == StateId::Edit ==> final(self).context_of().undo.reading()
                == Seq::<char>::empty() && final(self).context_of().undo.word() == Seq::<char>::empty(),
            event == SystemEvent::Exit && state == StateId::SelectCandidate ==> old(self).window_closed_into(*final(self)),
            event == SystemEvent::Entry ==> match state {
                StateId::Primary => final(self).engine_of().editors() == seq![EditorId::Bottom],
                StateId::Hirakana => final(self).engine_of().mode() == InputMode::Hirakana,
                StateId::Katakana => final(self).engine_of().mode() == InputMode::Katakana,
                StateId::Jisx0201Kana => final(self).engine_of().mode() == InputMode::Jisx0201Kana,
                StateId::Ascii | StateId::AsciiEntry => final(self).engine_of().mode() == InputMode::Ascii,
                StateId::Jisx0208Latin => final(self).engine_of().mode() == InputMode::Jisx0208Latin,
                StateId::EntryInput | StateId::KanaEntry | StateId::EntryCompletion => final(self).engine_of().editors()
                    == seq![EditorId::Bottom, EditorId::Composing],
                StateId::SelectCandidate => final(self).engine_of().editors() == seq![
                    EditorId::Bottom,
                    EditorId::Candidate,
                ],
                StateId::OkuriInput => final(self).engine_of().editors() == seq![
                    EditorId::Bottom,
                    EditorId::Composing,
                    EditorId::Okuri,
                ],
                StateId::EntryRemove => final(self).engine_of().editors() == seq![
                    EditorId::Bottom,
                    EditorId::EntryRemove,
                ],
                StateId::RecursiveRegister => final(self).context_of().registration.progress()
                    == RegistrationState::Started,
                _ => *final(self) == *old(self),
            },
    {
        match (state, event) {
            (StateId::Top, SystemEvent::Probe) => StateResult::Top,
            (StateId::Top, SystemEvent::Init) => StateResult::Initial(StateId::Primary),
            (StateId::Primary, SystemEvent::Probe) => StateResult::Super(StateId::Top),
            (StateId::Primary, SystemEvent::Init) => StateResult::Initial(StateId::KanaInput),
            (StateId::Primary, SystemEvent::Entry) => {
                self.engine.set_state_primary(&mut self.context, &self.param.config);
                StateResult::Handled
            },
            (StateId::KanaInput, SystemEvent::Probe) => StateResult::Super(StateId::Primary),
            (StateId::KanaInput, SystemEvent::Init) => StateResult::ShallowHistory(StateId::Hirakana),
            (StateId::KanaInput, SystemEvent::Exit) => StateResult::SaveHistory,
            (StateId::Hirakana, SystemEvent::Probe) => StateResult::Super(StateId::KanaInput),
            (StateId::Hirakana, SystemEvent::Entry) => {
                self.engine.select_input_mode(&mut self.context, InputMode::Hirakana);
                StateResult::Handled
            },
            (StateId::Katakana, SystemEvent::Probe) => StateResult::Super(StateId::KanaInput),
            (StateId::Katakana, SystemEvent::Entry) => {
                self.engine.select_input_mode(&mut self.context, InputMode::Katakana);
                StateResult::Handled
            },
            (StateId::Jisx0201Kana, SystemEvent::Probe) => StateResult::Super(StateId::KanaInput),
            (StateId::Jisx0201Kana, SystemEvent::Entry) => {
                self.engine.select_input_mode(&mut self.context, InputMode::Jisx0201Kana);
                StateResult::Handled
            },
            (StateId::LatinInput, SystemEvent::Probe) => StateResult::Super(StateId::Primary),
            (StateId::Ascii, SystemEvent::Probe) => StateResult::Super(StateId::LatinInput),
            (StateId::Ascii, SystemEvent::Entry) => {
                self.engine.select_input_mode(&mut self.context, InputMode::Ascii);
                StateResult::Handled
            },
            (StateId::Jisx0208Latin, SystemEvent::Probe) => StateResult::Super(StateId::LatinInput),
            (StateId::Jisx0208Latin, SystemEvent::Entry) => {
                self.engine.select_input_mode(&mut self.context, InputMode::Jisx0208Latin);
                StateResult::Handled
            },
            (StateId::Composing, SystemEvent::Probe) => StateResult::Super(StateId::Top),
            (StateId::Composing, SystemEvent::Exit) => StateResult::SaveHistory,
            (StateId::Edit, SystemEvent::Probe) => StateResult::Super(StateId::Composing),
            (StateId::Edit, SystemEvent::Exit) => {
                self.context.undo.clear();
                StateResult::SaveHistory
            },
            (StateId::EntryInput, SystemEvent::Probe) => StateResult::Super(StateId::Edit),
            (StateId::EntryInput, SystemEvent::Entry) => {
                self.engine.set_state_composing(&mut self.context, &self.param.config);
                StateResult::Handled
            },
            (StateId::EntryInput, SystemEvent::Exit) => StateResult::SaveHistory,
            (StateId::KanaEntry, SystemEvent::Probe) => StateResult::Super(StateId::EntryInput),
            (StateId::KanaEntry, SystemEvent::Entry) => {
                self.engine.set_state_composing(&mut self.context, &self.param.config);
                StateResult::Handled
            },
            (StateId::AsciiEntry, SystemEvent::Probe) => StateResult::Super(StateId::EntryInput),
            (StateId::AsciiEntry, SystemEvent::Entry) => {
                self.engine.select_input_mode(&mut self.context, InputMode::Ascii);
                StateResult::Handled
            },
            (StateId::EntryCompletion, SystemEvent::Probe) => StateResult::Super(StateId::Edit),
            (StateId::EntryCompletion, SystemEvent::Entry) => {
                self.engine.set_state_composing(&mut self.context, &self.param.config);
                StateResult::Handled
            },
            (StateId::SelectCandidate, SystemEvent::Probe) => StateResult::Super(StateId::Composing),
            (StateId::SelectCandidate, SystemEvent::Entry) => {
                self.engine.set_state_select_candidate(&mut self.context, &self.param.config);
                self.selector.show(&mut self.param.window);
                StateResult::Handled
            },
            (StateId::SelectCandidate, SystemEvent::Exit) => {
                self.selector.close(&mut self.param.window);
                StateResult::Handled
            },
            (StateId::OkuriInput, SystemEvent::Probe) => StateResult::Super(StateId::Top),
            (StateId::OkuriInput, SystemEvent::Entry) => {
                self.engine.set_state_okuri(&mut self.context, &self.param.config);
                StateResult::Handled
            },
            (StateId::EntryRemove, SystemEvent::Probe) => StateResult::Super(StateId::Top),
            (StateId::EntryRemove, SystemEvent::Entry) => {
                self.engine.set_state_entry_remove(&mut self.context, &self.param.config);
                StateResult::Handled
            },
            (StateId::RecursiveRegister, SystemEvent::Probe) => StateResult::Super(StateId::Top),
            (StateId::RecursiveRegister, SystemEvent::Entry) => {
                self.engine.set_state_registration(&mut self.context, &self.param.config);
                self.param.messenger.beep();
                StateResult::Handled
            },
            _ => StateResult::Handled,
        }
    }

    /// The next typed byte would complete a kana rule.
    pub closed spec fn converts(self, code: u8) -> bool {
        is_kana_mode(self.engine.queue().mode()) && converted(
            self.param.converter.rules(),
            self.engine.queue().mode(),
            self.engine.queue().pending().push(byte_char(lower(code))),
        ).converted
    }

    fn can_convert(&self, code: u8) -> (r: bool)
        ensures
            r == self.converts(code),
    {
        self.engine.can_convert(&self.param.converter, code)
    }

    fn handle_char(&mut self, code: u8, direct: bool)
        requires
            old(self).engine.wf(),
        ensures
            final(self).system_log == old(self).system_log,
            final(self).event_log == old(self).event_log,
            final(self).engine.wf(),
            final(self).engine.mode() == old(self).engine.mode(),
            final(self).engine.changed() == old(self).engine.changed(),
            final(self).engine.editors() == old(self).engine.editors(),
            final(self).engine.registering() == old(self).engine.registering(),
            final(self).engine.queue().mode() == old(self).engine.queue().mode(),
            final(self).engine.queue().pending() == queue_pending(
                old(self).param.converter.rules(),
                old(self).engine.mode(),
                old(self).engine.queue().pending(),
                code,
                direct,
            ),
            old(self).engine.editors().last() == EditorId::Composing ==> final(self).engine.reading_editor().text()
                == typed_into(
                old(self).engine.reading_editor().text(),
                old(self).engine.reading_editor().pos(),
                queue_fixed(
                    old(self).param.converter.rules(),
                    old(self).engine.mode(),
                    old(self).engine.queue().pending(),
                    code,
                    direct,
                ),
            ),
            final(self).param == old(self).param,
            final(self).selector == old(self).selector,
            final(self).completer == old(self).completer,
    {
        self.engine.handle_char(&mut self.context, &self.param.converter, code, direct);
    }

    /// Commit, then leave for kana input (re-dispatching Enter unless the
    /// newline is suppressed).
    fn commit_transition(&mut self, event: &Event) -> (r: StateResult)
        requires
            old(self).engine.wf(),
        ensures
            final(self).system_log == old(self).system_log,
            final(self).event_log == old(self).event_log,
            final(self).engine.wf(),
            old(self).commits_into(*final(self)),
            r == if event.id == EventId::Enter && !old(self).param.config.suppress_newline_on_commit {
                StateResult::Forward(StateId::KanaInput)
            } else {
                StateResult::Transition(StateId::KanaInput)
            },
    {
        self.commit();
        if event.id == EventId::Enter && !self.param.config.suppress_newline_on_commit {
            StateResult::Forward(StateId::KanaInput)
        } else {
            StateResult::Transition(StateId::KanaInput)
        }
    }

    fn selector_execute(&mut self) -> (found: bool)
        requires
            old(self).engine.wf(),
        ensures
            final(self).system_log == old(self).system_log,
            final(self).event_log == old(self).event_log,
            final(self).engine.wf(),
            final(self).engine.mode() == old(self).engine.mode(),
            final(self).param == (SessionParameter { window: final(self).param.window, ..old(self).param }),
            final(self).completer == old(self).completer,
            exists|q: Entry|
                #![trigger old(self).param.backend.found_for(q.key(), q.okuri())]
                final(self).selector@.candidates == old(self).param.backend.found_for(q.key(), q.okuri()).candidates && (!found
                    ==> final(self).context.entry == q),
            old(self).engine.queue().pending().len() == 0 ==> exists|q: Entry|
                #![trigger old(self).param.backend.found_for(q.key(), q.okuri())]
                old(self).context.entry.normalizes_to(old(self).engine.mode(), q) && final(self).selector@.candidates
                    == old(self).param.backend.found_for(q.key(), q.okuri()).candidates,
            found == (final(self).selector@.candidates.len() > 0),
            found ==> (final(self).selector@.selected() matches Some(c) ==> final(self).context.candidate@ == c),
    {
        let entry = self.engine.selector_query_entry(&mut self.context, &self.param.converter, &self.param.config);
        let found = self.selector.execute(
            &self.param.backend,
            &mut self.param.window,
            &entry,
            self.param.config.max_count_of_inline_candidates,
        );
        if found {
            self.sync_candidate();
        }
        found
    }

    fn sync_candidate(&mut self)
        requires
            old(self).engine.wf(),
        ensures
            final(self).system_log == old(self).system_log,
            final(self).event_log == old(self).event_log,
            final(self).engine.wf(),
            final(self).engine.mode() == old(self).engine.mode(),
            final(self).param == old(self).param,
            final(self).completer == old(self).completer,
            final(self).selector == old(self).selector,
            old(self).selector@.selected() matches Some(c) ==> final(self).context.candidate@ == c,
            old(self).selector@.selected() is None ==> *final(self) == *old(self),
    {
        if let Some(candidate) = self.selector.current() {
            let c = candidate.duplicate();
            self.engine.set_candidate(&mut self.context, &c);
        }
    }

    fn selector_next(&mut self) -> (moved: bool)
        requires
            old(self).engine.wf(),
        ensures
            final(self).system_log == old(self).system_log,
            final(self).event_log == old(self).event_log,
            final(self).engine.wf(),
            final(self).engine.mode() == old(self).engine.mode(),
            final(self).param == (SessionParameter { window: final(self).param.window, ..old(self).param }),
            final(self).completer == old(self).completer,
            (final(self).selector@, moved) == old(self).selector@.next(),
            moved ==> (final(self).selector@.selected() matches Some(c) ==> final(self).context.candidate@ == c),
            !moved ==> final(self).context == old(self).context && final(self).engine == old(self).engine,
    {
        let moved = self.selector.next(&mut self.param.window);
        if moved {
            self.sync_candidate();
        }
        moved
    }

    fn selector_prev(&mut self) -> (moved: bool)
        requires
            old(self).engine.wf(),
        ensures
            final(self).system_log == old(self).system_log,
            final(self).event_log == old(self).event_log,
            final(self).engine.wf(),
            final(self).engine.mode() == old(self).engine.mode(),
            final(self).param == (SessionParameter { window: final(self).param.window, ..old(self).param }),
            final(self).completer == old(self).completer,
            (final(self).selector@, moved) == old(self).selector@.prev(),
            moved ==> (final(self).selector@.selected() matches Some(c) ==> final(self).context.candidate@ == c),
            !moved ==> final(self).context == old(self).context && final(self).engine == old(self).engine,
    {
        let moved = self.selector.prev(&mut self.param.window);
        if moved {
            self.sync_candidate();
        }
        moved
    }

    fn completer_execute(&mut self, limit: usize) -> (found: bool)
        requires
            old(self).engine.wf(),
        ensures
            final(self).system_log == old(self).system_log,
            final(self).event_log == old(self).event_log,
            final(self).engine.wf(),
            final(self).engine.mode() == old(self).engine.mode(),
            final(self).param == old(self).param,
            final(self).selector == old(self).selector,
            exists|q: Seq<char>|
                #![trigger old(self).param.backend.completed(q, limit as nat)]
                final(self).completer.items() == old(self).param.backend.completed(q, limit as nat).result && (!found
                    ==> final(self).context.entry.key() == q),
            final(self).completer.position() == 0,
            old(self).engine.queue().pending().len() == 0 ==> exists|q: Entry|
                #![trigger old(self).param.backend.completed(q.key(), limit as nat)]
                old(self).context.entry.normalizes_to(old(self).engine.mode(), q) && final(self).completer.items()
                    == old(self).param.backend.completed(q.key(), limit as nat).result,
            found == (final(self).completer.items().len() > 0),
            found ==> (final(self).completer.selected() matches Some(e) ==> (e.len() <= i32::MAX
                ==> final(self).context.entry.is_made_of(e, Seq::empty(), Seq::empty()))),
    {
        let query = self.engine.completer_query_string(&mut self.context, &self.param.converter, &self.param.config);
        let found = self.completer.execute(&self.param.backend, query.as_str(), limit);
        if found {
            self.sync_completion();
        }
        found
    }

    fn sync_completion(&mut self)
        requires
            old(self).engine.wf(),
        ensures
            final(self).system_log == old(self).system_log,
            final(self).event_log == old(self).event_log,
            final(self).engine.wf(),
            final(self).engine.mode() == old(self).engine.mode(),
            final(self).param == old(self).param,
            final(self).completer == old(self).completer,
            final(self).selector == old(self).selector,
            old(self).completer.selected() matches Some(e) ==> (e.len() <= i32::MAX ==> final(self).context.entry.is_made_of(
                e,
                Seq::empty(),
                Seq::empty(),
            )),
            old(self).completer.selected() is None ==> *final(self) == *old(self),
    {
        if let Some(entry) = self.completer.current() {
            let e = copy_str(entry);
            self.engine.set_composing_entry(&mut self.context, e.as_str());
        }
    }

    fn primary(&mut self, event: &Event) -> (r: StateResult)
        requires
            old(self).engine.wf(),
        ensures
            final(self).system_log == old(self).system_log,
            final(self).event_log == old(self).event_log,
            final(self).engine.wf(),
            old(self).primary_answer(*final(self), *event, r),
    {
        match event.id {
            EventId::JMode => {
                self.commit();
                StateResult::Handled
            },
            EventId::Enter => {
                self.engine.handle_enter(&mut self.context, &mut self.param.backend, &self.param.converter, &self.param.config);
                StateResult::Handled
            },
            EventId::Cancel => {
                self.engine.handle_cancel(&mut self.context, &self.param.converter, &self.param.config);
                StateResult::Handled
            },
            EventId::Undo => {
                match self.context.undo.undo(&self.param.frontend, &self.param.backend) {
                    UndoResult::KanaEntry => StateResult::Transition(StateId::KanaEntry),
                    UndoResult::AsciiEntry => StateResult::Transition(StateId::AsciiEntry),
                    UndoResult::Failed => {
                        self.param.messenger.send_message("Undo できませんでした");
                        self.context.event_handled = false;
                        StateResult::Handled
                    },
                }
            },
            EventId::Paste => {
                let text = self.param.clipboard.paste_string();
                self.engine.handle_paste(&mut self.context, text.as_str());
                StateResult::Handled
            },
            EventId::Ping => StateResult::Handled,
            EventId::Backspace => {
                self.engine.handle_backspace(&mut self.context);
                StateResult::Handled
            },
            EventId::Delete => {
                self.engine.handle_delete(&mut self.context);
                StateResult::Handled
            },
            EventId::Left => {
                self.engine.handle_cursor_left(&mut self.context);
                StateResult::Handled
            },
            EventId::Right => {
                self.engine.handle_cursor_right(&mut self.context);
                StateResult::Handled
            },
            EventId::Up => {
                self.engine.handle_cursor_up(&mut self.context);
                StateResult::Handled
            },
            EventId::Down => {
                self.engine.handle_cursor_down(&mut self.context);
                StateResult::Handled
            },
            EventId::AsciiMode => StateResult::Transition(StateId::Ascii),
            EventId::HirakanaMode => StateResult::Transition(StateId::Hirakana),
            EventId::KatakanaMode => StateResult::Transition(StateId::Katakana),
            EventId::Jisx0201KanaMode => StateResult::Transition(StateId::Jisx0201Kana),
            EventId::Jisx0208LatinMode => StateResult::Transition(StateId::Jisx0208Latin),
            _ => {
                // Other events reset the engine and pass through.
                self.engine.reset(&mut self.context, &self.param.converter, &self.param.config);
                StateResult::Handled
            },
        }
    }

    fn kana_input(&mut self, event: &Event) -> (r: StateResult)
        requires
            old(self).engine.wf(),
        ensures
            final(self).system_log == old(self).system_log,
            final(self).event_log == old(self).event_log,
            final(self).engine.wf(),
            old(self).kana_input_answer(*final(self), *event, r),
    {
        if event.id == EventId::Char {
            if !self.can_convert(event.code) {
                if event.is_switch_to_ascii() {
                    return StateResult::Transition(StateId::Ascii);
                }
                if event.is_switch_to_jisx0208_latin() {
                    return StateResult::Transition(StateId::Jisx0208Latin);
                }
                if event.is_enter_abbrev() {
                    return StateResult::Transition(StateId::AsciiEntry);
                }
                if event.is_enter_japanese() {
                    return StateResult::Transition(StateId::KanaEntry);
                }
            }
            if event.is_sticky_key() {
                return StateResult::Transition(StateId::KanaEntry);
            }
            if event.is_upper_cases() {
                return StateResult::Forward(StateId::KanaEntry);
            }
            if event.is_input_chars() {
                self.handle_char(event.code, event.is_direct());
                return StateResult::Handled;
            }
        }
        StateResult::Super(StateId::Primary)
    }

    fn hirakana(&self, event: &Event) -> (r: StateResult)
        ensures
            r == self.hirakana_answer(*event),
    {
        match event.id {
            EventId::HirakanaMode => StateResult::Handled,
            EventId::Char => {
                if !(event.is_input_chars() && self.can_convert(event.code)) {
                    if event.is_toggle_kana() {
                        return StateResult::Transition(StateId::Katakana);
                    }
                    if event.is_toggle_jisx0201_kana() {
                        return StateResult::Transition(StateId::Jisx0201Kana);
                    }
                }
                StateResult::Super(StateId::KanaInput)
            },
            _ => StateResult::Super(StateId::KanaInput),
        }
    }

    fn katakana(&self, event: &Event) -> (r: StateResult)
        ensures
            r == self.katakana_answer(*event),
    {
        match event.id {
            EventId::KatakanaMode => StateResult::Handled,
            _ => {
                let converting = event.id == EventId::Char && event.is_input_chars() && self.can_convert(event.code);
                if !converting {
                    if event.id == EventId::JMode || event.is_toggle_kana() {
                        return StateResult::Transition(StateId::Hirakana);
                    }
                    if event.is_toggle_jisx0201_kana() {
                        return StateResult::Transition(StateId::Jisx0201Kana);
                    }
                }
                StateResult::Super(StateId::KanaInput)
            },
        }
    }

    fn jisx0201_kana(&self, event: &Event) -> (r: StateResult)
        ensures
            r == self.jisx0201_kana_answer(*event),
    {
        match event.id {
            EventId::Jisx0201KanaMode => StateResult::Handled,
            _ => {
                let converting = event.id == EventId::Char && event.is_input_chars() && self.can_convert(event.code);
                if !converting && (event.id == EventId::JMode || event.is_toggle_kana() || event.is_toggle_jisx0201_kana()) {
                    return StateResult::Transition(StateId::Hirakana);
                }
                StateResult::Super(StateId::KanaInput)
            },
        }
    }

    fn latin_input(&mut self, event: &Event) -> (r: StateResult)
        requires
            old(self).engine.wf(),
        ensures
            final(self).system_log == old(self).system_log,
            final(self).event_log == old(self).event_log,
            final(self).engine.wf(),
            old(self).latin_input_answer(*final(self), *event, r),
    {
        match event.id {
            EventId::JMode => StateResult::Transition(StateId::Hirakana),
            EventId::Char => {
                if event.is_input_chars() {
                    let code = if event.option == HandleOption::CapsLock {
                        to_upper(event.code)
                    } else {
                        event.code
                    };
                    self.handle_char(code, event.is_direct());
                    StateResult::Handled
                } else {
                    StateResult::Super(StateId::Primary)
                }
            },
            _ => StateResult::Super(StateId::Primary),
        }
    }

    fn ascii(&self, event: &Event) -> (r: StateResult)
        ensures
            r == self.ascii_answer(*event),
    {
        match event.id {
            EventId::AsciiMode => StateResult::Handled,
            _ => StateResult::Super(StateId::LatinInput),
        }
    }

    fn jisx0208_latin(&self, event: &Event) -> (r: StateResult)
        ensures
            r == self.jisx0208_latin_answer(*event),
    {
        match event.id {
            EventId::Jisx0208LatinMode => StateResult::Handled,
            EventId::AsciiMode => StateResult::Transition(StateId::Ascii),
            _ => {
                if !event.is_input_chars() && event.is_switch_to_ascii() {
                    return StateResult::Transition(StateId::Ascii);
                }
                StateResult::Super(StateId::LatinInput)
            },
        }
    }

    fn composing(&self, event: &Event) -> (r: StateResult)
        ensures
            r == self.composing_answer(*event),
    {
        match event.id {
            EventId::Ping => StateResult::Handled,
            _ => StateResult::Super(StateId::Top),
        }
    }

    fn edit(&mut self, event: &Event) -> (r: StateResult)
        requires
            old(self).engine.wf(),
        ensures
            final(self).system_log == old(self).system_log,
            final(self).event_log == old(self).event_log,
            final(self).engine.wf(),
            old(self).edit_answer(*final(self), *event, r),
    {
        match event.id {
            EventId::Enter | EventId::JMode => self.commit_transition(event),
            EventId::Cancel => {
                if self.context.undo.is_active() {
                    let candidate = copy_str(self.context.undo.candidate());
                    self.context.output.fix(candidate.as_str());
                }
                StateResult::Transition(StateId::KanaInput)
            },
            EventId::Backspace => {
                self.engine.handle_backspace(&mut self.context);
                if self.context.needs_setback {
                    StateResult::Transition(StateId::KanaInput)
                } else {
                    StateResult::Handled
                }
            },
            EventId::Delete => {
                self.engine.handle_delete(&mut self.context);
                StateResult::Handled
            },
            EventId::Left => {
                self.engine.handle_cursor_left(&mut self.context);
                StateResult::Handled
            },
            EventId::Right => {
                self.engine.handle_cursor_right(&mut self.context);
                StateResult::Handled
            },
            EventId::Up => {
                self.engine.handle_cursor_up(&mut self.context);
                StateResult::Handled
            },
            EventId::Down => {
                self.engine.handle_cursor_down(&mut self.context);
                StateResult::Handled
            },
            EventId::Char => {
                if event.is_comp_conversion() {
                    self.completer_execute(1);
                }
                if event.is_next_candidate() || event.is_comp_conversion() {
                    if self.context.entry.is_empty() {
                        return StateResult::Transition(StateId::KanaInput);
                    }
                    if self.selector_execute() {
                        return StateResult::Transition(StateId::SelectCandidate);
                    }
                    return StateResult::Transition(StateId::RecursiveRegister);
                }
                StateResult::Handled
            },
            _ => StateResult::Super(StateId::Composing),
        }
    }

    fn entry_input(&mut self, event: &Event) -> (r: StateResult)
        requires
            old(self).engine.wf(),
        ensures
            final(self).system_log == old(self).system_log,
            final(self).event_log == old(self).event_log,
            final(self).engine.wf(),
            old(self).entry_input_answer(*final(self), *event, r),
    {
        match event.id {
            EventId::Tab => {
                if self.completer_execute(0) {
                    StateResult::Transition(StateId::EntryCompletion)
                } else {
                    StateResult::Handled
                }
            },
            _ => StateResult::Super(StateId::Edit),
        }
    }

    fn kana_entry(&mut self, event: &Event) -> (r: StateResult)
        requires
            old(self).engine.wf(),
        ensures
            final(self).system_log == old(self).system_log,
            final(self).event_log == old(self).event_log,
            final(self).engine.wf(),
            old(self).kana_entry_answer(*final(self), *event, r),
    {
        if event.id == EventId::Char {
            if event.is_next_candidate() {
                return StateResult::Super(StateId::EntryInput);
            }
            if event.is_toggle_kana() {
                self.engine.toggle_kana(&mut self.context, &mut self.param.backend, &self.param.converter, &self.param.config);
                return StateResult::Transition(StateId::KanaInput);
            }
            if event.is_toggle_jisx0201_kana() {
                self.engine.toggle_jisx0201_kana(
                    &mut self.context,
                    &mut self.param.backend,
                    &self.param.converter,
                    &self.param.config,
                );
                return StateResult::Transition(StateId::KanaInput);
            }
            if event.is_sticky_key() {
                if self.context.entry.is_empty() {
                    if event.is_input_chars() {
                        self.handle_char(event.code, event.is_direct());
                    }
                    self.commit();
                    return StateResult::Transition(StateId::KanaInput);
                } else {
                    return StateResult::Transition(StateId::OkuriInput);
                }
            }
            if event.is_upper_cases() && !self.context.entry.is_empty() {
                return StateResult::Forward(StateId::OkuriInput);
            }
            if !self.can_convert(event.code) {
                if event.is_switch_to_ascii() {
                    self.commit();
                    return StateResult::Transition(StateId::Ascii);
                }
                if event.is_switch_to_jisx0208_latin() {
                    self.commit();
                    return StateResult::Transition(StateId::Jisx0208Latin);
                }
                if event.is_enter_japanese() {
                    if self.param.config.handle_recursive_entry_as_okuri && !self.context.entry.is_empty() {
                        return StateResult::Transition(StateId::OkuriInput);
                    }
                    self.commit();
                    return StateResult::Forward(StateId::KanaInput);
                }
            }
            if event.is_input_chars() {
                self.handle_char(event.code, event.is_direct());
                return StateResult::Handled;
            }
        }
        StateResult::Super(StateId::EntryInput)
    }

    fn ascii_entry(&mut self, event: &Event) -> (r: StateResult)
        requires
            old(self).engine.wf(),
        ensures
            final(self).system_log == old(self).system_log,
            final(self).event_log == old(self).event_log,
            final(self).engine.wf(),
            old(self).ascii_entry_answer(*final(self), *event, r),
    {
        if event.id == EventId::Char {
            if event.is_next_candidate() {
                return StateResult::Super(StateId::EntryInput);
            }
            if event.is_toggle_jisx0201_kana() && !self.context.entry.is_empty() {
                self.engine.toggle_jisx0201_kana(
                    &mut self.context,
                    &mut self.param.backend,
                    &self.param.converter,
                    &self.param.config,
                );
                return StateResult::Transition(StateId::KanaInput);
            }
            if event.is_input_chars() {
                self.handle_char(event.code, event.is_direct());
                return StateResult::Handled;
            }
        }
        StateResult::Super(StateId::EntryInput)
    }

    fn entry_completion(&mut self, event: &Event) -> (r: StateResult)
        requires
            old(self).engine.wf(),
        ensures
            final(self).system_log == old(self).system_log,
            final(self).event_log == old(self).event_log,
            final(self).engine.wf(),
            old(self).entry_completion_answer(*final(self), *event, r),
    {
        if event.id == EventId::Tab || event.id == EventId::Char {
            if event.id == EventId::Tab || event.is_next_completion() {
                self.completer.next();
                self.sync_completion();
                return StateResult::Handled;
            }
            if event.is_prev_completion() {
                self.completer.prev();
                self.sync_completion();
                return StateResult::Handled;
            }
            if event.is_next_candidate() {
                return StateResult::Super(StateId::Edit);
            }
            if event.is_remove_trigger() {
                if self.completer.remove(&mut self.param.backend) {
                    self.param.messenger.send_message("見出し語を削除しました");
                    return StateResult::Transition(StateId::KanaInput);
                } else {
                    return StateResult::Handled;
                }
            }
        }
        // Everything else replays into the previous entry state.
        StateResult::DeepForward(StateId::EntryInput)
    }

    fn select_candidate(&mut self, event: &Event) -> (r: StateResult)
        requires
            old(self).engine.wf(),
        ensures
            final(self).system_log == old(self).system_log,
            final(self).event_log == old(self).event_log,
            final(self).engine.wf(),
            old(self).select_candidate_answer(*final(self), *event, r),
    {
        match event.id {
            EventId::Enter | EventId::JMode => self.commit_transition(event),
            EventId::Cancel => StateResult::DeepHistory(StateId::EntryInput),
            EventId::Left => {
                self.selector.cursor_left(&mut self.param.window);
                self.sync_candidate();
                StateResult::Handled
            },
            EventId::Right => {
                self.selector.cursor_right(&mut self.param.window);
                self.sync_candidate();
                StateResult::Handled
            },
            EventId::Up => {
                self.selector.cursor_up(&mut self.param.window);
                self.sync_candidate();
                StateResult::Handled
            },
            EventId::Down => {
                self.selector.cursor_down(&mut self.param.window);
                self.sync_candidate();
                StateResult::Handled
            },
            EventId::Backspace | EventId::Char => {
                if event.id == EventId::Backspace && self.selector.is_inline()
                    && self.param.config.inline_backspace_implies_commit {
                    self.commit();
                    return StateResult::Forward(StateId::KanaInput);
                }
                if event.id == EventId::Backspace || event.is_prev_candidate() {
                    if !self.selector_prev() {
                        return StateResult::DeepHistory(StateId::EntryInput);
                    }
                    return StateResult::Handled;
                }
                if event.is_next_candidate() {
                    if !self.selector_next() {
                        return StateResult::Transition(StateId::RecursiveRegister);
                    }
                    return StateResult::Handled;
                }
                if event.is_remove_trigger() {
                    return StateResult::Transition(StateId::EntryRemove);
                }
                if event.is_input_chars() || event.is_toggle_jisx0201_kana() {
                    if self.selector.is_inline() {
                        self.commit();
                        return StateResult::DeepForward(StateId::KanaInput);
                    }
                    if self.selector.select(&mut self.param.window, event.code) {
                        self.sync_candidate();
                        self.commit();
                        return StateResult::Transition(StateId::KanaInput);
                    }
                }
                StateResult::Handled
            },
            _ => StateResult::Super(StateId::Composing),
        }
    }

    fn okuri_input(&mut self, event: &Event) -> (r: StateResult)
        requires
            old(self).engine.wf(),
        ensures
            final(self).system_log == old(self).system_log,
            final(self).event_log == old(self).event_log,
            final(self).engine.wf(),
            old(self).okuri_input_answer(*final(self), *event, r),
    {
        match event.id {
            EventId::Enter | EventId::JMode => self.commit_transition(event),
            EventId::Cancel => {
                self.engine.reset(&mut self.context, &self.param.converter, &self.param.config);
                StateResult::Transition(StateId::KanaEntry)
            },
            EventId::Tab | EventId::Delete | EventId::Left | EventId::Right | EventId::Up | EventId::Down => {
                StateResult::Handled
            },
            EventId::Backspace => {
                self.engine.handle_backspace(&mut self.context);
                if self.context.needs_setback {
                    StateResult::Transition(StateId::KanaEntry)
                } else {
                    StateResult::Handled
                }
            },
            EventId::Char => {
                if event.is_input_chars() {
                    self.handle_char(event.code, event.is_direct());
                }
                if event.is_next_candidate() || self.engine.is_okuri_complete() {
                    if self.selector_execute() {
                        return StateResult::Transition(StateId::SelectCandidate);
                    }
                    return StateResult::Transition(StateId::RecursiveRegister);
                }
                StateResult::Handled
            },
            _ => StateResult::Super(StateId::Top),
        }
    }

    fn entry_remove(&mut self, event: &Event) -> (r: StateResult)
        requires
            old(self).engine.wf(),
        ensures
            final(self).system_log == old(self).system_log,
            final(self).event_log == old(self).event_log,
            final(self).engine.wf(),
            old(self).entry_remove_answer(*final(self), *event, r),
    {
        match event.id {
            EventId::Enter => {
                self.commit();
                if !self.context.needs_setback {
                    self.param.messenger.send_message("単語を削除しました");
                    return StateResult::Transition(StateId::KanaInput);
                }
                StateResult::Transition(StateId::SelectCandidate)
            },
            EventId::Cancel => StateResult::Transition(StateId::SelectCandidate),
            EventId::Backspace => {
                self.engine.handle_backspace(&mut self.context);
                StateResult::Handled
            },
            EventId::Char => {
                if event.is_input_chars() {
                    // The confirmation is typed in raw ASCII.
                    self.handle_char(event.code, true);
                    StateResult::Handled
                } else {
                    StateResult::Super(StateId::Top)
                }
            },
            _ => StateResult::Super(StateId::Top),
        }
    }

    fn recursive_register(&self, event: &Event) -> (r: StateResult)
        ensures
            r == self.recursive_register_answer(*event),
    {
        match event.id {
            EventId::Enter => StateResult::Transition(StateId::KanaInput),
            EventId::Cancel => StateResult::DeepHistory(StateId::Composing),
            _ => StateResult::Super(StateId::Top),
        }
    }
}

impl<F: FrontEnd, W: CandidateWindow, M: Messenger, C: Clipboard, A: Annotator, D: DynamicCompletor> StateHandler for Core<
    F,
    W,
    M,
    C,
    A,
    D,
> {
    type Event = Event;

    closed spec fn inv(&self) -> bool {
        self.engine.wf()
    }

    open spec fn probe(&self, state: StateId) -> StateResult {
        super_of(state)
    }

    closed spec fn calls(&self) -> Seq<(StateId, SystemEvent)> {
        self.system_log@
    }

    closed spec fn asked(&self) -> Seq<(StateId, StateResult)> {
        self.event_log@
    }

    closed spec fn heard(&self) -> Seq<Event> {
        self.heard_log@
    }

    closed spec fn asked_after(&self) -> Seq<nat> {
        self.asked_after_log@
    }

    fn initial_state(&self) -> (r: StateId)
        ensures
            r == StateId::Primary,
    {
        StateId::Primary
    }

    fn handle(&mut self, state: StateId, event: &Event) -> (r: StateResult)
        ensures
            state == StateId::Top ==> r == StateResult::Handled && final(self).relogged(*old(self)) == *old(self),
            state == StateId::Primary ==> old(self).primary_answer(final(self).relogged(*old(self)), *event, r),
            state == StateId::KanaInput ==> old(self).kana_input_answer(final(self).relogged(*old(self)), *event, r),
            state == StateId::Hirakana ==> r == old(self).hirakana_answer(*event) && final(self).relogged(*old(self)) == *old(self),
            state == StateId::Katakana ==> r == old(self).katakana_answer(*event) && final(self).relogged(*old(self)) == *old(self),
            state == StateId::Jisx0201Kana ==> r == old(self).jisx0201_kana_answer(*event) && final(self).relogged(*old(self))
                == *old(self),
            state == StateId::LatinInput ==> old(self).latin_input_answer(final(self).relogged(*old(self)), *event, r),
            state == StateId::Ascii ==> r == old(self).ascii_answer(*event) && final(self).relogged(*old(self)) == *old(self),
            state == StateId::Jisx0208Latin ==> r == old(self).jisx0208_latin_answer(*event) && final(self).relogged(*old(self))
                == *old(self),
            state == StateId::Composing ==> r == old(self).composing_answer(*event) && final(self).relogged(*old(self)) == *old(self),
            state == StateId::Edit ==> old(self).edit_answer(final(self).relogged(*old(self)), *event, r),
            state == StateId::EntryInput ==> old(self).entry_input_answer(final(self).relogged(*old(self)), *event, r),
            state == StateId::KanaEntry ==> old(self).kana_entry_answer(final(self).relogged(*old(self)), *event, r),
            state == StateId::AsciiEntry ==> old(self).ascii_entry_answer(final(self).relogged(*old(self)), *event, r),
            state == StateId::EntryCompletion ==> old(self).entry_completion_answer(final(self).relogged(*old(self)), *event, r),
            state == StateId::SelectCandidate ==> old(self).select_candidate_answer(final(self).relogged(*old(self)), *event, r),
            state == StateId::OkuriInput ==> old(self).okuri_input_answer(final(self).relogged(*old(self)), *event, r),
            state == StateId::EntryRemove ==> old(self).entry_remove_answer(final(self).relogged(*old(self)), *event, r),
            state == StateId::RecursiveRegister ==> r == old(self).recursive_register_answer(*event) && final(self).relogged(*old(self))
                == *old(self),
    {
        let ghost heard0 = self.heard_log@;
        let ghost after0 = self.asked_after_log@;
        let ghost delivered = self.system_log@.len();
        let r = self.answer(state, event);
        self.event_log = Ghost(self.event_log@.push((state, r)));
        self.heard_log = Ghost(heard0.push(*event));
        self.asked_after_log = Ghost(after0.push(delivered));
        r
    }

    fn handle_system(&mut self, state: StateId, event: SystemEvent) -> (r: StateResult)
        ensures
            r == system_answer(state, event),
            event == SystemEvent::Init ==> final(self).relogged(*old(self)) == *old(self),
            event == SystemEvent::Exit && state != StateId::Edit && state != StateId::SelectCandidate ==> final(self).relogged(
                *old(self),
            ) == *old(self),
            event == SystemEvent::Exit && state == StateId::Edit ==> final(self).context_of().undo.reading()
                == Seq::<char>::empty() && final(self).context_of().undo.word() == Seq::<char>::empty(),
            event == SystemEvent::Exit && state == StateId::SelectCandidate ==> old(self).window_closed_into(*final(self)),
            event == SystemEvent::Entry ==> match state {
                StateId::Primary => final(self).engine_of().editors() == seq![EditorId::Bottom],
                StateId::Hirakana => final(self).engine_of().mode() == InputMode::Hirakana,
                StateId::Katakana => final(self).engine_of().mode() == InputMode::Katakana,
                StateId::Jisx0201Kana => final(self).engine_of().mode() == InputMode::Jisx0201Kana,
                StateId::Ascii | StateId::AsciiEntry => final(self).engine_of().mode() == InputMode::Ascii,
                StateId::Jisx0208Latin => final(self).engine_of().mode() == InputMode::Jisx0208Latin,
                StateId::EntryInput | StateId::KanaEntry | StateId::EntryCompletion => final(self).engine_of().editors()
                    == seq![EditorId::Bottom, EditorId::Composing],
                StateId::SelectCandidate => final(self).engine_of().editors() == seq![
                    EditorId::Bottom,
                    EditorId::Candidate,
                ],
                StateId::OkuriInput => final(self).engine_of().editors() == seq![
                    EditorId::Bottom,
                    EditorId::Composing,
                    EditorId::Okuri,
                ],
                StateId::EntryRemove => final(self).engine_of().editors() == seq![
                    EditorId::Bottom,
                    EditorId::EntryRemove,
                ],
                StateId::RecursiveRegister => final(self).context_of().registration.progress()
                    == RegistrationState::Started,
                _ => final(self).relogged(*old(self)) == *old(self),
            },
    {
        let ghost heard0 = self.heard_log@;
        let ghost after0 = self.asked_after_log@;
        let r = self.react(state, event);
        if event != SystemEvent::Probe {
            self.system_log = Ghost(self.system_log@.push((state, event)));
        }
        self.heard_log = Ghost(heard0);
        self.asked_after_log = Ghost(after0);
        r
    }
}

/// What the session's state handlers answer to a system event.
pub open spec fn system_answer(state: StateId, event: SystemEvent) -> StateResult {
    match event {
        SystemEvent::Probe => super_of(state),
        SystemEvent::Init => match state {
            StateId::Top => StateResult::Initial(StateId::Primary),
            StateId::Primary => StateResult::Initial(StateId::KanaInput),
            StateId::KanaInput => StateResult::ShallowHistory(StateId::Hirakana),
            _ => StateResult::Handled,
        },
        SystemEvent::Exit => match state {
            StateId::KanaInput | StateId::Composing | StateId::Edit | StateId::EntryInput => StateResult::SaveHistory,
            _ => StateResult::Handled,
        },
        SystemEvent::Entry => StateResult::Handled,
    }
}

/// The super state of each session state, as its handler answers a
/// probe.
pub open spec fn super_of(state: StateId) -> StateResult {
    match state {
        StateId::Top => StateResult::Top,
        StateId::Primary => StateResult::Super(StateId::Top),
        StateId::KanaInput => StateResult::Super(StateId::Primary),
        StateId::Hirakana => StateResult::Super(StateId::KanaInput),
        StateId::Katakana => StateResult::Super(StateId::KanaInput),
        StateId::Jisx0201Kana => StateResult::Super(StateId::KanaInput),
        StateId::LatinInput => StateResult::Super(StateId::Primary),
        StateId::Ascii => StateResult::Super(StateId::LatinInput),
        StateId::Jisx0208Latin => StateResult::Super(StateId::LatinInput),
        StateId::Composing => StateResult::Super(StateId::Top),
        StateId::Edit => StateResult::Super(StateId::Composing),
        StateId::EntryInput => StateResult::Super(StateId::Edit),
        StateId::KanaEntry => StateResult::Super(StateId::EntryInput),
        StateId::AsciiEntry => StateResult::Super(StateId::EntryInput),
        StateId::EntryCompletion => StateResult::Super(StateId::Edit),
        StateId::SelectCandidate => StateResult::Super(StateId::Composing),
        StateId::OkuriInput => StateResult::Super(StateId::Top),
        StateId::EntryRemove => StateResult::Super(StateId::Top),
        StateId::RecursiveRegister => StateResult::Super(StateId::Top),
    }
}

/// The characters `a` and `b` share at their start.
pub open spec fn common_prefix(a: Seq<char>, b: Seq<char>) -> Seq<char>
    decreases a.len(),
{
    if a.len() == 0 || b.len() == 0 || a[0] != b[0] {
        Seq::empty()
    } else {
        seq![a[0]] + common_prefix(a.skip(1), b.skip(1))
    }
}

fn common_prefix_of(a: &str, b: &str) -> (r: String)
    ensures
        r@ == common_prefix(a@, b@),
{
    let va = chars_of(a);
    let vb = chars_of(b);
    let mut out: Vec<char> = Vec::new();
    let mut i: usize = 0;
    assert(va@.skip(0) =~= va@);
    assert(vb@.skip(0) =~= vb@);
    assert(out@ + common_prefix(va@, vb@) =~= common_prefix(va@, vb@));
    while i < va.len() && i < vb.len() && va[i] == vb[i]
        invariant
            i <= va@.len(),
            i <= vb@.len(),
            common_prefix(va@, vb@) == out@ + common_prefix(va@.skip(i as int), vb@.skip(i as int)),
        decreases va.len() - i,
    {
        let ghost (sa, sb) = (va@.skip(i as int), vb@.skip(i as int));
        assert(sa.skip(1) =~= va@.skip(i + 1));
        assert(sb.skip(1) =~= vb@.skip(i + 1));
        out.push(va[i]);
        i += 1;
    }
    assert(common_prefix(va@.skip(i as int), vb@.skip(i as int)) =~= Seq::<char>::empty());
    assert(out@ + Seq::<char>::empty() =~= out@);
    string_of(out.as_slice())
}

/// The input session.
pub struct Session<F, W, M, C, A, D> {
    core: Core<F, W, M, C, A, D>,
    machine: StateMachine,
    saved: Vec<Level>,
    in_event: bool,
}

impl<F: FrontEnd, W: CandidateWindow, M: Messenger, C: Clipboard, A: Annotator, D: DynamicCompletor> Session<
    F,
    W,
    M,
    C,
    A,
    D,
> {
    /// The editor stacks of all levels are consistent.
    pub closed spec fn wf(self) -> bool {
        &&& self.core.engine.wf()
        &&& forall|i: int| 0 <= i < self.saved@.len() ==> #[trigger] self.saved@[i].engine.wf()
    }

    /// Levels of nested registration (1 at the top level).
    pub closed spec fn depth(self) -> nat {
        self.saved@.len() + 1
    }

    pub closed spec fn composing(self) -> Seq<char> {
        self.core.context.output@.composing
    }

    pub closed spec fn frontend_view(self) -> F {
        self.core.param.frontend
    }

    /// Committed text not yet handed to the front end.
    /// The user events handed to the session's states so far, one per
    /// state asked.
    pub closed spec fn heard(self) -> Seq<Event> {
        self.core.heard_log@
    }

    pub closed spec fn unsent(self) -> Seq<char> {
        self.core.context.output@.fixed
    }

    pub closed spec fn backend_view(self) -> Backend {
        self.core.param.backend
    }

    pub closed spec fn converter_view(self) -> RomanKanaConverter {
        self.core.param.converter
    }

    pub closed spec fn config_view(self) -> Config {
        self.core.param.config
    }

    /// The input mode of the active level.
    pub closed spec fn mode(self) -> InputMode {
        self.core.engine.mode()
    }

    /// The last event was taken as handled by the engine.
    pub closed spec fn handled(self) -> bool {
        self.core.context.event_handled
    }

    /// An event is being processed.
    pub closed spec fn busy(self) -> bool {
        self.in_event
    }

    pub fn new(param: SessionParameter<F, W, M, C, A, D>) -> (s: Session<F, W, M, C, A, D>)
        ensures
            s.wf(),
            s.depth() == 1,
            s.mode() == InputMode::Hirakana,
            !s.busy(),
            s.backend_view() == param.backend,
            s.converter_view() == param.converter,
            s.config_view() == param.config,
            s.frontend_view() == param.frontend,
            s.composing().len() == 0,
    {
        let mut engine = InputEngine::new(BottomEditor::Primary(PrimaryEditor));
        let mut context = InputContext::new();
        engine.set_state_primary(&mut context, &param.config);
        let core = Core {
            param,
            context,
            engine,
            selector: Selector::new(),
            completer: Completer::new(),
            system_log: Ghost(Seq::empty()),
            event_log: Ghost(Seq::empty()),
            heard_log: Ghost(Seq::empty()),
            asked_after_log: Ghost(Seq::empty()),
        };
        Session { core, machine: StateMachine::new(StateId::Top), saved: Vec::new(), in_event: false }
    }

    /// Start a nested level around `bottom`.
    fn push_level(&mut self, bottom: BottomEditor)
        requires
            old(self).wf(),
        ensures
            final(self).heard() == old(self).heard(),
            final(self).wf(),
            final(self).depth() == old(self).depth() + 1,
            final(self).core.engine.registering() == (bottom is Register),
            final(self).busy() == old(self).busy(),
    {
        let mut engine = InputEngine::new(bottom);
        engine.set_state_primary(&mut self.core.context, &self.core.param.config);
        let mut machine = StateMachine::new(StateId::Top);
        let mut selector = Selector::new();
        let mut completer = Completer::new();
        std::mem::swap(&mut engine, &mut self.core.engine);
        std::mem::swap(&mut machine, &mut self.machine);
        std::mem::swap(&mut selector, &mut self.core.selector);
        std::mem::swap(&mut completer, &mut self.core.completer);
        self.saved.push(Level { engine, machine, selector, completer });
    }

    /// Return to the level below.
    fn pop_level(&mut self)
        requires
            old(self).wf(),
            old(self).depth() > 1,
        ensures
            final(self).heard() == old(self).heard(),
            final(self).wf(),
            final(self).depth() == old(self).depth() - 1,
            final(self).backend_view() == old(self).backend_view(),
            final(self).config_view() == old(self).config_view(),
            final(self).busy() == old(self).busy(),
    {
        let level = self.saved.pop().unwrap();
        let Level { engine, machine, selector, completer } = level;
        self.core.engine = engine;
        self.machine = machine;
        self.core.selector = selector;
        self.core.completer = completer;
    }

    fn dispatch_top(&mut self, event: &Event)
        requires
            old(self).wf(),
        ensures
            final(self).heard().len() > old(self).heard().len(),
            old(self).heard().is_prefix_of(final(self).heard()),
            forall|i: int| old(self).heard().len() <= i < final(self).heard().len() ==> final(self).heard()[i] == *event,
            final(self).wf(),
            final(self).depth() == old(self).depth(),
            final(self).busy() == old(self).busy(),
    {
        let ghost h0 = self.core.heard_log@;
        self.machine.dispatch(&mut self.core, event);
        proof {
            let k = (self.core.event_log@.len() - old(self).core.event_log@.len()) as nat;
            assert(self.core.heard_log@ == h0 + Seq::new(k, |i: int| *event));
            assert(self.core.heard_log@.subrange(0, h0.len() as int) =~= h0);
            assert forall|i: int| h0.len() <= i < self.core.heard_log@.len() implies self.core.heard_log@[i] == *event by {
                assert(self.core.heard_log@[i] == Seq::new(k, |j: int| *event)[i - h0.len()]);
            }
        }
    }

    /// Process one input event. Returns whether the event was consumed.
    pub fn handle_event(&mut self, event: &Event) -> (r: bool)
        requires
            old(self).wf(),
        ensures
            final(self).wf(),
            old(self).busy() ==> !r && final(self).heard() == old(self).heard(),
            !old(self).busy() ==> final(self).heard().len() > old(self).heard().len() && old(self).heard().is_prefix_of(
                final(self).heard(),
            ) && final(self).heard()[old(self).heard().len() as int] == *event,
            !old(self).busy() ==> final(self).unsent() == Seq::<char>::empty(),
            !old(self).busy() && final(self).composing().len() > 0 ==> final(self).frontend_view().preedit()
                == final(self).composing(),
            !old(self).busy() ==> !final(self).busy() && r == (final(self).depth() != 1 || final(self).composing().len() > 0
                || event.option == HandleOption::AlwaysHandled || (event.option != HandleOption::PseudoHandled
                && final(self).handled())),
    {
        if self.in_event {
            return false;
        }
        self.in_event = true;
        self.core.context.event_handled = true;
        self.core.context.needs_setback = false;
        self.dispatch_top(event);
        let ghost mid = self.heard();
        self.end_event();
        self.output();
        proof {
            assert(mid[old(self).heard().len() as int] == *event);
            assert(self.heard()[old(self).heard().len() as int] == mid[old(self).heard().len() as int]);
            crate::machine::lemma_prefix_trans(old(self).heard(), mid, self.heard());
        }
        self.in_event = false;
        self.result(event)
    }

    /// Commit pending text.
    pub fn commit(&mut self)
        requires
            old(self).wf(),
        ensures
            final(self).wf(),
            !old(self).busy() ==> !final(self).busy() && final(self).composing().len() == 0,
            !old(self).busy() ==> final(self).unsent() == Seq::<char>::empty(),
            !old(self).busy() ==> final(self).heard().len() > old(self).heard().len() && old(self).heard().is_prefix_of(
                final(self).heard(),
            ) && final(self).heard()[old(self).heard().len() as int].id == EventId::Enter,
            old(self).busy() ==> final(self).heard() == old(self).heard(),
    {
        let enter = Event::new(EventId::Enter, 0, 0);
        self.handle_event(&enter);
        if self.core.context.output.is_composing() {
            self.clear();
        }
    }

    /// Reset to the initial state.
    pub fn clear(&mut self)
        requires
            old(self).wf(),
        ensures
            final(self).heard() == old(self).heard(),
            !old(self).busy() ==> final(self).unsent() == Seq::<char>::empty(),
            final(self).wf(),
            old(self).busy() ==> *final(self) == *old(self),
            !old(self).busy() ==> final(self).depth() == 1 && final(self).mode() == InputMode::Hirakana
                && final(self).backend_view() == old(self).backend_view()
                && final(self).config_view() == old(self).config_view() && !final(self).busy()
                && final(self).composing().len() == 0,
    {
        if self.in_event {
            return;
        }
        self.in_event = true;
        while self.saved.len() > 0
            invariant
                self.wf(),
                self.backend_view() == old(self).backend_view(),
                self.config_view() == old(self).config_view(),
                self.heard() == old(self).heard(),
            decreases self.saved.len(),
        {
            self.pop_level();
        }
        self.core.context = InputContext::new();
        let mut engine = InputEngine::new(BottomEditor::Primary(PrimaryEditor));
        engine.set_state_primary(&mut self.core.context, &self.core.param.config);
        self.core.engine = engine;
        self.core.selector = Selector::new();
        self.core.completer = Completer::new();
        self.machine = StateMachine::new(StateId::Top);
        self.output();
        self.in_event = false;
    }

    /// The input mode of the active level.
    pub fn input_mode(&self) -> (r: InputMode)
        ensures
            r == self.mode(),
    {
        self.core.engine.input_mode()
    }

    /// The composing text shown.
    pub fn composing_string(&self) -> (r: &str)
        ensures
            r@ == self.composing(),
    {
        self.core.context.output.composing_string()
    }

    pub fn backend(&self) -> (r: &Backend)
        ensures
            *r == self.backend_view(),
    {
        &self.core.param.backend
    }

    pub fn converter_mut(&mut self) -> (r: &mut RomanKanaConverter)
        requires
            old(self).wf(),
        ensures
            final(self).wf(),
            *r == old(self).converter_view(),
            final(self).converter_view() == *final(r),
            final(self).backend_view() == old(self).backend_view(),
            final(self).config_view() == old(self).config_view(),
            final(self).depth() == old(self).depth(),
            final(self).mode() == old(self).mode(),
            final(self).composing() == old(self).composing(),
    {
        &mut self.core.param.converter
    }

    pub fn config(&self) -> (r: &Config)
        ensures
            *r == self.config_view(),
    {
        &self.core.param.config
    }

    pub fn config_mut(&mut self) -> (r: &mut Config)
        requires
            old(self).wf(),
        ensures
            final(self).wf(),
            *r == old(self).config_view(),
            final(self).config_view() == *final(r),
            final(self).backend_view() == old(self).backend_view(),
            final(self).depth() == old(self).depth(),
            final(self).mode() == old(self).mode(),
            final(self).composing() == old(self).composing(),
    {
        &mut self.core.param.config
    }

    pub fn backend_mut(&mut self) -> (r: &mut Backend)
        requires
            old(self).wf(),
        ensures
            final(self).wf(),
            *r == old(self).backend_view(),
            final(self).backend_view() == *final(r),
            final(self).config_view() == old(self).config_view(),
            final(self).depth() == old(self).depth(),
            final(self).mode() == old(self).mode(),
            final(self).composing() == old(self).composing(),
    {
        &mut self.core.param.backend
    }

    /// The front end the session writes to.
    pub fn frontend(&self) -> (r: &F)
        ensures
            *r == self.frontend_view(),
    {
        &self.core.param.frontend
    }

    /// The front end, for the host to take what the session wrote.
    pub fn frontend_mut(&mut self) -> (r: &mut F)
        requires
            old(self).wf(),
        ensures
            final(self).wf(),
            *r == old(self).frontend_view(),
            final(self).frontend_view() == *final(r),
            final(self).backend_view() == old(self).backend_view(),
            final(self).config_view() == old(self).config_view(),
            final(self).depth() == old(self).depth(),
            final(self).mode() == old(self).mode(),
            final(self).composing() == old(self).composing(),
    {
        &mut self.core.param.frontend
    }

    /// Start or end a nested registration level as the last event asked.
    fn end_event(&mut self)
        requires
            old(self).wf(),
        ensures
            old(self).heard().is_prefix_of(final(self).heard()),
            final(self).wf(),
            final(self).busy() == old(self).busy(),
            old(self).core.context.registration.progress() == RegistrationState::Started ==> final(self).depth()
                == old(self).depth() + 1 && final(self).core.engine.registering(),
            (old(self).core.context.registration.progress() == RegistrationState::Finished
                || old(self).core.context.registration.progress() == RegistrationState::Aborted) && old(self).depth() > 1
                ==> final(self).depth() == old(self).depth() - 1,
            old(self).core.context.registration.progress() == RegistrationState::NotStarted || ((
            old(self).core.context.registration.progress() == RegistrationState::Finished
                || old(self).core.context.registration.progress() == RegistrationState::Aborted) && old(self).depth()
                == 1) ==> *final(self) == *old(self),
    {
        let state = self.core.context.registration.state();
        match state {
            RegistrationState::Started => {
                self.core.context.registration.clear();
                let entry = self.core.context.entry.duplicate();
                self.push_level(BottomEditor::Register(RegisterEditor::new(&entry)));
            },
            RegistrationState::Finished | RegistrationState::Aborted => {
                if self.saved.len() > 0 {
                    self.pop_level();
                    let id = if state == RegistrationState::Finished {
                        EventId::Enter
                    } else {
                        EventId::Cancel
                    };
                    let e = Event::new(id, 0, 0);
                    self.dispatch_top(&e);
                }
                assert(old(self).heard().is_prefix_of(self.heard()));
            },
            RegistrationState::NotStarted => {},
        }
        assert(old(self).heard().is_prefix_of(self.heard()));
    }

    /// Show the composing text, completions and annotation.
    fn output(&mut self)
        requires
            old(self).wf(),
        ensures
            final(self).heard() == old(self).heard(),
            final(self).wf(),
            final(self).depth() == old(self).depth(),
            final(self).mode() == old(self).mode(),
            final(self).backend_view() == old(self).backend_view(),
            final(self).config_view() == old(self).config_view(),
            final(self).busy() == old(self).busy(),
            old(self).core.engine.direct_input() && old(self).core.engine.nothing_pending() ==> final(self).composing().len()
                == 0,
            final(self).unsent() == Seq::<char>::empty(),
            final(self).frontend_view().committed() == old(self).frontend_view().committed() + old(self).unsent(),
            final(self).frontend_view().selection() == old(self).frontend_view().selection(),
            final(self).composing().len() > 0 ==> final(self).frontend_view().preedit() == final(self).composing(),
    {
        self.core.engine.update_input_context(&mut self.core.context, &self.core.param.config);
        self.core.context.output.output(&mut self.core.param.frontend);
        if self.core.context.dynamic_completion && self.core.param.config.enable_dynamic_completion {
            let entry = self.core.context.entry.duplicate();
            let mut joined = String::new();
            let mut common = String::new();
            if !entry.is_empty() && !entry.is_okuri_ari() {
                let range = self.core.param.config.dynamic_completion_range;
                if range > 0 {
                    let result = self.core.param.backend.complete(entry.entry_string(), range);
                    if result.len() > 0 {
                        common = copy_str(result[0].as_str());
                        let mut i: usize = 0;
                        while i < result.len()
                            invariant
                                i <= result@.len(),
                            decreases result.len() - i,
                        {
                            common = common_prefix_of(common.as_str(), result[i].as_str());
                            if i > 0 {
                                joined.push('\n');
                            }
                            joined.append(result[i].as_str());
                            i += 1;
                        }
                    }
                }
            }
            let prefix_len = common.as_str().unicode_len();
            let mark = self.core.context.output.mark();
            self.core.param.completor.update(joined.as_str(), prefix_len, mark);
            self.core.param.completor.show();
        } else {
            self.core.param.completor.close();
        }
        if self.core.context.annotation && self.core.param.config.enable_annotation {
            let candidate = self.core.context.candidate.duplicate();
            let mark = self.core.context.output.mark();
            self.core.param.annotator.update(&candidate, mark);
            self.core.param.annotator.show();
        } else {
            self.core.param.annotator.close();
        }
    }

    fn result(&self, event: &Event) -> (r: bool)
        ensures
            r == (self.depth() != 1 || self.composing().len() > 0 || event.option == HandleOption::AlwaysHandled
                || (event.option != HandleOption::PseudoHandled && self.handled())),
    {
        if self.saved.len() != 0 || self.core.context.output.is_composing() {
            return true;
        }
        match event.option {
            HandleOption::AlwaysHandled => true,
            HandleOption::PseudoHandled => false,
            _ => self.core.context.event_handled,
        }
    }
}

} // verus!
