//! The state of the terminal client: the sequenced log with its graph rows,
//! the selection, lazy loading of more history, views, modals and text input.
//! Running jj is the caller's part: it hands the results to these methods.

use vstd::prelude::*;
use vstd::view::View as _;

use crate::error::XorcistError;
use crate::graph::{build_graph_rows, is_layout, GraphRow};
use crate::log::{is_sequenced, reorder_entries_for_graph, LogEntry};
use crate::runner::JjRunner;
use crate::show::ShowOutput;
use crate::state::{
    sat_add, sat_sub, sat_sub_exec, CommandResult, DetailState, InputMode, ModalState,
    PendingAction, View,
};

verus! {

/// Declares tui-input's line editor so that the state can hold it.
#[verifier::external_type_specification]
#[verifier::external_body]
pub struct ExInput(tui_input::Input);

/// Relies on `tui_input::Input::default`: an empty line editor.
#[verifier::external_body]
fn empty_input() -> (r: tui_input::Input) {
    tui_input::Input::default()
}

/// Relies on `tui_input::Input::reset`: clears the text and the cursor.
#[verifier::external_body]
fn clear_input(input: &mut tui_input::Input) {
    input.reset()
}

/// Relies on `tui_input::Input::value`: the text typed so far.
#[verifier::external_body]
fn input_text(input: &tui_input::Input) -> (r: String) {
    input.value().to_string()
}

/// Default batch size for loading more entries.
pub const DEFAULT_BATCH_SIZE: usize = 500;

/// Loading more is considered when the selection is this close to the end.
pub const LOAD_MORE_THRESHOLD: usize = 50;

/// Application state.
pub struct App {
    /// Log entries to display, in display order.
    pub entries: Vec<LogEntry>,
    /// Graph rows of the entries (one per entry).
    pub graph_rows: Vec<GraphRow>,
    /// Currently selected index.
    pub selected: usize,
    /// Whether the app should quit.
    pub should_quit: bool,
    /// Repository root path.
    pub repo_root: String,
    /// Current view mode.
    pub view: View,
    /// Detail view state.
    pub detail_state: Option<DetailState>,
    /// Whether the help modal is shown.
    pub show_help: bool,
    /// jj command runner.
    pub runner: JjRunner,
    /// Modal dialog state.
    pub modal: ModalState,
    /// Last command result for status display.
    pub last_command_result: Option<CommandResult>,
    /// Current input mode (if any).
    pub input_mode: Option<InputMode>,
    /// Text input buffer.
    pub input: tui_input::Input,
    /// Log entry limit (None = no limit, i.e., all history).
    pub log_limit: Option<usize>,
    /// Whether there are more entries to load.
    pub has_more_entries: bool,
    /// Whether we are currently loading more entries.
    pub is_loading_more: bool,
    /// Whether a load-more check has been requested.
    pub pending_load_more: bool,
}

impl App {
    /// The log entry limit.
    pub open spec fn limit(&self) -> Option<usize> {
        self.log_limit
    }

    /// Whether a load-more check was requested.
    pub open spec fn load_requested(&self) -> bool {
        self.pending_load_more
    }

    /// A new state showing `entries` (already in display order) with their
    /// graph rows, the first entry selected and a batch-size limit.
    pub fn new(entries: Vec<LogEntry>, repo_root: String, runner: JjRunner) -> (r: Self)
        ensures
            r.entries == entries,
            is_layout(entries@, r.graph_rows@),
            r.selected == 0,
            !r.should_quit,
            r.repo_root == repo_root,
            r.view == View::Log,
            r.detail_state is None,
            !r.show_help,
            r.modal is Hidden,
            r.last_command_result is None,
            r.input_mode is None,
            r.limit() == Some(DEFAULT_BATCH_SIZE),
            !r.has_more_entries,
            !r.is_loading_more,
            !r.load_requested(),
    {
        let graph_rows = build_graph_rows(entries.as_slice());
        App {
            entries,
            graph_rows,
            selected: 0,
            should_quit: false,
            repo_root,
            view: View::Log,
            detail_state: None,
            show_help: false,
            runner,
            modal: ModalState::Hidden,
            last_command_result: None,
            input_mode: None,
            input: empty_input(),
            log_limit: Some(DEFAULT_BATCH_SIZE),
            has_more_entries: false,
            is_loading_more: false,
            pending_load_more: false,
        }
    }

    /// The runner for jj commands.
    pub fn runner(&self) -> (r: &JjRunner)
        ensures
            *r == self.runner,
    {
        &self.runner
    }

    /// The log entry limit.
    pub fn log_limit(&self) -> (r: Option<usize>)
        ensures
            r == self.limit(),
    {
        self.log_limit
    }

    /// Sets the limit; more entries may exist when a limit was filled.
    pub fn set_log_limit(&mut self, limit: Option<usize>)
        ensures
            *final(self) == (App {
                log_limit: limit,
                has_more_entries: match limit {
                    Some(n) => old(self).entries@.len() >= n,
                    None => false,
                },
                ..*old(self)
            }),
    {
        self.log_limit = limit;
        self.has_more_entries = match limit {
            None => false,
            Some(n) => self.entries.len() >= n,
        };
    }

    /// Moves the selection down, stopping at the last entry.
    pub fn select_next(&mut self)
        ensures
            *final(self) == (App {
                selected: if old(self).selected + 1 < old(self).entries@.len() {
                    (old(self).selected + 1) as usize
                } else {
                    old(self).selected
                },
                ..*old(self)
            }),
    {
        if self.entries.len() > 0 && self.selected < self.entries.len() - 1 {
            self.selected = self.selected + 1;
        }
    }

    /// Moves the selection up, stopping at the first entry.
    pub fn select_previous(&mut self)
        ensures
            *final(self) == (App { selected: sat_sub(old(self).selected, 1), ..*old(self) }),
    {
        if self.selected > 0 {
            self.selected = self.selected - 1;
        }
    }

    /// Selects the first entry.
    pub fn select_first(&mut self)
        ensures
            *final(self) == (App { selected: 0, ..*old(self) }),
    {
        self.selected = 0;
    }

    /// Selects the last entry, if there is one.
    pub fn select_last(&mut self)
        ensures
            *final(self) == (App {
                selected: if old(self).entries@.len() > 0 {
                    (old(self).entries@.len() - 1) as usize
                } else {
                    old(self).selected
                },
                ..*old(self)
            }),
    {
        if self.entries.len() > 0 {
            self.selected = self.entries.len() - 1;
        }
    }

    /// Moves the selection down a page, stopping at the last entry.
    pub fn page_down(&mut self, page_size: usize)
        ensures
            *final(self) == (App {
                selected: if old(self).entries@.len() == 0 {
                    old(self).selected
                } else if sat_add(old(self).selected, page_size) < old(self).entries@.len() - 1 {
                    sat_add(old(self).selected, page_size)
                } else {
                    (old(self).entries@.len() - 1) as usize
                },
                ..*old(self)
            }),
    {
        if self.entries.len() == 0 {
            return;
        }
        let new_selected = if self.selected > usize::MAX - page_size {
            usize::MAX
        } else {
            self.selected + page_size
        };
        let last = self.entries.len() - 1;
        self.selected = if new_selected < last {
            new_selected
        } else {
            last
        };
    }

    /// Moves the selection up a page, stopping at the first entry.
    pub fn page_up(&mut self, page_size: usize)
        ensures
            *final(self) == (App { selected: sat_sub(old(self).selected, page_size), ..*old(self) }),
    {
        self.selected = sat_sub_exec(self.selected, page_size);
    }

    /// Asks for a check whether to load more entries.
    pub fn request_load_more_check(&mut self)
        ensures
            *final(self) == (App { pending_load_more: true, ..*old(self) }),
    {
        self.pending_load_more = true;
    }

    /// Whether to load more entries now: a check was asked for, there is a
    /// limit, more may exist, none is loading, and the selection is near the end.
    pub fn should_load_more(&self) -> (r: bool)
        ensures
            r == (self.load_requested() && self.limit() is Some && self.has_more_entries
                && !self.is_loading_more && sat_sub(self.entries@.len() as usize, self.selected)
                <= LOAD_MORE_THRESHOLD),
    {
        if !self.pending_load_more {
            return false;
        }
        if self.log_limit.is_none() || !self.has_more_entries || self.is_loading_more {
            return false;
        }
        let entries_from_end = sat_sub_exec(self.entries.len(), self.selected);
        entries_from_end <= LOAD_MORE_THRESHOLD
    }

    /// Marks that loading more entries starts.
    pub fn start_loading(&mut self)
        ensures
            *final(self) == (App { is_loading_more: true, pending_load_more: false, ..*old(self) }),
    {
        self.is_loading_more = true;
        self.pending_load_more = false;
    }

    /// Where to load more history from: the change id of the last entry and
    /// the batch size. With no entry, loading stops and there is nothing to ask.
    pub fn load_more_request(&mut self) -> (r: Option<(String, usize)>)
        ensures
            old(self).entries@.len() == 0 ==> r is None && *final(self) == (App {
                is_loading_more: false,
                ..*old(self)
            }),
            old(self).entries@.len() > 0 ==> *final(self) == *old(self),
            old(self).entries@.len() > 0 ==> (r matches Some(q) && q.0 == old(self).entries@.last().change_id
                && q.1 == match old(self).limit() {
                Some(n) => n,
                None => DEFAULT_BATCH_SIZE,
            }),
    {
        let n = self.entries.len();
        if n == 0 {
            self.is_loading_more = false;
            return None;
        }
        let batch_size = match self.log_limit {
            Some(b) => b,
            None => DEFAULT_BATCH_SIZE,
        };
        Some((self.entries[n - 1].change_id.clone(), batch_size))
    }

    /// Takes a page of older history: appended to the entries, the whole
    /// list sequenced and laid out again. An empty page means the end; so
    /// does a page shorter than the batch. Returns whether entries were added.
    pub fn append_page(&mut self, additional: Vec<LogEntry>, batch_size: usize) -> (r: bool)
        ensures
            r == (additional@.len() > 0),
            !final(self).is_loading_more,
            additional@.len() == 0 ==> final(self).entries == old(self).entries
                && !final(self).has_more_entries,
            additional@.len() > 0 ==> {
                &&& is_sequenced(old(self).entries@ + additional@, final(self).entries@)
                &&& final(self).has_more_entries == (old(self).has_more_entries && additional@.len()
                    >= batch_size)
            },
            is_layout(final(self).entries@, final(self).graph_rows@) || additional@.len() == 0,
            final(self).selected == old(self).selected,
    {
        self.is_loading_more = false;
        if additional.len() == 0 {
            self.has_more_entries = false;
            return false;
        }
        if additional.len() < batch_size {
            self.has_more_entries = false;
        }
        let mut all: Vec<LogEntry> = Vec::new();
        std::mem::swap(&mut all, &mut self.entries);
        let ghost old_entries = all@;
        let mut additional = additional;
        let ghost added = additional@;
        all.append(&mut additional);
        assert(all@ == old_entries + added);
        let sequenced = reorder_entries_for_graph(all);
        self.graph_rows = build_graph_rows(sequenced.as_slice());
        self.entries = sequenced;
        true
    }

    /// Replaces the entries after a refresh and keeps the selection on one.
    pub fn replace_entries(&mut self, entries: Vec<LogEntry>)
        ensures
            final(self).entries == entries,
            is_layout(entries@, final(self).graph_rows@),
            final(self).selected == if entries@.len() > 0 && old(self).selected >= entries@.len() {
                (entries@.len() - 1) as usize
            } else {
                old(self).selected
            },
            final(self).modal == old(self).modal,
            final(self).view == old(self).view,
    {
        self.graph_rows = build_graph_rows(entries.as_slice());
        self.entries = entries;
        if self.entries.len() > 0 && self.selected >= self.entries.len() {
            self.selected = self.entries.len() - 1;
        }
    }

    /// Requests quitting.
    pub fn quit(&mut self)
        ensures
            *final(self) == (App { should_quit: true, ..*old(self) }),
    {
        self.should_quit = true;
    }

    /// Shows or hides the help.
    pub fn toggle_help(&mut self)
        ensures
            *final(self) == (App { show_help: !old(self).show_help, ..*old(self) }),
    {
        self.show_help = !self.show_help;
    }

    /// Hides the help.
    pub fn close_help(&mut self)
        ensures
            *final(self) == (App { show_help: false, ..*old(self) }),
    {
        self.show_help = false;
    }

    /// Opens the detail view on a show output.
    pub fn open_detail_with(&mut self, show_output: ShowOutput)
        ensures
            final(self).view == View::Detail,
            (final(self).detail_state matches Some(d) && d.show_output == show_output && d.scroll == 0
                && d.content_height == 0),
            final(self).entries == old(self).entries,
            final(self).selected == old(self).selected,
    {
        self.detail_state = Some(DetailState { show_output, scroll: 0, content_height: 0 });
        self.view = View::Detail;
    }

    /// Closes the detail view and returns to the log.
    pub fn close_detail(&mut self)
        ensures
            *final(self) == (App { view: View::Log, detail_state: None, ..*old(self) }),
    {
        self.view = View::Log;
        self.detail_state = None;
    }

    /// Scrolls the detail view down, saturating.
    pub fn detail_scroll_down(&mut self, amount: usize)
        ensures
            match (old(self).detail_state, final(self).detail_state) {
                (Some(a), Some(b)) => b.scroll == sat_add(a.scroll, amount) && b.content_height
                    == a.content_height && b.show_output == a.show_output,
                (None, None) => true,
                _ => false,
            },
            final(self).view == old(self).view,
    {
        match &mut self.detail_state {
            Some(state) => state.scroll_down(amount),
            None => {},
        }
    }

    /// Scrolls the detail view up, stopping at the top.
    pub fn detail_scroll_up(&mut self, amount: usize)
        ensures
            match (old(self).detail_state, final(self).detail_state) {
                (Some(a), Some(b)) => b.scroll == sat_sub(a.scroll, amount) && b.content_height
                    == a.content_height && b.show_output == a.show_output,
                (None, None) => true,
                _ => false,
            },
            final(self).view == old(self).view,
    {
        match &mut self.detail_state {
            Some(state) => state.scroll_up(amount),
            None => {},
        }
    }

    /// Records the detail content height and keeps the offset on a line of it.
    pub fn set_detail_content_height(&mut self, height: usize)
        ensures
            match (old(self).detail_state, final(self).detail_state) {
                (Some(a), Some(b)) => b.content_height == height && b.scroll == (if height > 0
                    && a.scroll >= height {
                    (height - 1) as usize
                } else {
                    a.scroll
                }) && b.show_output == a.show_output,
                (None, None) => true,
                _ => false,
            },
    {
        match &mut self.detail_state {
            Some(state) => state.set_content_height(height),
            None => {},
        }
    }

    /// The selected entry, if the selection is on one.
    pub fn selected_entry(&self) -> (r: Option<&LogEntry>)
        ensures
            self.selected < self.entries@.len() ==> r == Some(&self.entries@[self.selected as int]),
            self.selected >= self.entries@.len() ==> r is None,
    {
        if self.selected < self.entries.len() {
            Some(&self.entries[self.selected])
        } else {
            None
        }
    }

    /// The change id of the selected entry.
    pub fn selected_change_id(&self) -> (r: Option<String>)
        ensures
            self.selected < self.entries@.len() ==> (r matches Some(c) && c == self.entries@[self.selected as int].change_id),
            self.selected >= self.entries@.len() ==> r is None,
    {
        match self.selected_entry() {
            Some(e) => Some(e.change_id.clone()),
            None => None,
        }
    }

    /// Records the result of a command; an error becomes a failed result.
    pub fn handle_command_result(&mut self, result: Result<CommandResult, XorcistError>)
        ensures
            result matches Ok(c) ==> final(self).last_command_result == Some(c),
            result is Err ==> (final(self).last_command_result matches Some(c) && !c.success
                && c.command@ == "unknown"@),
            final(self).entries == old(self).entries,
            final(self).selected == old(self).selected,
    {
        match result {
            Ok(c) => {
                self.last_command_result = Some(c);
            },
            Err(e) => {
                self.last_command_result = Some(
                    CommandResult {
                        command: String::from_str("unknown"),
                        success: false,
                        message: e.message(),
                    },
                );
            },
        }
    }

    /// Whether a modal is shown.
    pub fn is_modal_open(&self) -> (r: bool)
        ensures
            r == !(self.modal is Hidden),
    {
        match self.modal {
            ModalState::Hidden => false,
            ModalState::Confirm(_) => true,
        }
    }

    /// Closes the modal without acting.
    pub fn close_modal(&mut self)
        ensures
            *final(self) == (App { modal: ModalState::Hidden, ..*old(self) }),
    {
        self.modal = ModalState::Hidden;
    }

    /// Asks to confirm abandoning the selected entry.
    pub fn show_abandon_confirm(&mut self)
        ensures
            old(self).selected < old(self).entries@.len() ==> final(self).modal == ModalState::Confirm(
                PendingAction::Abandon {
                    change_id: old(self).entries@[old(self).selected as int].change_id,
                    description: old(self).entries@[old(self).selected as int].description,
                },
            ),
            old(self).selected >= old(self).entries@.len() ==> final(self).modal == old(self).modal,
            final(self).entries == old(self).entries,
            final(self).selected == old(self).selected,
    {
        if self.selected < self.entries.len() {
            let e = &self.entries[self.selected];
            self.modal = ModalState::Confirm(
                PendingAction::Abandon { change_id: e.change_id.clone(), description: e.description.clone() },
            );
        }
    }

    /// Asks to confirm squashing the selected entry.
    pub fn show_squash_confirm(&mut self)
        ensures
            old(self).selected < old(self).entries@.len() ==> final(self).modal == ModalState::Confirm(
                PendingAction::Squash {
                    change_id: old(self).entries@[old(self).selected as int].change_id,
                    description: old(self).entries@[old(self).selected as int].description,
                },
            ),
            old(self).selected >= old(self).entries@.len() ==> final(self).modal == old(self).modal,
            final(self).entries == old(self).entries,
            final(self).selected == old(self).selected,
    {
        if self.selected < self.entries.len() {
            let e = &self.entries[self.selected];
            self.modal = ModalState::Confirm(
                PendingAction::Squash { change_id: e.change_id.clone(), description: e.description.clone() },
            );
        }
    }

    /// Asks to confirm pushing.
    pub fn show_push_confirm(&mut self)
        ensures
            *final(self) == (App { modal: ModalState::Confirm(PendingAction::GitPush), ..*old(self) }),
    {
        self.modal = ModalState::Confirm(PendingAction::GitPush);
    }

    /// Asks to confirm undoing.
    pub fn show_undo_confirm(&mut self)
        ensures
            *final(self) == (App { modal: ModalState::Confirm(PendingAction::Undo), ..*old(self) }),
    {
        self.modal = ModalState::Confirm(PendingAction::Undo);
    }

    /// Takes the action waiting for confirmation and closes the modal.
    pub fn take_pending_action(&mut self) -> (r: Option<PendingAction>)
        ensures
            *final(self) == (App { modal: ModalState::Hidden, ..*old(self) }),
            old(self).modal matches ModalState::Confirm(a) ==> r == Some(a),
            old(self).modal is Hidden ==> r is None,
    {
        let mut modal = ModalState::Hidden;
        std::mem::swap(&mut modal, &mut self.modal);
        match modal {
            ModalState::Confirm(a) => Some(a),
            ModalState::Hidden => None,
        }
    }

    /// Starts entering text for `mode`.
    pub fn start_input_mode(&mut self, mode: InputMode)
        ensures
            *final(self) == (App { input_mode: Some(mode), input: final(self).input, ..*old(self) }),
    {
        self.input_mode = Some(mode);
        clear_input(&mut self.input);
    }

    /// Stops entering text without acting.
    pub fn cancel_input_mode(&mut self)
        ensures
            *final(self) == (App { input_mode: None, input: final(self).input, ..*old(self) }),
    {
        self.input_mode = None;
        clear_input(&mut self.input);
    }

    /// Whether text is being entered.
    pub fn is_input_mode(&self) -> (r: bool)
        ensures
            r == self.input_mode is Some,
    {
        self.input_mode.is_some()
    }

    /// Takes the entered text and its mode, leaving input mode.
    pub fn take_input(&mut self) -> (r: Option<(InputMode, String)>)
        ensures
            old(self).input_mode is None ==> r is None && *final(self) == *old(self),
            old(self).input_mode matches Some(m) ==> (r matches Some(p) && p.0 == m && *final(self) == (App {
                input_mode: None,
                input: final(self).input,
                ..*old(self)
            })),
    {
        match self.input_mode {
            None => None,
            Some(mode) => {
                self.input_mode = None;
                let value = input_text(&self.input);
                clear_input(&mut self.input);
                Some((mode, value))
            },
        }
    }

    /// Refuses an empty bookmark name, recording why; returns whether it was refused.
    pub fn refuse_empty_bookmark(&mut self, name: &str) -> (r: bool)
        ensures
            r == (name@.len() == 0),
            r ==> (final(self).last_command_result matches Some(c) && !c.success && c.command@
                == "jj bookmark set"@ && c.message@ == "Bookmark name cannot be empty"@),
            !r ==> *final(self) == *old(self),
    {
        if name.is_empty() {
            self.last_command_result = Some(
                CommandResult {
                    command: String::from_str("jj bookmark set"),
                    success: false,
                    message: String::from_str("Bookmark name cannot be empty"),
                },
            );
            true
        } else {
            false
        }
    }
}

} // verus!
