//! Application state that the terminal interface works on: views, input
//! modes, pending confirmations, command results, and the detail and diff
//! views' positions.

use vstd::prelude::*;
use vstd::view::View as _;

use crate::show::{DiffEntry, ShowOutput};
use crate::text::{is_truncation, str_width_of, truncate_str};

verus! {

/// Current view mode.
#[derive(Debug, Clone, Copy, PartialEq, Eq, Structural)]
pub enum View {
    Log,
    Detail,
}

impl Default for View {
    fn default() -> (r: Self)
        ensures
            r == View::Log,
    {
        View::Log
    }
}

/// Input mode for text entry.
#[derive(Debug, Clone, Copy, PartialEq, Eq, Structural)]
pub enum InputMode {
    /// Entering description for `jj describe -m`.
    Describe,
    /// Entering bookmark name for `jj bookmark set`.
    BookmarkSet,
    /// Creating new change with message for `jj new -m`.
    NewWithMessage,
}

impl InputMode {
    /// The placeholder text for this input mode.
    pub fn placeholder(&self) -> (r: &'static str)
        ensures
            *self == InputMode::Describe ==> r@ == "Enter commit message..."@,
            *self == InputMode::BookmarkSet ==> r@ == "Enter bookmark name..."@,
            *self == InputMode::NewWithMessage ==> r@ == "Enter message (empty for no message)..."@,
    {
        match self {
            InputMode::Describe => "Enter commit message...",
            InputMode::BookmarkSet => "Enter bookmark name...",
            InputMode::NewWithMessage => "Enter message (empty for no message)...",
        }
    }
}

/// State for detail view.
#[derive(Debug)]
pub struct DetailState {
    /// The show output being displayed.
    pub show_output: ShowOutput,
    /// Vertical scroll offset.
    pub scroll: usize,
    /// Total content height (for scroll calculation).
    pub content_height: usize,
}

impl DetailState {
    /// Scrolls down, saturating at the largest offset.
    pub fn scroll_down(&mut self, amount: usize)
        ensures
            final(self).scroll == sat_add(old(self).scroll, amount),
            final(self).content_height == old(self).content_height,
            final(self).show_output == old(self).show_output,
    {
        self.scroll = if self.scroll > usize::MAX - amount {
            usize::MAX
        } else {
            self.scroll + amount
        };
    }

    /// Scrolls up, stopping at the top.
    pub fn scroll_up(&mut self, amount: usize)
        ensures
            final(self).scroll == sat_sub(old(self).scroll, amount),
            final(self).content_height == old(self).content_height,
            final(self).show_output == old(self).show_output,
    {
        self.scroll = if self.scroll < amount {
            0
        } else {
            self.scroll - amount
        };
    }

    /// Records the content height and keeps the offset on a line of it.
    pub fn set_content_height(&mut self, height: usize)
        ensures
            final(self).content_height == height,
            final(self).show_output == old(self).show_output,
            final(self).scroll == if height > 0 && old(self).scroll >= height {
                (height - 1) as usize
            } else {
                old(self).scroll
            },
    {
        self.content_height = height;
        if height > 0 && self.scroll >= height {
            self.scroll = height - 1;
        }
    }
}

/// `a + b`, or the largest value when that does not fit.
pub open spec fn sat_add(a: usize, b: usize) -> usize {
    if a + b > usize::MAX {
        usize::MAX
    } else {
        (a + b) as usize
    }
}

/// `a - b`, or zero when `b` is larger.
pub open spec fn sat_sub(a: usize, b: usize) -> usize {
    if a < b {
        0
    } else {
        (a - b) as usize
    }
}

/// Pending action for confirmation dialog.
#[derive(Debug, Clone)]
pub enum PendingAction {
    /// Abandon a change.
    Abandon { change_id: String, description: String },
    /// Squash a change into its parent.
    Squash { change_id: String, description: String },
    /// Push to remote.
    GitPush,
    /// Undo the last operation.
    Undo,
}

/// Width to which a description is cut in a confirmation message.
pub const CONFIRM_WIDTH: usize = 40;

impl PendingAction {
    /// The confirmation message for this action.
    pub fn confirm_message(&self) -> (r: String)
        ensures
            self matches PendingAction::Abandon { description, .. } ==> exists|t: Seq<char>|
                #[trigger] is_truncation(description@, CONFIRM_WIDTH as int, t) && r@ == "Abandon change: \""@ + t
                    + "\"?"@,
            self matches PendingAction::Squash { description, .. } ==> exists|t: Seq<char>|
                #[trigger] is_truncation(description@, CONFIRM_WIDTH as int, t) && r@ == "Squash change: \""@
                    + t + "\" into parent?"@,
            self is GitPush ==> r@ == "Push to remote?"@,
            self is Undo ==> r@ == "Undo last operation?"@,
    {
        match self {
            PendingAction::Abandon { description, .. } => {
                let t = truncate_str(description.as_str(), CONFIRM_WIDTH);
                let mut r = String::from_str("Abandon change: \"");
                r.append(t.as_str());
                r.append("\"?");
                r
            },
            PendingAction::Squash { description, .. } => {
                let t = truncate_str(description.as_str(), CONFIRM_WIDTH);
                let mut r = String::from_str("Squash change: \"");
                r.append(t.as_str());
                r.append("\" into parent?");
                r
            },
            PendingAction::GitPush => String::from_str("Push to remote?"),
            PendingAction::Undo => String::from_str("Undo last operation?"),
        }
    }
}

/// Modal dialog state.
#[derive(Debug, Clone)]
pub enum ModalState {
    /// No modal is shown.
    Hidden,
    /// Confirmation dialog for a pending action.
    Confirm(PendingAction),
}

impl Default for ModalState {
    fn default() -> (r: Self)
        ensures
            r is Hidden,
    {
        ModalState::Hidden
    }
}

/// Result of a command execution.
#[derive(Debug, Clone)]
pub struct CommandResult {
    /// The command that was executed.
    pub command: String,
    /// Whether the command succeeded.
    pub success: bool,
    /// Output message (stdout or stderr).
    pub message: String,
}

/// State of the diff view: the changed files, the selected one, and the
/// scroll offsets of the file list and of the diff text.
#[derive(Debug, Clone)]
pub struct DiffState {
    /// Change whose diff is shown.
    pub change_id: String,
    /// Changed files.
    pub files: Vec<DiffEntry>,
    /// Selected file index.
    pub selected: usize,
    /// Scroll offset of the file list.
    pub file_scroll: usize,
    /// Lines of the diff of the selected file.
    pub diff_lines: Vec<String>,
    /// Vertical scroll offset of the diff text.
    pub diff_scroll: usize,
    /// Horizontal scroll offset of the diff text.
    pub diff_h_scroll: usize,
}

impl DiffState {
    /// A diff view of `files`, with the first file selected and nothing scrolled.
    pub fn new(change_id: String, files: Vec<DiffEntry>) -> (r: Self)
        ensures
            r.change_id == change_id,
            r.files == files,
            r.selected == 0,
            r.file_scroll == 0,
            r.diff_lines@.len() == 0,
            r.diff_scroll == 0,
            r.diff_h_scroll == 0,
    {
        DiffState {
            change_id,
            files,
            selected: 0,
            file_scroll: 0,
            diff_lines: Vec::new(),
            diff_scroll: 0,
            diff_h_scroll: 0,
        }
    }

    /// The selected file, if the selection is on one.
    pub fn selected_file(&self) -> (r: Option<&DiffEntry>)
        ensures
            self.selected < self.files@.len() ==> r == Some(&self.files@[self.selected as int]),
            self.selected >= self.files@.len() ==> r is None,
    {
        if self.selected < self.files.len() {
            Some(&self.files[self.selected])
        } else {
            None
        }
    }

    /// Selects the next file, stopping at the last.
    pub fn select_next(&mut self)
        ensures
            final(self).selected == if old(self).files@.len() > 0 && old(self).selected + 1
                < old(self).files@.len() {
                (old(self).selected + 1) as usize
            } else {
                old(self).selected
            },
            final(self).files == old(self).files,
            final(self).file_scroll == old(self).file_scroll,
    {
        let count = self.files.len();
        if count > 0 && self.selected < count - 1 {
            self.selected = self.selected + 1;
        }
    }

    /// Selects the previous file, stopping at the first.
    pub fn select_previous(&mut self)
        ensures
            final(self).selected == sat_sub(old(self).selected, 1),
            final(self).files == old(self).files,
            final(self).file_scroll == old(self).file_scroll,
    {
        if self.selected > 0 {
            self.selected = self.selected - 1;
        }
    }

    /// Scrolls the diff text down, saturating.
    pub fn scroll_down(&mut self, amount: usize)
        ensures
            final(self).diff_scroll == sat_add(old(self).diff_scroll, amount),
            final(self).diff_lines == old(self).diff_lines,
    {
        self.diff_scroll = if self.diff_scroll > usize::MAX - amount {
            usize::MAX
        } else {
            self.diff_scroll + amount
        };
    }

    /// Scrolls the diff text up, stopping at the top.
    pub fn scroll_up(&mut self, amount: usize)
        ensures
            final(self).diff_scroll == sat_sub(old(self).diff_scroll, amount),
            final(self).diff_lines == old(self).diff_lines,
    {
        self.diff_scroll = sat_sub_exec(self.diff_scroll, amount);
    }

    /// Keeps the vertical offset where a full screen of text still shows.
    pub fn clamp_scroll(&mut self, visible_height: usize)
        ensures
            ({
                let max_scroll = sat_sub(old(self).diff_lines@.len() as usize, visible_height);
                final(self).diff_scroll == if old(self).diff_scroll > max_scroll {
                    max_scroll
                } else {
                    old(self).diff_scroll
                }
            }),
            final(self).diff_lines == old(self).diff_lines,
    {
        let max_scroll = sat_sub_exec(self.diff_lines.len(), visible_height);
        if self.diff_scroll > max_scroll {
            self.diff_scroll = max_scroll;
        }
    }

    /// Scrolls the diff text right, saturating.
    pub fn scroll_right(&mut self, amount: usize)
        ensures
            final(self).diff_h_scroll == sat_add(old(self).diff_h_scroll, amount),
    {
        self.diff_h_scroll = if self.diff_h_scroll > usize::MAX - amount {
            usize::MAX
        } else {
            self.diff_h_scroll + amount
        };
    }

    /// Scrolls the diff text left, stopping at the first column.
    pub fn scroll_left(&mut self, amount: usize)
        ensures
            final(self).diff_h_scroll == sat_sub(old(self).diff_h_scroll, amount),
    {
        self.diff_h_scroll = sat_sub_exec(self.diff_h_scroll, amount);
    }

    /// Keeps the horizontal offset where the widest line still shows.
    pub fn clamp_h_scroll(&mut self, visible_width: usize)
        ensures
            ({
                let max_scroll = sat_sub(widest(old(self).diff_lines@), visible_width);
                final(self).diff_h_scroll == if old(self).diff_h_scroll > max_scroll {
                    max_scroll
                } else {
                    old(self).diff_h_scroll
                }
            }),
    {
        let mut w: usize = 0;
        let mut i: usize = 0;
        while i < self.diff_lines.len()
            invariant
                i <= self.diff_lines@.len(),
                w == widest(self.diff_lines@.take(i as int)),
            decreases self.diff_lines@.len() - i,
        {
            let lw = crate::text::display_width(self.diff_lines[i].as_str());
            assert(self.diff_lines@.take(i + 1).drop_last() =~= self.diff_lines@.take(i as int));
            if lw > w {
                w = lw;
            }
            i += 1;
        }
        assert(self.diff_lines@.take(i as int) =~= self.diff_lines@);
        let max_scroll = sat_sub_exec(w, visible_width);
        if self.diff_h_scroll > max_scroll {
            self.diff_h_scroll = max_scroll;
        }
    }

    /// Scrolls the file list so that the selected file is within
    /// `visible_height` rows; a zero height changes nothing.
    pub fn ensure_file_visible(&mut self, visible_height: usize)
        ensures
            final(self).file_scroll == if visible_height == 0 {
                old(self).file_scroll
            } else if old(self).selected < old(self).file_scroll {
                old(self).selected
            } else if old(self).selected >= old(self).file_scroll + visible_height {
                sat_sub(old(self).selected, (visible_height - 1) as usize)
            } else {
                old(self).file_scroll
            },
            final(self).selected == old(self).selected,
    {
        if visible_height == 0 {
            return;
        }
        let selected = self.selected;
        if selected < self.file_scroll {
            self.file_scroll = selected;
        } else if selected - self.file_scroll >= visible_height {
            self.file_scroll = sat_sub_exec(selected, visible_height - 1);
        }
    }
}

/// The largest display width among `lines`, zero when there is none.
pub open spec fn widest(lines: Seq<String>) -> usize
    decreases lines.len(),
{
    if lines.len() == 0 {
        0
    } else {
        let w = str_width_of(lines.last()@);
        let rest = widest(lines.drop_last());
        if w > rest {
            w
        } else {
            rest
        }
    }
}

/// `a - b`, or zero when `b` is larger.
pub fn sat_sub_exec(a: usize, b: usize) -> (r: usize)
    ensures
        r == sat_sub(a, b),
{
    if a < b {
        0
    } else {
        a - b
    }
}

} // verus!
