//! The state of the terminal dialogs and how a key press changes it: assigning templates to
//! tasks, resolving files with similar names, and confirming an overwrite.
use vstd::prelude::*;

verus! {

/// A key press, as far as the dialogs tell keys apart.
#[derive(Clone, Copy, Debug, PartialEq, Eq, Structural)]
pub enum Key {
    Up,
    Down,
    Char(char),
    Other,
}

// ---------------------------------------------------------------------------
/// Assigning a template to each task: `data` are the tasks' texts, `choices` the template
/// names; `done_choices` holds the answer for each task handled so far (a template's index, or
/// none when skipped).
pub struct InteractiveState {
    pub data_pos: usize,
    pub data: Vec<String>,
    pub choices: Vec<String>,
    pub done_choices: Vec<Option<usize>>,
    pub choices_pos: usize,
    pub exit: bool,
}

/// `n - 1`, or 0 for 0.
pub open spec fn sat_pred(n: int) -> int {
    if n > 0 {
        n - 1
    } else {
        0
    }
}

/// The dialog is consistent: while it runs, one answer was given per task before the current
/// one, and the highlighted template exists; once it has ended, every task has its answer.
pub open spec fn interactive_consistent(s: InteractiveState) -> bool {
    &&& s.data@.len() > 0
    &&& s.choices_pos <= sat_pred(s.choices@.len() as int)
    &&& !s.exit ==> s.done_choices@.len() == s.data_pos && s.data_pos < s.data@.len()
    &&& s.exit ==> s.done_choices@.len() == s.data@.len()
}

impl InteractiveState {
    /// A dialog at the first task and the first template.
    pub fn new(data: Vec<String>, choices: Vec<String>) -> (r: InteractiveState)
        ensures
            r.data == data,
            r.choices == choices,
            r.data_pos == 0,
            r.choices_pos == 0,
            r.done_choices@.len() == 0,
            !r.exit,
            data@.len() > 0 ==> interactive_consistent(r),
    {
        InteractiveState { data_pos: 0, data, choices, choices_pos: 0, done_choices: Vec::new(), exit: false }
    }

    /// Moves on to the next task, or ends the dialog after the last one.
    pub fn advance(&mut self)
        ensures
            final(self).data == old(self).data,
            final(self).choices == old(self).choices,
            final(self).done_choices == old(self).done_choices,
            final(self).choices_pos == old(self).choices_pos,
            if old(self).data_pos < sat_pred(old(self).data@.len() as int) {
                final(self).data_pos == old(self).data_pos + 1 && final(self).exit == old(self).exit
            } else {
                final(self).data_pos == old(self).data_pos && final(self).exit
            },
    {
        let last = if self.data.len() > 0 { self.data.len() - 1 } else { 0 };
        if self.data_pos < last {
            self.data_pos = self.data_pos + 1;
        } else {
            self.exit = true;
        }
    }

    /// What a key does: up and down move the highlighted template (within the list), space
    /// answers the current task with the highlighted template and moves on, `s` skips the
    /// current task, `c` skips all remaining tasks and ends the dialog; other keys do nothing.
    /// A consistent running dialog stays consistent.
    pub fn handle_key_event(&mut self, key: Key)
        requires
            old(self).data_pos <= old(self).data@.len(),
            old(self).done_choices@.len() + old(self).data@.len() < usize::MAX,
        ensures
            final(self).data == old(self).data,
            final(self).choices == old(self).choices,
            match key {
                Key::Up => final(self).choices_pos == sat_pred(old(self).choices_pos as int)
                    && final(self).done_choices == old(self).done_choices && final(self).data_pos
                    == old(self).data_pos && final(self).exit == old(self).exit,
                Key::Down => final(self).choices_pos == (if old(self).choices_pos + 1 < sat_pred(
                    old(self).choices@.len() as int,
                ) {
                    old(self).choices_pos + 1
                } else {
                    sat_pred(old(self).choices@.len() as int)
                }) && final(self).done_choices == old(self).done_choices && final(self).data_pos
                    == old(self).data_pos && final(self).exit == old(self).exit,
                Key::Char(' ') => final(self).done_choices@ == old(self).done_choices@.push(
                    Some(old(self).choices_pos),
                ) && final(self).choices_pos == old(self).choices_pos && advanced(
                    *old(self),
                    *final(self),
                ),
                Key::Char('s') => final(self).done_choices@ == old(self).done_choices@.push(None)
                    && final(self).choices_pos == old(self).choices_pos && advanced(
                    *old(self),
                    *final(self),
                ),
                Key::Char('c') => final(self).done_choices@ == old(self).done_choices@ + Seq::new(
                    (old(self).data@.len() - old(self).data_pos) as nat,
                    |i: int| None::<usize>,
                ) && final(self).exit && final(self).data_pos == old(self).data_pos
                    && final(self).choices_pos == old(self).choices_pos,
                _ => final(self).done_choices == old(self).done_choices && final(self).data_pos
                    == old(self).data_pos && final(self).exit == old(self).exit
                    && final(self).choices_pos == old(self).choices_pos,
            },
            interactive_consistent(*old(self)) && !old(self).exit ==> interactive_consistent(
                *final(self),
            ),
    {
        match key {
            Key::Up => {
                if self.choices_pos > 0 {
                    self.choices_pos = self.choices_pos - 1;
                }
            },
            Key::Down => {
                let last = if self.choices.len() > 0 { self.choices.len() - 1 } else { 0 };
                let next = if self.choices_pos < usize::MAX { self.choices_pos + 1 } else { self.choices_pos };
                self.choices_pos = if next < last { next } else { last };
            },
            Key::Char(c) => {
                if c == ' ' {
                    self.done_choices.push(Some(self.choices_pos));
                    self.advance();
                } else if c == 's' {
                    self.done_choices.push(None);
                    self.advance();
                } else if c == 'c' {
                    let ghost start = self.done_choices@;
                    let mut i: usize = self.data_pos;
                    while i < self.data.len()
                        invariant
                            self.data == old(self).data,
                            self.choices == old(self).choices,
                            self.data_pos == old(self).data_pos,
                            self.choices_pos == old(self).choices_pos,
                            self.exit == old(self).exit,
                            start == old(self).done_choices@,
                            self.data_pos <= i <= self.data@.len(),
                            self.done_choices@.len() + self.data@.len() < usize::MAX + i - self.data_pos + 1,
                            self.done_choices@ == start + Seq::new(
                                (i - self.data_pos) as nat,
                                |k: int| None::<usize>,
                            ),
                        decreases self.data.len() - i,
                    {
                        self.done_choices.push(None);
                        proof {
                            assert(self.done_choices@ =~= start + Seq::new(
                                (i + 1 - self.data_pos) as nat,
                                |k: int| None::<usize>,
                            ));
                        }
                        i = i + 1;
                    }
                    self.exit = true;
                }
            },
            Key::Other => {},
        }
    }
}

/// The dialog moved on after an answer: to the next task, or it ended after the last one.
pub open spec fn advanced(before: InteractiveState, after: InteractiveState) -> bool {
    if before.data_pos < sat_pred(before.data@.len() as int) {
        after.data_pos == before.data_pos + 1 && after.exit == before.exit
    } else {
        after.data_pos == before.data_pos && after.exit
    }
}

// ---------------------------------------------------------------------------
/// How a file with a similar name is to be handled.
#[derive(Clone, Copy, Debug, PartialEq, Eq, Structural)]
pub enum SimilarNameResolution {
    Main,
    Undecided,
    Ignore,
    Remove,
    Skip,
}

/// Choosing how to handle each file of a cluster of similar names.
pub struct SimilarNamesState {
    pub file_paths: Vec<(String, SimilarNameResolution)>,
    pub position: usize,
    pub exit: bool,
}

pub open spec fn paths_of(fp: Seq<(String, SimilarNameResolution)>) -> Seq<Seq<char>> {
    fp.map_values(|p: (String, SimilarNameResolution)| p.0@)
}

pub open spec fn resolutions_of(fp: Seq<(String, SimilarNameResolution)>) -> Seq<SimilarNameResolution> {
    fp.map_values(|p: (String, SimilarNameResolution)| p.1)
}

/// The entry at `pos` after `change_resolution_for_position`: unchanged if it is the main file,
/// else the path at the cursor with the new resolution.
pub open spec fn changed_at(
    fp: Seq<(String, SimilarNameResolution)>,
    cursor: int,
    pos: int,
    res: SimilarNameResolution,
) -> Seq<(Seq<char>, SimilarNameResolution)> {
    let v = fp.map_values(|p: (String, SimilarNameResolution)| (p.0@, p.1));
    if fp[pos].1 == SimilarNameResolution::Main {
        v
    } else {
        v.update(pos, (fp[cursor].0@, res))
    }
}

pub open spec fn entries(fp: Seq<(String, SimilarNameResolution)>) -> Seq<(Seq<char>, SimilarNameResolution)> {
    fp.map_values(|p: (String, SimilarNameResolution)| (p.0@, p.1))
}

pub open spec fn has_main(fp: Seq<(String, SimilarNameResolution)>) -> bool {
    exists|i: int| 0 <= i < fp.len() && (#[trigger] fp[i]).1 == SimilarNameResolution::Main
}

impl SimilarNamesState {
    /// A dialog over the files, with the cursor on the second file (or the only one).
    pub fn new(file_paths: Vec<(String, SimilarNameResolution)>) -> (r: SimilarNamesState)
        ensures
            r.file_paths == file_paths,
            r.position == (if file_paths@.len() >= 2 {
                1usize
            } else {
                0usize
            }),
            !r.exit,
    {
        let len = file_paths.len();
        let last = if len > 0 { len - 1 } else { 0 };
        SimilarNamesState { file_paths, position: if 1 < last { 1 } else { last }, exit: false }
    }

    /// Gives the entry at `position` the resolution, unless it is the main file; the entry
    /// takes the path at the cursor.
    pub fn change_resolution_for_position(&mut self, resolution: SimilarNameResolution, position: usize)
        requires
            position < old(self).file_paths@.len(),
            old(self).position < old(self).file_paths@.len(),
        ensures
            final(self).position == old(self).position,
            final(self).exit == old(self).exit,
            final(self).file_paths@.len() == old(self).file_paths@.len(),
            entries(final(self).file_paths@) == changed_at(
                old(self).file_paths@,
                old(self).position as int,
                position as int,
                resolution,
            ),
    {
        if self.file_paths[position].1 != SimilarNameResolution::Main {
            let new_res = (self.file_paths[self.position].0.clone(), resolution);
            self.file_paths.set(position, new_res);
            proof {
                assert(entries(self.file_paths@) =~= changed_at(
                    old(self).file_paths@,
                    old(self).position as int,
                    position as int,
                    resolution,
                ));
            }
        }
    }

    /// Gives the entry at the cursor the resolution, unless it is the main file.
    pub fn change_resolution_for_current_position(&mut self, resolution: SimilarNameResolution)
        requires
            old(self).position < old(self).file_paths@.len(),
        ensures
            final(self).position == old(self).position,
            final(self).exit == old(self).exit,
            final(self).file_paths@.len() == old(self).file_paths@.len(),
            entries(final(self).file_paths@) == changed_at(
                old(self).file_paths@,
                old(self).position as int,
                old(self).position as int,
                resolution,
            ),
    {
        let p = self.position;
        self.change_resolution_for_position(resolution, p);
    }

    /// What a key does: `s`, `i` and `d` mark the file at the cursor to be skipped, ignored or
    /// removed; `m` makes it the main file (the old main file keeps its mark); `q` ends the
    /// dialog; up and down move the cursor within the list; other keys do nothing.
    pub fn handle_key_event(&mut self, key: Key)
        requires
            old(self).position < old(self).file_paths@.len(),
            key == Key::Char('m') ==> has_main(old(self).file_paths@),
        ensures
            final(self).position < final(self).file_paths@.len(),
            final(self).file_paths@.len() == old(self).file_paths@.len(),
            match key {
                Key::Char('s') => entries(final(self).file_paths@) == changed_at(
                    old(self).file_paths@,
                    old(self).position as int,
                    old(self).position as int,
                    SimilarNameResolution::Skip,
                ) && final(self).position == old(self).position && final(self).exit == old(self).exit,
                Key::Char('i') => entries(final(self).file_paths@) == changed_at(
                    old(self).file_paths@,
                    old(self).position as int,
                    old(self).position as int,
                    SimilarNameResolution::Ignore,
                ) && final(self).position == old(self).position && final(self).exit == old(self).exit,
                Key::Char('d') => entries(final(self).file_paths@) == changed_at(
                    old(self).file_paths@,
                    old(self).position as int,
                    old(self).position as int,
                    SimilarNameResolution::Remove,
                ) && final(self).position == old(self).position && final(self).exit == old(self).exit,
                Key::Char('m') => entries(final(self).file_paths@) == changed_at(
                    old(self).file_paths@,
                    old(self).position as int,
                    old(self).position as int,
                    SimilarNameResolution::Main,
                ) && final(self).position == old(self).position && final(self).exit == old(self).exit,
                Key::Char('q') => final(self).file_paths == old(self).file_paths && final(self).position
                    == old(self).position && final(self).exit,
                Key::Up => final(self).file_paths == old(self).file_paths && final(self).position
                    == sat_pred(old(self).position as int) && final(self).exit == old(self).exit,
                Key::Down => final(self).file_paths == old(self).file_paths && final(self).position
                    == (if old(self).position + 1 < old(self).file_paths@.len() {
                    old(self).position + 1
                } else {
                    old(self).position as int
                }) && final(self).exit == old(self).exit,
                _ => final(self).file_paths == old(self).file_paths && final(self).position
                    == old(self).position && final(self).exit == old(self).exit,
            },
    {
        match key {
            Key::Char(c) => {
                if c == 's' {
                    self.change_resolution_for_current_position(SimilarNameResolution::Skip);
                } else if c == 'i' {
                    self.change_resolution_for_current_position(SimilarNameResolution::Ignore);
                } else if c == 'd' {
                    self.change_resolution_for_current_position(SimilarNameResolution::Remove);
                } else if c == 'm' {
                    let mut main_pos: usize = 0;
                    while main_pos < self.file_paths.len()
                        && self.file_paths[main_pos].1 != SimilarNameResolution::Main
                        invariant
                            main_pos <= self.file_paths@.len(),
                            has_main(self.file_paths@),
                            forall|k: int|
                                0 <= k < main_pos ==> (#[trigger] self.file_paths@[k]).1
                                    != SimilarNameResolution::Main,
                        decreases self.file_paths.len() - main_pos,
                    {
                        main_pos = main_pos + 1;
                    }
                    proof {
                        if main_pos >= self.file_paths@.len() {
                            let k = choose|k: int|
                                0 <= k < self.file_paths@.len() && (#[trigger] self.file_paths@[k]).1
                                    == SimilarNameResolution::Main;
                            assert(self.file_paths@[k].1 != SimilarNameResolution::Main);
                        }
                    }
                    let ghost before = self.file_paths@;
                    self.change_resolution_for_position(SimilarNameResolution::Undecided, main_pos);
                    proof {
                        assert(entries(self.file_paths@) == entries(before));
                    }
                    let ghost mid = self.file_paths@;
                    self.change_resolution_for_current_position(SimilarNameResolution::Main);
                    proof {
                        assert(mid.len() == before.len());
                        assert forall|k: int| 0 <= k < mid.len() implies mid[k].1 == before[k].1
                            && mid[k].0@ == before[k].0@ by {
                            assert(entries(mid)[k] == entries(before)[k]);
                        }
                        assert(entries(self.file_paths@) =~= changed_at(
                            before,
                            old(self).position as int,
                            old(self).position as int,
                            SimilarNameResolution::Main,
                        ));
                    }
                } else if c == 'q' {
                    self.exit = true;
                }
            },
            Key::Up => {
                if self.position > 0 {
                    self.position = self.position - 1;
                }
            },
            Key::Down => {
                let last = self.file_paths.len() - 1;
                let next = self.position + 1;
                self.position = if next < last { next } else { last };
            },
            Key::Other => {},
        }
    }
}

// ---------------------------------------------------------------------------
/// Asking whether a file is to be overwritten: the old and the new text and a message.
pub struct OverwriteConfirmState {
    pub old: String,
    pub new: String,
    pub info: String,
    pub choice: bool,
    pub exit: bool,
}

impl OverwriteConfirmState {
    /// A dialog that has not been answered.
    pub fn new(old_text: String, new_text: String, info: String) -> (r: OverwriteConfirmState)
        ensures
            r.old == old_text,
            r.new == new_text,
            r.info == info,
            !r.choice,
            !r.exit,
    {
        OverwriteConfirmState { old: old_text, new: new_text, info, choice: false, exit: false }
    }

    /// `y` answers yes and `n` answers no, and either ends the dialog; other keys do nothing.
    pub fn handle_key_event(&mut self, key: Key)
        ensures
            final(self).old == old(self).old,
            final(self).new == old(self).new,
            final(self).info == old(self).info,
            match key {
                Key::Char('y') => final(self).choice && final(self).exit,
                Key::Char('n') => !final(self).choice && final(self).exit,
                _ => final(self).choice == old(self).choice && final(self).exit == old(self).exit,
            },
    {
        match key {
            Key::Char(c) => {
                if c == 'y' {
                    self.choice = true;
                    self.exit = true;
                } else if c == 'n' {
                    self.choice = false;
                    self.exit = true;
                }
            },
            _ => {},
        }
    }
}

} // verus!
