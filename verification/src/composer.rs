//! Chat input composer with history navigation and slash command completion.

use vstd::prelude::*;

use crate::strutil::{chars_eq, chars_of, is_prefix, str_has_prefix, string_from_chars};

verus! {

/// Maximum number of history entries to keep.
pub const MAX_HISTORY: usize = 100;

/// The slash commands offered by completion.
pub open spec fn spec_slash_commands() -> Seq<Seq<char>> {
    seq!["/help"@, "/job"@, "/status"@, "/cancel"@, "/list"@, "/tools"@, "/clear"@, "/quit"@]
}

/// The slash commands offered by completion.
pub fn slash_commands() -> (r: Vec<&'static str>)
    ensures
        r@.len() == spec_slash_commands().len(),
        forall|i: int| 0 <= i < r@.len() ==> r@[i]@ == #[trigger] spec_slash_commands()[i],
{
    let mut r: Vec<&'static str> = Vec::new();
    r.push("/help");
    r.push("/job");
    r.push("/status");
    r.push("/cancel");
    r.push("/list");
    r.push("/tools");
    r.push("/clear");
    r.push("/quit");
    proof {
        assert forall|i: int| 0 <= i < r@.len() implies r@[i]@ == #[trigger] spec_slash_commands()[i]
        by {
            if i == 0 {
            } else if i == 1 {
            } else if i == 2 {
            } else if i == 3 {
            } else if i == 4 {
            } else if i == 5 {
            } else if i == 6 {
            } else {
                assert(i == 7);
            }
        }
    }
    r
}

/// The commands of which `p` is a prefix, in command-list order.
pub open spec fn filter_prefix(cmds: Seq<Seq<char>>, p: Seq<char>) -> Seq<Seq<char>>
    decreases cmds.len(),
{
    if cmds.len() == 0 {
        Seq::empty()
    } else {
        filter_prefix(cmds.drop_last(), p).add(
            if is_prefix(p, cmds.last()) {
                seq![cmds.last()]
            } else {
                Seq::empty()
            },
        )
    }
}

/// The completion candidates for a buffer.
pub open spec fn matching_commands(buffer: Seq<char>) -> Seq<Seq<char>> {
    filter_prefix(spec_slash_commands(), buffer)
}

/// The mathematical state of a composer.
pub struct ComposerView {
    /// Current input characters.
    pub buffer: Seq<char>,
    /// Cursor position, counted in characters.
    pub cursor: int,
    /// Input history, most recent entry first.
    pub history: Seq<Seq<char>>,
    /// Current position in history; `None` means the live input.
    pub history_index: Option<int>,
    /// The live input saved while navigating history.
    pub saved_input: Seq<char>,
    /// Completion candidates.
    pub completions: Seq<Seq<char>>,
    /// Selected completion candidate.
    pub completion_index: Option<int>,
}

/// Chat input composer with history navigation and slash command completion.
pub struct ChatComposer {
    buffer: Vec<char>,
    cursor: usize,
    history: Vec<Vec<char>>,
    history_index: Option<usize>,
    saved_input: Vec<char>,
    completions: Vec<String>,
    completion_index: Option<usize>,
}

impl View for ChatComposer {
    type V = ComposerView;

    closed spec fn view(&self) -> ComposerView {
        ComposerView {
            buffer: self.buffer@,
            cursor: self.cursor as int,
            history: self.history.deep_view(),
            history_index: match self.history_index {
                Some(i) => Some(i as int),
                None => None,
            },
            saved_input: self.saved_input@,
            completions: self.completions.deep_view(),
            completion_index: match self.completion_index {
                Some(i) => Some(i as int),
                None => None,
            },
        }
    }
}

/// Well-formedness of a composer state.
pub open spec fn composer_wf(v: ComposerView) -> bool {
    &&& 0 <= v.cursor <= v.buffer.len()
    &&& v.history.len() <= MAX_HISTORY as int
    &&& match v.history_index {
        Some(i) => 0 <= i < v.history.len(),
        None => true,
    }
    &&& match v.completion_index {
        Some(i) => 0 <= i < v.completions.len(),
        None => true,
    }
}

impl ChatComposer {
    /// Well-formedness of this composer.
    pub open spec fn wf(&self) -> bool {
        composer_wf(self@)
    }

    /// Create a new composer.
    pub fn new() -> (r: Self)
        ensures
            r.wf(),
            r@.buffer == Seq::<char>::empty(),
            r@.cursor == 0,
            r@.history == Seq::<Seq<char>>::empty(),
            r@.history_index == None::<int>,
            r@.saved_input == Seq::<char>::empty(),
            r@.completions == Seq::<Seq<char>>::empty(),
            r@.completion_index == None::<int>,
    {
        let r = ChatComposer {
            buffer: Vec::new(),
            cursor: 0,
            history: Vec::new(),
            history_index: None,
            saved_input: Vec::new(),
            completions: Vec::new(),
            completion_index: None,
        };
        proof {
            assert(r@.history =~= Seq::<Seq<char>>::empty());
            assert(r@.completions =~= Seq::<Seq<char>>::empty());
        }
        r
    }

    /// Get the current input buffer.
    pub fn buffer(&self) -> (r: String)
        ensures
            r@ == self@.buffer,
    {
        string_from_chars(&self.buffer)
    }

    /// Get the cursor position, counted in characters.
    pub fn cursor(&self) -> (r: usize)
        ensures
            r as int == self@.cursor,
    {
        self.cursor
    }

    /// Check if the buffer is empty.
    pub fn is_empty(&self) -> (r: bool)
        ensures
            r == (self@.buffer.len() == 0),
    {
        self.buffer.len() == 0
    }

    /// Clear completion state.
    fn clear_completion(&mut self)
        ensures
            final(self)@ == (ComposerView {
                completions: Seq::<Seq<char>>::empty(),
                completion_index: None::<int>,
                ..old(self)@
            }),
    {
        self.completions.clear();
        self.completion_index = None;
        proof {
            assert(self@.completions =~= Seq::<Seq<char>>::empty());
        }
    }

    /// Insert a character at the cursor.
    pub fn insert(&mut self, c: char)
        requires
            old(self).wf(),
            old(self)@.buffer.len() < usize::MAX,
        ensures
            final(self).wf(),
            final(self)@ == (ComposerView {
                buffer: old(self)@.buffer.insert(old(self)@.cursor, c),
                cursor: old(self)@.cursor + 1,
                completions: Seq::<Seq<char>>::empty(),
                completion_index: None::<int>,
                ..old(self)@
            }),
    {
        self.clear_completion();
        self.buffer.insert(self.cursor, c);
        self.cursor = self.cursor + 1;
    }

    /// Insert a string at the cursor.
    pub fn insert_str(&mut self, s: &str)
        requires
            old(self).wf(),
            old(self)@.buffer.len() + s@.len() < usize::MAX,
        ensures
            final(self).wf(),
            final(self)@ == (ComposerView {
                buffer: old(self)@.buffer.subrange(0, old(self)@.cursor).add(s@).add(
                    old(self)@.buffer.skip(old(self)@.cursor),
                ),
                cursor: old(self)@.cursor + s@.len(),
                completions: Seq::<Seq<char>>::empty(),
                completion_index: None::<int>,
                ..old(self)@
            }),
    {
        self.clear_completion();
        let chars = chars_of(s);
        let mut i: usize = 0;
        let ghost base = self@.buffer;
        let ghost cur = self@.cursor;
        while i < chars.len()
            invariant
                i <= chars.len(),
                chars@ == s@,
                composer_wf(self@),
                cur == old(self)@.cursor,
                self@.cursor == cur + i,
                self@.buffer.len() == base.len() + i,
                base == old(self)@.buffer,
                base.len() + chars@.len() < usize::MAX,
                self@.buffer =~= base.subrange(0, cur).add(s@.subrange(0, i as int)).add(
                    base.skip(cur),
                ),
                self@.history == old(self)@.history,
                self@.history_index == old(self)@.history_index,
                self@.saved_input == old(self)@.saved_input,
                self@.completions == Seq::<Seq<char>>::empty(),
                self@.completion_index == None::<int>,
            decreases chars.len() - i,
        {
            self.buffer.insert(self.cursor, chars[i]);
            self.cursor = self.cursor + 1;
            i = i + 1;
            proof {
                assert(self@.buffer =~= base.subrange(0, cur).add(s@.subrange(0, i as int)).add(
                    base.skip(cur),
                ));
            }
        }
        proof {
            assert(s@.subrange(0, s@.len() as int) =~= s@);
            assert(final(self)@ =~= (ComposerView {
                buffer: old(self)@.buffer.subrange(0, old(self)@.cursor).add(s@).add(
                    old(self)@.buffer.skip(old(self)@.cursor),
                ),
                cursor: old(self)@.cursor + s@.len(),
                completions: Seq::<Seq<char>>::empty(),
                completion_index: None::<int>,
                ..old(self)@
            }));
        }
    }

    /// Delete the character before the cursor.
    pub fn backspace(&mut self)
        requires
            old(self).wf(),
        ensures
            final(self).wf(),
            old(self)@.cursor > 0 ==> final(self)@ == (ComposerView {
                buffer: old(self)@.buffer.remove(old(self)@.cursor - 1),
                cursor: old(self)@.cursor - 1,
                completions: Seq::<Seq<char>>::empty(),
                completion_index: None::<int>,
                ..old(self)@
            }),
            old(self)@.cursor == 0 ==> final(self)@ == (ComposerView {
                completions: Seq::<Seq<char>>::empty(),
                completion_index: None::<int>,
                ..old(self)@
            }),
    {
        self.clear_completion();
        if self.cursor > 0 {
            self.buffer.remove(self.cursor - 1);
            self.cursor = self.cursor - 1;
        }
    }

    /// Delete the character at the cursor.
    pub fn delete(&mut self)
        requires
            old(self).wf(),
        ensures
            final(self).wf(),
            old(self)@.cursor < old(self)@.buffer.len() ==> final(self)@ == (ComposerView {
                buffer: old(self)@.buffer.remove(old(self)@.cursor),
                completions: Seq::<Seq<char>>::empty(),
                completion_index: None::<int>,
                ..old(self)@
            }),
            old(self)@.cursor >= old(self)@.buffer.len() ==> final(self)@ == (ComposerView {
                completions: Seq::<Seq<char>>::empty(),
                completion_index: None::<int>,
                ..old(self)@
            }),
    {
        self.clear_completion();
        if self.cursor < self.buffer.len() {
            self.buffer.remove(self.cursor);
        }
    }

    /// Move the cursor one character left.
    pub fn move_left(&mut self)
        requires
            old(self).wf(),
        ensures
            final(self).wf(),
            final(self)@ == (ComposerView {
                cursor: if old(self)@.cursor > 0 {
                    old(self)@.cursor - 1
                } else {
                    0
                },
                ..old(self)@
            }),
    {
        if self.cursor > 0 {
            self.cursor = self.cursor - 1;
        }
    }

    /// Move the cursor one character right.
    pub fn move_right(&mut self)
        requires
            old(self).wf(),
        ensures
            final(self).wf(),
            final(self)@ == (ComposerView {
                cursor: if old(self)@.cursor < old(self)@.buffer.len() {
                    old(self)@.cursor + 1
                } else {
                    old(self)@.cursor
                },
                ..old(self)@
            }),
    {
        if self.cursor < self.buffer.len() {
            self.cursor = self.cursor + 1;
        }
    }

    /// Move the cursor to the start.
    pub fn move_home(&mut self)
        requires
            old(self).wf(),
        ensures
            final(self).wf(),
            final(self)@ == (ComposerView { cursor: 0, ..old(self)@ }),
    {
        self.cursor = 0;
    }

    /// Move the cursor to the end.
    pub fn move_end(&mut self)
        requires
            old(self).wf(),
        ensures
            final(self).wf(),
            final(self)@ == (ComposerView { cursor: old(self)@.buffer.len() as int, ..old(self)@ }),
    {
        self.cursor = self.buffer.len();
    }

    /// Delete from the cursor to the end of the line.
    pub fn kill_line(&mut self)
        requires
            old(self).wf(),
        ensures
            final(self).wf(),
            final(self)@ == (ComposerView {
                buffer: old(self)@.buffer.take(old(self)@.cursor),
                completions: Seq::<Seq<char>>::empty(),
                completion_index: None::<int>,
                ..old(self)@
            }),
    {
        self.clear_completion();
        self.buffer.truncate(self.cursor);
        proof {
            assert(self@.buffer =~= old(self)@.buffer.take(old(self)@.cursor));
        }
    }

    /// Delete from the start of the line to the cursor.
    pub fn kill_to_start(&mut self)
        requires
            old(self).wf(),
        ensures
            final(self).wf(),
            final(self)@ == (ComposerView {
                buffer: old(self)@.buffer.skip(old(self)@.cursor),
                cursor: 0,
                completions: Seq::<Seq<char>>::empty(),
                completion_index: None::<int>,
                ..old(self)@
            }),
    {
        self.clear_completion();
        let tail = self.buffer.split_off(self.cursor);
        self.buffer = tail;
        self.cursor = 0;
        proof {
            assert(self@.buffer =~= old(self)@.buffer.skip(old(self)@.cursor));
        }
    }

    /// Clear the entire buffer.
    pub fn clear(&mut self)
        requires
            old(self).wf(),
        ensures
            final(self).wf(),
            final(self)@ == (ComposerView {
                buffer: Seq::<char>::empty(),
                cursor: 0,
                completions: Seq::<Seq<char>>::empty(),
                completion_index: None::<int>,
                ..old(self)@
            }),
    {
        self.buffer.clear();
        self.cursor = 0;
        self.clear_completion();
        proof {
            assert(self@.buffer =~= Seq::<char>::empty());
        }
    }

    /// The history that results from submitting `input` against `history`.
    pub open spec fn history_after_submit(history: Seq<Seq<char>>, input: Seq<char>) -> Seq<
        Seq<char>,
    > {
        if input.len() == 0 || (history.len() > 0 && history[0] == input) {
            history
        } else if history.len() + 1 > MAX_HISTORY as int {
            seq![input].add(history.drop_last())
        } else {
            seq![input].add(history)
        }
    }

    /// Submit the current input: the buffer is returned and cleared, and the
    /// input is recorded at the front of the history unless it is empty or
    /// repeats the most recent entry.
    pub fn submit(&mut self) -> (input: String)
        requires
            old(self).wf(),
        ensures
            final(self).wf(),
            input@ == old(self)@.buffer,
            final(self)@ == (ComposerView {
                buffer: Seq::<char>::empty(),
                cursor: 0,
                history: Self::history_after_submit(old(self)@.history, old(self)@.buffer),
                history_index: None::<int>,
                saved_input: Seq::<char>::empty(),
                completions: Seq::<Seq<char>>::empty(),
                completion_index: None::<int>,
                ..old(self)@
            }),
    {
        let input = string_from_chars(&self.buffer);
        let chars = chars_of(input.as_str());
        self.buffer = Vec::new();
        self.cursor = 0;
        self.clear_completion();

        proof {
            if self.history@.len() > 0 {
                assert(self@.history[0] =~= self.history@[0]@);
            }
        }
        let repeats_front = if self.history.len() > 0 {
            chars_eq(&self.history[0], &chars)
        } else {
            false
        };
        if chars.len() > 0 && !repeats_front {
            self.history.insert(0, chars);
            if self.history.len() > MAX_HISTORY {
                self.history.pop();
            }
        }

        self.history_index = None;
        self.saved_input = Vec::new();
        proof {
            assert(self@.buffer =~= Seq::<char>::empty());
            assert(self@.saved_input =~= Seq::<char>::empty());
            assert(self@.completions =~= Seq::<Seq<char>>::empty());
            let oldh = old(self)@.history;
            let inp = old(self)@.buffer;
            if inp.len() == 0 || (oldh.len() > 0 && oldh[0] == inp) {
                assert(self@.history =~~= oldh);
            } else if oldh.len() + 1 > MAX_HISTORY as int {
                assert(self@.history =~~= seq![inp].add(oldh.drop_last()));
            } else {
                assert(self@.history =~~= seq![inp].add(oldh));
            }
        }
        input
    }

    /// Navigate to the previous (older) history entry.
    pub fn history_prev(&mut self)
        requires
            old(self).wf(),
        ensures
            final(self).wf(),
            final(self)@.history == old(self)@.history,
            old(self)@.history.len() == 0 ==> final(self)@ == old(self)@,
            old(self)@.history.len() > 0 && old(self)@.history_index is None ==> final(self)@
                == (ComposerView {
                buffer: old(self)@.history[0],
                cursor: old(self)@.history[0].len() as int,
                history_index: Some(0int),
                saved_input: old(self)@.buffer,
                completions: Seq::<Seq<char>>::empty(),
                completion_index: None::<int>,
                ..old(self)@
            }),
            old(self)@.history_index matches Some(i) ==> {
                &&& (i + 1 < old(self)@.history.len() ==> final(self)@ == (ComposerView {
                    buffer: old(self)@.history[i + 1],
                    cursor: old(self)@.history[i + 1].len() as int,
                    history_index: Some(i + 1),
                    completions: Seq::<Seq<char>>::empty(),
                    completion_index: None::<int>,
                    ..old(self)@
                }))
                &&& (i + 1 >= old(self)@.history.len() ==> final(self)@ == (ComposerView {
                    cursor: old(self)@.buffer.len() as int,
                    completions: Seq::<Seq<char>>::empty(),
                    completion_index: None::<int>,
                    ..old(self)@
                }))
            },
    {
        if self.history.len() == 0 {
            return ;
        }
        match self.history_index {
            None => {
                self.saved_input = self.buffer.split_off(0);
                self.buffer = Vec::new();
                self.history_index = Some(0);
                proof {
                    assert(self@.saved_input =~= old(self)@.buffer);
                }
                let entry = &self.history[0];
                let mut copy: Vec<char> = Vec::new();
                let mut i: usize = 0;
                while i < entry.len()
                    invariant
                        i <= entry.len(),
                        copy@ =~= entry@.subrange(0, i as int),
                    decreases entry.len() - i,
                {
                    copy.push(entry[i]);
                    proof {
                        assert(copy@ =~= entry@.subrange(0, i as int + 1));
                    }
                    i = i + 1;
                }
                proof {
                    assert(copy@ =~= entry@);
                    assert(copy@ =~= old(self)@.history[0]);
                }
                self.buffer = copy;
            },
            Some(i) => {
                if i + 1 < self.history.len() {
                    self.history_index = Some(i + 1);
                    let entry = &self.history[i + 1];
                    let mut copy: Vec<char> = Vec::new();
                    let mut k: usize = 0;
                    while k < entry.len()
                        invariant
                            k <= entry.len(),
                            copy@ =~= entry@.subrange(0, k as int),
                        decreases entry.len() - k,
                    {
                        copy.push(entry[k]);
                        proof {
                            assert(copy@ =~= entry@.subrange(0, k as int + 1));
                        }
                        k = k + 1;
                    }
                    proof {
                        assert(copy@ =~= entry@);
                        assert(copy@ =~= old(self)@.history[i as int + 1]);
                    }
                    self.buffer = copy;
                }
            },
        }
        self.cursor = self.buffer.len();
        self.clear_completion();
    }

    /// Navigate to the next (newer) history entry, back to the live input.
    pub fn history_next(&mut self)
        requires
            old(self).wf(),
        ensures
            final(self).wf(),
            final(self)@.history == old(self)@.history,
            old(self)@.history_index is None ==> final(self)@ == (ComposerView {
                cursor: old(self)@.buffer.len() as int,
                completions: Seq::<Seq<char>>::empty(),
                completion_index: None::<int>,
                ..old(self)@
            }),
            old(self)@.history_index matches Some(i) ==> {
                &&& (i == 0 ==> final(self)@ == (ComposerView {
                    buffer: old(self)@.saved_input,
                    cursor: old(self)@.saved_input.len() as int,
                    history_index: None::<int>,
                    saved_input: Seq::<char>::empty(),
                    completions: Seq::<Seq<char>>::empty(),
                    completion_index: None::<int>,
                    ..old(self)@
                }))
                &&& (i > 0 ==> final(self)@ == (ComposerView {
                    buffer: old(self)@.history[i - 1],
                    cursor: old(self)@.history[i - 1].len() as int,
                    history_index: Some(i - 1),
                    completions: Seq::<Seq<char>>::empty(),
                    completion_index: None::<int>,
                    ..old(self)@
                }))
            },
    {
        match self.history_index {
            Some(i) => {
                if i == 0 {
                    self.history_index = None;
                    let saved = self.saved_input.split_off(0);
                    self.saved_input = Vec::new();
                    self.buffer = saved;
                    proof {
                        assert(self@.saved_input =~= Seq::<char>::empty());
                        assert(self@.buffer =~= old(self)@.saved_input);
                    }
                } else {
                    self.history_index = Some(i - 1);
                    let entry = &self.history[i - 1];
                    let mut copy: Vec<char> = Vec::new();
                    let mut k: usize = 0;
                    while k < entry.len()
                        invariant
                            k <= entry.len(),
                            copy@ =~= entry@.subrange(0, k as int),
                        decreases entry.len() - k,
                    {
                        copy.push(entry[k]);
                        proof {
                            assert(copy@ =~= entry@.subrange(0, k as int + 1));
                        }
                        k = k + 1;
                    }
                    proof {
                        assert(copy@ =~= entry@);
                        assert(copy@ =~= old(self)@.history[i as int - 1]);
                    }
                    self.buffer = copy;
                }
            },
            None => {},
        }
        self.cursor = self.buffer.len();
        self.clear_completion();
    }

    /// Attempt tab completion over the slash commands.
    pub fn complete(&mut self)
        requires
            old(self).wf(),
        ensures
            final(self).wf(),
            final(self)@.history == old(self)@.history,
            final(self)@.history_index == old(self)@.history_index,
            final(self)@.saved_input == old(self)@.saved_input,
            !is_prefix(seq!['/'], old(self)@.buffer) ==> final(self)@ == old(self)@,
            is_prefix(seq!['/'], old(self)@.buffer) && old(self)@.completions.len() == 0 ==> {
                let cands = matching_commands(old(self)@.buffer);
                &&& final(self)@.completions == cands
                &&& (cands.len() > 0 ==> final(self)@.completion_index == Some(0int) && final(self)@.buffer == cands[0] && final(self)@.cursor == cands[0].len())
                &&& (cands.len() == 0 ==> final(self)@.completion_index == None::<int> && final(self)@.buffer == old(self)@.buffer && final(self)@.cursor == old(self)@.cursor)
            },
            old(self)@.completion_index matches Some(i) ==> ((is_prefix(
                seq!['/'],
                old(self)@.buffer,
            ) && old(self)@.completions.len() > 0) ==> {
                let n = old(self)@.completions.len() as int;
                let idx = (i + 1) % n;
                &&& final(self)@.completions == old(self)@.completions
                &&& final(self)@.completion_index == Some(idx)
                &&& final(self)@.buffer == old(self)@.completions[idx]
                &&& final(self)@.cursor == old(self)@.completions[idx].len()
            }),
            is_prefix(seq!['/'], old(self)@.buffer) && old(self)@.completions.len() > 0 && old(self)@.completion_index is None ==> final(self)@ == old(self)@,
    {
        let starts_with_slash = self.buffer.len() > 0 && self.buffer[0] == '/';
        proof {
            if starts_with_slash {
                assert(self@.buffer.subrange(0, 1) =~= seq!['/']);
            } else if self@.buffer.len() >= 1 {
                assert(self@.buffer.subrange(0, 1)[0] == self@.buffer[0]);
            }
        }
        if !starts_with_slash {
            return ;
        }
        if self.completions.len() == 0 {
            let cmds = slash_commands();
            let mut found: Vec<String> = Vec::new();
            let mut i: usize = 0;
            while i < cmds.len()
                invariant
                    i <= cmds.len(),
                    cmds@.len() == spec_slash_commands().len(),
                    forall|j: int|
                        0 <= j < cmds@.len() ==> cmds@[j]@ == #[trigger] spec_slash_commands()[j],
                    composer_wf(self@),
                    self@ == old(self)@,
                    found.deep_view() =~= filter_prefix(
                        spec_slash_commands().take(i as int),
                        self@.buffer,
                    ),
                decreases cmds.len() - i,
            {
                proof {
                    assert(spec_slash_commands().take(i as int + 1).drop_last()
                        =~= spec_slash_commands().take(i as int));
                    assert(spec_slash_commands().take(i as int + 1).last()
                        == spec_slash_commands()[i as int]);
                }
                if str_has_prefix(cmds[i], &self.buffer) {
                    found.push(cmds[i].to_owned());
                    proof {
                        assert(found.deep_view() =~= filter_prefix(
                            spec_slash_commands().take(i as int + 1),
                            self@.buffer,
                        ));
                    }
                } else {
                    proof {
                        assert(found.deep_view() =~= filter_prefix(
                            spec_slash_commands().take(i as int + 1),
                            self@.buffer,
                        ));
                    }
                }
                i = i + 1;
            }
            proof {
                assert(spec_slash_commands().take(spec_slash_commands().len() as int)
                    =~= spec_slash_commands());
            }
            self.completions = found;
            if self.completions.len() > 0 {
                self.completion_index = Some(0);
            }
        } else if let Some(i) = self.completion_index {
            self.completion_index = Some((i + 1) % self.completions.len());
        }

        if let Some(i) = self.completion_index {
            if i < self.completions.len() {
                let chosen = chars_of(self.completions[i].as_str());
                self.cursor = chosen.len();
                self.buffer = chosen;
            }
        }
    }

    /// Get the current completion hint, for display.
    pub fn completion_hint(&self) -> (r: Option<&str>)
        requires
            self.wf(),
        ensures
            match r {
                Some(s) => self@.completion_index matches Some(i) && s@ == self@.completions[i],
                None => self@.completion_index is None,
            },
    {
        match self.completion_index {
            Some(i) => Some(self.completions[i].as_str()),
            None => None,
        }
    }

    /// Get the number of completions available.
    pub fn completion_count(&self) -> (r: usize)
        ensures
            r as int == self@.completions.len(),
    {
        self.completions.len()
    }
}

impl Default for ChatComposer {
    fn default() -> (r: Self)
        ensures
            r.wf(),
            r@.buffer == Seq::<char>::empty(),
            r@.history == Seq::<Seq<char>>::empty(),
    {
        ChatComposer::new()
    }
}

} // verus!
