//! The live-mode selection state machine: the record list on display,
//! the cursor, the set of marked pids and the confirmation gate, driven
//! by key events and refresh ticks. The surrounding loop performs the
//! sampling, drawing and signalling; every decision is made here.

use std::collections::HashSet;
use vstd::prelude::*;

use crate::record::ProcessInfo;

verus! {

broadcast use vstd::std_specs::hash::group_hash_axioms;

/// A key event, reduced to what the selector reacts to.
#[derive(Clone, Copy, PartialEq, Eq, Structural, Debug)]
pub enum Key {
    Up,
    Down,
    Enter,
    Esc,
    Char(char),
    Other,
}

/// What a key event decides: keep running, or leave live mode; on
/// `Exit(true)` the caller signals the marked processes, on
/// `Exit(false)` it signals nothing.
#[derive(Clone, Copy, PartialEq, Eq, Structural, Debug)]
pub enum Outcome {
    Continue,
    Exit(bool),
}

/// Quit from browsing: `q` or escape.
pub open spec fn is_quit_key(k: Key) -> bool {
    k == Key::Esc || k == Key::Char('q')
}

/// Move the cursor up: arrow or `k`.
pub open spec fn is_up_key(k: Key) -> bool {
    k == Key::Up || k == Key::Char('k')
}

/// Move the cursor down: arrow or `j`.
pub open spec fn is_down_key(k: Key) -> bool {
    k == Key::Down || k == Key::Char('j')
}

/// Toggle the mark on the record under the cursor: space.
pub open spec fn is_mark_key(k: Key) -> bool {
    k == Key::Char(' ')
}

/// Where the cursor lands when the record list is replaced: clamped to
/// the last record, or to zero when nothing is left.
pub open spec fn clamp_cursor(cursor: int, len: int) -> int {
    if len == 0 {
        0
    } else if cursor >= len {
        len - 1
    } else {
        cursor
    }
}

/// The live-mode session state.
pub struct SelectionState {
    pub records: Vec<ProcessInfo>,
    pub cursor: usize,
    pub marked: HashSet<u32>,
    pub confirm_pending: bool,
}

impl SelectionState {
    /// The cursor addresses a record whenever any exist, and rests at
    /// zero otherwise.
    pub open spec fn wf(self) -> bool {
        if self.records@.len() == 0 {
            self.cursor == 0
        } else {
            (self.cursor as int) < self.records@.len()
        }
    }

    /// A fresh session: browsing, cursor at the first record, nothing
    /// marked.
    pub fn new(records: Vec<ProcessInfo>) -> (s: Self)
        ensures
            s.wf(),
            s.records == records,
            s.cursor == 0,
            s.marked@ == Set::<u32>::empty(),
            !s.confirm_pending,
    {
        SelectionState { records, cursor: 0, marked: HashSet::new(), confirm_pending: false }
    }

    /// A refresh tick replaces the record list and re-clamps the
    /// cursor; while a confirmation is pending the tick is suppressed.
    /// Marks survive untouched: they are pids, not row indices.
    pub fn on_refresh(&mut self, new_records: Vec<ProcessInfo>)
        requires
            old(self).wf(),
        ensures
            final(self).wf(),
            final(self).marked == old(self).marked,
            final(self).confirm_pending == old(self).confirm_pending,
            old(self).confirm_pending ==> final(self).records == old(self).records && final(self).cursor == old(self).cursor,
            !old(self).confirm_pending ==> final(self).records == new_records && final(self).cursor as int == clamp_cursor(old(self).cursor as int, new_records@.len() as int),
    {
        if self.confirm_pending {
            return ;
        }
        let len = new_records.len();
        self.records = new_records;
        if len == 0 {
            self.cursor = 0;
        } else if self.cursor >= len {
            self.cursor = len - 1;
        }
    }

    /// One key event. The two states dispatch differently: while a
    /// confirmation is pending only confirm and cancel are heard;
    /// while browsing, quit clears the marks and leaves, the arrows
    /// move the cursor without wrapping, space toggles the mark under
    /// the cursor, and enter opens the confirmation gate only when
    /// something is marked.
    pub fn on_key(&mut self, key: Key) -> (o: Outcome)
        requires
            old(self).wf(),
        ensures
            final(self).wf(),
            final(self).records == old(self).records,
            old(self).confirm_pending ==> match key {
                Key::Enter => o == Outcome::Exit(true) && *final(self) == *old(self),
                Key::Esc => o == Outcome::Continue && final(self).cursor == old(self).cursor
                    && final(self).marked == old(self).marked && !final(self).confirm_pending,
                _ => o == Outcome::Continue && *final(self) == *old(self),
            },
            !old(self).confirm_pending ==> {
                let s0 = *old(self);
                if is_quit_key(key) {
                    o == Outcome::Exit(false) && final(self).marked@ == Set::<u32>::empty()
                        && final(self).cursor == s0.cursor && !final(self).confirm_pending
                } else if is_up_key(key) {
                    o == Outcome::Continue && final(self).marked == s0.marked && !final(self).confirm_pending && final(self).cursor as int == (if s0.cursor > 0 {
                        s0.cursor - 1
                    } else {
                        0int
                    })
                } else if is_down_key(key) {
                    o == Outcome::Continue && final(self).marked == s0.marked && !final(self).confirm_pending && final(self).cursor as int == (if s0.cursor + 1
                        < s0.records@.len() {
                        s0.cursor + 1
                    } else {
                        s0.cursor as int
                    })
                } else if is_mark_key(key) {
                    o == Outcome::Continue && final(self).cursor == s0.cursor && !final(self).confirm_pending && final(self).marked@ == (if s0.records@.len() == 0 {
                        s0.marked@
                    } else {
                        let pid = s0.records@[s0.cursor as int].pid;
                        if s0.marked@.contains(pid) {
                            s0.marked@.remove(pid)
                        } else {
                            s0.marked@.insert(pid)
                        }
                    })
                } else if key == Key::Enter {
                    o == Outcome::Continue && final(self).cursor == s0.cursor && final(self).marked
                        == s0.marked && final(self).confirm_pending == !s0.marked@.is_empty()
                } else {
                    o == Outcome::Continue && *final(self) == s0
                }
            },
    {
        if self.confirm_pending {
            match key {
                Key::Enter => Outcome::Exit(true),
                Key::Esc => {
                    self.confirm_pending = false;
                    Outcome::Continue
                },
                _ => Outcome::Continue,
            }
        } else {
            match key {
                Key::Esc => {
                    self.marked = HashSet::new();
                    Outcome::Exit(false)
                },
                Key::Char('q') => {
                    self.marked = HashSet::new();
                    Outcome::Exit(false)
                },
                Key::Up => {
                    self.move_up();
                    Outcome::Continue
                },
                Key::Char('k') => {
                    self.move_up();
                    Outcome::Continue
                },
                Key::Down => {
                    self.move_down();
                    Outcome::Continue
                },
                Key::Char('j') => {
                    self.move_down();
                    Outcome::Continue
                },
                Key::Char(' ') => {
                    self.toggle_mark();
                    Outcome::Continue
                },
                Key::Enter => {
                    if !self.marked.is_empty() {
                        self.confirm_pending = true;
                    }
                    Outcome::Continue
                },
                _ => Outcome::Continue,
            }
        }
    }

    /// Cursor one step towards the first record, stopping there.
    fn move_up(&mut self)
        requires
            old(self).wf(),
        ensures
            final(self).wf(),
            final(self).records == old(self).records,
            final(self).marked == old(self).marked,
            final(self).confirm_pending == old(self).confirm_pending,
            final(self).cursor as int == (if old(self).cursor > 0 {
                old(self).cursor - 1
            } else {
                0int
            }),
    {
        if self.cursor > 0 {
            self.cursor = self.cursor - 1;
        }
    }

    /// Cursor one step towards the last record, stopping there.
    fn move_down(&mut self)
        requires
            old(self).wf(),
        ensures
            final(self).wf(),
            final(self).records == old(self).records,
            final(self).marked == old(self).marked,
            final(self).confirm_pending == old(self).confirm_pending,
            final(self).cursor as int == (if old(self).cursor + 1 < old(self).records@.len() {
                old(self).cursor + 1
            } else {
                old(self).cursor as int
            }),
    {
        if self.records.len() > 0 && self.cursor < self.records.len() - 1 {
            self.cursor = self.cursor + 1;
        }
    }

    /// Mark or unmark the pid of the record under the cursor; with no
    /// records on display there is nothing to mark.
    fn toggle_mark(&mut self)
        requires
            old(self).wf(),
        ensures
            final(self).wf(),
            final(self).records == old(self).records,
            final(self).cursor == old(self).cursor,
            final(self).confirm_pending == old(self).confirm_pending,
            final(self).marked@ == (if old(self).records@.len() == 0 {
                old(self).marked@
            } else {
                let pid = old(self).records@[old(self).cursor as int].pid;
                if old(self).marked@.contains(pid) {
                    old(self).marked@.remove(pid)
                } else {
                    old(self).marked@.insert(pid)
                }
            }),
    {
        if self.records.len() == 0 {
            return ;
        }
        let pid = self.records[self.cursor].pid;
        if self.marked.contains(&pid) {
            self.marked.remove(&pid);
        } else {
            self.marked.insert(pid);
        }
    }

    /// The processes a confirmed exit signals: the records on display
    /// whose pid is marked, in display order.
    pub fn kill_list(&self) -> (v: Vec<ProcessInfo>)
        ensures
            v@ == self.records@.filter(|p: ProcessInfo| self.marked@.contains(p.pid)),
    {
        let ghost pred = |p: ProcessInfo| self.marked@.contains(p.pid);
        let mut v: Vec<ProcessInfo> = Vec::new();
        let mut i: usize = 0;
        while i < self.records.len()
            invariant
                i <= self.records@.len(),
                pred == (|p: ProcessInfo| self.marked@.contains(p.pid)),
                v@ == self.records@.take(i as int).filter(pred),
            decreases self.records@.len() - i,
        {
            let ghost s = self.records@;
            let ghost elem = s[i as int];
            let ghost prev = v@;
            let pid = self.records[i].pid;
            if self.marked.contains(&pid) {
                v.push(self.records[i].clone());
                proof {
                    assert(pred(elem));
                    assert(v@ =~= prev + seq![elem]);
                }
            } else {
                proof {
                    assert(!pred(elem));
                }
            }
            proof {
                assert(s.take(i + 1) =~= s.take(i as int) + seq![elem]);
                Seq::filter_distributes_over_add(s.take(i as int), seq![elem], pred);
                reveal_with_fuel(Seq::<_>::filter, 2);
                assert(seq![elem].drop_last() =~= Seq::<ProcessInfo>::empty());
                if pred(elem) {
                    assert(seq![elem].filter(pred) =~= seq![elem]);
                } else {
                    assert(seq![elem].filter(pred) =~= Seq::<ProcessInfo>::empty());
                    assert(v@ == prev);
                }
                assert(v@ == s.take(i + 1).filter(pred));
            }
            i = i + 1;
        }
        proof {
            assert(self.records@.take(self.records@.len() as int) =~= self.records@);
        }
        v
    }
}

/// The cursor never addresses a position outside the record list:
/// while records are shown it lies between the first and the last, and
/// with none shown it rests at zero.
pub proof fn lemma_cursor_in_range(s: SelectionState)
    requires
        s.wf(),
    ensures
        s.records@.len() > 0 ==> 0 <= s.cursor < s.records@.len(),
        s.records@.len() == 0 ==> s.cursor == 0,
{
}

} // verus!
