//! The handle that a command's callback receives: the auxiliary windows,
//! which it may open and close by name, and the console's own switches.

use vstd::prelude::*;
use crate::text::same_text;

verus! {

/// The state of each window in `table`; where a name stands twice, its
/// first entry counts.
pub open spec fn windows_of(table: Seq<(String, bool)>) -> Map<Seq<char>, bool>
    decreases table.len(),
{
    if table.len() == 0 {
        Map::empty()
    } else {
        windows_of(table.drop_first()).insert(table[0].0@, table[0].1)
    }
}

/// A table without the name `id` says nothing of it.
pub proof fn lemma_window_unknown(table: Seq<(String, bool)>, id: Seq<char>)
    requires
        forall|k: int| 0 <= k < table.len() ==> (#[trigger] table[k]).0@ != id,
    ensures
        !windows_of(table).contains_key(id),
    decreases table.len(),
{
    if table.len() > 0 {
        let rest = table.drop_first();
        assert forall|k: int| 0 <= k < rest.len() implies (#[trigger] rest[k]).0@ != id by {
            assert(rest[k] == table[k + 1]);
        }
        lemma_window_unknown(rest, id);
    }
}

/// Changing the first entry of a name changes the state of that name, and
/// of no other.
pub proof fn lemma_window_set(table: Seq<(String, bool)>, i: int, entry: (String, bool))
    requires
        0 <= i < table.len(),
        entry.0@ == table[i].0@,
        forall|k: int| 0 <= k < i ==> (#[trigger] table[k]).0@ != entry.0@,
    ensures
        windows_of(table).contains_key(entry.0@),
        windows_of(table.update(i, entry)) == windows_of(table).insert(entry.0@, entry.1),
    decreases table.len(),
{
    let rest = table.drop_first();
    if i == 0 {
        assert(table.update(i, entry).drop_first() =~= rest);
        assert(windows_of(table.update(i, entry)) =~= windows_of(table).insert(entry.0@, entry.1));
    } else {
        assert forall|k: int| 0 <= k < i - 1 implies (#[trigger] rest[k]).0@ != entry.0@ by {
            assert(rest[k] == table[k + 1]);
        }
        lemma_window_set(rest, i - 1, entry);
        assert(table.update(i, entry).drop_first() =~= rest.update(i - 1, entry));
        assert(table[0].0@ != entry.0@);
        assert(windows_of(table.update(i, entry)) =~= windows_of(table).insert(entry.0@, entry.1));
    }
}

/// A new entry behind the others gives a new name its state.
pub proof fn lemma_window_added(table: Seq<(String, bool)>, entry: (String, bool))
    requires
        !windows_of(table).contains_key(entry.0@),
    ensures
        windows_of(table.push(entry)) == windows_of(table).insert(entry.0@, entry.1),
    decreases table.len(),
{
    if table.len() == 0 {
        assert(table.push(entry).drop_first() =~= table);
        assert(windows_of(table.push(entry)) =~= windows_of(table).insert(entry.0@, entry.1));
    } else {
        let rest = table.drop_first();
        lemma_window_added(rest, entry);
        assert(table.push(entry).drop_first() =~= rest.push(entry));
        assert(windows_of(table.push(entry)) =~= windows_of(table).insert(entry.0@, entry.1));
    }
}

/// What a callback may reach beyond its arguments.
pub struct ConsoleCommandInterface {
    debug_windows: Vec<(String, bool)>,
    debug_trace: bool,
    exit_requested: bool,
}

impl ConsoleCommandInterface {
    /// Each known window with whether it is open.
    pub closed spec fn windows(&self) -> Map<Seq<char>, bool> {
        windows_of(self.debug_windows@)
    }

    /// Whether the console logs how it reads each line.
    pub closed spec fn tracing(&self) -> bool {
        self.debug_trace
    }

    /// Whether a command has asked the application to end.
    pub closed spec fn exiting(&self) -> bool {
        self.exit_requested
    }

    /// A handle over no windows, with tracing off.
    pub fn new() -> (handle: Self)
        ensures
            handle.windows() == Map::<Seq<char>, bool>::empty(),
            !handle.tracing(),
            !handle.exiting(),
    {
        ConsoleCommandInterface {
            debug_windows: Vec::new(),
            debug_trace: false,
            exit_requested: false,
        }
    }

    /// Makes the window `id` known, closed. A window already known keeps
    /// its state; the result says whether `id` was new.
    pub fn add_debug_window(&mut self, id: String) -> (added: bool)
        ensures
            added == !old(self).windows().contains_key(id@),
            final(self).windows() == (if added {
                old(self).windows().insert(id@, false)
            } else {
                old(self).windows()
            }),
            final(self).tracing() == old(self).tracing(),
            final(self).exiting() == old(self).exiting(),
    {
        let (i, found) = self.find(&id);
        if found {
            false
        } else {
            proof {
                lemma_window_added(self.debug_windows@, (id, false));
            }
            self.debug_windows.push((id, false));
            true
        }
    }

    /// The first place at which the table names `id`, and whether there is
    /// one.
    fn find(&self, id: &String) -> (r: (usize, bool))
        ensures
            r.1 == self.windows().contains_key(id@),
            r.1 ==> r.0 < self.debug_windows@.len() && self.debug_windows@[r.0 as int].0@ == id@
                && self.windows()[id@] == self.debug_windows@[r.0 as int].1,
            forall|k: int| 0 <= k < r.0 && k < self.debug_windows@.len() ==> (
            #[trigger] self.debug_windows@[k]).0@ != id@,
    {
        let mut i: usize = 0;
        while i < self.debug_windows.len()
            invariant
                i <= self.debug_windows@.len(),
                forall|k: int| 0 <= k < i ==> (#[trigger] self.debug_windows@[k]).0@ != id@,
            decreases self.debug_windows@.len() - i,
        {
            if same_text(self.debug_windows[i].0.as_str(), id.as_str()) {
                proof {
                    let table = self.debug_windows@;
                    lemma_window_set(table, i as int, table[i as int]);
                    assert(table.update(i as int, table[i as int]) =~= table);
                }
                return (i, true);
            }
            i += 1;
        }
        proof {
            lemma_window_unknown(self.debug_windows@, id@);
        }
        (i, false)
    }

    /// Whether the window `id` is open; `None` where no such window is known.
    pub fn is_debug_window_open(&self, id: &String) -> (state: Option<bool>)
        ensures
            state == (if self.windows().contains_key(id@) {
                Some(self.windows()[id@])
            } else {
                None
            }),
    {
        let (i, found) = self.find(id);
        if found {
            Some(self.debug_windows[i].1)
        } else {
            None
        }
    }

    /// Opens the window `id`. The result says whether `id` is known.
    pub fn open_debug_window(&mut self, id: &String) -> (known: bool)
        ensures
            known == old(self).windows().contains_key(id@),
            final(self).windows() == (if known {
                old(self).windows().insert(id@, true)
            } else {
                old(self).windows()
            }),
            final(self).tracing() == old(self).tracing(),
            final(self).exiting() == old(self).exiting(),
    {
        self.set_open_debug_window(id, true)
    }

    /// Closes the window `id`. The result says whether `id` is known.
    pub fn close_debug_window(&mut self, id: &String) -> (known: bool)
        ensures
            known == old(self).windows().contains_key(id@),
            final(self).windows() == (if known {
                old(self).windows().insert(id@, false)
            } else {
                old(self).windows()
            }),
            final(self).tracing() == old(self).tracing(),
            final(self).exiting() == old(self).exiting(),
    {
        self.set_open_debug_window(id, false)
    }

    /// Opens or closes the window `id`. The result says whether `id` is
    /// known.
    pub fn set_open_debug_window(&mut self, id: &String, set_open: bool) -> (known: bool)
        ensures
            known == old(self).windows().contains_key(id@),
            final(self).windows() == (if known {
                old(self).windows().insert(id@, set_open)
            } else {
                old(self).windows()
            }),
            final(self).tracing() == old(self).tracing(),
            final(self).exiting() == old(self).exiting(),
    {
        let (i, found) = self.find(id);
        if found {
            let entry: (String, bool) = (id.clone(), set_open);
            proof {
                lemma_window_set(self.debug_windows@, i as int, entry);
            }
            self.debug_windows.set(i, entry);
            true
        } else {
            false
        }
    }

    /// Whether the console logs how it reads each line.
    pub fn debug_trace(&self) -> (on: bool)
        ensures
            on == self.tracing(),
    {
        self.debug_trace
    }

    /// Turns the logging of how each line is read on or off.
    pub fn set_debug_trace(&mut self, on: bool)
        ensures
            final(self).tracing() == on,
            final(self).windows() == old(self).windows(),
            final(self).exiting() == old(self).exiting(),
    {
        self.debug_trace = on;
    }

    /// Whether a command has asked the application to end.
    pub fn exit_called(&self) -> (asked: bool)
        ensures
            asked == self.exiting(),
    {
        self.exit_requested
    }

    /// Asks the application to end.
    pub fn request_exit(&mut self)
        ensures
            final(self).exiting(),
            final(self).windows() == old(self).windows(),
            final(self).tracing() == old(self).tracing(),
    {
        self.exit_requested = true;
    }
}

} // verus!
