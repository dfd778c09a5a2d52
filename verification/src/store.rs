//! The task store: an ordered in-memory sequence of tasks, each a text with a
//! done flag. Positions shown to callers are 1-based and always refer to the
//! current order; removing a task shifts every later task one position down.

use vstd::prelude::*;

verus! {

/// One item of the task list: its text and whether it has been completed.
pub struct Task {
    pub task: String,
    pub done: bool,
}

impl View for Task {
    type V = (Seq<char>, bool);

    open spec fn view(&self) -> (Seq<char>, bool) {
        (self.task@, self.done)
    }
}

/// The ways an operation on the store, or the parsing of a position, can fail.
#[derive(Clone, Copy, Debug, PartialEq, Eq, Structural)]
pub enum TodoError {
    /// The text entered where a position was expected is not an unsigned
    /// decimal number that fits the machine's word.
    NotANumber,
    /// The position handed to `mark_done` is outside `[1, length]`.
    NotFound(usize),
    /// The position handed to `remove` is outside `[1, length]`.
    OutOfRange(usize),
}

/// The ordered in-memory collection of tasks for one session.
pub struct TaskStore {
    pub tasks: Vec<Task>,
}

impl View for TaskStore {
    type V = Seq<(Seq<char>, bool)>;

    open spec fn view(&self) -> Seq<(Seq<char>, bool)> {
        self.tasks@.map_values(|t: Task| t@)
    }
}

/// Whether `p` is a 1-based position of a live task in a store of state `s`.
pub open spec fn valid_pos(s: Seq<(Seq<char>, bool)>, p: int) -> bool {
    1 <= p <= s.len()
}

/// The store state after marking the task at valid position `p` done: the
/// task keeps its text, its flag becomes true, and nothing else changes.
pub open spec fn marked(s: Seq<(Seq<char>, bool)>, p: int) -> Seq<(Seq<char>, bool)> {
    s.update(p - 1, (s[p - 1].0, true))
}

/// The full listing of a store state: one entry per task, in store order,
/// carrying its 1-based position, its text and its done flag.
pub open spec fn entries(s: Seq<(Seq<char>, bool)>) -> Seq<(int, Seq<char>, bool)> {
    Seq::new(s.len(), |i: int| (i + 1, s[i].0, s[i].1))
}

/// The listing of the done tasks of a store state, in store order, each with
/// the 1-based position it holds in the full listing (not renumbered).
pub open spec fn done_entries(s: Seq<(Seq<char>, bool)>) -> Seq<(int, Seq<char>)>
    decreases s.len(),
{
    if s.len() == 0 {
        Seq::empty()
    } else if s.last().1 {
        done_entries(s.drop_last()).push((s.len() as int, s.last().0))
    } else {
        done_entries(s.drop_last())
    }
}

/// The listing of the pending (not done) tasks of a store state, in store
/// order, each with the 1-based position it holds in the full listing.
pub open spec fn pending_entries(s: Seq<(Seq<char>, bool)>) -> Seq<(int, Seq<char>)>
    decreases s.len(),
{
    if s.len() == 0 {
        Seq::empty()
    } else if !s.last().1 {
        pending_entries(s.drop_last()).push((s.len() as int, s.last().0))
    } else {
        pending_entries(s.drop_last())
    }
}

/// Appends a task at the end of the sequence it is handed.
pub fn add_todo_to_db(todo: Task, db: &mut Vec<Task>)
    ensures
        final(db)@ == old(db)@.push(todo),
{
    db.push(todo);
}

impl TaskStore {
    /// An empty store: the state every session starts from.
    pub fn new() -> (r: TaskStore)
        ensures
            r@ =~= Seq::<(Seq<char>, bool)>::empty(),
    {
        TaskStore { tasks: Vec::new() }
    }

    /// Adds a new, not-yet-done task with the given text at the end; every
    /// earlier task keeps its position, text and flag.
    pub fn append(&mut self, text: String)
        ensures
            final(self)@ == old(self)@.push((text@, false)),
    {
        add_todo_to_db(Task { task: text, done: false }, &mut self.tasks);
        proof {
            assert(self@ =~= old(self)@.push((text@, false)));
        }
    }

    /// Marks the task at 1-based `position` done. For a valid position only
    /// that task's flag changes (to true, whatever it was before); for any
    /// other position the store is left untouched and `NotFound` is signalled.
    pub fn mark_done(&mut self, position: usize) -> (r: Result<(), TodoError>)
        ensures
            valid_pos(old(self)@, position as int) ==> r == Ok::<(), TodoError>(()),
            valid_pos(old(self)@, position as int) ==> final(self)@ == marked(
                old(self)@,
                position as int,
            ),
            valid_pos(old(self)@, position as int) ==> final(self)@[position - 1]
                == ((old(self)@[position - 1].0, true)),
            !valid_pos(old(self)@, position as int) ==> r == Err::<(), TodoError>(
                TodoError::NotFound(position),
            ),
            !valid_pos(old(self)@, position as int) ==> final(self)@ == old(self)@,
            final(self)@.len() == old(self)@.len(),
            forall|i: int|
                0 <= i < old(self)@.len() && i != position - 1 ==> final(self)@[i] == old(
                    self,
                )@[i],
    {
        if 1 <= position && position <= self.tasks.len() {
            self.tasks[position - 1].done = true;
            proof {
                assert(self@ =~= marked(old(self)@, position as int));
            }
            Ok(())
        } else {
            Err(TodoError::NotFound(position))
        }
    }

    /// Removes the task at 1-based `position`. For a valid position exactly
    /// that task disappears: tasks before it are unchanged, every task after
    /// it moves one position earlier. For any other position the store is
    /// left untouched and `OutOfRange` is signalled.
    pub fn remove(&mut self, position: usize) -> (r: Result<(), TodoError>)
        ensures
            valid_pos(old(self)@, position as int) ==> r == Ok::<(), TodoError>(()),
            valid_pos(old(self)@, position as int) ==> final(self)@ == old(self)@.remove(
                position - 1,
            ),
            valid_pos(old(self)@, position as int) ==> final(self)@.len() == old(self)@.len() - 1,
            valid_pos(old(self)@, position as int) ==> forall|i: int|
                0 <= i < position - 1 ==> final(self)@[i] == old(self)@[i],
            valid_pos(old(self)@, position as int) ==> forall|i: int|
                position - 1 <= i < old(self)@.len() - 1 ==> final(self)@[i] == old(self)@[i + 1],
            !valid_pos(old(self)@, position as int) ==> r == Err::<(), TodoError>(
                TodoError::OutOfRange(position),
            ),
            !valid_pos(old(self)@, position as int) ==> final(self)@ == old(self)@,
    {
        if 1 <= position && position <= self.tasks.len() {
            self.tasks.remove(position - 1);
            proof {
                assert(self@ =~= old(self)@.remove(position - 1));
            }
            Ok(())
        } else {
            Err(TodoError::OutOfRange(position))
        }
    }

    /// Enumerates every task in store order as `(position, text, done)`,
    /// positions 1-based.
    pub fn list_all(&self) -> (r: Vec<(usize, String, bool)>)
        ensures
            r@.len() == entries(self@).len(),
            forall|j: int|
                0 <= j < r@.len() ==> #[trigger] r@[j].0 as int == entries(self@)[j].0,
            forall|j: int| 0 <= j < r@.len() ==> #[trigger] r@[j].1@ == entries(self@)[j].1,
            forall|j: int| 0 <= j < r@.len() ==> #[trigger] r@[j].2 == entries(self@)[j].2,
    {
        let mut out: Vec<(usize, String, bool)> = Vec::new();
        let mut i: usize = 0;
        while i < self.tasks.len()
            invariant
                i <= self.tasks.len(),
                out@.len() == i,
                forall|j: int| 0 <= j < i ==> #[trigger] out@[j].0 as int == j + 1,
                forall|j: int| 0 <= j < i ==> #[trigger] out@[j].1@ == self@[j].0,
                forall|j: int| 0 <= j < i ==> #[trigger] out@[j].2 == self@[j].1,
            decreases self.tasks.len() - i,
        {
            let t = &self.tasks[i];
            out.push((i + 1, t.task.clone(), t.done));
            i += 1;
        }
        out
    }

    /// Enumerates the done tasks in store order as `(position, text)`, each
    /// keeping the 1-based position it holds in the full listing.
    pub fn list_done(&self) -> (r: Vec<(usize, String)>)
        ensures
            r@.len() == done_entries(self@).len(),
            forall|j: int|
                0 <= j < r@.len() ==> #[trigger] r@[j].0 as int == done_entries(self@)[j].0,
            forall|j: int|
                0 <= j < r@.len() ==> #[trigger] r@[j].1@ == done_entries(self@)[j].1,
    {
        let mut out: Vec<(usize, String)> = Vec::new();
        let mut i: usize = 0;
        while i < self.tasks.len()
            invariant
                i <= self.tasks.len(),
                out@.len() == done_entries(self@.take(i as int)).len(),
                forall|j: int|
                    0 <= j < out@.len() ==> #[trigger] out@[j].0 as int == done_entries(
                        self@.take(i as int),
                    )[j].0,
                forall|j: int|
                    0 <= j < out@.len() ==> #[trigger] out@[j].1@ == done_entries(
                        self@.take(i as int),
                    )[j].1,
            decreases self.tasks.len() - i,
        {
            proof {
                assert(self@.take(i + 1).drop_last() =~= self@.take(i as int));
                assert(self@.take(i + 1).last() == self@[i as int]);
            }
            let t = &self.tasks[i];
            if t.done {
                out.push((i + 1, t.task.clone()));
            }
            i += 1;
        }
        proof {
            assert(self@.take(self@.len() as int) =~= self@);
        }
        out
    }

    /// Enumerates the pending (not done) tasks in store order as
    /// `(position, text)`, each keeping the 1-based position it holds in the
    /// full listing.
    pub fn list_pending(&self) -> (r: Vec<(usize, String)>)
        ensures
            r@.len() == pending_entries(self@).len(),
            forall|j: int|
                0 <= j < r@.len() ==> #[trigger] r@[j].0 as int == pending_entries(self@)[j].0,
            forall|j: int|
                0 <= j < r@.len() ==> #[trigger] r@[j].1@ == pending_entries(self@)[j].1,
    {
        let mut out: Vec<(usize, String)> = Vec::new();
        let mut i: usize = 0;
        while i < self.tasks.len()
            invariant
                i <= self.tasks.len(),
                out@.len() == pending_entries(self@.take(i as int)).len(),
                forall|j: int|
                    0 <= j < out@.len() ==> #[trigger] out@[j].0 as int == pending_entries(
                        self@.take(i as int),
                    )[j].0,
                forall|j: int|
                    0 <= j < out@.len() ==> #[trigger] out@[j].1@ == pending_entries(
                        self@.take(i as int),
                    )[j].1,
            decreases self.tasks.len() - i,
        {
            proof {
                assert(self@.take(i + 1).drop_last() =~= self@.take(i as int));
                assert(self@.take(i + 1).last() == self@[i as int]);
            }
            let t = &self.tasks[i];
            if !t.done {
                out.push((i + 1, t.task.clone()));
            }
            i += 1;
        }
        proof {
            assert(self@.take(self@.len() as int) =~= self@);
        }
        out
    }
}

/// Whether some entry of a filtered listing carries the 1-based position `p`.
pub open spec fn has_pos(es: Seq<(int, Seq<char>)>, p: int) -> bool {
    exists|j: int| 0 <= j < es.len() && #[trigger] es[j].0 == p
}

/// Appending a task extends the full listing by exactly one entry: it stands
/// at the end, its position is the new length (the task's 1-based insertion
/// rank), its flag is false, and every earlier entry keeps its position, text
/// and flag. So any sequence of appends, starting from the empty store, lists
/// the tasks in insertion order, none of them done, at positions equal to
/// their insertion ranks.
pub proof fn lemma_append_extends_listing(s: Seq<(Seq<char>, bool)>, text: Seq<char>)
    ensures
        entries(s.push((text, false))) == entries(s).push(((s.len() + 1) as int, text, false)),
        entries(Seq::<(Seq<char>, bool)>::empty()) == Seq::<(int, Seq<char>, bool)>::empty(),
{
    assert(entries(s.push((text, false))) =~= entries(s).push(((s.len() + 1) as int, text, false)));
    assert(entries(Seq::<(Seq<char>, bool)>::empty()) =~= Seq::<(int, Seq<char>, bool)>::empty());
}

/// Marking the task at a valid position done twice gives the same store state
/// as marking it once.
pub proof fn lemma_mark_done_idempotent(s: Seq<(Seq<char>, bool)>, p: int)
    requires
        valid_pos(s, p),
    ensures
        marked(marked(s, p), p) == marked(s, p),
{
    assert(marked(marked(s, p), p) =~= marked(s, p));
}

/// Every entry of the done listing names a valid position whose task is done
/// and carries that task's text; conversely every done task's position is
/// named by some entry.
pub proof fn lemma_done_entries_characterize(s: Seq<(Seq<char>, bool)>)
    ensures
        forall|j: int|
            0 <= j < done_entries(s).len() ==> valid_pos(s, #[trigger] done_entries(s)[j].0)
                && s[done_entries(s)[j].0 - 1].1 && done_entries(s)[j].1 == s[done_entries(
                s,
            )[j].0 - 1].0,
        forall|p: int| valid_pos(s, p) && s[p - 1].1 ==> has_pos(done_entries(s), p),
    decreases s.len(),
{
    if s.len() == 0 {
    } else {
        let t = s.drop_last();
        lemma_done_entries_characterize(t);
        assert(forall|i: int| 0 <= i < t.len() ==> t[i] == s[i]);
        if s.last().1 {
            let es = done_entries(s);
            let prefix = done_entries(t);
            assert(es == prefix.push((s.len() as int, s.last().0)));
            assert(forall|j: int| 0 <= j < prefix.len() ==> es[j] == prefix[j]);
            assert(es[es.len() - 1].0 == s.len() as int);
            assert forall|p: int| valid_pos(s, p) && s[p - 1].1 implies has_pos(es, p) by {
                if p == s.len() as int {
                    assert(es[es.len() - 1].0 == p);
                } else {
                    assert(valid_pos(t, p));
                    assert(t[p - 1] == s[p - 1]);
                    assert(has_pos(prefix, p));
                    let j = choose|j: int| 0 <= j < prefix.len() && #[trigger] prefix[j].0 == p;
                    assert(es[j].0 == p);
                }
            }
        } else {
            let es = done_entries(s);
            assert(es == done_entries(t));
            assert forall|p: int| valid_pos(s, p) && s[p - 1].1 implies has_pos(es, p) by {
                assert(p != s.len() as int);
                assert(valid_pos(t, p));
                assert(t[p - 1] == s[p - 1]);
                assert(has_pos(done_entries(t), p));
            }
        }
    }
}

/// Every entry of the pending listing names a valid position whose task is
/// not done and carries that task's text; conversely every pending task's
/// position is named by some entry.
pub proof fn lemma_pending_entries_characterize(s: Seq<(Seq<char>, bool)>)
    ensures
        forall|j: int|
            0 <= j < pending_entries(s).len() ==> valid_pos(s, #[trigger] pending_entries(s)[j].0)
                && !s[pending_entries(s)[j].0 - 1].1 && pending_entries(s)[j].1 == s[pending_entries(
                s,
            )[j].0 - 1].0,
        forall|p: int| valid_pos(s, p) && !s[p - 1].1 ==> has_pos(pending_entries(s), p),
    decreases s.len(),
{
    if s.len() == 0 {
    } else {
        let t = s.drop_last();
        lemma_pending_entries_characterize(t);
        assert(forall|i: int| 0 <= i < t.len() ==> t[i] == s[i]);
        if !s.last().1 {
            let es = pending_entries(s);
            let prefix = pending_entries(t);
            assert(es == prefix.push((s.len() as int, s.last().0)));
            assert(forall|j: int| 0 <= j < prefix.len() ==> es[j] == prefix[j]);
            assert(es[es.len() - 1].0 == s.len() as int);
            assert forall|p: int| valid_pos(s, p) && !s[p - 1].1 implies has_pos(es, p) by {
                if p == s.len() as int {
                    assert(es[es.len() - 1].0 == p);
                } else {
                    assert(valid_pos(t, p));
                    assert(t[p - 1] == s[p - 1]);
                    assert(has_pos(prefix, p));
                    let j = choose|j: int| 0 <= j < prefix.len() && #[trigger] prefix[j].0 == p;
                    assert(es[j].0 == p);
                }
            }
        } else {
            let es = pending_entries(s);
            assert(es == pending_entries(t));
            assert forall|p: int| valid_pos(s, p) && !s[p - 1].1 implies has_pos(es, p) by {
                assert(p != s.len() as int);
                assert(valid_pos(t, p));
                assert(t[p - 1] == s[p - 1]);
                assert(has_pos(pending_entries(t), p));
            }
        }
    }
}

/// The done and the pending listing partition the full listing by position:
/// a position is named by the done listing exactly when its task is done, by
/// the pending listing exactly when it is not, never by both, and every valid
/// position by one of the two; and the entry that names it carries the same
/// text as the full listing at that position.
pub proof fn lemma_done_pending_partition(s: Seq<(Seq<char>, bool)>)
    ensures
        forall|p: int| has_pos(done_entries(s), p) <==> (valid_pos(s, p) && s[p - 1].1),
        forall|p: int| has_pos(pending_entries(s), p) <==> (valid_pos(s, p) && !s[p - 1].1),
        forall|p: int| !(has_pos(done_entries(s), p) && has_pos(pending_entries(s), p)),
        forall|p: int|
            valid_pos(s, p) ==> (has_pos(done_entries(s), p) || has_pos(pending_entries(s), p)),
        forall|j: int|
            0 <= j < done_entries(s).len() ==> #[trigger] done_entries(s)[j].1 == entries(
                s,
            )[done_entries(s)[j].0 - 1].1,
        forall|j: int|
            0 <= j < pending_entries(s).len() ==> #[trigger] pending_entries(s)[j].1 == entries(
                s,
            )[pending_entries(s)[j].0 - 1].1,
{
    lemma_done_entries_characterize(s);
    lemma_pending_entries_characterize(s);
    assert forall|p: int| has_pos(done_entries(s), p) implies valid_pos(s, p) && s[p - 1].1 by {
        let j = choose|j: int|
            0 <= j < done_entries(s).len() && #[trigger] done_entries(s)[j].0 == p;
    }
    assert forall|p: int| has_pos(pending_entries(s), p) implies valid_pos(s, p) && !s[p
        - 1].1 by {
        let j = choose|j: int|
            0 <= j < pending_entries(s).len() && #[trigger] pending_entries(s)[j].0 == p;
    }
}

} // verus!
