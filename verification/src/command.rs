//! The pure side of the command loop: classifying one trimmed input line as
//! a command token or as new-task text, parsing the position the mark-done
//! and remove flows ask for, and the menu's command table.

use vstd::prelude::*;
use vstd::string::StrSliceExecFns;
use crate::store::{marked, valid_pos, TaskStore, TodoError};

verus! {

/// What one trimmed input line asks the loop to do.
#[derive(Clone, Copy, Debug, PartialEq, Eq, Structural)]
pub enum Action {
    /// The line is no command token: append it as a new task's text.
    New,
    /// `d`: prompt for a position and mark that task done.
    MarkDone,
    /// `r`: prompt for a position and remove that task.
    Remove,
    /// `t`: display the pending tasks.
    ViewTasks,
    /// `v`: display the done tasks.
    ViewDone,
    /// `a`: display all tasks, then pause for one line of input.
    ViewAll,
}

/// The classification rule: a line that is exactly one of the five reserved
/// single-character tokens selects its action; anything else, the empty line
/// included, is new-task text.
pub open spec fn action_for(s: Seq<char>) -> Action {
    if s.len() != 1 {
        Action::New
    } else if s[0] == 'a' {
        Action::ViewAll
    } else if s[0] == 'd' {
        Action::MarkDone
    } else if s[0] == 'r' {
        Action::Remove
    } else if s[0] == 't' {
        Action::ViewTasks
    } else if s[0] == 'v' {
        Action::ViewDone
    } else {
        Action::New
    }
}

/// Classifies one trimmed input line as a command token or new-task text.
pub fn choose_action(ch: &str) -> (r: Action)
    ensures
        r == action_for(ch@),
{
    let n = ch.unicode_len();
    if n != 1 {
        return Action::New;
    }
    let c = ch.get_char(0);
    if c == 'a' {
        Action::ViewAll
    } else if c == 'd' {
        Action::MarkDone
    } else if c == 'r' {
        Action::Remove
    } else if c == 't' {
        Action::ViewTasks
    } else if c == 'v' {
        Action::ViewDone
    } else {
        Action::New
    }
}

/// Whether `c` is a decimal digit.
pub open spec fn is_digit(c: char) -> bool {
    '0' as u32 <= c as u32 <= '9' as u32
}

/// The value of the decimal digit `c`.
pub open spec fn digit_val(c: char) -> int {
    c as u32 - '0' as u32
}

/// Whether `s` is a nonempty run of decimal digits: the texts this library
/// reads as an unsigned number.
pub open spec fn is_number(s: Seq<char>) -> bool {
    s.len() > 0 && forall|i: int| 0 <= i < s.len() ==> is_digit(#[trigger] s[i])
}

/// The value of the digit run `s`, read as a decimal numeral.
pub open spec fn number_of(s: Seq<char>) -> int
    decreases s.len(),
{
    if s.len() == 0 {
        0
    } else {
        10 * number_of(s.drop_last()) + digit_val(s.last())
    }
}

proof fn lemma_number_of_nonneg(s: Seq<char>)
    requires
        forall|i: int| 0 <= i < s.len() ==> is_digit(#[trigger] s[i]),
    ensures
        number_of(s) >= 0,
    decreases s.len(),
{
    if s.len() > 0 {
        assert(forall|i: int| 0 <= i < s.len() - 1 ==> s.drop_last()[i] == s[i]);
        lemma_number_of_nonneg(s.drop_last());
        assert(is_digit(s[s.len() - 1]));
    }
}

proof fn lemma_number_of_prefix_le(s: Seq<char>, i: int)
    requires
        0 <= i <= s.len(),
        forall|k: int| 0 <= k < s.len() ==> is_digit(#[trigger] s[k]),
    ensures
        number_of(s.take(i)) <= number_of(s),
    decreases s.len() - i,
{
    if i == s.len() {
        assert(s.take(i) =~= s);
    } else {
        lemma_number_of_prefix_le(s, i + 1);
        let p1 = s.take(i + 1);
        assert(p1.drop_last() =~= s.take(i));
        assert(p1.last() == s[i]);
        assert(forall|k: int| 0 <= k < i ==> s.take(i)[k] == s[k]);
        lemma_number_of_nonneg(s.take(i));
        assert(number_of(p1) == 10 * number_of(s.take(i)) + digit_val(s[i]));
        assert(is_digit(s[i]));
        assert(number_of(s.take(i)) <= number_of(p1));
    }
}

/// Parses the text entered where a position is expected. It succeeds exactly
/// on a nonempty run of decimal digits whose value fits the machine's word,
/// and returns that value; on anything else it reports `NotANumber`.
pub fn parse_position(s: &str) -> (r: Result<usize, TodoError>)
    ensures
        is_number(s@) && number_of(s@) <= usize::MAX ==> r == Ok::<usize, TodoError>(
            number_of(s@) as usize,
        ),
        !(is_number(s@) && number_of(s@) <= usize::MAX) ==> r == Err::<usize, TodoError>(
            TodoError::NotANumber,
        ),
{
    let n = s.unicode_len();
    if n == 0 {
        return Err(TodoError::NotANumber);
    }
    let mut i: usize = 0;
    let mut acc: usize = 0;
    while i < n
        invariant
            n == s@.len(),
            i <= n,
            forall|k: int| 0 <= k < i ==> is_digit(#[trigger] s@[k]),
            acc == number_of(s@.take(i as int)),
        decreases n - i,
    {
        let c = s.get_char(i);
        let d = c as u32;
        proof {
            assert(s@.take(i + 1).drop_last() =~= s@.take(i as int));
            assert(s@.take(i + 1).last() == s@[i as int]);
        }
        if d < 48 || d > 57 {
            proof {
                assert(!is_digit(s@[i as int]));
            }
            return Err(TodoError::NotANumber);
        }
        let dv = (d - 48) as usize;
        proof {
            assert(dv == digit_val(s@[i as int]));
        }
        let next: usize;
        match acc.checked_mul(10) {
            Some(p) => {
                match p.checked_add(dv) {
                    Some(v) => {
                        next = v;
                    },
                    None => {
                        proof {
                            if is_number(s@) {
                                lemma_number_of_prefix_le(s@, i + 1);
                            }
                        }
                        return Err(TodoError::NotANumber);
                    },
                }
            },
            None => {
                proof {
                    if is_number(s@) {
                        lemma_number_of_prefix_le(s@, i + 1);
                    }
                }
                return Err(TodoError::NotANumber);
            },
        }
        acc = next;
        i += 1;
    }
    proof {
        assert(s@.take(n as int) =~= s@);
    }
    Ok(acc)
}

/// The menu's command table: pushes the five reserved tokens, each with its
/// description, onto the vector it is handed, in menu order.
pub fn populate_commands(vec: &mut Vec<(&'static str, String)>)
    ensures
        final(vec)@.len() == old(vec)@.len() + 5,
        forall|i: int| 0 <= i < old(vec)@.len() ==> final(vec)@[i] == old(vec)@[i],
        final(vec)@[old(vec)@.len() as int].0@ == "a"@,
        final(vec)@[old(vec)@.len() as int].1@ == "View all todos"@,
        final(vec)@[old(vec)@.len() as int + 1].0@ == "d"@,
        final(vec)@[old(vec)@.len() as int + 1].1@ == "Mark task as done"@,
        final(vec)@[old(vec)@.len() as int + 2].0@ == "r"@,
        final(vec)@[old(vec)@.len() as int + 2].1@ == "Remove a task"@,
        final(vec)@[old(vec)@.len() as int + 3].0@ == "t"@,
        final(vec)@[old(vec)@.len() as int + 3].1@ == "View uncomplete tasks"@,
        final(vec)@[old(vec)@.len() as int + 4].0@ == "v"@,
        final(vec)@[old(vec)@.len() as int + 4].1@ == "View done tasks"@,
{
    vec.push(("a", "View all todos".to_owned()));
    vec.push(("d", "Mark task as done".to_owned()));
    vec.push(("r", "Remove a task".to_owned()));
    vec.push(("t", "View uncomplete tasks".to_owned()));
    vec.push(("v", "View done tasks".to_owned()));
}

/// The mark-done flow on one position line: parse the line, then mark. The
/// store changes exactly when the line is a number naming a valid position;
/// every failure leaves it untouched and says why.
pub fn mark_done_command(store: &mut TaskStore, line: &str) -> (r: Result<(), TodoError>)
    ensures
        !(is_number(line@) && number_of(line@) <= usize::MAX) ==> r == Err::<(), TodoError>(
            TodoError::NotANumber,
        ) && final(store)@ == old(store)@,
        is_number(line@) && number_of(line@) <= usize::MAX && valid_pos(
            old(store)@,
            number_of(line@),
        ) ==> r == Ok::<(), TodoError>(()) && final(store)@ == marked(
            old(store)@,
            number_of(line@),
        ),
        is_number(line@) && number_of(line@) <= usize::MAX && !valid_pos(
            old(store)@,
            number_of(line@),
        ) ==> r == Err::<(), TodoError>(TodoError::NotFound(number_of(line@) as usize))
            && final(store)@ == old(store)@,
{
    match parse_position(line) {
        Ok(position) => {
            proof {
                if is_number(line@) {
                    lemma_number_of_nonneg(line@);
                }
            }
            store.mark_done(position)
        },
        Err(e) => Err(e),
    }
}

/// The remove flow on one position line: parse the line, then remove. The
/// store changes exactly when the line is a number naming a valid position;
/// every failure leaves it untouched and says why.
pub fn remove_command(store: &mut TaskStore, line: &str) -> (r: Result<(), TodoError>)
    ensures
        !(is_number(line@) && number_of(line@) <= usize::MAX) ==> r == Err::<(), TodoError>(
            TodoError::NotANumber,
        ) && final(store)@ == old(store)@,
        is_number(line@) && number_of(line@) <= usize::MAX && valid_pos(
            old(store)@,
            number_of(line@),
        ) ==> r == Ok::<(), TodoError>(()) && final(store)@ == old(store)@.remove(
            number_of(line@) - 1,
        ),
        is_number(line@) && number_of(line@) <= usize::MAX && !valid_pos(
            old(store)@,
            number_of(line@),
        ) ==> r == Err::<(), TodoError>(TodoError::OutOfRange(number_of(line@) as usize))
            && final(store)@ == old(store)@,
{
    match parse_position(line) {
        Ok(position) => {
            proof {
                if is_number(line@) {
                    lemma_number_of_nonneg(line@);
                }
            }
            store.remove(position)
        },
        Err(e) => Err(e),
    }
}

} // verus!
