use todo_list::command::{
    choose_action, mark_done_command, parse_position, populate_commands, remove_command, Action,
};
use todo_list::store::{add_todo_to_db, Task, TaskStore, TodoError};

fn store_of(texts: &[&str]) -> TaskStore {
    let mut st = TaskStore::new();
    for t in texts {
        st.append((*t).to_string());
    }
    st
}

#[test]
fn append_keeps_insertion_order() {
    let st = store_of(&["first", "second", "third"]);
    let all = st.list_all();
    assert_eq!(all.len(), 3);
    assert_eq!(all[0].0, 1);
    assert_eq!(all[0].1, "first");
    assert!(!all[0].2);
    assert_eq!(all[1].0, 2);
    assert_eq!(all[1].1, "second");
    assert!(!all[1].2);
    assert_eq!(all[2].0, 3);
    assert_eq!(all[2].1, "third");
    assert!(!all[2].2);
}

#[test]
fn append_accepts_empty_text() {
    let st = store_of(&["", ""]);
    let all = st.list_all();
    assert_eq!(all.len(), 2);
    assert_eq!(all[0].1, "");
    assert_eq!(all[1].1, "");
}

#[test]
fn add_todo_to_db_pushes_at_end() {
    let mut db: Vec<Task> = Vec::new();
    add_todo_to_db(
        Task { task: "kept as given".to_string(), done: true },
        &mut db,
    );
    add_todo_to_db(
        Task { task: "later".to_string(), done: false },
        &mut db,
    );
    assert_eq!(db.len(), 2);
    assert_eq!(db[0].task, "kept as given");
    assert!(db[0].done);
    assert_eq!(db[1].task, "later");
    assert!(!db[1].done);
}

#[test]
fn mark_done_touches_only_that_task() {
    let mut st = store_of(&["a", "b", "c"]);
    assert_eq!(st.mark_done(2), Ok(()));
    let all = st.list_all();
    assert_eq!(all[0].1, "a");
    assert!(!all[0].2);
    assert_eq!(all[1].1, "b");
    assert!(all[1].2);
    assert_eq!(all[2].1, "c");
    assert!(!all[2].2);
}

#[test]
fn mark_done_twice_is_idempotent() {
    let mut st = store_of(&["a", "b"]);
    assert_eq!(st.mark_done(1), Ok(()));
    let once = st.list_all();
    assert_eq!(st.mark_done(1), Ok(()));
    let twice = st.list_all();
    assert_eq!(once, twice);
}

#[test]
fn mark_done_out_of_range_changes_nothing() {
    let mut st = store_of(&["a", "b"]);
    let before = st.list_all();
    assert_eq!(st.mark_done(0), Err(TodoError::NotFound(0)));
    assert_eq!(st.mark_done(3), Err(TodoError::NotFound(3)));
    assert_eq!(st.list_all(), before);
}

#[test]
fn remove_shifts_later_tasks_down() {
    let mut st = store_of(&["a", "b", "c", "d"]);
    assert_eq!(st.mark_done(4), Ok(()));
    assert_eq!(st.remove(2), Ok(()));
    let all = st.list_all();
    assert_eq!(all.len(), 3);
    assert_eq!(all[0], (1, "a".to_string(), false));
    assert_eq!(all[1], (2, "c".to_string(), false));
    assert_eq!(all[2], (3, "d".to_string(), true));
}

#[test]
fn remove_invalid_changes_nothing() {
    let mut st = store_of(&["a", "b", "c"]);
    let before = st.list_all();
    assert_eq!(st.remove(0), Err(TodoError::OutOfRange(0)));
    assert_eq!(st.remove(4), Err(TodoError::OutOfRange(4)));
    assert_eq!(st.list_all(), before);
}

#[test]
fn filtered_listings_keep_positions_and_partition_the_store() {
    let mut st = store_of(&["a", "b", "c", "d", "e"]);
    assert_eq!(st.mark_done(2), Ok(()));
    assert_eq!(st.mark_done(5), Ok(()));
    let done = st.list_done();
    let pending = st.list_pending();
    assert_eq!(
        done,
        vec![(2, "b".to_string()), (5, "e".to_string())]
    );
    assert_eq!(
        pending,
        vec![
            (1, "a".to_string()),
            (3, "c".to_string()),
            (4, "d".to_string()),
        ]
    );
    let all = st.list_all();
    let mut merged: Vec<(usize, String)> = Vec::new();
    merged.extend(done);
    merged.extend(pending);
    merged.sort();
    let flattened: Vec<(usize, String)> =
        all.iter().map(|e| (e.0, e.1.clone())).collect();
    assert_eq!(merged, flattened);
}

#[test]
fn filtered_listings_of_empty_store_are_empty() {
    let st = TaskStore::new();
    assert!(st.list_all().is_empty());
    assert!(st.list_done().is_empty());
    assert!(st.list_pending().is_empty());
}

#[test]
fn scenario_mark_first_of_two() {
    let mut st = TaskStore::new();
    st.append("buy milk".to_string());
    st.append("walk dog".to_string());
    assert_eq!(st.mark_done(1), Ok(()));
    let all = st.list_all();
    assert_eq!(
        all,
        vec![
            (1, "buy milk".to_string(), true),
            (2, "walk dog".to_string(), false),
        ]
    );
}

#[test]
fn scenario_remove_middle_of_three() {
    let mut st = TaskStore::new();
    st.append("a".to_string());
    st.append("b".to_string());
    st.append("c".to_string());
    assert_eq!(st.remove(2), Ok(()));
    let all = st.list_all();
    assert_eq!(
        all,
        vec![(1, "a".to_string(), false), (2, "c".to_string(), false)]
    );
}

#[test]
fn scenario_mark_done_on_empty_store() {
    let mut st = TaskStore::new();
    assert_eq!(st.mark_done(1), Err(TodoError::NotFound(1)));
    assert!(st.list_all().is_empty());
}

#[test]
fn scenario_non_numeric_position_text() {
    let mut st = store_of(&["a", "b"]);
    let before = st.list_all();
    assert_eq!(
        mark_done_command(&mut st, "abc"),
        Err(TodoError::NotANumber)
    );
    assert_eq!(
        remove_command(&mut st, "two"),
        Err(TodoError::NotANumber)
    );
    assert_eq!(st.list_all(), before);
}

#[test]
fn choose_action_knows_each_token() {
    assert_eq!(choose_action("a"), Action::ViewAll);
    assert_eq!(choose_action("d"), Action::MarkDone);
    assert_eq!(choose_action("r"), Action::Remove);
    assert_eq!(choose_action("t"), Action::ViewTasks);
    assert_eq!(choose_action("v"), Action::ViewDone);
}

#[test]
fn choose_action_treats_everything_else_as_new_task() {
    assert_eq!(choose_action(""), Action::New);
    assert_eq!(choose_action("x"), Action::New);
    assert_eq!(choose_action("ad"), Action::New);
    assert_eq!(choose_action("buy milk"), Action::New);
    assert_eq!(choose_action("A"), Action::New);
}

#[test]
fn parse_position_reads_decimal_numbers() {
    assert_eq!(parse_position("1"), Ok(1));
    assert_eq!(parse_position("0"), Ok(0));
    assert_eq!(parse_position("42"), Ok(42));
    assert_eq!(parse_position("007"), Ok(7));
    assert_eq!(parse_position("18446744073709551615"), Ok(usize::MAX));
}

#[test]
fn parse_position_rejects_everything_else() {
    assert_eq!(parse_position(""), Err(TodoError::NotANumber));
    assert_eq!(parse_position("abc"), Err(TodoError::NotANumber));
    assert_eq!(parse_position(" 1"), Err(TodoError::NotANumber));
    assert_eq!(parse_position("1 "), Err(TodoError::NotANumber));
    assert_eq!(parse_position("+1"), Err(TodoError::NotANumber));
    assert_eq!(parse_position("-1"), Err(TodoError::NotANumber));
    assert_eq!(parse_position("1.5"), Err(TodoError::NotANumber));
    assert_eq!(
        parse_position("18446744073709551616"),
        Err(TodoError::NotANumber)
    );
}

#[test]
fn position_commands_act_on_parsed_positions() {
    let mut st = store_of(&["a", "b", "c"]);
    assert_eq!(mark_done_command(&mut st, "2"), Ok(()));
    assert!(st.list_all()[1].2);
    assert_eq!(
        mark_done_command(&mut st, "9"),
        Err(TodoError::NotFound(9))
    );
    assert_eq!(remove_command(&mut st, "1"), Ok(()));
    assert_eq!(
        st.list_all(),
        vec![
            (1, "b".to_string(), true),
            (2, "c".to_string(), false),
        ]
    );
    assert_eq!(remove_command(&mut st, "0"), Err(TodoError::OutOfRange(0)));
}

#[test]
fn populate_commands_lists_the_menu_in_order() {
    let mut commands: Vec<(&str, String)> = Vec::new();
    populate_commands(&mut commands);
    assert_eq!(
        commands,
        vec![
            ("a", "View all todos".to_string()),
            ("d", "Mark task as done".to_string()),
            ("r", "Remove a task".to_string()),
            ("t", "View uncomplete tasks".to_string()),
            ("v", "View done tasks".to_string()),
        ]
    );
}

#[test]
fn populate_commands_keeps_what_was_there() {
    let mut commands: Vec<(&str, String)> = vec![("q", "Quit".to_string())];
    populate_commands(&mut commands);
    assert_eq!(commands.len(), 6);
    assert_eq!(commands[0], ("q", "Quit".to_string()));
    assert_eq!(commands[1].0, "a");
}
