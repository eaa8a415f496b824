use taskboard::{backspace, commit, insert, start_edit, SENTINEL};

#[test]
fn a_new_field_holds_only_the_cursor_mark() {
    let field = start_edit();
    assert_eq!(field, "|");
    assert_eq!(SENTINEL, '|');
}

#[test]
fn typed_characters_stand_before_the_cursor_mark() {
    let mut field = start_edit();
    insert(&mut field, 'a');
    insert(&mut field, ' ');
    insert(&mut field, '7');
    assert_eq!(field, "a 7|");
}

#[test]
fn backspace_deletes_the_character_before_the_mark() {
    let mut field = String::from("abc|");
    backspace(&mut field);
    assert_eq!(field, "ab|");
}

#[test]
fn backspace_on_empty_text_changes_nothing() {
    let mut field = start_edit();
    backspace(&mut field);
    assert_eq!(field, "|");
}

#[test]
fn backspace_deletes_a_character_of_several_bytes() {
    let mut field = start_edit();
    insert(&mut field, 'é');
    insert(&mut field, '日');
    assert_eq!(field, "é日|");
    backspace(&mut field);
    assert_eq!(field, "é|");
    backspace(&mut field);
    assert_eq!(field, "|");
}

#[test]
fn insert_then_backspace_restores_the_field() {
    for start in ["|", "a|", "list one|", "||"] {
        let mut field = String::from(start);
        insert(&mut field, 'x');
        assert_ne!(field, start);
        backspace(&mut field);
        assert_eq!(field, start);
    }
}

#[test]
fn a_typed_mark_is_ordinary_text() {
    let mut field = start_edit();
    insert(&mut field, '|');
    assert_eq!(field, "||");
    commit(&mut field);
    assert_eq!(field, "|");
}

#[test]
fn commit_takes_the_mark_off() {
    let mut field = String::from("groceries|");
    commit(&mut field);
    assert_eq!(field, "groceries");
}

#[test]
fn commit_of_an_empty_edit_gives_empty_text() {
    let mut field = start_edit();
    commit(&mut field);
    assert_eq!(field, "");
}

#[test]
fn an_empty_field_is_left_alone() {
    let mut field = String::new();
    insert(&mut field, 'a');
    assert_eq!(field, "");
    backspace(&mut field);
    assert_eq!(field, "");
    commit(&mut field);
    assert_eq!(field, "");
}
