//! In-place editing of a text field whose cursor stands at its end.
//!
//! A field that is being edited holds its text followed by one cursor mark.
//! The mark is found by its position, not by its value: it is the last
//! character of the field, so a mark typed by the user is ordinary text.
//! Every operation leaves an empty field, which holds no mark, as it is.

use vstd::prelude::*;

verus! {

/// The cursor mark that closes a field while it is being edited.
pub const SENTINEL: char = '|';

/// A field that holds no text yet and is open for editing.
pub open spec fn blank() -> Seq<char> {
    seq![SENTINEL]
}

/// The field after `c` was typed: `c` stands directly before the cursor mark.
pub open spec fn inserted(field: Seq<char>, c: char) -> Seq<char> {
    if field.len() == 0 {
        field
    } else {
        field.drop_last().push(c).push(field.last())
    }
}

/// The field after the character before the cursor mark was deleted. A field
/// whose text is empty stays as it is.
pub open spec fn erased(field: Seq<char>) -> Seq<char> {
    if field.len() <= 1 {
        field
    } else {
        field.drop_last().drop_last().push(field.last())
    }
}

/// The text of the field: the field without its cursor mark.
pub open spec fn committed(field: Seq<char>) -> Seq<char> {
    if field.len() == 0 {
        field
    } else {
        field.drop_last()
    }
}

/// The field is open for editing: it ends in the cursor mark.
pub open spec fn is_open(field: Seq<char>) -> bool {
    field.len() > 0 && field.last() == SENTINEL
}

/// One edit of a text field.
#[derive(Clone, Copy, Debug, PartialEq, Eq)]
pub enum Edit {
    /// Type a character before the cursor mark.
    Insert(char),
    /// Delete the character before the cursor mark.
    Backspace,
    /// Take the cursor mark off.
    Commit,
}

/// The field after one edit.
pub open spec fn edited(field: Seq<char>, edit: Edit) -> Seq<char> {
    match edit {
        Edit::Insert(c) => inserted(field, c),
        Edit::Backspace => erased(field),
        Edit::Commit => committed(field),
    }
}

/// `String::push` of the standard library appends one character to the end of
/// the string.
pub assume_specification[ String::push ](s: &mut String, c: char)
    ensures
        final(s)@ == old(s)@.push(c),
;

/// `String::pop` of the standard library removes the last character and
/// returns it; on an empty string it returns `None` and changes nothing.
pub assume_specification[ String::pop ](s: &mut String) -> (last: Option<char>)
    ensures
        old(s)@.len() == 0 ==> last == None::<char> && final(s)@ == old(s)@,
        old(s)@.len() > 0 ==> last == Some(old(s)@.last()) && final(s)@ == old(s)@.drop_last(),
;

/// Opens a field for editing with no text in it.
pub fn start_edit() -> (field: String)
    ensures
        field@ == blank(),
{
    let mut field = String::new();
    field.push(SENTINEL);
    field
}

/// Types `c` into the field, directly before the cursor mark.
pub fn insert(field: &mut String, c: char)
    ensures
        final(field)@ == inserted(old(field)@, c),
{
    match field.pop() {
        Some(mark) => {
            field.push(c);
            field.push(mark);
        },
        None => {},
    }
}

/// Deletes the character before the cursor mark, if there is one.
pub fn backspace(field: &mut String)
    ensures
        final(field)@ == erased(old(field)@),
{
    match field.pop() {
        Some(mark) => {
            let _ = field.pop();
            field.push(mark);
            assert(field@ =~= erased(old(field)@));
        },
        None => {},
    }
}

/// Ends the edit: takes the cursor mark off, so that the field holds its text.
pub fn commit(field: &mut String)
    ensures
        final(field)@ == committed(old(field)@),
{
    let _ = field.pop();
}

/// Carries out one edit on the field.
pub fn apply(field: &mut String, edit: Edit)
    ensures
        final(field)@ == edited(old(field)@, edit),
{
    match edit {
        Edit::Insert(c) => insert(field, c),
        Edit::Backspace => backspace(field),
        Edit::Commit => commit(field),
    }
}

/// Typing a character and deleting it again leaves every field as it was.
pub proof fn lemma_insert_then_backspace(field: Seq<char>, c: char)
    ensures
        erased(inserted(field, c)) == field,
{
    if field.len() > 0 {
        let typed = inserted(field, c);
        assert(typed.drop_last().drop_last() =~= field.drop_last());
        assert(erased(typed) =~= field);
    }
}

/// Typing appends to the text: the field stays open, and its text is the
/// text it had with the typed character behind it.
pub proof fn lemma_insert_appends(field: Seq<char>, c: char)
    requires
        is_open(field),
    ensures
        is_open(inserted(field, c)),
        committed(inserted(field, c)) == committed(field).push(c),
{
    assert(inserted(field, c).drop_last() =~= field.drop_last().push(c));
}

/// Backspace takes the last character off the text: the field stays open, and
/// its text is the text it had without its last character, or still empty.
pub proof fn lemma_backspace_shortens(field: Seq<char>)
    requires
        is_open(field),
    ensures
        is_open(erased(field)),
        committed(field).len() > 0 ==> committed(erased(field)) == committed(field).drop_last(),
        committed(field).len() == 0 ==> erased(field) == field,
{
    if field.len() > 1 {
        assert(erased(field).drop_last() =~= field.drop_last().drop_last());
    }
}

} // verus!
