//! Texts that the user can edit, kept by `tui_input::Input`: a text, a cursor
//! in it, and what was cut out of it last.

use tui_input::{Input, InputRequest};
use vstd::prelude::*;

verus! {

// ---- what is asked of a text --------------------------------------------------------

/// A step of the cursor.
#[derive(Debug, Clone, Copy, PartialEq, Eq, Structural)]
pub enum Step {
    PrevChar,
    NextChar,
    PrevWord,
    NextWord,
}

/// A change of a text or of its cursor.
#[derive(Debug, Clone, Copy, PartialEq, Eq, Structural)]
pub enum Edit {
    /// A character is typed.
    Insert(char),
    /// The cursor takes a step.
    Go(Step),
    /// What the cursor would step over goes.
    Delete(Step),
    /// The cursor goes to the start.
    Start,
    /// The cursor goes to the end.
    End,
    /// The whole text is cut.
    DeleteLine,
    /// What stands behind the cursor is cut.
    DeleteTillEnd,
    /// What was cut is put back.
    Yank,
}

// ---- the state of a text --------------------------------------------------------------

/// The mathematical counterpart of [`TextField`].
#[verifier::ext_equal]
pub struct TextView {
    pub text: Seq<char>,
    /// How many characters stand before the cursor.
    pub cursor: nat,
    /// What was cut last.
    pub cut: Seq<char>,
    /// The last change was a cut, so the next one is joined to it.
    pub cutting: bool,
}

/// A printable ASCII character, which is a letter of its own wherever it stands.
pub open spec fn is_ascii(c: char) -> bool {
    0x20 <= c as u32 <= 0x7e
}

/// A text of printable ASCII.
pub open spec fn all_ascii(s: Seq<char>) -> bool {
    forall|i: int| 0 <= i < s.len() ==> is_ascii(#[trigger] s[i])
}

/// Where a step takes the cursor, by the Unicode rules for letters and words.
pub uninterp spec fn moved(text: Seq<char>, cursor: nat, step: Step) -> nat;

/// The step goes towards the start.
pub open spec fn goes_back(step: Step) -> bool {
    step == Step::PrevChar || step == Step::PrevWord
}

/// The step goes over a single letter.
pub open spec fn is_short(step: Step) -> bool {
    step == Step::PrevChar || step == Step::NextChar
}

impl TextView {
    /// A text with the cursor at its end.
    pub open spec fn of(text: Seq<char>) -> TextView {
        TextView { text, cursor: text.len(), cut: seq![], cutting: false }
    }

    /// There is nowhere to step to.
    pub open spec fn is_at_end(self, step: Step) -> bool {
        if goes_back(step) {
            self.cursor == 0
        } else {
            self.cursor >= self.text.len()
        }
    }

    /// Where a step takes the cursor. In ASCII each character is a letter.
    pub open spec fn target(self, step: Step) -> nat {
        if self.is_at_end(step) {
            self.cursor
        } else if all_ascii(self.text) && step == Step::PrevChar {
            (self.cursor - 1) as nat
        } else if all_ascii(self.text) && step == Step::NextChar {
            self.cursor + 1
        } else {
            moved(self.text, self.cursor, step)
        }
    }

    /// What stands before the cursor.
    pub open spec fn head(self) -> Seq<char> {
        self.text.take(self.cursor as int)
    }

    /// What stands behind the cursor.
    pub open spec fn tail(self) -> Seq<char> {
        self.text.skip(self.cursor as int)
    }

    /// What is kept of cuts: one cut after the other is joined to it, on the
    /// side that it was taken from.
    pub open spec fn kept(self, deleted: Seq<char>, before: bool) -> Seq<char> {
        if !self.cutting {
            deleted
        } else if before {
            deleted + self.cut
        } else {
            self.cut + deleted
        }
    }

    /// The text after the cursor took a step. A letter's step that leads nowhere
    /// leaves everything alone.
    pub open spec fn gone(self, step: Step) -> TextView {
        TextView {
            cursor: self.target(step),
            cutting: is_short(step) && self.is_at_end(step) && self.cutting,
            ..self
        }
    }

    /// The text without what the cursor would step over. Words are kept for
    /// putting back, letters are not.
    pub open spec fn deleted(self, step: Step) -> TextView {
        let to = self.target(step) as int;
        let at = self.cursor as int;
        if self.is_at_end(step) {
            TextView { cutting: !is_short(step) || self.cutting, ..self }
        } else if goes_back(step) {
            TextView {
                text: self.text.take(to) + self.tail(),
                cursor: to as nat,
                cut: if is_short(step) {
                    self.cut
                } else {
                    self.kept(self.text.subrange(to, at), true)
                },
                cutting: !is_short(step),
            }
        } else {
            TextView {
                text: self.head() + self.text.skip(to),
                cursor: self.cursor,
                cut: if is_short(step) {
                    self.cut
                } else {
                    self.kept(self.text.subrange(at, to), false)
                },
                cutting: !is_short(step),
            }
        }
    }

    /// The text after a change.
    pub open spec fn after(self, edit: Edit) -> TextView {
        match edit {
            Edit::Insert(c) => TextView {
                text: self.head().push(c) + self.tail(),
                cursor: self.cursor + 1,
                cutting: false,
                ..self
            },
            Edit::Go(step) => self.gone(step),
            Edit::Delete(step) => self.deleted(step),
            Edit::Start => TextView { cursor: 0, cutting: false, ..self },
            Edit::End => TextView { cursor: self.text.len(), cutting: false, ..self },
            Edit::DeleteLine => if self.text.len() == 0 {
                TextView { cutting: true, ..self }
            } else {
                TextView {
                    text: seq![],
                    cursor: 0,
                    cut: self.kept(self.text, self.cursor == self.text.len()),
                    cutting: true,
                }
            },
            Edit::DeleteTillEnd => TextView {
                text: self.head(),
                cursor: self.cursor,
                cut: self.kept(self.tail(), false),
                cutting: true,
            },
            Edit::Yank => TextView {
                text: self.head() + self.cut + self.tail(),
                cursor: self.cursor + self.cut.len(),
                cutting: false,
                ..self
            },
        }
    }
}

// ---- tui_input ------------------------------------------------------------------------

/// `tui_input::Input`: a text that is edited.
#[verifier::external_type_specification]
#[verifier::external_body]
pub struct ExInput(tui_input::Input);

/// The text that an input holds.
pub uninterp spec fn typed(input: tui_input::Input) -> Seq<char>;

/// How many characters of an input stand before its cursor.
pub uninterp spec fn place(input: tui_input::Input) -> nat;

/// What an input holds for putting back.
pub uninterp spec fn held(input: tui_input::Input) -> Seq<char>;

/// The last change of an input was a cut.
pub uninterp spec fn was_cut(input: tui_input::Input) -> bool;

/// All that an input holds.
pub open spec fn state(input: tui_input::Input) -> TextView {
    TextView {
        text: typed(input),
        cursor: place(input),
        cut: held(input),
        cutting: was_cut(input),
    }
}

/// `tui_input::Input::from`: the text, with the cursor at its end and nothing
/// to put back.
#[verifier::external_body]
fn new_input(text: String) -> (r: Input)
    ensures
        typed(r) == text@,
        place(r) == text@.len(),
        held(r) == Seq::<char>::empty(),
        !was_cut(r),
{
    Input::from(text)
}

/// `tui_input::Input::value`: the text that the input holds.
#[verifier::external_body]
fn value_of(input: &Input) -> (r: String)
    ensures
        r@ == typed(*input),
{
    input.value().to_string()
}

/// `tui_input::Input::handle`: what a change makes of the text, the cursor and
/// what was cut. Where a step leads is named, and stated for letters in ASCII;
/// all else is stated over it. The cursor never leaves the text.
#[verifier::external_body]
fn handle(input: &mut Input, edit: Edit)
    ensures
        state(*final(input)) == state(*old(input)).after(edit),
        forall|step: Step|
            edit == Edit::Go(step) ==> place(*final(input)) == #[trigger] moved(
                typed(*old(input)),
                place(*old(input)),
                step,
            ),
        place(*final(input)) <= typed(*final(input)).len(),
{
    input.handle(match edit {
        Edit::Insert(c) => InputRequest::InsertChar(c),
        Edit::Go(Step::PrevChar) => InputRequest::GoToPrevChar,
        Edit::Go(Step::NextChar) => InputRequest::GoToNextChar,
        Edit::Go(Step::PrevWord) => InputRequest::GoToPrevWord,
        Edit::Go(Step::NextWord) => InputRequest::GoToNextWord,
        Edit::Delete(Step::PrevChar) => InputRequest::DeletePrevChar,
        Edit::Delete(Step::NextChar) => InputRequest::DeleteNextChar,
        Edit::Delete(Step::PrevWord) => InputRequest::DeletePrevWord,
        Edit::Delete(Step::NextWord) => InputRequest::DeleteNextWord,
        Edit::Start => InputRequest::GoToStart, Edit::End => InputRequest::GoToEnd,
        Edit::DeleteLine => InputRequest::DeleteLine,
        Edit::DeleteTillEnd => InputRequest::DeleteTillEnd,
        Edit::Yank => InputRequest::Yank,
    });
}

/// How many cells of the screen stand before the cursor, in a text with other
/// characters than printable ASCII.
pub uninterp spec fn measured_column(text: Seq<char>, cursor: nat) -> nat;

/// How many cells of the screen stand before the cursor.
pub open spec fn column(text: Seq<char>, cursor: nat) -> nat {
    if all_ascii(text) {
        cursor
    } else {
        measured_column(text, cursor)
    }
}

/// `tui_input::Input::visual_cursor`: the display width of what stands before
/// the cursor. In ASCII each character takes a cell; of any other text it is
/// claimed only that the width depends on the text and the cursor.
#[verifier::external_body]
fn visual_cursor(input: &Input) -> (r: usize)
    ensures
        r == column(typed(*input), place(*input)),
        !all_ascii(typed(*input)) ==> r == measured_column(typed(*input), place(*input)),
{
    input.visual_cursor()
}

/// How many cells of a text are scrolled out of sight, so that the cursor is
/// seen, in a text with other characters than printable ASCII.
pub uninterp spec fn measured_scroll(text: Seq<char>, cursor: nat, width: nat) -> nat;

/// How many cells of a text are scrolled out of sight, so that the cursor is at
/// most `width` cells from the left.
pub open spec fn scroll(text: Seq<char>, cursor: nat, width: nat) -> nat {
    if !all_ascii(text) {
        measured_scroll(text, cursor, width)
    } else if cursor > width {
        (cursor - width) as nat
    } else {
        0
    }
}

/// `tui_input::Input::visual_scroll`: how many cells, in whole characters, are
/// to be scrolled out of sight. It is stated for ASCII; of any other text it is
/// claimed only that it depends on the text, the cursor and the width.
#[verifier::external_body]
fn visual_scroll(input: &Input, width: usize) -> (r: usize)
    ensures
        r == scroll(typed(*input), place(*input), width as nat),
        !all_ascii(typed(*input)) ==> r == measured_scroll(
            typed(*input),
            place(*input),
            width as nat,
        ),
{
    input.visual_scroll(width)
}

// ---- a text that is edited ------------------------------------------------------------

/// A text that the user can edit.
#[derive(Debug)]
pub struct TextField {
    pub input: tui_input::Input,
}

impl View for TextField {
    type V = TextView;

    open spec fn view(&self) -> TextView {
        state(self.input)
    }
}

/// What is seen of a text in a box: how many cells are out of sight on the
/// left, and how many are before the cursor.
#[derive(Debug, Clone, Copy, PartialEq, Eq, Structural)]
pub struct Window {
    pub scroll: u16,
    pub column: u16,
}

impl TextView {
    /// What is seen of the text in a box of `width` cells, of which the last one
    /// is for the cursor.
    pub open spec fn window(self, width: u16) -> Window {
        let room = if width == 0 {
            0
        } else {
            (width - 1) as nat
        };
        let hidden = scroll(self.text, self.cursor, room);
        let at = column(self.text, self.cursor);
        Window {
            scroll: hidden as u16,
            column: (if at <= hidden {
                0
            } else {
                at - hidden
            }) as u16,
        }
    }
}

impl TextField {
    /// A text with the cursor at its end.
    pub fn new(text: String) -> (r: TextField)
        ensures
            r@ == TextView::of(text@),
    {
        TextField { input: new_input(text) }
    }

    /// The text.
    pub fn text(&self) -> (r: String)
        ensures
            r@ == self@.text,
    {
        value_of(&self.input)
    }

    /// Change the text or move the cursor, which never leaves the text.
    pub fn edit(&mut self, edit: Edit)
        ensures
            final(self)@ == old(self)@.after(edit),
            final(self)@.cursor <= final(self)@.text.len(),
    {
        handle(&mut self.input, edit);
    }

    /// What is seen of the text in a box of `width` cells.
    pub fn window(&self, width: u16) -> (r: Window)
        ensures
            r == self@.window(width),
    {
        let room: usize = if width == 0 {
            0
        } else {
            width as usize - 1
        };
        let hidden: usize = visual_scroll(&self.input, room);
        let at: usize = visual_cursor(&self.input);
        let column: usize = if at <= hidden {
            0
        } else {
            at - hidden
        };
        Window { scroll: hidden as u16, column: column as u16 }
    }
}

// ---- laws -------------------------------------------------------------------------------

/// The text after the characters of `s` were typed one by one.
pub open spec fn after_typing(field: TextView, s: Seq<char>) -> TextView
    decreases s.len(),
{
    if s.len() == 0 {
        field
    } else {
        after_typing(field, s.drop_last()).after(Edit::Insert(s.last()))
    }
}

/// What is typed is what is read: it stands where the cursor was, and the cursor
/// behind it.
pub proof fn law_typing_is_read(field: TextView, s: Seq<char>)
    requires
        field.cursor <= field.text.len(),
    ensures
        after_typing(field, s).text == field.head() + s + field.tail(),
        after_typing(field, s).cursor == field.cursor + s.len(),
        after_typing(field, s).cut == field.cut,
    decreases s.len(),
{
    if s.len() == 0 {
        assert(field.head() + s + field.tail() =~= field.text);
    } else {
        let before = after_typing(field, s.drop_last());
        law_typing_is_read(field, s.drop_last());
        assert(before.head() =~= field.head() + s.drop_last());
        assert(before.tail() =~= field.tail());
        assert(before.head().push(s.last()) + before.tail() =~= field.head() + s + field.tail());
    }
}

/// The key that deletes the letter before the cursor takes back what was typed
/// last.
pub proof fn law_deleting_takes_back(field: TextView, c: char)
    requires
        field.cursor <= field.text.len(),
        all_ascii(field.text),
        is_ascii(c),
    ensures
        field.after(Edit::Insert(c)).after(Edit::Delete(Step::PrevChar)) == (TextView {
            cutting: false,
            ..field
        }),
{
    let typed = field.after(Edit::Insert(c));
    assert(all_ascii(typed.text)) by {
        assert forall|i: int| 0 <= i < typed.text.len() implies is_ascii(
            #[trigger] typed.text[i],
        ) by {
            if i < field.cursor {
                assert(typed.text[i] == field.text[i]);
            } else if i > field.cursor {
                assert(typed.text[i] == field.text[i - 1]);
            }
        }
    }
    assert(typed.text.take(field.cursor as int) + typed.tail() =~= field.text);
}

/// What was cut can be put back where it was.
pub proof fn law_yank_puts_back(field: TextView)
    requires
        field.cursor <= field.text.len(),
        !field.cutting,
    ensures
        field.text.len() > 0 ==> field.after(Edit::DeleteLine).after(Edit::Yank).text
            == field.text,
        field.after(Edit::DeleteTillEnd).after(Edit::Yank).text == field.text,
{
    let line = field.after(Edit::DeleteLine);
    let end = field.after(Edit::DeleteTillEnd);
    if field.text.len() > 0 {
        assert(line.head() + line.cut + line.tail() =~= field.text);
    }
    assert(end.head() + end.cut + end.tail() =~= field.text);
}

/// Moving the cursor changes nothing of the text.
pub proof fn law_moves_keep_the_text(field: TextView, step: Step)
    ensures
        field.after(Edit::Go(step)).text == field.text,
        field.after(Edit::Start).text == field.text,
        field.after(Edit::End).text == field.text,
{
}

/// The cursor is parked inside the box, wherever it is in the text.
pub proof fn law_cursor_is_in_the_box(field: TextView, width: u16)
    requires
        all_ascii(field.text),
        width > 0,
    ensures
        field.window(width).column < width,
        field.cursor < width ==> field.window(width) == (Window {
            scroll: 0,
            column: field.cursor as u16,
        }),
{
}

/// A character is typed before whatever the cursor stands on, and the cursor
/// moves behind it.
pub proof fn law_typing(field: TextView, c: char, i: int)
    requires
        field.cursor <= field.text.len(),
        0 <= i <= field.text.len(),
    ensures
        ({
            let next = field.after(Edit::Insert(c));
            &&& next.text.len() == field.text.len() + 1
            &&& next.cursor == field.cursor + 1
            &&& next.text[field.cursor as int] == c
            &&& i < field.cursor ==> next.text[i] == field.text[i]
            &&& i > field.cursor ==> next.text[i] == field.text[i - 1]
            &&& next.cut == field.cut
        }),
{
}

/// The cursor steps one letter back or on, and stays at the ends.
pub proof fn law_steps(field: TextView)
    requires
        field.cursor <= field.text.len(),
        all_ascii(field.text),
    ensures
        ({
            let back = field.after(Edit::Go(Step::PrevChar)).cursor;
            let on = field.after(Edit::Go(Step::NextChar)).cursor;
            &&& field.cursor > 0 ==> back == field.cursor - 1
            &&& field.cursor == 0 ==> back == 0
            &&& field.cursor < field.text.len() ==> on == field.cursor + 1
            &&& field.cursor == field.text.len() ==> on == field.cursor
        }),
{
}

/// The cursor goes before everything, and behind everything.
pub proof fn law_ends_of_the_text(field: TextView)
    ensures
        field.after(Edit::Start).cursor == 0,
        field.after(Edit::End).cursor == field.text.len(),
{
}

/// One key deletes the letter before the cursor, another one the letter behind
/// it, and both keep the rest of the text and what was cut.
pub proof fn law_letters_are_deleted(field: TextView)
    requires
        field.cursor <= field.text.len(),
        all_ascii(field.text),
    ensures
        ({
            let back = field.after(Edit::Delete(Step::PrevChar));
            &&& field.cursor > 0 ==> back.text == field.text.remove(field.cursor - 1)
                && back.cursor == field.cursor - 1
            &&& field.cursor == 0 ==> back.text == field.text && back.cursor == 0
            &&& back.cut == field.cut
        }),
        ({
            let on = field.after(Edit::Delete(Step::NextChar));
            &&& field.cursor < field.text.len() ==> on.text == field.text.remove(
                field.cursor as int,
            )
            &&& field.cursor == field.text.len() ==> on.text == field.text
            &&& on.cursor == field.cursor
            &&& on.cut == field.cut
        }),
{
    let back = field.after(Edit::Delete(Step::PrevChar));
    let on = field.after(Edit::Delete(Step::NextChar));
    if field.cursor > 0 {
        assert(back.text =~= field.text.remove(field.cursor - 1));
    }
    if field.cursor < field.text.len() {
        assert(on.text =~= field.text.remove(field.cursor as int));
    }
}

/// Deleting a word takes away what the cursor would step over, keeps it for
/// putting back, and keeps the rest.
pub proof fn law_words_are_cut(field: TextView)
    requires
        field.cursor <= field.text.len(),
        !field.cutting,
    ensures
        ({
            let to = moved(field.text, field.cursor, Step::PrevWord);
            let next = field.after(Edit::Delete(Step::PrevWord));
            0 < field.cursor && to <= field.cursor ==> {
                &&& next.cursor == to == field.after(Edit::Go(Step::PrevWord)).cursor
                &&& next.text == field.text.take(to as int) + field.text.skip(
                    field.cursor as int,
                )
                &&& next.cut == field.text.subrange(to as int, field.cursor as int)
            }
        }),
        ({
            let to = moved(field.text, field.cursor, Step::NextWord);
            let next = field.after(Edit::Delete(Step::NextWord));
            field.cursor < field.text.len() && field.cursor <= to <= field.text.len() ==> {
                &&& to == field.after(Edit::Go(Step::NextWord)).cursor
                &&& next.cursor == field.cursor
                &&& next.text == field.text.take(field.cursor as int) + field.text.skip(to as int)
                &&& next.cut == field.text.subrange(field.cursor as int, to as int)
            }
        }),
{
}

/// Cutting the line leaves nothing; cutting to the end leaves what stands before
/// the cursor. Both keep what was cut.
pub proof fn law_cuts(field: TextView)
    requires
        field.cursor <= field.text.len(),
        !field.cutting,
    ensures
        ({
            let line = field.after(Edit::DeleteLine);
            &&& line.text.len() == 0
            &&& field.text.len() > 0 ==> line.cursor == 0 && line.cut == field.text
        }),
        ({
            let end = field.after(Edit::DeleteTillEnd);
            &&& end.text == field.text.take(field.cursor as int)
            &&& end.cursor == field.cursor
            &&& end.cut == field.text.skip(field.cursor as int)
        }),
{
}

/// Cuts that follow each other are put back together, in the order in which the
/// pieces stood.
pub proof fn law_cuts_are_joined(field: TextView)
    requires
        field.cursor <= field.text.len(),
        field.cutting,
    ensures
        field.after(Edit::DeleteTillEnd).cut == field.cut + field.text.skip(field.cursor as int),
        ({
            let to = moved(field.text, field.cursor, Step::PrevWord);
            0 < field.cursor && to <= field.cursor ==> field.after(
                Edit::Delete(Step::PrevWord),
            ).cut == field.text.subrange(to as int, field.cursor as int) + field.cut
        }),
        field.after(Edit::DeleteTillEnd).cutting,
        !field.after(Edit::Start).cutting,
        !field.after(Edit::End).cutting,
        !field.after(Edit::Yank).cutting,
{
}

/// What was cut is put in where the cursor stands, and the cursor behind it.
pub proof fn law_yank(field: TextView)
    requires
        field.cursor <= field.text.len(),
    ensures
        ({
            let next = field.after(Edit::Yank);
            &&& next.text == field.text.take(field.cursor as int) + field.cut + field.text.skip(
                field.cursor as int,
            )
            &&& next.cursor == field.cursor + field.cut.len()
            &&& next.cut == field.cut
        }),
{
}

/// A new text is as it was given, with the cursor behind it and nothing cut.
pub proof fn law_new_text(text: String, r: TextField)
    requires
        call_ensures(TextField::new, (text,), r),
    ensures
        r@.text == text@,
        r@.cursor == text@.len(),
        r@.cut.len() == 0,
        !r@.cutting,
{
}

/// A text that is too long for its box is scrolled just as far as it takes to
/// have the cursor in the last cell.
pub proof fn law_long_texts_are_scrolled(field: &TextField, width: u16, r: Window)
    requires
        call_ensures(TextField::window, (field, width), r),
        all_ascii(field@.text),
        width > 0,
        width <= field@.cursor <= u16::MAX,
    ensures
        r.column == width - 1,
        r.scroll == field@.cursor - (width - 1),
{
}

/// What a change does to a text that is being edited.
pub proof fn law_texts_are_edited(field: &mut TextField, edit: Edit, r: ())
    requires
        call_ensures(TextField::edit, (field, edit), r),
    ensures
        final(field)@ == old(field)@.after(edit),
        final(field)@.cursor <= final(field)@.text.len(),
{
}

} // verus!
