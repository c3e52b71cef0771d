use ratatui::crossterm::event::{Event, KeyCode, KeyEvent, KeyModifiers};
use tui_book_search::app::input::{edit_request, Held, Key};
use tui_book_search::field::{Edit, Step, TextField, Window};
use tui_input::backend::crossterm::to_input_request;
use tui_input::InputRequest;

fn field(text: &str) -> TextField {
    TextField::new(text.to_string())
}

fn edited(text: &str, edits: &[Edit]) -> String {
    let mut field = field(text);
    for edit in edits {
        field.edit(*edit);
    }
    field.text()
}

fn edit_for(request: InputRequest) -> Edit {
    match request {
        InputRequest::InsertChar(c) => Edit::Insert(c),
        InputRequest::GoToPrevChar => Edit::Go(Step::PrevChar),
        InputRequest::GoToNextChar => Edit::Go(Step::NextChar),
        InputRequest::GoToPrevWord => Edit::Go(Step::PrevWord),
        InputRequest::GoToNextWord => Edit::Go(Step::NextWord),
        InputRequest::DeletePrevChar => Edit::Delete(Step::PrevChar),
        InputRequest::DeleteNextChar => Edit::Delete(Step::NextChar),
        InputRequest::DeletePrevWord => Edit::Delete(Step::PrevWord),
        InputRequest::DeleteNextWord => Edit::Delete(Step::NextWord),
        InputRequest::GoToStart => Edit::Start,
        InputRequest::GoToEnd => Edit::End,
        InputRequest::DeleteLine => Edit::DeleteLine,
        InputRequest::DeleteTillEnd => Edit::DeleteTillEnd,
        InputRequest::Yank => Edit::Yank,
        other => panic!("{other:?}"),
    }
}

/// Every key asks the same of a text as it does in the terminal library.
#[test]
fn keys_are_bound_as_in_the_terminal_library() {
    let mut keys = vec![
        (Key::Enter, KeyCode::Enter),
        (Key::Esc, KeyCode::Esc),
        (Key::Tab, KeyCode::Tab),
        (Key::Up, KeyCode::Up),
        (Key::Down, KeyCode::Down),
        (Key::Left, KeyCode::Left),
        (Key::Right, KeyCode::Right),
        (Key::Home, KeyCode::Home),
        (Key::End, KeyCode::End),
        (Key::Backspace, KeyCode::Backspace),
        (Key::Delete, KeyCode::Delete),
        (Key::Function(4), KeyCode::F(4)),
        (Key::Other, KeyCode::PageUp),
        (Key::Other, KeyCode::Insert),
        (Key::Char('é'), KeyCode::Char('é')),
    ];
    for c in ' '..='~' {
        keys.push((Key::Char(c), KeyCode::Char(c)));
    }
    for bits in 0..64u8 {
        let modifiers = KeyModifiers::from_bits(bits).unwrap();
        let held = Held {
            shift: modifiers.contains(KeyModifiers::SHIFT),
            control: modifiers.contains(KeyModifiers::CONTROL),
            alt: modifiers.contains(KeyModifiers::ALT),
            meta: modifiers.contains(KeyModifiers::META),
            other: modifiers.intersects(KeyModifiers::SUPER | KeyModifiers::HYPER),
        };
        for (key, code) in &keys {
            let event = Event::Key(KeyEvent::new(*code, modifiers));
            assert_eq!(
                edit_request(*key, held),
                to_input_request(&event).map(edit_for),
                "{key:?} {held:?}"
            );
        }
    }
}

#[test]
fn what_is_typed_is_read() {
    let typed: Vec<Edit> = "li ç".chars().map(Edit::Insert).collect();
    assert_eq!(edited("a", &typed), "ali ç");
    assert_eq!(
        edited("ac", &[Edit::Go(Step::PrevChar), Edit::Insert('b')]),
        "abc"
    );
    assert_eq!(
        edited("bc", &[Edit::Start, Edit::Insert('a'), Edit::End, Edit::Insert('d')]),
        "abcd"
    );
}

#[test]
fn letters_are_deleted_one_by_one() {
    assert_eq!(edited("ab", &[Edit::Delete(Step::PrevChar)]), "a");
    assert_eq!(
        edited("ab", &[Edit::Start, Edit::Delete(Step::NextChar)]),
        "b"
    );
    assert_eq!(edited("ab", &[Edit::Delete(Step::NextChar)]), "ab");
    assert_eq!(edited("", &[Edit::Delete(Step::PrevChar)]), "");
    assert_eq!(
        edited("ab", &[Edit::Insert('c'), Edit::Delete(Step::PrevChar)]),
        "ab"
    );
    assert_eq!(edited("xe\u{301}", &[Edit::Delete(Step::PrevChar)]), "x");
}

#[test]
fn words_are_deleted_and_put_back() {
    let back = Edit::Delete(Step::PrevWord);
    assert_eq!(edited("one two", &[back]), "one ");
    assert_eq!(edited("one two", &[back, Edit::Yank]), "one two");
    assert_eq!(edited("one two", &[back, back, Edit::Yank]), "one two");
    assert_eq!(
        edited("one two", &[Edit::Start, Edit::Delete(Step::NextWord)]),
        "two"
    );
    assert_eq!(
        edited("one two", &[Edit::Start, Edit::Go(Step::NextWord), Edit::Insert('x')]),
        "one xtwo"
    );
    assert_eq!(
        edited("one two", &[Edit::Go(Step::PrevWord), Edit::DeleteTillEnd]),
        "one "
    );
    assert_eq!(edited("a", &[Edit::DeleteLine, Edit::Insert('b'), Edit::Yank]), "ba");
    assert_eq!(
        edited(
            "ab",
            &[
                Edit::Go(Step::PrevChar),
                Edit::DeleteTillEnd,
                Edit::DeleteLine,
                Edit::Yank
            ]
        ),
        "ab"
    );
    assert_eq!(edited("a", &[Edit::DeleteTillEnd, Edit::Yank]), "a");
    // A letter's step that leads nowhere does not end a row of cuts.
    assert_eq!(
        edited(
            "a b",
            &[back, Edit::Go(Step::NextChar), back, Edit::Yank]
        ),
        "a b"
    );
    assert_eq!(
        edited("a b", &[back, Edit::End, back, Edit::Yank]),
        "a "
    );
}

#[test]
fn the_cursor_is_in_the_box() {
    let mut text = field("abcdef");
    assert_eq!(text.window(10), Window { scroll: 0, column: 6 });
    assert_eq!(text.window(4), Window { scroll: 3, column: 3 });
    assert_eq!(text.window(1), Window { scroll: 6, column: 0 });
    assert_eq!(text.window(0), Window { scroll: 6, column: 0 });
    text.edit(Edit::Start);
    assert_eq!(text.window(4), Window { scroll: 0, column: 0 });
    assert_eq!(field("漢字").window(10), Window { scroll: 0, column: 4 });
}
