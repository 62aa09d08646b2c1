use termfx::input::on_input;
use termfx::input::Dispatch;
use termfx::input::Event;
use termfx::input::Key;

#[test]
fn escape_ends_the_input_loop() {
    assert_eq!(on_input(Event::Key(Key::Esc)), Dispatch::Quit);
}

#[test]
fn other_keys_go_to_the_callback() {
    assert_eq!(on_input(Event::Key(Key::Left)), Dispatch::Press(Key::Left));
    assert_eq!(on_input(Event::Key(Key::Char('q'))), Dispatch::Press(Key::Char('q')));
    assert_eq!(on_input(Event::Key(Key::Other)), Dispatch::Press(Key::Other));
}

#[test]
fn what_is_no_key_is_passed_over() {
    assert_eq!(on_input(Event::Other), Dispatch::Ignore);
}
