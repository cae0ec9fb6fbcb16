use ndlm::buffer::{Buffer, BufferError};
use ndlm::color::Color;
use ndlm::draw::{Font, Outline};
use ndlm::error::Error;
use ndlm::manager::{
    Action, LoginManager, Mode, KEY_BACKSPACE, KEY_DISCARD, KEY_END, KEY_ENTER, KEY_INTERRUPT,
    KEY_KILL, KEY_TAB,
};

fn blank(width: u32, height: u32) -> Buffer {
    Buffer::new(vec![0u8; (width * height * 4) as usize], (width, height)).unwrap()
}

fn prompt(width: u32, height: u32, dimensions: (u32, u32)) -> LoginManager {
    LoginManager::new(
        blank(width, height),
        dimensions,
        Font::new(16),
        Font::new(24),
        Color(0, 0, 40),
    )
}

fn small() -> LoginManager {
    prompt(8, 8, (4, 4))
}

/// Every glyph is a block of two by three pixels, fully covered.
fn blocks(_ch: char) -> Outline {
    let mut samples = Vec::new();
    for y in 0..3 {
        for x in 0..2 {
            samples.push((x, y, 255));
        }
    }
    Outline::new(Some((0, 0, 2, 3)), samples).unwrap()
}

fn type_in(m: &mut LoginManager, text: &str) {
    for b in text.bytes() {
        assert!(matches!(m.key(b), Action::Continue));
    }
}

fn color_at(m: &LoginManager, x: u32, y: u32) -> Color {
    let buf = m.pixels();
    buf.get(&buf.viewport(), (x, y)).unwrap()
}

fn count(m: &LoginManager, c: Color) -> usize {
    let buf = m.pixels();
    let mut n = 0;
    for y in 0..buf.height() {
        for x in 0..buf.width() {
            if color_at(m, x, y) == c {
                n += 1;
            }
        }
    }
    n
}

#[test]
fn a_new_prompt_edits_an_empty_username() {
    let m = small();
    assert_eq!(m.mode(), Mode::EditingUsername);
    assert_eq!(m.username(), "");
    assert_eq!(m.password(), "");
    assert!(m.pixels().as_bytes().iter().all(|b| *b == 0));
}

#[test]
fn the_keys_have_their_codes() {
    assert_eq!(KEY_INTERRUPT, 0x03);
    assert_eq!(KEY_END, 0x04);
    assert_eq!(KEY_TAB, b'\t');
    assert_eq!(KEY_KILL, 0x0b);
    assert_eq!(KEY_ENTER, b'\r');
    assert_eq!(KEY_DISCARD, 0x15);
    assert_eq!(KEY_BACKSPACE, 0x7f);
}

#[test]
fn other_keys_are_appended_to_the_field_that_is_edited() {
    let mut m = small();
    type_in(&mut m, "ab c");
    assert_eq!(m.username(), "ab c");
    assert_eq!(m.password(), "");
    m.goto_next_mode();
    assert_eq!(m.mode(), Mode::EditingPassword);
    type_in(&mut m, "x\ny");
    assert_eq!(m.username(), "ab c");
    assert_eq!(m.password(), "x\ny");
    assert!(matches!(m.key(0xe9), Action::Continue));
    assert!(matches!(m.key(0x00), Action::Continue));
    assert_eq!(m.password(), "x\ny\u{e9}\0");
}

#[test]
fn backspace_removes_the_last_character() {
    let mut m = small();
    type_in(&mut m, "abc");
    assert!(matches!(m.key(KEY_BACKSPACE), Action::Continue));
    assert_eq!(m.username(), "ab");
    m.key(KEY_BACKSPACE);
    m.key(KEY_BACKSPACE);
    assert_eq!(m.username(), "");
    m.key(KEY_BACKSPACE);
    assert_eq!(m.username(), "");
    assert_eq!(m.mode(), Mode::EditingUsername);
    m.key(0xe9);
    m.key(KEY_TAB);
    type_in(&mut m, "pw");
    m.key(KEY_BACKSPACE);
    assert_eq!(m.password(), "p");
    assert_eq!(m.username(), "\u{e9}");
}

#[test]
fn discard_and_kill_empty_the_field_that_is_edited() {
    for key in [KEY_DISCARD, KEY_KILL] {
        let mut m = small();
        type_in(&mut m, "name");
        m.key(KEY_TAB);
        type_in(&mut m, "word");
        assert!(matches!(m.key(key), Action::Continue));
        assert_eq!(m.username(), "name");
        assert_eq!(m.password(), "");
        assert_eq!(m.mode(), Mode::EditingPassword);
        m.key(KEY_TAB);
        assert!(matches!(m.key(key), Action::Continue));
        assert_eq!(m.username(), "");
        assert_eq!(m.mode(), Mode::EditingUsername);
    }
}

#[test]
fn tab_moves_to_the_other_field() {
    let mut m = small();
    assert!(matches!(m.key(KEY_TAB), Action::Continue));
    assert_eq!(m.mode(), Mode::EditingPassword);
    assert!(matches!(m.key(KEY_TAB), Action::Continue));
    assert_eq!(m.mode(), Mode::EditingUsername);
    m.goto_next_mode();
    assert_eq!(m.mode(), Mode::EditingPassword);
    m.goto_next_mode();
    assert_eq!(m.mode(), Mode::EditingUsername);
}

#[test]
fn interrupt_and_end_cancel_and_empty_both_fields() {
    for key in [KEY_INTERRUPT, KEY_END] {
        let mut m = small();
        type_in(&mut m, "name");
        m.key(KEY_TAB);
        type_in(&mut m, "word");
        assert!(matches!(m.key(key), Action::Cancel));
        assert_eq!(m.username(), "");
        assert_eq!(m.password(), "");
        assert_eq!(m.mode(), Mode::EditingPassword);
    }
}

#[test]
fn enter_moves_on_from_a_username_that_is_not_empty() {
    let mut m = small();
    assert!(matches!(m.key(KEY_ENTER), Action::Continue));
    assert_eq!(m.mode(), Mode::EditingUsername);
    type_in(&mut m, "me");
    assert!(matches!(m.key(KEY_ENTER), Action::Continue));
    assert_eq!(m.mode(), Mode::EditingPassword);
    assert_eq!(m.username(), "me");
}

#[test]
fn enter_on_an_empty_password_goes_back_to_an_empty_username() {
    let mut m = small();
    type_in(&mut m, "me");
    m.key(KEY_ENTER);
    assert!(matches!(m.key(KEY_ENTER), Action::Continue));
    assert_eq!(m.mode(), Mode::EditingUsername);
    assert_eq!(m.username(), "");
    assert_eq!(m.password(), "");
}

#[test]
fn enter_on_a_password_asks_for_a_login() {
    let mut m = small();
    type_in(&mut m, "me");
    m.key(KEY_ENTER);
    type_in(&mut m, "secret");
    match m.key(KEY_ENTER) {
        Action::Login { username, password } => {
            assert_eq!(username, "me");
            assert_eq!(password, "secret");
        }
        other => panic!("{:?}", other),
    }
    assert_eq!(m.username(), "");
    assert_eq!(m.password(), "");
    assert_eq!(m.mode(), Mode::EditingPassword);
    assert!(m.login_finished(true));
    assert_eq!(m.mode(), Mode::EditingPassword);
    assert!(!m.login_finished(false));
    assert_eq!(m.mode(), Mode::EditingUsername);
}

#[test]
fn a_login_may_have_an_empty_username() {
    let mut m = small();
    m.key(KEY_TAB);
    type_in(&mut m, "x");
    match m.key(KEY_ENTER) {
        Action::Login { username, password } => {
            assert_eq!(username, "");
            assert_eq!(password, "x");
        }
        other => panic!("{:?}", other),
    }
}

#[test]
fn refresh_is_due_once_after_drawing() {
    let mut m = small();
    assert!(!m.refresh());
    m.clear();
    assert!(m.refresh());
    assert!(!m.refresh());
    type_in(&mut m, "a");
    assert!(!m.refresh());
}

#[test]
fn clear_fills_the_screen_with_the_background() {
    let mut m = small();
    m.clear();
    assert_eq!(count(&m, Color(0, 0, 40)), 64);
    assert!(m.pixels().as_bytes().chunks(4).all(|c| c == [40, 0, 0, 0xff]));
}

#[test]
fn offset_centres_the_dialog() {
    assert_eq!(prompt(1920, 1080, (1024, 168)).offset(), Ok((448, 456)));
    assert_eq!(prompt(9, 8, (4, 4)).offset(), Ok((2, 2)));
    assert_eq!(prompt(8, 8, (8, 8)).offset(), Ok((0, 0)));
    assert_eq!(prompt(8, 8, (9, 8)).offset(), Err(BufferError::OutOfBounds));
    assert_eq!(prompt(8, 8, (8, 9)).offset(), Err(BufferError::OutOfBounds));
}

#[test]
fn draw_username_draws_into_its_field() {
    let mut m = prompt(1100, 200, (1024, 168));
    // The dialog's corner is (38, 16); the field starts 416 to the right
    // and 64 below and is 1024 - 448 wide and 32 high.
    assert!(m.draw_username("abc", true, &blocks).is_ok());
    assert!(m.refresh());
    let white = Color(255, 255, 255);
    let bg = Color(0, 0, 40);
    assert_eq!(count(&m, white), 3 * 6);
    assert_eq!(count(&m, bg), 576 * 32 - 18);
    for y in 0..3 {
        for x in 0..6 {
            assert_eq!(color_at(&m, 38 + 416 + x, 16 + 64 + y), white);
        }
    }
    assert_eq!(color_at(&m, 38 + 416 + 6, 16 + 64), bg);
    assert_eq!(color_at(&m, 38 + 416 + 575, 16 + 64 + 31), bg);
    assert_eq!(color_at(&m, 38 + 416 + 576, 16 + 64 + 31), Color(0, 0, 0));
    assert_eq!(color_at(&m, 38 + 415, 16 + 64), Color(0, 0, 0));
    assert_eq!(color_at(&m, 38 + 416, 16 + 63), Color(0, 0, 0));
    assert_eq!(color_at(&m, 38 + 416, 16 + 64 + 32), Color(0, 0, 0));
}

#[test]
fn draw_username_without_redraw_keeps_what_was_there() {
    let mut m = prompt(1100, 200, (1024, 168));
    assert!(m.draw_username("abc", true, &blocks).is_ok());
    assert!(m.draw_username("a", false, &blocks).is_ok());
    assert_eq!(count(&m, Color(255, 255, 255)), 18);
    assert!(m.draw_username("a", true, &blocks).is_ok());
    assert_eq!(count(&m, Color(255, 255, 255)), 6);
}

#[test]
fn draw_password_draws_an_asterisk_for_each_byte() {
    let mut m = prompt(1100, 200, (1024, 168));
    assert!(m.draw_password("p\u{e9}", true, &blocks).is_ok());
    // 'p' is one byte, 'é' two.
    assert_eq!(count(&m, Color(255, 255, 255)), 3 * 6);
    for x in 0..6 {
        assert_eq!(color_at(&m, 38 + 416 + x, 16 + 104), Color(255, 255, 255));
    }
    assert_eq!(color_at(&m, 38 + 416, 16 + 103), Color(0, 0, 0));
    let mut same = prompt(1100, 200, (1024, 168));
    let mut stars = Font::new(16);
    let mut expected = blank(1100, 200);
    let view = expected.viewport().subdimensions((38 + 416, 16 + 104, 576, 32)).unwrap();
    expected.memset(&view, &Color(0, 0, 40));
    stars
        .auto_draw_text(&mut expected, &view, &Color(0, 0, 40), &Color(255, 255, 255), "***", &blocks)
        .unwrap();
    assert!(same.draw_password("abc", true, &blocks).is_ok());
    assert_eq!(same.pixels().as_bytes(), expected.as_bytes());
}

#[test]
fn fields_that_the_screen_does_not_hold_are_refused_and_nothing_is_drawn() {
    for mut m in [
        prompt(1100, 200, (447, 168)),
        prompt(1000, 200, (1024, 168)),
        prompt(1100, 100, (1024, 168)),
        prompt(1100, 90, (1024, 90)),
    ] {
        assert!(matches!(
            m.draw_username("abc", true, &blocks),
            Err(Error::Buffer(BufferError::OutOfBounds))
        ));
        assert!(matches!(
            m.draw_password("abc", true, &blocks),
            Err(Error::Buffer(BufferError::OutOfBounds))
        ));
        assert!(!m.refresh());
        assert!(m.pixels().as_bytes().iter().all(|b| *b == 0));
    }
    // A field of no width is drawn into, and shows nothing.
    let mut fits = prompt(1100, 200, (448, 96));
    assert!(fits.draw_username("abc", true, &blocks).is_ok());
    assert!(fits.pixels().as_bytes().iter().all(|b| *b == 0));
    // The screen holds the username's field but not the password's.
    let mut low = prompt(1100, 120, (1024, 100));
    assert!(low.draw_username("abc", true, &blocks).is_ok());
    assert!(matches!(
        low.draw_password("abc", true, &blocks),
        Err(Error::Buffer(BufferError::OutOfBounds))
    ));
}

#[test]
fn draw_bg_draws_the_welcome_the_heading_and_the_labels() {
    let mut m = prompt(1100, 200, (1024, 168));
    assert!(m.draw_bg("box", &blocks, &blocks).is_ok());
    assert!(m.refresh());
    let white = Color(255, 255, 255);
    let yellow = Color(255, 255, 0);
    // "Welcome to box" has 14 characters, "Login" 5, each label 9.
    assert_eq!(count(&m, white), (14 + 5 + 9) * 6);
    assert_eq!(count(&m, yellow), 9 * 6);
    assert_eq!(color_at(&m, 1100 / 2 - 300, 32), white);
    assert_eq!(color_at(&m, 1100 / 2 - 300 + 27, 34), white);
    assert_eq!(color_at(&m, 1100 / 2 - 300 + 28, 34), Color(0, 0, 0));
    assert_eq!(color_at(&m, 38 + 32, 16 + 24), white);
    assert_eq!(color_at(&m, 38 + 256, 16 + 64), yellow);
    assert_eq!(color_at(&m, 38 + 256 + 17, 16 + 66), yellow);
    assert_eq!(color_at(&m, 38 + 256, 16 + 104), white);
    m.goto_next_mode();
    assert!(m.draw_bg("box", &blocks, &blocks).is_ok());
    assert_eq!(color_at(&m, 38 + 256, 16 + 64), white);
    assert_eq!(color_at(&m, 38 + 256, 16 + 104), yellow);
}

#[test]
fn draw_bg_that_the_screen_does_not_hold_is_refused_and_nothing_is_drawn() {
    for mut m in [
        prompt(598, 200, (300, 168)),
        prompt(1100, 31, (1024, 20)),
        prompt(1100, 200, (1200, 168)),
        prompt(1100, 200, (255, 168)),
        prompt(1100, 200, (1024, 103)),
    ] {
        assert!(matches!(
            m.draw_bg("box", &blocks, &blocks),
            Err(Error::Buffer(BufferError::OutOfBounds))
        ));
        assert!(!m.refresh());
        assert!(m.pixels().as_bytes().iter().all(|b| *b == 0));
    }
    let mut fits = prompt(600, 200, (256, 104));
    assert!(fits.draw_bg("box", &blocks, &blocks).is_ok());
}

#[test]
fn redraw_draws_the_background_and_both_fields() {
    let mut m = prompt(1100, 200, (1024, 168));
    type_in(&mut m, "me");
    m.key(KEY_TAB);
    type_in(&mut m, "pass");
    assert!(m.redraw("box", &blocks, &blocks).is_ok());
    let mut by_parts = prompt(1100, 200, (1024, 168));
    type_in(&mut by_parts, "me");
    by_parts.key(KEY_TAB);
    type_in(&mut by_parts, "pass");
    by_parts.draw_bg("box", &blocks, &blocks).unwrap();
    by_parts.draw_username("me", true, &blocks).unwrap();
    by_parts.draw_password("pass", true, &blocks).unwrap();
    assert_eq!(m.pixels().as_bytes(), by_parts.pixels().as_bytes());
    assert_eq!(count(&m, Color(255, 255, 255)), (14 + 5 + 9 + 2 + 4) * 6);
    assert_eq!(count(&m, Color(255, 255, 0)), 9 * 6);
    assert_eq!(m.username(), "me");
    assert_eq!(m.password(), "pass");
    assert_eq!(m.mode(), Mode::EditingPassword);
    let mut narrow = prompt(1100, 200, (447, 168));
    assert!(matches!(
        narrow.redraw("box", &blocks, &blocks),
        Err(Error::Buffer(BufferError::OutOfBounds))
    ));
    assert!(narrow.pixels().as_bytes().iter().all(|b| *b == 0));
}

#[test]
fn draw_prompt_draws_two_lines_over_a_cleared_screen() {
    let mut m = prompt(200, 100, (4, 4));
    type_in(&mut m, "me");
    m.key(KEY_TAB);
    type_in(&mut m, "abc");
    assert!(m.draw_prompt((50, 30), &blocks).is_ok());
    let white = Color(255, 255, 255);
    let yellow = Color(255, 255, 0);
    // "Username: me" has 12 characters, "Password: ***" 13.
    assert_eq!(count(&m, white), 12 * 6);
    assert_eq!(count(&m, yellow), 13 * 6);
    assert_eq!(count(&m, Color(0, 0, 40)), 200 * 100 - 25 * 6);
    assert_eq!(color_at(&m, 10, 20), white);
    assert_eq!(color_at(&m, 10 + 23, 22), white);
    assert_eq!(color_at(&m, 10 + 24, 22), Color(0, 0, 40));
    assert_eq!(color_at(&m, 10, 40), yellow);
    assert_eq!(color_at(&m, 9, 20), Color(0, 0, 40));
}

#[test]
fn draw_prompt_that_the_screen_does_not_hold_is_refused_and_nothing_is_drawn() {
    for at in [(39, 30), (50, 9), (241, 30), (50, 91), (u32::MAX, 30), (50, u32::MAX)] {
        let mut m = prompt(200, 100, (4, 4));
        assert!(
            matches!(
                m.draw_prompt(at, &blocks),
                Err(Error::Buffer(BufferError::OutOfBounds))
            ),
            "{:?}",
            at
        );
        assert!(m.pixels().as_bytes().iter().all(|b| *b == 0));
    }
    let mut edge = prompt(200, 100, (4, 4));
    assert!(edge.draw_prompt((240, 90), &blocks).is_ok());
}

#[test]
fn resume_takes_a_username_and_goes_on_to_the_password() {
    let mut m = small();
    type_in(&mut m, "x");
    m.resume("last".to_string());
    assert_eq!(m.username(), "last");
    assert_eq!(m.password(), "");
    assert_eq!(m.mode(), Mode::EditingPassword);
    type_in(&mut m, "pw");
    assert!(matches!(m.key(KEY_ENTER), Action::Login { .. }));
}
