//! The login prompt: what each key does, and how the prompt is laid out.
//!
//! Reading keys, asking the login broker and refreshing the device are left
//! to the caller. The prompt says what a key changes and what the caller is
//! to do next, and it draws itself into the store it owns.

use vstd::prelude::*;
use vstd::string::{StringExecFns, StringSliceAdditionalSpecFns};
use crate::buffer::{fill, nothing, over, Buffer, BufferError, Paint, Viewport};
use crate::color::Color;
use crate::draw::{Font, Outline};
use crate::error::Error;

verus! {

/// Ctrl-C.
pub const KEY_INTERRUPT: u8 = 0x03;

/// Ctrl-D.
pub const KEY_END: u8 = 0x04;

/// Tab.
pub const KEY_TAB: u8 = 0x09;

/// Ctrl-K.
pub const KEY_KILL: u8 = 0x0b;

/// Enter.
pub const KEY_ENTER: u8 = 0x0d;

/// Ctrl-U.
pub const KEY_DISCARD: u8 = 0x15;

/// Backspace.
pub const KEY_BACKSPACE: u8 = 0x7f;

/// Which field the keys go to.
#[derive(Clone, Copy, Debug, PartialEq, Eq, Structural)]
pub enum Mode {
    /// Keys go to the username.
    EditingUsername,
    /// Keys go to the password.
    EditingPassword,
}

/// What the caller is to do after a key.
#[derive(Debug)]
pub enum Action {
    /// Read the next key.
    Continue,
    /// Ask the login broker to log `username` in with `password`, and
    /// report the answer with `login_finished`.
    Login { username: String, password: String },
    /// Tell the login broker that the login is off, and leave.
    Cancel,
}

/// The two fields of the prompt and the one that is being edited.
pub struct Input {
    pub mode: Mode,
    pub username: Seq<char>,
    pub password: Seq<char>,
}

/// The other mode.
pub open spec fn other_mode(mode: Mode) -> Mode {
    match mode {
        Mode::EditingUsername => Mode::EditingPassword,
        Mode::EditingPassword => Mode::EditingUsername,
    }
}

impl Input {
    /// This input with `text` in the field that is being edited.
    pub open spec fn with_field(self, text: Seq<char>) -> Input {
        match self.mode {
            Mode::EditingUsername => Input { username: text, ..self },
            Mode::EditingPassword => Input { password: text, ..self },
        }
    }

    /// The text of the field that is being edited.
    pub open spec fn field(self) -> Seq<char> {
        match self.mode {
            Mode::EditingUsername => self.username,
            Mode::EditingPassword => self.password,
        }
    }

    /// Whether Enter submits: the password is being edited and is not empty.
    pub open spec fn submits(self) -> bool {
        self.mode == Mode::EditingPassword && self.password.len() > 0
    }

    /// The input after the key `key`.
    ///
    /// Ctrl-U and Ctrl-K empty the field that is being edited. Ctrl-C and
    /// Ctrl-D empty both fields. Backspace removes the last character of
    /// the field. Tab moves to the other field. Enter moves from a username
    /// that is not empty to the password, from an empty password back to an
    /// emptied username, and submits any other password, which empties both
    /// fields. Every other key is appended to the field as the character
    /// with its code.
    pub open spec fn press(self, key: u8) -> Input {
        if key == KEY_DISCARD || key == KEY_KILL {
            self.with_field(Seq::empty())
        } else if key == KEY_INTERRUPT || key == KEY_END {
            Input { username: Seq::empty(), password: Seq::empty(), ..self }
        } else if key == KEY_BACKSPACE {
            if self.field().len() > 0 {
                self.with_field(self.field().drop_last())
            } else {
                self
            }
        } else if key == KEY_TAB {
            Input { mode: other_mode(self.mode), ..self }
        } else if key == KEY_ENTER {
            match self.mode {
                Mode::EditingUsername => if self.username.len() > 0 {
                    Input { mode: Mode::EditingPassword, ..self }
                } else {
                    self
                },
                Mode::EditingPassword => if self.password.len() == 0 {
                    Input { mode: Mode::EditingUsername, username: Seq::empty(), ..self }
                } else {
                    Input { username: Seq::empty(), password: Seq::empty(), ..self }
                },
            }
        } else {
            self.with_field(self.field().push(key as char))
        }
    }
}

/// The prompt: the store it is drawn into, its fonts and colours, and the
/// state of its two fields.
pub struct LoginManager {
    buf: Buffer,
    dimensions: (u32, u32),
    mode: Mode,
    font: Font,
    title_font: Font,
    background: Color,
    should_refresh: bool,
    username: String,
    password: String,
}

impl LoginManager {
    /// The store that the prompt is drawn into.
    pub closed spec fn buffer(&self) -> Buffer {
        self.buf
    }

    /// The extent of the dialog in pixels, width first.
    pub closed spec fn dimensions(&self) -> (u32, u32) {
        self.dimensions
    }

    /// The font of the fields and their labels.
    pub closed spec fn font(&self) -> Font {
        self.font
    }

    /// The font of the headings.
    pub closed spec fn title_font(&self) -> Font {
        self.title_font
    }

    /// The colour behind the text.
    pub closed spec fn background(&self) -> Color {
        self.background
    }

    /// Whether the device is to be refreshed.
    pub closed spec fn needs_refresh(&self) -> bool {
        self.should_refresh
    }

    /// The fields and the mode.
    pub closed spec fn input(&self) -> Input {
        Input { mode: self.mode, username: self.username@, password: self.password@ }
    }

    /// Whether `after` differs from this prompt in its fields and mode at
    /// most.
    pub open spec fn same_screen(&self, after: LoginManager) -> bool {
        &&& after.buffer() == self.buffer()
        &&& after.dimensions() == self.dimensions()
        &&& after.font() == self.font()
        &&& after.title_font() == self.title_font()
        &&& after.background() == self.background()
        &&& after.needs_refresh() == self.needs_refresh()
    }

    /// A prompt that is drawn into `buf`, with a dialog of `dimensions`
    /// pixels, empty fields and the username being edited.
    pub fn new(
        buf: Buffer,
        dimensions: (u32, u32),
        font: Font,
        title_font: Font,
        background: Color,
    ) -> (m: LoginManager)
        ensures
            m.buffer() == buf,
            m.dimensions() == dimensions,
            m.font() == font,
            m.title_font() == title_font,
            m.background() == background,
            !m.needs_refresh(),
            m.input() == (Input {
                mode: Mode::EditingUsername,
                username: Seq::empty(),
                password: Seq::empty(),
            }),
    {
        LoginManager {
            buf,
            dimensions,
            mode: Mode::EditingUsername,
            font,
            title_font,
            background,
            should_refresh: false,
            username: String::new(),
            password: String::new(),
        }
    }

    /// The mode.
    pub fn mode(&self) -> (mode: Mode)
        ensures
            mode == self.input().mode,
    {
        self.mode
    }

    /// The username as typed so far.
    pub fn username(&self) -> (name: &str)
        ensures
            name@ == self.input().username,
    {
        self.username.as_str()
    }

    /// The password as typed so far.
    pub fn password(&self) -> (word: &str)
        ensures
            word@ == self.input().password,
    {
        self.password.as_str()
    }

    /// The store that the prompt is drawn into.
    pub fn pixels(&self) -> (buf: &Buffer)
        ensures
            *buf == self.buffer(),
    {
        &self.buf
    }

    /// Takes `username` as typed and goes on to the password, as for a user
    /// who logged in before.
    pub fn resume(&mut self, username: String)
        ensures
            final(self).input() == (Input {
                mode: Mode::EditingPassword,
                username: username@,
                ..old(self).input()
            }),
            old(self).same_screen(*final(self)),
    {
        self.username = username;
        self.mode = Mode::EditingPassword;
    }

    /// Says whether the device is to be refreshed, and takes the request as
    /// served.
    pub fn refresh(&mut self) -> (due: bool)
        ensures
            due == old(self).needs_refresh(),
            !final(self).needs_refresh(),
            final(self).input() == old(self).input(),
            final(self).buffer() == old(self).buffer(),
            final(self).dimensions() == old(self).dimensions(),
            final(self).font() == old(self).font(),
            final(self).title_font() == old(self).title_font(),
            final(self).background() == old(self).background(),
    {
        let due = self.should_refresh;
        self.should_refresh = false;
        due
    }

    /// Moves to the other field.
    pub fn goto_next_mode(&mut self)
        ensures
            final(self).input() == (Input {
                mode: other_mode(old(self).input().mode),
                ..old(self).input()
            }),
            old(self).same_screen(*final(self)),
    {
        self.mode = match self.mode {
            Mode::EditingUsername => Mode::EditingPassword,
            Mode::EditingPassword => Mode::EditingUsername,
        }
    }

    /// Takes the key `key` and says what the caller is to do next.
    ///
    /// Ctrl-C and Ctrl-D cancel. Enter on a password that is not empty asks
    /// for a login with the username and password as they stood. After any
    /// other key the caller reads on. The fields change as `Input::press`
    /// says.
    pub fn key(&mut self, key: u8) -> (action: Action)
        ensures
            final(self).input() == old(self).input().press(key),
            old(self).same_screen(*final(self)),
            action is Cancel <==> key == KEY_INTERRUPT || key == KEY_END,
            action is Login <==> key == KEY_ENTER && old(self).input().submits(),
            action matches Action::Login { username, password } ==> username@ == old(
                self,
            ).input().username && password@ == old(self).input().password,
    {
        if key == KEY_DISCARD || key == KEY_KILL {
            match self.mode {
                Mode::EditingUsername => self.username.clear(),
                Mode::EditingPassword => self.password.clear(),
            }
            Action::Continue
        } else if key == KEY_INTERRUPT || key == KEY_END {
            self.username.clear();
            self.password.clear();
            Action::Cancel
        } else if key == KEY_BACKSPACE {
            match self.mode {
                Mode::EditingUsername => {
                    let _ = self.username.pop();
                },
                Mode::EditingPassword => {
                    let _ = self.password.pop();
                },
            }
            Action::Continue
        } else if key == KEY_TAB {
            self.goto_next_mode();
            Action::Continue
        } else if key == KEY_ENTER {
            match self.mode {
                Mode::EditingUsername => {
                    if !self.username.as_str().is_empty() {
                        self.mode = Mode::EditingPassword;
                    }
                    Action::Continue
                },
                Mode::EditingPassword => {
                    if self.password.as_str().is_empty() {
                        self.username.clear();
                        self.mode = Mode::EditingUsername;
                        Action::Continue
                    } else {
                        let username = self.username.clone();
                        let password = self.password.clone();
                        self.username.clear();
                        self.password.clear();
                        Action::Login { username, password }
                    }
                },
            }
        } else {
            match self.mode {
                Mode::EditingUsername => self.username.push(key as char),
                Mode::EditingPassword => self.password.push(key as char),
            }
            Action::Continue
        }
    }

    /// Takes the login broker's answer to a login. Returns whether the
    /// prompt is done: after a login that failed the username is edited
    /// again.
    pub fn login_finished(&mut self, succeeded: bool) -> (done: bool)
        ensures
            done == succeeded,
            succeeded ==> final(self).input() == old(self).input(),
            !succeeded ==> final(self).input() == (Input {
                mode: Mode::EditingUsername,
                ..old(self).input()
            }),
            old(self).same_screen(*final(self)),
    {
        if !succeeded {
            self.mode = Mode::EditingUsername;
        }
        succeeded
    }
}

/// How far right of the dialog's corner a field starts.
pub const FIELD_LEFT: u32 = 416;

/// How much of the dialog's width a field leaves free: the space to its left
/// and a margin to its right.
pub const FIELD_SPARE: u32 = 448;

/// The height of a field.
pub const FIELD_HEIGHT: u32 = 32;

/// How far below the dialog's corner the username stands.
pub const USERNAME_TOP: u32 = 64;

/// How far below the dialog's corner the password stands.
pub const PASSWORD_TOP: u32 = 104;

/// How far left of the middle of the screen the welcome starts.
pub const WELCOME_LEFT: u32 = 300;

/// A string of `n` asterisks.
pub open spec fn stars(n: nat) -> Seq<char> {
    Seq::new(n, |i: int| '*')
}

/// The asterisks that stand for `password`: one for each byte of its
/// UTF-8 form.
pub open spec fn masked(password: Seq<char>) -> Seq<char> {
    stars(vstd::utf8::encode_utf8(password).len())
}

/// How far the prompt of the plain layout stands left of the position that
/// it is drawn for.
pub const PROMPT_LEFT: u32 = 40;

/// How far the prompt of the plain layout stands above the position that it
/// is drawn for.
pub const PROMPT_UP: u32 = 10;

/// How far the second line of the plain layout stands below the first.
pub const PROMPT_LINE: u32 = 20;

/// The greeting for the host `hostname`.
pub open spec fn welcome(hostname: Seq<char>) -> Seq<char> {
    "Welcome to "@ + hostname
}

/// The colours of the username's and the password's label: the field that
/// is being edited has the yellow one.
pub open spec fn label_colors(mode: Mode) -> (Color, Color) {
    match mode {
        Mode::EditingUsername => (Color(255, 255, 0), Color(255, 255, 255)),
        Mode::EditingPassword => (Color(255, 255, 255), Color(255, 255, 0)),
    }
}

/// `view` moved by `(dx, dy)`, if there is a view to move.
pub open spec fn then_shifted(view: Result<Viewport, BufferError>, dx: int, dy: int) -> Result<
    Viewport,
    BufferError,
> {
    match view {
        Ok(v) => v.shifted(dx, dy),
        Err(e) => Err(e),
    }
}

/// The paint of `text` drawn by `font` through `view`.
pub open spec fn text_through(view: Viewport, font: Font, text: Seq<char>, bg: Color, fg: Color) -> Paint {
    view.place(font.text(text, bg, fg))
}

/// The asterisks that stand for a password, one for each of its bytes.
fn mask(password: &str) -> (masked: String)
    ensures
        masked@ == stars(password.spec_bytes().len()),
{
    let n = password.as_bytes().len();
    let mut masked = String::new();
    let mut i: usize = 0;
    while i < n
        invariant
            i <= n,
            masked@ == stars(i as nat),
        decreases n - i,
    {
        masked.push('*');
        proof {
            assert(masked@ == stars((i + 1) as nat));
        }
        i += 1;
    }
    masked
}

impl LoginManager {
    /// Whether `after` has the fields, mode and geometry of this prompt.
    pub open spec fn same_state(&self, after: LoginManager) -> bool {
        &&& after.input() == self.input()
        &&& after.dimensions() == self.dimensions()
        &&& after.background() == self.background()
        &&& after.buffer().full() == self.buffer().full()
    }

    /// The dialog: a rectangle of the prompt's dimensions in the middle of
    /// the screen, if the screen holds it.
    pub open spec fn dialog(&self) -> Result<Viewport, BufferError> {
        let screen = self.buffer().full().spec_dimensions();
        let dim = self.dimensions();
        if dim.0 <= screen.0 && dim.1 <= screen.1 {
            self.buffer().full().narrowed(
                (screen.0 - dim.0) / 2,
                (screen.1 - dim.1) / 2,
                dim.0 as int,
                dim.1 as int,
            )
        } else {
            Err(BufferError::OutOfBounds)
        }
    }

    /// The field that stands `top` pixels below the dialog's corner.
    pub open spec fn field_view(&self, top: u32) -> Result<Viewport, BufferError> {
        let screen = self.buffer().full().spec_dimensions();
        let dim = self.dimensions();
        if dim.0 <= screen.0 && dim.1 <= screen.1 && dim.0 >= FIELD_SPARE {
            self.buffer().full().narrowed(
                (screen.0 - dim.0) / 2 + FIELD_LEFT,
                (screen.1 - dim.1) / 2 + top,
                dim.0 - FIELD_SPARE,
                FIELD_HEIGHT as int,
            )
        } else {
            Err(BufferError::OutOfBounds)
        }
    }

    /// Where the welcome starts: left of the middle of the screen, near the
    /// top.
    pub open spec fn welcome_view(&self) -> Result<Viewport, BufferError> {
        let screen = self.buffer().full().spec_dimensions();
        if screen.0 / 2 >= WELCOME_LEFT {
            self.buffer().full().shifted(screen.0 / 2 - WELCOME_LEFT, 32)
        } else {
            Err(BufferError::OutOfBounds)
        }
    }

    /// What a field shows: the background, if it is drawn afresh, and
    /// over it `text` in white.
    pub open spec fn field_paint(&self, view: Viewport, text: Seq<char>, redraw: bool) -> Paint {
        over(
            if redraw {
                view.place(fill(self.background()))
            } else {
                nothing()
            },
            text_through(view, self.font(), text, self.background(), Color(255, 255, 255)),
        )
    }

    /// What the background of the prompt shows: the welcome, the heading
    /// and the labels of the two fields.
    pub open spec fn bg_paint(
        &self,
        hostname: Seq<char>,
        greeting: Viewport,
        heading: Viewport,
        name: Viewport,
        word: Viewport,
    ) -> Paint {
        let bg = self.background();
        let white = Color(255, 255, 255);
        let colors = label_colors(self.input().mode);
        over(
            over(
                over(
                    text_through(greeting, self.title_font(), welcome(hostname), bg, white),
                    text_through(heading, self.title_font(), "Login"@, bg, white),
                ),
                text_through(name, self.font(), "username:"@, bg, colors.0),
            ),
            text_through(word, self.font(), "password:"@, bg, colors.1),
        )
    }

    /// The corner of the dialog, if the screen holds the dialog.
    pub fn offset(&self) -> (r: Result<(u32, u32), BufferError>)
        ensures
            r is Ok <==> self.dimensions().0 <= self.buffer().full().spec_dimensions().0
                && self.dimensions().1 <= self.buffer().full().spec_dimensions().1,
            r matches Ok(corner) ==> corner.0 == (self.buffer().full().spec_dimensions().0
                - self.dimensions().0) / 2 && corner.1 == (
            self.buffer().full().spec_dimensions().1 - self.dimensions().1) / 2,
            r matches Err(e) ==> e == BufferError::OutOfBounds,
    {
        let screen = self.buf.viewport().dimensions();
        if self.dimensions.0 > screen.0 || self.dimensions.1 > screen.1 {
            return Err(BufferError::OutOfBounds);
        }
        Ok(((screen.0 - self.dimensions.0) / 2, (screen.1 - self.dimensions.1) / 2))
    }

    /// The dialog's viewport.
    fn dialog_viewport(&self) -> (r: Result<Viewport, BufferError>)
        ensures
            r == self.dialog(),
    {
        match self.offset() {
            Ok(corner) => self.buf.viewport().subdimensions(
                (corner.0, corner.1, self.dimensions.0, self.dimensions.1),
            ),
            Err(e) => Err(e),
        }
    }

    /// The viewport of the field that stands `top` pixels below the dialog's
    /// corner.
    fn field_viewport(&self, top: u32) -> (r: Result<Viewport, BufferError>)
        ensures
            r == self.field_view(top),
    {
        let corner = match self.offset() {
            Ok(corner) => corner,
            Err(e) => {
                return Err(e);
            },
        };
        if self.dimensions.0 < FIELD_SPARE {
            return Err(BufferError::OutOfBounds);
        }
        let full = self.buf.viewport();
        let x: u64 = corner.0 as u64 + FIELD_LEFT as u64;
        let y: u64 = corner.1 as u64 + top as u64;
        proof {
            full.lemma_narrowed(
                x as int,
                y as int,
                self.dimensions.0 - FIELD_SPARE,
                FIELD_HEIGHT as int,
            );
        }
        if x > 0xffff_ffff || y > 0xffff_ffff {
            return Err(BufferError::OutOfBounds);
        }
        full.subdimensions((x as u32, y as u32, self.dimensions.0 - FIELD_SPARE, FIELD_HEIGHT))
    }

    /// The viewport that the welcome is drawn through.
    fn welcome_viewport(&self) -> (r: Result<Viewport, BufferError>)
        ensures
            r == self.welcome_view(),
    {
        let full = self.buf.viewport();
        let half = full.dimensions().0 / 2;
        if half < WELCOME_LEFT {
            return Err(BufferError::OutOfBounds);
        }
        full.offset((half - WELCOME_LEFT, 32))
    }

    /// Fills the screen with the background colour.
    pub fn clear(&mut self)
        ensures
            old(self).same_state(*final(self)),
            final(self).font() == old(self).font(),
            final(self).title_font() == old(self).title_font(),
            final(self).needs_refresh(),
            old(self).buffer().repainted(
                final(self).buffer(),
                old(self).buffer().full().place(fill(old(self).background())),
            ),
    {
        let full = self.buf.viewport();
        let bg = self.background;
        self.buf.memset(&full, &bg);
        self.should_refresh = true;
        proof {
            old(self).buf.lemma_repainted_full(self.buf, full.place(fill(bg)));
        }
    }

    /// Draws `text` in white into the field that stands `top` pixels below
    /// the dialog's corner, over the background colour if `redraw` is set.
    fn draw_field<F: Fn(char) -> Outline>(
        &mut self,
        top: u32,
        text: &str,
        redraw: bool,
        rasterize: &F,
    ) -> (r: Result<(), Error>)
        requires
            forall|ch: char| call_requires(*rasterize, (ch,)),
        ensures
            match old(self).field_view(top) {
                Ok(view) => {
                    &&& r is Ok
                    &&& old(self).same_state(*final(self))
                    &&& final(self).title_font() == old(self).title_font()
                    &&& old(self).font().grown(final(self).font(), text@, *rasterize)
                    &&& final(self).font().covers(text@)
                    &&& final(self).needs_refresh()
                    &&& old(self).buffer().repainted(
                        final(self).buffer(),
                        final(self).field_paint(view, text@, redraw),
                    )
                },
                Err(_) => r matches Err(Error::Buffer(BufferError::OutOfBounds)) && *final(self)
                    == *old(self),
            },
    {
        let view = match self.field_viewport(top) {
            Ok(view) => view,
            Err(e) => {
                return Err(Error::Buffer(e));
            },
        };
        let bg = self.background;
        let white = Color::white();
        let ghost start = self.buf;
        if redraw {
            self.buf.memset(&view, &bg);
        } else {
            proof {
                start.lemma_repainted_self();
            }
        }
        let ghost mid = self.buf;
        match self.font.auto_draw_text(&mut self.buf, &view, &bg, &white, text, rasterize) {
            Ok(_) => {},
            Err(e) => {
                return Err(Error::Draw(e));
            },
        }
        self.should_refresh = true;
        proof {
            let first = if redraw {
                view.place(fill(bg))
            } else {
                nothing()
            };
            start.lemma_repainted_twice(
                mid,
                self.buf,
                first,
                text_through(view, self.font, text@, bg, white),
            );
            start.lemma_repainted_full(self.buf, self.field_paint(view, text@, redraw));
        }
        Ok(())
    }

    /// Draws `username` into its field, over the background colour if
    /// `redraw` is set. If the screen does not hold the field, nothing is
    /// drawn.
    pub fn draw_username<F: Fn(char) -> Outline>(
        &mut self,
        username: &str,
        redraw: bool,
        rasterize: &F,
    ) -> (r: Result<(), Error>)
        requires
            forall|ch: char| call_requires(*rasterize, (ch,)),
        ensures
            match old(self).field_view(USERNAME_TOP) {
                Ok(view) => {
                    &&& r is Ok
                    &&& old(self).same_state(*final(self))
                    &&& final(self).title_font() == old(self).title_font()
                    &&& old(self).font().grown(final(self).font(), username@, *rasterize)
                    &&& final(self).font().covers(username@)
                    &&& final(self).needs_refresh()
                    &&& old(self).buffer().repainted(
                        final(self).buffer(),
                        final(self).field_paint(view, username@, redraw),
                    )
                },
                Err(_) => r matches Err(Error::Buffer(BufferError::OutOfBounds)) && *final(self)
                    == *old(self),
            },
    {
        self.draw_field(USERNAME_TOP, username, redraw, rasterize)
    }

    /// Draws one asterisk for each byte of `password` into the password's
    /// field, over the background colour if `redraw` is set. If the screen
    /// does not hold the field, nothing is drawn.
    pub fn draw_password<F: Fn(char) -> Outline>(
        &mut self,
        password: &str,
        redraw: bool,
        rasterize: &F,
    ) -> (r: Result<(), Error>)
        requires
            forall|ch: char| call_requires(*rasterize, (ch,)),
        ensures
            match old(self).field_view(PASSWORD_TOP) {
                Ok(view) => {
                    &&& r is Ok
                    &&& old(self).same_state(*final(self))
                    &&& final(self).title_font() == old(self).title_font()
                    &&& old(self).font().grown(
                        final(self).font(),
                        stars(password.spec_bytes().len()),
                        *rasterize,
                    )
                    &&& final(self).font().covers(stars(password.spec_bytes().len()))
                    &&& final(self).needs_refresh()
                    &&& old(self).buffer().repainted(
                        final(self).buffer(),
                        final(self).field_paint(
                            view,
                            stars(password.spec_bytes().len()),
                            redraw,
                        ),
                    )
                },
                Err(_) => r matches Err(Error::Buffer(BufferError::OutOfBounds)) && *final(self)
                    == *old(self),
            },
    {
        let masked = mask(password);
        self.draw_field(PASSWORD_TOP, masked.as_str(), redraw, rasterize)
    }
}

impl LoginManager {
    /// The four viewports of the background: those of the welcome, of the
    /// heading and of the two labels. There are none unless the screen holds
    /// all four.
    pub open spec fn bg_views(&self) -> Option<(Viewport, Viewport, Viewport, Viewport)> {
        match (
            self.welcome_view(),
            then_shifted(self.dialog(), 32, 24),
            then_shifted(self.dialog(), 256, USERNAME_TOP as int),
            then_shifted(self.dialog(), 256, PASSWORD_TOP as int),
        ) {
            (Ok(greeting), Ok(heading), Ok(name), Ok(word)) => Some(
                (greeting, heading, name, word),
            ),
            _ => None,
        }
    }

    /// Works out the four viewports of the background.
    fn bg_viewports(&self) -> (r: Option<(Viewport, Viewport, Viewport, Viewport)>)
        ensures
            r == self.bg_views(),
    {
        let greeting = match self.welcome_viewport() {
            Ok(v) => v,
            Err(_) => {
                return None;
            },
        };
        let dialog = match self.dialog_viewport() {
            Ok(v) => v,
            Err(_) => {
                return None;
            },
        };
        let heading = match dialog.offset((32, 24)) {
            Ok(v) => v,
            Err(_) => {
                return None;
            },
        };
        let name = match dialog.offset((256, USERNAME_TOP)) {
            Ok(v) => v,
            Err(_) => {
                return None;
            },
        };
        let word = match dialog.offset((256, PASSWORD_TOP)) {
            Ok(v) => v,
            Err(_) => {
                return None;
            },
        };
        Some((greeting, heading, name, word))
    }

    /// Draws the background of the prompt: a welcome to `hostname` near the
    /// top of the screen and, in the dialog, the heading and the labels of
    /// the two fields, the label of the field that is being edited in
    /// yellow. If the screen does not hold all of them, nothing is drawn.
    pub fn draw_bg<F: Fn(char) -> Outline, G: Fn(char) -> Outline>(
        &mut self,
        hostname: &str,
        title_rasterize: &F,
        rasterize: &G,
    ) -> (r: Result<(), Error>)
        requires
            forall|ch: char| call_requires(*title_rasterize, (ch,)),
            forall|ch: char| call_requires(*rasterize, (ch,)),
        ensures
            match old(self).bg_views() {
                Some(views) => {
                    &&& r is Ok
                    &&& old(self).same_state(*final(self))
                    &&& old(self).title_font().grown(
                        final(self).title_font(),
                        welcome(hostname@) + "Login"@,
                        *title_rasterize,
                    )
                    &&& old(self).font().grown(
                        final(self).font(),
                        "username:"@ + "password:"@,
                        *rasterize,
                    )
                    &&& final(self).title_font().covers(welcome(hostname@))
                    &&& final(self).title_font().covers("Login"@)
                    &&& final(self).font().covers("username:"@)
                    &&& final(self).font().covers("password:"@)
                    &&& final(self).needs_refresh()
                    &&& old(self).buffer().repainted(
                        final(self).buffer(),
                        final(self).bg_paint(hostname@, views.0, views.1, views.2, views.3),
                    )
                },
                None => r matches Err(Error::Buffer(BufferError::OutOfBounds)) && *final(self)
                    == *old(self),
            },
    {
        let (greeting, heading, name, word) = match self.bg_viewports() {
            Some(views) => views,
            None => {
                return Err(Error::Buffer(BufferError::OutOfBounds));
            },
        };
        let bg = self.background;
        let white = Color::white();
        let (name_color, word_color) = match self.mode {
            Mode::EditingUsername => (Color::yellow(), Color::white()),
            Mode::EditingPassword => (Color::white(), Color::yellow()),
        };
        let mut greet = String::from_str("Welcome to ");
        greet.append(hostname);
        let ghost b0 = self.buf;
        let ghost f0 = self.title_font;
        let ghost p0 = self.font;

        match self.title_font.auto_draw_text(
            &mut self.buf,
            &greeting,
            &bg,
            &white,
            greet.as_str(),
            title_rasterize,
        ) {
            Ok(_) => {},
            Err(e) => {
                return Err(Error::Draw(e));
            },
        }
        let ghost b1 = self.buf;
        let ghost f1 = self.title_font;
        match self.title_font.auto_draw_text(
            &mut self.buf,
            &heading,
            &bg,
            &white,
            "Login",
            title_rasterize,
        ) {
            Ok(_) => {},
            Err(e) => {
                return Err(Error::Draw(e));
            },
        }
        let ghost b2 = self.buf;
        match self.font.auto_draw_text(
            &mut self.buf,
            &name,
            &bg,
            &name_color,
            "username:",
            rasterize,
        ) {
            Ok(_) => {},
            Err(e) => {
                return Err(Error::Draw(e));
            },
        }
        let ghost b3 = self.buf;
        let ghost p1 = self.font;
        match self.font.auto_draw_text(
            &mut self.buf,
            &word,
            &bg,
            &word_color,
            "password:",
            rasterize,
        ) {
            Ok(_) => {},
            Err(e) => {
                return Err(Error::Draw(e));
            },
        }
        self.should_refresh = true;
        proof {
            let f2 = self.title_font;
            let p2 = self.font;
            f1.lemma_grown_keeps_text(f2, "Login"@, *title_rasterize, greet@, bg, white);
            p1.lemma_grown_keeps_text(p2, "password:"@, *rasterize, "username:"@, bg, name_color);
            f0.lemma_grown_twice(f1, f2, greet@, "Login"@, *title_rasterize);
            p0.lemma_grown_twice(p1, p2, "username:"@, "password:"@, *rasterize);
            let one = text_through(greeting, f2, greet@, bg, white);
            let two = text_through(heading, f2, "Login"@, bg, white);
            let three = text_through(name, p2, "username:"@, bg, name_color);
            let four = text_through(word, p2, "password:"@, bg, word_color);
            b0.lemma_repainted_twice(b1, b2, one, two);
            b0.lemma_repainted_twice(b2, b3, over(one, two), three);
            b0.lemma_repainted_twice(b3, self.buf, over(over(one, two), three), four);
            b0.lemma_repainted_full(self.buf, over(over(over(one, two), three), four));
        }
        Ok(())
    }
}

impl LoginManager {
    /// What the whole prompt shows: the background and, over it, the two
    /// fields drawn afresh, the password as asterisks.
    pub open spec fn prompt_paint(
        &self,
        hostname: Seq<char>,
        views: (Viewport, Viewport, Viewport, Viewport),
        name: Viewport,
        word: Viewport,
    ) -> Paint {
        over(
            over(
                self.bg_paint(hostname, views.0, views.1, views.2, views.3),
                self.field_paint(name, self.input().username, true),
            ),
            self.field_paint(word, masked(self.input().password), true),
        )
    }

    /// Draws the whole prompt: the background for `hostname` and the two
    /// fields, the password as asterisks. If the screen does not hold all
    /// of it, nothing is drawn.
    pub fn redraw<F: Fn(char) -> Outline, G: Fn(char) -> Outline>(
        &mut self,
        hostname: &str,
        title_rasterize: &F,
        rasterize: &G,
    ) -> (r: Result<(), Error>)
        requires
            forall|ch: char| call_requires(*title_rasterize, (ch,)),
            forall|ch: char| call_requires(*rasterize, (ch,)),
        ensures
            match (
                old(self).bg_views(),
                old(self).field_view(USERNAME_TOP),
                old(self).field_view(PASSWORD_TOP),
            ) {
                (Some(views), Ok(name), Ok(word)) => {
                    &&& r is Ok
                    &&& old(self).same_state(*final(self))
                    &&& old(self).title_font().grown(
                        final(self).title_font(),
                        welcome(hostname@) + "Login"@,
                        *title_rasterize,
                    )
                    &&& old(self).font().grown(
                        final(self).font(),
                        "username:"@ + "password:"@ + old(self).input().username + masked(
                            old(self).input().password,
                        ),
                        *rasterize,
                    )
                    &&& final(self).needs_refresh()
                    &&& old(self).buffer().repainted(
                        final(self).buffer(),
                        final(self).prompt_paint(hostname@, views, name, word),
                    )
                },
                _ => r matches Err(Error::Buffer(BufferError::OutOfBounds)) && *final(self)
                    == *old(self),
            },
    {
        if self.bg_viewports().is_none() || self.field_viewport(USERNAME_TOP).is_err()
            || self.field_viewport(PASSWORD_TOP).is_err() {
            return Err(Error::Buffer(BufferError::OutOfBounds));
        }
        let ghost views = self.bg_views()->Some_0;
        let ghost name = self.field_view(USERNAME_TOP)->Ok_0;
        let ghost word = self.field_view(PASSWORD_TOP)->Ok_0;
        let ghost b0 = self.buf;
        let ghost p0 = self.font;
        let ghost user = self.username@;
        let ghost hidden = masked(self.password@);
        let ghost bg = self.background;
        let ghost white = Color(255, 255, 255);
        match self.draw_bg(hostname, title_rasterize, rasterize) {
            Ok(()) => {},
            Err(e) => {
                return Err(e);
            },
        }
        let ghost s1 = *self;
        let username = self.username.clone();
        match self.draw_username(username.as_str(), true, rasterize) {
            Ok(()) => {},
            Err(e) => {
                return Err(e);
            },
        }
        let ghost s2 = *self;
        let password = self.password.clone();
        match self.draw_password(password.as_str(), true, rasterize) {
            Ok(()) => {},
            Err(e) => {
                return Err(e);
            },
        }
        proof {
            let p1 = s1.font;
            let p2 = s2.font;
            let p3 = self.font;
            let labels = "username:"@ + "password:"@;
            let colors = label_colors(self.mode);
            p1.lemma_grown_twice(p2, p3, user, hidden, *rasterize);
            p1.lemma_grown_keeps_text(p3, user + hidden, *rasterize, "username:"@, bg, colors.0);
            p1.lemma_grown_keeps_text(p3, user + hidden, *rasterize, "password:"@, bg, colors.1);
            p2.lemma_grown_keeps_text(p3, hidden, *rasterize, user, bg, white);
            p0.lemma_grown_twice(p1, p2, labels, user, *rasterize);
            p0.lemma_grown_twice(p2, p3, labels + user, hidden, *rasterize);
            assert(s1.bg_paint(hostname@, views.0, views.1, views.2, views.3) == self.bg_paint(
                hostname@,
                views.0,
                views.1,
                views.2,
                views.3,
            ));
            assert(s2.field_paint(name, user, true) == self.field_paint(name, user, true));
            b0.lemma_repainted_twice(
                s1.buf,
                s2.buf,
                self.bg_paint(hostname@, views.0, views.1, views.2, views.3),
                self.field_paint(name, user, true),
            );
            b0.lemma_repainted_twice(
                s2.buf,
                self.buf,
                over(
                    self.bg_paint(hostname@, views.0, views.1, views.2, views.3),
                    self.field_paint(name, user, true),
                ),
                self.field_paint(word, hidden, true),
            );
        }
        Ok(())
    }

    /// The two viewports of the plain layout for the position `at`: that of
    /// the username's line and, below it, that of the password's.
    pub open spec fn prompt_views(&self, at: (u32, u32)) -> Option<(Viewport, Viewport)> {
        if at.0 >= PROMPT_LEFT && at.1 >= PROMPT_UP {
            match (
                self.buffer().full().shifted(at.0 - PROMPT_LEFT, at.1 - PROMPT_UP),
                self.buffer().full().shifted(
                    at.0 - PROMPT_LEFT,
                    at.1 - PROMPT_UP + PROMPT_LINE,
                ),
            ) {
                (Ok(name), Ok(word)) => Some((name, word)),
                _ => None,
            }
        } else {
            None
        }
    }

    /// What the plain layout shows: the background colour everywhere and,
    /// over it, a line for the username and a line for the password as
    /// asterisks, the line of the field that is being edited in yellow.
    pub open spec fn plain_paint(&self, name: Viewport, word: Viewport) -> Paint {
        let bg = self.background();
        let colors = label_colors(self.input().mode);
        over(
            over(
                self.buffer().full().place(fill(bg)),
                text_through(
                    name,
                    self.font(),
                    "Username: "@ + self.input().username,
                    bg,
                    colors.0,
                ),
            ),
            text_through(
                word,
                self.font(),
                "Password: "@ + masked(self.input().password),
                bg,
                colors.1,
            ),
        )
    }

    /// Draws the prompt in the plain layout for the position `at`: the
    /// screen is filled with the background colour, then the two lines are
    /// drawn. If the screen does not hold both lines, nothing is drawn.
    pub fn draw_prompt<F: Fn(char) -> Outline>(&mut self, at: (u32, u32), rasterize: &F) -> (r:
        Result<(), Error>)
        requires
            forall|ch: char| call_requires(*rasterize, (ch,)),
        ensures
            match old(self).prompt_views(at) {
                Some(views) => {
                    &&& r is Ok
                    &&& old(self).same_state(*final(self))
                    &&& final(self).title_font() == old(self).title_font()
                    &&& old(self).font().grown(
                        final(self).font(),
                        "Username: "@ + old(self).input().username + ("Password: "@ + masked(
                            old(self).input().password,
                        )),
                        *rasterize,
                    )
                    &&& old(self).buffer().repainted(
                        final(self).buffer(),
                        final(self).plain_paint(views.0, views.1),
                    )
                },
                None => r matches Err(Error::Buffer(BufferError::OutOfBounds)) && *final(self)
                    == *old(self),
            },
    {
        if at.0 < PROMPT_LEFT || at.1 < PROMPT_UP {
            return Err(Error::Buffer(BufferError::OutOfBounds));
        }
        let full = self.buf.viewport();
        let x = at.0 - PROMPT_LEFT;
        let y = at.1 - PROMPT_UP;
        let name = match full.offset((x, y)) {
            Ok(v) => v,
            Err(e) => {
                return Err(Error::Buffer(e));
            },
        };
        if y > 0xffff_ffff - PROMPT_LINE {
            proof {
                full.lemma_narrowed(
                    x as int,
                    y + PROMPT_LINE,
                    full.spec_dimensions().0 - x,
                    full.spec_dimensions().1 - (y + PROMPT_LINE),
                );
            }
            return Err(Error::Buffer(BufferError::OutOfBounds));
        }
        let word = match full.offset((x, y + PROMPT_LINE)) {
            Ok(v) => v,
            Err(e) => {
                return Err(Error::Buffer(e));
            },
        };
        let bg = self.background;
        let (name_color, word_color) = match self.mode {
            Mode::EditingUsername => (Color::yellow(), Color::white()),
            Mode::EditingPassword => (Color::white(), Color::yellow()),
        };
        let mut name_line = String::from_str("Username: ");
        name_line.append(self.username.as_str());
        let mut word_line = String::from_str("Password: ");
        let hidden = mask(self.password.as_str());
        word_line.append(hidden.as_str());
        let ghost b0 = self.buf;
        let ghost p0 = self.font;
        self.buf.memset(&full, &bg);
        let ghost b1 = self.buf;
        match self.font.auto_draw_text(
            &mut self.buf,
            &name,
            &bg,
            &name_color,
            name_line.as_str(),
            rasterize,
        ) {
            Ok(_) => {},
            Err(e) => {
                return Err(Error::Draw(e));
            },
        }
        let ghost b2 = self.buf;
        let ghost p1 = self.font;
        match self.font.auto_draw_text(
            &mut self.buf,
            &word,
            &bg,
            &word_color,
            word_line.as_str(),
            rasterize,
        ) {
            Ok(_) => {},
            Err(e) => {
                return Err(Error::Draw(e));
            },
        }
        self.should_refresh = true;
        proof {
            let p2 = self.font;
            p1.lemma_grown_keeps_text(p2, word_line@, *rasterize, name_line@, bg, name_color);
            p0.lemma_grown_twice(p1, p2, name_line@, word_line@, *rasterize);
            let one = full.place(fill(bg));
            let two = text_through(name, p2, name_line@, bg, name_color);
            let three = text_through(word, p2, word_line@, bg, word_color);
            b0.lemma_repainted_twice(b1, b2, one, two);
            b0.lemma_repainted_twice(b2, self.buf, over(one, two), three);
            b0.lemma_repainted_full(self.buf, over(over(one, two), three));
        }
        Ok(())
    }
}

} // verus!
