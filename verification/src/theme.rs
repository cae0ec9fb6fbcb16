//! The theme file and the command line.
//!
//! A theme is a text of lines. A line that holds `=` sets the key before
//! the first `=` to the value after it; every other line is passed over, and
//! so is a key that is not known. Alignments are kept as the text they were
//! written in: turning them into fractions is left to the caller.

use vstd::prelude::*;
use crate::color::{color_of, Color};
use crate::draw::{Font, Glyph, DEFAULT_FONT_SIZE};
use crate::parse::{
    last_word, lines, number, pair_of, spells, split_lines, split_pair, split_words, string_of,
    words, ParseError,
};
use crate::text::chars_of;

verus! {

/// The text of an alignment: the value itself if it starts with a point,
/// nothing otherwise.
pub open spec fn alignment_of(value: Seq<char>) -> Seq<char> {
    if value.len() > 0 && value[0] == '.' {
        value
    } else {
        Seq::empty()
    }
}

/// The look of the prompt as contracts see it.
pub struct Look {
    /// The pixel size of the font of the fields.
    pub font_size: u32,
    /// The pixel size of the font of the headings.
    pub title_font_size: u32,
    /// The directory of the images.
    pub image_dir: Seq<char>,
    /// The alignments, each as the text it was written in.
    pub dialog_horizontal_alignment: Seq<char>,
    pub dialog_vertical_alignment: Seq<char>,
    pub title_horizontal_alignment: Seq<char>,
    pub title_vertical_alignment: Seq<char>,
    pub watermark_horizontal_alignment: Seq<char>,
    pub watermark_vertical_alignment: Seq<char>,
    pub horizontal_alignment: Seq<char>,
    pub vertical_alignment: Seq<char>,
    /// The colour at the start of the background.
    pub background_start_color: Color,
    /// The colour at the end of the background.
    pub background_end_color: Color,
}

impl Look {
    /// The look that nothing was set in.
    pub open spec fn plain() -> Look {
        Look {
            font_size: DEFAULT_FONT_SIZE,
            title_font_size: DEFAULT_FONT_SIZE,
            image_dir: Seq::empty(),
            dialog_horizontal_alignment: Seq::empty(),
            dialog_vertical_alignment: Seq::empty(),
            title_horizontal_alignment: Seq::empty(),
            title_vertical_alignment: Seq::empty(),
            watermark_horizontal_alignment: Seq::empty(),
            watermark_vertical_alignment: Seq::empty(),
            horizontal_alignment: Seq::empty(),
            vertical_alignment: Seq::empty(),
            background_start_color: Color(0, 0, 0),
            background_end_color: Color(0, 0, 0),
        }
    }

    /// This look after `key` was set to `value`. A font whose last word
    /// is no size, and a colour that is none, are refused.
    pub open spec fn set(self, key: Seq<char>, value: Seq<char>) -> Result<Look, ParseError> {
        if key == "Font"@ {
            match number(last_word(value)) {
                Some(size) => Ok(Look { font_size: size, ..self }),
                None => Err(ParseError::FontSize),
            }
        } else if key == "TitleFont"@ {
            match number(last_word(value)) {
                Some(size) => Ok(Look { title_font_size: size, ..self }),
                None => Err(ParseError::FontSize),
            }
        } else if key == "ImageDir"@ {
            Ok(Look { image_dir: value, ..self })
        } else if key == "DialogHorizontalAlignment"@ {
            Ok(Look { dialog_horizontal_alignment: alignment_of(value), ..self })
        } else if key == "DialogVerticalAlignment"@ {
            Ok(Look { dialog_vertical_alignment: alignment_of(value), ..self })
        } else if key == "TitleHorizontalAlignment"@ {
            Ok(Look { title_horizontal_alignment: alignment_of(value), ..self })
        } else if key == "TitleVerticalAlignment"@ {
            Ok(Look { title_vertical_alignment: alignment_of(value), ..self })
        } else if key == "HorizontalAlignment"@ {
            Ok(Look { horizontal_alignment: alignment_of(value), ..self })
        } else if key == "VerticalAlignment"@ {
            Ok(Look { vertical_alignment: alignment_of(value), ..self })
        } else if key == "WatermarkHorizontalAlignment"@ {
            Ok(Look { watermark_horizontal_alignment: alignment_of(value), ..self })
        } else if key == "WatermarkVerticalAlignment"@ {
            Ok(Look { watermark_vertical_alignment: alignment_of(value), ..self })
        } else if key == "BackgroundStartColor"@ {
            match color_of(value) {
                Some(c) => Ok(Look { background_start_color: c, ..self }),
                None => Err(ParseError::Color),
            }
        } else if key == "BackgroundEndColor"@ {
            match color_of(value) {
                Some(c) => Ok(Look { background_end_color: c, ..self }),
                None => Err(ParseError::Color),
            }
        } else {
            Ok(self)
        }
    }

    /// This look after each of `text`'s lines was read in turn, up to the
    /// first that is refused.
    pub open spec fn read(self, text: Seq<Seq<char>>) -> Result<Look, ParseError>
        decreases text.len(),
    {
        if text.len() == 0 {
            Ok(self)
        } else {
            match self.read(text.drop_last()) {
                Ok(look) => match pair_of(text.last()) {
                    Some(pair) => look.set(pair.0, pair.1),
                    None => Ok(look),
                },
                Err(e) => Err(e),
            }
        }
    }
}

/// Once a line was refused, reading more lines changes nothing.
pub proof fn lemma_read_refused(look: Look, text: Seq<Seq<char>>, n: int)
    requires
        0 <= n <= text.len(),
        look.read(text.take(n)) is Err,
    ensures
        look.read(text) == look.read(text.take(n)),
    decreases text.len() - n,
{
    if n < text.len() {
        assert(text.take(n + 1).drop_last() == text.take(n));
        lemma_read_refused(look, text, n + 1);
    } else {
        assert(text.take(n) == text);
    }
}

/// The look of the prompt.
#[derive(Debug)]
pub struct Module {
    pub font: Font,
    pub title_font: Font,
    pub image_dir: String,
    pub dialog_horizontal_alignment: String,
    pub dialog_vertical_alignment: String,
    pub title_horizontal_alignment: String,
    pub title_vertical_alignment: String,
    pub watermark_horizontal_alignment: String,
    pub watermark_vertical_alignment: String,
    pub horizontal_alignment: String,
    pub vertical_alignment: String,
    pub background_start_color: Color,
    pub background_end_color: Color,
}

impl View for Module {
    type V = Look;

    open spec fn view(&self) -> Look {
        Look {
            font_size: self.font.spec_size(),
            title_font_size: self.title_font.spec_size(),
            image_dir: self.image_dir@,
            dialog_horizontal_alignment: self.dialog_horizontal_alignment@,
            dialog_vertical_alignment: self.dialog_vertical_alignment@,
            title_horizontal_alignment: self.title_horizontal_alignment@,
            title_vertical_alignment: self.title_vertical_alignment@,
            watermark_horizontal_alignment: self.watermark_horizontal_alignment@,
            watermark_vertical_alignment: self.watermark_vertical_alignment@,
            horizontal_alignment: self.horizontal_alignment@,
            vertical_alignment: self.vertical_alignment@,
            background_start_color: self.background_start_color,
            background_end_color: self.background_end_color,
        }
    }
}

impl Clone for Module {
    fn clone(&self) -> (copy: Module)
        ensures
            copy@ == self@,
            copy.font.cache() == self.font.cache(),
            copy.title_font.cache() == self.title_font.cache(),
    {
        Module {
            font: self.font.clone(),
            title_font: self.title_font.clone(),
            image_dir: self.image_dir.clone(),
            dialog_horizontal_alignment: self.dialog_horizontal_alignment.clone(),
            dialog_vertical_alignment: self.dialog_vertical_alignment.clone(),
            title_horizontal_alignment: self.title_horizontal_alignment.clone(),
            title_vertical_alignment: self.title_vertical_alignment.clone(),
            watermark_horizontal_alignment: self.watermark_horizontal_alignment.clone(),
            watermark_vertical_alignment: self.watermark_vertical_alignment.clone(),
            horizontal_alignment: self.horizontal_alignment.clone(),
            vertical_alignment: self.vertical_alignment.clone(),
            background_start_color: self.background_start_color,
            background_end_color: self.background_end_color,
        }
    }
}

/// Reads an alignment.
fn alignment(value: &Vec<char>) -> (text: String)
    ensures
        text@ == alignment_of(value@),
{
    if value.len() > 0 && value[0] == '.' {
        string_of(value)
    } else {
        String::new()
    }
}

impl Module {
    /// Whether both fonts have empty caches.
    pub open spec fn fresh(&self) -> bool {
        &&& self.font.cache() == Map::<char, Glyph>::empty()
        &&& self.title_font.cache() == Map::<char, Glyph>::empty()
    }

    /// The look that nothing was set in.
    pub fn new() -> (m: Module)
        ensures
            m@ == Look::plain(),
            m.fresh(),
    {
        Module {
            font: Font::new(DEFAULT_FONT_SIZE),
            title_font: Font::new(DEFAULT_FONT_SIZE),
            image_dir: String::new(),
            dialog_horizontal_alignment: String::new(),
            dialog_vertical_alignment: String::new(),
            title_horizontal_alignment: String::new(),
            title_vertical_alignment: String::new(),
            watermark_horizontal_alignment: String::new(),
            watermark_vertical_alignment: String::new(),
            horizontal_alignment: String::new(),
            vertical_alignment: String::new(),
            background_start_color: Color(0, 0, 0),
            background_end_color: Color(0, 0, 0),
        }
    }

    /// Sets `key` to `value`. A key that is not known changes nothing. A
    /// value that is refused changes nothing either.
    pub fn set(&mut self, key: &Vec<char>, value: &Vec<char>) -> (r: Result<(), ParseError>)
        ensures
            match old(self)@.set(key@, value@) {
                Ok(look) => r is Ok && final(self)@ == look,
                Err(e) => r == Err::<(), ParseError>(e) && *final(self) == *old(self),
            },
            old(self).fresh() ==> final(self).fresh(),
    {
        if spells(key, "Font") {
            match Font::parse_chars(value) {
                Ok(font) => {
                    self.font = font;
                },
                Err(e) => {
                    return Err(e);
                },
            }
        } else if spells(key, "TitleFont") {
            match Font::parse_chars(value) {
                Ok(font) => {
                    self.title_font = font;
                },
                Err(e) => {
                    return Err(e);
                },
            }
        } else if spells(key, "ImageDir") {
            self.image_dir = string_of(value);
        } else if spells(key, "DialogHorizontalAlignment") {
            self.dialog_horizontal_alignment = alignment(value);
        } else if spells(key, "DialogVerticalAlignment") {
            self.dialog_vertical_alignment = alignment(value);
        } else if spells(key, "TitleHorizontalAlignment") {
            self.title_horizontal_alignment = alignment(value);
        } else if spells(key, "TitleVerticalAlignment") {
            self.title_vertical_alignment = alignment(value);
        } else if spells(key, "HorizontalAlignment") {
            self.horizontal_alignment = alignment(value);
        } else if spells(key, "VerticalAlignment") {
            self.vertical_alignment = alignment(value);
        } else if spells(key, "WatermarkHorizontalAlignment") {
            self.watermark_horizontal_alignment = alignment(value);
        } else if spells(key, "WatermarkVerticalAlignment") {
            self.watermark_vertical_alignment = alignment(value);
        } else if spells(key, "BackgroundStartColor") {
            match Color::parse_chars(value) {
                Ok(c) => {
                    self.background_start_color = c;
                },
                Err(e) => {
                    return Err(e);
                },
            }
        } else if spells(key, "BackgroundEndColor") {
            match Color::parse_chars(value) {
                Ok(c) => {
                    self.background_end_color = c;
                },
                Err(e) => {
                    return Err(e);
                },
            }
        }
        Ok(())
    }

    /// Reads a look from the lines of a theme, starting from the look
    /// that nothing was set in. The first value that is refused ends the
    /// reading.
    pub fn parse_lines(text: &Vec<Vec<char>>) -> (r: Result<Module, ParseError>)
        ensures
            match Look::plain().read(text@.map_values(|line: Vec<char>| line@)) {
                Ok(look) => r matches Ok(m) && m@ == look && m.fresh(),
                Err(e) => r matches Err(f) && f == e,
            },
    {
        let ghost rows = text@.map_values(|line: Vec<char>| line@);
        let mut module = Module::new();
        let mut i: usize = 0;
        proof {
            assert(rows.take(0) == Seq::<Seq<char>>::empty());
        }
        while i < text.len()
            invariant
                i <= text@.len(),
                rows == text@.map_values(|line: Vec<char>| line@),
                Look::plain().read(rows.take(i as int)) == Ok::<Look, ParseError>(module@),
                module.fresh(),
            decreases text@.len() - i,
        {
            proof {
                assert(rows.take(i + 1).drop_last() == rows.take(i as int));
                assert(rows.take(i + 1).last() == text@[i as int]@);
            }
            match split_pair(&text[i]) {
                Some(pair) => {
                    match module.set(&pair.0, &pair.1) {
                        Ok(()) => {},
                        Err(e) => {
                            proof {
                                lemma_read_refused(Look::plain(), rows, i + 1);
                            }
                            return Err(e);
                        },
                    }
                },
                None => {},
            }
            i += 1;
        }
        proof {
            assert(rows.take(i as int) == rows);
        }
        Ok(module)
    }

    /// Reads a look from the text of a theme.
    pub fn parse(s: &str) -> (r: Result<Module, ParseError>)
        ensures
            match Look::plain().read(lines(s@)) {
                Ok(look) => r matches Ok(m) && m@ == look && m.fresh(),
                Err(e) => r matches Err(f) && f == e,
            },
    {
        let chars = chars_of(s);
        let text = split_lines(&chars);
        proof {
            assert(text@.map_values(|line: Vec<char>| line@) =~= lines(s@));
        }
        Module::parse_lines(&text)
    }
}

impl Default for Module {
    fn default() -> (m: Module)
        ensures
            m@ == Look::plain(),
            m.fresh(),
    {
        Module::new()
    }
}

impl std::str::FromStr for Module {
    type Err = ParseError;

    fn from_str(s: &str) -> (r: Result<Module, ParseError>)
        ensures
            match Look::plain().read(lines(s@)) {
                Ok(look) => r matches Ok(m) && m@ == look && m.fresh(),
                Err(e) => r matches Err(f) && f == e,
            },
    {
        Module::parse(s)
    }
}

/// A theme as contracts see it.
pub struct Described {
    /// The name of the theme.
    pub name: Seq<char>,
    /// What the theme says of itself, if anything.
    pub description: Option<Seq<char>>,
    /// The look.
    pub look: Look,
}

impl Described {
    /// The theme that nothing was set in.
    pub open spec fn plain() -> Described {
        Described { name: Seq::empty(), description: None, look: Look::plain() }
    }

    /// This theme after `key` was set to `value` in a theme of the lines
    /// `whole`. The key `ModuleName` has the look read from the whole theme.
    pub open spec fn set(self, key: Seq<char>, value: Seq<char>, whole: Seq<Seq<char>>) -> Result<
        Described,
        ParseError,
    > {
        if key == "Name"@ {
            Ok(Described { name: value, ..self })
        } else if key == "Description"@ {
            Ok(Described { description: Some(value), ..self })
        } else if key == "ModuleName"@ {
            match Look::plain().read(whole) {
                Ok(look) => Ok(Described { look, ..self }),
                Err(e) => Err(e),
            }
        } else {
            Ok(self)
        }
    }

    /// This theme after each of the first `n` lines of `whole` was read in
    /// turn, up to the first that is refused.
    pub open spec fn read(self, whole: Seq<Seq<char>>, n: int) -> Result<Described, ParseError>
        decreases n,
    {
        if n <= 0 || n > whole.len() {
            Ok(self)
        } else {
            match self.read(whole, n - 1) {
                Ok(theme) => match pair_of(whole[n - 1]) {
                    Some(pair) => theme.set(pair.0, pair.1, whole),
                    None => Ok(theme),
                },
                Err(e) => Err(e),
            }
        }
    }
}

/// Once a line of a theme was refused, reading more lines changes nothing.
pub proof fn lemma_theme_refused(theme: Described, whole: Seq<Seq<char>>, n: int, m: int)
    requires
        0 <= n <= m <= whole.len(),
        theme.read(whole, n) is Err,
    ensures
        theme.read(whole, m) == theme.read(whole, n),
    decreases m - n,
{
    if n < m {
        lemma_theme_refused(theme, whole, n, m - 1);
    }
}

/// A theme: its name, what it says of itself, and its look.
#[derive(Debug)]
pub struct Theme {
    pub name: String,
    pub description: Option<String>,
    pub module: Module,
}

impl Clone for Theme {
    fn clone(&self) -> (copy: Theme)
        ensures
            copy@ == self@,
            copy.module.font.cache() == self.module.font.cache(),
            copy.module.title_font.cache() == self.module.title_font.cache(),
    {
        Theme {
            name: self.name.clone(),
            description: match &self.description {
                Some(text) => Some(text.clone()),
                None => None,
            },
            module: self.module.clone(),
        }
    }
}

impl View for Theme {
    type V = Described;

    open spec fn view(&self) -> Described {
        Described {
            name: self.name@,
            description: match self.description {
                Some(text) => Some(text@),
                None => None,
            },
            look: self.module@,
        }
    }
}

impl Theme {
    /// The theme that nothing was set in.
    pub fn new() -> (theme: Theme)
        ensures
            theme@ == Described::plain(),
            theme.module.fresh(),
    {
        Theme { name: String::new(), description: None, module: Module::new() }
    }

    /// Reads a theme from its text, starting from the theme that nothing
    /// was set in. The first value that is refused ends the reading.
    pub fn parse(s: &str) -> (r: Result<Theme, ParseError>)
        ensures
            match Described::plain().read(lines(s@), lines(s@).len() as int) {
                Ok(theme) => r matches Ok(t) && t@ == theme && t.module.fresh(),
                Err(e) => r matches Err(f) && f == e,
            },
    {
        let chars = chars_of(s);
        let text = split_lines(&chars);
        let ghost whole = lines(s@);
        proof {
            assert(text@.map_values(|line: Vec<char>| line@) =~= whole);
        }
        let mut theme = Theme::new();
        let mut i: usize = 0;
        while i < text.len()
            invariant
                i <= text@.len(),
                whole == lines(s@),
                text@.len() == whole.len(),
                text@.map_values(|line: Vec<char>| line@) == whole,
                forall|j: int| 0 <= j < text@.len() ==> (#[trigger] text@[j])@ == whole[j],
                Described::plain().read(whole, i as int) == Ok::<Described, ParseError>(theme@),
                theme.module.fresh(),
            decreases text@.len() - i,
        {
            match split_pair(&text[i]) {
                Some(pair) => {
                    if spells(&pair.0, "Name") {
                        theme.name = string_of(&pair.1);
                    } else if spells(&pair.0, "Description") {
                        theme.description = Some(string_of(&pair.1));
                    } else if spells(&pair.0, "ModuleName") {
                        match Module::parse_lines(&text) {
                            Ok(module) => {
                                theme.module = module;
                            },
                            Err(e) => {
                                proof {
                                    lemma_theme_refused(
                                        Described::plain(),
                                        whole,
                                        i + 1,
                                        whole.len() as int,
                                    );
                                }
                                return Err(e);
                            },
                        }
                    }
                },
                None => {},
            }
            i += 1;
        }
        Ok(theme)
    }
}

impl Default for Theme {
    fn default() -> (theme: Theme)
        ensures
            theme@ == Described::plain(),
            theme.module.fresh(),
    {
        Theme::new()
    }
}

impl std::str::FromStr for Theme {
    type Err = ParseError;

    fn from_str(s: &str) -> (r: Result<Theme, ParseError>)
        ensures
            match Described::plain().read(lines(s@), lines(s@).len() as int) {
                Ok(theme) => r matches Ok(t) && t@ == theme && t.module.fresh(),
                Err(e) => r matches Err(f) && f == e,
            },
    {
        Theme::parse(s)
    }
}

/// What the prompt was started with.
#[derive(Debug)]
pub struct Config {
    /// The command that starts the session, word by word.
    pub session: Vec<String>,
    /// The theme.
    pub theme: Theme,
}

impl Clone for Config {
    fn clone(&self) -> (copy: Config)
        ensures
            copy.session@.len() == self.session@.len(),
            forall|i: int|
                0 <= i < self.session@.len() ==> (#[trigger] copy.session@[i])@
                    == self.session@[i]@,
            copy.theme@ == self.theme@,
    {
        let mut session: Vec<String> = Vec::new();
        let mut i: usize = 0;
        while i < self.session.len()
            invariant
                i <= self.session@.len(),
                session@.len() == i,
                forall|j: int| 0 <= j < i ==> (#[trigger] session@[j])@ == self.session@[j]@,
            decreases self.session@.len() - i,
        {
            session.push(self.session[i].clone());
            i += 1;
        }
        Config { session, theme: self.theme.clone() }
    }
}

impl Default for Config {
    fn default() -> (config: Config)
        ensures
            config.session@.len() == 0,
            config.theme@ == Described::plain(),
            config.theme.module.fresh(),
    {
        Config { session: Vec::new(), theme: Theme::new() }
    }
}

/// What there is to say of an argument that was not understood.
#[derive(Debug)]
pub enum Note {
    /// `--session` was the last argument.
    MissingSession,
    /// `--theme-file` was the last argument.
    MissingThemeFile,
    /// An argument that starts with `--` and is no known flag.
    UnknownFlag(String),
    /// Any other argument.
    UnknownArgument(String),
}

/// A note as contracts see it.
pub enum Remark {
    /// `--session` was the last argument.
    MissingSession,
    /// `--theme-file` was the last argument.
    MissingThemeFile,
    /// An argument that starts with `--` and is no known flag.
    UnknownFlag(Seq<char>),
    /// Any other argument.
    UnknownArgument(Seq<char>),
}

impl View for Note {
    type V = Remark;

    open spec fn view(&self) -> Remark {
        match self {
            Note::MissingSession => Remark::MissingSession,
            Note::MissingThemeFile => Remark::MissingThemeFile,
            Note::UnknownFlag(text) => Remark::UnknownFlag(text@),
            Note::UnknownArgument(text) => Remark::UnknownArgument(text@),
        }
    }
}

/// What the command line asks for, as contracts see it.
pub struct Asked {
    /// The words of the session command; none if none was given.
    pub session: Seq<Seq<char>>,
    /// The theme file that was named last, if any was.
    pub theme_file: Option<Seq<char>>,
    /// What there is to say of the other arguments, in their order.
    pub notes: Seq<Remark>,
}

/// Whether `arg` starts with two dashes.
pub open spec fn is_flag(arg: Seq<char>) -> bool {
    arg.len() >= 2 && arg[0] == '-' && arg[1] == '-'
}

/// What the arguments from `from` on ask for, given what those before
/// them asked for. `--session` and `--theme-file` each take the argument
/// that follows them as their value; at the end of the line they have none,
/// which is noted. Every other argument is noted as not understood.
pub open spec fn asked_from(args: Seq<Seq<char>>, from: int, so_far: Asked) -> Asked
    decreases args.len() - from,
{
    if from < 0 || from >= args.len() {
        so_far
    } else if args[from] == "--session"@ {
        if from + 1 < args.len() {
            asked_from(args, from + 2, Asked { session: words(args[from + 1]), ..so_far })
        } else {
            Asked { notes: so_far.notes.push(Remark::MissingSession), ..so_far }
        }
    } else if args[from] == "--theme-file"@ {
        if from + 1 < args.len() {
            asked_from(args, from + 2, Asked { theme_file: Some(args[from + 1]), ..so_far })
        } else {
            Asked { notes: so_far.notes.push(Remark::MissingThemeFile), ..so_far }
        }
    } else if is_flag(args[from]) {
        asked_from(
            args,
            from + 1,
            Asked { notes: so_far.notes.push(Remark::UnknownFlag(args[from])), ..so_far },
        )
    } else {
        asked_from(
            args,
            from + 1,
            Asked { notes: so_far.notes.push(Remark::UnknownArgument(args[from])), ..so_far },
        )
    }
}

/// What the command line asks for.
#[derive(Debug)]
pub struct Arguments {
    /// The words of the session command; none if none was given.
    pub session: Vec<String>,
    /// The theme file that was named last, if any was.
    pub theme_file: Option<String>,
    /// What there is to say of the other arguments, in their order.
    pub notes: Vec<Note>,
}

impl View for Arguments {
    type V = Asked;

    open spec fn view(&self) -> Asked {
        Asked {
            session: self.session@.map_values(|word: String| word@),
            theme_file: match self.theme_file {
                Some(path) => Some(path@),
                None => None,
            },
            notes: self.notes@.map_values(|note: Note| note@),
        }
    }
}

/// The strings of the character vectors `words`.
fn strings_of(words: &Vec<Vec<char>>) -> (r: Vec<String>)
    ensures
        r@.len() == words@.len(),
        forall|i: int| 0 <= i < r@.len() ==> (#[trigger] r@[i])@ == words@[i]@,
{
    let mut r: Vec<String> = Vec::new();
    let mut i: usize = 0;
    while i < words.len()
        invariant
            i <= words@.len(),
            r@.len() == i,
            forall|j: int| 0 <= j < r@.len() ==> (#[trigger] r@[j])@ == words@[j]@,
        decreases words@.len() - i,
    {
        r.push(string_of(&words[i]));
        i += 1;
    }
    r
}

/// Reads the command line, the program's name left out, and says what it
/// asks for. Reading the theme file is left to the caller.
pub fn parse_args(args: &Vec<String>) -> (r: Arguments)
    ensures
        r@ == asked_from(
            args@.map_values(|arg: String| arg@),
            0,
            Asked { session: Seq::empty(), theme_file: None, notes: Seq::empty() },
        ),
{
    let ghost line = args@.map_values(|arg: String| arg@);
    let ghost nothing = Asked { session: Seq::empty(), theme_file: None, notes: Seq::empty() };
    let mut r = Arguments { session: Vec::new(), theme_file: None, notes: Vec::new() };
    let mut i: usize = 0;
    proof {
        assert(r@.session =~= nothing.session);
        assert(r@.notes =~= nothing.notes);
    }
    while i < args.len()
        invariant_except_break
            asked_from(line, 0, nothing) == asked_from(line, i as int, r@),
        invariant
            i <= args@.len(),
            line == args@.map_values(|arg: String| arg@),
        ensures
            asked_from(line, 0, nothing) == r@,
        decreases args@.len() - i,
    {
        let ghost before = r@;
        let arg = chars_of(args[i].as_str());
        proof {
            assert(line[i as int] == arg@);
        }
        if spells(&arg, "--session") {
            if i + 1 < args.len() {
                let value = chars_of(args[i + 1].as_str());
                let words = split_words(&value);
                r.session = strings_of(&words);
                proof {
                    assert(line[i + 1] == value@);
                    assert(r@.session =~= crate::parse::words(value@));
                    assert(r@.notes == before.notes);
                }
                i += 2;
            } else {
                r.notes.push(Note::MissingSession);
                proof {
                    assert(r@.notes =~= before.notes.push(Remark::MissingSession));
                    assert(r@.session == before.session);
                }
                break;
            }
        } else if spells(&arg, "--theme-file") {
            if i + 1 < args.len() {
                r.theme_file = Some(args[i + 1].clone());
                proof {
                    assert(r@.session == before.session);
                    assert(r@.notes == before.notes);
                }
                i += 2;
            } else {
                r.notes.push(Note::MissingThemeFile);
                proof {
                    assert(r@.notes =~= before.notes.push(Remark::MissingThemeFile));
                    assert(r@.session == before.session);
                }
                break;
            }
        } else if arg.len() >= 2 && arg[0] == '-' && arg[1] == '-' {
            r.notes.push(Note::UnknownFlag(args[i].clone()));
            proof {
                assert(r@.notes =~= before.notes.push(Remark::UnknownFlag(arg@)));
                assert(r@.session == before.session);
            }
            i += 1;
        } else {
            r.notes.push(Note::UnknownArgument(args[i].clone()));
            proof {
                assert(r@.notes =~= before.notes.push(Remark::UnknownArgument(arg@)));
                assert(r@.session == before.session);
            }
            i += 1;
        }
    }
    r
}

} // verus!
