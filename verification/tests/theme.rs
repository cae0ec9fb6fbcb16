use ndlm::color::Color;
use ndlm::parse::ParseError;
use ndlm::theme::{parse_args, Config, Module, Note, Theme};

fn args(list: &[&str]) -> Vec<String> {
    list.iter().map(|a| a.to_string()).collect()
}

#[test]
fn a_new_module_has_the_defaults() {
    for m in [Module::new(), Module::default()] {
        assert_eq!(m.font.size(), 72);
        assert_eq!(m.title_font.size(), 72);
        assert_eq!(m.image_dir, "");
        assert_eq!(m.dialog_horizontal_alignment, "");
        assert_eq!(m.vertical_alignment, "");
        assert_eq!(m.background_start_color, Color(0, 0, 0));
        assert_eq!(m.background_end_color, Color(0, 0, 0));
    }
}

#[test]
fn module_parse_reads_every_key() {
    let text = "[Module]\n\
        Font=DejaVu Sans Mono 14\n\
        TitleFont=Roboto 28\n\
        ImageDir=/usr/share/images\n\
        DialogHorizontalAlignment=.5\n\
        DialogVerticalAlignment=.25\n\
        TitleHorizontalAlignment=.1\n\
        TitleVerticalAlignment=.2\n\
        HorizontalAlignment=.3\n\
        VerticalAlignment=.4\n\
        WatermarkHorizontalAlignment=.6\n\
        WatermarkVerticalAlignment=.7\n\
        BackgroundStartColor=#102030\n\
        BackgroundEndColor=gray\n\
        Unknown=value\n\
        no pair here\n";
    let m = Module::parse(text).unwrap();
    assert_eq!(m.font.size(), 14);
    assert_eq!(m.title_font.size(), 28);
    assert_eq!(m.image_dir, "/usr/share/images");
    assert_eq!(m.dialog_horizontal_alignment, ".5");
    assert_eq!(m.dialog_vertical_alignment, ".25");
    assert_eq!(m.title_horizontal_alignment, ".1");
    assert_eq!(m.title_vertical_alignment, ".2");
    assert_eq!(m.horizontal_alignment, ".3");
    assert_eq!(m.vertical_alignment, ".4");
    assert_eq!(m.watermark_horizontal_alignment, ".6");
    assert_eq!(m.watermark_vertical_alignment, ".7");
    assert_eq!(m.background_start_color, Color(0x10, 0x20, 0x30));
    assert_eq!(m.background_end_color, Color(128, 128, 128));
    assert!(!m.font.is_cached('a'));
}

#[test]
fn module_parse_of_nothing_is_the_default() {
    for text in ["", "\n\n", "just words\nmore words", "Unknown=1"] {
        let m = Module::parse(text).unwrap();
        assert_eq!(m.font.size(), 72);
        assert_eq!(m.image_dir, "");
        assert_eq!(m.background_start_color, Color(0, 0, 0));
    }
}

#[test]
fn an_alignment_that_starts_without_a_point_counts_as_none() {
    let m = Module::parse("DialogHorizontalAlignment=0.5\nVerticalAlignment=1\nHorizontalAlignment=\nTitleVerticalAlignment=.75").unwrap();
    assert_eq!(m.dialog_horizontal_alignment, "");
    assert_eq!(m.vertical_alignment, "");
    assert_eq!(m.horizontal_alignment, "");
    assert_eq!(m.title_vertical_alignment, ".75");
}

#[test]
fn a_later_line_replaces_an_earlier_one_and_a_second_equals_sign_ends_the_value() {
    let m = Module::parse("Font=a 10\r\nFont=b 12=ignored\r\nImageDir=x=y\r\nImageDir=\r\n").unwrap();
    assert_eq!(m.font.size(), 12);
    assert_eq!(m.image_dir, "");
    let keyed = Module::parse(" Font=a 10\nFont =a 11\nfont=a 12").unwrap();
    assert_eq!(keyed.font.size(), 72);
}

#[test]
fn module_parse_refuses_malformed_values() {
    assert!(matches!(Module::parse("Font=Mono"), Err(ParseError::FontSize)));
    assert!(matches!(Module::parse("TitleFont=Mono 1.5"), Err(ParseError::FontSize)));
    assert!(matches!(Module::parse("Font="), Err(ParseError::FontSize)));
    assert!(matches!(Module::parse("BackgroundStartColor=#12"), Err(ParseError::Color)));
    assert!(matches!(Module::parse("BackgroundEndColor=blue"), Err(ParseError::Color)));
    assert!(matches!(
        Module::parse("Font=Mono 12\nBackgroundEndColor=\nFont=oops"),
        Err(ParseError::Color)
    ));
    assert!(matches!(
        Module::parse("Font=oops\nBackgroundEndColor=oops"),
        Err(ParseError::FontSize)
    ));
    assert!(matches!("Font=oops".parse::<Module>(), Err(ParseError::FontSize)));
}

#[test]
fn module_set_keeps_the_module_when_it_refuses() {
    let mut m = Module::parse("Font=a 10\nBackgroundStartColor=red").unwrap();
    let key: Vec<char> = "Font".chars().collect();
    let bad: Vec<char> = "nothing".chars().collect();
    assert_eq!(m.set(&key, &bad), Err(ParseError::FontSize));
    assert_eq!(m.font.size(), 10);
    let colour: Vec<char> = "BackgroundStartColor".chars().collect();
    assert_eq!(m.set(&colour, &bad), Err(ParseError::Color));
    assert_eq!(m.background_start_color, Color(255, 0, 0));
    let good: Vec<char> = "x 9".chars().collect();
    assert_eq!(m.set(&key, &good), Ok(()));
    assert_eq!(m.font.size(), 9);
    let other: Vec<char> = "Other".chars().collect();
    assert_eq!(m.set(&other, &bad), Ok(()));
}

#[test]
fn theme_parse_reads_name_description_and_module() {
    let text = "Name=Night\nDescription=A dark theme\nModuleName=ndlm\nFont=Mono 20\nBackgroundStartColor=#000010\n";
    let theme = Theme::parse(text).unwrap();
    assert_eq!(theme.name, "Night");
    assert_eq!(theme.description, Some("A dark theme".to_string()));
    assert_eq!(theme.module.font.size(), 20);
    assert_eq!(theme.module.background_start_color, Color(0, 0, 0x10));
    let same: Theme = text.parse().unwrap();
    assert_eq!(same.name, "Night");
}

#[test]
fn a_theme_without_a_module_name_keeps_the_default_look() {
    let theme = Theme::parse("Name=Plain\nFont=Mono 20\nBackgroundStartColor=oops").unwrap();
    assert_eq!(theme.name, "Plain");
    assert_eq!(theme.description, None);
    assert_eq!(theme.module.font.size(), 72);
    for t in [Theme::new(), Theme::default(), Theme::parse("").unwrap()] {
        assert_eq!(t.name, "");
        assert_eq!(t.description, None);
        assert_eq!(t.module.font.size(), 72);
    }
}

#[test]
fn theme_parse_refuses_a_module_with_a_malformed_value() {
    assert!(matches!(
        Theme::parse("Name=x\nModuleName=m\nFont=Mono"),
        Err(ParseError::FontSize)
    ));
    assert!(matches!(
        Theme::parse("BackgroundEndColor=nope\nModuleName=m"),
        Err(ParseError::Color)
    ));
}

#[test]
fn a_default_config_has_no_session() {
    let config = Config::default();
    assert!(config.session.is_empty());
    assert_eq!(config.theme.name, "");
    assert_eq!(config.theme.module.font.size(), 72);
}

#[test]
fn parse_args_reads_the_session_and_the_theme_file() {
    let r = parse_args(&args(&["--session", "sway --debug", "--theme-file", "/etc/theme"]));
    assert_eq!(r.session, vec!["sway", "--debug"]);
    assert_eq!(r.theme_file, Some("/etc/theme".to_string()));
    assert!(r.notes.is_empty());
    let none = parse_args(&Vec::new());
    assert!(none.session.is_empty());
    assert_eq!(none.theme_file, None);
    assert!(none.notes.is_empty());
}

#[test]
fn parse_args_takes_the_last_of_each_and_any_value() {
    let r = parse_args(&args(&[
        "--session", "a", "--theme-file", "one", "--session", "--theme-file", "--theme-file", "two",
    ]));
    assert_eq!(r.session, vec!["--theme-file"]);
    assert_eq!(r.theme_file, Some("two".to_string()));
    assert!(r.notes.is_empty());
    let spaced = parse_args(&args(&["--session", " a  b"]));
    assert_eq!(spaced.session, vec!["", "a", "", "b"]);
    let empty = parse_args(&args(&["--session", ""]));
    assert_eq!(empty.session, vec![""]);
}

#[test]
fn parse_args_notes_what_it_does_not_understand() {
    let r = parse_args(&args(&["--verbose", "file", "-v", "--", "--session"]));
    assert!(r.session.is_empty());
    assert_eq!(r.theme_file, None);
    assert_eq!(r.notes.len(), 5);
    assert!(matches!(&r.notes[0], Note::UnknownFlag(f) if f == "--verbose"));
    assert!(matches!(&r.notes[1], Note::UnknownArgument(a) if a == "file"));
    assert!(matches!(&r.notes[2], Note::UnknownArgument(a) if a == "-v"));
    assert!(matches!(&r.notes[3], Note::UnknownFlag(f) if f == "--"));
    assert!(matches!(&r.notes[4], Note::MissingSession));
    let t = parse_args(&args(&["--session", "x", "--theme-file"]));
    assert_eq!(t.session, vec!["x"]);
    assert_eq!(t.notes.len(), 1);
    assert!(matches!(&t.notes[0], Note::MissingThemeFile));
}

#[test]
fn clones_keep_every_field() {
    let text = "Name=Night\nDescription=Dark\nModuleName=m\nFont=Mono 20\nTitleFont=Mono 30\nImageDir=/img\nVerticalAlignment=.5\nBackgroundEndColor=red\n";
    let theme = Theme::parse(text).unwrap();
    let copy = theme.clone();
    assert_eq!(copy.name, "Night");
    assert_eq!(copy.description, Some("Dark".to_string()));
    assert_eq!(copy.module.font.size(), 20);
    assert_eq!(copy.module.title_font.size(), 30);
    assert_eq!(copy.module.image_dir, "/img");
    assert_eq!(copy.module.vertical_alignment, ".5");
    assert_eq!(copy.module.dialog_vertical_alignment, "");
    assert_eq!(copy.module.background_end_color, Color(255, 0, 0));
    let module = theme.module.clone();
    assert_eq!(module.font.size(), 20);
    let config = Config { session: vec!["sway".to_string(), "-d".to_string()], theme };
    let again = config.clone();
    assert_eq!(again.session, vec!["sway", "-d"]);
    assert_eq!(again.theme.name, "Night");
    assert_eq!(Theme::new().clone().description, None);
}
