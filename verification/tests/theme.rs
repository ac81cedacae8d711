use newbbs::ui::style::Color;
use newbbs::ui::theme::{dark, light, to_16, to_256, unpack, Depth, Theme};

#[test]
fn depths_are_guessed() {
    assert_eq!(Depth::detect("truecolor", "xterm"), Depth::Truecolor);
    assert_eq!(Depth::detect("24bit", ""), Depth::Truecolor);
    assert_eq!(Depth::detect("", "xterm-256color"), Depth::Ansi256);
    assert_eq!(Depth::for_term("xterm-direct"), Depth::Ansi256);
    assert_eq!(Depth::for_term("vt100"), Depth::Ansi16);
}

#[test]
fn colours_degrade() {
    assert_eq!(unpack(0x61afef), (0x61, 0xaf, 0xef));
    assert_eq!(Theme::new(Depth::Truecolor).color(0x61afef), Color::Rgb(0x61, 0xaf, 0xef));
    assert_eq!(to_256(0xff, 0, 0), 196);
    assert_eq!(to_256(0, 0, 0), 16);
    assert_eq!(to_256(0xff, 0xff, 0xff), 231);
    // The ramp runs from 232 to 255, and its last entry is the grey 238.
    assert_eq!(to_256(8, 8, 8), 232);
    assert_eq!(to_256(237, 237, 237), 255);
    assert_eq!(to_256(238, 238, 238), 255);
    assert_eq!(to_256(234, 238, 243), 255);
    assert_eq!(to_256(239, 239, 239), 231);
    assert_eq!(to_16(0, 0, 0), 0);
    assert_eq!(to_16(0xff, 0xff, 0xff), 15);
    assert_eq!(Theme::for_term("xterm-256color").color(0xff0000), Color::Indexed(196));
}

#[test]
fn themes_are_set_by_name() {
    let mut theme = Theme::new(Depth::Truecolor);
    assert_eq!(theme.palette, dark());
    assert!(theme.set("light"));
    assert_eq!((theme.name.as_str(), theme.palette), ("light", light()));
    assert!(!theme.set("pink"));
    assert_eq!(theme.name, "light");
    assert!(theme.set("mono"));
    assert_eq!(theme.color(0xff0000), Color::Reset);
    for name in Theme::names() {
        assert!(theme.set(name));
    }
}
