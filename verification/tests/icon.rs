//! Emoji-icon parsing, exercised with real grapheme segmentation.

use bioimg::icon::EmojiIcon;
use bioimg::icon::Icon;
use bioimg::icon::IconParsingError;

#[test]
fn test_emoji_icon_parsing() {
    // This is "woman" followed by "microscope", which collapses to "female scientist".
    // It might still show up as two glyphs for you if your font doesn't have the
    // "female scientist" glyph or if your editor does different text shaping shenanigans.
    let female_scientist = "\u{1f469}\u{200d}\u{1f52c}";
    let crab = "\u{1f980}";
    let test_str = format!("{female_scientist}{crab}");

    EmojiIcon::from_str(&test_str).expect("This should work as 2 graphemes");
}

#[test]
fn single_emoji_is_accepted() {
    let icon = EmojiIcon::from_str("\u{1f980}").expect("one emoji grapheme");
    assert_eq!(icon.as_text(), "\u{1f980}");
}

#[test]
fn plain_text_is_not_emoji() {
    let r = EmojiIcon::from_str("ab");
    assert!(matches!(r, Err(IconParsingError::NotEmoji(s)) if s == "ab"));
}

#[test]
fn empty_text_is_not_emoji() {
    let r = EmojiIcon::from_str("");
    assert!(matches!(r, Err(IconParsingError::NotEmoji(s)) if s.is_empty()));
}

#[test]
fn three_emoji_are_too_many() {
    let text = "\u{1f980}\u{1f980}\u{1f980}";
    let r = EmojiIcon::from_str(text);
    assert!(matches!(r, Err(IconParsingError::MoreThanTwoGraphemes(s)) if s == text));
}

#[test]
fn icon_wraps_emoji_text() {
    let icon = Icon::parse_emoji("\u{1f980}").expect("emoji icon");
    assert!(matches!(icon, Icon::Emoji(e) if e.as_text() == "\u{1f980}"));
}
