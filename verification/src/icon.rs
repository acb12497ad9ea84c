//! Resource icons: either a reference to an image file or a short piece of
//! emoji text.  Emoji text is accepted when it consists of one or two
//! grapheme clusters, each of which begins with an emoji character.

use vstd::prelude::*;

use crate::rdf::FileDescription;

verus! {

/// Why a text was rejected as an emoji icon.
#[derive(Debug)]
pub enum IconParsingError {
    /// The text is empty or one of its graphemes is not an emoji.
    NotEmoji(String),
    /// The text is made of emoji, but of more than two graphemes.
    MoreThanTwoGraphemes(String),
}

/// Why a text was rejected as an emoji.
#[derive(Debug)]
pub enum EmojiParsingError {
    BadString(String),
}

/// The grapheme clusters of a text, in order.
pub uninterp spec fn grapheme_split(s: Seq<char>) -> Seq<Seq<char>>;

/// Whether a character has the emoji property.
pub uninterp spec fn char_is_emoji(c: char) -> bool;

/// Relies on unic-segment's `Graphemes` cursor: it yields the extended
/// grapheme clusters of the text, in order, each a nonempty substring; the
/// empty text yields none.
#[verifier::external_body]
fn split_graphemes(s: &str) -> (r: Vec<String>)
    ensures
        r@.map_values(|g: String| g@) == grapheme_split(s@),
        forall|i: int| 0 <= i < r@.len() ==> (#[trigger] r@[i])@.len() > 0,
        s@.len() == 0 ==> r@.len() == 0,
{
    let mut out = Vec::new();
    for g in unic::segment::Graphemes::new(s) {
        out.push(g.to_owned());
    }
    out
}

/// Relies on unic-emoji-char's `is_emoji`: whether the character carries
/// the Unicode `Emoji` property; the verdict depends on the character
/// alone.
#[verifier::external_body]
fn emoji_char(c: char) -> (r: bool)
    ensures
        r == char_is_emoji(c),
{
    unic::emoji::char::is_emoji(c)
}

/// A grapheme counts as emoji when it is nonempty and its first character
/// has the emoji property.
pub open spec fn grapheme_is_emoji(g: Seq<char>) -> bool {
    g.len() > 0 && char_is_emoji(g[0])
}

/// A text is valid emoji-icon text when it has one or two graphemes and
/// each of them is an emoji.
pub open spec fn valid_emoji_text(s: Seq<char>) -> bool {
    &&& 1 <= grapheme_split(s).len() <= 2
    &&& forall|i: int| 0 <= i < grapheme_split(s).len() ==> grapheme_is_emoji(
        #[trigger] grapheme_split(s)[i],
    )
}

/// An icon given as emoji text: one or two graphemes, each an emoji.
pub struct EmojiIcon(String);

impl View for EmojiIcon {
    type V = Seq<char>;

    closed spec fn view(&self) -> Seq<char> {
        self.0@
    }
}

impl EmojiIcon {
    /// Parses a text as an emoji icon.  Succeeds exactly on valid
    /// emoji-icon text; a text with no graphemes or a non-emoji grapheme
    /// among its first two is `NotEmoji`, and a text whose first two
    /// graphemes are emoji but which has more is `MoreThanTwoGraphemes`.
    pub fn from_str(value: &str) -> (r: Result<EmojiIcon, IconParsingError>)
        ensures
            r is Ok <==> valid_emoji_text(value@),
            match r {
                Ok(icon) => icon@ == value@,
                Err(e) => match e {
                    IconParsingError::NotEmoji(s) => s@ == value@ && (grapheme_split(value@).len()
                        == 0 || exists|i: int|
                        0 <= i < 2 && i < grapheme_split(value@).len() && !grapheme_is_emoji(
                            #[trigger] grapheme_split(value@)[i],
                        )),
                    IconParsingError::MoreThanTwoGraphemes(s) => s@ == value@ && grapheme_split(
                        value@,
                    ).len() > 2 && grapheme_is_emoji(grapheme_split(value@)[0])
                        && grapheme_is_emoji(grapheme_split(value@)[1]),
                },
            },
    {
        let graphemes = split_graphemes(value);
        let ghost gs = grapheme_split(value@);
        if graphemes.len() == 0 {
            return Err(IconParsingError::NotEmoji(value.to_owned()));
        }
        if !emoji_char(graphemes[0].as_str().get_char(0)) {
            proof {
                assert(gs[0] == graphemes@[0]@);
                assert(!grapheme_is_emoji(gs[0]));
            }
            return Err(IconParsingError::NotEmoji(value.to_owned()));
        }
        if graphemes.len() == 1 {
            proof {
                assert(grapheme_is_emoji(gs[0]));
            }
            return Ok(EmojiIcon(value.to_owned()));
        }
        if !emoji_char(graphemes[1].as_str().get_char(0)) {
            proof {
                assert(gs[1] == graphemes@[1]@);
                assert(!grapheme_is_emoji(gs[1]));
            }
            return Err(IconParsingError::NotEmoji(value.to_owned()));
        }
        if graphemes.len() > 2 {
            proof {
                assert(grapheme_is_emoji(gs[0]));
                assert(grapheme_is_emoji(gs[1]));
            }
            return Err(IconParsingError::MoreThanTwoGraphemes(value.to_owned()));
        }
        proof {
            assert(grapheme_is_emoji(gs[0]));
            assert(grapheme_is_emoji(gs[1]));
        }
        Ok(EmojiIcon(value.to_owned()))
    }

    /// The icon's text.
    pub fn as_text(&self) -> (r: &str)
        ensures
            r@ == self@,
    {
        self.0.as_str()
    }
}

/// An icon for a resource: emoji text or an image file.
pub enum Icon {
    Emoji(EmojiIcon),
    FileRef(FileDescription),
}

impl Icon {
    /// Parses a text as an emoji icon; file icons are built from file
    /// descriptions directly.
    pub fn parse_emoji(value: &str) -> (r: Result<Icon, IconParsingError>)
        ensures
            r is Ok <==> valid_emoji_text(value@),
            match r {
                Ok(icon) => icon matches Icon::Emoji(e) && e@ == value@,
                Err(_) => true,
            },
    {
        match EmojiIcon::from_str(value) {
            Ok(emoji) => Ok(Icon::Emoji(emoji)),
            Err(e) => Err(e),
        }
    }
}

} // verus!
