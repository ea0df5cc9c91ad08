//! Terminal attributes and colours, their SGR codes, and the escape sequences
//! that switch a colour on and off.

use vstd::prelude::*;

use crate::text::{decimal, is_name, matches_name, push_decimal, string_of};

verus! {

/// A text attribute that a colour specification can carry.
#[derive(Debug, Clone, Copy, PartialEq, Eq, Hash, Structural)]
pub enum CgrcAttrib {
    /// Marks a capture group that never overrides the colour already given.
    CgrcNone,
    CgrcReset,
    CgrcBright,
    CgrcDim,
    CgrcItalic,
    CgrcUnderline,
    CgrcBlink,
    CgrcRapidBlink,
    CgrcReverse,
    CgrcHidden,
    CgrcStrikethrough,
}

/// The SGR code that removes an attribute again.
#[derive(Debug, Clone, Copy, PartialEq, Eq, Hash, Structural)]
pub enum CgrcResetAttrib {
    CgrcResetNone,
    CgrcResetBright,
    CgrcResetDim,
    CgrcResetItalic,
    CgrcResetUnderline,
    CgrcResetBlink,
    CgrcResetRapidBlink,
    CgrcResetReverse,
    CgrcResetHidden,
    CgrcResetStrikethrough,
}

impl CgrcAttrib {
    /// The SGR parameter of the attribute. The marker `CgrcNone` has the
    /// code -1, which is written as its byte value 255.
    pub open spec fn spec_code(self) -> u8 {
        match self {
            CgrcAttrib::CgrcNone => 255,
            CgrcAttrib::CgrcReset => 0,
            CgrcAttrib::CgrcBright => 1,
            CgrcAttrib::CgrcDim => 2,
            CgrcAttrib::CgrcItalic => 3,
            CgrcAttrib::CgrcUnderline => 4,
            CgrcAttrib::CgrcBlink => 5,
            CgrcAttrib::CgrcRapidBlink => 6,
            CgrcAttrib::CgrcReverse => 7,
            CgrcAttrib::CgrcHidden => 8,
            CgrcAttrib::CgrcStrikethrough => 9,
        }
    }

    pub fn code(&self) -> (r: u8)
        ensures
            r == self.spec_code(),
    {
        match self {
            CgrcAttrib::CgrcNone => 255,
            CgrcAttrib::CgrcReset => 0,
            CgrcAttrib::CgrcBright => 1,
            CgrcAttrib::CgrcDim => 2,
            CgrcAttrib::CgrcItalic => 3,
            CgrcAttrib::CgrcUnderline => 4,
            CgrcAttrib::CgrcBlink => 5,
            CgrcAttrib::CgrcRapidBlink => 6,
            CgrcAttrib::CgrcReverse => 7,
            CgrcAttrib::CgrcHidden => 8,
            CgrcAttrib::CgrcStrikethrough => 9,
        }
    }
}

impl CgrcResetAttrib {
    pub open spec fn spec_code(self) -> u8 {
        match self {
            CgrcResetAttrib::CgrcResetNone => 0,
            CgrcResetAttrib::CgrcResetBright => 21,
            CgrcResetAttrib::CgrcResetDim => 22,
            CgrcResetAttrib::CgrcResetItalic => 23,
            CgrcResetAttrib::CgrcResetUnderline => 24,
            CgrcResetAttrib::CgrcResetBlink => 25,
            CgrcResetAttrib::CgrcResetRapidBlink => 26,
            CgrcResetAttrib::CgrcResetReverse => 27,
            CgrcResetAttrib::CgrcResetHidden => 28,
            CgrcResetAttrib::CgrcResetStrikethrough => 29,
        }
    }

    pub fn code(&self) -> (r: u8)
        ensures
            r == self.spec_code(),
    {
        match self {
            CgrcResetAttrib::CgrcResetNone => 0,
            CgrcResetAttrib::CgrcResetBright => 21,
            CgrcResetAttrib::CgrcResetDim => 22,
            CgrcResetAttrib::CgrcResetItalic => 23,
            CgrcResetAttrib::CgrcResetUnderline => 24,
            CgrcResetAttrib::CgrcResetBlink => 25,
            CgrcResetAttrib::CgrcResetRapidBlink => 26,
            CgrcResetAttrib::CgrcResetReverse => 27,
            CgrcResetAttrib::CgrcResetHidden => 28,
            CgrcResetAttrib::CgrcResetStrikethrough => 29,
        }
    }
}

/// Which code switches an attribute off. Hidden and strikethrough text share
/// the code 28; `none` and `default` need no reset.
pub open spec fn attr_clear(attr: CgrcAttrib) -> CgrcResetAttrib {
    match attr {
        CgrcAttrib::CgrcNone => CgrcResetAttrib::CgrcResetNone,
        CgrcAttrib::CgrcReset => CgrcResetAttrib::CgrcResetNone,
        CgrcAttrib::CgrcBright => CgrcResetAttrib::CgrcResetBright,
        CgrcAttrib::CgrcDim => CgrcResetAttrib::CgrcResetDim,
        CgrcAttrib::CgrcItalic => CgrcResetAttrib::CgrcResetItalic,
        CgrcAttrib::CgrcUnderline => CgrcResetAttrib::CgrcResetUnderline,
        CgrcAttrib::CgrcBlink => CgrcResetAttrib::CgrcResetBlink,
        CgrcAttrib::CgrcRapidBlink => CgrcResetAttrib::CgrcResetRapidBlink,
        CgrcAttrib::CgrcReverse => CgrcResetAttrib::CgrcResetReverse,
        CgrcAttrib::CgrcHidden => CgrcResetAttrib::CgrcResetHidden,
        CgrcAttrib::CgrcStrikethrough => CgrcResetAttrib::CgrcResetHidden,
    }
}

pub fn colors_attr_clear(attr: &CgrcAttrib) -> (r: CgrcResetAttrib)
    ensures
        r == attr_clear(*attr),
{
    match attr {
        CgrcAttrib::CgrcBright => CgrcResetAttrib::CgrcResetBright,
        CgrcAttrib::CgrcNone => CgrcResetAttrib::CgrcResetNone,
        CgrcAttrib::CgrcReset => CgrcResetAttrib::CgrcResetNone,
        CgrcAttrib::CgrcDim => CgrcResetAttrib::CgrcResetDim,
        CgrcAttrib::CgrcItalic => CgrcResetAttrib::CgrcResetItalic,
        CgrcAttrib::CgrcUnderline => CgrcResetAttrib::CgrcResetUnderline,
        CgrcAttrib::CgrcBlink => CgrcResetAttrib::CgrcResetBlink,
        CgrcAttrib::CgrcRapidBlink => CgrcResetAttrib::CgrcResetRapidBlink,
        CgrcAttrib::CgrcReverse => CgrcResetAttrib::CgrcResetReverse,
        CgrcAttrib::CgrcHidden => CgrcResetAttrib::CgrcResetHidden,
        CgrcAttrib::CgrcStrikethrough => CgrcResetAttrib::CgrcResetHidden,
    }
}

/// A background colour.
#[derive(Debug, Clone, Copy, PartialEq, Eq, Hash, Structural)]
pub enum LcBackColor {
    LcBackColBlack,
    LcBackColRed,
    LcBackColGreen,
    LcBackColYellow,
    LcBackColBlue,
    LcBackColMagenta,
    LcBackColCyan,
    LcBackColWhite,
    LcBackBrightColBlack,
    LcBackBrightColRed,
    LcBackBrightColGreen,
    LcBackBrightColYellow,
    LcBackBrightColBlue,
    LcBackBrightColMagenta,
    LcBackBrightColCyan,
    LcBackBrightColWhite,
    LcBackColDefault,
}

impl LcBackColor {
    pub open spec fn spec_code(self) -> u8 {
        match self {
            LcBackColor::LcBackColBlack => 40,
            LcBackColor::LcBackColRed => 41,
            LcBackColor::LcBackColGreen => 42,
            LcBackColor::LcBackColYellow => 43,
            LcBackColor::LcBackColBlue => 44,
            LcBackColor::LcBackColMagenta => 45,
            LcBackColor::LcBackColCyan => 46,
            LcBackColor::LcBackColWhite => 47,
            LcBackColor::LcBackBrightColBlack => 100,
            LcBackColor::LcBackBrightColRed => 101,
            LcBackColor::LcBackBrightColGreen => 102,
            LcBackColor::LcBackBrightColYellow => 103,
            LcBackColor::LcBackBrightColBlue => 104,
            LcBackColor::LcBackBrightColMagenta => 105,
            LcBackColor::LcBackBrightColCyan => 106,
            LcBackColor::LcBackBrightColWhite => 107,
            LcBackColor::LcBackColDefault => 49,
        }
    }

    pub fn code(&self) -> (r: u8)
        ensures
            r == self.spec_code(),
    {
        match self {
            LcBackColor::LcBackColBlack => 40,
            LcBackColor::LcBackColRed => 41,
            LcBackColor::LcBackColGreen => 42,
            LcBackColor::LcBackColYellow => 43,
            LcBackColor::LcBackColBlue => 44,
            LcBackColor::LcBackColMagenta => 45,
            LcBackColor::LcBackColCyan => 46,
            LcBackColor::LcBackColWhite => 47,
            LcBackColor::LcBackBrightColBlack => 100,
            LcBackColor::LcBackBrightColRed => 101,
            LcBackColor::LcBackBrightColGreen => 102,
            LcBackColor::LcBackBrightColYellow => 103,
            LcBackColor::LcBackBrightColBlue => 104,
            LcBackColor::LcBackBrightColMagenta => 105,
            LcBackColor::LcBackBrightColCyan => 106,
            LcBackColor::LcBackBrightColWhite => 107,
            LcBackColor::LcBackColDefault => 49,
        }
    }
}

/// A foreground colour.
#[derive(Debug, Clone, Copy, PartialEq, Eq, Hash, Structural)]
pub enum LcLogColor {
    LcForgColBlack,
    LcForgColRed,
    LcForgColGreen,
    LcForgColYellow,
    LcForgColBlue,
    LcForgColMagenta,
    LcForgColCyan,
    LcForgColWhite,
    LcForgBrightColBlack,
    LcForgBrightColRed,
    LcForgBrightColGreen,
    LcForgBrightColYellow,
    LcForgBrightColBlue,
    LcForgBrightColMagenta,
    LcForgBrightColCyan,
    LcForgBrightColWhite,
    LcForgColDefault,
}

impl LcLogColor {
    pub open spec fn spec_code(self) -> u8 {
        match self {
            LcLogColor::LcForgColBlack => 30,
            LcLogColor::LcForgColRed => 31,
            LcLogColor::LcForgColGreen => 32,
            LcLogColor::LcForgColYellow => 33,
            LcLogColor::LcForgColBlue => 34,
            LcLogColor::LcForgColMagenta => 35,
            LcLogColor::LcForgColCyan => 36,
            LcLogColor::LcForgColWhite => 37,
            LcLogColor::LcForgBrightColBlack => 90,
            LcLogColor::LcForgBrightColRed => 91,
            LcLogColor::LcForgBrightColGreen => 92,
            LcLogColor::LcForgBrightColYellow => 93,
            LcLogColor::LcForgBrightColBlue => 94,
            LcLogColor::LcForgBrightColMagenta => 95,
            LcLogColor::LcForgBrightColCyan => 96,
            LcLogColor::LcForgBrightColWhite => 97,
            LcLogColor::LcForgColDefault => 39,
        }
    }

    pub fn code(&self) -> (r: u8)
        ensures
            r == self.spec_code(),
    {
        match self {
            LcLogColor::LcForgColBlack => 30,
            LcLogColor::LcForgColRed => 31,
            LcLogColor::LcForgColGreen => 32,
            LcLogColor::LcForgColYellow => 33,
            LcLogColor::LcForgColBlue => 34,
            LcLogColor::LcForgColMagenta => 35,
            LcLogColor::LcForgColCyan => 36,
            LcLogColor::LcForgColWhite => 37,
            LcLogColor::LcForgBrightColBlack => 90,
            LcLogColor::LcForgBrightColRed => 91,
            LcLogColor::LcForgBrightColGreen => 92,
            LcLogColor::LcForgBrightColYellow => 93,
            LcLogColor::LcForgBrightColBlue => 94,
            LcLogColor::LcForgBrightColMagenta => 95,
            LcLogColor::LcForgBrightColCyan => 96,
            LcLogColor::LcForgBrightColWhite => 97,
            LcLogColor::LcForgColDefault => 39,
        }
    }
}

/// The attribute that a colour token names, ignoring ASCII case.
pub open spec fn attr_named(token: Seq<char>) -> Option<CgrcAttrib> {
    if matches_name(token, "none"@) {
        Some(CgrcAttrib::CgrcNone)
    } else if matches_name(token, "unchanged"@) {
        Some(CgrcAttrib::CgrcNone)
    } else if matches_name(token, "default"@) {
        Some(CgrcAttrib::CgrcReset)
    } else if matches_name(token, "bold"@) {
        Some(CgrcAttrib::CgrcBright)
    } else if matches_name(token, "underline"@) {
        Some(CgrcAttrib::CgrcUnderline)
    } else if matches_name(token, "blink"@) {
        Some(CgrcAttrib::CgrcBlink)
    } else if matches_name(token, "reverse"@) {
        Some(CgrcAttrib::CgrcReverse)
    } else if matches_name(token, "concealed"@) {
        Some(CgrcAttrib::CgrcHidden)
    } else if matches_name(token, "dark"@) {
        Some(CgrcAttrib::CgrcDim)
    } else if matches_name(token, "italic"@) {
        Some(CgrcAttrib::CgrcItalic)
    } else if matches_name(token, "rapidblink"@) {
        Some(CgrcAttrib::CgrcRapidBlink)
    } else if matches_name(token, "strikethrough"@) {
        Some(CgrcAttrib::CgrcStrikethrough)
    } else {
        None
    }
}

pub fn attr_by_name(token: &[char]) -> (r: Option<CgrcAttrib>)
    ensures
        r == attr_named(token@),
{
    if is_name(token, "none") {
        Some(CgrcAttrib::CgrcNone)
    } else if is_name(token, "unchanged") {
        Some(CgrcAttrib::CgrcNone)
    } else if is_name(token, "default") {
        Some(CgrcAttrib::CgrcReset)
    } else if is_name(token, "bold") {
        Some(CgrcAttrib::CgrcBright)
    } else if is_name(token, "underline") {
        Some(CgrcAttrib::CgrcUnderline)
    } else if is_name(token, "blink") {
        Some(CgrcAttrib::CgrcBlink)
    } else if is_name(token, "reverse") {
        Some(CgrcAttrib::CgrcReverse)
    } else if is_name(token, "concealed") {
        Some(CgrcAttrib::CgrcHidden)
    } else if is_name(token, "dark") {
        Some(CgrcAttrib::CgrcDim)
    } else if is_name(token, "italic") {
        Some(CgrcAttrib::CgrcItalic)
    } else if is_name(token, "rapidblink") {
        Some(CgrcAttrib::CgrcRapidBlink)
    } else if is_name(token, "strikethrough") {
        Some(CgrcAttrib::CgrcStrikethrough)
    } else {
        None
    }
}

/// The background colour that a colour token names, ignoring ASCII case.
pub open spec fn back_named(token: Seq<char>) -> Option<LcBackColor> {
    if matches_name(token, "on_black"@) {
        Some(LcBackColor::LcBackColBlack)
    } else if matches_name(token, "on_red"@) {
        Some(LcBackColor::LcBackColRed)
    } else if matches_name(token, "on_green"@) {
        Some(LcBackColor::LcBackColGreen)
    } else if matches_name(token, "on_yellow"@) {
        Some(LcBackColor::LcBackColYellow)
    } else if matches_name(token, "on_blue"@) {
        Some(LcBackColor::LcBackColBlue)
    } else if matches_name(token, "on_magenta"@) {
        Some(LcBackColor::LcBackColMagenta)
    } else if matches_name(token, "on_cyan"@) {
        Some(LcBackColor::LcBackColCyan)
    } else if matches_name(token, "on_white"@) {
        Some(LcBackColor::LcBackColWhite)
    } else if matches_name(token, "on_bright_black"@) {
        Some(LcBackColor::LcBackBrightColBlack)
    } else if matches_name(token, "on_bright_red"@) {
        Some(LcBackColor::LcBackBrightColRed)
    } else if matches_name(token, "on_bright_green"@) {
        Some(LcBackColor::LcBackBrightColGreen)
    } else if matches_name(token, "on_bright_yellow"@) {
        Some(LcBackColor::LcBackBrightColYellow)
    } else if matches_name(token, "on_bright_blue"@) {
        Some(LcBackColor::LcBackBrightColBlue)
    } else if matches_name(token, "on_bright_magenta"@) {
        Some(LcBackColor::LcBackBrightColMagenta)
    } else if matches_name(token, "on_bright_cyan"@) {
        Some(LcBackColor::LcBackBrightColCyan)
    } else if matches_name(token, "on_bright_white"@) {
        Some(LcBackColor::LcBackBrightColWhite)
    } else {
        None
    }
}

pub fn back_by_name(token: &[char]) -> (r: Option<LcBackColor>)
    ensures
        r == back_named(token@),
{
    if is_name(token, "on_black") {
        Some(LcBackColor::LcBackColBlack)
    } else if is_name(token, "on_red") {
        Some(LcBackColor::LcBackColRed)
    } else if is_name(token, "on_green") {
        Some(LcBackColor::LcBackColGreen)
    } else if is_name(token, "on_yellow") {
        Some(LcBackColor::LcBackColYellow)
    } else if is_name(token, "on_blue") {
        Some(LcBackColor::LcBackColBlue)
    } else if is_name(token, "on_magenta") {
        Some(LcBackColor::LcBackColMagenta)
    } else if is_name(token, "on_cyan") {
        Some(LcBackColor::LcBackColCyan)
    } else if is_name(token, "on_white") {
        Some(LcBackColor::LcBackColWhite)
    } else if is_name(token, "on_bright_black") {
        Some(LcBackColor::LcBackBrightColBlack)
    } else if is_name(token, "on_bright_red") {
        Some(LcBackColor::LcBackBrightColRed)
    } else if is_name(token, "on_bright_green") {
        Some(LcBackColor::LcBackBrightColGreen)
    } else if is_name(token, "on_bright_yellow") {
        Some(LcBackColor::LcBackBrightColYellow)
    } else if is_name(token, "on_bright_blue") {
        Some(LcBackColor::LcBackBrightColBlue)
    } else if is_name(token, "on_bright_magenta") {
        Some(LcBackColor::LcBackBrightColMagenta)
    } else if is_name(token, "on_bright_cyan") {
        Some(LcBackColor::LcBackBrightColCyan)
    } else if is_name(token, "on_bright_white") {
        Some(LcBackColor::LcBackBrightColWhite)
    } else {
        None
    }
}

/// The foreground colour that a colour token names, ignoring ASCII case.
pub open spec fn forg_named(token: Seq<char>) -> Option<LcLogColor> {
    if matches_name(token, "black"@) {
        Some(LcLogColor::LcForgColBlack)
    } else if matches_name(token, "red"@) {
        Some(LcLogColor::LcForgColRed)
    } else if matches_name(token, "green"@) {
        Some(LcLogColor::LcForgColGreen)
    } else if matches_name(token, "yellow"@) {
        Some(LcLogColor::LcForgColYellow)
    } else if matches_name(token, "blue"@) {
        Some(LcLogColor::LcForgColBlue)
    } else if matches_name(token, "magenta"@) {
        Some(LcLogColor::LcForgColMagenta)
    } else if matches_name(token, "cyan"@) {
        Some(LcLogColor::LcForgColCyan)
    } else if matches_name(token, "white"@) {
        Some(LcLogColor::LcForgColWhite)
    } else if matches_name(token, "bright_black"@) {
        Some(LcLogColor::LcForgBrightColBlack)
    } else if matches_name(token, "bright_red"@) {
        Some(LcLogColor::LcForgBrightColRed)
    } else if matches_name(token, "bright_green"@) {
        Some(LcLogColor::LcForgBrightColGreen)
    } else if matches_name(token, "bright_yellow"@) {
        Some(LcLogColor::LcForgBrightColYellow)
    } else if matches_name(token, "bright_blue"@) {
        Some(LcLogColor::LcForgBrightColBlue)
    } else if matches_name(token, "bright_magenta"@) {
        Some(LcLogColor::LcForgBrightColMagenta)
    } else if matches_name(token, "bright_cyan"@) {
        Some(LcLogColor::LcForgBrightColCyan)
    } else if matches_name(token, "bright_white"@) {
        Some(LcLogColor::LcForgBrightColWhite)
    } else {
        None
    }
}

pub fn forg_by_name(token: &[char]) -> (r: Option<LcLogColor>)
    ensures
        r == forg_named(token@),
{
    if is_name(token, "black") {
        Some(LcLogColor::LcForgColBlack)
    } else if is_name(token, "red") {
        Some(LcLogColor::LcForgColRed)
    } else if is_name(token, "green") {
        Some(LcLogColor::LcForgColGreen)
    } else if is_name(token, "yellow") {
        Some(LcLogColor::LcForgColYellow)
    } else if is_name(token, "blue") {
        Some(LcLogColor::LcForgColBlue)
    } else if is_name(token, "magenta") {
        Some(LcLogColor::LcForgColMagenta)
    } else if is_name(token, "cyan") {
        Some(LcLogColor::LcForgColCyan)
    } else if is_name(token, "white") {
        Some(LcLogColor::LcForgColWhite)
    } else if is_name(token, "bright_black") {
        Some(LcLogColor::LcForgBrightColBlack)
    } else if is_name(token, "bright_red") {
        Some(LcLogColor::LcForgBrightColRed)
    } else if is_name(token, "bright_green") {
        Some(LcLogColor::LcForgBrightColGreen)
    } else if is_name(token, "bright_yellow") {
        Some(LcLogColor::LcForgBrightColYellow)
    } else if is_name(token, "bright_blue") {
        Some(LcLogColor::LcForgBrightColBlue)
    } else if is_name(token, "bright_magenta") {
        Some(LcLogColor::LcForgBrightColMagenta)
    } else if is_name(token, "bright_cyan") {
        Some(LcLogColor::LcForgBrightColCyan)
    } else if is_name(token, "bright_white") {
        Some(LcLogColor::LcForgBrightColWhite)
    } else {
        None
    }
}


/// The SGR parameters of the attributes, each after a `;`.
pub open spec fn attr_params(attrs: Seq<CgrcAttrib>) -> Seq<char>
    decreases attrs.len(),
{
    if attrs.len() == 0 {
        seq![]
    } else {
        attr_params(attrs.drop_last()) + seq![';'] + decimal(attrs.last().spec_code() as nat)
    }
}

/// The SGR parameters that reset the attributes, each after a `;`.
pub open spec fn reset_params(attrs: Seq<CgrcAttrib>) -> Seq<char>
    decreases attrs.len(),
{
    if attrs.len() == 0 {
        seq![]
    } else {
        reset_params(attrs.drop_last()) + seq![';'] + decimal(
            attr_clear(attrs.last()).spec_code() as nat,
        )
    }
}

/// `ESC [ fg ; bg ; attr ... m`: switches the colour on.
pub open spec fn escape_seq_of(attrs: Seq<CgrcAttrib>, forg: LcLogColor, back: LcBackColor) -> Seq<
    char,
> {
    seq!['\x1b', '['] + decimal(forg.spec_code() as nat) + seq![';'] + decimal(
        back.spec_code() as nat,
    ) + attr_params(attrs) + seq!['m']
}

/// `ESC [ 39 ; 49 ; reset ... m`: back to the default colours, each
/// attribute switched off again.
pub open spec fn clear_seq_of(attrs: Seq<CgrcAttrib>) -> Seq<char> {
    seq!['\x1b', '['] + decimal(39) + seq![';'] + decimal(49) + reset_params(attrs) + seq!['m']
}

/// The colour of a capture group: its attributes, its foreground and
/// background, and the two escape sequences built from them.
#[derive(Debug)]
pub struct CgrcColorItem {
    pub attrs: Vec<CgrcAttrib>,
    pub forg: LcLogColor,
    pub back: LcBackColor,
    pub escape_seq: String,
    pub clear_seq: String,
}

/// What a colour item holds, as mathematical values.
pub struct ColorView {
    pub attrs: Seq<CgrcAttrib>,
    pub forg: LcLogColor,
    pub back: LcBackColor,
    pub escape_seq: Seq<char>,
    pub clear_seq: Seq<char>,
}

impl View for CgrcColorItem {
    type V = ColorView;

    open spec fn view(&self) -> ColorView {
        ColorView {
            attrs: self.attrs@,
            forg: self.forg,
            back: self.back,
            escape_seq: self.escape_seq@,
            clear_seq: self.clear_seq@,
        }
    }
}

/// The colour item that the attributes and colours make.
pub open spec fn color_view_of(attrs: Seq<CgrcAttrib>, forg: LcLogColor, back: LcBackColor) -> ColorView {
    ColorView {
        attrs,
        forg,
        back,
        escape_seq: escape_seq_of(attrs, forg, back),
        clear_seq: clear_seq_of(attrs),
    }
}

impl ColorView {
    /// A colour carrying `none` never paints over what is there.
    pub open spec fn keeps_underlying(self) -> bool {
        self.attrs.contains(CgrcAttrib::CgrcNone)
    }
}

/// Whether the attribute is among `attrs`.
pub fn has_attr(attrs: &Vec<CgrcAttrib>, a: CgrcAttrib) -> (r: bool)
    ensures
        r == attrs@.contains(a),
{
    let mut i: usize = 0;
    while i < attrs.len()
        invariant
            i <= attrs@.len(),
            forall|j: int| 0 <= j < i ==> attrs@[j] != a,
        decreases attrs@.len() - i,
    {
        if attrs[i] == a {
            return true;
        }
        i += 1;
    }
    false
}

fn push_params(out: &mut Vec<char>, attrs: &Vec<CgrcAttrib>, resets: bool)
    ensures
        final(out)@ == old(out)@ + (if resets {
            reset_params(attrs@)
        } else {
            attr_params(attrs@)
        }),
{
    let mut i: usize = 0;
    while i < attrs.len()
        invariant
            i <= attrs@.len(),
            out@ == old(out)@ + (if resets {
                reset_params(attrs@.take(i as int))
            } else {
                attr_params(attrs@.take(i as int))
            }),
        decreases attrs@.len() - i,
    {
        let ghost before = out@;
        out.push(';');
        let code = if resets {
            colors_attr_clear(&attrs[i]).code()
        } else {
            attrs[i].code()
        };
        push_decimal(out, code);
        assert(attrs@.take(i + 1).drop_last() == attrs@.take(i as int));
        i += 1;
    }
    assert(attrs@.take(attrs@.len() as int) == attrs@);
}

impl CgrcColorItem {
    /// Creates the colour item, with both escape sequences.
    pub fn new(attrs: Vec<CgrcAttrib>, forg: LcLogColor, back: LcBackColor) -> (r: CgrcColorItem)
        ensures
            r@ == color_view_of(attrs@, forg, back),
    {
        let escape_seq = CgrcColorItem::build_escape_seq(&attrs, &forg, &back);
        let clear_seq = CgrcColorItem::build_clear_seq(&attrs);
        CgrcColorItem { attrs, forg, back, escape_seq, clear_seq }
    }

    /// Builds the sequence that switches the colour on.
    pub fn build_escape_seq(attrs: &Vec<CgrcAttrib>, forg: &LcLogColor, back: &LcBackColor) -> (r:
        String)
        ensures
            r@ == escape_seq_of(attrs@, *forg, *back),
    {
        let mut seq: Vec<char> = Vec::new();
        seq.push('\x1b');
        seq.push('[');
        push_decimal(&mut seq, forg.code());
        seq.push(';');
        push_decimal(&mut seq, back.code());
        push_params(&mut seq, attrs, false);
        seq.push('m');
        string_of(seq.as_slice())
    }

    /// Builds the sequence that switches the colour off.
    pub fn build_clear_seq(attrs: &Vec<CgrcAttrib>) -> (r: String)
        ensures
            r@ == clear_seq_of(attrs@),
    {
        let mut seq: Vec<char> = Vec::new();
        seq.push('\x1b');
        seq.push('[');
        push_decimal(&mut seq, LcLogColor::LcForgColDefault.code());
        seq.push(';');
        push_decimal(&mut seq, LcBackColor::LcBackColDefault.code());
        push_params(&mut seq, attrs, true);
        seq.push('m');
        string_of(seq.as_slice())
    }
}

} // verus!
