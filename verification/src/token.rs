//! The tokens of the language.
use vstd::prelude::*;
use crate::decimal::Decimal;

verus! {

/// One token of source text.
#[derive(Debug, PartialEq)]
pub enum Token {
    String(String),
    Identifier(String),
    Integer(i32),
    Range(Option<i32>, Option<i32>),
    Float(Decimal),
    LCurly,
    RCurly,
    LParen,
    RParen,
    LSquare,
    RSquare,
    At,
    Equal,
    Plus,
    PlusPlus,
    PlusEq,
    Tack,
    TackTack,
    TackEq,
    Star,
    StarEq,
    Slash,
    SlashEq,
    Percent,
    PercEq,
    Bang,
    BangEq,
    LCaret,
    LCaretEq,
    RCaret,
    RCaretEq,
    RLCaret,
    Colon,
    DoubleColon,
    ColonEq,
    QuestionEq,
    SemiColon,
    Comma,
    Dot,
    DotDot,
    DotEq,
    DotPlusEq,
    DotTackEq,
    DotStarEq,
    DotSlashEq,
    Woogly,
    UCaret,
    Arrow,
    FatArrow,
}

} // verus!
