//! Turns tokens into a syntax tree.
use vstd::prelude::*;
use crate::convert::push_debug;
use crate::strmap::StrMap;
use crate::syntax::{BlockType, NbtPathPart, Operation, Selector, SelectorType, Syntax};
use crate::decimal::push_decimal;
use crate::nbt::{push_quoted, quoted};
use crate::text::{int_text, owned, push_int, str_eq};
use crate::token::Token;

verus! {

/// The operator a token stands for, when it stands for one.
pub open spec fn spec_token_op(t: Token) -> Option<Operation> {
    match t {
        Token::Equal => Some(Operation::Equal),
        Token::Colon => Some(Operation::Colon),
        Token::DotEq => Some(Operation::FixedEq),
        Token::DotPlusEq => Some(Operation::FixedAddEq),
        Token::DotTackEq => Some(Operation::FixedSubEq),
        Token::DotStarEq => Some(Operation::FixedMulEq),
        Token::DotSlashEq => Some(Operation::FixedDivEq),
        Token::RLCaret => Some(Operation::Swap),
        Token::LCaret => Some(Operation::LCaret),
        Token::LCaretEq => Some(Operation::LCaretEq),
        Token::RCaret => Some(Operation::RCaret),
        Token::RCaretEq => Some(Operation::RCaretEq),
        Token::PlusEq => Some(Operation::AddEq),
        Token::TackEq => Some(Operation::SubEq),
        Token::StarEq => Some(Operation::MulEq),
        Token::SlashEq => Some(Operation::DivEq),
        Token::PercEq => Some(Operation::ModEq),
        Token::QuestionEq => Some(Operation::QuestionEq),
        Token::BangEq => Some(Operation::BangEq),
        Token::ColonEq => Some(Operation::ColonEq),
        Token::Star => Some(Operation::Mul),
        Token::Slash => Some(Operation::Div),
        Token::Plus => Some(Operation::Add),
        Token::Tack => Some(Operation::Sub),
        Token::Identifier(id) => if id@ == "in"@ { Some(Operation::In) } else { None },
        _ => None,
    }
}

/// The operator a token stands for (see `spec_token_op`).
pub fn token_op(t: &Token) -> (r: Option<Operation>)
    ensures
        r == spec_token_op(*t),
{
    match t {
        Token::Equal => Some(Operation::Equal),
        Token::Colon => Some(Operation::Colon),
        Token::DotEq => Some(Operation::FixedEq),
        Token::DotPlusEq => Some(Operation::FixedAddEq),
        Token::DotTackEq => Some(Operation::FixedSubEq),
        Token::DotStarEq => Some(Operation::FixedMulEq),
        Token::DotSlashEq => Some(Operation::FixedDivEq),
        Token::RLCaret => Some(Operation::Swap),
        Token::LCaret => Some(Operation::LCaret),
        Token::LCaretEq => Some(Operation::LCaretEq),
        Token::RCaret => Some(Operation::RCaret),
        Token::RCaretEq => Some(Operation::RCaretEq),
        Token::PlusEq => Some(Operation::AddEq),
        Token::TackEq => Some(Operation::SubEq),
        Token::StarEq => Some(Operation::MulEq),
        Token::SlashEq => Some(Operation::DivEq),
        Token::PercEq => Some(Operation::ModEq),
        Token::QuestionEq => Some(Operation::QuestionEq),
        Token::BangEq => Some(Operation::BangEq),
        Token::ColonEq => Some(Operation::ColonEq),
        Token::Star => Some(Operation::Mul),
        Token::Slash => Some(Operation::Div),
        Token::Plus => Some(Operation::Add),
        Token::Tack => Some(Operation::Sub),
        Token::Identifier(id) => if str_eq(id.as_str(), "in") { Some(Operation::In) } else { None },
        _ => None,
    }
}

/// Whether the binary operator in `t` binds at precedence level `priority`:
/// `*` `/` at 0, `+` `-` at 1, `in` at 2, assignments and comparisons at 3.
pub open spec fn spec_binds_at(t: Token, priority: u8) -> bool {
    match t {
        Token::Star | Token::Slash => priority == 0,
        Token::Plus | Token::Tack => priority == 1,
        Token::Identifier(id) => priority == 2 && id@ == "in"@,
        Token::Equal | Token::Colon | Token::DotEq | Token::DotPlusEq | Token::DotTackEq
        | Token::DotStarEq | Token::DotSlashEq | Token::RLCaret | Token::LCaret
        | Token::LCaretEq | Token::RCaret | Token::RCaretEq | Token::PlusEq | Token::TackEq
        | Token::StarEq | Token::SlashEq | Token::PercEq | Token::QuestionEq | Token::BangEq
        | Token::ColonEq => priority == 3,
        _ => false,
    }
}

/// The precedence level a binary operator binds at (see `spec_binds_at`), 5 for other
/// tokens.
pub open spec fn level_of(t: Token) -> int {
    if spec_binds_at(t, 0) {
        0
    } else if spec_binds_at(t, 1) {
        1
    } else if spec_binds_at(t, 2) {
        2
    } else if spec_binds_at(t, 3) {
        3
    } else {
        5
    }
}

/// The expression of two tokens that parse as one element: `-n` (the negated integer;
/// not for the smallest integer), `-d` (the decimal as it is), `..n`, `{}` and `()`.
pub open spec fn two_token_primary(a: Token, b: Token) -> Option<Syntax> {
    match (a, b) {
        (Token::Tack, Token::Integer(n)) => if n != i32::MIN { Some(Syntax::Integer(-n as i32)) } else { None },
        (Token::Tack, Token::Float(d)) => Some(Syntax::Float(d)),
        (Token::DotDot, Token::Integer(n)) => Some(Syntax::Range(None, Some(n))),
        (Token::LCurly, Token::RCurly) => Some(Syntax::Unit),
        (Token::LParen, Token::RParen) => Some(Syntax::Unit),
        _ => None,
    }
}

/// `a <op> b` for two integers, as a binary operation whose left side comes first.
pub open spec fn integer_binary(a: i32, op: Operation, b: i32) -> Syntax {
    Syntax::BinaryOp { lhs: Box::new(Syntax::Integer(a)), operation: op, rhs: Box::new(Syntax::Integer(b)) }
}

fn binds_at(t: &Token, priority: u8) -> (b: bool)
    ensures
        b == spec_binds_at(*t, priority),
        b ==> spec_token_op(*t) is Some,
{
    match t {
        Token::Star | Token::Slash => priority == 0,
        Token::Plus | Token::Tack => priority == 1,
        Token::Identifier(id) => priority == 2 && str_eq(id.as_str(), "in"),
        Token::Equal | Token::Colon | Token::DotEq | Token::DotPlusEq | Token::DotTackEq
        | Token::DotStarEq | Token::DotSlashEq | Token::RLCaret | Token::LCaret
        | Token::LCaretEq | Token::RCaret | Token::RCaretEq | Token::PlusEq | Token::TackEq
        | Token::StarEq | Token::SlashEq | Token::PercEq | Token::QuestionEq | Token::BangEq
        | Token::ColonEq => priority == 3,
        _ => false,
    }
}

/// The error for an unexpected token (or the end of input).
fn unexpected(tokens: &Vec<Token>, pos: usize) -> (r: String)
    ensures
        r@ == got_text("Unexpected token `"@, tokens@, pos as int),
{
    got_message("Unexpected token `", tokens, pos)
}

/// The name of a token's variant.
pub open spec fn token_name_text(t: Token) -> Seq<char> {
    match t {
        Token::String(_) => "String"@,
        Token::Identifier(_) => "Identifier"@,
        Token::Integer(_) => "Integer"@,
        Token::Range(_, _) => "Range"@,
        Token::Float(_) => "Float"@,
        Token::LCurly => "LCurly"@,
        Token::RCurly => "RCurly"@,
        Token::LParen => "LParen"@,
        Token::RParen => "RParen"@,
        Token::LSquare => "LSquare"@,
        Token::RSquare => "RSquare"@,
        Token::At => "At"@,
        Token::Equal => "Equal"@,
        Token::Plus => "Plus"@,
        Token::PlusPlus => "PlusPlus"@,
        Token::PlusEq => "PlusEq"@,
        Token::Tack => "Tack"@,
        Token::TackTack => "TackTack"@,
        Token::TackEq => "TackEq"@,
        Token::Star => "Star"@,
        Token::StarEq => "StarEq"@,
        Token::Slash => "Slash"@,
        Token::SlashEq => "SlashEq"@,
        Token::Percent => "Percent"@,
        Token::PercEq => "PercEq"@,
        Token::Bang => "Bang"@,
        Token::BangEq => "BangEq"@,
        Token::LCaret => "LCaret"@,
        Token::LCaretEq => "LCaretEq"@,
        Token::RCaret => "RCaret"@,
        Token::RCaretEq => "RCaretEq"@,
        Token::RLCaret => "RLCaret"@,
        Token::Colon => "Colon"@,
        Token::DoubleColon => "DoubleColon"@,
        Token::ColonEq => "ColonEq"@,
        Token::QuestionEq => "QuestionEq"@,
        Token::SemiColon => "SemiColon"@,
        Token::Comma => "Comma"@,
        Token::Dot => "Dot"@,
        Token::DotDot => "DotDot"@,
        Token::DotEq => "DotEq"@,
        Token::DotPlusEq => "DotPlusEq"@,
        Token::DotTackEq => "DotTackEq"@,
        Token::DotStarEq => "DotStarEq"@,
        Token::DotSlashEq => "DotSlashEq"@,
        Token::Woogly => "Woogly"@,
        Token::UCaret => "UCaret"@,
        Token::Arrow => "Arrow"@,
        Token::FatArrow => "FatArrow"@,
    }
}

/// A short name for a token in messages.
fn token_name(t: &Token) -> (r: &'static str)
    ensures
        r@ == token_name_text(*t),
{
    match t {
        Token::String(_) => "String",
        Token::Identifier(_) => "Identifier",
        Token::Integer(_) => "Integer",
        Token::Range(_, _) => "Range",
        Token::Float(_) => "Float",
        Token::LCurly => "LCurly",
        Token::RCurly => "RCurly",
        Token::LParen => "LParen",
        Token::RParen => "RParen",
        Token::LSquare => "LSquare",
        Token::RSquare => "RSquare",
        Token::At => "At",
        Token::Equal => "Equal",
        Token::Plus => "Plus",
        Token::PlusPlus => "PlusPlus",
        Token::PlusEq => "PlusEq",
        Token::Tack => "Tack",
        Token::TackTack => "TackTack",
        Token::TackEq => "TackEq",
        Token::Star => "Star",
        Token::StarEq => "StarEq",
        Token::Slash => "Slash",
        Token::SlashEq => "SlashEq",
        Token::Percent => "Percent",
        Token::PercEq => "PercEq",
        Token::Bang => "Bang",
        Token::BangEq => "BangEq",
        Token::LCaret => "LCaret",
        Token::LCaretEq => "LCaretEq",
        Token::RCaret => "RCaret",
        Token::RCaretEq => "RCaretEq",
        Token::RLCaret => "RLCaret",
        Token::Colon => "Colon",
        Token::DoubleColon => "DoubleColon",
        Token::ColonEq => "ColonEq",
        Token::QuestionEq => "QuestionEq",
        Token::SemiColon => "SemiColon",
        Token::Comma => "Comma",
        Token::Dot => "Dot",
        Token::DotDot => "DotDot",
        Token::DotEq => "DotEq",
        Token::DotPlusEq => "DotPlusEq",
        Token::DotTackEq => "DotTackEq",
        Token::DotStarEq => "DotStarEq",
        Token::DotSlashEq => "DotSlashEq",
        Token::Woogly => "Woogly",
        Token::UCaret => "UCaret",
        Token::Arrow => "Arrow",
        Token::FatArrow => "FatArrow",
    }
}

/// The expression a literal token, or a name that starts no block, parses as on its own.
pub open spec fn literal_of(t: Token) -> Option<Syntax> {
    match t {
        Token::Integer(n) => Some(Syntax::Integer(n)),
        Token::Float(d) => Some(Syntax::Float(d)),
        Token::Range(lo, hi) => Some(Syntax::Range(lo, hi)),
        Token::Identifier(id) => if BlockType::spec_named(id@) is None {
            Some(Syntax::Identifier(id))
        } else {
            None
        },
        _ => None,
    }
}

/// The operand that starts at `pos` and where it ends: a literal or a name (one token),
/// or a minus sign and a number (two tokens; the integer is negated, not the smallest
/// one, and a decimal is kept as it is).
pub open spec fn operand_at(tokens: Seq<Token>, pos: int) -> Option<(Syntax, int)> {
    if 0 <= pos < tokens.len() {
        match literal_of(tokens[pos]) {
            Some(x) => Some((x, pos + 1)),
            None => if tokens[pos] is Tack && pos + 1 < tokens.len() {
                match tokens[pos + 1] {
                    Token::Integer(n) => if n != i32::MIN { Some((Syntax::Integer(-n as i32), pos + 2)) } else { None },
                    Token::Float(d) => Some((Syntax::Float(d), pos + 2)),
                    _ => None,
                }
            } else {
                None
            },
        }
    } else {
        None
    }
}

/// A token that ends an operator chain: one that is no binary operator and that no operand
/// takes after it (`++`, `--` and `.` follow a name).
pub open spec fn ends_chain(t: Token) -> bool {
    level_of(t) == 5 && !(t is PlusPlus || t is TackTack || t is Dot)
}

/// From `pos` on, the tokens alternate between operands and binary operators, beginning
/// and ending with an operand, up to the end or to a token that ends a statement.
pub open spec fn operator_chain(tokens: Seq<Token>, pos: int) -> bool
    decreases tokens.len() - pos,
{
    match operand_at(tokens, pos) {
        Some((_, e)) => pos < e && (e == tokens.len() || (e < tokens.len() && ends_chain(tokens[e])) || (e < tokens.len()
            && level_of(tokens[e]) < 5 && operator_chain(tokens, e + 1))),
        None => false,
    }
}

/// What may follow an operand in an operator chain: the end, a token that ends the
/// chain, or an operator and the rest of the chain.
pub open spec fn chain_rest(tokens: Seq<Token>, p: int) -> bool {
    p == tokens.len() || (0 <= p < tokens.len() && ends_chain(tokens[p])) || (0 <= p < tokens.len() && level_of(tokens[p]) < 5
        && operator_chain(tokens, p + 1))
}

/// Precedence climbing over an operator chain: the expression at level `prio` that
/// starts at `pos`, and where it ends. Operators of one level associate to the left, and
/// an operand of level `prio` is an expression of level `prio + 1`.
pub open spec fn climb(tokens: Seq<Token>, pos: int, prio: int) -> (Syntax, int)
    decreases tokens.len() - pos, 5 - prio, 1int,
{
    if pos < 0 || pos >= tokens.len() {
        (Syntax::Unit, pos)
    } else if prio >= 5 {
        match operand_at(tokens, pos) {
            Some(o) => o,
            None => (Syntax::Unit, pos + 1),
        }
    } else {
        let (first, p) = climb(tokens, pos, prio + 1);
        if pos < p <= tokens.len() {
            climb_rest(tokens, first, p, prio)
        } else {
            (first, p)
        }
    }
}

/// The rest of a level-`prio` expression after `acc`, which ends at `p`: each operator of
/// that level and the operand after it extend `acc` on the right.
pub open spec fn climb_rest(tokens: Seq<Token>, acc: Syntax, p: int, prio: int) -> (Syntax, int)
    decreases tokens.len() - p, 5 - prio, 0int,
{
    if 0 <= p && p + 1 < tokens.len() && 0 <= prio < 5 && spec_binds_at(tokens[p], prio as u8) {
        let (rhs, q) = climb(tokens, p + 1, prio + 1);
        if p + 1 < q <= tokens.len() {
            climb_rest(
                tokens,
                Syntax::BinaryOp { lhs: Box::new(acc), operation: spec_token_op(tokens[p])->0, rhs: Box::new(rhs) },
                q,
                prio,
            )
        } else {
            (acc, p)
        }
    } else {
        (acc, p)
    }
}

/// `r` is a successful parse that produced `s` and stopped at position `q`.
pub open spec fn parsed_as(r: Result<(Syntax, usize), String>, s: Syntax, q: int) -> bool {
    r matches Ok((t, p)) && t == s && p == q
}

/// Parses a whole token stream as one expression (trailing tokens are ignored).
pub fn parse(tokens: Vec<Token>) -> (r: Result<Syntax, String>)
    ensures
        tokens@.len() == 0 ==> r is Err,
        tokens@.len() == 1 ==> (tokens@[0] matches Token::Integer(n) ==> r == Ok::<Syntax, String>(Syntax::Integer(n))),
        tokens@.len() == 1 ==> (tokens@[0] matches Token::Float(d) ==> r == Ok::<Syntax, String>(Syntax::Float(d))),
        tokens@.len() == 1 ==> (tokens@[0] matches Token::Range(lo, hi) ==> r == Ok::<Syntax, String>(Syntax::Range(lo, hi))),
        tokens@.len() == 2 ==> (two_token_primary(tokens@[0], tokens@[1]) matches Some(x) ==> r == Ok::<Syntax, String>(x)),
        tokens@.len() == 3 ==> (tokens@[0] matches Token::Integer(a) ==> (tokens@[2] matches Token::Integer(b) ==> (spec_token_op(
            tokens@[1],
        ) matches Some(op) ==> (level_of(tokens@[1]) < 5 ==> r == Ok::<Syntax, String>(integer_binary(a, op, b)))))),
        operator_chain(tokens@, 0) ==> r == Ok::<Syntax, String>(climb(tokens@, 0, 0).0),
        chain_block_at(tokens@, 0) matches Some((items, e)) ==> (chain_end(tokens@, e) ==> (r matches Ok(s) && block_value(items, s))),
{
    match parse_expr(&tokens, 0, 0) {
        Ok((syn, _)) => Ok(syn),
        Err(e) => Err(e),
    }
}

/// Parses an expression at precedence level `priority` (0 binds loosest) starting at
/// `pos`; binary operators of one level associate to the left.
pub fn parse_expr(tokens: &Vec<Token>, pos: usize, priority: u8) -> (r: Result<(Syntax, usize), String>)
    requires
        priority <= 5,
    ensures
        r matches Ok((_, p)) ==> pos < p <= tokens@.len(),
        priority < 5 ==> (r matches Ok((_, p)) ==> (p == tokens@.len() || !spec_binds_at(tokens@[p as int], priority))),
        pos + 1 == tokens@.len() ==> (tokens@[pos as int] matches Token::Integer(n) ==> parsed_as(r, Syntax::Integer(n), pos + 1)),
        pos + 1 == tokens@.len() ==> (tokens@[pos as int] matches Token::Float(d) ==> parsed_as(r, Syntax::Float(d), pos + 1)),
        pos + 1 == tokens@.len() ==> (tokens@[pos as int] matches Token::Range(lo, hi) ==> parsed_as(r, Syntax::Range(lo, hi), pos + 1)),
        pos + 2 == tokens@.len() ==> (two_token_primary(tokens@[pos as int], tokens@[pos + 1]) matches Some(x) ==> parsed_as(
            r,
            x,
            pos + 2,
        )),
        pos + 3 == tokens@.len() ==> (tokens@[pos as int] matches Token::Integer(a) ==> (tokens@[pos + 2] matches Token::Integer(b)
            ==> (spec_token_op(tokens@[pos + 1]) matches Some(op) ==> (priority <= level_of(tokens@[pos + 1]) < 5 ==> parsed_as(
            r,
            integer_binary(a, op, b),
            pos + 3,
        ))))),
        pos + 3 == tokens@.len() ==> (tokens@[pos as int] matches Token::Integer(a) ==> (level_of(tokens@[pos + 1]) < priority
            ==> parsed_as(r, Syntax::Integer(a), pos + 1))),
        pos >= tokens@.len() ==> r is Err,
        operator_chain(tokens@, pos as int) ==> parsed_as(
            r,
            climb(tokens@, pos as int, priority as int).0,
            climb(tokens@, pos as int, priority as int).1,
        ),
        operator_chain(tokens@, pos as int) ==> (r matches Ok((_, p)) && chain_rest(tokens@, p as int)),
        chain_block_at(tokens@, pos as int) matches Some((items, e)) ==> (chain_end(tokens@, e) ==> (r matches Ok((s, q)) && q == e
            && block_value(items, s))),
    decreases tokens@.len() - pos, 10 - priority,
{
    if priority >= 5 {
        return parse_primary(tokens, pos);
    }
    let (mut start, mut p) = match parse_expr(tokens, pos, priority + 1) {
        Ok(v) => v,
        Err(e) => return Err(e),
    };
    let ghost first = start;
    while p < tokens.len() && binds_at(&tokens[p], priority)
        invariant
            pos < p <= tokens@.len(),
            priority < 5,
            pos + 1 == tokens@.len() ==> (start == first && p == pos + 1),
            pos + 2 == tokens@.len() && two_token_primary(tokens@[pos as int], tokens@[pos + 1]) is Some ==> (start == first && p
                == pos + 2),
            pos + 3 == tokens@.len() && tokens@[pos as int] is Integer && tokens@[pos + 2] is Integer && spec_token_op(
                tokens@[pos + 1],
            ) is Some && priority <= level_of(tokens@[pos + 1]) < 5 ==> (if priority < level_of(tokens@[pos + 1]) {
                start == first && p == pos + 3
            } else {
                (start == first && first == Syntax::Integer(tokens@[pos as int]->Integer_0) && p == pos + 1) || (start == integer_binary(
                    tokens@[pos as int]->Integer_0,
                    spec_token_op(tokens@[pos + 1])->0,
                    tokens@[pos + 2]->Integer_0,
                ) && p == pos + 3)
            }),
            pos + 3 == tokens@.len() && tokens@[pos as int] is Integer && level_of(tokens@[pos + 1]) < priority ==> (start
                == first && first == Syntax::Integer(tokens@[pos as int]->Integer_0) && p == pos + 1),
            chain_block_at(tokens@, pos as int) matches Some((items, e)) ==> (chain_end(tokens@, e) ==> p == e && block_value(
                items,
                start,
            )),
            operator_chain(tokens@, pos as int) ==> chain_rest(tokens@, p as int) && climb_rest(tokens@, start, p as int, priority as int)
                == climb(tokens@, pos as int, priority as int),
        decreases tokens@.len() - p,
    {
        proof {
            if operator_chain(tokens@, pos as int) {
                assert(operator_chain(tokens@, p + 1));
                assert(operand_at(tokens@, p + 1) is Some);
            }
        }
        let op = match token_op(&tokens[p]) {
            Some(op) => op,
            None => Operation::Equal,
        };
        let (rhs, q) = match parse_expr(tokens, p + 1, priority + 1) {
            Ok(v) => v,
            Err(e) => return Err(e),
        };
        start = Syntax::BinaryOp { lhs: Box::new(start), operation: op, rhs: Box::new(rhs) };
        p = q;
    }
    Ok((start, p))
}

/// Parses one primary element starting at `pos`, with a trailing `:name`, `::name` or
/// `.path` (and an operation) after a selector, or `= value` after a storage path.
pub fn parse_primary(tokens: &Vec<Token>, pos: usize) -> (r: Result<(Syntax, usize), String>)
    ensures
        r matches Ok((_, p)) ==> pos < p <= tokens@.len(),
        pos < tokens@.len() ==> (tokens@[pos as int] matches Token::Integer(n) ==> parsed_as(r, Syntax::Integer(n), pos + 1)),
        pos < tokens@.len() ==> (tokens@[pos as int] matches Token::Float(d) ==> parsed_as(r, Syntax::Float(d), pos + 1)),
        pos < tokens@.len() ==> (tokens@[pos as int] matches Token::Range(lo, hi) ==> parsed_as(r, Syntax::Range(lo, hi), pos + 1)),
        pos < tokens@.len() ==> (tokens@[pos as int] matches Token::String(t) ==> (r matches Ok((Syntax::String(u), q))
            && u@ == t@ && q == pos + 1)),
        pos < tokens@.len() ==> (tokens@[pos as int] matches Token::Identifier(id) ==> (BlockType::spec_named(id@) is None && (pos
            + 1 == tokens@.len() || level_of(tokens@[pos + 1]) < 5 || ends_chain(tokens@[pos + 1])) ==> parsed_as(
            r,
            Syntax::Identifier(id),
            pos + 1,
        ))),
        chain_block_at(tokens@, pos as int) matches Some((items, e)) ==> (r matches Ok((s, q)) && q == e && block_value(items, s)),
        pos + 1 < tokens@.len() ==> (tokens@[pos as int] is Tack ==> (tokens@[pos + 1] matches Token::Integer(n) ==> (n
            != i32::MIN ==> parsed_as(r, Syntax::Integer(-n as i32), pos + 2)))),
        pos + 1 < tokens@.len() ==> (tokens@[pos as int] is Tack ==> (tokens@[pos + 1] matches Token::Float(d) ==> parsed_as(
            r,
            Syntax::Float(d),
            pos + 2,
        ))),
        pos + 1 < tokens@.len() ==> (tokens@[pos as int] is DotDot ==> (tokens@[pos + 1] matches Token::Integer(n) ==> parsed_as(
            r,
            Syntax::Range(None, Some(n)),
            pos + 2,
        ))),
        pos + 1 < tokens@.len() ==> ((tokens@[pos as int] is LCurly && tokens@[pos + 1] is RCurly) || (tokens@[pos as int] is LParen
            && tokens@[pos + 1] is RParen) ==> parsed_as(r, Syntax::Unit, pos + 2)),
        pos >= tokens@.len() ==> r is Err,
    decreases tokens@.len() - pos, 4nat,
{
    let (first, p) = match parse_first(tokens, pos) {
        Ok(v) => v,
        Err(e) => return Err(e),
    };
    parse_suffix(tokens, pos, first, p)
}

/// Parses the element that starts at `pos`, without what may follow it.
fn parse_first(tokens: &Vec<Token>, pos: usize) -> (r: Result<(Syntax, usize), String>)
    ensures
        r matches Ok((_, p)) ==> pos < p <= tokens@.len(),
        pos < tokens@.len() ==> (tokens@[pos as int] matches Token::Integer(n) ==> parsed_as(r, Syntax::Integer(n), pos + 1)),
        pos < tokens@.len() ==> (tokens@[pos as int] matches Token::Float(d) ==> parsed_as(r, Syntax::Float(d), pos + 1)),
        pos < tokens@.len() ==> (tokens@[pos as int] matches Token::Range(lo, hi) ==> parsed_as(r, Syntax::Range(lo, hi), pos + 1)),
        pos < tokens@.len() ==> (tokens@[pos as int] matches Token::String(t) ==> (r matches Ok((Syntax::String(u), q))
            && u@ == t@ && q == pos + 1)),
        pos < tokens@.len() ==> (tokens@[pos as int] matches Token::Identifier(id) ==> (BlockType::spec_named(id@) is None && (pos
            + 1 == tokens@.len() || level_of(tokens@[pos + 1]) < 5 || ends_chain(tokens@[pos + 1])) ==> parsed_as(
            r,
            Syntax::Identifier(id),
            pos + 1,
        ))),
        chain_block_at(tokens@, pos as int) matches Some((items, e)) ==> (r matches Ok((s, q)) && q == e && block_value(items, s)),
        pos + 1 < tokens@.len() ==> (tokens@[pos as int] is Tack ==> (tokens@[pos + 1] matches Token::Integer(n) ==> (n
            != i32::MIN ==> parsed_as(r, Syntax::Integer(-n as i32), pos + 2)))),
        pos + 1 < tokens@.len() ==> (tokens@[pos as int] is Tack ==> (tokens@[pos + 1] matches Token::Float(d) ==> parsed_as(
            r,
            Syntax::Float(d),
            pos + 2,
        ))),
        pos + 1 < tokens@.len() ==> (tokens@[pos as int] is DotDot ==> (tokens@[pos + 1] matches Token::Integer(n) ==> parsed_as(
            r,
            Syntax::Range(None, Some(n)),
            pos + 2,
        ))),
        pos + 1 < tokens@.len() ==> ((tokens@[pos as int] is LCurly && tokens@[pos + 1] is RCurly) || (tokens@[pos as int] is LParen
            && tokens@[pos + 1] is RParen) ==> parsed_as(r, Syntax::Unit, pos + 2)),
        pos >= tokens@.len() ==> r is Err,
    decreases tokens@.len() - pos, 3nat,
{
    if pos >= tokens.len() {
        return Err(unexpected(tokens, pos));
    }
    let p1 = pos + 1;
    let first: (Syntax, usize) = match &tokens[pos] {
        Token::String(s) => (Syntax::String(s.clone()), p1),
        Token::Integer(n) => (Syntax::Integer(*n), p1),
        Token::Float(d) => (Syntax::Float(*d), p1),
        Token::Range(l, r) => (Syntax::Range(*l, *r), p1),
        Token::DotDot => {
            if p1 < tokens.len() {
                if let Token::Integer(n) = &tokens[p1] {
                    (Syntax::Range(None, Some(*n)), p1 + 1)
                } else {
                    return Err(owned("Expected number after `..`"));
                }
            } else {
                return Err(owned("Expected number after `..`"));
            }
        },
        Token::Tack => {
            if p1 < tokens.len() {
                match &tokens[p1] {
                    Token::Integer(n) => {
                        if *n == i32::MIN {
                            return Err(owned("Expected a number or float after `-`"));
                        }
                        (Syntax::Integer(-*n), p1 + 1)
                    },
                    Token::Float(d) => (Syntax::Float(*d), p1 + 1),
                    _ => return Err(owned("Expected a number or float after `-`")),
                }
            } else {
                return Err(owned("Expected a number or float after `-`"));
            }
        },
        Token::Identifier(id) => {
            match parse_identifier(tokens, p1, id.clone()) {
                Ok(v) => v,
                Err(e) => return Err(e),
            }
        },
        Token::LCurly => match parse_block(tokens, p1, 0) {
            Ok(v) => v,
            Err(e) => return Err(e),
        },
        Token::LSquare => match parse_block(tokens, p1, 1) {
            Ok(v) => v,
            Err(e) => return Err(e),
        },
        Token::LParen => match parse_block(tokens, p1, 2) {
            Ok(v) => v,
            Err(e) => return Err(e),
        },
        Token::At => match parse_annotation(tokens, p1) {
            Ok(v) => v,
            Err(e) => return Err(e),
        },
        Token::UCaret => {
            let (d, q) = match extract_float(tokens, p1) {
                Ok(v) => v,
                Err(e) => return Err(e),
            };
            (Syntax::CaretCoord(d), q)
        },
        Token::Woogly => {
            let (d, q) = match extract_float(tokens, p1) {
                Ok(v) => v,
                Err(e) => return Err(e),
            };
            (Syntax::WooglyCoord(d), q)
        },
        Token::Bang => {
            if p1 < tokens.len() {
                if let Token::Identifier(id) = &tokens[p1] {
                    let mut s = owned("!");
                    s.append(id.as_str());
                    (Syntax::Identifier(s), p1 + 1)
                } else {
                    return Err(owned("Unexpected token `!`. Try appending an identifier, like `@s[type=!player]`."));
                }
            } else {
                return Err(owned("Unexpected token `!`. Try appending an identifier, like `@s[type=!player]`."));
            }
        },
        _ => return Err(unexpected(tokens, pos)),
    };
    Ok(first)
}

/// What follows an element that ends at `p`: `:name`, `::name` or `.path` (and an
/// operation) after a selector, `= value` after a storage path.
fn parse_suffix(tokens: &Vec<Token>, pos: usize, first: Syntax, p: usize) -> (r: Result<(Syntax, usize), String>)
    requires
        pos < p <= tokens@.len(),
    ensures
        r matches Ok((_, q)) ==> pos < q <= tokens@.len(),
        !(first is Selector || first is NbtStorage) ==> r == Ok::<(Syntax, usize), String>((first, p)),
    decreases tokens@.len() - pos, 2nat,
{
    match first {
        Syntax::Selector(sel) => {
            if p < tokens.len() {
                let kind: u8 = match &tokens[p] {
                    Token::Colon => 1,
                    Token::DoubleColon => 2,
                    Token::Dot => 3,
                    _ => 0,
                };
                if kind == 0 {
                    return Ok((Syntax::Selector(sel), p));
                }
                let ident = if p + 1 < tokens.len() {
                    match &tokens[p + 1] {
                        Token::Identifier(id) => id.clone(),
                        _ => return Err(owned("Selectors can only be indexed with `:<identifier>`, `::<identifier>`, or `.<nbt>`")),
                    }
                } else {
                    return Err(owned("Selectors can only be indexed with `:<identifier>`, `::<identifier>`, or `.<nbt>`"));
                };
                let mut q = p + 2;
                let left = if kind == 1 {
                    Syntax::SelectorColon(sel, ident)
                } else if kind == 2 {
                    Syntax::SelectorDoubleColon(sel, ident)
                } else {
                    let mut path: Vec<NbtPathPart> = Vec::new();
                    path.push(NbtPathPart::Ident(ident));
                    match parse_nbt_path(tokens, q) {
                        Ok((rest, q2)) => {
                            let mut rest = rest;
                            path.append(&mut rest);
                            q = q2;
                        },
                        Err(e) => return Err(e),
                    }
                    Syntax::SelectorNbt(sel, path)
                };
                if q < tokens.len() {
                    let (op, right_start) = match token_op(&tokens[q]) {
                        Some(op) => (op, q + 1),
                        None => {
                            match &tokens[q] {
                                Token::PlusPlus => {
                                    return Ok((Syntax::BinaryOp {
                                        lhs: Box::new(left),
                                        operation: Operation::AddEq,
                                        rhs: Box::new(Syntax::Integer(1)),
                                    }, q + 1));
                                },
                                Token::TackTack => {
                                    return Ok((Syntax::BinaryOp {
                                        lhs: Box::new(left),
                                        operation: Operation::SubEq,
                                        rhs: Box::new(Syntax::Integer(1)),
                                    }, q + 1));
                                },
                                _ => return Ok((left, q)),
                            }
                        },
                    };
                    let (right, q3) = match parse_primary(tokens, right_start) {
                        Ok(v) => v,
                        Err(e) => return Err(e),
                    };
                    Ok((Syntax::BinaryOp { lhs: Box::new(left), operation: op, rhs: Box::new(right) }, q3))
                } else {
                    Ok((left, q))
                }
            } else {
                Ok((Syntax::Selector(sel), p))
            }
        },
        Syntax::NbtStorage(path) => {
            if p < tokens.len() {
                if let Token::Equal = &tokens[p] {
                    let (right, q) = match parse_primary(tokens, p + 1) {
                        Ok(v) => v,
                        Err(e) => return Err(e),
                    };
                    return Ok((Syntax::BinaryOp {
                        lhs: Box::new(Syntax::NbtStorage(path)),
                        operation: Operation::Equal,
                        rhs: Box::new(right),
                    }, q));
                }
            }
            Ok((Syntax::NbtStorage(path), p))
        },
        other => Ok((other, p)),
    }
}

/// The block a keyword `id` starts, with the position of its header: `as at`, `do while`
/// and `do until` take the next word too; none for a word that names no block.
pub open spec fn block_head(id: Seq<char>, tokens: Seq<Token>, pos: int) -> Option<(BlockType, int)> {
    match BlockType::spec_named(id) {
        Some(bt) => {
            let next = if 0 <= pos < tokens.len() {
                match tokens[pos] {
                    Token::Identifier(n) => n@,
                    _ => seq![],
                }
            } else {
                seq![]
            };
            if bt == BlockType::As && next == "at"@ {
                Some((BlockType::AsAt, pos + 1))
            } else if bt == BlockType::Do && next == "while"@ {
                Some((BlockType::DoWhile, pos + 1))
            } else if bt == BlockType::Do && next == "until"@ {
                Some((BlockType::DoUntil, pos + 1))
            } else {
                Some((bt, pos))
            }
        },
        None => None,
    }
}

/// Parses what follows an identifier: `++`, `--`, an NBT path, a block such as
/// `if <condition> <body>`, or nothing.
pub fn parse_identifier(tokens: &Vec<Token>, pos: usize, id: String) -> (r: Result<(Syntax, usize), String>)
    requires
        pos >= 1,
    ensures
        r matches Ok((_, p)) ==> pos <= p <= tokens@.len(),
        pos < tokens@.len() && tokens@[pos as int] is PlusPlus ==> parsed_as(
            r,
            Syntax::BinaryOp {
                lhs: Box::new(Syntax::Identifier(id)),
                operation: Operation::AddEq,
                rhs: Box::new(Syntax::Integer(1)),
            },
            pos + 1,
        ),
        pos < tokens@.len() && tokens@[pos as int] is TackTack ==> parsed_as(
            r,
            Syntax::BinaryOp {
                lhs: Box::new(Syntax::Identifier(id)),
                operation: Operation::SubEq,
                rhs: Box::new(Syntax::Integer(1)),
            },
            pos + 1,
        ),
        pos <= tokens@.len() && !(pos < tokens@.len() && (tokens@[pos as int] is PlusPlus || tokens@[pos as int] is TackTack
            || tokens@[pos as int] is Dot)) && BlockType::spec_named(id@) is None ==> parsed_as(r, Syntax::Identifier(id), pos as int),
        pos < tokens@.len() && tokens@[pos as int] is Dot ==> (r is Ok <==> nbt_path_parse(tokens@, pos as int) is Some),
        pos < tokens@.len() && tokens@[pos as int] is Dot ==> (nbt_path_parse(tokens@, pos as int) matches Some((rest, e)) ==> (
        r matches Ok((Syntax::NbtStorage(path), q)) && path@ == seq![NbtPathPart::Ident(id)] + rest && q == e)),
        !(pos < tokens@.len() && (tokens@[pos as int] is PlusPlus || tokens@[pos as int] is TackTack || tokens@[pos as int] is Dot))
            && BlockType::spec_named(id@) is Some ==> (r matches Ok((s, _)) ==> s is Block),
        !(pos < tokens@.len() && (tokens@[pos as int] is PlusPlus || tokens@[pos as int] is TackTack || tokens@[pos as int] is Dot))
            ==> (block_head(id@, tokens@, pos as int) matches Some((bt, p)) ==> (bt == BlockType::Do ==> r is Err) && (r matches Ok(
            (s, q2),
        ) ==> block_parsed(s, bt, tokens@, p, q2 as int))),
        pos > tokens@.len() ==> r is Err,
    decreases tokens@.len() - pos, 20nat,
{
    if pos > tokens.len() {
        return Err(unexpected(tokens, pos));
    }
    if pos < tokens.len() {
        match &tokens[pos] {
            Token::PlusPlus => {
                return Ok((Syntax::BinaryOp {
                    lhs: Box::new(Syntax::Identifier(id)),
                    operation: Operation::AddEq,
                    rhs: Box::new(Syntax::Integer(1)),
                }, pos + 1));
            },
            Token::TackTack => {
                return Ok((Syntax::BinaryOp {
                    lhs: Box::new(Syntax::Identifier(id)),
                    operation: Operation::SubEq,
                    rhs: Box::new(Syntax::Integer(1)),
                }, pos + 1));
            },
            Token::Dot => {
                let mut path: Vec<NbtPathPart> = Vec::new();
                path.push(NbtPathPart::Ident(id));
                return match parse_nbt_path(tokens, pos) {
                    Ok((rest, q)) => {
                        let mut rest = rest;
                        path.append(&mut rest);
                        Ok((Syntax::NbtStorage(path), q))
                    },
                    Err(e) => Err(e),
                };
            },
            _ => {},
        }
    }
    match BlockType::from_name(id.as_str()) {
        Some(block_type) => {
            let mut p = pos;
            let mut bt = block_type;
            if p < tokens.len() {
                if let Token::Identifier(next) = &tokens[p] {
                    if bt == BlockType::As && str_eq(next.as_str(), "at") {
                        bt = BlockType::AsAt;
                        p = p + 1;
                    } else if bt == BlockType::Do && str_eq(next.as_str(), "while") {
                        bt = BlockType::DoWhile;
                        p = p + 1;
                    } else if bt == BlockType::Do && str_eq(next.as_str(), "until") {
                        bt = BlockType::DoUntil;
                        p = p + 1;
                    }
                }
            }
            proof {
                reveal_strlit("at");
                reveal_strlit("while");
                reveal_strlit("until");
                assert("at"@.len() == 2 && "while"@.len() == 5 && "until"@.len() == 5 && "while"@[0] != "until"@[0]);
                if p < tokens@.len() && tokens@[pos as int] is Identifier {
                    assert(tokens@[pos as int] == tokens[pos as int]);
                }
                assert(block_head(id@, tokens@, pos as int) == Some((bt, p as int)));
            }
            if bt == BlockType::Do {
                return Err(owned("`do` is not a valid block type; did you mean `do while` or `do until`?"));
            }
            let (lhs, q) = match parse_expr(tokens, p, 0) {
                Ok(v) => v,
                Err(e) => return Err(e),
            };
            let (rhs, q2) = match parse_expr(tokens, q, 0) {
                Ok(v) => v,
                Err(e) => return Err(e),
            };
            let out = Syntax::Block(bt, Box::new(lhs), Box::new(rhs));
            assert(block_parsed(out, bt, tokens@, p as int, q2 as int)) by {
                assert(expr_at(tokens@, p as int, lhs, q as int));
                assert(expr_at(tokens@, q as int, rhs, q2 as int));
            }
            Ok((out, q2))
        },
        None => Ok((Syntax::Identifier(id), pos)),
    }
}

/// An optional integer as text: `Some(n)` or `None`.
pub open spec fn option_int_text(v: Option<i32>) -> Seq<char> {
    match v {
        Some(n) => "Some("@ + int_text(n as int) + ")"@,
        None => "None"@,
    }
}

/// The debug rendering of a token: its variant's name, with its payload in brackets.
pub open spec fn token_debug_text(t: Token) -> Seq<char> {
    token_name_text(t) + match t {
        Token::String(s) => "("@ + quoted(s@) + ")"@,
        Token::Identifier(s) => "("@ + quoted(s@) + ")"@,
        Token::Integer(n) => "("@ + int_text(n as int) + ")"@,
        Token::Range(l, h) => "("@ + option_int_text(l) + ", "@ + option_int_text(h) + ")"@,
        Token::Float(d) => "("@ + d.text() + ")"@,
        _ => Seq::<char>::empty(),
    }
}

/// `prefix`, then `Some(..)` around the debug rendering of the token at `pos` (or `None`
/// past the end), then a closing backquote.
pub open spec fn got_text(prefix: Seq<char>, tokens: Seq<Token>, pos: int) -> Seq<char> {
    prefix + (if 0 <= pos < tokens.len() {
        "Some("@ + token_debug_text(tokens[pos]) + ")"@
    } else {
        "None"@
    }) + "`"@
}

/// Appends the debug rendering of a token: its variant, with its payload in brackets
/// (`Integer(5)`, `Identifier("x")`).
fn push_token_debug(out: &mut String, t: &Token)
    ensures
        final(out)@ == old(out)@ + token_debug_text(*t),
{
    proof {
        reveal_strlit("(");
        reveal_strlit(")");
        reveal_strlit(", ");
    }
    out.append(token_name(t));
    match t {
        Token::String(s) | Token::Identifier(s) => {
            out.push('(');
            push_quoted(out, s.as_str());
            out.push(')');
        },
        Token::Integer(n) => {
            out.push('(');
            push_int(out, *n as i64);
            out.push(')');
        },
        Token::Range(l, h) => {
            out.push('(');
            push_option_int(out, *l);
            out.append(", ");
            push_option_int(out, *h);
            out.push(')');
        },
        Token::Float(d) => {
            out.push('(');
            push_decimal(out, *d);
            out.push(')');
        },
        _ => {},
    }
}

/// The message for a token that does not fit, with the debug rendering of what was found
/// at `pos` (`None` past the end, else `Some(..)` around the token): `prefix`, the
/// rendering, then a closing backquote.
fn got_message(prefix: &str, tokens: &Vec<Token>, pos: usize) -> (r: String)
    ensures
        r@ == got_text(prefix@, tokens@, pos as int),
{
    proof {
        reveal_strlit("Some(");
        reveal_strlit(")");
        reveal_strlit("None");
        reveal_strlit("`");
    }
    let mut out = owned(prefix);
    if pos < tokens.len() {
        out.append("Some(");
        push_token_debug(&mut out, &tokens[pos]);
        out.push(')');
    } else {
        out.append("None");
    }
    out.push('`');
    out
}

/// Appends an optional integer as `Some(n)` or `None`.
fn push_option_int(out: &mut String, v: Option<i32>)
    ensures
        final(out)@ == old(out)@ + option_int_text(v),
{
    proof {
        reveal_strlit("Some(");
        reveal_strlit(")");
        reveal_strlit("None");
    }
    match v {
        Some(n) => {
            out.append("Some(");
            push_int(out, n as i64);
            out.push(')');
        },
        None => out.append("None"),
    }
}

/// `Expected `]` after `[n` in NBT path`.
fn bracket_message(n: i32) -> (r: String)
    ensures
        r@ == "Expected `]` after `["@ + int_text(n as int) + "` in NBT path"@,
{
    let mut out = owned("Expected `]` after `[");
    push_int(&mut out, n as i64);
    out.append("` in NBT path");
    out
}

/// The NBT path continuation that starts at `p`: steps `.name` and `[n]` (with `n` not
/// negative) up to the first token that starts neither, with the position after it; or
/// nothing when a step is malformed.
pub open spec fn nbt_path_parse(tokens: Seq<Token>, p: int) -> Option<(Seq<NbtPathPart>, int)>
    decreases tokens.len() - p,
{
    if p < 0 || p >= tokens.len() {
        Some((seq![], p))
    } else {
        match tokens[p] {
            Token::Dot => if p + 1 < tokens.len() {
                match tokens[p + 1] {
                    Token::Identifier(id) => match nbt_path_parse(tokens, p + 2) {
                        Some((rest, e)) => Some((seq![NbtPathPart::Ident(id)] + rest, e)),
                        None => None,
                    },
                    _ => None,
                }
            } else {
                None
            },
            Token::LSquare => if p + 2 < tokens.len() {
                match (tokens[p + 1], tokens[p + 2]) {
                    (Token::Integer(n), Token::RSquare) => if n >= 0 {
                        match nbt_path_parse(tokens, p + 3) {
                            Some((rest, e)) => Some((seq![NbtPathPart::Index(n as u32)] + rest, e)),
                            None => None,
                        }
                    } else {
                        None
                    },
                    _ => None,
                }
            } else {
                None
            },
            _ => Some((seq![], p)),
        }
    }
}

/// Parses an NBT path continuation such as `.Inventory[42].tag` starting at `pos` (see
/// `nbt_path_parse`).
pub fn parse_nbt_path(tokens: &Vec<Token>, pos: usize) -> (r: Result<(Vec<NbtPathPart>, usize), String>)
    ensures
        r matches Ok((_, p)) ==> pos <= p <= tokens@.len() || (pos > tokens@.len() && p == pos),
        r matches Ok((v, p)) ==> nbt_path_parse(tokens@, pos as int) == Some((v@, p as int)),
        r is Err ==> nbt_path_parse(tokens@, pos as int) is None,
{
    let mut path: Vec<NbtPathPart> = Vec::new();
    let mut p = pos;
    if p > tokens.len() {
        return Ok((path, p));
    }
    while p < tokens.len()
        invariant
            pos <= p <= tokens@.len(),
            nbt_path_parse(tokens@, pos as int) == (match nbt_path_parse(tokens@, p as int) {
                Some((rest, e)) => Some((path@ + rest, e)),
                None => None,
            }),
        ensures
            pos <= p <= tokens@.len(),
            nbt_path_parse(tokens@, pos as int) == (match nbt_path_parse(tokens@, p as int) {
                Some((rest, e)) => Some((path@ + rest, e)),
                None => None,
            }),
            nbt_path_parse(tokens@, p as int) == Some((Seq::<NbtPathPart>::empty(), p as int)),
        decreases tokens@.len() - p,
    {
        let ghost p0 = p as int;
        let ghost path0 = path@;
        match &tokens[p] {
            Token::Dot => {
                if p + 1 < tokens.len() {
                    if let Token::Identifier(id) = &tokens[p + 1] {
                        path.push(NbtPathPart::Ident(id.clone()));
                        p = p + 2;
                        proof {
                            match nbt_path_parse(tokens@, p as int) {
                                Some((rest, e)) => {
                                    assert(path0 + (seq![NbtPathPart::Ident(*id)] + rest) =~= path@ + rest);
                                },
                                None => {},
                            }
                        }
                    } else {
                        return Err(got_message("Expected identifier after `.` in NBT path; got `", tokens, p + 1));
                    }
                } else {
                    return Err(got_message("Expected identifier after `.` in NBT path; got `", tokens, p + 1));
                }
            },
            Token::LSquare => {
                if p + 1 < tokens.len() {
                    match &tokens[p + 1] {
                        Token::Integer(n) => {
                            if *n < 0 {
                                return Err(got_message("Expected number after `.` in NBT path; got `", tokens, p + 1));
                            }
                            path.push(NbtPathPart::Index(*n as u32));
                            if p + 2 < tokens.len() {
                                if let Token::RSquare = &tokens[p + 2] {
                                    p = p + 3;
                                    proof {
                                        match nbt_path_parse(tokens@, p as int) {
                                            Some((rest, e)) => {
                                                assert(path0 + (seq![NbtPathPart::Index(*n as u32)] + rest) =~= path@ + rest);
                                            },
                                            None => {},
                                        }
                                    }
                                } else {
                                    return Err(bracket_message(*n));
                                }
                            } else {
                                return Err(bracket_message(*n));
                            }
                        },
                        _ => return Err(got_message("Expected number after `.` in NBT path; got `", tokens, p + 1)),
                    }
                } else {
                    return Err(got_message("Expected number after `.` in NBT path; got `", tokens, p + 1));
                }
            },
            _ => break,
        }
    }
    assert(path@ + Seq::<NbtPathPart>::empty() =~= path@);
    Ok((path, p))
}

/// A number after `~` or `^`: an integer, a decimal, a negated one, or zero when none
/// follows.
fn extract_float(tokens: &Vec<Token>, pos: usize) -> (r: Result<(crate::decimal::Decimal, usize), String>)
    requires
        pos >= 1,
        pos <= tokens@.len(),
    ensures
        r matches Ok((_, p)) ==> pos <= p <= tokens@.len(),
        pos < tokens@.len() ==> (tokens@[pos as int] matches Token::Integer(n) ==> (r matches Ok((d, p)) && p == pos + 1
            && d.spec_mantissa() == n && d.spec_scale() == 0)),
        pos < tokens@.len() ==> (tokens@[pos as int] matches Token::Float(f) ==> (r matches Ok((d, p)) && p == pos + 1
            && d == f)),
        pos < tokens@.len() ==> (tokens@[pos as int] is Tack ==> (if pos + 1 < tokens@.len() && tokens@[pos + 1] is Integer {
            r matches Ok((d, p)) && p == pos + 2 && d.spec_mantissa() == -(tokens@[pos + 1]->Integer_0) && d.spec_scale() == 0
        } else if pos + 1 < tokens@.len() && tokens@[pos + 1] is Float {
            r matches Ok((d, p)) && p == pos + 2 && d.spec_mantissa() == -(tokens@[pos + 1]->Float_0.spec_mantissa())
                && d.spec_scale() == tokens@[pos + 1]->Float_0.spec_scale()
        } else {
            r matches Err(e) && e@ == got_text("Expected int or float after `-`; got `"@, tokens@, pos + 1)
        })),
        (pos >= tokens@.len() || !(tokens@[pos as int] is Integer || tokens@[pos as int] is Float || tokens@[pos as int] is Tack))
            ==> (r matches Ok((d, p)) && p == pos && d.spec_mantissa() == 0 && d.spec_scale() == 0),
{
    if pos < tokens.len() {
        match &tokens[pos] {
            Token::Integer(n) => return Ok((crate::decimal::Decimal::from_int(*n), pos + 1)),
            Token::Float(d) => return Ok((*d, pos + 1)),
            Token::Tack => {
                if pos + 1 < tokens.len() {
                    match &tokens[pos + 1] {
                        Token::Integer(n) => return Ok((crate::decimal::Decimal::from_int(*n).negate(), pos + 2)),
                        Token::Float(d) => return Ok((d.negate(), pos + 2)),
                        _ => {},
                    }
                }
                return Err(got_message("Expected int or float after `-`; got `", tokens, pos + 1));
            },
            _ => {},
        }
    }
    Ok((crate::decimal::Decimal::from_int(0), pos))
}

/// The statements of a block from `p` on, when each is an operator chain: separators are
/// skipped, and the block ends at its closing bracket (after it) or at the end of the
/// tokens.
pub open spec fn chain_items(tokens: Seq<Token>, p: int, kind: u8) -> Option<(Seq<Syntax>, int)>
    decreases tokens.len() - p,
{
    if p < 0 {
        None
    } else if p >= tokens.len() {
        Some((seq![], p))
    } else if spec_closing(tokens[p], kind) {
        Some((seq![], p + 1))
    } else if tokens[p] is Comma || tokens[p] is SemiColon {
        chain_items(tokens, p + 1, kind)
    } else if operator_chain(tokens, p) {
        let (s, q) = climb(tokens, p, 0);
        if p < q <= tokens.len() {
            match chain_items(tokens, q, kind) {
                Some((rest, e)) => Some((seq![s] + rest, e)),
                None => None,
            }
        } else {
            None
        }
    } else {
        None
    }
}

/// The value of a block with these statements: an object where every statement is a
/// `name: value` pair, else an array of them.
pub open spec fn block_value(items: Seq<Syntax>, s: Syntax) -> bool {
    &&& (forall|i: int| 0 <= i < items.len() ==> is_pair(#[trigger] items[i])) ==> (s matches Syntax::Object(m) && m@ == pairs_map(
        items,
    ))
    &&& !(forall|i: int| 0 <= i < items.len() ==> is_pair(#[trigger] items[i])) ==> (s matches Syntax::Array(a) && a@ == items)
}

/// A bracketed block opens at `pos` whose statements are operator chains (see
/// `block_chains`), and is not empty.
pub open spec fn chain_block_at(tokens: Seq<Token>, pos: int) -> Option<(Seq<Syntax>, int)> {
    if 0 <= pos < tokens.len() && bracket_kind(tokens[pos]) is Some && !(pos + 1 < tokens.len() && spec_closing(
        tokens[pos + 1],
        bracket_kind(tokens[pos])->0,
    )) {
        block_chains(tokens, pos + 1, bracket_kind(tokens[pos])->0)
    } else {
        None
    }
}

/// The kind of block an opening bracket starts: `{` 0, `[` 1, `(` 2.
pub open spec fn bracket_kind(t: Token) -> Option<u8> {
    match t {
        Token::LCurly => Some(0),
        Token::LSquare => Some(1),
        Token::LParen => Some(2),
        _ => None,
    }
}

/// As far as the grammar fixes it, `s` is the expression that starts at `p` and ends at
/// `q`: an operator chain, or a bracketed block of them that no operator follows.
pub open spec fn expr_at(tokens: Seq<Token>, p: int, s: Syntax, q: int) -> bool {
    &&& operator_chain(tokens, p) ==> s == climb(tokens, p, 0).0 && q == climb(tokens, p, 0).1
    &&& chain_block_at(tokens, p) matches Some((items, e)) ==> (chain_end(tokens, e) ==> q == e && block_value(items, s))
}

/// `s` is a block of type `bt` whose header is the expression that starts at `p` and whose
/// body is the expression that follows it and ends at `e`.
pub open spec fn block_parsed(s: Syntax, bt: BlockType, tokens: Seq<Token>, p: int, e: int) -> bool {
    match s {
        Syntax::Block(b, l, body) => b == bt && exists|q: int| #[trigger] expr_at(tokens, p, *l, q) && expr_at(tokens, q, *body, e),
        _ => false,
    }
}

/// No binary operator follows at `e`.
pub open spec fn chain_end(tokens: Seq<Token>, e: int) -> bool {
    e == tokens.len() || (0 <= e < tokens.len() && level_of(tokens[e]) == 5)
}

/// The statements of a block whose first statement starts at `pos`.
pub open spec fn block_chains(tokens: Seq<Token>, pos: int, kind: u8) -> Option<(Seq<Syntax>, int)> {
    if operator_chain(tokens, pos) {
        let (s, q) = climb(tokens, pos, 0);
        if pos < q {
            match chain_items(tokens, q, kind) {
                Some((rest, e)) => Some((seq![s] + rest, e)),
                None => None,
            }
        } else {
            None
        }
    } else {
        None
    }
}

/// Parses the statements of a block up to its closing bracket (`kind` 0: `}`, 1: `]`,
/// 2: `)`), separated by `,`, `;` or nothing. When every statement is `name: value` the
/// block is an object; otherwise it is a list. An empty `{}` or `()` is the unit value,
/// `[]` an empty list.
pub fn parse_block(tokens: &Vec<Token>, pos: usize, kind: u8) -> (r: Result<(Syntax, usize), String>)
    requires
        pos >= 1,
    ensures
        r matches Ok((_, p)) ==> pos <= p <= tokens@.len(),
        r matches Ok((s, _)) ==> (s is Array || s is Object || s is Unit),
        pos < tokens@.len() && spec_closing(tokens@[pos as int], kind) ==> (r matches Ok((s, q)) && q == pos + 1 && (if kind
            == 1 {
            s matches Syntax::Array(a) && a@.len() == 0
        } else {
            s == Syntax::Unit
        })),
        pos > tokens@.len() ==> r is Err,
        !(pos < tokens@.len() && spec_closing(tokens@[pos as int], kind)) ==> (block_chains(tokens@, pos as int, kind) matches Some(
            (items, e),
        ) ==> (r matches Ok((s, q)) && q == e && block_value(items, s))),
    decreases tokens@.len() - pos, 20nat,
{
    if pos > tokens.len() {
        return Err(unexpected(tokens, pos));
    }
    if pos < tokens.len() && is_closing(&tokens[pos], kind) {
        let empty = if kind == 1 {
            Syntax::Array(Vec::new())
        } else {
            Syntax::Unit
        };
        return Ok((empty, pos + 1));
    }
    let mut statements: Vec<Syntax> = Vec::new();
    let (first, mut p) = match parse_expr(tokens, pos, 0) {
        Ok(v) => v,
        Err(e) => return Err(e),
    };
    proof {
        if block_chains(tokens@, pos as int, kind) is Some {
            assert(seq![first] + (chain_items(tokens@, p as int, kind)->0).0 == (block_chains(tokens@, pos as int, kind)->0).0);
        }
    }
    statements.push(first);
    let ghost target = block_chains(tokens@, pos as int, kind);
    while p < tokens.len()
        invariant_except_break
            pos < p <= tokens@.len(),
            !(pos < tokens@.len() && spec_closing(tokens@[pos as int], kind)),
            target == block_chains(tokens@, pos as int, kind),
            target is Some ==> (chain_items(tokens@, p as int, kind) matches Some((rest, e)) && statements@ + rest == (target->0).0
                && e == (target->0).1),
        ensures
            pos < p <= tokens@.len(),
            target == block_chains(tokens@, pos as int, kind),
            target is Some ==> statements@ == (target->0).0 && p == (target->0).1,
        decreases tokens@.len() - p,
    {
        if is_closing(&tokens[p], kind) {
            p = p + 1;
            proof {
                if target is Some {
                    assert(statements@ + seq![] =~= statements@);
                }
            }
            break;
        }
        match &tokens[p] {
            Token::Comma | Token::SemiColon => {
                p = p + 1;
            },
            _ => {
                let ghost s0 = statements@;
                proof {
                    if target is Some {
                        assert(!spec_closing(tokens@[p as int], kind));
                        assert(!(tokens@[p as int] is Comma || tokens@[p as int] is SemiColon));
                        assert(operator_chain(tokens@, p as int));
                    }
                }
                let (s, q) = match parse_expr(tokens, p, 0) {
                    Ok(v) => v,
                    Err(e) => return Err(e),
                };
                statements.push(s);
                proof {
                    if target is Some {
                        let rest = (chain_items(tokens@, q as int, kind)->0).0;
                        assert(s0 + (seq![s] + rest) =~= statements@ + rest);
                    }
                }
                p = q;
            },
        }
    }
    proof {
        if target is Some && p == tokens@.len() {
            assert(statements@ + seq![] =~= statements@);
        }
    }
    Ok((into_object_or_array(statements), p))
}

/// Whether `t` closes a block of the given kind.
pub open spec fn spec_closing(t: Token, kind: u8) -> bool {
    match t {
        Token::RCurly => kind == 0,
        Token::RSquare => kind == 1,
        Token::RParen => kind == 2,
        _ => false,
    }
}

/// Whether `t` closes a block of the given kind.
fn is_closing(t: &Token, kind: u8) -> (b: bool)
    ensures
        b == spec_closing(*t, kind),
{
    match t {
        Token::RCurly => kind == 0,
        Token::RSquare => kind == 1,
        Token::RParen => kind == 2,
        _ => false,
    }
}

/// A statement of the form `name: value`.
pub open spec fn is_pair(s: Syntax) -> bool {
    s matches Syntax::BinaryOp { lhs, operation: Operation::Colon, .. } && *lhs is Identifier
}

/// The map that a list of `name: value` statements gives, a later name winning.
pub open spec fn pairs_map(s: Seq<Syntax>) -> Map<Seq<char>, Syntax>
    decreases s.len(),
{
    if s.len() == 0 {
        Map::empty()
    } else {
        match s.last() {
            Syntax::BinaryOp { lhs, rhs, .. } => match *lhs {
                Syntax::Identifier(k) => pairs_map(s.drop_last()).insert(k@, *rhs),
                _ => pairs_map(s.drop_last()),
            },
            _ => pairs_map(s.drop_last()),
        }
    }
}

/// An object when every statement is `name: value`, a list otherwise.
fn into_object_or_array(statements: Vec<Syntax>) -> (r: Syntax)
    ensures
        (forall|i: int| 0 <= i < statements@.len() ==> is_pair(#[trigger] statements@[i])) ==> (r matches Syntax::Object(m)
            && m@ == pairs_map(statements@)),
        !(forall|i: int| 0 <= i < statements@.len() ==> is_pair(#[trigger] statements@[i])) ==> r == Syntax::Array(statements),
{
    let mut all_pairs = true;
    let mut i: usize = 0;
    while i < statements.len()
        invariant
            i <= statements@.len(),
            all_pairs == forall|j: int| 0 <= j < i ==> is_pair(#[trigger] statements@[j]),
        decreases statements.len() - i,
    {
        match &statements[i] {
            Syntax::BinaryOp { lhs, operation: Operation::Colon, rhs: _ } => {
                if let Syntax::Identifier(_) = &**lhs {
                } else {
                    all_pairs = false;
                }
            },
            _ => {
                all_pairs = false;
            },
        }
        i = i + 1;
    }
    if !all_pairs {
        return Syntax::Array(statements);
    }
    let ghost orig = statements@;
    let mut map: StrMap<Syntax> = StrMap::new();
    let mut statements = statements;
    assert(orig.subrange(0, 0) =~= Seq::<Syntax>::empty());
    while statements.len() > 0
        invariant
            statements@.len() <= orig.len(),
            statements@ == orig.subrange(orig.len() - statements@.len(), orig.len() as int),
            map@ == pairs_map(orig.subrange(0, orig.len() - statements@.len())),
        decreases statements.len(),
    {
        let ghost k = orig.len() - statements@.len();
        let s = statements.remove(0);
        proof {
            assert(s == orig[k]);
            assert(orig.subrange(0, k + 1).drop_last() =~= orig.subrange(0, k));
            assert(orig.subrange(0, k + 1).last() == orig[k]);
            assert(statements@ =~= orig.subrange(k + 1, orig.len() as int));
        }
        if let Syntax::BinaryOp { lhs, operation: _, rhs } = s {
            if let Syntax::Identifier(k) = *lhs {
                map.insert(k, *rhs);
            }
        }
    }
    assert(orig.subrange(0, orig.len() as int) =~= orig);
    Syntax::Object(map)
}

/// The selector type a letter after `@` names.
pub open spec fn selector_letter_type(id: Seq<char>) -> Option<SelectorType> {
    if id == "s"@ {
        Some(SelectorType::S)
    } else if id == "p"@ {
        Some(SelectorType::P)
    } else if id == "e"@ {
        Some(SelectorType::E)
    } else if id == "a"@ {
        Some(SelectorType::A)
    } else if id == "r"@ {
        Some(SelectorType::R)
    } else {
        None
    }
}

/// Parses what follows `@`: a selector like `@e[type=cow]`, or an annotation like
/// `@function "name"` with its body.
pub fn parse_annotation(tokens: &Vec<Token>, pos: usize) -> (r: Result<(Syntax, usize), String>)
    requires
        pos >= 1,
    ensures
        r matches Ok((_, p)) ==> pos <= p <= tokens@.len(),
        !(pos < tokens@.len() && tokens@[pos as int] is Identifier) ==> r is Err,
        pos < tokens@.len() ==> (tokens@[pos as int] matches Token::Identifier(id) ==> (selector_letter_type(id@) matches Some(st)
            ==> (r matches Ok((s, _)) ==> s matches Syntax::Selector(sel) && sel.selector_type == st))),
        pos < tokens@.len() ==> (tokens@[pos as int] matches Token::Identifier(id) ==> (selector_letter_type(id@) matches Some(st)
            ==> (!(pos + 1 < tokens@.len() && tokens@[pos + 1] is LSquare) ==> (r matches Ok((Syntax::Selector(sel), q))
            && sel.selector_type == st && sel.args@.len() == 0 && q == pos + 1)))),
        pos < tokens@.len() ==> (tokens@[pos as int] matches Token::Identifier(id) ==> (selector_letter_type(id@) is None ==> (
        r matches Ok((s, _)) ==> s matches Syntax::Annotation(n, _) && n@ == id@))),
    decreases tokens@.len() - pos, 20nat,
{
    if pos >= tokens.len() {
        return Err(owned("Expected identifier after `@`"));
    }
    let identifier = match &tokens[pos] {
        Token::Identifier(id) => id,
        _ => return Err(owned("Expected identifier after `@`")),
    };
    let p1 = pos + 1;
    let selector_type = if str_eq(identifier.as_str(), "s") {
        Some(SelectorType::S)
    } else if str_eq(identifier.as_str(), "p") {
        Some(SelectorType::P)
    } else if str_eq(identifier.as_str(), "e") {
        Some(SelectorType::E)
    } else if str_eq(identifier.as_str(), "a") {
        Some(SelectorType::A)
    } else if str_eq(identifier.as_str(), "r") {
        Some(SelectorType::R)
    } else {
        None
    };
    match selector_type {
        Some(st) => {
            let mut args: StrMap<Syntax> = StrMap::new();
            let mut p = p1;
            if p < tokens.len() {
                if let Token::LSquare = &tokens[p] {
                    p = p + 1;
                    while p < tokens.len()
                        invariant
                            p1 < p <= tokens@.len(),
                            p1 == pos + 1,
                            tokens@[p1 as int] is LSquare,
                        decreases tokens@.len() - p,
                    {
                        let tok = &tokens[p];
                        p = p + 1;
                        match tok {
                            Token::RSquare => break,
                            Token::Comma => {},
                            Token::Identifier(name) => {
                                if p < tokens.len() {
                                    if let Token::Equal = &tokens[p] {
                                    } else {
                                        return Err(owned("Expected `=` for selector property"));
                                    }
                                } else {
                                    return Err(owned("Expected `=` for selector property"));
                                }
                                let (value, q) = match parse_primary(tokens, p + 1) {
                                    Ok(v) => v,
                                    Err(e) => return Err(e),
                                };
                                args.insert(name.clone(), value);
                                p = q;
                            },
                            _ => {
                                let mut msg = owned("Expected a selector parameter; got `");
                                push_token_debug(&mut msg, tok);
                                msg.push('`');
                                return Err(msg);
                            },
                        }
                    }
                }
            }
            Ok((Syntax::Selector(Selector { selector_type: st, args }), p))
        },
        None => {
            let name = identifier.clone();
            let (body, q) = match parse_expr(tokens, p1, 0) {
                Ok(v) => v,
                Err(e) => return Err(e),
            };
            Ok((Syntax::Annotation(name, Box::new(body)), q))
        },
    }
}

} // verus!
