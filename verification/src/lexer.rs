//! Turns source text into tokens.
use vstd::prelude::*;
use crate::decimal::Decimal;
use crate::text::{chars_of, owned, string_from_chars};
use crate::token::Token;

verus! {

/// Letters, digits and `_` make up identifiers and numbers.
pub open spec fn is_word_char(c: char) -> bool {
    ('a' <= c && c <= 'z') || ('A' <= c && c <= 'Z') || ('0' <= c && c <= '9') || c == '_'
}

/// Unicode white space, as `char::is_whitespace` defines it.
pub open spec fn is_space(c: char) -> bool {
    c == '\t' || c == '\n' || c == '\u{0B}' || c == '\u{0C}' || c == '\r' || c == ' '
        || c == '\u{85}' || c == '\u{A0}' || c == '\u{1680}'
        || ('\u{2000}' <= c && c <= '\u{200A}')
        || c == '\u{2028}' || c == '\u{2029}' || c == '\u{202F}' || c == '\u{205F}' || c == '\u{3000}'
}

fn word_char(c: char) -> (b: bool)
    ensures
        b == is_word_char(c),
{
    ('a' <= c && c <= 'z') || ('A' <= c && c <= 'Z') || ('0' <= c && c <= '9') || c == '_'
}

fn space(c: char) -> (b: bool)
    ensures
        b == is_space(c),
{
    c == '\t' || c == '\n' || c == '\u{0B}' || c == '\u{0C}' || c == '\r' || c == ' '
        || c == '\u{85}' || c == '\u{A0}' || c == '\u{1680}'
        || ('\u{2000}' <= c && c <= '\u{200A}')
        || c == '\u{2028}' || c == '\u{2029}' || c == '\u{202F}' || c == '\u{205F}' || c == '\u{3000}'
}

/// The value of a string of ASCII digits, if it is one and fits in an `i32`.
pub open spec fn digits_value(s: Seq<char>) -> Option<int>
    decreases s.len(),
{
    if s.len() == 0 {
        None
    } else if !('0' <= s.last() && s.last() <= '9') {
        None
    } else {
        let d = (s.last() as int) - ('0' as int);
        let v = if s.len() == 1 {
            Some(d)
        } else {
            match digits_value(s.drop_last()) {
                Some(p) => Some(p * 10 + d),
                None => None,
            }
        };
        match v {
            Some(x) => if x <= 0x7fff_ffff { Some(x) } else { None },
            None => None,
        }
    }
}

/// Parses a string of ASCII digits as an `i32`, as `str::parse::<i32>` does for such
/// strings (anything else, or an overflow, gives `None`).
pub fn parse_digits(s: &[char]) -> (r: Option<i32>)
    ensures
        r matches Some(v) ==> digits_value(s@) == Some(v as int) && v >= 0,
        r is None ==> digits_value(s@) is None,
{
    if s.len() == 0 {
        return None;
    }
    let mut v: i64 = 0;
    let mut i: usize = 0;
    while i < s.len()
        invariant
            i <= s@.len(),
            s@.len() > 0,
            i == 0 ==> v == 0,
            i > 0 ==> digits_value(s@.subrange(0, i as int)) == Some(v as int),
            0 <= v <= 0x7fff_ffff,
        decreases s.len() - i,
    {
        let c = s[i];
        proof {
            let t = s@.subrange(0, i + 1);
            assert(t.drop_last() =~= s@.subrange(0, i as int));
            assert(t.last() == c);
        }
        if !('0' <= c && c <= '9') {
            proof {
                lemma_digits_none_extends(s@, i as int + 1);
            }
            return None;
        }
        let d = (c as u32 - '0' as u32) as i64;
        let nv = v * 10 + d;
        if nv > 0x7fff_ffff {
            proof {
                lemma_digits_none_extends(s@, i as int + 1);
            }
            return None;
        }
        v = nv;
        i = i + 1;
    }
    proof {
        assert(s@.subrange(0, s@.len() as int) =~= s@);
    }
    Some(v as i32)
}

/// Once a prefix fails to parse, longer prefixes fail too.
proof fn lemma_digits_none_extends(s: Seq<char>, n: int)
    requires
        1 <= n <= s.len(),
        digits_value(s.subrange(0, n)) is None,
    ensures
        digits_value(s) is None,
    decreases s.len() - n,
{
    if n < s.len() {
        let t = s.subrange(0, n + 1);
        assert(t.drop_last() =~= s.subrange(0, n));
        lemma_digits_none_extends(s, n + 1);
    } else {
        assert(s.subrange(0, n) =~= s);
    }
}


/// The character at `i`, if there is one.
pub open spec fn char_at(cs: Seq<char>, i: int) -> Option<char> {
    if 0 <= i < cs.len() { Some(cs[i]) } else { None }
}

/// The characters that start punctuation tokens.
pub open spec fn is_punct_start(c: char) -> bool {
    c == '{' || c == '}' || c == '(' || c == ')' || c == '[' || c == ']' || c == '@' || c == '=' || c == '+' || c == '-'
        || c == '*' || c == '/' || c == '%' || c == '!' || c == '<' || c == '>' || c == '.' || c == ':' || c == '?' || c
        == ';' || c == ',' || c == '^' || c == '~'
}

/// A token, or another when the next character is `n`.
pub open spec fn pick(cs: Seq<char>, p: int, n: char, long: Token, short: Token) -> (Token, int) {
    if char_at(cs, p) == Some(n) { (long, p + 1) } else { (short, p) }
}

/// The punctuation token at `pos` and the position after it; none when the punctuation is
/// malformed (`.+` without `=`, `?` without `=`).
pub open spec fn punct_token(cs: Seq<char>, pos: int) -> Option<(Token, int)> {
    let c = cs[pos];
    let p = pos + 1;
    let peek = char_at(cs, p);
    if c == '{' { Some((Token::LCurly, p)) }
    else if c == '}' { Some((Token::RCurly, p)) }
    else if c == '(' { Some((Token::LParen, p)) }
    else if c == ')' { Some((Token::RParen, p)) }
    else if c == '[' { Some((Token::LSquare, p)) }
    else if c == ']' { Some((Token::RSquare, p)) }
    else if c == '@' { Some((Token::At, p)) }
    else if c == '=' { Some(pick(cs, p, '>', Token::FatArrow, Token::Equal)) }
    else if c == '+' {
        if peek == Some('=') { Some((Token::PlusEq, p + 1)) } else { Some(pick(cs, p, '+', Token::PlusPlus, Token::Plus)) }
    } else if c == '-' {
        if peek == Some('=') {
            Some((Token::TackEq, p + 1))
        } else if peek == Some('-') {
            Some((Token::TackTack, p + 1))
        } else {
            Some(pick(cs, p, '>', Token::Arrow, Token::Tack))
        }
    } else if c == '*' { Some(pick(cs, p, '=', Token::StarEq, Token::Star)) }
    else if c == '/' { Some(pick(cs, p, '=', Token::SlashEq, Token::Slash)) }
    else if c == '%' { Some(pick(cs, p, '=', Token::PercEq, Token::Percent)) }
    else if c == '!' { Some(pick(cs, p, '=', Token::BangEq, Token::Bang)) }
    else if c == '<' { Some(pick(cs, p, '=', Token::LCaretEq, Token::LCaret)) }
    else if c == '>' {
        if peek == Some('=') { Some((Token::RCaretEq, p + 1)) } else { Some(pick(cs, p, '<', Token::RLCaret, Token::RCaret)) }
    } else if c == '.' {
        if peek == Some('.') {
            Some((Token::DotDot, p + 1))
        } else if peek == Some('=') {
            Some((Token::DotEq, p + 1))
        } else if peek == Some('+') || peek == Some('-') || peek == Some('*') || peek == Some('/') {
            if char_at(cs, p + 1) == Some('=') {
                Some((if peek == Some('+') {
                    Token::DotPlusEq
                } else if peek == Some('-') {
                    Token::DotTackEq
                } else if peek == Some('*') {
                    Token::DotStarEq
                } else {
                    Token::DotSlashEq
                }, p + 2))
            } else {
                None
            }
        } else {
            Some((Token::Dot, p))
        }
    } else if c == ':' {
        if peek == Some(':') { Some((Token::DoubleColon, p + 1)) } else { Some(pick(cs, p, '=', Token::ColonEq, Token::Colon)) }
    } else if c == '?' {
        if peek == Some('=') { Some((Token::QuestionEq, p + 1)) } else { None }
    } else if c == ';' { Some((Token::SemiColon, p)) }
    else if c == ',' { Some((Token::Comma, p)) }
    else if c == '^' { Some((Token::UCaret, p)) }
    else if c == '~' { Some((Token::Woogly, p)) }
    else { None }
}

/// A string literal whose text starts at `i`: its text (a backslash keeps itself and the
/// next character) and the position after its closing quote, or the end of the source;
/// none when the source ends right after a backslash.
pub open spec fn string_lit(cs: Seq<char>, i: int) -> Option<(Seq<char>, int)>
    decreases cs.len() - i,
{
    if i < 0 || i >= cs.len() {
        Some((seq![], cs.len() as int))
    } else if cs[i] == '"' {
        Some((seq![], i + 1))
    } else if cs[i] == '\\' {
        if i + 1 < cs.len() {
            match string_lit(cs, i + 2) {
                Some((b, e)) => Some((seq!['\\', cs[i + 1]] + b, e)),
                None => None,
            }
        } else {
            None
        }
    } else {
        match string_lit(cs, i + 1) {
            Some((b, e)) => Some((seq![cs[i]] + b, e)),
            None => None,
        }
    }
}

/// The position after a comment whose text starts at `i`: just past the next line break,
/// or the end of the source.
pub open spec fn comment_end(cs: Seq<char>, i: int) -> int
    decreases cs.len() - i,
{
    if i < 0 || i >= cs.len() {
        cs.len() as int
    } else if cs[i] == '\n' {
        i + 1
    } else {
        comment_end(cs, i + 1)
    }
}

/// The end of the run of word characters that starts at `i`.
pub open spec fn word_end(cs: Seq<char>, i: int) -> int
    decreases cs.len() - i,
{
    if i < 0 || i >= cs.len() || !is_word_char(cs[i]) {
        i
    } else {
        word_end(cs, i + 1)
    }
}

/// The end of the run of ASCII digits that starts at `i`.
pub open spec fn digit_end(cs: Seq<char>, i: int) -> int
    decreases cs.len() - i,
{
    if i < 0 || i >= cs.len() || !('0' <= cs[i] && cs[i] <= '9') {
        i
    } else {
        digit_end(cs, i + 1)
    }
}

/// The value of a string of ASCII digits, however long.
pub open spec fn digits_num(s: Seq<char>) -> int
    decreases s.len(),
{
    if s.len() == 0 {
        0
    } else {
        digits_num(s.drop_last()) * 10 + (s.last() as int - '0' as int)
    }
}

/// `d` is `whole.digits`, cut to nine digits after the point.
pub open spec fn decimal_value(d: Decimal, whole: int, digits: Seq<char>) -> bool {
    let k: nat = if digits.len() < 9 { digits.len() } else { 9 };
    &&& d.spec_scale() <= k
    &&& d.spec_mantissa() * crate::decimal::pow10((k - d.spec_scale()) as nat) == whole * crate::decimal::pow10(k)
        + digits_num(digits.subrange(0, k as int))
}

/// The token a word (identifier or number) at `pos` makes, ending at `next`: an identifier
/// unless the word is a number; a number followed by `..` is a range, by `.` and digits a
/// decimal.
pub open spec fn word_step(cs: Seq<char>, pos: int, tok: Option<Token>, next: int) -> bool {
    let we = word_end(cs, pos);
    let w = cs.subrange(pos, we);
    match digits_value(w) {
        None => next == we && (tok matches Some(Token::Identifier(s)) && s@ == w),
        Some(whole) => if char_at(cs, we) == Some('.') {
            if char_at(cs, we + 1) == Some('.') {
                let de = digit_end(cs, we + 2);
                tok == Some(Token::Range(Some(whole as i32), match digits_value(cs.subrange(we + 2, de)) {
                    Some(v) => Some(v as i32),
                    None => None,
                })) && next == de
            } else {
                let de = digit_end(cs, we + 1);
                de > we + 1 && next == de && (tok matches Some(Token::Float(d)) && decimal_value(
                    d,
                    whole,
                    cs.subrange(we + 1, de),
                ))
            }
        } else {
            tok == Some(Token::Integer(whole as i32)) && next == we
        },
    }
}

/// One step of the lexer at `pos`: the token read there (none for white space and
/// comments) and where the next step starts.
pub open spec fn lex_step(cs: Seq<char>, pos: int, tok: Option<Token>, next: int) -> bool {
    let c = cs[pos];
    if is_punct_start(c) {
        punct_token(cs, pos) matches Some((t, n)) && tok == Some(t) && next == n
    } else if c == '"' {
        string_lit(cs, pos + 1) matches Some((body, e)) && (tok matches Some(Token::String(s)) && s@ == body) && next == e
    } else if c == '#' {
        tok is None && next == comment_end(cs, pos + 1)
    } else if is_space(c) {
        tok is None && next == pos + 1
    } else if is_word_char(c) {
        word_step(cs, pos, tok, next)
    } else {
        false
    }
}

/// The lexer fails at `pos`: malformed punctuation, a string that ends after a backslash,
/// a number followed by `.` and no digits, or a character that starts no token.
pub open spec fn lex_error(cs: Seq<char>, pos: int) -> bool {
    let c = cs[pos];
    if is_punct_start(c) {
        punct_token(cs, pos) is None
    } else if c == '"' {
        string_lit(cs, pos + 1) is None
    } else if c == '#' || is_space(c) {
        false
    } else if is_word_char(c) {
        let we = word_end(cs, pos);
        digits_value(cs.subrange(pos, we)) is Some && char_at(cs, we) == Some('.') && char_at(cs, we + 1) != Some('.')
            && digit_end(cs, we + 1) == we + 1
    } else {
        true
    }
}

/// The message of a lexer error at `pos`, where it is fixed: a character that starts no
/// token (`?` without `=` among them) is `Unexpected character: `<c>``, a string that
/// ends after a backslash is `Unexpected end of file`, a number followed by a single `.`
/// and no digit is `Expected number after `.``.
pub open spec fn lex_error_text(cs: Seq<char>, pos: int) -> Option<Seq<char>> {
    let c = cs[pos];
    if c == '?' && punct_token(cs, pos) is None {
        Some("Unexpected character: `?`"@)
    } else if c == '"' && string_lit(cs, pos + 1) is None {
        Some("Unexpected end of file"@)
    } else if !is_punct_start(c) && c != '"' && c != '#' && !is_space(c) && !is_word_char(c) {
        Some("Unexpected character: `"@ + seq![c] + "`"@)
    } else if !is_punct_start(c) && c != '"' && c != '#' && !is_space(c) && is_word_char(c) && lex_error(cs, pos) {
        Some("Expected number after `.`"@)
    } else {
        None
    }
}

/// The lexer, started at the beginning of `cs`, reaches `pos` having produced `ts`.
pub open spec fn lexed_upto(cs: Seq<char>, pos: int, ts: Seq<Token>) -> bool
    decreases pos,
{
    if pos <= 0 {
        pos == 0 && ts.len() == 0
    } else {
        exists|p: int, t: Option<Token>|
            0 <= p < pos && #[trigger] lex_step(cs, p, t, pos) && match t {
                Some(x) => ts.len() > 0 && ts.last() == x && lexed_upto(cs, p, ts.drop_last()),
                None => lexed_upto(cs, p, ts),
            }
    }
}

/// The token list with `t` added, if there is one.
pub open spec fn with_token(ts: Seq<Token>, t: Option<Token>) -> Seq<Token> {
    match t {
        Some(x) => ts.push(x),
        None => ts,
    }
}

/// One more step extends what the lexer has reached.
proof fn lemma_lexed_step(cs: Seq<char>, p: int, prev: Seq<Token>, t: Option<Token>, n: int)
    requires
        0 <= p < n,
        lexed_upto(cs, p, prev),
        lex_step(cs, p, t, n),
    ensures
        lexed_upto(cs, n, with_token(prev, t)),
{
    let ts = with_token(prev, t);
    match t {
        Some(x) => {
            assert(ts.drop_last() =~= prev);
        },
        None => {},
    }
    assert(lex_step(cs, p, t, n));
}

/// Splits source text into tokens. White space and `#` comments (to the end of the line)
/// separate tokens; any other character that starts no token is an error (see
/// `lex_step` and `lex_error`).
pub fn tokenize(source: &str) -> (r: Result<Vec<Token>, String>)
    ensures
        r matches Ok(ts) ==> lexed_upto(source@, source@.len() as int, ts@),
        r is Err ==> exists|p: int, ts: Seq<Token>| 0 <= p < source@.len() && #[trigger] lexed_upto(source@, p, ts)
            && lex_error(source@, p) && (lex_error_text(source@, p) matches Some(t) ==> r->Err_0@ == t),
{
    let chars = chars_of(source);
    let mut tokens: Vec<Token> = Vec::new();
    let mut pos: usize = 0;
    while pos < chars.len()
        invariant
            chars@ == source@,
            pos <= chars@.len(),
            lexed_upto(chars@, pos as int, tokens@),
        decreases chars.len() - pos,
    {
        match next_token(&chars, pos) {
            Ok((tok, next)) => {
                let ghost prev = tokens@;
                let ghost t = tok;
                if let Some(t) = tok {
                    tokens.push(t);
                }
                proof {
                    lemma_lexed_step(chars@, pos as int, prev, t, next as int);
                    assert(tokens@ == with_token(prev, t));
                }
                pos = next;
            },
            Err(e) => {
                proof {
                    assert(lexed_upto(source@, pos as int, tokens@) && lex_error(source@, pos as int));
                }
                let r: Result<Vec<Token>, String> = Err(e);
                proof {
                    assert(lex_error_text(source@, pos as int) matches Some(t) ==> r->Err_0@ == t);
                }
                return r;
            },
        }
    }
    Ok(tokens)
}

/// Reads the token that starts at `pos`, returning it (none for white space and
/// comments) and the position after it.
#[verifier::rlimit(50)]
#[verifier::loop_isolation(false)]
fn next_token(chars: &Vec<char>, pos: usize) -> (r: Result<(Option<Token>, usize), String>)
    requires
        pos < chars@.len(),
    ensures
        r matches Ok((_, next)) ==> pos < next <= chars@.len(),
        r matches Ok((t, next)) ==> lex_step(chars@, pos as int, t, next as int),
        r is Err ==> lex_error(chars@, pos as int),
        r matches Err(e) ==> (lex_error_text(chars@, pos as int) matches Some(t) ==> e@ == t),
{
    proof {
        reveal_strlit("Unexpected character: `?`");
        reveal_strlit("Unexpected character: `");
        reveal_strlit("`");
        reveal_strlit("Unexpected end of file");
    }
    let c = chars[pos];
    let n = chars.len();
    let p1 = pos + 1;
    let peek: char = if p1 < n { chars[p1] } else { '\0' };
    let has_peek = p1 < n;
    let tok = if c == '{' {
        (Token::LCurly, p1)
    } else if c == '}' {
        (Token::RCurly, p1)
    } else if c == '(' {
        (Token::LParen, p1)
    } else if c == ')' {
        (Token::RParen, p1)
    } else if c == '[' {
        (Token::LSquare, p1)
    } else if c == ']' {
        (Token::RSquare, p1)
    } else if c == '@' {
        (Token::At, p1)
    } else if c == '=' {
        if has_peek && peek == '>' { (Token::FatArrow, p1 + 1) } else { (Token::Equal, p1) }
    } else if c == '+' {
        if has_peek && peek == '=' {
            (Token::PlusEq, p1 + 1)
        } else if has_peek && peek == '+' {
            (Token::PlusPlus, p1 + 1)
        } else {
            (Token::Plus, p1)
        }
    } else if c == '-' {
        if has_peek && peek == '=' {
            (Token::TackEq, p1 + 1)
        } else if has_peek && peek == '-' {
            (Token::TackTack, p1 + 1)
        } else if has_peek && peek == '>' {
            (Token::Arrow, p1 + 1)
        } else {
            (Token::Tack, p1)
        }
    } else if c == '*' {
        if has_peek && peek == '=' { (Token::StarEq, p1 + 1) } else { (Token::Star, p1) }
    } else if c == '/' {
        if has_peek && peek == '=' { (Token::SlashEq, p1 + 1) } else { (Token::Slash, p1) }
    } else if c == '%' {
        if has_peek && peek == '=' { (Token::PercEq, p1 + 1) } else { (Token::Percent, p1) }
    } else if c == '!' {
        if has_peek && peek == '=' { (Token::BangEq, p1 + 1) } else { (Token::Bang, p1) }
    } else if c == '<' {
        if has_peek && peek == '=' { (Token::LCaretEq, p1 + 1) } else { (Token::LCaret, p1) }
    } else if c == '>' {
        if has_peek && peek == '=' {
            (Token::RCaretEq, p1 + 1)
        } else if has_peek && peek == '<' {
            (Token::RLCaret, p1 + 1)
        } else {
            (Token::RCaret, p1)
        }
    } else if c == '.' {
        if has_peek && peek == '.' {
            (Token::DotDot, p1 + 1)
        } else if has_peek && peek == '=' {
            (Token::DotEq, p1 + 1)
        } else if has_peek && (peek == '+' || peek == '-' || peek == '*' || peek == '/') {
            if p1 + 1 < n && chars[p1 + 1] == '=' {
                let t = if peek == '+' {
                    Token::DotPlusEq
                } else if peek == '-' {
                    Token::DotTackEq
                } else if peek == '*' {
                    Token::DotStarEq
                } else {
                    Token::DotSlashEq
                };
                (t, p1 + 2)
            } else {
                let mut msg = owned("Expected `=` after `.");
                msg.push(peek);
                msg.push('`');
                return Err(msg);
            }
        } else {
            (Token::Dot, p1)
        }
    } else if c == ':' {
        if has_peek && peek == ':' {
            (Token::DoubleColon, p1 + 1)
        } else if has_peek && peek == '=' {
            (Token::ColonEq, p1 + 1)
        } else {
            (Token::Colon, p1)
        }
    } else if c == '?' {
        if has_peek && peek == '=' {
            (Token::QuestionEq, p1 + 1)
        } else {
            return Err(owned("Unexpected character: `?`"));
        }
    } else if c == ';' {
        (Token::SemiColon, p1)
    } else if c == ',' {
        (Token::Comma, p1)
    } else if c == '^' {
        (Token::UCaret, p1)
    } else if c == '~' {
        (Token::Woogly, p1)
    } else if c == '"' {
        return read_string(chars, p1);
    } else if c == '#' {
        let mut i = p1;
        while i < n
            invariant
                p1 <= i <= n,
                p1 == pos + 1,
                n == chars@.len(),
                comment_end(chars@, p1 as int) == comment_end(chars@, i as int),
            decreases n - i,
        {
            if chars[i] == '\n' {
                return Ok((None, i + 1));
            }
            i = i + 1;
        }
        return Ok((None, n));
    } else if space(c) {
        return Ok((None, p1));
    } else if word_char(c) {
        return read_word(chars, pos);
    } else {
        let mut msg = owned("Unexpected character: `");
        msg.push(c);
        msg.push('`');
        return Err(msg);
    };
    Ok((Some(tok.0), tok.1))
}

/// `r` with `prefix` put before its text.
pub open spec fn after_prefix(prefix: Seq<char>, r: Option<(Seq<char>, int)>) -> Option<(Seq<char>, int)> {
    match r {
        Some((b, e)) => Some((prefix + b, e)),
        None => None,
    }
}

/// Reads a string literal whose opening quote is just before `start`. A backslash keeps
/// itself and the next character; the literal ends at the next quote or at the end of
/// the text.
fn read_string(chars: &Vec<char>, start: usize) -> (r: Result<(Option<Token>, usize), String>)
    requires
        0 < start <= chars@.len(),
    ensures
        r matches Ok((_, next)) ==> start <= next <= chars@.len(),
        r matches Ok((t, next)) ==> (string_lit(chars@, start as int) matches Some((b, e)) && next == e && (t matches Some(
            Token::String(s),
        ) && s@ == b)),
        r is Err ==> string_lit(chars@, start as int) is None,
        r matches Err(e) ==> e@ == "Unexpected end of file"@,
{
    let n = chars.len();
    let mut buf: Vec<char> = Vec::new();
    let mut i = start;
    while i < n
        invariant
            start <= i <= n,
            n == chars@.len(),
            string_lit(chars@, start as int) == after_prefix(buf@, string_lit(chars@, i as int)),
        decreases n - i,
    {
        let c = chars[i];
        i = i + 1;
        if c == '"' {
            return Ok((Some(Token::String(string_from_chars(buf.as_slice()))), i));
        }
        buf.push(c);
        if c == '\\' {
            if i < n {
                buf.push(chars[i]);
                i = i + 1;
            } else {
                return Err(owned("Unexpected end of file"));
            }
        }
    }
    Ok((Some(Token::String(string_from_chars(buf.as_slice()))), n))
}

/// Reads an identifier, an integer, a range like `1..5` or a decimal like `1.5` that
/// starts at `pos` (see `word_step`).
#[verifier::loop_isolation(false)]
fn read_word(chars: &Vec<char>, pos: usize) -> (r: Result<(Option<Token>, usize), String>)
    requires
        pos < chars@.len(),
        is_word_char(chars@[pos as int]),
    ensures
        r matches Ok((_, next)) ==> pos < next <= chars@.len(),
        r matches Ok((t, next)) ==> word_step(chars@, pos as int, t, next as int),
        r is Err ==> ({
            let we = word_end(chars@, pos as int);
            digits_value(chars@.subrange(pos as int, we)) is Some && char_at(chars@, we) == Some('.') && char_at(
                chars@,
                we + 1,
            ) != Some('.') && digit_end(chars@, we + 1) == we + 1
        }),
        r matches Err(e) ==> e@ == "Expected number after `.`"@,
{
    let ghost cs = chars@;
    let n = chars.len();
    let mut word: Vec<char> = Vec::new();
    let mut i = pos;
    while i < n && word_char(chars[i])
        invariant
            pos <= i <= n,
            n == chars@.len(),
            word@ == cs.subrange(pos as int, i as int),
            word_end(cs, pos as int) == word_end(cs, i as int),
        decreases n - i,
    {
        word.push(chars[i]);
        i = i + 1;
        assert(word@ =~= cs.subrange(pos as int, i as int));
    }
    assert(i > pos);
    let we = i;
    assert(word_end(cs, pos as int) == we);
    match parse_digits(word.as_slice()) {
        None => Ok((Some(Token::Identifier(string_from_chars(word.as_slice()))), i)),
        Some(whole) => {
            if i < n && chars[i] == '.' {
                i = i + 1;
                let doot = i < n && chars[i] == '.';
                if doot {
                    i = i + 1;
                }
                let d0 = i;
                let mut digits: Vec<char> = Vec::new();
                while i < n && '0' <= chars[i] && chars[i] <= '9'
                    invariant
                        d0 <= i <= n,
                        pos < d0,
                        n == chars@.len(),
                        digits@ == cs.subrange(d0 as int, i as int),
                        digit_end(cs, d0 as int) == digit_end(cs, i as int),
                        forall|k: int| 0 <= k < digits@.len() ==> '0' <= #[trigger] digits@[k] && digits@[k] <= '9',
                    decreases n - i,
                {
                    digits.push(chars[i]);
                    i = i + 1;
                    assert(digits@ =~= cs.subrange(d0 as int, i as int));
                }
                assert(digit_end(cs, d0 as int) == i);
                if doot {
                    Ok((Some(Token::Range(Some(whole), parse_digits(digits.as_slice()))), i))
                } else if digits.len() == 0 {
                    Err(owned("Expected number after `.`"))
                } else {
                    Ok((Some(Token::Float(decimal_of(whole, &digits))), i))
                }
            } else {
                Ok((Some(Token::Integer(whole)), i))
            }
        },
    }
}

/// The decimal `int.digits`, keeping at most nine digits after the point.
fn decimal_of(whole: i32, digits: &Vec<char>) -> (d: Decimal)
    requires
        whole >= 0,
        forall|k: int| 0 <= k < digits@.len() ==> '0' <= #[trigger] digits@[k] && digits@[k] <= '9',
    ensures
        decimal_value(d, whole as int, digits@),
{
    let mut m: i64 = whole as i64;
    let mut s: u32 = 0;
    let mut i: usize = 0;
    assert(digits@.subrange(0, 0) =~= Seq::<char>::empty());
    while i < digits.len() && s < 9
        invariant
            i <= digits@.len(),
            s == i,
            s <= 9,
            forall|k: int| 0 <= k < digits@.len() ==> '0' <= #[trigger] digits@[k] && digits@[k] <= '9',
            0 <= m < 0x8000_0000 * crate::decimal::pow10(s as nat),
            m == whole * crate::decimal::pow10(s as nat) + digits_num(digits@.subrange(0, i as int)),
        decreases digits.len() - i,
    {
        let d = (digits[i] as u32 - '0' as u32) as i64;
        proof {
            crate::decimal::lemma_pow10_bound(s as nat);
            assert(crate::decimal::pow10((s + 1) as nat) == 10 * crate::decimal::pow10(s as nat));
            assert(0 <= m * 10 + d < 0x8000_0000 * crate::decimal::pow10((s + 1) as nat)) by (nonlinear_arith)
                requires
                    0 <= m < 0x8000_0000 * crate::decimal::pow10(s as nat),
                    0 <= d <= 9,
                    crate::decimal::pow10((s + 1) as nat) == 10 * crate::decimal::pow10(s as nat);
            crate::decimal::lemma_pow10_le((s + 1) as nat, 9);
            reveal_with_fuel(crate::decimal::pow10, 10);
            assert(m * 10 + d < 0x8000_0000 * 1_000_000_000) by (nonlinear_arith)
                requires
                    m * 10 + d < 0x8000_0000 * crate::decimal::pow10((s + 1) as nat),
                    crate::decimal::pow10((s + 1) as nat) <= crate::decimal::pow10(9),
                    crate::decimal::pow10(9) == 1_000_000_000;
            let t = digits@.subrange(0, i + 1);
            assert(t.drop_last() =~= digits@.subrange(0, i as int));
            assert(t.last() == digits@[i as int]);
            assert(digits_num(t) == digits_num(digits@.subrange(0, i as int)) * 10 + d);
            assert(m * 10 + d == whole * crate::decimal::pow10((s + 1) as nat) + digits_num(t)) by (nonlinear_arith)
                requires
                    m == whole * crate::decimal::pow10(s as nat) + digits_num(digits@.subrange(0, i as int)),
                    crate::decimal::pow10((s + 1) as nat) == 10 * crate::decimal::pow10(s as nat),
                    digits_num(t) == digits_num(digits@.subrange(0, i as int)) * 10 + d;
        }
        m = m * 10 + d;
        s = s + 1;
        i = i + 1;
    }
    proof {
        crate::decimal::lemma_pow10_bound(s as nat);
    }
    Decimal::normalized(m, s)
}

} // verus!
