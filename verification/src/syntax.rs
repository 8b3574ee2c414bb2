//! The syntax tree: selectors, operations, block kinds and the tree itself.
use vstd::prelude::*;
use crate::decimal::Decimal;
use crate::strmap::StrMap;
use crate::text::{nat_text, push_nat, str_eq};
use crate::dup::Duplicate;

verus! {

/// One step of an NBT path: a named field or a list index.
#[derive(Debug, Clone, PartialEq)]
pub enum NbtPathPart {
    Ident(String),
    Index(u32),
}

impl DeepView for NbtPathPart {
    type V = NbtPathPart;

    open spec fn deep_view(&self) -> NbtPathPart {
        *self
    }
}

impl crate::dup::Duplicate for NbtPathPart {
    fn duplicate(&self) -> (r: Self) {
        match self {
            NbtPathPart::Ident(s) => NbtPathPart::Ident(s.clone()),
            NbtPathPart::Index(i) => NbtPathPart::Index(*i),
        }
    }
}

/// The text of one path step after the first: `.name` or `[index]`.
pub open spec fn path_part_text(p: NbtPathPart) -> Seq<char> {
    match p {
        NbtPathPart::Ident(id) => seq!['.'] + id@,
        NbtPathPart::Index(i) => seq!['['] + nat_text(i as nat) + seq![']'],
    }
}

/// The text of the steps `s[from..]`.
pub open spec fn path_rest_text(s: Seq<NbtPathPart>, from: int) -> Seq<char>
    decreases s.len() - from,
{
    if from >= s.len() || from < 0 {
        seq![]
    } else {
        path_part_text(s[from]) + path_rest_text(s, from + 1)
    }
}

/// An NBT path usable in commands: it starts with a name.
pub open spec fn path_ok(s: Seq<NbtPathPart>) -> bool {
    s.len() > 0 && s[0] is Ident
}

/// The text of an NBT path, like `Inventory[0].tag`.
pub open spec fn nbt_path_text(s: Seq<NbtPathPart>) -> Seq<char> {
    match s[0] {
        NbtPathPart::Ident(id) => id@ + path_rest_text(s, 1),
        NbtPathPart::Index(_) => seq![],
    }
}

/// The text `path_rest_text(s, from)` is `path_rest_text(s, from + 1)` after one more step.
proof fn lemma_path_rest_split(s: Seq<NbtPathPart>, from: int, to: int)
    requires
        0 <= from <= to < s.len(),
    ensures
        path_rest_text(s, from) == path_rest_text(s.subrange(0, to + 1), from) + path_rest_text(s, to + 1),
        path_rest_text(s.subrange(0, to + 1), from) == path_rest_text(s.subrange(0, to), from) + path_part_text(s[to]),
    decreases to - from,
{
    let t1 = s.subrange(0, to + 1);
    let t0 = s.subrange(0, to);
    if from < to {
        lemma_path_rest_split(s, from + 1, to);
        assert(t1[from] == s[from]);
        assert(t0[from] == s[from]);
        assert(path_rest_text(t1, from) == path_part_text(s[from]) + path_rest_text(t1, from + 1));
        assert(path_rest_text(t0, from) == path_part_text(s[from]) + path_rest_text(t0, from + 1));
        assert(path_rest_text(s, from) =~= path_rest_text(t1, from) + path_rest_text(s, to + 1));
        assert(path_rest_text(t1, from) =~= path_rest_text(t0, from) + path_part_text(s[to]));
    } else {
        assert(path_rest_text(t1, to + 1) == Seq::<char>::empty());
        assert(path_rest_text(t0, to) == Seq::<char>::empty());
        assert(t1[to] == s[to]);
        assert(path_rest_text(t1, from) =~= path_part_text(s[to]));
        assert(path_rest_text(s, from) =~= path_rest_text(t1, from) + path_rest_text(s, to + 1));
        assert(path_rest_text(t1, from) =~= path_rest_text(t0, from) + path_part_text(s[to]));
    }
}

/// Renders an NBT path that starts with a name, like `Inventory[0].tag`.
pub fn fmt_nbt_path(path: &[NbtPathPart]) -> (r: String)
    requires
        path_ok(path@),
    ensures
        r@ == nbt_path_text(path@),
{
    let mut ret_buf = String::new();
    match &path[0] {
        NbtPathPart::Ident(id) => ret_buf.append(id.as_str()),
        NbtPathPart::Index(_) => {},
    }
    let ghost first = ret_buf@;
    let mut i: usize = 1;
    proof {
        assert(path_rest_text(path@.subrange(0, 1), 1) == Seq::<char>::empty());
        assert(ret_buf@ =~= first + path_rest_text(path@.subrange(0, 1), 1));
    }
    while i < path.len()
        invariant
            1 <= i <= path@.len(),
            path_ok(path@),
            first == nbt_path_text(path@).subrange(0, first.len() as int),
            first + path_rest_text(path@, 1) == nbt_path_text(path@),
            ret_buf@ == first + path_rest_text(path@.subrange(0, i as int), 1),
        decreases path.len() - i,
    {
        proof {
            lemma_path_rest_split(path@, 1, i as int);
        }
        match &path[i] {
            NbtPathPart::Ident(ident) => {
                ret_buf.push('.');
                ret_buf.append(ident.as_str());
            },
            NbtPathPart::Index(idx) => {
                ret_buf.push('[');
                push_nat(&mut ret_buf, *idx as u64);
                ret_buf.push(']');
            },
        }
        proof {
            assert(ret_buf@ =~= first + path_rest_text(path@.subrange(0, i + 1), 1));
        }
        i = i + 1;
    }
    proof {
        assert(path@.subrange(0, path@.len() as int) =~= path@);
    }
    ret_buf
}

/// Which entities a selector starts from.
#[derive(Debug, Clone, Copy, PartialEq, Eq, Structural)]
pub enum SelectorType {
    /// self
    S,
    /// nearest player
    P,
    /// all entities
    E,
    /// all players
    A,
    /// random player
    R,
}

impl SelectorType {
    /// The letter after `@`.
    pub open spec fn spec_letter(self) -> char {
        match self {
            SelectorType::S => 's',
            SelectorType::P => 'p',
            SelectorType::E => 'e',
            SelectorType::A => 'a',
            SelectorType::R => 'r',
        }
    }

    /// The letter after `@`.
    pub fn letter(&self) -> (c: char)
        ensures
            c == self.spec_letter(),
    {
        match self {
            SelectorType::S => 's',
            SelectorType::P => 'p',
            SelectorType::E => 'e',
            SelectorType::A => 'a',
            SelectorType::R => 'r',
        }
    }
}

/// A target selector such as `@e[type=cow]`, with arguments sorted by name.
#[derive(Debug, PartialEq)]
pub struct Selector<T> {
    pub selector_type: SelectorType,
    pub args: StrMap<T>,
}

impl<T> Selector<T> {
    /// A selector of the given type with no arguments.
    pub fn of_type(selector_type: SelectorType) -> (r: Self)
        ensures
            r.selector_type == selector_type,
            r.args@ == Map::<Seq<char>, T>::empty(),
            r.args.seq().len() == 0,
    {
        Selector { selector_type, args: StrMap::new() }
    }

    /// `@s` with no arguments.
    pub fn s() -> (r: Self)
        ensures
            r.selector_type == SelectorType::S,
            r.args.seq().len() == 0,
    {
        Self::of_type(SelectorType::S)
    }

    /// `@p` with no arguments.
    pub fn p() -> (r: Self)
        ensures
            r.selector_type == SelectorType::P,
            r.args.seq().len() == 0,
    {
        Self::of_type(SelectorType::P)
    }

    /// `@e` with no arguments.
    pub fn e() -> (r: Self)
        ensures
            r.selector_type == SelectorType::E,
            r.args.seq().len() == 0,
    {
        Self::of_type(SelectorType::E)
    }

    /// `@a` with no arguments.
    pub fn a() -> (r: Self)
        ensures
            r.selector_type == SelectorType::A,
            r.args.seq().len() == 0,
    {
        Self::of_type(SelectorType::A)
    }

    /// `@r` with no arguments.
    pub fn r() -> (r: Self)
        ensures
            r.selector_type == SelectorType::R,
            r.args.seq().len() == 0,
    {
        Self::of_type(SelectorType::R)
    }

    /// The selector with argument `k` set to `v`.
    pub fn with_property(self, k: String, v: T) -> (r: Self)
        ensures
            r.selector_type == self.selector_type,
            r.args@ == self.args@.insert(k@, v),
    {
        let mut sel = self;
        sel.args.insert(k, v);
        sel
    }
}

impl<T: DeepView> DeepView for Selector<T> {
    type V = (SelectorType, Seq<(Seq<char>, T::V)>);

    open spec fn deep_view(&self) -> Self::V {
        (self.selector_type, self.args.deep_view())
    }
}

impl<T: crate::dup::Duplicate> crate::dup::Duplicate for Selector<T> {
    fn duplicate(&self) -> (r: Self) {
        Selector { selector_type: self.selector_type, args: self.args.duplicate() }
    }
}

/// The text `k=v, k=v, ...` of the arguments from position `from` on.
pub open spec fn args_text(s: Seq<(String, String)>, from: int) -> Seq<char>
    decreases s.len() - from,
{
    if from < 0 || from >= s.len() {
        seq![]
    } else {
        (if from > 0 { seq![',', ' '] } else { seq![] }) + s[from].0@ + seq!['='] + s[from].1@
            + args_text(s, from + 1)
    }
}

/// The text of a selector with string arguments: `@e` or `@e[type=cow, tag=x]`.
pub open spec fn selector_text(sel: Selector<String>) -> Seq<char> {
    seq!['@', sel.selector_type.spec_letter()] + if sel.args.seq().len() == 0 {
        seq![]
    } else {
        seq!['['] + args_text(sel.args.seq(), 0) + seq![']']
    }
}

proof fn lemma_args_split(s: Seq<(String, String)>, from: int, to: int)
    requires
        0 <= from <= to < s.len(),
    ensures
        args_text(s.subrange(0, to + 1), from) == args_text(s.subrange(0, to), from) + (if to > 0 { seq![',', ' '] } else { seq![] }) + s[to].0@ + seq!['='] + s[to].1@,
    decreases to - from,
{
    let t1 = s.subrange(0, to + 1);
    let t0 = s.subrange(0, to);
    if from < to {
        lemma_args_split(s, from + 1, to);
        assert(t1[from] == s[from]);
        assert(t0[from] == s[from]);
        assert(args_text(t1, from) =~= args_text(t0, from) + (if to > 0 { seq![',', ' '] } else { seq![] }) + s[to].0@ + seq!['='] + s[to].1@);
    } else {
        assert(t1[to] == s[to]);
        assert(args_text(t1, to + 1) == Seq::<char>::empty());
        assert(args_text(t0, to) == Seq::<char>::empty());
        assert(args_text(t1, from) =~= args_text(t0, from) + (if to > 0 { seq![',', ' '] } else { seq![] }) + s[to].0@ + seq!['='] + s[to].1@);
    }
}

impl Selector<String> {
    /// The selector as it appears in a command, e.g. `@e[type=cow]`.
    pub fn to_text(&self) -> (r: String)
        ensures
            r@ == selector_text(*self),
    {
        let mut out = String::new();
        out.push('@');
        out.push(self.selector_type.letter());
        let n = self.args.len();
        if n > 0 {
            out.push('[');
            let ghost pre = out@;
            let mut i: usize = 0;
            proof {
                assert(args_text(self.args.seq().subrange(0, 0), 0) == Seq::<char>::empty());
                assert(out@ =~= pre + args_text(self.args.seq().subrange(0, 0), 0));
            }
            while i < n
                invariant
                    n == self.args.seq().len(),
                    i <= n,
                    out@ == pre + args_text(self.args.seq().subrange(0, i as int), 0),
                decreases n - i,
            {
                proof {
                    lemma_args_split(self.args.seq(), 0, i as int);
                }
                if i > 0 {
                    out.push(',');
                    out.push(' ');
                }
                out.append(self.args.key_at(i).as_str());
                out.push('=');
                out.append(self.args.value_at(i).as_str());
                proof {
                    assert(out@ =~= pre + args_text(self.args.seq().subrange(0, i + 1), 0));
                }
                i = i + 1;
            }
            proof {
                assert(self.args.seq().subrange(0, n as int) =~= self.args.seq());
            }
            out.push(']');
        }
        proof {
            assert(out@ =~= selector_text(*self));
        }
        out
    }
}

/// A binary operator of the language.
#[derive(Debug, Clone, Copy, PartialEq, Eq, Structural)]
pub enum Operation {
    /// key-value pair
    Colon,
    /// xp levels and points
    DoubleColon,
    /// unused
    Dot,
    /// check equality or assign value
    Equal,
    /// execute store result
    ColonEq,
    /// execute store success
    QuestionEq,
    /// less than
    LCaret,
    /// less than or equal
    LCaretEq,
    /// greater than
    RCaret,
    /// greater than or equal
    RCaretEq,
    /// not equal
    BangEq,
    /// add and assign
    AddEq,
    /// subtract and assign
    SubEq,
    /// multiply and assign
    MulEq,
    /// divide and assign
    DivEq,
    /// modulo and assign
    ModEq,
    /// swap values
    Swap,
    /// check if in range
    In,
    /// addition
    Add,
    /// subtraction
    Sub,
    /// multiplication
    Mul,
    /// division
    Div,
    /// assign a fixed-point number
    FixedEq,
    /// add a fixed-point number
    FixedAddEq,
    /// subtract a fixed-point number
    FixedSubEq,
    /// multiply by a fixed-point number
    FixedMulEq,
    /// divide by a fixed-point number
    FixedDivEq,
}

impl Operation {
    /// The operator as written.
    pub open spec fn spec_text(self) -> Seq<char> {
        match self {
            Operation::Colon => ":"@,
            Operation::DoubleColon => "::"@,
            Operation::Dot => "."@,
            Operation::Equal => "="@,
            Operation::ColonEq => ":="@,
            Operation::QuestionEq => "?="@,
            Operation::LCaretEq => "<="@,
            Operation::RCaretEq => ">="@,
            Operation::BangEq => "!="@,
            Operation::AddEq => "+="@,
            Operation::SubEq => "-="@,
            Operation::MulEq => "*="@,
            Operation::DivEq => "/="@,
            Operation::ModEq => "%="@,
            Operation::Swap => "><"@,
            Operation::LCaret => "<"@,
            Operation::RCaret => ">"@,
            Operation::In => "in"@,
            Operation::Add => "+"@,
            Operation::Sub => "-"@,
            Operation::Mul => "*"@,
            Operation::Div => "/"@,
            Operation::FixedEq => ".="@,
            Operation::FixedAddEq => ".+="@,
            Operation::FixedSubEq => ".-="@,
            Operation::FixedMulEq => ".*="@,
            Operation::FixedDivEq => "./="@,
        }
    }

    /// The operator as written.
    pub fn text(&self) -> (r: &'static str)
        ensures
            r@ == self.spec_text(),
    {
        match self {
            Operation::Colon => ":",
            Operation::DoubleColon => "::",
            Operation::Dot => ".",
            Operation::Equal => "=",
            Operation::ColonEq => ":=",
            Operation::QuestionEq => "?=",
            Operation::LCaretEq => "<=",
            Operation::RCaretEq => ">=",
            Operation::BangEq => "!=",
            Operation::AddEq => "+=",
            Operation::SubEq => "-=",
            Operation::MulEq => "*=",
            Operation::DivEq => "/=",
            Operation::ModEq => "%=",
            Operation::Swap => "><",
            Operation::LCaret => "<",
            Operation::RCaret => ">",
            Operation::In => "in",
            Operation::Add => "+",
            Operation::Sub => "-",
            Operation::Mul => "*",
            Operation::Div => "/",
            Operation::FixedEq => ".=",
            Operation::FixedAddEq => ".+=",
            Operation::FixedSubEq => ".-=",
            Operation::FixedMulEq => ".*=",
            Operation::FixedDivEq => "./=",
        }
    }
}

/// The kind of a block such as `if x = 1 { ... }` or `as @a { ... }`.
#[derive(Debug, Clone, Copy, PartialEq, Eq, Structural)]
pub enum BlockType {
    Advancement,
    Anchored,
    As,
    AsAt,
    Async,
    At,
    Case,
    Damage,
    Do,
    DoUntil,
    DoWhile,
    Facing,
    For,
    Function,
    If,
    On,
    Positioned,
    Rotated,
    Summon,
    Switch,
    Tellraw,
    Tp,
    Unless,
    Until,
    While,
}

impl BlockType {
    /// The block type an identifier names, in snake case; `tp` and `teleport` both name
    /// a teleport.
    pub open spec fn spec_named(s: Seq<char>) -> Option<BlockType> {
        if s == "advancement"@ { Some(BlockType::Advancement) }
        else if s == "anchored"@ { Some(BlockType::Anchored) }
        else if s == "as"@ { Some(BlockType::As) }
        else if s == "as_at"@ { Some(BlockType::AsAt) }
        else if s == "async"@ { Some(BlockType::Async) }
        else if s == "at"@ { Some(BlockType::At) }
        else if s == "case"@ { Some(BlockType::Case) }
        else if s == "damage"@ { Some(BlockType::Damage) }
        else if s == "do"@ { Some(BlockType::Do) }
        else if s == "do_until"@ { Some(BlockType::DoUntil) }
        else if s == "do_while"@ { Some(BlockType::DoWhile) }
        else if s == "facing"@ { Some(BlockType::Facing) }
        else if s == "for"@ { Some(BlockType::For) }
        else if s == "function"@ { Some(BlockType::Function) }
        else if s == "if"@ { Some(BlockType::If) }
        else if s == "on"@ { Some(BlockType::On) }
        else if s == "positioned"@ { Some(BlockType::Positioned) }
        else if s == "rotated"@ { Some(BlockType::Rotated) }
        else if s == "summon"@ { Some(BlockType::Summon) }
        else if s == "switch"@ { Some(BlockType::Switch) }
        else if s == "tellraw"@ { Some(BlockType::Tellraw) }
        else if s == "tp"@ || s == "teleport"@ { Some(BlockType::Tp) }
        else if s == "unless"@ { Some(BlockType::Unless) }
        else if s == "until"@ { Some(BlockType::Until) }
        else if s == "while"@ { Some(BlockType::While) }
        else { None }
    }

    /// The block type an identifier names (see `spec_named`).
    pub fn from_name(s: &str) -> (r: Option<BlockType>)
        ensures
            r == Self::spec_named(s@),
    {
        if str_eq(s, "advancement") { Some(BlockType::Advancement) }
        else if str_eq(s, "anchored") { Some(BlockType::Anchored) }
        else if str_eq(s, "as") { Some(BlockType::As) }
        else if str_eq(s, "as_at") { Some(BlockType::AsAt) }
        else if str_eq(s, "async") { Some(BlockType::Async) }
        else if str_eq(s, "at") { Some(BlockType::At) }
        else if str_eq(s, "case") { Some(BlockType::Case) }
        else if str_eq(s, "damage") { Some(BlockType::Damage) }
        else if str_eq(s, "do") { Some(BlockType::Do) }
        else if str_eq(s, "do_until") { Some(BlockType::DoUntil) }
        else if str_eq(s, "do_while") { Some(BlockType::DoWhile) }
        else if str_eq(s, "facing") { Some(BlockType::Facing) }
        else if str_eq(s, "for") { Some(BlockType::For) }
        else if str_eq(s, "function") { Some(BlockType::Function) }
        else if str_eq(s, "if") { Some(BlockType::If) }
        else if str_eq(s, "on") { Some(BlockType::On) }
        else if str_eq(s, "positioned") { Some(BlockType::Positioned) }
        else if str_eq(s, "rotated") { Some(BlockType::Rotated) }
        else if str_eq(s, "summon") { Some(BlockType::Summon) }
        else if str_eq(s, "switch") { Some(BlockType::Switch) }
        else if str_eq(s, "tellraw") { Some(BlockType::Tellraw) }
        else if str_eq(s, "tp") || str_eq(s, "teleport") { Some(BlockType::Tp) }
        else if str_eq(s, "unless") { Some(BlockType::Unless) }
        else if str_eq(s, "until") { Some(BlockType::Until) }
        else if str_eq(s, "while") { Some(BlockType::While) }
        else { None }
    }

    /// The lower-cased variant name, as the block type is displayed.
    pub open spec fn spec_text(self) -> Seq<char> {
        match self {
            BlockType::Advancement => "advancement"@,
            BlockType::Anchored => "anchored"@,
            BlockType::As => "as"@,
            BlockType::AsAt => "asat"@,
            BlockType::Async => "async"@,
            BlockType::At => "at"@,
            BlockType::Case => "case"@,
            BlockType::Damage => "damage"@,
            BlockType::Do => "do"@,
            BlockType::DoUntil => "dountil"@,
            BlockType::DoWhile => "dowhile"@,
            BlockType::Facing => "facing"@,
            BlockType::For => "for"@,
            BlockType::Function => "function"@,
            BlockType::If => "if"@,
            BlockType::On => "on"@,
            BlockType::Positioned => "positioned"@,
            BlockType::Rotated => "rotated"@,
            BlockType::Summon => "summon"@,
            BlockType::Switch => "switch"@,
            BlockType::Tellraw => "tellraw"@,
            BlockType::Tp => "tp"@,
            BlockType::Unless => "unless"@,
            BlockType::Until => "until"@,
            BlockType::While => "while"@,
        }
    }

    /// The variant name, as messages show a block kind.
    pub open spec fn spec_name(self) -> Seq<char> {
        match self {
            BlockType::Advancement => "Advancement"@,
            BlockType::Anchored => "Anchored"@,
            BlockType::As => "As"@,
            BlockType::AsAt => "AsAt"@,
            BlockType::Async => "Async"@,
            BlockType::At => "At"@,
            BlockType::Case => "Case"@,
            BlockType::Damage => "Damage"@,
            BlockType::Do => "Do"@,
            BlockType::DoUntil => "DoUntil"@,
            BlockType::DoWhile => "DoWhile"@,
            BlockType::Facing => "Facing"@,
            BlockType::For => "For"@,
            BlockType::Function => "Function"@,
            BlockType::If => "If"@,
            BlockType::On => "On"@,
            BlockType::Positioned => "Positioned"@,
            BlockType::Rotated => "Rotated"@,
            BlockType::Summon => "Summon"@,
            BlockType::Switch => "Switch"@,
            BlockType::Tellraw => "Tellraw"@,
            BlockType::Tp => "Tp"@,
            BlockType::Unless => "Unless"@,
            BlockType::Until => "Until"@,
            BlockType::While => "While"@,
        }
    }

    /// The variant name, as messages show a block kind.
    pub fn name(&self) -> (r: &'static str)
        ensures
            r@ == self.spec_name(),
    {
        match self {
            BlockType::Advancement => "Advancement",
            BlockType::Anchored => "Anchored",
            BlockType::As => "As",
            BlockType::AsAt => "AsAt",
            BlockType::Async => "Async",
            BlockType::At => "At",
            BlockType::Case => "Case",
            BlockType::Damage => "Damage",
            BlockType::Do => "Do",
            BlockType::DoUntil => "DoUntil",
            BlockType::DoWhile => "DoWhile",
            BlockType::Facing => "Facing",
            BlockType::For => "For",
            BlockType::Function => "Function",
            BlockType::If => "If",
            BlockType::On => "On",
            BlockType::Positioned => "Positioned",
            BlockType::Rotated => "Rotated",
            BlockType::Summon => "Summon",
            BlockType::Switch => "Switch",
            BlockType::Tellraw => "Tellraw",
            BlockType::Tp => "Tp",
            BlockType::Unless => "Unless",
            BlockType::Until => "Until",
            BlockType::While => "While",
        }
    }

    /// The lower-cased variant name.
    pub fn text(&self) -> (r: &'static str)
        ensures
            r@ == self.spec_text(),
    {
        match self {
            BlockType::Advancement => "advancement",
            BlockType::Anchored => "anchored",
            BlockType::As => "as",
            BlockType::AsAt => "asat",
            BlockType::Async => "async",
            BlockType::At => "at",
            BlockType::Case => "case",
            BlockType::Damage => "damage",
            BlockType::Do => "do",
            BlockType::DoUntil => "dountil",
            BlockType::DoWhile => "dowhile",
            BlockType::Facing => "facing",
            BlockType::For => "for",
            BlockType::Function => "function",
            BlockType::If => "if",
            BlockType::On => "on",
            BlockType::Positioned => "positioned",
            BlockType::Rotated => "rotated",
            BlockType::Summon => "summon",
            BlockType::Switch => "switch",
            BlockType::Tellraw => "tellraw",
            BlockType::Tp => "tp",
            BlockType::Unless => "unless",
            BlockType::Until => "until",
            BlockType::While => "while",
        }
    }
}

/// The syntax tree of a program.
#[derive(Debug, PartialEq)]
pub enum Syntax {
    /// A floating piece of text
    Identifier(String),
    /// An annotation invocation with the name and body of the annotation
    Annotation(String, Box<Syntax>),
    /// A list of key-value pairs
    Object(StrMap<Syntax>),
    /// A list of syntax elements
    Array(Vec<Syntax>),
    /// A selector
    Selector(Selector<Syntax>),
    /// A selector with a colon and a score name
    SelectorColon(Selector<Syntax>, String),
    /// A selector with a double colon and a special identifier
    SelectorDoubleColon(Selector<Syntax>, String),
    /// A selector with an nbt path in the form of `@s.Inventory[42].tag`
    SelectorNbt(Selector<Syntax>, Vec<NbtPathPart>),
    /// An identifier with an NBT path on the end
    NbtStorage(Vec<NbtPathPart>),
    /// A binary operation like x += 2
    BinaryOp { lhs: Box<Syntax>, operation: Operation, rhs: Box<Syntax> },
    /// A block of the form `positioned @s { ... }`
    Block(BlockType, Box<Syntax>, Box<Syntax>),
    /// A string literal
    String(String),
    /// An integer literal
    Integer(i32),
    /// A range literal
    Range(Option<i32>, Option<i32>),
    /// A coordinate starting with ~
    WooglyCoord(Decimal),
    /// A coordinate starting with ^
    CaretCoord(Decimal),
    /// A decimal literal
    Float(Decimal),
    /// An empty object
    Unit,
}

/// A place that holds data: a score, an entity's experience, or NBT.
#[derive(Debug, PartialEq)]
pub enum DataLocation {
    /// An imaginary player's dummy objective
    Ident(String),
    /// An imaginary player's specified objective
    Colon(String, String),
    /// A specified entity's dummy objective
    Selector(Selector<Syntax>),
    /// A specified entity's specified objective
    SelectorColon(Selector<Syntax>, String),
    /// A specified entity's special property
    SelectorDoubleColon(Selector<Syntax>, String),
    /// A specified entity with an NBT path
    SelectorNbt(Selector<Syntax>, Vec<NbtPathPart>),
    /// A storage space with an NBT path
    NbtStorage(Vec<NbtPathPart>),
}

impl DataLocation {
    /// The data location a syntax element denotes, if any: an identifier, `a:b`, or a
    /// selector form.
    pub open spec fn spec_from(syn: Syntax) -> Option<DataLocation> {
        match syn {
            Syntax::Identifier(ident) => Some(DataLocation::Ident(ident)),
            Syntax::BinaryOp { lhs, operation, rhs } => {
                match (*lhs, *rhs) {
                    (Syntax::Identifier(l), Syntax::Identifier(r)) => if operation == Operation::Equal {
                        Some(DataLocation::Colon(l, r))
                    } else {
                        None
                    },
                    _ => None,
                }
            },
            Syntax::Selector(sel) => Some(DataLocation::Selector(sel)),
            Syntax::SelectorColon(sel, ident) => Some(DataLocation::SelectorColon(sel, ident)),
            Syntax::SelectorDoubleColon(sel, ident) => Some(DataLocation::SelectorDoubleColon(sel, ident)),
            Syntax::SelectorNbt(sel, nbt) => Some(DataLocation::SelectorNbt(sel, nbt)),
            Syntax::NbtStorage(storage) => Some(DataLocation::NbtStorage(storage)),
            _ => None,
        }
    }

    /// The data location a syntax element denotes (see `spec_from`).
    pub fn try_from_syntax(value: Syntax) -> (r: Option<DataLocation>)
        ensures
            r == Self::spec_from(value),
    {
        match value {
            Syntax::Identifier(ident) => Some(DataLocation::Ident(ident)),
            Syntax::BinaryOp { lhs, operation, rhs } => {
                if operation == Operation::Equal {
                    match (*lhs, *rhs) {
                        (Syntax::Identifier(l), Syntax::Identifier(r)) => Some(DataLocation::Colon(l, r)),
                        _ => None,
                    }
                } else {
                    None
                }
            },
            Syntax::Selector(sel) => Some(DataLocation::Selector(sel)),
            Syntax::SelectorColon(sel, ident) => Some(DataLocation::SelectorColon(sel, ident)),
            Syntax::SelectorDoubleColon(sel, ident) => Some(DataLocation::SelectorDoubleColon(sel, ident)),
            Syntax::SelectorNbt(sel, nbt) => Some(DataLocation::SelectorNbt(sel, nbt)),
            Syntax::NbtStorage(storage) => Some(DataLocation::NbtStorage(storage)),
            _ => None,
        }
    }

    /// The syntax element a data location is written as.
    pub fn into_syntax(self) -> (r: Syntax)
        ensures
            Self::spec_from(r) == Some(self),
    {
        match self {
            DataLocation::Ident(id) => Syntax::Identifier(id),
            DataLocation::Colon(lhs, rhs) => Syntax::BinaryOp {
                lhs: Box::new(Syntax::Identifier(lhs)),
                operation: Operation::Equal,
                rhs: Box::new(Syntax::Identifier(rhs)),
            },
            DataLocation::Selector(sel) => Syntax::Selector(sel),
            DataLocation::SelectorColon(sel, id) => Syntax::SelectorColon(sel, id),
            DataLocation::SelectorDoubleColon(sel, id) => Syntax::SelectorDoubleColon(sel, id),
            DataLocation::SelectorNbt(sel, nbt) => Syntax::SelectorNbt(sel, nbt),
            DataLocation::NbtStorage(storage) => Syntax::NbtStorage(storage),
        }
    }
}

/// A copy of a selector with syntax arguments.
pub fn copy_selector(sel: &Selector<Syntax>) -> (r: Selector<Syntax>)
    ensures
        r.selector_type == sel.selector_type,
        crate::convert::selector_debug_text(r) == crate::convert::selector_debug_text(*sel),
    decreases sel, 0nat,
{
    let args = copy_map(&sel.args);
    proof {
        crate::convert::lemma_object_debug_same(args, sel.args, sel.args.seq().len() as int);
    }
    Selector { selector_type: sel.selector_type, args }
}

/// A path with the same deep view is the same path.
proof fn lemma_path_copy(p: Vec<NbtPathPart>, q: Vec<NbtPathPart>)
    requires
        q.deep_view() == p.deep_view(),
    ensures
        q@ == p@,
{
    assert(q.deep_view().len() == q@.len());
    assert(p.deep_view().len() == p@.len());
    assert forall|i: int| 0 <= i < p@.len() implies q@[i] == p@[i] by {
        assert(q.deep_view()[i] == q@[i].deep_view());
        assert(p.deep_view()[i] == p@[i].deep_view());
    }
    assert(q@ =~= p@);
}

/// A copy of a map of syntax elements.
#[verifier::loop_isolation(false)]
pub fn copy_map(m: &StrMap<Syntax>) -> (r: StrMap<Syntax>)
    ensures
        r@.dom() == m@.dom(),
        r.seq().len() == m.seq().len(),
        forall|j: int| 0 <= j < m.seq().len() ==> #[trigger] r.seq()[j].0@ == m.seq()[j].0@ && crate::convert::debug_text(
            r.seq()[j].1,
        ) == crate::convert::debug_text(m.seq()[j].1),
    decreases m, 0nat,
{
    m.facts();
    let mut out: StrMap<Syntax> = StrMap::new();
    let n = m.len();
    let mut i: usize = 0;
    while i < n
        invariant
            n == m.seq().len(),
            i <= n,
            crate::strmap::keys_sorted(m.seq()),
            out.seq().len() == i,
            forall|j: int| #![trigger out.seq()[j]] 0 <= j < i ==> out.seq()[j].0@ == m.seq()[j].0@ && crate::convert::debug_text(
                out.seq()[j].1,
            ) == crate::convert::debug_text(m.seq()[j].1),
        decreases n - i,
    {
        proof {
            crate::strmap::lemma_value_decreases(*m, i as int);
            assert forall|j: int| 0 <= j < out.seq().len() implies crate::strmap::str_lt(
                #[trigger] out.seq()[j].0@,
                m.seq()[i as int].0@,
            ) by {
                assert(crate::strmap::str_lt(m.seq()[j].0@, m.seq()[i as int].0@));
            }
        }
        let v = m.value_at(i).copy();
        let ghost prev = out.seq();
        let ghost i0 = i as int;
        out.insert(m.key_at(i).clone(), v);
        i = i + 1;
        proof {
            assert forall|j: int| #![trigger out.seq()[j]] 0 <= j < i implies out.seq()[j].0@ == m.seq()[j].0@
                && crate::convert::debug_text(out.seq()[j].1) == crate::convert::debug_text(m.seq()[j].1) by {
                if j < i0 {
                    assert(out.seq()[j] == prev[j]);
                } else {
                    assert(out.seq()[j].1 == v);
                }
            }
        }
    }
    out.facts();
    proof {
        out.lemma_keys_listed();
        m.lemma_keys_listed();
        assert forall|k: Seq<char>| #[trigger] out@.contains_key(k) == m@.contains_key(k) by {
            if out@.contains_key(k) {
                let j = choose|j: int| 0 <= j < out.seq().len() && #[trigger] out.seq()[j].0@ == k;
                crate::strmap::lemma_sorted_value(m.seq(), j);
            }
            if m@.contains_key(k) {
                let j = choose|j: int| 0 <= j < m.seq().len() && #[trigger] m.seq()[j].0@ == k;
                crate::strmap::lemma_sorted_value(out.seq(), j);
            }
        }
        assert(out@.dom() =~= m@.dom());
    }
    out
}

/// Which variant a syntax element is, as a number.
pub open spec fn kind(s: Syntax) -> int {
    match s {
        Syntax::Identifier(_) => 0,
        Syntax::Annotation(..) => 1,
        Syntax::Object(_) => 2,
        Syntax::Array(_) => 3,
        Syntax::Selector(_) => 4,
        Syntax::SelectorColon(..) => 5,
        Syntax::SelectorDoubleColon(..) => 6,
        Syntax::SelectorNbt(..) => 7,
        Syntax::NbtStorage(_) => 8,
        Syntax::BinaryOp { .. } => 9,
        Syntax::Block(..) => 10,
        Syntax::String(_) => 11,
        Syntax::Integer(_) => 12,
        Syntax::Range(..) => 13,
        Syntax::WooglyCoord(_) => 14,
        Syntax::CaretCoord(_) => 15,
        Syntax::Float(_) => 16,
        Syntax::Unit => 17,
    }
}

impl Syntax {
    /// A copy of the tree.
    #[verifier::loop_isolation(false)]
    pub fn copy(&self) -> (r: Syntax)
        ensures
            kind(r) == kind(*self),
            self matches Syntax::Identifier(s) ==> (r matches Syntax::Identifier(t) && t@ == s@),
            self matches Syntax::String(s) ==> (r matches Syntax::String(t) && t@ == s@),
            self is Integer || self is Range || self is Float || self is WooglyCoord || self is CaretCoord
                || self is Unit ==> r == *self,
            crate::convert::debug_text(r) == crate::convert::debug_text(*self),
        decreases self, 1nat,
    {
        match self {
            Syntax::Identifier(s) => Syntax::Identifier(s.clone()),
            Syntax::Annotation(n, b) => Syntax::Annotation(n.clone(), Box::new(b.copy())),
            Syntax::Object(m) => {
                let c = copy_map(m);
                proof {
                    crate::convert::lemma_object_debug_same(c, *m, m.seq().len() as int);
                }
                Syntax::Object(c)
            },
            Syntax::Array(v) => {
                let mut out: Vec<Syntax> = Vec::new();
                let mut i: usize = 0;
                while i < v.len()
                    invariant
                        i <= v@.len(),
                        out@.len() == i,
                        forall|j: int| 0 <= j < i ==> crate::convert::debug_text(#[trigger] out@[j]) == crate::convert::debug_text(
                            v@[j],
                        ),
                    decreases v.len() - i,
                {
                    proof {
                        assert(decreases_to!(v => v[i as int]));
                    }
                    out.push(v[i].copy());
                    i = i + 1;
                }
                proof {
                    crate::convert::lemma_array_debug_same(out, *v, v@.len() as int);
                }
                Syntax::Array(out)
            },
            Syntax::Selector(sel) => Syntax::Selector(copy_selector(sel)),
            Syntax::SelectorColon(sel, id) => Syntax::SelectorColon(copy_selector(sel), id.clone()),
            Syntax::SelectorDoubleColon(sel, id) => Syntax::SelectorDoubleColon(copy_selector(sel), id.clone()),
            Syntax::SelectorNbt(sel, p) => {
                let q = p.duplicate();
                proof {
                    lemma_path_copy(*p, q);
                }
                Syntax::SelectorNbt(copy_selector(sel), q)
            },
            Syntax::NbtStorage(p) => {
                let q = p.duplicate();
                proof {
                    lemma_path_copy(*p, q);
                }
                Syntax::NbtStorage(q)
            },
            Syntax::BinaryOp { lhs, operation, rhs } => Syntax::BinaryOp {
                lhs: Box::new(lhs.copy()),
                operation: *operation,
                rhs: Box::new(rhs.copy()),
            },
            Syntax::Block(t, l, b) => Syntax::Block(*t, Box::new(l.copy()), Box::new(b.copy())),
            Syntax::String(s) => Syntax::String(s.clone()),
            Syntax::Integer(i) => Syntax::Integer(*i),
            Syntax::Range(a, b) => Syntax::Range(*a, *b),
            Syntax::WooglyCoord(d) => Syntax::WooglyCoord(*d),
            Syntax::CaretCoord(d) => Syntax::CaretCoord(*d),
            Syntax::Float(d) => Syntax::Float(*d),
            Syntax::Unit => Syntax::Unit,
        }
    }
}

impl DataLocation {
    /// A copy of the location.
    pub fn copy(&self) -> (r: DataLocation)
        ensures
            r is Ident <==> self is Ident,
            r is Colon <==> self is Colon,
            r is Selector <==> self is Selector,
            r is SelectorColon <==> self is SelectorColon,
            r is SelectorDoubleColon <==> self is SelectorDoubleColon,
            r is SelectorNbt <==> self is SelectorNbt,
            r is NbtStorage <==> self is NbtStorage,
    {
        match self {
            DataLocation::Ident(s) => DataLocation::Ident(s.clone()),
            DataLocation::Colon(a, b) => DataLocation::Colon(a.clone(), b.clone()),
            DataLocation::Selector(sel) => DataLocation::Selector(copy_selector(sel)),
            DataLocation::SelectorColon(sel, id) => DataLocation::SelectorColon(copy_selector(sel), id.clone()),
            DataLocation::SelectorDoubleColon(sel, id) => DataLocation::SelectorDoubleColon(copy_selector(sel), id.clone()),
            DataLocation::SelectorNbt(sel, p) => DataLocation::SelectorNbt(copy_selector(sel), p.duplicate()),
            DataLocation::NbtStorage(p) => DataLocation::NbtStorage(p.duplicate()),
        }
    }
}

} // verus!
