//! Minecraft commands and their text.
use vstd::prelude::*;
use crate::decimal::{push_decimal, Decimal};
use crate::nbt::push_quoted;
use crate::syntax::{nbt_path_text, path_ok, path_rest_text, NbtPathPart, Operation, Selector, SelectorType, selector_text};
use crate::text::{int_text, nat_text, push_int, push_nat, replace, replace_all, to_lowercase, lowercase_of, owned};
use crate::decimal::decimal_string;

verus! {

/// The text of an NBT path as commands show it; a path that does not start with a name
/// is shown step by step.
pub open spec fn path_display(s: Seq<NbtPathPart>) -> Seq<char> {
    if path_ok(s) { nbt_path_text(s) } else { path_rest_text(s, 0) }
}

/// Appends the text of an NBT path (see `path_display`).
pub fn push_path(out: &mut String, path: &Vec<NbtPathPart>)
    ensures
        final(out)@ == old(out)@ + path_display(path@),
{
    if path.len() > 0 {
        if let NbtPathPart::Ident(_) = &path[0] {
            let t = crate::syntax::fmt_nbt_path(path.as_slice());
            out.append(t.as_str());
            return;
        }
    }
    let ghost pre = out@;
    let mut i: usize = 0;
    proof {
        assert(path_rest_text(path@.subrange(0, 0), 0) == Seq::<char>::empty());
        assert(out@ =~= pre + path_rest_text(path@.subrange(0, 0), 0));
    }
    while i < path.len()
        invariant
            i <= path@.len(),
            out@ == pre + path_rest_text(path@.subrange(0, i as int), 0),
        decreases path.len() - i,
    {
        proof {
            lemma_rest_push(path@, i as int);
        }
        match &path[i] {
            NbtPathPart::Ident(id) => {
                out.push('.');
                out.append(id.as_str());
            },
            NbtPathPart::Index(idx) => {
                out.push('[');
                push_nat(out, *idx as u64);
                out.push(']');
            },
        }
        proof {
            assert(out@ =~= pre + path_rest_text(path@.subrange(0, i + 1), 0));
        }
        i = i + 1;
    }
    proof {
        assert(path@.subrange(0, path@.len() as int) =~= path@);
    }
}

proof fn lemma_rest_push(s: Seq<NbtPathPart>, i: int)
    requires
        0 <= i < s.len(),
    ensures
        path_rest_text(s.subrange(0, i + 1), 0) == path_rest_text(s.subrange(0, i), 0) + crate::syntax::path_part_text(s[i]),
{
    lemma_rest_push_from(s, 0, i);
}

proof fn lemma_rest_push_from(s: Seq<NbtPathPart>, from: int, i: int)
    requires
        0 <= from <= i < s.len(),
    ensures
        path_rest_text(s.subrange(0, i + 1), from) == path_rest_text(s.subrange(0, i), from) + crate::syntax::path_part_text(s[i]),
    decreases i - from,
{
    let t1 = s.subrange(0, i + 1);
    let t0 = s.subrange(0, i);
    if from < i {
        lemma_rest_push_from(s, from + 1, i);
        assert(t1[from] == s[from]);
        assert(t0[from] == s[from]);
        assert(path_rest_text(t1, from) =~= path_rest_text(t0, from) + crate::syntax::path_part_text(s[i]));
    } else {
        assert(t1[i] == s[i]);
        assert(path_rest_text(t1, i + 1) == Seq::<char>::empty());
        assert(path_rest_text(t0, i) == Seq::<char>::empty());
        assert(path_rest_text(t1, from) =~= path_rest_text(t0, from) + crate::syntax::path_part_text(s[i]));
    }
}

/// A position: three coordinates, each absolute or relative (`~`), or three local
/// coordinates (`^`).
#[derive(Debug, Clone, Copy, PartialEq)]
pub enum Coordinate {
    /// coordinate given with xyz coordinates; booleans are for `~ ~ ~`
    Linear(bool, Decimal, bool, Decimal, bool, Decimal),
    /// coordinates given by angle; `^ ^ ^`
    Angular(Decimal, Decimal, Decimal),
}

/// One linear axis: `~` for a relative one, then the number unless it is a relative zero.
pub open spec fn axis_text(rel: bool, x: Decimal) -> Seq<char> {
    (if rel { seq!['~'] } else { seq![] }) + (if rel && x.is_zero() { seq![] } else { x.text() })
}

/// One local axis: `^`, then the number unless it is zero.
pub open spec fn local_text(x: Decimal) -> Seq<char> {
    seq!['^'] + (if x.is_zero() { seq![] } else { x.text() })
}

impl Coordinate {
    /// The current position, `~ ~ ~`.
    pub fn here() -> (r: Coordinate)
        ensures
            r matches Coordinate::Linear(true, x, true, y, true, z) && x.is_zero() && y.is_zero() && z.is_zero(),
    {
        let z = Decimal::from_int(0);
        Coordinate::Linear(true, z, true, z, true, z)
    }

    /// The text of the position, e.g. `~ ~10 ~` or `^1 ^2 ^1`.
    pub open spec fn spec_text(self) -> Seq<char> {
        match self {
            Coordinate::Linear(bx, x, by, y, bz, z) => axis_text(bx, x) + seq![' '] + axis_text(by, y)
                + seq![' '] + axis_text(bz, z),
            Coordinate::Angular(a, b, c) => local_text(a) + seq![' '] + local_text(b) + seq![' ']
                + local_text(c),
        }
    }
}

/// Appends the text of a position (see `Coordinate::spec_text`).
pub fn push_coordinate(out: &mut String, c: &Coordinate)
    ensures
        final(out)@ == old(out)@ + c.spec_text(),
{
    match c {
        Coordinate::Linear(bx, x, by, y, bz, z) => {
            push_axis(out, *bx, *x);
            out.push(' ');
            push_axis(out, *by, *y);
            out.push(' ');
            push_axis(out, *bz, *z);
        },
        Coordinate::Angular(a, b, cc) => {
            push_local(out, *a);
            out.push(' ');
            push_local(out, *b);
            out.push(' ');
            push_local(out, *cc);
        },
    }
    proof {
        assert(out@ =~= old(out)@ + c.spec_text());
    }
}

fn push_axis(out: &mut String, rel: bool, x: Decimal)
    ensures
        final(out)@ == old(out)@ + axis_text(rel, x),
{
    if rel {
        out.push('~');
    }
    if !(rel && x.check_zero()) {
        push_decimal(out, x);
    }
    proof {
        assert(out@ =~= old(out)@ + axis_text(rel, x));
    }
}

fn push_local(out: &mut String, x: Decimal)
    ensures
        final(out)@ == old(out)@ + local_text(x),
{
    out.push('^');
    if !x.check_zero() {
        push_decimal(out, x);
    }
    proof {
        assert(out@ =~= old(out)@ + local_text(x));
    }
}

/// Where NBT data lives: on an entity, or in the namespace's storage.
#[derive(Debug, PartialEq)]
pub enum NbtLocation {
    Entity(Selector<String>, Vec<NbtPathPart>),
    Storage(Vec<NbtPathPart>),
}

impl NbtLocation {
    /// `entity <selector> <path>` or `storage <namespace>:storage <path>`.
    pub open spec fn spec_text(self, ns: Seq<char>) -> Seq<char> {
        match self {
            NbtLocation::Entity(sel, path) => "entity "@ + selector_text(sel) + seq![' '] + path_display(path@),
            NbtLocation::Storage(path) => "storage "@ + ns + ":storage "@ + path_display(path@),
        }
    }

    /// The text of the location within a namespace (see `spec_text`).
    pub fn stringify(&self, namespace: &str) -> (r: String)
        ensures
            r@ == self.spec_text(namespace@),
    {
        let mut out = String::new();
        match self {
            NbtLocation::Entity(sel, path) => {
                out.append("entity ");
                let t = sel.to_text();
                out.append(t.as_str());
                out.push(' ');
                push_path(&mut out, path);
            },
            NbtLocation::Storage(path) => {
                out.append("storage ");
                out.append(namespace);
                out.append(":storage ");
                push_path(&mut out, path);
            },
        }
        proof {
            reveal_strlit("entity ");
            reveal_strlit("storage ");
            reveal_strlit(":storage ");
            assert(out@ =~= self.spec_text(namespace@));
        }
        out
    }

    /// A copy of the location.
    pub fn copy(&self) -> (r: NbtLocation)
        ensures
            forall|ns: Seq<char>| r.spec_text(ns) == self.spec_text(ns),
    {
        match self {
            NbtLocation::Entity(sel, path) => {
                let s = copy_string_selector(sel);
                let p = copy_path(path);
                NbtLocation::Entity(s, p)
            },
            NbtLocation::Storage(path) => NbtLocation::Storage(copy_path(path)),
        }
    }
}

/// A copy of an NBT path.
pub fn copy_path(p: &Vec<NbtPathPart>) -> (r: Vec<NbtPathPart>)
    ensures
        r@ == p@,
{
    let mut out: Vec<NbtPathPart> = Vec::new();
    let mut i: usize = 0;
    while i < p.len()
        invariant
            i <= p@.len(),
            out@ == p@.subrange(0, i as int),
        decreases p.len() - i,
    {
        let part = match &p[i] {
            NbtPathPart::Ident(s) => NbtPathPart::Ident(s.clone()),
            NbtPathPart::Index(n) => NbtPathPart::Index(*n),
        };
        out.push(part);
        i = i + 1;
        assert(out@ =~= p@.subrange(0, i as int));
    }
    assert(out@ =~= p@);
    out
}

/// A copy of a selector with string arguments: same type, same arguments in the same
/// order.
pub fn copy_string_selector(sel: &Selector<String>) -> (r: Selector<String>)
    ensures
        selector_text(r) == selector_text(*sel),
        r.selector_type == sel.selector_type,
        r.args.seq().len() == sel.args.seq().len(),
        forall|i: int| 0 <= i < sel.args.seq().len() ==> #[trigger] r.args.seq()[i] == sel.args.seq()[i],
{
    let args = sel.args.clone_strings();
    let r = Selector { selector_type: sel.selector_type, args };
    assert(r.args.seq() =~= sel.args.seq());
    r
}


/// `if` or `unless`.
pub open spec fn cond_word(invert: bool) -> Seq<char> {
    if invert { "unless"@ } else { "if"@ }
}

/// `success` or `result`.
pub open spec fn store_word(is_success: bool) -> Seq<char> {
    if is_success { "success"@ } else { "result"@ }
}

/// An optional bound: the number, or nothing.
pub open spec fn bound_text(b: Option<i32>) -> Seq<char> {
    match b {
        Some(n) => int_text(n as int),
        None => seq![],
    }
}

/// The range a score is matched against: one number when both bounds agree, `..` when
/// both are absent, else `lower..upper` with absent bounds left out.
pub open spec fn match_text(lower: Option<i32>, upper: Option<i32>) -> Seq<char> {
    if lower == upper {
        match lower {
            Some(l) => int_text(l as int),
            None => ".."@,
        }
    } else {
        bound_text(lower) + ".."@ + bound_text(upper)
    }
}

/// One rotation axis: `~` or a space, then the number unless it is a relative zero.
pub open spec fn rot_text(rel: bool, x: Decimal) -> Seq<char> {
    (if rel { "~"@ } else { " "@ }) + (if rel && x.is_zero() { seq![] } else { x.text() })
}

/// One subcommand of `execute`.
#[derive(Debug, PartialEq)]
pub enum ExecuteOption {
    /// compare score to a static range
    IfScoreMatches { invert: bool, target: String, objective: String, lower: Option<i32>, upper: Option<i32> },
    /// compare score to another score
    IfScoreSource {
        invert: bool,
        target: String,
        target_objective: String,
        operation: Operation,
        source: String,
        source_objective: String,
    },
    /// if an entity exists
    IfEntity { invert: bool, selector: Selector<String> },
    /// store a result in a score
    StoreScore { target: String, objective: String, is_success: bool },
    /// store a result in NBT, multiplied by `scale`
    StoreNBT { location: NbtLocation, is_success: bool, scale: Decimal },
    /// change who `@s` is
    As(Selector<String>),
    /// change where the command executes
    At(Selector<String>),
    /// get rotation from an entity
    RotatedAs(Selector<String>),
    /// specific rotation
    Rotated { yaw_rel: bool, yaw: Decimal, pitch_rel: bool, pitch: Decimal },
    /// choose a specific position
    Positioned(Coordinate),
    /// anchored eyes|feet
    Anchored(String),
    /// facing an entity
    FacingEntity(Selector<String>),
    /// facing a position
    FacingPos(Coordinate),
    /// Block matches id or tag
    IfBlock { invert: bool, pos: Coordinate, value: String },
    /// Change `@s` to an entity with a certain relationship to current `@s`
    On(String),
    /// summon an entity of type `ident` and set it to `@s`
    Summon(String),
}

impl ExecuteOption {
    /// The fields of a test of a score against a range, by their views.
    pub open spec fn range_test(self) -> Option<(bool, Seq<char>, Seq<char>, Option<i32>, Option<i32>)> {
        match self {
            ExecuteOption::IfScoreMatches { invert, target, objective, lower, upper } => Some(
                (invert, target@, objective@, lower, upper),
            ),
            _ => None,
        }
    }

    /// The fields of a comparison of two scores, by their views.
    pub open spec fn score_test(self) -> Option<(bool, Seq<char>, Seq<char>, Operation, Seq<char>, Seq<char>)> {
        match self {
            ExecuteOption::IfScoreSource { invert, target, target_objective, operation, source, source_objective } => Some(
                (invert, target@, target_objective@, operation, source@, source_objective@),
            ),
            _ => None,
        }
    }

    /// Two subcommands with the same text that agree on the fields of their score tests.
    pub open spec fn same_as(self, other: ExecuteOption) -> bool {
        &&& forall|ns: Seq<char>| #[trigger] self.spec_text(ns) == other.spec_text(ns)
        &&& self.range_test() == other.range_test()
        &&& self.score_test() == other.score_test()
    }
}

impl ExecuteOption {
    /// The text of the subcommand within a namespace.
    pub open spec fn spec_text(self, ns: Seq<char>) -> Seq<char> {
        match self {
            ExecuteOption::IfScoreMatches { invert, target, objective, lower, upper } => cond_word(invert)
                + " score "@ + target@ + " "@ + objective@ + " matches "@ + match_text(lower, upper),
            ExecuteOption::IfScoreSource { invert, target, target_objective, operation, source, source_objective } =>
                cond_word(invert) + " score "@ + target@ + " "@ + target_objective@ + " "@ + operation.spec_text()
                + " "@ + source@ + " "@ + source_objective@,
            ExecuteOption::IfEntity { invert, selector } => cond_word(invert) + " entity "@ + selector_text(selector),
            ExecuteOption::StoreScore { target, objective, is_success } => "store "@ + store_word(is_success)
                + " score "@ + target@ + " "@ + objective@,
            ExecuteOption::StoreNBT { location, is_success, scale } => "store "@ + store_word(is_success) + " "@
                + location.spec_text(ns) + " float "@ + scale.text(),
            ExecuteOption::As(sel) => "as "@ + selector_text(sel),
            ExecuteOption::At(sel) => "at "@ + selector_text(sel),
            ExecuteOption::RotatedAs(sel) => "rotated as "@ + selector_text(sel),
            ExecuteOption::Rotated { yaw_rel, yaw, pitch_rel, pitch } => "rotated "@ + rot_text(yaw_rel, yaw) + " "@
                + rot_text(pitch_rel, pitch),
            ExecuteOption::Positioned(pos) => "positioned "@ + pos.spec_text(),
            ExecuteOption::Anchored(id) => "anchored "@ + id@,
            ExecuteOption::FacingEntity(sel) => "facing entity "@ + selector_text(sel),
            ExecuteOption::FacingPos(pos) => "facing "@ + pos.spec_text(),
            ExecuteOption::IfBlock { invert, pos, value } => cond_word(invert) + " block "@ + pos.spec_text() + " "@
                + value@,
            ExecuteOption::On(id) => "on "@ + id@,
            ExecuteOption::Summon(id) => "summon "@ + id@,
        }
    }
}

fn push_cond(out: &mut String, invert: bool)
    ensures
        final(out)@ == old(out)@ + cond_word(invert),
{
    if invert {
        out.append("unless");
    } else {
        out.append("if");
    }
}

fn push_store(out: &mut String, is_success: bool)
    ensures
        final(out)@ == old(out)@ + store_word(is_success),
{
    if is_success {
        out.append("success");
    } else {
        out.append("result");
    }
}

fn push_bound(out: &mut String, b: Option<i32>)
    ensures
        final(out)@ == old(out)@ + bound_text(b),
{
    if let Some(n) = b {
        push_int(out, n as i64);
    }
    proof {
        assert(out@ =~= old(out)@ + bound_text(b));
    }
}

fn push_match(out: &mut String, lower: Option<i32>, upper: Option<i32>)
    ensures
        final(out)@ == old(out)@ + match_text(lower, upper),
{
    if lower == upper {
        match lower {
            Some(l) => push_int(out, l as i64),
            None => out.append(".."),
        }
    } else {
        push_bound(out, lower);
        out.append("..");
        push_bound(out, upper);
    }
    proof {
        assert(out@ =~= old(out)@ + match_text(lower, upper));
    }
}

fn push_rot(out: &mut String, rel: bool, x: Decimal)
    ensures
        final(out)@ == old(out)@ + rot_text(rel, x),
{
    if rel {
        out.append("~");
    } else {
        out.append(" ");
    }
    if !(rel && x.check_zero()) {
        push_decimal(out, x);
    }
    proof {
        assert(out@ =~= old(out)@ + rot_text(rel, x));
    }
}

fn push_selector(out: &mut String, sel: &Selector<String>)
    ensures
        final(out)@ == old(out)@ + selector_text(*sel),
{
    let t = sel.to_text();
    out.append(t.as_str());
}

/// Appends the text of one `execute` subcommand (see `ExecuteOption::spec_text`).
#[verifier::spinoff_prover]
#[verifier::rlimit(40)]
pub fn push_option(out: &mut String, opt: &ExecuteOption, namespace: &str)
    ensures
        final(out)@ == old(out)@ + opt.spec_text(namespace@),
{
    match opt {
        ExecuteOption::IfScoreMatches { invert, target, objective, lower, upper } => {
            push_cond(out, *invert);
            out.append(" score ");
            out.append(target.as_str());
            out.append(" ");
            out.append(objective.as_str());
            out.append(" matches ");
            push_match(out, *lower, *upper);
        },
        ExecuteOption::IfScoreSource { invert, target, target_objective, operation, source, source_objective } => {
            push_cond(out, *invert);
            out.append(" score ");
            out.append(target.as_str());
            out.append(" ");
            out.append(target_objective.as_str());
            out.append(" ");
            out.append(operation.text());
            out.append(" ");
            out.append(source.as_str());
            out.append(" ");
            out.append(source_objective.as_str());
        },
        ExecuteOption::IfEntity { invert, selector } => {
            push_cond(out, *invert);
            out.append(" entity ");
            push_selector(out, selector);
        },
        ExecuteOption::StoreScore { target, objective, is_success } => {
            out.append("store ");
            push_store(out, *is_success);
            out.append(" score ");
            out.append(target.as_str());
            out.append(" ");
            out.append(objective.as_str());
        },
        ExecuteOption::StoreNBT { location, is_success, scale } => {
            out.append("store ");
            push_store(out, *is_success);
            out.append(" ");
            let t = location.stringify(namespace);
            out.append(t.as_str());
            out.append(" float ");
            push_decimal(out, *scale);
        },
        ExecuteOption::As(sel) => {
            out.append("as ");
            push_selector(out, sel);
        },
        ExecuteOption::At(sel) => {
            out.append("at ");
            push_selector(out, sel);
        },
        ExecuteOption::RotatedAs(sel) => {
            out.append("rotated as ");
            push_selector(out, sel);
        },
        ExecuteOption::Rotated { yaw_rel, yaw, pitch_rel, pitch } => {
            out.append("rotated ");
            push_rot(out, *yaw_rel, *yaw);
            out.append(" ");
            push_rot(out, *pitch_rel, *pitch);
        },
        ExecuteOption::Positioned(pos) => {
            out.append("positioned ");
            push_coordinate(out, pos);
        },
        ExecuteOption::Anchored(id) => {
            out.append("anchored ");
            out.append(id.as_str());
        },
        ExecuteOption::FacingEntity(sel) => {
            out.append("facing entity ");
            push_selector(out, sel);
        },
        ExecuteOption::FacingPos(pos) => {
            out.append("facing ");
            push_coordinate(out, pos);
        },
        ExecuteOption::IfBlock { invert, pos, value } => {
            push_cond(out, *invert);
            out.append(" block ");
            push_coordinate(out, pos);
            out.append(" ");
            out.append(value.as_str());
        },
        ExecuteOption::On(id) => {
            out.append("on ");
            out.append(id.as_str());
        },
        ExecuteOption::Summon(id) => {
            out.append("summon ");
            out.append(id.as_str());
        },
    }
    proof {
        assert(out@ =~= old(out)@ + opt.spec_text(namespace@));
    }
}

impl ExecuteOption {
    /// The text of the subcommand within a namespace (see `spec_text`).
    pub fn stringify(&self, namespace: &str) -> (r: String)
        ensures
            r@ == self.spec_text(namespace@),
    {
        let mut out = String::new();
        push_option(&mut out, self, namespace);
        out
    }
}


/// How a name is written as a Minecraft identifier: lower case, spaces as underscores.
pub open spec fn mc_ident(s: Seq<char>) -> Seq<char> {
    replace_all(lowercase_of(s), " "@, "_"@)
}

/// Formats a name as a Minecraft identifier (see `mc_ident`).
pub fn fmt_mc_ident(ident: &str) -> (r: String)
    ensures
        r@ == mc_ident(ident@),
        crate::text::all_ascii(ident@) ==> r@ == replace_all(crate::text::ascii_lower(ident@), " "@, "_"@),
{
    let low = to_lowercase(ident);
    replace(low.as_str(), " ", "_")
}

/// `levels` or `points`.
pub open spec fn xp_word(levels: bool) -> Seq<char> {
    if levels { "levels"@ } else { "points"@ }
}

/// The absolute value of an integer.
pub open spec fn abs(i: int) -> int {
    if i < 0 { -i } else { i }
}

/// One Minecraft command
#[derive(Debug, PartialEq)]
pub enum Command {
    /// A user-made command that passes through the compiler unchanged
    Raw(String),
    /// A tellraw command
    TellRaw(Selector<String>, String),
    /// give a target an effect. Duration defaults to infinite, level defaults to 1
    EffectGive { target: Selector<String>, effect: String, duration: Option<i32>, level: i32 },
    /// kill the target
    Kill(Selector<String>),
    /// call a function
    Function(String),
    /// schedule a function to execute at a later time
    Schedule { func: String, time: i32, replace: bool },
    /// set a score to a value
    ScoreSet { target: String, objective: String, value: i32 },
    /// get a score
    ScoreGet { target: String, objective: String },
    /// add to a score
    ScoreAdd { target: String, objective: String, value: i32 },
    /// perform an operation between two scores
    ScoreOperation {
        target: String,
        target_objective: String,
        operation: Operation,
        source: String,
        source_objective: String,
    },
    /// add to a target's XP points / levels
    XpAdd { target: Selector<String>, amount: i32, levels: bool },
    /// set a target's XP points / levels
    XpSet { target: Selector<String>, amount: i32, levels: bool },
    /// get a player's XP points / levels
    XpGet { target: Selector<String>, levels: bool },
    /// transfer NBT data
    DataSetFrom { target: NbtLocation, src: NbtLocation },
    /// get NBT data
    DataGet(NbtLocation),
    /// set NBT data to a constant
    DataSetValue { target: NbtLocation, value: String },
    /// execute a command with certain options
    Execute { options: Vec<ExecuteOption>, cmd: Box<Command> },
    /// teleport the selected entity(ies) to the destination
    Teleport { target: Selector<String>, destination: Coordinate },
    /// teleport the selected entity(ies) to another selected entity
    TeleportTo { target: Selector<String>, destination: Selector<String> },
    /// play a sound
    Sound {
        sound: String,
        source: String,
        target: Selector<String>,
        pos: Coordinate,
        volume: Decimal,
        pitch: Decimal,
        min_volume: Decimal,
    },
    /// damage the target
    Damage { target: Selector<String>, amount: i32, damage_type: String, attacker: Selector<String> },
}

/// The `execute` subcommands, each followed by a space.
pub open spec fn options_text(opts: Seq<ExecuteOption>, ns: Seq<char>) -> Seq<char>
    decreases opts.len(),
{
    if opts.len() == 0 {
        seq![]
    } else {
        options_text(opts.drop_last(), ns) + opts.last().spec_text(ns) + " "@
    }
}

impl Command {
    /// The text of the command within a namespace.
    pub open spec fn spec_text(self, ns: Seq<char>) -> Seq<char>
        decreases self,
    {
        match self {
            Command::Raw(cmd) => replace_all(cmd@, "<NAMESPACE>"@, ns),
            Command::TellRaw(sel, raw) => "tellraw "@ + selector_text(sel) + " "@ + raw@,
            Command::EffectGive { target, effect, duration, level } => "effect give "@ + selector_text(target)
                + " "@ + effect@ + " "@ + (match duration {
                Some(n) => int_text(n as int),
                None => "infinite"@,
            }) + " "@ + int_text(level as int),
            Command::Kill(target) => "kill "@ + selector_text(target),
            Command::Function(func) => "function "@ + ns + ":"@ + mc_ident(func@),
            Command::Schedule { func, time, replace } => "schedule function "@ + func@ + " "@ + int_text(time as int)
                + " "@ + (if replace { "replace"@ } else { "append"@ }),
            Command::ScoreSet { target, objective, value } => if value == 0 {
                "scoreboard players reset "@ + target@ + " "@ + objective@
            } else {
                "scoreboard players set "@ + target@ + " "@ + objective@ + " "@ + int_text(value as int)
            },
            Command::ScoreAdd { target, objective, value } => "scoreboard players "@ + (if value < 0 {
                "remove"@
            } else {
                "add"@
            }) + " "@ + target@ + " "@ + objective@ + " "@ + int_text(abs(value as int)),
            Command::ScoreGet { target, objective } => "scoreboard players get "@ + target@ + " "@ + objective@,
            Command::ScoreOperation { target, target_objective, operation, source, source_objective } =>
                "scoreboard players operation "@ + target@ + " "@ + target_objective@ + " "@ + operation.spec_text()
                + " "@ + source@ + " "@ + source_objective@,
            Command::XpAdd { target, amount, levels } => "xp add "@ + selector_text(target) + " "@
                + int_text(amount as int) + " "@ + xp_word(levels),
            Command::XpSet { target, amount, levels } => "xp set "@ + selector_text(target) + " "@
                + int_text(amount as int) + " "@ + xp_word(levels),
            Command::XpGet { target, levels } => "xp query "@ + selector_text(target) + " "@ + xp_word(levels),
            Command::DataSetFrom { target, src } => "data modify "@ + target.spec_text(ns) + " set from "@
                + src.spec_text(ns),
            Command::DataGet(target) => "data get "@ + target.spec_text(ns),
            Command::DataSetValue { target, value } => "data modify "@ + target.spec_text(ns) + " set value "@
                + value@,
            Command::Execute { options, cmd } => "execute "@ + options_text(options@, ns) + "run "@
                + cmd.spec_text(ns),
            Command::Teleport { target, destination } => "tp "@ + selector_text(target) + " "@
                + destination.spec_text(),
            Command::TeleportTo { target, destination } => "tp "@ + selector_text(target) + " "@
                + selector_text(destination),
            Command::Sound { sound, source, target, pos, volume, pitch, min_volume } => "playsound "@ + sound@ + " "@
                + source@ + " "@ + selector_text(target) + " "@ + pos.spec_text() + " "@ + volume.text() + " "@
                + pitch.text() + " "@ + min_volume.text(),
            Command::Damage { target, amount, damage_type, attacker } => "damage "@ + selector_text(target) + " "@
                + int_text(amount as int) + " "@ + damage_type@ + " by "@ + selector_text(attacker),
        }
    }
}

fn push_xp(out: &mut String, levels: bool)
    ensures
        final(out)@ == old(out)@ + xp_word(levels),
{
    if levels {
        out.append("levels");
    } else {
        out.append("points");
    }
}

fn push_location(out: &mut String, loc: &NbtLocation, namespace: &str)
    ensures
        final(out)@ == old(out)@ + loc.spec_text(namespace@),
{
    let t = loc.stringify(namespace);
    out.append(t.as_str());
}

/// Appends the `execute` subcommands, each followed by a space (see `options_text`).
pub fn push_options(out: &mut String, opts: &Vec<ExecuteOption>, namespace: &str)
    ensures
        final(out)@ == old(out)@ + options_text(opts@, namespace@),
{
    let ghost pre = out@;
    let mut i: usize = 0;
    proof {
        assert(opts@.subrange(0, 0) =~= Seq::<ExecuteOption>::empty());
        assert(out@ =~= pre + options_text(opts@.subrange(0, 0), namespace@));
    }
    while i < opts.len()
        invariant
            i <= opts@.len(),
            out@ == pre + options_text(opts@.subrange(0, i as int), namespace@),
        decreases opts.len() - i,
    {
        push_option(out, &opts[i], namespace);
        out.append(" ");
        proof {
            let t = opts@.subrange(0, i + 1);
            assert(t.drop_last() =~= opts@.subrange(0, i as int));
            assert(t.last() == opts@[i as int]);
            assert(out@ =~= pre + options_text(t, namespace@));
        }
        i = i + 1;
    }
    proof {
        assert(opts@.subrange(0, opts@.len() as int) =~= opts@);
    }
}

fn push_score_cmd(out: &mut String, cmd: &Command)
    requires
        cmd is ScoreSet || cmd is ScoreAdd || cmd is ScoreGet || cmd is ScoreOperation,
    ensures
        forall|ns: Seq<char>| final(out)@ == old(out)@ + #[trigger] cmd.spec_text(ns),
{
    match cmd {
        Command::ScoreSet { target, objective, value } => {
            if *value == 0 {
                out.append("scoreboard players reset ");
                out.append(target.as_str());
                out.append(" ");
                out.append(objective.as_str());
            } else {
                out.append("scoreboard players set ");
                out.append(target.as_str());
                out.append(" ");
                out.append(objective.as_str());
                out.append(" ");
                push_int(out, *value as i64);
            }
        },
        Command::ScoreAdd { target, objective, value } => {
            out.append("scoreboard players ");
            if *value < 0 {
                out.append("remove");
            } else {
                out.append("add");
            }
            out.append(" ");
            out.append(target.as_str());
            out.append(" ");
            out.append(objective.as_str());
            out.append(" ");
            let v: i64 = *value as i64;
            let a: i64 = if v < 0 { -v } else { v };
            push_int(out, a);
        },
        Command::ScoreGet { target, objective } => {
            out.append("scoreboard players get ");
            out.append(target.as_str());
            out.append(" ");
            out.append(objective.as_str());
        },
        Command::ScoreOperation { target, target_objective, operation, source, source_objective } => {
            out.append("scoreboard players operation ");
            out.append(target.as_str());
            out.append(" ");
            out.append(target_objective.as_str());
            out.append(" ");
            out.append(operation.text());
            out.append(" ");
            out.append(source.as_str());
            out.append(" ");
            out.append(source_objective.as_str());
        },
        _ => {},
    }
    proof {
        assert forall|ns: Seq<char>| out@ == old(out)@ + #[trigger] cmd.spec_text(ns) by {
            assert(out@ =~= old(out)@ + cmd.spec_text(ns));
        }
    }
}

#[verifier::spinoff_prover]
#[verifier::rlimit(40)]
fn push_player_cmd(out: &mut String, cmd: &Command)
    requires
        cmd is TellRaw || cmd is EffectGive || cmd is Kill || cmd is XpAdd || cmd is XpSet || cmd is XpGet,
    ensures
        forall|ns: Seq<char>| final(out)@ == old(out)@ + #[trigger] cmd.spec_text(ns),
{
    match cmd {
        Command::TellRaw(sel, raw) => {
            out.append("tellraw ");
            push_selector(out, sel);
            out.append(" ");
            out.append(raw.as_str());
        },
        Command::EffectGive { target, effect, duration, level } => {
            out.append("effect give ");
            push_selector(out, target);
            out.append(" ");
            out.append(effect.as_str());
            out.append(" ");
            match duration {
                Some(n) => push_int(out, *n as i64),
                None => out.append("infinite"),
            }
            out.append(" ");
            push_int(out, *level as i64);
        },
        Command::Kill(target) => {
            out.append("kill ");
            push_selector(out, target);
        },
        Command::XpAdd { target, amount, levels } => {
            out.append("xp add ");
            push_selector(out, target);
            out.append(" ");
            push_int(out, *amount as i64);
            out.append(" ");
            push_xp(out, *levels);
        },
        Command::XpSet { target, amount, levels } => {
            out.append("xp set ");
            push_selector(out, target);
            out.append(" ");
            push_int(out, *amount as i64);
            out.append(" ");
            push_xp(out, *levels);
        },
        Command::XpGet { target, levels } => {
            out.append("xp query ");
            push_selector(out, target);
            out.append(" ");
            push_xp(out, *levels);
        },
        _ => {},
    }
    proof {
        assert forall|ns: Seq<char>| out@ == old(out)@ + #[trigger] cmd.spec_text(ns) by {
            assert(out@ =~= old(out)@ + cmd.spec_text(ns));
        }
    }
}

#[verifier::spinoff_prover]
#[verifier::rlimit(40)]
fn push_world_cmd(out: &mut String, cmd: &Command)
    requires
        cmd is Teleport || cmd is TeleportTo || cmd is Sound || cmd is Damage,
    ensures
        forall|ns: Seq<char>| final(out)@ == old(out)@ + #[trigger] cmd.spec_text(ns),
{
    match cmd {
        Command::Teleport { target, destination } => {
            out.append("tp ");
            push_selector(out, target);
            out.append(" ");
            push_coordinate(out, destination);
        },
        Command::TeleportTo { target, destination } => {
            out.append("tp ");
            push_selector(out, target);
            out.append(" ");
            push_selector(out, destination);
        },
        Command::Sound { sound, source, target, pos, volume, pitch, min_volume } => {
            out.append("playsound ");
            out.append(sound.as_str());
            out.append(" ");
            out.append(source.as_str());
            out.append(" ");
            push_selector(out, target);
            out.append(" ");
            push_coordinate(out, pos);
            out.append(" ");
            push_decimal(out, *volume);
            out.append(" ");
            push_decimal(out, *pitch);
            out.append(" ");
            push_decimal(out, *min_volume);
        },
        Command::Damage { target, amount, damage_type, attacker } => {
            out.append("damage ");
            push_selector(out, target);
            out.append(" ");
            push_int(out, *amount as i64);
            out.append(" ");
            out.append(damage_type.as_str());
            out.append(" by ");
            push_selector(out, attacker);
        },
        _ => {},
    }
    proof {
        assert forall|ns: Seq<char>| out@ == old(out)@ + #[trigger] cmd.spec_text(ns) by {
            assert(out@ =~= old(out)@ + cmd.spec_text(ns));
        }
    }
}

fn push_data_cmd(out: &mut String, cmd: &Command, namespace: &str)
    requires
        cmd is DataSetFrom || cmd is DataGet || cmd is DataSetValue,
    ensures
        final(out)@ == old(out)@ + cmd.spec_text(namespace@),
{
    match cmd {
        Command::DataSetFrom { target, src } => {
            out.append("data modify ");
            push_location(out, target, namespace);
            out.append(" set from ");
            push_location(out, src, namespace);
        },
        Command::DataGet(target) => {
            out.append("data get ");
            push_location(out, target, namespace);
        },
        Command::DataSetValue { target, value } => {
            out.append("data modify ");
            push_location(out, target, namespace);
            out.append(" set value ");
            out.append(value.as_str());
        },
        _ => {},
    }
    proof {
        assert(out@ =~= old(out)@ + cmd.spec_text(namespace@));
    }
}

/// Appends the text of a command within a namespace (see `Command::spec_text`).
#[verifier::spinoff_prover]
#[verifier::rlimit(40)]
pub fn push_command(out: &mut String, cmd: &Command, namespace: &str)
    ensures
        final(out)@ == old(out)@ + cmd.spec_text(namespace@),
    decreases cmd,
{
    match cmd {
        Command::Raw(raw) => {
            let t = replace(raw.as_str(), "<NAMESPACE>", namespace);
            out.append(t.as_str());
        },
        Command::Function(func) => {
            out.append("function ");
            out.append(namespace);
            out.append(":");
            let id = fmt_mc_ident(func.as_str());
            out.append(id.as_str());
            proof {
                assert(out@ =~= old(out)@ + cmd.spec_text(namespace@));
            }
        },
        Command::Schedule { func, time, replace } => {
            out.append("schedule function ");
            out.append(func.as_str());
            out.append(" ");
            push_int(out, *time as i64);
            out.append(" ");
            if *replace {
                out.append("replace");
            } else {
                out.append("append");
            }
            proof {
                assert(out@ =~= old(out)@ + cmd.spec_text(namespace@));
            }
        },
        Command::ScoreSet { .. } | Command::ScoreAdd { .. } | Command::ScoreGet { .. }
        | Command::ScoreOperation { .. } => {
            push_score_cmd(out, cmd);
        },
        Command::TellRaw(..) | Command::EffectGive { .. } | Command::Kill(..) | Command::XpAdd { .. }
        | Command::XpSet { .. } | Command::XpGet { .. } => {
            push_player_cmd(out, cmd);
        },
        Command::Teleport { .. } | Command::TeleportTo { .. } | Command::Sound { .. } | Command::Damage { .. } => {
            push_world_cmd(out, cmd);
        },
        Command::DataSetFrom { .. } | Command::DataGet(..) | Command::DataSetValue { .. } => {
            push_data_cmd(out, cmd, namespace);
        },
        Command::Execute { options, cmd: inner } => {
            out.append("execute ");
            push_options(out, options, namespace);
            out.append("run ");
            push_command(out, inner, namespace);
            proof {
                assert(out@ =~= old(out)@ + cmd.spec_text(namespace@));
            }
        },
    }
}

impl Command {
    /// Convert the command to a string within the given namespace (see `spec_text`).
    pub fn stringify(&self, namespace: &str) -> (r: String)
        ensures
            r@ == self.spec_text(namespace@),
    {
        let mut out = String::new();
        push_command(&mut out, self, namespace);
        out
    }
}


impl ExecuteOption {
    /// A copy of the subcommand, with the same text in every namespace.
    #[verifier::spinoff_prover]
    #[verifier::rlimit(40)]
    pub fn copy(&self) -> (r: ExecuteOption)
        ensures
            forall|ns: Seq<char>| #[trigger] r.spec_text(ns) == self.spec_text(ns),
            r.range_test() == self.range_test(),
            r.score_test() == self.score_test(),
    {
        let r = match self {
            ExecuteOption::IfScoreMatches { invert, target, objective, lower, upper } => ExecuteOption::IfScoreMatches {
                invert: *invert,
                target: target.clone(),
                objective: objective.clone(),
                lower: *lower,
                upper: *upper,
            },
            ExecuteOption::IfScoreSource { invert, target, target_objective, operation, source, source_objective } =>
                ExecuteOption::IfScoreSource {
                invert: *invert,
                target: target.clone(),
                target_objective: target_objective.clone(),
                operation: *operation,
                source: source.clone(),
                source_objective: source_objective.clone(),
            },
            ExecuteOption::IfEntity { invert, selector } => ExecuteOption::IfEntity {
                invert: *invert,
                selector: copy_string_selector(selector),
            },
            ExecuteOption::StoreScore { target, objective, is_success } => ExecuteOption::StoreScore {
                target: target.clone(),
                objective: objective.clone(),
                is_success: *is_success,
            },
            ExecuteOption::StoreNBT { location, is_success, scale } => ExecuteOption::StoreNBT {
                location: location.copy(),
                is_success: *is_success,
                scale: *scale,
            },
            ExecuteOption::As(sel) => ExecuteOption::As(copy_string_selector(sel)),
            ExecuteOption::At(sel) => ExecuteOption::At(copy_string_selector(sel)),
            ExecuteOption::RotatedAs(sel) => ExecuteOption::RotatedAs(copy_string_selector(sel)),
            ExecuteOption::Rotated { yaw_rel, yaw, pitch_rel, pitch } => ExecuteOption::Rotated {
                yaw_rel: *yaw_rel,
                yaw: *yaw,
                pitch_rel: *pitch_rel,
                pitch: *pitch,
            },
            ExecuteOption::Positioned(pos) => ExecuteOption::Positioned(*pos),
            ExecuteOption::Anchored(id) => ExecuteOption::Anchored(id.clone()),
            ExecuteOption::FacingEntity(sel) => ExecuteOption::FacingEntity(copy_string_selector(sel)),
            ExecuteOption::FacingPos(pos) => ExecuteOption::FacingPos(*pos),
            ExecuteOption::IfBlock { invert, pos, value } => ExecuteOption::IfBlock {
                invert: *invert,
                pos: *pos,
                value: value.clone(),
            },
            ExecuteOption::On(id) => ExecuteOption::On(id.clone()),
            ExecuteOption::Summon(id) => ExecuteOption::Summon(id.clone()),
        };
        r
    }
}

/// A copy of a list of subcommands, with the same text in every namespace.
pub fn copy_options(opts: &Vec<ExecuteOption>) -> (r: Vec<ExecuteOption>)
    ensures
        forall|ns: Seq<char>| #[trigger] options_text(r@, ns) == options_text(opts@, ns),
        r@.len() == opts@.len(),
        forall|i: int| 0 <= i < r@.len() ==> (#[trigger] r@[i]).same_as(opts@[i]),
{
    let mut out: Vec<ExecuteOption> = Vec::new();
    let mut i: usize = 0;
    while i < opts.len()
        invariant
            i <= opts@.len(),
            out@.len() == i,
            forall|ns: Seq<char>| #[trigger] options_text(out@, ns) == options_text(opts@.subrange(0, i as int), ns),
            forall|j: int| 0 <= j < i ==> (#[trigger] out@[j]).same_as(opts@[j]),
        decreases opts.len() - i,
    {
        let o = opts[i].copy();
        let ghost out0 = out@;
        out.push(o);
        proof {
            assert forall|ns: Seq<char>| #[trigger] options_text(out@, ns) == options_text(opts@.subrange(0, i + 1), ns) by {
                let t = opts@.subrange(0, i + 1);
                assert(t.drop_last() =~= opts@.subrange(0, i as int));
                assert(out@.drop_last() =~= out0);
                assert(options_text(out0, ns) == options_text(opts@.subrange(0, i as int), ns));
            }
        }
        i = i + 1;
    }
    proof {
        assert(opts@.subrange(0, opts@.len() as int) =~= opts@);
    }
    out
}

impl Command {
    /// A copy of the command, with the same text in every namespace.
    #[verifier::spinoff_prover]
    #[verifier::rlimit(40)]
    pub fn copy(&self) -> (r: Command)
        ensures
            forall|ns: Seq<char>| #[trigger] r.spec_text(ns) == self.spec_text(ns),
        decreases self,
    {
        let r = match self {
            Command::Raw(s) => Command::Raw(s.clone()),
            Command::TellRaw(sel, raw) => Command::TellRaw(copy_string_selector(sel), raw.clone()),
            Command::EffectGive { target, effect, duration, level } => Command::EffectGive {
                target: copy_string_selector(target),
                effect: effect.clone(),
                duration: *duration,
                level: *level,
            },
            Command::Kill(t) => Command::Kill(copy_string_selector(t)),
            Command::Function(f) => Command::Function(f.clone()),
            Command::Schedule { func, time, replace } => Command::Schedule {
                func: func.clone(),
                time: *time,
                replace: *replace,
            },
            Command::ScoreSet { target, objective, value } => Command::ScoreSet {
                target: target.clone(),
                objective: objective.clone(),
                value: *value,
            },
            Command::ScoreGet { target, objective } => Command::ScoreGet {
                target: target.clone(),
                objective: objective.clone(),
            },
            Command::ScoreAdd { target, objective, value } => Command::ScoreAdd {
                target: target.clone(),
                objective: objective.clone(),
                value: *value,
            },
            Command::ScoreOperation { target, target_objective, operation, source, source_objective } =>
                Command::ScoreOperation {
                target: target.clone(),
                target_objective: target_objective.clone(),
                operation: *operation,
                source: source.clone(),
                source_objective: source_objective.clone(),
            },
            Command::XpAdd { target, amount, levels } => Command::XpAdd {
                target: copy_string_selector(target),
                amount: *amount,
                levels: *levels,
            },
            Command::XpSet { target, amount, levels } => Command::XpSet {
                target: copy_string_selector(target),
                amount: *amount,
                levels: *levels,
            },
            Command::XpGet { target, levels } => Command::XpGet {
                target: copy_string_selector(target),
                levels: *levels,
            },
            Command::DataSetFrom { target, src } => Command::DataSetFrom { target: target.copy(), src: src.copy() },
            Command::DataGet(t) => Command::DataGet(t.copy()),
            Command::DataSetValue { target, value } => Command::DataSetValue {
                target: target.copy(),
                value: value.clone(),
            },
            Command::Execute { options, cmd } => {
                let o = copy_options(options);
                let c = (**cmd).copy();
                let r = Command::Execute { options: o, cmd: Box::new(c) };
                proof {
                    assert forall|ns: Seq<char>| #[trigger] r.spec_text(ns) == self.spec_text(ns) by {
                        assert(options_text(o@, ns) == options_text(options@, ns));
                        assert(c.spec_text(ns) == cmd.spec_text(ns));
                        assert(r.spec_text(ns) =~= self.spec_text(ns));
                    }
                }
                r
            },
            Command::Teleport { target, destination } => Command::Teleport {
                target: copy_string_selector(target),
                destination: *destination,
            },
            Command::TeleportTo { target, destination } => Command::TeleportTo {
                target: copy_string_selector(target),
                destination: copy_string_selector(destination),
            },
            Command::Sound { sound, source, target, pos, volume, pitch, min_volume } => Command::Sound {
                sound: sound.clone(),
                source: source.clone(),
                target: copy_string_selector(target),
                pos: *pos,
                volume: *volume,
                pitch: *pitch,
                min_volume: *min_volume,
            },
            Command::Damage { target, amount, damage_type, attacker } => Command::Damage {
                target: copy_string_selector(target),
                amount: *amount,
                damage_type: damage_type.clone(),
                attacker: copy_string_selector(attacker),
            },
        };
        proof {
            assert forall|ns: Seq<char>| #[trigger] r.spec_text(ns) == self.spec_text(ns) by {
                match self {
                    Command::Raw(..) => { assert(r.spec_text(ns) =~= self.spec_text(ns)); },
                    Command::TellRaw(..) => { assert(r.spec_text(ns) =~= self.spec_text(ns)); },
                    Command::EffectGive{..} => { assert(r.spec_text(ns) =~= self.spec_text(ns)); },
                    Command::Kill(..) => { assert(r.spec_text(ns) =~= self.spec_text(ns)); },
                    Command::Function(..) => { assert(r.spec_text(ns) =~= self.spec_text(ns)); },
                    Command::Schedule{..} => { assert(r.spec_text(ns) =~= self.spec_text(ns)); },
                    Command::ScoreSet{..} => { assert(r.spec_text(ns) =~= self.spec_text(ns)); },
                    Command::ScoreGet{..} => { assert(r.spec_text(ns) =~= self.spec_text(ns)); },
                    Command::ScoreAdd{..} => { assert(r.spec_text(ns) =~= self.spec_text(ns)); },
                    Command::ScoreOperation{..} => { assert(r.spec_text(ns) =~= self.spec_text(ns)); },
                    Command::XpAdd{..} => { assert(r.spec_text(ns) =~= self.spec_text(ns)); },
                    Command::XpSet{..} => { assert(r.spec_text(ns) =~= self.spec_text(ns)); },
                    Command::XpGet{..} => { assert(r.spec_text(ns) =~= self.spec_text(ns)); },
                    Command::DataSetFrom{..} => { assert(r.spec_text(ns) =~= self.spec_text(ns)); },
                    Command::DataGet(..) => { assert(r.spec_text(ns) =~= self.spec_text(ns)); },
                    Command::DataSetValue{..} => { assert(r.spec_text(ns) =~= self.spec_text(ns)); },
                    Command::Execute{..} => {},
                    Command::Teleport{..} => { assert(r.spec_text(ns) =~= self.spec_text(ns)); },
                    Command::TeleportTo{..} => { assert(r.spec_text(ns) =~= self.spec_text(ns)); },
                    Command::Sound{..} => { assert(r.spec_text(ns) =~= self.spec_text(ns)); },
                    Command::Damage{..} => { assert(r.spec_text(ns) =~= self.spec_text(ns)); },
                }
            }
        }
        r
    }
}

/// A command seen through its text: the function from a namespace to the command's text.
pub open spec fn cmd_view(c: Command) -> spec_fn(Seq<char>) -> Seq<char> {
    |ns: Seq<char>| c.spec_text(ns)
}

impl DeepView for Command {
    type V = spec_fn(Seq<char>) -> Seq<char>;

    open spec fn deep_view(&self) -> Self::V {
        cmd_view(*self)
    }
}

impl crate::dup::Duplicate for Command {
    fn duplicate(&self) -> (r: Self) {
        let r = self.copy();
        assert(r.deep_view() =~= self.deep_view());
        r
    }
}

} // verus!
