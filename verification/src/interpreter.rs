//! Turns a syntax tree into the intermediate representation: functions, items, objectives.
use vstd::prelude::*;
use crate::command::{Command, ExecuteOption, NbtLocation};
use crate::convert::{debug_string, debug_text, push_debug, spec_string_of, stringify_selector};
use crate::decimal::Decimal;
use crate::digest::{default_hash, hash_hex};
use crate::repr::{Config, InterRepr, VecCmd};
use crate::syntax::{DataLocation, Operation, Syntax};
use crate::text::{hex_text, owned};
use crate::interpreter::operation::variable_op_result;

/// handles annotations like `@item {...}`
pub mod annotations;
/// handles blocks of the form `if <condition> {...}`
pub mod block;
/// handles the `@item` annotation
pub mod item;
/// handles operations like `counter += 1;`
pub mod operation;
/// handles selector blocks like `as @s {...}`
pub mod selector_block;

verus! {

/// How many files deep `@import` may nest.
pub const MAX_IMPORT_DEPTH: u32 = 64;

/// Where `@import` finds the text of other source files.
pub trait Loader {
    /// Reads the file `name`, relative to the file at `base`: the path of the file it read,
    /// and its text or the reason it could not be read.
    fn load(&mut self, base: &str, name: &str) -> (String, Result<String, String>);
}

/// A loader for sources that import nothing: every import fails.
pub struct NoImports;

impl Loader for NoImports {
    fn load(&mut self, base: &str, name: &str) -> (r: (String, Result<String, String>))
        ensures
            r.0@ == name@,
            r.1 matches Err(e) && e@ == "imports are not available here"@,
    {
        (owned(name), Err(owned("imports are not available here")))
    }
}

/// `prefix`, the debug text of `syn`, then `suffix`.
pub fn err_with(prefix: &str, syn: &Syntax, suffix: &str) -> (r: String)
    ensures
        r@ == prefix@ + debug_text(*syn) + suffix@,
{
    let mut msg = owned(prefix);
    push_debug(&mut msg, syn);
    msg.append(suffix);
    msg
}

/// `prefix` followed by the hash of `syn`'s debug text, in hexadecimal: a name for a
/// function generated from `syn`.
pub fn hashed_name(prefix: &str, syn: &Syntax) -> (r: String)
    ensures
        r@ == prefix@ + hex_text(default_hash(debug_text(*syn)) as nat),
{
    let mut name = owned(prefix);
    let d = debug_string(syn);
    let h = hash_hex(d.as_str());
    name.append(h.as_str());
    name
}

/// A list of commands with no versions beyond the base.
pub fn single(cmds: Vec<Command>) -> (r: VecCmd)
    ensures
        r.wf(),
        r.base@ == cmds@,
        r.mods@.len() == 0,
{
    crate::versioning::Versioned::from(cmds)
}

impl DataLocation {
    /// Whether the location is a score.
    pub open spec fn is_score(self) -> bool {
        self is Ident || self is Colon || self is Selector || self is SelectorColon
    }

    /// The score holder of a score location: `%name` for a variable, the selector's text
    /// for a selector.
    pub fn stringify_scoreboard_target(&self) -> (r: Result<String, String>)
        ensures
            r is Ok ==> self.is_score(),
            (self is Ident || self is Colon) ==> r is Ok,
            self matches DataLocation::Ident(id) ==> (r matches Ok(t) && t@ == "%"@ + id@),
            self matches DataLocation::Colon(id, _) ==> (r matches Ok(t) && t@ == "%"@ + id@),
            *self matches DataLocation::Selector(sel) ==> (r is Ok <==> crate::interpreter::selector_block::selector_renders(sel)),
            *self matches DataLocation::SelectorColon(sel, _) ==> (r is Ok <==> crate::interpreter::selector_block::selector_renders(
                sel,
            )),
            r matches Ok(t) ==> crate::interpreter::operation::holder_text(*self, t@),
    {
        match self {
            DataLocation::Ident(id) | DataLocation::Colon(id, _) => {
                let mut t = owned("%");
                t.append(id.as_str());
                Ok(t)
            },
            DataLocation::Selector(sel) | DataLocation::SelectorColon(sel, _) => {
                let s = stringify_selector(sel)?;
                assert(crate::interpreter::selector_block::rendered_as(*sel, s));
                Ok(s.to_text())
            },
            _ => {
                let syn = self.copy().into_syntax();
                Err(err_with("", &syn, " isn't a score. This is a compiler error. Please notify the developers"))
            },
        }
    }

    /// The objective of a score location: the dummy objective unless one is named.
    pub fn stringify_scoreboard_objective(&self, config: &Config) -> (r: Result<String, String>)
        ensures
            r is Ok == self.is_score(),
            (self is Ident || self is Selector) ==> (r matches Ok(o) && o@ == config.dummy_objective@),
            self matches DataLocation::Colon(_, s) ==> (r matches Ok(o) && o@ == s@),
            self matches DataLocation::SelectorColon(_, s) ==> (r matches Ok(o) && o@ == s@),
    {
        match self {
            DataLocation::Ident(_) | DataLocation::Selector(_) => Ok(config.dummy_objective.clone()),
            DataLocation::Colon(_, s) | DataLocation::SelectorColon(_, s) => Ok(s.clone()),
            _ => {
                let syn = self.copy().into_syntax();
                Err(err_with("", &syn, " isn't a score. This is a compiler error. Please notify the developers"))
            },
        }
    }
}

/// The data location that `syn` denotes, or an error naming it.
pub fn get_data_location(syn: &Syntax) -> (r: Result<DataLocation, String>)
    ensures
        syn matches Syntax::Identifier(id) ==> (r matches Ok(DataLocation::Ident(x)) && x@ == id@),
        syn is Integer || syn is String || syn is Float || syn is Unit ==> r is Err,
{
    match DataLocation::try_from_syntax(syn.copy()) {
        Some(loc) => Ok(loc),
        None => Err(err_with("Can't get data location from `", syn, "`")),
    }
}

/// The function a statement `function name { ... }` defines.
pub open spec fn defined_function(stmt: Syntax) -> Option<Seq<char>> {
    match stmt {
        Syntax::Block(crate::syntax::BlockType::Function, lhs, _) => crate::interpreter::block::spec_block_name(*lhs),
        _ => None,
    }
}

/// The base of a list of results, one after the other.
pub open spec fn joined_base(parts: Seq<VecCmd>) -> Seq<spec_fn(Seq<char>) -> Seq<char>>
    decreases parts.len(),
{
    if parts.len() == 0 {
        seq![]
    } else {
        joined_base(parts.drop_last()) + parts.last().base_v()
    }
}

/// The commands of a list of results at version `ver`, one after the other.
pub open spec fn joined_at(parts: Seq<VecCmd>, ver: u8) -> Seq<spec_fn(Seq<char>) -> Seq<char>>
    decreases parts.len(),
{
    if parts.len() == 0 {
        seq![]
    } else {
        joined_at(parts.drop_last(), ver) + crate::versioning::value_at(parts.last().base_v(), parts.last().mods_v(), ver)
    }
}

/// What the statement `src` gives when it succeeds, with `dummy` the dummy objective and
/// `acc` the fixed-point accuracy: the commands of an operation on a variable, of `@raw`
/// and `@function`, of the blocks (see `block_shape` and `if_shape`), and for a list the commands of its
/// statements one after the other, in the base and at every version (a list of one
/// statement gives exactly its result).
pub open spec fn interpreted(src: Syntax, dummy: Seq<char>, acc: int, v: VecCmd) -> bool
    decreases src, 1nat,
{
    match src {
        Syntax::Unit => v.base@.len() == 0 && v.mods@.len() == 0,
        Syntax::BinaryOp { lhs, operation, rhs } => *lhs matches Syntax::Identifier(id) ==> (operation != Operation::ColonEq
            && operation != Operation::QuestionEq ==> variable_op_result(
            "%"@ + id@,
            dummy,
            operation,
            *rhs,
            dummy,
            acc,
            Ok::<VecCmd, String>(v),
        )),
        Syntax::Annotation(name, props) => crate::interpreter::annotations::annotation_result(name@, *props, v),
        Syntax::Block(_, _, body) => crate::interpreter::block::block_shape(src, dummy, acc, v) && (
        crate::interpreter::block::if_on_variable(src) ==> exists|w: VecCmd| interpreted(*body, dummy, acc, w)
            && #[trigger] crate::interpreter::block::if_shape(src, dummy, w, v)),
        Syntax::Array(a) => {
            &&& a@.len() == 1 ==> interpreted(a@[0], dummy, acc, v)
            &&& exists|parts: Seq<VecCmd>|
                #![trigger joined_base(parts)]
                parts.len() == a@.len() && (forall|j: int| 0 <= j < a@.len() ==> interpreted(a@[j], dummy, acc, #[trigger] parts[j]))
                    && v.base_v() == joined_base(parts) && forall|ver: u8| #[trigger]
                    crate::versioning::value_at(v.base_v(), v.mods_v(), ver) == joined_at(parts, ver)
        },
        _ => true,
    }
}

/// An operation on a variable that always succeeds: with another variable (not a
/// fixed-point operation), `= n`, `+= n` and `-= n` (`n` not zero), `*= 2`, `*=` and `/=`
/// by a decimal as `float_scaled_ok` says, `.+=` and `.-=` by a decimal whose value scaled
/// by the accuracy `acc` fits in a score, or with an entity's data, score (not a
/// fixed-point operation) or experience, where the selector renders.
pub open spec fn plain_operation(s: Syntax, acc: int) -> bool {
    s matches Syntax::BinaryOp { lhs, operation, rhs } && *lhs is Identifier && operation != Operation::ColonEq && operation
        != Operation::QuestionEq && ((*rhs is Identifier && !crate::interpreter::operation::is_fixed(operation)) || (
    *rhs matches Syntax::Integer(n) && (operation == Operation::Equal || (operation == Operation::AddEq && n != 0) || (operation
        == Operation::SubEq && n != 0 && n != i32::MIN) || (operation == Operation::MulEq && n == 2))) || (*rhs matches Syntax::Float(
        f,
    ) && (operation == Operation::MulEq || operation == Operation::DivEq) && crate::interpreter::operation::float_scaled_ok(
        operation == Operation::MulEq,
        f,
    )) || (*rhs matches Syntax::Float(f) && (operation == Operation::FixedAddEq || operation == Operation::FixedSubEq)
        && crate::interpreter::operation::fixed_fits(
        f.spec_mantissa() as int,
        acc,
        crate::decimal::pow10(f.spec_scale() as nat) as int,
    ) && (operation == Operation::FixedSubEq ==> crate::decimal::trunc_div(
        f.spec_mantissa() * acc,
        crate::decimal::pow10(f.spec_scale() as nat) as int,
    ) != i32::MIN)) || (*rhs matches Syntax::SelectorNbt(sel, _) && crate::interpreter::selector_block::selector_renders(sel)) || (
    *rhs matches Syntax::SelectorColon(sel, _) && !crate::interpreter::operation::is_fixed(operation)
        && crate::interpreter::selector_block::selector_renders(sel)) || (*rhs matches Syntax::SelectorDoubleColon(sel, id)
        && crate::interpreter::operation::spec_xp_levels(id@) is Some && crate::interpreter::selector_block::selector_renders(sel)))
}

/// A statement that imports nothing and always succeeds under the fixed-point accuracy
/// `acc`: nothing, `@raw "..."`,
/// `@function` with a name, an `@effect` that `effect` accepts, an `@item` as `plain_item`
/// says, an operation as `plain_operation` says, a block as `plain_block` says, a
/// function definition, a selector block with a selector that renders, or an `if` or
/// `unless` that compares a variable with an integer, whose body is such a statement, or
/// a list of such statements.
pub open spec fn plain_statement(s: Syntax, acc: int) -> bool
    decreases s,
{
    match s {
        Syntax::Unit => true,
        Syntax::Annotation(name, props) => (name@ == "raw"@ && *props is String) || (name@ == "function"@ && spec_string_of(*props)
            is Some) || (name@ == "effect"@ && crate::interpreter::annotations::effect_accepted(*props)) || (name@ == "item"@
            && crate::interpreter::item::plain_item(*props, acc)),
        Syntax::BinaryOp { .. } => plain_operation(s, acc),
        Syntax::Block(t, lhs, body) => crate::interpreter::block::plain_block(s) || (t == crate::syntax::BlockType::Function
            && crate::interpreter::block::spec_block_name(*lhs) is Some && plain_statement(*body, acc)) || (*lhs matches Syntax::Selector(
            sel,
        ) && crate::interpreter::selector_block::takes_selector(t) && crate::interpreter::selector_block::selector_renders(sel)
            && plain_statement(*body, acc)) || ((t == crate::syntax::BlockType::If || t == crate::syntax::BlockType::Unless) && (
        *lhs matches Syntax::BinaryOp { lhs: l, operation: op, rhs: r } && *l is Identifier && (*r matches Syntax::Integer(n)
            && crate::interpreter::block::integer_test(t == crate::syntax::BlockType::Unless, op, n) is Some)) && plain_statement(*body, acc)),
        Syntax::Array(a) => forall|j: int| 0 <= j < a@.len() ==> plain_statement(#[trigger] a@[j], acc),
        _ => false,
    }
}

/// Interpret a whole program: its statements go nowhere, its effects land in the returned
/// representation.
pub fn interpret<L: Loader>(src: &Syntax, path: &str, loader: &mut L, config: &Config) -> (r: Result<InterRepr, String>)
    ensures
        r matches Ok(state) ==> state.wf(),
        r matches Ok(state) ==> (*src matches Syntax::Array(a) ==> forall|j: int| 0 <= j < a@.len() ==> (defined_function(
            #[trigger] a@[j],
        ) matches Some(n) ==> state.functions@.contains_key(n))),
        r matches Ok(state) ==> (defined_function(*src) matches Some(n) ==> state.functions@.contains_key(n)),
        r matches Ok(state) ==> state.objectives@.contains_key(config.dummy_objective@),
        src is Unit ==> r is Ok,
        *src matches Syntax::Array(a) && a@.len() == 0 ==> r is Ok,
        *src matches Syntax::Annotation(name, props) && name@ == "raw"@ && *props is String ==> r is Ok,
        src is Identifier || src is String || src is Integer || src is Float || src is Range ==> r is Err,
        *src matches Syntax::Annotation(name, _) && !crate::interpreter::annotations::is_annotation_name(name@) ==> r is Err,
        plain_statement(*src, config.fixed_point_accuracy as int) ==> r is Ok,
{
    let mut state = InterRepr::new(config);
    let ghost fresh = state;
    assert(fresh.objectives@.contains_key(config.dummy_objective@));
    inner_interpret(src, &mut state, path, loader, config, MAX_IMPORT_DEPTH)?;
    Ok(state)
}

/// Interpret one statement (or a list of them) into commands, recording functions, items
/// and objectives in `state`.
#[verifier::loop_isolation(false)]
pub fn inner_interpret<L: Loader>(
    src: &Syntax,
    state: &mut InterRepr,
    path: &str,
    loader: &mut L,
    config: &Config,
    depth: u32,
) -> (r: Result<VecCmd, String>)
    requires
        old(state).wf(),
    ensures
        final(state).wf(),
        final(state).extends(*old(state)),
        r matches Ok(v) ==> v.wf(),
        src is Unit ==> (r matches Ok(v) && v.base@.len() == 0 && v.mods@.len() == 0),
        src is Identifier || src is String || src is Integer || src is Float || src is Range ==> r is Err,
        *src matches Syntax::BinaryOp { lhs, operation, rhs } ==> (*lhs matches Syntax::Identifier(id) ==> (operation
            != Operation::ColonEq && operation != Operation::QuestionEq ==> variable_op_result(
            "%"@ + id@,
            config.dummy_objective@,
            operation,
            *rhs,
            config.dummy_objective@,
            config.fixed_point_accuracy as int,
            r,
        ))),
        *src matches Syntax::Annotation(name, props) ==> (name@ == "raw"@ ==> (*props matches Syntax::String(c) ==> (r matches Ok(
            v,
        ) && v.base@.len() == 1 && v.mods@.len() == 0 && (v.base@[0] matches Command::Raw(t) && t@ == c@)))),
        *src matches Syntax::Annotation(name, props) ==> (name@ == "function"@ ==> (r is Ok <==> spec_string_of(*props) is Some)
            && (r matches Ok(v) ==> v.base@.len() == 1 && v.mods@.len() == 0 && (v.base@[0] matches Command::Function(f)
            && Some(f@) == spec_string_of(*props)))),
        *src matches Syntax::Annotation(name, _) ==> (!crate::interpreter::annotations::is_annotation_name(name@) ==> r is Err),
        defined_function(*src) matches Some(n) ==> (r matches Ok(v) ==> v.base@.len() == 0 && v.mods@.len() == 0
            && final(state).functions@.contains_key(n)),
        *src matches Syntax::Array(a) ==> (r is Ok ==> forall|j: int| 0 <= j < a@.len() ==> (defined_function(#[trigger] a@[j])
            matches Some(n) ==> final(state).functions@.contains_key(n))),
        *src matches Syntax::Array(a) ==> (a@.len() == 0 ==> (r matches Ok(v) && v.base@.len() == 0 && v.mods@.len() == 0)),
        *src matches Syntax::Block(t, lhs, body) ==> ((t == crate::syntax::BlockType::If || t == crate::syntax::BlockType::Unless)
            ==> (*lhs matches Syntax::BinaryOp { lhs: l, .. } ==> (*l is Identifier && *body is Unit ==> (r matches Ok(v)
            && v.base@.len() == 0 && v.mods@.len() == 0)))),
        *src matches Syntax::Block(t, lhs, body) ==> (*lhs matches Syntax::Selector(sel) ==> (t == crate::syntax::BlockType::Tp
            ==> (r matches Ok(v) ==> v.base@.len() == 1 && crate::interpreter::selector_block::teleport_command(sel, *body, v.base@[0])))),
        *src matches Syntax::Block(t, lhs, body) ==> (*lhs matches Syntax::Selector(sel) ==> (
            crate::interpreter::selector_block::takes_selector(t) ==> (r matches Ok(v)
            ==> crate::interpreter::selector_block::selector_block_result(
            t,
            sel,
            *body,
            config.dummy_objective@,
            config.fixed_point_accuracy as int,
            v,
        )))),
        r matches Ok(v) ==> interpreted(*src, config.dummy_objective@, config.fixed_point_accuracy as int, v),
        plain_statement(*src, config.fixed_point_accuracy as int) ==> r is Ok,
    decreases depth, src, 1nat,
{
    match src {
        Syntax::Array(statements) => {
            let ghost dummy = config.dummy_objective@;
            let ghost acc = config.fixed_point_accuracy as int;
            if statements.len() == 1 {
                // one statement needs no buffer: its result is the list's
                proof {
                    assert(decreases_to!(statements => statements[0]));
                    if plain_statement(*src, config.fixed_point_accuracy as int) {
                        assert(plain_statement(statements@[0], config.fixed_point_accuracy as int));
                    }
                }
                let r = inner_interpret(&statements[0], state, path, loader, config, depth);
                proof {
                    if r is Ok {
                        let v = r->Ok_0;
                        let parts = seq![v];
                        assert(parts.drop_last() =~= Seq::<VecCmd>::empty());
                        assert(joined_base(Seq::<VecCmd>::empty()) == Seq::<spec_fn(Seq<char>) -> Seq<char>>::empty());
                        assert(joined_base(parts) == joined_base(parts.drop_last()) + v.base_v());
                        assert(joined_base(parts) =~= v.base_v());
                        assert forall|ver: u8| #[trigger] crate::versioning::value_at(v.base_v(), v.mods_v(), ver) == joined_at(
                            parts,
                            ver,
                        ) by {
                            assert(joined_at(Seq::<VecCmd>::empty(), ver) == Seq::<spec_fn(Seq<char>) -> Seq<char>>::empty());
                            assert(joined_at(parts, ver) == joined_at(parts.drop_last(), ver) + crate::versioning::value_at(
                                v.base_v(),
                                v.mods_v(),
                                ver,
                            ));
                            assert(joined_at(parts, ver) =~= crate::versioning::value_at(v.base_v(), v.mods_v(), ver));
                        }
                        assert(interpreted(statements@[0], dummy, acc, parts[0]));
                    }
                }
                return r;
            }
            let mut buf = VecCmd::default();
            let ghost mut parts: Seq<VecCmd> = seq![];
            proof {
                assert(buf.base_v() =~= joined_base(parts));
            }
            let mut i: usize = 0;
            while i < statements.len()
                invariant
                    state.wf(),
                    state.extends(*old(state)),
                    buf.wf(),
                    i == 0 ==> buf.base@.len() == 0 && buf.mods@.len() == 0,
                    i <= statements@.len(),
                    forall|j: int| 0 <= j < i ==> (defined_function(#[trigger] statements@[j]) matches Some(n)
                        ==> state.functions@.contains_key(n)),
                    parts.len() == i,
                    forall|j: int| 0 <= j < i ==> interpreted(statements@[j], dummy, acc, #[trigger] parts[j]),
                    buf.base_v() == joined_base(parts),
                    forall|ver: u8| #[trigger] crate::versioning::value_at(buf.base_v(), buf.mods_v(), ver) == joined_at(parts, ver),
                decreases statements.len() - i,
            {
                proof {
                    assert(decreases_to!(statements => statements[i as int]));
                }
                proof {
                    if plain_statement(*src, config.fixed_point_accuracy as int) {
                        assert(plain_statement(statements@[i as int], config.fixed_point_accuracy as int));
                    }
                }
                let cmds = inner_interpret(&statements[i], state, path, loader, config, depth)?;
                let ghost c0 = cmds;
                let ghost p0 = parts;
                buf.extend(cmds);
                proof {
                    parts = parts.push(c0);
                    assert(parts.drop_last() =~= p0);
                    assert(parts.last() == c0);
                    assert forall|ver: u8| #[trigger] crate::versioning::value_at(buf.base_v(), buf.mods_v(), ver) == joined_at(
                        parts,
                        ver,
                    ) by {}
                    assert forall|j: int| 0 <= j < i + 1 implies interpreted(statements@[j], dummy, acc, #[trigger] parts[j]) by {
                        if j < i {
                            assert(parts[j] == p0[j]);
                        }
                    }
                }
                i = i + 1;
            }
            Ok(buf)
        },
        Syntax::BinaryOp { lhs, operation, rhs } => {
            if *operation == Operation::ColonEq || *operation == Operation::QuestionEq {
                let loc = get_data_location(lhs)?;
                let inner = inner_interpret(rhs, state, path, loader, config, depth)?;
                let hash = hashed_name("__internal__/", rhs);
                storage_op(loc, *operation == Operation::QuestionEq, inner, hash.as_str(), state, config)
            } else {
                let loc = get_data_location(lhs)?;
                operation::operation(&loc, *operation, rhs, state, config)
            }
        },
        Syntax::Block(..) => block::block(src, state, path, loader, config, depth),
        Syntax::Annotation(..) => annotations::annotations(src, state, path, loader, config, depth),
        Syntax::Unit => Ok(VecCmd::default()),
        other => Err(err_with("Unexpected item `", other, "`")),
    }
}

/// `x := cmd` and `x ?= cmd`: store the result (or the success) of the commands in a
/// score or in NBT.
pub fn storage_op(
    lhs: DataLocation,
    is_success: bool,
    cmd: VecCmd,
    hash: &str,
    state: &mut InterRepr,
    config: &Config,
) -> (r: Result<VecCmd, String>)
    requires
        old(state).wf(),
        cmd.wf(),
    ensures
        final(state).wf(),
        final(state).extends(*old(state)),
        r matches Ok(v) ==> v.wf(),
        lhs is SelectorDoubleColon ==> r is Err,
        lhs is Ident || lhs is Colon || lhs is NbtStorage ==> r is Ok,
        crate::interpreter::operation::variable_holder(lhs) matches Some(t) ==> (r matches Ok(v) && v.base@.len() == 1
            && v.mods@.len() == cmd.mods@.len() && forall|ns: Seq<char>| #[trigger] v.base@[0].spec_text(ns)
            == crate::repr::run_text(
            "store "@ + crate::command::store_word(is_success) + " score "@ + t + " "@
                + crate::interpreter::operation::location_objective(lhs, config.dummy_objective@)->0 + " "@,
            true,
            cmd.base@,
            hash@,
            ns,
        )),
        crate::interpreter::operation::holder_renders(lhs) ==> (r matches Ok(v) && v.base@.len() == 1 && v.mods@.len() == cmd.mods@.len()
            && exists|t: Seq<char>| #[trigger] crate::interpreter::operation::holder_text(lhs, t) && forall|ns: Seq<char>| #[trigger] v.base@[0].spec_text(
            ns,
        ) == crate::repr::run_text(
            "store "@ + crate::command::store_word(is_success) + " score "@ + t + " "@
                + crate::interpreter::operation::location_objective(lhs, config.dummy_objective@)->0 + " "@,
            true,
            cmd.base@,
            hash@,
            ns,
        )),
        lhs matches DataLocation::SelectorNbt(sel, path) ==> (r is Ok <==> crate::interpreter::selector_block::selector_renders(sel)) && (
        r matches Ok(v) ==> v.base@.len() == 1 && exists|s2: crate::syntax::Selector<String>| #[trigger] crate::interpreter::selector_block::rendered_as(
            sel,
            s2,
        ) && forall|ns: Seq<char>| #[trigger] v.base@[0].spec_text(ns) == crate::repr::run_text(
            (ExecuteOption::StoreNBT {
                location: NbtLocation::Entity(s2, path),
                is_success,
                scale: Decimal::spec_from_int(1),
            }).spec_text(ns) + " "@,
            true,
            cmd.base@,
            hash@,
            ns,
        )),
{
    let ghost lhs0 = lhs;
    let ghost cb = cmd.base@;
    let option = if lhs.is_score_location() {
        let target = lhs.stringify_scoreboard_target()?;
        let objective = lhs.stringify_scoreboard_objective(config)?;
        ExecuteOption::StoreScore { target, objective, is_success }
    } else {
        match lhs {
            DataLocation::SelectorNbt(sel, nbt) => {
                let s = stringify_selector(&sel)?;
                assert(crate::interpreter::selector_block::rendered_as(sel, s));
                ExecuteOption::StoreNBT { location: NbtLocation::Entity(s, nbt), is_success, scale: Decimal::from_int(1) }
            },
            DataLocation::NbtStorage(nbt) => ExecuteOption::StoreNBT {
                location: NbtLocation::Storage(nbt),
                is_success,
                scale: Decimal::from_int(1),
            },
            _ => return Err(owned("Can't assign a command result to an xp level")),
        }
    };
    let ghost opt = option;
    let options = vec![option];
    assert(options@ =~= seq![opt]);
    let r = Command::execute(&options, cmd, hash, state);
    proof {
        assert forall|ns: Seq<char>| #[trigger] r.base.spec_text(ns) == crate::repr::run_text(
            opt.spec_text(ns) + " "@,
            true,
            cb,
            hash@,
            ns,
        ) by {
            crate::repr::lemma_one_option(opt, ns);
        }
    }
    Ok(r.into_vec())
}

impl DataLocation {
    /// Whether the location is a score (see `is_score`).
    pub fn is_score_location(&self) -> (b: bool)
        ensures
            b == self.is_score(),
    {
        match self {
            DataLocation::Ident(_) | DataLocation::Colon(..) | DataLocation::Selector(_) | DataLocation::SelectorColon(..) => true,
            _ => false,
        }
    }
}

/// Interpret a program with a throwaway state and no imports, giving the base version of
/// the commands it produces.
pub fn test_interpret(src: &Syntax) -> (r: Result<Vec<Command>, String>)
    ensures
        src is Unit ==> (r matches Ok(v) && v@.len() == 0),
        src is Identifier || src is String || src is Integer || src is Float || src is Range ==> r is Err,
        *src matches Syntax::BinaryOp { lhs, operation, rhs } ==> (*lhs matches Syntax::Identifier(id) ==> (*rhs matches Syntax::Integer(
            n,
        ) ==> (operation == Operation::Equal ==> (r matches Ok(v) && v@.len() == 1 && (v@[0] matches Command::ScoreSet {
            target,
            objective,
            value,
        } && target@ == "%"@ + id@ && objective@ == "dummy"@ && value == n))))),
        *src matches Syntax::Annotation(name, props) ==> (name@ == "raw"@ ==> (*props matches Syntax::String(c) ==> (r matches Ok(
            v,
        ) && v@.len() == 1 && (v@[0] matches Command::Raw(t) && t@ == c@)))),
        r matches Ok(cmds) ==> exists|v: VecCmd| #[trigger] interpreted(*src, "dummy"@, 100, v) && cmds@ == v.base@,
        plain_statement(*src, 100) ==> r is Ok,
{
    let config = Config {
        namespace: owned("test"),
        dummy_objective: owned("dummy"),
        fixed_point_accuracy: 100,
    };
    let mut state = InterRepr::new(&config);
    let mut loader = NoImports;
    let cmds = inner_interpret(src, &mut state, "", &mut loader, &config, MAX_IMPORT_DEPTH)?;
    assert(interpreted(*src, "dummy"@, 100, cmds));
    Ok(cmds.base)
}

} // verus!
