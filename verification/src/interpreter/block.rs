//! Blocks: `if x = 1 {...}`, loops, `switch`, named functions, advancements, `async`,
//! and the blocks that change the execution context.
use vstd::prelude::*;
use crate::command::{Command, Coordinate, ExecuteOption};
use crate::convert::{debug_text, nbt_from_syntax, push_debug, stringify_selector};
use crate::digest::default_hash;
use crate::decimal::Decimal;
use crate::interpreter::{err_with, get_data_location, hashed_name, inner_interpret, single, Loader};
use crate::interpreter::operation::{declare_objective, location_objective, operation, single_command, variable_holder};
use crate::repr::run_text;
use crate::interpreter::selector_block;
use crate::interpreter::selector_block::{damage_body, selector_renders, takes_selector, teleport_ok};
use crate::nbt::Nbt;
use crate::repr::{Config, InterRepr, VecCmd};
use crate::strmap::{keys_sorted, StrMap};
use crate::syntax::{BlockType, DataLocation, Operation, Syntax};
use crate::text::{hex_text, owned, str_eq};
use crate::versioning::{Prepend, Versioned};
use crate::dup::Duplicate;

verus! {

/// One coordinate of a position: `~x` is relative, an integer or a decimal is absolute.
pub open spec fn coord_axis(s: Syntax) -> Option<(bool, Decimal)> {
    match s {
        Syntax::WooglyCoord(d) => Some((true, d)),
        Syntax::Integer(i) => Some((false, Decimal::spec_from_int(i))),
        Syntax::Float(d) => Some((false, d)),
        _ => None,
    }
}

/// The position a list of three coordinates denotes: three `^` coordinates are local,
/// otherwise each is relative or absolute.
pub open spec fn spec_coordinate(syn: Syntax) -> Option<Coordinate> {
    match syn {
        Syntax::Array(v) => if v@.len() == 3 {
            match (v@[0], v@[1], v@[2]) {
                (Syntax::CaretCoord(a), Syntax::CaretCoord(b), Syntax::CaretCoord(c)) => Some(Coordinate::Angular(a, b, c)),
                _ => match (coord_axis(v@[0]), coord_axis(v@[1]), coord_axis(v@[2])) {
                    (Some(a), Some(b), Some(c)) => Some(Coordinate::Linear(a.0, a.1, b.0, b.1, c.0, c.1)),
                    _ => None,
                },
            }
        } else {
            None
        },
        _ => None,
    }
}

fn axis(s: &Syntax) -> (r: Result<(bool, Decimal), String>)
    ensures
        r is Ok == coord_axis(*s) is Some,
        r matches Ok(a) ==> coord_axis(*s) == Some(a),
{
    match s {
        Syntax::WooglyCoord(d) => Ok((true, *d)),
        Syntax::Integer(i) => Ok((false, Decimal::from_int(*i))),
        Syntax::Float(d) => Ok((false, *d)),
        _ => Err(err_with("Expected a list of 3 coordinates; got `", s, "`")),
    }
}

/// The position a list of three coordinates denotes (see `spec_coordinate`).
pub fn coordinate_from(body: &Syntax) -> (r: Result<Coordinate, String>)
    ensures
        r is Ok == spec_coordinate(*body) is Some,
        r matches Ok(c) ==> spec_coordinate(*body) == Some(c),
{
    match body {
        Syntax::Array(arr) => {
            if arr.len() != 3 {
                return Err(err_with("Expected a list of 3 coordinates; got `", body, "`"));
            }
            match (&arr[0], &arr[1], &arr[2]) {
                (Syntax::CaretCoord(a), Syntax::CaretCoord(b), Syntax::CaretCoord(c)) => Ok(Coordinate::Angular(*a, *b, *c)),
                _ => {
                    let a = axis(&arr[0])?;
                    let b = axis(&arr[1])?;
                    let c = axis(&arr[2])?;
                    Ok(Coordinate::Linear(a.0, a.1, b.0, b.1, c.0, c.1))
                },
            }
        },
        _ => Err(err_with("Expected a list of 3 coordinates; got `", body, "`")),
    }
}

/// The name in a block header: the text of an identifier or a string.
pub open spec fn spec_block_name(s: Syntax) -> Option<Seq<char>> {
    match s {
        Syntax::Identifier(t) => Some(t@),
        Syntax::String(t) => Some(t@),
        _ => None,
    }
}

/// The name in a block header that must be an identifier or a string.
fn block_name(s: &Syntax) -> (r: Option<String>)
    ensures
        r is Some == (s is Identifier || s is String),
        s matches Syntax::Identifier(t) ==> (r matches Some(n) && n@ == t@),
        s matches Syntax::String(t) ==> (r matches Some(n) && n@ == t@),
{
    match s {
        Syntax::Identifier(t) | Syntax::String(t) => Some(t.clone()),
        _ => None,
    }
}

/// A header with a selector and a body that a selector block accepts (see the success
/// conditions of `selector_block::block`).
pub open spec fn plain_selector_block(t: BlockType, sel: crate::syntax::Selector<Syntax>, body: Syntax) -> bool {
    ||| t == BlockType::Tp && teleport_ok(sel, body)
    ||| t == BlockType::Damage && selector_renders(sel) && damage_body(body, true)
    ||| t == BlockType::Tellraw && selector_renders(sel) && (body is String || body is Identifier)
    ||| takes_selector(t) && selector_renders(sel) && body is Unit
}

/// A block whose interpretation involves no import and always succeeds: each kind with a
/// header it accepts and an empty body (or, for `switch`, only empty cases; for `async`,
/// only delays; for `advancement`, plain NBT properties; for `tp`, `damage` and
/// `tellraw`, an accepted body).
pub open spec fn plain_block(src: Syntax) -> bool {
    src matches Syntax::Block(t, lhs, body) && {
        let name = spec_block_name(*lhs);
        ||| (t == BlockType::If || t == BlockType::Unless) && (*lhs matches Syntax::BinaryOp { lhs: l, .. } && *l is Identifier)
            && *body is Unit
        ||| (t == BlockType::For || t == BlockType::While || t == BlockType::Until || t == BlockType::DoWhile || t
            == BlockType::DoUntil) && (*lhs matches Syntax::BinaryOp { lhs: l, operation: op, rhs: r } && loop_header_ok(
            t,
            *l,
            op,
            *r,
        )) && *body is Unit
        ||| t == BlockType::Switch && *lhs is Integer && (*body matches Syntax::Array(a) && forall|i: int|
            0 <= i < a@.len() ==> empty_case(#[trigger] a@[i]))
        ||| (*lhs matches Syntax::Selector(sel) && plain_selector_block(t, sel, *body)) && t != BlockType::If && t
            != BlockType::Unless && t != BlockType::Switch
        ||| name is Some && t == BlockType::Function && *body is Unit
        ||| name is Some && t == BlockType::Advancement && (*body matches Syntax::Object(m) && forall|k: Seq<char>|
            #[trigger] m@.contains_key(k) ==> k != "reward"@ && k != "reward_each"@ && crate::convert::nbt_convertible(
            m@[k],
            false,
        ))
        ||| name is Some && t == BlockType::Async && (*body is Unit || (*body matches Syntax::Array(a) && forall|i: int|
            0 <= i < a@.len() ==> async_step_ok(#[trigger] a@[i])))
        ||| (*lhs matches Syntax::Identifier(id) && (t == BlockType::Summon || t == BlockType::Anchored || (t == BlockType::On
            && (id@ == "attacker"@ || id@ == "controller"@ || id@ == "leasher"@ || id@ == "origin"@ || id@ == "owner"@
            || id@ == "passengers"@ || id@ == "target"@ || id@ == "vehicle"@)))) && *body is Unit
        ||| t == BlockType::Rotated && (*lhs matches Syntax::Array(a) && a@.len() == 2 && (a@[0] is Integer || a@[0] is Float
            || a@[0] is WooglyCoord) && (a@[1] is Integer || a@[1] is Float || a@[1] is WooglyCoord)) && *body is Unit
        ||| (t == BlockType::Facing || t == BlockType::Positioned) && spec_coordinate(*lhs) is Some && *body is Unit
    }
}

/// The function `f` begins with the commands `w` of a loop's body.
pub open spec fn runs_body_first(w: VecCmd, f: VecCmd) -> bool {
    w.base_v().len() <= f.base_v().len() && f.base_v().subrange(0, w.base_v().len() as int) == w.base_v()
}

/// An `if` or `unless` block that tests a variable against an integer in a way it accepts.
pub open spec fn if_on_variable(src: Syntax) -> bool {
    src matches Syntax::Block(t, lhs, _) && (t == BlockType::If || t == BlockType::Unless) && (*lhs matches Syntax::BinaryOp {
        lhs: l,
        operation: op,
        rhs: rr,
    } && *l is Identifier && (*rr matches Syntax::Integer(n) && integer_test(t == BlockType::Unless, op, n) is Some))
}

/// What such an `if` block gives when its body gave `w`: nothing when the body gives
/// nothing, else one command that runs the body's commands under the test (see
/// `interpret_if`).
pub open spec fn if_shape(src: Syntax, dummy: Seq<char>, w: VecCmd, v: VecCmd) -> bool {
    src matches Syntax::Block(t, lhs, body) ==> (*lhs matches Syntax::BinaryOp { lhs: l, operation: op, rhs: rr } ==> (
    *l matches Syntax::Identifier(id) ==> (*rr matches Syntax::Integer(n) ==> (integer_test(t == BlockType::Unless, op, n)
        matches Some(tt) ==> (w.base@.len() == 0 ==> v.base@.len() == 0 && v.mods@.len() == 0) && (w.base@.len() > 0
        ==> v.base@.len() == 1 && forall|ns: Seq<char>| #[trigger] v.base@[0].spec_text(ns) == run_text(
        score_test_text(tt.0, "%"@ + id@, dummy, tt.1, tt.2) + " "@,
        true,
        w.base@,
        body_fn_name("__internal__/if_"@, *body),
        ns,
    ))))))
}

/// What a block gives when it succeeds, with `dummy` the dummy objective (see `block`;
/// for the body of an `if`, see `if_result`).
pub open spec fn block_shape(src: Syntax, dummy: Seq<char>, acc: int, v: VecCmd) -> bool
    decreases src, 0nat,
{
    &&& src matches Syntax::Block(BlockType::Function, lhs, _) ==> (spec_block_name(*lhs) is Some ==> v.base@.len() == 0
        && v.mods@.len() == 0)
    &&& src matches Syntax::Block(BlockType::Advancement, lhs, body) ==> (spec_block_name(*lhs) is Some && *body is Object
        ==> v.base@.len() == 0 && v.mods@.len() == 0)
    &&& src matches Syntax::Block(BlockType::For, lhs, body) ==> (*lhs matches Syntax::BinaryOp { rhs, .. } ==> v.base@.len() == 2
        && v.mods@.len() == 0 && (v.base@[0] matches Command::ScoreSet { value, .. } && value == range_start(*rhs)) && (
        v.base@[1] matches Command::Function(f) && f@ == loop_name(*body)))
    &&& src matches Syntax::Block(t, lhs, body) ==> ((t == BlockType::If || t == BlockType::Unless) ==> (*lhs matches Syntax::BinaryOp {
        lhs: l,
        ..
    } ==> (*l is Identifier && *body is Unit ==> v.base@.len() == 0 && v.mods@.len() == 0)))
    &&& src matches Syntax::Block(t, lhs, body) ==> ((t == BlockType::While || t == BlockType::Until) ==> (*lhs matches Syntax::BinaryOp {
        lhs: l,
        operation: op,
        rhs: rr,
    } ==> (*l matches Syntax::Identifier(id) ==> (*rr matches Syntax::Integer(n) ==> (integer_test(t == BlockType::Until, op, n)
        matches Some(tt) ==> v.base@.len() == 1 && forall|ns: Seq<char>| #[trigger] v.base@[0].spec_text(ns) == "execute "@
        + score_test_text(tt.0, "%"@ + id@, dummy, tt.1, tt.2) + " run function "@ + ns + ":"@ + crate::command::mc_ident(
        loop_name(*body),
    ))))))
    &&& src matches Syntax::Block(BlockType::Switch, lhs, body) ==> (*body is Array ==> (*lhs matches Syntax::Integer(n)
        ==> v.base@.len() >= 1 && exists|c: Command| #[trigger] crate::command::cmd_view(c) == crate::command::cmd_view(
        v.base@[0],
    ) && (c matches Command::ScoreSet { target, objective, value } && target@ == "%"@ + body_fn_name(
        "__internal__/switch_"@,
        *body,
    ) && objective@ == dummy && value == n)))
    &&& src matches Syntax::Block(BlockType::Rotated, lhs, body) ==> (*lhs matches Syntax::Array(a) ==> (a@.len() == 2 ==> runs_under(
        rotation_option_text(a@[0], a@[1]),
        body_fn_name("__internal__/rotated_"@, *body),
        *body,
        dummy,
        acc,
        v,
    )))
    &&& src matches Syntax::Block(t, lhs, body) ==> ((t == BlockType::On || t == BlockType::Summon || t == BlockType::Anchored)
        ==> (*lhs matches Syntax::Identifier(id) ==> runs_under(
        ident_option_text(t, id@),
        body_fn_name(ident_fn_prefix(t), *body),
        *body,
        dummy,
        acc,
        v,
    )))
    &&& src matches Syntax::Block(t, lhs, body) ==> (*lhs matches Syntax::Selector(sel) ==> (t == BlockType::Tp ==> v.base@.len() == 1
        && selector_block::teleport_command(sel, *body, v.base@[0])))
    &&& src matches Syntax::Block(t, lhs, body) ==> (*lhs matches Syntax::Selector(sel) ==> (takes_selector(t)
        ==> selector_block::selector_block_result(t, sel, *body, dummy, acc, v)))
}

/// Interpret a block `<kind> <header> <body>`.
#[verifier::spinoff_prover]
#[verifier::rlimit(40)]
pub fn block<L: Loader>(src: &Syntax, state: &mut InterRepr, path: &str, loader: &mut L, config: &Config, depth: u32) -> (r:
    Result<VecCmd, String>)
    requires
        old(state).wf(),
    ensures
        final(state).wf(),
        final(state).extends(*old(state)),
        r matches Ok(v) ==> v.wf(),
        !(src is Block) ==> r is Err,
        *src matches Syntax::Block(BlockType::Function, lhs, _) ==> (spec_block_name(*lhs) matches Some(n) ==> (r matches Ok(v)
            ==> v.base@.len() == 0 && v.mods@.len() == 0 && final(state).functions@.contains_key(n))),
        *src matches Syntax::Block(BlockType::Advancement, lhs, body) ==> (spec_block_name(*lhs) matches Some(n) ==> (*body is Object
            ==> (r matches Ok(v) ==> v.base@.len() == 0 && v.mods@.len() == 0 && final(state).advancements@.contains_key(n)))),
        *src matches Syntax::Block(BlockType::For, lhs, body) ==> (*lhs matches Syntax::BinaryOp { rhs, .. } ==> (r matches Ok(v)
            ==> v.base@.len() == 2 && v.mods@.len() == 0 && (v.base@[0] matches Command::ScoreSet { value, .. } && value
            == range_start(*rhs)) && (v.base@[1] matches Command::Function(f) && f@ == loop_name(*body))
            && final(state).functions@.contains_key(loop_name(*body)))),
        *src matches Syntax::Block(t, lhs, body) ==> ((t == BlockType::If || t == BlockType::Unless) ==> (*lhs matches Syntax::BinaryOp {
            lhs: l,
            ..
        } ==> (*l is Identifier && *body is Unit ==> (r matches Ok(v) && v.base@.len() == 0 && v.mods@.len() == 0)))),
        plain_block(*src) ==> r is Ok,
        *src matches Syntax::Block(BlockType::Function, lhs, body) ==> (spec_block_name(*lhs) is Some
            && crate::interpreter::plain_statement(*body, config.fixed_point_accuracy as int) ==> r is Ok),
        *src matches Syntax::Block(t, lhs, body) ==> (*lhs matches Syntax::Selector(sel) ==> (takes_selector(t) && selector_renders(
            sel,
        ) && crate::interpreter::plain_statement(*body, config.fixed_point_accuracy as int) ==> r is Ok)),
        *src matches Syntax::Block(t, lhs, body) ==> ((t == BlockType::If || t == BlockType::Unless) ==> (*lhs matches Syntax::BinaryOp {
            lhs: l,
            operation: op,
            rhs: rr,
        } ==> (*l is Identifier && (*rr matches Syntax::Integer(n) && integer_test(t == BlockType::Unless, op, n) is Some)
            && crate::interpreter::plain_statement(*body, config.fixed_point_accuracy as int) ==> r is Ok))),
        r matches Ok(v) ==> block_shape(*src, config.dummy_objective@, config.fixed_point_accuracy as int, v),
        *src matches Syntax::Block(t, lhs, body) ==> ((t == BlockType::For || t == BlockType::While || t == BlockType::Until || t
            == BlockType::DoWhile || t == BlockType::DoUntil) && *lhs is BinaryOp ==> (r is Ok ==> exists|w: VecCmd|
            crate::interpreter::interpreted(*body, config.dummy_objective@, config.fixed_point_accuracy as int, w)
            && #[trigger] runs_body_first(w, final(state).functions@[loop_name(*body)]))),
        r matches Ok(v) ==> (if_on_variable(*src) ==> exists|w: VecCmd| crate::interpreter::interpreted(
            *src->Block_2,
            config.dummy_objective@,
            config.fixed_point_accuracy as int,
            w,
        ) && #[trigger] if_shape(*src, config.dummy_objective@, w, v)),
    decreases depth, src, 0nat,
{
    let Syntax::Block(block_type, lhs, body) = src else {
        return Err(err_with("Expected a block; got `", src, "`"));
    };
    let block_type = *block_type;
    let lhs: &Syntax = lhs;
    let body: &Syntax = body;
    if block_type == BlockType::If || block_type == BlockType::Unless {
        if let Syntax::BinaryOp { lhs: left_syn, operation: op, rhs: right } = lhs {
            let left = get_data_location(left_syn)?;
            let content = inner_interpret(body, state, path, loader, config, depth)?;
            let hash = hashed_name("__internal__/if_", body);
            let ghost w = content;
            let r = interpret_if(block_type == BlockType::Unless, &left, *op, right, content, hash.as_str(), state, config);
            proof {
                let dummy = config.dummy_objective@;
                let acc = config.fixed_point_accuracy as int;
                assert(crate::interpreter::interpreted(*body, dummy, acc, w));
                assert(hash@ == body_fn_name("__internal__/if_"@, *body));
                if r is Ok {
                    let v = r->Ok_0;
                    if (**left_syn is Identifier) && (**right is Integer) && integer_test(
                        block_type == BlockType::Unless,
                        *op,
                        (**right)->Integer_0,
                    ) is Some {
                        let id = (**left_syn)->Identifier_0;
                        let n = (**right)->Integer_0;
                        {
                            {
                                let tt = integer_test(block_type == BlockType::Unless, *op, n)->0;
                                assert(variable_holder(left) == Some("%"@ + id@));
                                assert((w.base@.len() == 0 ==> v.base@.len() == 0 && v.mods@.len() == 0) && (w.base@.len() > 0
                                    ==> v.base@.len() == 1 && forall|ns: Seq<char>| #[trigger] v.base@[0].spec_text(ns) == run_text(
                                    score_test_text(tt.0, "%"@ + id@, dummy, tt.1, tt.2) + " "@,
                                    true,
                                    w.base@,
                                    body_fn_name("__internal__/if_"@, *body),
                                    ns,
                                )));
                                assert(exists|w2: VecCmd| #[trigger] crate::interpreter::interpreted(*body, dummy, acc, w2) && (
                                w2.base@.len() == 0 ==> v.base@.len() == 0 && v.mods@.len() == 0) && (w2.base@.len() > 0
                                    ==> v.base@.len() == 1 && forall|ns: Seq<char>| #[trigger] v.base@[0].spec_text(ns) == run_text(
                                    score_test_text(tt.0, "%"@ + id@, dummy, tt.1, tt.2) + " "@,
                                    true,
                                    w2.base@,
                                    body_fn_name("__internal__/if_"@, *body),
                                    ns,
                                )));
                                assert(*src == Syntax::Block(block_type, Box::new(*lhs), Box::new(*body)));
                            }
                        }
                    }
                    assert(if_shape(*src, dummy, w, v));
                }
            }
            return r;
        }
    }
    if block_type == BlockType::For || block_type == BlockType::While || block_type == BlockType::Until || block_type
        == BlockType::DoWhile || block_type == BlockType::DoUntil {
        if let Syntax::BinaryOp { lhs: left, operation: op, rhs: right } = lhs {
            return loop_block(block_type, left, *op, right, body, state, path, loader, config, depth);
        }
    }
    if block_type == BlockType::Switch {
        if let Syntax::Array(_) = body {
            return switch_block(lhs, body, state, path, loader, config, depth);
        }
    }
    if let Syntax::Selector(selector) = lhs {
        return selector_block::block(block_type, selector, body, state, path, loader, config, depth);
    }
    let name = block_name(lhs);
    if let Some(ident) = name {
        if block_type == BlockType::Function {
            let inner = inner_interpret(body, state, path, loader, config, depth)?;
            state.insert_function(ident, inner);
            return Ok(VecCmd::default());
        }
        if block_type == BlockType::Advancement {
            if let Syntax::Object(_) = body {
                let adv = advancement(ident.as_str(), body, state, path, loader, config, depth)?;
                state.advancements.insert(ident, adv);
                return Ok(VecCmd::default());
            }
        }
        if block_type == BlockType::Async {
            return async_block(body, ident, state, path, loader, config, depth);
        }
        if block_type == BlockType::On || block_type == BlockType::Summon || block_type == BlockType::Anchored {
            return ident_block(block_type, ident, body, state, path, loader, config, depth);
        }
    }
    if block_type == BlockType::Rotated {
        if let Syntax::Array(arr) = lhs {
            if arr.len() == 2 {
                return rotated_block(&arr[0], &arr[1], body, state, path, loader, config, depth);
            } else {
                let mut msg = owned("Expected a `rotated [{yaw}, {pitch}]` or `rotated @[{selector}]`; got `rotated ");
                push_debug(&mut msg, lhs);
                msg.append("`");
                return Err(msg);
            }
        }
    }
    match coordinate_from(lhs) {
        Ok(coord) => coord_block(block_type, coord, body, state, path, loader, config, depth),
        Err(_) => {
            let mut msg = owned("Unsupported block invocation: `");
            msg.append(block_type.name());
            msg.append(" ");
            push_debug(&mut msg, lhs);
            msg.append(" ");
            push_debug(&mut msg, body);
            msg.append("`");
            Err(msg)
        },
    }
}

/// The name of the function that runs one round of a loop with this body.
pub open spec fn loop_name(body: Syntax) -> Seq<char> {
    "__internal__/"@ + hex_text(default_hash(debug_text(body)) as nat)
}

/// Where a for-loop's counter starts: the lower bound of its range, else 0.
pub open spec fn range_start(right: Syntax) -> i32 {
    match right {
        Syntax::Range(Some(s), _) => s,
        _ => 0,
    }
}

/// A case of a switch whose body does nothing: `case <integer> {}`.
pub open spec fn empty_case(s: Syntax) -> bool {
    s matches Syntax::Block(BlockType::Case, v, b) && *v is Integer && *b is Unit
}

/// A loop header that is accepted: a variable, and for `for` a range after `in`, for the
/// other loops a comparison with an integer.
pub open spec fn loop_header_ok(block_type: BlockType, left: Syntax, op: Operation, right: Syntax) -> bool {
    left is Identifier && if block_type == BlockType::For {
        right is Range && op == Operation::In
    } else {
        right matches Syntax::Integer(n) && integer_test(
            block_type == BlockType::DoUntil || block_type == BlockType::Until,
            op,
            n,
        ) is Some
    }
}

/// Handle a switch statement: the value is copied into a temporary score, then each case
/// runs if the score equals its value.
#[verifier::loop_isolation(false)]
fn switch_block<L: Loader>(
    lhs: &Syntax,
    body: &Syntax,
    state: &mut InterRepr,
    path: &str,
    loader: &mut L,
    config: &Config,
    depth: u32,
) -> (r: Result<VecCmd, String>)
    requires
        old(state).wf(),
        body is Array,
    ensures
        final(state).wf(),
        final(state).extends(*old(state)),
        r matches Ok(v) ==> v.wf(),
        lhs is Integer && (body matches Syntax::Array(a) && forall|i: int| 0 <= i < a@.len() ==> empty_case(#[trigger] a@[i]))
            ==> r is Ok,
        (body matches Syntax::Array(a) && exists|i: int| 0 <= i < a@.len() && !(#[trigger] a@[i] is Block && a@[i]->Block_0
            == BlockType::Case)) ==> r is Err,
        lhs matches Syntax::Integer(n) ==> (r matches Ok(v) ==> v.base@.len() >= 1 && exists|c: Command| #[trigger] crate::command::cmd_view(c)
            == crate::command::cmd_view(v.base@[0]) && (c matches Command::ScoreSet { target, objective, value } && target@
            == "%"@ + body_fn_name("__internal__/switch_"@, *body) && objective@ == config.dummy_objective@ && value == n)),
    decreases depth, body, 2nat,
{
    let Syntax::Array(arr) = body else {
        return Err(owned("Expected a list of cases"));
    };
    let switch_name = hashed_name("__internal__/switch_", body);
    let switch_var = DataLocation::Ident(switch_name);
    let mut cmd_buf = operation(&switch_var, Operation::Equal, lhs, state, config)?;
    let ghost set0 = cmd_buf.base@[0];
    proof {
        if lhs is Integer {
            assert(cmd_buf.base.deep_view()[0] == crate::command::cmd_view(set0));
        }
    }
    let mut i: usize = 0;
    while i < arr.len()
        invariant
            state.wf(),
            state.extends(*old(state)),
            cmd_buf.wf(),
            lhs is Integer ==> cmd_buf.base_v().len() >= 1 && cmd_buf.base_v()[0] == crate::command::cmd_view(set0),
            i <= arr@.len(),
            switch_var is Ident,
            forall|j: int| 0 <= j < i ==> (#[trigger] arr@[j] is Block && arr@[j]->Block_0 == BlockType::Case),
        decreases arr.len() - i,
    {
        proof {
            assert(decreases_to!(arr => arr[i as int]));
        }
        let syn = &arr[i];
        match syn {
            Syntax::Block(BlockType::Case, match_value, case_body) => {
                proof {
                    assert(decreases_to!(arr[i as int] => *case_body));
                }
                let content = inner_interpret(case_body, state, path, loader, config, depth)?;
                let hash = hashed_name("__internal__/case_", case_body);
                let cmds = interpret_if(false, &switch_var, Operation::Equal, match_value, content, hash.as_str(), state, config)?;
                cmd_buf.extend(cmds);
            },
            _ => return Err(err_with("Expected `case` statement; got `", syn, "`")),
        }
        i = i + 1;
    }
    proof {
        assert forall|j: int| 0 <= j < arr@.len() implies (#[trigger] arr@[j] is Block && arr@[j]->Block_0 == BlockType::Case) by {}
        if lhs is Integer {
            assert(cmd_buf.base.deep_view()[0] == crate::command::cmd_view(cmd_buf.base@[0]));
            assert(crate::command::cmd_view(set0) == crate::command::cmd_view(cmd_buf.base@[0]));
        }
    }
    Ok(cmd_buf)
}

/// A loop: the body becomes a function that calls itself again while the condition holds.
#[verifier::loop_isolation(false)]
#[verifier::rlimit(40)]
fn loop_block<L: Loader>(
    block_type: BlockType,
    left: &Syntax,
    op: Operation,
    right: &Syntax,
    body: &Syntax,
    state: &mut InterRepr,
    path: &str,
    loader: &mut L,
    config: &Config,
    depth: u32,
) -> (r: Result<VecCmd, String>)
    requires
        old(state).wf(),
    ensures
        final(state).wf(),
        final(state).extends(*old(state)),
        r matches Ok(v) ==> v.wf(),
        r is Ok ==> final(state).functions@.contains_key(loop_name(*body)),
        r is Ok ==> exists|w: VecCmd| crate::interpreter::interpreted(*body, config.dummy_objective@, config.fixed_point_accuracy as int, w)
            && #[trigger] runs_body_first(w, final(state).functions@[loop_name(*body)]),
        block_type == BlockType::For && !(right is Range) ==> r is Err,
        block_type == BlockType::For ==> (r matches Ok(v) ==> v.base@.len() == 2 && v.mods@.len() == 0 && (v.base@[0] matches Command::ScoreSet {
            value,
            ..
        } && value == range_start(*right)) && (v.base@[1] matches Command::Function(f) && f@ == loop_name(*body))),
        block_type == BlockType::DoWhile || block_type == BlockType::DoUntil ==> (r matches Ok(v) ==> v.base@.len() == 1
            && v.mods@.len() == 0 && (v.base@[0] matches Command::Function(f) && f@ == loop_name(*body))),
        block_type == BlockType::While || block_type == BlockType::Until ==> (*left matches Syntax::Identifier(id) ==> (
            *right matches Syntax::Integer(n) ==> (integer_test(block_type == BlockType::Until, op, n) matches Some(tt) ==> (r matches Ok(
            v,
        ) ==> v.base@.len() == 1 && forall|ns: Seq<char>| #[trigger] v.base@[0].spec_text(ns) == "execute "@ + score_test_text(
            tt.0,
            "%"@ + id@,
            config.dummy_objective@,
            tt.1,
            tt.2,
        ) + " run function "@ + ns + ":"@ + crate::command::mc_ident(loop_name(*body)))))),
        loop_header_ok(block_type, *left, op, *right) && body is Unit ==> r is Ok,
        left is Integer || left is String || left is Float || left is Unit ==> r is Err,
        body is Identifier || body is String || body is Integer || body is Float || body is Range ==> r is Err,
    decreases depth, body, 2nat,
{
    let invert = block_type == BlockType::DoUntil || block_type == BlockType::Until;
    let fn_name = hashed_name("__internal__/", body);
    let loc = get_data_location(left)?;
    let left = match loc {
        DataLocation::Ident(id) => {
            if block_type == BlockType::For && str_eq(id.as_str(), "_") {
                DataLocation::Ident(hashed_name("", body))
            } else {
                DataLocation::Ident(id)
            }
        },
        other => other,
    };
    let call = single(vec![Command::Function(fn_name.clone())]);
    let ghost call_base = call.base@;
    assert(call_base =~= seq![Command::Function(fn_name)]);
    let binding = interpret_if(invert, &left, op, right, call, "", state, config)?;
    proof {
        if (block_type == BlockType::While || block_type == BlockType::Until) && left is Ident {
            if let Syntax::Integer(n) = *right {
                if let Some(tt) = integer_test(invert, op, n) {
                    assert forall|ns: Seq<char>| #[trigger] binding.base@[0].spec_text(ns) == "execute "@ + score_test_text(
                        tt.0,
                        variable_holder(left)->0,
                        config.dummy_objective@,
                        tt.1,
                        tt.2,
                    ) + " run function "@ + ns + ":"@ + crate::command::mc_ident(loop_name(*body)) by {
                        assert(fn_name@ == loop_name(*body));
                        assert(binding.base@[0].spec_text(ns) == run_text(
                            score_test_text(tt.0, variable_holder(left)->0, config.dummy_objective@, tt.1, tt.2) + " "@,
                            true,
                            call_base,
                            ""@,
                            ns,
                        ));
                        reveal_strlit(" ");
                        reveal_strlit("run ");
                        reveal_strlit("function ");
                        reveal_strlit(" run function ");
                        let stt = score_test_text(tt.0, variable_holder(left)->0, config.dummy_objective@, tt.1, tt.2);
                        assert(call_base[0].spec_text(ns) == "function "@ + ns + ":"@ + crate::command::mc_ident(loop_name(*body)));
                        assert(binding.base@[0].spec_text(ns) == "execute "@ + (stt + " "@) + "run "@ + ("function "@ + ns + ":"@
                            + crate::command::mc_ident(loop_name(*body))));
                        assert(" "@ + "run "@ + "function "@ =~= " run function "@);
                        assert(binding.base@[0].spec_text(ns) =~= "execute "@ + score_test_text(
                            tt.0,
                            variable_holder(left)->0,
                            config.dummy_objective@,
                            tt.1,
                            tt.2,
                        ) + " run function "@ + ns + ":"@ + crate::command::mc_ident(loop_name(*body)));
                    }
                }
            }
        }
    }
    // this is the code that runs on each loop
    let mut body_cmds = inner_interpret(body, state, path, loader, config, depth)?;
    let ghost w = body_cmds;
    // this is the code that runs to enter the loop: for-loops and do-loops skip the
    // initial check
    let initial = if block_type == BlockType::For {
        let Syntax::Range(start, _) = right else {
            return Err(err_with("Expected `for {variable} in {range}`; got `", right, "`"));
        };
        let target = left.stringify_scoreboard_target()?;
        let objective = left.stringify_scoreboard_objective(config)?;
        let value = match start {
            Some(s) => *s,
            None => 0,
        };
        let set = Command::ScoreSet { target: target.clone(), objective: objective.clone(), value };
        body_cmds.push(single_command(Command::ScoreAdd { target, objective, value: 1 }));
        let call = Command::Function(fn_name.clone());
        let cmds = vec![set, call];
        assert(cmds@ =~= seq![set, call]);
        single(cmds)
    } else if block_type == BlockType::DoWhile || block_type == BlockType::DoUntil {
        let call = Command::Function(fn_name.clone());
        let cmds = vec![call];
        assert(cmds@ =~= seq![call]);
        single(cmds)
    } else {
        let c = copy_cmds(&binding);
        proof {
            assert(c.base.deep_view().len() == c.base@.len());
            assert(binding.base.deep_view().len() == binding.base@.len());
            if c.base@.len() > 0 {
                assert forall|ns: Seq<char>| #[trigger] c.base@[0].spec_text(ns) == binding.base@[0].spec_text(ns) by {
                    assert(c.base.deep_view()[0] == binding.base.deep_view()[0]);
                    assert(c.base.deep_view()[0](ns) == binding.base.deep_view()[0](ns));
                    assert(c.base.deep_view()[0] == crate::command::cmd_view(c.base@[0]));
                    assert(binding.base.deep_view()[0] == crate::command::cmd_view(binding.base@[0]));
                }
            }
        }
        c
    };
    // always check to restart loop at the end
    let ghost b1 = body_cmds.base_v();
    proof {
        assert(b1.subrange(0, w.base_v().len() as int) =~= w.base_v());
    }
    body_cmds.extend(binding);
    proof {
        assert(body_cmds.base_v().subrange(0, w.base_v().len() as int) =~= b1.subrange(0, w.base_v().len() as int));
    }
    let ghost f = body_cmds;
    state.insert_function(fn_name, body_cmds);
    proof {
        assert(state.functions@[loop_name(*body)] == f);
        assert(runs_body_first(w, state.functions@[loop_name(*body)]));
    }
    Ok(initial)
}

/// A copy of a list of commands in every version.
pub fn copy_cmds(v: &VecCmd) -> (r: VecCmd)
    requires
        v.wf(),
    ensures
        r.wf(),
        r.base_v() == v.base_v(),
        r.mods_v() == v.mods_v(),
{
    let base = v.base.duplicate();
    let mods = v.mods.duplicate();
    let r = Versioned { base, mods };
    proof {
        assert(r.mods.deep_view().len() == r.mods@.len());
        assert(v.mods.deep_view().len() == v.mods@.len());
        assert forall|i: int| 0 <= i < r.mods@.len() implies r.mods_v()[i] == v.mods_v()[i] by {
            assert(r.mods.deep_view()[i] == v.mods.deep_view()[i]);
            assert(r.mods.deep_view()[i] == r.mods@[i].deep_view());
            assert(v.mods.deep_view()[i] == v.mods@[i].deep_view());
            assert(r.mods_v()[i] == (r.mods@[i].0, r.mods@[i].1.deep_view()));
            assert(v.mods_v()[i] == (v.mods@[i].0, v.mods@[i].1.deep_view()));
        }
        assert(r.mods_v() =~= v.mods_v());
        assert forall|a: int, b: int| 0 <= a < b < r.mods@.len() implies #[trigger] r.mods@[a].0 < #[trigger] r.mods@[b].0 by {
            assert(r.mods_v()[a].0 == r.mods@[a].0);
            assert(r.mods_v()[b].0 == r.mods@[b].0);
            assert(v.mods@[a].0 < v.mods@[b].0);
        }
    }
    r
}

/// The text of a test of a score against a range: `if score <holder> <objective> matches
/// <range>` (or `unless`).
pub open spec fn score_test_text(invert: bool, holder: Seq<char>, objective: Seq<char>, lower: Option<i32>, upper: Option<i32>) -> Seq<char> {
    crate::command::cond_word(invert) + " score "@ + holder + " "@ + objective + " matches "@ + crate::command::match_text(
        lower,
        upper,
    )
}

/// The range `if` tests for `x <op> n`, with whether the test is inverted.
pub open spec fn integer_test(invert: bool, op: Operation, num: i32) -> Option<(bool, Option<i32>, Option<i32>)> {
    match op {
        Operation::Equal => Some((invert, Some(num), Some(num))),
        Operation::RCaretEq => Some((invert, Some(num), None)),
        Operation::LCaretEq => Some((invert, None, Some(num))),
        Operation::BangEq => Some((!invert, Some(num), Some(num))),
        Operation::RCaret => Some((!invert, None, Some(num))),
        Operation::LCaret => Some((!invert, Some(num), None)),
        _ => None,
    }
}

/// The comparison `if` makes for `x <op> y` between two scores, with whether it is
/// inverted: `!=` is an inverted `=`.
pub open spec fn score_compare(invert: bool, op: Operation) -> Option<(bool, Operation)> {
    match op {
        Operation::LCaret | Operation::LCaretEq | Operation::Equal | Operation::RCaretEq | Operation::RCaret => Some(
            (invert, op),
        ),
        Operation::BangEq => Some((!invert, Operation::Equal)),
        _ => None,
    }
}

/// The test of a score against an integer (see `integer_test`).
fn integer_option(invert: bool, op: Operation, num: i32, target: String, objective: String) -> (r: Result<ExecuteOption, String>)
    ensures
        r is Ok == integer_test(invert, op, num) is Some,
        r matches Ok(o) ==> (integer_test(invert, op, num) matches Some(t) && o == (ExecuteOption::IfScoreMatches {
            invert: t.0,
            target,
            objective,
            lower: t.1,
            upper: t.2,
        })),
{
    let t = match op {
        Operation::Equal => (invert, Some(num), Some(num)),
        Operation::RCaretEq => (invert, Some(num), None),
        Operation::LCaretEq => (invert, None, Some(num)),
        Operation::BangEq => (!invert, Some(num), Some(num)),
        Operation::RCaret => (!invert, None, Some(num)),
        Operation::LCaret => (!invert, Some(num), None),
        _ => {
            let mut msg = owned("Can't evaluate `if {...} ");
            msg.append(op.text());
            msg.append(" {integer}`");
            return Err(msg);
        },
    };
    Ok(ExecuteOption::IfScoreMatches { invert: t.0, target, objective, lower: t.1, upper: t.2 })
}

/// get the command for an `if|unless` block
pub fn interpret_if(
    invert: bool,
    left: &DataLocation,
    op: Operation,
    right: &Syntax,
    content: VecCmd,
    hash: &str,
    state: &mut InterRepr,
    config: &Config,
) -> (r: Result<VecCmd, String>)
    requires
        old(state).wf(),
        content.wf(),
    ensures
        final(state).wf(),
        final(state).extends(*old(state)),
        r matches Ok(v) ==> v.wf(),
        content.base@.len() == 0 ==> (r matches Ok(v) && v.base@.len() == 0 && v.mods@.len() == 0),
        content.base@.len() == 0 ==> *final(state) == *old(state),
        content.base@.len() > 0 && variable_holder(*left) is Some ==> (r matches Ok(v) ==> v.base@.len() == 1
            && exists|o: ExecuteOption| crate::repr::executed_shape(seq![o], content.base@, hash@, v.base@[0])),
        content.base@.len() > 0 && left.is_score() && (right matches Syntax::Integer(n) && integer_test(invert, op, *n) is None)
            ==> r is Err,
        content.base@.len() > 0 && crate::interpreter::operation::holder_renders(*left) ==> (right matches Syntax::Integer(n) ==> (
        integer_test(invert, op, *n) matches Some(tt) ==> (r matches Ok(v) && v.base@.len() == 1 && exists|t: Seq<char>|
            #[trigger] crate::interpreter::operation::holder_text(*left, t) && forall|ns: Seq<char>| #[trigger] v.base@[0].spec_text(ns)
            == run_text(
            score_test_text(tt.0, t, location_objective(*left, config.dummy_objective@)->0, tt.1, tt.2) + " "@,
            true,
            content.base@,
            hash@,
            ns,
        )))),
        content.base@.len() > 0 && left.is_score() && right is Range && op != Operation::In ==> r is Err,
        content.base@.len() > 0 ==> (variable_holder(*left) matches Some(t) ==> (right matches Syntax::Integer(n) ==> (
            integer_test(invert, op, *n) matches Some(tt) ==> (r matches Ok(v) && v.base@.len() == 1 && v.mods@.len()
            == content.mods@.len() && (v.base@[0] matches Command::Execute { options: o, .. } && o@.len() >= 1
            && o@[0].range_test() == Some((tt.0, t, location_objective(*left, config.dummy_objective@)->0, tt.1, tt.2)))
            && forall|ns: Seq<char>| #[trigger] v.base@[0].spec_text(ns) == run_text(
            score_test_text(tt.0, t, location_objective(*left, config.dummy_objective@)->0, tt.1, tt.2) + " "@,
            true,
            content.base@,
            hash@,
            ns,
        ))))),
        content.base@.len() > 0 ==> (variable_holder(*left) matches Some(t) ==> (right matches Syntax::Identifier(src) ==> (
        score_compare(invert, op) matches Some(c) ==> (r matches Ok(v) && v.base@.len() == 1 && v.mods@.len()
            == content.mods@.len() && (v.base@[0] matches Command::Execute { options: o, .. } && o@.len() >= 1
            && o@[0].score_test() == Some((c.0, t, location_objective(*left, config.dummy_objective@)->0, c.1, src@,
            config.dummy_objective@))) && forall|ns: Seq<char>| #[trigger] v.base@[0].spec_text(ns) == run_text(
            crate::command::cond_word(c.0) + " score "@ + t + " "@ + location_objective(*left, config.dummy_objective@)->0 + " "@
                + c.1.spec_text() + " "@ + src@ + " "@ + config.dummy_objective@ + " "@,
            true,
            content.base@,
            hash@,
            ns,
        ))))),
        content.base@.len() > 0 && left.is_score() && right is Identifier && score_compare(invert, op) is None ==> r is Err,
        content.base@.len() > 0 ==> (variable_holder(*left) matches Some(t) ==> (right matches Syntax::BinaryOp {
            lhs: rl,
            operation: Operation::Colon,
            rhs: rr,
        } ==> (**rl matches Syntax::Identifier(a) ==> (**rr matches Syntax::Identifier(obj) ==> (score_compare(invert, op) matches Some(
            c,
        ) ==> (r matches Ok(v) && v.base@.len() == 1 && (v.base@[0] matches Command::Execute { options: o, .. } && o@.len() >= 1
            && o@[0].score_test() == Some(
            (c.0, t, location_objective(*left, config.dummy_objective@)->0, c.1, "%"@ + a@, obj@),
        )))))))),
        content.base@.len() > 0 ==> (variable_holder(*left) matches Some(t) ==> (right matches Syntax::SelectorColon(sel, obj) ==> (
        score_compare(invert, op) matches Some(c) ==> (r is Ok <==> selector_renders(*sel)) && (r matches Ok(v) ==> v.base@.len() == 1
            && exists|s2: crate::syntax::Selector<String>| #[trigger] crate::interpreter::selector_block::rendered_as(*sel, s2) && (
        v.base@[0] matches Command::Execute { options: o, .. } && o@.len() >= 1 && o@[0].score_test() == Some(
            (
                c.0,
                t,
                location_objective(*left, config.dummy_objective@)->0,
                c.1,
                crate::syntax::selector_text(s2),
                obj@,
            ),
        )))))),
        content.base@.len() > 0 ==> (variable_holder(*left) matches Some(t) ==> (right matches Syntax::Range(lo, hi) ==> (op
            == Operation::In ==> (r matches Ok(v) && v.base@.len() == 1 && v.mods@.len() == content.mods@.len()
            && (v.base@[0] matches Command::Execute { options: o, .. } && o@.len() >= 1 && o@[0].range_test() == Some(
            (invert, t, location_objective(*left, config.dummy_objective@)->0, *lo, *hi))) && forall|
            ns: Seq<char>,
        | #[trigger] v.base@[0].spec_text(ns) == run_text(
            score_test_text(invert, t, location_objective(*left, config.dummy_objective@)->0, *lo, *hi) + " "@,
            true,
            content.base@,
            hash@,
            ns,
        ))))),
{
    if content.is_empty() {
        return Ok(VecCmd::default());
    }
    let mut setter: Option<VecCmd> = None;
    let (target_player, target_objective) = if left.is_score_location() {
        let tp = left.stringify_scoreboard_target()?;
        (tp, left.stringify_scoreboard_objective(config)?)
    } else {
        let tmp = DataLocation::Ident(owned("__if__"));
        let value = left.copy().into_syntax();
        setter = Some(operation(&tmp, Operation::Equal, &value, state, config)?);
        (owned("%__if__"), config.dummy_objective.clone())
    };
    let ghost mut rendered: crate::syntax::Selector<String> = arbitrary();
    let option = match right {
        Syntax::Identifier(_) | Syntax::BinaryOp { .. } | Syntax::SelectorColon(..) => {
            let (source, source_objective) = match right {
                Syntax::Identifier(ident) => (ident.clone(), config.dummy_objective.clone()),
                Syntax::BinaryOp { lhs: l, operation: Operation::Colon, rhs: r } => match &**r {
                    Syntax::Identifier(ident) => {
                        let loc = get_data_location(l)?;
                        (loc.stringify_scoreboard_target()?, ident.clone())
                    },
                    _ => return Err(err_with("Scoreboard must be indexed by an identifier; got ", r, "")),
                },
                Syntax::SelectorColon(selector, r) => {
                    let s = stringify_selector(selector)?;
                    proof {
                        rendered = s;
                        assert(crate::interpreter::selector_block::rendered_as(*selector, rendered));
                    }
                    (s.to_text(), r.clone())
                },
                _ => return Err(err_with("Can't compare to `", right, "`")),
            };
            declare_objective(state, &source_objective, config);
            match op {
                Operation::LCaret | Operation::LCaretEq | Operation::Equal | Operation::RCaretEq | Operation::RCaret => {
                    ExecuteOption::IfScoreSource {
                        invert,
                        target: target_player,
                        target_objective,
                        operation: op,
                        source,
                        source_objective,
                    }
                },
                Operation::BangEq => ExecuteOption::IfScoreSource {
                    invert: !invert,
                    target: target_player,
                    target_objective,
                    operation: Operation::Equal,
                    source,
                    source_objective,
                },
                _ => {
                    let mut msg = owned("Can't compare to a score using `");
                    msg.append(op.text());
                    msg.append("`");
                    return Err(msg);
                },
            }
        },
        Syntax::Integer(num) => integer_option(invert, op, *num, target_player, target_objective)?,
        Syntax::Range(lower, upper) => {
            if op != Operation::In {
                let mut msg = owned("Can't check if `{...} ");
                msg.append(op.text());
                msg.append(" {range}`. Did you mean `{...} in {range}`?");
                return Err(msg);
            }
            ExecuteOption::IfScoreMatches { invert, target: target_player, objective: target_objective, lower: *lower, upper: *upper }
        },
        _ => {
            let mut msg = owned("Can't check if `{...} ");
            msg.append(op.text());
            msg.append(" ");
            push_debug(&mut msg, right);
            msg.append("`");
            return Err(msg);
        },
    };
    let ghost opt = option;
    let ghost cb = content.base@;
    let ghost cm = content.mods@.len();
    let options = vec![option];
    assert(options@ =~= seq![opt]);
    let executed = Command::execute(&options, content, hash, state);
    proof {
        assert forall|ns: Seq<char>| #[trigger] executed.base.spec_text(ns) == run_text(
            opt.spec_text(ns) + " "@,
            true,
            cb,
            hash@,
            ns,
        ) by {
            crate::repr::lemma_one_option(opt, ns);
        }
        assert(crate::repr::executed_shape(seq![opt], cb, hash@, executed.base));
        if let Syntax::SelectorColon(sel, obj) = right {
            assert(crate::interpreter::selector_block::rendered_as(*sel, rendered));
            assert(opt.score_test() matches Some(t) && t.4 == crate::syntax::selector_text(rendered) && t.5 == obj@);
        }
    }
    let mut ret_val = executed.into_vec();
    if let Some(setter) = setter {
        ret_val.map_with(&Prepend, setter);
    }
    Ok(ret_val)
}

/// An advancement: its properties become NBT; `reward` (or `reward_each`, which also
/// revokes the advancement so that it can be earned again) becomes the reward function.
#[verifier::loop_isolation(false)]
fn advancement<L: Loader>(
    name: &str,
    body: &Syntax,
    state: &mut InterRepr,
    path: &str,
    loader: &mut L,
    config: &Config,
    depth: u32,
) -> (r: Result<Nbt, String>)
    requires
        old(state).wf(),
        body is Object,
    ensures
        final(state).wf(),
        final(state).extends(*old(state)),
        r matches Ok(n) ==> n is Object,
        r is Ok ==> (*body matches Syntax::Object(m) && forall|k: Seq<char>| #[trigger] m@.contains_key(k) && k != "reward"@ && k
            != "reward_each"@ ==> crate::convert::nbt_convertible(m@[k], false)),
        (*body matches Syntax::Object(m) && forall|k: Seq<char>| #[trigger] m@.contains_key(k) ==> k != "reward"@ && k
            != "reward_each"@ && crate::convert::nbt_convertible(m@[k], false)) ==> r is Ok,
    decreases depth, body, 2nat,
{
    let Syntax::Object(obj) = body else {
        return Err(owned("Expected an object"));
    };
    obj.facts();
    let mut map_buf: StrMap<Nbt> = StrMap::new();
    let mut reward_fn: Option<VecCmd> = None;
    let n = obj.len();
    let mut i: usize = 0;
    while i < n
        invariant
            state.wf(),
            state.extends(*old(state)),
            n == obj.seq().len(),
            i <= n,
            reward_fn matches Some(f) ==> f.wf(),
            keys_sorted(obj.seq()),
            forall|j: int| 0 <= j < i && #[trigger] obj.seq()[j].0@ != "reward"@ && obj.seq()[j].0@ != "reward_each"@
                ==> crate::convert::nbt_convertible(obj.seq()[j].1, false),
            (forall|j: int| 0 <= j < n ==> #[trigger] obj.seq()[j].0@ != "reward"@ && obj.seq()[j].0@ != "reward_each"@)
                ==> reward_fn is None,
        decreases n - i,
    {
        proof {
            crate::strmap::lemma_value_decreases(*obj, i as int);
            assert(decreases_to!(body => *obj));
        }
        let k = obj.key_at(i);
        let v = obj.value_at(i);
        proof {
            crate::strmap::lemma_sorted_value(obj.seq(), i as int);
        }
        if str_eq(k.as_str(), "reward") {
            reward_fn = Some(inner_interpret(v, state, path, loader, config, depth)?);
        } else if str_eq(k.as_str(), "reward_each") {
            let mut f = inner_interpret(v, state, path, loader, config, depth)?;
            let mut revoke = owned("advancement revoke @s only <NAMESPACE>:");
            revoke.append(name);
            f.push(single_command(Command::Raw(revoke)));
            reward_fn = Some(f);
        } else {
            let value = nbt_from_syntax(v)?;
            map_buf.insert(k.clone(), value);
        }
        i = i + 1;
    }
    proof {
        obj.lemma_keys_listed();
        assert forall|k: Seq<char>| #[trigger] obj@.contains_key(k) && k != "reward"@ && k != "reward_each"@
            implies crate::convert::nbt_convertible(obj@[k], false) by {
            let j = choose|j: int| 0 <= j < obj.seq().len() && #[trigger] obj.seq()[j].0@ == k;
            crate::strmap::lemma_sorted_value(obj.seq(), j);
        }
        if forall|k: Seq<char>| #[trigger] obj@.contains_key(k) ==> k != "reward"@ && k != "reward_each"@ {
            assert forall|j: int| 0 <= j < n implies #[trigger] obj.seq()[j].0@ != "reward"@ && obj.seq()[j].0@ != "reward_each"@ by {
                crate::strmap::lemma_sorted_value(obj.seq(), j);
            }
        }
    }
    if let Some(reward_fn) = reward_fn {
        let rewards = match map_buf.remove("rewards") {
            Some(r) => r,
            None => Nbt::Object(StrMap::new()),
        };
        let Nbt::Object(mut rewards_obj) = rewards else {
            let mut msg = owned("Advancement rewards should be an object; got `");
            crate::nbt::push_display(&mut msg, &rewards);
            msg.append("`");
            return Err(msg);
        };
        let mut fn_name = owned("advancement/");
        fn_name.append(name);
        fn_name.append("_");
        let h = hashed_name("", body);
        fn_name.append(h.as_str());
        state.insert_function(fn_name.clone(), reward_fn);
        rewards_obj.insert(owned("function"), Nbt::String(fn_name));
        map_buf.insert(owned("rewards"), Nbt::Object(rewards_obj));
    }
    Ok(Nbt::Object(map_buf))
}

/// `v` is one command: the body's commands run under one subcommand whose text is
/// `opt`, gathered into the function `name` when there is more than one.
pub open spec fn runs_under(opt: Seq<char>, name: Seq<char>, body: Syntax, dummy: Seq<char>, acc: int, v: VecCmd) -> bool
    decreases body, 2nat,
{
    &&& v.base@.len() == 1
    &&& exists|o: ExecuteOption, w: VecCmd|
        #[trigger] crate::repr::executed_shape(seq![o], w.base@, name, v.base@[0]) && crate::interpreter::interpreted(
            body,
            dummy,
            acc,
            w,
        ) && (forall|ns: Seq<char>| #[trigger] o.spec_text(ns) == opt) && forall|ns: Seq<char>| #[trigger] v.base@[0].spec_text(ns)
            == crate::repr::executed_text(seq![o], w.base@, name, ns)
}

/// The name of a function generated for `body`: `prefix` and the hash of its debug text.
pub open spec fn body_fn_name(prefix: Seq<char>, body: Syntax) -> Seq<char> {
    prefix + hex_text(default_hash(debug_text(body)) as nat)
}

/// The subcommand text of an `on`, `summon` or `anchored` block.
pub open spec fn ident_option_text(block_type: BlockType, ident: Seq<char>) -> Seq<char> {
    if block_type == BlockType::On {
        "on "@ + ident
    } else if block_type == BlockType::Summon {
        "summon "@ + ident
    } else {
        "anchored "@ + ident
    }
}

/// The prefix of the function name of an `on`, `summon` or `anchored` block.
pub open spec fn ident_fn_prefix(block_type: BlockType) -> Seq<char> {
    if block_type == BlockType::On {
        "__internal__/on_"@
    } else if block_type == BlockType::Summon {
        "__internal__/summon_"@
    } else {
        "__internal__/anchored_"@
    }
}

/// A block that runs with an identifier option: `on <relation>`, `summon <entity>`,
/// `anchored <eyes|feet>`.
fn ident_block<L: Loader>(
    block_type: BlockType,
    ident: String,
    body: &Syntax,
    state: &mut InterRepr,
    path: &str,
    loader: &mut L,
    config: &Config,
    depth: u32,
) -> (r: Result<VecCmd, String>)
    requires
        old(state).wf(),
    ensures
        final(state).wf(),
        final(state).extends(*old(state)),
        r matches Ok(v) ==> v.wf(),
        block_type == BlockType::On && !(ident@ == "attacker"@ || ident@ == "controller"@ || ident@ == "leasher"@ || ident@
            == "origin"@ || ident@ == "owner"@ || ident@ == "passengers"@ || ident@ == "target"@ || ident@ == "vehicle"@)
            ==> r is Err,
        (block_type == BlockType::On ==> (ident@ == "attacker"@ || ident@ == "controller"@ || ident@ == "leasher"@ || ident@
            == "origin"@ || ident@ == "owner"@ || ident@ == "passengers"@ || ident@ == "target"@ || ident@ == "vehicle"@))
            && body is Unit ==> r is Ok,
        body is Identifier || body is String || body is Integer || body is Float || body is Range ==> r is Err,
        r matches Ok(v) ==> runs_under(
            ident_option_text(block_type, ident@),
            body_fn_name(ident_fn_prefix(block_type), *body),
            *body,
            config.dummy_objective@,
            config.fixed_point_accuracy as int,
            v,
        ),
    decreases depth, body, 2nat,
{
    let ghost id0 = ident@;
    if block_type == BlockType::On {
        let id = ident.as_str();
        if !(str_eq(id, "attacker") || str_eq(id, "controller") || str_eq(id, "leasher") || str_eq(id, "origin") || str_eq(
            id,
            "owner",
        ) || str_eq(id, "passengers") || str_eq(id, "target") || str_eq(id, "vehicle")) {
            let mut msg = owned("Invalid `on` identifier: `");
            msg.append(id);
            msg.append(
                "`; expected `attacker`, `controller`, `leasher`, `origin`, `owner`, `passengers`, `target`, or `vehicle`",
            );
            return Err(msg);
        }
    }
    let content = inner_interpret(body, state, path, loader, config, depth)?;
    let (option, hash) = if block_type == BlockType::On {
        (ExecuteOption::On(ident), hashed_name("__internal__/on_", body))
    } else if block_type == BlockType::Summon {
        (ExecuteOption::Summon(ident), hashed_name("__internal__/summon_", body))
    } else {
        (ExecuteOption::Anchored(ident), hashed_name("__internal__/anchored_", body))
    };
    let ghost cb = content.base@;
    let ghost w = content;
    let options = vec![option];
    assert(options@ =~= seq![option]);
    let r = Command::execute(&options, content, hash.as_str(), state).into_vec();
    proof {
        assert(hash@ == body_fn_name(ident_fn_prefix(block_type), *body));
        assert(forall|ns: Seq<char>| #[trigger] option.spec_text(ns) == ident_option_text(block_type, id0));
        assert(crate::repr::executed_shape(seq![option], cb, hash@, r.base@[0]));
        assert(crate::interpreter::interpreted(*body, config.dummy_objective@, config.fixed_point_accuracy as int, w));
        assert(crate::repr::executed_shape(seq![option], w.base@, hash@, r.base@[0]));
    }
    Ok(r)
}

/// A block at a position: `facing (x y z)` or `positioned (x y z)`.
fn coord_block<L: Loader>(
    block_type: BlockType,
    coord: Coordinate,
    body: &Syntax,
    state: &mut InterRepr,
    path: &str,
    loader: &mut L,
    config: &Config,
    depth: u32,
) -> (r: Result<VecCmd, String>)
    requires
        old(state).wf(),
    ensures
        final(state).wf(),
        final(state).extends(*old(state)),
        r matches Ok(v) ==> v.wf(),
        !(block_type == BlockType::Facing || block_type == BlockType::Positioned) ==> r is Err,
        (block_type == BlockType::Facing || block_type == BlockType::Positioned) && body is Unit ==> r is Ok,
        body is Identifier || body is String || body is Integer || body is Float || body is Range ==> r is Err,
        r matches Ok(v) ==> runs_under(
            (if block_type == BlockType::Facing { "facing "@ } else { "positioned "@ }) + coord.spec_text(),
            body_fn_name("__internal__/"@ + block_type.spec_text() + "_"@, *body),
            *body,
            config.dummy_objective@,
            config.fixed_point_accuracy as int,
            v,
        ),
    decreases depth, body, 2nat,
{
    let option = if block_type == BlockType::Facing {
        ExecuteOption::FacingPos(coord)
    } else if block_type == BlockType::Positioned {
        ExecuteOption::Positioned(coord)
    } else {
        let mut msg = owned("`");
        msg.append(block_type.name());
        msg.append("` block does not take a coordinate");
        return Err(msg);
    };
    let content = inner_interpret(body, state, path, loader, config, depth)?;
    let mut prefix = owned("__internal__/");
    prefix.append(block_type.text());
    prefix.append("_");
    let hash = hashed_name(prefix.as_str(), body);
    let ghost cb = content.base@;
    let ghost w = content;
    let options = vec![option];
    assert(options@ =~= seq![option]);
    let r = Command::execute(&options, content, hash.as_str(), state).into_vec();
    proof {
        assert(hash@ == body_fn_name("__internal__/"@ + block_type.spec_text() + "_"@, *body));
        assert(crate::repr::executed_shape(seq![option], cb, hash@, r.base@[0]));
        assert(crate::interpreter::interpreted(*body, config.dummy_objective@, config.fixed_point_accuracy as int, w));
        assert(crate::repr::executed_shape(seq![option], w.base@, hash@, r.base@[0]));
    }
    Ok(r)
}

/// One rotation angle, with whether it is relative: a number, or a relative `~` one.
pub open spec fn spec_rotation(s: Syntax) -> Option<(bool, Decimal)> {
    match s {
        Syntax::Integer(i) => Some((false, Decimal::spec_from_int(i))),
        Syntax::Float(d) => Some((false, d)),
        Syntax::WooglyCoord(d) => Some((true, d)),
        _ => None,
    }
}

/// The subcommand text of `rotated [yaw, pitch]`.
pub open spec fn rotation_option_text(yaw: Syntax, pitch: Syntax) -> Seq<char> {
    let (yaw_rel, yaw_value) = spec_rotation(yaw)->0;
    let (pitch_rel, pitch_value) = spec_rotation(pitch)->0;
    "rotated "@ + crate::command::rot_text(yaw_rel, yaw_value) + " "@ + crate::command::rot_text(pitch_rel, pitch_value)
}

/// One rotation angle: an absolute number or a relative `~` one.
fn rotation(s: &Syntax) -> (r: Result<(bool, Decimal), String>)
    ensures
        r is Ok == (s is Integer || s is Float || s is WooglyCoord),
        r matches Ok(x) ==> spec_rotation(*s) == Some(x),
{
    match s {
        Syntax::Integer(i) => Ok((false, Decimal::from_int(*i))),
        Syntax::Float(d) => Ok((false, *d)),
        Syntax::WooglyCoord(d) => Ok((true, *d)),
        other => Err(err_with("Expected a number or relative rotation for `rotated`; got `", other, "`")),
    }
}

/// A block with a given rotation: `rotated [yaw, pitch]`.
fn rotated_block<L: Loader>(
    yaw: &Syntax,
    pitch: &Syntax,
    body: &Syntax,
    state: &mut InterRepr,
    path: &str,
    loader: &mut L,
    config: &Config,
    depth: u32,
) -> (r: Result<VecCmd, String>)
    requires
        old(state).wf(),
    ensures
        final(state).wf(),
        final(state).extends(*old(state)),
        r matches Ok(v) ==> v.wf(),
        r is Ok ==> (yaw is Integer || yaw is Float || yaw is WooglyCoord) && (pitch is Integer || pitch is Float
            || pitch is WooglyCoord),
        (yaw is Integer || yaw is Float || yaw is WooglyCoord) && (pitch is Integer || pitch is Float || pitch is WooglyCoord)
            && body is Unit ==> r is Ok,
        body is Identifier || body is String || body is Integer || body is Float || body is Range ==> r is Err,
        r matches Ok(v) ==> runs_under(
            rotation_option_text(*yaw, *pitch),
            body_fn_name("__internal__/rotated_"@, *body),
            *body,
            config.dummy_objective@,
            config.fixed_point_accuracy as int,
            v,
        ),
    decreases depth, body, 2nat,
{
    let (yaw_rel, yaw) = rotation(yaw)?;
    let (pitch_rel, pitch) = rotation(pitch)?;
    let hash = hashed_name("__internal__/rotated_", body);
    let content = inner_interpret(body, state, path, loader, config, depth)?;
    let option = ExecuteOption::Rotated { yaw_rel, yaw, pitch_rel, pitch };
    let ghost cb = content.base@;
    let ghost w = content;
    let options = vec![option];
    assert(options@ =~= seq![option]);
    let r = Command::execute(&options, content, hash.as_str(), state).into_vec();
    proof {
        assert(crate::repr::executed_shape(seq![option], cb, hash@, r.base@[0]));
        assert(crate::interpreter::interpreted(*body, config.dummy_objective@, config.fixed_point_accuracy as int, w));
        assert(crate::repr::executed_shape(seq![option], w.base@, hash@, r.base@[0]));
    }
    Ok(r)
}

/// A statement of an `async` body that always succeeds: nothing, or `@delay <integer>`.
pub open spec fn async_step_ok(s: Syntax) -> bool {
    s is Unit || (s matches Syntax::Annotation(id, d) && id@ == "delay"@ && *d is Integer)
}

/// An `async` function: each `@delay n` ends the current function with a schedule of the
/// next part `n` ticks later.
#[verifier::loop_isolation(false)]
fn async_block<L: Loader>(
    body: &Syntax,
    ident: String,
    state: &mut InterRepr,
    path: &str,
    loader: &mut L,
    config: &Config,
    depth: u32,
) -> (r: Result<VecCmd, String>)
    requires
        old(state).wf(),
    ensures
        final(state).wf(),
        final(state).extends(*old(state)),
        r matches Ok(v) ==> v.wf() && v.base@.len() == 0 && v.mods@.len() == 0,
        r is Ok ==> final(state).functions@.contains_key(ident@),
        body is Unit ==> r is Ok,
        (body matches Syntax::Array(a) && forall|i: int| 0 <= i < a@.len() ==> async_step_ok(#[trigger] a@[i])) ==> r is Ok,
        body is Identifier || body is String || body is Integer || body is Float || body is Range ==> r is Err,
    decreases depth, body, 2nat,
{
    let Syntax::Array(arr) = body else {
        // just make it a normal function
        let inner = inner_interpret(body, state, path, loader, config, depth)?;
        state.insert_function(ident, inner);
        return Ok(VecCmd::default());
    };
    let mut func = ident;
    let mut command_buf = VecCmd::default();
    let mut i: usize = 0;
    while i < arr.len()
        invariant
            state.wf(),
            state.extends(*old(state)),
            command_buf.wf(),
            i <= arr@.len(),
            func@ == ident@ || state.functions@.contains_key(ident@),
        decreases arr.len() - i,
    {
        proof {
            assert(decreases_to!(arr => arr[i as int]));
        }
        let cmd = &arr[i];
        let mut delayed = false;
        if let Syntax::Annotation(id, delay) = cmd {
            if str_eq(id.as_str(), "delay") {
                let Syntax::Integer(time) = &**delay else {
                    return Err(err_with("Expected an integer for delay; got `", delay, "`"));
                };
                let next_func = hashed_name("__async__/", &Syntax::String(func.clone()));
                command_buf.push(single_command(Command::Schedule { func: next_func.clone(), time: *time, replace: false }));
                let mut done = VecCmd::default();
                core::mem::swap(&mut done, &mut command_buf);
                let mut name = next_func;
                core::mem::swap(&mut name, &mut func);
                state.insert_function(name, done);
                delayed = true;
            }
        }
        if !delayed {
            let cmds = inner_interpret(cmd, state, path, loader, config, depth)?;
            command_buf.extend(cmds);
        }
        i = i + 1;
    }
    state.insert_function(func, command_buf);
    Ok(VecCmd::default())
}

} // verus!
