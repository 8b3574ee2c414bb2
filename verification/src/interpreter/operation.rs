//! Operations on scores, experience and NBT: `x += 1`, `@p::lvl = 3`, `@s.Health = 20`.
use vstd::prelude::*;
use crate::command::{Command, ExecuteOption, NbtLocation};
use crate::convert::{debug_string, nbt_from_syntax, push_debug, stringify_selector};
use crate::decimal::{farey_approximation, pow10_u64, Decimal};
use crate::interpreter::{err_with, hashed_name, single};
use crate::interpreter::annotations::random;
use crate::repr::{Config, InterRepr, VecCmd};
use crate::syntax::{DataLocation, NbtPathPart, Operation, Selector, Syntax};
use crate::text::{owned, push_i32_hex, str_eq};
use crate::dup::Duplicate;

verus! {

/// interpret an operation, like `x += 1`
pub fn operation(lhs: &DataLocation, op: Operation, rhs: &Syntax, state: &mut InterRepr, config: &Config) -> (r: Result<
    VecCmd,
    String,
>)
    requires
        old(state).wf(),
    ensures
        final(state).wf(),
        final(state).extends(*old(state)),
        r matches Ok(v) ==> v.wf(),
        variable_holder(*lhs) matches Some(t) ==> variable_op_result(
            t,
            location_objective(*lhs, config.dummy_objective@)->0,
            op,
            *rhs,
            config.dummy_objective@,
            config.fixed_point_accuracy as int,
            r,
        ),
        holder_renders(*lhs) ==> exists|h: Seq<char>| #[trigger] holder_text(*lhs, h) && variable_op_result(
            h,
            location_objective(*lhs, config.dummy_objective@)->0,
            op,
            *rhs,
            config.dummy_objective@,
            config.fixed_point_accuracy as int,
            r,
        ),
        *lhs matches DataLocation::SelectorNbt(sel, path) ==> (op == Operation::Equal && (rhs is Array || rhs is Object || rhs is String
            || rhs is Integer || rhs is Float) ==> (r matches Ok(v) ==> (v.base@[0] matches Command::DataSetValue {
            target,
            ..
        } && target matches NbtLocation::Entity(s2, p2) && crate::interpreter::selector_block::rendered_as(sel, s2) && p2.deep_view()
            == path.deep_view()))),
        *lhs matches DataLocation::SelectorNbt(sel, path) ==> (op == Operation::Equal && (rhs is SelectorNbt || rhs is NbtStorage) ==> (
        r matches Ok(v) ==> (v.base@[0] matches Command::DataSetFrom {
            target,
            ..
        } && target matches NbtLocation::Entity(s2, p2) && crate::interpreter::selector_block::rendered_as(sel, s2) && p2.deep_view()
            == path.deep_view()))),
{
    match lhs {
        DataLocation::SelectorDoubleColon(sel, ident) => double_colon(sel, ident.as_str(), op, rhs),
        DataLocation::SelectorNbt(sel, nbt) => {
            let s = stringify_selector(sel)?;
            assert(crate::interpreter::selector_block::rendered_as(*sel, s));
            nbt_op(NbtLocation::Entity(s, nbt.duplicate()), op, rhs, state)
        },
        DataLocation::NbtStorage(nbt) => nbt_op(NbtLocation::Storage(nbt.duplicate()), op, rhs, state),
        _ => simple_operation(lhs, op, rhs, state, config),
    }
}

/// The name of the score that holds the constant `value`: `%__const__` and its hexadecimal
/// digits.
pub fn const_name(value: i32) -> (r: String)
    ensures
        r@ == "%__const__"@ + crate::text::i32_hex_text(value),
{
    let mut s = owned("%__const__");
    push_i32_hex(&mut s, value);
    s
}

/// `target objective` combined with `source objective` by `op`.
fn score_op(target: &String, objective: &String, op: Operation, source: String, source_objective: String) -> (r: Command)
    ensures
        r == (Command::ScoreOperation {
            target: *target,
            target_objective: *objective,
            operation: op,
            source,
            source_objective,
        }),
{
    Command::ScoreOperation {
        target: target.clone(),
        target_objective: objective.clone(),
        operation: op,
        source,
        source_objective,
    }
}

/// Declares `objective` (as a dummy objective) unless it is declared already.
pub fn declare_objective(state: &mut InterRepr, objective: &String, config: &Config)
    requires
        old(state).wf(),
    ensures
        final(state).wf(),
        final(state).extends(*old(state)),
        final(state).objectives@.dom() == old(state).objectives@.dom().insert(objective@),
        forall|k: Seq<char>| #[trigger] old(state).objectives@.contains_key(k) ==> final(state).objectives@[k]
            == old(state).objectives@[k],
        !old(state).objectives@.contains_key(objective@) ==> final(state).objectives@[objective@]@
            == config.dummy_objective@,
        final(state).items == old(state).items,
        final(state).functions@ == old(state).functions@,
        final(state).advancements@ == old(state).advancements@,
        final(state).recipes@ == old(state).recipes@,
        final(state).loot_tables@ == old(state).loot_tables@,
        final(state).constants == old(state).constants,
        final(state).custom_model_data@ == old(state).custom_model_data@,
{
    if !state.objectives.contains_key(objective.as_str()) {
        state.objectives.insert(objective.clone(), config.dummy_objective.clone());
    }
    proof {
        assert(state.objectives@.dom() =~= old(state).objectives@.dom().insert(objective@));
    }
}

/// Whether an operation is one of the fixed-point ones (`.=`, `.+=`, `.-=`, `.*=`, `./=`).
pub open spec fn is_fixed(op: Operation) -> bool {
    op == Operation::FixedEq || op == Operation::FixedAddEq || op == Operation::FixedSubEq || op == Operation::FixedMulEq
        || op == Operation::FixedDivEq
}

/// `c` is `scoreboard players operation t o <op> s so`.
pub open spec fn is_score_op(c: Command, t: Seq<char>, o: Seq<char>, op: Operation, s: Seq<char>, so: Seq<char>) -> bool {
    c matches Command::ScoreOperation { target, target_objective, operation, source, source_objective } && target@ == t
        && target_objective@ == o && operation == op && source@ == s && source_objective@ == so
}

/// The score holder of a variable location: `%name`.
pub open spec fn variable_holder(t: DataLocation) -> Option<Seq<char>> {
    match t {
        DataLocation::Ident(id) => Some("%"@ + id@),
        DataLocation::Colon(id, _) => Some("%"@ + id@),
        _ => None,
    }
}

/// `h` is the score holder of the score location `t`: `%name` for a variable, the text of
/// the rendered selector for an entity's score.
pub open spec fn holder_text(t: DataLocation, h: Seq<char>) -> bool {
    match t {
        DataLocation::Ident(id) => h == "%"@ + id@,
        DataLocation::Colon(id, _) => h == "%"@ + id@,
        DataLocation::Selector(sel) => exists|s2: Selector<String>| #[trigger] crate::interpreter::selector_block::rendered_as(sel, s2)
            && h == crate::syntax::selector_text(s2),
        DataLocation::SelectorColon(sel, _) => exists|s2: Selector<String>| #[trigger] crate::interpreter::selector_block::rendered_as(
            sel,
            s2,
        ) && h == crate::syntax::selector_text(s2),
        _ => false,
    }
}

/// A score location whose holder can be written: a variable, or an entity's score whose
/// selector renders.
pub open spec fn holder_renders(t: DataLocation) -> bool {
    match t {
        DataLocation::Ident(_) => true,
        DataLocation::Colon(_, _) => true,
        DataLocation::Selector(sel) => crate::interpreter::selector_block::selector_renders(sel),
        DataLocation::SelectorColon(sel, _) => crate::interpreter::selector_block::selector_renders(sel),
        _ => false,
    }
}

/// The objective of a score location: the one named, or the dummy objective.
pub open spec fn location_objective(t: DataLocation, dummy: Seq<char>) -> Option<Seq<char>> {
    match t {
        DataLocation::Ident(_) => Some(dummy),
        DataLocation::Selector(_) => Some(dummy),
        DataLocation::Colon(_, s) => Some(s@),
        DataLocation::SelectorColon(_, s) => Some(s@),
        _ => None,
    }
}

/// What an operation on the score `holder objective` gives: with another variable (not a
/// fixed-point operation) or another entity's score, one `scoreboard players operation`;
/// with an integer, what `integer_op_result` says; with a decimal, what `float_op_result`
/// says; with an entity's data or experience, the value read into a score first (see
/// `data_op_result`).
pub open spec fn variable_op_result(
    holder: Seq<char>,
    objective: Seq<char>,
    op: Operation,
    syn: Syntax,
    dummy: Seq<char>,
    acc: int,
    r: Result<VecCmd, String>,
) -> bool {
    &&& syn matches Syntax::Float(f) ==> float_op_result(holder, objective, op, f, dummy, acc, r)
    &&& syn matches Syntax::Identifier(src) ==> (!is_fixed(op) ==> (r matches Ok(v) && v.base@.len() == 1
        && v.mods@.len() == 0 && is_score_op(v.base@[0], holder, objective, op, "%"@ + src@, dummy)))
    &&& syn matches Syntax::Integer(n) ==> (!is_fixed(op) ==> integer_op_result(holder, objective, op, n, dummy, r))
    &&& syn matches Syntax::SelectorNbt(sel, path) ==> (r is Ok <==> crate::interpreter::selector_block::selector_renders(sel))
        && (r matches Ok(v) ==> v.mods@.len() == 0 && data_op_result(holder, objective, op, dummy, "%"@, v, |c: Command|
        c matches Command::DataGet(NbtLocation::Entity(s2, p2)) && crate::interpreter::selector_block::rendered_as(sel, s2)
        && p2.deep_view() == path.deep_view()))
    &&& syn matches Syntax::SelectorColon(sel, obj) ==> (!is_fixed(op) ==> (r is Ok <==> crate::interpreter::selector_block::selector_renders(
        sel,
    )) && (r matches Ok(v) ==> v.base@.len() == 1 && v.mods@.len() == 0 && exists|s2: Selector<String>|
        crate::interpreter::selector_block::rendered_as(sel, s2) && #[trigger] is_score_op(
            v.base@[0],
            holder,
            objective,
            op,
            crate::syntax::selector_text(s2),
            obj@,
        )))
    &&& syn matches Syntax::SelectorDoubleColon(sel, id) ==> (r is Ok <==> spec_xp_levels(id@) is Some
        && crate::interpreter::selector_block::selector_renders(sel)) && (r matches Ok(v) ==> v.mods@.len() == 0 && data_op_result(
        holder,
        objective,
        op,
        dummy,
        "%__xp__"@,
        v,
        |c: Command|
            c matches Command::XpGet { target: s2, levels } && crate::interpreter::selector_block::rendered_as(sel, s2) && Some(
                levels,
            ) == spec_xp_levels(id@),
    ))
}

/// What an operation with the integer `n` on the score `holder objective` gives (see
/// `integer_operation`), by the views of its commands.
pub open spec fn integer_op_result(holder: Seq<char>, objective: Seq<char>, op: Operation, n: i32, dummy: Seq<char>, r: Result<
    VecCmd,
    String,
>) -> bool {
    &&& r matches Ok(v) ==> v.mods@.len() == 0
    &&& (op == Operation::DivEq || op == Operation::ModEq) && n == 0 ==> (r matches Err(e) && e@ == "Can't divide by zero"@)
    &&& op == Operation::Swap ==> (r matches Err(e) && e@
        == "Can't apply `><` (the swap operator) to an integer; did you mean `=`, `>`, or `<`?"@)
    &&& op == Operation::Equal ==> (r matches Ok(v) && v.base@.len() == 1 && (v.base@[0] matches Command::ScoreSet {
        target: ct,
        objective: co,
        value,
    } && ct@ == holder && co@ == objective && value == n))
    &&& op == Operation::AddEq && n != 0 ==> (r matches Ok(v) && v.base@.len() == 1 && (v.base@[0] matches Command::ScoreAdd {
        target: ct,
        objective: co,
        value,
    } && ct@ == holder && co@ == objective && value == n))
    &&& op == Operation::SubEq && n != 0 && n != i32::MIN ==> (r matches Ok(v) && v.base@.len() == 1 && (
    v.base@[0] matches Command::ScoreAdd { target: ct, objective: co, value } && ct@ == holder && co@ == objective && value == -n))
    &&& (op == Operation::AddEq || op == Operation::SubEq) && n == 0 ==> (r matches Ok(v) && v.base@.len() == 0)
    &&& (op == Operation::MulEq || op == Operation::DivEq || op == Operation::ModEq) && n == 1 ==> (r matches Ok(v)
        && v.base@.len() == 0)
    &&& op == Operation::MulEq && n == 0 ==> (r matches Ok(v) && v.base@.len() == 1 && (v.base@[0] matches Command::ScoreSet {
        target: ct,
        objective: co,
        value,
    } && ct@ == holder && co@ == objective && value == 0))
    &&& op == Operation::MulEq && n == 2 ==> (r matches Ok(v) && v.base@.len() == 1 && is_score_op(
        v.base@[0],
        holder,
        objective,
        Operation::AddEq,
        holder,
        objective,
    ))
    &&& (op == Operation::MulEq && n != 0 && n != 1 && n != 2) || ((op == Operation::DivEq || op == Operation::ModEq) && n != 0
        && n != 1) ==> (r matches Ok(v) && v.base@.len() == 1 && const_op(v.base@[0], holder, objective, op, n as int, dummy))
}

/// What an operation with a value read into a score gives, where `get` says which command
/// reads it: `=` stores the read value in the score directly; other operations store it
/// in the score `tmp` first, then combine the score with it.
pub open spec fn data_op_result(
    holder: Seq<char>,
    objective: Seq<char>,
    op: Operation,
    dummy: Seq<char>,
    tmp: Seq<char>,
    v: VecCmd,
    get: spec_fn(Command) -> bool,
) -> bool {
    &&& op == Operation::Equal ==> v.base@.len() == 1 && (v.base@[0] matches Command::Execute { options, cmd } && options@.len()
        == 1 && (options@[0] matches ExecuteOption::StoreScore { target: t, objective: o, is_success } && t@ == holder && o@
        == objective && !is_success) && get(*cmd))
    &&& op != Operation::Equal ==> v.base@.len() == 2 && (v.base@[0] matches Command::Execute { options, cmd } && options@.len()
        == 1 && (options@[0] matches ExecuteOption::StoreScore { target: t, objective: o, is_success } && t@ == tmp && o@ == dummy
        && !is_success) && get(*cmd)) && is_score_op(v.base@[1], holder, objective, op, tmp, dummy)
}

/// A multiplication or division by `f` that `float_operation` carries out: the factor is
/// defined and its nearest fraction keeps the constant in range.
pub open spec fn float_scaled_ok(mul: bool, f: crate::decimal::Decimal) -> bool {
    float_factor(mul, f.spec_mantissa() as int, crate::decimal::pow10(f.spec_scale() as nat) as int) matches Some((n, d))
        && -2147483647 * d <= n * 100 <= 2147483646 * d
}

/// What an operation with the decimal `f` on the score `holder objective` gives: `*=` and
/// `/=` multiply and divide by the constants of a closest fraction with a denominator up
/// to 100; `.+=` and `.-=` add (or remove) the decimal scaled by the accuracy `acc`, when
/// that fits in a score. `*=` and `/=` succeed exactly when `float_scaled_ok` holds.
pub open spec fn float_op_result(
    holder: Seq<char>,
    objective: Seq<char>,
    op: Operation,
    f: crate::decimal::Decimal,
    dummy: Seq<char>,
    acc: int,
    r: Result<VecCmd, String>,
) -> bool {
    &&& (op == Operation::MulEq || op == Operation::DivEq) ==> (r is Ok <==> float_scaled_ok(op == Operation::MulEq, f))
    &&& (op == Operation::MulEq || op == Operation::DivEq) ==> (r matches Ok(v) ==> v.base@.len() == 2 && v.mods@.len() == 0 && (
        float_factor(op == Operation::MulEq, f.spec_mantissa() as int, crate::decimal::pow10(f.spec_scale() as nat) as int) matches Some(
        (n, d),
    ) && exists|p: int, q: int|
        #![trigger crate::decimal::simplified(p, q)]
        1 <= q <= 100 && crate::decimal::closest_within(n, d, p, q, 100) && const_op(
            v.base@[0],
            holder,
            objective,
            Operation::MulEq,
            crate::decimal::simplified(p, q).0,
            dummy,
        ) && const_op(v.base@[1], holder, objective, Operation::DivEq, crate::decimal::simplified(p, q).1, dummy)))
    &&& (op == Operation::FixedAddEq || op == Operation::FixedSubEq) && fixed_fits(
        f.spec_mantissa() as int,
        acc,
        crate::decimal::pow10(f.spec_scale() as nat) as int,
    ) ==> ({
        let t = crate::decimal::trunc_div(f.spec_mantissa() * acc, crate::decimal::pow10(f.spec_scale() as nat) as int);
        let d = if op == Operation::FixedAddEq { t } else { -t };
        (op == Operation::FixedSubEq ==> t != i32::MIN) ==> (r matches Ok(v) && v.mods@.len() == 0 && (d == 0 ==> v.base@.len() == 0)
            && (d != 0 ==> v.base@.len() == 1 && (v.base@[0] matches Command::ScoreAdd { target: ct, objective: co, value } && ct@
            == holder && co@ == objective && value == d)))
    })
}

/// Interpret an operation with a score on the left. The score's objective is declared.
/// For a variable on the left: another variable on the right gives one
/// `scoreboard players operation` with it (two or three with the fixed-point operations);
/// an integer is handled as `integer_operation` says.
pub fn simple_operation(target: &DataLocation, op: Operation, syn: &Syntax, state: &mut InterRepr, config: &Config) -> (r:
    Result<VecCmd, String>)
    requires
        old(state).wf(),
    ensures
        final(state).wf(),
        final(state).extends(*old(state)),
        r matches Ok(v) ==> v.wf(),
        !target.is_score() ==> r is Err,
        target.is_score() && r is Ok ==> final(state).objectives@.contains_key(
            location_objective(*target, config.dummy_objective@)->0,
        ),
        variable_holder(*target) matches Some(t) ==> variable_op_result(
            t,
            location_objective(*target, config.dummy_objective@)->0,
            op,
            *syn,
            config.dummy_objective@,
            config.fixed_point_accuracy as int,
            r,
        ),
        holder_renders(*target) ==> exists|h: Seq<char>| #[trigger] holder_text(*target, h) && variable_op_result(
            h,
            location_objective(*target, config.dummy_objective@)->0,
            op,
            *syn,
            config.dummy_objective@,
            config.fixed_point_accuracy as int,
            r,
        ),
        target.is_score() && syn is Float && !(op == Operation::MulEq || op == Operation::DivEq || is_fixed(op)) ==> r is Err,
        variable_holder(*target) is Some && syn is Float && !(op == Operation::MulEq || op == Operation::DivEq || is_fixed(op))
            ==> (r matches Err(e) && e@ == float_op_error(op)),
        variable_holder(*target) is Some ==> (*syn matches Syntax::Float(f) ==> ((op == Operation::MulEq || op == Operation::DivEq) ==> (r is Ok
            <==> (float_factor(op == Operation::MulEq, f.spec_mantissa() as int, crate::decimal::pow10(f.spec_scale() as nat) as int)
            matches Some((n, d)) && -2147483647 * d <= n * 100 <= 2147483646 * d)))),
        variable_holder(*target) matches Some(tt) ==> (*syn matches Syntax::Float(f) ==> ((op == Operation::MulEq || op == Operation::DivEq) ==> (r matches Ok(v)
            ==> v.base@.len() == 2 && v.mods@.len() == 0 && (float_factor(
            op == Operation::MulEq,
            f.spec_mantissa() as int,
            crate::decimal::pow10(f.spec_scale() as nat) as int,
        ) matches Some((n, d)) && exists|p: int, q: int|
            #![trigger crate::decimal::simplified(p, q)]
            1 <= q <= 100 && crate::decimal::closest_within(n, d, p, q, 100) && (const_op(
                v.base@[0],
                tt,
                location_objective(*target, config.dummy_objective@)->0,
                Operation::MulEq,
                crate::decimal::simplified(p, q).0,
                config.dummy_objective@,
            ) && const_op(
                v.base@[1],
                tt,
                location_objective(*target, config.dummy_objective@)->0,
                Operation::DivEq,
                crate::decimal::simplified(p, q).1,
                config.dummy_objective@,
            )))))),
{
    let target_objective = target.stringify_scoreboard_objective(config)?;
    let target_name = target.stringify_scoreboard_target()?;
    assert(holder_text(*target, target_name@));
    declare_objective(state, &target_objective, config);
    let dummy = config.dummy_objective.clone();
    match syn {
        Syntax::Integer(value) => {
            if op == Operation::FixedEq || op == Operation::FixedAddEq || op == Operation::FixedSubEq || op
                == Operation::FixedMulEq || op == Operation::FixedDivEq {
                fixed_integer(target_name, target_objective, op, *value, state, config)
            } else {
                integer_operation(target_name, target_objective, op, *value, state, config)
            }
        },
        Syntax::SelectorDoubleColon(sel, ident) => {
            let levels = xp_levels(ident.as_str())?;
            let s = stringify_selector(sel)?;
            let get = Command::XpGet { target: s, levels };
            if op == Operation::Equal {
                let store = ExecuteOption::StoreScore { target: target_name, objective: target_objective, is_success: false };
                Ok(single(vec![Command::Execute { options: vec![store], cmd: Box::new(get) }]))
            } else {
                let store = ExecuteOption::StoreScore { target: owned("%__xp__"), objective: dummy.clone(), is_success: false };
                let c1 = Command::Execute { options: vec![store], cmd: Box::new(get) };
                let c2 = score_op(&target_name, &target_objective, op, owned("%__xp__"), dummy);
                Ok(single(vec![c1, c2]))
            }
        },
        Syntax::SelectorNbt(selector, nbt) => {
            let s = stringify_selector(selector)?;
            let get = Command::DataGet(NbtLocation::Entity(s, nbt.duplicate()));
            if op == Operation::Equal {
                let store = ExecuteOption::StoreScore { target: target_name, objective: target_objective, is_success: false };
                Ok(single(vec![Command::Execute { options: vec![store], cmd: Box::new(get) }]))
            } else {
                let store = ExecuteOption::StoreScore { target: owned("%"), objective: dummy.clone(), is_success: false };
                let c1 = Command::Execute { options: vec![store], cmd: Box::new(get) };
                let c2 = score_op(&target_name, &target_objective, op, owned("%"), dummy);
                Ok(single(vec![c1, c2]))
            }
        },
        Syntax::Identifier(ident) => {
            let mut source = owned("%");
            source.append(ident.as_str());
            fixed_or_plain(target_name, target_objective, op, source, dummy, state, config)
        },
        Syntax::SelectorColon(selector, ident) => {
            let s = stringify_selector(selector)?;
            let source = s.to_text();
            fixed_or_plain(target_name, target_objective, op, source, ident.clone(), state, config)
        },
        Syntax::Annotation(name, bound) => {
            if !(str_eq(name.as_str(), "rand") || str_eq(name.as_str(), "random")) {
                let mut msg = owned("The only annotation allowed in an operation is `rand`; got `");
                msg.append(name.as_str());
                msg.append("`");
                return Err(msg);
            }
            if op == Operation::Equal {
                random(target, bound, state, config)
            } else {
                let mut cmds = random(&DataLocation::Ident(owned("%")), bound, state, config)?;
                let c = score_op(&target_name, &target_objective, op, owned("%%"), dummy);
                cmds.push(single_command(c));
                Ok(cmds)
            }
        },
        Syntax::Float(float) => float_operation(target_name, target_objective, op, *float, state, config),
        _ => {
            let mut msg = owned("Unsupported operation: `");
            let loc = target.copy().into_syntax();
            push_debug(&mut msg, &loc);
            msg.append(" ");
            msg.append(op.text());
            msg.append(" ");
            push_debug(&mut msg, syn);
            msg.append("`");
            Err(msg)
        },
    }
}

/// One command with no versions beyond the base.
pub fn single_command(c: Command) -> (r: crate::versioning::Versioned<Command>)
    ensures
        r.wf(),
        r.base == c,
        r.mods@.len() == 0,
{
    crate::versioning::Versioned::from(c)
}

/// Whether a `::` index names experience levels (`lvl`, `level`) or points (`xp`,
/// `experience`); none for anything else.
pub open spec fn spec_xp_levels(ident: Seq<char>) -> Option<bool> {
    if ident == "lvl"@ || ident == "level"@ {
        Some(true)
    } else if ident == "xp"@ || ident == "experience"@ {
        Some(false)
    } else {
        None
    }
}

/// Whether a `::` index names experience levels (`lvl`, `level`) or points (`xp`,
/// `experience`).
pub fn xp_levels(ident: &str) -> (r: Result<bool, String>)
    ensures
        r == Ok::<bool, String>(true) <==> (ident@ == "lvl"@ || ident@ == "level"@),
        r == Ok::<bool, String>(false) <==> (ident@ == "xp"@ || ident@ == "experience"@),
{
    proof {
        reveal_strlit("lvl");
        reveal_strlit("level");
        reveal_strlit("xp");
        reveal_strlit("experience");
        assert("lvl"@.len() == 3 && "level"@.len() == 5 && "xp"@.len() == 2 && "experience"@.len() == 10);
    }
    if str_eq(ident, "lvl") || str_eq(ident, "level") {
        Ok(true)
    } else if str_eq(ident, "xp") || str_eq(ident, "experience") {
        Ok(false)
    } else {
        let mut msg = owned("A selector can only be `::` indexed with `lvl` or `xp`, not `");
        msg.append(ident);
        msg.append("`");
        Err(msg)
    }
}

/// A score combined with another score (`source` in `source_objective`); the fixed-point
/// operations scale by the configured accuracy.
fn fixed_or_plain(
    target: String,
    objective: String,
    op: Operation,
    source: String,
    source_objective: String,
    state: &mut InterRepr,
    config: &Config,
) -> (r: Result<VecCmd, String>)
    requires
        old(state).wf(),
    ensures
        final(state).wf(),
        final(state).extends(*old(state)),
        final(state).objectives@ == old(state).objectives@,
        r matches Ok(v) ==> v.wf(),
        !is_fixed(op) ==> (r matches Ok(v) && v.base@.len() == 1 && v.mods@.len() == 0 && is_score_op(
            v.base@[0],
            target@,
            objective@,
            op,
            source@,
            source_objective@,
        )),
        op == Operation::FixedMulEq ==> (r matches Ok(v) && v.base@.len() == 2 && v.mods@.len() == 0 && is_score_op(
            v.base@[0],
            target@,
            objective@,
            Operation::MulEq,
            source@,
            source_objective@,
        ) && is_score_op(
            v.base@[1],
            target@,
            objective@,
            Operation::DivEq,
            "%__const__"@ + crate::text::i32_hex_text(config.fixed_point_accuracy),
            config.dummy_objective@,
        )),
        op == Operation::FixedDivEq ==> (r matches Ok(v) && v.base@.len() == 2 && v.mods@.len() == 0 && is_score_op(
            v.base@[0],
            target@,
            objective@,
            Operation::MulEq,
            "%__const__"@ + crate::text::i32_hex_text(config.fixed_point_accuracy),
            config.dummy_objective@,
        ) && is_score_op(v.base@[1], target@, objective@, Operation::DivEq, source@, source_objective@)),
{
    let acc = config.fixed_point_accuracy;
    let dummy = config.dummy_objective.clone();
    match op {
        Operation::FixedMulEq => {
            state.insert_constant(acc);
            let c1 = score_op(&target, &objective, Operation::MulEq, source, source_objective);
            let c2 = score_op(&target, &objective, Operation::DivEq, const_name(acc), dummy);
            Ok(single(vec![c1, c2]))
        },
        Operation::FixedDivEq => {
            state.insert_constant(acc);
            let c1 = score_op(&target, &objective, Operation::MulEq, const_name(acc), dummy);
            let c2 = score_op(&target, &objective, Operation::DivEq, source, source_objective);
            Ok(single(vec![c1, c2]))
        },
        Operation::FixedEq | Operation::FixedAddEq | Operation::FixedSubEq => {
            let plain = if op == Operation::FixedEq {
                Operation::Equal
            } else if op == Operation::FixedAddEq {
                Operation::AddEq
            } else {
                Operation::SubEq
            };
            state.insert_constant(acc);
            let c1 = score_op(&owned("%"), &dummy, Operation::Equal, source, source_objective);
            let c2 = score_op(&owned("%"), &dummy, Operation::MulEq, const_name(acc), dummy.clone());
            let c3 = score_op(&target, &objective, plain, owned("%"), dummy);
            Ok(single(vec![c1, c2, c3]))
        },
        _ => Ok(single(vec![score_op(&target, &objective, op, source, source_objective)])),
    }
}

/// an operation with a variable and literal integer
pub fn integer_operation(target_name: String, target_objective: String, op: Operation, value: i32, state: &mut InterRepr, config: &Config) -> (r:
    Result<VecCmd, String>)
    requires
        old(state).wf(),
    ensures
        final(state).wf(),
        final(state).extends(*old(state)),
        final(state).objectives@ == old(state).objectives@,
        r matches Ok(v) ==> v.wf() && v.mods@.len() == 0,
        (op == Operation::DivEq || op == Operation::ModEq) && value == 0 ==> r is Err,
        op == Operation::Swap ==> r is Err,
        op == Operation::Equal ==> (r matches Ok(v) && v.base@.len() == 1 && v.base@[0] == (Command::ScoreSet {
            target: target_name,
            objective: target_objective,
            value,
        })),
        op == Operation::AddEq && value != 0 ==> (r matches Ok(v) && v.base@.len() == 1 && v.base@[0] == (Command::ScoreAdd {
            target: target_name,
            objective: target_objective,
            value,
        })),
        op == Operation::SubEq && value != 0 && value != i32::MIN ==> (r matches Ok(v) && v.base@.len() == 1 && v.base@[0]
            == (Command::ScoreAdd { target: target_name, objective: target_objective, value: (-value) as i32 })),
        (op == Operation::AddEq || op == Operation::SubEq) && value == 0 ==> (r matches Ok(v) && v.base@.len() == 0),
        (op == Operation::MulEq || op == Operation::DivEq || op == Operation::ModEq) && value == 1 ==> (r matches Ok(v)
            && v.base@.len() == 0),
        op == Operation::MulEq && value == 0 ==> (r matches Ok(v) && v.base@.len() == 1 && v.base@[0] == (Command::ScoreSet {
            target: target_name,
            objective: target_objective,
            value: 0,
        })),
        op == Operation::MulEq && value == 2 ==> (r matches Ok(v) && v.base@.len() == 1 && v.base@[0] == (Command::ScoreOperation {
            target: target_name,
            target_objective: target_objective,
            operation: Operation::AddEq,
            source: target_name,
            source_objective: target_objective,
        })),
        (op == Operation::MulEq && value != 0 && value != 1 && value != 2) || ((op == Operation::DivEq || op
            == Operation::ModEq) && value != 0 && value != 1) ==> (r matches Ok(v) && v.base@.len() == 1 && (v.base@[0] matches Command::ScoreOperation {
            target: t,
            target_objective: o,
            operation: p,
            source: s,
            source_objective: so,
        } && t == target_name && o == target_objective && p == op && s@ == "%__const__"@ + crate::text::i32_hex_text(value)
            && so@ == config.dummy_objective@) && final(state).constants@.to_set() == old(state).constants@.to_set().insert(value)),
        (op == Operation::DivEq || op == Operation::ModEq) && value == 0 ==> (r matches Err(e) && e@ == "Can't divide by zero"@),
        op == Operation::Swap ==> (r matches Err(e) && e@
            == "Can't apply `><` (the swap operator) to an integer; did you mean `=`, `>`, or `<`?"@),
        op == Operation::Equal || op == Operation::AddEq || op == Operation::SubEq || op == Operation::Swap || ((op
            == Operation::MulEq || op == Operation::DivEq || op == Operation::ModEq) && (value == 0 || value == 1)) || (op
            == Operation::MulEq && value == 2) ==> *final(state) == *old(state),
{
    if op == Operation::MulEq && value == 0 {
        Ok(single(vec![Command::ScoreSet { target: target_name, objective: target_objective, value: 0 }]))
    } else if (op == Operation::DivEq || op == Operation::ModEq) && value == 0 {
        Err(owned("Can't divide by zero"))
    } else if op == Operation::Equal {
        Ok(single(vec![Command::ScoreSet { target: target_name, objective: target_objective, value }]))
    } else if (op == Operation::MulEq || op == Operation::DivEq || op == Operation::ModEq) && value == 1 {
        Ok(single(Vec::new()))
    } else if (op == Operation::AddEq || op == Operation::SubEq) && value == 0 {
        Ok(single(Vec::new()))
    } else if op == Operation::AddEq {
        Ok(single(vec![Command::ScoreAdd { target: target_name, objective: target_objective, value }]))
    } else if op == Operation::Swap {
        Err(owned("Can't apply `><` (the swap operator) to an integer; did you mean `=`, `>`, or `<`?"))
    } else if op == Operation::SubEq {
        if value == i32::MIN {
            return Err(owned("Can't subtract the smallest integer; its negation does not fit in a score"));
        }
        let neg = -value;
        Ok(single(vec![Command::ScoreAdd { target: target_name, objective: target_objective, value: neg }]))
    } else if op == Operation::MulEq && value == 2 {
        Ok(single(vec![Command::ScoreOperation {
            source: target_name.clone(),
            source_objective: target_objective.clone(),
            target: target_name,
            target_objective,
            operation: Operation::AddEq,
        }]))
    } else {
        state.insert_constant(value);
        Ok(single(vec![Command::ScoreOperation {
            target: target_name,
            target_objective,
            operation: op,
            source: const_name(value),
            source_objective: config.dummy_objective.clone(),
        }]))
    }
}

/// A fixed-point operation with an integer: `.=`, `.+=` and `.-=` scale the value by the
/// accuracy; `.*=` and `./=` multiply and divide by the value itself.
fn fixed_integer(target_name: String, target_objective: String, op: Operation, value: i32, state: &mut InterRepr, config: &Config) -> (r:
    Result<VecCmd, String>)
    requires
        old(state).wf(),
        op == Operation::FixedEq || op == Operation::FixedAddEq || op == Operation::FixedSubEq || op == Operation::FixedMulEq
            || op == Operation::FixedDivEq,
    ensures
        final(state).wf(),
        final(state).extends(*old(state)),
        final(state).objectives@ == old(state).objectives@,
        r matches Ok(v) ==> v.wf() && v.mods@.len() == 0,
        op == Operation::FixedEq && i32::MIN <= value * config.fixed_point_accuracy <= i32::MAX ==> (r matches Ok(v)
            && v.base@.len() == 1 && (v.base@[0] matches Command::ScoreSet { target: t, objective: o, value: n } && t
            == target_name && o == target_objective && n == value * config.fixed_point_accuracy)),
{
    let v64 = value as i64;
    let a64 = config.fixed_point_accuracy as i64;
    proof {
        assert(-0x8000_0000 * 0x8000_0000 <= v64 * a64 <= 0x8000_0000 * 0x8000_0000) by (nonlinear_arith)
            requires
                -0x8000_0000 <= v64 <= 0x7fff_ffff,
                -0x8000_0000 <= a64 <= 0x7fff_ffff;
    }
    let scaled: i64 = v64 * a64;
    if op == Operation::FixedMulEq {
        return integer_operation(target_name, target_objective, Operation::MulEq, value, state, config);
    }
    if op == Operation::FixedDivEq {
        return integer_operation(target_name, target_objective, Operation::DivEq, value, state, config);
    }
    if scaled < i32::MIN as i64 || scaled > i32::MAX as i64 {
        return Err(owned("Fixed-point value does not fit in a score"));
    }
    let plain = if op == Operation::FixedEq {
        Operation::Equal
    } else if op == Operation::FixedAddEq {
        Operation::AddEq
    } else {
        Operation::SubEq
    };
    integer_operation(target_name, target_objective, plain, scaled as i32, state, config)
}

/// The fraction `(numerator, denominator)` that multiplying (`*=`) or dividing (`/=`) by
/// the decimal `m / p` multiplies by, with a positive denominator; none for a division by
/// zero.
pub open spec fn float_factor(mul: bool, m: int, p: int) -> Option<(int, int)> {
    if mul {
        Some((m, p))
    } else if m > 0 {
        Some((p, m))
    } else if m < 0 {
        Some((-p, -m))
    } else {
        None
    }
}

/// `c` is `target objective <op>= <const> <dummy>`: a score operation with the
/// constant `value`.
pub open spec fn const_op(c: Command, target: Seq<char>, objective: Seq<char>, op: Operation, value: int, dummy: Seq<char>) -> bool {
    c matches Command::ScoreOperation { target: t, target_objective: o, operation: p, source: src, source_objective: so }
        && t@ == target && o@ == objective && p == op && src@ == "%__const__"@ + crate::text::i32_hex_text(value as i32)
        && so@ == dummy
}

/// The error for an operation that cannot take a decimal number.
pub open spec fn float_op_error(op: Operation) -> Seq<char> {
    "Can't apply operation `"@ + op.spec_text() + "` with a float; floats can only be used in multiplication and division."@
}

/// A fixed-point operation's value fits: the mantissa and the accuracy within
/// `0x7fff_ffff` of zero, and the scaled value in `i32`.
pub open spec fn fixed_fits(m: int, acc: int, p: int) -> bool {
    -0x7fff_ffff <= m <= 0x7fff_ffff && -0x7fff_ffff <= acc <= 0x7fff_ffff && i32::MIN <= crate::decimal::trunc_div(m * acc, p)
        <= i32::MAX
}

/// An operation with a decimal number: `*=` and `/=` by the nearest fraction with a
/// denominator up to 100, the fixed-point operations by the value scaled by the accuracy.
fn float_operation(target_name: String, target_objective: String, op: Operation, float: Decimal, state: &mut InterRepr, config: &Config) -> (r:
    Result<VecCmd, String>)
    requires
        old(state).wf(),
    ensures
        final(state).wf(),
        final(state).extends(*old(state)),
        final(state).objectives@ == old(state).objectives@,
        r matches Ok(v) ==> v.wf(),
        !(op == Operation::MulEq || op == Operation::DivEq || is_fixed(op)) ==> (r matches Err(e) && e@ == float_op_error(op)),
        (op == Operation::MulEq || op == Operation::DivEq || op == Operation::FixedMulEq || op == Operation::FixedDivEq) ==> (r is Ok
            <==> (float_factor(
            op == Operation::MulEq || op == Operation::FixedMulEq,
            float.spec_mantissa() as int,
            crate::decimal::pow10(float.spec_scale() as nat) as int,
        ) matches Some((n, d)) && -2147483647 * d <= n * 100 <= 2147483646 * d)),
        (op == Operation::MulEq || op == Operation::DivEq || op == Operation::FixedMulEq || op == Operation::FixedDivEq) ==> (r matches Ok(
            v,
        ) ==> v.base@.len() == 2 && v.mods@.len() == 0 && (float_factor(
            op == Operation::MulEq || op == Operation::FixedMulEq,
            float.spec_mantissa() as int,
            crate::decimal::pow10(float.spec_scale() as nat) as int,
        ) matches Some((n, d)) && exists|p: int, q: int|
            #![trigger crate::decimal::simplified(p, q)]
            1 <= q <= 100 && crate::decimal::closest_within(n, d, p, q, 100) && const_op(
                v.base@[0],
                target_name@,
                target_objective@,
                Operation::MulEq,
                crate::decimal::simplified(p, q).0,
                config.dummy_objective@,
            ) && const_op(
                v.base@[1],
                target_name@,
                target_objective@,
                Operation::DivEq,
                crate::decimal::simplified(p, q).1,
                config.dummy_objective@,
            ))),
        (op == Operation::FixedEq || op == Operation::FixedAddEq || op == Operation::FixedSubEq) ==> (r is Ok ==> fixed_fits(
            float.spec_mantissa() as int,
            config.fixed_point_accuracy as int,
            crate::decimal::pow10(float.spec_scale() as nat) as int,
        )),
        (op == Operation::FixedEq || op == Operation::FixedAddEq) && fixed_fits(
            float.spec_mantissa() as int,
            config.fixed_point_accuracy as int,
            crate::decimal::pow10(float.spec_scale() as nat) as int,
        ) ==> r is Ok,
        op == Operation::FixedSubEq && fixed_fits(
            float.spec_mantissa() as int,
            config.fixed_point_accuracy as int,
            crate::decimal::pow10(float.spec_scale() as nat) as int,
        ) && crate::decimal::trunc_div(
            float.spec_mantissa() * config.fixed_point_accuracy,
            crate::decimal::pow10(float.spec_scale() as nat) as int,
        ) != i32::MIN ==> r is Ok,
        op == Operation::FixedEq && fixed_fits(
            float.spec_mantissa() as int,
            config.fixed_point_accuracy as int,
            crate::decimal::pow10(float.spec_scale() as nat) as int,
        ) ==> (r matches Ok(v) && v.base@.len() == 1 && v.base@[0] == (Command::ScoreSet {
            target: target_name,
            objective: target_objective,
            value: crate::decimal::trunc_div(
                float.spec_mantissa() * config.fixed_point_accuracy,
                crate::decimal::pow10(float.spec_scale() as nat) as int,
            ) as i32,
        })),
        (op == Operation::FixedAddEq || op == Operation::FixedSubEq) && fixed_fits(
            float.spec_mantissa() as int,
            config.fixed_point_accuracy as int,
            crate::decimal::pow10(float.spec_scale() as nat) as int,
        ) ==> ({
            let t = crate::decimal::trunc_div(
                float.spec_mantissa() * config.fixed_point_accuracy,
                crate::decimal::pow10(float.spec_scale() as nat) as int,
            );
            let d = if op == Operation::FixedAddEq { t } else { -t };
            (op == Operation::FixedSubEq ==> t != i32::MIN) ==> (r matches Ok(v) && v.mods@.len() == 0 && (d == 0 ==> v.base@.len()
                == 0) && (d != 0 ==> v.base@.len() == 1 && v.base@[0] == (Command::ScoreAdd {
                target: target_name,
                objective: target_objective,
                value: d as i32,
            })))
        }),
{
    let m = float.mantissa();
    let s = float.scale();
    proof {
        crate::decimal::lemma_pow10_le(s as nat, 9);
        reveal_with_fuel(crate::decimal::pow10, 10);
    }
    let p = pow10_u64(s) as i64;
    match op {
        Operation::MulEq | Operation::DivEq | Operation::FixedMulEq | Operation::FixedDivEq => {
            let mul = op == Operation::MulEq || op == Operation::FixedMulEq;
            let (num, den): (i64, i64) = if mul {
                (m, p)
            } else if m > 0 {
                (p, m)
            } else if m < 0 {
                (-p, -m)
            } else {
                return Err(owned("Can't divide by zero"));
            };
            if (num as i128) * 100 < -2147483647 * (den as i128) || (num as i128) * 100 > 2147483646 * (den as i128) {
                return Err(owned("Decimal factor out of range; its approximation does not fit in a score"));
            }
            let approx = farey_approximation(num, den, 100);
            state.insert_constant(approx.0);
            state.insert_constant(approx.1);
            let dummy = config.dummy_objective.clone();
            let c1 = score_op(&target_name, &target_objective, Operation::MulEq, const_name(approx.0), dummy.clone());
            let c2 = score_op(&target_name, &target_objective, Operation::DivEq, const_name(approx.1), dummy);
            let cmds = vec![c1, c2];
            assert(cmds@[0] == c1 && cmds@[1] == c2);
            Ok(single(cmds))
        },
        Operation::FixedEq | Operation::FixedAddEq | Operation::FixedSubEq => {
            let acc = config.fixed_point_accuracy as i64;
            if m < -0x7fff_ffff || m > 0x7fff_ffff || acc < -0x7fff_ffff || acc > 0x7fff_ffff {
                return Err(owned("Fixed-point value does not fit in a score"));
            }
            proof {
                assert(-0x7fff_ffff * 0x7fff_ffff <= m * acc <= 0x7fff_ffff * 0x7fff_ffff) by (nonlinear_arith)
                    requires
                        -0x7fff_ffff <= m <= 0x7fff_ffff,
                        -0x7fff_ffff <= acc <= 0x7fff_ffff;
            }
            let scaled = (m * acc) / p;
            if scaled < i32::MIN as i64 || scaled > i32::MAX as i64 {
                return Err(owned("Fixed-point value does not fit in a score"));
            }
            let plain = if op == Operation::FixedEq {
                Operation::Equal
            } else if op == Operation::FixedAddEq {
                Operation::AddEq
            } else {
                Operation::SubEq
            };
            integer_operation(target_name, target_objective, plain, scaled as i32, state, config)
        },
        _ => {
            let mut msg = owned("Can't apply operation `");
            msg.append(op.text());
            msg.append("` with a float; floats can only be used in multiplication and division.");
            Err(msg)
        },
    }
}

/// apply an operation on a selector indexed by double colon
pub fn double_colon(selector: &Selector<Syntax>, ident: &str, op: Operation, right: &Syntax) -> (r: Result<VecCmd, String>)
    ensures
        r matches Ok(v) ==> v.wf() && v.mods@.len() == 0 && v.base@.len() == 1,
        !(ident@ == "lvl"@ || ident@ == "level"@ || ident@ == "xp"@ || ident@ == "experience"@) ==> r is Err,
        !(right is Integer) ==> r is Err,
        !(op == Operation::AddEq || op == Operation::SubEq || op == Operation::Equal) ==> r is Err,
        r matches Ok(v) ==> (op == Operation::Equal ==> v.base@[0] is XpSet) && (op != Operation::Equal ==> v.base@[0] is XpAdd),
        r matches Ok(v) ==> (right matches Syntax::Integer(n) && (v.base@[0] matches Command::XpSet { amount, levels, .. }
            ==> amount == n && levels == (ident@ == "lvl"@ || ident@ == "level"@))),
        r matches Ok(v) ==> (right matches Syntax::Integer(n) && (v.base@[0] matches Command::XpAdd { amount, levels, .. }
            ==> amount == (if op == Operation::AddEq { n as int } else { -n }) && levels == (ident@ == "lvl"@ || ident@ == "level"@))),
        r is Ok <==> (ident@ == "lvl"@ || ident@ == "level"@ || ident@ == "xp"@ || ident@ == "experience"@) && (right matches Syntax::Integer(
            n,
        ) && (op == Operation::AddEq || op == Operation::Equal || (op == Operation::SubEq && n != i32::MIN)))
            && crate::interpreter::selector_block::selector_renders(*selector),
        r matches Ok(v) ==> (v.base@[0] matches Command::XpSet { target, .. } ==> target.selector_type == selector.selector_type),
        r matches Ok(v) ==> (v.base@[0] matches Command::XpAdd { target, .. } ==> target.selector_type == selector.selector_type),
        r matches Ok(v) ==> (v.base@[0] matches Command::XpSet { target, .. } ==> crate::interpreter::selector_block::rendered_as(
            *selector,
            target,
        )),
        r matches Ok(v) ==> (v.base@[0] matches Command::XpAdd { target, .. } ==> crate::interpreter::selector_block::rendered_as(
            *selector,
            target,
        )),
{
    let levels = xp_levels(ident)?;
    match (op, right) {
        (Operation::AddEq, Syntax::Integer(num)) | (Operation::SubEq, Syntax::Integer(num)) => {
            let amount = if op == Operation::AddEq {
                *num
            } else {
                if *num == i32::MIN {
                    return Err(owned("Can't subtract the smallest integer; its negation does not fit"));
                }
                -*num
            };
            let target = stringify_selector(selector)?;
            Ok(single(vec![Command::XpAdd { target, amount, levels }]))
        },
        (Operation::Equal, Syntax::Integer(amount)) => {
            let target = stringify_selector(selector)?;
            Ok(single(vec![Command::XpSet { target, amount: *amount, levels }]))
        },
        _ => {
            let mut msg = owned("Can't operate `{XP} ");
            msg.append(op.text());
            msg.append(" ");
            push_debug(&mut msg, right);
            msg.append("`");
            Err(msg)
        },
    }
}

/// apply an operation where the left is NBT
pub fn nbt_op(lhs: NbtLocation, operation: Operation, rhs: &Syntax, state: &mut InterRepr) -> (r: Result<VecCmd, String>)
    requires
        old(state).wf(),
    ensures
        final(state).wf(),
        final(state).extends(*old(state)),
        r matches Ok(v) ==> v.wf(),
        operation == Operation::Equal && (rhs is String || rhs is Integer || rhs is Float) ==> (r matches Ok(v)
            && v.base@.len() == 1 && v.base@[0] is DataSetValue),
        operation == Operation::Equal && (rhs is Array || rhs is Object || rhs is String || rhs is Integer || rhs is Float) ==> (
        r is Ok <==> crate::convert::nbt_convertible(*rhs, false)),
        operation == Operation::Equal && (rhs is Array || rhs is Object || rhs is String || rhs is Integer || rhs is Float) ==> (
        r matches Ok(v) ==> v.base@.len() == 1 && v.mods@.len() == 0 && (v.base@[0] matches Command::DataSetValue { value, .. }
            && value@ == crate::convert::syntax_nbt_text(*rhs))),
        !(operation == Operation::Equal || operation == Operation::Swap) ==> r is Err,
        operation == Operation::Equal && (rhs is Array || rhs is Object || rhs is String || rhs is Integer || rhs is Float) ==> (
        r matches Ok(v) ==> (v.base@[0] matches Command::DataSetValue { target, .. } && target == lhs)),
        operation == Operation::Equal && (rhs is SelectorNbt || rhs is NbtStorage) ==> (r matches Ok(v) ==> (
        v.base@[0] matches Command::DataSetFrom { target, .. } && target == lhs)),
        operation == Operation::Equal ==> (*rhs matches Syntax::SelectorNbt(sel, path) ==> (r is Ok <==> crate::interpreter::selector_block::selector_renders(
            sel,
        )) && (r matches Ok(v) ==> v.base@.len() == 1 && (v.base@[0] matches Command::DataSetFrom { src, .. } && src matches NbtLocation::Entity(
            s2,
            p2,
        ) && crate::interpreter::selector_block::rendered_as(sel, s2) && p2.deep_view() == path.deep_view()))),
        operation == Operation::Equal ==> (*rhs matches Syntax::NbtStorage(path) ==> (r matches Ok(v) && v.base@.len() == 1 && (
        v.base@[0] matches Command::DataSetFrom { src, .. } && src matches NbtLocation::Storage(p2) && p2.deep_view()
            == path.deep_view()))),
{
    match (operation, rhs) {
        (Operation::Equal, Syntax::Array(_)) | (Operation::Equal, Syntax::Object(_)) | (Operation::Equal, Syntax::String(_))
        | (Operation::Equal, Syntax::Integer(_)) | (Operation::Equal, Syntax::Float(_)) => {
            let nbt = nbt_from_syntax(rhs)?;
            proof {
                let c = choose|n: crate::nbt::Nbt| crate::convert::nbt_of(*rhs, n, false);
                crate::convert::lemma_nbt_text_unique(*rhs, c, nbt);
            }
            let set = Command::DataSetValue { target: lhs, value: nbt.to_text() };
            let cmds = vec![set];
            assert(cmds@ =~= seq![set]);
            Ok(single(cmds))
        },
        (Operation::Equal, Syntax::SelectorNbt(sel, path)) => {
            let s = stringify_selector(sel)?;
            assert(crate::interpreter::selector_block::rendered_as(*sel, s));
            let cmds = vec![Command::DataSetFrom { target: lhs, src: NbtLocation::Entity(s, path.duplicate()) }];
            Ok(single(cmds))
        },
        (Operation::Equal, Syntax::NbtStorage(path)) => {
            let cmds = vec![Command::DataSetFrom { target: lhs, src: NbtLocation::Storage(path.duplicate()) }];
            Ok(single(cmds))
        },
        (Operation::Equal, Syntax::Identifier(ident)) => {
            let mut target = owned("%");
            target.append(ident.as_str());
            let get = Command::ScoreGet { target, objective: owned("dummy") };
            store_nbt(lhs, get, rhs, state)
        },
        (Operation::Equal, Syntax::SelectorColon(sel, ident)) => {
            let s = stringify_selector(sel)?;
            let get = Command::ScoreGet { target: s.to_text(), objective: ident.clone() };
            store_nbt(lhs, get, rhs, state)
        },
        (Operation::Swap, Syntax::NbtStorage(path)) => Ok(swap_nbt(lhs, NbtLocation::Storage(path.duplicate()))),
        (Operation::Swap, Syntax::SelectorNbt(sel, path)) => {
            let s = stringify_selector(sel)?;
            Ok(swap_nbt(lhs, NbtLocation::Entity(s, path.duplicate())))
        },
        _ => {
            let mut msg = owned("Can't operate `{NBT} ");
            msg.append(operation.text());
            msg.append(" ");
            push_debug(&mut msg, rhs);
            msg.append("`");
            Err(msg)
        },
    }
}

/// Stores the result of `get` into the NBT at `lhs`.
fn store_nbt(lhs: NbtLocation, get: Command, rhs: &Syntax, state: &mut InterRepr) -> (r: Result<VecCmd, String>)
    requires
        old(state).wf(),
    ensures
        final(state).wf(),
        final(state).extends(*old(state)),
        r matches Ok(v) ==> v.wf(),
        r matches Ok(v) && v.base@.len() == 1 && v.mods@.len() == 0,
        exists|opt: ExecuteOption|
            #![trigger crate::repr::executed_text(seq![opt], seq![get], crate::text::hex_text(crate::digest::default_hash(crate::convert::debug_text(*rhs)) as nat), Seq::<char>::empty())]
            (opt matches ExecuteOption::StoreNBT { location, is_success, scale } && location == lhs && !is_success
            && scale.spec_mantissa() == 1 && scale.spec_scale() == 0) && forall|ns: Seq<char>| #[trigger] r->Ok_0.base@[0].spec_text(ns)
            == crate::repr::executed_text(seq![opt], seq![get], crate::text::hex_text(crate::digest::default_hash(crate::convert::debug_text(*rhs)) as nat), ns),
{
    let ghost g = get;
    let hash = hashed_name("", rhs);
    let option = ExecuteOption::StoreNBT { location: lhs, is_success: false, scale: Decimal::from_int(1) };
    let ghost opt = option;
    let options = vec![option];
    let cmds = single(vec![get]);
    assert(options@ =~= seq![opt]);
    assert(cmds.base@ =~= seq![g]);
    let r = Command::execute(&options, cmds, hash.as_str(), state);
    proof {
        reveal_strlit("");
        let h = crate::text::hex_text(crate::digest::default_hash(crate::convert::debug_text(*rhs)) as nat);
        assert(""@ + h =~= h);
        assert(crate::repr::executed_text(seq![opt], seq![g], h, Seq::<char>::empty()) == crate::repr::executed_text(
            seq![opt],
            seq![g],
            hash@,
            Seq::<char>::empty(),
        ));
    }
    Ok(r.into_vec())
}

/// The three copies that swap the NBT at two locations through the storage path `%`.
pub open spec fn swap_texts(lhs: NbtLocation, rhs: NbtLocation, ns: Seq<char>) -> Seq<Seq<char>> {
    let tmp = "storage "@ + ns + ":storage "@ + seq!['%'];
    seq![
        "data modify "@ + tmp + " set from "@ + lhs.spec_text(ns),
        "data modify "@ + lhs.spec_text(ns) + " set from "@ + rhs.spec_text(ns),
        "data modify "@ + rhs.spec_text(ns) + " set from "@ + tmp,
    ]
}

/// Swap the NBT at two locations, through the storage path `%`.
pub fn swap_nbt(lhs: NbtLocation, rhs: NbtLocation) -> (r: VecCmd)
    ensures
        r.wf(),
        r.mods@.len() == 0,
        r.base@.len() == 3,
        forall|ns: Seq<char>| #![trigger swap_texts(lhs, rhs, ns)] forall|i: int| 0 <= i < 3 ==> #[trigger] r.base@[i].spec_text(ns)
            == swap_texts(lhs, rhs, ns)[i],
{
    let tmp1 = NbtLocation::Storage(vec![NbtPathPart::Ident(owned("%"))]);
    let tmp2 = NbtLocation::Storage(vec![NbtPathPart::Ident(owned("%"))]);
    let l2 = lhs.copy();
    let r2 = rhs.copy();
    let c1 = Command::DataSetFrom { target: tmp1, src: l2 };
    let c2 = Command::DataSetFrom { target: lhs, src: rhs };
    let c3 = Command::DataSetFrom { target: r2, src: tmp2 };
    let v = single(vec![c1, c2, c3]);
    proof {
        assert forall|ns: Seq<char>| #![trigger swap_texts(lhs, rhs, ns)] forall|i: int| 0 <= i < 3 ==> #[trigger] v.base@[i].spec_text(ns)
            == swap_texts(lhs, rhs, ns)[i] by {
            assert(crate::command::path_display(tmp1->Storage_0@) =~= seq!['%']) by {
                reveal_strlit("%");
            }
            assert(crate::command::path_display(tmp2->Storage_0@) =~= seq!['%']) by {
                reveal_strlit("%");
            }
            assert(v.base@[0].spec_text(ns) =~= swap_texts(lhs, rhs, ns)[0]);
            assert(v.base@[1].spec_text(ns) =~= swap_texts(lhs, rhs, ns)[1]);
            assert(v.base@[2].spec_text(ns) =~= swap_texts(lhs, rhs, ns)[2]);
        }
    }
    v
}

} // verus!
