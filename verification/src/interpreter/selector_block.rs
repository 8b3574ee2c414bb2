//! Blocks whose header is a selector: `as @a {...}`, `tp @s (...)`, `tellraw @a [...]`,
//! `damage @p {...}`.
use vstd::prelude::*;
use crate::command::{Command, ExecuteOption};
use crate::convert::{nbt_convertible, nbt_from_syntax, nbt_of, push_debug, spec_string_of, string_of, stringify_selector};
use crate::interpreter::{err_with, hashed_name, inner_interpret, single, Loader};
use crate::interpreter::block::coordinate_from;
use crate::nbt::{json_entries, json_items, json_text, quoted, Nbt};
use crate::repr::{Config, InterRepr, VecCmd};
use crate::strmap::{keys_sorted, StrMap};
use crate::syntax::{BlockType, Operation, Selector, SelectorType, Syntax};
use crate::text::{owned, str_eq};

verus! {

/// Every argument of the selector can be written as text (see `stringify_selector`).
pub open spec fn selector_renders(sel: Selector<Syntax>) -> bool {
    forall|i: int| 0 <= i < sel.args.seq().len() ==> crate::convert::selector_arg_text(
        #[trigger] sel.args.seq()[i].0@,
        sel.args.seq()[i].1,
    ) is Some
}

/// A `tp` block succeeds: its selector renders, and its body is coordinates or a selector
/// that renders.
pub open spec fn teleport_ok(sel: Selector<Syntax>, body: Syntax) -> bool {
    selector_renders(sel) && (crate::interpreter::block::spec_coordinate(body) is Some || (body matches Syntax::Selector(
        s,
    ) && selector_renders(s)))
}

/// The block types that run a body for the entities of a selector.
pub open spec fn takes_selector(t: BlockType) -> bool {
    t == BlockType::AsAt || t == BlockType::At || t == BlockType::If || t == BlockType::Unless || t == BlockType::Facing
        || t == BlockType::Rotated || t == BlockType::As
}

/// `s` is `sel` with every argument written as text (what `stringify_selector` returns).
pub open spec fn rendered_as(sel: Selector<Syntax>, s: Selector<String>) -> bool {
    &&& s.selector_type == sel.selector_type
    &&& s.args.seq().len() == sel.args.seq().len()
    &&& forall|i: int| #![trigger s.args.seq()[i]] 0 <= i < sel.args.seq().len() ==> s.args.seq()[i].0@ == sel.args.seq()[i].0@
        && crate::convert::selector_arg_text(sel.args.seq()[i].0@, sel.args.seq()[i].1) == Some(s.args.seq()[i].1@)
}

/// `@s`, with no arguments.
pub open spec fn is_self(s: Selector<String>) -> bool {
    s.selector_type == SelectorType::S && s.args.seq().len() == 0
}

/// The subcommands a block of type `bt` runs its body under, for its selector written as `s`.
pub open spec fn selector_options(bt: BlockType, s: Selector<String>, o: Seq<ExecuteOption>) -> bool {
    if bt == BlockType::AsAt {
        o.len() == 2 && o[0] == ExecuteOption::As(s) && (o[1] matches ExecuteOption::At(t) && is_self(t))
    } else if bt == BlockType::At {
        o == seq![ExecuteOption::At(s)]
    } else if bt == BlockType::If {
        o == seq![ExecuteOption::IfEntity { invert: false, selector: s }]
    } else if bt == BlockType::Unless {
        o == seq![ExecuteOption::IfEntity { invert: true, selector: s }]
    } else if bt == BlockType::Facing {
        o == seq![ExecuteOption::FacingEntity(s)]
    } else if bt == BlockType::Rotated {
        o == seq![ExecuteOption::RotatedAs(s)]
    } else {
        o == seq![ExecuteOption::As(s)]
    }
}

/// The name of the function that holds the body of a selector block of type `bt`.
pub open spec fn closure_name(bt: BlockType, body: Syntax) -> Seq<char> {
    "closure/"@ + bt.spec_text() + "_"@ + crate::text::hex_text(crate::digest::default_hash(crate::convert::debug_text(body)) as nat)
}

/// The command of a `tp` block with selector `sel` and body `body`: a teleport of the
/// selector's entities to the coordinates, or to the entity of the body's selector.
pub open spec fn teleport_command(sel: Selector<Syntax>, body: Syntax, c: Command) -> bool {
    match crate::interpreter::block::spec_coordinate(body) {
        Some(pos) => c matches Command::Teleport { target, destination } && rendered_as(sel, target) && destination == pos,
        None => c matches Command::TeleportTo { target, destination } && rendered_as(sel, target) && (body matches Syntax::Selector(
            d,
        ) && rendered_as(d, destination)),
    }
}

/// What the body of a block interprets to, where that is stated: a `tp` block gives its
/// one command.
pub open spec fn body_commands(body: Syntax, inner: Seq<Command>) -> bool {
    body matches Syntax::Block(t, l, b) ==> (t == BlockType::Tp ==> (*l matches Syntax::Selector(ts) ==> inner.len() == 1
        && teleport_command(ts, *b, inner[0])))
}

/// The result of a selector block: its body's commands (what the body gives, see
/// `interpreted`) run under the block's subcommands,
/// gathered into the function `closure_name` when there is more than one.
pub open spec fn selector_block_result(bt: BlockType, sel: Selector<Syntax>, body: Syntax, dummy: Seq<char>, acc: int, v: VecCmd) -> bool
    decreases body, 2nat,
{
    &&& v.base@.len() == 1
    &&& exists|s: Selector<String>, o: Seq<ExecuteOption>, w: VecCmd|
        #![trigger selector_options(bt, s, o), crate::repr::executed_shape(o, w.base@, closure_name(bt, body), v.base@[0])]
        rendered_as(sel, s) && selector_options(bt, s, o) && body_commands(body, w.base@) && crate::interpreter::interpreted(
            body,
            dummy,
            acc,
            w,
        ) && crate::repr::executed_shape(o, w.base@, closure_name(bt, body), v.base@[0]) && forall|ns: Seq<char>|
            #[trigger] v.base@[0].spec_text(ns) == crate::repr::executed_text(o, w.base@, closure_name(bt, body), ns)
}

/// interpret any selector block of the form `tp @s (...)`
pub fn block<L: Loader>(
    block_type: BlockType,
    selector: &Selector<Syntax>,
    body: &Syntax,
    state: &mut InterRepr,
    path: &str,
    loader: &mut L,
    config: &Config,
    depth: u32,
) -> (r: Result<VecCmd, String>)
    requires
        old(state).wf(),
    ensures
        final(state).wf(),
        final(state).extends(*old(state)),
        r matches Ok(v) ==> v.wf(),
        block_type == BlockType::Tp ==> (r is Ok <==> teleport_ok(*selector, *body)),
        block_type == BlockType::Damage ==> (selector_renders(*selector) && damage_body(*body, true) ==> r is Ok),
        block_type == BlockType::Damage ==> (r is Ok ==> selector_renders(*selector) && damage_body(*body, false)),
        block_type == BlockType::Tellraw ==> (selector_renders(*selector) && (body is String || body is Identifier) ==> r is Ok),
        r is Ok ==> selector_renders(*selector),
        !(block_type == BlockType::Tp || block_type == BlockType::Damage || block_type == BlockType::Tellraw || takes_selector(
            block_type,
        )) ==> r is Err,
        takes_selector(block_type) && selector_renders(*selector) && body is Unit ==> r is Ok,
        takes_selector(block_type) && selector_renders(*selector) && crate::interpreter::plain_statement(*body, config.fixed_point_accuracy as int) ==> r is Ok,
        takes_selector(block_type) && (body is Identifier || body is String || body is Integer || body is Float
            || body is Range) ==> r is Err,
        takes_selector(block_type) ==> (r matches Ok(v) ==> selector_block_result(
            block_type,
            *selector,
            *body,
            config.dummy_objective@,
            config.fixed_point_accuracy as int,
            v,
        )),
        block_type == BlockType::Tp ==> (r matches Ok(v) ==> v.base@.len() == 1 && v.mods@.len() == 0 && teleport_command(
            *selector,
            *body,
            v.base@[0],
        )),
    decreases depth, body, 3nat,
{
    if block_type == BlockType::Tp {
        let cmds = teleport(selector, body)?;
        Ok(single(cmds))
    } else if block_type == BlockType::Damage {
        let cmds = damage(selector, body)?;
        Ok(single(cmds))
    } else if block_type == BlockType::Tellraw {
        let cmds = tellraw(selector, body)?;
        Ok(single(cmds))
    } else {
        selector_block(block_type, selector, body, state, path, loader, config, depth)
    }
}

/// interpret a tellraw block like `tellraw @a {...}`
#[verifier::loop_isolation(false)]
pub fn tellraw(selector: &Selector<Syntax>, properties: &Syntax) -> (r: Result<Vec<Command>, String>)
    ensures
        r matches Ok(v) ==> v@.len() == 1 && v@[0] is TellRaw,
        r matches Ok(v) ==> (v@[0] matches Command::TellRaw(t, _) && rendered_as(*selector, t)),
        properties matches Syntax::String(t) ==> (r matches Ok(v) ==> (v@[0] matches Command::TellRaw(_, j) && j@ == "["@
            + text_json(t@) + "]"@)),
        properties matches Syntax::Identifier(id) ==> (r matches Ok(v) ==> (v@[0] matches Command::TellRaw(_, j) && j@ == "["@
            + score_json("%"@ + id@, "dummy"@) + "]"@)),
        r is Ok ==> selector_renders(*selector),
        selector_renders(*selector) && (properties is String || properties is Identifier) ==> r is Ok,
        properties is Object ==> (r is Ok <==> selector_renders(*selector) && nbt_convertible(*properties, false)),
        properties matches Syntax::Array(a) ==> (selector_renders(*selector) && (forall|i: int| 0 <= i < a@.len() ==> (
        #[trigger] a@[i] is String || a@[i] is Identifier)) ==> r is Ok),
{
    let mut nbt_buf: Vec<Nbt> = Vec::new();
    match properties {
        Syntax::Array(arr) => {
            let mut i: usize = 0;
            while i < arr.len()
                invariant
                    i <= arr@.len(),
                decreases arr.len() - i,
            {
                proof {
                    assert(arr@[i as int] == arr[i as int]);
                }
                let c = tellraw_component(&arr[i])?;
                nbt_buf.push(c);
                i = i + 1;
            }
        },
        _ => {
            let c = tellraw_component(properties)?;
            nbt_buf.push(c);
            proof {
                assert(json_items(nbt_buf@, 0) =~= Seq::<char>::empty());
                assert(json_items(nbt_buf@, 1) == json_items(nbt_buf@, 0) + json_text(nbt_buf@[0]));
                assert(json_text(Nbt::Array(nbt_buf)) =~= seq!['['] + json_text(c) + seq![']']);
            }
        },
    }
    let s = stringify_selector(selector)?;
    assert(rendered_as(*selector, s));
    let json = Nbt::Array(nbt_buf).to_json();
    proof {
        reveal_strlit("[");
        reveal_strlit("]");
    }
    let cmd = Command::TellRaw(s, json);
    let out = vec![cmd];
    assert(out@ =~= seq![cmd]);
    Ok(out)
}

/// `{key: value}` as NBT.
fn object1(key: &str, value: Nbt) -> (r: Nbt)
    ensures
        r matches Nbt::Object(m) && m@ == Map::<Seq<char>, Nbt>::empty().insert(key@, value) && m.seq().len() == 1
            && m.seq()[0].0@ == key@ && m.seq()[0].1 == value,
{
    let mut m = StrMap::new();
    m.insert(owned(key), value);
    Nbt::Object(m)
}

/// The JSON of a text component showing a score.
pub open spec fn score_json(name: Seq<char>, objective: Seq<char>) -> Seq<char> {
    "{\"score\":{\"name\":"@ + quoted(name) + ",\"objective\":"@ + quoted(objective) + "}}"@
}

/// The JSON of a text component showing the names of the entities a selector finds.
pub open spec fn selector_json(t: Seq<char>) -> Seq<char> {
    "{\"selector\":"@ + quoted(t) + "}"@
}

/// The JSON of a text component showing a string.
pub open spec fn text_json(t: Seq<char>) -> Seq<char> {
    "{\"text\":"@ + quoted(t) + "}"@
}

/// `{score: {name: <name>, objective: <objective>}}`.
fn score_component(name: String, objective: String) -> (r: Nbt)
    ensures
        r is Object,
        json_text(r) == score_json(name@, objective@),
{
    proof {
        reveal_strlit("name");
        reveal_strlit("objective");
        reveal_strlit("score");
        reveal_strlit("{\"score\":{\"name\":");
        reveal_strlit(",\"objective\":");
        reveal_strlit("}}");
        assert(crate::strmap::str_lt("name"@, "objective"@));
    }
    let mut inner = StrMap::new();
    let ghost name_v = Nbt::String(name);
    inner.insert(owned("name"), Nbt::String(name));
    assert(inner.seq().len() == 1 && inner.seq()[0].0@ == "name"@ && inner.seq()[0].1 == name_v);
    assert forall|j: int| 0 <= j < inner.seq().len() implies crate::strmap::str_lt(#[trigger] inner.seq()[j].0@, "objective"@) by {}
    let ghost objective_v = Nbt::String(objective);
    inner.insert(owned("objective"), Nbt::String(objective));
    let ghost im = inner;
    assert(im.seq().len() == 2 && im.seq()[1].0@ == "objective"@ && im.seq()[0].0@ == "name"@);
    let r = object1("score", Nbt::Object(inner));
    proof {
        let m = r->Object_0;
        assert(json_entries(im, 0) =~= Seq::<char>::empty());
        assert(im.seq()[0].1 == name_v);
        assert(json_entries(im, 1) == json_entries(im, 0) + seq!['"'] + im.seq()[0].0@ + seq!['"', ':'] + json_text(im.seq()[0].1)
            + seq![',']);
        assert(json_text(name_v) == quoted(name@));
        assert(im.seq()[1].1 == objective_v);
        assert(json_entries(im, 2) == json_entries(im, 1) + seq!['"'] + im.seq()[1].0@ + seq!['"', ':'] + json_text(
            im.seq()[1].1,
        ));
        assert(json_entries(im, 1) =~= seq!['"'] + "name"@ + seq!['"', ':'] + quoted(name@) + seq![',']);
        assert(json_entries(im, 2) =~= json_entries(im, 1) + seq!['"'] + "objective"@ + seq!['"', ':'] + quoted(objective@));
        assert(json_text(Nbt::Object(im)) =~= seq!['{'] + json_entries(im, 2) + seq!['}']);
        assert(json_entries(m, 0) =~= Seq::<char>::empty());
        assert(json_entries(m, 1) =~= seq!['"'] + "score"@ + seq!['"', ':'] + json_text(Nbt::Object(im)));
        assert(json_text(r) =~= score_json(name@, objective@));
    }
    r
}

/// get a tellraw component
#[verifier::loop_isolation(false)]
pub fn tellraw_component(src: &Syntax) -> (r: Result<Nbt, String>)
    ensures
        r matches Ok(n) ==> (n is Object || src is Object),
        src is String || src is Identifier ==> r is Ok,
        src is String ==> (r matches Ok(n) && n is Object),
        src matches Syntax::String(t) ==> (r matches Ok(n) && json_text(n) == text_json(t@)),
        src matches Syntax::Identifier(id) ==> (r matches Ok(n) && json_text(n) == score_json("%"@ + id@, "dummy"@)),
        src is Object ==> (r is Ok <==> nbt_convertible(*src, false)),
        src is Object ==> (r matches Ok(n) ==> nbt_of(*src, n, false)),
        src matches Syntax::BinaryOp { lhs, operation, rhs } ==> (operation == Operation::Colon ==> (**lhs matches Syntax::Identifier(
            a,
        ) ==> (**rhs matches Syntax::Identifier(o) ==> (r matches Ok(n) && json_text(n) == score_json("%"@ + a@, o@))))),
        src matches Syntax::SelectorColon(sel, o) ==> (r is Ok <==> selector_renders(*sel)) && (r matches Ok(n) ==> exists|s2: Selector<
            String,
        >| #[trigger] rendered_as(*sel, s2) && json_text(n) == score_json(crate::syntax::selector_text(s2), o@)),
        src matches Syntax::Selector(sel) ==> (r is Ok <==> selector_renders(*sel)) && (r matches Ok(n) ==> exists|s2: Selector<
            String,
        >| #[trigger] rendered_as(*sel, s2) && json_text(n) == selector_json(crate::syntax::selector_text(s2))),
    decreases src,
{
    match src {
        Syntax::Object(_) => nbt_from_syntax(src),
        Syntax::String(s) => {
            let r = object1("text", Nbt::String(s.clone()));
            proof {
                reveal_strlit("text");
                reveal_strlit("{\"text\":");
                reveal_strlit("}");
                let m = r->Object_0;
                assert(json_entries(m, 0) =~= Seq::<char>::empty());
                assert(json_entries(m, 1) == json_entries(m, 0) + seq!['"'] + m.seq()[0].0@ + seq!['"', ':'] + json_text(
                    m.seq()[0].1,
                ));
                assert(json_text(r) =~= text_json(s@));
            }
            Ok(r)
        },
        Syntax::Identifier(ident) => {
            let mut name = owned("%");
            name.append(ident.as_str());
            Ok(score_component(name, owned("dummy")))
        },
        Syntax::BinaryOp { lhs, operation: Operation::Colon, rhs } => {
            let Syntax::Identifier(ident) = &**lhs else {
                return Err(err_with("Unsupported tellraw component: `", src, "`"));
            };
            let Syntax::Identifier(objective) = &**rhs else {
                return Err(err_with("Expected score identifier, not `", rhs, "`"));
            };
            let mut name = owned("%");
            name.append(ident.as_str());
            Ok(score_component(name, objective.clone()))
        },
        Syntax::SelectorColon(sel, objective) => {
            let s = stringify_selector(sel)?;
            assert(rendered_as(*sel, s));
            Ok(score_component(s.to_text(), objective.clone()))
        },
        Syntax::Selector(sel) => {
            let s = stringify_selector(sel)?;
            assert(rendered_as(*sel, s));
            let t = s.to_text();
            let ghost tv = t@;
            let r = object1("selector", Nbt::String(t));
            proof {
                reveal_strlit("selector");
                reveal_strlit("{\"selector\":");
                reveal_strlit("}");
                let m = r->Object_0;
                assert(json_entries(m, 0) =~= Seq::<char>::empty());
                assert(json_entries(m, 1) == json_entries(m, 0) + seq!['"'] + m.seq()[0].0@ + seq!['"', ':'] + json_text(
                    m.seq()[0].1,
                ));
                assert(json_text(r) =~= selector_json(tv));
            }
            Ok(r)
        },
        Syntax::Array(arr) => {
            let mut nbt_buf: StrMap<Nbt> = StrMap::new();
            let mut base: StrMap<Nbt> = StrMap::new();
            let mut i: usize = 0;
            while i < arr.len()
                invariant
                    i <= arr@.len(),
                decreases arr.len() - i,
            {
                proof {
                    assert(decreases_to!(arr => arr[i as int]));
                }
                let item = &arr[i];
                match item {
                    Syntax::Identifier(ident) => {
                        let id = ident.as_str();
                        let key = if str_eq(id, "bold") {
                            "bold"
                        } else if str_eq(id, "italic") {
                            "italic"
                        } else if str_eq(id, "underlined") || str_eq(id, "underline") {
                            "underlined"
                        } else if str_eq(id, "strikethrough") {
                            "strikethrough"
                        } else if str_eq(id, "obfuscated") || str_eq(id, "obfuscate") {
                            "obfuscated"
                        } else {
                            let mut msg = owned("Unsupported tellraw component: `");
                            msg.append(id);
                            msg.append("`");
                            return Err(msg);
                        };
                        nbt_buf.insert(owned(key), Nbt::true_value());
                    },
                    Syntax::BinaryOp { lhs, operation: Operation::Colon, rhs } => {
                        let Syntax::Identifier(ident) = &**lhs else {
                            return Err(err_with("Unsupported tellraw component: `", item, "`"));
                        };
                        let content = string_of(rhs)?;
                        nbt_buf.insert(ident.clone(), Nbt::String(content));
                    },
                    other => {
                        let c = tellraw_component(other)?;
                        let is_obj = matches!(c, Nbt::Object(_));
                        if !is_obj {
                            match c.get_obj() {
                                Err(e) => return Err(e),
                                Ok(_) => {},
                            }
                        }
                        if let Nbt::Object(m) = c {
                            base = m;
                        }
                    },
                }
                i = i + 1;
            }
            // the modifiers win over the base component's own keys
            let n = nbt_buf.len();
            let mut j: usize = 0;
            while j < n
                invariant
                    n == nbt_buf.seq().len(),
                    j <= n,
                decreases n - j,
            {
                base.insert(nbt_buf.key_at(j).clone(), nbt_buf.value_at(j).copy());
                j = j + 1;
            }
            Ok(Nbt::Object(base))
        },
        other => Err(err_with("Unsupported tellraw component: `", other, "`")),
    }
}

/// The properties a damage block may have.
pub open spec fn is_damage_property(k: Seq<char>) -> bool {
    k == "amount"@ || k == "damage_type"@ || k == "type"@ || k == "source"@ || k == "attacker"@ || k == "from"@ || k == "by"@
}

/// An entry of a damage block of an accepted form: an integer `amount`, a string type,
/// or an attacker selector.
pub open spec fn damage_entry_shape(k: Seq<char>, v: Syntax) -> bool {
    ||| k == "amount"@ && v is Integer
    ||| (k == "damage_type"@ || k == "type"@ || k == "source"@) && crate::convert::spec_string_of(v) is Some
    ||| (k == "attacker"@ || k == "from"@ || k == "by"@) && v is Selector
}

/// An entry of a damage block of an accepted form whose attacker selector, if it is one,
/// renders.
pub open spec fn damage_entry_ok(k: Seq<char>, v: Syntax) -> bool {
    damage_entry_shape(k, v) && (v matches Syntax::Selector(a) ==> selector_renders(a))
}

/// Every entry of the damage body satisfies `p`: an integer body has none, any other body
/// but an object fails.
pub open spec fn damage_body(props: Syntax, ok: bool) -> bool {
    match props {
        Syntax::Integer(_) => true,
        Syntax::Object(m) => forall|k: Seq<char>| #[trigger] m@.contains_key(k) ==> (if ok {
            damage_entry_ok(k, m@[k])
        } else {
            damage_entry_shape(k, m@[k])
        }),
        _ => false,
    }
}

/// The names of a damage block's attacker property.
pub open spec fn is_attacker_key(k: Seq<char>) -> bool {
    k == "attacker"@ || k == "from"@ || k == "by"@
}

/// The names of a damage block's damage type property.
pub open spec fn is_damage_type_key(k: Seq<char>) -> bool {
    k == "damage_type"@ || k == "type"@ || k == "source"@
}

/// interpret a block of type `damage @p {...}`
#[verifier::loop_isolation(false)]
pub fn damage(selector: &Selector<Syntax>, properties: &Syntax) -> (r: Result<Vec<Command>, String>)
    ensures
        r matches Ok(v) ==> v@.len() == 1 && v@[0] is Damage,
        properties matches Syntax::Integer(n) ==> (r matches Ok(v) ==> (v@[0] matches Command::Damage { amount, damage_type, .. }
            && amount == n && damage_type@ == "entity-attack"@)),
        !(properties is Object || properties is Integer) ==> r is Err,
        r is Ok ==> (*properties matches Syntax::Object(m) ==> (forall|k: Seq<char>| #[trigger] m@.contains_key(k)
            ==> is_damage_property(k))),
        r matches Ok(v) ==> (*properties matches Syntax::Object(m) ==> (v@[0] matches Command::Damage { amount, damage_type, .. }
            && (m@.contains_key("amount"@) ==> m@["amount"@] == Syntax::Integer(amount)) && (!m@.contains_key("amount"@) ==> amount
            == 1) && (!(m@.contains_key("damage_type"@) || m@.contains_key("type"@) || m@.contains_key("source"@)) ==> damage_type@
            == "entity-attack"@))),
        selector_renders(*selector) && damage_body(*properties, true) ==> r is Ok,
        r is Ok ==> selector_renders(*selector) && damage_body(*properties, false),
        r matches Ok(v) ==> (v@[0] matches Command::Damage { target, .. } && rendered_as(*selector, target)),
        r matches Ok(v) ==> (v@[0] matches Command::Damage { attacker, damage_type, .. } && (*properties matches Syntax::Object(m) ==> (
        (exists|k: Seq<char>| #[trigger] m@.contains_key(k) && is_attacker_key(k)) ==> exists|k: Seq<char>| #[trigger] m@.contains_key(
            k,
        ) && is_attacker_key(k) && (m@[k] matches Syntax::Selector(sel) && rendered_as(sel, attacker))) && ((exists|k: Seq<char>|
            #[trigger] m@.contains_key(k) && is_damage_type_key(k)) ==> exists|k: Seq<char>| #[trigger] m@.contains_key(k)
            && is_damage_type_key(k) && spec_string_of(m@[k]) == Some(damage_type@))) && (!(*properties matches Syntax::Object(m) && exists|
            k: Seq<char>,
        | #[trigger] m@.contains_key(k) && is_attacker_key(k)) ==> attacker.selector_type == SelectorType::S && attacker.args.seq().len()
            == 0)),
{
    let mut amount: i32 = 1;
    let mut damage_type = owned("entity-attack");
    let default_attacker: Selector<Syntax> = Selector::s();
    let mut attacker: &Selector<Syntax> = &default_attacker;
    match properties {
        Syntax::Object(obj) => {
            obj.facts();
            let n = obj.len();
            let mut i: usize = 0;
            while i < n
                invariant
                    n == obj.seq().len(),
                    i <= n,
                    keys_sorted(obj.seq()),
                    forall|j: int| 0 <= j < i ==> is_damage_property(#[trigger] obj.seq()[j].0@),
                    forall|j: int| 0 <= j < i ==> damage_entry_shape(#[trigger] obj.seq()[j].0@, obj.seq()[j].1),
                    (forall|j: int| 0 <= j < i ==> damage_entry_ok(#[trigger] obj.seq()[j].0@, obj.seq()[j].1)) ==> selector_renders(
                        *attacker,
                    ),
                    forall|j: int| 0 <= j < i && #[trigger] obj.seq()[j].0@ == "amount"@ ==> obj.seq()[j].1 == Syntax::Integer(
                        amount,
                    ),
                    (forall|j: int| 0 <= j < i ==> #[trigger] obj.seq()[j].0@ != "amount"@) ==> amount == 1,
                    (forall|j: int| 0 <= j < i ==> #[trigger] obj.seq()[j].0@ != "damage_type"@ && obj.seq()[j].0@ != "type"@
                        && obj.seq()[j].0@ != "source"@) ==> damage_type@ == "entity-attack"@,
                    (forall|j: int| 0 <= j < i ==> !is_attacker_key(#[trigger] obj.seq()[j].0@)) ==> *attacker == default_attacker,
                    (exists|j: int| 0 <= j < i && is_attacker_key(#[trigger] obj.seq()[j].0@)) ==> exists|j: int| 0 <= j < i
                        && is_attacker_key(#[trigger] obj.seq()[j].0@) && obj.seq()[j].1 == Syntax::Selector(*attacker),
                    (exists|j: int| 0 <= j < i && is_damage_type_key(#[trigger] obj.seq()[j].0@)) ==> exists|j: int| 0 <= j < i
                        && is_damage_type_key(#[trigger] obj.seq()[j].0@) && spec_string_of(obj.seq()[j].1) == Some(damage_type@),
                decreases n - i,
            {
                proof {
                    crate::strmap::lemma_sorted_value(obj.seq(), i as int);
                    reveal_strlit("amount");
                    reveal_strlit("damage_type");
                    reveal_strlit("type");
                    reveal_strlit("source");
                    reveal_strlit("attacker");
                    reveal_strlit("from");
                    reveal_strlit("by");
                    assert("amount"@.len() == 6 && "amount"@[0] == 'a' && "damage_type"@.len() == 11 && "damage_type"@[0] == 'd' && "type"@.len() == 4 && "type"@[0] == 't' && "source"@.len() == 6 && "source"@[0] == 's' && "attacker"@.len() == 8 && "attacker"@[0] == 'a' && "from"@.len() == 4 && "from"@[0] == 'f' && "by"@.len() == 2 && "by"@[0] == 'b');
                }
                let k = obj.key_at(i).as_str();
                let v = obj.value_at(i);
                if str_eq(k, "amount") {
                    match v {
                        Syntax::Integer(num) => amount = *num,
                        other => return Err(err_with("Expected a number for damage amount; got `", other, "`")),
                    }
                } else if str_eq(k, "damage_type") || str_eq(k, "type") || str_eq(k, "source") {
                    match string_of(v) {
                        Ok(s) => damage_type = s,
                        Err(_) => return Err(err_with("Expected a string for damage type; got `", v, "`")),
                    }
                } else if str_eq(k, "attacker") || str_eq(k, "from") || str_eq(k, "by") {
                    let Syntax::Selector(sel) = v else {
                        return Err(err_with("Damage macro attacker should be selector; got `", v, "`"));
                    };
                    attacker = sel;
                } else {
                    let mut msg = owned("Invalid key for damage macro: `");
                    msg.append(k);
                    msg.append("`");
                    return Err(msg);
                }
                i = i + 1;
            }
        },
        Syntax::Integer(num) => amount = *num,
        _ => return Err(err_with("Damage macro expected an object or integer; got `", properties, "`")),
    }
    proof {
        if let Syntax::Object(m) = properties {
            m.lemma_keys_listed();
            assert forall|k: Seq<char>| #[trigger] m@.contains_key(k) implies damage_entry_shape(k, m@[k]) by {
                let j = choose|j: int| 0 <= j < m.seq().len() && #[trigger] m.seq()[j].0@ == k;
                crate::strmap::lemma_sorted_value(m.seq(), j);
                assert(damage_entry_shape(m.seq()[j].0@, m.seq()[j].1));
            }
            if damage_body(*properties, true) {
                assert forall|j: int| 0 <= j < m.seq().len() implies damage_entry_ok(#[trigger] m.seq()[j].0@, m.seq()[j].1) by {
                    crate::strmap::lemma_sorted_value(m.seq(), j);
                    assert(m@.contains_key(m.seq()[j].0@));
                }
            }
            assert forall|k: Seq<char>| #[trigger] m@.contains_key(k) implies is_damage_property(k) by {
                let j = choose|j: int| 0 <= j < m.seq().len() && #[trigger] m.seq()[j].0@ == k;
                assert(is_damage_property(m.seq()[j].0@));
            }
            if m@.contains_key("amount"@) {
                let j = choose|j: int| 0 <= j < m.seq().len() && #[trigger] m.seq()[j].0@ == "amount"@;
                crate::strmap::lemma_sorted_value(m.seq(), j);
            } else {
                assert forall|j: int| 0 <= j < m.seq().len() implies #[trigger] m.seq()[j].0@ != "amount"@ by {
                    crate::strmap::lemma_sorted_value(m.seq(), j);
                }
            }
            if !(m@.contains_key("damage_type"@) || m@.contains_key("type"@) || m@.contains_key("source"@)) {
                assert forall|j: int| 0 <= j < m.seq().len() implies #[trigger] m.seq()[j].0@ != "damage_type"@ && m.seq()[j].0@
                    != "type"@ && m.seq()[j].0@ != "source"@ by {
                    crate::strmap::lemma_sorted_value(m.seq(), j);
                }
            }
        }
    }
    let target = stringify_selector(selector)?;
    assert(rendered_as(*selector, target));
    let ghost att0 = *attacker;
    let attacker = stringify_selector(attacker)?;
    proof {
        assert(rendered_as(att0, attacker));
        if let Syntax::Object(m) = properties {
            if exists|k: Seq<char>| #[trigger] m@.contains_key(k) && is_attacker_key(k) {
                let k = choose|k: Seq<char>| #[trigger] m@.contains_key(k) && is_attacker_key(k);
                m.lemma_keys_listed();
                let j0 = choose|j: int| 0 <= j < m.seq().len() && #[trigger] m.seq()[j].0@ == k;
                assert(is_attacker_key(m.seq()[j0].0@));
                let j = choose|j: int| 0 <= j < m.seq().len() && is_attacker_key(#[trigger] m.seq()[j].0@) && m.seq()[j].1
                    == Syntax::Selector(att0);
                crate::strmap::lemma_sorted_value(m.seq(), j);
                assert(m@.contains_key(m.seq()[j].0@) && is_attacker_key(m.seq()[j].0@));
            } else {
                assert forall|j: int| 0 <= j < m.seq().len() implies !is_attacker_key(#[trigger] m.seq()[j].0@) by {
                    crate::strmap::lemma_sorted_value(m.seq(), j);
                    assert(m@.contains_key(m.seq()[j].0@));
                }
            }
            if exists|k: Seq<char>| #[trigger] m@.contains_key(k) && is_damage_type_key(k) {
                let k = choose|k: Seq<char>| #[trigger] m@.contains_key(k) && is_damage_type_key(k);
                m.lemma_keys_listed();
                let j0 = choose|j: int| 0 <= j < m.seq().len() && #[trigger] m.seq()[j].0@ == k;
                assert(is_damage_type_key(m.seq()[j0].0@));
                let j = choose|j: int| 0 <= j < m.seq().len() && is_damage_type_key(#[trigger] m.seq()[j].0@) && spec_string_of(
                    m.seq()[j].1,
                ) == Some(damage_type@);
                crate::strmap::lemma_sorted_value(m.seq(), j);
                assert(m@.contains_key(m.seq()[j].0@) && is_damage_type_key(m.seq()[j].0@));
            }
        }
    }
    Ok(vec![Command::Damage { target, amount, damage_type, attacker }])
}

/// interpret a block of the form `at @s {...}`
fn selector_block<L: Loader>(
    block_type: BlockType,
    selector: &Selector<Syntax>,
    body: &Syntax,
    state: &mut InterRepr,
    path: &str,
    loader: &mut L,
    config: &Config,
    depth: u32,
) -> (r: Result<VecCmd, String>)
    requires
        old(state).wf(),
    ensures
        final(state).wf(),
        final(state).extends(*old(state)),
        r matches Ok(v) ==> v.wf(),
        !(block_type == BlockType::AsAt || block_type == BlockType::At || block_type == BlockType::If || block_type
            == BlockType::Unless || block_type == BlockType::Facing || block_type == BlockType::Rotated || block_type
            == BlockType::As) ==> r is Err,
        r is Ok ==> selector_renders(*selector),
        takes_selector(block_type) && selector_renders(*selector) && body is Unit ==> r is Ok,
        takes_selector(block_type) && selector_renders(*selector) && crate::interpreter::plain_statement(*body, config.fixed_point_accuracy as int) ==> r is Ok,
        body is Identifier || body is String || body is Integer || body is Float || body is Range ==> r is Err,
        r matches Ok(v) ==> selector_block_result(
            block_type,
            *selector,
            *body,
            config.dummy_objective@,
            config.fixed_point_accuracy as int,
            v,
        ),
    decreases depth, body, 2nat,
{
    let mut options: Vec<ExecuteOption> = Vec::new();
    let ghost sel0 = *selector;
    let selector = stringify_selector(selector)?;
    let ghost s = selector;
    if !(block_type == BlockType::AsAt || block_type == BlockType::At || block_type == BlockType::If || block_type
        == BlockType::Unless || block_type == BlockType::Facing || block_type == BlockType::Rotated || block_type
        == BlockType::As) {
        let mut msg = owned("`");
        msg.append(block_type.name());
        msg.append("` block doesn't take a selector");
        return Err(msg);
    }
    if block_type == BlockType::AsAt {
        options.push(ExecuteOption::As(selector));
        options.push(ExecuteOption::At(Selector::s()));
    } else if block_type == BlockType::At {
        options.push(ExecuteOption::At(selector));
    } else if block_type == BlockType::If {
        options.push(ExecuteOption::IfEntity { invert: false, selector });
    } else if block_type == BlockType::Unless {
        options.push(ExecuteOption::IfEntity { invert: true, selector });
    } else if block_type == BlockType::Facing {
        options.push(ExecuteOption::FacingEntity(selector));
    } else if block_type == BlockType::Rotated {
        options.push(ExecuteOption::RotatedAs(selector));
    } else {
        options.push(ExecuteOption::As(selector));
    }
    let inner = inner_interpret(body, state, path, loader, config, depth)?;
    let mut prefix = owned("closure/");
    prefix.append(block_type.text());
    prefix.append("_");
    let hash = hashed_name(prefix.as_str(), body);
    let ghost w = inner;
    let ghost cb = inner.base@;
    let executed = Command::execute(&options, inner, hash.as_str(), state);
    let r = executed.into_vec();
    proof {
        assert(hash@ == closure_name(block_type, *body));
        assert(rendered_as(sel0, s));
        assert(selector_options(block_type, s, options@));
        assert(body_commands(*body, cb));
        assert(crate::interpreter::interpreted(*body, config.dummy_objective@, config.fixed_point_accuracy as int, w));
        assert(crate::repr::executed_shape(options@, w.base@, closure_name(block_type, *body), r.base@[0]));
    }
    Ok(r)
}

/// interpret a teleport block: `tp @s @p` or `tp @s (~ ~ ~)`
pub fn teleport(selector: &Selector<Syntax>, body: &Syntax) -> (r: Result<Vec<Command>, String>)
    ensures
        r matches Ok(v) ==> v@.len() == 1,
        r matches Ok(v) ==> (crate::interpreter::block::spec_coordinate(*body) matches Some(c) ==> (v@[0] matches Command::Teleport {
            destination,
            ..
        } && destination == c)),
        r matches Ok(v) ==> (crate::interpreter::block::spec_coordinate(*body) is None ==> v@[0] is TeleportTo),
        crate::interpreter::block::spec_coordinate(*body) is None && !(body is Selector) ==> r is Err,
        r is Ok <==> teleport_ok(*selector, *body),
        r matches Ok(v) ==> teleport_command(*selector, *body, v@[0]),
        r matches Ok(v) ==> (v@[0] matches Command::Teleport { target, .. } ==> target.selector_type == selector.selector_type),
        r matches Ok(v) ==> (v@[0] matches Command::TeleportTo { target, destination } ==> target.selector_type
            == selector.selector_type && (*body matches Syntax::Selector(s) && destination.selector_type == s.selector_type)),
{
    let target = stringify_selector(selector)?;
    match coordinate_from(body) {
        Ok(destination) => Ok(vec![Command::Teleport { target, destination }]),
        Err(_) => {
            if let Syntax::Selector(sel) = body {
                let destination = stringify_selector(sel)?;
                Ok(vec![Command::TeleportTo { target, destination }])
            } else {
                Err(err_with("Expected coordinates or target for `tp` body; got `", body, "`"))
            }
        },
    }
}

} // verus!
