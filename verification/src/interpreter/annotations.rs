//! Annotations: `@import`, `@item`, `@effect`, `@function`, `@raw`, `@raycast`, `@sound`,
//! `@random`.
use vstd::prelude::*;
use crate::command::{cmd_view, Command, Coordinate, ExecuteOption};
use crate::convert::{debug_text, push_debug, spec_string_of, string_of, stringify_selector};
use crate::decimal::Decimal;
use crate::interpreter::{err_with, get_data_location, inner_interpret, single, Loader};
use crate::interpreter::block::coordinate_from;
use crate::interpreter::item::{item, marks_item};
use crate::interpreter::operation::single_command;
use crate::lexer::{lexed_upto, tokenize};
use crate::token::Token;
use crate::nbt::Nbt;
use crate::parser::{block_value, chain_block_at, parse};
use crate::repr::{Config, InterRepr, VecCmd};
use crate::strmap::{keys_sorted, StrMap};
use crate::syntax::{BlockType, DataLocation, Operation, Selector, SelectorType, Syntax};
use crate::text::{hex_text, int_text, owned, push_int, replace_all, str_eq};
use crate::digest::default_hash;
use crate::versioning::Versioned;

verus! {

/// The names of the annotations that stand as statements.
pub open spec fn is_annotation_name(n: Seq<char>) -> bool {
    n == "import"@ || n == "item"@ || n == "effect"@ || n == "function"@ || n == "raw"@ || n == "raycast"@ || n
        == "sound"@ || n == "playsound"@ || n == "random"@ || n == "rand"@
}

/// What the annotation `@name props` gives when it succeeds: the command of `@raw` and
/// `@function`, nothing for `@item`.
pub open spec fn annotation_result(name: Seq<char>, props: Syntax, v: VecCmd) -> bool {
    &&& name == "raw"@ ==> (props matches Syntax::String(c) ==> v.base@.len() == 1 && v.mods@.len() == 0 && (
        v.base@[0] matches Command::Raw(t) && t@ == c@))
    &&& name == "function"@ ==> v.base@.len() == 1 && v.mods@.len() == 0 && (v.base@[0] matches Command::Function(f) && Some(f@)
        == spec_string_of(props))
    &&& name == "item"@ ==> v.base@.len() == 0
    &&& name == "effect"@ ==> v.base@.len() == 1 && v.mods@.len() == 0 && effect_given(props, v.base@[0])
}

/// The command of an effect: it gives the named effect, to the entities and for the
/// duration and at the level the properties ask for (an infinite effect of level 1 on
/// `@s` for a bare name).
pub open spec fn effect_given(props: Syntax, c: Command) -> bool {
    match props {
        Syntax::String(s) => c matches Command::EffectGive { target, effect, duration, level } && effect@ == s@ && duration is None
            && level == 1 && target.selector_type == SelectorType::S,
        Syntax::Object(m) => c matches Command::EffectGive { target, effect, duration, level } && Some(effect@) == spec_string_of(
            m@["effect"@],
        ) && level == effect_level(m@) && duration == effect_duration(m@) && effect_target_is(m@, target),
        _ => c is EffectGive,
    }
}

/// Interpret an annotation `@name properties`.
pub fn annotations<L: Loader>(src: &Syntax, state: &mut InterRepr, path: &str, loader: &mut L, config: &Config, depth: u32) -> (r:
    Result<VecCmd, String>)
    requires
        old(state).wf(),
    ensures
        final(state).wf(),
        final(state).extends(*old(state)),
        r matches Ok(v) ==> v.wf(),
        !(src is Annotation) ==> r is Err,
        *src matches Syntax::Annotation(name, _) ==> (!is_annotation_name(name@) ==> r is Err),
        *src matches Syntax::Annotation(name, props) ==> (name@ == "import"@ ==> (!(*props is String) || depth == 0 ==> r is Err)),
        *src matches Syntax::Annotation(name, props) ==> (name@ == "raw"@ ==> (*props matches Syntax::String(c) ==> (r matches Ok(
            v,
        ) && v.base@.len() == 1 && v.mods@.len() == 0 && (v.base@[0] matches Command::Raw(t) && t@ == c@)))),
        *src matches Syntax::Annotation(name, props) ==> (name@ == "function"@ ==> (r is Ok <==> spec_string_of(*props) is Some)
            && (r matches Ok(v) ==> v.base@.len() == 1 && v.mods@.len() == 0 && (v.base@[0] matches Command::Function(f)
            && Some(f@) == spec_string_of(*props)))),
        *src matches Syntax::Annotation(name, _) ==> (name@ == "item"@ ==> (r matches Ok(v) ==> v.base@.len() == 0
            && final(state).items@.len() > 0 && marks_item(final(state).items@.last().nbt, final(state).items@.last().name@))),
        *src matches Syntax::Annotation(name, props) ==> (r matches Ok(v) ==> annotation_result(name@, *props, v)),
        *src matches Syntax::Annotation(name, props) ==> (name@ == "effect"@ && effect_accepted(*props) ==> r is Ok),
        *src matches Syntax::Annotation(name, props) ==> (name@ == "item"@ && crate::interpreter::item::plain_item(*props, config.fixed_point_accuracy as int) ==> r is Ok),
        *src matches Syntax::Annotation(name, props) ==> (name@ == "raycast"@ ==> (r is Ok ==> final(state).functions@.contains_key(
            "__internal__/"@ + raycast_hash(*props),
        ) && final(state).functions@.contains_key("__internal__/loop_"@ + raycast_hash(*props)))),
    decreases depth, src, 0nat,
{
    proof {
        reveal_strlit("import");
        reveal_strlit("item");
        reveal_strlit("effect");
        reveal_strlit("function");
        reveal_strlit("raw");
        reveal_strlit("raycast");
        assert("import"@.len() == 6 && "item"@.len() == 4 && "effect"@.len() == 6 && "function"@.len() == 8
            && "raw"@.len() == 3 && "raycast"@.len() == 7);
        assert("import"@[0] != "effect"@[0]);
    }
    let Syntax::Annotation(name, properties) = src else {
        return Err(err_with("Expected an annotation; got `", src, "`"));
    };
    let properties: &Syntax = properties;
    let name = name.as_str();
    if str_eq(name, "import") {
        let Syntax::String(file) = properties else {
            return Err(err_with("Import annotation expects a string, not `", properties, "`"));
        };
        let (new_path, text) = loader.load(path, file.as_str());
        let text = match text {
            Ok(t) => t,
            Err(e) => {
                let mut msg = owned("Error opening ");
                msg.append(file.as_str());
                msg.append(": ");
                msg.append(e.as_str());
                return Err(msg);
            },
        };
        let syntax = read_source(file, text.as_str())?;
        if depth == 0 {
            let mut msg = owned("Imports nest too deeply at ");
            msg.append(file.as_str());
            return Err(msg);
        }
        inner_interpret(&syntax, state, new_path.as_str(), loader, config, depth - 1)
    } else if str_eq(name, "item") {
        let it = item(properties, state, path, loader, config, depth)?;
        state.add_item(it);
        Ok(VecCmd::default())
    } else if str_eq(name, "effect") {
        let cmds = effect(properties)?;
        Ok(single(cmds))
    } else if str_eq(name, "function") {
        match string_of(properties) {
            Ok(func) => Ok(single(vec![Command::Function(func)])),
            Err(e) => {
                let mut msg = owned("Function annotation should have a string; ");
                msg.append(e.as_str());
                Err(msg)
            },
        }
    } else if str_eq(name, "raw") {
        let cmds = raw(properties)?;
        Ok(single(cmds))
    } else if str_eq(name, "raycast") {
        raycast(properties, state, path, loader, config, depth)
    } else if str_eq(name, "sound") || str_eq(name, "playsound") {
        let cmds = sound(properties)?;
        Ok(single(cmds))
    } else if str_eq(name, "random") || str_eq(name, "rand") {
        let Syntax::BinaryOp { lhs, operation: Operation::In, rhs } = properties else {
            return Err(err_with(
                "`@random` in statement position takes an argument of the form `var in 0..10` or `var in 5`; got `",
                properties,
                "`",
            ));
        };
        let loc = get_data_location(lhs)?;
        random(&loc, rhs, state, config)
    } else {
        let mut msg = owned("Unexpected annotation `");
        msg.append(name);
        msg.append("`");
        Err(msg)
    }
}

/// `Error parsing <file>: <error>`.
fn parse_error(file: &String, e: String) -> (r: String)
    ensures
        r@ == "Error parsing "@ + file@ + ": "@ + e@,
        crate::convert::has_prefix(r@, "Error parsing "@ + file@ + ": "@),
{
    assert(("Error parsing "@ + file@ + ": "@ + e@).subrange(0, ("Error parsing "@ + file@ + ": "@).len() as int) =~= "Error parsing "@
        + file@ + ": "@);
    let mut msg = owned("Error parsing ");
    msg.append(file.as_str());
    msg.append(": ");
    msg.append(e.as_str());
    msg
}

/// The syntax of the text of an imported file `file`: its statements read as one list, as
/// if written between `[` and `]`. Every error names the file.
pub fn read_source(file: &String, text: &str) -> (r: Result<Syntax, String>)
    ensures
        r matches Err(e) ==> crate::convert::has_prefix(e@, "Error parsing "@ + file@ + ": "@),
        (forall|ts: Seq<Token>| !#[trigger] lexed_upto("["@ + text@ + "]"@, text@.len() + 2int, ts)) ==> r is Err,
        r matches Ok(syn) ==> exists|ts: Seq<Token>|
            #[trigger] lexed_upto("["@ + text@ + "]"@, text@.len() + 2int, ts) && (chain_block_at(ts, 0) matches Some((items, e)) ==> (e
                == ts.len() ==> block_value(items, syn))),
{
    let mut wrapped = owned("[");
    wrapped.append(text);
    wrapped.append("]");
    proof {
        reveal_strlit("[");
        reveal_strlit("]");
    }
    assert(wrapped@ =~= "["@ + text@ + "]"@);
    assert(wrapped@.len() == text@.len() + 2);
    let tokens = match tokenize(wrapped.as_str()) {
        Ok(tokens) => tokens,
        Err(e) => return Err(parse_error(file, e)),
    };
    let ghost ts = tokens@;
    assert(lexed_upto("["@ + text@ + "]"@, text@.len() + 2int, ts));
    match parse(tokens) {
        Ok(s) => Ok(s),
        Err(e) => Err(parse_error(file, e)),
    }
}

/// `@raw "cmd"` or `@raw ["cmd", ...]`: commands passed through unchanged.
#[verifier::loop_isolation(false)]
pub fn raw(properties: &Syntax) -> (r: Result<Vec<Command>, String>)
    ensures
        properties matches Syntax::String(c) ==> (r matches Ok(v) && v@.len() == 1 && (v@[0] matches Command::Raw(t)
            && t@ == c@)),
        !(properties is String || properties is Array) ==> r is Err,
        properties matches Syntax::Array(arr) ==> (r is Ok <==> forall|i: int| 0 <= i < arr@.len() ==> #[trigger] arr@[i] is String),
        properties matches Syntax::Array(arr) ==> (r matches Ok(v) ==> (v@.len() == arr@.len() && forall|i: int|
            0 <= i < arr@.len() ==> (#[trigger] v@[i] matches Command::Raw(t) && (arr@[i] matches Syntax::String(c)
            && t@ == c@)))),
{
    match properties {
        Syntax::String(cmd) => Ok(vec![Command::Raw(cmd.clone())]),
        Syntax::Array(arr) => {
            let mut out: Vec<Command> = Vec::new();
            let mut i: usize = 0;
            while i < arr.len()
                invariant
                    i <= arr@.len(),
                    out@.len() == i,
                    forall|j: int| 0 <= j < i ==> #[trigger] arr@[j] is String,
                    forall|j: int| 0 <= j < i ==> (#[trigger] out@[j] matches Command::Raw(t) && (arr@[j] matches Syntax::String(c)
                        && t@ == c@)),
                decreases arr.len() - i,
            {
                match &arr[i] {
                    Syntax::String(cmd) => out.push(Command::Raw(cmd.clone())),
                    syn => return Err(err_with("`@raw` takes a string or list of strings, not `", syn, "`")),
                }
                i = i + 1;
            }
            Ok(out)
        },
        other => Err(err_with("`@raw` takes a string or list of strings, not `", other, "`")),
    }
}

/// The properties an effect may have.
pub open spec fn is_effect_property(k: Seq<char>) -> bool {
    k == "selector"@ || k == "target"@ || k == "effect"@ || k == "duration"@ || k == "level"@
}

/// The level an effect object asks for: its `level`, else 1.
pub open spec fn effect_level(m: Map<Seq<char>, Syntax>) -> i32 {
    if m.contains_key("level"@) {
        match m["level"@] {
            Syntax::Integer(n) => n,
            _ => 1,
        }
    } else {
        1
    }
}

/// The duration an effect object asks for: an integer `duration`, else none (infinite).
pub open spec fn effect_duration(m: Map<Seq<char>, Syntax>) -> Option<i32> {
    if m.contains_key("duration"@) {
        match m["duration"@] {
            Syntax::Integer(n) => Some(n),
            _ => None,
        }
    } else {
        None
    }
}

/// A value the effect property `k` accepts: a selector that renders, the effect's name, an
/// integer or `infinite` duration, an integer level.
pub open spec fn effect_value_ok(k: Seq<char>, v: Syntax) -> bool {
    if k == "selector"@ || k == "target"@ {
        v matches Syntax::Selector(sel) && crate::interpreter::selector_block::selector_renders(sel)
    } else if k == "effect"@ {
        spec_string_of(v) is Some
    } else if k == "duration"@ {
        v is Integer || (v matches Syntax::Identifier(d) && d@ == "infinite"@) || (v matches Syntax::String(d) && d@ == "infinite"@)
    } else if k == "level"@ {
        v is Integer
    } else {
        false
    }
}

/// An effect that `effect` accepts: a name, or an object with an `effect` whose properties
/// all take accepted values.
pub open spec fn effect_accepted(src: Syntax) -> bool {
    match src {
        Syntax::Object(m) => m@.contains_key("effect"@) && forall|k: Seq<char>| #[trigger] m@.contains_key(k) ==> effect_value_ok(
            k,
            m@[k],
        ),
        _ => spec_string_of(src) is Some,
    }
}

/// The entity an effect object names: its `target`, else its `selector`.
pub open spec fn effect_target_arg(m: Map<Seq<char>, Syntax>) -> Option<Syntax> {
    if m.contains_key("target"@) {
        Some(m["target"@])
    } else if m.contains_key("selector"@) {
        Some(m["selector"@])
    } else {
        None
    }
}

/// `target` is what an effect object gives its effect to: the named selector with every
/// argument rendered, else `@s` with no arguments.
pub open spec fn effect_target_is(m: Map<Seq<char>, Syntax>, target: Selector<String>) -> bool {
    match effect_target_arg(m) {
        Some(Syntax::Selector(sel)) => crate::interpreter::selector_block::rendered_as(sel, target),
        _ => target.selector_type == SelectorType::S && target.args.seq().len() == 0,
    }
}

/// `@effect {effect: ..., selector: ..., duration: ..., level: ...}` or `@effect name`.
#[verifier::loop_isolation(false)]
pub fn effect(src: &Syntax) -> (r: Result<Vec<Command>, String>)
    ensures
        r matches Ok(v) ==> (*src matches Syntax::Object(m) ==> (v@[0] matches Command::EffectGive { target, .. }
            && effect_target_is(m@, target))),
        effect_accepted(*src) ==> r is Ok,
        r matches Ok(v) ==> v@.len() == 1 && v@[0] is EffectGive,
        src matches Syntax::String(s) ==> (r matches Ok(v) && (v@[0] matches Command::EffectGive { target, effect, duration, level }
            && effect@ == s@ && duration is None && level == 1 && target.selector_type == SelectorType::S)),
        r is Ok ==> (*src matches Syntax::Object(m) ==> (forall|k: Seq<char>| #[trigger] m@.contains_key(k) ==> is_effect_property(k))
            && m@.contains_key("effect"@) && (m@.contains_key("level"@) ==> m@["level"@] is Integer)),
        r matches Ok(v) ==> (*src matches Syntax::Object(m) ==> (v@[0] matches Command::EffectGive { effect, duration, level, .. }
            && Some(effect@) == spec_string_of(m@["effect"@]) && level == effect_level(m@) && duration == effect_duration(m@))),
{
    let mut selector: Option<Selector<String>> = None;
    let mut effect: Option<String> = None;
    let mut duration: Option<i32> = None;
    let mut level: i32 = 1;
    if let Syntax::Object(obj) = src {
        obj.facts();
        let n = obj.len();
        let mut i: usize = 0;
        while i < n
            invariant
                n == obj.seq().len(),
                i <= n,
                keys_sorted(obj.seq()),
                forall|j: int| 0 <= j < i ==> is_effect_property(#[trigger] obj.seq()[j].0@),
                forall|j: int| 0 <= j < i && #[trigger] obj.seq()[j].0@ == "effect"@ ==> (effect matches Some(e) && Some(e@)
                    == spec_string_of(obj.seq()[j].1)),
                effect is Some ==> exists|j: int| 0 <= j < i && #[trigger] obj.seq()[j].0@ == "effect"@,
                forall|j: int| 0 <= j < i && #[trigger] obj.seq()[j].0@ == "level"@ ==> (obj.seq()[j].1 matches Syntax::Integer(
                    v,
                ) && level == v),
                (forall|j: int| 0 <= j < i ==> #[trigger] obj.seq()[j].0@ != "level"@) ==> level == 1,
                forall|j: int| 0 <= j < i && #[trigger] obj.seq()[j].0@ == "duration"@ ==> duration == (match obj.seq()[j].1 {
                    Syntax::Integer(v) => Some(v),
                    _ => None,
                }),
                (forall|j: int| 0 <= j < i ==> #[trigger] obj.seq()[j].0@ != "duration"@) ==> duration is None,
                (forall|j: int| 0 <= j < i ==> #[trigger] obj.seq()[j].0@ != "selector"@ && obj.seq()[j].0@ != "target"@)
                    ==> selector is None,
                forall|j: int| 0 <= j < i && #[trigger] obj.seq()[j].0@ == "target"@ ==> (obj.seq()[j].1 matches Syntax::Selector(sel)
                    && selector matches Some(t) && crate::interpreter::selector_block::rendered_as(sel, t)),
                forall|j: int| 0 <= j < i && #[trigger] obj.seq()[j].0@ == "selector"@ ==> (obj.seq()[j].1 matches Syntax::Selector(sel)
                    && ((forall|j2: int| 0 <= j2 < i ==> #[trigger] obj.seq()[j2].0@ != "target"@) ==> (selector matches Some(t)
                    && crate::interpreter::selector_block::rendered_as(sel, t)))),
            decreases n - i,
        {
            proof {
                crate::strmap::lemma_sorted_value(obj.seq(), i as int);
                reveal_strlit("selector");
                reveal_strlit("target");
                reveal_strlit("effect");
                reveal_strlit("duration");
                reveal_strlit("level");
                assert("selector"@.len() == 8 && "target"@.len() == 6 && "effect"@.len() == 6 && "duration"@.len() == 8
                    && "level"@.len() == 5);
                assert("selector"@[0] == 's' && "target"@[0] == 't' && "effect"@[0] == 'e' && "duration"@[0] == 'd');
            }
            let prop = obj.key_at(i).as_str();
            let value = obj.value_at(i);
            assert(obj@.contains_key(prop@) && obj@[prop@] == *value);
            if str_eq(prop, "selector") || str_eq(prop, "target") {
                if let Syntax::Selector(sel) = value {
                    let t = stringify_selector(sel)?;
                    proof {
                        assert(crate::interpreter::selector_block::rendered_as(*sel, t));
                        assert(!crate::strmap::str_lt("target"@, "selector"@));
                        assert forall|j: int| 0 <= j < i implies #[trigger] obj.seq()[j].0@ != "target"@ by {
                            if obj.seq()[j].0@ == "target"@ {
                                assert(crate::strmap::str_lt(obj.seq()[j].0@, obj.seq()[i as int].0@));
                            }
                        }
                    }
                    selector = Some(t);
                } else {
                    return Err(err_with("Unexpected element: `", value, "`; expected a selector"));
                }
            } else if str_eq(prop, "effect") {
                match string_of(value) {
                    Ok(e) => effect = Some(e),
                    Err(_) => return Err(owned("Potion effect must be a string")),
                }
            } else if str_eq(prop, "duration") {
                match value {
                    Syntax::Identifier(s) | Syntax::String(s) => {
                        if !str_eq(s.as_str(), "infinite") {
                            let mut msg = owned("Potion duration should be an integer or infinite, not `");
                            msg.append(s.as_str());
                            msg.append("`");
                            return Err(msg);
                        }
                    },
                    Syntax::Integer(num) => duration = Some(*num),
                    other => return Err(err_with("Potion duration should be an integer or infinite, not `", other, "`")),
                }
            } else if str_eq(prop, "level") {
                if let Syntax::Integer(num) = value {
                    level = *num;
                } else {
                    return Err(err_with("Potion level should be an integer, not `", value, "`"));
                }
            } else {
                let mut msg = owned("Unexpected potion property: `");
                msg.append(prop);
                msg.append("`");
                return Err(msg);
            }
            i = i + 1;
        }
        proof {
            let m = *obj;
            m.lemma_keys_listed();
            assert forall|k: Seq<char>| #[trigger] m@.contains_key(k) implies is_effect_property(k) by {
                let j = choose|j: int| 0 <= j < m.seq().len() && #[trigger] m.seq()[j].0@ == k;
                assert(is_effect_property(m.seq()[j].0@));
            }
            if effect is Some {
                let j = choose|j: int| 0 <= j < n && #[trigger] m.seq()[j].0@ == "effect"@;
                crate::strmap::lemma_sorted_value(m.seq(), j);
            }
            if m@.contains_key("effect"@) {
                let j = choose|j: int| 0 <= j < m.seq().len() && #[trigger] m.seq()[j].0@ == "effect"@;
            }
            if m@.contains_key("level"@) {
                let j = choose|j: int| 0 <= j < m.seq().len() && #[trigger] m.seq()[j].0@ == "level"@;
                crate::strmap::lemma_sorted_value(m.seq(), j);
            } else {
                assert forall|j: int| 0 <= j < n implies #[trigger] m.seq()[j].0@ != "level"@ by {
                    crate::strmap::lemma_sorted_value(m.seq(), j);
                }
            }
            if m@.contains_key("duration"@) {
                let j = choose|j: int| 0 <= j < m.seq().len() && #[trigger] m.seq()[j].0@ == "duration"@;
                crate::strmap::lemma_sorted_value(m.seq(), j);
            } else {
                assert forall|j: int| 0 <= j < n implies #[trigger] m.seq()[j].0@ != "duration"@ by {
                    crate::strmap::lemma_sorted_value(m.seq(), j);
                }
            }
            if m@.contains_key("target"@) {
                let j = choose|j: int| 0 <= j < m.seq().len() && #[trigger] m.seq()[j].0@ == "target"@;
                crate::strmap::lemma_sorted_value(m.seq(), j);
            } else {
                assert forall|j: int| 0 <= j < n implies #[trigger] m.seq()[j].0@ != "target"@ by {
                    crate::strmap::lemma_sorted_value(m.seq(), j);
                }
                if m@.contains_key("selector"@) {
                    let j = choose|j: int| 0 <= j < m.seq().len() && #[trigger] m.seq()[j].0@ == "selector"@;
                    crate::strmap::lemma_sorted_value(m.seq(), j);
                } else {
                    assert forall|j: int| 0 <= j < n implies #[trigger] m.seq()[j].0@ != "selector"@ by {
                        crate::strmap::lemma_sorted_value(m.seq(), j);
                    }
                }
            }
        }
    } else {
        match string_of(src) {
            Ok(s) => effect = Some(s),
            Err(_) => return Err(err_with("Expected an object for item annotation; got `", src, "`")),
        }
    }
    let Some(effect) = effect else {
        return Err(owned("Effect must include the effect id; {... effect: \"...\"}"));
    };
    let target = match selector {
        Some(s) => s,
        None => Selector::s(),
    };
    Ok(vec![Command::EffectGive { target, effect, duration, level }])
}

/// A number for a sound setting: an integer or a decimal.
fn sound_number(v: &Syntax, what: &str) -> (r: Result<Decimal, String>)
    ensures
        r is Ok == (v is Integer || v is Float),
        v matches Syntax::Float(d) ==> r == Ok::<Decimal, String>(*d),
        v matches Syntax::Integer(n) ==> r == Ok::<Decimal, String>(Decimal::spec_from_int(*n)),
{
    match v {
        Syntax::Integer(n) => Ok(Decimal::from_int(*n)),
        Syntax::Float(float) => Ok(*float),
        other => {
            let mut msg = owned("Expected float or int for ");
            msg.append(what);
            msg.append("; got `");
            push_debug(&mut msg, other);
            msg.append("`");
            Err(msg)
        },
    }
}

/// The properties a sound may have.
pub open spec fn is_sound_property(k: Seq<char>) -> bool {
    k == "sound"@ || k == "pos"@ || k == "posititon"@ || k == "location"@ || k == "source"@ || k == "target"@ || k
        == "volume"@ || k == "pitch"@ || k == "minvolume"@ || k == "min_volume"@
}

/// The number a sound setting gives: an integer or a decimal, else `default`.
pub open spec fn sound_number_value(v: Syntax, default: Decimal) -> Decimal {
    match v {
        Syntax::Integer(n) => Decimal::spec_from_int(n),
        Syntax::Float(d) => d,
        _ => default,
    }
}

/// A number setting of a sound object: the number given for `k`, else `default`.
pub open spec fn sound_setting(m: Map<Seq<char>, Syntax>, k: Seq<char>, default: Decimal) -> Decimal {
    if m.contains_key(k) {
        sound_number_value(m[k], default)
    } else {
        default
    }
}

/// A sound property with an accepted value: a string for the sound and its source,
/// coordinates for the position, a selector that renders for the target, a number for
/// the volumes and the pitch.
pub open spec fn sound_entry_ok(k: Seq<char>, v: Syntax) -> bool {
    if k == "sound"@ || k == "source"@ {
        spec_string_of(v) is Some
    } else if k == "pos"@ || k == "posititon"@ || k == "location"@ {
        crate::interpreter::block::spec_coordinate(v) is Some
    } else if k == "target"@ {
        v matches Syntax::Selector(sel) && crate::interpreter::selector_block::selector_renders(sel)
    } else {
        is_sound_property(k) && (v is Integer || v is Float)
    }
}

/// A sound property with a value of an accepted form (as `sound_entry_ok`, but any
/// selector for the target).
pub open spec fn sound_entry_shape(k: Seq<char>, v: Syntax) -> bool {
    if k == "target"@ {
        v is Selector
    } else {
        sound_entry_ok(k, v)
    }
}

/// `@sound {sound: ..., pos: ..., source: ..., target: ..., volume: ..., pitch: ...,
/// min_volume: ...}`: play a sound; the sound must be given.
#[verifier::loop_isolation(false)]
pub fn sound(properties: &Syntax) -> (r: Result<Vec<Command>, String>)
    ensures
        r matches Ok(v) ==> v@.len() == 1 && v@[0] is Sound,
        !(properties is Object) ==> r is Err,
        r is Ok ==> (*properties matches Syntax::Object(m) && (forall|k: Seq<char>| #[trigger] m@.contains_key(k)
            ==> is_sound_property(k)) && m@.contains_key("sound"@)),
        r matches Ok(v) ==> (*properties matches Syntax::Object(m) && (v@[0] matches Command::Sound { sound, source, volume, pitch, .. }
            && Some(sound@) == spec_string_of(m@["sound"@]) && (m@.contains_key("source"@) ==> Some(source@) == spec_string_of(
            m@["source"@],
        )) && (!m@.contains_key("source"@) ==> source@ == "master"@) && volume == sound_setting(
            m@,
            "volume"@,
            Decimal::spec_from_int(1),
        ) && pitch == sound_setting(m@, "pitch"@, Decimal::spec_from_int(1)))),
        r is Ok <==> (*properties matches Syntax::Object(m) && m@.contains_key("sound"@) && forall|k: Seq<char>| #[trigger] m@.contains_key(k)
            ==> sound_entry_ok(k, m@[k])),
        r matches Ok(v) ==> (*properties matches Syntax::Object(m) && (v@[0] matches Command::Sound { target: t, .. } && (
        m@.contains_key("target"@) ==> (m@["target"@] matches Syntax::Selector(sel) && crate::interpreter::selector_block::rendered_as(
            sel,
            t,
        ))) && (!m@.contains_key("target"@) ==> t.selector_type == SelectorType::E && t.args.seq().len() == 0))),
{
    let Syntax::Object(obj) = properties else {
        return Err(err_with("Sound annotation expects an object, not ", properties, ""));
    };
    let mut sound: Option<String> = None;
    let mut pos = Coordinate::here();
    let mut source = owned("master");
    let default_target: Selector<Syntax> = Selector::e();
    let mut target: &Selector<Syntax> = &default_target;
    let mut volume = Decimal::from_int(1);
    let mut pitch = Decimal::from_int(1);
    let mut min_volume = Decimal::from_int(0);
    obj.facts();
    let n = obj.len();
    let mut i: usize = 0;
    while i < n
        invariant
            n == obj.seq().len(),
            i <= n,
            keys_sorted(obj.seq()),
            forall|j: int| 0 <= j < i ==> is_sound_property(#[trigger] obj.seq()[j].0@),
            forall|j: int| 0 <= j < i ==> sound_entry_shape(#[trigger] obj.seq()[j].0@, obj.seq()[j].1),
            forall|j: int| 0 <= j < i && #[trigger] obj.seq()[j].0@ == "target"@ ==> obj.seq()[j].1 == Syntax::Selector(*target),
            (forall|j: int| 0 <= j < i ==> #[trigger] obj.seq()[j].0@ != "target"@) ==> crate::interpreter::selector_block::selector_renders(
                *target,
            ),
            (forall|j: int| 0 <= j < i ==> #[trigger] obj.seq()[j].0@ != "target"@) ==> *target == default_target,
            forall|j: int| 0 <= j < i && #[trigger] obj.seq()[j].0@ == "sound"@ ==> (sound matches Some(t) && Some(t@)
                == spec_string_of(obj.seq()[j].1)),
            sound is Some ==> exists|j: int| 0 <= j < i && #[trigger] obj.seq()[j].0@ == "sound"@,
            forall|j: int| 0 <= j < i && #[trigger] obj.seq()[j].0@ == "source"@ ==> Some(source@) == spec_string_of(
                obj.seq()[j].1,
            ),
            (forall|j: int| 0 <= j < i ==> #[trigger] obj.seq()[j].0@ != "source"@) ==> source@ == "master"@,
            forall|j: int| 0 <= j < i && #[trigger] obj.seq()[j].0@ == "volume"@ ==> volume == sound_number_value(
                obj.seq()[j].1,
                Decimal::spec_from_int(1),
            ),
            (forall|j: int| 0 <= j < i ==> #[trigger] obj.seq()[j].0@ != "volume"@) ==> volume == Decimal::spec_from_int(1),
            forall|j: int| 0 <= j < i && #[trigger] obj.seq()[j].0@ == "pitch"@ ==> pitch == sound_number_value(
                obj.seq()[j].1,
                Decimal::spec_from_int(1),
            ),
            (forall|j: int| 0 <= j < i ==> #[trigger] obj.seq()[j].0@ != "pitch"@) ==> pitch == Decimal::spec_from_int(1),
        decreases n - i,
    {
        proof {
            crate::strmap::lemma_sorted_value(obj.seq(), i as int);
            reveal_strlit("sound");
            reveal_strlit("pos");
            reveal_strlit("posititon");
            reveal_strlit("location");
            reveal_strlit("source");
            reveal_strlit("target");
            reveal_strlit("volume");
            reveal_strlit("pitch");
            reveal_strlit("minvolume");
            reveal_strlit("min_volume");
            assert("sound"@.len() == 5 && "sound"@[0] == 's' && "pos"@.len() == 3 && "pos"@[0] == 'p' && "posititon"@.len() == 9 && "posititon"@[0] == 'p' && "location"@.len() == 8 && "location"@[0] == 'l' && "source"@.len() == 6 && "source"@[0] == 's' && "target"@.len() == 6 && "target"@[0] == 't' && "volume"@.len() == 6 && "volume"@[0] == 'v' && "pitch"@.len() == 5 && "pitch"@[0] == 'p' && "minvolume"@.len() == 9 && "minvolume"@[0] == 'm' && "min_volume"@.len() == 10 && "min_volume"@[0] == 'm');
        }
        let k = obj.key_at(i).as_str();
        let v = obj.value_at(i);
        if str_eq(k, "sound") {
            match string_of(v) {
                Ok(s) => sound = Some(s),
                Err(_) => return Err(err_with("Expected a string or identifier for sound; got `", v, "`")),
            }
        } else if str_eq(k, "pos") || str_eq(k, "posititon") || str_eq(k, "location") {
            pos = coordinate_from(v)?;
        } else if str_eq(k, "source") {
            match string_of(v) {
                Ok(s) => source = s,
                Err(_) => return Err(err_with("Expected a string or identifier for sound source; got `", v, "`")),
            }
        } else if str_eq(k, "target") {
            let Syntax::Selector(sel) = v else {
                return Err(err_with("Expected a selector for sound target; got `", v, "`"));
            };
            target = sel;
        } else if str_eq(k, "volume") {
            volume = sound_number(v, "volume")?;
        } else if str_eq(k, "pitch") {
            pitch = sound_number(v, "pitch")?;
        } else if str_eq(k, "minvolume") || str_eq(k, "min_volume") {
            min_volume = sound_number(v, "min volume")?;
        } else {
            let mut msg = owned("Invalid key for Sound annotation: `");
            msg.append(k);
            msg.append("`");
            return Err(msg);
        }
        i = i + 1;
    }
    let Some(sound) = sound else {
        proof {
            if obj@.contains_key("sound"@) {
                obj.lemma_keys_listed();
                let j = choose|j: int| 0 <= j < obj.seq().len() && #[trigger] obj.seq()[j].0@ == "sound"@;
                assert(obj.seq()[j].0@ == "sound"@);
            }
        }
        return Err(owned("Sound annotation must specify the sound to play"));
    };
    proof {
        let m = *obj;
        m.lemma_keys_listed();
        assert forall|k: Seq<char>| #[trigger] m@.contains_key(k) implies sound_entry_shape(k, m@[k]) by {
            let j = choose|j: int| 0 <= j < m.seq().len() && #[trigger] m.seq()[j].0@ == k;
            crate::strmap::lemma_sorted_value(m.seq(), j);
            assert(sound_entry_shape(m.seq()[j].0@, m.seq()[j].1));
        }
        if m@.contains_key("target"@) {
            let j = choose|j: int| 0 <= j < m.seq().len() && #[trigger] m.seq()[j].0@ == "target"@;
            crate::strmap::lemma_sorted_value(m.seq(), j);
            assert(m@["target"@] == Syntax::Selector(*target));
        } else {
            assert forall|j: int| 0 <= j < n implies #[trigger] m.seq()[j].0@ != "target"@ by {
                crate::strmap::lemma_sorted_value(m.seq(), j);
            }
        }
        assert forall|k: Seq<char>| #[trigger] m@.contains_key(k) implies is_sound_property(k) by {
            let j = choose|j: int| 0 <= j < m.seq().len() && #[trigger] m.seq()[j].0@ == k;
            assert(is_sound_property(m.seq()[j].0@));
        }
        let j = choose|j: int| 0 <= j < n && #[trigger] m.seq()[j].0@ == "sound"@;
        crate::strmap::lemma_sorted_value(m.seq(), j);
        if m@.contains_key("source"@) {
            let j = choose|j: int| 0 <= j < m.seq().len() && #[trigger] m.seq()[j].0@ == "source"@;
            crate::strmap::lemma_sorted_value(m.seq(), j);
        } else {
            assert forall|j: int| 0 <= j < n implies #[trigger] m.seq()[j].0@ != "source"@ by {
                crate::strmap::lemma_sorted_value(m.seq(), j);
            }
        }
        if m@.contains_key("volume"@) {
            let j = choose|j: int| 0 <= j < m.seq().len() && #[trigger] m.seq()[j].0@ == "volume"@;
            crate::strmap::lemma_sorted_value(m.seq(), j);
        } else {
            assert forall|j: int| 0 <= j < n implies #[trigger] m.seq()[j].0@ != "volume"@ by {
                crate::strmap::lemma_sorted_value(m.seq(), j);
            }
        }
        if m@.contains_key("pitch"@) {
            let j = choose|j: int| 0 <= j < m.seq().len() && #[trigger] m.seq()[j].0@ == "pitch"@;
            crate::strmap::lemma_sorted_value(m.seq(), j);
        } else {
            assert forall|j: int| 0 <= j < n implies #[trigger] m.seq()[j].0@ != "pitch"@ by {
                crate::strmap::lemma_sorted_value(m.seq(), j);
            }
        }
    }
    let ghost target0 = *target;
    let target = stringify_selector(target)?;
    proof {
        assert(crate::interpreter::selector_block::rendered_as(target0, target));
        if obj@.contains_key("target"@) {
            obj.lemma_keys_listed();
            let j = choose|j: int| 0 <= j < obj.seq().len() && #[trigger] obj.seq()[j].0@ == "target"@;
            crate::strmap::lemma_sorted_value(obj.seq(), j);
        } else {
            assert forall|j: int| 0 <= j < n implies #[trigger] obj.seq()[j].0@ != "target"@ by {
                crate::strmap::lemma_sorted_value(obj.seq(), j);
            }
        }
        assert(crate::interpreter::selector_block::selector_renders(target0));
        reveal_strlit("sound");
        reveal_strlit("pos");
        reveal_strlit("posititon");
        reveal_strlit("location");
        reveal_strlit("source");
        reveal_strlit("target");
        assert("target"@ != "sound"@ && "target"@ != "source"@ && "target"@ != "pos"@ && "target"@ != "posititon"@ && "target"@ != "location"@) by {
            assert("target"@[0] != "sound"@[0] && "target"@[0] != "source"@[0] && "target"@[0] != "pos"@[0] && "target"@[0] != "posititon"@[0] && "target"@[0] != "location"@[0]);
        }
        assert forall|k: Seq<char>| #[trigger] obj@.contains_key(k) implies sound_entry_ok(k, obj@[k]) by {
            assert(sound_entry_shape(k, obj@[k]));
            if k == "target"@ {
                obj.lemma_keys_listed();
                let j = choose|j: int| 0 <= j < obj.seq().len() && #[trigger] obj.seq()[j].0@ == "target"@;
                crate::strmap::lemma_sorted_value(obj.seq(), j);
                assert(obj@["target"@] == Syntax::Selector(target0));
            }
        }
    }
    Ok(vec![Command::Sound { sound, source, target, pos, volume, pitch, min_volume }])
}

/// The commands a raycast property stands for: a function name to call, a named function
/// block (defined, then called), or commands.
fn interpret_fn<L: Loader>(
    buf: &mut VecCmd,
    value: &Syntax,
    state: &mut InterRepr,
    path: &str,
    loader: &mut L,
    config: &Config,
    depth: u32,
) -> (r: Result<(), String>)
    requires
        old(state).wf(),
        old(buf).wf(),
    ensures
        final(state).wf(),
        final(state).extends(*old(state)),
        final(buf).wf(),
        *value matches Syntax::String(f) ==> r is Ok && final(buf).base_v() == old(buf).base_v().push(
            crate::command::cmd_view(Command::Function(f)),
        ) && final(buf).base@.len() == old(buf).base@.len() + 1,
        *value matches Syntax::Block(t, name, body) ==> (t == BlockType::Function ==> (*name matches Syntax::Identifier(n) ==> (
        r is Ok ==> final(state).functions@.contains_key(n@) && final(buf).base_v() == old(buf).base_v().push(
            crate::command::cmd_view(Command::Function(n)),
        )) && (*body is Unit ==> r is Ok))),
        *value matches Syntax::Block(t, name, body) ==> (t == BlockType::Function ==> (*name matches Syntax::String(n) ==> (r is Ok
            ==> final(state).functions@.contains_key(n@) && final(buf).base_v() == old(buf).base_v().push(
            crate::command::cmd_view(Command::Function(n)),
        )) && (*body is Unit ==> r is Ok))),
        value is Identifier || value is Integer || value is Float || value is Range ==> r is Err,
    decreases depth, value, 2nat,
{
    match value {
        Syntax::String(s) => {
            buf.push(single_command(Command::Function(s.clone())));
            proof {
                assert(buf.base.deep_view().len() == buf.base@.len());
                assert(old(buf).base.deep_view().len() == old(buf).base@.len());
            }
            Ok(())
        },
        Syntax::Block(BlockType::Function, name, body) => {
            match &**name {
                Syntax::Identifier(n) | Syntax::String(n) => {
                    let new_body = inner_interpret(body, state, path, loader, config, depth)?;
                    state.insert_function(n.clone(), new_body);
                    let ghost mid = state.functions@;
                    buf.push(single_command(Command::Function(n.clone())));
                },
                _ => {
                    let cmds = inner_interpret(value, state, path, loader, config, depth)?;
                    buf.extend(cmds);
                },
            }
            Ok(())
        },
        other => {
            let cmds = inner_interpret(other, state, path, loader, config, depth)?;
            buf.extend(cmds);
            Ok(())
        },
    }
}

/// `@s` with no arguments.
pub open spec fn self_selector(sel: Selector<String>) -> bool {
    sel.selector_type == SelectorType::S && sel.args.seq().len() == 0
}

/// The commands of a raycast's marker function: face along the player's view, reset the
/// timer `score`, step until a hit (the function `loop_name`), run the callback there
/// (`callback`), and remove the marker.
pub open spec fn raycast_closure_cmds(r: Seq<Command>, callback: Command, score: Seq<char>, dummy: Seq<char>, loop_name: Seq<char>) -> bool {
    &&& r.len() == 5
    &&& r[0] matches Command::Raw(t) && t@ == "execute rotated as @p run tp @s ~ ~1.5 ~ ~ ~"@
    &&& r[1] matches Command::ScoreSet { target, objective, value } && target@ == score && objective@ == dummy && value == 0
    &&& r[2] matches Command::Execute { options, cmd } && options@.len() == 1 && (options@[0] matches ExecuteOption::At(sel)
        && self_selector(sel)) && (*cmd matches Command::Function(f) && f@ == loop_name)
    &&& r[3] == callback
    &&& r[4] matches Command::Kill(sel) && self_selector(sel)
}

/// The number a raycast setting gives: an integer or a decimal, else zero.
pub open spec fn raycast_number(v: Syntax) -> Decimal {
    match v {
        Syntax::Integer(n) => Decimal::spec_from_int(n),
        Syntax::Float(d) => d,
        _ => Decimal::spec_from_int(0),
    }
}

/// The step of a raycast: `step`, else `amount`, else zero.
pub open spec fn raycast_step(m: Map<Seq<char>, Syntax>) -> Decimal {
    if m.contains_key("step"@) {
        raycast_number(m["step"@])
    } else if m.contains_key("amount"@) {
        raycast_number(m["amount"@])
    } else {
        Decimal::spec_from_int(0)
    }
}

/// The most steps of a raycast: `max`, else zero.
pub open spec fn raycast_max(m: Map<Seq<char>, Syntax>) -> i32 {
    if m.contains_key("max"@) && m["max"@] is Integer {
        m["max"@]->Integer_0
    } else {
        0
    }
}

/// The last three commands of a raycast's loop function (given by their text): move the
/// marker `step` blocks forward, count the step in `score`, and run the loop again while
/// fewer than `max` steps were taken and the marker is in air.
pub open spec fn raycast_loop_tail(
    v: Seq<spec_fn(Seq<char>) -> Seq<char>>,
    step: Decimal,
    max: i32,
    score: Seq<char>,
    dummy: Seq<char>,
    loop_name: Seq<char>,
) -> bool {
    let n = v.len() - 3;
    &&& v.len() >= 3
    &&& exists|c: Command| #[trigger] cmd_view(c) == v[n] && (c matches Command::Teleport { target, destination } && self_selector(target)
        && destination == Coordinate::Angular(Decimal::spec_from_int(0), Decimal::spec_from_int(0), step))
    &&& exists|c: Command| #[trigger] cmd_view(c) == v[n + 1] && (c matches Command::ScoreAdd { target, objective, value }
        && target@ == score && objective@ == dummy && value == 1)
    &&& exists|c: Command| #[trigger] cmd_view(c) == v[n + 2] && (c matches Command::Execute { options, cmd } && options@.len() == 3
        && (options@[0] matches ExecuteOption::IfScoreMatches { invert, target, objective, lower, upper } && !invert && target@
        == score && objective@ == dummy && lower is None && upper == Some(max)) && (options@[1] matches ExecuteOption::At(sel)
        && self_selector(sel)) && (options@[2] matches ExecuteOption::IfBlock { invert, value, .. } && !invert && value@
        == "air"@) && (*cmd matches Command::Function(f) && f@ == loop_name))
}

/// The function a raycast runs from its marker: face along the player's view, reset the
/// timer, step until a hit, run the callback there, and remove the marker.
fn raycast_closure(callback: Command, score_name: &String, loop_name: &String, config: &Config) -> (r: Vec<Command>)
    ensures
        raycast_closure_cmds(r@, callback, score_name@, config.dummy_objective@, loop_name@),
{
    vec![
        Command::Raw(owned("execute rotated as @p run tp @s ~ ~1.5 ~ ~ ~")),
        Command::ScoreSet { target: score_name.clone(), objective: config.dummy_objective.clone(), value: 0 },
        Command::Execute { options: vec![ExecuteOption::At(Selector::s())], cmd: Box::new(Command::Function(loop_name.clone())) },
        callback,
        Command::Kill(Selector::s()),
    ]
}

/// The properties a raycast may have.
pub open spec fn is_raycast_property(k: Seq<char>) -> bool {
    k == "max"@ || k == "step"@ || k == "amount"@ || k == "callback"@ || k == "hit"@ || k == "each"@
}

/// The hexadecimal hash that names the functions a raycast generates.
pub open spec fn raycast_hash(properties: Syntax) -> Seq<char> {
    hex_text(default_hash(debug_text(properties)) as nat)
}

/// A raycast number setting of the right kind: an integer `max`, a number `step`.
pub open spec fn raycast_number_ok(k: Seq<char>, v: Syntax) -> bool {
    (k == "max"@ ==> v is Integer) && ((k == "step"@ || k == "amount"@) ==> (v is Integer || v is Float))
}

/// A raycast function setting given by the name of a function to call.
pub open spec fn raycast_fn_named(k: Seq<char>, v: Syntax) -> bool {
    (k == "callback"@ || k == "hit"@ || k == "each"@) ==> v is String
}

/// The call that a raycast function setting stands for (by its text in every namespace):
/// a function name, or a named function block (which is defined, then called).
pub open spec fn raycast_fn_view(v: Syntax) -> Option<spec_fn(Seq<char>) -> Seq<char>> {
    match v {
        Syntax::String(f) => Some(cmd_view(Command::Function(f))),
        Syntax::Block(BlockType::Function, name, _) => match *name {
            Syntax::Identifier(n) => Some(cmd_view(Command::Function(n))),
            Syntax::String(n) => Some(cmd_view(Command::Function(n))),
            _ => None,
        },
        _ => None,
    }
}

/// The call a raycast makes where it stops, when only one of `callback` and `hit` is
/// given and it names a function.
pub open spec fn raycast_hit_call(m: Map<Seq<char>, Syntax>) -> Option<spec_fn(Seq<char>) -> Seq<char>> {
    if m.contains_key("callback"@) && !m.contains_key("hit"@) {
        raycast_fn_view(m["callback"@])
    } else if m.contains_key("hit"@) && !m.contains_key("callback"@) {
        raycast_fn_view(m["hit"@])
    } else {
        None
    }
}

/// The commands a raycast runs at every step before moving on: none without `each`, the
/// call that `each` names where it names a function.
pub open spec fn raycast_each_calls(m: Map<Seq<char>, Syntax>) -> Option<Seq<spec_fn(Seq<char>) -> Seq<char>>> {
    if !m.contains_key("each"@) {
        Some(seq![])
    } else {
        match raycast_fn_view(m["each"@]) {
            Some(x) => Some(seq![x]),
            None => None,
        }
    }
}

/// A command whose text is that of a function call is no `execute` command.
proof fn lemma_call_is_not_execute(c: Command, f: String)
    requires
        cmd_view(c) == cmd_view(Command::Function(f)),
    ensures
        !(c is Execute),
{
    let ns = Seq::<char>::empty();
    assert(cmd_view(c)(ns) == cmd_view(Command::Function(f))(ns));
    reveal_strlit("execute ");
    reveal_strlit("function ");
    if let Command::Execute { options, cmd } = c {
        assert(c.spec_text(ns)[0] == 'e');
        assert(Command::Function(f).spec_text(ns)[0] == 'f');
    }
}

/// `@raycast {max: ..., step: ..., each: ..., hit: ...}`: a marker steps forward from the
/// player until it hits a block or has taken `max` steps, running `each` at every step and
/// `hit` at the end.
#[verifier::loop_isolation(false)]
#[verifier::spinoff_prover]
#[verifier::rlimit(60)]
fn raycast<L: Loader>(properties: &Syntax, state: &mut InterRepr, path: &str, loader: &mut L, config: &Config, depth: u32) -> (r:
    Result<VecCmd, String>)
    requires
        old(state).wf(),
    ensures
        final(state).wf(),
        final(state).extends(*old(state)),
        r matches Ok(v) ==> v.wf(),
        !(properties is Object) ==> r is Err,
        r is Ok ==> (*properties matches Syntax::Object(m) && (forall|k: Seq<char>| #[trigger] m@.contains_key(k)
            ==> is_raycast_property(k)) && (m@.contains_key("callback"@) || m@.contains_key("hit"@))),
        r matches Ok(v) ==> v.base@.len() == 1 && v.mods@.len() == 0 && (v.base@[0] matches Command::Execute { options, cmd }
            && options@.len() == 1 && (options@[0] matches ExecuteOption::Summon(e) && e@ == "marker"@) && (*cmd matches Command::Function(f)
            && f@ == "__internal__/"@ + raycast_hash(*properties))),
        r is Ok ==> final(state).functions@.contains_key("__internal__/"@ + raycast_hash(*properties))
            && final(state).functions@.contains_key("__internal__/loop_"@ + raycast_hash(*properties)),
        r is Ok ==> exists|cb: Command| #[trigger] raycast_closure_cmds(
            final(state).functions@["__internal__/"@ + raycast_hash(*properties)].base@,
            cb,
            "%__timer__"@ + raycast_hash(*properties),
            config.dummy_objective@,
            "__internal__/loop_"@ + raycast_hash(*properties),
        ),
        r is Ok ==> (*properties matches Syntax::Object(m) && raycast_loop_tail(
            final(state).functions@["__internal__/loop_"@ + raycast_hash(*properties)].base_v(),
            raycast_step(m@),
            raycast_max(m@),
            "%__timer__"@ + raycast_hash(*properties),
            config.dummy_objective@,
            "__internal__/loop_"@ + raycast_hash(*properties),
        )),
        r is Ok ==> (*properties matches Syntax::Object(m) && forall|k: Seq<char>| #[trigger] m@.contains_key(k) ==> raycast_number_ok(
            k,
            m@[k],
        )),
        r is Ok ==> (*properties matches Syntax::Object(m) && (raycast_hit_call(m@) matches Some(x) ==> (final(state).functions@[
            "__internal__/"@ + raycast_hash(*properties)].base@[3] matches Command::Execute { options, cmd } && options@.len() == 1
            && (forall|ns: Seq<char>| #[trigger] options@[0].spec_text(ns) == "at @s"@) && cmd_view(*cmd) == x))),
        r is Ok ==> (*properties matches Syntax::Object(m) && (raycast_each_calls(m@) matches Some(e) ==> final(state).functions@[
            "__internal__/loop_"@ + raycast_hash(*properties)].base_v().len() == e.len() + 3 && final(state).functions@[
            "__internal__/loop_"@ + raycast_hash(*properties)].base_v().subrange(0, e.len() as int) == e)),
        (*properties matches Syntax::Object(m) && (m@.contains_key("callback"@) || m@.contains_key("hit"@)) && forall|k: Seq<char>|
            #[trigger] m@.contains_key(k) ==> is_raycast_property(k) && raycast_number_ok(k, m@[k]) && raycast_fn_named(k, m@[k]))
            ==> r is Ok,
    decreases depth, properties, 3nat,
{
    let Syntax::Object(obj) = properties else {
        return Err(err_with("Raycast annotation expects an object, not ", properties, ""));
    };
    obj.facts();
    let mut max: i32 = 0;
    let mut step = Decimal::from_int(0);
    let mut callback = VecCmd::default();
    let mut each = VecCmd::default();
    let n = obj.len();
    let mut i: usize = 0;
    while i < n
        invariant
            state.wf(),
            state.extends(*old(state)),
            callback.wf(),
            each.wf(),
            n == obj.seq().len(),
            i <= n,
            forall|j: int| 0 <= j < i ==> is_raycast_property(#[trigger] obj.seq()[j].0@),
            callback.base@.len() > 0 ==> exists|j: int| 0 <= j < i && (#[trigger] obj.seq()[j].0@ == "callback"@ || obj.seq()[j].0@
                == "hit"@),
            forall|j: int| 0 <= j < i ==> raycast_number_ok(#[trigger] obj.seq()[j].0@, obj.seq()[j].1),
            (forall|j: int| 0 <= j < i ==> raycast_fn_named(#[trigger] obj.seq()[j].0@, obj.seq()[j].1)) ==> (forall|j: int|
                0 <= j < i && (#[trigger] obj.seq()[j].0@ == "callback"@ || obj.seq()[j].0@ == "hit"@) ==> callback.base@.len() > 0),
            keys_sorted(obj.seq()),
            forall|j: int| 0 <= j < i && #[trigger] obj.seq()[j].0@ == "max"@ ==> obj.seq()[j].1 == Syntax::Integer(max),
            (forall|j: int| 0 <= j < i ==> #[trigger] obj.seq()[j].0@ != "max"@) ==> max == 0,
            forall|j: int| 0 <= j < i && #[trigger] obj.seq()[j].0@ == "step"@ ==> step == raycast_number(obj.seq()[j].1),
            (forall|j: int| 0 <= j < i ==> #[trigger] obj.seq()[j].0@ != "step"@) ==> (forall|j: int| 0 <= j < i
                && #[trigger] obj.seq()[j].0@ == "amount"@ ==> step == raycast_number(obj.seq()[j].1)),
            (forall|j: int| 0 <= j < i ==> #[trigger] obj.seq()[j].0@ != "step"@ && obj.seq()[j].0@ != "amount"@) ==> step
                == Decimal::spec_from_int(0),
            (forall|j: int| 0 <= j < i ==> #[trigger] obj.seq()[j].0@ != "each"@) ==> each.base_v() == Seq::<
                spec_fn(Seq<char>) -> Seq<char>,
            >::empty(),
            forall|j: int| 0 <= j < i && #[trigger] obj.seq()[j].0@ == "each"@ ==> (raycast_fn_view(obj.seq()[j].1) matches Some(
                x,
            ) ==> each.base_v() == seq![x]),
            (forall|j: int| 0 <= j < i ==> #[trigger] obj.seq()[j].0@ != "callback"@ && obj.seq()[j].0@ != "hit"@) ==> callback.base_v()
                == Seq::<spec_fn(Seq<char>) -> Seq<char>>::empty(),
            !(obj@.contains_key("callback"@) && obj@.contains_key("hit"@)) ==> forall|j: int| 0 <= j < i && (
            #[trigger] obj.seq()[j].0@ == "callback"@ || obj.seq()[j].0@ == "hit"@) ==> (raycast_fn_view(obj.seq()[j].1) matches Some(
                x,
            ) ==> callback.base_v() == seq![x]),
            obj@ == crate::strmap::entries_map(obj.seq()),
        decreases n - i,
    {
        proof {
            crate::strmap::lemma_value_decreases(*obj, i as int);
            assert(decreases_to!(properties => *obj));
            crate::strmap::lemma_sorted_value(obj.seq(), i as int);
            reveal_strlit("step");
            reveal_strlit("amount");
            reveal_strlit("max");
            reveal_strlit("callback");
            reveal_strlit("hit");
            reveal_strlit("each");
            assert("step"@[0] != "max"@[0] && "step"@[0] != "callback"@[0] && "step"@[0] != "hit"@[0] && "step"@[0] != "each"@[0]
                && "step"@[0] != "amount"@[0]);
            assert("amount"@[0] != "max"@[0] && "amount"@[0] != "callback"@[0] && "amount"@[0] != "hit"@[0] && "amount"@[0]
                != "each"@[0]);
            assert("max"@[0] != "callback"@[0] && "max"@[0] != "hit"@[0] && "max"@[0] != "each"@[0]);
            assert(!crate::strmap::str_lt("step"@, "amount"@));
            if obj.seq()[i as int].0@ == "amount"@ {
                assert forall|j: int| 0 <= j < i implies #[trigger] obj.seq()[j].0@ != "step"@ by {
                    assert(crate::strmap::str_lt(obj.seq()[j].0@, obj.seq()[i as int].0@));
                }
            }
        }
        let k = obj.key_at(i).as_str();
        let v = obj.value_at(i);
        if str_eq(k, "max") {
            let Syntax::Integer(m) = v else {
                return Err(err_with("Expected integer for raycast max; got `", v, "`"));
            };
            max = *m;
        } else if str_eq(k, "step") || str_eq(k, "amount") {
            match v {
                Syntax::Integer(m) => step = Decimal::from_int(*m),
                Syntax::Float(float) => step = *float,
                _ => return Err(err_with("Expected number as raycast step size; got `", v, "`")),
            }
        } else if str_eq(k, "callback") || str_eq(k, "hit") {
            proof {
                if !(obj@.contains_key("callback"@) && obj@.contains_key("hit"@)) {
                    assert forall|j: int| 0 <= j < i implies #[trigger] obj.seq()[j].0@ != "callback"@ && obj.seq()[j].0@
                        != "hit"@ by {
                        crate::strmap::lemma_sorted_value(obj.seq(), j);
                    }
                }
            }
            interpret_fn(&mut callback, v, state, path, loader, config, depth)?;
        } else if str_eq(k, "each") {
            proof {
                assert forall|j: int| 0 <= j < i implies #[trigger] obj.seq()[j].0@ != "each"@ by {}
            }
            interpret_fn(&mut each, v, state, path, loader, config, depth)?;
        } else {
            let mut msg = owned("Invalid key for Raycast annotation: `");
            msg.append(k);
            msg.append("`");
            return Err(msg);
        }
        i = i + 1;
    }
    proof {
        obj.lemma_keys_listed();
        if forall|k: Seq<char>| #[trigger] obj@.contains_key(k) ==> raycast_fn_named(k, obj@[k]) {
            assert forall|j: int| 0 <= j < n implies raycast_fn_named(#[trigger] obj.seq()[j].0@, obj.seq()[j].1) by {
                crate::strmap::lemma_sorted_value(obj.seq(), j);
            }
            if obj@.contains_key("callback"@) {
                let j = choose|j: int| 0 <= j < obj.seq().len() && #[trigger] obj.seq()[j].0@ == "callback"@;
                assert(callback.base@.len() > 0);
            }
            if obj@.contains_key("hit"@) {
                let j = choose|j: int| 0 <= j < obj.seq().len() && #[trigger] obj.seq()[j].0@ == "hit"@;
                assert(callback.base@.len() > 0);
            }
        }
        assert forall|k: Seq<char>| #[trigger] obj@.contains_key(k) implies raycast_number_ok(k, obj@[k]) by {
            let j = choose|j: int| 0 <= j < obj.seq().len() && #[trigger] obj.seq()[j].0@ == k;
            crate::strmap::lemma_sorted_value(obj.seq(), j);
        }
    }
    proof {
        let m = obj@;
        if m.contains_key("step"@) {
            let j = choose|j: int| 0 <= j < obj.seq().len() && #[trigger] obj.seq()[j].0@ == "step"@;
            crate::strmap::lemma_sorted_value(obj.seq(), j);
        } else {
            assert forall|j: int| 0 <= j < n implies #[trigger] obj.seq()[j].0@ != "step"@ by {
                crate::strmap::lemma_sorted_value(obj.seq(), j);
            }
            if m.contains_key("amount"@) {
                let j = choose|j: int| 0 <= j < obj.seq().len() && #[trigger] obj.seq()[j].0@ == "amount"@;
                crate::strmap::lemma_sorted_value(obj.seq(), j);
            } else {
                assert forall|j: int| 0 <= j < n implies #[trigger] obj.seq()[j].0@ != "step"@ && obj.seq()[j].0@ != "amount"@ by {
                    crate::strmap::lemma_sorted_value(obj.seq(), j);
                }
            }
        }
        if m.contains_key("max"@) {
            let j = choose|j: int| 0 <= j < obj.seq().len() && #[trigger] obj.seq()[j].0@ == "max"@;
            crate::strmap::lemma_sorted_value(obj.seq(), j);
        } else {
            assert forall|j: int| 0 <= j < n implies #[trigger] obj.seq()[j].0@ != "max"@ by {
                crate::strmap::lemma_sorted_value(obj.seq(), j);
            }
        }
        assert(step == raycast_step(m));
        assert(max == raycast_max(m));
    }
    proof {
        let m = obj@;
        if m.contains_key("each"@) {
            let j = choose|j: int| 0 <= j < obj.seq().len() && #[trigger] obj.seq()[j].0@ == "each"@;
            crate::strmap::lemma_sorted_value(obj.seq(), j);
        } else {
            assert forall|j: int| 0 <= j < n implies #[trigger] obj.seq()[j].0@ != "each"@ by {
                crate::strmap::lemma_sorted_value(obj.seq(), j);
            }
        }
        if m.contains_key("callback"@) && !m.contains_key("hit"@) {
            let j = choose|j: int| 0 <= j < obj.seq().len() && #[trigger] obj.seq()[j].0@ == "callback"@;
            crate::strmap::lemma_sorted_value(obj.seq(), j);
        }
        if m.contains_key("hit"@) && !m.contains_key("callback"@) {
            let j = choose|j: int| 0 <= j < obj.seq().len() && #[trigger] obj.seq()[j].0@ == "hit"@;
            crate::strmap::lemma_sorted_value(obj.seq(), j);
        }
        assert(raycast_each_calls(m) matches Some(e) ==> each.base_v() == e);
        assert(raycast_hit_call(m) matches Some(x) ==> callback.base_v() == seq![x]);
    }
    let ghost hit_call = raycast_hit_call(obj@);
    let ghost each_calls = raycast_each_calls(obj@);
    if callback.is_empty() {
        return Err(owned("Raycast requires a hit/callback function"));
    }
    proof {
        obj.lemma_keys_listed();
        assert forall|k: Seq<char>| #[trigger] obj@.contains_key(k) implies is_raycast_property(k) by {
            let j = choose|j: int| 0 <= j < obj.seq().len() && #[trigger] obj.seq()[j].0@ == k;
            assert(is_raycast_property(obj.seq()[j].0@));
        }
        let j = choose|j: int| 0 <= j < n && (#[trigger] obj.seq()[j].0@ == "callback"@ || obj.seq()[j].0@ == "hit"@);
        crate::strmap::lemma_sorted_value(obj.seq(), j);
    }
    let hash = crate::interpreter::hashed_name("", properties);
    let mut score_name = owned("%__timer__");
    score_name.append(hash.as_str());
    let mut closure_name = owned("__internal__/");
    closure_name.append(hash.as_str());
    let mut loop_name = owned("__internal__/loop_");
    loop_name.append(hash.as_str());
    let mut callback_name = owned("__internal__/callback_");
    callback_name.append(hash.as_str());
    proof {
        reveal_strlit("");
        assert(""@ + raycast_hash(*properties) =~= raycast_hash(*properties));
        assert(hash@ == raycast_hash(*properties));
        assert(closure_name@ == "__internal__/"@ + raycast_hash(*properties));
        assert(loop_name@ == "__internal__/loop_"@ + raycast_hash(*properties));
    }
    let at_self = vec![ExecuteOption::At(Selector::s())];
    let ghost cbase = callback.base@;
    proof {
        assert(callback.base.deep_view().len() == cbase.len());
        if hit_call is Some {
            let x = hit_call->0;
            assert(callback.base.deep_view()[0] == x);
            assert(cmd_view(cbase[0]) == x);
            let hv = if obj@.contains_key("callback"@) { obj@["callback"@] } else { obj@["hit"@] };
            assert(raycast_fn_view(hv) == Some(x));
            match hv {
                Syntax::String(f) => lemma_call_is_not_execute(cbase[0], f),
                Syntax::Block(_, name, _) => match *name {
                    Syntax::Identifier(nm) => lemma_call_is_not_execute(cbase[0], nm),
                    Syntax::String(nm) => lemma_call_is_not_execute(cbase[0], nm),
                    _ => {},
                },
                _ => {},
            }
            assert(!(cbase[0] is Execute));
        }
    }
    let called = Command::execute(&at_self, callback, callback_name.as_str(), state);
    proof {
        if hit_call is Some {
            let x = hit_call->0;
            assert(crate::repr::executed_shape(at_self@, cbase, callback_name@, called.base));
            assert(cbase.len() == 1);
            assert(called.base matches Command::Execute { options, cmd } && options@.len() == 1 && *cmd == cbase[0]);
            let o0 = called.base->options@[0];
            assert(o0.same_as(at_self@[0]));
            reveal_strlit("at @s");
            reveal_strlit("at ");
            assert forall|ns: Seq<char>| #[trigger] o0.spec_text(ns) == "at @s"@ by {
                assert(at_self@[0].spec_text(ns) =~= "at @s"@);
            }
        }
    }
    // wrap every version of the callback call in the marker's steps
    let Versioned { base, mods } = called;
    let ghost m0 = mods@;
    let ghost cb = base;
    let closure_base = raycast_closure(base, &score_name, &loop_name, config);
    let mut rev: Vec<(u8, Vec<Command>)> = Vec::new();
    let mut mods = mods;
    let total = mods.len();
    while mods.len() > 0
        invariant
            mods@ == m0.subrange(0, mods@.len() as int),
            total == m0.len(),
            rev@.len() == total - mods@.len(),
            forall|j: int| 0 <= j < rev@.len() ==> (#[trigger] rev@[j]).0 == m0[total - 1 - j].0,
        decreases mods.len(),
    {
        let (v, c) = mods.pop().unwrap();
        rev.push((v, raycast_closure(c, &score_name, &loop_name, config)));
    }
    let mut closure_mods: Vec<(u8, Vec<Command>)> = Vec::new();
    while rev.len() > 0
        invariant
            rev@.len() + closure_mods@.len() == total,
            total == m0.len(),
            forall|j: int| 0 <= j < rev@.len() ==> (#[trigger] rev@[j]).0 == m0[total - 1 - j].0,
            forall|j: int| 0 <= j < closure_mods@.len() ==> (#[trigger] closure_mods@[j]).0 == m0[j].0,
        decreases rev.len(),
    {
        let x = rev.pop().unwrap();
        closure_mods.push(x);
    }
    let closure_fn = Versioned { base: closure_base, mods: closure_mods };
    proof {
        assert forall|a: int, b: int| 0 <= a < b < closure_fn.mods@.len() implies #[trigger] closure_fn.mods@[a].0
            < #[trigger] closure_fn.mods@[b].0 by {
            assert(m0[a].0 < m0[b].0);
        }
    }
    let ghost closure0 = closure_fn;
    state.insert_function(closure_name.clone(), closure_fn);
    let ghost score0 = score_name@;
    let dummy = config.dummy_objective.clone();
    let steps = vec![
        Command::Teleport {
            target: Selector::s(),
            destination: Coordinate::Angular(Decimal::from_int(0), Decimal::from_int(0), step),
        },
        Command::ScoreAdd { target: score_name.clone(), objective: dummy.clone(), value: 1 },
        Command::Execute {
            options: vec![
                ExecuteOption::IfScoreMatches { invert: false, target: score_name, objective: dummy, lower: None, upper: Some(max) },
                ExecuteOption::At(Selector::s()),
                ExecuteOption::IfBlock { invert: false, pos: Coordinate::here(), value: owned("air") },
            ],
            cmd: Box::new(Command::Function(loop_name.clone())),
        },
    ];
    let ghost ev = each.base_v();
    let ghost sv = steps@;
    let steps_v = single(steps);
    proof {
        assert(steps_v.base_v().len() == 3);
        assert(steps_v.base_v()[0] == cmd_view(sv[0]));
        assert(steps_v.base_v()[1] == cmd_view(sv[1]));
        assert(steps_v.base_v()[2] == cmd_view(sv[2]));
    }
    each.extend(steps_v);
    let ghost loop0 = loop_name@;
    let ghost cn = closure_name@;
    state.insert_function(loop_name, each);
    proof {
        reveal_strlit("__internal__/");
        reveal_strlit("__internal__/loop_");
        assert(cn.len() != loop0.len());
        assert(state.functions@[cn] == closure0);
        assert(raycast_closure_cmds(state.functions@[cn].base@, cb, score0, config.dummy_objective@, loop0));
        let v = state.functions@[loop0].base_v();
        assert(v == ev + steps_v.base_v());
        let n = v.len() - 3;
        assert(v[n] == cmd_view(sv[0]));
        assert(v[n + 1] == cmd_view(sv[1]));
        assert(v[n + 2] == cmd_view(sv[2]));
        assert(raycast_loop_tail(v, step, max, score0, config.dummy_objective@, loop0));
        if each_calls is Some {
            assert(v.subrange(0, (each_calls->0).len() as int) =~= each_calls->0);
        }
    }
    let summon = vec![ExecuteOption::Summon(owned("marker"))];
    let run = Command::Execute { options: summon, cmd: Box::new(Command::Function(closure_name)) };
    let out = vec![run];
    assert(out@ =~= seq![run]);
    Ok(single(out))
}

/// The bounds of a random value: `n` or `..n` is `0..n`, `a..b` is itself.
pub open spec fn random_bounds(bound: Syntax) -> Option<(i32, i32)> {
    match bound {
        Syntax::Integer(max) => Some((0, max)),
        Syntax::Range(None, Some(max)) => Some((0, max)),
        Syntax::Range(Some(min), Some(max)) => Some((min, max)),
        _ => None,
    }
}

/// `x = @random bound`: a random value between the bounds, stored in `lhs`. Before version
/// 16 of the pack format it is drawn with a loot table of that many stones (which is added
/// to the state); from 16 on with `random value`.
pub fn random(lhs: &DataLocation, bound: &Syntax, state: &mut InterRepr, config: &Config) -> (r: Result<VecCmd, String>)
    requires
        old(state).wf(),
    ensures
        final(state).wf(),
        final(state).extends(*old(state)),
        final(state).objectives@ == old(state).objectives@,
        r matches Ok(v) ==> v.wf(),
        random_bounds(*bound) is None ==> r is Err,
        random_bounds(*bound) is Some && (lhs is Ident || lhs is Colon) ==> r is Ok,
        random_bounds(*bound) matches Some((lo, hi)) ==> (r is Ok ==> final(state).loot_tables@.contains_key(
            "rng/"@ + int_text(lo as int) + "_"@ + int_text(hi as int),
        )),
        crate::interpreter::operation::variable_holder(*lhs) matches Some(t) ==> (random_bounds(*bound) matches Some((lo, hi))
            ==> (r matches Ok(v) && v.base@.len() == 1 && forall|ns: Seq<char>| #[trigger] v.base@[0].spec_text(ns)
            == "execute "@ + "store "@ + "result"@ + " score "@ + t + " "@
            + crate::interpreter::operation::location_objective(*lhs, config.dummy_objective@)->0 + " "@ + "run "@
            + replace_all("loot spawn 0 -256 0 loot <NAMESPACE>:"@ + "rng/"@ + int_text(lo as int) + "_"@ + int_text(hi as int), "<NAMESPACE>"@, ns))),
{
    let (min, max): (i32, i32) = match bound {
        Syntax::Integer(max) => (0, *max),
        Syntax::Range(None, Some(max)) => (0, *max),
        Syntax::Range(Some(min), Some(max)) => (*min, *max),
        _ => {
            return Err(err_with(
                "`@random` in statement form takes an integer or bounded range; got `",
                bound,
                "`",
            ));
        },
    };
    let mut range = String::new();
    push_int(&mut range, min as i64);
    range.append("_");
    push_int(&mut range, max as i64);
    let mut table_name = owned("rng/");
    table_name.append(range.as_str());
    if !state.loot_tables.contains_key(table_name.as_str()) {
        let mut rolls = StrMap::new();
        rolls.insert(owned("min"), Nbt::Integer(min));
        rolls.insert(owned("max"), Nbt::Integer(max));
        let mut entry = StrMap::new();
        entry.insert(owned("type"), Nbt::String(owned("item")));
        entry.insert(owned("weight"), Nbt::Integer(1));
        entry.insert(owned("name"), Nbt::String(owned("minecraft:stone")));
        let mut pool = StrMap::new();
        pool.insert(owned("rolls"), Nbt::Object(rolls));
        pool.insert(owned("entries"), Nbt::Array(vec![Nbt::Object(entry)]));
        let mut table = StrMap::new();
        table.insert(owned("pools"), Nbt::Array(vec![Nbt::Object(pool)]));
        state.loot_tables.insert(table_name.clone(), Nbt::Object(table).to_json());
    }
    assert(table_name@ =~= "rng/"@ + int_text(min as int) + "_"@ + int_text(max as int));
    assert(state.loot_tables@.contains_key(table_name@));
    let mut loot = owned("loot spawn 0 -256 0 loot <NAMESPACE>:");
    loot.append(table_name.as_str());
    let mut value = owned("random value ");
    push_int(&mut value, min as i64);
    value.append("..");
    push_int(&mut value, max as i64);
    let ghost loot_text = loot@;
    assert(loot_text =~= "loot spawn 0 -256 0 loot <NAMESPACE>:"@ + "rng/"@ + int_text(min as int) + "_"@ + int_text(max as int));
    let mut rng_cmd = Versioned::from(Command::Raw(loot));
    rng_cmd.add_version(16, Command::Raw(value));
    let target = lhs.stringify_scoreboard_target()?;
    let objective = lhs.stringify_scoreboard_objective(config)?;
    let store = ExecuteOption::StoreScore { target, objective, is_success: false };
    let ghost opt = store;
    let options = vec![store];
    assert(options@ =~= seq![opt]);
    let cmds = rng_cmd.into_vec();
    let ghost cb = cmds.base@;
    let r = Command::execute(&options, cmds, "", state);
    proof {
        assert forall|ns: Seq<char>| #[trigger] r.base.spec_text(ns) == crate::repr::run_text(
            opt.spec_text(ns) + " "@,
            true,
            cb,
            ""@,
            ns,
        ) by {
            crate::repr::lemma_one_option(opt, ns);
        }
        assert(cb.len() == 1);
        assert(cb[0] matches Command::Raw(l) && l@ == loot_text);
        assert forall|ns: Seq<char>| #[trigger] r.base.spec_text(ns) == "execute "@ + "store "@ + "result"@ + " score "@
            + opt->StoreScore_target@ + " "@ + opt->StoreScore_objective@ + " "@ + "run "@ + replace_all(loot_text, "<NAMESPACE>"@, ns) by {
            assert(opt.spec_text(ns) + " "@ =~= "store "@ + "result"@ + " score "@ + opt->StoreScore_target@ + " "@ + opt->StoreScore_objective@ + " "@);
            assert(r.base.spec_text(ns) =~= "execute "@ + "store "@ + "result"@ + " score "@
            + opt->StoreScore_target@ + " "@ + opt->StoreScore_objective@ + " "@ + "run "@ + replace_all(loot_text, "<NAMESPACE>"@, ns));
        }
    }
    Ok(r.into_vec())
}

} // verus!
