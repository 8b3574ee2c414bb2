//! The `@item` annotation: custom items with use and consume functions, slot checks and
//! recipes.
use vstd::prelude::*;
use crate::command::Command;
use crate::convert::{nbt_convertible, nbt_from_syntax, nbt_from_syntax_loose, nbt_of, push_debug, spec_string_of, string_of};
use crate::interpreter::{err_with, inner_interpret, interpreted, plain_statement, Loader};
use crate::interpreter::operation::single_command;
use crate::lexer::parse_digits;
use crate::nbt::Nbt;
use crate::repr::{Config, InterRepr, Item, VecCmd};
use crate::strmap::{keys_sorted, StrMap};
use crate::syntax::{BlockType, Syntax};
use crate::text::{chars_of, owned, str_eq};

verus! {

/// The text of the named group `group` in the first match of the regular expression
/// `pattern` in `text`, if the pattern is valid and matches and the group took part.
pub uninterp spec fn regex_group(pattern: Seq<char>, text: Seq<char>, group: Seq<char>) -> Option<Seq<char>>;

/// Matches `pattern` against `text` with lazy_regex's `Regex` (the `regex` crate's
/// `Regex::new`, `Regex::captures`, `Captures::name`) and gives the text of the group
/// named `group`.
///
/// The contract names the result, which is a function of the three arguments.
#[verifier::external_body]
fn capture_group(pattern: &str, text: &str, group: &str) -> (r: Option<String>)
    ensures
        r matches Some(s) ==> regex_group(pattern@, text@, group@) == Some(s@),
        r is None ==> regex_group(pattern@, text@, group@) is None,
{
    let re = lazy_regex::Regex::new(pattern).ok()?;
    let caps = re.captures(text)?;
    caps.name(group).map(|m| m.as_str().to_string())
}

/// The number of a named equipment slot.
pub open spec fn named_slot(k: Seq<char>) -> Option<i8> {
    if k == "offhand"@ {
        Some(-106i8)
    } else if k == "head"@ {
        Some(103i8)
    } else if k == "chest"@ {
        Some(102i8)
    } else if k == "legs"@ {
        Some(101i8)
    } else if k == "feet"@ {
        Some(100i8)
    } else {
        None
    }
}

/// The slot number that digits stand for, where they fit in an `i8`.
pub open spec fn slot_digits_value(d: Seq<char>) -> Option<int> {
    match crate::lexer::digits_value(d) {
        Some(v) => if v <= 127 { Some(v) } else { None },
        None => None,
    }
}

/// The slot number a slot name stands for: the digits of `slot_<n>`, else those of
/// `hotbar_<0-8>`, where they fit in an `i8`; else a named equipment slot.
pub open spec fn slot_of(k: Seq<char>) -> Option<i8> {
    match regex_group("^slot_(?P<slot>[0-9]+)$"@, k, "slot"@) {
        Some(d) => match slot_digits_value(d) {
            Some(v) => Some(v as i8),
            None => None,
        },
        None => match regex_group("^hotbar_(?P<slot>[0-8])$"@, k, "slot"@) {
            Some(d) => match slot_digits_value(d) {
                Some(v) => Some(v as i8),
                None => None,
            },
            None => named_slot(k),
        },
    }
}

/// The slot name `k` stands for a slot, and that slot is `n`.
pub open spec fn slot_is(k: Seq<char>, n: i8) -> bool {
    slot_of(k) == Some(n)
}

/// The slot number a slot name stands for: `slot_<n>` and `hotbar_<0-8>` by their number,
/// and the named equipment slots.
pub fn slot_number(k: &str) -> (r: Result<i8, String>)
    ensures
        r is Ok <==> slot_of(k@) is Some,
        r matches Ok(n) ==> slot_is(k@, n),
        regex_group("^slot_(?P<slot>[0-9]+)$"@, k@, "slot"@) is None && regex_group("^hotbar_(?P<slot>[0-8])$"@, k@, "slot"@)
            is None ==> (r is Ok <==> named_slot(k@) is Some) && (r matches Ok(n) ==> named_slot(k@) == Some(n)),
        regex_group("^slot_(?P<slot>[0-9]+)$"@, k@, "slot"@) matches Some(d) ==> (r is Ok <==> slot_digits_value(d) is Some)
            && (r matches Ok(n) ==> slot_digits_value(d) == Some(n as int)),
        regex_group("^slot_(?P<slot>[0-9]+)$"@, k@, "slot"@) is None ==> (regex_group("^hotbar_(?P<slot>[0-8])$"@, k@, "slot"@)
            matches Some(d) ==> (r is Ok <==> slot_digits_value(d) is Some) && (r matches Ok(n) ==> slot_digits_value(d)
            == Some(n as int))),
{
    let slot_digits = capture_group("^slot_(?P<slot>[0-9]+)$", k, "slot");
    let hotbar_digits = capture_group("^hotbar_(?P<slot>[0-8])$", k, "slot");
    slot_from_digits(k, slot_digits, hotbar_digits)
}

/// The slot number of slot name `k`, given the digits that the `slot_<n>` and
/// `hotbar_<0-8>` patterns captured in it: the first of them that matched, read as a
/// number that fits in an `i8`; else the named equipment slot; else an error.
pub fn slot_from_digits(k: &str, slot_digits: Option<String>, hotbar_digits: Option<String>) -> (r: Result<i8, String>)
    ensures
        slot_digits matches Some(d) ==> (r is Ok <==> slot_digits_value(d@) is Some) && (r matches Ok(n)
            ==> slot_digits_value(d@) == Some(n as int)),
        slot_digits is None ==> (hotbar_digits matches Some(d) ==> (r is Ok <==> slot_digits_value(d@) is Some) && (r matches Ok(
            n,
        ) ==> slot_digits_value(d@) == Some(n as int))),
        slot_digits is None && hotbar_digits is None ==> (r is Ok <==> named_slot(k@) is Some) && (r matches Ok(n)
            ==> named_slot(k@) == Some(n)),
{
    if let Some(digits) = slot_digits {
        return digits_i8(digits.as_str(), k);
    }
    if let Some(digits) = hotbar_digits {
        return digits_i8(digits.as_str(), k);
    }
    if str_eq(k, "offhand") {
        Ok(-106)
    } else if str_eq(k, "head") {
        Ok(103)
    } else if str_eq(k, "chest") {
        Ok(102)
    } else if str_eq(k, "legs") {
        Ok(101)
    } else if str_eq(k, "feet") {
        Ok(100)
    } else {
        let mut msg = owned("Unexpected slot: `");
        msg.append(k);
        msg.append("`");
        Err(msg)
    }
}

/// A slot number from its digits, as `str::parse::<i8>` reads them.
#[verifier::loop_isolation(false)]
fn digits_i8(digits: &str, k: &str) -> (r: Result<i8, String>)
    ensures
        r is Ok <==> slot_digits_value(digits@) is Some,
        r matches Ok(n) ==> slot_digits_value(digits@) == Some(n as int),
{
    let cs = chars_of(digits);
    match parse_digits(cs.as_slice()) {
        Some(n) if n <= 127 => Ok(n as i8),
        Some(_) => Err(slot_error(k, "number too large to fit in target type")),
        None => {
            if cs.len() == 0 {
                Err(slot_error(k, "cannot parse integer from empty string"))
            } else {
                let mut all_digits = true;
                let mut i: usize = 0;
                while i < cs.len()
                    invariant
                        i <= cs@.len(),
                    decreases cs.len() - i,
                {
                    if !('0' <= cs[i] && cs[i] <= '9') {
                        all_digits = false;
                    }
                    i = i + 1;
                }
                if all_digits {
                    Err(slot_error(k, "number too large to fit in target type"))
                } else {
                    Err(slot_error(k, "invalid digit found in string"))
                }
            }
        },
    }
}

fn slot_error(k: &str, err: &str) -> (r: String)
    ensures
        r@ == "While checking if item is in "@ + k@ + ": "@ + err@,
{
    let mut msg = owned("While checking if item is in ");
    msg.append(k);
    msg.append(": ");
    msg.append(err);
    msg
}

/// An item event given as a call: a function's name, or a function block with a name.
pub open spec fn event_is_call(v: Syntax) -> bool {
    v is String || (v matches Syntax::Block(t, name, _) && t == BlockType::Function && (*name is Identifier || *name is String))
}

/// `buf` holds the commands `c` holds, in the base and at every version.
pub open spec fn same_commands(buf: VecCmd, c: VecCmd) -> bool {
    buf.base_v() == c.base_v() && forall|ver: u8| #[trigger] crate::versioning::value_at(buf.base_v(), buf.mods_v(), ver)
        == crate::versioning::value_at(c.base_v(), c.mods_v(), ver)
}

/// `buf` holds the commands that the statements `value` are interpreted as.
pub open spec fn event_body(buf: VecCmd, value: Syntax, dummy: Seq<char>, acc: int) -> bool {
    exists|c: VecCmd| #[trigger] interpreted(value, dummy, acc, c) && same_commands(buf, c)
}

/// The commands an item event property stands for: a function name to call, a named
/// function block (defined, then called), or commands.
fn event_commands<L: Loader>(
    buf: &mut VecCmd,
    value: &Syntax,
    state: &mut InterRepr,
    path: &str,
    loader: &mut L,
    config: &Config,
    depth: u32,
) -> (r: Result<(), String>)
    requires
        old(state).wf(),
        old(buf).wf(),
    ensures
        final(state).wf(),
        final(state).extends(*old(state)),
        final(buf).wf(),
        *value matches Syntax::String(f) ==> r is Ok && final(buf).base_v() == old(buf).base_v().push(
            crate::command::cmd_view(Command::Function(f)),
        ) && final(buf).base@.len() == old(buf).base@.len() + 1,
        *value matches Syntax::Block(t, name, body) ==> (t == BlockType::Function ==> (*name matches Syntax::Identifier(n) ==> (
        r is Ok ==> final(state).functions@.contains_key(n@) && final(buf).base_v() == old(buf).base_v().push(
            crate::command::cmd_view(Command::Function(n)),
        )) && (*body is Unit ==> r is Ok))),
        *value matches Syntax::Block(t, name, body) ==> (t == BlockType::Function ==> (*name matches Syntax::String(n) ==> (r is Ok
            ==> final(state).functions@.contains_key(n@) && final(buf).base_v() == old(buf).base_v().push(
            crate::command::cmd_view(Command::Function(n)),
        )) && (*body is Unit ==> r is Ok))),
        value is Identifier || value is Integer || value is Float || value is Range ==> r is Err,
        old(buf).base@.len() == 0 && old(buf).mods@.len() == 0 && !event_is_call(*value) ==> (r is Ok ==> event_body(
            *final(buf),
            *value,
            config.dummy_objective@,
            config.fixed_point_accuracy as int,
        )),
        plain_statement(*value, config.fixed_point_accuracy as int) ==> r is Ok,
    decreases depth, value, 2nat,
{
    match value {
        Syntax::String(s) => {
            buf.push(single_command(Command::Function(s.clone())));
            proof {
                assert(buf.base.deep_view().len() == buf.base@.len());
                assert(old(buf).base.deep_view().len() == old(buf).base@.len());
            }
            Ok(())
        },
        Syntax::Block(BlockType::Function, name, body) => {
            match &**name {
                Syntax::Identifier(n) | Syntax::String(n) => {
                    let new_body = inner_interpret(body, state, path, loader, config, depth)?;
                    state.insert_function(n.clone(), new_body);
                    buf.push(single_command(Command::Function(n.clone())));
                },
                _ => {
                    let cmds = inner_interpret(value, state, path, loader, config, depth)?;
                    let ghost b0 = *buf;
                    buf.extend(cmds);
                    proof {
                        if b0.base@.len() == 0 && b0.mods@.len() == 0 {
                            lemma_extend_empty(b0, *buf, cmds);
                        }
                    }
                },
            }
            Ok(())
        },
        other => {
            let cmds = inner_interpret(other, state, path, loader, config, depth)?;
            let ghost b0 = *buf;
            buf.extend(cmds);
            proof {
                if b0.base@.len() == 0 && b0.mods@.len() == 0 {
                    lemma_extend_empty(b0, *buf, cmds);
                }
            }
            Ok(())
        },
    }
}

/// Extending an empty command list by `c` leaves the commands of `c`.
proof fn lemma_extend_empty(b0: VecCmd, b: VecCmd, c: VecCmd)
    requires
        b0.base@.len() == 0,
        b0.mods@.len() == 0,
        b.base_v() == b0.base_v() + c.base_v(),
        forall|v: u8| #[trigger] crate::versioning::value_at(b.base_v(), b.mods_v(), v) == crate::versioning::value_at(
            b0.base_v(),
            b0.mods_v(),
            v,
        ) + crate::versioning::value_at(c.base_v(), c.mods_v(), v),
    ensures
        same_commands(b, c),
{
    assert(b0.base.deep_view().len() == b0.base@.len());
    assert(b0.base_v() =~= Seq::empty());
    assert(b0.mods_v().len() == 0);
    assert(b.base_v() =~= c.base_v());
    assert forall|v: u8| #[trigger] crate::versioning::value_at(b.base_v(), b.mods_v(), v) == crate::versioning::value_at(
        c.base_v(),
        c.mods_v(),
        v,
    ) by {
        assert(crate::versioning::value_at(b0.base_v(), b0.mods_v(), v) == b0.base_v());
        assert(crate::versioning::value_at(b.base_v(), b.mods_v(), v) =~= crate::versioning::value_at(c.base_v(), c.mods_v(), v));
    }
}

/// `{key: value}` as NBT.
fn object1(key: &str, value: Nbt) -> (r: Nbt)
    ensures
        r matches Nbt::Object(m) && m@ == Map::<Seq<char>, Nbt>::empty().insert(key@, value),
{
    let mut m = StrMap::new();
    m.insert(owned(key), value);
    Nbt::Object(m)
}

/// `{item: "minecraft:knowledge_book", count: 1}`.
pub open spec fn knowledge_book_nbt(r: Nbt) -> bool {
    r matches Nbt::Object(m) && m@.dom() == set!["item"@, "count"@] && m@["count"@] == Nbt::Integer(1) && (m@["item"@] matches Nbt::String(
        t,
    ) && t@ == "minecraft:knowledge_book"@)
}

/// `{item: <the item v names>}`, the entry of a recipe key.
pub open spec fn item_entry(n: Nbt, v: Syntax) -> bool {
    n matches Nbt::Object(e) && e@.dom() == set!["item"@] && (e@["item"@] matches Nbt::String(s) && Some(s@) == spec_string_of(v))
}

/// The key of a shaped recipe: each symbol of the source key mapped to the item it names.
pub open spec fn recipe_key_of(km: StrMap<Syntax>, nk: StrMap<Nbt>) -> bool {
    nk@.dom() == km@.dom() && forall|k: Seq<char>| #[trigger] km@.contains_key(k) ==> item_entry(nk@[k], km@[k])
}

/// `{item: "minecraft:knowledge_book", count: 1}`, what every recipe crafts.
fn knowledge_book() -> (r: Nbt)
    ensures
        knowledge_book_nbt(r),
{
    proof {
        reveal_strlit("item");
        reveal_strlit("count");
        assert("item"@[0] != "count"@[0]);
    }
    let mut m = StrMap::new();
    m.insert(owned("item"), Nbt::String(owned("minecraft:knowledge_book")));
    m.insert(owned("count"), Nbt::Integer(1));
    Nbt::Object(m)
}

/// The item an ingredient names, `{item: <name>}`.
fn ingredient(syn: &Syntax, what: &str) -> (r: Result<Nbt, String>)
    ensures
        r is Ok == (syn is String || syn is Identifier),
        r matches Ok(n) ==> item_entry(n, *syn),
{
    match syn {
        Syntax::String(id) | Syntax::Identifier(id) => Ok(object1("item", Nbt::String(id.clone()))),
        _ => Err(err_with(what, syn, "`")),
    }
}

/// An element of a shapeless recipe: an item name, or a list of alternatives.
pub open spec fn shapeless_element_ok(s: Syntax) -> bool {
    match s {
        Syntax::String(_) | Syntax::Identifier(_) => true,
        Syntax::Array(alts) => forall|j: int| 0 <= j < alts@.len() ==> (#[trigger] alts@[j] is String || alts@[j] is Identifier),
        _ => false,
    }
}

/// `n` is the NBT of the shapeless recipe element `s`: the item entry of a name, or the list
/// of the entries of its alternatives.
pub open spec fn shapeless_entry(n: Nbt, s: Syntax) -> bool {
    match s {
        Syntax::Array(alts) => n matches Nbt::Array(v) && v@.len() == alts@.len() && forall|j: int| 0 <= j < alts@.len() ==> item_entry(
            #[trigger] v@[j],
            alts@[j],
        ),
        _ => item_entry(n, s),
    }
}

/// The ingredients of a shapeless recipe, element by element.
pub open spec fn shapeless_ingredients(arr: Seq<Syntax>, v: Seq<Nbt>) -> bool {
    v.len() == arr.len() && forall|i: int| 0 <= i < arr.len() ==> shapeless_entry(#[trigger] v[i], arr[i])
}

/// The `type` string of a recipe file's NBT, if it has one.
pub open spec fn recipe_type(n: Nbt) -> Option<Seq<char>> {
    match n {
        Nbt::Object(o) => if o@.contains_key("type"@) {
            match o@["type"@] {
                Nbt::String(t) => Some(t@),
                _ => None,
            }
        } else {
            None
        },
        _ => None,
    }
}

/// The recipe type a recipe annotation's name stands for.
pub open spec fn recipe_annotation_type(id: Seq<char>) -> Option<Seq<char>> {
    if id == "crafting_shaped"@ || id == "shaped"@ {
        Some("minecraft:crafting_shaped"@)
    } else if id == "crafting_shapeless"@ || id == "shapeless"@ {
        Some("minecraft:crafting_shapeless"@)
    } else if id == "stonecutting"@ || id == "stonecutter"@ {
        Some("minecraft:stonecutting"@)
    } else if id == "smithing"@ || id == "smithing_table"@ {
        Some("minecraft:smithing"@)
    } else {
        None
    }
}

/// given a syntax element within the item annotation, create the nbt contents of the recipe file
#[verifier::loop_isolation(false)]
pub fn recipe(value: &Syntax) -> (r: Result<Nbt, String>)
    ensures
        r matches Ok(n) ==> n is Object,
        !(value is Object || value is Annotation) ==> r is Err,
        value is Object ==> (r matches Ok(n) ==> recipe_type(n) == Some("minecraft:crafting_shaped"@)),
        *value matches Syntax::Object(m) ==> (!m@.contains_key("pattern"@) ==> r is Err),
        *value matches Syntax::Object(m) ==> (m@.contains_key("pattern"@) && !nbt_convertible(m@["pattern"@], true) ==> r is Err),
        *value matches Syntax::Object(m) ==> (r matches Ok(Nbt::Object(o)) ==> o@.contains_key("pattern"@) && nbt_of(
            m@["pattern"@],
            o@["pattern"@],
            true,
        )),
        value matches Syntax::Object(m) ==> (!(m@.contains_key("key"@) && m@["key"@] is Object) ==> r is Err),
        *value matches Syntax::Object(m) ==> (r matches Ok(Nbt::Object(o)) ==> o@.dom() == set!["type"@, "pattern"@, "key"@, "result"@]
            && (m@["key"@] matches Syntax::Object(km) && o@["key"@] matches Nbt::Object(nk) && recipe_key_of(km, nk))
            && knowledge_book_nbt(o@["result"@])),
        *value matches Syntax::Object(m) ==> (m@.contains_key("pattern"@) && nbt_convertible(m@["pattern"@], true) && m@.contains_key(
            "key"@,
        ) && (m@["key"@] matches Syntax::Object(km) && forall|k: Seq<char>| #[trigger] km@.contains_key(k) ==> spec_string_of(km@[k])
            is Some) ==> r is Ok),
        *value matches Syntax::Annotation(id, _) ==> (r matches Ok(n) ==> recipe_type(n) == recipe_annotation_type(id@)),
        *value matches Syntax::Annotation(id, _) ==> (recipe_annotation_type(id@) is None ==> r is Err),
        *value matches Syntax::Annotation(id, inner) ==> (recipe_annotation_type(id@) == Some("minecraft:stonecutting"@)
            ==> (r is Ok <==> spec_string_of(*inner) is Some)),
        *value matches Syntax::Annotation(id, inner) ==> (recipe_annotation_type(id@) == Some("minecraft:smithing"@) ==> (
        r is Ok <==> (*inner matches Syntax::Array(a) && a@.len() == 2 && (a@[0] is String || a@[0] is Identifier) && (
        a@[1] is String || a@[1] is Identifier)))),
        *value matches Syntax::Annotation(id, inner) ==> (recipe_annotation_type(id@) == Some("minecraft:smithing"@) ==> (
        r matches Ok(Nbt::Object(o)) ==> o@.dom() == set!["type"@, "base"@, "addition"@, "template"@] && (*inner matches Syntax::Array(
            a,
        ) && item_entry(o@["base"@], a@[0]) && item_entry(o@["addition"@], a@[1])) && o@["template"@] == Nbt::Unit)),
        *value matches Syntax::Annotation(id, inner) ==> (recipe_annotation_type(id@) == Some("minecraft:stonecutting"@) ==> (
        r matches Ok(Nbt::Object(o)) ==> o@.dom() == set!["type"@, "ingredient"@, "result"@, "count"@] && item_entry(
            o@["ingredient"@],
            *inner,
        ) && (o@["result"@] matches Nbt::String(t) && t@ == "minecraft:knowledge_book"@) && o@["count"@] == Nbt::Integer(1))),
        *value matches Syntax::Annotation(id, inner) ==> (recipe_annotation_type(id@) == Some("minecraft:crafting_shapeless"@) ==> (
        r is Ok <==> (*inner matches Syntax::Array(a) && forall|i: int| 0 <= i < a@.len() ==> shapeless_element_ok(#[trigger] a@[i])))),
        *value matches Syntax::Annotation(id, inner) ==> (recipe_annotation_type(id@) == Some("minecraft:crafting_shapeless"@) ==> (
        r matches Ok(Nbt::Object(o)) ==> o@.dom() == set!["type"@, "ingredients"@, "result"@] && (*inner matches Syntax::Array(a)
            && o@["ingredients"@] matches Nbt::Array(v) && shapeless_ingredients(a@, v@)) && knowledge_book_nbt(o@["result"@]))),
    decreases value,
{
    proof {
        reveal_strlit("minecraft:crafting_shaped");
        assert("minecraft:crafting_shaped"@.len() == 25);
        reveal_strlit("minecraft:crafting_shapeless");
        assert("minecraft:crafting_shapeless"@.len() == 28);
        reveal_strlit("minecraft:stonecutting");
        assert("minecraft:stonecutting"@.len() == 22);
        reveal_strlit("minecraft:smithing");
        assert("minecraft:smithing"@.len() == 18);
        reveal_strlit("type");
        assert("type"@.len() == 4 && "type"@[0] == 't');
        reveal_strlit("pattern");
        assert("pattern"@.len() == 7 && "pattern"@[0] == 'p');
        reveal_strlit("key");
        assert("key"@.len() == 3 && "key"@[0] == 'k');
        reveal_strlit("result");
        assert("result"@.len() == 6 && "result"@[0] == 'r');
        reveal_strlit("ingredients");
        assert("ingredients"@.len() == 11 && "ingredients"@[0] == 'i');
        reveal_strlit("ingredient");
        assert("ingredient"@.len() == 10 && "ingredient"@[0] == 'i');
        reveal_strlit("count");
        assert("count"@.len() == 5 && "count"@[0] == 'c');
        reveal_strlit("base");
        assert("base"@.len() == 4 && "base"@[0] == 'b');
        reveal_strlit("addition");
        assert("addition"@.len() == 8 && "addition"@[0] == 'a');
        reveal_strlit("template");
        assert("template"@.len() == 8 && "template"@[0] == 't');
    }
    match value {
        Syntax::Object(obj) => {
            let Some(pattern) = obj.get("pattern") else {
                return Err(owned("Expected pattern for recipe"));
            };
            let pattern = nbt_from_syntax_loose(pattern)?;
            let Some(Syntax::Object(key)) = obj.get("key") else {
                return Err(owned("Expected key for recipe"));
            };
            key.facts();
            let mut new_key: StrMap<Nbt> = StrMap::new();
            let n = key.len();
            let mut i: usize = 0;
            while i < n
                invariant
                    n == key.seq().len(),
                    i <= n,
                    keys_sorted(key.seq()),
                    forall|j: int| 0 <= j < i ==> new_key@.contains_key(#[trigger] key.seq()[j].0@) && item_entry(
                        new_key@[key.seq()[j].0@],
                        key.seq()[j].1,
                    ),
                    forall|k: Seq<char>| #[trigger] new_key@.contains_key(k) ==> exists|j: int| 0 <= j < i && #[trigger] key.seq()[j].0@
                        == k,
                decreases n - i,
            {
                proof {
                    crate::strmap::lemma_sorted_value(key.seq(), i as int);
                }
                match string_of(key.value_at(i)) {
                    Ok(s) => {
                        let ghost s0 = s;
                        let e = object1("item", Nbt::String(s));
                        proof {
                            assert(e->Object_0@.dom() =~= set!["item"@]);
                        }
                        let ghost prev = new_key@;
                        new_key.insert(key.key_at(i).clone(), e);
                        proof {
                            assert forall|j: int| 0 <= j < i + 1 implies new_key@.contains_key(#[trigger] key.seq()[j].0@) && item_entry(
                                new_key@[key.seq()[j].0@],
                                key.seq()[j].1,
                            ) by {
                                if j < i {
                                    assert(key.seq()[j].0@ != key.seq()[i as int].0@);
                                }
                            }
                            assert forall|k: Seq<char>| #[trigger] new_key@.contains_key(k) implies exists|j: int| 0 <= j < i + 1
                                && #[trigger] key.seq()[j].0@ == k by {
                                if k != key.seq()[i as int].0@ {
                                    assert(prev.contains_key(k));
                                    let j = choose|j: int| 0 <= j < i && #[trigger] key.seq()[j].0@ == k;
                                } else {
                                    assert(key.seq()[i as int].0@ == k);
                                }
                            }
                        }
                    },
                    Err(_) => return Err(owned("Expected string for item")),
                }
                i = i + 1;
            }
            proof {
                key.lemma_keys_listed();
                assert(new_key@.dom() =~= key@.dom()) by {
                    assert forall|k: Seq<char>| new_key@.contains_key(k) == key@.contains_key(k) by {
                        if new_key@.contains_key(k) {
                            let j = choose|j: int| 0 <= j < n && #[trigger] key.seq()[j].0@ == k;
                            crate::strmap::lemma_sorted_value(key.seq(), j);
                        }
                        if key@.contains_key(k) {
                            let j = choose|j: int| 0 <= j < key.seq().len() && #[trigger] key.seq()[j].0@ == k;
                        }
                    }
                }
                assert forall|k: Seq<char>| #[trigger] key@.contains_key(k) implies item_entry(new_key@[k], key@[k]) by {
                    let j = choose|j: int| 0 <= j < key.seq().len() && #[trigger] key.seq()[j].0@ == k;
                    crate::strmap::lemma_sorted_value(key.seq(), j);
                }
            }
            let mut m = StrMap::new();
            m.insert(owned("type"), Nbt::String(owned("minecraft:crafting_shaped")));
            m.insert(owned("pattern"), pattern);
            m.insert(owned("key"), Nbt::Object(new_key));
            m.insert(owned("result"), knowledge_book());
            proof {
                assert(m@.dom() =~= set!["type"@, "pattern"@, "key"@, "result"@]);
            }
            Ok(Nbt::Object(m))
        },
        Syntax::Annotation(ident, inner) => {
            let id = ident.as_str();
            if str_eq(id, "crafting_shaped") || str_eq(id, "shaped") {
                if let Syntax::Object(_) = &**inner {
                    recipe(inner)
                } else {
                    Err(err_with("Expected recipe object; got `", inner, "`"))
                }
            } else if str_eq(id, "crafting_shapeless") || str_eq(id, "shapeless") {
                let Syntax::Array(arr) = &**inner else {
                    return Err(err_with("Expected an array for shapeless recipe; got `", inner, "`"));
                };
                let mut arr_buf: Vec<Nbt> = Vec::new();
                let mut i: usize = 0;
                while i < arr.len()
                    invariant
                        i <= arr@.len(),
                        arr_buf@.len() == i,
                        forall|k: int| 0 <= k < i ==> shapeless_element_ok(#[trigger] arr@[k]),
                        forall|k: int| 0 <= k < i ==> shapeless_entry(#[trigger] arr_buf@[k], arr@[k]),
                    decreases arr.len() - i,
                {
                    let syn = &arr[i];
                    match syn {
                        Syntax::String(_) | Syntax::Identifier(_) => {
                            arr_buf.push(ingredient(syn, "Expected an item name for shapeless recipe element; got `")?);
                        },
                        Syntax::Array(alts) => {
                            let mut alt_buf: Vec<Nbt> = Vec::new();
                            let mut j: usize = 0;
                            while j < alts.len()
                                invariant
                                    j <= alts@.len(),
                                    alt_buf@.len() == j,
                                    forall|k: int| 0 <= k < j ==> (#[trigger] alts@[k] is String || alts@[k] is Identifier),
                                    forall|k: int| 0 <= k < j ==> item_entry(#[trigger] alt_buf@[k], alts@[k]),
                                decreases alts.len() - j,
                            {
                                let e = match ingredient(&alts[j], "Expected an item name for shapeless recipe element; got `") {
                                    Ok(e) => e,
                                    Err(msg) => {
                                        assert(!shapeless_element_ok(arr@[i as int]));
                                        return Err(msg);
                                    },
                                };
                                alt_buf.push(e);
                                j = j + 1;
                            }
                            arr_buf.push(Nbt::Array(alt_buf));
                        },
                        _ => {
                            return Err(err_with(
                                "Expected a list or item name for shapeless recipe element; got `",
                                syn,
                                "`",
                            ));
                        },
                    }
                    i = i + 1;
                }
                let mut m = StrMap::new();
                m.insert(owned("type"), Nbt::String(owned("minecraft:crafting_shapeless")));
                m.insert(owned("ingredients"), Nbt::Array(arr_buf));
                m.insert(owned("result"), knowledge_book());
                proof {
                    assert(m@.dom() =~= set!["type"@, "ingredients"@, "result"@]);
                }
                Ok(Nbt::Object(m))
            } else if str_eq(id, "stonecutting") || str_eq(id, "stonecutter") {
                let item_id = string_of(inner)?;
                let mut m = StrMap::new();
                m.insert(owned("type"), Nbt::String(owned("minecraft:stonecutting")));
                m.insert(owned("ingredient"), object1("item", Nbt::String(item_id)));
                m.insert(owned("result"), Nbt::String(owned("minecraft:knowledge_book")));
                m.insert(owned("count"), Nbt::Integer(1));
                proof {
                    assert(m@.dom() =~= set!["type"@, "ingredient"@, "result"@, "count"@]);
                }
                Ok(Nbt::Object(m))
            } else if str_eq(id, "smithing") || str_eq(id, "smithing_table") {
                let Syntax::Array(arr) = &**inner else {
                    return Err(err_with("Smithing recipe expected `[base, addition]`; got `", inner, "`"));
                };
                if arr.len() != 2 || !((arr[0].is_name()) && (arr[1].is_name())) {
                    return Err(err_with("Smithing recipe expected `[base, addition]`; got `", inner, "`"));
                }
                let base = ingredient(&arr[0], "")?;
                let addition = ingredient(&arr[1], "")?;
                let mut m = StrMap::new();
                m.insert(owned("type"), Nbt::String(owned("minecraft:smithing")));
                m.insert(owned("base"), base);
                m.insert(owned("addition"), addition);
                m.insert(owned("template"), Nbt::Unit);
                proof {
                    assert(m@.dom() =~= set!["type"@, "base"@, "addition"@, "template"@]);
                }
                Ok(Nbt::Object(m))
            } else {
                let mut msg = owned("Unexpected recipe annotation: `");
                msg.append(id);
                msg.append("`");
                Err(msg)
            }
        },
        _ => Err(err_with("Expected recipe object; got ", value, "")),
    }
}

impl Syntax {
    /// Whether the element is a string or an identifier.
    pub fn is_name(&self) -> (b: bool)
        ensures
            b == (self is String || self is Identifier),
    {
        match self {
            Syntax::String(_) | Syntax::Identifier(_) => true,
            _ => false,
        }
    }
}

/// The properties an item annotation may have.
pub open spec fn is_item_property(k: Seq<char>) -> bool {
    k == "name"@ || k == "base"@ || k == "nbt"@ || k == "on_consume"@ || k == "on_use"@ || k == "while_using"@
        || k == "recipe"@ || k == "while_slot"@
}

/// How many recipes a `recipe` property gives: one per element of a list, else one.
pub open spec fn recipe_count(v: Syntax) -> nat {
    match v {
        Syntax::Array(a) => a@.len(),
        _ => 1,
    }
}

/// NBT data whose `tag` object has `_is_minescript` set to the item's name, the mark by
/// which the datapack recognises the item.
pub open spec fn marks_item(nbt: Nbt, name: Seq<char>) -> bool {
    &&& nbt matches Nbt::Object(o)
    &&& o@.contains_key("tag"@)
    &&& o@["tag"@] matches Nbt::Object(t)
    &&& t@.contains_key("_is_minescript"@)
    &&& t@["_is_minescript"@] matches Nbt::String(n)
    &&& n@ == name
}

/// `out` is the object `n` with `_is_minescript: <name>` added to its `tag` object (which
/// is created when `n` has none); every other entry of `n` and of its tag is kept.
pub open spec fn marked_from(n: Nbt, out: Nbt, name: Seq<char>) -> bool {
    &&& n matches Nbt::Object(no)
    &&& out matches Nbt::Object(oo)
    &&& oo@.dom() == no@.dom().insert("tag"@)
    &&& forall|k: Seq<char>| #[trigger] no@.contains_key(k) && k != "tag"@ ==> oo@[k] == no@[k]
    &&& oo@["tag"@] matches Nbt::Object(t)
    &&& t@.contains_key("_is_minescript"@)
    &&& t@["_is_minescript"@] matches Nbt::String(s)
    &&& s@ == name
    &&& no@.contains_key("tag"@) ==> (no@["tag"@] matches Nbt::Object(t0) && t@.dom() == t0@.dom().insert("_is_minescript"@)
        && forall|k: Seq<char>| #[trigger] t0@.contains_key(k) && k != "_is_minescript"@ ==> t@[k] == t0@[k])
    &&& !no@.contains_key("tag"@) ==> t@.dom() == set!["_is_minescript"@]
}

/// A non-empty string or identifier.
pub open spec fn names_something(v: Syntax) -> bool {
    spec_string_of(v) matches Some(t) && t.len() > 0
}

/// NBT for an item that converts as it must: a non-empty object whose `tag`, if any, is a
/// non-empty object too.
pub open spec fn plain_item_nbt(v: Syntax) -> bool {
    v matches Syntax::Object(nm) && nm.seq().len() > 0 && nbt_convertible(v, false) && forall|j: int|
        0 <= j < nm.seq().len() && #[trigger] nm.seq()[j].0@ == "tag"@ ==> (nm.seq()[j].1 matches Syntax::Object(t)
        && t.seq().len() > 0)
}

/// The item properties that name the function run on an event.
pub open spec fn is_event_key(k: Seq<char>) -> bool {
    k == "on_use"@ || k == "on_consume"@ || k == "while_using"@
}

/// A shaped recipe that `recipe` accepts: a pattern that converts and a key of item names.
pub open spec fn shaped_recipe_ok(v: Syntax) -> bool {
    v matches Syntax::Object(rm) && rm@.contains_key("pattern"@) && nbt_convertible(rm@["pattern"@], true) && rm@.contains_key(
        "key"@,
    ) && (rm@["key"@] matches Syntax::Object(km) && forall|k: Seq<char>| #[trigger] km@.contains_key(k) ==> spec_string_of(km@[k])
        is Some)
}

/// A statement an item event may be given as that always succeeds: nothing, `@raw "..."`,
/// `@function` with a name, an `@effect` that `effect` accepts, or an operation as
/// `plain_operation` says.
pub open spec fn simple_statement(s: Syntax, acc: int) -> bool {
    match s {
        Syntax::Unit => true,
        Syntax::Annotation(name, props) => (name@ == "raw"@ && *props is String) || (name@ == "function"@ && spec_string_of(*props)
            is Some) || (name@ == "effect"@ && crate::interpreter::annotations::effect_accepted(*props)),
        Syntax::BinaryOp { .. } => crate::interpreter::plain_operation(s, acc),
        _ => false,
    }
}

/// An item event that always succeeds: a function's name, such a statement, or a list of
/// them.
pub open spec fn simple_event(v: Syntax, acc: int) -> bool {
    v is String || simple_statement(v, acc) || (v matches Syntax::Array(a) && forall|j: int| 0 <= j < a@.len() ==> simple_statement(
        #[trigger] a@[j],
        acc,
    ))
}

/// Such an event, unless it is a name, is a statement that always succeeds.
proof fn lemma_simple_event(v: Syntax, acc: int)
    requires
        simple_event(v, acc),
        !(v is String),
    ensures
        plain_statement(v, acc),
{
    if let Syntax::Array(a) = v {
        assert forall|j: int| 0 <= j < a@.len() implies plain_statement(#[trigger] a@[j], acc) by {
            assert(simple_statement(a@[j], acc));
        }
    }
}

/// The slot checks of an item: one per entry of its `while_slot` object, in order, each
/// with the slot its name stands for and the commands its statements are interpreted as.
pub open spec fn slot_checks_of(slots: Seq<(String, Syntax)>, checks: Seq<(i8, VecCmd)>, dummy: Seq<char>, acc: int) -> bool {
    checks.len() == slots.len() && forall|j: int| 0 <= j < slots.len() ==> slot_is(slots[j].0@, #[trigger] checks[j].0)
        && interpreted(slots[j].1, dummy, acc, checks[j].1)
}

/// An item object whose properties are a name, maybe a base, NBT that converts as it
/// must, events as `simple_event` says, and maybe a shaped recipe.
pub open spec fn plain_item_parts(m: StrMap<Syntax>, acc: int) -> bool {
    &&& forall|k: Seq<char>| #[trigger] m@.contains_key(k) ==> k == "name"@ || k == "base"@ || k == "nbt"@ || is_event_key(k)
        || k == "recipe"@
    &&& forall|k: Seq<char>| #[trigger] m@.contains_key(k) && is_event_key(k) ==> simple_event(m@[k], acc)
    &&& m@.contains_key("recipe"@) ==> shaped_recipe_ok(m@["recipe"@])
    &&& m@.contains_key("name"@) && names_something(m@["name"@])
    &&& m@.contains_key("base"@) ==> names_something(m@["base"@])
    &&& m@.contains_key("nbt"@) && plain_item_nbt(m@["nbt"@])
}

/// An item that needs nothing but a name, a base, NBT, such events and such a recipe.
pub open spec fn plain_item(src: Syntax, acc: int) -> bool {
    src matches Syntax::Object(m) && plain_item_parts(m, acc) && m@.contains_key("base"@)
}

/// Such an item but without a base.
pub open spec fn item_without_base(src: Syntax, acc: int) -> bool {
    src matches Syntax::Object(m) && plain_item_parts(m, acc) && !m@.contains_key("base"@)
}

/// The commands of an item event given by the function name `f`: one call of it.
pub open spec fn event_calls(cmds: VecCmd, f: String) -> bool {
    cmds.base_v() == seq![crate::command::cmd_view(Command::Function(f))]
}

/// `@item {...}`: a custom item. It must have a base item, a name and NBT data (an
/// object); its functions, recipes and the score that detects its use are recorded in the
/// state.
#[verifier::loop_isolation(false)]
pub fn item<L: Loader>(src: &Syntax, state: &mut InterRepr, path: &str, loader: &mut L, config: &Config, depth: u32) -> (r:
    Result<Item, String>)
    requires
        old(state).wf(),
    ensures
        final(state).wf(),
        final(state).extends(*old(state)),
        r matches Ok(it) ==> it.wf() && it.base@.len() > 0 && it.name@.len() > 0 && marks_item(it.nbt, it.name@),
        !(src is Object) ==> r is Err,
        r is Ok ==> (src matches Syntax::Object(m) && forall|k: Seq<char>| #[trigger] m@.contains_key(k) ==> is_item_property(k)),
        r is Ok ==> (src matches Syntax::Object(m) && m@.contains_key("nbt"@) && m@["nbt"@] is Object && nbt_convertible(
            m@["nbt"@],
            false,
        )),
        r matches Ok(it) ==> (src matches Syntax::Object(m) && m@.contains_key("name"@) && spec_string_of(m@["name"@])
            == Some(it.name@) && m@.contains_key("base"@) && spec_string_of(m@["base"@]) == Some(it.base@)),
        r matches Ok(it) ==> (it.on_use.base@.len() > 0 ==> final(state).objectives@.contains_key("use_"@ + it.base@)
            && final(state).objectives@["use_"@ + it.base@]@ == "minecraft.used:minecraft."@ + it.base@),
        r matches Ok(it) ==> (src matches Syntax::Object(m) && m@.contains_key("recipe"@) && recipe_count(m@["recipe"@]) == 1
            ==> final(state).recipes@.contains_key(it.name@) && final(state).recipes@[it.name@].1@ == it.name@),
        plain_item(*src, config.fixed_point_accuracy as int) ==> r is Ok,
        item_without_base(*src, config.fixed_point_accuracy as int) ==> (r matches Err(e) && e@ == "Item must have a specified base item; @item {... base: \"potion\"}"@),
        r matches Ok(it) ==> (*src matches Syntax::Object(m) && (m@.contains_key("on_use"@) ==> (m@["on_use"@] matches Syntax::String(
            f,
        ) ==> event_calls(it.on_use, f))) && (m@.contains_key("on_consume"@) ==> (m@["on_consume"@] matches Syntax::String(f)
            ==> event_calls(it.on_consume, f))) && (m@.contains_key("while_using"@) ==> (m@["while_using"@] matches Syntax::String(f)
            ==> event_calls(it.while_using, f)))),
        r matches Ok(it) ==> (*src matches Syntax::Object(m) && exists|n: Nbt| #[trigger] nbt_of(m@["nbt"@], n, false) && marked_from(
            n,
            it.nbt,
            it.name@,
        )),
        r matches Ok(it) ==> (*src matches Syntax::Object(m) && (m@.contains_key("on_use"@) && !event_is_call(m@["on_use"@])
            ==> event_body(it.on_use, m@["on_use"@], config.dummy_objective@, config.fixed_point_accuracy as int)) && (
        m@.contains_key("on_consume"@) && !event_is_call(m@["on_consume"@]) ==> event_body(
            it.on_consume,
            m@["on_consume"@],
            config.dummy_objective@,
            config.fixed_point_accuracy as int,
        )) && (m@.contains_key("while_using"@) && !event_is_call(m@["while_using"@]) ==> event_body(
            it.while_using,
            m@["while_using"@],
            config.dummy_objective@,
            config.fixed_point_accuracy as int,
        ))),
        r matches Ok(it) ==> (*src matches Syntax::Object(m) && (m@.contains_key("while_slot"@) ==> (m@["while_slot"@] matches Syntax::Object(
            slots,
        ) && slot_checks_of(slots.seq(), it.slot_checks@, config.dummy_objective@, config.fixed_point_accuracy as int))) && (
        !m@.contains_key("while_slot"@) ==> it.slot_checks@.len() == 0)),
    decreases depth, src, 3nat,
{
    let Syntax::Object(obj) = src else {
        return Err(err_with("Expected an object for item annotation; got `", src, "`"));
    };
    obj.facts();
    let mut item = Item::default();
    let mut recipe_buf: Vec<Nbt> = Vec::new();
    let ghost dummy = config.dummy_objective@;
    let ghost acc = config.fixed_point_accuracy as int;
    let n = obj.len();
    let mut i: usize = 0;
    while i < n
        invariant
            state.wf(),
            state.extends(*old(state)),
            item.wf(),
            n == obj.seq().len(),
            i <= n,
            keys_sorted(obj.seq()),
            forall|j: int| 0 <= j < i ==> is_item_property(#[trigger] obj.seq()[j].0@),
            forall|j: int| 0 <= j < i && #[trigger] obj.seq()[j].0@ == "name"@ ==> spec_string_of(obj.seq()[j].1) == Some(
                item.name@,
            ),
            item.name@.len() > 0 ==> exists|j: int| 0 <= j < i && #[trigger] obj.seq()[j].0@ == "name"@,
            forall|j: int| 0 <= j < i && #[trigger] obj.seq()[j].0@ == "base"@ ==> spec_string_of(obj.seq()[j].1) == Some(
                item.base@,
            ),
            item.base@.len() > 0 ==> exists|j: int| 0 <= j < i && #[trigger] obj.seq()[j].0@ == "base"@,
            forall|j: int| 0 <= j < i && #[trigger] obj.seq()[j].0@ == "recipe"@ ==> recipe_buf@.len() == recipe_count(
                obj.seq()[j].1,
            ),
            recipe_buf@.len() > 0 ==> exists|j: int| 0 <= j < i && #[trigger] obj.seq()[j].0@ == "recipe"@,
            forall|j: int| 0 <= j < i && #[trigger] obj.seq()[j].0@ == "nbt"@ ==> obj.seq()[j].1 is Object && nbt_convertible(
                obj.seq()[j].1,
                false,
            ),
            item.nbt != Nbt::Unit ==> exists|j: int| 0 <= j < i && #[trigger] obj.seq()[j].0@ == "nbt"@,
            forall|j: int| 0 <= j < i && #[trigger] obj.seq()[j].0@ == "nbt"@ ==> nbt_of(obj.seq()[j].1, item.nbt, false),
            forall|j: int| 0 <= j < i && #[trigger] obj.seq()[j].0@ == "on_use"@ ==> (obj.seq()[j].1 matches Syntax::String(f)
                ==> event_calls(item.on_use, f)),
            (forall|j: int| 0 <= j < i ==> #[trigger] obj.seq()[j].0@ != "on_use"@) ==> item.on_use.base@.len() == 0
                && item.on_use.mods@.len() == 0,
            forall|j: int| 0 <= j < i && #[trigger] obj.seq()[j].0@ == "on_use"@ ==> (!event_is_call(obj.seq()[j].1) ==> event_body(
                item.on_use,
                obj.seq()[j].1,
                dummy,
                acc,
            )),
            forall|j: int| 0 <= j < i && #[trigger] obj.seq()[j].0@ == "on_consume"@ ==> (obj.seq()[j].1 matches Syntax::String(f)
                ==> event_calls(item.on_consume, f)),
            (forall|j: int| 0 <= j < i ==> #[trigger] obj.seq()[j].0@ != "on_consume"@) ==> item.on_consume.base@.len() == 0
                && item.on_consume.mods@.len() == 0,
            forall|j: int| 0 <= j < i && #[trigger] obj.seq()[j].0@ == "on_consume"@ ==> (!event_is_call(obj.seq()[j].1) ==> event_body(
                item.on_consume,
                obj.seq()[j].1,
                dummy,
                acc,
            )),
            forall|j: int| 0 <= j < i && #[trigger] obj.seq()[j].0@ == "while_using"@ ==> (obj.seq()[j].1 matches Syntax::String(f)
                ==> event_calls(item.while_using, f)),
            (forall|j: int| 0 <= j < i ==> #[trigger] obj.seq()[j].0@ != "while_using"@) ==> item.while_using.base@.len() == 0
                && item.while_using.mods@.len() == 0,
            forall|j: int| 0 <= j < i && #[trigger] obj.seq()[j].0@ == "while_slot"@ ==> (obj.seq()[j].1 matches Syntax::Object(slots)
                && slot_checks_of(slots.seq(), item.slot_checks@, dummy, acc)),
            (forall|j: int| 0 <= j < i ==> #[trigger] obj.seq()[j].0@ != "while_slot"@) ==> item.slot_checks@.len() == 0,
            forall|j: int| 0 <= j < i && #[trigger] obj.seq()[j].0@ == "while_using"@ ==> (!event_is_call(obj.seq()[j].1) ==> event_body(
                item.while_using,
                obj.seq()[j].1,
                dummy,
                acc,
            )),
        decreases n - i,
    {
        proof {
            crate::strmap::lemma_value_decreases(*obj, i as int);
            assert(decreases_to!(src => *obj));
            crate::strmap::lemma_sorted_value(obj.seq(), i as int);
            reveal_strlit("name");
            reveal_strlit("base");
            reveal_strlit("nbt");
            reveal_strlit("on_consume");
            reveal_strlit("on_use");
            reveal_strlit("while_using");
            reveal_strlit("recipe");
            reveal_strlit("while_slot");
            assert("name"@.len() == 4 && "name"@[0] == 'n');
            assert("base"@.len() == 4 && "base"@[0] == 'b');
            assert("nbt"@.len() == 3 && "nbt"@[0] == 'n');
            assert("on_consume"@.len() == 10 && "on_consume"@[0] == 'o');
            assert("on_use"@.len() == 6 && "on_use"@[0] == 'o');
            assert("while_using"@.len() == 11 && "while_using"@[0] == 'w');
            assert("recipe"@.len() == 6 && "recipe"@[0] == 'r');
            assert("while_slot"@.len() == 10 && "while_slot"@[0] == 'w');
        }
        let prop = obj.key_at(i).as_str();
        let value = obj.value_at(i);
        let ghost name0 = item.name@;
        let ghost base0 = item.base@;
        let ghost nbt0 = item.nbt;
        let ghost rlen0 = recipe_buf@.len();
        let ghost use0 = item.on_use;
        let ghost consume0 = item.on_consume;
        let ghost using0 = item.while_using;
        if str_eq(prop, "name") {
            match string_of(value) {
                Ok(s) => item.name = s,
                Err(_) => return Err(owned("Item name must be a string")),
            }
        } else if str_eq(prop, "base") {
            match string_of(value) {
                Ok(s) => item.base = s,
                Err(_) => return Err(owned("Item base must be a string")),
            }
        } else if str_eq(prop, "nbt") {
            match nbt_from_syntax(value) {
                Ok(Nbt::Object(m)) => item.nbt = Nbt::Object(m),
                _ => return Err(err_with("Item nbt must be nbt data; got `", value, "`")),
            }
        } else if str_eq(prop, "on_consume") {
            proof {
                assert forall|j: int| 0 <= j < i implies #[trigger] obj.seq()[j].0@ != "on_consume"@ by {
                    if obj.seq()[j].0@ == "on_consume"@ {
                        assert(obj.seq()[j].0@ == obj.seq()[i as int].0@);
                    }
                }
                assert(item.on_consume.base.deep_view().len() == item.on_consume.base@.len());
            }
            let ghost before = item.on_consume.base_v();
            proof {
                if simple_event(*value, config.fixed_point_accuracy as int) && !(value is String) {
                    lemma_simple_event(*value, config.fixed_point_accuracy as int);
                }
            }
            event_commands(&mut item.on_consume, value, state, path, loader, config, depth)?;
            proof {
                assert(obj.seq()[i as int].1 == *value);
                if let Syntax::String(f) = value {
                    assert(before =~= Seq::empty());
                    assert(item.on_consume.base_v() =~= seq![crate::command::cmd_view(Command::Function(*f))]);
                    assert(event_calls(item.on_consume, *f));
                }
                if !event_is_call(*value) {
                    assert(event_body(item.on_consume, *value, dummy, acc));
                }
            }
        } else if str_eq(prop, "on_use") {
            proof {
                assert forall|j: int| 0 <= j < i implies #[trigger] obj.seq()[j].0@ != "on_use"@ by {
                    if obj.seq()[j].0@ == "on_use"@ {
                        assert(obj.seq()[j].0@ == obj.seq()[i as int].0@);
                    }
                }
                assert(item.on_use.base.deep_view().len() == item.on_use.base@.len());
            }
            let ghost before = item.on_use.base_v();
            proof {
                if simple_event(*value, config.fixed_point_accuracy as int) && !(value is String) {
                    lemma_simple_event(*value, config.fixed_point_accuracy as int);
                }
            }
            event_commands(&mut item.on_use, value, state, path, loader, config, depth)?;
            proof {
                assert(obj.seq()[i as int].1 == *value);
                if let Syntax::String(f) = value {
                    assert(before =~= Seq::empty());
                    assert(item.on_use.base_v() =~= seq![crate::command::cmd_view(Command::Function(*f))]);
                    assert(event_calls(item.on_use, *f));
                }
                if !event_is_call(*value) {
                    assert(event_body(item.on_use, *value, dummy, acc));
                }
            }
        } else if str_eq(prop, "while_using") {
            proof {
                assert forall|j: int| 0 <= j < i implies #[trigger] obj.seq()[j].0@ != "while_using"@ by {
                    if obj.seq()[j].0@ == "while_using"@ {
                        assert(obj.seq()[j].0@ == obj.seq()[i as int].0@);
                    }
                }
                assert(item.while_using.base.deep_view().len() == item.while_using.base@.len());
            }
            let ghost before = item.while_using.base_v();
            proof {
                if simple_event(*value, config.fixed_point_accuracy as int) && !(value is String) {
                    lemma_simple_event(*value, config.fixed_point_accuracy as int);
                }
            }
            event_commands(&mut item.while_using, value, state, path, loader, config, depth)?;
            proof {
                assert(obj.seq()[i as int].1 == *value);
                if let Syntax::String(f) = value {
                    assert(before =~= Seq::empty());
                    assert(item.while_using.base_v() =~= seq![crate::command::cmd_view(Command::Function(*f))]);
                    assert(event_calls(item.while_using, *f));
                }
                if !event_is_call(*value) {
                    assert(event_body(item.while_using, *value, dummy, acc));
                }
            }
        } else if str_eq(prop, "recipe") {
            if let Syntax::Array(arr) = value {
                let mut j: usize = 0;
                while j < arr.len()
                    invariant
                        j <= arr@.len(),
                        recipe_buf@.len() == j,
                        item.name@ == name0,
                        item.base@ == base0,
                        item.nbt == nbt0,
                        item.on_use == use0,
                        item.on_consume == consume0,
                        item.while_using == using0,
                    decreases arr.len() - j,
                {
                    recipe_buf.push(recipe(&arr[j])?);
                    j = j + 1;
                }
            } else {
                recipe_buf.push(recipe(value)?);
            }
        } else if str_eq(prop, "while_slot") {
            let Syntax::Object(slots) = value else {
                return Err(err_with("Expected an object for `while_slot` property; got `", value, "`"));
            };
            proof {
                assert forall|j: int| 0 <= j < i implies #[trigger] obj.seq()[j].0@ != "while_slot"@ by {
                    if obj.seq()[j].0@ == "while_slot"@ {
                        assert(obj.seq()[j].0@ == obj.seq()[i as int].0@);
                    }
                }
                assert(obj.seq()[i as int].1 == *value);
            }
            let m = slots.len();
            let mut j: usize = 0;
            while j < m
                invariant
                    item.slot_checks@.len() == j,
                    forall|k: int| 0 <= k < j ==> slot_is(slots.seq()[k].0@, #[trigger] item.slot_checks@[k].0) && interpreted(
                        slots.seq()[k].1,
                        dummy,
                        acc,
                        item.slot_checks@[k].1,
                    ),
                    state.wf(),
                    state.extends(*old(state)),
                    item.wf(),
                    m == slots.seq().len(),
                    j <= m,
                    item.name@ == name0,
                    item.base@ == base0,
                    item.nbt == nbt0,
                    item.on_use == use0,
                    item.on_consume == consume0,
                    item.while_using == using0,
                    recipe_buf@.len() == rlen0,
                decreases m - j,
            {
                proof {
                    crate::strmap::lemma_value_decreases(*slots, j as int);
                    assert(decreases_to!(*value => *slots));
                }
                let slot = slot_number(slots.key_at(j).as_str())?;
                let cmds = inner_interpret(slots.value_at(j), state, path, loader, config, depth)?;
                item.slot_checks.push((slot, cmds));
                j = j + 1;
            }
            proof {
                assert(slot_checks_of(slots.seq(), item.slot_checks@, dummy, acc));
            }
        } else {
            let mut msg = owned("Unexpected item property: `");
            msg.append(prop);
            msg.append("`");
            return Err(msg);
        }
        i = i + 1;
    }
    if !item.on_use.is_empty() {
        let mut objective = owned("use_");
        objective.append(item.base.as_str());
        let mut criterion = owned("minecraft.used:minecraft.");
        criterion.append(item.base.as_str());
        proof {
            reveal_strlit("use_");
            assert(objective@.subrange(0, 4) =~= "use_"@);
            assert(crate::repr::is_use_objective(objective@));
        }
        state.objectives.insert(objective, criterion);
    }
    let ghost objectives = state.objectives@;
    if recipe_buf.len() == 1 {
        let json = recipe_buf[0].to_json();
        state.recipes.insert(item.name.clone(), (json, item.name.clone()));
    } else {
        let mut j: usize = 0;
        while j < recipe_buf.len()
            invariant
                j <= recipe_buf@.len(),
                state.wf(),
                state.extends(*old(state)),
                state.objectives@ == objectives,
            decreases recipe_buf.len() - j,
        {
            let json = recipe_buf[j].to_json();
            let mut name = item.name.clone();
            name.append("_");
            let h = crate::digest::hash_hex(json.as_str());
            name.append(h.as_str());
            state.recipes.insert(name, (json, item.name.clone()));
            j = j + 1;
        }
    }
    proof {
        if plain_item(*src, config.fixed_point_accuracy as int) {
            obj.lemma_keys_listed();
            let jn = choose|j: int| 0 <= j < n && #[trigger] obj.seq()[j].0@ == "nbt"@;
            crate::strmap::lemma_sorted_value(obj.seq(), jn);
            assert(obj@["nbt"@] == obj.seq()[jn].1);
            assert(nbt_of(obj@["nbt"@], item.nbt, false));
            let jname = choose|j: int| 0 <= j < n && #[trigger] obj.seq()[j].0@ == "name"@;
            crate::strmap::lemma_sorted_value(obj.seq(), jname);
            let jbase = choose|j: int| 0 <= j < n && #[trigger] obj.seq()[j].0@ == "base"@;
            crate::strmap::lemma_sorted_value(obj.seq(), jbase);
            assert(item.name@.len() > 0 && item.base@.len() > 0);
        }
        if item_without_base(*src, config.fixed_point_accuracy as int) {
            obj.lemma_keys_listed();
            let jn = choose|j: int| 0 <= j < n && #[trigger] obj.seq()[j].0@ == "nbt"@;
            crate::strmap::lemma_sorted_value(obj.seq(), jn);
            assert(obj@["nbt"@] == obj.seq()[jn].1);
            assert(nbt_of(obj@["nbt"@], item.nbt, false));
            if item.base@.len() > 0 {
                let jbase = choose|j: int| 0 <= j < n && #[trigger] obj.seq()[j].0@ == "base"@;
                crate::strmap::lemma_sorted_value(obj.seq(), jbase);
            }
            assert(item.base@.len() == 0);
        }
    }
    let ghost n0 = item.nbt;
    let mut nbt = Nbt::Unit;
    core::mem::swap(&mut nbt, &mut item.nbt);
    let Nbt::Object(mut obj) = nbt else {
        let mut msg = owned("Item nbt should be an object; got `");
        crate::nbt::push_display(&mut msg, &nbt);
        msg.append("`");
        return Err(msg);
    };
    obj.facts();
    proof {
        if plain_item(*src, config.fixed_point_accuracy as int) || item_without_base(*src, config.fixed_point_accuracy as int) {
            let nm = obj_of(src)@["nbt"@]->Object_0;
            if obj@.contains_key("tag"@) {
                obj.lemma_keys_listed();
                let jt = choose|j: int| 0 <= j < obj.seq().len() && #[trigger] obj.seq()[j].0@ == "tag"@;
                crate::convert::lemma_entries_of_index(nm, obj.seq(), nm.seq().len() as int, false, jt);
                crate::strmap::lemma_sorted_value(obj.seq(), jt);
                assert(obj@["tag"@] is Object);
            }
        }
    }
    let ghost o0 = obj@;
    match obj.remove("tag") {
        Some(Nbt::Object(mut inner)) => {
            let ghost t0 = inner@;
            inner.insert(owned("_is_minescript"), Nbt::String(item.name.clone()));
            proof {
                assert(inner@.dom() =~= t0.dom().insert("_is_minescript"@));
            }
            obj.insert(owned("tag"), Nbt::Object(inner));
        },
        Some(other) => {
            let mut msg = owned("Item nbt should be of form `nbt:{tag:{...}}`; got `nbt:{tag:");
            crate::nbt::push_display(&mut msg, &other);
            msg.append("}`");
            return Err(msg);
        },
        None => {
            let t = object1("_is_minescript", Nbt::String(item.name.clone()));
            proof {
                assert(t->Object_0@.dom() =~= set!["_is_minescript"@]);
            }
            obj.insert(owned("tag"), t);
        },
    }
    proof {
        assert(obj@.dom() =~= o0.dom().insert("tag"@));
        assert(marked_from(n0, Nbt::Object(obj), item.name@));
    }
    item.nbt = Nbt::Object(obj);
    if item.base.as_str().is_empty() {
        Err(owned("Item must have a specified base item; @item {... base: \"potion\"}"))
    } else if item.name.as_str().is_empty() {
        Err(owned("Item must have a specified name: @item {... name: \"My Item\"}"))
    } else {
        proof {
            let m = *obj_of(src);
            m.lemma_keys_listed();
            assert forall|k: Seq<char>| #[trigger] m@.contains_key(k) implies is_item_property(k) by {
                let j = choose|j: int| 0 <= j < m.seq().len() && #[trigger] m.seq()[j].0@ == k;
                assert(is_item_property(m.seq()[j].0@));
            }
            let jn = choose|j: int| 0 <= j < n && #[trigger] m.seq()[j].0@ == "name"@;
            crate::strmap::lemma_sorted_value(m.seq(), jn);
            let jb = choose|j: int| 0 <= j < n && #[trigger] m.seq()[j].0@ == "base"@;
            crate::strmap::lemma_sorted_value(m.seq(), jb);
            if m@.contains_key("recipe"@) {
                let jr = choose|j: int| 0 <= j < m.seq().len() && #[trigger] m.seq()[j].0@ == "recipe"@;
                crate::strmap::lemma_sorted_value(m.seq(), jr);
            }
            let jt = choose|j: int| 0 <= j < n && #[trigger] m.seq()[j].0@ == "nbt"@;
            crate::strmap::lemma_sorted_value(m.seq(), jt);
            assert(nbt_of(m@["nbt"@], n0, false));
            if m@.contains_key("on_use"@) {
                let j = choose|j: int| 0 <= j < m.seq().len() && #[trigger] m.seq()[j].0@ == "on_use"@;
                crate::strmap::lemma_sorted_value(m.seq(), j);
            }
            if m@.contains_key("on_consume"@) {
                let j = choose|j: int| 0 <= j < m.seq().len() && #[trigger] m.seq()[j].0@ == "on_consume"@;
                crate::strmap::lemma_sorted_value(m.seq(), j);
            }
            if m@.contains_key("while_using"@) {
                let j = choose|j: int| 0 <= j < m.seq().len() && #[trigger] m.seq()[j].0@ == "while_using"@;
                crate::strmap::lemma_sorted_value(m.seq(), j);
            }
            if m@.contains_key("while_slot"@) {
                let j = choose|j: int| 0 <= j < m.seq().len() && #[trigger] m.seq()[j].0@ == "while_slot"@;
                crate::strmap::lemma_sorted_value(m.seq(), j);
            } else {
                assert forall|j: int| 0 <= j < n implies #[trigger] m.seq()[j].0@ != "while_slot"@ by {
                    crate::strmap::lemma_sorted_value(m.seq(), j);
                }
            }
        }
        Ok(item)
    }
}

/// The map of an object syntax element.
spec fn obj_of(src: &Syntax) -> &StrMap<Syntax> {
    match src {
        Syntax::Object(m) => m,
        _ => arbitrary(),
    }
}

} // verus!
