//! Turns the intermediate representation into the text of the datapack's files.
use vstd::prelude::*;
use crate::command::{cmd_view, fmt_mc_ident, mc_ident, Command, ExecuteOption};
use crate::convert::has_prefix;
use crate::digest::hash_hex;
use crate::nbt::{display_text, json_text, push_display, Nbt};
use crate::repr::{executed_text, starts_with, CompiledRepr, InterRepr, Item, VecCmd};
use crate::strmap::StrMap;
use crate::syntax::{Selector, SelectorType};
use crate::text::{owned, push_hex, push_i32_hex, push_int};
use crate::versioning::{has_key, key_value, Versioned};

verus! {

/// The text of a function body: each command on a line of its own, each line started by a
/// line break.
pub open spec fn lines_text(cmds: Seq<Command>, ns: Seq<char>) -> Seq<char>
    decreases cmds.len(),
{
    if cmds.len() == 0 {
        seq![]
    } else {
        lines_text(cmds.drop_last(), ns) + seq!['\n'] + cmds.last().spec_text(ns)
    }
}

/// `prefix` followed by the lines of `cmds` (see `lines_text`).
pub fn function_text(prefix: &str, cmds: &Vec<Command>, namespace: &str) -> (r: String)
    ensures
        r@ == prefix@ + lines_text(cmds@, namespace@),
{
    let mut out = owned(prefix);
    let mut i: usize = 0;
    assert(cmds@.subrange(0, 0) =~= Seq::<Command>::empty());
    while i < cmds.len()
        invariant
            i <= cmds@.len(),
            out@ == prefix@ + lines_text(cmds@.subrange(0, i as int), namespace@),
        decreases cmds.len() - i,
    {
        out.push('\n');
        crate::command::push_command(&mut out, &cmds[i], namespace);
        proof {
            let t = cmds@.subrange(0, i + 1);
            assert(t.drop_last() =~= cmds@.subrange(0, i as int));
            assert(t.last() == cmds@[i as int]);
            assert(out@ =~= prefix@ + lines_text(t, namespace@));
        }
        i = i + 1;
    }
    assert(cmds@.subrange(0, cmds@.len() as int) =~= cmds@);
    out
}

/// The text of every version of a list of commands, each started by `prefix` (see
/// `function_text`).
pub fn versioned_text(prefix: &str, cmds: &VecCmd, namespace: &str) -> (r: Versioned<String>)
    requires
        cmds.wf(),
    ensures
        r.wf(),
        r.base@ == prefix@ + lines_text(cmds.base@, namespace@),
        r.mods@.len() == cmds.mods@.len(),
        forall|i: int| 0 <= i < r.mods@.len() ==> (#[trigger] r.mods@[i]).0 == cmds.mods@[i].0 && r.mods@[i].1@ == prefix@
            + lines_text(cmds.mods@[i].1@, namespace@),
{
    let base = function_text(prefix, &cmds.base, namespace);
    let mut mods: Vec<(u8, String)> = Vec::new();
    let mut i: usize = 0;
    while i < cmds.mods.len()
        invariant
            cmds.wf(),
            i <= cmds.mods@.len(),
            mods@.len() == i,
            forall|j: int| 0 <= j < i ==> (#[trigger] mods@[j]).0 == cmds.mods@[j].0 && mods@[j].1@ == prefix@ + lines_text(
                cmds.mods@[j].1@,
                namespace@,
            ),
        decreases cmds.mods.len() - i,
    {
        let t = function_text(prefix, &cmds.mods[i].1, namespace);
        mods.push((cmds.mods[i].0, t));
        i = i + 1;
    }
    let r = Versioned { base, mods };
    proof {
        assert forall|a: int, b: int| 0 <= a < b < r.mods@.len() implies #[trigger] r.mods@[a].0 < #[trigger] r.mods@[b].0 by {
            assert(cmds.mods@[a].0 < cmds.mods@[b].0);
        }
    }
    r
}

/// The text of every version of one command.
fn command_texts(cmd: &Versioned<Command>, namespace: &str) -> (r: Versioned<String>)
    requires
        cmd.wf(),
    ensures
        r.wf(),
        r.base@ == cmd.base.spec_text(namespace@),
        r.mods@.len() == cmd.mods@.len(),
        forall|i: int| 0 <= i < r.mods@.len() ==> (#[trigger] r.mods@[i]).0 == cmd.mods@[i].0 && r.mods@[i].1@
            == cmd.mods@[i].1.spec_text(namespace@),
{
    let base = cmd.base.stringify(namespace);
    let mut mods: Vec<(u8, String)> = Vec::new();
    let mut i: usize = 0;
    while i < cmd.mods.len()
        invariant
            cmd.wf(),
            i <= cmd.mods@.len(),
            mods@.len() == i,
            forall|j: int| 0 <= j < i ==> (#[trigger] mods@[j]).0 == cmd.mods@[j].0 && mods@[j].1@ == cmd.mods@[j].1.spec_text(
                namespace@,
            ),
        decreases cmd.mods.len() - i,
    {
        let t = cmd.mods[i].1.stringify(namespace);
        mods.push((cmd.mods[i].0, t));
        i = i + 1;
    }
    let r = Versioned { base, mods };
    proof {
        assert forall|a: int, b: int| 0 <= a < b < r.mods@.len() implies #[trigger] r.mods@[a].0 < #[trigger] r.mods@[b].0 by {
            assert(cmd.mods@[a].0 < cmd.mods@[b].0);
        }
    }
    r
}

/// A copy of every version of a text.
fn copy_texts(v: &Versioned<String>) -> (r: Versioned<String>)
    requires
        v.wf(),
    ensures
        r.wf(),
        r.base@ == v.base@,
        r.mods@.len() == v.mods@.len(),
        forall|i: int| 0 <= i < r.mods@.len() ==> (#[trigger] r.mods@[i]).0 == v.mods@[i].0 && r.mods@[i].1@ == v.mods@[i].1@,
{
    let mut mods: Vec<(u8, String)> = Vec::new();
    let mut i: usize = 0;
    while i < v.mods.len()
        invariant
            v.wf(),
            i <= v.mods@.len(),
            mods@.len() == i,
            forall|j: int| 0 <= j < i ==> (#[trigger] mods@[j]).0 == v.mods@[j].0 && mods@[j].1@ == v.mods@[j].1@,
        decreases v.mods.len() - i,
    {
        mods.push((v.mods[i].0, v.mods[i].1.clone()));
        i = i + 1;
    }
    let r = Versioned { base: v.base.clone(), mods };
    proof {
        assert forall|a: int, b: int| 0 <= a < b < r.mods@.len() implies #[trigger] r.mods@[a].0 < #[trigger] r.mods@[b].0 by {
            assert(v.mods@[a].0 < v.mods@[b].0);
        }
    }
    r
}

/// `prefix` before every version of a text.
fn prefixed(prefix: &str, v: &Versioned<String>) -> (r: Versioned<String>)
    requires
        v.wf(),
    ensures
        r.wf(),
        r.base@ == prefix@ + v.base@,
        r.mods@.len() == v.mods@.len(),
        forall|i: int| 0 <= i < r.mods@.len() ==> (#[trigger] r.mods@[i]).0 == v.mods@[i].0 && r.mods@[i].1@ == prefix@
            + v.mods@[i].1@,
{
    let mut base = owned(prefix);
    base.append(v.base.as_str());
    let mut mods: Vec<(u8, String)> = Vec::new();
    let mut i: usize = 0;
    while i < v.mods.len()
        invariant
            v.wf(),
            i <= v.mods@.len(),
            mods@.len() == i,
            forall|j: int| 0 <= j < i ==> (#[trigger] mods@[j]).0 == v.mods@[j].0 && mods@[j].1@ == prefix@ + v.mods@[j].1@,
        decreases v.mods.len() - i,
    {
        let mut t = owned(prefix);
        t.append(v.mods[i].1.as_str());
        mods.push((v.mods[i].0, t));
        i = i + 1;
    }
    let r = Versioned { base, mods };
    proof {
        assert forall|a: int, b: int| 0 <= a < b < r.mods@.len() implies #[trigger] r.mods@[a].0 < #[trigger] r.mods@[b].0 by {
            assert(v.mods@[a].0 < v.mods@[b].0);
        }
    }
    r
}

/// The text of the load function before any user code: a greeting, one
/// `scoreboard objectives add` per objective and one `scoreboard players set` per constant.
pub open spec fn load_text(objectives: Seq<(String, String)>, constants: Seq<i32>, ns: Seq<char>) -> Seq<char> {
    "say "@ + ns + ", a datapack created with MineScript"@ + objectives_text(objectives) + constants_text(constants)
}

/// One line per objective: `scoreboard objectives add <name> <criterion>`.
pub open spec fn objectives_text(objectives: Seq<(String, String)>) -> Seq<char>
    decreases objectives.len(),
{
    if objectives.len() == 0 {
        seq![]
    } else {
        objectives_text(objectives.drop_last()) + "\nscoreboard objectives add "@ + objectives.last().0@ + " "@
            + objectives.last().1@
    }
}

/// One line per constant: `scoreboard players set %__const__<hex> dummy <value>`.
pub open spec fn constants_text(constants: Seq<i32>) -> Seq<char>
    decreases constants.len(),
{
    if constants.len() == 0 {
        seq![]
    } else {
        constants_text(constants.drop_last()) + "\nscoreboard players set %__const__"@ + crate::text::i32_hex_text(
            constants.last(),
        ) + " dummy "@ + crate::text::int_text(constants.last() as int)
    }
}

/// The text of the load function before any user code (see `load_text`).
pub fn make_load(objectives: &StrMap<String>, constants: &Vec<i32>, namespace: &str) -> (r: String)
    ensures
        r@ == load_text(objectives.seq(), constants@, namespace@),
{
    let mut load = owned("say ");
    load.append(namespace);
    load.append(", a datapack created with MineScript");
    let ghost head = load@;
    let n = objectives.len();
    let mut i: usize = 0;
    assert(objectives.seq().subrange(0, 0) =~= Seq::<(String, String)>::empty());
    while i < n
        invariant
            n == objectives.seq().len(),
            i <= n,
            load@ == head + objectives_text(objectives.seq().subrange(0, i as int)),
        decreases n - i,
    {
        load.append("\nscoreboard objectives add ");
        load.append(objectives.key_at(i).as_str());
        load.append(" ");
        load.append(objectives.value_at(i).as_str());
        proof {
            let t = objectives.seq().subrange(0, i + 1);
            assert(t.drop_last() =~= objectives.seq().subrange(0, i as int));
            assert(t.last() == objectives.seq()[i as int]);
            assert(load@ =~= head + objectives_text(t));
        }
        i = i + 1;
    }
    assert(objectives.seq().subrange(0, n as int) =~= objectives.seq());
    let ghost mid = load@;
    let mut j: usize = 0;
    assert(constants@.subrange(0, 0) =~= Seq::<i32>::empty());
    while j < constants.len()
        invariant
            j <= constants@.len(),
            load@ == mid + constants_text(constants@.subrange(0, j as int)),
        decreases constants.len() - j,
    {
        load.append("\nscoreboard players set %__const__");
        push_i32_hex(&mut load, constants[j]);
        load.append(" dummy ");
        push_int(&mut load, constants[j] as i64);
        proof {
            let t = constants@.subrange(0, j + 1);
            assert(t.drop_last() =~= constants@.subrange(0, j as int));
            assert(t.last() == constants@[j as int]);
            assert(load@ =~= mid + constants_text(t));
        }
        j = j + 1;
    }
    assert(constants@.subrange(0, constants@.len() as int) =~= constants@);
    load
}

/// Compile the intermediate representation into file contents: the load function, the
/// items' functions and advancements, every function as text, the advancements as JSON,
/// and for each recipe its file, an advancement that detects the crafting and a function
/// that swaps the crafted knowledge book for the item.
pub fn compile(src: &mut InterRepr, namespace: &str) -> (r: Result<CompiledRepr, String>)
    requires
        old(src).wf(),
    ensures
        final(src).wf(),
        r matches Ok(c) ==> c.wf() && c.functions@.contains_key("__load__"@) && forall|k: Seq<char>| #[trigger] old(
            src,
        ).functions@.contains_key(k) ==> c.functions@.contains_key(mc_ident(k)),
        r matches Ok(c) ==> forall|k: Seq<char>| #[trigger] old(src).recipes@.contains_key(k) ==> c.recipes@.contains_key(
            mc_ident(k),
        ) && c.advancements@.contains_key("craft/"@ + mc_ident(k)) && c.functions@.contains_key("craft/"@ + mc_ident(k)),
        r matches Ok(c) ==> forall|k: Seq<char>| #[trigger] old(src).recipes@.contains_key(k) ==> crafted_by(
            c.advancements@,
            mc_ident(k),
            namespace@,
        ),
        r matches Ok(c) ==> forall|j: int| 0 <= j < old(src).items@.len() ==> gives(c.functions@, #[trigger] old(src).items@[j]),
        r matches Ok(c) ==> forall|k: Seq<char>| #[trigger] old(src).recipes@.contains_key(k) ==> crafts(
            c.functions@,
            namespace@,
            mc_ident(k),
            give_fn_name(old(src).recipes@[k].1@),
        ),
        r matches Ok(c) ==> forall|k: Seq<char>| #[trigger] old(src).advancements@.contains_key(k) ==> c.advancements@.contains_key(k),
        r matches Ok(c) ==> c.loot_tables@ == old(src).loot_tables@,
        r matches Ok(c) ==> starts_with(
            c.functions@["__load__"@].base@,
            load_text(old(src).objectives.seq(), old(src).constants@, namespace@),
        ),
        r matches Ok(c) ==> forall|j: int| 0 <= j < old(src).items@.len() ==> c.functions@.contains_key(
            #[trigger] give_fn_name(old(src).items@[j].name@),
        ),
        r is Ok ==> items_have_objects(old(src).items@),
        items_have_objects(old(src).items@) && recipes_have_items(old(src).recipes@, old(src).items@) ==> r is Ok,
        r is Ok ==> forall|k: Seq<char>| #[trigger] old(src).functions@.contains_key(k) && (forall|j: int| 0 <= j < old(src).items@.len()
            ==> k != "use/"@ + (#[trigger] old(src).items@[j]).name@) && !has_prefix(k, "__internal__/slot_"@) ==> final(src).functions@[k]
            == old(src).functions@[k],
        r matches Ok(c) ==> forall|k: Seq<char>| #[trigger] final(src).functions@.contains_key(k) && own_function(final(src).functions@, k)
            ==> c.functions@.contains_key(mc_ident(k)) && c.functions@[mc_ident(k)].base@ == lines_text(
            final(src).functions@[k].base@,
            namespace@,
        ),
        r matches Ok(c) ==> ((forall|k: Seq<char>| #[trigger] final(src).functions@.contains_key(k) ==> mc_ident(k) != "__load__"@)
            ==> c.functions@["__load__"@].base@ == load_text(old(src).objectives.seq(), old(src).constants@, namespace@)),
        old(src).items@.len() == 0 && old(src).functions@.dom() == Set::<Seq<char>>::empty() && old(src).advancements@.dom()
            == Set::<Seq<char>>::empty() && old(src).recipes@.dom() == Set::<Seq<char>>::empty() ==> (r matches Ok(c)
            && c.functions@.dom() == Set::<Seq<char>>::empty().insert("__load__"@) && c.functions@["__load__"@].mods@.len() == 0
            && c.functions@["__load__"@].base@ == load_text(old(src).objectives.seq(), old(src).constants@, namespace@)
            && c.advancements@ == Map::<Seq<char>, String>::empty() && c.recipes@ == Map::<Seq<char>, String>::empty()),
{
    proof {
        lemma_load_not_item_fn();
    }
    let mut loot = StrMap::new();
    core::mem::swap(&mut loot, &mut src.loot_tables);
    let mut compiled = CompiledRepr::new(loot);
    let load = make_load(&src.objectives, &src.constants, namespace);
    compiled.insert_fn("__load__", Versioned::from(load));
    let ghost before_items = compiled.functions@;
    assert(before_items.contains_key("__load__"@));
    assert(compiled.functions@["__load__"@].base@ == load_text(old(src).objectives.seq(), old(src).constants@, namespace@));
    let ghost snap0 = compiled;
    let ghost bare = old(src).items@.len() == 0 && old(src).functions@.dom() == Set::<Seq<char>>::empty()
        && old(src).advancements@.dom() == Set::<Seq<char>>::empty() && old(src).recipes@.dom() == Set::<Seq<char>>::empty();
    compile_items(src, namespace, &mut compiled)?;
    src.functions.facts();
    src.advancements.facts();
    src.recipes.facts();
    proof {
        if bare {
            if src.functions.seq().len() > 0 {
                crate::strmap::lemma_sorted_value(src.functions.seq(), 0);
            }
            if src.advancements.seq().len() > 0 {
                crate::strmap::lemma_sorted_value(src.advancements.seq(), 0);
            }
            if src.recipes.seq().len() > 0 {
                crate::strmap::lemma_sorted_value(src.recipes.seq(), 0);
            }
        }
    }
    let ghost mid = src.functions@;
    assert(compiled.functions@.contains_key("__load__"@));
    let ghost load0 = load_text(old(src).objectives.seq(), old(src).constants@, namespace@);
    assert(compiled.functions@["__load__"@].base@ == load0);
    // put all the functions in
    let n = src.functions.len();
    let mut i: usize = 0;
    while i < n
        invariant
            compiled.wf(),
            starts_with(compiled.functions@["__load__"@].base@, load_text(old(src).objectives.seq(), old(src).constants@, namespace@)),
            forall|j: int| 0 <= j < old(src).items@.len() ==> gives(compiled.functions@, #[trigger] old(src).items@[j]),
            forall|j: int| 0 <= j < old(src).items@.len() ==> compiled.functions@.contains_key(#[trigger] give_fn_name(old(src).items@[j].name@)),
            src.wf(),
            src.functions@ == mid,
            old(src).functions@.dom().subset_of(mid.dom()),
            src.recipes@ == old(src).recipes@,
            src.advancements@ == old(src).advancements@,
            n == src.functions.seq().len(),
            i <= n,
            compiled.functions@.contains_key("__load__"@),
            forall|j: int| 0 <= j < i ==> compiled.functions@.contains_key(#[trigger] mc_ident(src.functions.seq()[j].0@)),
            compiled.loot_tables@ == old(src).loot_tables@,
            forall|key: Seq<char>| #[trigger] compiled.functions@.contains_key(key) ==> key == "__load__"@ || item_fn_name(key) || exists|j: int|
                0 <= j < i && key == mc_ident(#[trigger] src.functions.seq()[j].0@),
            forall|j: int| 0 <= j < i && own_function(mid, #[trigger] src.functions.seq()[j].0@) ==> compiled.functions@[mc_ident(
                src.functions.seq()[j].0@,
            )].base@ == lines_text(src.functions.seq()[j].1.base@, namespace@),
            (forall|k: Seq<char>| #[trigger] mid.contains_key(k) ==> mc_ident(k) != "__load__"@) ==> compiled.functions@["__load__"@].base@
                == load0,
            bare ==> n == 0 && compiled == snap0,
        decreases n - i,
    {
        src.functions.facts();
        proof {
            crate::strmap::lemma_sorted_value(src.functions.seq(), i as int);
        }
        let name = fmt_mc_ident(src.functions.key_at(i).as_str());
        let text = versioned_text("", src.functions.value_at(i), namespace);
        let ghost ki = src.functions.seq()[i as int].0@;
        let ghost before = compiled.functions@;
        proof {
            reveal_strlit("");
            assert(""@ + lines_text(src.functions.seq()[i as int].1.base@, namespace@) =~= lines_text(
                src.functions.seq()[i as int].1.base@,
                namespace@,
            ));
            if own_function(mid, ki) {
                assert(!before.contains_key(mc_ident(ki))) by {
                    if before.contains_key(mc_ident(ki)) {
                        if exists|j: int| 0 <= j < i && mc_ident(ki) == mc_ident(#[trigger] src.functions.seq()[j].0@) {
                            let j = choose|j: int| 0 <= j < i && mc_ident(ki) == mc_ident(#[trigger] src.functions.seq()[j].0@);
                            crate::strmap::lemma_sorted_value(src.functions.seq(), j);
                            assert(mid.contains_key(src.functions.seq()[j].0@));
                            assert(src.functions.seq()[j].0@ != ki);
                        }
                    }
                }
            }
        }
        let ghost fns0 = compiled.functions@;
        compiled.insert_fn(name.as_str(), text);
        proof {
            assert forall|j: int| 0 <= j < old(src).items@.len() implies gives(compiled.functions@, #[trigger] old(src).items@[j]) by {
                lemma_gives_kept(fns0, compiled.functions@, name@, text.base@, old(src).items@[j]);
            }
            assert forall|j: int| 0 <= j < i + 1 && own_function(mid, #[trigger] src.functions.seq()[j].0@) implies compiled.functions@[mc_ident(
                src.functions.seq()[j].0@,
            )].base@ == lines_text(src.functions.seq()[j].1.base@, namespace@) by {
                if j < i {
                    crate::strmap::lemma_sorted_value(src.functions.seq(), j);
                    assert(src.functions.seq()[j].0@ != ki);
                    assert(mid.contains_key(ki));
                    assert(mc_ident(ki) != mc_ident(src.functions.seq()[j].0@));
                }
            }
            assert forall|key: Seq<char>| #[trigger] compiled.functions@.contains_key(key) implies key == "__load__"@ || item_fn_name(key)
                || exists|j: int| 0 <= j < i + 1 && key == mc_ident(#[trigger] src.functions.seq()[j].0@) by {
                if key == mc_ident(ki) {
                    assert(key == mc_ident(src.functions.seq()[i as int].0@));
                } else if !(key == "__load__"@ || item_fn_name(key)) {
                    let j = choose|j: int| 0 <= j < i && key == mc_ident(#[trigger] src.functions.seq()[j].0@);
                }
            }
        }
        i = i + 1;
    }
    let ghost fl = compiled.functions@;
    proof {
        src.functions.lemma_keys_listed();
        assert forall|k: Seq<char>| #[trigger] old(src).functions@.contains_key(k) implies compiled.functions@.contains_key(mc_ident(k)) by {
            assert(mid.contains_key(k));
            let j = choose|j: int| 0 <= j < src.functions.seq().len() && #[trigger] src.functions.seq()[j].0@ == k;
            assert(compiled.functions@.contains_key(mc_ident(src.functions.seq()[j].0@)));
        }
    }
    // put all the advancements in
    let n = src.advancements.len();
    let mut i: usize = 0;
    while i < n
        invariant
            compiled.wf(),
            starts_with(compiled.functions@["__load__"@].base@, load_text(old(src).objectives.seq(), old(src).constants@, namespace@)),
            forall|j: int| 0 <= j < old(src).items@.len() ==> gives(compiled.functions@, #[trigger] old(src).items@[j]),
            forall|j: int| 0 <= j < old(src).items@.len() ==> compiled.functions@.contains_key(#[trigger] give_fn_name(old(src).items@[j].name@)),
            src.wf(),
            n == src.advancements.seq().len(),
            i <= n,
            src.recipes@ == old(src).recipes@,
            forall|j: int| 0 <= j < i ==> compiled.advancements@.contains_key(#[trigger] src.advancements.seq()[j].0@),
            compiled.loot_tables@ == old(src).loot_tables@,
            compiled.functions@ == fl,
            src.functions@ == mid,
            bare ==> n == 0 && compiled == snap0,
            compiled.functions@.contains_key("__load__"@),
            forall|k: Seq<char>| #[trigger] old(src).functions@.contains_key(k) ==> compiled.functions@.contains_key(mc_ident(k)),
        decreases n - i,
    {
        compiled.advancements.insert(src.advancements.key_at(i).clone(), src.advancements.value_at(i).to_json());
        i = i + 1;
    }
    proof {
        src.advancements.lemma_keys_listed();
        assert forall|k: Seq<char>| #[trigger] old(src).advancements@.contains_key(k) implies compiled.advancements@.contains_key(k) by {
            let j = choose|j: int| 0 <= j < src.advancements.seq().len() && #[trigger] src.advancements.seq()[j].0@ == k;
            assert(compiled.advancements@.contains_key(src.advancements.seq()[j].0@));
        }
    }
    // make all the recipes
    let n = src.recipes.len();
    let mut i: usize = 0;
    while i < n
        invariant
            compiled.wf(),
            starts_with(compiled.functions@["__load__"@].base@, load_text(old(src).objectives.seq(), old(src).constants@, namespace@)),
            forall|j: int| 0 <= j < old(src).items@.len() ==> gives(compiled.functions@, #[trigger] old(src).items@[j]),
            forall|j: int| 0 <= j < old(src).items@.len() ==> compiled.functions@.contains_key(#[trigger] give_fn_name(old(src).items@[j].name@)),
            src.wf(),
            n == src.recipes.seq().len(),
            i <= n,
            src.recipes@ == old(src).recipes@,
            forall|j: int| 0 <= j < i ==> compiled.recipes@.contains_key(#[trigger] mc_ident(src.recipes.seq()[j].0@)),
            forall|j: int| 0 <= j < i ==> compiled.advancements@.contains_key("craft/"@ + #[trigger] mc_ident(src.recipes.seq()[j].0@))
                && compiled.functions@.contains_key("craft/"@ + mc_ident(src.recipes.seq()[j].0@)),
            forall|k: Seq<char>| #[trigger] old(src).advancements@.contains_key(k) ==> compiled.advancements@.contains_key(k),
            forall|j: int| 0 <= j < i ==> #[trigger] crafted_by(compiled.advancements@, mc_ident(src.recipes.seq()[j].0@), namespace@),
            forall|j: int| 0 <= j < i ==> #[trigger] crafts(
                compiled.functions@,
                namespace@,
                mc_ident(src.recipes.seq()[j].0@),
                give_fn_name(src.recipes.seq()[j].1.1@),
            ),
            compiled.loot_tables@ == old(src).loot_tables@,
            src.functions@ == mid,
            forall|key: Seq<char>| #[trigger] fl.contains_key(key) && !has_prefix(key, "craft/"@) ==> compiled.functions@.contains_key(key)
                && compiled.functions@[key] == fl[key],
            compiled.functions@.contains_key("__load__"@),
            forall|k: Seq<char>| #[trigger] old(src).functions@.contains_key(k) ==> compiled.functions@.contains_key(mc_ident(k)),
            bare ==> n == 0 && compiled == snap0,
        decreases n - i,
    {
        let name = fmt_mc_ident(src.recipes.key_at(i).as_str());
        let (content, item_name) = src.recipes.value_at(i);
        let item_name = fmt_mc_ident(item_name.as_str());
        compiled.recipes.insert(name.clone(), content.clone());
        let advancement = recipe_advancement(namespace, name.as_str());
        let mut craft_name = owned("craft/");
        craft_name.append(name.as_str());
        let ghost adv_before = compiled.advancements@;
        compiled.advancements.insert(craft_name.clone(), advancement.to_json());
        proof {
            assert forall|j: int| 0 <= j < i + 1 implies #[trigger] crafted_by(
                compiled.advancements@,
                mc_ident(src.recipes.seq()[j].0@),
                namespace@,
            ) by {
                let nj = mc_ident(src.recipes.seq()[j].0@);
                reveal_strlit("craft/");
                assert("craft/"@.len() == 6);
                assert(craft_name@ == "craft/"@ + name@);
                if "craft/"@ + nj == craft_name@ {
                    assert(nj =~= ("craft/"@ + nj).subrange(6, ("craft/"@ + nj).len() as int));
                    assert(name@ =~= craft_name@.subrange(6, craft_name@.len() as int));
                    assert(crafted_by(compiled.advancements@, name@, namespace@));
                } else {
                    assert(crafted_by(adv_before, nj, namespace@));
                }
            }
        }
        let mut give_name = owned("give/");
        give_name.append(item_name.as_str());
        let give_fn = match compiled.functions.get(give_name.as_str()) {
            Some(f) => copy_texts(f),
            None => {
                src.recipes.facts();
                proof {
                    crate::strmap::lemma_sorted_value(src.recipes.seq(), i as int);
                    if recipes_have_items(old(src).recipes@, old(src).items@) {
                        let k = src.recipes.seq()[i as int].0@;
                        assert(old(src).recipes@.contains_key(k));
                        let j = choose|j: int| 0 <= j < old(src).items@.len() && #[trigger] old(src).items@[j].name@ == old(src).recipes@[k].1@;
                        assert(compiled.functions@.contains_key(give_fn_name(old(src).items@[j].name@)));
                        assert(give_fn_name(old(src).items@[j].name@) == give_name@);
                    }
                }
                let mut msg = owned("No give function for the item of recipe `");
                msg.append(name.as_str());
                msg.append("`");
                return Err(msg);
            },
        };
        let mut prefix = owned("clear @s knowledge_book 1\nadvancement revoke @s only ");
        prefix.append(namespace);
        prefix.append(":craft/");
        prefix.append(name.as_str());
        prefix.append("\n");
        let craft = prefixed(prefix.as_str(), &give_fn);
        proof {
            lemma_has_prefix_concat("craft/"@, name@);
        }
        let ghost fns_before = compiled.functions@;
        let ghost gname = give_name@;
        proof {
            reveal_strlit("give/");
            reveal_strlit("craft/");
            assert(gname == give_fn_name(src.recipes.seq()[i as int].1.1@));
            assert(fns_before.contains_key(gname));
            assert(prefix@ == craft_lines(namespace@, name@));
            assert(craft.base@ == craft_lines(namespace@, name@) + fns_before[gname].base@);
        }
        compiled.insert_fn(craft_name.as_str(), craft);
        proof {
            assert forall|j: int| 0 <= j < old(src).items@.len() implies gives(compiled.functions@, #[trigger] old(src).items@[j]) by {
                lemma_gives_kept(fns_before, compiled.functions@, craft_name@, craft.base@, old(src).items@[j]);
            }
            assert forall|j: int| 0 <= j < i + 1 implies #[trigger] crafts(
                compiled.functions@,
                namespace@,
                mc_ident(src.recipes.seq()[j].0@),
                give_fn_name(src.recipes.seq()[j].1.1@),
            ) by {
                let nj = mc_ident(src.recipes.seq()[j].0@);
                let gj = give_fn_name(src.recipes.seq()[j].1.1@);
                assert("give/"@[0] != "craft/"@[0]);
                assert(gj[0] == 'g');
                assert(gj != craft_name@);
                assert(gname != craft_name@);
                if j < i {
                    assert(crafts(fns_before, namespace@, nj, gj));
                }
                assert(fns_before.contains_key(gj));
                assert(compiled.functions@[gj] == fns_before[gj]);
                if "craft/"@ + nj == craft_name@ {
                    assert(nj =~= ("craft/"@ + nj).subrange(6, ("craft/"@ + nj).len() as int));
                    assert(name@ =~= craft_name@.subrange(6, craft_name@.len() as int));
                    if j < i {
                        let (pre, post) = choose|pre: Seq<char>, post: Seq<char>| #[trigger] split_around(
                            fns_before["craft/"@ + nj].base@,
                            pre,
                            craft_lines(namespace@, nj) + fns_before[gj].base@,
                            post,
                        );
                        assert(fns_before.contains_key(craft_name@));
                        assert(compiled.functions@[craft_name@].base@ == fns_before[craft_name@].base@ + craft.base@);
                        assert(compiled.functions@["craft/"@ + nj].base@ =~= pre + (craft_lines(namespace@, nj)
                            + compiled.functions@[gj].base@) + (post + craft.base@));
                        assert(split_around(
                            compiled.functions@["craft/"@ + nj].base@,
                            pre,
                            craft_lines(namespace@, nj) + compiled.functions@[gj].base@,
                            post + craft.base@,
                        ));
                    } else {
                        let pre = if fns_before.contains_key(craft_name@) {
                            fns_before[craft_name@].base@
                        } else {
                            Seq::<char>::empty()
                        };
                        assert(split_around(
                            compiled.functions@["craft/"@ + nj].base@,
                            pre,
                            craft_lines(namespace@, nj) + compiled.functions@[gj].base@,
                            Seq::<char>::empty(),
                        ));
                    }
                } else {
                    assert(crafts(fns_before, namespace@, nj, gj));
                    let (pre, post) = choose|pre: Seq<char>, post: Seq<char>| #[trigger] split_around(
                        fns_before["craft/"@ + nj].base@,
                        pre,
                        craft_lines(namespace@, nj) + fns_before[gj].base@,
                        post,
                    );
                    assert(split_around(
                        compiled.functions@["craft/"@ + nj].base@,
                        pre,
                        craft_lines(namespace@, nj) + compiled.functions@[gj].base@,
                        post,
                    ));
                }
            }
        }
        i = i + 1;
    }
    proof {
        src.recipes.lemma_keys_listed();
        assert forall|k: Seq<char>| #[trigger] old(src).recipes@.contains_key(k) implies compiled.recipes@.contains_key(mc_ident(k))
            && compiled.advancements@.contains_key("craft/"@ + mc_ident(k)) && compiled.functions@.contains_key("craft/"@ + mc_ident(k)) by {
            let j = choose|j: int| 0 <= j < src.recipes.seq().len() && #[trigger] src.recipes.seq()[j].0@ == k;
            assert(compiled.recipes@.contains_key(mc_ident(src.recipes.seq()[j].0@)));
            assert(compiled.advancements@.contains_key("craft/"@ + mc_ident(src.recipes.seq()[j].0@)));
        }
        assert forall|k: Seq<char>| #[trigger] old(src).recipes@.contains_key(k) implies crafted_by(
            compiled.advancements@,
            mc_ident(k),
            namespace@,
        ) by {
            let j = choose|j: int| 0 <= j < src.recipes.seq().len() && #[trigger] src.recipes.seq()[j].0@ == k;
            assert(crafted_by(compiled.advancements@, mc_ident(src.recipes.seq()[j].0@), namespace@));
        }
        assert forall|k: Seq<char>| #[trigger] old(src).recipes@.contains_key(k) implies crafts(
            compiled.functions@,
            namespace@,
            mc_ident(k),
            give_fn_name(old(src).recipes@[k].1@),
        ) by {
            let j = choose|j: int| 0 <= j < src.recipes.seq().len() && #[trigger] src.recipes.seq()[j].0@ == k;
            crate::strmap::lemma_sorted_value(src.recipes.seq(), j);
            assert(crafts(compiled.functions@, namespace@, mc_ident(src.recipes.seq()[j].0@), give_fn_name(src.recipes.seq()[j].1.1@)));
        }
    }
    src.functions.facts();
    proof {
        src.functions.lemma_keys_listed();
        assert forall|k: Seq<char>| #[trigger] src.functions@.contains_key(k) && own_function(src.functions@, k) implies compiled.functions@.contains_key(
            mc_ident(k),
        ) && compiled.functions@[mc_ident(k)].base@ == lines_text(src.functions@[k].base@, namespace@) by {
            let j = choose|j: int| 0 <= j < src.functions.seq().len() && #[trigger] src.functions.seq()[j].0@ == k;
            crate::strmap::lemma_sorted_value(src.functions.seq(), j);
            assert(own_function(mid, src.functions.seq()[j].0@));
            assert(fl.contains_key(mc_ident(src.functions.seq()[j].0@)));
            assert(fl[mc_ident(k)].base@ == lines_text(src.functions.seq()[j].1.base@, namespace@));
            assert(!has_prefix(mc_ident(k), "craft/"@));
        }
    }
    Ok(compiled)
}

/// The advancement of a recipe: `{criteria: {requirement: {trigger:
/// "minecraft:recipe_crafted", conditions: {recipe_id: <recipe_id>}}}, rewards: {function:
/// <function>}}`.
pub open spec fn recipe_advancement_shape(r: Nbt, recipe_id: Seq<char>, function: Seq<char>) -> bool {
    let criteria = entry(r, "criteria"@);
    let requirement = entry(criteria, "requirement"@);
    let conditions = entry(requirement, "conditions"@);
    &&& object_with(r, set!["criteria"@, "rewards"@])
    &&& object_with(entry(r, "rewards"@), set!["function"@])
    &&& entry(entry(r, "rewards"@), "function"@) matches Nbt::String(f) && f@ == function
    &&& object_with(criteria, set!["requirement"@])
    &&& object_with(requirement, set!["trigger"@, "conditions"@])
    &&& entry(requirement, "trigger"@) matches Nbt::String(t) && t@ == "minecraft:recipe_crafted"@
    &&& object_with(conditions, set!["recipe_id"@])
    &&& entry(conditions, "recipe_id"@) matches Nbt::String(id) && id@ == recipe_id
}

/// The advancements hold, under `craft/<name>`, the JSON of an advancement that detects the
/// crafting of recipe `<ns>:<name>` and rewards it with the function `<ns>:craft/<name>`.
pub open spec fn crafted_by(advancements: Map<Seq<char>, String>, name: Seq<char>, ns: Seq<char>) -> bool {
    &&& advancements.contains_key("craft/"@ + name)
    &&& exists|a: Nbt| #[trigger] recipe_advancement_shape(a, ns + ":"@ + name, ns + ":craft/"@ + name)
        && advancements["craft/"@ + name]@ == json_text(a)
}

/// The first lines of the function run when the recipe `name` is crafted: take the
/// knowledge book, then revoke the advancement so that the recipe works again.
pub open spec fn craft_lines(ns: Seq<char>, name: Seq<char>) -> Seq<char> {
    "clear @s knowledge_book 1\nadvancement revoke @s only "@ + ns + ":craft/"@ + name + "\n"@
}

/// `whole` is `pre`, then `mid`, then `post`.
pub open spec fn split_around(whole: Seq<char>, pre: Seq<char>, mid: Seq<char>, post: Seq<char>) -> bool {
    whole == pre + mid + post
}

/// The function `craft/<name>` holds, one after the other, the crafting lines of the recipe
/// and the text of the give function `give`.
pub open spec fn crafts(fns: Map<Seq<char>, Versioned<String>>, ns: Seq<char>, name: Seq<char>, give: Seq<char>) -> bool {
    &&& fns.contains_key("craft/"@ + name)
    &&& fns.contains_key(give)
    &&& exists|pre: Seq<char>, post: Seq<char>| #[trigger] split_around(
        fns["craft/"@ + name].base@,
        pre,
        craft_lines(ns, name) + fns[give].base@,
        post,
    )
}

/// The advancement of the recipe `name`: crafting it runs `craft/<name>`.
fn recipe_advancement(namespace: &str, name: &str) -> (r: Nbt)
    ensures
        recipe_advancement_shape(r, namespace@ + ":"@ + name@, namespace@ + ":craft/"@ + name@),
{
    proof {
        reveal_strlit("criteria");
        reveal_strlit("rewards");
        reveal_strlit("requirement");
        reveal_strlit("trigger");
        reveal_strlit("conditions");
        reveal_strlit("recipe_id");
        reveal_strlit("function");
    }
    let mut recipe_id = owned(namespace);
    recipe_id.append(":");
    recipe_id.append(name);
    let mut reward = owned(namespace);
    reward.append(":craft/");
    reward.append(name);
    let cond = object("recipe_id", Nbt::String(recipe_id));
    assert(entries_of(cond).dom() =~= set!["recipe_id"@]);
    assert("trigger"@[0] != "conditions"@[0]);
    let requirement = object2("trigger", Nbt::String(owned("minecraft:recipe_crafted")), "conditions", cond);
    assert(entries_of(requirement).dom() =~= set!["trigger"@, "conditions"@]);
    let criteria = object("requirement", requirement);
    assert(entries_of(criteria).dom() =~= set!["requirement"@]);
    let rewards = object("function", Nbt::String(reward));
    assert(entries_of(rewards).dom() =~= set!["function"@]);
    assert("criteria"@[0] != "rewards"@[0]);
    let r = with_key(object("criteria", criteria), "rewards", rewards);
    assert(entries_of(r).dom() =~= set!["criteria"@, "rewards"@]);
    r
}

/// `{key: value}` as NBT.
fn object(key: &str, value: Nbt) -> (r: Nbt)
    ensures
        r matches Nbt::Object(m) && m@ == Map::<Seq<char>, Nbt>::empty().insert(key@, value),
{
    let mut m = StrMap::new();
    m.insert(owned(key), value);
    Nbt::Object(m)
}

/// `{k1: v1, k2: v2}` as NBT.
fn object2(k1: &str, v1: Nbt, k2: &str, v2: Nbt) -> (r: Nbt)
    ensures
        r matches Nbt::Object(m) && m@ == Map::<Seq<char>, Nbt>::empty().insert(k1@, v1).insert(k2@, v2),
{
    let mut m = StrMap::new();
    m.insert(owned(k1), v1);
    m.insert(owned(k2), v2);
    Nbt::Object(m)
}

/// The object `obj` with `key` set to `value` (other values are left as they are).
fn with_key(obj: Nbt, key: &str, value: Nbt) -> (r: Nbt)
    ensures
        r matches Nbt::Object(m) && m@ == (match obj {
            Nbt::Object(o) => o@,
            _ => Map::<Seq<char>, Nbt>::empty(),
        }).insert(key@, value),
{
    match obj {
        Nbt::Object(mut m) => {
            m.insert(owned(key), value);
            Nbt::Object(m)
        },
        _ => object(key, value),
    }
}

/// `["minecraft:<base>"]`, the item list of an item condition.
fn item_list(base: &String) -> (r: Nbt)
    ensures
        r matches Nbt::Array(v) && v@.len() == 1 && (v@[0] matches Nbt::String(id) && id@ == "minecraft:"@ + base@),
{
    let mut id = owned("minecraft:");
    id.append(base.as_str());
    Nbt::Array(vec![Nbt::String(id)])
}

/// The hexadecimal digits of a slot number as an 8-bit value.
fn push_slot_hex(out: &mut String, slot: i8)
    ensures
        final(out)@ == old(out)@ + crate::text::hex_text((if slot < 0 { slot + 256 } else { slot as int }) as nat),
{
    let bits: u64 = if slot < 0 { (slot as i64 + 256) as u64 } else { slot as u64 };
    push_hex(out, bits);
}

/// The name of the function that gives the item `name`: `give/` and the name as a
/// function identifier.
pub open spec fn give_fn_name(name: Seq<char>) -> Seq<char> {
    "give/"@ + mc_ident(name)
}

/// The name of a function that compiling the items makes: `__tick__`, `give/...`,
/// `consume/...` or `using/...`.
pub open spec fn item_fn_name(k: Seq<char>) -> bool {
    k == "__tick__"@ || has_prefix(k, "give/"@) || has_prefix(k, "consume/"@) || has_prefix(k, "using/"@)
}

/// The name of a function that compiling makes by itself: `__load__`, an item function, or
/// `craft/...`.
pub open spec fn generated_fn_name(k: Seq<char>) -> bool {
    k == "__load__"@ || item_fn_name(k) || has_prefix(k, "craft/"@)
}

/// The program function `k` compiles to a function of its own: its name as a function
/// identifier is no generated name and no other program function's.
pub open spec fn own_function(fns: Map<Seq<char>, VecCmd>, k: Seq<char>) -> bool {
    !generated_fn_name(mc_ident(k)) && forall|k2: Seq<char>| #[trigger] fns.contains_key(k2) && k2 != k ==> mc_ident(k2) != mc_ident(k)
}

/// `__load__` and the names of item functions and of craft functions are told apart.
proof fn lemma_load_not_item_fn()
    ensures
        !item_fn_name("__load__"@),
        !has_prefix("__load__"@, "craft/"@),
{
    reveal_strlit("__load__");
    reveal_strlit("__tick__");
    reveal_strlit("give/");
    reveal_strlit("consume/");
    reveal_strlit("using/");
    reveal_strlit("craft/");
    assert("__load__"@[2] != "__tick__"@[2]);
    assert("__load__"@.subrange(0, 5)[0] != "give/"@[0]);
    assert("__load__"@.subrange(0, 8)[0] != "consume/"@[0]);
    assert("__load__"@.subrange(0, 6)[0] != "using/"@[0]);
    assert("__load__"@.subrange(0, 6)[0] != "craft/"@[0]);
}

/// `p + x` begins with `p`.
proof fn lemma_has_prefix_concat(p: Seq<char>, x: Seq<char>)
    ensures
        has_prefix(p + x, p),
{
    assert((p + x).subrange(0, p.len() as int) =~= p);
}

/// Every item's NBT is an object.
pub open spec fn items_have_objects(items: Seq<Item>) -> bool {
    forall|j: int| 0 <= j < items.len() ==> (#[trigger] items[j]).nbt is Object
}

/// The item of every recipe is one of `items`, by name.
pub open spec fn recipes_have_items(recipes: Map<Seq<char>, (String, String)>, items: Seq<Item>) -> bool {
    forall|k: Seq<char>| #[trigger] recipes.contains_key(k) ==> exists|j: int| 0 <= j < items.len() && #[trigger] items[j].name@ == recipes[k].1@
}

/// Compile the items: a give function for each, the functions and advancements that run
/// its events, and the tick function that checks use and inventory slots.
fn compile_items(src: &mut InterRepr, namespace: &str, compiled: &mut CompiledRepr) -> (r: Result<(), String>)
    requires
        old(src).wf(),
        old(compiled).wf(),
    ensures
        final(src).wf(),
        final(compiled).wf(),
        final(compiled).grows_from(*old(compiled)),
        old(src).functions@.dom().subset_of(final(src).functions@.dom()),
        forall|k: Seq<char>| #[trigger] final(src).functions@.contains_key(k) ==> old(src).functions@.contains_key(k) || (exists|j: int|
            0 <= j < old(src).items@.len() && k == "use/"@ + (#[trigger] old(src).items@[j]).name@) || has_prefix(k, "__internal__/slot_"@),
        forall|k: Seq<char>| #[trigger] old(src).functions@.contains_key(k) && (forall|j: int| 0 <= j < old(src).items@.len() ==> k
            != "use/"@ + (#[trigger] old(src).items@[j]).name@) && !has_prefix(k, "__internal__/slot_"@) ==> final(src).functions@[k]
            == old(src).functions@[k],
        forall|k: Seq<char>| #[trigger] old(compiled).functions@.contains_key(k) ==> final(compiled).functions@.contains_key(k),
        final(src).objectives@ == old(src).objectives@,
        final(src).recipes@ == old(src).recipes@,
        final(src).advancements@ == old(src).advancements@,
        final(compiled).loot_tables@ == old(compiled).loot_tables@,
        r is Ok ==> forall|j: int| 0 <= j < old(src).items@.len() ==> final(compiled).functions@.contains_key(
            #[trigger] give_fn_name(old(src).items@[j].name@),
        ),
        r is Ok <==> items_have_objects(old(src).items@),
        r is Ok ==> forall|j: int| 0 <= j < old(src).items@.len() ==> gives(final(compiled).functions@, #[trigger] old(src).items@[j]),
        forall|k: Seq<char>| #[trigger] final(compiled).functions@.contains_key(k) ==> old(compiled).functions@.contains_key(k)
            || item_fn_name(k),
        forall|k: Seq<char>| #[trigger] old(compiled).functions@.contains_key(k) && !item_fn_name(k) ==> final(compiled).functions@[k]
            == old(compiled).functions@[k],
        old(src).items@.len() == 0 ==> *final(compiled) == *old(compiled) && final(src).functions@ == old(src).functions@ && r is Ok,
{
    let mut tick_buf: Versioned<String> = Versioned::default();
    let mut using_base_item_scores: StrMap<bool> = StrMap::new();
    let mut items: Vec<Item> = Vec::new();
    core::mem::swap(&mut items, &mut src.items);
    let mut i: usize = 0;
    while i < items.len()
        invariant
            src.wf(),
            compiled.wf(),
            compiled.grows_from(*old(compiled)),
            tick_buf.wf(),
            i <= items@.len(),
            forall|j: int| 0 <= j < items@.len() ==> (#[trigger] items@[j]).wf(),
            src.items@.len() == 0,
            src.objectives@ == old(src).objectives@,
            src.recipes@ == old(src).recipes@,
            src.advancements@ == old(src).advancements@,
            old(src).functions@.dom().subset_of(src.functions@.dom()),
            forall|k: Seq<char>| #[trigger] src.functions@.contains_key(k) ==> old(src).functions@.contains_key(k) || (exists|j: int|
                0 <= j < i && k == "use/"@ + (#[trigger] items@[j]).name@) || has_prefix(k, "__internal__/slot_"@),
            forall|k: Seq<char>| #[trigger] old(src).functions@.contains_key(k) && (forall|j: int| 0 <= j < i ==> k != "use/"@
                + (#[trigger] items@[j]).name@) && !has_prefix(k, "__internal__/slot_"@) ==> src.functions@[k] == old(src).functions@[k],
            forall|k: Seq<char>| #[trigger] old(compiled).functions@.contains_key(k) ==> compiled.functions@.contains_key(k),
            compiled.loot_tables@ == old(compiled).loot_tables@,
            items@ == old(src).items@,
            forall|j: int| 0 <= j < i ==> compiled.functions@.contains_key(#[trigger] give_fn_name(items@[j].name@)),
            forall|j: int| 0 <= j < i ==> gives(compiled.functions@, #[trigger] items@[j]),
            forall|j: int| 0 <= j < i ==> (#[trigger] items@[j]).nbt is Object,
            forall|k: Seq<char>| #[trigger] compiled.functions@.contains_key(k) ==> old(compiled).functions@.contains_key(k) || item_fn_name(k),
            forall|k: Seq<char>| #[trigger] old(compiled).functions@.contains_key(k) && !item_fn_name(k) ==> compiled.functions@[k] == old(compiled).functions@[k],
            items@.len() == 0 ==> *compiled == *old(compiled) && src.functions@ == old(src).functions@ && tick_buf.base@.len() == 0
                && using_base_item_scores.seq().len() == 0,
        decreases items.len() - i,
    {
        let item = &items[i];
        let ident = fmt_mc_ident(item.name.as_str());
        let mut give_obj = match &item.nbt {
            Nbt::Object(obj) => copy_object(obj),
            other => {
                let mut msg = owned("Expected NBT object; got ");
                push_display(&mut msg, other);
                assert(!(items@[i as int].nbt is Object));
                return Err(msg);
            },
        };
        let mut display_name = owned("{\\\"text\\\":\\\"");
        display_name.append(item.name.as_str());
        display_name.append("\\\",\\\"italic\\\":\\\"false\\\"}");
        let ghost obj0 = give_obj@;
        give_obj.insert(owned("display"), object("Name", Nbt::String(display_name)));
        proof {
            reveal_strlit("display");
            reveal_strlit("Name");
            let o = items@[i as int].nbt->Object_0;
            assert(give_obj@.dom() =~= o@.dom().insert("display"@));
            assert(entries_of(give_obj@["display"@]).dom() =~= set!["Name"@]);
            assert(give_nbt(items@[i as int], give_obj));
        }
        let ghost g0 = give_obj;
        // make the give function
        let mut give = owned("give @s minecraft:");
        give.append(item.base.as_str());
        push_display(&mut give, &Nbt::Object(give_obj));
        assert(give@ == give_command_text(items@[i as int], g0));
        let ghost fns_before_give = compiled.functions@;
        let mut give_name = owned("give/");
        give_name.append(ident.as_str());
        proof {
            lemma_has_prefix_concat("give/"@, ident@);
            lemma_has_prefix_concat("consume/"@, item.name@);
            lemma_has_prefix_concat("using/"@, item.name@);
        }
        compiled.insert_fn(give_name.as_str(), Versioned::from(give));
        assert(compiled.functions@.contains_key(give_fn_name(items@[i as int].name@)));
        proof {
            assert(give_name@ == give_fn_name(items@[i as int].name@));
            assert forall|j: int| 0 <= j < i + 1 implies gives(compiled.functions@, #[trigger] items@[j]) by {
                let gj = give_fn_name(items@[j].name@);
                if gj == give_name@ {
                    if j < i {
                        assert(gives(fns_before_give, items@[j]));
                        let (pre, post, g) = choose|pre: Seq<char>, post: Seq<char>, g: StrMap<Nbt>|
                            #![trigger split_around(fns_before_give[gj].base@, pre, give_command_text(items@[j], g), post)]
                            give_nbt(items@[j], g) && split_around(fns_before_give[gj].base@, pre, give_command_text(items@[j], g), post);
                        assert(compiled.functions@[gj].base@ =~= pre + give_command_text(items@[j], g) + (post + give@));
                        assert(split_around(compiled.functions@[gj].base@, pre, give_command_text(items@[j], g), post + give@));
                    } else {
                        let pre = if fns_before_give.contains_key(gj) {
                            fns_before_give[gj].base@
                        } else {
                            Seq::<char>::empty()
                        };
                        assert(compiled.functions@[gj].base@ =~= pre + give_command_text(items@[j], g0) + Seq::<char>::empty());
                        assert(split_around(compiled.functions@[gj].base@, pre, give_command_text(items@[j], g0), Seq::<char>::empty()));
                    }
                } else {
                    assert(gives(fns_before_give, items@[j]));
                    assert(compiled.functions@[gj] == fns_before_give[gj]);
                    let (pre, post, g) = choose|pre: Seq<char>, post: Seq<char>, g: StrMap<Nbt>|
                        #![trigger split_around(fns_before_give[gj].base@, pre, give_command_text(items@[j], g), post)]
                        give_nbt(items@[j], g) && split_around(fns_before_give[gj].base@, pre, give_command_text(items@[j], g), post);
                    assert(split_around(compiled.functions@[gj].base@, pre, give_command_text(items@[j], g), post));
                }
            }
        }
        let ghost fns_given = compiled.functions@;
        // make the consume function
        if !item.on_consume.is_empty() {
            make_on_consume(item, ident.as_str(), namespace, compiled);
        }
        // make the use function
        if !item.on_use.is_empty() {
            make_on_use(item, ident.as_str(), &mut tick_buf, namespace, &mut using_base_item_scores, src);
        }
        // make the while_using function
        if !item.while_using.is_empty() {
            make_while_using(item, ident.as_str(), namespace, compiled);
        }
        proof {
            reveal_strlit("give/");
            reveal_strlit("consume/");
            reveal_strlit("using/");
            assert forall|j: int| 0 <= j < i + 1 implies gives(compiled.functions@, #[trigger] items@[j]) by {
                let gj = give_fn_name(items@[j].name@);
                assert(gj[0] == 'g');
                assert(("consume/"@ + item.name@)[0] == 'c');
                assert(("using/"@ + item.name@)[0] == 'u');
                assert(gives(fns_given, items@[j]));
                assert(compiled.functions@[gj] == fns_given[gj]);
                let (pre, post, g) = choose|pre: Seq<char>, post: Seq<char>, g: StrMap<Nbt>|
                    #![trigger split_around(fns_given[gj].base@, pre, give_command_text(items@[j], g), post)]
                    give_nbt(items@[j], g) && split_around(fns_given[gj].base@, pre, give_command_text(items@[j], g), post);
                assert(split_around(compiled.functions@[gj].base@, pre, give_command_text(items@[j], g), post));
            }
        }
        let ghost fns_slots = compiled.functions@;
        // make the slot checks
        let mut j: usize = 0;
        while j < item.slot_checks.len()
            invariant
                compiled.functions@ == fns_slots,
                src.wf(),
                compiled.wf(),
                compiled.grows_from(*old(compiled)),
                tick_buf.wf(),
                item.wf(),
                j <= item.slot_checks@.len(),
                src.items@.len() == 0,
                src.objectives@ == old(src).objectives@,
                src.recipes@ == old(src).recipes@,
                src.advancements@ == old(src).advancements@,
                old(src).functions@.dom().subset_of(src.functions@.dom()),
                forall|k: Seq<char>| #[trigger] src.functions@.contains_key(k) ==> old(src).functions@.contains_key(k) || (exists|j: int|
                    0 <= j < i + 1 && k == "use/"@ + (#[trigger] items@[j]).name@) || has_prefix(k, "__internal__/slot_"@),
                forall|k: Seq<char>| #[trigger] old(src).functions@.contains_key(k) && (forall|j: int| 0 <= j < i + 1 ==> k != "use/"@
                    + (#[trigger] items@[j]).name@) && !has_prefix(k, "__internal__/slot_"@) ==> src.functions@[k] == old(src).functions@[k],
                forall|k: Seq<char>| #[trigger] old(compiled).functions@.contains_key(k) ==> compiled.functions@.contains_key(k),
                compiled.loot_tables@ == old(compiled).loot_tables@,
                    forall|k: Seq<char>| #[trigger] compiled.functions@.contains_key(k) ==> old(compiled).functions@.contains_key(k) || item_fn_name(k),
                forall|k: Seq<char>| #[trigger] old(compiled).functions@.contains_key(k) && !item_fn_name(k) ==> compiled.functions@[k] == old(compiled).functions@[k],
            decreases item.slot_checks.len() - j,
        {
            let (slot, fn_content) = &item.slot_checks[j];
            let mut slot_obj = StrMap::new();
            slot_obj.insert(owned("slot"), Nbt::Integer(*slot as i32));
            slot_obj.insert(owned("tag"), item.nbt.copy());
            let inventory = object("Inventory", Nbt::Array(vec![Nbt::Object(slot_obj)]));
            let selector = Selector::a().with_property(owned("nbt"), inventory.to_text());
            let options = vec![ExecuteOption::As(selector), ExecuteOption::At(Selector::s())];
            let mut hash = owned("__internal__/slot_");
            let ghost hash0 = hash@;
            push_slot_hex(&mut hash, *slot);
            hash.append("_");
            let content_text = versioned_text("", fn_content, namespace);
            let h = hash_hex(content_text.base.as_str());
            hash.append(h.as_str());
            let content = crate::interpreter::block::copy_cmds(fn_content);
            proof {
                lemma_has_prefix_concat(hash0, hash@.subrange(hash0.len() as int, hash@.len() as int));
                assert(hash0 + hash@.subrange(hash0.len() as int, hash@.len() as int) =~= hash@);
            }
            let cmd = Command::execute(&options, content, hash.as_str(), src);
            tick_buf.push('\n');
            tick_buf.push_str_v(command_texts(&cmd, namespace));
            j = j + 1;
        }
        i = i + 1;
    }
    proof {
        assert forall|j: int| 0 <= j < old(src).items@.len() implies gives(compiled.functions@, #[trigger] old(src).items@[j]) by {
            assert(gives(compiled.functions@, items@[j]));
        }
    }
    let ghost fns_done = compiled.functions@;
    core::mem::swap(&mut items, &mut src.items);
    let n = using_base_item_scores.len();
    let mut k: usize = 0;
    let ghost tick0 = tick_buf.base@;
    while k < n
        invariant
            compiled.functions@ == fns_done,
            n == using_base_item_scores.seq().len(),
            k <= n,
            tick_buf.wf(),
            n == 0 ==> tick_buf.base@ == tick0,
        decreases n - k,
    {
        tick_buf.push_str("\nscoreboard players reset @a ");
        tick_buf.push_str(using_base_item_scores.key_at(k).as_str());
        tick_buf.push_str("\n");
        k = k + 1;
    }
    let ghost fns_items = compiled.functions@;
    if !tick_buf.is_empty() {
        compiled.insert_fn("__tick__", tick_buf);
    }
    assert(item_fn_name("__tick__"@));
    proof {
        reveal_strlit("__tick__");
        reveal_strlit("give/");
        assert forall|j: int| 0 <= j < old(src).items@.len() implies gives(compiled.functions@, #[trigger] old(src).items@[j]) by {
            let it = old(src).items@[j];
            let gj = give_fn_name(it.name@);
            assert(gj[0] == 'g');
            assert("__tick__"@[0] == '_');
            assert(gives(fns_items, it));
            assert(compiled.functions@[gj] == fns_items[gj]);
            let (pre, post, g) = choose|pre: Seq<char>, post: Seq<char>, g: StrMap<Nbt>|
                #![trigger split_around(fns_items[gj].base@, pre, give_command_text(it, g), post)]
                give_nbt(it, g) && split_around(fns_items[gj].base@, pre, give_command_text(it, g), post);
            assert(split_around(compiled.functions@[gj].base@, pre, give_command_text(it, g), post));
        }
    }
    Ok(())
}

/// A copy of an NBT object's entries.
fn copy_object(obj: &StrMap<Nbt>) -> (r: StrMap<Nbt>)
    ensures
        r.seq().len() == obj.seq().len(),
        forall|j: int| 0 <= j < r.seq().len() ==> #[trigger] r.seq()[j].0@ == obj.seq()[j].0@ && display_text(r.seq()[j].1)
            == display_text(obj.seq()[j].1) && json_text(r.seq()[j].1) == json_text(obj.seq()[j].1),
        display_text(Nbt::Object(r)) == display_text(Nbt::Object(*obj)),
        json_text(Nbt::Object(r)) == json_text(Nbt::Object(*obj)),
        r@.dom() == obj@.dom(),
        forall|k: Seq<char>| #[trigger] obj@.contains_key(k) ==> display_text(r@[k]) == display_text(obj@[k]),
{
    obj.facts();
    let mut out = StrMap::new();
    let n = obj.len();
    let mut i: usize = 0;
    while i < n
        invariant
            n == obj.seq().len(),
            i <= n,
            crate::strmap::keys_sorted(obj.seq()),
            out.seq().len() == i,
            forall|j: int| 0 <= j < i ==> #[trigger] out.seq()[j].0@ == obj.seq()[j].0@ && display_text(out.seq()[j].1)
                == display_text(obj.seq()[j].1) && json_text(out.seq()[j].1) == json_text(obj.seq()[j].1),
        decreases n - i,
    {
        proof {
            assert forall|j: int| 0 <= j < out.seq().len() implies crate::strmap::str_lt(
                #[trigger] out.seq()[j].0@,
                obj.seq()[i as int].0@,
            ) by {
                assert(crate::strmap::str_lt(obj.seq()[j].0@, obj.seq()[i as int].0@));
            }
        }
        let v = obj.value_at(i).copy();
        let ghost prev = out.seq();
        out.insert(obj.key_at(i).clone(), v);
        proof {
            assert forall|j: int| 0 <= j < i + 1 implies #[trigger] out.seq()[j].0@ == obj.seq()[j].0@ && display_text(
                out.seq()[j].1,
            ) == display_text(obj.seq()[j].1) && json_text(out.seq()[j].1) == json_text(obj.seq()[j].1) by {
                if j < i {
                    assert(out.seq()[j] == prev[j]);
                }
            }
        }
        i = i + 1;
    }
    out.facts();
    proof {
        crate::nbt::lemma_entries_same_text(out, *obj, n as int);
        out.lemma_keys_listed();
        obj.lemma_keys_listed();
        assert forall|k: Seq<char>| #[trigger] obj@.contains_key(k) implies out@.contains_key(k) && display_text(out@[k])
            == display_text(obj@[k]) by {
            let j = choose|j: int| 0 <= j < obj.seq().len() && #[trigger] obj.seq()[j].0@ == k;
            crate::strmap::lemma_sorted_value(obj.seq(), j);
            crate::strmap::lemma_sorted_value(out.seq(), j);
        }
        assert forall|k: Seq<char>| #[trigger] out@.contains_key(k) implies obj@.contains_key(k) by {
            let j = choose|j: int| 0 <= j < out.seq().len() && #[trigger] out.seq()[j].0@ == k;
            crate::strmap::lemma_sorted_value(obj.seq(), j);
        }
        assert(out@.dom() =~= obj@.dom());
    }
    out
}

/// The text an item's name is shown with: `{"text":"<name>","italic":"false"}`, its quotes
/// escaped for the give command.
pub open spec fn display_name_text(name: Seq<char>) -> Seq<char> {
    "{\\\"text\\\":\\\""@ + name + "\\\",\\\"italic\\\":\\\"false\\\"}"@
}

/// `g` is the NBT an item is given with: the item's NBT entries (by their text) and a
/// `display` object whose `Name` is the item's display name.
pub open spec fn give_nbt(item: Item, g: StrMap<Nbt>) -> bool {
    &&& item.nbt matches Nbt::Object(o) && g@.dom() == o@.dom().insert("display"@) && forall|k: Seq<char>| #[trigger] o@.contains_key(k)
        && k != "display"@ ==> display_text(g@[k]) == display_text(o@[k])
    &&& entries_of(g@["display"@]).dom() == set!["Name"@]
    &&& entry(g@["display"@], "Name"@) matches Nbt::String(t) && t@ == display_name_text(item.name@)
}

/// The command that gives the item with the NBT `g`.
pub open spec fn give_command_text(item: Item, g: StrMap<Nbt>) -> Seq<char> {
    "give @s minecraft:"@ + item.base@ + display_text(Nbt::Object(g))
}

/// The give function of the item holds the command that gives it.
pub open spec fn gives(fns: Map<Seq<char>, Versioned<String>>, item: Item) -> bool {
    &&& fns.contains_key(give_fn_name(item.name@))
    &&& exists|pre: Seq<char>, post: Seq<char>, g: StrMap<Nbt>|
        #![trigger split_around(fns[give_fn_name(item.name@)].base@, pre, give_command_text(item, g), post)]
        give_nbt(item, g) && split_around(fns[give_fn_name(item.name@)].base@, pre, give_command_text(item, g), post)
}

/// Adding text to a function keeps every item's give command where it was.
proof fn lemma_gives_kept(
    before: Map<Seq<char>, Versioned<String>>,
    after: Map<Seq<char>, Versioned<String>>,
    name: Seq<char>,
    added: Seq<char>,
    item: Item,
)
    requires
        gives(before, item),
        forall|k: Seq<char>| k != name && #[trigger] before.contains_key(k) ==> after.contains_key(k) && after[k] == before[k],
        after.contains_key(name),
        before.contains_key(name) ==> after[name].base@ == before[name].base@ + added,
    ensures
        gives(after, item),
{
    let gj = give_fn_name(item.name@);
    let (pre, post, g) = choose|pre: Seq<char>, post: Seq<char>, g: StrMap<Nbt>|
        #![trigger split_around(before[gj].base@, pre, give_command_text(item, g), post)]
        give_nbt(item, g) && split_around(before[gj].base@, pre, give_command_text(item, g), post);
    if gj == name {
        assert(after[gj].base@ =~= pre + give_command_text(item, g) + (post + added));
        assert(split_around(after[gj].base@, pre, give_command_text(item, g), post + added));
    } else {
        assert(split_around(after[gj].base@, pre, give_command_text(item, g), post));
    }
}

/// The entries of an NBT object (none for any other value).
pub open spec fn entries_of(n: Nbt) -> Map<Seq<char>, Nbt> {
    match n {
        Nbt::Object(m) => m@,
        _ => Map::empty(),
    }
}

/// The value under `k` in an NBT object.
pub open spec fn entry(n: Nbt, k: Seq<char>) -> Nbt {
    entries_of(n)[k]
}

/// `n` is an object with exactly the keys `ks`.
pub open spec fn object_with(n: Nbt, ks: Set<Seq<char>>) -> bool {
    n is Object && entries_of(n).dom() == ks
}

/// The shape of an item advancement: `{criteria: {requirement: {trigger: <trigger>,
/// conditions: {item: {items: ["minecraft:<base>"], nbt: <nbt>}}}}, rewards: {function:
/// <function>}}`.
pub open spec fn item_advancement_shape(r: Nbt, base: Seq<char>, trigger: Seq<char>, nbt: Nbt, function: Seq<char>) -> bool {
    let criteria = entry(r, "criteria"@);
    let requirement = entry(criteria, "requirement"@);
    let conditions = entry(requirement, "conditions"@);
    let item = entry(conditions, "item"@);
    &&& object_with(r, set!["criteria"@, "rewards"@])
    &&& object_with(entry(r, "rewards"@), set!["function"@])
    &&& entry(entry(r, "rewards"@), "function"@) matches Nbt::String(f) && f@ == function
    &&& object_with(criteria, set!["requirement"@])
    &&& object_with(requirement, set!["trigger"@, "conditions"@])
    &&& entry(requirement, "trigger"@) matches Nbt::String(t) && t@ == trigger
    &&& object_with(conditions, set!["item"@])
    &&& object_with(item, set!["items"@, "nbt"@])
    &&& entry(item, "nbt"@) == nbt
    &&& entry(item, "items"@) matches Nbt::Array(v) && v@.len() == 1 && (v@[0] matches Nbt::String(id) && id@ == "minecraft:"@ + base)
}

/// The advancement that detects `trigger` on the item, rewarding with `function`.
fn item_advancement(item: &Item, trigger: &str, nbt: Nbt, function: String) -> (r: Nbt)
    ensures
        item_advancement_shape(r, item.base@, trigger@, nbt, function@),
{
    proof {
        reveal_strlit("criteria");
        reveal_strlit("rewards");
        reveal_strlit("requirement");
        reveal_strlit("trigger");
        reveal_strlit("conditions");
        reveal_strlit("items");
        reveal_strlit("nbt");
        reveal_strlit("item");
        reveal_strlit("function");
    }
    let ghost nbt0 = nbt;
    let ghost f0 = function@;
    let list = item_list(&item.base);
    assert("items"@[0] != "nbt"@[0]);
    let item_cond = object2("items", list, "nbt", nbt);
    assert(entries_of(item_cond).dom() =~= set!["items"@, "nbt"@]);
    assert(entry(item_cond, "nbt"@) == nbt0);
    assert(entry(item_cond, "items"@) == list);
    let cond = object("item", item_cond);
    assert(entries_of(cond).dom() =~= set!["item"@]);
    assert(entry(cond, "item"@) == item_cond);
    let trig = Nbt::String(owned(trigger));
    assert("trigger"@[0] != "conditions"@[0]);
    let requirement = object2("trigger", trig, "conditions", cond);
    assert(entries_of(requirement).dom() =~= set!["trigger"@, "conditions"@]);
    assert(entry(requirement, "trigger"@) == trig);
    assert(entry(requirement, "conditions"@) == cond);
    let criteria = object("requirement", requirement);
    assert(entries_of(criteria).dom() =~= set!["requirement"@]);
    assert(entry(criteria, "requirement"@) == requirement);
    let fun = Nbt::String(function);
    let rewards = object("function", fun);
    assert(entries_of(rewards).dom() =~= set!["function"@]);
    assert(entry(rewards, "function"@) == fun);
    assert("criteria"@[0] != "rewards"@[0]);
    let r = object2("criteria", criteria, "rewards", rewards);
    assert(entries_of(r).dom() =~= set!["criteria"@, "rewards"@]);
    assert(entry(r, "criteria"@) == criteria);
    assert(entry(r, "rewards"@) == rewards);
    r
}

/// `after` is `before` with the text under `k` set to `t`.
pub open spec fn text_inserted(before: Map<Seq<char>, String>, after: Map<Seq<char>, String>, k: Seq<char>, t: Seq<char>) -> bool {
    &&& after.dom() == before.dom().insert(k)
    &&& after[k]@ == t
    &&& forall|k2: Seq<char>| k2 != k && #[trigger] before.contains_key(k2) ==> after[k2] == before[k2]
}

/// The function `name` after text `t` was added to it: `t` alone if it did not exist,
/// else appended to its base text.
pub open spec fn added_text(before: CompiledRepr, after: CompiledRepr, name: Seq<char>, t: Seq<char>) -> bool {
    &&& after.functions@.contains_key(name)
    &&& after.functions@[name].base@ == (if before.functions@.contains_key(name) {
        before.functions@[name].base@
    } else {
        Seq::<char>::empty()
    }) + t
}

/// The consume function of an item and the advancement that triggers it.
fn make_on_consume(item: &Item, ident: &str, namespace: &str, compiled: &mut CompiledRepr)
    requires
        old(compiled).wf(),
        item.wf(),
    ensures
        final(compiled).wf(),
        final(compiled).grows_from(*old(compiled)),
        forall|k: Seq<char>| #[trigger] old(compiled).functions@.contains_key(k) ==> final(compiled).functions@.contains_key(k),
        final(compiled).loot_tables@ == old(compiled).loot_tables@,
        final(compiled).functions@.dom() == old(compiled).functions@.dom().insert("consume/"@ + item.name@),
        forall|k: Seq<char>| k != "consume/"@ + item.name@ && #[trigger] old(compiled).functions@.contains_key(k)
            ==> final(compiled).functions@[k] == old(compiled).functions@[k],
        added_text(
            *old(compiled),
            *final(compiled),
            "consume/"@ + item.name@,
            "advancement revoke @s only "@ + namespace@ + ":consume/"@ + ident@ + lines_text(item.on_consume.base@, namespace@),
        ),
        exists|a: Nbt, n: Nbt|
            #![trigger item_advancement_shape(a, item.base@, "minecraft:consume_item"@, n, namespace@ + ":consume/"@ + item.name@)]
            item_advancement_shape(a, item.base@, "minecraft:consume_item"@, n, namespace@ + ":consume/"@ + item.name@)
                && (n matches Nbt::String(j) && j@ == json_text(item.nbt))
                && text_inserted(old(compiled).advancements@, final(compiled).advancements@, "consume/"@ + ident@, json_text(a)),
{
    let mut on_consume = owned("consume/");
    on_consume.append(item.name.as_str());
    let mut function = owned(namespace);
    function.append(":");
    function.append(on_consume.as_str());
    let n = Nbt::String(item.nbt.to_json());
    let ghost n0 = n;
    let advancement = item_advancement(item, "minecraft:consume_item", n, function);
    let mut prefix = owned("advancement revoke @s only ");
    prefix.append(namespace);
    prefix.append(":consume/");
    prefix.append(ident);
    let consume_fn = versioned_text(prefix.as_str(), &item.on_consume, namespace);
    let mut adv_name = owned("consume/");
    adv_name.append(ident);
    compiled.advancements.insert(adv_name, advancement.to_json());
    compiled.insert_fn(on_consume.as_str(), consume_fn);
    proof {
        reveal_strlit(":");
        reveal_strlit("consume/");
        reveal_strlit(":consume/");
        assert(namespace@ + ":"@ + ("consume/"@ + item.name@) =~= namespace@ + ":consume/"@ + item.name@);
        assert(item_advancement_shape(advancement, item.base@, "minecraft:consume_item"@, n0, namespace@ + ":consume/"@ + item.name@));
    }
}

/// The options of an item's use check: `as @a[tag=holding_<ident>,scores={use_<base>=1}]`
/// then `at @s`.
pub open spec fn on_use_options(opts: Seq<ExecuteOption>, base: Seq<char>, ident: Seq<char>) -> bool {
    &&& opts.len() == 2
    &&& opts[0] matches ExecuteOption::As(sel) && sel.selector_type == SelectorType::A && sel.args@.dom() == set![
        "tag"@,
        "scores"@,
    ] && sel.args@["tag"@]@ == "holding_"@ + ident && sel.args@["scores"@]@ == "{use_"@ + base + "=1}"@
    &&& opts[1] matches ExecuteOption::At(sel) && sel.selector_type == SelectorType::S && sel.args.seq().len() == 0
}

/// The lines that tag the players holding an item with `holding_<ident>`.
pub open spec fn holding_tags_text(item: Item, ident: Seq<char>) -> Seq<char> {
    "tag @a remove "@ + "holding_"@ + ident + "\ntag @a[nbt={SelectedItem:{id:\"minecraft:"@ + item.base@ + "\",tag:"@
        + display_text(item.nbt) + "}}] add "@ + "holding_"@ + ident + "\n"@
}

/// The tick commands that run an item's use function for players who used it while
/// holding it, and the tagging of the players holding it.
fn make_on_use(
    item: &Item,
    ident: &str,
    tick_buf: &mut Versioned<String>,
    namespace: &str,
    using_base_item_scores: &mut StrMap<bool>,
    src: &mut InterRepr,
)
    requires
        old(src).wf(),
        old(tick_buf).wf(),
        item.wf(),
    ensures
        final(src).wf(),
        final(tick_buf).wf(),
        final(src).items == old(src).items,
        final(src).objectives@ == old(src).objectives@,
        final(src).recipes@ == old(src).recipes@,
        final(src).advancements@ == old(src).advancements@,
        old(src).functions@.dom().subset_of(final(src).functions@.dom()),
        forall|k: Seq<char>| #[trigger] final(src).functions@.contains_key(k) ==> old(src).functions@.contains_key(k) || k == "use/"@
            + item.name@,
        forall|k: Seq<char>| #[trigger] old(src).functions@.contains_key(k) && k != "use/"@ + item.name@ ==> final(src).functions@[k]
            == old(src).functions@[k],
        final(using_base_item_scores)@ == old(using_base_item_scores)@.insert("use_"@ + item.base@, true),
        exists|opts: Seq<ExecuteOption>, cmds: Seq<Command>|
            #![trigger on_use_options(opts, item.base@, ident@), executed_text(opts, cmds, "use/"@ + item.name@, namespace@)]
            on_use_options(opts, item.base@, ident@) && cmds.len() == item.on_use.base@.len() && (forall|i: int|
                0 <= i < cmds.len() ==> #[trigger] cmds[i].spec_text(namespace@) == item.on_use.base@[i].spec_text(namespace@))
                && final(tick_buf).base@ == old(tick_buf).base@ + "\n"@ + executed_text(
                opts,
                cmds,
                "use/"@ + item.name@,
                namespace@,
            ) + "\n"@ + holding_tags_text(*item, ident@),
{
    let mut on_use = owned("use/");
    on_use.append(item.name.as_str());
    let mut using_base = owned("use_");
    using_base.append(item.base.as_str());
    let mut holding_item = owned("holding_");
    holding_item.append(ident);
    let mut scores = owned("{");
    scores.append(using_base.as_str());
    scores.append("=1}");
    let sel0 = Selector::a();
    let sel1 = sel0.with_property(owned("tag"), holding_item.clone());
    let selector = sel1.with_property(owned("scores"), scores);
    proof {
        sel0.args.lemma_keys_listed();
        assert(sel0.args@.dom() =~= Set::<Seq<char>>::empty());
    }
    let options = vec![ExecuteOption::As(selector), ExecuteOption::At(Selector::s())];
    let ghost opts = options@;
    let content = crate::interpreter::block::copy_cmds(&item.on_use);
    let ghost cmds = content.base@;
    proof {
        assert(content.base.deep_view().len() == content.base@.len());
        assert(item.on_use.base.deep_view().len() == item.on_use.base@.len());
        assert forall|i: int| 0 <= i < cmds.len() implies #[trigger] cmds[i].spec_text(namespace@) == item.on_use.base@[i].spec_text(
            namespace@,
        ) by {
            assert(content.base_v()[i] == item.on_use.base_v()[i]);
            assert(content.base_v()[i] == cmds[i].deep_view());
            assert(item.on_use.base_v()[i] == item.on_use.base@[i].deep_view());
            assert(cmd_view(cmds[i])(namespace@) == cmd_view(item.on_use.base@[i])(namespace@));
        }
        reveal_strlit("tag");
        reveal_strlit("scores");
        reveal_strlit("{");
        reveal_strlit("use_");
        reveal_strlit("{use_");
        assert(opts[0]->As_0.args@["scores"@]@ =~= "{use_"@ + item.base@ + "=1}"@);
        assert("tag"@[0] != "scores"@[0]);
        assert(opts[0]->As_0.args@.dom() =~= set!["tag"@, "scores"@]);
        assert(on_use_options(opts, item.base@, ident@));
    }
    let execute_fn = Command::execute(&options, content, on_use.as_str(), src);
    proof {
        assert(old(src).functions@.dom().subset_of(src.functions@.dom()));
    }
    tick_buf.push('\n');
    tick_buf.push_str_v(command_texts(&execute_fn, namespace));
    tick_buf.push('\n');
    let mut tags = owned("tag @a remove ");
    tags.append(holding_item.as_str());
    tags.append("\ntag @a[nbt={SelectedItem:{id:\"minecraft:");
    tags.append(item.base.as_str());
    tags.append("\",tag:");
    push_display(&mut tags, &item.nbt);
    tags.append("}}] add ");
    tags.append(holding_item.as_str());
    tags.append("\n");
    tick_buf.push_str(tags.as_str());
    using_base_item_scores.insert(using_base, true);
    proof {
        reveal_strlit("\n");
        assert(final(tick_buf).base@ =~= old(tick_buf).base@ + "\n"@ + executed_text(opts, cmds, "use/"@ + item.name@, namespace@)
            + "\n"@ + holding_tags_text(*item, ident@));
    }
}

/// The function that runs while an item is being used and the advancement that triggers it.
fn make_while_using(item: &Item, ident: &str, namespace: &str, compiled: &mut CompiledRepr)
    requires
        old(compiled).wf(),
        item.wf(),
    ensures
        final(compiled).wf(),
        final(compiled).grows_from(*old(compiled)),
        forall|k: Seq<char>| #[trigger] old(compiled).functions@.contains_key(k) ==> final(compiled).functions@.contains_key(k),
        final(compiled).loot_tables@ == old(compiled).loot_tables@,
        final(compiled).functions@.dom() == old(compiled).functions@.dom().insert("using/"@ + item.name@),
        forall|k: Seq<char>| k != "using/"@ + item.name@ && #[trigger] old(compiled).functions@.contains_key(k)
            ==> final(compiled).functions@[k] == old(compiled).functions@[k],
        added_text(
            *old(compiled),
            *final(compiled),
            "using/"@ + item.name@,
            "advancement revoke @s only "@ + namespace@ + ":use/"@ + ident@ + lines_text(item.while_using.base@, namespace@),
        ),
        exists|a: Nbt, n: Nbt|
            #![trigger item_advancement_shape(a, item.base@, "minecraft:using_item"@, n, namespace@ + ":using/"@ + item.name@)]
            item_advancement_shape(a, item.base@, "minecraft:using_item"@, n, namespace@ + ":using/"@ + item.name@)
                && display_text(n) == display_text(item.nbt) && json_text(n) == json_text(item.nbt)
                && text_inserted(old(compiled).advancements@, final(compiled).advancements@, "use/"@ + ident@, json_text(a)),
{
    let mut while_using = owned("using/");
    while_using.append(item.name.as_str());
    let mut function = owned(namespace);
    function.append(":");
    function.append(while_using.as_str());
    let n = item.nbt.copy();
    let ghost n0 = n;
    let advancement = item_advancement(item, "minecraft:using_item", n, function);
    let mut prefix = owned("advancement revoke @s only ");
    prefix.append(namespace);
    prefix.append(":use/");
    prefix.append(ident);
    let using_fn = versioned_text(prefix.as_str(), &item.while_using, namespace);
    let mut adv_name = owned("use/");
    adv_name.append(ident);
    compiled.advancements.insert(adv_name, advancement.to_json());
    compiled.insert_fn(while_using.as_str(), using_fn);
    proof {
        reveal_strlit(":");
        reveal_strlit("using/");
        reveal_strlit(":using/");
        assert(namespace@ + ":"@ + ("using/"@ + item.name@) =~= namespace@ + ":using/"@ + item.name@);
        assert(item_advancement_shape(advancement, item.base@, "minecraft:using_item"@, n0, namespace@ + ":using/"@ + item.name@));
    }
}

} // verus!
