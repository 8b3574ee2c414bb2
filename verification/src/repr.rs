//! The intermediate and compiled representations of a datapack, and the build settings.
use vstd::prelude::*;
use crate::command::{copy_options, mc_ident, options_text, Command, ExecuteOption};
use crate::nbt::Nbt;
use crate::strmap::StrMap;
use crate::versioning::{has_key, key_value, value_at, PushStr, Versioned};

verus! {

/// A list of commands in each version.
pub type VecCmd = Versioned<Vec<Command>>;

/// Build settings.
#[derive(Debug)]
pub struct Config {
    /// namespace of the datapack
    pub namespace: String,
    /// the objective that holds plain variables
    pub dummy_objective: String,
    /// how many units make one in fixed-point operations (`.=`, `.+=`, ...)
    pub fixed_point_accuracy: i32,
}

/// A custom item.
#[derive(Debug)]
pub struct Item {
    pub name: String,
    pub base: String,
    pub nbt: Nbt,
    /// function that runs when the item is consumed
    pub on_consume: VecCmd,
    /// function that runs when the item is used
    pub on_use: VecCmd,
    /// function that runs every tick while the item is being used
    pub while_using: VecCmd,
    /// function that runs every tick while the item is in the given slot
    pub slot_checks: Vec<(i8, VecCmd)>,
}

impl Item {
    /// Every list of commands of the item has its versions sorted.
    pub open spec fn wf(&self) -> bool {
        &&& self.on_consume.wf()
        &&& self.on_use.wf()
        &&& self.while_using.wf()
        &&& forall|i: int| 0 <= i < self.slot_checks@.len() ==> (#[trigger] self.slot_checks@[i]).1.wf()
    }
}

impl Default for Item {
    fn default() -> (r: Self)
        ensures
            r.name@.len() == 0,
            r.base@.len() == 0,
            r.nbt == Nbt::Unit,
            r.on_consume.base@.len() == 0 && r.on_consume.mods@.len() == 0,
            r.on_use.base@.len() == 0 && r.on_use.mods@.len() == 0,
            r.while_using.base@.len() == 0 && r.while_using.mods@.len() == 0,
            r.slot_checks@.len() == 0,
            r.wf(),
    {
        Item {
            name: String::new(),
            base: String::new(),
            nbt: Nbt::Unit,
            on_consume: VecCmd::default(),
            on_use: VecCmd::default(),
            while_using: VecCmd::default(),
            slot_checks: Vec::new(),
        }
    }
}

/// Numbers strictly increasing along the sequence.
pub open spec fn ints_sorted(s: Seq<i32>) -> bool {
    forall|i: int, j: int| 0 <= i < j < s.len() ==> s[i] < s[j]
}

/// Keys strictly increasing along the sequence.
pub open spec fn u32_keys_sorted(s: Seq<(u32, String)>) -> bool {
    forall|i: int, j: int| 0 <= i < j < s.len() ==> s[i].0 < s[j].0
}

/// intermediate representation of most items and functions
#[derive(Debug)]
pub struct InterRepr {
    pub items: Vec<Item>,
    pub objectives: StrMap<String>,
    pub functions: StrMap<VecCmd>,
    pub advancements: StrMap<Nbt>,
    pub recipes: StrMap<(String, String)>,
    pub loot_tables: StrMap<String>,
    /// the integer constants that scores are combined with, sorted, each once
    pub constants: Vec<i32>,
    /// per base item, the custom model numbers and their textures, sorted by number
    pub custom_model_data: StrMap<Vec<(u32, String)>>,
}

/// The objective that counts uses of an item (`use_` and its base): the one objective whose
/// criterion an item sets again.
pub open spec fn is_use_objective(k: Seq<char>) -> bool {
    k.len() >= 4 && k.subrange(0, 4) == "use_"@
}

impl InterRepr {
    /// Every function's versions are sorted, every item is well formed, and the
    /// constants and model numbers are sorted.
    pub open spec fn wf(&self) -> bool {
        &&& forall|k: Seq<char>| #[trigger] self.functions@.contains_key(k) ==> self.functions@[k].wf()
        &&& forall|i: int| 0 <= i < self.items@.len() ==> (#[trigger] self.items@[i]).wf()
        &&& ints_sorted(self.constants@)
        &&& forall|k: Seq<char>| #[trigger] self.custom_model_data@.contains_key(k)
            ==> u32_keys_sorted(self.custom_model_data@[k]@)
    }

    /// `self` holds everything `prev` held: `prev`'s items come first, and every
    /// function, objective, advancement, recipe and loot table that `prev` names is still
    /// named.
    pub open spec fn extends(&self, prev: InterRepr) -> bool {
        &&& prev.items@.len() <= self.items@.len()
        &&& forall|i: int| 0 <= i < prev.items@.len() ==> #[trigger] self.items@[i] == prev.items@[i]
        &&& forall|k: Seq<char>| #[trigger] prev.functions@.contains_key(k) ==> self.functions@.contains_key(k)
        &&& forall|k: Seq<char>| #[trigger] prev.objectives@.contains_key(k) ==> self.objectives@.contains_key(k)
        &&& forall|k: Seq<char>| #[trigger] prev.objectives@.contains_key(k) && !is_use_objective(k) ==> self.objectives@[k]
            == prev.objectives@[k]
        &&& forall|k: Seq<char>| #[trigger] prev.advancements@.contains_key(k) ==> self.advancements@.contains_key(k)
        &&& forall|k: Seq<char>| #[trigger] prev.recipes@.contains_key(k) ==> self.recipes@.contains_key(k)
        &&& forall|k: Seq<char>| #[trigger] prev.loot_tables@.contains_key(k) ==> self.loot_tables@.contains_key(k)
    }

    /// Create a new, empty Intermediate Representation; the dummy objective is declared.
    pub fn new(config: &Config) -> (r: Self)
        ensures
            r.wf(),
            r.items@.len() == 0,
            r.objectives@ == Map::<Seq<char>, String>::empty().insert(config.dummy_objective@, r.objectives@[config.dummy_objective@]),
            r.objectives@[config.dummy_objective@]@ == "dummy"@,
            r.functions@ == Map::<Seq<char>, VecCmd>::empty(),
            r.advancements@ == Map::<Seq<char>, Nbt>::empty(),
            r.recipes@ == Map::<Seq<char>, (String, String)>::empty(),
            r.loot_tables@ == Map::<Seq<char>, String>::empty(),
            r.constants@.len() == 0,
            r.custom_model_data@ == Map::<Seq<char>, Vec<(u32, String)>>::empty(),
    {
        let mut objectives = StrMap::new();
        objectives.insert(config.dummy_objective.clone(), crate::text::owned("dummy"));
        InterRepr {
            items: Vec::new(),
            objectives,
            functions: StrMap::new(),
            advancements: StrMap::new(),
            recipes: StrMap::new(),
            loot_tables: StrMap::new(),
            constants: Vec::new(),
            custom_model_data: StrMap::new(),
        }
    }

    /// Sets the commands of the function `name`, replacing any it had.
    pub fn insert_function(&mut self, name: String, f: VecCmd)
        requires
            old(self).wf(),
            f.wf(),
        ensures
            final(self).wf(),
            final(self).extends(*old(self)),
            final(self).functions@ == old(self).functions@.insert(name@, f),
            final(self).items == old(self).items,
            final(self).objectives@ == old(self).objectives@,
            final(self).advancements@ == old(self).advancements@,
            final(self).recipes@ == old(self).recipes@,
            final(self).loot_tables@ == old(self).loot_tables@,
            final(self).constants == old(self).constants,
            final(self).custom_model_data@ == old(self).custom_model_data@,
    {
        self.functions.insert(name, f);
    }

    /// Adds an item.
    pub fn add_item(&mut self, item: Item)
        requires
            old(self).wf(),
            item.wf(),
        ensures
            final(self).wf(),
            final(self).extends(*old(self)),
            final(self).items@ == old(self).items@.push(item),
            final(self).objectives@ == old(self).objectives@,
            final(self).functions@ == old(self).functions@,
            final(self).advancements@ == old(self).advancements@,
            final(self).recipes@ == old(self).recipes@,
            final(self).loot_tables@ == old(self).loot_tables@,
            final(self).constants == old(self).constants,
            final(self).custom_model_data@ == old(self).custom_model_data@,
    {
        self.items.push(item);
        assert forall|i: int| 0 <= i < self.items@.len() implies (#[trigger] self.items@[i]).wf() by {
            if i < old(self).items@.len() {
                assert(self.items@[i] == old(self).items@[i]);
            }
        }
    }

    /// Adds `value` to the constants, keeping them sorted and each once.
    pub fn insert_constant(&mut self, value: i32)
        requires
            old(self).wf(),
        ensures
            final(self).wf(),
            final(self).extends(*old(self)),
            final(self).constants@.to_set() == old(self).constants@.to_set().insert(value),
            final(self).items == old(self).items,
            final(self).objectives@ == old(self).objectives@,
            final(self).functions@ == old(self).functions@,
            final(self).advancements@ == old(self).advancements@,
            final(self).recipes@ == old(self).recipes@,
            final(self).loot_tables@ == old(self).loot_tables@,
            final(self).custom_model_data@ == old(self).custom_model_data@,
    {
        let ghost c0 = self.constants@;
        let mut i: usize = 0;
        while i < self.constants.len() && self.constants[i] < value
            invariant
                i <= self.constants@.len(),
                self.constants@ == c0,
                forall|j: int| 0 <= j < i ==> self.constants@[j] < value,
            decreases self.constants.len() - i,
        {
            i = i + 1;
        }
        if i < self.constants.len() && self.constants[i] == value {
            assert(c0.to_set() =~= c0.to_set().insert(value)) by {
                assert(c0[i as int] == value);
            }
            return;
        }
        let mut cs: Vec<i32> = Vec::new();
        core::mem::swap(&mut cs, &mut self.constants);
        cs.insert(i, value);
        self.constants = cs;
        proof {
            let s = self.constants@;
            assert(s == c0.insert(i as int, value));
            assert(ints_sorted(s)) by {
                assert forall|a: int, b: int| 0 <= a < b < s.len() implies s[a] < s[b] by {
                    if b < i {
                    } else if b == i {
                    } else if a == i {
                        assert(c0[b - 1] >= value);
                        assert(c0[b - 1] != value || b - 1 != i);
                        if b - 1 > i {
                            assert(c0[i as int] < c0[b - 1]);
                            assert(c0[i as int] >= value);
                        }
                    } else if a < i {
                        assert(c0[b - 1] >= value) by {
                            if b - 1 > i {
                                assert(c0[i as int] < c0[b - 1]);
                            }
                        }
                    } else {
                        assert(c0[a - 1] < c0[b - 1]);
                    }
                }
            }
            assert(s.to_set() =~= c0.to_set().insert(value)) by {
                assert forall|x: i32| s.to_set().contains(x) implies c0.to_set().insert(value).contains(x) by {
                    let j = choose|j: int| 0 <= j < s.len() && s[j] == x;
                    if j < i {
                        assert(c0[j] == x);
                    } else if j > i {
                        assert(c0[j - 1] == x);
                    }
                }
                assert forall|x: i32| c0.to_set().insert(value).contains(x) implies s.to_set().contains(x) by {
                    if x == value {
                        assert(s[i as int] == x);
                    } else {
                        let j = choose|j: int| 0 <= j < c0.len() && c0[j] == x;
                        if j < i {
                            assert(s[j] == x);
                        } else {
                            assert(s[j + 1] == x);
                        }
                    }
                }
            }
        }
    }

    /// add a custom model data given a base item and a new texture name
    pub fn add_custom_model_data(&mut self, path: String, number: u32, texture: String)
        requires
            old(self).wf(),
        ensures
            final(self).wf(),
            final(self).extends(*old(self)),
            final(self).custom_model_data@.dom() == old(self).custom_model_data@.dom().insert(path@),
            final(self).custom_model_data@[path@]@.len() > 0,
            exists|i: int| 0 <= i < final(self).custom_model_data@[path@]@.len()
                && #[trigger] final(self).custom_model_data@[path@]@[i].0 == number
                && final(self).custom_model_data@[path@]@[i].1 == texture,
            forall|k: Seq<char>| k != path@ && #[trigger] old(self).custom_model_data@.contains_key(k)
                ==> final(self).custom_model_data@[k] == old(self).custom_model_data@[k],
            forall|n: u32, t: String| n != number && old(self).custom_model_data@.contains_key(path@)
                && old(self).custom_model_data@[path@]@.contains((n, t))
                ==> #[trigger] final(self).custom_model_data@[path@]@.contains((n, t)),
            final(self).items == old(self).items,
            final(self).objectives@ == old(self).objectives@,
            final(self).functions@ == old(self).functions@,
            final(self).constants == old(self).constants,
    {
        let mut entries = match self.custom_model_data.remove(path.as_str()) {
            Some(v) => v,
            None => Vec::new(),
        };
        let ghost e0 = entries@;
        let mut i: usize = 0;
        while i < entries.len() && entries[i].0 < number
            invariant
                i <= entries@.len(),
                entries@ == e0,
                forall|j: int| 0 <= j < i ==> entries@[j].0 < number,
            decreases entries.len() - i,
        {
            i = i + 1;
        }
        let ghost tex = texture;
        if i < entries.len() && entries[i].0 == number {
            entries.set(i, (number, texture));
        } else {
            entries.insert(i, (number, texture));
        }
        let ghost ii = i as int;
        proof {
            let s = entries@;
            assert(u32_keys_sorted(s)) by {
                assert forall|a: int, b: int| 0 <= a < b < s.len() implies s[a].0 < s[b].0 by {
                    if s.len() == e0.len() {
                        assert(s[a].0 == e0[a].0 && s[b].0 == e0[b].0);
                    } else if b < i {
                    } else if b == i {
                    } else if a == i {
                        if b - 1 > i {
                            assert(e0[i as int].0 < e0[b - 1].0);
                        }
                    } else if a < i {
                        if b - 1 > i {
                            assert(e0[i as int].0 < e0[b - 1].0);
                        }
                    } else {
                        assert(e0[a - 1].0 < e0[b - 1].0);
                    }
                }
            }
            assert(s[i as int] == (number, texture));
            assert forall|n: u32, t: String| n != number && e0.contains((n, t)) implies #[trigger] s.contains((n, t)) by {
                let j = choose|j: int| 0 <= j < e0.len() && e0[j] == (n, t);
                if s.len() == e0.len() {
                    assert(s[j] == e0[j]);
                } else if j < i {
                    assert(s[j] == e0[j]);
                } else {
                    assert(s[j + 1] == e0[j]);
                }
            }
        }
        self.custom_model_data.insert(path, entries);
        proof {
            assert(self.custom_model_data@[path@]@[ii].0 == number);
            assert(self.custom_model_data@[path@]@[ii].1 == tex);
            assert(self.custom_model_data@.dom() =~= old(self).custom_model_data@.dom().insert(path@));
        }
    }
}

/// The text of the command that `Command::execute` leaves in place of `cmds` in one version.
///
/// One command that is itself an `execute` has the options put in front of its own; one
/// other command is wrapped in an `execute` with the options (or kept as it is when there
/// are none); any other number of commands is replaced by a call of the function named
/// `hash`, wrapped in the same way.
pub open spec fn executed_text(opts: Seq<ExecuteOption>, cmds: Seq<Command>, hash: Seq<char>, ns: Seq<char>) -> Seq<char> {
    run_text(options_text(opts, ns), opts.len() > 0, cmds, hash, ns)
}

/// The form of the command that `Command::execute` leaves in place of `cmds` under the
/// options `opts` (their text is fixed by `executed_text`): one `execute` command gets
/// the same options before its own and keeps the command it runs; one other command is wrapped
/// in an `execute` (or kept as it is without options); any other number of commands
/// becomes a call of the function `hash`, wrapped in the same way.
pub open spec fn executed_shape(opts: Seq<ExecuteOption>, cmds: Seq<Command>, hash: Seq<char>, r: Command) -> bool {
    let n = opts.len();
    if cmds.len() == 1 {
        match cmds[0] {
            Command::Execute { options: io, cmd } => r matches Command::Execute { options: o, cmd: c } && o@.len() == n
                + io@.len() && leads_with(o@, opts) && *c == *cmd,
            other => if n == 0 {
                r == other
            } else {
                r matches Command::Execute { options: o, cmd: c } && o@.len() == n && leads_with(o@, opts) && *c == other
            },
        }
    } else if n == 0 {
        r matches Command::Function(f) && f@ == hash
    } else {
        r matches Command::Execute { options: o, cmd: c } && o@.len() == n && leads_with(o@, opts) && (*c matches Command::Function(f)
            && f@ == hash)
    }
}

/// The list `o` begins with subcommands that are the same as `opts`, one for one.
pub open spec fn leads_with(o: Seq<ExecuteOption>, opts: Seq<ExecuteOption>) -> bool {
    &&& opts.len() <= o.len()
    &&& forall|i: int| 0 <= i < opts.len() ==> (#[trigger] o[i]).same_as(opts[i])
}

/// The text `executed_text` gives, for options whose text (each followed by a space) is
/// `opts`; `any` tells whether there are options at all.
pub open spec fn run_text(opts: Seq<char>, any: bool, cmds: Seq<Command>, hash: Seq<char>, ns: Seq<char>) -> Seq<char> {
    if cmds.len() == 1 {
        match cmds[0] {
            Command::Execute { options, cmd } => "execute "@ + opts + options_text(options@, ns) + "run "@
                + cmd.spec_text(ns),
            other => if !any {
                other.spec_text(ns)
            } else {
                "execute "@ + opts + "run "@ + other.spec_text(ns)
            },
        }
    } else {
        let call = "function "@ + ns + ":"@ + mc_ident(hash);
        if !any {
            call
        } else {
            "execute "@ + opts + "run "@ + call
        }
    }
}

/// The text of one subcommand in a list is its own text and a space.
pub proof fn lemma_one_option(o: ExecuteOption, ns: Seq<char>)
    ensures
        options_text(seq![o], ns) == o.spec_text(ns) + " "@,
{
    assert(seq![o].drop_last() =~= Seq::<ExecuteOption>::empty());
    assert(options_text(Seq::<ExecuteOption>::empty(), ns) == Seq::<char>::empty());
    assert(options_text(seq![o], ns) =~= o.spec_text(ns) + " "@);
}

/// The subcommands of two lists, one after the other, have the text of both lists.
pub proof fn lemma_options_concat(a: Seq<ExecuteOption>, b: Seq<ExecuteOption>, ns: Seq<char>)
    ensures
        options_text(a + b, ns) == options_text(a, ns) + options_text(b, ns),
    decreases b.len(),
{
    if b.len() == 0 {
        assert(a + b =~= a);
        assert(options_text(b, ns) == Seq::<char>::empty());
        assert(options_text(a, ns) + options_text(b, ns) =~= options_text(a, ns));
    } else {
        lemma_options_concat(a, b.drop_last(), ns);
        assert((a + b).drop_last() =~= a + b.drop_last());
        assert((a + b).last() == b.last());
        assert(options_text(a + b, ns) =~= options_text(a, ns) + options_text(b, ns));
    }
}

/// The command that stands for `cmds` under `options` in one version, and the commands
/// that must go into the function named `hash` (none when no call is made).
fn execute_one(options: &Vec<ExecuteOption>, cmds: Vec<Command>, hash: &str) -> (r: (Command, Vec<Command>))
    ensures
        forall|ns: Seq<char>| #[trigger] r.0.spec_text(ns) == executed_text(options@, cmds@, hash@, ns),
        r.1@ == (if cmds@.len() == 1 { Seq::<Command>::empty() } else { cmds@ }),
        executed_shape(options@, cmds@, hash@, r.0),
{
    let ghost c0 = cmds@;
    if cmds.len() == 1 {
        let mut cmds = cmds;
        let c = cmds.pop().unwrap();
        proof {
            assert(c == c0[0]);
        }
        match c {
            Command::Execute { options: inner, cmd } => {
                let ghost io = inner@;
                let ghost inner0 = inner;
                let ghost cmd0 = cmd;
                let mut opts = copy_options(options);
                let mut inner = inner;
                let ghost o1 = opts@;
                opts.append(&mut inner);
                let out = Command::Execute { options: opts, cmd };
                proof {
                    assert(opts@ == o1 + io);
                    assert forall|i: int| 0 <= i < options@.len() implies (#[trigger] opts@[i]).same_as(options@[i]) by {
                        assert(opts@[i] == o1[i]);
                    }
                    assert forall|ns: Seq<char>| #[trigger] out.spec_text(ns) == executed_text(options@, c0, hash@, ns) by {
                        assert(opts@ == o1 + io);
                        lemma_options_concat(o1, io, ns);
                        assert(options_text(o1, ns) == options_text(options@, ns));
                        assert(c0.len() == 1);
                        assert(c0[0] == Command::Execute { options: inner0, cmd: cmd0 });
                        assert(inner0@ == io);
                        assert(executed_text(options@, c0, hash@, ns) == "execute "@ + options_text(options@, ns) + options_text(io, ns)
                            + "run "@ + cmd0.spec_text(ns));
                        assert(out.spec_text(ns) =~= executed_text(options@, c0, hash@, ns));
                    }
                }
                (out, Vec::new())
            },
            other => {
                if options.len() == 0 {
                    (other, Vec::new())
                } else {
                    let out = Command::Execute { options: copy_options(options), cmd: Box::new(other) };
                    proof {
                        assert forall|ns: Seq<char>| #[trigger] out.spec_text(ns) == executed_text(options@, c0, hash@, ns) by {
                            assert(out.spec_text(ns) =~= executed_text(options@, c0, hash@, ns));
                        }
                    }
                    (out, Vec::new())
                }
            },
        }
    } else {
        let name = crate::text::owned(hash);
        let ghost fname = name;
        let func = Command::Function(name);
        if options.len() == 0 {
            (func, cmds)
        } else {
            let opts = copy_options(options);
            let out = Command::Execute { options: opts, cmd: Box::new(func) };
            proof {
                assert forall|ns: Seq<char>| #[trigger] out.spec_text(ns) == executed_text(options@, c0, hash@, ns) by {
                    assert(options_text(opts@, ns) == options_text(options@, ns));
                    assert(func.spec_text(ns) == "function "@ + ns + ":"@ + mc_ident(hash@));
                    assert(out.spec_text(ns) =~= executed_text(options@, c0, hash@, ns));
                }
            }
            (out, cmds)
        }
    }
}

impl Command {
    /// Create an Execute command that runs the specified other command, in every version.
    ///
    /// If the other command is an execute, it telescopes their options into one.
    /// If there are no execute subcommands, it returns the given command.
    /// If there is more than one given command, it returns a function call, and the
    /// function is put into the state when the base version has more than one command.
    pub fn execute(options: &Vec<ExecuteOption>, cmd: VecCmd, hash: &str, state: &mut InterRepr) -> (r: Versioned<Command>)
        requires
            cmd.wf(),
            old(state).wf(),
        ensures
            r.wf(),
            final(state).wf(),
            final(state).extends(*old(state)),
            forall|ns: Seq<char>| #[trigger] r.base.spec_text(ns) == executed_text(options@, cmd.base@, hash@, ns),
            executed_shape(options@, cmd.base@, hash@, r.base),
            r.mods@.len() == cmd.mods@.len(),
            forall|i: int| 0 <= i < r.mods@.len() ==> (#[trigger] r.mods@[i]).0 == cmd.mods@[i].0,
            forall|i: int, ns: Seq<char>| 0 <= i < r.mods@.len() ==> #[trigger] r.mods@[i].1.spec_text(ns)
                == executed_text(options@, cmd.mods@[i].1@, hash@, ns),
            cmd.base@.len() == 1 || cmd.base@.len() == 0 ==> final(state).functions@ == old(state).functions@,
            cmd.base@.len() > 1 ==> final(state).functions@.dom() == old(state).functions@.dom().insert(hash@),
            cmd.base@.len() > 1 ==> final(state).functions@[hash@].base@ == cmd.base@,
            cmd.base@.len() > 1 ==> final(state).functions@[hash@].mods@.len() == cmd.mods@.len(),
            cmd.base@.len() > 1 ==> forall|i: int| 0 <= i < cmd.mods@.len() ==> (#[trigger] final(state).functions@[hash@].mods@[i]).0
                == cmd.mods@[i].0 && final(state).functions@[hash@].mods@[i].1@ == (if cmd.mods@[i].1@.len() == 1 { Seq::<Command>::empty() } else { cmd.mods@[i].1@ }),
            forall|k: Seq<char>| k != hash@ && #[trigger] old(state).functions@.contains_key(k)
                ==> final(state).functions@[k] == old(state).functions@[k],
            final(state).items == old(state).items,
            final(state).objectives@ == old(state).objectives@,
            final(state).advancements@ == old(state).advancements@,
            final(state).recipes@ == old(state).recipes@,
            final(state).loot_tables@ == old(state).loot_tables@,
            final(state).constants == old(state).constants,
            final(state).custom_model_data@ == old(state).custom_model_data@,
    {
        let Versioned { base, mods } = cmd;
        let ghost m0 = mods@;
        let ghost b0 = base@;
        let (out_base, inner_base) = execute_one(options, base, hash);
        let mut out_mods: Vec<(u8, Command)> = Vec::new();
        let mut inner_mods: Vec<(u8, Vec<Command>)> = Vec::new();
        let mut mods = mods;
        let ghost mods_rev = mods@;
        // take the overrides from the back, then restore their order
        let n = mods.len();
        let mut rev_out: Vec<(u8, Command)> = Vec::new();
        let mut rev_inner: Vec<(u8, Vec<Command>)> = Vec::new();
        while mods.len() > 0
            invariant
                mods@ == m0.subrange(0, mods@.len() as int),
                n == m0.len(),
                rev_out@.len() == n - mods@.len(),
                rev_inner@.len() == n - mods@.len(),
                forall|j: int| 0 <= j < rev_out@.len() ==> (#[trigger] rev_out@[j]).0 == m0[n - 1 - j].0,
                forall|j: int, ns: Seq<char>| 0 <= j < rev_out@.len() ==> #[trigger] rev_out@[j].1.spec_text(ns)
                    == executed_text(options@, m0[n - 1 - j].1@, hash@, ns),
                forall|j: int| 0 <= j < rev_inner@.len() ==> (#[trigger] rev_inner@[j]).0 == m0[n - 1 - j].0
                    && rev_inner@[j].1@ == (if m0[n - 1 - j].1@.len() == 1 { Seq::<Command>::empty() } else { m0[n - 1 - j].1@ }),
            decreases mods.len(),
        {
            let (v, cs) = mods.pop().unwrap();
            let (o, inn) = execute_one(options, cs, hash);
            rev_out.push((v, o));
            rev_inner.push((v, inn));
        }
        while rev_out.len() > 0
            invariant
                n == m0.len(),
                rev_out@.len() + out_mods@.len() == n,
                rev_inner@.len() == rev_out@.len(),
                inner_mods@.len() == out_mods@.len(),
                forall|j: int| 0 <= j < rev_out@.len() ==> (#[trigger] rev_out@[j]).0 == m0[n - 1 - j].0,
                forall|j: int, ns: Seq<char>| 0 <= j < rev_out@.len() ==> #[trigger] rev_out@[j].1.spec_text(ns)
                    == executed_text(options@, m0[n - 1 - j].1@, hash@, ns),
                forall|j: int| 0 <= j < rev_inner@.len() ==> (#[trigger] rev_inner@[j]).0 == m0[n - 1 - j].0
                    && rev_inner@[j].1@ == (if m0[n - 1 - j].1@.len() == 1 { Seq::<Command>::empty() } else { m0[n - 1 - j].1@ }),
                forall|j: int| 0 <= j < out_mods@.len() ==> (#[trigger] out_mods@[j]).0 == m0[j].0,
                forall|j: int, ns: Seq<char>| 0 <= j < out_mods@.len() ==> #[trigger] out_mods@[j].1.spec_text(ns)
                    == executed_text(options@, m0[j].1@, hash@, ns),
                forall|j: int| 0 <= j < inner_mods@.len() ==> (#[trigger] inner_mods@[j]).0 == m0[j].0
                    && inner_mods@[j].1@ == (if m0[j].1@.len() == 1 { Seq::<Command>::empty() } else { m0[j].1@ }),
            decreases rev_out.len(),
        {
            let a = rev_out.pop().unwrap();
            let b = rev_inner.pop().unwrap();
            out_mods.push(a);
            inner_mods.push(b);
        }
        let r = Versioned { base: out_base, mods: out_mods };
        if inner_base.len() > 0 {
            let inner = Versioned { base: inner_base, mods: inner_mods };
            state.functions.insert(crate::text::owned(hash), inner);
            proof {
                assert(state.functions@.dom() =~= old(state).functions@.dom().insert(hash@));
                assert(crate::versioning::mods_sorted(inner.mods@)) by {
                    assert forall|a: int, b: int| 0 <= a < b < inner.mods@.len() implies #[trigger] inner.mods@[a].0
                        < #[trigger] inner.mods@[b].0 by {
                        assert(m0[a].0 < m0[b].0);
                    }
                }
            }
        }
        proof {
            assert(crate::versioning::mods_sorted(r.mods@)) by {
                assert forall|a: int, b: int| 0 <= a < b < r.mods@.len() implies #[trigger] r.mods@[a].0
                    < #[trigger] r.mods@[b].0 by {
                    assert(m0[a].0 < m0[b].0);
                }
            }
        }
        r
    }
}

/// finished representation containing all of the data that should go into the file structure
#[derive(Debug)]
pub struct CompiledRepr {
    pub functions: StrMap<Versioned<String>>,
    pub advancements: StrMap<String>,
    pub recipes: StrMap<String>,
    pub loot_tables: StrMap<String>,
}

/// `after` is `before` with every version of `other` appended to the same version (the
/// combination `Versioned::push_str_v` makes): at every version, the text of `before` at
/// that version followed by the text of `other` at that version.
pub open spec fn appended(before: Versioned<String>, other: Versioned<String>, after: Versioned<String>) -> bool {
    &&& after.wf()
    &&& after.base@ == before.base@ + other.base@
    &&& forall|v: u8| #[trigger] has_key(after.mods@, v) == (has_key(before.mods@, v) || has_key(other.mods@, v))
    &&& forall|v: u8| #![trigger value_at(after.base@, after.mods_v(), v)] value_at(after.base@, after.mods_v(), v) == value_at(
        before.base@,
        before.mods_v(),
        v,
    ) + value_at(other.base@, other.mods_v(), v)
}

/// `text` begins with `prefix`.
pub open spec fn starts_with(text: Seq<char>, prefix: Seq<char>) -> bool {
    prefix.len() <= text.len() && forall|i: int| 0 <= i < prefix.len() ==> text[i] == prefix[i]
}

impl CompiledRepr {
    /// Every function of `prev` is still in `self`, the text of its base version extended
    /// at most at its end.
    pub open spec fn grows_from(&self, prev: CompiledRepr) -> bool {
        forall|k: Seq<char>| #[trigger] prev.functions@.contains_key(k) ==> self.functions@.contains_key(k) && starts_with(
            self.functions@[k].base@,
            prev.functions@[k].base@,
        )
    }

    /// Every function's versions are sorted.
    pub open spec fn wf(&self) -> bool {
        forall|k: Seq<char>| #[trigger] self.functions@.contains_key(k) ==> self.functions@[k].wf()
    }

    /// An empty representation that holds the given loot tables.
    pub fn new(loot_tables: StrMap<String>) -> (r: Self)
        ensures
            r.wf(),
            r.functions@ == Map::<Seq<char>, Versioned<String>>::empty(),
            r.advancements@ == Map::<Seq<char>, String>::empty(),
            r.recipes@ == Map::<Seq<char>, String>::empty(),
            r.loot_tables@ == loot_tables@,
    {
        CompiledRepr {
            functions: StrMap::new(),
            advancements: StrMap::new(),
            recipes: StrMap::new(),
            loot_tables,
        }
    }

    /// insert a function into the object, adding it to the end of an existing function if necessary.
    pub fn insert_fn(&mut self, name: &str, func: Versioned<String>)
        requires
            old(self).wf(),
            func.wf(),
        ensures
            final(self).wf(),
            final(self).grows_from(*old(self)),
            final(self).functions@.dom() == old(self).functions@.dom().insert(name@),
            forall|k: Seq<char>| #[trigger] old(self).functions@.contains_key(k) ==> final(self).functions@.contains_key(k),
            final(self).functions@.contains_key(name@),
            !old(self).functions@.contains_key(name@) ==> final(self).functions@[name@] == func,
            old(self).functions@.contains_key(name@) ==> appended(
                old(self).functions@[name@],
                func,
                final(self).functions@[name@],
            ),
            forall|k: Seq<char>| k != name@ && #[trigger] old(self).functions@.contains_key(k)
                ==> final(self).functions@[k] == old(self).functions@[k],
            final(self).advancements@ == old(self).advancements@,
            final(self).recipes@ == old(self).recipes@,
            final(self).loot_tables@ == old(self).loot_tables@,
    {
        match self.functions.remove(name) {
            Some(mut existing) => {
                let ghost e0 = existing;
                let ghost f0 = func;
                existing.push_str_v(func);
                proof {
                    crate::versioning::lemma_deep_mods_sorted(e0.mods@);
                    crate::versioning::lemma_deep_mods_sorted(f0.mods@);
                    crate::versioning::lemma_deep_mods_sorted(existing.mods@);
                    crate::versioning::lemma_deep_has_key(e0.mods@);
                    crate::versioning::lemma_deep_has_key(f0.mods@);
                    crate::versioning::lemma_deep_has_key(existing.mods@);
                    assert forall|v: u8| #![trigger value_at(existing.base@, existing.mods_v(), v)] value_at(
                        existing.base@,
                        existing.mods_v(),
                        v,
                    ) == value_at(e0.base@, e0.mods_v(), v) + value_at(f0.base@, f0.mods_v(), v) by {
                        crate::versioning::lemma_merged_at(
                            existing.base@,
                            existing.mods_v(),
                            e0.base@,
                            e0.mods_v(),
                            f0.base@,
                            f0.mods_v(),
                            |a: Seq<char>, b: Seq<char>| a + b,
                            v,
                        );
                    }
                }
                self.functions.insert(crate::text::owned(name), existing);
            },
            None => {
                self.functions.insert(crate::text::owned(name), func);
            },
        }
        proof {
            assert(self.functions@.dom() =~= old(self).functions@.dom().insert(name@));
        }
    }
}

} // verus!
