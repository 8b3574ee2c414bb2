//! Properties that relate several operations of the library.
use vstd::prelude::*;
use crate::command::{options_text, Command, ExecuteOption};
use crate::compiler::lines_text;
use crate::repr::{executed_text, lemma_options_concat, CompiledRepr, InterRepr};
use crate::versioning::{has_key, key_value, mapped, mapped_by_ref, mods_sorted, value_at, Versioned};

verus! {

/// A version that has an override of its own gets that override: after
/// `add_version(v, x)`, `get(v)` is `x`.
pub proof fn law_version_read_after_write<X>(base: X, mods: Seq<(u8, X)>, v: u8, x: X)
    requires
        mods_sorted(mods),
        has_key(mods, v),
        key_value(mods, v) == x,
    ensures
        value_at(base, mods, v) == x,
    decreases mods.len(),
{
    let i = choose|i: int| 0 <= i < mods.len() && #[trigger] mods[i].0 == v;
    crate::versioning::lemma_key_value(mods, i);
    let last = mods.len() - 1;
    if mods.last().0 == v {
        assert(mods[last].0 == v);
        crate::versioning::lemma_key_value(mods, last);
    } else {
        if i == last {
            assert(false);
        }
        if mods.last().0 < v {
            assert(mods[i].0 < mods[last].0);
            assert(false);
        }
        let rest = mods.drop_last();
        assert(rest[i].0 == v);
        crate::versioning::lemma_key_value(rest, i);
        assert(mods_sorted(rest));
        law_version_read_after_write(base, rest, v, x);
    }
}

/// A version below every override gets the base value.
pub proof fn law_version_below_overrides<X>(base: X, mods: Seq<(u8, X)>, v: u8)
    requires
        forall|i: int| 0 <= i < mods.len() ==> v < #[trigger] mods[i].0,
    ensures
        value_at(base, mods, v) == base,
    decreases mods.len(),
{
    if mods.len() > 0 {
        assert(v < mods[mods.len() - 1].0);
        let rest = mods.drop_last();
        assert forall|i: int| 0 <= i < rest.len() implies v < #[trigger] rest[i].0 by {
            assert(rest[i] == mods[i]);
        }
        law_version_below_overrides(base, rest, v);
    }
}

/// With no `execute` options, one command is left as it is.
pub proof fn law_execute_without_options(c: Command, hash: Seq<char>, ns: Seq<char>)
    ensures
        executed_text(Seq::empty(), seq![c], hash, ns) == c.spec_text(ns),
{
    assert(options_text(Seq::<ExecuteOption>::empty(), ns) == Seq::<char>::empty());
    match c {
        Command::Execute { options, cmd } => {
            assert(executed_text(Seq::empty(), seq![c], hash, ns) =~= c.spec_text(ns));
        },
        _ => {},
    }
}

/// An `execute` inside an `execute` is telescoped: the outer options come first, then the
/// inner ones, and the inner command runs.
pub proof fn law_execute_telescopes(
    opts: Seq<ExecuteOption>,
    inner: Vec<ExecuteOption>,
    cmd: Box<Command>,
    hash: Seq<char>,
    ns: Seq<char>,
)
    ensures
        executed_text(opts, seq![Command::Execute { options: inner, cmd }], hash, ns) == "execute "@ + options_text(
            opts + inner@,
            ns,
        ) + "run "@ + cmd.spec_text(ns),
{
    lemma_options_concat(opts, inner@, ns);
    let c = Command::Execute { options: inner, cmd };
    assert(executed_text(opts, seq![c], hash, ns) =~= "execute "@ + options_text(opts + inner@, ns) + "run "@
        + cmd.spec_text(ns));
}

/// The text of two lists of commands, one after the other, is the text of the first
/// followed by the text of the second.
pub proof fn law_lines_concat(a: Seq<Command>, b: Seq<Command>, ns: Seq<char>)
    ensures
        lines_text(a + b, ns) == lines_text(a, ns) + lines_text(b, ns),
    decreases b.len(),
{
    if b.len() == 0 {
        assert(a + b =~= a);
        assert(lines_text(a, ns) + lines_text(b, ns) =~= lines_text(a, ns));
    } else {
        law_lines_concat(a, b.drop_last(), ns);
        assert((a + b).drop_last() =~= a + b.drop_last());
        assert((a + b).last() == b.last());
        assert(lines_text(a + b, ns) =~= lines_text(a, ns) + lines_text(b, ns));
    }
}

/// Interpretation only adds to the state: a state extends itself, and a state that
/// extends one that extends a third extends the third (every step of the interpreter
/// ensures `extends` of the state it started from).
pub proof fn law_state_only_grows(a: InterRepr, b: InterRepr, c: InterRepr)
    ensures
        a.extends(a),
        b.extends(a) && c.extends(b) ==> c.extends(a),
{
}

/// Compiling only adds to the compiled functions: every function stays, its text only
/// extended at the end, over any number of steps.
pub proof fn law_compiled_only_grows(a: CompiledRepr, b: CompiledRepr, c: CompiledRepr)
    ensures
        a.grows_from(a),
        b.grows_from(a) && c.grows_from(b) ==> c.grows_from(a),
{
}

/// Splitting a versioned pair splits it at every version: the first part at a version is
/// the first component of the pair at that version, and likewise for the second.
pub proof fn law_unzip_every_version<A, B>(base: (A, B), mods: Seq<(u8, (A, B))>, ma: Seq<(u8, A)>, mb: Seq<(u8, B)>, ver: u8)
    requires
        ma.len() == mods.len(),
        mb.len() == mods.len(),
        forall|i: int| 0 <= i < mods.len() ==> #[trigger] ma[i] == (mods[i].0, mods[i].1.0) && mb[i] == (mods[i].0, mods[i].1.1),
    ensures
        value_at(base.0, ma, ver) == value_at(base, mods, ver).0,
        value_at(base.1, mb, ver) == value_at(base, mods, ver).1,
    decreases mods.len(),
{
    if mods.len() > 0 {
        let n = mods.len() - 1;
        assert(ma[n] == (mods[n].0, mods[n].1.0));
        assert(mb[n] == (mods[n].0, mods[n].1.1));
        assert forall|i: int| 0 <= i < mods.drop_last().len() implies #[trigger] ma.drop_last()[i] == (
            mods.drop_last()[i].0,
            mods.drop_last()[i].1.0,
        ) && mb.drop_last()[i] == (mods.drop_last()[i].0, mods.drop_last()[i].1.1) by {
            assert(ma[i] == (mods[i].0, mods[i].1.0));
        }
        law_unzip_every_version(base, mods.drop_last(), ma.drop_last(), mb.drop_last(), ver);
    }
}

/// Text appended version by version (`CompiledRepr::insert_fn` on an existing function,
/// `Versioned::push_str_v`) is appended at every version: the result at a version is the
/// old text at that version followed by the new text at that version.
pub proof fn law_append_every_version(
    before: crate::versioning::Versioned<String>,
    other: crate::versioning::Versioned<String>,
    after: crate::versioning::Versioned<String>,
    ver: u8,
)
    requires
        crate::repr::appended(before, other, after),
    ensures
        value_at(after.base@, after.mods_v(), ver) == value_at(before.base@, before.mods_v(), ver) + value_at(
            other.base@,
            other.mods_v(),
            ver,
        ),
{
}


/// Mapping by reference agrees with mapping by value: where `by_ref` gives for a reference
/// exactly what `by_value` gives for the value, and `by_value` has one result for each
/// input, the two maps of one versioned value have the same base and the same overrides.
pub proof fn law_map_ref_agrees_with_map<T, O, F: Fn(T) -> O, G: Fn(&T) -> O>(
    src: Versioned<T>,
    by_value: F,
    by_ref: G,
    a: Versioned<O>,
    b: Versioned<O>,
)
    requires
        src.wf(),
        forall|t: T, o: O| #[trigger] call_ensures(by_ref, (&t,), o) == call_ensures(by_value, (t,), o),
        forall|t: T, o1: O, o2: O| #[trigger] call_ensures(by_value, (t,), o1) && #[trigger] call_ensures(by_value, (t,), o2)
            ==> o1 == o2,
        mapped_by_ref(src, by_ref, a),
        mapped(src, by_value, b),
    ensures
        a.base == b.base,
        a.mods@ == b.mods@,
{
    assert(call_ensures(by_value, (src.base,), a.base));
    assert forall|i: int| 0 <= i < a.mods@.len() implies a.mods@[i] == b.mods@[i] by {
        assert(a.mods@[i].0 == src.mods@[i].0);
        assert(b.mods@[i].0 == src.mods@[i].0);
        assert(call_ensures(by_ref, (&src.mods@[i].1,), a.mods@[i].1));
        assert(call_ensures(by_value, (src.mods@[i].1,), a.mods@[i].1));
        assert(call_ensures(by_value, (src.mods@[i].1,), b.mods@[i].1));
    }
    assert(a.mods@ =~= b.mods@);
}

/// A range argument of a selector (any key but `nbt`) is written as the range itself:
/// the lower bound, `..`, then the upper bound, each left out when absent, as a score
/// range is written in `matches`.
pub proof fn law_selector_range_argument(k: Seq<char>, lo: Option<i32>, hi: Option<i32>)
    requires
        k != "nbt"@,
        lo is Some || hi is Some,
    ensures
        crate::convert::selector_arg_text(k, crate::syntax::Syntax::Range(lo, hi)) == Some(
            crate::command::bound_text(lo) + ".."@ + crate::command::bound_text(hi),
        ),
{
    match (lo, hi) {
        (Some(l), Some(h)) => {},
        (Some(l), None) => {
            assert(crate::text::int_text(l as int) + ".."@ + Seq::<char>::empty() =~= crate::text::int_text(l as int) + ".."@);
        },
        (None, Some(h)) => {
            assert(Seq::<char>::empty() + ".."@ + crate::text::int_text(h as int) =~= ".."@ + crate::text::int_text(h as int));
        },
        (None, None) => {},
    }
}

/// The text of a selector written from its syntax: `@` and its letter, then, if it has
/// arguments, each as `key=value` (the value as `selector_arg_text` writes it), separated
/// by `, ` and between square brackets.
pub open spec fn written_selector(sel: crate::syntax::Selector<crate::syntax::Syntax>) -> Seq<char> {
    seq!['@', sel.selector_type.spec_letter()] + if sel.args.seq().len() == 0 {
        seq![]
    } else {
        seq!['['] + written_args(sel.args.seq(), 0) + seq![']']
    }
}

/// The arguments from `from` on, written as in `written_selector`.
pub open spec fn written_args(s: Seq<(String, crate::syntax::Syntax)>, from: int) -> Seq<char>
    decreases s.len() - from,
{
    if from < 0 || from >= s.len() {
        seq![]
    } else {
        (if from > 0 { seq![',', ' '] } else { seq![] }) + s[from].0@ + seq!['='] + match crate::convert::selector_arg_text(
            s[from].0@,
            s[from].1,
        ) {
            Some(t) => t,
            None => seq![],
        } + written_args(s, from + 1)
    }
}

proof fn lemma_rendered_args(
    sel: crate::syntax::Selector<crate::syntax::Syntax>,
    s: crate::syntax::Selector<String>,
    from: int,
)
    requires
        crate::interpreter::selector_block::rendered_as(sel, s),
        0 <= from,
    ensures
        crate::syntax::args_text(s.args.seq(), from) == written_args(sel.args.seq(), from),
    decreases s.args.seq().len() - from,
{
    if from < s.args.seq().len() {
        lemma_rendered_args(sel, s, from + 1);
        // mention the entry at `from`, so that `rendered_as` speaks of it
        assert(s.args.seq()[from] == s.args.seq()[from]);
    }
}

/// A selector given to a command (by `effect`, `double_colon`, `stringify_selector`, ...)
/// as its rendered form reads, as text, as the selector written from its syntax: same
/// type, and every argument kept in order with its value's text. Dropping or changing an
/// argument changes the text.
pub proof fn law_rendered_selector_text(sel: crate::syntax::Selector<crate::syntax::Syntax>, s: crate::syntax::Selector<String>)
    requires
        crate::interpreter::selector_block::rendered_as(sel, s),
    ensures
        crate::syntax::selector_text(s) == written_selector(sel),
{
    lemma_rendered_args(sel, s, 0);
}

} // verus!
