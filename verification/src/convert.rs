//! Renderings of syntax elements and conversions from syntax to strings, NBT and
//! string-valued selectors.
use vstd::prelude::*;
use crate::decimal::push_decimal;
use crate::nbt::{display_entries, display_items, display_text, push_display, push_quoted, quoted, Nbt};
use crate::strmap::StrMap;
use crate::syntax::{fmt_nbt_path, nbt_path_text, path_ok, path_part_text, path_rest_text, NbtPathPart, Selector, Syntax};
use crate::text::{int_string, int_text, push_int, push_nat, str_eq, owned, concat3};

verus! {

/// The debug text of an NBT path: a path that starts with a name is written as in
/// commands, any other one step by step (`[0].name`).
pub open spec fn path_debug_text(s: Seq<NbtPathPart>) -> Seq<char> {
    if path_ok(s) {
        nbt_path_text(s)
    } else {
        path_rest_text(s, 0)
    }
}

/// The capital letter naming a selector type in debug text.
pub open spec fn upper_letter(c: char) -> char {
    if c == 's' {
        'S'
    } else if c == 'p' {
        'P'
    } else if c == 'e' {
        'E'
    } else if c == 'a' {
        'A'
    } else {
        'R'
    }
}

/// The optional bound of a range: its decimal text, or nothing.
pub open spec fn bound_text(b: Option<i32>) -> Seq<char> {
    match b {
        Some(v) => int_text(v as int),
        None => seq![],
    }
}

/// The debug text of a syntax element, as used in messages and to name generated
/// functions.
pub open spec fn debug_text(syn: Syntax) -> Seq<char>
    decreases syn, 2nat, 0int,
{
    match syn {
        Syntax::Identifier(id) => id@,
        Syntax::Annotation(name, body) => seq!['@'] + name@ + seq![' '] + debug_text(*body),
        Syntax::Object(m) => seq!['{'] + object_debug_text(m, m.seq().len() as int) + seq!['}'],
        Syntax::Array(a) => seq!['['] + array_debug_text(a, a@.len() as int) + seq![']'],
        Syntax::Selector(sel) => selector_debug_text(sel),
        Syntax::SelectorColon(sel, id) => selector_debug_text(sel) + seq![':'] + id@,
        Syntax::SelectorDoubleColon(sel, id) => selector_debug_text(sel) + seq![':', ':'] + id@,
        Syntax::SelectorNbt(sel, path) => selector_debug_text(sel) + seq!['.'] + path_debug_text(path@),
        Syntax::NbtStorage(path) => path_debug_text(path@),
        Syntax::BinaryOp { lhs, operation, rhs } => debug_text(*lhs) + seq![' '] + operation.spec_text()
            + seq![' '] + debug_text(*rhs),
        Syntax::Block(t, lhs, rhs) => t.spec_text() + seq![' ', '('] + debug_text(*lhs) + seq![')', ' ']
            + debug_text(*rhs),
        Syntax::String(s) => seq!['"'] + s@ + seq!['"'],
        Syntax::Integer(i) => int_text(i as int),
        Syntax::Range(l, r) => bound_text(l) + seq!['.', '.'] + bound_text(r),
        Syntax::WooglyCoord(d) => seq!['~'] + d.text(),
        Syntax::CaretCoord(d) => seq!['^'] + d.text(),
        Syntax::Float(d) => d.text(),
        Syntax::Unit => seq!['(', ')'],
    }
}

/// The first `n` entries of an object in debug text, each `"key": value`, separated by
/// `, `.
pub open spec fn object_debug_text(m: StrMap<Syntax>, n: int) -> Seq<char>
    decreases m, 1nat, n,
{
    if n <= 0 || n > m.seq().len() {
        seq![]
    } else {
        proof {
            crate::strmap::lemma_value_decreases(m, n - 1);
        }
        (if n > 1 {
            object_debug_text(m, n - 1) + seq![',', ' ']
        } else {
            seq![]
        }) + quoted(m.seq()[n - 1].0@) + seq![':', ' '] + debug_text(m.seq()[n - 1].1)
    }
}

/// The first `n` elements of an array in debug text, separated by `, `.
pub open spec fn array_debug_text(a: Vec<Syntax>, n: int) -> Seq<char>
    decreases a, 1nat, n,
{
    if n <= 0 || n > a@.len() {
        seq![]
    } else {
        proof {
            assert(decreases_to!(a => a@));
            assert(decreases_to!(a@ => a@[n - 1]));
        }
        (if n > 1 {
            array_debug_text(a, n - 1) + seq![',', ' ']
        } else {
            seq![]
        }) + debug_text(a@[n - 1])
    }
}

/// The debug text of a selector with syntax arguments, like `@S["type=cow"]`.
pub open spec fn selector_debug_text(sel: Selector<Syntax>) -> Seq<char>
    decreases sel, 1nat, 0int,
{
    seq!['@', upper_letter(sel.selector_type.spec_letter()), '['] + selector_args_debug_text(
        sel.args,
        sel.args.seq().len() as int,
    ) + seq![']']
}

/// The first `n` arguments of a selector in debug text, each `"key=value"`, separated by
/// `, `.
pub open spec fn selector_args_debug_text(m: StrMap<Syntax>, n: int) -> Seq<char>
    decreases m, 1nat, n,
{
    if n <= 0 || n > m.seq().len() {
        seq![]
    } else {
        proof {
            crate::strmap::lemma_value_decreases(m, n - 1);
        }
        (if n > 1 {
            selector_args_debug_text(m, n - 1) + seq![',', ' ']
        } else {
            seq![]
        }) + quoted(m.seq()[n - 1].0@ + seq!['='] + debug_text(m.seq()[n - 1].1))
    }
}

/// Objects whose entries agree in key and debug text have the same debug text.
pub proof fn lemma_object_debug_same(a: StrMap<Syntax>, b: StrMap<Syntax>, k: int)
    requires
        0 <= k <= a.seq().len(),
        a.seq().len() == b.seq().len(),
        forall|j: int| 0 <= j < k ==> #[trigger] a.seq()[j].0@ == b.seq()[j].0@ && debug_text(a.seq()[j].1) == debug_text(
            b.seq()[j].1,
        ),
    ensures
        object_debug_text(a, k) == object_debug_text(b, k),
        selector_args_debug_text(a, k) == selector_args_debug_text(b, k),
    decreases k,
{
    if k > 0 {
        lemma_object_debug_same(a, b, k - 1);
        assert(a.seq()[k - 1].0@ == b.seq()[k - 1].0@);
    }
}

/// Lists whose items agree in debug text have the same debug text.
pub proof fn lemma_array_debug_same(a: Vec<Syntax>, b: Vec<Syntax>, k: int)
    requires
        0 <= k <= a@.len(),
        a@.len() == b@.len(),
        forall|j: int| 0 <= j < k ==> debug_text(#[trigger] a@[j]) == debug_text(b@[j]),
    ensures
        array_debug_text(a, k) == array_debug_text(b, k),
    decreases k,
{
    if k > 0 {
        lemma_array_debug_same(a, b, k - 1);
        assert(debug_text(a@[k - 1]) == debug_text(b@[k - 1]));
    }
}

/// Appends an NBT path; one that does not start with a name is written step by step.
fn push_path(out: &mut String, path: &Vec<NbtPathPart>)
    ensures
        final(out)@ == old(out)@ + path_debug_text(path@),
{
    if path.len() > 0 {
        if let NbtPathPart::Ident(_) = &path[0] {
            let t = fmt_nbt_path(path.as_slice());
            out.append(t.as_str());
            return;
        }
    }
    let ghost pre = out@;
    let mut i: usize = 0;
    while i < path.len()
        invariant
            i <= path@.len(),
            out@ + path_rest_text(path@, i as int) == pre + path_rest_text(path@, 0),
        decreases path.len() - i,
    {
        let ghost before = out@;
        match &path[i] {
            NbtPathPart::Ident(id) => {
                out.push('.');
                out.append(id.as_str());
            },
            NbtPathPart::Index(idx) => {
                out.push('[');
                push_nat(out, *idx as u64);
                out.push(']');
            },
        }
        assert(out@ =~= before + path_part_text(path@[i as int]));
        assert(path_rest_text(path@, i as int) == path_part_text(path@[i as int]) + path_rest_text(path@, i + 1));
        assert(out@ + path_rest_text(path@, i + 1) =~= before + path_rest_text(path@, i as int));
        i = i + 1;
    }
    assert(path_rest_text(path@, i as int) =~= seq![]);
    assert(out@ =~= out@ + path_rest_text(path@, i as int));
}

/// Appends the debug rendering of a selector with syntax arguments, like
/// `@S["type=cow"]`.
#[verifier::loop_isolation(false)]
fn push_selector_debug(out: &mut String, sel: &Selector<Syntax>)
    ensures
        final(out)@ == old(out)@ + selector_debug_text(*sel),
    decreases sel, 0nat,
{
    let ghost pre = out@;
    out.push('@');
    let c = sel.selector_type.letter();
    out.push(if c == 's' { 'S' } else if c == 'p' { 'P' } else if c == 'e' { 'E' } else if c == 'a' { 'A' } else { 'R' });
    out.push('[');
    let ghost head = out@;
    let n = sel.args.len();
    let mut i: usize = 0;
    while i < n
        invariant
            n == sel.args.seq().len(),
            i <= n,
            out@ == head + selector_args_debug_text(sel.args, i as int),
        decreases n - i,
    {
        proof {
            crate::strmap::lemma_value_decreases(sel.args, i as int);
        }
        let ghost before = out@;
        if i > 0 {
            out.push(',');
            out.push(' ');
        }
        let ghost sep = out@;
        let mut entry = sel.args.key_at(i).clone();
        entry.push('=');
        push_debug(&mut entry, sel.args.value_at(i));
        push_quoted(out, entry.as_str());
        proof {
            let k = sel.args.seq()[i as int].0@;
            let v = debug_text(sel.args.seq()[i as int].1);
            assert(entry@ =~= k + seq!['='] + v);
            assert(out@ == sep + quoted(entry@));
            assert(selector_args_debug_text(sel.args, i + 1) == (if i + 1 > 1 {
                selector_args_debug_text(sel.args, i as int) + seq![',', ' ']
            } else {
                seq![]
            }) + quoted(k + seq!['='] + v));
            if i > 0 {
                assert(sep =~= before + seq![',', ' ']);
            } else {
                assert(sep =~= before);
            }
        }
        assert(out@ =~= head + selector_args_debug_text(sel.args, i + 1));
        i = i + 1;
    }
    out.push(']');
    assert(out@ =~= pre + selector_debug_text(*sel));
}

/// Appends the debug rendering of an object, like `{"a": 1, "b": x}`.
#[verifier::loop_isolation(false)]
fn push_object_debug(out: &mut String, m: &StrMap<Syntax>)
    ensures
        final(out)@ == old(out)@ + seq!['{'] + object_debug_text(*m, m.seq().len() as int) + seq!['}'],
    decreases m, 0nat,
{
    let ghost pre = out@;
    out.push('{');
    let ghost head = out@;
    let n = m.len();
    let mut i: usize = 0;
    while i < n
        invariant
            n == m.seq().len(),
            i <= n,
            out@ == head + object_debug_text(*m, i as int),
        decreases n - i,
    {
        proof {
            crate::strmap::lemma_value_decreases(*m, i as int);
        }
        let ghost before = out@;
        if i > 0 {
            out.push(',');
            out.push(' ');
        }
        let ghost sep = out@;
        push_quoted(out, m.key_at(i).as_str());
        out.push(':');
        out.push(' ');
        push_debug(out, m.value_at(i));
        proof {
            let k = m.seq()[i as int].0@;
            let v = debug_text(m.seq()[i as int].1);
            assert(out@ =~= sep + quoted(k) + seq![':', ' '] + v);
            assert(object_debug_text(*m, i + 1) == (if i + 1 > 1 {
                object_debug_text(*m, i as int) + seq![',', ' ']
            } else {
                seq![]
            }) + quoted(k) + seq![':', ' '] + v);
            if i > 0 {
                assert(sep =~= before + seq![',', ' ']);
            } else {
                assert(sep =~= before);
            }
        }
        assert(out@ =~= head + object_debug_text(*m, i + 1));
        i = i + 1;
    }
    out.push('}');
    assert(out@ =~= pre + seq!['{'] + object_debug_text(*m, m.seq().len() as int) + seq!['}']);
}

/// Appends the debug rendering of an array, like `[1, x]`.
#[verifier::loop_isolation(false)]
fn push_array_debug(out: &mut String, a: &Vec<Syntax>)
    ensures
        final(out)@ == old(out)@ + seq!['['] + array_debug_text(*a, a@.len() as int) + seq![']'],
    decreases a, 0nat,
{
    let ghost pre = out@;
    out.push('[');
    let ghost head = out@;
    let mut i: usize = 0;
    while i < a.len()
        invariant
            i <= a@.len(),
            out@ == head + array_debug_text(*a, i as int),
        decreases a.len() - i,
    {
        proof {
            assert(decreases_to!(a => a[i as int]));
        }
        let ghost before = out@;
        if i > 0 {
            out.push(',');
            out.push(' ');
        }
        let ghost sep = out@;
        push_debug(out, &a[i]);
        proof {
            let v = debug_text(a@[i as int]);
            assert(out@ =~= sep + v);
            assert(array_debug_text(*a, i + 1) == (if i + 1 > 1 {
                array_debug_text(*a, i as int) + seq![',', ' ']
            } else {
                seq![]
            }) + v);
            if i > 0 {
                assert(sep =~= before + seq![',', ' ']);
            } else {
                assert(sep =~= before);
            }
        }
        assert(out@ =~= head + array_debug_text(*a, i + 1));
        i = i + 1;
    }
    out.push(']');
    assert(out@ =~= pre + seq!['['] + array_debug_text(*a, a@.len() as int) + seq![']']);
}

/// Appends the debug rendering of a syntax element, as used in messages and to name
/// generated functions.
#[verifier::loop_isolation(false)]
pub fn push_debug(out: &mut String, syn: &Syntax)
    ensures
        final(out)@ == old(out)@ + debug_text(*syn),
    decreases syn, 1nat,
{
    let ghost pre = out@;
    match syn {
        Syntax::Identifier(id) => out.append(id.as_str()),
        Syntax::Annotation(name, body) => {
            out.push('@');
            out.append(name.as_str());
            out.push(' ');
            push_debug(out, body);
            assert(out@ =~= pre + debug_text(*syn));
        },
        Syntax::Object(m) => push_object_debug(out, m),
        Syntax::Array(a) => push_array_debug(out, a),
        Syntax::Selector(sel) => push_selector_debug(out, sel),
        Syntax::SelectorColon(sel, id) => {
            push_selector_debug(out, sel);
            out.push(':');
            out.append(id.as_str());
            assert(out@ =~= pre + debug_text(*syn));
        },
        Syntax::SelectorDoubleColon(sel, id) => {
            push_selector_debug(out, sel);
            out.push(':');
            out.push(':');
            out.append(id.as_str());
            assert(out@ =~= pre + debug_text(*syn));
        },
        Syntax::SelectorNbt(sel, path) => {
            push_selector_debug(out, sel);
            out.push('.');
            push_path(out, path);
            assert(out@ =~= pre + debug_text(*syn));
        },
        Syntax::NbtStorage(path) => push_path(out, path),
        Syntax::BinaryOp { lhs, operation, rhs } => {
            push_debug(out, lhs);
            out.push(' ');
            out.append(operation.text());
            out.push(' ');
            push_debug(out, rhs);
            assert(out@ =~= pre + debug_text(*syn));
        },
        Syntax::Block(t, lhs, rhs) => {
            out.append(t.text());
            out.push(' ');
            out.push('(');
            push_debug(out, lhs);
            out.push(')');
            out.push(' ');
            push_debug(out, rhs);
            assert(out@ =~= pre + debug_text(*syn));
        },
        Syntax::String(s) => {
            out.push('"');
            out.append(s.as_str());
            out.push('"');
            assert(out@ =~= pre + debug_text(*syn));
        },
        Syntax::Integer(i) => push_int(out, *i as i64),
        Syntax::Range(l, r) => {
            if let Some(l) = l {
                push_int(out, *l as i64);
            }
            let ghost mid = out@;
            assert(mid =~= pre + bound_text(*l));
            out.push('.');
            out.push('.');
            if let Some(r) = r {
                push_int(out, *r as i64);
            }
            assert(out@ =~= pre + debug_text(*syn));
        },
        Syntax::WooglyCoord(d) => {
            out.push('~');
            push_decimal(out, *d);
            assert(out@ =~= pre + debug_text(*syn));
        },
        Syntax::CaretCoord(d) => {
            out.push('^');
            push_decimal(out, *d);
            assert(out@ =~= pre + debug_text(*syn));
        },
        Syntax::Float(d) => push_decimal(out, *d),
        Syntax::Unit => {
            out.append("()");
            proof {
                reveal_strlit("()");
            }
            assert(out@ =~= pre + debug_text(*syn));
        },
    }
}

/// The debug rendering of a syntax element.
pub fn debug_string(syn: &Syntax) -> (r: String)
    ensures
        r@ == debug_text(*syn),
{
    let mut s = String::new();
    push_debug(&mut s, syn);
    s
}

/// The text of a string-like syntax element: an identifier or string as it is, an
/// integer in decimal.
pub open spec fn spec_string_of(syn: Syntax) -> Option<Seq<char>> {
    match syn {
        Syntax::Identifier(s) => Some(s@),
        Syntax::String(s) => Some(s@),
        Syntax::Integer(n) => Some(crate::text::int_text(n as int)),
        _ => None,
    }
}

/// The text of a string-like syntax element (see `spec_string_of`); anything else is an
/// error naming the element.
pub fn string_of(syn: &Syntax) -> (r: Result<String, String>)
    ensures
        r is Ok <==> spec_string_of(*syn) is Some,
        r matches Ok(s) ==> Some(s@) == spec_string_of(*syn),
{
    match syn {
        Syntax::Identifier(s) => Ok(s.clone()),
        Syntax::String(s) => Ok(s.clone()),
        Syntax::Integer(n) => Ok(int_string(*n)),
        _ => {
            let mut msg = owned("Can't get a string from ");
            push_debug(&mut msg, syn);
            Err(msg)
        },
    }
}

/// The text of a selector argument's value (see `to_selector_body`).
pub open spec fn selector_body(syn: Syntax) -> Option<Seq<char>>
    decreases syn, 1int,
{
    match syn {
        Syntax::Identifier(s) => Some(s@),
        Syntax::String(s) => Some(s@),
        Syntax::Integer(n) => Some(int_text(n as int)),
        Syntax::Float(d) => Some(d.text()),
        Syntax::Range(None, Some(r)) => Some(".."@ + int_text(r as int)),
        Syntax::Range(Some(l), None) => Some(int_text(l as int) + ".."@),
        Syntax::Range(Some(l), Some(r)) => Some(int_text(l as int) + ".."@ + int_text(r as int)),
        Syntax::Object(m) => match selector_object_body(m, m.seq().len() as int) {
            Some(t) => Some(if m.seq().len() > 0 {
                (seq!['{'] + t).drop_last()
            } else {
                seq!['{']
            }),
            None => None,
        },
        _ => None,
    }
}

/// The first `n` entries of an object as selector text, each `key=value`, or nothing if a
/// value has no text.
pub open spec fn selector_object_body(m: StrMap<Syntax>, n: int) -> Option<Seq<char>>
    decreases m, 0int, n,
{
    if n <= 0 || n > m.seq().len() {
        Some(seq![])
    } else {
        proof {
            crate::strmap::lemma_value_decreases(m, n - 1);
        }
        match selector_object_body(m, n - 1) {
            Some(a) => match selector_body(m.seq()[n - 1].1) {
                Some(b) => Some(a + m.seq()[n - 1].0@ + seq!['='] + b),
                None => None,
            },
            None => None,
        }
    }
}

/// Once an entry has no text, no longer prefix has one.
proof fn lemma_object_body_none(m: StrMap<Syntax>, i: int, n: int)
    requires
        0 < i <= n <= m.seq().len(),
        selector_object_body(m, i) is None,
    ensures
        selector_object_body(m, n) is None,
    decreases n - i,
{
    if i < n {
        lemma_object_body_none(m, i + 1, n);
        assert(selector_object_body(m, i + 1) is None);
    }
}

/// `s` begins with `p`.
pub open spec fn has_prefix(s: Seq<char>, p: Seq<char>) -> bool {
    p.len() <= s.len() && s.subrange(0, p.len() as int) == p
}

/// A selector argument's error put after the selector's own prefix keeps both prefixes.
proof fn lemma_selector_error_prefix(e: Seq<char>)
    requires
        has_prefix(e, "Can't get a string from "@),
    ensures
        has_prefix(
            "Couldn't convert to string in selector: "@ + e,
            "Couldn't convert to string in selector: Can't get a string from "@,
        ),
{
    reveal_strlit("Couldn't convert to string in selector: ");
    reveal_strlit("Can't get a string from ");
    reveal_strlit("Couldn't convert to string in selector: Can't get a string from ");
    let p1 = "Couldn't convert to string in selector: "@;
    let p2 = "Can't get a string from "@;
    assert((p1 + e).subrange(0, (p1.len() + p2.len()) as int) =~= p1 + e.subrange(0, p2.len() as int));
    assert(p1 + p2 =~= "Couldn't convert to string in selector: Can't get a string from "@);
}

/// The body of a selector argument: strings and identifiers as they are, numbers, ranges
/// like `1..5`, and objects as `{k=v` pairs (the closing brace is dropped with the last
/// character, as before).
#[verifier::loop_isolation(false)]
pub fn to_selector_body(syn: &Syntax) -> (r: Result<String, String>)
    ensures
        r is Ok <==> selector_body(*syn) is Some,
        r matches Ok(t) ==> selector_body(*syn) == Some(t@),
        r matches Err(e) ==> has_prefix(e@, "Can't get a string from "@),
        *syn matches Syntax::Range(lo, hi) ==> (lo is Some || hi is Some ==> (r matches Ok(t) && t@ == crate::command::bound_text(lo)
            + ".."@ + crate::command::bound_text(hi))),
    decreases syn,
{
    match syn {
        Syntax::Identifier(s) => Ok(s.clone()),
        Syntax::String(s) => Ok(s.clone()),
        Syntax::Integer(n) => Ok(int_string(*n)),
        Syntax::Float(d) => Ok(crate::decimal::decimal_string(*d)),
        Syntax::Range(None, Some(r)) => {
            let mut s = owned("..");
            push_int(&mut s, *r as i64);
            Ok(s)
        },
        Syntax::Range(Some(l), None) => {
            let mut s = int_string(*l);
            s.append("..");
            Ok(s)
        },
        Syntax::Range(Some(l), Some(r)) => {
            let mut s = int_string(*l);
            s.append("..");
            push_int(&mut s, *r as i64);
            Ok(s)
        },
        Syntax::Object(m) => {
            let mut buf = String::new();
            buf.push('{');
            let n = m.len();
            let mut i: usize = 0;
            while i < n
                invariant
                    n == m.seq().len(),
                    i <= n,
                    selector_object_body(*m, i as int) matches Some(t) && buf@ == seq!['{'] + t,
                decreases n - i,
            {
                proof {
                    crate::strmap::lemma_value_decreases(*m, i as int);
                }
                let ghost before = buf@;
                buf.append(m.key_at(i).as_str());
                buf.push('=');
                let v = to_selector_body(m.value_at(i));
                match v {
                    Ok(v) => buf.append(v.as_str()),
                    Err(e) => {
                        proof {
                            assert(selector_object_body(*m, i + 1) is None);
                            lemma_object_body_none(*m, i + 1, n as int);
                        }
                        return Err(e);
                    },
                }
                assert(buf@ =~= before + m.seq()[i as int].0@ + seq!['='] + selector_body(m.seq()[i as int].1)->0);
                i = i + 1;
            }
            if n > 0 {
                buf = drop_last_char(&buf);
            }
            Ok(buf)
        },
        _ => {
            let mut msg = owned("Can't get a string from ");
            let ghost pre = msg@;
            push_debug(&mut msg, syn);
            assert(msg@.subrange(0, pre.len() as int) =~= pre);
            Err(msg)
        },
    }
}

/// The string without its last character.
pub fn drop_last_char(s: &String) -> (r: String)
    ensures
        s@.len() > 0 ==> r@ == s@.drop_last(),
        s@.len() == 0 ==> r@ == s@,
{
    let mut cs = crate::text::chars_of(s.as_str());
    if cs.len() == 0 {
        return s.clone();
    }
    cs.pop();
    let r = crate::text::string_from_chars(cs.as_slice());
    r
}

/// `n` is the NBT that the syntax element `v` converts to: strings, integers and the unit
/// as themselves, lists item by item, objects entry by entry in key order. Strictly
/// (`loose` false), decimals convert and an empty object is the unit; loosely, identifiers
/// convert to strings, an empty object stays an object and decimals do not convert.
pub open spec fn nbt_of(v: Syntax, n: Nbt, loose: bool) -> bool
    decreases v, 1int, 0int,
{
    match v {
        Syntax::Object(m) => if m.seq().len() == 0 && !loose {
            n == Nbt::Unit
        } else {
            n matches Nbt::Object(o) && o.seq().len() == m.seq().len() && nbt_entries_of(
                m,
                o.seq(),
                m.seq().len() as int,
                loose,
            )
        },
        Syntax::Array(a) => n matches Nbt::Array(x) && x@.len() == a@.len() && nbt_items_of(a, x@, a@.len() as int, loose),
        Syntax::String(s) => n matches Nbt::String(t) && t@ == s@,
        Syntax::Identifier(s) => loose && (n matches Nbt::String(t) && t@ == s@),
        Syntax::Integer(i) => n == Nbt::Integer(i),
        Syntax::Float(d) => !loose && n == Nbt::Float(d),
        Syntax::Unit => n == Nbt::Unit,
        _ => false,
    }
}

/// The first `k` entries of `os` are those of `m`, keys alike and values converted.
pub open spec fn nbt_entries_of(m: StrMap<Syntax>, os: Seq<(String, Nbt)>, k: int, loose: bool) -> bool
    decreases m, 0int, k,
{
    if k <= 0 {
        true
    } else if k > m.seq().len() || k > os.len() {
        false
    } else {
        proof {
            crate::strmap::lemma_value_decreases(m, k - 1);
        }
        nbt_entries_of(m, os, k - 1, loose) && os[k - 1].0@ == m.seq()[k - 1].0@ && nbt_of(m.seq()[k - 1].1, os[k - 1].1, loose)
    }
}

/// Each of the first `k` entries matches its source entry: same key, value converted.
pub proof fn lemma_entries_of_index(m: StrMap<Syntax>, os: Seq<(String, Nbt)>, k: int, loose: bool, j: int)
    requires
        nbt_entries_of(m, os, k, loose),
        0 <= j < k,
    ensures
        j < m.seq().len() && j < os.len(),
        os[j].0@ == m.seq()[j].0@,
        nbt_of(m.seq()[j].1, os[j].1, loose),
    decreases k,
{
    if j < k - 1 {
        lemma_entries_of_index(m, os, k - 1, loose, j);
    }
}

/// The first `k` items of `xs` are those of `a`, converted.
pub open spec fn nbt_items_of(a: Vec<Syntax>, xs: Seq<Nbt>, k: int, loose: bool) -> bool
    decreases a, 0int, k,
{
    if k <= 0 {
        true
    } else if k > a@.len() || k > xs.len() {
        false
    } else {
        proof {
            assert(decreases_to!(a => a@));
            assert(decreases_to!(a@ => a@[k - 1]));
        }
        nbt_items_of(a, xs, k - 1, loose) && nbt_of(a@[k - 1], xs[k - 1], loose)
    }
}

/// Whether the syntax element converts to NBT (see `nbt_of`).
pub open spec fn nbt_convertible(v: Syntax, loose: bool) -> bool
    decreases v, 1int, 0int,
{
    match v {
        Syntax::Object(m) => entries_convertible(m, m.seq().len() as int, loose),
        Syntax::Array(a) => items_convertible(a, a@.len() as int, loose),
        Syntax::String(_) | Syntax::Integer(_) | Syntax::Unit => true,
        Syntax::Identifier(_) => loose,
        Syntax::Float(_) => !loose,
        _ => false,
    }
}

/// Whether the first `k` values of `m` convert to NBT.
pub open spec fn entries_convertible(m: StrMap<Syntax>, k: int, loose: bool) -> bool
    decreases m, 0int, k,
{
    if k <= 0 || k > m.seq().len() {
        true
    } else {
        proof {
            crate::strmap::lemma_value_decreases(m, k - 1);
        }
        entries_convertible(m, k - 1, loose) && nbt_convertible(m.seq()[k - 1].1, loose)
    }
}

/// Whether the first `k` items of `a` convert to NBT.
pub open spec fn items_convertible(a: Vec<Syntax>, k: int, loose: bool) -> bool
    decreases a, 0int, k,
{
    if k <= 0 || k > a@.len() {
        true
    } else {
        proof {
            assert(decreases_to!(a => a@));
            assert(decreases_to!(a@ => a@[k - 1]));
        }
        items_convertible(a, k - 1, loose) && nbt_convertible(a@[k - 1], loose)
    }
}

/// Once an entry does not convert, no longer prefix does.
proof fn lemma_entries_stay_unconvertible(m: StrMap<Syntax>, i: int, n: int, loose: bool)
    requires
        0 < i <= n <= m.seq().len(),
        !entries_convertible(m, i, loose),
    ensures
        !entries_convertible(m, n, loose),
    decreases n - i,
{
    if i < n {
        lemma_entries_stay_unconvertible(m, i + 1, n, loose);
    }
}

/// Once an item does not convert, no longer prefix does.
proof fn lemma_items_stay_unconvertible(a: Vec<Syntax>, i: int, n: int, loose: bool)
    requires
        0 < i <= n <= a@.len(),
        !items_convertible(a, i, loose),
    ensures
        !items_convertible(a, n, loose),
    decreases n - i,
{
    if i < n {
        lemma_items_stay_unconvertible(a, i + 1, n, loose);
    }
}

/// `nbt_entries_of` looks only at the first `k` entries of `os`.
proof fn lemma_entries_of_prefix(m: StrMap<Syntax>, os1: Seq<(String, Nbt)>, os2: Seq<(String, Nbt)>, k: int, loose: bool)
    requires
        k <= os1.len() <= os2.len(),
        forall|j: int| 0 <= j < os1.len() ==> os2[j] == os1[j],
        nbt_entries_of(m, os1, k, loose),
    ensures
        nbt_entries_of(m, os2, k, loose),
    decreases k,
{
    if k > 0 {
        lemma_entries_of_prefix(m, os1, os2, k - 1, loose);
    }
}

/// `nbt_items_of` looks only at the first `k` items of `xs`.
proof fn lemma_items_of_prefix(a: Vec<Syntax>, xs1: Seq<Nbt>, xs2: Seq<Nbt>, k: int, loose: bool)
    requires
        k <= xs1.len() <= xs2.len(),
        forall|j: int| 0 <= j < xs1.len() ==> xs2[j] == xs1[j],
        nbt_items_of(a, xs1, k, loose),
    ensures
        nbt_items_of(a, xs2, k, loose),
    decreases k,
{
    if k > 0 {
        lemma_items_of_prefix(a, xs1, xs2, k - 1, loose);
    }
}

/// The NBT text of what a syntax element converts to (strictly, see `nbt_of`).
pub open spec fn syntax_nbt_text(v: Syntax) -> Seq<char> {
    display_text(choose|n: Nbt| nbt_of(v, n, false))
}

/// Everything a syntax element converts to has the same NBT text.
pub proof fn lemma_nbt_text_unique(v: Syntax, n1: Nbt, n2: Nbt)
    requires
        nbt_of(v, n1, false),
        nbt_of(v, n2, false),
    ensures
        display_text(n1) == display_text(n2),
    decreases v, 1int, 0int,
{
    match v {
        Syntax::Object(m) => {
            if m.seq().len() > 0 {
                if let (Nbt::Object(o1), Nbt::Object(o2)) = (n1, n2) {
                    lemma_entries_text_unique(m, o1, o2, m.seq().len() as int);
                }
            }
        },
        Syntax::Array(a) => {
            if let (Nbt::Array(x1), Nbt::Array(x2)) = (n1, n2) {
                lemma_items_text_unique(a, x1@, x2@, a@.len() as int);
            }
        },
        _ => {},
    }
}

/// Entry by entry, converted objects have the same NBT text.
proof fn lemma_entries_text_unique(m: StrMap<Syntax>, o1: StrMap<Nbt>, o2: StrMap<Nbt>, k: int)
    requires
        nbt_entries_of(m, o1.seq(), k, false),
        nbt_entries_of(m, o2.seq(), k, false),
    ensures
        display_entries(o1, k) == display_entries(o2, k),
    decreases m, 0int, k,
{
    if k > 0 {
        crate::strmap::lemma_value_decreases(m, k - 1);
        lemma_entries_text_unique(m, o1, o2, k - 1);
        lemma_nbt_text_unique(m.seq()[k - 1].1, o1.seq()[k - 1].1, o2.seq()[k - 1].1);
    }
}

/// Item by item, converted lists have the same NBT text.
proof fn lemma_items_text_unique(a: Vec<Syntax>, x1: Seq<Nbt>, x2: Seq<Nbt>, k: int)
    requires
        nbt_items_of(a, x1, k, false),
        nbt_items_of(a, x2, k, false),
    ensures
        display_items(x1, k) == display_items(x2, k),
    decreases a, 0int, k,
{
    if k > 0 {
        assert(decreases_to!(a => a@));
        assert(decreases_to!(a@ => a@[k - 1]));
        lemma_items_text_unique(a, x1, x2, k - 1);
        lemma_nbt_text_unique(a@[k - 1], x1[k - 1], x2[k - 1]);
    }
}

/// NBT from a syntax element: objects (an empty one becomes the empty value), lists,
/// strings, integers, decimals and `()`.
#[verifier::loop_isolation(false)]
pub fn nbt_from_syntax(value: &Syntax) -> (r: Result<Nbt, String>)
    ensures
        value is Identifier ==> r is Err,
        value is String || value is Integer || value is Float || value is Unit ==> r is Ok,
        value matches Syntax::String(s) ==> (r matches Ok(Nbt::String(t)) && t@ == s@),
        value matches Syntax::Integer(n) ==> r == Ok::<Nbt, String>(Nbt::Integer(*n)),
        value matches Syntax::Float(d) ==> r == Ok::<Nbt, String>(Nbt::Float(*d)),
        value is Unit ==> r == Ok::<Nbt, String>(Nbt::Unit),
        r is Ok <==> nbt_convertible(*value, false),
        r matches Ok(n) ==> nbt_of(*value, n, false),
    decreases value,
{
    match value {
        Syntax::Object(items) => {
            if items.len() == 0 {
                return Ok(Nbt::Unit);
            }
            items.facts();
            let mut out: StrMap<Nbt> = StrMap::new();
            let n = items.len();
            let mut i: usize = 0;
            while i < n
                invariant
                    n == items.seq().len(),
                    i <= n,
                    crate::strmap::keys_sorted(items.seq()),
                    out.seq().len() == i,
                    forall|j: int| 0 <= j < i ==> #[trigger] out.seq()[j].0@ == items.seq()[j].0@,
                    nbt_entries_of(*items, out.seq(), i as int, false),
                    entries_convertible(*items, i as int, false),
                decreases n - i,
            {
                proof {
                    crate::strmap::lemma_value_decreases(*items, i as int);
                }
                match nbt_from_syntax(items.value_at(i)) {
                    Ok(v) => {
                        let ghost prev = out.seq();
                        proof {
                            assert forall|j: int| 0 <= j < out.seq().len() implies crate::strmap::str_lt(
                                #[trigger] out.seq()[j].0@,
                                items.seq()[i as int].0@,
                            ) by {
                                assert(crate::strmap::str_lt(items.seq()[j].0@, items.seq()[i as int].0@));
                            }
                        }
                        out.insert(items.key_at(i).clone(), v);
                        proof {
                            lemma_entries_of_prefix(*items, prev, out.seq(), i as int, false);
                            assert(out.seq()[i as int].0@ == items.seq()[i as int].0@);
                        }
                    },
                    Err(e) => {
                        proof {
                            lemma_entries_stay_unconvertible(*items, i + 1, n as int, false);
                        }
                        return Err(e);
                    },
                }
                i = i + 1;
            }
            Ok(Nbt::Object(out))
        },
        Syntax::Array(items) => {
            let mut out: Vec<Nbt> = Vec::new();
            let mut i: usize = 0;
            while i < items.len()
                invariant
                    i <= items@.len(),
                    out@.len() == i,
                    nbt_items_of(*items, out@, i as int, false),
                    items_convertible(*items, i as int, false),
                decreases items.len() - i,
            {
                proof {
                    assert(decreases_to!(items => items[i as int]));
                }
                match nbt_from_syntax(&items[i]) {
                    Ok(v) => {
                        let ghost prev = out@;
                        out.push(v);
                        proof {
                            lemma_items_of_prefix(*items, prev, out@, i as int, false);
                        }
                    },
                    Err(e) => {
                        proof {
                            lemma_items_stay_unconvertible(*items, i + 1, items@.len() as int, false);
                        }
                        return Err(e);
                    },
                }
                i = i + 1;
            }
            Ok(Nbt::Array(out))
        },
        Syntax::String(s) => Ok(Nbt::String(s.clone())),
        Syntax::Integer(n) => Ok(Nbt::Integer(*n)),
        Syntax::Float(d) => Ok(Nbt::Float(*d)),
        Syntax::Unit => Ok(Nbt::Unit),
        _ => {
            let mut msg = owned("Can't make nbt from ");
            push_debug(&mut msg, value);
            Err(msg)
        },
    }
}

/// NBT from a syntax element, reading identifiers as strings and keeping empty objects as
/// objects (decimals are refused).
#[verifier::loop_isolation(false)]
pub fn nbt_from_syntax_loose(value: &Syntax) -> (r: Result<Nbt, String>)
    ensures
        value matches Syntax::Identifier(s) ==> (r matches Ok(Nbt::String(t)) && t@ == s@),
        value matches Syntax::String(s) ==> (r matches Ok(Nbt::String(t)) && t@ == s@),
        value matches Syntax::Integer(n) ==> r == Ok::<Nbt, String>(Nbt::Integer(*n)),
        value is Float ==> r is Err,
        r is Ok <==> nbt_convertible(*value, true),
        r matches Ok(n) ==> nbt_of(*value, n, true),
    decreases value,
{
    match value {
        Syntax::Object(items) => {
            items.facts();
            let mut out: StrMap<Nbt> = StrMap::new();
            let n = items.len();
            let mut i: usize = 0;
            while i < n
                invariant
                    n == items.seq().len(),
                    i <= n,
                    crate::strmap::keys_sorted(items.seq()),
                    out.seq().len() == i,
                    forall|j: int| 0 <= j < i ==> #[trigger] out.seq()[j].0@ == items.seq()[j].0@,
                    nbt_entries_of(*items, out.seq(), i as int, true),
                    entries_convertible(*items, i as int, true),
                decreases n - i,
            {
                proof {
                    crate::strmap::lemma_value_decreases(*items, i as int);
                }
                match nbt_from_syntax_loose(items.value_at(i)) {
                    Ok(v) => {
                        let ghost prev = out.seq();
                        proof {
                            assert forall|j: int| 0 <= j < out.seq().len() implies crate::strmap::str_lt(
                                #[trigger] out.seq()[j].0@,
                                items.seq()[i as int].0@,
                            ) by {
                                assert(crate::strmap::str_lt(items.seq()[j].0@, items.seq()[i as int].0@));
                            }
                        }
                        out.insert(items.key_at(i).clone(), v);
                        proof {
                            lemma_entries_of_prefix(*items, prev, out.seq(), i as int, true);
                            assert(out.seq()[i as int].0@ == items.seq()[i as int].0@);
                        }
                    },
                    Err(e) => {
                        proof {
                            lemma_entries_stay_unconvertible(*items, i + 1, n as int, true);
                        }
                        return Err(e);
                    },
                }
                i = i + 1;
            }
            Ok(Nbt::Object(out))
        },
        Syntax::Array(items) => {
            let mut out: Vec<Nbt> = Vec::new();
            let mut i: usize = 0;
            while i < items.len()
                invariant
                    i <= items@.len(),
                    out@.len() == i,
                    nbt_items_of(*items, out@, i as int, true),
                    items_convertible(*items, i as int, true),
                decreases items.len() - i,
            {
                proof {
                    assert(decreases_to!(items => items[i as int]));
                }
                match nbt_from_syntax_loose(&items[i]) {
                    Ok(v) => {
                        let ghost prev = out@;
                        out.push(v);
                        proof {
                            lemma_items_of_prefix(*items, prev, out@, i as int, true);
                        }
                    },
                    Err(e) => {
                        proof {
                            lemma_items_stay_unconvertible(*items, i + 1, items@.len() as int, true);
                        }
                        return Err(e);
                    },
                }
                i = i + 1;
            }
            Ok(Nbt::Array(out))
        },
        Syntax::String(s) => Ok(Nbt::String(s.clone())),
        Syntax::Identifier(s) => Ok(Nbt::String(s.clone())),
        Syntax::Integer(n) => Ok(Nbt::Integer(*n)),
        Syntax::Unit => Ok(Nbt::Unit),
        _ => {
            let mut msg = owned("Can't turn `");
            push_debug(&mut msg, value);
            msg.append("` into Nbt");
            Err(msg)
        },
    }
}

/// The text of the selector argument `k = v`: an `nbt` argument that converts to NBT as
/// NBT text, any other by `selector_body`.
pub open spec fn selector_arg_text(k: Seq<char>, v: Syntax) -> Option<Seq<char>> {
    if k == "nbt"@ && nbt_convertible(v, false) {
        Some(syntax_nbt_text(v))
    } else {
        selector_body(v)
    }
}

/// A selector whose arguments are rendered as text: an `nbt` argument that converts to
/// NBT is written as NBT, others by `to_selector_body`.
#[verifier::spinoff_prover]
#[verifier::rlimit(40)]
pub fn stringify_selector(sel: &Selector<Syntax>) -> (r: Result<Selector<String>, String>)
    ensures
        r matches Ok(s) ==> s.selector_type == sel.selector_type && s.args@.dom() == sel.args@.dom(),
        sel.args.seq().len() == 0 ==> (r matches Ok(s) && s.selector_type == sel.selector_type && s.args.seq().len() == 0),
        r matches Ok(s) ==> s.args.seq().len() == sel.args.seq().len() && forall|i: int| #![trigger s.args.seq()[i]] 0 <= i < sel.args.seq().len()
            ==> s.args.seq()[i].0@ == sel.args.seq()[i].0@ && selector_arg_text(
            sel.args.seq()[i].0@,
            sel.args.seq()[i].1,
        ) == Some(s.args.seq()[i].1@),
        r is Ok <==> forall|i: int| 0 <= i < sel.args.seq().len() ==> selector_arg_text(
            #[trigger] sel.args.seq()[i].0@,
            sel.args.seq()[i].1,
        ) is Some,
        r matches Err(e) ==> has_prefix(e@, "Couldn't convert to string in selector: Can't get a string from "@),
{
    let mut args: StrMap<String> = StrMap::new();
    let n = sel.args.len();
    let mut i: usize = 0;
    sel.args.facts();
    while i < n
        invariant
            n == sel.args.seq().len(),
            i <= n,
            crate::strmap::keys_sorted(sel.args.seq()),
            sel.args@ == crate::strmap::entries_map(sel.args.seq()),
            args@.dom() == crate::strmap::entries_map(sel.args.seq().subrange(0, i as int)).dom(),
            i == 0 ==> args.seq().len() == 0,
            args.seq().len() == i,
            forall|j: int| 0 <= j < i ==> #[trigger] args.seq()[j].0@ == sel.args.seq()[j].0@ && selector_arg_text(
                sel.args.seq()[j].0@,
                sel.args.seq()[j].1,
            ) == Some(args.seq()[j].1@),
        decreases n - i,
    {
        let k = sel.args.key_at(i);
        let v = sel.args.value_at(i);
        let body = if str_eq(k.as_str(), "nbt") {
            match nbt_from_syntax(v) {
                Ok(nbt) => {
                    let mut t = String::new();
                    push_display(&mut t, &nbt);
                    proof {
                        let c = choose|n: Nbt| nbt_of(*v, n, false);
                        lemma_nbt_text_unique(*v, c, nbt);
                        assert(t@ =~= display_text(nbt));
                    }
                    Ok(t)
                },
                Err(_) => to_selector_body(v),
            }
        } else {
            to_selector_body(v)
        };
        assert(body is Ok <==> selector_arg_text(k@, *v) is Some);
        assert(body matches Ok(b) ==> selector_arg_text(k@, *v) == Some(b@));
        match body {
            Ok(b) => {
                proof {
                    assert forall|j: int| 0 <= j < args.seq().len() implies crate::strmap::str_lt(
                        #[trigger] args.seq()[j].0@,
                        k@,
                    ) by {
                        assert(crate::strmap::str_lt(sel.args.seq()[j].0@, sel.args.seq()[i as int].0@));
                    }
                }
                let ghost prev = args.seq();
                args.insert(k.clone(), b);
                proof {
                    assert forall|j: int| 0 <= j < i + 1 implies #[trigger] args.seq()[j].0@ == sel.args.seq()[j].0@ && (
                    sel.args.seq()[j].0@ != "nbt"@ ==> selector_body(sel.args.seq()[j].1) == Some(args.seq()[j].1@)) by {
                        if j < i {
                            assert(args.seq()[j] == prev[j]);
                            assert(prev[j].0@ == sel.args.seq()[j].0@);
                        }
                    }
                    assert forall|j: int| 0 <= j < i + 1 implies #[trigger] args.seq()[j].0@ == sel.args.seq()[j].0@
                        && selector_arg_text(sel.args.seq()[j].0@, sel.args.seq()[j].1) == Some(args.seq()[j].1@) by {
                        if j < i {
                            assert(args.seq()[j] == prev[j]);
                        } else {
                            assert(args.seq()[j].1@ == b@);
                        }
                    }
                }
            },
            Err(e) => {
                let mut msg = owned("Couldn't convert to string in selector: ");
                msg.append(e.as_str());
                proof {
                    lemma_selector_error_prefix(e@);
                }
                assert(selector_arg_text(sel.args.seq()[i as int].0@, sel.args.seq()[i as int].1) is None);
                return Err(msg);
            },
        }
        proof {
            let s = sel.args.seq();
            assert(crate::strmap::entries_map(s.subrange(0, i + 1)).dom() =~= crate::strmap::entries_map(s.subrange(0, i as int)).dom().insert(s[i as int].0@)) by {
                assert forall|key: Seq<char>| crate::strmap::entries_map(s.subrange(0, i + 1)).dom().contains(key)
                    == crate::strmap::entries_map(s.subrange(0, i as int)).dom().insert(s[i as int].0@).contains(key) by {
                    if crate::strmap::entries_have(s.subrange(0, i + 1), key) {
                        let j = choose|j: int| 0 <= j < s.subrange(0, i + 1).len() && #[trigger] s.subrange(0, i + 1)[j].0@ == key;
                        if j < i {
                            assert(s.subrange(0, i as int)[j].0@ == key);
                        }
                    }
                    if crate::strmap::entries_have(s.subrange(0, i as int), key) {
                        let j = choose|j: int| 0 <= j < s.subrange(0, i as int).len() && #[trigger] s.subrange(0, i as int)[j].0@ == key;
                        assert(s.subrange(0, i + 1)[j].0@ == key);
                    }
                    if key == s[i as int].0@ {
                        assert(s.subrange(0, i + 1)[i as int].0@ == key);
                    }
                }
            }
        }
        i = i + 1;
    }
    proof {
        assert(sel.args.seq().subrange(0, n as int) =~= sel.args.seq());
        assert forall|j: int| 0 <= j < sel.args.seq().len() implies selector_arg_text(
            #[trigger] sel.args.seq()[j].0@,
            sel.args.seq()[j].1,
        ) is Some by {
            assert(args.seq()[j].0@ == sel.args.seq()[j].0@);
        }
    }
    Ok(Selector { selector_type: sel.selector_type, args })
}

} // verus!
