//! NBT data values, as written in commands and as JSON.
use vstd::prelude::*;
use crate::decimal::{push_decimal, Decimal};
use crate::strmap::StrMap;
use crate::syntax::Syntax;
use crate::text::{int_text, push_int};

verus! {

/// An NBT value.
#[derive(Debug, PartialEq)]
pub enum Nbt {
    Object(StrMap<Nbt>),
    Array(Vec<Nbt>),
    String(String),
    Integer(i32),
    Float(Decimal),
    Boolean(bool),
    Unit,
}

/// The text Rust's `Debug` gives a string: between double quotes, with quotes,
/// backslashes and special characters escaped.
pub uninterp spec fn debug_quoted(s: Seq<char>) -> Seq<char>;

/// `s` between double quotes, escaped as Rust's `Debug` for `str` escapes it (the JSON and
/// NBT text of a string).
pub open spec fn quoted(s: Seq<char>) -> Seq<char> {
    debug_quoted(s)
}

/// Printable ASCII (space to `~`) with no double quote and no backslash: the characters
/// that `Debug` for `str` writes as they are.
pub open spec fn plain_printable(s: Seq<char>) -> bool {
    forall|i: int| 0 <= i < s.len() ==> ' ' <= #[trigger] s[i] && s[i] <= '~' && s[i] != '"' && s[i] != '\\'
}

/// `format!("{:?}", s)`: the `Debug` text of the string `s`, named `debug_quoted`.
///
/// Beyond naming the result, the contract claims only that a string of printable ASCII
/// without quotes or backslashes comes back between double quotes as it is, since `Debug`
/// escapes no such character.
#[verifier::external_body]
fn debug_text_of_str(s: &str) -> (r: String)
    ensures
        r@ == debug_quoted(s@),
        plain_printable(s@) ==> r@ == seq!['"'] + s@ + seq!['"'],
{
    format!("{:?}", s)
}

/// Appends `s` between double quotes, escaped (see `quoted`).
pub fn push_quoted(out: &mut String, s: &str)
    ensures
        final(out)@ == old(out)@ + quoted(s@),
        plain_printable(s@) ==> final(out)@ == old(out)@ + seq!['"'] + s@ + seq!['"'],
{
    let q = debug_text_of_str(s);
    out.append(q.as_str());
}

impl Nbt {
    /// The value `true`.
    pub fn true_value() -> (r: Nbt)
        ensures
            r == Nbt::Boolean(true),
    {
        Nbt::Boolean(true)
    }

    /// A string value.
    pub fn from_str(s: &str) -> (r: Nbt)
        ensures
            r matches Nbt::String(t) && t@ == s@,
    {
        Nbt::String(crate::text::owned(s))
    }

    /// An empty object, `{}`.
    pub fn empty_object() -> (r: Nbt)
        ensures
            r matches Nbt::Object(m) && m.seq().len() == 0,
    {
        Nbt::Object(StrMap::new())
    }

    /// The entries of an object.
    pub fn get_obj(&self) -> (r: Result<&StrMap<Nbt>, String>)
        ensures
            r is Ok <==> self is Object,
            r matches Ok(m) ==> self == Nbt::Object(*m),
    {
        match self {
            Nbt::Object(m) => Ok(m),
            _ => {
                let mut msg = crate::text::owned("Expected an NBT object; got `");
                push_display(&mut msg, self);
                msg.push('`');
                Err(msg)
            },
        }
    }

    /// A copy of the value, with the same NBT and JSON text.
    #[verifier::loop_isolation(false)]
    pub fn copy(&self) -> (r: Nbt)
        ensures
            display_text(r) == display_text(*self),
            json_text(r) == json_text(*self),
        decreases self,
    {
        match self {
            Nbt::Object(m) => {
                m.facts();
                let mut out: StrMap<Nbt> = StrMap::new();
                let n = m.len();
                let mut i: usize = 0;
                while i < n
                    invariant
                        n == m.seq().len(),
                        i <= n,
                        crate::strmap::keys_sorted(m.seq()),
                        out.seq().len() == i,
                        forall|j: int| 0 <= j < i ==> #[trigger] out.seq()[j].0@ == m.seq()[j].0@ && display_text(
                            out.seq()[j].1,
                        ) == display_text(m.seq()[j].1) && json_text(out.seq()[j].1) == json_text(m.seq()[j].1),
                    decreases n - i,
                {
                    proof {
                        crate::strmap::lemma_value_decreases(*m, i as int);
                        assert forall|j: int| 0 <= j < out.seq().len() implies crate::strmap::str_lt(
                            #[trigger] out.seq()[j].0@,
                            m.seq()[i as int].0@,
                        ) by {
                            assert(crate::strmap::str_lt(m.seq()[j].0@, m.seq()[i as int].0@));
                        }
                    }
                    let v = m.value_at(i).copy();
                    let ghost prev = out.seq();
                    out.insert(m.key_at(i).clone(), v);
                    proof {
                        assert forall|j: int| 0 <= j < i + 1 implies #[trigger] out.seq()[j].0@ == m.seq()[j].0@ && display_text(
                            out.seq()[j].1,
                        ) == display_text(m.seq()[j].1) && json_text(out.seq()[j].1) == json_text(m.seq()[j].1) by {
                            if j < i {
                                assert(out.seq()[j] == prev[j]);
                            }
                        }
                    }
                    i = i + 1;
                }
                proof {
                    lemma_entries_same_text(out, *m, n as int);
                }
                Nbt::Object(out)
            },
            Nbt::Array(v) => {
                let mut out: Vec<Nbt> = Vec::new();
                let mut i: usize = 0;
                while i < v.len()
                    invariant
                        i <= v@.len(),
                        out@.len() == i,
                        forall|j: int| 0 <= j < i ==> display_text(#[trigger] out@[j]) == display_text(v@[j]) && json_text(
                            out@[j],
                        ) == json_text(v@[j]),
                    decreases v.len() - i,
                {
                    proof {
                        assert(decreases_to!(v => v[i as int]));
                    }
                    out.push(v[i].copy());
                    i = i + 1;
                }
                proof {
                    lemma_items_same_text(out@, v@, v@.len() as int);
                }
                Nbt::Array(out)
            },
            Nbt::String(s) => Nbt::String(s.clone()),
            Nbt::Integer(i) => Nbt::Integer(*i),
            Nbt::Float(d) => Nbt::Float(*d),
            Nbt::Boolean(b) => Nbt::Boolean(*b),
            Nbt::Unit => Nbt::Unit,
        }
    }
}

/// Objects whose entries agree in key and text have the same text, entry by entry.
pub proof fn lemma_entries_same_text(a: StrMap<Nbt>, b: StrMap<Nbt>, k: int)
    requires
        0 <= k <= a.seq().len(),
        a.seq().len() == b.seq().len(),
        forall|j: int| 0 <= j < k ==> #[trigger] a.seq()[j].0@ == b.seq()[j].0@ && display_text(a.seq()[j].1) == display_text(
            b.seq()[j].1,
        ) && json_text(a.seq()[j].1) == json_text(b.seq()[j].1),
    ensures
        display_entries(a, k) == display_entries(b, k),
        json_entries(a, k) == json_entries(b, k),
    decreases k,
{
    if k > 0 {
        lemma_entries_same_text(a, b, k - 1);
        assert(a.seq()[k - 1].0@ == b.seq()[k - 1].0@);
    }
}

/// Lists whose items agree in text have the same text, item by item.
pub proof fn lemma_items_same_text(a: Seq<Nbt>, b: Seq<Nbt>, k: int)
    requires
        0 <= k <= a.len(),
        a.len() == b.len(),
        forall|j: int| 0 <= j < k ==> display_text(#[trigger] a[j]) == display_text(b[j]) && json_text(a[j]) == json_text(b[j]),
    ensures
        display_items(a, k) == display_items(b, k),
        json_items(a, k) == json_items(b, k),
    decreases k,
{
    if k > 0 {
        lemma_items_same_text(a, b, k - 1);
        assert(display_text(a[k - 1]) == display_text(b[k - 1]));
    }
}

/// The NBT text of a value: objects as `{key: value, ...}`, lists as `[a, b]`, strings in
/// double quotes (unescaped), numbers in decimal, the empty value as `{}`.
pub open spec fn display_text(n: Nbt) -> Seq<char>
    decreases n, 0int,
{
    match n {
        Nbt::Object(m) => seq!['{'] + display_entries(m, m.seq().len() as int) + seq!['}'],
        Nbt::Array(v) => {
            proof {
                assert(decreases_to!(v => v@));
            }
            seq!['['] + display_items(v@, v@.len() as int) + seq![']']
        },
        Nbt::String(s) => seq!['"'] + s@ + seq!['"'],
        Nbt::Integer(i) => int_text(i as int),
        Nbt::Float(d) => d.text(),
        Nbt::Boolean(b) => if b { "true"@ } else { "false"@ },
        Nbt::Unit => "{}"@,
    }
}

/// The NBT text of the first `i` entries of an object, separated by `, `.
pub open spec fn display_entries(m: StrMap<Nbt>, i: int) -> Seq<char>
    decreases m, i,
{
    if i <= 0 || i > m.seq().len() {
        seq![]
    } else {
        proof {
            crate::strmap::lemma_value_decreases(m, i - 1);
        }
        display_entries(m, i - 1) + (if i > 1 { ", "@ } else { seq![] }) + m.seq()[i - 1].0@ + ": "@
            + display_text(m.seq()[i - 1].1)
    }
}

/// The NBT text of the first `i` items of a list, separated by `, `.
pub open spec fn display_items(s: Seq<Nbt>, i: int) -> Seq<char>
    decreases s, i,
{
    if i <= 0 || i > s.len() {
        seq![]
    } else {
        display_items(s, i - 1) + (if i > 1 { ", "@ } else { seq![] }) + display_text(s[i - 1])
    }
}

/// The JSON text of a value: keys quoted, strings quoted and escaped, entries and items
/// separated by commas; an empty object is `{}` and an empty list `[]`.
pub open spec fn json_text(n: Nbt) -> Seq<char>
    decreases n, 0int,
{
    match n {
        Nbt::Object(m) => seq!['{'] + json_entries(m, m.seq().len() as int) + seq!['}'],
        Nbt::Array(v) => {
            proof {
                assert(decreases_to!(v => v@));
            }
            seq!['['] + json_items(v@, v@.len() as int) + seq![']']
        },
        Nbt::String(s) => quoted(s@),
        Nbt::Integer(i) => int_text(i as int),
        Nbt::Float(d) => d.text(),
        Nbt::Boolean(b) => if b { "true"@ } else { "false"@ },
        Nbt::Unit => "{}"@,
    }
}

/// The JSON text of the first `i` entries of an object, each followed by `,` unless it
/// is the last entry.
pub open spec fn json_entries(m: StrMap<Nbt>, i: int) -> Seq<char>
    decreases m, i,
{
    if i <= 0 || i > m.seq().len() {
        seq![]
    } else {
        proof {
            crate::strmap::lemma_value_decreases(m, i - 1);
        }
        json_entries(m, i - 1) + seq!['"'] + m.seq()[i - 1].0@ + seq!['"', ':'] + json_text(m.seq()[i - 1].1) + (if i
            < m.seq().len() {
            seq![',']
        } else {
            seq![]
        })
    }
}

/// The JSON text of the first `i` items of a list, each followed by `,` unless it is the
/// last item.
pub open spec fn json_items(s: Seq<Nbt>, i: int) -> Seq<char>
    decreases s, i,
{
    if i <= 0 || i > s.len() {
        seq![]
    } else {
        json_items(s, i - 1) + json_text(s[i - 1]) + (if i < s.len() { seq![','] } else { seq![] })
    }
}

/// Appends the NBT text of `v` (see `display_text`).
#[verifier::loop_isolation(false)]
pub fn push_display(out: &mut String, v: &Nbt)
    ensures
        final(out)@ == old(out)@ + display_text(*v),
    decreases v,
{
    let ghost pre = out@;
    match v {
        Nbt::Object(m) => {
            out.push('{');
            let n = m.len();
            let mut i: usize = 0;
            while i < n
                invariant
                    n == m.seq().len(),
                    i <= n,
                    out@ == pre + seq!['{'] + display_entries(*m, i as int),
                decreases n - i,
            {
                proof {
                    crate::strmap::lemma_value_decreases(*m, i as int);
                }
                if i > 0 {
                    out.push(',');
                    out.push(' ');
                }
                out.append(m.key_at(i).as_str());
                out.push(':');
                out.push(' ');
                push_display(out, m.value_at(i));
                proof {
                    reveal_strlit(", ");
                    reveal_strlit(": ");
                    assert(out@ =~= pre + seq!['{'] + display_entries(*m, i + 1));
                }
                i = i + 1;
            }
            out.push('}');
        },
        Nbt::Array(a) => {
            out.push('[');
            let mut i: usize = 0;
            while i < a.len()
                invariant
                    i <= a@.len(),
                    out@ == pre + seq!['['] + display_items(a@, i as int),
                decreases a.len() - i,
            {
                proof {
                    assert(decreases_to!(a => a[i as int]));
                }
                if i > 0 {
                    out.push(',');
                    out.push(' ');
                }
                push_display(out, &a[i]);
                proof {
                    reveal_strlit(", ");
                    assert(out@ =~= pre + seq!['['] + display_items(a@, i + 1));
                }
                i = i + 1;
            }
            out.push(']');
        },
        Nbt::String(s) => {
            out.push('"');
            out.append(s.as_str());
            out.push('"');
        },
        Nbt::Integer(n) => push_int(out, *n as i64),
        Nbt::Float(d) => push_decimal(out, *d),
        Nbt::Boolean(b) => out.append(if *b { "true" } else { "false" }),
        Nbt::Unit => out.append("{}"),
    }
    proof {
        assert(out@ =~= pre + display_text(*v));
    }
}

/// Appends the JSON text of `v` (see `json_text`).
#[verifier::loop_isolation(false)]
pub fn push_json(out: &mut String, v: &Nbt)
    ensures
        final(out)@ == old(out)@ + json_text(*v),
    decreases v,
{
    let ghost pre = out@;
    match v {
        Nbt::Object(m) => {
            let n = m.len();
            out.push('{');
            let ghost open = out@;
            let mut i: usize = 0;
            while i < n
                invariant
                    n == m.seq().len(),
                    i <= n,
                    open == pre + seq!['{'],
                    out@ == open + json_entries(*m, i as int),
                decreases n - i,
            {
                proof {
                    crate::strmap::lemma_value_decreases(*m, i as int);
                }
                out.push('"');
                out.append(m.key_at(i).as_str());
                out.push('"');
                out.push(':');
                push_json(out, m.value_at(i));
                if i + 1 < n {
                    out.push(',');
                }
                proof {
                    assert(out@ =~= open + json_entries(*m, i + 1));
                }
                i = i + 1;
            }
            out.push('}');
        },
        Nbt::Array(a) => {
            out.push('[');
            let ghost open = out@;
            let mut i: usize = 0;
            while i < a.len()
                invariant
                    i <= a@.len(),
                    open == pre + seq!['['],
                    out@ == open + json_items(a@, i as int),
                decreases a.len() - i,
            {
                proof {
                    assert(decreases_to!(a => a[i as int]));
                }
                push_json(out, &a[i]);
                if i + 1 < a.len() {
                    out.push(',');
                }
                proof {
                    assert(out@ =~= open + json_items(a@, i + 1));
                }
                i = i + 1;
            }
            out.push(']');
        },
        Nbt::String(s) => push_quoted(out, s.as_str()),
        Nbt::Integer(n) => push_int(out, *n as i64),
        Nbt::Float(d) => push_decimal(out, *d),
        Nbt::Boolean(b) => out.append(if *b { "true" } else { "false" }),
        Nbt::Unit => out.append("{}"),
    }
    proof {
        assert(out@ =~= pre + json_text(*v));
    }
}

impl Nbt {
    /// The NBT text of the value (see `display_text`).
    pub fn to_text(&self) -> (r: String)
        ensures
            r@ == display_text(*self),
    {
        let mut s = String::new();
        push_display(&mut s, self);
        s
    }

    /// The JSON text of the value (see `json_text`).
    pub fn to_json(&self) -> (r: String)
        ensures
            r@ == json_text(*self),
    {
        let mut s = String::new();
        push_json(&mut s, self);
        s
    }
}

} // verus!
