use vstd::prelude::*;
use vstd::string::*;
use crate::shell::{
    decode_literal, decode_string_literal, encode_shell_literal, shell_quote,
};
use crate::text::{
    bool_text, int_text, join_with, lemma_join_with_push, push_char, render_bool, render_int,
};
use crate::value::{is_atomic_spec, Value};

verus! {

/// The bare text of a scalar node: a string is decoded from its literal form
/// and re-quoted for the shell; a boolean, integer, float or timestamp is its
/// canonical text, which needs no quoting. No surrounding quoting and no
/// newline is added here.
pub open spec fn atom_text(v: Value) -> Seq<char>
    recommends
        is_atomic_spec(v),
{
    match v {
        Value::String(s) => shell_quote(decode_literal(s@)),
        Value::Boolean(b) => bool_text(b),
        Value::Integer(i) => int_text(i as int),
        Value::Float(t) => t@,
        Value::Timestamp(t) => t@,
        Value::Array(_) => Seq::empty(),
        Value::Table(_) => Seq::empty(),
    }
}

/// The tokens of an array: the text of each scalar element, in document
/// order; a composite element is skipped silently, with no placeholder.
pub open spec fn array_tokens(elems: Seq<Value>) -> Seq<Seq<char>>
    decreases elems.len(),
{
    if elems.len() == 0 {
        Seq::empty()
    } else {
        let front = array_tokens(elems.drop_last());
        if is_atomic_spec(elems.last()) {
            front.push(atom_text(elems.last()))
        } else {
            front
        }
    }
}

/// One table assignment: the key, decoded and shell-quoted like a string
/// value, between brackets, then `=` and the bare scalar text.
pub open spec fn entry_text(k: Seq<char>, v: Value) -> Seq<char> {
    seq!['['] + shell_quote(decode_literal(k)) + seq![']', '='] + atom_text(v)
}

/// The tokens of a table: a `[key]=value` assignment for each entry whose
/// value is scalar, in document order; a composite-valued entry is skipped
/// silently.
pub open spec fn table_tokens(entries: Seq<(String, Value)>) -> Seq<Seq<char>>
    decreases entries.len(),
{
    if entries.len() == 0 {
        Seq::empty()
    } else {
        let front = table_tokens(entries.drop_last());
        if is_atomic_spec(entries.last().1) {
            front.push(entry_text(entries.last().0@, entries.last().1))
        } else {
            front
        }
    }
}

/// The rendered text of a resolved value: an array or table is its surviving
/// tokens joined by single spaces, with no trailing separator and no
/// newline; a bare integer at the root carries one trailing newline (a
/// deliberate asymmetry of this renderer — no other scalar gets one); every
/// other scalar is its bare text.
pub open spec fn render_spec(v: Value) -> Seq<char> {
    match v {
        Value::Array(elems) => join_with(array_tokens(elems@), ' '),
        Value::Table(entries) => join_with(table_tokens(entries@), ' '),
        Value::Integer(i) => int_text(i as int).push('\n'),
        _ => atom_text(v),
    }
}

/// Shell safety of every rendered string scalar: feeding the rendered text
/// of a string back through the shell word parser reproduces the decoded raw
/// content exactly, whatever the document literal held.
pub proof fn lemma_rendered_string_parses_back(s: Seq<char>)
    ensures
        crate::shell::parse_shell_word(shell_quote(decode_literal(s))) == Some(decode_literal(s)),
{
    crate::shell::lemma_shell_quote_round_trip(decode_literal(s));
}

/// The bare text of one scalar node.
pub fn render_atom(v: &Value) -> (r: String)
    requires
        is_atomic_spec(*v),
    ensures
        r@ == atom_text(*v),
{
    match v {
        Value::String(s) => {
            let raw = decode_string_literal(s);
            encode_shell_literal(&raw)
        },
        Value::Boolean(b) => render_bool(*b),
        Value::Integer(i) => render_int(*i),
        Value::Float(t) => t.clone(),
        Value::Timestamp(t) => t.clone(),
        Value::Array(_) => String::new(),
        Value::Table(_) => String::new(),
    }
}

fn render_array(elems: &Vec<Value>) -> (r: String)
    ensures
        r@ == join_with(array_tokens(elems@), ' '),
{
    let n = elems.len();
    let mut out = String::new();
    let mut had_one = false;
    proof {
        assert(elems@.take(0) =~= Seq::<Value>::empty());
    }
    for i in 0..n
        invariant
            n == elems.len(),
            out@ == join_with(array_tokens(elems@.take(i as int)), ' '),
            had_one == (array_tokens(elems@.take(i as int)).len() > 0),
    {
        let elem = &elems[i];
        proof {
            assert(elems@.take(i as int + 1).drop_last() =~= elems@.take(i as int));
            assert(elems@.take(i as int + 1).last() == elems@[i as int]);
        }
        if elem.is_atomic() {
            let tok = render_atom(elem);
            proof {
                lemma_join_with_push(
                    array_tokens(elems@.take(i as int)),
                    ' ',
                    atom_text(elems@[i as int]),
                );
            }
            if had_one {
                push_char(&mut out, ' ');
            } else {
                had_one = true;
            }
            out.append(tok.as_str());
        }
    }
    proof {
        assert(elems@.take(n as int) =~= elems@);
    }
    out
}

fn render_table(entries: &Vec<(String, Value)>) -> (r: String)
    ensures
        r@ == join_with(table_tokens(entries@), ' '),
{
    let n = entries.len();
    let mut out = String::new();
    let mut had_one = false;
    proof {
        assert(entries@.take(0) =~= Seq::<(String, Value)>::empty());
    }
    for i in 0..n
        invariant
            n == entries.len(),
            out@ == join_with(table_tokens(entries@.take(i as int)), ' '),
            had_one == (table_tokens(entries@.take(i as int)).len() > 0),
    {
        let pair = &entries[i];
        proof {
            assert(entries@.take(i as int + 1).drop_last() =~= entries@.take(i as int));
            assert(entries@.take(i as int + 1).last() == entries@[i as int]);
        }
        if pair.1.is_atomic() {
            let mut tok = String::new();
            push_char(&mut tok, '[');
            let dk = decode_string_literal(&pair.0);
            let ek = encode_shell_literal(&dk);
            tok.append(ek.as_str());
            push_char(&mut tok, ']');
            push_char(&mut tok, '=');
            let va = render_atom(&pair.1);
            tok.append(va.as_str());
            proof {
                assert(tok@ =~= entry_text(entries@[i as int].0@, entries@[i as int].1));
                lemma_join_with_push(
                    table_tokens(entries@.take(i as int)),
                    ' ',
                    entry_text(entries@[i as int].0@, entries@[i as int].1),
                );
            }
            if had_one {
                push_char(&mut out, ' ');
            } else {
                had_one = true;
            }
            out.append(tok.as_str());
        }
    }
    proof {
        assert(entries@.take(n as int) =~= entries@);
    }
    out
}

/// The shell-safe text of a resolved value, as `render_spec` states it.
/// Rendering is total: every node has a defined text, and skipping nested
/// composites is policy, not an error.
pub fn render(value: &Value) -> (r: String)
    ensures
        r@ == render_spec(*value),
{
    match value {
        Value::Array(elems) => render_array(elems),
        Value::Table(entries) => render_table(entries),
        Value::Integer(i) => {
            let mut out = render_int(*i);
            push_char(&mut out, '\n');
            out
        },
        _ => render_atom(value),
    }
}

} // verus!

