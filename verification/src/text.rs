use vstd::prelude::*;

verus! {

/// Relies on std's `String::push`: it appends the given character to the end
/// of the string.
#[verifier::external_body]
pub(crate) fn push_char(s: &mut String, c: char)
    ensures
        final(s)@ == old(s)@.push(c),
{
    s.push(c);
}

/// The character for a single decimal digit.
pub open spec fn dec_digit(d: int) -> char {
    if d == 0 {
        '0'
    } else if d == 1 {
        '1'
    } else if d == 2 {
        '2'
    } else if d == 3 {
        '3'
    } else if d == 4 {
        '4'
    } else if d == 5 {
        '5'
    } else if d == 6 {
        '6'
    } else if d == 7 {
        '7'
    } else if d == 8 {
        '8'
    } else {
        '9'
    }
}

/// The decimal text of a natural number, most significant digit first, with
/// no sign and no leading zero (except for the single digit of zero itself).
pub open spec fn dec_text(n: nat) -> Seq<char>
    decreases n,
{
    if n < 10 {
        seq![dec_digit(n as int)]
    } else {
        dec_text(n / 10).push(dec_digit((n % 10) as int))
    }
}

/// The decimal text of an integer: a minus sign before the digits when it is
/// negative.
pub open spec fn int_text(n: int) -> Seq<char> {
    if n < 0 {
        seq!['-'] + dec_text((-n) as nat)
    } else {
        dec_text(n as nat)
    }
}

/// The canonical text of a boolean.
pub open spec fn bool_text(b: bool) -> Seq<char> {
    if b {
        "true"@
    } else {
        "false"@
    }
}

fn dec_digit_exec(d: u64) -> (c: char)
    requires
        d < 10,
    ensures
        c == dec_digit(d as int),
{
    if d == 0 {
        '0'
    } else if d == 1 {
        '1'
    } else if d == 2 {
        '2'
    } else if d == 3 {
        '3'
    } else if d == 4 {
        '4'
    } else if d == 5 {
        '5'
    } else if d == 6 {
        '6'
    } else if d == 7 {
        '7'
    } else if d == 8 {
        '8'
    } else {
        '9'
    }
}

fn push_dec(out: &mut String, n: u64)
    ensures
        final(out)@ == old(out)@ + dec_text(n as nat),
    decreases n,
{
    if n < 10 {
        push_char(out, dec_digit_exec(n));
        proof {
            assert(out@ =~= old(out)@ + dec_text(n as nat));
        }
    } else {
        push_dec(out, n / 10);
        push_char(out, dec_digit_exec(n % 10));
        proof {
            assert(out@ =~= old(out)@ + dec_text(n as nat));
        }
    }
}

/// The decimal text of a signed integer, as the document's integer scalars
/// print it.
pub fn render_int(n: i64) -> (r: String)
    ensures
        r@ == int_text(n as int),
{
    let mut out = String::new();
    if n < 0 {
        push_char(&mut out, '-');
        let m: u64 = ((-(n + 1)) as u64) + 1;
        assert(m as nat == (-(n as int)) as nat);
        push_dec(&mut out, m);
        proof {
            assert(out@ =~= int_text(n as int));
        }
    } else {
        push_dec(&mut out, n as u64);
        proof {
            assert(out@ =~= int_text(n as int));
        }
    }
    out
}

/// The canonical text of a boolean scalar.
pub fn render_bool(b: bool) -> (r: String)
    ensures
        r@ == bool_text(b),
{
    if b {
        String::from_str("true")
    } else {
        String::from_str("false")
    }
}

/// The tokens joined by a single separator character: no leading, trailing or
/// doubled separator, and the empty text for no tokens at all.
pub open spec fn join_with(toks: Seq<Seq<char>>, sep: char) -> Seq<char>
    decreases toks.len(),
{
    if toks.len() == 0 {
        Seq::empty()
    } else if toks.len() == 1 {
        toks[0]
    } else {
        toks[0] + seq![sep] + join_with(toks.drop_first(), sep)
    }
}

/// Appending one more token extends the joined text by a separator and the
/// token, except that a first token stands alone.
pub proof fn lemma_join_with_push(toks: Seq<Seq<char>>, sep: char, t: Seq<char>)
    ensures
        join_with(toks.push(t), sep) == if toks.len() == 0 {
            t
        } else {
            join_with(toks, sep) + seq![sep] + t
        },
    decreases toks.len(),
{
    if toks.len() == 0 {
        assert(toks.push(t).len() == 1);
        assert(toks.push(t)[0] == t);
    } else if toks.len() == 1 {
        assert(toks.push(t)[0] == toks[0]);
        assert(toks.push(t).drop_first() =~= seq![t]);
        assert(join_with(seq![t], sep) == t);
        assert(join_with(toks, sep) == toks[0]);
    } else {
        lemma_join_with_push(toks.drop_first(), sep, t);
        assert(toks.push(t).drop_first() =~= toks.drop_first().push(t));
        assert(toks.push(t)[0] == toks[0]);
        assert(join_with(toks, sep) + seq![sep] + t =~= toks[0] + seq![sep] + (join_with(
            toks.drop_first(),
            sep,
        ) + seq![sep] + t));
    }
}

} // verus!
