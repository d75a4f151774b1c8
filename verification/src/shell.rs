use vstd::prelude::*;
use vstd::string::*;
use crate::text::push_char;

verus! {

/// A character that may stand unquoted in a shell word: an ASCII letter or
/// digit, or one of a few punctuation characters that no shell interprets.
pub open spec fn is_safe_char(c: char) -> bool {
    let u = c as u32;
    (97 <= u && u <= 122) || (65 <= u && u <= 90) || (48 <= u && u <= 57) || c == '_' || c == '-'
        || c == '.' || c == '/' || c == ':' || c == '@' || c == '%' || c == '+' || c == '='
        || c == ','
}

/// An ASCII control character, which never stands raw between single quotes.
pub open spec fn is_control_char(c: char) -> bool {
    (c as u32) < 32 || (c as u32) == 127
}

/// A plain identifier character: an ASCII letter, a digit, or an underscore.
pub open spec fn is_ident_char(c: char) -> bool {
    let u = c as u32;
    (97 <= u && u <= 122) || (65 <= u && u <= 90) || (48 <= u && u <= 57) || c == '_'
}

pub open spec fn all_safe(s: Seq<char>) -> bool {
    forall|i: int| 0 <= i < s.len() ==> is_safe_char(#[trigger] s[i])
}

/// Text that may stand between single quotes as it is: it holds no single
/// quote and no control character.
pub open spec fn single_quotable(s: Seq<char>) -> bool {
    forall|i: int| 0 <= i < s.len() ==> (#[trigger] s[i]) != '\'' && !is_control_char(s[i])
}

/// Text that holds no quote character at all.
pub open spec fn no_quote_chars(s: Seq<char>) -> bool {
    forall|i: int| 0 <= i < s.len() ==> (#[trigger] s[i]) != '\'' && s[i] != '"'
}

/// How one raw character stands between double quotes: the four characters
/// the shell interprets there, and the three common control characters, get a
/// backslash escape; everything else stands as it is.
pub open spec fn dq_escape_char(c: char) -> Seq<char> {
    if c == '"' {
        seq!['\\', '"']
    } else if c == '\\' {
        seq!['\\', '\\']
    } else if c == '$' {
        seq!['\\', '$']
    } else if c == '`' {
        seq!['\\', '`']
    } else if c == '\n' {
        seq!['\\', 'n']
    } else if c == '\t' {
        seq!['\\', 't']
    } else if c == '\r' {
        seq!['\\', 'r']
    } else {
        seq![c]
    }
}

pub open spec fn dq_escape(s: Seq<char>) -> Seq<char>
    decreases s.len(),
{
    if s.len() == 0 {
        Seq::empty()
    } else {
        dq_escape_char(s[0]) + dq_escape(s.drop_first())
    }
}

/// The shell-quoted form of raw text: unquoted when every character is safe,
/// else between single quotes when none forbids it, else between double
/// quotes with the needed escapes. The empty text is quoted, so the output is
/// never an empty word.
pub open spec fn shell_quote(s: Seq<char>) -> Seq<char> {
    if s.len() > 0 && all_safe(s) {
        s
    } else if single_quotable(s) {
        seq!['\''] + s + seq!['\'']
    } else {
        seq!['"'] + dq_escape(s) + seq!['"']
    }
}

/// What a backslash escape between double quotes denotes, for the escapes the
/// quoter emits.
pub open spec fn dq_unescape_code(c: char) -> Option<char> {
    if c == '"' {
        Some('"')
    } else if c == '\\' {
        Some('\\')
    } else if c == '$' {
        Some('$')
    } else if c == '`' {
        Some('`')
    } else if c == 'n' {
        Some('\n')
    } else if c == 't' {
        Some('\t')
    } else if c == 'r' {
        Some('\r')
    } else {
        None
    }
}

pub open spec fn prepend(c: char, r: Option<Seq<char>>) -> Option<Seq<char>> {
    match r {
        Some(t) => Some(seq![c] + t),
        None => None,
    }
}

/// A parser for one shell word under the quoting convention of this library:
/// unquoted safe characters, single-quoted spans taken literally, and
/// double-quoted spans with backslash escapes. `None` stands for text that no
/// single word denotes: an unterminated quote, a bad escape, or an unquoted
/// character the shell would interpret.
pub open spec fn parse_word(s: Seq<char>, in_single: bool, in_double: bool) -> Option<Seq<char>>
    decreases s.len(),
{
    if s.len() == 0 {
        if in_single || in_double {
            None
        } else {
            Some(Seq::empty())
        }
    } else {
        let c = s[0];
        if in_single {
            if c == '\'' {
                parse_word(s.drop_first(), false, false)
            } else {
                prepend(c, parse_word(s.drop_first(), true, false))
            }
        } else if in_double {
            if c == '"' {
                parse_word(s.drop_first(), false, false)
            } else if c == '\\' {
                if s.len() == 1 {
                    None
                } else {
                    match dq_unescape_code(s[1]) {
                        Some(d) => prepend(d, parse_word(s.skip(2), false, true)),
                        None => None,
                    }
                }
            } else {
                prepend(c, parse_word(s.drop_first(), false, true))
            }
        } else {
            if c == '\'' {
                parse_word(s.drop_first(), true, false)
            } else if c == '"' {
                parse_word(s.drop_first(), false, true)
            } else if is_safe_char(c) {
                prepend(c, parse_word(s.drop_first(), false, false))
            } else {
                None
            }
        }
    }
}

/// The raw text that a single shell word denotes.
pub open spec fn parse_shell_word(s: Seq<char>) -> Option<Seq<char>> {
    parse_word(s, false, false)
}

proof fn lemma_parse_safe(s: Seq<char>)
    requires
        all_safe(s),
    ensures
        parse_word(s, false, false) == Some(s),
    decreases s.len(),
{
    if s.len() == 0 {
    } else {
        assert(is_safe_char(s[0]));
        lemma_parse_safe(s.drop_first());
        assert(seq![s[0]] + s.drop_first() =~= s);
    }
}

proof fn lemma_parse_single_quoted(s: Seq<char>)
    requires
        forall|i: int| 0 <= i < s.len() ==> (#[trigger] s[i]) != '\'',
    ensures
        parse_word(s + seq!['\''], true, false) == Some(s),
    decreases s.len(),
{
    let t = s + seq!['\''];
    if s.len() == 0 {
        assert(t[0] == '\'');
        assert(t.drop_first() =~= Seq::<char>::empty());
        assert(parse_word(Seq::<char>::empty(), false, false) == Some(Seq::<char>::empty()));
        assert(parse_word(t, true, false) == Some(s));
    } else {
        assert(s[0] != '\'');
        assert(t[0] == s[0]);
        assert(t.drop_first() =~= s.drop_first() + seq!['\'']);
        lemma_parse_single_quoted(s.drop_first());
        assert(parse_word(t.drop_first(), true, false) == Some(s.drop_first()));
        assert(parse_word(t, true, false) == prepend(s[0], Some(s.drop_first())));
        assert(seq![s[0]] + s.drop_first() =~= s);
    }
}

proof fn lemma_dq_escape_char_inverts(c: char)
    ensures
        dq_escape_char(c).len() == 1 || dq_escape_char(c).len() == 2,
        dq_escape_char(c).len() == 2 ==> dq_escape_char(c)[0] == '\\' && dq_unescape_code(
            dq_escape_char(c)[1],
        ) == Some(c),
        dq_escape_char(c).len() == 1 ==> dq_escape_char(c)[0] == c && c != '"' && c != '\\',
{
    if c == '"' {
    } else if c == '\\' {
    } else if c == '$' {
    } else if c == '`' {
    } else if c == '\n' {
    } else if c == '\t' {
    } else if c == '\r' {
    } else {
    }
}

proof fn lemma_parse_double_quoted(s: Seq<char>)
    ensures
        parse_word(dq_escape(s) + seq!['"'], false, true) == Some(s),
    decreases s.len(),
{
    let t = dq_escape(s) + seq!['"'];
    if s.len() == 0 {
        assert(dq_escape(s) =~= Seq::<char>::empty());
        assert(t =~= seq!['"']);
        assert(t[0] == '"');
        assert(t.drop_first() =~= Seq::<char>::empty());
        assert(parse_word(Seq::<char>::empty(), false, false) == Some(Seq::<char>::empty()));
        assert(parse_word(t, false, true) == Some(s));
    } else {
        let e = dq_escape_char(s[0]);
        let rest = dq_escape(s.drop_first());
        assert(dq_escape(s) == e + rest);
        lemma_dq_escape_char_inverts(s[0]);
        lemma_parse_double_quoted(s.drop_first());
        if e.len() == 2 {
            assert(t[0] == '\\');
            assert(t[1] == e[1]);
            assert(t.len() >= 3);
            assert(t.skip(2) =~= rest + seq!['"']);
            assert(parse_word(t.skip(2), false, true) == Some(s.drop_first()));
            assert(dq_unescape_code(t[1]) == Some(s[0]));
            assert(parse_word(t, false, true) == prepend(s[0], Some(s.drop_first())));
            assert(seq![s[0]] + s.drop_first() =~= s);
        } else {
            assert(t[0] == e[0] && e[0] == s[0]);
            assert(t[0] != '"' && t[0] != '\\');
            assert(t.drop_first() =~= rest + seq!['"']);
            assert(parse_word(t.drop_first(), false, true) == Some(s.drop_first()));
            assert(parse_word(t, false, true) == prepend(s[0], Some(s.drop_first())));
            assert(seq![s[0]] + s.drop_first() =~= s);
        }
    }
}

/// Shell-safety of the quoter, for every raw text: a shell literal parser,
/// fed the quoted form of any raw text, reproduces exactly that text. Quoted
/// output is never ambiguous, whatever the text held.
pub proof fn lemma_shell_quote_round_trip(s: Seq<char>)
    ensures
        parse_shell_word(shell_quote(s)) == Some(s),
{
    if s.len() > 0 && all_safe(s) {
        lemma_parse_safe(s);
    } else if single_quotable(s) {
        let t = seq!['\''] + s + seq!['\''];
        assert(t[0] == '\'');
        assert(t.drop_first() =~= s + seq!['\'']);
        lemma_parse_single_quoted(s);
    } else {
        let t = seq!['"'] + dq_escape(s) + seq!['"'];
        assert(t[0] == '"');
        assert(t.drop_first() =~= dq_escape(s) + seq!['"']);
        lemma_parse_double_quoted(s);
    }
}

/// A plain identifier-like text is already safe, and its quoted form is the
/// text itself, with nothing added.
pub proof fn lemma_ident_quotes_to_itself(s: Seq<char>)
    requires
        s.len() > 0,
        forall|i: int| 0 <= i < s.len() ==> is_ident_char(#[trigger] s[i]),
    ensures
        shell_quote(s) == s,
{
    assert forall|i: int| 0 <= i < s.len() implies is_safe_char(#[trigger] s[i]) by {
        assert(is_ident_char(s[i]));
    }
}

/// A plain identifier-like text (letters, digits and underscores only) comes
/// through the whole string pipeline unchanged: decoding returns it as it
/// is, and quoting adds nothing, so such a string scalar renders as exactly
/// its own characters.
pub proof fn lemma_ident_renders_plain(s: Seq<char>)
    requires
        s.len() > 0,
        forall|i: int| 0 <= i < s.len() ==> is_ident_char(#[trigger] s[i]),
    ensures
        decode_literal(s) == s,
        shell_quote(decode_literal(s)) == s,
{
    assert forall|i: int| 0 <= i < s.len() implies (#[trigger] s[i]) != '\'' && s[i] != '"' by {
        assert(is_ident_char(s[i]));
    }
    assert(no_quote_chars(s));
    lemma_ident_quotes_to_itself(s);
}

/// The result of `snailquote::unescape`, named: it depends on the characters
/// of the argument alone. `None` stands for its error.
pub uninterp spec fn unescaped_of(s: Seq<char>) -> Option<Seq<char>>;

/// The raw text content of a document string literal: what unescaping yields.
/// A text holding no quote character is its own content (unescaping returns
/// it unchanged), and a text whose escapes are malformed is kept as it is, so
/// that rendering stays total.
pub open spec fn decode_literal(s: Seq<char>) -> Seq<char> {
    if no_quote_chars(s) {
        s
    } else {
        match unescaped_of(s) {
            Some(t) => t,
            None => s,
        }
    }
}

/// Relies on `snailquote::unescape`: the outcome is a function of the
/// characters alone; characters outside quotes pass through unchanged, so a
/// string without quote characters comes back as it is; an error can arise
/// only from a bad escape between double quotes.
#[verifier::external_body]
fn unescape_exec(s: &String) -> (r: Option<String>)
    ensures
        match r {
            Some(t) => unescaped_of(s@) == Some(t@) && (no_quote_chars(s@) ==> t@ == s@),
            None => unescaped_of(s@) is None && !no_quote_chars(s@),
        },
{
    match snailquote::unescape(s) {
        Ok(t) => Some(t),
        Err(_) => None,
    }
}

/// The raw text content of a document string literal, as `decode_literal`
/// states it.
pub fn decode_string_literal(s: &String) -> (r: String)
    ensures
        r@ == decode_literal(s@),
{
    match unescape_exec(s) {
        Some(t) => t,
        None => s.clone(),
    }
}

fn is_safe_char_exec(c: char) -> (r: bool)
    ensures
        r == is_safe_char(c),
{
    let u = c as u32;
    (97 <= u && u <= 122) || (65 <= u && u <= 90) || (48 <= u && u <= 57) || c == '_' || c == '-'
        || c == '.' || c == '/' || c == ':' || c == '@' || c == '%' || c == '+' || c == '='
        || c == ','
}

fn is_control_char_exec(c: char) -> (r: bool)
    ensures
        r == is_control_char(c),
{
    let u = c as u32;
    u < 32 || u == 127
}

/// The shell-quoted form of raw text, as `shell_quote` states it: the
/// minimal-quoting re-encoding of a decoded string for the shell.
pub fn encode_shell_literal(s: &String) -> (r: String)
    ensures
        r@ == shell_quote(s@),
{
    let st = s.as_str();
    let n = st.unicode_len();
    let mut safe_ok = n > 0;
    let mut single_ok = true;
    for i in 0..n
        invariant
            st@ == s@,
            n == s@.len(),
            safe_ok == (n > 0 && forall|j: int| 0 <= j < i ==> is_safe_char(#[trigger] s@[j])),
            single_ok == (forall|j: int|
                0 <= j < i ==> (#[trigger] s@[j]) != '\'' && !is_control_char(s@[j])),
    {
        let c = st.get_char(i);
        if !is_safe_char_exec(c) {
            safe_ok = false;
        }
        if c == '\'' || is_control_char_exec(c) {
            single_ok = false;
        }
    }
    if safe_ok {
        return s.clone();
    }
    let mut out = String::new();
    if single_ok {
        push_char(&mut out, '\'');
        out.append(st);
        push_char(&mut out, '\'');
        proof {
            assert(out@ =~= seq!['\''] + s@ + seq!['\'']);
        }
        out
    } else {
        push_char(&mut out, '"');
        proof {
            assert(s@.take(0) =~= Seq::<char>::empty());
            assert(out@ =~= seq!['"'] + dq_escape(s@.take(0)));
        }
        for i in 0..n
            invariant
                st@ == s@,
                n == s@.len(),
                out@ == seq!['"'] + dq_escape(s@.take(i as int)),
        {
            let c = st.get_char(i);
            proof {
                lemma_dq_escape_push(s@.take(i as int), c);
                assert(s@.take(i as int).push(c) =~= s@.take(i as int + 1));
            }
            if c == '"' {
                push_char(&mut out, '\\');
                push_char(&mut out, '"');
            } else if c == '\\' {
                push_char(&mut out, '\\');
                push_char(&mut out, '\\');
            } else if c == '$' {
                push_char(&mut out, '\\');
                push_char(&mut out, '$');
            } else if c == '`' {
                push_char(&mut out, '\\');
                push_char(&mut out, '`');
            } else if c == '\n' {
                push_char(&mut out, '\\');
                push_char(&mut out, 'n');
            } else if c == '\t' {
                push_char(&mut out, '\\');
                push_char(&mut out, 't');
            } else if c == '\r' {
                push_char(&mut out, '\\');
                push_char(&mut out, 'r');
            } else {
                push_char(&mut out, c);
            }
            proof {
                assert(out@ =~= seq!['"'] + dq_escape(s@.take(i as int + 1)));
            }
        }
        proof {
            assert(s@.take(n as int) =~= s@);
        }
        push_char(&mut out, '"');
        proof {
            assert(out@ =~= seq!['"'] + dq_escape(s@) + seq!['"']);
        }
        out
    }
}

proof fn lemma_dq_escape_push(t: Seq<char>, c: char)
    ensures
        dq_escape(t.push(c)) == dq_escape(t) + dq_escape_char(c),
    decreases t.len(),
{
    if t.len() == 0 {
        assert(t.push(c)[0] == c);
        assert(t.push(c).drop_first() =~= Seq::<char>::empty());
        assert(dq_escape(Seq::<char>::empty()) == Seq::<char>::empty());
        assert(dq_escape(t.push(c)) == dq_escape_char(c) + Seq::<char>::empty());
        assert(dq_escape(t.push(c)) =~= dq_escape(t) + dq_escape_char(c));
    } else {
        assert(t.push(c)[0] == t[0]);
        assert(t.push(c).drop_first() =~= t.drop_first().push(c));
        lemma_dq_escape_push(t.drop_first(), c);
        assert(dq_escape(t.push(c)) == dq_escape_char(t[0]) + dq_escape(t.drop_first().push(c)));
        assert(dq_escape(t.push(c)) == dq_escape_char(t[0]) + (dq_escape(t.drop_first())
            + dq_escape_char(c)));
        assert(dq_escape(t) == dq_escape_char(t[0]) + dq_escape(t.drop_first()));
        assert(dq_escape_char(t[0]) + (dq_escape(t.drop_first()) + dq_escape_char(c)) =~= (
        dq_escape_char(t[0]) + dq_escape(t.drop_first())) + dq_escape_char(c));
        assert(dq_escape(t.push(c)) =~= dq_escape(t) + dq_escape_char(c));
    }
}

} // verus!
