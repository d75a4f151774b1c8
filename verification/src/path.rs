use vstd::prelude::*;
use vstd::string::*;
use crate::text::{join_with, lemma_join_with_push, push_char};
use crate::value::{get_spec, Value};

verus! {

/// The character sequences of a sequence of strings.
pub open spec fn string_views(parts: Seq<String>) -> Seq<Seq<char>> {
    parts.map_values(|p: String| p@)
}

/// The segments of a dotted path string: the text split on every `.`, with
/// empty segments kept, so that the empty string yields one empty segment.
pub open spec fn split_dots_spec(s: Seq<char>) -> Seq<Seq<char>>
    decreases s.len(),
{
    if s.len() == 0 {
        seq![Seq::<char>::empty()]
    } else if s[0] == '.' {
        seq![Seq::<char>::empty()] + split_dots_spec(s.drop_first())
    } else {
        let rest = split_dots_spec(s.drop_first());
        seq![seq![s[0]] + rest[0]] + rest.drop_first()
    }
}

/// Splitting always yields at least one segment.
pub proof fn lemma_split_nonempty(s: Seq<char>)
    ensures
        split_dots_spec(s).len() >= 1,
{
    if s.len() == 0 {
    } else if s[0] == '.' {
    } else {
    }
}

/// Joining the segments of a split with `.` gives back the very string that
/// was split: the dotted path a resolution failure reports is the original
/// request, unmodified.
pub proof fn lemma_split_join_round_trip(s: Seq<char>)
    ensures
        join_with(split_dots_spec(s), '.') == s,
    decreases s.len(),
{
    if s.len() == 0 {
        assert(join_with(split_dots_spec(s), '.') =~= s);
    } else if s[0] == '.' {
        lemma_split_join_round_trip(s.drop_first());
        lemma_split_nonempty(s.drop_first());
        let parts = split_dots_spec(s);
        assert(parts[0] =~= Seq::<char>::empty());
        assert(parts.drop_first() =~= split_dots_spec(s.drop_first()));
        assert(parts.len() >= 2);
        assert(join_with(parts, '.') =~= parts[0] + seq!['.'] + join_with(
            parts.drop_first(),
            '.',
        ));
        assert(join_with(parts, '.') =~= s);
    } else {
        lemma_split_join_round_trip(s.drop_first());
        lemma_split_nonempty(s.drop_first());
        let rest = split_dots_spec(s.drop_first());
        let parts = split_dots_spec(s);
        assert(parts[0] == seq![s[0]] + rest[0]);
        assert(parts.drop_first() =~= rest.drop_first());
        if rest.len() == 1 {
            assert(parts.len() == 1);
            assert(join_with(rest, '.') == rest[0]);
            assert(rest[0] == s.drop_first());
            assert(s =~= seq![s[0]] + s.drop_first());
            assert(join_with(parts, '.') == parts[0]);
            assert(join_with(parts, '.') =~= s);
        } else {
            assert(parts.len() >= 2);
            assert(join_with(rest, '.') == rest[0] + seq!['.'] + join_with(
                rest.drop_first(),
                '.',
            ));
            assert(join_with(parts, '.') =~= parts[0] + seq!['.'] + join_with(
                parts.drop_first(),
                '.',
            ));
            let j = join_with(rest.drop_first(), '.');
            assert(join_with(parts.drop_first(), '.') == j);
            assert(s.drop_first() == rest[0] + seq!['.'] + j);
            assert(parts[0] + seq!['.'] + j =~= seq![s[0]] + (rest[0] + seq!['.'] + j));
            assert(seq![s[0]] + (rest[0] + seq!['.'] + j) =~= seq![s[0]] + s.drop_first());
            assert(s =~= seq![s[0]] + s.drop_first());
            assert(join_with(parts, '.') =~= s);
        }
    }
}

/// The first segment of `segs` with `p` put in front of it, the other
/// segments unchanged.
spec fn prefix_first(p: Seq<char>, segs: Seq<Seq<char>>) -> Seq<Seq<char>> {
    seq![p + segs[0]] + segs.drop_first()
}

/// The segments of a dotted path string, split on every `.`.
pub fn split_dots(s: &str) -> (r: Vec<String>)
    ensures
        string_views(r@) == split_dots_spec(s@),
{
    let n = s.unicode_len();
    let mut parts: Vec<String> = Vec::new();
    let mut cur: String = String::new();
    proof {
        assert(s@.skip(0) =~= s@);
        lemma_split_nonempty(s@);
        assert(string_views(parts@) =~= Seq::<Seq<char>>::empty());
        assert(Seq::<char>::empty() + split_dots_spec(s@)[0] =~= split_dots_spec(s@)[0]);
        assert(prefix_first(Seq::<char>::empty(), split_dots_spec(s@)) =~= split_dots_spec(s@));
        assert(string_views(parts@) + split_dots_spec(s@) =~= split_dots_spec(s@));
    }
    for i in 0..n
        invariant
            n == s@.len(),
            split_dots_spec(s@) =~= string_views(parts@) + prefix_first(
                cur@,
                split_dots_spec(s@.skip(i as int)),
            ),
    {
        let c = s.get_char(i);
        proof {
            assert(s@.skip(i as int).len() > 0);
            assert(s@.skip(i as int)[0] == s@[i as int]);
            assert(s@.skip(i as int).drop_first() =~= s@.skip(i as int + 1));
            lemma_split_nonempty(s@.skip(i as int + 1));
        }
        if c == '.' {
            proof {
                let x = split_dots_spec(s@.skip(i as int + 1));
                assert(split_dots_spec(s@.skip(i as int)) =~= seq![Seq::<char>::empty()] + x);
                assert(prefix_first(cur@, split_dots_spec(s@.skip(i as int))) =~= seq![cur@] + x);
                assert(Seq::<char>::empty() + x[0] =~= x[0]);
                assert(prefix_first(Seq::<char>::empty(), x) =~= x);
            }
            parts.push(cur);
            cur = String::new();
            proof {
                assert(string_views(parts@) =~= string_views(parts@.drop_last()).push(
                    parts@.last()@,
                ));
            }
        } else {
            proof {
                let x = split_dots_spec(s@.skip(i as int));
                let y = split_dots_spec(s@.skip(i as int + 1));
                assert(x =~= seq![seq![s@[i as int]] + y[0]] + y.drop_first());
                assert(cur@ + x[0] =~= cur@.push(c) + y[0]);
                assert(prefix_first(cur@, x) =~= prefix_first(cur@.push(c), y));
            }
            push_char(&mut cur, c);
        }
    }
    proof {
        assert(s@.skip(n as int) =~= Seq::<char>::empty());
        assert(split_dots_spec(s@.skip(n as int)) =~= seq![Seq::<char>::empty()]);
        assert(prefix_first(cur@, seq![Seq::<char>::empty()]) =~= seq![cur@]);
    }
    parts.push(cur);
    proof {
        assert(string_views(parts@) =~= string_views(parts@.drop_last()).push(parts@.last()@));
    }
    parts
}

/// The segments joined back into one dotted string.
pub fn join_dots(parts: &Vec<String>) -> (r: String)
    ensures
        r@ == join_with(string_views(parts@), '.'),
{
    let mut out = String::new();
    let n = parts.len();
    for i in 0..n
        invariant
            n == parts.len(),
            out@ == join_with(string_views(parts@.take(i as int)), '.'),
            string_views(parts@.take(i as int)).len() == i,
    {
        if i > 0 {
            push_char(&mut out, '.');
        }
        let p = &parts[i];
        out.append(p.as_str());
        proof {
            lemma_join_with_push(string_views(parts@.take(i as int)), '.', p@);
            assert(string_views(parts@.take(i as int)).push(p@) =~= string_views(
                parts@.take(i as int + 1),
            ));
            if i == 0 {
                assert(out@ =~= join_with(string_views(parts@.take(i as int + 1)), '.'));
            } else {
                assert(out@ =~= join_with(string_views(parts@.take(i as int)), '.') + seq!['.']
                    + p@);
            }
        }
    }
    proof {
        assert(parts@.take(n as int) =~= parts@);
    }
    out
}

/// A requested key path: the dotted request split into its plain segments.
pub struct ExportSpec {
    pub path: Vec<String>,
}

impl ExportSpec {
    /// The key path that a dotted request string denotes. Splitting never
    /// fails; the empty string denotes the single empty-string key.
    pub fn from_str(s: &str) -> (r: ExportSpec)
        ensures
            string_views(r.path@) == split_dots_spec(s@),
            r.path@.len() >= 1,
    {
        let path = split_dots(s);
        proof {
            lemma_split_nonempty(s@);
            assert(string_views(path@).len() == path@.len());
        }
        ExportSpec { path }
    }
}

/// The failure of a path resolution. `key` holds the full dotted path that
/// was requested — never just the segment that was absent.
pub struct MissingKey {
    pub key: String,
}

/// The value a key path reaches: starting from `v`, each segment in order is
/// looked up in the table at hand; nothing is reached when a node on the way
/// is not a table or lacks the key.
pub open spec fn resolve_spec(v: Value, path: Seq<Seq<char>>) -> Option<Value>
    decreases path.len(),
{
    if path.len() == 0 {
        Some(v)
    } else {
        match get_spec(v, path[0]) {
            Some(child) => resolve_spec(child, path.drop_first()),
            None => None,
        }
    }
}

/// The value under `path` inside `obj`: exactly the sub-value reached by
/// following each segment as a table lookup, in order, or a `MissingKey`
/// carrying the whole dotted path when any step fails.
pub fn get_path<'a>(obj: &'a Value, path: &Vec<String>) -> (r: Result<&'a Value, MissingKey>)
    ensures
        match r {
            Ok(v) => resolve_spec(*obj, string_views(path@)) == Some(*v),
            Err(e) => resolve_spec(*obj, string_views(path@)) is None && e.key@ == join_with(
                string_views(path@),
                '.',
            ),
        },
{
    let mut cur: &'a Value = obj;
    let n = path.len();
    proof {
        assert(string_views(path@).skip(0) =~= string_views(path@));
    }
    for i in 0..n
        invariant
            n == path.len(),
            resolve_spec(*obj, string_views(path@)) == resolve_spec(
                *cur,
                string_views(path@).skip(i as int),
            ),
    {
        let key = &path[i];
        proof {
            assert(string_views(path@).skip(i as int).len() > 0);
            assert(string_views(path@).skip(i as int)[0] == path@[i as int]@);
            assert(string_views(path@).skip(i as int).drop_first() =~= string_views(
                path@,
            ).skip(i as int + 1));
        }
        match cur.get(key) {
            Some(next) => {
                cur = next;
            },
            None => {
                return Err(MissingKey { key: join_dots(path) });
            },
        }
    }
    proof {
        assert(string_views(path@).skip(n as int) =~= Seq::<Seq<char>>::empty());
    }
    Ok(cur)
}

} // verus!
