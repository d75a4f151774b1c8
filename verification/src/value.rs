use vstd::prelude::*;

verus! {

/// A node of a parsed configuration document.
///
/// `Float` and `Timestamp` carry the canonical rendered text of the number or
/// timestamp (shortest round-trip decimal, ISO-8601-style text): the document
/// parser produces that text, and nothing here ever reads the value any other
/// way. Neither alphabet contains a shell metacharacter, so the text is
/// emitted bare.
///
/// A `Table` keeps its entries in document insertion order; the upstream
/// parser guarantees that keys are unique, and lookups take the first match.
pub enum Value {
    String(String),
    Boolean(bool),
    Integer(i64),
    Float(String),
    Timestamp(String),
    Array(Vec<Value>),
    Table(Vec<(String, Value)>),
}

/// A scalar node: one that renders as a single bare token. Composite nodes
/// (`Array`, `Table`) are the ones the renderer skips when they appear inside
/// another composite.
pub open spec fn is_atomic_spec(v: Value) -> bool {
    match v {
        Value::String(_) => true,
        Value::Boolean(_) => true,
        Value::Integer(_) => true,
        Value::Float(_) => true,
        Value::Timestamp(_) => true,
        Value::Array(_) => false,
        Value::Table(_) => false,
    }
}

/// The value under `key` in an entry list: the first entry whose key matches,
/// if any.
pub open spec fn lookup(entries: Seq<(String, Value)>, key: Seq<char>) -> Option<Value>
    decreases entries.len(),
{
    if entries.len() == 0 {
        None
    } else if entries[0].0@ == key {
        Some(entries[0].1)
    } else {
        lookup(entries.drop_first(), key)
    }
}

/// The value under `key` in `v`: a lookup when `v` is a table, nothing
/// otherwise.
pub open spec fn get_spec(v: Value, key: Seq<char>) -> Option<Value> {
    match v {
        Value::Table(entries) => lookup(entries@, key),
        _ => None,
    }
}

/// The first entry of `entries` whose key is `key`, by a front-to-back scan.
fn lookup_in<'a>(entries: &'a Vec<(String, Value)>, key: &String) -> (r: Option<&'a Value>)
    ensures
        match r {
            Some(v) => lookup(entries@, key@) == Some(*v),
            None => lookup(entries@, key@) is None,
        },
{
    let n = entries.len();
    proof {
        assert(entries@.skip(0) =~= entries@);
    }
    for i in 0..n
        invariant
            n == entries.len(),
            lookup(entries@, key@) == lookup(entries@.skip(i as int), key@),
    {
        let pair = &entries[i];
        proof {
            assert(entries@.skip(i as int)[0] == entries@[i as int]);
            assert(entries@.skip(i as int).drop_first() =~= entries@.skip(i as int + 1));
        }
        if pair.0 == *key {
            proof {
                assert(entries@.skip(i as int).len() > 0);
                assert(lookup(entries@.skip(i as int), key@) == Some(entries@[i as int].1));
            }
            return Some(&pair.1);
        }
    }
    proof {
        assert(entries@.skip(n as int) =~= Seq::<(String, Value)>::empty());
    }
    None
}

impl Value {
    /// Whether this node is a scalar.
    pub fn is_atomic(&self) -> (r: bool)
        ensures
            r == is_atomic_spec(*self),
    {
        match self {
            Value::String(_) => true,
            Value::Boolean(_) => true,
            Value::Integer(_) => true,
            Value::Float(_) => true,
            Value::Timestamp(_) => true,
            Value::Array(_) => false,
            Value::Table(_) => false,
        }
    }

    /// The value under `key`, when this node is a table that has it.
    pub fn get<'a>(&'a self, key: &String) -> (r: Option<&'a Value>)
        ensures
            match r {
                Some(v) => get_spec(*self, key@) == Some(*v),
                None => get_spec(*self, key@) is None,
            },
    {
        match self {
            Value::Table(entries) => lookup_in(entries, key),
            _ => None,
        }
    }
}

} // verus!
