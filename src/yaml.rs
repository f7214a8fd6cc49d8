//! A YAML document tree, as the generator reads and writes it.
use vstd::prelude::*;
use vstd::string::StringExecFns;
use crate::text::{chars_of, is_text};

verus! {

/// One YAML node. Numbers that are not 64-bit integers keep their text.
#[derive(Debug)]
pub enum Yaml {
    Null,
    Bool(bool),
    Int(i64),
    Real(String),
    Text(String),
    List(Vec<Yaml>),
    Dict(Vec<(Yaml, Yaml)>),
    Tagged(String, Box<Yaml>),
}

/// Whether `y` is the string `t`.
pub open spec fn is_text_node(y: Yaml, t: Seq<char>) -> bool {
    match y {
        Yaml::Text(s) => s@ == t,
        _ => false,
    }
}

/// Whether `y` is the integer `n`.
pub open spec fn is_int_node(y: Yaml, n: int) -> bool {
    match y {
        Yaml::Int(v) => v == n,
        _ => false,
    }
}

/// Whether `y` is the boolean `b`.
pub open spec fn is_bool_node(y: Yaml, b: bool) -> bool {
    match y {
        Yaml::Bool(v) => v == b,
        _ => false,
    }
}

/// Whether the entry is keyed by the string `k` and holds the string `v`.
pub open spec fn is_text_entry(e: (Yaml, Yaml), k: Seq<char>, v: Seq<char>) -> bool {
    is_text_node(e.0, k) && is_text_node(e.1, v)
}

/// `i` is the first entry keyed by the string `k`.
pub open spec fn first_key(entries: Seq<(Yaml, Yaml)>, k: Seq<char>, i: int) -> bool {
    &&& 0 <= i < entries.len()
    &&& is_text_node(entries[i].0, k)
    &&& forall|j: int| 0 <= j < i ==> !is_text_node(#[trigger] entries[j].0, k)
}

/// No entry is keyed by the string `k`.
pub open spec fn no_key(entries: Seq<(Yaml, Yaml)>, k: Seq<char>) -> bool {
    forall|j: int| 0 <= j < entries.len() ==> !is_text_node(#[trigger] entries[j].0, k)
}

/// `new` is `old` with `(k, v)` inserted: the value replaced in place where the
/// key is present, else the entry appended.
pub open spec fn is_inserted(
    old: Seq<(Yaml, Yaml)>,
    new: Seq<(Yaml, Yaml)>,
    k: Seq<char>,
    v: Yaml,
) -> bool {
    &&& forall|i: int|
        first_key(old, k, i) ==> {
            &&& new.len() == old.len()
            &&& is_text_node(new[i].0, k)
            &&& new[i].1 == v
            &&& forall|j: int| 0 <= j < old.len() && j != i ==> new[j] == old[j]
        }
    &&& no_key(old, k) ==> {
        &&& new.len() == old.len() + 1
        &&& new.take(old.len() as int) == old
        &&& is_text_node(new.last().0, k)
        &&& new.last().1 == v
    }
}

/// The value under the string key `k`, if any.
pub open spec fn lookup(entries: Seq<(Yaml, Yaml)>, k: Seq<char>) -> Option<Yaml> {
    if exists|i: int| first_key(entries, k, i) {
        Some(entries[choose|i: int| first_key(entries, k, i)].1)
    } else {
        None
    }
}

pub proof fn lemma_first_key_unique(entries: Seq<(Yaml, Yaml)>, k: Seq<char>, i: int, j: int)
    requires
        first_key(entries, k, i),
        first_key(entries, k, j),
    ensures
        i == j,
{
}

pub proof fn lemma_lookup_first(entries: Seq<(Yaml, Yaml)>, k: Seq<char>, i: int)
    requires
        first_key(entries, k, i),
    ensures
        lookup(entries, k) == Some(entries[i].1),
{
    let j = choose|j: int| first_key(entries, k, j);
    lemma_first_key_unique(entries, k, i, j);
}

pub proof fn lemma_lookup_none(entries: Seq<(Yaml, Yaml)>, k: Seq<char>)
    requires
        no_key(entries, k),
    ensures
        lookup(entries, k) is None,
{
}

/// Whether `y` is a string node holding `k`.
pub fn node_is_text(y: &Yaml, k: &str) -> (r: bool)
    ensures
        r == is_text_node(*y, k@),
{
    match y {
        Yaml::Text(s) => {
            let a = chars_of(s.as_str());
            is_text(&a, k)
        },
        _ => false,
    }
}

/// Finds the first entry keyed by the string `k`.
pub fn find_key(entries: &Vec<(Yaml, Yaml)>, k: &str) -> (r: Option<usize>)
    ensures
        match r {
            Some(i) => first_key(entries@, k@, i as int),
            None => no_key(entries@, k@),
        },
{
    let mut i: usize = 0;
    while i < entries.len()
        invariant
            i <= entries.len(),
            forall|j: int| 0 <= j < i ==> !is_text_node(#[trigger] entries@[j].0, k@),
        decreases entries.len() - i,
    {
        if node_is_text(&entries[i].0, k) {
            return Some(i);
        }
        i += 1;
    }
    None
}

/// A string node holding `k`.
pub fn text_node(k: &str) -> (r: Yaml)
    ensures
        is_text_node(r, k@),
{
    Yaml::Text(String::from_str(k))
}

/// Inserts `(k, v)`: the value is replaced in place where the key is present,
/// else the entry is appended.
pub fn dict_insert(entries: &mut Vec<(Yaml, Yaml)>, k: &str, v: Yaml)
    ensures
        is_inserted(old(entries)@, final(entries)@, k@, v),
{
    match find_key(entries, k) {
        Some(i) => {
            entries.set(i, (text_node(k), v));
            proof {
                assert forall|j: int| first_key(old(entries)@, k@, j) implies j == i by {
                    lemma_first_key_unique(old(entries)@, k@, i as int, j);
                }
            }
        },
        None => {
            entries.push((text_node(k), v));
            assert(entries@.take(old(entries)@.len() as int) =~= old(entries)@);
        },
    }
}

} // verus!
