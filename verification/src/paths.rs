//! File paths, as text with `/` between the components.
use vstd::prelude::*;
use crate::text::{append_chars, append_str, chars_of, string_of};

verus! {

broadcast use vstd::seq::group_seq_axioms;

/// `name` inside the directory `dir`: a separator between the two where `dir`
/// does not end in one. An absolute `name` stands for itself.
pub open spec fn joined(dir: Seq<char>, name: Seq<char>) -> Seq<char> {
    if name.len() > 0 && name[0] == '/' {
        name
    } else if dir.len() == 0 || dir.last() == '/' {
        dir + name
    } else {
        dir.push('/') + name
    }
}

/// Joins a directory and a file name.
pub fn join_path(dir: &str, name: &str) -> (r: String)
    ensures
        r@ == joined(dir@, name@),
{
    let d = chars_of(dir);
    let n = chars_of(name);
    if n.len() > 0 && n[0] == '/' {
        return string_of(&n);
    }
    let mut out: Vec<char> = Vec::new();
    append_chars(&mut out, &d);
    assert(out@ =~= d@);
    if d.len() > 0 && d[d.len() - 1] != '/' {
        out.push('/');
    }
    append_chars(&mut out, &n);
    string_of(&out)
}

/// `path` with a dot and `suffix` behind it.
pub open spec fn dotted(path: Seq<char>, suffix: Seq<char>) -> Seq<char> {
    path.push('.') + suffix
}

/// Appends a dot and `suffix` to a path, whatever extension it has already.
pub fn with_suffix(path: &str, suffix: &str) -> (r: String)
    ensures
        r@ == dotted(path@, suffix@),
{
    let mut out = chars_of(path);
    out.push('.');
    append_str(&mut out, suffix);
    string_of(&out)
}

/// `prefix` with `tail` behind it.
pub fn concat(prefix: &str, tail: &str) -> (r: String)
    ensures
        r@ == prefix@ + tail@,
{
    let mut out = chars_of(prefix);
    append_str(&mut out, tail);
    string_of(&out)
}

/// A name inside a directory stands behind the directory, with one separator
/// between them; an absolute name stands for itself.
pub proof fn law_names_stand_behind_directories(dir: Seq<char>, name: Seq<char>)
    ensures
        dir.len() > 0 && dir.last() != '/' && (name.len() == 0 || name[0] != '/') ==> joined(
            dir,
            name,
        ) == dir + seq!['/'] + name,
        name.len() == 0 || name[0] != '/' ==> joined(dir + seq!['/'], name) == dir + seq!['/'] + name,
        name.len() > 0 && name[0] == '/' ==> joined(dir, name) == name,
        dotted(dir, name) == dir + seq!['.'] + name,
{
    assert(dir.push('/') + name =~= dir + seq!['/'] + name);
    assert(dir.push('.') + name =~= dir + seq!['.'] + name);
    assert((dir + seq!['/']).last() == '/');
}

} // verus!
