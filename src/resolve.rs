//! From an alias to the shell command line that runs it, and from a path to
//! the alias it is added under.

use vstd::prelude::*;
use crate::store::{lookup, upserted, AliasStore, Entries};

verus! {

/// Why an alias could not be resolved.
pub enum ResolveError {
    /// No alias has this key.
    AliasNotFound(String),
}

/// The arguments joined by single spaces.
pub open spec fn joined_args(args: Seq<Seq<char>>) -> Seq<char>
    decreases args.len(),
{
    if args.len() == 0 {
        seq![]
    } else if args.len() == 1 {
        args[0]
    } else {
        joined_args(args.drop_last()) + seq![' '] + args.last()
    }
}

/// The command line for `path` and `args`: the path, one space, then the
/// arguments joined by single spaces, none of them quoted.
pub open spec fn command_line(path: Seq<char>, args: Seq<Seq<char>>) -> Seq<char> {
    path + seq![' '] + joined_args(args)
}

/// The views of a list of strings.
pub open spec fn texts(args: Seq<String>) -> Seq<Seq<char>> {
    args.map_values(|a: String| a@)
}

/// Builds the command line for `path` and `args`.
pub fn build_command_line(path: &str, args: &Vec<String>) -> (r: String)
    ensures
        r@ == command_line(path@, texts(args@)),
{
    let mut line: Vec<char> = crate::chars::chars_of(path);
    line.push(' ');
    let ghost head = line@;
    let mut i: usize = 0;
    assert(texts(args@).take(0) =~= Seq::<Seq<char>>::empty());
    while i < args.len()
        invariant
            i <= args@.len(),
            line@ == head + joined_args(texts(args@).take(i as int)),
        decreases args@.len() - i,
    {
        let ghost before = line@;
        if i > 0 {
            line.push(' ');
        }
        let a = crate::chars::chars_of(args[i].as_str());
        crate::chars::push_range(&mut line, &a, 0, a.len());
        assert(a@.subrange(0, a@.len() as int) =~= a@);
        let ghost ts = texts(args@).take(i + 1);
        assert(ts.drop_last() =~= texts(args@).take(i as int));
        assert(ts.last() == args@[i as int]@);
        if i == 0 {
            assert(line@ =~= head + joined_args(ts));
        } else {
            assert(line@ =~= head + joined_args(ts));
        }
        i = i + 1;
    }
    assert(texts(args@).take(i as int) =~= texts(args@));
    assert(head =~= path@ + seq![' ']);
    crate::chars::text_of(&line)
}

/// Looks up `key` and builds the command line that runs its path with `args`.
pub fn resolve_command(store: &AliasStore, key: &str, args: &Vec<String>) -> (r: Result<
    String,
    ResolveError,
>)
    requires
        store.well_formed(),
    ensures
        lookup(store@, key@) is None ==> r is Err && r->Err_0->AliasNotFound_0@ == key@,
        lookup(store@, key@) is Some ==> r is Ok && r->Ok_0@ == command_line(
            lookup(store@, key@)->0,
            texts(args@),
        ),
{
    match store.get(key) {
        Some(path) => Ok(build_command_line(path.as_str(), args)),
        None => Err(ResolveError::AliasNotFound(key.to_owned())),
    }
}

/// The position of the last `.` in `s`, or -1 where there is none.
pub open spec fn last_dot(s: Seq<char>) -> int
    decreases s.len(),
{
    if s.len() == 0 {
        -1
    } else if s.last() == '.' {
        s.len() - 1
    } else {
        last_dot(s.drop_last())
    }
}

/// The alias key for a file name: the name up to its last `.`, or the whole
/// name where it has no `.`.
pub open spec fn key_of(name: Seq<char>) -> Seq<char> {
    if last_dot(name) < 0 {
        name
    } else {
        name.take(last_dot(name))
    }
}

proof fn lemma_last_dot_bounds(s: Seq<char>)
    ensures
        -1 <= last_dot(s) < s.len(),
        last_dot(s) >= 0 ==> s[last_dot(s)] == '.',
    decreases s.len(),
{
    if s.len() > 0 && s.last() != '.' {
        lemma_last_dot_bounds(s.drop_last());
    }
}

/// The alias key for a file name, which drops its last extension.
pub fn key_from_file_name(name: &str) -> (r: String)
    ensures
        r@ == key_of(name@),
{
    let v = crate::chars::chars_of(name);
    let mut i: usize = v.len();
    assert(v@.take(i as int) =~= v@);
    while i > 0 && v[i - 1] != '.'
        invariant
            i <= v@.len(),
            last_dot(v@) == last_dot(v@.take(i as int)),
        decreases i,
    {
        assert(v@.take(i as int).drop_last() =~= v@.take(i - 1));
        i = i - 1;
    }
    proof {
        lemma_last_dot_bounds(v@);
    }
    if i == 0 {
        assert(v@.take(0) =~= Seq::<char>::empty());
        crate::chars::text_of(&v)
    } else {
        assert(v@.take(i as int).drop_last() =~= v@.take(i - 1));
        let mut k: Vec<char> = Vec::new();
        crate::chars::push_range(&mut k, &v, 0, i - 1);
        assert(k@ =~= v@.take(i - 1));
        crate::chars::text_of(&k)
    }
}

/// The last component of a path as text, or `None` where it has none.
pub uninterp spec fn file_name_of(path: Seq<char>) -> Option<Seq<char>>;

/// Relies on `std::path::Path::file_name`: the final component of the path,
/// `None` where the path ends in `..` or is a root.
#[verifier::external_body]
fn file_name(path: &str) -> (r: Option<String>)
    ensures
        r is Some <==> file_name_of(path@) is Some,
        r is Some ==> r->0@ == file_name_of(path@)->0,
{
    std::path::Path::new(path).file_name().map(|n| n.to_string_lossy().into_owned())
}

/// The alias key for a path: its file name without the last extension.
pub fn key_from_path(path: &str) -> (r: Option<String>)
    ensures
        file_name_of(path@) is None ==> r is None,
        file_name_of(path@) is Some ==> r is Some && r->0@ == key_of(file_name_of(path@)->0),
{
    match file_name(path) {
        Some(n) => Some(key_from_file_name(n.as_str())),
        None => None,
    }
}

/// Adds `path` under the key derived from its file name and returns that key;
/// a path without a file name leaves the table unchanged.
pub fn add_alias(store: &mut AliasStore, path: &str) -> (r: Option<String>)
    requires
        old(store).well_formed(),
    ensures
        final(store).well_formed(),
        file_name_of(path@) is None ==> r is None && final(store)@ == old(store)@,
        file_name_of(path@) is Some ==> r is Some && r->0@ == key_of(file_name_of(path@)->0)
            && final(store)@ == upserted(old(store)@, r->0@, path@),
{
    match key_from_path(path) {
        Some(key) => {
            store.upsert(key.clone(), path.to_owned());
            Some(key)
        },
        None => None,
    }
}


/// One `key: path` line per alias, in table order.
pub open spec fn alias_lines(s: Entries) -> Seq<char>
    decreases s.len(),
{
    if s.len() == 0 {
        seq![]
    } else {
        alias_lines(s.drop_last()) + s.last().0 + seq![':', ' '] + s.last().1 + seq!['\n']
    }
}

/// The message shown for an empty table.
pub open spec fn no_aliases_text() -> Seq<char> {
    seq![
        'N', 'o', ' ', 'p', 'r', 'o', 'x', 'i', 'e', 's', ' ', 'r', 'e', 'g', 'i', 's', 't', 'e',
        'r', 'e', 'd',
    ]
}

/// The text of the alias listing: one `key: path` line per alias, or a note
/// that there are none.
pub fn listing(store: &AliasStore) -> (r: String)
    ensures
        store@.len() == 0 ==> r@ == no_aliases_text(),
        store@.len() > 0 ==> r@ == alias_lines(store@),
{
    let entries = store.list();
    let ghost s = store@;
    if entries.len() == 0 {
        assert(entries@.map_values(|e: (String, String)| (e.0@, e.1@)).len() == 0);
        let v: Vec<char> = vec![
            'N', 'o', ' ', 'p', 'r', 'o', 'x', 'i', 'e', 's', ' ', 'r', 'e', 'g', 'i', 's', 't', 'e',
            'r', 'e', 'd',
        ];
        assert(v@ =~= no_aliases_text());
        return crate::chars::text_of(&v);
    }
    let mut out: Vec<char> = Vec::new();
    let mut i: usize = 0;
    assert(s.take(0) =~= Seq::<(Seq<char>, Seq<char>)>::empty());
    while i < entries.len()
        invariant
            i <= entries@.len(),
            entries@.map_values(|e: (String, String)| (e.0@, e.1@)) == s,
            out@ == alias_lines(s.take(i as int)),
        decreases entries@.len() - i,
    {
        let k = crate::chars::chars_of(entries[i].0.as_str());
        let p = crate::chars::chars_of(entries[i].1.as_str());
        crate::chars::push_range(&mut out, &k, 0, k.len());
        out.push(':');
        out.push(' ');
        crate::chars::push_range(&mut out, &p, 0, p.len());
        out.push('\n');
        assert(k@.subrange(0, k@.len() as int) =~= k@);
        assert(p@.subrange(0, p@.len() as int) =~= p@);
        assert(s[i as int] == (entries@[i as int].0@, entries@[i as int].1@));
        assert(s.take(i + 1).drop_last() =~= s.take(i as int));
        assert(out@ =~= alias_lines(s.take(i + 1)));
        i = i + 1;
    }
    assert(s.take(i as int) =~= s);
    crate::chars::text_of(&out)
}

} // verus!
