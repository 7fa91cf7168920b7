//! Reading and writing the alias table as a JSON document
//! `{"db_version": <n>, "cmds": {<key>: <path>, ...}}`.

use vstd::prelude::*;
use vstd::string::StringExecFns;
use crate::store::{upserted, AliasStore, Entries};

verus! {

#[verifier::external_type_specification]
#[verifier::external_body]
pub struct ExJsonValue(json::JsonValue);

#[verifier::external_type_specification]
#[verifier::external_body]
pub struct ExJsonError(json::Error);

#[verifier::external_type_specification]
#[verifier::external_body]
pub struct ExIoError(std::io::Error);

/// The format version written into new and saved tables.
pub const DB_VERSION: u8 = 1;

/// Why the table could not be loaded.
pub enum DBError {
    /// The backing file could not be read or written.
    IOError(std::io::Error),
    /// The text is not JSON.
    JsonError(json::Error),
    /// The text is JSON, but not an object whose `cmds` member is an object of strings.
    Malformed,
}

/// The value that `json::parse` makes of `s`, or `None` where it reports an error.
pub uninterp spec fn parsed_json(s: Seq<char>) -> Option<json::JsonValue>;

/// The members of a JSON object in order, or `None` for any other value.
pub uninterp spec fn json_members(v: json::JsonValue) -> Option<Seq<(Seq<char>, json::JsonValue)>>;

/// The text of a JSON string, or `None` for any other value.
pub uninterp spec fn json_text(v: json::JsonValue) -> Option<Seq<char>>;

/// The number a JSON value holds where it is an unsigned integer that fits `u64`.
pub uninterp spec fn json_u64(v: json::JsonValue) -> Option<u64>;

/// What `JsonValue::dump` writes for a value.
pub uninterp spec fn json_dump(v: json::JsonValue) -> Seq<char>;

/// Relies on `json::parse`: `Ok` with the parsed value exactly when the text is JSON.
#[verifier::external_body]
fn parse_json(text: &str) -> (r: Result<json::JsonValue, json::Error>)
    ensures
        r is Ok <==> parsed_json(text@) is Some,
        r is Ok ==> r->Ok_0 == parsed_json(text@)->0,
{
    json::parse(text)
}

/// Relies on `JsonValue::entries` (the `Object` variant only): the members of an
/// object, in order.
#[verifier::external_body]
fn members_of(v: &json::JsonValue) -> (r: Option<Vec<(String, json::JsonValue)>>)
    ensures
        r is Some <==> json_members(*v) is Some,
        r is Some ==> r->0@.map_values(|e: (String, json::JsonValue)| (e.0@, e.1)) == json_members(
            *v,
        )->0,
{
    match v {
        json::JsonValue::Object(_) => Some(v.entries().map(|(k, x)| (k.to_string(), x.clone())).collect()),
        _ => None,
    }
}

/// Relies on `JsonValue::as_str`: the text of a JSON string.
#[verifier::external_body]
fn text_of_json(v: &json::JsonValue) -> (r: Option<String>)
    ensures
        r is Some <==> json_text(*v) is Some,
        r is Some ==> r->0@ == json_text(*v)->0,
{
    v.as_str().map(String::from)
}

/// Relies on `JsonValue::new_object`: an object with no members.
#[verifier::external_body]
fn new_object() -> (r: json::JsonValue)
    ensures
        json_members(r) == Some(Seq::<(Seq<char>, json::JsonValue)>::empty()),
{
    json::JsonValue::new_object()
}

/// Relies on `From<&str> for JsonValue`: a JSON string holding `s`.
#[verifier::external_body]
fn json_string(s: &str) -> (r: json::JsonValue)
    ensures
        json_text(r) == Some(s@),
        json_members(r) is None,
{
    json::JsonValue::from(s)
}

/// Relies on `From<u8> for JsonValue`: a JSON number holding `n`.
#[verifier::external_body]
fn json_number(n: u8) -> (r: json::JsonValue)
    ensures
        json_u64(r) == Some(n as u64),
        json_members(r) is None,
{
    json::JsonValue::from(n)
}

/// `es` with `k` set to `x`: an existing member is overwritten in place, a new
/// one is appended.
pub open spec fn member_set(
    es: Seq<(Seq<char>, json::JsonValue)>,
    k: Seq<char>,
    x: json::JsonValue,
) -> Seq<(Seq<char>, json::JsonValue)> {
    if exists|i: int| 0 <= i < es.len() && (#[trigger] es[i]).0 == k {
        es.update(choose|i: int| 0 <= i < es.len() && (#[trigger] es[i]).0 == k, (k, x))
    } else {
        es.push((k, x))
    }
}

/// Relies on `JsonValue::insert`: on an object, sets the member `key`,
/// overwriting an existing one in place and appending a new one.
#[verifier::external_body]
fn insert_member(obj: &mut json::JsonValue, key: &str, x: json::JsonValue) -> (r: Result<(), json::Error>)
    ensures
        json_members(*old(obj)) is Some ==> r is Ok && json_members(*final(obj)) == Some(
            member_set(json_members(*old(obj))->0, key@, x),
        ),
{
    obj.insert(key, x)
}

/// Relies on `JsonValue::dump`: the compact JSON text of a value.
#[verifier::external_body]
fn dump_json(v: &json::JsonValue) -> (r: String)
    ensures
        r@ == json_dump(*v),
{
    v.dump()
}


/// The text of a new, empty table, before and after the version number.
pub const DB_TEXT_HEAD: &'static str = "\n        {\n            \"db_version\": ";
pub const DB_TEXT_TAIL: &'static str = ",\n            \"cmds\": {}\n        }\n    ";

pub open spec fn digit(d: nat) -> char {
    seq!['0', '1', '2', '3', '4', '5', '6', '7', '8', '9'][d as int]
}

/// The decimal digits of `n`.
pub open spec fn decimal(n: nat) -> Seq<char>
    decreases n,
{
    if n < 10 {
        seq![digit(n)]
    } else {
        decimal(n / 10).push(digit(n % 10))
    }
}

/// The text written into a backing file that is empty or new.
pub open spec fn initial_db_text() -> Seq<char> {
    DB_TEXT_HEAD@ + decimal(DB_VERSION as nat) + DB_TEXT_TAIL@
}

/// The key of the member that holds the aliases.
pub open spec fn cmds_key() -> Seq<char> {
    seq!['c', 'm', 'd', 's']
}

/// The key of the member that holds the format version.
pub open spec fn version_key() -> Seq<char> {
    seq!['d', 'b', '_', 'v', 'e', 'r', 's', 'i', 'o', 'n']
}

/// The value of the last member of `es` named `k`.
pub open spec fn member(es: Seq<(Seq<char>, json::JsonValue)>, k: Seq<char>) -> Option<json::JsonValue>
    decreases es.len(),
{
    if es.len() == 0 {
        None
    } else if es.last().0 == k {
        Some(es.last().1)
    } else {
        member(es.drop_last(), k)
    }
}

/// The alias table that the members `cs` of `cmds` describe, entered in order;
/// `None` where a value is not a string.
pub open spec fn text_entries(cs: Seq<(Seq<char>, json::JsonValue)>) -> Option<Entries>
    decreases cs.len(),
{
    if cs.len() == 0 {
        Some(Seq::empty())
    } else {
        match text_entries(cs.drop_last()) {
            None => None,
            Some(s) => match json_text(cs.last().1) {
                None => None,
                Some(p) => Some(upserted(s, cs.last().0, p)),
            },
        }
    }
}

/// The alias table that a JSON document describes, if it has the table's shape.
pub open spec fn store_of_json(root: json::JsonValue) -> Option<Entries> {
    match json_members(root) {
        None => None,
        Some(es) => match member(es, cmds_key()) {
            None => None,
            Some(c) => match json_members(c) {
                None => None,
                Some(cs) => text_entries(cs),
            },
        },
    }
}

/// `v` is the JSON document of the table `s`: its version member, then its
/// `cmds` object with one string member per alias, in order.
pub open spec fn json_of_store(v: json::JsonValue, s: Entries) -> bool {
    &&& json_members(v) is Some
    &&& json_members(v)->0.len() == 2
    &&& json_members(v)->0[0].0 == version_key()
    &&& json_u64(json_members(v)->0[0].1) == Some(DB_VERSION as u64)
    &&& json_members(v)->0[1].0 == cmds_key()
    &&& json_members(json_members(v)->0[1].1) is Some
    &&& cmds_hold(json_members(json_members(v)->0[1].1)->0, s)
}

/// The members `cs` hold the aliases of `s` one for one, in order.
pub open spec fn cmds_hold(cs: Seq<(Seq<char>, json::JsonValue)>, s: Entries) -> bool {
    &&& cs.len() == s.len()
    &&& forall|i: int|
        0 <= i < s.len() ==> (#[trigger] cs[i]).0 == s[i].0 && json_text(cs[i].1) == Some(s[i].1)
}

/// The decimal digits of `n`.
fn decimal_chars(n: u64) -> (r: Vec<char>)
    ensures
        r@ == decimal(n as nat),
    decreases n,
{
    let digits: Vec<char> = vec!['0', '1', '2', '3', '4', '5', '6', '7', '8', '9'];
    if n < 10 {
        let r = vec![digits[n as usize]];
        assert(r@ =~= decimal(n as nat));
        r
    } else {
        let mut r = decimal_chars(n / 10);
        r.push(digits[(n % 10) as usize]);
        r
    }
}

/// The text of a new, empty table at the current version.
pub fn get_initial_db_json() -> (r: String)
    ensures
        r@ == initial_db_text(),
{
    let digits = crate::chars::text_of(&decimal_chars(DB_VERSION as u64));
    let mut text = String::from_str(DB_TEXT_HEAD);
    text.append(digits.as_str());
    text.append(DB_TEXT_TAIL);
    text
}

/// The alias table that a parsed JSON document describes.
pub fn store_from_json(root: &json::JsonValue) -> (r: Result<AliasStore, DBError>)
    ensures
        r is Ok <==> store_of_json(*root) is Some,
        r is Ok ==> r->Ok_0.well_formed() && r->Ok_0@ == store_of_json(*root)->0,
        r is Err ==> r->Err_0 is Malformed,
{
    let members = match members_of(root) {
        Some(m) => m,
        None => return Err(DBError::Malformed),
    };
    let ghost es = json_members(*root)->0;
    let key = "cmds".to_owned();
    proof {
        reveal_strlit("cmds");
    }
    assert(key@ == cmds_key());
    let mut found: Option<usize> = None;
    let mut i: usize = 0;
    while i < members.len()
        invariant
            i <= members@.len(),
            key@ == cmds_key(),
            members@.map_values(|e: (String, json::JsonValue)| (e.0@, e.1)) == es,
            found is None ==> member(es.take(i as int), cmds_key()) is None,
            found is Some ==> found->0 < i && member(es.take(i as int), cmds_key()) == Some(
                es[found->0 as int].1,
            ),
        decreases members@.len() - i,
    {
        assert(es.take(i + 1).drop_last() =~= es.take(i as int));
        assert(es.take(i + 1).last() == es[i as int]);
        if members[i].0 == key {
            found = Some(i);
        }
        i = i + 1;
    }
    assert(es.take(i as int) =~= es);
    let c = match found {
        Some(j) => j,
        None => return Err(DBError::Malformed),
    };
    assert(members@[c as int].1 == es[c as int].1);
    let cmds = match members_of(&members[c].1) {
        Some(m) => m,
        None => return Err(DBError::Malformed),
    };
    let ghost cs = json_members(es[c as int].1)->0;
    assert(store_of_json(*root) == text_entries(cs));
    let mut store = AliasStore::new();
    let mut k: usize = 0;
    assert(cs.take(0) =~= Seq::<(Seq<char>, json::JsonValue)>::empty());
    while k < cmds.len()
        invariant
            k <= cmds@.len(),
            cmds@.map_values(|e: (String, json::JsonValue)| (e.0@, e.1)) == cs,
            store_of_json(*root) == text_entries(cs),
            store.well_formed(),
            text_entries(cs.take(k as int)) == Some(store@),
        decreases cmds@.len() - k,
    {
        assert(cs.take(k + 1).drop_last() =~= cs.take(k as int));
        assert(cs.take(k + 1).last() == cs[k as int]);
        assert(cmds@[k as int].1 == cs[k as int].1);
        assert(cmds@[k as int].0@ == cs[k as int].0);
        match text_of_json(&cmds[k].1) {
            Some(p) => {
                store.upsert(cmds[k].0.clone(), p);
            },
            None => {
                let ghost bad = cs.take(k + 1);
                let mut j: usize = k + 1;
                while j < cmds.len()
                    invariant
                        k < j <= cmds@.len(),
                        cmds@.map_values(|e: (String, json::JsonValue)| (e.0@, e.1)) == cs,
                        store_of_json(*root) == text_entries(cs),
            store_of_json(*root) == text_entries(cs),
                        text_entries(cs.take(j as int)) is None,
                    decreases cmds@.len() - j,
                {
                    assert(cs.take(j + 1).drop_last() =~= cs.take(j as int));
                    j = j + 1;
                }
                assert(cs.take(j as int) =~= cs);
                return Err(DBError::Malformed);
            },
        }
        k = k + 1;
    }
    assert(cs.take(k as int) =~= cs);
    Ok(store)
}

/// Loads the table from the text of its backing file: empty text is a new,
/// empty table; otherwise the text must be JSON of the table's shape.
pub fn load_store(text: &str) -> (r: Result<AliasStore, DBError>)
    ensures
        text@.len() == 0 ==> r is Ok && r->Ok_0@.len() == 0,
        r is Ok ==> r->Ok_0.well_formed(),
        text@.len() > 0 ==> match parsed_json(text@) {
            None => r is Err && r->Err_0 is JsonError,
            Some(v) => match store_of_json(v) {
                None => r is Err && r->Err_0 is Malformed,
                Some(s) => r is Ok && r->Ok_0@ == s,
            },
        },
{
    if text.is_empty() {
        return Ok(AliasStore::new());
    }
    match parse_json(text) {
        Ok(root) => store_from_json(&root),
        Err(e) => Err(DBError::JsonError(e)),
    }
}

/// The JSON document of a table.
pub fn store_to_json(store: &AliasStore) -> (r: json::JsonValue)
    requires
        store.well_formed(),
    ensures
        json_of_store(r, store@),
{
    let entries = store.list();
    let ghost s = store@;
    let mut cmds = new_object();
    let mut i: usize = 0;
    while i < entries.len()
        invariant
            i <= entries@.len(),
            entries@.map_values(|e: (String, String)| (e.0@, e.1@)) == s,
            crate::store::keys_unique(s),
            json_members(cmds) is Some,
            cmds_hold(json_members(cmds)->0, s.take(i as int)),
        decreases entries@.len() - i,
    {
        let ghost before = json_members(cmds)->0;
        assert(entries@[i as int].0@ == s[i as int].0);
        let x = json_string(entries[i].1.as_str());
        let _ = insert_member(&mut cmds, entries[i].0.as_str(), x);
        assert(!(exists|j: int| 0 <= j < before.len() && (#[trigger] before[j]).0 == s[i as int].0))
            by {
            if exists|j: int| 0 <= j < before.len() && (#[trigger] before[j]).0 == s[i as int].0 {
                let j = choose|j: int| 0 <= j < before.len() && (#[trigger] before[j]).0 == s[
                    i as int
                ].0;
                assert(s.take(i as int)[j] == s[j]);
                assert(s[j].0 != s[i as int].0);
            }
        }
        assert(json_members(cmds)->0 == before.push((s[i as int].0, x)));
        assert forall|m: int| 0 <= m < i + 1 implies (#[trigger] json_members(cmds)->0[m]).0
            == s.take(i + 1)[m].0 && json_text(json_members(cmds)->0[m].1) == Some(
            s.take(i + 1)[m].1,
        ) by {
            if m < i {
                assert(s.take(i as int)[m] == s.take(i + 1)[m]);
            }
        }
        i = i + 1;
    }
    assert(s.take(i as int) =~= s);
    let mut root = new_object();
    let version = json_number(DB_VERSION);
    proof {
        reveal_strlit("db_version");
        reveal_strlit("cmds");
    }
    assert("db_version"@ =~= version_key());
    assert("cmds"@ =~= cmds_key());
    let _ = insert_member(&mut root, "db_version", version);
    assert(json_members(root)->0 =~= seq![(version_key(), version)]);
    assert(version_key().len() != cmds_key().len());
    let ghost first = json_members(root)->0;
    assert(!(exists|j: int| 0 <= j < first.len() && (#[trigger] first[j]).0 == cmds_key()));
    let ghost inner = cmds;
    let _ = insert_member(&mut root, "cmds", cmds);
    assert(json_members(root)->0 =~= seq![(version_key(), version), (cmds_key(), inner)]);
    root
}

/// The text that the table is saved as: the compact form of its JSON document.
pub fn save_text(store: &AliasStore) -> (r: String)
    requires
        store.well_formed(),
    ensures
        exists|v: json::JsonValue| json_of_store(v, store@) && r@ == json_dump(v),
{
    let v = store_to_json(store);
    dump_json(&v)
}

} // verus!
