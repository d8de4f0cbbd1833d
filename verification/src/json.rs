//! JSON documents as the agents' configuration files hold them, and the
//! edits that register or remove the `agentic_ssh` MCP server in them.

use vstd::prelude::*;
use crate::strmap::{al_contains, al_find, al_get, al_insert, lemma_al_find};
use crate::text::{chars_eq, to_chars};

verus! {

/// A JSON value. A number is kept as its text; an object as its members,
/// in order.
#[derive(Debug, PartialEq)]
pub enum Json {
    Null,
    Bool(bool),
    Number(String),
    Str(String),
    Array(Vec<Json>),
    Object(Vec<(String, Json)>),
}

/// Why a document cannot take the server entry.
#[derive(Debug, Clone, PartialEq, Eq)]
pub enum JsonEditError {
    NotAnObject,
}

/// The members of an object, keyed by the text of their names.
pub open spec fn members(v: Seq<(String, Json)>) -> Seq<(Seq<char>, Json)> {
    v.map_values(|e: (String, Json)| (e.0@, e.1))
}

/// The member `k` dropped (its first occurrence), if there is one.
pub open spec fn al_remove(s: Seq<(Seq<char>, Json)>, k: Seq<char>) -> Seq<(Seq<char>, Json)> {
    match al_find(s, k) {
        Some(i) => s.remove(i),
        None => s,
    }
}

/// The name under which the server is registered.
pub open spec fn server_key() -> Seq<char> {
    "agentic_ssh"@
}

/// The members of the object at `section`, or none when `section` is
/// missing or not an object.
pub open spec fn section_members(top: Seq<(Seq<char>, Json)>, section: Seq<char>) -> Seq<
    (Seq<char>, Json),
> {
    match al_get(top, section) {
        Some(Json::Object(s)) => members(s@),
        _ => Seq::empty(),
    }
}

/// Whether `doc[section]["agentic_ssh"]` exists.
pub open spec fn spec_has_server(doc: Json, section: Seq<char>) -> bool {
    match doc {
        Json::Object(top) => match al_get(members(top@), section) {
            Some(Json::Object(s)) => al_contains(members(s@), server_key()),
            _ => false,
        },
        _ => false,
    }
}

fn find_key(v: &Vec<(String, Json)>, key: &str) -> (r: Option<usize>)
    ensures
        match r {
            Some(i) => al_find(members(v@), key@) == Some(i as int) && i < v@.len(),
            None => al_find(members(v@), key@) is None,
        },
{
    let ghost m = members(v@);
    let kc = to_chars(key);
    let mut j: usize = 0;
    proof {
        lemma_al_find(m, key@);
    }
    while j < v.len()
        invariant
            j <= v@.len(),
            m == members(v@),
            kc@ == key@,
            forall|q: int| 0 <= q < j ==> (#[trigger] m[q]).0 != key@,
        decreases v.len() - j,
    {
        let c = to_chars(v[j].0.as_str());
        assert(m[j as int].0 == v@[j as int].0@);
        if chars_eq(c.as_slice(), kc.as_slice()) {
            proof {
                lemma_al_find(m, key@);
                if let Some(f) = al_find(m, key@) {
                    if f < j {
                        assert(m[f].0 != key@);
                    }
                }
            }
            return Some(j);
        }
        j = j + 1;
    }
    proof {
        lemma_al_find(m, key@);
        if let Some(f) = al_find(m, key@) {
            assert(m[f].0 != key@);
        }
    }
    None
}

/// The members with `key` set to `val`: replaced where it is, else added
/// at the end.
fn set_member(v: Vec<(String, Json)>, key: &str, val: Json) -> (r: Vec<(String, Json)>)
    ensures
        members(r@) == al_insert(members(v@), key@, val),
{
    let mut v = v;
    let ghost old_v = v@;
    match find_key(&v, key) {
        Some(i) => {
            let _ = v.remove(i);
            v.insert(i, (String::from_str(key), val));
            assert(members(v@) =~= members(old_v).update(i as int, (key@, val)));
        },
        None => {
            v.push((String::from_str(key), val));
            assert(members(v@) =~= members(old_v).push((key@, val)));
        },
    }
    v
}

/// `doc[section]["agentic_ssh"] = entry`: the document must be an object;
/// a missing `section`, or one that is not an object, becomes an object
/// holding only the entry; otherwise the entry is set among its members.
/// Every other member stays as it was.
pub fn set_server_entry(doc: Json, section: &str, entry: Json) -> (r: Result<Json, JsonEditError>)
    ensures
        match doc {
            Json::Object(top) => r matches Ok(Json::Object(t2)) && al_get(members(t2@), section@) matches Some(
                Json::Object(s2),
            ) && members(s2@) == al_insert(section_members(members(top@), section@), server_key(), entry)
                && members(t2@) == al_insert(members(top@), section@, Json::Object(s2)),
            _ => r == Err::<Json, JsonEditError>(JsonEditError::NotAnObject),
        },
{
    match doc {
        Json::Object(top) => {
            let mut top = top;
            let ghost old_top = top@;
            let ghost old_m = members(old_top);
            proof {
                lemma_al_find(old_m, section@);
            }
            match find_key(&top, section) {
                Some(i) => {
                    let (k, v) = top.remove(i);
                    assert(k@ == section@);
                    let inner = match v {
                        Json::Object(s) => s,
                        _ => {
                            let e: Vec<(String, Json)> = Vec::new();
                            assert(members(e@) =~= Seq::<(Seq<char>, Json)>::empty());
                            e
                        },
                    };
                    assert(members(inner@) == section_members(old_m, section@));
                    let new_inner = set_member(inner, "agentic_ssh", entry);
                    let ghost s2 = new_inner;
                    top.insert(i, (k, Json::Object(new_inner)));
                    assert(members(top@) =~= old_m.update(i as int, (section@, Json::Object(s2))));
                    proof {
                        assert(members(top@)[i as int].0 == section@);
                        lemma_al_find(members(top@), section@);
                        let f = al_find(members(top@), section@);
                        if let Some(f) = f {
                            if f < i {
                                assert(members(top@)[f] == old_m[f]);
                            }
                        }
                    }
                    assert(al_get(members(top@), section@) == Some(Json::Object(s2)));
                },
                None => {
                    let mut inner: Vec<(String, Json)> = Vec::new();
                    assert(members(inner@) =~= Seq::<(Seq<char>, Json)>::empty());
                    let new_inner = set_member(inner, "agentic_ssh", entry);
                    let ghost s2 = new_inner;
                    top.push((String::from_str(section), Json::Object(new_inner)));
                    assert(members(top@) =~= old_m.push((section@, Json::Object(s2))));
                    proof {
                        assert(members(top@)[old_m.len() as int].0 == section@);
                        lemma_al_find(members(top@), section@);
                        let f = al_find(members(top@), section@);
                        if let Some(f) = f {
                            if f < old_m.len() {
                                assert(members(top@)[f] == old_m[f]);
                            }
                        }
                    }
                    assert(al_get(members(top@), section@) == Some(Json::Object(s2)));
                },
            }
            Ok(Json::Object(top))
        },
        _ => Err(JsonEditError::NotAnObject),
    }
}

/// `doc[section].remove("agentic_ssh")`: when the document is an object
/// whose `section` is an object holding the entry, the entry is dropped
/// and `true` comes back with the edited document; otherwise the document
/// comes back as it was, with `false`.
pub fn remove_server_entry(doc: Json, section: &str) -> (r: (Json, bool))
    ensures
        r.1 == spec_has_server(doc, section@),
        !r.1 ==> r.0 == doc,
        r.1 ==> (doc matches Json::Object(top) && r.0 matches Json::Object(t2) && al_get(members(t2@), section@)
            matches Some(Json::Object(s2)) && members(s2@) == al_remove(
            section_members(members(top@), section@),
            server_key(),
        ) && members(t2@) == al_insert(members(top@), section@, Json::Object(s2))),
{
    if !json_has_server(&doc, section) {
        return (doc, false);
    }
    match doc {
        Json::Object(top) => {
            let mut top = top;
            let ghost old_top = top@;
            let ghost old_m = members(old_top);
            match find_key(&top, section) {
                Some(i) => {
                    proof {
                        lemma_al_find(old_m, section@);
                    }
                    let (k, v) = top.remove(i);
                    assert(k@ == old_m[i as int].0);
                    match v {
                        Json::Object(s) => {
                            let mut s = s;
                            let ghost old_s = s@;
                            match find_key(&s, "agentic_ssh") {
                                Some(j) => {
                                    let _ = s.remove(j);
                                    assert(members(s@) =~= members(old_s).remove(j as int));
                                },
                                None => {},
                            }
                            let ghost s2 = s;
                            top.insert(i, (k, Json::Object(s)));
                            assert(members(top@) =~= old_m.update(i as int, (section@, Json::Object(s2))));
                            proof {
                                assert(members(top@)[i as int].0 == section@);
                                lemma_al_find(old_m, section@);
                                lemma_al_find(members(top@), section@);
                                let f = al_find(members(top@), section@);
                                if let Some(f) = f {
                                    if f < i {
                                        assert(members(top@)[f] == old_m[f]);
                                    }
                                }
                            }
                            (Json::Object(top), true)
                        },
                        other => {
                            top.insert(i, (k, other));
                            (Json::Object(top), true)
                        },
                    }
                },
                None => (Json::Object(top), true),
            }
        },
        other => (other, true),
    }
}

/// Whether `doc[section]["agentic_ssh"]` exists.
pub fn json_has_server(doc: &Json, section: &str) -> (r: bool)
    ensures
        r == spec_has_server(*doc, section@),
{
    match doc {
        Json::Object(top) => match find_key(top, section) {
            Some(i) => {
                proof {
                    lemma_al_find(members(top@), section@);
                }
                match &top[i].1 {
                    Json::Object(s) => find_key(s, "agentic_ssh").is_some(),
                    _ => false,
                }
            },
            None => false,
        },
        _ => false,
    }
}

} // verus!
