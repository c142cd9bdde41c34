//! The catalog search: the request it makes and how its answer is read.
use vstd::prelude::*;
use serde_json::Value;
use crate::text::{trimmed, trim};
use crate::matching::pairs_view;

verus! {

/// Why the catalog could not be asked: each is a way of being unavailable.
#[derive(Debug, Clone, Copy, PartialEq, Eq, Structural)]
pub enum CatalogError {
    /// The request did not complete.
    Transport,
    /// The answer is not JSON.
    BadResponse,
    /// The answer is an error payload of the service.
    Service,
}

/// The service's search endpoint.
pub const SEARCH_ENDPOINT: &'static str = "http://ws.audioscrobbler.com/2.0/";

#[verifier::external_type_specification]
#[verifier::external_body]
pub struct ExValue(serde_json::Value);

/// A JSON value. Numbers keep their text; an object keeps its members in
/// the order the parser gives them.
#[derive(Debug)]
pub enum Json {
    Null,
    Bool(bool),
    Num(String),
    Str(String),
    Arr(Vec<Json>),
    Obj(Vec<(String, Json)>),
}

/// Whether `serde_json::from_str` reads the text as a JSON value.
pub uninterp spec fn is_json(s: Seq<char>) -> bool;

/// The value `serde_json::from_str` reads from the text.
pub uninterp spec fn json_of(s: Seq<char>) -> Json;

/// Turns a parsed serde_json value into a `Json`, variant for variant.
#[verifier::external_body]
fn json_tree(v: &Value) -> (r: Json)
{
    match v {
        Value::Null => Json::Null,
        Value::Bool(b) => Json::Bool(*b),
        Value::Number(n) => Json::Num(n.to_string()),
        Value::String(t) => Json::Str(t.clone()),
        Value::Array(items) => Json::Arr(items.iter().map(json_tree).collect()),
        Value::Object(m) => Json::Obj(m.iter().map(|(k, x)| (k.clone(), json_tree(x))).collect()),
    }
}

/// Relies on `serde_json::from_str::<Value>`: whether it succeeds, and the
/// value it reads, depend on the text alone.
#[verifier::external_body]
fn json_parse(s: &str) -> (r: Option<Json>)
    ensures
        r is Some <==> is_json(s@),
        r matches Some(j) ==> j == json_of(s@),
{
    serde_json::from_str::<Value>(s).ok().map(|v| json_tree(&v))
}

/// The value of the first member named `key`.
pub open spec fn lookup(members: Seq<(String, Json)>, key: Seq<char>) -> Option<Json>
    decreases members.len(),
{
    if members.len() == 0 {
        None
    } else if members[0].0@ == key {
        Some(members[0].1)
    } else {
        lookup(members.drop_first(), key)
    }
}

/// The member `key` of an object; nothing for any other value.
pub open spec fn member(j: Json, key: Seq<char>) -> Option<Json> {
    match j {
        Json::Obj(m) => lookup(m@, key),
        _ => None,
    }
}

/// The text of the member `key` when it is a string.
pub open spec fn text_member(j: Json, key: Seq<char>) -> Option<String> {
    match member(j, key) {
        Some(Json::Str(t)) => Some(t),
        _ => None,
    }
}

/// The items at `results.albummatches.album`, when that is an array.
pub open spec fn album_items(j: Json) -> Option<Seq<Json>> {
    match member(j, "results"@) {
        Some(r) => match member(r, "albummatches"@) {
            Some(m) => match member(m, "album"@) {
                Some(Json::Arr(items)) => Some(items@),
                _ => None,
            },
            None => None,
        },
        None => None,
    }
}

/// The artist and the name of an album item, each when it is a string.
pub open spec fn album_record(it: Json) -> (Option<String>, Option<String>) {
    (text_member(it, "artist"@), text_member(it, "name"@))
}

/// The record of each album item; none when there are no album items.
pub open spec fn album_records(j: Json) -> Seq<(Option<String>, Option<String>)> {
    match album_items(j) {
        Some(items) => items.map_values(|it: Json| album_record(it)),
        None => Seq::empty(),
    }
}

/// Finds the member `key` of an object.
pub fn find_member<'a>(j: &'a Json, key: &str) -> (r: Option<&'a Json>)
    ensures
        r is Some <==> member(*j, key@) is Some,
        r matches Some(x) ==> member(*j, key@) == Some(*x),
{
    match j {
        Json::Obj(m) => {
            let k = key.to_string();
            let mut i: usize = 0;
            proof {
                assert(m@.subrange(0, m@.len() as int) =~= m@);
            }
            while i < m.len()
                invariant
                    0 <= i <= m@.len(),
                    k@ == key@,
                    member(*j, key@) == lookup(m@, key@),
                    lookup(m@, key@) == lookup(m@.subrange(i as int, m@.len() as int), key@),
                decreases m@.len() - i,
            {
                proof {
                    let rest = m@.subrange(i as int, m@.len() as int);
                    assert(rest.drop_first() =~= m@.subrange(i + 1, m@.len() as int));
                    assert(rest[0] == m@[i as int]);
                }
                if m[i].0 == k {
                    proof {
                        let rest = m@.subrange(i as int, m@.len() as int);
                        assert(rest[0].0@ == key@);
                        assert(lookup(rest, key@) == Some(rest[0].1));
                        assert(member(*j, key@) == lookup(m@, key@));
                        assert(m@[i as int].1 == rest[0].1);
                    }
                    return Some(&m[i].1);
                }
                i = i + 1;
            }
            None
        },
        _ => None,
    }
}

/// The text of the member `key` of `j`, when it is a string.
pub fn find_text(j: &Json, key: &str) -> (r: Option<String>)
    ensures
        r == text_member(*j, key@),
{
    match find_member(j, key) {
        Some(Json::Str(t)) => Some(t.clone()),
        _ => None,
    }
}

/// Every album record has both an artist and a title.
pub open spec fn records_complete(records: Seq<(Option<String>, Option<String>)>) -> bool {
    forall|i: int| 0 <= i < records.len() ==> (#[trigger] records[i]).0 is Some && records[i].1 is Some
}

/// The candidates that album records give: each `(artist, title)` with
/// surrounding whitespace removed, in order; none at all when a record lacks
/// either field.
pub open spec fn entries_of(records: Seq<(Option<String>, Option<String>)>) -> Seq<(Seq<char>, Seq<char>)> {
    if records_complete(records) {
        records.map_values(|r: (Option<String>, Option<String>)| (trimmed(r.0->Some_0@), trimmed(r.1->Some_0@)))
    } else {
        Seq::empty()
    }
}

/// The search request for a query and an API key; none for an empty query,
/// which has no candidates.
pub fn search_url(query: &str, api_key: &str) -> (r: Option<String>)
    ensures
        query@.len() == 0 <==> r is None,
        r matches Some(u) ==> u@ == SEARCH_ENDPOINT@ + "?method=album.search&album="@ + query@
            + "&api_key="@ + api_key@ + "&format=json"@,
{
    if query.unicode_len() == 0 {
        None
    } else {
        let mut u = SEARCH_ENDPOINT.to_string();
        u.append("?method=album.search&album=");
        u.append(query);
        u.append("&api_key=");
        u.append(api_key);
        u.append("&format=json");
        Some(u)
    }
}

/// Candidates from album records (artist and title, each possibly missing):
/// trimmed pairs in record order, or none when any record is incomplete.
pub fn catalog_entries(records: &Vec<(Option<String>, Option<String>)>) -> (r: Vec<(String, String)>)
    ensures
        pairs_view(r@) == entries_of(records@),
{
    let mut out: Vec<(String, String)> = Vec::new();
    let mut i: usize = 0;
    while i < records.len()
        invariant
            0 <= i <= records@.len(),
            records_complete(records@.take(i as int)),
            pairs_view(out@) == entries_of(records@.take(i as int)),
        decreases records@.len() - i,
    {
        let ghost before = out@;
        match (&records[i].0, &records[i].1) {
            (Some(artist), Some(title)) => {
                let a = trim(artist.as_str());
                let t = trim(title.as_str());
                out.push((a, t));
                proof {
                    let rs = records@.take(i + 1);
                    assert(records_complete(rs)) by {
                        assert forall|k: int| 0 <= k < rs.len() implies (#[trigger] rs[k]).0 is Some && rs[k].1 is Some by {
                            if k < i {
                                assert(rs[k] == records@.take(i as int)[k]);
                            }
                        }
                    }
                    let f = |r: (Option<String>, Option<String>)| (trimmed(r.0->Some_0@), trimmed(r.1->Some_0@));
                    assert(rs =~= records@.take(i as int).push(records@[i as int]));
                    assert(rs.map_values(f) =~= records@.take(i as int).map_values(f).push(f(records@[i as int])));
                    assert(pairs_view(out@) =~= pairs_view(before).push((a@, t@)));
                    assert(pairs_view(out@) =~= entries_of(rs));
                }
            },
            _ => {
                proof {
                    let k = i as int;
                    assert(!records_complete(records@) && !records_complete(records@.take(k + 1))) by {
                        assert(records@[k] == records@.take(k + 1)[k]);
                    }
                    assert(pairs_view(Seq::<(String, String)>::empty()) =~= Seq::empty());
                }
                return Vec::new();
            },
        }
        i = i + 1;
    }
    proof {
        assert(records@.take(records@.len() as int) =~= records@);
    }
    out
}

/// Reads the service's answer to a search: text that is not JSON is a bad
/// response, a top-level `error` member a service error; otherwise the
/// candidates are those that the records of `results.albummatches.album`
/// give, and none when that array is absent, not an array, or empty.
pub fn parse_response(body: &str) -> (r: Result<Vec<(String, String)>, CatalogError>)
    ensures
        !is_json(body@) ==> r == Err::<Vec<(String, String)>, CatalogError>(CatalogError::BadResponse),
        is_json(body@) && member(json_of(body@), "error"@) is Some
            ==> r == Err::<Vec<(String, String)>, CatalogError>(CatalogError::Service),
        is_json(body@) && member(json_of(body@), "error"@) is None ==> (r matches Ok(es)
            && pairs_view(es@) == entries_of(album_records(json_of(body@)))),
{
    let j = match json_parse(body) {
        Some(j) => j,
        None => {
            return Err(CatalogError::BadResponse);
        },
    };
    if find_member(&j, "error").is_some() {
        return Err(CatalogError::Service);
    }
    let mut records: Vec<(Option<String>, Option<String>)> = Vec::new();
    let mut items_opt: Option<&Vec<Json>> = None;
    if let Some(res) = find_member(&j, "results") {
        if let Some(m) = find_member(res, "albummatches") {
            if let Some(Json::Arr(items)) = find_member(m, "album") {
                items_opt = Some(items);
            }
        }
    }
    proof {
        assert(items_opt is Some <==> album_items(j) is Some);
        assert(items_opt matches Some(items) ==> album_items(j) == Some(items@));
    }
    match items_opt {
        Some(items) => {
            let mut i: usize = 0;
            while i < items.len()
                invariant
                    0 <= i <= items@.len(),
                    records@ == items@.take(i as int).map_values(|it: Json| album_record(it)),
                decreases items@.len() - i,
            {
                let artist = find_text(&items[i], "artist");
                let title = find_text(&items[i], "name");
                let ghost before = records@;
                records.push((artist, title));
                proof {
                    assert(items@.take(i + 1) =~= items@.take(i as int).push(items@[i as int]));
                    assert(items@.take(i + 1).map_values(|it: Json| album_record(it)) =~= items@.take(i as int).map_values(|it: Json| album_record(it)).push(album_record(items@[i as int])));
                    assert(artist == text_member(items@[i as int], "artist"@));
                    assert(title == text_member(items@[i as int], "name"@));
                    assert(album_record(items@[i as int]) == (artist, title));
                    assert(records@ =~= before.push((artist, title)));
                    assert(records@ =~= items@.take(i + 1).map_values(|it: Json| album_record(it)));
                }
                i = i + 1;
            }
            proof {
                assert(items@.take(items@.len() as int) =~= items@);
            }
        },
        None => {
            proof {
                assert(records@ =~= album_records(j));
            }
        },
    }
    let es = catalog_entries(&records);
    Ok(es)
}

} // verus!
