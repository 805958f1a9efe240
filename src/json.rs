//! JSON text of string-keyed maps, written by serde_json.

use std::collections::BTreeMap;
use vstd::prelude::*;
use crate::assoc::{keys_unique, map_of, map_of_with};

verus! {

#[verifier::external_type_specification]
#[verifier::external_body]
pub struct ExJsonError(serde_json::Error);

/// The JSON text that serde_json writes for an object of objects of strings.
pub uninterp spec fn json_text_of_objects(m: Map<Seq<char>, Map<Seq<char>, Seq<char>>>) -> Seq<
    char,
>;

/// The JSON text that serde_json writes for an object of objects of objects
/// of strings.
pub uninterp spec fn json_text_of_nested(
    m: Map<Seq<char>, Map<Seq<char>, Map<Seq<char>, Seq<char>>>>,
) -> Seq<char>;

/// The object that a list of (name, text) pairs stands for.
pub open spec fn fields_map(v: Vec<(String, String)>) -> Map<Seq<char>, Seq<char>> {
    map_of(v@)
}

/// The object of objects that a list of (key, fields) pairs stands for.
pub open spec fn objects_map(s: Seq<(String, Vec<(String, String)>)>) -> Map<
    Seq<char>,
    Map<Seq<char>, Seq<char>>,
> {
    map_of_with(s, |v: Vec<(String, String)>| fields_map(v))
}

/// Keys unique at both levels.
pub open spec fn objects_wf(s: Seq<(String, Vec<(String, String)>)>) -> bool {
    &&& keys_unique(s)
    &&& forall|i: int| 0 <= i < s.len() ==> keys_unique((#[trigger] s[i]).1@)
}

/// The object of objects of objects that a nested list stands for.
pub open spec fn nested_map(s: Seq<(String, Vec<(String, Vec<(String, String)>)>)>) -> Map<
    Seq<char>,
    Map<Seq<char>, Map<Seq<char>, Seq<char>>>,
> {
    map_of_with(s, |v: Vec<(String, Vec<(String, String)>)>| objects_map(v@))
}

/// Keys unique at every level.
pub open spec fn nested_wf(s: Seq<(String, Vec<(String, Vec<(String, String)>)>)>) -> bool {
    &&& keys_unique(s)
    &&& forall|i: int| 0 <= i < s.len() ==> objects_wf((#[trigger] s[i]).1@)
}

/// Relies on serde_json::to_string, applied to a BTreeMap of BTreeMaps of
/// strings: the text depends on the map alone, since std's BTreeMap walks its
/// keys in order. It returns Ok here: the text is written into a Vec, which
/// cannot fail, and every map key is a string, which MapKeySerializer
/// accepts. An empty map is written `{}` (Serializer::serialize_map).
#[verifier::external_body]
pub(crate) fn objects_to_json(entries: &Vec<(String, Vec<(String, String)>)>) -> (r: Result<
    String,
    serde_json::Error,
>)
    requires
        objects_wf(entries@),
    ensures
        r is Ok,
        r is Ok ==> r->Ok_0@ == json_text_of_objects(objects_map(entries@)),
        r is Ok && entries@.len() == 0 ==> r->Ok_0@ == "{}"@,
{
    let m: BTreeMap<&str, BTreeMap<&str, &str>> = entries
        .iter()
        .map(|(k, v)| (k.as_str(), v.iter().map(|(a, b)| (a.as_str(), b.as_str())).collect()))
        .collect();
    serde_json::to_string(&m)
}

/// Relies on serde_json::to_string, applied to a BTreeMap of BTreeMaps of
/// BTreeMaps of strings, as `objects_to_json` does one level deeper.
#[verifier::external_body]
pub(crate) fn nested_to_json(entries: &Vec<(String, Vec<(String, Vec<(String, String)>)>)>) -> (r:
    Result<String, serde_json::Error>)
    requires
        nested_wf(entries@),
    ensures
        r is Ok,
        r is Ok ==> r->Ok_0@ == json_text_of_nested(nested_map(entries@)),
        r is Ok && entries@.len() == 0 ==> r->Ok_0@ == "{}"@,
{
    let m: BTreeMap<&str, BTreeMap<&str, BTreeMap<&str, &str>>> = entries
        .iter()
        .map(|(k, v)| {
            let inner = v.iter().map(|(a, o)| {
                (a.as_str(), o.iter().map(|(x, y)| (x.as_str(), y.as_str())).collect())
            });
            (k.as_str(), inner.collect())
        })
        .collect();
    serde_json::to_string(&m)
}

} // verus!
