//! Loading the replacement table: the configuration is a JSON object
//! mapping tag names to objects of attribute names and values.  Parsing the
//! JSON is delegated to serde_json behind one trusted wrapper; the entry
//! order it hands back follows a hash map's iteration and is not specified,
//! so the contract speaks of the entries as a map.

use vstd::prelude::*;

use crate::inject::{AttrRule, ReplacementTable};

verus! {

/// What the configuration text denotes, if it parses: the JSON object as a
/// map from tag name to its attribute map.
pub uninterp spec fn config_of(s: Seq<char>) -> Option<Map<Seq<char>, Map<Seq<char>, Seq<char>>>>;

/// One rule's attribute list, read as a map.
pub open spec fn attrs_map(attrs: Seq<(String, String)>) -> Map<Seq<char>, Seq<char>>
    decreases attrs.len(),
{
    if attrs.len() == 0 {
        Map::<Seq<char>, Seq<char>>::empty()
    } else {
        attrs_map(attrs.drop_last()).insert(attrs.last().0@, attrs.last().1@)
    }
}

/// A rule list, read as the configuration map it came from.
pub open spec fn table_map(rules: Seq<AttrRule>) -> Map<Seq<char>, Map<Seq<char>, Seq<char>>>
    decreases rules.len(),
{
    if rules.len() == 0 {
        Map::<Seq<char>, Map<Seq<char>, Seq<char>>>::empty()
    } else {
        table_map(rules.drop_last()).insert(rules.last().tag@, attrs_map(rules.last().attrs@))
    }
}

/// Relies on `serde_json::from_str` for a `HashMap<String, HashMap<String,
/// String>>`: whether the text parses, and which entries it denotes, depend
/// on the text alone; the keys of each parsed object are distinct.  The
/// order in which the hash maps are walked is not specified, so nothing is
/// said of the vector's order beyond its entries.
#[verifier::external_body]
fn parse_config(s: &str) -> (r: Option<Vec<AttrRule>>)
    ensures
        r is Some <==> config_of(s@) is Some,
        r matches Some(v) ==> {
            &&& forall|i: int, j: int| 0 <= i < j < v@.len() ==> v@[i].tag@ != v@[j].tag@
            &&& forall|i: int, a: int, b: int|
                0 <= i < v@.len() && 0 <= a < b < v@[i].attrs@.len() ==> v@[i].attrs@[a].0@
                    != v@[i].attrs@[b].0@
            &&& config_of(s@) == Some(table_map(v@))
        },
{
    let parsed: std::collections::HashMap<String, std::collections::HashMap<String, String>> =
        match serde_json::from_str(s) {
        Ok(m) => m,
        Err(_) => {
            return None;
        },
    };
    let mut rules = Vec::new();
    for (tag, attr_map) in parsed {
        let attrs: Vec<(String, String)> = attr_map.into_iter().collect();
        rules.push(AttrRule { tag, attrs });
    }
    Some(rules)
}

/// Parses the replacement-table configuration text.
pub fn load_table(s: &str) -> (r: Option<ReplacementTable>)
    ensures
        r is Some <==> config_of(s@) is Some,
        r matches Some(t) ==> t.wf() && config_of(s@) == Some(table_map(t.rules@)),
{
    match parse_config(s) {
        Some(rules) => Some(ReplacementTable { rules }),
        None => None,
    }
}

} // verus!
