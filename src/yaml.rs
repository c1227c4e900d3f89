//! The part of a YAML document that the configuration reads: a mapping from
//! keys to strings, booleans or mappings of strings.
use vstd::prelude::*;

verus! {

/// A value of the top-level mapping.
#[derive(Clone, Debug)]
pub enum YamlNode {
    Str(String),
    Bool(bool),
    /// A mapping; each value is its string, or `None` when it is not a string.
    Mapping(Vec<(String, Option<String>)>),
    /// Anything else: a number, a sequence, null or a tagged value.
    Other,
}

/// A value of the top-level mapping, as the logic sees it.
pub enum NodeSpec {
    Str(Seq<char>),
    Bool(bool),
    Mapping(Seq<(Seq<char>, Option<Seq<char>>)>),
    Other,
}

pub open spec fn entry_view(e: (String, Option<String>)) -> (Seq<char>, Option<Seq<char>>) {
    (
        e.0@,
        match e.1 {
            Some(s) => Some(s@),
            None => None,
        },
    )
}

impl View for YamlNode {
    type V = NodeSpec;

    open spec fn view(&self) -> NodeSpec {
        match self {
            YamlNode::Str(s) => NodeSpec::Str(s@),
            YamlNode::Bool(b) => NodeSpec::Bool(*b),
            YamlNode::Mapping(m) => NodeSpec::Mapping(m@.map_values(|e: (String, Option<String>)| entry_view(e))),
            YamlNode::Other => NodeSpec::Other,
        }
    }
}

/// The top-level mapping of a YAML document, in document order.
#[derive(Clone, Debug)]
pub struct YamlDocument {
    pub entries: Vec<(String, YamlNode)>,
}

impl View for YamlDocument {
    type V = Seq<(Seq<char>, NodeSpec)>;

    open spec fn view(&self) -> Seq<(Seq<char>, NodeSpec)> {
        self.entries@.map_values(|e: (String, YamlNode)| (e.0@, e.1@))
    }
}

/// The top-level mapping that a YAML text holds, if the text parses and its
/// top level is a mapping.
pub uninterp spec fn yaml_document_of(text: Seq<char>) -> Option<Seq<(Seq<char>, NodeSpec)>>;

/// Relies on `serde_yml::from_str` (with `Value::as_mapping` and
/// `Value::as_str`): the parsed document depends on the text alone.
#[verifier::external_body]
pub(crate) fn parse_yaml(text: &str) -> (r: Option<YamlDocument>)
    ensures
        match r {
            Some(d) => yaml_document_of(text@) == Some(d@),
            None => yaml_document_of(text@) is None,
        },
{
    let doc = serde_yml::from_str::<serde_yml::Value>(text).ok()?;
    let entries = doc.as_mapping()?.iter().map(|(k, v)| (k.clone(), match v {
        serde_yml::Value::String(s) => YamlNode::Str(s.clone()),
        serde_yml::Value::Bool(b) => YamlNode::Bool(*b),
        serde_yml::Value::Mapping(m) => YamlNode::Mapping(
            m.iter().map(|(k, v)| (k.clone(), v.as_str().map(|s| s.to_string()))).collect(),
        ),
        _ => YamlNode::Other,
    })).collect();
    Some(YamlDocument { entries })
}

/// The value of the first entry under `key`.
pub open spec fn lookup(d: Seq<(Seq<char>, NodeSpec)>, key: Seq<char>) -> Option<NodeSpec>
    decreases d.len(),
{
    if d.len() == 0 {
        None
    } else if d[0].0 == key {
        Some(d[0].1)
    } else {
        lookup(d.drop_first(), key)
    }
}

/// The value of the first entry under `key`.
pub fn find_entry<'a>(doc: &'a YamlDocument, key: &str) -> (r: Option<&'a YamlNode>)
    ensures
        match r {
            Some(n) => lookup(doc@, key@) == Some(n@),
            None => lookup(doc@, key@) is None,
        },
{
    let ghost d = doc@;
    let mut i: usize = 0;
    assert(d.skip(0) =~= d);
    while i < doc.entries.len()
        invariant
            i <= doc.entries@.len(),
            d == doc@,
            lookup(d, key@) == lookup(d.skip(i as int), key@),
        decreases doc.entries.len() - i,
    {
        let ghost t = d.skip(i as int);
        assert(t[0] == d[i as int]);
        assert(t.drop_first() =~= d.skip(i + 1));
        if crate::text::str_eq(doc.entries[i].0.as_str(), key) {
            return Some(&doc.entries[i].1);
        }
        i = i + 1;
    }
    assert(d.skip(i as int).len() == 0);
    None
}

/// The first entry under `key` is the one at `k`.
pub proof fn lemma_lookup_at(d: Seq<(Seq<char>, NodeSpec)>, key: Seq<char>, k: int)
    requires
        0 <= k < d.len(),
        d[k].0 == key,
        forall|j: int| 0 <= j < k ==> d[j].0 != key,
    ensures
        lookup(d, key) == Some(d[k].1),
    decreases k,
{
    if k > 0 {
        lemma_lookup_at(d.drop_first(), key, k - 1);
    }
}

} // verus!
