//! Nodes and relationships, as the server sends them inside records.

use crate::value::{entries_of, lemma_view, terms_of, Term, Value};
use vstd::prelude::*;

verus! {

/// The signature of the structure that holds a node.
pub const NODE: u8 = 0x4E;

/// The signature of the structure that holds a relationship.
pub const RELATIONSHIP: u8 = 0x52;

/// A node of the graph.
#[derive(Debug, PartialEq, Eq)]
pub struct Node {
    pub id: u64,
    pub labs: Vec<String>,
    pub props: Vec<(String, Value)>,
}

/// The mathematical content of a [`Node`].
pub struct NodeModel {
    pub id: u64,
    pub labels: Seq<Seq<char>>,
    pub properties: Seq<(Seq<char>, Term)>,
}

/// The texts of a sequence of strings.
pub open spec fn texts(strings: Seq<String>) -> Seq<Seq<char>> {
    Seq::new(strings.len(), |i: int| strings[i]@)
}

impl View for Node {
    type V = NodeModel;

    open spec fn view(&self) -> NodeModel {
        NodeModel { id: self.id, labels: texts(self.labs@), properties: entries_of(self.props@) }
    }
}

/// A relationship of the graph.
#[derive(Debug, PartialEq, Eq)]
pub struct Rel {
    pub id: u64,
    pub src: u64,
    pub dst: u64,
    pub label: String,
    pub props: Vec<(String, Value)>,
}

/// The mathematical content of a [`Rel`].
pub struct RelModel {
    pub id: u64,
    pub src: u64,
    pub dst: u64,
    pub label: Seq<char>,
    pub properties: Seq<(Seq<char>, Term)>,
}

impl View for Rel {
    type V = RelModel;

    open spec fn view(&self) -> RelModel {
        RelModel {
            id: self.id,
            src: self.src,
            dst: self.dst,
            label: self.label@,
            properties: entries_of(self.props@),
        }
    }
}

/// The texts of the items, where every item is a string.
pub open spec fn texts_of(items: Seq<Term>) -> Option<Seq<Seq<char>>> {
    if forall|i: int| 0 <= i < items.len() ==> #[trigger] items[i] is String {
        Some(Seq::new(items.len(), |i: int| items[i]->String_0))
    } else {
        None
    }
}

/// The identifier that a field holds: an integer that is not negative.
pub open spec fn identifier_of(t: Term) -> Option<u64> {
    match t {
        Term::Integer(n) => if n >= 0 {
            Some(n as u64)
        } else {
            None
        },
        _ => None,
    }
}

/// The node that a value holds, or what is wrong with the value.
pub open spec fn node_of(t: Term) -> Result<NodeModel, Seq<char>> {
    match t {
        Term::Structure { signature, fields } => if signature != NODE {
            Err("Structure has incorrect signature"@)
        } else if fields.len() != 3 {
            Err("Node structure has incorrect number of fields"@)
        } else {
            match identifier_of(fields[0]) {
                None => Err("id field is not an integer"@),
                Some(id) => match fields[1] {
                    Term::List(items) => match texts_of(items) {
                        None => Err("label is not a string"@),
                        Some(labels) => match fields[2] {
                            Term::Dictionary(properties) => Ok(
                                NodeModel { id, labels, properties },
                            ),
                            _ => Err("properties field is not a map"@),
                        },
                    },
                    _ => Err("labels field is not a list"@),
                },
            }
        },
        _ => Err("Is not a node value."@),
    }
}

/// The relationship that a value holds, or what is wrong with the value.
pub open spec fn rel_of(t: Term) -> Result<RelModel, Seq<char>> {
    match t {
        Term::Structure { signature, fields } => if signature != RELATIONSHIP {
            Err("Structure has incorrect signature"@)
        } else if fields.len() != 5 {
            Err("Rel structure has incorrect number of fields"@)
        } else {
            match identifier_of(fields[0]) {
                None => Err("ID field is not an Integer"@),
                Some(id) => match identifier_of(fields[1]) {
                    None => Err("Src field is not an Integer"@),
                    Some(src) => match identifier_of(fields[2]) {
                        None => Err("Dst field is not an Integer"@),
                        Some(dst) => match fields[3] {
                            Term::String(label) => match fields[4] {
                                Term::Dictionary(properties) => Ok(
                                    RelModel { id, src, dst, label, properties },
                                ),
                                _ => Err("Props field is not a Map"@),
                            },
                            _ => Err("Label field is not a String"@),
                        },
                    },
                },
            }
        },
        _ => Err("Value is not an relationship"@),
    }
}

/// The identifier that a value holds.
fn identifier(value: Value) -> (out: Option<u64>)
    ensures
        out == identifier_of(value@),
{
    match value {
        Value::Integer(n) => if n >= 0 {
            Some(n as u64)
        } else {
            None
        },
        _ => None,
    }
}

/// The texts of the values, where every one of them is a string.
pub fn strings_of(items: &Vec<Value>) -> (out: Option<Vec<String>>)
    ensures
        match out {
            Some(strings) => texts_of(terms_of(items@)) == Some(texts(strings@)),
            None => texts_of(terms_of(items@)) is None,
        },
{
    let mut strings: Vec<String> = Vec::new();
    let mut i: usize = 0;
    while i < items.len()
        invariant
            i <= items.len(),
            strings.len() == i,
            forall|j: int| 0 <= j < i ==> #[trigger] terms_of(items@)[j] == Term::String(strings[j]@),
        decreases items.len() - i,
    {
        match &items[i] {
            Value::String(s) => {
                strings.push(s.clone());
            },
            _ => {
                assert(!(terms_of(items@)[i as int] is String));
                return None;
            },
        }
        i += 1;
    }
    assert(texts(strings@) =~= Seq::new(
        terms_of(items@).len(),
        |i: int| terms_of(items@)[i]->String_0,
    ));
    Some(strings)
}

/// Takes the last of the fields that are left.
fn take_last(fields: &mut Vec<Value>) -> (value: Value)
    requires
        old(fields).len() > 0,
    ensures
        final(fields)@ == old(fields)@.drop_last(),
        value == old(fields)@.last(),
{
    match fields.pop() {
        Some(value) => value,
        None => Value::Null,
    }
}

impl Node {
    /// Reads a node out of the structure that holds it.
    pub fn from_value(val: Value) -> (r: Result<Node, &'static str>)
        ensures
            match r {
                Ok(node) => node_of(val@) == Ok::<_, Seq<char>>(node@),
                Err(e) => node_of(val@) == Err::<NodeModel, _>(e@),
            },
    {
        proof {
            lemma_view(val);
        }
        match val {
            Value::Structure { signature, fields } => {
                let mut fields = fields;
                if signature != NODE {
                    return Err("Structure has incorrect signature");
                }
                if fields.len() != 3 {
                    return Err("Node structure has incorrect number of fields");
                }
                let ghost all = terms_of(fields@);
                let props = take_last(&mut fields);
                let labels = take_last(&mut fields);
                let id = take_last(&mut fields);
                proof {
                    lemma_view(props);
                    lemma_view(labels);
                    assert(all[0] == id@ && all[1] == labels@ && all[2] == props@);
                }
                let id = match identifier(id) {
                    Some(id) => id,
                    None => {
                        return Err("id field is not an integer");
                    },
                };
                let labs = match labels {
                    Value::List(items) => match strings_of(&items) {
                        Some(labs) => labs,
                        None => {
                            return Err("label is not a string");
                        },
                    },
                    _ => {
                        return Err("labels field is not a list");
                    },
                };
                match props {
                    Value::Dictionary(props) => Ok(Node { id, labs, props }),
                    _ => Err("properties field is not a map"),
                }
            },
            _ => Err("Is not a node value."),
        }
    }
}

impl Rel {
    /// Reads a relationship out of the structure that holds it.
    pub fn from_value(val: Value) -> (r: Result<Rel, &'static str>)
        ensures
            match r {
                Ok(rel) => rel_of(val@) == Ok::<_, Seq<char>>(rel@),
                Err(e) => rel_of(val@) == Err::<RelModel, _>(e@),
            },
    {
        proof {
            lemma_view(val);
        }
        match val {
            Value::Structure { signature, fields } => {
                let mut fields = fields;
                if signature != RELATIONSHIP {
                    return Err("Structure has incorrect signature");
                }
                if fields.len() != 5 {
                    return Err("Rel structure has incorrect number of fields");
                }
                let ghost all = terms_of(fields@);
                let props = take_last(&mut fields);
                let label = take_last(&mut fields);
                let dst = take_last(&mut fields);
                let src = take_last(&mut fields);
                let id = take_last(&mut fields);
                proof {
                    lemma_view(props);
                    assert(all[0] == id@ && all[1] == src@ && all[2] == dst@ && all[3] == label@
                        && all[4] == props@);
                }
                let id = match identifier(id) {
                    Some(id) => id,
                    None => {
                        return Err("ID field is not an Integer");
                    },
                };
                let src = match identifier(src) {
                    Some(src) => src,
                    None => {
                        return Err("Src field is not an Integer");
                    },
                };
                let dst = match identifier(dst) {
                    Some(dst) => dst,
                    None => {
                        return Err("Dst field is not an Integer");
                    },
                };
                let label = match label {
                    Value::String(label) => label,
                    _ => {
                        return Err("Label field is not a String");
                    },
                };
                match props {
                    Value::Dictionary(props) => Ok(Rel { id, src, dst, label, props }),
                    _ => Err("Props field is not a Map"),
                }
            },
            _ => Err("Value is not an relationship"),
        }
    }
}

} // verus!
