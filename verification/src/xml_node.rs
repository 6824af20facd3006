//! A deserialized, in-memory tree representation of a labelled
//! document node: tag name, text data, attributes and ordered
//! children, plus a builder for convenient construction.
//!
//! Attributes are stored as an ordered list; a later entry for the
//! same key replaces the earlier one (lookup scans from the end).

use vstd::prelude::*;
use crate::errors::DecodeError;
use crate::text::str_eq;

verus! {

/// A deserialized, in-memory tree representation of a document node.
#[derive(Debug)]
pub struct XmlNode {
    pub name: String,
    pub data: String,
    pub attributes: Vec<(String, String)>,
    pub childs: Vec<XmlNode>,
}

/// A builder that makes the construction of new nodes more convenient.
pub struct XmlNodeBuilder<'a> {
    pub name: &'a str,
    pub data: &'a str,
    pub attributes: Vec<(String, String)>,
    pub childs: Vec<XmlNode>,
}

/// Indicates that the type can be created from a tree node.
pub trait FromXmlNode where Self: Sized {
    /// Constructs a value of this type from a tree node.
    fn from_node(node: &XmlNode) -> Result<Self, DecodeError>;
}

/// The value of the last attribute entry with the given key, if any.
pub open spec fn attr_lookup(attrs: Seq<(String, String)>, key: Seq<char>) -> Option<Seq<char>>
    decreases attrs.len(),
{
    if attrs.len() == 0 {
        None
    } else if attrs.last().0@ == key {
        Some(attrs.last().1@)
    } else {
        attr_lookup(attrs.drop_last(), key)
    }
}

/// The first child element with the given tag name, if any.
pub open spec fn first_child_named(cs: Seq<XmlNode>, name: Seq<char>) -> Option<XmlNode>
    decreases cs.len(),
{
    if cs.len() == 0 {
        None
    } else if cs[0].name@ == name {
        Some(cs[0])
    } else {
        first_child_named(cs.drop_first(), name)
    }
}

/// All child elements with the given tag name, in document order.
pub open spec fn children_named(cs: Seq<XmlNode>, name: Seq<char>) -> Seq<XmlNode>
    decreases cs.len(),
{
    if cs.len() == 0 {
        Seq::empty()
    } else if cs[0].name@ == name {
        seq![cs[0]] + children_named(cs.drop_first(), name)
    } else {
        children_named(cs.drop_first(), name)
    }
}

impl XmlNode {
    /// Creates a new node builder with the specified tag name.
    pub fn new<'a>(name: &'a str) -> (r: XmlNodeBuilder<'a>)
        ensures
            r.name@ == name@,
            r.data@.len() == 0,
            r.attributes@.len() == 0,
            r.childs@.len() == 0,
    {
        XmlNodeBuilder::new(name)
    }

    /// Fetches the node's tag name.
    pub fn name(&self) -> (r: &str)
        ensures
            r@ == self.name@,
    {
        self.name.as_str()
    }

    /// Fetches the node's textual contents.
    pub fn data(&self) -> (r: &str)
        ensures
            r@ == self.data@,
    {
        self.data.as_str()
    }

    /// Fetches an attribute's value by key.
    pub fn attribute(&self, key: &str) -> (r: Result<&str, DecodeError>)
        ensures
            match r {
                Ok(v) => attr_lookup(self.attributes@, key@) == Some(v@),
                Err(e) => attr_lookup(self.attributes@, key@) is None && (e matches
                    DecodeError::MissingAttribute { key: k, tag: t } && k@ == key@ && t@
                    == self.name@),
            },
    {
        let mut idx: usize = self.attributes.len();
        proof {
            assert(self.attributes@.subrange(0, idx as int) =~= self.attributes@);
        }
        while idx > 0
            invariant
                idx <= self.attributes@.len(),
                attr_lookup(self.attributes@, key@) == attr_lookup(
                    self.attributes@.subrange(0, idx as int),
                    key@,
                ),
            decreases idx,
        {
            if str_eq(key, self.attributes[idx - 1].0.as_str()) {
                proof {
                    let sub = self.attributes@.subrange(0, idx as int);
                    assert(sub.last() == self.attributes@[idx - 1]);
                }
                return Ok(self.attributes[idx - 1].1.as_str());
            }
            proof {
                let sub = self.attributes@.subrange(0, idx as int);
                assert(sub.drop_last() =~= self.attributes@.subrange(0, idx - 1));
            }
            idx = idx - 1;
        }
        Err(DecodeError::MissingAttribute { key: key.to_owned(), tag: self.name.clone() })
    }

    /// Finds the first child element with the provided tag name.
    pub fn child_by_name<'a>(&'a self, name: &str) -> (r: Result<&'a XmlNode, DecodeError>)
        ensures
            match r {
                Ok(c) => first_child_named(self.childs@, name@) == Some(*c),
                Err(e) => first_child_named(self.childs@, name@) is None && (e matches
                    DecodeError::MissingChild { name: n, tag: t } && n@ == name@ && t@
                    == self.name@),
            },
    {
        let mut k: usize = 0;
        proof {
            assert(self.childs@.subrange(0, self.childs@.len() as int) =~= self.childs@);
        }
        while k < self.childs.len()
            invariant
                k <= self.childs@.len(),
                first_child_named(self.childs@, name@) == first_child_named(
                    self.childs@.subrange(k as int, self.childs@.len() as int),
                    name@,
                ),
            decreases self.childs@.len() - k,
        {
            let ghost suffix = self.childs@.subrange(k as int, self.childs@.len() as int);
            proof {
                assert(suffix[0] == self.childs@[k as int]);
            }
            if str_eq(self.childs[k].name.as_str(), name) {
                return Ok(&self.childs[k]);
            }
            proof {
                assert(suffix.drop_first() =~= self.childs@.subrange(
                    k + 1,
                    self.childs@.len() as int,
                ));
            }
            k += 1;
        }
        Err(DecodeError::MissingChild { name: name.to_owned(), tag: self.name.clone() })
    }

    /// Fetches all child elements matching the provided tag name, in
    /// document order.
    pub fn childs_by_name<'a>(&'a self, name: &str) -> (r: Vec<&'a XmlNode>)
        ensures
            r@.len() == children_named(self.childs@, name@).len(),
            forall|i: int|
                0 <= i < r@.len() ==> *(#[trigger] r@[i]) == children_named(
                    self.childs@,
                    name@,
                )[i],
    {
        let ghost cn = children_named(self.childs@, name@);
        let mut r: Vec<&XmlNode> = Vec::new();
        let mut k: usize = 0;
        proof {
            assert(self.childs@.subrange(0, self.childs@.len() as int) =~= self.childs@);
        }
        while k < self.childs.len()
            invariant
                k <= self.childs@.len(),
                r@.len() <= cn.len(),
                cn == children_named(self.childs@, name@),
                children_named(
                    self.childs@.subrange(k as int, self.childs@.len() as int),
                    name@,
                ) =~= cn.subrange(r@.len() as int, cn.len() as int),
                forall|i: int| 0 <= i < r@.len() ==> *(#[trigger] r@[i]) == cn[i],
            decreases self.childs@.len() - k,
        {
            let ghost suffix = self.childs@.subrange(k as int, self.childs@.len() as int);
            proof {
                assert(suffix[0] == self.childs@[k as int]);
                assert(suffix.drop_first() =~= self.childs@.subrange(
                    k + 1,
                    self.childs@.len() as int,
                ));
            }
            if str_eq(self.childs[k].name.as_str(), name) {
                proof {
                    let tail = children_named(suffix.drop_first(), name@);
                    assert(children_named(suffix, name@) == seq![self.childs@[k as int]] + tail);
                    assert(cn.subrange(r@.len() as int, cn.len() as int)[0] == self.childs@[k as int]);
                    assert(cn[r@.len() as int] == self.childs@[k as int]);
                    assert forall|i: int| 0 <= i < tail.len() implies tail[i] == cn[r@.len() + 1
                        + i] by {
                        assert((seq![self.childs@[k as int]] + tail)[i + 1] == tail[i]);
                        assert(cn.subrange(r@.len() as int, cn.len() as int)[i + 1] == cn[r@.len()
                            + 1 + i]);
                    }
                    assert(tail =~= cn.subrange(r@.len() as int + 1, cn.len() as int));
                }
                r.push(&self.childs[k]);
            }
            k += 1;
        }
        proof {
            assert(children_named(
                self.childs@.subrange(self.childs@.len() as int, self.childs@.len() as int),
                name@,
            ).len() == 0);
        }
        r
    }
}

impl<'a> XmlNodeBuilder<'a> {
    /// Creates a new builder with the specified tag name.
    pub fn new(name: &'a str) -> (r: XmlNodeBuilder<'a>)
        ensures
            r.name@ == name@,
            r.data@.len() == 0,
            r.attributes@.len() == 0,
            r.childs@.len() == 0,
    {
        proof {
            reveal_strlit("");
        }
        XmlNodeBuilder { name, data: "", attributes: Vec::new(), childs: Vec::new() }
    }

    /// Sets the tag name of the node.
    pub fn name(self, name: &'a str) -> (r: XmlNodeBuilder<'a>)
        ensures
            r.name@ == name@,
            r.data == self.data,
            r.attributes == self.attributes,
            r.childs == self.childs,
    {
        XmlNodeBuilder { name, ..self }
    }

    /// Sets the textual contents of the node.
    pub fn data(self, data: &'a str) -> (r: XmlNodeBuilder<'a>)
        ensures
            r.name == self.name,
            r.data@ == data@,
            r.attributes == self.attributes,
            r.childs == self.childs,
    {
        XmlNodeBuilder { data, ..self }
    }

    /// Adds the specified attributes (later entries replace earlier
    /// ones on lookup).
    pub fn attributes(self, attributes: Vec<(String, String)>) -> (r: XmlNodeBuilder<'a>)
        ensures
            r.name == self.name,
            r.data == self.data,
            r.attributes@ == self.attributes@ + attributes@,
            r.childs == self.childs,
    {
        let mut s = self;
        let mut given = attributes;
        s.attributes.append(&mut given);
        s
    }

    /// Adds the specified attribute.
    pub fn attribute(self, key: String, value: String) -> (r: XmlNodeBuilder<'a>)
        ensures
            r.name == self.name,
            r.data == self.data,
            r.attributes@ == self.attributes@.push((key, value)),
            r.childs == self.childs,
    {
        let mut s = self;
        s.attributes.push((key, value));
        s
    }

    /// Adds the specified children.
    pub fn childs(self, childs: Vec<XmlNode>) -> (r: XmlNodeBuilder<'a>)
        ensures
            r.name == self.name,
            r.data == self.data,
            r.attributes == self.attributes,
            r.childs@ == self.childs@ + childs@,
    {
        let mut s = self;
        let mut given = childs;
        s.childs.append(&mut given);
        s
    }

    /// Adds the specified child.
    pub fn child(self, child: XmlNode) -> (r: XmlNodeBuilder<'a>)
        ensures
            r.name == self.name,
            r.data == self.data,
            r.attributes == self.attributes,
            r.childs@ == self.childs@.push(child),
    {
        let mut s = self;
        s.childs.push(child);
        s
    }

    /// Adds the specified child if it was built successfully, and
    /// propagates its error otherwise.
    pub fn try_child(self, child: Result<XmlNode, DecodeError>) -> (r: Result<
        XmlNodeBuilder<'a>,
        DecodeError,
    >)
        ensures
            match r {
                Ok(b) => child matches Ok(c) && b.name == self.name && b.data == self.data
                    && b.attributes == self.attributes && b.childs@ == self.childs@.push(c),
                Err(e) => child == Err::<XmlNode, DecodeError>(e),
            },
    {
        match child {
            Ok(c) => Ok(self.child(c)),
            Err(e) => Err(e),
        }
    }

    /// Builds the node.
    pub fn build(self) -> (r: XmlNode)
        ensures
            r.name@ == self.name@,
            r.data@ == self.data@,
            r.attributes == self.attributes,
            r.childs == self.childs,
    {
        XmlNode {
            name: self.name.to_owned(),
            data: self.data.to_owned(),
            attributes: self.attributes,
            childs: self.childs,
        }
    }
}

} // verus!
