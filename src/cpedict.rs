use vstd::prelude::*;

use crate::codec::{split_fields, well_formed_name};
pub use crate::cpestructures::{Cpe23Entry, Cpe23Name, CpeEntry};
use crate::error::CpeError;
pub use crate::grammar::{CVE_CPE23_VALID_REGEX_STR, NVD_CPE23_VALID_REGEX_STR};

verus! {

/// One attribute of an element.
#[derive(Debug, Clone)]
pub struct XmlAttribute {
    pub name: String,
    pub value: String,
}

/// An element of the dictionary document: its local tag name, its attributes in
/// document order, and its element children in document order.
#[derive(Debug)]
pub struct XmlElement {
    pub tag: String,
    pub attributes: Vec<XmlAttribute>,
    pub children: Vec<XmlElement>,
}

pub open spec fn name_attr() -> Seq<char> {
    seq!['n', 'a', 'm', 'e']
}

pub open spec fn deprecated_attr() -> Seq<char> {
    seq!['d', 'e', 'p', 'r', 'e', 'c', 'a', 't', 'e', 'd']
}

pub open spec fn deprecation_date_attr() -> Seq<char> {
    seq!['d', 'e', 'p', 'r', 'e', 'c', 'a', 't', 'i', 'o', 'n', '_', 'd', 'a', 't', 'e']
}

pub open spec fn date_attr() -> Seq<char> {
    seq!['d', 'a', 't', 'e']
}

pub open spec fn type_attr() -> Seq<char> {
    seq!['t', 'y', 'p', 'e']
}

pub open spec fn item_tag() -> Seq<char> {
    seq!['c', 'p', 'e', '2', '3', '-', 'i', 't', 'e', 'm']
}

pub open spec fn deprecation_tag() -> Seq<char> {
    seq!['d', 'e', 'p', 'r', 'e', 'c', 'a', 't', 'i', 'o', 'n']
}

pub open spec fn generator_tag() -> Seq<char> {
    seq!['g', 'e', 'n', 'e', 'r', 'a', 't', 'o', 'r']
}

/// The value of the first attribute named `name` at or after position `i`.
pub open spec fn attribute_from(attrs: Seq<XmlAttribute>, name: Seq<char>, i: int) -> Option<Seq<char>>
    decreases attrs.len() - i,
{
    if i < 0 || i >= attrs.len() {
        None
    } else if attrs[i].name@ == name {
        Some(attrs[i].value@)
    } else {
        attribute_from(attrs, name, i + 1)
    }
}

/// The value of the attribute `name` of `el`.
pub open spec fn attr(el: XmlElement, name: Seq<char>) -> Option<Seq<char>> {
    attribute_from(el.attributes@, name, 0)
}

/// The position of the last among the first `n` children tagged `tag`.
pub open spec fn last_tagged_upto(children: Seq<XmlElement>, tag: Seq<char>, n: int) -> Option<int>
    decreases n,
{
    if n <= 0 {
        None
    } else if children[n - 1].tag@ == tag {
        Some(n - 1)
    } else {
        last_tagged_upto(children, tag, n - 1)
    }
}

/// The last child of `el` tagged `tag`.
pub open spec fn last_child_tagged(el: XmlElement, tag: Seq<char>) -> Option<XmlElement> {
    match last_tagged_upto(el.children@, tag, el.children@.len() as int) {
        Some(i) => Some(el.children@[i]),
        None => None,
    }
}

/// The view of an optional text.
pub open spec fn opt_view(o: Option<String>) -> Option<Seq<char>> {
    match o {
        Some(s) => Some(s@),
        None => None,
    }
}

/// What keeps a record element from being read, in the order it is checked: the
/// record's name, its structured item, the item's name, the replacement inside a
/// deprecation, and the structured name's form.
pub open spec fn node_problem(node: XmlElement) -> Option<CpeError> {
    if attr(node, name_attr()) is None {
        Some(CpeError::MissingAttribute)
    } else {
        match last_child_tagged(node, item_tag()) {
            None => Some(CpeError::MissingElement),
            Some(item) => {
                if attr(item, name_attr()) is None {
                    Some(CpeError::MissingAttribute)
                } else if last_child_tagged(item, deprecation_tag()) matches Some(d)
                    && d.children@.len() == 0 {
                    Some(CpeError::MissingElement)
                } else if !well_formed_name(attr(item, name_attr())->0) {
                    Some(CpeError::MalformedName)
                } else {
                    None
                }
            },
        }
    }
}

/// Whether `e` is the record that `node` describes.
pub open spec fn entry_from(e: CpeEntry, node: XmlElement) -> bool {
    let item = last_child_tagged(node, item_tag())->0;
    let dep = last_child_tagged(item, deprecation_tag());
    let s = e.structured();
    &&& e.legacy_name() == attr(node, name_attr())->0
    &&& e.deprecated() == attr(node, deprecated_attr()) is Some
    &&& opt_view(e.deprecated_date()) == attr(node, deprecation_date_attr())
    &&& e.name().fields() == split_fields(attr(item, name_attr())->0).drop_first()
    &&& s.deprecated() == dep is Some
    &&& opt_view(s.deprecated_date()) == (match dep {
        Some(d) => attr(d, date_attr()),
        None => None,
    })
    &&& opt_view(s.replaced_by()) == (match dep {
        Some(d) => attr(d.children@.last(), name_attr()),
        None => None,
    })
    &&& opt_view(s.deprecated_type()) == (match dep {
        Some(d) => attr(d.children@.last(), type_attr()),
        None => None,
    })
}

/// The value of the attribute `name` of `el`, if it has one.
pub fn get_attribute(el: &XmlElement, name: &String) -> (r: Option<String>)
    ensures
        opt_view(r) == attr(*el, name@),
{
    let mut i: usize = 0;
    while i < el.attributes.len()
        invariant
            i <= el.attributes@.len(),
            attribute_from(el.attributes@, name@, 0) == attribute_from(el.attributes@, name@, i as int),
        decreases el.attributes@.len() - i,
    {
        if el.attributes[i].name == *name {
            return Some(el.attributes[i].value.clone());
        }
        i = i + 1;
    }
    None
}

/// The position of the last child of `el` tagged `tag`.
pub fn find_last_child(el: &XmlElement, tag: &String) -> (r: Option<usize>)
    ensures
        match r {
            Some(i) => last_tagged_upto(el.children@, tag@, el.children@.len() as int) == Some(i as int),
            None => last_tagged_upto(el.children@, tag@, el.children@.len() as int) is None,
        },
        r matches Some(i) ==> i < el.children@.len(),
{
    let mut i: usize = el.children.len();
    while i > 0
        invariant
            i <= el.children@.len(),
            last_tagged_upto(el.children@, tag@, el.children@.len() as int)
                == last_tagged_upto(el.children@, tag@, i as int),
        decreases i,
    {
        if el.children[i - 1].tag == *tag {
            return Some(i - 1);
        }
        i = i - 1;
    }
    None
}

/// Reads one record element: its `name`, `deprecated` and `deprecation_date`
/// attributes, and its last `cpe23-item` child with that child's `name` and last
/// `deprecation` child. A deprecation holds its `date`, and its last child names the
/// replacement and its type.
pub fn parse_cpe_node(node: &XmlElement) -> (r: Result<CpeEntry, CpeError>)
    ensures
        match node_problem(*node) {
            Some(p) => r == Err::<CpeEntry, CpeError>(p),
            None => r matches Ok(e) && entry_from(e, *node),
        },
{
    let name_key = String::from_str("name");
    let deprecated_key = String::from_str("deprecated");
    let deprecation_date_key = String::from_str("deprecation_date");
    let date_key = String::from_str("date");
    let type_key = String::from_str("type");
    let item_key = String::from_str("cpe23-item");
    let deprecation_key = String::from_str("deprecation");
    proof {
        reveal_strlit("name");
        reveal_strlit("deprecated");
        reveal_strlit("deprecation_date");
        reveal_strlit("date");
        reveal_strlit("type");
        reveal_strlit("cpe23-item");
        reveal_strlit("deprecation");
        assert(name_key@ =~= name_attr());
        assert(deprecated_key@ =~= deprecated_attr());
        assert(deprecation_date_key@ =~= deprecation_date_attr());
        assert(date_key@ =~= date_attr());
        assert(type_key@ =~= type_attr());
        assert(item_key@ =~= item_tag());
        assert(deprecation_key@ =~= deprecation_tag());
    }
    let legacy = match get_attribute(node, &name_key) {
        Some(n) => n,
        None => return Err(CpeError::MissingAttribute),
    };
    let deprecated = get_attribute(node, &deprecated_key).is_some();
    let deprecation_date = get_attribute(node, &deprecation_date_key);
    let item = match find_last_child(node, &item_key) {
        Some(i) => &node.children[i],
        None => return Err(CpeError::MissingElement),
    };
    let item_name = match get_attribute(item, &name_key) {
        Some(n) => n,
        None => return Err(CpeError::MissingAttribute),
    };
    let mut item_deprecated = false;
    let mut item_date: Option<String> = None;
    let mut item_by: Option<String> = None;
    let mut item_type: Option<String> = None;
    match find_last_child(item, &deprecation_key) {
        None => {},
        Some(d) => {
            let dep = &item.children[d];
            if dep.children.len() == 0 {
                return Err(CpeError::MissingElement);
            }
            let by = &dep.children[dep.children.len() - 1];
            item_deprecated = true;
            item_date = get_attribute(dep, &date_key);
            item_by = get_attribute(by, &name_key);
            item_type = get_attribute(by, &type_key);
        },
    }
    let name = match Cpe23Name::parse(item_name.as_str()) {
        Ok(n) => n,
        Err(e) => return Err(e),
    };
    let structured = Cpe23Entry::new(name, item_deprecated, item_type, item_date, item_by);
    Ok(CpeEntry::new(legacy, deprecated, deprecation_date, structured))
}

/// The record elements among the first `n` children of the root: all but `generator`.
pub open spec fn records_upto(children: Seq<XmlElement>, n: int) -> Seq<XmlElement>
    decreases n,
{
    if n <= 0 {
        Seq::<XmlElement>::empty()
    } else if children[n - 1].tag@ != generator_tag() {
        records_upto(children, n - 1).push(children[n - 1])
    } else {
        records_upto(children, n - 1)
    }
}

/// The first problem among the record elements of the first `n` children of the root.
pub open spec fn problem_upto(children: Seq<XmlElement>, n: int) -> Option<CpeError>
    decreases n,
{
    if n <= 0 {
        None
    } else {
        match problem_upto(children, n - 1) {
            Some(p) => Some(p),
            None => if children[n - 1].tag@ != generator_tag() {
                node_problem(children[n - 1])
            } else {
                None
            },
        }
    }
}

/// Once a problem is found, later children do not change it.
pub proof fn lemma_problem_stays(children: Seq<XmlElement>, i: int, n: int)
    requires
        0 <= i <= n,
        problem_upto(children, i) is Some,
    ensures
        problem_upto(children, n) == problem_upto(children, i),
    decreases n - i,
{
    if n > i {
        lemma_problem_stays(children, i, n - 1);
    }
}

/// Reads every record of the dictionary whose root is `root`, skipping the
/// `generator` element. The first record that cannot be read fails the whole batch.
pub fn parse_dictionary(root: &XmlElement) -> (r: Result<Vec<CpeEntry>, CpeError>)
    ensures
        match problem_upto(root.children@, root.children@.len() as int) {
            Some(p) => r == Err::<Vec<CpeEntry>, CpeError>(p),
            None => r matches Ok(v) && v@.len() == records_upto(root.children@, root.children@.len() as int).len()
                && forall|k: int| 0 <= k < v@.len() ==> entry_from(#[trigger] v@[k],
                    records_upto(root.children@, root.children@.len() as int)[k]),
        },
{
    let generator_key = String::from_str("generator");
    proof {
        reveal_strlit("generator");
        assert(generator_key@ =~= generator_tag());
    }
    let mut out: Vec<CpeEntry> = Vec::new();
    let mut i: usize = 0;
    while i < root.children.len()
        invariant
            i <= root.children@.len(),
            generator_key@ == generator_tag(),
            problem_upto(root.children@, i as int) is None,
            out@.len() == records_upto(root.children@, i as int).len(),
            forall|k: int| 0 <= k < out@.len() ==> entry_from(#[trigger] out@[k],
                records_upto(root.children@, i as int)[k]),
        decreases root.children@.len() - i,
    {
        let child = &root.children[i];
        if child.tag != generator_key {
            match parse_cpe_node(child) {
                Ok(e) => {
                    let ghost prev = out@;
                    out.push(e);
                    assert forall|k: int| 0 <= k < out@.len() implies entry_from(#[trigger] out@[k],
                        records_upto(root.children@, i as int + 1)[k]) by {
                        if k < prev.len() {
                            assert(out@[k] == prev[k]);
                        }
                    }
                },
                Err(e) => {
                    proof {
                        lemma_problem_stays(root.children@, i as int + 1, root.children@.len() as int);
                    }
                    return Err(e);
                },
            }
        }
        i = i + 1;
    }
    Ok(out)
}

} // verus!
