//! The trusted boundary to the `kdl` crate, which parses the node-tree
//! configuration language. The document and node types stay opaque; what
//! the logic reads of them — top-level nodes, a node's name, its entries
//! as plain values, its children — is named by uninterpreted model
//! functions, and each accessor the logic calls is a small wrapper whose
//! contract speaks over those names.
use vstd::prelude::*;

verus! {

#[verifier::external_type_specification]
#[verifier::external_body]
pub struct ExKdlDocument(kdl::KdlDocument);

#[verifier::external_type_specification]
#[verifier::external_body]
pub struct ExKdlNode(kdl::KdlNode);

/// A property or argument value of a configuration node, as plain data.
#[derive(Debug, Clone, PartialEq, Eq)]
pub enum ConfigValue {
    /// A string value.
    Str(String),
    /// An integer value.
    Int(i128),
    /// A boolean value.
    Bool(bool),
    /// A floating-point value, carried as the text it renders to.
    FloatText(String),
    /// The null value.
    Null,
}

/// The mathematical image of a `ConfigValue`.
pub enum ConfigValueView {
    Str(Seq<char>),
    Int(int),
    Bool(bool),
    FloatText(Seq<char>),
    Null,
}

impl View for ConfigValue {
    type V = ConfigValueView;

    open spec fn view(&self) -> ConfigValueView {
        match self {
            ConfigValue::Str(s) => ConfigValueView::Str(s@),
            ConfigValue::Int(v) => ConfigValueView::Int(*v as int),
            ConfigValue::Bool(b) => ConfigValueView::Bool(*b),
            ConfigValue::FloatText(t) => ConfigValueView::FloatText(t@),
            ConfigValue::Null => ConfigValueView::Null,
        }
    }
}

/// One entry of a configuration node: positional (an argument) when
/// `name` is absent, a property otherwise.
#[derive(Debug, Clone, PartialEq, Eq)]
pub struct NodeEntry {
    pub name: Option<String>,
    pub value: ConfigValue,
}

/// The mathematical image of a `NodeEntry`.
pub struct NodeEntryView {
    pub name: Option<Seq<char>>,
    pub value: ConfigValueView,
}

impl View for NodeEntry {
    type V = NodeEntryView;

    open spec fn view(&self) -> NodeEntryView {
        NodeEntryView { name: self.name.deep_view(), value: self.value@ }
    }
}

/// Whether the node-tree parser accepts this document text: a function
/// of the text alone.
pub uninterp spec fn kdl_parses(text: Seq<char>) -> bool;

/// The top-level nodes the parser yields for this document text: a
/// function of the text alone, meaningful when the parser accepts it.
pub uninterp spec fn parsed_nodes_of(text: Seq<char>) -> Seq<kdl::KdlNode>;

/// The top-level nodes a document holds.
pub uninterp spec fn doc_nodes_of(d: kdl::KdlDocument) -> Seq<kdl::KdlNode>;

/// A node's name.
pub uninterp spec fn node_name_of(n: kdl::KdlNode) -> Seq<char>;

/// A node's entries, as plain values.
pub uninterp spec fn node_entries_of(n: kdl::KdlNode) -> Seq<NodeEntryView>;

/// A node's children: absent when the node carries no child block.
pub uninterp spec fn node_children_of(n: kdl::KdlNode) -> Option<Seq<kdl::KdlNode>>;

/// Relies on kdl::KdlDocument::parse: whether it accepts a document, and
/// which nodes it yields, are functions of the text alone; the error is
/// its report.
#[verifier::external_body]
pub(crate) fn parse_document(text: &str) -> (r: Result<kdl::KdlDocument, String>)
    ensures
        r is Ok <==> kdl_parses(text@),
        r matches Ok(d) ==> doc_nodes_of(d) == parsed_nodes_of(text@),
{
    match kdl::KdlDocument::parse(text) {
        Ok(d) => Ok(d),
        Err(e) => Err(format!("{}", e)),
    }
}

/// Relies on kdl::KdlDocument::nodes: how many top-level nodes there are.
#[verifier::external_body]
pub(crate) fn doc_node_count(d: &kdl::KdlDocument) -> (r: usize)
    ensures
        r == doc_nodes_of(*d).len(),
{
    d.nodes().len()
}

/// Relies on kdl::KdlDocument::nodes: the node at one position.
#[verifier::external_body]
pub(crate) fn doc_node<'a>(d: &'a kdl::KdlDocument, i: usize) -> (r: &'a kdl::KdlNode)
    requires
        i < doc_nodes_of(*d).len(),
    ensures
        *r == doc_nodes_of(*d)[i as int],
{
    &d.nodes()[i]
}

/// Relies on kdl::KdlNode::name and kdl::KdlIdentifier::value.
#[verifier::external_body]
pub(crate) fn node_name(n: &kdl::KdlNode) -> (r: String)
    ensures
        r@ == node_name_of(*n),
{
    n.name().value().to_string()
}

/// Relies on kdl::KdlNode::entries: how many entries the node carries.
#[verifier::external_body]
pub(crate) fn node_entry_count(n: &kdl::KdlNode) -> (r: usize)
    ensures
        r == node_entries_of(*n).len(),
{
    n.entries().len()
}

/// Relies on kdl::KdlNode::entries, kdl::KdlEntry::name, kdl::KdlEntry::value,
/// and the kdl::KdlValue accessors: the entry at one position, one arm per
/// value variant.
#[verifier::external_body]
pub(crate) fn node_entry(n: &kdl::KdlNode, i: usize) -> (r: NodeEntry)
    requires
        i < node_entries_of(*n).len(),
    ensures
        r@ == node_entries_of(*n)[i as int],
{
    let e = &n.entries()[i];
    let name = e.name().map(|id| id.value().to_string());
    let value = if let Some(s) = e.value().as_string() {
        ConfigValue::Str(s.to_string())
    } else if let Some(x) = e.value().as_integer() {
        ConfigValue::Int(x)
    } else if let Some(b) = e.value().as_bool() {
        ConfigValue::Bool(b)
    } else if let Some(x) = e.value().as_float() {
        ConfigValue::FloatText(x.to_string())
    } else {
        ConfigValue::Null
    };
    NodeEntry { name, value }
}

/// Relies on kdl::KdlNode::children: the node's child document, if any.
#[verifier::external_body]
pub(crate) fn node_children<'a>(n: &'a kdl::KdlNode) -> (r: Option<&'a kdl::KdlDocument>)
    ensures
        r is Some <==> node_children_of(*n) is Some,
        r matches Some(d) ==> doc_nodes_of(*d) == node_children_of(*n)->0,
{
    n.children()
}

} // verus!
