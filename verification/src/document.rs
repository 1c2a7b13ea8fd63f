use vstd::prelude::*;

verus! {

// ---------------------------------------------------------------------------
// The decoded input document
// ---------------------------------------------------------------------------
//
// The lowering consumes a schema document as already-decoded structured data:
// named schema definitions under a components section and path-and-verb keyed
// operation definitions. Decoding from bytes is a collaborator's job at the
// system boundary; the collaborator hands over plain values in these types.

/// Either a reference to another element, by its full reference string, or
/// the element itself, inline.
#[derive(Debug)]
pub enum RefOr<T> {
    Ref(String),
    Item(T),
}

/// One schema: its description and its shape.
#[derive(Debug)]
pub struct SchemaNode {
    pub description: Option<String>,
    pub kind: SchemaKindNode,
}

/// The shape of a schema, as far as the lowering distinguishes shapes.
/// Shapes beyond the enumerated ones are carried as `OtherKind` and degrade
/// to the opaque-json fallback.
#[derive(Debug)]
pub enum SchemaKindNode {
    /// An object with named properties; `required` lists the property names
    /// that must be present.
    ObjectKind { properties: Vec<(String, RefOr<Box<SchemaNode>>)>, required: Vec<String> },
    /// A string, possibly restricted to an enumeration of literal values.
    /// An enumeration entry can be the null literal, which contributes no
    /// case.
    StringKind { enumeration: Vec<Option<String>> },
    IntegerKind,
    NumberKind,
    BooleanKind,
    /// An array of items, where the item schema may be absent.
    ArrayKind { items: Option<RefOr<Box<SchemaNode>>> },
    /// A union of alternative schemas.
    OneOfKind { variants: Vec<RefOr<Box<SchemaNode>>> },
    /// A free-form "any" schema.
    AnyKind,
    /// An "any of the following" composition; not modeled precisely.
    AnyOfKind,
    /// Every remaining composition (all-of, negation, ...).
    OtherKind,
}

/// Where a parameter is declared to be carried.
#[derive(Debug, Clone, Copy, PartialEq, Eq, Structural)]
pub enum ParamKind {
    PathParam,
    QueryParam,
    HeaderParam,
    CookieParam,
}

/// One declared operation parameter.
#[derive(Debug)]
pub struct ParamNode {
    pub name: String,
    pub kind: ParamKind,
    pub required: bool,
    pub description: Option<String>,
    /// The parameter's schema; absent when the parameter is given in
    /// content form instead.
    pub schema: Option<RefOr<Box<SchemaNode>>>,
}

/// One media entry of a request or response body: a content type mapped to
/// an optional schema.
#[derive(Debug)]
pub struct MediaNode {
    pub schema: Option<RefOr<Box<SchemaNode>>>,
}

/// A declared request body: its media entries in document order, and whether
/// the body is required.
#[derive(Debug)]
pub struct BodyNode {
    pub content: Vec<(String, MediaNode)>,
    pub required: bool,
}

/// A declared response: its description and its media entries.
#[derive(Debug)]
pub struct ResponseNode {
    pub description: String,
    pub content: Vec<(String, MediaNode)>,
}

/// A response key: an exact status code, or a whole status range (which the
/// lowering drops).
#[derive(Debug, Clone, Copy, PartialEq, Eq, Structural)]
pub enum StatusEntry {
    Code(u16),
    Range(u16),
}

/// One operation under a path.
#[derive(Debug)]
pub struct OperationNode {
    pub operation_id: Option<String>,
    pub summary: Option<String>,
    pub description: Option<String>,
    /// The declared parameters, in order. A parameter given only as a
    /// reference is carried as `Ref` and dropped by the lowering: the model
    /// holds named definitions for types only, so there is no parameter
    /// section to resolve such a reference against.
    pub parameters: Vec<RefOr<ParamNode>>,
    pub request_body: Option<RefOr<BodyNode>>,
    pub responses: Vec<(StatusEntry, RefOr<ResponseNode>)>,
}

/// The operations declared under one path, in document order.
#[derive(Debug)]
pub struct PathItemNode {
    pub ops: Vec<(crate::ir::HttpMethod, OperationNode)>,
}

/// The whole decoded document: top-level metadata, the named schemas of the
/// components section, and the paths.
#[derive(Debug)]
pub struct Document {
    pub title: Option<String>,
    pub version: Option<String>,
    pub description: Option<String>,
    pub schemas: Vec<(String, RefOr<SchemaNode>)>,
    pub paths: Vec<(String, RefOr<PathItemNode>)>,
}

} // verus!
