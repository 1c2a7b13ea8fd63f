use vstd::prelude::*;
use vstd::string::StringExecFns;
use crate::sanitize::{lower_camel_of, to_lower_camel};

verus! {

// ---------------------------------------------------------------------------
// Type expressions
// ---------------------------------------------------------------------------

/// A target-language type expression. `Named` refers to a type definition by
/// its Pascal-cased name; everything else is structural.
#[derive(Debug)]
pub enum RsType {
    Str,
    Int,
    Float,
    Bool,
    Unit,
    Optional(Box<RsType>),
    Array(Box<RsType>),
    Dict(Box<RsType>),
    Json,
    Named(String),
    Tuple(Vec<RsType>),
    /// Inline string enumeration (a closed set of literal string tags).
    StringEnum(Vec<String>),
}

/// The mathematical model of a type expression: names as character
/// sequences, element lists as sequences.
pub enum RsTypeV {
    Str,
    Int,
    Float,
    Bool,
    Unit,
    Optional(Box<RsTypeV>),
    Array(Box<RsTypeV>),
    Dict(Box<RsTypeV>),
    Json,
    Named(Seq<char>),
    Tuple(Seq<RsTypeV>),
    StringEnum(Seq<Seq<char>>),
}

pub open spec fn rstype_view(t: RsType) -> RsTypeV
    decreases t,
{
    match t {
        RsType::Str => RsTypeV::Str,
        RsType::Int => RsTypeV::Int,
        RsType::Float => RsTypeV::Float,
        RsType::Bool => RsTypeV::Bool,
        RsType::Unit => RsTypeV::Unit,
        RsType::Optional(inner) => RsTypeV::Optional(Box::new(rstype_view(*inner))),
        RsType::Array(inner) => RsTypeV::Array(Box::new(rstype_view(*inner))),
        RsType::Dict(inner) => RsTypeV::Dict(Box::new(rstype_view(*inner))),
        RsType::Json => RsTypeV::Json,
        RsType::Named(name) => RsTypeV::Named(name@),
        RsType::Tuple(items) => RsTypeV::Tuple(rstype_views(items@)),
        RsType::StringEnum(values) => RsTypeV::StringEnum(string_views(values@)),
    }
}

pub open spec fn rstype_views(ts: Seq<RsType>) -> Seq<RsTypeV>
    decreases ts,
{
    if ts.len() == 0 {
        Seq::empty()
    } else {
        seq![rstype_view(ts[0])] + rstype_views(ts.drop_first())
    }
}

pub open spec fn string_views(ss: Seq<String>) -> Seq<Seq<char>> {
    ss.map_values(|s: String| s@)
}

pub broadcast proof fn lemma_rstype_views(ts: Seq<RsType>)
    ensures
        (#[trigger] rstype_views(ts)).len() == ts.len(),
        forall|i: int| 0 <= i < ts.len() ==> rstype_views(ts)[i] == rstype_view(ts[i]),
    decreases ts.len(),
{
    if ts.len() > 0 {
        lemma_rstype_views(ts.drop_first());
    }
}

impl View for RsType {
    type V = RsTypeV;

    open spec fn view(&self) -> RsTypeV {
        rstype_view(*self)
    }
}

// ---------------------------------------------------------------------------
// Type definitions
// ---------------------------------------------------------------------------

/// A record field: sanitized identifier, the original wire name, the
/// resolved type, and whether the field is optional.
#[derive(Debug)]
pub struct Field {
    pub name: String,
    pub original_name: String,
    pub ty: RsType,
    pub optional: bool,
    pub doc: Option<String>,
}

pub struct FieldV {
    pub name: Seq<char>,
    pub original_name: Seq<char>,
    pub ty: RsTypeV,
    pub optional: bool,
    pub doc: Option<Seq<char>>,
}

impl View for Field {
    type V = FieldV;

    open spec fn view(&self) -> FieldV {
        FieldV {
            name: self.name@,
            original_name: self.original_name@,
            ty: self.ty@,
            optional: self.optional,
            doc: self.doc.deep_view(),
        }
    }
}

/// A case of a variant type: a Pascal-cased tag, carrying at most one value.
#[derive(Debug)]
pub struct VariantCase {
    pub name: String,
    pub payload: Option<RsType>,
}

pub struct VariantCaseV {
    pub name: Seq<char>,
    pub payload: Option<RsTypeV>,
}

impl View for VariantCase {
    type V = VariantCaseV;

    open spec fn view(&self) -> VariantCaseV {
        VariantCaseV {
            name: self.name@,
            payload: match self.payload {
                Option::None => Option::None,
                Option::Some(t) => Option::Some(t@),
            },
        }
    }
}

/// One type definition of the IR: a record, a tagged union, or an alias.
/// The name is unique across the IR and Pascal-cased.
#[derive(Debug)]
pub enum TypeDef {
    Record { name: String, doc: Option<String>, fields: Vec<Field> },
    Variant { name: String, doc: Option<String>, cases: Vec<VariantCase> },
    Alias { name: String, doc: Option<String>, target: RsType },
}

pub enum TypeDefV {
    Record { name: Seq<char>, doc: Option<Seq<char>>, fields: Seq<FieldV> },
    Variant { name: Seq<char>, doc: Option<Seq<char>>, cases: Seq<VariantCaseV> },
    Alias { name: Seq<char>, doc: Option<Seq<char>>, target: RsTypeV },
}

impl View for TypeDef {
    type V = TypeDefV;

    open spec fn view(&self) -> TypeDefV {
        match self {
            TypeDef::Record { name, doc, fields } => TypeDefV::Record {
                name: name@,
                doc: doc.deep_view(),
                fields: fields.deep_view(),
            },
            TypeDef::Variant { name, doc, cases } => TypeDefV::Variant {
                name: name@,
                doc: doc.deep_view(),
                cases: cases.deep_view(),
            },
            TypeDef::Alias { name, doc, target } => TypeDefV::Alias {
                name: name@,
                doc: doc.deep_view(),
                target: target@,
            },
        }
    }
}

impl DeepView for Field {
    type V = FieldV;

    open spec fn deep_view(&self) -> FieldV {
        self.view()
    }
}

impl DeepView for VariantCase {
    type V = VariantCaseV;

    open spec fn deep_view(&self) -> VariantCaseV {
        self.view()
    }
}

impl DeepView for TypeDef {
    type V = TypeDefV;

    open spec fn deep_view(&self) -> TypeDefV {
        self.view()
    }
}

impl DeepView for RsType {
    type V = RsTypeV;

    open spec fn deep_view(&self) -> RsTypeV {
        self.view()
    }
}

impl TypeDefV {
    /// The Pascal-cased name of a type definition.
    pub open spec fn name(self) -> Seq<char> {
        match self {
            TypeDefV::Record { name, .. } => name,
            TypeDefV::Variant { name, .. } => name,
            TypeDefV::Alias { name, .. } => name,
        }
    }
}

impl TypeDef {
    /// The Pascal-cased name of a type definition.
    pub fn name(&self) -> (r: &str)
        ensures
            r@ == self@.name(),
    {
        match self {
            TypeDef::Record { name, .. } => name.as_str(),
            TypeDef::Variant { name, .. } => name.as_str(),
            TypeDef::Alias { name, .. } => name.as_str(),
        }
    }
}

// ---------------------------------------------------------------------------
// Endpoints
// ---------------------------------------------------------------------------

/// The fixed seven-member HTTP method enumeration.
#[derive(Debug, Clone, Copy, PartialEq, Eq, Structural)]
pub enum HttpMethod {
    Get,
    Post,
    Put,
    Patch,
    Delete,
    Head,
    Options,
}

/// The upper-case wire name of a method.
pub open spec fn method_upper(m: HttpMethod) -> Seq<char> {
    match m {
        HttpMethod::Get => "GET"@,
        HttpMethod::Post => "POST"@,
        HttpMethod::Put => "PUT"@,
        HttpMethod::Patch => "PATCH"@,
        HttpMethod::Delete => "DELETE"@,
        HttpMethod::Head => "HEAD"@,
        HttpMethod::Options => "OPTIONS"@,
    }
}

/// The lower-case name of a method, as it appears as a document key.
pub open spec fn method_lower(m: HttpMethod) -> Seq<char> {
    match m {
        HttpMethod::Get => "get"@,
        HttpMethod::Post => "post"@,
        HttpMethod::Put => "put"@,
        HttpMethod::Patch => "patch"@,
        HttpMethod::Delete => "delete"@,
        HttpMethod::Head => "head"@,
        HttpMethod::Options => "options"@,
    }
}

impl HttpMethod {
    /// The upper-case wire name of the method.
    pub fn as_str(&self) -> (r: &'static str)
        ensures
            r@ == method_upper(*self),
    {
        match self {
            HttpMethod::Get => "GET",
            HttpMethod::Post => "POST",
            HttpMethod::Put => "PUT",
            HttpMethod::Patch => "PATCH",
            HttpMethod::Delete => "DELETE",
            HttpMethod::Head => "HEAD",
            HttpMethod::Options => "OPTIONS",
        }
    }

    /// The lower-case name of the method.
    pub fn lower_name(&self) -> (r: &'static str)
        ensures
            r@ == method_lower(*self),
    {
        match self {
            HttpMethod::Get => "get",
            HttpMethod::Post => "post",
            HttpMethod::Put => "put",
            HttpMethod::Patch => "patch",
            HttpMethod::Delete => "delete",
            HttpMethod::Head => "head",
            HttpMethod::Options => "options",
        }
    }
}

/// The method a document key names, in either casing; anything else falls
/// back to the first member of the enumeration.
pub open spec fn method_of_name(s: Seq<char>) -> HttpMethod {
    if s == "get"@ || s == "GET"@ {
        HttpMethod::Get
    } else if s == "post"@ || s == "POST"@ {
        HttpMethod::Post
    } else if s == "put"@ || s == "PUT"@ {
        HttpMethod::Put
    } else if s == "patch"@ || s == "PATCH"@ {
        HttpMethod::Patch
    } else if s == "delete"@ || s == "DELETE"@ {
        HttpMethod::Delete
    } else if s == "head"@ || s == "HEAD"@ {
        HttpMethod::Head
    } else if s == "options"@ || s == "OPTIONS"@ {
        HttpMethod::Options
    } else {
        HttpMethod::Get
    }
}

impl HttpMethod {
    /// Reads a method from its document key, falling back to `Get` for an
    /// unrecognized spelling.
    pub fn from_name(s: &str) -> (r: HttpMethod)
        ensures
            r == method_of_name(s@),
    {
        if crate::text::str_eq(s, "get") || crate::text::str_eq(s, "GET") {
            HttpMethod::Get
        } else if crate::text::str_eq(s, "post") || crate::text::str_eq(s, "POST") {
            HttpMethod::Post
        } else if crate::text::str_eq(s, "put") || crate::text::str_eq(s, "PUT") {
            HttpMethod::Put
        } else if crate::text::str_eq(s, "patch") || crate::text::str_eq(s, "PATCH") {
            HttpMethod::Patch
        } else if crate::text::str_eq(s, "delete") || crate::text::str_eq(s, "DELETE") {
            HttpMethod::Delete
        } else if crate::text::str_eq(s, "head") || crate::text::str_eq(s, "HEAD") {
            HttpMethod::Head
        } else if crate::text::str_eq(s, "options") || crate::text::str_eq(s, "OPTIONS") {
            HttpMethod::Options
        } else {
            HttpMethod::Get
        }
    }
}

/// Where a parameter is carried; decides the encoding site in the client.
#[derive(Debug, Clone, Copy, PartialEq, Eq, Structural)]
pub enum ParameterLocation {
    Path,
    Query,
    Header,
    Cookie,
}

/// One operation parameter.
#[derive(Debug)]
pub struct Parameter {
    pub name: String,
    pub location: ParameterLocation,
    pub ty: RsType,
    pub required: bool,
    pub doc: Option<String>,
}

pub struct ParameterV {
    pub name: Seq<char>,
    pub location: ParameterLocation,
    pub ty: RsTypeV,
    pub required: bool,
    pub doc: Option<Seq<char>>,
}

impl View for Parameter {
    type V = ParameterV;

    open spec fn view(&self) -> ParameterV {
        ParameterV {
            name: self.name@,
            location: self.location,
            ty: self.ty@,
            required: self.required,
            doc: self.doc.deep_view(),
        }
    }
}

impl DeepView for Parameter {
    type V = ParameterV;

    open spec fn deep_view(&self) -> ParameterV {
        self.view()
    }
}

/// The request body of an operation; only one content type is modeled.
#[derive(Debug)]
pub struct RequestBody {
    pub ty: RsType,
    pub required: bool,
    pub content_type: String,
}

pub struct RequestBodyV {
    pub ty: RsTypeV,
    pub required: bool,
    pub content_type: Seq<char>,
}

impl View for RequestBody {
    type V = RequestBodyV;

    open spec fn view(&self) -> RequestBodyV {
        RequestBodyV { ty: self.ty@, required: self.required, content_type: self.content_type@ }
    }
}

/// One declared response: an exact status code and an optional payload type.
#[derive(Debug)]
pub struct Response {
    pub status: u16,
    pub ty: Option<RsType>,
    pub doc: Option<String>,
}

pub struct ResponseV {
    pub status: u16,
    pub ty: Option<RsTypeV>,
    pub doc: Option<Seq<char>>,
}

impl View for Response {
    type V = ResponseV;

    open spec fn view(&self) -> ResponseV {
        ResponseV {
            status: self.status,
            ty: match self.ty {
                Option::None => Option::None,
                Option::Some(t) => Option::Some(t@),
            },
            doc: self.doc.deep_view(),
        }
    }
}

impl DeepView for Response {
    type V = ResponseV;

    open spec fn deep_view(&self) -> ResponseV {
        self.view()
    }
}

/// One callable endpoint, lowered from a path-and-verb pair.
#[derive(Debug)]
pub struct Endpoint {
    pub operation_id: String,
    pub method: HttpMethod,
    pub path: String,
    pub doc: Option<String>,
    pub parameters: Vec<Parameter>,
    pub request_body: Option<RequestBody>,
    pub responses: Vec<Response>,
}

pub struct EndpointV {
    pub operation_id: Seq<char>,
    pub method: HttpMethod,
    pub path: Seq<char>,
    pub doc: Option<Seq<char>>,
    pub parameters: Seq<ParameterV>,
    pub request_body: Option<RequestBodyV>,
    pub responses: Seq<ResponseV>,
}

impl View for Endpoint {
    type V = EndpointV;

    open spec fn view(&self) -> EndpointV {
        EndpointV {
            operation_id: self.operation_id@,
            method: self.method,
            path: self.path@,
            doc: self.doc.deep_view(),
            parameters: self.parameters.deep_view(),
            request_body: match self.request_body {
                Option::None => Option::None,
                Option::Some(b) => Option::Some(b@),
            },
            responses: self.responses.deep_view(),
        }
    }
}

impl DeepView for Endpoint {
    type V = EndpointV;

    open spec fn deep_view(&self) -> EndpointV {
        self.view()
    }
}

// ---------------------------------------------------------------------------
// The IR root
// ---------------------------------------------------------------------------

/// The root of the IR: document metadata, the ordered type definitions, and
/// the ordered endpoints. Built once per run and read-only thereafter.
#[derive(Debug)]
pub struct ApiSpec {
    pub title: String,
    pub version: String,
    pub description: Option<String>,
    pub types: Vec<TypeDef>,
    pub endpoints: Vec<Endpoint>,
}

pub struct ApiSpecV {
    pub title: Seq<char>,
    pub version: Seq<char>,
    pub description: Option<Seq<char>>,
    pub types: Seq<TypeDefV>,
    pub endpoints: Seq<EndpointV>,
}

impl View for ApiSpec {
    type V = ApiSpecV;

    open spec fn view(&self) -> ApiSpecV {
        ApiSpecV {
            title: self.title@,
            version: self.version@,
            description: self.description.deep_view(),
            types: self.types.deep_view(),
            endpoints: self.endpoints.deep_view(),
        }
    }
}

/// No two type definitions render to the same target identifier; all three
/// artifacts locate a type by this identifier alone.
pub open spec fn types_renderwise_unique(types: Seq<TypeDefV>) -> bool {
    forall|i: int, j: int|
        0 <= i < j < types.len() ==> lower_camel_of(types[i].name()) != lower_camel_of(
            types[j].name(),
        )
}

/// Every optional field's type is wrapped in the optional constructor, and
/// no required field's type is.
pub open spec fn fields_optionality_ok(fields: Seq<FieldV>) -> bool {
    forall|i: int|
        0 <= i < fields.len() ==> (fields[i].optional <==> fields[i].ty is Optional)
}

/// No two fields of one record carry the same sanitized identifier.
pub open spec fn fields_namewise_unique(fields: Seq<FieldV>) -> bool {
    forall|i: int, j: int|
        0 <= i < j < fields.len() ==> (#[trigger] fields[i]).name != (#[trigger] fields[j]).name
}

/// Field-name uniqueness of one type definition.
pub open spec fn typedef_fields_unique(td: TypeDefV) -> bool {
    match td {
        TypeDefV::Record { fields, .. } => fields_namewise_unique(fields),
        _ => true,
    }
}

/// Field-name uniqueness over a whole list of type definitions.
pub open spec fn typedefs_fieldwise_unique(types: Seq<TypeDefV>) -> bool {
    forall|k: int| 0 <= k < types.len() ==> typedef_fields_unique(#[trigger] types[k])
}

/// No two endpoints carry the same rendered operation identifier; the client
/// artifact binds one callable per identifier.
pub open spec fn endpoints_idwise_unique(endpoints: Seq<EndpointV>) -> bool {
    forall|i: int, j: int|
        0 <= i < j < endpoints.len() ==> (#[trigger] endpoints[i]).operation_id != (
        #[trigger] endpoints[j]).operation_id
}

/// Optionality consistency of one type definition.
pub open spec fn typedef_optionality_ok(td: TypeDefV) -> bool {
    match td {
        TypeDefV::Record { fields, .. } => fields_optionality_ok(fields),
        _ => true,
    }
}

/// Optionality consistency over a whole list of type definitions.
pub open spec fn typedefs_optionality_ok(types: Seq<TypeDefV>) -> bool {
    forall|i: int| 0 <= i < types.len() ==> typedef_optionality_ok(#[trigger] types[i])
}

// ---------------------------------------------------------------------------
// Rendering of type expressions
// ---------------------------------------------------------------------------

/// The target-language text of a type expression.
pub open spec fn rescript_of(t: RsTypeV) -> Seq<char>
    decreases t,
{
    match t {
        RsTypeV::Str => "string"@,
        RsTypeV::Int => "int"@,
        RsTypeV::Float => "float"@,
        RsTypeV::Bool => "bool"@,
        RsTypeV::Unit => "unit"@,
        RsTypeV::Optional(inner) => "option<"@ + rescript_of(*inner) + ">"@,
        RsTypeV::Array(inner) => "array<"@ + rescript_of(*inner) + ">"@,
        RsTypeV::Dict(inner) => "Dict.t<"@ + rescript_of(*inner) + ">"@,
        RsTypeV::Json => "JSON.t"@,
        RsTypeV::Named(name) => lower_camel_of(name),
        RsTypeV::Tuple(items) => "("@ + rescript_join(items) + ")"@,
        RsTypeV::StringEnum(values) => "["@ + enum_tags(values) + "]"@,
    }
}

/// Tuple member types joined by a comma separator.
pub open spec fn rescript_join(ts: Seq<RsTypeV>) -> Seq<char>
    decreases ts,
{
    if ts.len() == 0 {
        Seq::empty()
    } else if ts.len() == 1 {
        rescript_of(ts[0])
    } else {
        rescript_join(ts.drop_last()) + ", "@ + rescript_of(ts.last())
    }
}

/// One literal tag of an inline string enumeration.
pub open spec fn enum_tag(v: Seq<char>) -> Seq<char> {
    "#\""@ + v + "\""@
}

/// The tags of an inline string enumeration joined by a bar separator.
pub open spec fn enum_tags(vs: Seq<Seq<char>>) -> Seq<char>
    decreases vs.len(),
{
    if vs.len() == 0 {
        Seq::empty()
    } else if vs.len() == 1 {
        enum_tag(vs[0])
    } else {
        enum_tags(vs.drop_last()) + " | "@ + enum_tag(vs.last())
    }
}

/// The validator expression of a type expression.
pub open spec fn schema_of(t: RsTypeV) -> Seq<char>
    decreases t,
{
    match t {
        RsTypeV::Str => "S.string"@,
        RsTypeV::Int => "S.int"@,
        RsTypeV::Float => "S.float"@,
        RsTypeV::Bool => "S.bool"@,
        RsTypeV::Unit => "S.unit"@,
        RsTypeV::Optional(inner) => "S.option("@ + schema_of(*inner) + ")"@,
        RsTypeV::Array(inner) => "S.array("@ + schema_of(*inner) + ")"@,
        RsTypeV::Dict(inner) => "S.dict("@ + schema_of(*inner) + ")"@,
        RsTypeV::Json => "S.json"@,
        RsTypeV::Named(name) => lower_camel_of(name) + "Schema"@,
        RsTypeV::Tuple(items) => "S.tuple(s => ("@ + schema_join(items) + "))"@,
        RsTypeV::StringEnum(values) => "S.union(["@ + literal_tags(values) + "])"@,
    }
}

/// Tuple member validators joined by a comma separator.
pub open spec fn schema_join(ts: Seq<RsTypeV>) -> Seq<char>
    decreases ts,
{
    if ts.len() == 0 {
        Seq::empty()
    } else if ts.len() == 1 {
        schema_of(ts[0])
    } else {
        schema_join(ts.drop_last()) + ", "@ + schema_of(ts.last())
    }
}

/// One literal-match combinator of a string enumeration validator.
pub open spec fn literal_tag(v: Seq<char>) -> Seq<char> {
    "S.literal(#\""@ + v + "\")"@
}

/// The literal-match combinators of a string enumeration joined by commas.
pub open spec fn literal_tags(vs: Seq<Seq<char>>) -> Seq<char>
    decreases vs.len(),
{
    if vs.len() == 0 {
        Seq::empty()
    } else if vs.len() == 1 {
        literal_tag(vs[0])
    } else {
        literal_tags(vs.drop_last()) + ", "@ + literal_tag(vs.last())
    }
}

proof fn lemma_join_step(ts: Seq<RsTypeV>, i: int)
    requires
        0 <= i < ts.len(),
    ensures
        i == 0 ==> rescript_join(ts.take(1)) == rescript_of(ts[0]),
        i == 0 ==> schema_join(ts.take(1)) == schema_of(ts[0]),
        i > 0 ==> rescript_join(ts.take(i + 1)) == rescript_join(ts.take(i)) + ", "@
            + rescript_of(ts[i]),
        i > 0 ==> schema_join(ts.take(i + 1)) == schema_join(ts.take(i)) + ", "@ + schema_of(
            ts[i],
        ),
{
    assert(ts.take(i + 1).drop_last() =~= ts.take(i));
    assert(ts.take(i + 1).last() == ts[i]);
    if i == 0 {
        assert(ts.take(1)[0] == ts[0]);
    }
}

proof fn lemma_tags_step(vs: Seq<Seq<char>>, i: int)
    requires
        0 <= i < vs.len(),
    ensures
        i == 0 ==> enum_tags(vs.take(1)) == enum_tag(vs[0]),
        i == 0 ==> literal_tags(vs.take(1)) == literal_tag(vs[0]),
        i > 0 ==> enum_tags(vs.take(i + 1)) == enum_tags(vs.take(i)) + " | "@ + enum_tag(vs[i]),
        i > 0 ==> literal_tags(vs.take(i + 1)) == literal_tags(vs.take(i)) + ", "@ + literal_tag(
            vs[i],
        ),
{
    assert(vs.take(i + 1).drop_last() =~= vs.take(i));
    assert(vs.take(i + 1).last() == vs[i]);
    if i == 0 {
        assert(vs.take(1)[0] == vs[0]);
    }
}

impl RsType {
    /// Renders the type expression as target-language type syntax.
    #[verifier::loop_isolation(false)]
    pub fn to_rescript(&self) -> (r: String)
        ensures
            r@ == rescript_of(self@),
        decreases *self,
    {
        broadcast use lemma_rstype_views, vstd::std_specs::vec::group_vec_axioms;

        match self {
            RsType::Str => "string".to_owned(),
            RsType::Int => "int".to_owned(),
            RsType::Float => "float".to_owned(),
            RsType::Bool => "bool".to_owned(),
            RsType::Unit => "unit".to_owned(),
            RsType::Optional(inner) => {
                let mut s = "option<".to_owned();
                let it = inner.to_rescript();
                s.append(it.as_str());
                s.append(">");
                s
            },
            RsType::Array(inner) => {
                let mut s = "array<".to_owned();
                let it = inner.to_rescript();
                s.append(it.as_str());
                s.append(">");
                s
            },
            RsType::Dict(inner) => {
                let mut s = "Dict.t<".to_owned();
                let it = inner.to_rescript();
                s.append(it.as_str());
                s.append(">");
                s
            },
            RsType::Json => "JSON.t".to_owned(),
            RsType::Named(name) => to_lower_camel(name.as_str()),
            RsType::Tuple(items) => {
                let ghost iv = rstype_views(items@);
                let mut s = "(".to_owned();
                let mut i: usize = 0;
                while i < items.len()
                    invariant
                        i <= items.len(),
                        iv == rstype_views(items@),
                        iv.len() == items@.len(),
                        forall|k: int| 0 <= k < items@.len() ==> iv[k] == rstype_view(items@[k]),
                        s@ == "("@ + rescript_join(iv.take(i as int)),
                    decreases items.len() - i,
                {
                    if i > 0 {
                        s.append(", ");
                    }
                    proof {
                        assert(decreases_to!(*items => items@[i as int]));
                    }
                    let it = items[i].to_rescript();
                    s.append(it.as_str());
                    proof {
                        lemma_join_step(iv, i as int);
                    }
                    i = i + 1;
                }
                proof {
                    assert(iv.take(items@.len() as int) =~= iv);
                }
                s.append(")");
                s
            },
            RsType::StringEnum(values) => {
                let ghost vv = string_views(values@);
                let mut s = "[".to_owned();
                let mut i: usize = 0;
                while i < values.len()
                    invariant
                        i <= values.len(),
                        vv == string_views(values@),
                        vv.len() == values@.len(),
                        forall|k: int| 0 <= k < values@.len() ==> vv[k] == values@[k]@,
                        s@ == "["@ + enum_tags(vv.take(i as int)),
                    decreases values.len() - i,
                {
                    if i > 0 {
                        s.append(" | ");
                    }
                    s.append("#\"");
                    s.append(values[i].as_str());
                    s.append("\"");
                    proof {
                        lemma_tags_step(vv, i as int);
                    }
                    i = i + 1;
                }
                proof {
                    assert(vv.take(values@.len() as int) =~= vv);
                }
                s.append("]");
                s
            },
        }
    }

    /// Renders the type expression as its validator expression.
    #[verifier::loop_isolation(false)]
    pub fn to_schema(&self) -> (r: String)
        ensures
            r@ == schema_of(self@),
        decreases *self,
    {
        broadcast use lemma_rstype_views, vstd::std_specs::vec::group_vec_axioms;

        match self {
            RsType::Str => "S.string".to_owned(),
            RsType::Int => "S.int".to_owned(),
            RsType::Float => "S.float".to_owned(),
            RsType::Bool => "S.bool".to_owned(),
            RsType::Unit => "S.unit".to_owned(),
            RsType::Optional(inner) => {
                let mut s = "S.option(".to_owned();
                let it = inner.to_schema();
                s.append(it.as_str());
                s.append(")");
                s
            },
            RsType::Array(inner) => {
                let mut s = "S.array(".to_owned();
                let it = inner.to_schema();
                s.append(it.as_str());
                s.append(")");
                s
            },
            RsType::Dict(inner) => {
                let mut s = "S.dict(".to_owned();
                let it = inner.to_schema();
                s.append(it.as_str());
                s.append(")");
                s
            },
            RsType::Json => "S.json".to_owned(),
            RsType::Named(name) => {
                let mut s = to_lower_camel(name.as_str());
                s.append("Schema");
                s
            },
            RsType::Tuple(items) => {
                let ghost iv = rstype_views(items@);
                let mut s = "S.tuple(s => (".to_owned();
                let mut i: usize = 0;
                while i < items.len()
                    invariant
                        i <= items.len(),
                        iv == rstype_views(items@),
                        iv.len() == items@.len(),
                        forall|k: int| 0 <= k < items@.len() ==> iv[k] == rstype_view(items@[k]),
                        s@ == "S.tuple(s => ("@ + schema_join(iv.take(i as int)),
                    decreases items.len() - i,
                {
                    if i > 0 {
                        s.append(", ");
                    }
                    proof {
                        assert(decreases_to!(*items => items@[i as int]));
                    }
                    let it = items[i].to_schema();
                    s.append(it.as_str());
                    proof {
                        lemma_join_step(iv, i as int);
                    }
                    i = i + 1;
                }
                proof {
                    assert(iv.take(items@.len() as int) =~= iv);
                }
                s.append("))");
                s
            },
            RsType::StringEnum(values) => {
                let ghost vv = string_views(values@);
                let mut s = "S.union([".to_owned();
                let mut i: usize = 0;
                while i < values.len()
                    invariant
                        i <= values.len(),
                        vv == string_views(values@),
                        vv.len() == values@.len(),
                        forall|k: int| 0 <= k < values@.len() ==> vv[k] == values@[k]@,
                        s@ == "S.union(["@ + literal_tags(vv.take(i as int)),
                    decreases values.len() - i,
                {
                    if i > 0 {
                        s.append(", ");
                    }
                    s.append("S.literal(#\"");
                    s.append(values[i].as_str());
                    s.append("\")");
                    proof {
                        lemma_tags_step(vv, i as int);
                    }
                    i = i + 1;
                }
                proof {
                    assert(vv.take(values@.len() as int) =~= vv);
                }
                s.append("])");
                s
            },
        }
    }
}

} // verus!
