use vstd::prelude::*;
use crate::document::{BodyNode, Document, MediaNode, OperationNode, ParamNode, PathItemNode,
    RefOr, ResponseNode, SchemaKindNode, SchemaNode, StatusEntry};
use crate::ir::{EndpointV, FieldV, HttpMethod, RsTypeV, TypeDefV, VariantCaseV};
use crate::lower::{endpoint_spec, endpoints_spec, enum_cases_spec, field_spec, fields_spec,
    insert_sorted_v, json_media, lower_schema_spec, oneof_cases_spec, ops_spec, param_spec,
    params_spec, pass1_spec, resolve_kind_spec, resolve_ref_spec, response_spec, responses_spec,
    strip_ref_prefix, typedefs_of, NamedDefV};
use crate::sanitize::pascal_of;

verus! {

// ---------------------------------------------------------------------------
// Referential closure
// ---------------------------------------------------------------------------
//
// Every named type reference the IR can hold comes from a reference string in
// the document, and every inline named schema becomes a type definition under
// its Pascal-cased source name. On a document whose reference strings all
// point at inline named schemas, the lowered IR is therefore referentially
// closed: each `Named` occurring anywhere in it names a type definition of
// the same IR.

// ---- where a name occurs in the IR ----------------------------------------

/// Whether the name `x` occurs as a named reference inside a type expression.
pub open spec fn named_in_type(t: RsTypeV, x: Seq<char>) -> bool
    decreases t,
{
    match t {
        RsTypeV::Named(n) => n == x,
        RsTypeV::Optional(inner) => named_in_type(*inner, x),
        RsTypeV::Array(inner) => named_in_type(*inner, x),
        RsTypeV::Dict(inner) => named_in_type(*inner, x),
        RsTypeV::Tuple(items) => named_in_type_list(items, x),
        _ => false,
    }
}

pub open spec fn named_in_type_list(ts: Seq<RsTypeV>, x: Seq<char>) -> bool
    decreases ts,
{
    if ts.len() == 0 {
        false
    } else {
        named_in_type(ts[0], x) || named_in_type_list(ts.drop_first(), x)
    }
}

pub open spec fn named_in_fields(fs: Seq<FieldV>, x: Seq<char>) -> bool
    decreases fs.len(),
{
    if fs.len() == 0 {
        false
    } else {
        named_in_fields(fs.drop_last(), x) || named_in_type(fs.last().ty, x)
    }
}

pub open spec fn named_in_cases(cs: Seq<VariantCaseV>, x: Seq<char>) -> bool
    decreases cs.len(),
{
    if cs.len() == 0 {
        false
    } else {
        named_in_cases(cs.drop_last(), x) || match cs.last().payload {
            Option::Some(t) => named_in_type(t, x),
            Option::None => false,
        }
    }
}

/// Whether the name `x` occurs anywhere inside one type definition.
pub open spec fn named_in_typedef(td: TypeDefV, x: Seq<char>) -> bool {
    match td {
        TypeDefV::Record { fields, .. } => named_in_fields(fields, x),
        TypeDefV::Variant { cases, .. } => named_in_cases(cases, x),
        TypeDefV::Alias { target, .. } => named_in_type(target, x),
    }
}

pub open spec fn named_in_typedefs(ts: Seq<TypeDefV>, x: Seq<char>) -> bool
    decreases ts.len(),
{
    if ts.len() == 0 {
        false
    } else {
        named_in_typedefs(ts.drop_last(), x) || named_in_typedef(ts.last(), x)
    }
}

pub open spec fn named_in_params(ps: Seq<crate::ir::ParameterV>, x: Seq<char>) -> bool
    decreases ps.len(),
{
    if ps.len() == 0 {
        false
    } else {
        named_in_params(ps.drop_last(), x) || named_in_type(ps.last().ty, x)
    }
}

pub open spec fn named_in_responses(rs: Seq<crate::ir::ResponseV>, x: Seq<char>) -> bool
    decreases rs.len(),
{
    if rs.len() == 0 {
        false
    } else {
        named_in_responses(rs.drop_last(), x) || match rs.last().ty {
            Option::Some(t) => named_in_type(t, x),
            Option::None => false,
        }
    }
}

/// Whether the name `x` occurs anywhere inside one endpoint.
pub open spec fn named_in_endpoint(e: EndpointV, x: Seq<char>) -> bool {
    named_in_params(e.parameters, x) || (match e.request_body {
        Option::Some(rb) => named_in_type(rb.ty, x),
        Option::None => false,
    }) || named_in_responses(e.responses, x)
}

pub open spec fn named_in_endpoints(es: Seq<EndpointV>, x: Seq<char>) -> bool
    decreases es.len(),
{
    if es.len() == 0 {
        false
    } else {
        named_in_endpoints(es.drop_last(), x) || named_in_endpoint(es.last(), x)
    }
}

// ---- where a reference target occurs in the document ----------------------

/// Whether `n` is the (prefix-stripped) target of a reference string at a
/// position the lowering resolves.
pub open spec fn target_in_schema_ref(sr: RefOr<Box<SchemaNode>>, n: Seq<char>) -> bool
    decreases sr,
{
    match sr {
        RefOr::Ref(r) => strip_ref_prefix(r@) == n,
        RefOr::Item(s) => target_in_kind(s.kind, n),
    }
}

pub open spec fn target_in_kind(k: SchemaKindNode, n: Seq<char>) -> bool
    decreases k,
{
    match k {
        SchemaKindNode::ObjectKind { properties, .. } => target_in_props(properties@, n),
        SchemaKindNode::ArrayKind { items } => match items {
            Option::Some(sr) => target_in_schema_ref(sr, n),
            Option::None => false,
        },
        SchemaKindNode::OneOfKind { variants } => target_in_list(variants@, n),
        _ => false,
    }
}

pub open spec fn target_in_props(ps: Seq<(String, RefOr<Box<SchemaNode>>)>, n: Seq<char>) -> bool
    decreases ps,
{
    if ps.len() == 0 {
        false
    } else {
        target_in_props(ps.drop_last(), n) || target_in_schema_ref(ps.last().1, n)
    }
}

pub open spec fn target_in_list(vs: Seq<RefOr<Box<SchemaNode>>>, n: Seq<char>) -> bool
    decreases vs,
{
    if vs.len() == 0 {
        false
    } else {
        target_in_list(vs.drop_last(), n) || target_in_schema_ref(vs.last(), n)
    }
}

pub open spec fn target_in_schemas(
    schemas: Seq<(String, RefOr<SchemaNode>)>,
    n: Seq<char>,
) -> bool
    decreases schemas.len(),
{
    if schemas.len() == 0 {
        false
    } else {
        target_in_schemas(schemas.drop_last(), n) || match schemas.last().1 {
            RefOr::Item(s) => target_in_kind(s.kind, n),
            RefOr::Ref(_) => false,
        }
    }
}

pub open spec fn target_in_media(m: Option<MediaNode>, n: Seq<char>) -> bool {
    match m {
        Option::Some(media) => match media.schema {
            Option::Some(sr) => target_in_schema_ref(sr, n),
            Option::None => false,
        },
        Option::None => false,
    }
}

pub open spec fn target_in_params(ps: Seq<RefOr<ParamNode>>, n: Seq<char>) -> bool
    decreases ps.len(),
{
    if ps.len() == 0 {
        false
    } else {
        target_in_params(ps.drop_last(), n) || match ps.last() {
            RefOr::Item(p) => match p.schema {
                Option::Some(sr) => target_in_schema_ref(sr, n),
                Option::None => false,
            },
            RefOr::Ref(_) => false,
        }
    }
}

pub open spec fn target_in_body(b: Option<RefOr<BodyNode>>, n: Seq<char>) -> bool {
    match b {
        Option::Some(RefOr::Item(body)) => target_in_media(json_media(body.content@), n),
        _ => false,
    }
}

pub open spec fn target_in_resps(
    rs: Seq<(StatusEntry, RefOr<ResponseNode>)>,
    n: Seq<char>,
) -> bool
    decreases rs.len(),
{
    if rs.len() == 0 {
        false
    } else {
        target_in_resps(rs.drop_last(), n) || match rs.last() {
            (StatusEntry::Code(_), RefOr::Item(resp)) => target_in_media(
                json_media(resp.content@),
                n,
            ),
            _ => false,
        }
    }
}

pub open spec fn target_in_op(op: OperationNode, n: Seq<char>) -> bool {
    target_in_params(op.parameters@, n) || target_in_body(op.request_body, n) || target_in_resps(
        op.responses@,
        n,
    )
}

pub open spec fn target_in_ops(ops: Seq<(HttpMethod, OperationNode)>, n: Seq<char>) -> bool
    decreases ops.len(),
{
    if ops.len() == 0 {
        false
    } else {
        target_in_ops(ops.drop_last(), n) || target_in_op(ops.last().1, n)
    }
}

pub open spec fn target_in_paths(paths: Seq<(String, RefOr<PathItemNode>)>, n: Seq<char>) -> bool
    decreases paths.len(),
{
    if paths.len() == 0 {
        false
    } else {
        target_in_paths(paths.drop_last(), n) || match paths.last().1 {
            RefOr::Item(item) => target_in_ops(item.ops@, n),
            RefOr::Ref(_) => false,
        }
    }
}

/// Whether `n` is the target of any reference the lowering resolves.
pub open spec fn target_in_document(doc: Document, n: Seq<char>) -> bool {
    target_in_schemas(doc.schemas@, n) || target_in_paths(doc.paths@, n)
}

/// Whether an inline schema named `n` stands in the components section.
pub open spec fn defined_schema_name(
    schemas: Seq<(String, RefOr<SchemaNode>)>,
    n: Seq<char>,
) -> bool {
    exists|k: int|
        0 <= k < schemas.len() && (#[trigger] schemas[k]).1 is Item && schemas[k].0@ == n
}

/// A closed document: every reference target names an inline schema of the
/// components section.
pub open spec fn document_closed(doc: Document) -> bool {
    forall|n: Seq<char>| #[trigger] target_in_document(doc, n) ==> defined_schema_name(
        doc.schemas@,
        n,
    )
}

/// Whether some type definition of the list carries the name `x`.
pub open spec fn type_defined(types: Seq<TypeDefV>, x: Seq<char>) -> bool {
    exists|k: int| 0 <= k < types.len() && (#[trigger] types[k]).name() == x
}

// ---- the resolver only names reference targets -----------------------------

proof fn lemma_resolve_named(sr: RefOr<Box<SchemaNode>>, x: Seq<char>)
    requires
        named_in_type(resolve_ref_spec(sr), x),
    ensures
        exists|n: Seq<char>| #[trigger] target_in_schema_ref(sr, n) && x == pascal_of(n),
    decreases sr,
{
    match sr {
        RefOr::Ref(r) => {
            assert(target_in_schema_ref(sr, strip_ref_prefix(r@)));
        },
        RefOr::Item(s) => {
            lemma_resolve_named_kind(s.kind, x);
            let n = choose|n: Seq<char>| #[trigger] target_in_kind(s.kind, n) && x == pascal_of(n);
            assert(target_in_schema_ref(sr, n));
        },
    }
}

proof fn lemma_resolve_named_kind(k: SchemaKindNode, x: Seq<char>)
    requires
        named_in_type(resolve_kind_spec(k), x),
    ensures
        exists|n: Seq<char>| #[trigger] target_in_kind(k, n) && x == pascal_of(n),
    decreases k,
{
    match k {
        SchemaKindNode::StringKind { enumeration } => {
            if enumeration@.len() > 0 {
                assert(resolve_kind_spec(k) == RsTypeV::StringEnum(
                    crate::lower::enum_values(enumeration@),
                ));
                assert(!named_in_type(RsTypeV::StringEnum(
                    crate::lower::enum_values(enumeration@),
                ), x));
            } else {
                assert(resolve_kind_spec(k) == RsTypeV::Str);
                assert(!named_in_type(RsTypeV::Str, x));
            }
        },
        SchemaKindNode::ArrayKind { items } => {
            match items {
                Option::Some(sr) => {
                    lemma_resolve_named(sr, x);
                    let n = choose|n: Seq<char>|
                        #[trigger] target_in_schema_ref(sr, n) && x == pascal_of(n);
                    assert(target_in_kind(k, n));
                },
                Option::None => {
                    assert(resolve_kind_spec(k) == RsTypeV::Array(Box::new(RsTypeV::Json)));
                    assert(!named_in_type(RsTypeV::Json, x));
                    assert(!named_in_type(RsTypeV::Array(Box::new(RsTypeV::Json)), x));
                },
            }
        },
        SchemaKindNode::IntegerKind => {
            assert(!named_in_type(RsTypeV::Int, x));
        },
        SchemaKindNode::NumberKind => {
            assert(!named_in_type(RsTypeV::Float, x));
        },
        SchemaKindNode::BooleanKind => {
            assert(!named_in_type(RsTypeV::Bool, x));
        },
        _ => {
            assert(resolve_kind_spec(k) == RsTypeV::Json);
            assert(!named_in_type(RsTypeV::Json, x));
        },
    }
}

// ---- pass 1 only names reference targets -----------------------------------

/// Every name occurring in a type definition lowered from the given schema
/// list is the Pascal-casing of one of its reference targets.
pub open spec fn def_named_from(schemas: Seq<(String, RefOr<SchemaNode>)>, td: TypeDefV) -> bool {
    forall|x: Seq<char>|
        #[trigger] named_in_typedef(td, x) ==> exists|n: Seq<char>|
            #[trigger] target_in_schemas(schemas, n) && x == pascal_of(n)
}

proof fn lemma_fields_named(
    props: Seq<(String, RefOr<Box<SchemaNode>>)>,
    required: Seq<String>,
    x: Seq<char>,
)
    requires
        named_in_fields(fields_spec(props, required), x),
    ensures
        exists|n: Seq<char>| #[trigger] target_in_props(props, n) && x == pascal_of(n),
    decreases props.len(),
{
    let fs = fields_spec(props, required);
    assert(fs.len() == props.len()) by {
        lemma_fields_len(props, required);
    }
    if named_in_fields(fs.drop_last(), x) {
        assert(fs.drop_last() =~= fields_spec(props.drop_last(), required));
        lemma_fields_named(props.drop_last(), required, x);
        let n = choose|n: Seq<char>|
            #[trigger] target_in_props(props.drop_last(), n) && x == pascal_of(n);
        assert(target_in_props(props, n));
    } else {
        assert(fs.last() == field_spec(props.last().0, props.last().1, required));
        let f = fs.last();
        assert(named_in_type(f.ty, x));
        let t = resolve_ref_spec(props.last().1);
        assert(named_in_type(t, x));
        lemma_resolve_named(props.last().1, x);
        let n = choose|n: Seq<char>|
            #[trigger] target_in_schema_ref(props.last().1, n) && x == pascal_of(n);
        assert(target_in_props(props, n));
    }
}

proof fn lemma_fields_len(props: Seq<(String, RefOr<Box<SchemaNode>>)>, required: Seq<String>)
    ensures
        fields_spec(props, required).len() == props.len(),
    decreases props.len(),
{
    if props.len() > 0 {
        lemma_fields_len(props.drop_last(), required);
    }
}

proof fn lemma_enum_cases_named(vs: Seq<Option<String>>, x: Seq<char>)
    ensures
        !named_in_cases(enum_cases_spec(vs), x),
    decreases vs.len(),
{
    if vs.len() > 0 {
        lemma_enum_cases_named(vs.drop_last(), x);
        let prev = enum_cases_spec(vs.drop_last());
        let cs = enum_cases_spec(vs);
        match vs.last() {
            Option::Some(v) => {
                assert(cs.drop_last() =~= prev);
                assert(cs.last().payload is None);
            },
            Option::None => {
                assert(cs =~= prev);
            },
        }
    }
}

proof fn lemma_oneof_cases_named(vs: Seq<RefOr<Box<SchemaNode>>>, x: Seq<char>)
    requires
        named_in_cases(oneof_cases_spec(vs), x),
    ensures
        exists|n: Seq<char>| #[trigger] target_in_list(vs, n) && x == pascal_of(n),
    decreases vs.len(),
{
    let cs = oneof_cases_spec(vs);
    if named_in_cases(cs.drop_last(), x) {
        assert(cs.drop_last() =~= oneof_cases_spec(vs.drop_last()));
        lemma_oneof_cases_named(vs.drop_last(), x);
        let n = choose|n: Seq<char>|
            #[trigger] target_in_list(vs.drop_last(), n) && x == pascal_of(n);
        assert(target_in_list(vs, n));
    } else {
        assert(cs.last().payload == Option::Some(resolve_ref_spec(vs.last())));
        lemma_resolve_named(vs.last(), x);
        let n = choose|n: Seq<char>|
            #[trigger] target_in_schema_ref(vs.last(), n) && x == pascal_of(n);
        assert(target_in_list(vs, n));
    }
}

proof fn lemma_lower_schema_named(name: Seq<char>, schema: SchemaNode, x: Seq<char>)
    requires
        named_in_typedef(lower_schema_spec(name, schema), x),
    ensures
        exists|n: Seq<char>| #[trigger] target_in_kind(schema.kind, n) && x == pascal_of(n),
{
    match schema.kind {
        SchemaKindNode::ObjectKind { properties, required } => {
            lemma_fields_named(properties@, required@, x);
            let n = choose|n: Seq<char>|
                #[trigger] target_in_props(properties@, n) && x == pascal_of(n);
            assert(target_in_kind(schema.kind, n));
        },
        SchemaKindNode::StringKind { enumeration } => {
            if enumeration@.len() > 0 {
                lemma_enum_cases_named(enumeration@, x);
            }
        },
        SchemaKindNode::OneOfKind { variants } => {
            lemma_oneof_cases_named(variants@, x);
            let n = choose|n: Seq<char>|
                #[trigger] target_in_list(variants@, n) && x == pascal_of(n);
            assert(target_in_kind(schema.kind, n));
        },
        _ => {
            lemma_resolve_named_kind(schema.kind, x);
        },
    }
}

proof fn lemma_insert_named_from(
    schemas: Seq<(String, RefOr<SchemaNode>)>,
    s: Seq<NamedDefV>,
    nd: NamedDefV,
)
    requires
        forall|k: int| 0 <= k < s.len() ==> def_named_from(schemas, (#[trigger] s[k]).def),
        def_named_from(schemas, nd.def),
    ensures
        forall|k: int|
            0 <= k < insert_sorted_v(s, nd).len() ==> def_named_from(
                schemas,
                (#[trigger] insert_sorted_v(s, nd)[k]).def,
            ),
    decreases s.len(),
{
    if s.len() == 0 {
    } else if nd.key == s[0].key {
    } else if crate::text::lex_lt(nd.key, s[0].key) {
    } else {
        assert(forall|k: int|
            0 <= k < s.drop_first().len() ==> def_named_from(
                schemas,
                (#[trigger] s.drop_first()[k]).def,
            ));
        lemma_insert_named_from(schemas, s.drop_first(), nd);
    }
}

proof fn lemma_target_monotone(schemas: Seq<(String, RefOr<SchemaNode>)>, td: TypeDefV)
    requires
        schemas.len() > 0,
        def_named_from(schemas.drop_last(), td),
    ensures
        def_named_from(schemas, td),
{
    assert forall|x: Seq<char>| #[trigger] named_in_typedef(td, x) implies exists|n: Seq<char>|
        #[trigger] target_in_schemas(schemas, n) && x == pascal_of(n) by {
        let n = choose|n: Seq<char>|
            #[trigger] target_in_schemas(schemas.drop_last(), n) && x == pascal_of(n);
        assert(target_in_schemas(schemas, n));
    }
}

proof fn lemma_pass1_named_from(schemas: Seq<(String, RefOr<SchemaNode>)>)
    ensures
        forall|k: int|
            0 <= k < pass1_spec(schemas).len() ==> def_named_from(
                schemas,
                (#[trigger] pass1_spec(schemas)[k]).def,
            ),
    decreases schemas.len(),
{
    if schemas.len() > 0 {
        lemma_pass1_named_from(schemas.drop_last());
        let prev = pass1_spec(schemas.drop_last());
        assert forall|k: int| 0 <= k < prev.len() implies def_named_from(
            schemas,
            (#[trigger] prev[k]).def,
        ) by {
            lemma_target_monotone(schemas, prev[k].def);
        }
        match schemas.last().1 {
            RefOr::Item(schema) => {
                let nd = NamedDefV {
                    key: schemas.last().0@,
                    def: lower_schema_spec(schemas.last().0@, schema),
                };
                assert(def_named_from(schemas, nd.def)) by {
                    assert forall|x: Seq<char>| #[trigger] named_in_typedef(nd.def, x) implies
                        exists|n: Seq<char>|
                            #[trigger] target_in_schemas(schemas, n) && x == pascal_of(n) by {
                        lemma_lower_schema_named(schemas.last().0@, schema, x);
                        let n = choose|n: Seq<char>|
                            #[trigger] target_in_kind(schema.kind, n) && x == pascal_of(n);
                        assert(target_in_schemas(schemas, n));
                    }
                }
                lemma_insert_named_from(schemas, prev, nd);
            },
            RefOr::Ref(_) => {},
        }
    }
}

// ---- pass 1 defines every inline source name -------------------------------

proof fn lemma_insert_keeps_key(s: Seq<NamedDefV>, nd: NamedDefV, key: Seq<char>)
    requires
        (exists|k: int| 0 <= k < s.len() && (#[trigger] s[k]).key == key) || nd.key == key,
    ensures
        exists|k: int|
            0 <= k < insert_sorted_v(s, nd).len() && (#[trigger] insert_sorted_v(s, nd)[k]).key
                == key,
    decreases s.len(),
{
    let out = insert_sorted_v(s, nd);
    if s.len() == 0 {
        assert(out[0].key == nd.key);
    } else if nd.key == s[0].key {
        if key == nd.key {
            assert(out[0].key == key);
        } else {
            let k = choose|k: int| 0 <= k < s.len() && (#[trigger] s[k]).key == key;
            assert(k > 0);
            assert(out[k] == s.drop_first()[k - 1] || out[k] == s[k]) by {
                assert(out =~= seq![nd] + s.drop_first());
            }
            assert(out[k].key == key);
        }
    } else if crate::text::lex_lt(nd.key, s[0].key) {
        if key == nd.key {
            assert(out[0].key == key);
        } else {
            let k = choose|k: int| 0 <= k < s.len() && (#[trigger] s[k]).key == key;
            assert(out[k + 1] == s[k]);
            assert(out[k + 1].key == key);
        }
    } else {
        if key == s[0].key {
            assert(out[0] == s[0]);
            assert(out[0].key == key);
        } else {
            if nd.key != key {
                let k = choose|k: int| 0 <= k < s.len() && (#[trigger] s[k]).key == key;
                assert(k > 0);
                assert(s.drop_first()[k - 1].key == key);
            }
            lemma_insert_keeps_key(s.drop_first(), nd, key);
            let j = choose|j: int|
                0 <= j < insert_sorted_v(s.drop_first(), nd).len() && (#[trigger] insert_sorted_v(
                    s.drop_first(),
                    nd,
                )[j]).key == key;
            assert(out[j + 1] == insert_sorted_v(s.drop_first(), nd)[j]);
            assert(out[j + 1].key == key);
        }
    }
}

proof fn lemma_pass1_defines(schemas: Seq<(String, RefOr<SchemaNode>)>, name: Seq<char>)
    requires
        defined_schema_name(schemas, name),
    ensures
        exists|k: int|
            0 <= k < pass1_spec(schemas).len() && (#[trigger] pass1_spec(schemas)[k]).key == name,
    decreases schemas.len(),
{
    let j = choose|j: int|
        0 <= j < schemas.len() && (#[trigger] schemas[j]).1 is Item && schemas[j].0@ == name;
    let prev = pass1_spec(schemas.drop_last());
    if j < schemas.len() - 1 {
        assert(defined_schema_name(schemas.drop_last(), name)) by {
            assert(schemas.drop_last()[j] == schemas[j]);
        }
        lemma_pass1_defines(schemas.drop_last(), name);
        match schemas.last().1 {
            RefOr::Item(schema) => {
                let nd = NamedDefV {
                    key: schemas.last().0@,
                    def: lower_schema_spec(schemas.last().0@, schema),
                };
                lemma_insert_keeps_key(prev, nd, name);
                assert(pass1_spec(schemas) == insert_sorted_v(prev, nd));
            },
            RefOr::Ref(_) => {
                assert(pass1_spec(schemas) == prev);
            },
        }
    } else {
        assert(schemas.last() == schemas[j]);
        match schemas.last().1 {
            RefOr::Item(schema) => {
                let nd = NamedDefV {
                    key: schemas.last().0@,
                    def: lower_schema_spec(schemas.last().0@, schema),
                };
                assert(nd.key == name);
                lemma_insert_keeps_key(prev, nd, name);
                assert(pass1_spec(schemas) == insert_sorted_v(prev, nd));
            },
            RefOr::Ref(_) => {},
        }
    }
}

proof fn lemma_pass1_names_keys(schemas: Seq<(String, RefOr<SchemaNode>)>)
    ensures
        forall|k: int|
            0 <= k < pass1_spec(schemas).len() ==> (#[trigger] pass1_spec(schemas)[k]).def.name()
                == pascal_of(pass1_spec(schemas)[k].key),
    decreases schemas.len(),
{
    if schemas.len() > 0 {
        lemma_pass1_names_keys(schemas.drop_last());
        match schemas.last().1 {
            RefOr::Item(schema) => {
                let nd = NamedDefV {
                    key: schemas.last().0@,
                    def: lower_schema_spec(schemas.last().0@, schema),
                };
                assert(nd.def.name() == pascal_of(nd.key));
                lemma_insert_names_keys(pass1_spec(schemas.drop_last()), nd);
            },
            RefOr::Ref(_) => {},
        }
    }
}

proof fn lemma_insert_names_keys(s: Seq<NamedDefV>, nd: NamedDefV)
    requires
        forall|k: int|
            0 <= k < s.len() ==> (#[trigger] s[k]).def.name() == pascal_of(s[k].key),
        nd.def.name() == pascal_of(nd.key),
    ensures
        forall|k: int|
            0 <= k < insert_sorted_v(s, nd).len() ==> (#[trigger] insert_sorted_v(s, nd)[k]).def.name()
                == pascal_of(insert_sorted_v(s, nd)[k].key),
    decreases s.len(),
{
    if s.len() == 0 {
    } else if nd.key == s[0].key {
    } else if crate::text::lex_lt(nd.key, s[0].key) {
    } else {
        assert(forall|k: int|
            0 <= k < s.drop_first().len() ==> (#[trigger] s.drop_first()[k]).def.name()
                == pascal_of(s.drop_first()[k].key));
        lemma_insert_names_keys(s.drop_first(), nd);
    }
}

// ---- pass 2 only names reference targets -----------------------------------

proof fn lemma_params_named(ps: Seq<RefOr<ParamNode>>, x: Seq<char>)
    requires
        named_in_params(params_spec(ps), x),
    ensures
        exists|n: Seq<char>| #[trigger] target_in_params(ps, n) && x == pascal_of(n),
    decreases ps.len(),
{
    let lowered = params_spec(ps);
    match ps.last() {
        RefOr::Item(p) => {
            assert(lowered.drop_last() =~= params_spec(ps.drop_last()));
            if named_in_params(lowered.drop_last(), x) {
                lemma_params_named(ps.drop_last(), x);
                let n = choose|n: Seq<char>|
                    #[trigger] target_in_params(ps.drop_last(), n) && x == pascal_of(n);
                assert(target_in_params(ps, n));
            } else {
                assert(lowered.last() == param_spec(p));
                match p.schema {
                    Option::Some(sr) => {
                        lemma_resolve_named(sr, x);
                        let n = choose|n: Seq<char>|
                            #[trigger] target_in_schema_ref(sr, n) && x == pascal_of(n);
                        assert(target_in_params(ps, n));
                    },
                    Option::None => {
                        assert(!named_in_type(RsTypeV::Str, x));
                    },
                }
            }
        },
        RefOr::Ref(_) => {
            assert(lowered =~= params_spec(ps.drop_last()));
            lemma_params_named(ps.drop_last(), x);
            let n = choose|n: Seq<char>|
                #[trigger] target_in_params(ps.drop_last(), n) && x == pascal_of(n);
            assert(target_in_params(ps, n));
        },
    }
}

proof fn lemma_responses_named(
    rs: Seq<(StatusEntry, RefOr<ResponseNode>)>,
    x: Seq<char>,
)
    requires
        named_in_responses(responses_spec(rs), x),
    ensures
        exists|n: Seq<char>| #[trigger] target_in_resps(rs, n) && x == pascal_of(n),
    decreases rs.len(),
{
    let lowered = responses_spec(rs);
    match rs.last() {
        (StatusEntry::Code(c), RefOr::Item(resp)) => {
            assert(lowered.drop_last() =~= responses_spec(rs.drop_last()));
            if named_in_responses(lowered.drop_last(), x) {
                lemma_responses_named(rs.drop_last(), x);
                let n = choose|n: Seq<char>|
                    #[trigger] target_in_resps(rs.drop_last(), n) && x == pascal_of(n);
                assert(target_in_resps(rs, n));
            } else {
                assert(lowered.last() == response_spec(c, resp));
                match json_media(resp.content@) {
                    Option::Some(media) => match media.schema {
                        Option::Some(sr) => {
                            lemma_resolve_named(sr, x);
                            let n = choose|n: Seq<char>|
                                #[trigger] target_in_schema_ref(sr, n) && x == pascal_of(n);
                            assert(target_in_media(json_media(resp.content@), n));
                            assert(target_in_resps(rs, n));
                        },
                        Option::None => {},
                    },
                    Option::None => {},
                }
            }
        },
        _ => {
            assert(lowered =~= responses_spec(rs.drop_last()));
            lemma_responses_named(rs.drop_last(), x);
            let n = choose|n: Seq<char>|
                #[trigger] target_in_resps(rs.drop_last(), n) && x == pascal_of(n);
            assert(target_in_resps(rs, n));
        },
    }
}

proof fn lemma_endpoint_named(path: Seq<char>, m: HttpMethod, op: OperationNode, x: Seq<char>)
    requires
        named_in_endpoint(endpoint_spec(path, m, op), x),
    ensures
        exists|n: Seq<char>| #[trigger] target_in_op(op, n) && x == pascal_of(n),
{
    let e = endpoint_spec(path, m, op);
    if named_in_params(e.parameters, x) {
        lemma_params_named(op.parameters@, x);
        let n = choose|n: Seq<char>|
            #[trigger] target_in_params(op.parameters@, n) && x == pascal_of(n);
        assert(target_in_op(op, n));
    } else if e.request_body is Some && named_in_type(e.request_body->0.ty, x) {
        match op.request_body {
            Option::Some(RefOr::Item(body)) => match json_media(body.content@) {
                Option::Some(media) => match media.schema {
                    Option::Some(sr) => {
                        lemma_resolve_named(sr, x);
                        let n = choose|n: Seq<char>|
                            #[trigger] target_in_schema_ref(sr, n) && x == pascal_of(n);
                        assert(target_in_media(json_media(body.content@), n));
                        assert(target_in_op(op, n));
                    },
                    Option::None => {},
                },
                Option::None => {},
            },
            _ => {},
        }
    } else {
        assert(named_in_responses(e.responses, x));
        lemma_responses_named(op.responses@, x);
        let n = choose|n: Seq<char>|
            #[trigger] target_in_resps(op.responses@, n) && x == pascal_of(n);
        assert(target_in_op(op, n));
    }
}

proof fn lemma_ops_named(
    path: String,
    ops: Seq<(HttpMethod, OperationNode)>,
    x: Seq<char>,
)
    requires
        named_in_endpoints(ops_spec(path, ops), x),
    ensures
        exists|n: Seq<char>| #[trigger] target_in_ops(ops, n) && x == pascal_of(n),
    decreases ops.len(),
{
    let lowered = ops_spec(path, ops);
    assert(lowered.drop_last() =~= ops_spec(path, ops.drop_last()));
    if named_in_endpoints(lowered.drop_last(), x) {
        lemma_ops_named(path, ops.drop_last(), x);
        let n = choose|n: Seq<char>|
            #[trigger] target_in_ops(ops.drop_last(), n) && x == pascal_of(n);
        assert(target_in_ops(ops, n));
    } else {
        assert(lowered.last() == endpoint_spec(path@, ops.last().0, ops.last().1));
        lemma_endpoint_named(path@, ops.last().0, ops.last().1, x);
        let n = choose|n: Seq<char>|
            #[trigger] target_in_op(ops.last().1, n) && x == pascal_of(n);
        assert(target_in_ops(ops, n));
    }
}

proof fn lemma_paths_named(paths: Seq<(String, RefOr<PathItemNode>)>, x: Seq<char>)
    requires
        named_in_endpoints(endpoints_spec(paths), x),
    ensures
        exists|n: Seq<char>| #[trigger] target_in_paths(paths, n) && x == pascal_of(n),
    decreases paths.len(),
{
    let lowered = endpoints_spec(paths);
    match paths.last().1 {
        RefOr::Item(item) => {
            lemma_named_split(endpoints_spec(paths.drop_last()), ops_spec(paths.last().0, item.ops@), x);
            if named_in_endpoints(endpoints_spec(paths.drop_last()), x) {
                lemma_paths_named(paths.drop_last(), x);
                let n = choose|n: Seq<char>|
                    #[trigger] target_in_paths(paths.drop_last(), n) && x == pascal_of(n);
                assert(target_in_paths(paths, n));
            } else {
                lemma_ops_named(paths.last().0, item.ops@, x);
                let n = choose|n: Seq<char>|
                    #[trigger] target_in_ops(item.ops@, n) && x == pascal_of(n);
                assert(target_in_paths(paths, n));
            }
        },
        RefOr::Ref(_) => {
            assert(lowered =~= endpoints_spec(paths.drop_last()));
            lemma_paths_named(paths.drop_last(), x);
            let n = choose|n: Seq<char>|
                #[trigger] target_in_paths(paths.drop_last(), n) && x == pascal_of(n);
            assert(target_in_paths(paths, n));
        },
    }
}

/// Occurrence in a concatenation splits over the parts.
proof fn lemma_named_split(a: Seq<EndpointV>, b: Seq<EndpointV>, x: Seq<char>)
    requires
        named_in_endpoints(a + b, x),
    ensures
        named_in_endpoints(a, x) || named_in_endpoints(b, x),
    decreases b.len(),
{
    if b.len() == 0 {
        assert(a + b =~= a);
    } else {
        assert((a + b).drop_last() =~= a + b.drop_last());
        assert((a + b).last() == b.last());
        if named_in_endpoints(a + b.drop_last(), x) {
            lemma_named_split(a, b.drop_last(), x);
        }
    }
}

/// Occurrence of a name in a list of type definitions happens at an index.
proof fn lemma_named_in_typedefs_index(ts: Seq<TypeDefV>, x: Seq<char>)
    requires
        named_in_typedefs(ts, x),
    ensures
        exists|k: int| 0 <= k < ts.len() && named_in_typedef(#[trigger] ts[k], x),
    decreases ts.len(),
{
    if named_in_typedefs(ts.drop_last(), x) {
        lemma_named_in_typedefs_index(ts.drop_last(), x);
        let k = choose|k: int|
            0 <= k < ts.drop_last().len() && named_in_typedef(#[trigger] ts.drop_last()[k], x);
        assert(named_in_typedef(ts[k], x));
    } else {
        assert(named_in_typedef(ts[ts.len() - 1], x));
    }
}

// ---- the law ----------------------------------------------------------------

/// Referential closure: on a closed document, every named type reference
/// appearing anywhere in the lowered IR — in its type definitions or in its
/// endpoints — names a type definition of the same IR.
pub proof fn lemma_referential_closure(doc: Document, x: Seq<char>)
    requires
        document_closed(doc),
        named_in_typedefs(typedefs_of(pass1_spec(doc.schemas@)), x) || named_in_endpoints(
            endpoints_spec(doc.paths@),
            x,
        ),
    ensures
        type_defined(typedefs_of(pass1_spec(doc.schemas@)), x),
{
    let defs = pass1_spec(doc.schemas@);
    let types = typedefs_of(defs);
    assert(types.len() == defs.len());

    // Step 1: the name is the Pascal-casing of some reference target.
    let n: Seq<char>;
    if named_in_typedefs(types, x) {
        lemma_named_in_typedefs_index(types, x);
        let k = choose|k: int| 0 <= k < types.len() && named_in_typedef(#[trigger] types[k], x);
        assert(types[k] == defs[k].def);
        lemma_pass1_named_from(doc.schemas@);
        assert(def_named_from(doc.schemas@, defs[k].def));
        assert(named_in_typedef(defs[k].def, x));
        n = choose|n: Seq<char>|
            #[trigger] target_in_schemas(doc.schemas@, n) && x == pascal_of(n);
        assert(target_in_document(doc, n));
    } else {
        lemma_paths_named(doc.paths@, x);
        n = choose|n: Seq<char>| #[trigger] target_in_paths(doc.paths@, n) && x == pascal_of(n);
        assert(target_in_document(doc, n));
    }

    // Step 2: a closed document defines that target inline.
    assert(defined_schema_name(doc.schemas@, n));

    // Step 3: pass 1 keeps an entry under that source name, whose definition
    // carries its Pascal-casing.
    lemma_pass1_defines(doc.schemas@, n);
    let k = choose|k: int| 0 <= k < defs.len() && (#[trigger] defs[k]).key == n;
    lemma_pass1_names_keys(doc.schemas@);
    assert(defs[k].def.name() == pascal_of(n));
    assert(types[k] == defs[k].def);
    assert(types[k].name() == x);
}

} // verus!
