use vstd::prelude::*;
use vstd::string::StringExecFns;
use crate::ir::{method_upper, rescript_of, schema_of, ApiSpec, ApiSpecV, EndpointV, FieldV,
    ParameterLocation, ParameterV, RequestBodyV, ResponseV, RsTypeV, TypeDef, TypeDefV,
    VariantCaseV};
use crate::sanitize::{lower_camel_of, to_lower_camel};
use crate::text::{dec_of, u64_dec};

verus! {

// ---------------------------------------------------------------------------
// Shared pieces
// ---------------------------------------------------------------------------

/// A documentation comment on its own line, or nothing.
pub open spec fn doc_text(d: Option<Seq<char>>) -> Seq<char> {
    match d {
        Option::Some(s) => "/** "@ + s + " */\n"@,
        Option::None => Seq::empty(),
    }
}

/// An indented documentation comment, or nothing.
pub open spec fn inline_doc_text(d: Option<Seq<char>>) -> Seq<char> {
    match d {
        Option::Some(s) => "  /** "@ + s + " */\n"@,
        Option::None => Seq::empty(),
    }
}

/// The shared header of every artifact: the API title and version.
pub open spec fn header_text(api: ApiSpecV) -> Seq<char> {
    "/** "@ + api.title + " "@ + api.version + " */\n\n"@
}

/// Appends a documentation comment to the output.
fn append_doc(out: &mut String, d: &Option<String>)
    ensures
        final(out)@ == old(out)@ + doc_text(d.deep_view()),
{
    match d {
        Option::Some(s) => {
            out.append("/** ");
            out.append(s.as_str());
            out.append(" */\n");
        },
        Option::None => {},
    }
}

/// Appends an indented documentation comment to the output.
fn append_inline_doc(out: &mut String, d: &Option<String>)
    ensures
        final(out)@ == old(out)@ + inline_doc_text(d.deep_view()),
{
    match d {
        Option::Some(s) => {
            out.append("  /** ");
            out.append(s.as_str());
            out.append(" */\n");
        },
        Option::None => {},
    }
}

fn append_header(out: &mut String, api: &ApiSpec)
    ensures
        final(out)@ == old(out)@ + header_text(api@),
{
    out.append("/** ");
    out.append(api.title.as_str());
    out.append(" ");
    out.append(api.version.as_str());
    out.append(" */\n\n");
}

// ---------------------------------------------------------------------------
// The type declaration artifact
// ---------------------------------------------------------------------------

/// One record field line.
pub open spec fn record_field_text(f: FieldV) -> Seq<char> {
    inline_doc_text(f.doc) + "  "@ + f.name + ": "@ + rescript_of(f.ty) + ",\n"@
}

/// All record field lines, in field order.
pub open spec fn record_fields_text(fs: Seq<FieldV>) -> Seq<char>
    decreases fs.len(),
{
    if fs.len() == 0 {
        Seq::empty()
    } else {
        record_fields_text(fs.drop_last()) + record_field_text(fs.last())
    }
}

/// One variant case line: a bare tag, or a tag carrying one payload type.
pub open spec fn variant_case_text(c: VariantCaseV) -> Seq<char> {
    match c.payload {
        Option::None => "\n  | "@ + c.name,
        Option::Some(t) => "\n  | "@ + c.name + "("@ + rescript_of(t) + ")"@,
    }
}

/// All variant case lines, in case order.
pub open spec fn variant_cases_text(cs: Seq<VariantCaseV>) -> Seq<char>
    decreases cs.len(),
{
    if cs.len() == 0 {
        Seq::empty()
    } else {
        variant_cases_text(cs.drop_last()) + variant_case_text(cs.last())
    }
}

/// One type declaration.
pub open spec fn typedef_text(td: TypeDefV) -> Seq<char> {
    match td {
        TypeDefV::Record { name, doc, fields } => doc_text(doc) + "type "@ + lower_camel_of(name)
            + " = {\n"@ + record_fields_text(fields) + "}\n"@,
        TypeDefV::Variant { name, doc, cases } => doc_text(doc) + "type "@ + lower_camel_of(name)
            + " ="@ + variant_cases_text(cases) + "\n"@,
        TypeDefV::Alias { name, doc, target } => doc_text(doc) + "type "@ + lower_camel_of(name)
            + " = "@ + rescript_of(target) + "\n"@,
    }
}

/// All type declarations, in IR order, one blank line after each.
pub open spec fn typedefs_text(ts: Seq<TypeDefV>) -> Seq<char>
    decreases ts.len(),
{
    if ts.len() == 0 {
        Seq::empty()
    } else {
        typedefs_text(ts.drop_last()) + typedef_text(ts.last()) + "\n"@
    }
}

/// The whole type declaration artifact.
pub open spec fn types_artifact(api: ApiSpecV) -> Seq<char> {
    header_text(api) + typedefs_text(api.types)
}

proof fn lemma_record_fields_step(fs: Seq<FieldV>, i: int)
    requires
        0 <= i < fs.len(),
    ensures
        record_fields_text(fs.take(i + 1)) == record_fields_text(fs.take(i)) + record_field_text(
            fs[i],
        ),
{
    assert(fs.take(i + 1).drop_last() =~= fs.take(i));
    assert(fs.take(i + 1).last() == fs[i]);
}

proof fn lemma_variant_cases_step(cs: Seq<VariantCaseV>, i: int)
    requires
        0 <= i < cs.len(),
    ensures
        variant_cases_text(cs.take(i + 1)) == variant_cases_text(cs.take(i)) + variant_case_text(
            cs[i],
        ),
{
    assert(cs.take(i + 1).drop_last() =~= cs.take(i));
    assert(cs.take(i + 1).last() == cs[i]);
}

proof fn lemma_typedefs_step(ts: Seq<TypeDefV>, i: int)
    requires
        0 <= i < ts.len(),
    ensures
        typedefs_text(ts.take(i + 1)) == typedefs_text(ts.take(i)) + typedef_text(ts[i]) + "\n"@,
{
    assert(ts.take(i + 1).drop_last() =~= ts.take(i));
    assert(ts.take(i + 1).last() == ts[i]);
}

/// Appends one type declaration to the output.
#[verifier::loop_isolation(false)]
#[verifier::rlimit(100)]
fn append_typedef(out: &mut String, td: &TypeDef)
    ensures
        final(out)@ == old(out)@ + typedef_text(td@),
{
    match td {
        TypeDef::Record { name, doc, fields } => {
            append_doc(out, doc);
            out.append("type ");
            let lc = to_lower_camel(name.as_str());
            out.append(lc.as_str());
            out.append(" = {\n");
            let ghost base = out@;
            let mut i: usize = 0;
            proof {
                assert(base + record_fields_text(fields.deep_view().take(0)) =~= base);
            }
            while i < fields.len()
                invariant
                    0 <= i <= fields@.len(),
                    out@ == base + record_fields_text(fields.deep_view().take(i as int)),
                decreases fields@.len() - i,
            {
                let f = &fields[i];
                append_inline_doc(out, &f.doc);
                out.append("  ");
                out.append(f.name.as_str());
                out.append(": ");
                let t = f.ty.to_rescript();
                out.append(t.as_str());
                out.append(",\n");
                proof {
                    lemma_record_fields_step(fields.deep_view(), i as int);
                    assert(fields.deep_view()[i as int] == fields@[i as int]@);
                    assert(out@ =~= base + record_fields_text(fields.deep_view().take(i + 1)));
                }
                i = i + 1;
            }
            proof {
                assert(fields.deep_view().take(fields@.len() as int) =~= fields.deep_view());
            }
            out.append("}\n");
            proof {
                assert(out@ =~= old(out)@ + typedef_text(td@));
            }
        },
        TypeDef::Variant { name, doc, cases } => {
            append_doc(out, doc);
            out.append("type ");
            let lc = to_lower_camel(name.as_str());
            out.append(lc.as_str());
            out.append(" =");
            let ghost base = out@;
            let mut i: usize = 0;
            proof {
                assert(base + variant_cases_text(cases.deep_view().take(0)) =~= base);
            }
            while i < cases.len()
                invariant
                    0 <= i <= cases@.len(),
                    out@ == base + variant_cases_text(cases.deep_view().take(i as int)),
                decreases cases@.len() - i,
            {
                let c = &cases[i];
                out.append("\n  | ");
                out.append(c.name.as_str());
                match &c.payload {
                    Option::Some(t) => {
                        out.append("(");
                        let rt = t.to_rescript();
                        out.append(rt.as_str());
                        out.append(")");
                    },
                    Option::None => {},
                }
                proof {
                    lemma_variant_cases_step(cases.deep_view(), i as int);
                    assert(cases.deep_view()[i as int] == cases@[i as int]@);
                    assert(out@ =~= base + variant_cases_text(cases.deep_view().take(i + 1)));
                }
                i = i + 1;
            }
            proof {
                assert(cases.deep_view().take(cases@.len() as int) =~= cases.deep_view());
            }
            out.append("\n");
            proof {
                assert(out@ =~= old(out)@ + typedef_text(td@));
            }
        },
        TypeDef::Alias { name, doc, target } => {
            append_doc(out, doc);
            out.append("type ");
            let lc = to_lower_camel(name.as_str());
            out.append(lc.as_str());
            out.append(" = ");
            let t = target.to_rescript();
            out.append(t.as_str());
            out.append("\n");
            proof {
                assert(out@ =~= old(out)@ + typedef_text(td@));
            }
        },
    }
}

/// Renders the type declaration artifact: one declaration per type
/// definition, in the IR's stored order, each preceded by its documentation.
#[verifier::loop_isolation(false)]
pub fn render_types(api: &ApiSpec) -> (r: String)
    ensures
        r@ == types_artifact(api@),
{
    let mut out = String::new();
    append_header(&mut out, api);
    let ghost base = out@;
    let mut i: usize = 0;
    proof {
        assert(base + typedefs_text(api.types.deep_view().take(0)) =~= base);
    }
    while i < api.types.len()
        invariant
            0 <= i <= api.types@.len(),
            out@ == base + typedefs_text(api.types.deep_view().take(i as int)),
        decreases api.types@.len() - i,
    {
        append_typedef(&mut out, &api.types[i]);
        out.append("\n");
        proof {
            lemma_typedefs_step(api.types.deep_view(), i as int);
            assert(api.types.deep_view()[i as int] == api.types@[i as int]@);
            assert(out@ =~= base + typedefs_text(api.types.deep_view().take(i + 1)));
        }
        i = i + 1;
    }
    proof {
        assert(api.types.deep_view().take(api.types@.len() as int) =~= api.types.deep_view());
        assert(out@ =~= types_artifact(api@));
    }
    out
}

// ---------------------------------------------------------------------------
// The validator artifact
// ---------------------------------------------------------------------------

/// One validator field line: the sanitized field name bound to the field
/// accessor keyed by the original wire name.
pub open spec fn schema_field_text(f: FieldV) -> Seq<char> {
    "  "@ + f.name + ": s.field(\""@ + f.original_name + "\", "@ + schema_of(f.ty) + "),\n"@
}

/// All validator field lines, in field order.
pub open spec fn schema_fields_text(fs: Seq<FieldV>) -> Seq<char>
    decreases fs.len(),
{
    if fs.len() == 0 {
        Seq::empty()
    } else {
        schema_fields_text(fs.drop_last()) + schema_field_text(fs.last())
    }
}

/// One member of a variant validator union: a literal match for a bare tag,
/// or the payload type's validator.
pub open spec fn schema_case_text(c: VariantCaseV) -> Seq<char> {
    match c.payload {
        Option::None => "S.literal(\""@ + c.name + "\")"@,
        Option::Some(t) => schema_of(t),
    }
}

/// Variant validator members joined by a comma separator.
pub open spec fn schema_cases_text(cs: Seq<VariantCaseV>) -> Seq<char>
    decreases cs.len(),
{
    if cs.len() == 0 {
        Seq::empty()
    } else if cs.len() == 1 {
        schema_case_text(cs[0])
    } else {
        schema_cases_text(cs.drop_last()) + ", "@ + schema_case_text(cs.last())
    }
}

/// One validator declaration, named by the type's identifier plus the fixed
/// suffix, so every artifact can locate it by name alone.
pub open spec fn schema_typedef_text(td: TypeDefV) -> Seq<char> {
    match td {
        TypeDefV::Record { name, doc, fields } => doc_text(doc) + "let "@ + lower_camel_of(name)
            + "Schema = S.object(s => {\n"@ + schema_fields_text(fields) + "})\n"@,
        TypeDefV::Variant { name, doc, cases } => doc_text(doc) + "let "@ + lower_camel_of(name)
            + "Schema = S.union(["@ + schema_cases_text(cases) + "])\n"@,
        TypeDefV::Alias { name, doc, target } => doc_text(doc) + "let "@ + lower_camel_of(name)
            + "Schema = "@ + schema_of(target) + "\n"@,
    }
}

/// All validator declarations, in IR order, one blank line after each.
pub open spec fn schema_typedefs_text(ts: Seq<TypeDefV>) -> Seq<char>
    decreases ts.len(),
{
    if ts.len() == 0 {
        Seq::empty()
    } else {
        schema_typedefs_text(ts.drop_last()) + schema_typedef_text(ts.last()) + "\n"@
    }
}

/// The whole validator artifact.
pub open spec fn schema_artifact(api: ApiSpecV) -> Seq<char> {
    header_text(api) + schema_typedefs_text(api.types)
}

proof fn lemma_schema_fields_step(fs: Seq<FieldV>, i: int)
    requires
        0 <= i < fs.len(),
    ensures
        schema_fields_text(fs.take(i + 1)) == schema_fields_text(fs.take(i)) + schema_field_text(
            fs[i],
        ),
{
    assert(fs.take(i + 1).drop_last() =~= fs.take(i));
    assert(fs.take(i + 1).last() == fs[i]);
}

proof fn lemma_schema_cases_step(cs: Seq<VariantCaseV>, i: int)
    requires
        0 <= i < cs.len(),
    ensures
        i == 0 ==> schema_cases_text(cs.take(1)) == schema_case_text(cs[0]),
        i > 0 ==> schema_cases_text(cs.take(i + 1)) == schema_cases_text(cs.take(i)) + ", "@
            + schema_case_text(cs[i]),
{
    assert(cs.take(i + 1).drop_last() =~= cs.take(i));
    assert(cs.take(i + 1).last() == cs[i]);
    if i == 0 {
        assert(cs.take(1)[0] == cs[0]);
    }
}

proof fn lemma_schema_typedefs_step(ts: Seq<TypeDefV>, i: int)
    requires
        0 <= i < ts.len(),
    ensures
        schema_typedefs_text(ts.take(i + 1)) == schema_typedefs_text(ts.take(i))
            + schema_typedef_text(ts[i]) + "\n"@,
{
    assert(ts.take(i + 1).drop_last() =~= ts.take(i));
    assert(ts.take(i + 1).last() == ts[i]);
}

/// Appends one validator declaration to the output.
#[verifier::loop_isolation(false)]
#[verifier::rlimit(60)]
fn append_schema_typedef(out: &mut String, td: &TypeDef)
    ensures
        final(out)@ == old(out)@ + schema_typedef_text(td@),
{
    match td {
        TypeDef::Record { name, doc, fields } => {
            append_doc(out, doc);
            out.append("let ");
            let lc = to_lower_camel(name.as_str());
            out.append(lc.as_str());
            out.append("Schema = S.object(s => {\n");
            let ghost base = out@;
            let mut i: usize = 0;
            proof {
                assert(base + schema_fields_text(fields.deep_view().take(0)) =~= base);
            }
            while i < fields.len()
                invariant
                    0 <= i <= fields@.len(),
                    out@ == base + schema_fields_text(fields.deep_view().take(i as int)),
                decreases fields@.len() - i,
            {
                let f = &fields[i];
                out.append("  ");
                out.append(f.name.as_str());
                out.append(": s.field(\"");
                out.append(f.original_name.as_str());
                out.append("\", ");
                let t = f.ty.to_schema();
                out.append(t.as_str());
                out.append("),\n");
                proof {
                    lemma_schema_fields_step(fields.deep_view(), i as int);
                    assert(fields.deep_view()[i as int] == fields@[i as int]@);
                    assert(out@ =~= base + schema_fields_text(fields.deep_view().take(i + 1)));
                }
                i = i + 1;
            }
            proof {
                assert(fields.deep_view().take(fields@.len() as int) =~= fields.deep_view());
            }
            out.append("})\n");
            proof {
                assert(out@ =~= old(out)@ + schema_typedef_text(td@));
            }
        },
        TypeDef::Variant { name, doc, cases } => {
            append_doc(out, doc);
            out.append("let ");
            let lc = to_lower_camel(name.as_str());
            out.append(lc.as_str());
            out.append("Schema = S.union([");
            let ghost base = out@;
            let mut i: usize = 0;
            proof {
                assert(base + schema_cases_text(cases.deep_view().take(0)) =~= base);
            }
            while i < cases.len()
                invariant
                    0 <= i <= cases@.len(),
                    out@ == base + schema_cases_text(cases.deep_view().take(i as int)),
                decreases cases@.len() - i,
            {
                if i > 0 {
                    out.append(", ");
                }
                let c = &cases[i];
                match &c.payload {
                    Option::None => {
                        out.append("S.literal(\"");
                        out.append(c.name.as_str());
                        out.append("\")");
                    },
                    Option::Some(t) => {
                        let s = t.to_schema();
                        out.append(s.as_str());
                    },
                }
                proof {
                    lemma_schema_cases_step(cases.deep_view(), i as int);
                    assert(cases.deep_view()[i as int] == cases@[i as int]@);
                    assert(out@ =~= base + schema_cases_text(cases.deep_view().take(i + 1)));
                }
                i = i + 1;
            }
            proof {
                assert(cases.deep_view().take(cases@.len() as int) =~= cases.deep_view());
            }
            out.append("])\n");
            proof {
                assert(out@ =~= old(out)@ + schema_typedef_text(td@));
            }
        },
        TypeDef::Alias { name, doc, target } => {
            append_doc(out, doc);
            out.append("let ");
            let lc = to_lower_camel(name.as_str());
            out.append(lc.as_str());
            out.append("Schema = ");
            let t = target.to_schema();
            out.append(t.as_str());
            out.append("\n");
            proof {
                assert(out@ =~= old(out)@ + schema_typedef_text(td@));
            }
        },
    }
}

/// Renders the validator artifact: one validator per type definition,
/// mirroring the type structure and locating referenced validators by the
/// shared naming convention.
#[verifier::loop_isolation(false)]
pub fn render_schema(api: &ApiSpec) -> (r: String)
    ensures
        r@ == schema_artifact(api@),
{
    let mut out = String::new();
    append_header(&mut out, api);
    let ghost base = out@;
    let mut i: usize = 0;
    proof {
        assert(base + schema_typedefs_text(api.types.deep_view().take(0)) =~= base);
    }
    while i < api.types.len()
        invariant
            0 <= i <= api.types@.len(),
            out@ == base + schema_typedefs_text(api.types.deep_view().take(i as int)),
        decreases api.types@.len() - i,
    {
        append_schema_typedef(&mut out, &api.types[i]);
        out.append("\n");
        proof {
            lemma_schema_typedefs_step(api.types.deep_view(), i as int);
            assert(api.types.deep_view()[i as int] == api.types@[i as int]@);
            assert(out@ =~= base + schema_typedefs_text(api.types.deep_view().take(i + 1)));
        }
        i = i + 1;
    }
    proof {
        assert(api.types.deep_view().take(api.types@.len() as int) =~= api.types.deep_view());
        assert(out@ =~= schema_artifact(api@));
    }
    out
}

// ---------------------------------------------------------------------------
// The client artifact
// ---------------------------------------------------------------------------

/// One labelled argument of a callable's signature; an optional parameter
/// gets a defaultable argument.
pub open spec fn param_sig_text(p: ParameterV) -> Seq<char> {
    ", ~"@ + p.name + ": "@ + rescript_of(p.ty) + if p.required {
        Seq::<char>::empty()
    } else {
        "=?"@
    }
}

/// The labelled arguments for all parameters, in declaration order.
pub open spec fn params_sig_text(ps: Seq<ParameterV>) -> Seq<char>
    decreases ps.len(),
{
    if ps.len() == 0 {
        Seq::empty()
    } else {
        params_sig_text(ps.drop_last()) + param_sig_text(ps.last())
    }
}

/// The labelled body argument, where a request body is declared.
pub open spec fn body_sig_text(b: Option<RequestBodyV>) -> Seq<char> {
    match b {
        Option::Some(rb) => ", ~body: "@ + rescript_of(rb.ty) + if rb.required {
            Seq::<char>::empty()
        } else {
            "=?"@
        },
        Option::None => Seq::empty(),
    }
}

/// The expression that encodes one parameter value for its carrier: scalars
/// get the fixed conversion of their shape, everything else is carried as
/// json text.
pub open spec fn encode_expr_text(p: ParameterV) -> Seq<char> {
    match p.ty {
        RsTypeV::Str => p.name,
        RsTypeV::Int => "Int.toString("@ + p.name + ")"@,
        RsTypeV::Float => "Float.toString("@ + p.name + ")"@,
        RsTypeV::Bool => "Transport.boolParam("@ + p.name + ")"@,
        _ => "Transport.jsonParam("@ + p.name + ")"@,
    }
}

/// One name-value pair handed to the transport carrier.
pub open spec fn param_pair_text(p: ParameterV) -> Seq<char> {
    "(\""@ + p.name + "\", "@ + encode_expr_text(p) + "), "@
}

/// The pairs of every parameter declared for one location, in order.
pub open spec fn pairs_text(ps: Seq<ParameterV>, loc: ParameterLocation) -> Seq<char>
    decreases ps.len(),
{
    if ps.len() == 0 {
        Seq::empty()
    } else {
        pairs_text(ps.drop_last(), loc) + if ps.last().location == loc {
            param_pair_text(ps.last())
        } else {
            Seq::<char>::empty()
        }
    }
}

/// One arm of the status match: an exact declared status decodes its payload
/// type, or yields a bare success when no body is declared.
pub open spec fn response_arm_text(r: ResponseV) -> Seq<char> {
    "    | "@ + dec_of(r.status as nat) + " => Ok("@ + match r.ty {
        Option::Some(t) => "S.parseJsonStringOrThrow(response.body, "@ + schema_of(t) + ")"@,
        Option::None => Seq::<char>::empty(),
    } + ")\n"@
}

/// The arms for every declared response, in declaration order.
pub open spec fn response_arms_text(rs: Seq<ResponseV>) -> Seq<char>
    decreases rs.len(),
{
    if rs.len() == 0 {
        Seq::empty()
    } else {
        response_arms_text(rs.drop_last()) + response_arm_text(rs.last())
    }
}

/// The body and content-type arguments of the transport call.
pub open spec fn body_arg_text(b: Option<RequestBodyV>) -> Seq<char> {
    match b {
        Option::Some(rb) => "    ~body=Some(S.reverseConvertToJsonString(body, "@ + schema_of(
            rb.ty,
        ) + ")),\n    ~contentType=Some(\""@ + rb.content_type + "\"),\n"@,
        Option::None => "    ~body=None,\n    ~contentType=None,\n"@,
    }
}

/// One callable: parameters are encoded into their carriers, the body is
/// serialized to its declared content type, the method and path go to the
/// transport primitive, and the response status is matched against every
/// declared response with a final fallback for undeclared statuses.
pub open spec fn client_sig_text(e: EndpointV) -> Seq<char> {
    doc_text(e.doc) + "let "@ + e.operation_id + " = (~baseUrl: string"@ + params_sig_text(
        e.parameters,
    ) + body_sig_text(e.request_body) + ") => {\n"@
}

/// The transport call of one callable: the method, the path template, and
/// the encoded carriers of every parameter location.
pub open spec fn client_call_text(e: EndpointV) -> Seq<char> {
    "  Transport.request(\n    ~method=\""@ + method_upper(e.method)
        + "\",\n    ~baseUrl,\n    ~path=\""@ + e.path + "\",\n    ~pathParams=["@
        + pairs_text(e.parameters, ParameterLocation::Path) + "],\n    ~query=["@ + pairs_text(
        e.parameters,
        ParameterLocation::Query,
    ) + "],\n    ~headers=["@ + pairs_text(e.parameters, ParameterLocation::Header)
        + "],\n    ~cookies=["@ + pairs_text(e.parameters, ParameterLocation::Cookie) + "],\n"@
}

/// The response interpretation of one callable: the serialized body handed
/// to the transport, and the status match over every declared response with
/// a final fallback.
pub open spec fn client_resp_text(e: EndpointV) -> Seq<char> {
    body_arg_text(e.request_body)
        + "  )->Promise.thenResolve(response =>\n    switch response.status {\n"@
        + response_arms_text(e.responses) + "    | other => Error(other)\n    }\n  )\n}\n"@
}

pub open spec fn client_endpoint_text(e: EndpointV) -> Seq<char> {
    client_sig_text(e) + client_call_text(e) + client_resp_text(e)
}

/// All callables, in endpoint order, one blank line after each.
pub open spec fn client_endpoints_text(es: Seq<EndpointV>) -> Seq<char>
    decreases es.len(),
{
    if es.len() == 0 {
        Seq::empty()
    } else {
        client_endpoints_text(es.drop_last()) + client_endpoint_text(es.last()) + "\n"@
    }
}

/// The whole client artifact.
pub open spec fn client_artifact(api: ApiSpecV) -> Seq<char> {
    header_text(api) + client_endpoints_text(api.endpoints)
}

proof fn lemma_params_sig_step(ps: Seq<ParameterV>, i: int)
    requires
        0 <= i < ps.len(),
    ensures
        params_sig_text(ps.take(i + 1)) == params_sig_text(ps.take(i)) + param_sig_text(ps[i]),
{
    assert(ps.take(i + 1).drop_last() =~= ps.take(i));
    assert(ps.take(i + 1).last() == ps[i]);
}

proof fn lemma_pairs_step(ps: Seq<ParameterV>, loc: ParameterLocation, i: int)
    requires
        0 <= i < ps.len(),
    ensures
        pairs_text(ps.take(i + 1), loc) == pairs_text(ps.take(i), loc) + if ps[i].location == loc {
            param_pair_text(ps[i])
        } else {
            Seq::<char>::empty()
        },
{
    assert(ps.take(i + 1).drop_last() =~= ps.take(i));
    assert(ps.take(i + 1).last() == ps[i]);
}

proof fn lemma_response_arms_step(rs: Seq<ResponseV>, i: int)
    requires
        0 <= i < rs.len(),
    ensures
        response_arms_text(rs.take(i + 1)) == response_arms_text(rs.take(i)) + response_arm_text(
            rs[i],
        ),
{
    assert(rs.take(i + 1).drop_last() =~= rs.take(i));
    assert(rs.take(i + 1).last() == rs[i]);
}

proof fn lemma_client_endpoints_step(es: Seq<EndpointV>, i: int)
    requires
        0 <= i < es.len(),
    ensures
        client_endpoints_text(es.take(i + 1)) == client_endpoints_text(es.take(i))
            + client_endpoint_text(es[i]) + "\n"@,
{
    assert(es.take(i + 1).drop_last() =~= es.take(i));
    assert(es.take(i + 1).last() == es[i]);
}

/// Appends the labelled signature arguments of every parameter.
#[verifier::loop_isolation(false)]
fn append_params_sig(out: &mut String, params: &Vec<crate::ir::Parameter>)
    ensures
        final(out)@ == old(out)@ + params_sig_text(params.deep_view()),
{
    let ghost base = out@;
    let mut i: usize = 0;
    proof {
        assert(base + params_sig_text(params.deep_view().take(0)) =~= base);
    }
    while i < params.len()
        invariant
            0 <= i <= params@.len(),
            out@ == base + params_sig_text(params.deep_view().take(i as int)),
        decreases params@.len() - i,
    {
        let p = &params[i];
        out.append(", ~");
        out.append(p.name.as_str());
        out.append(": ");
        let t = p.ty.to_rescript();
        out.append(t.as_str());
        if !p.required {
            out.append("=?");
        }
        proof {
            lemma_params_sig_step(params.deep_view(), i as int);
            assert(params.deep_view()[i as int] == params@[i as int]@);
            assert(out@ =~= base + params_sig_text(params.deep_view().take(i + 1)));
        }
        i = i + 1;
    }
    proof {
        assert(params.deep_view().take(params@.len() as int) =~= params.deep_view());
    }
}

/// Appends the encoding expression of one parameter value.
fn append_encode_expr(out: &mut String, p: &crate::ir::Parameter)
    ensures
        final(out)@ == old(out)@ + encode_expr_text(p@),
{
    match &p.ty {
        crate::ir::RsType::Str => {
            out.append(p.name.as_str());
        },
        crate::ir::RsType::Int => {
            out.append("Int.toString(");
            out.append(p.name.as_str());
            out.append(")");
        },
        crate::ir::RsType::Float => {
            out.append("Float.toString(");
            out.append(p.name.as_str());
            out.append(")");
        },
        crate::ir::RsType::Bool => {
            out.append("Transport.boolParam(");
            out.append(p.name.as_str());
            out.append(")");
        },
        _ => {
            out.append("Transport.jsonParam(");
            out.append(p.name.as_str());
            out.append(")");
        },
    }
}

/// Appends one encoded name-value pair.
fn append_pair(out: &mut String, p: &crate::ir::Parameter)
    ensures
        final(out)@ == old(out)@ + param_pair_text(p@),
{
    out.append("(\"");
    out.append(p.name.as_str());
    out.append("\", ");
    append_encode_expr(out, p);
    out.append("), ");
    proof {
        assert(final(out)@ =~= old(out)@ + param_pair_text(p@));
    }
}

/// Appends the encoded name-value pairs of the parameters declared for one
/// location.
#[verifier::loop_isolation(false)]
fn append_pairs(out: &mut String, params: &Vec<crate::ir::Parameter>, loc: ParameterLocation)
    ensures
        final(out)@ == old(out)@ + pairs_text(params.deep_view(), loc),
{
    let ghost base = out@;
    let mut i: usize = 0;
    proof {
        assert(base + pairs_text(params.deep_view().take(0), loc) =~= base);
    }
    while i < params.len()
        invariant
            0 <= i <= params@.len(),
            out@ == base + pairs_text(params.deep_view().take(i as int), loc),
        decreases params@.len() - i,
    {
        let p = &params[i];
        if p.location == loc {
            append_pair(out, p);
        }
        proof {
            lemma_pairs_step(params.deep_view(), loc, i as int);
            assert(params.deep_view()[i as int] == params@[i as int]@);
            assert(out@ =~= base + pairs_text(params.deep_view().take(i + 1), loc));
        }
        i = i + 1;
    }
    proof {
        assert(params.deep_view().take(params@.len() as int) =~= params.deep_view());
    }
}

/// Appends the status match arms of every declared response.
#[verifier::loop_isolation(false)]
fn append_response_arms(out: &mut String, responses: &Vec<crate::ir::Response>)
    ensures
        final(out)@ == old(out)@ + response_arms_text(responses.deep_view()),
{
    let ghost base = out@;
    let mut i: usize = 0;
    proof {
        assert(base + response_arms_text(responses.deep_view().take(0)) =~= base);
    }
    while i < responses.len()
        invariant
            0 <= i <= responses@.len(),
            out@ == base + response_arms_text(responses.deep_view().take(i as int)),
        decreases responses@.len() - i,
    {
        let r = &responses[i];
        out.append("    | ");
        let code = u64_dec(r.status as u64);
        out.append(code.as_str());
        out.append(" => Ok(");
        match &r.ty {
            Option::Some(t) => {
                out.append("S.parseJsonStringOrThrow(response.body, ");
                let s = t.to_schema();
                out.append(s.as_str());
                out.append(")");
            },
            Option::None => {},
        }
        out.append(")\n");
        proof {
            lemma_response_arms_step(responses.deep_view(), i as int);
            assert(responses.deep_view()[i as int] == responses@[i as int]@);
            assert(out@ =~= base + response_arms_text(responses.deep_view().take(i + 1)));
        }
        i = i + 1;
    }
    proof {
        assert(responses.deep_view().take(responses@.len() as int) =~= responses.deep_view());
    }
}

/// Appends the signature of one callable.
#[verifier::rlimit(60)]
fn append_client_sig(out: &mut String, e: &crate::ir::Endpoint)
    ensures
        final(out)@ == old(out)@ + client_sig_text(e@),
{
    append_doc(out, &e.doc);
    out.append("let ");
    out.append(e.operation_id.as_str());
    out.append(" = (~baseUrl: string");
    append_params_sig(out, &e.parameters);
    match &e.request_body {
        Option::Some(rb) => {
            out.append(", ~body: ");
            let t = rb.ty.to_rescript();
            out.append(t.as_str());
            if !rb.required {
                out.append("=?");
            }
        },
        Option::None => {},
    }
    out.append(") => {\n");
    proof {
        assert(final(out)@ =~= old(out)@ + client_sig_text(e@));
    }
}

/// Appends the transport call of one callable.
#[verifier::rlimit(60)]
fn append_client_call(out: &mut String, e: &crate::ir::Endpoint)
    ensures
        final(out)@ == old(out)@ + client_call_text(e@),
{
    out.append("  Transport.request(\n    ~method=\"");
    out.append(e.method.as_str());
    out.append("\",\n    ~baseUrl,\n    ~path=\"");
    out.append(e.path.as_str());
    out.append("\",\n    ~pathParams=[");
    append_pairs(out, &e.parameters, ParameterLocation::Path);
    out.append("],\n    ~query=[");
    append_pairs(out, &e.parameters, ParameterLocation::Query);
    out.append("],\n    ~headers=[");
    append_pairs(out, &e.parameters, ParameterLocation::Header);
    out.append("],\n    ~cookies=[");
    append_pairs(out, &e.parameters, ParameterLocation::Cookie);
    out.append("],\n");
    proof {
        assert(final(out)@ =~= old(out)@ + client_call_text(e@));
    }
}

/// Appends the response interpretation of one callable.
#[verifier::rlimit(60)]
fn append_client_resp(out: &mut String, e: &crate::ir::Endpoint)
    ensures
        final(out)@ == old(out)@ + client_resp_text(e@),
{
    match &e.request_body {
        Option::Some(rb) => {
            out.append("    ~body=Some(S.reverseConvertToJsonString(body, ");
            let s = rb.ty.to_schema();
            out.append(s.as_str());
            out.append(")),\n    ~contentType=Some(\"");
            out.append(rb.content_type.as_str());
            out.append("\"),\n");
        },
        Option::None => {
            out.append("    ~body=None,\n    ~contentType=None,\n");
        },
    }
    out.append("  )->Promise.thenResolve(response =>\n    switch response.status {\n");
    append_response_arms(out, &e.responses);
    out.append("    | other => Error(other)\n    }\n  )\n}\n");
    proof {
        assert(final(out)@ =~= old(out)@ + client_resp_text(e@));
    }
}

/// Appends one callable.
fn append_client_endpoint(out: &mut String, e: &crate::ir::Endpoint)
    ensures
        final(out)@ == old(out)@ + client_endpoint_text(e@),
{
    append_client_sig(out, e);
    append_client_call(out, e);
    append_client_resp(out, e);
    proof {
        assert(final(out)@ =~= old(out)@ + client_endpoint_text(e@));
    }
}

/// Renders the client artifact: one callable per endpoint.
#[verifier::loop_isolation(false)]
#[verifier::rlimit(60)]
pub fn render_client(api: &ApiSpec) -> (r: String)
    ensures
        r@ == client_artifact(api@),
{
    let mut out = String::new();
    append_header(&mut out, api);
    let ghost base = out@;
    let mut i: usize = 0;
    proof {
        assert(base + client_endpoints_text(api.endpoints.deep_view().take(0)) =~= base);
    }
    while i < api.endpoints.len()
        invariant
            0 <= i <= api.endpoints@.len(),
            out@ == base + client_endpoints_text(api.endpoints.deep_view().take(i as int)),
        decreases api.endpoints@.len() - i,
    {
        append_client_endpoint(&mut out, &api.endpoints[i]);
        out.append("\n");
        proof {
            lemma_client_endpoints_step(api.endpoints.deep_view(), i as int);
            assert(api.endpoints.deep_view()[i as int] == api.endpoints@[i as int]@);
            assert(out@ =~= base + client_endpoints_text(api.endpoints.deep_view().take(i + 1)));
        }
        i = i + 1;
    }
    proof {
        assert(api.endpoints.deep_view().take(api.endpoints@.len() as int)
            =~= api.endpoints.deep_view());
        assert(out@ =~= client_artifact(api@));
    }
    out
}

} // verus!
