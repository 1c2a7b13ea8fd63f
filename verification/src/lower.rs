use vstd::prelude::*;
use vstd::string::StrSliceExecFns;
use vstd::string::StringExecFns;
use crate::document::{RefOr, SchemaKindNode, SchemaNode};
use crate::ir::{string_views, Field, FieldV, RsType, RsTypeV, TypeDef, TypeDefV, VariantCase,
    VariantCaseV};
use crate::sanitize::{pascal_of, sanitize_field_name, sanitized, to_pascal};
use crate::text::{dec_of, lemma_lex_lt_asym, lemma_lex_lt_total, lex_lt, str_eq, str_lex_lt,
    u64_dec};

verus! {

broadcast use vstd::std_specs::vec::group_vec_axioms;

// ---------------------------------------------------------------------------
// Reference names
// ---------------------------------------------------------------------------

/// The reference prefix under which named schemas live.
pub open spec fn ref_prefix() -> Seq<char> {
    "#/components/schemas/"@
}

/// A reference string with the schema prefix removed; any other reference
/// string passes through unchanged.
pub open spec fn strip_ref_prefix(s: Seq<char>) -> Seq<char> {
    if s.len() >= ref_prefix().len() && s.take(ref_prefix().len() as int) == ref_prefix() {
        s.skip(ref_prefix().len() as int)
    } else {
        s
    }
}

/// Removes the schema reference prefix from a reference string.
pub fn strip_schema_ref(s: &str) -> (r: String)
    ensures
        r@ == strip_ref_prefix(s@),
{
    let prefix = "#/components/schemas/";
    proof {
        reveal_strlit("#/components/schemas/");
    }
    let plen = prefix.unicode_len();
    let slen = s.unicode_len();
    if slen < plen {
        assert(s@.len() < ref_prefix().len());
        return s.to_owned();
    }
    let mut i: usize = 0;
    while i < plen
        invariant
            0 <= i <= plen,
            plen == ref_prefix().len(),
            slen == s@.len(),
            slen >= plen,
            prefix@ == ref_prefix(),
            forall|k: int| 0 <= k < i ==> s@[k] == ref_prefix()[k],
        decreases plen - i,
    {
        let cs = s.get_char(i);
        let cp = prefix.get_char(i);
        if cs != cp {
            proof {
                assert(s@.take(ref_prefix().len() as int)[i as int] == s@[i as int]);
                assert(s@.take(ref_prefix().len() as int) != ref_prefix());
            }
            return s.to_owned();
        }
        i = i + 1;
    }
    proof {
        assert(s@.take(ref_prefix().len() as int) =~= ref_prefix());
    }
    let tail = s.substring_char(plen, slen);
    tail.to_owned()
}

// ---------------------------------------------------------------------------
// The type resolver
// ---------------------------------------------------------------------------

/// The kept values of a string enumeration: the literal entries, in order,
/// with null entries dropped.
pub open spec fn enum_values(vs: Seq<Option<String>>) -> Seq<Seq<char>>
    decreases vs.len(),
{
    if vs.len() == 0 {
        Seq::empty()
    } else {
        enum_values(vs.drop_last()) + match vs.last() {
            Option::Some(s) => seq![s@],
            Option::None => Seq::<Seq<char>>::empty(),
        }
    }
}

/// The resolution of a schema shape into a type expression. Total: every
/// shape resolves, and any shape outside the enumerated rules resolves to
/// the opaque-json fallback.
pub open spec fn resolve_kind_spec(k: SchemaKindNode) -> RsTypeV
    decreases k,
{
    match k {
        SchemaKindNode::StringKind { enumeration } => {
            if enumeration@.len() > 0 {
                RsTypeV::StringEnum(enum_values(enumeration@))
            } else {
                RsTypeV::Str
            }
        },
        SchemaKindNode::IntegerKind => RsTypeV::Int,
        SchemaKindNode::NumberKind => RsTypeV::Float,
        SchemaKindNode::BooleanKind => RsTypeV::Bool,
        SchemaKindNode::ArrayKind { items } => match items {
            Option::Some(sr) => RsTypeV::Array(Box::new(resolve_ref_spec(sr))),
            Option::None => RsTypeV::Array(Box::new(RsTypeV::Json)),
        },
        SchemaKindNode::ObjectKind { .. } => RsTypeV::Json,
        SchemaKindNode::OneOfKind { .. } => RsTypeV::Json,
        SchemaKindNode::AnyKind => RsTypeV::Json,
        SchemaKindNode::AnyOfKind => RsTypeV::Json,
        SchemaKindNode::OtherKind => RsTypeV::Json,
    }
}

/// The resolution of a schema-or-reference: a reference resolves to the
/// Pascal-cased name it points at; an inline schema resolves by shape.
pub open spec fn resolve_ref_spec(sr: RefOr<Box<SchemaNode>>) -> RsTypeV
    decreases sr,
{
    match sr {
        RefOr::Ref(reference) => RsTypeV::Named(pascal_of(strip_ref_prefix(reference@))),
        RefOr::Item(schema) => resolve_kind_spec(schema.kind),
    }
}

/// Resolution is total and never produces the optional constructor: the
/// optional wrapper is added only by the enclosing required-field logic.
pub proof fn lemma_resolver_never_optional(sr: RefOr<Box<SchemaNode>>)
    ensures
        !(resolve_ref_spec(sr) is Optional),
{
}

/// Fallback totality: a shape outside the resolver's enumerated rules
/// resolves to the opaque-json type rather than failing.
pub proof fn lemma_fallback_totality(k: SchemaKindNode)
    ensures
        (k is AnyKind || k is AnyOfKind || k is OtherKind || k is ObjectKind || k is OneOfKind)
            ==> resolve_kind_spec(k) == RsTypeV::Json,
{
}

proof fn lemma_enum_values_step(vs: Seq<Option<String>>, i: int)
    requires
        0 <= i < vs.len(),
    ensures
        enum_values(vs.take(i + 1)) == enum_values(vs.take(i)) + match vs[i] {
            Option::Some(s) => seq![s@],
            Option::None => Seq::<Seq<char>>::empty(),
        },
{
    assert(vs.take(i + 1).drop_last() =~= vs.take(i));
    assert(vs.take(i + 1).last() == vs[i]);
}

/// Resolves a schema shape into a type expression.
#[verifier::loop_isolation(false)]
pub fn resolve_kind(k: &SchemaKindNode) -> (t: RsType)
    ensures
        t@ == resolve_kind_spec(*k),
    decreases *k,
{
    match k {
        SchemaKindNode::StringKind { enumeration } => {
            if enumeration.len() > 0 {
                let mut values: Vec<String> = Vec::new();
                let mut i: usize = 0;
                proof {
                    assert(string_views(values@) =~= enum_values(enumeration@.take(0)));
                }
                while i < enumeration.len()
                    invariant
                        0 <= i <= enumeration@.len(),
                        string_views(values@) == enum_values(enumeration@.take(i as int)),
                    decreases enumeration@.len() - i,
                {
                    match &enumeration[i] {
                        Option::Some(v) => {
                            let copied = v.clone();
                            values.push(copied);
                            proof {
                                lemma_enum_values_step(enumeration@, i as int);
                                assert(string_views(values@) =~= enum_values(
                                    enumeration@.take(i + 1),
                                ));
                            }
                        },
                        Option::None => {
                            proof {
                                lemma_enum_values_step(enumeration@, i as int);
                                assert(string_views(values@) =~= enum_values(
                                    enumeration@.take(i + 1),
                                ));
                            }
                        },
                    }
                    i = i + 1;
                }
                proof {
                    assert(enumeration@.take(enumeration@.len() as int) =~= enumeration@);
                }
                RsType::StringEnum(values)
            } else {
                RsType::Str
            }
        },
        SchemaKindNode::IntegerKind => RsType::Int,
        SchemaKindNode::NumberKind => RsType::Float,
        SchemaKindNode::BooleanKind => RsType::Bool,
        SchemaKindNode::ArrayKind { items } => match items {
            Option::Some(sr) => {
                proof {
                    assert(decreases_to!(*k => *sr));
                }
                let inner = resolve_ref(sr);
                let t = RsType::Array(Box::new(inner));
                proof {
                    assert(*items == Option::Some(*sr));
                    assert(resolve_kind_spec(*k) == RsTypeV::Array(
                        Box::new(resolve_ref_spec(*sr)),
                    ));
                    assert(t@ == RsTypeV::Array(Box::new(resolve_ref_spec(*sr))));
                }
                t
            },
            Option::None => {
                let t = RsType::Array(Box::new(RsType::Json));
                proof {
                    assert(RsType::Json@ == RsTypeV::Json);
                    assert(t@ == RsTypeV::Array(Box::new(RsTypeV::Json)));
                }
                t
            },
        },
        SchemaKindNode::ObjectKind { .. } => RsType::Json,
        SchemaKindNode::OneOfKind { .. } => RsType::Json,
        SchemaKindNode::AnyKind => RsType::Json,
        SchemaKindNode::AnyOfKind => RsType::Json,
        SchemaKindNode::OtherKind => RsType::Json,
    }
}

/// Resolves a schema-or-reference into a type expression.
pub fn resolve_ref(sr: &RefOr<Box<SchemaNode>>) -> (t: RsType)
    ensures
        t@ == resolve_ref_spec(*sr),
    decreases *sr,
{
    match sr {
        RefOr::Ref(reference) => {
            let stripped = strip_schema_ref(reference.as_str());
            RsType::Named(to_pascal(stripped.as_str()))
        },
        RefOr::Item(schema) => {
            proof {
                assert(decreases_to!(*sr => (**schema).kind));
            }
            resolve_kind(&schema.kind)
        },
    }
}

// ---------------------------------------------------------------------------
// Lowering one named schema
// ---------------------------------------------------------------------------

/// Whether a property name appears in a required-name list.
pub open spec fn contains_string(list: Seq<String>, n: Seq<char>) -> bool {
    exists|k: int| 0 <= k < list.len() && (#[trigger] list[k])@ == n
}

/// Decides membership of a name in a required-name list.
pub fn contains_str(list: &Vec<String>, needle: &str) -> (r: bool)
    ensures
        r == contains_string(list@, needle@),
{
    let mut i: usize = 0;
    while i < list.len()
        invariant
            0 <= i <= list@.len(),
            forall|k: int| 0 <= k < i ==> (#[trigger] list@[k])@ != needle@,
        decreases list@.len() - i,
    {
        if str_eq(list[i].as_str(), needle) {
            proof {
                assert(list@[i as int]@ == needle@);
            }
            return true;
        }
        i = i + 1;
    }
    false
}

/// Copies an optional documentation string.
pub fn clone_opt_string(o: &Option<String>) -> (r: Option<String>)
    ensures
        r.deep_view() == o.deep_view(),
{
    match o {
        Option::Some(s) => Option::Some(s.clone()),
        Option::None => Option::None,
    }
}

/// The field lowered from one object property: sanitized name, the original
/// wire name, the resolved type wrapped in the optional constructor exactly
/// when the property is not required, and the property's own description.
pub open spec fn field_spec(
    name: String,
    sr: RefOr<Box<SchemaNode>>,
    required: Seq<String>,
) -> FieldV {
    let req = contains_string(required, name@);
    let t = resolve_ref_spec(sr);
    FieldV {
        name: sanitized(name@),
        original_name: name@,
        ty: if req {
            t
        } else {
            RsTypeV::Optional(Box::new(t))
        },
        optional: !req,
        doc: match sr {
            RefOr::Item(b) => b.description.deep_view(),
            RefOr::Ref(_) => Option::None,
        },
    }
}

/// The fields lowered from an object's properties, in property order.
pub open spec fn fields_spec(
    props: Seq<(String, RefOr<Box<SchemaNode>>)>,
    required: Seq<String>,
) -> Seq<FieldV>
    decreases props.len(),
{
    if props.len() == 0 {
        Seq::empty()
    } else {
        fields_spec(props.drop_last(), required).push(
            field_spec(props.last().0, props.last().1, required),
        )
    }
}

proof fn lemma_fields_step(props: Seq<(String, RefOr<Box<SchemaNode>>)>, required: Seq<String>, i: int)
    requires
        0 <= i < props.len(),
    ensures
        fields_spec(props.take(i + 1), required) == fields_spec(props.take(i), required).push(
            field_spec(props[i].0, props[i].1, required),
        ),
{
    assert(props.take(i + 1).drop_last() =~= props.take(i));
    assert(props.take(i + 1).last() == props[i]);
}

/// The payload-less cases lowered from a string enumeration, in literal
/// order, null entries dropped.
pub open spec fn enum_cases_spec(vs: Seq<Option<String>>) -> Seq<VariantCaseV>
    decreases vs.len(),
{
    if vs.len() == 0 {
        Seq::empty()
    } else {
        enum_cases_spec(vs.drop_last()) + match vs.last() {
            Option::Some(v) => seq![
                VariantCaseV { name: pascal_of(v@), payload: Option::None },
            ],
            Option::None => Seq::<VariantCaseV>::empty(),
        }
    }
}

proof fn lemma_enum_cases_step(vs: Seq<Option<String>>, i: int)
    requires
        0 <= i < vs.len(),
    ensures
        enum_cases_spec(vs.take(i + 1)) == enum_cases_spec(vs.take(i)) + match vs[i] {
            Option::Some(v) => seq![
                VariantCaseV { name: pascal_of(v@), payload: Option::None },
            ],
            Option::None => Seq::<VariantCaseV>::empty(),
        },
{
    assert(vs.take(i + 1).drop_last() =~= vs.take(i));
    assert(vs.take(i + 1).last() == vs[i]);
}

/// One synthesized positional case of a union composition: the case number
/// counts from one, and the payload is the branch's resolved type.
pub open spec fn oneof_case_spec(sr: RefOr<Box<SchemaNode>>, number: nat) -> VariantCaseV {
    VariantCaseV {
        name: "Case"@ + dec_of(number),
        payload: Option::Some(resolve_ref_spec(sr)),
    }
}

/// The cases lowered from a union composition, in branch order.
pub open spec fn oneof_cases_spec(vs: Seq<RefOr<Box<SchemaNode>>>) -> Seq<VariantCaseV>
    decreases vs.len(),
{
    if vs.len() == 0 {
        Seq::empty()
    } else {
        oneof_cases_spec(vs.drop_last()).push(oneof_case_spec(vs.last(), vs.len() as nat))
    }
}

proof fn lemma_oneof_cases_step(vs: Seq<RefOr<Box<SchemaNode>>>, i: int)
    requires
        0 <= i < vs.len(),
    ensures
        oneof_cases_spec(vs.take(i + 1)) == oneof_cases_spec(vs.take(i)).push(
            oneof_case_spec(vs[i], (i + 1) as nat),
        ),
{
    assert(vs.take(i + 1).drop_last() =~= vs.take(i));
    assert(vs.take(i + 1).last() == vs[i]);
    assert(vs.take(i + 1).len() == i + 1);
}

/// The type definition lowered from one named schema: an object becomes a
/// record, an enumerated string becomes a variant, a union composition
/// becomes a variant with positional cases, and everything else becomes an
/// alias of the resolved type.
pub open spec fn lower_schema_spec(name: Seq<char>, schema: SchemaNode) -> TypeDefV {
    let doc = schema.description.deep_view();
    let rs_name = pascal_of(name);
    match schema.kind {
        SchemaKindNode::ObjectKind { properties, required } => TypeDefV::Record {
            name: rs_name,
            doc: doc,
            fields: fields_spec(properties@, required@),
        },
        SchemaKindNode::StringKind { enumeration } => {
            if enumeration@.len() > 0 {
                TypeDefV::Variant { name: rs_name, doc: doc, cases: enum_cases_spec(enumeration@) }
            } else {
                TypeDefV::Alias { name: rs_name, doc: doc, target: RsTypeV::Str }
            }
        },
        SchemaKindNode::OneOfKind { variants } => TypeDefV::Variant {
            name: rs_name,
            doc: doc,
            cases: oneof_cases_spec(variants@),
        },
        _ => TypeDefV::Alias { name: rs_name, doc: doc, target: resolve_kind_spec(schema.kind) },
    }
}

/// Lowers one named schema into a type definition.
#[verifier::loop_isolation(false)]
pub fn lower_schema(name: &str, schema: &SchemaNode) -> (td: TypeDef)
    ensures
        td@ == lower_schema_spec(name@, *schema),
{
    let doc = clone_opt_string(&schema.description);
    let rs_name = to_pascal(name);
    match &schema.kind {
        SchemaKindNode::ObjectKind { properties, required } => {
            let mut fields: Vec<Field> = Vec::new();
            let mut i: usize = 0;
            proof {
                assert(fields.deep_view() =~= fields_spec(properties@.take(0), required@));
            }
            while i < properties.len()
                invariant
                    0 <= i <= properties@.len(),
                    fields.deep_view() == fields_spec(properties@.take(i as int), required@),
                decreases properties@.len() - i,
            {
                let pair = &properties[i];
                let req = contains_str(required, pair.0.as_str());
                let t = resolve_ref(&pair.1);
                let field_ty = if req {
                    t
                } else {
                    RsType::Optional(Box::new(t))
                };
                let field_doc = match &pair.1 {
                    RefOr::Item(b) => clone_opt_string(&b.description),
                    RefOr::Ref(_) => Option::None,
                };
                let field = Field {
                    name: sanitize_field_name(pair.0.as_str()),
                    original_name: pair.0.clone(),
                    ty: field_ty,
                    optional: !req,
                    doc: field_doc,
                };
                proof {
                    assert(field@ == field_spec(properties@[i as int].0, properties@[i as int].1, required@));
                }
                fields.push(field);
                proof {
                    lemma_fields_step(properties@, required@, i as int);
                    assert(fields.deep_view() =~= fields_spec(properties@.take(i + 1), required@));
                }
                i = i + 1;
            }
            proof {
                assert(properties@.take(properties@.len() as int) =~= properties@);
            }
            TypeDef::Record { name: rs_name, doc: doc, fields: fields }
        },
        SchemaKindNode::StringKind { enumeration } => {
            if enumeration.len() > 0 {
                let mut cases: Vec<VariantCase> = Vec::new();
                let mut i: usize = 0;
                proof {
                    assert(cases.deep_view() =~= enum_cases_spec(enumeration@.take(0)));
                }
                while i < enumeration.len()
                    invariant
                        0 <= i <= enumeration@.len(),
                        cases.deep_view() == enum_cases_spec(enumeration@.take(i as int)),
                    decreases enumeration@.len() - i,
                {
                    match &enumeration[i] {
                        Option::Some(v) => {
                            let case = VariantCase {
                                name: to_pascal(v.as_str()),
                                payload: Option::None,
                            };
                            cases.push(case);
                        },
                        Option::None => {},
                    }
                    proof {
                        lemma_enum_cases_step(enumeration@, i as int);
                        assert(cases.deep_view() =~= enum_cases_spec(enumeration@.take(i + 1)));
                    }
                    i = i + 1;
                }
                proof {
                    assert(enumeration@.take(enumeration@.len() as int) =~= enumeration@);
                }
                TypeDef::Variant { name: rs_name, doc: doc, cases: cases }
            } else {
                TypeDef::Alias { name: rs_name, doc: doc, target: RsType::Str }
            }
        },
        SchemaKindNode::OneOfKind { variants } => {
            let mut cases: Vec<VariantCase> = Vec::new();
            let mut i: usize = 0;
            proof {
                assert(cases.deep_view() =~= oneof_cases_spec(variants@.take(0)));
            }
            while i < variants.len()
                invariant
                    0 <= i <= variants@.len(),
                    cases.deep_view() == oneof_cases_spec(variants@.take(i as int)),
                decreases variants@.len() - i,
            {
                let mut case_name = "Case".to_owned();
                let number = u64_dec((i + 1) as u64);
                case_name.append(number.as_str());
                let payload = resolve_ref(&variants[i]);
                let case = VariantCase { name: case_name, payload: Option::Some(payload) };
                proof {
                    assert(case@ == oneof_case_spec(variants@[i as int], (i + 1) as nat));
                }
                cases.push(case);
                proof {
                    lemma_oneof_cases_step(variants@, i as int);
                    assert(cases.deep_view() =~= oneof_cases_spec(variants@.take(i + 1)));
                }
                i = i + 1;
            }
            proof {
                assert(variants@.take(variants@.len() as int) =~= variants@);
            }
            TypeDef::Variant { name: rs_name, doc: doc, cases: cases }
        },
        other => {
            let target = resolve_kind(other);
            TypeDef::Alias { name: rs_name, doc: doc, target: target }
        },
    }
}

// ---------------------------------------------------------------------------
// Pass 1: the sorted type collection
// ---------------------------------------------------------------------------

/// A lowered type definition keyed by the source name it came from. Pass 1
/// keeps these sorted by source name, so regeneration is stable.
#[derive(Debug)]
pub struct NamedDef {
    pub key: String,
    pub def: TypeDef,
}

pub struct NamedDefV {
    pub key: Seq<char>,
    pub def: TypeDefV,
}

impl View for NamedDef {
    type V = NamedDefV;

    open spec fn view(&self) -> NamedDefV {
        NamedDefV { key: self.key@, def: self.def@ }
    }
}

impl DeepView for NamedDef {
    type V = NamedDefV;

    open spec fn deep_view(&self) -> NamedDefV {
        self.view()
    }
}

/// Insertion into the key-sorted collection: an entry with the same key is
/// replaced, otherwise the new entry lands before the first strictly greater
/// key.
pub open spec fn insert_sorted_v(s: Seq<NamedDefV>, nd: NamedDefV) -> Seq<NamedDefV>
    decreases s.len(),
{
    if s.len() == 0 {
        seq![nd]
    } else if nd.key == s[0].key {
        seq![nd] + s.drop_first()
    } else if lex_lt(nd.key, s[0].key) {
        seq![nd] + s
    } else {
        seq![s[0]] + insert_sorted_v(s.drop_first(), nd)
    }
}

proof fn lemma_insert_sorted_skip(s: Seq<NamedDefV>, nd: NamedDefV, j: int)
    requires
        0 <= j <= s.len(),
        forall|k: int| 0 <= k < j ==> lex_lt((#[trigger] s[k]).key, nd.key),
    ensures
        insert_sorted_v(s, nd) == s.take(j) + insert_sorted_v(s.skip(j), nd),
    decreases j,
{
    if j == 0 {
        assert(s.skip(0) =~= s);
        assert(s.take(0) + insert_sorted_v(s, nd) =~= insert_sorted_v(s, nd));
    } else {
        lemma_lex_lt_asym(s[0].key, nd.key);
        lemma_insert_sorted_skip(s.drop_first(), nd, j - 1);
        assert(s.drop_first().skip(j - 1) =~= s.skip(j));
        assert(seq![s[0]] + s.drop_first().take(j - 1) =~= s.take(j));
        assert(seq![s[0]] + (s.drop_first().take(j - 1) + insert_sorted_v(s.skip(j), nd)) =~= s.take(
            j,
        ) + insert_sorted_v(s.skip(j), nd));
    }
}

fn find_insert_pos(out: &Vec<NamedDef>, key: &str) -> (j: usize)
    ensures
        0 <= j <= out@.len(),
        forall|k: int| 0 <= k < j ==> lex_lt((#[trigger] out.deep_view()[k]).key, key@),
        j < out@.len() ==> !lex_lt(out.deep_view()[j as int].key, key@),
{
    let mut j: usize = 0;
    while j < out.len()
        invariant
            0 <= j <= out@.len(),
            forall|k: int| 0 <= k < j ==> lex_lt((#[trigger] out.deep_view()[k]).key, key@),
        decreases out@.len() - j,
    {
        if !str_lex_lt(out[j].key.as_str(), key) {
            return j;
        }
        j = j + 1;
    }
    j
}

/// Inserts a lowered definition into the key-sorted collection.
fn insert_named_def(out: &mut Vec<NamedDef>, nd: NamedDef)
    ensures
        final(out).deep_view() == insert_sorted_v(old(out).deep_view(), nd@),
{
    let ghost s0 = old(out).deep_view();
    let j = find_insert_pos(out, nd.key.as_str());
    proof {
        lemma_insert_sorted_skip(s0, nd@, j as int);
    }
    if j < out.len() && str_eq(out[j].key.as_str(), nd.key.as_str()) {
        let _ = out.remove(j);
        out.insert(j, nd);
        proof {
            assert(s0.skip(j as int)[0] == s0[j as int]);
            assert(s0.skip(j as int).drop_first() =~= s0.skip(j as int + 1));
            assert(insert_sorted_v(s0.skip(j as int), nd@) == seq![nd@] + s0.skip(j as int + 1));
            assert(out.deep_view() =~= s0.take(j as int) + (seq![nd@] + s0.skip(j as int + 1)));
        }
    } else {
        out.insert(j, nd);
        proof {
            if (j as int) < s0.len() {
                lemma_lex_lt_total(nd@.key, s0[j as int].key);
                assert(s0.skip(j as int)[0] == s0[j as int]);
                assert(insert_sorted_v(s0.skip(j as int), nd@) == seq![nd@] + s0.skip(j as int));
            } else {
                assert(s0.skip(j as int).len() == 0);
                assert(insert_sorted_v(s0.skip(j as int), nd@) =~= seq![nd@] + s0.skip(j as int));
            }
            assert(out.deep_view() =~= s0.take(j as int) + (seq![nd@] + s0.skip(j as int)));
        }
    }
}

/// The key-sorted type collection built from the named schemas: inline
/// schema entries are lowered, reference entries are skipped, and a later
/// entry with an already-seen source name replaces the earlier one.
pub open spec fn pass1_spec(schemas: Seq<(String, RefOr<SchemaNode>)>) -> Seq<NamedDefV>
    decreases schemas.len(),
{
    if schemas.len() == 0 {
        Seq::empty()
    } else {
        let prev = pass1_spec(schemas.drop_last());
        match schemas.last().1 {
            RefOr::Item(schema) => insert_sorted_v(
                prev,
                NamedDefV {
                    key: schemas.last().0@,
                    def: lower_schema_spec(schemas.last().0@, schema),
                },
            ),
            RefOr::Ref(_) => prev,
        }
    }
}

proof fn lemma_pass1_step(schemas: Seq<(String, RefOr<SchemaNode>)>, i: int)
    requires
        0 <= i < schemas.len(),
    ensures
        pass1_spec(schemas.take(i + 1)) == match schemas[i].1 {
            RefOr::Item(schema) => insert_sorted_v(
                pass1_spec(schemas.take(i)),
                NamedDefV { key: schemas[i].0@, def: lower_schema_spec(schemas[i].0@, schema) },
            ),
            RefOr::Ref(_) => pass1_spec(schemas.take(i)),
        },
{
    assert(schemas.take(i + 1).drop_last() =~= schemas.take(i));
    assert(schemas.take(i + 1).last() == schemas[i]);
}

/// The type definitions of the sorted collection, keys dropped.
pub open spec fn typedefs_of(defs: Seq<NamedDefV>) -> Seq<TypeDefV> {
    defs.map_values(|nd: NamedDefV| nd.def)
}

/// Runs pass 1 over the named schemas.
fn pass1(schemas: &Vec<(String, RefOr<SchemaNode>)>) -> (out: Vec<NamedDef>)
    ensures
        out.deep_view() == pass1_spec(schemas@),
{
    let mut out: Vec<NamedDef> = Vec::new();
    let mut i: usize = 0;
    proof {
        assert(out.deep_view() =~= pass1_spec(schemas@.take(0)));
    }
    while i < schemas.len()
        invariant
            0 <= i <= schemas@.len(),
            out.deep_view() == pass1_spec(schemas@.take(i as int)),
        decreases schemas@.len() - i,
    {
        let pair = &schemas[i];
        match &pair.1 {
            RefOr::Item(schema) => {
                let td = lower_schema(pair.0.as_str(), schema);
                let nd = NamedDef { key: pair.0.clone(), def: td };
                insert_named_def(&mut out, nd);
            },
            RefOr::Ref(_) => {},
        }
        proof {
            lemma_pass1_step(schemas@, i as int);
        }
        i = i + 1;
    }
    proof {
        assert(schemas@.take(schemas@.len() as int) =~= schemas@);
    }
    out
}

// ---------------------------------------------------------------------------
// Pass 2: endpoints
// ---------------------------------------------------------------------------

/// The path string with each separator replaced, as used when an operation
/// identifier has to be synthesized.
pub open spec fn replace_slash(p: Seq<char>) -> Seq<char> {
    p.map_values(|c: char| if c == '/' { '_' } else { c })
}

/// Replaces every path separator with an underscore.
pub fn path_to_segment(p: &str) -> (r: String)
    ensures
        r@ == replace_slash(p@),
{
    let len = p.unicode_len();
    let mut out = String::new();
    let mut i: usize = 0;
    while i < len
        invariant
            0 <= i <= len,
            len == p@.len(),
            out@ == replace_slash(p@.take(i as int)),
        decreases len - i,
    {
        let c = p.get_char(i);
        if c == '/' {
            crate::text::push_char(&mut out, '_');
        } else {
            crate::text::push_char(&mut out, c);
        }
        proof {
            assert(out@ =~= replace_slash(p@.take(i + 1)));
        }
        i = i + 1;
    }
    proof {
        assert(p@.take(p@.len() as int) =~= p@);
    }
    out
}

/// The operation identifier: the declared one where present, else one
/// synthesized from the method name and the path; camel-cased either way.
pub open spec fn op_id_spec(
    m: crate::ir::HttpMethod,
    path: Seq<char>,
    declared: Option<String>,
) -> Seq<char> {
    crate::sanitize::lower_camel_of(
        match declared {
            Option::Some(id) => id@,
            Option::None => crate::ir::method_lower(m) + "_"@ + replace_slash(path),
        },
    )
}

/// The parameter location of a declared parameter kind.
pub open spec fn location_of(k: crate::document::ParamKind) -> crate::ir::ParameterLocation {
    match k {
        crate::document::ParamKind::PathParam => crate::ir::ParameterLocation::Path,
        crate::document::ParamKind::QueryParam => crate::ir::ParameterLocation::Query,
        crate::document::ParamKind::HeaderParam => crate::ir::ParameterLocation::Header,
        crate::document::ParamKind::CookieParam => crate::ir::ParameterLocation::Cookie,
    }
}

/// One lowered parameter: camel-cased name, its declared location, the
/// resolved type (string scalar when no schema is attached), and its
/// required flag.
pub open spec fn param_spec(p: crate::document::ParamNode) -> crate::ir::ParameterV {
    crate::ir::ParameterV {
        name: crate::sanitize::lower_camel_of(p.name@),
        location: location_of(p.kind),
        ty: match p.schema {
            Option::Some(sr) => resolve_ref_spec(sr),
            Option::None => RsTypeV::Str,
        },
        required: p.required,
        doc: p.description.deep_view(),
    }
}

/// The lowered parameters of an operation, in declaration order. A
/// parameter given only by reference is skipped: the document model carries
/// no parameter section to resolve it against (only named type definitions
/// are modeled), so such an entry cannot be lowered.
pub open spec fn params_spec(ps: Seq<RefOr<crate::document::ParamNode>>) -> Seq<
    crate::ir::ParameterV,
>
    decreases ps.len(),
{
    if ps.len() == 0 {
        Seq::empty()
    } else {
        params_spec(ps.drop_last()) + match ps.last() {
            RefOr::Item(p) => seq![param_spec(p)],
            RefOr::Ref(_) => Seq::<crate::ir::ParameterV>::empty(),
        }
    }
}

proof fn lemma_params_step(ps: Seq<RefOr<crate::document::ParamNode>>, i: int)
    requires
        0 <= i < ps.len(),
    ensures
        params_spec(ps.take(i + 1)) == params_spec(ps.take(i)) + match ps[i] {
            RefOr::Item(p) => seq![param_spec(p)],
            RefOr::Ref(_) => Seq::<crate::ir::ParameterV>::empty(),
        },
{
    assert(ps.take(i + 1).drop_last() =~= ps.take(i));
    assert(ps.take(i + 1).last() == ps[i]);
}

/// The first media entry declared for the JSON content type, if any.
pub open spec fn json_media(content: Seq<(String, crate::document::MediaNode)>) -> Option<
    crate::document::MediaNode,
>
    decreases content.len(),
{
    if content.len() == 0 {
        Option::None
    } else if content[0].0@ == "application/json"@ {
        Option::Some(content[0].1)
    } else {
        json_media(content.drop_first())
    }
}

/// Looks up the JSON media entry of a content map.
fn find_json_media<'a>(content: &'a Vec<(String, crate::document::MediaNode)>) -> (r: Option<
    &'a crate::document::MediaNode,
>)
    ensures
        match r {
            Option::Some(m) => json_media(content@) == Option::Some(*m),
            Option::None => json_media(content@) is None,
        },
{
    let mut i: usize = 0;
    proof {
        assert(content@.skip(0) =~= content@);
    }
    while i < content.len()
        invariant
            0 <= i <= content@.len(),
            json_media(content@) == json_media(content@.skip(i as int)),
        decreases content@.len() - i,
    {
        proof {
            assert(content@.skip(i as int)[0] == content@[i as int]);
            assert(content@.skip(i as int).drop_first() =~= content@.skip(i + 1));
        }
        if str_eq(content[i].0.as_str(), "application/json") {
            return Option::Some(&content[i].1);
        }
        i = i + 1;
    }
    Option::None
}

/// The lowered request body: present only when the body is given inline and
/// declares a JSON representation; its type defaults to opaque json when the
/// media entry carries no schema.
pub open spec fn body_spec(b: Option<RefOr<crate::document::BodyNode>>) -> Option<
    crate::ir::RequestBodyV,
> {
    match b {
        Option::Some(RefOr::Item(body)) => match json_media(body.content@) {
            Option::Some(media) => Option::Some(
                crate::ir::RequestBodyV {
                    ty: match media.schema {
                        Option::Some(sr) => resolve_ref_spec(sr),
                        Option::None => RsTypeV::Json,
                    },
                    required: body.required,
                    content_type: "application/json"@,
                },
            ),
            Option::None => Option::None,
        },
        _ => Option::None,
    }
}

/// One lowered response of an exact status code: its payload type is the
/// resolved JSON media schema, if one is declared.
pub open spec fn response_spec(status: u16, resp: crate::document::ResponseNode) -> crate::ir::ResponseV {
    crate::ir::ResponseV {
        status: status,
        ty: match json_media(resp.content@) {
            Option::Some(media) => match media.schema {
                Option::Some(sr) => Option::Some(resolve_ref_spec(sr)),
                Option::None => Option::None,
            },
            Option::None => Option::None,
        },
        doc: Option::Some(resp.description@),
    }
}

/// The lowered responses, in declaration order: only inline responses with
/// an exact status code are kept; ranged entries and references are dropped.
pub open spec fn responses_spec(
    rs: Seq<(crate::document::StatusEntry, RefOr<crate::document::ResponseNode>)>,
) -> Seq<crate::ir::ResponseV>
    decreases rs.len(),
{
    if rs.len() == 0 {
        Seq::empty()
    } else {
        responses_spec(rs.drop_last()) + match rs.last() {
            (crate::document::StatusEntry::Code(c), RefOr::Item(resp)) => seq![
                response_spec(c, resp),
            ],
            _ => Seq::<crate::ir::ResponseV>::empty(),
        }
    }
}

proof fn lemma_responses_step(
    rs: Seq<(crate::document::StatusEntry, RefOr<crate::document::ResponseNode>)>,
    i: int,
)
    requires
        0 <= i < rs.len(),
    ensures
        responses_spec(rs.take(i + 1)) == responses_spec(rs.take(i)) + match rs[i] {
            (crate::document::StatusEntry::Code(c), RefOr::Item(resp)) => seq![
                response_spec(c, resp),
            ],
            _ => Seq::<crate::ir::ResponseV>::empty(),
        },
{
    assert(rs.take(i + 1).drop_last() =~= rs.take(i));
    assert(rs.take(i + 1).last() == rs[i]);
}

/// The endpoint lowered from one path-and-verb pair.
pub open spec fn endpoint_spec(
    path: Seq<char>,
    m: crate::ir::HttpMethod,
    op: crate::document::OperationNode,
) -> crate::ir::EndpointV {
    crate::ir::EndpointV {
        operation_id: op_id_spec(m, path, op.operation_id),
        method: m,
        path: path,
        doc: match op.description {
            Option::Some(d) => Option::Some(d@),
            Option::None => op.summary.deep_view(),
        },
        parameters: params_spec(op.parameters@),
        request_body: body_spec(op.request_body),
        responses: responses_spec(op.responses@),
    }
}

/// Lowers one operation into an endpoint.
pub fn lower_operation(
    path: &String,
    m: crate::ir::HttpMethod,
    op: &crate::document::OperationNode,
) -> (e: crate::ir::Endpoint)
    ensures
        e@ == endpoint_spec(path@, m, *op),
{
    let raw_id: String = match &op.operation_id {
        Option::Some(id) => id.clone(),
        Option::None => {
            let mut s = m.lower_name().to_owned();
            s.append("_");
            let seg = path_to_segment(path.as_str());
            s.append(seg.as_str());
            s
        },
    };
    let operation_id = crate::sanitize::to_lower_camel(raw_id.as_str());

    let mut parameters: Vec<crate::ir::Parameter> = Vec::new();
    let mut i: usize = 0;
    proof {
        assert(parameters.deep_view() =~= params_spec(op.parameters@.take(0)));
    }
    while i < op.parameters.len()
        invariant
            0 <= i <= op.parameters@.len(),
            parameters.deep_view() == params_spec(op.parameters@.take(i as int)),
        decreases op.parameters@.len() - i,
    {
        match &op.parameters[i] {
            RefOr::Item(p) => {
                let ty = match &p.schema {
                    Option::Some(sr) => resolve_ref(sr),
                    Option::None => RsType::Str,
                };
                let location = match p.kind {
                    crate::document::ParamKind::PathParam => crate::ir::ParameterLocation::Path,
                    crate::document::ParamKind::QueryParam => crate::ir::ParameterLocation::Query,
                    crate::document::ParamKind::HeaderParam => crate::ir::ParameterLocation::Header,
                    crate::document::ParamKind::CookieParam => crate::ir::ParameterLocation::Cookie,
                };
                let param = crate::ir::Parameter {
                    name: crate::sanitize::to_lower_camel(p.name.as_str()),
                    location: location,
                    ty: ty,
                    required: p.required,
                    doc: clone_opt_string(&p.description),
                };
                proof {
                    assert(param@ == param_spec(op.parameters@[i as int]->Item_0));
                }
                parameters.push(param);
            },
            RefOr::Ref(_) => {},
        }
        proof {
            lemma_params_step(op.parameters@, i as int);
            assert(parameters.deep_view() =~= params_spec(op.parameters@.take(i + 1)));
        }
        i = i + 1;
    }
    proof {
        assert(op.parameters@.take(op.parameters@.len() as int) =~= op.parameters@);
    }

    let request_body: Option<crate::ir::RequestBody> = match &op.request_body {
        Option::Some(RefOr::Item(body)) => match find_json_media(&body.content) {
            Option::Some(media) => {
                let ty = match &media.schema {
                    Option::Some(sr) => resolve_ref(sr),
                    Option::None => RsType::Json,
                };
                Option::Some(
                    crate::ir::RequestBody {
                        ty: ty,
                        required: body.required,
                        content_type: "application/json".to_owned(),
                    },
                )
            },
            Option::None => Option::None,
        },
        _ => Option::None,
    };

    let mut responses: Vec<crate::ir::Response> = Vec::new();
    let mut j: usize = 0;
    proof {
        assert(responses.deep_view() =~= responses_spec(op.responses@.take(0)));
    }
    while j < op.responses.len()
        invariant
            0 <= j <= op.responses@.len(),
            responses.deep_view() == responses_spec(op.responses@.take(j as int)),
        decreases op.responses@.len() - j,
    {
        let entry = &op.responses[j];
        match (&entry.0, &entry.1) {
            (crate::document::StatusEntry::Code(c), RefOr::Item(resp)) => {
                let ty: Option<RsType> = match find_json_media(&resp.content) {
                    Option::Some(media) => match &media.schema {
                        Option::Some(sr) => Option::Some(resolve_ref(sr)),
                        Option::None => Option::None,
                    },
                    Option::None => Option::None,
                };
                let response = crate::ir::Response {
                    status: *c,
                    ty: ty,
                    doc: Option::Some(resp.description.clone()),
                };
                proof {
                    assert(response@ == response_spec(
                        op.responses@[j as int].0->Code_0,
                        op.responses@[j as int].1->Item_0,
                    ));
                }
                responses.push(response);
            },
            _ => {},
        }
        proof {
            lemma_responses_step(op.responses@, j as int);
            assert(responses.deep_view() =~= responses_spec(op.responses@.take(j + 1)));
        }
        j = j + 1;
    }
    proof {
        assert(op.responses@.take(op.responses@.len() as int) =~= op.responses@);
    }

    crate::ir::Endpoint {
        operation_id: operation_id,
        method: m,
        path: path.clone(),
        doc: match &op.description {
            Option::Some(d) => Option::Some(d.clone()),
            Option::None => clone_opt_string(&op.summary),
        },
        parameters: parameters,
        request_body: request_body,
        responses: responses,
    }
}

/// The endpoints lowered from the operations of one path, in document order.
pub open spec fn ops_spec(
    path: String,
    ops: Seq<(crate::ir::HttpMethod, crate::document::OperationNode)>,
) -> Seq<crate::ir::EndpointV>
    decreases ops.len(),
{
    if ops.len() == 0 {
        Seq::empty()
    } else {
        ops_spec(path, ops.drop_last()).push(
            endpoint_spec(path@, ops.last().0, ops.last().1),
        )
    }
}

proof fn lemma_ops_step(
    path: String,
    ops: Seq<(crate::ir::HttpMethod, crate::document::OperationNode)>,
    i: int,
)
    requires
        0 <= i < ops.len(),
    ensures
        ops_spec(path, ops.take(i + 1)) == ops_spec(path, ops.take(i)).push(
            endpoint_spec(path@, ops[i].0, ops[i].1),
        ),
{
    assert(ops.take(i + 1).drop_last() =~= ops.take(i));
    assert(ops.take(i + 1).last() == ops[i]);
}

/// The endpoints lowered from every path, in document order; paths given
/// only by reference are skipped.
pub open spec fn endpoints_spec(
    paths: Seq<(String, RefOr<crate::document::PathItemNode>)>,
) -> Seq<crate::ir::EndpointV>
    decreases paths.len(),
{
    if paths.len() == 0 {
        Seq::empty()
    } else {
        endpoints_spec(paths.drop_last()) + match paths.last().1 {
            RefOr::Item(item) => ops_spec(paths.last().0, item.ops@),
            RefOr::Ref(_) => Seq::<crate::ir::EndpointV>::empty(),
        }
    }
}

proof fn lemma_endpoints_step(
    paths: Seq<(String, RefOr<crate::document::PathItemNode>)>,
    i: int,
)
    requires
        0 <= i < paths.len(),
    ensures
        endpoints_spec(paths.take(i + 1)) == endpoints_spec(paths.take(i)) + match paths[i].1 {
            RefOr::Item(item) => ops_spec(paths[i].0, item.ops@),
            RefOr::Ref(_) => Seq::<crate::ir::EndpointV>::empty(),
        },
{
    assert(paths.take(i + 1).drop_last() =~= paths.take(i));
    assert(paths.take(i + 1).last() == paths[i]);
}

/// Runs pass 2 over the paths.
fn pass2(paths: &Vec<(String, RefOr<crate::document::PathItemNode>)>) -> (out: Vec<
    crate::ir::Endpoint,
>)
    ensures
        out.deep_view() == endpoints_spec(paths@),
{
    let mut out: Vec<crate::ir::Endpoint> = Vec::new();
    let mut i: usize = 0;
    proof {
        assert(out.deep_view() =~= endpoints_spec(paths@.take(0)));
    }
    while i < paths.len()
        invariant
            0 <= i <= paths@.len(),
            out.deep_view() == endpoints_spec(paths@.take(i as int)),
        decreases paths@.len() - i,
    {
        let pair = &paths[i];
        match &pair.1 {
            RefOr::Item(item) => {
                let mut j: usize = 0;
                proof {
                    assert(out.deep_view() + ops_spec(pair.0, item.ops@.take(0)) =~= out.deep_view());
                    assert(endpoints_spec(paths@.take(i as int)) + ops_spec(pair.0, item.ops@.take(0))
                        =~= endpoints_spec(paths@.take(i as int)));
                }
                while j < item.ops.len()
                    invariant
                        0 <= j <= item.ops@.len(),
                        out.deep_view() == endpoints_spec(paths@.take(i as int)) + ops_spec(
                            pair.0,
                            item.ops@.take(j as int),
                        ),
                        paths@[i as int].1 == RefOr::<crate::document::PathItemNode>::Item(*item),
                        0 <= i < paths@.len(),
                        pair.0 == paths@[i as int].0,
                    decreases item.ops@.len() - j,
                {
                    let op_pair = &item.ops[j];
                    let e = lower_operation(&pair.0, op_pair.0, &op_pair.1);
                    proof {
                        assert(item.ops@[j as int] == *op_pair);
                        assert(e@ == endpoint_spec(
                            pair.0@,
                            item.ops@[j as int].0,
                            item.ops@[j as int].1,
                        ));
                    }
                    let ghost dv0 = out.deep_view();
                    out.push(e);
                    proof {
                        lemma_ops_step(pair.0, item.ops@, j as int);
                        assert(out.deep_view() =~= dv0.push(e@));
                        assert(dv0.push(e@) =~= endpoints_spec(paths@.take(i as int)) + ops_spec(
                            pair.0,
                            item.ops@.take(j + 1),
                        ));
                    }
                    j = j + 1;
                }
                proof {
                    assert(item.ops@.take(item.ops@.len() as int) =~= item.ops@);
                }
            },
            RefOr::Ref(_) => {},
        }
        proof {
            lemma_endpoints_step(paths@, i as int);
            assert(out.deep_view() =~= endpoints_spec(paths@.take(i + 1)));
        }
        i = i + 1;
    }
    proof {
        assert(paths@.take(paths@.len() as int) =~= paths@);
    }
    out
}

// ---------------------------------------------------------------------------
// The lowering entry point
// ---------------------------------------------------------------------------

/// Why a lowering run was aborted. No partial IR is ever handed on.
#[derive(Debug)]
pub enum LowerError {
    /// The document's title is structurally absent.
    MissingTitle,
    /// The document's version is structurally absent.
    MissingVersion,
    /// Two type definitions would render to the same target identifier; the
    /// Pascal-cased name of the later one is carried as context.
    DuplicateTypeName(String),
    /// Two properties of one record sanitize to the same field identifier;
    /// the colliding identifier is carried as context.
    DuplicateFieldName(String),
    /// Two endpoints carry the same rendered operation identifier; the
    /// colliding identifier is carried as context.
    DuplicateOperationId(String),
}

/// Whether the type definition at `j` renders to the same identifier as an
/// earlier one.
pub open spec fn collides_with_earlier(types: Seq<TypeDefV>, j: int) -> bool {
    exists|i: int|
        0 <= i < j && crate::sanitize::lower_camel_of((#[trigger] types[i]).name())
            == crate::sanitize::lower_camel_of(types[j].name())
}

/// Whether the field at `j` carries the same sanitized identifier as an
/// earlier field of the same record.
pub open spec fn field_collides_with_earlier(fields: Seq<FieldV>, j: int) -> bool {
    exists|i: int| 0 <= i < j && (#[trigger] fields[i]).name == fields[j].name
}

/// Whether the endpoint at `j` carries the same operation identifier as an
/// earlier one.
pub open spec fn op_collides_with_earlier(endpoints: Seq<crate::ir::EndpointV>, j: int) -> bool {
    exists|i: int| 0 <= i < j && (#[trigger] endpoints[i]).operation_id == endpoints[j].operation_id
}

/// The exact position of the first field-identifier collision: the type at
/// `t` is the first one whose fields collide, and `j` is its first field
/// that repeats an earlier identifier, which is `n`.
pub open spec fn field_dup_witness(types: Seq<TypeDefV>, t: int, j: int, n: Seq<char>) -> bool {
    &&& 0 <= t < types.len()
    &&& crate::ir::typedefs_fieldwise_unique(types.take(t))
    &&& match types[t] {
        TypeDefV::Record { fields, .. } => {
            &&& 0 <= j < fields.len()
            &&& crate::ir::fields_namewise_unique(fields.take(j))
            &&& field_collides_with_earlier(fields, j)
            &&& n == fields[j].name
        },
        _ => false,
    }
}

/// Some record holds two fields that sanitized to the identifier `n`, and
/// `n` is the first such identifier in IR order.
pub open spec fn has_field_dup(types: Seq<TypeDefV>, n: Seq<char>) -> bool {
    exists|t: int, j: int| #[trigger] field_dup_witness(types, t, j, n)
}

/// Two endpoints carry the operation identifier `n`, and `n` is the first
/// repeated identifier in endpoint order.
pub open spec fn has_op_dup(endpoints: Seq<crate::ir::EndpointV>, n: Seq<char>) -> bool {
    exists|j: int|
        0 <= j < endpoints.len() && #[trigger] op_collides_with_earlier(endpoints, j) && n
            == endpoints[j].operation_id && crate::ir::endpoints_idwise_unique(endpoints.take(j))
}

#[verifier::loop_isolation(false)]
fn extract_types(defs: Vec<NamedDef>) -> (types: Vec<TypeDef>)
    ensures
        types.deep_view() == typedefs_of(defs.deep_view()),
{
    let ghost dv = defs.deep_view();
    let mut rest = defs;
    let mut types: Vec<TypeDef> = Vec::new();
    proof {
        assert(rest.deep_view() =~= dv.skip(0));
        assert(types.deep_view() =~= typedefs_of(dv.take(0)));
    }
    while rest.len() > 0
        invariant
            types@.len() <= dv.len(),
            rest.deep_view() == dv.skip(types@.len() as int),
            types.deep_view() == typedefs_of(dv.take(types@.len() as int)),
        decreases rest@.len(),
    {
        let ghost i = types@.len() as int;
        let ghost r0 = rest.deep_view();
        let ghost v0 = rest@;
        proof {
            assert(r0.len() == rest@.len());
            assert(r0.len() > 0);
            assert(dv.len() - i > 0);
        }
        let nd = rest.remove(0);
        proof {
            assert(nd@ == r0[0]);
            assert(r0[0] == dv.skip(i)[0]);
            assert(dv.skip(i)[0] == dv[i]);
            assert(rest@ =~= v0.drop_first());
            assert forall|k: int| 0 <= k < rest@.len() implies rest.deep_view()[k] == dv.skip(
                i + 1,
            )[k] by {
                assert(rest@[k] == v0[k + 1]);
                assert(rest.deep_view()[k] == v0[k + 1].deep_view());
                assert(v0[k + 1].deep_view() == r0[k + 1]);
                assert(r0[k + 1] == dv.skip(i)[k + 1]);
                assert(dv.skip(i)[k + 1] == dv[i + 1 + k]);
                assert(dv.skip(i + 1)[k] == dv[i + 1 + k]);
            }
            assert(rest.deep_view() =~= dv.skip(i + 1));
        }
        let ghost t0 = types.deep_view();
        types.push(nd.def);
        proof {
            assert(nd.def@ == dv[i].def);
            assert(types.deep_view() =~= t0.push(dv[i].def));
            assert(typedefs_of(dv.take(i + 1)) =~= typedefs_of(dv.take(i)).push(dv[i].def)) by {
                assert(dv.take(i + 1)[i] == dv[i]);
                assert(forall|k: int| 0 <= k < i ==> dv.take(i + 1)[k] == dv.take(i)[k]);
            }
            assert(types.deep_view() =~= typedefs_of(dv.take(i + 1)));
        }
    }
    proof {
        assert(dv.take(dv.len() as int) =~= dv);
        assert(rest.deep_view().len() == 0);
    }
    types
}

/// Scans for two type definitions that render to the same identifier; the
/// result carries the Pascal-cased name of the first later-colliding entry.
#[verifier::loop_isolation(false)]
fn find_duplicate_rendered(types: &Vec<TypeDef>) -> (r: Option<String>)
    ensures
        match r {
            Option::None => crate::ir::types_renderwise_unique(types.deep_view()),
            Option::Some(n) => exists|j: int|
                0 <= j < types.deep_view().len() && #[trigger] collides_with_earlier(
                    types.deep_view(),
                    j,
                ) && n@ == types.deep_view()[j].name() && crate::ir::types_renderwise_unique(
                    types.deep_view().take(j),
                ),
        },
{
    let ghost dv = types.deep_view();
    let mut rendered: Vec<String> = Vec::new();
    let mut j: usize = 0;
    while j < types.len()
        invariant
            0 <= j <= dv.len(),
            rendered@.len() == j,
            forall|k: int|
                0 <= k < j ==> (#[trigger] rendered@[k])@ == crate::sanitize::lower_camel_of(
                    dv[k].name(),
                ),
            forall|a: int, b: int|
                0 <= a < b < j ==> crate::sanitize::lower_camel_of((#[trigger] dv[a]).name())
                    != crate::sanitize::lower_camel_of((#[trigger] dv[b]).name()),
        decreases dv.len() - j,
    {
        let rj = crate::sanitize::to_lower_camel(types[j].name());
        let mut i: usize = 0;
        while i < rendered.len()
            invariant
                0 <= i <= j,
                rendered@.len() == j,
                rj@ == crate::sanitize::lower_camel_of(dv[j as int].name()),
                forall|k: int|
                    0 <= k < i ==> crate::sanitize::lower_camel_of((#[trigger] dv[k]).name())
                        != crate::sanitize::lower_camel_of(dv[j as int].name()),
            decreases j - i,
        {
            if str_eq(rendered[i].as_str(), rj.as_str()) {
                let n = types[j].name().to_owned();
                proof {
                    assert(crate::sanitize::lower_camel_of(dv[i as int].name())
                        == crate::sanitize::lower_camel_of(dv[j as int].name()));
                    assert(collides_with_earlier(dv, j as int));
                    assert(crate::ir::types_renderwise_unique(dv.take(j as int)));
                }
                return Option::Some(n);
            }
            i = i + 1;
        }
        rendered.push(rj);
        j = j + 1;
    }
    proof {
        assert(crate::ir::types_renderwise_unique(dv));
    }
    Option::None
}

/// Scans every record for two fields that sanitized to the same identifier;
/// the result carries the first repeated identifier.
#[verifier::loop_isolation(false)]
#[verifier::rlimit(100)]
fn find_duplicate_field(types: &Vec<TypeDef>) -> (r: Option<String>)
    ensures
        match r {
            Option::None => crate::ir::typedefs_fieldwise_unique(types.deep_view()),
            Option::Some(n) => has_field_dup(types.deep_view(), n@),
        },
{
    let ghost dv = types.deep_view();
    let mut t: usize = 0;
    while t < types.len()
        invariant
            0 <= t <= dv.len(),
            forall|k: int| 0 <= k < t ==> crate::ir::typedef_fields_unique(#[trigger] dv[k]),
        decreases dv.len() - t,
    {
        match &types[t] {
            TypeDef::Record { fields, .. } => {
                let ghost fv = fields.deep_view();
                proof {
                    assert(dv[t as int] == types@[t as int]@);
                    assert(dv[t as int] is Record);
                }
                let mut j: usize = 0;
                while j < fields.len()
                    invariant
                        0 <= j <= fv.len(),
                        fv == fields.deep_view(),
                        fv.len() == fields@.len(),
                        forall|a: int, b: int|
                            0 <= a < b < j ==> (#[trigger] fv[a]).name != (#[trigger] fv[b]).name,
                    decreases fv.len() - j,
                {
                    let mut i: usize = 0;
                    while i < j
                        invariant
                            0 <= i <= j,
                            j < fv.len(),
                            forall|a: int|
                                0 <= a < i ==> (#[trigger] fv[a]).name != fv[j as int].name,
                        decreases j - i,
                    {
                        if str_eq(fields[i].name.as_str(), fields[j].name.as_str()) {
                            let n = fields[j].name.clone();
                            proof {
                                assert(fv[i as int] == fields@[i as int]@);
                                assert(fv[j as int] == fields@[j as int]@);
                                assert(fv[i as int].name == fv[j as int].name);
                                assert(field_collides_with_earlier(fv, j as int));
                                assert(crate::ir::fields_namewise_unique(fv.take(j as int)));
                                assert(crate::ir::typedefs_fieldwise_unique(dv.take(t as int)));
                                assert(has_field_dup(types.deep_view(), n@)) by {
                                    assert(field_dup_witness(
                                        types.deep_view(),
                                        t as int,
                                        j as int,
                                        n@,
                                    ));
                                }
                            }
                            return Option::Some(n);
                        }
                        i = i + 1;
                    }
                    j = j + 1;
                }
                proof {
                    assert(crate::ir::fields_namewise_unique(fv));
                    assert(crate::ir::typedef_fields_unique(dv[t as int]));
                }
            },
            _ => {
                proof {
                    assert(dv[t as int] == types@[t as int]@);
                    assert(crate::ir::typedef_fields_unique(dv[t as int]));
                }
            },
        }
        t = t + 1;
    }
    Option::None
}

/// Scans for two endpoints that carry the same rendered operation
/// identifier; the result carries that identifier.
#[verifier::loop_isolation(false)]
fn find_duplicate_operation_id(endpoints: &Vec<crate::ir::Endpoint>) -> (r: Option<String>)
    ensures
        match r {
            Option::None => crate::ir::endpoints_idwise_unique(endpoints.deep_view()),
            Option::Some(n) => has_op_dup(endpoints.deep_view(), n@),
        },
{
    let ghost dv = endpoints.deep_view();
    let mut j: usize = 0;
    while j < endpoints.len()
        invariant
            0 <= j <= dv.len(),
            forall|a: int, b: int|
                0 <= a < b < j ==> (#[trigger] dv[a]).operation_id != (
                #[trigger] dv[b]).operation_id,
        decreases dv.len() - j,
    {
        let mut i: usize = 0;
        while i < j
            invariant
                0 <= i <= j,
                j < dv.len(),
                forall|a: int|
                    0 <= a < i ==> (#[trigger] dv[a]).operation_id != dv[j as int].operation_id,
            decreases j - i,
        {
            if str_eq(endpoints[i].operation_id.as_str(), endpoints[j].operation_id.as_str()) {
                let n = endpoints[j].operation_id.clone();
                proof {
                    assert(dv[i as int] == endpoints@[i as int]@);
                    assert(dv[j as int] == endpoints@[j as int]@);
                    assert(dv[i as int].operation_id == dv[j as int].operation_id);
                    assert(op_collides_with_earlier(dv, j as int));
                    assert(crate::ir::endpoints_idwise_unique(dv.take(j as int)));
                    assert(has_op_dup(endpoints.deep_view(), n@)) by {
                        assert(0 <= j < endpoints.deep_view().len()
                            && op_collides_with_earlier(endpoints.deep_view(), j as int)
                            && n@ == endpoints.deep_view()[j as int].operation_id
                            && crate::ir::endpoints_idwise_unique(
                            endpoints.deep_view().take(j as int),
                        ));
                    }
                }
                return Option::Some(n);
            }
            i = i + 1;
        }
        j = j + 1;
    }
    proof {
        assert(crate::ir::endpoints_idwise_unique(dv));
    }
    Option::None
}

/// Lowers a whole document into the IR. The run fails exactly when the
/// title or version is structurally absent, or when two identifiers that
/// must stay distinct render to one: two type names, two field names of one
/// record, or two operation identifiers. Nothing else fails, and no partial
/// IR is produced.
#[verifier::rlimit(100)]
pub fn lower(doc: &crate::document::Document) -> (r: Result<crate::ir::ApiSpec, LowerError>)
    ensures
        (r is Ok) <==> (doc.title is Some && doc.version is Some
            && crate::ir::types_renderwise_unique(typedefs_of(pass1_spec(doc.schemas@)))
            && crate::ir::typedefs_fieldwise_unique(typedefs_of(pass1_spec(doc.schemas@)))
            && crate::ir::endpoints_idwise_unique(endpoints_spec(doc.paths@))),
        match r {
            Result::Ok(spec) => {
                &&& spec@.title == doc.title->0@
                &&& spec@.version == doc.version->0@
                &&& spec@.description == doc.description.deep_view()
                &&& spec@.types == typedefs_of(pass1_spec(doc.schemas@))
                &&& spec@.endpoints == endpoints_spec(doc.paths@)
                &&& crate::ir::types_renderwise_unique(spec@.types)
                &&& crate::ir::typedefs_fieldwise_unique(spec@.types)
                &&& crate::ir::endpoints_idwise_unique(spec@.endpoints)
            },
            Result::Err(e) => match e {
                LowerError::MissingTitle => doc.title is None,
                LowerError::MissingVersion => doc.title is Some && doc.version is None,
                LowerError::DuplicateTypeName(n) => {
                    let types = typedefs_of(pass1_spec(doc.schemas@));
                    &&& doc.title is Some
                    &&& doc.version is Some
                    &&& exists|j: int|
                        0 <= j < types.len() && #[trigger] collides_with_earlier(types, j) && n@
                            == types[j].name() && crate::ir::types_renderwise_unique(types.take(j))
                },
                LowerError::DuplicateFieldName(n) => {
                    let types = typedefs_of(pass1_spec(doc.schemas@));
                    &&& doc.title is Some
                    &&& doc.version is Some
                    &&& crate::ir::types_renderwise_unique(types)
                    &&& has_field_dup(types, n@)
                },
                LowerError::DuplicateOperationId(n) => {
                    let types = typedefs_of(pass1_spec(doc.schemas@));
                    let endpoints = endpoints_spec(doc.paths@);
                    &&& doc.title is Some
                    &&& doc.version is Some
                    &&& crate::ir::types_renderwise_unique(types)
                    &&& crate::ir::typedefs_fieldwise_unique(types)
                    &&& has_op_dup(endpoints, n@)
                },
            },
        },
{
    let title = match &doc.title {
        Option::Some(t) => t.clone(),
        Option::None => {
            return Result::Err(LowerError::MissingTitle);
        },
    };
    let version = match &doc.version {
        Option::Some(v) => v.clone(),
        Option::None => {
            return Result::Err(LowerError::MissingVersion);
        },
    };
    let defs = pass1(&doc.schemas);
    let types = extract_types(defs);
    match find_duplicate_rendered(&types) {
        Option::Some(n) => {
            return Result::Err(LowerError::DuplicateTypeName(n));
        },
        Option::None => {},
    }
    match find_duplicate_field(&types) {
        Option::Some(n) => {
            proof {
                assert(has_field_dup(typedefs_of(pass1_spec(doc.schemas@)), n@));
            }
            return Result::Err(LowerError::DuplicateFieldName(n));
        },
        Option::None => {},
    }
    let endpoints = pass2(&doc.paths);
    match find_duplicate_operation_id(&endpoints) {
        Option::Some(n) => {
            proof {
                assert(has_op_dup(endpoints_spec(doc.paths@), n@));
            }
            return Result::Err(LowerError::DuplicateOperationId(n));
        },
        Option::None => {},
    }
    Result::Ok(
        crate::ir::ApiSpec {
            title: title,
            version: version,
            description: clone_opt_string(&doc.description),
            types: types,
            endpoints: endpoints,
        },
    )
}

// ---------------------------------------------------------------------------
// Optionality consistency
// ---------------------------------------------------------------------------

proof fn lemma_fields_optionality(props: Seq<(String, RefOr<Box<SchemaNode>>)>, required: Seq<String>)
    ensures
        crate::ir::fields_optionality_ok(fields_spec(props, required)),
    decreases props.len(),
{
    if props.len() > 0 {
        lemma_fields_optionality(props.drop_last(), required);
        lemma_resolver_never_optional(props.last().1);
        let prev = fields_spec(props.drop_last(), required);
        let f = field_spec(props.last().0, props.last().1, required);
        assert(f.optional <==> f.ty is Optional);
        assert forall|i: int| 0 <= i < prev.push(f).len() implies (
            (#[trigger] prev.push(f)[i]).optional <==> prev.push(f)[i].ty is Optional
        ) by {
            if i < prev.len() {
                assert(prev.push(f)[i] == prev[i]);
            } else {
                assert(prev.push(f)[i] == f);
            }
        }
    }
}

proof fn lemma_lower_schema_optionality(name: Seq<char>, schema: SchemaNode)
    ensures
        crate::ir::typedef_optionality_ok(lower_schema_spec(name, schema)),
{
    match schema.kind {
        SchemaKindNode::ObjectKind { properties, required } => {
            lemma_fields_optionality(properties@, required@);
        },
        _ => {},
    }
}

proof fn lemma_insert_optionality(s: Seq<NamedDefV>, nd: NamedDefV)
    requires
        forall|k: int| 0 <= k < s.len() ==> crate::ir::typedef_optionality_ok((#[trigger] s[k]).def),
        crate::ir::typedef_optionality_ok(nd.def),
    ensures
        forall|k: int|
            0 <= k < insert_sorted_v(s, nd).len() ==> crate::ir::typedef_optionality_ok(
                (#[trigger] insert_sorted_v(s, nd)[k]).def,
            ),
    decreases s.len(),
{
    if s.len() == 0 {
    } else if nd.key == s[0].key {
    } else if lex_lt(nd.key, s[0].key) {
    } else {
        assert(forall|k: int|
            0 <= k < s.drop_first().len() ==> crate::ir::typedef_optionality_ok(
                (#[trigger] s.drop_first()[k]).def,
            ));
        lemma_insert_optionality(s.drop_first(), nd);
    }
}

proof fn lemma_pass1_optionality(schemas: Seq<(String, RefOr<SchemaNode>)>)
    ensures
        forall|k: int|
            0 <= k < pass1_spec(schemas).len() ==> crate::ir::typedef_optionality_ok(
                (#[trigger] pass1_spec(schemas)[k]).def,
            ),
    decreases schemas.len(),
{
    if schemas.len() > 0 {
        lemma_pass1_optionality(schemas.drop_last());
        match schemas.last().1 {
            RefOr::Item(schema) => {
                lemma_lower_schema_optionality(schemas.last().0@, schema);
                lemma_insert_optionality(
                    pass1_spec(schemas.drop_last()),
                    NamedDefV {
                        key: schemas.last().0@,
                        def: lower_schema_spec(schemas.last().0@, schema),
                    },
                );
            },
            RefOr::Ref(_) => {},
        }
    }
}

/// Optionality consistency: in every type collection the lowering builds,
/// a field is optional exactly when its type is wrapped in the optional
/// constructor.
pub proof fn lemma_optionality_consistency(schemas: Seq<(String, RefOr<SchemaNode>)>)
    ensures
        crate::ir::typedefs_optionality_ok(typedefs_of(pass1_spec(schemas))),
{
    lemma_pass1_optionality(schemas);
    assert forall|i: int| 0 <= i < typedefs_of(pass1_spec(schemas)).len() implies
        crate::ir::typedef_optionality_ok(#[trigger] typedefs_of(pass1_spec(schemas))[i]) by {
        assert(typedefs_of(pass1_spec(schemas))[i] == pass1_spec(schemas)[i].def);
    }
}

} // verus!
