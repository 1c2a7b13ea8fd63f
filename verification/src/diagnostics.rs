use vstd::prelude::*;
use vstd::string::StringExecFns;
use crate::document::{Document, OperationNode, PathItemNode, RefOr, SchemaKindNode, SchemaNode};
use crate::ir::{method_lower, HttpMethod};

verus! {

// ---------------------------------------------------------------------------
// Informational validation
// ---------------------------------------------------------------------------
//
// These diagnostics never alter generated output; they point at places where
// the lowering will synthesize or degrade.

/// How serious a diagnostic is.
#[derive(Debug, Clone, Copy, PartialEq, Eq, Structural)]
pub enum Severity {
    Error,
    Warning,
}

/// One diagnostic message, with the document location it speaks of.
#[derive(Debug)]
pub struct Diagnostic {
    pub severity: Severity,
    pub message: String,
    pub path: Option<String>,
}

pub struct DiagnosticV {
    pub severity: Severity,
    pub message: Seq<char>,
    pub path: Option<Seq<char>>,
}

impl View for Diagnostic {
    type V = DiagnosticV;

    open spec fn view(&self) -> DiagnosticV {
        DiagnosticV {
            severity: self.severity,
            message: self.message@,
            path: self.path.deep_view(),
        }
    }
}

impl DeepView for Diagnostic {
    type V = DiagnosticV;

    open spec fn deep_view(&self) -> DiagnosticV {
        self.view()
    }
}

/// One diagnostic line: the severity word, the message, and the location
/// where one is known.
pub open spec fn diagnostic_line(d: DiagnosticV) -> Seq<char> {
    (match d.severity {
        Severity::Error => "error"@,
        Severity::Warning => "warning"@,
    }) + ": "@ + d.message + match d.path {
        Option::Some(p) => " (at "@ + p + ")"@,
        Option::None => Seq::<char>::empty(),
    }
}

impl Diagnostic {
    /// Renders the diagnostic as one line of text.
    pub fn render_line(&self) -> (r: String)
        ensures
            r@ == diagnostic_line(self@),
    {
        let mut out = match self.severity {
            Severity::Error => "error".to_owned(),
            Severity::Warning => "warning".to_owned(),
        };
        out.append(": ");
        out.append(self.message.as_str());
        match &self.path {
            Option::Some(p) => {
                out.append(" (at ");
                out.append(p.as_str());
                out.append(")");
            },
            Option::None => {},
        }
        proof {
            assert(out@ =~= diagnostic_line(self@));
        }
        out
    }
}

/// The warning for an operation without a declared identifier.
pub open spec fn op_diag(path: Seq<char>, m: HttpMethod) -> DiagnosticV {
    DiagnosticV {
        severity: Severity::Warning,
        message: "Missing operationId for "@ + method_lower(m) + " "@ + path
            + " - will generate from path"@,
        path: Option::Some("paths."@ + path + "."@ + method_lower(m)),
    }
}

/// The warnings for the operations of one path, in document order.
pub open spec fn op_diags(path: Seq<char>, ops: Seq<(HttpMethod, OperationNode)>) -> Seq<
    DiagnosticV,
>
    decreases ops.len(),
{
    if ops.len() == 0 {
        Seq::empty()
    } else {
        op_diags(path, ops.drop_last()) + if ops.last().1.operation_id is None {
            seq![op_diag(path, ops.last().0)]
        } else {
            Seq::<DiagnosticV>::empty()
        }
    }
}

/// The operation warnings of the whole document.
pub open spec fn path_diags(paths: Seq<(String, RefOr<PathItemNode>)>) -> Seq<DiagnosticV>
    decreases paths.len(),
{
    if paths.len() == 0 {
        Seq::empty()
    } else {
        path_diags(paths.drop_last()) + match paths.last().1 {
            RefOr::Item(item) => op_diags(paths.last().0@, item.ops@),
            RefOr::Ref(_) => Seq::<DiagnosticV>::empty(),
        }
    }
}

/// The compatibility warnings for one named schema: union compositions get
/// a note about the variant they become.
pub open spec fn schema_diag(name: Seq<char>, schema: SchemaNode) -> Seq<DiagnosticV> {
    match schema.kind {
        SchemaKindNode::OneOfKind { .. } => seq![
            DiagnosticV {
                severity: Severity::Warning,
                message: "Schema '"@ + name + "' uses oneOf - will generate as variant type"@,
                path: Option::Some("components.schemas."@ + name),
            },
        ],
        SchemaKindNode::AnyOfKind => seq![
            DiagnosticV {
                severity: Severity::Warning,
                message: "Schema '"@ + name + "' uses anyOf - support is experimental"@,
                path: Option::Some("components.schemas."@ + name),
            },
        ],
        _ => Seq::empty(),
    }
}

/// The compatibility warnings of the whole components section.
pub open spec fn schema_diags(schemas: Seq<(String, RefOr<SchemaNode>)>) -> Seq<DiagnosticV>
    decreases schemas.len(),
{
    if schemas.len() == 0 {
        Seq::empty()
    } else {
        schema_diags(schemas.drop_last()) + match schemas.last().1 {
            RefOr::Item(schema) => schema_diag(schemas.last().0@, schema),
            RefOr::Ref(_) => Seq::<DiagnosticV>::empty(),
        }
    }
}

/// Every diagnostic of one document: operation warnings first, then schema
/// compatibility warnings.
pub open spec fn validate_spec(doc: Document) -> Seq<DiagnosticV> {
    path_diags(doc.paths@) + schema_diags(doc.schemas@)
}

proof fn lemma_op_diags_step(path: Seq<char>, ops: Seq<(HttpMethod, OperationNode)>, i: int)
    requires
        0 <= i < ops.len(),
    ensures
        op_diags(path, ops.take(i + 1)) == op_diags(path, ops.take(i)) + if ops[i].1.operation_id
            is None {
            seq![op_diag(path, ops[i].0)]
        } else {
            Seq::<DiagnosticV>::empty()
        },
{
    assert(ops.take(i + 1).drop_last() =~= ops.take(i));
    assert(ops.take(i + 1).last() == ops[i]);
}

proof fn lemma_path_diags_step(paths: Seq<(String, RefOr<PathItemNode>)>, i: int)
    requires
        0 <= i < paths.len(),
    ensures
        path_diags(paths.take(i + 1)) == path_diags(paths.take(i)) + match paths[i].1 {
            RefOr::Item(item) => op_diags(paths[i].0@, item.ops@),
            RefOr::Ref(_) => Seq::<DiagnosticV>::empty(),
        },
{
    assert(paths.take(i + 1).drop_last() =~= paths.take(i));
    assert(paths.take(i + 1).last() == paths[i]);
}

proof fn lemma_schema_diags_step(schemas: Seq<(String, RefOr<SchemaNode>)>, i: int)
    requires
        0 <= i < schemas.len(),
    ensures
        schema_diags(schemas.take(i + 1)) == schema_diags(schemas.take(i)) + match schemas[i].1 {
            RefOr::Item(schema) => schema_diag(schemas[i].0@, schema),
            RefOr::Ref(_) => Seq::<DiagnosticV>::empty(),
        },
{
    assert(schemas.take(i + 1).drop_last() =~= schemas.take(i));
    assert(schemas.take(i + 1).last() == schemas[i]);
}

/// Appends the compatibility warnings of one named schema.
pub fn check_schema_compatibility(
    name: &str,
    schema: &SchemaNode,
    diagnostics: &mut Vec<Diagnostic>,
)
    ensures
        final(diagnostics).deep_view() == old(diagnostics).deep_view() + schema_diag(
            name@,
            *schema,
        ),
{
    let ghost base = diagnostics.deep_view();
    match &schema.kind {
        SchemaKindNode::OneOfKind { .. } => {
            let mut message = "Schema '".to_owned();
            message.append(name);
            message.append("' uses oneOf - will generate as variant type");
            let mut loc = "components.schemas.".to_owned();
            loc.append(name);
            let d = Diagnostic {
                severity: Severity::Warning,
                message: message,
                path: Option::Some(loc),
            };
            diagnostics.push(d);
            proof {
                assert(diagnostics.deep_view() =~= base + schema_diag(name@, *schema));
            }
        },
        SchemaKindNode::AnyOfKind => {
            let mut message = "Schema '".to_owned();
            message.append(name);
            message.append("' uses anyOf - support is experimental");
            let mut loc = "components.schemas.".to_owned();
            loc.append(name);
            let d = Diagnostic {
                severity: Severity::Warning,
                message: message,
                path: Option::Some(loc),
            };
            diagnostics.push(d);
            proof {
                assert(diagnostics.deep_view() =~= base + schema_diag(name@, *schema));
            }
        },
        _ => {
            proof {
                assert(diagnostics.deep_view() =~= base + schema_diag(name@, *schema));
            }
        },
    }
}

/// Validates a document for generation compatibility: a warning for every
/// operation whose identifier will be synthesized, and one for every union
/// composition among the named schemas.
#[verifier::loop_isolation(false)]
#[verifier::rlimit(60)]
pub fn validate(doc: &Document) -> (r: Vec<Diagnostic>)
    ensures
        r.deep_view() == validate_spec(*doc),
{
    let mut diagnostics: Vec<Diagnostic> = Vec::new();
    let mut i: usize = 0;
    proof {
        assert(diagnostics.deep_view() =~= path_diags(doc.paths@.take(0)));
    }
    while i < doc.paths.len()
        invariant
            0 <= i <= doc.paths@.len(),
            diagnostics.deep_view() == path_diags(doc.paths@.take(i as int)),
        decreases doc.paths@.len() - i,
    {
        let pair = &doc.paths[i];
        match &pair.1 {
            RefOr::Item(item) => {
                let mut j: usize = 0;
                proof {
                    assert(diagnostics.deep_view() + op_diags(pair.0@, item.ops@.take(0))
                        =~= diagnostics.deep_view());
                }
                while j < item.ops.len()
                    invariant
                        0 <= j <= item.ops@.len(),
                        diagnostics.deep_view() == path_diags(doc.paths@.take(i as int)) + op_diags(
                            pair.0@,
                            item.ops@.take(j as int),
                        ),
                        0 <= i < doc.paths@.len(),
                        doc.paths@[i as int].1 == RefOr::<PathItemNode>::Item(*item),
                        pair.0 == doc.paths@[i as int].0,
                    decreases item.ops@.len() - j,
                {
                    let op_pair = &item.ops[j];
                    if op_pair.1.operation_id.is_none() {
                        let mut message = "Missing operationId for ".to_owned();
                        message.append(op_pair.0.lower_name());
                        message.append(" ");
                        message.append(pair.0.as_str());
                        message.append(" - will generate from path");
                        let mut loc = "paths.".to_owned();
                        loc.append(pair.0.as_str());
                        loc.append(".");
                        loc.append(op_pair.0.lower_name());
                        let d = Diagnostic {
                            severity: Severity::Warning,
                            message: message,
                            path: Option::Some(loc),
                        };
                        proof {
                            assert(d@ == op_diag(pair.0@, item.ops@[j as int].0));
                        }
                        let ghost dv0 = diagnostics.deep_view();
                        let ghost dview = d@;
                        diagnostics.push(d);
                        proof {
                            assert(diagnostics.deep_view() =~= dv0.push(dview));
                        }
                    }
                    proof {
                        lemma_op_diags_step(pair.0@, item.ops@, j as int);
                        assert(diagnostics.deep_view() =~= path_diags(doc.paths@.take(i as int))
                            + op_diags(pair.0@, item.ops@.take(j + 1)));
                    }
                    j = j + 1;
                }
                proof {
                    assert(item.ops@.take(item.ops@.len() as int) =~= item.ops@);
                }
            },
            RefOr::Ref(_) => {},
        }
        proof {
            lemma_path_diags_step(doc.paths@, i as int);
            assert(diagnostics.deep_view() =~= path_diags(doc.paths@.take(i + 1)));
        }
        i = i + 1;
    }
    proof {
        assert(doc.paths@.take(doc.paths@.len() as int) =~= doc.paths@);
    }
    let ghost mid = diagnostics.deep_view();
    let mut k: usize = 0;
    proof {
        assert(diagnostics.deep_view() =~= mid + schema_diags(doc.schemas@.take(0)));
    }
    while k < doc.schemas.len()
        invariant
            0 <= k <= doc.schemas@.len(),
            diagnostics.deep_view() == mid + schema_diags(doc.schemas@.take(k as int)),
        decreases doc.schemas@.len() - k,
    {
        let pair = &doc.schemas[k];
        match &pair.1 {
            RefOr::Item(schema) => {
                check_schema_compatibility(pair.0.as_str(), schema, &mut diagnostics);
            },
            RefOr::Ref(_) => {},
        }
        proof {
            lemma_schema_diags_step(doc.schemas@, k as int);
            assert(diagnostics.deep_view() =~= mid + schema_diags(doc.schemas@.take(k + 1)));
        }
        k = k + 1;
    }
    proof {
        assert(doc.schemas@.take(doc.schemas@.len() as int) =~= doc.schemas@);
        assert(diagnostics.deep_view() =~= validate_spec(*doc));
    }
    diagnostics
}

} // verus!
