use vstd::prelude::*;
use vstd::string::StringExecFns;
use crate::ir::{ApiSpec, ApiSpecV};
use crate::render::{client_artifact, render_client, render_schema, render_types, schema_artifact,
    types_artifact};

verus! {

/// The configuration the generation consumes: the artifact naming prefix and
/// the two artifact toggles. Type declarations are always produced.
#[derive(Debug)]
pub struct Config {
    pub module_prefix: String,
    pub generate_schema: bool,
    pub generate_client: bool,
}

/// One generated artifact: its file name and its content.
#[derive(Debug)]
pub struct Artifact {
    pub filename: String,
    pub content: String,
}

pub struct ArtifactV {
    pub filename: Seq<char>,
    pub content: Seq<char>,
}

impl View for Artifact {
    type V = ArtifactV;

    open spec fn view(&self) -> ArtifactV {
        ArtifactV { filename: self.filename@, content: self.content@ }
    }
}

impl DeepView for Artifact {
    type V = ArtifactV;

    open spec fn deep_view(&self) -> ArtifactV {
        self.view()
    }
}

/// The artifact set of one generation run: the type declarations always,
/// the validators and the client when their toggles ask for them, each named
/// by the prefix plus its fixed suffix.
pub open spec fn artifacts_spec(
    api: ApiSpecV,
    prefix: Seq<char>,
    with_schema: bool,
    with_client: bool,
) -> Seq<ArtifactV> {
    seq![ArtifactV { filename: prefix + "Types.res"@, content: types_artifact(api) }] + (
    if with_schema {
        seq![ArtifactV { filename: prefix + "Schema.res"@, content: schema_artifact(api) }]
    } else {
        Seq::<ArtifactV>::empty()
    }) + (
    if with_client {
        seq![ArtifactV { filename: prefix + "Client.res"@, content: client_artifact(api) }]
    } else {
        Seq::<ArtifactV>::empty()
    })
}

/// Renders every requested artifact from the IR. Rendering is total: once a
/// valid IR exists, every requested artifact is produced.
pub fn generate(spec: &ApiSpec, config: &Config) -> (r: Vec<Artifact>)
    ensures
        r.deep_view() == artifacts_spec(
            spec@,
            config.module_prefix@,
            config.generate_schema,
            config.generate_client,
        ),
{
    let mut out: Vec<Artifact> = Vec::new();
    let mut types_name = config.module_prefix.clone();
    types_name.append("Types.res");
    let types_content = render_types(spec);
    out.push(Artifact { filename: types_name, content: types_content });
    if config.generate_schema {
        let mut schema_name = config.module_prefix.clone();
        schema_name.append("Schema.res");
        let schema_content = render_schema(spec);
        out.push(Artifact { filename: schema_name, content: schema_content });
    }
    if config.generate_client {
        let mut client_name = config.module_prefix.clone();
        client_name.append("Client.res");
        let client_content = render_client(spec);
        out.push(Artifact { filename: client_name, content: client_content });
    }
    proof {
        assert(out.deep_view() =~= artifacts_spec(
            spec@,
            config.module_prefix@,
            config.generate_schema,
            config.generate_client,
        ));
    }
    out
}

/// Determinism: the artifact set is a function of the IR and the
/// configuration alone, so repeated runs on an unchanged input produce
/// byte-identical artifacts.
pub proof fn lemma_generate_deterministic(
    r1: Seq<ArtifactV>,
    r2: Seq<ArtifactV>,
    api: ApiSpecV,
    prefix: Seq<char>,
    with_schema: bool,
    with_client: bool,
)
    requires
        r1 == artifacts_spec(api, prefix, with_schema, with_client),
        r2 == artifacts_spec(api, prefix, with_schema, with_client),
    ensures
        r1 == r2,
{
}

} // verus!
