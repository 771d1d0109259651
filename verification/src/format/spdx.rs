//! The SPDX-subset embedding format: a small fixed selection of the
//! SPDX 3.0.1 JSON-LD shapes, the builders that assemble a document
//! from a dependency tree and a source-file list, the canonical JSON
//! writer, and the parser that reads back the document texts those
//! builders write.

use vstd::prelude::*;
use crate::text::{has_prefix, lemma_skip_skip};
use crate::format::json::{json_escaped, sp_jstr, push_json_escaped, parse_json_string_body};
use crate::format::deps_file::{EsstraDepsData, DepsView, deps_view_of, deps_view_seq};
use crate::format::{line_len, strip_cr, lemma_line_len_at};
use crate::format::yaml::{SourceInput, SourceInputView, inputs_view};

verus! {

broadcast use vstd::std_specs::vec::group_vec_axioms;

/// The one context this subset knows.
#[derive(Debug)]
pub enum SpdxGlobalContext {
    V3_0_1,
}

/// One embedded document: the context and the element graph.
#[derive(Debug)]
pub struct SpdxV3Root {
    pub context: SpdxGlobalContext,
    pub graph: Vec<SpdxV3AnyClass>,
}

/// The node kinds this subset uses in the graph.
#[derive(Debug)]
pub enum SpdxV3AnyClass {
    Tool { spdx_id: IRI, props: ElementProps },
    SoftwareFile { props: SoftwareFileProps },
    SoftwareContentIdentifier { props: SoftwareContentIdentifierProps },
    SoftwarePackage { props: SoftwarePackageProps },
}

/// An element identifier.
#[derive(Debug)]
pub struct IRI(pub String);

/// Provenance of an element: either a creation record or a reference to
/// one.
#[derive(Debug)]
pub enum CreationInfo {
    CreationInfo { id: IRI, props: CreationInfoProps },
    IRI(IRI),
}

#[derive(Debug)]
pub struct CreationInfoProps {
    pub created: String,
    pub created_by: Vec<Agent>,
}

/// The fields shared by every element.
#[derive(Debug)]
pub struct ElementProps {
    pub name: Option<String>,
    pub creation_info: CreationInfo,
    pub verified_using: Option<Vec<IntegrityMethod>>,
}

#[derive(Debug)]
pub enum IntegrityMethod {
    Hash(Hash),
}

#[derive(Debug)]
pub enum Hash {
    Sha1 { hash_value: String },
}

#[derive(Debug)]
pub struct ArtifactProps {
    pub props: ElementProps,
}

#[derive(Debug)]
pub struct SoftwareFileProps {
    pub artifact_props: SoftwareArtifactProps,
}

#[derive(Debug)]
pub struct SoftwareArtifactProps {
    pub props: ArtifactProps,
}

#[derive(Debug)]
pub enum SoftwareContentIdentifier {
    ContentIdentifier(SoftwareContentIdentifierProps),
}

#[derive(Debug)]
pub struct SoftwareContentIdentifierProps {
    pub value: SoftwareContentIdentifierValue,
}

#[derive(Debug)]
pub struct SoftwarePackageProps {
    pub props: SoftwareArtifactProps,
    pub version: String,
}

#[derive(Debug)]
pub struct SoftwareContentIdentifierValue(pub AnyUri);

#[derive(Debug)]
pub struct AnyUri(pub String);

/// The agents this subset knows: creating organizations.
#[derive(Debug)]
pub enum Agent {
    Organization { spdx_id: IRI, props: ElementProps },
}

impl Default for IRI {
    /// An empty identifier.
    fn default() -> (r: IRI)
        ensures
            r.0@ == Seq::<char>::empty(),
    {
        IRI(String::new())
    }
}

#[verifier::ext_equal]
pub struct ElementView {
    pub name: Option<Seq<char>>,
    pub creation_info: CreationInfoView,
    pub verified_using: Option<Seq<Seq<char>>>,
}

#[verifier::ext_equal]
pub enum CreationInfoView {
    Obj { id: Seq<char>, created: Seq<char>, created_by: Seq<AgentView> },
    Ref(Seq<char>),
}

#[verifier::ext_equal]
pub struct AgentView {
    pub spdx_id: Seq<char>,
    pub props: ElementView,
}

#[verifier::ext_equal]
pub enum SpdxNodeView {
    Tool { spdx_id: Seq<char>, props: ElementView },
    File { props: ElementView },
    ContentId { value: Seq<char> },
    Package { props: ElementView, version: Seq<char> },
}

#[verifier::ext_equal]
pub struct SpdxRootView {
    pub graph: Seq<SpdxNodeView>,
}

pub open spec fn hash_view(m: IntegrityMethod) -> Seq<char> {
    match m {
        IntegrityMethod::Hash(h) => match h { Hash::Sha1 { hash_value } => hash_value@ },
    }
}

pub open spec fn hash_views(s: Seq<IntegrityMethod>) -> Seq<Seq<char>> {
    Seq::new(s.len(), |i: int| hash_view(s[i]))
}

pub open spec fn elem_view(e: ElementProps) -> ElementView
    decreases e,
{
    ElementView {
        name: match e.name {
            Some(n) => Some(n@),
            None => None,
        },
        creation_info: ci_view(e.creation_info),
        verified_using: match e.verified_using {
            Some(v) => Some(hash_views(v@)),
            None => None,
        },
    }
}

pub open spec fn ci_view(c: CreationInfo) -> CreationInfoView
    decreases c,
{
    match c {
        CreationInfo::CreationInfo { id, props } => CreationInfoView::Obj {
            id: id.0@,
            created: props.created@,
            created_by: agent_views(props.created_by@),
        },
        CreationInfo::IRI(i) => CreationInfoView::Ref(i.0@),
    }
}

pub open spec fn agent_views(s: Seq<Agent>) -> Seq<AgentView>
    decreases s,
{
    if s.len() == 0 {
        Seq::empty()
    } else {
        seq![agent_view(s[0])] + agent_views(s.drop_first())
    }
}

pub open spec fn agent_view(a: Agent) -> AgentView
    decreases a,
{
    match a {
        Agent::Organization { spdx_id, props } => AgentView {
            spdx_id: spdx_id.0@,
            props: elem_view(props),
        },
    }
}

pub open spec fn node_view(n: SpdxV3AnyClass) -> SpdxNodeView {
    match n {
        SpdxV3AnyClass::Tool { spdx_id, props } => SpdxNodeView::Tool {
            spdx_id: spdx_id.0@,
            props: elem_view(props),
        },
        SpdxV3AnyClass::SoftwareFile { props } => SpdxNodeView::File {
            props: elem_view(props.artifact_props.props.props),
        },
        SpdxV3AnyClass::SoftwareContentIdentifier { props } => SpdxNodeView::ContentId {
            value: props.value.0.0@,
        },
        SpdxV3AnyClass::SoftwarePackage { props } => SpdxNodeView::Package {
            props: elem_view(props.props.props.props),
            version: props.version@,
        },
    }
}

pub open spec fn node_views(s: Seq<SpdxV3AnyClass>) -> Seq<SpdxNodeView> {
    Seq::new(s.len(), |i: int| node_view(s[i]))
}

impl View for SpdxV3Root {
    type V = SpdxRootView;

    open spec fn view(&self) -> SpdxRootView {
        SpdxRootView { graph: node_views(self.graph@) }
    }
}

/// The fixed document shell: one Tool element for this tool, created by
/// its organization.
pub open spec fn spec_default_spdx_view() -> SpdxRootView {
    SpdxRootView {
        graph: seq![
            SpdxNodeView::Tool {
                spdx_id: "https://github.com/sony/esstra/tree/main"@,
                props: ElementView {
                    name: Some(crate::format::ESSTRA_TOOL_NAME@),
                    creation_info: CreationInfoView::Obj {
                        id: "https://github.com/sony/esstra/blob/main/LICENSE"@,
                        created: Seq::empty(),
                        created_by: seq![
                            AgentView {
                                spdx_id: Seq::empty(),
                                props: ElementView {
                                    name: Some("Sony Group Corporation"@),
                                    creation_info: CreationInfoView::Ref(Seq::empty()),
                                    verified_using: None,
                                },
                            },
                        ],
                    },
                    verified_using: None,
                },
            },
        ],
    }
}

/// Build the fixed document shell.
pub fn esstra_default_spdx_format() -> (r: SpdxV3Root)
    ensures
        r@ == spec_default_spdx_view(),
{
    let org = Agent::Organization {
        spdx_id: IRI::default(),
        props: ElementProps {
            name: Some(String::from_str("Sony Group Corporation")),
            creation_info: CreationInfo::IRI(IRI::default()),
            verified_using: None,
        },
    };
    let ghost orgv = org;
    let mut created_by: Vec<Agent> = Vec::new();
    created_by.push(org);
    let ghost cbv = created_by@;
    proof {
        assert(cbv =~= seq![orgv]);
        assert(cbv.drop_first() =~= Seq::<Agent>::empty());
        assert(agent_views(Seq::<Agent>::empty()) == Seq::<AgentView>::empty());
        assert(agent_views(cbv) == seq![agent_view(orgv)] + Seq::<AgentView>::empty());
        assert(agent_views(cbv) =~= seq![agent_view(orgv)]);
    }
    let tool = SpdxV3AnyClass::Tool {
        spdx_id: IRI(String::from_str("https://github.com/sony/esstra/tree/main")),
        props: ElementProps {
            name: Some(String::from_str(crate::format::ESSTRA_TOOL_NAME)),
            creation_info: CreationInfo::CreationInfo {
                id: IRI(String::from_str("https://github.com/sony/esstra/blob/main/LICENSE")),
                props: CreationInfoProps { created: String::new(), created_by },
            },
            verified_using: None,
        },
    };
    let ghost toolv = tool;
    let mut graph: Vec<SpdxV3AnyClass> = Vec::new();
    graph.push(tool);
    let r = SpdxV3Root { context: SpdxGlobalContext::V3_0_1, graph };
    proof {
        assert(r.graph@ =~= seq![toolv]);
        assert(node_views(r.graph@) =~= seq![node_view(toolv)]);
        assert(node_view(toolv) =~~= spec_default_spdx_view().graph[0]);
        assert(r@.graph =~~= spec_default_spdx_view().graph);
        assert(r@ =~~= spec_default_spdx_view());
    }
    r
}

/// The package nodes for one dependency record: the record itself, then
/// its subtrees, in preorder, duplicates kept as they occur.
pub open spec fn spec_spdx_of_deps(d: DepsView) -> Seq<SpdxNodeView>
    decreases d, 1int,
{
    seq![
        SpdxNodeView::Package {
            props: ElementView {
                name: Some(d.name),
                creation_info: CreationInfoView::Ref(Seq::empty()),
                verified_using: None,
            },
            version: d.version,
        },
    ] + spec_spdx_of_deps_seq(d.deps)
}

pub open spec fn spec_spdx_of_deps_seq(ds: Seq<DepsView>) -> Seq<SpdxNodeView>
    decreases ds, 0int,
{
    if ds.len() == 0 {
        Seq::empty()
    } else {
        spec_spdx_of_deps(ds[0]) + spec_spdx_of_deps_seq(ds.drop_first())
    }
}

/// Flatten one dependency record into package nodes, preorder, keeping
/// every duplicate occurrence.
pub fn get_spdx_recursive(data: EsstraDepsData) -> (r: Vec<SpdxV3AnyClass>)
    ensures
        node_views(r@) == spec_spdx_of_deps(data@),
{
    spdx_nodes_of_deps(&data)
}

fn spdx_nodes_of_deps(d: &EsstraDepsData) -> (r: Vec<SpdxV3AnyClass>)
    ensures
        node_views(r@) == spec_spdx_of_deps(d@),
    decreases *d,
{
    let ghost pkg = SpdxNodeView::Package {
        props: ElementView {
            name: Some(d@.name),
            creation_info: CreationInfoView::Ref(Seq::empty()),
            verified_using: None,
        },
        version: d@.version,
    };
    let mut r: Vec<SpdxV3AnyClass> = Vec::new();
    r.push(
        SpdxV3AnyClass::SoftwarePackage {
            props: SoftwarePackageProps {
                version: d.version.clone(),
                props: SoftwareArtifactProps {
                    props: ArtifactProps {
                        props: ElementProps {
                            name: Some(d.name.clone()),
                            creation_info: CreationInfo::IRI(IRI::default()),
                            verified_using: None,
                        },
                    },
                },
            },
        },
    );
    let ghost dviews = deps_view_seq(d.deps@);
    proof {
        crate::format::deps_file::lemma_view_seq_len(d.deps@);
        assert(node_views(r@) =~= seq![pkg]);
        assert(dviews.take(0) =~= Seq::<DepsView>::empty());
        assert(node_views(r@) =~= seq![pkg] + spec_spdx_of_deps_seq(dviews.take(0)));
    }
    let n = d.deps.len();
    let mut k: usize = 0;
    while k < n
        invariant
            n == d.deps@.len(),
            k <= n,
            dviews == deps_view_seq(d.deps@),
            dviews.len() == n,
            node_views(r@) == seq![pkg] + spec_spdx_of_deps_seq(dviews.take(k as int)),
        decreases n - k,
    {
        let mut sub = spdx_nodes_of_deps(&d.deps[k]);
        let ghost rv = node_views(r@);
        let ghost sv = node_views(sub@);
        r.append(&mut sub);
        proof {
            assert(node_views(r@) =~= rv + sv);
            lemma_view_seq_index(d.deps@, k as int);
            assert(dviews[k as int] == d.deps@[k as int]@);
            lemma_spdx_seq_push(dviews.take(k as int), dviews[k as int]);
            assert(dviews.take(k + 1) =~= dviews.take(k as int).push(dviews[k as int]));
            assert((seq![pkg] + spec_spdx_of_deps_seq(dviews.take(k as int))) + sv =~= seq![pkg]
                + (spec_spdx_of_deps_seq(dviews.take(k as int)) + sv));
        }
        k += 1;
    }
    proof {
        assert(dviews.take(n as int) =~= dviews);
        assert(spec_spdx_of_deps(d@) == seq![pkg] + spec_spdx_of_deps_seq(d@.deps));
        assert(d@.deps == dviews);
    }
    r
}

/// Flattening a record list, one record at a time.
proof fn lemma_spdx_seq_push(ds: Seq<DepsView>, x: DepsView)
    ensures
        spec_spdx_of_deps_seq(ds.push(x)) == spec_spdx_of_deps_seq(ds) + spec_spdx_of_deps(x),
    decreases ds.len(),
{
    if ds.len() == 0 {
        assert(ds.push(x)[0] == x);
        assert(ds.push(x).drop_first() =~= Seq::<DepsView>::empty());
        assert(spec_spdx_of_deps_seq(ds.push(x).drop_first()) == Seq::<SpdxNodeView>::empty());
        assert(spec_spdx_of_deps_seq(ds) == Seq::<SpdxNodeView>::empty());
        assert(spec_spdx_of_deps_seq(ds.push(x)) =~= spec_spdx_of_deps_seq(ds)
            + spec_spdx_of_deps(x));
    } else {
        assert(ds.push(x)[0] == ds[0]);
        assert(ds.push(x).drop_first() =~= ds.drop_first().push(x));
        lemma_spdx_seq_push(ds.drop_first(), x);
        assert(spec_spdx_of_deps_seq(ds.push(x)) =~= spec_spdx_of_deps_seq(ds)
            + spec_spdx_of_deps(x));
    }
}

/// The views of a record sequence, suffix by suffix.
proof fn lemma_view_seq_skip(s: Seq<EsstraDepsData>, k: int)
    requires
        0 <= k <= s.len(),
    ensures
        deps_view_seq(s).skip(k) =~= deps_view_seq(s.skip(k)),
        deps_view_seq(s).len() == s.len(),
    decreases s.len(),
{
    crate::format::deps_file::lemma_view_seq_len(s);
    crate::format::deps_file::lemma_view_seq_len(s.skip(k));
    assert forall|i: int| 0 <= i < s.len() implies #[trigger] deps_view_seq(s)[i] == deps_view_of(
        s[i],
    ) by {
        lemma_view_seq_index(s, i);
    }
    assert forall|i: int| 0 <= i < s.len() - k implies #[trigger] deps_view_seq(s.skip(k))[i]
        == deps_view_of(s.skip(k)[i]) by {
        lemma_view_seq_index(s.skip(k), i);
    }
}

proof fn lemma_view_seq_index(s: Seq<EsstraDepsData>, i: int)
    requires
        0 <= i < s.len(),
    ensures
        deps_view_seq(s)[i] == deps_view_of(s[i]),
    decreases i,
{
    crate::format::deps_file::lemma_view_seq_len(s.drop_first());
    if i > 0 {
        lemma_view_seq_index(s.drop_first(), i - 1);
        assert(s.drop_first()[i - 1] == s[i]);
    }
}


pub open spec fn lit_w_root_open() -> Seq<char> {
    seq!['{', '"', '@', 'c', 'o', 'n', 't', 'e', 'x', 't', '"', ':', '"', 'h', 't', 't', 'p', 's', ':', '/', '/', 's', 'p', 'd', 'x', '.', 'o', 'r', 'g', '/', 'r', 'd', 'f', '/', '3', '.', '0', '.', '1', '/', 's', 'p', 'd', 'x', '-', 'c', 'o', 'n', 't', 'e', 'x', 't', '.', 'j', 's', 'o', 'n', 'l', 'd', '"', ',', '"', '@', 'g', 'r', 'a', 'p', 'h', '"', ':', '[']
}

pub open spec fn lit_w_bb() -> Seq<char> {
    seq![']', '}']
}

pub open spec fn lit_w_tool_open() -> Seq<char> {
    seq!['{', '"', 't', 'y', 'p', 'e', '"', ':', '"', 'T', 'o', 'o', 'l', '"', ',', '"', 's', 'p', 'd', 'x', 'I', 'd', '"', ':', '"']
}

pub open spec fn lit_w_file_open() -> Seq<char> {
    seq!['{', '"', 't', 'y', 'p', 'e', '"', ':', '"', 's', 'o', 'f', 't', 'w', 'a', 'r', 'e', '_', 'F', 'i', 'l', 'e', '"']
}

pub open spec fn lit_w_sci_open() -> Seq<char> {
    seq!['{', '"', 't', 'y', 'p', 'e', '"', ':', '"', 's', 'o', 'f', 't', 'w', 'a', 'r', 'e', '_', 'C', 'o', 'n', 't', 'e', 'n', 't', 'I', 'd', 'e', 'n', 't', 'i', 'f', 'i', 'e', 'r', '"', ',', '"', 's', 'o', 'f', 't', 'w', 'a', 'r', 'e', '_', 'c', 'o', 'n', 't', 'e', 'n', 't', 'I', 'd', 'e', 'n', 't', 'i', 'f', 'i', 'e', 'r', 'V', 'a', 'l', 'u', 'e', '"', ':', '"']
}

pub open spec fn lit_w_pkg_open() -> Seq<char> {
    seq!['{', '"', 't', 'y', 'p', 'e', '"', ':', '"', 's', 'o', 'f', 't', 'w', 'a', 'r', 'e', '_', 'P', 'a', 'c', 'k', 'a', 'g', 'e', '"']
}

pub open spec fn lit_w_pkg_ver() -> Seq<char> {
    seq![',', '"', 's', 'o', 'f', 't', 'w', 'a', 'r', 'e', '_', 'p', 'a', 'c', 'k', 'a', 'g', 'e', 'V', 'e', 'r', 's', 'i', 'o', 'n', '"', ':', '"']
}

pub open spec fn lit_w_name() -> Seq<char> {
    seq![',', '"', 'n', 'a', 'm', 'e', '"', ':', '"']
}

pub open spec fn lit_w_ci() -> Seq<char> {
    seq![',', '"', 'c', 'r', 'e', 'a', 't', 'i', 'o', 'n', 'I', 'n', 'f', 'o', '"', ':']
}

pub open spec fn lit_w_vu() -> Seq<char> {
    seq![',', '"', 'v', 'e', 'r', 'i', 'f', 'i', 'e', 'd', 'U', 's', 'i', 'n', 'g', '"', ':', '[']
}

pub open spec fn lit_w_ci_open() -> Seq<char> {
    seq!['{', '"', 't', 'y', 'p', 'e', '"', ':', '"', 'C', 'r', 'e', 'a', 't', 'i', 'o', 'n', 'I', 'n', 'f', 'o', '"', ',', '"', '@', 'i', 'd', '"', ':', '"']
}

pub open spec fn lit_w_created() -> Seq<char> {
    seq!['"', ',', '"', 'c', 'r', 'e', 'a', 't', 'e', 'd', '"', ':', '"']
}

pub open spec fn lit_w_createdby() -> Seq<char> {
    seq!['"', ',', '"', 'c', 'r', 'e', 'a', 't', 'e', 'd', 'B', 'y', '"', ':', '[']
}

pub open spec fn lit_w_org_open() -> Seq<char> {
    seq!['{', '"', 't', 'y', 'p', 'e', '"', ':', '"', 'O', 'r', 'g', 'a', 'n', 'i', 'z', 'a', 't', 'i', 'o', 'n', '"', ',', '"', 's', 'p', 'd', 'x', 'I', 'd', '"', ':', '"']
}

pub open spec fn lit_w_hash_open() -> Seq<char> {
    seq!['{', '"', 't', 'y', 'p', 'e', '"', ':', '"', 'H', 'a', 's', 'h', '"', ',', '"', 'a', 'l', 'g', 'o', 'r', 'i', 't', 'h', 'm', '"', ':', '"', 'S', 'H', 'A', '1', '"', ',', '"', 'h', 'a', 's', 'h', 'V', 'a', 'l', 'u', 'e', '"', ':', '"']
}

pub open spec fn lit_w_qb() -> Seq<char> {
    seq!['"', '}']
}


/// The canonical JSON text of one integrity hash.
pub open spec fn sj_hash(h: Seq<char>) -> Seq<char> {
    lit_w_hash_open() + (json_escaped(h) + lit_w_qb())
}

pub open spec fn sj_hashes(hs: Seq<Seq<char>>) -> Seq<char>
    decreases hs.len(),
{
    if hs.len() == 0 {
        Seq::empty()
    } else {
        sj_hash(hs[0]) + sj_hashes_rest(hs.drop_first())
    }
}

pub open spec fn sj_hashes_rest(hs: Seq<Seq<char>>) -> Seq<char>
    decreases hs.len(),
{
    if hs.len() == 0 {
        Seq::empty()
    } else {
        seq![','] + (sj_hash(hs[0]) + sj_hashes_rest(hs.drop_first()))
    }
}

/// The canonical JSON text of the shared element fields, as they follow
/// a node's or agent's leading fields.
pub open spec fn sj_elemtail(e: ElementView) -> Seq<char>
    decreases e,
{
    (match e.name {
        Some(n) => lit_w_name() + (json_escaped(n) + seq!['"']),
        None => Seq::empty(),
    }) + (lit_w_ci() + sj_ci(e.creation_info)) + (match e.verified_using {
        Some(hs) => lit_w_vu() + (sj_hashes(hs) + seq![']']),
        None => Seq::empty(),
    })
}

pub open spec fn sj_ci(c: CreationInfoView) -> Seq<char>
    decreases c,
{
    match c {
        CreationInfoView::Ref(i) => seq!['"'] + (json_escaped(i) + seq!['"']),
        CreationInfoView::Obj { id, created, created_by } => lit_w_ci_open() + (json_escaped(id)
            + (lit_w_created() + (json_escaped(created) + (lit_w_createdby() + (sj_agents(
            created_by,
        ) + lit_w_bb()))))),
    }
}

pub open spec fn sj_agent(a: AgentView) -> Seq<char>
    decreases a,
{
    lit_w_org_open() + (json_escaped(a.spdx_id) + (seq!['"'] + (sj_elemtail(a.props)
        + seq!['}'])))
}

pub open spec fn sj_agents(s: Seq<AgentView>) -> Seq<char>
    decreases s,
{
    if s.len() == 0 {
        Seq::empty()
    } else {
        sj_agent(s[0]) + sj_agents_rest(s.drop_first())
    }
}

pub open spec fn sj_agents_rest(s: Seq<AgentView>) -> Seq<char>
    decreases s,
{
    if s.len() == 0 {
        Seq::empty()
    } else {
        seq![','] + (sj_agent(s[0]) + sj_agents_rest(s.drop_first()))
    }
}

/// The canonical JSON text of one graph node.
pub open spec fn sj_node(n: SpdxNodeView) -> Seq<char>
    decreases n,
{
    match n {
        SpdxNodeView::Tool { spdx_id, props } => lit_w_tool_open() + (json_escaped(spdx_id) + (
        seq!['"'] + (sj_elemtail(props) + seq!['}']))),
        SpdxNodeView::File { props } => lit_w_file_open() + (sj_elemtail(props) + seq!['}']),
        SpdxNodeView::ContentId { value } => lit_w_sci_open() + (json_escaped(value)
            + lit_w_qb()),
        SpdxNodeView::Package { props, version } => lit_w_pkg_open() + (sj_elemtail(props) + (
        lit_w_pkg_ver() + (json_escaped(version) + lit_w_qb()))),
    }
}

pub open spec fn sj_nodes(s: Seq<SpdxNodeView>) -> Seq<char>
    decreases s,
{
    if s.len() == 0 {
        Seq::empty()
    } else {
        sj_node(s[0]) + sj_nodes_rest(s.drop_first())
    }
}

pub open spec fn sj_nodes_rest(s: Seq<SpdxNodeView>) -> Seq<char>
    decreases s,
{
    if s.len() == 0 {
        Seq::empty()
    } else {
        seq![','] + (sj_node(s[0]) + sj_nodes_rest(s.drop_first()))
    }
}

/// The canonical JSON text of a whole document.
pub open spec fn spec_spdx_json(r: SpdxRootView) -> Seq<char> {
    lit_w_root_open() + (sj_nodes(r.graph) + lit_w_bb())
}

proof fn lemma_sj_hashes_rest_push(hs: Seq<Seq<char>>, h: Seq<char>)
    ensures
        sj_hashes_rest(hs.push(h)) == sj_hashes_rest(hs) + (seq![','] + sj_hash(h)),
    decreases hs.len(),
{
    if hs.len() == 0 {
        assert(hs.push(h)[0] == h);
        assert(hs.push(h).drop_first() =~= Seq::<Seq<char>>::empty());
        assert(sj_hashes_rest(hs.push(h).drop_first()) == Seq::<char>::empty());
        assert(sj_hashes_rest(hs.push(h)) =~= sj_hashes_rest(hs) + (seq![','] + sj_hash(h)));
    } else {
        assert(hs.push(h)[0] == hs[0]);
        assert(hs.push(h).drop_first() =~= hs.drop_first().push(h));
        lemma_sj_hashes_rest_push(hs.drop_first(), h);
        crate::text::seq_add_assoc(seq![','], sj_hash(hs[0]), sj_hashes_rest(hs.drop_first()));
        assert(sj_hashes_rest(hs.push(h)) =~= sj_hashes_rest(hs) + (seq![','] + sj_hash(h)));
    }
}

proof fn lemma_sj_hashes_push(hs: Seq<Seq<char>>, h: Seq<char>)
    ensures
        sj_hashes(hs.push(h)) == if hs.len() == 0 {
            sj_hash(h)
        } else {
            sj_hashes(hs) + (seq![','] + sj_hash(h))
        },
{
    if hs.len() == 0 {
        assert(hs.push(h)[0] == h);
        assert(hs.push(h).drop_first() =~= Seq::<Seq<char>>::empty());
        assert(sj_hashes(hs.push(h)) =~= sj_hash(h));
    } else {
        assert(hs.push(h)[0] == hs[0]);
        assert(hs.push(h).drop_first() =~= hs.drop_first().push(h));
        lemma_sj_hashes_rest_push(hs.drop_first(), h);
        crate::text::seq_add_assoc(
            sj_hash(hs[0]),
            sj_hashes_rest(hs.drop_first()),
            seq![','] + sj_hash(h),
        );
    }
}

proof fn lemma_sj_agents_rest_push(s: Seq<AgentView>, a: AgentView)
    ensures
        sj_agents_rest(s.push(a)) == sj_agents_rest(s) + (seq![','] + sj_agent(a)),
    decreases s.len(),
{
    if s.len() == 0 {
        assert(s.push(a)[0] == a);
        assert(s.push(a).drop_first() =~= Seq::<AgentView>::empty());
        assert(sj_agents_rest(s.push(a).drop_first()) == Seq::<char>::empty());
        assert(sj_agents_rest(s.push(a)) =~= sj_agents_rest(s) + (seq![','] + sj_agent(a)));
    } else {
        assert(s.push(a)[0] == s[0]);
        assert(s.push(a).drop_first() =~= s.drop_first().push(a));
        lemma_sj_agents_rest_push(s.drop_first(), a);
        crate::text::seq_add_assoc(seq![','], sj_agent(s[0]), sj_agents_rest(s.drop_first()));
        assert(sj_agents_rest(s.push(a)) =~= sj_agents_rest(s) + (seq![','] + sj_agent(a)));
    }
}

proof fn lemma_sj_agents_push(s: Seq<AgentView>, a: AgentView)
    ensures
        sj_agents(s.push(a)) == if s.len() == 0 {
            sj_agent(a)
        } else {
            sj_agents(s) + (seq![','] + sj_agent(a))
        },
{
    if s.len() == 0 {
        assert(s.push(a)[0] == a);
        assert(s.push(a).drop_first() =~= Seq::<AgentView>::empty());
        assert(sj_agents(s.push(a)) =~= sj_agent(a));
    } else {
        assert(s.push(a)[0] == s[0]);
        assert(s.push(a).drop_first() =~= s.drop_first().push(a));
        lemma_sj_agents_rest_push(s.drop_first(), a);
        crate::text::seq_add_assoc(
            sj_agent(s[0]),
            sj_agents_rest(s.drop_first()),
            seq![','] + sj_agent(a),
        );
    }
}

proof fn lemma_sj_nodes_rest_push(s: Seq<SpdxNodeView>, n: SpdxNodeView)
    ensures
        sj_nodes_rest(s.push(n)) == sj_nodes_rest(s) + (seq![','] + sj_node(n)),
    decreases s.len(),
{
    if s.len() == 0 {
        assert(s.push(n)[0] == n);
        assert(s.push(n).drop_first() =~= Seq::<SpdxNodeView>::empty());
        assert(sj_nodes_rest(s.push(n).drop_first()) == Seq::<char>::empty());
        assert(sj_nodes_rest(s.push(n)) =~= sj_nodes_rest(s) + (seq![','] + sj_node(n)));
    } else {
        assert(s.push(n)[0] == s[0]);
        assert(s.push(n).drop_first() =~= s.drop_first().push(n));
        lemma_sj_nodes_rest_push(s.drop_first(), n);
        crate::text::seq_add_assoc(seq![','], sj_node(s[0]), sj_nodes_rest(s.drop_first()));
        assert(sj_nodes_rest(s.push(n)) =~= sj_nodes_rest(s) + (seq![','] + sj_node(n)));
    }
}

proof fn lemma_sj_nodes_push(s: Seq<SpdxNodeView>, n: SpdxNodeView)
    ensures
        sj_nodes(s.push(n)) == if s.len() == 0 {
            sj_node(n)
        } else {
            sj_nodes(s) + (seq![','] + sj_node(n))
        },
{
    if s.len() == 0 {
        assert(s.push(n)[0] == n);
        assert(s.push(n).drop_first() =~= Seq::<SpdxNodeView>::empty());
        assert(sj_nodes(s.push(n)) =~= sj_node(n));
    } else {
        assert(s.push(n)[0] == s[0]);
        assert(s.push(n).drop_first() =~= s.drop_first().push(n));
        lemma_sj_nodes_rest_push(s.drop_first(), n);
        crate::text::seq_add_assoc(
            sj_node(s[0]),
            sj_nodes_rest(s.drop_first()),
            seq![','] + sj_node(n),
        );
    }
}

fn push_spdx_hash(out: &mut String, m: &IntegrityMethod)
    ensures
        final(out)@ == old(out)@ + sj_hash(hash_view(*m)),
{
    proof {
        reveal_strlit("{\"type\":\"Hash\",\"algorithm\":\"SHA1\",\"hashValue\":\"");
        reveal_strlit("\"}");
        assert("{\"type\":\"Hash\",\"algorithm\":\"SHA1\",\"hashValue\":\""@
            =~= lit_w_hash_open());
        assert("\"}"@ =~= lit_w_qb());
    }
    match m {
        IntegrityMethod::Hash(h) => match h {
            Hash::Sha1 { hash_value } => {
                out.append("{\"type\":\"Hash\",\"algorithm\":\"SHA1\",\"hashValue\":\"");
                push_json_escaped(out, hash_value.as_str());
                out.append("\"}");
                proof {
                    assert(out@ =~= old(out)@ + sj_hash(hash_view(*m)));
                }
            },
        },
    }
}

fn push_spdx_hashes(out: &mut String, hs: &Vec<IntegrityMethod>)
    ensures
        final(out)@ == old(out)@ + sj_hashes(hash_views(hs@)),
{
    let ghost hv = hash_views(hs@);
    let n = hs.len();
    let mut k: usize = 0;
    proof {
        assert(hv.take(0) =~= Seq::<Seq<char>>::empty());
        assert(old(out)@ + sj_hashes(hv.take(0)) =~= old(out)@);
    }
    while k < n
        invariant
            n == hs@.len(),
            k <= n,
            hv == hash_views(hs@),
            hv.len() == n,
            out@ == old(out)@ + sj_hashes(hv.take(k as int)),
        decreases n - k,
    {
        if k > 0 {
            out.append(",");
            proof {
                reveal_strlit(",");
                assert(","@ =~= seq![',']);
            }
        }
        push_spdx_hash(out, &hs[k]);
        proof {
            assert(hv[k as int] == hash_view(hs@[k as int]));
            lemma_sj_hashes_push(hv.take(k as int), hv[k as int]);
            assert(hv.take(k + 1) =~= hv.take(k as int).push(hv[k as int]));
            if k > 0 {
                crate::text::seq_add_assoc(
                    old(out)@,
                    sj_hashes(hv.take(k as int)),
                    seq![','] + sj_hash(hv[k as int]),
                );
                crate::text::seq_add_assoc(
                    old(out)@ + sj_hashes(hv.take(k as int)),
                    seq![','],
                    sj_hash(hv[k as int]),
                );
            }
            assert(out@ =~= old(out)@ + sj_hashes(hv.take(k + 1)));
        }
        k += 1;
    }
    proof {
        assert(hv.take(n as int) =~= hv);
    }
}

fn push_spdx_elemtail(out: &mut String, e: &ElementProps)
    ensures
        final(out)@ == old(out)@ + sj_elemtail(elem_view(*e)),
    decreases *e,
{
    proof {
        reveal_strlit(",\"name\":\"");
        reveal_strlit("\"");
        reveal_strlit(",\"creationInfo\":");
        reveal_strlit(",\"verifiedUsing\":[");
        reveal_strlit("]");
        assert(",\"name\":\""@ =~= lit_w_name());
        assert("\""@ =~= seq!['"']);
        assert(",\"creationInfo\":"@ =~= lit_w_ci());
        assert(",\"verifiedUsing\":["@ =~= lit_w_vu());
        assert("]"@ =~= seq![']']);
    }
    match &e.name {
        Some(n) => {
            out.append(",\"name\":\"");
            push_json_escaped(out, n.as_str());
            out.append("\"");
        },
        None => {
        },
    }
    let ghost part1 = out@;
    proof {
        assert(part1 =~= old(out)@ + (match elem_view(*e).name {
            Some(nv) => lit_w_name() + (json_escaped(nv) + seq!['"']),
            None => Seq::<char>::empty(),
        }));
    }
    out.append(",\"creationInfo\":");
    push_spdx_ci(out, &e.creation_info);
    let ghost part2 = out@;
    proof {
        assert(part2 =~= part1 + (lit_w_ci() + sj_ci(ci_view(e.creation_info))));
    }
    match &e.verified_using {
        Some(hs) => {
            out.append(",\"verifiedUsing\":[");
            push_spdx_hashes(out, hs);
            out.append("]");
        },
        None => {
        },
    }
    proof {
        assert(out@ =~= part2 + (match elem_view(*e).verified_using {
            Some(hv) => lit_w_vu() + (sj_hashes(hv) + seq![']']),
            None => Seq::<char>::empty(),
        }));
        assert(out@ =~= old(out)@ + sj_elemtail(elem_view(*e)));
    }
}

fn push_spdx_ci(out: &mut String, c: &CreationInfo)
    ensures
        final(out)@ == old(out)@ + sj_ci(ci_view(*c)),
    decreases *c,
{
    proof {
        reveal_strlit("\"");
        reveal_strlit("{\"type\":\"CreationInfo\",\"@id\":\"");
        reveal_strlit("\",\"created\":\"");
        reveal_strlit("\",\"createdBy\":[");
        reveal_strlit("]}");
        assert("\""@ =~= seq!['"']);
        assert("{\"type\":\"CreationInfo\",\"@id\":\""@ =~= lit_w_ci_open());
        assert("\",\"created\":\""@ =~= lit_w_created());
        assert("\",\"createdBy\":["@ =~= lit_w_createdby());
        assert("]}"@ =~= lit_w_bb());
    }
    match c {
        CreationInfo::IRI(i) => {
            out.append("\"");
            push_json_escaped(out, i.0.as_str());
            out.append("\"");
            proof {
                assert(out@ =~= old(out)@ + sj_ci(ci_view(*c)));
            }
        },
        CreationInfo::CreationInfo { id, props } => {
            out.append("{\"type\":\"CreationInfo\",\"@id\":\"");
            push_json_escaped(out, id.0.as_str());
            out.append("\",\"created\":\"");
            push_json_escaped(out, props.created.as_str());
            out.append("\",\"createdBy\":[");
            push_spdx_agents(out, &props.created_by);
            out.append("]}");
            proof {
                assert(out@ =~= old(out)@ + sj_ci(ci_view(*c)));
            }
        },
    }
}

fn push_spdx_agents(out: &mut String, v: &Vec<Agent>)
    ensures
        final(out)@ == old(out)@ + sj_agents(agent_views(v@)),
    decreases *v,
{
    let ghost av = agent_views(v@);
    proof {
        lemma_agent_views_len(v@);
    }
    let n = v.len();
    let mut k: usize = 0;
    proof {
        assert(av.take(0) =~= Seq::<AgentView>::empty());
        assert(old(out)@ + sj_agents(av.take(0)) =~= old(out)@);
    }
    while k < n
        invariant
            n == v@.len(),
            k <= n,
            av == agent_views(v@),
            av.len() == n,
            out@ == old(out)@ + sj_agents(av.take(k as int)),
        decreases n - k,
    {
        if k > 0 {
            out.append(",");
            proof {
                reveal_strlit(",");
                assert(","@ =~= seq![',']);
            }
        }
        push_spdx_agent(out, &v[k]);
        proof {
            lemma_agent_views_index(v@, k as int);
            assert(av[k as int] == agent_view(v@[k as int]));
            lemma_sj_agents_push(av.take(k as int), av[k as int]);
            assert(av.take(k + 1) =~= av.take(k as int).push(av[k as int]));
            if k > 0 {
                crate::text::seq_add_assoc(
                    old(out)@,
                    sj_agents(av.take(k as int)),
                    seq![','] + sj_agent(av[k as int]),
                );
                crate::text::seq_add_assoc(
                    old(out)@ + sj_agents(av.take(k as int)),
                    seq![','],
                    sj_agent(av[k as int]),
                );
            }
            assert(out@ =~= old(out)@ + sj_agents(av.take(k + 1)));
        }
        k += 1;
    }
    proof {
        assert(av.take(n as int) =~= av);
    }
}

proof fn lemma_agent_views_len(s: Seq<Agent>)
    ensures
        agent_views(s).len() == s.len(),
    decreases s.len(),
{
    if s.len() > 0 {
        lemma_agent_views_len(s.drop_first());
    }
}

proof fn lemma_agent_views_index(s: Seq<Agent>, i: int)
    requires
        0 <= i < s.len(),
    ensures
        agent_views(s)[i] == agent_view(s[i]),
    decreases i,
{
    lemma_agent_views_len(s.drop_first());
    if i > 0 {
        lemma_agent_views_index(s.drop_first(), i - 1);
        assert(s.drop_first()[i - 1] == s[i]);
    }
}

#[verifier::rlimit(100)]
fn push_spdx_agent(out: &mut String, a: &Agent)
    ensures
        final(out)@ == old(out)@ + sj_agent(agent_view(*a)),
    decreases *a,
{
    proof {
        reveal_strlit("{\"type\":\"Organization\",\"spdxId\":\"");
        reveal_strlit("\"");
        reveal_strlit("}");
        assert("{\"type\":\"Organization\",\"spdxId\":\""@ =~= lit_w_org_open());
        assert("\""@ =~= seq!['"']);
        assert("}"@ =~= seq!['}']);
    }
    match a {
        Agent::Organization { spdx_id, props } => {
            out.append("{\"type\":\"Organization\",\"spdxId\":\"");
            push_json_escaped(out, spdx_id.0.as_str());
            out.append("\"");
            push_spdx_elemtail(out, props);
            out.append("}");
            proof {
                assert(out@ =~= old(out)@ + sj_agent(agent_view(*a)));
            }
        },
    }
}

#[verifier::rlimit(100)]
fn push_spdx_node(out: &mut String, n: &SpdxV3AnyClass)
    ensures
        final(out)@ == old(out)@ + sj_node(node_view(*n)),
{
    proof {
        reveal_strlit("{\"type\":\"Tool\",\"spdxId\":\"");
        reveal_strlit("{\"type\":\"software_File\"");
        reveal_strlit(
            "{\"type\":\"software_ContentIdentifier\",\"software_contentIdentifierValue\":\"",
        );
        reveal_strlit("{\"type\":\"software_Package\"");
        reveal_strlit(",\"software_packageVersion\":\"");
        reveal_strlit("\"");
        reveal_strlit("}");
        reveal_strlit("\"}");
        assert("{\"type\":\"Tool\",\"spdxId\":\""@ =~= lit_w_tool_open());
        assert("{\"type\":\"software_File\""@ =~= lit_w_file_open());
        assert("{\"type\":\"software_ContentIdentifier\",\"software_contentIdentifierValue\":\""@
            =~= lit_w_sci_open());
        assert("{\"type\":\"software_Package\""@ =~= lit_w_pkg_open());
        assert(",\"software_packageVersion\":\""@ =~= lit_w_pkg_ver());
        assert("\""@ =~= seq!['"']);
        assert("}"@ =~= seq!['}']);
        assert("\"}"@ =~= lit_w_qb());
    }
    match n {
        SpdxV3AnyClass::Tool { spdx_id, props } => {
            out.append("{\"type\":\"Tool\",\"spdxId\":\"");
            push_json_escaped(out, spdx_id.0.as_str());
            out.append("\"");
            push_spdx_elemtail(out, props);
            out.append("}");
            proof {
                assert(out@ =~= old(out)@ + sj_node(node_view(*n)));
            }
        },
        SpdxV3AnyClass::SoftwareFile { props } => {
            out.append("{\"type\":\"software_File\"");
            push_spdx_elemtail(out, &props.artifact_props.props.props);
            out.append("}");
            proof {
                assert(out@ =~= old(out)@ + sj_node(node_view(*n)));
            }
        },
        SpdxV3AnyClass::SoftwareContentIdentifier { props } => {
            out.append(
                "{\"type\":\"software_ContentIdentifier\",\"software_contentIdentifierValue\":\"",
            );
            push_json_escaped(out, props.value.0.0.as_str());
            out.append("\"}");
            proof {
                assert(out@ =~= old(out)@ + sj_node(node_view(*n)));
            }
        },
        SpdxV3AnyClass::SoftwarePackage { props } => {
            out.append("{\"type\":\"software_Package\"");
            push_spdx_elemtail(out, &props.props.props.props);
            out.append(",\"software_packageVersion\":\"");
            push_json_escaped(out, props.version.as_str());
            out.append("\"}");
            proof {
                assert(out@ =~= old(out)@ + sj_node(node_view(*n)));
            }
        },
    }
}

/// Write a whole document as its canonical JSON text.
pub fn spdx_to_json(root: &SpdxV3Root) -> (r: String)
    ensures
        r@ == spec_spdx_json(root@),
{
    let mut out = String::new();
    out.append("{\"@context\":\"https://spdx.org/rdf/3.0.1/spdx-context.jsonld\",\"@graph\":[");
    proof {
        reveal_strlit(
            "{\"@context\":\"https://spdx.org/rdf/3.0.1/spdx-context.jsonld\",\"@graph\":[",
        );
        assert("{\"@context\":\"https://spdx.org/rdf/3.0.1/spdx-context.jsonld\",\"@graph\":["@
            =~= lit_w_root_open());
    }
    let ghost head = out@;
    let ghost nv = node_views(root.graph@);
    let n = root.graph.len();
    let mut k: usize = 0;
    proof {
        assert(nv.take(0) =~= Seq::<SpdxNodeView>::empty());
        assert(out@ =~= head + sj_nodes(nv.take(0)));
    }
    while k < n
        invariant
            n == root.graph@.len(),
            k <= n,
            nv == node_views(root.graph@),
            nv.len() == n,
            out@ == head + sj_nodes(nv.take(k as int)),
        decreases n - k,
    {
        if k > 0 {
            out.append(",");
            proof {
                reveal_strlit(",");
                assert(","@ =~= seq![',']);
            }
        }
        push_spdx_node(&mut out, &root.graph[k]);
        proof {
            assert(nv[k as int] == node_view(root.graph@[k as int]));
            lemma_sj_nodes_push(nv.take(k as int), nv[k as int]);
            assert(nv.take(k + 1) =~= nv.take(k as int).push(nv[k as int]));
            if k > 0 {
                crate::text::seq_add_assoc(
                    head,
                    sj_nodes(nv.take(k as int)),
                    seq![','] + sj_node(nv[k as int]),
                );
                crate::text::seq_add_assoc(
                    head + sj_nodes(nv.take(k as int)),
                    seq![','],
                    sj_node(nv[k as int]),
                );
            }
            assert(out@ =~= head + sj_nodes(nv.take(k + 1)));
        }
        k += 1;
    }
    out.append("]}");
    proof {
        reveal_strlit("]}");
        assert("]}"@ =~= lit_w_bb());
        assert(nv.take(n as int) =~= nv);
        assert(out@ =~= spec_spdx_json(root@));
    }
    out
}


/// The file node recorded for one source input.
pub open spec fn spec_file_node(f: SourceInputView) -> SpdxNodeView {
    SpdxNodeView::File {
        props: ElementView {
            name: Some(f.path),
            creation_info: CreationInfoView::Ref(Seq::empty()),
            verified_using: match f.sha1 {
                Some(h) => Some(seq![h]),
                None => None,
            },
        },
    }
}

pub open spec fn spec_file_nodes(fs: Seq<SourceInputView>) -> Seq<SpdxNodeView> {
    Seq::new(fs.len(), |i: int| spec_file_node(fs[i]))
}

/// The graph of a document for one compiled unit: the fixed shell, then
/// the flattened dependency tree when one is given, then one file node
/// per source input.
pub open spec fn spec_esstra_spdx_graph(deps: Option<DepsView>, fs: Seq<SourceInputView>) -> Seq<
    SpdxNodeView,
> {
    spec_default_spdx_view().graph + (match deps {
        Some(d) => spec_spdx_of_deps(d),
        None => Seq::empty(),
    }) + spec_file_nodes(fs)
}

/// Build and write the document for one compiled unit, as its canonical
/// JSON text: the fixed shell, the dependency tree flattened in preorder
/// when one is given, and one file node per source input with its digest
/// when one was supplied.
#[verifier::rlimit(100)]
pub fn make_esstra_spdx(files: &Vec<SourceInput>, deps: Option<EsstraDepsData>) -> (r: String)
    ensures
        r@ == spec_spdx_json(
            (SpdxRootView {
                graph: spec_esstra_spdx_graph(
                    match deps {
                        Some(d) => Some(d@),
                        None => None,
                    },
                    inputs_view(files@),
                ),
            }),
        ),
{
    let mut data = esstra_default_spdx_format();
    match deps {
        Some(d) => {
            let mut sub = get_spdx_recursive(d);
            let ghost sv = node_views(sub@);
            let ghost gv0 = node_views(data.graph@);
            data.graph.append(&mut sub);
            proof {
                assert(node_views(data.graph@) =~= gv0 + sv);
            }
        },
        None => {
            proof {
                assert(node_views(data.graph@) + Seq::<SpdxNodeView>::empty() =~= node_views(
                    data.graph@,
                ));
            }
        },
    }
    let ghost base = node_views(data.graph@);
    let ghost fv = inputs_view(files@);
    let n = files.len();
    let mut k: usize = 0;
    proof {
        assert(spec_file_nodes(fv.take(0)) =~= Seq::<SpdxNodeView>::empty());
        assert(node_views(data.graph@) =~= base + spec_file_nodes(fv.take(0)));
    }
    while k < n
        invariant
            n == files@.len(),
            k <= n,
            fv == inputs_view(files@),
            fv.len() == n,
            node_views(data.graph@) == base + spec_file_nodes(fv.take(k as int)),
        decreases n - k,
    {
        let vu = match &files[k].sha1 {
            Some(h) => {
                let mut v: Vec<IntegrityMethod> = Vec::new();
                v.push(IntegrityMethod::Hash(Hash::Sha1 { hash_value: h.clone() }));
                Some(v)
            },
            None => None,
        };
        let ghost vug = vu;
        proof {
            match vug {
                Some(v) => {
                    assert(hash_views(v@) =~= seq![files@[k as int]@.sha1->0]);
                },
                None => {
                },
            }
        }
        let node = SpdxV3AnyClass::SoftwareFile {
            props: SoftwareFileProps {
                artifact_props: SoftwareArtifactProps {
                    props: ArtifactProps {
                        props: ElementProps {
                            name: Some(files[k].path.clone()),
                            creation_info: CreationInfo::IRI(IRI::default()),
                            verified_using: vu,
                        },
                    },
                },
            },
        };
        let ghost gv = node_views(data.graph@);
        proof {
            assert(node_view(node) =~~= spec_file_node(fv[k as int]));
        }
        data.graph.push(node);
        proof {
            assert(node_views(data.graph@) =~= gv.push(node_view(node)));
            assert(fv.take(k + 1) =~= fv.take(k as int).push(fv[k as int]));
            assert(spec_file_nodes(fv.take(k + 1)) =~= spec_file_nodes(fv.take(k as int)).push(
                spec_file_node(fv[k as int]),
            ));
            assert(node_views(data.graph@) =~= base + spec_file_nodes(fv.take(k + 1)));
        }
        k += 1;
    }
    proof {
        assert(fv.take(n as int) =~= fv);
        assert(data@ =~= (SpdxRootView {
            graph: spec_esstra_spdx_graph(
                match deps {
                    Some(d) => Some(d@),
                    None => None,
                },
                fv,
            ),
        }));
    }
    spdx_to_json(&data)
}



pub open spec fn lit_px_tool_open() -> Seq<char> {
    seq!['{', '"', 't', 'y', 'p', 'e', '"', ':', '"', 'T', 'o', 'o', 'l', '"', ',', '"', 's', 'p', 'd', 'x', 'I', 'd', '"', ':', '"']
}

pub open spec fn lit_px_name() -> Seq<char> {
    seq![',', '"', 'n', 'a', 'm', 'e', '"', ':', '"']
}

pub open spec fn lit_px_tool_ci() -> Seq<char> {
    seq![',', '"', 'c', 'r', 'e', 'a', 't', 'i', 'o', 'n', 'I', 'n', 'f', 'o', '"', ':', '{', '"', 't', 'y', 'p', 'e', '"', ':', '"', 'C', 'r', 'e', 'a', 't', 'i', 'o', 'n', 'I', 'n', 'f', 'o', '"', ',', '"', '@', 'i', 'd', '"', ':', '"']
}

pub open spec fn lit_px_created() -> Seq<char> {
    seq![',', '"', 'c', 'r', 'e', 'a', 't', 'e', 'd', '"', ':', '"']
}

pub open spec fn lit_px_createdby_org() -> Seq<char> {
    seq![',', '"', 'c', 'r', 'e', 'a', 't', 'e', 'd', 'B', 'y', '"', ':', '[', '{', '"', 't', 'y', 'p', 'e', '"', ':', '"', 'O', 'r', 'g', 'a', 'n', 'i', 'z', 'a', 't', 'i', 'o', 'n', '"', ',', '"', 's', 'p', 'd', 'x', 'I', 'd', '"', ':', '"']
}

pub open spec fn lit_px_ci_ref() -> Seq<char> {
    seq![',', '"', 'c', 'r', 'e', 'a', 't', 'i', 'o', 'n', 'I', 'n', 'f', 'o', '"', ':', '"']
}

pub open spec fn lit_px_tool_end() -> Seq<char> {
    seq!['}', ']', '}', '}']
}

pub open spec fn lit_px_pkg_open() -> Seq<char> {
    seq!['{', '"', 't', 'y', 'p', 'e', '"', ':', '"', 's', 'o', 'f', 't', 'w', 'a', 'r', 'e', '_', 'P', 'a', 'c', 'k', 'a', 'g', 'e', '"', ',', '"', 'n', 'a', 'm', 'e', '"', ':', '"']
}

pub open spec fn lit_px_pkg_ver() -> Seq<char> {
    seq![',', '"', 's', 'o', 'f', 't', 'w', 'a', 'r', 'e', '_', 'p', 'a', 'c', 'k', 'a', 'g', 'e', 'V', 'e', 'r', 's', 'i', 'o', 'n', '"', ':', '"']
}

pub open spec fn lit_px_file_open() -> Seq<char> {
    seq!['{', '"', 't', 'y', 'p', 'e', '"', ':', '"', 's', 'o', 'f', 't', 'w', 'a', 'r', 'e', '_', 'F', 'i', 'l', 'e', '"', ',', '"', 'n', 'a', 'm', 'e', '"', ':', '"']
}

pub open spec fn lit_px_vu() -> Seq<char> {
    seq![',', '"', 'v', 'e', 'r', 'i', 'f', 'i', 'e', 'd', 'U', 's', 'i', 'n', 'g', '"', ':', '[', '{', '"', 't', 'y', 'p', 'e', '"', ':', '"', 'H', 'a', 's', 'h', '"', ',', '"', 'a', 'l', 'g', 'o', 'r', 'i', 't', 'h', 'm', '"', ':', '"', 'S', 'H', 'A', '1', '"', ',', '"', 'h', 'a', 's', 'h', 'V', 'a', 'l', 'u', 'e', '"', ':', '"']
}

pub open spec fn lit_px_file_end() -> Seq<char> {
    seq!['}', ']', '}']
}


/// A literal prefix followed by a JSON string literal whose opening
/// quote ends the prefix; the closing quote is consumed.
#[verifier::opaque]
pub open spec fn sp_lit_str(t: Seq<char>, lit: Seq<char>) -> Option<(Seq<char>, nat)> {
    if !has_prefix(t, lit) {
        None
    } else {
        match sp_jstr(t.skip(lit.len() as int)) {
            None => None,
            Some(p) => if lit.len() + p.1 > t.len() {
                None
            } else {
                Some((p.0, (lit.len() + p.1) as nat))
            },
        }
    }
}

proof fn lemma_lit_px_tool_open()
    ensures
        "{\"type\":\"Tool\",\"spdxId\":\""@ == lit_px_tool_open(),
{
    reveal_strlit("{\"type\":\"Tool\",\"spdxId\":\"");
    assert("{\"type\":\"Tool\",\"spdxId\":\""@ =~= lit_px_tool_open());
}

proof fn lemma_lit_px_name()
    ensures
        ",\"name\":\""@ == lit_px_name(),
{
    reveal_strlit(",\"name\":\"");
    assert(",\"name\":\""@ =~= lit_px_name());
}

proof fn lemma_lit_px_tool_ci()
    ensures
        ",\"creationInfo\":{\"type\":\"CreationInfo\",\"@id\":\""@ == lit_px_tool_ci(),
{
    reveal_strlit(",\"creationInfo\":{\"type\":\"CreationInfo\",\"@id\":\"");
    assert(",\"creationInfo\":{\"type\":\"CreationInfo\",\"@id\":\""@ =~= lit_px_tool_ci());
}

proof fn lemma_lit_px_created()
    ensures
        ",\"created\":\""@ == lit_px_created(),
{
    reveal_strlit(",\"created\":\"");
    assert(",\"created\":\""@ =~= lit_px_created());
}

proof fn lemma_lit_px_createdby_org()
    ensures
        ",\"createdBy\":[{\"type\":\"Organization\",\"spdxId\":\""@ == lit_px_createdby_org(),
{
    reveal_strlit(",\"createdBy\":[{\"type\":\"Organization\",\"spdxId\":\"");
    assert(",\"createdBy\":[{\"type\":\"Organization\",\"spdxId\":\""@ =~= lit_px_createdby_org());
}

proof fn lemma_lit_px_ci_ref()
    ensures
        ",\"creationInfo\":\""@ == lit_px_ci_ref(),
{
    reveal_strlit(",\"creationInfo\":\"");
    assert(",\"creationInfo\":\""@ =~= lit_px_ci_ref());
}

proof fn lemma_lit_px_tool_end()
    ensures
        "}]}}"@ == lit_px_tool_end(),
{
    reveal_strlit("}]}}");
    assert("}]}}"@ =~= lit_px_tool_end());
}

proof fn lemma_lit_px_pkg_open()
    ensures
        "{\"type\":\"software_Package\",\"name\":\""@ == lit_px_pkg_open(),
{
    reveal_strlit("{\"type\":\"software_Package\",\"name\":\"");
    assert("{\"type\":\"software_Package\",\"name\":\""@ =~= lit_px_pkg_open());
}

proof fn lemma_lit_px_pkg_ver()
    ensures
        ",\"software_packageVersion\":\""@ == lit_px_pkg_ver(),
{
    reveal_strlit(",\"software_packageVersion\":\"");
    assert(",\"software_packageVersion\":\""@ =~= lit_px_pkg_ver());
}

proof fn lemma_lit_px_file_open()
    ensures
        "{\"type\":\"software_File\",\"name\":\""@ == lit_px_file_open(),
{
    reveal_strlit("{\"type\":\"software_File\",\"name\":\"");
    assert("{\"type\":\"software_File\",\"name\":\""@ =~= lit_px_file_open());
}

proof fn lemma_lit_px_vu()
    ensures
        ",\"verifiedUsing\":[{\"type\":\"Hash\",\"algorithm\":\"SHA1\",\"hashValue\":\""@ == lit_px_vu(),
{
    reveal_strlit(",\"verifiedUsing\":[{\"type\":\"Hash\",\"algorithm\":\"SHA1\",\"hashValue\":\"");
    assert(",\"verifiedUsing\":[{\"type\":\"Hash\",\"algorithm\":\"SHA1\",\"hashValue\":\""@ =~= lit_px_vu());
}

proof fn lemma_lit_px_file_end()
    ensures
        "}]}"@ == lit_px_file_end(),
{
    reveal_strlit("}]}");
    assert("}]}"@ =~= lit_px_file_end());
}

/// Parse a `<lit>"<text>"` piece at position `i`.
fn parse_lit_str(s: &str, i: usize, lit: &str) -> (r: Option<(String, usize)>)
    requires
        i <= s@.len(),
    ensures
        match (r, sp_lit_str(s@.skip(i as int), lit@)) {
            (Some(p), Some(q)) => p.0@ == q.0 && p.1 == i + q.1 && p.1 <= s@.len(),
            (None, None) => true,
            _ => false,
        },
{
    proof {
        reveal(sp_lit_str);
    }
    let ghost suf = s@.skip(i as int);
    if !crate::text::match_lit(s, i, lit) {
        return None;
    }
    let k = lit.unicode_len();
    let n = s.unicode_len();
    assert(i + k <= n);
    proof {
        lemma_skip_skip(s@, i as int, k as int);
    }
    match parse_json_string_body(s, i + k) {
        Some(p) => Some(p),
        None => None,
    }
}

/// The element fields shared by the package and file nodes the builders
/// write: a name, a bare creation-info reference, no integrity hashes.
pub open spec fn plain_elem_view(name: Seq<char>, ci: Seq<char>) -> ElementView {
    ElementView {
        name: Some(name),
        creation_info: CreationInfoView::Ref(ci),
        verified_using: None,
    }
}

/// Parse a tool node in the exact shape `esstra_default_spdx_format`
/// serializes to: a name, a creation record with one creating
/// organization, no integrity hashes.
pub open spec fn sp_px_tool(t: Seq<char>) -> Option<(SpdxNodeView, nat)> {
    match sp_lit_str(t, lit_px_tool_open()) {
        None => None,
        Some(p1) => if p1.1 > t.len() {
            None
        } else {
            match sp_lit_str(t.skip(p1.1 as int), lit_px_name()) {
                None => None,
                Some(p2) => if p1.1 + p2.1 > t.len() {
                    None
                } else {
                    sp_px_tool_mid(t, (p1.1 + p2.1) as nat, p1.0, p2.0)
                },
            }
        },
    }
}

/// The middle of a tool node: the creation record's identifier and
/// timestamp.
pub open spec fn sp_px_tool_mid(t: Seq<char>, c: nat, s1: Seq<char>, s2: Seq<char>) -> Option<
    (SpdxNodeView, nat),
>
    recommends
        c <= t.len(),
{
    match sp_lit_str(t.skip(c as int), lit_px_tool_ci()) {
        None => None,
        Some(p3) => if c + p3.1 > t.len() {
            None
        } else {
            match sp_lit_str(t.skip(c as int + p3.1 as int), lit_px_created()) {
                None => None,
                Some(p4) => if c + p3.1 + p4.1 > t.len() {
                    None
                } else {
                    sp_px_tool_tail(t, (c + p3.1 + p4.1) as nat, s1, s2, p3.0, p4.0)
                },
            }
        },
    }
}

/// The second half of a tool node: the creating organization and the
/// closing brackets.
pub open spec fn sp_px_tool_tail(
    t: Seq<char>,
    c: nat,
    s1: Seq<char>,
    s2: Seq<char>,
    s3: Seq<char>,
    s4: Seq<char>,
) -> Option<(SpdxNodeView, nat)>
    recommends
        c <= t.len(),
{
    match sp_lit_str(t.skip(c as int), lit_px_createdby_org()) {
        None => None,
        Some(p5) => if c + p5.1 > t.len() {
            None
        } else {
            match sp_lit_str(t.skip(c as int + p5.1 as int), lit_px_name()) {
                None => None,
                Some(p6) => if c + p5.1 + p6.1 > t.len() {
                    None
                } else {
                    match sp_lit_str(
                        t.skip(c as int + p5.1 as int + p6.1 as int),
                        lit_px_ci_ref(),
                    ) {
                        None => None,
                        Some(p7) => if c + p5.1 + p6.1 + p7.1 > t.len() || !has_prefix(
                            t.skip(c as int + p5.1 as int + p6.1 as int + p7.1 as int),
                            lit_px_tool_end(),
                        ) {
                            None
                        } else {
                            Some(
                                (
                                    SpdxNodeView::Tool {
                                        spdx_id: s1,
                                        props: ElementView {
                                            name: Some(s2),
                                            creation_info: CreationInfoView::Obj {
                                                id: s3,
                                                created: s4,
                                                created_by: seq![
                                                    AgentView {
                                                        spdx_id: p5.0,
                                                        props: plain_elem_view(p6.0, p7.0),
                                                    },
                                                ],
                                            },
                                            verified_using: None,
                                        },
                                    },
                                    (c + p5.1 + p6.1 + p7.1 + 4) as nat,
                                ),
                            )
                        },
                    }
                },
            }
        },
    }
}

/// Parse a package node in the exact shape `get_spdx_recursive` emits.
pub open spec fn sp_px_package(t: Seq<char>) -> Option<(SpdxNodeView, nat)> {
    match sp_lit_str(t, lit_px_pkg_open()) {
        None => None,
        Some(p1) => if p1.1 > t.len() {
            None
        } else {
            match sp_lit_str(t.skip(p1.1 as int), lit_px_ci_ref()) {
                None => None,
                Some(p2) => if p1.1 + p2.1 > t.len() {
                    None
                } else {
                    match sp_lit_str(t.skip(p1.1 as int + p2.1 as int), lit_px_pkg_ver()) {
                        None => None,
                        Some(p3) => if p1.1 + p2.1 + p3.1 >= t.len() || t.skip(
                            p1.1 as int + p2.1 as int + p3.1 as int,
                        )[0] != '}' {
                            None
                        } else {
                            Some(
                                (
                                    SpdxNodeView::Package {
                                        props: plain_elem_view(p1.0, p2.0),
                                        version: p3.0,
                                    },
                                    (p1.1 + p2.1 + p3.1 + 1) as nat,
                                ),
                            )
                        },
                    }
                },
            }
        },
    }
}

/// Parse a file node in the exact shape `make_esstra_spdx` emits: a
/// name, a bare creation-info reference, and at most one integrity
/// hash.
pub open spec fn sp_px_file(t: Seq<char>) -> Option<(SpdxNodeView, nat)> {
    match sp_lit_str(t, lit_px_file_open()) {
        None => None,
        Some(p1) => if p1.1 > t.len() {
            None
        } else {
            match sp_lit_str(t.skip(p1.1 as int), lit_px_ci_ref()) {
                None => None,
                Some(p2) => if p1.1 + p2.1 > t.len() {
                    None
                } else {
                    let t2 = t.skip(p1.1 as int + p2.1 as int);
                    if t2.len() > 0 && t2[0] == '}' {
                        Some(
                            (
                                SpdxNodeView::File { props: plain_elem_view(p1.0, p2.0) },
                                (p1.1 + p2.1 + 1) as nat,
                            ),
                        )
                    } else {
                        match sp_lit_str(t2, lit_px_vu()) {
                            None => None,
                            Some(p3) => if p1.1 + p2.1 + p3.1 > t.len() || !has_prefix(
                                t.skip(p1.1 as int + p2.1 as int + p3.1 as int),
                                lit_px_file_end(),
                            ) {
                                None
                            } else {
                                Some(
                                    (
                                        SpdxNodeView::File {
                                            props: ElementView {
                                                name: Some(p1.0),
                                                creation_info: CreationInfoView::Ref(p2.0),
                                                verified_using: Some(seq![p3.0]),
                                            },
                                        },
                                        (p1.1 + p2.1 + p3.1 + 3) as nat,
                                    ),
                                )
                            },
                        }
                    }
                },
            }
        },
    }
}

/// Parse one graph node of any of the shapes the builders write.
pub open spec fn sp_px_node(t: Seq<char>) -> Option<(SpdxNodeView, nat)> {
    if has_prefix(t, lit_px_tool_open()) {
        sp_px_tool(t)
    } else if has_prefix(t, lit_px_pkg_open()) {
        sp_px_package(t)
    } else if has_prefix(t, lit_px_file_open()) {
        sp_px_file(t)
    } else {
        None
    }
}

/// Parse a possibly empty node list; the characters consumed stop right
/// before the closing bracket.
pub open spec fn sp_px_nodes(t: Seq<char>) -> Option<(Seq<SpdxNodeView>, nat)>
    decreases t.len(),
{
    if t.len() > 0 && t[0] == ']' {
        Some((Seq::empty(), 0))
    } else {
        match sp_px_node(t) {
            None => None,
            Some(q) => if q.1 == 0 || q.1 > t.len() {
                None
            } else {
                match sp_px_nodes_more(t.skip(q.1 as int)) {
                    None => None,
                    Some(m) => Some((seq![q.0] + m.0, (q.1 + m.1) as nat)),
                }
            },
        }
    }
}

pub open spec fn sp_px_nodes_more(t: Seq<char>) -> Option<(Seq<SpdxNodeView>, nat)>
    decreases t.len(),
{
    if t.len() > 0 && t[0] == ',' {
        match sp_px_node(t.skip(1)) {
            None => None,
            Some(q) => if 1 + q.1 > t.len() {
                None
            } else {
                match sp_px_nodes_more(t.skip(1 + q.1 as int)) {
                    None => None,
                    Some(m) => Some((seq![q.0] + m.0, (1 + q.1 + m.1) as nat)),
                }
            },
        }
    } else {
        Some((Seq::empty(), 0))
    }
}

/// Parse a whole document text as the builders write it.
#[verifier::opaque]
pub open spec fn sp_spdx_doc(s: Seq<char>) -> Option<SpdxRootView> {
    if !has_prefix(s, lit_w_root_open()) {
        None
    } else {
        let t = s.skip(71);
        match sp_px_nodes(t) {
            None => None,
            Some(q) => if q.1 + 2 == t.len() && has_prefix(t.skip(q.1 as int), lit_w_bb()) {
                Some(SpdxRootView { graph: q.0 })
            } else {
                None
            },
        }
    }
}


/// Parse a tool node at position `i`.
#[verifier::rlimit(100)]
fn parse_px_tool(s: &str, i: usize) -> (r: Option<(SpdxV3AnyClass, usize)>)
    requires
        i <= s@.len(),
    ensures
        match (r, sp_px_tool(s@.skip(i as int))) {
            (Some(p), Some(q)) => node_view(p.0) == q.0 && p.1 == i + q.1 && p.1 <= s@.len(),
            (None, None) => true,
            _ => false,
        },
{
    let ghost suf = s@.skip(i as int);
    proof {
        lemma_lit_px_tool_open();
    }
    let (s1, j1) = match parse_lit_str(s, i, "{\"type\":\"Tool\",\"spdxId\":\"") {
        Some(p) => p,
        None => {
            return None;
        },
    };
    proof {
        lemma_lit_px_name();
        lemma_skip_skip(s@, i as int, (j1 - i) as int);
    }
    let (s2, j2) = match parse_lit_str(s, j1, ",\"name\":\"") {
        Some(p) => p,
        None => {
            return None;
        },
    };
    parse_px_tool_mid(s, i, j2, s1, s2)
}

/// Parse the middle of a tool node, from position `c`.
#[verifier::rlimit(100)]
fn parse_px_tool_mid(s: &str, i: usize, c: usize, s1: String, s2: String) -> (r: Option<
    (SpdxV3AnyClass, usize),
>)
    requires
        i <= c <= s@.len(),
    ensures
        match (r, sp_px_tool_mid(s@.skip(i as int), (c - i) as nat, s1@, s2@)) {
            (Some(p), Some(q)) => node_view(p.0) == q.0 && p.1 == i + q.1 && p.1 <= s@.len(),
            (None, None) => true,
            _ => false,
        },
{
    let ghost suf = s@.skip(i as int);
    proof {
        lemma_lit_px_tool_ci();
        lemma_skip_skip(s@, i as int, (c - i) as int);
    }
    let (s3, j3) = match parse_lit_str(s, c, ",\"creationInfo\":{\"type\":\"CreationInfo\",\"@id\":\"")
        {
        Some(p) => p,
        None => {
            return None;
        },
    };
    proof {
        lemma_lit_px_created();
        lemma_skip_skip(s@, i as int, (j3 - i) as int);
    }
    let (s4, j4) = match parse_lit_str(s, j3, ",\"created\":\"") {
        Some(p) => p,
        None => {
            return None;
        },
    };
    proof {
        lemma_skip_skip(s@, i as int, (j4 - i) as int);
    }
    parse_px_tool_tail(s, i, j4, s1, s2, s3, s4)
}

/// Parse the second half of a tool node, from position `c`.
#[verifier::rlimit(100)]
fn parse_px_tool_tail(s: &str, i: usize, c: usize, s1: String, s2: String, s3: String, s4: String)
    -> (r: Option<(SpdxV3AnyClass, usize)>)
    requires
        i <= c <= s@.len(),
    ensures
        match (r, sp_px_tool_tail(s@.skip(i as int), (c - i) as nat, s1@, s2@, s3@, s4@)) {
            (Some(p), Some(q)) => node_view(p.0) == q.0 && p.1 == i + q.1 && p.1 <= s@.len(),
            (None, None) => true,
            _ => false,
        },
{
    let ghost suf = s@.skip(i as int);
    let n = s.unicode_len();
    proof {
        lemma_skip_skip(s@, i as int, (c - i) as int);
        lemma_lit_px_createdby_org();
    }
    let (s5, j5) = match parse_lit_str(s, c, ",\"createdBy\":[{\"type\":\"Organization\",\"spdxId\":\"")
        {
        Some(p) => p,
        None => {
            return None;
        },
    };
    proof {
        lemma_lit_px_name();
        lemma_skip_skip(s@, i as int, (j5 - i) as int);
    }
    let (s6, j6) = match parse_lit_str(s, j5, ",\"name\":\"") {
        Some(p) => p,
        None => {
            return None;
        },
    };
    proof {
        lemma_lit_px_ci_ref();
        lemma_skip_skip(s@, i as int, (j6 - i) as int);
    }
    let (s7, j7) = match parse_lit_str(s, j6, ",\"creationInfo\":\"") {
        Some(p) => p,
        None => {
            return None;
        },
    };
    proof {
        lemma_lit_px_tool_end();
        lemma_skip_skip(s@, i as int, (j7 - i) as int);
    }
    if !crate::text::match_lit(s, j7, "}]}}") {
        return None;
    }
    assert(j7 + 4 <= s@.len());
    let ghost orgv = Agent::Organization {
        spdx_id: IRI(s5),
        props: ElementProps {
            name: Some(s6),
            creation_info: CreationInfo::IRI(IRI(s7)),
            verified_using: None,
        },
    };
    let org = Agent::Organization {
        spdx_id: IRI(s5),
        props: ElementProps {
            name: Some(s6),
            creation_info: CreationInfo::IRI(IRI(s7)),
            verified_using: None,
        },
    };
    proof {
        assert(org == orgv);
    }
    let mut created_by: Vec<Agent> = Vec::new();
    created_by.push(org);
    let node = SpdxV3AnyClass::Tool {
        spdx_id: IRI(s1),
        props: ElementProps {
            name: Some(s2),
            creation_info: CreationInfo::CreationInfo {
                id: IRI(s3),
                props: CreationInfoProps { created: s4, created_by },
            },
            verified_using: None,
        },
    };
    proof {
        assert(seq![orgv].drop_first() =~= Seq::<Agent>::empty());
        assert(agent_views(Seq::<Agent>::empty()) == Seq::<AgentView>::empty());
        assert(agent_views(seq![orgv]) == seq![agent_view(orgv)] + Seq::<AgentView>::empty());
        assert(agent_views(seq![orgv]) =~= seq![agent_view(orgv)]);
    }
    Some((node, j7 + 4))
}

/// Parse a package node at position `i`.
#[verifier::rlimit(100)]
fn parse_px_package(s: &str, i: usize) -> (r: Option<(SpdxV3AnyClass, usize)>)
    requires
        i <= s@.len(),
    ensures
        match (r, sp_px_package(s@.skip(i as int))) {
            (Some(p), Some(q)) => node_view(p.0) == q.0 && p.1 == i + q.1 && p.1 <= s@.len(),
            (None, None) => true,
            _ => false,
        },
{
    let ghost suf = s@.skip(i as int);
    let n = s.unicode_len();
    proof {
        lemma_lit_px_pkg_open();
    }
    let (s1, j1) = match parse_lit_str(s, i, "{\"type\":\"software_Package\",\"name\":\"") {
        Some(p) => p,
        None => {
            return None;
        },
    };
    proof {
        lemma_lit_px_ci_ref();
        lemma_skip_skip(s@, i as int, (j1 - i) as int);
    }
    let (s2, j2) = match parse_lit_str(s, j1, ",\"creationInfo\":\"") {
        Some(p) => p,
        None => {
            return None;
        },
    };
    proof {
        lemma_lit_px_pkg_ver();
        lemma_skip_skip(s@, i as int, (j2 - i) as int);
    }
    let (s3, j3) = match parse_lit_str(s, j2, ",\"software_packageVersion\":\"") {
        Some(p) => p,
        None => {
            return None;
        },
    };
    proof {
        lemma_skip_skip(s@, i as int, (j3 - i) as int);
    }
    if j3 < n && s.get_char(j3) == '}' {
        proof {
            assert(s@.skip(j3 as int)[0] == s@[j3 as int]);
        }
        let node = SpdxV3AnyClass::SoftwarePackage {
            props: SoftwarePackageProps {
                props: SoftwareArtifactProps {
                    props: ArtifactProps {
                        props: ElementProps {
                            name: Some(s1),
                            creation_info: CreationInfo::IRI(IRI(s2)),
                            verified_using: None,
                        },
                    },
                },
                version: s3,
            },
        };
        Some((node, j3 + 1))
    } else {
        None
    }
}

/// Parse a file node at position `i`.
#[verifier::rlimit(100)]
fn parse_px_file(s: &str, i: usize) -> (r: Option<(SpdxV3AnyClass, usize)>)
    requires
        i <= s@.len(),
    ensures
        match (r, sp_px_file(s@.skip(i as int))) {
            (Some(p), Some(q)) => node_view(p.0) == q.0 && p.1 == i + q.1 && p.1 <= s@.len(),
            (None, None) => true,
            _ => false,
        },
{
    let ghost suf = s@.skip(i as int);
    let n = s.unicode_len();
    proof {
        lemma_lit_px_file_open();
    }
    let (s1, j1) = match parse_lit_str(s, i, "{\"type\":\"software_File\",\"name\":\"") {
        Some(p) => p,
        None => {
            return None;
        },
    };
    proof {
        lemma_lit_px_ci_ref();
        lemma_skip_skip(s@, i as int, (j1 - i) as int);
    }
    let (s2, j2) = match parse_lit_str(s, j1, ",\"creationInfo\":\"") {
        Some(p) => p,
        None => {
            return None;
        },
    };
    proof {
        lemma_skip_skip(s@, i as int, (j2 - i) as int);
    }
    if j2 < n && s.get_char(j2) == '}' {
        proof {
            assert(s@.skip(j2 as int)[0] == s@[j2 as int]);
        }
        let node = SpdxV3AnyClass::SoftwareFile {
            props: SoftwareFileProps {
                artifact_props: SoftwareArtifactProps {
                    props: ArtifactProps {
                        props: ElementProps {
                            name: Some(s1),
                            creation_info: CreationInfo::IRI(IRI(s2)),
                            verified_using: None,
                        },
                    },
                },
            },
        };
        return Some((node, j2 + 1));
    }
    proof {
        if suf.skip((j2 - i) as int).len() > 0 {
            assert(s@.skip(j2 as int)[0] == s@[j2 as int]);
        }
        lemma_lit_px_vu();
    }
    let (s3, j3) = match parse_lit_str(
        s,
        j2,
        ",\"verifiedUsing\":[{\"type\":\"Hash\",\"algorithm\":\"SHA1\",\"hashValue\":\"",
    ) {
        Some(p) => p,
        None => {
            return None;
        },
    };
    proof {
        lemma_lit_px_file_end();
        lemma_skip_skip(s@, i as int, (j3 - i) as int);
    }
    if !crate::text::match_lit(s, j3, "}]}") {
        return None;
    }
    assert(j3 + 3 <= s@.len());
    let ghost hg = s3@;
    let mut vu: Vec<IntegrityMethod> = Vec::new();
    vu.push(IntegrityMethod::Hash(Hash::Sha1 { hash_value: s3 }));
    proof {
        assert(hash_views(vu@) =~= seq![hg]);
    }
    let node = SpdxV3AnyClass::SoftwareFile {
        props: SoftwareFileProps {
            artifact_props: SoftwareArtifactProps {
                props: ArtifactProps {
                    props: ElementProps {
                        name: Some(s1),
                        creation_info: CreationInfo::IRI(IRI(s2)),
                        verified_using: Some(vu),
                    },
                },
            },
        },
    };
    Some((node, j3 + 3))
}

/// Parse one graph node at position `i`.
#[verifier::rlimit(100)]
fn parse_px_node(s: &str, i: usize) -> (r: Option<(SpdxV3AnyClass, usize)>)
    requires
        i <= s@.len(),
    ensures
        match (r, sp_px_node(s@.skip(i as int))) {
            (Some(p), Some(q)) => node_view(p.0) == q.0 && p.1 == i + q.1 && p.1 <= s@.len(),
            (None, None) => true,
            _ => false,
        },
{
    let ghost suf = s@.skip(i as int);
    proof {
        lemma_lit_px_tool_open();
        lemma_lit_px_pkg_open();
        lemma_lit_px_file_open();
    }
    if crate::text::match_lit(s, i, "{\"type\":\"Tool\",\"spdxId\":\"") {
        parse_px_tool(s, i)
    } else if crate::text::match_lit(s, i, "{\"type\":\"software_Package\",\"name\":\"") {
        parse_px_package(s, i)
    } else if crate::text::match_lit(s, i, "{\"type\":\"software_File\",\"name\":\"") {
        parse_px_file(s, i)
    } else {
        None
    }
}

/// Parse a node list at position `i`; stops right before the closing
/// bracket.
#[verifier::rlimit(100)]
fn parse_px_nodes(s: &str, i: usize) -> (r: Option<(Vec<SpdxV3AnyClass>, usize)>)
    requires
        i <= s@.len(),
    ensures
        match (r, sp_px_nodes(s@.skip(i as int))) {
            (Some(p), Some(q)) => node_views(p.0@) == q.0 && p.1 == i + q.1 && p.1 <= s@.len(),
            (None, None) => true,
            _ => false,
        },
    decreases s@.len() - i,
{
    let ghost suf = s@.skip(i as int);
    let n = s.unicode_len();
    if i < n && s.get_char(i) == ']' {
        let v: Vec<SpdxV3AnyClass> = Vec::new();
        proof {
            assert(suf.len() > 0 && suf[0] == ']');
            assert(node_views(v@) =~= Seq::<SpdxNodeView>::empty());
        }
        return Some((v, i));
    }
    proof {
        assert(!(suf.len() > 0 && suf[0] == ']'));
    }
    let (d0, j) = match parse_px_node(s, i) {
        Some(p) => p,
        None => {
            return None;
        },
    };
    if j == i {
        return None;
    }
    proof {
        lemma_skip_skip(s@, i as int, (j - i) as int);
    }
    let (mut v, e) = match parse_px_nodes_more(s, j) {
        Some(p) => p,
        None => {
            return None;
        },
    };
    let ghost v0 = v@;
    v.insert(0, d0);
    proof {
        assert(v@ =~= seq![d0] + v0);
        assert(node_views(v@) =~= seq![node_view(d0)] + node_views(v0));
    }
    Some((v, e))
}

#[verifier::rlimit(100)]
fn parse_px_nodes_more(s: &str, i: usize) -> (r: Option<(Vec<SpdxV3AnyClass>, usize)>)
    requires
        i <= s@.len(),
    ensures
        match (r, sp_px_nodes_more(s@.skip(i as int))) {
            (Some(p), Some(q)) => node_views(p.0@) == q.0 && p.1 == i + q.1 && p.1 <= s@.len(),
            (None, None) => true,
            _ => false,
        },
    decreases s@.len() - i,
{
    let ghost suf = s@.skip(i as int);
    let n = s.unicode_len();
    if i == n || s.get_char(i) != ',' {
        let v: Vec<SpdxV3AnyClass> = Vec::new();
        proof {
            assert(!(suf.len() > 0 && suf[0] == ','));
            assert(node_views(v@) =~= Seq::<SpdxNodeView>::empty());
        }
        return Some((v, i));
    }
    proof {
        assert(suf.len() > 0 && suf[0] == ',');
        lemma_skip_skip(s@, i as int, 1);
    }
    let (d0, j) = match parse_px_node(s, i + 1) {
        Some(p) => p,
        None => {
            return None;
        },
    };
    proof {
        lemma_skip_skip(s@, i as int, (j - i) as int);
    }
    let (mut v, e) = match parse_px_nodes_more(s, j) {
        Some(p) => p,
        None => {
            return None;
        },
    };
    let ghost v0 = v@;
    v.insert(0, d0);
    proof {
        assert(v@ =~= seq![d0] + v0);
        assert(node_views(v@) =~= seq![node_view(d0)] + node_views(v0));
    }
    Some((v, e))
}

proof fn lemma_lit_root_open()
    ensures
        "{\"@context\":\"https://spdx.org/rdf/3.0.1/spdx-context.jsonld\",\"@graph\":["@
            == lit_w_root_open(),
{
    reveal_strlit(
        "{\"@context\":\"https://spdx.org/rdf/3.0.1/spdx-context.jsonld\",\"@graph\":[",
    );
    assert("{\"@context\":\"https://spdx.org/rdf/3.0.1/spdx-context.jsonld\",\"@graph\":["@
        =~= lit_w_root_open());
}

/// Parse a whole document text as the builders write it.
///
/// This reads the canonical key order and node shapes of
/// `spdx_to_json` applied to built documents; the same data with keys
/// reordered, with extra whitespace, or with a content-identifier node
/// is not recognized.
#[verifier::rlimit(100)]
pub fn spdx_from_json(s: &str) -> (r: Option<SpdxV3Root>)
    ensures
        match (r, sp_spdx_doc(s@)) {
            (Some(root), Some(v)) => root@ == v,
            (None, None) => true,
            _ => false,
        },
{
    proof {
        reveal(sp_spdx_doc);
        assert(s@.skip(0) =~= s@);
        lemma_lit_root_open();
        reveal_strlit("]}");
        assert("]}"@ =~= lit_w_bb());
    }
    if !crate::text::match_lit(
        s,
        0,
        "{\"@context\":\"https://spdx.org/rdf/3.0.1/spdx-context.jsonld\",\"@graph\":[",
    ) {
        return None;
    }
    proof {
        lemma_skip_skip(s@, 0, 71);
    }
    let (graph, j) = match parse_px_nodes(s, 71) {
        Some(p) => p,
        None => {
            return None;
        },
    };
    let n = s.unicode_len();
    proof {
        lemma_skip_skip(s@, 71, (j - 71) as int);
    }
    if !crate::text::match_lit(s, j, "]}") {
        return None;
    }
    if j + 2 != n {
        return None;
    }
    proof {
        assert(s@.skip(71).skip((j - 71) as int).len() == n - j);
    }
    Some(SpdxV3Root { context: SpdxGlobalContext::V3_0_1, graph })
}


pub open spec fn roots_views(s: Seq<SpdxV3Root>) -> Seq<SpdxRootView> {
    Seq::new(s.len(), |i: int| s[i]@)
}

/// Parse a section text as newline-separated documents: split at line
/// feeds, strip a trailing carriage return from each line, drop empty
/// lines, and parse every remaining line as one document; the result is
/// the parsed documents in order, or nothing if any line fails.
pub open spec fn sp_spdx_lines(t: Seq<char>) -> Option<Seq<SpdxRootView>>
    decreases t.len(),
{
    if t.len() == 0 {
        Some(Seq::empty())
    } else {
        let nl = line_len(t);
        let l = strip_cr(t.take(nl as int));
        let head = if l.len() == 0 {
            Some(Seq::<SpdxRootView>::empty())
        } else {
            match sp_spdx_doc(l) {
                Some(v) => Some(seq![v]),
                None => None,
            }
        };
        let rest = if nl < t.len() {
            sp_spdx_lines(t.skip(nl as int + 1))
        } else {
            Some(Seq::<SpdxRootView>::empty())
        };
        match (head, rest) {
            (Some(h), Some(r)) => Some(h + r),
            _ => None,
        }
    }
}

/// Parse a section text as newline-separated documents.
#[verifier::rlimit(100)]
pub fn parse_spdx_lines(s: &str) -> (r: Option<Vec<SpdxV3Root>>)
    ensures
        match (r, sp_spdx_lines(s@)) {
            (Some(v), Some(ds)) => roots_views(v@) == ds,
            (None, None) => true,
            _ => false,
        },
{
    let n = s.unicode_len();
    let mut acc: Vec<SpdxV3Root> = Vec::new();
    let mut pos: usize = 0;
    proof {
        assert(s@.skip(0) =~= s@);
        assert(roots_views(acc@) =~= Seq::<SpdxRootView>::empty());
        match sp_spdx_lines(s@) {
            Some(all) => {
                assert(roots_views(acc@) + all =~= all);
            },
            None => {
            },
        }
    }
    while pos < n
        invariant
            n == s@.len(),
            pos <= n,
            sp_spdx_lines(s@) == (match sp_spdx_lines(s@.skip(pos as int)) {
                Some(rest) => Some(roots_views(acc@) + rest),
                None => None::<Seq<SpdxRootView>>,
            }),
        decreases n - pos,
    {
        let ghost suffix = s@.skip(pos as int);
        let line_end = match crate::text::find_char_from(s, pos, '\n') {
            Some(j) => j,
            None => n,
        };
        proof {
            assert forall|m: int| 0 <= m < line_end - pos implies suffix[m] != '\n' by {
                assert(suffix[m] == s@[pos + m]);
            }
            if line_end < n {
                assert(suffix[line_end - pos] == s@[line_end as int]);
            }
            lemma_line_len_at(suffix, line_end - pos);
        }
        let body_end = if line_end > pos && s.get_char(line_end - 1) == '\r' {
            line_end - 1
        } else {
            line_end
        };
        let line = s.substring_char(pos, body_end);
        proof {
            assert(suffix.take(line_end - pos) =~= s@.subrange(pos as int, line_end as int));
            assert(strip_cr(suffix.take(line_end - pos)) =~= s@.subrange(
                pos as int,
                body_end as int,
            ));
            assert(line@ == strip_cr(suffix.take(line_len(suffix) as int)));
        }
        let ghost accv = roots_views(acc@);
        let ghost head = if line@.len() == 0 {
            Some(Seq::<SpdxRootView>::empty())
        } else {
            match sp_spdx_doc(line@) {
                Some(v) => Some(seq![v]),
                None => None::<Seq<SpdxRootView>>,
            }
        };
        if line.unicode_len() > 0 {
            let root = match spdx_from_json(line) {
                Some(root) => root,
                None => {
                    proof {
                        assert(sp_spdx_lines(suffix) is None);
                    }
                    return None;
                },
            };
            let ghost rootv = root@;
            acc.push(root);
            proof {
                assert(roots_views(acc@) =~= accv.push(rootv));
                assert(head == Some(seq![rootv]));
            }
        } else {
            proof {
                assert(head == Some(Seq::<SpdxRootView>::empty()));
            }
        }
        if line_end == n {
            proof {
                assert(line_len(suffix) == suffix.len());
                assert(sp_spdx_lines(suffix) == (match head {
                    Some(h) => Some(h + Seq::<SpdxRootView>::empty()),
                    None => None::<Seq<SpdxRootView>>,
                }));
                match head {
                    Some(h) => {
                        assert(accv + (h + Seq::<SpdxRootView>::empty()) =~= roots_views(acc@));
                        assert(s@.skip(n as int).len() == 0);
                        assert(sp_spdx_lines(s@.skip(n as int)) == Some(Seq::<
                            SpdxRootView,
                        >::empty()));
                        assert(roots_views(acc@) + Seq::<SpdxRootView>::empty() =~= roots_views(
                            acc@,
                        ));
                    },
                    None => {
                    },
                }
            }
            pos = n;
        } else {
            proof {
                crate::text::lemma_skip_skip(s@, pos as int, line_end + 1 - pos);
                assert(suffix.skip(line_len(suffix) as int + 1) =~= s@.skip(line_end + 1));
                assert(sp_spdx_lines(suffix) == (match (
                    head,
                    sp_spdx_lines(s@.skip(line_end + 1)),
                ) {
                    (Some(h), Some(r)) => Some(h + r),
                    _ => None::<Seq<SpdxRootView>>,
                }));
                match (head, sp_spdx_lines(s@.skip(line_end + 1))) {
                    (Some(h), Some(r)) => {
                        assert(accv + (h + r) =~= roots_views(acc@) + r);
                    },
                    _ => {
                    },
                }
            }
            pos = line_end + 1;
        }
    }
    proof {
        assert(s@.skip(pos as int).len() == 0);
        assert(sp_spdx_lines(s@.skip(pos as int)) == Some(Seq::<SpdxRootView>::empty()));
        assert(roots_views(acc@) + Seq::<SpdxRootView>::empty() =~= roots_views(acc@));
    }
    Some(acc)
}


/// How the parser's stage literals are built from the writer's pieces.
proof fn lemma_px_lit_relations()
    ensures
        lit_px_tool_open() == lit_w_tool_open(),
        lit_px_name() == lit_w_name(),
        lit_px_tool_ci() == lit_w_ci() + lit_w_ci_open(),
        lit_w_created() == seq!['"'] + lit_px_created(),
        lit_w_createdby() + lit_w_org_open() == seq!['"'] + lit_px_createdby_org(),
        lit_px_ci_ref() == lit_w_ci() + seq!['"'],
        lit_px_tool_end() == seq!['}'] + (lit_w_bb() + seq!['}']),
        lit_px_pkg_open() == lit_w_pkg_open() + lit_w_name(),
        lit_px_pkg_ver() == lit_w_pkg_ver(),
        lit_px_file_open() == lit_w_file_open() + lit_w_name(),
        lit_px_vu() == lit_w_vu() + lit_w_hash_open(),
        lit_px_file_end() == seq!['}'] + (seq![']'] + seq!['}']),
        lit_w_qb() == seq!['"'] + seq!['}'],
{
    assert(lit_px_tool_open() =~= lit_w_tool_open());
    assert(lit_px_name() =~= lit_w_name());
    assert(lit_px_tool_ci() =~= lit_w_ci() + lit_w_ci_open());
    assert(lit_w_created() =~= seq!['"'] + lit_px_created());
    assert(lit_w_createdby() + lit_w_org_open() =~= seq!['"'] + lit_px_createdby_org());
    assert(lit_px_ci_ref() =~= lit_w_ci() + seq!['"']);
    assert(lit_px_tool_end() =~= seq!['}'] + (lit_w_bb() + seq!['}']));
    assert(lit_px_pkg_open() =~= lit_w_pkg_open() + lit_w_name());
    assert(lit_px_pkg_ver() =~= lit_w_pkg_ver());
    assert(lit_px_file_open() =~= lit_w_file_open() + lit_w_name());
    assert(lit_px_vu() =~= lit_w_vu() + lit_w_hash_open());
    assert(lit_px_file_end() =~= seq!['}'] + (seq![']'] + seq!['}']));
    assert(lit_w_qb() =~= seq!['"'] + seq!['}']);
}

/// One rendered `<lit>"<text>"` piece parses back to exactly its text.
proof fn lemma_lit_str_round(lit: Seq<char>, v: Seq<char>, rest: Seq<char>)
    ensures
        has_prefix(lit + (json_escaped(v) + (seq!['"'] + rest)), lit),
        sp_lit_str(lit + (json_escaped(v) + (seq!['"'] + rest)), lit) == Some::<
            (Seq<char>, nat),
        >((v, (lit.len() + json_escaped(v).len() + 1) as nat)),
        (lit + (json_escaped(v) + (seq!['"'] + rest))).skip(
            lit.len() as int + json_escaped(v).len() as int + 1,
        ) =~= rest,
{
    reveal(sp_lit_str);
    let e = json_escaped(v);
    let t = lit + (e + (seq!['"'] + rest));
    crate::text::lemma_has_prefix_concat(lit, e + (seq!['"'] + rest));
    crate::text::lemma_skip_of_concat(lit, e + (seq!['"'] + rest));
    assert(t.skip(lit.len() as int) =~= e + (seq!['"'] + rest));
    assert(e + (seq!['"'] + rest) =~= e + seq!['"'] + rest);
    crate::format::json::lemma_jstr_round_trip(v, rest);
    assert(sp_jstr(t.skip(lit.len() as int)) == Some::<(Seq<char>, nat)>(
        (v, (e.len() + 1) as nat),
    ));
    crate::text::lemma_skip_skip(t, lit.len() as int, e.len() as int + 1);
    crate::text::lemma_skip_of_concat(e + seq!['"'], rest);
    assert((e + seq!['"']) + rest =~= e + (seq!['"'] + rest));
    assert(t.skip(lit.len() as int).skip(e.len() as int + 1) =~= rest);
}


/// The node shapes the builders construct: these are exactly the
/// shapes the parser reads back.
pub open spec fn canonical_node(n: SpdxNodeView) -> bool {
    match n {
        SpdxNodeView::Tool { spdx_id, props } => props.name is Some && props.verified_using
            is None && (match props.creation_info {
            CreationInfoView::Obj { id, created, created_by } => created_by.len() == 1
                && created_by[0].props.name is Some && created_by[0].props.creation_info is Ref
                && created_by[0].props.verified_using is None,
            CreationInfoView::Ref(_) => false,
        }),
        SpdxNodeView::File { props } => props.name is Some && props.creation_info is Ref && (
        match props.verified_using {
            Some(hs) => hs.len() == 1,
            None => true,
        }),
        SpdxNodeView::ContentId { value } => false,
        SpdxNodeView::Package { props, version } => props.name is Some && props.creation_info
            is Ref && props.verified_using is None,
    }
}

/// The text of one rendered `<lit>"<text>"` stage.
spec fn sx_stage(lit: Seq<char>, v: Seq<char>, rest: Seq<char>) -> Seq<char> {
    lit + (json_escaped(v) + (seq!['"'] + rest))
}

/// The stage shape of a rendered canonical tool node.
spec fn sx_tool_text(
    s1: Seq<char>,
    s2: Seq<char>,
    s3: Seq<char>,
    s4: Seq<char>,
    s5: Seq<char>,
    s6: Seq<char>,
    s7: Seq<char>,
    rest: Seq<char>,
) -> Seq<char> {
    sx_stage(
        lit_px_tool_open(),
        s1,
        sx_stage(
            lit_px_name(),
            s2,
            sx_stage(
                lit_px_tool_ci(),
                s3,
                sx_stage(
                    lit_px_created(),
                    s4,
                    sx_stage(
                        lit_px_createdby_org(),
                        s5,
                        sx_stage(
                            lit_px_name(),
                            s6,
                            sx_stage(lit_px_ci_ref(), s7, lit_px_tool_end() + rest),
                        ),
                    ),
                ),
            ),
        ),
    )
}

/// A rendered canonical tool node has the stage shape.
#[verifier::rlimit(100)]
proof fn lemma_px_tool_text(n: SpdxNodeView, rest: Seq<char>)
    requires
        n is Tool,
        canonical_node(n),
    ensures
        (match n {
            SpdxNodeView::Tool { spdx_id, props } => match props.creation_info {
                CreationInfoView::Obj { id, created, created_by } => sj_node(n) + rest
                    == sx_tool_text(
                    spdx_id,
                    props.name->0,
                    id,
                    created,
                    created_by[0].spdx_id,
                    created_by[0].props.name->0,
                    (match created_by[0].props.creation_info {
                        CreationInfoView::Ref(x) => x,
                        _ => Seq::empty(),
                    }),
                    rest,
                ),
                _ => false,
            },
            _ => false,
        }),
{
    lemma_px_lit_relations();
    match n {
        SpdxNodeView::Tool { spdx_id, props } => {
            match props.creation_info {
                CreationInfoView::Obj { id, created, created_by } => {
                    let ag = created_by[0];
                    assert(created_by =~= seq![ag]);
                    assert(created_by.drop_first() =~= Seq::<AgentView>::empty());
                    assert(sj_agents_rest(Seq::<AgentView>::empty()) == Seq::<char>::empty());
                    assert(sj_agents(created_by) == sj_agent(ag) + Seq::<char>::empty());
                    let s7 = match ag.props.creation_info {
                        CreationInfoView::Ref(x) => x,
                        _ => Seq::empty(),
                    };
                    assert(sj_node(n) + rest =~= sx_tool_text(
                        spdx_id,
                        props.name->0,
                        id,
                        created,
                        ag.spdx_id,
                        ag.props.name->0,
                        s7,
                        rest,
                    ));
                },
                CreationInfoView::Ref(x) => {
                    assert(false);
                },
            }
        },
        _ => {
            assert(false);
        },
    }
}

/// The tail stages of a tool node parse back to their pieces.
#[verifier::rlimit(100)]
proof fn lemma_px_tool_parse_tail(
    t: Seq<char>,
    c: nat,
    s1: Seq<char>,
    s2: Seq<char>,
    s3: Seq<char>,
    s4: Seq<char>,
    s5: Seq<char>,
    s6: Seq<char>,
    s7: Seq<char>,
    rest: Seq<char>,
)
    requires
        c <= t.len(),
        t.skip(c as int) == sx_stage(
            lit_px_createdby_org(),
            s5,
            sx_stage(lit_px_name(), s6, sx_stage(lit_px_ci_ref(), s7, lit_px_tool_end() + rest)),
        ),
    ensures
        sp_px_tool_tail(t, c, s1, s2, s3, s4) == Some::<(SpdxNodeView, nat)>(
            (
                SpdxNodeView::Tool {
                    spdx_id: s1,
                    props: ElementView {
                        name: Some(s2),
                        creation_info: CreationInfoView::Obj {
                            id: s3,
                            created: s4,
                            created_by: seq![
                                AgentView { spdx_id: s5, props: plain_elem_view(s6, s7) },
                            ],
                        },
                        verified_using: None,
                    },
                },
                (c + (lit_px_createdby_org().len() + json_escaped(s5).len() + 1) + (
                lit_px_name().len() + json_escaped(s6).len() + 1) + (lit_px_ci_ref().len()
                    + json_escaped(s7).len() + 1) + 4) as nat,
            ),
        ),
{
    let u7 = sx_stage(lit_px_ci_ref(), s7, lit_px_tool_end() + rest);
    let u6 = sx_stage(lit_px_name(), s6, u7);
    let u5 = sx_stage(lit_px_createdby_org(), s5, u6);
    lemma_lit_str_round(lit_px_createdby_org(), s5, u6);
    lemma_lit_str_round(lit_px_name(), s6, u7);
    lemma_lit_str_round(lit_px_ci_ref(), s7, lit_px_tool_end() + rest);
    let c5 = lit_px_createdby_org().len() + json_escaped(s5).len() + 1;
    let c6 = lit_px_name().len() + json_escaped(s6).len() + 1;
    let c7 = lit_px_ci_ref().len() + json_escaped(s7).len() + 1;
    crate::text::lemma_skip_skip(t, c as int, c5 as int);
    assert(t.skip(c as int + c5 as int) == u5.skip(c5 as int));
    assert(t.skip(c as int + c5 as int) == u6);
    crate::text::lemma_skip_skip(t, c as int + c5 as int, c6 as int);
    assert(t.skip(c as int + c5 as int + c6 as int) == u6.skip(c6 as int));
    assert(t.skip(c as int + c5 as int + c6 as int) == u7);
    crate::text::lemma_skip_skip(t, c as int + c5 as int + c6 as int, c7 as int);
    assert(t.skip(c as int + c5 as int + c6 as int + c7 as int) == u7.skip(c7 as int));
    assert(t.skip(c as int + c5 as int + c6 as int + c7 as int) == lit_px_tool_end() + rest);
    crate::text::lemma_has_prefix_concat(lit_px_tool_end(), rest);
}

/// The middle stages of a tool node parse back to their pieces.
#[verifier::rlimit(100)]
proof fn lemma_px_tool_parse_mid(
    t: Seq<char>,
    c: nat,
    s1: Seq<char>,
    s2: Seq<char>,
    s3: Seq<char>,
    s4: Seq<char>,
    s5: Seq<char>,
    s6: Seq<char>,
    s7: Seq<char>,
    rest: Seq<char>,
)
    requires
        c <= t.len(),
        t.skip(c as int) == sx_stage(
            lit_px_tool_ci(),
            s3,
            sx_stage(
                lit_px_created(),
                s4,
                sx_stage(
                    lit_px_createdby_org(),
                    s5,
                    sx_stage(
                        lit_px_name(),
                        s6,
                        sx_stage(lit_px_ci_ref(), s7, lit_px_tool_end() + rest),
                    ),
                ),
            ),
        ),
    ensures
        sp_px_tool_mid(t, c, s1, s2) == Some::<(SpdxNodeView, nat)>(
            (
                SpdxNodeView::Tool {
                    spdx_id: s1,
                    props: ElementView {
                        name: Some(s2),
                        creation_info: CreationInfoView::Obj {
                            id: s3,
                            created: s4,
                            created_by: seq![
                                AgentView { spdx_id: s5, props: plain_elem_view(s6, s7) },
                            ],
                        },
                        verified_using: None,
                    },
                },
                (c + (lit_px_tool_ci().len() + json_escaped(s3).len() + 1) + (
                lit_px_created().len() + json_escaped(s4).len() + 1) + (
                lit_px_createdby_org().len() + json_escaped(s5).len() + 1) + (lit_px_name().len()
                    + json_escaped(s6).len() + 1) + (lit_px_ci_ref().len() + json_escaped(
                    s7,
                ).len() + 1) + 4) as nat,
            ),
        ),
{
    let u5 = sx_stage(
        lit_px_createdby_org(),
        s5,
        sx_stage(lit_px_name(), s6, sx_stage(lit_px_ci_ref(), s7, lit_px_tool_end() + rest)),
    );
    let u4 = sx_stage(lit_px_created(), s4, u5);
    let u3 = sx_stage(lit_px_tool_ci(), s3, u4);
    lemma_lit_str_round(lit_px_tool_ci(), s3, u4);
    lemma_lit_str_round(lit_px_created(), s4, u5);
    let c3 = lit_px_tool_ci().len() + json_escaped(s3).len() + 1;
    let c4 = lit_px_created().len() + json_escaped(s4).len() + 1;
    crate::text::lemma_skip_skip(t, c as int, c3 as int);
    assert(t.skip(c as int + c3 as int) == u3.skip(c3 as int));
    assert(t.skip(c as int + c3 as int) == u4);
    crate::text::lemma_skip_skip(t, c as int + c3 as int, c4 as int);
    assert(t.skip(c as int + c3 as int + c4 as int) == u4.skip(c4 as int));
    assert(t.skip(c as int + c3 as int + c4 as int) == u5);
    lemma_px_tool_parse_tail(t, (c + c3 + c4) as nat, s1, s2, s3, s4, s5, s6, s7, rest);
}

/// The stage shape of a tool node parses back to its pieces.
#[verifier::rlimit(100)]
proof fn lemma_px_tool_parse(
    s1: Seq<char>,
    s2: Seq<char>,
    s3: Seq<char>,
    s4: Seq<char>,
    s5: Seq<char>,
    s6: Seq<char>,
    s7: Seq<char>,
    rest: Seq<char>,
)
    ensures
        has_prefix(sx_tool_text(s1, s2, s3, s4, s5, s6, s7, rest), lit_px_tool_open()),
        sp_px_tool(sx_tool_text(s1, s2, s3, s4, s5, s6, s7, rest)) == Some::<
            (SpdxNodeView, nat),
        >(
            (
                SpdxNodeView::Tool {
                    spdx_id: s1,
                    props: ElementView {
                        name: Some(s2),
                        creation_info: CreationInfoView::Obj {
                            id: s3,
                            created: s4,
                            created_by: seq![
                                AgentView { spdx_id: s5, props: plain_elem_view(s6, s7) },
                            ],
                        },
                        verified_using: None,
                    },
                },
                (sx_tool_text(s1, s2, s3, s4, s5, s6, s7, rest).len() - rest.len()) as nat,
            ),
        ),
{
    let u3 = sx_stage(
        lit_px_tool_ci(),
        s3,
        sx_stage(
            lit_px_created(),
            s4,
            sx_stage(
                lit_px_createdby_org(),
                s5,
                sx_stage(
                    lit_px_name(),
                    s6,
                    sx_stage(lit_px_ci_ref(), s7, lit_px_tool_end() + rest),
                ),
            ),
        ),
    );
    let u2 = sx_stage(lit_px_name(), s2, u3);
    let u1 = sx_stage(lit_px_tool_open(), s1, u2);
    lemma_lit_str_round(lit_px_tool_open(), s1, u2);
    lemma_lit_str_round(lit_px_name(), s2, u3);
    let c1 = lit_px_tool_open().len() + json_escaped(s1).len() + 1;
    let c2 = lit_px_name().len() + json_escaped(s2).len() + 1;
    crate::text::lemma_skip_skip(u1, c1 as int, c2 as int);
    assert(u1.skip(c1 as int + c2 as int) == u2.skip(c2 as int));
    assert(u1.skip(c1 as int + c2 as int) == u3);
    lemma_px_tool_parse_mid(u1, (c1 + c2) as nat, s1, s2, s3, s4, s5, s6, s7, rest);
    assert(u1.len() - rest.len() == c1 + c2 + (lit_px_tool_ci().len() + json_escaped(
        s3,
    ).len() + 1) + (lit_px_created().len() + json_escaped(s4).len() + 1) + (
    lit_px_createdby_org().len() + json_escaped(s5).len() + 1) + (lit_px_name().len()
        + json_escaped(s6).len() + 1) + (lit_px_ci_ref().len() + json_escaped(s7).len() + 1)
        + 4);
}

/// Round trip of one canonical tool node.
#[verifier::rlimit(100)]
proof fn lemma_px_tool_round(n: SpdxNodeView, rest: Seq<char>)
    requires
        n is Tool,
        canonical_node(n),
    ensures
        has_prefix(sj_node(n) + rest, lit_px_tool_open()),
        sp_px_tool(sj_node(n) + rest) == Some::<(SpdxNodeView, nat)>(
            (n, sj_node(n).len() as nat),
        ),
{
    lemma_px_tool_text(n, rest);
    match n {
        SpdxNodeView::Tool { spdx_id, props } => {
            match props.creation_info {
                CreationInfoView::Obj { id, created, created_by } => {
                    let ag = created_by[0];
                    let s7 = match ag.props.creation_info {
                        CreationInfoView::Ref(x) => x,
                        _ => Seq::empty(),
                    };
                    lemma_px_tool_parse(
                        spdx_id,
                        props.name->0,
                        id,
                        created,
                        ag.spdx_id,
                        ag.props.name->0,
                        s7,
                        rest,
                    );
                    assert(ag.props =~= plain_elem_view(ag.props.name->0, s7));
                    assert(created_by =~= seq![ag]);
                    assert((SpdxNodeView::Tool {
                        spdx_id,
                        props: ElementView {
                            name: Some(props.name->0),
                            creation_info: CreationInfoView::Obj {
                                id,
                                created,
                                created_by: seq![
                                    AgentView {
                                        spdx_id: ag.spdx_id,
                                        props: plain_elem_view(ag.props.name->0, s7),
                                    },
                                ],
                            },
                            verified_using: None,
                        },
                    }) =~~= n);
                    assert(sj_node(n).len() + rest.len() == (sj_node(n) + rest).len());
                },
                CreationInfoView::Ref(x) => {
                    assert(false);
                },
            }
        },
        _ => {
            assert(false);
        },
    }
}

/// Round trip of one canonical package node.
#[verifier::rlimit(100)]
proof fn lemma_px_package_round(n: SpdxNodeView, rest: Seq<char>)
    requires
        n is Package,
        canonical_node(n),
        rest.len() > 0 ==> rest[0] != '}',
    ensures
        has_prefix(sj_node(n) + rest, lit_px_pkg_open()),
        sp_px_package(sj_node(n) + rest) == Some::<(SpdxNodeView, nat)>(
            (n, sj_node(n).len() as nat),
        ),
{
    lemma_px_lit_relations();
    let t = sj_node(n) + rest;
    match n {
        SpdxNodeView::Package { props, version } => {
            let s1 = props.name->0;
            let s2 = match props.creation_info {
                CreationInfoView::Ref(x) => x,
                _ => Seq::empty(),
            };
            let e1 = json_escaped(s1);
            let e2 = json_escaped(s2);
            let e3 = json_escaped(version);
            let u4 = seq!['}'] + rest;
            let u3 = lit_px_pkg_ver() + (e3 + (seq!['"'] + u4));
            let u2 = lit_px_ci_ref() + (e2 + (seq!['"'] + u3));
            let u1 = lit_px_pkg_open() + (e1 + (seq!['"'] + u2));
            assert(t =~= u1);
            lemma_lit_str_round(lit_px_pkg_open(), s1, u2);
            lemma_lit_str_round(lit_px_ci_ref(), s2, u3);
            lemma_lit_str_round(lit_px_pkg_ver(), version, u4);
            let c1 = lit_px_pkg_open().len() + e1.len() + 1;
            let c2 = lit_px_ci_ref().len() + e2.len() + 1;
            let c3 = lit_px_pkg_ver().len() + e3.len() + 1;
            assert(u1.skip(c1 as int) == u2);
            crate::text::lemma_skip_skip(u1, c1 as int, c2 as int);
            assert(u1.skip(c1 as int + c2 as int) == u2.skip(c2 as int));
            assert(u1.skip(c1 as int + c2 as int) == u3);
            crate::text::lemma_skip_skip(u1, c1 as int + c2 as int, c3 as int);
            assert(u1.skip(c1 as int + c2 as int + c3 as int) == u3.skip(c3 as int));
            assert(u1.skip(c1 as int + c2 as int + c3 as int) == u4);
            assert(u4[0] == '}');
            let parsed = SpdxNodeView::Package {
                props: plain_elem_view(s1, s2),
                version,
            };
            assert(props =~= plain_elem_view(s1, s2));
            assert(parsed =~~= n);
            assert(u1.len() == c1 + c2 + c3 + 1 + rest.len());
            assert(sj_node(n).len() + rest.len() == u1.len());
            assert(sp_px_package(t) == Some::<(SpdxNodeView, nat)>(
                (n, sj_node(n).len() as nat),
            ));
        },
        _ => {
            assert(false);
        },
    }
}

/// Round trip of one canonical file node without a digest.
#[verifier::rlimit(100)]
proof fn lemma_px_file_round_plain(n: SpdxNodeView, rest: Seq<char>)
    requires
        n is File,
        canonical_node(n),
        (match n {
            SpdxNodeView::File { props } => props.verified_using is None,
            _ => false,
        }),
        rest.len() > 0 ==> rest[0] != '}',
    ensures
        has_prefix(sj_node(n) + rest, lit_px_file_open()),
        sp_px_file(sj_node(n) + rest) == Some::<(SpdxNodeView, nat)>(
            (n, sj_node(n).len() as nat),
        ),
{
    lemma_px_lit_relations();
    let t = sj_node(n) + rest;
    match n {
        SpdxNodeView::File { props } => {
            let s1 = props.name->0;
            let s2 = match props.creation_info {
                CreationInfoView::Ref(x) => x,
                _ => Seq::empty(),
            };
            let e1 = json_escaped(s1);
            let e2 = json_escaped(s2);
            let u3 = seq!['}'] + rest;
            let u2 = lit_px_ci_ref() + (e2 + (seq!['"'] + u3));
            let u1 = lit_px_file_open() + (e1 + (seq!['"'] + u2));
            assert(t =~= u1);
            lemma_lit_str_round(lit_px_file_open(), s1, u2);
            lemma_lit_str_round(lit_px_ci_ref(), s2, u3);
            let c1 = lit_px_file_open().len() + e1.len() + 1;
            let c2 = lit_px_ci_ref().len() + e2.len() + 1;
            assert(u1.skip(c1 as int) == u2);
            crate::text::lemma_skip_skip(u1, c1 as int, c2 as int);
            assert(u1.skip(c1 as int + c2 as int) == u2.skip(c2 as int));
            assert(u1.skip(c1 as int + c2 as int) == u3);
            assert(u3[0] == '}');
            let parsed = SpdxNodeView::File { props: plain_elem_view(s1, s2) };
            assert(props =~= plain_elem_view(s1, s2));
            assert(parsed =~~= n);
            assert(u1.len() == c1 + c2 + 1 + rest.len());
            assert(sj_node(n).len() + rest.len() == u1.len());
            assert(sp_px_file(t) == Some::<(SpdxNodeView, nat)>((n, sj_node(n).len() as nat)));
        },
        _ => {
            assert(false);
        },
    }
}

/// The stage shape of a rendered hashed file node.
#[verifier::rlimit(100)]
proof fn lemma_px_file_hashed_text(n: SpdxNodeView, rest: Seq<char>)
    requires
        n is File,
        canonical_node(n),
        (match n {
            SpdxNodeView::File { props } => props.verified_using is Some,
            _ => false,
        }),
    ensures
        (match n {
            SpdxNodeView::File { props } => sj_node(n) + rest == sx_stage(
                lit_px_file_open(),
                props.name->0,
                sx_stage(
                    lit_px_ci_ref(),
                    (match props.creation_info {
                        CreationInfoView::Ref(x) => x,
                        _ => Seq::empty(),
                    }),
                    sx_stage(lit_px_vu(), props.verified_using->0[0], lit_px_file_end() + rest),
                ),
            ),
            _ => false,
        }),
{
    lemma_px_lit_relations();
    match n {
        SpdxNodeView::File { props } => {
            let hs = props.verified_using->0;
            let h = hs[0];
            assert(hs =~= seq![h]);
            assert(hs.drop_first() =~= Seq::<Seq<char>>::empty());
            assert(sj_hashes_rest(Seq::<Seq<char>>::empty()) == Seq::<char>::empty());
            assert(sj_hashes(hs) == sj_hash(h) + Seq::<char>::empty());
            let s2 = match props.creation_info {
                CreationInfoView::Ref(x) => x,
                _ => Seq::empty(),
            };
            assert(sj_node(n) + rest =~= sx_stage(
                lit_px_file_open(),
                props.name->0,
                sx_stage(
                    lit_px_ci_ref(),
                    s2,
                    sx_stage(lit_px_vu(), h, lit_px_file_end() + rest),
                ),
            ));
        },
        _ => {
            assert(false);
        },
    }
}

/// Round trip of one canonical file node carrying its digest.
#[verifier::rlimit(100)]
proof fn lemma_px_file_round_hashed(n: SpdxNodeView, rest: Seq<char>)
    requires
        n is File,
        canonical_node(n),
        (match n {
            SpdxNodeView::File { props } => props.verified_using is Some,
            _ => false,
        }),
        rest.len() > 0 ==> rest[0] != '}',
    ensures
        has_prefix(sj_node(n) + rest, lit_px_file_open()),
        sp_px_file(sj_node(n) + rest) == Some::<(SpdxNodeView, nat)>(
            (n, sj_node(n).len() as nat),
        ),
{
    lemma_px_file_hashed_text(n, rest);
    let t = sj_node(n) + rest;
    match n {
        SpdxNodeView::File { props } => {
            let s1 = props.name->0;
            let s2 = match props.creation_info {
                CreationInfoView::Ref(x) => x,
                _ => Seq::empty(),
            };
            let h = props.verified_using->0[0];
            let u4 = lit_px_file_end() + rest;
            let u3 = sx_stage(lit_px_vu(), h, u4);
            let u2 = sx_stage(lit_px_ci_ref(), s2, u3);
            let u1 = sx_stage(lit_px_file_open(), s1, u2);
            assert(t == u1);
            lemma_lit_str_round(lit_px_file_open(), s1, u2);
            lemma_lit_str_round(lit_px_ci_ref(), s2, u3);
            lemma_lit_str_round(lit_px_vu(), h, u4);
            let c1 = lit_px_file_open().len() + json_escaped(s1).len() + 1;
            let c2 = lit_px_ci_ref().len() + json_escaped(s2).len() + 1;
            let c3 = lit_px_vu().len() + json_escaped(h).len() + 1;
            crate::text::lemma_skip_skip(u1, c1 as int, c2 as int);
            assert(u1.skip(c1 as int + c2 as int) == u2.skip(c2 as int));
            assert(u1.skip(c1 as int + c2 as int) == u3);
            assert(u3[0] == ',') by {
                lemma_px_lit_relations();
            }
            crate::text::lemma_skip_skip(u1, c1 as int + c2 as int, c3 as int);
            assert(u1.skip(c1 as int + c2 as int + c3 as int) == u3.skip(c3 as int));
            assert(u1.skip(c1 as int + c2 as int + c3 as int) == u4);
            crate::text::lemma_has_prefix_concat(lit_px_file_end(), rest);
            let parsed = SpdxNodeView::File {
                props: ElementView {
                    name: Some(s1),
                    creation_info: CreationInfoView::Ref(s2),
                    verified_using: Some(seq![h]),
                },
            };
            assert(props.verified_using->0 =~= seq![h]);
            assert(parsed =~~= n);
            assert(u1.len() == c1 + c2 + c3 + 3 + rest.len());
            assert(sj_node(n).len() + rest.len() == u1.len());
            assert(sp_px_file(t) == Some::<(SpdxNodeView, nat)>((n, sj_node(n).len() as nat)));
        },
        _ => {
            assert(false);
        },
    }
}

/// Round trip of one canonical file node.
proof fn lemma_px_file_round(n: SpdxNodeView, rest: Seq<char>)
    requires
        n is File,
        canonical_node(n),
        rest.len() > 0 ==> rest[0] != '}',
    ensures
        has_prefix(sj_node(n) + rest, lit_px_file_open()),
        sp_px_file(sj_node(n) + rest) == Some::<(SpdxNodeView, nat)>(
            (n, sj_node(n).len() as nat),
        ),
{
    match n {
        SpdxNodeView::File { props } => {
            match props.verified_using {
                None => {
                    lemma_px_file_round_plain(n, rest);
                },
                Some(hs) => {
                    lemma_px_file_round_hashed(n, rest);
                },
            }
        },
        _ => {
            assert(false);
        },
    }
}

/// Round trip of one canonical node, through the kind dispatch.
#[verifier::rlimit(100)]
proof fn lemma_px_node_round(n: SpdxNodeView, rest: Seq<char>)
    requires
        canonical_node(n),
        rest.len() > 0 ==> rest[0] != '}',
    ensures
        sj_node(n).len() > 0,
        (sj_node(n) + rest)[0] == '{',
        sp_px_node(sj_node(n) + rest) == Some::<(SpdxNodeView, nat)>(
            (n, sj_node(n).len() as nat),
        ),
{
    lemma_px_lit_relations();
    let t = sj_node(n) + rest;
    match n {
        SpdxNodeView::Tool { spdx_id, props } => {
            lemma_px_tool_round(n, rest);
            assert(t[0] == lit_px_tool_open()[0]);
        },
        SpdxNodeView::Package { props, version } => {
            lemma_px_package_round(n, rest);
            assert(t[0] == lit_px_pkg_open()[0]);
            assert(!has_prefix(t, lit_px_tool_open())) by {
                if has_prefix(t, lit_px_tool_open()) {
                    assert(t.subrange(0, 25)[9] == lit_px_tool_open()[9]);
                    assert(t[9] == lit_px_pkg_open()[9]);
                }
            }
        },
        SpdxNodeView::File { props } => {
            lemma_px_file_round(n, rest);
            assert(t[0] == lit_px_file_open()[0]);
            assert(!has_prefix(t, lit_px_tool_open())) by {
                if has_prefix(t, lit_px_tool_open()) {
                    assert(t.subrange(0, 25)[9] == lit_px_tool_open()[9]);
                    assert(t[9] == lit_px_file_open()[9]);
                }
            }
            assert(!has_prefix(t, lit_px_pkg_open())) by {
                if has_prefix(t, lit_px_pkg_open()) {
                    assert(t.subrange(0, 35)[18] == lit_px_pkg_open()[18]);
                    assert(t[18] == lit_px_file_open()[18]);
                }
            }
        },
        SpdxNodeView::ContentId { value } => {
            assert(false);
        },
    }
}


/// Round trip of the continuation of a canonical node list.
#[verifier::rlimit(100)]
proof fn lemma_px_nodes_more_round(ns: Seq<SpdxNodeView>, rest: Seq<char>)
    requires
        forall|i: int| 0 <= i < ns.len() ==> canonical_node(#[trigger] ns[i]),
        rest.len() > 0,
        rest[0] == ']',
    ensures
        sp_px_nodes_more(sj_nodes_rest(ns) + rest) == Some::<(Seq<SpdxNodeView>, nat)>(
            (ns, sj_nodes_rest(ns).len() as nat),
        ),
    decreases ns.len(),
{
    let t = sj_nodes_rest(ns) + rest;
    if ns.len() == 0 {
        assert(sj_nodes_rest(ns) == Seq::<char>::empty());
        assert(t =~= rest);
        assert(t[0] == ']' && t[0] != ',');
        assert(ns =~= Seq::<SpdxNodeView>::empty());
    } else {
        let j0 = sj_node(ns[0]);
        let tail = sj_nodes_rest(ns.drop_first());
        assert(sj_nodes_rest(ns) == seq![','] + (j0 + tail));
        assert(t =~= seq![','] + (j0 + (tail + rest)));
        assert(t[0] == ',');
        crate::text::lemma_skip_of_concat(seq![','], j0 + (tail + rest));
        assert(t.skip(1) =~= j0 + (tail + rest));
        assert((tail + rest).len() > 0 && (tail + rest)[0] != '}') by {
            if ns.drop_first().len() == 0 {
                assert(tail == Seq::<char>::empty());
                assert(tail + rest =~= rest);
            } else {
                assert(sj_nodes_rest(ns.drop_first())[0] == ',');
            }
        }
        lemma_px_node_round(ns[0], tail + rest);
        assert(sp_px_node(t.skip(1)) == Some::<(SpdxNodeView, nat)>((ns[0], j0.len() as nat)));
        crate::text::lemma_skip_of_concat(j0, tail + rest);
        assert((j0 + (tail + rest)).skip(j0.len() as int) =~= tail + rest);
        crate::text::lemma_skip_skip(t, 1, j0.len() as int);
        assert(t.skip(1 + j0.len() as int) =~= tail + rest);
        lemma_px_nodes_more_round(ns.drop_first(), rest);
        assert(sp_px_nodes_more(tail + rest) == Some::<(Seq<SpdxNodeView>, nat)>(
            (ns.drop_first(), tail.len() as nat),
        ));
        assert(seq![ns[0]] + ns.drop_first() =~= ns);
        assert(sp_px_nodes_more(t) == Some::<(Seq<SpdxNodeView>, nat)>(
            (ns, (1 + j0.len() + tail.len()) as nat),
        ));
        assert(sj_nodes_rest(ns).len() == 1 + j0.len() + tail.len());
    }
}

/// Round trip of a canonical node list up to its closing bracket.
#[verifier::rlimit(100)]
proof fn lemma_px_nodes_round(ns: Seq<SpdxNodeView>, rest: Seq<char>)
    requires
        forall|i: int| 0 <= i < ns.len() ==> canonical_node(#[trigger] ns[i]),
        rest.len() > 0,
        rest[0] == ']',
    ensures
        sp_px_nodes(sj_nodes(ns) + rest) == Some::<(Seq<SpdxNodeView>, nat)>(
            (ns, sj_nodes(ns).len() as nat),
        ),
    decreases ns.len(),
{
    let t = sj_nodes(ns) + rest;
    if ns.len() == 0 {
        assert(sj_nodes(ns) == Seq::<char>::empty());
        assert(t =~= rest);
        assert(t[0] == ']');
        assert(ns =~= Seq::<SpdxNodeView>::empty());
    } else {
        let j0 = sj_node(ns[0]);
        let tail = sj_nodes_rest(ns.drop_first());
        assert(sj_nodes(ns) == j0 + tail);
        assert(t =~= j0 + (tail + rest));
        assert((tail + rest).len() > 0 && (tail + rest)[0] != '}') by {
            if ns.drop_first().len() == 0 {
                assert(tail == Seq::<char>::empty());
                assert(tail + rest =~= rest);
            } else {
                assert(sj_nodes_rest(ns.drop_first())[0] == ',');
            }
        }
        lemma_px_node_round(ns[0], tail + rest);
        assert(sp_px_node(t) == Some::<(SpdxNodeView, nat)>((ns[0], j0.len() as nat)));
        assert(t[0] == '{' && t[0] != ']');
        crate::text::lemma_skip_of_concat(j0, tail + rest);
        assert(t.skip(j0.len() as int) =~= tail + rest);
        lemma_px_nodes_more_round(ns.drop_first(), rest);
        assert(sp_px_nodes_more(tail + rest) == Some::<(Seq<SpdxNodeView>, nat)>(
            (ns.drop_first(), tail.len() as nat),
        ));
        assert(seq![ns[0]] + ns.drop_first() =~= ns);
        assert(sp_px_nodes(t) == Some::<(Seq<SpdxNodeView>, nat)>(
            (ns, (j0.len() + tail.len()) as nat),
        ));
        assert(sj_nodes(ns).len() == j0.len() + tail.len());
    }
}

/// Every package node flattened from a dependency record is canonical.
proof fn lemma_spdx_of_deps_canonical(d: DepsView)
    ensures
        forall|i: int| 0 <= i < spec_spdx_of_deps(d).len() ==> canonical_node(
            #[trigger] spec_spdx_of_deps(d)[i],
        ),
    decreases d, 1int,
{
    lemma_spdx_of_deps_seq_canonical(d.deps);
    assert forall|i: int| 0 <= i < spec_spdx_of_deps(d).len() implies canonical_node(
        #[trigger] spec_spdx_of_deps(d)[i],
    ) by {
        if i > 0 {
            assert(spec_spdx_of_deps(d)[i] == spec_spdx_of_deps_seq(d.deps)[i - 1]);
        }
    }
}

proof fn lemma_spdx_of_deps_seq_canonical(ds: Seq<DepsView>)
    ensures
        forall|i: int| 0 <= i < spec_spdx_of_deps_seq(ds).len() ==> canonical_node(
            #[trigger] spec_spdx_of_deps_seq(ds)[i],
        ),
    decreases ds, 0int,
{
    if ds.len() > 0 {
        lemma_spdx_of_deps_canonical(ds[0]);
        lemma_spdx_of_deps_seq_canonical(ds.drop_first());
        assert forall|i: int| 0 <= i < spec_spdx_of_deps_seq(ds).len() implies canonical_node(
            #[trigger] spec_spdx_of_deps_seq(ds)[i],
        ) by {
            let h = spec_spdx_of_deps(ds[0]);
            if i >= h.len() {
                assert(spec_spdx_of_deps_seq(ds)[i] == spec_spdx_of_deps_seq(ds.drop_first())[
                    i - h.len()]);
            }
        }
    }
}

/// Round trip of a whole built document: whatever graph the builders
/// assemble — the fixed shell, a flattened dependency tree, one file
/// node per source input — its canonical JSON text parses back to
/// exactly that graph.
#[verifier::rlimit(100)]
pub proof fn lemma_spdx_round_trip(deps: Option<DepsView>, fs: Seq<SourceInputView>)
    ensures
        sp_spdx_doc(
            spec_spdx_json((SpdxRootView { graph: spec_esstra_spdx_graph(deps, fs) })),
        ) == Some(SpdxRootView { graph: spec_esstra_spdx_graph(deps, fs) }),
{
    reveal(sp_spdx_doc);
    let g = spec_esstra_spdx_graph(deps, fs);
    assert forall|i: int| 0 <= i < g.len() implies canonical_node(#[trigger] g[i]) by {
        let base = spec_default_spdx_view().graph + (match deps {
            Some(d) => spec_spdx_of_deps(d),
            None => Seq::empty(),
        });
        if i < base.len() {
            if i < 1 {
                assert(canonical_node(spec_default_spdx_view().graph[0]));
            } else {
                match deps {
                    Some(d) => {
                        lemma_spdx_of_deps_canonical(d);
                        assert(base[i] == spec_spdx_of_deps(d)[i - 1]);
                    },
                    None => {
                    },
                }
            }
        } else {
            assert(g[i] == spec_file_nodes(fs)[i - base.len()]);
            assert(canonical_node(spec_file_node(fs[i - base.len()])));
        }
    }
    let t = spec_spdx_json((SpdxRootView { graph: g }));
    assert(t =~= lit_w_root_open() + (sj_nodes(g) + lit_w_bb()));
    crate::text::lemma_has_prefix_concat(lit_w_root_open(), sj_nodes(g) + lit_w_bb());
    crate::text::lemma_skip_of_concat(lit_w_root_open(), sj_nodes(g) + lit_w_bb());
    assert(t.skip(71) =~= sj_nodes(g) + lit_w_bb());
    assert(lit_w_bb()[0] == ']');
    lemma_px_nodes_round(g, lit_w_bb());
    assert(sp_px_nodes(t.skip(71)) == Some::<(Seq<SpdxNodeView>, nat)>(
        (g, sj_nodes(g).len() as nat),
    ));
    crate::text::lemma_skip_of_concat(sj_nodes(g), lit_w_bb());
    assert(t.skip(71).skip(sj_nodes(g).len() as int) =~= lit_w_bb());
    crate::text::lemma_has_prefix_concat(lit_w_bb(), Seq::empty());
    assert(lit_w_bb() + Seq::<char>::empty() =~= lit_w_bb());
    assert(has_prefix(t.skip(71).skip(sj_nodes(g).len() as int), lit_w_bb()));
    assert(t.skip(71).len() == sj_nodes(g).len() + 2);
}

} // verus!
