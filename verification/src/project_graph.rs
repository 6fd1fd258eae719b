//! The dependency edges `describe` draws between a project's resources.
use vstd::prelude::*;
use vstd::string::StrSliceExecFns;

use crate::text::{chars_of, copy_str, find, find_exec, lemma_find_spec, occurs_at, string_of_range, str_eq, views};
use crate::diff_output::JsonValue;
use crate::json::{
    Json, jv, member, member_in, as_str, as_bool, str_or, str_opt, items_of, strings_in, get,
    str_member, array_member, string_or, opt_string, bool_member, lemma_jv_unfold,
};

verus! {

/// Summary of an indexer.
#[derive(Clone, Debug)]
pub struct IndexerSummary {
    pub name: String,
    pub file_path: String,
    pub target_index: String,
    pub data_source: String,
    pub skillset: Option<String>,
}

/// Summary of a knowledge source.
#[derive(Clone, Debug)]
pub struct KnowledgeSourceSummary {
    pub name: String,
    pub file_path: String,
    pub description: Option<String>,
    pub kind: Option<String>,
    pub index_name: Option<String>,
    pub knowledge_base: Option<String>,
}

/// A dependency between resources.
#[derive(Clone, Debug)]
pub struct Dependency {
    pub from: String,
    pub to: String,
    pub kind: String,
}

/// A dependency as plain values: from, to, kind.
pub type Edge3 = (Seq<char>, Seq<char>, Seq<char>);

/// The dependencies as plain values.
pub open spec fn dep_views(ds: Seq<Dependency>) -> Seq<Edge3> {
    ds.map_values(|d: Dependency| (d.from@, d.to@, d.kind@))
}

/// The edges an indexer adds: its data source and target index when named,
/// and its skillset when it has one.
pub open spec fn indexer_edges(ix: IndexerSummary) -> Seq<Edge3> {
    let a: Seq<Edge3> = if ix.data_source@.len() > 0 {
        seq![(ix.name@, ix.data_source@, "Data Source"@)]
    } else {
        Seq::empty()
    };
    let b: Seq<Edge3> = if ix.target_index@.len() > 0 {
        seq![(ix.name@, ix.target_index@, "Index"@)]
    } else {
        Seq::empty()
    };
    let c: Seq<Edge3> = match ix.skillset {
        Some(s) => seq![(ix.name@, s@, "Skillset"@)],
        None => Seq::empty(),
    };
    a + b + c
}

/// Record one dependency.
pub fn push_dep(deps: &mut Vec<Dependency>, from: &String, to: &String, kind: &str)
    ensures
        dep_views(final(deps)@) == dep_views(old(deps)@).push((from@, to@, kind@)),
{
    let ghost before = deps@;
    deps.push(Dependency { from: from.clone(), to: to.clone(), kind: copy_str(kind) });
    assert(dep_views(deps@) =~= dep_views(before).push((from@, to@, kind@)));
}

/// Record an indexer's dependencies.
pub fn add_indexer_dependencies(indexer: &IndexerSummary, deps: &mut Vec<Dependency>)
    ensures
        dep_views(final(deps)@) == dep_views(old(deps)@) + indexer_edges(*indexer),
{
    let ghost start = dep_views(deps@);
    if indexer.data_source.as_str().unicode_len() > 0 {
        push_dep(deps, &indexer.name, &indexer.data_source, "Data Source");
    }
    if indexer.target_index.as_str().unicode_len() > 0 {
        push_dep(deps, &indexer.name, &indexer.target_index, "Index");
    }
    if let Some(skillset) = &indexer.skillset {
        push_dep(deps, &indexer.name, skillset, "Skillset");
    }
    assert(dep_views(deps@) =~= start + indexer_edges(*indexer));
}

/// The edges a knowledge source adds: its index and knowledge base, when
/// it names them.
pub open spec fn knowledge_source_edges(ks: KnowledgeSourceSummary) -> Seq<Edge3> {
    let a: Seq<Edge3> = match ks.index_name {
        Some(i) => seq![(ks.name@, i@, "Index"@)],
        None => Seq::empty(),
    };
    let b: Seq<Edge3> = match ks.knowledge_base {
        Some(k) => seq![(ks.name@, k@, "Knowledge Base"@)],
        None => Seq::empty(),
    };
    a + b
}

/// Record a knowledge source's dependencies.
pub fn add_knowledge_source_dependencies(ks: &KnowledgeSourceSummary, deps: &mut Vec<Dependency>)
    ensures
        dep_views(final(deps)@) == dep_views(old(deps)@) + knowledge_source_edges(*ks),
{
    let ghost start = dep_views(deps@);
    if let Some(idx) = &ks.index_name {
        push_dep(deps, &ks.name, idx, "Index");
    }
    if let Some(kb) = &ks.knowledge_base {
        push_dep(deps, &ks.name, kb, "Knowledge Base");
    }
    assert(dep_views(deps@) =~= start + knowledge_source_edges(*ks));
}

/// The knowledge base an MCP server URL names:
/// `…/knowledgebases/<kb-name>/…` gives `<kb-name>`; nothing when the marker
/// or the `/` after the name is missing.
pub open spec fn kb_of_mcp_url(url: Seq<char>) -> Option<Seq<char>> {
    match find(url, "/knowledgebases/"@) {
        None => None,
        Some(i) => {
            let rest = url.subrange(i + "/knowledgebases/"@.len(), url.len() as int);
            match find(rest, "/"@) {
                None => None,
                Some(j) => Some(rest.subrange(0, j)),
            }
        },
    }
}

/// Extract the knowledge base name from an MCP `server_url`.
pub fn extract_kb_from_mcp_url(url: Option<&str>) -> (r: Option<String>)
    ensures
        match url {
            None => r is None,
            Some(u) => match (r, kb_of_mcp_url(u@)) {
                (Some(a), Some(b)) => a@ == b,
                (None, None) => true,
                _ => false,
            },
        },
{
    let u = match url {
        Some(u) => u,
        None => return None,
    };
    let v = chars_of(u);
    let marker = chars_of("/knowledgebases/");
    let vl: usize = v.len();
    let ml: usize = marker.len();
    let i = match find_exec(&v, &marker) {
        Some(i) => i,
        None => return None,
    };
    proof {
        lemma_find_spec(v@, marker@, 0);
        assert(occurs_at(v@, marker@, i as int));
    }
    assert(i + ml <= vl);
    let start: usize = i + ml;
    let rest_s = string_of_range(&v, start, vl);
    let rest = chars_of(rest_s.as_str());
    let slash = chars_of("/");
    match find_exec(&rest, &slash) {
        Some(j) => {
            proof {
                lemma_find_spec(rest@, slash@, 0);
                assert(occurs_at(rest@, slash@, j as int));
            }
            let rl: usize = rest.len();
            assert(j <= rl);
            Some(string_of_range(&rest, 0, j))
        },
        None => None,
    }
}

// ---------------------------------------------------------------------------
// Summaries of resource definitions
// ---------------------------------------------------------------------------

/// Summary of an index field.
#[derive(Clone, Debug)]
pub struct FieldSummary {
    pub name: String,
    pub field_type: String,
    pub is_key: bool,
    pub analyzer: Option<String>,
}

/// Summary of an index.
#[derive(Clone, Debug)]
pub struct IndexSummary {
    pub name: String,
    pub file_path: String,
    pub fields: Vec<FieldSummary>,
    pub vector_profile_count: usize,
    pub has_semantic_config: bool,
}

/// Summary of a data source.
#[derive(Clone, Debug)]
pub struct DataSourceSummary {
    pub name: String,
    pub file_path: String,
    pub source_type: String,
    pub container: String,
}

/// Summary of a skill within a skillset.
#[derive(Clone, Debug)]
pub struct SkillEntry {
    pub odata_type: String,
    pub name: Option<String>,
}

/// Summary of a skillset.
#[derive(Clone, Debug)]
pub struct SkillsetSummary {
    pub name: String,
    pub file_path: String,
    pub skills: Vec<SkillEntry>,
}

/// Summary of a synonym map.
#[derive(Clone, Debug)]
pub struct SynonymMapSummary {
    pub name: String,
    pub file_path: String,
    pub format: String,
}

/// Summary of an alias.
#[derive(Clone, Debug)]
pub struct AliasSummary {
    pub name: String,
    pub file_path: String,
    pub indexes: Vec<String>,
}

/// Summary of a knowledge base.
#[derive(Clone, Debug)]
pub struct KnowledgeBaseSummary {
    pub name: String,
    pub file_path: String,
    pub description: Option<String>,
    pub retrieval_instructions: Option<String>,
    pub output_mode: Option<String>,
    pub knowledge_sources: Vec<String>,
}

/// Summary of a tool an agent uses.
#[derive(Clone, Debug)]
pub struct AgentToolSummary {
    pub tool_type: String,
    pub knowledge_base_name: Option<String>,
}

/// Summary of a Foundry agent.
#[derive(Clone, Debug)]
pub struct AgentSummary {
    pub name: String,
    pub file_path: String,
    pub model: String,
    pub tool_count: usize,
    pub tools: Vec<AgentToolSummary>,
    pub instructions: String,
}

/// The name of a resource definition, or `(unnamed)`.
pub open spec fn name_of(v: Json) -> Seq<char> {
    str_or(v, "name"@, "(unnamed)"@)
}

/// The name of a resource definition, or `(unnamed)`.
pub fn get_name(v: &JsonValue) -> (r: String)
    ensures
        r@ == name_of(jv(*v)),
{
    string_or(v, "name", "(unnamed)")
}

/// The items of an optional array value (none for anything else).
pub open spec fn array_items(j: Option<Json>) -> Seq<Json> {
    match j {
        Some(Json::Arr(xs)) => xs,
        _ => Seq::empty(),
    }
}

/// A field summary describes a field definition: its name, its type
/// (`unknown` when absent), whether it is the key, and its analyzer.
pub open spec fn field_describes(f: FieldSummary, v: Json) -> bool {
    &&& f.name@ == name_of(v)
    &&& f.field_type@ == str_or(v, "type"@, "unknown"@)
    &&& f.is_key == match as_bool(member(v, "key"@)) {
        Some(b) => b,
        None => false,
    }
    &&& str_opt(f.analyzer) == as_str(member(v, "analyzer"@))
}

/// Summarize an index field.
pub fn parse_field(v: &JsonValue) -> (f: FieldSummary)
    ensures
        field_describes(f, jv(*v)),
{
    FieldSummary {
        name: get_name(v),
        field_type: string_or(v, "type", "unknown"),
        is_key: match bool_member(v, "key") {
            Some(b) => b,
            None => false,
        },
        analyzer: opt_string(v, "analyzer"),
    }
}

/// The number of items of the array at `v.k1.k2` (0 when there is none).
fn nested_array_len(v: &JsonValue, k1: &str, k2: &str) -> (n: usize)
    ensures
        n == array_items(member_in(member(jv(*v), k1@), k2@)).len(),
{
    match get(v, k1) {
        Some(inner) => match array_member(inner, k2) {
            Some(a) => a.len(),
            None => 0,
        },
        None => 0,
    }
}

/// Summarize an index: its name, fields, vector profile count and whether
/// it has a semantic configuration.
pub fn parse_index(file_path: &str, v: &JsonValue) -> (r: IndexSummary)
    ensures
        r.name@ == name_of(jv(*v)),
        r.file_path@ == file_path@,
        r.fields@.len() == array_items(member(jv(*v), "fields"@)).len(),
        forall|i: int| 0 <= i < r.fields@.len() ==> field_describes(
            #[trigger] r.fields@[i],
            array_items(member(jv(*v), "fields"@))[i],
        ),
        r.vector_profile_count == array_items(member_in(member(jv(*v), "vectorSearch"@), "profiles"@)).len(),
        r.has_semantic_config == (array_items(member_in(member(jv(*v), "semantic"@), "configurations"@)).len() > 0),
{
    let mut fields: Vec<FieldSummary> = Vec::new();
    match array_member(v, "fields") {
        Some(a) => {
            let mut i: usize = 0;
            while i < a.len()
                invariant
                    i <= a@.len(),
                    items_of(a@) == array_items(member(jv(*v), "fields"@)),
                    fields@.len() == i,
                    forall|j: int| 0 <= j < i ==> field_describes(#[trigger] fields@[j], jv(a@[j])),
                decreases a@.len() - i,
            {
                fields.push(parse_field(&a[i]));
                i = i + 1;
            }
        },
        None => {},
    }
    let profiles = nested_array_len(v, "vectorSearch", "profiles");
    let configurations = nested_array_len(v, "semantic", "configurations");
    IndexSummary {
        name: get_name(v),
        file_path: copy_str(file_path),
        fields,
        vector_profile_count: profiles,
        has_semantic_config: configurations > 0,
    }
}

/// Summarize a data source: its type (`unknown` when absent) and the
/// container it reads (empty when absent).
pub fn parse_data_source(file_path: &str, v: &JsonValue) -> (r: DataSourceSummary)
    ensures
        r.name@ == name_of(jv(*v)),
        r.file_path@ == file_path@,
        r.source_type@ == str_or(jv(*v), "type"@, "unknown"@),
        r.container@ == match as_str(member_in(member(jv(*v), "container"@), "name"@)) {
            Some(c) => c,
            None => Seq::empty(),
        },
{
    let container = match get(v, "container") {
        Some(c) => string_or(c, "name", ""),
        None => copy_str(""),
    };
    proof {
        reveal_strlit("");
    }
    DataSourceSummary {
        name: get_name(v),
        file_path: copy_str(file_path),
        source_type: string_or(v, "type", "unknown"),
        container,
    }
}

/// Summarize an indexer: its target index and data source (empty when
/// absent) and its skillset.
pub fn parse_indexer(file_path: &str, v: &JsonValue) -> (r: IndexerSummary)
    ensures
        r.name@ == name_of(jv(*v)),
        r.file_path@ == file_path@,
        r.target_index@ == str_or(jv(*v), "targetIndexName"@, ""@),
        r.data_source@ == str_or(jv(*v), "dataSourceName"@, ""@),
        str_opt(r.skillset) == as_str(member(jv(*v), "skillsetName"@)),
{
    IndexerSummary {
        name: get_name(v),
        file_path: copy_str(file_path),
        target_index: string_or(v, "targetIndexName", ""),
        data_source: string_or(v, "dataSourceName", ""),
        skillset: opt_string(v, "skillsetName"),
    }
}

/// A skill entry describes a skill: its `@odata.type` (`unknown` when
/// absent) and its name.
pub open spec fn skill_describes(e: SkillEntry, v: Json) -> bool {
    &&& e.odata_type@ == str_or(v, "@odata.type"@, "unknown"@)
    &&& str_opt(e.name) == as_str(member(v, "name"@))
}

/// Summarize a skillset: its skills in order.
pub fn parse_skillset(file_path: &str, v: &JsonValue) -> (r: SkillsetSummary)
    ensures
        r.name@ == name_of(jv(*v)),
        r.file_path@ == file_path@,
        r.skills@.len() == array_items(member(jv(*v), "skills"@)).len(),
        forall|i: int| 0 <= i < r.skills@.len() ==> skill_describes(
            #[trigger] r.skills@[i],
            array_items(member(jv(*v), "skills"@))[i],
        ),
{
    let mut skills: Vec<SkillEntry> = Vec::new();
    match array_member(v, "skills") {
        Some(a) => {
            let mut i: usize = 0;
            while i < a.len()
                invariant
                    i <= a@.len(),
                    items_of(a@) == array_items(member(jv(*v), "skills"@)),
                    skills@.len() == i,
                    forall|j: int| 0 <= j < i ==> skill_describes(#[trigger] skills@[j], jv(a@[j])),
                decreases a@.len() - i,
            {
                let skill = &a[i];
                skills.push(SkillEntry {
                    odata_type: string_or(skill, "@odata.type", "unknown"),
                    name: opt_string(skill, "name"),
                });
                i = i + 1;
            }
        },
        None => {},
    }
    SkillsetSummary { name: get_name(v), file_path: copy_str(file_path), skills }
}

/// Summarize a synonym map: its format (`solr` when absent).
pub fn parse_synonym_map(file_path: &str, v: &JsonValue) -> (r: SynonymMapSummary)
    ensures
        r.name@ == name_of(jv(*v)),
        r.file_path@ == file_path@,
        r.format@ == str_or(jv(*v), "format"@, "solr"@),
{
    SynonymMapSummary {
        name: get_name(v),
        file_path: copy_str(file_path),
        format: string_or(v, "format", "solr"),
    }
}

/// The string texts of the array items, in order.
fn strings_of(a: &Vec<JsonValue>) -> (r: Vec<String>)
    ensures
        views(r@) == strings_in(items_of(a@)),
{
    let ghost xs = items_of(a@);
    let mut out: Vec<String> = Vec::new();
    let mut i: usize = 0;
    while i < a.len()
        invariant
            i <= a@.len(),
            xs == items_of(a@),
            views(out@) == strings_in(xs.take(i as int)),
        decreases a@.len() - i,
    {
        assert(xs.take(i + 1).drop_last() =~= xs.take(i as int));
        assert(xs.take(i + 1).last() == jv(a@[i as int]));
        proof {
            lemma_jv_unfold(a@[i as int]);
        }
        let ghost before = out@;
        match &a[i] {
            JsonValue::Str(s) => {
                out.push(copy_str(s.as_str()));
                assert(views(out@) =~= views(before).push(s@));
            },
            _ => {},
        }
        i = i + 1;
    }
    assert(xs.take(a@.len() as int) =~= xs);
    out
}

/// Summarize an alias: the string items of its `indexes`.
pub fn parse_alias(file_path: &str, v: &JsonValue) -> (r: AliasSummary)
    ensures
        r.name@ == name_of(jv(*v)),
        r.file_path@ == file_path@,
        views(r.indexes@) == strings_in(array_items(member(jv(*v), "indexes"@))),
{
    let indexes = match array_member(v, "indexes") {
        Some(a) => strings_of(a),
        None => Vec::new(),
    };
    proof {
        if array_items(member(jv(*v), "indexes"@)).len() == 0 {
            assert(views(indexes@) =~= Seq::empty());
        }
    }
    AliasSummary { name: get_name(v), file_path: copy_str(file_path), indexes }
}

/// A string member that is present and not empty.
pub open spec fn nonempty_str(j: Json, key: Seq<char>) -> Option<Seq<char>> {
    match as_str(member(j, key)) {
        Some(s) => if s.len() > 0 {
            Some(s)
        } else {
            None
        },
        None => None,
    }
}

/// A string member that is present and not empty, copied.
fn nonempty_string(v: &JsonValue, key: &str) -> (r: Option<String>)
    ensures
        str_opt(r) == nonempty_str(jv(*v), key@),
{
    match str_member(v, key) {
        Some(s) => {
            if chars_of(s).len() > 0 {
                Some(copy_str(s))
            } else {
                None
            }
        },
        None => None,
    }
}

/// The names of the knowledge sources a knowledge base lists, in order
/// (entries without a string `name` are skipped).
pub open spec fn source_names(xs: Seq<Json>) -> Seq<Seq<char>>
    decreases xs.len(),
{
    if xs.len() == 0 {
        Seq::empty()
    } else {
        let rest = source_names(xs.drop_last());
        match as_str(member(xs.last(), "name"@)) {
            Some(n) => rest.push(n),
            None => rest,
        }
    }
}

/// Summarize a knowledge base: its description and retrieval instructions
/// (when not empty), output mode, and the knowledge sources it lists.
pub fn parse_knowledge_base(file_path: &str, v: &JsonValue) -> (r: KnowledgeBaseSummary)
    ensures
        r.name@ == name_of(jv(*v)),
        r.file_path@ == file_path@,
        str_opt(r.description) == nonempty_str(jv(*v), "description"@),
        str_opt(r.retrieval_instructions) == nonempty_str(jv(*v), "retrievalInstructions"@),
        str_opt(r.output_mode) == as_str(member(jv(*v), "outputMode"@)),
        views(r.knowledge_sources@) == source_names(array_items(member(jv(*v), "knowledgeSources"@))),
{
    let mut sources: Vec<String> = Vec::new();
    match array_member(v, "knowledgeSources") {
        Some(a) => {
            let ghost xs = items_of(a@);
            let mut i: usize = 0;
            while i < a.len()
                invariant
                    i <= a@.len(),
                    xs == items_of(a@),
                    views(sources@) == source_names(xs.take(i as int)),
                decreases a@.len() - i,
            {
                assert(xs.take(i + 1).drop_last() =~= xs.take(i as int));
                assert(xs.take(i + 1).last() == jv(a@[i as int]));
                let ghost before = sources@;
                match str_member(&a[i], "name") {
                    Some(n) => {
                        sources.push(copy_str(n));
                        assert(views(sources@) =~= views(before).push(n@));
                    },
                    None => {},
                }
                i = i + 1;
            }
            assert(xs.take(a@.len() as int) =~= xs);
        },
        None => {
            assert(views(sources@) =~= Seq::empty());
        },
    }
    KnowledgeBaseSummary {
        name: get_name(v),
        file_path: copy_str(file_path),
        description: nonempty_string(v, "description"),
        retrieval_instructions: nonempty_string(v, "retrievalInstructions"),
        output_mode: opt_string(v, "outputMode"),
        knowledge_sources: sources,
    }
}

/// The index a knowledge source feeds: its `indexName`, else the index
/// among the `createdResources` of its blob parameters.
pub open spec fn ks_index_name(v: Json) -> Option<Seq<char>> {
    match as_str(member(v, "indexName"@)) {
        Some(n) => Some(n),
        None => as_str(
            member_in(member_in(member(v, "azureBlobParameters"@), "createdResources"@), "index"@),
        ),
    }
}

/// Summarize a knowledge source: its description (when not empty), kind,
/// index and knowledge base.
pub fn parse_knowledge_source(file_path: &str, v: &JsonValue) -> (r: KnowledgeSourceSummary)
    ensures
        r.name@ == name_of(jv(*v)),
        r.file_path@ == file_path@,
        str_opt(r.description) == nonempty_str(jv(*v), "description"@),
        str_opt(r.kind) == as_str(member(jv(*v), "kind"@)),
        str_opt(r.index_name) == ks_index_name(jv(*v)),
        str_opt(r.knowledge_base) == as_str(member(jv(*v), "knowledgeBaseName"@)),
{
    let index_name = match opt_string(v, "indexName") {
        Some(n) => Some(n),
        None => match get(v, "azureBlobParameters") {
            Some(b) => match get(b, "createdResources") {
                Some(cr) => opt_string(cr, "index"),
                None => None,
            },
            None => None,
        },
    };
    KnowledgeSourceSummary {
        name: get_name(v),
        file_path: copy_str(file_path),
        description: nonempty_string(v, "description"),
        kind: opt_string(v, "kind"),
        index_name,
        knowledge_base: opt_string(v, "knowledgeBaseName"),
    }
}

/// A tool summary describes an agent tool: its `type` (`unknown` when
/// absent) and, for an `mcp` tool, the knowledge base its server URL names.
pub open spec fn tool_describes(t: AgentToolSummary, v: Json) -> bool {
    let ty = str_or(v, "type"@, "unknown"@);
    &&& t.tool_type@ == ty
    &&& str_opt(t.knowledge_base_name) == if ty == "mcp"@ {
        match as_str(member(v, "server_url"@)) {
            Some(u) => kb_of_mcp_url(u),
            None => None,
        }
    } else {
        None
    }
}

/// Summarize an agent definition (already read from its YAML file):
/// its model and instructions (empty when absent) and its tools.
pub fn parse_agent(name: &str, file_path: &str, value: &JsonValue) -> (r: AgentSummary)
    ensures
        r.name@ == name@,
        r.file_path@ == file_path@,
        r.model@ == str_or(jv(*value), "model"@, ""@),
        r.instructions@ == str_or(jv(*value), "instructions"@, ""@),
        r.tool_count == r.tools@.len(),
        r.tools@.len() == array_items(member(jv(*value), "tools"@)).len(),
        forall|i: int| 0 <= i < r.tools@.len() ==> tool_describes(
            #[trigger] r.tools@[i],
            array_items(member(jv(*value), "tools"@))[i],
        ),
{
    let mut tools: Vec<AgentToolSummary> = Vec::new();
    match array_member(value, "tools") {
        Some(a) => {
            let mut i: usize = 0;
            while i < a.len()
                invariant
                    i <= a@.len(),
                    items_of(a@) == array_items(member(jv(*value), "tools"@)),
                    tools@.len() == i,
                    forall|j: int| 0 <= j < i ==> tool_describes(#[trigger] tools@[j], jv(a@[j])),
                decreases a@.len() - i,
            {
                let tool = &a[i];
                let tool_type = string_or(tool, "type", "unknown");
                let kb = if str_eq(tool_type.as_str(), "mcp") {
                    extract_kb_from_mcp_url(str_member(tool, "server_url"))
                } else {
                    None
                };
                tools.push(AgentToolSummary { tool_type, knowledge_base_name: kb });
                i = i + 1;
            }
        },
        None => {},
    }
    let n = tools.len();
    AgentSummary {
        name: copy_str(name),
        file_path: copy_str(file_path),
        model: string_or(value, "model", ""),
        tool_count: n,
        tools,
        instructions: string_or(value, "instructions", ""),
    }
}

} // verus!
