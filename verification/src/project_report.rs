//! The report `describe` gives of a whole project: every local resource
//! definition summarised, as a JSON document or as text.
use vstd::prelude::*;

use crate::diff_output::JsonValue;
use crate::json::{Json, jv, members_of, items_of, lemma_jv_unfold, str_opt, str_array, string_array};
use crate::project_graph::{
    AgentSummary, AgentToolSummary, AliasSummary, DataSourceSummary, Dependency, Edge3, FieldSummary,
    dep_views, push_dep,
    IndexSummary, IndexerSummary, KnowledgeBaseSummary, KnowledgeSourceSummary, SkillEntry,
    SkillsetSummary, SynonymMapSummary,
};
use crate::text::{
    push_char, chars_of, copy_str, decimal, decimal_string, join, join_strings, push_str, str_eq, string_of, trim_end,
    trim_end_vec, views,
};
use crate::docs::{lines, lines_spec};
use crate::sorting::{
    Ranked, insert_ranked, ranked, sort_ranked, text_less, text_less_exec, lemma_text_less_irreflexive,
    lemma_text_less_asymmetric, lemma_text_less_total, lemma_text_less_transitive, lemma_text_order,
};
use crate::proposals::contains_string;
use crate::diff_output::byte_len;

verus! {

/// All summaries of a project's resources, with its name and services.
#[derive(Clone, Debug)]
pub struct ProjectSummary {
    pub project_name: String,
    pub search_services: Vec<String>,
    pub foundry_services: Vec<String>,
    pub indexes: Vec<IndexSummary>,
    pub data_sources: Vec<DataSourceSummary>,
    pub indexers: Vec<IndexerSummary>,
    pub skillsets: Vec<SkillsetSummary>,
    pub synonym_maps: Vec<SynonymMapSummary>,
    pub aliases: Vec<AliasSummary>,
    pub knowledge_bases: Vec<KnowledgeBaseSummary>,
    pub knowledge_sources: Vec<KnowledgeSourceSummary>,
    pub agents: Vec<AgentSummary>,
    pub dependencies: Vec<Dependency>,
}

// ---------------------------------------------------------------------------
// The JSON document
// ---------------------------------------------------------------------------

/// A string, or `null` when there is none.
pub open spec fn text_or_null(o: Option<Seq<char>>) -> Json {
    match o {
        Some(s) => Json::Str(s),
        None => Json::Null,
    }
}

/// A count, as a JSON number.
pub open spec fn count_doc(n: nat) -> Json {
    Json::Num(decimal(n))
}

/// The name of the first key field.
pub open spec fn key_field_name(fs: Seq<FieldSummary>) -> Option<Seq<char>>
    decreases fs.len(),
{
    if fs.len() == 0 {
        None
    } else if fs[0].is_key {
        Some(fs[0].name@)
    } else {
        key_field_name(fs.drop_first())
    }
}

/// A field: name, type and key flag, and its analyzer when it has one.
pub open spec fn field_doc(f: FieldSummary) -> Json {
    let base = seq![("name"@, Json::Str(f.name@)), ("type"@, Json::Str(f.field_type@)), ("key"@, Json::Bool(f.is_key))];
    match f.analyzer {
        Some(a) => Json::Obj(base.push(("analyzer"@, Json::Str(a@)))),
        None => Json::Obj(base),
    }
}

/// An index.
pub open spec fn index_doc(i: IndexSummary) -> Json {
    Json::Obj(seq![
        ("name"@, Json::Str(i.name@)),
        ("file_path"@, Json::Str(i.file_path@)),
        ("field_count"@, count_doc(i.fields@.len())),
        ("key_field"@, text_or_null(key_field_name(i.fields@))),
        ("fields"@, Json::Arr(i.fields@.map_values(|f: FieldSummary| field_doc(f)))),
        ("vector_profile_count"@, count_doc(i.vector_profile_count as nat)),
        ("has_semantic_config"@, Json::Bool(i.has_semantic_config)),
    ])
}

/// A data source.
pub open spec fn data_source_doc(d: DataSourceSummary) -> Json {
    Json::Obj(seq![
        ("name"@, Json::Str(d.name@)),
        ("file_path"@, Json::Str(d.file_path@)),
        ("type"@, Json::Str(d.source_type@)),
        ("container"@, Json::Str(d.container@)),
    ])
}

/// An indexer.
pub open spec fn indexer_doc(x: IndexerSummary) -> Json {
    Json::Obj(seq![
        ("name"@, Json::Str(x.name@)),
        ("file_path"@, Json::Str(x.file_path@)),
        ("target_index"@, Json::Str(x.target_index@)),
        ("data_source"@, Json::Str(x.data_source@)),
        ("skillset"@, text_or_null(str_opt(x.skillset))),
    ])
}

/// A skill.
pub open spec fn skill_doc(s: SkillEntry) -> Json {
    Json::Obj(seq![("type"@, Json::Str(s.odata_type@)), ("name"@, text_or_null(str_opt(s.name)))])
}

/// A skillset.
pub open spec fn skillset_doc(s: SkillsetSummary) -> Json {
    Json::Obj(seq![
        ("name"@, Json::Str(s.name@)),
        ("file_path"@, Json::Str(s.file_path@)),
        ("skill_count"@, count_doc(s.skills@.len())),
        ("skills"@, Json::Arr(s.skills@.map_values(|k: SkillEntry| skill_doc(k)))),
    ])
}

/// A synonym map.
pub open spec fn synonym_map_doc(s: SynonymMapSummary) -> Json {
    Json::Obj(seq![
        ("name"@, Json::Str(s.name@)),
        ("file_path"@, Json::Str(s.file_path@)),
        ("format"@, Json::Str(s.format@)),
    ])
}

/// An alias.
pub open spec fn alias_doc(a: AliasSummary) -> Json {
    Json::Obj(seq![
        ("name"@, Json::Str(a.name@)),
        ("file_path"@, Json::Str(a.file_path@)),
        ("indexes"@, str_array(views(a.indexes@))),
    ])
}

/// A knowledge base.
pub open spec fn knowledge_base_doc(k: KnowledgeBaseSummary) -> Json {
    Json::Obj(seq![
        ("name"@, Json::Str(k.name@)),
        ("file_path"@, Json::Str(k.file_path@)),
        ("description"@, text_or_null(str_opt(k.description))),
        ("retrieval_instructions"@, text_or_null(str_opt(k.retrieval_instructions))),
        ("output_mode"@, text_or_null(str_opt(k.output_mode))),
        ("knowledge_sources"@, str_array(views(k.knowledge_sources@))),
    ])
}

/// A knowledge source.
pub open spec fn knowledge_source_doc(k: KnowledgeSourceSummary) -> Json {
    Json::Obj(seq![
        ("name"@, Json::Str(k.name@)),
        ("file_path"@, Json::Str(k.file_path@)),
        ("description"@, text_or_null(str_opt(k.description))),
        ("kind"@, text_or_null(str_opt(k.kind))),
        ("index_name"@, text_or_null(str_opt(k.index_name))),
        ("knowledge_base"@, text_or_null(str_opt(k.knowledge_base))),
    ])
}

/// A tool of an agent.
pub open spec fn tool_doc(t: AgentToolSummary) -> Json {
    Json::Obj(seq![
        ("type"@, Json::Str(t.tool_type@)),
        ("knowledge_base"@, text_or_null(str_opt(t.knowledge_base_name))),
    ])
}

/// An agent.
pub open spec fn agent_doc(a: AgentSummary) -> Json {
    Json::Obj(seq![
        ("name"@, Json::Str(a.name@)),
        ("file_path"@, Json::Str(a.file_path@)),
        ("model"@, Json::Str(a.model@)),
        ("tool_count"@, count_doc(a.tool_count as nat)),
        ("tools"@, Json::Arr(a.tools@.map_values(|t: AgentToolSummary| tool_doc(t)))),
        ("instructions"@, Json::Str(a.instructions@)),
    ])
}

/// A dependency.
pub open spec fn dependency_doc(d: Dependency) -> Json {
    Json::Obj(seq![("from"@, Json::Str(d.from@)), ("to"@, Json::Str(d.to@)), ("kind"@, Json::Str(d.kind@))])
}

/// The whole project as one JSON document.
pub open spec fn summary_doc(s: ProjectSummary) -> Json {
    Json::Obj(seq![
        ("project_name"@, Json::Str(s.project_name@)),
        ("search_services"@, str_array(views(s.search_services@))),
        ("foundry_services"@, str_array(views(s.foundry_services@))),
        ("indexes"@, Json::Arr(s.indexes@.map_values(|x: IndexSummary| index_doc(x)))),
        ("data_sources"@, Json::Arr(s.data_sources@.map_values(|x: DataSourceSummary| data_source_doc(x)))),
        ("indexers"@, Json::Arr(s.indexers@.map_values(|x: IndexerSummary| indexer_doc(x)))),
        ("skillsets"@, Json::Arr(s.skillsets@.map_values(|x: SkillsetSummary| skillset_doc(x)))),
        ("synonym_maps"@, Json::Arr(s.synonym_maps@.map_values(|x: SynonymMapSummary| synonym_map_doc(x)))),
        ("aliases"@, Json::Arr(s.aliases@.map_values(|x: AliasSummary| alias_doc(x)))),
        ("knowledge_bases"@, Json::Arr(s.knowledge_bases@.map_values(|x: KnowledgeBaseSummary| knowledge_base_doc(x)))),
        ("knowledge_sources"@, Json::Arr(
            s.knowledge_sources@.map_values(|x: KnowledgeSourceSummary| knowledge_source_doc(x)),
        )),
        ("agents"@, Json::Arr(s.agents@.map_values(|x: AgentSummary| agent_doc(x)))),
        ("dependencies"@, Json::Arr(s.dependencies@.map_values(|x: Dependency| dependency_doc(x)))),
    ])
}

fn entry(key: &str, v: JsonValue) -> (e: (String, JsonValue))
    ensures
        e.0@ == key@,
        e.1 == v,
{
    (copy_str(key), v)
}

fn text_json(s: &String) -> (r: JsonValue)
    ensures
        jv(r) == Json::Str(s@),
{
    JsonValue::Str(s.clone())
}

fn opt_json(o: &Option<String>) -> (r: JsonValue)
    ensures
        jv(r) == text_or_null(str_opt(*o)),
{
    match o {
        Some(s) => JsonValue::Str(s.clone()),
        None => JsonValue::Null,
    }
}

fn count_json(n: usize) -> (r: JsonValue)
    ensures
        jv(r) == count_doc(n as nat),
{
    JsonValue::Number(decimal_string(n))
}

fn object_of(es: Vec<(String, JsonValue)>) -> (r: JsonValue)
    ensures
        jv(r) == Json::Obj(members_of(es@)),
{
    let r = JsonValue::Object(es);
    proof {
        lemma_jv_unfold(r);
    }
    r
}

fn array_of(xs: Vec<JsonValue>) -> (r: JsonValue)
    ensures
        jv(r) == Json::Arr(items_of(xs@)),
{
    let r = JsonValue::Array(xs);
    proof {
        lemma_jv_unfold(r);
    }
    r
}

/// The first key field's name.
fn key_field(fs: &Vec<FieldSummary>) -> (r: Option<String>)
    ensures
        str_opt(r) == key_field_name(fs@),
{
    let mut i: usize = 0;
    assert(fs@.subrange(0, fs@.len() as int) =~= fs@);
    while i < fs.len()
        invariant
            i <= fs@.len(),
            key_field_name(fs@) == key_field_name(fs@.subrange(i as int, fs@.len() as int)),
        decreases fs@.len() - i,
    {
        assert(fs@.subrange(i as int, fs@.len() as int).drop_first() =~= fs@.subrange(i + 1, fs@.len() as int));
        if fs[i].is_key {
            return Some(fs[i].name.clone());
        }
        i += 1;
    }
    assert(fs@.subrange(i as int, fs@.len() as int) =~= Seq::<FieldSummary>::empty());
    None
}

fn field_json(f: &FieldSummary) -> (r: JsonValue)
    ensures
        jv(r) == field_doc(*f),
{
    let mut es: Vec<(String, JsonValue)> = Vec::new();
    es.push(entry("name", text_json(&f.name)));
    es.push(entry("type", text_json(&f.field_type)));
    es.push(entry("key", JsonValue::Bool(f.is_key)));
    match &f.analyzer {
        Some(a) => {
            es.push(entry("analyzer", text_json(a)));
        },
        None => {},
    }
    proof {
        if let Json::Obj(m) = field_doc(*f) {
            assert(members_of(es@) =~= m);
        }
    }
    object_of(es)
}

fn fields_json(xs: &Vec<FieldSummary>) -> (r: JsonValue)
    ensures
        jv(r) == Json::Arr(xs@.map_values(|f: FieldSummary| field_doc(f))),
{
    let mut out: Vec<JsonValue> = Vec::new();
    let mut i: usize = 0;
    while i < xs.len()
        invariant
            i <= xs@.len(),
            out@.len() == i,
            forall|j: int| 0 <= j < i ==> jv(#[trigger] out@[j]) == field_doc(xs@[j]),
        decreases xs@.len() - i,
    {
        out.push(field_json(&xs[i]));
        i += 1;
    }
    assert(items_of(out@) =~= xs@.map_values(|f: FieldSummary| field_doc(f)));
    array_of(out)
}

fn index_json(x: &IndexSummary) -> (r: JsonValue)
    ensures
        jv(r) == index_doc(*x),
{
    let mut es: Vec<(String, JsonValue)> = Vec::new();
    es.push(entry("name", text_json(&x.name)));
    es.push(entry("file_path", text_json(&x.file_path)));
    es.push(entry("field_count", count_json(x.fields.len())));
    let k = key_field(&x.fields);
    es.push(entry("key_field", opt_json(&k)));
    es.push(entry("fields", fields_json(&x.fields)));
    es.push(entry("vector_profile_count", count_json(x.vector_profile_count)));
    es.push(entry("has_semantic_config", JsonValue::Bool(x.has_semantic_config)));
    proof {
        if let Json::Obj(m) = index_doc(*x) {
            assert(members_of(es@) =~= m);
        }
    }
    object_of(es)
}

fn data_source_json(x: &DataSourceSummary) -> (r: JsonValue)
    ensures
        jv(r) == data_source_doc(*x),
{
    let mut es: Vec<(String, JsonValue)> = Vec::new();
    es.push(entry("name", text_json(&x.name)));
    es.push(entry("file_path", text_json(&x.file_path)));
    es.push(entry("type", text_json(&x.source_type)));
    es.push(entry("container", text_json(&x.container)));
    proof {
        if let Json::Obj(m) = data_source_doc(*x) {
            assert(members_of(es@) =~= m);
        }
    }
    object_of(es)
}

fn indexer_json(x: &IndexerSummary) -> (r: JsonValue)
    ensures
        jv(r) == indexer_doc(*x),
{
    let mut es: Vec<(String, JsonValue)> = Vec::new();
    es.push(entry("name", text_json(&x.name)));
    es.push(entry("file_path", text_json(&x.file_path)));
    es.push(entry("target_index", text_json(&x.target_index)));
    es.push(entry("data_source", text_json(&x.data_source)));
    es.push(entry("skillset", opt_json(&x.skillset)));
    proof {
        if let Json::Obj(m) = indexer_doc(*x) {
            assert(members_of(es@) =~= m);
        }
    }
    object_of(es)
}

fn skill_json(x: &SkillEntry) -> (r: JsonValue)
    ensures
        jv(r) == skill_doc(*x),
{
    let mut es: Vec<(String, JsonValue)> = Vec::new();
    es.push(entry("type", text_json(&x.odata_type)));
    es.push(entry("name", opt_json(&x.name)));
    proof {
        if let Json::Obj(m) = skill_doc(*x) {
            assert(members_of(es@) =~= m);
        }
    }
    object_of(es)
}

fn skills_json(xs: &Vec<SkillEntry>) -> (r: JsonValue)
    ensures
        jv(r) == Json::Arr(xs@.map_values(|k: SkillEntry| skill_doc(k))),
{
    let mut out: Vec<JsonValue> = Vec::new();
    let mut i: usize = 0;
    while i < xs.len()
        invariant
            i <= xs@.len(),
            out@.len() == i,
            forall|j: int| 0 <= j < i ==> jv(#[trigger] out@[j]) == skill_doc(xs@[j]),
        decreases xs@.len() - i,
    {
        out.push(skill_json(&xs[i]));
        i += 1;
    }
    assert(items_of(out@) =~= xs@.map_values(|k: SkillEntry| skill_doc(k)));
    array_of(out)
}

fn skillset_json(x: &SkillsetSummary) -> (r: JsonValue)
    ensures
        jv(r) == skillset_doc(*x),
{
    let mut es: Vec<(String, JsonValue)> = Vec::new();
    es.push(entry("name", text_json(&x.name)));
    es.push(entry("file_path", text_json(&x.file_path)));
    es.push(entry("skill_count", count_json(x.skills.len())));
    es.push(entry("skills", skills_json(&x.skills)));
    proof {
        if let Json::Obj(m) = skillset_doc(*x) {
            assert(members_of(es@) =~= m);
        }
    }
    object_of(es)
}

fn synonym_map_json(x: &SynonymMapSummary) -> (r: JsonValue)
    ensures
        jv(r) == synonym_map_doc(*x),
{
    let mut es: Vec<(String, JsonValue)> = Vec::new();
    es.push(entry("name", text_json(&x.name)));
    es.push(entry("file_path", text_json(&x.file_path)));
    es.push(entry("format", text_json(&x.format)));
    proof {
        if let Json::Obj(m) = synonym_map_doc(*x) {
            assert(members_of(es@) =~= m);
        }
    }
    object_of(es)
}

fn alias_json(x: &AliasSummary) -> (r: JsonValue)
    ensures
        jv(r) == alias_doc(*x),
{
    let mut es: Vec<(String, JsonValue)> = Vec::new();
    es.push(entry("name", text_json(&x.name)));
    es.push(entry("file_path", text_json(&x.file_path)));
    es.push(entry("indexes", string_array(&x.indexes)));
    proof {
        if let Json::Obj(m) = alias_doc(*x) {
            assert(members_of(es@) =~= m);
        }
    }
    object_of(es)
}

fn knowledge_base_json(x: &KnowledgeBaseSummary) -> (r: JsonValue)
    ensures
        jv(r) == knowledge_base_doc(*x),
{
    let mut es: Vec<(String, JsonValue)> = Vec::new();
    es.push(entry("name", text_json(&x.name)));
    es.push(entry("file_path", text_json(&x.file_path)));
    es.push(entry("description", opt_json(&x.description)));
    es.push(entry("retrieval_instructions", opt_json(&x.retrieval_instructions)));
    es.push(entry("output_mode", opt_json(&x.output_mode)));
    es.push(entry("knowledge_sources", string_array(&x.knowledge_sources)));
    proof {
        if let Json::Obj(m) = knowledge_base_doc(*x) {
            assert(members_of(es@) =~= m);
        }
    }
    object_of(es)
}

fn knowledge_source_json(x: &KnowledgeSourceSummary) -> (r: JsonValue)
    ensures
        jv(r) == knowledge_source_doc(*x),
{
    let mut es: Vec<(String, JsonValue)> = Vec::new();
    es.push(entry("name", text_json(&x.name)));
    es.push(entry("file_path", text_json(&x.file_path)));
    es.push(entry("description", opt_json(&x.description)));
    es.push(entry("kind", opt_json(&x.kind)));
    es.push(entry("index_name", opt_json(&x.index_name)));
    es.push(entry("knowledge_base", opt_json(&x.knowledge_base)));
    proof {
        if let Json::Obj(m) = knowledge_source_doc(*x) {
            assert(members_of(es@) =~= m);
        }
    }
    object_of(es)
}

fn tool_json(x: &AgentToolSummary) -> (r: JsonValue)
    ensures
        jv(r) == tool_doc(*x),
{
    let mut es: Vec<(String, JsonValue)> = Vec::new();
    es.push(entry("type", text_json(&x.tool_type)));
    es.push(entry("knowledge_base", opt_json(&x.knowledge_base_name)));
    proof {
        if let Json::Obj(m) = tool_doc(*x) {
            assert(members_of(es@) =~= m);
        }
    }
    object_of(es)
}

fn tools_json(xs: &Vec<AgentToolSummary>) -> (r: JsonValue)
    ensures
        jv(r) == Json::Arr(xs@.map_values(|t: AgentToolSummary| tool_doc(t))),
{
    let mut out: Vec<JsonValue> = Vec::new();
    let mut i: usize = 0;
    while i < xs.len()
        invariant
            i <= xs@.len(),
            out@.len() == i,
            forall|j: int| 0 <= j < i ==> jv(#[trigger] out@[j]) == tool_doc(xs@[j]),
        decreases xs@.len() - i,
    {
        out.push(tool_json(&xs[i]));
        i += 1;
    }
    assert(items_of(out@) =~= xs@.map_values(|t: AgentToolSummary| tool_doc(t)));
    array_of(out)
}

fn agent_json(x: &AgentSummary) -> (r: JsonValue)
    ensures
        jv(r) == agent_doc(*x),
{
    let mut es: Vec<(String, JsonValue)> = Vec::new();
    es.push(entry("name", text_json(&x.name)));
    es.push(entry("file_path", text_json(&x.file_path)));
    es.push(entry("model", text_json(&x.model)));
    es.push(entry("tool_count", count_json(x.tool_count)));
    es.push(entry("tools", tools_json(&x.tools)));
    es.push(entry("instructions", text_json(&x.instructions)));
    proof {
        if let Json::Obj(m) = agent_doc(*x) {
            assert(members_of(es@) =~= m);
        }
    }
    object_of(es)
}

fn dependency_json(x: &Dependency) -> (r: JsonValue)
    ensures
        jv(r) == dependency_doc(*x),
{
    let mut es: Vec<(String, JsonValue)> = Vec::new();
    es.push(entry("from", text_json(&x.from)));
    es.push(entry("to", text_json(&x.to)));
    es.push(entry("kind", text_json(&x.kind)));
    proof {
        if let Json::Obj(m) = dependency_doc(*x) {
            assert(members_of(es@) =~= m);
        }
    }
    object_of(es)
}

fn indexes_json(xs: &Vec<IndexSummary>) -> (r: JsonValue)
    ensures
        jv(r) == Json::Arr(xs@.map_values(|x: IndexSummary| index_doc(x))),
{
    let mut out: Vec<JsonValue> = Vec::new();
    let mut i: usize = 0;
    while i < xs.len()
        invariant
            i <= xs@.len(),
            out@.len() == i,
            forall|j: int| 0 <= j < i ==> jv(#[trigger] out@[j]) == index_doc(xs@[j]),
        decreases xs@.len() - i,
    {
        out.push(index_json(&xs[i]));
        i += 1;
    }
    assert(items_of(out@) =~= xs@.map_values(|x: IndexSummary| index_doc(x)));
    array_of(out)
}

fn data_sources_json(xs: &Vec<DataSourceSummary>) -> (r: JsonValue)
    ensures
        jv(r) == Json::Arr(xs@.map_values(|x: DataSourceSummary| data_source_doc(x))),
{
    let mut out: Vec<JsonValue> = Vec::new();
    let mut i: usize = 0;
    while i < xs.len()
        invariant
            i <= xs@.len(),
            out@.len() == i,
            forall|j: int| 0 <= j < i ==> jv(#[trigger] out@[j]) == data_source_doc(xs@[j]),
        decreases xs@.len() - i,
    {
        out.push(data_source_json(&xs[i]));
        i += 1;
    }
    assert(items_of(out@) =~= xs@.map_values(|x: DataSourceSummary| data_source_doc(x)));
    array_of(out)
}

fn indexers_json(xs: &Vec<IndexerSummary>) -> (r: JsonValue)
    ensures
        jv(r) == Json::Arr(xs@.map_values(|x: IndexerSummary| indexer_doc(x))),
{
    let mut out: Vec<JsonValue> = Vec::new();
    let mut i: usize = 0;
    while i < xs.len()
        invariant
            i <= xs@.len(),
            out@.len() == i,
            forall|j: int| 0 <= j < i ==> jv(#[trigger] out@[j]) == indexer_doc(xs@[j]),
        decreases xs@.len() - i,
    {
        out.push(indexer_json(&xs[i]));
        i += 1;
    }
    assert(items_of(out@) =~= xs@.map_values(|x: IndexerSummary| indexer_doc(x)));
    array_of(out)
}

fn skillsets_json(xs: &Vec<SkillsetSummary>) -> (r: JsonValue)
    ensures
        jv(r) == Json::Arr(xs@.map_values(|x: SkillsetSummary| skillset_doc(x))),
{
    let mut out: Vec<JsonValue> = Vec::new();
    let mut i: usize = 0;
    while i < xs.len()
        invariant
            i <= xs@.len(),
            out@.len() == i,
            forall|j: int| 0 <= j < i ==> jv(#[trigger] out@[j]) == skillset_doc(xs@[j]),
        decreases xs@.len() - i,
    {
        out.push(skillset_json(&xs[i]));
        i += 1;
    }
    assert(items_of(out@) =~= xs@.map_values(|x: SkillsetSummary| skillset_doc(x)));
    array_of(out)
}

fn synonym_maps_json(xs: &Vec<SynonymMapSummary>) -> (r: JsonValue)
    ensures
        jv(r) == Json::Arr(xs@.map_values(|x: SynonymMapSummary| synonym_map_doc(x))),
{
    let mut out: Vec<JsonValue> = Vec::new();
    let mut i: usize = 0;
    while i < xs.len()
        invariant
            i <= xs@.len(),
            out@.len() == i,
            forall|j: int| 0 <= j < i ==> jv(#[trigger] out@[j]) == synonym_map_doc(xs@[j]),
        decreases xs@.len() - i,
    {
        out.push(synonym_map_json(&xs[i]));
        i += 1;
    }
    assert(items_of(out@) =~= xs@.map_values(|x: SynonymMapSummary| synonym_map_doc(x)));
    array_of(out)
}

fn aliases_json(xs: &Vec<AliasSummary>) -> (r: JsonValue)
    ensures
        jv(r) == Json::Arr(xs@.map_values(|x: AliasSummary| alias_doc(x))),
{
    let mut out: Vec<JsonValue> = Vec::new();
    let mut i: usize = 0;
    while i < xs.len()
        invariant
            i <= xs@.len(),
            out@.len() == i,
            forall|j: int| 0 <= j < i ==> jv(#[trigger] out@[j]) == alias_doc(xs@[j]),
        decreases xs@.len() - i,
    {
        out.push(alias_json(&xs[i]));
        i += 1;
    }
    assert(items_of(out@) =~= xs@.map_values(|x: AliasSummary| alias_doc(x)));
    array_of(out)
}

fn knowledge_bases_json(xs: &Vec<KnowledgeBaseSummary>) -> (r: JsonValue)
    ensures
        jv(r) == Json::Arr(xs@.map_values(|x: KnowledgeBaseSummary| knowledge_base_doc(x))),
{
    let mut out: Vec<JsonValue> = Vec::new();
    let mut i: usize = 0;
    while i < xs.len()
        invariant
            i <= xs@.len(),
            out@.len() == i,
            forall|j: int| 0 <= j < i ==> jv(#[trigger] out@[j]) == knowledge_base_doc(xs@[j]),
        decreases xs@.len() - i,
    {
        out.push(knowledge_base_json(&xs[i]));
        i += 1;
    }
    assert(items_of(out@) =~= xs@.map_values(|x: KnowledgeBaseSummary| knowledge_base_doc(x)));
    array_of(out)
}

fn knowledge_sources_json(xs: &Vec<KnowledgeSourceSummary>) -> (r: JsonValue)
    ensures
        jv(r) == Json::Arr(xs@.map_values(|x: KnowledgeSourceSummary| knowledge_source_doc(x))),
{
    let mut out: Vec<JsonValue> = Vec::new();
    let mut i: usize = 0;
    while i < xs.len()
        invariant
            i <= xs@.len(),
            out@.len() == i,
            forall|j: int| 0 <= j < i ==> jv(#[trigger] out@[j]) == knowledge_source_doc(xs@[j]),
        decreases xs@.len() - i,
    {
        out.push(knowledge_source_json(&xs[i]));
        i += 1;
    }
    assert(items_of(out@) =~= xs@.map_values(|x: KnowledgeSourceSummary| knowledge_source_doc(x)));
    array_of(out)
}

fn agents_json(xs: &Vec<AgentSummary>) -> (r: JsonValue)
    ensures
        jv(r) == Json::Arr(xs@.map_values(|x: AgentSummary| agent_doc(x))),
{
    let mut out: Vec<JsonValue> = Vec::new();
    let mut i: usize = 0;
    while i < xs.len()
        invariant
            i <= xs@.len(),
            out@.len() == i,
            forall|j: int| 0 <= j < i ==> jv(#[trigger] out@[j]) == agent_doc(xs@[j]),
        decreases xs@.len() - i,
    {
        out.push(agent_json(&xs[i]));
        i += 1;
    }
    assert(items_of(out@) =~= xs@.map_values(|x: AgentSummary| agent_doc(x)));
    array_of(out)
}

fn dependencies_json(xs: &Vec<Dependency>) -> (r: JsonValue)
    ensures
        jv(r) == Json::Arr(xs@.map_values(|x: Dependency| dependency_doc(x))),
{
    let mut out: Vec<JsonValue> = Vec::new();
    let mut i: usize = 0;
    while i < xs.len()
        invariant
            i <= xs@.len(),
            out@.len() == i,
            forall|j: int| 0 <= j < i ==> jv(#[trigger] out@[j]) == dependency_doc(xs@[j]),
        decreases xs@.len() - i,
    {
        out.push(dependency_json(&xs[i]));
        i += 1;
    }
    assert(items_of(out@) =~= xs@.map_values(|x: Dependency| dependency_doc(x)));
    array_of(out)
}

/// The project as a JSON document: its name, services, every resource
/// summary and the dependencies between them.
pub fn summary_json(s: &ProjectSummary) -> (r: JsonValue)
    ensures
        jv(r) == summary_doc(*s),
{
    let mut es: Vec<(String, JsonValue)> = Vec::new();
    es.push(entry("project_name", text_json(&s.project_name)));
    es.push(entry("search_services", string_array(&s.search_services)));
    es.push(entry("foundry_services", string_array(&s.foundry_services)));
    es.push(entry("indexes", indexes_json(&s.indexes)));
    es.push(entry("data_sources", data_sources_json(&s.data_sources)));
    es.push(entry("indexers", indexers_json(&s.indexers)));
    es.push(entry("skillsets", skillsets_json(&s.skillsets)));
    es.push(entry("synonym_maps", synonym_maps_json(&s.synonym_maps)));
    es.push(entry("aliases", aliases_json(&s.aliases)));
    es.push(entry("knowledge_bases", knowledge_bases_json(&s.knowledge_bases)));
    es.push(entry("knowledge_sources", knowledge_sources_json(&s.knowledge_sources)));
    es.push(entry("agents", agents_json(&s.agents)));
    es.push(entry("dependencies", dependencies_json(&s.dependencies)));
    proof {
        if let Json::Obj(m) = summary_doc(*s) {
            assert(members_of(es@) =~= m);
        }
    }
    object_of(es)
}


// ---------------------------------------------------------------------------
// The text report
// ---------------------------------------------------------------------------

/// Blocks of lines laid one after another.
pub open spec fn stack(xs: Seq<Seq<Seq<char>>>) -> Seq<Seq<char>>
    decreases xs.len(),
{
    if xs.len() == 0 {
        Seq::empty()
    } else {
        stack(xs.drop_last()) + xs.last()
    }
}

/// One more block at the end adds its lines at the end.
pub proof fn lemma_stack_push(xs: Seq<Seq<Seq<char>>>, x: Seq<Seq<char>>)
    ensures
        stack(xs.push(x)) == stack(xs) + x,
{
    assert(xs.push(x).drop_last() =~= xs);
}

/// `text` line by line behind `prefix`; an empty line becomes the prefix
/// without its trailing whitespace.
pub open spec fn indented(text: Seq<char>, prefix: Seq<char>) -> Seq<Seq<char>> {
    lines_spec(text).map_values(|l: Seq<char>| if l.len() == 0 { trim_end(prefix) } else { prefix + l })
}

/// An optional description, indented.
pub open spec fn described(o: Option<String>, prefix: Seq<char>) -> Seq<Seq<char>> {
    match o {
        Some(d) => indented(d@, prefix),
        None => Seq::empty(),
    }
}

/// A titled listing of `n` items: `Title (n):`, the body, an empty line;
/// nothing at all when there are no items.
pub open spec fn section(n: nat, title: Seq<char>, body: Seq<Seq<char>>) -> Seq<Seq<char>> {
    if n == 0 {
        Seq::empty()
    } else {
        seq![title + " ("@ + decimal(n) + "):"@] + body + seq![Seq::<char>::empty()]
    }
}

/// `, key: <name>` for an index with a key field.
pub open spec fn key_info(i: IndexSummary) -> Seq<char> {
    match key_field_name(i.fields@) {
        Some(n) => ", key: "@ + n,
        None => Seq::empty(),
    }
}

/// A field: `name (type, key, analyzer: a)`, the last two when they apply.
pub open spec fn field_text(f: FieldSummary) -> Seq<char> {
    f.name@ + " ("@ + f.field_type@ + (if f.is_key { ", key"@ } else { Seq::empty() }) + (match f.analyzer {
        Some(a) => ", analyzer: "@ + a@,
        None => Seq::empty(),
    }) + ")"@
}

/// The fields of an index, five at most, then `...`.
pub open spec fn fields_line(fs: Seq<FieldSummary>) -> Seq<char> {
    let t = fs.map_values(|f: FieldSummary| field_text(f));
    if t.len() <= 5 {
        "    Fields: "@ + join(t, ", "@)
    } else {
        "    Fields: "@ + join(t.take(5), ", "@) + ", ..."@
    }
}

/// An index in the listing.
pub open spec fn index_lines(i: IndexSummary) -> Seq<Seq<char>> {
    seq![
        "  "@ + i.name@ + " ("@ + decimal(i.fields@.len()) + " fields"@ + key_info(i) + ")"@,
        fields_line(i.fields@),
    ] + (if i.vector_profile_count > 0 {
        seq!["    Vector search: "@ + decimal(i.vector_profile_count as nat) + " profile(s)"@]
    } else {
        Seq::empty()
    }) + (if i.has_semantic_config {
        seq!["    Semantic: default config"@]
    } else {
        Seq::empty()
    })
}

/// A data source in the listing.
pub open spec fn data_source_line(d: DataSourceSummary) -> Seq<char> {
    if d.container@.len() == 0 {
        "  "@ + d.name@ + " ("@ + d.source_type@ + ")"@
    } else {
        "  "@ + d.name@ + " ("@ + d.source_type@ + " -> "@ + d.container@ + ")"@
    }
}

/// An indexer in the listing.
pub open spec fn indexer_lines(x: IndexerSummary) -> Seq<Seq<char>> {
    seq![
        "  "@ + x.name@,
        "    Index: "@ + x.target_index@ + " | Data Source: "@ + x.data_source@ + (match x.skillset {
            Some(s) => " | Skillset: "@ + s@,
            None => Seq::empty(),
        }),
    ]
}

/// A skill in the listing.
pub open spec fn skill_line(k: SkillEntry) -> Seq<char> {
    match k.name {
        Some(n) => "    - "@ + k.odata_type@ + " ("@ + n@ + ")"@,
        None => "    - "@ + k.odata_type@,
    }
}

/// A skillset in the listing.
pub open spec fn skillset_lines(s: SkillsetSummary) -> Seq<Seq<char>> {
    seq!["  "@ + s.name@ + " ("@ + decimal(s.skills@.len()) + " skills)"@] + s.skills@.map_values(
        |k: SkillEntry| skill_line(k),
    )
}

/// A synonym map in the listing.
pub open spec fn synonym_map_line(m: SynonymMapSummary) -> Seq<char> {
    "  "@ + m.name@ + " ("@ + m.format@ + " format)"@
}

/// An alias in the listing.
pub open spec fn alias_line(a: AliasSummary) -> Seq<char> {
    "  "@ + a.name@ + " -> "@ + join(views(a.indexes@), ", "@)
}

/// A knowledge base in the listing.
pub open spec fn knowledge_base_lines(k: KnowledgeBaseSummary) -> Seq<Seq<char>> {
    seq![
        "  "@ + k.name@ + (if k.knowledge_sources@.len() == 0 {
            Seq::empty()
        } else {
            " -> "@ + join(views(k.knowledge_sources@), ", "@)
        }),
    ] + described(k.description, "    "@)
}

/// ` (kind)` for a knowledge source with a kind.
pub open spec fn kind_part(k: KnowledgeSourceSummary) -> Seq<char> {
    match k.kind {
        Some(x) => " ("@ + x@ + ")"@,
        None => Seq::empty(),
    }
}

/// What a knowledge source points at: its index, then its knowledge base.
pub open spec fn source_targets(k: KnowledgeSourceSummary) -> Seq<Seq<char>> {
    (match k.index_name {
        Some(i) => seq!["Index: "@ + i@],
        None => Seq::empty(),
    }) + (match k.knowledge_base {
        Some(b) => seq!["KB: "@ + b@],
        None => Seq::empty(),
    })
}

/// A knowledge source in the listing.
pub open spec fn knowledge_source_lines(k: KnowledgeSourceSummary) -> Seq<Seq<char>> {
    seq![
        "  "@ + k.name@ + kind_part(k) + (if source_targets(k).len() == 0 {
            Seq::empty()
        } else {
            " -> "@ + join(source_targets(k), ", "@)
        }),
    ] + described(k.description, "    "@)
}

/// The flat listing of the search resources, kind by kind.
pub open spec fn search_resource_lines(s: ProjectSummary) -> Seq<Seq<char>> {
    section(s.indexes@.len(), "Indexes"@, stack(s.indexes@.map_values(|x: IndexSummary| index_lines(x))))
        + section(s.data_sources@.len(), "Data Sources"@, s.data_sources@.map_values(|x: DataSourceSummary| data_source_line(x)))
        + section(s.indexers@.len(), "Indexers"@, stack(s.indexers@.map_values(|x: IndexerSummary| indexer_lines(x))))
        + section(s.skillsets@.len(), "Skillsets"@, stack(s.skillsets@.map_values(|x: SkillsetSummary| skillset_lines(x))))
        + section(s.synonym_maps@.len(), "Synonym Maps"@, s.synonym_maps@.map_values(|x: SynonymMapSummary| synonym_map_line(x)))
        + section(s.aliases@.len(), "Aliases"@, s.aliases@.map_values(|x: AliasSummary| alias_line(x)))
        + section(
            s.knowledge_bases@.len(),
            "Knowledge Bases"@,
            stack(s.knowledge_bases@.map_values(|x: KnowledgeBaseSummary| knowledge_base_lines(x))),
        )
        + section(
            s.knowledge_sources@.len(),
            "Knowledge Sources"@,
            stack(s.knowledge_sources@.map_values(|x: KnowledgeSourceSummary| knowledge_source_lines(x))),
        )
}

fn add_line(out: &mut Vec<String>, s: String)
    ensures
        views(final(out)@) == views(old(out)@).push(s@),
{
    let ghost o = out@;
    out.push(s);
    assert(views(out@) =~= views(o).push(s@));
}

fn add_lines(out: &mut Vec<String>, more: Vec<String>)
    ensures
        views(final(out)@) == views(old(out)@) + views(more@),
{
    let ghost o = out@;
    let ghost m0 = more@;
    let mut m = more;
    out.append(&mut m);
    assert(views(out@) =~= views(o) + views(m0));
}

/// `text` line by line behind `prefix`; an empty line becomes the prefix
/// without its trailing whitespace.
pub fn indented_lines(text: &str, prefix: &str) -> (r: Vec<String>)
    ensures
        views(r@) == indented(text@, prefix@),
{
    let ls = lines(text);
    let pv = chars_of(prefix);
    let bare = string_of(&trim_end_vec(&pv));
    let mut out: Vec<String> = Vec::new();
    let mut i: usize = 0;
    while i < ls.len()
        invariant
            i <= ls@.len(),
            views(ls@) == lines_spec(text@),
            bare@ == trim_end(prefix@),
            out@.len() == i,
            forall|j: int|
                0 <= j < i ==> (#[trigger] out@[j])@ == (if ls@[j]@.len() == 0 {
                    trim_end(prefix@)
                } else {
                    prefix@ + ls@[j]@
                }),
        decreases ls@.len() - i,
    {
        if ls[i].as_str().is_empty() {
            out.push(bare.clone());
        } else {
            let mut l = copy_str(prefix);
            push_str(&mut l, ls[i].as_str());
            out.push(l);
        }
        i += 1;
    }
    proof {
        assert forall|j: int| 0 <= j < ls@.len() implies lines_spec(text@)[j] == (#[trigger] ls@[j])@ by {
            assert(views(ls@)[j] == ls@[j]@);
        }
        assert(views(out@) =~= indented(text@, prefix@));
    }
    out
}

fn described_lines(o: &Option<String>, prefix: &str) -> (r: Vec<String>)
    ensures
        views(r@) == described(*o, prefix@),
{
    match o {
        Some(d) => indented_lines(d.as_str(), prefix),
        None => {
            let r: Vec<String> = Vec::new();
            assert(views(r@) =~= Seq::<Seq<char>>::empty());
            r
        },
    }
}

fn section_lines(n: usize, title: &str, body: Vec<String>) -> (r: Vec<String>)
    ensures
        views(r@) == section(n as nat, title@, views(body@)),
{
    let mut out: Vec<String> = Vec::new();
    if n == 0 {
        assert(views(out@) =~= Seq::<Seq<char>>::empty());
        return out;
    }
    let mut t = copy_str(title);
    push_str(&mut t, " (");
    let d = decimal_string(n);
    push_str(&mut t, d.as_str());
    push_str(&mut t, "):");
    let ghost t0 = t@;
    out.push(t);
    assert(views(out@) =~= seq![t0]);
    add_lines(&mut out, body);
    add_line(&mut out, String::new());
    out
}


fn key_info_text(i: &IndexSummary) -> (r: String)
    ensures
        r@ == key_info(*i),
{
    match key_field(&i.fields) {
        Some(n) => {
            let mut r = copy_str(", key: ");
            push_str(&mut r, n.as_str());
            r
        },
        None => String::new(),
    }
}

fn field_text_of(f: &FieldSummary) -> (r: String)
    ensures
        r@ == field_text(*f),
{
    let mut r = f.name.clone();
    push_str(&mut r, " (");
    push_str(&mut r, f.field_type.as_str());
    if f.is_key {
        push_str(&mut r, ", key");
    } else {
        push_str(&mut r, "");
    }
    match &f.analyzer {
        Some(a) => {
            let mut x = copy_str(", analyzer: ");
            push_str(&mut x, a.as_str());
            push_str(&mut r, x.as_str());
        },
        None => {
            push_str(&mut r, "");
        },
    }
    push_str(&mut r, ")");
    proof {
        assert(""@ =~= Seq::<char>::empty()) by {
            reveal_strlit("");
        }
    }
    r
}

fn fields_line_of(fs: &Vec<FieldSummary>) -> (r: String)
    ensures
        r@ == fields_line(fs@),
{
    let ghost t = fs@.map_values(|f: FieldSummary| field_text(f));
    let k: usize = if fs.len() <= 5 { fs.len() } else { 5 };
    let mut ts: Vec<String> = Vec::new();
    let mut i: usize = 0;
    while i < k
        invariant
            k <= fs@.len(),
            i <= k,
            t == fs@.map_values(|f: FieldSummary| field_text(f)),
            views(ts@) == t.take(i as int),
        decreases k - i,
    {
        let ghost before = views(ts@);
        ts.push(field_text_of(&fs[i]));
        assert(views(ts@) =~= before.push(t[i as int]));
        assert(t.take(i + 1) =~= t.take(i as int).push(t[i as int]));
        i += 1;
    }
    let j = join_strings(&ts, ", ");
    let mut r = copy_str("    Fields: ");
    push_str(&mut r, j.as_str());
    if fs.len() > 5 {
        push_str(&mut r, ", ...");
    } else {
        assert(t.take(k as int) =~= t);
    }
    r
}

fn index_lines_of(x: &IndexSummary) -> (r: Vec<String>)
    ensures
        views(r@) == index_lines(*x),
{
    let mut out: Vec<String> = Vec::new();
    let mut h = copy_str("  ");
    push_str(&mut h, x.name.as_str());
    push_str(&mut h, " (");
    let d = decimal_string(x.fields.len());
    push_str(&mut h, d.as_str());
    push_str(&mut h, " fields");
    let k = key_info_text(x);
    push_str(&mut h, k.as_str());
    push_str(&mut h, ")");
    add_line(&mut out, h);
    add_line(&mut out, fields_line_of(&x.fields));
    let ghost a = views(out@);
    if x.vector_profile_count > 0 {
        let mut v = copy_str("    Vector search: ");
        let d = decimal_string(x.vector_profile_count);
        push_str(&mut v, d.as_str());
        push_str(&mut v, " profile(s)");
        add_line(&mut out, v);
    }
    let ghost b = views(out@);
    if x.has_semantic_config {
        add_line(&mut out, copy_str("    Semantic: default config"));
    }
    proof {
        let vs: Seq<Seq<char>> = if x.vector_profile_count > 0 {
            seq!["    Vector search: "@ + decimal(x.vector_profile_count as nat) + " profile(s)"@]
        } else {
            Seq::empty()
        };
        let ss: Seq<Seq<char>> = if x.has_semantic_config {
            seq!["    Semantic: default config"@]
        } else {
            Seq::empty()
        };
        assert(b =~= a + vs);
        assert(views(out@) =~= a + vs + ss);
    }
    out
}

fn data_source_line_of(d: &DataSourceSummary) -> (r: String)
    ensures
        r@ == data_source_line(*d),
{
    let mut r = copy_str("  ");
    push_str(&mut r, d.name.as_str());
    push_str(&mut r, " (");
    push_str(&mut r, d.source_type.as_str());
    if !d.container.as_str().is_empty() {
        push_str(&mut r, " -> ");
        push_str(&mut r, d.container.as_str());
    }
    push_str(&mut r, ")");
    r
}

fn indexer_lines_of(x: &IndexerSummary) -> (r: Vec<String>)
    ensures
        views(r@) == indexer_lines(*x),
{
    let mut out: Vec<String> = Vec::new();
    let mut h = copy_str("  ");
    push_str(&mut h, x.name.as_str());
    add_line(&mut out, h);
    let mut l = copy_str("    Index: ");
    push_str(&mut l, x.target_index.as_str());
    push_str(&mut l, " | Data Source: ");
    push_str(&mut l, x.data_source.as_str());
    match &x.skillset {
        Some(s) => {
            let mut p = copy_str(" | Skillset: ");
            push_str(&mut p, s.as_str());
            push_str(&mut l, p.as_str());
        },
        None => {
            let e = String::new();
            push_str(&mut l, e.as_str());
        },
    }
    add_line(&mut out, l);
    assert(views(out@) =~= indexer_lines(*x));
    out
}

fn skill_line_of(k: &SkillEntry) -> (r: String)
    ensures
        r@ == skill_line(*k),
{
    let mut r = copy_str("    - ");
    push_str(&mut r, k.odata_type.as_str());
    match &k.name {
        Some(n) => {
            push_str(&mut r, " (");
            push_str(&mut r, n.as_str());
            push_str(&mut r, ")");
        },
        None => {},
    }
    r
}

fn skillset_lines_of(s: &SkillsetSummary) -> (r: Vec<String>)
    ensures
        views(r@) == skillset_lines(*s),
{
    let mut out: Vec<String> = Vec::new();
    let mut h = copy_str("  ");
    push_str(&mut h, s.name.as_str());
    push_str(&mut h, " (");
    let d = decimal_string(s.skills.len());
    push_str(&mut h, d.as_str());
    push_str(&mut h, " skills)");
    let ghost h0 = h@;
    add_line(&mut out, h);
    let mut i: usize = 0;
    while i < s.skills.len()
        invariant
            i <= s.skills@.len(),
            views(out@) == seq![h0] + s.skills@.take(i as int).map_values(|k: SkillEntry| skill_line(k)),
        decreases s.skills@.len() - i,
    {
        add_line(&mut out, skill_line_of(&s.skills[i]));
        assert(s.skills@.take(i + 1).map_values(|k: SkillEntry| skill_line(k)) =~= s.skills@.take(
            i as int,
        ).map_values(|k: SkillEntry| skill_line(k)).push(skill_line(s.skills@[i as int])));
        i += 1;
    }
    assert(s.skills@.take(s.skills@.len() as int) =~= s.skills@);
    out
}

fn synonym_map_line_of(m: &SynonymMapSummary) -> (r: String)
    ensures
        r@ == synonym_map_line(*m),
{
    let mut r = copy_str("  ");
    push_str(&mut r, m.name.as_str());
    push_str(&mut r, " (");
    push_str(&mut r, m.format.as_str());
    push_str(&mut r, " format)");
    r
}

fn alias_line_of(a: &AliasSummary) -> (r: String)
    ensures
        r@ == alias_line(*a),
{
    let mut r = copy_str("  ");
    push_str(&mut r, a.name.as_str());
    push_str(&mut r, " -> ");
    let j = join_strings(&a.indexes, ", ");
    push_str(&mut r, j.as_str());
    r
}

fn knowledge_base_lines_of(k: &KnowledgeBaseSummary) -> (r: Vec<String>)
    ensures
        views(r@) == knowledge_base_lines(*k),
{
    let mut out: Vec<String> = Vec::new();
    let mut h = copy_str("  ");
    push_str(&mut h, k.name.as_str());
    let mut tail = String::new();
    if k.knowledge_sources.len() > 0 {
        tail = copy_str(" -> ");
        let j = join_strings(&k.knowledge_sources, ", ");
        push_str(&mut tail, j.as_str());
    }
    push_str(&mut h, tail.as_str());
    add_line(&mut out, h);
    add_lines(&mut out, described_lines(&k.description, "    "));
    out
}

fn source_targets_of(k: &KnowledgeSourceSummary) -> (r: Vec<String>)
    ensures
        views(r@) == source_targets(*k),
{
    let mut out: Vec<String> = Vec::new();
    match &k.index_name {
        Some(i) => {
            let mut t = copy_str("Index: ");
            push_str(&mut t, i.as_str());
            add_line(&mut out, t);
        },
        None => {},
    }
    match &k.knowledge_base {
        Some(b) => {
            let mut t = copy_str("KB: ");
            push_str(&mut t, b.as_str());
            add_line(&mut out, t);
        },
        None => {},
    }
    assert(views(out@) =~= source_targets(*k));
    out
}

fn knowledge_source_lines_of(k: &KnowledgeSourceSummary) -> (r: Vec<String>)
    ensures
        views(r@) == knowledge_source_lines(*k),
{
    let mut out: Vec<String> = Vec::new();
    let mut h = copy_str("  ");
    push_str(&mut h, k.name.as_str());
    let mut kp = String::new();
    match &k.kind {
        Some(x) => {
            kp = copy_str(" (");
            push_str(&mut kp, x.as_str());
            push_str(&mut kp, ")");
        },
        None => {},
    }
    push_str(&mut h, kp.as_str());
    let ts = source_targets_of(k);
    let mut tail = String::new();
    if ts.len() > 0 {
        tail = copy_str(" -> ");
        let j = join_strings(&ts, ", ");
        push_str(&mut tail, j.as_str());
    }
    push_str(&mut h, tail.as_str());
    add_line(&mut out, h);
    add_lines(&mut out, described_lines(&k.description, "    "));
    out
}


fn indexes_text(xs: &Vec<IndexSummary>) -> (r: Vec<String>)
    ensures
        views(r@) == stack(xs@.map_values(|x: IndexSummary| index_lines(x))),
{
    let mut out: Vec<String> = Vec::new();
    let mut i: usize = 0;
    while i < xs.len()
        invariant
            i <= xs@.len(),
            views(out@) == stack(xs@.take(i as int).map_values(|x: IndexSummary| index_lines(x))),
        decreases xs@.len() - i,
    {
        let ghost before = xs@.take(i as int).map_values(|x: IndexSummary| index_lines(x));
        add_lines(&mut out, index_lines_of(&xs[i]));
        proof {
            assert(xs@.take(i + 1).map_values(|x: IndexSummary| index_lines(x)) =~= before.push(index_lines(xs@[i as int])));
            lemma_stack_push(before, index_lines(xs@[i as int]));
        }
        i += 1;
    }
    assert(xs@.take(xs@.len() as int) =~= xs@);
    out
}

fn data_sources_text(xs: &Vec<DataSourceSummary>) -> (r: Vec<String>)
    ensures
        views(r@) == xs@.map_values(|x: DataSourceSummary| data_source_line(x)),
{
    let mut out: Vec<String> = Vec::new();
    let mut i: usize = 0;
    while i < xs.len()
        invariant
            i <= xs@.len(),
            views(out@) == xs@.take(i as int).map_values(|x: DataSourceSummary| data_source_line(x)),
        decreases xs@.len() - i,
    {
        add_line(&mut out, data_source_line_of(&xs[i]));
        assert(xs@.take(i + 1).map_values(|x: DataSourceSummary| data_source_line(x)) =~= xs@.take(i as int).map_values(
            |x: DataSourceSummary| data_source_line(x),
        ).push(data_source_line(xs@[i as int])));
        i += 1;
    }
    assert(xs@.take(xs@.len() as int) =~= xs@);
    out
}

fn indexers_text(xs: &Vec<IndexerSummary>) -> (r: Vec<String>)
    ensures
        views(r@) == stack(xs@.map_values(|x: IndexerSummary| indexer_lines(x))),
{
    let mut out: Vec<String> = Vec::new();
    let mut i: usize = 0;
    while i < xs.len()
        invariant
            i <= xs@.len(),
            views(out@) == stack(xs@.take(i as int).map_values(|x: IndexerSummary| indexer_lines(x))),
        decreases xs@.len() - i,
    {
        let ghost before = xs@.take(i as int).map_values(|x: IndexerSummary| indexer_lines(x));
        add_lines(&mut out, indexer_lines_of(&xs[i]));
        proof {
            assert(xs@.take(i + 1).map_values(|x: IndexerSummary| indexer_lines(x)) =~= before.push(indexer_lines(xs@[i as int])));
            lemma_stack_push(before, indexer_lines(xs@[i as int]));
        }
        i += 1;
    }
    assert(xs@.take(xs@.len() as int) =~= xs@);
    out
}

fn skillsets_text(xs: &Vec<SkillsetSummary>) -> (r: Vec<String>)
    ensures
        views(r@) == stack(xs@.map_values(|x: SkillsetSummary| skillset_lines(x))),
{
    let mut out: Vec<String> = Vec::new();
    let mut i: usize = 0;
    while i < xs.len()
        invariant
            i <= xs@.len(),
            views(out@) == stack(xs@.take(i as int).map_values(|x: SkillsetSummary| skillset_lines(x))),
        decreases xs@.len() - i,
    {
        let ghost before = xs@.take(i as int).map_values(|x: SkillsetSummary| skillset_lines(x));
        add_lines(&mut out, skillset_lines_of(&xs[i]));
        proof {
            assert(xs@.take(i + 1).map_values(|x: SkillsetSummary| skillset_lines(x)) =~= before.push(skillset_lines(xs@[i as int])));
            lemma_stack_push(before, skillset_lines(xs@[i as int]));
        }
        i += 1;
    }
    assert(xs@.take(xs@.len() as int) =~= xs@);
    out
}

fn synonym_maps_text(xs: &Vec<SynonymMapSummary>) -> (r: Vec<String>)
    ensures
        views(r@) == xs@.map_values(|x: SynonymMapSummary| synonym_map_line(x)),
{
    let mut out: Vec<String> = Vec::new();
    let mut i: usize = 0;
    while i < xs.len()
        invariant
            i <= xs@.len(),
            views(out@) == xs@.take(i as int).map_values(|x: SynonymMapSummary| synonym_map_line(x)),
        decreases xs@.len() - i,
    {
        add_line(&mut out, synonym_map_line_of(&xs[i]));
        assert(xs@.take(i + 1).map_values(|x: SynonymMapSummary| synonym_map_line(x)) =~= xs@.take(i as int).map_values(
            |x: SynonymMapSummary| synonym_map_line(x),
        ).push(synonym_map_line(xs@[i as int])));
        i += 1;
    }
    assert(xs@.take(xs@.len() as int) =~= xs@);
    out
}

fn aliases_text(xs: &Vec<AliasSummary>) -> (r: Vec<String>)
    ensures
        views(r@) == xs@.map_values(|x: AliasSummary| alias_line(x)),
{
    let mut out: Vec<String> = Vec::new();
    let mut i: usize = 0;
    while i < xs.len()
        invariant
            i <= xs@.len(),
            views(out@) == xs@.take(i as int).map_values(|x: AliasSummary| alias_line(x)),
        decreases xs@.len() - i,
    {
        add_line(&mut out, alias_line_of(&xs[i]));
        assert(xs@.take(i + 1).map_values(|x: AliasSummary| alias_line(x)) =~= xs@.take(i as int).map_values(
            |x: AliasSummary| alias_line(x),
        ).push(alias_line(xs@[i as int])));
        i += 1;
    }
    assert(xs@.take(xs@.len() as int) =~= xs@);
    out
}

fn knowledge_bases_text(xs: &Vec<KnowledgeBaseSummary>) -> (r: Vec<String>)
    ensures
        views(r@) == stack(xs@.map_values(|x: KnowledgeBaseSummary| knowledge_base_lines(x))),
{
    let mut out: Vec<String> = Vec::new();
    let mut i: usize = 0;
    while i < xs.len()
        invariant
            i <= xs@.len(),
            views(out@) == stack(xs@.take(i as int).map_values(|x: KnowledgeBaseSummary| knowledge_base_lines(x))),
        decreases xs@.len() - i,
    {
        let ghost before = xs@.take(i as int).map_values(|x: KnowledgeBaseSummary| knowledge_base_lines(x));
        add_lines(&mut out, knowledge_base_lines_of(&xs[i]));
        proof {
            assert(xs@.take(i + 1).map_values(|x: KnowledgeBaseSummary| knowledge_base_lines(x)) =~= before.push(knowledge_base_lines(xs@[i as int])));
            lemma_stack_push(before, knowledge_base_lines(xs@[i as int]));
        }
        i += 1;
    }
    assert(xs@.take(xs@.len() as int) =~= xs@);
    out
}

fn knowledge_sources_text(xs: &Vec<KnowledgeSourceSummary>) -> (r: Vec<String>)
    ensures
        views(r@) == stack(xs@.map_values(|x: KnowledgeSourceSummary| knowledge_source_lines(x))),
{
    let mut out: Vec<String> = Vec::new();
    let mut i: usize = 0;
    while i < xs.len()
        invariant
            i <= xs@.len(),
            views(out@) == stack(xs@.take(i as int).map_values(|x: KnowledgeSourceSummary| knowledge_source_lines(x))),
        decreases xs@.len() - i,
    {
        let ghost before = xs@.take(i as int).map_values(|x: KnowledgeSourceSummary| knowledge_source_lines(x));
        add_lines(&mut out, knowledge_source_lines_of(&xs[i]));
        proof {
            assert(xs@.take(i + 1).map_values(|x: KnowledgeSourceSummary| knowledge_source_lines(x)) =~= before.push(knowledge_source_lines(xs@[i as int])));
            lemma_stack_push(before, knowledge_source_lines(xs@[i as int]));
        }
        i += 1;
    }
    assert(xs@.take(xs@.len() as int) =~= xs@);
    out
}

/// The flat listing of the search resources: indexes, data sources,
/// indexers, skillsets, synonym maps, aliases, knowledge bases and knowledge
/// sources, each kind under its own heading and only when there is one.
pub fn search_resources_text(s: &ProjectSummary) -> (r: Vec<String>)
    ensures
        views(r@) == search_resource_lines(*s),
{
    let mut out: Vec<String> = Vec::new();
    add_lines(&mut out, section_lines(s.indexes.len(), "Indexes", indexes_text(&s.indexes)));
    add_lines(&mut out, section_lines(s.data_sources.len(), "Data Sources", data_sources_text(&s.data_sources)));
    add_lines(&mut out, section_lines(s.indexers.len(), "Indexers", indexers_text(&s.indexers)));
    add_lines(&mut out, section_lines(s.skillsets.len(), "Skillsets", skillsets_text(&s.skillsets)));
    add_lines(&mut out, section_lines(s.synonym_maps.len(), "Synonym Maps", synonym_maps_text(&s.synonym_maps)));
    add_lines(&mut out, section_lines(s.aliases.len(), "Aliases", aliases_text(&s.aliases)));
    add_lines(
        &mut out,
        section_lines(s.knowledge_bases.len(), "Knowledge Bases", knowledge_bases_text(&s.knowledge_bases)),
    );
    add_lines(
        &mut out,
        section_lines(s.knowledge_sources.len(), "Knowledge Sources", knowledge_sources_text(&s.knowledge_sources)),
    );
    assert(views(out@) =~= search_resource_lines(*s));
    out
}


// ---------------------------------------------------------------------------
// Agents and the retrieval flows behind them
// ---------------------------------------------------------------------------

/// A tool: its type, and the knowledge base it reads when it has one.
pub open spec fn tool_label(t: AgentToolSummary) -> Seq<char> {
    match t.knowledge_base_name {
        Some(k) => t.tool_type@ + " -> "@ + k@,
        None => t.tool_type@,
    }
}

/// The first line of `s`, or nothing.
pub open spec fn first_line(s: Seq<char>) -> Seq<char> {
    if lines_spec(s).len() > 0 {
        lines_spec(s)[0]
    } else {
        Seq::empty()
    }
}

/// An agent in the listing: name and model, tools, the first line of its
/// instructions, then an empty line.
pub open spec fn agent_lines(a: AgentSummary) -> Seq<Seq<char>> {
    seq!["  "@ + a.name@ + (if a.model@.len() == 0 { Seq::empty() } else { " ("@ + a.model@ + ")"@ })]
        + (if a.tools@.len() > 0 {
        seq!["    Tools: "@ + join(a.tools@.map_values(|t: AgentToolSummary| tool_label(t)), ", "@)]
    } else {
        Seq::empty()
    }) + (if a.instructions@.len() > 0 {
        seq!["    Instructions: "@ + first_line(a.instructions@)]
    } else {
        Seq::empty()
    }) + seq![Seq::<char>::empty()]
}

/// The knowledge bases an agent's tools read, in tool order.
pub open spec fn tool_kbs(ts: Seq<AgentToolSummary>) -> Seq<Seq<char>>
    decreases ts.len(),
{
    if ts.len() == 0 {
        Seq::empty()
    } else {
        tool_kbs(ts.drop_last()) + match ts.last().knowledge_base_name {
            Some(k) => seq![k@],
            None => Seq::empty(),
        }
    }
}

/// The knowledge bases all of `ags` read, agent after agent.
pub open spec fn all_kbs(ags: Seq<AgentSummary>) -> Seq<Seq<char>>
    decreases ags.len(),
{
    if ags.len() == 0 {
        Seq::empty()
    } else {
        all_kbs(ags.drop_last()) + tool_kbs(ags.last().tools@)
    }
}

/// The last knowledge base named `n` (a later definition shadows an earlier one).
pub open spec fn last_kb(xs: Seq<KnowledgeBaseSummary>, n: Seq<char>) -> Option<KnowledgeBaseSummary>
    decreases xs.len(),
{
    if xs.len() == 0 {
        None
    } else if xs.last().name@ == n {
        Some(xs.last())
    } else {
        last_kb(xs.drop_last(), n)
    }
}

/// The last knowledge source named `n`.
pub open spec fn last_source(xs: Seq<KnowledgeSourceSummary>, n: Seq<char>) -> Option<KnowledgeSourceSummary>
    decreases xs.len(),
{
    if xs.len() == 0 {
        None
    } else if xs.last().name@ == n {
        Some(xs.last())
    } else {
        last_source(xs.drop_last(), n)
    }
}

/// The last index named `n`.
pub open spec fn last_index(xs: Seq<IndexSummary>, n: Seq<char>) -> Option<IndexSummary>
    decreases xs.len(),
{
    if xs.len() == 0 {
        None
    } else if xs.last().name@ == n {
        Some(xs.last())
    } else {
        last_index(xs.drop_last(), n)
    }
}

/// The branch drawn before the last item of a tree level, or another one.
pub open spec fn branch(last: bool) -> Seq<char> {
    if last {
        "└─"@
    } else {
        "├─"@
    }
}

/// What continues below an item: blank after the last one, a rule otherwise.
pub open spec fn rule(last: bool) -> Seq<char> {
    if last {
        "   "@
    } else {
        "│  "@
    }
}

/// What an index offers for retrieval: vector profiles, semantic search.
pub open spec fn capabilities(i: IndexSummary) -> Seq<Seq<char>> {
    (if i.vector_profile_count > 0 {
        seq![decimal(i.vector_profile_count as nat) + " vector profile(s)"@]
    } else {
        Seq::empty()
    }) + (if i.has_semantic_config {
        seq!["semantic search"@]
    } else {
        Seq::empty()
    })
}

/// The index under a knowledge source, drawn below rules `c` and `kc`.
pub open spec fn index_flow(s: ProjectSummary, ix: Seq<char>, c: Seq<char>, kc: Seq<char>) -> Seq<Seq<char>> {
    match last_index(s.indexes@, ix) {
        Some(i) => seq![
            "  "@ + c + "   "@ + kc + "   └─ Index: "@ + i.name@ + " ("@ + decimal(i.fields@.len()) + " fields"@
                + key_info(i) + ")"@,
        ] + (if capabilities(i).len() > 0 {
            seq!["  "@ + c + "   "@ + kc + "      "@ + join(capabilities(i), ", "@)]
        } else {
            Seq::empty()
        }),
        None => seq!["  "@ + c + "   "@ + kc + "   └─ Index: "@ + ix],
    }
}

/// Knowledge source `j` of a knowledge base drawn below rule `c`.
pub open spec fn source_flow(s: ProjectSummary, kss: Seq<Seq<char>>, j: int, c: Seq<char>) -> Seq<Seq<char>> {
    let n = kss[j];
    let last = j == kss.len() - 1;
    match last_source(s.knowledge_sources@, n) {
        Some(k) => seq!["  "@ + c + "   "@ + branch(last) + " Knowledge Source: "@ + k.name@ + kind_part(k)]
            + described(k.description, "  "@ + c + "   "@ + rule(last) + "   "@) + source_index(s, k.index_name, c, rule(last)),
        None => seq!["  "@ + c + "   "@ + branch(last) + " Knowledge Source: "@ + n],
    }
}

/// The index under a knowledge source, when it names one.
pub open spec fn source_index(s: ProjectSummary, o: Option<String>, c: Seq<char>, kc: Seq<char>) -> Seq<Seq<char>> {
    match o {
        Some(ix) => index_flow(s, ix@, c, kc),
        None => Seq::empty(),
    }
}

/// The first `n` knowledge sources of a knowledge base.
pub open spec fn source_flows(s: ProjectSummary, kss: Seq<Seq<char>>, c: Seq<char>, n: int) -> Seq<Seq<Seq<char>>> {
    Seq::new(n as nat, |j: int| source_flow(s, kss, j, c))
}

/// A knowledge base described in full: description, output mode,
/// retrieval instructions and its knowledge sources.
pub open spec fn kb_block(s: ProjectSummary, k: KnowledgeBaseSummary, b: Seq<char>, c: Seq<char>) -> Seq<Seq<char>> {
    let kss = views(k.knowledge_sources@);
    seq!["  "@ + b + " Knowledge Base: "@ + k.name@] + kb_description(k.description, c) + kb_output(k.output_mode, c)
        + kb_retrieval(k.retrieval_instructions, c) + stack(source_flows(s, kss, c, kss.len() as int))
}

/// A knowledge base's description in its flow, below rule `c`.
pub open spec fn kb_description(o: Option<String>, c: Seq<char>) -> Seq<Seq<char>> {
    match o {
        Some(d) => seq!["  "@ + c + "   Description:"@] + indented(d@, "  "@ + c + "   "@),
        None => Seq::empty(),
    }
}

/// A knowledge base's output mode in its flow, below rule `c`.
pub open spec fn kb_output(o: Option<String>, c: Seq<char>) -> Seq<Seq<char>> {
    match o {
        Some(m) => seq!["  "@ + c + "   Output: "@ + m@],
        None => Seq::empty(),
    }
}

/// A knowledge base's retrieval instructions in its flow, below rule `c`.
pub open spec fn kb_retrieval(o: Option<String>, c: Seq<char>) -> Seq<Seq<char>> {
    match o {
        Some(r) => seq!["  "@ + c + "   Retrieval instructions:"@] + indented(r@, "  "@ + c + "   "@),
        None => Seq::empty(),
    }
}

/// Knowledge base `j` of an agent, given the names `seen` before it: a
/// name seen before is only referred to; one not defined locally is noted.
pub open spec fn kb_flow(s: ProjectSummary, names: Seq<Seq<char>>, j: int, seen: Seq<Seq<char>>) -> Seq<Seq<char>> {
    let n = names[j];
    let last = j == names.len() - 1;
    if seen.contains(n) {
        seq!["  "@ + branch(last) + " Knowledge Base: "@ + n + " (described above)"@]
    } else {
        match last_kb(s.knowledge_bases@, n) {
            Some(k) => kb_block(s, k, branch(last), rule(last)),
            None => seq!["  "@ + branch(last) + " Knowledge Base: "@ + n + " (not in local config)"@],
        }
    }
}

/// The first `n` knowledge bases of an agent, after the names in `prior`.
pub open spec fn kb_flows(s: ProjectSummary, names: Seq<Seq<char>>, prior: Seq<Seq<char>>, n: int) -> Seq<Seq<Seq<char>>> {
    Seq::new(n as nat, |j: int| kb_flow(s, names, j, prior + names.take(j)))
}

/// The flow of an agent whose knowledge bases come after those in `prior`.
pub open spec fn agent_flow(s: ProjectSummary, a: AgentSummary, prior: Seq<Seq<char>>) -> Seq<Seq<char>> {
    let names = tool_kbs(a.tools@);
    seq!["  "@ + a.name@] + stack(kb_flows(s, names, prior, names.len() as int)) + seq![Seq::<char>::empty()]
}

/// The flows of the agents among `ags` that read a knowledge base.
pub open spec fn flows(s: ProjectSummary, ags: Seq<AgentSummary>) -> Seq<Seq<char>>
    decreases ags.len(),
{
    if ags.len() == 0 {
        Seq::empty()
    } else {
        flows(s, ags.drop_last()) + (if tool_kbs(ags.last().tools@).len() > 0 {
            agent_flow(s, ags.last(), all_kbs(ags.drop_last()))
        } else {
            Seq::empty()
        })
    }
}

/// The retrieval flows, agent to knowledge base to knowledge source to
/// index; nothing when no agent reads a knowledge base.
pub open spec fn rag_flow_lines(s: ProjectSummary) -> Seq<Seq<char>> {
    if all_kbs(s.agents@).len() == 0 {
        Seq::empty()
    } else {
        seq!["Agentic RAG Flows:"@, Seq::<char>::empty()] + flows(s, s.agents@)
    }
}

/// The agents, each followed by the retrieval flows; nothing without agents.
pub open spec fn agents_part(s: ProjectSummary) -> Seq<Seq<char>> {
    if s.agents@.len() == 0 {
        Seq::empty()
    } else {
        seq!["Foundry Agents ("@ + decimal(s.agents@.len()) + "):"@, Seq::<char>::empty()]
            + stack(s.agents@.map_values(|a: AgentSummary| agent_lines(a))) + rag_flow_lines(s)
    }
}

fn find_kb<'a>(xs: &'a Vec<KnowledgeBaseSummary>, n: &str) -> (r: Option<&'a KnowledgeBaseSummary>)
    ensures
        match r {
            Some(k) => last_kb(xs@, n@) == Some(*k),
            None => last_kb(xs@, n@) is None,
        },
{
    let mut i: usize = xs.len();
    assert(xs@.take(i as int) =~= xs@);
    while i > 0
        invariant
            i <= xs@.len(),
            last_kb(xs@, n@) == last_kb(xs@.take(i as int), n@),
        decreases i,
    {
        assert(xs@.take(i as int).drop_last() =~= xs@.take(i - 1));
        if str_eq(xs[i - 1].name.as_str(), n) {
            return Some(&xs[i - 1]);
        }
        i -= 1;
    }
    None
}

fn find_source<'a>(xs: &'a Vec<KnowledgeSourceSummary>, n: &str) -> (r: Option<&'a KnowledgeSourceSummary>)
    ensures
        match r {
            Some(k) => last_source(xs@, n@) == Some(*k),
            None => last_source(xs@, n@) is None,
        },
{
    let mut i: usize = xs.len();
    assert(xs@.take(i as int) =~= xs@);
    while i > 0
        invariant
            i <= xs@.len(),
            last_source(xs@, n@) == last_source(xs@.take(i as int), n@),
        decreases i,
    {
        assert(xs@.take(i as int).drop_last() =~= xs@.take(i - 1));
        if str_eq(xs[i - 1].name.as_str(), n) {
            return Some(&xs[i - 1]);
        }
        i -= 1;
    }
    None
}

fn find_index<'a>(xs: &'a Vec<IndexSummary>, n: &str) -> (r: Option<&'a IndexSummary>)
    ensures
        match r {
            Some(k) => last_index(xs@, n@) == Some(*k),
            None => last_index(xs@, n@) is None,
        },
{
    let mut i: usize = xs.len();
    assert(xs@.take(i as int) =~= xs@);
    while i > 0
        invariant
            i <= xs@.len(),
            last_index(xs@, n@) == last_index(xs@.take(i as int), n@),
        decreases i,
    {
        assert(xs@.take(i as int).drop_last() =~= xs@.take(i - 1));
        if str_eq(xs[i - 1].name.as_str(), n) {
            return Some(&xs[i - 1]);
        }
        i -= 1;
    }
    None
}

fn branch_str(last: bool) -> (r: &'static str)
    ensures
        r@ == branch(last),
{
    if last {
        "└─"
    } else {
        "├─"
    }
}

fn rule_str(last: bool) -> (r: &'static str)
    ensures
        r@ == rule(last),
{
    if last {
        "   "
    } else {
        "│  "
    }
}


fn tool_label_of(t: &AgentToolSummary) -> (r: String)
    ensures
        r@ == tool_label(*t),
{
    let mut r = t.tool_type.clone();
    match &t.knowledge_base_name {
        Some(k) => {
            push_str(&mut r, " -> ");
            push_str(&mut r, k.as_str());
        },
        None => {},
    }
    r
}

fn first_line_of(s: &str) -> (r: String)
    ensures
        r@ == first_line(s@),
{
    let ls = lines(s);
    if ls.len() > 0 {
        assert(views(ls@)[0] == ls@[0]@);
        ls[0].clone()
    } else {
        String::new()
    }
}

fn agent_lines_of(a: &AgentSummary) -> (r: Vec<String>)
    ensures
        views(r@) == agent_lines(*a),
{
    let mut out: Vec<String> = Vec::new();
    let mut h = copy_str("  ");
    push_str(&mut h, a.name.as_str());
    let mut m = String::new();
    if !a.model.as_str().is_empty() {
        m = copy_str(" (");
        push_str(&mut m, a.model.as_str());
        push_str(&mut m, ")");
    }
    push_str(&mut h, m.as_str());
    add_line(&mut out, h);
    let ghost p1 = views(out@);
    if a.tools.len() > 0 {
        let mut labels: Vec<String> = Vec::new();
        let mut i: usize = 0;
        while i < a.tools.len()
            invariant
                i <= a.tools@.len(),
                views(labels@) == a.tools@.take(i as int).map_values(|t: AgentToolSummary| tool_label(t)),
            decreases a.tools@.len() - i,
        {
            let ghost before = views(labels@);
            labels.push(tool_label_of(&a.tools[i]));
            assert(views(labels@) =~= before.push(tool_label(a.tools@[i as int])));
            assert(a.tools@.take(i + 1).map_values(|t: AgentToolSummary| tool_label(t)) =~= a.tools@.take(
                i as int,
            ).map_values(|t: AgentToolSummary| tool_label(t)).push(tool_label(a.tools@[i as int])));
            i += 1;
        }
        assert(a.tools@.take(a.tools@.len() as int) =~= a.tools@);
        let mut l = copy_str("    Tools: ");
        let j = join_strings(&labels, ", ");
        push_str(&mut l, j.as_str());
        add_line(&mut out, l);
    }
    let ghost p2 = views(out@);
    if !a.instructions.as_str().is_empty() {
        let mut l = copy_str("    Instructions: ");
        let f = first_line_of(a.instructions.as_str());
        push_str(&mut l, f.as_str());
        add_line(&mut out, l);
    }
    let ghost p3 = views(out@);
    add_line(&mut out, String::new());
    proof {
        let ts: Seq<Seq<char>> = if a.tools@.len() > 0 {
            seq!["    Tools: "@ + join(a.tools@.map_values(|t: AgentToolSummary| tool_label(t)), ", "@)]
        } else {
            Seq::empty()
        };
        let is: Seq<Seq<char>> = if a.instructions@.len() > 0 {
            seq!["    Instructions: "@ + first_line(a.instructions@)]
        } else {
            Seq::empty()
        };
        assert(p2 =~= p1 + ts);
        assert(p3 =~= p1 + ts + is);
        assert(views(out@) =~= agent_lines(*a));
    }
    out
}

fn tool_kbs_of(ts: &Vec<AgentToolSummary>) -> (r: Vec<String>)
    ensures
        views(r@) == tool_kbs(ts@),
{
    let mut out: Vec<String> = Vec::new();
    let mut i: usize = 0;
    while i < ts.len()
        invariant
            i <= ts@.len(),
            views(out@) == tool_kbs(ts@.take(i as int)),
        decreases ts@.len() - i,
    {
        assert(ts@.take(i + 1).drop_last() =~= ts@.take(i as int));
        match &ts[i].knowledge_base_name {
            Some(k) => {
                add_line(&mut out, k.clone());
            },
            None => {},
        }
        assert(views(out@) =~= tool_kbs(ts@.take(i + 1)));
        i += 1;
    }
    assert(ts@.take(ts@.len() as int) =~= ts@);
    out
}

fn capabilities_of(i: &IndexSummary) -> (r: Vec<String>)
    ensures
        views(r@) == capabilities(*i),
{
    let mut out: Vec<String> = Vec::new();
    if i.vector_profile_count > 0 {
        let mut v = decimal_string(i.vector_profile_count);
        push_str(&mut v, " vector profile(s)");
        add_line(&mut out, v);
    }
    if i.has_semantic_config {
        add_line(&mut out, copy_str("semantic search"));
    }
    assert(views(out@) =~= capabilities(*i));
    out
}

fn index_flow_lines(s: &ProjectSummary, ix: &str, c: &str, kc: &str) -> (r: Vec<String>)
    ensures
        views(r@) == index_flow(*s, ix@, c@, kc@),
{
    let mut out: Vec<String> = Vec::new();
    let mut l = copy_str("  ");
    push_str(&mut l, c);
    push_str(&mut l, "   ");
    push_str(&mut l, kc);
    push_str(&mut l, "   └─ Index: ");
    match find_index(&s.indexes, ix) {
        Some(i) => {
            push_str(&mut l, i.name.as_str());
            push_str(&mut l, " (");
            let d = decimal_string(i.fields.len());
            push_str(&mut l, d.as_str());
            push_str(&mut l, " fields");
            let k = key_info_text(i);
            push_str(&mut l, k.as_str());
            push_str(&mut l, ")");
            add_line(&mut out, l);
            let caps = capabilities_of(i);
            if caps.len() > 0 {
                let mut m = copy_str("  ");
                push_str(&mut m, c);
                push_str(&mut m, "   ");
                push_str(&mut m, kc);
                push_str(&mut m, "      ");
                let j = join_strings(&caps, ", ");
                push_str(&mut m, j.as_str());
                add_line(&mut out, m);
            }
            assert(views(out@) =~= index_flow(*s, ix@, c@, kc@));
        },
        None => {
            push_str(&mut l, ix);
            add_line(&mut out, l);
            assert(views(out@) =~= index_flow(*s, ix@, c@, kc@));
        },
    }
    out
}

fn source_flow_lines(s: &ProjectSummary, kss: &Vec<String>, j: usize, c: &str) -> (r: Vec<String>)
    requires
        j < kss@.len(),
    ensures
        views(r@) == source_flow(*s, views(kss@), j as int, c@),
{
    let last = j == kss.len() - 1;
    let n = kss[j].as_str();
    assert(views(kss@)[j as int] == n@);
    let mut out: Vec<String> = Vec::new();
    let mut l = copy_str("  ");
    push_str(&mut l, c);
    push_str(&mut l, "   ");
    push_str(&mut l, branch_str(last));
    push_str(&mut l, " Knowledge Source: ");
    match find_source(&s.knowledge_sources, n) {
        Some(k) => {
            push_str(&mut l, k.name.as_str());
            let mut kp = String::new();
            match &k.kind {
                Some(x) => {
                    kp = copy_str(" (");
                    push_str(&mut kp, x.as_str());
                    push_str(&mut kp, ")");
                },
                None => {},
            }
            push_str(&mut l, kp.as_str());
            add_line(&mut out, l);
            let ghost p1 = views(out@);
            let mut pre = copy_str("  ");
            push_str(&mut pre, c);
            push_str(&mut pre, "   ");
            push_str(&mut pre, rule_str(last));
            push_str(&mut pre, "   ");
            add_lines(&mut out, described_lines(&k.description, pre.as_str()));
            let ghost p2 = views(out@);
            match &k.index_name {
                Some(ix) => {
                    add_lines(&mut out, index_flow_lines(s, ix.as_str(), c, rule_str(last)));
                },
                None => {},
            }
            proof {
                assert(views(out@) =~= p2 + source_index(*s, k.index_name, c@, rule(last)));
                assert(views(out@) =~= source_flow(*s, views(kss@), j as int, c@));
            }
        },
        None => {
            push_str(&mut l, n);
            add_line(&mut out, l);
            assert(views(out@) =~= source_flow(*s, views(kss@), j as int, c@));
        },
    }
    out
}

#[verifier::spinoff_prover]
fn kb_block_lines(s: &ProjectSummary, k: &KnowledgeBaseSummary, b: &str, c: &str) -> (r: Vec<String>)
    ensures
        views(r@) == kb_block(*s, *k, b@, c@),
{
    let ghost kss = views(k.knowledge_sources@);
    let mut out: Vec<String> = Vec::new();
    let mut h = copy_str("  ");
    push_str(&mut h, b);
    push_str(&mut h, " Knowledge Base: ");
    push_str(&mut h, k.name.as_str());
    add_line(&mut out, h);
    let ghost p1 = views(out@);
    let mut pre = copy_str("  ");
    push_str(&mut pre, c);
    push_str(&mut pre, "   ");
    match &k.description {
        Some(d) => {
            let mut t = copy_str("  ");
            push_str(&mut t, c);
            push_str(&mut t, "   Description:");
            add_line(&mut out, t);
            add_lines(&mut out, indented_lines(d.as_str(), pre.as_str()));
        },
        None => {},
    }
    let ghost p2 = views(out@);
    match &k.output_mode {
        Some(m) => {
            let mut t = copy_str("  ");
            push_str(&mut t, c);
            push_str(&mut t, "   Output: ");
            push_str(&mut t, m.as_str());
            add_line(&mut out, t);
        },
        None => {},
    }
    let ghost p3 = views(out@);
    match &k.retrieval_instructions {
        Some(ri) => {
            let mut t = copy_str("  ");
            push_str(&mut t, c);
            push_str(&mut t, "   Retrieval instructions:");
            add_line(&mut out, t);
            add_lines(&mut out, indented_lines(ri.as_str(), pre.as_str()));
        },
        None => {},
    }
    let ghost p4 = views(out@);
    let mut j: usize = 0;
    while j < k.knowledge_sources.len()
        invariant
            j <= k.knowledge_sources@.len(),
            kss == views(k.knowledge_sources@),
            views(out@) == p4 + stack(source_flows(*s, kss, c@, j as int)),
        decreases k.knowledge_sources@.len() - j,
    {
        let ghost before = source_flows(*s, kss, c@, j as int);
        add_lines(&mut out, source_flow_lines(s, &k.knowledge_sources, j, c));
        proof {
            assert(source_flows(*s, kss, c@, j + 1) =~= before.push(source_flow(*s, kss, j as int, c@)));
            lemma_stack_push(before, source_flow(*s, kss, j as int, c@));
        }
        j += 1;
    }
    proof {
        let dp = kb_description(k.description, c@);
        let op = kb_output(k.output_mode, c@);
        let rp = kb_retrieval(k.retrieval_instructions, c@);
        assert(p2 =~= p1 + dp);
        assert(p3 =~= p1 + dp + op);
        assert(p4 =~= p1 + dp + op + rp);
        assert(views(out@) =~= kb_block(*s, *k, b@, c@));
    }
    out
}

fn kb_flow_lines(s: &ProjectSummary, names: &Vec<String>, j: usize, seen: &Vec<String>) -> (r: Vec<String>)
    requires
        j < names@.len(),
    ensures
        views(r@) == kb_flow(*s, views(names@), j as int, views(seen@)),
{
    let last = j == names.len() - 1;
    let n = names[j].as_str();
    assert(views(names@)[j as int] == n@);
    let mut out: Vec<String> = Vec::new();
    if contains_string(seen, n) {
        let mut l = copy_str("  ");
        push_str(&mut l, branch_str(last));
        push_str(&mut l, " Knowledge Base: ");
        push_str(&mut l, n);
        push_str(&mut l, " (described above)");
        add_line(&mut out, l);
        assert(views(out@) =~= kb_flow(*s, views(names@), j as int, views(seen@)));
        return out;
    }
    match find_kb(&s.knowledge_bases, n) {
        Some(k) => kb_block_lines(s, k, branch_str(last), rule_str(last)),
        None => {
            let mut l = copy_str("  ");
            push_str(&mut l, branch_str(last));
            push_str(&mut l, " Knowledge Base: ");
            push_str(&mut l, n);
            push_str(&mut l, " (not in local config)");
            add_line(&mut out, l);
            assert(views(out@) =~= kb_flow(*s, views(names@), j as int, views(seen@)));
            out
        },
    }
}

#[verifier::spinoff_prover]
fn agent_flow_lines(s: &ProjectSummary, a: &AgentSummary, seen: &mut Vec<String>) -> (r: Vec<String>)
    ensures
        views(r@) == agent_flow(*s, *a, views(old(seen)@)),
        views(final(seen)@) == views(old(seen)@) + tool_kbs(a.tools@),
{
    let ghost prior = views(seen@);
    let names = tool_kbs_of(&a.tools);
    let ghost ns = views(names@);
    let mut out: Vec<String> = Vec::new();
    let mut h = copy_str("  ");
    push_str(&mut h, a.name.as_str());
    add_line(&mut out, h);
    let ghost p1 = views(out@);
    let mut j: usize = 0;
    while j < names.len()
        invariant
            j <= names@.len(),
            ns == views(names@),
            ns == tool_kbs(a.tools@),
            views(seen@) == prior + ns.take(j as int),
            views(out@) == p1 + stack(kb_flows(*s, ns, prior, j as int)),
        decreases names@.len() - j,
    {
        let ghost before = kb_flows(*s, ns, prior, j as int);
        add_lines(&mut out, kb_flow_lines(s, &names, j, seen));
        proof {
            assert(kb_flows(*s, ns, prior, j + 1) =~= before.push(kb_flow(*s, ns, j as int, prior + ns.take(j as int))));
            lemma_stack_push(before, kb_flow(*s, ns, j as int, prior + ns.take(j as int)));
        }
        add_line(seen, names[j].clone());
        assert(ns.take(j + 1) =~= ns.take(j as int).push(ns[j as int]));
        assert(views(seen@) =~= prior + ns.take(j + 1));
        j += 1;
    }
    assert(ns.take(ns.len() as int) =~= ns);
    add_line(&mut out, String::new());
    out
}

/// The retrieval flows behind the agents: for each agent that reads a
/// knowledge base, the tree from it through its knowledge bases and their
/// knowledge sources down to the indexes.
#[verifier::spinoff_prover]
pub fn rag_flows_text(s: &ProjectSummary) -> (r: Vec<String>)
    ensures
        views(r@) == rag_flow_lines(*s),
{
    let mut seen: Vec<String> = Vec::new();
    let mut body: Vec<String> = Vec::new();
    let mut i: usize = 0;
    while i < s.agents.len()
        invariant
            i <= s.agents@.len(),
            views(seen@) == all_kbs(s.agents@.take(i as int)),
            views(body@) == flows(*s, s.agents@.take(i as int)),
        decreases s.agents@.len() - i,
    {
        let a = &s.agents[i];
        let ghost prev = s.agents@.take(i as int);
        assert(s.agents@.take(i + 1).drop_last() =~= prev);
        if a.tools.len() > 0 {
            let ks = tool_kbs_of(&a.tools);
            if ks.len() > 0 {
                add_lines(&mut body, agent_flow_lines(s, a, &mut seen));
            }
        }
        proof {
            if a.tools@.len() == 0 {
                assert(a.tools@ =~= Seq::<AgentToolSummary>::empty());
            }
            assert(views(seen@) =~= all_kbs(s.agents@.take(i + 1)));
        }
        i += 1;
    }
    assert(s.agents@.take(s.agents@.len() as int) =~= s.agents@);
    let mut out: Vec<String> = Vec::new();
    if seen.len() == 0 {
        assert(views(out@) =~= rag_flow_lines(*s));
        return out;
    }
    add_line(&mut out, copy_str("Agentic RAG Flows:"));
    add_line(&mut out, String::new());
    add_lines(&mut out, body);
    assert(views(out@) =~= rag_flow_lines(*s));
    out
}

/// The agents, then the retrieval flows behind them.
fn agents_text(s: &ProjectSummary) -> (r: Vec<String>)
    ensures
        views(r@) == agents_part(*s),
{
    let mut out: Vec<String> = Vec::new();
    if s.agents.len() == 0 {
        assert(views(out@) =~= agents_part(*s));
        return out;
    }
    let mut h = copy_str("Foundry Agents (");
    let d = decimal_string(s.agents.len());
    push_str(&mut h, d.as_str());
    push_str(&mut h, "):");
    add_line(&mut out, h);
    add_line(&mut out, String::new());
    let ghost p1 = views(out@);
    let mut i: usize = 0;
    while i < s.agents.len()
        invariant
            i <= s.agents@.len(),
            views(out@) == p1 + stack(s.agents@.take(i as int).map_values(|a: AgentSummary| agent_lines(a))),
        decreases s.agents@.len() - i,
    {
        let ghost before = s.agents@.take(i as int).map_values(|a: AgentSummary| agent_lines(a));
        add_lines(&mut out, agent_lines_of(&s.agents[i]));
        proof {
            assert(s.agents@.take(i + 1).map_values(|a: AgentSummary| agent_lines(a)) =~= before.push(
                agent_lines(s.agents@[i as int]),
            ));
            lemma_stack_push(before, agent_lines(s.agents@[i as int]));
        }
        i += 1;
    }
    assert(s.agents@.take(s.agents@.len() as int) =~= s.agents@);
    add_lines(&mut out, rag_flows_text(s));
    assert(views(out@) =~= agents_part(*s));
    out
}


// ---------------------------------------------------------------------------
// Dependencies, grouped by the resource they start from
// ---------------------------------------------------------------------------

/// `x` put into the ascending listing `ss`, unless it is there already.
pub open spec fn insert_sorted(ss: Seq<Seq<char>>, x: Seq<char>) -> Seq<Seq<char>>
    decreases ss.len(),
{
    if ss.len() == 0 {
        seq![x]
    } else if ss[0] == x {
        ss
    } else if text_less(x, ss[0]) {
        seq![x] + ss
    } else {
        seq![ss[0]] + insert_sorted(ss.drop_first(), x)
    }
}

/// The resources dependencies start from, each once, in ascending order
/// (the keys of a `BTreeMap`).
pub open spec fn sources(ds: Seq<Dependency>) -> Seq<Seq<char>>
    decreases ds.len(),
{
    if ds.len() == 0 {
        Seq::empty()
    } else {
        insert_sorted(sources(ds.drop_last()), ds.last().from@)
    }
}

/// The targets of the dependencies from `g`, as `to (kind)`, in order.
pub open spec fn targets_from(ds: Seq<Dependency>, g: Seq<char>) -> Seq<Seq<char>>
    decreases ds.len(),
{
    if ds.len() == 0 {
        Seq::empty()
    } else {
        targets_from(ds.drop_last(), g) + (if ds.last().from@ == g {
            seq![ds.last().to@ + " ("@ + ds.last().kind@ + ")"@]
        } else {
            Seq::empty()
        })
    }
}

/// The dependency listing: a line per resource the dependencies start from.
pub open spec fn dependency_lines(s: ProjectSummary) -> Seq<Seq<char>> {
    let ds = s.dependencies@;
    if ds.len() == 0 {
        Seq::empty()
    } else {
        seq!["Dependencies:"@] + sources(ds).map_values(
            |g: Seq<char>| "  "@ + g + " -> "@ + join(targets_from(ds, g), ", "@),
        ) + seq![Seq::<char>::empty()]
    }
}

/// Where `insert_sorted` puts `x`: at the first entry not before it.
proof fn lemma_insert_sorted_at(ss: Seq<Seq<char>>, x: Seq<char>, p: int)
    requires
        0 <= p <= ss.len(),
        forall|k: int| 0 <= k < p ==> text_less(#[trigger] ss[k], x),
        p < ss.len() ==> !text_less(ss[p], x),
    ensures
        insert_sorted(ss, x) == if p < ss.len() && ss[p] == x {
            ss
        } else {
            ss.insert(p, x)
        },
    decreases p,
{
    if ss.len() == 0 {
        assert(ss.insert(p, x) =~= seq![x]);
    } else if p == 0 {
        if ss[0] != x {
            lemma_text_less_total(x, ss[0]);
            assert(ss.insert(0, x) =~= seq![x] + ss);
        }
    } else {
        lemma_text_less_irreflexive(x);
        lemma_text_less_asymmetric(ss[0], x);
        let t = ss.drop_first();
        assert forall|k: int| 0 <= k < p - 1 implies text_less(#[trigger] t[k], x) by {
            assert(t[k] == ss[k + 1]);
        }
        lemma_insert_sorted_at(t, x, p - 1);
        if p < ss.len() && ss[p] == x {
            assert(seq![ss[0]] + t =~= ss);
        } else {
            assert(seq![ss[0]] + t.insert(p - 1, x) =~= ss.insert(p, x));
        }
    }
}

/// Put `x` into the ascending listing `ss`, unless it is there already.
fn insert_sorted_exec(ss: &mut Vec<String>, x: &String)
    ensures
        views(final(ss)@) == insert_sorted(views(old(ss)@), x@),
{
    let ghost v0 = views(ss@);
    let mut p: usize = 0;
    while p < ss.len() && text_less_exec(ss[p].as_str(), x.as_str())
        invariant
            p <= ss@.len(),
            v0 == views(ss@),
            forall|k: int| 0 <= k < p ==> text_less(#[trigger] v0[k], x@),
        decreases ss@.len() - p,
    {
        assert(v0[p as int] == ss@[p as int]@);
        p += 1;
    }
    proof {
        if p < ss@.len() {
            assert(v0[p as int] == ss@[p as int]@);
        }
        lemma_insert_sorted_at(v0, x@, p as int);
    }
    if p < ss.len() && str_eq(ss[p].as_str(), x.as_str()) {
        return;
    }
    ss.insert(p, x.clone());
    assert(views(ss@) =~= v0.insert(p as int, x@));
}

fn targets_text(ds: &Vec<Dependency>, g: &String) -> (r: Vec<String>)
    ensures
        views(r@) == targets_from(ds@, g@),
{
    let mut out: Vec<String> = Vec::new();
    let mut i: usize = 0;
    while i < ds.len()
        invariant
            i <= ds@.len(),
            views(out@) == targets_from(ds@.take(i as int), g@),
        decreases ds@.len() - i,
    {
        assert(ds@.take(i + 1).drop_last() =~= ds@.take(i as int));
        if str_eq(ds[i].from.as_str(), g.as_str()) {
            let mut t = ds[i].to.clone();
            push_str(&mut t, " (");
            push_str(&mut t, ds[i].kind.as_str());
            push_str(&mut t, ")");
            add_line(&mut out, t);
        }
        assert(views(out@) =~= targets_from(ds@.take(i + 1), g@));
        i += 1;
    }
    assert(ds@.take(ds@.len() as int) =~= ds@);
    out
}

/// The dependency listing, one line per resource the dependencies start
/// from, in ascending order, with its targets in the order they were found.
#[verifier::spinoff_prover]
pub fn dependencies_text(s: &ProjectSummary) -> (r: Vec<String>)
    ensures
        views(r@) == dependency_lines(*s),
{
    let ds = &s.dependencies;
    let mut out: Vec<String> = Vec::new();
    if ds.len() == 0 {
        assert(views(out@) =~= dependency_lines(*s));
        return out;
    }
    let mut gs: Vec<String> = Vec::new();
    let mut i: usize = 0;
    while i < ds.len()
        invariant
            i <= ds@.len(),
            views(gs@) == sources(ds@.take(i as int)),
        decreases ds@.len() - i,
    {
        assert(ds@.take(i + 1).drop_last() =~= ds@.take(i as int));
        insert_sorted_exec(&mut gs, &ds[i].from);
        i += 1;
    }
    assert(ds@.take(ds@.len() as int) =~= ds@);
    add_line(&mut out, copy_str("Dependencies:"));
    let ghost p1 = views(out@);
    let ghost gv = views(gs@);
    let mut j: usize = 0;
    while j < gs.len()
        invariant
            j <= gs@.len(),
            gv == views(gs@),
            gv == sources(ds@),
            views(out@) == p1 + gv.take(j as int).map_values(
                |g: Seq<char>| "  "@ + g + " -> "@ + join(targets_from(ds@, g), ", "@),
            ),
        decreases gs@.len() - j,
    {
        let mut l = copy_str("  ");
        push_str(&mut l, gs[j].as_str());
        push_str(&mut l, " -> ");
        let ts = targets_text(ds, &gs[j]);
        let t = join_strings(&ts, ", ");
        push_str(&mut l, t.as_str());
        add_line(&mut out, l);
        proof {
            assert(gv[j as int] == gs@[j as int]@);
            assert(gv.take(j + 1) =~= gv.take(j as int).push(gv[j as int]));
            assert(gv.take(j + 1).map_values(|g: Seq<char>| "  "@ + g + " -> "@ + join(targets_from(ds@, g), ", "@))
                =~= gv.take(j as int).map_values(
                |g: Seq<char>| "  "@ + g + " -> "@ + join(targets_from(ds@, g), ", "@),
            ).push("  "@ + gv[j as int] + " -> "@ + join(targets_from(ds@, gv[j as int]), ", "@)));
        }
        j += 1;
    }
    assert(gv.take(gv.len() as int) =~= gv);
    add_line(&mut out, String::new());
    assert(views(out@) =~= dependency_lines(*s));
    out
}


// ---------------------------------------------------------------------------
// The whole text report
// ---------------------------------------------------------------------------

/// The project's name, underlined with one `=` per byte of it.
pub open spec fn heading_lines(s: ProjectSummary) -> Seq<Seq<char>> {
    seq![s.project_name@, Seq::new(byte_len(s.project_name@) as nat, |i: int| '='), Seq::<char>::empty()]
}

/// The services the project's environment uses; nothing when there are none.
pub open spec fn services_lines(s: ProjectSummary) -> Seq<Seq<char>> {
    if s.search_services@.len() == 0 && s.foundry_services@.len() == 0 {
        Seq::empty()
    } else {
        seq!["Services:"@] + views(s.search_services@).map_values(|v: Seq<char>| "  Azure AI Search: "@ + v)
            + views(s.foundry_services@).map_values(|v: Seq<char>| "  Microsoft Foundry: "@ + v) + seq![
            Seq::<char>::empty(),
        ]
    }
}

/// The text report, line by line: heading, services, agents and their
/// retrieval flows, the search resources, and the dependencies.
pub open spec fn summary_lines(s: ProjectSummary) -> Seq<Seq<char>> {
    heading_lines(s) + services_lines(s) + agents_part(s) + search_resource_lines(s) + dependency_lines(s)
}

fn heading_text(s: &ProjectSummary) -> (r: Vec<String>)
    ensures
        views(r@) == heading_lines(*s),
{
    let n = s.project_name.as_str().len();
    let mut u = String::new();
    let mut i: usize = 0;
    while i < n
        invariant
            i <= n,
            u@ == Seq::new(i as nat, |k: int| '='),
        decreases n - i,
    {
        push_char(&mut u, '=');
        assert(u@ =~= Seq::new((i + 1) as nat, |k: int| '='));
        i += 1;
    }
    let mut out: Vec<String> = Vec::new();
    add_line(&mut out, s.project_name.clone());
    add_line(&mut out, u);
    add_line(&mut out, String::new());
    assert(views(out@) =~= heading_lines(*s));
    out
}

fn prefixed(xs: &Vec<String>, p: &str) -> (r: Vec<String>)
    ensures
        views(r@) == views(xs@).map_values(|v: Seq<char>| p@ + v),
{
    let mut out: Vec<String> = Vec::new();
    let mut i: usize = 0;
    while i < xs.len()
        invariant
            i <= xs@.len(),
            out@.len() == i,
            forall|k: int| 0 <= k < i ==> (#[trigger] out@[k])@ == p@ + xs@[k]@,
        decreases xs@.len() - i,
    {
        let mut l = copy_str(p);
        push_str(&mut l, xs[i].as_str());
        out.push(l);
        i += 1;
    }
    assert(views(out@) =~= views(xs@).map_values(|v: Seq<char>| p@ + v));
    out
}

fn services_text(s: &ProjectSummary) -> (r: Vec<String>)
    ensures
        views(r@) == services_lines(*s),
{
    let mut out: Vec<String> = Vec::new();
    if s.search_services.len() == 0 && s.foundry_services.len() == 0 {
        assert(views(out@) =~= services_lines(*s));
        return out;
    }
    add_line(&mut out, copy_str("Services:"));
    add_lines(&mut out, prefixed(&s.search_services, "  Azure AI Search: "));
    add_lines(&mut out, prefixed(&s.foundry_services, "  Microsoft Foundry: "));
    add_line(&mut out, String::new());
    assert(views(out@) =~= services_lines(*s));
    out
}

/// The project as text, line by line: its name, its services, its agents
/// with the retrieval flows behind them, its search resources, and the
/// dependencies between them.
pub fn summary_text(s: &ProjectSummary) -> (r: Vec<String>)
    ensures
        views(r@) == summary_lines(*s),
{
    let mut out = heading_text(s);
    add_lines(&mut out, services_text(s));
    add_lines(&mut out, agents_text(s));
    add_lines(&mut out, search_resources_text(s));
    add_lines(&mut out, dependencies_text(s));
    assert(views(out@) =~= summary_lines(*s));
    out
}

/// Every text in an ascending listing sorts before every later one.
pub open spec fn ascending(ss: Seq<Seq<char>>) -> bool {
    forall|i: int, j: int| 0 <= i < j < ss.len() ==> text_less(#[trigger] ss[i], #[trigger] ss[j])
}

#[verifier::spinoff_prover]
proof fn lemma_insert_sorted_contains(ss: Seq<Seq<char>>, x: Seq<char>)
    ensures
        forall|y: Seq<char>| #[trigger] insert_sorted(ss, x).contains(y) <==> (ss.contains(y) || y == x),
    decreases ss.len(),
{
    let r = insert_sorted(ss, x);
    if ss.len() == 0 {
        assert forall|y: Seq<char>| #[trigger] r.contains(y) <==> (ss.contains(y) || y == x) by {
            if r.contains(y) {
                assert(r[0] == x);
            }
            if y == x {
                assert(r[0] == y);
            }
        }
    } else if ss[0] == x {
        assert forall|y: Seq<char>| #[trigger] r.contains(y) <==> (ss.contains(y) || y == x) by {
            if y == x {
                assert(ss[0] == y);
            }
        }
    } else if text_less(x, ss[0]) {
        assert forall|y: Seq<char>| #[trigger] r.contains(y) <==> (ss.contains(y) || y == x) by {
            if r.contains(y) {
                let k = choose|k: int| 0 <= k < r.len() && r[k] == y;
                if k > 0 {
                    assert(ss[k - 1] == y);
                }
            }
            if ss.contains(y) {
                let k = choose|k: int| 0 <= k < ss.len() && ss[k] == y;
                assert(r[k + 1] == y);
            }
            if y == x {
                assert(r[0] == y);
            }
        }
    } else {
        let t = ss.drop_first();
        lemma_insert_sorted_contains(t, x);
        let rt = insert_sorted(t, x);
        assert(r == seq![ss[0]] + rt);
        assert forall|y: Seq<char>| #[trigger] r.contains(y) <==> (ss.contains(y) || y == x) by {
            if r.contains(y) {
                let k = choose|k: int| 0 <= k < r.len() && r[k] == y;
                if k == 0 {
                    assert(ss[0] == y);
                } else {
                    assert(rt[k - 1] == y);
                    assert(rt.contains(y));
                    if t.contains(y) {
                        let m = choose|m: int| 0 <= m < t.len() && t[m] == y;
                        assert(ss[m + 1] == y);
                    }
                }
            }
            if ss.contains(y) {
                let k = choose|k: int| 0 <= k < ss.len() && ss[k] == y;
                if k == 0 {
                    assert(r[0] == y);
                } else {
                    assert(t[k - 1] == y);
                    assert(rt.contains(y));
                    let m = choose|m: int| 0 <= m < rt.len() && rt[m] == y;
                    assert(r[m + 1] == y);
                }
            }
            if y == x {
                assert(rt.contains(y));
                let m = choose|m: int| 0 <= m < rt.len() && rt[m] == y;
                assert(r[m + 1] == y);
            }
        }
    }
}

#[verifier::spinoff_prover]
proof fn lemma_insert_sorted_ascending(ss: Seq<Seq<char>>, x: Seq<char>)
    requires
        ascending(ss),
    ensures
        ascending(insert_sorted(ss, x)),
    decreases ss.len(),
{
    let r = insert_sorted(ss, x);
    if ss.len() == 0 || ss[0] == x {
    } else if text_less(x, ss[0]) {
        assert forall|i: int, j: int| 0 <= i < j < r.len() implies text_less(#[trigger] r[i], #[trigger] r[j]) by {
            if i == 0 {
                if j > 1 {
                    lemma_text_less_transitive(x, ss[0], ss[j - 1]);
                }
            } else {
                assert(r[i] == ss[i - 1] && r[j] == ss[j - 1]);
            }
        }
    } else {
        let t = ss.drop_first();
        assert(ascending(t)) by {
            assert forall|i: int, j: int| 0 <= i < j < t.len() implies text_less(#[trigger] t[i], #[trigger] t[j]) by {
                assert(t[i] == ss[i + 1] && t[j] == ss[j + 1]);
            }
        }
        lemma_insert_sorted_ascending(t, x);
        lemma_insert_sorted_contains(t, x);
        let rt = insert_sorted(t, x);
        assert(r == seq![ss[0]] + rt);
        lemma_text_less_total(x, ss[0]);
        assert forall|i: int, j: int| 0 <= i < j < r.len() implies text_less(#[trigger] r[i], #[trigger] r[j]) by {
            if i == 0 {
                assert(r[j] == rt[j - 1]);
                assert(rt.contains(rt[j - 1]));
                if rt[j - 1] != x {
                    assert(t.contains(rt[j - 1]));
                    let m = choose|m: int| 0 <= m < t.len() && t[m] == rt[j - 1];
                    assert(ss[m + 1] == t[m]);
                }
            } else {
                assert(r[i] == rt[i - 1] && r[j] == rt[j - 1]);
            }
        }
    }
}

proof fn lemma_insert_sorted_keeps(ss: Seq<Seq<char>>, x: Seq<char>)
    requires
        ascending(ss),
    ensures
        ascending(insert_sorted(ss, x)),
        forall|y: Seq<char>| #[trigger] insert_sorted(ss, x).contains(y) <==> (ss.contains(y) || y == x),
{
    lemma_insert_sorted_ascending(ss, x);
    lemma_insert_sorted_contains(ss, x);
}

/// The dependency listing names each resource that dependencies start from
/// exactly once, in ascending order, and nothing else.
#[verifier::spinoff_prover]
pub proof fn law_dependency_sources_sorted(ds: Seq<Dependency>)
    ensures
        ascending(sources(ds)),
        forall|g: Seq<char>|
            #[trigger] sources(ds).contains(g) <==> exists|k: int| 0 <= k < ds.len() && ds[k].from@ == g,
    decreases ds.len(),
{
    if ds.len() > 0 {
        let p = ds.drop_last();
        law_dependency_sources_sorted(p);
        lemma_insert_sorted_keeps(sources(p), ds.last().from@);
        assert forall|g: Seq<char>|
            #[trigger] sources(ds).contains(g) <==> exists|k: int| 0 <= k < ds.len() && ds[k].from@ == g by {
            if sources(p).contains(g) {
                let k = choose|k: int| 0 <= k < p.len() && p[k].from@ == g;
                assert(ds[k] == p[k]);
            }
            if exists|k: int| 0 <= k < ds.len() && ds[k].from@ == g {
                let k = choose|k: int| 0 <= k < ds.len() && ds[k].from@ == g;
                if k < ds.len() - 1 {
                    assert(p[k] == ds[k]);
                }
            }
        }
    }
}


// ---------------------------------------------------------------------------
// Completing a summary read from disk
// ---------------------------------------------------------------------------


/// Resource summaries are listed by name.
impl Ranked for IndexSummary {
    open spec fn precedes(&self, other: &Self) -> bool {
        text_less(self.name@, other.name@)
    }

    proof fn lemma_order(a: Self, b: Self, c: Self) {
        lemma_text_order(a.name@, b.name@, c.name@);
    }

    fn precedes_exec(&self, other: &Self) -> (r: bool) {
        text_less_exec(self.name.as_str(), other.name.as_str())
    }
}

impl Ranked for DataSourceSummary {
    open spec fn precedes(&self, other: &Self) -> bool {
        text_less(self.name@, other.name@)
    }

    proof fn lemma_order(a: Self, b: Self, c: Self) {
        lemma_text_order(a.name@, b.name@, c.name@);
    }

    fn precedes_exec(&self, other: &Self) -> (r: bool) {
        text_less_exec(self.name.as_str(), other.name.as_str())
    }
}

impl Ranked for IndexerSummary {
    open spec fn precedes(&self, other: &Self) -> bool {
        text_less(self.name@, other.name@)
    }

    proof fn lemma_order(a: Self, b: Self, c: Self) {
        lemma_text_order(a.name@, b.name@, c.name@);
    }

    fn precedes_exec(&self, other: &Self) -> (r: bool) {
        text_less_exec(self.name.as_str(), other.name.as_str())
    }
}

impl Ranked for SkillsetSummary {
    open spec fn precedes(&self, other: &Self) -> bool {
        text_less(self.name@, other.name@)
    }

    proof fn lemma_order(a: Self, b: Self, c: Self) {
        lemma_text_order(a.name@, b.name@, c.name@);
    }

    fn precedes_exec(&self, other: &Self) -> (r: bool) {
        text_less_exec(self.name.as_str(), other.name.as_str())
    }
}

impl Ranked for SynonymMapSummary {
    open spec fn precedes(&self, other: &Self) -> bool {
        text_less(self.name@, other.name@)
    }

    proof fn lemma_order(a: Self, b: Self, c: Self) {
        lemma_text_order(a.name@, b.name@, c.name@);
    }

    fn precedes_exec(&self, other: &Self) -> (r: bool) {
        text_less_exec(self.name.as_str(), other.name.as_str())
    }
}

impl Ranked for AliasSummary {
    open spec fn precedes(&self, other: &Self) -> bool {
        text_less(self.name@, other.name@)
    }

    proof fn lemma_order(a: Self, b: Self, c: Self) {
        lemma_text_order(a.name@, b.name@, c.name@);
    }

    fn precedes_exec(&self, other: &Self) -> (r: bool) {
        text_less_exec(self.name.as_str(), other.name.as_str())
    }
}

impl Ranked for KnowledgeBaseSummary {
    open spec fn precedes(&self, other: &Self) -> bool {
        text_less(self.name@, other.name@)
    }

    proof fn lemma_order(a: Self, b: Self, c: Self) {
        lemma_text_order(a.name@, b.name@, c.name@);
    }

    fn precedes_exec(&self, other: &Self) -> (r: bool) {
        text_less_exec(self.name.as_str(), other.name.as_str())
    }
}

impl Ranked for KnowledgeSourceSummary {
    open spec fn precedes(&self, other: &Self) -> bool {
        text_less(self.name@, other.name@)
    }

    proof fn lemma_order(a: Self, b: Self, c: Self) {
        lemma_text_order(a.name@, b.name@, c.name@);
    }

    fn precedes_exec(&self, other: &Self) -> (r: bool) {
        text_less_exec(self.name.as_str(), other.name.as_str())
    }
}

impl Ranked for AgentSummary {
    open spec fn precedes(&self, other: &Self) -> bool {
        text_less(self.name@, other.name@)
    }

    proof fn lemma_order(a: Self, b: Self, c: Self) {
        lemma_text_order(a.name@, b.name@, c.name@);
    }

    fn precedes_exec(&self, other: &Self) -> (r: bool) {
        text_less_exec(self.name.as_str(), other.name.as_str())
    }
}

/// Dependencies are listed by source, then kind, then target.
pub open spec fn edge_precedes(a: Edge3, b: Edge3) -> bool {
    ||| text_less(a.0, b.0)
    ||| (a.0 == b.0 && text_less(a.2, b.2))
    ||| (a.0 == b.0 && a.2 == b.2 && text_less(a.1, b.1))
}

impl Ranked for Dependency {
    open spec fn precedes(&self, other: &Self) -> bool {
        edge_precedes((self.from@, self.to@, self.kind@), (other.from@, other.to@, other.kind@))
    }

    proof fn lemma_order(a: Self, b: Self, c: Self) {
        lemma_edge_order((a.from@, a.to@, a.kind@), (b.from@, b.to@, b.kind@), (c.from@, c.to@, c.kind@));
    }

    fn precedes_exec(&self, other: &Self) -> (r: bool) {
        if text_less_exec(self.from.as_str(), other.from.as_str()) {
            true
        } else if !str_eq(self.from.as_str(), other.from.as_str()) {
            false
        } else if text_less_exec(self.kind.as_str(), other.kind.as_str()) {
            true
        } else if !str_eq(self.kind.as_str(), other.kind.as_str()) {
            false
        } else {
            text_less_exec(self.to.as_str(), other.to.as_str())
        }
    }
}

proof fn lemma_edge_asymmetric(a: Edge3, b: Edge3)
    ensures
        edge_precedes(a, b) ==> !edge_precedes(b, a),
{
    lemma_text_less_irreflexive(a.0);
    lemma_text_less_irreflexive(a.1);
    lemma_text_less_irreflexive(a.2);
    lemma_text_less_asymmetric(a.0, b.0);
    lemma_text_less_asymmetric(a.1, b.1);
    lemma_text_less_asymmetric(a.2, b.2);
}

proof fn lemma_edge_total(a: Edge3, b: Edge3)
    ensures
        a != b ==> edge_precedes(a, b) || edge_precedes(b, a),
{
    lemma_text_less_total(a.0, b.0);
    lemma_text_less_total(a.1, b.1);
    lemma_text_less_total(a.2, b.2);
}

proof fn lemma_edge_transitive(a: Edge3, b: Edge3, c: Edge3)
    requires
        edge_precedes(a, b),
        edge_precedes(b, c),
    ensures
        edge_precedes(a, c),
{
    if text_less(a.0, b.0) && text_less(b.0, c.0) {
        lemma_text_less_transitive(a.0, b.0, c.0);
    }
    if a.0 == b.0 && b.0 == c.0 && text_less(a.2, b.2) && text_less(b.2, c.2) {
        lemma_text_less_transitive(a.2, b.2, c.2);
    }
    if a.0 == b.0 && b.0 == c.0 && a.2 == b.2 && b.2 == c.2 && text_less(a.1, b.1) && text_less(b.1, c.1) {
        lemma_text_less_transitive(a.1, b.1, c.1);
    }
}

/// The order of dependencies is a strict weak order.
pub proof fn lemma_edge_order(a: Edge3, b: Edge3, c: Edge3)
    ensures
        edge_precedes(a, b) ==> !edge_precedes(b, a),
        !edge_precedes(a, b) && !edge_precedes(b, c) ==> !edge_precedes(a, c),
{
    lemma_edge_asymmetric(a, b);
    if !edge_precedes(a, b) && !edge_precedes(b, c) && a != b && b != c {
        lemma_edge_total(a, b);
        lemma_edge_total(b, c);
        lemma_edge_transitive(c, b, a);
        lemma_edge_asymmetric(c, a);
    }
}

/// `x` put after every edge of the ordered `es` that it does not precede.
pub open spec fn insert_edge(es: Seq<Edge3>, x: Edge3) -> Seq<Edge3>
    decreases es.len(),
{
    if es.len() == 0 {
        seq![x]
    } else if edge_precedes(x, es.last()) {
        insert_edge(es.drop_last(), x).push(es.last())
    } else {
        es.push(x)
    }
}

/// Edges in listing order, stably.
pub open spec fn ranked_edges(es: Seq<Edge3>) -> Seq<Edge3>
    decreases es.len(),
{
    if es.len() == 0 {
        Seq::empty()
    } else {
        insert_edge(ranked_edges(es.drop_last()), es.last())
    }
}

proof fn lemma_insert_edge_views(ss: Seq<Dependency>, x: Dependency)
    ensures
        dep_views(insert_ranked(ss, x)) == insert_edge(dep_views(ss), (x.from@, x.to@, x.kind@)),
    decreases ss.len(),
{
    let xv = (x.from@, x.to@, x.kind@);
    if ss.len() == 0 {
        assert(dep_views(seq![x]) =~= seq![xv]);
    } else {
        assert(dep_views(ss).drop_last() =~= dep_views(ss.drop_last()));
        assert(dep_views(ss).last() == (ss.last().from@, ss.last().to@, ss.last().kind@));
        if x.precedes(&ss.last()) {
            lemma_insert_edge_views(ss.drop_last(), x);
            assert(dep_views(insert_ranked(ss.drop_last(), x).push(ss.last())) =~= dep_views(
                insert_ranked(ss.drop_last(), x),
            ).push(dep_views(ss).last()));
        } else {
            assert(dep_views(ss.push(x)) =~= dep_views(ss).push(xv));
        }
    }
}

/// Sorting dependencies sorts their plain values.
pub proof fn lemma_ranked_dep_views(ds: Seq<Dependency>)
    ensures
        dep_views(ranked(ds)) == ranked_edges(dep_views(ds)),
    decreases ds.len(),
{
    if ds.len() == 0 {
        assert(dep_views(Seq::<Dependency>::empty()) =~= Seq::<Edge3>::empty());
    } else {
        lemma_ranked_dep_views(ds.drop_last());
        lemma_insert_edge_views(ranked(ds.drop_last()), ds.last());
        assert(dep_views(ds).drop_last() =~= dep_views(ds.drop_last()));
    }
}

/// The dependencies of agents on the knowledge bases their tools read.
pub open spec fn agent_kb_edges(ags: Seq<AgentSummary>) -> Seq<Edge3>
    decreases ags.len(),
{
    if ags.len() == 0 {
        Seq::empty()
    } else {
        agent_kb_edges(ags.drop_last()) + tool_kbs(ags.last().tools@).map_values(
            |k: Seq<char>| (ags.last().name@, k, "Knowledge Base"@),
        )
    }
}

/// The dependencies of knowledge bases on their knowledge sources.
pub open spec fn kb_source_edges(kbs: Seq<KnowledgeBaseSummary>) -> Seq<Edge3>
    decreases kbs.len(),
{
    if kbs.len() == 0 {
        Seq::empty()
    } else {
        kb_source_edges(kbs.drop_last()) + views(kbs.last().knowledge_sources@).map_values(
            |n: Seq<char>| (kbs.last().name@, n, "Knowledge Source"@),
        )
    }
}

fn add_agent_kb_dependencies(ags: &Vec<AgentSummary>, deps: &mut Vec<Dependency>)
    ensures
        dep_views(final(deps)@) == dep_views(old(deps)@) + agent_kb_edges(ags@),
{
    let ghost d0 = dep_views(deps@);
    let mut i: usize = 0;
    while i < ags.len()
        invariant
            i <= ags@.len(),
            dep_views(deps@) == d0 + agent_kb_edges(ags@.take(i as int)),
        decreases ags@.len() - i,
    {
        let a = &ags[i];
        let ks = tool_kbs_of(&a.tools);
        let ghost kv = views(ks@);
        let ghost d1 = dep_views(deps@);
        let mut j: usize = 0;
        while j < ks.len()
            invariant
                j <= ks@.len(),
                kv == views(ks@),
                dep_views(deps@) == d1 + kv.take(j as int).map_values(|k: Seq<char>| (a.name@, k, "Knowledge Base"@)),
            decreases ks@.len() - j,
        {
            push_dep(deps, &a.name, &ks[j], "Knowledge Base");
            proof {
                assert(kv[j as int] == ks@[j as int]@);
                assert(kv.take(j + 1).map_values(|k: Seq<char>| (a.name@, k, "Knowledge Base"@)) =~= kv.take(
                    j as int,
                ).map_values(|k: Seq<char>| (a.name@, k, "Knowledge Base"@)).push((a.name@, kv[j as int], "Knowledge Base"@)));
            }
            j += 1;
        }
        proof {
            assert(kv.take(kv.len() as int) =~= kv);
            assert(ags@.take(i + 1).drop_last() =~= ags@.take(i as int));
        }
        i += 1;
    }
    assert(ags@.take(ags@.len() as int) =~= ags@);
}

fn add_kb_source_dependencies(kbs: &Vec<KnowledgeBaseSummary>, deps: &mut Vec<Dependency>)
    ensures
        dep_views(final(deps)@) == dep_views(old(deps)@) + kb_source_edges(kbs@),
{
    let ghost d0 = dep_views(deps@);
    let mut i: usize = 0;
    while i < kbs.len()
        invariant
            i <= kbs@.len(),
            dep_views(deps@) == d0 + kb_source_edges(kbs@.take(i as int)),
        decreases kbs@.len() - i,
    {
        let k = &kbs[i];
        let ghost kv = views(k.knowledge_sources@);
        let ghost d1 = dep_views(deps@);
        let mut j: usize = 0;
        while j < k.knowledge_sources.len()
            invariant
                j <= k.knowledge_sources@.len(),
                kv == views(k.knowledge_sources@),
                dep_views(deps@) == d1 + kv.take(j as int).map_values(|n: Seq<char>| (k.name@, n, "Knowledge Source"@)),
            decreases k.knowledge_sources@.len() - j,
        {
            push_dep(deps, &k.name, &k.knowledge_sources[j], "Knowledge Source");
            proof {
                assert(kv[j as int] == k.knowledge_sources@[j as int]@);
                assert(kv.take(j + 1).map_values(|n: Seq<char>| (k.name@, n, "Knowledge Source"@)) =~= kv.take(
                    j as int,
                ).map_values(|n: Seq<char>| (k.name@, n, "Knowledge Source"@)).push((k.name@, kv[j as int], "Knowledge Source"@)));
            }
            j += 1;
        }
        proof {
            assert(kv.take(kv.len() as int) =~= kv);
            assert(kbs@.take(i + 1).drop_last() =~= kbs@.take(i as int));
        }
        i += 1;
    }
    assert(kbs@.take(kbs@.len() as int) =~= kbs@);
}

/// Completes a summary read from the project's files: adds the
/// dependencies of agents on the knowledge bases their tools read and of
/// knowledge bases on their knowledge sources, then orders every listing
/// by name and the dependencies by source, kind and target, each stably.
pub fn complete_summary(s: &mut ProjectSummary)
    ensures
        final(s).project_name == old(s).project_name,
        final(s).search_services == old(s).search_services,
        final(s).foundry_services == old(s).foundry_services,
        final(s).indexes@ == ranked(old(s).indexes@),
        final(s).data_sources@ == ranked(old(s).data_sources@),
        final(s).indexers@ == ranked(old(s).indexers@),
        final(s).skillsets@ == ranked(old(s).skillsets@),
        final(s).synonym_maps@ == ranked(old(s).synonym_maps@),
        final(s).aliases@ == ranked(old(s).aliases@),
        final(s).knowledge_bases@ == ranked(old(s).knowledge_bases@),
        final(s).knowledge_sources@ == ranked(old(s).knowledge_sources@),
        final(s).agents@ == ranked(old(s).agents@),
        dep_views(final(s).dependencies@) == ranked_edges(
            dep_views(old(s).dependencies@) + agent_kb_edges(old(s).agents@) + kb_source_edges(old(s).knowledge_bases@),
        ),
{
    add_agent_kb_dependencies(&s.agents, &mut s.dependencies);
    add_kb_source_dependencies(&s.knowledge_bases, &mut s.dependencies);
    let ghost d = s.dependencies@;
    sort_ranked(&mut s.indexes);
    sort_ranked(&mut s.data_sources);
    sort_ranked(&mut s.indexers);
    sort_ranked(&mut s.skillsets);
    sort_ranked(&mut s.synonym_maps);
    sort_ranked(&mut s.aliases);
    sort_ranked(&mut s.knowledge_bases);
    sort_ranked(&mut s.knowledge_sources);
    sort_ranked(&mut s.agents);
    sort_ranked(&mut s.dependencies);
    proof {
        lemma_ranked_dep_views(d);
    }
}

} // verus!
