use rigg::diff_output::JsonValue;
use rigg::indexer_runs::{run_problems, Tone};
use rigg::project_graph::{
    add_indexer_dependencies, add_knowledge_source_dependencies, AgentSummary, AgentToolSummary,
    AliasSummary, DataSourceSummary, Dependency, FieldSummary, IndexSummary, IndexerSummary,
    KnowledgeBaseSummary, KnowledgeSourceSummary, SkillEntry, SkillsetSummary, SynonymMapSummary,
};
use rigg::project_report::{
    complete_summary, dependencies_text, indented_lines, rag_flows_text, search_resources_text,
    summary_json, summary_text, ProjectSummary,
};

fn to_serde(v: &JsonValue) -> serde_json::Value {
    match v {
        JsonValue::Null => serde_json::Value::Null,
        JsonValue::Bool(b) => serde_json::Value::Bool(*b),
        JsonValue::Number(n) => serde_json::from_str(n).unwrap(),
        JsonValue::Str(s) => serde_json::Value::String(s.clone()),
        JsonValue::Array(a) => serde_json::Value::Array(a.iter().map(to_serde).collect()),
        JsonValue::Object(o) => serde_json::Value::Object(
            o.iter().map(|(k, v)| (k.clone(), to_serde(v))).collect(),
        ),
    }
}

fn s(x: &str) -> String {
    x.to_string()
}

fn empty(name: &str) -> ProjectSummary {
    ProjectSummary {
        project_name: s(name),
        search_services: vec![],
        foundry_services: vec![],
        indexes: vec![],
        data_sources: vec![],
        indexers: vec![],
        skillsets: vec![],
        synonym_maps: vec![],
        aliases: vec![],
        knowledge_bases: vec![],
        knowledge_sources: vec![],
        agents: vec![],
        dependencies: vec![],
    }
}

fn field(name: &str, key: bool, analyzer: Option<&str>) -> FieldSummary {
    FieldSummary {
        name: s(name),
        field_type: s("Edm.String"),
        is_key: key,
        analyzer: analyzer.map(s),
    }
}

fn agent(name: &str, model: &str, kbs: &[&str], instructions: &str) -> AgentSummary {
    let tools: Vec<AgentToolSummary> = kbs
        .iter()
        .map(|k| AgentToolSummary { tool_type: s("mcp"), knowledge_base_name: Some(s(k)) })
        .collect();
    AgentSummary {
        name: s(name),
        file_path: format!("agents/{name}.yaml"),
        model: s(model),
        tool_count: tools.len(),
        tools,
        instructions: s(instructions),
    }
}

fn kb(name: &str, sources: &[&str], description: Option<&str>) -> KnowledgeBaseSummary {
    KnowledgeBaseSummary {
        name: s(name),
        file_path: format!("knowledge-bases/{name}.json"),
        description: description.map(s),
        retrieval_instructions: None,
        output_mode: Some(s("answerSynthesis")),
        knowledge_sources: sources.iter().map(|x| s(x)).collect(),
    }
}

fn dep(from: &str, to: &str, kind: &str) -> Dependency {
    Dependency { from: s(from), to: s(to), kind: s(kind) }
}

/// A small project with one resource of each kind, completed as the
/// command completes it.
fn demo() -> ProjectSummary {
    let mut p = empty("demo");
    p.search_services = vec![s("srch")];
    p.foundry_services = vec![s("fdy/proj")];
    p.indexes.push(IndexSummary {
        name: s("docs"),
        file_path: s("indexes/docs.json"),
        fields: vec![field("id", true, None), field("content", false, Some("en.lucene"))],
        vector_profile_count: 1,
        has_semantic_config: true,
    });
    p.data_sources.push(DataSourceSummary {
        name: s("blob-ds"),
        file_path: s("data-sources/blob-ds.json"),
        source_type: s("azureblob"),
        container: s("docs"),
    });
    let indexer = IndexerSummary {
        name: s("docs-indexer"),
        file_path: s("indexers/docs-indexer.json"),
        target_index: s("docs"),
        data_source: s("blob-ds"),
        skillset: Some(s("enrich")),
    };
    add_indexer_dependencies(&indexer, &mut p.dependencies);
    p.indexers.push(indexer);
    p.skillsets.push(SkillsetSummary {
        name: s("enrich"),
        file_path: s("skillsets/enrich.json"),
        skills: vec![
            SkillEntry { odata_type: s("#Microsoft.Skills.Text.SplitSkill"), name: Some(s("split")) },
            SkillEntry { odata_type: s("#Microsoft.Skills.Util.ShaperSkill"), name: None },
        ],
    });
    p.synonym_maps.push(SynonymMapSummary {
        name: s("syn"),
        file_path: s("synonym-maps/syn.json"),
        format: s("solr"),
    });
    p.aliases.push(AliasSummary {
        name: s("docs-alias"),
        file_path: s("aliases/docs-alias.json"),
        indexes: vec![s("docs")],
    });
    p.knowledge_bases.push(kb("kb1", &["ks1"], Some("Knowledge\n\nbase")));
    let ks = KnowledgeSourceSummary {
        name: s("ks1"),
        file_path: s("knowledge-sources/ks1/ks1.json"),
        description: Some(s("Docs source")),
        kind: Some(s("searchIndex")),
        index_name: Some(s("docs")),
        knowledge_base: None,
    };
    add_knowledge_source_dependencies(&ks, &mut p.dependencies);
    p.knowledge_sources.push(ks);
    p.agents.push(agent("helper", "gpt-4o", &["kb1"], "Be helpful.\nSecond line"));
    complete_summary(&mut p);
    p
}

#[test]
fn test_print_indented_captures_output() {
    assert_eq!(indented_lines("single line", "  "), vec!["  single line"]);
    assert_eq!(
        indented_lines("line one\nline two\n\nline four", "    "),
        vec!["    line one", "    line two", "", "    line four"]
    );
}

#[test]
fn indented_blank_lines_keep_the_rule_of_a_tree() {
    assert_eq!(indented_lines("a\n\nb", "  │     "), vec!["  │     a", "  │", "  │     b"]);
}

#[test]
fn summary_text_reports_every_section() {
    let p = demo();
    let eight = " ".repeat(8);
    let fourteen = " ".repeat(14);
    let seventeen = " ".repeat(17);
    let expected: Vec<String> = vec![
        s("demo"),
        s("===="),
        s(""),
        s("Services:"),
        s("  Azure AI Search: srch"),
        s("  Microsoft Foundry: fdy/proj"),
        s(""),
        s("Foundry Agents (1):"),
        s(""),
        s("  helper (gpt-4o)"),
        s("    Tools: mcp -> kb1"),
        s("    Instructions: Be helpful."),
        s(""),
        s("Agentic RAG Flows:"),
        s(""),
        s("  helper"),
        s("  └─ Knowledge Base: kb1"),
        format!("{eight}Description:"),
        format!("{eight}Knowledge"),
        s(""),
        format!("{eight}base"),
        format!("{eight}Output: answerSynthesis"),
        format!("{eight}└─ Knowledge Source: ks1 (searchIndex)"),
        format!("{fourteen}Docs source"),
        format!("{fourteen}└─ Index: docs (2 fields, key: id)"),
        format!("{seventeen}1 vector profile(s), semantic search"),
        s(""),
        s("Indexes (1):"),
        s("  docs (2 fields, key: id)"),
        s("    Fields: id (Edm.String, key), content (Edm.String, analyzer: en.lucene)"),
        s("    Vector search: 1 profile(s)"),
        s("    Semantic: default config"),
        s(""),
        s("Data Sources (1):"),
        s("  blob-ds (azureblob -> docs)"),
        s(""),
        s("Indexers (1):"),
        s("  docs-indexer"),
        s("    Index: docs | Data Source: blob-ds | Skillset: enrich"),
        s(""),
        s("Skillsets (1):"),
        s("  enrich (2 skills)"),
        s("    - #Microsoft.Skills.Text.SplitSkill (split)"),
        s("    - #Microsoft.Skills.Util.ShaperSkill"),
        s(""),
        s("Synonym Maps (1):"),
        s("  syn (solr format)"),
        s(""),
        s("Aliases (1):"),
        s("  docs-alias -> docs"),
        s(""),
        s("Knowledge Bases (1):"),
        s("  kb1 -> ks1"),
        s("    Knowledge"),
        s(""),
        s("    base"),
        s(""),
        s("Knowledge Sources (1):"),
        s("  ks1 (searchIndex) -> Index: docs"),
        s("    Docs source"),
        s(""),
        s("Dependencies:"),
        s("  docs-indexer -> blob-ds (Data Source), docs (Index), enrich (Skillset)"),
        s("  helper -> kb1 (Knowledge Base)"),
        s("  kb1 -> ks1 (Knowledge Source)"),
        s("  ks1 -> docs (Index)"),
        s(""),
    ];
    assert_eq!(summary_text(&p), expected);
}

#[test]
fn summary_json_holds_every_summary() {
    let p = demo();
    let expected: serde_json::Value = serde_json::from_str(
        r##"{
        "project_name": "demo",
        "search_services": ["srch"],
        "foundry_services": ["fdy/proj"],
        "indexes": [{
            "name": "docs", "file_path": "indexes/docs.json", "field_count": 2, "key_field": "id",
            "fields": [
                {"name": "id", "type": "Edm.String", "key": true},
                {"name": "content", "type": "Edm.String", "key": false, "analyzer": "en.lucene"}
            ],
            "vector_profile_count": 1, "has_semantic_config": true
        }],
        "data_sources": [{"name": "blob-ds", "file_path": "data-sources/blob-ds.json", "type": "azureblob", "container": "docs"}],
        "indexers": [{"name": "docs-indexer", "file_path": "indexers/docs-indexer.json", "target_index": "docs", "data_source": "blob-ds", "skillset": "enrich"}],
        "skillsets": [{"name": "enrich", "file_path": "skillsets/enrich.json", "skill_count": 2, "skills": [
            {"type": "#Microsoft.Skills.Text.SplitSkill", "name": "split"},
            {"type": "#Microsoft.Skills.Util.ShaperSkill", "name": null}
        ]}],
        "synonym_maps": [{"name": "syn", "file_path": "synonym-maps/syn.json", "format": "solr"}],
        "aliases": [{"name": "docs-alias", "file_path": "aliases/docs-alias.json", "indexes": ["docs"]}],
        "knowledge_bases": [{"name": "kb1", "file_path": "knowledge-bases/kb1.json", "description": "Knowledge\n\nbase",
            "retrieval_instructions": null, "output_mode": "answerSynthesis", "knowledge_sources": ["ks1"]}],
        "knowledge_sources": [{"name": "ks1", "file_path": "knowledge-sources/ks1/ks1.json", "description": "Docs source",
            "kind": "searchIndex", "index_name": "docs", "knowledge_base": null}],
        "agents": [{"name": "helper", "file_path": "agents/helper.yaml", "model": "gpt-4o", "tool_count": 1,
            "tools": [{"type": "mcp", "knowledge_base": "kb1"}], "instructions": "Be helpful.\nSecond line"}],
        "dependencies": [
            {"from": "docs-indexer", "to": "blob-ds", "kind": "Data Source"},
            {"from": "docs-indexer", "to": "docs", "kind": "Index"},
            {"from": "docs-indexer", "to": "enrich", "kind": "Skillset"},
            {"from": "helper", "to": "kb1", "kind": "Knowledge Base"},
            {"from": "kb1", "to": "ks1", "kind": "Knowledge Source"},
            {"from": "ks1", "to": "docs", "kind": "Index"}
        ]
    }"##,
    )
    .unwrap();
    assert_eq!(to_serde(&summary_json(&p)), expected);
}

#[test]
fn empty_project_is_only_its_heading() {
    let p = empty("café");
    assert_eq!(summary_text(&p), vec![s("café"), s("====="), s("")]);
    let expected: serde_json::Value = serde_json::from_str(
        r#"{"project_name": "café", "search_services": [], "foundry_services": [], "indexes": [],
        "data_sources": [], "indexers": [], "skillsets": [], "synonym_maps": [], "aliases": [],
        "knowledge_bases": [], "knowledge_sources": [], "agents": [], "dependencies": []}"#,
    )
    .unwrap();
    assert_eq!(to_serde(&summary_json(&p)), expected);
}

#[test]
fn dependencies_are_grouped_by_source_in_ascending_order() {
    let mut p = empty("p");
    p.dependencies = vec![dep("b", "x", "K"), dep("a", "y", "K"), dep("b", "z", "L")];
    assert_eq!(
        dependencies_text(&p),
        vec![s("Dependencies:"), s("  a -> y (K)"), s("  b -> x (K), z (L)"), s("")]
    );
}

#[test]
fn completing_orders_listings_by_name_and_dependencies_by_source_kind_target() {
    let mut p = empty("p");
    p.agents = vec![agent("zeta", "", &["kb-b"], ""), agent("alpha", "", &["kb-a"], "")];
    p.knowledge_bases = vec![kb("kb-b", &["ks2", "ks1"], None), kb("kb-a", &[], None)];
    p.dependencies = vec![dep("kb-b", "x", "Index")];
    complete_summary(&mut p);
    let names: Vec<&str> = p.agents.iter().map(|a| a.name.as_str()).collect();
    assert_eq!(names, vec!["alpha", "zeta"]);
    let kbs: Vec<&str> = p.knowledge_bases.iter().map(|k| k.name.as_str()).collect();
    assert_eq!(kbs, vec!["kb-a", "kb-b"]);
    let deps: Vec<(&str, &str, &str)> = p
        .dependencies
        .iter()
        .map(|d| (d.from.as_str(), d.to.as_str(), d.kind.as_str()))
        .collect();
    assert_eq!(
        deps,
        vec![
            ("alpha", "kb-a", "Knowledge Base"),
            ("kb-b", "x", "Index"),
            ("kb-b", "ks1", "Knowledge Source"),
            ("kb-b", "ks2", "Knowledge Source"),
            ("zeta", "kb-b", "Knowledge Base"),
        ]
    );
}

#[test]
fn flows_refer_back_to_a_described_knowledge_base_and_note_missing_ones() {
    let mut p = empty("p");
    p.knowledge_bases = vec![kb("kb1", &["gone"], None)];
    p.agents = vec![
        agent("first", "", &["kb1", "elsewhere"], ""),
        agent("second", "", &["kb1"], ""),
        agent("plain", "", &[], ""),
    ];
    assert_eq!(
        rag_flows_text(&p),
        vec![
            s("Agentic RAG Flows:"),
            s(""),
            s("  first"),
            s("  ├─ Knowledge Base: kb1"),
            s("  │     Output: answerSynthesis"),
            s("  │     └─ Knowledge Source: gone"),
            s("  └─ Knowledge Base: elsewhere (not in local config)"),
            s(""),
            s("  second"),
            s("  └─ Knowledge Base: kb1 (described above)"),
            s(""),
        ]
    );
}

#[test]
fn no_flows_without_knowledge_bases() {
    let mut p = empty("p");
    p.agents = vec![agent("plain", "gpt", &[], "")];
    assert!(rag_flows_text(&p).is_empty());
}

#[test]
fn long_field_lists_are_cut_after_five() {
    let mut p = empty("p");
    p.indexes.push(IndexSummary {
        name: s("wide"),
        file_path: s("indexes/wide.json"),
        fields: (1..=6).map(|i| field(&format!("f{i}"), false, None)).collect(),
        vector_profile_count: 0,
        has_semantic_config: false,
    });
    p.data_sources.push(DataSourceSummary {
        name: s("sql"),
        file_path: s("data-sources/sql.json"),
        source_type: s("azuresql"),
        container: s(""),
    });
    assert_eq!(
        search_resources_text(&p),
        vec![
            s("Indexes (1):"),
            s("  wide (6 fields)"),
            s("    Fields: f1 (Edm.String), f2 (Edm.String), f3 (Edm.String), f4 (Edm.String), f5 (Edm.String), ..."),
            s(""),
            s("Data Sources (1):"),
            s("  sql (azuresql)"),
            s(""),
        ]
    );
}

fn doc(text: &str) -> JsonValue {
    from_serde(serde_json::from_str(text).unwrap())
}

fn from_serde(v: serde_json::Value) -> JsonValue {
    match v {
        serde_json::Value::Null => JsonValue::Null,
        serde_json::Value::Bool(b) => JsonValue::Bool(b),
        serde_json::Value::Number(n) => JsonValue::Number(n.to_string()),
        serde_json::Value::String(s) => JsonValue::Str(s),
        serde_json::Value::Array(a) => JsonValue::Array(a.into_iter().map(from_serde).collect()),
        serde_json::Value::Object(o) => {
            JsonValue::Object(o.into_iter().map(|(k, v)| (k, from_serde(v))).collect())
        }
    }
}

#[test]
fn run_problems_show_message_and_document() {
    let run = doc(
        r#"{"status": "transientFailure",
            "errors": [
                {"errorMessage": "boom", "key": "doc1"},
                {"message": "fallback"},
                {"errorMessage": null, "message": "unused"}
            ],
            "warnings": []}"#,
    );
    assert_eq!(
        run_problems(&run),
        vec![
            (Tone::Plain, s("  3 error(s):")),
            (Tone::Error, s("    - [doc1] boom")),
            (Tone::Error, s("    - fallback")),
            (Tone::Error, s("    - ?")),
        ]
    );
}

#[test]
fn run_problems_list_twenty_and_count_the_rest() {
    let items: Vec<String> = (1..=22).map(|i| format!(r#"{{"message": "w{i}"}}"#)).collect();
    let run = doc(&format!(r#"{{"warnings": [{}]}}"#, items.join(",")));
    let lines = run_problems(&run);
    assert_eq!(lines.len(), 22);
    assert_eq!(lines[0], (Tone::Plain, s("  22 warning(s):")));
    assert_eq!(lines[1], (Tone::Warning, s("    - w1")));
    assert_eq!(lines[20], (Tone::Warning, s("    - w20")));
    assert_eq!(lines[21], (Tone::Plain, s("    … and 2 more")));
}

#[test]
fn run_without_problems_shows_nothing() {
    assert!(run_problems(&doc(r#"{"errors": "none"}"#)).is_empty());
    assert!(run_problems(&doc(r#"[1, 2]"#)).is_empty());
}
