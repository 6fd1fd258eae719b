use rigg::ask::{
    coerce, merge_answer_flags, parse_answer_flag, AnswerMap, Candidate, InteractiveAsker, Question, ScriptError,
    ScriptedAsker,
};
use rigg::diff_output::JsonValue;

#[test]
fn coerce_enforces_candidates_and_confirm_env() {
    let q = Question::choice(
        "q".to_string(),
        "?".to_string(),
        vec![Candidate {
            value: "a".into(),
            label: "A".into(),
        }],
    );
    assert!(coerce(&q, "b").is_err());
    assert_eq!(
        coerce(&q.clone().allow_other(), "b").unwrap().as_str(),
        Some("b")
    );
    let c = Question::confirm("c".to_string(), "?".to_string(), true);
    assert_eq!(coerce(&c, "no").unwrap().as_bool(), Some(false));
    let e = Question::confirm_env("prod", "push");
    assert_eq!(e.id, "confirm.protected.prod");
    assert!(coerce(&e, "prd").is_err());
    assert_eq!(coerce(&e, "prod").unwrap().as_bool(), Some(true));
}

#[test]
fn interactive_asker_uses_presupplied_answers_without_prompting() {
    let mut a = InteractiveAsker::new(
        AnswerMap::from_pairs(vec![("confirm.protected.prod".to_string(), "prod".to_string())]),
        true,
    );
    let q = Question::confirm_env("prod", "push");
    assert_eq!(a.ask(&q).unwrap().as_bool(), Some(true));
}

#[test]
fn answer_flags_split_at_the_first_equals() {
    assert_eq!(
        parse_answer_flag("a=b=c").unwrap(),
        ("a".to_string(), "b=c".to_string())
    );
    assert!(parse_answer_flag("novalue").is_err());
    assert!(parse_answer_flag("=x").is_err());
}

#[test]
fn later_answers_replace_earlier_ones() {
    let mut m = AnswerMap::new();
    m.insert("x".to_string(), "1".to_string());
    m.insert("x".to_string(), "2".to_string());
    assert_eq!(m.get("x").map(|s| s.as_str()), Some("2"));
    assert_eq!(m.get("y"), None);
}

#[test]
fn confirm_accepts_yes_and_no_in_any_case() {
    let c = Question::confirm("c".to_string(), "?".to_string(), false);
    assert_eq!(coerce(&c, "YES").unwrap().as_bool(), Some(true));
    assert_eq!(coerce(&c, "n").unwrap().as_bool(), Some(false));
    assert!(coerce(&c, "maybe").is_err());
}

fn to_serde(v: &JsonValue) -> serde_json::Value {
    match v {
        JsonValue::Null => serde_json::Value::Null,
        JsonValue::Bool(b) => serde_json::Value::Bool(*b),
        JsonValue::Number(n) => serde_json::from_str(n).unwrap(),
        JsonValue::Str(s) => serde_json::Value::String(s.clone()),
        JsonValue::Array(a) => serde_json::Value::Array(a.iter().map(to_serde).collect()),
        JsonValue::Object(o) => serde_json::Value::Object(
            o.iter().map(|(k, v)| (k.clone(), to_serde(v))).collect(),
        ),
    }
}

#[test]
fn scripted_asker_answers_from_map_and_collects_the_rest() {
    let context = JsonValue::Object(vec![
        ("from".to_string(), JsonValue::Str("dev".to_string())),
        ("to".to_string(), JsonValue::Str("prod".to_string())),
    ]);
    let mut asker = ScriptedAsker::new(
        AnswerMap::from_pairs(vec![("binding.prod.docs-storage".to_string(), "same".to_string())]),
        "promote",
        context,
    );
    let q1 = Question::choice(
        "binding.prod.docs-storage".to_string(),
        "Which storage?".to_string(),
        vec![Candidate { value: "same".into(), label: "same as dev".into() }],
    );
    let q2 = Question::text("binding.prod.enrich-fn".to_string(), "Function app for prod?".to_string());
    assert_eq!(asker.ask(&q1).unwrap().as_str(), Some("same"));
    let err = asker.ask_all(&[q1.clone(), q2.clone()]).unwrap_err();
    let ni = match err {
        ScriptError::NeedsInput(ni) => ni,
        other => panic!("expected NeedsInput, got {other:?}"),
    };
    assert_eq!(ni.questions.iter().map(|q| q.id.as_str()).collect::<Vec<_>>(), vec!["binding.prod.enrich-fn"]);
    let doc = to_serde(&ni.to_json());
    assert_eq!(doc["status"], "needs-input");
    assert_eq!(doc["command"], "promote");
    assert_eq!(doc["questions"][0]["kind"], "text");
    assert!(doc["questions"][0].get("candidates").is_none(), "omitted when empty");
    assert_eq!(doc["context"]["to"], "prod");
    assert_eq!(ni.message(), "1 question(s) need an answer: binding.prod.enrich-fn");
}

#[test]
fn scripted_asker_stops_at_an_invalid_answer() {
    let mut asker = ScriptedAsker::new(
        AnswerMap::from_pairs(vec![("c".to_string(), "maybe".to_string())]),
        "push",
        JsonValue::Null,
    );
    let missing = Question::text("t".to_string(), "T?".to_string());
    let confirm = Question::confirm("c".to_string(), "C?".to_string(), true);
    match asker.ask_all(&[missing, confirm.clone()]) {
        Err(ScriptError::Invalid(e)) => assert_eq!(e, "invalid answer for 'c': expected yes/no"),
        other => panic!("expected Invalid, got {other:?}"),
    }
    let doc = to_serde(&confirm.allow_other().to_value());
    assert_eq!(doc["default"], "yes");
    assert_eq!(doc["allow_other"], serde_json::Value::Bool(true));
}

#[test]
fn load_answers_merges_flags_over_file_and_rejects_bad_flags() {
    // The file `{"x": "1", "y": "2"}` as read; the flags are laid over it.
    let mut m = AnswerMap::from_pairs(vec![
        ("x".to_string(), "1".to_string()),
        ("y".to_string(), "2".to_string()),
    ]);
    merge_answer_flags(&mut m, &vec!["y=3".to_string()]).unwrap();
    assert_eq!(m.get("x").map(|s| s.as_str()), Some("1"));
    assert_eq!(m.get("y").map(|s| s.as_str()), Some("3"));
    assert!(parse_answer_flag("novalue").is_err());
}

#[test]
fn later_flags_win_and_the_first_bad_flag_is_reported() {
    let mut m = AnswerMap::new();
    merge_answer_flags(&mut m, &vec!["a=1".to_string(), "b=2".to_string(), "a=3".to_string()]).unwrap();
    assert_eq!(m.get("a").map(|s| s.as_str()), Some("3"));
    assert_eq!(m.get("b").map(|s| s.as_str()), Some("2"));
    let mut n = AnswerMap::new();
    let e = merge_answer_flags(&mut n, &vec!["a=1".to_string(), "bad".to_string(), "=x".to_string()]).unwrap_err();
    assert_eq!(e, "invalid --answer 'bad': expected <id>=<value>");
}
