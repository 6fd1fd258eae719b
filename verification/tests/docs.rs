use rigg::docs::{
    command_lines, command_tokens, heading_slugs, is_shell_operator, lines, link_targets,
    one_line, slug, strip_comment, substitute_placeholders, link_check, LinkCheck, env_var_names,
    env_var_findings, question_prefix_findings,
};

fn has(v: &[String], s: &str) -> bool {
    v.iter().any(|x| x == s)
}

#[test]
fn heading_slugs_skip_fences_and_number_duplicates() {
    let text = "# Title\n```bash\n# not a heading\n```\n## Env\n## Env\n";
    let slugs = heading_slugs(text);
    assert!(has(&slugs, "title"));
    assert!(has(&slugs, "env"));
    assert!(has(&slugs, "env-1"));
    assert!(!has(&slugs, "not-a-heading"));
}

#[test]
fn link_targets_are_extracted_without_titles_or_images() {
    let line = r#"See [a](docs/a.md#x) and ![img](media/logo.png "Logo")."#;
    assert_eq!(link_targets(line), vec!["docs/a.md#x", "media/logo.png"]);
}

#[test]
fn link_targets_keep_balanced_parentheses_and_drop_angle_brackets() {
    assert_eq!(link_targets("[w](<a(b).md>) [x](unclosed"), vec!["a(b).md"]);
}

#[test]
fn lines_drop_carriage_returns_and_a_final_newline() {
    assert_eq!(lines("a\r\nb\n\nc"), vec!["a", "b", "", "c"]);
    assert_eq!(lines("a\n"), vec!["a"]);
    assert!(lines("").is_empty());
}

#[test]
fn slugs_lowercase_and_hyphenate() {
    assert_eq!(slug("Hello, World!"), "hello-world");
    assert_eq!(slug("snake_case and-dash"), "snake_case-and-dash");
}

#[test]
fn only_shell_fences_are_scanned() {
    let text = "```json\nrigg not-a-command\n```\n\n```bash\nrigg status\n```\n";
    let cmds = command_lines(text);
    assert_eq!(cmds.len(), 1);
    assert_eq!(cmds, vec![(6, "rigg status".to_string())]);
}

#[test]
fn placeholders_continuations_comments_and_redirects_are_handled() {
    let text = "```bash\n$ rigg push <project> --prune   # comment\nrigg promote <project> \\\n  --from <dev> --to <prod>\nrigg completion zsh > ~/.zfunc/_rigg\nrigg status …\n```\n";
    let cmds = command_lines(text);
    assert_eq!(cmds.len(), 3);
    assert_eq!(cmds[0], (2, "rigg push <project> --prune".to_string()));
    assert_eq!(cmds[1], (3, "rigg promote <project> --from <dev> --to <prod>".to_string()));
    assert_eq!(
        command_tokens(&cmds[2].1).unwrap(),
        vec!["rigg", "completion", "zsh"]
    );
}

#[test]
fn non_rigg_lines_are_ignored() {
    let text = "```bash\naz login\nCOMPLETE=zsh rigg\n```\n";
    assert_eq!(command_lines(text).len(), 0);
}

#[test]
fn comments_outside_quotes_are_stripped() {
    assert_eq!(strip_comment("rigg x # note"), "rigg x");
    assert_eq!(strip_comment("rigg x '#not' \"a # b\""), "rigg x '#not' \"a # b\"");
    assert_eq!(strip_comment("rigg x#y"), "rigg x#y");
}

#[test]
fn placeholders_become_x() {
    assert_eq!(substitute_placeholders("rigg push <project> <env"), "rigg push x <env");
    assert!(is_shell_operator("2>&1"));
    assert!(!is_shell_operator("--env"));
}

#[test]
fn unbalanced_quotes_are_reported() {
    let err = command_tokens("rigg status 'oops").unwrap_err();
    assert_eq!(err, "unbalanced quotes in `rigg status 'oops`");
}

#[test]
fn one_line_takes_the_first_nonempty_line() {
    assert_eq!(one_line("\n  error: bad flag  \nmore"), "error: bad flag");
    assert_eq!(one_line("\n \n"), "could not be parsed");
}

#[test]
fn env_var_scan_finds_real_names_only() {
    let names = env_var_names("var(\"RIGG_ENV\"); \"AZURE_TENANT_ID\"; RIGG_");
    assert_eq!(names, vec!["RIGG_ENV", "AZURE_TENANT_ID"]);
    assert!(env_var_names("RIGG_A_ and lower RIGG_b").is_empty());
}

#[test]
fn external_links_are_skipped_and_anchors_split() {
    assert_eq!(link_check("https://x.example/a"), LinkCheck::Skip);
    assert_eq!(link_check(" mailto:a@b "), LinkCheck::Skip);
    assert_eq!(
        link_check("docs/a.md#sec"),
        LinkCheck::Check { path: "docs/a.md".into(), anchor: Some("sec".into()) }
    );
    assert_eq!(
        link_check("#top"),
        LinkCheck::Check { path: String::new(), anchor: Some("top".into()) }
    );
    assert_eq!(link_check("b.md"), LinkCheck::Check { path: "b.md".into(), anchor: None });
}

#[test]
fn reference_pages_report_what_they_do_not_mention() {
    let names = vec!["RIGG_ENV".to_string(), "AZURE_TENANT_ID".to_string()];
    let found = env_var_findings("docs/env.md", "Set `RIGG_ENV` to pick one.", &names);
    assert_eq!(found, vec!["docs/env.md: `AZURE_TENANT_ID` is read by the code but not documented"]);
    assert!(env_var_findings("p", "RIGG_ENV AZURE_TENANT_ID", &names).is_empty());
    assert_eq!(
        question_prefix_findings("docs/q.md", "nothing here"),
        vec!["docs/q.md: question id prefix `confirm.protected.` is not documented"]
    );
    assert!(question_prefix_findings("docs/q.md", "ids: confirm.protected.<env>").is_empty());
}
