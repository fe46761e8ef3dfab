use nausicaa::context::{
    canonical_directory, is_inside, ContextCompiler, ContextError, ContextInput,
    DirectoryRuleLoader, FoundRule, LayeredContextCompiler, PromptLayer, PromptSegment,
    ResolvedPath,
};
use nausicaa::context_fs::{
    compact_transcript, first_prose_line, frontmatter_value, read_skill, skill_place,
    FsContextCompiler, FsContextConfig, FsContextError, PathPart, SkillCatalog, SkillPlace,
};
use nausicaa::id::{CallId, ThreadId, TurnId};
use nausicaa::json::parse;
use nausicaa::protocol::{
    CanonicalAction, EffectKind, PreparedToolCall, RetrySafety, ToolCall, ToolReceipt,
    TranscriptMessage,
};

fn path(shown: &str) -> ResolvedPath {
    ResolvedPath {
        shown: shown.to_owned(),
        components: shown.split('/').filter(|c| !c.is_empty()).map(str::to_owned).collect(),
    }
}

fn rule(shown: &str, text: &str) -> FoundRule {
    FoundRule {
        shown: shown.to_owned(),
        resolved: Ok(path(shown)),
        text: Ok(text.to_owned()),
    }
}

/// Loads the rules of a tree of files.
fn load(
    files: &[(&str, &str)],
    root: &str,
    current: &str,
) -> Result<Vec<PromptSegment>, ContextError> {
    let loader = DirectoryRuleLoader::default();
    let mut rules: Vec<FoundRule> = Vec::new();
    for directory in loader.directories(&path(root), &path(current))? {
        let shown = format!("/{}", directory.join("/"));
        let candidates: Vec<String> =
            loader.file_names().iter().map(|name| format!("{shown}/{name}")).collect();
        let found: Vec<bool> =
            candidates.iter().map(|c| files.iter().any(|(file, _)| file == c)).collect();
        if let Some(chosen) = loader.select(&found) {
            let text = files.iter().find(|(file, _)| *file == candidates[chosen]).unwrap().1;
            rules.push(rule(&candidates[chosen], text));
        }
    }
    loader.load(&path(root), rules)
}

#[test]
fn directory_rules_load_root_to_leaf_with_override_precedence() {
    let files = [
        ("/r/AGENTS.md", "root rules"),
        ("/r/services/AGENTS.md", "ignored normal rules"),
        ("/r/services/AGENTS.override.md", "service override rules"),
        ("/r/services/api/AGENTS.md", "api rules"),
    ];
    let segments = load(&files, "/r", "/r/services/api").unwrap();

    assert_eq!(segments.len(), 3);
    assert!(segments.iter().all(|segment| segment.layer == PromptLayer::Rules));
    assert_eq!(segments[0].text, "root rules");
    assert_eq!(segments[1].text, "service override rules");
    assert_eq!(segments[2].text, "api rules");
}

#[test]
fn rules_outside_of_the_root_are_refused() {
    assert!(load(&[], "/r", "/elsewhere").is_err());
    let loader = DirectoryRuleLoader::default();
    let mut escaped = rule("/r/AGENTS.md", "x");
    escaped.resolved = Ok(path("/etc/AGENTS.md"));
    assert!(loader.load(&path("/r"), vec![escaped]).is_err());
    let mut unreadable = rule("/r/AGENTS.md", "x");
    unreadable.text = Err("denied".to_owned());
    assert!(loader.load(&path("/r"), vec![unreadable]).is_err());
    assert!(is_inside(&path("/r/a").components, &path("/r").components));
    assert!(!is_inside(&path("/ra").components, &path("/r").components));
    assert!(canonical_directory("x", Ok(path("/r")), false).is_err());
    assert!(canonical_directory("x", Ok(path("/r")), true).is_ok());
}

#[test]
fn loads_rule_hierarchy_and_selected_skill() {
    let files = [("/r/AGENTS.md", "root rule"), ("/r/src/AGENTS.md", "child rule")];
    let text = "---\nname: review\ndescription: Review changes\n---\n# Review\nRun tests.";
    let mut config = FsContextConfig::new("/r".to_owned(), "/r/src".to_owned());
    config.skill_roots.push("/r/skills".to_owned());
    config.selected_skills.insert("review".to_owned(), true);
    let compiler = FsContextCompiler::new(config);
    let catalog = SkillCatalog::new(vec!["/r/skills".to_owned()]);
    let skills = catalog.scan(vec![read_skill(
        text,
        "review",
        "/r/skills/review/SKILL.md".to_owned(),
    )]);
    assert_eq!(skills[0].summary, "Review changes");
    assert_eq!(compiler.selected(), vec!["review"]);
    let prompt = compiler.compile_prompt(
        load(&files, "/r", "/r/src"),
        &skills,
        &vec![Ok(text.to_owned())],
    );
    let compiled = compiler.compile(prompt, Vec::new(), &Vec::new()).unwrap();

    assert_eq!(
        compiled
            .prompt
            .iter()
            .filter(|segment| segment.layer == PromptLayer::Rules)
            .count(),
        2
    );
    assert!(compiled.prompt.iter().any(|segment| {
        segment.name == "skill:review" && segment.text.contains("Run tests")
    }));
}

#[test]
fn unknown_skills_are_refused() {
    let mut config = FsContextConfig::new("/r".to_owned(), "/r".to_owned());
    config.selected_skills.insert("missing".to_owned(), true);
    let compiler = FsContextCompiler::new(config);
    let prompt =
        compiler.compile_prompt(Ok(vec![]), &vec![], &vec![Err("unused".to_owned())]);
    assert_eq!(prompt.unwrap_err(), FsContextError::UnknownSkill("missing".to_owned()));
}

#[test]
fn compaction_keeps_assistant_calls_with_receipts() {
    let call = ToolCall::new(
        CallId::from_string("call".to_owned()),
        "x".to_owned(),
        parse("{}").unwrap(),
    );
    let prepared = PreparedToolCall {
        call_id: call.id.clone(),
        action: CanonicalAction::new(
            "x".to_owned(),
            parse("{}").unwrap(),
            EffectKind::ReadOnly,
            RetrySafety::Safe,
        ),
    };
    let messages = vec![
        TranscriptMessage::User { content: "old".to_owned() },
        TranscriptMessage::Assistant { content: String::new(), tool_calls: vec![call] },
        TranscriptMessage::Tool {
            receipt: ToolReceipt::succeeded(prepared, parse("{}").unwrap()),
        },
    ];
    let (retained, omitted) = compact_transcript(messages, 1);
    assert_eq!(omitted, 1);
    assert_eq!(retained.len(), 2);
}

#[test]
fn skills_describe_themselves() {
    let text = "---\nname: \"x\"\n---\n\n# Title\n\nFirst line.\nSecond.";
    assert_eq!(frontmatter_value(text, "name").unwrap(), "x");
    assert!(frontmatter_value(text, "description").is_none());
    assert!(frontmatter_value("name: x", "name").is_none());
    assert_eq!(first_prose_line(text).unwrap(), "First line.");
    assert!(first_prose_line("# Only\n").is_none());
    let skill = read_skill("", "fallback", "p".to_owned());
    assert_eq!(skill.name, "fallback");
    assert_eq!(skill.summary, "No description provided");
}

fn input(content: &str) -> ContextInput {
    ContextInput {
        thread_id: ThreadId::from_string("thread".to_owned()),
        turn_id: TurnId::from_string("turn".to_owned()),
        transcript: vec![TranscriptMessage::User { content: content.to_owned() }],
    }
}

#[test]
fn layered_prompts_keep_their_order_and_are_bounded() {
    let segment = |layer: PromptLayer, name: &str| {
        PromptSegment::new(layer, name.to_owned(), "text".to_owned())
    };
    let compiler = LayeredContextCompiler::new()
        .with_segment(segment(PromptLayer::Volatile, "last"))
        .with_segments(vec![
            segment(PromptLayer::Stable, "first"),
            segment(PromptLayer::Rules, "second"),
        ]);
    let compiled = compiler.compile(input("hi")).unwrap();
    let names: Vec<&str> = compiled.prompt.iter().map(|s| s.name.as_str()).collect();
    assert_eq!(names, vec!["last", "first", "second"]);
    assert_eq!(compiled.messages.len(), 1);
    let small = compiler.with_max_characters(12);
    match small.compile(input("hi")) {
        Err(ContextError::TooLarge { actual, maximum }) => {
            assert_eq!(maximum, 12);
            assert!(actual > 12);
        }
        other => panic!("{other:?}"),
    }
    assert_eq!(
        ContextError::TooLarge { actual: 3, maximum: 2 }.to_text(),
        "context exceeds the configured character budget (3 > 2)"
    );
}

fn part(shown: &str, readable: bool) -> PathPart {
    PathPart { shown: shown.to_owned(), readable }
}

#[test]
fn skills_are_directories_and_markdown_files() {
    let root = Some(part("skills", true));
    let inside = |fallback: &str| {
        Some(SkillPlace { inside: Some("SKILL.md".to_owned()), fallback: fallback.to_owned() })
    };
    let itself =
        |fallback: &str| Some(SkillPlace { inside: None, fallback: fallback.to_owned() });
    assert_eq!(skill_place(&root, &part("review", true), true), inside("review"));
    assert_eq!(skill_place(&root, &part("review.md", true), true), inside("review.md"));
    assert_eq!(skill_place(&root, &part("\u{fffd}", false), true), inside("skill"));
    assert_eq!(skill_place(&root, &part("review.md", true), false), itself("skills"));
    assert_eq!(skill_place(&None, &part("a.review.md", true), false), itself("a.review"));
    assert_eq!(skill_place(&None, &part("\u{fffd}.md", false), false), itself("skill"));
    let odd = Some(part("\u{fffd}", false));
    assert_eq!(skill_place(&odd, &part("review.md", true), false), itself("skill"));
    for name in ["review", "review.txt", ".md", "md", "review.md.bak", "review.MD", "review.md "] {
        assert_eq!(skill_place(&root, &part(name, true), false), None, "{name}");
    }
    // The extension is what the standard library takes for one.
    for name in ["a.md", ".md", "..md", "a.b.md", "md", "a.", ".a.md"] {
        assert_eq!(
            skill_place(&None, &part(name, true), false).map(|place| place.fallback),
            std::path::Path::new(name)
                .extension()
                .filter(|extension| extension.to_str() == Some("md"))
                .and_then(|_| std::path::Path::new(name).file_stem())
                .map(|stem| stem.to_str().unwrap().to_owned()),
            "{name}"
        );
    }
}

#[test]
fn copies_of_compilers_compile_the_same() {
    let mut config = FsContextConfig::new("/r".to_owned(), "/r/src".to_owned());
    config.selected_skills.insert("review".to_owned(), true);
    config.max_characters = Some(9);
    let compiler = FsContextCompiler::new(config);
    let copy = compiler.clone();
    assert_eq!(copy.selected(), compiler.selected());
    assert_eq!(copy.config.max_characters, Some(9));
    assert_eq!(copy.rule_loader.file_names(), compiler.rule_loader.file_names());
    let catalog = SkillCatalog::new(vec!["/r/skills".to_owned()]);
    assert_eq!(catalog.clone().roots(), catalog.roots());
}
