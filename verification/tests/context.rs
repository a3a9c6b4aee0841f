use llm_loop::context::agents::{agents_instructions, global_agents_path, project_agents_paths};
use llm_loop::context::initial::{
    cron_context, initial_context, render_initial_context_for_log, InitialContext,
};
use llm_loop::context::mems::{
    keep_within, memory_document, memory_instructions, memory_key_from_path, strip_frontmatter,
    user_memory_dir, MemoryScope,
};
use llm_loop::context::scope::{memory_user_key, user_skill_scope};
use llm_loop::context::skills::{
    parse_frontmatter, skill_roots, skills_instructions, SkillMetadata,
};
use llm_loop::context::system::{limited_text, prompt_text};
use llm_loop::home::AppPaths;
use llm_loop::message::MessageSource;
use llm_loop::path::{are_same, comes_before, file_name_of, lineage_of};

fn source(user_id: &str) -> MessageSource {
    MessageSource {
        channel_name: "main".to_string(),
        platform: "telegram".to_string(),
        chat_id: "chat1".to_string(),
        chat_type: "group".to_string(),
        user_id: Some(user_id.to_string()),
        thread_id: None,
    }
}

#[test]
fn agents_paths_are_ordered_from_root_to_cwd() {
    let project = "/tmp/agents-order/repo/AGENTS.md".to_string();
    let child = "/tmp/agents-order/repo/a/b/AGENTS.md".to_string();

    let paths = project_agents_paths(
        "/tmp/agents-order/repo/a/b",
        &vec![child.clone(), project.clone()],
    );
    let project_index = paths.iter().position(|path| path == &project).unwrap();
    let child_index = paths.iter().position(|path| path == &child).unwrap();

    assert!(project_index < child_index);
}

#[test]
fn agents_instructions_include_global_and_workdir_docs() {
    let text = agents_instructions(
        "/work/pkg",
        &vec!["global doc".to_string(), "cwd doc".to_string()],
    )
    .unwrap();

    assert!(text.contains("# AGENTS.md instructions for"));
    assert!(text.contains("<INSTRUCTIONS>"));
    assert!(text.contains("global doc"));
    assert!(text.contains("cwd doc"));
    assert!(text.find("global doc") < text.find("cwd doc"));
    assert!(agents_instructions("/work", &vec![]).is_none());
    let paths = AppPaths::from_home("/h");
    assert_eq!(global_agents_path(&paths), "/h/.codex/AGENTS.md");
}

#[test]
fn memory_key_allows_only_ascii_alphanumeric_md_files() {
    assert_eq!(
        memory_key_from_path("Alpha123.md"),
        Some("Alpha123".to_string())
    );
    assert_eq!(memory_key_from_path("alpha_beta.md"), None);
    assert_eq!(memory_key_from_path("alpha-beta.md"), None);
    assert_eq!(memory_key_from_path("alpha.txt"), None);
    assert_eq!(memory_key_from_path(".md"), None);
    assert_eq!(memory_key_from_path("/x/a.md"), Some("a".to_string()));
}

#[test]
fn memory_user_key_normalizes_sender_id() {
    assert_eq!(
        memory_user_key(&source("ou_test.1")),
        Some("ou_test_1".to_string())
    );
    assert_eq!(memory_user_key(&source(" ")), None);
    assert_eq!(
        user_skill_scope(&source("u/1")),
        Some("main__u_1".to_string())
    );
}

#[test]
fn strip_frontmatter_removes_metadata_block() {
    let raw = "---\nuser: u1\nupdated_at: 2026-06-20T20:00:00+08:00\n---\n\nbody";

    assert_eq!(strip_frontmatter(raw).trim(), "body");
    assert_eq!(strip_frontmatter("---\nopen"), "---\nopen");
    assert_eq!(strip_frontmatter("plain"), "plain");
}

#[test]
fn load_memory_instructions_reads_valid_memory_bodies() {
    let paths = AppPaths::from_home("/home");
    let source = source("ou_test.1");
    let found = vec![
        memory_document(
            MemoryScope::User,
            "PersonalA".to_string(),
            "---\nuser: ou_test.1\nupdated_at: now\n---\n\npersonal memory",
        ),
        memory_document(
            MemoryScope::Global,
            "ProjectA".to_string(),
            "---\nuser: user1\nupdated_at: now\n---\n\nremember this",
        ),
        memory_document(MemoryScope::Global, "Empty".to_string(), " "),
    ];
    assert_eq!(memory_key_from_path("/home/.llm-loop/mems/bad-key.md"), None);
    let key = memory_user_key(&source).unwrap();
    assert_eq!(
        user_memory_dir(&paths, &key),
        "/home/.llm-loop/mems/__user/ou_test_1"
    );

    let text = memory_instructions(&paths, &source, found);

    assert!(text.contains("- default_scope: user"));
    assert!(text.contains("- user_id: ou_test.1"));
    assert!(text.contains("### Global:ProjectA"));
    assert!(text.contains("### User:PersonalA"));
    assert!(text.contains("remember this"));
    assert!(text.contains("personal memory"));
    assert!(!text.contains("user: user1"));
    assert!(!text.contains("Empty"));
    assert!(text.find("Global:ProjectA") < text.find("User:PersonalA"));
}

#[test]
fn memories_are_kept_while_they_fit() {
    let list = vec!["aaaa".to_string(), "bb".to_string(), "c".to_string()];
    assert_eq!(keep_within(list, 5), vec!["aaaa".to_string()]);
    let list = vec!["aaaa".to_string(), "b".to_string()];
    assert_eq!(keep_within(list.clone(), 5), list);
}

#[test]
fn skill_roots_include_codex_and_parent_chain() {
    let paths = AppPaths::from_home("/tmp/skill-roots/home");
    let roots = skill_roots(&paths, "/tmp/skill-roots/work/pkg", &source("ou_test"));

    assert!(roots.contains(&paths.skills_dir));
    assert!(roots.contains(&format!("{}/skills", paths.codex_home)));
    assert!(roots.contains(&"/tmp/skill-roots/work/.agents/skills".to_string()));
    assert!(roots.contains(&"/tmp/skill-roots/work/pkg/.agents/skills".to_string()));
    assert!(roots.contains(&format!("{}/__user/main__ou_test", paths.skills_dir)));
}

#[test]
fn skill_frontmatter_parses_name_and_description() {
    let raw = "---\nname: demo\ndescription: \"做一件事\"\n---\n正文";

    assert_eq!(
        parse_frontmatter(raw),
        Some(("demo".to_string(), "做一件事".to_string()))
    );
    assert_eq!(parse_frontmatter("name: demo"), None);
    assert_eq!(parse_frontmatter("---\ndescription: d\n---"), None);
    assert_eq!(
        parse_frontmatter("---\nname: 'a'\nname: b\n"),
        Some(("b".to_string(), String::new()))
    );
}

fn skill(name: &str, description: &str, path: &str) -> SkillMetadata {
    SkillMetadata {
        name: name.to_string(),
        description: description.to_string(),
        path: path.to_string(),
    }
}

#[test]
fn skills_instructions_render_available_skill_metadata() {
    let text = skills_instructions(vec![
        skill("local_skill", "本地技能", "/w/.agents/skills/local/SKILL.md"),
        skill("global_skill", "全局技能", "/h/skills/global/SKILL.md"),
        skill("global_skill", "全局技能", "/h//skills/global/SKILL.md"),
    ])
    .unwrap();

    assert!(text.contains("## Skills"));
    assert!(text.contains("global_skill: 全局技能"));
    assert!(text.contains("local_skill: 本地技能"));
    assert!(text.contains("Skill bodies live on disk at the listed paths"));
    assert!(!text.contains("~/.llm-loop/skills/<skill>/SKILL.md"));
    assert!(text.contains("open and read its `SKILL.md` completely"));
    assert!(text.find("global_skill") < text.find("local_skill"));
    assert_eq!(text.matches("global_skill").count(), 1);
    assert!(skills_instructions(vec![]).is_none());
}

#[test]
fn render_initial_context_for_log_includes_instruction_content() {
    let context = InitialContext {
        instructions: "alpha\n\nbeta".to_string(),
    };

    let rendered = render_initial_context_for_log(&context);

    assert!(rendered.contains("----- instructions -----"));
    assert!(rendered.contains("alpha"));
    assert!(rendered.contains("beta"));
}

#[test]
fn render_initial_context_for_log_marks_empty_context() {
    let context = InitialContext {
        instructions: String::new(),
    };

    assert_eq!(render_initial_context_for_log(&context), "<empty>");
}

#[test]
fn instructions_are_put_together() {
    let context = initial_context(
        Some(" system ".to_string()),
        None,
        Some("notes".to_string()),
        Some(" ".to_string()),
    );
    assert_eq!(
        context.instructions,
        "system\n\n## Memories\nnotes\n\n## Available Skills"
    );
    assert_eq!(cron_context(None).instructions, "");
    assert_eq!(cron_context(Some("p".to_string())).instructions, "p");
}

#[test]
fn texts_are_read_from_bytes() {
    assert_eq!(prompt_text("你好".as_bytes()).as_deref(), Some("你好"));
    assert_eq!(prompt_text(b" \n"), None);
    assert_eq!(limited_text(b"abcdef", 3).as_deref(), Some("abc"));
    assert_eq!(
        limited_text("é!".as_bytes(), 1).as_deref(),
        Some("\u{fffd}")
    );
}

#[test]
fn paths_have_names_and_parents() {
    assert_eq!(lineage_of("/a/b"), vec!["/", "/a", "/a/b"]);
    assert_eq!(lineage_of("a//b/"), vec!["", "a", "a//b/"]);
    assert_eq!(lineage_of("/a/./b"), vec!["/", "/a", "/a/./b"]);
    assert_eq!(lineage_of("/"), vec!["/"]);
    assert_eq!(file_name_of("/a/b.txt/").as_deref(), Some("b.txt"));
    assert_eq!(file_name_of("/a/..").as_deref(), None);
    assert!(are_same("/a//b", "/a/b/"));
    assert!(!are_same("/a/b", "a/b"));
    assert!(comes_before("/a/b", "/a-b"));
    assert!(comes_before("/a", "/a/b"));
    assert!(!comes_before("/a/b", "/a/b"));
}
