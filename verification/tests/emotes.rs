use commit_assist::emotes::{
    add_emote_to_commit_message, analyze_context, analyze_keywords, categorize_commit_message,
    categorize_lowered, create_keyword_patterns, is_emote, parse_conventional_commit,
    process_commit_message, starts_with_emote, CommitCategory,
};

fn chars(s: &str) -> Vec<char> {
    s.chars().collect()
}

#[test]
fn test_conventional_commit_parsing() {
    assert_eq!(categorize_commit_message("feat: add new user authentication"), CommitCategory::Feat);
    assert_eq!(categorize_commit_message("fix: resolve login bug"), CommitCategory::Fix);
    assert_eq!(categorize_commit_message("docs: update README"), CommitCategory::Docs);
    assert_eq!(categorize_commit_message("style: format code"), CommitCategory::Style);
    assert_eq!(categorize_commit_message("refactor: simplify auth logic"), CommitCategory::Refactor);
    assert_eq!(categorize_commit_message("test: add unit tests"), CommitCategory::Test);
    assert_eq!(categorize_commit_message("perf: optimize database queries"), CommitCategory::Perf);
    assert_eq!(categorize_commit_message("build: update webpack config"), CommitCategory::Build);
    assert_eq!(categorize_commit_message("ci: add GitHub Actions"), CommitCategory::Ci);
    assert_eq!(categorize_commit_message("chore: update dependencies"), CommitCategory::Chore);
}

#[test]
fn test_conventional_commit_with_scope() {
    assert_eq!(categorize_commit_message("feat(auth): add OAuth support"), CommitCategory::Feat);
    assert_eq!(categorize_commit_message("fix(ui): resolve button styling"), CommitCategory::Fix);
    assert_eq!(
        categorize_commit_message("docs(api): update endpoint documentation"),
        CommitCategory::Docs
    );
}

#[test]
fn test_keyword_analysis() {
    assert_eq!(categorize_commit_message("Add new feature for user management"), CommitCategory::Feat);
    assert_eq!(categorize_commit_message("Fix bug in authentication system"), CommitCategory::Fix);
    assert_eq!(categorize_commit_message("Update documentation for API"), CommitCategory::Docs);
    assert_eq!(
        categorize_commit_message("Optimize performance of database queries"),
        CommitCategory::Perf
    );
    assert_eq!(categorize_commit_message("Refactor user service"), CommitCategory::Refactor);
}

#[test]
fn test_context_analysis() {
    assert_eq!(
        categorize_commit_message("Update README.md with installation instructions"),
        CommitCategory::Docs
    );
    assert_eq!(categorize_commit_message("Bump package.json version"), CommitCategory::Deps);
    assert_eq!(categorize_commit_message("Add .github/workflows/ci.yml"), CommitCategory::Ci);
    assert_eq!(categorize_commit_message("Update config.yaml settings"), CommitCategory::Config);
    assert_eq!(categorize_commit_message("Add test/user.spec.js"), CommitCategory::Test);
}

#[test]
fn test_emote_addition() {
    assert_eq!(
        add_emote_to_commit_message("feat: add new feature", CommitCategory::Feat),
        "✨ feat: add new feature"
    );
    assert_eq!(
        add_emote_to_commit_message("fix: resolve bug", CommitCategory::Fix),
        "🐛 fix: resolve bug"
    );
    assert_eq!(
        add_emote_to_commit_message("docs: update README", CommitCategory::Docs),
        "📚 docs: update README"
    );
}

#[test]
fn test_emote_already_present() {
    assert_eq!(
        add_emote_to_commit_message("✨ feat: add new feature", CommitCategory::Feat),
        "✨ feat: add new feature"
    );
    assert_eq!(
        add_emote_to_commit_message("🐛 fix: resolve bug", CommitCategory::Fix),
        "🐛 fix: resolve bug"
    );
}

#[test]
fn test_process_commit_message() {
    assert_eq!(
        process_commit_message("feat: add user authentication"),
        "✨ feat: add user authentication"
    );
    assert_eq!(
        process_commit_message("Fix critical security vulnerability"),
        "🔒 Fix critical security vulnerability"
    );
    assert_eq!(
        process_commit_message("Update package dependencies"),
        "📦 Update package dependencies"
    );
}

#[test]
fn test_unknown_category() {
    assert_eq!(categorize_commit_message("Random commit message"), CommitCategory::Unknown);
    assert_eq!(process_commit_message("Random commit message"), "❓ Random commit message");
}

#[test]
fn test_emote_detection() {
    assert!(starts_with_emote("✨ some message"));
    assert!(starts_with_emote("🐛 bug fix"));
    assert!(starts_with_emote("📚 documentation"));
    assert!(!starts_with_emote("feat: add feature"));
    assert!(!starts_with_emote("regular message"));
    assert!(!starts_with_emote(""));
}

#[test]
fn test_category_emotes() {
    assert_eq!(CommitCategory::Fix.emote(), "🐛");
    assert_eq!(CommitCategory::Feat.emote(), "✨");
    assert_eq!(CommitCategory::Docs.emote(), "📚");
    assert_eq!(CommitCategory::Style.emote(), "💄");
    assert_eq!(CommitCategory::Refactor.emote(), "♻️");
    assert_eq!(CommitCategory::Test.emote(), "🧪");
    assert_eq!(CommitCategory::Perf.emote(), "⚡");
    assert_eq!(CommitCategory::Build.emote(), "🔧");
    assert_eq!(CommitCategory::Ci.emote(), "👷");
    assert_eq!(CommitCategory::Chore.emote(), "🧹");
    assert_eq!(CommitCategory::Deploy.emote(), "🚀");
    assert_eq!(CommitCategory::Security.emote(), "🔒");
    assert_eq!(CommitCategory::Deps.emote(), "📦");
    assert_eq!(CommitCategory::Unknown.emote(), "❓");
}

#[test]
fn test_multiline_commit_messages() {
    let multiline_message = "feat: add user authentication\n\nImplement OAuth2 support with Google and GitHub providers.\nAdd secure token storage and refresh mechanism.";
    assert_eq!(categorize_commit_message(multiline_message), CommitCategory::Feat);

    let processed = process_commit_message(multiline_message);
    assert!(processed.starts_with("✨ feat: add user authentication"));
}

#[test]
fn test_case_insensitive_matching() {
    assert_eq!(categorize_commit_message("FEAT: ADD NEW FEATURE"), CommitCategory::Feat);
    assert_eq!(categorize_commit_message("Fix: Resolve Bug"), CommitCategory::Fix);
    assert_eq!(categorize_commit_message("Add New Feature"), CommitCategory::Feat);
}

#[test]
fn remaining_category_emotes_and_descriptions() {
    assert_eq!(CommitCategory::Revert.emote(), "⏪");
    assert_eq!(CommitCategory::Config.emote(), "⚙️");
    assert_eq!(CommitCategory::Init.emote(), "🎉");
    assert_eq!(CommitCategory::Wip.emote(), "🚧");
    assert_eq!(CommitCategory::Hotfix.emote(), "🚨");
    assert_eq!(CommitCategory::Release.emote(), "🏷️");
    assert_eq!(CommitCategory::Merge.emote(), "🔀");
    assert_eq!(CommitCategory::Fix.description(), "Bug fixes");
    assert_eq!(CommitCategory::Feat.description(), "New features");
    assert_eq!(CommitCategory::Chore.description(), "Maintenance tasks");
    assert_eq!(CommitCategory::Docs.description(), "Documentation");
    assert_eq!(CommitCategory::Style.description(), "Formatting/styling");
    assert_eq!(CommitCategory::Refactor.description(), "Code restructuring");
    assert_eq!(CommitCategory::Test.description(), "Testing");
    assert_eq!(CommitCategory::Perf.description(), "Performance improvements");
    assert_eq!(CommitCategory::Build.description(), "Build system");
    assert_eq!(CommitCategory::Ci.description(), "Continuous integration");
    assert_eq!(CommitCategory::Deploy.description(), "Deployment");
    assert_eq!(CommitCategory::Security.description(), "Security fixes");
    assert_eq!(CommitCategory::Deps.description(), "Dependency updates");
    assert_eq!(CommitCategory::Revert.description(), "Reverting changes");
    assert_eq!(CommitCategory::Config.description(), "Configuration changes");
    assert_eq!(CommitCategory::Init.description(), "Initial commit");
    assert_eq!(CommitCategory::Wip.description(), "Work in progress");
    assert_eq!(CommitCategory::Hotfix.description(), "Critical hotfix");
    assert_eq!(CommitCategory::Release.description(), "Release/version tags");
    assert_eq!(CommitCategory::Merge.description(), "Merge commits");
    assert_eq!(CommitCategory::Unknown.description(), "Uncategorized");
}

#[test]
fn canonical_prefixes_classify_as_their_category() {
    assert_eq!(categorize_commit_message("feat: x"), CommitCategory::Feat);
    assert_eq!(categorize_commit_message("fix(auth): y"), CommitCategory::Fix);
    assert_eq!(categorize_commit_message("docs: z"), CommitCategory::Docs);
}

#[test]
fn every_prefix_word_is_known() {
    let cases = vec![
        ("feature: a", CommitCategory::Feat),
        ("bugfix: a", CommitCategory::Fix),
        ("bug: a", CommitCategory::Fix),
        ("doc: a", CommitCategory::Docs),
        ("documentation: a", CommitCategory::Docs),
        ("refact: a", CommitCategory::Refactor),
        ("tests: a", CommitCategory::Test),
        ("testing: a", CommitCategory::Test),
        ("performance: a", CommitCategory::Perf),
        ("revert: a", CommitCategory::Revert),
        ("deploy: a", CommitCategory::Deploy),
        ("deployment: a", CommitCategory::Deploy),
        ("security: a", CommitCategory::Security),
        ("sec: a", CommitCategory::Security),
        ("deps: a", CommitCategory::Deps),
        ("dependencies: a", CommitCategory::Deps),
        ("dependency: a", CommitCategory::Deps),
        ("config: a", CommitCategory::Config),
        ("configuration: a", CommitCategory::Config),
        ("init: a", CommitCategory::Init),
        ("initial: a", CommitCategory::Init),
        ("wip: a", CommitCategory::Wip),
        ("hotfix: a", CommitCategory::Hotfix),
        ("release: a", CommitCategory::Release),
        ("version: a", CommitCategory::Release),
        ("merge: a", CommitCategory::Merge),
    ];
    for (message, category) in cases {
        assert_eq!(categorize_commit_message(message), category);
    }
}

#[test]
fn earlier_prefix_word_wins() {
    // "fix(" stands inside "bugfix(" and inside "hotfix(", and is tried first.
    assert_eq!(parse_conventional_commit(&chars("bugfix(core): a")), Some(CommitCategory::Fix));
    assert_eq!(parse_conventional_commit(&chars("hotfix(core): a")), Some(CommitCategory::Fix));
    assert_eq!(parse_conventional_commit(&chars("hotfix: a")), Some(CommitCategory::Hotfix));
    // "docs" stands before "doc" in the table, and both stand for the same category.
    assert_eq!(parse_conventional_commit(&chars("docs(api): a")), Some(CommitCategory::Docs));
}

#[test]
fn scoped_form_needs_both_brackets() {
    assert_eq!(parse_conventional_commit(&chars("feat(auth) add")), None);
    assert_eq!(parse_conventional_commit(&chars("feat auth): add")), None);
    assert_eq!(parse_conventional_commit(&chars("see feat(x) and so on): b")), Some(CommitCategory::Feat));
    assert_eq!(parse_conventional_commit(&chars("")), None);
    assert_eq!(parse_conventional_commit(&chars("feat")), None);
}

#[test]
fn only_the_first_line_is_parsed_for_a_prefix() {
    assert_eq!(categorize_commit_message("something\nfeat: x"), CommitCategory::Unknown);
    assert_eq!(categorize_commit_message("fix: a\r\nfeat: b"), CommitCategory::Fix);
}

#[test]
fn longest_keyword_wins() {
    assert_eq!(
        categorize_commit_message("Fix critical security vulnerability"),
        CommitCategory::Security
    );
    assert_eq!(analyze_keywords(&chars("fix critical security vulnerability")), Some(CommitCategory::Security));
    assert_eq!(analyze_keywords(&chars("a bug")), Some(CommitCategory::Fix));
    assert_eq!(analyze_keywords(&chars("zzz")), None);
    assert_eq!(analyze_keywords(&chars("")), None);
}

#[test]
fn equal_keywords_go_to_the_one_declared_first() {
    // "cleanup" is a keyword of Style and of Chore; Style is declared first.
    assert_eq!(analyze_keywords(&chars("cleanup")), Some(CommitCategory::Style));
    // "yarn" is a keyword of Build and of Deps; Build is declared first.
    assert_eq!(analyze_keywords(&chars("yarn")), Some(CommitCategory::Build));
    // "bug" and "add" have three letters each; "bug" belongs to Fix, declared first.
    assert_eq!(analyze_keywords(&chars("add bug")), Some(CommitCategory::Fix));
    // A longer keyword of a later category beats them.
    assert_eq!(analyze_keywords(&chars("add bug docs")), Some(CommitCategory::Docs));
}

#[test]
fn keyword_table_is_in_declaration_order() {
    let table = create_keyword_patterns();
    let order: Vec<CommitCategory> = table.iter().map(|entry| entry.0).collect();
    assert_eq!(
        order,
        vec![
            CommitCategory::Fix,
            CommitCategory::Feat,
            CommitCategory::Docs,
            CommitCategory::Style,
            CommitCategory::Refactor,
            CommitCategory::Test,
            CommitCategory::Perf,
            CommitCategory::Build,
            CommitCategory::Ci,
            CommitCategory::Chore,
            CommitCategory::Security,
            CommitCategory::Deps,
            CommitCategory::Config,
            CommitCategory::Deploy,
            CommitCategory::Init,
            CommitCategory::Wip,
            CommitCategory::Merge,
            CommitCategory::Revert,
        ]
    );
    assert_eq!(table[0].1.len(), 17);
    assert_eq!(table[0].1[0], "fix");
    assert_eq!(table[10].1[0], "security vulnerability");
    assert_eq!(table[17].1, vec!["revert", "rollback", "undo", "back out", "reverse"]);
}

#[test]
fn context_rules_in_order() {
    assert_eq!(analyze_context(&chars("notes.md")), Some(CommitCategory::Docs));
    assert_eq!(analyze_context(&chars("see doc/ here")), Some(CommitCategory::Docs));
    assert_eq!(analyze_context(&chars("gemfile")), Some(CommitCategory::Deps));
    assert_eq!(analyze_context(&chars("cargo.toml")), Some(CommitCategory::Deps));
    assert_eq!(analyze_context(&chars("requirements.txt")), Some(CommitCategory::Deps));
    assert_eq!(analyze_context(&chars("a.yml")), Some(CommitCategory::Config));
    assert_eq!(analyze_context(&chars(".env")), Some(CommitCategory::Config));
    assert_eq!(analyze_context(&chars("dockerfile")), Some(CommitCategory::Ci));
    assert_eq!(analyze_context(&chars("docker-compose")), Some(CommitCategory::Ci));
    assert_eq!(analyze_context(&chars(".github/workflows")), Some(CommitCategory::Ci));
    assert_eq!(analyze_context(&chars("x/ci/y")), Some(CommitCategory::Ci));
    assert_eq!(analyze_context(&chars("spec/")), Some(CommitCategory::Test));
    assert_eq!(analyze_context(&chars("__tests__")), Some(CommitCategory::Test));
    assert_eq!(analyze_context(&chars("a.test.js")), Some(CommitCategory::Test));
    assert_eq!(analyze_context(&chars("nothing here")), None);
    // The documentation rule stands before the configuration rule.
    assert_eq!(analyze_context(&chars("a.md and b.yml")), Some(CommitCategory::Docs));
    // The package rule stands before the configuration rule.
    assert_eq!(analyze_context(&chars("package.json and a.yaml")), Some(CommitCategory::Deps));
}

#[test]
fn context_decides_where_no_keyword_occurs() {
    assert_eq!(categorize_lowered("", "x.md"), CommitCategory::Docs);
    assert_eq!(categorize_lowered("", "a/.github/workflows/b"), CommitCategory::Ci);
    assert_eq!(categorize_lowered("", "x"), CommitCategory::Unknown);
    assert_eq!(categorize_lowered("", ""), CommitCategory::Unknown);
}

#[test]
fn categorize_lowered_takes_its_two_texts_as_they_are() {
    // Upper case is not lowered here: nothing matches.
    assert_eq!(categorize_lowered("FEAT: X", "FEAT: X"), CommitCategory::Unknown);
    assert_eq!(categorize_lowered("feat: x", "fix"), CommitCategory::Feat);
    assert_eq!(categorize_lowered("nothing", "a fix"), CommitCategory::Fix);
}

#[test]
fn case_plays_no_part() {
    assert_eq!(
        categorize_commit_message("FEAT: ADD NEW FEATURE"),
        categorize_commit_message("feat: add new feature")
    );
    assert_eq!(
        categorize_commit_message("UPDATE CONFIG.YAML SETTINGS"),
        categorize_commit_message("update config.yaml settings")
    );
    assert_eq!(categorize_commit_message("ROLLBACK"), CommitCategory::Revert);
}

#[test]
fn emote_ranges() {
    assert!(is_emote('\u{1F300}'));
    assert!(is_emote('\u{1F9FF}'));
    assert!(!is_emote('\u{1FA00}'));
    assert!(is_emote('\u{2600}'));
    assert!(is_emote('\u{26FF}'));
    assert!(is_emote('\u{2700}'));
    assert!(is_emote('\u{27BF}'));
    assert!(!is_emote('\u{27C0}'));
    assert!(!is_emote('\u{25FF}'));
    assert!(is_emote('\u{1F1E0}'));
    assert!(is_emote('\u{1F1FF}'));
    assert!(!is_emote('\u{1F1DF}'));
    assert!(!is_emote('a'));
    // The marker of Revert lies outside every range.
    assert!(!is_emote('⏪'));
    assert!(!starts_with_emote("⏪ revert"));
}

#[test]
fn decorate_trims() {
    assert_eq!(add_emote_to_commit_message("  fix: a \n", CommitCategory::Fix), "🐛 fix: a");
    assert_eq!(add_emote_to_commit_message("\t✨ done  ", CommitCategory::Fix), "✨ done");
    assert_eq!(add_emote_to_commit_message("", CommitCategory::Fix), "🐛 ");
    assert_eq!(add_emote_to_commit_message(" \u{3000}\u{00A0} ", CommitCategory::Docs), "📚 ");
    assert_eq!(add_emote_to_commit_message("x", CommitCategory::Config), "⚙️ x");
}

#[test]
fn decorate_is_idempotent() {
    let categories = vec![
        CommitCategory::Fix,
        CommitCategory::Feat,
        CommitCategory::Refactor,
        CommitCategory::Release,
        CommitCategory::Unknown,
    ];
    for category in categories {
        for message in vec!["feat: add x", "  spaced out  ", "✨ marked", "a\nb"] {
            let once = add_emote_to_commit_message(message, category);
            let twice = add_emote_to_commit_message(&once, category);
            assert_eq!(twice, once);
        }
    }
    // A message that begins with a marker stays as it is under Revert too.
    let once = add_emote_to_commit_message("✨ marked", CommitCategory::Revert);
    assert_eq!(add_emote_to_commit_message(&once, CommitCategory::Revert), once);
}

#[test]
fn decorate_twice_differs_for_revert_and_for_blank_messages() {
    let once = add_emote_to_commit_message("undo it", CommitCategory::Revert);
    assert_eq!(once, "⏪ undo it");
    assert_eq!(add_emote_to_commit_message(&once, CommitCategory::Revert), "⏪ ⏪ undo it");
    let blank = add_emote_to_commit_message("   ", CommitCategory::Fix);
    assert_eq!(blank, "🐛 ");
    assert_eq!(add_emote_to_commit_message(&blank, CommitCategory::Fix), "🐛");
}

#[test]
fn process_examples() {
    assert_eq!(process_commit_message("feat: add x"), "✨ feat: add x");
    assert_eq!(process_commit_message("  feat: add x  "), "✨ feat: add x");
    assert_eq!(process_commit_message("🎉 anything"), "🎉 anything");
    assert_eq!(process_commit_message(""), "❓ ");
}
