//! Commit categories and their markers.
//!
//! A commit message is classified by three rules tried in turn: a structured
//! prefix on its first line, the longest keyword that occurs in it, and a hint
//! from a path or file extension it mentions. The category's marker is then put
//! in front of the message, unless the message already begins with one.
use crate::text::{
    append, chars_of, contains, first_line, has_prefix, has_substring, has_text, is_trimmed,
    is_whitespace, lemma_trim_is_trimmed, lemma_trim_of_trimmed, lowercase, lowercase_of,
    split_lines, starts_with, string_of, trim, trim_end, trim_start, trimmed,
};
use vstd::prelude::*;

verus! {

/// What a commit is about.
#[derive(Debug, Clone, Copy, PartialEq, Eq, Hash, Structural)]
pub enum CommitCategory {
    Fix,
    Feat,
    Chore,
    Docs,
    Style,
    Refactor,
    Test,
    Perf,
    Build,
    Ci,
    Deploy,
    Security,
    Deps,
    Revert,
    Config,
    Init,
    Wip,
    Hotfix,
    Release,
    Merge,
    Unknown,
}

impl CommitCategory {
    /// The marker of the category.
    pub open spec fn marker(self) -> Seq<char> {
        match self {
            CommitCategory::Fix => "🐛"@,
            CommitCategory::Feat => "✨"@,
            CommitCategory::Chore => "🧹"@,
            CommitCategory::Docs => "📚"@,
            CommitCategory::Style => "💄"@,
            CommitCategory::Refactor => "♻️"@,
            CommitCategory::Test => "🧪"@,
            CommitCategory::Perf => "⚡"@,
            CommitCategory::Build => "🔧"@,
            CommitCategory::Ci => "👷"@,
            CommitCategory::Deploy => "🚀"@,
            CommitCategory::Security => "🔒"@,
            CommitCategory::Deps => "📦"@,
            CommitCategory::Revert => "⏪"@,
            CommitCategory::Config => "⚙️"@,
            CommitCategory::Init => "🎉"@,
            CommitCategory::Wip => "🚧"@,
            CommitCategory::Hotfix => "🚨"@,
            CommitCategory::Release => "🏷️"@,
            CommitCategory::Merge => "🔀"@,
            CommitCategory::Unknown => "❓"@,
        }
    }

    /// The label of the category, for a reader.
    pub open spec fn label(self) -> Seq<char> {
        match self {
            CommitCategory::Fix => "Bug fixes"@,
            CommitCategory::Feat => "New features"@,
            CommitCategory::Chore => "Maintenance tasks"@,
            CommitCategory::Docs => "Documentation"@,
            CommitCategory::Style => "Formatting/styling"@,
            CommitCategory::Refactor => "Code restructuring"@,
            CommitCategory::Test => "Testing"@,
            CommitCategory::Perf => "Performance improvements"@,
            CommitCategory::Build => "Build system"@,
            CommitCategory::Ci => "Continuous integration"@,
            CommitCategory::Deploy => "Deployment"@,
            CommitCategory::Security => "Security fixes"@,
            CommitCategory::Deps => "Dependency updates"@,
            CommitCategory::Revert => "Reverting changes"@,
            CommitCategory::Config => "Configuration changes"@,
            CommitCategory::Init => "Initial commit"@,
            CommitCategory::Wip => "Work in progress"@,
            CommitCategory::Hotfix => "Critical hotfix"@,
            CommitCategory::Release => "Release/version tags"@,
            CommitCategory::Merge => "Merge commits"@,
            CommitCategory::Unknown => "Uncategorized"@,
        }
    }

    /// The marker of the category.
    pub fn emote(&self) -> (r: &'static str)
        ensures
            r@ == self.marker(),
    {
        match self {
            CommitCategory::Fix => "🐛",
            CommitCategory::Feat => "✨",
            CommitCategory::Chore => "🧹",
            CommitCategory::Docs => "📚",
            CommitCategory::Style => "💄",
            CommitCategory::Refactor => "♻️",
            CommitCategory::Test => "🧪",
            CommitCategory::Perf => "⚡",
            CommitCategory::Build => "🔧",
            CommitCategory::Ci => "👷",
            CommitCategory::Deploy => "🚀",
            CommitCategory::Security => "🔒",
            CommitCategory::Deps => "📦",
            CommitCategory::Revert => "⏪",
            CommitCategory::Config => "⚙️",
            CommitCategory::Init => "🎉",
            CommitCategory::Wip => "🚧",
            CommitCategory::Hotfix => "🚨",
            CommitCategory::Release => "🏷️",
            CommitCategory::Merge => "🔀",
            CommitCategory::Unknown => "❓",
        }
    }

    /// The label of the category, for a reader.
    pub fn description(&self) -> (r: &'static str)
        ensures
            r@ == self.label(),
    {
        match self {
            CommitCategory::Fix => "Bug fixes",
            CommitCategory::Feat => "New features",
            CommitCategory::Chore => "Maintenance tasks",
            CommitCategory::Docs => "Documentation",
            CommitCategory::Style => "Formatting/styling",
            CommitCategory::Refactor => "Code restructuring",
            CommitCategory::Test => "Testing",
            CommitCategory::Perf => "Performance improvements",
            CommitCategory::Build => "Build system",
            CommitCategory::Ci => "Continuous integration",
            CommitCategory::Deploy => "Deployment",
            CommitCategory::Security => "Security fixes",
            CommitCategory::Deps => "Dependency updates",
            CommitCategory::Revert => "Reverting changes",
            CommitCategory::Config => "Configuration changes",
            CommitCategory::Init => "Initial commit",
            CommitCategory::Wip => "Work in progress",
            CommitCategory::Hotfix => "Critical hotfix",
            CommitCategory::Release => "Release/version tags",
            CommitCategory::Merge => "Merge commits",
            CommitCategory::Unknown => "Uncategorized",
        }
    }
}

/// The texts that a vector of string slices holds.
pub open spec fn strs(v: Seq<&'static str>) -> Seq<Seq<char>> {
    Seq::new(v.len(), |i: int| v[i]@)
}

/// The table that a vector of words and categories holds.
pub open spec fn pairs(v: Seq<(&'static str, CommitCategory)>) -> Seq<(Seq<char>, CommitCategory)> {
    Seq::new(v.len(), |i: int| (v[i].0@, v[i].1))
}

/// The table that a vector of categories and word lists holds.
pub open spec fn groups(v: Seq<(CommitCategory, Vec<&'static str>)>) -> Seq<
    (CommitCategory, Seq<Seq<char>>),
> {
    Seq::new(v.len(), |i: int| (v[i].0, strs(v[i].1@)))
}

// ---------------------------------------------------------------------------
// First rule: a structured prefix on the first line
// ---------------------------------------------------------------------------
/// The prefix words with their categories, in the order in which they are
/// tried.
pub open spec fn prefix_table() -> Seq<(Seq<char>, CommitCategory)> {
    seq![
        ("feat"@, CommitCategory::Feat),
        ("feature"@, CommitCategory::Feat),
        ("fix"@, CommitCategory::Fix),
        ("bugfix"@, CommitCategory::Fix),
        ("bug"@, CommitCategory::Fix),
        ("docs"@, CommitCategory::Docs),
        ("doc"@, CommitCategory::Docs),
        ("documentation"@, CommitCategory::Docs),
        ("style"@, CommitCategory::Style),
        ("refactor"@, CommitCategory::Refactor),
        ("refact"@, CommitCategory::Refactor),
        ("test"@, CommitCategory::Test),
        ("tests"@, CommitCategory::Test),
        ("testing"@, CommitCategory::Test),
        ("perf"@, CommitCategory::Perf),
        ("performance"@, CommitCategory::Perf),
        ("build"@, CommitCategory::Build),
        ("ci"@, CommitCategory::Ci),
        ("chore"@, CommitCategory::Chore),
        ("revert"@, CommitCategory::Revert),
        ("deploy"@, CommitCategory::Deploy),
        ("deployment"@, CommitCategory::Deploy),
        ("security"@, CommitCategory::Security),
        ("sec"@, CommitCategory::Security),
        ("deps"@, CommitCategory::Deps),
        ("dependencies"@, CommitCategory::Deps),
        ("dependency"@, CommitCategory::Deps),
        ("config"@, CommitCategory::Config),
        ("configuration"@, CommitCategory::Config),
        ("init"@, CommitCategory::Init),
        ("initial"@, CommitCategory::Init),
        ("wip"@, CommitCategory::Wip),
        ("hotfix"@, CommitCategory::Hotfix),
        ("release"@, CommitCategory::Release),
        ("version"@, CommitCategory::Release),
        ("merge"@, CommitCategory::Merge),
    ]
}

/// Whether `line` has the structured form for the prefix word `word`: it
/// begins with the word and a colon, or it holds the word followed by an
/// opening bracket and, somewhere, a closing bracket followed by a colon.
pub open spec fn has_prefix_form(line: Seq<char>, word: Seq<char>) -> bool {
    starts_with(line, word + seq![':']) || (contains(line, word + seq!['(']) && contains(
        line,
        seq![')', ':'],
    ))
}

/// The index of the first entry of the prefix table at or after `from` whose
/// structured form `line` has.
pub open spec fn first_prefix_entry(line: Seq<char>, from: int) -> Option<int>
    decreases prefix_table().len() - from,
{
    if from < 0 || from >= prefix_table().len() {
        None
    } else if has_prefix_form(line, prefix_table()[from].0) {
        Some(from)
    } else {
        first_prefix_entry(line, from + 1)
    }
}

/// The category that the first rule gives to a first line in lower case.
pub open spec fn prefix_category(line: Seq<char>) -> Option<CommitCategory> {
    match first_prefix_entry(line, 0) {
        Some(i) => Some(prefix_table()[i].1),
        None => None,
    }
}

fn prefix_list() -> (v: Vec<(&'static str, CommitCategory)>)
    ensures
        pairs(v@) == prefix_table(),
{
    let v = vec![
        ("feat", CommitCategory::Feat),
        ("feature", CommitCategory::Feat),
        ("fix", CommitCategory::Fix),
        ("bugfix", CommitCategory::Fix),
        ("bug", CommitCategory::Fix),
        ("docs", CommitCategory::Docs),
        ("doc", CommitCategory::Docs),
        ("documentation", CommitCategory::Docs),
        ("style", CommitCategory::Style),
        ("refactor", CommitCategory::Refactor),
        ("refact", CommitCategory::Refactor),
        ("test", CommitCategory::Test),
        ("tests", CommitCategory::Test),
        ("testing", CommitCategory::Test),
        ("perf", CommitCategory::Perf),
        ("performance", CommitCategory::Perf),
        ("build", CommitCategory::Build),
        ("ci", CommitCategory::Ci),
        ("chore", CommitCategory::Chore),
        ("revert", CommitCategory::Revert),
        ("deploy", CommitCategory::Deploy),
        ("deployment", CommitCategory::Deploy),
        ("security", CommitCategory::Security),
        ("sec", CommitCategory::Security),
        ("deps", CommitCategory::Deps),
        ("dependencies", CommitCategory::Deps),
        ("dependency", CommitCategory::Deps),
        ("config", CommitCategory::Config),
        ("configuration", CommitCategory::Config),
        ("init", CommitCategory::Init),
        ("initial", CommitCategory::Init),
        ("wip", CommitCategory::Wip),
        ("hotfix", CommitCategory::Hotfix),
        ("release", CommitCategory::Release),
        ("version", CommitCategory::Release),
        ("merge", CommitCategory::Merge),
    ];
    assert(pairs(v@) =~= prefix_table());
    v
}

/// The category that the first rule gives to `first_line`, a first line in
/// lower case.
pub fn parse_conventional_commit(first_line: &Vec<char>) -> (r: Option<CommitCategory>)
    ensures
        r == prefix_category(first_line@),
{
    let table = prefix_list();
    let mut closing: Vec<char> = Vec::new();
    closing.push(')');
    closing.push(':');
    assert(closing@ =~= seq![')', ':']);
    let closed = has_substring(first_line, &closing);
    let mut i: usize = 0;
    while i < table.len()
        invariant
            i <= table.len(),
            pairs(table@) == prefix_table(),
            closed == contains(first_line@, seq![')', ':']),
            first_prefix_entry(first_line@, 0) == first_prefix_entry(first_line@, i as int),
        decreases table.len() - i,
    {
        let word = chars_of(table[i].0);
        assert(word@ == prefix_table()[i as int].0) by {
            assert(pairs(table@)[i as int].0 == table@[i as int].0@);
        }
        let mut plain = word.clone();
        plain.push(':');
        assert(plain@ =~= word@ + seq![':']);
        let mut scoped = word;
        scoped.push('(');
        assert(scoped@ =~= prefix_table()[i as int].0 + seq!['(']);
        if has_prefix(first_line, &plain) || (closed && has_substring(first_line, &scoped)) {
            assert(pairs(table@)[i as int].1 == table@[i as int].1);
            return Some(table[i].1);
        }
        i += 1;
    }
    None
}

// ---------------------------------------------------------------------------
// Second rule: the longest keyword that occurs in the message
// ---------------------------------------------------------------------------
/// The keywords of each category, in the order in which they are declared.
pub open spec fn keyword_table() -> Seq<(CommitCategory, Seq<Seq<char>>)> {
    seq![
        (CommitCategory::Fix, seq!["fix"@, "bug"@, "error"@, "issue"@, "problem"@, "resolve"@, "correct"@, "patch"@, "repair"@, "debug"@, "crash"@, "exception"@, "broken"@, "regression"@, "hotfix"@, "critical"@, "urgent"@]),
        (CommitCategory::Feat, seq!["add"@, "new"@, "feature"@, "implement"@, "create"@, "introduce"@, "support"@, "enable"@, "allow"@, "enhance"@, "extend"@, "expand"@]),
        (CommitCategory::Docs, seq!["update readme"@, "readme"@, "documentation"@, "docs"@, "comment"@, "comments"@, "guide"@, "tutorial"@, "example"@, "examples"@, "changelog"@, "license"@, "contributing"@, "api doc"@, "docstring"@]),
        (CommitCategory::Style, seq!["format"@, "formatting"@, "style"@, "styling"@, "indent"@, "whitespace"@, "lint"@, "linting"@, "prettier"@, "eslint"@, "code style"@, "cleanup"@, "cosmetic"@, "appearance"@]),
        (CommitCategory::Refactor, seq!["refactor"@, "restructure"@, "reorganize"@, "simplify"@, "clean up"@, "extract"@, "rename"@, "move"@, "split"@, "combine"@, "optimize structure"@]),
        (CommitCategory::Test, seq!["test"@, "tests"@, "testing"@, "spec"@, "specs"@, "unit test"@, "integration test"@, "e2e"@, "coverage"@, "mock"@, "fixture"@]),
        (CommitCategory::Perf, seq!["performance"@, "optimize"@, "speed"@, "faster"@, "efficiency"@, "cache"@, "caching"@, "memory"@, "cpu"@, "benchmark"@, "profiling"@]),
        (CommitCategory::Build, seq!["build"@, "compile"@, "webpack"@, "rollup"@, "babel"@, "typescript"@, "makefile"@, "cmake"@, "gradle"@, "maven"@, "npm script"@, "yarn"@]),
        (CommitCategory::Ci, seq!["ci"@, "continuous integration"@, "github actions"@, "travis"@, "jenkins"@, "pipeline"@, "workflow"@, "automation"@, "deploy script"@]),
        (CommitCategory::Chore, seq!["chore"@, "maintenance"@, "upgrade"@, "bump"@, "cleanup"@, "housekeeping"@, "misc"@, "miscellaneous"@, "routine"@]),
        (CommitCategory::Security, seq!["security vulnerability"@, "security fix"@, "security"@, "vulnerability"@, "exploit"@, "xss"@, "csrf"@, "injection"@, "authorization"@, "permission"@, "sanitize"@, "escape"@]),
        (CommitCategory::Deps, seq!["package dependencies"@, "update dependencies"@, "dependency"@, "dependencies"@, "package"@, "packages"@, "npm"@, "yarn"@, "pip"@, "cargo"@, "gem"@, "composer"@, "requirements"@, "lock file"@, "bump version"@, "upgrade packages"@]),
        (CommitCategory::Config, seq!["config"@, "configuration"@, "settings"@, "environment"@, "env"@, "dotenv"@, "properties"@, "yaml"@, "json"@, "toml"@, "ini"@]),
        (CommitCategory::Deploy, seq!["deploy"@, "deployment"@, "release"@, "publish"@, "production"@, "staging"@, "docker"@, "kubernetes"@, "helm"@, "terraform"@]),
        (CommitCategory::Init, seq!["initial commit"@, "first commit"@, "initialize"@, "setup"@, "scaffold"@, "bootstrap"@, "project setup"@, "initial"@]),
        (CommitCategory::Wip, seq!["wip"@, "work in progress"@, "todo"@, "fixme"@, "temporary"@, "draft"@]),
        (CommitCategory::Merge, seq!["merge"@, "pull request"@, "pr"@, "branch"@, "conflict resolution"@]),
        (CommitCategory::Revert, seq!["revert"@, "rollback"@, "undo"@, "back out"@, "reverse"@]),
    ]
}

/// The keyword at place `b` among those of the category at place `a`.
pub open spec fn keyword_at(a: int, b: int) -> Seq<char> {
    keyword_table()[a].1[b]
}

/// Whether `(a, b)` is a place of the keyword table.
pub open spec fn is_keyword_place(a: int, b: int) -> bool {
    0 <= a < keyword_table().len() && 0 <= b < keyword_table()[a].1.len()
}

/// Whether the keyword at the place `(a, b)` occurs in `message`.
pub open spec fn is_hit(message: Seq<char>, a: int, b: int) -> bool {
    is_keyword_place(a, b) && contains(message, keyword_at(a, b))
}

/// Whether the place `(a1, b1)` is declared before the place `(a2, b2)`.
pub open spec fn declared_before(a1: int, b1: int, a2: int, b2: int) -> bool {
    a1 < a2 || (a1 == a2 && b1 < b2)
}

/// Whether `word` is longer than the keyword at the place `before`, if there
/// is one.
pub open spec fn outdoes(word: Seq<char>, before: Option<(int, int)>) -> bool {
    match before {
        Some((a, b)) => keyword_at(a, b).len() < word.len(),
        None => true,
    }
}

/// The place of the winning keyword among those declared before `(a, n)`: the
/// first of the longest keywords that occur in `message`.
pub open spec fn best_hit(message: Seq<char>, a: int, n: int) -> Option<(int, int)>
    decreases a, n,
{
    if a < 0 || n < 0 {
        None
    } else if n > 0 {
        let before = best_hit(message, a, n - 1);
        if contains(message, keyword_at(a, n - 1)) && outdoes(keyword_at(a, n - 1), before) {
            Some((a, n - 1))
        } else {
            before
        }
    } else if a > 0 {
        best_hit(message, a - 1, keyword_table()[a - 1].1.len() as int)
    } else {
        None
    }
}

/// The category that the second rule gives to a message in lower case.
pub open spec fn keyword_category(message: Seq<char>) -> Option<CommitCategory> {
    match best_hit(message, keyword_table().len() as int, 0) {
        Some((a, _)) => Some(keyword_table()[a].0),
        None => None,
    }
}

/// The keywords of each category.
pub fn create_keyword_patterns() -> (v: Vec<(CommitCategory, Vec<&'static str>)>)
    ensures
        groups(v@) == keyword_table(),
{
    let v = vec![
        (CommitCategory::Fix, vec!["fix", "bug", "error", "issue", "problem", "resolve", "correct", "patch", "repair", "debug", "crash", "exception", "broken", "regression", "hotfix", "critical", "urgent"]),
        (CommitCategory::Feat, vec!["add", "new", "feature", "implement", "create", "introduce", "support", "enable", "allow", "enhance", "extend", "expand"]),
        (CommitCategory::Docs, vec!["update readme", "readme", "documentation", "docs", "comment", "comments", "guide", "tutorial", "example", "examples", "changelog", "license", "contributing", "api doc", "docstring"]),
        (CommitCategory::Style, vec!["format", "formatting", "style", "styling", "indent", "whitespace", "lint", "linting", "prettier", "eslint", "code style", "cleanup", "cosmetic", "appearance"]),
        (CommitCategory::Refactor, vec!["refactor", "restructure", "reorganize", "simplify", "clean up", "extract", "rename", "move", "split", "combine", "optimize structure"]),
        (CommitCategory::Test, vec!["test", "tests", "testing", "spec", "specs", "unit test", "integration test", "e2e", "coverage", "mock", "fixture"]),
        (CommitCategory::Perf, vec!["performance", "optimize", "speed", "faster", "efficiency", "cache", "caching", "memory", "cpu", "benchmark", "profiling"]),
        (CommitCategory::Build, vec!["build", "compile", "webpack", "rollup", "babel", "typescript", "makefile", "cmake", "gradle", "maven", "npm script", "yarn"]),
        (CommitCategory::Ci, vec!["ci", "continuous integration", "github actions", "travis", "jenkins", "pipeline", "workflow", "automation", "deploy script"]),
        (CommitCategory::Chore, vec!["chore", "maintenance", "upgrade", "bump", "cleanup", "housekeeping", "misc", "miscellaneous", "routine"]),
        (CommitCategory::Security, vec!["security vulnerability", "security fix", "security", "vulnerability", "exploit", "xss", "csrf", "injection", "authorization", "permission", "sanitize", "escape"]),
        (CommitCategory::Deps, vec!["package dependencies", "update dependencies", "dependency", "dependencies", "package", "packages", "npm", "yarn", "pip", "cargo", "gem", "composer", "requirements", "lock file", "bump version", "upgrade packages"]),
        (CommitCategory::Config, vec!["config", "configuration", "settings", "environment", "env", "dotenv", "properties", "yaml", "json", "toml", "ini"]),
        (CommitCategory::Deploy, vec!["deploy", "deployment", "release", "publish", "production", "staging", "docker", "kubernetes", "helm", "terraform"]),
        (CommitCategory::Init, vec!["initial commit", "first commit", "initialize", "setup", "scaffold", "bootstrap", "project setup", "initial"]),
        (CommitCategory::Wip, vec!["wip", "work in progress", "todo", "fixme", "temporary", "draft"]),
        (CommitCategory::Merge, vec!["merge", "pull request", "pr", "branch", "conflict resolution"]),
        (CommitCategory::Revert, vec!["revert", "rollback", "undo", "back out", "reverse"]),
    ];
    assert(groups(v@) =~~= keyword_table());
    v
}

/// The winning place is a place of the table where the keyword occurs, no
/// keyword that occurs is longer than the one there, and each that occurs and
/// is declared before it is shorter. There is none exactly where no keyword
/// occurs.
pub proof fn lemma_best_hit(message: Seq<char>, a: int, n: int)
    requires
        0 <= a <= keyword_table().len(),
        0 <= n,
        a < keyword_table().len() ==> n <= keyword_table()[a].1.len(),
        a == keyword_table().len() ==> n == 0,
    ensures
        match best_hit(message, a, n) {
            Some((p, q)) => is_hit(message, p, q) && declared_before(p, q, a, n) && forall|
                x: int,
                y: int,
            | #[trigger]
                is_hit(message, x, y) && declared_before(x, y, a, n) ==> keyword_at(x, y).len()
                    <= keyword_at(p, q).len() && (declared_before(x, y, p, q) ==> keyword_at(
                    x,
                    y,
                ).len() < keyword_at(p, q).len()),
            None => forall|x: int, y: int| #[trigger]
                is_hit(message, x, y) ==> !declared_before(x, y, a, n),
        },
    decreases a, n,
{
    if n > 0 {
        lemma_best_hit(message, a, n - 1);
    } else if a > 0 {
        lemma_best_hit(message, a - 1, keyword_table()[a - 1].1.len() as int);
    }
}

/// Longest keyword wins: the second rule gives the category of a keyword that
/// occurs in the message and is at least as long as every other that occurs,
/// and longer than each that occurs and is declared before it. It gives no
/// category exactly where no keyword occurs.
pub proof fn lemma_longest_keyword_wins(message: Seq<char>)
    ensures
        match keyword_category(message) {
            Some(c) => exists|p: int, q: int| #[trigger]
                is_hit(message, p, q) && keyword_table()[p].0 == c && forall|x: int, y: int| #[trigger]
                    is_hit(message, x, y) ==> keyword_at(x, y).len() <= keyword_at(p, q).len() && (
                    declared_before(x, y, p, q) ==> keyword_at(x, y).len() < keyword_at(
                        p,
                        q,
                    ).len()),
            None => forall|x: int, y: int| !#[trigger] is_hit(message, x, y),
        },
{
    lemma_best_hit(message, keyword_table().len() as int, 0);
    match best_hit(message, keyword_table().len() as int, 0) {
        Some((p, q)) => {
            assert(is_hit(message, p, q));
        },
        None => {},
    }
}

/// The place that a pair of indices stands for.
pub open spec fn place_of(best: Option<(usize, usize)>) -> Option<(int, int)> {
    match best {
        Some((a, b)) => Some((a as int, b as int)),
        None => None,
    }
}

/// The category that the second rule gives to `message`, a message in lower
/// case.
pub fn analyze_keywords(message: &Vec<char>) -> (r: Option<CommitCategory>)
    ensures
        r == keyword_category(message@),
{
    let table = create_keyword_patterns();
    let mut best: Option<(usize, usize)> = None;
    let mut best_len: usize = 0;
    let mut a: usize = 0;
    while a < table.len()
        invariant
            a <= table.len(),
            groups(table@) == keyword_table(),
            place_of(best) == best_hit(message@, a as int, 0),
            best matches Some((x, y)) ==> x < table.len() && best_len == keyword_at(
                x as int,
                y as int,
            ).len(),
        decreases table.len() - a,
    {
        let mut b: usize = 0;
        assert(groups(table@)[a as int].1 == strs(table@[a as int].1@));
        while b < table[a].1.len()
            invariant
                a < table.len(),
                b <= table@[a as int].1.len(),
                groups(table@) == keyword_table(),
                keyword_table()[a as int].1 == strs(table@[a as int].1@),
                place_of(best) == best_hit(message@, a as int, b as int),
                best matches Some((x, y)) ==> x < table.len() && best_len == keyword_at(
                    x as int,
                    y as int,
                ).len(),
            decreases table@[a as int].1.len() - b,
        {
            let word = chars_of(table[a].1[b]);
            assert(word@ == keyword_at(a as int, b as int));
            if has_substring(message, &word) && (best.is_none() || best_len < word.len()) {
                best = Some((a, b));
                best_len = word.len();
            }
            b += 1;
        }
        a += 1;
    }
    match best {
        Some((x, _)) => {
            assert(groups(table@)[x as int].0 == table@[x as int].0);
            Some(table[x].0)
        },
        None => None,
    }
}

// ---------------------------------------------------------------------------
// Third rule: a hint from a path or a file extension
// ---------------------------------------------------------------------------
/// The category that the third rule gives to a message in lower case.
pub open spec fn context_category(message: Seq<char>) -> Option<CommitCategory> {
    if contains(message, ".md"@) || contains(message, "readme"@) || contains(message, "doc/"@) {
        Some(CommitCategory::Docs)
    } else if contains(message, "package.json"@) || contains(message, "cargo.toml"@) || contains(
        message,
        "requirements.txt"@,
    ) || contains(message, "gemfile"@) {
        Some(CommitCategory::Deps)
    } else if contains(message, ".yml"@) || contains(message, ".yaml"@) || contains(
        message,
        "config"@,
    ) || contains(message, ".env"@) {
        Some(CommitCategory::Config)
    } else if contains(message, "dockerfile"@) || contains(message, "docker-compose"@) || contains(
        message,
        ".github/workflows"@,
    ) || contains(message, "ci/"@) {
        Some(CommitCategory::Ci)
    } else if contains(message, "test/"@) || contains(message, "spec/"@) || contains(
        message,
        "__tests__"@,
    ) || contains(message, ".test."@) {
        Some(CommitCategory::Test)
    } else {
        None
    }
}

/// The category that the third rule gives to `message`, a message in lower
/// case.
pub fn analyze_context(message: &Vec<char>) -> (r: Option<CommitCategory>)
    ensures
        r == context_category(message@),
{
    if has_text(message, ".md") || has_text(message, "readme") || has_text(message, "doc/") {
        return Some(CommitCategory::Docs);
    }
    if has_text(message, "package.json") || has_text(message, "cargo.toml") || has_text(
        message,
        "requirements.txt",
    ) || has_text(message, "gemfile") {
        return Some(CommitCategory::Deps);
    }
    if has_text(message, ".yml") || has_text(message, ".yaml") || has_text(message, "config")
        || has_text(message, ".env") {
        return Some(CommitCategory::Config);
    }
    if has_text(message, "dockerfile") || has_text(message, "docker-compose") || has_text(
        message,
        ".github/workflows",
    ) || has_text(message, "ci/") {
        return Some(CommitCategory::Ci);
    }
    if has_text(message, "test/") || has_text(message, "spec/") || has_text(message, "__tests__")
        || has_text(message, ".test.") {
        return Some(CommitCategory::Test);
    }
    None
}

// ---------------------------------------------------------------------------
// The three rules in turn
// ---------------------------------------------------------------------------
/// The category of a message whose first line in lower case is `line` and
/// whose whole text in lower case is `message`: what the first rule that
/// applies gives, and `Unknown` where none applies.
pub open spec fn category_of(line: Seq<char>, message: Seq<char>) -> CommitCategory {
    match prefix_category(line) {
        Some(c) => c,
        None => match keyword_category(message) {
            Some(c) => c,
            None => match context_category(message) {
                Some(c) => c,
                None => CommitCategory::Unknown,
            },
        },
    }
}

/// The category of the message `message`.
pub open spec fn categorized(message: Seq<char>) -> CommitCategory {
    category_of(lowercase_of(first_line(message)), lowercase_of(message))
}

/// The category of a message, given its first line and its whole text, both
/// in lower case.
pub fn categorize_lowered(line: &str, message: &str) -> (c: CommitCategory)
    ensures
        c == category_of(line@, message@),
{
    let line = chars_of(line);
    let message = chars_of(message);
    classify(&line, &message)
}

fn classify(line: &Vec<char>, message: &Vec<char>) -> (c: CommitCategory)
    ensures
        c == category_of(line@, message@),
{
    if let Some(c) = parse_conventional_commit(line) {
        return c;
    }
    if let Some(c) = analyze_keywords(message) {
        return c;
    }
    if let Some(c) = analyze_context(message) {
        return c;
    }
    CommitCategory::Unknown
}

/// The category of `message`. Letter case plays no part: the rules see the
/// first line and the whole text in lower case.
pub fn categorize_commit_message(message: &str) -> (c: CommitCategory)
    ensures
        c == categorized(message@),
{
    let text = chars_of(message);
    let lines = split_lines(&text);
    let line = if lines.len() > 0 {
        lowercase(&lines[0])
    } else {
        let empty: Vec<char> = Vec::new();
        lowercase(&empty)
    };
    let lowered = lowercase(&text);
    assert(line@ == lowercase_of(first_line(message@))) by {
        if lines.len() == 0 {
            assert(first_line(message@) =~= Seq::<char>::empty());
        }
    }
    classify(&line, &lowered)
}

/// Two messages with the same lower-case form, and the same lower-case form of
/// the first line, have the same category.
pub proof fn lemma_category_ignores_case(a: Seq<char>, b: Seq<char>)
    requires
        lowercase_of(a) == lowercase_of(b),
        lowercase_of(first_line(a)) == lowercase_of(first_line(b)),
    ensures
        categorized(a) == categorized(b),
{
}

// ---------------------------------------------------------------------------
// Markers
// ---------------------------------------------------------------------------
/// Whether `c` counts as a marker: a character of the blocks of pictographs
/// U+1F300 to U+1F9FF, of miscellaneous symbols U+2600 to U+26FF, of dingbats
/// U+2700 to U+27BF, or a regional indicator U+1F1E0 to U+1F1FF.
pub open spec fn is_marker_char(c: char) -> bool {
    ('\u{1F300}' <= c && c <= '\u{1F9FF}') || ('\u{2600}' <= c && c <= '\u{26FF}') || ('\u{2700}'
        <= c && c <= '\u{27BF}') || ('\u{1F1E0}' <= c && c <= '\u{1F1FF}')
}

/// Whether `s` begins with a marker.
pub open spec fn starts_with_marker(s: Seq<char>) -> bool {
    s.len() > 0 && is_marker_char(s[0])
}

/// `message` trimmed, with the marker of `category` and a space in front of it
/// unless it begins with a marker already.
pub open spec fn decorated(message: Seq<char>, category: CommitCategory) -> Seq<char> {
    let t = trim(message);
    if starts_with_marker(t) {
        t
    } else {
        category.marker() + seq![' '] + t
    }
}

/// Whether `c` counts as a marker.
pub fn is_emote(c: char) -> (r: bool)
    ensures
        r == is_marker_char(c),
{
    (c >= '\u{1F300}' && c <= '\u{1F9FF}') || (c >= '\u{2600}' && c <= '\u{26FF}') || (c
        >= '\u{2700}' && c <= '\u{27BF}') || (c >= '\u{1F1E0}' && c <= '\u{1F1FF}')
}

/// Whether `message` begins with a marker.
pub fn starts_with_emote(message: &str) -> (r: bool)
    ensures
        r == starts_with_marker(message@),
{
    if message.is_empty() {
        return false;
    }
    is_emote(message.get_char(0))
}

/// `message` trimmed and stamped with the marker of `category`, unless it
/// begins with a marker already.
pub fn add_emote_to_commit_message(message: &str, category: CommitCategory) -> (r: String)
    ensures
        r@ == decorated(message@, category),
{
    let text = chars_of(message);
    let t = trimmed(&text);
    if t.len() > 0 && is_emote(t[0]) {
        return string_of(&t);
    }
    let mut out = chars_of(category.emote());
    out.push(' ');
    append(&mut out, &t);
    assert(out@ =~= category.marker() + seq![' '] + t@);
    string_of(&out)
}

/// `message` trimmed and stamped with the marker of its category.
pub fn process_commit_message(message: &str) -> (r: String)
    ensures
        r@ == decorated(message@, categorized(message@)),
{
    let category = categorize_commit_message(message);
    add_emote_to_commit_message(message, category)
}

/// A marker is not empty and holds no white space at either end, and every
/// marker but that of `Revert` begins with a character that counts as one.
pub proof fn lemma_marker_shape(c: CommitCategory)
    ensures
        c.marker().len() > 0,
        !is_whitespace(c.marker()[0]),
        !is_whitespace(c.marker().last()),
        is_marker_char(c.marker()[0]) <==> c != CommitCategory::Revert,
{
    reveal_strlit("🐛");
    reveal_strlit("✨");
    reveal_strlit("🧹");
    reveal_strlit("📚");
    reveal_strlit("💄");
    reveal_strlit("♻️");
    reveal_strlit("🧪");
    reveal_strlit("⚡");
    reveal_strlit("🔧");
    reveal_strlit("👷");
    reveal_strlit("🚀");
    reveal_strlit("🔒");
    reveal_strlit("📦");
    reveal_strlit("⏪");
    reveal_strlit("⚙️");
    reveal_strlit("🎉");
    reveal_strlit("🚧");
    reveal_strlit("🚨");
    reveal_strlit("🏷️");
    reveal_strlit("🔀");
    reveal_strlit("❓");
}

/// Stamping is idempotent: a message that was stamped is left as it is by a
/// second stamping with the same category. This holds of a message that begins
/// with a marker once trimmed, and of any other that is not blank, for every
/// category but `Revert`, whose marker does not count as one.
pub proof fn lemma_decorate_idempotent(message: Seq<char>, category: CommitCategory)
    requires
        starts_with_marker(trim(message)) || (trim(message).len() > 0 && category
            != CommitCategory::Revert),
    ensures
        decorated(decorated(message, category), category) == decorated(message, category),
{
    let t = trim(message);
    lemma_trim_is_trimmed(message);
    lemma_marker_shape(category);
    let d = decorated(message, category);
    if starts_with_marker(t) {
        lemma_trim_of_trimmed(t);
    } else {
        assert(d[0] == category.marker()[0]);
        assert(d.last() == t.last());
        assert(is_trimmed(d));
        lemma_trim_of_trimmed(d);
    }
}

/// On every other message a second stamping changes what the first gave: a
/// blank message, and one that begins with no marker and is stamped as
/// `Revert`.
pub proof fn lemma_decorate_twice_differs(message: Seq<char>, category: CommitCategory)
    requires
        !starts_with_marker(trim(message)),
        trim(message).len() == 0 || category == CommitCategory::Revert,
    ensures
        decorated(decorated(message, category), category) != decorated(message, category),
{
    let t = trim(message);
    let m = category.marker();
    lemma_trim_is_trimmed(message);
    lemma_marker_shape(category);
    let d = decorated(message, category);
    assert(d == m + seq![' '] + t);
    assert(d.len() == m.len() + 1 + t.len());
    assert(d[0] == m[0]);
    if t.len() == 0 {
        assert(d =~= m.push(' '));
        assert(d.drop_last() =~= m);
        assert(d.last() == ' ');
        assert(trim_start(d) == d);
        assert(trim_end(d) == trim_end(m));
        assert(trim_end(m) == m);
        assert(trim(d) == m);
        assert(decorated(d, category).len() != d.len());
    } else {
        assert(d.last() == t.last());
        assert(is_trimmed(d));
        lemma_trim_of_trimmed(d);
        assert(decorated(d, category).len() == m.len() + 1 + d.len());
    }
}

} // verus!
