//! What goes to a completion service, and what is made of its answer.
//!
//! The service is asked with a prompt and answers with free text. This module
//! builds the prompts and cleans the answers: it drops the reasoning that
//! precedes an answer and the lines that speak about the diff in place of
//! describing the commit.
use crate::emotes::{categorized, decorated, process_commit_message};
use crate::text::{
    append, begins_with, chars_of, contains, decimal, decimal_of, find_from, find_in, has_prefix,
    has_text, join_lines, lemma_find_from, lines_of, lowercase, lowercase_of, slice_of,
    split_lines, starts_with, string_of, texts, trim, trimmed,
};
use vstd::prelude::*;

verus! {

/// The texts that a vector of string slices holds.
pub open spec fn slices(v: Seq<&'static str>) -> Seq<Seq<char>> {
    Seq::new(v.len(), |i: int| v[i]@)
}

/// The texts that a vector of strings holds.
pub open spec fn strings(v: Seq<String>) -> Seq<Seq<char>> {
    Seq::new(v.len(), |i: int| v[i]@)
}

// ---------------------------------------------------------------------------
// Lines that speak about the diff
// ---------------------------------------------------------------------------
/// The phrases that begin a line which speaks about the diff, in lower case.
pub open spec fn unwanted_starts() -> Seq<Seq<char>> {
    seq![
        "the `diff`"@,
        "diff indicates"@,
        "here's a breakdown"@,
        "analysis of the changes"@,
        "based on the diff"@,
        "looking at the changes"@,
        "the changes show"@,
        "i can see"@,
        "from the diff"@,
        "the diff shows"@,
        "analyzing the diff"@,
        "examining the changes"@,
        "reviewing the diff"@,
        "summary:"@,
        "explanation:"@,
        "breakdown:"@,
        "analysis:"@,
        "here's what"@,
        "let me analyze"@,
        "looking at this"@,
        "from what i can see"@,
        "the code changes"@,
        "in this diff"@,
        "this diff shows"@,
        "the following changes"@,
        "changes made:"@,
        "modifications:"@,
        "updates:"@,
        "alterations:"@,
        "revisions:"@,
        "based on"@,
        "according to"@,
        "it appears"@,
        "it seems"@,
        "it looks like"@,
        "from the context"@,
        "given the"@,
        "considering the"@,
        "taking into account"@,
    ]
}

/// Whether `line` begins with `phrase`, either at once or behind a list
/// bullet: a hyphen, an asterisk or a bullet point, and a space.
pub open spec fn begins_with_phrase(line: Seq<char>, phrase: Seq<char>) -> bool {
    starts_with(line, phrase) || starts_with(line, "- "@ + phrase) || starts_with(
        line,
        "* "@ + phrase,
    ) || starts_with(line, "• "@ + phrase)
}

/// Whether `line` begins with one of the first `n` unwanted phrases.
pub open spec fn begins_unwanted(line: Seq<char>, n: int) -> bool {
    exists|i: int| 0 <= i < n && i < unwanted_starts().len() && begins_with_phrase(
        line,
        #[trigger] unwanted_starts()[i],
    )
}

/// Whether `line` speaks about the commit from outside: it begins with `this
/// commit` and holds a word of guessing or of analysis.
pub open spec fn is_meta_commit_line(line: Seq<char>) -> bool {
    starts_with(line, "this commit"@) && (contains(line, "appears"@) || contains(line, "seems"@)
        || contains(line, "based on"@) || contains(line, "analysis"@))
}

/// Whether a line is unwanted, given its trimmed form in lower case.
pub open spec fn is_unwanted(line: Seq<char>) -> bool {
    begins_unwanted(line, unwanted_starts().len() as int) || is_meta_commit_line(line)
}

/// The form of `line` that the filter judges by: trimmed and in lower case.
pub open spec fn judged_form(line: Seq<char>) -> Seq<char> {
    lowercase_of(trim(line))
}

/// The judged forms of `lines`.
pub open spec fn judged_forms(lines: Seq<Seq<char>>) -> Seq<Seq<char>> {
    Seq::new(lines.len(), |i: int| judged_form(lines[i]))
}

/// The lines that are kept among the first `n` of `lines`, where `forms` holds
/// the judged form of each. A blank line is kept unless no line was kept
/// before it; any other line is kept unless it is unwanted.
pub open spec fn kept_lines(lines: Seq<Seq<char>>, forms: Seq<Seq<char>>, n: int) -> Seq<
    Seq<char>,
>
    decreases n,
{
    if n <= 0 {
        Seq::empty()
    } else {
        let before = kept_lines(lines, forms, n - 1);
        if forms[n - 1].len() == 0 {
            if before.len() > 0 {
                before.push(lines[n - 1])
            } else {
                before
            }
        } else if is_unwanted(forms[n - 1]) {
            before
        } else {
            before.push(lines[n - 1])
        }
    }
}

/// The lines that are kept, joined by line feeds and trimmed.
pub open spec fn filtered(lines: Seq<Seq<char>>, forms: Seq<Seq<char>>) -> Seq<char> {
    trim(join_lines(kept_lines(lines, forms, lines.len() as int)))
}

fn unwanted_start_list() -> (v: Vec<&'static str>)
    ensures
        slices(v@) == unwanted_starts(),
{
    let v = vec![
        "the `diff`",
        "diff indicates",
        "here's a breakdown",
        "analysis of the changes",
        "based on the diff",
        "looking at the changes",
        "the changes show",
        "i can see",
        "from the diff",
        "the diff shows",
        "analyzing the diff",
        "examining the changes",
        "reviewing the diff",
        "summary:",
        "explanation:",
        "breakdown:",
        "analysis:",
        "here's what",
        "let me analyze",
        "looking at this",
        "from what i can see",
        "the code changes",
        "in this diff",
        "this diff shows",
        "the following changes",
        "changes made:",
        "modifications:",
        "updates:",
        "alterations:",
        "revisions:",
        "based on",
        "according to",
        "it appears",
        "it seems",
        "it looks like",
        "from the context",
        "given the",
        "considering the",
        "taking into account",
    ];
    assert(slices(v@) =~= unwanted_starts());
    v
}

fn with_bullet(bullet: &str, phrase: &Vec<char>) -> (r: Vec<char>)
    ensures
        r@ == bullet@ + phrase@,
{
    let mut r = chars_of(bullet);
    append(&mut r, phrase);
    r
}

/// Whether a line is unwanted, given its trimmed form in lower case.
pub fn is_unwanted_line(line: &str) -> (r: bool)
    ensures
        r == is_unwanted(line@),
{
    let text = chars_of(line);
    unwanted(&text)
}

fn unwanted(line: &Vec<char>) -> (r: bool)
    ensures
        r == is_unwanted(line@),
{
    let phrases = unwanted_start_list();
    let mut i: usize = 0;
    while i < phrases.len()
        invariant
            i <= phrases.len(),
            slices(phrases@) == unwanted_starts(),
            !begins_unwanted(line@, i as int),
        decreases phrases.len() - i,
    {
        let phrase = chars_of(phrases[i]);
        assert(phrase@ == unwanted_starts()[i as int]) by {
            assert(slices(phrases@)[i as int] == phrases@[i as int]@);
        }
        if has_prefix(line, &phrase) || has_prefix(line, &with_bullet("- ", &phrase))
            || has_prefix(line, &with_bullet("* ", &phrase)) || has_prefix(
            line,
            &with_bullet("• ", &phrase),
        ) {
            assert(begins_unwanted(line@, unwanted_starts().len() as int));
            return true;
        }
        i += 1;
    }
    begins_with(line, "this commit") && (has_text(line, "appears") || has_text(line, "seems")
        || has_text(line, "based on") || has_text(line, "analysis"))
}

fn keep(out: &mut Vec<char>, any: bool, line: &Vec<char>, Ghost(kept): Ghost<Seq<Seq<char>>>)
    requires
        old(out)@ == join_lines(kept),
        any == (kept.len() > 0),
    ensures
        final(out)@ == join_lines(kept.push(line@)),
{
    if any {
        out.push('\n');
    }
    append(out, line);
    proof {
        let longer = kept.push(line@);
        assert(longer.drop_last() =~= kept);
        assert(longer.last() == line@);
        if !any {
            assert(out@ =~= line@);
        }
    }
}

fn select(lines: &Vec<Vec<char>>, forms: &Vec<Vec<char>>) -> (r: Vec<char>)
    requires
        lines.len() == forms.len(),
    ensures
        r@ == filtered(texts(lines@), texts(forms@)),
{
    let ghost all = texts(lines@);
    let ghost keys = texts(forms@);
    let mut out: Vec<char> = Vec::new();
    let mut any = false;
    let mut i: usize = 0;
    while i < lines.len()
        invariant
            i <= lines.len(),
            lines.len() == forms.len(),
            all == texts(lines@),
            keys == texts(forms@),
            out@ == join_lines(kept_lines(all, keys, i as int)),
            any == (kept_lines(all, keys, i as int).len() > 0),
        decreases lines.len() - i,
    {
        let ghost before = kept_lines(all, keys, i as int);
        assert(all[i as int] == lines@[i as int]@);
        assert(keys[i as int] == forms@[i as int]@);
        if forms[i].len() == 0 {
            if any {
                keep(&mut out, any, &lines[i], Ghost(before));
            }
        } else if !unwanted(&forms[i]) {
            keep(&mut out, any, &lines[i], Ghost(before));
            any = true;
        }
        i += 1;
    }
    trimmed(&out)
}

/// The lines of `lines` that are kept, joined by line feeds and trimmed, where
/// `forms` holds for each line its trimmed form in lower case.
pub fn filter_lines(lines: &Vec<String>, forms: &Vec<String>) -> (r: String)
    requires
        lines.len() == forms.len(),
    ensures
        r@ == filtered(strings(lines@), strings(forms@)),
{
    let mut line_texts: Vec<Vec<char>> = Vec::new();
    let mut form_texts: Vec<Vec<char>> = Vec::new();
    let mut i: usize = 0;
    while i < lines.len()
        invariant
            i <= lines.len(),
            lines.len() == forms.len(),
            line_texts.len() == i,
            form_texts.len() == i,
            forall|j: int| 0 <= j < i ==> (#[trigger] line_texts@[j])@ == lines@[j]@,
            forall|j: int| 0 <= j < i ==> (#[trigger] form_texts@[j])@ == forms@[j]@,
        decreases lines.len() - i,
    {
        let line = chars_of(lines[i].as_str());
        let form = chars_of(forms[i].as_str());
        line_texts.push(line);
        form_texts.push(form);
        i += 1;
    }
    assert(texts(line_texts@) =~= strings(lines@));
    assert(texts(form_texts@) =~= strings(forms@));
    string_of(&select(&line_texts, &form_texts))
}

/// `content` without the lines that speak about the diff: each line is judged
/// by its trimmed form in lower case, the lines that are kept are joined by
/// line feeds, and the whole is trimmed.
pub fn filter_unwanted_lines(content: &str) -> (r: String)
    ensures
        r@ == filtered(lines_of(content@), judged_forms(lines_of(content@))),
{
    let text = chars_of(content);
    string_of(&cleaned(&text))
}

fn cleaned(text: &Vec<char>) -> (r: Vec<char>)
    ensures
        r@ == filtered(lines_of(text@), judged_forms(lines_of(text@))),
{
    let lines = split_lines(text);
    let mut forms: Vec<Vec<char>> = Vec::new();
    let mut i: usize = 0;
    while i < lines.len()
        invariant
            i <= lines.len(),
            forms.len() == i,
            forall|j: int| 0 <= j < i ==> (#[trigger] forms@[j])@ == judged_form(lines@[j]@),
        decreases lines.len() - i,
    {
        let form = lowercase(&trimmed(&lines[i]));
        forms.push(form);
        i += 1;
    }
    assert(texts(forms@) =~= judged_forms(texts(lines@)));
    select(&lines, &forms)
}

// ---------------------------------------------------------------------------
// The answer of the service
// ---------------------------------------------------------------------------
/// What stands in `s` behind the last of the places where `mark` stands,
/// found from `from` on one after another; all of `s` from `from` on where
/// `mark` stands nowhere.
pub open spec fn last_segment(s: Seq<char>, mark: Seq<char>, from: int) -> Seq<char>
    decreases s.len() - from,
{
    match find_from(s, mark, from) {
        Some(i) => if mark.len() > 0 && from <= i && i + mark.len() <= s.len() {
            last_segment(s, mark, i + mark.len())
        } else {
            s.skip(from)
        },
        None => s.skip(from),
    }
}

/// The answer in `content`: what stands behind the last end of reasoning,
/// `</think>`, or all of it where there is none.
pub open spec fn answer_of(content: Seq<char>) -> Seq<char> {
    last_segment(content, "</think>"@, 0)
}

/// The answer in `content`, without the lines that speak about the diff.
pub open spec fn cleaned_answer(content: Seq<char>) -> Seq<char> {
    filtered(lines_of(answer_of(content)), judged_forms(lines_of(answer_of(content))))
}

fn answer(text: &Vec<char>) -> (r: Vec<char>)
    ensures
        r@ == answer_of(text@),
{
    let mark = chars_of("</think>");
    proof {
        reveal_strlit("</think>");
    }
    let n = text.len();
    let mut from: usize = 0;
    let mut found = find_in(text, &mark, from);
    while found.is_some()
        invariant
            from <= n,
            n == text.len(),
            mark@ == "</think>"@,
            mark@.len() == 8,
            answer_of(text@) == last_segment(text@, mark@, from as int),
            match found {
                Some(i) => find_from(text@, mark@, from as int) == Some(i as int),
                None => find_from(text@, mark@, from as int) is None,
            },
        decreases n - from,
    {
        proof {
            lemma_find_from(text@, mark@, from as int);
        }
        from = found.unwrap() + mark.len();
        found = find_in(text, &mark, from);
    }
    assert(text@.skip(from as int) =~= text@.subrange(from as int, n as int));
    slice_of(text, from, n)
}

/// The commit message in the answer `content` of the service: what stands
/// behind the last end of reasoning, without the lines that speak about the
/// diff.
pub fn clean_completion(content: &str) -> (r: String)
    ensures
        r@ == cleaned_answer(content@),
{
    let text = chars_of(content);
    string_of(&cleaned(&answer(&text)))
}

/// The commit message in the answer `content` of the service to a request to
/// combine several: cleaned, and stamped with the marker of its category.
pub fn finish_combined_message(content: &str) -> (r: String)
    ensures
        r@ == decorated(cleaned_answer(content@), categorized(cleaned_answer(content@))),
{
    let message = clean_completion(content);
    process_commit_message(message.as_str())
}

// ---------------------------------------------------------------------------
// The request to the service
// ---------------------------------------------------------------------------
/// `s` from `from` on, with `with` in place of `mark` at each place where it
/// stands, found one after another.
pub open spec fn replaced(s: Seq<char>, mark: Seq<char>, with: Seq<char>, from: int) -> Seq<char>
    decreases s.len() - from,
{
    match find_from(s, mark, from) {
        Some(i) => if mark.len() > 0 && from <= i && i + mark.len() <= s.len() {
            s.subrange(from, i) + with + replaced(s, mark, with, i + mark.len())
        } else {
            s.skip(from)
        },
        None => s.skip(from),
    }
}

/// The prompt `template` with `diff` in each place that a pair of braces
/// holds open for it.
pub open spec fn filled_prompt(template: Seq<char>, diff: Seq<char>) -> Seq<char> {
    replaced(template, "{}"@, diff, 0)
}

/// The prompt `template` with `diff` in each place that a pair of braces
/// holds open for it.
pub fn fill_prompt(template: &str, diff: &str) -> (r: String)
    ensures
        r@ == filled_prompt(template@, diff@),
{
    let text = chars_of(template);
    let with = chars_of(diff);
    let mark = chars_of("{}");
    proof {
        reveal_strlit("{}");
    }
    let n = text.len();
    let mut out: Vec<char> = Vec::new();
    let mut from: usize = 0;
    let mut found = find_in(&text, &mark, from);
    assert(filled_prompt(template@, diff@) =~= out@ + replaced(text@, mark@, with@, 0));
    while found.is_some()
        invariant
            from <= n,
            n == text.len(),
            mark@ == "{}"@,
            mark@.len() == 2,
            with@ == diff@,
            text@ == template@,
            filled_prompt(template@, diff@) == out@ + replaced(
                text@,
                mark@,
                with@,
                from as int,
            ),
            match found {
                Some(i) => find_from(text@, mark@, from as int) == Some(i as int),
                None => find_from(text@, mark@, from as int) is None,
            },
        decreases n - from,
    {
        proof {
            lemma_find_from(text@, mark@, from as int);
        }
        let i = found.unwrap();
        let ghost before = out@;
        append(&mut out, &slice_of(&text, from, i));
        append(&mut out, &with);
        assert(before + (text@.subrange(from as int, i as int) + with@ + replaced(
            text@,
            mark@,
            with@,
            i + 2,
        )) =~= out@ + replaced(text@, mark@, with@, i + 2));
        from = i + mark.len();
        found = find_in(&text, &mark, from);
    }
    assert(text@.skip(from as int) =~= text@.subrange(from as int, n as int));
    append(&mut out, &slice_of(&text, from, n));
    string_of(&out)
}

/// `s` without the slashes at its end.
pub open spec fn without_trailing_slashes(s: Seq<char>) -> Seq<char>
    decreases s.len(),
{
    if s.len() > 0 && s.last() == '/' {
        without_trailing_slashes(s.drop_last())
    } else {
        s
    }
}

/// The address of the chat completions of the service at `base`.
pub open spec fn endpoint_of(base: Seq<char>) -> Seq<char> {
    without_trailing_slashes(base) + "/v1/chat/completions"@
}

/// The address of the chat completions of the service at `api_base_url`.
pub fn completions_endpoint(api_base_url: &str) -> (r: String)
    ensures
        r@ == endpoint_of(api_base_url@),
{
    let base = chars_of(api_base_url);
    let mut end: usize = base.len();
    assert(base@.take(base.len() as int) =~= base@);
    while end > 0 && base[end - 1] == '/'
        invariant
            end <= base.len(),
            without_trailing_slashes(base@) == without_trailing_slashes(base@.take(end as int)),
        decreases end,
    {
        assert(base@.take(end as int).drop_last() =~= base@.take(end - 1));
        end -= 1;
    }
    assert(base@.take(end as int) =~= base@.subrange(0, end as int));
    let mut out = slice_of(&base, 0, end);
    append(&mut out, &chars_of("/v1/chat/completions"));
    string_of(&out)
}

/// The value of the authorization header for the token `api_token`.
pub fn bearer(api_token: &str) -> (r: String)
    ensures
        r@ == "Bearer "@ + api_token@,
{
    let mut out = chars_of("Bearer ");
    append(&mut out, &chars_of(api_token));
    string_of(&out)
}

/// One message of a chat.
#[derive(Debug)]
pub struct Message {
    /// Who speaks: `system` or `user`.
    pub role: String,
    /// What is said.
    pub content: String,
}

/// A request for a chat completion.
#[derive(Debug)]
pub struct OpenAIRequest {
    /// The name of the model that is asked.
    pub model: String,
    /// The chat so far.
    pub messages: Vec<Message>,
}

/// The request that asks `model` with `system_prompt` as the word of the
/// system and `content` as that of the user.
pub fn chat_request(model: &str, system_prompt: &str, content: &str) -> (r: OpenAIRequest)
    ensures
        r.model@ == model@,
        r.messages.len() == 2,
        r.messages[0].role@ == "system"@,
        r.messages[0].content@ == system_prompt@,
        r.messages[1].role@ == "user"@,
        r.messages[1].content@ == content@,
{
    let mut messages: Vec<Message> = Vec::new();
    messages.push(
        Message {
            role: string_of(&chars_of("system")),
            content: string_of(&chars_of(system_prompt)),
        },
    );
    messages.push(
        Message { role: string_of(&chars_of("user")), content: string_of(&chars_of(content)) },
    );
    OpenAIRequest { model: string_of(&chars_of(model)), messages }
}

// ---------------------------------------------------------------------------
// Combining several messages
// ---------------------------------------------------------------------------
/// The first `k` of `messages`, each behind its number, with an empty line
/// between each two.
pub open spec fn numbered(messages: Seq<Seq<char>>, k: int) -> Seq<char>
    decreases k,
{
    if k <= 0 {
        Seq::empty()
    } else if k == 1 {
        numbered_message(messages, 1)
    } else {
        numbered(messages, k - 1) + seq!['\n', '\n'] + numbered_message(messages, k)
    }
}

/// The message with the number `k`, counted from one, behind its number.
pub open spec fn numbered_message(messages: Seq<Seq<char>>, k: int) -> Seq<char> {
    "Message "@ + decimal_of(k as nat) + ": "@ + messages[k - 1]
}

/// The prompt that asks the service to combine `messages` into one.
pub open spec fn combination_prompt_of(messages: Seq<Seq<char>>) -> Seq<char> {
    "Combine the following "@ + decimal_of(messages.len())
        + " commit messages into a single, coherent commit message. Remove any redundancy and create a unified message that captures all the changes. Follow conventional commit format and best practices:\n\n"@
        + numbered(messages, messages.len() as int)
}

/// The prompt that asks the service to combine `messages` into one.
pub fn combination_prompt(messages: &Vec<String>) -> (r: String)
    ensures
        r@ == combination_prompt_of(strings(messages@)),
{
    let ghost all = strings(messages@);
    let mut list: Vec<char> = Vec::new();
    let mut i: usize = 0;
    while i < messages.len()
        invariant
            i <= messages.len(),
            all == strings(messages@),
            list@ == numbered(all, i as int),
        decreases messages.len() - i,
    {
        let ghost before = list@;
        if i > 0 {
            list.push('\n');
            list.push('\n');
        }
        append(&mut list, &chars_of("Message "));
        append(&mut list, &decimal(i + 1));
        append(&mut list, &chars_of(": "));
        append(&mut list, &chars_of(messages[i].as_str()));
        proof {
            assert(all[i as int] == messages@[i as int]@);
            if i > 0 {
                assert(list@ =~= before + seq!['\n', '\n'] + numbered_message(all, i + 1));
            } else {
                assert(list@ =~= numbered_message(all, 1));
            }
        }
        i += 1;
    }
    let mut out = chars_of("Combine the following ");
    append(&mut out, &decimal(messages.len()));
    append(
        &mut out,
        &chars_of(
            " commit messages into a single, coherent commit message. Remove any redundancy and create a unified message that captures all the changes. Follow conventional commit format and best practices:\n\n",
        ),
    );
    append(&mut out, &list);
    string_of(&out)
}

/// What is to be done to combine a number of messages.
#[derive(Debug)]
pub enum Combination {
    /// There is nothing to combine.
    Nothing,
    /// There is one message, which is the result.
    Single(String),
    /// The service is to be asked with this prompt.
    Ask(String),
}

/// What is to be done to combine `messages`: nothing where there is none, the
/// message itself where there is one, and a question to the service where
/// there are more.
pub fn plan_combination(messages: &Vec<String>) -> (r: Combination)
    ensures
        match r {
            Combination::Nothing => messages.len() == 0,
            Combination::Single(m) => messages.len() == 1 && m@ == messages[0]@,
            Combination::Ask(prompt) => messages.len() >= 2 && prompt@ == combination_prompt_of(
                strings(messages@),
            ),
        },
{
    if messages.len() == 0 {
        return Combination::Nothing;
    }
    if messages.len() == 1 {
        return Combination::Single(messages[0].clone());
    }
    Combination::Ask(combination_prompt(messages))
}

} // verus!
