use commit_assist::llm::{
    bearer, chat_request, clean_completion, combination_prompt, completions_endpoint,
    fill_prompt, filter_lines, filter_unwanted_lines, finish_combined_message, is_unwanted_line,
    plan_combination, Combination,
};

#[test]
fn test_filter_unwanted_lines() {
    let input = "Based on the diff, this commit adds a new feature.\nfeat: add user authentication\n\nThis commit implements login functionality.";
    let expected = "feat: add user authentication\n\nThis commit implements login functionality.";
    assert_eq!(filter_unwanted_lines(input), expected);

    let input = "Here's a breakdown of the changes:\n- feat: add new component\n- Updated styling\n\nThe diff shows significant improvements.";
    let expected = "- feat: add new component\n- Updated styling";
    assert_eq!(filter_unwanted_lines(input), expected);

    let input = "feat: implement user dashboard\n\nAdd comprehensive user dashboard with:\n- Profile management\n- Settings panel\n- Activity history";
    let expected = input;
    assert_eq!(filter_unwanted_lines(input), expected);

    let input = "Looking at the changes, I can see that this diff indicates:\nfix: resolve authentication bug\n\nAnalysis of the changes shows this fixes the login issue.";
    let expected = "fix: resolve authentication bug";
    assert_eq!(filter_unwanted_lines(input), expected);

    let input = "\n\nBased on the diff:\nfeat: add new feature\n\n";
    let expected = "feat: add new feature";
    assert_eq!(filter_unwanted_lines(input), expected);

    let input = "the diff shows that we need:\nfeat: update configuration\nFrom what I can see, this is important.";
    let expected = "feat: update configuration";
    assert_eq!(filter_unwanted_lines(input), expected);

    let input = "- Based on the diff, this adds features\n- feat: implement search\n- The changes show improvements";
    let expected = "- feat: implement search";
    assert_eq!(filter_unwanted_lines(input), expected);

    let input = "feat: add diff viewer component\n\nImplements a new diff viewer that shows changes clearly.";
    let expected = input;
    assert_eq!(filter_unwanted_lines(input), expected);

    let input = "This commit appears to be adding a new feature based on the analysis.\nfeat: add search functionality\n\nImplement search with filters.";
    let expected = "feat: add search functionality\n\nImplement search with filters.";
    assert_eq!(filter_unwanted_lines(input), expected);
}

#[test]
fn test_filter_unwanted_lines_edge_cases() {
    assert_eq!(filter_unwanted_lines(""), "");

    let input = "Based on the diff, here's what I can see from the analysis.";
    assert_eq!(filter_unwanted_lines(input), "");

    let input = "The diff indicates:\nfeat: add authentication\n\nBased on the changes:\nfix: resolve bug\n\nLooking at this diff:";
    let expected = "The diff indicates:\nfeat: add authentication\n\nfix: resolve bug";
    assert_eq!(filter_unwanted_lines(input), expected);

    let input = "fix: bug\nThe fix works.";
    let expected = input;
    assert_eq!(filter_unwanted_lines(input), expected);
}

#[test]
fn unwanted_lines_are_known_by_their_start() {
    assert!(is_unwanted_line("based on the diff"));
    assert!(is_unwanted_line("- summary: all"));
    assert!(is_unwanted_line("* it seems fine"));
    assert!(is_unwanted_line("• given the above"));
    assert!(is_unwanted_line("the `diff` says"));
    assert!(is_unwanted_line("taking into account"));
    assert!(!is_unwanted_line("+ summary: all"));
    assert!(!is_unwanted_line("-summary: all"));
    assert!(!is_unwanted_line("a summary: all"));
    assert!(!is_unwanted_line(""));
    // The phrases are in lower case, and so must the line be.
    assert!(!is_unwanted_line("Based on the diff"));
}

#[test]
fn lines_about_the_commit_need_a_word_of_guessing() {
    assert!(is_unwanted_line("this commit appears to add"));
    assert!(is_unwanted_line("this commit seems fine"));
    assert!(is_unwanted_line("this commit is based on x"));
    assert!(is_unwanted_line("this commit adds analysis"));
    assert!(!is_unwanted_line("this commit adds a parser"));
    assert!(!is_unwanted_line("and this commit appears"));
}

#[test]
fn blank_lines_are_kept_behind_a_kept_line_only() {
    assert_eq!(filter_unwanted_lines("\n\na\n\n\nb"), "a\n\n\nb");
    assert_eq!(filter_unwanted_lines("summary: x\n\na"), "a");
    assert_eq!(filter_unwanted_lines("  \n\t\n"), "");
    assert_eq!(filter_unwanted_lines("  a  \n   b  "), "a  \n   b");
    assert_eq!(filter_unwanted_lines("a\r\nSUMMARY: no\r\nb\r\n"), "a\nb");
}

#[test]
fn filter_lines_judges_by_the_forms_it_is_given() {
    let lines = vec!["Keep".to_string(), "Drop".to_string(), "".to_string(), "End ".to_string()];
    let forms =
        vec!["keep".to_string(), "summary: x".to_string(), "".to_string(), "end".to_string()];
    assert_eq!(filter_lines(&lines, &forms), "Keep\n\nEnd");
    let forms = vec!["".to_string(), "x".to_string(), "analysis: y".to_string(), "".to_string()];
    assert_eq!(filter_lines(&lines, &forms), "Drop\nEnd");
    assert_eq!(filter_lines(&vec![], &vec![]), "");
}

#[test]
fn reasoning_is_dropped() {
    assert_eq!(clean_completion("<think>hm</think>feat: x"), "feat: x");
    assert_eq!(clean_completion("a</think>b</think>\nfix: y\n"), "fix: y");
    assert_eq!(clean_completion("feat: x</think>"), "");
    assert_eq!(clean_completion("no reasoning"), "no reasoning");
    assert_eq!(clean_completion("</think"), "</think");
    assert_eq!(clean_completion("<think>x</think>Based on the diff:\nfeat: z"), "feat: z");
    assert_eq!(clean_completion(""), "");
}

#[test]
fn combined_answers_are_stamped() {
    assert_eq!(
        finish_combined_message("feat: implement user authentication and dashboard\n\nAdd login functionality and comprehensive user dashboard with profile management."),
        "✨ feat: implement user authentication and dashboard\n\nAdd login functionality and comprehensive user dashboard with profile management."
    );
    assert_eq!(finish_combined_message("<think>..</think>Summary: x\nFIX: y"), "🐛 FIX: y");
    assert_eq!(finish_combined_message(""), "❓ ");
}

#[test]
fn prompts_are_filled_at_each_pair_of_braces() {
    assert_eq!(fill_prompt("```diff\n{}\n```", "+a"), "```diff\n+a\n```");
    assert_eq!(fill_prompt("{}{} and {}", "x"), "xx and x");
    assert_eq!(fill_prompt("none", "x"), "none");
    assert_eq!(fill_prompt("{ }", "x"), "{ }");
    assert_eq!(fill_prompt("{{}}", "{}"), "{{}}");
    assert_eq!(fill_prompt("", "x"), "");
    assert_eq!(fill_prompt("a{}", ""), "a");
}

#[test]
fn endpoints_lose_the_slashes_at_the_end_of_the_base() {
    assert_eq!(completions_endpoint("http://example.com"), "http://example.com/v1/chat/completions");
    assert_eq!(completions_endpoint("http://example.com///"), "http://example.com/v1/chat/completions");
    assert_eq!(completions_endpoint("http://a/b/"), "http://a/b/v1/chat/completions");
    assert_eq!(completions_endpoint(""), "/v1/chat/completions");
    assert_eq!(completions_endpoint("//"), "/v1/chat/completions");
}

#[test]
fn requests_hold_the_system_and_the_user_message() {
    assert_eq!(bearer("test_token"), "Bearer test_token");
    let request = chat_request("gpt-3.5-turbo", "You are a helpful assistant.", "hello");
    assert_eq!(request.model, "gpt-3.5-turbo");
    assert_eq!(request.messages.len(), 2);
    assert_eq!(request.messages[0].role, "system");
    assert_eq!(request.messages[0].content, "You are a helpful assistant.");
    assert_eq!(request.messages[1].role, "user");
    assert_eq!(request.messages[1].content, "hello");
}

#[test]
fn no_message_gives_nothing_to_combine() {
    assert!(matches!(plan_combination(&vec![]), Combination::Nothing));
}

#[test]
fn a_single_message_is_the_combination() {
    let messages = vec!["feat: add new feature".to_string()];
    match plan_combination(&messages) {
        Combination::Single(message) => assert_eq!(message, messages[0]),
        other => panic!("unexpected plan: {:?}", other),
    }
}

#[test]
fn several_messages_are_numbered_in_the_prompt() {
    let messages =
        vec!["feat: add user authentication".to_string(), "feat: implement user dashboard".to_string()];
    let expected = "Combine the following 2 commit messages into a single, coherent commit message. Remove any redundancy and create a unified message that captures all the changes. Follow conventional commit format and best practices:\n\nMessage 1: feat: add user authentication\n\nMessage 2: feat: implement user dashboard";
    assert_eq!(combination_prompt(&messages), expected);
    match plan_combination(&messages) {
        Combination::Ask(prompt) => assert_eq!(prompt, expected),
        other => panic!("unexpected plan: {:?}", other),
    }
    let many: Vec<String> = (0..12).map(|i| format!("m{}", i)).collect();
    let prompt = combination_prompt(&many);
    assert!(prompt.starts_with("Combine the following 12 commit messages into"));
    assert!(prompt.ends_with("Message 11: m10\n\nMessage 12: m11"));
}
