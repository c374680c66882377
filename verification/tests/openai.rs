use pj::openai::{
    analysis_prompt, bearer_token, chat_endpoint, clean_analysis_reply, clean_summary_reply,
    first_choice, models_endpoint, strip_leading_chars, strip_trailing_chars, summary_prompt,
    ReplyError, ANALYSIS_INSTRUCTIONS, SUMMARY_INSTRUCTIONS,
};

fn chars(s: &str) -> Vec<char> {
    s.chars().collect()
}

#[test]
fn chat_endpoint_drops_trailing_slashes() {
    assert_eq!(chat_endpoint("https://api.openai.com/v1"), "https://api.openai.com/v1/chat/completions");
    assert_eq!(chat_endpoint("https://api.openai.com/v1/"), "https://api.openai.com/v1/chat/completions");
    assert_eq!(chat_endpoint("http://h///"), "http://h/chat/completions");
    assert_eq!(chat_endpoint(""), "/chat/completions");
    assert_eq!(chat_endpoint("http://h///"), format!("{}/chat/completions", "http://h///".trim_end_matches('/')));
}

#[test]
fn models_endpoint_appends_to_the_address_as_given() {
    assert_eq!(models_endpoint("https://api.openai.com/v1/"), "https://api.openai.com/v1/models");
    assert_eq!(models_endpoint("x"), "xmodels");
}

#[test]
fn bearer_token_prefixes_the_key() {
    assert_eq!(bearer_token("SECRET-REDACTED"), "Bearer SECRET-REDACTED");
}

#[test]
fn prompts_end_with_what_is_to_be_analyzed() {
    assert_eq!(analysis_prompt("fn f() {}"), format!("{}{}", ANALYSIS_INSTRUCTIONS, "fn f() {}"));
    assert_eq!(summary_prompt("[]"), format!("{}{}", SUMMARY_INSTRUCTIONS, "[]"));
    assert!(ANALYSIS_INSTRUCTIONS.ends_with("以下是需要分析的程式碼：\n"));
    assert!(SUMMARY_INSTRUCTIONS.starts_with("分析這個 Rust 專案的所有檔案分析結果"));
}

#[test]
fn first_choice_or_error() {
    assert_eq!(first_choice(vec!["a".to_string(), "b".to_string()]), Ok("a".to_string()));
    assert_eq!(first_choice(vec![]), Err(ReplyError::NoChoice));
    assert_eq!(ReplyError::NoChoice.message(), "AI 未返回任何選項");
    assert_eq!(ReplyError::NoClosingBrace.message(), "在 AI 回應中找不到結束大括號");
}

fn std_clean(content: &str) -> Option<String> {
    let clean = content
        .trim_start_matches("```json")
        .trim_start_matches("```")
        .trim_end_matches("```")
        .trim();
    clean.rfind('}').map(|k| clean[..=k].to_string())
}

#[test]
fn analysis_reply_is_cut_to_its_json() {
    assert_eq!(clean_analysis_reply("```json\n{\"a\": 1}\n```"), Ok("{\"a\": 1}".to_string()));
    assert_eq!(clean_analysis_reply("{\"a\": {}} trailing words"), Ok("{\"a\": {}}".to_string()));
    assert_eq!(clean_analysis_reply("```\n{}\n``````"), Ok("{}".to_string()));
    assert_eq!(clean_analysis_reply("no json here"), Err(ReplyError::NoClosingBrace));
    assert_eq!(clean_analysis_reply(""), Err(ReplyError::NoClosingBrace));
    for case in [
        "```json\n{\"a\": 1}\n```",
        "```json```json```{\"é\": \"}\"}x```",
        "  {\"a\": 1}  ",
        "``` {} ```\n",
        "plain",
        "}",
    ] {
        assert_eq!(clean_analysis_reply(case).ok(), std_clean(case));
    }
}

fn std_summary(content: &str) -> String {
    let content = content.trim();
    if content.starts_with("```json") && content.ends_with("```") {
        content[7..content.len() - 3].trim().to_string()
    } else {
        content.to_string()
    }
}

#[test]
fn summary_reply_loses_its_fence() {
    assert_eq!(clean_summary_reply("  ```json\n{\"total_files\": 1}\n```  "), "{\"total_files\": 1}");
    assert_eq!(clean_summary_reply(" {\"total_files\": 1} "), "{\"total_files\": 1}");
    assert_eq!(clean_summary_reply("```json```"), "");
    assert_eq!(clean_summary_reply("```\n{}\n```"), "```\n{}\n```");
    for case in ["```json\n{}\n```", "```json {} ", "x", "", "```json```", "```json\n{\"é\": 1}```\n"] {
        assert_eq!(clean_summary_reply(case), std_summary(case));
    }
}

#[test]
fn stripping_takes_every_copy() {
    assert_eq!(strip_leading_chars(&chars("ababx"), &chars("ab")), chars("x"));
    assert_eq!(strip_leading_chars(&chars("abab"), &chars("ab")), chars(""));
    assert_eq!(strip_leading_chars(&chars("xab"), &chars("ab")), chars("xab"));
    assert_eq!(strip_leading_chars(&chars("ab"), &chars("")), chars("ab"));
    assert_eq!(strip_trailing_chars(&chars("xabab"), &chars("ab")), chars("x"));
    assert_eq!(strip_trailing_chars(&chars("aaa"), &chars("aa")), chars("a"));
    assert_eq!(strip_trailing_chars(&chars("abx"), &chars("ab")), chars("abx"));
}
