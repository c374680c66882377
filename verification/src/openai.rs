//! What is said to the analysis service and what is made of its replies:
//! endpoints, prompts, and the cleaning of a reply down to its JSON text.
//! Sending and parsing are the caller's.

use crate::text::{
    chars_end_with, chars_start_with, ends_with, from_chars, slice_chars, starts_with, to_chars,
    trim, trim_bounds, trim_chars,
};
use vstd::prelude::*;
use vstd::string::StringExecFns;

verus! {

/// The endpoint used where none is configured.
pub const DEFAULT_API_URL: &'static str = "https://api.openai.com/v1";

/// The model used where none is configured.
pub const DEFAULT_MODEL: &'static str = "gpt-3.5-turbo";

/// What the service is told it is, before it is asked to analyze a file.
pub const ANALYSIS_SYSTEM_MESSAGE: &'static str = "你是一個 Rust 程式碼分析專家。";

/// What the service is told it is, before it is asked for a project summary.
pub const SUMMARY_SYSTEM_MESSAGE: &'static str =
    "你是一個專業的 Rust 程式碼分析助手。請分析提供的程式碼並生成結構化的專案總結。請直接返回純 JSON 格式，不要包含任何 markdown 程式碼區塊標記。";

/// The instructions that precede the code in a request to analyze a file.
pub const ANALYSIS_INSTRUCTIONS: &'static str =
    "分析這個 Rust 文件並直接返回 JSON 格式的結構化信息，不要加入任何 markdown 標記。JSON 格式如下：\n{\n\"main_functions\": [\"主要函數清單\"],\n\"core_structs\": [\n{\n\"name\": \"結構體名稱\",\n\"description\": \"結構體描述\"\n}\n],\n\"error_types\": [\"錯誤類型清單\"],\n\"functions_details\": [\n{\n\"name\": \"函數名稱\",\n\"description\": \"函數描述\",\n\"parameters\": [\"參數清單\"],\n\"return_type\": \"返回類型\"\n}\n],\n\"code_complexity\": \"程式碼複雜度評估\"\n}\n以下是需要分析的程式碼：\n";

/// The instructions that precede the file records in a request for a project
/// summary.
pub const SUMMARY_INSTRUCTIONS: &'static str =
    "分析這個 Rust 專案的所有檔案分析結果，並生成一個總結。請直接返回 JSON 格式，不要加入任何程式碼區塊標記或其他文字。JSON 格式如下：\n{\n\"total_files\": 檔案總數,\n\"total_loc\": 總程式碼行數,\n\"main_features\": [\n\"主要功能1\",\n\"主要功能2\"\n],\n\"code_architecture\": \"專案架構的描述\",\n\"key_components\": [\n\"關鍵元件1\",\n\"關鍵元件2\"\n],\n\"tech_stack\": [\n\"使用的技術1\",\n\"使用的技術2\"\n],\n\"recommendations\": [\n\"改進建議1\",\n\"改進建議2\"\n]\n}\n以下是專案的檔案分析結果：\n";

/// How sure of itself the service is asked to be when it analyzes a file, in
/// tenths.
pub const ANALYSIS_TEMPERATURE_TENTHS: u32 = 2;

/// How long a request to analyze a file may take, in seconds.
pub const ANALYSIS_TIMEOUT_SECS: u64 = 30;

/// Why a reply could not be used.
#[derive(Debug, Clone, Copy, PartialEq, Eq, Structural)]
pub enum ReplyError {
    /// The service offered no choice.
    NoChoice,
    /// The reply holds no closing brace, so no JSON object.
    NoClosingBrace,
}

impl ReplyError {
    /// The message shown for the error.
    pub fn message(&self) -> (r: &'static str)
        ensures
            r@ == match self {
                ReplyError::NoChoice => "AI 未返回任何選項"@,
                ReplyError::NoClosingBrace => "在 AI 回應中找不到結束大括號"@,
            },
    {
        match self {
            ReplyError::NoChoice => "AI 未返回任何選項",
            ReplyError::NoClosingBrace => "在 AI 回應中找不到結束大括號",
        }
    }
}

/// `s` without every leading copy of `p`.
pub open spec fn strip_leading(s: Seq<char>, p: Seq<char>) -> Seq<char>
    decreases s.len(),
{
    if p.len() > 0 && starts_with(s, p) {
        strip_leading(s.skip(p.len() as int), p)
    } else {
        s
    }
}

/// `s` without every trailing copy of `p`.
pub open spec fn strip_trailing(s: Seq<char>, p: Seq<char>) -> Seq<char>
    decreases s.len(),
{
    if p.len() > 0 && ends_with(s, p) {
        strip_trailing(s.take(s.len() - p.len()), p)
    } else {
        s
    }
}

/// Removes every leading copy of `p` from `v`.
pub fn strip_leading_chars(v: &Vec<char>, p: &Vec<char>) -> (r: Vec<char>)
    ensures
        r@ == strip_leading(v@, p@),
{
    let n: usize = v.len();
    let m: usize = p.len();
    if m == 0 {
        return slice_chars(v, 0, n);
    }
    let mut lo: usize = 0;
    assert(v@.skip(0) == v@);
    loop
        invariant
            n == v.len(),
            m == p.len(),
            m > 0,
            lo <= n,
            strip_leading(v@, p@) == strip_leading(v@.skip(lo as int), p@),
        decreases n - lo,
    {
        let rest = slice_chars(v, lo, n);
        assert(rest@ == v@.skip(lo as int));
        if !chars_start_with(&rest, p) {
            return rest;
        }
        assert(v@.skip(lo as int).skip(m as int) == v@.skip(lo + m));
        lo = lo + m;
    }
}

/// Removes every trailing copy of `p` from `v`.
pub fn strip_trailing_chars(v: &Vec<char>, p: &Vec<char>) -> (r: Vec<char>)
    ensures
        r@ == strip_trailing(v@, p@),
{
    let n: usize = v.len();
    let m: usize = p.len();
    if m == 0 {
        return slice_chars(v, 0, n);
    }
    let mut hi: usize = n;
    assert(v@.take(n as int) == v@);
    loop
        invariant
            n == v.len(),
            m == p.len(),
            m > 0,
            hi <= n,
            strip_trailing(v@, p@) == strip_trailing(v@.take(hi as int), p@),
        decreases hi,
    {
        let rest = slice_chars(v, 0, hi);
        assert(rest@ == v@.take(hi as int));
        if !chars_end_with(&rest, p) {
            return rest;
        }
        assert(v@.take(hi as int).take(hi - m) == v@.take(hi - m));
        hi = hi - m;
    }
}

/// The address of the chat endpoint under `api_url`: the address without its
/// trailing slashes, then `/chat/completions`.
pub open spec fn chat_endpoint_of(api_url: Seq<char>) -> Seq<char> {
    strip_trailing(api_url, seq!['/']) + "/chat/completions"@
}

/// The address of the chat endpoint under `api_url`.
pub fn chat_endpoint(api_url: &str) -> (r: String)
    ensures
        r@ == chat_endpoint_of(api_url@),
{
    let slash: Vec<char> = vec!['/'];
    assert(slash@ == seq!['/']);
    let base = strip_trailing_chars(&to_chars(api_url), &slash);
    let mut r = from_chars(&base);
    r.append("/chat/completions");
    r
}

/// The address of the list of models under `api_url`: the address as it is,
/// then `models`.
pub fn models_endpoint(api_url: &str) -> (r: String)
    ensures
        r@ == api_url@ + "models"@,
{
    let mut r = String::new();
    r.append(api_url);
    r.append("models");
    assert(r@ =~= api_url@ + "models"@);
    r
}

/// The value of the `Authorization` header for `api_key`.
pub fn bearer_token(api_key: &str) -> (r: String)
    ensures
        r@ == "Bearer "@ + api_key@,
{
    let mut r = String::new();
    r.append("Bearer ");
    r.append(api_key);
    assert(r@ =~= "Bearer "@ + api_key@);
    r
}

/// The request to analyze `code`: the instructions, then the code.
pub fn analysis_prompt(code: &str) -> (r: String)
    ensures
        r@ == ANALYSIS_INSTRUCTIONS@ + code@,
{
    let mut r = String::new();
    r.append(ANALYSIS_INSTRUCTIONS);
    r.append(code);
    assert(r@ =~= ANALYSIS_INSTRUCTIONS@ + code@);
    r
}

/// The request to summarize the records written out in `analyses_json`: the
/// instructions, then the records.
pub fn summary_prompt(analyses_json: &str) -> (r: String)
    ensures
        r@ == SUMMARY_INSTRUCTIONS@ + analyses_json@,
{
    let mut r = String::new();
    r.append(SUMMARY_INSTRUCTIONS);
    r.append(analyses_json);
    assert(r@ =~= SUMMARY_INSTRUCTIONS@ + analyses_json@);
    r
}

/// The first of the choices that the service offered.
pub fn first_choice(choices: Vec<String>) -> (r: Result<String, ReplyError>)
    ensures
        match r {
            Ok(s) => choices.len() > 0 && s@ == choices@[0]@,
            Err(e) => choices.len() == 0 && e == ReplyError::NoChoice,
        },
{
    if choices.len() == 0 {
        Err(ReplyError::NoChoice)
    } else {
        Ok(choices[0].clone())
    }
}

/// The index of the last `}` of `s`, if it holds one.
pub open spec fn last_brace(s: Seq<char>) -> Option<int>
    decreases s.len(),
{
    if s.len() == 0 {
        None
    } else if s.last() == '}' {
        Some(s.len() - 1)
    } else {
        last_brace(s.drop_last())
    }
}

/// A reply without its code fences: every leading ```` ```json ````, then
/// every leading ```` ``` ````, then every trailing ```` ``` ```` is taken off,
/// and what is left is trimmed.
pub open spec fn unfenced(content: Seq<char>) -> Seq<char> {
    trim(strip_trailing(strip_leading(strip_leading(content, "```json"@), "```"@), "```"@))
}

/// The JSON text of the reply to a file analysis: the unfenced reply up to
/// and including its last `}`.
pub open spec fn analysis_json(content: Seq<char>) -> Option<Seq<char>> {
    match last_brace(unfenced(content)) {
        Some(k) => Some(unfenced(content).take(k + 1)),
        None => None,
    }
}

/// Cuts the reply to a file analysis down to its JSON text.
pub fn clean_analysis_reply(content: &str) -> (r: Result<String, ReplyError>)
    ensures
        match r {
            Ok(json) => analysis_json(content@) == Some(json@),
            Err(e) => analysis_json(content@) is None && e == ReplyError::NoClosingBrace,
        },
{
    let fence_json = to_chars("```json");
    let fence = to_chars("```");
    let a = strip_leading_chars(&to_chars(content), &fence_json);
    let b = strip_leading_chars(&a, &fence);
    let c = strip_trailing_chars(&b, &fence);
    let clean = trim_chars(&c);
    assert(clean@ == unfenced(content@));
    let mut k: usize = clean.len();
    assert(clean@.take(k as int) == clean@);
    while k > 0
        invariant
            k <= clean.len(),
            clean@ == unfenced(content@),
            last_brace(clean@) == last_brace(clean@.take(k as int)),
        decreases k,
    {
        assert(clean@.take(k as int).drop_last() == clean@.take(k - 1));
        if clean[k - 1] == '}' {
            let json = slice_chars(&clean, 0, k);
            assert(clean@.take(k as int).last() == clean@[k - 1]);
            assert(last_brace(clean@.take(k as int)) == Some(k - 1));
            assert(clean@.subrange(0, k as int) == clean@.take(k - 1 + 1));
            return Ok(from_chars(&json));
        }
        k -= 1;
    }
    Err(ReplyError::NoClosingBrace)
}

/// The JSON text of the reply to a summary request: the trimmed reply, and
/// where that opens with ```` ```json ```` and closes with ```` ``` ````, what
/// stands between the two, trimmed again.
pub open spec fn summary_json(content: Seq<char>) -> Seq<char> {
    let t = trim(content);
    if t.len() >= 10 && starts_with(t, "```json"@) && ends_with(t, "```"@) {
        trim(t.subrange(7, t.len() - 3))
    } else {
        t
    }
}

/// Cuts the reply to a summary request down to its JSON text.
pub fn clean_summary_reply(content: &str) -> (r: String)
    ensures
        r@ == summary_json(content@),
{
    let t = trim_chars(&to_chars(content));
    let fence_json = to_chars("```json");
    let fence = to_chars("```");
    if t.len() >= 10 && chars_start_with(&t, &fence_json) && chars_end_with(&t, &fence) {
        let inner = slice_chars(&t, 7, t.len() - 3);
        from_chars(&trim_chars(&inner))
    } else {
        from_chars(&t)
    }
}

/// A trimmed reply that opens with ```` ```json ```` and closes with
/// ```` ``` ```` holds at least the two fences, so the length asked for in
/// `summary_json` leaves no such reply out.
pub proof fn lemma_fenced_reply_is_long(t: Seq<char>)
    requires
        starts_with(t, "```json"@),
        ends_with(t, "```"@),
    ensures
        t.len() >= 10,
{
    reveal_strlit("```json");
    reveal_strlit("```");
    let open = "```json"@;
    let close = "```"@;
    assert(open.len() == 7 && close.len() == 3);
    assert(t.take(7)[3] == 'j' && t.take(7)[4] == 's' && t.take(7)[5] == 'o' && t.take(7)[6] == 'n');
    if t.len() < 10 {
        let tail = t.skip(t.len() - 3);
        assert(tail[0] == '`' && tail[1] == '`' && tail[2] == '`');
        assert(tail[0] == t[t.len() - 3]);
        assert(tail[1] == t[t.len() - 2]);
        assert(tail[2] == t[t.len() - 1]);
        assert(t[t.len() - 1] == '`');
        assert(t.take(7)[6] == t[6]);
        assert(t.take(7)[5] == t[5]);
        assert(t.take(7)[4] == t[4]);
    }
}

} // verus!
