use pj::analysis::{analyze_code, classify_line, next_block_state, LineKind};
use pj::digest::hex_encode;
use pj::text::{from_chars, split_lines, str_eq, to_chars, trim_chars};

fn chars(s: &str) -> Vec<char> {
    s.chars().collect()
}

#[test]
fn counts_and_fingerprint_of_a_small_file() {
    let stats = analyze_code("fn main() {\n    // hi\n\n    println!(\"x\");\n}\n");
    assert_eq!(stats.loc, 5);
    assert_eq!(stats.blank_lines, 1);
    assert_eq!(stats.comment_lines, 1);
    assert_eq!(stats.code_lines, 3);
    assert_eq!(
        stats.code_hash,
        "0b42a7fe998193706f3de79096c8a27fd1145f2358cb70f6fd06f85aefacf849"
    );
}

#[test]
fn empty_text_has_no_lines_and_the_digest_of_nothing() {
    let stats = analyze_code("");
    assert_eq!(stats.loc, 0);
    assert_eq!(stats.blank_lines, 0);
    assert_eq!(stats.comment_lines, 0);
    assert_eq!(stats.code_lines, 0);
    assert_eq!(
        stats.code_hash,
        "e3b0c44298fc1c149afbf4c8996fb92427ae41e4649b934ca495991b7852b855"
    );
}

#[test]
fn fingerprint_is_the_sha256_of_the_code() {
    let stats = analyze_code("abc");
    assert_eq!(
        stats.code_hash,
        "ba7816bf8f01cfea414140de5dae2223b00361a396177a9cb410ff61f20015ad"
    );
    assert_ne!(stats.code_hash, "abc");
}

#[test]
fn whitespace_and_comment_edits_keep_the_fingerprint() {
    let a = analyze_code("let x = 1;\n");
    let b = analyze_code("\n\n   let x = 1;   \r\n// note\n/* block\n still block\n*/\n");
    assert_eq!(a.code_hash, b.code_hash);
    assert_eq!(b.loc, 7);
    assert_eq!(b.blank_lines, 2);
    assert_eq!(b.comment_lines, 4);
    assert_eq!(b.code_lines, 1);
}

#[test]
fn code_edits_change_the_fingerprint() {
    let a = analyze_code("let x = 1;\n");
    let b = analyze_code("let x = 2;\n");
    assert_ne!(a.code_hash, b.code_hash);
}

#[test]
fn non_ascii_code_is_hashed_as_utf8() {
    let stats = analyze_code("  let y = \"é\";");
    assert_eq!(stats.code_lines, 1);
    assert_eq!(stats.code_hash.len(), 64);
}

#[test]
fn block_comment_state_carries_across_lines() {
    let stats = analyze_code("/* open\ncode inside\n\nstill */ tail\nreal();\n");
    assert_eq!(stats.loc, 5);
    assert_eq!(stats.comment_lines, 3);
    assert_eq!(stats.blank_lines, 1);
    assert_eq!(stats.code_lines, 1);
    assert_eq!(stats.code_hash, analyze_code("real();").code_hash);
}

#[test]
fn one_line_block_comment_closes_itself() {
    let stats = analyze_code("/* note */\nlet a = 0;\n");
    assert_eq!(stats.comment_lines, 1);
    assert_eq!(stats.code_lines, 1);
}

#[test]
fn star_lines_count_as_comments() {
    let stats = analyze_code(" * inner\n*x = 1;\n");
    assert_eq!(stats.comment_lines, 2);
    assert_eq!(stats.code_lines, 0);
}

#[test]
fn classify_line_by_kind() {
    assert_eq!(classify_line(&chars(""), false), LineKind::Blank);
    assert_eq!(classify_line(&chars(""), true), LineKind::Blank);
    assert_eq!(classify_line(&chars("// x"), false), LineKind::Comment);
    assert_eq!(classify_line(&chars("/* x"), false), LineKind::Comment);
    assert_eq!(classify_line(&chars("* x"), false), LineKind::Comment);
    assert_eq!(classify_line(&chars("x"), true), LineKind::Comment);
    assert_eq!(classify_line(&chars("x // y"), false), LineKind::Code);
    assert_eq!(classify_line(&chars("/"), false), LineKind::Code);
}

#[test]
fn block_state_transitions() {
    assert!(next_block_state(&chars("/* a"), false));
    assert!(!next_block_state(&chars("/* a */"), false));
    assert!(next_block_state(&chars("/*/"), false));
    assert!(!next_block_state(&chars("x /* a"), false));
    assert!(next_block_state(&chars("a"), true));
    assert!(!next_block_state(&chars("a */"), true));
    assert!(next_block_state(&chars(""), true));
}

#[test]
fn lines_split_at_line_feeds() {
    assert_eq!(split_lines(&chars("")), Vec::<Vec<char>>::new());
    assert_eq!(split_lines(&chars("\n")), vec![chars("")]);
    assert_eq!(split_lines(&chars("a\n\nb")), vec![chars("a"), chars(""), chars("b")]);
    assert_eq!(split_lines(&chars("a\nb\n")), vec![chars("a"), chars("b")]);
    assert_eq!(split_lines(&chars("a\r\nb")), vec![chars("a\r"), chars("b")]);
}

#[test]
fn trim_removes_unicode_whitespace() {
    assert_eq!(trim_chars(&chars(" \t a b \r\n")), chars("a b"));
    assert_eq!(trim_chars(&chars("\u{3000}x\u{00A0}")), chars("x"));
    assert_eq!(trim_chars(&chars("   ")), chars(""));
    assert_eq!(trim_chars(&chars("")), chars(""));
    assert_eq!(trim_chars(&chars("\u{200B}")), chars("\u{200B}"));
}

#[test]
fn strings_and_chars_convert_both_ways() {
    assert_eq!(to_chars("héllo"), chars("héllo"));
    assert_eq!(from_chars(&chars("héllo")), "héllo");
    assert!(str_eq("abc", "abc"));
    assert!(!str_eq("abc", "abd"));
    assert!(!str_eq("abc", "ab"));
}

#[test]
fn hex_is_lower_case_two_digits_per_byte() {
    assert_eq!(hex_encode(&vec![0x00, 0x0f, 0xa0, 0xff]), "000fa0ff");
    assert_eq!(hex_encode(&vec![]), "");
}

#[test]
fn line_counts_drop_the_fingerprint() {
    let stats = analyze_code("a();\n\n// b\n");
    let counts = stats.line_counts();
    assert_eq!((counts.loc, counts.blank_lines, counts.comment_lines, counts.code_lines), (3, 1, 1, 1));
}
