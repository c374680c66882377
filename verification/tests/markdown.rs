use pj::markdown::{chars_less, collect_dirs, file_name, generate_markdown_report, parent_dir, push_decimal};
use pj::models::{AIAnalysis, CoreStruct, FileAnalysis, FunctionDetail, ProjectSummary};

fn chars(s: &str) -> Vec<char> {
    s.chars().collect()
}

fn strings(items: &[&str]) -> Vec<String> {
    items.iter().map(|s| s.to_string()).collect()
}

fn record(path: &str, analysis: Option<AIAnalysis>) -> FileAnalysis {
    FileAnalysis {
        file_path: path.to_string(),
        loc: 1,
        blank_lines: 0,
        comment_lines: 0,
        code_lines: 1,
        code_hash: String::new(),
        ai_analysis: analysis,
    }
}

#[test]
fn report_without_anything_is_the_title() {
    assert_eq!(generate_markdown_report(None, None), "# Rust 程式碼分析報告\n\n");
}

#[test]
fn summary_section_lists_only_what_is_there() {
    let s = ProjectSummary {
        total_files: 12,
        total_loc: 3405,
        main_features: strings(&["walk", "hash"]),
        code_architecture: "flat".to_string(),
        key_components: vec![],
        tech_stack: strings(&["rust"]),
        recommendations: vec![],
    };
    let expected = "# Rust 程式碼分析報告\n\n## 專案總結\n\n### 基本資訊\n\n- 總檔案數：12\n- 總程式碼行數：3405\n\n### 主要功能\n\n- walk\n- hash\n\n### 程式架構\n\nflat\n\n### 技術堆疊\n\n- rust\n\n---\n\n";
    assert_eq!(generate_markdown_report(None, Some(&s)), expected);
}

#[test]
fn files_are_grouped_by_directory_in_name_order() {
    let ai = AIAnalysis {
        main_functions: strings(&["main"]),
        core_structs: vec![CoreStruct { name: "Args".to_string(), description: "flags".to_string() }],
        error_types: strings(&["io"]),
        functions_details: vec![FunctionDetail {
            name: "run".to_string(),
            description: "runs".to_string(),
            parameters: strings(&["a", "b"]),
            return_type: "()".to_string(),
            complexity: "ignored".to_string(),
        }],
        code_complexity: "low".to_string(),
    };
    let files = vec![record("src/z.rs", None), record("lib/x/y.rs", None), record("src/main.rs", Some(ai))];
    let expected = concat_all(&[
        "# Rust 程式碼分析報告\n\n",
        "## 目錄\n\n",
        "- [lib/x](#lib-x)\n",
        " - [y.rs](#y-rs)\n",
        "- [src](#src)\n",
        " - [z.rs](#z-rs)\n",
        " - [main.rs](#main-rs)\n",
        "\n---\n\n",
        "## lib/x\n\n",
        "### y.rs\n\n---\n\n",
        "## src\n\n",
        "### z.rs\n\n---\n\n",
        "### main.rs\n\n",
        "#### 主要函數\n\n- main\n\n",
        "#### 核心結構體\n\n- **Args**：flags\n\n",
        "#### 錯誤類型\n\n- io\n\n",
        "#### 函數詳情\n\n##### run\n\n- 說明：runs\n- 參數：\n - a\n - b\n- 返回類型：()\n- 複雜度：low\n\n",
        "#### 程式碼複雜度\n\nlow\n\n",
        "---\n\n",
    ]);
    assert_eq!(generate_markdown_report(Some(&files), None), expected);
}

fn concat_all(parts: &[&str]) -> String {
    let mut s = String::new();
    for p in parts {
        s.push_str(p);
    }
    s
}

#[test]
fn empty_analysis_still_shows_the_complexity_heading() {
    let ai = AIAnalysis {
        main_functions: vec![],
        core_structs: vec![],
        error_types: vec![],
        functions_details: vec![],
        code_complexity: String::new(),
    };
    let files = vec![record("a/b.rs", Some(ai))];
    let expected = "# Rust 程式碼分析報告\n\n## 目錄\n\n- [a](#a)\n - [b.rs](#b-rs)\n\n---\n\n## a\n\n### b.rs\n\n#### 程式碼複雜度\n\n\n\n---\n\n";
    assert_eq!(generate_markdown_report(Some(&files), None), expected);
}

#[test]
fn top_level_files_and_the_root_label() {
    let files = vec![record("main.rs", None), record("", None), record("root/r.rs", None)];
    let expected = concat_all(&[
        "# Rust 程式碼分析報告\n\n## 目錄\n\n",
        "- [](#)\n - [main.rs](#main-rs)\n",
        "- [root](#根目錄)\n - [](#)\n - [r.rs](#r-rs)\n",
        "\n---\n\n",
        "## \n\n### main.rs\n\n---\n\n",
        "## 根目錄\n\n### \n\n---\n\n### r.rs\n\n---\n\n",
    ]);
    assert_eq!(generate_markdown_report(Some(&files), None), expected);
}

#[test]
fn empty_file_list_gives_an_empty_table() {
    let expected = "# Rust 程式碼分析報告\n\n## 目錄\n\n\n---\n\n";
    assert_eq!(generate_markdown_report(Some(&vec![]), None), expected);
}

#[test]
fn directory_and_file_name_split_at_the_last_slash() {
    assert_eq!(parent_dir(&chars("a/b/c.rs")), chars("a/b"));
    assert_eq!(file_name(&chars("a/b/c.rs")), chars("c.rs"));
    assert_eq!(parent_dir(&chars("c.rs")), chars(""));
    assert_eq!(file_name(&chars("c.rs")), chars("c.rs"));
    assert_eq!(parent_dir(&chars("")), chars("root"));
    assert_eq!(file_name(&chars("")), chars(""));
    assert_eq!(parent_dir(&chars("/c")), chars(""));
    assert_eq!(file_name(&chars("a/")), chars(""));
}

#[test]
fn directories_are_sorted_and_unique() {
    let files = vec![
        record("b/x.rs", None),
        record("a/x.rs", None),
        record("b/y.rs", None),
        record("ab/x.rs", None),
        record("a/b/x.rs", None),
        record("x.rs", None),
    ];
    let dirs = collect_dirs(&files);
    assert_eq!(dirs, vec![chars(""), chars("a"), chars("a/b"), chars("ab"), chars("b")]);
    let mut std_sorted: Vec<String> = strings(&["b", "a", "ab", "a/b", ""]);
    std_sorted.sort();
    assert_eq!(dirs.iter().map(|d| d.iter().collect::<String>()).collect::<Vec<_>>(), std_sorted);
}

#[test]
fn string_order_is_by_character_then_length() {
    assert!(chars_less(&chars("a"), &chars("b")));
    assert!(chars_less(&chars("a"), &chars("ab")));
    assert!(chars_less(&chars(""), &chars("a")));
    assert!(!chars_less(&chars("a"), &chars("a")));
    assert!(!chars_less(&chars("b"), &chars("ab")));
    assert!(chars_less(&chars("z"), &chars("é")));
}

#[test]
fn decimal_of_numbers() {
    for (n, text) in [(0usize, "0"), (7, "7"), (10, "10"), (3405, "3405"), (usize::MAX, &usize::MAX.to_string())] {
        let mut s = String::from("n=");
        push_decimal(&mut s, n);
        assert_eq!(s, format!("n={}", text));
    }
}
