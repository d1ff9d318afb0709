use gather::CollectedFile;
use gather::FileEntry;
use gather::build_filter;
use gather::estimate_tokens;
use gather::format_markdown;
use gather::format_token_report;
use gather::format_tree;
use gather::format_xml;
use gather::lang_tag;
use gather::parse_output_format;
use gather::select_entries;
use gather::select_paths;
use gather::OutputFormat;

fn entry(name: &str, content: &[u8]) -> FileEntry {
    FileEntry {
        rel_path: name.as_bytes().to_vec(),
        size: content.len() as u64,
        content: Some(content.to_vec()),
    }
}

fn test_entries() -> Vec<FileEntry> {
    vec![
        entry("hello.rs", b"fn main() {}\n"),
        entry("data.json", b"{\"key\": \"value\"}\n"),
        entry("notes.md", b"# Notes\n"),
    ]
}

fn paths_of(files: &[CollectedFile]) -> Vec<String> {
    files
        .iter()
        .map(|f| String::from_utf8(f.relative_path.clone()).unwrap())
        .collect()
}

#[test]
fn test_estimate_tokens() {
    assert_eq!(estimate_tokens(&b"".to_vec()), 0);
    assert_eq!(estimate_tokens(&b"hi".to_vec()), 1); // 2 chars -> ceil(2/4) = 1
    assert_eq!(estimate_tokens(&b"hello world".to_vec()), 3); // 11 chars -> ceil(11/4) = 3
    assert_eq!(estimate_tokens(&b"abcd".to_vec()), 1); // exactly 4 chars -> 1 token
}

#[test]
fn test_is_binary() {
    assert!(!gather::select::is_binary_sample(&b"hello world".to_vec()));
    assert!(gather::select::is_binary_sample(&b"\x00\x01\x02\x03".to_vec()));
}

#[test]
fn test_lang_tag() {
    assert_eq!(lang_tag(&b"main.rs".to_vec()), b"rust".to_vec());
    assert_eq!(lang_tag(&b"app.py".to_vec()), b"python".to_vec());
    assert_eq!(lang_tag(&b"index.js".to_vec()), b"javascript".to_vec());
    assert_eq!(lang_tag(&b"config.toml".to_vec()), b"toml".to_vec());
    assert_eq!(lang_tag(&b"Makefile".to_vec()), b"".to_vec());
}

#[test]
fn test_collect_files_basic() {
    let entries = test_entries();
    let files = select_entries(&entries, &None, &None, 102400);
    assert_eq!(files.len(), 3);

    let paths = paths_of(&files);
    assert!(paths.iter().any(|p| p == "hello.rs"));
    assert!(paths.iter().any(|p| p == "data.json"));
    assert!(paths.iter().any(|p| p == "notes.md"));
}

#[test]
fn test_collect_files_glob_filter() {
    let entries = test_entries();
    let globs = build_filter(&vec![b"*.rs".to_vec()]);
    let files = select_entries(&entries, &globs, &None, 102400);
    assert_eq!(files.len(), 1);
    assert_eq!(files[0].relative_path, b"hello.rs".to_vec());
}

#[test]
fn test_collect_files_exclude() {
    let entries = test_entries();
    let excludes = build_filter(&vec![b"*.json".to_vec()]);
    let files = select_entries(&entries, &None, &excludes, 102400);
    let paths = paths_of(&files);
    assert!(!paths.iter().any(|p| p == "data.json"));
    assert!(paths.iter().any(|p| p == "hello.rs"));
}

#[test]
fn test_collect_files_max_size() {
    let entries = test_entries();
    // All the test entries exceed 5 bytes, so nothing survives.
    let files = select_entries(&entries, &None, &None, 5);
    assert!(files.is_empty());
}

#[test]
fn test_format_markdown() {
    let files = vec![CollectedFile {
        relative_path: b"test.rs".to_vec(),
        content: b"fn main() {}\n".to_vec(),
    }];
    let output = String::from_utf8(format_markdown(&files, false)).unwrap();
    assert!(output.contains("## `test.rs`"));
    assert!(output.contains("```rust"));
    assert!(output.contains("fn main() {}"));
}

#[test]
fn test_format_markdown_with_tokens() {
    let files = vec![CollectedFile {
        relative_path: b"test.rs".to_vec(),
        content: b"fn main() {}\n".to_vec(),
    }];
    let output = String::from_utf8(format_markdown(&files, true)).unwrap();
    assert!(output.contains("<!-- 1 files"));
    assert!(output.contains("tokens -->"));
}

#[test]
fn test_format_xml() {
    let files = vec![CollectedFile {
        relative_path: b"test.rs".to_vec(),
        content: b"fn main() {}\n".to_vec(),
    }];
    let output = String::from_utf8(format_xml(&files, false)).unwrap();
    assert!(output.contains("<context>"));
    assert!(output.contains("<file path=\"test.rs\">"));
    assert!(output.contains("</context>"));
}

#[test]
fn test_format_xml_escapes_special_chars() {
    let files = vec![CollectedFile {
        relative_path: b"test.txt".to_vec(),
        content: b"a < b && c > d\n".to_vec(),
    }];
    let output = String::from_utf8(format_xml(&files, false)).unwrap();
    assert!(output.contains("a &lt; b &amp;&amp; c &gt; d"));
}

#[test]
fn test_selection_sorted_no_duplicates() {
    let entries = vec![
        entry("zeta.rs", b"z\n"),
        entry("alpha.rs", b"a\n"),
        entry("mid/inner.rs", b"m\n"),
        entry("beta.rs", b"b\n"),
    ];
    let files = select_entries(&entries, &None, &None, 102400);
    let paths = paths_of(&files);
    assert_eq!(paths, vec!["alpha.rs", "beta.rs", "mid/inner.rs", "zeta.rs"]);
    for w in paths.windows(2) {
        assert!(w[0] < w[1]);
    }
}

#[test]
fn test_nul_excluded_despite_globs() {
    // A NUL byte among the first 8192 bytes drops the file even when the
    // keep-filter matches it.
    let mut with_nul = b"prefix".to_vec();
    with_nul.push(0);
    with_nul.extend_from_slice(b"suffix");
    let entries = vec![entry("keep.bin", &with_nul), entry("ok.bin", b"plain\n")];
    let globs = build_filter(&vec![b"*.bin".to_vec()]);
    let files = select_entries(&entries, &globs, &None, 102400);
    let paths = paths_of(&files);
    assert_eq!(paths, vec!["ok.bin"]);
}

#[test]
fn test_nul_beyond_sample_kept() {
    // A NUL byte only after the first 8192 bytes does not mark the file
    // binary, and NUL is well-formed UTF-8, so the file survives both gates.
    let mut big = vec![b'a'; 8192];
    big.push(0);
    let entries = vec![entry("big.txt", &big)];
    let files = select_entries(&entries, &None, &None, 102400);
    assert_eq!(files.len(), 1);
}

#[test]
fn test_unreadable_excluded() {
    let entries = vec![FileEntry {
        rel_path: b"locked.txt".to_vec(),
        size: 4,
        content: None,
    }];
    let files = select_entries(&entries, &None, &None, 102400);
    assert!(files.is_empty());
}

#[test]
fn test_invalid_utf8_excluded() {
    let entries = vec![entry("weird.txt", &[0xff, 0xfe, 0x41]), entry("plain.txt", b"ok\n")];
    let files = select_entries(&entries, &None, &None, 102400);
    let paths = paths_of(&files);
    assert_eq!(paths, vec!["plain.txt"]);
}

#[test]
fn test_size_boundary_inclusive() {
    let entries = vec![entry("five.txt", b"12345")];
    let kept = select_entries(&entries, &None, &None, 5);
    assert_eq!(kept.len(), 1);
    let dropped = select_entries(&entries, &None, &None, 4);
    assert!(dropped.is_empty());
}

#[test]
fn test_exclude_wins_over_glob() {
    let entries = test_entries();
    let globs = build_filter(&vec![b"*.rs".to_vec(), b"*.json".to_vec()]);
    let excludes = build_filter(&vec![b"*.json".to_vec()]);
    let files = select_entries(&entries, &globs, &excludes, 102400);
    let paths = paths_of(&files);
    assert_eq!(paths, vec!["hello.rs"]);
}

#[test]
fn test_markdown_exact() {
    let files = vec![CollectedFile {
        relative_path: b"test.rs".to_vec(),
        content: b"fn main() {}\n\n\n".to_vec(),
    }];
    let output = String::from_utf8(format_markdown(&files, false)).unwrap();
    // Trailing newlines are trimmed, so no blank line stands before the
    // closing fence.
    assert_eq!(output, "## `test.rs`\n\n```rust\nfn main() {}\n```\n\n");
}

#[test]
fn test_markdown_summary_exact() {
    let files = vec![CollectedFile {
        relative_path: b"test.rs".to_vec(),
        content: b"fn main() {}\n".to_vec(),
    }];
    // 13 bytes -> ceil(13/4) = 4 tokens.
    let output = String::from_utf8(format_markdown(&files, true)).unwrap();
    assert!(output.starts_with("<!-- 1 files | 13 bytes | ~4 tokens -->\n\n"));
}

#[test]
fn test_xml_exact() {
    let files = vec![CollectedFile {
        relative_path: b"test.txt".to_vec(),
        content: b"a < b && c > d\n".to_vec(),
    }];
    let output = String::from_utf8(format_xml(&files, false)).unwrap();
    assert_eq!(
        output,
        "<context>\n  <file path=\"test.txt\">\na &lt; b &amp;&amp; c &gt; d\n  </file>\n</context>\n"
    );
}

#[test]
fn test_xml_appends_missing_newline() {
    let files = vec![CollectedFile {
        relative_path: b"t".to_vec(),
        content: b"x".to_vec(),
    }];
    let output = String::from_utf8(format_xml(&files, false)).unwrap();
    assert_eq!(output, "<context>\n  <file path=\"t\">\nx\n  </file>\n</context>\n");
}

#[test]
fn test_xml_meta_exact() {
    let files = vec![CollectedFile {
        relative_path: b"test.rs".to_vec(),
        content: b"fn main() {}\n".to_vec(),
    }];
    let output = String::from_utf8(format_xml(&files, true)).unwrap();
    assert!(output.contains("  <meta files=\"1\" tokens=\"~4\"/>\n"));
}

#[test]
fn test_parse_output_format() {
    assert_eq!(parse_output_format(&b"markdown".to_vec()), Some(OutputFormat::Markdown));
    assert_eq!(parse_output_format(&b"md".to_vec()), Some(OutputFormat::Markdown));
    assert_eq!(parse_output_format(&b"MD".to_vec()), Some(OutputFormat::Markdown));
    assert_eq!(parse_output_format(&b"xml".to_vec()), Some(OutputFormat::Xml));
    assert_eq!(parse_output_format(&b"XML".to_vec()), Some(OutputFormat::Xml));
    assert_eq!(parse_output_format(&b"json".to_vec()), None);
}

#[test]
fn test_token_report_exact() {
    let files = vec![CollectedFile {
        relative_path: b"test.rs".to_vec(),
        content: b"fn main() {}\n".to_vec(),
    }];
    let output = String::from_utf8(format_token_report(&files)).unwrap();
    assert_eq!(
        output,
        "       4 tokens        13 bytes  test.rs\n\n       4 tokens        13 bytes  total (1 files)\n"
    );
}

#[test]
fn test_tree_select_and_format() {
    let paths = vec![
        b"src/lib.rs".to_vec(),
        b"README.md".to_vec(),
        b"src/deep/mod.rs".to_vec(),
    ];
    let globs = build_filter(&vec![b"**/*.rs".to_vec()]);
    let kept = select_paths(&paths, &globs, &None);
    assert_eq!(kept, vec![b"src/deep/mod.rs".to_vec(), b"src/lib.rs".to_vec()]);

    let output = String::from_utf8(format_tree(&b"proj".to_vec(), &kept)).unwrap();
    assert_eq!(output, "proj/\n    mod.rs\n  lib.rs\n\n2 files\n");
}

#[test]
fn test_round_trip_xml() {
    // Rendering and informally re-extracting recovers the pairs, each
    // content up to one trailing-newline normalization.
    let files = vec![
        CollectedFile {
            relative_path: b"a.txt".to_vec(),
            content: b"one < two\n".to_vec(),
        },
        CollectedFile {
            relative_path: b"b.txt".to_vec(),
            content: b"no newline & done".to_vec(),
        },
    ];
    let output = String::from_utf8(format_xml(&files, false)).unwrap();
    let mut recovered: Vec<(String, String)> = Vec::new();
    let mut rest = output.as_str();
    while let Some(open) = rest.find("  <file path=\"") {
        let after = &rest[open + 14..];
        let qe = after.find('"').unwrap();
        let path = &after[..qe];
        let body_start = qe + 3; // past the quote, the bracket, the newline
        let body_rest = &after[body_start..];
        let close = body_rest.find("  </file>\n").unwrap();
        let body = &body_rest[..close];
        let unescaped = body.replace("&lt;", "<").replace("&gt;", ">").replace("&amp;", "&");
        recovered.push((path.to_string(), unescaped));
        rest = &body_rest[close..];
        rest = &rest[10..];
    }
    assert_eq!(
        recovered,
        vec![
            ("a.txt".to_string(), "one < two\n".to_string()),
            ("b.txt".to_string(), "no newline & done\n".to_string()),
        ]
    );
}

#[test]
fn test_round_trip_markdown() {
    let files = vec![
        CollectedFile {
            relative_path: b"a.rs".to_vec(),
            content: b"fn a() {}\n".to_vec(),
        },
        CollectedFile {
            relative_path: b"b.md".to_vec(),
            content: b"# Title\nbody\n".to_vec(),
        },
    ];
    let output = String::from_utf8(format_markdown(&files, false)).unwrap();
    let mut recovered: Vec<(String, String)> = Vec::new();
    let mut rest = output.as_str();
    while let Some(open) = rest.find("## `") {
        let after = &rest[open + 4..];
        let pe = after.find("`\n").unwrap();
        let path = &after[..pe];
        let fence_open = after.find("\n```").unwrap();
        let body_after = &after[fence_open + 4..];
        let line_end = body_after.find('\n').unwrap();
        let body_rest = &body_after[line_end + 1..];
        let close = body_rest.find("\n```\n").unwrap();
        let body = &body_rest[..close];
        recovered.push((path.to_string(), format!("{body}\n")));
        rest = &body_rest[close + 5..];
    }
    assert_eq!(
        recovered,
        vec![
            ("a.rs".to_string(), "fn a() {}\n".to_string()),
            ("b.md".to_string(), "# Title\nbody\n".to_string()),
        ]
    );
}

#[test]
fn test_empty_selection_reported() {
    // With a limit below every file's size the selection is empty; both the
    // collect mode and the token mode treat that as the empty-result error.
    let entries = test_entries();
    let files = select_entries(&entries, &None, &None, 5);
    assert!(files.is_empty());
    let report = String::from_utf8(format_token_report(&files)).unwrap();
    assert_eq!(report, "\n       0 tokens         0 bytes  total (0 files)\n");
}
