use comment_header::filter::is_source_path;
use comment_header::origin::replace_origin_in_header;
use comment_header::url::normalize_remote_url;

#[test]
fn origin_substitution_end_to_end() {
    let raw = b"https://example.com/repo.git\n".to_vec();
    let url = normalize_remote_url(&raw);
    assert_eq!(url, b"https://example.com/repo".to_vec());
    let template = b"/* from $origin */".to_vec();
    let header = replace_origin_in_header(&template, &url);
    assert_eq!(header, b"/* from https://example.com/repo */".to_vec());
}

#[test]
fn no_token_leaves_header_unchanged() {
    let template = b"/* plain header */".to_vec();
    let origin = b"https://example.com/x".to_vec();
    assert_eq!(replace_origin_in_header(&template, &origin), template);
}

#[test]
fn every_token_occurrence_is_replaced() {
    let template = b"$origin and $origin".to_vec();
    let origin = b"u".to_vec();
    assert_eq!(replace_origin_in_header(&template, &origin), b"u and u".to_vec());
}

#[test]
fn replacement_is_not_rescanned() {
    let template = b"$origin".to_vec();
    let origin = b"see $origin".to_vec();
    assert_eq!(replace_origin_in_header(&template, &origin), b"see $origin".to_vec());
}

#[test]
fn partial_token_is_kept() {
    let template = b"$origi and origin".to_vec();
    let origin = b"u".to_vec();
    assert_eq!(replace_origin_in_header(&template, &origin), b"$origi and origin".to_vec());
}

#[test]
fn trailing_git_suffix_is_stripped() {
    let raw = b"git@example.com:a/b.git".to_vec();
    assert_eq!(normalize_remote_url(&raw), b"git@example.com:a/b".to_vec());
}

#[test]
fn only_one_git_suffix_is_stripped() {
    let raw = b"https://example.com/repo.git.git".to_vec();
    assert_eq!(normalize_remote_url(&raw), b"https://example.com/repo.git".to_vec());
}

#[test]
fn url_without_suffix_is_only_trimmed() {
    let raw = b"\t  https://example.com/repo  \r\n".to_vec();
    assert_eq!(normalize_remote_url(&raw), b"https://example.com/repo".to_vec());
}

#[test]
fn all_whitespace_output_normalizes_to_empty() {
    let raw = b" \t\r\n".to_vec();
    assert_eq!(normalize_remote_url(&raw), Vec::<u8>::new());
}

#[test]
fn git_in_the_middle_is_kept() {
    let raw = b"https://example.com/repo.github.io".to_vec();
    assert_eq!(normalize_remote_url(&raw), b"https://example.com/repo.github.io".to_vec());
}

#[test]
fn markdown_file_is_filtered_out() {
    assert!(!is_source_path(&b"readme.md".to_vec()));
}

#[test]
fn rust_and_csharp_files_pass_the_filter() {
    assert!(is_source_path(&b"lib.rs".to_vec()));
    assert!(is_source_path(&b"app.cs".to_vec()));
    assert!(is_source_path(&b"src/nested/dir/mod.rs".to_vec()));
}

#[test]
fn filter_is_case_sensitive_and_needs_the_dot() {
    assert!(!is_source_path(&b"lib.RS".to_vec()));
    assert!(!is_source_path(&b"rs".to_vec()));
    assert!(is_source_path(&b".rs".to_vec()));
    assert!(!is_source_path(&b"libars".to_vec()));
}
