use comment_header::rewrite::{rewrite_content, RewriteOutcome};

fn expect_replace(r: RewriteOutcome) -> Vec<u8> {
    match r {
        RewriteOutcome::Replace(nc) => nc,
        RewriteOutcome::Skip => panic!("expected a replacement, file was skipped"),
        RewriteOutcome::Add(_) => panic!("expected a replacement, header was added"),
    }
}

fn expect_add(r: RewriteOutcome) -> Vec<u8> {
    match r {
        RewriteOutcome::Add(nc) => nc,
        RewriteOutcome::Skip => panic!("expected an addition, file was skipped"),
        RewriteOutcome::Replace(_) => panic!("expected an addition, header was replaced"),
    }
}

fn expect_skip(r: RewriteOutcome) {
    match r {
        RewriteOutcome::Skip => (),
        RewriteOutcome::Replace(_) => panic!("expected a skip, header was replaced"),
        RewriteOutcome::Add(_) => panic!("expected a skip, header was added"),
    }
}

#[test]
fn detection_replaces_old_header() {
    let content = b"/* old header spanning\nmultiple lines */\nbody".to_vec();
    let header = b"/* NEW */".to_vec();
    let nc = expect_replace(rewrite_content(&content, &header));
    assert_eq!(nc, b"/* NEW */\nbody".to_vec());
}

#[test]
fn insertion_adds_header() {
    let content = b"fn main() {}".to_vec();
    let header = b"/* HEADER */".to_vec();
    let nc = expect_add(rewrite_content(&content, &header));
    assert_eq!(nc, b"/* HEADER */\nfn main() {}".to_vec());
}

#[test]
fn skip_when_up_to_date() {
    let content = b"/* HEADER */\nfn main() {}".to_vec();
    let header = b"/* HEADER */".to_vec();
    expect_skip(rewrite_content(&content, &header));
}

#[test]
fn second_run_skips_after_replace() {
    let content = b"/* old */\nbody".to_vec();
    let header = b"/* canonical */".to_vec();
    let first = expect_replace(rewrite_content(&content, &header));
    assert_eq!(first, b"/* canonical */\nbody".to_vec());
    expect_skip(rewrite_content(&first, &header));
}

#[test]
fn second_run_skips_after_add() {
    let content = b"struct S;".to_vec();
    let header = b"/* canonical */".to_vec();
    let first = expect_add(rewrite_content(&content, &header));
    assert_eq!(first, b"/* canonical */\nstruct S;".to_vec());
    expect_skip(rewrite_content(&first, &header));
}

#[test]
fn whitespace_before_header_is_part_of_match() {
    let content = b"\n  /* old */rest".to_vec();
    let header = b"/* NEW */".to_vec();
    let nc = expect_replace(rewrite_content(&content, &header));
    assert_eq!(nc, b"/* NEW */rest".to_vec());
}

#[test]
fn unterminated_comment_gets_header_added() {
    let content = b"/* never closed".to_vec();
    let header = b"/* H */".to_vec();
    let nc = expect_add(rewrite_content(&content, &header));
    assert_eq!(nc, b"/* H */\n/* never closed".to_vec());
}

#[test]
fn closer_cannot_overlap_opener() {
    // "/*/" holds no complete block comment: the closing "*/" may not reuse
    // the opener's "*", so the header is added, not replaced.
    let content = b"/*/".to_vec();
    let header = b"/* H */".to_vec();
    let nc = expect_add(rewrite_content(&content, &header));
    assert_eq!(nc, b"/* H */\n/*/".to_vec());
}

#[test]
fn empty_header_without_match_skips() {
    let content = b"fn main() {}".to_vec();
    let header = Vec::new();
    expect_skip(rewrite_content(&content, &header));
}

#[test]
fn empty_header_with_match_strips_comment() {
    let content = b"/* old */rest".to_vec();
    let header = Vec::new();
    let nc = expect_replace(rewrite_content(&content, &header));
    assert_eq!(nc, b"rest".to_vec());
}

#[test]
fn leading_doc_comment_is_taken_for_the_header() {
    // Detection is purely syntactic: any leading block comment is replaced.
    let content = b"/** docs */\ncode".to_vec();
    let header = b"/* H */".to_vec();
    let nc = expect_replace(rewrite_content(&content, &header));
    assert_eq!(nc, b"/* H */\ncode".to_vec());
}

#[test]
fn second_run_skips_with_whitespace_led_header() {
    let content = b"mod a;".to_vec();
    let header = b"\n/* canonical */".to_vec();
    let first = expect_add(rewrite_content(&content, &header));
    assert_eq!(first, b"\n/* canonical */\nmod a;".to_vec());
    expect_skip(rewrite_content(&first, &header));
}

#[test]
fn header_that_is_no_block_comment_is_added_again() {
    // A header the grammar does not match back (here: plain text) is added
    // on every run; stability needs a header that ends at its own "*/".
    let content = b"mod a;".to_vec();
    let header = b"HELLO".to_vec();
    let first = expect_add(rewrite_content(&content, &header));
    assert_eq!(first, b"HELLO\nmod a;".to_vec());
    let second = expect_add(rewrite_content(&first, &header));
    assert_eq!(second, b"HELLO\nHELLO\nmod a;".to_vec());
}

#[test]
fn only_first_comment_is_touched() {
    let content = b"/* a */ x /* b */".to_vec();
    let header = b"/* H */".to_vec();
    let nc = expect_replace(rewrite_content(&content, &header));
    assert_eq!(nc, b"/* H */ x /* b */".to_vec());
}
