use book_tldr::matching::split_match;

#[test]
fn empty_query_scores_one() {
    assert_eq!(split_match("anything at all", ""), 1);
    assert_eq!(split_match("", ""), 1);
}

#[test]
fn single_token_present() {
    assert_eq!(split_match("another test", "test"), 1);
    assert_eq!(split_match("1-1", "1-1"), 1);
}

#[test]
fn single_token_absent() {
    assert_eq!(split_match("another test", "zzz"), 0);
    assert_eq!(split_match("", "a"), 0);
}

#[test]
fn score_counts_tokens() {
    assert_eq!(split_match("a b c", "c a"), 2);
    assert_eq!(split_match("a b c", "a b c"), 3);
}

#[test]
fn one_absent_token_zeroes_the_score() {
    assert_eq!(split_match("another test", "test missing"), 0);
    assert_eq!(split_match("another test", "missing test"), 0);
}

#[test]
fn doubled_space_keeps_both_tokens() {
    // "a  b" splits into "a", "", "b"; the empty token is benign and
    // still counts, while "a" and "b" must both occur
    assert_eq!(split_match("ab", "a  b"), 3);
    assert_eq!(split_match("xaxbx", "a  b"), 3);
    assert_eq!(split_match("xa", "a  b"), 0);
    assert_eq!(split_match("xb", "a  b"), 0);
}

#[test]
fn all_space_query_matches_everything() {
    // three empty tokens, each trivially contained
    assert_eq!(split_match("whatever", "  "), 3);
}

#[test]
fn matching_is_case_sensitive() {
    assert_eq!(split_match("Test", "test"), 0);
    assert_eq!(split_match("test", "test"), 1);
}
