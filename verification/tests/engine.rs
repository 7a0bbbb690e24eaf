use book_tldr::catalog::get_files;
use book_tldr::engine::dispatch;
use book_tldr::engine::filter;
use book_tldr::engine::matches_record;
use book_tldr::engine::resource_name;
use book_tldr::engine::NameStyle;
use book_tldr::engine::Outcome;
use book_tldr::engine::Query;

fn query(chapter: &str, description: &str, listing: &str, status: &str) -> Query {
    Query {
        chapter: chapter.to_owned(),
        description: description.to_owned(),
        listing: listing.to_owned(),
        status: status.to_owned(),
    }
}

#[test]
fn catalog_contents() {
    let files = get_files();
    assert_eq!(files.len(), 2);
    assert_eq!(files[0].chapter, "1");
    assert_eq!(files[0].description, "test");
    assert_eq!(files[0].listing, "1-1");
    assert_eq!(files[0].status, "desired");
    assert_eq!(files[1].chapter, "2");
    assert_eq!(files[1].description, "another test");
    assert_eq!(files[1].listing, "2-1");
    assert_eq!(files[1].status, "desired");
}

#[test]
fn empty_query_returns_entire_catalog_in_order() {
    let files = get_files();
    let results = filter(&files, &query("", "", "", ""));
    assert_eq!(results, vec![0, 1]);
}

#[test]
fn description_query_matches_both_records() {
    let files = get_files();
    let results = filter(&files, &query("", "test", "", ""));
    assert_eq!(results, vec![0, 1]);
    assert_eq!(dispatch(&results), Outcome::Many);
}

#[test]
fn description_query_with_default_status() {
    let files = get_files();
    let results = filter(&files, &query("", "test", "", "desired"));
    assert_eq!(results, vec![0, 1]);
    assert_eq!(dispatch(&results), Outcome::Many);
}

#[test]
fn chapter_query_matches_one_record() {
    let files = get_files();
    let results = filter(&files, &query("1", "", "", "desired"));
    assert_eq!(results, vec![0]);
    assert_eq!(dispatch(&results), Outcome::Single(0));
    // the single-result path then derives the resource name
    let name = resource_name(&files[0].listing, NameStyle::Direct);
    assert_eq!(name, Some("1-1.md".to_owned()));
}

#[test]
fn chapter_query_matches_nothing() {
    let files = get_files();
    let results = filter(&files, &query("9", "", "", ""));
    assert_eq!(results, Vec::<usize>::new());
    assert_eq!(dispatch(&results), Outcome::NoneFound);
}

#[test]
fn absent_token_excludes_record_despite_other_fields() {
    let files = get_files();
    // "another" occurs only in the second description; chapter "2" also
    // only fits the second record
    let results = filter(&files, &query("2", "another", "", ""));
    assert_eq!(results, vec![1]);
    // an absent description token rules a record out even though every
    // other field is a wildcard
    let results = filter(&files, &query("", "another zzz", "", ""));
    assert_eq!(results, Vec::<usize>::new());
}

#[test]
fn record_match_is_an_and_of_all_fields() {
    let files = get_files();
    assert!(matches_record(&files[0], &query("1", "test", "1-1", "desired")));
    assert!(!matches_record(&files[0], &query("1", "test", "1-1", "done")));
    assert!(!matches_record(&files[0], &query("2", "test", "", "")));
}

#[test]
fn dispatch_by_cardinality() {
    assert_eq!(dispatch(&Vec::new()), Outcome::NoneFound);
    assert_eq!(dispatch(&vec![5]), Outcome::Single(5));
    assert_eq!(dispatch(&vec![0, 1]), Outcome::Many);
    assert_eq!(dispatch(&vec![0, 1, 2]), Outcome::Many);
}

#[test]
fn resource_name_direct() {
    assert_eq!(resource_name("1-1", NameStyle::Direct), Some("1-1.md".to_owned()));
    assert_eq!(resource_name("", NameStyle::Direct), Some(".md".to_owned()));
}

#[test]
fn resource_name_stripped() {
    // bracket-delimited identifiers lose their first and last character
    assert_eq!(resource_name("[1-1]", NameStyle::Stripped), Some("1-1.md".to_owned()));
    assert_eq!(resource_name("1-1", NameStyle::Stripped), Some("-.md".to_owned()));
    assert_eq!(resource_name("ab", NameStyle::Stripped), Some(".md".to_owned()));
}

#[test]
fn resource_name_stripped_needs_two_characters() {
    assert_eq!(resource_name("x", NameStyle::Stripped), None);
    assert_eq!(resource_name("", NameStyle::Stripped), None);
}
