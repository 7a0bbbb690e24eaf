//! The query engine: filter the catalog by a four-field query, decide
//! the presentation path from the number of results, and derive the
//! name of the text resource behind a single matching record.

use vstd::prelude::*;
use vstd::string::*;
use crate::catalog::File;
use crate::catalog::FileView;
use crate::matching::field_matches;
use crate::matching::has_no_space;
use crate::matching::is_substring;
use crate::matching::lemma_token_field_matches;
use crate::matching::split_match;

verus! {

/// A query: one partial string per record field. An empty field string
/// matches every record.
#[derive(Debug, Clone)]
pub struct Query {
    pub chapter: String,
    pub description: String,
    pub listing: String,
    pub status: String,
}

/// The mathematical view of a query: one character sequence per field.
pub struct QueryView {
    pub chapter: Seq<char>,
    pub description: Seq<char>,
    pub listing: Seq<char>,
    pub status: Seq<char>,
}

impl View for Query {
    type V = QueryView;

    open spec fn view(&self) -> QueryView {
        QueryView {
            chapter: self.chapter@,
            description: self.description@,
            listing: self.listing@,
            status: self.status@,
        }
    }
}

/// A record matches a query when every one of the four fields matches:
/// logical AND of four independent per-field tests.
pub open spec fn record_matches(f: FileView, q: QueryView) -> bool {
    &&& field_matches(f.chapter, q.chapter)
    &&& field_matches(f.description, q.description)
    &&& field_matches(f.listing, q.listing)
    &&& field_matches(f.status, q.status)
}

/// The views of a catalog's records, in catalog order.
pub open spec fn catalog_view(cat: Seq<File>) -> Seq<FileView> {
    Seq::new(cat.len(), |i: int| cat[i]@)
}

/// The positions of the records that match `q`, in increasing order.
pub open spec fn matching_indices(cat: Seq<FileView>, q: QueryView) -> Seq<int>
    decreases cat.len(),
{
    if cat.len() == 0 {
        Seq::empty()
    } else {
        let rest = matching_indices(cat.drop_last(), q);
        if record_matches(cat.last(), q) {
            rest.push(cat.len() - 1)
        } else {
            rest
        }
    }
}

/// A sequence of vector indices, as mathematical integers.
pub open spec fn index_views(s: Seq<usize>) -> Seq<int> {
    Seq::new(s.len(), |k: int| s[k] as int)
}

/// Does this record match this query on all four fields?
pub fn matches_record(f: &File, q: &Query) -> (r: bool)
    ensures
        r == record_matches(f@, q@),
{
    split_match(f.chapter.as_str(), q.chapter.as_str()) > 0
        && split_match(f.description.as_str(), q.description.as_str()) > 0
        && split_match(f.listing.as_str(), q.listing.as_str()) > 0
        && split_match(f.status.as_str(), q.status.as_str()) > 0
}

/// Filter the catalog by a query: the positions of exactly the matching
/// records, in catalog order. Results are indices into the catalog, so
/// no record is copied.
pub fn filter(catalog: &Vec<File>, query: &Query) -> (res: Vec<usize>)
    ensures
        index_views(res@) == matching_indices(catalog_view(catalog@), query@),
{
    let mut res: Vec<usize> = Vec::new();
    let mut i: usize = 0;
    proof {
        assert(catalog_view(catalog@).subrange(0, 0) =~= Seq::<FileView>::empty());
        assert(index_views(res@) =~= Seq::<int>::empty());
    }
    while i < catalog.len()
        invariant
            i <= catalog@.len(),
            index_views(res@) == matching_indices(
                catalog_view(catalog@).subrange(0, i as int),
                query@,
            ),
        decreases catalog@.len() - i,
    {
        let m = matches_record(&catalog[i], query);
        proof {
            let cat = catalog_view(catalog@);
            let prefix_then = cat.subrange(0, i + 1);
            assert(prefix_then.drop_last() =~= cat.subrange(0, i as int));
            assert(prefix_then.last() == cat[i as int]);
            assert(cat[i as int] == catalog@[i as int]@);
        }
        if m {
            let ghost old_res = res@;
            res.push(i);
            proof {
                assert(index_views(res@) =~= index_views(old_res).push(i as int));
            }
        }
        i += 1;
    }
    proof {
        assert(catalog_view(catalog@).subrange(0, catalog@.len() as int) =~= catalog_view(
            catalog@,
        ));
    }
    res
}

/// Every field of the query is empty: the query that matches anything.
pub open spec fn all_fields_empty(q: QueryView) -> bool {
    &&& q.chapter.len() == 0
    &&& q.description.len() == 0
    &&& q.listing.len() == 0
    &&& q.status.len() == 0
}

/// A query with all four fields empty matches every record.
pub proof fn lemma_empty_query_matches_record(f: FileView, q: QueryView)
    requires
        all_fields_empty(q),
    ensures
        record_matches(f, q),
{
    lemma_token_field_matches(f.chapter, q.chapter);
    lemma_token_field_matches(f.description, q.description);
    lemma_token_field_matches(f.listing, q.listing);
    lemma_token_field_matches(f.status, q.status);
}

/// A query with all four fields empty selects the entire catalog, in
/// its original order.
pub proof fn lemma_empty_query_returns_catalog(cat: Seq<FileView>, q: QueryView)
    requires
        all_fields_empty(q),
    ensures
        matching_indices(cat, q) == Seq::new(cat.len(), |i: int| i),
    decreases cat.len(),
{
    if cat.len() == 0 {
        assert(matching_indices(cat, q) =~= Seq::new(cat.len(), |i: int| i));
    } else {
        lemma_empty_query_returns_catalog(cat.drop_last(), q);
        lemma_empty_query_matches_record(cat.last(), q);
        assert(matching_indices(cat, q) =~= Seq::new(cat.len(), |i: int| i));
    }
}

/// A record matches a query whose every field is either empty or a
/// single space-free token occurring verbatim in the record's
/// corresponding field. In particular, a query with a single field set
/// to such a token (and the others empty) matches the record.
pub proof fn lemma_verbatim_token_query_matches(f: FileView, q: QueryView)
    requires
        q.chapter.len() == 0 || (has_no_space(q.chapter) && is_substring(f.chapter, q.chapter)),
        q.description.len() == 0 || (has_no_space(q.description) && is_substring(
            f.description,
            q.description,
        )),
        q.listing.len() == 0 || (has_no_space(q.listing) && is_substring(f.listing, q.listing)),
        q.status.len() == 0 || (has_no_space(q.status) && is_substring(f.status, q.status)),
    ensures
        record_matches(f, q),
{
    lemma_token_field_matches(f.chapter, q.chapter);
    lemma_token_field_matches(f.description, q.description);
    lemma_token_field_matches(f.listing, q.listing);
    lemma_token_field_matches(f.status, q.status);
}

/// One failing field blocks the whole record, whatever the other three
/// fields say: AND semantics across fields. Together with the token
/// lemma of the matcher, a query token absent from the corresponding
/// field rules the record out regardless of all other tokens.
pub proof fn lemma_failed_field_blocks_record(f: FileView, q: QueryView)
    requires
        !field_matches(f.chapter, q.chapter) || !field_matches(f.description, q.description)
            || !field_matches(f.listing, q.listing) || !field_matches(f.status, q.status),
    ensures
        !record_matches(f, q),
{
}

/// The filtered positions are exactly those of the matching records:
/// every position returned is in range and matches, every matching
/// position is returned, and the positions come in strictly increasing
/// catalog order.
pub proof fn lemma_matching_indices_exact(cat: Seq<FileView>, q: QueryView)
    ensures
        forall|j: int| 0 <= j < matching_indices(cat, q).len() ==> 0 <= #[trigger] matching_indices(
            cat,
            q,
        )[j] < cat.len() && record_matches(cat[matching_indices(cat, q)[j]], q),
        forall|i: int|
            0 <= i < cat.len() && #[trigger] record_matches(cat[i], q) ==> matching_indices(
                cat,
                q,
            ).contains(i),
        forall|j1: int, j2: int|
            0 <= j1 < j2 < matching_indices(cat, q).len() ==> matching_indices(cat, q)[j1]
                < matching_indices(cat, q)[j2],
    decreases cat.len(),
{
    let res = matching_indices(cat, q);
    if cat.len() == 0 {
    } else {
        let prefix = cat.drop_last();
        let rest = matching_indices(prefix, q);
        lemma_matching_indices_exact(prefix, q);
        assert forall|j: int| 0 <= j < res.len() implies 0 <= #[trigger] res[j] < cat.len()
            && record_matches(cat[res[j]], q) by {
            if j < rest.len() {
                assert(res[j] == rest[j]);
                assert(prefix[rest[j]] == cat[rest[j]]);
            } else {
                assert(res[j] == cat.len() - 1);
                assert(cat.last() == cat[cat.len() - 1]);
            }
        }
        assert forall|i: int|
            0 <= i < cat.len() && #[trigger] record_matches(cat[i], q) implies res.contains(i) by {
            if i < cat.len() - 1 {
                assert(prefix[i] == cat[i]);
                assert(rest.contains(i));
                let j = choose|j: int| 0 <= j < rest.len() && rest[j] == i;
                assert(res[j] == i);
            } else {
                assert(cat.last() == cat[cat.len() - 1]);
                assert(res[rest.len() as int] == i);
            }
        }
        assert forall|j1: int, j2: int| 0 <= j1 < j2 < res.len() implies res[j1] < res[j2] by {
            if j2 < rest.len() {
                assert(res[j1] == rest[j1] && res[j2] == rest[j2]);
            } else {
                assert(res[j1] == rest[j1]);
                assert(rest[j1] < prefix.len());
            }
        }
    }
}

/// The three presentation paths, decided by the number of results.
#[derive(Debug, PartialEq, Eq, Structural)]
pub enum Outcome {
    /// No record matched: report "none found"; not an error.
    NoneFound,
    /// Exactly one record matched, at this catalog position: report its
    /// metadata and look up its text resource.
    Single(usize),
    /// More than one record matched: report metadata only.
    Many,
}

/// Decide the presentation path from the filtered result list.
pub fn dispatch(results: &Vec<usize>) -> (o: Outcome)
    ensures
        results@.len() == 0 ==> o == Outcome::NoneFound,
        results@.len() == 1 ==> o == Outcome::Single(results@[0]),
        results@.len() > 1 ==> o == Outcome::Many,
{
    if results.len() > 1 {
        Outcome::Many
    } else if results.len() == 1 {
        Outcome::Single(results[0])
    } else {
        Outcome::NoneFound
    }
}

/// How a resource name is derived from a listing identifier: the
/// identifier as it stands, or with its first and last character
/// dropped (for bracket-delimited identifiers). Which one applies is
/// configuration, chosen by the caller.
#[derive(Debug, Clone, Copy, PartialEq, Eq, Structural)]
pub enum NameStyle {
    Direct,
    Stripped,
}

/// The derived resource name: the (possibly stripped) listing
/// identifier followed by ".md". Stripping needs at least two
/// characters; on a shorter identifier no name is derived.
pub open spec fn spec_resource_name(listing: Seq<char>, style: NameStyle) -> Option<Seq<char>> {
    match style {
        NameStyle::Direct => Some(listing + ".md"@),
        NameStyle::Stripped => if listing.len() >= 2 {
            Some(listing.subrange(1, listing.len() - 1) + ".md"@)
        } else {
            None
        },
    }
}

/// Derive the name of the text resource behind a listing identifier.
pub fn resource_name(listing: &str, style: NameStyle) -> (name: Option<String>)
    ensures
        name.deep_view() == spec_resource_name(listing@, style),
{
    match style {
        NameStyle::Direct => Some(listing.to_owned().concat(".md")),
        NameStyle::Stripped => {
            let n = listing.unicode_len();
            if n >= 2 {
                let stripped = listing.substring_char(1, n - 1);
                Some(stripped.to_owned().concat(".md"))
            } else {
                None
            }
        },
    }
}

} // verus!
