//! The field matcher: a query string is split on the space character
//! into tokens (empty tokens from doubled spaces are kept), and a source
//! field matches when every token occurs in it as a literal substring.
//! The score is the number of tokens when all occur, and zero otherwise,
//! so a positive score is the only success signal.

use vstd::prelude::*;
use vstd::string::*;

verus! {

/// `sub` occurs in `s` as a contiguous run starting at position `i`.
pub open spec fn is_substring_at(s: Seq<char>, sub: Seq<char>, i: int) -> bool {
    0 <= i && i + sub.len() <= s.len() && s.subrange(i, i + sub.len()) == sub
}

/// `sub` occurs somewhere in `s` as a contiguous run.
pub open spec fn is_substring(s: Seq<char>, sub: Seq<char>) -> bool {
    exists|i: int| is_substring_at(s, sub, i)
}

/// The empty string occurs in every string.
pub proof fn lemma_empty_is_substring(s: Seq<char>)
    ensures
        is_substring(s, Seq::<char>::empty()),
{
    assert(s.subrange(0, 0) =~= Seq::<char>::empty());
    assert(is_substring_at(s, Seq::<char>::empty(), 0));
}

/// The tokens of `q`: maximal runs between space characters, in order,
/// with empty runs kept. The split of the empty string is one empty
/// token, so there is always at least one token.
pub open spec fn tokens_of(q: Seq<char>) -> Seq<Seq<char>>
    decreases q.len(),
{
    if q.len() == 0 {
        seq![Seq::<char>::empty()]
    } else if q[0] == ' ' {
        seq![Seq::<char>::empty()] + tokens_of(q.skip(1))
    } else {
        let rest = tokens_of(q.skip(1));
        seq![seq![q[0]] + rest[0]] + rest.skip(1)
    }
}

/// A split always yields at least one token.
pub proof fn lemma_tokens_nonempty(q: Seq<char>)
    ensures
        tokens_of(q).len() >= 1,
    decreases q.len(),
{
    if q.len() > 0 {
        lemma_tokens_nonempty(q.skip(1));
    }
}

/// Every token of `q` occurs in `source` as a substring.
pub open spec fn all_tokens_match(source: Seq<char>, ts: Seq<Seq<char>>) -> bool {
    forall|k: int| 0 <= k < ts.len() ==> is_substring(source, ts[k])
}

/// The match score of one query string against one source field: the
/// number of tokens when every token is a substring of the source, and
/// zero otherwise. An empty query splits into one (empty) token, which
/// every source contains, so an empty query always scores one.
pub open spec fn match_score(source: Seq<char>, query: Seq<char>) -> nat {
    if all_tokens_match(source, tokens_of(query)) {
        tokens_of(query).len()
    } else {
        0
    }
}

/// A source field satisfies a query string when the score is positive.
pub open spec fn field_matches(source: Seq<char>, query: Seq<char>) -> bool {
    match_score(source, query) > 0
}

/// `t` contains no space character, so splitting cannot divide it.
pub open spec fn has_no_space(t: Seq<char>) -> bool {
    forall|i: int| 0 <= i < t.len() ==> t[i] != ' '
}

/// An empty query string scores exactly one against every source.
pub proof fn lemma_empty_query_scores_one(source: Seq<char>)
    ensures
        match_score(source, Seq::<char>::empty()) == 1,
{
    let q = Seq::<char>::empty();
    let ts = tokens_of(q);
    assert(ts =~= seq![Seq::<char>::empty()]);
    assert forall|k: int| 0 <= k < ts.len() implies is_substring(source, ts[k]) by {
        lemma_empty_is_substring(source);
    }
    assert(all_tokens_match(source, ts));
}

/// A string without spaces splits into exactly itself.
pub proof fn lemma_no_space_single_token(t: Seq<char>)
    requires
        has_no_space(t),
    ensures
        tokens_of(t) == seq![t],
    decreases t.len(),
{
    if t.len() == 0 {
        assert(t =~= Seq::<char>::empty());
        assert(tokens_of(t) =~= seq![t]);
    } else {
        assert(t[0] != ' ');
        let tail = t.skip(1);
        assert forall|i: int| 0 <= i < tail.len() implies tail[i] != ' ' by {
            assert(tail[i] == t[i + 1]);
        }
        lemma_no_space_single_token(tail);
        let rest = tokens_of(tail);
        assert(rest == seq![tail]);
        assert(seq![t[0]] + tail =~= t);
        assert(rest.skip(1) =~= Seq::<Seq<char>>::empty());
        assert(tokens_of(t) =~= seq![t]);
    }
}

/// A single space-free query token that occurs verbatim in the source
/// scores exactly one: such a query always matches.
pub proof fn lemma_verbatim_token_matches(source: Seq<char>, t: Seq<char>)
    requires
        has_no_space(t),
        is_substring(source, t),
    ensures
        match_score(source, t) == 1,
{
    lemma_no_space_single_token(t);
    let ts = tokens_of(t);
    assert forall|k: int| 0 <= k < ts.len() implies is_substring(source, ts[k]) by {
        assert(ts[k] == t);
    }
    assert(all_tokens_match(source, ts));
}

/// A query string that is empty, or a single space-free token occurring
/// in the source, matches that source field.
pub proof fn lemma_token_field_matches(source: Seq<char>, qf: Seq<char>)
    requires
        qf.len() == 0 || (has_no_space(qf) && is_substring(source, qf)),
    ensures
        field_matches(source, qf),
{
    if qf.len() == 0 {
        assert(qf =~= Seq::<char>::empty());
        lemma_empty_query_scores_one(source);
    } else {
        lemma_verbatim_token_matches(source, qf);
    }
}

/// One token absent from the source zeroes the whole score, whatever
/// the other tokens do: AND semantics across tokens.
pub proof fn lemma_absent_token_blocks(source: Seq<char>, query: Seq<char>, k: int)
    requires
        0 <= k < tokens_of(query).len(),
        !is_substring(source, tokens_of(query)[k]),
    ensures
        match_score(source, query) == 0,
{
    assert(!all_tokens_match(source, tokens_of(query)));
}

/// Empty tokens (as arise from doubled spaces) are benign: a query
/// matches a source exactly when every non-empty token occurs in it.
pub proof fn lemma_empty_tokens_benign(source: Seq<char>, query: Seq<char>)
    ensures
        field_matches(source, query) <==> (forall|k: int|
            0 <= k < tokens_of(query).len() ==> (tokens_of(query)[k].len() > 0
                ==> is_substring(source, tokens_of(query)[k]))),
{
    let ts = tokens_of(query);
    lemma_tokens_nonempty(query);
    if forall|k: int| 0 <= k < ts.len() ==> (ts[k].len() > 0 ==> is_substring(source, ts[k])) {
        assert forall|k: int| 0 <= k < ts.len() implies is_substring(source, ts[k]) by {
            if ts[k].len() == 0 {
                assert(ts[k] =~= Seq::<char>::empty());
                lemma_empty_is_substring(source);
            } else {
                assert(ts[k].len() > 0 ==> is_substring(source, ts[k]));
            }
        }
        assert(all_tokens_match(source, ts));
    }
}

/// Copy the characters of a string slice into a vector.
fn chars_of(s: &str) -> (v: Vec<char>)
    ensures
        v@ == s@,
{
    let n = s.unicode_len();
    let mut v: Vec<char> = Vec::new();
    for i in 0..n
        invariant
            n == s@.len(),
            v@ == s@.subrange(0, i as int),
    {
        v.push(s.get_char(i));
        assert(v@ =~= s@.subrange(0, i + 1));
    }
    assert(v@ =~= s@);
    v
}

/// Do the characters of `s` starting at `i` spell out `sub`?
fn matches_at(s: &Vec<char>, sub: &Vec<char>, i: usize) -> (r: bool)
    requires
        i + sub@.len() <= s@.len(),
    ensures
        r == is_substring_at(s@, sub@, i as int),
{
    let n = s.len();
    let mut j: usize = 0;
    while j < sub.len()
        invariant
            n == s@.len(),
            i + sub@.len() <= s@.len(),
            j <= sub@.len(),
            forall|k: int| 0 <= k < j ==> s@[i + k] == sub@[k],
        decreases sub@.len() - j,
    {
        if s[i + j] != sub[j] {
            assert(s@.subrange(i as int, i + sub@.len())[j as int] == s@[i + j]);
            return false;
        }
        j += 1;
    }
    assert(s@.subrange(i as int, i + sub@.len()) =~= sub@);
    true
}

/// Does `sub` occur anywhere in `s`?
fn contains_sub(s: &Vec<char>, sub: &Vec<char>) -> (r: bool)
    ensures
        r == is_substring(s@, sub@),
{
    if sub.len() > s.len() {
        return false;
    }
    let last_start = s.len() - sub.len();
    let mut i: usize = 0;
    loop
        invariant
            sub@.len() <= s@.len(),
            last_start == s@.len() - sub@.len(),
            i <= last_start,
            forall|j: int| 0 <= j < i ==> !is_substring_at(s@, sub@, j),
        ensures
            forall|j: int| 0 <= j <= last_start ==> !is_substring_at(s@, sub@, j),
        decreases last_start - i,
    {
        if matches_at(s, sub, i) {
            return true;
        }
        if i == last_start {
            break;
        }
        i += 1;
    }
    assert(forall|j: int| is_substring_at(s@, sub@, j) ==> 0 <= j <= last_start);
    false
}

/// Break a query, given as a vector of characters, into its tokens.
fn tokenize(q: &Vec<char>) -> (tokens: Vec<Vec<char>>)
    ensures
        tokens@.len() == tokens_of(q@).len(),
        forall|k: int| 0 <= k < tokens@.len() ==> tokens@[k]@ == tokens_of(q@)[k],
{
    let mut tokens: Vec<Vec<char>> = Vec::new();
    tokens.push(Vec::new());
    let mut i: usize = q.len();
    proof {
        assert(q@.skip(i as int) =~= Seq::<char>::empty());
    }
    while i > 0
        invariant
            i <= q@.len(),
            tokens@.len() == tokens_of(q@.skip(i as int)).len(),
            forall|k: int| 0 <= k < tokens@.len() ==> tokens@[k]@ == tokens_of(q@.skip(i as int))[k],
        decreases i,
    {
        i = i - 1;
        let ghost suffix = q@.skip(i as int);
        proof {
            assert(suffix.len() > 0);
            assert(suffix[0] == q@[i as int]);
            assert(suffix.skip(1) =~= q@.skip(i + 1));
            lemma_tokens_nonempty(q@.skip(i + 1));
        }
        let c = q[i];
        if c == ' ' {
            tokens.insert(0, Vec::new());
            proof {
                assert(tokens_of(suffix) =~= seq![Seq::<char>::empty()] + tokens_of(q@.skip(i + 1)));
            }
        } else {
            let mut first = tokens.remove(0);
            first.insert(0, c);
            tokens.insert(0, first);
            proof {
                let rest = tokens_of(q@.skip(i + 1));
                assert(tokens_of(suffix) =~= seq![seq![suffix[0]] + rest[0]] + rest.skip(1));
                assert(tokens@[0]@ =~= seq![suffix[0]] + rest[0]);
            }
        }
    }
    proof {
        assert(q@.skip(0) =~= q@);
    }
    tokens
}

/// Score one source field against one query string: split the query on
/// spaces and count the tokens, or return zero as soon as some token is
/// missing from the source.
pub fn split_match(source: &str, query: &str) -> (score: usize)
    ensures
        score == match_score(source@, query@),
{
    let s = chars_of(source);
    let q = chars_of(query);
    let tokens = tokenize(&q);
    let mut k: usize = 0;
    while k < tokens.len()
        invariant
            s@ == source@,
            k <= tokens@.len(),
            tokens@.len() == tokens_of(query@).len(),
            forall|j: int| 0 <= j < tokens@.len() ==> tokens@[j]@ == tokens_of(query@)[j],
            forall|j: int| 0 <= j < k ==> is_substring(source@, tokens_of(query@)[j]),
        decreases tokens@.len() - k,
    {
        if !contains_sub(&s, &tokens[k]) {
            proof {
                let ts = tokens_of(query@);
                assert(tokens@[k as int]@ == ts[k as int]);
                assert(!is_substring(source@, ts[k as int]));
                assert(!all_tokens_match(source@, ts));
            }
            return 0;
        }
        k += 1;
    }
    assert(all_tokens_match(source@, tokens_of(query@)));
    tokens.len()
}

} // verus!
