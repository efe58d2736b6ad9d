//! What holds of the searches over all queries and texts.
use vstd::prelude::*;
use vstd::string::StringSliceAdditionalSpecFns;

use crate::search::{exact_match, folded_match, folded_search_result, lower_of, search_result};
use crate::text::{bytes_of_all, has_substring, lines_of};

verus! {

/// `idx` places each element of `a` at a position of `b`, with the positions
/// strictly increasing.
pub open spec fn embeds(a: Seq<Seq<u8>>, b: Seq<Seq<u8>>, idx: Seq<int>) -> bool {
    &&& idx.len() == a.len()
    &&& forall|i: int, j: int| 0 <= i < j < idx.len() ==> idx[i] < idx[j]
    &&& forall|i: int| 0 <= i < idx.len() ==> 0 <= #[trigger] idx[i] < b.len() && b[idx[i]] == a[i]
}

/// `a` is `b` with some elements left out and the others in their order.
pub open spec fn is_subsequence(a: Seq<Seq<u8>>, b: Seq<Seq<u8>>) -> bool {
    exists|idx: Seq<int>| embeds(a, b, idx)
}

proof fn lemma_filter_embeds(s: Seq<Seq<u8>>, p: spec_fn(Seq<u8>) -> bool) -> (idx: Seq<int>)
    ensures
        embeds(s.filter(p), s, idx),
    decreases s.len(),
{
    reveal(Seq::filter);
    if s.len() == 0 {
        Seq::empty()
    } else {
        let prev = lemma_filter_embeds(s.drop_last(), p);
        if p(s.last()) {
            let idx = prev.push(s.len() - 1);
            assert forall|i: int| 0 <= i < idx.len() implies 0 <= #[trigger] idx[i] < s.len()
                && s[idx[i]] == s.filter(p)[i] by {
                if i < prev.len() {
                    assert(s.drop_last()[prev[i]] == s[prev[i]]);
                }
            }
            idx
        } else {
            assert forall|i: int| 0 <= i < prev.len() implies 0 <= #[trigger] prev[i] < s.len()
                && s[prev[i]] == s.filter(p)[i] by {
                assert(s.drop_last()[prev[i]] == s[prev[i]]);
            }
            prev
        }
    }
}

proof fn lemma_filter_len_mono(
    s: Seq<Seq<u8>>,
    p: spec_fn(Seq<u8>) -> bool,
    q: spec_fn(Seq<u8>) -> bool,
)
    requires
        forall|i: int| 0 <= i < s.len() && #[trigger] p(s[i]) ==> q(s[i]),
    ensures
        s.filter(p).len() <= s.filter(q).len(),
    decreases s.len(),
{
    reveal(Seq::filter);
    if s.len() > 0 {
        assert forall|i: int| 0 <= i < s.drop_last().len() && #[trigger] p(s.drop_last()[i])
            implies q(s.drop_last()[i]) by {
            assert(s.drop_last()[i] == s[i]);
        }
        lemma_filter_len_mono(s.drop_last(), p, q);
        assert(p(s[s.len() - 1]) ==> q(s[s.len() - 1]));
    }
}

proof fn lemma_filter_all(s: Seq<Seq<u8>>, p: spec_fn(Seq<u8>) -> bool)
    requires
        forall|i: int| 0 <= i < s.len() ==> #[trigger] p(s[i]),
    ensures
        s.filter(p) == s,
    decreases s.len(),
{
    reveal(Seq::filter);
    if s.len() > 0 {
        assert forall|i: int| 0 <= i < s.drop_last().len() implies #[trigger] p(
            s.drop_last()[i],
        ) by {
            assert(s.drop_last()[i] == s[i]);
        }
        lemma_filter_all(s.drop_last(), p);
        assert(p(s[s.len() - 1]));
        assert(s.drop_last().push(s.last()) =~= s);
    }
}

/// The exact search returns some of the text's lines, in the order in which
/// they stand in the text.
pub proof fn search_keeps_line_order(query: Seq<u8>, content: Seq<u8>)
    ensures
        is_subsequence(search_result(query, content), lines_of(content)),
{
    let idx = lemma_filter_embeds(lines_of(content), exact_match(query));
}

/// Every line that the exact search returns contains the query, and every
/// line of the text that it leaves out does not.
pub proof fn search_keeps_exactly_the_matches(query: Seq<u8>, content: Seq<u8>)
    ensures
        forall|i: int|
            0 <= i < search_result(query, content).len() ==> has_substring(
                #[trigger] search_result(query, content)[i],
                query,
            ),
        forall|l: Seq<u8>|
            lines_of(content).contains(l) && !search_result(query, content).contains(l)
                ==> !has_substring(l, query),
{
    let ls = lines_of(content);
    let p = exact_match(query);
    assert forall|i: int| 0 <= i < ls.filter(p).len() implies has_substring(
        #[trigger] ls.filter(p)[i],
        query,
    ) by {
        ls.lemma_filter_pred(p, i);
    }
    assert forall|l: Seq<u8>| ls.contains(l) && !ls.filter(p).contains(l) implies !has_substring(
        l,
        query,
    ) by {
        let i = choose|i: int| 0 <= i < ls.len() && ls[i] == l;
        if has_substring(l, query) {
            ls.lemma_filter_contains(p, i);
        }
    }
}

/// Where lowercasing keeps each matching line of the text matching, the
/// case-insensitive search returns at least as many lines as the exact one.
pub proof fn folded_search_returns_at_least_as_many(query: Seq<u8>, content: Seq<u8>)
    requires
        forall|l: Seq<u8>|
            lines_of(content).contains(l) && has_substring(l, query) ==> has_substring(
                lower_of(l),
                lower_of(query),
            ),
    ensures
        search_result(query, content).len() <= folded_search_result(query, content).len(),
{
    let ls = lines_of(content);
    assert forall|i: int| 0 <= i < ls.len() && #[trigger] exact_match(query)(ls[i]) implies folded_match(
        query,
    )(ls[i]) by {
        assert(ls.contains(ls[i]));
    }
    lemma_filter_len_mono(ls, exact_match(query), folded_match(query));
}

/// With the empty query the exact search returns every line of the text, in
/// order.
pub proof fn empty_query_keeps_every_line(content: Seq<u8>)
    ensures
        search_result(Seq::empty(), content) == lines_of(content),
{
    let ls = lines_of(content);
    assert forall|i: int| 0 <= i < ls.len() implies #[trigger] exact_match(Seq::empty())(ls[i]) by {
        let e = Seq::<u8>::empty();
        assert(ls[i].subrange(0, 0 + e.len() as int) =~= e);
        assert(has_substring(ls[i], e));
    }
    lemma_filter_all(ls, exact_match(Seq::empty()));
}

/// An empty text has no lines, so both searches return nothing.
pub proof fn empty_content_gives_nothing(query: Seq<u8>)
    ensures
        search_result(query, Seq::empty()) == Seq::<Seq<u8>>::empty(),
        folded_search_result(query, Seq::empty()) == Seq::<Seq<u8>>::empty(),
{
    reveal(Seq::filter);
    assert(lines_of(Seq::empty()) =~= Seq::<Seq<u8>>::empty());
}

/// Two runs of the same search on the same query and text return the same
/// lines in the same order: each result is fixed by the inputs alone.
pub proof fn search_is_deterministic(
    research: &str,
    content: &str,
    case_sensitive: bool,
    first: Seq<&str>,
    second: Seq<&str>,
)
    requires
        case_sensitive ==> bytes_of_all(first) == search_result(
            research.spec_bytes(),
            content.spec_bytes(),
        ) && bytes_of_all(second) == search_result(research.spec_bytes(), content.spec_bytes()),
        !case_sensitive ==> bytes_of_all(first) == folded_search_result(
            research.spec_bytes(),
            content.spec_bytes(),
        ) && bytes_of_all(second) == folded_search_result(
            research.spec_bytes(),
            content.spec_bytes(),
        ),
    ensures
        bytes_of_all(first) == bytes_of_all(second),
{
}

} // verus!
