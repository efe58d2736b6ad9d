//! The two line filters: exact matching, and matching after lowercasing.
use vstd::prelude::*;
use vstd::string::StringSliceAdditionalSpecFns;
use vstd::utf8::encode_utf8;

use crate::text::{bytes_of_all, has_substring, line_contains, lines, lines_of};

verus! {

/// The UTF-8 bytes of a text after Unicode lowercasing, as `str::to_lowercase`
/// computes it from the text's bytes.
pub uninterp spec fn lower_of(s: Seq<u8>) -> Seq<u8>;

/// Relies on `str::to_lowercase`: its result depends on the text alone.
#[verifier::external_body]
fn lowercase(s: &str) -> (r: String)
    ensures
        encode_utf8(r@) == lower_of(s.spec_bytes()),
{
    s.to_lowercase()
}

/// A line is kept by the exact search when it contains the query.
pub open spec fn exact_match(q: Seq<u8>) -> spec_fn(Seq<u8>) -> bool {
    |l: Seq<u8>| has_substring(l, q)
}

/// A line is kept by the case-insensitive search when its lowercase form
/// contains the lowercase form of the query.
pub open spec fn folded_match(q: Seq<u8>) -> spec_fn(Seq<u8>) -> bool {
    |l: Seq<u8>| has_substring(lower_of(l), lower_of(q))
}

/// The lines of `content` that contain `query`, in their order.
pub open spec fn search_result(query: Seq<u8>, content: Seq<u8>) -> Seq<Seq<u8>> {
    lines_of(content).filter(exact_match(query))
}

/// The lines of `content` whose lowercase form contains the lowercase form of
/// `query`, in their order and with their own case.
pub open spec fn folded_search_result(query: Seq<u8>, content: Seq<u8>) -> Seq<Seq<u8>> {
    lines_of(content).filter(folded_match(query))
}

/// Filtering one more element of a sequence adds it at the end when it passes.
proof fn lemma_filter_take_step(s: Seq<Seq<u8>>, p: spec_fn(Seq<u8>) -> bool, k: int)
    requires
        0 <= k < s.len(),
    ensures
        s.take(k + 1).filter(p) == if p(s[k]) {
            s.take(k).filter(p).push(s[k])
        } else {
            s.take(k).filter(p)
        },
{
    reveal(Seq::filter);
    assert(s.take(k + 1).drop_last() =~= s.take(k));
}

/// The lines of `content` that contain `research`, compared byte for byte,
/// in their order, as slices of `content`.
pub fn search<'a>(research: &str, content: &'a str) -> (r: Vec<&'a str>)
    ensures
        bytes_of_all(r@) == search_result(research.spec_bytes(), content.spec_bytes()),
{
    let all = lines(content);
    let ghost ls = bytes_of_all(all@);
    let ghost p = exact_match(research.spec_bytes());
    let mut result: Vec<&'a str> = Vec::new();
    let mut k: usize = 0;
    proof {
        assert(ls.take(0) =~= Seq::<Seq<u8>>::empty());
        reveal(Seq::filter);
    }
    while k < all.len()
        invariant
            ls == bytes_of_all(all@),
            ls == lines_of(content.spec_bytes()),
            p == exact_match(research.spec_bytes()),
            k <= all.len(),
            bytes_of_all(result@) == ls.take(k as int).filter(p),
        decreases all.len() - k,
    {
        let line = all[k];
        proof {
            lemma_filter_take_step(ls, p, k as int);
        }
        if line_contains(line, research) {
            proof {
                assert(bytes_of_all(result@.push(line)) =~= bytes_of_all(result@).push(
                    line.spec_bytes(),
                ));
            }
            result.push(line);
        }
        k = k + 1;
    }
    proof {
        assert(ls.take(all.len() as int) =~= ls);
    }
    result
}

/// The lines of `content` whose lowercase form contains the lowercase form of
/// `research`, in their order and with their own case, as slices of `content`.
pub fn search_insensitive_case<'a>(research: &str, content: &'a str) -> (r: Vec<&'a str>)
    ensures
        bytes_of_all(r@) == folded_search_result(research.spec_bytes(), content.spec_bytes()),
{
    let folded_research = lowercase(research);
    let all = lines(content);
    let ghost ls = bytes_of_all(all@);
    let ghost p = folded_match(research.spec_bytes());
    let mut result: Vec<&'a str> = Vec::new();
    let mut k: usize = 0;
    proof {
        assert(ls.take(0) =~= Seq::<Seq<u8>>::empty());
        reveal(Seq::filter);
    }
    while k < all.len()
        invariant
            ls == bytes_of_all(all@),
            ls == lines_of(content.spec_bytes()),
            p == folded_match(research.spec_bytes()),
            encode_utf8(folded_research@) == lower_of(research.spec_bytes()),
            k <= all.len(),
            bytes_of_all(result@) == ls.take(k as int).filter(p),
        decreases all.len() - k,
    {
        let line = all[k];
        proof {
            lemma_filter_take_step(ls, p, k as int);
        }
        let folded_line = lowercase(line);
        if line_contains(folded_line.as_str(), folded_research.as_str()) {
            proof {
                assert(bytes_of_all(result@.push(line)) =~= bytes_of_all(result@).push(
                    line.spec_bytes(),
                ));
            }
            result.push(line);
        }
        k = k + 1;
    }
    proof {
        assert(ls.take(all.len() as int) =~= ls);
    }
    result
}

/// The search that a run performs: the exact one when `case_sensitive` holds,
/// the case-insensitive one otherwise.
pub fn search_with_mode<'a>(research: &str, content: &'a str, case_sensitive: bool) -> (r: Vec<
    &'a str,
>)
    ensures
        case_sensitive ==> bytes_of_all(r@) == search_result(
            research.spec_bytes(),
            content.spec_bytes(),
        ),
        !case_sensitive ==> bytes_of_all(r@) == folded_search_result(
            research.spec_bytes(),
            content.spec_bytes(),
        ),
{
    if case_sensitive {
        search(research, content)
    } else {
        search_insensitive_case(research, content)
    }
}

} // verus!
