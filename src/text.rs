//! The mathematical model of lines and substrings, and the executable
//! substring test.
use vstd::prelude::*;
use vstd::string::StringSliceAdditionalSpecFns;
use vstd::utf8::{
    encode_utf8_valid_utf8, is_char_boundary, is_char_boundary_iff_not_is_continuation_byte,
    valid_utf8,
};

verus! {

/// True when `needle` occurs as a contiguous run of `hay`.
pub open spec fn has_substring(hay: Seq<u8>, needle: Seq<u8>) -> bool {
    exists|k: int|
        0 <= k && k + needle.len() <= hay.len() && #[trigger] hay.subrange(k, k + needle.len())
            == needle
}

/// True when `needle` occurs in `hay` starting at byte `k`.
pub open spec fn occurs_at(hay: Seq<u8>, needle: Seq<u8>, k: int) -> bool {
    0 <= k && k + needle.len() <= hay.len() && forall|j: int|
        0 <= j < needle.len() ==> #[trigger] hay[k + j] == needle[j]
}

proof fn lemma_occurs_at(hay: Seq<u8>, needle: Seq<u8>, k: int)
    requires
        0 <= k,
        k + needle.len() <= hay.len(),
    ensures
        occurs_at(hay, needle, k) <==> hay.subrange(k, k + needle.len()) == needle,
{
    if occurs_at(hay, needle, k) {
        assert forall|j: int| 0 <= j < needle.len() implies hay.subrange(k, k + needle.len())[j]
            == needle[j] by {
            assert(hay[k + j] == needle[j]);
        }
        assert(hay.subrange(k, k + needle.len()) =~= needle);
    }
    if hay.subrange(k, k + needle.len()) == needle {
        assert forall|j: int| 0 <= j < needle.len() implies #[trigger] hay[k + j] == needle[j] by {
            assert(hay.subrange(k, k + needle.len())[j] == hay[k + j]);
        }
    }
}

/// The newline byte, `\n`.
pub const LF: u8 = 10;

/// The carriage-return byte, `\r`.
pub const CR: u8 = 13;

/// A line without the carriage return of a `\r\n` ending.
pub open spec fn trim_cr(l: Seq<u8>) -> Seq<u8> {
    if l.len() > 0 && l.last() == CR {
        l.drop_last()
    } else {
        l
    }
}

/// The lines of `s` from byte `i` on, where the current line began at byte
/// `start`. A `\n` ends a line (and a `\r` just before it is dropped); the
/// bytes after the last `\n` form one more line only when there are any.
pub open spec fn lines_from(s: Seq<u8>, start: int, i: int) -> Seq<Seq<u8>>
    decreases s.len() - i,
{
    if i >= s.len() {
        if start < s.len() {
            seq![s.subrange(start, s.len() as int)]
        } else {
            seq![]
        }
    } else if s[i] == LF {
        seq![trim_cr(s.subrange(start, i))] + lines_from(s, i + 1, i + 1)
    } else {
        lines_from(s, start, i + 1)
    }
}

/// The lines of a text, in order, without their line endings.
pub open spec fn lines_of(s: Seq<u8>) -> Seq<Seq<u8>> {
    lines_from(s, 0, 0)
}

/// The bytes of each string of a sequence.
pub open spec fn bytes_of_all(v: Seq<&str>) -> Seq<Seq<u8>> {
    v.map_values(|l: &str| l.spec_bytes())
}

proof fn lemma_str_valid(s: &str)
    ensures
        valid_utf8(s.spec_bytes()),
{
    encode_utf8_valid_utf8(s@);
}

/// `s` without its first byte, which is ASCII.
fn drop_first_ascii<'a>(s: &'a str) -> (r: &'a str)
    requires
        s.spec_bytes().len() > 0,
        s.spec_bytes()[0] < 0x80,
    ensures
        r.spec_bytes() == s.spec_bytes().subrange(1, s.spec_bytes().len() as int),
{
    proof {
        lemma_str_valid(s);
        reveal_with_fuel(is_char_boundary, 2);
    }
    let (_, r) = s.split_at(1);
    r
}

/// The lines of `content`, in order, as slices of it: split at `\n` and
/// `\r\n`, endings left out, and no empty line after a final newline.
pub fn lines<'a>(content: &'a str) -> (r: Vec<&'a str>)
    ensures
        bytes_of_all(r@) == lines_of(content.spec_bytes()),
{
    let bytes = content.as_bytes();
    let n = bytes.len();
    let mut out: Vec<&'a str> = Vec::new();
    let mut rest: &'a str = content;
    let mut start: usize = 0;
    let mut i: usize = 0;
    proof {
        assert(bytes@.subrange(0, n as int) =~= bytes@);
    }
    while i < n
        invariant
            bytes@ == content.spec_bytes(),
            n == bytes@.len(),
            start <= i <= n,
            rest.spec_bytes() == bytes@.subrange(start as int, n as int),
            bytes_of_all(out@) + lines_from(bytes@, start as int, i as int) == lines_of(bytes@),
        decreases n - i,
    {
        if bytes[i] == LF {
            let end: usize = if i > start && bytes[i - 1] == CR {
                i - 1
            } else {
                i
            };
            proof {
                lemma_str_valid(rest);
                assert(rest.spec_bytes()[end - start] == bytes@[end as int]);
                is_char_boundary_iff_not_is_continuation_byte(
                    rest.spec_bytes(),
                    (end - start) as int,
                );
                assert(trim_cr(bytes@.subrange(start as int, i as int)) =~= bytes@.subrange(
                    start as int,
                    end as int,
                ));
            }
            let (line, tail) = rest.split_at(end - start);
            proof {
                assert(line.spec_bytes() =~= bytes@.subrange(start as int, end as int));
                assert(tail.spec_bytes() =~= bytes@.subrange(end as int, n as int));
                assert(tail.spec_bytes()[0] == bytes@[end as int]);
            }
            let mut next = drop_first_ascii(tail);
            proof {
                assert(next.spec_bytes() =~= bytes@.subrange(end + 1, n as int));
            }
            if end < i {
                proof {
                    assert(next.spec_bytes()[0] == bytes@[i as int]);
                }
                next = drop_first_ascii(next);
                proof {
                    assert(next.spec_bytes() =~= bytes@.subrange(i + 1, n as int));
                }
            }
            proof {
                let old_out = bytes_of_all(out@);
                let new_out = bytes_of_all(out@.push(line));
                assert(new_out =~= old_out.push(line.spec_bytes()));
                assert(old_out + lines_from(bytes@, start as int, i as int) =~= new_out
                    + lines_from(bytes@, i + 1, i + 1));
            }
            out.push(line);
            rest = next;
            start = i + 1;
        }
        i = i + 1;
    }
    if start < n {
        proof {
            let new_out = bytes_of_all(out@.push(rest));
            assert(new_out =~= bytes_of_all(out@).push(rest.spec_bytes()));
            assert(bytes_of_all(out@) + lines_from(bytes@, start as int, i as int) =~= new_out);
        }
        out.push(rest);
    } else {
        proof {
            assert(bytes_of_all(out@) + lines_from(bytes@, start as int, i as int) =~= bytes_of_all(
                out@,
            ));
        }
    }
    out
}

/// Whether `line` contains `query` as a contiguous substring, compared byte
/// for byte. Every line contains the empty query.
pub fn line_contains(line: &str, query: &str) -> (r: bool)
    ensures
        r == has_substring(line.spec_bytes(), query.spec_bytes()),
{
    let hay = line.as_bytes();
    let needle = query.as_bytes();
    let n = hay.len();
    let m = needle.len();
    if m > n {
        proof {
            assert forall|k: int|
                0 <= k && k + m <= n implies #[trigger] hay@.subrange(k, k + m) != needle@ by {}
        }
        return false;
    }
    let mut k: usize = 0;
    while k <= n - m
        invariant
            m <= n,
            n == hay@.len(),
            m == needle@.len(),
            hay@ == line.spec_bytes(),
            needle@ == query.spec_bytes(),
            k <= n - m + 1,
            forall|p: int| 0 <= p < k ==> !occurs_at(hay@, needle@, p),
        decreases n - m + 1 - k,
    {
        let mut j: usize = 0;
        while j < m && hay[k + j] == needle[j]
            invariant
                m <= n,
                k <= n - m,
                n == hay@.len(),
                m == needle@.len(),
                j <= m,
                forall|i: int| 0 <= i < j ==> #[trigger] hay@[k + i] == needle@[i],
            decreases m - j,
        {
            j = j + 1;
        }
        if j == m {
            proof {
                lemma_occurs_at(hay@, needle@, k as int);
            }
            return true;
        }
        k = k + 1;
    }
    proof {
        assert forall|p: int| 0 <= p && p + m <= n implies #[trigger] hay@.subrange(p, p + m)
            != needle@ by {
            lemma_occurs_at(hay@, needle@, p);
        }
    }
    false
}

} // verus!
