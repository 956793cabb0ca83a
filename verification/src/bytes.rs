//! Byte-sequence primitives shared by the notification parser and the stdio
//! router: finding separators, splitting a stream into newline-terminated
//! lines, and the laws that make chunked parsing equal to whole-stream
//! parsing.

use vstd::prelude::*;

verus! {

/// Newline, the record separator of both the notification protocol and the
/// stdio streams.
pub const NL: u8 = 10;

/// Index of the first occurrence of `b` in `s`; `s.len()` if `b` is absent.
pub open spec fn first_index_of(s: Seq<u8>, b: u8) -> nat
    decreases s.len(),
{
    if s.len() == 0 {
        0
    } else if s[0] == b {
        0
    } else {
        1 + first_index_of(s.skip(1), b)
    }
}

pub proof fn lemma_first_index_of(s: Seq<u8>, b: u8)
    ensures
        first_index_of(s, b) <= s.len(),
        first_index_of(s, b) < s.len() ==> s[first_index_of(s, b) as int] == b,
        forall|j: int| 0 <= j < first_index_of(s, b) ==> s[j] != b,
    decreases s.len(),
{
    if s.len() == 0 {
    } else if s[0] == b {
    } else {
        lemma_first_index_of(s.skip(1), b);
        let fi = first_index_of(s, b);
        assert forall|j: int| 0 <= j < fi implies s[j] != b by {
            if j >= 1 {
                assert(s.skip(1)[j - 1] == s[j]);
            }
        }
        if fi < s.len() {
            assert(s.skip(1)[fi - 1] == s[fi as int]);
        }
    }
}

/// The first occurrence in a concatenation is the first occurrence of the
/// left part, or lies in the right part when the left has none.
pub proof fn lemma_first_index_of_append(a: Seq<u8>, c: Seq<u8>, b: u8)
    ensures
        first_index_of(a, b) < a.len() ==> first_index_of(a + c, b) == first_index_of(a, b),
        first_index_of(a, b) >= a.len() ==> first_index_of(a + c, b) == a.len() + first_index_of(
            c,
            b,
        ),
    decreases a.len(),
{
    lemma_first_index_of(a, b);
    if a.len() == 0 {
        assert(a + c =~= c);
    } else if a[0] == b {
        assert((a + c)[0] == b);
    } else {
        lemma_first_index_of_append(a.skip(1), c, b);
        assert((a + c).skip(1) =~= a.skip(1) + c);
        assert((a + c)[0] == a[0]);
    }
}

/// All newline-terminated lines of `s`, in order, without their newlines.
pub open spec fn complete_lines(s: Seq<u8>) -> Seq<Seq<u8>>
    decreases s.len(),
{
    let i = first_index_of(s, NL);
    if i >= s.len() {
        Seq::empty()
    } else {
        seq![s.take(i as int)] + complete_lines(s.skip(i as int + 1))
    }
}

/// What remains of `s` after its last newline: the partial trailing line.
pub open spec fn line_rest(s: Seq<u8>) -> Seq<u8>
    decreases s.len(),
{
    let i = first_index_of(s, NL);
    if i >= s.len() {
        s
    } else {
        line_rest(s.skip(i as int + 1))
    }
}

/// The partial trailing line never holds a newline.
pub proof fn lemma_line_rest_no_nl(s: Seq<u8>)
    ensures
        first_index_of(line_rest(s), NL) == line_rest(s).len(),
    decreases s.len(),
{
    let i = first_index_of(s, NL);
    lemma_first_index_of(s, NL);
    if i >= s.len() {
    } else {
        lemma_line_rest_no_nl(s.skip(i as int + 1));
    }
}

/// Splitting a concatenation: the lines of `a + c` are the lines of `a`
/// followed by the lines of `a`'s partial tail joined with `c`, and the
/// partial tails agree. This is the step case of the chunked-parsing law.
pub proof fn lemma_lines_append(a: Seq<u8>, c: Seq<u8>)
    ensures
        complete_lines(a + c) == complete_lines(a) + complete_lines(line_rest(a) + c),
        line_rest(a + c) == line_rest(line_rest(a) + c),
    decreases a.len(),
{
    let i = first_index_of(a, NL);
    lemma_first_index_of(a, NL);
    lemma_first_index_of_append(a, c, NL);
    if i >= a.len() {
        assert(complete_lines(a) + complete_lines(line_rest(a) + c) =~= complete_lines(
            line_rest(a) + c,
        ));
        assert(line_rest(a) + c =~= a + c);
    } else {
        lemma_lines_append(a.skip(i as int + 1), c);
        assert((a + c).take(i as int) =~= a.take(i as int));
        assert((a + c).skip(i as int + 1) =~= a.skip(i as int + 1) + c);
        assert(complete_lines(a + c) =~= complete_lines(a) + complete_lines(line_rest(a) + c));
    }
}

/// The concatenation of a sequence of received chunks.
pub open spec fn concat_chunks(chunks: Seq<Seq<u8>>) -> Seq<u8>
    decreases chunks.len(),
{
    if chunks.len() == 0 {
        Seq::empty()
    } else {
        chunks[0] + concat_chunks(chunks.skip(1))
    }
}

/// The lines produced by feeding the chunks one at a time into a carry
/// buffer that starts as `buf`, draining the complete lines after each feed.
pub open spec fn chunked_lines(buf: Seq<u8>, chunks: Seq<Seq<u8>>) -> Seq<Seq<u8>>
    decreases chunks.len(),
{
    if chunks.len() == 0 {
        Seq::empty()
    } else {
        complete_lines(buf + chunks[0]) + chunked_lines(line_rest(buf + chunks[0]), chunks.skip(1))
    }
}

/// The carry buffer left after feeding all the chunks.
pub open spec fn chunked_rest(buf: Seq<u8>, chunks: Seq<Seq<u8>>) -> Seq<u8>
    decreases chunks.len(),
{
    if chunks.len() == 0 {
        buf
    } else {
        chunked_rest(line_rest(buf + chunks[0]), chunks.skip(1))
    }
}

/// Chunked parsing round trip: feeding any interleaving of chunks through a
/// carry buffer that holds no newline yields exactly the lines of the whole
/// concatenated stream, in order, and leaves the same partial tail.
pub proof fn lemma_chunked_parse_round_trip(buf: Seq<u8>, chunks: Seq<Seq<u8>>)
    requires
        first_index_of(buf, NL) >= buf.len(),
    ensures
        chunked_lines(buf, chunks) == complete_lines(buf + concat_chunks(chunks)),
        chunked_rest(buf, chunks) == line_rest(buf + concat_chunks(chunks)),
    decreases chunks.len(),
{
    lemma_first_index_of(buf, NL);
    if chunks.len() == 0 {
        assert(buf + concat_chunks(chunks) =~= buf);
    } else {
        let fed = buf + chunks[0];
        lemma_line_rest_no_nl(fed);
        lemma_chunked_parse_round_trip(line_rest(fed), chunks.skip(1));
        lemma_lines_append(fed, concat_chunks(chunks.skip(1)));
        assert(fed + concat_chunks(chunks.skip(1)) =~= buf + concat_chunks(chunks));
        // A buffer without a newline contributes no complete line of its own.
        assert(complete_lines(buf) =~= Seq::<Seq<u8>>::empty());
        assert(line_rest(buf) =~= buf);
        assert(chunked_lines(buf, chunks) =~= complete_lines(buf + concat_chunks(chunks)));
    }
}

/// The single space on which command lines are split into words.
pub const SPACE: u8 = 32;

/// All segments of `s` between occurrences of `b`, in order, empty segments
/// kept: one segment more than there are separators.
pub open spec fn split_on(s: Seq<u8>, b: u8) -> Seq<Seq<u8>>
    decreases s.len(),
{
    let i = first_index_of(s, b);
    if i >= s.len() {
        seq![s]
    } else {
        seq![s.take(i as int)] + split_on(s.skip(i as int + 1), b)
    }
}

/// The byte views of a sequence of byte vectors.
pub open spec fn views_of(s: Seq<Vec<u8>>) -> Seq<Seq<u8>> {
    Seq::new(s.len(), |i: int| s[i]@)
}

/// Appending a vector appends its view.
pub proof fn lemma_views_of_push(s: Seq<Vec<u8>>, v: Vec<u8>)
    ensures
        views_of(s.push(v)) == views_of(s).push(v@),
{
    assert forall|k: int| 0 <= k < s.len() + 1 implies #[trigger] views_of(s.push(v))[k]
        == views_of(s).push(v@)[k] by {
        if k < s.len() {
            assert(s.push(v)[k] == s[k]);
        } else {
            assert(s.push(v)[k] == v);
        }
    }
    assert(views_of(s.push(v)) =~= views_of(s).push(v@));
}

/// Removing the front element drops the front view.
pub proof fn lemma_views_of_remove_front(s: Seq<Vec<u8>>)
    requires
        s.len() > 0,
    ensures
        views_of(s.remove(0)) == views_of(s).skip(1),
{
    assert(s.remove(0) =~= s.skip(1));
    assert forall|k: int| 0 <= k < s.len() - 1 implies #[trigger] views_of(s.remove(0))[k]
        == views_of(s).skip(1)[k] by {
        assert(s.remove(0)[k] == s[k + 1]);
        assert(views_of(s)[k + 1] == s[k + 1]@);
    }
    assert(views_of(s.remove(0)) =~= views_of(s).skip(1));
}

/// Index of the first `b` in `v`, or `v.len()` when absent.
pub fn find_byte(v: &Vec<u8>, b: u8) -> (r: usize)
    ensures
        r == first_index_of(v@, b),
{
    let mut i: usize = 0;
    while i < v.len()
        invariant
            i <= v@.len(),
            forall|j: int| 0 <= j < i ==> v@[j] != b,
        decreases v@.len() - i,
    {
        if v[i] == b {
            proof {
                lemma_first_index_of(v@, b);
                let fi = first_index_of(v@, b);
                if fi < i {
                    assert(v@[fi as int] == b);
                }
                if fi > i {
                    assert(v@[i as int] != b);
                }
            }
            return i;
        }
        i += 1;
    }
    proof {
        lemma_first_index_of(v@, b);
    }
    i
}

/// A fresh copy of `v[a..b]`.
pub fn subvec(v: &Vec<u8>, a: usize, b: usize) -> (r: Vec<u8>)
    requires
        a <= b <= v@.len(),
    ensures
        r@ == v@.subrange(a as int, b as int),
{
    let mut r: Vec<u8> = Vec::new();
    let mut i: usize = a;
    while i < b
        invariant
            a <= i <= b <= v@.len(),
            r@ == v@.subrange(a as int, i as int),
        decreases b - i,
    {
        r.push(v[i]);
        i += 1;
        proof {
            assert(r@ =~= v@.subrange(a as int, i as int));
        }
    }
    r
}

/// Whether two byte vectors hold the same bytes.
pub fn bytes_eq(x: &Vec<u8>, y: &Vec<u8>) -> (r: bool)
    ensures
        r == (x@ == y@),
{
    if x.len() != y.len() {
        return false;
    }
    let mut i: usize = 0;
    while i < x.len()
        invariant
            i <= x@.len(),
            x@.len() == y@.len(),
            forall|j: int| 0 <= j < i ==> x@[j] == y@[j],
        decreases x@.len() - i,
    {
        if x[i] != y[i] {
            return false;
        }
        i += 1;
    }
    proof {
        assert(x@ =~= y@);
    }
    true
}

/// Appends a copy of `src` to `dst`.
pub fn append_bytes(dst: &mut Vec<u8>, src: &Vec<u8>)
    ensures
        final(dst)@ == old(dst)@ + src@,
{
    let mut i: usize = 0;
    while i < src.len()
        invariant
            i <= src@.len(),
            dst@ == old(dst)@ + src@.take(i as int),
        decreases src@.len() - i,
    {
        dst.push(src[i]);
        i += 1;
        proof {
            assert(old(dst)@ + src@.take(i as int) =~= dst@);
        }
    }
    proof {
        assert(old(dst)@ + src@.take(src@.len() as int) =~= old(dst)@ + src@);
    }
}

/// Removes and returns the first newline-terminated line of `buf`, or
/// returns `None`, leaving `buf` unchanged, when no newline is present.
pub fn take_line(buf: &mut Vec<u8>) -> (r: Option<Vec<u8>>)
    ensures
        match r {
            Some(line) => {
                &&& first_index_of(old(buf)@, NL) < old(buf)@.len()
                &&& line@ == old(buf)@.take(first_index_of(old(buf)@, NL) as int)
                &&& final(buf)@ == old(buf)@.skip(first_index_of(old(buf)@, NL) as int + 1)
            },
            None => {
                &&& first_index_of(old(buf)@, NL) >= old(buf)@.len()
                &&& final(buf)@ == old(buf)@
            },
        },
{
    let i = find_byte(buf, NL);
    if i >= buf.len() {
        return None;
    }
    let line = subvec(buf, 0, i);
    let rest = subvec(buf, i + 1, buf.len());
    proof {
        assert(line@ =~= old(buf)@.take(i as int));
        assert(rest@ =~= old(buf)@.skip(i as int + 1));
    }
    *buf = rest;
    Some(line)
}

} // verus!
