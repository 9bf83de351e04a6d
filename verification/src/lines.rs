//! Byte-level line extraction and substring matching.
//!
//! A chunk of freshly appended bytes is split on the newline byte into
//! complete lines; an unterminated tail is deferred to a later read, so a
//! line split across two reads is delivered exactly once.

use vstd::prelude::*;

verus! {

/// The newline terminator.
pub const NL: u8 = 10;

/// Index of the first newline in `s`, or `s.len()` if there is none.
pub open spec fn first_nl(s: Seq<u8>) -> int
    decreases s.len(),
{
    if s.len() == 0 {
        0
    } else if s[0] == NL {
        0
    } else {
        1 + first_nl(s.drop_first())
    }
}

pub proof fn lemma_first_nl_bounds(s: Seq<u8>)
    ensures
        0 <= first_nl(s) <= s.len(),
        forall|i: int| 0 <= i < first_nl(s) ==> s[i] != NL,
        first_nl(s) < s.len() ==> s[first_nl(s)] == NL,
    decreases s.len(),
{
    if s.len() == 0 {
    } else if s[0] == NL {
    } else {
        lemma_first_nl_bounds(s.drop_first());
        assert forall|i: int| 0 <= i < first_nl(s) implies s[i] != NL by {
            if i > 0 {
                assert(s[i] == s.drop_first()[i - 1]);
            }
        }
    }
}

/// The complete (newline-terminated) lines of `s`, without their
/// terminators. Bytes after the last newline are not included.
pub open spec fn complete_lines(s: Seq<u8>) -> Seq<Seq<u8>>
    decreases s.len(),
    via complete_lines_decreases
{
    let j = first_nl(s);
    if j >= s.len() {
        Seq::empty()
    } else {
        seq![s.take(j)] + complete_lines(s.skip(j + 1))
    }
}

#[via_fn]
proof fn complete_lines_decreases(s: Seq<u8>) {
    lemma_first_nl_bounds(s);
}

/// How many leading bytes of `s` belong to complete lines: the index just
/// after the last newline, or 0 if there is none.
pub open spec fn consumed(s: Seq<u8>) -> int
    decreases s.len(),
    via consumed_decreases
{
    let j = first_nl(s);
    if j >= s.len() {
        0
    } else {
        j + 1 + consumed(s.skip(j + 1))
    }
}

#[via_fn]
proof fn consumed_decreases(s: Seq<u8>) {
    lemma_first_nl_bounds(s);
}

pub proof fn lemma_consumed_bounds(s: Seq<u8>)
    ensures
        0 <= consumed(s) <= s.len(),
    decreases s.len(),
{
    lemma_first_nl_bounds(s);
    let j = first_nl(s);
    if j < s.len() {
        lemma_consumed_bounds(s.skip(j + 1));
    }
}

proof fn lemma_first_nl_is(s: Seq<u8>, j: int)
    requires
        0 <= j < s.len(),
        s[j] == NL,
        forall|i: int| 0 <= i < j ==> s[i] != NL,
    ensures
        first_nl(s) == j,
    decreases s.len(),
{
    if j > 0 {
        let d = s.drop_first();
        assert(d[j - 1] == s[j]);
        assert forall|i: int| 0 <= i < j - 1 implies d[i] != NL by {
            assert(d[i] == s[i + 1]);
        }
        lemma_first_nl_is(d, j - 1);
    }
}

proof fn lemma_first_nl_none(s: Seq<u8>)
    requires
        forall|i: int| 0 <= i < s.len() ==> s[i] != NL,
    ensures
        first_nl(s) == s.len(),
        complete_lines(s) == Seq::<Seq<u8>>::empty(),
        consumed(s) == 0,
    decreases s.len(),
{
    if s.len() > 0 {
        let d = s.drop_first();
        assert forall|i: int| 0 <= i < d.len() implies d[i] != NL by {
            assert(d[i] == s[i + 1]);
        }
        lemma_first_nl_none(d);
    }
}

proof fn lemma_first_nl_prefix(s: Seq<u8>, m: int)
    requires
        first_nl(s) < m <= s.len(),
    ensures
        first_nl(s.take(m)) == first_nl(s),
    decreases s.len(),
{
    lemma_first_nl_bounds(s);
    if s[0] == NL {
        assert(s.take(m)[0] == NL);
    } else {
        let d = s.drop_first();
        assert(s.take(m)[0] == s[0]);
        assert(s.take(m).drop_first() =~= d.take(m - 1));
        lemma_first_nl_prefix(d, m - 1);
    }
}

/// Splitting a byte sequence whose every leading byte is part of a complete
/// line off the front of a longer sequence splits its lines off likewise.
pub proof fn lemma_lines_concat(a: Seq<u8>, b: Seq<u8>)
    requires
        consumed(a) == a.len(),
    ensures
        complete_lines(a + b) == complete_lines(a) + complete_lines(b),
        consumed(a + b) == a.len() + consumed(b),
    decreases a.len(),
{
    lemma_first_nl_bounds(a);
    lemma_consumed_bounds(a);
    if a.len() == 0 {
        assert(a + b =~= b);
        assert(complete_lines(a) + complete_lines(b) =~= complete_lines(b));
    } else {
        let j = first_nl(a);
        assert(j < a.len()) by {
            if j >= a.len() {
                assert(consumed(a) == 0);
            }
        }
        let ab = a + b;
        assert(ab[j] == a[j]);
        assert forall|i: int| 0 <= i < j implies ab[i] != NL by {
            assert(ab[i] == a[i]);
        }
        lemma_first_nl_is(ab, j);
        let rest = a.skip(j + 1);
        lemma_consumed_bounds(rest);
        assert(consumed(rest) == rest.len());
        assert(ab.take(j) =~= a.take(j));
        assert(ab.skip(j + 1) =~= rest + b);
        lemma_lines_concat(rest, b);
        assert(seq![a.take(j)] + (complete_lines(rest) + complete_lines(b)) =~= (seq![a.take(j)]
            + complete_lines(rest)) + complete_lines(b));
    }
}

/// A run of non-newline bytes followed by one newline is exactly one line.
proof fn lemma_single_line(seg: Seq<u8>)
    requires
        forall|i: int| 0 <= i < seg.len() ==> seg[i] != NL,
    ensures
        complete_lines(seg + seq![NL]) == seq![seg],
        consumed(seg + seq![NL]) == seg.len() + 1,
{
    let u = seg + seq![NL];
    assert(u[seg.len() as int] == NL);
    assert forall|i: int| 0 <= i < seg.len() implies u[i] != NL by {
        assert(u[i] == seg[i]);
    }
    lemma_first_nl_is(u, seg.len() as int);
    assert(u.take(seg.len() as int) =~= seg);
    assert(u.skip(seg.len() as int + 1) =~= Seq::<u8>::empty());
    lemma_first_nl_none(Seq::<u8>::empty());
    assert(complete_lines(u) =~= seq![seg]);
}

/// The lines of `s` are the lines of its consumed prefix; the rest of `s`
/// holds no newline.
pub proof fn lemma_lines_decompose(s: Seq<u8>)
    ensures
        complete_lines(s) == complete_lines(s.take(consumed(s))),
        consumed(s.take(consumed(s))) == consumed(s),
        consumed(s.skip(consumed(s))) == 0,
        complete_lines(s.skip(consumed(s))) == Seq::<Seq<u8>>::empty(),
    decreases s.len(),
{
    lemma_first_nl_bounds(s);
    lemma_consumed_bounds(s);
    let j = first_nl(s);
    if j >= s.len() {
        assert(s.take(0) =~= Seq::<u8>::empty());
        assert(s.skip(0) =~= s);
        lemma_first_nl_none(Seq::<u8>::empty());
    } else {
        let rest = s.skip(j + 1);
        lemma_consumed_bounds(rest);
        lemma_lines_decompose(rest);
        let k = consumed(rest);
        let c = consumed(s);
        assert(c == j + 1 + k);
        let t = s.take(c);
        lemma_first_nl_prefix(s, c);
        assert(first_nl(t) == j);
        assert(t.take(j) =~= s.take(j));
        assert(t.skip(j + 1) =~= rest.take(k));
        assert(s.skip(c) =~= rest.skip(k));
    }
}

/// Reading a chunk now and the rest later delivers the same lines, and
/// advances the offset by the same amount, as reading everything at once:
/// a line that straddles two reads is delivered exactly once, by the later
/// read.
pub proof fn lemma_no_double_count(c1: Seq<u8>, c2: Seq<u8>)
    ensures
        complete_lines(c1) + complete_lines(c1.skip(consumed(c1)) + c2) == complete_lines(c1 + c2),
        consumed(c1) + consumed(c1.skip(consumed(c1)) + c2) == consumed(c1 + c2),
{
    lemma_consumed_bounds(c1);
    lemma_lines_decompose(c1);
    let k = consumed(c1);
    let a = c1.take(k);
    let r = c1.skip(k);
    assert(c1 + c2 =~= a + (r + c2));
    lemma_lines_concat(a, r + c2);
}

/// Extracts the complete lines of `chunk` and reports how many leading
/// bytes they cover; bytes after the last newline are left for a later
/// read.
pub fn split_lines(chunk: &[u8]) -> (r: (Vec<Vec<u8>>, usize))
    ensures
        r.0@.map_values(|l: Vec<u8>| l@) == complete_lines(chunk@),
        r.1 == consumed(chunk@),
{
    let mut lines: Vec<Vec<u8>> = Vec::new();
    let mut start: usize = 0;
    let mut i: usize = 0;
    proof {
        assert(chunk@.take(0) =~= Seq::<u8>::empty());
        lemma_first_nl_none(Seq::<u8>::empty());
        assert(lines@.map_values(|l: Vec<u8>| l@) =~= complete_lines(chunk@.take(0)));
    }
    while i < chunk.len()
        invariant
            0 <= start <= i <= chunk.len(),
            lines@.map_values(|l: Vec<u8>| l@) == complete_lines(chunk@.take(start as int)),
            consumed(chunk@.take(start as int)) == start,
            forall|k: int| start <= k < i ==> chunk@[k] != NL,
        decreases chunk.len() - i,
    {
        if chunk[i] == NL {
            let seg = vstd::slice::slice_subrange(chunk, start, i);
            let line = vstd::slice::slice_to_vec(seg);
            let ghost old_lines = lines@;
            lines.push(line);
            proof {
                let a = chunk@.take(start as int);
                let sg = chunk@.subrange(start as int, i as int);
                lemma_single_line(sg);
                lemma_lines_concat(a, sg + seq![NL]);
                assert(chunk@.take(i + 1) =~= a + (sg + seq![NL]));
                assert(lines@.map_values(|l: Vec<u8>| l@) =~= old_lines.map_values(
                    |l: Vec<u8>| l@,
                ) + seq![sg]);
                assert(complete_lines(a) + seq![sg] =~= complete_lines(a) + complete_lines(
                    sg + seq![NL],
                ));
            }
            start = i + 1;
        }
        i = i + 1;
    }
    proof {
        let a = chunk@.take(start as int);
        let tail = chunk@.skip(start as int);
        assert forall|k: int| 0 <= k < tail.len() implies tail[k] != NL by {
            assert(tail[k] == chunk@[start + k]);
        }
        lemma_first_nl_none(tail);
        lemma_lines_concat(a, tail);
        assert(chunk@ =~= a + tail);
        assert(complete_lines(a) + Seq::<Seq<u8>>::empty() =~= complete_lines(a));
    }
    (lines, start)
}

/// `needle` occurs as a contiguous subrange of `hay`.
pub open spec fn contains_seq(hay: Seq<u8>, needle: Seq<u8>) -> bool {
    exists|i: int|
        0 <= i && i + needle.len() <= hay.len() && #[trigger] hay.subrange(i, i + needle.len())
            == needle
}

/// Whether `needle` occurs as a contiguous run of bytes inside `hay`.
pub fn contains_bytes(hay: &[u8], needle: &[u8]) -> (r: bool)
    ensures
        r == contains_seq(hay@, needle@),
{
    if needle.len() > hay.len() {
        return false;
    }
    let mut i: usize = 0;
    while i <= hay.len() - needle.len()
        invariant
            needle.len() <= hay.len(),
            0 <= i <= hay.len() - needle.len() + 1,
            forall|k: int|
                0 <= k < i ==> #[trigger] hay@.subrange(k, k + needle@.len()) != needle@,
        decreases hay.len() + 1 - i,
    {
        let mut j: usize = 0;
        let mut matched: bool = true;
        while j < needle.len()
            invariant
                needle.len() <= hay.len(),
                0 <= i <= hay.len() - needle.len(),
                0 <= j <= needle.len(),
                matched == (forall|k: int| 0 <= k < j ==> hay@[i + k] == #[trigger] needle@[k]),
            decreases needle.len() - j,
        {
            if hay[i + j] != needle[j] {
                matched = false;
                proof {
                    assert(!(forall|k: int|
                        0 <= k < needle@.len() ==> hay@[i + k] == #[trigger] needle@[k])) by {
                        assert(hay@[i + j] != needle@[j as int]);
                    }
                }
                j = needle.len();
            } else {
                j = j + 1;
            }
        }
        if matched {
            proof {
                assert(hay@.subrange(i as int, i + needle@.len()) =~= needle@);
            }
            return true;
        }
        proof {
            assert(hay@.subrange(i as int, i + needle@.len()) != needle@) by {
                if hay@.subrange(i as int, i + needle@.len()) == needle@ {
                    assert(forall|k: int|
                        0 <= k < needle@.len() ==> hay@[i + k] == #[trigger] needle@[k]) by {
                        assert(forall|k: int|
                            0 <= k < needle@.len() ==> #[trigger] needle@[k] == hay@.subrange(
                                i as int,
                                i + needle@.len(),
                            )[k]);
                    }
                }
            }
        }
        i = i + 1;
    }
    proof {
        assert(forall|k: int|
            0 <= k && k + needle@.len() <= hay@.len() ==> #[trigger] hay@.subrange(
                k,
                k + needle@.len(),
            ) != needle@);
    }
    false
}

} // verus!
