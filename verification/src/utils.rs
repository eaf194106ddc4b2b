//! Splitting DATA payloads into CRLF-terminated lines, and the transparency
//! test that decides which lines are dot-stuffed on the wire.
use vstd::prelude::*;
use vstd::seq_lib::lemma_flatten_concat;
use vstd::slice::{slice_subrange, slice_to_vec};

verus! {

/// The three-byte sequence that, standing alone as a line of DATA content,
/// would be mistaken for the end-of-data terminator and therefore gets an
/// extra `.` prefixed on the wire.
pub open spec fn dot_crlf() -> Seq<u8> {
    seq![46u8, 13u8, 10u8]
}

/// Whether `line` needs transparency stuffing: it is exactly `.` + CRLF.
pub open spec fn spec_data_transparency(line: Seq<u8>) -> bool {
    line == dot_crlf()
}

/// Decides whether a line of DATA content must be dot-stuffed before it is
/// written to the wire. Only a line that is exactly `.` + CRLF is stuffed;
/// a line that merely starts with `.` is left alone.
pub fn smtp_data_transparency(line: &[u8]) -> (r: bool)
    ensures
        r == spec_data_transparency(line@),
{
    let res = line.len() == 3 && line[0] == 46 && line[1] == 13 && line[2] == 10;
    proof {
        if res {
            assert(line@ =~= dot_crlf());
        }
        if line@ == dot_crlf() {
            assert(line@.len() == 3);
            assert(line@[0] == 46u8 && line@[1] == 13u8 && line@[2] == 10u8);
        }
    }
    res
}

/// A CRLF pair begins at position `j` of `data`.
pub open spec fn crlf_at(data: Seq<u8>, j: int) -> bool {
    0 <= j && j + 1 < data.len() && data[j] == 13u8 && data[j + 1] == 10u8
}

/// Position of the first CRLF pair in `data`, or -1 when there is none.
pub open spec fn find_crlf(data: Seq<u8>) -> int
    decreases data.len(),
{
    if data.len() < 2 {
        -1
    } else if data[0] == 13u8 && data[1] == 10u8 {
        0
    } else if find_crlf(data.skip(1)) < 0 {
        -1
    } else {
        find_crlf(data.skip(1)) + 1
    }
}

/// `find_crlf` returns the first CRLF position exactly: a nonnegative result
/// marks a CRLF pair preceded by none, and -1 means no pair exists at all.
pub proof fn lemma_find_crlf(data: Seq<u8>)
    ensures
        find_crlf(data) == -1 ==> forall|j: int| !crlf_at(data, j),
        find_crlf(data) >= 0 ==> crlf_at(data, find_crlf(data)) && (forall|j: int|
            0 <= j < find_crlf(data) ==> !crlf_at(data, j)),
    decreases data.len(),
{
    if data.len() < 2 {
        assert(forall|j: int| !crlf_at(data, j));
    } else if data[0] == 13u8 && data[1] == 10u8 {
    } else {
        let tail = data.skip(1);
        lemma_find_crlf(tail);
        assert forall|j: int| crlf_at(data, j) implies j >= 1 && crlf_at(tail, j - 1) by {
            assert(tail.len() == data.len() - 1);
            assert(tail[j - 1] == data[j]);
            assert(tail[j] == data[j + 1]);
        }
        assert forall|j: int| crlf_at(tail, j) implies crlf_at(data, j + 1) by {
            assert(tail[j] == data[j + 1]);
            assert(tail[j + 1] == data[j + 2]);
        }
        if find_crlf(tail) < 0 {
            assert forall|j: int| !crlf_at(data, j) by {
                if crlf_at(data, j) {
                    assert(crlf_at(tail, j - 1));
                }
            }
        }
    }
}

/// The first CRLF pair uniquely determines `find_crlf`.
pub proof fn lemma_find_crlf_at(data: Seq<u8>, k: int)
    requires
        crlf_at(data, k),
        forall|j: int| 0 <= j < k ==> !crlf_at(data, j),
    ensures
        find_crlf(data) == k,
{
    lemma_find_crlf(data);
    let f = find_crlf(data);
    if f == -1 {
        assert(!crlf_at(data, k));
    } else if f < k {
        assert(!crlf_at(data, f));
    } else if f > k {
        assert(!crlf_at(data, k));
    }
}

/// The CRLF-terminated lines of `data`, each line keeping its terminator;
/// a final unterminated line is kept as well.
pub open spec fn spec_split_crlf(data: Seq<u8>) -> Seq<Seq<u8>>
    decreases data.len(),
{
    if data.len() == 0 {
        Seq::empty()
    } else {
        let i = find_crlf(data);
        if 0 <= i && i + 2 <= data.len() {
            seq![data.take(i + 2)] + spec_split_crlf(data.skip(i + 2))
        } else {
            seq![data]
        }
    }
}

/// Law: splitting loses no bytes — the lines, joined back together in order,
/// are exactly the payload that was split.
pub proof fn lemma_split_crlf_join(data: Seq<u8>)
    ensures
        spec_split_crlf(data).flatten() == data,
    decreases data.len(),
{
    if data.len() == 0 {
        assert(spec_split_crlf(data).flatten() =~= data);
    } else {
        let i = find_crlf(data);
        if 0 <= i && i + 2 <= data.len() {
            let head = seq![data.take(i + 2)];
            let rest = spec_split_crlf(data.skip(i + 2));
            lemma_split_crlf_join(data.skip(i + 2));
            lemma_flatten_concat(head, rest);
            head.lemma_flatten_singleton();
            assert(spec_split_crlf(data).flatten() =~= data.take(i + 2) + data.skip(i + 2));
            assert(data.take(i + 2) + data.skip(i + 2) =~= data);
        } else {
            seq![data].lemma_flatten_singleton();
            assert(spec_split_crlf(data).flatten() =~= data);
        }
    }
}

/// Splits a DATA payload into its CRLF-terminated lines. Every line except
/// possibly the last ends with CRLF; the bytes of the lines, in order, are
/// exactly the bytes of `buf`.
pub fn split_buffer_crlf(buf: &[u8]) -> (lines: Vec<Vec<u8>>)
    ensures
        lines@.map_values(|l: Vec<u8>| l@) == spec_split_crlf(buf@),
{
    let n = buf.len();
    let mut lines: Vec<Vec<u8>> = Vec::new();
    let mut start: usize = 0;
    let mut i: usize = 0;
    proof {
        assert(buf@.skip(0) =~= buf@);
        assert(lines@.map_values(|l: Vec<u8>| l@) =~= Seq::<Seq<u8>>::empty());
        assert(Seq::<Seq<u8>>::empty() + spec_split_crlf(buf@) =~= spec_split_crlf(buf@));
    }
    while i < n
        invariant
            n == buf@.len(),
            start <= i && i <= n,
            spec_split_crlf(buf@) == lines@.map_values(|l: Vec<u8>| l@) + spec_split_crlf(
                buf@.skip(start as int),
            ),
            forall|j: int| 0 <= j < i - start ==> !crlf_at(buf@.skip(start as int), j),
        decreases n - i,
    {
        if buf[i] == 13 && i + 1 < n && buf[i + 1] == 10 {
            let line = slice_to_vec(slice_subrange(buf, start, i + 2));
            proof {
                let tail = buf@.skip(start as int);
                assert(crlf_at(tail, i - start)) by {
                    assert(tail[i - start] == buf@[i as int]);
                    assert(tail[i - start + 1] == buf@[i + 1]);
                }
                lemma_find_crlf_at(tail, i - start);
                assert(tail.take(i - start + 2) =~= buf@.subrange(start as int, i + 2));
                assert(tail.skip(i - start + 2) =~= buf@.skip(i + 2));
                assert(spec_split_crlf(tail) == seq![tail.take(i - start + 2)]
                    + spec_split_crlf(buf@.skip(i + 2)));
                assert((lines@.push(line)).map_values(|l: Vec<u8>| l@) =~= lines@.map_values(
                    |l: Vec<u8>| l@,
                ) + seq![line@]);
                assert(lines@.map_values(|l: Vec<u8>| l@) + spec_split_crlf(tail) =~= (
                lines@.push(line)).map_values(|l: Vec<u8>| l@) + spec_split_crlf(
                    buf@.skip(i + 2),
                ));
            }
            lines.push(line);
            start = i + 2;
            i = start;
        } else {
            proof {
                let tail = buf@.skip(start as int);
                assert(!crlf_at(tail, i - start)) by {
                    assert(tail[i - start] == buf@[i as int]);
                    if i - start + 1 < tail.len() {
                        assert(tail[i - start + 1] == buf@[i + 1]);
                    }
                }
            }
            i = i + 1;
        }
    }
    proof {
        let tail = buf@.skip(start as int);
        assert forall|j: int| !crlf_at(tail, j) by {
            if 0 <= j && j < tail.len() {
                assert(!crlf_at(tail, j));
            }
        }
        lemma_find_crlf(tail);
        if find_crlf(tail) >= 0 {
            assert(crlf_at(tail, find_crlf(tail)));
        }
    }
    if start < n {
        let line = slice_to_vec(slice_subrange(buf, start, n));
        proof {
            let tail = buf@.skip(start as int);
            assert(tail.len() > 0);
            assert(spec_split_crlf(tail) == seq![tail]);
            assert(line@ =~= tail);
            assert((lines@.push(line)).map_values(|l: Vec<u8>| l@) =~= lines@.map_values(
                |l: Vec<u8>| l@,
            ) + seq![line@]);
            assert(lines@.map_values(|l: Vec<u8>| l@) + seq![tail] =~= (lines@.push(
                line,
            )).map_values(|l: Vec<u8>| l@));
        }
        lines.push(line);
    } else {
        proof {
            let tail = buf@.skip(start as int);
            assert(tail.len() == 0);
            assert(spec_split_crlf(tail) =~= Seq::<Seq<u8>>::empty());
            assert(lines@.map_values(|l: Vec<u8>| l@) + Seq::<Seq<u8>>::empty()
                =~= lines@.map_values(|l: Vec<u8>| l@));
        }
    }
    lines
}

} // verus!
