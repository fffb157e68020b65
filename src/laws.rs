//! What holds of every split.
use crate::chunks::{chunk_count, chunks, lemma_chunk_count, lemma_chunks_flatten, lemma_chunks_shape};
use crate::path::output_name;
use crate::splitter::{Splitter, data_of, header_len, header_of, split_files};
use vstd::prelude::*;

verus! {

/// A split gives one file per `n` data lines, rounded up, and one file where
/// there are no data lines at all.
pub proof fn lemma_split_file_count(p: Seq<char>, src: Seq<Seq<char>>, n: nat, h: nat)
    requires
        n > 0,
    ensures
        split_files(p, src, n, h).len() == if data_of(src, h).len() == 0 {
            1
        } else {
            chunk_count(data_of(src, h).len(), n)
        },
{
    lemma_chunk_count(data_of(src, h), n);
}

/// The data lines of the files, without their headers and taken in the
/// files' order, are the source's data lines: none lost, repeated or moved.
pub proof fn lemma_split_keeps_data_lines(p: Seq<char>, src: Seq<Seq<char>>, n: nat, h: nat)
    ensures
        ({
            let fs = split_files(p, src, n, h);
            let hh = header_len(src.len(), h) as int;
            Seq::new(fs.len(), |i: int| fs[i].1.skip(hh)).flatten() == data_of(src, h)
        }),
{
    let fs = split_files(p, src, n, h);
    let hh = header_len(src.len(), h) as int;
    let data = data_of(src, h);
    let cs = if data.len() == 0 { seq![seq![]] } else { chunks(data, n) };
    assert(header_of(src, h).len() == hh);
    assert forall|i: int| 0 <= i < cs.len() implies #[trigger] fs[i].1.skip(hh) == cs[i] by {
        assert(fs[i].1 == header_of(src, h) + cs[i]);
        assert((header_of(src, h) + cs[i]).skip(hh) =~= cs[i]);
    }
    assert(Seq::new(fs.len(), |i: int| fs[i].1.skip(hh)) =~= cs);
    if data.len() == 0 {
        cs.lemma_flatten_one_element();
        assert(cs.flatten() =~= data);
    } else {
        lemma_chunks_flatten(data, n);
    }
}

/// Every file begins with the same header, the source's first `h` lines (all
/// of them if the source is shorter); after it every file but the last holds
/// exactly `n` data lines, and the last at most `n`.
pub proof fn lemma_split_headers_and_sizes(p: Seq<char>, src: Seq<Seq<char>>, n: nat, h: nat)
    requires
        n > 0,
    ensures
        ({
            let fs = split_files(p, src, n, h);
            let hh = header_len(src.len(), h);
            &&& forall|i: int| 0 <= i < fs.len() ==> (#[trigger] fs[i]).1.take(hh as int) == src.take(hh as int)
            &&& forall|i: int| 0 <= i < fs.len() - 1 ==> (#[trigger] fs[i]).1.len() == hh + n
            &&& fs.last().1.len() <= hh + n
        }),
{
    let fs = split_files(p, src, n, h);
    let hh = header_len(src.len(), h);
    let header = header_of(src, h);
    let data = data_of(src, h);
    lemma_chunks_shape(data, n);
    assert forall|i: int| 0 <= i < fs.len() implies (#[trigger] fs[i]).1.take(hh as int) == src.take(hh as int) by {
        assert(fs[i].1.take(hh as int) =~= header);
    }
}

/// The `k`-th file, counting from 1, is named for index `k`: the indices run
/// from 1 to the number of files, with no gap and no repeat.
pub proof fn lemma_split_names(p: Seq<char>, src: Seq<Seq<char>>, n: nat, h: nat)
    ensures
        forall|i: int| 0 <= i < split_files(p, src, n, h).len()
            ==> (#[trigger] split_files(p, src, n, h)[i]).0 == output_name(p, (i + 1) as nat),
{
}

/// Two runs of the same request over the same source lines write the same
/// files, under the same names, with the same contents.
pub proof fn lemma_rerun_same_files(a: Splitter, b: Splitter)
    requires
        a.path() == b.path(),
        a.num_lines() == b.num_lines(),
        a.num_header_lines() == b.num_header_lines(),
        a.lines_read() == b.lines_read(),
    ensures
        a.written() == b.written(),
        a.result() == b.result(),
{
}

} // verus!
