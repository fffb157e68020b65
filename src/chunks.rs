//! The chunking of data lines: each line joins the last chunk, or starts a
//! new one when there is none yet or the last one is full.
use vstd::prelude::*;

verus! {

/// `data` cut into consecutive chunks of `n` items, the last one possibly
/// shorter.
pub open spec fn chunks<T>(data: Seq<T>, n: nat) -> Seq<Seq<T>>
    decreases data.len(),
{
    if data.len() == 0 {
        seq![]
    } else {
        let prev = chunks(data.drop_last(), n);
        if prev.len() == 0 || prev.last().len() >= n {
            prev.push(seq![data.last()])
        } else {
            prev.update(prev.len() - 1, prev.last().push(data.last()))
        }
    }
}

/// The number of chunks of `len` items each holding at most `n`: `len / n`
/// rounded up.
pub open spec fn chunk_count(len: nat, n: nat) -> nat
    recommends
        n > 0,
{
    ((len + n - 1) as nat) / n
}

/// For `n > 0`, every chunk but the last holds exactly `n` items, the last
/// holds between 1 and `n`, and all but the last make up `(count - 1) * n`
/// items.
pub proof fn lemma_chunks_shape<T>(data: Seq<T>, n: nat)
    requires
        n > 0,
    ensures
        data.len() == 0 <==> chunks(data, n).len() == 0,
        data.len() > 0 ==> {
            let c = chunks(data, n);
            &&& forall|i: int| 0 <= i < c.len() - 1 ==> #[trigger] c[i].len() == n
            &&& 1 <= c.last().len() <= n
            &&& data.len() == (c.len() - 1) * n + c.last().len()
        },
    decreases data.len(),
{
    if data.len() > 0 {
        let prev = chunks(data.drop_last(), n);
        lemma_chunks_shape(data.drop_last(), n);
        let c = chunks(data, n);
        if prev.len() == 0 {
        } else if prev.last().len() >= n {
            assert(c.len() * n == (c.len() - 1) * n + n) by (nonlinear_arith);
            assert(prev.len() * n == (prev.len() - 1) * n + n) by (nonlinear_arith);
        } else {
            assert forall|i: int| 0 <= i < c.len() - 1 implies #[trigger] c[i].len() == n by {
                assert(c[i] == prev[i]);
            }
        }
    }
}

/// For `n > 0`, `data` falls into `len / n` chunks, rounded up.
pub proof fn lemma_chunk_count<T>(data: Seq<T>, n: nat)
    requires
        n > 0,
    ensures
        chunks(data, n).len() == chunk_count(data.len(), n),
{
    lemma_chunks_shape(data, n);
    let c: int = chunks(data, n).len() as int;
    if data.len() == 0 {
        assert(((n - 1) as nat) / n == 0) by (nonlinear_arith)
            requires n > 0;
    } else {
        let r: int = chunks(data, n).last().len() as int;
        let nn: int = n as int;
        assert(data.len() + nn - 1 == c * nn + (r - 1)) by (nonlinear_arith)
            requires data.len() == (c - 1) * nn + r;
        assert((c * nn + (r - 1)) / nn == c) by (nonlinear_arith)
            requires 1 <= r <= nn, nn > 0;
    }
}

/// There are never more chunks than items.
pub proof fn lemma_chunk_count_le<T>(data: Seq<T>, n: nat)
    ensures
        chunks(data, n).len() <= data.len(),
    decreases data.len(),
{
    if data.len() > 0 {
        lemma_chunk_count_le(data.drop_last(), n);
    }
}

/// The chunks, put back together in order, give `data` again.
pub proof fn lemma_chunks_flatten<T>(data: Seq<T>, n: nat)
    ensures
        chunks(data, n).flatten() == data,
    decreases data.len(),
{
    if data.len() > 0 {
        let prev = chunks(data.drop_last(), n);
        lemma_chunks_flatten(data.drop_last(), n);
        let c = chunks(data, n);
        if prev.len() == 0 || prev.last().len() >= n {
            prev.lemma_flatten_push(seq![data.last()]);
            assert(c.flatten() == data.drop_last() + seq![data.last()]);
        } else {
            let init = prev.drop_last();
            assert(prev == init.push(prev.last()));
            assert(c == init.push(prev.last().push(data.last())));
            init.lemma_flatten_push(prev.last());
            init.lemma_flatten_push(prev.last().push(data.last()));
            assert(init.flatten() + prev.last().push(data.last()) =~= (init.flatten() + prev.last()).push(data.last()));
            assert(c.flatten() == data.drop_last().push(data.last()));
        }
        assert(data =~= data.drop_last().push(data.last()));
        assert(data =~= data.drop_last() + seq![data.last()]);
    }
}

} // verus!
