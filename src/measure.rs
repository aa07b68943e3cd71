//! Measuring the heap memory that hangs off owned values.
//!
//! A value's measurement counts the heap blocks reachable from it, each by the size the
//! allocator reports for it, but not the space the value itself takes up. Block sizes come
//! from the allocator; the compositions below say how they add up.

use vstd::prelude::*;

verus! {

/// The capability of a value to measure the heap memory hanging off it. An implementation
/// compiled without verification also defines `heap_size`, returning what
/// `size_of_excluding_self` returns.
pub trait SizeOf {
    /// The heap bytes reachable from this value, excluding the value itself.
    spec fn heap_size(&self) -> usize;

    /// Measure the size of any heap-allocated structures that hang off this value, but not
    /// the space taken up by the value itself.
    fn size_of_excluding_self(&self) -> (r: usize)
        ensures
            r == self.heap_size(),
    ;
}

impl<T: SizeOf> SizeOf for Option<T> {
    /// Nothing for an empty value; the inner value's measurement otherwise.
    open spec fn heap_size(&self) -> usize {
        match self {
            None => 0,
            Some(x) => x.heap_size(),
        }
    }

    fn size_of_excluding_self(&self) -> (r: usize) {
        match self {
            None => 0,
            Some(x) => x.size_of_excluding_self(),
        }
    }
}

impl<T: SizeOf> SizeOf for std::sync::Arc<T> {
    /// What hangs off the shared value; values shared by several handles are counted once
    /// per handle.
    open spec fn heap_size(&self) -> usize {
        (**self).heap_size()
    }

    fn size_of_excluding_self(&self) -> (r: usize) {
        (**self).size_of_excluding_self()
    }
}

/// The sum of the measurements of a sequence of values.
pub open spec fn sum_heap_sizes<T: SizeOf>(s: Seq<T>) -> int
    decreases s.len(),
{
    if s.len() == 0 {
        0
    } else {
        sum_heap_sizes(s.drop_last()) + s.last().heap_size()
    }
}

pub open spec fn saturate(n: int) -> usize {
    if n > usize::MAX {
        usize::MAX
    } else {
        n as usize
    }
}

proof fn lemma_sum_heap_sizes_push<T: SizeOf>(s: Seq<T>, x: T)
    ensures
        sum_heap_sizes(s.push(x)) == sum_heap_sizes(s) + x.heap_size(),
{
    assert(s.push(x).drop_last() =~= s);
    assert(s.push(x).last() == x);
}

/// The measurement of a growable sequence: the usable size of its backing buffer, as the
/// allocator reports it (0 when there is none), plus the measurement of each element; held at
/// `usize::MAX` when the sum does not fit.
pub fn vec_size_of_excluding_self<T: SizeOf>(buffer_size: usize, v: &Vec<T>) -> (r: usize)
    ensures
        r == saturate(buffer_size + sum_heap_sizes(v@)),
{
    let mut total: usize = buffer_size;
    let mut i: usize = 0;
    while i < v.len()
        invariant
            i <= v@.len(),
            total == saturate(buffer_size + sum_heap_sizes(v@.take(i as int))),
            sum_heap_sizes(v@.take(i as int)) >= 0,
        decreases v@.len() - i,
    {
        let n = v[i].size_of_excluding_self();
        proof {
            assert(v@.take(i + 1) =~= v@.take(i as int).push(v@[i as int]));
            lemma_sum_heap_sizes_push(v@.take(i as int), v@[i as int]);
        }
        if total > usize::MAX - n {
            total = usize::MAX;
        } else {
            total = total + n;
        }
        i = i + 1;
    }
    proof {
        assert(v@.take(i as int) =~= v@);
    }
    total
}

/// The measurement of an owning box: the usable size of its block, as the allocator reports
/// it, plus the measurement of the boxed value; held at `usize::MAX` when it does not fit.
pub fn box_size_of_excluding_self<T: SizeOf>(block_size: usize, b: &Box<T>) -> (r: usize)
    ensures
        r == saturate(block_size + (**b).heap_size()),
{
    let n = (**b).size_of_excluding_self();
    if block_size > usize::MAX - n {
        usize::MAX
    } else {
        block_size + n
    }
}

/// The sum of a sequence of block sizes.
pub open spec fn sum_sizes(s: Seq<usize>) -> int
    decreases s.len(),
{
    if s.len() == 0 {
        0
    } else {
        sum_sizes(s.drop_last()) + s.last()
    }
}

/// The measurement of a linked list, walked node by node: for each node, the usable size of
/// its block, as the allocator reports it, plus the measurement of the value it holds; held at
/// `usize::MAX` when the sum does not fit. `node_block_sizes[i]` is the block of the node
/// holding `values[i]`.
pub fn list_size_of_excluding_self<T: SizeOf>(node_block_sizes: &Vec<usize>, values: &Vec<T>) -> (r: usize)
    requires
        node_block_sizes@.len() == values@.len(),
    ensures
        r == saturate(sum_sizes(node_block_sizes@) + sum_heap_sizes(values@)),
{
    let mut total: usize = 0;
    let mut i: usize = 0;
    while i < values.len()
        invariant
            i <= values@.len(),
            node_block_sizes@.len() == values@.len(),
            total == saturate(sum_sizes(node_block_sizes@.take(i as int)) + sum_heap_sizes(values@.take(i as int))),
            sum_sizes(node_block_sizes@.take(i as int)) >= 0,
            sum_heap_sizes(values@.take(i as int)) >= 0,
        decreases values@.len() - i,
    {
        let n = values[i].size_of_excluding_self();
        let b = node_block_sizes[i];
        proof {
            assert(values@.take(i + 1) =~= values@.take(i as int).push(values@[i as int]));
            lemma_sum_heap_sizes_push(values@.take(i as int), values@[i as int]);
            let bs = node_block_sizes@.take(i + 1);
            assert(bs.drop_last() =~= node_block_sizes@.take(i as int));
            assert(bs.last() == b);
        }
        if total > usize::MAX - b {
            total = usize::MAX;
        } else {
            total = total + b;
        }
        if total > usize::MAX - n {
            total = usize::MAX;
        } else {
            total = total + n;
        }
        i = i + 1;
    }
    proof {
        assert(values@.take(i as int) =~= values@);
        assert(node_block_sizes@.take(i as int) =~= node_block_sizes@);
    }
    total
}

/// An empty optional value measures 0; a populated one measures what its content does.
pub proof fn lemma_option_size<T: SizeOf>(o: Option<T>)
    ensures
        o is None ==> o.heap_size() == 0,
        o matches Some(x) ==> o.heap_size() == x.heap_size(),
{
}

/// A growable sequence measures its buffer's usable size plus the measurements of its
/// elements (when that fits); an empty one with no buffer measures 0.
pub proof fn lemma_vec_size<T: SizeOf>(buffer_size: usize, s: Seq<T>)
    ensures
        buffer_size + sum_heap_sizes(s) <= usize::MAX ==> saturate(buffer_size + sum_heap_sizes(s))
            == buffer_size + sum_heap_sizes(s),
        s.len() == 0 && buffer_size == 0 ==> saturate(buffer_size + sum_heap_sizes(s)) == 0,
{
    lemma_sum_heap_sizes_nonneg(s);
}

proof fn lemma_sum_heap_sizes_nonneg<T: SizeOf>(s: Seq<T>)
    ensures
        sum_heap_sizes(s) >= 0,
    decreases s.len(),
{
    if s.len() > 0 {
        lemma_sum_heap_sizes_nonneg(s.drop_last());
    }
}

} // verus!
