use vstd::prelude::*;

verus! {

/// An MNA node index, or `None` for ground.
pub type NodeId = Option<usize>;

/// `branches[i] == Some(first + i)` for every `i`: a contiguous block of
/// auxiliary rows starting at `first`.
pub open spec fn bound_from(branches: Seq<Option<usize>>, first: int) -> bool {
    forall|i: int| 0 <= i < branches.len() ==> #[trigger] branches[i] == Some((first + i) as usize)
}

/// Bind every auxiliary branch row to a contiguous block starting at
/// `first_idx`: row `i` becomes `first_idx + i`.
pub fn bind_contiguous(branches: &mut Vec<Option<usize>>, first_idx: usize)
    requires
        first_idx + old(branches).len() <= usize::MAX,
    ensures
        final(branches)@.len() == old(branches)@.len(),
        bound_from(final(branches)@, first_idx as int),
{
    let n = branches.len();
    let mut i: usize = 0;
    while i < n
        invariant
            n == branches@.len(),
            first_idx + n <= usize::MAX,
            i <= n,
            forall|j: int| 0 <= j < i ==> #[trigger] branches@[j] == Some((first_idx + j) as usize),
        decreases n - i,
    {
        branches.set(i, Some(first_idx + i));
        i = i + 1;
    }
}

/// A vector of `len` unbound branch rows.
pub fn unbound_rows(len: usize) -> (v: Vec<Option<usize>>)
    ensures
        v@.len() == len,
        forall|i: int| 0 <= i < len ==> #[trigger] v@[i] == None::<usize>,
{
    let mut v: Vec<Option<usize>> = Vec::new();
    let mut i: usize = 0;
    while i < len
        invariant
            i <= len,
            v@.len() == i,
            forall|j: int| 0 <= j < i ==> #[trigger] v@[j] == None::<usize>,
        decreases len - i,
    {
        v.push(None);
        i = i + 1;
    }
    v
}

/// Copy of a terminal list.
pub fn copy_nodes(terminals: &[NodeId]) -> (v: Vec<NodeId>)
    ensures
        v@ == terminals@,
{
    let mut v: Vec<NodeId> = Vec::new();
    let mut i: usize = 0;
    while i < terminals.len()
        invariant
            i <= terminals@.len(),
            v@ == terminals@.subrange(0, i as int),
        decreases terminals@.len() - i,
    {
        v.push(terminals[i]);
        i = i + 1;
    }
    v
}

/// Copy of `terminals[from..to]`.
pub fn copy_range(terminals: &[NodeId], from: usize, to: usize) -> (v: Vec<NodeId>)
    requires
        from <= to <= terminals@.len(),
    ensures
        v@ == terminals@.subrange(from as int, to as int),
{
    let mut v: Vec<NodeId> = Vec::new();
    let mut i: usize = from;
    while i < to
        invariant
            from <= i <= to <= terminals@.len(),
            v@ == terminals@.subrange(from as int, i as int),
        decreases to - i,
    {
        v.push(terminals[i]);
        i = i + 1;
        assert(v@ =~= terminals@.subrange(from as int, i as int));
    }
    v
}

} // verus!
