//! The shapes in which a runtime presents the places that hold references.

use crate::util::address::Address;
use crate::util::address::ObjectReference;
use crate::util::memory::spec_word_at;
use crate::util::memory::Memory;
use vstd::prelude::*;

verus! {

/// A place that holds a reference to an object: a reference can be loaded
/// from it and stored into it.
///
/// The shapes differ in how the reference is laid down in memory: as a
/// whole word, compressed, as a pointer into the middle of the object, or
/// not in memory at all.
pub trait Edge: Copy {
    /// Whether a reference can be loaded from the edge, given what the
    /// memory holds.
    spec fn can_load(&self, words: Map<usize, usize>) -> bool;

    /// The reference that the edge holds, given what the memory holds.
    spec fn spec_load(&self, words: Map<usize, usize>) -> ObjectReference;

    /// Whether `object` can be stored into the edge.
    spec fn can_store(&self, object: ObjectReference) -> bool;

    /// What the memory holds after `object` was stored into the edge.
    spec fn spec_store(&self, words: Map<usize, usize>, object: ObjectReference) -> Map<
        usize,
        usize,
    >;

    /// Loads the reference that the edge holds.
    fn load(&self, mem: &Memory) -> (object: ObjectReference)
        requires
            self.can_load(mem@),
        ensures
            object == self.spec_load(mem@),
    ;

    /// Stores `object` into the edge.
    fn store(&self, mem: &mut Memory, object: ObjectReference)
        requires
            self.can_store(object),
        ensures
            final(mem)@ == self.spec_store(old(mem)@, object),
    ;

    /// Prepares for a load from the edge. Does nothing by default.
    fn prefetch_load(&self) {
    }

    /// Prepares for a store into the edge. Does nothing by default.
    fn prefetch_store(&self) {
    }
}

/// A word in memory that holds the reference as it is. This is the shape
/// that suits most runtimes.
#[derive(Clone, Copy, Debug, PartialEq, Eq, Hash, Structural)]
pub struct SimpleEdge {
    slot_addr: Address,
}

impl SimpleEdge {
    /// The address of the word.
    pub closed spec fn slot(&self) -> Address {
        self.slot_addr
    }

    /// The edge whose word lies at `address`.
    pub fn from_address(address: Address) -> (e: Self)
        ensures
            e.slot() == address,
    {
        Self { slot_addr: address }
    }

    /// The address of the word.
    pub fn as_address(&self) -> (a: Address)
        ensures
            a == self.slot(),
    {
        self.slot_addr
    }
}

impl Edge for SimpleEdge {
    open spec fn can_load(&self, words: Map<usize, usize>) -> bool {
        true
    }

    open spec fn spec_load(&self, words: Map<usize, usize>) -> ObjectReference {
        ObjectReference(spec_word_at(words, self.slot().0))
    }

    open spec fn can_store(&self, object: ObjectReference) -> bool {
        true
    }

    open spec fn spec_store(&self, words: Map<usize, usize>, object: ObjectReference) -> Map<
        usize,
        usize,
    > {
        words.insert(self.slot().0, object.0)
    }

    fn load(&self, mem: &Memory) -> (object: ObjectReference) {
        ObjectReference(mem.load(self.slot_addr))
    }

    fn store(&self, mem: &mut Memory, object: ObjectReference)
        ensures
            self.spec_load(final(mem)@) == object,
    {
        mem.store(self.slot_addr, object.0);
    }
}

/// An address is an edge: the word at the address holds the reference as
/// it is.
impl Edge for Address {
    open spec fn can_load(&self, words: Map<usize, usize>) -> bool {
        true
    }

    open spec fn spec_load(&self, words: Map<usize, usize>) -> ObjectReference {
        ObjectReference(spec_word_at(words, self.0))
    }

    open spec fn can_store(&self, object: ObjectReference) -> bool {
        true
    }

    open spec fn spec_store(&self, words: Map<usize, usize>, object: ObjectReference) -> Map<
        usize,
        usize,
    > {
        words.insert(self.0, object.0)
    }

    fn load(&self, mem: &Memory) -> (object: ObjectReference) {
        ObjectReference(mem.load(*self))
    }

    fn store(&self, mem: &mut Memory, object: ObjectReference)
        ensures
            self.spec_load(final(mem)@) == object,
    {
        mem.store(*self, object.0);
    }
}

/// The distance in bytes between neighbouring edges of an [`EdgeRange`].
pub const BYTES_IN_EDGE: usize = 8;

/// A contiguous run of edges that belong to one object, such as the
/// elements of an array of references.
pub trait MemorySlice: Sized {
    /// What holds of every slice that exists at run time.
    spec fn wf(&self) -> bool;

    /// The edges of the slice, in order.
    spec fn edges(&self) -> Seq<Address>;

    /// The slice cut into runs of `chunk_size` edges.
    spec fn spec_chunks(&self, chunk_size: int) -> Seq<Self>;

    /// `spec_chunks` cuts the slice into runs of `chunk_size` edges: as
    /// many as it takes, each but the last of `chunk_size` edges, the last
    /// of what is left, and none empty.
    proof fn lemma_chunks(&self, chunk_size: int, k: int)
        requires
            self.wf(),
            chunk_size > 0,
            0 <= k < self.spec_chunks(chunk_size).len(),
        ensures
            self.spec_chunks(chunk_size).len() == (self.edges().len() + chunk_size - 1)
                / chunk_size,
            k * chunk_size < self.edges().len(),
            self.spec_chunks(chunk_size)[k].edges() == self.edges().subrange(
                k * chunk_size,
                if (k + 1) * chunk_size <= self.edges().len() {
                    (k + 1) * chunk_size
                } else {
                    self.edges().len() as int
                },
            ),
    ;

    /// The number of edges in the slice.
    fn len(&self) -> (n: usize)
        ensures
            n == self.edges().len(),
    ;

    /// The slice cut into runs of `chunk_size` edges, the last of which may
    /// be shorter.
    fn chunks(&self, chunk_size: usize) -> (chunks: Vec<Self>)
        requires
            chunk_size > 0,
        ensures
            self.wf(),
            chunks@ == self.spec_chunks(chunk_size as int),
    ;
}

/// A run of neighbouring words, each of which holds a reference.
#[derive(Clone, Copy, Debug, PartialEq, Eq, Hash, Structural)]
pub struct EdgeRange {
    start: Address,
    len: usize,
}

impl EdgeRange {
    /// The last word ends within the address space.
    #[verifier::type_invariant]
    spec fn in_bounds(self) -> bool {
        self.start@ + BYTES_IN_EDGE * self.len <= usize::MAX
    }

    /// The address of the first word.
    pub closed spec fn start(&self) -> Address {
        self.start
    }

    /// The number of words.
    pub closed spec fn count(&self) -> nat {
        self.len as nat
    }

    /// The run of `len` words from `start` on.
    pub fn new(start: Address, len: usize) -> (r: Self)
        requires
            start@ + BYTES_IN_EDGE * len <= usize::MAX,
        ensures
            r.start() == start,
            r.count() == len,
    {
        Self { start, len }
    }

    /// The address of the first word.
    pub fn start_address(&self) -> (a: Address)
        ensures
            a == self.start(),
    {
        self.start
    }

    /// The edge at place `index` of the run.
    pub fn edge_at(&self, index: usize) -> (e: Address)
        requires
            index < self.count(),
        ensures
            e == self.edges()[index as int],
    {
        proof {
            use_type_invariant(self);
            assert(BYTES_IN_EDGE * index < BYTES_IN_EDGE * self.len) by (nonlinear_arith)
                requires
                    index < self.len,
            ;
        }
        Address(self.start.0 + BYTES_IN_EDGE * index)
    }
}

impl MemorySlice for EdgeRange {
    closed spec fn wf(&self) -> bool {
        self.start@ + BYTES_IN_EDGE * self.len <= usize::MAX
    }

    closed spec fn edges(&self) -> Seq<Address> {
        Seq::new(self.len as nat, |i: int| Address((self.start.0 + BYTES_IN_EDGE * i) as usize))
    }

    closed spec fn spec_chunks(&self, chunk_size: int) -> Seq<Self> {
        Seq::new(
            ((self.len + chunk_size - 1) / chunk_size) as nat,
            |k: int|
                EdgeRange {
                    start: Address((self.start.0 + BYTES_IN_EDGE * (k * chunk_size)) as usize),
                    len: (if (k + 1) * chunk_size <= self.len {
                        chunk_size
                    } else {
                        self.len - k * chunk_size
                    }) as usize,
                },
        )
    }

    proof fn lemma_chunks(&self, chunk_size: int, k: int) {
        let len = self.len as int;
        let n = chunk_size;
        let whole = self.edges();
        let chunks = self.spec_chunks(chunk_size);
        lemma_chunk_count(len, chunk_size);
        lemma_chunk_bounds(len, n, k);
        let hi = if (k + 1) * n <= len {
            (k + 1) * n
        } else {
            len
        };
        let part = chunks[k].edges();
        assert((k + 1) * n == k * n + n) by (nonlinear_arith);
        assert(chunks[k].len == hi - k * n);
        assert(part.len() == hi - k * n);
        assert(BYTES_IN_EDGE * (k * n) <= BYTES_IN_EDGE * len) by (nonlinear_arith)
            requires
                k * n <= len,
        ;
        assert forall|i: int| 0 <= i < hi - k * n implies part[i] == whole.subrange(k * n, hi)[i] by {
            assert(BYTES_IN_EDGE * (k * n) + BYTES_IN_EDGE * i == BYTES_IN_EDGE * (k * n + i))
                by (nonlinear_arith);
            assert(BYTES_IN_EDGE * (k * n + i) <= BYTES_IN_EDGE * len) by (nonlinear_arith)
                requires
                    k * n + i <= len,
            ;
        }
        assert(part =~= whole.subrange(k * n, hi));
    }

    fn len(&self) -> (n: usize) {
        self.len
    }

    fn chunks(&self, chunk_size: usize) -> (chunks: Vec<Self>) {
        let mut chunks: Vec<Self> = Vec::new();
        let mut done: usize = 0;
        let ghost mut k: int = 0;
        let ghost all = self.spec_chunks(chunk_size as int);
        proof {
            use_type_invariant(self);
            lemma_chunk_count(self.len as int, chunk_size as int);
        }
        while done < self.len
            invariant
                chunk_size > 0,
                self.start@ + BYTES_IN_EDGE * self.len <= usize::MAX,
                0 <= k,
                done == k * chunk_size || (done == self.len && k == all.len()),
                done <= self.len,
                k <= all.len(),
                all == self.spec_chunks(chunk_size as int),
                all.len() == (self.len + chunk_size - 1) / (chunk_size as int),
                done == self.len ==> k == all.len(),
                chunks@ == all.subrange(0, k),
            decreases self.len - done,
        {
            let left: usize = self.len - done;
            let take: usize = if left >= chunk_size {
                chunk_size
            } else {
                left
            };
            proof {
                lemma_chunk_last(self.len as int, chunk_size as int, k);
                assert((k + 1) * chunk_size == k * chunk_size + chunk_size) by (nonlinear_arith);
                assert(BYTES_IN_EDGE * done + BYTES_IN_EDGE * take <= BYTES_IN_EDGE * self.len)
                    by (nonlinear_arith)
                    requires
                        done + take <= self.len,
                ;
            }
            let chunk = EdgeRange { start: Address(self.start.0 + BYTES_IN_EDGE * done), len: take };
            proof {
                assert(BYTES_IN_EDGE * (k * chunk_size) == BYTES_IN_EDGE * done);
                assert(chunk == all[k]);
                assert(all.subrange(0, k).push(chunk) =~= all.subrange(0, k + 1));
            }
            chunks.push(chunk);
            done = done + take;
            proof {
                k = k + 1;
            }
        }
        proof {
            if self.len == 0 {
                assert(all.len() == 0);
            }
            assert(all.subrange(0, k) =~= all);
        }
        chunks
    }
}

/// The number of chunks of `len` items in runs of `n`.
proof fn lemma_chunk_count(len: int, n: int)
    requires
        len >= 0,
        n > 0,
    ensures
        (len + n - 1) / n >= 0,
        len == 0 ==> (len + n - 1) / n == 0,
{
    if len == 0 {
        vstd::arithmetic::div_mod::lemma_fundamental_div_mod_converse(n - 1, n, 0, n - 1);
    } else {
        assert((len + n - 1) / n >= 0) by (nonlinear_arith)
            requires
                len >= 0,
                n > 0,
        ;
    }
}

/// The chunk with index `k` starts within the items.
proof fn lemma_chunk_bounds(len: int, n: int, k: int)
    requires
        len >= 0,
        n > 0,
        0 <= k < (len + n - 1) / n,
    ensures
        0 <= k * n < len,
{
    let q = (len + n - 1) / n;
    vstd::arithmetic::div_mod::lemma_fundamental_div_mod(len + n - 1, n);
    assert(k * n <= (q - 1) * n && 0 <= k * n) by (nonlinear_arith)
        requires
            0 <= k <= q - 1,
            n > 0,
    ;
    assert((q - 1) * n == q * n - n) by (nonlinear_arith);
    vstd::arithmetic::mul::lemma_mul_is_commutative(n, q);
}

/// A chunk that ends at or behind the last item is the last chunk, and one
/// that ends before it is not.
proof fn lemma_chunk_last(len: int, n: int, k: int)
    requires
        len >= 0,
        n > 0,
        0 <= k,
        k * n < len,
    ensures
        (k + 1) * n >= len ==> k + 1 == (len + n - 1) / n,
        (k + 1) * n < len ==> k + 1 < (len + n - 1) / n,
        k < (len + n - 1) / n,
{
    let q = (len + n - 1) / n;
    vstd::arithmetic::div_mod::lemma_fundamental_div_mod(len + n - 1, n);
    vstd::arithmetic::mul::lemma_mul_is_commutative(n, q);
    let r = (len + n - 1) % n;
    assert((k + 1) * n == k * n + n) by (nonlinear_arith);
    // q * n + r == len + n - 1, 0 <= r < n
    if (k + 1) * n >= len {
        assert(q == k + 1) by (nonlinear_arith)
            requires
                q * n + r == len + n - 1,
                0 <= r < n,
                k * n < len,
                k * n + n >= len,
                n > 0,
        ;
    } else {
        assert(q > k + 1) by (nonlinear_arith)
            requires
                q * n + r == len + n - 1,
                0 <= r < n,
                k * n + n < len,
                n > 0,
        ;
    }
}

} // verus!
