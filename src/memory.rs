//! A growable address space of words, reading 0 wherever nothing was stored.
use vstd::prelude::*;

use crate::{Address, Data};

verus! {

/// The word at address `a` of a buffer `mem`: 0 outside it.
pub open spec fn read_word(mem: Seq<Data>, a: int) -> Data {
    if 0 <= a < mem.len() {
        mem[a]
    } else {
        0
    }
}

/// The buffer after storing `v` at address `a`, zero-extended as needed.
pub open spec fn write_word(mem: Seq<Data>, a: nat, v: Data) -> Seq<Data> {
    if a < mem.len() {
        mem.update(a as int, v)
    } else {
        mem + Seq::new((a - mem.len()) as nat, |i: int| 0) + seq![v]
    }
}

/// The buffer after a sequence of stores, applied in order.
pub open spec fn apply_writes(mem: Seq<Data>, writes: Seq<(nat, Data)>) -> Seq<Data>
    decreases writes.len(),
{
    if writes.len() == 0 {
        mem
    } else {
        let (a, v) = writes.last();
        write_word(apply_writes(mem, writes.drop_last()), a, v)
    }
}

/// Applying two sequences of stores one after the other is applying them
/// joined.
pub proof fn lemma_apply_writes_concat(mem: Seq<Data>, a: Seq<(nat, Data)>, b: Seq<(nat, Data)>)
    ensures
        apply_writes(apply_writes(mem, a), b) == apply_writes(mem, a + b),
    decreases b.len(),
{
    if b.len() == 0 {
        assert(a + b =~= a);
    } else {
        assert((a + b).drop_last() =~= a + b.drop_last());
        assert((a + b).last() == b.last());
        lemma_apply_writes_concat(mem, a, b.drop_last());
    }
}

/// A store changes the word at its own address and no other.
pub proof fn lemma_read_after_write(mem: Seq<Data>, a: nat, v: Data, b: int)
    ensures
        read_word(write_word(mem, a, v), b) == if b == a {
            v
        } else {
            read_word(mem, b)
        },
{
}

/// An address that no store of `writes` touches keeps the word it had in `mem`;
/// past the end of `mem` that word is 0.
pub proof fn lemma_unwritten_reads_initial(mem: Seq<Data>, writes: Seq<(nat, Data)>, a: nat)
    requires
        forall|j: int| 0 <= j < writes.len() ==> writes[j].0 != a,
    ensures
        read_word(apply_writes(mem, writes), a as int) == read_word(mem, a as int),
        a >= mem.len() ==> read_word(apply_writes(mem, writes), a as int) == 0,
    decreases writes.len(),
{
    if writes.len() > 0 {
        let (b, v) = writes.last();
        assert(writes[writes.len() - 1].0 != a);
        lemma_unwritten_reads_initial(mem, writes.drop_last(), a);
        lemma_read_after_write(apply_writes(mem, writes.drop_last()), b, v, a as int);
    }
}

/// The word at an address is the value of the last store to it, however far
/// past the initial buffer that address lies.
pub proof fn lemma_last_write_wins(mem: Seq<Data>, writes: Seq<(nat, Data)>, i: int)
    requires
        0 <= i < writes.len(),
        forall|j: int| i < j < writes.len() ==> writes[j].0 != writes[i].0,
    ensures
        read_word(apply_writes(mem, writes), writes[i].0 as int) == writes[i].1,
    decreases writes.len(),
{
    let (b, v) = writes.last();
    let rest = writes.drop_last();
    lemma_read_after_write(apply_writes(mem, rest), b, v, writes[i].0 as int);
    if i < writes.len() - 1 {
        assert(rest[i] == writes[i]);
        lemma_last_write_wins(mem, rest, i);
    }
}

/// Memory of the machine: a buffer that grows on stores past its end.
pub struct Memory {
    cells: Vec<Data>,
}

impl View for Memory {
    type V = Seq<Data>;

    closed spec fn view(&self) -> Seq<Data> {
        self.cells@
    }
}

impl Memory {
    /// Memory holding `initial_data` at addresses `0..len`.
    pub fn new(initial_data: Vec<Data>) -> (r: Memory)
        ensures
            r@ == initial_data@,
    {
        Memory { cells: initial_data }
    }

    /// The length of the buffer: one past the highest address stored so far.
    pub fn len(&self) -> (r: usize)
        ensures
            r == self@.len(),
    {
        self.cells.len()
    }

    /// The stored word at `address`, or `None` past the end of the buffer.
    pub fn peek(&self, address: Address) -> (r: Option<&Data>)
        ensures
            match r {
                Some(v) => address < self@.len() && *v == self@[address as int],
                None => address >= self@.len(),
            },
    {
        if address < self.cells.len() {
            Some(&self.cells[address])
        } else {
            None
        }
    }

    /// The word at `address`; 0 where nothing was ever stored.
    pub fn get(&self, address: Address) -> (r: Data)
        ensures
            r == read_word(self@, address as int),
    {
        if address < self.cells.len() {
            self.cells[address]
        } else {
            0
        }
    }

    /// Stores `value` at `address`, extending the buffer with zeros as needed.
    pub fn write(&mut self, address: Address, value: Data)
        requires
            address < usize::MAX,
        ensures
            final(self)@ == write_word(old(self)@, address as nat, value),
    {
        let start: usize = self.cells.len();
        if address < start {
            self.cells.set(address, value);
        } else {
            while self.cells.len() < address
                invariant
                    start <= self.cells@.len() <= address,
                    start == old(self)@.len(),
                    forall|i: int| 0 <= i < start ==> self.cells@[i] == old(self)@[i],
                    forall|i: int| start <= i < self.cells@.len() ==> self.cells@[i] == 0,
                decreases address - self.cells@.len(),
            {
                self.cells.push(0);
            }
            self.cells.push(value);
            assert(self.cells@ =~= write_word(old(self)@, address as nat, value));
        }
    }
}

} // verus!
