use vstd::prelude::*;

verus! {

/// Size of the address space, in bytes.
pub const RAM_LENGTH: usize = 0x1000;

/// `mem` with the bytes of `data` written from address `start` on.
pub open spec fn spliced(mem: Seq<u8>, start: int, data: Seq<u8>) -> Seq<u8> {
    Seq::new(
        mem.len(),
        |a: int|
            if start <= a < start + data.len() {
                data[a - start]
            } else {
                mem[a]
            },
    )
}

/// `RAM_LENGTH` zero bytes.
pub open spec fn zeroed() -> Seq<u8> {
    Seq::new(RAM_LENGTH as nat, |a: int| 0u8)
}

/// The byte-addressable store that the interpreter reads and writes.
pub trait Memory {
    /// The bytes held, indexed by address.
    spec fn bytes(&self) -> Seq<u8>;

    /// Every memory holds exactly `RAM_LENGTH` bytes.
    proof fn lemma_bytes_len(&self)
        ensures
            self.bytes().len() == RAM_LENGTH,
    ;

    /// Sets every byte to zero.
    fn reset(&mut self)
        ensures
            final(self).bytes() == zeroed(),
    ;

    /// The byte at `addr`.
    fn read(&mut self, addr: usize) -> (r: u8)
        requires
            addr < RAM_LENGTH,
        ensures
            r == old(self).bytes()[addr as int],
            final(self).bytes() == old(self).bytes(),
    ;

    /// Stores `v` at `addr`.
    fn write(&mut self, addr: usize, v: u8)
        requires
            addr < RAM_LENGTH,
        ensures
            final(self).bytes() == old(self).bytes().update(addr as int, v),
    ;

    /// Stores `data` at the addresses from `start` on.
    fn write_seq(&mut self, start: usize, data: &[u8])
        requires
            start + data@.len() <= RAM_LENGTH,
        ensures
            final(self).bytes() == spliced(old(self).bytes(), start as int, data@),
    ;
}

/// A plain array of bytes.
pub struct RAM {
    mem: [u8; RAM_LENGTH],
}

impl RAM {
    pub closed spec fn view(&self) -> Seq<u8> {
        self.mem@
    }

    /// A memory whose bytes are all zero.
    pub fn new() -> (r: Self)
        ensures
            r@ == zeroed(),
    {
        let r = RAM { mem: [0u8; RAM_LENGTH] };
        assert(r@ =~= zeroed());
        r
    }

    /// All bytes, by address.
    pub fn read_all(&self) -> (r: &[u8])
        ensures
            r@ == self@,
    {
        self.mem.as_slice()
    }
}

impl Memory for RAM {
    open spec fn bytes(&self) -> Seq<u8> {
        self@
    }

    proof fn lemma_bytes_len(&self) {
    }

    fn reset(&mut self) {
        let mut a: usize = 0;
        while a < RAM_LENGTH
            invariant
                a <= RAM_LENGTH,
                self@.len() == RAM_LENGTH,
                forall|j: int| 0 <= j < a ==> self@[j] == 0,
            decreases RAM_LENGTH - a,
        {
            self.mem[a] = 0;
            a = a + 1;
        }
        assert(self@ =~= zeroed());
    }

    fn read(&mut self, addr: usize) -> (r: u8) {
        self.mem[addr]
    }

    fn write(&mut self, addr: usize, v: u8) {
        self.mem[addr] = v;
    }

    fn write_seq(&mut self, start: usize, data: &[u8]) {
        let ghost before = self@;
        let mut k: usize = 0;
        while k < data.len()
            invariant
                start + data@.len() <= RAM_LENGTH,
                k <= data@.len(),
                before.len() == RAM_LENGTH,
                self@ =~= spliced(before, start as int, data@.take(k as int)),
            decreases data@.len() - k,
        {
            self.mem[start + k] = data[k];
            k = k + 1;
            assert(self@ =~= spliced(before, start as int, data@.take(k as int)));
        }
        assert(data@.take(k as int) =~= data@);
    }
}

/// A memory that counts, for each address, the reads and writes made
/// through the `Memory` interface.
pub struct WatchedRAM {
    ram: RAM,
    /// Reads of each address since the counters were last cleared.
    pub reads: [u64; RAM_LENGTH],
    /// Writes to each address since the counters were last cleared.
    pub writes: [u64; RAM_LENGTH],
}

/// `count` with one more event at `addr`, stopping at the largest `u64`.
pub open spec fn bumped(count: Seq<u64>, addr: int) -> Seq<u64> {
    count.update(addr, if count[addr] == u64::MAX { u64::MAX } else { (count[addr] + 1) as u64 })
}

/// `count` with one more event at each address from `start` to `end`, exclusive.
pub open spec fn bumped_range(count: Seq<u64>, start: int, end: int) -> Seq<u64> {
    Seq::new(
        count.len(),
        |a: int|
            if start <= a < end && count[a] < u64::MAX {
                (count[a] + 1) as u64
            } else {
                count[a]
            },
    )
}

/// `RAM_LENGTH` zero counters.
pub open spec fn no_events() -> Seq<u64> {
    Seq::new(RAM_LENGTH as nat, |a: int| 0u64)
}

impl WatchedRAM {
    pub closed spec fn view(&self) -> Seq<u8> {
        self.ram@
    }

    /// The read counter of each address.
    pub closed spec fn read_counts(&self) -> Seq<u64> {
        self.reads@
    }

    /// The write counter of each address.
    pub closed spec fn write_counts(&self) -> Seq<u64> {
        self.writes@
    }

    /// A zeroed memory with every counter at zero.
    pub fn new() -> (r: Self)
        ensures
            r@ == zeroed(),
            r.read_counts() == no_events(),
            r.write_counts() == no_events(),
    {
        let r = WatchedRAM { ram: RAM::new(), reads: [0u64; RAM_LENGTH], writes: [0u64; RAM_LENGTH] };
        assert(r.read_counts() =~= no_events());
        assert(r.write_counts() =~= no_events());
        r
    }

    /// Sets every read and write counter back to zero; the bytes stay.
    pub fn reset_reads_writes(&mut self)
        ensures
            final(self)@ == old(self)@,
            final(self).read_counts() == no_events(),
            final(self).write_counts() == no_events(),
    {
        let mut a: usize = 0;
        while a < RAM_LENGTH
            invariant
                a <= RAM_LENGTH,
                self@ == old(self)@,
                self.reads@.len() == RAM_LENGTH,
                self.writes@.len() == RAM_LENGTH,
                forall|j: int| 0 <= j < a ==> self.reads@[j] == 0 && self.writes@[j] == 0,
            decreases RAM_LENGTH - a,
        {
            self.reads[a] = 0;
            self.writes[a] = 0;
            a = a + 1;
        }
        assert(self.reads@ =~= no_events());
        assert(self.writes@ =~= no_events());
    }

    /// All bytes, by address; this is not counted as a read.
    pub fn read_all(&self) -> (r: &[u8])
        ensures
            r@ == self@,
    {
        self.ram.read_all()
    }
}

impl Memory for WatchedRAM {
    open spec fn bytes(&self) -> Seq<u8> {
        self@
    }

    proof fn lemma_bytes_len(&self) {
    }

    fn reset(&mut self)
        ensures
            final(self).read_counts() == old(self).read_counts(),
            final(self).write_counts() == old(self).write_counts(),
    {
        self.ram.reset();
    }

    fn read(&mut self, addr: usize) -> (r: u8)
        ensures
            final(self).read_counts() == bumped(old(self).read_counts(), addr as int),
            final(self).write_counts() == old(self).write_counts(),
    {
        let n = self.reads[addr];
        self.reads[addr] = n.saturating_add(1);
        self.ram.read(addr)
    }

    fn write(&mut self, addr: usize, v: u8)
        ensures
            final(self).read_counts() == old(self).read_counts(),
            final(self).write_counts() == bumped(old(self).write_counts(), addr as int),
    {
        let n = self.writes[addr];
        self.writes[addr] = n.saturating_add(1);
        self.ram.write(addr, v);
    }

    fn write_seq(&mut self, start: usize, data: &[u8])
        ensures
            final(self).read_counts() == old(self).read_counts(),
            final(self).write_counts() == bumped_range(
                old(self).write_counts(),
                start as int,
                start + data@.len(),
            ),
    {
        self.ram.write_seq(start, data);
        let ghost before = self.writes@;
        let ghost stored = self@;
        let ghost read_before = self.reads@;
        let end = start + data.len();
        let mut a: usize = start;
        while a < end
            invariant
                start <= a <= end,
                end == start + data@.len(),
                end <= RAM_LENGTH,
                before.len() == RAM_LENGTH,
                self.writes@ =~= bumped_range(before, start as int, a as int),
                self@ == stored,
                self.reads@ == read_before,
            decreases end - a,
        {
            let n = self.writes[a];
            self.writes[a] = n.saturating_add(1);
            a = a + 1;
            assert(self.writes@ =~= bumped_range(before, start as int, a as int));
        }
    }
}

} // verus!
