//! A bounds-checked window onto a caller-owned byte region.
//!
//! Addresses are absolute: a `Memory` covers the addresses from `start()` up
//! to, but not including, `end()`. Multi-byte values are little-endian.

use vstd::prelude::*;

verus! {

/// Why a read from a `Memory` did not produce a value.
#[derive(Clone, Copy, Debug, PartialEq, Eq, Structural)]
pub enum MemError {
    /// Some byte of the requested range lies outside the region.
    Fault,
    /// A string scan reached the end of the region without meeting a zero byte.
    Unterminated,
    /// A sequence read over a non-empty span was asked to advance by zero bytes.
    ZeroStep,
    /// An offset or address computed from the region's contents does not fit
    /// the integer type that holds it.
    Overflow,
}

/// A fixed-width value that can be decoded from little-endian bytes.
pub trait MemValue: Copy + Sized {
    /// Number of bytes one value occupies.
    spec fn width() -> nat;

    /// The value that `width()` bytes stand for.
    spec fn decode(bytes: Seq<u8>) -> Self;

    fn size() -> (n: usize)
        ensures
            n == Self::width(),
    ;

    fn from_bytes(bytes: &[u8], at: usize) -> (v: Self)
        requires
            at + Self::width() <= bytes@.len(),
        ensures
            v == Self::decode(bytes@.subrange(at as int, at + Self::width())),
    ;
}

impl MemValue for u8 {
    open spec fn width() -> nat {
        1
    }

    open spec fn decode(bytes: Seq<u8>) -> u8 {
        bytes[0]
    }

    fn size() -> (n: usize) {
        1
    }

    fn from_bytes(bytes: &[u8], at: usize) -> (v: u8) {
        bytes[at]
    }
}

impl MemValue for u16 {
    open spec fn width() -> nat {
        2
    }

    open spec fn decode(bytes: Seq<u8>) -> u16 {
        (bytes[0] as int + bytes[1] as int * 0x100) as u16
    }

    fn size() -> (n: usize) {
        2
    }

    fn from_bytes(bytes: &[u8], at: usize) -> (v: u16) {
        let b0: u16 = bytes[at] as u16;
        let b1: u16 = bytes[at + 1] as u16;
        b0 + b1 * 0x100
    }
}

impl MemValue for u32 {
    open spec fn width() -> nat {
        4
    }

    open spec fn decode(bytes: Seq<u8>) -> u32 {
        (bytes[0] as int + bytes[1] as int * 0x100 + bytes[2] as int * 0x1_0000 + bytes[3] as int
            * 0x100_0000) as u32
    }

    fn size() -> (n: usize) {
        4
    }

    fn from_bytes(bytes: &[u8], at: usize) -> (v: u32) {
        let b0: u32 = bytes[at] as u32;
        let b1: u32 = bytes[at + 1] as u32;
        let b2: u32 = bytes[at + 2] as u32;
        let b3: u32 = bytes[at + 3] as u32;
        b0 + b1 * 0x100 + b2 * 0x1_0000 + b3 * 0x100_0000
    }
}

impl MemValue for u64 {
    open spec fn width() -> nat {
        8
    }

    open spec fn decode(bytes: Seq<u8>) -> u64 {
        (<u32 as MemValue>::decode(bytes.subrange(0, 4)) as int + <u32 as MemValue>::decode(
            bytes.subrange(4, 8),
        ) as int * 0x1_0000_0000) as u64
    }

    fn size() -> (n: usize) {
        8
    }

    fn from_bytes(bytes: &[u8], at: usize) -> (v: u64) {
        let total: usize = bytes.len();
        assert(at + 8 <= total);
        let lo: u32 = <u32 as MemValue>::from_bytes(bytes, at);
        let hi: u32 = <u32 as MemValue>::from_bytes(bytes, at + 4);
        proof {
            let whole = bytes@.subrange(at as int, at + 8);
            assert(whole.subrange(0, 4) =~= bytes@.subrange(at as int, at + 4));
            assert(whole.subrange(4, 8) =~= bytes@.subrange(at + 4, at + 8));
        }
        let lo64: u64 = lo as u64;
        let hi64: u64 = hi as u64;
        lo64 + hi64 * 0x1_0000_0000
    }
}

/// A read-only byte region placed at an absolute address.
#[derive(Clone, Copy, Debug)]
pub struct Memory<'a> {
    origin: usize,
    bytes: &'a [u8],
}

impl<'a> Memory<'a> {
    /// The region ends at or below the highest address.
    #[verifier::type_invariant]
    pub closed spec fn wf(self) -> bool {
        self.origin + self.bytes@.len() <= usize::MAX
    }

    /// Address of the first byte.
    pub closed spec fn start(self) -> int {
        self.origin as int
    }

    /// The bytes, in ascending address order.
    pub closed spec fn view(self) -> Seq<u8> {
        self.bytes@
    }

    /// Address just past the last byte.
    pub open spec fn end(self) -> int {
        self.start() + self@.len()
    }

    /// All of `[addr, addr + len)` lies inside the region.
    pub open spec fn readable(self, addr: int, len: int) -> bool {
        &&& 0 <= len
        &&& self.start() <= addr
        &&& addr + len <= self.end()
    }

    /// The byte stored at `addr`.
    pub open spec fn byte_at(self, addr: int) -> u8 {
        self@[addr - self.start()]
    }

    /// The `len` bytes stored from `addr` on.
    pub open spec fn bytes_at(self, addr: int, len: int) -> Seq<u8> {
        self@.subrange(addr - self.start(), addr - self.start() + len)
    }

    /// What reading one `T` at `addr` gives.
    pub open spec fn spec_read<T: MemValue>(self, addr: int) -> Result<T, MemError> {
        if self.readable(addr, T::width() as int) {
            Ok(T::decode(self.bytes_at(addr, T::width() as int)))
        } else {
            Err(MemError::Fault)
        }
    }

    /// Places `bytes` at address `origin`; `None` when the region would run
    /// past the highest address.
    pub fn new(origin: usize, bytes: &'a [u8]) -> (r: Option<Memory<'a>>)
        ensures
            r is Some <==> origin + bytes@.len() <= usize::MAX,
            r is Some ==> r.unwrap().start() == origin && r.unwrap()@ == bytes@
                && r.unwrap().wf(),
    {
        if bytes.len() > usize::MAX - origin {
            None
        } else {
            Some(Memory { origin, bytes })
        }
    }

    /// Address of the first byte.
    pub fn origin(&self) -> (r: usize)
        ensures
            r == self.start(),
    {
        self.origin
    }

    /// Number of bytes in the region.
    pub fn len(&self) -> (r: usize)
        ensures
            r == self@.len(),
    {
        self.bytes.len()
    }

    /// Whether all of `[addr, addr + len)` lies inside the region.
    pub fn contains(&self, addr: usize, len: usize) -> (r: bool)
        ensures
            r == self.readable(addr as int, len as int),
    {
        addr >= self.origin && addr - self.origin <= self.bytes.len() && len <= self.bytes.len() - (
        addr - self.origin)
    }

    /// Reads one `T` at `addr`, or reports a fault when any of its bytes
    /// lies outside the region.
    pub fn read<T: MemValue>(&self, addr: usize) -> (r: Result<T, MemError>)
        ensures
            r == self.spec_read::<T>(addr as int),
    {
        if self.contains(addr, T::size()) {
            Ok(T::from_bytes(self.bytes, addr - self.origin))
        } else {
            Err(MemError::Fault)
        }
    }

    /// Copies the `len` bytes from `addr` on, or reports a fault when any of
    /// them lies outside the region.
    pub fn read_bytes(&self, addr: usize, len: usize) -> (r: Result<Vec<u8>, MemError>)
        ensures
            match r {
                Ok(v) => self.readable(addr as int, len as int) && v@ == self.bytes_at(
                    addr as int,
                    len as int,
                ),
                Err(e) => e == MemError::Fault && !self.readable(addr as int, len as int),
            },
    {
        if !self.contains(addr, len) {
            return Err(MemError::Fault);
        }
        let first: usize = addr - self.origin;
        let total: usize = self.bytes.len();
        let mut out: Vec<u8> = Vec::new();
        let mut i: usize = 0;
        while i < len
            invariant
                i <= len,
                total == self.bytes@.len(),
                first + len <= total,
                out@ == self.bytes@.subrange(first as int, first + i),
            decreases len - i,
        {
            out.push(self.bytes[first + i]);
            assert(out@ =~= self.bytes@.subrange(first as int, first + i + 1));
            i += 1;
        }
        Ok(out)
    }

    /// Reads one `T` at `addr + delta`, the sum taken without wrapping.
    pub fn read_at<T: MemValue>(&self, addr: usize, delta: usize) -> (r: Result<T, MemError>)
        ensures
            r == self.spec_read::<T>(addr + delta),
    {
        proof {
            use_type_invariant(self);
        }
        if delta > usize::MAX - addr {
            Err(MemError::Fault)
        } else {
            self.read::<T>(addr + delta)
        }
    }
}

/// A region that ends within the address range has every readable address
/// below the highest one.
pub proof fn lemma_readable_fits(mem: Memory, addr: int, len: int)
    requires
        mem.wf(),
        mem.readable(addr, len),
    ensures
        0 <= addr,
        addr + len <= usize::MAX,
{
}

} // verus!
