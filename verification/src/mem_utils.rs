//! String and typed-sequence reads from a region.

use crate::mem_slice::MemSlice;
use crate::memory::{lemma_readable_fits, MemError, MemValue, Memory};
use vstd::prelude::*;

verus! {

/// A byte as it appears in extracted text: printable ASCII (33 to 126) is
/// kept, every other byte becomes a full stop.
pub open spec fn printable(b: u8) -> u8 {
    if 33 <= b && b <= 126 {
        b
    } else {
        46
    }
}

/// `bytes` with `printable` applied to each byte.
pub open spec fn sanitized(bytes: Seq<u8>) -> Seq<u8> {
    bytes.map_values(|b: u8| printable(b))
}

/// The first zero byte at or after `addr` lies `n` bytes past it, inside the
/// region.
pub open spec fn terminated_at(mem: Memory, addr: int, n: int) -> bool {
    &&& 0 <= n
    &&& mem.readable(addr, n + 1)
    &&& mem.byte_at(addr + n) == 0
    &&& forall|a: int| addr <= a < addr + n ==> #[trigger] mem.byte_at(a) != 0
}

/// Some zero byte lies at or after `addr`, inside the region.
pub open spec fn has_terminator(mem: Memory, addr: int) -> bool {
    exists|n: int| terminated_at(mem, addr, n)
}

/// Distance from `addr` to the first zero byte, where there is one.
pub open spec fn string_len(mem: Memory, addr: int) -> int {
    choose|n: int| terminated_at(mem, addr, n)
}

/// What reading a zero-terminated string at `addr` gives: the sanitized
/// bytes before the first zero, and the number of bytes examined, the zero
/// included.
pub open spec fn c_string(mem: Memory, addr: int) -> Result<(Seq<u8>, int), MemError> {
    if !mem.readable(addr, 1) {
        Err(MemError::Fault)
    } else if !has_terminator(mem, addr) {
        Err(MemError::Unterminated)
    } else {
        Ok((sanitized(mem.bytes_at(addr, string_len(mem, addr))), string_len(mem, addr) + 1))
    }
}

/// A string has one first zero byte.
pub proof fn lemma_terminator_unique(mem: Memory, addr: int, n: int, m: int)
    requires
        terminated_at(mem, addr, n),
        terminated_at(mem, addr, m),
    ensures
        n == m,
{
    if n < m {
        assert(mem.byte_at(addr + n) != 0);
    }
    if m < n {
        assert(mem.byte_at(addr + m) != 0);
    }
}

/// Whenever the region holds a zero byte at or after `addr`, the string at
/// `addr` is exactly the bytes before the first zero, each one sanitized, and
/// the count of bytes examined is the index of that zero plus one.
pub proof fn lemma_c_string_stops_at_first_zero(mem: Memory, addr: int, n: int)
    requires
        terminated_at(mem, addr, n),
    ensures
        c_string(mem, addr) == Ok::<(Seq<u8>, int), MemError>(
            (sanitized(mem.bytes_at(addr, n)), n + 1),
        ),
        sanitized(mem.bytes_at(addr, n)).len() == n,
        forall|i: int|
            0 <= i < n ==> #[trigger] sanitized(mem.bytes_at(addr, n))[i] == printable(
                mem.byte_at(addr + i),
            ),
{
    lemma_terminator_unique(mem, addr, n, string_len(mem, addr));
}

/// A region without a zero byte from `addr` on holds no string there.
pub proof fn lemma_c_string_unterminated(mem: Memory, addr: int)
    requires
        mem.readable(addr, 1),
        forall|a: int| addr <= a < mem.end() ==> #[trigger] mem.byte_at(a) != 0,
    ensures
        c_string(mem, addr) == Err::<(Seq<u8>, int), MemError>(MemError::Unterminated),
{
    assert forall|n: int| !terminated_at(mem, addr, n) by {
        if terminated_at(mem, addr, n) {
            assert(mem.byte_at(addr + n) != 0);
        }
    }
}

/// The byte that stands for `b` in extracted text.
pub fn to_printable(b: u8) -> (r: u8)
    ensures
        r == printable(b),
{
    if 33 <= b && b <= 126 {
        b
    } else {
        46
    }
}

/// `to_printable` applied to each byte.
pub fn sanitize(bytes: &Vec<u8>) -> (r: Vec<u8>)
    ensures
        r@ == sanitized(bytes@),
{
    let n: usize = bytes.len();
    let mut out: Vec<u8> = Vec::new();
    let mut i: usize = 0;
    while i < n
        invariant
            i <= n,
            n == bytes@.len(),
            out@ == sanitized(bytes@.subrange(0, i as int)),
        decreases n - i,
    {
        out.push(to_printable(bytes[i]));
        assert(out@ =~= sanitized(bytes@.subrange(0, i + 1)));
        i += 1;
    }
    assert(bytes@.subrange(0, n as int) =~= bytes@);
    out
}

/// Reads the zero-terminated string at `addr`.
///
/// Gives the sanitized bytes before the first zero and the number of bytes
/// examined, the zero included. The scan never leaves the region: it fails
/// with `Fault` when `addr` itself is outside, and with `Unterminated` when
/// the region ends before a zero byte is met.
pub fn read_until_null(mem: &Memory, addr: usize) -> (r: Result<(Vec<u8>, usize), MemError>)
    ensures
        match (r, c_string(*mem, addr as int)) {
            (Ok((bytes, consumed)), Ok((s, n))) => bytes@ == s && consumed == n,
            (Err(e), Err(f)) => e == f,
            _ => false,
        },
{
    proof {
        use_type_invariant(mem);
    }
    if !mem.contains(addr, 1) {
        return Err(MemError::Fault);
    }
    let mut chars: Vec<u8> = Vec::new();
    let mut idx: usize = 0;
    loop
        invariant
            mem.wf(),
            mem.readable(addr as int, 1),
            mem.readable(addr as int, idx as int),
            forall|a: int| addr <= a < addr + idx ==> #[trigger] mem.byte_at(a) != 0,
            chars@ == sanitized(mem.bytes_at(addr as int, idx as int)),
        decreases mem.end() - addr - idx,
    {
        match mem.read_at::<u8>(addr, idx) {
            Err(_) => {
                proof {
                    lemma_c_string_unterminated(*mem, addr as int);
                }
                return Err(MemError::Unterminated);
            },
            Ok(c) => {
                assert(c == mem.byte_at(addr + idx));
                proof {
                    lemma_readable_fits(*mem, addr + idx, 1);
                }
                if c == 0 {
                    proof {
                        lemma_c_string_stops_at_first_zero(*mem, addr as int, idx as int);
                    }
                    return Ok((chars, idx + 1));
                }
                chars.push(to_printable(c));
                assert(chars@ =~= sanitized(mem.bytes_at(addr as int, idx + 1)));
                idx += 1;
            },
        }
    }
}

/// Number of elements a sequence read collects: one for every multiple of
/// `step` below `size`.
pub open spec fn element_count(size: int, step: int) -> int {
    if size <= 0 || step <= 0 {
        0
    } else {
        (size + step - 1) / step
    }
}

/// Address of element `i` of a sequence read.
pub open spec fn element_addr(addr: int, step: int, i: int) -> int {
    addr + i * step
}

/// What a sequence read gives: nothing for an empty span, otherwise one `T`
/// from every `step`-th address below `addr + size`, provided that `step`
/// is positive and every element lies inside the region.
pub open spec fn typed_sequence<T: MemValue>(mem: Memory, addr: int, size: int, step: int) -> Result<
    Seq<T>,
    MemError,
> {
    if size <= 0 {
        Ok(Seq::empty())
    } else if step <= 0 {
        Err(MemError::ZeroStep)
    } else if forall|i: int|
        0 <= i < element_count(size, step) ==> (#[trigger] mem.spec_read::<T>(
            element_addr(addr, step, i),
        )) is Ok {
        Ok(
            Seq::new(
                element_count(size, step) as nat,
                |i: int| mem.spec_read::<T>(element_addr(addr, step, i)).unwrap(),
            ),
        )
    } else {
        Err(MemError::Fault)
    }
}

/// An index is below the element count exactly when its offset is below the
/// span.
pub proof fn lemma_element_count_bound(size: int, step: int, k: int)
    requires
        size > 0,
        step > 0,
        k >= 0,
    ensures
        k * step < size <==> k < element_count(size, step),
        element_count(size, step) >= 1,
{
    let c = (size + step - 1) / step;
    assert(c * step <= size + step - 1 < c * step + step) by (nonlinear_arith)
        requires
            c == (size + step - 1) / step,
            step > 0,
    ;
    assert(k < c ==> k * step <= (c - 1) * step) by (nonlinear_arith)
        requires
            step > 0,
    ;
    assert(k >= c ==> k * step >= c * step) by (nonlinear_arith)
        requires
            step > 0,
    ;
    assert((c - 1) * step == c * step - step) by (nonlinear_arith);
    assert(c >= 1) by (nonlinear_arith)
        requires
            c * step + step > size + step - 1,
            size > 0,
            step > 0,
    ;
}

/// When `step` divides `size`, a sequence read collects `size / step`
/// elements.
pub proof fn lemma_element_count_exact(size: int, step: int)
    requires
        size >= 0,
        step > 0,
        size % step == 0,
    ensures
        element_count(size, step) == size / step,
{
    if size > 0 {
        let q = size / step;
        assert(size == q * step) by (nonlinear_arith)
            requires
                q == size / step,
                size % step == 0,
                step > 0,
        ;
        lemma_element_count_bound(size, step, q);
        assert((q - 1) * step < size) by (nonlinear_arith)
            requires
                size == q * step,
                step > 0,
        ;
        assert(q >= 1) by (nonlinear_arith)
            requires
                size == q * step,
                size > 0,
                step > 0,
        ;
        lemma_element_count_bound(size, step, q - 1);
    }
}

/// Reads one `T` at `addr`, `addr + step`, `addr + 2 * step` and so on, for
/// as long as the offset stays below `size`.
///
/// An empty span gives an empty sequence. Otherwise the read fails with
/// `ZeroStep` when `step` is zero, and with `Fault` when any element lies
/// outside the region.
pub fn read_mem<T: MemValue>(mem: &Memory, addr: usize, size: usize, step: usize) -> (r: Result<
    MemSlice<T>,
    MemError,
>)
    ensures
        match (r, typed_sequence::<T>(*mem, addr as int, size as int, step as int)) {
            (Ok(m), Ok(s)) => m@ == s && m@.len() == element_count(size as int, step as int),
            (Err(e), Err(f)) => e == f,
            _ => false,
        },
{
    let mut out: Vec<T> = Vec::new();
    if size == 0 {
        return Ok(MemSlice { stub: out });
    }
    if step == 0 {
        return Err(MemError::ZeroStep);
    }
    let ghost count = element_count(size as int, step as int);
    let mut idx: usize = 0;
    let mut more: bool = true;
    proof {
        lemma_element_count_bound(size as int, step as int, 0);
    }
    while more
        invariant
            size > 0,
            step > 0,
            count == element_count(size as int, step as int),
            out@.len() <= count,
            more ==> idx == out@.len() * step && idx < size,
            !more ==> out@.len() == count,
            forall|j: int|
                0 <= j < out@.len() ==> (#[trigger] mem.spec_read::<T>(
                    element_addr(addr as int, step as int, j),
                )) == Ok::<T, MemError>(out@[j]),
        decreases count - out@.len() + (if more { 1int } else { 0int }),
    {
        let ghost k = out@.len() as int;
        proof {
            lemma_element_count_bound(size as int, step as int, k);
            lemma_element_count_bound(size as int, step as int, k + 1);
            assert((k + 1) * step == k * step + step) by (nonlinear_arith);
        }
        assert(element_addr(addr as int, step as int, k) == addr + idx);
        match mem.read_at::<T>(addr, idx) {
            Err(_) => {
                return Err(MemError::Fault);
            },
            Ok(v) => {
                out.push(v);
            },
        }
        if step >= size - idx {
            more = false;
        } else {
            idx += step;
        }
    }
    assert(out@ =~= typed_sequence::<T>(*mem, addr as int, size as int, step as int).unwrap());
    Ok(MemSlice { stub: out })
}

/// With a step that is the element's width and divides the span, a sequence
/// read succeeds exactly when the whole span lies inside the region; it then
/// gives `size / step` elements, the `i`-th of them being the value stored
/// at `addr + i * step`.
pub proof fn lemma_typed_sequence_exact<T: MemValue>(mem: Memory, addr: int, size: int, step: int)
    requires
        size >= 0,
        step > 0,
        size % step == 0,
        step == T::width(),
    ensures
        match typed_sequence::<T>(mem, addr, size, step) {
            Ok(s) => {
                &&& size > 0 ==> mem.readable(addr, size)
                &&& s.len() == size / step
                &&& forall|i: int|
                    0 <= i < size / step ==> #[trigger] s[i] == T::decode(
                        mem.bytes_at(element_addr(addr, step, i), step),
                    )
            },
            Err(e) => e == MemError::Fault && size > 0 && !mem.readable(addr, size),
        },
{
    lemma_element_count_exact(size, step);
    if size > 0 {
        let count = size / step;
        assert(size == count * step) by (nonlinear_arith)
            requires
                count == size / step,
                size % step == 0,
                step > 0,
        ;
        assert(count >= 1) by (nonlinear_arith)
            requires
                size == count * step,
                size > 0,
                step > 0,
        ;
        assert(element_addr(addr, step, 0) == addr);
        assert(element_addr(addr, step, count - 1) + step == addr + size) by (nonlinear_arith)
            requires
                size == count * step,
                element_addr(addr, step, count - 1) == addr + (count - 1) * step,
        ;
        if mem.readable(addr, size) {
            assert forall|i: int| 0 <= i < count implies (#[trigger] mem.spec_read::<T>(
                element_addr(addr, step, i),
            )) is Ok by {
                assert(0 <= i * step && i * step + step <= count * step) by (nonlinear_arith)
                    requires
                        0 <= i < count,
                        step > 0,
                ;
            }
        } else {
            if typed_sequence::<T>(mem, addr, size, step) is Ok {
                assert(mem.spec_read::<T>(element_addr(addr, step, 0)) is Ok);
                assert(mem.spec_read::<T>(element_addr(addr, step, count - 1)) is Ok);
                assert(false);
            }
        }
    }
}

/// One row of a dump: sixteen bytes as stored, and as they appear in text.
pub struct HexRow {
    pub bytes: Vec<u8>,
    pub text: Vec<u8>,
}

/// Address of row `i` of a dump.
pub open spec fn row_addr(addr: int, offset: int, i: int) -> int {
    addr + (i * 0x10 + offset)
}

/// Row `row` holds the sixteen bytes stored at `at`.
pub open spec fn row_shows(mem: Memory, row: HexRow, at: int) -> bool {
    &&& mem.readable(at, 0x10)
    &&& row.bytes@ == mem.bytes_at(at, 0x10)
    &&& row.text@ == sanitized(mem.bytes_at(at, 0x10))
}

/// `addr + (i * 0x10 + offset)`, where it is an address.
fn row_start(addr: usize, offset: usize, i: usize) -> (r: Option<usize>)
    ensures
        match r {
            Some(a) => a == row_addr(addr as int, offset as int, i as int),
            None => row_addr(addr as int, offset as int, i as int) > usize::MAX,
        },
{
    match i.checked_mul(0x10) {
        None => None,
        Some(scaled) => match scaled.checked_add(offset) {
            None => None,
            Some(delta) => addr.checked_add(delta),
        },
    }
}

/// Collects `size` rows of sixteen bytes each, the first one `offset` bytes
/// past `addr`, for display.
///
/// Fails with `Fault`, and only then, when some row does not lie inside the
/// region.
pub fn hex_dump(mem: &Memory, addr: usize, offset: usize, size: usize) -> (r: Result<
    Vec<HexRow>,
    MemError,
>)
    ensures
        match r {
            Ok(rows) => {
                &&& rows@.len() == size
                &&& forall|i: int|
                    0 <= i < size ==> row_shows(
                        *mem,
                        #[trigger] rows@[i],
                        row_addr(addr as int, offset as int, i),
                    )
            },
            Err(e) => e == MemError::Fault && exists|i: int|
                0 <= i < size && !mem.readable(
                    #[trigger] row_addr(addr as int, offset as int, i),
                    0x10,
                ),
        },
{
    proof {
        use_type_invariant(mem);
    }
    let mut rows: Vec<HexRow> = Vec::new();
    let mut i: usize = 0;
    while i < size
        invariant
            i <= size,
            mem.wf(),
            rows@.len() == i,
            forall|k: int|
                0 <= k < i ==> row_shows(
                    *mem,
                    #[trigger] rows@[k],
                    row_addr(addr as int, offset as int, k),
                ),
        decreases size - i,
    {
        let ghost at = row_addr(addr as int, offset as int, i as int);
        let start: usize = match row_start(addr, offset, i) {
            Some(a) => a,
            None => {
                proof {
                    if mem.readable(at, 0x10) {
                        lemma_readable_fits(*mem, at, 0x10);
                    }
                }
                return Err(MemError::Fault);
            },
        };
        let bytes: Vec<u8> = match mem.read_bytes(start, 0x10) {
            Ok(b) => b,
            Err(_) => {
                return Err(MemError::Fault);
            },
        };
        let text: Vec<u8> = sanitize(&bytes);
        rows.push(HexRow { bytes, text });
        i += 1;
    }
    Ok(rows)
}

} // verus!
