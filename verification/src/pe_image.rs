//! Locating and querying the Export Directory of a mapped image.
//!
//! All directory fields are 32-bit relative virtual addresses or counts. An
//! index into the names table is used as the index into the functions table
//! as well; the name-ordinals table is located but not consulted.

use crate::mem_utils::{
    c_string, lemma_c_string_stops_at_first_zero, read_until_null, sanitized, terminated_at,
};
use crate::memory::{lemma_readable_fits, MemError, MemValue, Memory};
use crate::text::{bytes_as_chars, bytes_to_string};
use vstd::prelude::*;
use vstd::string::StringExecFns;

verus! {

/// Offset of the pointer to the file header, from the image base.
pub const DOS_HEADER_POINTER: usize = 0x3c;

/// Bytes of signature that precede the file header.
pub const SIGNATURE_SIZE: u32 = 0x4;

/// Size of the file header.
pub const FILE_HEADER_SIZE: u32 = 0x14;

/// Offset of the Export Directory entry, from the optional header.
pub const EXPORT_ENTRY: usize = 0x70;

/// Offset of the image name's RVA, from the Export Directory.
pub const NAME_RVA: usize = 0xc;

/// Offset of the function count, from the Export Directory.
pub const FUNCTION_COUNT: usize = 0x14;

/// Offset of the name count, from the Export Directory.
pub const NAME_COUNT: usize = 0x18;

/// Offset of the functions table's RVA, from the Export Directory.
pub const FUNCTIONS_RVA: usize = 0x1c;

/// Offset of the names table's RVA, from the Export Directory.
pub const NAMES_RVA: usize = 0x20;

/// Offset of the name-ordinals table's RVA, from the Export Directory.
pub const NAME_ORDINALS_RVA: usize = 0x24;

/// Where an image's header chain leads.
pub struct Layout {
    pub optional_header_offset: u32,
    pub export_directory_offset: u32,
    pub export_directory_addr: int,
    pub name: Seq<char>,
}

/// The text of the zero-terminated string at `addr`.
pub open spec fn text_at(mem: Memory, addr: int) -> Result<Seq<char>, MemError> {
    match c_string(mem, addr) {
        Ok((bytes, _)) => Ok(bytes_as_chars(bytes)),
        Err(e) => Err(e),
    }
}

/// The widened value of a 32-bit read.
pub open spec fn widen(r: Result<u32, MemError>) -> Result<usize, MemError> {
    match r {
        Ok(v) => Ok(v as usize),
        Err(e) => Err(e),
    }
}

/// The name that the Export Directory at `dir` records for the image at
/// `base`.
pub open spec fn image_name(mem: Memory, base: int, dir: int) -> Result<Seq<char>, MemError> {
    match mem.spec_read::<u32>(dir + NAME_RVA) {
        Ok(rva) => text_at(mem, base + rva),
        Err(e) => Err(e),
    }
}

/// The header chain of the image at `base`: the pointer at `0x3c` gives the
/// file header, the optional header follows it, the optional header's
/// data-directory array gives the Export Directory, and the directory gives
/// the image's name. The first read that leaves the region decides the error.
pub open spec fn header_walk(mem: Memory, base: int) -> Result<Layout, MemError> {
    match mem.spec_read::<u32>(base + DOS_HEADER_POINTER) {
        Err(e) => Err(e),
        Ok(pointer) => {
            let optional = pointer + SIGNATURE_SIZE + FILE_HEADER_SIZE;
            if optional > u32::MAX {
                Err(MemError::Overflow)
            } else {
                match mem.spec_read::<u32>(base + optional + EXPORT_ENTRY) {
                    Err(e) => Err(e),
                    Ok(export) => match image_name(mem, base, base + export) {
                        Err(e) => Err(e),
                        Ok(name) => Ok(
                            Layout {
                                optional_header_offset: optional as u32,
                                export_directory_offset: export,
                                export_directory_addr: base + export,
                                name,
                            },
                        ),
                    },
                }
            }
        },
    }
}

/// The indices that enumeration yields for `count` functions: `0` up to and
/// including `count`.
pub open spec fn ordinal_seq(count: u32) -> Seq<usize> {
    Seq::new((count + 1) as nat, |i: int| i as usize)
}

/// Enumeration is finite and fixed by the function count alone: it yields
/// `count + 1` indices, the `i`-th of them being `i`.
pub proof fn lemma_ordinal_seq(count: u32)
    ensures
        ordinal_seq(count).len() == count + 1,
        forall|i: int| 0 <= i <= count ==> #[trigger] ordinal_seq(count)[i] == i,
{
}

/// Whenever the functions table starts at `table` and its entry `index` lies
/// inside the region, the function address at `index` is the image base plus
/// the 32-bit value stored at `base + table + index * 4`.
pub proof fn lemma_func_addr_is_rebased_entry(pe: &PEImage, table: u32, index: int)
    requires
        pe.field(FUNCTIONS_RVA as int) == Ok::<u32, MemError>(table),
        pe.mem.readable(pe.base_addr + table + index * 4, 4),
    ensures
        pe.func_addr(index) == pe.rebase(
            <u32 as MemValue>::decode(pe.mem.bytes_at(pe.base_addr + table + index * 4, 4))
                as int,
        ),
{
}

/// A printable name stored, with its terminating zero, where entry `index`
/// of the names table points is the name found at `index`, byte for byte.
pub proof fn lemma_name_round_trip(pe: &PEImage, table: u32, index: int, rva: u32, name: Seq<u8>)
    requires
        pe.field(NAMES_RVA as int) == Ok::<u32, MemError>(table),
        pe.entry(table as int, index) == Ok::<u32, MemError>(rva),
        pe.mem.readable(pe.base_addr + rva, name.len() as int + 1),
        pe.mem.bytes_at(pe.base_addr + rva, name.len() as int) == name,
        pe.mem.byte_at(pe.base_addr + rva + name.len()) == 0,
        forall|i: int| 0 <= i < name.len() ==> 33 <= #[trigger] name[i] <= 126,
    ensures
        pe.func_name(index) == Ok::<Seq<char>, MemError>(bytes_as_chars(name)),
{
    let mem = pe.mem;
    let at = pe.base_addr + rva;
    let n = name.len() as int;
    assert forall|a: int| at <= a < at + n implies #[trigger] mem.byte_at(a) != 0 by {
        assert(mem.byte_at(a) == mem.bytes_at(at, n)[a - at]);
        assert(33 <= name[a - at]);
    }
    assert(terminated_at(mem, at, n));
    lemma_c_string_stops_at_first_zero(mem, at, n);
    assert(sanitized(name) =~= name);
}

/// `base + table + index * 4`, where it is an address.
fn entry_addr(base: usize, table: usize, index: usize) -> (r: Option<usize>)
    ensures
        match r {
            Some(a) => a == base + table + index * 4,
            None => base + table + index * 4 > usize::MAX,
        },
{
    match index.checked_mul(4) {
        None => None,
        Some(scaled) => match base.checked_add(table) {
            None => None,
            Some(start) => start.checked_add(scaled),
        },
    }
}

/// A parsed view of one image's Export Directory.
#[derive(Debug)]
pub struct PEImage<'a> {
    /// Address of the image's first byte.
    pub base_addr: usize,
    /// The image's name, as the directory records it.
    pub name: String,
    /// The region the image lies in.
    pub mem: Memory<'a>,
    /// Offset of the optional header from the base.
    pub optional_header_offset: u32,
    /// Offset of the Export Directory from the base.
    pub export_directory_offset: u32,
    /// Address of the Export Directory.
    pub export_directory_addr: usize,
}

impl<'a> PEImage<'a> {
    /// The fields agree with the header chain found at `base_addr`.
    pub open spec fn resolved(&self) -> bool {
        match header_walk(self.mem, self.base_addr as int) {
            Err(_) => false,
            Ok(l) => {
                &&& self.optional_header_offset == l.optional_header_offset
                &&& self.export_directory_offset == l.export_directory_offset
                &&& self.export_directory_addr == l.export_directory_addr
                &&& self.name@ == l.name
            },
        }
    }

    /// The 32-bit directory field at offset `off`.
    pub open spec fn field(&self, off: int) -> Result<u32, MemError> {
        self.mem.spec_read::<u32>(self.export_directory_addr + off)
    }

    /// Entry `index` of the table of 32-bit values at `base_addr + table`.
    pub open spec fn entry(&self, table: int, index: int) -> Result<u32, MemError> {
        self.mem.spec_read::<u32>(self.base_addr + table + index * 4)
    }

    /// The name at `index` of the names table.
    pub open spec fn func_name(&self, index: int) -> Result<Seq<char>, MemError> {
        match self.field(NAMES_RVA as int) {
            Err(e) => Err(e),
            Ok(table) => match self.entry(table as int, index) {
                Err(e) => Err(e),
                Ok(rva) => text_at(self.mem, self.base_addr + rva),
            },
        }
    }

    /// `base_addr + rva`, where it is an address.
    pub open spec fn rebase(&self, rva: int) -> Result<usize, MemError> {
        if self.base_addr + rva > usize::MAX {
            Err(MemError::Overflow)
        } else {
            Ok((self.base_addr + rva) as usize)
        }
    }

    /// The address at `index` of the functions table.
    pub open spec fn func_addr(&self, index: int) -> Result<usize, MemError> {
        match self.field(FUNCTIONS_RVA as int) {
            Err(e) => Err(e),
            Ok(table) => match self.entry(table as int, index) {
                Err(e) => Err(e),
                Ok(rva) => self.rebase(rva as int),
            },
        }
    }

    /// How many indices enumeration still has to yield after the first
    /// `done` of them.
    pub open spec fn remaining(&self, done: int) -> int {
        match self.field(FUNCTION_COUNT as int) {
            Ok(count) => count + 1 - done,
            Err(_) => 0,
        }
    }

    /// The first three bytes of the function at `index` of the functions
    /// table.
    pub open spec fn func_prefix(&self, index: int) -> Result<Seq<u8>, MemError> {
        match self.func_addr(index) {
            Err(e) => Err(e),
            Ok(addr) => if self.mem.readable(addr as int, 3) {
                Ok(self.mem.bytes_at(addr as int, 3))
            } else {
                Err(MemError::Fault)
            },
        }
    }

    /// Every name from `lo` up to, not including, `hi` can be read and
    /// differs from `target`.
    pub open spec fn names_differ(&self, lo: int, hi: int, target: Seq<char>) -> bool {
        forall|j: int|
            lo <= j < hi ==> (#[trigger] self.func_name(j)) is Ok && self.func_name(j)
                != Ok::<Seq<char>, MemError>(target)
    }

    /// Parses the image at `addr` of `mem`.
    ///
    /// Succeeds exactly when the whole header chain and the image's name can
    /// be read; the error is that of the first step that cannot.
    pub fn new(mem: Memory<'a>, addr: usize) -> (r: Result<PEImage<'a>, MemError>)
        ensures
            match (r, header_walk(mem, addr as int)) {
                (Ok(pe), Ok(_)) => pe.base_addr == addr && pe.mem == mem && pe.resolved(),
                (Err(e), Err(f)) => e == f,
                _ => false,
            },
    {
        let mut pe = PEImage {
            base_addr: addr,
            name: String::from_str("uninit_dll"),
            mem,
            optional_header_offset: 0,
            export_directory_offset: 0,
            export_directory_addr: 0,
        };
        match pe.init() {
            Ok(()) => Ok(pe),
            Err(e) => Err(e),
        }
    }

    /// Walks the header chain again from `base_addr`.
    ///
    /// On success the fields hold what the chain gives now; on failure they
    /// are left as they were.
    pub fn init(&mut self) -> (r: Result<(), MemError>)
        ensures
            final(self).base_addr == old(self).base_addr,
            final(self).mem == old(self).mem,
            match (r, header_walk(old(self).mem, old(self).base_addr as int)) {
                (Ok(_), Ok(_)) => final(self).resolved(),
                (Err(e), Err(f)) => e == f && *final(self) == *old(self),
                _ => false,
            },
    {
        proof {
            use_type_invariant(&self.mem);
        }
        let pointer: u32 = self.mem.read_at::<u32>(self.base_addr, DOS_HEADER_POINTER)?;
        if pointer > u32::MAX - SIGNATURE_SIZE - FILE_HEADER_SIZE {
            return Err(MemError::Overflow);
        }
        let file_header: u32 = pointer + SIGNATURE_SIZE;
        let optional: u32 = file_header + FILE_HEADER_SIZE;
        let slot: usize = match entry_addr(self.base_addr, optional as usize, 0) {
            Some(a) => a,
            None => {
                proof {
                    if self.mem.readable(self.base_addr + optional + EXPORT_ENTRY, 4) {
                        lemma_readable_fits(self.mem, self.base_addr + optional + EXPORT_ENTRY, 4);
                    }
                }
                return Err(MemError::Fault);
            },
        };
        let export: u32 = self.mem.read_at::<u32>(slot, EXPORT_ENTRY)?;
        let dir: usize = match self.base_addr.checked_add(export as usize) {
            Some(a) => a,
            None => {
                proof {
                    if self.mem.readable(self.base_addr + export + NAME_RVA, 4) {
                        lemma_readable_fits(self.mem, self.base_addr + export + NAME_RVA, 4);
                    }
                }
                return Err(MemError::Fault);
            },
        };
        let name: String = Self::get_name(&self.mem, self.base_addr, dir)?;
        self.optional_header_offset = optional;
        self.export_directory_offset = export;
        self.export_directory_addr = dir;
        self.name = name;
        Ok(())
    }

    /// Reads the zero-terminated text at `base + rva`.
    fn read_text(mem: &Memory<'a>, base: usize, rva: u32) -> (r: Result<String, MemError>)
        ensures
            match (r, text_at(*mem, base + rva)) {
                (Ok(s), Ok(t)) => s@ == t,
                (Err(e), Err(f)) => e == f,
                _ => false,
            },
    {
        proof {
            use_type_invariant(mem);
        }
        match base.checked_add(rva as usize) {
            None => {
                proof {
                    if mem.readable(base + rva, 1) {
                        lemma_readable_fits(*mem, base + rva, 1);
                    }
                }
                Err(MemError::Fault)
            },
            Some(addr) => match read_until_null(mem, addr) {
                Err(e) => Err(e),
                Ok((bytes, _)) => Ok(bytes_to_string(&bytes)),
            },
        }
    }

    /// Reads the name that the directory at `dir` records.
    fn get_name(mem: &Memory<'a>, base: usize, dir: usize) -> (r: Result<String, MemError>)
        ensures
            match (r, image_name(*mem, base as int, dir as int)) {
                (Ok(s), Ok(t)) => s@ == t,
                (Err(e), Err(f)) => e == f,
                _ => false,
            },
    {
        let rva: u32 = mem.read_at::<u32>(dir, NAME_RVA)?;
        Self::read_text(mem, base, rva)
    }

    /// Address of the Export Directory, computed from the base and the
    /// directory's offset.
    pub fn get_export_directory_ptr(&self) -> (r: Result<usize, MemError>)
        ensures
            r == self.rebase(self.export_directory_offset as int),
    {
        match self.base_addr.checked_add(self.export_directory_offset as usize) {
            Some(a) => Ok(a),
            None => Err(MemError::Overflow),
        }
    }

    /// Number of entries in the functions table.
    pub fn number_of_func(&self) -> (r: Result<u32, MemError>)
        ensures
            r == self.field(FUNCTION_COUNT as int),
    {
        self.mem.read_at::<u32>(self.export_directory_addr, FUNCTION_COUNT)
    }

    /// Number of entries in the names table.
    pub fn number_of_names(&self) -> (r: Result<u32, MemError>)
        ensures
            r == self.field(NAME_COUNT as int),
    {
        self.mem.read_at::<u32>(self.export_directory_addr, NAME_COUNT)
    }

    /// Offset of the functions table from the base.
    pub fn addr_of_func(&self) -> (r: Result<usize, MemError>)
        ensures
            r == widen(self.field(FUNCTIONS_RVA as int)),
    {
        let v: u32 = self.mem.read_at::<u32>(self.export_directory_addr, FUNCTIONS_RVA)?;
        Ok(v as usize)
    }

    /// Offset of the names table from the base.
    pub fn addr_of_names(&self) -> (r: Result<usize, MemError>)
        ensures
            r == widen(self.field(NAMES_RVA as int)),
    {
        let v: u32 = self.mem.read_at::<u32>(self.export_directory_addr, NAMES_RVA)?;
        Ok(v as usize)
    }

    /// Offset of the name-ordinals table from the base.
    pub fn addr_of_ordinals(&self) -> (r: Result<usize, MemError>)
        ensures
            r == widen(self.field(NAME_ORDINALS_RVA as int)),
    {
        let v: u32 = self.mem.read_at::<u32>(self.export_directory_addr, NAME_ORDINALS_RVA)?;
        Ok(v as usize)
    }

    /// Reads entry `index` of the table at `base_addr + table`.
    fn read_entry(&self, table: usize, index: usize) -> (r: Result<u32, MemError>)
        ensures
            r == self.entry(table as int, index as int),
    {
        proof {
            use_type_invariant(&self.mem);
        }
        match entry_addr(self.base_addr, table, index) {
            Some(a) => self.mem.read::<u32>(a),
            None => {
                proof {
                    let a = self.base_addr + table + index * 4;
                    if self.mem.readable(a, 4) {
                        lemma_readable_fits(self.mem, a, 4);
                    }
                }
                Err(MemError::Fault)
            },
        }
    }

    /// The name stored at index `ord` of the names table.
    pub fn get_func_name(&self, ord: usize) -> (r: Result<String, MemError>)
        ensures
            match (r, self.func_name(ord as int)) {
                (Ok(s), Ok(t)) => s@ == t,
                (Err(e), Err(f)) => e == f,
                _ => false,
            },
    {
        let table: usize = self.addr_of_names()?;
        let rva: u32 = self.read_entry(table, ord)?;
        Self::read_text(&self.mem, self.base_addr, rva)
    }

    /// The address stored at index `ord` of the functions table, made
    /// absolute.
    pub fn get_func_addr(&self, ord: usize) -> (r: Result<usize, MemError>)
        ensures
            r == self.func_addr(ord as int),
    {
        let table: usize = self.addr_of_func()?;
        let rva: u32 = self.read_entry(table, ord)?;
        match self.base_addr.checked_add(rva as usize) {
            Some(a) => Ok(a),
            None => Err(MemError::Overflow),
        }
    }

    /// Address of the functions table.
    pub fn get_funcs_addr(&self) -> (r: Result<usize, MemError>)
        ensures
            r == match self.field(FUNCTIONS_RVA as int) {
                Ok(table) => self.rebase(table as int),
                Err(e) => Err(e),
            },
    {
        let table: usize = self.addr_of_func()?;
        match self.base_addr.checked_add(table) {
            Some(a) => Ok(a),
            None => Err(MemError::Overflow),
        }
    }

    /// Looks for `find` among the names at indices `1` to the name count,
    /// both included, in ascending order.
    ///
    /// Gives the address and the index of the first name equal to `find`,
    /// `None` when every name in the range was read and none is equal, and
    /// the error of the first read that failed otherwise.
    pub fn find_func_addr(&self, find: &str) -> (r: Result<Option<(usize, usize)>, MemError>)
        ensures
            match self.field(NAME_COUNT as int) {
                Err(f) => r == Err::<Option<(usize, usize)>, MemError>(f),
                Ok(count) => match r {
                    Ok(Some((addr, index))) => {
                        &&& 1 <= index <= count
                        &&& self.names_differ(1, index as int, find@)
                        &&& self.func_name(index as int) == Ok::<Seq<char>, MemError>(find@)
                        &&& self.func_addr(index as int) == Ok::<usize, MemError>(addr)
                    },
                    Ok(None) => self.names_differ(1, count + 1, find@),
                    Err(e) => exists|index: int|
                        {
                            &&& 1 <= index <= count
                            &&& self.names_differ(1, index, find@)
                            &&& (#[trigger] self.func_name(index)) == Err::<Seq<char>, MemError>(e)
                                || (self.func_name(index) == Ok::<Seq<char>, MemError>(find@)
                                && self.func_addr(index) == Err::<usize, MemError>(e))
                        },
                },
            },
    {
        let count: u32 = self.number_of_names()?;
        let looking_for: String = String::from_str(find);
        let mut ord: u32 = 0;
        while ord < count
            invariant
                ord <= count,
                self.field(NAME_COUNT as int) == Ok::<u32, MemError>(count),
                looking_for@ == find@,
                self.names_differ(1, ord + 1, find@),
            decreases count - ord,
        {
            ord += 1;
            let index: usize = ord as usize;
            match self.get_func_name(index) {
                Err(e) => {
                    assert(self.func_name(index as int) == Err::<Seq<char>, MemError>(e));
                    return Err(e);
                },
                Ok(found) => {
                    if found == looking_for {
                        assert(self.func_name(index as int) == Ok::<Seq<char>, MemError>(find@));
                        return match self.get_func_addr(index) {
                            Ok(addr) => Ok(Some((addr, index))),
                            Err(e) => Err(e),
                        };
                    }
                    assert(self.func_name(index as int) != Ok::<Seq<char>, MemError>(find@));
                },
            }
        }
        Ok(None)
    }

    /// The first three bytes of the function at index `ord` of the functions
    /// table.
    fn read_func_prefix(&self, ord: usize) -> (r: Result<Vec<u8>, MemError>)
        ensures
            match (r, self.func_prefix(ord as int)) {
                (Ok(v), Ok(s)) => v@ == s,
                (Err(e), Err(f)) => e == f,
                _ => false,
            },
    {
        let addr: usize = self.get_func_addr(ord)?;
        self.mem.read_bytes(addr, 3)
    }

    /// Collects the first three bytes of each function at indices `1` to the
    /// name count, both included, in ascending order.
    ///
    /// Fails with the error of the first function whose table entry or bytes
    /// cannot be read.
    pub fn list_all_func(&self) -> (r: Result<Vec<Vec<u8>>, MemError>)
        ensures
            match self.field(NAME_COUNT as int) {
                Err(f) => r == Err::<Vec<Vec<u8>>, MemError>(f),
                Ok(count) => match r {
                    Ok(v) => {
                        &&& v@.len() == count
                        &&& forall|j: int|
                            1 <= j <= count ==> (#[trigger] self.func_prefix(j)) == Ok::<
                                Seq<u8>,
                                MemError,
                            >(v@[j - 1]@)
                    },
                    Err(e) => exists|index: int|
                        {
                            &&& 1 <= index <= count
                            &&& forall|j: int|
                                1 <= j < index ==> (#[trigger] self.func_prefix(j)) is Ok
                            &&& (#[trigger] self.func_prefix(index)) == Err::<Seq<u8>, MemError>(e)
                        },
                },
            },
    {
        let count: u32 = self.number_of_names()?;
        let mut out: Vec<Vec<u8>> = Vec::new();
        let mut ord: u32 = 0;
        while ord < count
            invariant
                ord <= count,
                self.field(NAME_COUNT as int) == Ok::<u32, MemError>(count),
                out@.len() == ord,
                forall|j: int|
                    1 <= j <= ord ==> (#[trigger] self.func_prefix(j)) == Ok::<Seq<u8>, MemError>(
                        out@[j - 1]@,
                    ),
            decreases count - ord,
        {
            ord += 1;
            let index: usize = ord as usize;
            match self.read_func_prefix(index) {
                Err(e) => {
                    assert(self.func_prefix(index as int) == Err::<Seq<u8>, MemError>(e));
                    return Err(e);
                },
                Ok(bytes) => {
                    assert(self.func_prefix(index as int) == Ok::<Seq<u8>, MemError>(bytes@));
                    out.push(bytes);
                },
            }
        }
        Ok(out)
    }

    /// Starts an enumeration of the function indices.
    pub fn into_iter(&'a self) -> (it: PEImageIntoIterator<'a>)
        ensures
            it.image() == *self,
            it.position() == 0,
    {
        PEImageIntoIterator { pe: self, current_ord: 0 }
    }

    /// The function indices, in order: `0` up to and including the function
    /// count.
    pub fn all_ordinals(&'a self) -> (r: Result<Vec<usize>, MemError>)
        ensures
            match (r, self.field(FUNCTION_COUNT as int)) {
                (Ok(v), Ok(count)) => v@ == ordinal_seq(count),
                (Err(e), Err(f)) => e == f,
                _ => false,
            },
    {
        let mut it = self.into_iter();
        let mut out: Vec<usize> = Vec::new();
        loop
            invariant
                it.image() == *self,
                it.position() == out@.len(),
                self.remaining(out@.len() as int) >= 0,
                forall|i: int| 0 <= i < out@.len() ==> #[trigger] out@[i] == i,
            decreases self.remaining(out@.len() as int),
        {
            match it.next() {
                Err(e) => {
                    return Err(e);
                },
                Ok(None) => {
                    assert(out@ =~= ordinal_seq(self.field(FUNCTION_COUNT as int).unwrap()));
                    return Ok(out);
                },
                Ok(Some(ord)) => {
                    out.push(ord);
                },
            }
        }
    }
}

/// An enumeration of an image's function indices, in progress.
pub struct PEImageIntoIterator<'a> {
    pe: &'a PEImage<'a>,
    current_ord: u64,
}

impl<'a> PEImageIntoIterator<'a> {
    #[verifier::type_invariant]
    spec fn bounded(self) -> bool {
        self.current_ord <= 0x1_0000_0000
    }

    /// The image being enumerated.
    pub closed spec fn image(&self) -> PEImage<'a> {
        *self.pe
    }

    /// The index that comes next.
    pub closed spec fn position(&self) -> int {
        self.current_ord as int
    }

    /// Gives the next index, or `None` once the index has passed the
    /// function count, which is read anew on every call.
    pub fn next(&mut self) -> (r: Result<Option<usize>, MemError>)
        ensures
            final(self).image() == old(self).image(),
            match old(self).image().field(FUNCTION_COUNT as int) {
                Err(e) => r == Err::<Option<usize>, MemError>(e) && final(self).position() == old(
                    self,
                ).position(),
                Ok(count) => if old(self).position() > count {
                    r == Ok::<Option<usize>, MemError>(None) && final(self).position() == old(
                        self,
                    ).position()
                } else {
                    r == Ok::<Option<usize>, MemError>(Some(old(self).position() as usize))
                        && final(self).position() == old(self).position() + 1
                },
            },
    {
        proof {
            use_type_invariant(&*self);
        }
        let count: u32 = self.pe.number_of_func()?;
        if self.current_ord > count as u64 {
            return Ok(None);
        }
        let ord: u64 = self.current_ord;
        self.current_ord = ord + 1;
        Ok(Some(ord as usize))
    }
}

} // verus!
