use pe_exports::memory::{MemError, Memory};
use pe_exports::pe_image::PEImage;

const ORIGIN: usize = 0x10000;
const BASE: usize = ORIGIN + 0x10;
const POINTER: u32 = 0x80;
const FILE_HEADER: usize = 0x84;
const OPTIONAL: usize = FILE_HEADER + 0x14;
const EXPORT: usize = 0x200;
const FUNCS: usize = 0x240;
const NAMES: usize = 0x260;
const ORDINALS: usize = 0x280;
const IMAGE_NAME: usize = 0x300;

fn put_u32(arena: &mut Vec<u8>, at: usize, value: u32) {
    arena[at..at + 4].copy_from_slice(&value.to_le_bytes());
}

fn put_str(arena: &mut Vec<u8>, at: usize, text: &str) {
    arena[at..at + text.len()].copy_from_slice(text.as_bytes());
    arena[at + text.len()] = 0;
}

/// An arena whose image starts 0x10 bytes in; every offset below is from the image base.
fn fixture() -> Vec<u8> {
    let mut arena = vec![0xccu8; 0x410];
    let b = BASE - ORIGIN;
    put_u32(&mut arena, b + 0x3c, POINTER);
    put_u32(&mut arena, b + OPTIONAL + 0x70, EXPORT as u32);
    put_u32(&mut arena, b + EXPORT + 0xc, IMAGE_NAME as u32);
    put_u32(&mut arena, b + EXPORT + 0x14, 2);
    put_u32(&mut arena, b + EXPORT + 0x18, 2);
    put_u32(&mut arena, b + EXPORT + 0x1c, FUNCS as u32);
    put_u32(&mut arena, b + EXPORT + 0x20, NAMES as u32);
    put_u32(&mut arena, b + EXPORT + 0x24, ORDINALS as u32);
    for (i, rva) in [0x1000u32, 0x2000, 0x3000, 0x4000].iter().enumerate() {
        put_u32(&mut arena, b + FUNCS + 4 * i, *rva);
    }
    for (i, rva) in [0x310u32, 0x320, 0x330, 0x340].iter().enumerate() {
        put_u32(&mut arena, b + NAMES + 4 * i, *rva);
    }
    put_str(&mut arena, b + IMAGE_NAME, "test.dll");
    put_str(&mut arena, b + 0x310, "alpha");
    put_str(&mut arena, b + 0x320, "beta");
    put_str(&mut arena, b + 0x330, "gamma");
    put_str(&mut arena, b + 0x340, "de lta");
    arena
}

#[test]
fn synthetic_image_is_parsed() {
    let arena = fixture();
    let mem = Memory::new(ORIGIN, &arena).unwrap();
    let pe = PEImage::new(mem, BASE).unwrap();
    assert_eq!(pe.name, "test.dll");
    assert_eq!(pe.base_addr, BASE);
    assert_eq!(pe.number_of_func(), Ok(2));
    assert_eq!(pe.number_of_names(), Ok(2));
}

#[test]
fn directory_fields_are_read_at_their_offsets() {
    let arena = fixture();
    let mem = Memory::new(ORIGIN, &arena).unwrap();
    let pe = PEImage::new(mem, BASE).unwrap();
    assert_eq!(pe.addr_of_func(), Ok(FUNCS));
    assert_eq!(pe.addr_of_names(), Ok(NAMES));
    assert_eq!(pe.addr_of_ordinals(), Ok(ORDINALS));
    assert_eq!(pe.get_funcs_addr(), Ok(BASE + FUNCS));
    assert_eq!(pe.get_export_directory_ptr(), Ok(BASE + EXPORT));
}

#[test]
fn function_address_is_base_plus_table_entry() {
    let arena = fixture();
    let mem = Memory::new(ORIGIN, &arena).unwrap();
    let pe = PEImage::new(mem, BASE).unwrap();
    let table = [0x1000usize, 0x2000, 0x3000, 0x4000];
    for k in 0..table.len() {
        let entry = mem.read::<u32>(BASE + pe.addr_of_func().unwrap() + k * 4).unwrap();
        assert_eq!(entry as usize, table[k]);
        assert_eq!(pe.get_func_addr(k), Ok(BASE + table[k]));
    }
}

#[test]
fn name_at_a_known_index_round_trips() {
    let arena = fixture();
    let mem = Memory::new(ORIGIN, &arena).unwrap();
    let pe = PEImage::new(mem, BASE).unwrap();
    assert_eq!(pe.get_func_name(0).unwrap(), "alpha");
    assert_eq!(pe.get_func_name(1).unwrap(), "beta");
    assert_eq!(pe.get_func_name(2).unwrap(), "gamma");
    assert_eq!(pe.get_func_name(3).unwrap(), "de.lta");
}

#[test]
fn search_finds_the_first_match_from_index_one() {
    let arena = fixture();
    let mem = Memory::new(ORIGIN, &arena).unwrap();
    let pe = PEImage::new(mem, BASE).unwrap();
    assert_eq!(pe.find_func_addr("beta"), Ok(Some((BASE + 0x2000, 1))));
    assert_eq!(pe.find_func_addr("gamma"), Ok(Some((BASE + 0x3000, 2))));
}

#[test]
fn search_reports_a_missing_name() {
    let arena = fixture();
    let mem = Memory::new(ORIGIN, &arena).unwrap();
    let pe = PEImage::new(mem, BASE).unwrap();
    assert_eq!(pe.find_func_addr("alpha"), Ok(None));
    assert_eq!(pe.find_func_addr("de.lta"), Ok(None));
    assert_eq!(pe.find_func_addr("bet"), Ok(None));
    assert_eq!(pe.find_func_addr(""), Ok(None));
}

#[test]
fn search_with_no_names_finds_nothing() {
    let mut arena = fixture();
    put_u32(&mut arena, BASE - ORIGIN + EXPORT + 0x18, 0);
    let mem = Memory::new(ORIGIN, &arena).unwrap();
    let pe = PEImage::new(mem, BASE).unwrap();
    assert_eq!(pe.find_func_addr("beta"), Ok(None));
}

#[test]
fn search_stops_at_the_first_failed_read() {
    let mut arena = fixture();
    put_u32(&mut arena, BASE - ORIGIN + NAMES + 4, 0x8000);
    let mem = Memory::new(ORIGIN, &arena).unwrap();
    let pe = PEImage::new(mem, BASE).unwrap();
    assert_eq!(pe.find_func_addr("gamma"), Err(MemError::Fault));
    let mut arena = fixture();
    put_u32(&mut arena, BASE - ORIGIN + EXPORT + 0x18, 0x1000);
    let mem = Memory::new(ORIGIN, &arena).unwrap();
    let pe = PEImage::new(mem, BASE).unwrap();
    assert_eq!(pe.find_func_addr("gamma"), Ok(Some((BASE + 0x3000, 2))));
    assert_eq!(pe.find_func_addr("absent"), Err(MemError::Fault));
}

#[test]
fn enumeration_yields_one_index_past_the_count() {
    let arena = fixture();
    let mem = Memory::new(ORIGIN, &arena).unwrap();
    let pe = PEImage::new(mem, BASE).unwrap();
    assert_eq!(pe.all_ordinals(), Ok(vec![0, 1, 2]));
    let mut it = pe.into_iter();
    assert_eq!(it.next(), Ok(Some(0)));
    assert_eq!(it.next(), Ok(Some(1)));
    assert_eq!(it.next(), Ok(Some(2)));
    assert_eq!(it.next(), Ok(None));
    assert_eq!(it.next(), Ok(None));
}

#[test]
fn enumeration_is_restartable() {
    let arena = fixture();
    let mem = Memory::new(ORIGIN, &arena).unwrap();
    let pe = PEImage::new(mem, BASE).unwrap();
    let first = pe.all_ordinals().unwrap();
    let second = pe.all_ordinals().unwrap();
    assert_eq!(first, second);
    let mut a = pe.into_iter();
    let mut b = pe.into_iter();
    assert_eq!(a.next(), Ok(Some(0)));
    assert_eq!(a.next(), Ok(Some(1)));
    assert_eq!(b.next(), Ok(Some(0)));
}

#[test]
fn enumeration_of_an_empty_table() {
    let mut arena = fixture();
    put_u32(&mut arena, BASE - ORIGIN + EXPORT + 0x14, 0);
    let mem = Memory::new(ORIGIN, &arena).unwrap();
    let pe = PEImage::new(mem, BASE).unwrap();
    assert_eq!(pe.all_ordinals(), Ok(vec![0]));
}

#[test]
fn reinit_follows_a_changed_base() {
    let arena = fixture();
    let mem = Memory::new(ORIGIN, &arena).unwrap();
    let mut pe = PEImage::new(mem, BASE).unwrap();
    pe.name = String::from("stale");
    assert_eq!(pe.init(), Ok(()));
    assert_eq!(pe.name, "test.dll");
    pe.base_addr = ORIGIN + 0x1000;
    assert_eq!(pe.init(), Err(MemError::Fault));
    assert_eq!(pe.name, "test.dll");
    assert_eq!(pe.base_addr, ORIGIN + 0x1000);
    assert_eq!(pe.number_of_func(), Ok(2));
}

#[test]
fn image_outside_the_region_faults() {
    let arena = fixture();
    let mem = Memory::new(ORIGIN, &arena).unwrap();
    assert!(matches!(PEImage::new(mem, ORIGIN + 0x3d0), Err(MemError::Fault)));
    assert!(matches!(PEImage::new(mem, ORIGIN - 0x40), Err(MemError::Fault)));
    assert!(matches!(PEImage::new(mem, usize::MAX - 0x10), Err(MemError::Fault)));
}

#[test]
fn header_pointer_past_32_bits_overflows() {
    let mut arena = fixture();
    put_u32(&mut arena, BASE - ORIGIN + 0x3c, 0xffff_fff0);
    let mem = Memory::new(ORIGIN, &arena).unwrap();
    assert!(matches!(PEImage::new(mem, BASE), Err(MemError::Overflow)));
    put_u32(&mut arena, BASE - ORIGIN + 0x3c, 0xffff_ffe7);
    let mem = Memory::new(ORIGIN, &arena).unwrap();
    assert!(matches!(PEImage::new(mem, BASE), Err(MemError::Fault)));
}

#[test]
fn export_directory_outside_the_region_faults() {
    let mut arena = fixture();
    put_u32(&mut arena, BASE - ORIGIN + OPTIONAL + 0x70, 0x4000);
    let mem = Memory::new(ORIGIN, &arena).unwrap();
    assert!(matches!(PEImage::new(mem, BASE), Err(MemError::Fault)));
}

#[test]
fn unterminated_image_name_is_reported() {
    let mut arena = fixture();
    put_u32(&mut arena, BASE - ORIGIN + EXPORT + 0xc, 0x3f0);
    for b in arena[0x3f0..].iter_mut() {
        *b = b'x';
    }
    let mem = Memory::new(ORIGIN, &arena).unwrap();
    assert!(matches!(PEImage::new(mem, BASE), Err(MemError::Unterminated)));
}

#[test]
fn out_of_range_index_reads_what_lies_there() {
    let arena = fixture();
    let mem = Memory::new(ORIGIN, &arena).unwrap();
    let pe = PEImage::new(mem, BASE).unwrap();
    assert_eq!(pe.get_func_addr(4), Ok(BASE + 0xcccc_cccc));
    assert_eq!(pe.get_func_addr(0x1000), Err(MemError::Fault));
    assert_eq!(pe.get_func_addr(usize::MAX), Err(MemError::Fault));
    assert!(matches!(pe.get_func_name(usize::MAX / 4), Err(MemError::Fault)));
}

#[test]
fn address_past_the_highest_one_overflows() {
    let arena = fixture();
    let origin = usize::MAX - arena.len();
    let mem = Memory::new(origin, &arena).unwrap();
    let base = origin + 0x10;
    let pe = PEImage::new(mem, base).unwrap();
    assert_eq!(pe.name, "test.dll");
    assert_eq!(pe.get_func_addr(0), Err(MemError::Overflow));
    assert_eq!(pe.get_funcs_addr(), Ok(base + FUNCS));
    assert_eq!(pe.find_func_addr("beta"), Err(MemError::Overflow));
    assert_eq!(pe.find_func_addr("nothing"), Ok(None));
}

#[test]
fn resolved_offsets_follow_the_header_chain() {
    let arena = fixture();
    let mem = Memory::new(ORIGIN, &arena).unwrap();
    let pe = PEImage::new(mem, BASE).unwrap();
    assert_eq!(pe.optional_header_offset, 0x98);
    assert_eq!(pe.export_directory_offset, 0x200);
    assert_eq!(pe.export_directory_addr, BASE + 0x200);
    assert_eq!(pe.mem.origin(), ORIGIN);
    assert_eq!(pe.mem.len(), arena.len());
}

#[test]
fn function_prefixes_are_listed_from_index_one() {
    let mut arena = fixture();
    put_u32(&mut arena, BASE - ORIGIN + FUNCS + 4, 0x310);
    put_u32(&mut arena, BASE - ORIGIN + FUNCS + 8, 0x320);
    let mem = Memory::new(ORIGIN, &arena).unwrap();
    let pe = PEImage::new(mem, BASE).unwrap();
    assert_eq!(pe.list_all_func(), Ok(vec![b"alp".to_vec(), b"bet".to_vec()]));
}

#[test]
fn function_prefix_outside_the_region_faults() {
    let arena = fixture();
    let mem = Memory::new(ORIGIN, &arena).unwrap();
    let pe = PEImage::new(mem, BASE).unwrap();
    assert_eq!(pe.list_all_func(), Err(MemError::Fault));
    let mut arena = fixture();
    put_u32(&mut arena, BASE - ORIGIN + EXPORT + 0x18, 0);
    let mem = Memory::new(ORIGIN, &arena).unwrap();
    let pe = PEImage::new(mem, BASE).unwrap();
    assert_eq!(pe.list_all_func(), Ok(Vec::new()));
}
