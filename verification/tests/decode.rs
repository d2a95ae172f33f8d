use stacksplit::errors::Error;
use stacksplit::layout::Layout;
use stacksplit::solver::{plan, Plan};

fn push_u16(v: &mut Vec<u8>, x: u16) {
    v.extend_from_slice(&x.to_le_bytes());
}

fn push_u32(v: &mut Vec<u8>, x: u32) {
    v.extend_from_slice(&x.to_le_bytes());
}

fn push_u64(v: &mut Vec<u8>, x: u64) {
    v.extend_from_slice(&x.to_le_bytes());
}

struct Shdr {
    name: u32,
    ty: u32,
    flags: u64,
    addr: u64,
    off: u64,
    size: u64,
    link: u32,
    info: u32,
    align: u64,
    entsize: u64,
}

fn push_shdr(v: &mut Vec<u8>, s: &Shdr) {
    push_u32(v, s.name);
    push_u32(v, s.ty);
    push_u64(v, s.flags);
    push_u64(v, s.addr);
    push_u64(v, s.off);
    push_u64(v, s.size);
    push_u32(v, s.link);
    push_u32(v, s.info);
    push_u64(v, s.align);
    push_u64(v, s.entsize);
}

fn push_sym(v: &mut Vec<u8>, name: u32, value: u64) {
    push_u32(v, name); // st_name
    v.push(0); // st_info
    v.push(0); // st_other
    push_u16(v, 0); // st_shndx
    push_u64(v, value); // st_value
    push_u64(v, 0); // st_size
}

/// A minimal 64-bit little-endian image: `.data` at 0x2000 (0x100 bytes),
/// `.bss` at 0x2100 (0x200 bytes), and a symbol table defining
/// `__stack_top__ = 0x2400`.
fn little_image() -> Vec<u8> {
    // section name table: offsets 1, 7, 12, 20, 28
    let shstrtab = b"\0.data\0.bss\0.symtab\0.strtab\0.shstrtab\0".to_vec();
    // symbol name table: offset 1
    let strtab = b"\0__stack_top__\0".to_vec();
    let mut symtab = Vec::new();
    push_sym(&mut symtab, 0, 0);
    push_sym(&mut symtab, 1, 0x2400);

    let ehsize = 64u64;
    let shnum = 6u64;
    let shoff = ehsize;
    let data_off = shoff + shnum * 64;
    let data_size = 0x100u64;
    let symtab_off = data_off + data_size;
    let strtab_off = symtab_off + symtab.len() as u64;
    let shstrtab_off = strtab_off + strtab.len() as u64;

    let mut v = Vec::new();
    // ELF header
    v.extend_from_slice(&[0x7f, b'E', b'L', b'F', 2, 1, 1, 0]);
    v.extend_from_slice(&[0; 8]);
    push_u16(&mut v, 2); // e_type: executable
    push_u16(&mut v, 62); // e_machine
    push_u32(&mut v, 1); // e_version
    push_u64(&mut v, 0); // e_entry
    push_u64(&mut v, 0); // e_phoff
    push_u64(&mut v, shoff);
    push_u32(&mut v, 0); // e_flags
    push_u16(&mut v, 64); // e_ehsize
    push_u16(&mut v, 0); // e_phentsize
    push_u16(&mut v, 0); // e_phnum
    push_u16(&mut v, 64); // e_shentsize
    push_u16(&mut v, shnum as u16);
    push_u16(&mut v, 5); // e_shstrndx
    assert_eq!(v.len() as u64, ehsize);

    let null = Shdr {
        name: 0,
        ty: 0,
        flags: 0,
        addr: 0,
        off: 0,
        size: 0,
        link: 0,
        info: 0,
        align: 0,
        entsize: 0,
    };
    push_shdr(&mut v, &null);
    push_shdr(&mut v, &Shdr {
        name: 1,
        ty: 1, // program data
        flags: 3, // writable, occupies memory
        addr: 0x2000,
        off: data_off,
        size: data_size,
        align: 4,
        ..null
    });
    push_shdr(&mut v, &Shdr {
        name: 7,
        ty: 8, // uninitialized data
        flags: 3,
        addr: 0x2100,
        off: 0,
        size: 0x200,
        align: 8,
        ..null
    });
    push_shdr(&mut v, &Shdr {
        name: 12,
        ty: 2, // symbol table
        off: symtab_off,
        size: symtab.len() as u64,
        link: 4, // its string table
        info: 1,
        align: 8,
        entsize: 24,
        ..null
    });
    push_shdr(&mut v, &Shdr {
        name: 20,
        ty: 3, // string table
        off: strtab_off,
        size: strtab.len() as u64,
        align: 1,
        ..null
    });
    push_shdr(&mut v, &Shdr {
        name: 28,
        ty: 3,
        off: shstrtab_off,
        size: shstrtab.len() as u64,
        align: 1,
        ..null
    });
    assert_eq!(v.len() as u64, data_off);
    v.extend_from_slice(&[0xaa; 0x100]);
    v.extend_from_slice(&symtab);
    v.extend_from_slice(&strtab);
    v.extend_from_slice(&shstrtab);
    v
}

#[test]
fn decode_reads_sections_and_symbols() {
    let image = little_image();
    let l = Layout::decode(&image).expect("the image is well formed");
    assert_eq!(l.sections.len(), 6);
    let data = l.sections.iter().find(|s| s.name.as_deref() == Some(".data")).unwrap();
    assert_eq!((data.addr, data.size, data.align, data.flags), (0x2000, 0x100, 4, 3));
    let bss = l.sections.iter().find(|s| s.name.as_deref() == Some(".bss")).unwrap();
    assert_eq!((bss.addr, bss.size, bss.align), (0x2100, 0x200, 8));
    assert_eq!(l.stack_top(), Ok(0x2400));
}

#[test]
fn decoded_image_plans_the_expected_relink() {
    let image = little_image();
    let l = Layout::decode(&image).expect("the image is well formed");
    match plan(&l) {
        Ok(Plan::Relink(s)) => {
            assert_eq!(s.region.start, 0x2000);
            assert_eq!(s.region.size, 0x300);
            assert_eq!(s.stack_top, 0x2400);
            assert_eq!(s.candidate, 0x2100);
        },
        other => panic!("expected a relink plan, got {:?}", other.map(|_| ())),
    }
}

#[test]
fn garbage_bytes_are_a_decode_error() {
    let image = b"this is not a linked binary".to_vec();
    match Layout::decode(&image) {
        Err(e) => {
            assert_eq!(e, Error::Decode);
            assert_eq!(e.message(), "the linker output is not a valid binary");
        },
        Ok(_) => panic!("expected the decode error"),
    }
}

#[test]
fn truncated_image_is_a_decode_error() {
    let mut image = little_image();
    image.truncate(70);
    assert!(Layout::decode(&image).is_err());
}
