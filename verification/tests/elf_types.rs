use rs_header::elf::{ElfError, Perm};

#[test]
fn perm_from_flags_keeps_each_flag() {
    let p = Perm::from_flags(true, false, true);
    assert!(p.read);
    assert!(!p.write);
    assert!(p.execute);
    let rw = Perm::read_write();
    assert_eq!(rw, Perm::from_flags(true, true, false));
}

#[test]
fn elf_error_carries_message() {
    let e = ElfError::new("too small");
    assert_eq!(e.0, "too small");
    assert_eq!(e.to_string(), "elf: too small");
}
