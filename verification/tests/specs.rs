use lib::create::{
    dostype, stamp, types, unknown_type, Shape, Stamp, AMIGA_EPOCH_IN_UNIX_DAYS, DEFAULT_TYPE,
};
use lib::inspect::Geometry;
use lib::specs::{contains_name, release_2, unknowable, Specs};

fn dd() -> Geometry {
    Geometry { cylinders: 80, heads: 2, sectors: 11, block_size: 512, reserved: 2 }
}

fn whats(s: &Specs) -> Vec<String> {
    s.facts.iter().map(|f| f.what.clone()).collect()
}

#[test]
fn a_double_density_amigados_disk_says_so() {
    let mut bytes = vec![0u8; 1024];
    bytes[..4].copy_from_slice(b"DOS\x01");
    let s = Specs::of(&dd(), false, &Some(("FFS".to_owned(), 0x444F5301)), &bytes);
    assert_eq!(s.facts.len(), 3);
    assert_eq!(s.facts[0].what, "A 3.5-inch double-density disk, which every Amiga can read");
    assert_eq!(s.facts[0].because, "880 KB: 80 cylinders x 2 heads x 11 sectors");
    assert_eq!(s.facts[1].because, "an AmigaDOS bootblock");
    assert_eq!(s.facts[2].what, "Formatted as FFS");
    assert_eq!(s.facts[2].because, "dostype 0x444f5301 in the bootblock");
    assert!(s.libraries.is_empty());
}

#[test]
fn an_empty_bootblock_is_not_bootable() {
    let bytes = vec![0u8; 16];
    let hd = Geometry { sectors: 22, ..dd() };
    let s = Specs::of(&hd, false, &None, &bytes);
    assert!(s.facts[0].what.starts_with("A 3.5-inch high-density disk"));
    assert_eq!(s.facts[1].because, "an empty bootblock");
    assert_eq!(s.facts.len(), 2);
}

#[test]
fn a_custom_bootblock_shows_its_first_bytes() {
    let bytes = vec![0x60, b'A', 0x00, 0xFF, 9, 9];
    let s = Specs::of(&dd(), false, &None, &bytes);
    assert_eq!(s.facts[1].because, "a custom bootblock beginning `A\\x00\\xff");
}

#[test]
fn an_odd_size_is_named_by_its_bytes_and_blocks() {
    let g = Geometry { cylinders: 100, heads: 1, sectors: 1, block_size: 512, reserved: 2 };
    let s = Specs::of(&g, true, &None, &[]);
    assert_eq!(s.facts[0].what, "51200 bytes, which is no standard floppy");
    assert_eq!(s.facts[0].because, "100 blocks of 512");
    assert_eq!(s.facts[1].because, "a Rigid Disk Block in the reserved area");
    // Fewer than four bytes: no bootblock fact at all.
    assert_eq!(s.facts.len(), 2);
}

#[test]
fn a_five_and_a_quarter_inch_disk_needs_an_a1020() {
    let g = Geometry { cylinders: 40, ..dd() };
    let s = Specs::of(&g, false, &None, &[]);
    assert_eq!(whats(&s), vec!["A 5.25-inch double-density disk, which needs an A1020 or compatible drive"]);
}

#[test]
fn release_2_libraries_set_a_kickstart_floor() {
    let bytes = b"DOS\0    gadtools.library\0asl.library\0".to_vec();
    let s = Specs::of(&dd(), false, &None, &bytes);
    assert_eq!(s.libraries, vec!["asl.library".to_owned(), "gadtools.library".to_owned()]);
    let last = s.facts.last().unwrap();
    assert_eq!(last.what, "Needs at least Kickstart 2.0");
    assert_eq!(last.because, "it opens asl.library, gadtools.library, which Release 2 introduced");
}

#[test]
fn a_name_inside_a_longer_name_is_not_found() {
    assert!(!contains_name(b"xasl.library", b"asl.library"));
    assert!(!contains_name(b"my.asl.library", b"asl.library"));
    assert!(contains_name(b" asl.library", b"asl.library"));
    assert!(contains_name(b"asl.library", b"asl.library"));
    assert!(contains_name(b"/asl.library", b"asl.library"));
    assert!(!contains_name(b"asl.librar", b"asl.library"));
    assert!(contains_name(b"anything", b""));
}

#[test]
fn the_release_2_list_and_the_unknowables_are_fixed() {
    assert_eq!(release_2().len(), 6);
    assert_eq!(release_2()[0], "asl.library");
    let u = unknowable();
    let names: Vec<&str> = u.iter().map(|p| p.0).collect();
    assert_eq!(names, vec!["Memory", "Processor", "Chipset", "Video standard"]);
}

#[test]
fn every_type_offered_has_a_dostype() {
    let names: Vec<&str> = types().iter().map(|t| t.name).collect();
    assert_eq!(names, vec!["ofs", "ffs", "ofs-intl", "ffs-intl", "ofs-dc", "ffs-dc"]);
    for (i, t) in types().iter().enumerate() {
        assert_eq!(t.flags as usize, i);
        assert_eq!(dostype(t.name), Some(0x444F5300 + i as u32));
    }
    assert_eq!(dostype(DEFAULT_TYPE), Some(0x444F5303));
}

#[test]
fn type_names_are_case_insensitive_and_lnfs_is_refused() {
    assert_eq!(dostype("FFS-Intl"), Some(0x444F5303));
    assert_eq!(dostype("OFS"), Some(0x444F5300));
    assert_eq!(dostype("lnfs"), None);
    assert_eq!(dostype("ffs-lnfs"), None);
    assert_eq!(dostype(""), None);
    assert_eq!(
        unknown_type("lnfs"),
        "lnfs: expected one of ofs, ffs, ofs-intl, ffs-intl, ofs-dc, ffs-dc"
    );
}

#[test]
fn the_geometries_are_the_sizes_they_claim() {
    let bytes = |g: Geometry| g.total_blocks() * g.block_size as u64;
    assert_eq!(bytes(Shape::Dd.geometry().unwrap()), 901120);
    assert_eq!(bytes(Shape::Hd.geometry().unwrap()), 1802240);
    assert_eq!(bytes(Shape::Dd525.geometry().unwrap()), 450560);
}

#[test]
fn a_hard_disk_is_a_megabyte_per_sixty_four_cylinders() {
    let g = Shape::Hard(10).geometry().unwrap();
    assert_eq!(g.cylinders, 640);
    assert_eq!(g.heads, 1);
    assert_eq!(g.sectors, 32);
    assert_eq!(g.total_blocks() * 512, 10 * 1024 * 1024);
    assert_eq!(Shape::Hard(0).geometry(), Err("0 MB is not a disk".to_owned()));
    assert_eq!(Shape::Hard(u32::MAX).geometry(), Err("4294967295 MB: too large".to_owned()));
}

#[test]
fn a_stamp_counts_from_1978() {
    let epoch = AMIGA_EPOCH_IN_UNIX_DAYS * 86400;
    assert_eq!(stamp(epoch + 86400 + 61), Stamp { days: 1, mins: 1, ticks: 50 });
    assert_eq!(stamp(epoch + 10 * 86400 + 3600), Stamp { days: 10, mins: 60, ticks: 0 });
}

#[test]
fn a_stamp_is_never_day_zero() {
    assert_eq!(stamp(0).days, 1);
    assert_eq!(stamp(AMIGA_EPOCH_IN_UNIX_DAYS * 86400).days, 1);
    let last = stamp(u64::MAX);
    assert!(last.days >= 1);
    assert!(last.mins < 1440);
    assert!(last.ticks < 3000);
}
