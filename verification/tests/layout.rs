use lib::layout::{attribute, Layout, Owned, Region, VolumeFacts, WalkEntry, WalkKind};

fn tiles_without_gaps(l: &Layout) {
    let mut next = 0u64;
    for s in &l.spans {
        assert_eq!(s.block, next);
        assert!(s.blocks > 0);
        assert_eq!(s.start, s.block * l.block_size as u64);
        assert_eq!(s.end, (s.block + s.blocks) * l.block_size as u64);
        next += s.blocks;
    }
    assert_eq!(next, l.blocks);
}

fn floppy() -> VolumeFacts {
    VolumeFacts {
        root_block: 880,
        bitmap_blocks: Some(vec![881]),
        walk: Some(vec![
            WalkEntry { path: "s".to_owned(), kind: WalkKind::Directory, block: 882, data_blocks: None },
            WalkEntry {
                path: "s/startup-sequence".to_owned(),
                kind: WalkKind::File,
                block: 883,
                data_blocks: Some(vec![884, 885]),
            },
            WalkEntry { path: "l".to_owned(), kind: WalkKind::Other, block: 886, data_blocks: None },
        ]),
    }
}

#[test]
fn region_codes_name_their_regions() {
    let names: Vec<&str> = (0..6).map(|c| Region::from_code(c).unwrap().name()).collect();
    assert_eq!(names, vec!["bootblock", "rootblock", "bitmap", "directory", "file", "unclaimed"]);
    assert!(Region::Bootblock.describes().contains("protection"));
    for c in 0..6 {
        assert_eq!(Region::from_code(c).unwrap().code(), c);
    }
    assert_eq!(Region::from_code(Region::Unclaimed.code()), Some(Region::Unclaimed));
}

#[test]
fn an_unknown_region_code_is_none() {
    assert_eq!(Region::from_code(6), None);
    assert_eq!(Region::from_code(u32::MAX), None);
}

#[test]
fn a_mounted_floppy_attributes_every_structure() {
    let (claims, mounted) = attribute(1760, 2, true, &Some(floppy()));
    assert!(mounted);
    assert_eq!(claims.len(), 1760);
    assert_eq!(claims[0].as_ref().unwrap().region, Region::Bootblock);
    assert_eq!(claims[1].as_ref().unwrap().region, Region::Bootblock);
    assert!(claims[2].is_none());
    assert_eq!(claims[880].as_ref().unwrap().region, Region::Rootblock);
    assert_eq!(claims[881].as_ref().unwrap().region, Region::Bitmap);
    assert_eq!(claims[882].as_ref().unwrap().region, Region::Directory);
    let data = claims[885].as_ref().unwrap();
    assert_eq!(data.region, Region::File);
    assert_eq!(data.owner.as_deref(), Some("s/startup-sequence"));
    assert_eq!(data.owner_block, Some(883));
    // A link claims nothing.
    assert!(claims[886].is_none());
}

#[test]
fn a_device_with_a_partition_table_has_no_bootblock() {
    let (claims, mounted) = attribute(100, 2, false, &None);
    assert!(!mounted);
    assert!(claims.iter().all(|c| c.is_none()));
}

#[test]
fn a_volume_that_did_not_mount_still_shows_its_bootblock() {
    let (claims, mounted) = attribute(10, 2, true, &None);
    assert!(!mounted);
    assert_eq!(claims[1].as_ref().unwrap().region, Region::Bootblock);
    assert!(claims[2..].iter().all(|c| c.is_none()));
}

#[test]
fn a_file_is_never_shadowed_by_structure() {
    let v = VolumeFacts {
        root_block: 5,
        bitmap_blocks: Some(vec![6]),
        walk: Some(vec![WalkEntry {
            path: "f".to_owned(),
            kind: WalkKind::File,
            block: 7,
            data_blocks: Some(vec![5, 6, 1, 99]),
        }]),
    };
    let (claims, _) = attribute(10, 2, true, &Some(v));
    for b in [1, 5, 6, 7] {
        assert_eq!(claims[b].as_ref().unwrap().region, Region::File);
    }
}

#[test]
fn a_layout_tiles_the_whole_image() {
    let (claims, mounted) = attribute(1760, 2, true, &Some(floppy()));
    let l = Layout::of(&claims, 512, mounted);
    tiles_without_gaps(&l);
    assert_eq!(l.blocks, 1760);
    let regions: Vec<(Region, u64)> = l.totals();
    assert_eq!(
        regions,
        vec![
            (Region::Bootblock, 2),
            (Region::Rootblock, 1),
            (Region::Bitmap, 1),
            (Region::Directory, 1),
            (Region::File, 3),
            (Region::Unclaimed, 1752),
        ]
    );
    // Header and data of one file are one span; adjacent blocks of
    // different owners are not.
    let file_span = l.spans.iter().find(|s| s.region == Region::File).unwrap();
    assert_eq!((file_span.block, file_span.blocks), (883, 3));
}

#[test]
fn adjacent_blocks_of_different_owners_are_separate_spans() {
    let own = |p: &str| Some(Owned { region: Region::File, owner: Some(p.to_owned()), owner_block: Some(1) });
    let claims = vec![own("a"), own("a"), own("b"), None, None];
    let l = Layout::of(&claims, 512, true);
    tiles_without_gaps(&l);
    assert_eq!(l.spans.len(), 3);
    assert_eq!(l.spans[0].blocks, 2);
    assert_eq!(l.spans[1].owner.as_deref(), Some("b"));
    assert_eq!(l.spans[2].region, Region::Unclaimed);
    assert_eq!(
        l.to_json().to_json(),
        "{\"block_size\":512,\"blocks\":5,\"mounted\":true,\"spans\":[\
         {\"offset\":0,\"block\":0,\"blocks\":2,\"region\":\"file\",\"file\":\"a\",\"file_block\":1},\
         {\"offset\":1024,\"block\":2,\"blocks\":1,\"region\":\"file\",\"file\":\"b\",\"file_block\":1},\
         {\"offset\":1536,\"block\":3,\"blocks\":2,\"region\":\"unclaimed\",\"file\":null,\"file_block\":null}]}"
    );
}

#[test]
fn an_empty_image_has_no_spans() {
    let l = Layout::of(&vec![], 512, false);
    assert!(l.spans.is_empty());
    assert!(l.totals().is_empty());
}
