use lib::carve::{
    contents, data_blocks, examine_header, grade, is_recoverable, kind_name, owns, read_word,
    recovered_name, to_json, Carved, CarvedKind, Evidence,
};
use lib::bridge::EntryKind;
use lib::carve::{carve, Header};
use lib::layout::{Owned, Region};
use lib::order::sort_by_key;
use lib::unpack::{host_components, host_name, sort_skipped, Skipped, Unpacked};
use lib::unpack::{unpack_order, unpack_step, EntryClass, UnpackEvent};

fn carved(block: u32, name: &str, evidence: Evidence, blocks: Vec<u32>) -> Carved {
    Carved { block, name: name.to_owned(), size: 100, kind: CarvedKind::File, evidence, blocks }
}

/// Reads a host name back into the Amiga name it was written from.
fn unescape(s: &str) -> String {
    if s == "%" {
        return String::new();
    }
    let chars: Vec<char> = s.chars().collect();
    let mut out = String::new();
    let mut i = 0;
    while i < chars.len() {
        if chars[i] == '%' && i + 2 < chars.len() {
            let code = u32::from_str_radix(&chars[i + 1..i + 3].iter().collect::<String>(), 16).unwrap();
            out.push(char::from_u32(code).unwrap());
            i += 3;
        } else {
            out.push(chars[i]);
            i += 1;
        }
    }
    out
}

#[test]
fn evidence_is_graded_from_the_blocks_that_agree() {
    assert_eq!(grade(CarvedKind::File, 5, 0), Evidence::SelfEvident);
    assert_eq!(grade(CarvedKind::File, 3, 2), Evidence::Partial { good: 3, bad: 2 });
    assert_eq!(grade(CarvedKind::File, 0, 4), Evidence::HeaderOnly);
    assert_eq!(grade(CarvedKind::File, 0, 0), Evidence::HeaderOnly);
    assert_eq!(grade(CarvedKind::Directory, 5, 0), Evidence::HeaderOnly);
    assert_eq!(Evidence::SelfEvident.name(), "self-evident");
    assert_eq!(Evidence::Partial { good: 1, bad: 1 }.name(), "partial");
    assert_eq!(Evidence::HeaderOnly.name(), "header only");
    assert_eq!(kind_name(CarvedKind::Directory), "directory");
    assert_eq!(kind_name(CarvedKind::File), "file");
}

#[test]
fn a_header_only_carve_is_never_written_out() {
    assert!(!is_recoverable(&carved(880, "a", Evidence::HeaderOnly, vec![881])));
    assert!(!is_recoverable(&carved(880, "a", Evidence::SelfEvident, vec![])));
    assert!(is_recoverable(&carved(880, "a", Evidence::SelfEvident, vec![881])));
    assert!(is_recoverable(&carved(880, "a", Evidence::Partial { good: 1, bad: 1 }, vec![881])));
}

#[test]
fn a_recovered_name_carries_the_block_and_says_when_it_is_partial() {
    assert_eq!(recovered_name(&carved(880, "readme", Evidence::SelfEvident, vec![1])), "00880-readme");
    assert_eq!(
        recovered_name(&carved(12, "s/x", Evidence::Partial { good: 1, bad: 2 }, vec![1])),
        "00012-s%2Fx.partial"
    );
    assert_eq!(recovered_name(&carved(123456, "x", Evidence::SelfEvident, vec![1])), "123456-x");
}

#[test]
fn json_counts_blocks_rather_than_listing_them() {
    let found = vec![carved(880, "a", Evidence::Partial { good: 2, bad: 1 }, vec![881, 882])];
    assert_eq!(
        to_json(&found).to_json(),
        "{\"found\":1,\"carved\":[{\"block\":880,\"name\":\"a\",\"size\":100,\"kind\":\"file\",\
         \"evidence\":\"partial\",\"data_blocks\":2}]}"
    );
    assert_eq!(to_json(&vec![]).to_json(), "{\"found\":0,\"carved\":[]}");
}

#[test]
fn words_are_big_endian_and_bounded() {
    let raw = [0x12, 0x34, 0x56, 0x78, 0x9A];
    assert_eq!(read_word(&raw, 0), Some(0x12345678));
    assert_eq!(read_word(&raw, 1), Some(0x3456789A));
    assert_eq!(read_word(&raw, 2), None);
    assert_eq!(read_word(&raw, 9), None);
    assert_eq!(read_word(&[], 0), None);
}

fn ofs_block(used: u32, fill: u8) -> Vec<u8> {
    let mut b = vec![0u8; 512];
    b[12..16].copy_from_slice(&used.to_be_bytes());
    for x in b[24..].iter_mut() {
        *x = fill;
    }
    b
}

#[test]
fn contents_take_only_what_each_block_says_it_uses() {
    let blocks = vec![ofs_block(488, b'a'), ofs_block(3, b'b')];
    let c = contents(&blocks);
    assert_eq!(c.len(), 491);
    assert!(c[..488].iter().all(|&x| x == b'a'));
    assert_eq!(&c[488..], b"bbb");
    // A header claiming more than the block holds is cut at the block.
    assert_eq!(contents(&vec![ofs_block(10000, b'c')]).len(), 488);
    // A block too short to carry a header contributes nothing.
    assert!(contents(&vec![vec![0u8; 10]]).is_empty());
}

#[test]
fn host_names_escape_what_a_filesystem_will_not_take() {
    assert_eq!(host_name("readme"), "readme");
    assert_eq!(host_name("a/b"), "a%2Fb");
    assert_eq!(host_name("100%"), "100%25");
    assert_eq!(host_name("a\u{1}b"), "a%01b");
    assert_eq!(host_name("del\u{7f}"), "del%7F");
    assert_eq!(host_name("."), "%2E");
    assert_eq!(host_name(".."), "%2E%2E");
    assert_eq!(host_name("..."), "...");
    assert_eq!(host_name(""), "%");
    assert_eq!(host_name("Caf\u{e9}"), "Caf\u{e9}");
}

#[test]
fn host_names_read_back_to_the_amiga_name() {
    for name in ["readme", "a/b", "100%", ".", "..", "x\u{0}y", "%41", "Caf\u{e9}"] {
        assert_eq!(unescape(&host_name(name)), name);
    }
}

#[test]
fn a_path_becomes_sanitised_pieces() {
    assert_eq!(host_components("s/startup-sequence"), vec!["s", "startup-sequence"]);
    assert_eq!(host_components("/a//b/"), vec!["a", "b"]);
    assert_eq!(host_components("dir/.."), vec!["dir", "%2E%2E"]);
    assert!(host_components("").is_empty());
}

#[test]
fn an_unpack_counts_what_it_did() {
    let mut u = Unpacked::new();
    u.made_directory();
    u.wrote_file(10);
    u.wrote_file(5);
    u.skip("c/dir".to_owned(), "exists".to_owned());
    assert_eq!((u.files, u.directories, u.bytes), (2, 1, 15));
    assert_eq!(u.skipped.len(), 1);
    assert_eq!(u.skipped[0].path, "c/dir");
    u.bytes = u64::MAX - 1;
    u.wrote_file(5);
    assert_eq!(u.bytes, u64::MAX);
}

#[test]
fn skipped_paths_come_back_in_path_order() {
    let s = |p: &str| Skipped { path: p.to_owned(), reason: format!("why {p}") };
    let sorted = sort_skipped(vec![s("c/b"), s("a"), s("c/a"), s("B")]);
    let paths: Vec<&str> = sorted.iter().map(|x| x.path.as_str()).collect();
    assert_eq!(paths, vec!["B", "a", "c/a", "c/b"]);
    assert_eq!(sorted[1].reason, "why a");
}

#[test]
fn sorting_by_key_is_ordered_and_keeps_every_item() {
    let k = |s: &str| s.chars().collect::<Vec<char>>();
    let out = sort_by_key(vec![(k("b"), 1), (k("a"), 2), (k("ab"), 3), (k("a"), 4)]);
    let keys: Vec<String> = out.iter().map(|p| p.0.iter().collect()).collect();
    assert_eq!(keys, vec!["a", "a", "ab", "b"]);
    let mut vals: Vec<i32> = out.iter().map(|p| p.1).collect();
    vals.sort();
    assert_eq!(vals, vec![1, 2, 3, 4]);
}

const BS: usize = 512;

fn put(image: &mut [u8], at: usize, w: u32) {
    image[at..at + 4].copy_from_slice(&w.to_be_bytes());
}

/// A file header at `block` listing `data` and continuing at `next`.
fn header(image: &mut [u8], block: usize, data: &[u32], next: u32) {
    let base = block * BS;
    put(image, base + 8, data.len() as u32);
    for (i, &d) in data.iter().enumerate() {
        put(image, base + BS - 204 - 4 * i, d);
    }
    put(image, base + BS - 8, next);
}

/// An OFS data block at `block` owned by `owner`, with a correct checksum.
fn data_block(image: &mut [u8], block: usize, owner: u32) {
    let base = block * BS;
    put(image, base, 8);
    put(image, base + 4, owner);
    put(image, base + 12, 3);
    let mut sum: u32 = 0;
    for i in 0..BS / 4 {
        if i != 5 {
            sum = sum.wrapping_add(u32::from_be_bytes(image[base + 4 * i..base + 4 * i + 4].try_into().unwrap()));
        }
    }
    put(image, base + 20, sum.wrapping_neg());
}

#[test]
fn a_header_chain_is_followed_through_its_extensions() {
    let mut image = vec![0u8; 20 * BS];
    header(&mut image, 2, &[5, 0, 6], 3);
    header(&mut image, 3, &[7], 0);
    assert_eq!(data_blocks(&image, BS as u32, 2), vec![5, 6, 7]);
}

#[test]
fn a_chain_that_points_at_itself_ends() {
    let mut image = vec![0u8; 20 * BS];
    header(&mut image, 2, &[5], 3);
    header(&mut image, 3, &[6], 2);
    assert_eq!(data_blocks(&image, BS as u32, 2), vec![5, 6]);
    // A header beyond the image lists nothing.
    assert!(data_blocks(&image, BS as u32, 99).is_empty());
}

#[test]
fn a_walk_stops_at_the_cap() {
    let blocks = 200;
    let mut image = vec![0u8; blocks * BS];
    // Every header lists 72 blocks and continues to the next.
    for b in 1..blocks {
        let data: Vec<u32> = (0..72).map(|k| 1 + k).collect();
        header(&mut image, b, &data, (b + 1) as u32 % blocks as u32);
    }
    assert_eq!(data_blocks(&image, BS as u32, 1).len(), 4096);
}

#[test]
fn a_data_block_confirms_its_owner_only_with_a_sound_checksum() {
    let mut image = vec![0u8; 20 * BS];
    data_block(&mut image, 5, 2);
    assert!(owns(&image, BS as u32, 5, 2));
    assert!(!owns(&image, BS as u32, 5, 3));
    assert!(!owns(&image, BS as u32, 6, 2));
    assert!(!owns(&image, BS as u32, 40, 2));
    image[5 * BS + 100] ^= 1;
    assert!(!owns(&image, BS as u32, 5, 2));
}

#[test]
fn orphaned_files_are_graded_by_their_blocks() {
    let mut image = vec![0u8; 20 * BS];
    header(&mut image, 2, &[5, 6, 7], 0);
    data_block(&mut image, 5, 2);
    data_block(&mut image, 6, 2);
    let c = examine_header(&image, BS as u32, 2, "lost".to_owned(), 900, CarvedKind::File);
    assert_eq!(c.blocks, vec![5, 6]);
    assert_eq!(c.evidence, Evidence::Partial { good: 2, bad: 1 });
    data_block(&mut image, 7, 2);
    let c = examine_header(&image, BS as u32, 2, "lost".to_owned(), 900, CarvedKind::File);
    assert_eq!(c.evidence, Evidence::SelfEvident);
    let d = examine_header(&image, BS as u32, 2, "dir".to_owned(), 0, CarvedKind::Directory);
    assert_eq!(d.evidence, Evidence::HeaderOnly);
    assert!(d.blocks.is_empty());
}

#[test]
fn only_unclaimed_files_and_directories_are_carved() {
    let mut image = vec![0u8; 20 * BS];
    header(&mut image, 2, &[5], 0);
    data_block(&mut image, 5, 2);
    let mut claims: Vec<Option<Owned>> = vec![None; 20];
    claims[4] = Some(Owned { region: Region::File, owner: Some("live".to_owned()), owner_block: Some(4) });
    let h = |block: u32, kind: EntryKind| Header { block, name: format!("h{block}"), size: 1, kind };
    let found = carve(
        &image,
        BS as u32,
        &claims,
        &vec![h(2, EntryKind::File), h(3, EntryKind::SoftLink), h(4, EntryKind::File), h(8, EntryKind::Directory)],
    );
    let blocks: Vec<u32> = found.iter().map(|c| c.block).collect();
    assert_eq!(blocks, vec![2, 8]);
    assert_eq!(found[0].evidence, Evidence::SelfEvident);
    assert_eq!(found[0].name, "h2");
    assert_eq!(found[1].kind, CarvedKind::Directory);
}

#[test]
fn different_names_land_on_different_host_names() {
    let names = ["", "\u{0}", "%", "a", "b", "a/b", "a%2Fb", ".", "..", "%2E", "\u{7f}", "caf\u{e9}", "\u{0}x"];
    for (i, x) in names.iter().enumerate() {
        for (j, y) in names.iter().enumerate() {
            if i != j {
                assert_ne!(host_name(x), host_name(y), "{x:?} and {y:?}");
            }
        }
    }
    assert_eq!(host_name(""), "%");
    assert_eq!(host_name("\u{0}"), "%00");
    assert_eq!(unescape(&host_name("")), "");
}

#[test]
fn directories_are_unpacked_before_files_each_in_walk_order() {
    let kinds = vec![
        EntryClass::File,
        EntryClass::Directory,
        EntryClass::Other,
        EntryClass::LinkedFile,
        EntryClass::Directory,
        EntryClass::File,
    ];
    assert_eq!(unpack_order(&kinds), vec![1, 4, 0, 3, 5]);
    assert!(unpack_order(&vec![]).is_empty());
}

#[test]
fn each_unpack_step_counts_or_skips() {
    let u = Unpacked::new();
    let u = unpack_step(u, "s".to_owned(), UnpackEvent::MadeDirectory);
    let u = unpack_step(u, "s/a".to_owned(), UnpackEvent::Wrote(100));
    let u = unpack_step(u, "s/b".to_owned(), UnpackEvent::Exists("out/s/b".to_owned()));
    let u = unpack_step(u, "s/c".to_owned(), UnpackEvent::Unresolved("block 9 is not a file".to_owned()));
    let u = unpack_step(u, "s/d".to_owned(), UnpackEvent::Failed("checksum".to_owned()));
    assert_eq!((u.directories, u.files, u.bytes), (1, 1, 100));
    let reasons: Vec<(&str, &str)> =
        u.skipped.iter().map(|s| (s.path.as_str(), s.reason.as_str())).collect();
    assert_eq!(
        reasons,
        vec![
            ("s/b", "out/s/b already exists"),
            ("s/c", "link could not be resolved: block 9 is not a file"),
            ("s/d", "checksum"),
        ]
    );
    let w = unpack_step(Unpacked::new(), String::new(), UnpackEvent::Unwalkable("bad root".to_owned()));
    assert_eq!(w.skipped[0].reason, "the volume could not be walked: bad root");
    let mut full = Unpacked::new();
    full.bytes = u64::MAX - 1;
    full.files = u64::MAX;
    let full = unpack_step(full, "x".to_owned(), UnpackEvent::Wrote(10));
    assert_eq!((full.files, full.bytes), (u64::MAX, u64::MAX));
}
