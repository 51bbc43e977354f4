use lib::find::{Hit, Search};
use lib::layout::{Layout, Owned, Region};
use lib::scan::{Recognised, Scan};

fn claims() -> Vec<Option<Owned>> {
    vec![
        Some(Owned { region: Region::Bootblock, owner: None, owner_block: None }),
        None,
        Some(Owned { region: Region::File, owner: Some("s/startup-sequence".to_owned()), owner_block: Some(9) }),
    ]
}

#[test]
fn a_hit_names_the_file_it_is_in() {
    let hits = vec![
        Hit { offset: 1030, block: 2 },
        Hit { offset: 600, block: 1 },
        Hit { offset: 10, block: 0 },
        Hit { offset: 99999, block: 195 },
    ];
    let s = Search::attributed(&hits, &claims(), 1536, false);
    assert_eq!(s.matches.len(), 4);
    assert_eq!(s.matches[0].owner.as_deref(), Some("s/startup-sequence"));
    assert_eq!(s.matches[0].owner_block, Some(9));
    assert_eq!(s.matches[0].region, Region::File);
    assert_eq!(s.matches[0].at, hits[0]);
    assert_eq!(s.matches[1].region, Region::Unclaimed);
    assert_eq!(s.matches[1].owner, None);
    assert_eq!(s.matches[2].region, Region::Bootblock);
    // Past the end of what was mapped: in nothing.
    assert_eq!(s.matches[3].region, Region::Unclaimed);
    assert_eq!(
        s.to_json().to_json(),
        "{\"scanned\":1536,\"hex\":false,\"found\":4,\"matches\":[\
         {\"offset\":1030,\"block\":2,\"file\":\"s/startup-sequence\",\"file_block\":9,\"region\":\"file\"},\
         {\"offset\":600,\"block\":1,\"file\":null,\"file_block\":null,\"region\":\"unclaimed\"},\
         {\"offset\":10,\"block\":0,\"file\":null,\"file_block\":null,\"region\":\"bootblock\"},\
         {\"offset\":99999,\"block\":195,\"file\":null,\"file_block\":null,\"region\":\"unclaimed\"}]}"
    );
}

#[test]
fn an_unmountable_image_is_still_searchable() {
    let s = Search::unattributed(&vec![Hit { offset: 5, block: 0 }], 512, true);
    assert_eq!(s.matches[0].region, Region::Unclaimed);
    assert!(s.was_hex);
    assert_eq!(s.to_json().to_json(), "{\"scanned\":512,\"hex\":true,\"found\":1,\"matches\":[\
        {\"offset\":5,\"block\":0,\"file\":null,\"file_block\":null,\"region\":\"unclaimed\"}]}");
    assert!(Search::unattributed(&vec![], 0, false).matches.is_empty());
}

#[test]
fn a_scan_reports_each_hit_and_its_run() {
    let s = Scan {
        hits: vec![Recognised {
            name: "IFF ILBM".to_owned(),
            category: "image".to_owned(),
            offset: 2048,
            block: 4,
            run: 1,
        }],
        scanned: 901120,
    };
    assert!(!s.is_empty());
    assert_eq!(
        s.to_json().to_json(),
        "{\"scanned\":901120,\"found\":1,\"hits\":[{\"name\":\"IFF ILBM\",\"category\":\"image\",\"offset\":2048,\"block\":4,\"blocks\":1}]}"
    );
    assert!(Scan { hits: vec![], scanned: 0 }.is_empty());
}

#[test]
fn a_search_and_the_map_agree_about_every_block() {
    let c = claims();
    let map = Layout::of(&c, 512, true);
    let hits: Vec<Hit> = (0..3).map(|b| Hit { offset: b * 512 + 7, block: b }).collect();
    let s = Search::attributed(&hits, &c, 1536, false);
    for m in &s.matches {
        let span = map
            .spans
            .iter()
            .find(|sp| sp.block <= m.at.block && m.at.block < sp.block + sp.blocks)
            .unwrap();
        assert_eq!(m.region, span.region);
        assert_eq!(m.owner, span.owner);
    }
}
