//! Searching an image, and saying where each hit landed.
//!
//! The byte search itself is done elsewhere and its matches arrive here as
//! hits. What this adds is the answer a hex editor cannot
//! give: which file owns the block a match fell in, or that nothing does.
//! "Found in a block no directory entry points at" is frequently the more
//! interesting answer of the two.
use vstd::prelude::*;

use crate::json::{JsonView, Value, fields_view, items_view, lemma_fields_view};
use crate::layout::{Owned, Region, Span, claim_of, owner_view, region_name, tiles};

verus! {

/// Where a search matched: its byte offset, and the block that holds it.
#[derive(Debug, Clone, Copy, PartialEq, Eq, Structural)]
pub struct Hit {
    /// Byte offset of the match.
    pub offset: u64,
    /// The block it falls in.
    pub block: u64,
}

/// One match, with the file it belongs to where there is one.
#[derive(Debug, Clone)]
pub struct Found {
    /// Where it is.
    pub at: Hit,
    /// The path of the entry whose blocks cover this one, if any.
    pub owner: Option<String>,
    /// That entry's own block, if any: what identifies the owner to a
    /// program, as the path does to a reader.
    pub owner_block: Option<u32>,
    /// What part of the disk it landed in.
    pub region: Region,
}

/// What a search found.
#[derive(Debug, Clone)]
pub struct Search {
    /// Every match, in the order found.
    pub matches: Vec<Found>,
    /// Bytes examined.
    pub scanned: u64,
    /// Whether the pattern was read as hex.
    pub was_hex: bool,
}

/// What claims block `b` by a claim table: nothing for a block beyond it.
pub open spec fn claim_at(claims: Seq<Option<Owned>>, b: u64) -> (Region, Option<Seq<char>>, Option<u32>) {
    if b < claims.len() {
        claim_of(claims, b as int)
    } else {
        (Region::Unclaimed, None, None)
    }
}

/// A found match as plain values: where, and what claims its block.
pub open spec fn found_view(f: Found) -> (Hit, (Region, Option<Seq<char>>, Option<u32>)) {
    (f.at, (f.region, owner_view(f.owner), f.owner_block))
}

/// Each hit with what claims its block.
pub open spec fn attributed(hits: Seq<Hit>, claims: Seq<Option<Owned>>) -> Seq<(Hit, (Region, Option<Seq<char>>, Option<u32>))> {
    hits.map_values(|h: Hit| (h, claim_at(claims, h.block)))
}

/// One hit with what claims its block.
fn attribute_one(h: Hit, claims: &Vec<Option<Owned>>) -> (f: Found)
    ensures
        found_view(f) == (h, claim_at(claims@, h.block)),
{
    if h.block < claims.len() as u64 {
        match &claims[h.block as usize] {
            Some(o) => Found { at: h, owner: o.owner.clone(), owner_block: o.owner_block, region: o.region },
            None => Found { at: h, owner: None, owner_block: None, region: Region::Unclaimed },
        }
    } else {
        Found { at: h, owner: None, owner_block: None, region: Region::Unclaimed }
    }
}

impl Search {
    /// A search's hits over `scanned` bytes, each attributed by the image's
    /// claim table: `claims[b]` is what owns block `b`, `None` where nothing
    /// does, and a hit past the table's end is in nothing.
    pub fn attributed(hits: &Vec<Hit>, claims: &Vec<Option<Owned>>, scanned: u64, was_hex: bool) -> (s: Search)
        ensures
            s.matches@.map_values(|f: Found| found_view(f)) == attributed(hits@, claims@),
            s.scanned == scanned,
            s.was_hex == was_hex,
    {
        let mut matches: Vec<Found> = Vec::new();
        let mut i: usize = 0;
        while i < hits.len()
            invariant
                i <= hits@.len(),
                matches@.map_values(|f: Found| found_view(f)) == attributed(hits@.take(i as int), claims@),
            decreases hits@.len() - i,
        {
            let ghost before = matches@;
            let f = attribute_one(hits[i], claims);
            matches.push(f);
            proof {
                assert(matches@.drop_last() =~= before);
                assert(hits@.take(i + 1).drop_last() =~= hits@.take(i as int));
                assert(matches@.map_values(|f: Found| found_view(f)) =~= before.map_values(
                    |f: Found| found_view(f),
                ).push(found_view(matches@.last())));
                assert(attributed(hits@.take(i + 1), claims@) =~= attributed(hits@.take(i as int), claims@).push(
                    (hits@[i as int], claim_at(claims@, hits@[i as int].block)),
                ));
            }
            i = i + 1;
        }
        assert(hits@.take(i as int) =~= hits@);
        Search { matches, scanned, was_hex }
    }

    /// A search of a container that will not mount: still searchable, and
    /// every hit in nothing any directory entry claims.
    pub fn unattributed(hits: &Vec<Hit>, scanned: u64, was_hex: bool) -> (s: Search)
        ensures
            s.matches@.map_values(|f: Found| found_view(f)) == hits@.map_values(
                |h: Hit| (h, (Region::Unclaimed, None::<Seq<char>>, None::<u32>)),
            ),
            s.scanned == scanned,
            s.was_hex == was_hex,
    {
        let none: Vec<Option<Owned>> = Vec::new();
        let s = Search::attributed(hits, &none, scanned, was_hex);
        assert(attributed(hits@, none@) =~= hits@.map_values(
            |h: Hit| (h, (Region::Unclaimed, None::<Seq<char>>, None::<u32>)),
        ));
        s
    }
}

/// The model of one match as JSON. A null file means no directory entry
/// points at the block: deleted, unallocated, or outside the filesystem.
pub open spec fn found_json(f: Found) -> JsonView {
    JsonView::Obj(
        seq![
            ("offset"@, JsonView::Num(f.at.offset as nat)),
            ("block"@, JsonView::Num(f.at.block as nat)),
            ("file"@, match f.owner {
                Some(o) => JsonView::Str(o@),
                None => JsonView::Null,
            }),
            ("file_block"@, match f.owner_block {
                Some(b) => JsonView::Num(b as nat),
                None => JsonView::Null,
            }),
            ("region"@, JsonView::Str(region_name(f.region)@)),
        ],
    )
}

/// The model of a search as JSON.
pub open spec fn search_json(s: Search) -> JsonView {
    JsonView::Obj(
        seq![
            ("scanned"@, JsonView::Num(s.scanned as nat)),
            ("hex"@, JsonView::Bool(s.was_hex)),
            ("found"@, JsonView::Num(s.matches@.len())),
            ("matches"@, JsonView::Arr(s.matches@.map_values(|f: Found| found_json(f)))),
        ],
    )
}

/// One match as JSON.
fn found_to_json(f: &Found) -> (v: Value)
    ensures
        v@ == found_json(*f),
{
    let file = match &f.owner {
        Some(o) => Value::str(o.as_str()),
        None => Value::Null,
    };
    let file_block = match f.owner_block {
        Some(b) => Value::Num(b as u64),
        None => Value::Null,
    };
    let fields = vec![
        ("offset", Value::Num(f.at.offset)),
        ("block", Value::Num(f.at.block)),
        ("file", file),
        ("file_block", file_block),
        ("region", Value::str(f.region.name())),
    ];
    proof {
        lemma_fields_view(fields@);
        assert(fields_view(fields@) =~= found_json(*f)->Obj_0);
    }
    Value::Obj(fields)
}

impl Search {
    /// The search as JSON.
    pub fn to_json(&self) -> (v: Value)
        ensures
            v@ == search_json(*self),
    {
        let mut items: Vec<Value> = Vec::new();
        let mut i: usize = 0;
        while i < self.matches.len()
            invariant
                i <= self.matches@.len(),
                items_view(items@) == self.matches@.take(i as int).map_values(|f: Found| found_json(f)),
            decreases self.matches@.len() - i,
        {
            let ghost before = items@;
            let item = found_to_json(&self.matches[i]);
            items.push(item);
            assert(items@.drop_last() =~= before);
            i = i + 1;
            assert(items_view(items@) =~= self.matches@.take(i as int).map_values(|f: Found| found_json(f)));
        }
        assert(self.matches@.take(i as int) =~= self.matches@);
        let fields = vec![
            ("scanned", Value::Num(self.scanned)),
            ("hex", Value::Bool(self.was_hex)),
            ("found", Value::Num(self.matches.len() as u64)),
            ("matches", Value::Arr(items)),
        ];
        proof {
            lemma_fields_view(fields@);
            assert(fields_view(fields@) =~= search_json(*self)->Obj_0);
        }
        Value::Obj(fields)
    }
}

/// A search and the whole-disk map never disagree about what a block is:
/// a match that falls in a span of the map built from the same claims is in
/// that span's region and belongs to that span's owner.
pub proof fn lemma_search_agrees_with_the_map(
    spans: Seq<Span>,
    claims: Seq<Option<Owned>>,
    size: int,
    hits: Seq<Hit>,
    found: Seq<Found>,
    k: int,
    j: int,
)
    requires
        tiles(spans, claims, claims.len() as int, size),
        found.map_values(|f: Found| found_view(f)) == attributed(hits, claims),
        0 <= k < found.len(),
        0 <= j < spans.len(),
        spans[j].block <= hits[k].block < spans[j].block + spans[j].blocks,
    ensures
        found[k].at == hits[k],
        found[k].region == spans[j].region,
        owner_view(found[k].owner) == owner_view(spans[j].owner),
{
    reveal(tiles);
    assert(found.map_values(|f: Found| found_view(f)).len() == found.len());
    assert(attributed(hits, claims).len() == hits.len());
    assert(found.map_values(|f: Found| found_view(f))[k] == found_view(found[k]));
    assert(attributed(hits, claims)[k] == (hits[k], claim_at(claims, hits[k].block)));
    assert(crate::layout::span_ok(spans[j], claims, size));
    let b = hits[k].block as int;
    assert(claim_of(claims, b).0 == spans[j].region && claim_of(claims, b).1 == owner_view(spans[j].owner));
    assert(spans.last().block + spans.last().blocks == claims.len());
    lemma_spans_within(spans, claims, size, j);
}

/// Every span of a map lies within the blocks it was built from.
proof fn lemma_spans_within(spans: Seq<Span>, claims: Seq<Option<Owned>>, size: int, j: int)
    requires
        tiles(spans, claims, claims.len() as int, size),
        0 <= j < spans.len(),
    ensures
        spans[j].block + spans[j].blocks <= claims.len(),
    decreases spans.len() - j,
{
    reveal(tiles);
    if j + 1 < spans.len() {
        assert(spans[j].block + spans[j].blocks == spans[j + 1].block);
        lemma_spans_within(spans, claims, size, j + 1);
        assert(crate::layout::span_ok(spans[j + 1], claims, size));
    }
}

} // verus!
