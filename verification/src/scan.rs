//! Scanning an image for recognisable content, and reporting what was found.
//!
//! The signature scan itself is done elsewhere and its hits arrive here; this
//! is what a scan amounts to and how it is reported.
use vstd::prelude::*;

use crate::json::{JsonView, Value, fields_view, items_view, lemma_fields_view};

verus! {

/// Something a signature scan recognised.
#[derive(Debug, Clone)]
pub struct Recognised {
    /// What it is.
    pub name: String,
    /// The stable code of its category.
    pub category: String,
    /// Byte offset.
    pub offset: u64,
    /// The block it starts in.
    pub block: u64,
    /// Blocks the pattern runs for: more than one means filler rather than a
    /// file header.
    pub run: u32,
}

/// What a scan of a whole image found. The whole image rather than each
/// file: on an old disk the interesting bytes are often in space no
/// directory entry points at any more.
#[derive(Debug, Clone)]
pub struct Scan {
    /// Every hit, in offset order.
    pub hits: Vec<Recognised>,
    /// Bytes examined.
    pub scanned: u64,
}

/// The model of one recognised hit as JSON.
pub open spec fn recognised_json(h: Recognised) -> JsonView {
    JsonView::Obj(
        seq![
            ("name"@, JsonView::Str(h.name@)),
            ("category"@, JsonView::Str(h.category@)),
            ("offset"@, JsonView::Num(h.offset as nat)),
            ("block"@, JsonView::Num(h.block as nat)),
            ("blocks"@, JsonView::Num(h.run as nat)),
        ],
    )
}

/// The model of a scan as JSON.
pub open spec fn scan_json(s: Scan) -> JsonView {
    JsonView::Obj(
        seq![
            ("scanned"@, JsonView::Num(s.scanned as nat)),
            ("found"@, JsonView::Num(s.hits@.len())),
            ("hits"@, JsonView::Arr(s.hits@.map_values(|h: Recognised| recognised_json(h)))),
        ],
    )
}

/// One recognised hit as JSON.
fn recognised_to_json(h: &Recognised) -> (v: Value)
    ensures
        v@ == recognised_json(*h),
{
    let fields = vec![
        ("name", Value::str(h.name.as_str())),
        ("category", Value::str(h.category.as_str())),
        ("offset", Value::Num(h.offset)),
        ("block", Value::Num(h.block)),
        ("blocks", Value::Num(h.run as u64)),
    ];
    proof {
        lemma_fields_view(fields@);
        assert(fields_view(fields@) =~= recognised_json(*h)->Obj_0);
    }
    Value::Obj(fields)
}

impl Scan {
    /// Whether anything was recognised.
    pub fn is_empty(&self) -> (r: bool)
        ensures
            r == (self.hits@.len() == 0),
    {
        self.hits.len() == 0
    }

    /// The scan as JSON.
    pub fn to_json(&self) -> (v: Value)
        ensures
            v@ == scan_json(*self),
    {
        let mut items: Vec<Value> = Vec::new();
        let mut i: usize = 0;
        while i < self.hits.len()
            invariant
                i <= self.hits@.len(),
                items_view(items@) == self.hits@.take(i as int).map_values(|h: Recognised| recognised_json(h)),
            decreases self.hits@.len() - i,
        {
            let ghost before = items@;
            let item = recognised_to_json(&self.hits[i]);
            items.push(item);
            assert(items@.drop_last() =~= before);
            i = i + 1;
            assert(items_view(items@) =~= self.hits@.take(i as int).map_values(|h: Recognised| recognised_json(h)));
        }
        assert(self.hits@.take(i as int) =~= self.hits@);
        let fields = vec![
            ("scanned", Value::Num(self.scanned)),
            ("found", Value::Num(self.hits.len() as u64)),
            ("hits", Value::Arr(items)),
        ];
        proof {
            lemma_fields_view(fields@);
            assert(fields_view(fields@) =~= scan_json(*self)->Obj_0);
        }
        Value::Obj(fields)
    }
}

} // verus!
