//! Corpus-scale batch operations.
//!
//! Nothing may abort a run: an image that cannot be read is a result, not an
//! error, and every failure becomes a record. The summary is the product:
//! how many mount, which faults recur, which handful need attention. Fault
//! codes are counted once per image, not once per occurrence.
use vstd::prelude::*;

use crate::convert::{ConvertError, error_code, error_text};
use crate::health::{Finding, Health, Severity, rank, severity_name, str_is, worst_in};
use crate::json::{JsonView, Value, fields_view, items_view, lemma_fields_view, str_array, strs};

verus! {

/// `a` sorts before `b`, character by character.
///
/// Strings order by their UTF-8 bytes, and UTF-8 keeps the order of the code
/// points it encodes, so this is the order of the strings themselves.
pub open spec fn lex_lt(a: Seq<char>, b: Seq<char>) -> bool
    decreases a.len(),
{
    if a.len() == 0 {
        b.len() > 0
    } else if b.len() == 0 {
        false
    } else if a[0] != b[0] {
        a[0] < b[0]
    } else {
        lex_lt(a.drop_first(), b.drop_first())
    }
}

/// Any two strings are ordered one way, the other, or equal, and only one.
pub proof fn lemma_lex_total(a: Seq<char>, b: Seq<char>)
    ensures
        lex_lt(a, b) || a == b || lex_lt(b, a),
        !(lex_lt(a, b) && lex_lt(b, a)),
        !lex_lt(a, a),
    decreases a.len(),
{
    if a.len() > 0 && b.len() > 0 {
        lemma_lex_total(a.drop_first(), b.drop_first());
        if a[0] == b[0] && a.drop_first() == b.drop_first() {
            assert(a =~= seq![a[0]] + a.drop_first());
            assert(b =~= seq![b[0]] + b.drop_first());
        }
    }
    if a.len() > 0 {
        lemma_lex_total(a.drop_first(), a.drop_first());
    }
    if a.len() == 0 && b.len() == 0 {
        assert(a =~= b);
    }
}

/// The order is transitive.
pub proof fn lemma_lex_transitive(a: Seq<char>, b: Seq<char>, c: Seq<char>)
    requires
        lex_lt(a, b),
        lex_lt(b, c),
    ensures
        lex_lt(a, c),
    decreases a.len(),
{
    if a.len() > 0 && b.len() > 0 && c.len() > 0 {
        if a[0] == b[0] && b[0] == c[0] {
            lemma_lex_transitive(a.drop_first(), b.drop_first(), c.drop_first());
        } else {
            assert(a[0] != b[0] || b[0] != c[0]);
        }
    }
}

/// The characters of a string slice.
pub(crate) fn chars_of(s: &str) -> (r: Vec<char>)
    ensures
        r@ == s@,
{
    broadcast use vstd::string::group_string_axioms;
    let mut out: Vec<char> = Vec::new();
    let ghost mut seen: int = 0;
    for c in it: s.chars()
        invariant
            it.seq() == s@,
            seen == it.index(),
            seen <= s@.len(),
            out@ == s@.take(seen),
    {
        out.push(c);
        proof {
            seen = seen + 1;
        }
        assert(out@ =~= s@.take(seen));
    }
    assert(out@ =~= s@);
    out
}

/// Whether `a` sorts before `b`.
pub(crate) fn lex_less(a: &Vec<char>, b: &Vec<char>) -> (r: bool)
    ensures
        r == lex_lt(a@, b@),
{
    let mut i: usize = 0;
    assert(a@.skip(0) =~= a@);
    assert(b@.skip(0) =~= b@);
    while i < a.len() && i < b.len() && a[i] == b[i]
        invariant
            i <= a@.len(),
            i <= b@.len(),
            a@.take(i as int) == b@.take(i as int),
            lex_lt(a@, b@) == lex_lt(a@.skip(i as int), b@.skip(i as int)),
        decreases a@.len() - i,
    {
        assert(a@.skip(i as int).drop_first() =~= a@.skip(i + 1));
        assert(b@.skip(i as int).drop_first() =~= b@.skip(i + 1));
        assert(a@.take(i + 1) =~= a@.take(i as int).push(a@[i as int]));
        assert(b@.take(i + 1) =~= b@.take(i as int).push(b@[i as int]));
        i = i + 1;
    }
    if i == a.len() {
        i < b.len()
    } else if i == b.len() {
        false
    } else {
        a[i] < b[i]
    }
}

/// Counts kept by name, names in order and each once.
pub open spec fn ordered(v: Seq<(String, usize)>) -> bool {
    forall|i: int, j: int| 0 <= i < j < v.len() ==> lex_lt(#[trigger] v[i].0@, #[trigger] v[j].0@)
}

/// Whether `name` has a count.
pub open spec fn has_name(v: Seq<(String, usize)>, name: Seq<char>) -> bool {
    exists|i: int| 0 <= i < v.len() && v[i].0@ == name
}

/// The count kept for `name`, zero where it has none.
pub open spec fn count_for(v: Seq<(String, usize)>, name: Seq<char>) -> nat {
    if has_name(v, name) {
        v[choose|i: int| 0 <= i < v.len() && v[i].0@ == name].1 as nat
    } else {
        0
    }
}

proof fn lemma_count_at(v: Seq<(String, usize)>, i: int)
    requires
        ordered(v),
        0 <= i < v.len(),
    ensures
        has_name(v, v[i].0@),
        count_for(v, v[i].0@) == v[i].1,
{
    let k = choose|k: int| 0 <= k < v.len() && v[k].0@ == v[i].0@;
    if k != i {
        lemma_lex_total(v[i].0@, v[i].0@);
        if k < i {
            assert(lex_lt(v[k].0@, v[i].0@));
        } else {
            assert(lex_lt(v[i].0@, v[k].0@));
        }
    }
}

/// Where `key` belongs among ordered names: after every name before it.
fn insertion_point(v: &Vec<(String, usize)>, key: &Vec<char>) -> (i: usize)
    ensures
        i <= v@.len(),
        forall|j: int| 0 <= j < i ==> lex_lt(#[trigger] v@[j].0@, key@),
        i < v@.len() ==> !lex_lt(v@[i as int].0@, key@),
{
    let mut i: usize = 0;
    while i < v.len()
        invariant
            i <= v@.len(),
            forall|j: int| 0 <= j < i ==> lex_lt(#[trigger] v@[j].0@, key@),
        decreases v@.len() - i,
    {
        let here = chars_of(v[i].0.as_str());
        if !lex_less(&here, key) {
            return i;
        }
        i = i + 1;
    }
    i
}

proof fn lemma_count_elsewhere(a: Seq<(String, usize)>, b: Seq<(String, usize)>, n: Seq<char>, k: int, m: int)
    requires
        ordered(a),
        ordered(b),
        0 <= k < a.len(),
        0 <= m < b.len(),
        a[k] == b[m],
        a[k].0@ == n,
    ensures
        has_name(a, n),
        has_name(b, n),
        count_for(a, n) == count_for(b, n),
{
    lemma_count_at(a, k);
    lemma_count_at(b, m);
}

proof fn lemma_absent(v: Seq<(String, usize)>, n: Seq<char>)
    requires
        forall|j: int| 0 <= j < v.len() ==> v[j].0@ != n,
    ensures
        !has_name(v, n),
        count_for(v, n) == 0,
{
}

/// A count after one more of `name` was counted against it: one more when it
/// is `name`'s, stopping at the largest `usize`.
pub open spec fn after_bump(count: nat, hit: bool) -> nat {
    if hit && count < usize::MAX {
        count + 1
    } else {
        count
    }
}

/// Count one more of `name`, keeping the names in order. A count already at
/// the largest `usize` stays there.
pub fn bump(v: &mut Vec<(String, usize)>, name: &str)
    requires
        ordered(old(v)@),
    ensures
        ordered(final(v)@),
        forall|n: Seq<char>| #[trigger] has_name(final(v)@, n) == (has_name(old(v)@, n) || n == name@),
        forall|n: Seq<char>| #[trigger] count_for(final(v)@, n) == after_bump(count_for(old(v)@, n), n == name@),
{
    let key = chars_of(name);
    let i = insertion_point(v, &key);
    let ghost old_v = v@;
    let mut found = false;
    if i < v.len() {
        let here = chars_of(v[i].0.as_str());
        found = !lex_less(&key, &here);
        proof {
            lemma_lex_total(here@, key@);
        }
    }
    if found {
        let count = v[i].1;
        proof {
            lemma_count_at(old_v, i as int);
        }
        let entry = v[i].0.clone();
        let next = if count == usize::MAX { count } else { count + 1 };
        v.set(i, (entry, next));
        proof {
            assert forall|p: int, q: int| 0 <= p < q < v@.len() implies lex_lt(#[trigger] v@[p].0@, #[trigger] v@[q].0@) by {
                assert(v@[p].0@ == old_v[p].0@);
                assert(v@[q].0@ == old_v[q].0@);
            }
            lemma_count_at(v@, i as int);
            assert forall|n: Seq<char>| #[trigger] has_name(v@, n) == (has_name(old_v, n) || n == name@) && count_for(v@, n) == after_bump(count_for(old_v, n), n == name@) by {
                if n != name@ {
                    if has_name(old_v, n) {
                        let k = choose|k: int| 0 <= k < old_v.len() && old_v[k].0@ == n;
                        lemma_count_elsewhere(old_v, v@, n, k, k);
                    } else if has_name(v@, n) {
                        let k = choose|k: int| 0 <= k < v@.len() && v@[k].0@ == n;
                        assert(old_v[k].0@ == n);
                    }
                }
            }
        }
    } else {
        proof {
            // Every name from `i` on sorts after `name`.
            assert forall|j: int| i <= j < old_v.len() implies lex_lt(name@, #[trigger] old_v[j].0@) by {
                lemma_lex_total(old_v[i as int].0@, name@);
                if j > i {
                    lemma_lex_transitive(name@, old_v[i as int].0@, old_v[j].0@);
                }
            }
            assert forall|j: int| 0 <= j < old_v.len() implies old_v[j].0@ != name@ by {
                lemma_lex_total(old_v[j].0@, name@);
            }
            lemma_absent(old_v, name@);
        }
        let entry = (name.to_owned(), 1usize);
        v.insert(i, entry);
        proof {
            assert(v@ == old_v.insert(i as int, entry));
            assert forall|p: int, q: int| 0 <= p < q < v@.len() implies lex_lt(#[trigger] v@[p].0@, #[trigger] v@[q].0@) by {
                if q < i {
                    assert(v@[p] == old_v[p] && v@[q] == old_v[q]);
                } else if q == i {
                    assert(v@[p] == old_v[p]);
                } else if p < i {
                    assert(v@[p] == old_v[p] && v@[q] == old_v[q - 1]);
                    lemma_lex_transitive(old_v[p].0@, name@, old_v[q - 1].0@);
                } else if p == i {
                    assert(v@[q] == old_v[q - 1]);
                } else {
                    assert(v@[p] == old_v[p - 1] && v@[q] == old_v[q - 1]);
                }
            }
            assert(v@[i as int] == entry);
            lemma_count_at(v@, i as int);
            assert forall|n: Seq<char>| #[trigger] has_name(v@, n) == (has_name(old_v, n) || n == name@) && count_for(v@, n) == after_bump(count_for(old_v, n), n == name@) by {
                if n != name@ {
                    if has_name(old_v, n) {
                        let k = choose|k: int| 0 <= k < old_v.len() && old_v[k].0@ == n;
                        if k < i {
                            assert(v@[k] == old_v[k]);
                            lemma_count_elsewhere(old_v, v@, n, k, k);
                        } else {
                            assert(v@[k + 1] == old_v[k]);
                            lemma_count_elsewhere(old_v, v@, n, k, k + 1);
                        }
                    } else if has_name(v@, n) {
                        let k = choose|k: int| 0 <= k < v@.len() && v@[k].0@ == n;
                        if k < i {
                            assert(old_v[k] == v@[k]);
                        } else if k > i {
                            assert(old_v[k - 1] == v@[k]);
                        }
                    }
                }
            }
        }
    }
}


/// What happened when one image in a batch was converted.
///
/// Per image rather than per run, because a corpus is heterogeneous: one
/// target format is lossless for most images and refused for others, and a
/// run that stopped at the first refusal would convert nothing.
#[derive(Debug, Clone)]
pub struct ConversionOutcome {
    /// A stable code: `converted`, `exists`, `lossy`, `refused`,
    /// `not-implemented`, `failed`.
    pub code: &'static str,
    /// Where the output went, when one was written.
    pub written: Option<String>,
    /// Why, when nothing was written.
    pub reason: Option<String>,
}

/// The model of an optional string as JSON.
pub open spec fn opt_text(s: Option<String>) -> JsonView {
    match s {
        Some(x) => JsonView::Str(x@),
        None => JsonView::Null,
    }
}

/// An optional string as JSON.
fn opt_text_json(s: &Option<String>) -> (v: Value)
    ensures
        v@ == opt_text(*s),
{
    match s {
        Some(x) => Value::str(x.as_str()),
        None => Value::Null,
    }
}

/// The model of a conversion outcome as JSON.
pub open spec fn outcome_json(o: ConversionOutcome) -> JsonView {
    JsonView::Obj(
        seq![
            ("code"@, JsonView::Str(o.code@)),
            ("written"@, opt_text(o.written)),
            ("reason"@, opt_text(o.reason)),
        ],
    )
}

/// How far converting one image of a batch got.
#[derive(Debug, Clone)]
pub enum ConvertStage {
    /// The destination already exists: nothing was converted.
    DestinationTaken,
    /// The engine declined the conversion, or it failed.
    NotConverted(ConvertError),
    /// The output could not be written, its folder or the file, and why.
    WriteFailed(String),
    /// The output was written.
    Written,
}

/// The codes a conversion outcome can carry.
pub open spec fn outcome_codes() -> Seq<Seq<char>> {
    seq!["converted"@, "exists"@, "lossy"@, "refused"@, "not-implemented"@, "failed"@]
}

/// An outcome that makes sense: its code is one of the six, and an output
/// was written, and no reason given, exactly when the code is `converted`.
pub open spec fn coherent(o: ConversionOutcome) -> bool {
    &&& outcome_codes().contains(o.code@)
    &&& (o.code@ == "converted"@) == (o.written is Some)
    &&& (o.written is Some) == (o.reason is None)
}

/// What any outcome made here says is consistent: it wrote a file exactly
/// when its code is `converted`, exactly when it names where the file went,
/// and exactly when it gives no reason; and its code is one of the six.
pub proof fn lemma_wrote_exactly_when_written(o: ConversionOutcome)
    requires
        coherent(o),
    ensures
        (o.code@ == "converted"@) == (o.written is Some),
        (o.code@ == "converted"@) == (o.reason is None),
        o.code@ == "converted"@ || o.code@ == "exists"@ || o.code@ == "lossy"@ || o.code@ == "refused"@
            || o.code@ == "not-implemented"@ || o.code@ == "failed"@,
{
    lemma_codes_known();
    let k = choose|k: int| 0 <= k < outcome_codes().len() && outcome_codes()[k] == o.code@;
}

proof fn lemma_codes_known()
    ensures
        outcome_codes()[0] == "converted"@,
        outcome_codes()[1] == "exists"@,
        outcome_codes()[2] == "lossy"@,
        outcome_codes()[3] == "refused"@,
        outcome_codes()[4] == "not-implemented"@,
        outcome_codes()[5] == "failed"@,
        "exists"@ != "converted"@,
        "lossy"@ != "converted"@,
        "refused"@ != "converted"@,
        "not-implemented"@ != "converted"@,
        "failed"@ != "converted"@,
{
    reveal_strlit("converted");
    reveal_strlit("exists");
    reveal_strlit("lossy");
    reveal_strlit("refused");
    reveal_strlit("not-implemented");
    reveal_strlit("failed");
    assert("exists"@[0] != "converted"@[0]);
    assert("lossy"@[0] != "converted"@[0]);
    assert("refused"@[0] != "converted"@[0]);
    assert("not-implemented"@[0] != "converted"@[0]);
    assert("failed"@[0] != "converted"@[0]);
}

impl ConversionOutcome {
    /// The outcome of a conversion whose output was written to `written`.
    pub fn converted(written: String) -> (o: ConversionOutcome)
        ensures
            o.code@ == "converted"@,
            o.written == Some(written),
            o.reason is None,
            coherent(o),
    {
        proof {
            lemma_codes_known();
        }
        ConversionOutcome { code: "converted", written: Some(written), reason: None }
    }

    /// The outcome when the output's name is already taken: nothing is ever
    /// overwritten.
    pub fn already_exists(destination: &str) -> (o: ConversionOutcome)
        ensures
            o.code@ == "exists"@,
            o.written is None,
            o.reason matches Some(r) && r@ == destination@ + " already exists"@,
            coherent(o),
    {
        proof {
            lemma_codes_known();
        }
        let mut reason = String::new();
        crate::text::push_str(&mut reason, destination);
        crate::text::push_str(&mut reason, " already exists");
        ConversionOutcome { code: "exists", written: None, reason: Some(reason) }
    }

    /// The outcome when the output could not be written.
    pub fn failed(reason: String) -> (o: ConversionOutcome)
        ensures
            o.code@ == "failed"@,
            o.written is None,
            o.reason == Some(reason),
            coherent(o),
    {
        proof {
            lemma_codes_known();
        }
        ConversionOutcome { code: "failed", written: None, reason: Some(reason) }
    }

    /// The outcome of converting one image of a batch, from how far it got:
    /// a taken destination is never overwritten, a conversion the engine
    /// declined or could not do carries its code and message, a failure to
    /// write carries its reason, and only a written output is `converted`.
    pub fn of_stage(destination: String, stage: ConvertStage) -> (o: ConversionOutcome)
        ensures
            coherent(o),
            (o.code@ == "converted"@) <==> stage is Written,
            match stage {
                ConvertStage::DestinationTaken => o.code@ == "exists"@ && o.written is None && (o.reason matches Some(
                    r,
                ) && r@ == destination@ + " already exists"@),
                ConvertStage::NotConverted(e) => o.code == error_code(e) && o.written is None && (
                o.reason matches Some(r) && r@ == error_text(e)),
                ConvertStage::WriteFailed(why) => o.code@ == "failed"@ && o.written is None && o.reason
                    == Some(why),
                ConvertStage::Written => o.code@ == "converted"@ && o.written == Some(destination)
                    && o.reason is None,
            },
    {
        proof {
            lemma_codes_known();
        }
        match stage {
            ConvertStage::DestinationTaken => ConversionOutcome::already_exists(destination.as_str()),
            ConvertStage::NotConverted(e) => ConversionOutcome::declined(&e),
            ConvertStage::WriteFailed(why) => ConversionOutcome::failed(why),
            ConvertStage::Written => ConversionOutcome::converted(destination),
        }
    }

    /// Whether an output file was actually produced.
    pub fn wrote(&self) -> (r: bool)
        ensures
            r == (self.code@ == "converted"@),
    {
        str_is(self.code, "converted")
    }

    /// The outcome of a conversion the engine declined or could not do: its
    /// code, and its message as the reason.
    pub fn declined(e: &ConvertError) -> (o: ConversionOutcome)
        ensures
            o.code == error_code(*e),
            o.written is None,
            o.reason matches Some(r) && r@ == error_text(*e),
            coherent(o),
    {
        proof {
            lemma_codes_known();
        }
        ConversionOutcome { code: e.code(), written: None, reason: Some(e.message()) }
    }

    /// The outcome as JSON.
    pub fn to_json(&self) -> (v: Value)
        ensures
            v@ == outcome_json(*self),
    {
        let fields = vec![
            ("code", Value::str(self.code)),
            ("written", opt_text_json(&self.written)),
            ("reason", opt_text_json(&self.reason)),
        ];
        proof {
            lemma_fields_view(fields@);
            assert(fields_view(fields@) =~= outcome_json(*self)->Obj_0);
        }
        Value::Obj(fields)
    }
}

/// What happened to one image.
#[derive(Debug, Clone)]
pub struct Record {
    /// Where it came from.
    pub path: String,
    /// Bytes on disk.
    pub size: u64,
    /// The container, as identified: a sentence for a person.
    pub container: String,
    /// The container as a stable code: `adf`, `extended-adf`, `scp`.
    pub container_code: &'static str,
    /// What converting this image produced, when a conversion was asked for.
    pub conversion: Option<ConversionOutcome>,
    /// SHA-1 of the image as it sits on disk, when hashing was asked for.
    pub sha1: Option<String>,
    /// The volume's name, where one mounted.
    pub volume: Option<String>,
    /// Files reached.
    pub files: usize,
    /// Directories reached.
    pub directories: usize,
    /// Bytes recovered from files.
    pub bytes_recovered: u64,
    /// Fault codes found, in the order reported.
    pub findings: Vec<&'static str>,
    /// The worst severity found, if anything was.
    pub worst: Option<Severity>,
    /// Why the file could not be examined at all.
    pub unreadable: Option<String>,
    /// What the dataset calls this image, when one was supplied. More than
    /// one name means the content hash is ambiguous; all are reported.
    pub identified: Vec<String>,
}

/// Whether a record is of an image that mounted and reported nothing worse
/// than information.
pub open spec fn sound(r: Record) -> bool {
    &&& r.unreadable is None
    &&& r.volume is Some
    &&& match r.worst {
        Some(s) => rank(s) < 1,
        None => true,
    }
}

impl Record {
    /// Whether the image mounted and reported nothing worse than
    /// information.
    pub fn is_sound(&self) -> (r: bool)
        ensures
            r == sound(*self),
    {
        self.unreadable.is_none() && self.volume.is_some() && match self.worst {
            Some(s) => s.rank() < 1,
            None => true,
        }
    }

    /// The record of a file that could not be read at all.
    pub fn unreadable(path: String, why: String) -> (r: Record)
        ensures
            r.path == path,
            r.size == 0,
            r.container@ == "unreadable"@,
            r.container_code@ == "unreadable"@,
            r.conversion is None && r.sha1 is None && r.volume is None,
            r.files == 0 && r.directories == 0 && r.bytes_recovered == 0,
            r.findings@.len() == 0,
            r.worst is None,
            r.unreadable == Some(why),
            r.identified@.len() == 0,
    {
        Record {
            path,
            size: 0,
            container: "unreadable".to_owned(),
            container_code: "unreadable",
            conversion: None,
            sha1: None,
            volume: None,
            files: 0,
            directories: 0,
            bytes_recovered: 0,
            findings: Vec::new(),
            worst: None,
            unreadable: Some(why),
            identified: Vec::new(),
        }
    }
}

/// The record of one examined image: what was read, and what the health
/// examination of it found.
pub fn examine_one(
    path: String,
    size: u64,
    container: String,
    container_code: &'static str,
    volume: Option<String>,
    health: &Health,
) -> (r: Record)
    ensures
        r.path == path && r.size == size && r.container == container,
        r.container_code == container_code,
        r.volume == volume,
        r.conversion is None && r.sha1 is None && r.unreadable is None,
        r.identified@.len() == 0,
        r.files == health.files && r.directories == health.directories,
        r.bytes_recovered == health.bytes_recovered,
        r.findings@ == health.findings@.map_values(|f: Finding| f.code),
        r.worst == worst_in(health.findings@, health.findings@.len() as int),
{
    let mut codes: Vec<&'static str> = Vec::new();
    let mut i: usize = 0;
    while i < health.findings.len()
        invariant
            i <= health.findings@.len(),
            codes@ == health.findings@.take(i as int).map_values(|f: Finding| f.code),
        decreases health.findings@.len() - i,
    {
        codes.push(health.findings[i].code);
        i = i + 1;
        assert(codes@ =~= health.findings@.take(i as int).map_values(|f: Finding| f.code));
    }
    assert(health.findings@.take(i as int) =~= health.findings@);
    Record {
        path,
        size,
        container,
        container_code,
        conversion: None,
        sha1: None,
        volume,
        files: health.files,
        directories: health.directories,
        bytes_recovered: health.bytes_recovered,
        findings: codes,
        worst: health.worst(),
        unreadable: None,
        identified: Vec::new(),
    }
}

/// The model of a record as JSON.
pub open spec fn record_json(r: Record) -> JsonView {
    JsonView::Obj(
        seq![
            ("path"@, JsonView::Str(r.path@)),
            ("size"@, JsonView::Num(r.size as nat)),
            ("container"@, JsonView::Str(r.container@)),
            ("container_code"@, JsonView::Str(r.container_code@)),
            ("sha1"@, opt_text(r.sha1)),
            ("conversion"@, match r.conversion {
                Some(o) => outcome_json(o),
                None => JsonView::Null,
            }),
            ("volume"@, opt_text(r.volume)),
            ("files"@, JsonView::Num(r.files as nat)),
            ("directories"@, JsonView::Num(r.directories as nat)),
            ("bytes_recovered"@, JsonView::Num(r.bytes_recovered as nat)),
            ("findings"@, JsonView::Arr(r.findings@.map_values(|c: &'static str| JsonView::Str(c@)))),
            ("worst"@, match r.worst {
                Some(s) => JsonView::Str(severity_name(s)@),
                None => JsonView::Null,
            }),
            ("unreadable"@, opt_text(r.unreadable)),
            ("identified"@, strs(r.identified@)),
        ],
    )
}

impl Record {
    /// One image's record as JSON.
    pub fn to_json(&self) -> (v: Value)
        ensures
            v@ == record_json(*self),
    {
        let mut codes: Vec<Value> = Vec::new();
        let mut i: usize = 0;
        while i < self.findings.len()
            invariant
                i <= self.findings@.len(),
                items_view(codes@) == self.findings@.take(i as int).map_values(
                    |c: &'static str| JsonView::Str(c@),
                ),
            decreases self.findings@.len() - i,
        {
            let ghost before = codes@;
            let item = Value::str(self.findings[i]);
            assert(item@ == JsonView::Str(self.findings@[i as int]@));
            codes.push(item);
            assert(codes@.drop_last() =~= before);
            i = i + 1;
            assert(items_view(codes@) =~= self.findings@.take(i as int).map_values(
                |c: &'static str| JsonView::Str(c@),
            ));
        }
        assert(self.findings@.take(i as int) =~= self.findings@);
        let conversion = match &self.conversion {
            Some(o) => o.to_json(),
            None => Value::Null,
        };
        let worst = match self.worst {
            Some(s) => Value::str(s.as_str()),
            None => Value::Null,
        };
        let fields = vec![
            ("path", Value::str(self.path.as_str())),
            ("size", Value::Num(self.size)),
            ("container", Value::str(self.container.as_str())),
            ("container_code", Value::str(self.container_code)),
            ("sha1", opt_text_json(&self.sha1)),
            ("conversion", conversion),
            ("volume", opt_text_json(&self.volume)),
            ("files", Value::Num(self.files as u64)),
            ("directories", Value::Num(self.directories as u64)),
            ("bytes_recovered", Value::Num(self.bytes_recovered)),
            ("findings", Value::Arr(codes)),
            ("worst", worst),
            ("unreadable", opt_text_json(&self.unreadable)),
            ("identified", str_array(&self.identified)),
        ];
        proof {
            lemma_fields_view(fields@);
            assert(fields_view(fields@) =~= record_json(*self)->Obj_0);
        }
        Value::Obj(fields)
    }
}


/// Records satisfying `p`.
pub open spec fn count_matching(rs: Seq<Record>, p: spec_fn(Record) -> bool) -> nat
    decreases rs.len(),
{
    if rs.len() == 0 {
        0
    } else {
        count_matching(rs.drop_last(), p) + if p(rs.last()) {
            1nat
        } else {
            0nat
        }
    }
}

/// Whether a record carries the fault code `code`, however many times.
pub open spec fn carries(r: Record, code: Seq<char>) -> bool {
    exists|k: int| 0 <= k < r.findings@.len() && r.findings@[k]@ == code
}

/// Records that could not be read.
pub open spec fn is_unreadable() -> spec_fn(Record) -> bool {
    |r: Record| r.unreadable is Some
}

/// Records that mounted a volume.
pub open spec fn is_mounted() -> spec_fn(Record) -> bool {
    |r: Record| r.volume is Some
}

/// Records of sound images.
pub open spec fn is_sound_record() -> spec_fn(Record) -> bool {
    |r: Record| sound(r)
}

/// Records the dataset could name.
pub open spec fn is_identified() -> spec_fn(Record) -> bool {
    |r: Record| r.identified@.len() > 0
}

/// Records of one container.
pub open spec fn in_container(name: Seq<char>) -> spec_fn(Record) -> bool {
    |r: Record| r.container@ == name
}

/// Records carrying one fault code.
pub open spec fn carrying(code: Seq<char>) -> spec_fn(Record) -> bool {
    |r: Record| carries(r, code)
}

/// Records whose conversion ended with one code.
pub open spec fn converted_as(code: Seq<char>) -> spec_fn(Record) -> bool {
    |r: Record| r.conversion matches Some(o) && o.code@ == code
}

/// Bytes recovered across records, adding with saturation.
pub open spec fn total_recovered(rs: Seq<Record>) -> int
    decreases rs.len(),
{
    if rs.len() == 0 {
        0
    } else {
        crate::health::saturating(total_recovered(rs.drop_last()), rs.last().bytes_recovered as int)
    }
}

/// Everything a batch run found.
#[derive(Debug, Clone)]
pub struct Summary {
    /// Every image, in the order examined.
    pub records: Vec<Record>,
    /// How many images were examined.
    pub examined: usize,
    /// How many could not be read at all.
    pub unreadable: usize,
    /// How many mounted a volume.
    pub mounted: usize,
    /// How many mounted and were sound.
    pub sound: usize,
    /// Containers seen, and how many of each, in name order.
    pub containers: Vec<(String, usize)>,
    /// Fault codes seen, and how many images carried each, in code order.
    /// Not how many times each occurred: one damaged disk can report the
    /// same code dozens of times.
    pub findings: Vec<(String, usize)>,
    /// Total bytes recovered across every image.
    pub bytes_recovered: u64,
    /// How many images the dataset could name.
    pub identified: usize,
    /// Conversion outcomes by code, in code order.
    pub conversions: Vec<(String, usize)>,
}

/// Whether a summary is the tally of exactly its records.
pub open spec fn tallies(s: Summary) -> bool {
    let rs = s.records@;
    &&& s.examined == rs.len()
    &&& s.unreadable == count_matching(rs, is_unreadable())
    &&& s.mounted == count_matching(rs, is_mounted())
    &&& s.sound == count_matching(rs, is_sound_record())
    &&& s.identified == count_matching(rs, is_identified())
    &&& s.bytes_recovered == total_recovered(rs)
    &&& ordered(s.containers@)
    &&& ordered(s.findings@)
    &&& ordered(s.conversions@)
    &&& forall|n: Seq<char>| #[trigger] count_for(s.containers@, n) == count_matching(rs, in_container(n))
    &&& forall|n: Seq<char>| #[trigger] count_for(s.findings@, n) == count_matching(rs, carrying(n))
    &&& forall|n: Seq<char>| #[trigger] count_for(s.conversions@, n) == count_matching(rs, converted_as(n))
}

proof fn lemma_count_bounded(rs: Seq<Record>, p: spec_fn(Record) -> bool)
    ensures
        count_matching(rs, p) <= rs.len(),
    decreases rs.len(),
{
    if rs.len() > 0 {
        lemma_count_bounded(rs.drop_last(), p);
    }
}

proof fn lemma_count_push(rs: Seq<Record>, r: Record, p: spec_fn(Record) -> bool)
    ensures
        count_matching(rs.push(r), p) == count_matching(rs, p) + if p(r) {
            1nat
        } else {
            0nat
        },
{
    assert(rs.push(r).drop_last() =~= rs);
}

impl Summary {
    /// A summary of nothing yet.
    pub fn new() -> (s: Summary)
        ensures
            tallies(s),
            s.records@.len() == 0,
            s.examined == 0 && s.unreadable == 0 && s.mounted == 0 && s.sound == 0,
            s.bytes_recovered == 0 && s.identified == 0,
            s.containers@.len() == 0 && s.findings@.len() == 0 && s.conversions@.len() == 0,
    {
        let s = Summary {
            records: Vec::new(),
            examined: 0,
            unreadable: 0,
            mounted: 0,
            sound: 0,
            containers: Vec::new(),
            findings: Vec::new(),
            bytes_recovered: 0,
            identified: 0,
            conversions: Vec::new(),
        };
        assert forall|n: Seq<char>| #[trigger] count_for(s.containers@, n) == count_matching(s.records@, in_container(n)) by {
            lemma_absent(s.containers@, n);
        }
        assert forall|n: Seq<char>| #[trigger] count_for(s.findings@, n) == count_matching(s.records@, carrying(n)) by {
            lemma_absent(s.findings@, n);
        }
        assert forall|n: Seq<char>| #[trigger] count_for(s.conversions@, n) == count_matching(s.records@, converted_as(n)) by {
            lemma_absent(s.conversions@, n);
        }
        s
    }

    /// Count one more image.
    ///
    /// Each fault code is counted once per image, however many times the
    /// image reported it: summing occurrences makes a few damaged disks read
    /// as many.
    pub fn add(&mut self, record: Record)
        requires
            tallies(*old(self)),
            old(self).records@.len() < usize::MAX,
        ensures
            tallies(*final(self)),
            final(self).records@ == old(self).records@.push(record),
    {
        let ghost rs = self.records@;
        let ghost next = rs.push(record);
        proof {
            lemma_count_push(rs, record, is_unreadable());
            lemma_count_push(rs, record, is_mounted());
            lemma_count_push(rs, record, is_sound_record());
            lemma_count_push(rs, record, is_identified());
            lemma_count_bounded(rs, is_unreadable());
            lemma_count_bounded(rs, is_mounted());
            lemma_count_bounded(rs, is_sound_record());
            lemma_count_bounded(rs, is_identified());
            lemma_count_bounded(rs, in_container(record.container@));
            assert(next.drop_last() =~= rs);
        }
        self.examined = self.examined + 1;
        if record.unreadable.is_some() {
            self.unreadable = self.unreadable + 1;
        }
        if record.volume.is_some() {
            self.mounted = self.mounted + 1;
        }
        if record.is_sound() {
            self.sound = self.sound + 1;
        }
        self.bytes_recovered = if self.bytes_recovered > u64::MAX - record.bytes_recovered {
            u64::MAX
        } else {
            self.bytes_recovered + record.bytes_recovered
        };
        if record.identified.len() > 0 {
            self.identified = self.identified + 1;
        }
        bump(&mut self.containers, record.container.as_str());
        proof {
            assert forall|n: Seq<char>| #[trigger] count_for(self.containers@, n) == count_matching(next, in_container(n)) by {
                lemma_count_push(rs, record, in_container(n));
            }
        }
        // Each code once, however often the image reported it.
        let mut codes: Vec<(String, usize)> = Vec::new();
        std::mem::swap(&mut codes, &mut self.findings);
        let ghost start = codes@;
        let mut k: usize = 0;
        while k < record.findings.len()
            invariant
                k <= record.findings@.len(),
                ordered(codes@),
                rs.len() < usize::MAX,
                forall|n: Seq<char>| #[trigger] count_for(start, n) == count_matching(rs, carrying(n)),
                forall|n: Seq<char>|
                    #[trigger] count_for(codes@, n) == count_for(start, n) + if (exists|j: int|
                        0 <= j < k && record.findings@[j]@ == n) {
                        1nat
                    } else {
                        0nat
                    },
            decreases record.findings@.len() - k,
        {
            let code = record.findings[k];
            let mut seen = false;
            let mut j: usize = 0;
            while j < k
                invariant
                    j <= k < record.findings@.len(),
                    code == record.findings@[k as int],
                    seen == exists|m: int| 0 <= m < j && record.findings@[m]@ == code@,
                decreases k - j,
            {
                if str_is(record.findings[j], code) {
                    seen = true;
                }
                j = j + 1;
            }
            if !seen {
                proof {
                    lemma_count_bounded(rs, carrying(code@));
                }
                bump(&mut codes, code);
            }
            k = k + 1;
        }
        self.findings = codes;
        proof {
            assert forall|n: Seq<char>| #[trigger] count_for(self.findings@, n) == count_matching(next, carrying(n)) by {
                lemma_count_push(rs, record, carrying(n));
                if carries(record, n) {
                    let j = choose|j: int| 0 <= j < record.findings@.len() && record.findings@[j]@ == n;
                    assert(exists|j: int| 0 <= j < k && record.findings@[j]@ == n);
                }
            }
        }
        match &record.conversion {
            Some(o) => {
                proof {
                    lemma_count_bounded(rs, converted_as(o.code@));
                }
                bump(&mut self.conversions, o.code);
            },
            None => {},
        }
        proof {
            assert forall|n: Seq<char>| #[trigger] count_for(self.conversions@, n) == count_matching(next, converted_as(n)) by {
                lemma_count_push(rs, record, converted_as(n));
            }
        }
        self.records.push(record);
        assert(self.records@ == next);
    }
}

/// Records paired with their own paths as keys.
pub open spec fn keyed_records(ps: Seq<(Vec<char>, Record)>, rs: Seq<Record>) -> bool {
    &&& ps.len() == rs.len()
    &&& forall|i: int| 0 <= i < ps.len() ==> #[trigger] ps[i].1 == rs[i] && ps[i].0@ == rs[i].path@
}

/// Records in order of their paths.
pub open spec fn in_path_order(rs: Seq<Record>) -> bool {
    forall|i: int, j: int| 0 <= i < j < rs.len() ==> !lex_lt(#[trigger] rs[j].path@, #[trigger] rs[i].path@)
}

/// The records in path order, records of one path in the order given, so
/// two runs over one corpus are comparable and a failure is reproducible.
pub fn sort_records(records: Vec<Record>) -> (r: Vec<Record>)
    ensures
        exists|ps: Seq<(Vec<char>, Record)>|
            keyed_records(ps, records@) && r@ == crate::order::sorted_by_key(ps).map_values(
                |p: (Vec<char>, Record)| p.1,
            ),
        in_path_order(r@),
        r@.len() == records@.len(),
{
    let ghost all = records@;
    let mut rest = records;
    let mut pairs: Vec<(Vec<char>, Record)> = Vec::new();
    let ghost mut done: int = 0;
    while rest.len() > 0
        invariant
            0 <= done <= all.len(),
            rest@ == all.subrange(done, all.len() as int),
            keyed_records(pairs@, all.take(done)),
        decreases rest@.len(),
    {
        let item = rest.remove(0);
        proof {
            assert(item == all[done]);
            assert(rest@ =~= all.subrange(done + 1, all.len() as int));
        }
        let key = chars_of(item.path.as_str());
        pairs.push((key, item));
        proof {
            done = done + 1;
            assert forall|i: int| 0 <= i < pairs@.len() implies #[trigger] pairs@[i].1 == all.take(done)[i]
                && pairs@[i].0@ == all.take(done)[i].path@ by {
                if i < done - 1 {
                    assert(all.take(done)[i] == all.take(done - 1)[i]);
                }
            }
        }
    }
    assert(all.take(done) =~= all);
    let ghost ps = pairs@;
    let ghost key: spec_fn(Record) -> Seq<char> = |r: Record| r.path@;
    proof {
        assert(crate::order::keyed_by(ps, key));
        crate::order::lemma_sorted_keeps_keys(ps, key);
        crate::order::lemma_sorted_in_order(ps);
    }
    let out = crate::order::sorted_items(pairs);
    proof {
        let sorted = crate::order::sorted_by_key(ps);
        assert forall|i: int, j: int| 0 <= i < j < out@.len() implies !lex_lt(
            #[trigger] out@[j].path@,
            #[trigger] out@[i].path@,
        ) by {
            assert(out@[i] == sorted[i].1 && out@[j] == sorted[j].1);
            assert(sorted[i].0@ == key(sorted[i].1));
            assert(sorted[j].0@ == key(sorted[j].1));
        }
        assert(keyed_records(ps, all));
    }
    out
}

/// Tally examined images, in path order.
///
/// Nothing aborts the run: a record of an unreadable image is counted like
/// any other.
pub fn run(records: Vec<Record>) -> (s: Summary)
    ensures
        tallies(s),
        exists|ps: Seq<(Vec<char>, Record)>|
            keyed_records(ps, records@) && s.records@ == crate::order::sorted_by_key(ps).map_values(
                |p: (Vec<char>, Record)| p.1,
            ),
        in_path_order(s.records@),
        s.examined == records@.len(),
{
    let mut s = Summary::new();
    let mut rest = sort_records(records);
    let total = rest.len();
    let ghost all = rest@;
    let ghost mut done: int = 0;
    while rest.len() > 0
        invariant
            0 <= done <= all.len(),
            tallies(s),
            s.records@ == all.take(done),
            rest@ == all.subrange(done, all.len() as int),
            all.len() <= usize::MAX,
        decreases rest@.len(),
    {
        let r = rest.remove(0);
        proof {
            assert(r == all[done]);
            assert(all.take(done + 1) =~= all.take(done).push(r));
            assert(rest@ =~= all.subrange(done + 1, all.len() as int));
            done = done + 1;
        }
        s.add(r);
    }
    assert(all.take(done) =~= all);
    s
}

/// A record that makes sense: an image that could not be read mounted
/// nothing.
pub open spec fn apart(r: Record) -> bool {
    !(r.unreadable is Some && r.volume is Some)
}

proof fn lemma_count_apart(rs: Seq<Record>)
    requires
        forall|i: int| 0 <= i < rs.len() ==> apart(#[trigger] rs[i]),
    ensures
        count_matching(rs, is_unreadable()) + count_matching(rs, is_mounted()) <= rs.len(),
    decreases rs.len(),
{
    if rs.len() > 0 {
        let init = rs.drop_last();
        assert forall|i: int| 0 <= i < init.len() implies apart(#[trigger] init[i]) by {
            assert(init[i] == rs[i]);
        }
        lemma_count_apart(init);
        assert(apart(rs[rs.len() - 1]));
    }
}

/// An image is either unreadable or mounted or neither, never both: the
/// summary's unreadable and mounted counts together never exceed the images
/// examined.
pub proof fn lemma_unreadable_and_mounted_apart(s: Summary)
    requires
        tallies(s),
        forall|i: int| 0 <= i < s.records@.len() ==> apart(#[trigger] s.records@[i]),
    ensures
        s.unreadable + s.mounted <= s.examined,
{
    lemma_count_apart(s.records@);
}


/// Records of images carrying an error-severity finding.
pub open spec fn at_risk_record() -> spec_fn(Record) -> bool {
    |r: Record| r.worst == Some(Severity::Error)
}

/// The model of one count as JSON, under the given key name.
pub open spec fn count_json(key: Seq<char>, count_key: Seq<char>, e: (String, usize)) -> JsonView {
    JsonView::Obj(seq![(key, JsonView::Str(e.0@)), (count_key, JsonView::Num(e.1 as nat))])
}

/// The model of a summary as JSON: counts first, records apart.
pub open spec fn summary_json(s: Summary) -> JsonView {
    JsonView::Obj(
        seq![
            ("examined"@, JsonView::Num(s.examined as nat)),
            ("unreadable"@, JsonView::Num(s.unreadable as nat)),
            ("mounted"@, JsonView::Num(s.mounted as nat)),
            ("sound"@, JsonView::Num(s.sound as nat)),
            ("bytes_recovered"@, JsonView::Num(s.bytes_recovered as nat)),
            ("identified"@, JsonView::Num(s.identified as nat)),
            ("containers"@, JsonView::Arr(
                s.containers@.map_values(|e: (String, usize)| count_json("name"@, "count"@, e)),
            )),
            ("findings"@, JsonView::Arr(
                s.findings@.map_values(|e: (String, usize)| count_json("code"@, "images"@, e)),
            )),
            ("conversions"@, JsonView::Arr(
                s.conversions@.map_values(|e: (String, usize)| count_json("code"@, "images"@, e)),
            )),
        ],
    )
}

/// Counts as an array of objects, each a name and a count.
fn counts_json(v: &Vec<(String, usize)>, key: &'static str, count_key: &'static str) -> (r: Value)
    ensures
        r@ == JsonView::Arr(v@.map_values(|e: (String, usize)| count_json(key@, count_key@, e))),
{
    let mut items: Vec<Value> = Vec::new();
    let mut i: usize = 0;
    while i < v.len()
        invariant
            i <= v@.len(),
            items_view(items@) == v@.take(i as int).map_values(
                |e: (String, usize)| count_json(key@, count_key@, e),
            ),
        decreases v@.len() - i,
    {
        let ghost before = items@;
        let fields = vec![(key, Value::str(v[i].0.as_str())), (count_key, Value::Num(v[i].1 as u64))];
        proof {
            lemma_fields_view(fields@);
            assert(fields_view(fields@) =~= count_json(key@, count_key@, v@[i as int])->Obj_0);
        }
        let item = Value::Obj(fields);
        assert(item@ == count_json(key@, count_key@, v@[i as int]));
        items.push(item);
        assert(items@.drop_last() =~= before);
        i = i + 1;
        assert(items_view(items@) =~= v@.take(i as int).map_values(
            |e: (String, usize)| count_json(key@, count_key@, e),
        ));
    }
    assert(v@.take(i as int) =~= v@);
    Value::Arr(items)
}

impl Summary {
    /// Images carrying at least one error-severity finding, in order.
    pub fn at_risk(&self) -> (r: Vec<&Record>)
        ensures
            r@.map_values(|x: &Record| *x) == self.records@.filter(at_risk_record()),
    {
        let mut out: Vec<&Record> = Vec::new();
        let mut i: usize = 0;
        while i < self.records.len()
            invariant
                i <= self.records@.len(),
                out@.map_values(|x: &Record| *x) == self.records@.take(i as int).filter(at_risk_record()),
            decreases self.records@.len() - i,
        {
            let r = &self.records[i];
            proof {
                assert(self.records@.take(i + 1) =~= self.records@.take(i as int).push(*r));
                self.records@.take(i as int).lemma_filter_push(*r, at_risk_record());
            }
            let ghost before = out@;
            let risky = match r.worst {
                Some(Severity::Error) => true,
                _ => false,
            };
            if risky {
                out.push(r);
                assert(out@.map_values(|x: &Record| *x) =~= before.map_values(|x: &Record| *x).push(*r));
            }
            i = i + 1;
        }
        assert(self.records@.take(i as int) =~= self.records@);
        out
    }

    /// The summary as JSON: counts first, so a caller aggregating thousands
    /// of images need not parse past every record to reach them. Counts keyed
    /// by data are arrays of pairs rather than objects, so the document's
    /// shape does not change with the data.
    pub fn to_json(&self) -> (v: Value)
        ensures
            v@ == summary_json(*self),
    {
        let fields = vec![
            ("examined", Value::Num(self.examined as u64)),
            ("unreadable", Value::Num(self.unreadable as u64)),
            ("mounted", Value::Num(self.mounted as u64)),
            ("sound", Value::Num(self.sound as u64)),
            ("bytes_recovered", Value::Num(self.bytes_recovered)),
            ("identified", Value::Num(self.identified as u64)),
            ("containers", counts_json(&self.containers, "name", "count")),
            ("findings", counts_json(&self.findings, "code", "images")),
            ("conversions", counts_json(&self.conversions, "code", "images")),
        ];
        proof {
            lemma_fields_view(fields@);
            assert(fields_view(fields@) =~= summary_json(*self)->Obj_0);
        }
        Value::Obj(fields)
    }
}

proof fn lemma_count_implies(rs: Seq<Record>, p: spec_fn(Record) -> bool, q: spec_fn(Record) -> bool)
    requires
        forall|r: Record| #[trigger] p(r) ==> q(r),
    ensures
        count_matching(rs, p) <= count_matching(rs, q),
    decreases rs.len(),
{
    if rs.len() > 0 {
        lemma_count_implies(rs.drop_last(), p, q);
    }
}

/// A sound image is a mounted one, and a mounted one was examined: the
/// summary's counts nest.
pub proof fn lemma_counts_nest(s: Summary)
    requires
        tallies(s),
    ensures
        s.sound <= s.mounted,
        s.mounted <= s.examined,
        s.unreadable <= s.examined,
        s.identified <= s.examined,
{
    lemma_count_implies(s.records@, is_sound_record(), is_mounted());
    lemma_count_bounded(s.records@, is_mounted());
    lemma_count_bounded(s.records@, is_unreadable());
    lemma_count_bounded(s.records@, is_identified());
}

/// How a content hash matched a dataset.
#[derive(Debug, Clone, Copy, PartialEq, Eq, Structural)]
pub enum MatchKind {
    /// Nothing matched.
    Unknown,
    /// One entry matched.
    Named,
    /// Several entries matched, all the same content under different names.
    Duplicated,
    /// Different content claims the same hash.
    Collision,
    /// Matched on a hash that was not confirmed.
    Unverified,
}

/// The stable code of a match kind.
pub open spec fn match_code(k: MatchKind) -> &'static str {
    match k {
        MatchKind::Unknown => "unknown",
        MatchKind::Named => "named",
        MatchKind::Duplicated => "duplicated",
        MatchKind::Collision => "collision",
        MatchKind::Unverified => "unverified",
    }
}

impl MatchKind {
    /// The stable code of this match kind.
    pub fn code(self) -> (r: &'static str)
        ensures
            r == match_code(self),
    {
        match self {
            MatchKind::Unknown => "unknown",
            MatchKind::Named => "named",
            MatchKind::Duplicated => "duplicated",
            MatchKind::Collision => "collision",
            MatchKind::Unverified => "unverified",
        }
    }
}

/// The model of one dataset entry as JSON.
pub open spec fn entry_json(e: (String, String)) -> JsonView {
    JsonView::Obj(seq![("name"@, JsonView::Str(e.0@)), ("source"@, JsonView::Str(e.1@))])
}

/// The model of an identification as JSON.
pub open spec fn identification(path: Seq<char>, matches: Seq<(String, String)>, kind: MatchKind) -> JsonView {
    JsonView::Obj(
        seq![
            ("path"@, JsonView::Str(path)),
            ("identified"@, JsonView::Bool(matches.len() > 0)),
            ("ambiguous"@, JsonView::Bool(matches.len() > 1)),
            ("match"@, JsonView::Str(match_code(kind)@)),
            ("matches"@, JsonView::Arr(matches.map_values(|e: (String, String)| entry_json(e)))),
        ],
    )
}

/// One image's identification as JSON.
///
/// Every match is listed, each a name and the dataset it came from, and
/// `match` says what several of them mean: usually `duplicated`, one file
/// held under more than one name.
pub fn identification_json(path: &str, matches: &Vec<(String, String)>, kind: MatchKind) -> (v: Value)
    ensures
        v@ == identification(path@, matches@, kind),
{
    let mut items: Vec<Value> = Vec::new();
    let mut i: usize = 0;
    while i < matches.len()
        invariant
            i <= matches@.len(),
            items_view(items@) == matches@.take(i as int).map_values(|e: (String, String)| entry_json(e)),
        decreases matches@.len() - i,
    {
        let ghost before = items@;
        let fields = vec![
            ("name", Value::str(matches[i].0.as_str())),
            ("source", Value::str(matches[i].1.as_str())),
        ];
        proof {
            lemma_fields_view(fields@);
            assert(fields_view(fields@) =~= entry_json(matches@[i as int])->Obj_0);
        }
        let item = Value::Obj(fields);
        assert(item@ == entry_json(matches@[i as int]));
        items.push(item);
        assert(items@.drop_last() =~= before);
        i = i + 1;
        assert(items_view(items@) =~= matches@.take(i as int).map_values(|e: (String, String)| entry_json(e)));
    }
    assert(matches@.take(i as int) =~= matches@);
    let fields = vec![
        ("path", Value::str(path)),
        ("identified", Value::Bool(matches.len() > 0)),
        ("ambiguous", Value::Bool(matches.len() > 1)),
        ("match", Value::str(kind.code())),
        ("matches", Value::Arr(items)),
    ];
    proof {
        lemma_fields_view(fields@);
        assert(fields_view(fields@) =~= identification(path@, matches@, kind)->Obj_0);
    }
    Value::Obj(fields)
}

} // verus!

verus! {

/// A bulk conversion: what to produce, and the directory the outputs go into.
#[derive(Debug, Clone)]
pub struct ConvertRequest {
    /// The container to write.
    pub to: crate::convert::Kind,
    /// The directory outputs go into.
    pub into: String,
}

impl ConvertRequest {
    /// The file name one input's output is written under, in [`Self::into`]:
    /// the input's stem and the target's extension. Flat rather than
    /// mirroring the input tree, because a batch walks one level.
    pub fn output_name(&self, stem: &str) -> (r: String)
        ensures
            r@ == stem@ + "."@ + crate::convert::extension_of(self.to)@,
    {
        let mut name = String::new();
        crate::text::push_str(&mut name, stem);
        crate::text::push_str(&mut name, ".");
        crate::text::push_str(&mut name, crate::convert::extension_for(self.to));
        name
    }
}

} // verus!
