//! The command line's own rules: how arguments are read, what each outcome
//! exits with, and how reports are worded.
use vstd::prelude::*;

use crate::batch::chars_of;
use crate::text::{decimal, push_char, push_decimal, push_str};

verus! {

/// No faults found.
pub const EXIT_CLEAN: u8 = 0;
/// The image was read, and has faults.
pub const EXIT_FAULTS: u8 = 1;
/// The command line was wrong.
pub const EXIT_USAGE: u8 = 2;
/// The image could not be read.
pub const EXIT_UNREADABLE: u8 = 3;
/// The image was read, but holds no AmigaDOS volume.
pub const EXIT_NO_VOLUME: u8 = 4;
/// `check` found something that would lose or corrupt data: distinct from
/// faults, because "this disk is odd" and "do not write to this disk" is the
/// difference a batch run most needs to act on.
pub const EXIT_DATA_AT_RISK: u8 = 5;

/// How to render.
#[derive(Debug, Clone, Copy, PartialEq, Eq, Structural)]
pub enum Format {
    /// For people. Layout may change; do not parse it.
    Text,
    /// For machines. Field names and fault codes are stable.
    Json,
}

/// The command line, after parsing.
#[derive(Debug, Clone)]
pub struct Args {
    /// The command: the first word that is not an option.
    pub command: String,
    /// The words after it.
    pub positional: Vec<String>,
    /// How to render.
    pub format: Format,
    /// Which partition of a hard disk to act on, by name or index.
    pub partition: Option<String>,
    /// Where `consolidate` should write its merged image, if anywhere.
    pub output: Option<String>,
    /// Write tracks as raw MFM rather than as sectors.
    pub raw: bool,
}

/// Whether `s` begins with `p`.
pub open spec fn starts(s: Seq<char>, p: Seq<char>) -> bool {
    p.len() <= s.len() && s.take(p.len() as int) == p
}

/// `s` with every leading copy of `p` removed.
pub open spec fn strip_all(s: Seq<char>, p: Seq<char>) -> Seq<char>
    decreases s.len(),
{
    if p.len() > 0 && starts(s, p) {
        strip_all(s.skip(p.len() as int), p)
    } else {
        s
    }
}

/// The options read so far: positional words, format, partition, output and
/// the raw flag.
pub type Reading = (Seq<Seq<char>>, Format, Option<Seq<char>>, Option<Seq<char>>, bool);

/// Reading one more argument: the new state, or why the line is wrong.
pub open spec fn read_arg(st: Reading, a: Seq<char>) -> Result<Reading, Seq<char>> {
    let (pos, format, partition, output, raw) = st;
    if a == "--raw"@ {
        Ok((pos, format, partition, output, true))
    } else if a == "--format=json"@ || a == "--json"@ {
        Ok((pos, Format::Json, partition, output, raw))
    } else if a == "--format=text"@ {
        Ok((pos, Format::Text, partition, output, raw))
    } else if starts(a, "--format="@) {
        Err("unknown format: "@ + strip_all(a, "--format="@))
    } else if starts(a, "--output="@) {
        Ok((pos, format, partition, Some(strip_all(a, "--output="@)), raw))
    } else if starts(a, "--partition="@) {
        Ok((pos, format, Some(strip_all(a, "--partition="@)), output, raw))
    } else if a == "--version"@ || a == "-V"@ || a == "--help"@ || a == "-h"@ {
        Ok((pos.push(a), format, partition, output, raw))
    } else if starts(a, "--"@) {
        Err("unknown option: "@ + a)
    } else {
        Ok((pos.push(a), format, partition, output, raw))
    }
}

/// Reading every argument in order; the first wrong one decides.
pub open spec fn read_args(args: Seq<Seq<char>>) -> Result<Reading, Seq<char>>
    decreases args.len(),
{
    if args.len() == 0 {
        Ok((Seq::empty(), Format::Text, None, None, false))
    } else {
        match read_args(args.drop_last()) {
            Err(e) => Err(e),
            Ok(st) => read_arg(st, args.last()),
        }
    }
}

/// An optional string's characters.
pub open spec fn text_of(s: Option<String>) -> Option<Seq<char>> {
    match s {
        Some(x) => Some(x@),
        None => None,
    }
}

/// Whether `args` is the reading `st`: the first positional word is the
/// command, the rest follow it.
pub open spec fn is_reading(args: Args, st: Reading) -> bool {
    let (pos, format, partition, output, raw) = st;
    &&& args.command@ == if pos.len() > 0 { pos[0] } else { Seq::empty() }
    &&& args.positional@.map_values(|s: String| s@) == if pos.len() > 0 { pos.drop_first() } else { pos }
    &&& args.format == format
    &&& text_of(args.partition) == partition
    &&& text_of(args.output) == output
    &&& args.raw == raw
}

/// Whether the characters `s` begin with the literal `p`.
fn begins(s: &Vec<char>, p: &str) -> (r: bool)
    ensures
        r == starts(s@, p@),
{
    let pc = chars_of(p);
    if pc.len() > s.len() {
        return false;
    }
    let mut i: usize = 0;
    while i < pc.len()
        invariant
            pc@ == p@,
            pc@.len() <= s@.len(),
            i <= pc@.len(),
            forall|j: int| 0 <= j < i ==> s@[j] == pc@[j],
        decreases pc@.len() - i,
    {
        if s[i] != pc[i] {
            assert(s@.take(pc@.len() as int)[i as int] != p@[i as int]);
            return false;
        }
        i = i + 1;
    }
    assert(s@.take(pc@.len() as int) =~= p@);
    true
}

/// Characters as a string.
fn string_of(s: &Vec<char>, from: usize) -> (r: String)
    requires
        from <= s@.len(),
    ensures
        r@ == s@.skip(from as int),
{
    let mut out = String::new();
    let mut i: usize = from;
    while i < s.len()
        invariant
            from <= i <= s@.len(),
            out@ == s@.subrange(from as int, i as int),
        decreases s@.len() - i,
    {
        push_char(&mut out, s[i]);
        i = i + 1;
        assert(out@ =~= s@.subrange(from as int, i as int));
    }
    assert(s@.skip(from as int) =~= s@.subrange(from as int, i as int));
    out
}

/// `s` with every leading copy of the literal `p` removed.
fn strip_prefixes(s: &Vec<char>, p: &str) -> (r: String)
    ensures
        r@ == strip_all(s@, p@),
{
    let pc = chars_of(p);
    let mut at: usize = 0;
    if pc.len() == 0 {
        assert(s@.skip(0) =~= s@);
        return string_of(s, 0);
    }
    assert(s@.skip(0) =~= s@);
    while pc.len() <= s.len() - at && prefix_at(s, at, &pc)
        invariant
            pc@ == p@,
            pc@.len() > 0,
            at <= s.len(),
            strip_all(s@, p@) == strip_all(s@.skip(at as int), p@),
        decreases s@.len() - at,
    {
        proof {
            assert(starts(s@.skip(at as int), p@)) by {
                assert(s@.skip(at as int).take(pc@.len() as int) =~= s@.subrange(at as int, at + pc@.len()));
            }
            assert(s@.skip(at as int).skip(pc@.len() as int) =~= s@.skip(at + pc@.len()));
        }
        at = at + pc.len();
    }
    proof {
        if pc@.len() <= s@.skip(at as int).len() {
            assert(s@.skip(at as int).take(pc@.len() as int) =~= s@.subrange(at as int, at + pc@.len()));
        }
    }
    string_of(s, at)
}

/// Whether `p` sits in `s` at `at`.
fn prefix_at(s: &Vec<char>, at: usize, p: &Vec<char>) -> (r: bool)
    requires
        at + p.len() <= s.len(),
    ensures
        r == (s@.subrange(at as int, at + p@.len()) == p@),
{
    let mut i: usize = 0;
    while i < p.len()
        invariant
            at + p.len() <= s.len(),
            i <= p@.len(),
            forall|j: int| 0 <= j < i ==> s@[at + j] == p@[j],
        decreases p@.len() - i,
    {
        if s[at + i] != p[i] {
            assert(s@.subrange(at as int, at + p@.len())[i as int] != p@[i as int]);
            return false;
        }
        i = i + 1;
    }
    assert(s@.subrange(at as int, at + p@.len()) =~= p@);
    true
}


/// The words of a command line.
pub open spec fn words(raw: Seq<String>) -> Seq<Seq<char>> {
    raw.map_values(|s: String| s@)
}

/// Read the command line: options anywhere, the first other word the
/// command and the rest its operands. An unknown option or format is an
/// error, and the first one decides.
pub fn parse_args(raw: Vec<String>) -> (r: Result<Args, String>)
    ensures
        match (r, read_args(words(raw@))) {
            (Ok(a), Ok(st)) => is_reading(a, st),
            (Err(e), Err(m)) => e@ == m,
            _ => false,
        },
{
    let mut positional: Vec<String> = Vec::new();
    let mut format = Format::Text;
    let mut partition: Option<String> = None;
    let mut raw_output = false;
    let mut output: Option<String> = None;
    let mut i: usize = 0;
    while i < raw.len()
        invariant
            i <= raw@.len(),
            read_args(words(raw@.take(i as int))) matches Ok(st) && st == (
                words(positional@),
                format,
                text_of(partition),
                text_of(output),
                raw_output,
            ),
        decreases raw@.len() - i,
    {
        let ghost before = read_args(words(raw@.take(i as int)))->Ok_0;
        proof {
            assert(words(raw@.take(i + 1)).drop_last() =~= words(raw@.take(i as int)));
            assert(words(raw@.take(i + 1)).last() == raw@[i as int]@);
        }
        let arg = chars_of(raw[i].as_str());
        let ghost a = raw@[i as int]@;
        proof {
            reveal_strlit("--raw");
            reveal_strlit("--format=json");
            reveal_strlit("--json");
            reveal_strlit("--format=text");
        }
        if crate::convert::equals_literal(&arg, "--raw") {
            raw_output = true;
        } else if crate::convert::equals_literal(&arg, "--format=json") || crate::convert::equals_literal(
            &arg,
            "--json",
        ) {
            format = Format::Json;
        } else if crate::convert::equals_literal(&arg, "--format=text") {
            format = Format::Text;
        } else if begins(&arg, "--format=") {
            let mut message = String::new();
            push_str(&mut message, "unknown format: ");
            let rest = strip_prefixes(&arg, "--format=");
            push_str(&mut message, rest.as_str());
            proof {
                assert(read_args(words(raw@.take(i + 1))) == read_arg(before, a));
                lemma_err_persists(raw@, i as int + 1);
            }
            return Err(message);
        } else if begins(&arg, "--output=") {
            output = Some(strip_prefixes(&arg, "--output="));
        } else if begins(&arg, "--partition=") {
            partition = Some(strip_prefixes(&arg, "--partition="));
        } else if crate::convert::equals_literal(&arg, "--version") || crate::convert::equals_literal(
            &arg,
            "-V",
        ) || crate::convert::equals_literal(&arg, "--help") || crate::convert::equals_literal(&arg, "-h") {
            let ghost pb = positional@;
            positional.push(raw[i].clone());
            assert(words(positional@) =~= words(pb).push(a));
        } else if begins(&arg, "--") {
            let mut message = String::new();
            push_str(&mut message, "unknown option: ");
            push_str(&mut message, raw[i].as_str());
            proof {
                assert(read_args(words(raw@.take(i + 1))) == read_arg(before, a));
                lemma_err_persists(raw@, i as int + 1);
            }
            return Err(message);
        } else {
            let ghost pb = positional@;
            positional.push(raw[i].clone());
            assert(words(positional@) =~= words(pb).push(a));
        }
        i = i + 1;
    }
    assert(raw@.take(i as int) =~= raw@);
    let command = if positional.len() == 0 {
        String::new()
    } else {
        let ghost pb = positional@;
        let c = positional.remove(0);
        assert(words(positional@) =~= words(pb).drop_first());
        c
    };
    Ok(Args { command, positional, format, partition, raw: raw_output, output })
}

/// Once a prefix of the line is wrong, the whole line is, with the same
/// complaint.
proof fn lemma_err_persists(raw: Seq<String>, k: int)
    requires
        0 <= k <= raw.len(),
        read_args(words(raw.take(k))) is Err,
    ensures
        read_args(words(raw)) == read_args(words(raw.take(k))),
    decreases raw.len() - k,
{
    if k < raw.len() {
        assert(words(raw.take(k + 1)).drop_last() =~= words(raw.take(k)));
        lemma_err_persists(raw, k + 1);
    } else {
        assert(raw.take(k) =~= raw);
    }
}


/// `n + 1`, stopping at the largest `usize`.
pub open spec fn next_after(n: usize) -> usize {
    if n == usize::MAX {
        n
    } else {
        (n + 1) as usize
    }
}

/// Track numbers grouped into runs of consecutive numbers, each as its first
/// and last.
pub open spec fn runs(t: Seq<usize>) -> Seq<(usize, usize)>
    decreases t.len(),
{
    if t.len() == 0 {
        Seq::empty()
    } else {
        let before = runs(t.drop_last());
        let x = t.last();
        if before.len() > 0 && next_after(before.last().1) == x {
            before.drop_last().push((before.last().0, x))
        } else {
            before.push((x, x))
        }
    }
}

/// How one run reads: a single number, or `first-last`.
pub open spec fn run_text(r: (usize, usize)) -> Seq<char> {
    if r.0 == r.1 {
        decimal(r.0 as nat)
    } else {
        decimal(r.0 as nat) + "-"@ + decimal(r.1 as nat)
    }
}

/// Runs joined with ", ".
pub open spec fn runs_text(rs: Seq<(usize, usize)>) -> Seq<char>
    decreases rs.len(),
{
    if rs.len() == 0 {
        Seq::empty()
    } else if rs.len() == 1 {
        run_text(rs[0])
    } else {
        runs_text(rs.drop_last()) + ", "@ + run_text(rs.last())
    }
}

/// Track numbers as ranges, so a long run reads as one.
pub fn summarise(tracks: &Vec<usize>) -> (r: String)
    ensures
        r@ == runs_text(runs(tracks@)),
{
    // The runs first, then their text.
    let mut found: Vec<(usize, usize)> = Vec::new();
    let mut i: usize = 0;
    while i < tracks.len()
        invariant
            i <= tracks@.len(),
            found@ == runs(tracks@.take(i as int)),
        decreases tracks@.len() - i,
    {
        let x = tracks[i];
        assert(tracks@.take(i + 1).drop_last() =~= tracks@.take(i as int));
        let n = found.len();
        if n > 0 && (if found[n - 1].1 == usize::MAX { found[n - 1].1 } else { found[n - 1].1 + 1 }) == x {
            let start = found[n - 1].0;
            found.set(n - 1, (start, x));
            assert(found@ =~= runs(tracks@.take(i as int)).drop_last().push((start, x)));
        } else {
            found.push((x, x));
        }
        i = i + 1;
    }
    assert(tracks@.take(i as int) =~= tracks@);
    let mut out = String::new();
    let mut k: usize = 0;
    while k < found.len()
        invariant
            k <= found@.len(),
            out@ == runs_text(found@.take(k as int)),
        decreases found@.len() - k,
    {
        let (start, end) = found[k];
        let ghost before = out@;
        if k > 0 {
            push_str(&mut out, ", ");
        }
        push_decimal(&mut out, start as u64);
        if start != end {
            push_str(&mut out, "-");
            push_decimal(&mut out, end as u64);
        }
        assert(found@.take(k + 1).drop_last() =~= found@.take(k as int));
        k = k + 1;
        if k == 1 {
            assert(out@ =~= run_text(found@[0]));
        } else {
            assert(out@ =~= before + ", "@ + run_text(found@[k - 1]));
        }
    }
    assert(found@.take(k as int) =~= found@);
    out
}

/// What `check` exits with, from the worst finding and whether anything was
/// examined: an error is data at risk, a warning is a fault, and a device
/// with no volume examined says so.
pub open spec fn check_exit(worst: Option<crate::health::Severity>, examined: bool) -> u8 {
    match worst {
        Some(crate::health::Severity::Error) => EXIT_DATA_AT_RISK,
        Some(crate::health::Severity::Warning) => EXIT_FAULTS,
        _ => if !examined {
            EXIT_NO_VOLUME
        } else {
            EXIT_CLEAN
        },
    }
}

/// What `check` exits with.
pub fn check_exit_code(worst: Option<crate::health::Severity>, examined: bool) -> (r: u8)
    ensures
        r == check_exit(worst, examined),
{
    match worst {
        Some(crate::health::Severity::Error) => EXIT_DATA_AT_RISK,
        Some(crate::health::Severity::Warning) => EXIT_FAULTS,
        _ => if !examined {
            EXIT_NO_VOLUME
        } else {
            EXIT_CLEAN
        },
    }
}


/// How a character is written inside a quoted name.
pub open spec fn quoted_char(c: char) -> Seq<char> {
    if c == '"' {
        "\\\""@
    } else if c == '\\' {
        "\\\\"@
    } else if c == '\n' {
        "\\n"@
    } else if c == '\r' {
        "\\r"@
    } else if c == '\t' {
        "\\t"@
    } else if c == '\0' {
        "\\0"@
    } else if (c as u32) < 0x20 || (0x7F <= (c as u32) && (c as u32) <= 0x9F) || (c as u32) == 0xA0 || (c as u32)
        == 0xAD {
        "\\u{"@ + crate::json::hex(c as u32 as nat) + "}"@
    } else {
        seq![c]
    }
}

/// A name in double quotes, with quotes, backslashes, control characters and
/// the invisible no-break space and soft hyphen escaped, so that the line
/// stays one line and every character in it can be seen.
pub open spec fn quoted(s: Seq<char>) -> Seq<char> {
    seq!['"'] + crate::unpack::written(s, |c: char| quoted_char(c)) + seq!['"']
}

/// A name in double quotes.
fn quote(s: &str) -> (r: String)
    ensures
        r@ == quoted(s@),
{
    let chars = chars_of(s);
    let mut out = String::new();
    push_char(&mut out, '"');
    let mut i: usize = 0;
    while i < chars.len()
        invariant
            i <= chars@.len(),
            chars@ == s@,
            out@ == seq!['"'] + crate::unpack::written(chars@.take(i as int), |c: char| quoted_char(c)),
        decreases chars@.len() - i,
    {
        let c = chars[i];
        let code = c as u32;
        let ghost before = out@;
        if c == '"' {
            push_str(&mut out, "\\\"");
        } else if c == '\\' {
            push_str(&mut out, "\\\\");
        } else if c == '\n' {
            push_str(&mut out, "\\n");
        } else if c == '\r' {
            push_str(&mut out, "\\r");
        } else if c == '\t' {
            push_str(&mut out, "\\t");
        } else if c == '\0' {
            push_str(&mut out, "\\0");
        } else if code < 0x20 || (0x7F <= code && code <= 0x9F) || code == 0xA0 || code == 0xAD {
            push_str(&mut out, "\\u{");
            crate::json::push_hex(&mut out, code);
            push_str(&mut out, "}");
        } else {
            push_char(&mut out, c);
        }
        assert(out@ =~= before + quoted_char(c));
        assert(chars@.take(i + 1).drop_last() =~= chars@.take(i as int));
        i = i + 1;
    }
    assert(chars@.take(i as int) =~= chars@);
    push_char(&mut out, '"');
    assert(out@ =~= quoted(s@));
    out
}

/// The line of a health report about the volume and what it holds.
pub open spec fn volume_lines(examined: Option<crate::health::Examined>, h: crate::health::Health) -> Seq<Seq<char>> {
    match examined {
        Some(e) => seq![
            match e.partition {
                Some(p) => "  volume      "@ + quoted(e.volume@) + " on partition "@ + p@ + "  (rootblock "@
                    + decimal(e.rootblock as nat) + ")"@,
                None => "  volume      "@ + quoted(e.volume@) + "  (rootblock "@ + decimal(e.rootblock as nat) + ")"@,
            },
            "  contents    "@ + decimal(h.files as nat) + " files, "@ + decimal(h.directories as nat)
                + " directories, "@ + decimal(h.bytes_recovered as nat) + " bytes recovered"@,
        ],
        None => seq!["  volume      none"@],
    }
}

/// The lines of a health report about the directory caches.
pub open spec fn dircache_lines(d: Option<crate::health::DirCacheHealth>) -> Seq<Seq<char>> {
    match d {
        Some(d) => seq![
            "  dircache"@,
            "    cached      "@ + decimal(d.records as nat) + " records in "@ + decimal(d.blocks as nat)
                + " blocks across "@ + decimal(d.directories as nat) + " directories"@,
            "    cross-check "@ + if d.disagreements == 0 {
                "agrees with the directory entries"@
            } else {
                decimal(d.disagreements as nat) + " DISAGREEMENTS with the directory entries"@
            },
        ],
        None => Seq::empty(),
    }
}

/// The lines of a health report about the bitmap.
pub open spec fn bitmap_lines(b: Option<crate::health::BitmapHealth>) -> Seq<Seq<char>> {
    match b {
        Some(b) => seq![
            "  bitmap"@,
            "    flag        "@ + if b.flagged_valid {
                "valid"@
            } else {
                "CLEAR \u{2014} may be stale"@
            },
            "    usage       "@ + decimal(b.marked_used as nat) + " blocks marked used, "@ + decimal(
                b.actually_used as nat,
            ) + " reachable, "@ + decimal(crate::health::fill_percent(b.marked_used as nat, b.covered as nat))
                + "% full"@,
        ] + (if b.orphaned > 0 {
            seq!["    orphaned    "@ + decimal(b.orphaned as nat) + " blocks"@]
        } else {
            Seq::empty()
        }) + (if b.referenced_but_free > 0 {
            seq!["    AT RISK     "@ + decimal(b.referenced_but_free as nat) + " blocks in use but marked free"@]
        } else {
            Seq::empty()
        }),
        None => Seq::empty(),
    }
}

/// How one finding reads in a report.
pub open spec fn finding_line(f: crate::health::Finding) -> Seq<char> {
    "    "@ + match f.severity {
        crate::health::Severity::Error => "!!"@,
        crate::health::Severity::Warning => " !"@,
        crate::health::Severity::Info => "  "@,
    } + " ["@ + f.code@ + "] "@ + f.message@ + match f.block {
        Some(b) => " [block "@ + decimal(b as nat) + "]"@,
        None => Seq::empty(),
    }
}

/// The lines of a health report about its findings.
pub open spec fn findings_lines(h: crate::health::Health) -> Seq<Seq<char>> {
    let n = h.findings@.len() as int;
    if n == 0 {
        seq!["  findings    none"@]
    } else {
        seq![
            "  findings    "@ + decimal(crate::health::count_severity(h.findings@, crate::health::Severity::Error, n))
                + " error, "@ + decimal(
                crate::health::count_severity(h.findings@, crate::health::Severity::Warning, n),
            ) + " warning, "@ + decimal(
                crate::health::count_severity(h.findings@, crate::health::Severity::Info, n),
            ) + " info"@,
        ] + h.findings@.map_values(|f: crate::health::Finding| finding_line(f))
    }
}

/// A fixed text and a number.
fn labelled(head: &str, n: u64) -> (r: String)
    ensures
        r@ == head@ + decimal(n as nat),
{
    let mut s = String::new();
    push_str(&mut s, head);
    push_decimal(&mut s, n);
    s
}

/// A health report for people, line by line.
pub open spec fn health_report(
    path: Seq<char>,
    container: Seq<char>,
    examined: Option<crate::health::Examined>,
    dircache: Option<crate::health::DirCacheHealth>,
    h: crate::health::Health,
) -> Seq<Seq<char>> {
    seq![path, "  container   "@ + container] + volume_lines(examined, h) + dircache_lines(dircache)
        + bitmap_lines(h.bitmap) + findings_lines(h)
}

/// Append one line.
fn line(lines: &mut Vec<String>, l: String)
    ensures
        final(lines)@.map_values(|s: String| s@) == old(lines)@.map_values(|s: String| s@).push(l@),
{
    let ghost before = lines@;
    lines.push(l);
    assert(lines@.map_values(|s: String| s@) =~= before.map_values(|s: String| s@).push(l@));
}

/// A fixed text and a number and a fixed text.
fn with_number(head: &str, n: u64, tail: &str) -> (r: String)
    ensures
        r@ == head@ + decimal(n as nat) + tail@,
{
    let mut s = String::new();
    push_str(&mut s, head);
    push_decimal(&mut s, n);
    push_str(&mut s, tail);
    assert(s@ =~= head@ + decimal(n as nat) + tail@);
    s
}

/// The volume part of a health report.
fn push_volume_lines(lines: &mut Vec<String>, examined: &Option<crate::health::Examined>, h: &crate::health::Health)
    ensures
        final(lines)@.map_values(|s: String| s@) == old(lines)@.map_values(|s: String| s@) + volume_lines(
            *examined,
            *h,
        ),
{
    let ghost top = lines@.map_values(|s: String| s@);
    match examined {
        Some(e) => {
            let mut v = String::new();
            push_str(&mut v, "  volume      ");
            let q = quote(e.volume.as_str());
            push_str(&mut v, q.as_str());
            match &e.partition {
                Some(p) => {
                    push_str(&mut v, " on partition ");
                    push_str(&mut v, p.as_str());
                },
                None => {},
            }
            push_str(&mut v, "  (rootblock ");
            push_decimal(&mut v, e.rootblock);
            push_str(&mut v, ")");
            line(lines, v);
            let mut t = with_number("  contents    ", h.files as u64, " files, ");
            push_decimal(&mut t, h.directories as u64);
            push_str(&mut t, " directories, ");
            push_decimal(&mut t, h.bytes_recovered);
            push_str(&mut t, " bytes recovered");
            line(lines, t);
        },
        None => {
            line(lines, "  volume      none".to_owned());
        },
    }
    assert(lines@.map_values(|s: String| s@) =~= top + volume_lines(*examined, *h));
}

/// The directory-cache part of a health report.
fn push_dircache_lines(lines: &mut Vec<String>, dircache: &Option<crate::health::DirCacheHealth>)
    ensures
        final(lines)@.map_values(|s: String| s@) == old(lines)@.map_values(|s: String| s@) + dircache_lines(
            *dircache,
        ),
{
    let ghost top = lines@.map_values(|s: String| s@);
    match dircache {
        Some(d) => {
            line(lines, "  dircache".to_owned());
            let mut t = with_number("    cached      ", d.records as u64, " records in ");
            push_decimal(&mut t, d.blocks as u64);
            push_str(&mut t, " blocks across ");
            push_decimal(&mut t, d.directories as u64);
            push_str(&mut t, " directories");
            assert(t@ =~= "    cached      "@ + decimal(d.records as nat) + " records in "@ + decimal(d.blocks as nat)
                + " blocks across "@ + decimal(d.directories as nat) + " directories"@);
            line(lines, t);
            let mut c = String::new();
            push_str(&mut c, "    cross-check ");
            if d.disagreements == 0 {
                push_str(&mut c, "agrees with the directory entries");
            } else {
                push_decimal(&mut c, d.disagreements as u64);
                push_str(&mut c, " DISAGREEMENTS with the directory entries");
            }
            assert(c@ =~= dircache_lines(*dircache)[2]);
            line(lines, c);
        },
        None => {},
    }
    assert(lines@.map_values(|s: String| s@) =~= top + dircache_lines(*dircache));
}

/// The bitmap part of a health report.
fn push_bitmap_lines(lines: &mut Vec<String>, bitmap: &Option<crate::health::BitmapHealth>)
    ensures
        final(lines)@.map_values(|s: String| s@) == old(lines)@.map_values(|s: String| s@) + bitmap_lines(
            *bitmap,
        ),
{
    let ghost top = lines@.map_values(|s: String| s@);
    match bitmap {
        Some(b) => {
            line(lines, "  bitmap".to_owned());
            let mut f = String::new();
            push_str(&mut f, "    flag        ");
            if b.flagged_valid {
                push_str(&mut f, "valid");
            } else {
                push_str(&mut f, "CLEAR \u{2014} may be stale");
            }
            line(lines, f);
            let marked = b.marked_used as u64;
            let scaled = if marked > u64::MAX / 100 {
                u64::MAX
            } else {
                marked * 100
            };
            let percent = if b.covered == 0 {
                0
            } else {
                scaled / (b.covered as u64)
            };
            let mut t = with_number("    usage       ", marked, " blocks marked used, ");
            push_decimal(&mut t, b.actually_used as u64);
            push_str(&mut t, " reachable, ");
            push_decimal(&mut t, percent);
            push_str(&mut t, "% full");
            line(lines, t);
            if b.orphaned > 0 {
                line(lines, with_number("    orphaned    ", b.orphaned as u64, " blocks"));
            }
            if b.referenced_but_free > 0 {
                line(
                    lines,
                    with_number("    AT RISK     ", b.referenced_but_free as u64, " blocks in use but marked free"),
                );
            }
        },
        None => {},
    }
    assert(lines@.map_values(|s: String| s@) =~= top + bitmap_lines(*bitmap));
}

/// The findings part of a health report.
fn push_findings_lines(lines: &mut Vec<String>, h: &crate::health::Health)
    ensures
        final(lines)@.map_values(|s: String| s@) == old(lines)@.map_values(|s: String| s@) + findings_lines(*h),
{
    let ghost top = lines@.map_values(|s: String| s@);
    if h.findings.len() == 0 {
        line(lines, "  findings    none".to_owned());
    } else {
        let (info, warning, error) = h.counts();
        let mut t = with_number("  findings    ", error as u64, " error, ");
        push_decimal(&mut t, warning as u64);
        push_str(&mut t, " warning, ");
        push_decimal(&mut t, info as u64);
        push_str(&mut t, " info");
        line(lines, t);
        let ghost head = lines@.map_values(|s: String| s@);
        let mut i: usize = 0;
        while i < h.findings.len()
            invariant
                i <= h.findings@.len(),
                lines@.map_values(|s: String| s@) == head + h.findings@.take(i as int).map_values(
                    |f: crate::health::Finding| finding_line(f),
                ),
            decreases h.findings@.len() - i,
        {
            let f = &h.findings[i];
            let mut t = String::new();
            push_str(&mut t, "    ");
            match f.severity {
                crate::health::Severity::Error => push_str(&mut t, "!!"),
                crate::health::Severity::Warning => push_str(&mut t, " !"),
                crate::health::Severity::Info => push_str(&mut t, "  "),
            }
            push_str(&mut t, " [");
            push_str(&mut t, f.code);
            push_str(&mut t, "] ");
            push_str(&mut t, f.message.as_str());
            match f.block {
                Some(b) => {
                    push_str(&mut t, " [block ");
                    push_decimal(&mut t, b as u64);
                    push_str(&mut t, "]");
                },
                None => {},
            }
            assert(t@ =~= finding_line(*f));
            line(lines, t);
            i = i + 1;
            assert(h.findings@.take(i as int).map_values(|f: crate::health::Finding| finding_line(f))
                =~= h.findings@.take(i - 1).map_values(|f: crate::health::Finding| finding_line(f)).push(
                finding_line(h.findings@[i - 1]),
            ));
        }
        assert(h.findings@.take(i as int) =~= h.findings@);
    }
    assert(lines@.map_values(|s: String| s@) =~= top + findings_lines(*h));
}

/// A health report for people, line by line. The layout may change; do not
/// parse it: the JSON form is the stable one.
pub fn report_health(
    path: &str,
    container: &str,
    examined: &Option<crate::health::Examined>,
    dircache: &Option<crate::health::DirCacheHealth>,
    h: &crate::health::Health,
) -> (r: Vec<String>)
    ensures
        r@.map_values(|s: String| s@) == health_report(path@, container@, *examined, *dircache, *h),
{
    let mut lines: Vec<String> = Vec::new();
    line(&mut lines, path.to_owned());
    let mut c = String::new();
    push_str(&mut c, "  container   ");
    push_str(&mut c, container);
    line(&mut lines, c);
    push_volume_lines(&mut lines, examined, h);
    push_dircache_lines(&mut lines, dircache);
    push_bitmap_lines(&mut lines, &h.bitmap);
    push_findings_lines(&mut lines, h);
    assert(lines@.map_values(|s: String| s@) =~= health_report(path@, container@, *examined, *dircache, *h));
    lines
}


/// Spaces.
pub open spec fn spaces(n: nat) -> Seq<char> {
    Seq::new(n, |_i: int| ' ')
}

/// `s` padded with spaces on the right to at least `w` characters.
pub open spec fn pad_right(s: Seq<char>, w: nat) -> Seq<char> {
    if s.len() < w {
        s + spaces((w - s.len()) as nat)
    } else {
        s
    }
}

/// `s` padded with spaces on the left to at least `w` characters.
pub open spec fn pad_left(s: Seq<char>, w: nat) -> Seq<char> {
    if s.len() < w {
        spaces((w - s.len()) as nat) + s
    } else {
        s
    }
}

/// Append `s`, padded with spaces on the right to at least `w` characters.
fn push_padded_right(out: &mut String, s: &str, w: usize)
    ensures
        final(out)@ == old(out)@ + pad_right(s@, w as nat),
{
    let ghost start = out@;
    let chars = chars_of(s);
    push_str(out, s);
    let mut k: usize = chars.len();
    while k < w
        invariant
            chars@ == s@,
            chars@.len() <= k,
            k <= w || k == chars@.len(),
            out@ == start + s@ + spaces((k - chars@.len()) as nat),
        decreases w - k,
    {
        push_char(out, ' ');
        k = k + 1;
        assert(out@ =~= start + s@ + spaces((k - chars@.len()) as nat));
    }
    assert(out@ =~= start + pad_right(s@, w as nat));
}

/// Append `n` in decimal, padded with spaces on the left to at least `w`
/// characters.
fn push_number_padded_left(out: &mut String, n: u64, w: usize)
    ensures
        final(out)@ == old(out)@ + pad_left(decimal(n as nat), w as nat),
{
    let ghost start = out@;
    let mut digits = String::new();
    push_decimal(&mut digits, n);
    let width = chars_of(digits.as_str()).len();
    let mut k: usize = width;
    while k < w
        invariant
            width == decimal(n as nat).len(),
            width <= k,
            k <= w || k == width,
            out@ == start + spaces((k - width) as nat),
        decreases w - k,
    {
        push_char(out, ' ');
        k = k + 1;
        assert(out@ =~= start + spaces((k - width) as nat));
    }
    push_str(out, digits.as_str());
    assert(out@ =~= start + pad_left(decimal(n as nat), w as nat));
}

/// The track-table part of a text report.
pub open spec fn track_lines(t: Option<crate::inspect::TrackTable>) -> Seq<Seq<char>> {
    match t {
        None => Seq::empty(),
        Some(t) => seq![
            "  tracks      "@ + decimal(t.declared as nat) + " declared"@,
            "    sectors     "@ + decimal(t.sectors as nat) + " ordinary AmigaDOS tracks"@,
            "    raw MFM     "@ + decimal(t.raw_mfm as nat) + " tracks"@,
        ] + (if t.empty > 0 {
            seq!["    empty       "@ + decimal(t.empty as nat) + " tracks (unformatted or not captured)"@]
        } else {
            Seq::empty()
        }) + (if t.raw_mfm > 0 {
            seq![
                "    decoded     "@ + decimal(t.standard_tracks as nat) + " of "@ + decimal(t.raw_mfm as nat)
                    + " raw tracks are ordinary, "@ + decimal(t.sound_sectors as nat) + " sound sectors"@,
            ] + (if t.illegally_encoded_sectors > 0 {
                seq![
                    "    encoding    "@ + decimal(t.illegally_encoded_sectors as nat)
                        + " sectors are not legal MFM"@,
                ]
            } else {
                Seq::empty()
            }) + (if t.stray_syncs > 0 {
                seq!["    protection  "@ + decimal(t.stray_syncs as nat) + " sync marks lead to no sector"@]
            } else {
                Seq::empty()
            })
        } else {
            Seq::empty()
        }) + (if t.present < t.declared {
            seq![
                "    present     "@ + decimal(t.present as nat) + " of "@ + decimal(t.declared as nat)
                    + " \u{2014} the file does not reach the rest"@,
            ]
        } else {
            Seq::empty()
        }) + t.faults@.take(if t.faults@.len() < 4 { t.faults@.len() as int } else { 4 }).map_values(
            |f: String| "    ! "@ + f@,
        ),
    }
}

/// The track-table part of a text report.
#[verifier::rlimit(50)]
fn push_track_lines(lines: &mut Vec<String>, t: &Option<crate::inspect::TrackTable>)
    ensures
        final(lines)@.map_values(|s: String| s@) == old(lines)@.map_values(|s: String| s@) + track_lines(*t),
{
    let ghost top = lines@.map_values(|s: String| s@);
    match t {
        None => {
            assert(lines@.map_values(|s: String| s@) =~= top + track_lines(*t));
        },
        Some(t) => {
            line(lines, with_number("  tracks      ", t.declared as u64, " declared"));
            line(lines, with_number("    sectors     ", t.sectors as u64, " ordinary AmigaDOS tracks"));
            line(lines, with_number("    raw MFM     ", t.raw_mfm as u64, " tracks"));
            if t.empty > 0 {
                line(lines, with_number("    empty       ", t.empty as u64, " tracks (unformatted or not captured)"));
            }
            if t.raw_mfm > 0 {
                let mut d = with_number("    decoded     ", t.standard_tracks as u64, " of ");
                push_decimal(&mut d, t.raw_mfm as u64);
                push_str(&mut d, " raw tracks are ordinary, ");
                push_decimal(&mut d, t.sound_sectors as u64);
                push_str(&mut d, " sound sectors");
                line(lines, d);
                if t.illegally_encoded_sectors > 0 {
                    line(
                        lines,
                        with_number("    encoding    ", t.illegally_encoded_sectors as u64, " sectors are not legal MFM"),
                    );
                }
                if t.stray_syncs > 0 {
                    line(lines, with_number("    protection  ", t.stray_syncs as u64, " sync marks lead to no sector"));
                }
            }
            if t.present < t.declared {
                let mut p = with_number("    present     ", t.present as u64, " of ");
                push_decimal(&mut p, t.declared as u64);
                push_str(&mut p, " \u{2014} the file does not reach the rest");
                line(lines, p);
            }
            let ghost before_faults = lines@.map_values(|s: String| s@);
            let shown: usize = if t.faults.len() < 4 { t.faults.len() } else { 4 };
            let mut k: usize = 0;
            while k < shown
                invariant
                    shown <= t.faults@.len(),
                    k <= shown,
                    lines@.map_values(|s: String| s@) == before_faults + t.faults@.take(k as int).map_values(
                        |f: String| "    ! "@ + f@,
                    ),
                decreases shown - k,
            {
                let mut f = String::new();
                push_str(&mut f, "    ! ");
                push_str(&mut f, t.faults[k].as_str());
                line(lines, f);
                k = k + 1;
                assert(t.faults@.take(k as int).map_values(|f: String| "    ! "@ + f@) =~= t.faults@.take(
                    k - 1,
                ).map_values(|f: String| "    ! "@ + f@).push("    ! "@ + t.faults@[k - 1]@));
            }
            assert(lines@.map_values(|s: String| s@) =~= top + track_lines(Some(*t)));
        },
    }
}


/// The assembly part of a text report: said before the volume, because
/// anyone reading the listing needs to know it is a reconstruction.
pub open spec fn assembly_lines(a: Option<crate::inspect::AssemblyInfo>) -> Seq<Seq<char>> {
    match a {
        None => Seq::empty(),
        Some(a) => seq![
            "  assembled"@,
            "    recovered   "@ + decimal(a.sectors_placed as nat) + " of "@ + decimal(a.sectors_total as nat)
                + " sectors ("@ + decimal(crate::inspect::percent(a.sectors_placed as nat, a.sectors_total as nat))
                + "% of a disk)"@,
            "    from        "@ + decimal(a.from_sector_tracks as nat) + " sector tracks, "@ + decimal(
                a.from_raw_tracks as nat,
            ) + " decoded from raw MFM"@,
        ] + if a.sectors_placed < a.sectors_total {
            seq!["    note        the volume below is reconstructed; missing"@, "                sectors read as zeros"@]
        } else {
            Seq::empty()
        },
    }
}

/// The assembly part of a text report.
fn push_assembly_lines(lines: &mut Vec<String>, a: &Option<crate::inspect::AssemblyInfo>)
    ensures
        final(lines)@.map_values(|s: String| s@) == old(lines)@.map_values(|s: String| s@) + assembly_lines(*a),
{
    let ghost top = lines@.map_values(|s: String| s@);
    match a {
        None => {},
        Some(a) => {
            line(lines, "  assembled".to_owned());
            let mut r = with_number("    recovered   ", a.sectors_placed as u64, " of ");
            push_decimal(&mut r, a.sectors_total as u64);
            push_str(&mut r, " sectors (");
            push_decimal(&mut r, a.percent_complete() as u64);
            push_str(&mut r, "% of a disk)");
            line(lines, r);
            let mut f = with_number("    from        ", a.from_sector_tracks as u64, " sector tracks, ");
            push_decimal(&mut f, a.from_raw_tracks as u64);
            push_str(&mut f, " decoded from raw MFM");
            line(lines, f);
            if a.sectors_placed < a.sectors_total {
                line(lines, "    note        the volume below is reconstructed; missing".to_owned());
                line(lines, "                sectors read as zeros".to_owned());
            }
        },
    }
    assert(lines@.map_values(|s: String| s@) =~= top + assembly_lines(*a));
}

/// Whether a character is white space.
pub open spec fn is_white(c: char) -> bool {
    let n = c as u32;
    (0x09 <= n <= 0x0D) || n == 0x20 || n == 0x85 || n == 0xA0 || n == 0x1680 || (0x2000 <= n <= 0x200A)
        || n == 0x2028 || n == 0x2029 || n == 0x202F || n == 0x205F || n == 0x3000
}

/// `s` without the white space at its end.
pub open spec fn trim_end(s: Seq<char>) -> Seq<char>
    decreases s.len(),
{
    if s.len() > 0 && is_white(s.last()) {
        trim_end(s.drop_last())
    } else {
        s
    }
}

/// Scanning text: the lines finished so far, and the one in progress.
pub open spec fn line_state(s: Seq<char>) -> (Seq<Seq<char>>, Seq<char>)
    decreases s.len(),
{
    if s.len() == 0 {
        (Seq::empty(), Seq::empty())
    } else {
        let (done, cur) = line_state(s.drop_last());
        if s.last() == '\n' {
            (done.push(cur), Seq::empty())
        } else {
            (done, cur.push(s.last()))
        }
    }
}

/// The lines of a text: split at each newline, with no empty line after a
/// final newline.
pub open spec fn text_lines(s: Seq<char>) -> Seq<Seq<char>> {
    let (done, cur) = line_state(s);
    if cur.len() > 0 {
        done.push(cur)
    } else {
        done
    }
}

/// Whether a character is white space.
fn white(c: char) -> (r: bool)
    ensures
        r == is_white(c),
{
    let code = c as u32;
    (0x09 <= code && code <= 0x0D) || code == 0x20 || code == 0x85 || code == 0xA0 || code == 0x1680 || (0x2000
        <= code && code <= 0x200A) || code == 0x2028 || code == 0x2029 || code == 0x202F || code == 0x205F || code
        == 0x3000
}

/// The characters of `s` without the white space at their end.
fn trimmed_end(s: &Vec<char>) -> (r: String)
    ensures
        r@ == trim_end(s@),
{
    let mut n: usize = s.len();
    assert(s@.take(n as int) =~= s@);
    while n > 0 && white(s[n - 1])
        invariant
            n <= s@.len(),
            trim_end(s@) == trim_end(s@.take(n as int)),
        decreases n,
    {
        assert(s@.take(n as int).drop_last() =~= s@.take(n - 1));
        n = n - 1;
    }
    assert(trim_end(s@.take(n as int)) == s@.take(n as int));
    let mut out = String::new();
    let mut i: usize = 0;
    while i < n
        invariant
            n <= s@.len(),
            i <= n,
            trim_end(s@) == s@.take(n as int),
            out@ == s@.take(i as int),
        decreases n - i,
    {
        push_char(&mut out, s[i]);
        i = i + 1;
        assert(out@ =~= s@.take(i as int));
    }
    out
}


/// How one line of a description reads: indented, its layout kept, the
/// white space at its end dropped.
pub open spec fn description_line(l: Seq<char>) -> Seq<char> {
    "    | "@ + trim_end(l)
}

/// The description part of a text report: the disk's own words, indented
/// rather than quoted, because the layout is the content.
pub open spec fn description_lines(d: Option<crate::inspect::Description>) -> Seq<Seq<char>> {
    match d {
        None => Seq::empty(),
        Some(d) => seq!["  description "@ + d.file@ + " ("@ + decimal(d.declared_size as nat) + " bytes)"@]
            + text_lines(d.text@).map_values(|l: Seq<char>| description_line(l)) + if d.truncated {
            seq!["    | ... (truncated)"@]
        } else {
            Seq::empty()
        },
    }
}

/// One line of a description.
fn push_description_line(lines: &mut Vec<String>, cur: &Vec<char>)
    ensures
        final(lines)@.map_values(|s: String| s@) == old(lines)@.map_values(|s: String| s@).push(
            description_line(cur@),
        ),
{
    let mut l = String::new();
    push_str(&mut l, "    | ");
    let t = trimmed_end(cur);
    push_str(&mut l, t.as_str());
    line(lines, l);
}

/// The description part of a text report.
fn push_description_lines(lines: &mut Vec<String>, d: &Option<crate::inspect::Description>)
    ensures
        final(lines)@.map_values(|s: String| s@) == old(lines)@.map_values(|s: String| s@) + description_lines(
            *d,
        ),
{
    let ghost top = lines@.map_values(|s: String| s@);
    match d {
        None => {},
        Some(d) => {
            let mut head = String::new();
            push_str(&mut head, "  description ");
            push_str(&mut head, d.file.as_str());
            push_str(&mut head, " (");
            push_decimal(&mut head, d.declared_size as u64);
            push_str(&mut head, " bytes)");
            line(lines, head);
            let ghost start = lines@.map_values(|s: String| s@);
            let text = chars_of(d.text.as_str());
            let mut cur: Vec<char> = Vec::new();
            let mut i: usize = 0;
            while i < text.len()
                invariant
                    i <= text@.len(),
                    text@ == d.text@,
                    cur@ == line_state(text@.take(i as int)).1,
                    lines@.map_values(|s: String| s@) == start + line_state(text@.take(i as int)).0.map_values(
                        |l: Seq<char>| description_line(l),
                    ),
                decreases text@.len() - i,
            {
                let c = text[i];
                let ghost before = lines@.map_values(|s: String| s@);
                assert(text@.take(i + 1).drop_last() =~= text@.take(i as int));
                if c == '\n' {
                    push_description_line(lines, &cur);
                    cur = Vec::new();
                    assert(line_state(text@.take(i + 1)).0.map_values(|l: Seq<char>| description_line(l))
                        =~= line_state(text@.take(i as int)).0.map_values(|l: Seq<char>| description_line(l)).push(
                        description_line(line_state(text@.take(i as int)).1),
                    ));
                } else {
                    cur.push(c);
                }
                i = i + 1;
            }
            assert(text@.take(i as int) =~= text@);
            if cur.len() > 0 {
                push_description_line(lines, &cur);
            }
            assert(lines@.map_values(|s: String| s@) =~= start + text_lines(d.text@).map_values(
                |l: Seq<char>| description_line(l),
            ));
            if d.truncated {
                line(lines, "    | ... (truncated)".to_owned());
            }
        },
    }
    assert(lines@.map_values(|s: String| s@) =~= top + description_lines(*d));
}

/// How one run of boot text reads: its offset, right-aligned, and the text
/// quoted.
pub open spec fn boot_text_line(t: crate::inspect::BootText) -> Seq<char> {
    "    "@ + pad_left(decimal(t.offset as nat), 4) + "  "@ + quoted(t.text@)
}

/// The boot-text part of a text report: shown as found, not interpreted.
pub open spec fn boot_text_lines(ts: Seq<crate::inspect::BootText>) -> Seq<Seq<char>> {
    if ts.len() == 0 {
        Seq::empty()
    } else {
        seq!["  boot text"@] + ts.map_values(|t: crate::inspect::BootText| boot_text_line(t))
    }
}

/// The boot-text part of a text report.
fn push_boot_text_lines(lines: &mut Vec<String>, ts: &Vec<crate::inspect::BootText>)
    ensures
        final(lines)@.map_values(|s: String| s@) == old(lines)@.map_values(|s: String| s@) + boot_text_lines(
            ts@,
        ),
{
    let ghost top = lines@.map_values(|s: String| s@);
    if ts.len() > 0 {
        line(lines, "  boot text".to_owned());
        let ghost start = lines@.map_values(|s: String| s@);
        let mut i: usize = 0;
        while i < ts.len()
            invariant
                i <= ts@.len(),
                lines@.map_values(|s: String| s@) == start + ts@.take(i as int).map_values(
                    |t: crate::inspect::BootText| boot_text_line(t),
                ),
            decreases ts@.len() - i,
        {
            let mut l = String::new();
            push_str(&mut l, "    ");
            push_number_padded_left(&mut l, ts[i].offset as u64, 4);
            push_str(&mut l, "  ");
            let q = quote(ts[i].text.as_str());
            push_str(&mut l, q.as_str());
            assert(l@ =~= boot_text_line(ts@[i as int]));
            line(lines, l);
            i = i + 1;
            assert(ts@.take(i as int).map_values(|t: crate::inspect::BootText| boot_text_line(t)) =~= ts@.take(
                i - 1,
            ).map_values(|t: crate::inspect::BootText| boot_text_line(t)).push(boot_text_line(ts@[i - 1])));
        }
        assert(ts@.take(i as int) =~= ts@);
    }
    assert(lines@.map_values(|s: String| s@) =~= top + boot_text_lines(ts@));
}


/// The drive's identity: vendor, product and revision, the empty ones left
/// out, joined with spaces.
pub open spec fn identity(parts: Seq<Seq<char>>) -> Seq<char>
    decreases parts.len(),
{
    if parts.len() == 0 {
        Seq::empty()
    } else {
        let before = identity(parts.drop_last());
        let p = parts.last();
        if p.len() == 0 {
            before
        } else if before.len() == 0 {
            p
        } else {
            before + " "@ + p
        }
    }
}

/// The Rigid Disk Block part of a text report.
pub open spec fn rdb_lines(r: Option<crate::inspect::RdbInfo>) -> Seq<Seq<char>> {
    match r {
        None => Seq::empty(),
        Some(r) => {
            let drive = identity(seq![r.vendor@, r.product@, r.revision@]);
            seq![
                "  rigid disk block"@,
                "    at          block "@ + decimal(r.block as nat),
                "    checksum    "@ + if r.checksum_valid {
                    "valid"@
                } else {
                    "INVALID"@
                },
                "    drive       "@ + decimal(r.cylinders as nat) + " cylinders x "@ + decimal(r.heads as nat)
                    + " heads x "@ + decimal(r.sectors as nat) + " sectors x "@ + decimal(r.block_size as nat)
                    + " bytes"@,
                "    reserved    up to block "@ + decimal(r.high_rdsk_block as nat),
            ] + if drive.len() > 0 {
                seq!["    identity    "@ + quoted(drive)]
            } else {
                Seq::empty()
            }
        },
    }
}

/// Append a word to a space-separated identity.
fn add_word(drive: &mut String, drive_len: &mut usize, word: &String)
    requires
        *old(drive_len) == old(drive)@.len(),
    ensures
        *final(drive_len) == final(drive)@.len(),
        final(drive)@ == if word@.len() == 0 {
            old(drive)@
        } else if old(drive)@.len() == 0 {
            word@
        } else {
            old(drive)@ + " "@ + word@
        },
{
    let ghost start = drive@;
    let n = chars_of(word.as_str()).len();
    if n > 0 {
        if *drive_len > 0 {
            push_str(drive, " ");
        }
        push_str(drive, word.as_str());
        assert(drive@ =~= if start.len() == 0 {
            word@
        } else {
            start + " "@ + word@
        });
        *drive_len = chars_of(drive.as_str()).len();
    }
}

/// The Rigid Disk Block part of a text report.
fn push_rdb_lines(lines: &mut Vec<String>, r: &Option<crate::inspect::RdbInfo>)
    ensures
        final(lines)@.map_values(|s: String| s@) == old(lines)@.map_values(|s: String| s@) + rdb_lines(*r),
{
    let ghost top = lines@.map_values(|s: String| s@);
    match r {
        None => {},
        Some(r) => {
            line(lines, "  rigid disk block".to_owned());
            line(lines, labelled("    at          block ", r.block as u64));
            let mut c = String::new();
            push_str(&mut c, "    checksum    ");
            push_str(&mut c, if r.checksum_valid { "valid" } else { "INVALID" });
            line(lines, c);
            let mut d = with_number("    drive       ", r.cylinders as u64, " cylinders x ");
            push_decimal(&mut d, r.heads as u64);
            push_str(&mut d, " heads x ");
            push_decimal(&mut d, r.sectors as u64);
            push_str(&mut d, " sectors x ");
            push_decimal(&mut d, r.block_size as u64);
            push_str(&mut d, " bytes");
            line(lines, d);
            line(lines, labelled("    reserved    up to block ", r.high_rdsk_block as u64));
            let mut drive = String::new();
            let mut drive_len: usize = 0;
            let ghost p1 = seq![r.vendor@];
            let ghost p2 = seq![r.vendor@, r.product@];
            let ghost p3 = seq![r.vendor@, r.product@, r.revision@];
            assert(p1.drop_last() =~= Seq::<Seq<char>>::empty());
            assert(p2.drop_last() =~= p1);
            assert(p3.drop_last() =~= p2);
            assert(drive@ =~= identity(Seq::<Seq<char>>::empty()));
            add_word(&mut drive, &mut drive_len, &r.vendor);
            assert(drive@ == identity(p1));
            add_word(&mut drive, &mut drive_len, &r.product);
            assert(drive@ == identity(p2));
            add_word(&mut drive, &mut drive_len, &r.revision);
            assert(drive@ == identity(p3));
            if drive_len > 0 {
                let mut i = String::new();
                push_str(&mut i, "    identity    ");
                let q = quote(drive.as_str());
                push_str(&mut i, q.as_str());
                line(lines, i);
            }
        },
    }
    assert(lines@.map_values(|s: String| s@) =~= top + rdb_lines(*r));
}

/// How one partition reads: its extent, then its dostype and flags, then
/// its volume or why it does not mount.
pub open spec fn partition_lines_of(p: crate::inspect::PartitionInfo) -> Seq<Seq<char>> {
    seq![
        "    "@ + pad_right(p.name@, 8) + " cylinders "@ + decimal(p.low_cylinder as nat) + ".."@ + decimal(
            p.high_cylinder as nat,
        ) + ", block "@ + decimal(p.first_block as nat) + " + "@ + decimal(p.blocks as nat) + " x "@ + decimal(
            p.block_size as nat,
        ) + " bytes"@,
        "             dostype 0x"@ + crate::json::zero_pad(crate::json::hex(p.dostype as nat), 8) + (if p.bootable {
            ", bootable"@
        } else {
            ""@
        }) + if p.checksum_valid {
            ""@
        } else {
            ", PART checksum INVALID"@
        },
    ] + match (p.volume_name, p.mount_error) {
        (Some(name), _) => seq!["             volume "@ + quoted(name@)],
        (None, Some(why)) => seq!["             does not mount \u{2014} "@ + why@],
        (None, None) => Seq::empty(),
    }
}

/// Lines for each item, one after another.
pub open spec fn all_partition_lines(ps: Seq<crate::inspect::PartitionInfo>) -> Seq<Seq<char>>
    decreases ps.len(),
{
    if ps.len() == 0 {
        Seq::empty()
    } else {
        all_partition_lines(ps.drop_last()) + partition_lines_of(ps.last())
    }
}

/// The partition part of a text report.
pub open spec fn partitions_lines(ps: Seq<crate::inspect::PartitionInfo>, faults: Seq<String>) -> Seq<Seq<char>> {
    (if ps.len() > 0 {
        seq!["  partitions  "@ + decimal(ps.len())] + all_partition_lines(ps)
    } else {
        Seq::empty()
    }) + faults.map_values(|f: String| "    ! partition table: "@ + f@)
}

/// One partition's lines.
fn push_partition(lines: &mut Vec<String>, p: &crate::inspect::PartitionInfo)
    ensures
        final(lines)@.map_values(|s: String| s@) == old(lines)@.map_values(|s: String| s@) + partition_lines_of(
            *p,
        ),
{
    let ghost top = lines@.map_values(|s: String| s@);
    let mut a = String::new();
    push_str(&mut a, "    ");
    push_padded_right(&mut a, p.name.as_str(), 8);
    push_str(&mut a, " cylinders ");
    push_decimal(&mut a, p.low_cylinder as u64);
    push_str(&mut a, "..");
    push_decimal(&mut a, p.high_cylinder as u64);
    push_str(&mut a, ", block ");
    push_decimal(&mut a, p.first_block);
    push_str(&mut a, " + ");
    push_decimal(&mut a, p.blocks);
    push_str(&mut a, " x ");
    push_decimal(&mut a, p.block_size as u64);
    push_str(&mut a, " bytes");
    line(lines, a);
    let mut b = String::new();
    push_str(&mut b, "             dostype 0x");
    crate::json::push_hex_padded(&mut b, p.dostype, 8);
    push_str(&mut b, if p.bootable { ", bootable" } else { "" });
    push_str(&mut b, if p.checksum_valid { "" } else { ", PART checksum INVALID" });
    line(lines, b);
    match (&p.volume_name, &p.mount_error) {
        (Some(name), _) => {
            let mut v = String::new();
            push_str(&mut v, "             volume ");
            let q = quote(name.as_str());
            push_str(&mut v, q.as_str());
            line(lines, v);
        },
        (None, Some(why)) => {
            let mut v = String::new();
            push_str(&mut v, "             does not mount \u{2014} ");
            push_str(&mut v, why.as_str());
            line(lines, v);
        },
        (None, None) => {},
    }
    assert(lines@.map_values(|s: String| s@) =~= top + partition_lines_of(*p));
}

/// The partition part of a text report.
fn push_partitions_lines(
    lines: &mut Vec<String>,
    ps: &Vec<crate::inspect::PartitionInfo>,
    faults: &Vec<String>,
)
    ensures
        final(lines)@.map_values(|s: String| s@) == old(lines)@.map_values(|s: String| s@) + partitions_lines(
            ps@,
            faults@,
        ),
{
    let ghost top = lines@.map_values(|s: String| s@);
    if ps.len() > 0 {
        line(lines, labelled("  partitions  ", ps.len() as u64));
        let ghost start = lines@.map_values(|s: String| s@);
        let mut i: usize = 0;
        while i < ps.len()
            invariant
                i <= ps@.len(),
                lines@.map_values(|s: String| s@) == start + all_partition_lines(ps@.take(i as int)),
            decreases ps@.len() - i,
        {
            push_partition(lines, &ps[i]);
            assert(ps@.take(i + 1).drop_last() =~= ps@.take(i as int));
            i = i + 1;
        }
        assert(ps@.take(i as int) =~= ps@);
    }
    let ghost mid = lines@.map_values(|s: String| s@);
    let mut k: usize = 0;
    while k < faults.len()
        invariant
            k <= faults@.len(),
            lines@.map_values(|s: String| s@) == mid + faults@.take(k as int).map_values(
                |f: String| "    ! partition table: "@ + f@,
            ),
        decreases faults@.len() - k,
    {
        let mut f = String::new();
        push_str(&mut f, "    ! partition table: ");
        push_str(&mut f, faults[k].as_str());
        line(lines, f);
        k = k + 1;
        assert(faults@.take(k as int).map_values(|f: String| "    ! partition table: "@ + f@) =~= faults@.take(
            k - 1,
        ).map_values(|f: String| "    ! partition table: "@ + f@).push("    ! partition table: "@ + faults@[k - 1]@));
    }
    assert(faults@.take(k as int) =~= faults@);
    assert(lines@.map_values(|s: String| s@) =~= top + partitions_lines(ps@, faults@));
}

/// The device part of a text report, from the track table down to the
/// partition table. None of it appears for a plain floppy, which is most
/// images: a disk with no partition table is not a fault worth a line.
pub open spec fn device_report(
    tracks: Option<crate::inspect::TrackTable>,
    assembly: Option<crate::inspect::AssemblyInfo>,
    description: Option<crate::inspect::Description>,
    boot_text: Seq<crate::inspect::BootText>,
    rdb: Option<crate::inspect::RdbInfo>,
    partitions: Seq<crate::inspect::PartitionInfo>,
    partition_faults: Seq<String>,
) -> Seq<Seq<char>> {
    track_lines(tracks) + assembly_lines(assembly) + description_lines(description) + boot_text_lines(boot_text)
        + rdb_lines(rdb) + partitions_lines(partitions, partition_faults)
}

/// The device part of a text report, appended to `lines`.
pub fn device_lines(
    lines: &mut Vec<String>,
    tracks: &Option<crate::inspect::TrackTable>,
    assembly: &Option<crate::inspect::AssemblyInfo>,
    description: &Option<crate::inspect::Description>,
    boot_text: &Vec<crate::inspect::BootText>,
    rdb: &Option<crate::inspect::RdbInfo>,
    partitions: &Vec<crate::inspect::PartitionInfo>,
    partition_faults: &Vec<String>,
)
    ensures
        final(lines)@.map_values(|s: String| s@) == old(lines)@.map_values(|s: String| s@) + device_report(
            *tracks,
            *assembly,
            *description,
            boot_text@,
            *rdb,
            partitions@,
            partition_faults@,
        ),
{
    let ghost top = lines@.map_values(|s: String| s@);
    push_track_lines(lines, tracks);
    push_assembly_lines(lines, assembly);
    push_description_lines(lines, description);
    push_boot_text_lines(lines, boot_text);
    push_rdb_lines(lines, rdb);
    push_partitions_lines(lines, partitions, partition_faults);
    assert(lines@.map_values(|s: String| s@) =~= top + device_report(
        *tracks,
        *assembly,
        *description,
        boot_text@,
        *rdb,
        partitions@,
        partition_faults@,
    ));
}


/// The bootblock part of a text report. Absent on a device, whose block 0 is
/// a Rigid Disk Block: parsing one there produces a confident report about
/// nothing.
pub open spec fn bootblock_lines(i: crate::inspect::Inspection) -> Seq<Seq<char>> {
    match i.bootblock {
        Some(bb) => seq![
            "  bootblock"@,
            "    dostype     "@ + match bb.dostype {
                Ok(d) => d.label@,
                Err(e) => "none \u{2014} "@ + e@,
            },
            if bb.checksum_valid {
                "    checksum    valid"@
            } else {
                "    checksum    invalid (stored 0x"@ + crate::json::zero_pad(
                    crate::json::hex(bb.stored_checksum as nat),
                    8,
                ) + ") \u{2014} normal for a non-bootable disk"@
            },
            "    boot code   "@ + if bb.has_boot_code {
                "present (never executed)"@
            } else {
                "none"@
            },
        ] + if !bb.is_dos {
            seq!["    prefix      "@ + quoted(bb.prefix@) + " \u{2014} not DOS"@]
        } else {
            Seq::empty()
        },
        None => if !i.detection.has_bootblock {
            seq!["  bootblock   none \u{2014} "@ + i.detection.label@ + " has no bootblock at block 0"@]
        } else if i.rdb is None {
            seq!["  bootblock   absent \u{2014} image too short"@]
        } else {
            Seq::empty()
        },
    }
}

/// The bootblock part of a text report.
fn push_bootblock_lines(lines: &mut Vec<String>, i: &crate::inspect::Inspection)
    ensures
        final(lines)@.map_values(|s: String| s@) == old(lines)@.map_values(|s: String| s@) + bootblock_lines(*i),
{
    let ghost top = lines@.map_values(|s: String| s@);
    match &i.bootblock {
        Some(bb) => {
            line(lines, "  bootblock".to_owned());
            let mut d = String::new();
            push_str(&mut d, "    dostype     ");
            match &bb.dostype {
                Ok(t) => push_str(&mut d, t.label.as_str()),
                Err(e) => {
                    push_str(&mut d, "none \u{2014} ");
                    push_str(&mut d, e.as_str());
                },
            }
            assert(d@ =~= bootblock_lines(*i)[1]);
            line(lines, d);
            if bb.checksum_valid {
                line(lines, "    checksum    valid".to_owned());
            } else {
                let mut c = String::new();
                push_str(&mut c, "    checksum    invalid (stored 0x");
                crate::json::push_hex_padded(&mut c, bb.stored_checksum, 8);
                push_str(&mut c, ") \u{2014} normal for a non-bootable disk");
                assert(c@ =~= bootblock_lines(*i)[2]);
                line(lines, c);
            }
            let mut b = String::new();
            push_str(&mut b, "    boot code   ");
            push_str(&mut b, if bb.has_boot_code { "present (never executed)" } else { "none" });
            assert(b@ =~= bootblock_lines(*i)[3]);
            line(lines, b);
            if !bb.is_dos {
                let mut p = String::new();
                push_str(&mut p, "    prefix      ");
                let q = quote(bb.prefix.as_str());
                push_str(&mut p, q.as_str());
                push_str(&mut p, " \u{2014} not DOS");
                assert(p@ =~= bootblock_lines(*i)[4]);
                line(lines, p);
            }
        },
        None => {
            if !i.detection.has_bootblock {
                let mut n = String::new();
                push_str(&mut n, "  bootblock   none \u{2014} ");
                push_str(&mut n, i.detection.label.as_str());
                push_str(&mut n, " has no bootblock at block 0");
                line(lines, n);
            } else if i.rdb.is_none() {
                line(lines, "  bootblock   absent \u{2014} image too short".to_owned());
            }
        },
    }
    assert(lines@.map_values(|s: String| s@) =~= top + bootblock_lines(*i));
}

/// The opening part of a text report: what the file is and how it is shaped.
pub open spec fn heading_lines(path: Seq<char>, i: crate::inspect::Inspection) -> Seq<Seq<char>> {
    seq![path, "  container   "@ + i.detection.label@, "  size        "@ + decimal(i.size as nat) + " bytes"@]
        + (match i.geometry {
        Some(g) => if i.rdb is Some {
            seq![
                "  addressing  "@ + decimal(crate::inspect::blocks_of(g)) + " blocks x "@ + decimal(
                    g.block_size as nat,
                ) + " bytes, linear"@,
            ]
        } else {
            seq![
                "  geometry    "@ + decimal(g.cylinders as nat) + " cylinders x "@ + decimal(g.heads as nat)
                    + " heads x "@ + decimal(g.sectors as nat) + " sectors x "@ + decimal(g.block_size as nat)
                    + " bytes = "@ + decimal(crate::inspect::blocks_of(g)) + " blocks"@,
            ]
        },
        None => Seq::empty(),
    }) + (match i.compression {
        Some(c) => match (c.decompressed_size, c.error) {
            (Some(n), _) => seq![
                "  compressed  "@ + c.label@ + ", "@ + decimal(c.compressed_size as nat) + " bytes on disk -> "@
                    + decimal(n as nat) + " bytes"@,
            ],
            (None, Some(why)) => seq!["  compressed  "@ + c.label@ + " \u{2014} could not be decompressed: "@ + why@],
            (None, None) => Seq::empty(),
        },
        None => Seq::empty(),
    }) + seq!["  evidence"@] + i.detection.evidence@.map_values(|e: String| "    - "@ + e@)
}

/// The opening part of a text report.
fn push_heading_lines(lines: &mut Vec<String>, path: &str, i: &crate::inspect::Inspection)
    requires
        crate::inspect::reportable(*i),
    ensures
        final(lines)@.map_values(|s: String| s@) == old(lines)@.map_values(|s: String| s@) + heading_lines(
            path@,
            *i,
        ),
{
    let ghost top = lines@.map_values(|s: String| s@);
    line(lines, path.to_owned());
    let mut c = String::new();
    push_str(&mut c, "  container   ");
    push_str(&mut c, i.detection.label.as_str());
    line(lines, c);
    line(lines, with_number("  size        ", i.size, " bytes"));
    match &i.geometry {
        Some(g) => {
            let total = g.total_blocks();
            if i.rdb.is_some() {
                let mut a = with_number("  addressing  ", total, " blocks x ");
                push_decimal(&mut a, g.block_size as u64);
                push_str(&mut a, " bytes, linear");
                line(lines, a);
            } else {
                let mut a = with_number("  geometry    ", g.cylinders as u64, " cylinders x ");
                push_decimal(&mut a, g.heads as u64);
                push_str(&mut a, " heads x ");
                push_decimal(&mut a, g.sectors as u64);
                push_str(&mut a, " sectors x ");
                push_decimal(&mut a, g.block_size as u64);
                push_str(&mut a, " bytes = ");
                push_decimal(&mut a, total);
                push_str(&mut a, " blocks");
                line(lines, a);
            }
        },
        None => {},
    }
    match &i.compression {
        Some(c) => match (c.decompressed_size, &c.error) {
            (Some(n), _) => {
                let mut t = String::new();
                push_str(&mut t, "  compressed  ");
                push_str(&mut t, c.label.as_str());
                push_str(&mut t, ", ");
                push_decimal(&mut t, c.compressed_size);
                push_str(&mut t, " bytes on disk -> ");
                push_decimal(&mut t, n);
                push_str(&mut t, " bytes");
                line(lines, t);
            },
            (None, Some(why)) => {
                let mut t = String::new();
                push_str(&mut t, "  compressed  ");
                push_str(&mut t, c.label.as_str());
                push_str(&mut t, " \u{2014} could not be decompressed: ");
                push_str(&mut t, why.as_str());
                line(lines, t);
            },
            (None, None) => {},
        },
        None => {},
    }
    line(lines, "  evidence".to_owned());
    let ghost mid = lines@.map_values(|s: String| s@);
    let ev = &i.detection.evidence;
    let mut k: usize = 0;
    while k < ev.len()
        invariant
            k <= ev@.len(),
            lines@.map_values(|s: String| s@) == mid + ev@.take(k as int).map_values(|e: String| "    - "@ + e@),
        decreases ev@.len() - k,
    {
        let mut t = String::new();
        push_str(&mut t, "    - ");
        push_str(&mut t, ev[k].as_str());
        line(lines, t);
        k = k + 1;
        assert(ev@.take(k as int).map_values(|e: String| "    - "@ + e@) =~= ev@.take(k - 1).map_values(
            |e: String| "    - "@ + e@,
        ).push("    - "@ + ev@[k - 1]@));
    }
    assert(ev@.take(k as int) =~= ev@);
    assert(lines@.map_values(|s: String| s@) =~= top + heading_lines(path@, *i));
}

/// The volume part of a text report.
pub open spec fn inspected_volume_lines(i: crate::inspect::Inspection) -> Seq<Seq<char>> {
    match i.volume {
        Some(v) => seq![
            "  volume"@,
            "    name        "@ + quoted(crate::json::latin1_chars(v.name@)),
            "    rootblock   block "@ + decimal(v.rootblock_at as nat) + " (computed)"@,
            "    checksum    "@ + if v.facts.checksum_valid {
                "valid"@
            } else {
                "INVALID"@
            },
            "    bitmap      "@ + if v.facts.bitmap_flag_valid {
                "flagged valid"@
            } else {
                "flagged INVALID"@
            },
            "    created     "@ + v.created@,
            "    modified    "@ + v.modified@,
        ],
        None => if i.partitions@.len() == 0 {
            seq!["  volume      none"@] + match i.volume_absent {
                Some(why) => seq!["              "@ + why@],
                None => Seq::empty(),
            }
        } else {
            seq!["  volume      none \u{2014} the volumes are in the partitions"@]
        },
    }
}

/// The volume part of a text report.
fn push_inspected_volume_lines(lines: &mut Vec<String>, i: &crate::inspect::Inspection)
    ensures
        final(lines)@.map_values(|s: String| s@) == old(lines)@.map_values(|s: String| s@)
            + inspected_volume_lines(*i),
{
    let ghost top = lines@.map_values(|s: String| s@);
    match &i.volume {
        Some(v) => {
            line(lines, "  volume".to_owned());
            let mut n = String::new();
            push_str(&mut n, "    name        ");
            let name = latin1_text(v.name.as_slice());
            let q = quote(name.as_str());
            push_str(&mut n, q.as_str());
            line(lines, n);
            line(lines, with_number("    rootblock   block ", v.rootblock_at, " (computed)"));
            let mut c = String::new();
            push_str(&mut c, "    checksum    ");
            push_str(&mut c, if v.facts.checksum_valid { "valid" } else { "INVALID" });
            line(lines, c);
            let mut b = String::new();
            push_str(&mut b, "    bitmap      ");
            push_str(&mut b, if v.facts.bitmap_flag_valid { "flagged valid" } else { "flagged INVALID" });
            line(lines, b);
            let mut cr = String::new();
            push_str(&mut cr, "    created     ");
            push_str(&mut cr, v.created.as_str());
            line(lines, cr);
            let mut m = String::new();
            push_str(&mut m, "    modified    ");
            push_str(&mut m, v.modified.as_str());
            line(lines, m);
        },
        None => {
            if i.partitions.len() == 0 {
                line(lines, "  volume      none".to_owned());
                match &i.volume_absent {
                    Some(why) => {
                        let mut w = String::new();
                        push_str(&mut w, "              ");
                        push_str(&mut w, why.as_str());
                        line(lines, w);
                    },
                    None => {},
                }
            } else {
                line(lines, "  volume      none \u{2014} the volumes are in the partitions".to_owned());
            }
        },
    }
    assert(lines@.map_values(|s: String| s@) =~= top + inspected_volume_lines(*i));
}

/// Latin-1 bytes as text.
fn latin1_text(bytes: &[u8]) -> (r: String)
    ensures
        r@ == crate::json::latin1_chars(bytes@),
{
    let mut out = String::new();
    let mut i: usize = 0;
    while i < bytes.len()
        invariant
            i <= bytes@.len(),
            out@ == crate::json::latin1_chars(bytes@.take(i as int)),
        decreases bytes@.len() - i,
    {
        push_char(&mut out, bytes[i] as char);
        i = i + 1;
        assert(out@ =~= crate::json::latin1_chars(bytes@.take(i as int)));
    }
    assert(bytes@.take(i as int) =~= bytes@);
    out
}


/// The faults part of a text report. Faults come from the engine, so the two
/// output formats cannot drift apart about what is wrong with an image.
pub open spec fn fault_lines(fs: Seq<(Seq<char>, Seq<char>)>) -> Seq<Seq<char>> {
    if fs.len() == 0 {
        seq!["  faults      none"@]
    } else {
        seq!["  faults"@] + fs.map_values(|f: (Seq<char>, Seq<char>)| "    ! ["@ + f.0 + "] "@ + f.1)
    }
}

/// The faults part of a text report.
fn push_fault_lines(lines: &mut Vec<String>, fs: &Vec<crate::inspect::Fault>)
    ensures
        final(lines)@.map_values(|s: String| s@) == old(lines)@.map_values(|s: String| s@) + fault_lines(
            fs@.map_values(|f: crate::inspect::Fault| crate::inspect::fault_view(f)),
        ),
{
    let ghost top = lines@.map_values(|s: String| s@);
    let ghost views = fs@.map_values(|f: crate::inspect::Fault| crate::inspect::fault_view(f));
    if fs.len() == 0 {
        line(lines, "  faults      none".to_owned());
    } else {
        line(lines, "  faults".to_owned());
        let ghost mid = lines@.map_values(|s: String| s@);
        let mut k: usize = 0;
        while k < fs.len()
            invariant
                k <= fs@.len(),
                views == fs@.map_values(|f: crate::inspect::Fault| crate::inspect::fault_view(f)),
                lines@.map_values(|s: String| s@) == mid + views.take(k as int).map_values(
                    |f: (Seq<char>, Seq<char>)| "    ! ["@ + f.0 + "] "@ + f.1,
                ),
            decreases fs@.len() - k,
        {
            let mut t = String::new();
            push_str(&mut t, "    ! [");
            push_str(&mut t, fs[k].code);
            push_str(&mut t, "] ");
            push_str(&mut t, fs[k].message.as_str());
            line(lines, t);
            k = k + 1;
            assert(views.take(k as int).map_values(|f: (Seq<char>, Seq<char>)| "    ! ["@ + f.0 + "] "@ + f.1)
                =~= views.take(k - 1).map_values(|f: (Seq<char>, Seq<char>)| "    ! ["@ + f.0 + "] "@ + f.1).push(
                "    ! ["@ + views[k - 1].0 + "] "@ + views[k - 1].1,
            ));
        }
        assert(views.take(k as int) =~= views);
    }
    assert(lines@.map_values(|s: String| s@) =~= top + fault_lines(views));
}

/// The text report of an inspection, line by line. Layout may change; do
/// not parse it.
pub open spec fn inspection_report(path: Seq<char>, i: crate::inspect::Inspection) -> Seq<Seq<char>> {
    heading_lines(path, i) + bootblock_lines(i) + device_report(
        i.tracks,
        i.assembly,
        i.description,
        i.boot_text@,
        i.rdb,
        i.partitions@,
        i.partition_faults@,
    ) + inspected_volume_lines(i) + fault_lines(
        crate::inspect::faults_of(crate::inspect::unknown_bits(i), crate::inspect::root_facts(i)),
    )
}

/// The text report of an inspection, line by line.
pub fn report_text(path: &str, i: &crate::inspect::Inspection) -> (r: Vec<String>)
    requires
        crate::inspect::reportable(*i),
    ensures
        r@.map_values(|s: String| s@) == inspection_report(path@, *i),
{
    let mut lines: Vec<String> = Vec::new();
    push_heading_lines(&mut lines, path, i);
    push_bootblock_lines(&mut lines, i);
    device_lines(
        &mut lines,
        &i.tracks,
        &i.assembly,
        &i.description,
        &i.boot_text,
        &i.rdb,
        &i.partitions,
        &i.partition_faults,
    );
    push_inspected_volume_lines(&mut lines, i);
    let fs = i.faults();
    push_fault_lines(&mut lines, &fs);
    assert(lines@.map_values(|s: String| s@) =~= inspection_report(path@, *i));
    lines
}

/// What `info` exits with: no volume at all, faults, or clean.
pub open spec fn info_exit(i: crate::inspect::Inspection) -> u8 {
    if i.volume is None && i.partitions@.len() == 0 {
        EXIT_NO_VOLUME
    } else if crate::inspect::faults_of(crate::inspect::unknown_bits(i), crate::inspect::root_facts(i)).len() == 0 {
        EXIT_CLEAN
    } else {
        EXIT_FAULTS
    }
}

/// What `info` exits with.
pub fn info_exit_code(i: &crate::inspect::Inspection) -> (r: u8)
    ensures
        r == info_exit(*i),
{
    if i.volume.is_none() && i.partitions.len() == 0 {
        EXIT_NO_VOLUME
    } else if i.faults().len() == 0 {
        EXIT_CLEAN
    } else {
        EXIT_FAULTS
    }
}


/// Where a link points.
#[derive(Debug, Clone)]
pub enum LinkTarget {
    /// The name of what it resolves to.
    Resolved(String),
    /// Why it could not be resolved.
    Broken(String),
}

/// One directory entry, as a listing shows it.
#[derive(Debug, Clone)]
pub struct ListedEntry {
    /// Its name, decoded from Latin-1.
    pub name: String,
    /// Its size, for a file.
    pub size: Option<u32>,
    /// What it is, shown in place of a size for anything but a file.
    pub kind: String,
    /// Its protection bits, as AmigaDOS writes them.
    pub protection: String,
    /// When it was last altered, as it reads.
    pub altered: String,
    /// Where it points, for a link.
    pub link: Option<LinkTarget>,
    /// Its comment; empty for none.
    pub comment: String,
}

/// A Latin-1 character in lower case: `A` to `Z`, and the accented capitals
/// from U+00C0 to U+00DE but the multiplication sign.
pub open spec fn lower_latin1(c: char) -> char {
    let n = c as u32;
    if (0x41 <= n <= 0x5A) || (0xC0 <= n <= 0xDE && n != 0xD7) {
        (n + 32) as char
    } else {
        c
    }
}

/// A name in lower case, as a listing orders it.
pub open spec fn lowered(s: Seq<char>) -> Seq<char> {
    s.map_values(|c: char| lower_latin1(c))
}

/// A name in lower case.
fn lower_name(s: &str) -> (r: Vec<char>)
    ensures
        r@ == lowered(s@),
{
    let chars = chars_of(s);
    let mut out: Vec<char> = Vec::new();
    let mut i: usize = 0;
    while i < chars.len()
        invariant
            i <= chars@.len(),
            chars@ == s@,
            out@ == lowered(chars@.take(i as int)),
        decreases chars@.len() - i,
    {
        let c = chars[i];
        let n = c as u32;
        let l = if (0x41 <= n && n <= 0x5A) || (0xC0 <= n && n <= 0xDE && n != 0xD7) {
            ((n + 32) as u8) as char
        } else {
            c
        };
        assert(l == lower_latin1(c));
        out.push(l);
        i = i + 1;
        assert(out@ =~= lowered(chars@.take(i as int)));
    }
    assert(chars@.take(i as int) =~= chars@);
    out
}

/// How one entry reads in a listing.
pub open spec fn entry_line(e: ListedEntry) -> Seq<char> {
    pad_left(
        match e.size {
            Some(n) => decimal(n as nat),
            None => e.kind@,
        },
        9,
    ) + "  "@ + e.protection@ + "  "@ + e.altered@ + "  "@ + e.name@ + match e.link {
        Some(LinkTarget::Resolved(t)) => "  -> "@ + t@,
        Some(LinkTarget::Broken(why)) => "  -> BROKEN ("@ + why@ + ")"@,
        None => Seq::empty(),
    } + if e.comment@.len() > 0 {
        "   ; "@ + e.comment@
    } else {
        Seq::empty()
    }
}

/// Whether entries are paired with their lower-cased names as keys.
pub open spec fn keyed_by_name(ps: Seq<(Vec<char>, ListedEntry)>, items: Seq<ListedEntry>) -> bool {
    &&& ps.len() == items.len()
    &&& forall|i: int| 0 <= i < ps.len() ==> #[trigger] ps[i].1 == items[i] && ps[i].0@ == lowered(items[i].name@)
}

/// `s`, padded with spaces on the left to at least `w` characters.
fn push_text_padded_left(out: &mut String, s: &str, w: usize)
    ensures
        final(out)@ == old(out)@ + pad_left(s@, w as nat),
{
    let ghost start = out@;
    let width = chars_of(s).len();
    let mut k: usize = width;
    while k < w
        invariant
            width == s@.len(),
            width <= k,
            k <= w || k == width,
            out@ == start + spaces((k - width) as nat),
        decreases w - k,
    {
        push_char(out, ' ');
        k = k + 1;
        assert(out@ =~= start + spaces((k - width) as nat));
    }
    push_str(out, s);
    assert(out@ =~= start + pad_left(s@, w as nat));
}

/// How one entry reads in a listing.
fn entry_text(e: &ListedEntry) -> (r: String)
    ensures
        r@ == entry_line(*e),
{
    let mut t = String::new();
    match e.size {
        Some(n) => {
            let mut digits = String::new();
            push_decimal(&mut digits, n as u64);
            push_text_padded_left(&mut t, digits.as_str(), 9);
        },
        None => push_text_padded_left(&mut t, e.kind.as_str(), 9),
    }
    push_str(&mut t, "  ");
    push_str(&mut t, e.protection.as_str());
    push_str(&mut t, "  ");
    push_str(&mut t, e.altered.as_str());
    push_str(&mut t, "  ");
    push_str(&mut t, e.name.as_str());
    match &e.link {
        Some(LinkTarget::Resolved(target)) => {
            push_str(&mut t, "  -> ");
            push_str(&mut t, target.as_str());
        },
        Some(LinkTarget::Broken(why)) => {
            push_str(&mut t, "  -> BROKEN (");
            push_str(&mut t, why.as_str());
            push_str(&mut t, ")");
        },
        None => {},
    }
    if chars_of(e.comment.as_str()).len() > 0 {
        push_str(&mut t, "   ; ");
        push_str(&mut t, e.comment.as_str());
    }
    assert(t@ =~= entry_line(*e));
    t
}

/// A directory listing for people: entries ordered by name regardless of
/// case, one line each, then how many there were.
pub fn list_lines(entries: Vec<ListedEntry>) -> (r: Vec<String>)
    ensures
        exists|ps: Seq<(Vec<char>, ListedEntry)>|
            keyed_by_name(ps, entries@) && r@.map_values(|s: String| s@) == crate::order::sorted_by_key(ps).map_values(
                |p: (Vec<char>, ListedEntry)| entry_line(p.1),
            ).push(decimal(entries@.len()) + " entries"@),
{
    let ghost all = entries@;
    let n = entries.len();
    let mut rest = entries;
    let mut pairs: Vec<(Vec<char>, ListedEntry)> = Vec::new();
    let ghost mut done: int = 0;
    while rest.len() > 0
        invariant
            0 <= done <= all.len(),
            rest@ == all.subrange(done, all.len() as int),
            keyed_by_name(pairs@, all.take(done)),
        decreases rest@.len(),
    {
        let item = rest.remove(0);
        proof {
            assert(item == all[done]);
            assert(rest@ =~= all.subrange(done + 1, all.len() as int));
        }
        let key = lower_name(item.name.as_str());
        pairs.push((key, item));
        proof {
            done = done + 1;
            assert forall|i: int| 0 <= i < pairs@.len() implies #[trigger] pairs@[i].1 == all.take(done)[i]
                && pairs@[i].0@ == lowered(all.take(done)[i].name@) by {
                if i < done - 1 {
                    assert(all.take(done)[i] == all.take(done - 1)[i]);
                }
            }
        }
    }
    assert(all.take(done) =~= all);
    let ghost ps = pairs@;
    let sorted = crate::order::sort_by_key(pairs);
    let mut lines: Vec<String> = Vec::new();
    let mut k: usize = 0;
    while k < sorted.len()
        invariant
            k <= sorted@.len(),
            lines@.map_values(|s: String| s@) == sorted@.take(k as int).map_values(
                |p: (Vec<char>, ListedEntry)| entry_line(p.1),
            ),
        decreases sorted@.len() - k,
    {
        let t = entry_text(&sorted[k].1);
        line(&mut lines, t);
        k = k + 1;
        assert(sorted@.take(k as int).map_values(|p: (Vec<char>, ListedEntry)| entry_line(p.1)) =~= sorted@.take(
            k - 1,
        ).map_values(|p: (Vec<char>, ListedEntry)| entry_line(p.1)).push(entry_line(sorted@[k - 1].1)));
    }
    assert(sorted@.take(k as int) =~= sorted@);
    line(&mut lines, with_number("", n as u64, " entries"));
    proof {
        reveal_strlit("");
        assert(""@ + decimal(n as nat) =~= decimal(n as nat));
    }
    assert(keyed_by_name(ps, all));
    lines
}


/// How two dumps compare, for people: whether they are identical, or how
/// many sectors and bytes differ and on which tracks.
pub open spec fn diff_report(d: crate::consolidate::Diff) -> Seq<Seq<char>> {
    if d.bytes_differing == 0 {
        seq!["  identical \u{2014} "@ + decimal(d.sectors_total as nat) + " sectors compared"@]
    } else {
        seq![
            "  "@ + decimal(d.sectors@.len()) + " of "@ + decimal(d.sectors_total as nat) + " sectors differ, "@
                + decimal(d.bytes_differing as nat) + " bytes"@,
            "  tracks  "@ + runs_text(runs(d.tracks@)),
        ]
    }
}

/// What `diff` exits with: clean when the dumps are identical.
pub open spec fn diff_exit(d: crate::consolidate::Diff) -> u8 {
    if d.bytes_differing == 0 {
        EXIT_CLEAN
    } else {
        EXIT_FAULTS
    }
}

/// What `consolidate` exits with: clean when every sector agreed.
pub open spec fn consolidation_exit(c: crate::consolidate::Consolidation) -> u8 {
    if c.resolved_sectors == 0 && c.unresolved_sectors == 0 {
        EXIT_CLEAN
    } else {
        EXIT_FAULTS
    }
}

/// How two dumps compare, for people, and what `diff` exits with.
pub fn diff_lines(d: &crate::consolidate::Diff) -> (r: (Vec<String>, u8))
    ensures
        r.0@.map_values(|s: String| s@) == diff_report(*d),
        r.1 == diff_exit(*d),
{
    let mut lines: Vec<String> = Vec::new();
    if d.is_identical() {
        let mut t = with_number("  identical \u{2014} ", d.sectors_total as u64, " sectors compared");
        line(&mut lines, t);
        assert(lines@.map_values(|s: String| s@) =~= diff_report(*d));
        return (lines, EXIT_CLEAN);
    }
    let mut t = with_number("  ", d.sectors.len() as u64, " of ");
    push_decimal(&mut t, d.sectors_total as u64);
    push_str(&mut t, " sectors differ, ");
    push_decimal(&mut t, d.bytes_differing as u64);
    push_str(&mut t, " bytes");
    line(&mut lines, t);
    let mut u = String::new();
    push_str(&mut u, "  tracks  ");
    let ranges = summarise(&d.tracks);
    push_str(&mut u, ranges.as_str());
    line(&mut lines, u);
    assert(lines@.map_values(|s: String| s@) =~= diff_report(*d));
    (lines, EXIT_FAULTS)
}

/// Numbers as a list in brackets, separated by ", ".
pub open spec fn bracketed(ns: Seq<usize>) -> Seq<char> {
    "["@ + runs_text(ns.map_values(|n: usize| (n, n))) + "]"@
}

/// How one disagreeing track reads.
pub open spec fn disputed_line(t: crate::consolidate::TrackReport) -> Seq<char> {
    "    "@ + pad_left(decimal(t.track as nat), 3) + "  sectors "@ + bracketed(t.disputed@) + if t.unresolved@.len()
        == 0 {
        Seq::empty()
    } else {
        ", "@ + decimal(t.unresolved@.len()) + " unresolved"@
    }
}

/// What several dumps agree on, for people. Agreement is not correctness:
/// the dumps may be of different physical copies, so a plurality says what
/// most dumps hold, not what is right.
pub open spec fn consolidation_report(c: crate::consolidate::Consolidation) -> Seq<Seq<char>> {
    let shown = if c.tracks@.len() < 12 { c.tracks@.len() as int } else { 12 };
    seq![
        decimal(c.sources as nat) + " dumps, "@ + decimal(crate::consolidate::total_of(c) as nat) + " sectors each"@,
        "  agreed      "@ + decimal(c.unanimous_sectors as nat) + " sectors"@,
        "  resolved    "@ + decimal(c.resolved_sectors as nat) + " sectors by plurality"@,
        "  unresolved  "@ + decimal(c.unresolved_sectors as nat) + " sectors with no majority"@,
    ] + (if c.sources == 2 && c.unresolved_sectors > 0 {
        seq!["              (two dumps cannot vote \u{2014} every difference ties)"@]
    } else {
        Seq::empty()
    }) + (if c.tracks@.len() > 0 {
        seq!["  tracks that disagree"@] + c.tracks@.take(shown).map_values(
            |t: crate::consolidate::TrackReport| disputed_line(t),
        ) + if c.tracks@.len() > 12 {
            seq!["    ... and "@ + decimal((c.tracks@.len() - 12) as nat) + " more tracks"@]
        } else {
            Seq::empty()
        }
    } else {
        Seq::empty()
    }) + seq![Seq::empty(), "This reports agreement between dumps, not which dump is correct."@]
}

/// Numbers as a list in brackets.
fn bracket(ns: &Vec<usize>) -> (r: String)
    ensures
        r@ == bracketed(ns@),
{
    let mut out = String::new();
    push_str(&mut out, "[");
    let ghost start = out@;
    let mut k: usize = 0;
    while k < ns.len()
        invariant
            k <= ns@.len(),
            out@ == start + runs_text(ns@.take(k as int).map_values(|n: usize| (n, n))),
        decreases ns@.len() - k,
    {
        let ghost before = out@;
        if k > 0 {
            push_str(&mut out, ", ");
        }
        push_decimal(&mut out, ns[k] as u64);
        assert(ns@.take(k + 1).map_values(|n: usize| (n, n)).drop_last() =~= ns@.take(k as int).map_values(
            |n: usize| (n, n),
        ));
        k = k + 1;
        if k == 1 {
            assert(out@ =~= start + run_text(ns@.take(k as int).map_values(|n: usize| (n, n))[0]));
        } else {
            assert(out@ =~= before + ", "@ + run_text((ns@[k - 1], ns@[k - 1])));
        }
    }
    assert(ns@.take(k as int) =~= ns@);
    push_str(&mut out, "]");
    assert(out@ =~= bracketed(ns@));
    out
}

/// What several dumps agree on, for people, and what `consolidate` exits
/// with: clean when every sector agreed.
pub fn consolidation_lines(c: &crate::consolidate::Consolidation) -> (r: (Vec<String>, u8))
    ensures
        r.0@.map_values(|s: String| s@) == consolidation_report(*c),
        r.1 == consolidation_exit(*c),
{
    let mut lines: Vec<String> = Vec::new();
    let mut t = with_number("", c.sources as u64, " dumps, ");
    push_decimal(&mut t, c.total_sectors() as u64);
    push_str(&mut t, " sectors each");
    proof {
        reveal_strlit("");
        assert(""@ + decimal(c.sources as nat) =~= decimal(c.sources as nat));
    }
    line(&mut lines, t);
    line(&mut lines, with_number("  agreed      ", c.unanimous_sectors as u64, " sectors"));
    line(&mut lines, with_number("  resolved    ", c.resolved_sectors as u64, " sectors by plurality"));
    line(&mut lines, with_number("  unresolved  ", c.unresolved_sectors as u64, " sectors with no majority"));
    if c.sources == 2 && c.unresolved_sectors > 0 {
        line(&mut lines, "              (two dumps cannot vote \u{2014} every difference ties)".to_owned());
    }
    if c.tracks.len() > 0 {
        line(&mut lines, "  tracks that disagree".to_owned());
        let shown: usize = if c.tracks.len() < 12 { c.tracks.len() } else { 12 };
        let ghost head = lines@.map_values(|s: String| s@);
        let mut k: usize = 0;
        while k < shown
            invariant
                shown <= c.tracks@.len(),
                k <= shown,
                lines@.map_values(|s: String| s@) == head + c.tracks@.take(k as int).map_values(
                    |t: crate::consolidate::TrackReport| disputed_line(t),
                ),
            decreases shown - k,
        {
            let tr = &c.tracks[k];
            let mut l = String::new();
            push_str(&mut l, "    ");
            push_number_padded_left(&mut l, tr.track as u64, 3);
            push_str(&mut l, "  sectors ");
            let b = bracket(&tr.disputed);
            push_str(&mut l, b.as_str());
            if tr.unresolved.len() > 0 {
                push_str(&mut l, ", ");
                push_decimal(&mut l, tr.unresolved.len() as u64);
                push_str(&mut l, " unresolved");
            }
            assert(l@ =~= disputed_line(*tr));
            line(&mut lines, l);
            k = k + 1;
            assert(c.tracks@.take(k as int).map_values(|t: crate::consolidate::TrackReport| disputed_line(t))
                =~= c.tracks@.take(k - 1).map_values(|t: crate::consolidate::TrackReport| disputed_line(t)).push(
                disputed_line(c.tracks@[k - 1]),
            ));
        }
        if c.tracks.len() > 12 {
            line(&mut lines, with_number("    ... and ", (c.tracks.len() - 12) as u64, " more tracks"));
        }
    }
    line(&mut lines, String::new());
    line(&mut lines, "This reports agreement between dumps, not which dump is correct.".to_owned());
    assert(lines@.map_values(|s: String| s@) =~= consolidation_report(*c));
    let code = if c.is_unanimous() { EXIT_CLEAN } else { EXIT_FAULTS };
    (lines, code)
}


/// Why a conversion is not carried out, line by line, or `None` when it may
/// go ahead: only a lossless one may. A lossy conversion is refused rather
/// than warned about, because the loss is not recoverable afterwards.
pub open spec fn refusal(v: crate::convert::Conversion) -> Option<Seq<Seq<char>>> {
    match v {
        crate::convert::Conversion::Lossless => None,
        crate::convert::Conversion::Lossy { lost } => Some(
            seq![
                "ade: refusing to convert: this would discard "@ + lost@,
                "ade: lossy conversion is not available yet \u{2014} no flag enables it"@,
            ],
        ),
        _ => Some(Seq::empty()),
    }
}

/// Why a conversion is not carried out, or `None` when it may go ahead.
pub fn refuse(v: crate::convert::Conversion) -> (r: Option<Vec<String>>)
    ensures
        match (r, refusal(v)) {
            (None, None) => true,
            (Some(ls), Some(m)) => ls@.map_values(|s: String| s@) == m,
            _ => false,
        },
{
    match v {
        crate::convert::Conversion::Lossless => None,
        crate::convert::Conversion::Lossy { lost } => {
            let mut lines: Vec<String> = Vec::new();
            let mut a = String::new();
            push_str(&mut a, "ade: refusing to convert: this would discard ");
            push_str(&mut a, lost);
            line(&mut lines, a);
            line(&mut lines, "ade: lossy conversion is not available yet \u{2014} no flag enables it".to_owned());
            Some(lines)
        },
        _ => {
            let lines: Vec<String> = Vec::new();
            assert(lines@.map_values(|s: String| s@) =~= Seq::<Seq<char>>::empty());
            Some(lines)
        },
    }
}

/// What a conversion's output is called: an extended ADF of raw MFM tracks
/// when asked for, since the extension cannot say so; otherwise the target
/// format's own name.
pub fn target_name(raw: bool, label: &str) -> (r: String)
    ensures
        r@ == if raw { "extended ADF (raw MFM tracks)"@ } else { label@ },
{
    if raw {
        "extended ADF (raw MFM tracks)".to_owned()
    } else {
        label.to_owned()
    }
}

/// The tracks of a sector image, `per_track` sectors of 512 bytes each, or
/// why the image is not a whole number of tracks.
pub open spec fn tracks_of(sectors: Seq<u8>, per_track: nat) -> Result<Seq<Seq<u8>>, Seq<char>> {
    let track = per_track * 512;
    if sectors.len() % track != 0 {
        Err(
            "not a whole number of "@ + decimal(per_track) + "-sector tracks \u{2014} "@ + decimal(sectors.len())
                + " bytes"@,
        )
    } else {
        Ok(Seq::new(sectors.len() / track, |i: int| sectors.subrange(i * track, i * track + track)))
    }
}

/// Cut a sector image into tracks of `sectors_per_track` sectors each: at
/// least one, and as many as the image's own geometry says, since a
/// high-density image has 22 where a double-density one has 11.
pub fn split_tracks(sectors: &[u8], sectors_per_track: u32) -> (r: Result<Vec<Vec<u8>>, String>)
    requires
        sectors_per_track <= 0x7F_FFFF,
    ensures
        match (r, tracks_of(sectors@, if sectors_per_track == 0 { 1 } else { sectors_per_track as nat })) {
            (Ok(ts), Ok(m)) => ts@.map_values(|t: Vec<u8>| t@) == m,
            (Err(e), Err(m)) => e@ == m,
            _ => false,
        },
{
    let per_track: usize = if sectors_per_track == 0 { 1 } else { sectors_per_track as usize };
    let track: usize = per_track * 512;
    if sectors.len() % track != 0 {
        let mut e = String::new();
        push_str(&mut e, "not a whole number of ");
        push_decimal(&mut e, per_track as u64);
        push_str(&mut e, "-sector tracks \u{2014} ");
        push_decimal(&mut e, sectors.len() as u64);
        push_str(&mut e, " bytes");
        return Err(e);
    }
    let count = sectors.len() / track;
    assert(count * track == sectors.len()) by (nonlinear_arith)
        requires
            count == sectors.len() / track,
            sectors.len() % track == 0,
            track > 0,
    ;
    let ghost want = Seq::new(count as nat, |i: int| sectors@.subrange(i * track, i * track + track));
    let mut out: Vec<Vec<u8>> = Vec::new();
    let mut i: usize = 0;
    let mut base: usize = 0;
    while i < count
        invariant
            count * track == sectors.len(),
            track > 0,
            i <= count,
            base == i * track,
            want == Seq::new(count as nat, |i: int| sectors@.subrange(i * track, i * track + track)),
            out@.map_values(|t: Vec<u8>| t@) == want.take(i as int),
        decreases count - i,
    {
        assert(i * track + track <= sectors.len()) by (nonlinear_arith)
            requires
                i < count,
                count * track == sectors.len(),
                track > 0,
        ;
        let mut t: Vec<u8> = Vec::new();
        let mut k: usize = 0;
        while k < track
            invariant
                base == i * track,
                base + track <= sectors.len(),
                k <= track,
                t@ == sectors@.subrange(base as int, base + k),
            decreases track - k,
        {
            t.push(sectors[base + k]);
            k = k + 1;
            assert(t@ =~= sectors@.subrange(base as int, base + k));
        }
        let ghost before = out@;
        assert(t@ == want[i as int]);
        assert(want.take(i + 1) =~= want.take(i as int).push(t@));
        out.push(t);
        assert(out@.map_values(|t: Vec<u8>| t@) =~= before.map_values(|t: Vec<u8>| t@).push(out@[i as int]@));
        i = i + 1;
        base = base + track;
        assert(base == i * track) by (nonlinear_arith)
            requires
                base == (i - 1) * track + track,
        ;
        assert(out@.map_values(|t: Vec<u8>| t@) =~= want.take(i as int));
    }
    assert(want.take(i as int) =~= want);
    Ok(out)
}

} // verus!

verus! {

/// Whether two names are the same ignoring ASCII case.
pub open spec fn names_match(a: Seq<char>, b: Seq<char>) -> bool {
    crate::convert::ascii_lowercase(a) == crate::convert::ascii_lowercase(b)
}

/// The first of the first `m` names that matches `w`, ignoring ASCII case.
pub open spec fn first_match(names: Seq<Seq<char>>, w: Seq<char>, m: int) -> Option<int>
    decreases m,
{
    if m <= 0 {
        None
    } else {
        match first_match(names, w, m - 1) {
            Some(i) => Some(i),
            None => if names_match(names[m - 1], w) {
                Some(m - 1)
            } else {
                None
            },
        }
    }
}

/// Whether every character is a decimal digit.
pub open spec fn all_digits(s: Seq<char>) -> bool {
    forall|i: int| 0 <= i < s.len() ==> '0' <= #[trigger] s[i] <= '9'
}

/// The number decimal digits spell.
pub open spec fn digits_value(s: Seq<char>) -> nat
    decreases s.len(),
{
    if s.len() == 0 {
        0
    } else {
        digits_value(s.drop_last()) * 10 + ((s.last() as u32 - '0' as u32) as nat)
    }
}

/// A partition index as a word: decimal digits, optionally after a `+`, for
/// a number that fits the platform word.
pub open spec fn parse_index(s: Seq<char>) -> Option<nat> {
    let d = if s.len() > 0 && s[0] == '+' { s.skip(1) } else { s };
    if d.len() > 0 && all_digits(d) && digits_value(d) <= usize::MAX {
        Some(digits_value(d))
    } else {
        None
    }
}

/// Which partition `--partition` picks out of a device's partition names:
/// with no selection, the first partition where there is one, since a
/// partitioned device has no volume of its own; otherwise the first whose
/// name matches ignoring case, or failing that the one at that index.
/// Naming a partition on an image with no table is an error rather than a
/// silent fallback, and an unknown one names those that exist.
pub open spec fn selection(names: Seq<Seq<char>>, wanted: Option<Seq<char>>) -> Result<Option<int>, Seq<char>> {
    match wanted {
        None => if names.len() == 0 {
            Ok(None)
        } else {
            Ok(Some(0))
        },
        Some(w) => if names.len() == 0 {
            Err("no partition table, so no partition "@ + quoted(w))
        } else {
            match first_match(names, w, names.len() as int) {
                Some(i) => Ok(Some(i)),
                None => match parse_index(w) {
                    Some(n) => if n < names.len() {
                        Ok(Some(n as int))
                    } else {
                        Err("no partition "@ + quoted(w) + "; this device has "@ + crate::specs::joined(names))
                    },
                    None => Err("no partition "@ + quoted(w) + "; this device has "@ + crate::specs::joined(names)),
                },
            }
        },
    }
}

/// A longer run of digits spells at least as much as its prefix.
proof fn lemma_digits_grow(s: Seq<char>, k: int)
    requires
        0 <= k <= s.len(),
    ensures
        digits_value(s.take(k)) <= digits_value(s),
    decreases s.len(),
{
    if k < s.len() {
        assert(s.drop_last().take(k) =~= s.take(k));
        lemma_digits_grow(s.drop_last(), k);
    } else {
        assert(s.take(k) =~= s);
    }
}

/// Read a partition index.
fn read_index(s: &Vec<char>) -> (r: Option<usize>)
    ensures
        match (r, parse_index(s@)) {
            (Some(n), Some(m)) => n == m,
            (None, None) => true,
            _ => false,
        },
{
    let start: usize = if s.len() > 0 && s[0] == '+' { 1 } else { 0 };
    let ghost d = if s@.len() > 0 && s@[0] == '+' { s@.skip(1) } else { s@ };
    assert(d =~= s@.skip(start as int));
    if start >= s.len() {
        assert(d.len() == 0);
        return None;
    }
    let mut v: usize = 0;
    let mut i: usize = start;
    while i < s.len()
        invariant
            start <= i <= s@.len(),
            d == s@.skip(start as int),
            d == (if s@.len() > 0 && s@[0] == '+' { s@.skip(1) } else { s@ }),
            forall|j: int| 0 <= j < i - start ==> '0' <= #[trigger] d[j] <= '9',
            v == digits_value(d.take(i - start)),
        decreases s@.len() - i,
    {
        let c = s[i];
        if c < '0' || c > '9' {
            assert(!('0' <= d[i - start] <= '9'));
            assert(!all_digits(d));
            return None;
        }
        let w: u128 = (v as u128) * 10 + ((c as u32 - '0' as u32) as u128);
        assert(d.take(i - start + 1).drop_last() =~= d.take(i - start));
        if w > usize::MAX as u128 {
            proof {
                if all_digits(d) {
                    lemma_digits_grow(d, i - start + 1);
                }
            }
            return None;
        }
        v = w as usize;
        i = i + 1;
    }
    assert(d.take(i - start) =~= d);
    Some(v)
}

/// Pick the partition `--partition` names out of a device's partition names,
/// by index into them.
pub fn select_partition(names: &Vec<String>, wanted: Option<&str>) -> (r: Result<Option<usize>, String>)
    ensures
        match (r, selection(names@.map_values(|n: String| n@), match wanted {
            Some(w) => Some(w@),
            None => None,
        })) {
            (Ok(None), Ok(None)) => true,
            (Ok(Some(i)), Ok(Some(j))) => i == j,
            (Err(e), Err(m)) => e@ == m,
            _ => false,
        },
{
    match wanted {
        None => {
            if names.len() == 0 {
                Ok(None)
            } else {
                Ok(Some(0))
            }
        },
        Some(w) => select_named(names, w),
    }
}

/// Pick the partition named `w`, by name or failing that by index.
fn select_named(names: &Vec<String>, w: &str) -> (r: Result<Option<usize>, String>)
    ensures
        match (r, selection(names@.map_values(|n: String| n@), Some(w@))) {
            (Ok(None), Ok(None)) => true,
            (Ok(Some(i)), Ok(Some(j))) => i == j,
            (Err(e), Err(m)) => e@ == m,
            _ => false,
        },
{
    let ghost ns = names@.map_values(|n: String| n@);
    if names.len() == 0 {
        let mut e = String::new();
        push_str(&mut e, "no partition table, so no partition ");
        let q = quote(w);
        push_str(&mut e, q.as_str());
        return Err(e);
    }
    let wanted_lower = crate::convert::lowercase_chars(w);
    let mut i: usize = 0;
    while i < names.len()
        invariant
            i <= names@.len(),
            ns == names@.map_values(|n: String| n@),
            wanted_lower@ == crate::convert::ascii_lowercase(w@),
            first_match(ns, w@, i as int) is None,
        decreases names@.len() - i,
    {
        let lower = crate::convert::lowercase_chars(names[i].as_str());
        if vec_eq(&lower, &wanted_lower) {
            assert(first_match(ns, w@, i + 1) == Some(i as int));
            proof {
                lemma_first_match_stays(ns, w@, i + 1, ns.len() as int);
            }
            return Ok(Some(i));
        }
        i = i + 1;
    }
    let chars = chars_of(w);
    match read_index(&chars) {
        Some(n) => {
            if n < names.len() {
                return Ok(Some(n));
            }
        },
        None => {},
    }
    let mut e = String::new();
    push_str(&mut e, "no partition ");
    let q = quote(w);
    push_str(&mut e, q.as_str());
    push_str(&mut e, "; this device has ");
    let list = join_names(names);
    push_str(&mut e, list.as_str());
    Err(e)
}

/// Once found, the first match stays the first match.
proof fn lemma_first_match_stays(names: Seq<Seq<char>>, w: Seq<char>, m: int, n: int)
    requires
        0 <= m <= n,
        first_match(names, w, m) is Some,
    ensures
        first_match(names, w, n) == first_match(names, w, m),
    decreases n - m,
{
    if n > m {
        lemma_first_match_stays(names, w, m, n - 1);
    }
}

/// Whether two runs of characters are the same.
fn vec_eq(a: &Vec<char>, b: &Vec<char>) -> (r: bool)
    ensures
        r == (a@ == b@),
{
    if a.len() != b.len() {
        return false;
    }
    let mut i: usize = 0;
    while i < a.len()
        invariant
            a@.len() == b@.len(),
            i <= a@.len(),
            forall|j: int| 0 <= j < i ==> a@[j] == b@[j],
        decreases a@.len() - i,
    {
        if a[i] != b[i] {
            return false;
        }
        i = i + 1;
    }
    assert(a@ =~= b@);
    true
}

/// Names joined with ", ".
fn join_names(names: &Vec<String>) -> (r: String)
    ensures
        r@ == crate::specs::joined(names@.map_values(|n: String| n@)),
{
    let ghost ns = names@.map_values(|n: String| n@);
    let mut out = String::new();
    let mut k: usize = 0;
    while k < names.len()
        invariant
            k <= names@.len(),
            ns == names@.map_values(|n: String| n@),
            out@ == crate::specs::joined(ns.take(k as int)),
        decreases names@.len() - k,
    {
        if k > 0 {
            push_str(&mut out, ", ");
        }
        push_str(&mut out, names[k].as_str());
        proof {
            assert(ns.take(k + 1).drop_last() =~= ns.take(k as int));
            if k == 0 {
                assert(ns.take(1) =~= seq![ns[0]]);
            }
        }
        k = k + 1;
    }
    assert(ns.take(k as int) =~= ns);
    out
}

} // verus!

verus! {

/// How one fault reads in a text report.
pub open spec fn fault_line(f: (Seq<char>, Seq<char>)) -> Seq<char> {
    "    ! ["@ + f.0 + "] "@ + f.1
}

/// The text and JSON reports of an inspection agree on what is wrong with
/// the image, because both come from the one list of faults: the JSON's last
/// member is that list, each fault by its code and message; the text ends
/// with the same faults in the same order, one line each, and with "none"
/// exactly when the list is empty; and `info` exits with faults exactly when
/// there are some and there is a volume to have them.
pub proof fn lemma_text_and_json_agree_on_faults(path: Seq<char>, i: crate::inspect::Inspection)
    ensures
        ({
            let fs = crate::inspect::faults_of(crate::inspect::unknown_bits(i), crate::inspect::root_facts(i));
            let report = inspection_report(path, i);
            let json = crate::inspect::inspection_json(i)->Obj_0;
            &&& json.last() == (
                "faults"@,
                crate::json::JsonView::Arr(
                    fs.map_values(
                        |f: (Seq<char>, Seq<char>)|
                            crate::json::JsonView::Obj(
                                seq![
                                    ("code"@, crate::json::JsonView::Str(f.0)),
                                    ("message"@, crate::json::JsonView::Str(f.1)),
                                ],
                            ),
                    ),
                ),
            )
            &&& report.len() > fs.len()
            &&& forall|k: int| 0 <= k < fs.len() ==> #[trigger] report[report.len() - fs.len() + k] == fault_line(fs[k])
            &&& (fs.len() == 0 <==> report.last() == "  faults      none"@)
            &&& (info_exit(i) == EXIT_FAULTS <==> fs.len() > 0 && !(i.volume is None && i.partitions@.len() == 0))
        }),
{
    let fs = crate::inspect::faults_of(crate::inspect::unknown_bits(i), crate::inspect::root_facts(i));
    let report = inspection_report(path, i);
    let tail = fault_lines(fs);
    let head = report.subrange(0, report.len() - tail.len());
    assert(report =~= head + tail);
    if fs.len() > 0 {
        reveal_strlit("  faults      none");
        reveal_strlit("    ! [");
        let mapped = fs.map_values(|f: (Seq<char>, Seq<char>)| "    ! ["@ + f.0 + "] "@ + f.1);
        assert(tail =~= seq!["  faults"@] + mapped);
        assert forall|k: int| 0 <= k < fs.len() implies #[trigger] report[report.len() - fs.len() + k] == fault_line(fs[k]) by {
            assert(report[report.len() - fs.len() + k] == tail[tail.len() - fs.len() + k]);
            assert(tail[tail.len() - fs.len() + k] == mapped[k]);
        }
        let last = fault_line(fs.last());
        assert(report.last() == last) by {
            assert(report[report.len() - fs.len() + (fs.len() - 1)] == fault_line(fs[fs.len() - 1]));
        }
        assert(last[2] == ' ');
        assert("  faults      none"@[2] == 'f');
    }
}

} // verus!

verus! {

/// The exit code says what was found, not how it was rendered: `diff` exits
/// clean exactly when its JSON says the dumps are identical and its text
/// says so too, and `consolidate` exits clean exactly when its JSON says the
/// dumps were unanimous.
pub proof fn lemma_exit_code_matches_the_json(d: crate::consolidate::Diff, c: crate::consolidate::Consolidation)
    ensures
        crate::consolidate::diff_json(d)->Obj_0[0] == ("identical"@, crate::json::JsonView::Bool(d.bytes_differing == 0)),
        diff_exit(d) == EXIT_CLEAN <==> crate::consolidate::diff_json(d)->Obj_0[0].1 == crate::json::JsonView::Bool(true),
        diff_exit(d) == EXIT_CLEAN <==> diff_report(d).len() == 1,
        crate::consolidate::consolidation_json(c)->Obj_0[2] == (
            "unanimous"@,
            crate::json::JsonView::Bool(c.resolved_sectors == 0 && c.unresolved_sectors == 0),
        ),
        consolidation_exit(c) == EXIT_CLEAN <==> crate::consolidate::consolidation_json(c)->Obj_0[2].1
            == crate::json::JsonView::Bool(true),
{
}

} // verus!
