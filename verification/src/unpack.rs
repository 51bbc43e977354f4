//! Writing every file off a disk into a folder, and where an Amiga name
//! meets a filesystem that will not always take it.
//!
//! Names are decoded from Latin-1 and written as UTF-8. A NUL or control
//! character, a `/`, a name that is exactly `.` or `..`, and a literal `%`
//! are escaped as `%XX`, and the empty name is written as a lone `%`, which
//! no escape is; so the escaping stays reversible. Nothing is ever
//! overwritten: a target that already exists is skipped and reported.
use vstd::prelude::*;

use crate::text::{push_char, push_str};

verus! {

/// The upper-case hexadecimal digit for `d`.
pub open spec fn upper_digit(d: nat) -> char {
    if d < 10 {
        ((d + 0x30) as u32) as char
    } else {
        ((d - 10 + 0x41) as u32) as char
    }
}

/// `%XX` for a character below 0x80: its byte in upper-case hexadecimal.
pub open spec fn escaped(c: char) -> Seq<char> {
    seq!['%', upper_digit((c as u32 / 16) as nat), upper_digit((c as u32 % 16) as nat)]
}

/// Whether a character cannot stand in a host filename as it is: the path
/// separator, the escape character itself, and control characters.
pub open spec fn must_escape(c: char) -> bool {
    c == '/' || c == '%' || (c as u32) < 0x20 || (c as u32) == 0x7F
}

/// How one character of an ordinary name is written.
pub open spec fn host_char(c: char) -> Seq<char> {
    if must_escape(c) {
        escaped(c)
    } else {
        seq![c]
    }
}

/// The characters of a name, each written as `f` says.
pub open spec fn written(s: Seq<char>, f: spec_fn(char) -> Seq<char>) -> Seq<char>
    decreases s.len(),
{
    if s.len() == 0 {
        Seq::empty()
    } else {
        written(s.drop_last(), f) + f(s.last())
    }
}

/// The name to write an Amiga name under on this host.
pub open spec fn host_name_of(name: Seq<char>) -> Seq<char> {
    if name.len() == 0 {
        "%"@
    } else if name == "."@ || name == ".."@ {
        written(name, |c: char| escaped(c))
    } else {
        written(name, |c: char| host_char(c))
    }
}

/// The upper-case hexadecimal digit for `d`.
fn upper_hex_char(d: u32) -> (c: char)
    requires
        d < 16,
    ensures
        c == upper_digit(d as nat),
{
    let table: [char; 16] = [
        '0', '1', '2', '3', '4', '5', '6', '7', '8', '9', 'A', 'B', 'C', 'D', 'E', 'F',
    ];
    let c = table[d as usize];
    proof {
        assert(table@[d as int] == upper_digit(d as nat));
    }
    c
}

/// Append `%XX` for a character's Latin-1 byte.
fn escape(out: &mut String, ch: char)
    requires
        (ch as u32) < 0x80,
    ensures
        final(out)@ == old(out)@ + escaped(ch),
{
    let ghost start = out@;
    let code = ch as u32;
    push_char(out, '%');
    push_char(out, upper_hex_char(code / 16));
    push_char(out, upper_hex_char(code % 16));
    assert(out@ =~= start + escaped(ch));
}

/// The name to write an Amiga name under on this host.
///
/// Takes a name already decoded from Latin-1. What comes back is UTF-8, with
/// anything that cannot be a filename escaped as `%XX` of its byte, and the
/// empty name written as a lone `%`. The escape is reversible, `%` being
/// escaped too and every escape three characters long, which matters
/// because for a file taken off a disk this is the only record of what its
/// name was.
pub fn host_name(name: &str) -> (r: String)
    ensures
        r@ == host_name_of(name@),
{
    broadcast use vstd::string::group_string_axioms;
    let chars = crate::batch::chars_of(name);
    let mut out = String::new();
    if chars.len() == 0 {
        push_str(&mut out, "%");
        return out;
    }
    let dots = (chars.len() == 1 && chars[0] == '.') || (chars.len() == 2 && chars[0] == '.' && chars[1] == '.');
    proof {
        reveal_strlit(".");
        reveal_strlit("..");
        if chars@ == "."@ || chars@ == ".."@ {
            assert(dots);
        }
        if dots {
            if chars.len() == 1 {
                assert(chars@ =~= "."@);
            } else {
                assert(chars@ =~= ".."@);
            }
        }
    }
    let mut i: usize = 0;
    while i < chars.len()
        invariant
            i <= chars@.len(),
            chars@ == name@,
            dots == (name@ == "."@ || name@ == ".."@),
            dots ==> forall|j: int| 0 <= j < chars@.len() ==> chars@[j] == '.',
            out@ == if dots {
                written(chars@.take(i as int), |c: char| escaped(c))
            } else {
                written(chars@.take(i as int), |c: char| host_char(c))
            },
        decreases chars@.len() - i,
    {
        let ch = chars[i];
        let code = ch as u32;
        if dots || ch == '/' || ch == '%' || code < 0x20 || code == 0x7F {
            escape(&mut out, ch);
        } else {
            push_char(&mut out, ch);
        }
        assert(chars@.take(i + 1).drop_last() =~= chars@.take(i as int));
        i = i + 1;
    }
    assert(chars@.take(i as int) =~= chars@);
    out
}

/// A file that was not written, and why.
#[derive(Debug, Clone)]
pub struct Skipped {
    /// The path on the disk.
    pub path: String,
    /// Why it was not written.
    pub reason: String,
}

/// What an unpack did.
#[derive(Debug, Clone)]
pub struct Unpacked {
    /// Files written.
    pub files: u64,
    /// Directories created.
    pub directories: u64,
    /// Bytes written.
    pub bytes: u64,
    /// Everything that was not written, and why.
    pub skipped: Vec<Skipped>,
}

impl Unpacked {
    /// Nothing written yet.
    pub fn new() -> (u: Unpacked)
        ensures
            u.files == 0 && u.directories == 0 && u.bytes == 0 && u.skipped@.len() == 0,
    {
        Unpacked { files: 0, directories: 0, bytes: 0, skipped: Vec::new() }
    }

    /// One directory created.
    pub fn made_directory(&mut self)
        ensures
            final(self).directories == if old(self).directories == u64::MAX {
                u64::MAX
            } else {
                (old(self).directories + 1) as u64
            },
            final(self).files == old(self).files && final(self).bytes == old(self).bytes,
            final(self).skipped == old(self).skipped,
    {
        if self.directories < u64::MAX {
            self.directories = self.directories + 1;
        }
    }

    /// One file of `size` bytes written.
    pub fn wrote_file(&mut self, size: u64)
        ensures
            final(self).files == if old(self).files == u64::MAX {
                u64::MAX
            } else {
                (old(self).files + 1) as u64
            },
            final(self).bytes == if old(self).bytes > u64::MAX - size {
                u64::MAX
            } else {
                (old(self).bytes + size) as u64
            },
            final(self).directories == old(self).directories,
            final(self).skipped == old(self).skipped,
    {
        if self.files < u64::MAX {
            self.files = self.files + 1;
        }
        self.bytes = if self.bytes > u64::MAX - size {
            u64::MAX
        } else {
            self.bytes + size
        };
    }

    /// One path not written, and why.
    pub fn skip(&mut self, path: String, reason: String)
        ensures
            final(self).skipped@ == old(self).skipped@.push(Skipped { path, reason }),
            final(self).files == old(self).files,
            final(self).directories == old(self).directories,
            final(self).bytes == old(self).bytes,
    {
        self.skipped.push(Skipped { path, reason });
    }
}

/// What a walk found at one path, as far as unpacking cares.
#[derive(Debug, Clone, Copy, PartialEq, Eq, Structural)]
pub enum EntryClass {
    /// A directory: created, even when it holds nothing.
    Directory,
    /// A file with data of its own.
    File,
    /// A hard link to a file: it holds no data of its own, and is read
    /// through the file it names.
    LinkedFile,
    /// Anything else: nothing is written for it.
    Other,
}

/// Whether an entry is created as a directory.
pub open spec fn is_directory(c: EntryClass) -> bool {
    c is Directory
}

/// Whether an entry is written as a file.
pub open spec fn is_file(c: EntryClass) -> bool {
    c is File || c is LinkedFile
}

/// The positions among the first `m` entries that `p` picks, in walk order.
pub open spec fn picked(kinds: Seq<EntryClass>, p: spec_fn(EntryClass) -> bool, m: int) -> Seq<usize>
    decreases m,
{
    if m <= 0 {
        Seq::empty()
    } else if p(kinds[m - 1]) {
        picked(kinds, p, m - 1).push((m - 1) as usize)
    } else {
        picked(kinds, p, m - 1)
    }
}

/// The order entries are unpacked in: every directory first, in walk order,
/// so a file never has to create its own parent and an empty drawer is still
/// recovered; then every file, in walk order.
pub open spec fn unpack_order_of(kinds: Seq<EntryClass>) -> Seq<usize> {
    picked(kinds, |c: EntryClass| is_directory(c), kinds.len() as int) + picked(
        kinds,
        |c: EntryClass| is_file(c),
        kinds.len() as int,
    )
}

/// The positions of the entries `p` picks, in walk order.
fn pick(kinds: &Vec<EntryClass>, directories: bool) -> (r: Vec<usize>)
    ensures
        directories ==> r@ == picked(kinds@, |c: EntryClass| is_directory(c), kinds@.len() as int),
        !directories ==> r@ == picked(kinds@, |c: EntryClass| is_file(c), kinds@.len() as int),
{
    let ghost p: spec_fn(EntryClass) -> bool = if directories {
        |c: EntryClass| is_directory(c)
    } else {
        |c: EntryClass| is_file(c)
    };
    let mut out: Vec<usize> = Vec::new();
    let mut i: usize = 0;
    while i < kinds.len()
        invariant
            i <= kinds@.len(),
            p == (if directories {
                |c: EntryClass| is_directory(c)
            } else {
                |c: EntryClass| is_file(c)
            }),
            out@ == picked(kinds@, p, i as int),
        decreases kinds@.len() - i,
    {
        let k = kinds[i];
        let wanted = if directories {
            match k {
                EntryClass::Directory => true,
                _ => false,
            }
        } else {
            match k {
                EntryClass::File | EntryClass::LinkedFile => true,
                _ => false,
            }
        };
        if wanted {
            out.push(i);
        }
        i = i + 1;
    }
    out
}

/// The order to unpack a walk's entries in, as positions in the walk.
pub fn unpack_order(kinds: &Vec<EntryClass>) -> (o: Vec<usize>)
    ensures
        o@ == unpack_order_of(kinds@),
{
    let mut o = pick(kinds, true);
    let mut files = pick(kinds, false);
    o.append(&mut files);
    o
}

/// What came of one step of an unpack.
#[derive(Debug, Clone)]
pub enum UnpackEvent {
    /// The volume could not be walked, and why: nothing was written.
    Unwalkable(String),
    /// The directory was created.
    MadeDirectory,
    /// The file was written, so many bytes of it.
    Wrote(u64),
    /// A hard link whose file could not be found, and why.
    Unresolved(String),
    /// The target, at this host path, already exists: nothing is overwritten.
    Exists(String),
    /// It could not be read, created or written, and why.
    Failed(String),
}

/// Why a step wrote nothing, when it did not.
pub open spec fn skip_reason(e: UnpackEvent) -> Option<Seq<char>> {
    match e {
        UnpackEvent::Unwalkable(why) => Some("the volume could not be walked: "@ + why@),
        UnpackEvent::MadeDirectory => None,
        UnpackEvent::Wrote(_) => None,
        UnpackEvent::Unresolved(why) => Some("link could not be resolved: "@ + why@),
        UnpackEvent::Exists(target) => Some(target@ + " already exists"@),
        UnpackEvent::Failed(why) => Some(why@),
    }
}

/// One more, stopping at the largest `u64`.
pub open spec fn inc(n: u64) -> u64 {
    if n == u64::MAX {
        u64::MAX
    } else {
        (n + 1) as u64
    }
}

/// `n + k`, stopping at the largest `u64`.
pub open spec fn add_sat(n: u64, k: u64) -> u64 {
    if n > u64::MAX - k {
        u64::MAX
    } else {
        (n + k) as u64
    }
}

/// The tallies after one step of an unpack at `path`: a directory or a file
/// counted, or the path skipped with its reason.
pub fn unpack_step(u: Unpacked, path: String, event: UnpackEvent) -> (n: Unpacked)
    ensures
        n.directories == if event is MadeDirectory { inc(u.directories) } else { u.directories },
        n.files == if event is Wrote { inc(u.files) } else { u.files },
        n.bytes == match event {
            UnpackEvent::Wrote(size) => add_sat(u.bytes, size),
            _ => u.bytes,
        },
        match skip_reason(event) {
            None => n.skipped@ == u.skipped@,
            Some(reason) => {
                &&& n.skipped@.len() == u.skipped@.len() + 1
                &&& n.skipped@.take(u.skipped@.len() as int) == u.skipped@
                &&& n.skipped@.last().path == path
                &&& n.skipped@.last().reason@ == reason
            },
        },
{
    let mut n = u;
    match event {
        UnpackEvent::Unwalkable(why) => {
            let mut reason = String::new();
            push_str(&mut reason, "the volume could not be walked: ");
            push_str(&mut reason, why.as_str());
            n.skip(path, reason);
        },
        UnpackEvent::MadeDirectory => n.made_directory(),
        UnpackEvent::Wrote(size) => n.wrote_file(size),
        UnpackEvent::Unresolved(why) => {
            let mut reason = String::new();
            push_str(&mut reason, "link could not be resolved: ");
            push_str(&mut reason, why.as_str());
            n.skip(path, reason);
        },
        UnpackEvent::Exists(target) => {
            let mut reason = target;
            push_str(&mut reason, " already exists");
            n.skip(path, reason);
        },
        UnpackEvent::Failed(why) => n.skip(path, why),
    }
    n
}

/// The pieces of an Amiga path, in order, with empty ones dropped.
pub open spec fn pieces(s: Seq<char>) -> Seq<Seq<char>> {
    let (done, cur) = split_state(s);
    if cur.len() > 0 {
        done.push(cur)
    } else {
        done
    }
}

/// Scanning a path: the pieces finished so far, and the one in progress.
pub open spec fn split_state(s: Seq<char>) -> (Seq<Seq<char>>, Seq<char>)
    decreases s.len(),
{
    if s.len() == 0 {
        (Seq::empty(), Seq::empty())
    } else {
        let (done, cur) = split_state(s.drop_last());
        if s.last() == '/' {
            (if cur.len() > 0 {
                done.push(cur)
            } else {
                done
            }, Seq::empty())
        } else {
            (done, cur.push(s.last()))
        }
    }
}

/// An Amiga path as host names, one sanitised piece at a time: the
/// separators are the one thing that must survive, and the names the one
/// thing that must not be trusted.
pub fn host_components(path: &str) -> (r: Vec<String>)
    ensures
        r@.map_values(|s: String| s@) == pieces(path@).map_values(|p: Seq<char>| host_name_of(p)),
{
    let chars = crate::batch::chars_of(path);
    let mut done: Vec<String> = Vec::new();
    let mut cur = String::new();
    let mut cur_len: usize = 0;
    let mut i: usize = 0;
    while i < chars.len()
        invariant
            i <= chars@.len(),
            chars@ == path@,
            cur_len == cur@.len(),
            cur_len <= i,
            done@.map_values(|s: String| s@) == split_state(chars@.take(i as int)).0.map_values(
                |p: Seq<char>| host_name_of(p),
            ),
            cur@ == split_state(chars@.take(i as int)).1,
        decreases chars@.len() - i,
    {
        let ch = chars[i];
        assert(chars@.take(i + 1).drop_last() =~= chars@.take(i as int));
        if ch == '/' {
            if cur_len > 0 {
                let ghost before = done@;
                let piece = host_name(cur.as_str());
                done.push(piece);
                assert(done@.map_values(|s: String| s@) =~= before.map_values(|s: String| s@).push(
                    host_name_of(cur@),
                ));
            }
            cur = String::new();
            cur_len = 0;
        } else {
            push_char(&mut cur, ch);
            cur_len = cur_len + 1;
        }
        i = i + 1;
    }
    assert(chars@.take(i as int) =~= chars@);
    if cur_len > 0 {
        let ghost before = done@;
        let piece = host_name(cur.as_str());
        done.push(piece);
        assert(done@.map_values(|s: String| s@) =~= before.map_values(|s: String| s@).push(
            host_name_of(cur@),
        ));
    }
    done
}


/// The value of an upper-case hexadecimal digit.
pub open spec fn digit_value(c: char) -> nat {
    if '0' <= c <= '9' {
        (c as u32 - 0x30) as nat
    } else {
        (c as u32 - 0x41 + 10) as nat
    }
}

/// A host name read back: every `%XX` becomes the character it stands for.
pub open spec fn unescape(s: Seq<char>) -> Seq<char>
    decreases s.len(),
{
    if s.len() == 0 {
        Seq::empty()
    } else if s.len() >= 3 && s[s.len() - 3] == '%' {
        unescape(s.take(s.len() - 3)).push(
            ((digit_value(s[s.len() - 2]) * 16 + digit_value(s[s.len() - 1])) as u32) as char,
        )
    } else {
        unescape(s.drop_last()).push(s.last())
    }
}

/// No `%` sits in the last two places: every one begins a whole escape.
pub open spec fn escapes_whole(s: Seq<char>) -> bool {
    forall|i: int| 0 <= i < s.len() && s.len() - 2 <= i ==> s[i] != '%'
}

proof fn lemma_digit(d: nat)
    requires
        d < 16,
    ensures
        digit_value(upper_digit(d)) == d,
        upper_digit(d) != '%',
{
}

proof fn lemma_escape_reads_back(w: Seq<char>, c: char)
    requires
        (c as u32) < 0x80,
    ensures
        unescape(w + escaped(c)) == unescape(w).push(c),
        escapes_whole(w + escaped(c)),
{
    let s = w + escaped(c);
    let code = c as u32;
    lemma_digit((code / 16) as nat);
    lemma_digit((code % 16) as nat);
    assert(s.take(s.len() - 3) =~= w);
    assert(s[s.len() - 3] == '%');
    assert(((code / 16) * 16 + code % 16) == code);
    assert((((code / 16) * 16 + code % 16) as u32) as char == c);
}

/// Whether `f` writes `c` as an escape or as itself, so it can be read back.
pub open spec fn readable(f: spec_fn(char) -> Seq<char>, c: char) -> bool {
    f(c) == escaped(c) && (c as u32) < 0x80 || f(c) == seq![c] && c != '%'
}

/// Each piece of a host name reads back as the character it came from.
proof fn lemma_written_reads_back(name: Seq<char>, f: spec_fn(char) -> Seq<char>)
    requires
        forall|i: int| 0 <= i < name.len() ==> readable(f, #[trigger] name[i]),
    ensures
        unescape(written(name, f)) == name,
        escapes_whole(written(name, f)),
    decreases name.len(),
{
    if name.len() > 0 {
        let init = name.drop_last();
        let c = name.last();
        assert forall|i: int| 0 <= i < init.len() implies readable(f, #[trigger] init[i]) by {
            assert(init[i] == name[i]);
        }
        assert(readable(f, name[name.len() - 1]));
        lemma_written_reads_back(init, f);
        let w = written(init, f);
        if f(c) == escaped(c) && (c as u32) < 0x80 {
            lemma_escape_reads_back(w, c);
        } else {
            let s = w + seq![c];
            assert(s.drop_last() =~= w);
            if s.len() >= 3 {
                assert(s[s.len() - 3] == w[w.len() - 2]);
            }
        }
        assert(name =~= init.push(c));
    }
}

/// A host name read back into the Amiga name: a lone `%` is the empty name,
/// and otherwise every `%XX` becomes the character it stands for.
pub open spec fn read_back(s: Seq<char>) -> Seq<char> {
    if s == seq!['%'] {
        Seq::empty()
    } else {
        unescape(s)
    }
}

/// The escaping is reversible: reading a host name back gives the Amiga name
/// it was made from, for every name.
pub proof fn lemma_host_name_reversible(name: Seq<char>)
    ensures
        read_back(host_name_of(name)) == name,
{
    reveal_strlit("%");
    reveal_strlit(".");
    reveal_strlit("..");
    if name.len() == 0 {
        assert("%"@ =~= seq!['%']);
        assert(name =~= Seq::<char>::empty());
    } else {
        let f = if name == "."@ || name == ".."@ {
            |c: char| escaped(c)
        } else {
            |c: char| host_char(c)
        };
        if name == "."@ || name == ".."@ {
            assert forall|i: int| 0 <= i < name.len() implies readable(f, #[trigger] name[i]) by {
                assert(name[i] == '.');
            }
        } else {
            assert forall|i: int| 0 <= i < name.len() implies readable(f, #[trigger] name[i]) by {}
        }
        lemma_written_reads_back(name, f);
        let w = written(name, f);
        assert(w == host_name_of(name));
        if w == seq!['%'] {
            assert(escapes_whole(w));
            assert(w[0] == '%');
        }
    }
}

/// Different names are written under different host names, so no file taken
/// off a disk lands on another's name.
pub proof fn lemma_host_names_distinct(a: Seq<char>, b: Seq<char>)
    requires
        a != b,
    ensures
        host_name_of(a) != host_name_of(b),
{
    lemma_host_name_reversible(a);
    lemma_host_name_reversible(b);
}


/// Whether items are paired with their own paths as keys.
pub open spec fn keyed_by_path(ps: Seq<(Vec<char>, Skipped)>, items: Seq<Skipped>) -> bool {
    &&& ps.len() == items.len()
    &&& forall|i: int| 0 <= i < ps.len() ==> #[trigger] ps[i].1 == items[i] && ps[i].0@ == items[i].path@
}

/// The skipped paths in path order, so a report over a damaged disk reads
/// the same every time.
pub fn sort_skipped(skipped: Vec<Skipped>) -> (r: Vec<Skipped>)
    ensures
        exists|ps: Seq<(Vec<char>, Skipped)>|
            keyed_by_path(ps, skipped@) && r@ == crate::order::sorted_by_key(ps).map_values(
                |p: (Vec<char>, Skipped)| p.1,
            ),
{
    let ghost all = skipped@;
    let mut rest = skipped;
    let mut pairs: Vec<(Vec<char>, Skipped)> = Vec::new();
    let ghost mut done: int = 0;
    while rest.len() > 0
        invariant
            0 <= done <= all.len(),
            rest@ == all.subrange(done, all.len() as int),
            keyed_by_path(pairs@, all.take(done)),
        decreases rest@.len(),
    {
        let item = rest.remove(0);
        proof {
            assert(item == all[done]);
            assert(rest@ =~= all.subrange(done + 1, all.len() as int));
        }
        let key = crate::batch::chars_of(item.path.as_str());
        pairs.push((key, item));
        proof {
            done = done + 1;
            assert forall|i: int| 0 <= i < pairs@.len() implies #[trigger] pairs@[i].1 == all.take(done)[i]
                && pairs@[i].0@ == all.take(done)[i].path@ by {
                if i < done - 1 {
                    assert(all.take(done)[i] == all.take(done - 1)[i]);
                }
            }
        }
    }
    assert(all.take(done) =~= all);
    let ghost ps = pairs@;
    let sorted = crate::order::sort_by_key(pairs);
    let mut out: Vec<Skipped> = Vec::new();
    let mut rest2 = sorted;
    let ghost sorted_all = rest2@;
    let ghost mut k: int = 0;
    while rest2.len() > 0
        invariant
            0 <= k <= sorted_all.len(),
            rest2@ == sorted_all.subrange(k, sorted_all.len() as int),
            out@ == sorted_all.take(k).map_values(|p: (Vec<char>, Skipped)| p.1),
        decreases rest2@.len(),
    {
        let pair = rest2.remove(0);
        proof {
            assert(pair == sorted_all[k]);
            assert(rest2@ =~= sorted_all.subrange(k + 1, sorted_all.len() as int));
        }
        out.push(pair.1);
        proof {
            k = k + 1;
            assert(out@ =~= sorted_all.take(k).map_values(|p: (Vec<char>, Skipped)| p.1));
        }
    }
    assert(sorted_all.take(k) =~= sorted_all);
    assert(keyed_by_path(ps, all));
    out
}

} // verus!
