//! Workspace-wide function index and BR source-file conventions.
//!
//! The index maps case-insensitive function names to every known definition
//! across the workspace, with a priority order relative to the asking file.
//! This module also holds the CP437 decoding table and the file-extension
//! conventions for BR sources.

use vstd::prelude::*;
use vstd::seq_lib::*;
use vstd::string::*;

use crate::extract::FunctionDef;
use crate::text::{eq_ignore_case, lower_seq, push_char, str_eq};

verus! {

// ---------------------------------------------------------------------------
// CP437 decoding
// ---------------------------------------------------------------------------

/// The fixed CP437 high-byte table: what each byte 128..=255 decodes to.
pub open spec fn cp437_high(b: u8) -> char {
    match b {
        128u8 => '\u{00C7}',
        129u8 => '\u{00FC}',
        130u8 => '\u{00E9}',
        131u8 => '\u{00E2}',
        132u8 => '\u{00E4}',
        133u8 => '\u{00E0}',
        134u8 => '\u{00E5}',
        135u8 => '\u{00E7}',
        136u8 => '\u{00EA}',
        137u8 => '\u{00EB}',
        138u8 => '\u{00E8}',
        139u8 => '\u{00EF}',
        140u8 => '\u{00EE}',
        141u8 => '\u{00EC}',
        142u8 => '\u{00C4}',
        143u8 => '\u{00C5}',
        144u8 => '\u{00C9}',
        145u8 => '\u{00E6}',
        146u8 => '\u{00C6}',
        147u8 => '\u{00F4}',
        148u8 => '\u{00F6}',
        149u8 => '\u{00F2}',
        150u8 => '\u{00FB}',
        151u8 => '\u{00F9}',
        152u8 => '\u{00FF}',
        153u8 => '\u{00D6}',
        154u8 => '\u{00DC}',
        155u8 => '\u{00A2}',
        156u8 => '\u{00A3}',
        157u8 => '\u{00A5}',
        158u8 => '\u{20A7}',
        159u8 => '\u{0192}',
        160u8 => '\u{00E1}',
        161u8 => '\u{00ED}',
        162u8 => '\u{00F3}',
        163u8 => '\u{00FA}',
        164u8 => '\u{00F1}',
        165u8 => '\u{00D1}',
        166u8 => '\u{00AA}',
        167u8 => '\u{00BA}',
        168u8 => '\u{00BF}',
        169u8 => '\u{2310}',
        170u8 => '\u{00AC}',
        171u8 => '\u{00BD}',
        172u8 => '\u{00BC}',
        173u8 => '\u{00A1}',
        174u8 => '\u{00AB}',
        175u8 => '\u{00BB}',
        176u8 => '\u{2591}',
        177u8 => '\u{2592}',
        178u8 => '\u{2593}',
        179u8 => '\u{2502}',
        180u8 => '\u{2524}',
        181u8 => '\u{2561}',
        182u8 => '\u{2562}',
        183u8 => '\u{2556}',
        184u8 => '\u{2555}',
        185u8 => '\u{2563}',
        186u8 => '\u{2551}',
        187u8 => '\u{2557}',
        188u8 => '\u{255D}',
        189u8 => '\u{255C}',
        190u8 => '\u{255B}',
        191u8 => '\u{2510}',
        192u8 => '\u{2514}',
        193u8 => '\u{2534}',
        194u8 => '\u{252C}',
        195u8 => '\u{251C}',
        196u8 => '\u{2500}',
        197u8 => '\u{253C}',
        198u8 => '\u{255E}',
        199u8 => '\u{255F}',
        200u8 => '\u{255A}',
        201u8 => '\u{2554}',
        202u8 => '\u{2569}',
        203u8 => '\u{2566}',
        204u8 => '\u{2560}',
        205u8 => '\u{2550}',
        206u8 => '\u{256C}',
        207u8 => '\u{2567}',
        208u8 => '\u{2568}',
        209u8 => '\u{2564}',
        210u8 => '\u{2565}',
        211u8 => '\u{2559}',
        212u8 => '\u{2558}',
        213u8 => '\u{2552}',
        214u8 => '\u{2553}',
        215u8 => '\u{256B}',
        216u8 => '\u{256A}',
        217u8 => '\u{2518}',
        218u8 => '\u{250C}',
        219u8 => '\u{2588}',
        220u8 => '\u{2584}',
        221u8 => '\u{258C}',
        222u8 => '\u{2590}',
        223u8 => '\u{2580}',
        224u8 => '\u{03B1}',
        225u8 => '\u{00DF}',
        226u8 => '\u{0393}',
        227u8 => '\u{03C0}',
        228u8 => '\u{03A3}',
        229u8 => '\u{03C3}',
        230u8 => '\u{00B5}',
        231u8 => '\u{03C4}',
        232u8 => '\u{03A6}',
        233u8 => '\u{0398}',
        234u8 => '\u{03A9}',
        235u8 => '\u{03B4}',
        236u8 => '\u{221E}',
        237u8 => '\u{03C6}',
        238u8 => '\u{03B5}',
        239u8 => '\u{2229}',
        240u8 => '\u{2261}',
        241u8 => '\u{00B1}',
        242u8 => '\u{2265}',
        243u8 => '\u{2264}',
        244u8 => '\u{2320}',
        245u8 => '\u{2321}',
        246u8 => '\u{00F7}',
        247u8 => '\u{2248}',
        248u8 => '\u{00B0}',
        249u8 => '\u{2219}',
        250u8 => '\u{00B7}',
        251u8 => '\u{221A}',
        252u8 => '\u{207F}',
        253u8 => '\u{00B2}',
        254u8 => '\u{25A0}',
        255u8 => '\u{00A0}',
        _ => ' ',
    }
}

/// What one CP437 byte decodes to: ASCII below 128, the fixed table above.
pub open spec fn spec_cp437(b: u8) -> char {
    if b < 128 {
        b as char
    } else {
        cp437_high(b)
    }
}

#[verifier::rlimit(40)]
fn cp437_high_exec(b: u8) -> (c: char)
    requires
        b >= 128,
    ensures
        c == cp437_high(b),
{
    match b {
        128u8 => '\u{00C7}',
        129u8 => '\u{00FC}',
        130u8 => '\u{00E9}',
        131u8 => '\u{00E2}',
        132u8 => '\u{00E4}',
        133u8 => '\u{00E0}',
        134u8 => '\u{00E5}',
        135u8 => '\u{00E7}',
        136u8 => '\u{00EA}',
        137u8 => '\u{00EB}',
        138u8 => '\u{00E8}',
        139u8 => '\u{00EF}',
        140u8 => '\u{00EE}',
        141u8 => '\u{00EC}',
        142u8 => '\u{00C4}',
        143u8 => '\u{00C5}',
        144u8 => '\u{00C9}',
        145u8 => '\u{00E6}',
        146u8 => '\u{00C6}',
        147u8 => '\u{00F4}',
        148u8 => '\u{00F6}',
        149u8 => '\u{00F2}',
        150u8 => '\u{00FB}',
        151u8 => '\u{00F9}',
        152u8 => '\u{00FF}',
        153u8 => '\u{00D6}',
        154u8 => '\u{00DC}',
        155u8 => '\u{00A2}',
        156u8 => '\u{00A3}',
        157u8 => '\u{00A5}',
        158u8 => '\u{20A7}',
        159u8 => '\u{0192}',
        160u8 => '\u{00E1}',
        161u8 => '\u{00ED}',
        162u8 => '\u{00F3}',
        163u8 => '\u{00FA}',
        164u8 => '\u{00F1}',
        165u8 => '\u{00D1}',
        166u8 => '\u{00AA}',
        167u8 => '\u{00BA}',
        168u8 => '\u{00BF}',
        169u8 => '\u{2310}',
        170u8 => '\u{00AC}',
        171u8 => '\u{00BD}',
        172u8 => '\u{00BC}',
        173u8 => '\u{00A1}',
        174u8 => '\u{00AB}',
        175u8 => '\u{00BB}',
        176u8 => '\u{2591}',
        177u8 => '\u{2592}',
        178u8 => '\u{2593}',
        179u8 => '\u{2502}',
        180u8 => '\u{2524}',
        181u8 => '\u{2561}',
        182u8 => '\u{2562}',
        183u8 => '\u{2556}',
        184u8 => '\u{2555}',
        185u8 => '\u{2563}',
        186u8 => '\u{2551}',
        187u8 => '\u{2557}',
        188u8 => '\u{255D}',
        189u8 => '\u{255C}',
        190u8 => '\u{255B}',
        191u8 => '\u{2510}',
        192u8 => '\u{2514}',
        193u8 => '\u{2534}',
        194u8 => '\u{252C}',
        195u8 => '\u{251C}',
        196u8 => '\u{2500}',
        197u8 => '\u{253C}',
        198u8 => '\u{255E}',
        199u8 => '\u{255F}',
        200u8 => '\u{255A}',
        201u8 => '\u{2554}',
        202u8 => '\u{2569}',
        203u8 => '\u{2566}',
        204u8 => '\u{2560}',
        205u8 => '\u{2550}',
        206u8 => '\u{256C}',
        207u8 => '\u{2567}',
        208u8 => '\u{2568}',
        209u8 => '\u{2564}',
        210u8 => '\u{2565}',
        211u8 => '\u{2559}',
        212u8 => '\u{2558}',
        213u8 => '\u{2552}',
        214u8 => '\u{2553}',
        215u8 => '\u{256B}',
        216u8 => '\u{256A}',
        217u8 => '\u{2518}',
        218u8 => '\u{250C}',
        219u8 => '\u{2588}',
        220u8 => '\u{2584}',
        221u8 => '\u{258C}',
        222u8 => '\u{2590}',
        223u8 => '\u{2580}',
        224u8 => '\u{03B1}',
        225u8 => '\u{00DF}',
        226u8 => '\u{0393}',
        227u8 => '\u{03C0}',
        228u8 => '\u{03A3}',
        229u8 => '\u{03C3}',
        230u8 => '\u{00B5}',
        231u8 => '\u{03C4}',
        232u8 => '\u{03A6}',
        233u8 => '\u{0398}',
        234u8 => '\u{03A9}',
        235u8 => '\u{03B4}',
        236u8 => '\u{221E}',
        237u8 => '\u{03C6}',
        238u8 => '\u{03B5}',
        239u8 => '\u{2229}',
        240u8 => '\u{2261}',
        241u8 => '\u{00B1}',
        242u8 => '\u{2265}',
        243u8 => '\u{2264}',
        244u8 => '\u{2320}',
        245u8 => '\u{2321}',
        246u8 => '\u{00F7}',
        247u8 => '\u{2248}',
        248u8 => '\u{00B0}',
        249u8 => '\u{2219}',
        250u8 => '\u{00B7}',
        251u8 => '\u{221A}',
        252u8 => '\u{207F}',
        253u8 => '\u{00B2}',
        254u8 => '\u{25A0}',
        255u8 => '\u{00A0}',
        _ => ' ',
    }
}

/// Decode one CP437 byte.
pub fn cp437_to_char(b: u8) -> (c: char)
    ensures
        c == spec_cp437(b),
        b < 128 ==> c == b as char,
{
    if b < 128 {
        b as char
    } else {
        cp437_high_exec(b)
    }
}

/// The decoded form of a CP437 byte string: every byte through the table,
/// with the DOS end-of-file byte `0x1A` dropped entirely.
pub open spec fn spec_decode_cp437(bytes: Seq<u8>) -> Seq<char> {
    bytes.filter(|b: u8| b != 0x1a).map_values(|b: u8| spec_cp437(b))
}

/// Decode a whole CP437 byte string, skipping `0x1A` (DOS end-of-file).
pub fn decode_cp437(bytes: &[u8]) -> (r: String)
    ensures
        r@ == spec_decode_cp437(bytes@),
{
    let n = bytes.len();
    let mut out = String::new();
    let mut i: usize = 0;
    while i < n
        invariant
            n == bytes@.len(),
            i <= n,
            out@ == spec_decode_cp437(bytes@.subrange(0, i as int)),
        decreases n - i,
    {
        let b = bytes[i];
        let ghost pred = |x: u8| x != 0x1a;
        let ghost pre = bytes@.subrange(0, i as int);
        let ghost cur = bytes@.subrange(0, i + 1);
        proof {
            assert(cur =~= pre.push(b));
            lemma_filter_push(pre, b, pred);
        }
        if b != 0x1a {
            push_char(&mut out, cp437_to_char(b));
            proof {
                assert(cur.filter(pred) == pre.filter(pred).push(b));
                assert(spec_decode_cp437(cur) =~= spec_decode_cp437(pre).push(spec_cp437(b)));
            }
        } else {
            proof {
                assert(cur.filter(pred) == pre.filter(pred));
                assert(spec_decode_cp437(cur) =~= spec_decode_cp437(pre));
            }
        }
        i += 1;
    }
    proof {
        assert(bytes@.subrange(0, n as int) =~= bytes@);
    }
    out
}

/// `filter` over a sequence extended by one element.
pub proof fn lemma_filter_push<A>(s: Seq<A>, e: A, pred: spec_fn(A) -> bool)
    ensures
        s.push(e).filter(pred) == if pred(e) {
            s.filter(pred).push(e)
        } else {
            s.filter(pred)
        },
{
    reveal(Seq::filter);
    assert(s.push(e).drop_last() =~= s);
    assert(s.push(e).last() == e);
}

// ---------------------------------------------------------------------------
// File-name conventions
// ---------------------------------------------------------------------------

/// Index of the last occurrence of `c` in `s`, or `-1` when absent.
pub open spec fn spec_last_index_of(s: Seq<char>, c: char) -> int
    decreases s.len(),
{
    if s.len() == 0 {
        -1
    } else if s.last() == c {
        s.len() - 1
    } else {
        spec_last_index_of(s.drop_last(), c)
    }
}

pub proof fn lemma_last_index_of_bounds(s: Seq<char>, c: char)
    ensures
        -1 <= spec_last_index_of(s, c) < s.len(),
    decreases s.len(),
{
    if s.len() > 0 && s.last() != c {
        lemma_last_index_of_bounds(s.drop_last(), c);
    }
}

/// Scan for the last occurrence of `c`.
pub fn last_index_of(s: &str, c: char) -> (r: Option<usize>)
    ensures
        r matches Some(i) ==> i == spec_last_index_of(s@, c) && 0 <= i < s@.len(),
        r is None ==> spec_last_index_of(s@, c) == -1,
{
    let n = s.unicode_len();
    let mut i: usize = n;
    proof {
        assert(s@.subrange(0, n as int) =~= s@);
    }
    while i > 0
        invariant
            n == s@.len(),
            i <= n,
            spec_last_index_of(s@, c) == spec_last_index_of(s@.subrange(0, i as int), c),
        decreases i,
    {
        i -= 1;
        let ch = s.get_char(i);
        proof {
            assert(s@.subrange(0, i + 1).last() == s@[i as int]);
            assert(s@.subrange(0, i + 1).drop_last() =~= s@.subrange(0, i as int));
        }
        if ch == c {
            return Some(i);
        }
    }
    proof {
        assert(s@.subrange(0, 0) =~= Seq::<char>::empty());
    }
    None
}

/// The file-name part of a path: everything after the last `/`.
pub open spec fn spec_file_name(path: Seq<char>) -> Seq<char> {
    path.subrange(spec_last_index_of(path, '/') + 1, path.len() as int)
}

/// The extension of a path: what follows the last dot of the file name,
/// provided that dot is not its first character.
pub open spec fn spec_extension(path: Seq<char>) -> Option<Seq<char>> {
    let f = spec_file_name(path);
    let d = spec_last_index_of(f, '.');
    if d > 0 {
        Some(f.subrange(d + 1, f.len() as int))
    } else {
        None
    }
}

/// The file-name part of a path.
pub fn file_name_of(path: &str) -> (r: String)
    ensures
        r@ == spec_file_name(path@),
{
    proof {
        lemma_last_index_of_bounds(path@, '/');
    }
    let n = path.unicode_len();
    let start = match last_index_of(path, '/') {
        Some(i) => i + 1,
        None => 0,
    };
    let piece = path.substring_char(start, n);
    let mut out = String::new();
    out.append(piece);
    proof {
        assert(out@ =~= spec_file_name(path@));
    }
    out
}

/// The extension of a path, if it has one.
pub fn extension_of(path: &str) -> (r: Option<String>)
    ensures
        match r {
            Some(e) => spec_extension(path@) == Some(e@),
            None => spec_extension(path@) is None,
        },
{
    let f = file_name_of(path);
    proof {
        lemma_last_index_of_bounds(f@, '.');
    }
    match last_index_of(f.as_str(), '.') {
        Some(d) if d > 0 => {
            let flen = f.as_str().unicode_len();
            let piece = f.as_str().substring_char(d + 1, flen);
            let mut out = String::new();
            out.append(piece);
            proof {
                assert(out@ =~= spec_file_name(path@).subrange(
                    spec_last_index_of(spec_file_name(path@), '.') + 1,
                    spec_file_name(path@).len() as int,
                ));
            }
            Some(out)
        },
        _ => None,
    }
}

/// A BR source file: extension `brs` or `wbs`, case-insensitive.
pub open spec fn spec_is_br_file(path: Seq<char>) -> bool {
    match spec_extension(path) {
        Some(e) => lower_seq(e) == lower_seq("brs"@) || lower_seq(e) == lower_seq("wbs"@),
        None => false,
    }
}

pub fn is_br_file(path: &str) -> (r: bool)
    ensures
        r == spec_is_br_file(path@),
{
    match extension_of(path) {
        Some(e) => eq_ignore_case(e.as_str(), "brs") || eq_ignore_case(e.as_str(), "wbs"),
        None => false,
    }
}

// ---------------------------------------------------------------------------
// The index
// ---------------------------------------------------------------------------

/// One indexed definition: the owning document and the definition itself.
#[derive(Clone, Debug)]
pub struct IndexedFunctionDef {
    pub uri: String,
    pub def: FunctionDef,
}

/// The case-insensitive key an entry is indexed under.
pub open spec fn entry_key(e: IndexedFunctionDef) -> Seq<char> {
    lower_seq(e.def.name@)
}

/// The entries whose key is `key`, keeping their stored order.
pub open spec fn name_filter(s: Seq<IndexedFunctionDef>, key: Seq<char>) -> Seq<
    IndexedFunctionDef,
> {
    s.filter(|e: IndexedFunctionDef| entry_key(e) == key)
}

/// The entries that do not belong to `uri`.
pub open spec fn without_uri(s: Seq<IndexedFunctionDef>, uri: Seq<char>) -> Seq<
    IndexedFunctionDef,
> {
    s.filter(|e: IndexedFunctionDef| e.uri@ != uri)
}

/// Priority of an entry relative to the asking document, smaller first:
/// local definitions, then library-flagged ones, then any other real
/// definition, and import-only entries last.
pub open spec fn spec_bucket(e: IndexedFunctionDef, current_uri: Seq<char>) -> int {
    if e.uri@ == current_uri && !e.def.is_import_only {
        0
    } else if !e.def.is_import_only && e.def.is_library {
        1
    } else if !e.def.is_import_only {
        2
    } else {
        3
    }
}

fn bucket_exec(e: &IndexedFunctionDef, current_uri: &str) -> (b: usize)
    ensures
        b == spec_bucket(*e, current_uri@),
{
    if str_eq(e.uri.as_str(), current_uri) && !e.def.is_import_only {
        0
    } else if !e.def.is_import_only && e.def.is_library {
        1
    } else if !e.def.is_import_only {
        2
    } else {
        3
    }
}

/// The sequence the references in `s` point at.
pub open spec fn deref_entries(s: Seq<&IndexedFunctionDef>) -> Seq<IndexedFunctionDef> {
    s.map_values(|e: &IndexedFunctionDef| *e)
}

proof fn lemma_deref_push(s: Seq<&IndexedFunctionDef>, x: &IndexedFunctionDef)
    ensures
        deref_entries(s.push(x)) == deref_entries(s).push(*x),
{
    assert(deref_entries(s.push(x)) =~= deref_entries(s).push(*x));
}

/// Case-insensitive, multi-definition symbol table over the workspace.
pub struct WorkspaceIndex {
    pub entries: Vec<IndexedFunctionDef>,
}

impl WorkspaceIndex {
    pub open spec fn spec_entries(&self) -> Seq<IndexedFunctionDef> {
        self.entries@
    }

    pub fn new() -> (r: WorkspaceIndex)
        ensures
            r.spec_entries() == Seq::<IndexedFunctionDef>::empty(),
    {
        let r = WorkspaceIndex { entries: Vec::new() };
        proof {
            assert(r.spec_entries() =~= Seq::<IndexedFunctionDef>::empty());
        }
        r
    }

    /// Append every definition of `defs` under `uri`, after all existing
    /// entries, keeping their order.
    pub fn add_file(&mut self, uri: &str, defs: Vec<FunctionDef>)
        ensures
            final(self).spec_entries().len() == old(self).spec_entries().len() + defs@.len(),
            final(self).spec_entries().subrange(0, old(self).spec_entries().len() as int) == old(
                self,
            ).spec_entries(),
            forall|i: int|
                0 <= i < defs@.len() ==> {
                    let e = #[trigger] final(self).spec_entries()[old(
                        self,
                    ).spec_entries().len() + i];
                    e.def == defs@[i] && e.uri@ == uri@
                },
    {
        let ghost orig_defs = defs@;
        let ghost base = self.entries@.len() as int;
        let mut defs = defs;
        let total = defs.len();
        let mut k: usize = 0;
        while k < total
            invariant
                k <= total,
                total == orig_defs.len(),
                defs@ == orig_defs.subrange(k as int, total as int),
                self.entries@.len() == base + k,
                base == old(self).spec_entries().len(),
                self.entries@.subrange(0, base) == old(self).spec_entries(),
                forall|i: int|
                    0 <= i < k ==> {
                        let e = #[trigger] self.entries@[base + i];
                        e.def == orig_defs[i] && e.uri@ == uri@
                    },
            decreases total - k,
        {
            let d = defs.remove(0);
            proof {
                assert(orig_defs.subrange(k as int, total as int)[0] == orig_defs[k as int]);
            }
            let mut u = String::new();
            u.append(uri);
            proof {
                assert(u@ =~= uri@);
            }
            let ghost pre = self.entries@;
            self.entries.push(IndexedFunctionDef { uri: u, def: d });
            proof {
                assert(self.entries@.subrange(0, base) =~= pre.subrange(0, base));
                assert(defs@ =~= orig_defs.subrange(k + 1, total as int));
            }
            k += 1;
        }
    }

    /// Drop every entry owned by `uri`; nothing else moves.
    pub fn remove_file(&mut self, uri: &str)
        ensures
            final(self).spec_entries() == without_uri(old(self).spec_entries(), uri@),
    {
        let ghost orig = self.entries@;
        let ghost pred = |e: IndexedFunctionDef| e.uri@ != uri@;
        let n = self.entries.len();
        let mut i: usize = 0;
        let mut j: usize = 0;
        while j < n
            invariant
                n == orig.len(),
                j <= n,
                i <= j,
                self.entries@.len() == i + (n - j),
                self.entries@.subrange(0, i as int) == orig.subrange(0, j as int).filter(pred),
                self.entries@.subrange(i as int, self.entries@.len() as int) == orig.subrange(
                    j as int,
                    n as int,
                ),
                pred == |e: IndexedFunctionDef| e.uri@ != uri@,
            decreases n - j,
        {
            let ghost pre = self.entries@;
            let ghost done = orig.subrange(0, j as int);
            proof {
                assert(pre.subrange(i as int, pre.len() as int)[0] == pre[i as int]);
                assert(orig.subrange(j as int, n as int)[0] == orig[j as int]);
                assert(pre[i as int] == orig[j as int]);
                assert(orig.subrange(0, j + 1) =~= done.push(orig[j as int]));
                lemma_filter_push(done, orig[j as int], pred);
            }
            let keep = !str_eq(self.entries[i].uri.as_str(), uri);
            if keep {
                proof {
                    assert(pred(orig[j as int]));
                    assert(orig.subrange(0, j + 1).filter(pred) == done.filter(pred).push(
                        orig[j as int],
                    ));
                    assert(self.entries@.subrange(0, i + 1) =~= self.entries@.subrange(
                        0,
                        i as int,
                    ).push(pre[i as int]));
                    assert(self.entries@.subrange(0, i + 1) =~= orig.subrange(0, j + 1).filter(
                        pred,
                    ));
                    assert forall|q: int| 0 <= q < pre.len() - (i + 1) implies #[trigger] pre.subrange(
                        i + 1,
                        pre.len() as int,
                    )[q] == orig.subrange(j + 1, n as int)[q] by {
                        assert(pre.subrange(i as int, pre.len() as int)[q + 1] == orig.subrange(
                            j as int,
                            n as int,
                        )[q + 1]);
                    }
                    assert(self.entries@.subrange(i + 1, self.entries@.len() as int)
                        =~= orig.subrange(j + 1, n as int));
                }
                i += 1;
            } else {
                self.entries.remove(i);
                proof {
                    assert(self.entries@ =~= pre.subrange(0, i as int) + pre.subrange(
                        i + 1,
                        pre.len() as int,
                    ));
                    assert(self.entries@.subrange(0, i as int) =~= orig.subrange(0, j + 1).filter(
                        pred,
                    ));
                    assert forall|q: int| 0 <= q < self.entries@.len() - i implies #[trigger] self.entries@.subrange(
                        i as int,
                        self.entries@.len() as int,
                    )[q] == orig.subrange(j + 1, n as int)[q] by {
                        assert(self.entries@.subrange(i as int, self.entries@.len() as int)[q]
                            == self.entries@[i + q]);
                        assert(self.entries@[i + q] == pre.subrange(i + 1, pre.len() as int)[q]);
                        assert(pre.subrange(i as int, pre.len() as int)[q + 1] == orig.subrange(
                            j as int,
                            n as int,
                        )[q + 1]);
                    }
                    assert(self.entries@.subrange(i as int, self.entries@.len() as int)
                        =~= orig.subrange(j + 1, n as int));
                }
            }
            j += 1;
        }
        proof {
            assert(orig.subrange(0, n as int) =~= orig);
            assert(self.entries@ =~= self.entries@.subrange(0, i as int));
            assert(self.entries@ =~= without_uri(orig, uri@));
        }
    }

    /// Replace the entries of `uri`: remove them all, then append `defs`.
    pub fn update_file(&mut self, uri: &str, defs: Vec<FunctionDef>)
        ensures
            ({
                let kept = without_uri(old(self).spec_entries(), uri@);
                &&& final(self).spec_entries().len() == kept.len() + defs@.len()
                &&& final(self).spec_entries().subrange(0, kept.len() as int) == kept
                &&& forall|i: int|
                    0 <= i < defs@.len() ==> {
                        let e = #[trigger] final(self).spec_entries()[kept.len() + i];
                        e.def == defs@[i] && e.uri@ == uri@
                    }
            }),
    {
        self.remove_file(uri);
        self.add_file(uri, defs);
    }

    /// Every definition recorded under `name`, case-insensitively, in
    /// stored order.
    pub fn lookup<'a>(&'a self, name: &str) -> (r: Vec<&'a IndexedFunctionDef>)
        ensures
            deref_entries(r@) == name_filter(self.spec_entries(), lower_seq(name@)),
    {
        let ghost key = lower_seq(name@);
        let ghost pred = |e: IndexedFunctionDef| entry_key(e) == key;
        let n = self.entries.len();
        let mut out: Vec<&IndexedFunctionDef> = Vec::new();
        let mut i: usize = 0;
        while i < n
            invariant
                n == self.entries@.len(),
                i <= n,
                key == lower_seq(name@),
                pred == |e: IndexedFunctionDef| entry_key(e) == key,
                deref_entries(out@) == self.entries@.subrange(0, i as int).filter(pred),
            decreases n - i,
        {
            let ghost done = self.entries@.subrange(0, i as int);
            proof {
                assert(self.entries@.subrange(0, i + 1) =~= done.push(self.entries@[i as int]));
                lemma_filter_push(done, self.entries@[i as int], pred);
            }
            let e = &self.entries[i];
            let ghost pre_out = out@;
            if eq_ignore_case(e.def.name.as_str(), name) {
                out.push(e);
                proof {
                    lemma_deref_push(pre_out, e);
                    assert(pred(self.entries@[i as int]));
                    assert(deref_entries(out@) == self.entries@.subrange(0, i + 1).filter(pred));
                }
            } else {
                proof {
                    assert(!pred(self.entries@[i as int]));
                    assert(deref_entries(out@) == self.entries@.subrange(0, i + 1).filter(pred));
                }
            }
            i += 1;
        }
        proof {
            assert(self.entries@.subrange(0, n as int) =~= self.entries@);
        }
        out
    }

    /// The highest-priority definition of `name` relative to `current_uri`:
    /// the first entry of the lowest occupied bucket.
    pub fn lookup_best<'a>(&'a self, name: &str, current_uri: &str) -> (r: Option<
        &'a IndexedFunctionDef,
    >)
        ensures
            ({
                let f = name_filter(self.spec_entries(), lower_seq(name@));
                match r {
                    None => f.len() == 0,
                    Some(e) => exists|j: int|
                        0 <= j < f.len() && f[j] == *e && (forall|k: int|
                            0 <= k < j ==> spec_bucket(#[trigger] f[k], current_uri@) > spec_bucket(
                                *e,
                                current_uri@,
                            )) && (forall|k: int|
                            0 <= k < f.len() ==> spec_bucket(#[trigger] f[k], current_uri@)
                                >= spec_bucket(*e, current_uri@)),
                }
            }),
    {
        let candidates = self.lookup(name);
        let ghost f = name_filter(self.spec_entries(), lower_seq(name@));
        let n = candidates.len();
        let mut best: Option<&IndexedFunctionDef> = None;
        let mut best_bucket: usize = 4;
        let ghost best_j: int = -1;
        let mut i: usize = 0;
        proof {
            assert(deref_entries(candidates@).len() == candidates@.len());
        }
        while i < n
            invariant
                n == candidates@.len(),
                f == deref_entries(candidates@),
                f.len() == n,
                i <= n,
                best is None <==> best_bucket == 4,
                best is None ==> i == 0 || (forall|k: int|
                    0 <= k < i ==> spec_bucket(#[trigger] f[k], current_uri@) >= 4),
                best matches Some(e) ==> {
                    &&& 0 <= best_j < i
                    &&& f[best_j] == *e
                    &&& best_bucket == spec_bucket(*e, current_uri@)
                    &&& best_bucket < 4
                    &&& forall|k: int|
                        0 <= k < best_j ==> spec_bucket(#[trigger] f[k], current_uri@)
                            > best_bucket
                    &&& forall|k: int|
                        0 <= k < i ==> spec_bucket(#[trigger] f[k], current_uri@) >= best_bucket
                },
            decreases n - i,
        {
            let e = candidates[i];
            let b = bucket_exec(e, current_uri);
            proof {
                assert(f[i as int] == *candidates@[i as int]);
            }
            if b < best_bucket {
                best = Some(e);
                best_bucket = b;
                proof {
                    best_j = i as int;
                }
            }
            i += 1;
        }
        proof {
            if best is None {
                if n > 0 {
                    assert(spec_bucket(f[0], current_uri@) >= 4);
                    assert(spec_bucket(f[0], current_uri@) <= 3);
                }
            }
        }
        best
    }

    /// Every entry of the whole index.
    pub fn all_symbols<'a>(&'a self) -> (r: Vec<&'a IndexedFunctionDef>)
        ensures
            deref_entries(r@) == self.spec_entries(),
    {
        let n = self.entries.len();
        let mut out: Vec<&IndexedFunctionDef> = Vec::new();
        let mut i: usize = 0;
        while i < n
            invariant
                n == self.entries@.len(),
                i <= n,
                deref_entries(out@) == self.entries@.subrange(0, i as int),
            decreases n - i,
        {
            let ghost pre_out = out@;
            let e = &self.entries[i];
            out.push(e);
            proof {
                lemma_deref_push(pre_out, e);
                assert(self.entries@.subrange(0, i + 1) =~= self.entries@.subrange(0, i as int).push(
                    self.entries@[i as int],
                ));
                assert(deref_entries(out@) == self.entries@.subrange(0, i + 1));
            }
            i += 1;
        }
        proof {
            assert(self.entries@.subrange(0, n as int) =~= self.entries@);
        }
        out
    }
}

// ---------------------------------------------------------------------------
// Generic filter facts
// ---------------------------------------------------------------------------

/// A sequence the predicate accepts throughout filters to itself.
pub proof fn lemma_filter_id<A>(s: Seq<A>, pred: spec_fn(A) -> bool)
    requires
        forall|k: int| 0 <= k < s.len() ==> pred(#[trigger] s[k]),
    ensures
        s.filter(pred) == s,
    decreases s.len(),
{
    reveal(Seq::filter);
    if s.len() > 0 {
        lemma_filter_id(s.drop_last(), pred);
        assert(s.drop_last().push(s.last()) =~= s);
    }
}

/// A sequence the predicate refuses throughout filters to nothing.
pub proof fn lemma_filter_none<A>(s: Seq<A>, pred: spec_fn(A) -> bool)
    requires
        forall|k: int| 0 <= k < s.len() ==> !pred(#[trigger] s[k]),
    ensures
        s.filter(pred).len() == 0,
    decreases s.len(),
{
    reveal(Seq::filter);
    if s.len() > 0 {
        lemma_filter_none(s.drop_last(), pred);
    }
}

/// Two filters commute.
pub proof fn lemma_filter_commute<A>(s: Seq<A>, p: spec_fn(A) -> bool, q: spec_fn(A) -> bool)
    ensures
        s.filter(p).filter(q) == s.filter(q).filter(p),
    decreases s.len(),
{
    if s.len() == 0 {
        reveal(Seq::filter);
        assert(s.filter(p).len() == 0);
        assert(s.filter(q).len() == 0);
        assert(s.filter(p).filter(q).len() == 0);
        assert(s.filter(q).filter(p).len() == 0);
        assert(s.filter(p).filter(q) =~= s.filter(q).filter(p));
    } else {
        let d = s.drop_last();
        lemma_filter_commute(d, p, q);
        let x = s.last();
        assert(s =~= d.push(x));
        lemma_filter_push(d, x, p);
        lemma_filter_push(d, x, q);
        if p(x) && q(x) {
            lemma_filter_push(d.filter(p), x, q);
            lemma_filter_push(d.filter(q), x, p);
            assert(s.filter(p).filter(q) == d.filter(p).filter(q).push(x));
            assert(s.filter(q).filter(p) == d.filter(q).filter(p).push(x));
        } else if p(x) {
            lemma_filter_push(d.filter(p), x, q);
            assert(s.filter(p).filter(q) == d.filter(p).filter(q));
            assert(s.filter(q).filter(p) == d.filter(q).filter(p));
        } else if q(x) {
            lemma_filter_push(d.filter(q), x, p);
            assert(s.filter(p).filter(q) == d.filter(p).filter(q));
            assert(s.filter(q).filter(p) == d.filter(q).filter(p));
        } else {
            assert(s.filter(p).filter(q) == d.filter(p).filter(q));
            assert(s.filter(q).filter(p) == d.filter(q).filter(p));
        }
    }
}

// ---------------------------------------------------------------------------
// Priority with library links
// ---------------------------------------------------------------------------

/// Does a document URI resolve the normalised library path `link`: its own
/// normalised form ends in `link` at a path-segment boundary, and it lies
/// under one of the workspace folders.
pub open spec fn spec_uri_matches_link(
    uri: Seq<char>,
    link: Seq<char>,
    folders: Seq<Seq<char>>,
) -> bool {
    let nu = crate::extract::spec_normalize_library_path(uri);
    &&& nu.len() >= link.len()
    &&& nu.subrange(nu.len() - link.len(), nu.len() as int) == link
    &&& (nu.len() == link.len() || nu[nu.len() - link.len() - 1] == '/')
    &&& exists|fi: int|
        0 <= fi < folders.len() && crate::text::spec_starts_with(
            lower_seq(uri),
            lower_seq(#[trigger] folders[fi]),
        )
}

/// Check one URI against one normalised library path.
pub fn uri_matches_link(uri: &str, link: &str, folders: &Vec<String>) -> (r: bool)
    ensures
        r == spec_uri_matches_link(uri@, link@, crate::text::strs_view(folders@)),
{
    let nu = crate::extract::normalize_library_path(uri);
    let nlen = nu.as_str().unicode_len();
    let llen = link.unicode_len();
    if nlen < llen {
        return false;
    }
    let tail = nu.as_str().substring_char(nlen - llen, nlen);
    if !str_eq(tail, link) {
        proof {
            assert(tail@ =~= nu@.subrange(nu@.len() - link@.len(), nu@.len() as int));
        }
        return false;
    }
    proof {
        assert(tail@ =~= nu@.subrange(nu@.len() - link@.len(), nu@.len() as int));
    }
    if nlen > llen && nu.as_str().get_char(nlen - llen - 1) != '/' {
        return false;
    }
    let n = folders.len();
    let mut i: usize = 0;
    let ghost sfolders = crate::text::strs_view(folders@);
    while i < n
        invariant
            n == folders@.len(),
            sfolders == crate::text::strs_view(folders@),
            nu@ == crate::extract::spec_normalize_library_path(uri@),
            nu@.len() >= link@.len(),
            nu@.subrange(nu@.len() - link@.len(), nu@.len() as int) == link@,
            nu@.len() == link@.len() || nu@[nu@.len() - link@.len() - 1] == '/',
            i <= n,
            forall|fi: int|
                0 <= fi < i ==> !crate::text::spec_starts_with(
                    lower_seq(uri@),
                    lower_seq(#[trigger] sfolders[fi]),
                ),
        decreases n - i,
    {
        let lu = crate::text::to_lowercase(uri);
        let lf = crate::text::to_lowercase(folders[i].as_str());
        if crate::text::starts_with(lu.as_str(), lf.as_str()) {
            proof {
                assert(sfolders[i as int] == folders@[i as int]@);
            }
            return true;
        }
        i += 1;
    }
    proof {
        if spec_uri_matches_link(uri@, link@, sfolders) {
            let w = choose|fi: int|
                0 <= fi < sfolders.len() && crate::text::spec_starts_with(
                    lower_seq(uri@),
                    lower_seq(#[trigger] sfolders[fi]),
                );
            assert(!crate::text::spec_starts_with(lower_seq(uri@), lower_seq(sfolders[w])));
        }
    }
    false
}

/// Priority of an entry with the asking file's library links in hand,
/// smaller first: local definitions, then entries a recorded library link
/// resolves to, then library-flagged ones, then any other real definition,
/// and import-only entries last.
pub open spec fn spec_bucket_links(
    e: IndexedFunctionDef,
    current_uri: Seq<char>,
    links: Seq<(Seq<char>, Seq<char>)>,
    folders: Seq<Seq<char>>,
) -> int {
    if e.uri@ == current_uri && !e.def.is_import_only {
        0
    } else if match crate::extract::spec_link_for(links, entry_key(e)) {
        Some(link) => spec_uri_matches_link(e.uri@, link, folders),
        None => false,
    } {
        1
    } else if !e.def.is_import_only && e.def.is_library {
        2
    } else if !e.def.is_import_only {
        3
    } else {
        4
    }
}

fn bucket_links_exec(
    e: &IndexedFunctionDef,
    current_uri: &str,
    links: &Vec<(String, String)>,
    folders: &Vec<String>,
) -> (b: usize)
    ensures
        b as int == spec_bucket_links(
            *e,
            current_uri@,
            crate::extract::links_view(links@),
            crate::text::strs_view(folders@),
        ),
{
    if str_eq(e.uri.as_str(), current_uri) && !e.def.is_import_only {
        return 0;
    }
    let key = crate::text::to_lowercase(e.def.name.as_str());
    let linked = match crate::extract::link_for(links, key.as_str()) {
        Some(link) => uri_matches_link(e.uri.as_str(), link.as_str(), folders),
        None => false,
    };
    if linked {
        1
    } else if !e.def.is_import_only && e.def.is_library {
        2
    } else if !e.def.is_import_only {
        3
    } else {
        4
    }
}

impl WorkspaceIndex {
    /// Append to `out` every candidate whose link-aware bucket is `b`.
    fn append_bucket<'a>(
        cands: &Vec<&'a IndexedFunctionDef>,
        current_uri: &str,
        links: &Vec<(String, String)>,
        folders: &Vec<String>,
        b: usize,
        out: &mut Vec<&'a IndexedFunctionDef>,
    )
        ensures
            deref_entries(final(out)@) == deref_entries(old(out)@) + deref_entries(
                cands@,
            ).filter(
                |e: IndexedFunctionDef|
                    spec_bucket_links(
                        e,
                        current_uri@,
                        crate::extract::links_view(links@),
                        crate::text::strs_view(folders@),
                    ) == b as int,
            ),
    {
        let ghost pred = |e: IndexedFunctionDef|
            spec_bucket_links(
                e,
                current_uri@,
                crate::extract::links_view(links@),
                crate::text::strs_view(folders@),
            ) == b as int;
        let n = cands.len();
        let mut i: usize = 0;
        proof {
            assert(deref_entries(cands@).subrange(0, 0).filter(pred) =~= Seq::<
                IndexedFunctionDef,
            >::empty());
            assert(deref_entries(out@) + Seq::<IndexedFunctionDef>::empty() =~= deref_entries(
                out@,
            ));
        }
        while i < n
            invariant
                n == cands@.len(),
                i <= n,
                pred == |e: IndexedFunctionDef|
                    spec_bucket_links(
                        e,
                        current_uri@,
                        crate::extract::links_view(links@),
                        crate::text::strs_view(folders@),
                    ) == b as int,
                deref_entries(out@) == deref_entries(old(out)@) + deref_entries(
                    cands@,
                ).subrange(0, i as int).filter(pred),
            decreases n - i,
        {
            let ghost done = deref_entries(cands@).subrange(0, i as int);
            proof {
                assert(deref_entries(cands@).subrange(0, i + 1) =~= done.push(
                    deref_entries(cands@)[i as int],
                ));
                lemma_filter_push(done, deref_entries(cands@)[i as int], pred);
                assert(deref_entries(cands@)[i as int] == *cands@[i as int]);
            }
            let e = cands[i];
            let eb = bucket_links_exec(e, current_uri, links, folders);
            let ghost pre = out@;
            if eb == b {
                out.push(e);
                proof {
                    assert(deref_entries(out@) =~= deref_entries(pre).push(*out@.last()));
                    assert(deref_entries(out@) =~= deref_entries(old(out)@) + deref_entries(
                        cands@,
                    ).subrange(0, i + 1).filter(pred));
                }
            } else {
                proof {
                    assert(deref_entries(out@) =~= deref_entries(old(out)@) + deref_entries(
                        cands@,
                    ).subrange(0, i + 1).filter(pred));
                }
            }
            i += 1;
        }
        proof {
            assert(deref_entries(cands@).subrange(0, n as int) =~= deref_entries(cands@));
        }
    }

    /// Every definition of `name`, ordered by the link-aware priority:
    /// within one priority the stored order is kept.
    pub fn lookup_prioritized_with_links<'a>(
        &'a self,
        name: &str,
        current_uri: &str,
        links: &Vec<(String, String)>,
        folders: &Vec<String>,
    ) -> (r: Vec<&'a IndexedFunctionDef>)
        ensures
            ({
                let f = name_filter(self.spec_entries(), lower_seq(name@));
                deref_entries(r@) == f.filter(
                    |e: IndexedFunctionDef|
                        spec_bucket_links(
                            e,
                            current_uri@,
                            crate::extract::links_view(links@),
                            crate::text::strs_view(folders@),
                        ) == 0,
                ) + f.filter(
                    |e: IndexedFunctionDef|
                        spec_bucket_links(
                            e,
                            current_uri@,
                            crate::extract::links_view(links@),
                            crate::text::strs_view(folders@),
                        ) == 1,
                ) + f.filter(
                    |e: IndexedFunctionDef|
                        spec_bucket_links(
                            e,
                            current_uri@,
                            crate::extract::links_view(links@),
                            crate::text::strs_view(folders@),
                        ) == 2,
                ) + f.filter(
                    |e: IndexedFunctionDef|
                        spec_bucket_links(
                            e,
                            current_uri@,
                            crate::extract::links_view(links@),
                            crate::text::strs_view(folders@),
                        ) == 3,
                ) + f.filter(
                    |e: IndexedFunctionDef|
                        spec_bucket_links(
                            e,
                            current_uri@,
                            crate::extract::links_view(links@),
                            crate::text::strs_view(folders@),
                        ) == 4,
                )
            }),
    {
        let cands = self.lookup(name);
        let mut out: Vec<&IndexedFunctionDef> = Vec::new();
        Self::append_bucket(&cands, current_uri, links, folders, 0, &mut out);
        Self::append_bucket(&cands, current_uri, links, folders, 1, &mut out);
        Self::append_bucket(&cands, current_uri, links, folders, 2, &mut out);
        Self::append_bucket(&cands, current_uri, links, folders, 3, &mut out);
        Self::append_bucket(&cands, current_uri, links, folders, 4, &mut out);
        proof {
            let f = name_filter(self.spec_entries(), lower_seq(name@));
            assert(deref_entries(cands@) == f);
        }
        out
    }

    /// Every definition of `name`, ordered by the plain four-way priority:
    /// local first, then library-flagged, then other real definitions,
    /// then import-only entries, keeping the stored order within each.
    pub fn lookup_prioritized<'a>(&'a self, name: &str, current_uri: &str) -> (r: Vec<
        &'a IndexedFunctionDef,
    >)
        ensures
            ({
                let f = name_filter(self.spec_entries(), lower_seq(name@));
                deref_entries(r@) == f.filter(
                    |e: IndexedFunctionDef| spec_bucket(e, current_uri@) == 0,
                ) + f.filter(|e: IndexedFunctionDef| spec_bucket(e, current_uri@) == 1) + f.filter(
                    |e: IndexedFunctionDef| spec_bucket(e, current_uri@) == 2,
                ) + f.filter(|e: IndexedFunctionDef| spec_bucket(e, current_uri@) == 3)
            }),
    {
        let links: Vec<(String, String)> = Vec::new();
        let folders: Vec<String> = Vec::new();
        let r = self.lookup_prioritized_with_links(name, current_uri, &links, &folders);
        proof {
            let f = name_filter(self.spec_entries(), lower_seq(name@));
            assert(crate::extract::links_view(links@).len() == 0);
            assert(crate::text::strs_view(folders@).len() == 0);
            lemma_bucket_filters_agree(
                f,
                current_uri@,
                crate::extract::links_view(links@),
                crate::text::strs_view(folders@),
            );
        }
        r
    }
}

/// With no links recorded, the five-way order collapses onto the four-way
/// one bucket by bucket.
proof fn lemma_bucket_filters_agree(
    f: Seq<IndexedFunctionDef>,
    cur: Seq<char>,
    links: Seq<(Seq<char>, Seq<char>)>,
    folders: Seq<Seq<char>>,
)
    requires
        links.len() == 0,
    ensures
        f.filter(|e: IndexedFunctionDef| spec_bucket_links(e, cur, links, folders) == 0)
            == f.filter(|e: IndexedFunctionDef| spec_bucket(e, cur) == 0),
        f.filter(|e: IndexedFunctionDef| spec_bucket_links(e, cur, links, folders) == 1).len()
            == 0,
        f.filter(|e: IndexedFunctionDef| spec_bucket_links(e, cur, links, folders) == 2)
            == f.filter(|e: IndexedFunctionDef| spec_bucket(e, cur) == 1),
        f.filter(|e: IndexedFunctionDef| spec_bucket_links(e, cur, links, folders) == 3)
            == f.filter(|e: IndexedFunctionDef| spec_bucket(e, cur) == 2),
        f.filter(|e: IndexedFunctionDef| spec_bucket_links(e, cur, links, folders) == 4)
            == f.filter(|e: IndexedFunctionDef| spec_bucket(e, cur) == 3),
    decreases f.len(),
{
    reveal(Seq::filter);
    if f.len() > 0 {
        lemma_bucket_filters_agree(f.drop_last(), cur, links, folders);
        assert(spec_bucket_links(f.last(), cur, links, folders) == (
        if spec_bucket(f.last(), cur) == 0 {
            0int
        } else if spec_bucket(f.last(), cur) == 1 {
            2int
        } else if spec_bucket(f.last(), cur) == 2 {
            3int
        } else {
            4int
        }));
    }
}

// ---------------------------------------------------------------------------
// Index coherence
// ---------------------------------------------------------------------------

/// `name_filter` over one more entry.
pub proof fn lemma_name_filter_push(s: Seq<IndexedFunctionDef>, x: IndexedFunctionDef, key: Seq<char>)
    ensures
        name_filter(s.push(x), key) == if entry_key(x) == key {
            name_filter(s, key).push(x)
        } else {
            name_filter(s, key)
        },
{
    reveal(Seq::filter);
    assert(s.push(x).drop_last() =~= s);
    assert(s.push(x).last() == x);
}

/// `without_uri` over one more entry.
pub proof fn lemma_without_uri_push(s: Seq<IndexedFunctionDef>, x: IndexedFunctionDef, uri: Seq<char>)
    ensures
        without_uri(s.push(x), uri) == if x.uri@ != uri {
            without_uri(s, uri).push(x)
        } else {
            without_uri(s, uri)
        },
{
    reveal(Seq::filter);
    assert(s.push(x).drop_last() =~= s);
    assert(s.push(x).last() == x);
}

/// Every entry left after removing a URI belongs to another URI.
pub proof fn lemma_without_uri_pred(s: Seq<IndexedFunctionDef>, uri: Seq<char>)
    ensures
        forall|k: int|
            0 <= k < without_uri(s, uri).len() ==> (#[trigger] without_uri(s, uri)[k]).uri@
                != uri,
    decreases s.len(),
{
    if s.len() > 0 {
        let d = s.drop_last();
        lemma_without_uri_pred(d, uri);
        assert(s =~= d.push(s.last()));
        lemma_without_uri_push(d, s.last(), uri);
    } else {
        reveal(Seq::filter);
    }
}

/// Looking a name up sees exactly the registered owners: removing a URI
/// removes exactly its entries from every lookup, and appending entries
/// appends exactly the matching ones — so after any sequence of additions,
/// updates and removals, a lookup holds exactly the definitions whose
/// owning URI is still registered.
pub proof fn lemma_index_coherence(
    s: Seq<IndexedFunctionDef>,
    t: Seq<IndexedFunctionDef>,
    uri: Seq<char>,
    key: Seq<char>,
)
    ensures
        name_filter(without_uri(s, uri), key) == without_uri(name_filter(s, key), uri),
        forall|k: int|
            0 <= k < name_filter(without_uri(s, uri), key).len() ==> (#[trigger] name_filter(
                without_uri(s, uri),
                key,
            )[k]).uri@ != uri,
        name_filter(s + t, key) == name_filter(s, key) + name_filter(t, key),
    decreases s.len() + t.len(),
{
    if t.len() > 0 {
        lemma_index_coherence(s, t.drop_last(), uri, key);
        assert(s + t =~= (s + t.drop_last()).push(t.last()));
        lemma_name_filter_push(s + t.drop_last(), t.last(), key);
        lemma_name_filter_push(t.drop_last(), t.last(), key);
        assert(t =~= t.drop_last().push(t.last()));
        if entry_key(t.last()) == key {
            assert(name_filter(s, key) + name_filter(t, key) =~= (name_filter(s, key)
                + name_filter(t.drop_last(), key)).push(t.last()));
        }
    } else if s.len() > 0 {
        let d = s.drop_last();
        let x = s.last();
        lemma_index_coherence(d, t, uri, key);
        assert(s =~= d.push(x));
        lemma_without_uri_push(d, x, uri);
        lemma_name_filter_push(d, x, key);
        if x.uri@ != uri {
            lemma_name_filter_push(without_uri(d, uri), x, key);
        }
        if entry_key(x) == key {
            lemma_without_uri_push(name_filter(d, key), x, uri);
        }
        lemma_without_uri_pred(s, uri);
        assert(s + t =~= s);
        assert(name_filter(t, key).len() == 0) by {
            reveal(Seq::filter);
        }
        assert(name_filter(s, key) + name_filter(t, key) =~= name_filter(s, key));
    } else {
        reveal(Seq::filter);
        assert(s + t =~= t);
        assert(name_filter(s, key).len() == 0);
        assert(name_filter(s, key) + name_filter(t, key) =~= name_filter(t, key));
        lemma_without_uri_pred(s, uri);
    }
}

/// The best match respects the priority order: a local definition wins
/// whenever one exists; otherwise a library-flagged one beats other real
/// definitions, which beat import-only entries.
pub proof fn lemma_priority_monotonicity(
    f: Seq<IndexedFunctionDef>,
    e: IndexedFunctionDef,
    cur: Seq<char>,
    j: int,
)
    requires
        0 <= j < f.len(),
        f[j] == e,
        forall|k: int| 0 <= k < f.len() ==> spec_bucket(#[trigger] f[k], cur) >= spec_bucket(
            e,
            cur,
        ),
    ensures
        (exists|k: int|
            0 <= k < f.len() && (#[trigger] f[k]).uri@ == cur && !f[k].def.is_import_only) ==> (
        e.uri@ == cur && !e.def.is_import_only),
        !(exists|k: int|
            0 <= k < f.len() && (#[trigger] f[k]).uri@ == cur && !f[k].def.is_import_only) && (
        exists|k: int|
            0 <= k < f.len() && !(#[trigger] f[k]).def.is_import_only && f[k].def.is_library)
            ==> (!e.def.is_import_only && e.def.is_library),
        !(exists|k: int|
            0 <= k < f.len() && (#[trigger] f[k]).uri@ == cur && !f[k].def.is_import_only) && !(
        exists|k: int|
            0 <= k < f.len() && !(#[trigger] f[k]).def.is_import_only && f[k].def.is_library) && (
        exists|k: int| 0 <= k < f.len() && !(#[trigger] f[k]).def.is_import_only) ==> (
        !e.def.is_import_only),
{
    if exists|k: int|
        0 <= k < f.len() && (#[trigger] f[k]).uri@ == cur && !f[k].def.is_import_only {
        let w = choose|k: int|
            0 <= k < f.len() && (#[trigger] f[k]).uri@ == cur && !f[k].def.is_import_only;
        assert(spec_bucket(f[w], cur) == 0);
        assert(spec_bucket(e, cur) == 0);
    } else if exists|k: int|
        0 <= k < f.len() && !(#[trigger] f[k]).def.is_import_only && f[k].def.is_library {
        let w = choose|k: int|
            0 <= k < f.len() && !(#[trigger] f[k]).def.is_import_only && f[k].def.is_library;
        assert(spec_bucket(f[w], cur) == 1);
        assert(spec_bucket(e, cur) <= 1);
    } else if exists|k: int| 0 <= k < f.len() && !(#[trigger] f[k]).def.is_import_only {
        let w = choose|k: int| 0 <= k < f.len() && !(#[trigger] f[k]).def.is_import_only;
        assert(spec_bucket(f[w], cur) <= 2);
        assert(spec_bucket(e, cur) <= 2);
    }
}

// ---------------------------------------------------------------------------
// Unique functions
// ---------------------------------------------------------------------------

/// A candidate for completion listing: a real definition from another
/// document.
pub open spec fn spec_candidate(e: IndexedFunctionDef, exclude_uri: Seq<char>) -> bool {
    e.uri@ != exclude_uri && !e.def.is_import_only
}

/// The first library-flagged candidate for `key` at or after `i`.
pub open spec fn spec_first_lib_cand(
    es: Seq<IndexedFunctionDef>,
    key: Seq<char>,
    ex: Seq<char>,
    i: int,
) -> Option<int>
    decreases es.len() - i when 0 <= i
{
    if i >= es.len() {
        None
    } else if spec_candidate(es[i], ex) && entry_key(es[i]) == key && es[i].def.is_library {
        Some(i)
    } else {
        spec_first_lib_cand(es, key, ex, i + 1)
    }
}

/// The first candidate for `key` at or after `i`.
pub open spec fn spec_first_cand(
    es: Seq<IndexedFunctionDef>,
    key: Seq<char>,
    ex: Seq<char>,
    i: int,
) -> Option<int>
    decreases es.len() - i when 0 <= i
{
    if i >= es.len() {
        None
    } else if spec_candidate(es[i], ex) && entry_key(es[i]) == key {
        Some(i)
    } else {
        spec_first_cand(es, key, ex, i + 1)
    }
}

/// Which entry represents `key`: the first library-flagged candidate,
/// else the first candidate.
pub open spec fn spec_rep(es: Seq<IndexedFunctionDef>, key: Seq<char>, ex: Seq<char>) -> Option<
    int,
> {
    match spec_first_lib_cand(es, key, ex, 0) {
        Some(i) => Some(i),
        None => spec_first_cand(es, key, ex, 0),
    }
}

impl WorkspaceIndex {
    /// The representative shown for `key`: the first library-flagged
    /// candidate, else the first candidate; `None` without candidates.
    fn representative_for<'a>(&'a self, key: &str, exclude_uri: &str) -> (r: Option<
        &'a IndexedFunctionDef,
    >)
        ensures
            match r {
                Some(p) => {
                    &&& spec_rep(self.spec_entries(), lower_seq(key@), exclude_uri@) matches Some(
                        j,
                    ) && *p == self.spec_entries()[j]
                    &&& spec_candidate(*p, exclude_uri@)
                    &&& entry_key(*p) == lower_seq(key@)
                    &&& self.spec_entries().contains(*p)
                    &&& (p.def.is_library || forall|k: int|
                        0 <= k < self.spec_entries().len() ==> !(spec_candidate(
                            #[trigger] self.spec_entries()[k],
                            exclude_uri@,
                        ) && entry_key(self.spec_entries()[k]) == lower_seq(key@)
                            && self.spec_entries()[k].def.is_library))
                },
                None => {
                    &&& spec_rep(self.spec_entries(), lower_seq(key@), exclude_uri@) is None
                    &&& forall|k: int|
                        0 <= k < self.spec_entries().len() ==> !(spec_candidate(
                            #[trigger] self.spec_entries()[k],
                            exclude_uri@,
                        ) && entry_key(self.spec_entries()[k]) == lower_seq(key@))
                },
            },
    {
        let ghost es = self.spec_entries();
        let ghost skey = lower_seq(key@);
        let ghost ex = exclude_uri@;
        let n = self.entries.len();
        let mut first_cand: Option<usize> = None;
        let mut i: usize = 0;
        while i < n
            invariant
                n == self.spec_entries().len(),
                es == self.spec_entries(),
                skey == lower_seq(key@),
                ex == exclude_uri@,
                i <= n,
                spec_first_lib_cand(es, skey, ex, i as int) == spec_first_lib_cand(es, skey, ex, 0),
                match first_cand {
                    Some(fi) => 0 <= fi < n && spec_candidate(
                        self.spec_entries()[fi as int],
                        exclude_uri@,
                    ) && entry_key(self.spec_entries()[fi as int]) == lower_seq(key@)
                        && spec_first_cand(es, skey, ex, 0) == Some(fi as int),
                    None => {
                        &&& spec_first_cand(es, skey, ex, i as int) == spec_first_cand(
                            es,
                            skey,
                            ex,
                            0,
                        )
                        &&& forall|k: int|
                            0 <= k < i ==> !(spec_candidate(
                                #[trigger] self.spec_entries()[k],
                                exclude_uri@,
                            ) && entry_key(self.spec_entries()[k]) == lower_seq(key@))
                    },
                },
                forall|k: int|
                    0 <= k < i ==> !(spec_candidate(
                        #[trigger] self.spec_entries()[k],
                        exclude_uri@,
                    ) && entry_key(self.spec_entries()[k]) == lower_seq(key@)
                        && self.spec_entries()[k].def.is_library),
            decreases n - i,
        {
            let e = &self.entries[i];
            let is_cand = !str_eq(e.uri.as_str(), exclude_uri) && !e.def.is_import_only;
            if is_cand && eq_ignore_case(e.def.name.as_str(), key) {
                if e.def.is_library {
                    proof {
                        assert(self.spec_entries().contains(self.spec_entries()[i as int]));
                        assert(spec_first_lib_cand(es, skey, ex, i as int) == Some(i as int));
                    }
                    return Some(e);
                }
                if first_cand.is_none() {
                    first_cand = Some(i);
                }
            }
            i += 1;
        }
        proof {
            assert(spec_first_lib_cand(es, skey, ex, n as int) is None);
        }
        match first_cand {
            Some(fi) => {
                proof {
                    assert(self.spec_entries().contains(self.spec_entries()[fi as int]));
                }
                Some(&self.entries[fi])
            },
            None => {
                proof {
                    assert(spec_first_cand(es, skey, ex, n as int) is None);
                }
                None
            },
        }
    }

    /// One representative per distinct function name, excluding the asking
    /// document's own entries and import-only ones, library-flagged
    /// entries preferred.
    pub fn unique_functions<'a>(&'a self, exclude_uri: &str) -> (r: Vec<&'a IndexedFunctionDef>)
        ensures
            forall|q: int|
                0 <= q < r@.len() ==> {
                    let p = *(#[trigger] r@[q]);
                    &&& (spec_rep(self.spec_entries(), entry_key(p), exclude_uri@) matches Some(j)
                        && p == self.spec_entries()[j])
                    &&& spec_candidate(p, exclude_uri@)
                    &&& self.spec_entries().contains(p)
                    &&& (p.def.is_library || forall|k: int|
                        0 <= k < self.spec_entries().len() ==> !(spec_candidate(
                            #[trigger] self.spec_entries()[k],
                            exclude_uri@,
                        ) && entry_key(self.spec_entries()[k]) == entry_key(p)
                            && self.spec_entries()[k].def.is_library))
                },
            forall|q1: int, q2: int|
                0 <= q1 < q2 < r@.len() ==> entry_key(*(#[trigger] r@[q1])) != entry_key(
                    *(#[trigger] r@[q2]),
                ),
            forall|k: int|
                0 <= k < self.spec_entries().len() && spec_candidate(
                    #[trigger] self.spec_entries()[k],
                    exclude_uri@,
                ) ==> exists|q: int|
                    0 <= q < r@.len() && entry_key(*(#[trigger] r@[q])) == entry_key(
                        self.spec_entries()[k],
                    ),
    {
        let n = self.entries.len();
        let mut out: Vec<&IndexedFunctionDef> = Vec::new();
        let mut i: usize = 0;
        while i < n
            invariant
                n == self.spec_entries().len(),
                i <= n,
                forall|q: int|
                    0 <= q < out@.len() ==> {
                        let p = *(#[trigger] out@[q]);
                        &&& (spec_rep(self.spec_entries(), entry_key(p), exclude_uri@) matches Some(
                            j,
                        ) && p == self.spec_entries()[j])
                        &&& spec_candidate(p, exclude_uri@)
                        &&& self.spec_entries().contains(p)
                        &&& (p.def.is_library || forall|k: int|
                            0 <= k < self.spec_entries().len() ==> !(spec_candidate(
                                #[trigger] self.spec_entries()[k],
                                exclude_uri@,
                            ) && entry_key(self.spec_entries()[k]) == entry_key(p)
                                && self.spec_entries()[k].def.is_library))
                    },
                forall|q1: int, q2: int|
                    0 <= q1 < q2 < out@.len() ==> entry_key(*(#[trigger] out@[q1])) != entry_key(
                        *(#[trigger] out@[q2]),
                    ),
                forall|k: int|
                    0 <= k < i && spec_candidate(
                        #[trigger] self.spec_entries()[k],
                        exclude_uri@,
                    ) ==> exists|q: int|
                        0 <= q < out@.len() && entry_key(*(#[trigger] out@[q])) == entry_key(
                            self.spec_entries()[k],
                        ),
            decreases n - i,
        {
            let e = &self.entries[i];
            proof {
                assert(*e == self.spec_entries()[i as int]);
            }
            let is_cand = !str_eq(e.uri.as_str(), exclude_uri) && !e.def.is_import_only;
            if is_cand {
                let have = has_key(&out, e.def.name.as_str());
                if !have {
                    let key = e.def.name.as_str();
                    match self.representative_for(key, exclude_uri) {
                        Some(p) => {
                            let ghost pre = out@;
                            out.push(p);
                            proof {
                                assert(out@[out@.len() - 1] == p);
                                assert(entry_key(*out@[out@.len() - 1]) == entry_key(
                                    self.spec_entries()[i as int],
                                ));
                                assert forall|q1: int, q2: int|
                                    0 <= q1 < q2 < out@.len() implies entry_key(
                                    *(#[trigger] out@[q1]),
                                ) != entry_key(*(#[trigger] out@[q2])) by {
                                    if q2 == out@.len() - 1 {
                                        assert(out@[q1] == pre[q1]);
                                        assert(entry_key(*pre[q1]) != lower_seq(e.def.name@));
                                    } else {
                                        assert(out@[q1] == pre[q1]);
                                        assert(out@[q2] == pre[q2]);
                                    }
                                }
                                assert forall|k: int|
                                    0 <= k < i + 1 && spec_candidate(
                                        #[trigger] self.spec_entries()[k],
                                        exclude_uri@,
                                    ) implies exists|q: int|
                                    0 <= q < out@.len() && entry_key(*(#[trigger] out@[q]))
                                        == entry_key(self.spec_entries()[k]) by {
                                    if k < i {
                                        let w = choose|w: int|
                                            0 <= w < pre.len() && entry_key(*(#[trigger] pre[w]))
                                                == entry_key(self.spec_entries()[k]);
                                        assert(out@[w] == pre[w]);
                                        assert(entry_key(*out@[w]) == entry_key(
                                            self.spec_entries()[k],
                                        ));
                                    } else {
                                        assert(entry_key(*out@[out@.len() - 1]) == entry_key(
                                            self.spec_entries()[k],
                                        ));
                                    }
                                }
                            }
                        },
                        None => {
                            proof {
                                assert(spec_candidate(
                                    self.spec_entries()[i as int],
                                    exclude_uri@,
                                ) && entry_key(self.spec_entries()[i as int]) == lower_seq(
                                    e.def.name@,
                                ));
                                assert(false);
                            }
                        },
                    }
                } else {
                    proof {
                        assert forall|k: int|
                            0 <= k < i + 1 && spec_candidate(
                                #[trigger] self.spec_entries()[k],
                                exclude_uri@,
                            ) implies exists|q: int|
                            0 <= q < out@.len() && entry_key(*(#[trigger] out@[q])) == entry_key(
                                self.spec_entries()[k],
                            ) by {
                        }
                    }
                }
            }
            i += 1;
        }
        out
    }
}

/// Does the list already show a function of this name?
fn has_key(out: &Vec<&IndexedFunctionDef>, name: &str) -> (r: bool)
    ensures
        r == exists|w: int|
            0 <= w < out@.len() && entry_key(*(#[trigger] out@[w])) == lower_seq(name@),
{
    let m = out.len();
    let mut q: usize = 0;
    while q < m
        invariant
            m == out@.len(),
            q <= m,
            forall|w: int| 0 <= w < q ==> entry_key(*(#[trigger] out@[w])) != lower_seq(name@),
        decreases m - q,
    {
        let p = out[q];
        if eq_ignore_case(p.def.name.as_str(), name) {
            proof {
                assert(entry_key(*out@[q as int]) == lower_seq(name@));
            }
            return true;
        }
        q += 1;
    }
    proof {
        if exists|w: int|
            0 <= w < out@.len() && entry_key(*(#[trigger] out@[w])) == lower_seq(name@) {
            let w = choose|w: int|
                0 <= w < out@.len() && entry_key(*(#[trigger] out@[w])) == lower_seq(name@);
            assert(entry_key(*out@[w]) != lower_seq(name@));
        }
    }
    false
}

} // verus!
