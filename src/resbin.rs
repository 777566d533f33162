//! The container itself: header, directory, entries, and the store of
//! decoded files that one load builds.
//!
//! Layout (little-endian throughout): a 16-byte header (`sig`, `size`,
//! `offs`, `cmp_size`); at `offs`, a `cmp_size`-byte block that inflates to
//! the `size`-byte directory: an entry count, that many 12-byte records
//! (`path_offs`, `data_offs`, `size`), and the NUL-terminated paths the
//! records point at. Each entry's own block lies at `data_offs`, and its
//! leading 4 bytes, once decoded, give its inflated size.

use vstd::prelude::*;
use vstd::slice::slice_to_vec;

use crate::bytes::{cstr_at, get_u32_le, latin1, push_char, read_cstr, u32_le};
use crate::cipher::{decrypt_payload, decrypted_payload, CipherKey, KEY_LEN, KEY_OFFSET};
use crate::inflate::{decompress, inflate_block, DecompressErr};
use crate::obfuscation::{decode, deobfuscated, keystream_byte};

verus! {

/// Length of the header.
pub const HEADER_LEN: usize = 16;

/// Length of one directory record.
pub const ENTRY_LEN: usize = 12;

/// The signature "ARC1", as its four bytes read little-endian.
pub const ARC1_TAG: u32 = 0x3143_5241;

/// The container header, with its keystream removed.
#[derive(Clone, Copy, Debug, PartialEq, Eq, Structural)]
pub struct Header {
    /// Signature; `ARC1_TAG` in every valid container.
    pub sig: u32,
    /// Inflated size of the directory.
    pub size: u32,
    /// Absolute offset of the stored directory block.
    pub offs: u32,
    /// Length of the stored directory block, its leading field included.
    pub cmp_size: u32,
}

/// One directory record.
#[derive(Clone, Copy, Debug, PartialEq, Eq, Structural)]
pub struct ResEntry {
    /// Offset of the entry's path inside the directory.
    pub path_offs: u32,
    /// Absolute offset of the entry's stored block.
    pub data_offs: u32,
    /// Length of the entry's stored block, its leading field included.
    pub size: u32,
}

/// Why a container could not be loaded, or a request on it failed.
#[derive(Clone, Debug, PartialEq, Eq)]
pub enum ResBinErr {
    /// The container is shorter than its header.
    HeaderRead { available: usize },
    /// The decoded signature, which is not `ARC1_TAG`.
    HeaderMismatch(u32),
    /// The directory block lies beyond the end of the container.
    CmpRead { offset: u32, size: u32 },
    /// The directory block did not inflate to its declared size.
    Decmp(DecompressErr),
    /// The directory (of this length) ends inside its record table.
    EntryRead { len: usize },
    /// No NUL ends this record's path inside the directory.
    PathName(ResEntry),
    /// The entry's block lies beyond the end of the container.
    EntryDataRead(String),
    /// The entry's block did not inflate to its declared size.
    EntryDataDecmp(String, DecompressErr),
    /// No entry has this path.
    EntryPath(String),
    /// The companion executable (of this length) ends before the key does.
    KeyRead { available: usize },
    /// The entry's payload (of this length) is not a whole number of blocks.
    CipherBlock(String, usize),
}

/// `ResBinErr` as contracts speak of it: each path as its characters.
pub enum ResBinFault {
    HeaderRead { available: usize },
    HeaderMismatch(u32),
    CmpRead { offset: u32, size: u32 },
    Decmp(DecompressErr),
    EntryRead { len: usize },
    PathName(ResEntry),
    EntryDataRead(Seq<char>),
    EntryDataDecmp(Seq<char>, DecompressErr),
    EntryPath(Seq<char>),
    KeyRead { available: usize },
    CipherBlock(Seq<char>, usize),
}

impl View for ResBinErr {
    type V = ResBinFault;

    open spec fn view(&self) -> ResBinFault {
        match self {
            ResBinErr::HeaderRead { available } => ResBinFault::HeaderRead { available: *available },
            ResBinErr::HeaderMismatch(v) => ResBinFault::HeaderMismatch(*v),
            ResBinErr::CmpRead { offset, size } => ResBinFault::CmpRead {
                offset: *offset,
                size: *size,
            },
            ResBinErr::Decmp(e) => ResBinFault::Decmp(*e),
            ResBinErr::EntryRead { len } => ResBinFault::EntryRead { len: *len },
            ResBinErr::PathName(e) => ResBinFault::PathName(*e),
            ResBinErr::EntryDataRead(p) => ResBinFault::EntryDataRead(p@),
            ResBinErr::EntryDataDecmp(p, e) => ResBinFault::EntryDataDecmp(p@, *e),
            ResBinErr::EntryPath(p) => ResBinFault::EntryPath(p@),
            ResBinErr::KeyRead { available } => ResBinFault::KeyRead { available: *available },
            ResBinErr::CipherBlock(p, n) => ResBinFault::CipherBlock(p@, *n),
        }
    }
}

/// The header fields stored in 16 decoded bytes.
pub open spec fn header_of(d: Seq<u8>) -> Header {
    Header { sig: u32_le(d, 0), size: u32_le(d, 4), offs: u32_le(d, 8), cmp_size: u32_le(d, 12) }
}

/// The header of a container, checked against the signature.
pub open spec fn parse_header(buf: Seq<u8>) -> Result<Header, ResBinFault> {
    if buf.len() < HEADER_LEN {
        Err(ResBinFault::HeaderRead { available: buf.len() as usize })
    } else {
        let h = header_of(deobfuscated(0, buf.take(HEADER_LEN as int)));
        if h.sig != ARC1_TAG {
            Err(ResBinFault::HeaderMismatch(h.sig))
        } else {
            Ok(h)
        }
    }
}

/// The `size` bytes at absolute offset `offs`, if the buffer holds them.
pub open spec fn region(buf: Seq<u8>, offs: u32, size: u32) -> Option<Seq<u8>> {
    if offs + size <= buf.len() {
        Some(buf.subrange(offs as int, offs + size))
    } else {
        None
    }
}

/// The inflated directory that the header points at.
pub open spec fn read_directory(buf: Seq<u8>, h: Header) -> Result<Seq<u8>, ResBinFault> {
    match region(buf, h.offs, h.cmp_size) {
        None => Err(ResBinFault::CmpRead { offset: h.offs, size: h.cmp_size }),
        Some(c) => match inflate_block(deobfuscated(h.offs, c), h.size as usize) {
            Err(e) => Err(ResBinFault::Decmp(e)),
            Ok(d) => Ok(d),
        },
    }
}

/// The record stored at `pos` of the directory.
pub open spec fn entry_at(dir: Seq<u8>, pos: int) -> ResEntry {
    ResEntry {
        path_offs: u32_le(dir, pos),
        data_offs: u32_le(dir, pos + 4),
        size: u32_le(dir, pos + 8),
    }
}

/// The directory's records, in stored order.
pub open spec fn entry_table(dir: Seq<u8>) -> Result<Seq<ResEntry>, ResBinFault> {
    if dir.len() < 4 {
        Err(ResBinFault::EntryRead { len: dir.len() as usize })
    } else {
        let n = u32_le(dir, 0);
        if 4 + ENTRY_LEN * n > dir.len() {
            Err(ResBinFault::EntryRead { len: dir.len() as usize })
        } else {
            Ok(Seq::new(n as nat, |i: int| entry_at(dir, 4 + ENTRY_LEN * i)))
        }
    }
}

/// The path and decoded bytes of one record.
pub open spec fn load_entry(buf: Seq<u8>, dir: Seq<u8>, e: ResEntry) -> Result<
    (Seq<char>, Seq<u8>),
    ResBinFault,
> {
    match cstr_at(dir, e.path_offs as int) {
        None => Err(ResBinFault::PathName(e)),
        Some(pb) => {
            let p = latin1(pb);
            match region(buf, e.data_offs, e.size) {
                None => Err(ResBinFault::EntryDataRead(p)),
                Some(raw) => {
                    let c = deobfuscated(e.data_offs, raw);
                    let size = if c.len() >= 4 {
                        u32_le(c, 0) as usize
                    } else {
                        0
                    };
                    match inflate_block(c, size) {
                        Err(err) => Err(ResBinFault::EntryDataDecmp(p, err)),
                        Ok(d) => Ok((p, d)),
                    }
                },
            }
        },
    }
}

/// The position of the first file at or after `i` whose path is `p`; -1 if none.
pub open spec fn index_from(files: Seq<(Seq<char>, Seq<u8>)>, p: Seq<char>, i: int) -> int
    decreases files.len() - i,
{
    if i < 0 || i >= files.len() {
        -1
    } else if files[i].0 == p {
        i
    } else {
        index_from(files, p, i + 1)
    }
}

/// The position of the file whose path is `p`; -1 if none.
pub open spec fn index_of(files: Seq<(Seq<char>, Seq<u8>)>, p: Seq<char>) -> int {
    index_from(files, p, 0)
}

/// The bytes stored under path `p`.
pub open spec fn lookup(files: Seq<(Seq<char>, Seq<u8>)>, p: Seq<char>) -> Option<Seq<u8>> {
    let i = index_of(files, p);
    if i >= 0 {
        Some(files[i].1)
    } else {
        None
    }
}

/// No two files share a path.
pub open spec fn paths_unique(files: Seq<(Seq<char>, Seq<u8>)>) -> bool {
    forall|i: int, j: int|
        0 <= i < files.len() && 0 <= j < files.len() && i != j ==> files[i].0 != files[j].0
}

/// The files with `d` stored under `p`: a file already under `p` has its
/// bytes replaced in place, otherwise a new file comes last.
pub open spec fn upsert(files: Seq<(Seq<char>, Seq<u8>)>, p: Seq<char>, d: Seq<u8>) -> Seq<
    (Seq<char>, Seq<u8>),
> {
    let i = index_of(files, p);
    if i >= 0 {
        files.update(i, (p, d))
    } else {
        files.push((p, d))
    }
}

/// The files that the first `k` records give, in order, or the first error.
pub open spec fn load_entries(buf: Seq<u8>, dir: Seq<u8>, ents: Seq<ResEntry>, k: nat) -> Result<
    Seq<(Seq<char>, Seq<u8>)>,
    ResBinFault,
>
    decreases k,
{
    if k == 0 {
        Ok(Seq::empty())
    } else {
        match load_entries(buf, dir, ents, (k - 1) as nat) {
            Err(e) => Err(e),
            Ok(files) => match load_entry(buf, dir, ents[k - 1]) {
                Err(e) => Err(e),
                Ok(pd) => Ok(upsert(files, pd.0, pd.1)),
            },
        }
    }
}

/// What a loaded container holds.
pub struct ArchiveModel {
    pub header: Header,
    pub entries: Seq<ResEntry>,
    pub files: Seq<(Seq<char>, Seq<u8>)>,
    pub key: Seq<u8>,
}

/// The archive that a container gives under `key`, or the first error.
pub open spec fn parse_container(buf: Seq<u8>, key: Seq<u8>) -> Result<ArchiveModel, ResBinFault> {
    match parse_header(buf) {
        Err(e) => Err(e),
        Ok(h) => match read_directory(buf, h) {
            Err(e) => Err(e),
            Ok(dir) => match entry_table(dir) {
                Err(e) => Err(e),
                Ok(ents) => match load_entries(buf, dir, ents, ents.len()) {
                    Err(e) => Err(e),
                    Ok(files) => Ok(ArchiveModel { header: h, entries: ents, files, key }),
                },
            },
        },
    }
}

proof fn lemma_index_from(files: Seq<(Seq<char>, Seq<u8>)>, p: Seq<char>, i: int)
    requires
        0 <= i,
    ensures
        index_from(files, p, i) == -1 || (i <= index_from(files, p, i) < files.len()
            && files[index_from(files, p, i)].0 == p),
        index_from(files, p, i) == -1 ==> forall|j: int|
            i <= j < files.len() ==> files[j].0 != p,
    decreases files.len() - i,
{
    if i < files.len() && files[i].0 != p {
        lemma_index_from(files, p, i + 1);
    }
}

proof fn lemma_upsert_unique(files: Seq<(Seq<char>, Seq<u8>)>, p: Seq<char>, d: Seq<u8>)
    requires
        paths_unique(files),
    ensures
        paths_unique(upsert(files, p, d)),
{
    lemma_index_from(files, p, 0);
}

proof fn lemma_load_entries_unique(buf: Seq<u8>, dir: Seq<u8>, ents: Seq<ResEntry>, k: nat)
    requires
        load_entries(buf, dir, ents, k) is Ok,
    ensures
        paths_unique(load_entries(buf, dir, ents, k)->Ok_0),
    decreases k,
{
    if k > 0 {
        lemma_load_entries_unique(buf, dir, ents, (k - 1) as nat);
        let files = load_entries(buf, dir, ents, (k - 1) as nat)->Ok_0;
        let pd = load_entry(buf, dir, ents[k - 1])->Ok_0;
        lemma_upsert_unique(files, pd.0, pd.1);
    }
}

proof fn lemma_load_err_sticks(
    buf: Seq<u8>,
    dir: Seq<u8>,
    ents: Seq<ResEntry>,
    k: nat,
    m: nat,
)
    requires
        k <= m,
        load_entries(buf, dir, ents, k) is Err,
    ensures
        load_entries(buf, dir, ents, m) == load_entries(buf, dir, ents, k),
    decreases m - k,
{
    if k < m {
        lemma_load_err_sticks(buf, dir, ents, k, (m - 1) as nat);
    }
}

/// A loaded archive never holds two files under one path.
pub proof fn lemma_loaded_paths_unique(buf: Seq<u8>, key: Seq<u8>)
    ensures
        parse_container(buf, key) matches Ok(a) ==> paths_unique(a.files),
{
    if let Ok(h) = parse_header(buf) {
        if let Ok(dir) = read_directory(buf, h) {
            if let Ok(ents) = entry_table(dir) {
                if load_entries(buf, dir, ents, ents.len()) is Ok {
                    lemma_load_entries_unique(buf, dir, ents, ents.len());
                }
            }
        }
    }
}

/// A container whose directory declares no record loads, as an empty
/// archive.
pub proof fn lemma_empty_directory(buf: Seq<u8>, key: Seq<u8>)
    requires
        parse_header(buf) is Ok,
        read_directory(buf, parse_header(buf)->Ok_0) matches Ok(dir) && dir.len() >= 4 && u32_le(
            dir,
            0,
        ) == 0,
    ensures
        parse_container(buf, key) matches Ok(a) && a.files.len() == 0 && a.entries.len() == 0,
{
    let dir = read_directory(buf, parse_header(buf)->Ok_0)->Ok_0;
    assert(entry_table(dir)->Ok_0.len() == 0);
}

/// Four bytes give the same little-endian `u32` only if they are the same.
proof fn lemma_u32_le_injective(s: Seq<u8>, t: Seq<u8>)
    requires
        s.len() >= 4,
        t.len() >= 4,
        u32_le(s, 0) == u32_le(t, 0),
    ensures
        s[0] == t[0] && s[1] == t[1] && s[2] == t[2] && s[3] == t[3],
{
    let (a0, a1, a2, a3) = (s[0], s[1], s[2], s[3]);
    let (b0, b1, b2, b3) = (t[0], t[1], t[2], t[3]);
    assert(a0 == b0 && a1 == b1 && a2 == b2 && a3 == b3) by (nonlinear_arith)
        requires
            (a0 as int + a1 as int * 0x100 + a2 as int * 0x1_0000 + a3 as int * 0x100_0000) as u32
                == (b0 as int + b1 as int * 0x100 + b2 as int * 0x1_0000 + b3 as int * 0x100_0000) as u32,
            a0 < 256, a1 < 256, a2 < 256, a3 < 256, b0 < 256, b1 < 256, b2 < 256, b3 < 256,
    ;
}

/// Changing one stored byte of a valid container's signature makes the load
/// fail with a signature mismatch that carries the decoded, changed value.
pub proof fn lemma_corrupt_signature(buf: Seq<u8>, key: Seq<u8>, j: int, b: u8)
    requires
        parse_header(buf) is Ok,
        0 <= j < 4,
        b != buf[j],
    ensures
        ({
            let sig = u32_le(deobfuscated(0, buf.update(j, b).take(HEADER_LEN as int)), 0);
            sig != ARC1_TAG && parse_container(buf.update(j, b), key) == Err::<
                ArchiveModel,
                ResBinFault,
            >(ResBinFault::HeaderMismatch(sig))
        }),
{
    let bad = buf.update(j, b);
    let d0 = deobfuscated(0, buf.take(HEADER_LEN as int));
    let d1 = deobfuscated(0, bad.take(HEADER_LEN as int));
    let k = keystream_byte(0, j as nat);
    let x = buf[j];
    assert(d0[j] == x ^ k);
    assert(d1[j] == b ^ k);
    assert((x ^ k) != (b ^ k)) by (bit_vector)
        requires
            x != b,
    ;
    if u32_le(d1, 0) == ARC1_TAG {
        lemma_u32_le_injective(d0, d1);
        assert(false);
    }
}

/// One decoded file of the archive.
pub struct LogicalFile {
    /// Its path, one character per stored byte.
    pub path: String,
    /// Its bytes: inflated at load, decrypted in place by `ResBin::decrypt`.
    pub data: Vec<u8>,
}

/// Each file as its path's characters and its bytes.
pub open spec fn files_view(files: Seq<LogicalFile>) -> Seq<(Seq<char>, Seq<u8>)> {
    files.map_values(|f: LogicalFile| (f.path@, f.data@))
}

/// A loaded container: its header, its records in stored order, and its
/// files keyed by path.
pub struct ResBin {
    header: Header,
    entdata: Vec<ResEntry>,
    entries: Vec<LogicalFile>,
    key: CipherKey,
}

impl View for ResBin {
    type V = ArchiveModel;

    closed spec fn view(&self) -> ArchiveModel {
        ArchiveModel {
            header: self.header,
            entries: self.entdata@,
            files: files_view(self.entries@),
            key: self.key@,
        }
    }
}

/// A result with its error seen as a `ResBinFault`.
pub open spec fn fault_result<T>(r: Result<T, ResBinErr>) -> Result<T, ResBinFault> {
    match r {
        Ok(v) => Ok(v),
        Err(e) => Err(e@),
    }
}

/// A byte-vector result seen as bytes, its error as a `ResBinFault`.
pub open spec fn bytes_fault(r: Result<Vec<u8>, ResBinErr>) -> Result<Seq<u8>, ResBinFault> {
    match r {
        Ok(v) => Ok(v@),
        Err(e) => Err(e@),
    }
}

/// A load's result seen through the views of archive and error.
pub open spec fn archive_result(r: Result<ResBin, ResBinErr>) -> Result<ArchiveModel, ResBinFault> {
    match r {
        Ok(a) => Ok(a@),
        Err(e) => Err(e@),
    }
}

/// Copies the `size` bytes at `offs`, if the buffer holds them.
fn copy_region(buf: &[u8], offs: u32, size: u32) -> (r: Option<Vec<u8>>)
    ensures
        match region(buf@, offs, size) {
            Some(c) => r is Some && r->0@ == c,
            None => r is None,
        },
{
    if (offs as u64) + (size as u64) > buf.len() as u64 {
        return None;
    }
    let start = offs as usize;
    let end = start + size as usize;
    Some(slice_to_vec(&buf[start..end]))
}

/// Reads the header, removes its keystream and checks its signature.
fn read_header(buf: &[u8]) -> (r: Result<Header, ResBinErr>)
    ensures
        fault_result(r) == parse_header(buf@),
{
    if buf.len() < HEADER_LEN {
        return Err(ResBinErr::HeaderRead { available: buf.len() });
    }
    let mut hb = slice_to_vec(&buf[0..HEADER_LEN]);
    assert(hb@ == buf@.take(HEADER_LEN as int));
    decode(0, &mut hb);
    let d = hb.as_slice();
    let h = Header {
        sig: get_u32_le(d, 0),
        size: get_u32_le(d, 4),
        offs: get_u32_le(d, 8),
        cmp_size: get_u32_le(d, 12),
    };
    if h.sig != ARC1_TAG {
        return Err(ResBinErr::HeaderMismatch(h.sig));
    }
    Ok(h)
}

/// Reads, decodes and inflates the directory that the header points at.
fn read_dir(buf: &[u8], h: Header) -> (r: Result<Vec<u8>, ResBinErr>)
    ensures
        bytes_fault(r) == read_directory(buf@, h),
{
    match copy_region(buf, h.offs, h.cmp_size) {
        None => Err(ResBinErr::CmpRead { offset: h.offs, size: h.cmp_size }),
        Some(c) => {
            let mut c = c;
            decode(h.offs, &mut c);
            match decompress(c.as_slice(), h.size as usize) {
                Err(e) => Err(ResBinErr::Decmp(e)),
                Ok(d) => Ok(d),
            }
        },
    }
}

/// Reads the directory's records.
fn read_table(dir: &[u8]) -> (r: Result<Vec<ResEntry>, ResBinErr>)
    ensures
        match r {
            Ok(v) => entry_table(dir@) == Ok::<Seq<ResEntry>, ResBinFault>(v@),
            Err(e) => entry_table(dir@) == Err::<Seq<ResEntry>, ResBinFault>(e@),
        },
{
    if dir.len() < 4 {
        return Err(ResBinErr::EntryRead { len: dir.len() });
    }
    let n = get_u32_le(dir, 0);
    if 4 + 12 * (n as u64) > dir.len() as u64 {
        return Err(ResBinErr::EntryRead { len: dir.len() });
    }
    let mut ents: Vec<ResEntry> = Vec::new();
    let mut i: usize = 0;
    while i < n as usize
        invariant
            n == u32_le(dir@, 0),
            4 + ENTRY_LEN * n <= dir@.len() <= usize::MAX,
            i <= n,
            ents@ =~= Seq::new(i as nat, |j: int| entry_at(dir@, 4 + ENTRY_LEN * j)),
        decreases n - i,
    {
        let pos: usize = 4 + ENTRY_LEN * i;
        let e = ResEntry {
            path_offs: get_u32_le(dir, pos),
            data_offs: get_u32_le(dir, pos + 4),
            size: get_u32_le(dir, pos + 8),
        };
        ents.push(e);
        i = i + 1;
    }
    Ok(ents)
}

/// Reads one record's path and decoded bytes.
fn read_entry(buf: &[u8], dir: &[u8], e: ResEntry) -> (r: Result<LogicalFile, ResBinErr>)
    ensures
        match r {
            Ok(f) => load_entry(buf@, dir@, e) == Ok::<(Seq<char>, Seq<u8>), ResBinFault>(
                (f.path@, f.data@),
            ),
            Err(x) => load_entry(buf@, dir@, e) == Err::<(Seq<char>, Seq<u8>), ResBinFault>(x@),
        },
{
    match read_cstr(dir, e.path_offs as usize) {
        None => Err(ResBinErr::PathName(e)),
        Some(path) => match copy_region(buf, e.data_offs, e.size) {
            None => Err(ResBinErr::EntryDataRead(path)),
            Some(c) => {
                let mut c = c;
                decode(e.data_offs, &mut c);
                let size: usize = if c.len() >= 4 {
                    get_u32_le(c.as_slice(), 0) as usize
                } else {
                    0
                };
                match decompress(c.as_slice(), size) {
                    Err(err) => Err(ResBinErr::EntryDataDecmp(path, err)),
                    Ok(data) => Ok(LogicalFile { path, data }),
                }
            },
        },
    }
}

/// Finds the file whose path is `p`.
fn find_path(files: &Vec<LogicalFile>, p: &String) -> (r: Option<usize>)
    ensures
        match r {
            Some(i) => i as int == index_of(files_view(files@), p@),
            None => index_of(files_view(files@), p@) == -1,
        },
{
    let n = files.len();
    let mut i: usize = 0;
    while i < n
        invariant
            n == files@.len(),
            i <= n,
            index_of(files_view(files@), p@) == index_from(files_view(files@), p@, i as int),
        decreases n - i,
    {
        if files[i].path == *p {
            return Some(i);
        }
        i = i + 1;
    }
    None
}

/// Stores a file: over the file with the same path, or last.
fn upsert_file(files: &mut Vec<LogicalFile>, f: LogicalFile)
    ensures
        files_view(final(files)@) == upsert(files_view(old(files)@), f.path@, f.data@),
{
    let ghost before = files_view(files@);
    proof {
        lemma_index_from(before, f.path@, 0);
    }
    match find_path(files, &f.path) {
        Some(i) => {
            files.set(i, f);
            assert(files_view(files@) =~= before.update(i as int, (f.path@, f.data@)));
        },
        None => {
            files.push(f);
            assert(files_view(files@) =~= before.push((f.path@, f.data@)));
        },
    }
}

/// Loads every record's file, in table order, stopping at the first error.
fn read_entries(buf: &[u8], dir: &[u8], ents: &Vec<ResEntry>) -> (r: Result<
    Vec<LogicalFile>,
    ResBinErr,
>)
    ensures
        match r {
            Ok(v) => load_entries(buf@, dir@, ents@, ents@.len()) == Ok::<
                Seq<(Seq<char>, Seq<u8>)>,
                ResBinFault,
            >(files_view(v@)),
            Err(e) => load_entries(buf@, dir@, ents@, ents@.len()) == Err::<
                Seq<(Seq<char>, Seq<u8>)>,
                ResBinFault,
            >(e@),
        },
{
    let n = ents.len();
    let mut files: Vec<LogicalFile> = Vec::new();
    let mut i: usize = 0;
    assert(files_view(files@) =~= Seq::empty());
    while i < n
        invariant
            n == ents@.len(),
            i <= n,
            load_entries(buf@, dir@, ents@, i as nat) == Ok::<
                Seq<(Seq<char>, Seq<u8>)>,
                ResBinFault,
            >(files_view(files@)),
        decreases n - i,
    {
        match read_entry(buf, dir, ents[i]) {
            Err(e) => {
                proof {
                    lemma_load_err_sticks(buf@, dir@, ents@, (i + 1) as nat, n as nat);
                }
                return Err(e);
            },
            Ok(f) => {
                upsert_file(&mut files, f);
            },
        }
        i = i + 1;
    }
    Ok(files)
}

/// Where a file of path `path` goes under the output directory `dir`.
pub open spec fn dump_target(dir: Seq<char>, path: Seq<char>) -> Seq<char> {
    dir.push('/') + path
}

/// One file to be written: its destination and its bytes.
pub struct DumpJob<'a> {
    /// The output directory and the file's path, joined by '/'.
    pub target: String,
    /// The file's current bytes.
    pub data: &'a [u8],
}

/// Joins the output directory and a file's path.
fn join_target(dir: &str, path: &str) -> (r: String)
    ensures
        r@ == dump_target(dir@, path@),
{
    let mut t = dir.to_owned();
    push_char(&mut t, '/');
    t.append(path);
    t
}

impl ResBin {
    /// Decodes a whole container, all or nothing: the first failure of the
    /// header, the directory or any entry is the error, and no partial
    /// archive is returned. `key` is kept for `decrypt`.
    pub fn new(buf: &[u8], key: CipherKey) -> (r: Result<ResBin, ResBinErr>)
        ensures
            archive_result(r) == parse_container(buf@, key@),
    {
        let header = match read_header(buf) {
            Err(e) => return Err(e),
            Ok(h) => h,
        };
        let dir = match read_dir(buf, header) {
            Err(e) => return Err(e),
            Ok(d) => d,
        };
        let entdata = match read_table(dir.as_slice()) {
            Err(e) => return Err(e),
            Ok(v) => v,
        };
        let entries = match read_entries(buf, dir.as_slice(), &entdata) {
            Err(e) => return Err(e),
            Ok(v) => v,
        };
        Ok(ResBin { header, entdata, entries, key })
    }

    /// Reads the key from the companion executable `exe`, then decodes the
    /// container `buf` as `new` does.
    pub fn load(buf: &[u8], exe: &[u8]) -> (r: Result<ResBin, ResBinErr>)
        ensures
            exe@.len() < KEY_OFFSET + KEY_LEN ==> archive_result(r) == Err::<
                ArchiveModel,
                ResBinFault,
            >(ResBinFault::KeyRead { available: exe@.len() as usize }),
            exe@.len() >= KEY_OFFSET + KEY_LEN ==> archive_result(r) == parse_container(
                buf@,
                exe@.subrange(KEY_OFFSET as int, KEY_OFFSET + KEY_LEN),
            ),
    {
        match CipherKey::from_exe(exe) {
            None => Err(ResBinErr::KeyRead { available: exe.len() }),
            Some(key) => ResBin::new(buf, key),
        }
    }

    /// The bytes stored under `path`; an unknown path is an error.
    pub fn get(&self, path: &str) -> (r: Result<&[u8], ResBinErr>)
        ensures
            match r {
                Ok(d) => lookup(self@.files, path@) == Some(d@),
                Err(e) => lookup(self@.files, path@) is None && e@ == ResBinFault::EntryPath(
                    path@,
                ),
            },
    {
        let key = path.to_owned();
        match find_path(&self.entries, &key) {
            None => Err(ResBinErr::EntryPath(key)),
            Some(i) => {
                proof {
                    lemma_index_from(files_view(self.entries@), path@, 0);
                }
                Ok(self.entries[i].data.as_slice())
            },
        }
    }

    /// What writing the file `in_path` under the directory `out_path` takes:
    /// the destination `out_path/in_path` and the file's current bytes. An
    /// unknown path is an error.
    pub fn dump(&self, in_path: &str, out_path: &str) -> (r: Result<DumpJob<'_>, ResBinErr>)
        ensures
            match r {
                Ok(job) => lookup(self@.files, in_path@) == Some(job.data@) && job.target@
                    == dump_target(out_path@, in_path@),
                Err(e) => lookup(self@.files, in_path@) is None && e@ == ResBinFault::EntryPath(
                    in_path@,
                ),
            },
    {
        match self.get(in_path) {
            Err(e) => Err(e),
            Ok(data) => Ok(DumpJob { target: join_target(out_path, in_path), data }),
        }
    }

    /// What writing every file under the directory `out_path` takes, one job
    /// per file in the archive's order. The jobs are independent: a caller
    /// that performs them may go on past a failed one.
    pub fn dump_all(&self, out_path: &str) -> (r: Vec<DumpJob<'_>>)
        ensures
            r@.len() == self@.files.len(),
            forall|i: int|
                0 <= i < r@.len() ==> (#[trigger] r@[i]).target@ == dump_target(
                    out_path@,
                    self@.files[i].0,
                ) && r@[i].data@ == self@.files[i].1,
    {
        let n = self.entries.len();
        let mut jobs: Vec<DumpJob<'_>> = Vec::new();
        let mut i: usize = 0;
        while i < n
            invariant
                n == self.entries@.len(),
                i <= n,
                jobs@.len() == i,
                forall|j: int|
                    0 <= j < i ==> (#[trigger] jobs@[j]).target@ == dump_target(
                        out_path@,
                        self@.files[j].0,
                    ) && jobs@[j].data@ == self@.files[j].1,
            decreases n - i,
        {
            let f = &self.entries[i];
            let target = join_target(out_path, f.path.as_str());
            jobs.push(DumpJob { target, data: f.data.as_slice() });
            i = i + 1;
        }
        jobs
    }

    /// Removes the secondary cipher from the file `path`, with the key read
    /// at load, and stores the plaintext in its place. On any error the
    /// archive is left as it was.
    pub fn decrypt(&mut self, path: &str) -> (r: Result<(), ResBinErr>)
        ensures
            match lookup(old(self)@.files, path@) {
                None => fault_result(r) == Err::<(), ResBinFault>(ResBinFault::EntryPath(path@))
                    && final(self)@ == old(self)@,
                Some(d) => match decrypted_payload(old(self)@.key, d) {
                    None => fault_result(r) == Err::<(), ResBinFault>(
                        ResBinFault::CipherBlock(path@, d.len() as usize),
                    ) && final(self)@ == old(self)@,
                    Some(p) => r is Ok && final(self)@ == (ArchiveModel {
                        files: old(self)@.files.update(
                            index_of(old(self)@.files, path@),
                            (path@, p),
                        ),
                        ..old(self)@
                    }),
                },
            },
    {
        let key = path.to_owned();
        match find_path(&self.entries, &key) {
            None => Err(ResBinErr::EntryPath(key)),
            Some(i) => {
                proof {
                    lemma_index_from(files_view(self.entries@), path@, 0);
                }
                let len = self.entries[i].data.len();
                match decrypt_payload(&self.key, self.entries[i].data.as_slice()) {
                    None => Err(ResBinErr::CipherBlock(key, len)),
                    Some(p) => {
                        let ghost before = files_view(self.entries@);
                        self.entries.set(i, LogicalFile { path: key, data: p });
                        assert(files_view(self.entries@) =~= before.update(
                            i as int,
                            (path@, p@),
                        ));
                        Ok(())
                    },
                }
            },
        }
    }

    /// The header, with its keystream removed.
    pub fn header(&self) -> (r: Header)
        ensures
            r == self@.header,
    {
        self.header
    }

    /// The directory's records, in stored order.
    pub fn entries(&self) -> (r: &[ResEntry])
        ensures
            r@ == self@.entries,
    {
        self.entdata.as_slice()
    }

    /// The decoded files, in the order of their first record.
    pub fn files(&self) -> (r: &[LogicalFile])
        ensures
            files_view(r@) == self@.files,
    {
        self.entries.as_slice()
    }

    /// The number of decoded files.
    pub fn len(&self) -> (r: usize)
        ensures
            r == self@.files.len(),
    {
        self.entries.len()
    }

    /// Whether the archive holds no file.
    pub fn is_empty(&self) -> (r: bool)
        ensures
            r == (self@.files.len() == 0),
    {
        self.entries.len() == 0
    }
}

} // verus!
