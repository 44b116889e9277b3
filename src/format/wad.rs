//! The lump container: a header, a directory of named entries, and the bytes of each lump.
//!
//! Layout, all integers little-endian and 32 bits wide: a 4-byte tag (`IWAD` or `PWAD`),
//! the lump count and the directory offset; at that offset, one 16-byte entry per lump
//! (data offset, size, 8-byte null-padded name); the bytes of each lump at its offset.

use vstd::prelude::*;
use crate::text::str_equal;
use vstd::utf8::{decode_utf8, valid_utf8};

verus! {

/// The error that `std::str::from_utf8` reports.
#[verifier::external_type_specification]
#[verifier::external_body]
pub struct ExUtf8Error(std::str::Utf8Error);

/// The text that `String::from_utf8_lossy` makes of some bytes.
pub uninterp spec fn lossy_text(b: Seq<u8>) -> Seq<char>;

/// Relies on `std::str::from_utf8`: `Ok` exactly when the bytes are valid UTF-8, with the
/// text they encode.
#[verifier::external_body]
fn utf8_text(b: &[u8]) -> (r: Result<String, std::str::Utf8Error>)
    ensures
        r is Ok <==> valid_utf8(b@),
        r matches Ok(s) ==> s@ == decode_utf8(b@),
{
    std::str::from_utf8(b).map(|s| s.to_owned())
}

/// Relies on `String::from_utf8_lossy`, whose result depends on the bytes alone and is the
/// decoded text where the bytes are valid UTF-8.
#[verifier::external_body]
fn lossy_string(b: &[u8]) -> (r: String)
    ensures
        r@ == lossy_text(b@),
        valid_utf8(b@) ==> r@ == decode_utf8(b@),
{
    String::from_utf8_lossy(b).into_owned()
}

// ----------------------------------------------------------------------------------------
// The format, as a function of the bytes
// ----------------------------------------------------------------------------------------

/// What a failed read reports, without its payloads' opaque parts.
pub enum ErrorView {
    Utf8,
    InvalidWadType(Seq<char>),
    UnexpectedEof,
}

/// One directory entry.
pub struct EntryView {
    pub file_pos: nat,
    pub size: nat,
    pub name: Seq<char>,
}

/// A whole container: its header, its directory in stored order, and the bytes of each
/// lump, index-aligned with the directory.
pub struct WadView {
    pub header: Header,
    pub directory: Seq<EntryView>,
    pub data: Seq<Seq<u8>>,
}

/// `n` bytes starting at `at` lie inside `b`.
pub open spec fn fits(b: Seq<u8>, at: int, n: int) -> bool {
    0 <= at && at + n <= b.len()
}

/// The little-endian unsigned 32-bit integer at `at`.
pub open spec fn le_u32_at(b: Seq<u8>, at: int) -> nat {
    b[at] as nat + 256 * (b[at + 1] as nat) + 65536 * (b[at + 2] as nat) + 16777216 * (
    b[at + 3] as nat)
}

/// The little-endian signed 32-bit integer at `at`.
pub open spec fn le_i32_at(b: Seq<u8>, at: int) -> int {
    let u = le_u32_at(b, at);
    if u >= 0x8000_0000 {
        u - 0x1_0000_0000
    } else {
        u as int
    }
}

/// A stored count, offset or size: the signed integer at `at`, converted to `usize` as Rust's
/// `as` does (a negative value is sign-extended to the width of `usize`).
pub open spec fn size_at(b: Seq<u8>, at: int) -> usize {
    le_i32_at(b, at) as usize
}

/// The container kind that a 4-byte tag names.
pub open spec fn tag_kind(t: Seq<u8>) -> Option<WadType> {
    if t == seq![73u8, 87u8, 65u8, 68u8] {
        Some(WadType::Iwad)
    } else if t == seq![80u8, 87u8, 65u8, 68u8] {
        Some(WadType::Pwad)
    } else {
        None
    }
}

/// The header that starts at `p`.
pub open spec fn header_at(b: Seq<u8>, p: int) -> Result<Header, ErrorView> {
    if !fits(b, p, 4) {
        Err(ErrorView::UnexpectedEof)
    } else {
        match tag_kind(b.subrange(p, p + 4)) {
            None => Err(ErrorView::InvalidWadType(lossy_text(b.subrange(p, p + 4)))),
            Some(kind) => if !fits(b, p, 12) {
                Err(ErrorView::UnexpectedEof)
            } else {
                Ok(
                    Header {
                        ident: kind,
                        num_lumps: size_at(b, p + 4),
                        info_table_offset: size_at(b, p + 8),
                    },
                )
            },
        }
    }
}

/// The index of the first zero byte of `raw`, or its length where it has none.
pub open spec fn first_nul(raw: Seq<u8>) -> int
    decreases raw.len(),
{
    if raw.len() == 0 {
        0
    } else if first_nul(raw.drop_last()) < raw.len() - 1 {
        first_nul(raw.drop_last())
    } else if raw.last() == 0 {
        raw.len() - 1
    } else {
        raw.len() as int
    }
}

/// A fixed-length name field without its null padding: everything before the first zero byte.
pub open spec fn nul_trimmed(raw: Seq<u8>) -> Seq<u8> {
    raw.subrange(0, first_nul(raw))
}

/// The directory entry that starts at `q`.
pub open spec fn entry_at(b: Seq<u8>, q: int) -> Result<EntryView, ErrorView> {
    if !fits(b, q, 16) {
        Err(ErrorView::UnexpectedEof)
    } else {
        let name = nul_trimmed(b.subrange(q + 8, q + 16));
        if !valid_utf8(name) {
            Err(ErrorView::Utf8)
        } else {
            Ok(
                EntryView {
                    file_pos: size_at(b, q) as nat,
                    size: size_at(b, q + 4) as nat,
                    name: decode_utf8(name),
                },
            )
        }
    }
}

/// The first `n` directory entries of a directory at `off`, read in order; the first
/// failure ends the reading.
pub open spec fn directory_prefix(b: Seq<u8>, off: int, n: nat) -> Result<
    Seq<EntryView>,
    ErrorView,
>
    decreases n,
{
    if n == 0 {
        Ok(Seq::empty())
    } else {
        match directory_prefix(b, off, (n - 1) as nat) {
            Err(e) => Err(e),
            Ok(es) => match entry_at(b, off + 16 * (n - 1)) {
                Err(e) => Err(e),
                Ok(en) => Ok(es.push(en)),
            },
        }
    }
}

/// The bytes of one lump: none for a zero-size lump, wherever its offset points.
pub open spec fn lump_bytes(b: Seq<u8>, en: EntryView) -> Result<Seq<u8>, ErrorView> {
    if en.size == 0 {
        Ok(Seq::empty())
    } else if fits(b, en.file_pos as int, en.size as int) {
        Ok(b.subrange(en.file_pos as int, (en.file_pos + en.size) as int))
    } else {
        Err(ErrorView::UnexpectedEof)
    }
}

/// The bytes of the first `n` lumps of `dir`, read in order; the first failure ends the
/// reading.
pub open spec fn data_prefix(b: Seq<u8>, dir: Seq<EntryView>, n: nat) -> Result<
    Seq<Seq<u8>>,
    ErrorView,
>
    decreases n,
{
    if n == 0 {
        Ok(Seq::empty())
    } else {
        match data_prefix(b, dir, (n - 1) as nat) {
            Err(e) => Err(e),
            Ok(ds) => match lump_bytes(b, dir[n - 1]) {
                Err(e) => Err(e),
                Ok(d) => Ok(ds.push(d)),
            },
        }
    }
}

/// The container whose header starts at `p`.
pub open spec fn wad_at(b: Seq<u8>, p: int) -> Result<WadView, ErrorView> {
    match header_at(b, p) {
        Err(e) => Err(e),
        Ok(h) => match directory_prefix(b, h.info_table_offset as int, h.num_lumps as nat) {
            Err(e) => Err(e),
            Ok(dir) => match data_prefix(b, dir, dir.len()) {
                Err(e) => Err(e),
                Ok(data) => Ok(WadView { header: h, directory: dir, data }),
            },
        },
    }
}

/// The directory and the data lists have one element per lump, and each lump holds as
/// many bytes as its entry's size.
pub open spec fn well_formed(w: WadView) -> bool {
    &&& w.directory.len() == w.data.len()
    &&& forall|i: int| 0 <= i < w.data.len() ==> #[trigger] w.data[i].len() == w.directory[i].size
}

/// The index of the first entry named `name`, or the directory's length where none is.
pub open spec fn first_named(dir: Seq<EntryView>, name: Seq<char>) -> int
    decreases dir.len(),
{
    if dir.len() == 0 {
        0
    } else if first_named(dir.drop_last(), name) < dir.len() - 1 {
        first_named(dir.drop_last(), name)
    } else if dir.last().name == name {
        dir.len() - 1
    } else {
        dir.len() as int
    }
}

pub proof fn lemma_first_named(dir: Seq<EntryView>, name: Seq<char>)
    ensures
        0 <= first_named(dir, name) <= dir.len(),
        first_named(dir, name) < dir.len() ==> dir[first_named(dir, name)].name == name,
        forall|j: int| 0 <= j < first_named(dir, name) ==> dir[j].name != name,
    decreases dir.len(),
{
    if dir.len() > 0 {
        let rest = dir.drop_last();
        lemma_first_named(rest, name);
        assert(forall|j: int| 0 <= j < rest.len() ==> rest[j] == dir[j]);
    }
}

proof fn lemma_first_nul(raw: Seq<u8>)
    ensures
        0 <= first_nul(raw) <= raw.len(),
        first_nul(raw) < raw.len() ==> raw[first_nul(raw)] == 0,
        forall|j: int| 0 <= j < first_nul(raw) ==> raw[j] != 0,
    decreases raw.len(),
{
    if raw.len() > 0 {
        let rest = raw.drop_last();
        lemma_first_nul(rest);
        assert(forall|j: int| 0 <= j < rest.len() ==> rest[j] == raw[j]);
    }
}

proof fn lemma_directory_prefix(b: Seq<u8>, off: int, n: nat)
    ensures
        directory_prefix(b, off, n) matches Ok(es) ==> es.len() == n,
    decreases n,
{
    if n > 0 {
        lemma_directory_prefix(b, off, (n - 1) as nat);
    }
}

proof fn lemma_directory_err(b: Seq<u8>, off: int, j: nat, n: nat)
    requires
        j <= n,
        directory_prefix(b, off, j) is Err,
    ensures
        directory_prefix(b, off, n) == directory_prefix(b, off, j),
    decreases n,
{
    if n > j {
        lemma_directory_err(b, off, j, (n - 1) as nat);
    }
}

proof fn lemma_data_prefix(b: Seq<u8>, dir: Seq<EntryView>, n: nat)
    requires
        n <= dir.len(),
    ensures
        data_prefix(b, dir, n) matches Ok(ds) ==> ds.len() == n && forall|i: int|
            0 <= i < n ==> #[trigger] ds[i].len() == dir[i].size,
    decreases n,
{
    if n > 0 {
        lemma_data_prefix(b, dir, (n - 1) as nat);
    }
}

proof fn lemma_data_err(b: Seq<u8>, dir: Seq<EntryView>, j: nat, n: nat)
    requires
        j <= n,
        data_prefix(b, dir, j) is Err,
    ensures
        data_prefix(b, dir, n) == data_prefix(b, dir, j),
    decreases n,
{
    if n > j {
        lemma_data_err(b, dir, j, (n - 1) as nat);
    }
}

/// Every container that reads successfully has one data buffer per directory entry, of
/// the entry's size.
pub proof fn lemma_read_well_formed(b: Seq<u8>, p: int)
    requires
        wad_at(b, p) is Ok,
    ensures
        well_formed(wad_at(b, p)->Ok_0),
{
    let h = header_at(b, p)->Ok_0;
    lemma_directory_prefix(b, h.info_table_offset as int, h.num_lumps as nat);
    let dir = directory_prefix(b, h.info_table_offset as int, h.num_lumps as nat)->Ok_0;
    lemma_data_prefix(b, dir, dir.len());
}

/// A zero-size lump reads as an empty buffer, whatever offset its entry stores.
pub proof fn lemma_zero_size_is_empty(b: Seq<u8>, p: int, i: int)
    requires
        wad_at(b, p) is Ok,
        0 <= i < wad_at(b, p)->Ok_0.directory.len(),
        wad_at(b, p)->Ok_0.directory[i].size == 0,
    ensures
        wad_at(b, p)->Ok_0.data[i] == Seq::<u8>::empty(),
{
    lemma_read_well_formed(b, p);
    let w = wad_at(b, p)->Ok_0;
    assert(w.data[i].len() == w.directory[i].size);
}

/// Two reads of the same bytes from the same position give the same container, or the
/// same failure.
pub proof fn lemma_read_deterministic(
    b: Seq<u8>,
    p: int,
    first: Result<Wad, Error>,
    second: Result<Wad, Error>,
)
    requires
        read_view(first) == wad_at(b, p),
        read_view(second) == wad_at(b, p),
    ensures
        read_view(first) == read_view(second),
{
}

// ----------------------------------------------------------------------------------------
// Values
// ----------------------------------------------------------------------------------------

/// The type of container, `"IWAD"` or `"PWAD"`.
#[derive(Clone, Copy, Debug, PartialEq, Eq, Hash, Structural)]
pub enum WadType {
    Iwad,
    Pwad,
}

/// The header of a container.
#[derive(Clone, Copy, Debug, PartialEq, Eq, Structural)]
pub struct Header {
    /// The container type.
    pub ident: WadType,
    /// How many lumps the directory lists.
    pub num_lumps: usize,
    /// Where the directory starts.
    pub info_table_offset: usize,
}

/// An error when reading a container.
#[derive(Debug)]
pub enum Error {
    /// A lump name is not UTF-8.
    Utf8(std::str::Utf8Error),
    /// The tag is neither `IWAD` nor `PWAD`; it holds the tag, lossily decoded.
    InvalidWadType(String),
    /// The bytes ended before a read was complete.
    UnexpectedEof,
}

impl View for Error {
    type V = ErrorView;

    open spec fn view(&self) -> ErrorView {
        match self {
            Error::Utf8(_) => ErrorView::Utf8,
            Error::InvalidWadType(s) => ErrorView::InvalidWadType(s@),
            Error::UnexpectedEof => ErrorView::UnexpectedEof,
        }
    }
}

/// Bytes held in memory, read from a movable position.
pub struct ByteReader<'a> {
    bytes: &'a [u8],
    pos: usize,
}

impl<'a> ByteReader<'a> {
    /// The bytes that this reader reads.
    pub closed spec fn data(&self) -> Seq<u8> {
        self.bytes@
    }

    /// Where the next read starts; it may lie past the end.
    pub closed spec fn position(&self) -> int {
        self.pos as int
    }

    /// A reader at the start of `bytes`.
    pub fn new(bytes: &'a [u8]) -> (r: ByteReader<'a>)
        ensures
            r.data() == bytes@,
            r.position() == 0,
    {
        ByteReader { bytes, pos: 0 }
    }

    /// Where the next read starts.
    pub fn stream_position(&self) -> (r: usize)
        ensures
            r == self.position(),
    {
        self.pos
    }

    /// Moves to `pos`, counted from the start.
    pub fn seek(&mut self, pos: usize)
        ensures
            final(self).data() == old(self).data(),
            final(self).position() == pos,
    {
        self.pos = pos;
    }

    /// Reads exactly `n` bytes, or fails with `UnexpectedEof` and stays where it was.
    pub fn read_bytes(&mut self, n: usize) -> (r: Result<Vec<u8>, Error>)
        ensures
            final(self).data() == old(self).data(),
            fits(old(self).data(), old(self).position(), n as int) ==> (r matches Ok(v) && v@
                == old(self).data().subrange(old(self).position(), old(self).position() + n)
                && final(self).position() == old(self).position() + n),
            !fits(old(self).data(), old(self).position(), n as int) ==> (r matches Err(e) && e@
                == ErrorView::UnexpectedEof && final(self).position() == old(self).position()),
    {
        let len = self.bytes.len();
        if self.pos > len || n > len - self.pos {
            return Err(Error::UnexpectedEof);
        }
        let start = self.pos;
        let mut out: Vec<u8> = Vec::new();
        let mut i: usize = 0;
        while i < n
            invariant
                start + n <= len,
                len == self.bytes@.len(),
                i <= n,
                out@ == self.bytes@.subrange(start as int, start + i),
            decreases n - i,
        {
            out.push(self.bytes[start + i]);
            i = i + 1;
            assert(out@ =~= self.bytes@.subrange(start as int, start + i));
        }
        self.pos = start + n;
        Ok(out)
    }
}

/// A type that can be read as bytes from a [`ByteReader`].
pub trait ByteRead: Sized {
    /// Reads a value at the reader's position.
    fn read(r: &mut ByteReader) -> (res: Result<Self, Error>)
        ensures
            final(r).data() == old(r).data(),
    ;
}

fn le_u32(b: &Vec<u8>) -> (r: u32)
    requires
        b@.len() == 4,
    ensures
        r == le_u32_at(b@, 0),
{
    b[0] as u32 + 256 * (b[1] as u32) + 65536 * (b[2] as u32) + 16777216 * (b[3] as u32)
}

impl ByteRead for i32 {
    /// Reads a little-endian signed 32-bit integer.
    fn read(r: &mut ByteReader) -> (res: Result<i32, Error>)
        ensures
            fits(old(r).data(), old(r).position(), 4) ==> res == Ok::<i32, Error>(
                le_i32_at(old(r).data(), old(r).position()) as i32,
            ) && final(r).position() == old(r).position() + 4,
            !fits(old(r).data(), old(r).position(), 4) ==> (res matches Err(e) && e@
                == ErrorView::UnexpectedEof),
    {
        let b = r.read_bytes(4)?;
        let u = le_u32(&b);
        if u >= 0x8000_0000 {
            Ok((u - 0x8000_0000) as i32 - 0x7FFF_FFFF - 1)
        } else {
            Ok(u as i32)
        }
    }
}

/// A stored count, offset or size as a `usize`, sign-extended as Rust's `as` does.
fn to_size(x: i32) -> (r: usize)
    ensures
        r == x as usize,
{
    #[verifier::truncate]
    (x as usize)
}

impl ByteRead for Header {
    /// Reads and checks a header.
    fn read(r: &mut ByteReader) -> (res: Result<Header, Error>)
        ensures
            match header_at(old(r).data(), old(r).position()) {
                Ok(h) => res == Ok::<Header, Error>(h) && final(r).position() == old(
                    r,
                ).position() + 12,
                Err(e) => res matches Err(f) && f@ == e,
            },
    {
        let ghost b = r.data();
        let ghost p = r.position();
        let ident = r.read_bytes(4)?;
        assert(ident@ =~= b.subrange(p, p + 4));
        let kind = if ident[0] == 73 && ident[1] == 87 && ident[2] == 65 && ident[3] == 68 {
            assert(ident@ =~= seq![73u8, 87u8, 65u8, 68u8]);
            WadType::Iwad
        } else if ident[0] == 80 && ident[1] == 87 && ident[2] == 65 && ident[3] == 68 {
            assert(ident@ =~= seq![80u8, 87u8, 65u8, 68u8]);
            WadType::Pwad
        } else {
            assert(ident@ != seq![73u8, 87u8, 65u8, 68u8] ==> ident@[0] != 73 || ident@[1] != 87
                || ident@[2] != 65 || ident@[3] != 68);
            return Err(Error::InvalidWadType(lossy_string(ident.as_slice())));
        };
        let num_lumps = i32::read(r)?;
        let info_table_offset = i32::read(r)?;
        Ok(Header { ident: kind, num_lumps: to_size(num_lumps), info_table_offset: to_size(info_table_offset) })
    }
}

// ----------------------------------------------------------------------------------------
// The directory and the lump data
// ----------------------------------------------------------------------------------------

/// Where a lump lies and what it is called.
#[derive(Clone, Debug, PartialEq, Eq)]
struct LumpInfo {
    file_pos: usize,
    size: usize,
    name: String,
}

impl View for LumpInfo {
    type V = EntryView;

    closed spec fn view(&self) -> EntryView {
        EntryView { file_pos: self.file_pos as nat, size: self.size as nat, name: self.name@ }
    }
}

/// Reads the null-padded 8-byte name field.
fn read_string(r: &mut ByteReader) -> (res: Result<String, Error>)
    ensures
        final(r).data() == old(r).data(),
        !fits(old(r).data(), old(r).position(), 8) ==> (res matches Err(e) && e@
            == ErrorView::UnexpectedEof),
        fits(old(r).data(), old(r).position(), 8) ==> {
            let name = nul_trimmed(
                old(r).data().subrange(old(r).position(), old(r).position() + 8),
            );
            &&& valid_utf8(name) ==> (res matches Ok(s) && s@ == decode_utf8(name))
            &&& !valid_utf8(name) ==> (res matches Err(e) && e@ == ErrorView::Utf8)
            &&& final(r).position() == old(r).position() + 8
        },
{
    let bytes = r.read_bytes(8)?;
    let mut end: usize = 0;
    while end < 8 && bytes[end] != 0
        invariant
            bytes@.len() == 8,
            end <= 8,
            forall|j: int| 0 <= j < end ==> bytes@[j] != 0,
        decreases 8 - end,
    {
        end = end + 1;
    }
    proof {
        lemma_first_nul(bytes@);
        assert(first_nul(bytes@) == end);
    }
    let text = utf8_text(&bytes.as_slice()[0..end]);
    match text {
        Ok(s) => Ok(s),
        Err(e) => Err(Error::Utf8(e)),
    }
}

impl ByteRead for LumpInfo {
    /// Reads one directory entry.
    fn read(r: &mut ByteReader) -> (res: Result<LumpInfo, Error>)
        ensures
            match entry_at(old(r).data(), old(r).position()) {
                Ok(en) => res matches Ok(li) && li@ == en && final(r).position() == old(
                    r,
                ).position() + 16,
                Err(e) => res matches Err(f) && f@ == e,
            },
    {
        let file_pos = i32::read(r)?;
        let size = i32::read(r)?;
        let name = read_string(r)?;
        Ok(LumpInfo { file_pos: to_size(file_pos), size: to_size(size), name })
    }
}

impl LumpInfo {
    /// Reads the whole directory that the header describes, then moves the reader back to
    /// where it was, on every path.
    fn read_of(r: &mut ByteReader, header: &Header) -> (res: Result<Vec<LumpInfo>, Error>)
        ensures
            final(r).data() == old(r).data(),
            final(r).position() == old(r).position(),
            match directory_prefix(
                old(r).data(),
                header.info_table_offset as int,
                header.num_lumps as nat,
            ) {
                Ok(dir) => res matches Ok(v) && v@.map_values(|li: LumpInfo| li@) == dir,
                Err(e) => res matches Err(f) && f@ == e,
            },
    {
        let ghost b = r.data();
        let ghost off = header.info_table_offset as int;
        let old_cursor = r.stream_position();
        r.seek(header.info_table_offset);
        let mut infos: Vec<LumpInfo> = Vec::new();
        assert(infos@.map_values(|li: LumpInfo| li@) =~= Seq::<EntryView>::empty());
        let mut j: usize = 0;
        while j < header.num_lumps
            invariant
                r.data() == b,
                b == old(r).data(),
                old_cursor == old(r).position(),
                j <= header.num_lumps,
                r.position() == off + 16 * j,
                off == header.info_table_offset,
                directory_prefix(b, off, j as nat) == Ok::<Seq<EntryView>, ErrorView>(
                    infos@.map_values(|li: LumpInfo| li@),
                ),
            decreases header.num_lumps - j,
        {
            match LumpInfo::read(r) {
                Ok(li) => {
                    let ghost before = infos@;
                    infos.push(li);
                    assert(infos@.map_values(|li: LumpInfo| li@) =~= before.map_values(
                        |li: LumpInfo| li@,
                    ).push(li@));
                },
                Err(e) => {
                    proof {
                        lemma_directory_err(b, off, (j + 1) as nat, header.num_lumps as nat);
                    }
                    r.seek(old_cursor);
                    return Err(e);
                },
            }
            j = j + 1;
        }
        r.seek(old_cursor);
        Ok(infos)
    }
}

/// The bytes of one lump.
#[derive(Clone, Default)]
struct LumpData(Vec<u8>);

impl View for LumpData {
    type V = Seq<u8>;

    closed spec fn view(&self) -> Seq<u8> {
        self.0@
    }
}

impl LumpData {
    /// The data of a lump that holds no bytes.
    pub fn empty() -> (r: LumpData)
        ensures
            r@ == Seq::<u8>::empty(),
    {
        LumpData(Vec::new())
    }

    /// Reads the data of every lump of the directory, index-aligned with it, then moves the
    /// reader back to where it was, on every path. A zero-size lump gets an empty buffer and
    /// causes no read.
    fn read_of(r: &mut ByteReader, lump_infos: &Vec<LumpInfo>) -> (res: Result<
        Vec<LumpData>,
        Error,
    >)
        ensures
            final(r).data() == old(r).data(),
            final(r).position() == old(r).position(),
            match data_prefix(
                old(r).data(),
                lump_infos@.map_values(|li: LumpInfo| li@),
                lump_infos@.len(),
            ) {
                Ok(ds) => res matches Ok(v) && v@.map_values(|d: LumpData| d@) == ds,
                Err(e) => res matches Err(f) && f@ == e,
            },
    {
        let ghost b = r.data();
        let ghost dir = lump_infos@.map_values(|li: LumpInfo| li@);
        let old_cursor = r.stream_position();
        let mut out: Vec<LumpData> = Vec::new();
        assert(out@.map_values(|d: LumpData| d@) =~= Seq::<Seq<u8>>::empty());
        let mut j: usize = 0;
        while j < lump_infos.len()
            invariant
                r.data() == b,
                b == old(r).data(),
                old_cursor == old(r).position(),
                j <= lump_infos@.len(),
                dir == lump_infos@.map_values(|li: LumpInfo| li@),
                data_prefix(b, dir, j as nat) == Ok::<Seq<Seq<u8>>, ErrorView>(
                    out@.map_values(|d: LumpData| d@),
                ),
            decreases lump_infos@.len() - j,
        {
            let info = &lump_infos[j];
            assert(dir[j as int] == info@);
            let data = if info.size > 0 {
                r.seek(info.file_pos);
                match r.read_bytes(info.size) {
                    Ok(buf) => LumpData(buf),
                    Err(e) => {
                        proof {
                            lemma_data_err(b, dir, (j + 1) as nat, lump_infos@.len());
                        }
                        r.seek(old_cursor);
                        return Err(e);
                    },
                }
            } else {
                LumpData::empty()
            };
            let ghost before = out@;
            out.push(data);
            assert(out@.map_values(|d: LumpData| d@) =~= before.map_values(|d: LumpData| d@).push(
                data@,
            ));
            j = j + 1;
        }
        r.seek(old_cursor);
        Ok(out)
    }

    /// The bytes.
    pub fn as_slice(&self) -> (r: &[u8])
        ensures
            r@ == self@,
    {
        self.0.as_slice()
    }
}

// ----------------------------------------------------------------------------------------
// The container
// ----------------------------------------------------------------------------------------

/// A container held in memory. It never changes after it is read.
pub struct Wad {
    header: Header,
    lump_infos: Vec<LumpInfo>,
    lump_data: Vec<LumpData>,
}

impl View for Wad {
    type V = WadView;

    closed spec fn view(&self) -> WadView {
        WadView {
            header: self.header,
            directory: self.lump_infos@.map_values(|li: LumpInfo| li@),
            data: self.lump_data@.map_values(|d: LumpData| d@),
        }
    }
}

/// The result of a read, with the opaque parts of values and errors left out.
pub open spec fn read_view(r: Result<Wad, Error>) -> Result<WadView, ErrorView> {
    match r {
        Ok(w) => Ok(w@),
        Err(e) => Err(e@),
    }
}

impl Wad {
    #[verifier::type_invariant]
    spec fn inv(&self) -> bool {
        well_formed(self@)
    }

    /// Reads a container whose header starts at the reader's position. On success the
    /// reader stands right after the header.
    pub fn from_reader(r: &mut ByteReader) -> (res: Result<Wad, Error>)
        ensures
            final(r).data() == old(r).data(),
            read_view(res) == wad_at(old(r).data(), old(r).position()),
            res is Ok ==> final(r).position() == old(r).position() + 12,
    {
        let ghost b = r.data();
        let ghost p = r.position();
        let header = Header::read(r)?;
        let lump_infos = LumpInfo::read_of(r, &header)?;
        let lump_data = LumpData::read_of(r, &lump_infos)?;
        proof {
            lemma_directory_prefix(b, header.info_table_offset as int, header.num_lumps as nat);
            let dir = lump_infos@.map_values(|li: LumpInfo| li@);
            lemma_data_prefix(b, dir, dir.len());
            let data = lump_data@.map_values(|d: LumpData| d@);
            assert(forall|i: int| 0 <= i < data.len() ==> #[trigger] data[i].len() == dir[i].size);
        }
        let w = Wad { header, lump_infos, lump_data };
        Ok(w)
    }

    /// The header.
    pub fn header(&self) -> (r: &Header)
        ensures
            *r == self@.header,
    {
        &self.header
    }

    /// How many lumps the container holds.
    pub fn len(&self) -> (r: usize)
        ensures
            r == self@.directory.len(),
    {
        self.lump_infos.len()
    }

    /// All the lumps, in stored order.
    pub fn lumps(&self) -> (r: Vec<Lump<'_>>)
        ensures
            r@.len() == self@.directory.len(),
            forall|i: int|
                0 <= i < r@.len() ==> #[trigger] r@[i].name_view() == self@.directory[i].name
                    && r@[i].data_view() == self@.data[i],
    {
        proof {
            use_type_invariant(self);
        }
        let mut out: Vec<Lump<'_>> = Vec::new();
        let mut i: usize = 0;
        while i < self.lump_infos.len()
            invariant
                well_formed(self@),
                i <= self.lump_infos@.len(),
                out@.len() == i,
                forall|k: int|
                    0 <= k < i ==> #[trigger] out@[k].name_view() == self@.directory[k].name
                        && out@[k].data_view() == self@.data[k],
            decreases self.lump_infos@.len() - i,
        {
            out.push(Lump { lump_info: &self.lump_infos[i], lump_data: &self.lump_data[i] });
            i = i + 1;
        }
        out
    }

    /// The first lump named `name`, in stored order.
    pub fn lump(&self, name: &str) -> (r: Option<Lump<'_>>)
        ensures
            first_named(self@.directory, name@) == self@.directory.len() ==> r is None,
            first_named(self@.directory, name@) < self@.directory.len() ==> (r matches Some(l)
                && l.name_view() == name@ && l.data_view() == self@.data[first_named(
                self@.directory,
                name@,
            )]),
    {
        proof {
            use_type_invariant(self);
            lemma_first_named(self@.directory, name@);
        }
        let mut i: usize = 0;
        while i < self.lump_infos.len()
            invariant
                well_formed(self@),
                i <= self.lump_infos@.len(),
                forall|k: int| 0 <= k < i ==> self@.directory[k].name != name@,
            decreases self.lump_infos@.len() - i,
        {
            if str_equal(self.lump_infos[i].name.as_str(), name) {
                proof {
                    lemma_first_named(self@.directory, name@);
                }
                assert(self@.directory[i as int].name == name@);
                return Some(Lump { lump_info: &self.lump_infos[i], lump_data: &self.lump_data[i] });
            }
            i = i + 1;
        }
        None
    }
}

/// A borrowed view of one lump of a [`Wad`].
pub struct Lump<'a> {
    lump_info: &'a LumpInfo,
    lump_data: &'a LumpData,
}

impl<'a> Lump<'a> {
    /// The lump's name.
    pub closed spec fn name_view(&self) -> Seq<char> {
        self.lump_info.name@
    }

    /// The lump's bytes.
    pub closed spec fn data_view(&self) -> Seq<u8> {
        self.lump_data@
    }

    /// The name of the lump.
    pub fn name(&self) -> (r: &str)
        ensures
            r@ == self.name_view(),
    {
        self.lump_info.name.as_str()
    }

    /// The lump's bytes.
    pub fn data(&self) -> (r: &[u8])
        ensures
            r@ == self.data_view(),
    {
        self.lump_data.as_slice()
    }
}

} // verus!
