//! WAD3 texture archives: a magic, an entry count and a directory of
//! fixed-size records naming byte regions of the archive.
use vstd::prelude::*;
use crate::bytes::{cstr_of, decode_name, le_u32_at, name_field_ok, read_u32};
use crate::error::DecodeError;
use crate::miptex::{
    hdr_height, hdr_offset, hdr_width, is_keyed, mip_len, packed_of, palette_offset, side_divisor,
    MipTex, Texture, COLOR_TABLE_SIZE, MIPTEX_HEADER_SIZE, MIP_NUM, NAME_LEN,
};

verus! {

/// Bytes of the archive header: magic, entry count, directory offset.
pub const WAD_HEADER_SIZE: usize = 12;

/// Bytes of one directory record.
pub const DIR_ENTRY_SIZE: usize = 32;

pub open spec fn is_wad3_magic(b: Seq<u8>) -> bool {
    b[0] == 0x57 && b[1] == 0x41 && b[2] == 0x44 && b[3] == 0x33
}

pub open spec fn wad_count(b: Seq<u8>) -> u32 {
    le_u32_at(b, 4)
}

pub open spec fn wad_dir_offset(b: Seq<u8>) -> u32 {
    le_u32_at(b, 8)
}

/// A directory record as stored, its name field uncut.
pub struct DirEntryView {
    pub file_pos: u32,
    pub disk_size: u32,
    pub size: u32,
    pub entry_type: u8,
    pub compression: u8,
    pub name: Seq<u8>,
}

pub open spec fn dir_entry_at(b: Seq<u8>, at: int) -> DirEntryView {
    DirEntryView {
        file_pos: le_u32_at(b, at),
        disk_size: le_u32_at(b, at + 4),
        size: le_u32_at(b, at + 8),
        entry_type: b[at + 12],
        compression: b[at + 13],
        name: b.subrange(at + 16, at + 32),
    }
}

/// The directory lies inside the buffer.
pub open spec fn directory_in_bounds(b: Seq<u8>) -> bool {
    wad_dir_offset(b) as int + DIR_ENTRY_SIZE as int * wad_count(b) as int <= b.len()
}

/// The outcome of reading the header and directory of an archive.
pub open spec fn directory_error(b: Seq<u8>) -> Option<DecodeError> {
    if b.len() < 4 {
        Some(DecodeError::OutOfBounds)
    } else if !is_wad3_magic(b) {
        Some(DecodeError::VersionMismatch)
    } else if b.len() < WAD_HEADER_SIZE || !directory_in_bounds(b) {
        Some(DecodeError::OutOfBounds)
    } else {
        None
    }
}

pub open spec fn dir_entries_of(b: Seq<u8>) -> Seq<DirEntryView> {
    Seq::new(
        wad_count(b) as nat,
        |i: int| dir_entry_at(b, wad_dir_offset(b) as int + DIR_ENTRY_SIZE as int * i),
    )
}

/// A directory record.
pub struct DirEntry {
    pub file_pos: u32,
    pub disk_size: u32,
    pub size: u32,
    pub entry_type: u8,
    pub compression: u8,
    pub name: Vec<u8>,
}

impl View for DirEntry {
    type V = DirEntryView;

    open spec fn view(&self) -> DirEntryView {
        DirEntryView {
            file_pos: self.file_pos,
            disk_size: self.disk_size,
            size: self.size,
            entry_type: self.entry_type,
            compression: self.compression,
            name: self.name@,
        }
    }
}

/// Read the header and every directory record of an archive.
pub fn entries(buf: &[u8]) -> (r: Result<Vec<DirEntry>, DecodeError>)
    ensures
        match r {
            Ok(v) => directory_error(buf@) is None && v@.len() == wad_count(buf@) && forall|i: int|
                0 <= i < v@.len() ==> (#[trigger] v@[i])@ == dir_entries_of(buf@)[i],
            Err(e) => directory_error(buf@) == Some(e),
        },
{
    let len = buf.len();
    if len < 4 {
        return Err(DecodeError::OutOfBounds);
    }
    if !(buf[0] == 0x57 && buf[1] == 0x41 && buf[2] == 0x44 && buf[3] == 0x33) {
        return Err(DecodeError::VersionMismatch);
    }
    if len < WAD_HEADER_SIZE {
        return Err(DecodeError::OutOfBounds);
    }
    let count = read_u32(buf, 4);
    let dir_offset = read_u32(buf, 8);
    if dir_offset as u64 + 32 * (count as u64) > len as u64 {
        return Err(DecodeError::OutOfBounds);
    }
    let mut out: Vec<DirEntry> = Vec::new();
    let mut i: u32 = 0;
    while i < count
        invariant
            len == buf@.len(),
            len >= WAD_HEADER_SIZE,
            count == wad_count(buf@),
            dir_offset == wad_dir_offset(buf@),
            directory_in_bounds(buf@),
            i <= count,
            out@.len() == i,
            forall|k: int| 0 <= k < i ==> (#[trigger] out@[k])@ == dir_entries_of(buf@)[k],
        decreases count - i,
    {
        let at = dir_offset as usize + 32 * (i as usize);
        let e = DirEntry {
            file_pos: read_u32(buf, at),
            disk_size: read_u32(buf, at + 4),
            size: read_u32(buf, at + 8),
            entry_type: buf[at + 12],
            compression: buf[at + 13],
            name: vstd::slice::slice_to_vec(vstd::slice::slice_subrange(buf, at + 16, at + 32)),
        };
        out.push(e);
        i = i + 1;
    }
    Ok(out)
}

/// An archive entry: its name, type byte and stored bytes.
pub struct EntryView {
    pub name: Seq<u8>,
    pub etype: u8,
    pub data: Seq<u8>,
}

/// What a directory record of `b` resolves to.
pub open spec fn entry_of(b: Seq<u8>, d: DirEntryView) -> Result<EntryView, DecodeError> {
    if d.compression != 0 {
        Err(DecodeError::UnsupportedCompression)
    } else if !name_field_ok(d.name) {
        Err(DecodeError::InvalidName)
    } else if d.file_pos as int + d.disk_size as int > b.len() {
        Err(DecodeError::OutOfBounds)
    } else {
        Ok(
            EntryView {
                name: cstr_of(d.name),
                etype: d.entry_type,
                data: b.subrange(d.file_pos as int, d.file_pos as int + d.disk_size as int),
            },
        )
    }
}

/// An archive entry.
pub struct Entry {
    pub name: Vec<u8>,
    pub etype: u8,
    pub data: Vec<u8>,
}

impl View for Entry {
    type V = EntryView;

    open spec fn view(&self) -> EntryView {
        EntryView { name: self.name@, etype: self.etype, data: self.data@ }
    }
}

impl Named for Entry {
    open spec fn spec_name(&self) -> Seq<u8> {
        self.name@
    }

    fn name_bytes(&self) -> (r: &[u8]) {
        self.name.as_slice()
    }
}

impl Named for (Vec<u8>, Texture) {
    open spec fn spec_name(&self) -> Seq<u8> {
        self.0@
    }

    fn name_bytes(&self) -> (r: &[u8]) {
        self.0.as_slice()
    }
}

impl Entry {
    pub fn etype(&self) -> (r: u8)
        ensures
            r == self.etype,
    {
        self.etype
    }

    pub fn data(&self) -> (r: &[u8])
        ensures
            r@ == self.data@,
    {
        self.data.as_slice()
    }

    /// Resolve a directory record against the archive's bytes.
    fn parse(d: &DirEntry, file: &[u8]) -> (r: Result<Entry, DecodeError>)
        ensures
            match r {
                Ok(e) => entry_of(file@, d@) == Ok::<EntryView, DecodeError>(e@),
                Err(e) => entry_of(file@, d@) == Err::<EntryView, DecodeError>(e),
            },
    {
        if d.compression != 0 {
            return Err(DecodeError::UnsupportedCompression);
        }
        let name = match decode_name(d.name.as_slice()) {
            Some(n) => n,
            None => {
                return Err(DecodeError::InvalidName);
            },
        };
        let off = d.file_pos as usize;
        let size = d.disk_size as usize;
        if off > file.len() || size > file.len() - off {
            return Err(DecodeError::OutOfBounds);
        }
        let data = vstd::slice::slice_to_vec(vstd::slice::slice_subrange(file, off, off + size));
        Ok(Entry { name, etype: d.entry_type, data })
    }
}

/// Every directory record of `b` resolved; meaningful where all resolve.
pub open spec fn resolved_entries(b: Seq<u8>) -> Seq<EntryView> {
    Seq::new(
        wad_count(b) as nat,
        |i: int| entry_of(b, dir_entries_of(b)[i])->Ok_0,
    )
}

pub open spec fn entry_names(a: Seq<EntryView>) -> Seq<Seq<u8>> {
    a.map_values(|e: EntryView| e.name)
}

/// The archive that `b` decodes to: every entry resolves, and of entries
/// with equal names only the last one is kept.
pub open spec fn archive_ok(b: Seq<u8>, a: Seq<EntryView>) -> bool {
    &&& directory_error(b) is None
    &&& forall|i: int|
        0 <= i < wad_count(b) ==> (#[trigger] entry_of(b, dir_entries_of(b)[i])) is Ok
    &&& a == kept_from(entry_names(resolved_entries(b)), 0).map_values(
        |k: int| resolved_entries(b)[k],
    )
}

pub open spec fn archive_fails(b: Seq<u8>, e: DecodeError) -> bool {
    ||| directory_error(b) == Some(e)
    ||| {
        &&& directory_error(b) is None
        &&& exists|i: int|
            0 <= i < wad_count(b) && entry_of(b, dir_entries_of(b)[i]) == Err::<
                EntryView,
                DecodeError,
            >(e) && forall|j: int|
                0 <= j < i ==> (#[trigger] entry_of(b, dir_entries_of(b)[j])) is Ok
    }
}

/// No other name of `names` after position `i` equals the one at `i`.
pub open spec fn is_last(names: Seq<Seq<u8>>, i: int) -> bool {
    forall|j: int| i < j < names.len() ==> names[j] != names[i]
}

/// The positions from `i` on whose name does not come again later, in
/// order.
pub open spec fn kept_from(names: Seq<Seq<u8>>, i: int) -> Seq<int>
    decreases names.len() - i,
{
    if i < 0 || i >= names.len() {
        Seq::empty()
    } else {
        (if is_last(names, i) {
            seq![i]
        } else {
            Seq::empty()
        }) + kept_from(names, i + 1)
    }
}

/// The names are pairwise distinct.
pub open spec fn distinct(names: Seq<Seq<u8>>) -> bool {
    forall|a: int, b: int| 0 <= a < b < names.len() ==> names[a] != names[b]
}

proof fn lemma_kept_from(names: Seq<Seq<u8>>, i: int)
    requires
        0 <= i,
    ensures
        forall|p: int|
            0 <= p < kept_from(names, i).len() ==> i <= #[trigger] kept_from(names, i)[p]
                < names.len() && is_last(names, kept_from(names, i)[p]),
        forall|p: int, q: int|
            0 <= p < q < kept_from(names, i).len() ==> #[trigger] kept_from(names, i)[p]
                < #[trigger] kept_from(names, i)[q],
    decreases names.len() - i,
{
    if i < names.len() {
        lemma_kept_from(names, i + 1);
        let head: Seq<int> = if is_last(names, i) {
            seq![i]
        } else {
            Seq::empty()
        };
        let tail = kept_from(names, i + 1);
        assert(kept_from(names, i) == head + tail);
        assert forall|p: int| 0 <= p < kept_from(names, i).len() implies i <= #[trigger] kept_from(
            names,
            i,
        )[p] < names.len() && is_last(names, kept_from(names, i)[p]) by {
            if p >= head.len() {
                assert(kept_from(names, i)[p] == tail[p - head.len()]);
            }
        }
        assert forall|p: int, q: int|
            0 <= p < q < kept_from(names, i).len() implies #[trigger] kept_from(names, i)[p]
            < #[trigger] kept_from(names, i)[q] by {
            assert(kept_from(names, i)[q] == tail[q - head.len()]);
            if p >= head.len() {
                assert(kept_from(names, i)[p] == tail[p - head.len()]);
            }
        }
    }
}

/// Keeping the last of equal names leaves pairwise distinct names.
pub proof fn lemma_kept_distinct(names: Seq<Seq<u8>>)
    ensures
        distinct(kept_from(names, 0).map_values(|k: int| names[k])),
{
    lemma_kept_from(names, 0);
    let ks = kept_from(names, 0);
    let kn = ks.map_values(|k: int| names[k]);
    assert forall|a: int, b: int| 0 <= a < b < kn.len() implies kn[a] != kn[b] by {
        assert(ks[a] < ks[b]);
        assert(is_last(names, ks[a]));
    }
}

/// An item that carries a name.
pub trait Named: Sized {
    spec fn spec_name(&self) -> Seq<u8>;

    fn name_bytes(&self) -> (r: &[u8])
        ensures
            r@ == self.spec_name(),
    ;
}

pub open spec fn names_of<T: Named>(s: Seq<T>) -> Seq<Seq<u8>> {
    s.map_values(|x: T| x.spec_name())
}

/// Some item of `items` carries this name.
fn name_taken<T: Named>(items: &Vec<T>, name: &[u8]) -> (r: bool)
    ensures
        r == exists|j: int| 0 <= j < items@.len() && items@[j].spec_name() == name@,
{
    let mut j: usize = 0;
    while j < items.len()
        invariant
            j <= items@.len(),
            forall|k: int| 0 <= k < j ==> items@[k].spec_name() != name@,
        decreases items@.len() - j,
    {
        if bytes_eq(items[j].name_bytes(), name) {
            return true;
        }
        j = j + 1;
    }
    false
}

/// Of items with equal names keep only the last, in order.
fn keep_last<T: Named>(all: Vec<T>) -> (r: Vec<T>)
    ensures
        r@ == kept_from(names_of(all@), 0).map_values(|k: int| all@[k]),
{
    let ghost orig = all@;
    let ghost names = names_of(orig);
    let n = all.len();
    let mut rest = all;
    let mut out: Vec<T> = Vec::new();
    let ghost mut ks: Seq<int> = Seq::empty();
    let mut i: usize = 0;
    assert(rest@ =~= orig.subrange(0, n as int));
    assert(kept_from(names, 0) =~= ks + kept_from(names, 0));
    while i < n
        invariant
            n == orig.len(),
            names == names_of(orig),
            i <= n,
            rest@ == orig.subrange(i as int, n as int),
            kept_from(names, 0) == ks + kept_from(names, i as int),
            out@ == ks.map_values(|k: int| orig[k]),
        decreases n - i,
    {
        let item = rest.remove(0);
        assert(item == orig[i as int]);
        assert(rest@ =~= orig.subrange(i + 1, n as int));
        let repeated = name_taken(&rest, item.name_bytes());
        proof {
            assert(names[i as int] == item.spec_name());
            if repeated {
                let j = choose|j: int| 0 <= j < rest@.len() && rest@[j].spec_name() == item.spec_name();
                assert(rest@[j] == orig[i + 1 + j]);
                assert(names[i + 1 + j] == names[i as int]);
                assert(!is_last(names, i as int));
            } else {
                assert forall|j: int| i < j < names.len() implies names[j] != names[i as int] by {
                    assert(rest@[j - i - 1] == orig[j]);
                }
            }
            assert(kept_from(names, i as int) == (if is_last(names, i as int) {
                seq![i as int]
            } else {
                Seq::<int>::empty()
            }) + kept_from(names, i + 1));
        }
        if !repeated {
            out.push(item);
            proof {
                assert(ks.push(i as int).map_values(|k: int| orig[k]) =~= ks.map_values(
                    |k: int| orig[k],
                ).push(orig[i as int]));
                assert(ks + (seq![i as int] + kept_from(names, i + 1)) =~= ks.push(i as int)
                    + kept_from(names, i + 1));
                ks = ks.push(i as int);
            }
        } else {
            assert(ks + (Seq::<int>::empty() + kept_from(names, i + 1)) =~= ks + kept_from(
                names,
                i + 1,
            ));
        }
        i = i + 1;
    }
    assert(ks + kept_from(names, n as int) =~= ks);
    out
}

/// The last entry of `a` with exactly this name.
pub open spec fn lookup(a: Seq<EntryView>, name: Seq<u8>) -> Option<EntryView>
    decreases a.len(),
{
    if a.len() == 0 {
        None
    } else if a.last().name == name {
        Some(a.last())
    } else {
        lookup(a.drop_last(), name)
    }
}

/// Under distinct names, each entry is found under its own name.
pub proof fn lemma_lookup_distinct(a: Seq<EntryView>, i: int)
    requires
        0 <= i < a.len(),
        distinct(entry_names(a)),
    ensures
        lookup(a, a[i].name) == Some(a[i]),
    decreases a.len(),
{
    if i < a.len() - 1 {
        assert(entry_names(a)[i] != entry_names(a)[a.len() - 1]);
        let d = a.drop_last();
        assert forall|x: int, y: int| 0 <= x < y < entry_names(d).len() implies entry_names(d)[x]
            != entry_names(d)[y] by {
            assert(entry_names(d)[x] == entry_names(a)[x]);
            assert(entry_names(d)[y] == entry_names(a)[y]);
        }
        lemma_lookup_distinct(d, i);
        assert(d[i] == a[i]);
    }
}

/// Byte-wise equality.
pub fn bytes_eq(a: &[u8], b: &[u8]) -> (r: bool)
    ensures
        r == (a@ == b@),
{
    if a.len() != b.len() {
        return false;
    }
    let mut i: usize = 0;
    while i < a.len()
        invariant
            a@.len() == b@.len(),
            i <= a@.len(),
            forall|k: int| 0 <= k < i ==> a@[k] == b@[k],
        decreases a@.len() - i,
    {
        if a[i] != b[i] {
            return false;
        }
        i = i + 1;
    }
    assert(a@ =~= b@);
    true
}

/// A WAD3 archive: one entry per name, the last of its name in the
/// directory, kept in directory order.
pub struct Archive {
    pub entries: Vec<Entry>,
}

impl View for Archive {
    type V = Seq<EntryView>;

    open spec fn view(&self) -> Seq<EntryView> {
        Seq::new(self.entries@.len(), |i: int| self.entries@[i]@)
    }
}

impl Archive {
    /// No two entries share a name.
    pub open spec fn wf(&self) -> bool {
        forall|x: int, y: int|
            0 <= x < y < self.entries@.len() ==> self.entries@[x].name@ != self.entries@[y].name@
    }

    /// Decode an archive: header, directory, then every entry's bytes. Of
    /// entries with equal names the last one is kept.
    pub fn parse(file: &[u8]) -> (r: Result<Archive, DecodeError>)
        ensures
            match r {
                Ok(a) => archive_ok(file@, a@) && a.wf(),
                Err(e) => archive_fails(file@, e),
            },
    {
        let dir = entries(file)?;
        let mut out: Vec<Entry> = Vec::with_capacity(dir.len());
        let mut i: usize = 0;
        while i < dir.len()
            invariant
                directory_error(file@) is None,
                dir@.len() == wad_count(file@),
                forall|k: int| 0 <= k < dir@.len() ==> (#[trigger] dir@[k])@ == dir_entries_of(file@)[k],
                i <= dir@.len(),
                out@.len() == i,
                forall|k: int|
                    0 <= k < i ==> entry_of(file@, dir_entries_of(file@)[k]) == Ok::<
                        EntryView,
                        DecodeError,
                    >((#[trigger] out@[k])@),
            decreases dir@.len() - i,
        {
            let e = match Entry::parse(&dir[i], file) {
                Ok(e) => e,
                Err(e) => {
                    assert(dir@[i as int]@ == dir_entries_of(file@)[i as int]);
                    assert forall|j: int| 0 <= j < i implies (#[trigger] entry_of(
                        file@,
                        dir_entries_of(file@)[j],
                    )) is Ok by {
                        assert(entry_of(file@, dir_entries_of(file@)[j]) == Ok::<
                            EntryView,
                            DecodeError,
                        >(out@[j]@));
                    }
                    return Err(e);
                },
            };
            out.push(e);
            i = i + 1;
        }
        let ghost all = out@;
        let ghost resolved = resolved_entries(file@);
        proof {
            assert forall|k: int| 0 <= k < all.len() implies (#[trigger] all[k])@ == resolved[k] by {
                assert(entry_of(file@, dir_entries_of(file@)[k]) == Ok::<EntryView, DecodeError>(
                    all[k]@,
                ));
            }
            assert(names_of(all) =~= entry_names(resolved));
            assert forall|i: int| 0 <= i < wad_count(file@) implies (#[trigger] entry_of(
                file@,
                dir_entries_of(file@)[i],
            )) is Ok by {
                assert(entry_of(file@, dir_entries_of(file@)[i]) == Ok::<EntryView, DecodeError>(
                    all[i]@,
                ));
            }
        }
        let kept = keep_last(out);
        let a = Archive { entries: kept };
        proof {
            let ks = kept_from(entry_names(resolved), 0);
            lemma_kept_from(entry_names(resolved), 0);
            assert(a@ =~= ks.map_values(|k: int| resolved[k]));
            lemma_kept_distinct(entry_names(resolved));
            let kn = ks.map_values(|k: int| entry_names(resolved)[k]);
            assert forall|x: int, y: int| 0 <= x < y < a.entries@.len() implies a.entries@[x].name@
                != a.entries@[y].name@ by {
                assert(kn[x] == a.entries@[x].name@);
                assert(kn[y] == a.entries@[y].name@);
            }
        }
        Ok(a)
    }

    /// Every entry once; each is what `get_by_name` finds under its name.
    pub fn entries(&self) -> (r: &[Entry])
        requires
            self.wf(),
        ensures
            r@ == self.entries@,
            forall|i: int| 0 <= i < r@.len() ==> lookup(self@, (#[trigger] r@[i]).name@) == Some(r@[i]@),
    {
        proof {
            assert forall|x: int, y: int| 0 <= x < y < entry_names(self@).len() implies entry_names(
                self@,
            )[x] != entry_names(self@)[y] by {
                assert(entry_names(self@)[x] == self.entries@[x].name@);
                assert(entry_names(self@)[y] == self.entries@[y].name@);
            }
            assert forall|i: int| 0 <= i < self.entries@.len() implies lookup(
                self@,
                (#[trigger] self.entries@[i]).name@,
            ) == Some(self.entries@[i]@) by {
                assert(self@[i] == self.entries@[i]@);
                lemma_lookup_distinct(self@, i);
            }
        }
        self.entries.as_slice()
    }

    /// The entry with exactly this name; the last one where names repeat.
    pub fn get_by_name(&self, name: &[u8]) -> (r: Option<&Entry>)
        ensures
            match r {
                Some(e) => lookup(self@, name@) == Some(e@),
                None => lookup(self@, name@) is None,
            },
    {
        let mut i: usize = self.entries.len();
        assert(self@.subrange(0, i as int) =~= self@);
        while i > 0
            invariant
                i <= self.entries@.len(),
                lookup(self@, name@) == lookup(self@.subrange(0, i as int), name@),
            decreases i,
        {
            let e = &self.entries[i - 1];
            proof {
                let sub = self@.subrange(0, i as int);
                assert(sub.last() == e@);
                assert(sub.drop_last() =~= self@.subrange(0, i - 1));
            }
            if bytes_eq(e.name.as_slice(), name) {
                return Some(e);
            }
            i = i - 1;
        }
        assert(self@.subrange(0, 0) =~= Seq::<EntryView>::empty());
        None
    }
}

/// The bytes of an archive from a directory record's position on.
pub open spec fn record_of(b: Seq<u8>, d: DirEntryView) -> Seq<u8> {
    b.subrange(d.file_pos as int, b.len() as int)
}

pub open spec fn record_level_width(rec: Seq<u8>, level: int) -> int {
    hdr_width(rec) as int / side_divisor(level)
}

pub open spec fn record_level_height(rec: Seq<u8>, level: int) -> int {
    hdr_height(rec) as int / side_divisor(level)
}

/// The record holds a mip texture header, its palette and the indices of one
/// level.
pub open spec fn record_level_ok(b: Seq<u8>, d: DirEntryView, level: int) -> bool {
    let rec = record_of(b, d);
    &&& d.file_pos as int <= b.len()
    &&& rec.len() >= MIPTEX_HEADER_SIZE
    &&& name_field_ok(rec.subrange(0, NAME_LEN as int))
    &&& palette_offset(hdr_width(rec), hdr_height(rec), hdr_offset(rec, 3)) + COLOR_TABLE_SIZE
        <= rec.len()
    &&& hdr_offset(rec, level) as int + mip_len(hdr_width(rec), hdr_height(rec), level)
        <= rec.len()
}

/// `t` is that level, decoded through the record's palette.
pub open spec fn record_level_is(b: Seq<u8>, d: DirEntryView, level: int, t: Texture) -> bool {
    let rec = record_of(b, d);
    let p = palette_offset(hdr_width(rec), hdr_height(rec), hdr_offset(rec, 3));
    let name = cstr_of(rec.subrange(0, NAME_LEN as int));
    &&& t.wf()
    &&& t.width == record_level_width(rec, level)
    &&& t.height == record_level_height(rec, level)
    &&& t.pixels@.len() == mip_len(hdr_width(rec), hdr_height(rec), level)
    &&& forall|i: int|
        0 <= i < t.pixels@.len() ==> t.pixels@[i] == packed_of(
            rec.subrange(p, p + COLOR_TABLE_SIZE),
            rec[hdr_offset(rec, level) as int + i] as int,
            is_keyed(name),
        )
}

/// The names that the records of `b` give their textures.
pub open spec fn record_names(b: Seq<u8>) -> Seq<Seq<u8>> {
    Seq::new(
        wad_count(b) as nat,
        |i: int| cstr_of(record_of(b, dir_entries_of(b)[i]).subrange(0, NAME_LEN as int)),
    )
}

/// Decode one mip level of every texture of an archive, under each texture's
/// own name; of textures with equal names the last one is kept.
pub fn read_textures(buf: &[u8], mip_level: usize) -> (r: Result<Vec<(Vec<u8>, Texture)>, DecodeError>)
    requires
        mip_level < MIP_NUM,
    ensures
        match r {
            Ok(v) => {
                let names = record_names(buf@);
                let ks = kept_from(names, 0);
                &&& directory_error(buf@) is None
                &&& forall|i: int|
                    0 <= i < wad_count(buf@) ==> record_level_ok(
                        buf@,
                        #[trigger] dir_entries_of(buf@)[i],
                        mip_level as int,
                    )
                &&& v@.len() == ks.len()
                &&& forall|p: int|
                    0 <= p < v@.len() ==> {
                        let d = dir_entries_of(buf@)[ks[p]];
                        &&& (#[trigger] v@[p]).0@ == names[ks[p]]
                        &&& record_level_is(buf@, d, mip_level as int, v@[p].1)
                    }
                &&& distinct(names_of(v@))
            },
            Err(e) => directory_error(buf@) == Some(e) || (directory_error(buf@) is None
                && exists|i: int|
                0 <= i < wad_count(buf@) && !record_level_ok(
                    buf@,
                    #[trigger] dir_entries_of(buf@)[i],
                    mip_level as int,
                )),
        },
{
    let dir = entries(buf)?;
    let mut out: Vec<(Vec<u8>, Texture)> = Vec::with_capacity(dir.len());
    let mut i: usize = 0;
    while i < dir.len()
        invariant
            mip_level < MIP_NUM,
            directory_error(buf@) is None,
            dir@.len() == wad_count(buf@),
            forall|k: int| 0 <= k < dir@.len() ==> (#[trigger] dir@[k])@ == dir_entries_of(buf@)[k],
            i <= dir@.len(),
            out@.len() == i,
            forall|k: int|
                0 <= k < i ==> {
                    let d = #[trigger] dir_entries_of(buf@)[k];
                    &&& record_level_ok(buf@, d, mip_level as int)
                    &&& out@[k].0@ == cstr_of(record_of(buf@, d).subrange(0, NAME_LEN as int))
                    &&& record_level_is(buf@, d, mip_level as int, out@[k].1)
                },
        decreases dir@.len() - i,
    {
        let ghost d = dir_entries_of(buf@)[i as int];
        assert(dir@[i as int]@ == d);
        let pos = dir[i].file_pos as usize;
        if pos > buf.len() {
            assert(!record_level_ok(buf@, d, mip_level as int));
            return Err(DecodeError::OutOfBounds);
        }
        let rec = vstd::slice::slice_subrange(buf, pos, buf.len());
        assert(rec@ == record_of(buf@, d));
        let header = match MipTex::parse(rec) {
            Ok(h) => h,
            Err(e) => {
                assert(!record_level_ok(buf@, d, mip_level as int));
                return Err(e);
            },
        };
        let texture = match header.get_texture(rec, mip_level) {
            Ok(t) => t,
            Err(e) => {
                assert(!record_level_ok(buf@, d, mip_level as int));
                return Err(e);
            },
        };
        assert(record_level_is(buf@, d, mip_level as int, texture));
        out.push((header.name, texture));
        i = i + 1;
    }
    let ghost all = out@;
    let ghost names = record_names(buf@);
    proof {
        assert(names_of(all) =~= names);
    }
    let kept = keep_last(out);
    proof {
        let ks = kept_from(names, 0);
        lemma_kept_from(names, 0);
        lemma_kept_distinct(names);
        let kn = ks.map_values(|k: int| names[k]);
        assert(names_of(kept@) =~= kn);
        assert forall|p: int| 0 <= p < kept@.len() implies {
            let d = dir_entries_of(buf@)[ks[p]];
            &&& (#[trigger] kept@[p]).0@ == names[ks[p]]
            &&& record_level_is(buf@, d, mip_level as int, kept@[p].1)
        } by {
            assert(kept@[p] == all[ks[p]]);
        }
    }
    Ok(kept)
}

} // verus!
