//! The WAD2/WAD3 texture archive format: directory decoding, best-effort
//! extraction of embedded paletted textures, and the name-keyed table the
//! archive yields.

use vstd::arithmetic::mul::{lemma_mul_inequality, lemma_mul_is_distributive_add_other_way};
use vstd::prelude::*;

use crate::bytes::{le_i16, le_i32, read_array_u8, ByteReader};
use crate::error::Error;
use crate::gold_src_30::{
    model_of, texture_model_at, texture_ok_at, lemma_texture_matches_model, Texture, TextureModel,
};

verus! {

/// One table entry: a NUL-truncated texture name and the texture itself.
#[derive(Debug, Clone)]
pub struct NamedTexture {
    pub name: Vec<u8>,
    pub texture: Texture,
}

/// The mapping a sequence of entries denotes: later entries with the same
/// name overwrite earlier ones.
pub open spec fn table_map(entries: Seq<NamedTexture>) -> Map<Seq<u8>, TextureModel>
    decreases entries.len(),
{
    if entries.len() == 0 {
        Map::empty()
    } else {
        table_map(entries.drop_last()).insert(
            entries.last().name@,
            model_of(entries.last().texture),
        )
    }
}

/// A name-keyed texture table, the read-only value WAD decoding produces.
///
/// Its view is the `Map` from NUL-truncated names to texture values; an
/// insertion with an existing name overwrites, as later WAD directory
/// entries and later archives do.
#[derive(Debug, Clone)]
pub struct TextureTable {
    entries: Vec<NamedTexture>,
}

impl View for TextureTable {
    type V = Map<Seq<u8>, TextureModel>;

    closed spec fn view(&self) -> Map<Seq<u8>, TextureModel> {
        table_map(self.entries@)
    }
}

/// In a search from the latest entry backwards, the mapping of the first
/// `n` entries agrees with the whole mapping on every name that no entry
/// from `n` onwards carries.
proof fn lemma_table_map_prefix(entries: Seq<NamedTexture>, n: int, k: Seq<u8>)
    requires
        0 <= n <= entries.len(),
        forall|j: int| n <= j < entries.len() ==> (#[trigger] entries[j].name@) != k,
    ensures
        table_map(entries).contains_key(k) == table_map(entries.take(n)).contains_key(k),
        table_map(entries).contains_key(k) ==> table_map(entries)[k] == table_map(
            entries.take(n),
        )[k],
    decreases entries.len(),
{
    if entries.len() == 0 {
        assert(entries.take(n) =~= entries);
    } else if n == entries.len() {
        assert(entries.take(n) =~= entries);
    } else {
        let shorter = entries.drop_last();
        lemma_table_map_prefix(shorter, n, k);
        assert(shorter.take(n) =~= entries.take(n));
    }
}

/// The whole mapping holds name `k` exactly when some entry carries it.
proof fn lemma_table_map_contains(entries: Seq<NamedTexture>, k: Seq<u8>)
    ensures
        table_map(entries).contains_key(k) <==> exists|j: int|
            0 <= j < entries.len() && (#[trigger] entries[j].name@) == k,
    decreases entries.len(),
{
    if entries.len() > 0 {
        lemma_table_map_contains(entries.drop_last(), k);
        let l = entries.len() - 1;
        assert(forall|j: int|
            0 <= j < l ==> (#[trigger] entries[j].name@) == entries.drop_last()[j].name@);
        assert(entries.last().name@ == entries[l].name@);
    }
}

impl TextureTable {
    /// The entries in insertion order, later insertions last.
    pub closed spec fn entries_seq(&self) -> Seq<NamedTexture> {
        self.entries@
    }

    pub open spec fn spec_len(&self) -> nat {
        self.entries_seq().len()
    }

    pub fn new() -> (t: TextureTable)
        ensures
            t@ == Map::<Seq<u8>, TextureModel>::empty(),
            t.entries_seq().len() == 0,
    {
        TextureTable { entries: Vec::new() }
    }

    /// How many entries the table holds (overwritten entries included).
    pub fn len(&self) -> (n: usize)
        ensures
            n == self.spec_len(),
    {
        self.entries.len()
    }

    /// The entry at position `i`, in insertion order.
    pub fn entry_at(&self, i: usize) -> (e: &NamedTexture)
        requires
            i < self.spec_len(),
        ensures
            *e == self.entries_seq()[i as int],
    {
        &self.entries[i]
    }

    /// Adds a texture under a name; an existing entry with the same name
    /// is superseded, as by a later WAD directory entry.
    pub fn insert(&mut self, name: Vec<u8>, texture: Texture)
        ensures
            final(self)@ == old(self)@.insert(name@, model_of(texture)),
            final(self).entries_seq() == old(self).entries_seq().push(
                NamedTexture { name, texture },
            ),
    {
        let ghost before = self.entries@;
        self.entries.push(NamedTexture { name, texture });
        proof {
            assert(self.entries@.drop_last() =~= before);
        }
    }

    /// Hands the entries out, in insertion order.
    pub fn into_entries(self) -> (res: Vec<NamedTexture>)
        ensures
            res@ == self.entries_seq(),
    {
        self.entries
    }

    /// Looks a texture up by its NUL-truncated name. Returns the latest
    /// entry with that name, or `None` when the table holds none.
    pub fn get<'a>(&'a self, name: &[u8]) -> (res: Option<&'a Texture>)
        ensures
            match res {
                Some(t) => self@.contains_key(name@) && model_of(*t) == self@[name@],
                None => !self@.contains_key(name@),
            },
    {
        let n = self.entries.len();
        let mut i: usize = n;
        while i > 0
            invariant
                n == self.entries@.len(),
                i <= n,
                forall|j: int| i <= j < n ==> (#[trigger] self.entries@[j].name@) != name@,
            decreases i,
        {
            i = i - 1;
            if bytes_eq(self.entries[i].name.as_slice(), name) {
                proof {
                    lemma_table_map_prefix(self.entries@, i + 1, name@);
                    lemma_table_map_contains(self.entries@.take(i + 1), name@);
                    assert(self.entries@.take(i + 1).last() == self.entries@[i as int]);
                    assert(self.entries@.take(i + 1).drop_last() =~= self.entries@.take(i as int));
                }
                return Some(&self.entries[i].texture);
            }
        }
        proof {
            lemma_table_map_contains(self.entries@, name@);
        }
        None
    }
}

/// A decoded WAD archive: the name-keyed table of the textures it embeds.
#[derive(Debug, Clone)]
pub struct Wad {
    pub textures: TextureTable,
}

/// The index of the first NUL byte of `s`, or its length when none occurs.
pub open spec fn first_nul(s: Seq<u8>) -> int
    decreases s.len(),
{
    if s.len() == 0 {
        0
    } else if s[0] == 0 {
        0
    } else {
        1 + first_nul(s.drop_first())
    }
}

/// `s` cut at its first NUL byte.
pub open spec fn nul_truncate(s: Seq<u8>) -> Seq<u8> {
    s.take(first_nul(s))
}

proof fn lemma_first_nul(s: Seq<u8>, i: int)
    requires
        0 <= i <= s.len(),
        forall|j: int| 0 <= j < i ==> s[j] != 0,
        i < s.len() ==> s[i] == 0,
    ensures
        first_nul(s) == i,
    decreases s.len(),
{
    if s.len() == 0 {
    } else if i == 0 {
    } else {
        assert(s[0] != 0);
        lemma_first_nul(s.drop_first(), i - 1);
    }
}

/// Copies a stored 16-byte name up to (not including) its first NUL byte.
pub fn truncate_name(name: &[u8; 16]) -> (res: Vec<u8>)
    ensures
        res@ == nul_truncate(name@),
{
    let mut out: Vec<u8> = Vec::new();
    let mut i: usize = 0;
    while i < 16
        invariant
            i <= 16,
            out@.len() == i,
            forall|j: int| 0 <= j < i ==> out@[j] == name@[j] && name@[j] != 0,
        decreases 16 - i,
    {
        let c = name[i];
        if c == 0 {
            proof {
                lemma_first_nul(name@, i as int);
                assert(out@ =~= nul_truncate(name@));
            }
            return out;
        }
        out.push(c);
        i = i + 1;
    }
    proof {
        lemma_first_nul(name@, 16);
        assert(out@ =~= nul_truncate(name@));
    }
    out
}

/// One 32-byte WAD directory entry.
#[derive(Debug, Clone, Copy)]
#[verifier::ext_equal]
struct DirEntry {
    offset: i32,
    disk_size: i32,
    size: i32,
    kind: u8,
    compression: bool,
    dummy: i16,
    name: [u8; 16],
}

/// The directory entry stored at position `p` of `b`.
spec fn dir_entry_at(b: Seq<u8>, p: int) -> DirEntry {
    DirEntry {
        offset: le_i32(b, p),
        disk_size: le_i32(b, p + 4),
        size: le_i32(b, p + 8),
        kind: b[p + 12],
        compression: b[p + 13] > 0,
        dummy: le_i16(b, p + 14),
        name: [
            b[p + 16],
            b[p + 17],
            b[p + 18],
            b[p + 19],
            b[p + 20],
            b[p + 21],
            b[p + 22],
            b[p + 23],
            b[p + 24],
            b[p + 25],
            b[p + 26],
            b[p + 27],
            b[p + 28],
            b[p + 29],
            b[p + 30],
            b[p + 31],
        ],
    }
}

fn decode_dir_entry(r: &mut ByteReader) -> (res: Result<DirEntry, Error>)
    ensures
        final(r).bytes() == old(r).bytes(),
        old(r).position() + 32 <= old(r).bytes().len() ==> {
            &&& res matches Ok(e)
            &&& e.offset == le_i32(old(r).bytes(), old(r).position())
            &&& e.disk_size == le_i32(old(r).bytes(), old(r).position() + 4)
            &&& e.size == le_i32(old(r).bytes(), old(r).position() + 8)
            &&& e.kind == old(r).bytes()[old(r).position() + 12]
            &&& e.compression == (old(r).bytes()[old(r).position() + 13] > 0)
            &&& e.dummy == le_i16(old(r).bytes(), old(r).position() + 14)
            &&& forall|i: int|
                0 <= i < 16 ==> (#[trigger] e.name@[i]) == old(r).bytes()[old(r).position() + 16
                    + i]
            &&& final(r).position() == old(r).position() + 32
        },
        old(r).position() + 32 > old(r).bytes().len() ==> (res matches Err(e) && e is Io),
{
    let offset = r.read_i32_le()?;
    let disk_size = r.read_i32_le()?;
    let size = r.read_i32_le()?;
    let kind = r.read_u8()?;
    let compression = r.read_u8()? > 0;
    let dummy = r.read_i16_le()?;
    let name = read_array_u8::<16>(r)?;
    Ok(DirEntry { offset, disk_size, size, kind, compression, dummy, name })
}

/// Whether `b` starts with the `WAD2` or `WAD3` magic.
pub open spec fn wad_magic_ok(b: Seq<u8>) -> bool {
    &&& b.len() >= 4
    &&& b[0] == 87u8
    &&& b[1] == 65u8
    &&& b[2] == 68u8
    &&& (b[3] == 50u8 || b[3] == 51u8)
}

/// The announced number of directory entries, as the original reader's
/// loop bound.
pub open spec fn wad_dir_count(b: Seq<u8>) -> int {
    (le_i32(b, 4) as usize) as int
}

/// The announced directory position.
pub open spec fn wad_dir_pos(b: Seq<u8>) -> int {
    (le_i32(b, 8) as usize) as int
}

/// Whether the archive as a whole decodes: the header and magic are good
/// and the whole directory lies within the file. Individual entries do not
/// matter: a bad entry is skipped, never fatal.
pub open spec fn wad_decodable(b: Seq<u8>) -> bool {
    &&& b.len() >= 12
    &&& wad_magic_ok(b)
    &&& (wad_dir_count(b) == 0 || wad_dir_pos(b) + 32 * wad_dir_count(b) <= b.len())
}

/// Whether the directory entry at `p` names an extractable texture: not
/// compressed, fully resident (size equals disk size) and of the paletted
/// texture kind 0x43.
pub open spec fn entry_eligible(b: Seq<u8>, p: int) -> bool {
    &&& b[p + 13] == 0
    &&& le_i32(b, p + 8) == le_i32(b, p + 4)
    &&& b[p + 12] == 0x43u8
}

/// Where the entry at `p` says its texture record lies.
pub open spec fn entry_target(b: Seq<u8>, p: int) -> int {
    (le_i32(b, p) as usize) as int
}

/// The entry's NUL-truncated name.
pub open spec fn entry_name(b: Seq<u8>, p: int) -> Seq<u8> {
    nul_truncate(Seq::new(16, |i: int| b[p + 16 + i]))
}

/// The table the first `n` directory entries at `dir` yield: each entry
/// that is eligible and whose texture record decodes adds its texture
/// under its name, later entries overwriting earlier ones; every other
/// entry is skipped.
pub open spec fn wad_map(b: Seq<u8>, dir: int, n: int) -> Map<Seq<u8>, TextureModel>
    decreases n,
{
    if n <= 0 {
        Map::empty()
    } else {
        let m = wad_map(b, dir, n - 1);
        let p = dir + 32 * (n - 1);
        if entry_eligible(b, p) && texture_ok_at(b, entry_target(b, p)) {
            m.insert(entry_name(b, p), texture_model_at(b, entry_target(b, p)))
        } else {
            m
        }
    }
}

/// Decodes a whole WAD archive from the start of the byte source.
///
/// Fatal conditions are exactly: a short header (`Io`), a magic other than
/// `WAD2`/`WAD3` (`InvalidWadFormat`, raised before any directory entry is
/// read), and a directory that runs past the end of the file (`Io`). Every
/// other defect only skips the entry it concerns; on success the table is
/// exactly [`wad_map`] over the directory.
pub fn decode(r: &mut ByteReader) -> (res: Result<Wad, Error>)
    requires
        old(r).position() == 0,
    ensures
        final(r).bytes() == old(r).bytes(),
        res matches Ok(w) ==> w.textures@ == wad_map(
            old(r).bytes(),
            wad_dir_pos(old(r).bytes()),
            wad_dir_count(old(r).bytes()),
        ),
        res matches Ok(_) <==> wad_decodable(old(r).bytes()),
        res matches Err(e) ==> e == (if old(r).bytes().len() >= 12 && !wad_magic_ok(
            old(r).bytes(),
        ) {
            Error::InvalidWadFormat
        } else {
            Error::Io
        }),
{
    let ident = read_array_u8::<4>(r)?;
    let num_dirs = r.read_i32_le()?;
    let dir_offset = r.read_i32_le()?;
    if !(ident[0] == 87 && ident[1] == 65 && ident[2] == 68 && (ident[3] == 50 || ident[3] == 51))
    {
        return Err(Error::InvalidWadFormat);
    }
    let count = num_dirs as usize;
    let dpos = dir_offset as usize;
    r.seek(dpos);
    let mut dirs: Vec<DirEntry> = Vec::new();
    let mut j: usize = 0;
    while j < count
        invariant
            r.bytes() == old(r).bytes(),
            r.bytes().len() >= 12,
            wad_magic_ok(r.bytes()),
            count == wad_dir_count(r.bytes()),
            dpos == wad_dir_pos(r.bytes()),
            j <= count,
            r.position() == dpos + 32 * j,
            dirs@.len() == j,
            forall|i: int|
                0 <= i < j ==> (#[trigger] dirs@[i]) == dir_entry_at(r.bytes(), dpos + 32 * i),
            j > 0 ==> dpos + 32 * j <= r.bytes().len(),
        decreases count - j,
    {
        let e = match decode_dir_entry(r) {
            Ok(e) => e,
            Err(_) => {
                proof {
                    lemma_mul_inequality(j + 1, count as int, 32);
                }
                return Err(Error::Io);
            },
        };
        proof {
            assert(e.name@ =~= dir_entry_at(r.bytes(), dpos + 32 * j).name@);
            assert(e =~= dir_entry_at(r.bytes(), dpos + 32 * j));
            lemma_mul_is_distributive_add_other_way(32, j as int, 1);
        }
        dirs.push(e);
        j = j + 1;
    }
    let mut textures = TextureTable::new();
    let mut k: usize = 0;
    while k < count
        invariant
            r.bytes() == old(r).bytes(),
            r.bytes().len() >= 12,
            wad_magic_ok(r.bytes()),
            count == wad_dir_count(r.bytes()),
            dpos == wad_dir_pos(r.bytes()),
            k <= count,
            count > 0 ==> dpos + 32 * count <= r.bytes().len(),
            dirs@.len() == count,
            forall|i: int|
                0 <= i < count ==> (#[trigger] dirs@[i]) == dir_entry_at(r.bytes(), dpos + 32 * i),
            textures@ == wad_map(r.bytes(), dpos as int, k as int),
        decreases count - k,
    {
        let ghost p = dpos + 32 * k;
        let e = dirs[k];
        if !e.compression && e.size == e.disk_size && e.kind == 0x43 {
            r.seek(e.offset as usize);
            match Texture::decode(r) {
                Ok(t) => {
                    proof {
                        lemma_texture_matches_model(t, r.bytes(), entry_target(r.bytes(), p));
                    }
                    let name = truncate_name(&e.name);
                    proof {
                        assert(e.name@ =~= Seq::new(16, |i: int| r.bytes()[p + 16 + i]));
                    }
                    textures.insert(name, t);
                },
                Err(_) => {
                },
            }
        }
        k = k + 1;
    }
    Ok(Wad { textures })
}

/// The table after folding in `entries` front to back: each entry with
/// positive dimensions is inserted under its name, later entries (and
/// later archives) overwriting earlier ones; degenerate entries are
/// dropped.
pub open spec fn merged(base: Map<Seq<u8>, TextureModel>, entries: Seq<NamedTexture>) -> Map<
    Seq<u8>,
    TextureModel,
>
    decreases entries.len(),
{
    if entries.len() == 0 {
        base
    } else {
        let m = merged(base, entries.drop_last());
        let e = entries.last();
        if e.texture.width > 0 && e.texture.height > 0 {
            m.insert(e.name@, model_of(e.texture))
        } else {
            m
        }
    }
}

/// The one texture table a set of WAD archives yields: archives are
/// folded in one after the other, so a later archive's texture replaces
/// an earlier one's of the same name. Built once, then read-only.
#[derive(Debug, Clone)]
pub struct WadManager {
    pub textures: TextureTable,
}

impl WadManager {
    pub fn new() -> (m: WadManager)
        ensures
            m.textures@ == Map::<Seq<u8>, TextureModel>::empty(),
    {
        WadManager { textures: TextureTable::new() }
    }

    /// Folds one decoded archive into the table: every texture of it with
    /// positive width and height, in directory order, overwriting
    /// same-named entries.
    pub fn add_wad(&mut self, wad: Wad)
        ensures
            final(self).textures@ == merged(old(self).textures@, wad.textures.entries_seq()),
    {
        let ghost all = wad.textures.entries_seq();
        let mut entries = wad.textures.into_entries();
        let total = entries.len();
        let mut k: usize = 0;
        while entries.len() > 0
            invariant
                total == all.len(),
                k <= all.len(),
                k + entries@.len() == all.len(),
                entries@ =~= all.skip(k as int),
                self.textures@ == merged(old(self).textures@, all.take(k as int)),
            decreases entries@.len(),
        {
            let e = entries.remove(0);
            proof {
                assert(e == all[k as int]);
                assert(entries@ =~= all.skip(k + 1));
                assert(all.take(k + 1).drop_last() =~= all.take(k as int));
                assert(all.take(k + 1).last() == all[k as int]);
            }
            if e.texture.width > 0 && e.texture.height > 0 {
                self.textures.insert(e.name, e.texture);
            }
            k = k + 1;
        }
        proof {
            assert(all.take(k as int) =~= all);
        }
    }
}

/// Whether two byte strings are equal.
pub fn bytes_eq(a: &[u8], b: &[u8]) -> (r: bool)
    ensures
        r == (a@ == b@),
{
    if a.len() != b.len() {
        return false;
    }
    let n = a.len();
    let mut i: usize = 0;
    while i < n
        invariant
            n == a@.len(),
            n == b@.len(),
            i <= n,
            forall|j: int| 0 <= j < i ==> a@[j] == b@[j],
        decreases n - i,
    {
        if a[i] != b[i] {
            return false;
        }
        i = i + 1;
    }
    proof {
        assert(a@ =~= b@);
    }
    true
}

} // verus!
