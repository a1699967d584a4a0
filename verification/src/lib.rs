//! Decoder for GoldSrc-era BSP level files and their companion WAD texture
//! archives, with the geometry reconstruction that turns raw lump records
//! into renderable triangle meshes.
//!
//! All decoding works over an in-memory byte buffer ([`bytes::ByteReader`]);
//! callers read a file into memory first. Floating-point wire fields (plane
//! normals, vertices, texture axes) are carried as their IEEE-754 bit
//! patterns (`u32`), byte-exact as stored in the file; consumers reinterpret
//! them when they need real arithmetic.

use vstd::prelude::*;

pub mod bytes;
pub mod error;
pub mod geometry;
pub mod gold_src_30;
pub mod texture;
pub mod wad;

pub use error::Error;

use crate::bytes::{le_i32, ByteReader};
use crate::gold_src_30::{bsp_decodable, bsp_matches, GoldSrc30Bsp};
use crate::wad::{wad_decodable, wad_dir_count, wad_dir_pos, wad_magic_ok, wad_map, Wad};

verus! {

/// The BSP format versions this crate can decode.
#[derive(Debug, Clone, Copy, PartialEq, Eq, Structural)]
pub enum BspVersion {
    GoldSrc30,
}

impl BspVersion {
    /// The version a file identifier announces: 30 is GoldSrc, anything
    /// else is unsupported and rejected.
    pub fn from_ident(ident: i32) -> (res: Result<BspVersion, Error>)
        ensures
            ident == 30 ==> (res matches Ok(v) && v is GoldSrc30),
            ident != 30 ==> (res matches Err(e) && e == (Error::InvalidOrUnimplementedIdent {
                ident,
            })),
    {
        match ident {
            30 => Ok(BspVersion::GoldSrc30),
            _ => Err(Error::InvalidOrUnimplementedIdent { ident }),
        }
    }
}

/// A decoded BSP file of any supported version, as a closed tagged union;
/// future versions become further variants.
#[derive(Debug)]
pub enum BspFormat {
    GoldSrc30(GoldSrc30Bsp),
}

/// Reads a BSP file's identifier and hands out the typed decodes.
///
/// Construction already rejects files that are too short (`Io`) or carry
/// an unsupported identifier (`InvalidOrUnimplementedIdent`); a value of
/// this type therefore always holds a supported file.
#[derive(Debug)]
pub struct BspDecoder {
    reader: ByteReader,
    ident: i32,
    version: BspVersion,
}

impl BspDecoder {
    /// The bytes the decoder reads from.
    pub closed spec fn bytes(&self) -> Seq<u8> {
        self.reader.bytes()
    }

    /// The identifier the file announced.
    pub closed spec fn ident_spec(&self) -> i32 {
        self.ident
    }

    /// The version the identifier denotes.
    pub closed spec fn version_spec(&self) -> BspVersion {
        self.version
    }

    /// Takes ownership of a file's bytes and reads its identifier.
    /// Succeeds exactly when at least 4 bytes are present and the stored
    /// identifier is a supported version.
    pub fn from_reader(data: Vec<u8>) -> (res: Result<BspDecoder, Error>)
        ensures
            data@.len() < 4 ==> (res matches Err(e) && e is Io),
            data@.len() >= 4 && le_i32(data@, 0) != 30 ==> res == Err::<BspDecoder, Error>(
                Error::InvalidOrUnimplementedIdent { ident: le_i32(data@, 0) },
            ),
            data@.len() >= 4 && le_i32(data@, 0) == 30 ==> {
                &&& res matches Ok(d)
                &&& d.bytes() == data@
                &&& d.ident_spec() == 30
                &&& d.version_spec() is GoldSrc30
            },
    {
        let mut reader = ByteReader::new(data);
        let ident = reader.read_i32_le()?;
        let version = BspVersion::from_ident(ident)?;
        Ok(BspDecoder { reader, ident, version })
    }

    pub fn version(&self) -> (v: BspVersion)
        ensures
            v == self.version_spec(),
    {
        self.version
    }

    /// Decodes the file as whatever version it announced, wrapped in the
    /// version union. All-or-nothing, like the typed decode it calls.
    pub fn decode_any(self) -> (res: Result<BspFormat, Error>)
        ensures
            res matches Ok(f) ==> (f matches BspFormat::GoldSrc30(bsp) && bsp_matches(
                bsp,
                self.bytes(),
                self.ident_spec(),
            )),
            res matches Ok(_) <==> bsp_decodable(self.bytes(), self.ident_spec()),
            res matches Err(e) ==> (e is Io || e is Custom),
    {
        let mut this = self;
        match this.version {
            BspVersion::GoldSrc30 => {
                this.reader.seek(4);
                let bsp = gold_src_30::decode(&mut this.reader, this.ident)?;
                Ok(BspFormat::GoldSrc30(bsp))
            },
        }
    }

    /// Decodes the file as a version-30 GoldSrc BSP. Fails with
    /// `InvalidBspFormat` when the file announced another version;
    /// otherwise strict and all-or-nothing, exactly as
    /// [`gold_src_30::decode`].
    pub fn decode_gold_src_30(&mut self) -> (res: Result<GoldSrc30Bsp, Error>)
        ensures
            final(self).bytes() == old(self).bytes(),
            final(self).ident_spec() == old(self).ident_spec(),
            final(self).version_spec() == old(self).version_spec(),
            old(self).version_spec() is GoldSrc30 ==> {
                &&& (res matches Ok(bsp) ==> bsp_matches(
                    bsp,
                    old(self).bytes(),
                    old(self).ident_spec(),
                ))
                &&& ((res matches Ok(_)) <==> bsp_decodable(
                    old(self).bytes(),
                    old(self).ident_spec(),
                ))
                &&& (res matches Err(e) ==> (e is Io || e is Custom))
            },
    {
        if !(self.version == BspVersion::GoldSrc30) {
            Err(Error::InvalidBspFormat { version: self.version })
        } else {
            self.reader.seek(4);
            gold_src_30::decode(&mut self.reader, self.ident)
        }
    }
}

/// Decodes a WAD texture archive from a byte buffer.
#[derive(Debug)]
pub struct WadDecoder {
    reader: ByteReader,
}

impl WadDecoder {
    /// The bytes the decoder reads from.
    pub closed spec fn bytes(&self) -> Seq<u8> {
        self.reader.bytes()
    }

    /// Takes ownership of an archive's bytes.
    pub fn from_reader(data: Vec<u8>) -> (d: WadDecoder)
        ensures
            d.bytes() == data@,
    {
        WadDecoder { reader: ByteReader::new(data) }
    }

    /// Decodes the archive, exactly as [`wad::decode`]: a bad magic or a
    /// truncated directory is fatal, a bad entry is skipped.
    pub fn decode(self) -> (res: Result<Wad, Error>)
        ensures
            res matches Ok(w) ==> w.textures@ == wad_map(
                self.bytes(),
                wad_dir_pos(self.bytes()),
                wad_dir_count(self.bytes()),
            ),
            res matches Ok(_) <==> wad_decodable(self.bytes()),
            res matches Err(e) ==> e == (if self.bytes().len() >= 12 && !wad_magic_ok(
                self.bytes(),
            ) {
                Error::InvalidWadFormat
            } else {
                Error::Io
            }),
    {
        let mut this = self;
        this.reader.seek(0);
        wad::decode(&mut this.reader)
    }
}

} // verus!
