//! The kinds of table files, told apart by their first bytes.

use vstd::prelude::*;

verus! {

/// A kind of table file.
#[derive(Debug, Clone, Copy, PartialEq, Eq, Structural)]
pub enum FileFormat {
    /// The text format of fastNLO.
    FastNLO,
    /// The text format of fastNLO, compressed with gzip.
    CompressedFastNLO,
    /// The binary format, after its own four magic bytes.
    SmallNLO,
    /// The binary format, compressed with zstd.
    CompressedSmallNLO,
}

/// The first four bytes of a binary table file.
pub open spec fn spec_smallnlo_magic() -> Seq<u8> {
    seq![0x7cu8, 0x6eu8, 0x6cu8, 0x6fu8]
}

/// The kind of file that begins with the four bytes `b`.
pub open spec fn spec_from_magic(b: Seq<u8>) -> Option<FileFormat>
    recommends
        b.len() == 4,
{
    if b[0] == 0x1f && b[1] == 0x8b {
        Some(FileFormat::CompressedFastNLO)
    } else if b[0] == 0x31 && b[1] == 0x32 && b[2] == 0x33 && b[3] == 0x34 {
        Some(FileFormat::FastNLO)
    } else if b[0] == 0x28 && b[1] == 0xb5 && b[2] == 0x2f && b[3] == 0xfd {
        Some(FileFormat::CompressedSmallNLO)
    } else if b == spec_smallnlo_magic() {
        Some(FileFormat::SmallNLO)
    } else {
        None
    }
}

impl FileFormat {
    /// The kind of file that begins with the four bytes `b`: gzip, the
    /// separator line of the text format, zstd or the magic bytes of the
    /// binary format.
    pub fn from_magic(b: [u8; 4]) -> (r: Option<FileFormat>)
        ensures
            r == spec_from_magic(b@),
    {
        if b[0] == 0x1f && b[1] == 0x8b {
            Some(FileFormat::CompressedFastNLO)
        } else if b[0] == 0x31 && b[1] == 0x32 && b[2] == 0x33 && b[3] == 0x34 {
            Some(FileFormat::FastNLO)
        } else if b[0] == 0x28 && b[1] == 0xb5 && b[2] == 0x2f && b[3] == 0xfd {
            Some(FileFormat::CompressedSmallNLO)
        } else if b[0] == 0x7c && b[1] == 0x6e && b[2] == 0x6c && b[3] == 0x6f {
            proof {
                assert(b@ =~= spec_smallnlo_magic());
            }
            Some(FileFormat::SmallNLO)
        } else {
            proof {
                if b@ == spec_smallnlo_magic() {
                    assert(b@[0] == 0x7c);
                }
            }
            None
        }
    }

    /// The four bytes that open a binary table file.
    pub fn smallnlo_magic() -> (r: [u8; 4])
        ensures
            r@ == spec_smallnlo_magic(),
            spec_from_magic(r@) == Some(FileFormat::SmallNLO),
    {
        let r = [0x7cu8, 0x6eu8, 0x6cu8, 0x6fu8];
        proof {
            assert(r@ =~= spec_smallnlo_magic());
        }
        r
    }

    /// The other format of the same compression: converting a table without
    /// a named output format turns text into binary and back.
    pub fn counterpart(self) -> (r: FileFormat)
        ensures
            r == match self {
                FileFormat::SmallNLO => FileFormat::FastNLO,
                FileFormat::FastNLO => FileFormat::SmallNLO,
                FileFormat::CompressedSmallNLO => FileFormat::CompressedFastNLO,
                FileFormat::CompressedFastNLO => FileFormat::CompressedSmallNLO,
            },
    {
        match self {
            FileFormat::SmallNLO => FileFormat::FastNLO,
            FileFormat::FastNLO => FileFormat::SmallNLO,
            FileFormat::CompressedSmallNLO => FileFormat::CompressedFastNLO,
            FileFormat::CompressedFastNLO => FileFormat::CompressedSmallNLO,
        }
    }

    /// The format to write a file in: text when the file is named as a
    /// fastNLO table (`tab`), binary otherwise; compressed when asked.
    pub fn for_output(tab_extension: bool, compress: bool) -> (r: FileFormat)
        ensures
            r == if tab_extension {
                if compress {
                    FileFormat::CompressedFastNLO
                } else {
                    FileFormat::FastNLO
                }
            } else if compress {
                FileFormat::CompressedSmallNLO
            } else {
                FileFormat::SmallNLO
            },
    {
        if tab_extension {
            if compress {
                FileFormat::CompressedFastNLO
            } else {
                FileFormat::FastNLO
            }
        } else if compress {
            FileFormat::CompressedSmallNLO
        } else {
            FileFormat::SmallNLO
        }
    }
}

} // verus!
