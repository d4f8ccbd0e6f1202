//! Decoder for the WAD archive format: a magic/version-dispatched header
//! in one of three shapes, followed by `file_count` fixed-stride content
//! records whose field layout and width depend on the header's major
//! version.
//!
//! There is no compressed body and no indirection here: the major version
//! selects the content start position and record stride, and every record
//! field sits at a fixed sub-offset.

use vstd::prelude::*;

use crate::cursor::{
    spec_read_tag, spec_read_u8, spec_read_u16, spec_read_u32, spec_read_u64, spec_read_bytes,
    trunc_err, u16_at, u32_at, u64_at, read_tag, read_u8, read_u16, read_u32, read_u64, read_bytes,
};
use crate::error::DecodeError;

verus! {

/// The version-tagged part of a WAD header.
///
/// V1 carries the entry table position and entry size (present in the
/// header but not load-bearing: the decode stride is derived from the
/// version). V2 adds a variable-length ECDSA signature blob, padded on
/// disk to a fixed 83-byte region, and a file checksum. V3 carries a fixed
/// 256-byte ECDSA blob and a file checksum, with no entry fields.
#[derive(Debug, Clone, PartialEq, Eq)]
pub enum HeaderVersion {
    V1 { entry_offset: u16, entry_size: u16 },
    V2 { ecdsa: Vec<u8>, file_checksum: u64, entry_offset: u16, entry_size: u16 },
    V3 { ecdsa: Vec<u8>, file_checksum: u64 },
}

/// The mathematical image of a `HeaderVersion`.
pub enum HeaderVersionV {
    V1 { entry_offset: u16, entry_size: u16 },
    V2 { ecdsa: Seq<u8>, file_checksum: u64, entry_offset: u16, entry_size: u16 },
    V3 { ecdsa: Seq<u8>, file_checksum: u64 },
}

impl View for HeaderVersion {
    type V = HeaderVersionV;

    open spec fn view(&self) -> HeaderVersionV {
        match self {
            HeaderVersion::V1 { entry_offset, entry_size } => HeaderVersionV::V1 {
                entry_offset: *entry_offset,
                entry_size: *entry_size,
            },
            HeaderVersion::V2 { ecdsa, file_checksum, entry_offset, entry_size } => {
                HeaderVersionV::V2 {
                    ecdsa: ecdsa@,
                    file_checksum: *file_checksum,
                    entry_offset: *entry_offset,
                    entry_size: *entry_size,
                }
            },
            HeaderVersion::V3 { ecdsa, file_checksum } => HeaderVersionV::V3 {
                ecdsa: ecdsa@,
                file_checksum: *file_checksum,
            },
        }
    }
}

/// A decoded WAD header.
#[derive(Debug, PartialEq, Eq)]
pub struct Header {
    pub major: u8,
    pub minor: u8,
    pub file_count: u32,
    pub version: HeaderVersion,
}

/// The mathematical image of a `Header`.
pub struct HeaderV {
    pub major: u8,
    pub minor: u8,
    pub file_count: u32,
    pub version: HeaderVersionV,
}

impl View for Header {
    type V = HeaderV;

    open spec fn view(&self) -> HeaderV {
        HeaderV {
            major: self.major,
            minor: self.minor,
            file_count: self.file_count,
            version: self.version@,
        }
    }
}

/// The compression algorithm of one content entry's payload.
#[allow(non_camel_case_types)]
#[derive(Debug, Clone, Copy, PartialEq, Eq, Structural)]
pub enum CompressionType {
    NONE,
    GZIP,
    REFERENCE,
    ZSTD,
}

/// The version-tagged part of a content record. V2 adds a duplicate flag
/// and the low 64 bits of the entry's SHA-256.
#[derive(Debug, Clone, Copy, PartialEq, Eq, Structural)]
pub enum ContentVersion {
    V1 {},
    V2 { is_duplicate: bool, sha256: u64 },
}

/// One content record: the content-addressing hash, the absolute payload
/// position in the archive (left to a consumer to resolve), the payload
/// sizes, and the payload's compression.
#[derive(Debug, Clone, Copy, PartialEq, Eq, Structural)]
pub struct Content {
    pub hash: u64,
    pub data_offset: u32,
    pub compressed_size: u32,
    pub uncompressed_size: u32,
    pub compression_type: CompressionType,
    pub version: ContentVersion,
}

/// A fully decoded WAD archive: the header and the content records in
/// on-disk order. Order is significant: duplicate entries reference
/// earlier ones by position.
#[derive(Debug, PartialEq, Eq)]
pub struct File {
    pub header: Header,
    pub content: Vec<Content>,
}

/// The mathematical image of a `File`.
pub struct FileV {
    pub header: HeaderV,
    pub content: Seq<Content>,
}

impl View for File {
    type V = FileV;

    open spec fn view(&self) -> FileV {
        FileV { header: self.header@, content: self.content@ }
    }
}

/// The two magic bytes that open an archive.
pub open spec fn wad_magic() -> Seq<u8> {
    seq![82u8, 87u8]
}

/// What mapping a compression byte to its enum yields: 0 through 3 are
/// the four known algorithms; anything else is rejected, never silently
/// defaulted.
pub open spec fn spec_compression(v: u8) -> Result<CompressionType, DecodeError> {
    if v == 0 {
        Ok(CompressionType::NONE)
    } else if v == 1 {
        Ok(CompressionType::GZIP)
    } else if v == 2 {
        Ok(CompressionType::REFERENCE)
    } else if v == 3 {
        Ok(CompressionType::ZSTD)
    } else {
        Err(DecodeError::UnsupportedVersion { value: v })
    }
}

/// Map a compression byte to its enum.
pub fn compression_from_u8(v: u8) -> (r: Result<CompressionType, DecodeError>)
    ensures
        r == spec_compression(v),
{
    if v == 0 {
        Ok(CompressionType::NONE)
    } else if v == 1 {
        Ok(CompressionType::GZIP)
    } else if v == 2 {
        Ok(CompressionType::REFERENCE)
    } else if v == 3 {
        Ok(CompressionType::ZSTD)
    } else {
        Err(DecodeError::UnsupportedVersion { value: v })
    }
}

/// What decoding the version-dispatched WAD header yields.
///
/// After the 2-byte magic come `major` and `minor`. Major 1: entry offset
/// and size as `u16` at 4 and 6, file count at 8. Major 2: an ECDSA length
/// byte at 4, the signature as a prefix of the padded region at 5, then
/// file checksum at 88, entry offset at 96, entry size at 98 and file
/// count at 100. Major 3: a fixed 256-byte ECDSA blob at 4, file checksum
/// at 260 and file count at 268. Any other major is rejected.
pub open spec fn spec_wad_header(b: Seq<u8>) -> Result<HeaderV, DecodeError> {
    match spec_read_tag(b, 0, wad_magic()) {
        Err(e) => Err(e),
        Ok(_) => match spec_read_u8(b, 2) {
            Err(e) => Err(e),
            Ok(major) => match spec_read_u8(b, 3) {
                Err(e) => Err(e),
                Ok(minor) => if major == 1 {
                    if b.len() >= 12 {
                        Ok(HeaderV {
                            major,
                            minor,
                            file_count: u32_at(b, 8),
                            version: HeaderVersionV::V1 {
                                entry_offset: u16_at(b, 4),
                                entry_size: u16_at(b, 6),
                            },
                        })
                    } else {
                        Err(trunc_err(4, 8, b.len() as int))
                    }
                } else if major == 2 {
                    match spec_read_u8(b, 4) {
                        Err(e) => Err(e),
                        Ok(ecdsa_len) => match spec_read_bytes(b, 5, ecdsa_len as int) {
                            Err(e) => Err(e),
                            Ok(ecdsa) => if b.len() >= 104 {
                                Ok(HeaderV {
                                    major,
                                    minor,
                                    file_count: u32_at(b, 100),
                                    version: HeaderVersionV::V2 {
                                        ecdsa,
                                        file_checksum: u64_at(b, 88),
                                        entry_offset: u16_at(b, 96),
                                        entry_size: u16_at(b, 98),
                                    },
                                })
                            } else {
                                Err(trunc_err(88, 16, b.len() as int))
                            },
                        },
                    }
                } else if major == 3 {
                    match spec_read_bytes(b, 4, 256) {
                        Err(e) => Err(e),
                        Ok(ecdsa) => if b.len() >= 272 {
                            Ok(HeaderV {
                                major,
                                minor,
                                file_count: u32_at(b, 268),
                                version: HeaderVersionV::V3 {
                                    ecdsa,
                                    file_checksum: u64_at(b, 260),
                                },
                            })
                        } else {
                            Err(trunc_err(260, 12, b.len() as int))
                        },
                    }
                } else {
                    Err(DecodeError::UnsupportedVersion { value: major })
                },
            },
        },
    }
}

/// The content start position for a major version: 12, 100 and 268 for
/// majors 1, 2 and 3.
pub open spec fn spec_data_start(major: u8) -> int {
    if major == 1 {
        12
    } else if major == 2 {
        100
    } else {
        268
    }
}

/// The content record stride for a major version: 24 bytes for major 1,
/// 32 bytes for majors 2 and 3.
pub open spec fn spec_entry_size(major: u8) -> int {
    if major == 1 {
        24
    } else {
        32
    }
}

/// The low byte of a 32-bit value: how a major-1 compression field, stored
/// as a `u32`, is narrowed to the compression byte.
pub open spec fn low_byte(x: u32) -> u8 {
    (x % 256) as u8
}

/// What decoding one content record at `pos` yields. Fixed sub-offsets:
/// hash at 0 (`u64`), data offset at 8, compressed and uncompressed sizes
/// at 12 and 16 (`u32` each). The compression field at 20 is a `u32` for
/// major 1 and a single byte for majors 2 and 3. Majors 2 and 3 add the
/// duplicate flag at 21 and the truncated SHA-256 at 24, with two skipped
/// bytes between them.
pub open spec fn spec_content_at(b: Seq<u8>, major: u8, pos: int) -> Result<
    Content,
    DecodeError,
> {
    match spec_read_u64(b, pos) {
        Err(e) => Err(e),
        Ok(hash) => match spec_read_u32(b, pos + 8) {
            Err(e) => Err(e),
            Ok(data_offset) => match spec_read_u32(b, pos + 12) {
                Err(e) => Err(e),
                Ok(compressed_size) => match spec_read_u32(b, pos + 16) {
                    Err(e) => Err(e),
                    Ok(uncompressed_size) => {
                        let byte_res: Result<u8, DecodeError> = if major == 1 {
                            match spec_read_u32(b, pos + 20) {
                                Err(e) => Err(e),
                                Ok(x) => Ok(low_byte(x)),
                            }
                        } else {
                            spec_read_u8(b, pos + 20)
                        };
                        match byte_res {
                            Err(e) => Err(e),
                            Ok(cv) => match spec_compression(cv) {
                                Err(e) => Err(e),
                                Ok(compression_type) => if major == 1 {
                                    Ok(Content {
                                        hash,
                                        data_offset,
                                        compressed_size,
                                        uncompressed_size,
                                        compression_type,
                                        version: ContentVersion::V1 {},
                                    })
                                } else {
                                    match spec_read_u8(b, pos + 21) {
                                        Err(e) => Err(e),
                                        Ok(duplicate) => match spec_read_u16(b, pos + 22) {
                                            Err(e) => Err(e),
                                            Ok(_) => match spec_read_u64(b, pos + 24) {
                                                Err(e) => Err(e),
                                                Ok(sha256) => Ok(Content {
                                                    hash,
                                                    data_offset,
                                                    compressed_size,
                                                    uncompressed_size,
                                                    compression_type,
                                                    version: ContentVersion::V2 {
                                                        is_duplicate: duplicate > 0,
                                                        sha256,
                                                    },
                                                }),
                                            },
                                        },
                                    }
                                },
                            },
                        }
                    },
                },
            },
        },
    }
}

/// What decoding content records `i..count` yields, in on-disk order,
/// stopping at the first failure.
pub open spec fn spec_contents_from(b: Seq<u8>, major: u8, count: nat, i: nat) -> Result<
    Seq<Content>,
    DecodeError,
>
    decreases count - i,
{
    if i >= count {
        Ok(Seq::empty())
    } else {
        match spec_content_at(b, major, spec_data_start(major) + i * spec_entry_size(major)) {
            Err(e) => Err(e),
            Ok(c) => match spec_contents_from(b, major, count, i + 1) {
                Err(e) => Err(e),
                Ok(rest) => Ok(seq![c] + rest),
            },
        }
    }
}

/// What decoding the whole content table yields: `file_count` fixed-stride
/// records for a known major version, a rejection otherwise.
pub open spec fn spec_contents(b: Seq<u8>, major: u8, file_count: u32) -> Result<
    Seq<Content>,
    DecodeError,
> {
    if major == 1 || major == 2 || major == 3 {
        spec_contents_from(b, major, file_count as nat, 0)
    } else {
        Err(DecodeError::UnsupportedVersion { value: major })
    }
}

/// What decoding a whole archive yields: the version-dispatched header,
/// then the content table its major version and file count describe.
pub open spec fn spec_parse(b: Seq<u8>) -> Result<FileV, DecodeError> {
    match spec_wad_header(b) {
        Err(e) => Err(e),
        Ok(h) => match spec_contents(b, h.major, h.file_count) {
            Err(e) => Err(e),
            Ok(content) => Ok(FileV { header: h, content }),
        },
    }
}

/// A buffer long enough to hold the tag whose leading bytes differ from
/// the archive magic is rejected with `InvalidMagic`, at position 0.
pub proof fn lemma_header_magic(b: Seq<u8>)
    ensures
        b.len() >= 2 && !crate::cursor::tag_matches(b, 0, wad_magic()) ==> spec_wad_header(b)
            == Err::<HeaderV, DecodeError>(DecodeError::InvalidMagic { position: 0 }),
{
}

/// For each supported major version the content layout is fixed: records
/// start at 12, 100 and 268 for majors 1, 2 and 3, with a stride of 24
/// bytes for major 1 and 32 bytes for majors 2 and 3, and record `i` of a
/// decoded archive is read at exactly that position.
pub proof fn lemma_content_layout(b: Seq<u8>, major: u8, file_count: u32)
    ensures
        spec_data_start(1) == 12 && spec_entry_size(1) == 24,
        spec_data_start(2) == 100 && spec_entry_size(2) == 32,
        spec_data_start(3) == 268 && spec_entry_size(3) == 32,
        (spec_contents(b, major, file_count) matches Ok(s) ==> s.len() == file_count),
        (spec_contents(b, major, file_count) matches Ok(s) ==> forall|i: int|
            0 <= i < s.len() ==> #[trigger] spec_content_at(
                b,
                major,
                spec_data_start(major) + i * spec_entry_size(major),
            ) == Ok::<Content, DecodeError>(s[i])),
{
    if major == 1 || major == 2 || major == 3 {
        lemma_contents_from_shape(b, major, file_count as nat, 0);
        if spec_contents(b, major, file_count) is Ok {
            let s = spec_contents(b, major, file_count)->Ok_0;
            assert forall|i: int| 0 <= i < s.len() implies #[trigger] spec_content_at(
                b,
                major,
                spec_data_start(major) + i * spec_entry_size(major),
            ) == Ok::<Content, DecodeError>(s[i]) by {
                assert(spec_content_at(
                    b,
                    major,
                    spec_data_start(major) + (0 + i) * spec_entry_size(major),
                ) == Ok::<Content, DecodeError>(s[i]));
            }
        }
    }
}

/// What a successful decode of records `i..count` yields: one record per
/// declared entry, record `j` read at its fixed-stride position.
proof fn lemma_contents_from_shape(b: Seq<u8>, major: u8, count: nat, i: nat)
    ensures
        i <= count ==> (spec_contents_from(b, major, count, i) matches Ok(s) ==> s.len() == count
            - i),
        (spec_contents_from(b, major, count, i) matches Ok(s) ==> forall|j: int|
            0 <= j < s.len() ==> #[trigger] spec_content_at(
                b,
                major,
                spec_data_start(major) + (i + j) * spec_entry_size(major),
            ) == Ok::<Content, DecodeError>(s[j])),
    decreases count - i,
{
    if i < count {
        lemma_contents_from_shape(b, major, count, i + 1);
        if spec_contents_from(b, major, count, i) is Ok {
            let c = spec_content_at(
                b,
                major,
                spec_data_start(major) + i * spec_entry_size(major),
            )->Ok_0;
            let rest = spec_contents_from(b, major, count, i + 1)->Ok_0;
            let s = spec_contents_from(b, major, count, i)->Ok_0;
            assert(s == seq![c] + rest);
            assert forall|j: int| 0 <= j < s.len() implies #[trigger] spec_content_at(
                b,
                major,
                spec_data_start(major) + (i + j) * spec_entry_size(major),
            ) == Ok::<Content, DecodeError>(s[j]) by {
                if j == 0 {
                    assert(s[0] == c);
                    assert((i + 0) * spec_entry_size(major) == i * spec_entry_size(major));
                } else {
                    assert(s[j] == rest[j - 1]);
                    assert(spec_content_at(
                        b,
                        major,
                        spec_data_start(major) + ((i + 1) + (j - 1)) * spec_entry_size(major),
                    ) == Ok::<Content, DecodeError>(rest[j - 1]));
                    assert((i + 1) + (j - 1) == i + j);
                }
            }
        }
    }
}

/// Decode the version-dispatched header at the start of the input. Fails
/// with `InvalidMagic` when the input does not open with the archive tag,
/// with `UnsupportedVersion` for a major version other than 1, 2 or 3, and
/// with `Truncated` when a header region does not fit.
pub fn header(input: &[u8]) -> (r: Result<Header, DecodeError>)
    ensures
        (match r {
            Ok(h) => spec_wad_header(input@) == Ok::<HeaderV, DecodeError>(h@),
            Err(e) => spec_wad_header(input@) == Err::<HeaderV, DecodeError>(e),
        }),
{
    let magic_bytes: Vec<u8> = vec![82u8, 87u8];
    proof {
        assert(magic_bytes@ =~= wad_magic());
    }
    match read_tag(input, 0, magic_bytes.as_slice()) {
        Ok(_) => {},
        Err(e) => return Err(e),
    };
    let major = match read_u8(input, 2) {
        Ok(x) => x,
        Err(e) => return Err(e),
    };
    let minor = match read_u8(input, 3) {
        Ok(x) => x,
        Err(e) => return Err(e),
    };
    let len = input.len() as u64;
    if major == 1 {
        if len < 12 {
            return Err(DecodeError::Truncated { position: 4, width: 8, available: len });
        }
        let entry_offset = match read_u16(input, 4) {
            Ok(x) => x,
            Err(e) => return Err(e),
        };
        let entry_size = match read_u16(input, 6) {
            Ok(x) => x,
            Err(e) => return Err(e),
        };
        let file_count = match read_u32(input, 8) {
            Ok(x) => x,
            Err(e) => return Err(e),
        };
        Ok(Header { major, minor, file_count, version: HeaderVersion::V1 { entry_offset, entry_size } })
    } else if major == 2 {
        let ecdsa_len = match read_u8(input, 4) {
            Ok(x) => x,
            Err(e) => return Err(e),
        };
        let ecdsa = match read_bytes(input, 5, ecdsa_len as u64) {
            Ok(v) => v,
            Err(e) => return Err(e),
        };
        if len < 104 {
            return Err(DecodeError::Truncated { position: 88, width: 16, available: len });
        }
        let file_checksum = match read_u64(input, 88) {
            Ok(x) => x,
            Err(e) => return Err(e),
        };
        let entry_offset = match read_u16(input, 96) {
            Ok(x) => x,
            Err(e) => return Err(e),
        };
        let entry_size = match read_u16(input, 98) {
            Ok(x) => x,
            Err(e) => return Err(e),
        };
        let file_count = match read_u32(input, 100) {
            Ok(x) => x,
            Err(e) => return Err(e),
        };
        Ok(
            Header {
                major,
                minor,
                file_count,
                version: HeaderVersion::V2 { ecdsa, file_checksum, entry_offset, entry_size },
            },
        )
    } else if major == 3 {
        let ecdsa = match read_bytes(input, 4, 256) {
            Ok(v) => v,
            Err(e) => return Err(e),
        };
        if len < 272 {
            return Err(DecodeError::Truncated { position: 260, width: 12, available: len });
        }
        let file_checksum = match read_u64(input, 260) {
            Ok(x) => x,
            Err(e) => return Err(e),
        };
        let file_count = match read_u32(input, 268) {
            Ok(x) => x,
            Err(e) => return Err(e),
        };
        Ok(Header { major, minor, file_count, version: HeaderVersion::V3 { ecdsa, file_checksum } })
    } else {
        Err(DecodeError::UnsupportedVersion { value: major })
    }
}

/// Decode one content record at `pos`.
fn decode_content_at(input: &[u8], major: u8, pos: u64) -> (r: Result<Content, DecodeError>)
    ensures
        (match r {
            Ok(c) => spec_content_at(input@, major, pos as int) == Ok::<Content, DecodeError>(c),
            Err(e) => spec_content_at(input@, major, pos as int) == Err::<Content, DecodeError>(e),
        }),
{
    proof {
        vstd::slice::axiom_spec_len(input);
    }
    let hash = match read_u64(input, pos) {
        Ok(x) => x,
        Err(e) => return Err(e),
    };
    let data_offset = match read_u32(input, pos + 8) {
        Ok(x) => x,
        Err(e) => return Err(e),
    };
    let compressed_size = match read_u32(input, pos + 12) {
        Ok(x) => x,
        Err(e) => return Err(e),
    };
    let uncompressed_size = match read_u32(input, pos + 16) {
        Ok(x) => x,
        Err(e) => return Err(e),
    };
    let compression_value: u8 = if major == 1 {
        let x = match read_u32(input, pos + 20) {
            Ok(x) => x,
            Err(e) => return Err(e),
        };
        (x % 256) as u8
    } else {
        match read_u8(input, pos + 20) {
            Ok(x) => x,
            Err(e) => return Err(e),
        }
    };
    let compression_type = match compression_from_u8(compression_value) {
        Ok(c) => c,
        Err(e) => return Err(e),
    };
    if major == 1 {
        return Ok(
            Content {
                hash,
                data_offset,
                compressed_size,
                uncompressed_size,
                compression_type,
                version: ContentVersion::V1 {},
            },
        );
    }
    let duplicate = match read_u8(input, pos + 21) {
        Ok(x) => x,
        Err(e) => return Err(e),
    };
    match read_u16(input, pos + 22) {
        Ok(_) => {},
        Err(e) => return Err(e),
    };
    let sha256 = match read_u64(input, pos + 24) {
        Ok(x) => x,
        Err(e) => return Err(e),
    };
    Ok(
        Content {
            hash,
            data_offset,
            compressed_size,
            uncompressed_size,
            compression_type,
            version: ContentVersion::V2 { is_duplicate: duplicate > 0, sha256 },
        },
    )
}

/// Decode the `file_count` fixed-stride content records that `major`
/// selects the layout for.
pub fn content(input: &[u8], major: u8, file_count: u32) -> (r: Result<Vec<Content>, DecodeError>)
    ensures
        (match r {
            Ok(v) => spec_contents(input@, major, file_count) == Ok::<Seq<Content>, DecodeError>(
                v@,
            ),
            Err(e) => spec_contents(input@, major, file_count) == Err::<Seq<Content>, DecodeError>(
                e,
            ),
        }),
{
    if !(major == 1 || major == 2 || major == 3) {
        return Err(DecodeError::UnsupportedVersion { value: major });
    }
    let data_start: u64 = if major == 1 {
        12
    } else if major == 2 {
        100
    } else {
        268
    };
    let entry_size: u64 = if major == 1 {
        24
    } else {
        32
    };
    let mut out: Vec<Content> = Vec::new();
    let mut i: u32 = 0;
    while i < file_count
        invariant
            i <= file_count,
            major == 1 || major == 2 || major == 3,
            data_start == spec_data_start(major),
            entry_size == spec_entry_size(major),
            spec_contents_from(input@, major, file_count as nat, 0) == (match spec_contents_from(
                input@,
                major,
                file_count as nat,
                i as nat,
            ) {
                Ok(rest) => Ok::<Seq<Content>, DecodeError>(out@ + rest),
                Err(e) => Err::<Seq<Content>, DecodeError>(e),
            }),
        decreases file_count - i,
    {
        let pos = data_start + (i as u64) * entry_size;
        proof {
            assert(spec_contents_from(input@, major, file_count as nat, i as nat) == (
            match spec_content_at(
                input@,
                major,
                spec_data_start(major) + (i as nat) * spec_entry_size(major),
            ) {
                Err(e) => Err::<Seq<Content>, DecodeError>(e),
                Ok(c) => match spec_contents_from(input@, major, file_count as nat, (i + 1) as nat) {
                    Err(e) => Err::<Seq<Content>, DecodeError>(e),
                    Ok(rest) => Ok::<Seq<Content>, DecodeError>(seq![c] + rest),
                },
            }));
        }
        match decode_content_at(input, major, pos) {
            Ok(c) => {
                let ghost prev = out@;
                out.push(c);
                proof {
                    assert(out@ =~= prev + seq![c]);
                    assert forall|rest: Seq<Content>|
                        prev + (seq![c] + rest) =~= (prev + seq![c]) + rest by {};
                }
                i += 1;
            },
            Err(e) => return Err(e),
        }
    }
    proof {
        assert(out@ + Seq::<Content>::empty() =~= out@);
    }
    Ok(out)
}

/// Decode a whole WAD archive from an immutable input buffer. Either the
/// full table comes back or a typed error does.
pub fn parse(input: &[u8]) -> (r: Result<File, DecodeError>)
    ensures
        (match r {
            Ok(f) => spec_parse(input@) == Ok::<FileV, DecodeError>(f@),
            Err(e) => spec_parse(input@) == Err::<FileV, DecodeError>(e),
        }),
{
    let h = match header(input) {
        Ok(h) => h,
        Err(e) => return Err(e),
    };
    let c = match content(input, h.major, h.file_count) {
        Ok(v) => v,
        Err(e) => return Err(e),
    };
    Ok(File { header: h, content: c })
}

} // verus!

