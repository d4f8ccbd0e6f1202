//! Decoder for the RMAN release-manifest format: a fixed-layout header, a
//! zstd-compressed body, and four record sections (bundles, languages,
//! files, directories) reached through a root offset map and decoded with
//! the generic vtable engine of `crate::table`.
//!
//! Decoding is one pass over an immutable buffer and fails atomically: any
//! bounds violation, wrong magic, missing required field or decompression
//! failure aborts the whole call with a typed error. The sole exception is
//! string data, where invalid UTF-8 is repaired rather than fatal.

use vstd::prelude::*;

use crate::cursor::{
    in_bounds, spec_read_tag, spec_read_u8, spec_read_u32, spec_read_u64, spec_read_bytes,
    trunc_err, u8_at, u32_at, u64_at, read_tag, read_u8, read_u32, read_u64, read_bytes, sat_add,
    lemma_clamp_read,
};
use crate::error::DecodeError;
use crate::table::{
    refs_view, spec_refs, spec_string_at, spec_longs, parse_vector, parse_long_vector,
    read_indirect_string, TableRef, TableRefV,
};

verus! {

/// The fixed-layout RMAN header: a 4-byte magic tag, four version and
/// signature bytes, the position and length of the compressed body inside
/// the input, the manifest id, and the declared decompressed length.
#[derive(Debug, PartialEq, Eq)]
pub struct Header {
    pub magic: String,
    pub major: u8,
    pub minor: u8,
    pub unknown: u8,
    pub signature_type: u8,
    pub offset: u32,
    pub length: u32,
    pub manifest_id: u64,
    pub decompressed_length: u32,
}

/// The mathematical image of a `Header`.
pub struct HeaderV {
    pub magic: Seq<char>,
    pub major: u8,
    pub minor: u8,
    pub unknown: u8,
    pub signature_type: u8,
    pub offset: u32,
    pub length: u32,
    pub manifest_id: u64,
    pub decompressed_length: u32,
}

impl View for Header {
    type V = HeaderV;

    open spec fn view(&self) -> HeaderV {
        HeaderV {
            magic: self.magic@,
            major: self.major,
            minor: self.minor,
            unknown: self.unknown,
            signature_type: self.signature_type,
            offset: self.offset,
            length: self.length,
            manifest_id: self.manifest_id,
            decompressed_length: self.decompressed_length,
        }
    }
}

/// The four absolute section start positions resolved from the root table
/// of the decompressed body. Derived during decode, not part of the output
/// tree.
#[derive(Debug, Clone, Copy, PartialEq, Eq, Structural)]
pub struct OffsetMap {
    pub bundle_offset: u64,
    pub language_offset: u64,
    pub file_offset: u64,
    pub folder_offset: u64,
}

/// One content-addressed chunk of a bundle.
#[derive(Debug, Clone, Copy, PartialEq, Eq, Structural)]
pub struct Chunk {
    pub compressed_size: u32,
    pub uncompressed_size: u32,
    pub chunk_id: u64,
}

/// A downloadable bundle: its id and its ordered chunk list.
#[derive(Debug, PartialEq, Eq)]
pub struct Bundle {
    pub bundle_id: u64,
    pub chunks: Vec<Chunk>,
}

/// The mathematical image of a `Bundle`.
pub struct BundleV {
    pub bundle_id: u64,
    pub chunks: Seq<Chunk>,
}

impl View for Bundle {
    type V = BundleV;

    open spec fn view(&self) -> BundleV {
        BundleV { bundle_id: self.bundle_id, chunks: self.chunks@ }
    }
}

/// A language record: a small id and a human-readable name.
#[derive(Debug, PartialEq, Eq)]
pub struct Language {
    pub id: u8,
    pub name: String,
}

/// The mathematical image of a `Language`.
pub struct LanguageV {
    pub id: u8,
    pub name: Seq<char>,
}

impl View for Language {
    type V = LanguageV;

    open spec fn view(&self) -> LanguageV {
        LanguageV { id: self.id, name: self.name@ }
    }
}

/// A file record: identity, names, owning directory, size, language mask
/// and the ordered chunk ids that assemble its content.
#[derive(Debug, PartialEq, Eq)]
pub struct FileEntry {
    pub id: u64,
    pub name: String,
    pub symlink: String,
    pub directory_id: u64,
    pub size: u32,
    pub language: u32,
    pub chunk_ids: Vec<u64>,
}

/// The mathematical image of a `FileEntry`.
pub struct FileEntryV {
    pub id: u64,
    pub name: Seq<char>,
    pub symlink: Seq<char>,
    pub directory_id: u64,
    pub size: u32,
    pub language: u32,
    pub chunk_ids: Seq<u64>,
}

impl View for FileEntry {
    type V = FileEntryV;

    open spec fn view(&self) -> FileEntryV {
        FileEntryV {
            id: self.id,
            name: self.name@,
            symlink: self.symlink@,
            directory_id: self.directory_id,
            size: self.size,
            language: self.language,
            chunk_ids: self.chunk_ids@,
        }
    }
}

/// A directory record. `id` and `parent_id` default to 0 when their vtable
/// slot is absent; a `parent_id` of 0 denotes the root.
#[derive(Debug, PartialEq, Eq)]
pub struct Directory {
    pub id: u64,
    pub parent_id: u64,
    pub name: String,
}

/// The mathematical image of a `Directory`.
pub struct DirectoryV {
    pub id: u64,
    pub parent_id: u64,
    pub name: Seq<char>,
}

impl View for Directory {
    type V = DirectoryV;

    open spec fn view(&self) -> DirectoryV {
        DirectoryV { id: self.id, parent_id: self.parent_id, name: self.name@ }
    }
}

/// The four decoded sections of a manifest body.
#[derive(Debug, PartialEq, Eq)]
pub struct Body {
    pub bundles: Vec<Bundle>,
    pub languages: Vec<Language>,
    pub files: Vec<FileEntry>,
    pub directories: Vec<Directory>,
}

/// The mathematical image of a `Body`.
pub struct BodyV {
    pub bundles: Seq<BundleV>,
    pub languages: Seq<LanguageV>,
    pub files: Seq<FileEntryV>,
    pub directories: Seq<DirectoryV>,
}

impl View for Body {
    type V = BodyV;

    open spec fn view(&self) -> BodyV {
        BodyV {
            bundles: self.bundles@.map_values(|x: Bundle| x@),
            languages: self.languages@.map_values(|x: Language| x@),
            files: self.files@.map_values(|x: FileEntry| x@),
            directories: self.directories@.map_values(|x: Directory| x@),
        }
    }
}

/// A fully decoded manifest.
#[derive(Debug, PartialEq, Eq)]
pub struct File {
    pub header: Header,
    pub body: Body,
}

/// The mathematical image of a `File`.
pub struct FileV {
    pub header: HeaderV,
    pub body: BodyV,
}

impl View for File {
    type V = FileV;

    open spec fn view(&self) -> FileV {
        FileV { header: self.header@, body: self.body@ }
    }
}

/// The four magic bytes that open a manifest.
pub open spec fn rman_magic() -> Seq<u8> {
    seq![82u8, 77u8, 65u8, 78u8]
}

/// What decoding the fixed 28-byte header at the start of `b` yields.
pub open spec fn spec_header(b: Seq<u8>) -> Result<HeaderV, DecodeError> {
    match spec_read_tag(b, 0, rman_magic()) {
        Err(e) => Err(e),
        Ok(_) => if b.len() >= 28 {
            Ok(HeaderV {
                magic: "RMAN"@,
                major: u8_at(b, 4),
                minor: u8_at(b, 5),
                unknown: u8_at(b, 6),
                signature_type: u8_at(b, 7),
                offset: u32_at(b, 8),
                length: u32_at(b, 12),
                manifest_id: u64_at(b, 16),
                decompressed_length: u32_at(b, 24),
            })
        } else {
            Err(trunc_err(4, 24, b.len() as int))
        },
    }
}

/// Every header that decodes at all carries the magic text `RMAN`, and a
/// buffer long enough to hold the tag whose leading bytes differ from it
/// is rejected with `InvalidMagic`, at position 0.
pub proof fn lemma_header_magic(b: Seq<u8>)
    ensures
        (spec_header(b) matches Ok(h) ==> h.magic == "RMAN"@),
        b.len() >= 4 && !crate::cursor::tag_matches(b, 0, rman_magic()) ==> spec_header(b) == Err::<
            HeaderV,
            DecodeError,
        >(DecodeError::InvalidMagic { position: 0 }),
{
}

/// When a directory record decodes and its id or parent-id vtable slot is
/// absent (field offset 0), that field is 0 in the result: the default is
/// substituted, and no read at the table position itself ever happens.
pub proof fn lemma_directory_defaults(b: Seq<u8>, t: TableRefV)
    ensures
        t.fields[2] == 0 ==> (spec_directory(b, t) matches Ok(d) ==> d.id == 0),
        t.fields[3] == 0 ==> (spec_directory(b, t) matches Ok(d) ==> d.parent_id == 0),
{
}

/// What resolving the root offset map of the decompressed body yields: the
/// `u32` at position 0 locates the root table; the four section fields are
/// the `u32` values 4, 8, 12 and 16 bytes into it; each section's absolute
/// start adds the root position, the raw field value and the field's own
/// byte position within the root record.
pub open spec fn spec_offset_map(b: Seq<u8>) -> Result<OffsetMap, DecodeError> {
    match spec_read_u32(b, 0) {
        Err(e) => Err(e),
        Ok(ho) => if in_bounds(ho as int, 20, b.len() as int) {
            Ok(OffsetMap {
                bundle_offset: (ho + u32_at(b, ho + 4) + 4) as u64,
                language_offset: (ho + u32_at(b, ho + 8) + 8) as u64,
                file_offset: (ho + u32_at(b, ho + 12) + 12) as u64,
                folder_offset: (ho + u32_at(b, ho + 16) + 16) as u64,
            })
        } else {
            Err(trunc_err(ho as int, 20, b.len() as int))
        },
    }
}

/// What decoding one chunk record at the resolved reference `t` yields.
/// Schema slots: 2 = chunk id (`u64`), 3 = compressed size (`u32`),
/// 4 = uncompressed size (`u32`); all required.
pub open spec fn spec_chunk(b: Seq<u8>, t: TableRefV) -> Result<Chunk, DecodeError> {
    if t.fields[2] == 0 {
        Err(DecodeError::MissingField { field: 2 })
    } else {
        match spec_read_u64(b, t.table_pos + t.fields[2]) {
            Err(e) => Err(e),
            Ok(chunk_id) => if t.fields[3] == 0 {
                Err(DecodeError::MissingField { field: 3 })
            } else {
                match spec_read_u32(b, t.table_pos + t.fields[3]) {
                    Err(e) => Err(e),
                    Ok(compressed_size) => if t.fields[4] == 0 {
                        Err(DecodeError::MissingField { field: 4 })
                    } else {
                        match spec_read_u32(b, t.table_pos + t.fields[4]) {
                            Err(e) => Err(e),
                            Ok(uncompressed_size) => Ok(
                                Chunk { compressed_size, uncompressed_size, chunk_id },
                            ),
                        }
                    },
                }
            },
        }
    }
}

/// What decoding chunk records `i..` of the resolved references `refs`
/// yields, in index order, stopping at the first failure.
pub open spec fn spec_chunks_from(b: Seq<u8>, refs: Seq<TableRefV>, i: nat) -> Result<
    Seq<Chunk>,
    DecodeError,
>
    decreases refs.len() - i,
{
    if i >= refs.len() {
        Ok(Seq::empty())
    } else {
        match spec_chunk(b, refs[i as int]) {
            Err(e) => Err(e),
            Ok(c) => match spec_chunks_from(b, refs, i + 1) {
                Err(e) => Err(e),
                Ok(rest) => Ok(seq![c] + rest),
            },
        }
    }
}

/// What decoding one bundle record at the resolved reference `t` yields.
/// Schema slots: 0 = bundle id (`u64`), 1 = chunk vector; both required.
pub open spec fn spec_bundle(b: Seq<u8>, t: TableRefV) -> Result<BundleV, DecodeError> {
    if t.fields[0] == 0 {
        Err(DecodeError::MissingField { field: 0 })
    } else {
        match spec_read_u64(b, t.table_pos + t.fields[0]) {
            Err(e) => Err(e),
            Ok(bundle_id) => if t.fields[1] == 0 {
                Err(DecodeError::MissingField { field: 1 })
            } else {
                match spec_refs(b, t.table_pos + t.fields[1], 5) {
                    Err(e) => Err(e),
                    Ok(crefs) => match spec_chunks_from(b, crefs, 0) {
                        Err(e) => Err(e),
                        Ok(chunks) => Ok(BundleV { bundle_id, chunks }),
                    },
                }
            },
        }
    }
}

/// What decoding bundle records `i..` of the resolved references `refs`
/// yields.
pub open spec fn spec_bundles_from(b: Seq<u8>, refs: Seq<TableRefV>, i: nat) -> Result<
    Seq<BundleV>,
    DecodeError,
>
    decreases refs.len() - i,
{
    if i >= refs.len() {
        Ok(Seq::empty())
    } else {
        match spec_bundle(b, refs[i as int]) {
            Err(e) => Err(e),
            Ok(x) => match spec_bundles_from(b, refs, i + 1) {
                Err(e) => Err(e),
                Ok(rest) => Ok(seq![x] + rest),
            },
        }
    }
}

/// What decoding the whole bundle section at `start` yields: a vector of
/// indirect references with the 4-slot bundle schema, each decoded in
/// index order.
pub open spec fn spec_bundles(b: Seq<u8>, start: int) -> Result<Seq<BundleV>, DecodeError> {
    match spec_refs(b, start, 4) {
        Err(e) => Err(e),
        Ok(refs) => spec_bundles_from(b, refs, 0),
    }
}

/// Decode one chunk record.
fn decode_chunk(input: &[u8], t: &TableRef) -> (r: Result<Chunk, DecodeError>)
    requires
        t@.fields.len() == 5,
    ensures
        (match r {
            Ok(c) => spec_chunk(input@, t@) == Ok::<Chunk, DecodeError>(c),
            Err(e) => spec_chunk(input@, t@) == Err::<Chunk, DecodeError>(e),
        }),
{
    proof {
        vstd::slice::axiom_spec_len(input);
    }
    let f_id = t.fields[2];
    if f_id == 0 {
        return Err(DecodeError::MissingField { field: 2 });
    }
    let id_pos = sat_add(t.table_pos, f_id as u64);
    proof {
        lemma_clamp_read(input@, t@.table_pos + t@.fields[2]);
    }
    let chunk_id = match read_u64(input, id_pos) {
        Ok(x) => x,
        Err(e) => return Err(e),
    };
    let f_c = t.fields[3];
    if f_c == 0 {
        return Err(DecodeError::MissingField { field: 3 });
    }
    let c_pos = sat_add(t.table_pos, f_c as u64);
    proof {
        lemma_clamp_read(input@, t@.table_pos + t@.fields[3]);
    }
    let compressed_size = match read_u32(input, c_pos) {
        Ok(x) => x,
        Err(e) => return Err(e),
    };
    let f_u = t.fields[4];
    if f_u == 0 {
        return Err(DecodeError::MissingField { field: 4 });
    }
    let u_pos = sat_add(t.table_pos, f_u as u64);
    proof {
        lemma_clamp_read(input@, t@.table_pos + t@.fields[4]);
    }
    let uncompressed_size = match read_u32(input, u_pos) {
        Ok(x) => x,
        Err(e) => return Err(e),
    };
    Ok(Chunk { compressed_size, uncompressed_size, chunk_id })
}

/// Decode one bundle record: its id, then its nested chunk vector.
fn decode_bundle(input: &[u8], t: &TableRef) -> (r: Result<Bundle, DecodeError>)
    requires
        t@.fields.len() == 4,
    ensures
        (match r {
            Ok(x) => spec_bundle(input@, t@) == Ok::<BundleV, DecodeError>(x@),
            Err(e) => spec_bundle(input@, t@) == Err::<BundleV, DecodeError>(e),
        }),
{
    proof {
        vstd::slice::axiom_spec_len(input);
    }
    let f_id = t.fields[0];
    if f_id == 0 {
        return Err(DecodeError::MissingField { field: 0 });
    }
    let id_pos = sat_add(t.table_pos, f_id as u64);
    proof {
        lemma_clamp_read(input@, t@.table_pos + t@.fields[0]);
    }
    let bundle_id = match read_u64(input, id_pos) {
        Ok(x) => x,
        Err(e) => return Err(e),
    };
    let f_chunks = t.fields[1];
    if f_chunks == 0 {
        return Err(DecodeError::MissingField { field: 1 });
    }
    let chunks_start = sat_add(t.table_pos, f_chunks as u64);
    proof {
        crate::table::lemma_clamp_refs(input@, t@.table_pos + t@.fields[1], 5);
    }
    let crefs = match parse_vector(input, chunks_start, 5) {
        Ok(v) => v,
        Err(e) => return Err(e),
    };
    proof {
        crate::table::lemma_refs_fields(input@, t@.table_pos + t@.fields[1], 5);
        assert forall|j: int| 0 <= j < crefs@.len() implies (#[trigger] crefs@[j])@.fields.len()
            == 5 by {
            assert(refs_view(crefs@)[j] == crefs@[j]@);
        }
    }
    let mut chunks: Vec<Chunk> = Vec::new();
    let mut k: usize = 0;
    while k < crefs.len()
        invariant
            k <= crefs@.len(),
            t@.fields.len() == 4,
            t@.fields[0] != 0,
            t@.fields[1] != 0,
            spec_read_u64(input@, t@.table_pos + t@.fields[0]) == Ok::<u64, DecodeError>(
                bundle_id,
            ),
            spec_refs(input@, t@.table_pos + t@.fields[1], 5) == Ok::<
                Seq<TableRefV>,
                DecodeError,
            >(refs_view(crefs@)),
            forall|j: int| 0 <= j < crefs@.len() ==> (#[trigger] crefs@[j])@.fields.len() == 5,
            spec_chunks_from(input@, refs_view(crefs@), 0) == (match spec_chunks_from(
                input@,
                refs_view(crefs@),
                k as nat,
            ) {
                Ok(rest) => Ok::<Seq<Chunk>, DecodeError>(chunks@ + rest),
                Err(e) => Err::<Seq<Chunk>, DecodeError>(e),
            }),
        decreases crefs@.len() - k,
    {
        proof {
            assert(refs_view(crefs@)[k as int] == crefs@[k as int]@);
            assert(spec_chunks_from(input@, refs_view(crefs@), k as nat) == (match spec_chunk(
                input@,
                refs_view(crefs@)[k as int],
            ) {
                Err(e) => Err::<Seq<Chunk>, DecodeError>(e),
                Ok(c) => match spec_chunks_from(input@, refs_view(crefs@), (k + 1) as nat) {
                    Err(e) => Err::<Seq<Chunk>, DecodeError>(e),
                    Ok(rest) => Ok::<Seq<Chunk>, DecodeError>(seq![c] + rest),
                },
            }));
        }
        match decode_chunk(input, &crefs[k]) {
            Ok(c) => {
                let ghost prev = chunks@;
                chunks.push(c);
                proof {
                    assert forall|rest: Seq<Chunk>|
                        prev + (seq![c] + rest) =~= (prev + seq![c]) + rest by {};
                    assert(chunks@ =~= prev + seq![c]);
                }
                k += 1;
            },
            Err(e) => return Err(e),
        }
    }
    proof {
        assert(chunks@ + Seq::<Chunk>::empty() =~= chunks@);
    }
    Ok(Bundle { bundle_id, chunks })
}

/// The images of a sequence of bundles.
pub open spec fn bundles_view(s: Seq<Bundle>) -> Seq<BundleV> {
    s.map_values(|x: Bundle| x@)
}

/// Decode the bundle section at `bundles_start` of the decompressed body.
pub fn bundles(input: &[u8], bundles_start: u64) -> (r: Result<Vec<Bundle>, DecodeError>)
    ensures
        (match r {
            Ok(v) => spec_bundles(input@, bundles_start as int) == Ok::<
                Seq<BundleV>,
                DecodeError,
            >(bundles_view(v@)),
            Err(e) => spec_bundles(input@, bundles_start as int) == Err::<
                Seq<BundleV>,
                DecodeError,
            >(e),
        }),
{
    let refs = match parse_vector(input, bundles_start, 4) {
        Ok(v) => v,
        Err(e) => return Err(e),
    };
    proof {
        crate::table::lemma_refs_fields(input@, bundles_start as int, 4);
        assert forall|j: int| 0 <= j < refs@.len() implies (#[trigger] refs@[j])@.fields.len()
            == 4 by {
            assert(refs_view(refs@)[j] == refs@[j]@);
        }
    }
    let mut out: Vec<Bundle> = Vec::new();
    let mut k: usize = 0;
    while k < refs.len()
        invariant
            k <= refs@.len(),
            spec_refs(input@, bundles_start as int, 4) == Ok::<
                Seq<TableRefV>,
                DecodeError,
            >(refs_view(refs@)),
            forall|j: int| 0 <= j < refs@.len() ==> (#[trigger] refs@[j])@.fields.len() == 4,
            spec_bundles_from(input@, refs_view(refs@), 0) == (match spec_bundles_from(
                input@,
                refs_view(refs@),
                k as nat,
            ) {
                Ok(rest) => Ok::<Seq<BundleV>, DecodeError>(bundles_view(out@) + rest),
                Err(e) => Err::<Seq<BundleV>, DecodeError>(e),
            }),
        decreases refs@.len() - k,
    {
        proof {
            assert(refs_view(refs@)[k as int] == refs@[k as int]@);
            assert(spec_bundles_from(input@, refs_view(refs@), k as nat) == (match spec_bundle(
                input@,
                refs_view(refs@)[k as int],
            ) {
                Err(e) => Err::<Seq<BundleV>, DecodeError>(e),
                Ok(x) => match spec_bundles_from(input@, refs_view(refs@), (k + 1) as nat) {
                    Err(e) => Err::<Seq<BundleV>, DecodeError>(e),
                    Ok(rest) => Ok::<Seq<BundleV>, DecodeError>(seq![x] + rest),
                },
            }));
        }
        match decode_bundle(input, &refs[k]) {
            Ok(x) => {
                let ghost prev = out@;
                out.push(x);
                proof {
                    assert(bundles_view(out@) =~= bundles_view(prev) + seq![x@]);
                    assert forall|rest: Seq<BundleV>|
                        bundles_view(prev) + (seq![x@] + rest) =~= (bundles_view(prev) + seq![x@])
                            + rest by {};
                }
                k += 1;
            },
            Err(e) => return Err(e),
        }
    }
    proof {
        assert(bundles_view(out@) + Seq::<BundleV>::empty() =~= bundles_view(out@));
    }
    Ok(out)
}

/// What decoding one language record at the resolved reference `t` yields.
/// Schema slots: 0 = name (indirect string), 2 = language id (`u8`); both
/// required. Slot 1 is unused but still occupies its vtable position.
pub open spec fn spec_language(b: Seq<u8>, t: TableRefV) -> Result<LanguageV, DecodeError> {
    if t.fields[0] == 0 {
        Err(DecodeError::MissingField { field: 0 })
    } else {
        match spec_string_at(b, t.table_pos + t.fields[0]) {
            Err(e) => Err(e),
            Ok(name) => if t.fields[2] == 0 {
                Err(DecodeError::MissingField { field: 2 })
            } else {
                match spec_read_u8(b, t.table_pos + t.fields[2]) {
                    Err(e) => Err(e),
                    Ok(id) => Ok(LanguageV { id, name }),
                }
            },
        }
    }
}

/// What decoding language records `i..` of the resolved references `refs`
/// yields.
pub open spec fn spec_languages_from(b: Seq<u8>, refs: Seq<TableRefV>, i: nat) -> Result<
    Seq<LanguageV>,
    DecodeError,
>
    decreases refs.len() - i,
{
    if i >= refs.len() {
        Ok(Seq::empty())
    } else {
        match spec_language(b, refs[i as int]) {
            Err(e) => Err(e),
            Ok(x) => match spec_languages_from(b, refs, i + 1) {
                Err(e) => Err(e),
                Ok(rest) => Ok(seq![x] + rest),
            },
        }
    }
}

/// What decoding the whole language section at `start` yields: a vector of
/// indirect references with the 3-slot language schema.
pub open spec fn spec_languages(b: Seq<u8>, start: int) -> Result<Seq<LanguageV>, DecodeError> {
    match spec_refs(b, start, 3) {
        Err(e) => Err(e),
        Ok(refs) => spec_languages_from(b, refs, 0),
    }
}

/// What decoding one directory record at the resolved reference `t`
/// yields. Schema slots: 2 = directory id, 3 = parent id, 4 = name. The
/// two ids default to 0 when their slot is absent — never a read at the
/// table position itself; the name is required.
pub open spec fn spec_directory(b: Seq<u8>, t: TableRefV) -> Result<DirectoryV, DecodeError> {
    if t.fields[4] == 0 {
        Err(DecodeError::MissingField { field: 4 })
    } else {
        match spec_string_at(b, t.table_pos + t.fields[4]) {
            Err(e) => Err(e),
            Ok(name) => {
                let id_res: Result<u64, DecodeError> = if t.fields[2] == 0 {
                    Ok(0u64)
                } else {
                    spec_read_u64(b, t.table_pos + t.fields[2])
                };
                match id_res {
                    Err(e) => Err(e),
                    Ok(id) => {
                        let parent_res: Result<u64, DecodeError> = if t.fields[3] == 0 {
                            Ok(0u64)
                        } else {
                            spec_read_u64(b, t.table_pos + t.fields[3])
                        };
                        match parent_res {
                            Err(e) => Err(e),
                            Ok(parent_id) => Ok(DirectoryV { id, parent_id, name }),
                        }
                    },
                }
            },
        }
    }
}

/// What decoding directory records `i..` of the resolved references `refs`
/// yields.
pub open spec fn spec_directories_from(b: Seq<u8>, refs: Seq<TableRefV>, i: nat) -> Result<
    Seq<DirectoryV>,
    DecodeError,
>
    decreases refs.len() - i,
{
    if i >= refs.len() {
        Ok(Seq::empty())
    } else {
        match spec_directory(b, refs[i as int]) {
            Err(e) => Err(e),
            Ok(x) => match spec_directories_from(b, refs, i + 1) {
                Err(e) => Err(e),
                Ok(rest) => Ok(seq![x] + rest),
            },
        }
    }
}

/// What decoding the whole directory section at `start` yields: a vector
/// of indirect references with the 5-slot directory schema.
pub open spec fn spec_directories(b: Seq<u8>, start: int) -> Result<Seq<DirectoryV>, DecodeError> {
    match spec_refs(b, start, 5) {
        Err(e) => Err(e),
        Ok(refs) => spec_directories_from(b, refs, 0),
    }
}

/// Decode one language record.
fn decode_language(input: &[u8], t: &TableRef) -> (r: Result<Language, DecodeError>)
    requires
        t@.fields.len() == 3,
    ensures
        (match r {
            Ok(x) => spec_language(input@, t@) == Ok::<LanguageV, DecodeError>(x@),
            Err(e) => spec_language(input@, t@) == Err::<LanguageV, DecodeError>(e),
        }),
{
    proof {
        vstd::slice::axiom_spec_len(input);
    }
    let f_name = t.fields[0];
    if f_name == 0 {
        return Err(DecodeError::MissingField { field: 0 });
    }
    let name_pos = sat_add(t.table_pos, f_name as u64);
    proof {
        crate::table::lemma_clamp_string(input@, t@.table_pos + t@.fields[0]);
    }
    let name = match read_indirect_string(input, name_pos) {
        Ok(s) => s,
        Err(e) => return Err(e),
    };
    let f_id = t.fields[2];
    if f_id == 0 {
        return Err(DecodeError::MissingField { field: 2 });
    }
    let id_pos = sat_add(t.table_pos, f_id as u64);
    proof {
        lemma_clamp_read(input@, t@.table_pos + t@.fields[2]);
    }
    let id = match read_u8(input, id_pos) {
        Ok(x) => x,
        Err(e) => return Err(e),
    };
    Ok(Language { id, name })
}

/// Decode one directory record.
fn decode_directory(input: &[u8], t: &TableRef) -> (r: Result<Directory, DecodeError>)
    requires
        t@.fields.len() == 5,
    ensures
        (match r {
            Ok(x) => spec_directory(input@, t@) == Ok::<DirectoryV, DecodeError>(x@),
            Err(e) => spec_directory(input@, t@) == Err::<DirectoryV, DecodeError>(e),
        }),
{
    proof {
        vstd::slice::axiom_spec_len(input);
    }
    let f_name = t.fields[4];
    if f_name == 0 {
        return Err(DecodeError::MissingField { field: 4 });
    }
    let name_pos = sat_add(t.table_pos, f_name as u64);
    proof {
        crate::table::lemma_clamp_string(input@, t@.table_pos + t@.fields[4]);
    }
    let name = match read_indirect_string(input, name_pos) {
        Ok(s) => s,
        Err(e) => return Err(e),
    };
    let f_id = t.fields[2];
    let id: u64 = if f_id == 0 {
        0
    } else {
        let id_pos = sat_add(t.table_pos, f_id as u64);
        proof {
            lemma_clamp_read(input@, t@.table_pos + t@.fields[2]);
        }
        match read_u64(input, id_pos) {
            Ok(x) => x,
            Err(e) => return Err(e),
        }
    };
    let f_parent = t.fields[3];
    let parent_id: u64 = if f_parent == 0 {
        0
    } else {
        let parent_pos = sat_add(t.table_pos, f_parent as u64);
        proof {
            lemma_clamp_read(input@, t@.table_pos + t@.fields[3]);
        }
        match read_u64(input, parent_pos) {
            Ok(x) => x,
            Err(e) => return Err(e),
        }
    };
    Ok(Directory { id, parent_id, name })
}

/// The images of a sequence of languages.
pub open spec fn languages_view(s: Seq<Language>) -> Seq<LanguageV> {
    s.map_values(|x: Language| x@)
}

/// The images of a sequence of directories.
pub open spec fn directories_view(s: Seq<Directory>) -> Seq<DirectoryV> {
    s.map_values(|x: Directory| x@)
}

/// Decode the language section at `languages_start` of the decompressed
/// body.
pub fn languages(input: &[u8], languages_start: u64) -> (r: Result<Vec<Language>, DecodeError>)
    ensures
        (match r {
            Ok(v) => spec_languages(input@, languages_start as int) == Ok::<
                Seq<LanguageV>,
                DecodeError,
            >(languages_view(v@)),
            Err(e) => spec_languages(input@, languages_start as int) == Err::<
                Seq<LanguageV>,
                DecodeError,
            >(e),
        }),
{
    let refs = match parse_vector(input, languages_start, 3) {
        Ok(v) => v,
        Err(e) => return Err(e),
    };
    proof {
        crate::table::lemma_refs_fields(input@, languages_start as int, 3);
        assert forall|j: int| 0 <= j < refs@.len() implies (#[trigger] refs@[j])@.fields.len()
            == 3 by {
            assert(refs_view(refs@)[j] == refs@[j]@);
        }
    }
    let mut out: Vec<Language> = Vec::new();
    let mut k: usize = 0;
    while k < refs.len()
        invariant
            k <= refs@.len(),
            spec_refs(input@, languages_start as int, 3) == Ok::<
                Seq<TableRefV>,
                DecodeError,
            >(refs_view(refs@)),
            forall|j: int| 0 <= j < refs@.len() ==> (#[trigger] refs@[j])@.fields.len() == 3,
            spec_languages_from(input@, refs_view(refs@), 0) == (match spec_languages_from(
                input@,
                refs_view(refs@),
                k as nat,
            ) {
                Ok(rest) => Ok::<Seq<LanguageV>, DecodeError>(languages_view(out@) + rest),
                Err(e) => Err::<Seq<LanguageV>, DecodeError>(e),
            }),
        decreases refs@.len() - k,
    {
        proof {
            assert(refs_view(refs@)[k as int] == refs@[k as int]@);
            assert(spec_languages_from(input@, refs_view(refs@), k as nat) == (match spec_language(
                input@,
                refs_view(refs@)[k as int],
            ) {
                Err(e) => Err::<Seq<LanguageV>, DecodeError>(e),
                Ok(x) => match spec_languages_from(input@, refs_view(refs@), (k + 1) as nat) {
                    Err(e) => Err::<Seq<LanguageV>, DecodeError>(e),
                    Ok(rest) => Ok::<Seq<LanguageV>, DecodeError>(seq![x] + rest),
                },
            }));
        }
        match decode_language(input, &refs[k]) {
            Ok(x) => {
                let ghost prev = out@;
                out.push(x);
                proof {
                    assert(languages_view(out@) =~= languages_view(prev) + seq![x@]);
                    assert forall|rest: Seq<LanguageV>|
                        languages_view(prev) + (seq![x@] + rest) =~= (languages_view(prev)
                            + seq![x@]) + rest by {};
                }
                k += 1;
            },
            Err(e) => return Err(e),
        }
    }
    proof {
        assert(languages_view(out@) + Seq::<LanguageV>::empty() =~= languages_view(out@));
    }
    Ok(out)
}

/// Decode the directory section at `directories_start` of the decompressed
/// body.
pub fn directories(input: &[u8], directories_start: u64) -> (r: Result<
    Vec<Directory>,
    DecodeError,
>)
    ensures
        (match r {
            Ok(v) => spec_directories(input@, directories_start as int) == Ok::<
                Seq<DirectoryV>,
                DecodeError,
            >(directories_view(v@)),
            Err(e) => spec_directories(input@, directories_start as int) == Err::<
                Seq<DirectoryV>,
                DecodeError,
            >(e),
        }),
{
    let refs = match parse_vector(input, directories_start, 5) {
        Ok(v) => v,
        Err(e) => return Err(e),
    };
    proof {
        crate::table::lemma_refs_fields(input@, directories_start as int, 5);
        assert forall|j: int| 0 <= j < refs@.len() implies (#[trigger] refs@[j])@.fields.len()
            == 5 by {
            assert(refs_view(refs@)[j] == refs@[j]@);
        }
    }
    let mut out: Vec<Directory> = Vec::new();
    let mut k: usize = 0;
    while k < refs.len()
        invariant
            k <= refs@.len(),
            spec_refs(input@, directories_start as int, 5) == Ok::<
                Seq<TableRefV>,
                DecodeError,
            >(refs_view(refs@)),
            forall|j: int| 0 <= j < refs@.len() ==> (#[trigger] refs@[j])@.fields.len() == 5,
            spec_directories_from(input@, refs_view(refs@), 0) == (match spec_directories_from(
                input@,
                refs_view(refs@),
                k as nat,
            ) {
                Ok(rest) => Ok::<Seq<DirectoryV>, DecodeError>(directories_view(out@) + rest),
                Err(e) => Err::<Seq<DirectoryV>, DecodeError>(e),
            }),
        decreases refs@.len() - k,
    {
        proof {
            assert(refs_view(refs@)[k as int] == refs@[k as int]@);
            assert(spec_directories_from(input@, refs_view(refs@), k as nat) == (
            match spec_directory(input@, refs_view(refs@)[k as int]) {
                Err(e) => Err::<Seq<DirectoryV>, DecodeError>(e),
                Ok(x) => match spec_directories_from(input@, refs_view(refs@), (k + 1) as nat) {
                    Err(e) => Err::<Seq<DirectoryV>, DecodeError>(e),
                    Ok(rest) => Ok::<Seq<DirectoryV>, DecodeError>(seq![x] + rest),
                },
            }));
        }
        match decode_directory(input, &refs[k]) {
            Ok(x) => {
                let ghost prev = out@;
                out.push(x);
                proof {
                    assert(directories_view(out@) =~= directories_view(prev) + seq![x@]);
                    assert forall|rest: Seq<DirectoryV>|
                        directories_view(prev) + (seq![x@] + rest) =~= (directories_view(prev)
                            + seq![x@]) + rest by {};
                }
                k += 1;
            },
            Err(e) => return Err(e),
        }
    }
    proof {
        assert(directories_view(out@) + Seq::<DirectoryV>::empty() =~= directories_view(out@));
    }
    Ok(out)
}

/// What decoding one file record at the resolved reference `t` yields.
/// Schema slots (15 in all; unused slots still occupy vtable positions):
/// 1 = chunk-id long vector, 2 = file id (`u64`), 3 = directory id
/// (`u64`), 4 = file size (`u32`), 5 = name (indirect string),
/// 6 = language mask (`u32`), 11 = symlink (indirect string, possibly
/// empty); all read fields are required.
pub open spec fn spec_file(b: Seq<u8>, t: TableRefV) -> Result<FileEntryV, DecodeError> {
    if t.fields[5] == 0 {
        Err(DecodeError::MissingField { field: 5 })
    } else {
        match spec_string_at(b, t.table_pos + t.fields[5]) {
            Err(e) => Err(e),
            Ok(name) => if t.fields[11] == 0 {
                Err(DecodeError::MissingField { field: 11 })
            } else {
                match spec_string_at(b, t.table_pos + t.fields[11]) {
                    Err(e) => Err(e),
                    Ok(symlink) => if t.fields[2] == 0 {
                        Err(DecodeError::MissingField { field: 2 })
                    } else {
                        match spec_read_u64(b, t.table_pos + t.fields[2]) {
                            Err(e) => Err(e),
                            Ok(id) => if t.fields[3] == 0 {
                                Err(DecodeError::MissingField { field: 3 })
                            } else {
                                match spec_read_u64(b, t.table_pos + t.fields[3]) {
                                    Err(e) => Err(e),
                                    Ok(directory_id) => if t.fields[4] == 0 {
                                        Err(DecodeError::MissingField { field: 4 })
                                    } else {
                                        match spec_read_u32(b, t.table_pos + t.fields[4]) {
                                            Err(e) => Err(e),
                                            Ok(size) => if t.fields[6] == 0 {
                                                Err(DecodeError::MissingField { field: 6 })
                                            } else {
                                                match spec_read_u32(b, t.table_pos + t.fields[6]) {
                                                    Err(e) => Err(e),
                                                    Ok(language) => if t.fields[1] == 0 {
                                                        Err(DecodeError::MissingField { field: 1 })
                                                    } else {
                                                        match spec_longs(
                                                            b,
                                                            t.table_pos + t.fields[1],
                                                        ) {
                                                            Err(e) => Err(e),
                                                            Ok(chunk_ids) => Ok(
                                                                FileEntryV {
                                                                    id,
                                                                    name,
                                                                    symlink,
                                                                    directory_id,
                                                                    size,
                                                                    language,
                                                                    chunk_ids,
                                                                },
                                                            ),
                                                        }
                                                    },
                                                }
                                            },
                                        }
                                    },
                                }
                            },
                        }
                    },
                }
            },
        }
    }
}

/// What decoding file records `i..` of the resolved references `refs`
/// yields.
pub open spec fn spec_files_from(b: Seq<u8>, refs: Seq<TableRefV>, i: nat) -> Result<
    Seq<FileEntryV>,
    DecodeError,
>
    decreases refs.len() - i,
{
    if i >= refs.len() {
        Ok(Seq::empty())
    } else {
        match spec_file(b, refs[i as int]) {
            Err(e) => Err(e),
            Ok(x) => match spec_files_from(b, refs, i + 1) {
                Err(e) => Err(e),
                Ok(rest) => Ok(seq![x] + rest),
            },
        }
    }
}

/// What decoding the whole file section at `start` yields: a vector of
/// indirect references with the 15-slot file schema.
pub open spec fn spec_files(b: Seq<u8>, start: int) -> Result<Seq<FileEntryV>, DecodeError> {
    match spec_refs(b, start, 15) {
        Err(e) => Err(e),
        Ok(refs) => spec_files_from(b, refs, 0),
    }
}

/// Decode one file record.
fn decode_file(input: &[u8], t: &TableRef) -> (r: Result<FileEntry, DecodeError>)
    requires
        t@.fields.len() == 15,
    ensures
        (match r {
            Ok(x) => spec_file(input@, t@) == Ok::<FileEntryV, DecodeError>(x@),
            Err(e) => spec_file(input@, t@) == Err::<FileEntryV, DecodeError>(e),
        }),
{
    proof {
        vstd::slice::axiom_spec_len(input);
    }
    let f_name = t.fields[5];
    if f_name == 0 {
        return Err(DecodeError::MissingField { field: 5 });
    }
    let name_pos = sat_add(t.table_pos, f_name as u64);
    proof {
        crate::table::lemma_clamp_string(input@, t@.table_pos + t@.fields[5]);
    }
    let name = match read_indirect_string(input, name_pos) {
        Ok(s) => s,
        Err(e) => return Err(e),
    };
    let f_symlink = t.fields[11];
    if f_symlink == 0 {
        return Err(DecodeError::MissingField { field: 11 });
    }
    let symlink_pos = sat_add(t.table_pos, f_symlink as u64);
    proof {
        crate::table::lemma_clamp_string(input@, t@.table_pos + t@.fields[11]);
    }
    let symlink = match read_indirect_string(input, symlink_pos) {
        Ok(s) => s,
        Err(e) => return Err(e),
    };
    let f_id = t.fields[2];
    if f_id == 0 {
        return Err(DecodeError::MissingField { field: 2 });
    }
    let id_pos = sat_add(t.table_pos, f_id as u64);
    proof {
        lemma_clamp_read(input@, t@.table_pos + t@.fields[2]);
    }
    let id = match read_u64(input, id_pos) {
        Ok(x) => x,
        Err(e) => return Err(e),
    };
    let f_dir = t.fields[3];
    if f_dir == 0 {
        return Err(DecodeError::MissingField { field: 3 });
    }
    let dir_pos = sat_add(t.table_pos, f_dir as u64);
    proof {
        lemma_clamp_read(input@, t@.table_pos + t@.fields[3]);
    }
    let directory_id = match read_u64(input, dir_pos) {
        Ok(x) => x,
        Err(e) => return Err(e),
    };
    let f_size = t.fields[4];
    if f_size == 0 {
        return Err(DecodeError::MissingField { field: 4 });
    }
    let size_pos = sat_add(t.table_pos, f_size as u64);
    proof {
        lemma_clamp_read(input@, t@.table_pos + t@.fields[4]);
    }
    let size = match read_u32(input, size_pos) {
        Ok(x) => x,
        Err(e) => return Err(e),
    };
    let f_lang = t.fields[6];
    if f_lang == 0 {
        return Err(DecodeError::MissingField { field: 6 });
    }
    let lang_pos = sat_add(t.table_pos, f_lang as u64);
    proof {
        lemma_clamp_read(input@, t@.table_pos + t@.fields[6]);
    }
    let language = match read_u32(input, lang_pos) {
        Ok(x) => x,
        Err(e) => return Err(e),
    };
    let f_chunks = t.fields[1];
    if f_chunks == 0 {
        return Err(DecodeError::MissingField { field: 1 });
    }
    let chunks_pos = sat_add(t.table_pos, f_chunks as u64);
    proof {
        crate::table::lemma_clamp_longs(input@, t@.table_pos + t@.fields[1]);
    }
    let chunk_ids = match parse_long_vector(input, chunks_pos) {
        Ok(v) => v,
        Err(e) => return Err(e),
    };
    Ok(FileEntry { id, name, symlink, directory_id, size, language, chunk_ids })
}

/// The images of a sequence of file records.
pub open spec fn files_view(s: Seq<FileEntry>) -> Seq<FileEntryV> {
    s.map_values(|x: FileEntry| x@)
}

/// Decode the file section at `files_start` of the decompressed body.
pub fn files(input: &[u8], files_start: u64) -> (r: Result<Vec<FileEntry>, DecodeError>)
    ensures
        (match r {
            Ok(v) => spec_files(input@, files_start as int) == Ok::<
                Seq<FileEntryV>,
                DecodeError,
            >(files_view(v@)),
            Err(e) => spec_files(input@, files_start as int) == Err::<
                Seq<FileEntryV>,
                DecodeError,
            >(e),
        }),
{
    let refs = match parse_vector(input, files_start, 15) {
        Ok(v) => v,
        Err(e) => return Err(e),
    };
    proof {
        crate::table::lemma_refs_fields(input@, files_start as int, 15);
        assert forall|j: int| 0 <= j < refs@.len() implies (#[trigger] refs@[j])@.fields.len()
            == 15 by {
            assert(refs_view(refs@)[j] == refs@[j]@);
        }
    }
    let mut out: Vec<FileEntry> = Vec::new();
    let mut k: usize = 0;
    while k < refs.len()
        invariant
            k <= refs@.len(),
            spec_refs(input@, files_start as int, 15) == Ok::<
                Seq<TableRefV>,
                DecodeError,
            >(refs_view(refs@)),
            forall|j: int| 0 <= j < refs@.len() ==> (#[trigger] refs@[j])@.fields.len() == 15,
            spec_files_from(input@, refs_view(refs@), 0) == (match spec_files_from(
                input@,
                refs_view(refs@),
                k as nat,
            ) {
                Ok(rest) => Ok::<Seq<FileEntryV>, DecodeError>(files_view(out@) + rest),
                Err(e) => Err::<Seq<FileEntryV>, DecodeError>(e),
            }),
        decreases refs@.len() - k,
    {
        proof {
            assert(refs_view(refs@)[k as int] == refs@[k as int]@);
            assert(spec_files_from(input@, refs_view(refs@), k as nat) == (match spec_file(
                input@,
                refs_view(refs@)[k as int],
            ) {
                Err(e) => Err::<Seq<FileEntryV>, DecodeError>(e),
                Ok(x) => match spec_files_from(input@, refs_view(refs@), (k + 1) as nat) {
                    Err(e) => Err::<Seq<FileEntryV>, DecodeError>(e),
                    Ok(rest) => Ok::<Seq<FileEntryV>, DecodeError>(seq![x] + rest),
                },
            }));
        }
        match decode_file(input, &refs[k]) {
            Ok(x) => {
                let ghost prev = out@;
                out.push(x);
                proof {
                    assert(files_view(out@) =~= files_view(prev) + seq![x@]);
                    assert forall|rest: Seq<FileEntryV>|
                        files_view(prev) + (seq![x@] + rest) =~= (files_view(prev) + seq![x@])
                            + rest by {};
                }
                k += 1;
            },
            Err(e) => return Err(e),
        }
    }
    proof {
        assert(files_view(out@) + Seq::<FileEntryV>::empty() =~= files_view(out@));
    }
    Ok(out)
}

/// Decode the fixed-layout header at the start of the input. Fails with
/// `InvalidMagic` when the input does not open with the manifest tag and
/// with `Truncated` when the fixed header region does not fit. Touches
/// nothing past the header: no body processing.
pub fn header(input: &[u8]) -> (r: Result<Header, DecodeError>)
    ensures
        (match r {
            Ok(h) => spec_header(input@) == Ok::<HeaderV, DecodeError>(h@),
            Err(e) => spec_header(input@) == Err::<HeaderV, DecodeError>(e),
        }),
{
    let magic_bytes: Vec<u8> = vec![82u8, 77u8, 65u8, 78u8];
    proof {
        assert(magic_bytes@ =~= rman_magic());
    }
    match read_tag(input, 0, magic_bytes.as_slice()) {
        Ok(_) => {},
        Err(e) => return Err(e),
    };
    let len = input.len() as u64;
    if len < 28 {
        return Err(DecodeError::Truncated { position: 4, width: 24, available: len });
    }
    let major = match read_u8(input, 4) {
        Ok(x) => x,
        Err(e) => return Err(e),
    };
    let minor = match read_u8(input, 5) {
        Ok(x) => x,
        Err(e) => return Err(e),
    };
    let unknown = match read_u8(input, 6) {
        Ok(x) => x,
        Err(e) => return Err(e),
    };
    let signature_type = match read_u8(input, 7) {
        Ok(x) => x,
        Err(e) => return Err(e),
    };
    let offset = match read_u32(input, 8) {
        Ok(x) => x,
        Err(e) => return Err(e),
    };
    let length = match read_u32(input, 12) {
        Ok(x) => x,
        Err(e) => return Err(e),
    };
    let manifest_id = match read_u64(input, 16) {
        Ok(x) => x,
        Err(e) => return Err(e),
    };
    let decompressed_length = match read_u32(input, 24) {
        Ok(x) => x,
        Err(e) => return Err(e),
    };
    Ok(Header {
        magic: "RMAN".to_owned(),
        major,
        minor,
        unknown,
        signature_type,
        offset,
        length,
        manifest_id,
        decompressed_length,
    })
}

/// Resolve the root offset map of the decompressed body.
pub fn offset_map(input: &[u8]) -> (r: Result<OffsetMap, DecodeError>)
    ensures
        (match r {
            Ok(om) => spec_offset_map(input@) == Ok::<OffsetMap, DecodeError>(om),
            Err(e) => spec_offset_map(input@) == Err::<OffsetMap, DecodeError>(e),
        }),
{
    let header_offset = match read_u32(input, 0) {
        Ok(x) => x,
        Err(e) => return Err(e),
    };
    let ho = header_offset as u64;
    let len = input.len() as u64;
    if !(20 <= len && ho <= len - 20) {
        return Err(DecodeError::Truncated { position: ho, width: 20, available: len });
    }
    let bundle_raw = match read_u32(input, ho + 4) {
        Ok(x) => x,
        Err(e) => return Err(e),
    };
    let language_raw = match read_u32(input, ho + 8) {
        Ok(x) => x,
        Err(e) => return Err(e),
    };
    let file_raw = match read_u32(input, ho + 12) {
        Ok(x) => x,
        Err(e) => return Err(e),
    };
    let folder_raw = match read_u32(input, ho + 16) {
        Ok(x) => x,
        Err(e) => return Err(e),
    };
    Ok(OffsetMap {
        bundle_offset: ho + bundle_raw as u64 + 4,
        language_offset: ho + language_raw as u64 + 8,
        file_offset: ho + file_raw as u64 + 12,
        folder_offset: ho + folder_raw as u64 + 16,
    })
}

/// What zstd decompression makes of a byte string: the decompressed bytes
/// for a well-formed frame, nothing for input it rejects. Decompression is
/// a function of the compressed bytes alone.
pub uninterp spec fn zstd_inflate(data: Seq<u8>) -> Option<Seq<u8>>;

/// Relies on `zstd::decode_all`: it decompresses a zstd frame, a pure
/// function of the input bytes, and returns an error for input it rejects.
#[verifier::external_body]
fn zstd_decode(data: &[u8]) -> (r: Result<Vec<u8>, DecodeError>)
    ensures
        (match r {
            Ok(v) => zstd_inflate(data@) == Some(v@),
            Err(e) => zstd_inflate(data@) is None && e == DecodeError::DecompressionFailed,
        }),
{
    match zstd::decode_all(data) {
        Ok(v) => Ok(v),
        Err(_) => Err(DecodeError::DecompressionFailed),
    }
}

/// What decoding the decompressed body yields: the root offset map, then
/// the four sections in decode order — bundles, languages, directories,
/// files.
pub open spec fn spec_body(d: Seq<u8>) -> Result<BodyV, DecodeError> {
    match spec_offset_map(d) {
        Err(e) => Err(e),
        Ok(om) => match spec_bundles(d, om.bundle_offset as int) {
            Err(e) => Err(e),
            Ok(bundles) => match spec_languages(d, om.language_offset as int) {
                Err(e) => Err(e),
                Ok(languages) => match spec_directories(d, om.folder_offset as int) {
                    Err(e) => Err(e),
                    Ok(directories) => match spec_files(d, om.file_offset as int) {
                        Err(e) => Err(e),
                        Ok(files) => Ok(BodyV { bundles, languages, files, directories }),
                    },
                },
            },
        },
    }
}

/// What decoding a whole manifest yields: the header, the compressed body
/// slice `[offset, offset + length)`, its decompression, and the four body
/// sections.
pub open spec fn spec_parse(b: Seq<u8>) -> Result<FileV, DecodeError> {
    match spec_header(b) {
        Err(e) => Err(e),
        Ok(h) => match spec_read_bytes(b, h.offset as int, h.length as int) {
            Err(e) => Err(e),
            Ok(compressed) => match zstd_inflate(compressed) {
                None => Err(DecodeError::DecompressionFailed),
                Some(d) => match spec_body(d) {
                    Err(e) => Err(e),
                    Ok(body) => Ok(FileV { header: h, body }),
                },
            },
        },
    }
}

/// Decode a whole RMAN manifest from an immutable input buffer. Either the
/// full tree comes back or a typed error does; no partial manifest is ever
/// returned.
pub fn parse(input: &[u8]) -> (r: Result<File, DecodeError>)
    ensures
        (match r {
            Ok(f) => spec_parse(input@) == Ok::<FileV, DecodeError>(f@),
            Err(e) => spec_parse(input@) == Err::<FileV, DecodeError>(e),
        }),
{
    let h = match header(input) {
        Ok(h) => h,
        Err(e) => return Err(e),
    };
    let compressed = match read_bytes(input, h.offset as u64, h.length as u64) {
        Ok(v) => v,
        Err(e) => return Err(e),
    };
    let decompressed = match zstd_decode(compressed.as_slice()) {
        Ok(v) => v,
        Err(e) => return Err(e),
    };
    let d = decompressed.as_slice();
    let om = match offset_map(d) {
        Ok(om) => om,
        Err(e) => return Err(e),
    };
    let bundle_list = match bundles(d, om.bundle_offset) {
        Ok(v) => v,
        Err(e) => return Err(e),
    };
    let language_list = match languages(d, om.language_offset) {
        Ok(v) => v,
        Err(e) => return Err(e),
    };
    let directory_list = match directories(d, om.folder_offset) {
        Ok(v) => v,
        Err(e) => return Err(e),
    };
    let file_list = match files(d, om.file_offset) {
        Ok(v) => v,
        Err(e) => return Err(e),
    };
    Ok(
        File {
            header: h,
            body: Body {
                bundles: bundle_list,
                languages: language_list,
                files: file_list,
                directories: directory_list,
            },
        },
    )
}

} // verus!
