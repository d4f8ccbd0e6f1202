//! The generic offset/vtable resolution engine: field-offset tables
//! located through a signed relative offset, length-prefixed vectors of
//! indirect table references, length-prefixed vectors of inline 64-bit
//! values, and indirectly addressed length-prefixed strings.
//!
//! Records in the decoded formats do not have fixed layouts: each record
//! ("table") starts with a signed 32-bit offset `soffset`, and the record's
//! vtable — an array of 16-bit field offsets, one per schema slot — lives at
//! `table_pos - soffset`. A field offset of 0 marks the field as absent; a
//! non-zero field offset, added to the table position, gives the absolute
//! position of the field's encoded value.

use vstd::prelude::*;

use crate::cursor::{
    clamp64, in_bounds, sat_add, spec_read_i32, spec_read_u32, spec_read_bytes, trunc_err, u16_at,
    u32_at, u64_at, read_i32, read_u16, read_u32, read_u64, read_bytes,
};
use crate::cursor::as_signed32;
use crate::error::DecodeError;

verus! {

/// One element of a vector of indirect table references, fully resolved:
/// the absolute position of the element's table and the field offsets of
/// its vtable, one per schema slot.
pub struct TableRef {
    pub table_pos: u64,
    pub fields: Vec<u16>,
}

/// The mathematical image of a `TableRef`.
pub struct TableRefV {
    pub table_pos: int,
    pub fields: Seq<u16>,
}

impl View for TableRef {
    type V = TableRefV;

    open spec fn view(&self) -> TableRefV {
        TableRefV { table_pos: self.table_pos as int, fields: self.fields@ }
    }
}

/// The images of a sequence of resolved references.
pub open spec fn refs_view(s: Seq<TableRef>) -> Seq<TableRefV> {
    s.map_values(|t: TableRef| t@)
}

/// What resolving the vtable of the table at `tpos` into `n` field slots
/// yields: the signed 32-bit `soffset` at `tpos` places the vtable at
/// `tpos - soffset`, and slot `i` is the `u16` at `tpos - soffset + 2*i`.
pub open spec fn spec_vtable(b: Seq<u8>, tpos: int, n: nat) -> Result<Seq<u16>, DecodeError> {
    match spec_read_i32(b, tpos) {
        Err(e) => Err(e),
        Ok(soff) => {
            let vpos = tpos - soff;
            if in_bounds(vpos, 2 * n as int, b.len() as int) {
                Ok(Seq::new(n, |i: int| u16_at(b, vpos + 2 * i)))
            } else {
                Err(trunc_err(vpos, 2 * n as int, b.len() as int))
            }
        },
    }
}

/// What resolving element `i` of the vector at `start` yields: its
/// offset-table entry at `start + 4 + 4*i` holds a relative offset; the
/// element's table sits that far past the entry, and its vtable has `n`
/// slots.
pub open spec fn spec_table_ref(b: Seq<u8>, start: int, i: int, n: nat) -> Result<
    TableRefV,
    DecodeError,
> {
    let entry_pos = start + 4 + 4 * i;
    let tpos = entry_pos + u32_at(b, entry_pos);
    match spec_vtable(b, tpos, n) {
        Err(e) => Err(e),
        Ok(f) => Ok(TableRefV { table_pos: tpos, fields: f }),
    }
}

/// What resolving elements `i..count` of the vector at `start` yields,
/// in index order, stopping at the first failure.
pub open spec fn spec_refs_from(b: Seq<u8>, start: int, n: nat, count: nat, i: nat) -> Result<
    Seq<TableRefV>,
    DecodeError,
>
    decreases count - i,
{
    if i >= count {
        Ok(Seq::empty())
    } else {
        match spec_table_ref(b, start, i as int, n) {
            Err(e) => Err(e),
            Ok(t) => match spec_refs_from(b, start, n, count, i + 1) {
                Err(e) => Err(e),
                Ok(rest) => Ok(seq![t] + rest),
            },
        }
    }
}

/// What resolving the whole length-prefixed vector of indirect references
/// at `start` yields: the `u32` at `start` is the element count, the
/// offset-table entries follow it, and every element is resolved in index
/// order.
pub open spec fn spec_refs(b: Seq<u8>, start: int, n: nat) -> Result<Seq<TableRefV>, DecodeError> {
    match spec_read_u32(b, start) {
        Err(e) => Err(e),
        Ok(c) => if start + 4 + 4 * (c as int) <= b.len() {
            spec_refs_from(b, start, n, c as nat, 0)
        } else {
            Err(trunc_err(start + 4, 4 * (c as int), b.len() as int))
        },
    }
}

/// What decoding the length-prefixed vector of inline 64-bit values at
/// `start` yields: the `u32` at `start` is the count, and element `i` is
/// the `u64` at `start + 4 + 8*i`, with no indirection.
pub open spec fn spec_longs(b: Seq<u8>, start: int) -> Result<Seq<u64>, DecodeError> {
    match spec_read_u32(b, start) {
        Err(e) => Err(e),
        Ok(c) => if start + 4 + 8 * (c as int) <= b.len() {
            Ok(Seq::new(c as nat, |i: int| u64_at(b, start + 4 + 8 * i)))
        } else {
            Err(trunc_err(start + 4, 8 * (c as int), b.len() as int))
        },
    }
}

/// The text that lossy UTF-8 decoding makes of `bytes`. Invalid sequences
/// are replaced rather than rejected, so this is total.
pub uninterp spec fn utf8_lossy(bytes: Seq<u8>) -> Seq<char>;

/// Relies on `String::from_utf8_lossy`: the decoded text is a function of
/// the bytes alone, and an empty input decodes to the empty string.
#[verifier::external_body]
fn decode_utf8_lossy(bytes: &[u8]) -> (r: String)
    ensures
        r@ == utf8_lossy(bytes@),
        bytes@.len() == 0 ==> r@.len() == 0,
{
    String::from_utf8_lossy(bytes).into_owned()
}

/// What decoding the indirectly addressed string whose offset field sits at
/// `field_pos` yields: the `u32` there is a relative offset to a
/// length-prefixed blob, whose `len` bytes follow its `u32` length prefix
/// and are decoded as lossy UTF-8.
pub open spec fn spec_string_at(b: Seq<u8>, field_pos: int) -> Result<Seq<char>, DecodeError> {
    match spec_read_u32(b, field_pos) {
        Err(e) => Err(e),
        Ok(rel) => {
            let data_pos = field_pos + rel;
            match spec_read_u32(b, data_pos) {
                Err(e) => Err(e),
                Ok(l) => match spec_read_bytes(b, data_pos + 4, l as int) {
                    Err(e) => Err(e),
                    Ok(raw) => Ok(utf8_lossy(raw)),
                },
            }
        },
    }
}

/// What a successful resolution of elements `i..count` yields: one entry
/// per declared element, in index order, each with exactly `n` field
/// slots.
proof fn lemma_refs_from_fields(b: Seq<u8>, start: int, n: nat, count: nat, i: nat)
    ensures
        i <= count ==> (spec_refs_from(b, start, n, count, i) matches Ok(s) ==> s.len() == count
            - i),
        (spec_refs_from(b, start, n, count, i) matches Ok(s) ==> forall|j: int|
            0 <= j < s.len() ==> (#[trigger] s[j]).fields.len() == n),
        (spec_refs_from(b, start, n, count, i) matches Ok(s) ==> forall|j: int|
            0 <= j < s.len() ==> #[trigger] spec_table_ref(b, start, i + j, n) == Ok::<
                TableRefV,
                DecodeError,
            >(s[j])),
    decreases count - i,
{
    if i < count {
        lemma_refs_from_fields(b, start, n, count, i + 1);
        if spec_refs_from(b, start, n, count, i) is Ok {
            let t = spec_table_ref(b, start, i as int, n)->Ok_0;
            let rest = spec_refs_from(b, start, n, count, i + 1)->Ok_0;
            let s = spec_refs_from(b, start, n, count, i)->Ok_0;
            assert(s == seq![t] + rest);
            assert(s.len() == 1 + rest.len());
            assert forall|j: int| 0 <= j < s.len() implies (#[trigger] s[j]).fields.len() == n
                && spec_table_ref(b, start, i + j, n) == Ok::<TableRefV, DecodeError>(s[j]) by {
                if j == 0 {
                    assert(s[0] == t);
                } else {
                    assert(s[j] == rest[j - 1]);
                    assert(spec_table_ref(b, start, (i + 1) + (j - 1), n) == Ok::<
                        TableRefV,
                        DecodeError,
                    >(rest[j - 1]));
                }
            }
        }
    }
}

/// A successfully resolved vector of references holds exactly as many
/// elements as its declared count, and element `j` is the resolution of
/// index `j`: order is preserved.
pub proof fn lemma_vector_shape(b: Seq<u8>, start: int, n: nat)
    ensures
        (spec_refs(b, start, n) matches Ok(s) ==> spec_read_u32(b, start) is Ok),
        (spec_refs(b, start, n) matches Ok(s) ==> s.len() == spec_read_u32(b, start)->Ok_0),
        (spec_refs(b, start, n) matches Ok(s) ==> forall|j: int|
            0 <= j < s.len() ==> #[trigger] spec_table_ref(b, start, j, n) == Ok::<
                TableRefV,
                DecodeError,
            >(s[j])),
{
    if spec_read_u32(b, start) is Ok {
        let c = spec_read_u32(b, start)->Ok_0;
        lemma_refs_from_fields(b, start, n, c as nat, 0);
        if spec_refs(b, start, n) is Ok {
            let s = spec_refs(b, start, n)->Ok_0;
            assert forall|j: int| 0 <= j < s.len() implies #[trigger] spec_table_ref(
                b,
                start,
                j,
                n,
            ) == Ok::<TableRefV, DecodeError>(s[j]) by {
                assert(spec_table_ref(b, start, 0 + j, n) == Ok::<TableRefV, DecodeError>(s[j]));
            }
        }
    }
}

/// A successfully decoded long vector holds exactly as many values as its
/// declared count, and element `i` is the inline `u64` at
/// `start + 4 + 8*i`: order is preserved.
pub proof fn lemma_long_vector_shape(b: Seq<u8>, start: int)
    ensures
        (spec_longs(b, start) matches Ok(s) ==> spec_read_u32(b, start) is Ok),
        (spec_longs(b, start) matches Ok(s) ==> s.len() == spec_read_u32(b, start)->Ok_0),
        (spec_longs(b, start) matches Ok(s) ==> forall|i: int|
            0 <= i < s.len() ==> s[i] == u64_at(b, start + 4 + 8 * i)),
{
}

/// Every element of a successfully resolved vector carries exactly `n`
/// field slots.
pub proof fn lemma_refs_fields(b: Seq<u8>, start: int, n: nat)
    ensures
        (spec_refs(b, start, n) matches Ok(s) ==> forall|j: int|
            0 <= j < s.len() ==> (#[trigger] s[j]).fields.len() == n),
{
    if spec_read_u32(b, start) is Ok {
        let c = spec_read_u32(b, start)->Ok_0;
        lemma_refs_from_fields(b, start, n, c as nat, 0);
    }
}

/// A clamped start position resolves a vector of references exactly as the
/// unbounded position does, with the same error value.
pub proof fn lemma_clamp_refs(b: Seq<u8>, p: int, n: nat)
    requires
        p >= 0,
        b.len() <= usize::MAX,
    ensures
        spec_refs(b, clamp64(p) as int, n) == spec_refs(b, p, n),
{
    crate::cursor::lemma_clamp_read(b, p);
}

/// A clamped start position decodes a long vector exactly as the unbounded
/// position does, with the same error value.
pub proof fn lemma_clamp_longs(b: Seq<u8>, p: int)
    requires
        p >= 0,
        b.len() <= usize::MAX,
    ensures
        spec_longs(b, clamp64(p) as int) == spec_longs(b, p),
{
    crate::cursor::lemma_clamp_read(b, p);
}

/// A clamped field position decodes an indirect string exactly as the
/// unbounded position does, with the same error value.
pub proof fn lemma_clamp_string(b: Seq<u8>, p: int)
    requires
        p >= 0,
        b.len() <= usize::MAX,
    ensures
        spec_string_at(b, clamp64(p) as int) == spec_string_at(b, p),
{
    crate::cursor::lemma_clamp_read(b, p);
}

/// A clamped table position resolves its vtable exactly as the unbounded
/// position does, with the same error value.
proof fn lemma_clamp_vtable(b: Seq<u8>, p: int, n: nat)
    requires
        p >= 0,
        b.len() <= usize::MAX,
    ensures
        spec_vtable(b, clamp64(p) as int, n) == spec_vtable(b, p, n),
{
    crate::cursor::lemma_clamp_read(b, p);
}

/// Resolve the vtable of the table at `table_pos` into `n_fields` slots.
pub fn parse_vtable(buf: &[u8], table_pos: u64, n_fields: u32) -> (r: Result<
    Vec<u16>,
    DecodeError,
>)
    ensures
        (match r {
            Ok(v) => spec_vtable(buf@, table_pos as int, n_fields as nat) == Ok::<
                Seq<u16>,
                DecodeError,
            >(v@),
            Err(e) => spec_vtable(buf@, table_pos as int, n_fields as nat) == Err::<
                Seq<u16>,
                DecodeError,
            >(e),
        }),
{
    let len = buf.len() as u64;
    let width = 2 * (n_fields as u64);
    let soff = match read_i32(buf, table_pos) {
        Ok(s) => s,
        Err(e) => return Err(e),
    };
    let vpos: u64 = if soff >= 0 {
        let s = soff as u64;
        if s <= table_pos {
            table_pos - s
        } else {
            // the vtable position is negative
            return Err(DecodeError::Truncated { position: 0, width, available: len });
        }
    } else {
        let neg = (-(soff as i64)) as u64;
        if table_pos <= u64::MAX - neg {
            table_pos + neg
        } else {
            // the vtable position passes `u64::MAX`, so it passes the buffer
            return Err(DecodeError::Truncated { position: u64::MAX, width, available: len });
        }
    };
    if !(vpos <= len && width <= len - vpos) {
        return Err(DecodeError::Truncated { position: vpos, width, available: len });
    }
    let mut out: Vec<u16> = Vec::new();
    let mut i: u32 = 0;
    while i < n_fields
        invariant
            i <= n_fields,
            vpos + 2 * (n_fields as int) <= buf@.len(),
            buf@.len() <= usize::MAX,
            out@.len() == i,
            forall|j: int| 0 <= j < i ==> out@[j] == u16_at(buf@, vpos + 2 * j),
        decreases n_fields - i,
    {
        let entry = match read_u16(buf, vpos + 2 * (i as u64)) {
            Ok(x) => x,
            Err(e) => return Err(e),
        };
        out.push(entry);
        i += 1;
    }
    proof {
        assert(out@ =~= Seq::new(
            n_fields as nat,
            |j: int| u16_at(buf@, table_pos - as_signed32(u32_at(buf@, table_pos as int)) + 2 * j),
        ));
    }
    Ok(out)
}

/// Resolve the length-prefixed vector of indirect table references at
/// `start`: read the element count, then resolve each element's table
/// position and vtable, in index order.
pub fn parse_vector(buf: &[u8], start: u64, n_fields: u32) -> (r: Result<
    Vec<TableRef>,
    DecodeError,
>)
    ensures
        (match r {
            Ok(v) => spec_refs(buf@, start as int, n_fields as nat) == Ok::<
                Seq<TableRefV>,
                DecodeError,
            >(refs_view(v@)),
            Err(e) => spec_refs(buf@, start as int, n_fields as nat) == Err::<
                Seq<TableRefV>,
                DecodeError,
            >(e),
        }),
{
    let len = buf.len() as u64;
    let count = match read_u32(buf, start) {
        Ok(c) => c,
        Err(e) => return Err(e),
    };
    if !(4 * (count as u64) <= len - (start + 4)) {
        return Err(DecodeError::Truncated {
            position: start + 4,
            width: 4 * (count as u64),
            available: len,
        });
    }
    let mut out: Vec<TableRef> = Vec::new();
    let mut i: u32 = 0;
    while i < count
        invariant
            i <= count,
            spec_read_u32(buf@, start as int) == Ok::<u32, DecodeError>(count),
            start + 4 + 4 * (count as int) <= buf@.len(),
            buf@.len() <= usize::MAX,
            len == buf@.len(),
            spec_refs_from(buf@, start as int, n_fields as nat, count as nat, 0) == (match spec_refs_from(
                buf@,
                start as int,
                n_fields as nat,
                count as nat,
                i as nat,
            ) {
                Ok(rest) => Ok::<Seq<TableRefV>, DecodeError>(refs_view(out@) + rest),
                Err(e) => Err::<Seq<TableRefV>, DecodeError>(e),
            }),
        decreases count - i,
    {
        let entry_pos = start + 4 + 4 * (i as u64);
        let off = match read_u32(buf, entry_pos) {
            Ok(o) => o,
            Err(e) => return Err(e),
        };
        let tp = sat_add(entry_pos, off as u64);
        proof {
            lemma_clamp_vtable(buf@, entry_pos + off, n_fields as nat);
            assert(spec_refs_from(
                buf@,
                start as int,
                n_fields as nat,
                count as nat,
                i as nat,
            ) == (match spec_table_ref(buf@, start as int, i as int, n_fields as nat) {
                Err(e) => Err::<Seq<TableRefV>, DecodeError>(e),
                Ok(t) => match spec_refs_from(
                    buf@,
                    start as int,
                    n_fields as nat,
                    count as nat,
                    (i + 1) as nat,
                ) {
                    Err(e) => Err::<Seq<TableRefV>, DecodeError>(e),
                    Ok(rest) => Ok::<Seq<TableRefV>, DecodeError>(seq![t] + rest),
                },
            }));
        }
        match parse_vtable(buf, tp, n_fields) {
            Ok(fields) => {
                proof {
                    // the vtable read at `tp` succeeded, so the table position
                    // did not pass `u64::MAX` and `tp` is exact
                    assert(tp == entry_pos + off);
                }
                let ghost prev = out@;
                out.push(TableRef { table_pos: tp, fields });
                proof {
                    let t = spec_table_ref(
                        buf@,
                        start as int,
                        i as int,
                        n_fields as nat,
                    )->Ok_0;
                    assert(refs_view(out@) =~= refs_view(prev) + seq![t]);
                    assert forall|rest: Seq<TableRefV>|
                        refs_view(prev) + (seq![t] + rest) =~= (refs_view(prev) + seq![t])
                            + rest by {};
                }
                i += 1;
            },
            Err(e) => {
                return Err(e);
            },
        }
    }
    proof {
        assert(refs_view(out@) + Seq::<TableRefV>::empty() =~= refs_view(out@));
    }
    Ok(out)
}

/// Decode the length-prefixed vector of inline `u64` values at `start`.
pub fn parse_long_vector(buf: &[u8], start: u64) -> (r: Result<Vec<u64>, DecodeError>)
    ensures
        (match r {
            Ok(v) => spec_longs(buf@, start as int) == Ok::<Seq<u64>, DecodeError>(v@),
            Err(e) => spec_longs(buf@, start as int) == Err::<Seq<u64>, DecodeError>(e),
        }),
{
    let len = buf.len() as u64;
    let count = match read_u32(buf, start) {
        Ok(c) => c,
        Err(e) => return Err(e),
    };
    if !(8 * (count as u64) <= len - (start + 4)) {
        return Err(DecodeError::Truncated {
            position: start + 4,
            width: 8 * (count as u64),
            available: len,
        });
    }
    let mut out: Vec<u64> = Vec::new();
    let mut i: u32 = 0;
    while i < count
        invariant
            i <= count,
            start + 4 + 8 * (count as int) <= buf@.len(),
            buf@.len() <= usize::MAX,
            out@.len() == i,
            forall|j: int| 0 <= j < i ==> out@[j] == u64_at(buf@, start + 4 + 8 * j),
        decreases count - i,
    {
        let value = match read_u64(buf, start + 4 + 8 * (i as u64)) {
            Ok(x) => x,
            Err(e) => return Err(e),
        };
        out.push(value);
        i += 1;
    }
    proof {
        assert(out@ =~= Seq::new(count as nat, |j: int| u64_at(buf@, start as int + 4 + 8 * j)));
    }
    Ok(out)
}

/// Decode the indirectly addressed, length-prefixed string whose offset
/// field sits at `field_pos`. Invalid UTF-8 is repaired, never fatal.
pub fn read_indirect_string(buf: &[u8], field_pos: u64) -> (r: Result<String, DecodeError>)
    ensures
        (match r {
            Ok(s) => spec_string_at(buf@, field_pos as int) == Ok::<Seq<char>, DecodeError>(s@),
            Err(e) => spec_string_at(buf@, field_pos as int) == Err::<Seq<char>, DecodeError>(e),
        }),
{
    let rel = match read_u32(buf, field_pos) {
        Ok(x) => x,
        Err(e) => return Err(e),
    };
    let data_pos = sat_add(field_pos, rel as u64);
    proof {
        vstd::slice::axiom_spec_len(buf);
        crate::cursor::lemma_clamp_read(buf@, field_pos + rel);
    }
    let l = match read_u32(buf, data_pos) {
        Ok(x) => x,
        Err(e) => return Err(e),
    };
    let raw = match read_bytes(buf, data_pos + 4, l as u64) {
        Ok(v) => v,
        Err(e) => return Err(e),
    };
    Ok(decode_utf8_lossy(raw.as_slice()))
}

} // verus!
