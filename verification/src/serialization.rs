//! The operation wire format: a tagged, length-delimited binary
//! encoding of modify operations, used for journal rows and the
//! journal-submission payload.

use vstd::bytes::{
    spec_u16_to_le_bytes, spec_u32_to_le_bytes, spec_u64_to_le_bytes, u16_from_le_bytes,
    u16_to_le_bytes, u32_from_le_bytes, u32_to_le_bytes, u64_from_le_bytes, u64_to_le_bytes,
};
use vstd::prelude::*;
use vstd::utf8::{encode_utf8, valid_utf8};

use crate::modify_op::{
    CreateDirectoryOperation, CreateFileOperation, CreateSymlinkOperation, ModifyOperation,
    ModifyOperationContent, ModifyOperationContentView, ModifyOperationView,
    RemoveDirectoryOperation, RemoveFileOperation, RenameOperation, SetAttributesOperation,
    WriteOperation,
};
use crate::timespec::Timespec;
use crate::types::spec_file_type_to_u8;

verus! {

/// A length-prefixed byte string: eight little-endian length bytes,
/// then the bytes.
pub open spec fn ser_bytes(s: Seq<u8>) -> Seq<u8> {
    spec_u64_to_le_bytes(s.len() as u64) + s
}

/// A length-prefixed string: its UTF-8 bytes, length-prefixed.
pub open spec fn ser_str(s: Seq<char>) -> Seq<u8> {
    ser_bytes(encode_utf8(s))
}

/// A signed quantity, carried in two's complement.
pub open spec fn ser_i64(x: i64) -> Seq<u8> {
    spec_u64_to_le_bytes(x as u64)
}

/// A timestamp: seconds, then nanoseconds.
pub open spec fn ser_timespec(t: Timespec) -> Seq<u8> {
    ser_i64(t.sec) + spec_u32_to_le_bytes(t.nsec)
}

/// An optional value: a presence byte, then the value if present.
pub open spec fn ser_opt(o: Option<Seq<u8>>) -> Seq<u8> {
    match o {
        Some(s) => seq![1u8] + s,
        None => seq![0u8],
    }
}

pub open spec fn ser_opt_u16(o: Option<u16>) -> Seq<u8> {
    ser_opt(
        match o {
            Some(v) => Some(spec_u16_to_le_bytes(v)),
            None => None,
        },
    )
}

pub open spec fn ser_opt_u32(o: Option<u32>) -> Seq<u8> {
    ser_opt(
        match o {
            Some(v) => Some(spec_u32_to_le_bytes(v)),
            None => None,
        },
    )
}

pub open spec fn ser_opt_u64(o: Option<u64>) -> Seq<u8> {
    ser_opt(
        match o {
            Some(v) => Some(spec_u64_to_le_bytes(v)),
            None => None,
        },
    )
}

pub open spec fn ser_opt_timespec(o: Option<Timespec>) -> Seq<u8> {
    ser_opt(
        match o {
            Some(t) => Some(ser_timespec(t)),
            None => None,
        },
    )
}

/// The payload of each variant, in field order.
pub open spec fn ser_content(c: ModifyOperationContentView) -> Seq<u8> {
    match c {
        ModifyOperationContentView::CreateFileOperation(op) => {
            ser_str(op.name) + seq![spec_file_type_to_u8(op.file_type)] + spec_u16_to_le_bytes(
                op.perm,
            ) + spec_u32_to_le_bytes(op.dev)
        },
        ModifyOperationContentView::CreateSymlinkOperation(op) => {
            ser_str(op.name) + ser_str(op.link)
        },
        ModifyOperationContentView::CreateDirectoryOperation(op) => {
            ser_str(op.name) + spec_u16_to_le_bytes(op.perm)
        },
        ModifyOperationContentView::RemoveFileOperation(_) => Seq::<u8>::empty(),
        ModifyOperationContentView::RemoveDirectoryOperation(_) => Seq::<u8>::empty(),
        ModifyOperationContentView::RenameOperation(op) => {
            ser_str(op.new_parent) + ser_str(op.new_name)
        },
        ModifyOperationContentView::SetAttributesOperation(op) => {
            ser_opt_u16(op.perm) + ser_opt_u32(op.uid) + ser_opt_u32(op.gid) + ser_opt_u64(
                op.size,
            ) + ser_opt_timespec(op.atim) + ser_opt_timespec(op.mtim)
        },
        ModifyOperationContentView::WriteOperation(op) => {
            ser_i64(op.offset) + ser_bytes(op.data)
        },
    }
}

/// The tag byte of each variant.
pub open spec fn content_tag(c: ModifyOperationContentView) -> u8 {
    match c {
        ModifyOperationContentView::CreateFileOperation(_) => 1,
        ModifyOperationContentView::CreateSymlinkOperation(_) => 2,
        ModifyOperationContentView::CreateDirectoryOperation(_) => 3,
        ModifyOperationContentView::RemoveFileOperation(_) => 4,
        ModifyOperationContentView::RemoveDirectoryOperation(_) => 5,
        ModifyOperationContentView::RenameOperation(_) => 6,
        ModifyOperationContentView::SetAttributesOperation(_) => 7,
        ModifyOperationContentView::WriteOperation(_) => 8,
    }
}

/// The encoding of a whole operation: tag, header, payload.
pub open spec fn ser_op(v: ModifyOperationView) -> Seq<u8> {
    seq![content_tag(v.operation)] + ser_str(v.id) + ser_timespec(v.timestamp) + ser_i64(
        v.dirent_version,
    ) + ser_i64(v.content_version) + ser_content(v.operation)
}

/// Appends eight little-endian bytes.
fn push_u64(out: &mut Vec<u8>, x: u64)
    ensures
        final(out)@ == old(out)@ + spec_u64_to_le_bytes(x),
{
    let mut bytes = u64_to_le_bytes(x);
    out.append(&mut bytes);
}

/// Appends a signed quantity in two's complement.
fn push_i64(out: &mut Vec<u8>, x: i64)
    ensures
        final(out)@ == old(out)@ + ser_i64(x),
{
    push_u64(out, x as u64);
}

fn push_u32(out: &mut Vec<u8>, x: u32)
    ensures
        final(out)@ == old(out)@ + spec_u32_to_le_bytes(x),
{
    let mut bytes = u32_to_le_bytes(x);
    out.append(&mut bytes);
}

fn push_u16(out: &mut Vec<u8>, x: u16)
    ensures
        final(out)@ == old(out)@ + spec_u16_to_le_bytes(x),
{
    let mut bytes = u16_to_le_bytes(x);
    out.append(&mut bytes);
}

/// Appends a length-prefixed byte string.
fn push_bytes(out: &mut Vec<u8>, s: &Vec<u8>)
    ensures
        final(out)@ == old(out)@ + ser_bytes(s@),
{
    push_u64(out, s.len() as u64);
    let mut copy = crate::clone_bytes(s);
    out.append(&mut copy);
    proof {
        assert(out@ =~= old(out)@ + ser_bytes(s@));
    }
}

/// Appends a length-prefixed string.
fn push_str(out: &mut Vec<u8>, s: &str)
    ensures
        final(out)@ == old(out)@ + ser_str(s@),
{
    let bytes = s.as_bytes_vec();
    push_bytes(out, &bytes);
}

/// Appends a timestamp.
fn push_timespec(out: &mut Vec<u8>, t: Timespec)
    ensures
        final(out)@ == old(out)@ + ser_timespec(t),
{
    push_i64(out, t.sec);
    push_u32(out, t.nsec);
    proof {
        assert(out@ =~= old(out)@ + ser_timespec(t));
    }
}

/// Appends a presence byte.
fn push_flag(out: &mut Vec<u8>, present: bool)
    ensures
        final(out)@ == old(out)@ + seq![
            if present {
                1u8
            } else {
                0u8
            },
        ],
{
    if present {
        out.push(1);
    } else {
        out.push(0);
    }
    proof {
        assert(out@ =~= old(out)@ + seq![
            if present {
                1u8
            } else {
                0u8
            },
        ]);
    }
}

/// Relies on `String::from_utf8`: succeeds exactly on valid UTF-8, and
/// the returned string's UTF-8 bytes are the input bytes.
#[verifier::external_body]
pub(crate) fn bytes_to_string(v: Vec<u8>) -> (r: Option<String>)
    ensures
        r is Some <==> valid_utf8(v@),
        r is Some ==> encode_utf8(r->0@) == v@,
{
    match String::from_utf8(v) {
        Ok(s) => Some(s),
        Err(_) => None,
    }
}

/// Reads eight little-endian bytes.
fn read_u64(data: &Vec<u8>, pos: &mut usize) -> (r: Option<u64>)
    requires
        *old(pos) <= data@.len(),
    ensures
        match r {
            Some(x) => {
                &&& *final(pos) == *old(pos) + 8
                &&& *final(pos) <= data@.len()
                &&& data@.subrange(*old(pos) as int, *final(pos) as int)
                    == spec_u64_to_le_bytes(x)
            },
            None => *final(pos) == *old(pos),
        },
{
    if data.len() - *pos < 8 {
        return None;
    }
    let ghost p = *pos as int;
    let mut piece: Vec<u8> = Vec::new();
    let mut i: usize = 0;
    while i < 8
        invariant
            i <= 8,
            p + 8 <= data@.len(),
            *pos == p,
            piece@ == data@.subrange(p, p + i),
        decreases 8 - i,
    {
        piece.push(data[*pos + i]);
        proof {
            assert(piece@ =~= data@.subrange(p, p + i + 1));
        }
        i = i + 1;
    }
    let x = u64_from_le_bytes(piece.as_slice());
    proof {
        vstd::bytes::lemma_auto_spec_u64_to_from_le_bytes();
    }
    *pos = *pos + 8;
    Some(x)
}

/// Reads a signed quantity from its two's complement bytes.
fn read_i64(data: &Vec<u8>, pos: &mut usize) -> (r: Option<i64>)
    requires
        *old(pos) <= data@.len(),
    ensures
        match r {
            Some(x) => {
                &&& *final(pos) == *old(pos) + 8
                &&& *final(pos) <= data@.len()
                &&& data@.subrange(*old(pos) as int, *final(pos) as int) == ser_i64(x)
            },
            None => *final(pos) == *old(pos),
        },
{
    match read_u64(data, pos) {
        Some(x) => {
            let v: i64 = #[verifier::truncate] (x as i64);
            proof {
                assert(v as u64 == x) by (bit_vector)
                    requires
                        v == #[verifier::truncate] (x as i64),
                ;
            }
            Some(v)
        },
        None => None,
    }
}

/// Reads four little-endian bytes.
fn read_u32(data: &Vec<u8>, pos: &mut usize) -> (r: Option<u32>)
    requires
        *old(pos) <= data@.len(),
    ensures
        match r {
            Some(x) => {
                &&& *final(pos) == *old(pos) + 4
                &&& *final(pos) <= data@.len()
                &&& data@.subrange(*old(pos) as int, *final(pos) as int)
                    == spec_u32_to_le_bytes(x)
            },
            None => *final(pos) == *old(pos),
        },
{
    if data.len() - *pos < 4 {
        return None;
    }
    let ghost p = *pos as int;
    let mut piece: Vec<u8> = Vec::new();
    let mut i: usize = 0;
    while i < 4
        invariant
            i <= 4,
            p + 4 <= data@.len(),
            *pos == p,
            piece@ == data@.subrange(p, p + i),
        decreases 4 - i,
    {
        piece.push(data[*pos + i]);
        proof {
            assert(piece@ =~= data@.subrange(p, p + i + 1));
        }
        i = i + 1;
    }
    let x = u32_from_le_bytes(piece.as_slice());
    proof {
        vstd::bytes::lemma_auto_spec_u32_to_from_le_bytes();
    }
    *pos = *pos + 4;
    Some(x)
}

/// Reads two little-endian bytes.
fn read_u16(data: &Vec<u8>, pos: &mut usize) -> (r: Option<u16>)
    requires
        *old(pos) <= data@.len(),
    ensures
        match r {
            Some(x) => {
                &&& *final(pos) == *old(pos) + 2
                &&& *final(pos) <= data@.len()
                &&& data@.subrange(*old(pos) as int, *final(pos) as int)
                    == spec_u16_to_le_bytes(x)
            },
            None => *final(pos) == *old(pos),
        },
{
    if data.len() - *pos < 2 {
        return None;
    }
    let ghost p = *pos as int;
    let mut piece: Vec<u8> = Vec::new();
    let mut i: usize = 0;
    while i < 2
        invariant
            i <= 2,
            p + 2 <= data@.len(),
            *pos == p,
            piece@ == data@.subrange(p, p + i),
        decreases 2 - i,
    {
        piece.push(data[*pos + i]);
        proof {
            assert(piece@ =~= data@.subrange(p, p + i + 1));
        }
        i = i + 1;
    }
    let x = u16_from_le_bytes(piece.as_slice());
    proof {
        vstd::bytes::lemma_auto_spec_u16_to_from_le_bytes();
    }
    *pos = *pos + 2;
    Some(x)
}

/// Reads one byte.
fn read_byte(data: &Vec<u8>, pos: &mut usize) -> (r: Option<u8>)
    requires
        *old(pos) <= data@.len(),
    ensures
        match r {
            Some(x) => {
                &&& *final(pos) == *old(pos) + 1
                &&& *final(pos) <= data@.len()
                &&& data@.subrange(*old(pos) as int, *final(pos) as int) == seq![x]
            },
            None => *final(pos) == *old(pos),
        },
{
    if *pos >= data.len() {
        return None;
    }
    let x = data[*pos];
    proof {
        assert(data@.subrange(*pos as int, *pos + 1) =~= seq![x]);
    }
    *pos = *pos + 1;
    Some(x)
}

/// Reads a length-prefixed byte string.
fn read_bytes(data: &Vec<u8>, pos: &mut usize) -> (r: Option<Vec<u8>>)
    requires
        *old(pos) <= data@.len(),
    ensures
        match r {
            Some(v) => {
                &&& *final(pos) == *old(pos) + 8 + v@.len()
                &&& *final(pos) <= data@.len()
                &&& data@.subrange(*old(pos) as int, *final(pos) as int) == ser_bytes(v@)
            },
            None => *final(pos) == *old(pos),
        },
{
    let ghost p0 = *pos as int;
    let n = match read_u64(data, pos) {
        Some(n) => n,
        None => {
            return None;
        },
    };
    if (n as u128) > (data.len() - *pos) as u128 {
        *pos = *pos - 8;
        return None;
    }
    let count = n as usize;
    let ghost p1 = *pos as int;
    let mut v: Vec<u8> = Vec::new();
    let mut i: usize = 0;
    while i < count
        invariant
            i <= count,
            p1 + count <= data@.len(),
            *pos == p1,
            v@ == data@.subrange(p1, p1 + i),
        decreases count - i,
    {
        v.push(data[*pos + i]);
        proof {
            assert(v@ =~= data@.subrange(p1, p1 + i + 1));
        }
        i = i + 1;
    }
    *pos = *pos + count;
    proof {
        assert(data@.subrange(p0, p1 + count) =~= data@.subrange(p0, p1) + data@.subrange(
            p1,
            p1 + count,
        ));
        assert(data@.subrange(p0, p1 + count) =~= ser_bytes(v@));
    }
    Some(v)
}

/// Reads a length-prefixed string.
fn read_str(data: &Vec<u8>, pos: &mut usize) -> (r: Option<String>)
    requires
        *old(pos) <= data@.len(),
    ensures
        match r {
            Some(s) => {
                &&& *final(pos) <= data@.len()
                &&& *old(pos) <= *final(pos)
                &&& data@.subrange(*old(pos) as int, *final(pos) as int) == ser_str(s@)
            },
            None => *final(pos) <= data@.len(),
        },
{
    let ghost p0 = *pos as int;
    let bytes = match read_bytes(data, pos) {
        Some(v) => v,
        None => {
            return None;
        },
    };
    match bytes_to_string(bytes) {
        Some(s) => Some(s),
        None => None,
    }
}

/// Reads a timestamp.
fn read_timespec(data: &Vec<u8>, pos: &mut usize) -> (r: Option<Timespec>)
    requires
        *old(pos) <= data@.len(),
    ensures
        match r {
            Some(t) => {
                &&& *final(pos) == *old(pos) + 12
                &&& *final(pos) <= data@.len()
                &&& data@.subrange(*old(pos) as int, *final(pos) as int) == ser_timespec(t)
            },
            None => *final(pos) <= data@.len() && *old(pos) <= *final(pos),
        },
{
    let ghost p0 = *pos as int;
    let sec = match read_i64(data, pos) {
        Some(v) => v,
        None => {
            return None;
        },
    };
    let nsec = match read_u32(data, pos) {
        Some(v) => v,
        None => {
            return None;
        },
    };
    proof {
        assert(data@.subrange(p0, p0 + 12) =~= data@.subrange(p0, p0 + 8) + data@.subrange(
            p0 + 8,
            p0 + 12,
        ));
    }
    Some(Timespec { sec, nsec })
}

/// The operation in its wire encoding.
#[verifier::rlimit(100)]
pub fn serialize_op(op: &ModifyOperation) -> (r: Vec<u8>)
    ensures
        r@ == ser_op(op@),
{
    let mut out: Vec<u8> = Vec::new();
    match &op.operation {
        ModifyOperationContent::CreateFileOperation(_) => out.push(1),
        ModifyOperationContent::CreateSymlinkOperation(_) => out.push(2),
        ModifyOperationContent::CreateDirectoryOperation(_) => out.push(3),
        ModifyOperationContent::RemoveFileOperation(_) => out.push(4),
        ModifyOperationContent::RemoveDirectoryOperation(_) => out.push(5),
        ModifyOperationContent::RenameOperation(_) => out.push(6),
        ModifyOperationContent::SetAttributesOperation(_) => out.push(7),
        ModifyOperationContent::WriteOperation(_) => out.push(8),
    }
    proof {
        assert(out@ =~= seq![content_tag(op@.operation)]);
    }
    push_str(&mut out, op.id.as_str());
    push_timespec(&mut out, op.timestamp);
    push_i64(&mut out, op.dirent_version);
    push_i64(&mut out, op.content_version);
    let ghost header = seq![content_tag(op@.operation)] + ser_str(op@.id) + ser_timespec(
        op@.timestamp,
    ) + ser_i64(op@.dirent_version) + ser_i64(op@.content_version);
    proof {
        assert(out@ =~= header);
    }
    match &op.operation {
        ModifyOperationContent::CreateFileOperation(o) => {
            push_str(&mut out, o.name.as_str());
            out.push(crate::types::file_type_to_u8(o.file_type));
            push_u16(&mut out, o.perm);
            push_u32(&mut out, o.dev);
        },
        ModifyOperationContent::CreateSymlinkOperation(o) => {
            push_str(&mut out, o.name.as_str());
            push_str(&mut out, o.link.as_str());
        },
        ModifyOperationContent::CreateDirectoryOperation(o) => {
            push_str(&mut out, o.name.as_str());
            push_u16(&mut out, o.perm);
        },
        ModifyOperationContent::RemoveFileOperation(_) => {},
        ModifyOperationContent::RemoveDirectoryOperation(_) => {},
        ModifyOperationContent::RenameOperation(o) => {
            push_str(&mut out, o.new_parent.as_str());
            push_str(&mut out, o.new_name.as_str());
        },
        ModifyOperationContent::SetAttributesOperation(o) => {
            match o.perm {
                Some(v) => {
                    push_flag(&mut out, true);
                    push_u16(&mut out, v);
                },
                None => push_flag(&mut out, false),
            }
            match o.uid {
                Some(v) => {
                    push_flag(&mut out, true);
                    push_u32(&mut out, v);
                },
                None => push_flag(&mut out, false),
            }
            match o.gid {
                Some(v) => {
                    push_flag(&mut out, true);
                    push_u32(&mut out, v);
                },
                None => push_flag(&mut out, false),
            }
            match o.size {
                Some(v) => {
                    push_flag(&mut out, true);
                    push_u64(&mut out, v);
                },
                None => push_flag(&mut out, false),
            }
            match o.atim {
                Some(t) => {
                    push_flag(&mut out, true);
                    push_timespec(&mut out, t);
                },
                None => push_flag(&mut out, false),
            }
            match o.mtim {
                Some(t) => {
                    push_flag(&mut out, true);
                    push_timespec(&mut out, t);
                },
                None => push_flag(&mut out, false),
            }
        },
        ModifyOperationContent::WriteOperation(o) => {
            push_i64(&mut out, o.offset);
            push_bytes(&mut out, &o.data);
        },
    }
    proof {
        assert(out@ =~= header + ser_content(op@.operation));
        assert(out@ =~= ser_op(op@));
    }
    out
}

/// Reads an optional timestamp.
fn read_opt_timespec(data: &Vec<u8>, pos: &mut usize) -> (r: Option<Option<Timespec>>)
    requires
        *old(pos) <= data@.len(),
    ensures
        match r {
            Some(o) => {
                &&& *final(pos) <= data@.len()
                &&& *old(pos) <= *final(pos)
                &&& data@.subrange(*old(pos) as int, *final(pos) as int) == ser_opt_timespec(o)
            },
            None => *final(pos) <= data@.len(),
        },
{
    let ghost p0 = *pos as int;
    let flag = match read_byte(data, pos) {
        Some(b) => b,
        None => {
            return None;
        },
    };
    if flag == 0 {
        return Some(None);
    }
    if flag != 1 {
        return None;
    }
    let t = match read_timespec(data, pos) {
        Some(t) => t,
        None => {
            return None;
        },
    };
    proof {
        assert(data@.subrange(p0, p0 + 13) =~= data@.subrange(p0, p0 + 1) + data@.subrange(
            p0 + 1,
            p0 + 13,
        ));
    }
    Some(Some(t))
}

/// An operation decoded from its wire bytes. Whatever comes back
/// re-encodes to exactly the input, so a journal row is recovered as
/// the very operation that was stored; bytes no operation encodes to
/// are rejected.
#[verifier::rlimit(100)]
pub fn deserialize_op(data: &Vec<u8>) -> (r: Option<ModifyOperation>)
    ensures
        match r {
            Some(op) => ser_op(op@) == data@,
            None => true,
        },
{
    let mut pos: usize = 0;
    let tag = match read_byte(data, &mut pos) {
        Some(b) => b,
        None => {
            return None;
        },
    };
    let ghost p_tag = pos as int;
    let id = match read_str(data, &mut pos) {
        Some(s) => s,
        None => {
            return None;
        },
    };
    let ghost p_id = pos as int;
    let timestamp = match read_timespec(data, &mut pos) {
        Some(t) => t,
        None => {
            return None;
        },
    };
    let ghost p_ts = pos as int;
    let dirent_version = match read_i64(data, &mut pos) {
        Some(v) => v,
        None => {
            return None;
        },
    };
    let ghost p_dv = pos as int;
    let content_version = match read_i64(data, &mut pos) {
        Some(v) => v,
        None => {
            return None;
        },
    };
    let ghost p_cv = pos as int;
    let operation: ModifyOperationContent = if tag == 1 {
        let name = match read_str(data, &mut pos) {
            Some(s) => s,
            None => {
                return None;
            },
        };
        let ghost p_n = pos as int;
        let ft_byte = match read_byte(data, &mut pos) {
            Some(b) => b,
            None => {
                return None;
            },
        };
        let file_type = match crate::types::file_type_from_u8(ft_byte) {
            Some(t) => t,
            None => {
                return None;
            },
        };
        let perm = match read_u16(data, &mut pos) {
            Some(v) => v,
            None => {
                return None;
            },
        };
        let dev = match read_u32(data, &mut pos) {
            Some(v) => v,
            None => {
                return None;
            },
        };
        let op = CreateFileOperation { name, file_type, perm, dev };
        proof {
            assert(data@.subrange(p_cv, pos as int) =~= data@.subrange(p_cv, p_n)
                + data@.subrange(p_n, p_n + 1) + data@.subrange(p_n + 1, p_n + 3)
                + data@.subrange(p_n + 3, p_n + 7));
            assert(data@.subrange(p_cv, pos as int) == ser_content(
                ModifyOperationContentView::CreateFileOperation(op@),
            ));
        }
        ModifyOperationContent::CreateFileOperation(op)
    } else if tag == 2 {
        let name = match read_str(data, &mut pos) {
            Some(s) => s,
            None => {
                return None;
            },
        };
        let ghost p_n = pos as int;
        let link = match read_str(data, &mut pos) {
            Some(s) => s,
            None => {
                return None;
            },
        };
        let op = CreateSymlinkOperation { name, link };
        proof {
            assert(data@.subrange(p_cv, pos as int) =~= data@.subrange(p_cv, p_n)
                + data@.subrange(p_n, pos as int));
            assert(data@.subrange(p_cv, pos as int) == ser_content(
                ModifyOperationContentView::CreateSymlinkOperation(op@),
            ));
        }
        ModifyOperationContent::CreateSymlinkOperation(op)
    } else if tag == 3 {
        let name = match read_str(data, &mut pos) {
            Some(s) => s,
            None => {
                return None;
            },
        };
        let ghost p_n = pos as int;
        let perm = match read_u16(data, &mut pos) {
            Some(v) => v,
            None => {
                return None;
            },
        };
        let op = CreateDirectoryOperation { name, perm };
        proof {
            assert(data@.subrange(p_cv, pos as int) =~= data@.subrange(p_cv, p_n)
                + data@.subrange(p_n, p_n + 2));
            assert(data@.subrange(p_cv, pos as int) == ser_content(
                ModifyOperationContentView::CreateDirectoryOperation(op@),
            ));
        }
        ModifyOperationContent::CreateDirectoryOperation(op)
    } else if tag == 4 {
        proof {
            assert(data@.subrange(p_cv, pos as int) =~= Seq::<u8>::empty());
        }
        ModifyOperationContent::RemoveFileOperation(RemoveFileOperation {  })
    } else if tag == 5 {
        proof {
            assert(data@.subrange(p_cv, pos as int) =~= Seq::<u8>::empty());
        }
        ModifyOperationContent::RemoveDirectoryOperation(RemoveDirectoryOperation {  })
    } else if tag == 6 {
        let new_parent = match read_str(data, &mut pos) {
            Some(s) => s,
            None => {
                return None;
            },
        };
        let ghost p_n = pos as int;
        let new_name = match read_str(data, &mut pos) {
            Some(s) => s,
            None => {
                return None;
            },
        };
        let op = RenameOperation { new_parent, new_name };
        proof {
            assert(data@.subrange(p_cv, pos as int) =~= data@.subrange(p_cv, p_n)
                + data@.subrange(p_n, pos as int));
            assert(data@.subrange(p_cv, pos as int) == ser_content(
                ModifyOperationContentView::RenameOperation(op@),
            ));
        }
        ModifyOperationContent::RenameOperation(op)
    } else if tag == 7 {
        let perm = match read_opt_u16(data, &mut pos) {
            Some(o) => o,
            None => {
                return None;
            },
        };
        let ghost p1 = pos as int;
        let uid = match read_opt_u32(data, &mut pos) {
            Some(o) => o,
            None => {
                return None;
            },
        };
        let ghost p2 = pos as int;
        let gid = match read_opt_u32(data, &mut pos) {
            Some(o) => o,
            None => {
                return None;
            },
        };
        let ghost p3 = pos as int;
        let size = match read_opt_u64(data, &mut pos) {
            Some(o) => o,
            None => {
                return None;
            },
        };
        let ghost p4 = pos as int;
        let atim = match read_opt_timespec(data, &mut pos) {
            Some(o) => o,
            None => {
                return None;
            },
        };
        let ghost p5 = pos as int;
        let mtim = match read_opt_timespec(data, &mut pos) {
            Some(o) => o,
            None => {
                return None;
            },
        };
        let op = SetAttributesOperation { perm, uid, gid, size, atim, mtim };
        proof {
            assert(data@.subrange(p_cv, pos as int) =~= data@.subrange(p_cv, p1)
                + data@.subrange(p1, p2) + data@.subrange(p2, p3) + data@.subrange(p3, p4)
                + data@.subrange(p4, p5) + data@.subrange(p5, pos as int));
            assert(data@.subrange(p_cv, pos as int) == ser_content(
                ModifyOperationContentView::SetAttributesOperation(op),
            ));
        }
        ModifyOperationContent::SetAttributesOperation(op)
    } else if tag == 8 {
        let offset = match read_i64(data, &mut pos) {
            Some(v) => v,
            None => {
                return None;
            },
        };
        let ghost p_o = pos as int;
        let bytes = match read_bytes(data, &mut pos) {
            Some(v) => v,
            None => {
                return None;
            },
        };
        let op = WriteOperation { offset, data: bytes };
        proof {
            assert(data@.subrange(p_cv, pos as int) =~= data@.subrange(p_cv, p_o)
                + data@.subrange(p_o, pos as int));
            assert(data@.subrange(p_cv, pos as int) == ser_content(
                ModifyOperationContentView::WriteOperation(op@),
            ));
        }
        ModifyOperationContent::WriteOperation(op)
    } else {
        return None;
    };
    if pos != data.len() {
        return None;
    }
    let op = ModifyOperation { id, timestamp, dirent_version, content_version, operation };
    proof {
        assert(content_tag(op@.operation) == tag);
        assert(data@.subrange(0, p_tag) =~= seq![tag]);
        assert(data@ =~= data@.subrange(0, p_tag) + data@.subrange(p_tag, p_id)
            + data@.subrange(p_id, p_ts) + data@.subrange(p_ts, p_dv) + data@.subrange(
            p_dv,
            p_cv,
        ) + data@.subrange(p_cv, pos as int));
        assert(data@ == ser_op(op@));
    }
    Some(op)
}

/// Reads an optional permission value.
fn read_opt_u16(data: &Vec<u8>, pos: &mut usize) -> (r: Option<Option<u16>>)
    requires
        *old(pos) <= data@.len(),
    ensures
        match r {
            Some(o) => {
                &&& *final(pos) <= data@.len()
                &&& *old(pos) <= *final(pos)
                &&& data@.subrange(*old(pos) as int, *final(pos) as int) == ser_opt_u16(o)
            },
            None => *final(pos) <= data@.len(),
        },
{
    let ghost p0 = *pos as int;
    let flag = match read_byte(data, pos) {
        Some(b) => b,
        None => {
            return None;
        },
    };
    if flag == 0 {
        return Some(None);
    }
    if flag != 1 {
        return None;
    }
    let v = match read_u16(data, pos) {
        Some(v) => v,
        None => {
            return None;
        },
    };
    proof {
        assert(data@.subrange(p0, p0 + 3) =~= data@.subrange(p0, p0 + 1) + data@.subrange(
            p0 + 1,
            p0 + 3,
        ));
    }
    Some(Some(v))
}

/// Reads an optional owner id.
fn read_opt_u32(data: &Vec<u8>, pos: &mut usize) -> (r: Option<Option<u32>>)
    requires
        *old(pos) <= data@.len(),
    ensures
        match r {
            Some(o) => {
                &&& *final(pos) <= data@.len()
                &&& *old(pos) <= *final(pos)
                &&& data@.subrange(*old(pos) as int, *final(pos) as int) == ser_opt_u32(o)
            },
            None => *final(pos) <= data@.len(),
        },
{
    let ghost p0 = *pos as int;
    let flag = match read_byte(data, pos) {
        Some(b) => b,
        None => {
            return None;
        },
    };
    if flag == 0 {
        return Some(None);
    }
    if flag != 1 {
        return None;
    }
    let v = match read_u32(data, pos) {
        Some(v) => v,
        None => {
            return None;
        },
    };
    proof {
        assert(data@.subrange(p0, p0 + 5) =~= data@.subrange(p0, p0 + 1) + data@.subrange(
            p0 + 1,
            p0 + 5,
        ));
    }
    Some(Some(v))
}

/// Reads an optional size.
fn read_opt_u64(data: &Vec<u8>, pos: &mut usize) -> (r: Option<Option<u64>>)
    requires
        *old(pos) <= data@.len(),
    ensures
        match r {
            Some(o) => {
                &&& *final(pos) <= data@.len()
                &&& *old(pos) <= *final(pos)
                &&& data@.subrange(*old(pos) as int, *final(pos) as int) == ser_opt_u64(o)
            },
            None => *final(pos) <= data@.len(),
        },
{
    let ghost p0 = *pos as int;
    let flag = match read_byte(data, pos) {
        Some(b) => b,
        None => {
            return None;
        },
    };
    if flag == 0 {
        return Some(None);
    }
    if flag != 1 {
        return None;
    }
    let v = match read_u64(data, pos) {
        Some(v) => v,
        None => {
            return None;
        },
    };
    proof {
        assert(data@.subrange(p0, p0 + 9) =~= data@.subrange(p0, p0 + 1) + data@.subrange(
            p0 + 1,
            p0 + 9,
        ));
    }
    Some(Some(v))
}

} // verus!
