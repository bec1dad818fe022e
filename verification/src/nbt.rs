//! Streaming reader for the self-describing tagged-tree binary format.
//!
//! Every node carries a one-byte type code, then (except for the End tag) a
//! 2-byte length-prefixed name, then a payload whose shape the type code
//! determines. The reader works over an already-decompressed byte buffer and
//! supports reading headers, skipping whole subtrees without materializing
//! them, seeking a named sibling inside a compound, and materializing a
//! selected set of named children.
//!
//! The functional specification is a family of spec functions (`parse_payload`,
//! `parse_list`, `parse_compound`, `parse_header`) that give, for any byte
//! sequence and position, the abstract value (`TagV`) encoded there and the
//! position just past it, or `None` when the bytes are malformed. Every
//! reader operation is proved to agree exactly with these functions: it
//! succeeds if and only if the parse is defined, and it consumes exactly the
//! bytes of the value.

use vstd::prelude::*;

use crate::error::DecodeError;

verus! {

/// Abstract value of one tag payload. Scalars hold their raw big-endian
/// bit patterns; interpretation (signedness, floating point) is left to the
/// consumer.
#[verifier::ext_equal]
pub enum TagV {
    End,
    Byte(u8),
    Short(u16),
    Int(u32),
    Long(u64),
    Float(u32),
    Double(u64),
    ByteArray(Seq<u8>),
    Str(Seq<u8>),
    List(u8, Seq<TagV>),
    Compound(Seq<(Seq<u8>, TagV)>),
    IntArray(Seq<u32>),
    LongArray(Seq<u64>),
}

/// The big-endian 16-bit value at `pos`.
pub open spec fn be16(data: Seq<u8>, pos: int) -> int {
    data[pos] * 0x100 + data[pos + 1]
}

/// The big-endian 32-bit value at `pos`.
pub open spec fn be32(data: Seq<u8>, pos: int) -> int {
    data[pos] * 0x100_0000 + data[pos + 1] * 0x1_0000 + data[pos + 2] * 0x100 + data[pos + 3]
}

/// The big-endian 64-bit value at `pos`.
pub open spec fn be64(data: Seq<u8>, pos: int) -> int {
    be32(data, pos) * 0x1_0000_0000 + be32(data, pos + 4)
}

/// The value encoded at `pos` when the bytes there form a payload of type
/// `code`, together with the position just past it; `None` when they do not.
///
/// A payload is malformed when its type code is unknown, a length field
/// points past the end of the data, or a nested element is malformed.
pub open spec fn parse_payload(data: Seq<u8>, pos: int, code: u8) -> Option<(TagV, int)>
    decreases data.len() - pos, 0nat, 1nat,
{
    if !(0 <= pos <= data.len()) {
        None
    } else if code == 0 {
        Some((TagV::End, pos))
    } else if code == 1 {
        if pos + 1 <= data.len() {
            Some((TagV::Byte(data[pos]), pos + 1))
        } else {
            None
        }
    } else if code == 2 {
        if pos + 2 <= data.len() {
            Some((TagV::Short(be16(data, pos) as u16), pos + 2))
        } else {
            None
        }
    } else if code == 3 {
        if pos + 4 <= data.len() {
            Some((TagV::Int(be32(data, pos) as u32), pos + 4))
        } else {
            None
        }
    } else if code == 4 {
        if pos + 8 <= data.len() {
            Some((TagV::Long(be64(data, pos) as u64), pos + 8))
        } else {
            None
        }
    } else if code == 5 {
        if pos + 4 <= data.len() {
            Some((TagV::Float(be32(data, pos) as u32), pos + 4))
        } else {
            None
        }
    } else if code == 6 {
        if pos + 8 <= data.len() {
            Some((TagV::Double(be64(data, pos) as u64), pos + 8))
        } else {
            None
        }
    } else if code == 7 {
        if pos + 4 <= data.len() {
            let n = be32(data, pos);
            if pos + 4 + n <= data.len() {
                Some((TagV::ByteArray(data.subrange(pos + 4, pos + 4 + n)), pos + 4 + n))
            } else {
                None
            }
        } else {
            None
        }
    } else if code == 8 {
        if pos + 2 <= data.len() {
            let n = be16(data, pos);
            if pos + 2 + n <= data.len() {
                Some((TagV::Str(data.subrange(pos + 2, pos + 2 + n)), pos + 2 + n))
            } else {
                None
            }
        } else {
            None
        }
    } else if code == 9 {
        if pos + 5 <= data.len() {
            let ec = data[pos];
            let n = be32(data, pos + 1);
            match parse_list(data, pos + 5, ec, n) {
                Some((elems, end)) => Some((TagV::List(ec, elems), end)),
                None => None,
            }
        } else {
            None
        }
    } else if code == 10 {
        match parse_compound(data, pos) {
            Some((entries, end)) => Some((TagV::Compound(entries), end)),
            None => None,
        }
    } else if code == 11 {
        if pos + 4 <= data.len() {
            let n = be32(data, pos);
            if pos + 4 + 4 * n <= data.len() {
                Some(
                    (
                        TagV::IntArray(Seq::new(n as nat, |i: int| be32(data, pos + 4 + 4 * i) as u32)),
                        pos + 4 + 4 * n,
                    ),
                )
            } else {
                None
            }
        } else {
            None
        }
    } else if code == 12 {
        if pos + 4 <= data.len() {
            let n = be32(data, pos);
            if pos + 4 + 8 * n <= data.len() {
                Some(
                    (
                        TagV::LongArray(Seq::new(n as nat, |i: int| be64(data, pos + 4 + 8 * i) as u64)),
                        pos + 4 + 8 * n,
                    ),
                )
            } else {
                None
            }
        } else {
            None
        }
    } else {
        None
    }
}

/// The `count` payloads of type `ec` encoded one after another from `pos`,
/// and the position just past the last one.
pub open spec fn parse_list(data: Seq<u8>, pos: int, ec: u8, count: int) -> Option<(Seq<TagV>, int)>
    decreases data.len() - pos, count, 0nat,
{
    if !(0 <= pos <= data.len()) || count < 0 {
        None
    } else if count == 0 {
        Some((Seq::empty(), pos))
    } else {
        match parse_payload(data, pos, ec) {
            None => None,
            Some((v, p2)) => {
                if pos <= p2 <= data.len() {
                    match parse_list(data, p2, ec, count - 1) {
                        None => None,
                        Some((rest, end)) => Some((seq![v] + rest, end)),
                    }
                } else {
                    None
                }
            },
        }
    }
}

/// The header at `pos`: type code, name, and the position of the payload.
/// An End header (code 0) carries no name.
pub open spec fn parse_header(data: Seq<u8>, pos: int) -> Option<(u8, Seq<u8>, int)> {
    if !(0 <= pos < data.len()) {
        None
    } else {
        let c = data[pos];
        if c == 0 {
            Some((0u8, Seq::empty(), pos + 1))
        } else if pos + 3 <= data.len() {
            let n = be16(data, pos + 1);
            if pos + 3 + n <= data.len() {
                Some((c, data.subrange(pos + 3, pos + 3 + n), pos + 3 + n))
            } else {
                None
            }
        } else {
            None
        }
    }
}

/// The named children encoded from `pos` up to the closing End tag, in
/// order, and the position just past the End tag. This is the payload form
/// of a Compound tag.
pub open spec fn parse_compound(data: Seq<u8>, pos: int) -> Option<(Seq<(Seq<u8>, TagV)>, int)>
    decreases data.len() - pos, 0nat, 0nat,
{
    match parse_header(data, pos) {
        None => None,
        Some((c, name, p1)) => {
            if c == 0 {
                Some((Seq::empty(), p1))
            } else if pos < p1 <= data.len() {
                match parse_payload(data, p1, c) {
                    None => None,
                    Some((v, p2)) => {
                        if pos < p2 <= data.len() {
                            match parse_compound(data, p2) {
                                None => None,
                                Some((rest, end)) => Some((seq![(name, v)] + rest, end)),
                            }
                        } else {
                            None
                        }
                    },
                }
            } else {
                None
            }
        },
    }
}

/// Every defined parse ends at or after its start, within the data.
pub proof fn lemma_parse_payload_bounds(data: Seq<u8>, pos: int, code: u8)
    requires
        parse_payload(data, pos, code) is Some,
    ensures
        pos <= parse_payload(data, pos, code)->Some_0.1 <= data.len(),
    decreases data.len() - pos, 0nat, 1nat,
{
    if code == 9 {
        let ec = data[pos];
        let n = be32(data, pos + 1);
        lemma_parse_list_bounds(data, pos + 5, ec, n);
    } else if code == 10 {
        lemma_parse_compound_bounds(data, pos);
    }
}

/// Every defined list parse ends at or after its start, within the data.
pub proof fn lemma_parse_list_bounds(data: Seq<u8>, pos: int, ec: u8, count: int)
    requires
        parse_list(data, pos, ec, count) is Some,
    ensures
        pos <= parse_list(data, pos, ec, count)->Some_0.1 <= data.len(),
    decreases data.len() - pos, count, 0nat,
{
    if count > 0 {
        let (v, p2) = parse_payload(data, pos, ec)->Some_0;
        lemma_parse_list_bounds(data, p2, ec, count - 1);
    }
}

/// Every defined compound parse ends after its start, within the data.
pub proof fn lemma_parse_compound_bounds(data: Seq<u8>, pos: int)
    requires
        parse_compound(data, pos) is Some,
    ensures
        pos < parse_compound(data, pos)->Some_0.1 <= data.len(),
    decreases data.len() - pos, 0nat, 0nat,
{
    let (c, name, p1) = parse_header(data, pos)->Some_0;
    if c != 0 {
        let (v, p2) = parse_payload(data, p1, c)->Some_0;
        lemma_parse_compound_bounds(data, p2);
    }
}

/// A list of End payloads occupies no bytes: it parses to `count` End
/// values ending where it starts.
pub proof fn lemma_parse_list_end(data: Seq<u8>, pos: int, count: int)
    requires
        0 <= pos <= data.len(),
        count >= 0,
    ensures
        parse_list(data, pos, 0u8, count) == Some(
            (Seq::new(count as nat, |i: int| TagV::End), pos),
        ),
    decreases count,
{
    if count == 0 {
        assert(Seq::new(0nat, |i: int| TagV::End) =~= Seq::<TagV>::empty());
        assert(parse_list(data, pos, 0u8, 0) == Some((Seq::<TagV>::empty(), pos)));
        assert(Seq::new(count as nat, |i: int| TagV::End) == Seq::new(0nat, |i: int| TagV::End));
    } else {
        assert(parse_payload(data, pos, 0u8) == Some((TagV::End, pos)));
        lemma_parse_list_end(data, pos, count - 1);
        assert(parse_list(data, pos, 0u8, count - 1) == Some(
            (Seq::new((count - 1) as nat, |i: int| TagV::End), pos),
        ));
        assert(parse_list(data, pos, 0u8, count) == Some(
            (seq![TagV::End] + Seq::new((count - 1) as nat, |i: int| TagV::End), pos),
        ));
        assert(seq![TagV::End] + Seq::new((count - 1) as nat, |i: int| TagV::End) =~= Seq::new(
            count as nat,
            |i: int| TagV::End,
        ));
    }
}

/// The big-endian 16-bit value at `pos`, read from the buffer.
fn read_be16(data: &Vec<u8>, pos: usize) -> (r: u16)
    requires
        pos + 2 <= data@.len(),
    ensures
        r == be16(data@, pos as int),
{
    // Reading the length teaches the verifier that positions fit a usize.
    let _len_witness = data.len();
    (data[pos] as u16) * 0x100 + (data[pos + 1] as u16)
}

/// The big-endian 32-bit value at `pos`, read from the buffer.
pub(crate) fn read_be32(data: &Vec<u8>, pos: usize) -> (r: u32)
    requires
        pos + 4 <= data@.len(),
    ensures
        r == be32(data@, pos as int),
{
    // Reading the length teaches the verifier that positions fit a usize.
    let _len_witness = data.len();
    (data[pos] as u32) * 0x100_0000 + (data[pos + 1] as u32) * 0x1_0000 + (data[pos + 2] as u32)
        * 0x100 + (data[pos + 3] as u32)
}

/// The big-endian 64-bit value at `pos`, read from the buffer.
fn read_be64(data: &Vec<u8>, pos: usize) -> (r: u64)
    requires
        pos + 8 <= data@.len(),
    ensures
        r == be64(data@, pos as int),
{
    // Reading the length teaches the verifier that positions fit a usize.
    let _len_witness = data.len();
    (read_be32(data, pos) as u64) * 0x1_0000_0000 + (read_be32(data, pos + 4) as u64)
}

/// A copy of `data[pos .. pos + n]`.
pub(crate) fn read_bytes_at(data: &Vec<u8>, pos: usize, n: usize) -> (r: Vec<u8>)
    requires
        pos + n <= data@.len(),
    ensures
        r@ == data@.subrange(pos as int, pos + n),
{
    let len = data.len();
    let mut out: Vec<u8> = Vec::new();
    let mut i: usize = 0;
    while i < n
        invariant
            i <= n,
            pos + n <= data@.len(),
            len == data@.len(),
            out@ =~= data@.subrange(pos as int, pos + i),
        decreases n - i,
    {
        out.push(data[pos + i]);
        proof {
            assert(out@ =~= data@.subrange(pos as int, pos + i + 1));
        }
        i = i + 1;
    }
    out
}

/// Consume and discard the payload of type `code` at `pos`, returning the
/// position just past it. Succeeds exactly where the parse is defined.
fn skip_payload_at(data: &Vec<u8>, pos: usize, code: u8) -> (r: Result<usize, DecodeError>)
    requires
        pos <= data@.len(),
    ensures
        match r {
            Ok(p2) => parse_payload(data@, pos as int, code) is Some && parse_payload(
                data@,
                pos as int,
                code,
            )->Some_0.1 == p2 as int && pos <= p2 <= data@.len(),
            Err(_) => parse_payload(data@, pos as int, code) is None,
        },
    decreases data@.len() - pos, 0nat, 1nat,
{
    let len = data.len();
    let rem = len - pos;
    if code == 0 {
        Ok(pos)
    } else if code == 1 {
        if rem >= 1 {
            Ok(pos + 1)
        } else {
            Err(DecodeError::Truncated)
        }
    } else if code == 2 {
        if rem >= 2 {
            Ok(pos + 2)
        } else {
            Err(DecodeError::Truncated)
        }
    } else if code == 3 || code == 5 {
        if rem >= 4 {
            Ok(pos + 4)
        } else {
            Err(DecodeError::Truncated)
        }
    } else if code == 4 || code == 6 {
        if rem >= 8 {
            Ok(pos + 8)
        } else {
            Err(DecodeError::Truncated)
        }
    } else if code == 7 {
        if rem >= 4 {
            let n = read_be32(data, pos) as usize;
            if len - (pos + 4) >= n {
                Ok(pos + 4 + n)
            } else {
                Err(DecodeError::Truncated)
            }
        } else {
            Err(DecodeError::Truncated)
        }
    } else if code == 8 {
        if rem >= 2 {
            let n = read_be16(data, pos) as usize;
            if len - (pos + 2) >= n {
                Ok(pos + 2 + n)
            } else {
                Err(DecodeError::Truncated)
            }
        } else {
            Err(DecodeError::Truncated)
        }
    } else if code == 9 {
        if rem >= 5 {
            let ec = data[pos];
            let n = read_be32(data, pos + 1);
            if ec == 0 {
                proof {
                    lemma_parse_list_end(data@, pos + 5, n as int);
                }
                Ok(pos + 5)
            } else {
                skip_list_at(data, pos + 5, ec, n)
            }
        } else {
            Err(DecodeError::Truncated)
        }
    } else if code == 10 {
        skip_compound_at(data, pos)
    } else if code == 11 {
        if rem >= 4 {
            let n = read_be32(data, pos);
            if ((len - (pos + 4)) as u64) >= (n as u64) * 4 {
                Ok(pos + 4 + (n as usize) * 4)
            } else {
                Err(DecodeError::Truncated)
            }
        } else {
            Err(DecodeError::Truncated)
        }
    } else if code == 12 {
        if rem >= 4 {
            let n = read_be32(data, pos);
            if ((len - (pos + 4)) as u64) >= (n as u64) * 8 {
                Ok(pos + 4 + (n as usize) * 8)
            } else {
                Err(DecodeError::Truncated)
            }
        } else {
            Err(DecodeError::Truncated)
        }
    } else {
        Err(DecodeError::BadTypeCode)
    }
}

/// Skip `count` consecutive payloads of type `ec`, which is not End.
fn skip_list_at(data: &Vec<u8>, pos: usize, ec: u8, count: u32) -> (r: Result<usize, DecodeError>)
    requires
        pos <= data@.len(),
        ec != 0,
    ensures
        match r {
            Ok(p2) => parse_list(data@, pos as int, ec, count as int) is Some && parse_list(
                data@,
                pos as int,
                ec,
                count as int,
            )->Some_0.1 == p2 as int && pos <= p2 <= data@.len(),
            Err(_) => parse_list(data@, pos as int, ec, count as int) is None,
        },
    decreases data@.len() - pos, count, 0nat,
{
    if count == 0 {
        Ok(pos)
    } else {
        match skip_payload_at(data, pos, ec) {
            Err(e) => Err(e),
            Ok(p2) => skip_list_at(data, p2, ec, count - 1),
        }
    }
}

/// Skip named children up to and including the closing End tag of a
/// compound payload.
fn skip_compound_at(data: &Vec<u8>, pos: usize) -> (r: Result<usize, DecodeError>)
    requires
        pos <= data@.len(),
    ensures
        match r {
            Ok(p2) => parse_compound(data@, pos as int) is Some && parse_compound(
                data@,
                pos as int,
            )->Some_0.1 == p2 as int && pos < p2 <= data@.len(),
            Err(_) => parse_compound(data@, pos as int) is None,
        },
    decreases data@.len() - pos, 0nat, 0nat,
{
    let len = data.len();
    if pos >= len {
        return Err(DecodeError::Truncated);
    }
    let c = data[pos];
    if c == 0 {
        return Ok(pos + 1);
    }
    if len - pos < 3 {
        return Err(DecodeError::Truncated);
    }
    let nlen = read_be16(data, pos + 1) as usize;
    if len - (pos + 3) < nlen {
        return Err(DecodeError::Truncated);
    }
    let p1 = pos + 3 + nlen;
    match skip_payload_at(data, p1, c) {
        Err(e) => Err(e),
        Ok(p2) => skip_compound_at(data, p2),
    }
}

/// True exactly when the two byte vectors hold the same bytes.
pub(crate) fn bytes_eq(a: &Vec<u8>, b: &Vec<u8>) -> (r: bool)
    ensures
        r == (a@ == b@),
{
    if a.len() != b.len() {
        proof {
            assert(a@.len() != b@.len());
        }
        return false;
    }
    let n = a.len();
    let mut i: usize = 0;
    while i < n
        invariant
            i <= n,
            n == a@.len() == b@.len(),
            forall|k: int| 0 <= k < i ==> a@[k] == b@[k],
        decreases n - i,
    {
        if a[i] != b[i] {
            return false;
        }
        i = i + 1;
    }
    proof {
        assert(a@ =~= b@);
    }
    true
}

/// The views of a list of names.
pub open spec fn names_v(names: Seq<Vec<u8>>) -> Seq<Seq<u8>> {
    Seq::new(names.len(), |i: int| names[i]@)
}

/// Position of the first name equal to `nm`, if any.
pub open spec fn name_index(names: Seq<Seq<u8>>, nm: Seq<u8>) -> Option<int>
    decreases names.len(),
{
    if names.len() == 0 {
        None
    } else if names[0] == nm {
        Some(0)
    } else {
        match name_index(names.drop_first(), nm) {
            Some(i) => Some(i + 1),
            None => None,
        }
    }
}

/// Position of the first of `names` holding the same bytes as `nm`.
pub(crate) fn find_name(names: &Vec<Vec<u8>>, nm: &Vec<u8>) -> (r: Option<usize>)
    ensures
        match r {
            Some(j) => name_index(names_v(names@), nm@) == Some(j as int) && j < names@.len(),
            None => name_index(names_v(names@), nm@) is None,
        },
{
    let n = names.len();
    let mut j: usize = 0;
    proof {
        assert(names_v(names@).skip(0) =~= names_v(names@));
    }
    while j < n
        invariant
            j <= n,
            n == names@.len(),
            match name_index(names_v(names@).skip(j as int), nm@) {
                Some(k) => name_index(names_v(names@), nm@) == Some(k + j),
                None => name_index(names_v(names@), nm@) is None,
            },
        decreases n - j,
    {
        let hit = bytes_eq(&names[j], nm);
        proof {
            let nv = names_v(names@);
            assert(nv.skip(j as int)[0] == nv[j as int]);
            assert(nv.skip(j as int).drop_first() =~= nv.skip(j + 1));
        }
        if hit {
            return Some(j);
        }
        j = j + 1;
    }
    proof {
        assert(names_v(names@).skip(j as int).len() == 0);
    }
    None
}

/// What a scan of sibling headers from a position finds: the first sibling
/// whose name is in the requested set (its index in that set, its type code,
/// and the position of its payload), or the end of the enclosing compound.
pub enum Seek {
    Found { idx: int, code: u8, at: int },
    Absent { end: int },
}

/// Scan sibling headers from `pos`: skip every tag whose name is not in
/// `names` until one matches (yield its payload position) or an End tag
/// closes the compound. `None` when a header or a skipped payload is
/// malformed.
pub open spec fn seek_spec(data: Seq<u8>, pos: int, names: Seq<Seq<u8>>) -> Option<Seek>
    decreases data.len() - pos,
{
    match parse_header(data, pos) {
        None => None,
        Some((c, nm, p1)) => {
            if c == 0 {
                Some(Seek::Absent { end: p1 })
            } else {
                match name_index(names, nm) {
                    Some(i) => Some(Seek::Found { idx: i, code: c, at: p1 }),
                    None => match parse_payload(data, p1, c) {
                        None => None,
                        Some((v, p2)) => {
                            if pos < p2 <= data.len() {
                                seek_spec(data, p2, names)
                            } else {
                                None
                            }
                        },
                    },
                }
            }
        },
    }
}

/// Scan sibling headers from `start` for the first tag named in `names`.
fn seek_at(data: &Vec<u8>, start: usize, names: &Vec<Vec<u8>>) -> (r: Result<
    (Option<(usize, u8)>, usize),
    DecodeError,
>)
    requires
        start <= data@.len(),
    ensures
        match r {
            Ok((hit, p)) => p <= data@.len() && match hit {
                Some((j, c)) => j < names@.len() && seek_spec(data@, start as int, names_v(names@))
                    == Some(Seek::Found { idx: j as int, code: c, at: p as int }),
                None => seek_spec(data@, start as int, names_v(names@)) == Some(
                    Seek::Absent { end: p as int },
                ),
            },
            Err(_) => seek_spec(data@, start as int, names_v(names@)) is None,
        },
{
    let len = data.len();
    let mut pos = start;
    loop
        invariant
            pos <= len,
            len == data@.len(),
            seek_spec(data@, pos as int, names_v(names@)) == seek_spec(
                data@,
                start as int,
                names_v(names@),
            ),
        decreases len - pos,
    {
        if pos >= len {
            return Err(DecodeError::Truncated);
        }
        let c = data[pos];
        if c == 0 {
            return Ok((None, pos + 1));
        }
        if len - pos < 3 {
            return Err(DecodeError::Truncated);
        }
        let nlen = read_be16(data, pos + 1) as usize;
        if len - (pos + 3) < nlen {
            return Err(DecodeError::Truncated);
        }
        let name = read_bytes_at(data, pos + 3, nlen);
        let p1 = pos + 3 + nlen;
        match find_name(names, &name) {
            Some(j) => {
                return Ok((Some((j, c)), p1));
            },
            None => {
                match skip_payload_at(data, p1, c) {
                    Err(e) => {
                        return Err(e);
                    },
                    Ok(p2) => {
                        pos = p2;
                    },
                }
            },
        }
    }
}

/// A materialized tag value. Scalars hold their raw big-endian bit patterns
/// (`Float` and `Double` as the bits of the stored word); names and strings
/// are byte vectors.
#[verifier::ext_equal]
pub enum Tag {
    End,
    Byte(u8),
    Short(u16),
    Int(u32),
    Long(u64),
    Float(u32),
    Double(u64),
    ByteArray(Vec<u8>),
    Str(Vec<u8>),
    List(u8, Vec<Tag>),
    Compound(Vec<(Vec<u8>, Tag)>),
    IntArray(Vec<u32>),
    LongArray(Vec<u64>),
}

/// The abstract value of a materialized tag.
pub open spec fn tag_v(t: Tag) -> TagV
    decreases t, 0nat,
    via tag_v_decreases
{
    match t {
        Tag::End => TagV::End,
        Tag::Byte(b) => TagV::Byte(b),
        Tag::Short(v) => TagV::Short(v),
        Tag::Int(v) => TagV::Int(v),
        Tag::Long(v) => TagV::Long(v),
        Tag::Float(v) => TagV::Float(v),
        Tag::Double(v) => TagV::Double(v),
        Tag::ByteArray(v) => TagV::ByteArray(v@),
        Tag::Str(v) => TagV::Str(v@),
        Tag::List(ec, elems) => TagV::List(ec, tags_v(elems@)),
        Tag::Compound(entries) => TagV::Compound(entries_v(entries@)),
        Tag::IntArray(v) => TagV::IntArray(v@),
        Tag::LongArray(v) => TagV::LongArray(v@),
    }
}

#[via_fn]
proof fn tag_v_decreases(t: Tag) {
    match t {
        Tag::List(ec, elems) => {
            assert(decreases_to!(t => elems));
            assert(decreases_to!(elems => elems@));
        },
        Tag::Compound(entries) => {
            assert(decreases_to!(t => entries));
            assert(decreases_to!(entries => entries@));
        },
        _ => {},
    }
}

/// The abstract values of a sequence of materialized tags.
pub open spec fn tags_v(s: Seq<Tag>) -> Seq<TagV>
    decreases s, 1nat,
{
    Seq::new(
        s.len(),
        |i: int|
            if 0 <= i < s.len() {
                tag_v(s[i])
            } else {
                TagV::End
            },
    )
}

/// The abstract values of a sequence of materialized named tags.
pub open spec fn entries_v(s: Seq<(Vec<u8>, Tag)>) -> Seq<(Seq<u8>, TagV)>
    decreases s, 1nat,
{
    Seq::new(
        s.len(),
        |i: int|
            if 0 <= i < s.len() {
                (s[i].0@, tag_v(s[i].1))
            } else {
                (Seq::empty(), TagV::End)
            },
    )
}

/// Materialize the payload of type `code` at `pos`.
fn read_tag_at(data: &Vec<u8>, pos: usize, code: u8) -> (r: Result<(Tag, usize), DecodeError>)
    requires
        pos <= data@.len(),
    ensures
        match r {
            Ok((t, p2)) => parse_payload(data@, pos as int, code) == Some((tag_v(t), p2 as int))
                && pos <= p2 <= data@.len(),
            Err(_) => parse_payload(data@, pos as int, code) is None,
        },
    decreases data@.len() - pos, 0nat, 1nat,
{
    let len = data.len();
    let rem = len - pos;
    if code == 0 {
        Ok((Tag::End, pos))
    } else if code == 1 {
        if rem >= 1 {
            Ok((Tag::Byte(data[pos]), pos + 1))
        } else {
            Err(DecodeError::Truncated)
        }
    } else if code == 2 {
        if rem >= 2 {
            Ok((Tag::Short(read_be16(data, pos)), pos + 2))
        } else {
            Err(DecodeError::Truncated)
        }
    } else if code == 3 {
        if rem >= 4 {
            Ok((Tag::Int(read_be32(data, pos)), pos + 4))
        } else {
            Err(DecodeError::Truncated)
        }
    } else if code == 4 {
        if rem >= 8 {
            Ok((Tag::Long(read_be64(data, pos)), pos + 8))
        } else {
            Err(DecodeError::Truncated)
        }
    } else if code == 5 {
        if rem >= 4 {
            Ok((Tag::Float(read_be32(data, pos)), pos + 4))
        } else {
            Err(DecodeError::Truncated)
        }
    } else if code == 6 {
        if rem >= 8 {
            Ok((Tag::Double(read_be64(data, pos)), pos + 8))
        } else {
            Err(DecodeError::Truncated)
        }
    } else if code == 7 {
        if rem >= 4 {
            let n = read_be32(data, pos) as usize;
            if len - (pos + 4) >= n {
                Ok((Tag::ByteArray(read_bytes_at(data, pos + 4, n)), pos + 4 + n))
            } else {
                Err(DecodeError::Truncated)
            }
        } else {
            Err(DecodeError::Truncated)
        }
    } else if code == 8 {
        if rem >= 2 {
            let n = read_be16(data, pos) as usize;
            if len - (pos + 2) >= n {
                Ok((Tag::Str(read_bytes_at(data, pos + 2, n)), pos + 2 + n))
            } else {
                Err(DecodeError::Truncated)
            }
        } else {
            Err(DecodeError::Truncated)
        }
    } else if code == 9 {
        if rem >= 5 {
            let ec = data[pos];
            let n = read_be32(data, pos + 1);
            if ec == 0 {
                proof {
                    lemma_parse_list_end(data@, pos + 5, n as int);
                }
                let mut elems: Vec<Tag> = Vec::new();
                let mut i: u32 = 0;
                while i < n
                    invariant
                        i <= n,
                        elems@.len() == i,
                        forall|k: int| 0 <= k < i ==> elems@[k] == Tag::End,
                    decreases n - i,
                {
                    elems.push(Tag::End);
                    i = i + 1;
                }
                proof {
                    assert forall|k: int| 0 <= k < n implies tags_v(elems@)[k] == TagV::End by {
                        assert(elems@[k] == Tag::End);
                    }
                    assert(tags_v(elems@) =~= Seq::new(n as nat, |k: int| TagV::End));
                }
                Ok((Tag::List(0, elems), pos + 5))
            } else {
                match read_tag_list_at(data, pos + 5, ec, n) {
                    Err(e) => Err(e),
                    Ok((elems, end)) => {
                        Ok((Tag::List(ec, elems), end))
                    },
                }
            }
        } else {
            Err(DecodeError::Truncated)
        }
    } else if code == 10 {
        match read_tag_compound_at(data, pos) {
            Err(e) => Err(e),
            Ok((entries, end)) => {
                Ok((Tag::Compound(entries), end))
            },
        }
    } else if code == 11 {
        if rem >= 4 {
            let n = read_be32(data, pos);
            if ((len - (pos + 4)) as u64) >= (n as u64) * 4 {
                let mut out: Vec<u32> = Vec::new();
                let mut i: u32 = 0;
                while i < n
                    invariant
                        i <= n,
                        len == data@.len(),
                        pos + 4 + 4 * (n as int) <= data@.len(),
                        out@ =~= Seq::new(i as nat, |k: int| be32(data@, pos + 4 + 4 * k) as u32),
                    decreases n - i,
                {
                    out.push(read_be32(data, pos + 4 + (i as usize) * 4));
                    proof {
                        assert(out@ =~= Seq::new(
                            (i + 1) as nat,
                            |k: int| be32(data@, pos + 4 + 4 * k) as u32,
                        ));
                    }
                    i = i + 1;
                }
                Ok((Tag::IntArray(out), pos + 4 + (n as usize) * 4))
            } else {
                Err(DecodeError::Truncated)
            }
        } else {
            Err(DecodeError::Truncated)
        }
    } else if code == 12 {
        if rem >= 4 {
            let n = read_be32(data, pos);
            if ((len - (pos + 4)) as u64) >= (n as u64) * 8 {
                let mut out: Vec<u64> = Vec::new();
                let mut i: u32 = 0;
                while i < n
                    invariant
                        i <= n,
                        len == data@.len(),
                        pos + 4 + 8 * (n as int) <= data@.len(),
                        out@ =~= Seq::new(i as nat, |k: int| be64(data@, pos + 4 + 8 * k) as u64),
                    decreases n - i,
                {
                    out.push(read_be64(data, pos + 4 + (i as usize) * 8));
                    proof {
                        assert(out@ =~= Seq::new(
                            (i + 1) as nat,
                            |k: int| be64(data@, pos + 4 + 8 * k) as u64,
                        ));
                    }
                    i = i + 1;
                }
                Ok((Tag::LongArray(out), pos + 4 + (n as usize) * 8))
            } else {
                Err(DecodeError::Truncated)
            }
        } else {
            Err(DecodeError::Truncated)
        }
    } else {
        Err(DecodeError::BadTypeCode)
    }
}

/// Materialize `count` consecutive payloads of type `ec`, which is not End.
fn read_tag_list_at(data: &Vec<u8>, pos: usize, ec: u8, count: u32) -> (r: Result<
    (Vec<Tag>, usize),
    DecodeError,
>)
    requires
        pos <= data@.len(),
        ec != 0,
    ensures
        match r {
            Ok((elems, end)) => parse_list(data@, pos as int, ec, count as int) == Some(
                (tags_v(elems@), end as int),
            ) && pos <= end <= data@.len(),
            Err(_) => parse_list(data@, pos as int, ec, count as int) is None,
        },
    decreases data@.len() - pos, count, 0nat,
{
    if count == 0 {
        let elems: Vec<Tag> = Vec::new();
        proof {
            assert(tags_v(elems@) =~= Seq::<TagV>::empty());
        }
        Ok((elems, pos))
    } else {
        match read_tag_at(data, pos, ec) {
            Err(e) => Err(e),
            Ok((t, p2)) => {
                match read_tag_list_at(data, p2, ec, count - 1) {
                    Err(e) => Err(e),
                    Ok((mut rest, end)) => {
                        rest.insert(0, t);
                        proof {
                            assert(tags_v(rest@) =~= seq![tag_v(t)] + tags_v(
                                rest@.drop_first(),
                            ));
                        }
                        Ok((rest, end))
                    },
                }
            },
        }
    }
}

/// Materialize the named children of a compound payload up to and including
/// its closing End tag.
fn read_tag_compound_at(data: &Vec<u8>, pos: usize) -> (r: Result<
    (Vec<(Vec<u8>, Tag)>, usize),
    DecodeError,
>)
    requires
        pos <= data@.len(),
    ensures
        match r {
            Ok((entries, end)) => parse_compound(data@, pos as int) == Some(
                (entries_v(entries@), end as int),
            ) && pos < end <= data@.len(),
            Err(_) => parse_compound(data@, pos as int) is None,
        },
    decreases data@.len() - pos, 0nat, 0nat,
{
    let len = data.len();
    if pos >= len {
        return Err(DecodeError::Truncated);
    }
    let c = data[pos];
    if c == 0 {
        let entries: Vec<(Vec<u8>, Tag)> = Vec::new();
        proof {
            assert(entries_v(entries@) =~= Seq::<(Seq<u8>, TagV)>::empty());
        }
        return Ok((entries, pos + 1));
    }
    if len - pos < 3 {
        return Err(DecodeError::Truncated);
    }
    let nlen = read_be16(data, pos + 1) as usize;
    if len - (pos + 3) < nlen {
        return Err(DecodeError::Truncated);
    }
    let name = read_bytes_at(data, pos + 3, nlen);
    let p1 = pos + 3 + nlen;
    match read_tag_at(data, p1, c) {
        Err(e) => Err(e),
        Ok((t, p2)) => {
            match read_tag_compound_at(data, p2) {
                Err(e) => Err(e),
                Ok((mut rest, end)) => {
                    rest.insert(0, (name, t));
                    proof {
                        assert(entries_v(rest@) =~= seq![(rest@[0].0@, tag_v(rest@[0].1))]
                            + entries_v(rest@.drop_first()));
                    }
                    Ok((rest, end))
                },
            }
        },
    }
}

/// Scan the named children of a compound payload and keep only those whose
/// names are in `names`, each recursively materialized; everything else is
/// skipped. Yields the kept entries in encounter order and the position just
/// past the closing End tag.
pub open spec fn materialize_spec(data: Seq<u8>, pos: int, names: Seq<Seq<u8>>) -> Option<
    (Seq<(Seq<u8>, TagV)>, int),
>
    decreases data.len() - pos,
{
    match parse_header(data, pos) {
        None => None,
        Some((c, nm, p1)) => {
            if c == 0 {
                Some((Seq::empty(), p1))
            } else if pos < p1 <= data.len() {
                match parse_payload(data, p1, c) {
                    None => None,
                    Some((v, p2)) => {
                        if pos < p2 <= data.len() {
                            match materialize_spec(data, p2, names) {
                                None => None,
                                Some((rest, end)) => Some(
                                    (
                                        if name_index(names, nm) is Some {
                                            seq![(nm, v)] + rest
                                        } else {
                                            rest
                                        },
                                        end,
                                    ),
                                ),
                            }
                        } else {
                            None
                        }
                    },
                }
            } else {
                None
            }
        },
    }
}

/// Materialize the children of a compound payload whose names are in
/// `names`, skipping all others, up to and including the closing End tag.
fn read_entries_at(data: &Vec<u8>, pos: usize, names: &Vec<Vec<u8>>) -> (r: Result<
    (Vec<(Vec<u8>, Tag)>, usize),
    DecodeError,
>)
    requires
        pos <= data@.len(),
    ensures
        match r {
            Ok((entries, end)) => materialize_spec(data@, pos as int, names_v(names@)) == Some(
                (entries_v(entries@), end as int),
            ) && pos < end <= data@.len(),
            Err(_) => materialize_spec(data@, pos as int, names_v(names@)) is None,
        },
    decreases data@.len() - pos,
{
    let len = data.len();
    if pos >= len {
        return Err(DecodeError::Truncated);
    }
    let c = data[pos];
    if c == 0 {
        let entries: Vec<(Vec<u8>, Tag)> = Vec::new();
        proof {
            assert(entries_v(entries@) =~= Seq::<(Seq<u8>, TagV)>::empty());
        }
        return Ok((entries, pos + 1));
    }
    if len - pos < 3 {
        return Err(DecodeError::Truncated);
    }
    let nlen = read_be16(data, pos + 1) as usize;
    if len - (pos + 3) < nlen {
        return Err(DecodeError::Truncated);
    }
    let name = read_bytes_at(data, pos + 3, nlen);
    let p1 = pos + 3 + nlen;
    let wanted = find_name(names, &name);
    if wanted.is_some() {
        match read_tag_at(data, p1, c) {
            Err(e) => Err(e),
            Ok((t, p2)) => {
                match read_entries_at(data, p2, names) {
                    Err(e) => Err(e),
                    Ok((mut rest, end)) => {
                        rest.insert(0, (name, t));
                        proof {
                            assert(entries_v(rest@) =~= seq![(rest@[0].0@, tag_v(rest@[0].1))]
                                + entries_v(rest@.drop_first()));
                        }
                        Ok((rest, end))
                    },
                }
            },
        }
    } else {
        match skip_payload_at(data, p1, c) {
            Err(e) => Err(e),
            Ok(p2) => read_entries_at(data, p2, names),
        }
    }
}

/// The value of the last child named `name`, as a later child of a compound
/// overrides an earlier one of the same name.
pub open spec fn lookup(entries: Seq<(Seq<u8>, TagV)>, name: Seq<u8>) -> Option<TagV>
    decreases entries.len(),
{
    if entries.len() == 0 {
        None
    } else if entries.last().0 == name {
        Some(entries.last().1)
    } else {
        lookup(entries.drop_last(), name)
    }
}

/// Fetch the last materialized entry named `name`.
pub fn compound_get<'a>(entries: &'a Vec<(Vec<u8>, Tag)>, name: &Vec<u8>) -> (r: Option<&'a Tag>)
    ensures
        match r {
            Some(t) => lookup(entries_v(entries@), name@) == Some(tag_v(*t)),
            None => lookup(entries_v(entries@), name@) is None,
        },
{
    let mut i = entries.len();
    proof {
        assert(entries_v(entries@).take(entries@.len() as int) =~= entries_v(entries@));
    }
    while i > 0
        invariant
            i <= entries@.len(),
            lookup(entries_v(entries@), name@) == lookup(
                entries_v(entries@).take(i as int),
                name@,
            ),
        decreases i,
    {
        let e = &entries[i - 1];
        let hit = bytes_eq(&e.0, name);
        proof {
            let ev = entries_v(entries@);
            assert(ev.take(i as int).last() == ev[i - 1]);
            assert(ev.take(i as int).drop_last() =~= ev.take(i - 1));
        }
        if hit {
            return Some(&e.1);
        }
        i = i - 1;
    }
    None
}

impl Tag {
    /// The byte behind a Byte tag.
    pub fn to_u8(&self) -> (r: Result<u8, DecodeError>)
        ensures
            match r {
                Ok(b) => *self == Tag::Byte(b),
                Err(e) => !(self is Byte) && e == DecodeError::WrongTagType,
            },
    {
        match self {
            Tag::Byte(b) => Ok(*b),
            _ => Err(DecodeError::WrongTagType),
        }
    }

    /// The elements behind a List tag.
    pub fn to_list(&self) -> (r: Result<&Vec<Tag>, DecodeError>)
        ensures
            match r {
                Ok(elems) => self matches Tag::List(_, e2) && e2 == *elems,
                Err(e) => !(self is List) && e == DecodeError::WrongTagType,
            },
    {
        match self {
            Tag::List(_, elems) => Ok(elems),
            _ => Err(DecodeError::WrongTagType),
        }
    }

    /// The named children behind a Compound tag.
    pub fn to_compound(&self) -> (r: Result<&Vec<(Vec<u8>, Tag)>, DecodeError>)
        ensures
            match r {
                Ok(entries) => self matches Tag::Compound(e2) && e2 == *entries,
                Err(e) => !(self is Compound) && e == DecodeError::WrongTagType,
            },
    {
        match self {
            Tag::Compound(entries) => Ok(entries),
            _ => Err(DecodeError::WrongTagType),
        }
    }

    /// The bytes behind a String tag.
    pub fn to_str(&self) -> (r: Result<&Vec<u8>, DecodeError>)
        ensures
            match r {
                Ok(bytes) => self matches Tag::Str(b2) && b2 == *bytes,
                Err(e) => !(self is Str) && e == DecodeError::WrongTagType,
            },
    {
        match self {
            Tag::Str(bytes) => Ok(bytes),
            _ => Err(DecodeError::WrongTagType),
        }
    }

    /// The bytes behind a ByteArray tag.
    pub fn to_u8_array(&self) -> (r: Result<&Vec<u8>, DecodeError>)
        ensures
            match r {
                Ok(bytes) => self matches Tag::ByteArray(b2) && b2 == *bytes,
                Err(e) => !(self is ByteArray) && e == DecodeError::WrongTagType,
            },
    {
        match self {
            Tag::ByteArray(bytes) => Ok(bytes),
            _ => Err(DecodeError::WrongTagType),
        }
    }

    /// The words behind a LongArray tag.
    pub fn to_long_array(&self) -> (r: Result<&Vec<u64>, DecodeError>)
        ensures
            match r {
                Ok(words) => self matches Tag::LongArray(w2) && w2 == *words,
                Err(e) => !(self is LongArray) && e == DecodeError::WrongTagType,
            },
    {
        match self {
            Tag::LongArray(words) => Ok(words),
            _ => Err(DecodeError::WrongTagType),
        }
    }
}

/// A cursor over an already-decompressed tagged-tree byte buffer.
pub struct TagReader {
    pub data: Vec<u8>,
    pub pos: usize,
}

impl TagReader {
    /// The cursor never passes the end of the buffer.
    pub open spec fn wf(self) -> bool {
        self.pos <= self.data@.len()
    }

    /// A reader positioned at the start of the buffer.
    pub fn new(data: Vec<u8>) -> (r: TagReader)
        ensures
            r.data == data,
            r.pos == 0,
            r.wf(),
    {
        TagReader { data, pos: 0 }
    }

    /// Read a tag header at the cursor: the type code and the name. An End
    /// header yields an empty name. Used once for the root tag of a
    /// decompressed payload.
    pub fn read_tag_header(&mut self) -> (r: Result<(u8, Vec<u8>), DecodeError>)
        requires
            old(self).wf(),
        ensures
            final(self).data == old(self).data,
            final(self).wf(),
            match r {
                Ok((c, name)) => parse_header(old(self).data@, old(self).pos as int) == Some(
                    (c, name@, final(self).pos as int),
                ),
                Err(_) => parse_header(old(self).data@, old(self).pos as int) is None
                    && final(self).pos == old(self).pos,
            },
    {
        let len = self.data.len();
        let pos = self.pos;
        if pos >= len {
            return Err(DecodeError::Truncated);
        }
        let c = self.data[pos];
        if c == 0 {
            self.pos = pos + 1;
            let empty_name: Vec<u8> = Vec::new();
            proof {
                assert(empty_name@ =~= Seq::<u8>::empty());
            }
            return Ok((0, empty_name));
        }
        if len - pos < 3 {
            return Err(DecodeError::Truncated);
        }
        let nlen = read_be16(&self.data, pos + 1) as usize;
        if len - (pos + 3) < nlen {
            return Err(DecodeError::Truncated);
        }
        let name = read_bytes_at(&self.data, pos + 3, nlen);
        self.pos = pos + 3 + nlen;
        Ok((c, name))
    }

    /// Skip the payload of type `code` at the cursor without materializing
    /// it. Succeeds exactly when the payload is well formed, leaving the
    /// cursor just past it.
    pub fn skip_payload(&mut self, code: u8) -> (r: Result<(), DecodeError>)
        requires
            old(self).wf(),
        ensures
            final(self).data == old(self).data,
            final(self).wf(),
            match r {
                Ok(()) => parse_payload(old(self).data@, old(self).pos as int, code) is Some
                    && parse_payload(old(self).data@, old(self).pos as int, code)->Some_0.1
                    == final(self).pos as int,
                Err(_) => parse_payload(old(self).data@, old(self).pos as int, code) is None
                    && final(self).pos == old(self).pos,
            },
    {
        match skip_payload_at(&self.data, self.pos, code) {
            Ok(p2) => {
                self.pos = p2;
                Ok(())
            },
            Err(e) => Err(e),
        }
    }

    /// Scan sibling headers at the cursor for a tag with the given name,
    /// skipping the payload of every other tag, until the enclosing
    /// compound's End tag. Yields the matched tag's type code with the
    /// cursor at its payload, or `None` with the cursor past the End tag.
    pub fn seek_compound_tag_name(&mut self, name: &Vec<u8>) -> (r: Result<
        Option<u8>,
        DecodeError,
    >)
        requires
            old(self).wf(),
        ensures
            final(self).data == old(self).data,
            final(self).wf(),
            match r {
                Ok(hit) => match hit {
                    Some(c) => seek_spec(old(self).data@, old(self).pos as int, seq![name@])
                        == Some(Seek::Found { idx: 0, code: c, at: final(self).pos as int }),
                    None => seek_spec(old(self).data@, old(self).pos as int, seq![name@]) == Some(
                        Seek::Absent { end: final(self).pos as int },
                    ),
                },
                Err(_) => seek_spec(old(self).data@, old(self).pos as int, seq![name@]) is None,
            },
    {
        let mut names: Vec<Vec<u8>> = Vec::new();
        names.push(vstd::slice::slice_to_vec(name.as_slice()));
        proof {
            assert(names_v(names@) =~= seq![name@]);
        }
        match seek_at(&self.data, self.pos, &names) {
            Err(e) => Err(e),
            Ok((hit, p)) => {
                self.pos = p;
                match hit {
                    Some((_, c)) => Ok(Some(c)),
                    None => Ok(None),
                }
            },
        }
    }

    /// Like `seek_compound_tag_name` with a set of names: the first sibling
    /// named by any of `names` matches, and its index in `names` is yielded
    /// together with its type code, so the caller can branch on which one
    /// was found and check its shape.
    #[verifier::rlimit(30)]
    pub fn seek_compound_tag_names(&mut self, names: &Vec<Vec<u8>>) -> (r: Result<
        Option<(usize, u8)>,
        DecodeError,
    >)
        requires
            old(self).wf(),
        ensures
            final(self).data == old(self).data,
            final(self).wf(),
            match r {
                Ok(hit) => match hit {
                    Some((i, c)) => i < names@.len() && seek_spec(
                        old(self).data@,
                        old(self).pos as int,
                        names_v(names@),
                    ) == Some(Seek::Found { idx: i as int, code: c, at: final(self).pos as int }),
                    None => seek_spec(old(self).data@, old(self).pos as int, names_v(names@))
                        == Some(Seek::Absent { end: final(self).pos as int }),
                },
                Err(_) => seek_spec(old(self).data@, old(self).pos as int, names_v(names@)) is None,
            },
    {
        match seek_at(&self.data, self.pos, names) {
            Err(e) => Err(e),
            Ok((hit, p)) => {
                self.pos = p;
                Ok(hit)
            },
        }
    }

    /// Materialize the children named in `names` of the compound payload at
    /// the cursor, skipping all others; the cursor ends past the closing End
    /// tag. Later duplicates of a name are kept in order; `compound_get`
    /// yields the last one, as a later child overrides an earlier one.
    pub fn read_compound_tag_names(&mut self, names: &Vec<Vec<u8>>) -> (r: Result<
        Vec<(Vec<u8>, Tag)>,
        DecodeError,
    >)
        requires
            old(self).wf(),
        ensures
            final(self).data == old(self).data,
            final(self).wf(),
            match r {
                Ok(entries) => materialize_spec(
                    old(self).data@,
                    old(self).pos as int,
                    names_v(names@),
                ) == Some((entries_v(entries@), final(self).pos as int)),
                Err(_) => materialize_spec(
                    old(self).data@,
                    old(self).pos as int,
                    names_v(names@),
                ) is None,
            },
    {
        match read_entries_at(&self.data, self.pos, names) {
            Err(e) => Err(e),
            Ok((entries, end)) => {
                self.pos = end;
                Ok(entries)
            },
        }
    }

    /// Read the element count of a List payload at the cursor, consuming
    /// the element type code and the count; the cursor ends at the first
    /// element.
    pub fn read_list_length(&mut self) -> (r: Result<u32, DecodeError>)
        requires
            old(self).wf(),
        ensures
            final(self).data == old(self).data,
            final(self).wf(),
            match r {
                Ok(n) => old(self).pos + 5 <= old(self).data@.len() && n == be32(
                    old(self).data@,
                    old(self).pos + 1,
                ) && final(self).pos == old(self).pos + 5,
                Err(_) => old(self).pos + 5 > old(self).data@.len()
                    && final(self).pos == old(self).pos,
            },
    {
        let len = self.data.len();
        if len - self.pos < 5 {
            return Err(DecodeError::Truncated);
        }
        let n = read_be32(&self.data, self.pos + 1);
        self.pos = self.pos + 5;
        Ok(n)
    }

    /// Read a LongArray payload at the cursor: a count then that many
    /// big-endian 64-bit words.
    pub fn read_long_array(&mut self) -> (r: Result<Vec<u64>, DecodeError>)
        requires
            old(self).wf(),
        ensures
            final(self).data == old(self).data,
            final(self).wf(),
            match r {
                Ok(words) => parse_payload(old(self).data@, old(self).pos as int, 12u8) == Some(
                    (TagV::LongArray(words@), final(self).pos as int),
                ),
                Err(_) => parse_payload(old(self).data@, old(self).pos as int, 12u8) is None,
            },
    {
        match read_tag_at(&self.data, self.pos, 12) {
            Err(e) => Err(e),
            Ok((t, p2)) => {
                match t {
                    Tag::LongArray(words) => {
                        self.pos = p2;
                        Ok(words)
                    },
                    _ => Err(DecodeError::WrongTagType),
                }
            },
        }
    }

    /// Read a ByteArray payload at the cursor: a count then that many bytes.
    pub fn read_u8_array(&mut self) -> (r: Result<Vec<u8>, DecodeError>)
        requires
            old(self).wf(),
        ensures
            final(self).data == old(self).data,
            final(self).wf(),
            match r {
                Ok(bytes) => parse_payload(old(self).data@, old(self).pos as int, 7u8) == Some(
                    (TagV::ByteArray(bytes@), final(self).pos as int),
                ),
                Err(_) => parse_payload(old(self).data@, old(self).pos as int, 7u8) is None,
            },
    {
        match read_tag_at(&self.data, self.pos, 7) {
            Err(e) => Err(e),
            Ok((t, p2)) => {
                match t {
                    Tag::ByteArray(bytes) => {
                        self.pos = p2;
                        Ok(bytes)
                    },
                    _ => Err(DecodeError::WrongTagType),
                }
            },
        }
    }
}

/// A defined seek ends strictly past its start, within the data.
pub proof fn lemma_seek_bounds(data: Seq<u8>, pos: int, names: Seq<Seq<u8>>)
    requires
        seek_spec(data, pos, names) is Some,
    ensures
        match seek_spec(data, pos, names) {
            Some(Seek::Found { at, .. }) => pos < at <= data.len(),
            Some(Seek::Absent { end }) => pos < end <= data.len(),
            None => false,
        },
    decreases data.len() - pos,
{
    let (c, nm, p1) = parse_header(data, pos)->Some_0;
    if c != 0 && name_index(names, nm) is None {
        let (v, p2) = parse_payload(data, p1, c)->Some_0;
        lemma_seek_bounds(data, p2, names);
    }
}

/// A defined selective materialization ends strictly past its start, within
/// the data.
pub proof fn lemma_materialize_bounds(data: Seq<u8>, pos: int, names: Seq<Seq<u8>>)
    requires
        materialize_spec(data, pos, names) is Some,
    ensures
        pos < materialize_spec(data, pos, names)->Some_0.1 <= data.len(),
    decreases data.len() - pos,
{
    let (c, nm, p1) = parse_header(data, pos)->Some_0;
    if c != 0 {
        let (v, p2) = parse_payload(data, p1, c)->Some_0;
        lemma_materialize_bounds(data, p2, names);
    }
}


/// The type code of an abstract tag value.
pub open spec fn code_of(t: TagV) -> u8 {
    match t {
        TagV::End => 0,
        TagV::Byte(_) => 1,
        TagV::Short(_) => 2,
        TagV::Int(_) => 3,
        TagV::Long(_) => 4,
        TagV::Float(_) => 5,
        TagV::Double(_) => 6,
        TagV::ByteArray(_) => 7,
        TagV::Str(_) => 8,
        TagV::List(_, _) => 9,
        TagV::Compound(_) => 10,
        TagV::IntArray(_) => 11,
        TagV::LongArray(_) => 12,
    }
}

/// The two big-endian bytes of a 16-bit value.
pub open spec fn enc_u16v(v: int) -> Seq<u8> {
    seq![((v / 0x100) % 0x100) as u8, (v % 0x100) as u8]
}

/// The four big-endian bytes of a 32-bit value.
pub open spec fn enc_u32v(v: int) -> Seq<u8> {
    seq![
        ((v / 0x100_0000) % 0x100) as u8,
        ((v / 0x1_0000) % 0x100) as u8,
        ((v / 0x100) % 0x100) as u8,
        (v % 0x100) as u8,
    ]
}

/// The eight big-endian bytes of a 64-bit value.
pub open spec fn enc_u64v(v: int) -> Seq<u8> {
    enc_u32v(v / 0x1_0000_0000) + enc_u32v(v % 0x1_0000_0000)
}

/// The flat big-endian bytes of a 32-bit word array.
pub open spec fn int_array_bytes(vs: Seq<u32>) -> Seq<u8> {
    Seq::new(4 * vs.len(), |b: int| enc_u32v(vs[b / 4] as int)[b % 4])
}

/// The flat big-endian bytes of a 64-bit word array.
pub open spec fn long_array_bytes(vs: Seq<u64>) -> Seq<u8> {
    Seq::new(8 * vs.len(), |b: int| enc_u64v(vs[b / 8] as int)[b % 8])
}

/// The payload encoding of an abstract tag value.
pub open spec fn enc_payload(t: TagV) -> Seq<u8>
    decreases t, 0nat,
{
    match t {
        TagV::End => Seq::empty(),
        TagV::Byte(b) => seq![b],
        TagV::Short(v) => enc_u16v(v as int),
        TagV::Int(v) => enc_u32v(v as int),
        TagV::Long(v) => enc_u64v(v as int),
        TagV::Float(v) => enc_u32v(v as int),
        TagV::Double(v) => enc_u64v(v as int),
        TagV::ByteArray(s) => enc_u32v(s.len() as int) + s,
        TagV::Str(s) => enc_u16v(s.len() as int) + s,
        TagV::List(ec, elems) => seq![ec] + enc_u32v(elems.len() as int) + enc_elems(elems),
        TagV::Compound(es) => enc_entries(es) + seq![0u8],
        TagV::IntArray(vs) => enc_u32v(vs.len() as int) + int_array_bytes(vs),
        TagV::LongArray(vs) => enc_u32v(vs.len() as int) + long_array_bytes(vs),
    }
}

/// The encoding of consecutive list elements.
pub open spec fn enc_elems(elems: Seq<TagV>) -> Seq<u8>
    decreases elems, 1nat,
{
    if elems.len() == 0 {
        Seq::empty()
    } else {
        enc_payload(elems.first()) + enc_elems(elems.drop_first())
    }
}

/// The encoding of a compound's named children, without the closing End.
pub open spec fn enc_entries(es: Seq<(Seq<u8>, TagV)>) -> Seq<u8>
    decreases es, 1nat,
{
    if es.len() == 0 {
        Seq::empty()
    } else {
        let (name, v) = es.first();
        seq![code_of(v)] + enc_u16v(name.len() as int) + name + enc_payload(v) + enc_entries(
            es.drop_first(),
        )
    }
}

/// A value whose encoding parses back: its length fields fit their widths,
/// list elements share the list's element code, and compound children are
/// not End tags and have names that fit.
pub open spec fn enc_wf(t: TagV) -> bool
    decreases t, 0nat,
{
    match t {
        TagV::End => true,
        TagV::Byte(_) => true,
        TagV::Short(_) => true,
        TagV::Int(_) => true,
        TagV::Long(_) => true,
        TagV::Float(_) => true,
        TagV::Double(_) => true,
        TagV::ByteArray(s) => s.len() < 0x1_0000_0000,
        TagV::Str(s) => s.len() < 0x1_0000,
        TagV::List(ec, elems) => elems.len() < 0x1_0000_0000 && elems_wf(ec, elems),
        TagV::Compound(es) => entries_wf(es),
        TagV::IntArray(vs) => vs.len() < 0x1_0000_0000,
        TagV::LongArray(vs) => vs.len() < 0x1_0000_0000,
    }
}

/// Well-formed list elements: each has the list's element code.
pub open spec fn elems_wf(ec: u8, elems: Seq<TagV>) -> bool
    decreases elems, 1nat,
{
    if elems.len() == 0 {
        true
    } else {
        code_of(elems.first()) == ec && enc_wf(elems.first()) && elems_wf(
            ec,
            elems.drop_first(),
        )
    }
}

/// Well-formed compound children: no End entries, names that fit.
pub open spec fn entries_wf(es: Seq<(Seq<u8>, TagV)>) -> bool
    decreases es, 1nat,
{
    if es.len() == 0 {
        true
    } else {
        let (name, v) = es.first();
        code_of(v) != 0 && name.len() < 0x1_0000 && enc_wf(v) && entries_wf(es.drop_first())
    }
}

/// The big-endian bytes of a 16-bit value read back to it.
proof fn lemma_be16_enc(data: Seq<u8>, pos: int, v: int)
    requires
        0 <= v < 0x1_0000,
        0 <= pos,
        pos + 2 <= data.len(),
        data.subrange(pos, pos + 2) == enc_u16v(v),
    ensures
        be16(data, pos) == v,
{
    assert(data[pos] == enc_u16v(v)[0] && data[pos + 1] == enc_u16v(v)[1]) by {
        assert(data.subrange(pos, pos + 2)[0] == data[pos]);
        assert(data.subrange(pos, pos + 2)[1] == data[pos + 1]);
    }
    assert(((v / 0x100) % 0x100) * 0x100 + v % 0x100 == v) by (nonlinear_arith)
        requires 0 <= v < 0x1_0000;
}

/// The big-endian bytes of a 32-bit value read back to it.
proof fn lemma_be32_enc(data: Seq<u8>, pos: int, v: int)
    requires
        0 <= v < 0x1_0000_0000,
        0 <= pos,
        pos + 4 <= data.len(),
        data.subrange(pos, pos + 4) == enc_u32v(v),
    ensures
        be32(data, pos) == v,
{
    assert(data[pos] == enc_u32v(v)[0] && data[pos + 1] == enc_u32v(v)[1] && data[pos + 2]
        == enc_u32v(v)[2] && data[pos + 3] == enc_u32v(v)[3]) by {
        assert(data.subrange(pos, pos + 4)[0] == data[pos]);
        assert(data.subrange(pos, pos + 4)[1] == data[pos + 1]);
        assert(data.subrange(pos, pos + 4)[2] == data[pos + 2]);
        assert(data.subrange(pos, pos + 4)[3] == data[pos + 3]);
    }
    assert(((v / 0x100_0000) % 0x100) * 0x100_0000 + ((v / 0x1_0000) % 0x100) * 0x1_0000 + ((v
        / 0x100) % 0x100) * 0x100 + v % 0x100 == v) by (nonlinear_arith)
        requires 0 <= v < 0x1_0000_0000;
}

/// The big-endian bytes of a 64-bit value read back to it.
proof fn lemma_be64_enc(data: Seq<u8>, pos: int, v: int)
    requires
        0 <= v < 0x1_0000_0000_0000_0000,
        0 <= pos,
        pos + 8 <= data.len(),
        data.subrange(pos, pos + 8) == enc_u64v(v),
    ensures
        be64(data, pos) == v,
{
    let hi = v / 0x1_0000_0000;
    let lo = v % 0x1_0000_0000;
    assert(data.subrange(pos, pos + 4) =~= enc_u32v(hi)) by {
        assert forall|i: int| 0 <= i < 4 implies data.subrange(pos, pos + 4)[i] == enc_u32v(hi)[i]
            by {
            assert(data.subrange(pos, pos + 8)[i] == data[pos + i]);
        }
    }
    assert(data.subrange(pos + 4, pos + 8) =~= enc_u32v(lo)) by {
        assert forall|i: int| 0 <= i < 4 implies data.subrange(pos + 4, pos + 8)[i] == enc_u32v(
            lo,
        )[i] by {
            assert(data.subrange(pos, pos + 8)[i + 4] == data[pos + 4 + i]);
        }
    }
    assert(0 <= hi < 0x1_0000_0000) by (nonlinear_arith)
        requires 0 <= v < 0x1_0000_0000_0000_0000, hi == v / 0x1_0000_0000;
    vstd::arithmetic::div_mod::lemma_mod_bound(v, 0x1_0000_0000);
    lemma_be32_enc(data, pos, hi);
    lemma_be32_enc(data, pos + 4, lo);
    vstd::arithmetic::div_mod::lemma_fundamental_div_mod(v, 0x1_0000_0000);
}

/// A well-formed value's encoding parses back to the value, consuming
/// exactly its bytes: skipping an encoded value never under- or
/// over-consumes.
#[verifier::spinoff_prover]
pub proof fn lemma_enc_parses(data: Seq<u8>, pos: int, t: TagV)
    requires
        enc_wf(t),
        0 <= pos,
        pos + enc_payload(t).len() <= data.len(),
        data.subrange(pos, pos + enc_payload(t).len()) == enc_payload(t),
    ensures
        parse_payload(data, pos, code_of(t)) == Some((t, pos + enc_payload(t).len())),
    decreases t, 0nat,
{
    let e = enc_payload(t);
    match t {
        TagV::End => {},
        TagV::Byte(b) => {
            assert(data.subrange(pos, pos + 1)[0] == data[pos]);
        },
        TagV::Short(v) => {
            lemma_be16_enc(data, pos, v as int);
        },
        TagV::Int(v) => {
            lemma_be32_enc(data, pos, v as int);
        },
        TagV::Long(v) => {
            lemma_be64_enc(data, pos, v as int);
        },
        TagV::Float(v) => {
            lemma_be32_enc(data, pos, v as int);
        },
        TagV::Double(v) => {
            lemma_be64_enc(data, pos, v as int);
        },
        TagV::ByteArray(s) => {
            let n = s.len() as int;
            assert(data.subrange(pos, pos + 4) =~= enc_u32v(n)) by {
                assert forall|i: int| 0 <= i < 4 implies data.subrange(pos, pos + 4)[i]
                    == enc_u32v(n)[i] by {
                    assert(e[i] == enc_u32v(n)[i]);
                    assert(data.subrange(pos, pos + e.len())[i] == data[pos + i]);
                }
            }
            lemma_be32_enc(data, pos, n);
            assert(data.subrange(pos + 4, pos + 4 + n) =~= s) by {
                assert forall|i: int| 0 <= i < n implies data.subrange(pos + 4, pos + 4 + n)[i]
                    == s[i] by {
                    assert(data.subrange(pos, pos + e.len())[4 + i] == data[pos + 4 + i]);
                    assert(e[4 + i] == s[i]);
                }
            }
        },
        TagV::Str(s) => {
            let n = s.len() as int;
            assert(data.subrange(pos, pos + 2) =~= enc_u16v(n)) by {
                assert forall|i: int| 0 <= i < 2 implies data.subrange(pos, pos + 2)[i]
                    == enc_u16v(n)[i] by {
                    assert(e[i] == enc_u16v(n)[i]);
                    assert(data.subrange(pos, pos + e.len())[i] == data[pos + i]);
                }
            }
            lemma_be16_enc(data, pos, n);
            assert(data.subrange(pos + 2, pos + 2 + n) =~= s) by {
                assert forall|i: int| 0 <= i < n implies data.subrange(pos + 2, pos + 2 + n)[i]
                    == s[i] by {
                    assert(data.subrange(pos, pos + e.len())[2 + i] == data[pos + 2 + i]);
                    assert(e[2 + i] == s[i]);
                }
            }
        },
        TagV::List(ec, elems) => {
            let n = elems.len() as int;
            assert(data[pos] == ec) by {
                assert(data.subrange(pos, pos + e.len())[0] == data[pos]);
                assert(e[0] == ec);
            }
            assert(data.subrange(pos + 1, pos + 5) =~= enc_u32v(n)) by {
                assert forall|i: int| 0 <= i < 4 implies data.subrange(pos + 1, pos + 5)[i]
                    == enc_u32v(n)[i] by {
                    assert(data.subrange(pos, pos + e.len())[1 + i] == data[pos + 1 + i]);
                    assert(e[1 + i] == enc_u32v(n)[i]);
                }
            }
            lemma_be32_enc(data, pos + 1, n);
            assert(data.subrange(pos + 5, pos + 5 + enc_elems(elems).len()) =~= enc_elems(elems))
                by {
                assert forall|i: int|
                    0 <= i < enc_elems(elems).len() implies data.subrange(
                    pos + 5,
                    pos + 5 + enc_elems(elems).len(),
                )[i] == enc_elems(elems)[i] by {
                    assert(data.subrange(pos, pos + e.len())[5 + i] == data[pos + 5 + i]);
                    assert(e[5 + i] == enc_elems(elems)[i]);
                }
            }
            lemma_enc_list_parses(data, pos + 5, ec, elems);
        },
        TagV::Compound(es) => {
            assert(data.subrange(pos, pos + e.len()) == e);
            lemma_enc_compound_parses(data, pos, es);
        },
        TagV::IntArray(vs) => {
            let n = vs.len() as int;
            assert(data.subrange(pos, pos + 4) =~= enc_u32v(n)) by {
                assert forall|i: int| 0 <= i < 4 implies data.subrange(pos, pos + 4)[i]
                    == enc_u32v(n)[i] by {
                    assert(data.subrange(pos, pos + e.len())[i] == data[pos + i]);
                    assert(e[i] == enc_u32v(n)[i]);
                }
            }
            lemma_be32_enc(data, pos, n);
            let parsed = Seq::new(n as nat, |i: int| be32(data, pos + 4 + 4 * i) as u32);
            assert(parsed =~= vs) by {
                assert forall|i: int| 0 <= i < n implies parsed[i] == vs[i] by {
                    assert(data.subrange(pos + 4 + 4 * i, pos + 4 + 4 * i + 4) =~= enc_u32v(
                        vs[i] as int,
                    )) by {
                        assert forall|j: int|
                            0 <= j < 4 implies data.subrange(
                            pos + 4 + 4 * i,
                            pos + 4 + 4 * i + 4,
                        )[j] == enc_u32v(vs[i] as int)[j] by {
                            let b = 4 * i + j;
                            assert(data.subrange(pos, pos + e.len())[4 + b] == data[pos + 4 + b]);
                            assert(e[4 + b] == int_array_bytes(vs)[b]);
                            assert(b / 4 == i && b % 4 == j) by (nonlinear_arith)
                                requires b == 4 * i + j, 0 <= j < 4;
                        }
                    }
                    lemma_be32_enc(data, pos + 4 + 4 * i, vs[i] as int);
                }
            }
        },
        TagV::LongArray(vs) => {
            let n = vs.len() as int;
            assert(data.subrange(pos, pos + 4) =~= enc_u32v(n)) by {
                assert forall|i: int| 0 <= i < 4 implies data.subrange(pos, pos + 4)[i]
                    == enc_u32v(n)[i] by {
                    assert(data.subrange(pos, pos + e.len())[i] == data[pos + i]);
                    assert(e[i] == enc_u32v(n)[i]);
                }
            }
            lemma_be32_enc(data, pos, n);
            let parsed = Seq::new(n as nat, |i: int| be64(data, pos + 4 + 8 * i) as u64);
            assert(parsed =~= vs) by {
                assert forall|i: int| 0 <= i < n implies parsed[i] == vs[i] by {
                    assert(data.subrange(pos + 4 + 8 * i, pos + 4 + 8 * i + 8) =~= enc_u64v(
                        vs[i] as int,
                    )) by {
                        assert forall|j: int|
                            0 <= j < 8 implies data.subrange(
                            pos + 4 + 8 * i,
                            pos + 4 + 8 * i + 8,
                        )[j] == enc_u64v(vs[i] as int)[j] by {
                            let b = 8 * i + j;
                            assert(data.subrange(pos, pos + e.len())[4 + b] == data[pos + 4 + b]);
                            assert(e[4 + b] == long_array_bytes(vs)[b]);
                            assert(b / 8 == i && b % 8 == j) by (nonlinear_arith)
                                requires b == 8 * i + j, 0 <= j < 8;
                        }
                    }
                    lemma_be64_enc(data, pos + 4 + 8 * i, vs[i] as int);
                }
            }
        },
    }
}

/// Encoded list elements parse back, element by element.
pub proof fn lemma_enc_list_parses(data: Seq<u8>, pos: int, ec: u8, elems: Seq<TagV>)
    requires
        elems_wf(ec, elems),
        0 <= pos,
        pos + enc_elems(elems).len() <= data.len(),
        data.subrange(pos, pos + enc_elems(elems).len()) == enc_elems(elems),
    ensures
        parse_list(data, pos, ec, elems.len() as int) == Some(
            (elems, pos + enc_elems(elems).len()),
        ),
    decreases elems, 1nat,
{
    if elems.len() == 0 {
        assert(enc_elems(elems).len() == 0);
    } else {
        let first = elems.first();
        let rest = elems.drop_first();
        let e0 = enc_payload(first);
        let er = enc_elems(rest);
        assert(enc_elems(elems) == e0 + er);
        assert(data.subrange(pos, pos + e0.len()) =~= e0) by {
            assert forall|i: int| 0 <= i < e0.len() implies data.subrange(pos, pos + e0.len())[i]
                == e0[i] by {
                assert(data.subrange(pos, pos + enc_elems(elems).len())[i] == data[pos + i]);
                assert((e0 + er)[i] == e0[i]);
            }
        }
        lemma_enc_parses(data, pos, first);
        let p2 = pos + e0.len();
        assert(data.subrange(p2, p2 + er.len()) =~= er) by {
            assert forall|i: int| 0 <= i < er.len() implies data.subrange(p2, p2 + er.len())[i]
                == er[i] by {
                assert(data.subrange(pos, pos + enc_elems(elems).len())[e0.len() + i] == data[p2
                    + i]);
                assert((e0 + er)[e0.len() + i] == er[i]);
            }
        }
        lemma_enc_list_parses(data, p2, ec, rest);
        assert(seq![first] + rest =~= elems);
    }
}

/// An encoded compound body parses back, child by child, up to its End tag.
pub proof fn lemma_enc_compound_parses(data: Seq<u8>, pos: int, es: Seq<(Seq<u8>, TagV)>)
    requires
        entries_wf(es),
        0 <= pos,
        pos + enc_entries(es).len() + 1 <= data.len(),
        data.subrange(pos, pos + enc_entries(es).len() + 1) == enc_entries(es) + seq![0u8],
    ensures
        parse_compound(data, pos) == Some((es, pos + enc_entries(es).len() + 1)),
    decreases es, 1nat,
{
    let whole = enc_entries(es) + seq![0u8];
    if es.len() == 0 {
        assert(data[pos] == 0) by {
            assert(data.subrange(pos, pos + 1)[0] == data[pos]);
            assert(whole[0] == 0u8);
        }
    } else {
        let (name, v) = es.first();
        let rest = es.drop_first();
        let c = code_of(v);
        let nl = name.len() as int;
        let header_len = 3 + nl;
        let e0 = enc_payload(v);
        assert(enc_entries(es) == seq![c] + enc_u16v(nl) + name + e0 + enc_entries(rest));
        assert(data[pos] == c) by {
            assert(data.subrange(pos, pos + whole.len())[0] == data[pos]);
            assert(whole[0] == c);
        }
        assert(data.subrange(pos + 1, pos + 3) =~= enc_u16v(nl)) by {
            assert forall|i: int| 0 <= i < 2 implies data.subrange(pos + 1, pos + 3)[i]
                == enc_u16v(nl)[i] by {
                assert(data.subrange(pos, pos + whole.len())[1 + i] == data[pos + 1 + i]);
                assert(whole[1 + i] == enc_u16v(nl)[i]);
            }
        }
        lemma_be16_enc(data, pos + 1, nl);
        assert(data.subrange(pos + 3, pos + 3 + nl) =~= name) by {
            assert forall|i: int| 0 <= i < nl implies data.subrange(pos + 3, pos + 3 + nl)[i]
                == name[i] by {
                assert(data.subrange(pos, pos + whole.len())[3 + i] == data[pos + 3 + i]);
                assert(whole[3 + i] == name[i]);
            }
        }
        let p1 = pos + header_len;
        assert(data.subrange(p1, p1 + e0.len()) =~= e0) by {
            assert forall|i: int| 0 <= i < e0.len() implies data.subrange(p1, p1 + e0.len())[i]
                == e0[i] by {
                assert(data.subrange(pos, pos + whole.len())[header_len + i] == data[p1 + i]);
                assert(whole[header_len + i] == e0[i]);
            }
        }
        lemma_enc_parses(data, p1, v);
        let p2 = p1 + e0.len();
        assert(data.subrange(p2, p2 + enc_entries(rest).len() + 1) =~= enc_entries(rest) + seq![
            0u8,
        ]) by {
            assert forall|i: int|
                0 <= i < enc_entries(rest).len() + 1 implies data.subrange(
                p2,
                p2 + enc_entries(rest).len() + 1,
            )[i] == (enc_entries(rest) + seq![0u8])[i] by {
                assert(data.subrange(pos, pos + whole.len())[header_len + e0.len() + i] == data[p2
                    + i]);
                assert(whole[header_len + e0.len() + i] == (enc_entries(rest) + seq![0u8])[i]);
            }
        }
        lemma_enc_compound_parses(data, p2, rest);
        assert(parse_header(data, pos) == Some((c, name, p1)));
        assert(seq![(name, v)] + rest =~= es);
    }
}

} // verus!
