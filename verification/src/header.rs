use vstd::prelude::*;

use crate::errors::Error;

verus! {

/// A byte of a variable-length field keeps the decoder reading while its
/// high bit is set.
pub open spec fn continues(b: u8) -> bool {
    b & 0x80 != 0
}

/// The size bits carried by the header bytes after the first. Each byte
/// gives seven bits, and a later byte stands for higher bits, so the
/// value of a tail is its first seven bits plus 128 times the value of
/// the rest. Yields the value and the position after the final byte;
/// `None` when the window ends while the high bit keeps the decoder
/// reading.
pub open spec fn header_size_tail(s: Seq<u8>, pos: int, end: int) -> Option<(nat, int)>
    decreases end - pos,
{
    if pos < 0 || pos >= end || pos >= s.len() {
        None
    } else {
        let v = (s[pos] & 0x7f) as nat;
        if !continues(s[pos]) {
            Some((v, pos + 1))
        } else {
            match header_size_tail(s, pos + 1, end) {
                None => None,
                Some((rest, nx)) => Some(((v + 128 * rest) as nat, nx)),
            }
        }
    }
}

/// The record header at `pos`, read within the window ending at `end`:
/// the three type-tag bits, the declared size, and the position after
/// the header. Byte 0 carries the tag in bits 6-4 and the low four size
/// bits in bits 3-0; each later byte carries the next seven size bits.
pub open spec fn header_spec(s: Seq<u8>, pos: int, end: int) -> Option<(u8, nat, int)> {
    if pos < 0 || pos >= end || pos >= s.len() {
        None
    } else {
        let b0 = s[pos];
        let tag = (b0 & 0x70) >> 4;
        let low = (b0 & 0x0f) as nat;
        if !continues(b0) {
            Some((tag, low, pos + 1))
        } else {
            match header_size_tail(s, pos + 1, end) {
                None => None,
                Some((rest, nx)) => Some((tag, (low + 16 * rest) as nat, nx)),
            }
        }
    }
}

/// Reads the size tail of a record header. Fails on a truncated tail and
/// on a size the machine word cannot hold; the one error kind covers
/// both, so the result still matches the mathematical decoding exactly.
fn read_size_tail(bytes: &[u8], pos: usize, end: usize) -> (r: Result<(u64, usize), Error>)
    requires
        end <= bytes@.len(),
    ensures
        match r {
            Ok((v, nx)) => header_size_tail(bytes@, pos as int, end as int) == Some(
                (v as nat, nx as int),
            ) && pos < nx <= end,
            Err(e) => e == Error::CorruptedPackfile && match header_size_tail(
                bytes@,
                pos as int,
                end as int,
            ) {
                None => true,
                Some((v, nx)) => v > u64::MAX,
            },
        },
    decreases end - pos,
{
    if pos >= end {
        return Err(Error::CorruptedPackfile);
    }
    let b = bytes[pos];
    let v = b & 0x7f;
    if b & 0x80 == 0 {
        return Ok((v as u64, pos + 1));
    }
    match read_size_tail(bytes, pos + 1, end) {
        Err(e) => Err(e),
        Ok((rest, nx)) => {
            if rest <= (u64::MAX - v as u64) / 128 {
                proof {
                    vstd::arithmetic::div_mod::lemma_fundamental_div_mod(
                        (u64::MAX - v) as int,
                        128,
                    );
                }
                Ok((v as u64 + 128 * rest, nx))
            } else {
                proof {
                    vstd::arithmetic::div_mod::lemma_fundamental_div_mod(
                        (u64::MAX - v) as int,
                        128,
                    );
                }
                Err(Error::CorruptedPackfile)
            }
        },
    }
}

/// Reads the record header at `pos` within the window ending at `end`:
/// the type tag, the declared size, and the position after the header.
/// A truncated header, and a declared size beyond the machine word, are
/// malformed records.
pub fn decode_header(bytes: &[u8], pos: usize, end: usize) -> (r: Result<(u8, u64, usize), Error>)
    requires
        end <= bytes@.len(),
    ensures
        match r {
            Ok((tag, size, nx)) => header_spec(bytes@, pos as int, end as int) == Some(
                (tag, size as nat, nx as int),
            ) && tag < 8 && pos < nx <= end,
            Err(e) => e == Error::CorruptedPackfile && match header_spec(
                bytes@,
                pos as int,
                end as int,
            ) {
                None => true,
                Some((tag, size, nx)) => size > u64::MAX,
            },
        },
{
    if pos >= end {
        return Err(Error::CorruptedPackfile);
    }
    let b0 = bytes[pos];
    let tag = (b0 & 0x70) >> 4;
    let low = (b0 & 0x0f) as u64;
    proof {
        assert((b0 & 0x70) >> 4 < 8 && b0 & 0x0f < 16) by (bit_vector);
    }
    if b0 & 0x80 == 0 {
        return Ok((tag, low, pos + 1));
    }
    match read_size_tail(bytes, pos + 1, end) {
        Err(e) => Err(e),
        Ok((rest, nx)) => {
            if rest <= (u64::MAX - low) / 16 {
                proof {
                    vstd::arithmetic::div_mod::lemma_fundamental_div_mod(
                        (u64::MAX - low) as int,
                        16,
                    );
                }
                Ok((tag, low + 16 * rest, nx))
            } else {
                proof {
                    vstd::arithmetic::div_mod::lemma_fundamental_div_mod(
                        (u64::MAX - low) as int,
                        16,
                    );
                }
                Err(Error::CorruptedPackfile)
            }
        },
    }
}

/// The tail of a backward offset: `acc` is the value read so far, and
/// the byte at `pos` is read because the previous byte kept the high bit
/// set. Each step folds seven more bits in as
/// `offset = (offset + 1) * 128 + bits`.
pub open spec fn offset_tail(s: Seq<u8>, pos: int, end: int, acc: nat) -> Option<(nat, int)>
    decreases end - pos,
{
    if pos < 0 || pos >= end || pos >= s.len() {
        None
    } else {
        let v = (s[pos] & 0x7f) as nat;
        let acc2 = ((acc + 1) * 128 + v) as nat;
        if !continues(s[pos]) {
            Some((acc2, pos + 1))
        } else {
            offset_tail(s, pos + 1, end, acc2)
        }
    }
}

/// The backward offset at `pos`: seven bits from the first byte, then,
/// while the high bit stays set, `offset = (offset + 1) * 128 + next
/// seven bits`. This accumulation rule differs deliberately from the
/// header size rule, and the two must stay separate.
pub open spec fn offset_spec(s: Seq<u8>, pos: int, end: int) -> Option<(nat, int)> {
    if pos < 0 || pos >= end || pos >= s.len() {
        None
    } else {
        let v = (s[pos] & 0x7f) as nat;
        if !continues(s[pos]) {
            Some((v, pos + 1))
        } else {
            offset_tail(s, pos + 1, end, v)
        }
    }
}

/// An offset tail never falls below what was already accumulated, and it
/// ends past where it began, within the window.
proof fn lemma_offset_tail_at_least(s: Seq<u8>, pos: int, end: int, acc: nat)
    ensures
        offset_tail(s, pos, end, acc) matches Some((v, nx)) ==> v >= acc && pos < nx <= end && nx
            <= s.len(),
    decreases end - pos,
{
    if 0 <= pos && pos < end && pos < s.len() && continues(s[pos]) {
        let v = (s[pos] & 0x7f) as nat;
        lemma_offset_tail_at_least(s, pos + 1, end, ((acc + 1) * 128 + v) as nat);
    }
}

/// Reads the backward offset of an offset-delta record. Fails on a
/// truncated field and on an offset the machine word cannot hold; the
/// one error kind covers both.
pub fn decode_offset(bytes: &[u8], pos: usize, end: usize) -> (r: Result<(u64, usize), Error>)
    requires
        end <= bytes@.len(),
    ensures
        match r {
            Ok((ofs, nx)) => offset_spec(bytes@, pos as int, end as int) == Some(
                (ofs as nat, nx as int),
            ) && pos < nx <= end,
            Err(e) => e == Error::CorruptedPackfile && match offset_spec(
                bytes@,
                pos as int,
                end as int,
            ) {
                None => true,
                Some((v, nx)) => v > u64::MAX,
            },
        },
{
    if pos >= end {
        return Err(Error::CorruptedPackfile);
    }
    let b0 = bytes[pos];
    let mut ofs: u64 = (b0 & 0x7f) as u64;
    let mut cur: usize = pos + 1;
    if b0 & 0x80 == 0 {
        return Ok((ofs, cur));
    }
    loop
        invariant
            end <= bytes@.len(),
            pos < cur <= end,
            offset_spec(bytes@, pos as int, end as int) == offset_tail(
                bytes@,
                cur as int,
                end as int,
                ofs as nat,
            ),
        decreases end - cur,
    {
        if cur >= end {
            return Err(Error::CorruptedPackfile);
        }
        let b = bytes[cur];
        let v = (b & 0x7f) as u64;
        let limit = (u64::MAX - v) / 128;
        proof {
            vstd::arithmetic::div_mod::lemma_fundamental_div_mod((u64::MAX - v) as int, 128);
        }
        if ofs >= limit {
            proof {
                let acc2 = ((ofs + 1) * 128 + v) as nat;
                lemma_offset_tail_at_least(bytes@, cur as int + 1, end as int, acc2);
            }
            return Err(Error::CorruptedPackfile);
        }
        ofs = (ofs + 1) * 128 + v;
        cur = cur + 1;
        if b & 0x80 == 0 {
            return Ok((ofs, cur));
        }
    }
}

/// The canonical bytes of the size bits beyond the first four: seven
/// bits per byte, low group first, the high bit set on every byte but
/// the last.
pub open spec fn encode_size_tail(n: nat) -> Seq<u8>
    decreases n,
{
    if n < 128 {
        seq![n as u8]
    } else {
        seq![(0x80 + (n % 128)) as u8] + encode_size_tail(n / 128)
    }
}

/// The canonical header bytes for a record of the given type tag and
/// declared size.
pub open spec fn encode_header_spec(tag: u8, size: nat) -> Seq<u8> {
    let b0 = ((tag & 0x07) << 4) | ((size % 16) as u8);
    if size < 16 {
        seq![b0]
    } else {
        seq![b0 | 0x80] + encode_size_tail(size / 16)
    }
}

/// Writes the canonical header for a record of the given type tag and
/// declared size.
pub fn encode_header(tag: u8, size: u64) -> (r: Vec<u8>)
    requires
        tag < 8,
    ensures
        r@ == encode_header_spec(tag, size as nat),
{
    let mut out: Vec<u8> = Vec::new();
    let b0 = (tag << 4) | ((size % 16) as u8);
    proof {
        assert(tag << 4 == (tag & 0x07) << 4) by (bit_vector)
            requires
                tag < 8,
        ;
    }
    if size < 16 {
        out.push(b0);
        proof {
            assert(out@ =~= encode_header_spec(tag, size as nat));
        }
        return out;
    }
    out.push(b0 | 0x80);
    let mut n: u64 = size / 16;
    proof {
        assert(out@ + encode_size_tail(n as nat) =~= encode_header_spec(tag, size as nat));
    }
    loop
        invariant
            out@ + encode_size_tail(n as nat) =~= encode_header_spec(tag, size as nat),
        decreases n,
    {
        if n < 128 {
            out.push(n as u8);
            proof {
                assert(out@ =~= encode_header_spec(tag, size as nat));
            }
            return out;
        }
        out.push(0x80 + (n % 128) as u8);
        proof {
            assert(out@ + encode_size_tail((n / 128) as nat) =~= encode_header_spec(
                tag,
                size as nat,
            ));
        }
        n = n / 128;
    }
}

/// Decoding recovers exactly what the canonical encoder wrote: wherever
/// the canonical header for `(tag, size)` lies in a window, the header
/// decoder yields that tag and size and stops right after it.
pub proof fn lemma_size_tail_round_trip(s: Seq<u8>, pos: int, end: int, n: nat)
    requires
        0 <= pos,
        pos + encode_size_tail(n).len() <= end,
        end <= s.len(),
        s.subrange(pos, pos + encode_size_tail(n).len()) == encode_size_tail(n),
    ensures
        header_size_tail(s, pos, end) == Some((n, pos + encode_size_tail(n).len())),
    decreases n,
{
    let e = encode_size_tail(n);
    assert(s.subrange(pos, pos + e.len())[0] == s[pos]);
    if n < 128 {
        let b = n as u8;
        assert(s[pos] == b);
        assert(b & 0x80 == 0 && b & 0x7f == b) by (bit_vector)
            requires
                b < 128,
        ;
    } else {
        let m = (n % 128) as u8;
        let b = (0x80 + m) as u8;
        assert(s[pos] == b);
        assert(((0x80 + m) as u8) & 0x80 != 0 && ((0x80 + m) as u8) & 0x7f == m) by (bit_vector)
            requires
                m < 128,
        ;
        let rest = encode_size_tail(n / 128);
        assert(s.subrange(pos + 1, pos + 1 + rest.len()) =~= e.subrange(1, e.len() as int));
        assert(e.subrange(1, e.len() as int) =~= rest);
        lemma_size_tail_round_trip(s, pos + 1, end, n / 128);
        vstd::arithmetic::div_mod::lemma_fundamental_div_mod(n as int, 128);
    }
}

/// The header round trip: see `lemma_size_tail_round_trip`. For any tag
/// below 8 and any size, wherever the canonical header bytes lie, the
/// decoder returns exactly that pair.
pub proof fn lemma_header_round_trip(s: Seq<u8>, pos: int, end: int, tag: u8, size: nat)
    requires
        tag < 8,
        0 <= pos,
        pos + encode_header_spec(tag, size).len() <= end,
        end <= s.len(),
        s.subrange(pos, pos + encode_header_spec(tag, size).len()) == encode_header_spec(
            tag,
            size,
        ),
    ensures
        header_spec(s, pos, end) == Some(
            (tag, size, pos + encode_header_spec(tag, size).len()),
        ),
{
    let e = encode_header_spec(tag, size);
    let m = (size % 16) as u8;
    let b0 = ((tag & 0x07) << 4) | m;
    assert(s.subrange(pos, pos + e.len())[0] == s[pos]);
    assert((((tag & 0x07) << 4) | m) & 0x80 == 0 && ((((tag & 0x07) << 4) | m) & 0x70) >> 4
        == tag && (((tag & 0x07) << 4) | m) & 0x0f == m) by (bit_vector)
        requires
            tag < 8 && m < 16,
    ;
    if size < 16 {
        assert(s[pos] == b0);
    } else {
        assert(s[pos] == b0 | 0x80);
        assert((b0 | 0x80) & 0x80 != 0 && ((b0 | 0x80) & 0x70) >> 4 == (b0 & 0x70) >> 4 && (b0
            | 0x80) & 0x0f == b0 & 0x0f) by (bit_vector);
        let rest = encode_size_tail(size / 16);
        assert(s.subrange(pos + 1, pos + 1 + rest.len()) =~= e.subrange(1, e.len() as int));
        assert(e.subrange(1, e.len() as int) =~= rest);
        lemma_size_tail_round_trip(s, pos + 1, end, size / 16);
        vstd::arithmetic::div_mod::lemma_fundamental_div_mod(size as int, 16);
    }
}

/// The canonical bytes of a backward offset's leading part, each with
/// the high bit set: the bytes that leave the decoder's accumulator at
/// `m` with more to read.
pub open spec fn encode_offset_cont(m: nat) -> Seq<u8>
    decreases m,
{
    if m < 128 {
        seq![(0x80 + m) as u8]
    } else {
        encode_offset_cont((m / 128 - 1) as nat) + seq![(0x80 + (m % 128)) as u8]
    }
}

/// The canonical bytes of a backward offset.
pub open spec fn encode_offset_spec(n: nat) -> Seq<u8> {
    if n < 128 {
        seq![n as u8]
    } else {
        encode_offset_cont((n / 128 - 1) as nat) + seq![(n % 128) as u8]
    }
}

/// Consuming the leading bytes that encode `m` leaves the offset
/// decoder just past them with accumulator `m`.
proof fn lemma_offset_cont_consume(s: Seq<u8>, pos: int, end: int, m: nat)
    requires
        0 <= pos,
        pos + encode_offset_cont(m).len() <= end,
        end <= s.len(),
        s.subrange(pos, pos + encode_offset_cont(m).len()) == encode_offset_cont(m),
    ensures
        offset_spec(s, pos, end) == offset_tail(
            s,
            pos + encode_offset_cont(m).len(),
            end,
            m,
        ),
    decreases m,
{
    let e = encode_offset_cont(m);
    if m < 128 {
        assert(s.subrange(pos, pos + 1)[0] == s[pos]);
        let mm = m as u8;
        assert(s[pos] == (0x80 + mm) as u8);
        assert(((0x80 + mm) as u8) & 0x80 != 0 && ((0x80 + mm) as u8) & 0x7f == mm) by (bit_vector)
            requires
                mm < 128,
        ;
    } else {
        let p = encode_offset_cont((m / 128 - 1) as nat);
        assert(s.subrange(pos, pos + p.len()) =~= e.subrange(0, p.len() as int));
        assert(e.subrange(0, p.len() as int) =~= p);
        lemma_offset_cont_consume(s, pos, end, (m / 128 - 1) as nat);
        let q = pos + p.len();
        assert(s.subrange(pos, pos + e.len())[e.len() - 1] == s[q]);
        let mm = (m % 128) as u8;
        assert(s[q] == (0x80 + mm) as u8);
        assert(((0x80 + mm) as u8) & 0x80 != 0 && ((0x80 + mm) as u8) & 0x7f == mm) by (bit_vector)
            requires
                mm < 128,
        ;
        vstd::arithmetic::div_mod::lemma_fundamental_div_mod(m as int, 128);
    }
}

/// The offset round trip: wherever the canonical bytes for a backward
/// offset lie in a window, the offset decoder yields exactly that
/// offset and stops right after them.
pub proof fn lemma_offset_round_trip(s: Seq<u8>, pos: int, end: int, n: nat)
    requires
        0 <= pos,
        pos + encode_offset_spec(n).len() <= end,
        end <= s.len(),
        s.subrange(pos, pos + encode_offset_spec(n).len()) == encode_offset_spec(n),
    ensures
        offset_spec(s, pos, end) == Some((n, pos + encode_offset_spec(n).len())),
{
    let e = encode_offset_spec(n);
    if n < 128 {
        assert(s.subrange(pos, pos + 1)[0] == s[pos]);
        let b = n as u8;
        assert(s[pos] == b);
        assert(b & 0x80 == 0 && b & 0x7f == b) by (bit_vector)
            requires
                b < 128,
        ;
    } else {
        let m = (n / 128 - 1) as nat;
        let p = encode_offset_cont(m);
        assert(s.subrange(pos, pos + p.len()) =~= e.subrange(0, p.len() as int));
        assert(e.subrange(0, p.len() as int) =~= p);
        lemma_offset_cont_consume(s, pos, end, m);
        let q = pos + p.len();
        assert(s.subrange(pos, pos + e.len())[e.len() - 1] == s[q]);
        let b = (n % 128) as u8;
        assert(s[q] == b);
        assert(b & 0x80 == 0 && b & 0x7f == b) by (bit_vector)
            requires
                b < 128,
        ;
        vstd::arithmetic::div_mod::lemma_fundamental_div_mod(n as int, 128);
    }
}

/// A truncated size tail — every byte the window still offers keeps the
/// high bit set — never decodes: the decoder reports the malformed
/// record instead of running on.
pub proof fn lemma_truncated_size_tail(s: Seq<u8>, pos: int, end: int)
    requires
        forall|i: int| pos <= i < end && i < s.len() ==> continues(s[i]),
    ensures
        header_size_tail(s, pos, end) is None,
    decreases end - pos,
{
    if 0 <= pos && pos < end && pos < s.len() {
        lemma_truncated_size_tail(s, pos + 1, end);
    }
}

/// A truncated header — the window ends while every byte it offers keeps
/// the continuation bit set — never decodes to a header: decoding
/// reports the malformed record, and cannot hang, since the decoder
/// consumes one byte of the finite window per step.
pub proof fn lemma_truncated_header(s: Seq<u8>, pos: int, end: int)
    requires
        forall|i: int| pos <= i < end && i < s.len() ==> continues(s[i]),
    ensures
        header_spec(s, pos, end) is None,
{
    if 0 <= pos && pos < end && pos < s.len() {
        lemma_truncated_size_tail(s, pos + 1, end);
    }
}

} // verus!
