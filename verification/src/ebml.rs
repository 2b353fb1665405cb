//! EBML elements: variable-length identifiers and sizes, and the walker
//! that steps from one element to the next.

use vstd::prelude::*;
use crate::common::{
    be_value, lemma_be_value_bound, lemma_be_value_prefix, lemma_pow256_monotonic, pow256,
};

verus! {

/// The encoded length that the first byte of a variable-length number
/// announces: one more than the number of zero bits before its first set
/// bit, so 9 for a zero byte.
pub open spec fn vint_len(first: u8) -> int {
    if first >= 0x80 {
        1
    } else if first >= 0x40 {
        2
    } else if first >= 0x20 {
        3
    } else if first >= 0x10 {
        4
    } else if first >= 0x08 {
        5
    } else if first >= 0x04 {
        6
    } else if first >= 0x02 {
        7
    } else if first >= 0x01 {
        8
    } else {
        9
    }
}

/// The weight of the marker bit of a number encoded in `len` bytes: two to
/// the power `7 * len`. The bits below the marker are the usable ones.
pub open spec fn vint_marker(len: int) -> int {
    if len == 1 {
        0x80
    } else if len == 2 {
        0x4000
    } else if len == 3 {
        0x20_0000
    } else if len == 4 {
        0x1000_0000
    } else if len == 5 {
        0x08_0000_0000
    } else if len == 6 {
        0x0400_0000_0000
    } else if len == 7 {
        0x02_0000_0000_0000
    } else {
        0x0100_0000_0000_0000
    }
}

/// The element identifier at `offset` and its encoded length: one to four
/// bytes, taken whole, marker bits included.
pub open spec fn ebml_id_at(data: Seq<u8>, offset: int) -> Option<(u32, int)> {
    if offset < 0 || offset >= data.len() || vint_len(data[offset]) > 4 || offset + vint_len(
        data[offset],
    ) > data.len() {
        None
    } else {
        Some(
            (
                be_value(data.subrange(offset, offset + vint_len(data[offset]))) as u32,
                vint_len(data[offset]),
            ),
        )
    }
}

/// The element size at `offset`, its encoded length, and whether it is the
/// unknown size: one to eight bytes, the marker bit taken out. The size is
/// unknown when every usable bit is set.
pub open spec fn ebml_size_at(data: Seq<u8>, offset: int) -> Option<(u64, int, bool)> {
    if offset < 0 || offset >= data.len() || vint_len(data[offset]) > 8 || offset + vint_len(
        data[offset],
    ) > data.len() {
        None
    } else {
        let len = vint_len(data[offset]);
        let value = be_value(data.subrange(offset, offset + len)) - vint_marker(len);
        Some((value as u64, len, value == vint_marker(len) - 1))
    }
}

/// The encoded length that a first byte announces, with the value of its
/// marker bit (zero where the byte announces no valid length).
fn leading_marker(first: u8) -> (r: (usize, u8))
    ensures
        r.0 as int == vint_len(first),
        r.0 <= 8 ==> r.1 <= first && r.1 as int * pow256((r.0 - 1) as nat) == vint_marker(
            r.0 as int,
        ) && first < 2 * r.1,
{
    proof {
        reveal_with_fuel(pow256, 9);
    }
    if first >= 0x80 {
        (1, 0x80)
    } else if first >= 0x40 {
        (2, 0x40)
    } else if first >= 0x20 {
        (3, 0x20)
    } else if first >= 0x10 {
        (4, 0x10)
    } else if first >= 0x08 {
        (5, 0x08)
    } else if first >= 0x04 {
        (6, 0x04)
    } else if first >= 0x02 {
        (7, 0x02)
    } else if first >= 0x01 {
        (8, 0x01)
    } else {
        (9, 0)
    }
}

/// Reads the element identifier at `offset`.
pub fn read_ebml_id(data: &[u8], offset: usize) -> (r: Option<(u32, usize)>)
    ensures
        r is Some <==> ebml_id_at(data@, offset as int) is Some,
        r matches Some(found) ==> {
            let want = ebml_id_at(data@, offset as int)->0;
            &&& found.0 == want.0
            &&& found.1 as int == want.1
            &&& 1 <= found.1 <= 4
            &&& offset + found.1 <= data@.len()
        },
{
    if offset >= data.len() {
        return None;
    }
    let (len, _) = leading_marker(data[offset]);
    if len > 4 || len > data.len() - offset {
        return None;
    }
    let mut id: u32 = 0;
    let mut i: usize = 0;
    proof {
        assert(data@.subrange(offset as int, offset as int) =~= Seq::<u8>::empty());
    }
    while i < len
        invariant
            i <= len <= 4,
            offset + len <= data@.len() <= usize::MAX,
            id as nat == be_value(data@.subrange(offset as int, offset + i)),
        decreases len - i,
    {
        proof {
            lemma_be_value_prefix(data@, offset as int, i + 1);
            lemma_be_value_bound(data@.subrange(offset as int, offset + i));
            lemma_pow256_monotonic(i as nat, 3);
            reveal_with_fuel(pow256, 5);
        }
        id = id * 256 + data[offset + i] as u32;
        i += 1;
    }
    Some((id, len))
}

/// Reads the element size at `offset`.
pub fn read_ebml_size(data: &[u8], offset: usize) -> (r: Option<(u64, usize, bool)>)
    ensures
        r is Some <==> ebml_size_at(data@, offset as int) is Some,
        r matches Some(found) ==> {
            let want = ebml_size_at(data@, offset as int)->0;
            &&& found.0 == want.0
            &&& found.1 as int == want.1
            &&& found.2 == want.2
            &&& 1 <= found.1 <= 8
            &&& offset + found.1 <= data@.len()
            &&& found.0 < vint_marker(found.1 as int)
        },
{
    if offset >= data.len() {
        return None;
    }
    let first = data[offset];
    let (len, mask) = leading_marker(first);
    if len > 8 || len > data.len() - offset {
        return None;
    }
    let mut value: u64 = (first - mask) as u64;
    let mut i: usize = 1;
    proof {
        lemma_be_value_prefix(data@, offset as int, 1);
        assert(pow256(0) == 1);
        assert(mask as int * pow256(0) == mask as int);
        assert(be_value(data@.subrange(offset as int, offset + 1)) == first as nat);
    }
    while i < len
        invariant
            1 <= i <= len <= 8,
            offset + len <= data@.len() <= usize::MAX,
            value + mask as int * pow256((i - 1) as nat) == be_value(
                data@.subrange(offset as int, offset + i),
            ),
            value < mask as int * pow256((i - 1) as nat),
            mask as int * pow256((len - 1) as nat) == vint_marker(len as int),
        decreases len - i,
    {
        proof {
            lemma_be_value_prefix(data@, offset as int, i + 1);
            let w = pow256((i - 1) as nat) as int;
            let m = mask as int;
            assert(pow256(i as nat) == 256 * w);
            assert(m * (256 * w) == 256 * (m * w)) by (nonlinear_arith);
            lemma_pow256_monotonic(i as nat, (len - 1) as nat);
            assert(m * pow256(i as nat) <= m * pow256((len - 1) as nat)) by (nonlinear_arith)
                requires
                    0 <= m,
                    pow256(i as nat) <= pow256((len - 1) as nat),
            ;
        }
        value = value * 256 + data[offset + i] as u64;
        i += 1;
    }
    let unknown = value == unknown_size(len);
    Some((value, len, unknown))
}

/// The size that stands for "unknown" in an encoding of `len` bytes: every
/// usable bit set.
fn unknown_size(len: usize) -> (r: u64)
    requires
        1 <= len <= 8,
    ensures
        r == vint_marker(len as int) - 1,
{
    if len == 1 {
        0x7F
    } else if len == 2 {
        0x3FFF
    } else if len == 3 {
        0x1F_FFFF
    } else if len == 4 {
        0x0FFF_FFFF
    } else if len == 5 {
        0x07_FFFF_FFFF
    } else if len == 6 {
        0x03FF_FFFF_FFFF
    } else if len == 7 {
        0x01_FFFF_FFFF_FFFF
    } else {
        0xFF_FFFF_FFFF_FFFF
    }
}

/// An element as the walker reports it: its identifier, where its payload
/// starts and ends, and whether its size was the unknown size.
pub struct ElementSpan {
    pub id: u32,
    pub start: int,
    pub end: int,
    pub unknown: bool,
}

/// The smaller of the bound and the length of the buffer: where a level
/// really ends.
pub open spec fn level_end(data: Seq<u8>, limit: int) -> int {
    if limit < data.len() {
        limit
    } else {
        data.len() as int
    }
}

/// The element that starts at `offset` and lies before `limit`.
///
/// An element of unknown size runs up to the end of the level, and so does
/// one whose declared size would pass it. There is no element where the
/// identifier or the size cannot be read, where the payload would start
/// past the end of the level, or where the payload is empty.
pub open spec fn ebml_element_at(data: Seq<u8>, offset: int, limit: int) -> Option<ElementSpan> {
    if offset < 0 || offset >= level_end(data, limit) {
        None
    } else {
        match ebml_id_at(data, offset) {
            None => None,
            Some((id, id_len)) => match ebml_size_at(data, offset + id_len) {
                None => None,
                Some((size, size_len, unknown)) => {
                    let start = offset + id_len + size_len;
                    let end = if unknown || start + size > level_end(data, limit) {
                        level_end(data, limit)
                    } else {
                        start + size
                    };
                    if end <= start {
                        None
                    } else {
                        Some(ElementSpan { id, start, end, unknown })
                    }
                },
            },
        }
    }
}

/// Walks the elements from `offset` up to `limit` in order and threads
/// `state` through `step`, which sees each element once. The walk ends at
/// the first offset that holds no element, and after an element of unknown
/// size: where that one ends cannot be told, so nothing is looked for
/// behind it.
pub open spec fn ebml_fold<S>(
    data: Seq<u8>,
    offset: int,
    limit: int,
    state: S,
    step: spec_fn(ElementSpan, S) -> S,
) -> S
    decreases level_end(data, limit) - offset,
{
    match ebml_element_at(data, offset, limit) {
        Some(el) => {
            if el.unknown || el.end <= offset {
                step(el, state)
            } else {
                ebml_fold(data, el.end, limit, step(el, state), step)
            }
        },
        None => state,
    }
}

/// An element as the walker hands it out.
#[derive(Clone, Copy, Debug, PartialEq, Eq, Structural)]
pub struct Element {
    pub id: u32,
    pub payload_start: usize,
    pub payload_end: usize,
    pub unknown: bool,
}

impl View for Element {
    type V = ElementSpan;

    open spec fn view(&self) -> ElementSpan {
        ElementSpan {
            id: self.id,
            start: self.payload_start as int,
            end: self.payload_end as int,
            unknown: self.unknown,
        }
    }
}

/// Reads the element at `offset`. `None` where no element lies there
/// before `limit`.
pub fn next_ebml_element(data: &[u8], offset: usize, limit: usize) -> (r: Option<Element>)
    ensures
        r is Some <==> ebml_element_at(data@, offset as int, limit as int) is Some,
        r matches Some(el) ==> {
            &&& el@ == ebml_element_at(data@, offset as int, limit as int)->0
            &&& offset + 2 <= el.payload_start < el.payload_end
            &&& el.payload_end <= limit
            &&& el.payload_end <= data@.len()
            &&& el.unknown ==> el.payload_end as int == level_end(data@, limit as int)
        },
{
    let bound: usize = if limit < data.len() {
        limit
    } else {
        data.len()
    };
    if offset >= bound {
        return None;
    }
    let (id, id_len) = match read_ebml_id(data, offset) {
        Some(found) => found,
        None => return None,
    };
    let (size, size_len, unknown) = match read_ebml_size(data, offset + id_len) {
        Some(found) => found,
        None => return None,
    };
    let payload_start: usize = offset + id_len + size_len;
    if payload_start >= bound {
        return None;
    }
    let payload_end: usize = if unknown || size > (bound - payload_start) as u64 {
        bound
    } else {
        payload_start + size as usize
    };
    if payload_end <= payload_start {
        return None;
    }
    Some(Element { id, payload_start, payload_end, unknown })
}

/// An element of unknown size runs to the end of its level, and the walk
/// of the level ends with it: no sibling is looked for behind it.
pub proof fn lemma_unknown_size_ends_level<S>(
    data: Seq<u8>,
    offset: int,
    limit: int,
    state: S,
    step: spec_fn(ElementSpan, S) -> S,
)
    requires
        ebml_element_at(data, offset, limit) is Some,
        ebml_element_at(data, offset, limit)->0.unknown,
    ensures
        ebml_element_at(data, offset, limit)->0.end == level_end(data, limit),
        ebml_fold(data, offset, limit, state, step) == step(
            ebml_element_at(data, offset, limit)->0,
            state,
        ),
{
}

/// A size is the unknown size exactly when it is one less than the weight
/// of its marker bit, that is, when every usable bit is set.
pub proof fn lemma_unknown_size_is_all_ones(data: Seq<u8>, offset: int)
    requires
        ebml_size_at(data, offset) is Some,
    ensures
        ({
            let found = ebml_size_at(data, offset)->0;
            found.2 <==> found.0 == vint_marker(found.1) - 1
        }),
{
    lemma_leading_byte_weight(data, offset, vint_len(data[offset]));
}

/// The bytes of a variable-length number spell at least the weight of its
/// marker bit and less than twice that weight.
pub proof fn lemma_leading_byte_weight(data: Seq<u8>, offset: int, len: int)
    requires
        0 <= offset,
        1 <= len <= 8,
        offset + len <= data.len(),
        len == vint_len(data[offset]),
    ensures
        vint_marker(len) <= be_value(data.subrange(offset, offset + len)) < 2 * vint_marker(len),
{
    lemma_be_value_split(data, offset, len);
    reveal_with_fuel(pow256, 9);
    lemma_be_value_bound(data.subrange(offset + 1, offset + len));
    let w = pow256((len - 1) as nat) as int;
    let f = data[offset] as int;
    let rest = be_value(data.subrange(offset + 1, offset + len)) as int;
    assert(be_value(data.subrange(offset, offset + len)) == f * w + rest);
    assert(0 <= rest < w);
    let bit: int = if len == 1 {
        0x80
    } else if len == 2 {
        0x40
    } else if len == 3 {
        0x20
    } else if len == 4 {
        0x10
    } else if len == 5 {
        0x08
    } else if len == 6 {
        0x04
    } else if len == 7 {
        0x02
    } else {
        0x01
    };
    assert(bit <= f < 2 * bit);
    assert(bit * w == vint_marker(len));
    assert(bit * w <= f * w && f * w + w <= 2 * (bit * w)) by (nonlinear_arith)
        requires
            bit <= f < 2 * bit,
            0 < w,
    ;
}

/// A run of bytes spells its first byte times the weight of that place,
/// plus what the rest spells.
pub proof fn lemma_be_value_split(data: Seq<u8>, offset: int, len: int)
    requires
        0 <= offset,
        1 <= len,
        offset + len <= data.len(),
    ensures
        be_value(data.subrange(offset, offset + len)) == data[offset] as nat * pow256(
            (len - 1) as nat,
        ) + be_value(data.subrange(offset + 1, offset + len)),
    decreases len,
{
    lemma_be_value_prefix(data, offset, len);
    let f = data[offset] as int;
    if len == 1 {
        assert(data.subrange(offset + 1, offset + 1) =~= Seq::<u8>::empty());
        assert(pow256(0) == 1);
        assert(f * 1 == f);
    } else {
        lemma_be_value_split(data, offset, len - 1);
        lemma_be_value_prefix(data, offset + 1, len - 1);
        let w = pow256((len - 2) as nat) as int;
        let last = data[offset + len - 1] as int;
        let inner = be_value(data.subrange(offset + 1, offset + len - 1)) as int;
        let head = be_value(data.subrange(offset, offset + len - 1)) as int;
        let tail = be_value(data.subrange(offset + 1, offset + len)) as int;
        let whole = be_value(data.subrange(offset, offset + len)) as int;
        assert(pow256((len - 1) as nat) == 256 * w);
        assert(head == f * w + inner);
        assert(tail == inner * 256 + last);
        assert(whole == head * 256 + last);
        assert((f * w + inner) * 256 == f * (256 * w) + inner * 256) by (nonlinear_arith);
        assert(whole == f * (256 * w) + tail);
    }
}

/// Every element that the walker reports starts after its header, is not
/// empty, and ends inside both the bound and the buffer: a walk always
/// moves forward.
pub proof fn lemma_element_advances(data: Seq<u8>, offset: int, limit: int)
    ensures
        ebml_element_at(data, offset, limit) matches Some(el) ==> {
            &&& offset + 2 <= el.start < el.end
            &&& el.end <= limit
            &&& el.end <= data.len()
        },
{
}

} // verus!
