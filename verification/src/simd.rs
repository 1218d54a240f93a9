//! The chunked scan for reserved bytes: sixteen bytes at a time are classified
//! by their low nibble into a bit mask, and only the set bits are visited.
use crate::escape::{
    escape_html_scalar, extend, html_escaped, html_escaped_byte, html_plain, html_replacement,
    is_html_special, lemma_html_escaped_concat, lemma_html_escaped_plain, AMPERSAND, GREATER_THAN,
    LESS_THAN, QUOTE,
};
use vstd::prelude::*;
use vstd::slice::*;
use vstd::std_specs::bits::*;
use vstd::string::*;

verus! {

/// The number of bytes in one chunk.
pub const VECTOR_SIZE: usize = 16;

/// Whether bit `k` of `mask` is set.
pub open spec fn bit_set(mask: u32, k: u32) -> bool {
    (mask >> k) & 1 == 1
}

/// The entry of the nibble table at `n`: each reserved byte at its own low
/// nibble, 127 at 0, and 0 elsewhere.
pub open spec fn lookup_entry(n: int) -> u8 {
    if n == QUOTE % 16 {
        QUOTE
    } else if n == AMPERSAND % 16 {
        AMPERSAND
    } else if n == LESS_THAN % 16 {
        LESS_THAN
    } else if n == GREATER_THAN % 16 {
        GREATER_THAN
    } else if n == 0 {
        0x7f
    } else {
        0
    }
}

/// What a byte shuffle picks from the nibble table for the byte `c`: the entry
/// at the low nibble of `c`, or 0 where the top bit of `c` is set.
pub open spec fn shuffled(c: u8) -> u8 {
    if c >= 0x80 {
        0
    } else {
        lookup_entry((c % 16) as int)
    }
}

/// A byte equals what the shuffle picks for it exactly if it is reserved: the
/// four reserved bytes have four different low nibbles, and the other entries
/// of the table equal no byte that leads to them.
pub proof fn lemma_shuffle_finds_special(c: u8)
    ensures
        (shuffled(c) == c) == is_html_special(c),
{
}

/// Whether `found` lists, in rising order, exactly the positions from `from`
/// up to `to` at which `s` holds a reserved byte.
pub open spec fn lists_special(s: Seq<u8>, from: int, to: int, found: Seq<usize>) -> bool {
    &&& forall|k: int|
        0 <= k < found.len() ==> from <= #[trigger] found[k] < to && to <= s.len()
            && is_html_special(s[found[k] as int])
    &&& forall|j: int, k: int| 0 <= j < k < found.len() ==> found[j] < found[k]
    &&& forall|i: int|
        from <= i < to && i < s.len() && is_html_special(#[trigger] s[i]) ==> listed(found, i)
}

/// Whether `found` holds the position `i`.
pub open spec fn listed(found: Seq<usize>, i: int) -> bool {
    exists|k: int| 0 <= k < found.len() && #[trigger] found[k] == i
}

/// Creates the nibble table for [`compute_mask`].
pub fn create_lookup() -> (table: [u8; 16])
    ensures
        forall|n: int| 0 <= n < 16 ==> #[trigger] table[n] == lookup_entry(n),
{
    let mut table = [0u8; 16];
    assert(LESS_THAN & 0x0f == 12 && GREATER_THAN & 0x0f == 14 && AMPERSAND & 0x0f == 6 && QUOTE
        & 0x0f == 2) by (bit_vector);
    table[(LESS_THAN & 0x0f) as usize] = LESS_THAN;
    table[(GREATER_THAN & 0x0f) as usize] = GREATER_THAN;
    table[(AMPERSAND & 0x0f) as usize] = AMPERSAND;
    table[(QUOTE & 0x0f) as usize] = QUOTE;
    table[0] = 0b0111_1111;
    table
}

proof fn lemma_set_bit(mask: u32, lane: u32)
    by (bit_vector)
    requires
        lane < 16,
        mask < (1u32 << lane),
    ensures
        (mask | (1u32 << lane)) < (1u32 << ((lane + 1) as u32)),
        mask < (1u32 << ((lane + 1) as u32)),
        !bit_set(mask, lane),
        forall|k: u32|
            k < 32 ==> #[trigger] bit_set(mask | (1u32 << lane), k) == (k == lane || bit_set(
                mask,
                k,
            )),
{
}

/// The mask of the sixteen bytes of `bytes` from `offset`: bit `k` is set
/// exactly if the byte at `offset + k` is reserved.
///
/// Each byte picks from the nibble table as a byte shuffle would, and is
/// compared with what it picked.
pub fn compute_mask(bytes: &[u8], offset: usize) -> (mask: u32)
    requires
        offset + VECTOR_SIZE <= bytes@.len(),
    ensures
        mask < 0x10000,
        forall|k: u32|
            k < 16 ==> #[trigger] bit_set(mask, k) == is_html_special(bytes@[offset + k]),
{
    let table = create_lookup();
    let len = bytes.len();
    let mut mask: u32 = 0;
    let mut lane: u32 = 0;
    assert(0u32 < (1u32 << 0u32)) by (bit_vector);
    while lane < 16
        invariant
            lane <= 16,
            len == bytes@.len(),
            offset + VECTOR_SIZE <= len,
            mask < (1u32 << lane),
            forall|n: int| 0 <= n < 16 ==> #[trigger] table[n] == lookup_entry(n),
            forall|k: u32|
                k < lane ==> #[trigger] bit_set(mask, k) == is_html_special(bytes@[offset + k]),
        decreases 16 - lane,
    {
        let c = bytes[offset + lane as usize];
        assert((c & 0x80 != 0) == (c >= 0x80) && (c & 0x0f) == c % 16) by (bit_vector);
        let expected = if c & 0x80 != 0 {
            0
        } else {
            table[(c & 0x0f) as usize]
        };
        assert(expected == shuffled(c));
        let ghost before = mask;
        proof {
            lemma_shuffle_finds_special(c);
            lemma_set_bit(mask, lane);
        }
        if expected == c {
            mask = mask | (1u32 << lane);
        }
        assert forall|k: u32| k < lane + 1 implies #[trigger] bit_set(mask, k) == is_html_special(
            bytes@[offset + k],
        ) by {
            if k < lane {
                assert(bit_set(before, k) == is_html_special(bytes@[offset + k]));
            }
        }
        lane += 1;
    }
    assert((1u32 << 16u32) == 0x10000) by (bit_vector);
    mask
}

proof fn lemma_lowest_bit(mask: u32, ix: u32, shift: u32)
    by (bit_vector)
    requires
        ix < 32,
        shift == 32 - ix,
        mask << shift == 0,
        bit_set(mask, ix),
        mask < 0x10000,
    ensures
        ix < 16,
        mask != 0,
        (mask & ((mask - 1) as u32)) < mask,
        forall|k: u32| k < ix ==> !#[trigger] bit_set(mask, k),
        forall|k: u32|
            k < 32 ==> #[trigger] bit_set(mask & ((mask - 1) as u32), k) == (k != ix && bit_set(
                mask,
                k,
            )),
{
}

proof fn lemma_no_bits(mask: u32)
    by (bit_vector)
    requires
        mask == 0,
    ensures
        forall|k: u32| k < 32 ==> !#[trigger] bit_set(mask, k),
{
}

proof fn lemma_shifted_bits(mask: u32, shift: u32)
    by (bit_vector)
    requires
        shift <= 16,
        mask < 0x10000,
    ensures
        (mask >> shift) < 0x10000,
        forall|k: u32|
            k < 16 ==> #[trigger] bit_set(mask >> shift, k) == (k + shift < 16 && bit_set(
                mask,
                (k + shift) as u32,
            )),
{
}

/// Whether bit `k` of `mask`, for each `k` below 16, says that `s` holds a
/// reserved byte at `base + k`.
pub open spec fn marks_special(mask: u32, s: Seq<u8>, base: int) -> bool {
    forall|k: u32|
        k < 16 ==> #[trigger] bit_set(mask, k) == (base + k < s.len() && is_html_special(
            s[base + k],
        ))
}

/// Appends to `found` the position `base + k` for each set bit `k` of `mask`,
/// lowest first.
fn push_set_bits(
    found: &mut Vec<usize>,
    mask: u32,
    base: usize,
    Ghost(s): Ghost<Seq<u8>>,
    Ghost(from): Ghost<int>,
)
    requires
        mask < 0x10000,
        from <= base <= s.len() <= usize::MAX,
        lists_special(s, from, base as int, old(found)@),
        marks_special(mask, s, base as int),
    ensures
        lists_special(
            s,
            from,
            if base + 16 <= s.len() {
                base + 16
            } else {
                s.len() as int
            },
            final(found)@,
        ),
{
    let ghost whole = mask;
    let mut mask = mask;
    let ghost mut done: int = 0;
    while mask != 0
        invariant
            mask < 0x10000,
            0 <= done <= 16,
            from <= base <= s.len() <= usize::MAX,
            base + done <= s.len(),
            lists_special(s, from, base + done, found@),
            marks_special(whole, s, base as int),
            forall|k: u32| k < 32 ==> #[trigger] bit_set(mask, k) == (k >= done && bit_set(whole, k)),
        decreases mask,
    {
        let ix = mask.trailing_zeros();
        let ghost before = found@;
        let ghost old_mask = mask;
        proof {
            axiom_u32_trailing_zeros(mask);
            let shift: u32 = (32 - ix) as u32;
            assert(bit_set(mask, ix));
            lemma_lowest_bit(mask, ix, shift);
            assert(ix >= done);
            assert(bit_set(whole, ix));
            assert(base + ix < s.len() && is_html_special(s[base + ix]));
            assert forall|i: int|
                from <= i < base + ix && is_html_special(#[trigger] s[i]) implies listed(
                before,
                i,
            ) by {
                if i >= base + done {
                    let k: u32 = (i - base) as u32;
                    assert(!bit_set(mask, k));
                    assert(!bit_set(whole, k));
                    assert(s[base + k] == s[i]);
                }
            }
        }
        let position: usize = base + ix as usize;
        found.push(position);
        mask = mask & (mask - 1);
        proof {
            assert forall|i: int|
                from <= i < base + ix + 1 && is_html_special(#[trigger] s[i]) implies listed(
                found@,
                i,
            ) by {
                if i == base + ix {
                    assert(found@[before.len() as int] == position);
                } else {
                    assert(listed(before, i));
                    let j = choose|j: int| 0 <= j < before.len() && #[trigger] before[j] == i;
                    assert(found@[j] == i);
                }
            }
            assert forall|k: u32| k < 32 implies #[trigger] bit_set(mask, k) == (k >= ix + 1
                && bit_set(whole, k)) by {
                assert(bit_set(mask, k) == (k != ix && bit_set(old_mask, k)));
                assert(bit_set(old_mask, k) == (k >= done && bit_set(whole, k)));
                if k < ix {
                    assert(!bit_set(old_mask, k));
                }
            }
            done = ix + 1;
        }
    }
    proof {
        lemma_no_bits(mask);
        let to = if base + 16 <= s.len() {
            base + 16
        } else {
            s.len() as int
        };
        assert forall|i: int| from <= i < to && is_html_special(#[trigger] s[i]) implies listed(
            found@,
            i,
        ) by {
            if i >= base + done {
                let k: u32 = (i - base) as u32;
                assert(!bit_set(mask, k));
                assert(!bit_set(whole, k));
                assert(s[base + k] == s[i]);
            }
        }
    }
}

/// The positions at or after `offset` at which `bytes` holds one of the bytes
/// `"`, `&`, `<`, `>`, in rising order.
///
/// The bytes are walked in chunks of [`VECTOR_SIZE`]; the last chunk is read
/// from the end of the slice, and the bits of bytes already seen are shifted
/// off.
pub fn foreach_special_simd(bytes: &[u8], offset: usize) -> (found: Vec<usize>)
    requires
        bytes@.len() >= VECTOR_SIZE,
        offset <= bytes@.len(),
    ensures
        lists_special(bytes@, offset as int, bytes@.len() as int, found@),
{
    let ghost from = offset as int;
    let mut found: Vec<usize> = Vec::new();
    let mut offset = offset;
    let len = bytes.len();
    let upperbound = len - VECTOR_SIZE;
    while offset < upperbound
        invariant
            len == bytes@.len(),
            from <= offset <= len,
            upperbound == len - VECTOR_SIZE,
            from > upperbound ==> offset == from,
            from <= upperbound ==> offset < upperbound + VECTOR_SIZE,
            lists_special(bytes@, from, offset as int, found@),
        decreases len - offset,
    {
        let mask = compute_mask(bytes, offset);
        proof {
            assert forall|k: u32| k < 16 implies #[trigger] bit_set(mask, k) == (offset + k < len
                && is_html_special(bytes@[offset + k])) by {}
        }
        push_set_bits(&mut found, mask, offset, Ghost(bytes@), Ghost(from));
        offset += VECTOR_SIZE;
    }
    let mask = compute_mask(bytes, upperbound);
    let shift: u32 = (offset - upperbound) as u32;
    proof {
        lemma_shifted_bits(mask, shift);
        assert forall|k: u32| k < 16 implies #[trigger] bit_set(mask >> shift, k) == (offset + k
            < len && is_html_special(bytes@[offset + k])) by {
            if k + shift < 16 {
                let lane: u32 = (k + shift) as u32;
                assert(bit_set(mask, lane) == is_html_special(bytes@[upperbound + lane]));
            }
        }
    }
    push_set_bits(&mut found, mask >> shift, offset, Ghost(bytes@), Ghost(from));
    found
}

/// Where copying resumes once the first `k` positions of `found` are done.
pub open spec fn resume_at(found: Seq<usize>, k: int) -> int {
    if k <= 0 {
        0
    } else {
        found[k - 1] + 1
    }
}

/// What stands written once the first `k` positions of `found` are done: for
/// each of them, the bytes of `s` since the one before, and then what replaces
/// the byte at that position.
pub open spec fn spliced_prefix(s: Seq<u8>, found: Seq<usize>, k: int) -> Seq<u8>
    decreases k,
{
    if k <= 0 {
        Seq::empty()
    } else {
        spliced_prefix(s, found, k - 1) + s.subrange(resume_at(found, k - 1), found[k - 1] as int)
            + html_escaped_byte(s[found[k - 1] as int])
    }
}

/// The bytes of `s` with the byte at each position of `found` replaced, and
/// the bytes between them copied.
pub open spec fn spliced(s: Seq<u8>, found: Seq<usize>) -> Seq<u8> {
    spliced_prefix(s, found, found.len() as int) + s.subrange(
        resume_at(found, found.len() as int),
        s.len() as int,
    )
}

/// Between two neighbours of a full list of the reserved positions, and after
/// its last, no byte is reserved.
proof fn lemma_plain_between(s: Seq<u8>, found: Seq<usize>, k: int)
    requires
        lists_special(s, 0, s.len() as int, found),
        0 <= k <= found.len(),
    ensures
        0 <= resume_at(found, k) <= s.len(),
        k < found.len() ==> resume_at(found, k) <= found[k] < s.len(),
        html_plain(
            s.subrange(
                resume_at(found, k),
                if k < found.len() {
                    found[k] as int
                } else {
                    s.len() as int
                },
            ),
        ),
{
    let from = resume_at(found, k);
    let to = if k < found.len() {
        found[k] as int
    } else {
        s.len() as int
    };
    if k > 0 {
        assert(found[k - 1] < s.len());
    }
    if k < found.len() {
        assert(found[k] < s.len());
        if k > 0 {
            assert(found[k - 1] < found[k]);
        }
    }
    assert forall|i: int| 0 <= i < to - from implies !is_html_special(
        #[trigger] s.subrange(from, to)[i],
    ) by {
        let at = from + i;
        if is_html_special(s[at]) {
            assert(listed(found, at));
            let j = choose|j: int| 0 <= j < found.len() && #[trigger] found[j] == at;
            if j < k {
                if j < k - 1 {
                    assert(found[j] < found[k - 1]);
                }
            } else {
                if j > k {
                    assert(found[k] < found[j]);
                }
            }
        }
    }
}

/// Splicing at all the reserved positions up to the `k`th is escaping up to
/// the byte after it.
pub proof fn lemma_spliced_prefix(s: Seq<u8>, found: Seq<usize>, k: int)
    requires
        lists_special(s, 0, s.len() as int, found),
        0 <= k <= found.len(),
    ensures
        0 <= resume_at(found, k) <= s.len(),
        spliced_prefix(s, found, k) == html_escaped(s.subrange(0, resume_at(found, k))),
    decreases k,
{
    if k == 0 {
        assert(s.subrange(0, 0) =~= Seq::<u8>::empty());
    } else {
        lemma_spliced_prefix(s, found, k - 1);
        lemma_plain_between(s, found, k - 1);
        let from = resume_at(found, k - 1);
        let at = found[k - 1] as int;
        let done = s.subrange(0, from);
        let run = s.subrange(from, at);
        lemma_html_escaped_plain(run);
        lemma_html_escaped_concat(done, run);
        assert(done + run =~= s.subrange(0, at));
        assert(s.subrange(0, at + 1).drop_last() =~= s.subrange(0, at));
        assert(is_html_special(s[at]));
    }
}

/// The chunked path and the scalar path agree: replacing the bytes at the
/// positions that the masks give, and copying the rest, is the escaping of the
/// whole string byte by byte.
pub proof fn lemma_spliced_is_escaped(s: Seq<u8>, found: Seq<usize>)
    requires
        lists_special(s, 0, s.len() as int, found),
    ensures
        spliced(s, found) == html_escaped(s),
{
    let k = found.len() as int;
    lemma_spliced_prefix(s, found, k);
    lemma_plain_between(s, found, k);
    let from = resume_at(found, k);
    let done = s.subrange(0, from);
    let run = s.subrange(from, s.len() as int);
    lemma_html_escaped_plain(run);
    lemma_html_escaped_concat(done, run);
    assert(done + run =~= s);
}

/// Appends to `w` the HTML escaping of `s`.
///
/// A string of at least [`VECTOR_SIZE`] bytes is scanned in chunks, and the
/// bytes at the positions found are replaced; a shorter one is scanned byte by
/// byte. Either way the same bytes are written.
pub fn escape_html(w: &mut Vec<u8>, s: &[u8])
    ensures
        final(w)@ == old(w)@ + html_escaped(s@),
        s@.len() >= VECTOR_SIZE ==> exists|found: Seq<usize>|
            lists_special(s@, 0, s@.len() as int, found) && final(w)@ == old(w)@ + spliced(
                s@,
                found,
            ),
{
    if s.len() >= VECTOR_SIZE {
        let found = foreach_special_simd(s, 0);
        let len = s.len();
        let mut mark: usize = 0;
        let mut k: usize = 0;
        while k < found.len()
            invariant
                0 <= k <= found@.len(),
                len == s@.len(),
                lists_special(s@, 0, s@.len() as int, found@),
                mark == resume_at(found@, k as int),
                w@ == old(w)@ + spliced_prefix(s@, found@, k as int),
            decreases found@.len() - k,
        {
            let i = found[k];
            proof {
                lemma_plain_between(s@, found@, k as int);
            }
            extend(w, slice_subrange(s, mark, i));
            mark = i + 1;
            extend(w, html_replacement(s[i]));
            k += 1;
            assert(w@ =~= old(w)@ + spliced_prefix(s@, found@, k as int));
        }
        proof {
            lemma_plain_between(s@, found@, k as int);
            lemma_spliced_is_escaped(s@, found@);
        }
        extend(w, slice_subrange(s, mark, len));
        assert(w@ =~= old(w)@ + spliced(s@, found@));
    } else {
        escape_html_scalar(w, s)
    }
}

} // verus!
