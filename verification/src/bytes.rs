//! Tensors of plain numbers as bytes. Numbers are handled by their bit patterns, and stand in
//! memory in the byte order of the machine.
use vstd::prelude::*;
use vstd::arithmetic::div_mod::lemma_mod_bound;
use crate::bits::{le16_of, le32_of};
use crate::kv::{is_ring_write, law_write_lands_at_ring_row, ring_row_of, write_kv};
use crate::ops::{at, lemma_at};

verus! {

/// The 16-bit word at byte `i`, high byte first.
pub open spec fn be16_of(b: Seq<u8>, i: int) -> int {
    256 * b[i] + b[i + 1]
}

/// The 32-bit word at byte `i`, high byte first.
pub open spec fn be32_of(b: Seq<u8>, i: int) -> int {
    65536 * be16_of(b, i) + be16_of(b, i + 2)
}

/// `b` are the bytes of the 16-bit words `w`, with the low byte first or with the high byte first.
pub open spec fn halves_in(b: Seq<u8>, w: Seq<u16>, low_first: bool) -> bool {
    &&& b.len() == 2 * w.len()
    &&& forall|i: int|
        0 <= i < w.len() ==> #[trigger] w[i] == if low_first {
            le16_of(b, 2 * i)
        } else {
            be16_of(b, 2 * i)
        }
}

/// `b` are the bytes of the 32-bit words `w`, with the low byte first or with the high byte first.
pub open spec fn words_in(b: Seq<u8>, w: Seq<u32>, low_first: bool) -> bool {
    &&& b.len() == 4 * w.len()
    &&& forall|i: int|
        0 <= i < w.len() ==> #[trigger] w[i] == if low_first {
            le32_of(b, 4 * i)
        } else {
            be32_of(b, 4 * i)
        }
}

/// `b` are the bytes of the 16-bit words `w`, in one of the two byte orders.
pub open spec fn are_halves(b: Seq<u8>, w: Seq<u16>) -> bool {
    halves_in(b, w, true) || halves_in(b, w, false)
}

/// `b` are the bytes of the 32-bit words `w`, in one of the two byte orders.
pub open spec fn are_words(b: Seq<u8>, w: Seq<u32>) -> bool {
    words_in(b, w, true) || words_in(b, w, false)
}

/// `bytemuck::try_cast_slice` from bytes to 32-bit words: it refuses a number of bytes that is no
/// whole number of words, and else reads the memory of the bytes as words in the byte order of the
/// machine. It also refuses bytes whose address is not that of a word; on which addresses it does
/// is left unsaid.
#[verifier::external_body]
fn cast_to_words(bytes: &[u8]) -> (r: Option<Vec<u32>>)
    ensures
        bytes@.len() % 4 != 0 ==> r is None,
        r matches Some(w) ==> are_words(bytes@, w@),
{
    bytemuck::try_cast_slice::<u8, u32>(bytes).ok().map(|w| w.to_vec())
}

/// `bytemuck::try_cast_slice` from bytes to 16-bit words: it refuses an odd number of bytes, and
/// else reads the memory of the bytes as words in the byte order of the machine. It also refuses
/// bytes whose address is not that of a word; on which addresses it does is left unsaid.
#[verifier::external_body]
fn cast_to_halves(bytes: &[u8]) -> (r: Option<Vec<u16>>)
    ensures
        bytes@.len() % 2 != 0 ==> r is None,
        r matches Some(w) ==> are_halves(bytes@, w@),
{
    bytemuck::try_cast_slice::<u8, u16>(bytes).ok().map(|w| w.to_vec())
}

/// `bytemuck::cast_slice` from 32-bit words to bytes: the memory of the words, in the byte order of
/// the machine. Bytes have no address or number that it refuses.
#[verifier::external_body]
fn cast_from_words(words: &[u32]) -> (r: Vec<u8>)
    ensures
        are_words(r@, words@),
{
    bytemuck::cast_slice::<u32, u8>(words).to_vec()
}

/// `bytemuck::cast_slice` from 16-bit words to bytes: the memory of the words, in the byte order of
/// the machine. Bytes have no address or number that it refuses.
#[verifier::external_body]
fn cast_from_halves(words: &[u16]) -> (r: Vec<u8>)
    ensures
        are_halves(r@, words@),
{
    bytemuck::cast_slice::<u16, u8>(words).to_vec()
}

/// The first `need` of a run of 32-bit words. `None` where the bytes do not hold as many, where they
/// are no whole number of words, or where they do not stand at the address of a word. The address is
/// not part of what is known of the bytes, so no run is promised to be read; `first_of` says what
/// comes of either outcome of the cast.
pub fn read_words(bytes: &[u8], need: usize) -> (r: Option<Vec<u32>>)
    ensures
        bytes@.len() % 4 != 0 || bytes@.len() as int / 4 < need ==> r is None,
        r matches Some(w) ==> w@.len() == need && exists|all: Seq<u32>| #[trigger] are_words(bytes@, all) && w@
            == all.take(need as int),
{
    first_of(cast_to_words(bytes), need)
}

/// The first `need` of a run of 16-bit words. `None` where the bytes do not hold as many, where they
/// are no whole number of words, or where they do not stand at the address of a word. The address is
/// not part of what is known of the bytes, so no run is promised to be read; `first_of` says what
/// comes of either outcome of the cast.
pub fn read_halves(bytes: &[u8], need: usize) -> (r: Option<Vec<u16>>)
    ensures
        bytes@.len() % 2 != 0 || bytes@.len() as int / 2 < need ==> r is None,
        r matches Some(w) ==> w@.len() == need && exists|all: Seq<u16>| #[trigger] are_halves(bytes@, all) && w@
            == all.take(need as int),
{
    first_of(cast_to_halves(bytes), need)
}

/// The first `need` of the words that a cast gave. `None` where the cast was refused, or gave fewer.
pub fn first_of<T>(cast: Option<Vec<T>>, need: usize) -> (r: Option<Vec<T>>)
    ensures
        r is Some <==> cast is Some && need <= cast->0@.len(),
        r is Some ==> r->0@ == cast->0@.take(need as int),
{
    match cast {
        None => None,
        Some(words) => {
            let ghost all = words@;
            let mut words: Vec<T> = words;
            if words.len() < need {
                return None;
            }
            words.truncate(need);
            assert(words@ == all.take(need as int));
            Some(words)
        },
    }
}

/// Overwrites a tensor's bytes with the given 32-bit words. Reports whether the tensor has room for
/// exactly as many; where it does not, it is left as it was.
pub fn write_words(dst: &mut Vec<u8>, words: &[u32]) -> (done: bool)
    ensures
        done <==> old(dst)@.len() == 4 * words@.len(),
        done ==> are_words(final(dst)@, words@),
        !done ==> final(dst)@ == old(dst)@,
{
    let bytes: Vec<u8> = cast_from_words(words);
    if bytes.len() != dst.len() {
        return false;
    }
    *dst = bytes;
    true
}

/// Writes `rows` rows of `rs` 32-bit words into a ring cache of `cap` rows, the first at position
/// `pos`.
pub fn write_kv_words(cache: &mut Vec<u8>, src: &[u32], rs: usize, cap: usize, pos: usize, rows: usize)
    requires
        0 < cap,
        4 * rs <= usize::MAX,
        cap * (4 * rs) <= old(cache)@.len(),
        rows * rs <= src@.len(),
        pos + rows <= usize::MAX,
        pos % cap + rows <= 2 * cap,
    ensures
        exists|b: Seq<u8>|
            #![trigger are_words(b, src@)]
            are_words(b, src@) && is_ring_write(
                old(cache)@,
                final(cache)@,
                b,
                4 * rs,
                cap as int,
                pos as int,
                rows as int,
            ),
{
    let bytes: Vec<u8> = cast_from_words(src);
    proof {
        assert(rows * (4 * rs) == 4 * (rows * rs)) by (nonlinear_arith);
    }
    write_kv(cache, &bytes, 4 * rs, cap, pos, rows);
    assert(are_words(bytes@, src@));
}

/// Writes `rows` rows of `rs` 16-bit words into a ring cache of `cap` rows, the first at position
/// `pos`.
pub fn write_kv_halves(cache: &mut Vec<u8>, src: &[u16], rs: usize, cap: usize, pos: usize, rows: usize)
    requires
        0 < cap,
        2 * rs <= usize::MAX,
        cap * (2 * rs) <= old(cache)@.len(),
        rows * rs <= src@.len(),
        pos + rows <= usize::MAX,
        pos % cap + rows <= 2 * cap,
    ensures
        exists|b: Seq<u8>|
            #![trigger are_halves(b, src@)]
            are_halves(b, src@) && is_ring_write(
                old(cache)@,
                final(cache)@,
                b,
                2 * rs,
                cap as int,
                pos as int,
                rows as int,
            ),
{
    let bytes: Vec<u8> = cast_from_halves(src);
    proof {
        assert(rows * (2 * rs) == 2 * (rows * rs)) by (nonlinear_arith);
    }
    write_kv(cache, &bytes, 2 * rs, cap, pos, rows);
    assert(are_halves(bytes@, src@));
}

/// Byte `t` of element `j` of a row of elements of `n` bytes.
proof fn lemma_elem_byte(rs: int, n: int, c: int, j: int, t: int, rows: int)
    requires
        0 < n,
        0 <= c < rows,
        0 <= j < rs,
        0 <= t < n,
    ensures
        n * (c * rs + j) + t == c * (n * rs) + (n * j + t),
        0 <= n * j + t < n * rs,
        0 <= c * rs + j < rows * rs,
{
    assert(n * (c * rs + j) + t == c * (n * rs) + (n * j + t)) by (nonlinear_arith);
    assert(0 <= n * j && n * j + n <= n * rs) by (nonlinear_arith)
        requires
            0 <= j,
            j + 1 <= rs,
            0 < n,
    ;
    lemma_at(rs, c, j, rows);
}

/// Byte `t` of element `j` of source row `i` stands in the cache row of position `pos + i`.
proof fn lemma_written_byte(
    old_cache: Seq<u8>,
    new: Seq<u8>,
    written: Seq<u8>,
    n: int,
    rs: int,
    cap: int,
    pos: int,
    rows: int,
    i: int,
    j: int,
    t: int,
)
    requires
        0 < n,
        is_ring_write(old_cache, new, written, n * rs, cap, pos, rows),
        0 <= pos,
        0 <= i < rows <= cap,
        0 <= j < rs,
        0 <= t < n,
    ensures
        new[n * (ring_row_of(cap, pos + i) * rs + j) + t] == written[n * (i * rs + j) + t],
{
    let c = ring_row_of(cap, pos + i);
    lemma_mod_bound(pos + i, cap);
    law_write_lands_at_ring_row(cap, pos, rows, i);
    lemma_elem_byte(rs, n, c, j, t, cap);
    lemma_elem_byte(rs, n, i, j, t, rows);
    assert(at(new, n * rs, c, n * j + t) == at(written, n * rs, i, n * j + t));
}

/// What was written is found: read in the byte order in which it was written, element `j` of the
/// cache row of position `pos + i` is element `j` of source row `i`.
pub proof fn law_written_words_are_found(
    old_cache: Seq<u8>,
    new: Seq<u8>,
    written: Seq<u8>,
    src: Seq<u32>,
    all: Seq<u32>,
    low_first: bool,
    rs: int,
    cap: int,
    pos: int,
    rows: int,
    i: int,
    j: int,
)
    requires
        words_in(written, src, low_first),
        words_in(new, all, low_first),
        rows * rs <= src.len(),
        cap * rs <= all.len(),
        is_ring_write(old_cache, new, written, 4 * rs, cap, pos, rows),
        0 <= pos,
        0 <= i < rows <= cap,
        0 <= j < rs,
    ensures
        all[ring_row_of(cap, pos + i) * rs + j] == src[i * rs + j],
{
    let c = ring_row_of(cap, pos + i);
    lemma_mod_bound(pos + i, cap);
    let (x, y) = (c * rs + j, i * rs + j);
    lemma_written_byte(old_cache, new, written, 4, rs, cap, pos, rows, i, j, 0);
    lemma_written_byte(old_cache, new, written, 4, rs, cap, pos, rows, i, j, 1);
    lemma_written_byte(old_cache, new, written, 4, rs, cap, pos, rows, i, j, 2);
    lemma_written_byte(old_cache, new, written, 4, rs, cap, pos, rows, i, j, 3);
    lemma_elem_byte(rs, 4, c, j, 0, cap);
    lemma_elem_byte(rs, 4, i, j, 0, rows);
    assert(all[x] == src[y]);
}

/// The same for 16-bit elements.
pub proof fn law_written_halves_are_found(
    old_cache: Seq<u8>,
    new: Seq<u8>,
    written: Seq<u8>,
    src: Seq<u16>,
    all: Seq<u16>,
    low_first: bool,
    rs: int,
    cap: int,
    pos: int,
    rows: int,
    i: int,
    j: int,
)
    requires
        halves_in(written, src, low_first),
        halves_in(new, all, low_first),
        rows * rs <= src.len(),
        cap * rs <= all.len(),
        is_ring_write(old_cache, new, written, 2 * rs, cap, pos, rows),
        0 <= pos,
        0 <= i < rows <= cap,
        0 <= j < rs,
    ensures
        all[ring_row_of(cap, pos + i) * rs + j] == src[i * rs + j],
{
    let c = ring_row_of(cap, pos + i);
    lemma_mod_bound(pos + i, cap);
    let (x, y) = (c * rs + j, i * rs + j);
    lemma_written_byte(old_cache, new, written, 2, rs, cap, pos, rows, i, j, 0);
    lemma_written_byte(old_cache, new, written, 2, rs, cap, pos, rows, i, j, 1);
    lemma_elem_byte(rs, 2, c, j, 0, cap);
    lemma_elem_byte(rs, 2, i, j, 0, rows);
    assert(all[x] == src[y]);
}

/// Words that are read are the bytes in their order, four to a word, all with the low byte first or
/// all with the high byte first.
pub proof fn law_words_are_their_bytes(bytes: &[u8], need: usize, r: Option<Vec<u32>>)
    requires
        call_ensures(read_words, (bytes, need), r),
        r is Some,
    ensures
        r->0@.len() == need,
        4 * need <= bytes@.len(),
        ({
            let w = r->0@;
            ||| forall|i: int|
                0 <= i < need ==> (#[trigger] w[i]) == bytes@[4 * i] + 256 * bytes@[4 * i + 1]
                    + 65536 * bytes@[4 * i + 2]
                    + 16777216 * bytes@[4 * i + 3]
            ||| forall|i: int|
                0 <= i < need ==> (#[trigger] w[i]) == 16777216 * bytes@[4 * i] + 65536 * bytes@[4 * i + 1] + 256
                    * bytes@[4 * i + 2] + bytes@[4 * i + 3]
        }),
{
    let w = r->0@;
    let all = choose|all: Seq<u32>| #[trigger] are_words(bytes@, all) && w == all.take(need as int);
    assert(need <= all.len());
    if words_in(bytes@, all, true) {
        assert forall|i: int| 0 <= i < need implies (#[trigger] w[i]) == bytes@[4 * i] + 256 * bytes@[4 * i + 1] + 65536
            * bytes@[4 * i + 2] + 16777216 * bytes@[4 * i + 3] by {
            assert(w[i] == all[i]);
        }
    } else {
        assert forall|i: int| 0 <= i < need implies (#[trigger] w[i]) == 16777216 * bytes@[4 * i] + 65536 * bytes@[4 * i
            + 1] + 256 * bytes@[4 * i + 2] + bytes@[4 * i + 3] by {
            assert(w[i] == all[i]);
        }
    }
}

/// Halves that are read are the bytes in their order, two to a half, all with the low byte first or
/// all with the high byte first.
pub proof fn law_halves_are_their_bytes(bytes: &[u8], need: usize, r: Option<Vec<u16>>)
    requires
        call_ensures(read_halves, (bytes, need), r),
        r is Some,
    ensures
        r->0@.len() == need,
        2 * need <= bytes@.len(),
        ({
            let w = r->0@;
            ||| forall|i: int| 0 <= i < need ==> (#[trigger] w[i]) == bytes@[2 * i] + 256 * bytes@[2 * i + 1]
            ||| forall|i: int| 0 <= i < need ==> (#[trigger] w[i]) == 256 * bytes@[2 * i] + bytes@[2 * i + 1]
        }),
{
    let w = r->0@;
    let all = choose|all: Seq<u16>| #[trigger] are_halves(bytes@, all) && w == all.take(need as int);
    assert(need <= all.len());
    if halves_in(bytes@, all, true) {
        assert forall|i: int| 0 <= i < need implies (#[trigger] w[i]) == bytes@[2 * i] + 256 * bytes@[2 * i + 1] by {
            assert(w[i] == all[i]);
        }
    } else {
        assert forall|i: int| 0 <= i < need implies (#[trigger] w[i]) == 256 * bytes@[2 * i] + bytes@[2 * i + 1] by {
            assert(w[i] == all[i]);
        }
    }
}

/// Words that are written fill the tensor, or leave it alone where they do not fit it; written and
/// read in one byte order they are the same words.
pub proof fn law_words_come_back(dst: &mut Vec<u8>, words: &[u32], done: bool, i: int, low_first: bool, back: Seq<u32>)
    requires
        call_ensures(write_words, (dst, words), done),
        done ==> words_in(final(dst)@, words@, low_first),
        done ==> words_in(final(dst)@, back, low_first),
        0 <= i < words@.len(),
    ensures
        done <==> old(dst)@.len() == 4 * words@.len(),
        !done ==> final(dst)@ == old(dst)@,
        done ==> final(dst)@.len() == old(dst)@.len(),
        done ==> back[i] == words@[i],
        done ==> {
            let b = final(dst)@;
            ||| words@[i] == b[4 * i] + 256 * b[4 * i + 1] + 65536 * b[4 * i + 2] + 16777216 * b[4 * i + 3]
            ||| words@[i] == 16777216 * b[4 * i] + 65536 * b[4 * i + 1] + 256 * b[4 * i + 2] + b[4 * i + 3]
        },
{
    if done {
        assert(words@[i] == if low_first {
            le32_of(final(dst)@, 4 * i)
        } else {
            be32_of(final(dst)@, 4 * i)
        });
        assert(back[i] == words@[i]);
    }
}

/// The first words of a cast, and none where there are fewer or the cast was refused.
pub proof fn law_first_words<T>(cast: Option<Vec<T>>, need: usize, r: Option<Vec<T>>, i: int)
    requires
        call_ensures(first_of::<T>, (cast, need), r),
    ensures
        cast is None ==> r is None,
        cast is Some && cast->0@.len() < need ==> r is None,
        cast is Some && cast->0@.len() >= need ==> r is Some && r->0@.len() == need,
        r is Some && 0 <= i < need ==> r->0@[i] == cast->0@[i],
{
}

/// What is written to a cache of 32-bit numbers: byte `t` of element `j` of source row `s` stands
/// in the row of position `pos + s`, in one of the two byte orders.
pub proof fn law_cache_words(
    cache: &mut Vec<u8>,
    src: &[u32],
    rs: usize,
    cap: usize,
    pos: usize,
    rows: usize,
    s: int,
    turns: int,
    c: int,
    j: int,
)
    requires
        call_ensures(write_kv_words, (cache, src, rs, cap, pos, rows), ()),
        rows * rs <= src@.len(),
        0 <= s < rows <= cap,
        0 <= j < rs,
        0 <= c < cap,
        pos + s == turns * cap + c,
    ensures
        final(cache)@.len() == old(cache)@.len(),
        ({
            let b = final(cache)@;
            let at = 4 * (c * rs + j);
            let w = src@[s * rs + j];
            ||| w == b[at] + 256 * b[at + 1] + 65536 * b[at + 2] + 16777216 * b[at + 3]
            ||| w == 16777216 * b[at] + 65536 * b[at + 1] + 256 * b[at + 2] + b[at + 3]
        }),
{
    let w = choose|b: Seq<u8>|
        #![trigger are_words(b, src@)]
        are_words(b, src@) && is_ring_write(
            old(cache)@,
            final(cache)@,
            b,
            4 * rs,
            cap as int,
            pos as int,
            rows as int,
        );
    vstd::arithmetic::div_mod::lemma_fundamental_div_mod_converse(pos + s, cap as int, turns, c);
    lemma_written_byte(old(cache)@, final(cache)@, w, 4, rs as int, cap as int, pos as int, rows as int, s, j, 0);
    lemma_written_byte(old(cache)@, final(cache)@, w, 4, rs as int, cap as int, pos as int, rows as int, s, j, 1);
    lemma_written_byte(old(cache)@, final(cache)@, w, 4, rs as int, cap as int, pos as int, rows as int, s, j, 2);
    lemma_written_byte(old(cache)@, final(cache)@, w, 4, rs as int, cap as int, pos as int, rows as int, s, j, 3);
    lemma_at(rs as int, s, j, rows as int);
    let y = s * rs + j;
    assert(src@[y] == le32_of(w, 4 * y) || src@[y] == be32_of(w, 4 * y));
}

/// The same for a cache of 16-bit numbers.
pub proof fn law_cache_halves(
    cache: &mut Vec<u8>,
    src: &[u16],
    rs: usize,
    cap: usize,
    pos: usize,
    rows: usize,
    s: int,
    turns: int,
    c: int,
    j: int,
)
    requires
        call_ensures(write_kv_halves, (cache, src, rs, cap, pos, rows), ()),
        rows * rs <= src@.len(),
        0 <= s < rows <= cap,
        0 <= j < rs,
        0 <= c < cap,
        pos + s == turns * cap + c,
    ensures
        final(cache)@.len() == old(cache)@.len(),
        ({
            let b = final(cache)@;
            let at = 2 * (c * rs + j);
            let w = src@[s * rs + j];
            ||| w == b[at] + 256 * b[at + 1]
            ||| w == 256 * b[at] + b[at + 1]
        }),
{
    let w = choose|b: Seq<u8>|
        #![trigger are_halves(b, src@)]
        are_halves(b, src@) && is_ring_write(
            old(cache)@,
            final(cache)@,
            b,
            2 * rs,
            cap as int,
            pos as int,
            rows as int,
        );
    vstd::arithmetic::div_mod::lemma_fundamental_div_mod_converse(pos + s, cap as int, turns, c);
    lemma_written_byte(old(cache)@, final(cache)@, w, 2, rs as int, cap as int, pos as int, rows as int, s, j, 0);
    lemma_written_byte(old(cache)@, final(cache)@, w, 2, rs as int, cap as int, pos as int, rows as int, s, j, 1);
    lemma_at(rs as int, s, j, rows as int);
    let y = s * rs + j;
    assert(src@[y] == le16_of(w, 2 * y) || src@[y] == be16_of(w, 2 * y));
}

} // verus!
