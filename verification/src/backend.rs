//! Host buffers, and what the backend keeps from call to call.
use std::collections::HashMap;
use vstd::prelude::*;
use crate::ops::{copy_run, overlaid};

verus! {

broadcast use vstd::std_specs::hash::group_hash_axioms;

/// A host buffer: bytes of its own, or a read-only view of bytes that stand elsewhere.
pub enum CpuBuffer<'a> {
    Owned(Vec<u8>),
    Mapped(&'a [u8]),
}

impl<'a> CpuBuffer<'a> {
    /// The bytes.
    pub open spec fn view(&self) -> Seq<u8> {
        match *self {
            CpuBuffer::Owned(v) => v@,
            CpuBuffer::Mapped(s) => s@,
        }
    }

    /// The bytes, whichever way they are stored.
    pub fn read(&self) -> (r: &[u8])
        ensures
            r@ == self@,
    {
        match self {
            CpuBuffer::Owned(v) => v.as_slice(),
            CpuBuffer::Mapped(s) => s,
        }
    }

    /// The number of bytes.
    pub fn len_bytes(&self) -> (r: usize)
        ensures
            r == self@.len(),
    {
        match self {
            CpuBuffer::Owned(v) => v.len(),
            CpuBuffer::Mapped(s) => s.len(),
        }
    }

    /// Whether the buffer can be written.
    pub fn is_owned(&self) -> (r: bool)
        ensures
            r == (*self is Owned),
    {
        matches!(self, CpuBuffer::Owned(_))
    }
}

/// The key of a pack: the address and the length of the bytes that it was made from.
pub open spec fn pack_key_of(addr: usize, len: usize) -> int {
    addr * 0x1_0000_0000_0000_0000 + len
}

/// The key of a pack.
pub fn pack_key(addr: usize, len: usize) -> (key: u128)
    ensures
        key == pack_key_of(addr, len),
{
    addr as u128 * 0x1_0000_0000_0000_0000 + len as u128
}

/// Two runs of bytes have one key only if they are the same run.
pub proof fn law_pack_key_is_unique(a: usize, m: usize, b: usize, n: usize)
    ensures
        pack_key_of(a, m) == pack_key_of(b, n) ==> a == b && m == n,
{
}

/// The number of bytes of the packs after a pack of `bytes` bytes was settled: it grows by those
/// of a new pack that fits.
pub open spec fn settled_total(total: int, held: bool, bytes: int, budget: int) -> int {
    if !held && total + bytes <= budget {
        total + bytes
    } else {
        total
    }
}

/// The number of bytes of the packs after a run of calls, each with whether the pack was held and
/// its number of bytes.
pub open spec fn total_after(total: int, calls: Seq<(bool, nat)>, budget: int) -> int
    decreases calls.len(),
{
    if calls.len() == 0 {
        total
    } else {
        settled_total(total_after(total, calls.drop_last(), budget), calls.last().0, calls.last().1 as int, budget)
    }
}

/// Under one budget the packs never take more than it, whatever packs are settled.
pub proof fn law_packs_stay_within_budget(total: int, calls: Seq<(bool, nat)>, budget: int)
    requires
        total <= budget,
    ensures
        total <= total_after(total, calls, budget) <= budget,
    decreases calls.len(),
{
    if calls.len() > 0 {
        law_packs_stay_within_budget(total, calls.drop_last(), budget);
    }
}

/// Packs that were made from weights, under a budget of bytes.
pub struct PackCache<P> {
    packs: HashMap<u128, P>,
    bytes: usize,
}

impl<P> PackCache<P> {
    /// The packs by key.
    pub closed spec fn packs(&self) -> Map<u128, P> {
        self.packs@
    }

    /// The number of bytes of the packs.
    pub closed spec fn bytes(&self) -> int {
        self.bytes as int
    }

    /// Whether a pack of the run of bytes is here.
    pub open spec fn holds(&self, addr: usize, len: usize) -> bool {
        self.packs().dom().contains(pack_key_of(addr, len) as u128)
    }

    /// A cache of no packs.
    pub fn new() -> (r: PackCache<P>)
        ensures
            r.packs() == Map::<u128, P>::empty(),
            r.bytes() == 0,
    {
        PackCache { packs: HashMap::new(), bytes: 0 }
    }

    /// The pack of a run of bytes, if it is here.
    pub fn find(&self, addr: usize, len: usize) -> (r: Option<&P>)
        ensures
            r == if self.holds(addr, len) {
                Some(&self.packs()[pack_key_of(addr, len) as u128])
            } else {
                None
            },
    {
        let key: u128 = pack_key(addr, len);
        self.packs.get(&key)
    }

    /// Keeps the pack of a run of bytes, of `bytes` bytes itself, if that stays within the budget.
    /// Over budget nothing changes. Reports whether the pack is kept. Where a pack of the run is
    /// held already, the new one takes its place and the bytes of both are counted; `settle` leaves
    /// such a run alone.
    pub fn keep(&mut self, addr: usize, len: usize, pack: P, bytes: usize, budget_mb: usize) -> (kept: bool)
        requires
            old(self).bytes() + bytes <= usize::MAX,
            budget_mb * 1048576 <= usize::MAX,
        ensures
            kept <==> old(self).bytes() + bytes <= budget_mb * 1048576,
            kept ==> final(self).packs() == old(self).packs().insert(pack_key_of(addr, len) as u128, pack),
            kept ==> final(self).bytes() == old(self).bytes() + bytes,
            !kept ==> final(self).packs() == old(self).packs() && final(self).bytes() == old(self).bytes(),
            old(self).bytes() <= budget_mb * 1048576 ==> final(self).bytes() <= budget_mb * 1048576,
    {
        if self.bytes + bytes <= budget_mb * 1024 * 1024 {
            self.bytes = self.bytes + bytes;
            let key: u128 = pack_key(addr, len);
            self.packs.insert(key, pack);
            true
        } else {
            false
        }
    }

    /// Takes the pack that was built for a run of bytes. Where a pack of the run is held, nothing
    /// changes; else the pack is kept if that stays within the budget. A pack that is not kept
    /// comes back.
    pub fn settle(&mut self, addr: usize, len: usize, built: P, bytes: usize, budget_mb: usize) -> (back: Option<P>)
        requires
            old(self).holds(addr, len) || old(self).bytes() + bytes <= usize::MAX && budget_mb * 1048576 <= usize::MAX,
        ensures
            back is None <==> !old(self).holds(addr, len) && old(self).bytes() + bytes <= budget_mb * 1048576,
            back is Some ==> back->0 == built,
            back is Some ==> final(self).packs() == old(self).packs(),
            back is None ==> final(self).packs() == old(self).packs().insert(pack_key_of(addr, len) as u128, built),
            final(self).bytes() == settled_total(
                old(self).bytes(),
                old(self).holds(addr, len),
                bytes as int,
                budget_mb * 1048576,
            ),
    {
        if self.find(addr, len).is_some() {
            return Some(built);
        }
        if self.bytes + bytes <= budget_mb * 1024 * 1024 {
            let kept: bool = self.keep(addr, len, built, bytes, budget_mb);
            assert(kept);
            None
        } else {
            Some(built)
        }
    }

    /// The pack of a run of bytes, whatever the cache holds and the budget allows: the one that is
    /// held, or else the one that was built, which is kept if it fits.
    pub fn pack_for<'a>(&'a mut self, addr: usize, len: usize, built: P, bytes: usize, budget_mb: usize) -> (r: Pack<'a, P>)
        requires
            old(self).holds(addr, len) || old(self).bytes() + bytes <= usize::MAX && budget_mb * 1048576 <= usize::MAX,
        ensures
            r.pack() == if old(self).holds(addr, len) {
                old(self).packs()[pack_key_of(addr, len) as u128]
            } else {
                built
            },
            r is Built <==> !old(self).holds(addr, len) && old(self).bytes() + bytes > budget_mb * 1048576,
            final(self).packs() == if !old(self).holds(addr, len) && old(self).bytes() + bytes <= budget_mb * 1048576 {
                old(self).packs().insert(pack_key_of(addr, len) as u128, built)
            } else {
                old(self).packs()
            },
            final(self).bytes() == settled_total(
                old(self).bytes(),
                old(self).holds(addr, len),
                bytes as int,
                budget_mb * 1048576,
            ),
    {
        let held: bool = self.find(addr, len).is_some();
        let back: Option<P> = self.settle(addr, len, built, bytes, budget_mb);
        if !held {
            if let Some(p) = back {
                return Pack::Built(p);
            }
        }
        Pack::Kept(self.find(addr, len).unwrap())
    }
}

/// A pack that the caller is handed.
pub enum Pack<'a, P> {
    /// One that the cache holds.
    Kept(&'a P),
    /// One that the cache has no room for.
    Built(P),
}

impl<'a, P> Pack<'a, P> {
    /// The pack itself.
    pub open spec fn pack(&self) -> P {
        match self {
            Pack::Kept(p) => **p,
            Pack::Built(p) => *p,
        }
    }
}

/// The budget in megabytes: what was asked for, or 4096.
pub fn budget_mb(asked: Option<usize>) -> (r: usize)
    ensures
        r == (match asked {
            Some(mb) => mb,
            None => 4096usize,
        }),
{
    match asked {
        Some(mb) => mb,
        None => 4096,
    }
}

/// What the backend keeps from call to call: weights that were read once, by the address of their
/// buffer, and packs of the two packed weight types.
pub struct CpuBackend<W, P> {
    pub weights: HashMap<usize, W>,
    pub repack: PackCache<P>,
    pub repack6: PackCache<P>,
}

impl<W, P> CpuBackend<W, P> {
    /// A backend that has seen nothing yet.
    pub fn new() -> (r: CpuBackend<W, P>)
        ensures
            r.weights@ == Map::<usize, W>::empty(),
            r.repack.packs() == Map::<u128, P>::empty(),
            r.repack.bytes() == 0,
            r.repack6.packs() == Map::<u128, P>::empty(),
            r.repack6.bytes() == 0,
    {
        CpuBackend { weights: HashMap::new(), repack: PackCache::new(), repack6: PackCache::new() }
    }

    /// The backend's name.
    pub fn name(&self) -> (r: &'static str)
        ensures
            r@ == "cpu"@,
    {
        "cpu"
    }

    /// A read-only buffer over bytes that stand elsewhere. Nothing is copied.
    pub fn map_weight<'a>(&self, bytes: &'a [u8]) -> (r: CpuBuffer<'a>)
        ensures
            r == CpuBuffer::Mapped(bytes),
    {
        CpuBuffer::Mapped(bytes)
    }

    /// A buffer of at least four bytes, all of them `fill`.
    fn filled<'a>(&self, bytes: usize, fill: u8) -> (r: CpuBuffer<'a>)
        ensures
            r is Owned,
            r@.len() == if bytes < 4 {
                4
            } else {
                bytes as int
            },
            forall|i: int| 0 <= i < r@.len() ==> #[trigger] r@[i] == fill,
    {
        let n: usize = if bytes < 4 {
            4
        } else {
            bytes
        };
        let mut v: Vec<u8> = Vec::new();
        let mut i: usize = 0;
        while i < n
            invariant
                i <= n,
                v@.len() == i,
                forall|k: int| 0 <= k < i ==> #[trigger] v@[k] == fill,
            decreases n - i,
        {
            v.push(fill);
            i = i + 1;
        }
        CpuBuffer::Owned(v)
    }

    /// A buffer of at least four bytes, all of them 0.
    pub fn alloc_zeroed<'a>(&self, bytes: usize) -> (r: CpuBuffer<'a>)
        ensures
            r is Owned,
            r@.len() == if bytes < 4 {
                4
            } else {
                bytes as int
            },
            forall|i: int| 0 <= i < r@.len() ==> #[trigger] r@[i] == 0,
    {
        self.filled(bytes, 0)
    }

    /// A buffer of at least four bytes that is to be written before it is read. With `poison` its
    /// bytes are such that a read before a write shows up as numbers that are no numbers.
    pub fn alloc_uninit<'a>(&self, bytes: usize, poison: bool) -> (r: CpuBuffer<'a>)
        ensures
            r is Owned,
            r@.len() == if bytes < 4 {
                4
            } else {
                bytes as int
            },
            forall|i: int|
                0 <= i < r@.len() ==> #[trigger] r@[i] == if poison {
                    0xffu8
                } else {
                    0u8
                },
    {
        let fill: u8 = if poison {
            0xff
        } else {
            0
        };
        self.filled(bytes, fill)
    }

    /// Writes `src` at the start of a buffer; what is behind it stays.
    pub fn upload(&self, dst: &mut CpuBuffer, src: &[u8])
        requires
            *old(dst) is Owned,
            src@.len() <= old(dst)@.len(),
        ensures
            *final(dst) is Owned,
            final(dst)@ == overlaid(old(dst)@, 0, src@),
    {
        if let CpuBuffer::Owned(v) = dst {
            copy_run(v, 0, src, 0, src.len());
            assert(src@.subrange(0, src@.len() as int) =~= src@);
        }
    }

    /// Fills `dst` from the start of a buffer.
    pub fn download(&self, src: &CpuBuffer, dst: &mut Vec<u8>)
        requires
            old(dst)@.len() <= src@.len(),
        ensures
            final(dst)@ == src@.take(old(dst)@.len() as int),
    {
        let bytes: &[u8] = src.read();
        let n: usize = dst.len();
        copy_run(dst, 0, bytes, 0, n);
        assert(dst@ =~= src@.take(n as int));
    }

    /// The values of the weight in the buffer at `addr`, if they were kept.
    pub fn cached_weight(&self, addr: usize) -> (r: Option<&W>)
        ensures
            r == if self.weights@.dom().contains(addr) {
                Some(&self.weights@[addr])
            } else {
                None
            },
    {
        self.weights.get(&addr)
    }

    /// Keeps the values of the weight in the buffer at `addr`.
    pub fn keep_weight(&mut self, addr: usize, values: W)
        ensures
            final(self).weights@ == old(self).weights@.insert(addr, values),
            final(self).repack == old(self).repack,
            final(self).repack6 == old(self).repack6,
    {
        self.weights.insert(addr, values);
    }
}

/// What was uploaded is what a download of as many bytes gives.
pub proof fn law_upload_then_download(before: Seq<u8>, src: Seq<u8>)
    requires
        src.len() <= before.len(),
    ensures
        overlaid(before, 0, src).take(src.len() as int) == src,
{
    assert(overlaid(before, 0, src).take(src.len() as int) =~= src);
}

/// A weight that was kept is found at its address, and those at other addresses are untouched.
pub proof fn law_kept_weight_is_found<W>(weights: Map<usize, W>, addr: usize, values: W, other: usize)
    ensures
        weights.insert(addr, values).dom().contains(addr),
        weights.insert(addr, values)[addr] == values,
        other != addr ==> weights.insert(addr, values).dom().contains(other) == weights.dom().contains(other),
        other != addr && weights.dom().contains(other) ==> weights.insert(addr, values)[other] == weights[other],
{
}

/// A pack that was kept is found under the run that it was made from, and no other run's pack is
/// touched.
pub proof fn law_kept_pack_is_found<P>(packs: Map<u128, P>, addr: usize, len: usize, pack: P, b: usize, n: usize)
    ensures
        ({
            let after = packs.insert(pack_key_of(addr, len) as u128, pack);
            let other = pack_key_of(b, n) as u128;
            &&& after.dom().contains(pack_key_of(addr, len) as u128)
            &&& after[pack_key_of(addr, len) as u128] == pack
            &&& (b, n) != (addr, len) ==> after.dom().contains(other) == packs.dom().contains(other) && (
            packs.dom().contains(other) ==> after[other] == packs[other])
        }),
{
    law_pack_key_is_unique(addr, len, b, n);
}

/// The key of a pack is the address of its run above 64 bits of length.
pub proof fn law_pack_key_parts(addr: usize, len: usize, key: u128)
    requires
        call_ensures(pack_key, (addr, len), key),
    ensures
        key as int % 0x1_0000_0000_0000_0000 == len,
        key as int / 0x1_0000_0000_0000_0000 == addr,
{
    vstd::arithmetic::div_mod::lemma_fundamental_div_mod_converse(
        key as int,
        0x1_0000_0000_0000_0000,
        addr as int,
        len as int,
    );
}

/// A pack that was handed over is at hand afterwards: it is held, or it came back. It comes back
/// where a pack of the run was held before, or where it does not fit the budget; then nothing
/// changed.
pub proof fn law_settled_pack_is_at_hand<P>(
    c: &mut PackCache<P>,
    addr: usize,
    len: usize,
    built: P,
    bytes: usize,
    mb: usize,
    back: Option<P>,
    before: Option<&P>,
    after: Option<&P>,
    b: usize,
    n: usize,
    other_before: Option<&P>,
    other_after: Option<&P>,
)
    requires
        call_ensures(PackCache::<P>::find, (&*old(c), addr, len), before),
        call_ensures(PackCache::<P>::find, (&*old(c), b, n), other_before),
        call_ensures(PackCache::<P>::settle, (c, addr, len, built, bytes, mb), back),
        call_ensures(PackCache::<P>::find, (&*final(c), addr, len), after),
        call_ensures(PackCache::<P>::find, (&*final(c), b, n), other_after),
        (b, n) != (addr, len),
    ensures
        before is Some ==> back == Some(built) && after == before,
        before is None && old(c).bytes() + bytes <= mb * 1024 * 1024 ==> back is None && after is Some && *after->0
            == built && final(c).bytes() == old(c).bytes() + bytes,
        before is None && old(c).bytes() + bytes > mb * 1024 * 1024 ==> back == Some(built) && after is None,
        back is Some ==> final(c).bytes() == old(c).bytes(),
        other_after == other_before,
{
    law_pack_key_is_unique(addr, len, b, n);
}

/// The pack that is handed out is the one that was held, or else the one that was built.
pub proof fn law_pack_is_handed_out<P>(
    c: &mut PackCache<P>,
    addr: usize,
    len: usize,
    built: P,
    bytes: usize,
    mb: usize,
    r: Pack<P>,
    before: Option<&P>,
)
    requires
        call_ensures(PackCache::<P>::find, (&*old(c), addr, len), before),
        call_ensures(PackCache::<P>::pack_for, (c, addr, len, built, bytes, mb), r),
    ensures
        before is Some ==> r.pack() == *before->0 && r is Kept,
        before is None ==> r.pack() == built,
        before is None ==> (r is Kept <==> old(c).bytes() + bytes <= mb * 1024 * 1024),
{
}

/// An asked budget stands; without one it is four gigabytes.
pub proof fn law_budget(asked: Option<usize>, mb: usize)
    requires
        call_ensures(budget_mb, (asked,), mb),
    ensures
        asked is Some ==> mb == asked->0,
        asked is None ==> mb * 1024 * 1024 == 0x1_0000_0000,
{
}

/// A buffer holds what was asked for, four bytes at least; zeros, or bytes that make no numbers where
/// reads before writes are to show.
pub proof fn law_new_buffers<W, P>(be: &CpuBackend<W, P>, n: usize, poison: bool, z: CpuBuffer, u: CpuBuffer, i: int)
    requires
        call_ensures(CpuBackend::<W, P>::alloc_zeroed, (be, n), z),
        call_ensures(CpuBackend::<W, P>::alloc_uninit, (be, n, poison), u),
    ensures
        z@.len() == u@.len(),
        z@.len() >= 4,
        z@.len() >= n,
        z@.len() == n || z@.len() == 4,
        0 <= i < z@.len() ==> z@[i] == 0,
        0 <= i < u@.len() && !poison ==> u@[i] == 0,
        0 <= i < u@.len() && poison ==> u@[i] == 255,
        z is Owned && u is Owned,
{
}

/// An upload changes the first bytes to those that were sent and no others, and a download gives the
/// first bytes.
pub proof fn law_uploads_and_downloads<W, P>(
    be: &CpuBackend<W, P>,
    buf: &mut CpuBuffer,
    src: &[u8],
    from: &CpuBuffer,
    dst: &mut Vec<u8>,
    i: int,
)
    requires
        call_ensures(CpuBackend::<W, P>::upload, (be, buf, src), ()),
        src@.len() <= old(buf)@.len(),
        call_ensures(CpuBackend::<W, P>::download, (be, from, dst), ()),
        old(dst)@.len() <= from@.len(),
    ensures
        final(buf)@.len() == old(buf)@.len(),
        0 <= i < src@.len() ==> final(buf)@[i] == src@[i],
        src@.len() <= i < old(buf)@.len() ==> final(buf)@[i] == old(buf)@[i],
        final(dst)@.len() == old(dst)@.len(),
        0 <= i < old(dst)@.len() ==> final(dst)@[i] == from@[i],
{
}

/// A mapped buffer is the bytes themselves, and what is read of a buffer is what it holds.
pub proof fn law_buffers_hold<W, P>(
    be: &CpuBackend<W, P>,
    bytes: &[u8],
    m: CpuBuffer,
    b: &CpuBuffer,
    r: &[u8],
    n: usize,
)
    requires
        call_ensures(CpuBackend::<W, P>::map_weight, (be, bytes), m),
        call_ensures(CpuBuffer::read, (b,), r),
        call_ensures(CpuBuffer::len_bytes, (b,), n),
    ensures
        m is Mapped,
        m@ == bytes@,
        *b == m ==> r@ == bytes@ && n == bytes@.len(),
        n == r@.len(),
{
}

/// A weight is found where it was kept, and nowhere else; the others stay.
pub proof fn law_weights_are_kept<W, P>(
    be: &mut CpuBackend<W, P>,
    addr: usize,
    values: W,
    other: usize,
    before: Option<&W>,
    after: Option<&W>,
    own: Option<&W>,
)
    requires
        call_ensures(CpuBackend::<W, P>::cached_weight, (&*old(be), other), before),
        call_ensures(CpuBackend::<W, P>::keep_weight, (be, addr, values), ()),
        call_ensures(CpuBackend::<W, P>::cached_weight, (&*final(be), other), after),
        call_ensures(CpuBackend::<W, P>::cached_weight, (&*final(be), addr), own),
        other != addr,
    ensures
        own is Some,
        *own->0 == values,
        after == before,
{
}

/// A new backend has kept nothing.
pub proof fn law_new_backend<W, P>(
    be: CpuBackend<W, P>,
    addr: usize,
    len: usize,
    w: Option<&W>,
    p: Option<&P>,
    q: Option<&P>,
)
    requires
        call_ensures(CpuBackend::<W, P>::new, (), be),
        call_ensures(CpuBackend::<W, P>::cached_weight, (&be, addr), w),
        call_ensures(PackCache::<P>::find, (&be.repack, addr, len), p),
        call_ensures(PackCache::<P>::find, (&be.repack6, addr, len), q),
    ensures
        w is None && p is None && q is None,
        be.repack.bytes() == 0,
        be.repack6.bytes() == 0,
{
}

/// A pack is kept exactly where it fits what is left of the budget, and is then found.
pub proof fn law_pack_is_kept<P>(
    c: &mut PackCache<P>,
    addr: usize,
    len: usize,
    pack: P,
    bytes: usize,
    mb: usize,
    kept: bool,
    before: Option<&P>,
    after: Option<&P>,
)
    requires
        call_ensures(PackCache::<P>::find, (&*old(c), addr, len), before),
        call_ensures(PackCache::<P>::keep, (c, addr, len, pack, bytes, mb), kept),
        call_ensures(PackCache::<P>::find, (&*final(c), addr, len), after),
    ensures
        kept <==> old(c).bytes() + bytes <= mb * 1024 * 1024,
        kept ==> after is Some && *after->0 == pack && final(c).bytes() == old(c).bytes() + bytes,
        !kept ==> after == before && final(c).bytes() == old(c).bytes(),
{
}

/// The backend tells its name.
pub proof fn law_name<W, P>(be: &CpuBackend<W, P>, name: &'static str)
    requires
        call_ensures(CpuBackend::<W, P>::name, (be,), name),
    ensures
        name@ == seq!['c', 'p', 'u'],
{
    reveal_strlit("cpu");
    assert(name@ =~= seq!['c', 'p', 'u']);
}

/// A new buffer may be written, a mapped one may not.
pub proof fn law_owned_buffers<W, P>(
    be: &CpuBackend<W, P>,
    n: usize,
    bytes: &[u8],
    z: CpuBuffer,
    m: CpuBuffer,
    a: bool,
    b: bool,
)
    requires
        call_ensures(CpuBackend::<W, P>::alloc_zeroed, (be, n), z),
        call_ensures(CpuBackend::<W, P>::map_weight, (be, bytes), m),
        call_ensures(CpuBuffer::is_owned, (&z,), a),
        call_ensures(CpuBuffer::is_owned, (&m,), b),
    ensures
        a,
        !b,
{
}

} // verus!
