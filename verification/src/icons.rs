//! Icon resolution service state: a bitmap cache and a pending set.
//!
//! Looking an icon up never blocks: a cached result (even a recorded
//! failure) is returned at once; otherwise a load job is handed back to
//! the caller to run off-thread, and at most one job is outstanding per
//! icon name, however often the name is requested. A delivery stores the
//! result — success or permanent failure — and clears the pending mark.

use vstd::prelude::*;
use crate::text::str_eq;

verus! {

/// A decoded icon bitmap: RGBA bytes, four per pixel, premultiplied.
pub struct Bitmap {
    /// Width in pixels.
    pub width: u32,
    /// Height in pixels.
    pub height: u32,
    /// Pixel bytes, `4 * width * height` of them when well-formed.
    pub data: Vec<u8>,
}

impl Bitmap {
    /// The byte buffer covers exactly the advertised pixel grid.
    pub open spec fn wf(self) -> bool {
        self.data@.len() == 4 * self.width * self.height
    }
}

/// The two bitmaps hold the same pixels.
pub open spec fn same_bitmap(a: Bitmap, b: Bitmap) -> bool {
    a.width == b.width && a.height == b.height && a.data@ == b.data@
}

/// Both absent, or the same pixels.
pub open spec fn same_opt_bitmap(a: Option<Bitmap>, b: Option<Bitmap>) -> bool {
    match (a, b) {
        (None, None) => true,
        (Some(x), Some(y)) => same_bitmap(x, y),
        _ => false,
    }
}

/// Copies an RGBA byte buffer.
fn clone_bytes(data: &Vec<u8>) -> (r: Vec<u8>)
    ensures
        r@ == data@,
{
    let mut out: Vec<u8> = Vec::new();
    let n = data.len();
    let mut i: usize = 0;
    while i < n
        invariant
            n == data@.len(),
            i <= n,
            out@ == data@.take(i as int),
        decreases n - i,
    {
        out.push(data[i]);
        proof {
            assert(out@ =~= data@.take(i + 1));
        }
        i += 1;
    }
    proof {
        assert(data@.take(n as int) =~= data@);
    }
    out
}

impl Clone for Bitmap {
    /// A pixel-for-pixel copy.
    fn clone(&self) -> (r: Self)
        ensures
            same_bitmap(r, *self),
    {
        Bitmap { width: self.width, height: self.height, data: clone_bytes(&self.data) }
    }
}

/// Pixel `p` of `after` is pixel `p` of `before` with each color channel
/// multiplied by the alpha channel, rounding down; alpha is unchanged.
pub open spec fn premultiplied_pixel(before: Seq<u8>, after: Seq<u8>, p: int) -> bool {
    &&& after[4 * p] == (before[4 * p] * before[4 * p + 3] / 255) as u8
    &&& after[4 * p + 1] == (before[4 * p + 1] * before[4 * p + 3] / 255) as u8
    &&& after[4 * p + 2] == (before[4 * p + 2] * before[4 * p + 3] / 255) as u8
    &&& after[4 * p + 3] == before[4 * p + 3]
}

/// Multiplies the color channels of every complete RGBA pixel by its
/// alpha channel, rounding down; alpha and any trailing partial pixel
/// stay as they are.
pub fn premultiply_alpha(data: &mut Vec<u8>)
    ensures
        final(data)@.len() == old(data)@.len(),
        forall|p: int|
            0 <= p < old(data)@.len() / 4 ==> premultiplied_pixel(old(data)@, final(data)@, p),
        forall|j: int|
            4 * (old(data)@.len() / 4) <= j < old(data)@.len() ==> final(data)@[j] == old(
                data,
            )@[j],
{
    let n = data.len();
    let pixels = n / 4;
    let mut p: usize = 0;
    while p < pixels
        invariant
            n == data@.len(),
            n == old(data)@.len(),
            pixels == n / 4,
            p <= pixels,
            forall|q: int| 0 <= q < p ==> premultiplied_pixel(old(data)@, data@, q),
            forall|j: int| 4 * p <= j < n ==> data@[j] == old(data)@[j],
        decreases pixels - p,
    {
        let ghost d0 = data@;
        proof {
            vstd::arithmetic::div_mod::lemma_fundamental_div_mod(n as int, 4);
            assert(4 * (p as int) + 3 < n as int);
        }
        let base = 4 * p;
        let a = data[base + 3];
        let c0 = data[base];
        let c1 = data[base + 1];
        let c2 = data[base + 2];
        proof {
            assert((c0 as u32) * (a as u32) / 255 <= 255) by (nonlinear_arith)
                requires c0 as u32 <= 255 && a as u32 <= 255,
            ;
            assert((c1 as u32) * (a as u32) / 255 <= 255) by (nonlinear_arith)
                requires c1 as u32 <= 255 && a as u32 <= 255,
            ;
            assert((c2 as u32) * (a as u32) / 255 <= 255) by (nonlinear_arith)
                requires c2 as u32 <= 255 && a as u32 <= 255,
            ;
        }
        let r0 = ((c0 as u32) * (a as u32) / 255) as u8;
        let g0 = ((c1 as u32) * (a as u32) / 255) as u8;
        let b0 = ((c2 as u32) * (a as u32) / 255) as u8;
        data[base] = r0;
        data[base + 1] = g0;
        data[base + 2] = b0;
        proof {
            assert(premultiplied_pixel(old(data)@, data@, p as int));
            assert forall|q: int| 0 <= q < p implies premultiplied_pixel(
                old(data)@,
                data@,
                q,
            ) by {
                assert(premultiplied_pixel(old(data)@, d0, q));
                assert(data@[4 * q] == d0[4 * q]);
                assert(data@[4 * q + 1] == d0[4 * q + 1]);
                assert(data@[4 * q + 2] == d0[4 * q + 2]);
                assert(data@[4 * q + 3] == d0[4 * q + 3]);
            }
        }
        p += 1;
    }
}

/// A load job for the worker: the icon name and the requested square
/// pixel size.
pub struct IconJob {
    /// Logical icon name or path to load.
    pub name: String,
    /// Requested square size in pixels.
    pub size: u32,
}

/// Outcome of an icon lookup.
pub enum IconLookup {
    /// The name is cached: a bitmap, or a recorded permanent failure.
    Hit(Option<Bitmap>),
    /// Not cached yet. `Some(job)` asks the caller to start this load;
    /// `None` means a load is already under way.
    Miss(Option<IconJob>),
}

/// Cached bitmaps and outstanding load requests, by icon name.
pub struct IconCache {
    /// One binding per requested name: the bitmap, or a recorded failure.
    pub cache: Vec<(String, Option<Bitmap>)>,
    /// Names whose load is under way.
    pub pending: Vec<String>,
}

/// Some string in `p` reads `n`.
pub open spec fn names_contain(p: Seq<String>, n: Seq<char>) -> bool {
    exists|k: int| 0 <= k < p.len() && p[k]@ == n
}

/// Cache binding for `name`: the first one wins.
pub open spec fn cache_lookup(
    c: Seq<(String, Option<Bitmap>)>,
    name: Seq<char>,
) -> Option<Option<Bitmap>>
    decreases c.len(),
{
    if c.len() == 0 {
        None
    } else if c[0].0@ == name {
        Some(c[0].1)
    } else {
        cache_lookup(c.drop_first(), name)
    }
}

proof fn lemma_cache_lookup_step(c: Seq<(String, Option<Bitmap>)>, name: Seq<char>, i: int)
    requires
        0 <= i < c.len(),
        forall|k: int| 0 <= k < i ==> c[k].0@ != name,
    ensures
        c[i].0@ == name ==> cache_lookup(c, name) == Some(c[i].1),
        (forall|k: int| 0 <= k <= i ==> c[k].0@ != name) && i == c.len() - 1 ==> cache_lookup(
            c,
            name,
        ) is None,
    decreases i,
{
    if i == 0 {
        if c[0].0@ != name && c.len() == 1 {
            assert(cache_lookup(c.drop_first(), name) is None);
        }
    } else {
        assert(c.drop_first()[i - 1] == c[i]);
        assert(forall|k: int| 0 <= k < i - 1 ==> c.drop_first()[k] == c[k + 1]);
        lemma_cache_lookup_step(c.drop_first(), name, i - 1);
    }
}

impl IconCache {
    /// The recorded result for `name`, if any: `Some(None)` is a load
    /// that failed and will not be retried this session.
    pub open spec fn cached_entry(self, name: Seq<char>) -> Option<Option<Bitmap>> {
        cache_lookup(self.cache@, name)
    }

    /// A load for `name` is under way.
    pub open spec fn is_pending(self, name: Seq<char>) -> bool {
        names_contain(self.pending@, name)
    }

    /// No icon name is marked pending twice.
    pub open spec fn wf(self) -> bool {
        forall|i: int, j: int|
            0 <= i < j < self.pending@.len() ==> self.pending@[i]@ != self.pending@[j]@
    }

    /// An empty cache: nothing stored, nothing pending.
    pub fn new() -> (r: IconCache)
        ensures
            forall|n: Seq<char>| r.cached_entry(n) is None,
            forall|n: Seq<char>| !r.is_pending(n),
            r.wf(),
    {
        IconCache { cache: Vec::new(), pending: Vec::new() }
    }

    /// Looks `name` up. A cached result is returned at once; otherwise
    /// the name is marked pending and a load job is handed back, unless
    /// one is already under way. Never blocks, never issues a second job
    /// for a pending name.
    pub fn get(&mut self, name: &str, size: u32) -> (r: IconLookup)
        requires
            old(self).wf(),
        ensures
            final(self).wf(),
            request_step(
                *old(self),
                *final(self),
                name@,
                (r is Miss && r->Miss_0 is Some),
            ),
            match r {
                IconLookup::Hit(b) => old(self).cached_entry(name@) is Some && same_opt_bitmap(
                    b,
                    old(self).cached_entry(name@)->Some_0,
                ),
                IconLookup::Miss(job) => old(self).cached_entry(name@) is None && (job is Some
                    <==> !old(self).is_pending(name@)) && (job is Some ==> job->Some_0.name@
                    == name@ && job->Some_0.size == size),
            },
    {
        let nc = self.cache.len();
        let mut i: usize = 0;
        while i < nc
            invariant
                nc == self.cache@.len(),
                i <= nc,
                *self == *old(self),
                old(self).wf(),
                forall|k: int| 0 <= k < i ==> self.cache@[k].0@ != name@,
            decreases nc - i,
        {
            if str_eq(self.cache[i].0.as_str(), name) {
                proof {
                    lemma_cache_lookup_step(self.cache@, name@, i as int);
                }
                let stored = &self.cache[i].1;
                let copy = match stored {
                    Some(bm) => Some(bm.clone()),
                    None => None,
                };
                return IconLookup::Hit(copy);
            }
            i += 1;
        }
        proof {
            if nc > 0 {
                lemma_cache_lookup_step(self.cache@, name@, nc - 1);
            }
        }
        let np = self.pending.len();
        let mut i: usize = 0;
        while i < np
            invariant
                np == self.pending@.len(),
                i <= np,
                *self == *old(self),
                old(self).wf(),
                old(self).cached_entry(name@) is None,
                forall|k: int| 0 <= k < i ==> self.pending@[k]@ != name@,
            decreases np - i,
        {
            if str_eq(self.pending[i].as_str(), name) {
                proof {
                    assert(old(self).pending@[i as int]@ == name@);
                    assert(names_contain(old(self).pending@, name@));
                }
                return IconLookup::Miss(None);
            }
            i += 1;
        }
        self.pending.push(name.to_owned());
        proof {
            assert forall|n: Seq<char>|
                #[trigger] names_contain(self.pending@, n) <==> (names_contain(
                old(self).pending@,
                n,
            ) || n == name@) by {
                if names_contain(self.pending@, n) {
                    let k = choose|k: int|
                        0 <= k < self.pending@.len() && self.pending@[k]@ == n;
                    if k < np {
                        assert(old(self).pending@[k]@ == n);
                        assert(names_contain(old(self).pending@, n));
                    }
                }
                if names_contain(old(self).pending@, n) {
                    let k = choose|k: int|
                        0 <= k < old(self).pending@.len() && old(self).pending@[k]@ == n;
                    assert(self.pending@[k]@ == n);
                    assert(names_contain(self.pending@, n));
                }
                if n == name@ {
                    assert(self.pending@[np as int]@ == n);
                    assert(names_contain(self.pending@, n));
                }
            }
        }
        IconLookup::Miss(Some(IconJob { name: name.to_owned(), size }))
    }

    /// Stores a completed load for `name` — a bitmap, or a permanent
    /// failure — and clears its pending mark.
    pub fn insert(&mut self, name: String, bitmap: Option<Bitmap>)
        requires
            old(self).wf(),
        ensures
            final(self).wf(),
            final(self).cached_entry(name@) == Some(bitmap),
            forall|n: Seq<char>|
                n != name@ ==> final(self).cached_entry(n) == old(self).cached_entry(n),
            forall|n: Seq<char>|
                final(self).is_pending(n) <==> (old(self).is_pending(n) && n != name@),
    {
        let ghost pre = *self;
        remove_pending(&mut self.pending, name.as_str());
        let ghost pend2 = self.pending@;
        let nc = self.cache.len();
        let mut i: usize = 0;
        while i < nc
            invariant
                nc == self.cache@.len(),
                i <= nc,
                pre == *old(self),
                self.cache == pre.cache,
                self.pending@ == pend2,
                forall|x: int, y: int| 0 <= x < y < pend2.len() ==> pend2[x]@ != pend2[y]@,
                forall|n: Seq<char>|
                    #[trigger] names_contain(pend2, n) <==> (names_contain(pre.pending@, n) && n
                        != name@),
                forall|k: int| 0 <= k < i ==> self.cache@[k].0@ != name@,
            decreases nc - i,
        {
            if str_eq(self.cache[i].0.as_str(), name.as_str()) {
                self.cache[i] = (name, bitmap);
                proof {
                    lemma_cache_update(pre.cache@, self.cache@, name@, i as int, bitmap);
                }
                return;
            }
            i += 1;
        }
        proof {
            if nc > 0 {
                lemma_cache_lookup_step(self.cache@, name@, nc - 1);
            }
        }
        self.cache.push((name, bitmap));
        proof {
            assert(self.cache@ =~= pre.cache@.push(self.cache@[nc as int]));
            lemma_cache_append(pre.cache@, name@, self.cache@[nc as int]);
        }
    }
}

/// How one lookup changes the cache: a cached or pending name leaves the
/// state alone; a fresh name is marked pending, and `enqueued` says a
/// load job was handed out — which happens exactly then.
pub open spec fn request_step(
    pre: IconCache,
    post: IconCache,
    name: Seq<char>,
    enqueued: bool,
) -> bool {
    if pre.cached_entry(name) is Some || pre.is_pending(name) {
        post == pre && !enqueued
    } else {
        &&& enqueued
        &&& post.cache@ == pre.cache@
        &&& forall|n: Seq<char>| #[trigger] post.is_pending(n) <==> (pre.is_pending(n) || n == name)
    }
}

/// Repeated lookups of one name issue at most one load job: of two
/// consecutive lookups, never both enqueue, and on a name that is
/// neither cached nor pending it is exactly the first that does.
pub proof fn lemma_single_job(
    pre: IconCache,
    mid: IconCache,
    post: IconCache,
    name: Seq<char>,
    first_enqueued: bool,
    second_enqueued: bool,
)
    requires
        request_step(pre, mid, name, first_enqueued),
        request_step(mid, post, name, second_enqueued),
    ensures
        !(first_enqueued && second_enqueued),
        pre.cached_entry(name) is None && !pre.is_pending(name) ==> first_enqueued
            && !second_enqueued,
{
    if pre.cached_entry(name) is None && !pre.is_pending(name) {
        assert(mid.is_pending(name));
    }
}

proof fn lemma_cache_update(
    before: Seq<(String, Option<Bitmap>)>,
    after: Seq<(String, Option<Bitmap>)>,
    name: Seq<char>,
    i: int,
    bitmap: Option<Bitmap>,
)
    requires
        0 <= i < before.len(),
        after.len() == before.len(),
        before[i].0@ == name,
        after[i].0@ == name,
        after[i].1 == bitmap,
        forall|k: int| 0 <= k < i ==> before[k].0@ != name,
        forall|k: int| 0 <= k < before.len() && k != i ==> after[k] == before[k],
    ensures
        cache_lookup(after, name) == Some(bitmap),
        forall|n: Seq<char>| n != name ==> cache_lookup(after, n) == cache_lookup(before, n),
    decreases i,
{
    if i == 0 {
        assert(after.drop_first() =~= before.drop_first());
        assert forall|n: Seq<char>| n != name implies cache_lookup(after, n) == cache_lookup(
            before,
            n,
        ) by {
            assert(cache_lookup(after, n) == cache_lookup(after.drop_first(), n));
            assert(cache_lookup(before, n) == cache_lookup(before.drop_first(), n));
        }
    } else {
        assert(forall|k: int| 0 <= k < i - 1 ==> before.drop_first()[k] == before[k + 1]);
        assert(forall|k: int|
            0 <= k < after.len() - 1 ==> after.drop_first()[k] == after[k + 1]);
        lemma_cache_update(before.drop_first(), after.drop_first(), name, i - 1, bitmap);
        assert(after[0] == before[0]);
        assert forall|n: Seq<char>| n != name implies cache_lookup(after, n) == cache_lookup(
            before,
            n,
        ) by {
            if before[0].0@ != n {
                assert(cache_lookup(after, n) == cache_lookup(after.drop_first(), n));
                assert(cache_lookup(before, n) == cache_lookup(before.drop_first(), n));
            }
        }
    }
}

proof fn lemma_cache_append(
    before: Seq<(String, Option<Bitmap>)>,
    name: Seq<char>,
    last: (String, Option<Bitmap>),
)
    requires
        last.0@ == name,
        forall|k: int| 0 <= k < before.len() ==> before[k].0@ != name,
    ensures
        cache_lookup(before.push(last), name) == Some(last.1),
        forall|n: Seq<char>|
            n != name ==> cache_lookup(before.push(last), n) == cache_lookup(before, n),
    decreases before.len(),
{
    let appended = before.push(last);
    if before.len() == 0 {
        assert(appended[0] == last);
        assert forall|n: Seq<char>| n != name implies cache_lookup(appended, n) == cache_lookup(
            before,
            n,
        ) by {
            if appended[0].0@ != n {
                assert(appended.drop_first() =~= before);
            }
        }
    } else {
        assert(appended.drop_first() =~= before.drop_first().push(last));
        lemma_cache_append(before.drop_first(), name, last);
        assert(appended[0] == before[0]);
        assert forall|n: Seq<char>| n != name implies cache_lookup(appended, n) == cache_lookup(
            before,
            n,
        ) by {
            if before[0].0@ != n {
                assert(cache_lookup(appended, n) == cache_lookup(appended.drop_first(), n));
                assert(cache_lookup(before, n) == cache_lookup(before.drop_first(), n));
            }
        }
    }
}

/// Removes the (single) pending mark for `name`, if present.
fn remove_pending(pending: &mut Vec<String>, name: &str)
    requires
        forall|i: int, j: int|
            0 <= i < j < old(pending)@.len() ==> old(pending)@[i]@ != old(pending)@[j]@,
    ensures
        forall|i: int, j: int|
            0 <= i < j < final(pending)@.len() ==> final(pending)@[i]@ != final(pending)@[j]@,
        forall|n: Seq<char>|
            #[trigger] names_contain(final(pending)@, n) <==> (names_contain(old(pending)@, n)
                && n != name@),
{
    let np = pending.len();
    let mut i: usize = 0;
    while i < np
        invariant
            np == pending@.len(),
            i <= np,
            *pending == *old(pending),
            forall|x: int, y: int| 0 <= x < y < np ==> pending@[x]@ != pending@[y]@,
            forall|k: int| 0 <= k < i ==> pending@[k]@ != name@,
        decreases np - i,
    {
        if str_eq(pending[i].as_str(), name) {
            let ghost pre = pending@;
            pending.remove(i);
            proof {
                assert(forall|k: int|
                    0 <= k < i ==> final(pending)@[k] == pre[k]);
                assert(forall|k: int|
                    i <= k < final(pending)@.len() ==> final(pending)@[k] == pre[k + 1]);
                assert forall|n: Seq<char>|
                    #[trigger] names_contain(pending@, n) <==> (names_contain(pre, n) && n
                        != name@) by {
                    if names_contain(pending@, n) {
                        let k = choose|k: int|
                            0 <= k < pending@.len() && pending@[k]@ == n;
                        if k < i {
                            assert(pre[k]@ == n);
                            assert(names_contain(pre, n));
                            assert(n != name@);
                        } else {
                            assert(pre[k + 1]@ == n);
                            assert(names_contain(pre, n));
                            assert(pre[i as int]@ == name@);
                            assert(n != name@);
                        }
                    }
                    if names_contain(pre, n) && n != name@ {
                        let k = choose|k: int| 0 <= k < pre.len() && pre[k]@ == n;
                        if k < i {
                            assert(pending@[k]@ == n);
                            assert(names_contain(pending@, n));
                        } else {
                            assert(k > i);
                            assert(pending@[k - 1]@ == n);
                            assert(names_contain(pending@, n));
                        }
                    }
                }
            }
            return;
        }
        i += 1;
    }
}

/// The name is an absolute filesystem path.
pub fn is_absolute_path(name: &str) -> (r: bool)
    ensures
        r == (name@.len() > 0 && name@[0] == '/'),
{
    if name.unicode_len() > 0 {
        name.get_char(0) == '/'
    } else {
        false
    }
}

/// The string ends in the given suffix.
pub fn ends_with_str(s: &str, suffix: &str) -> (r: bool)
    ensures
        r == (s@.len() >= suffix@.len() && s@.skip(s@.len() - suffix@.len()) == suffix@),
{
    let n = s.unicode_len();
    let m = suffix.unicode_len();
    if m > n {
        return false;
    }
    let mut k: usize = 0;
    while k < m
        invariant
            m <= n,
            n == s@.len(),
            m == suffix@.len(),
            k <= m,
            forall|j: int| 0 <= j < k ==> s@[n - m + j] == suffix@[j],
        decreases m - k,
    {
        if s.get_char(n - m + k) != suffix.get_char(k) {
            proof {
                assert(s@.skip(n as int - m as int)[k as int] == s@[n - m + k as int]);
            }
            return false;
        }
        k += 1;
    }
    proof {
        assert(s@.skip(n as int - m as int) =~= suffix@);
    }
    true
}

/// The conventional theme subdirectories searched under each root, in
/// priority order; the empty entry stands for the root itself.
pub open spec fn icon_subdirs() -> Seq<Seq<char>> {
    seq![
        "hicolor/48x48/apps"@,
        "hicolor/scalable/apps"@,
        "hicolor/32x32/apps"@,
        "hicolor/64x64/apps"@,
        "Adwaita/48x48/apps"@,
        "Adwaita/scalable/apps"@,
        ""@,
    ]
}

/// The supported icon file extensions, in priority order.
pub open spec fn icon_extensions() -> Seq<Seq<char>> {
    seq!["png"@, "svg"@, "xpm"@]
}

/// The file path probed for icon `name` under `root` and `sub`.
pub open spec fn icon_candidate(
    root: Seq<char>,
    sub: Seq<char>,
    name: Seq<char>,
    ext: Seq<char>,
) -> Seq<char> {
    if sub.len() == 0 {
        root + seq!['/'] + name + seq!['.'] + ext
    } else {
        root + seq!['/'] + sub + seq!['/'] + name + seq!['.'] + ext
    }
}

/// All file paths to probe for icon `name`, in priority order: theme
/// roots first, then the conventional subdirectories of each root, then
/// the supported extensions. The first existing candidate wins; probing
/// the filesystem is the caller's job.
pub fn icon_candidates(name: &str, roots: &Vec<String>) -> (r: Vec<String>)
    ensures
        r@.len() == roots@.len() * 21,
        forall|i: int, j: int, k: int|
            0 <= i < roots@.len() && 0 <= j < 7 && 0 <= k < 3 ==> #[trigger] r@[(i * 7 + j) * 3
                + k]@ == icon_candidate(
                roots@[i]@,
                icon_subdirs()[j],
                name@,
                icon_extensions()[k],
            ),
{
    let mut subs: Vec<&str> = Vec::new();
    subs.push("hicolor/48x48/apps");
    subs.push("hicolor/scalable/apps");
    subs.push("hicolor/32x32/apps");
    subs.push("hicolor/64x64/apps");
    subs.push("Adwaita/48x48/apps");
    subs.push("Adwaita/scalable/apps");
    subs.push("");
    let mut exts: Vec<&str> = Vec::new();
    exts.push("png");
    exts.push("svg");
    exts.push("xpm");
    proof {
        assert(forall|j: int| 0 <= j < 7 ==> subs@[j]@ == icon_subdirs()[j]);
        assert(forall|k: int| 0 <= k < 3 ==> exts@[k]@ == icon_extensions()[k]);
    }
    let nr = roots.len();
    let mut out: Vec<String> = Vec::new();
    let mut i: usize = 0;
    while i < nr
        invariant
            nr == roots@.len(),
            i <= nr,
            subs@.len() == 7,
            exts@.len() == 3,
            forall|j: int| 0 <= j < 7 ==> subs@[j]@ == icon_subdirs()[j],
            forall|k: int| 0 <= k < 3 ==> exts@[k]@ == icon_extensions()[k],
            out@.len() == i * 21,
            forall|a: int, j: int, k: int|
                0 <= a < i && 0 <= j < 7 && 0 <= k < 3 ==> #[trigger] out@[(a * 7 + j) * 3 + k]@
                    == icon_candidate(roots@[a]@, icon_subdirs()[j], name@, icon_extensions()[k]),
        decreases nr - i,
    {
        let mut j: usize = 0;
        while j < 7
            invariant
                nr == roots@.len(),
                i < nr,
                j <= 7,
                subs@.len() == 7,
                exts@.len() == 3,
                forall|jj: int| 0 <= jj < 7 ==> subs@[jj]@ == icon_subdirs()[jj],
                forall|kk: int| 0 <= kk < 3 ==> exts@[kk]@ == icon_extensions()[kk],
                out@.len() == i * 21 + j * 3,
                forall|a: int, jj: int, kk: int|
                    0 <= a < i && 0 <= jj < 7 && 0 <= kk < 3 ==> #[trigger] out@[(a * 7 + jj) * 3
                        + kk]@ == icon_candidate(
                        roots@[a]@,
                        icon_subdirs()[jj],
                        name@,
                        icon_extensions()[kk],
                    ),
                forall|jj: int, kk: int|
                    0 <= jj < j && 0 <= kk < 3 ==> #[trigger] out@[(i as int * 7 + jj) * 3 + kk]@
                        == icon_candidate(
                        roots@[i as int]@,
                        icon_subdirs()[jj],
                        name@,
                        icon_extensions()[kk],
                    ),
            decreases 7 - j,
        {
            let mut k: usize = 0;
            while k < 3
                invariant
                    nr == roots@.len(),
                    i < nr,
                    j < 7,
                    k <= 3,
                    subs@.len() == 7,
                    exts@.len() == 3,
                    forall|jj: int| 0 <= jj < 7 ==> subs@[jj]@ == icon_subdirs()[jj],
                    forall|kk: int| 0 <= kk < 3 ==> exts@[kk]@ == icon_extensions()[kk],
                    out@.len() == i * 21 + j * 3 + k,
                    forall|a: int, jj: int, kk: int|
                        0 <= a < i && 0 <= jj < 7 && 0 <= kk < 3 ==> #[trigger] out@[(a * 7 + jj)
                            * 3 + kk]@ == icon_candidate(
                            roots@[a]@,
                            icon_subdirs()[jj],
                            name@,
                            icon_extensions()[kk],
                        ),
                    forall|jj: int, kk: int|
                        0 <= jj < j && 0 <= kk < 3 ==> #[trigger] out@[(i as int * 7 + jj) * 3
                            + kk]@ == icon_candidate(
                            roots@[i as int]@,
                            icon_subdirs()[jj],
                            name@,
                            icon_extensions()[kk],
                        ),
                    forall|kk: int|
                        0 <= kk < k ==> #[trigger] out@[(i as int * 7 + j as int) * 3 + kk]@
                            == icon_candidate(
                            roots@[i as int]@,
                            icon_subdirs()[j as int],
                            name@,
                            icon_extensions()[kk],
                        ),
                decreases 3 - k,
            {
                let mut path = String::new();
                path.append(roots[i].as_str());
                path.append("/");
                if subs[j].unicode_len() > 0 {
                    path.append(subs[j]);
                    path.append("/");
                }
                path.append(name);
                path.append(".");
                path.append(exts[k]);
                proof {
                    reveal_strlit("/");
                    reveal_strlit(".");
                    assert("/"@ =~= seq!['/']);
                    assert("."@ =~= seq!['.']);
                    assert(path@ == icon_candidate(
                        roots@[i as int]@,
                        icon_subdirs()[j as int],
                        name@,
                        icon_extensions()[k as int],
                    ));
                }
                out.push(path);
                k += 1;
            }
            j += 1;
        }
        i += 1;
    }
    out
}

} // verus!
