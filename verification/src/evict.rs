//! Byte-capped eviction: the least recently used blobs go first.

use vstd::prelude::*;
use vstd::string::StrSliceExecFns;

verus! {

/// A blob that was written or served within this many nanoseconds is kept.
pub const GRACE_NANOS: i128 = 60_000_000_000;

/// The bytes of a mebibyte.
pub const MIB: u128 = 1_048_576;

/// A file in the cache directory.
pub struct CacheFile {
    pub name: String,
    /// The last use, in nanoseconds since the Unix epoch.
    pub modified: i128,
    pub size: u64,
}

/// Whether a file name has the extension of a blob: something, then `.bin`.
pub open spec fn blob_file_name(name: Seq<char>) -> bool {
    name.len() > 4 && name.skip(name.len() - 4) == seq!['.', 'b', 'i', 'n']
}

/// Whether a file name has the extension of a blob.
pub fn is_blob(name: &str) -> (r: bool)
    ensures
        r == blob_file_name(name@),
{
    let n: usize = name.unicode_len();
    if n <= 4 {
        return false;
    }
    let r = name.get_char(n - 4) == '.' && name.get_char(n - 3) == 'b' && name.get_char(n - 2) == 'i'
        && name.get_char(n - 1) == 'n';
    proof {
        let tail = name@.skip(name@.len() - 4);
        if r {
            assert(tail =~= seq!['.', 'b', 'i', 'n']);
        } else {
            assert(tail[0] == name@[n - 4] && tail[1] == name@[n - 3] && tail[2] == name@[n - 2] && tail[3] == name@[n - 1]);
        }
    }
    r
}

/// The bytes of the files at the given places.
pub open spec fn sum_sizes(files: Seq<CacheFile>, places: Seq<usize>) -> nat
    decreases places.len(),
{
    if places.len() == 0 {
        0
    } else {
        sum_sizes(files, places.drop_last()) + files[places.last() as int].size as nat
    }
}

/// Whether a file was written or served just now. One whose time lies in the
/// future was not.
pub open spec fn in_grace(file: CacheFile, now: int) -> bool {
    file.modified <= now && now - file.modified < GRACE_NANOS
}

/// Whether one file is to go before another: the older first, and of two equally
/// old ones the one that was listed first.
pub open spec fn goes_before(files: Seq<CacheFile>, a: usize, b: usize) -> bool {
    ||| files[a as int].modified < files[b as int].modified
    ||| files[a as int].modified == files[b as int].modified && a < b
}

/// `order` lists the blobs among the first `n` files, the least recently used
/// first.
pub open spec fn lru_order(files: Seq<CacheFile>, order: Seq<usize>, n: int) -> bool {
    &&& forall|k: int| 0 <= k < order.len() ==> (#[trigger] order[k]) < n && blob_file_name(files[order[k] as int].name@)
    &&& forall|i: int| 0 <= i < n && blob_file_name((#[trigger] files[i]).name@) ==> order.contains(i as usize)
    &&& forall|j: int, k: int| 0 <= j < k < order.len() ==> goes_before(files, #[trigger] order[j], #[trigger] order[k])
}

/// What was tried so far: the places of the files, and whether each was removed.
pub type Tried = Seq<(usize, bool)>;

/// Whether the file at a place was tried.
pub open spec fn was_tried(tried: Tried, place: usize) -> bool {
    exists|t: int| 0 <= t < tried.len() && (#[trigger] tried[t]).0 == place
}

/// The bytes of the files that were removed.
pub open spec fn freed_bytes(files: Seq<CacheFile>, tried: Tried) -> nat
    decreases tried.len(),
{
    if tried.len() == 0 {
        0
    } else {
        freed_bytes(files, tried.drop_last()) + (if tried.last().1 {
            files[tried.last().0 as int].size as nat
        } else {
            0
        })
    }
}

proof fn lemma_sum_bound(files: Seq<CacheFile>, places: Seq<usize>)
    ensures
        sum_sizes(files, places) <= places.len() * u64::MAX,
    decreases places.len(),
{
    if places.len() > 0 {
        lemma_sum_bound(files, places.drop_last());
        assert(places.len() * u64::MAX == (places.len() - 1) * u64::MAX + u64::MAX) by (nonlinear_arith);
    }
}

proof fn lemma_sum_monotone(files: Seq<CacheFile>, places: Seq<usize>, k: int)
    requires
        0 <= k <= places.len(),
    ensures
        sum_sizes(files, places.take(k)) <= sum_sizes(files, places),
    decreases places.len() - k,
{
    if k < places.len() {
        lemma_sum_monotone(files, places, k + 1);
        assert(places.take(k + 1).drop_last() =~= places.take(k));
    } else {
        assert(places.take(k) =~= places);
    }
}

/// The bytes of the blobs among the first `n` files.
pub open spec fn blob_bytes(files: Seq<CacheFile>, n: int) -> nat
    decreases n,
{
    if n <= 0 {
        0
    } else {
        blob_bytes(files, n - 1) + (if blob_file_name(files[n - 1].name@) {
            files[n - 1].size as nat
        } else {
            0
        })
    }
}

proof fn lemma_sum_insert(files: Seq<CacheFile>, places: Seq<usize>, at: int, i: usize)
    requires
        0 <= at <= places.len(),
    ensures
        sum_sizes(files, places.insert(at, i)) == sum_sizes(files, places) + files[i as int].size,
    decreases places.len(),
{
    let longer = places.insert(at, i);
    if at == places.len() {
        assert(longer.drop_last() =~= places);
    } else {
        lemma_sum_insert(files, places.drop_last(), at, i);
        assert(longer.drop_last() =~= places.drop_last().insert(at, i));
        assert(longer.last() == places.last());
    }
}

/// List the blobs, the least recently used first; equally old ones stay in the
/// order in which they were listed.
pub fn order_blobs(files: &Vec<CacheFile>) -> (order: Vec<usize>)
    ensures
        lru_order(files@, order@, files@.len() as int),
        sum_sizes(files@, order@) == blob_bytes(files@, files@.len() as int),
{
    let mut order: Vec<usize> = Vec::new();
    let mut i: usize = 0;
    while i < files.len()
        invariant
            i <= files@.len(),
            lru_order(files@, order@, i as int),
            sum_sizes(files@, order@) == blob_bytes(files@, i as int),
        decreases files@.len() - i,
    {
        if is_blob(files[i].name.as_str()) {
            let at_time: i128 = files[i].modified;
            let mut p: usize = order.len();
            while p > 0 && files[order[p - 1]].modified > at_time
                invariant
                    i < files@.len(),
                    lru_order(files@, order@, i as int),
                    p <= order@.len(),
                    at_time == files@[i as int].modified,
                    forall|k: int| p <= k < order@.len() ==> files@[(#[trigger] order@[k]) as int].modified > at_time,
                decreases p,
            {
                p -= 1;
            }
            let ghost before = order@;
            order.insert(p, i);
            proof {
                lemma_sum_insert(files@, before, p as int, i);
                assert forall|j: int, k: int| 0 <= j < k < order@.len() implies goes_before(
                    files@,
                    #[trigger] order@[j],
                    #[trigger] order@[k],
                ) by {
                    let a = if j < p { j } else { j - 1 };
                    let b = if k < p { k } else { k - 1 };
                    if j == p {
                        assert(order@[k] == before[k - 1]);
                    } else if k == p {
                        assert(order@[j] == before[j]);
                        if p > 0 && j < p - 1 {
                            assert(goes_before(files@, before[j], before[p - 1]));
                        }
                    } else {
                        assert(order@[j] == before[a]);
                        assert(order@[k] == before[b]);
                    }
                }
                assert forall|m: int| 0 <= m < i + 1 && blob_file_name((#[trigger] files@[m]).name@) implies order@.contains(m as usize) by {
                    if m == i {
                        assert(order@[p as int] == i);
                    } else {
                        let k = choose|k: int| 0 <= k < before.len() && before[k] == m as usize;
                        assert(order@[if k < p { k } else { k + 1 }] == m as usize);
                    }
                }
                assert forall|k: int| 0 <= k < order@.len() implies (#[trigger] order@[k]) < i + 1
                    && blob_file_name(files@[order@[k] as int].name@) by {
                    if k != p {
                        assert(order@[k] == before[if k < p { k } else { k - 1 }]);
                    }
                }
            }
        }
        i += 1;
    }
    order
}

/// One eviction run over a listing of the cache directory.
pub struct Sweep {
    pub files: Vec<CacheFile>,
    /// The blobs, the least recently used first.
    pub order: Vec<usize>,
    /// How many of them were dealt with.
    pub next: usize,
    pub total: u128,
    pub freed: u128,
    pub limit: u128,
    pub now: i128,
    /// What was tried so far.
    pub tried: Ghost<Tried>,
}

impl Sweep {
    /// Whether the blobs that are left still exceed the cap.
    pub open spec fn over(&self) -> bool {
        self.total - self.freed > self.limit
    }

    /// What holds between two steps: the totals are those of the listing and of
    /// what was removed, only blobs outside the grace period were tried, in
    /// order, and every blob that was dealt with was tried or is within it.
    pub open spec fn wf(&self) -> bool {
        &&& lru_order(self.files@, self.order@, self.files@.len() as int)
        &&& self.next <= self.order@.len()
        &&& self.total == blob_bytes(self.files@, self.files@.len() as int)
        &&& self.total == sum_sizes(self.files@, self.order@)
        &&& self.freed == freed_bytes(self.files@, self.tried@)
        &&& self.freed <= sum_sizes(self.files@, self.order@.take(self.next as int))
        &&& self.freed <= self.total
        &&& forall|t: int| 0 <= t < self.tried@.len() ==> (#[trigger] self.tried@[t]).0 < self.files@.len()
            && blob_file_name(self.files@[self.tried@[t].0 as int].name@)
            && !in_grace(self.files@[self.tried@[t].0 as int], self.now as int)
            && self.order@.take(self.next as int).contains(self.tried@[t].0)
        &&& forall|k: int| 0 <= k < self.next ==> in_grace(self.files@[(#[trigger] self.order@[k]) as int], self.now as int)
            || was_tried(self.tried@, self.order@[k])
    }

    /// Begin a run: the listing, the cap in mebibytes, and the time.
    pub fn begin(files: Vec<CacheFile>, limit_mb: u64, now: i128) -> (s: Self)
        ensures
            s.wf(),
            s.files == files,
            s.next == 0,
            s.freed == 0,
            s.limit == limit_mb * MIB,
            s.limit == limit_mb * 1_048_576,
            s.now == now,
            s.tried@ == Tried::empty(),
    {
        let order = order_blobs(&files);
        let mut total: u128 = 0;
        let mut k: usize = 0;
        while k < order.len()
            invariant
                k <= order@.len(),
                lru_order(files@, order@, files@.len() as int),
                total == sum_sizes(files@, order@.take(k as int)),
            decreases order@.len() - k,
        {
            proof {
                assert(order@.take(k + 1).drop_last() =~= order@.take(k as int));
                lemma_sum_bound(files@, order@.take(k as int));
                let n = order@.take(k as int).len();
                assert(n * u64::MAX <= usize::MAX * u64::MAX) by (nonlinear_arith)
                    requires
                        n <= usize::MAX,
                ;
                assert(usize::MAX * u64::MAX <= 0xffff_ffff_ffff_ffff * 0xffff_ffff_ffff_ffff) by (nonlinear_arith);
            }
            total = total + files[order[k]].size as u128;
            k += 1;
        }
        proof {
            assert(order@.take(order@.len() as int) =~= order@);
        }
        let s = Sweep {
            files,
            order,
            next: 0,
            total,
            freed: 0,
            limit: limit_mb as u128 * MIB,
            now,
            tried: Ghost(Seq::empty()),
        };
        assert(s.order@.take(0) =~= Seq::<usize>::empty());
        s
    }

    /// Whether the next blob was written or served just now.
    fn next_in_grace(&self) -> (r: bool)
        requires
            self.wf(),
            self.next < self.order@.len(),
        ensures
            r == in_grace(self.files@[self.order@[self.next as int] as int], self.now as int),
    {
        let at: i128 = self.files[self.order[self.next]].modified;
        if at > self.now {
            false
        } else {
            match self.now.checked_sub(at) {
                Some(age) => age < GRACE_NANOS,
                None => false,
            }
        }
    }

    /// The next file to remove: while the cap is exceeded, the least recently
    /// used blob that was not dealt with and is past the grace period. Nothing
    /// if there is none, or once the cap is met.
    pub fn next_victim(&mut self) -> (r: Option<usize>)
        requires
            old(self).wf(),
        ensures
            final(self).wf(),
            final(self).files == old(self).files,
            final(self).order == old(self).order,
            final(self).total == old(self).total,
            final(self).freed == old(self).freed,
            final(self).limit == old(self).limit,
            final(self).now == old(self).now,
            final(self).tried == old(self).tried,
            old(self).next <= final(self).next,
            forall|k: int| old(self).next <= k < final(self).next ==> in_grace(
                old(self).files@[(#[trigger] old(self).order@[k]) as int],
                old(self).now as int,
            ),
            match r {
                Some(place) => {
                    &&& old(self).over()
                    &&& final(self).next < old(self).order@.len()
                    &&& place == old(self).order@[final(self).next as int]
                    &&& place < old(self).files@.len()
                    &&& !in_grace(old(self).files@[place as int], old(self).now as int)
                },
                None => if old(self).over() {
                    final(self).next == old(self).order@.len()
                } else {
                    final(self).next == old(self).next
                },
            },
            r is Some ==> old(self).total - old(self).freed > old(self).limit,
            r matches Some(place) ==> !(0 <= old(self).now - old(self).files@[place as int].modified < 60_000_000_000),
            r is None && old(self).total - old(self).freed > old(self).limit ==> forall|k: int|
                old(self).next <= k < old(self).order@.len() ==> 0 <= old(self).now - old(self).files@[(
                #[trigger] old(self).order@[k]) as int].modified < 60_000_000_000,
    {
        while self.next < self.order.len() && self.total - self.freed > self.limit
            invariant
                self.wf(),
                self.files == old(self).files,
                self.order == old(self).order,
                self.total == old(self).total,
                self.freed == old(self).freed,
                self.limit == old(self).limit,
                self.now == old(self).now,
                self.tried == old(self).tried,
                old(self).next <= self.next,
                !old(self).over() ==> self.next == old(self).next,
                forall|k: int| old(self).next <= k < self.next ==> in_grace(
                    self.files@[(#[trigger] self.order@[k]) as int],
                    self.now as int,
                ),
            decreases self.order@.len() - self.next,
        {
            if !self.next_in_grace() {
                return Some(self.order[self.next]);
            }
            proof {
                assert(self.order@.take(self.next + 1).drop_last() =~= self.order@.take(self.next as int));
            }
            self.next += 1;
        }
        None
    }

    /// Go on once the file that was asked for is removed, or could not be.
    pub fn resume(&mut self, removed: bool)
        requires
            old(self).wf(),
            old(self).next < old(self).order@.len(),
            !in_grace(old(self).files@[old(self).order@[old(self).next as int] as int], old(self).now as int),
        ensures
            final(self).wf(),
            final(self).files == old(self).files,
            final(self).order == old(self).order,
            final(self).total == old(self).total,
            final(self).limit == old(self).limit,
            final(self).now == old(self).now,
            final(self).next == old(self).next + 1,
            final(self).tried@ == old(self).tried@.push((old(self).order@[old(self).next as int], removed)),
            final(self).freed == old(self).freed + (if removed {
                old(self).files@[old(self).order@[old(self).next as int] as int].size as int
            } else {
                0
            }),
    {
        let place: usize = self.order[self.next];
        assert(self.order@.len() == self.order.len());
        let ghost log = self.tried@.push((place, removed));
        proof {
            assert(self.order@.take(self.next + 1).drop_last() =~= self.order@.take(self.next as int));
            lemma_sum_monotone(self.files@, self.order@, self.next + 1);
            assert(log.drop_last() =~= self.tried@);
        }
        if removed {
            self.freed = self.freed + self.files[place].size as u128;
        }
        self.next += 1;
        self.tried = Ghost(log);
        proof {
            assert forall|k: int| 0 <= k < self.next implies in_grace(
                self.files@[(#[trigger] self.order@[k]) as int],
                self.now as int,
            ) || was_tried(self.tried@, self.order@[k]) by {
                if k == old(self).next {
                    assert(self.tried@[self.tried@.len() - 1].0 == place);
                } else if !in_grace(self.files@[self.order@[k] as int], self.now as int) {
                    let t = choose|t: int| 0 <= t < old(self).tried@.len() && (#[trigger] old(self).tried@[t]).0 == self.order@[k];
                    assert(self.tried@[t].0 == self.order@[k]);
                }
            }
        }
    }
}

/// The sum of the sizes.
pub open spec fn sum_of(sizes: Seq<u64>) -> nat
    decreases sizes.len(),
{
    if sizes.len() == 0 {
        0
    } else {
        sum_of(sizes.drop_last()) + sizes.last() as nat
    }
}

proof fn lemma_sum_of_grows(sizes: Seq<u64>, k: int)
    requires
        0 <= k <= sizes.len(),
    ensures
        sum_of(sizes.take(k)) <= sum_of(sizes),
    decreases sizes.len() - k,
{
    if k < sizes.len() {
        lemma_sum_of_grows(sizes, k + 1);
        assert(sizes.take(k + 1).drop_last() =~= sizes.take(k));
    } else {
        assert(sizes.take(k) =~= sizes);
    }
}

/// The size of the cache in whole mebibytes; zero if the sizes have no sum that
/// fits.
pub fn cache_mb(sizes: &Vec<u64>) -> (mb: u64)
    ensures
        mb == (if sum_of(sizes@) <= u64::MAX {
            sum_of(sizes@) / 1_048_576
        } else {
            0
        }),
        sum_of(sizes@) <= u64::MAX ==> mb * 1_048_576 <= sum_of(sizes@) < (mb + 1) * 1_048_576,
{
    let mut total: u64 = 0;
    let mut i: usize = 0;
    while i < sizes.len()
        invariant
            i <= sizes@.len(),
            total == sum_of(sizes@.take(i as int)),
        decreases sizes@.len() - i,
    {
        proof {
            assert(sizes@.take(i + 1).drop_last() =~= sizes@.take(i as int));
            lemma_sum_of_grows(sizes@, i + 1);
        }
        match total.checked_add(sizes[i]) {
            Some(t) => {
                total = t;
            },
            None => {
                return 0;
            },
        }
        i += 1;
    }
    proof {
        assert(sizes@.take(sizes@.len() as int) =~= sizes@);
    }
    total / 1024 / 1024
}

/// What the cap means at the end of a run: the blobs that are left fit it, or
/// every blob was just written or served, or was removed, or could not be.
pub proof fn law_cap_met_or_exhausted(s: Sweep)
    requires
        s.wf(),
        !s.over() || s.next == s.order@.len(),
    ensures
        s.total - freed_bytes(s.files@, s.tried@) <= s.limit || forall|i: int|
            0 <= i < s.files@.len() && blob_file_name((#[trigger] s.files@[i]).name@) ==> in_grace(
                s.files@[i],
                s.now as int,
            ) || was_tried(s.tried@, i as usize),
{
    if s.over() {
        assert(s.files@.len() == s.files.len());
        assert forall|i: int| 0 <= i < s.files@.len() && blob_file_name((#[trigger] s.files@[i]).name@) implies in_grace(
            s.files@[i],
            s.now as int,
        ) || was_tried(s.tried@, i as usize) by {
            let k = choose|k: int| 0 <= k < s.order@.len() && s.order@[k] == i as usize;
            assert(s.order@[k] == i as usize);
        }
    }
}

/// Eviction is by last use: a blob that goes before another in the listing order
/// is dealt with before it.
pub proof fn law_least_recently_used_first(s: Sweep, a: usize, b: usize)
    requires
        s.wf(),
        a < s.files@.len(),
        b < s.files@.len(),
        blob_file_name(s.files@[a as int].name@),
        goes_before(s.files@, a, b),
        s.order@.take(s.next as int).contains(b),
    ensures
        s.order@.take(s.next as int).contains(a),
        in_grace(s.files@[a as int], s.now as int) || was_tried(s.tried@, a),
{
    let kb = choose|k: int| 0 <= k < s.next && s.order@.take(s.next as int)[k] == b;
    assert(s.order@[kb] == b);
    assert(s.order@.contains(a));
    let ka = choose|k: int| 0 <= k < s.order@.len() && s.order@[k] == a;
    assert(s.order@[ka] == a);
    if ka > kb {
        assert(goes_before(s.files@, s.order@[kb], s.order@[ka]));
    }
    assert(ka < s.next);
    assert(s.order@.take(s.next as int)[ka] == a);
}

/// No blob is removed while an older one is kept: a blob that was not tried and
/// is past the grace period was used later than every blob that was tried.
pub proof fn law_no_removed_blob_is_younger_than_a_kept_one(s: Sweep, t: int, kept: usize)
    requires
        s.wf(),
        0 <= t < s.tried@.len(),
        kept < s.files@.len(),
        blob_file_name(s.files@[kept as int].name@),
        !in_grace(s.files@[kept as int], s.now as int),
        !was_tried(s.tried@, kept),
    ensures
        goes_before(s.files@, s.tried@[t].0, kept),
        s.files@[s.tried@[t].0 as int].modified <= s.files@[kept as int].modified,
{
    let done = s.order@.take(s.next as int);
    let a = s.tried@[t].0;
    assert(done.contains(a));
    let ka = choose|k: int| 0 <= k < done.len() && done[k] == a;
    assert(s.order@[ka] == a);
    assert(s.order@.contains(kept));
    let kb = choose|k: int| 0 <= k < s.order@.len() && s.order@[k] == kept;
    assert(s.order@[kb] == kept);
    assert(kb >= s.next);
    assert(goes_before(s.files@, s.order@[ka], s.order@[kb]));
}

/// A file is spared for sixty seconds after its last use and no longer; one whose
/// time lies in the future is not spared.
pub proof fn law_grace_is_sixty_seconds(file: CacheFile, now: int)
    ensures
        in_grace(file, now) <==> 0 <= now - file.modified < 60_000_000_000,
{
}

/// A blob is a file whose name ends in `.bin` with something before it.
pub proof fn law_blob_ends_in_bin(name: Seq<char>)
    ensures
        blob_file_name(name) <==> {
            let n = name.len() as int;
            n >= 5 && name[n - 4] == '.' && name[n - 3] == 'b' && name[n - 2] == 'i' && name[n - 1] == 'n'
        },
{
    if name.len() >= 5 {
        let tail = name.skip(name.len() - 4);
        assert(tail[0] == name[name.len() - 4] && tail[1] == name[name.len() - 3]);
        assert(tail[2] == name[name.len() - 2] && tail[3] == name[name.len() - 1]);
        if tail[0] == '.' && tail[1] == 'b' && tail[2] == 'i' && tail[3] == 'n' {
            assert(tail =~= seq!['.', 'b', 'i', 'n']);
        }
    }
}

/// The size of the cache is that of its blobs: a file more adds its size if its
/// name ends in `.bin`, and nothing else does.
pub proof fn law_total_counts_the_blobs(files: Seq<CacheFile>, file: CacheFile)
    ensures
        blob_bytes(files.push(file), files.len() + 1int) == blob_bytes(files, files.len() as int) + (if file.name@.len() >= 5
            && file.name@.skip(file.name@.len() - 4) == seq!['.', 'b', 'i', 'n'] {
            file.size as int
        } else {
            0
        }),
        blob_bytes(files, 0) == 0,
{
    lemma_blob_bytes_of_head(files, file, files.len() as int);
}

proof fn lemma_blob_bytes_of_head(files: Seq<CacheFile>, file: CacheFile, n: int)
    requires
        0 <= n <= files.len(),
    ensures
        blob_bytes(files.push(file), n) == blob_bytes(files, n),
    decreases n,
{
    if n > 0 {
        lemma_blob_bytes_of_head(files, file, n - 1);
    }
}

/// A removal frees the file's size, and a file that could not be removed frees
/// nothing.
pub proof fn law_only_removals_free(files: Seq<CacheFile>, tried: Tried, place: usize)
    ensures
        freed_bytes(files, tried.push((place, true))) == freed_bytes(files, tried) + files[place as int].size,
        freed_bytes(files, tried.push((place, false))) == freed_bytes(files, tried),
        freed_bytes(files, Seq::empty()) == 0,
{
    assert(tried.push((place, true)).drop_last() =~= tried);
    assert(tried.push((place, false)).drop_last() =~= tried);
}

/// The size of the cache directory is the sum of its files' sizes.
pub proof fn law_sum_adds_every_size(sizes: Seq<u64>, size: u64)
    ensures
        sum_of(sizes.push(size)) == sum_of(sizes) + size,
        sum_of(Seq::empty()) == 0,
{
    assert(sizes.push(size).drop_last() =~= sizes);
}

/// The cap holds by age: at the end of a run the blobs that are left fit it, or
/// every blob whose last use does not lie within the last sixty seconds was tried.
pub proof fn law_cap_spares_only_the_last_minute(s: Sweep)
    requires
        s.wf(),
        s.total - s.freed <= s.limit || s.next == s.order@.len(),
    ensures
        s.total == blob_bytes(s.files@, s.files@.len() as int),
        s.freed == freed_bytes(s.files@, s.tried@),
        s.total - s.freed <= s.limit || forall|i: int| #![trigger s.files@[i]]
            0 <= i < s.files@.len() && s.files@[i].name@.len() >= 5 && s.files@[i].name@.skip(s.files@[i].name@.len() - 4)
                == seq!['.', 'b', 'i', 'n'] && !(0 <= s.now - s.files@[i].modified < 60_000_000_000) ==> exists|t: int|
                0 <= t < s.tried@.len() && (#[trigger] s.tried@[t]).0 == i,
{
    law_cap_met_or_exhausted(s);
    assert(s.files@.len() == s.files.len());
    assert forall|i: int| #![trigger s.files@[i]]
        s.total - s.freed > s.limit && 0 <= i < s.files@.len() && s.files@[i].name@.len() >= 5 && s.files@[i].name@.skip(
            s.files@[i].name@.len() - 4,
        ) == seq!['.', 'b', 'i', 'n'] && !(0 <= s.now - s.files@[i].modified < 60_000_000_000) implies exists|t: int|
        0 <= t < s.tried@.len() && (#[trigger] s.tried@[t]).0 == i by {
        assert(blob_file_name(s.files@[i].name@));
        assert(was_tried(s.tried@, i as usize));
        let t = choose|t: int| 0 <= t < s.tried@.len() && (#[trigger] s.tried@[t]).0 == i as usize;
        assert(s.tried@[t].0 == i);
    }
}

/// Blobs go by age: no blob is tried that was used within the last sixty seconds,
/// and none while a blob with an earlier last use, of sixty seconds ago or more,
/// is left untried.
pub proof fn law_older_blobs_are_tried_first(s: Sweep, t: int, i: int)
    requires
        s.wf(),
        0 <= t < s.tried@.len(),
        0 <= i < s.files@.len(),
        s.files@[i].name@.len() >= 5,
        s.files@[i].name@.skip(s.files@[i].name@.len() - 4) == seq!['.', 'b', 'i', 'n'],
        s.now - s.files@[i].modified >= 60_000_000_000,
        s.files@[i].modified < s.files@[s.tried@[t].0 as int].modified,
    ensures
        exists|u: int| 0 <= u < s.tried@.len() && (#[trigger] s.tried@[u]).0 == i,
        !(0 <= s.now - s.files@[s.tried@[t].0 as int].modified < 60_000_000_000),
        s.tried@[t].0 < s.files@.len(),
        s.files@[s.tried@[t].0 as int].name@.len() >= 5,
        s.files@[s.tried@[t].0 as int].name@.skip(s.files@[s.tried@[t].0 as int].name@.len() - 4) == seq!['.', 'b', 'i', 'n'],
{
    assert(s.files@.len() == s.files.len());
    assert(blob_file_name(s.files@[i].name@));
    assert(s.tried@[t].0 < s.files@.len());
    if !was_tried(s.tried@, i as usize) {
        law_no_removed_blob_is_younger_than_a_kept_one(s, t, i as usize);
    }
    let u = choose|u: int| 0 <= u < s.tried@.len() && (#[trigger] s.tried@[u]).0 == i as usize;
    assert(s.tried@[u].0 == i);
}

/// The order in which blobs are dealt with: by last use, and equally old ones as
/// they were listed; each blob once.
pub proof fn law_order_is_by_last_use(s: Sweep, j: int, k: int)
    requires
        s.wf(),
        0 <= j < k < s.order@.len(),
    ensures
        s.files@[s.order@[j] as int].modified <= s.files@[s.order@[k] as int].modified,
        s.files@[s.order@[j] as int].modified == s.files@[s.order@[k] as int].modified ==> s.order@[j] < s.order@[k],
        s.order@[j] != s.order@[k],
{
    assert(goes_before(s.files@, s.order@[j], s.order@[k]));
}

} // verus!
