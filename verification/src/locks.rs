//! The path-keyed mutual-exclusion table of the lock service.
//!
//! Each file path has a FIFO queue of connection identifiers: the head of
//! the queue holds the exclusive lock, everyone behind it waits.  Acquiring
//! is idempotent within one connection; a connection closing (for any
//! reason) releases every claim it had, so a crashed worker can never
//! deadlock the fleet.
use vstd::prelude::*;

verus! {

/// No connection appears twice.
pub open spec fn distinct(q: Seq<u64>) -> bool {
    forall|i: int, j: int| 0 <= i < j < q.len() ==> q[i] != q[j]
}

/// The queue after connection `c` requests the path: a new claim joins the
/// back of the queue; a repeated request from a connection already holding
/// or waiting changes nothing.
pub open spec fn enqueue(q: Seq<u64>, c: u64) -> Seq<u64> {
    if q.contains(c) {
        q
    } else {
        q.push(c)
    }
}

/// The queue after every claim of connection `c` leaves it, the order of
/// the remaining claims unchanged.
pub open spec fn drop_conn(q: Seq<u64>, c: u64) -> Seq<u64>
    decreases q.len(),
{
    if q.len() == 0 {
        Seq::empty()
    } else if q.last() == c {
        drop_conn(q.drop_last(), c)
    } else {
        drop_conn(q.drop_last(), c).push(q.last())
    }
}

/// Removing an absent connection changes nothing.
pub proof fn lemma_drop_conn_absent(q: Seq<u64>, c: u64)
    requires
        !q.contains(c),
    ensures
        drop_conn(q, c) == q,
    decreases q.len(),
{
    if q.len() == 0 {
        assert(drop_conn(q, c) =~= q);
    } else {
        assert(q[q.len() - 1] == q.last());
        assert(!q.drop_last().contains(c)) by {
            if q.drop_last().contains(c) {
                let i = choose|i: int| 0 <= i < q.drop_last().len() && q.drop_last()[i] == c;
                assert(q[i] == c);
            }
        }
        lemma_drop_conn_absent(q.drop_last(), c);
        assert(drop_conn(q, c) =~= q);
    }
}

/// What remains after a removal: the removed connection is gone, nobody
/// else joined, and distinctness is preserved.
pub proof fn lemma_drop_conn_props(q: Seq<u64>, c: u64)
    ensures
        !drop_conn(q, c).contains(c),
        forall|x: u64| #[trigger] drop_conn(q, c).contains(x) ==> q.contains(x),
        distinct(q) ==> distinct(drop_conn(q, c)),
        drop_conn(q, c).len() <= q.len(),
    decreases q.len(),
{
    if q.len() == 0 {
    } else {
        let dl = q.drop_last();
        lemma_drop_conn_props(dl, c);
        assert(forall|x: u64| #[trigger] dl.contains(x) ==> q.contains(x)) by {
            assert forall|x: u64| #[trigger] dl.contains(x) implies q.contains(x) by {
                let i = choose|i: int| 0 <= i < dl.len() && dl[i] == x;
                assert(q[i] == x);
            }
        }
        assert(q.contains(q.last())) by {
            assert(q[q.len() - 1] == q.last());
        }
        if q.last() != c {
            let r = drop_conn(dl, c).push(q.last());
            assert forall|x: u64| #[trigger] r.contains(x) implies q.contains(x) by {
                let i = choose|i: int| 0 <= i < r.len() && r[i] == x;
                if i < r.len() - 1 {
                    assert(drop_conn(dl, c)[i] == x);
                    assert(drop_conn(dl, c).contains(x));
                } else {
                    assert(x == q.last());
                }
            }
            assert(!r.contains(c)) by {
                if r.contains(c) {
                    let i = choose|i: int| 0 <= i < r.len() && r[i] == c;
                    if i < r.len() - 1 {
                        assert(drop_conn(dl, c)[i] == c);
                        assert(drop_conn(dl, c).contains(c));
                    }
                }
            }
            if distinct(q) {
                assert(distinct(dl));
                assert(!dl.contains(q.last())) by {
                    if dl.contains(q.last()) {
                        let i = choose|i: int| 0 <= i < dl.len() && dl[i] == q.last();
                        assert(q[i] == q[q.len() - 1]);
                    }
                }
                assert(distinct(r)) by {
                    assert forall|i: int, j: int| 0 <= i < j < r.len() implies r[i] != r[j] by {
                        if j < r.len() - 1 {
                            assert(drop_conn(dl, c)[i] != drop_conn(dl, c)[j]);
                        } else {
                            assert(drop_conn(dl, c)[i] == r[i]);
                            assert(drop_conn(dl, c).contains(r[i]));
                            assert(dl.contains(r[i]));
                        }
                    }
                }
            }
        } else {
            if distinct(q) {
                assert(distinct(dl));
            }
        }
    }
}

/// When the holder leaves a queue of waiters, the longest-waiting
/// requester — and no one else — becomes the holder, and everyone keeps
/// their relative order: the queue simply advances by one.
pub proof fn lemma_drop_conn_head(q: Seq<u64>, c: u64)
    requires
        q.len() >= 1,
        q[0] == c,
        distinct(q),
    ensures
        drop_conn(q, c) == q.subrange(1, q.len() as int),
    decreases q.len(),
{
    if q.len() == 1 {
        assert(q.last() == c);
        assert(q.drop_last().len() == 0);
        assert(drop_conn(q.drop_last(), c) =~= Seq::<u64>::empty());
        assert(drop_conn(q, c) =~= q.subrange(1, 1));
    } else {
        assert(q.last() == q[q.len() - 1]);
        assert(q.last() != c);
        let dl = q.drop_last();
        assert(distinct(dl));
        assert(dl[0] == c);
        lemma_drop_conn_head(dl, c);
        assert(drop_conn(q, c) =~= q.subrange(1, q.len() as int));
    }
}

/// One path's lock state: the head of `queue` holds the lock, the rest
/// wait in first-request-first-granted order.
#[verifier::ext_equal]
struct PathLock {
    path: String,
    queue: Vec<u64>,
}

/// The lock service's whole state: one queue per requested path.
#[verifier::ext_equal]
pub struct LockTable {
    locks: Vec<PathLock>,
}

/// A lock grant caused by a disconnection: `conn` now holds `path`.
pub struct Grant {
    pub path: String,
    pub conn: u64,
}

/// `g` records the grant that entry `j` of `t` produces when connection
/// `conn` leaves: `conn` held the path there and the first waiter gets it.
spec fn grant_ok(g: Grant, t: LockTable, conn: u64, j: int) -> bool {
    &&& 0 <= j < t.locks@.len()
    &&& g.path@ == t.locks@[j].path@
    &&& t.locks@[j].queue@.len() >= 2
    &&& t.locks@[j].queue@[0] == conn
    &&& g.conn == t.locks@[j].queue@[1]
}

/// Some entry below `hi` of `t` accounts for the grant `g`.
spec fn grant_listed(g: Grant, t: LockTable, conn: u64, hi: int) -> bool {
    exists|j: int| j < hi && #[trigger] grant_ok(g, t, conn, j)
}

impl LockTable {
    /// Paths are registered at most once and no queue lists a connection
    /// twice.
    pub closed spec fn wf(&self) -> bool {
        &&& forall|i: int, j: int|
            0 <= i < j < self.locks@.len() ==> (#[trigger] self.locks@[i].path@) != (
            #[trigger] self.locks@[j].path@)
        &&& forall|i: int|
            0 <= i < self.locks@.len() ==> distinct(#[trigger] self.locks@[i].queue@)
    }

    pub closed spec fn has_path(&self, p: Seq<char>) -> bool {
        exists|i: int| 0 <= i < self.locks@.len() && (#[trigger] self.locks@[i].path@) == p
    }

    /// The model of the table: the FIFO queue of connections claiming `p`
    /// (empty when nobody does).  Index 0 is the current holder.
    pub closed spec fn queue_of(&self, p: Seq<char>) -> Seq<u64> {
        if self.has_path(p) {
            self.locks@[choose|i: int|
                0 <= i < self.locks@.len() && (#[trigger] self.locks@[i].path@) == p].queue@
        } else {
            Seq::empty()
        }
    }

    /// Connection `c` holds the exclusive lock on `p`.
    pub open spec fn holds(&self, c: u64, p: Seq<char>) -> bool {
        self.queue_of(p).len() > 0 && self.queue_of(p)[0] == c
    }

    /// Connection `c` has an outstanding claim on `p` (holding or waiting).
    pub open spec fn claims(&self, c: u64, p: Seq<char>) -> bool {
        self.queue_of(p).contains(c)
    }

    proof fn lemma_queue_at(&self, i: int)
        requires
            self.wf(),
            0 <= i < self.locks@.len(),
        ensures
            self.has_path(self.locks@[i].path@),
            self.queue_of(self.locks@[i].path@) == self.locks@[i].queue@,
    {
        let p = self.locks@[i].path@;
        assert(self.has_path(p));
        let j = choose|j: int| 0 <= j < self.locks@.len() && (#[trigger] self.locks@[j].path@) == p;
        if j < i {
            assert(self.locks@[j].path@ != self.locks@[i].path@);
        } else if i < j {
            assert(self.locks@[i].path@ != self.locks@[j].path@);
        }
    }

    /// An empty table: nothing is claimed.
    pub fn new() -> (t: LockTable)
        ensures
            t.wf(),
            forall|p: Seq<char>| #[trigger] t.queue_of(p) == Seq::<u64>::empty(),
    {
        let t = LockTable { locks: Vec::new() };
        proof {
            assert forall|p: Seq<char>| #[trigger] t.queue_of(p) == Seq::<u64>::empty() by {
                assert(!t.has_path(p));
            }
        }
        t
    }

    fn find_path(&self, path: &String) -> (r: Option<usize>)
        requires
            self.wf(),
        ensures
            match r {
                Option::Some(i) => i < self.locks@.len() && self.locks@[i as int].path@ == path@
                    && self.queue_of(path@) == self.locks@[i as int].queue@,
                Option::None => !self.has_path(path@) && self.queue_of(path@)
                    == Seq::<u64>::empty(),
            },
    {
        let n = self.locks.len();
        let mut k: usize = 0;
        while k < n
            invariant
                self.wf(),
                n == self.locks@.len(),
                k <= n,
                forall|j: int| 0 <= j < k ==> (#[trigger] self.locks@[j].path@) != path@,
            decreases n - k,
        {
            if self.locks[k].path == *path {
                proof {
                    self.lemma_queue_at(k as int);
                }
                return Option::Some(k);
            }
            k += 1;
        }
        proof {
            if self.has_path(path@) {
                let j = choose|j: int|
                    0 <= j < self.locks@.len() && (#[trigger] self.locks@[j].path@) == path@;
                assert(false);
            }
        }
        Option::None
    }

    /// Registers `conn`'s claim on `path` and reports whether the lock is
    /// now held by `conn`.  A first requester is granted immediately; a
    /// repeated request from the current holder is granted again without
    /// creating a second claim; any other requester joins the back of the
    /// FIFO queue and waits.
    pub fn acquire(&mut self, conn: u64, path: &String) -> (granted: bool)
        requires
            old(self).wf(),
        ensures
            final(self).wf(),
            final(self).queue_of(path@) == enqueue(old(self).queue_of(path@), conn),
            forall|q: Seq<char>|
                q != path@ ==> (#[trigger] final(self).queue_of(q)) == old(self).queue_of(q),
            granted == final(self).holds(conn, path@),
            granted == (old(self).queue_of(path@).len() == 0 || old(self).queue_of(path@)[0]
                == conn),
    {
        let found = self.find_path(path);
        match found {
            Option::None => {
                let ghost pre = *self;
                let mut q: Vec<u64> = Vec::new();
                q.push(conn);
                self.locks.push(PathLock { path: path.clone(), queue: q });
                proof {
                    let n = pre.locks@.len() as int;
                    assert(self.locks@[n].queue@ =~= Seq::<u64>::empty().push(conn));
                    assert forall|i: int, j: int| 0 <= i < j < self.locks@.len() implies (
                    #[trigger] self.locks@[i].path@) != (#[trigger] self.locks@[j].path@) by {
                        if j == n {
                            assert(self.locks@[i] == pre.locks@[i]);
                            assert(pre.locks@[i].path@ != path@);
                        } else {
                            assert(self.locks@[i] == pre.locks@[i]);
                            assert(self.locks@[j] == pre.locks@[j]);
                        }
                    }
                    assert forall|i: int|
                        0 <= i < self.locks@.len() implies distinct(
                        #[trigger] self.locks@[i].queue@) by {
                        if i < n {
                            assert(self.locks@[i] == pre.locks@[i]);
                            assert(distinct(pre.locks@[i].queue@));
                        }
                    }
                    self.lemma_queue_at(n);
                    assert(self.queue_of(path@) =~= enqueue(pre.queue_of(path@), conn));
                    assert forall|p: Seq<char>|
                        p != path@ implies (#[trigger] self.queue_of(p)) == pre.queue_of(p) by {
                        if pre.has_path(p) {
                            let j = choose|j: int|
                                0 <= j < pre.locks@.len() && (#[trigger] pre.locks@[j].path@) == p;
                            assert(self.locks@[j] == pre.locks@[j]);
                            pre.lemma_queue_at(j);
                            self.lemma_queue_at(j);
                        } else {
                            if self.has_path(p) {
                                let j = choose|j: int|
                                    0 <= j < self.locks@.len() && (#[trigger] self.locks@[j].path@)
                                        == p;
                                assert(j != n);
                                assert(self.locks@[j] == pre.locks@[j]);
                            }
                        }
                    }
                }
                true
            },
            Option::Some(i) => {
                let ghost pre = *self;
                let mut entry = self.locks.remove(i);
                let ghost entry0 = entry;
                let qlen = entry.queue.len();
                let mut present = false;
                let mut k: usize = 0;
                while k < qlen && !present
                    invariant
                        qlen == entry.queue@.len(),
                        k <= qlen,
                        present ==> entry.queue@.contains(conn),
                        !present ==> forall|j: int| 0 <= j < k ==> entry.queue@[j] != conn,
                    decreases qlen - k + (if present { 0int } else { 1int }),
                {
                    if entry.queue[k] == conn {
                        present = true;
                    } else {
                        k += 1;
                    }
                }
                proof {
                    if !present {
                        assert(!entry.queue@.contains(conn)) by {
                            if entry.queue@.contains(conn) {
                                let j = choose|j: int|
                                    0 <= j < entry.queue@.len() && entry.queue@[j] == conn;
                                assert(entry.queue@[j] != conn);
                            }
                        }
                    }
                }
                if present {
                    let granted = entry.queue[0] == conn;
                    self.locks.insert(i, entry);
                    proof {
                        assert(entry0 == pre.locks@[i as int]);
                        assert forall|j: int|
                            0 <= j < pre.locks@.len() implies self.locks@[j] == pre.locks@[j] by {
                            if j > i {
                                assert(self.locks@[j] == pre.locks@.remove(i as int)[j - 1]);
                            }
                        }
                        assert forall|a: int, b: int| 0 <= a < b < self.locks@.len() implies (
                        #[trigger] self.locks@[a].path@) != (#[trigger] self.locks@[b].path@) by {
                            assert(self.locks@[a].path@ == pre.locks@[a].path@);
                            assert(self.locks@[b].path@ == pre.locks@[b].path@);
                        }
                        assert forall|a: int|
                            0 <= a < self.locks@.len() implies distinct(
                            #[trigger] self.locks@[a].queue@) by {
                            assert(distinct(pre.locks@[a].queue@));
                        }
                        self.lemma_queue_at(i as int);
                        assert(self.queue_of(path@) == enqueue(pre.queue_of(path@), conn));
                        lemma_frame_update(&pre, self, i as int);
                        assert(pre.locks@[i as int].queue@.contains(pre.locks@[i as int].queue@[0]));
                    }
                    granted
                } else {
                    let granted = qlen == 0;
                    entry.queue.push(conn);
                    self.locks.insert(i, entry);
                    proof {
                        let n = pre.locks@.len() as int;
                        assert(self.locks@.len() == n);
                        assert forall|j: int|
                            0 <= j < n && j != i implies (#[trigger] self.locks@[j])
                            == pre.locks@[j] by {
                            if j < i {
                            } else {
                                assert(self.locks@[j] == pre.locks@.remove(i as int)[j - 1]);
                            }
                        }
                        assert(self.locks@[i as int].path@ == path@);
                        assert(self.locks@[i as int].queue@ == pre.locks@[i as int].queue@.push(
                            conn,
                        ));
                        assert forall|a: int, b: int| 0 <= a < b < self.locks@.len() implies (
                        #[trigger] self.locks@[a].path@) != (#[trigger] self.locks@[b].path@) by {
                            assert(self.locks@[a].path@ == pre.locks@[a].path@);
                            assert(self.locks@[b].path@ == pre.locks@[b].path@);
                        }
                        assert forall|a: int|
                            0 <= a < self.locks@.len() implies distinct(
                            #[trigger] self.locks@[a].queue@) by {
                            assert(distinct(pre.locks@[a].queue@));
                            if a == i {
                                lemma_distinct_push(pre.locks@[a].queue@, conn);
                            }
                        }
                        self.lemma_queue_at(i as int);
                        assert(self.queue_of(path@) == enqueue(pre.queue_of(path@), conn));
                        lemma_frame_update(&pre, self, i as int);
                        if qlen > 0 {
                            assert(pre.queue_of(path@).contains(pre.queue_of(path@)[0]));
                            assert(pre.queue_of(path@)[0] != conn);
                            assert(self.queue_of(path@)[0] == pre.queue_of(path@)[0]);
                        }
                    }
                    granted
                }
            },
        }
    }

    /// Releases `conn`'s claim on `path`; a claim that does not exist is
    /// ignored.  If `conn` was the holder and another worker is waiting,
    /// the longest-waiting one is granted and returned.
    pub fn release(&mut self, conn: u64, path: &String) -> (next: Option<u64>)
        requires
            old(self).wf(),
        ensures
            final(self).wf(),
            final(self).queue_of(path@) == drop_conn(old(self).queue_of(path@), conn),
            forall|q: Seq<char>|
                q != path@ ==> (#[trigger] final(self).queue_of(q)) == old(self).queue_of(q),
            !final(self).claims(conn, path@),
            (next is Some) == (old(self).holds(conn, path@) && old(self).queue_of(path@).len()
                >= 2),
            next matches Option::Some(c2) ==> c2 == old(self).queue_of(path@)[1]
                && final(self).holds(c2, path@),
    {
        let found = self.find_path(path);
        match found {
            Option::None => {
                proof {
                    assert(drop_conn(Seq::<u64>::empty(), conn) =~= Seq::<u64>::empty());
                    lemma_drop_conn_props(Seq::<u64>::empty(), conn);
                }
                Option::None
            },
            Option::Some(i) => {
                let ghost pre = *self;
                let mut entry = self.locks.remove(i);
                let qlen = entry.queue.len();
                let was_head = qlen > 0 && entry.queue[0] == conn;
                let out = queue_without(&entry.queue, conn);
                let next: Option<u64> = if was_head && out.len() > 0 {
                    Option::Some(out[0])
                } else {
                    Option::None
                };
                proof {
                    lemma_drop_conn_props(entry.queue@, conn);
                    if was_head {
                        assert(distinct(pre.locks@[i as int].queue@));
                        lemma_drop_conn_head(entry.queue@, conn);
                    } else if qlen > 0 {
                        assert(entry.queue@.contains(entry.queue@[0]));
                    }
                }
                entry.queue = out;
                self.locks.insert(i, entry);
                proof {
                    let n = pre.locks@.len() as int;
                    assert(self.locks@.len() == n);
                    assert forall|j: int|
                        0 <= j < n && j != i implies (#[trigger] self.locks@[j])
                        == pre.locks@[j] by {
                        if j < i {
                        } else {
                            assert(self.locks@[j] == pre.locks@.remove(i as int)[j - 1]);
                        }
                    }
                    assert(self.locks@[i as int].path@ == path@);
                    assert(self.locks@[i as int].queue@ == drop_conn(
                        pre.locks@[i as int].queue@,
                        conn,
                    ));
                    assert forall|a: int, b: int| 0 <= a < b < self.locks@.len() implies (
                    #[trigger] self.locks@[a].path@) != (#[trigger] self.locks@[b].path@) by {
                        assert(self.locks@[a].path@ == pre.locks@[a].path@);
                        assert(self.locks@[b].path@ == pre.locks@[b].path@);
                    }
                    assert forall|a: int|
                        0 <= a < self.locks@.len() implies distinct(
                        #[trigger] self.locks@[a].queue@) by {
                        assert(distinct(pre.locks@[a].queue@));
                        if a == i {
                            lemma_drop_conn_props(pre.locks@[a].queue@, conn);
                        }
                    }
                    self.lemma_queue_at(i as int);
                    lemma_frame_update(&pre, self, i as int);
                }
                next
            },
        }
    }

    /// Treats the closing of `conn`'s connection — explicit goodbye, crash
    /// or protocol violation — as a release of every claim it had.  Every
    /// path whose holder was `conn` and that still has a waiter gains a new
    /// holder; all of these grants are returned.
    #[verifier::rlimit(60)]
    pub fn disconnect(&mut self, conn: u64) -> (grants: Vec<Grant>)
        requires
            old(self).wf(),
        ensures
            final(self).wf(),
            forall|p: Seq<char>|
                (#[trigger] final(self).queue_of(p)) == drop_conn(old(self).queue_of(p), conn),
            forall|p: Seq<char>| !(#[trigger] final(self).claims(conn, p)),
            forall|k: int|
                0 <= k < grants@.len() ==> {
                    let p = (#[trigger] grants@[k]).path@;
                    old(self).holds(conn, p) && old(self).queue_of(p).len() >= 2 && grants@[k].conn
                        == old(self).queue_of(p)[1] && final(self).holds(grants@[k].conn, p)
                },
            forall|p: Seq<char>|
                old(self).holds(conn, p) && (#[trigger] old(self).queue_of(p)).len() >= 2
                    ==> exists|k: int|
                    0 <= k < grants@.len() && (#[trigger] grants@[k].path@) == p && grants@[k].conn
                        == old(self).queue_of(p)[1],
    {
        let mut grants: Vec<Grant> = Vec::new();
        let mut i: usize = 0;
        while i < self.locks.len()
            invariant
                old(self).wf(),
                self.wf(),
                self.locks@.len() == old(self).locks@.len(),
                i <= self.locks@.len(),
                forall|j: int|
                    i <= j < self.locks@.len() ==> (#[trigger] self.locks@[j]) == old(
                        self,
                    ).locks@[j],
                forall|j: int|
                    0 <= j < i ==> (#[trigger] self.locks@[j].path@) == old(self).locks@[j].path@,
                forall|j: int|
                    0 <= j < i ==> (#[trigger] self.locks@[j].queue@) == drop_conn(
                        old(self).locks@[j].queue@,
                        conn,
                    ),
                forall|k: int|
                    0 <= k < grants@.len() ==> #[trigger] grant_listed(
                        grants@[k],
                        *old(self),
                        conn,
                        i as int,
                    ),

                forall|j: int|
                    0 <= j < i && (#[trigger] old(self).locks@[j].queue@).len() >= 2 && old(
                        self,
                    ).locks@[j].queue@[0] == conn ==> exists|k: int|
                        0 <= k < grants@.len() && grant_ok(grants@[k], *old(self), conn, j),
            decreases self.locks@.len() - i,
        {
            let ghost step_pre = *self;
            let ghost grants_pre = grants@;
            let mut entry = self.locks.remove(i);
            let qlen = entry.queue.len();
            let was_head = qlen > 0 && entry.queue[0] == conn;
            let out = queue_without(&entry.queue, conn);
            proof {
                assert(entry == step_pre.locks@[i as int]);
                assert(step_pre.locks@[i as int] == old(self).locks@[i as int]);
                assert(entry.queue@ == old(self).locks@[i as int].queue@);
                assert(distinct(entry.queue@));
                lemma_drop_conn_props(entry.queue@, conn);
                if was_head {
                    lemma_drop_conn_head(entry.queue@, conn);
                }
            }
            let pushed = was_head && out.len() > 0;
            if pushed {
                let granted_to = out[0];
                grants.push(Grant { path: entry.path.clone(), conn: granted_to });
                proof {
                    assert(grant_ok(grants@[grants@.len() - 1], *old(self), conn, i as int));
                }
            }
            entry.queue = out;
            self.locks.insert(i, entry);
            proof {
                let n = step_pre.locks@.len() as int;
                assert(self.locks@.len() == n);
                assert forall|j: int|
                    0 <= j < n && j != i implies (#[trigger] self.locks@[j])
                    == step_pre.locks@[j] by {
                    if j > i {
                        assert(self.locks@[j] == step_pre.locks@.remove(i as int)[j - 1]);
                    }
                }
                assert(self.locks@[i as int].path@ == old(self).locks@[i as int].path@);
                assert(self.locks@[i as int].queue@ == drop_conn(
                    old(self).locks@[i as int].queue@,
                    conn,
                ));
                assert forall|a: int, b: int| 0 <= a < b < self.locks@.len() implies (
                #[trigger] self.locks@[a].path@) != (#[trigger] self.locks@[b].path@) by {
                    assert(self.locks@[a].path@ == step_pre.locks@[a].path@);
                    assert(self.locks@[b].path@ == step_pre.locks@[b].path@);
                }
                assert forall|a: int|
                    0 <= a < self.locks@.len() implies distinct(
                    #[trigger] self.locks@[a].queue@) by {
                    assert(distinct(step_pre.locks@[a].queue@));
                    if a == i {
                        lemma_drop_conn_props(old(self).locks@[a].queue@, conn);
                    }
                }
                assert forall|k: int|
                    0 <= k < grants@.len() implies #[trigger] grant_listed(
                    grants@[k],
                    *old(self),
                    conn,
                    i as int + 1,
                ) by {
                    if k < grants_pre.len() {
                        assert(grants@[k] == grants_pre[k]);
                        assert(grant_listed(grants_pre[k], *old(self), conn, i as int));
                        let j = choose|j: int|
                            j < i && #[trigger] grant_ok(grants_pre[k], *old(self), conn, j);
                        assert(grant_ok(grants@[k], *old(self), conn, j));
                    } else {
                        assert(grants@[k] == grants@[grants@.len() - 1]);
                        assert(grant_ok(grants@[k], *old(self), conn, i as int));
                    }
                }
                assert forall|j: int|
                    0 <= j < i + 1 && (#[trigger] old(self).locks@[j].queue@).len() >= 2 && old(
                        self,
                    ).locks@[j].queue@[0] == conn implies exists|k: int|
                        0 <= k < grants@.len() && grant_ok(
                            #[trigger] grants@[k],
                            *old(self),
                            conn,
                            j,
                        ) by {
                    if j < i {
                        let k = choose|k: int|
                            0 <= k < grants_pre.len() && grant_ok(
                                #[trigger] grants_pre[k],
                                *old(self),
                                conn,
                                j,
                            );
                        assert(grants@[k] == grants_pre[k]);
                        assert(grant_ok(grants@[k], *old(self), conn, j));
                    } else {
                        assert(qlen == old(self).locks@[i as int].queue@.len());
                        assert(was_head);
                        assert(out@.len() == qlen - 1 >= 1);
                        assert(pushed);
                        let k = grants@.len() - 1;
                        assert(0 <= k < grants@.len() && grant_ok(grants@[k], *old(self), conn, j));
                    }
                }
            }
            i += 1;
        }
        proof {
            assert forall|p: Seq<char>|
                (#[trigger] self.queue_of(p)) == drop_conn(old(self).queue_of(p), conn) by {
                if old(self).has_path(p) {
                    let j = choose|j: int|
                        0 <= j < old(self).locks@.len() && (#[trigger] old(self).locks@[j].path@)
                            == p;
                    old(self).lemma_queue_at(j);
                    assert(self.locks@[j].path@ == p);
                    self.lemma_queue_at(j);
                } else {
                    if self.has_path(p) {
                        let j = choose|j: int|
                            0 <= j < self.locks@.len() && (#[trigger] self.locks@[j].path@) == p;
                        assert(old(self).locks@[j].path@ == p);
                    }
                    assert(drop_conn(Seq::<u64>::empty(), conn) =~= Seq::<u64>::empty());
                }
            }
            assert forall|p: Seq<char>| !(#[trigger] self.claims(conn, p)) by {
                lemma_drop_conn_props(old(self).queue_of(p), conn);
            }
            assert forall|k: int|
                0 <= k < grants@.len() implies {
                    let p = (#[trigger] grants@[k]).path@;
                    old(self).holds(conn, p) && old(self).queue_of(p).len() >= 2 && grants@[k].conn
                        == old(self).queue_of(p)[1] && self.holds(grants@[k].conn, p)
                } by {
                assert(grant_listed(grants@[k], *old(self), conn, i as int));
                let j = choose|j: int|
                    j < i && #[trigger] grant_ok(grants@[k], *old(self), conn, j);
                old(self).lemma_queue_at(j);
                self.lemma_queue_at(j);
                lemma_drop_conn_head(old(self).locks@[j].queue@, conn);
            }
            assert forall|p: Seq<char>|
                old(self).holds(conn, p) && (#[trigger] old(self).queue_of(p)).len()
                    >= 2 implies exists|k: int|
                0 <= k < grants@.len() && (#[trigger] grants@[k].path@) == p && grants@[k].conn
                    == old(self).queue_of(p)[1] by {
                let j = choose|j: int|
                    0 <= j < old(self).locks@.len() && (#[trigger] old(self).locks@[j].path@) == p;
                old(self).lemma_queue_at(j);
                let k = choose|k: int|
                    0 <= k < grants@.len() && grant_ok(grants@[k], *old(self), conn, j);
                assert(grants@[k].path@ == p && grants@[k].conn == old(self).queue_of(p)[1]);
            }
        }
        grants
    }

}

fn queue_without(q: &Vec<u64>, conn: u64) -> (out: Vec<u64>)
    ensures
        out@ == drop_conn(q@, conn),
{
    let qlen = q.len();
    let mut out: Vec<u64> = Vec::new();
    let mut k: usize = 0;
    proof {
        assert(q@.take(0) =~= Seq::<u64>::empty());
        assert(drop_conn(q@.take(0), conn) =~= Seq::<u64>::empty());
    }
    while k < qlen
        invariant
            qlen == q@.len(),
            k <= qlen,
            out@ == drop_conn(q@.take(k as int), conn),
        decreases qlen - k,
    {
        let v = q[k];
        proof {
            assert(q@.take(k as int + 1).drop_last() =~= q@.take(k as int));
            assert(q@.take(k as int + 1).last() == q@[k as int]);
        }
        if v != conn {
            out.push(v);
        }
        k += 1;
    }
    proof {
        assert(q@.take(qlen as int) =~= q@);
    }
    out
}

proof fn lemma_distinct_push(q: Seq<u64>, c: u64)
    requires
        distinct(q),
        !q.contains(c),
    ensures
        distinct(q.push(c)),
{
    assert forall|i: int, j: int| 0 <= i < j < q.push(c).len() implies q.push(c)[i] != q.push(
        c,
    )[j] by {
        if j == q.len() {
            assert(q.push(c)[i] == q[i]);
            assert(q.contains(q[i]));
        }
    }
}

/// Mutual exclusion: on any path, at most one connection is in the granted
/// state at any instant.
pub proof fn lemma_mutual_exclusion(t: &LockTable, c1: u64, c2: u64, p: Seq<char>)
    requires
        t.holds(c1, p),
        t.holds(c2, p),
    ensures
        c1 == c2,
{
}

/// A new request never displaces or reorders the claims already queued, so
/// grants happen in request order.
pub proof fn lemma_enqueue_preserves_order(q: Seq<u64>, c: u64, i: int)
    requires
        0 <= i < q.len(),
    ensures
        enqueue(q, c).len() >= q.len(),
        enqueue(q, c)[i] == q[i],
{
}

/// Acquiring a path twice on the same connection without releasing is the
/// same as acquiring it once: no deadlock, and no second, independent
/// ticket handed to another waiter.
pub proof fn lemma_enqueue_idempotent(q: Seq<u64>, c: u64)
    ensures
        enqueue(enqueue(q, c), c) == enqueue(q, c),
{
    if !q.contains(c) {
        assert(q.push(c)[q.len() as int] == c);
        assert(q.push(c).contains(c));
    }
}

/// When the holder of a path leaves — by explicit release or by its
/// connection closing — the longest-waiting requester immediately becomes
/// the holder: no permanent deadlock.
pub proof fn lemma_next_grant_is_first_waiter(q: Seq<u64>, c: u64)
    requires
        distinct(q),
        q.len() >= 2,
        q[0] == c,
    ensures
        drop_conn(q, c).len() == q.len() - 1,
        drop_conn(q, c)[0] == q[1],
{
    lemma_drop_conn_head(q, c);
}

proof fn lemma_frame_update(pre: &LockTable, post: &LockTable, i: int)
    requires
        pre.wf(),
        post.wf(),
        pre.locks@.len() == post.locks@.len(),
        0 <= i < pre.locks@.len(),
        forall|j: int|
            0 <= j < pre.locks@.len() && j != i ==> (#[trigger] post.locks@[j]) == pre.locks@[j],
        post.locks@[i].path@ == pre.locks@[i].path@,
    ensures
        forall|q: Seq<char>|
            q != pre.locks@[i].path@ ==> (#[trigger] post.queue_of(q)) == pre.queue_of(q),
{
    assert forall|q: Seq<char>|
        q != pre.locks@[i].path@ implies (#[trigger] post.queue_of(q)) == pre.queue_of(q) by {
        if pre.has_path(q) {
            let j = choose|j: int|
                0 <= j < pre.locks@.len() && (#[trigger] pre.locks@[j].path@) == q;
            assert(j != i);
            assert(post.locks@[j].path@ == q);
            pre.lemma_queue_at(j);
            post.lemma_queue_at(j);
        } else {
            if post.has_path(q) {
                let j = choose|j: int|
                    0 <= j < post.locks@.len() && (#[trigger] post.locks@[j].path@) == q;
                assert(j != i);
                assert(pre.locks@[j].path@ == q);
            }
        }
    }
}

} // verus!
