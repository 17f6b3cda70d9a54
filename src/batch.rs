use vstd::prelude::*;
use crate::record::{FileInfo, Timestamp, opt_view, stored_size, stored_size_of};

verus! {

/// The number of records at which a batch closes.
pub const BATCH_SIZE: usize = 200;

/// The time, in milliseconds, after which an open batch closes.
pub const BATCH_WINDOW_MS: u64 = 1000;

/// Groups items into batches that close at a count of items or when a time window since
/// the batch's first item has passed, whichever comes first. Times are milliseconds on a
/// clock that never goes back.
pub struct Batcher<T> {
    items: Vec<T>,
    opened_at: u64,
    capacity: usize,
    window: u64,
}

/// The view of a closed batch, if any.
pub open spec fn batch_view<T>(r: Option<Vec<T>>) -> Option<Seq<T>> {
    match r {
        Some(b) => Some(b@),
        None => None,
    }
}

/// What a tick at `now` does to an open batch `open` that opened at `opened`: the open batch
/// left, and the batch closed, if any.
pub open spec fn tick_step<T>(open: Seq<T>, opened: u64, window: u64, now: u64) -> (
    Seq<T>,
    Option<Seq<T>>,
) {
    if open.len() > 0 && now as int >= opened as int + window as int {
        (Seq::empty(), Some(open))
    } else {
        (open, None)
    }
}

/// What adding `item` at `now` does to an open batch `open` that opened at `opened`: the open
/// batch left, when it opened, and the batch closed, if any.
pub open spec fn push_step<T>(open: Seq<T>, opened: u64, capacity: nat, item: T, now: u64) -> (
    Seq<T>,
    u64,
    Option<Seq<T>>,
) {
    let grown = open.push(item);
    let start = if open.len() == 0 {
        now
    } else {
        opened
    };
    if grown.len() == capacity {
        (Seq::empty(), start, Some(grown))
    } else {
        (grown, start, None)
    }
}

/// The state after a fresh batcher is fed `xs`, each item with its arrival time, with a tick
/// at each arrival before the item is added: the open batch, when it opened, and the batches
/// closed so far, in order.
pub open spec fn feed<T>(capacity: nat, window: u64, xs: Seq<(T, u64)>) -> (
    Seq<T>,
    u64,
    Seq<Seq<T>>,
)
    decreases xs.len(),
{
    if xs.len() == 0 {
        (Seq::empty(), 0, Seq::empty())
    } else {
        let (open, opened, closed) = feed(capacity, window, xs.drop_last());
        let (item, now) = xs.last();
        let (open1, c1) = tick_step(open, opened, window, now);
        let closed1 = match c1 {
            Some(b) => closed.push(b),
            None => closed,
        };
        let (open2, opened2, c2) = push_step(open1, opened, capacity, item, now);
        let closed2 = match c2 {
            Some(b) => closed1.push(b),
            None => closed1,
        };
        (open2, opened2, closed2)
    }
}

/// The batches joined end to end.
pub open spec fn joined<T>(bs: Seq<Seq<T>>) -> Seq<T>
    decreases bs.len(),
{
    if bs.len() == 0 {
        Seq::empty()
    } else {
        joined(bs.drop_last()) + bs.last()
    }
}

/// The items of `xs` without their times.
pub open spec fn items_of<T>(xs: Seq<(T, u64)>) -> Seq<T> {
    xs.map_values(|x: (T, u64)| x.0)
}

/// Batching by count: items that all arrive at one time, with a window longer than zero,
/// close only full batches; the batches joined, then the open rest, give back the items in
/// order, and the rest, which the end of the source closes, is shorter than a full batch.
pub proof fn lemma_batches_by_count<T>(capacity: nat, window: u64, xs: Seq<(T, u64)>, at: u64)
    requires
        capacity > 0,
        window > 0,
        forall|i: int| 0 <= i < xs.len() ==> #[trigger] xs[i].1 == at,
    ensures
        ({
            let (open, opened, closed) = feed(capacity, window, xs);
            &&& forall|i: int| 0 <= i < closed.len() ==> #[trigger] closed[i].len() == capacity
            &&& joined(closed) + open == items_of(xs)
            &&& open.len() < capacity
            &&& closed.len() * capacity + open.len() == xs.len()
        }),
    decreases xs.len(),
{
    if xs.len() > 0 {
        let init = xs.drop_last();
        assert forall|i: int| 0 <= i < init.len() implies #[trigger] init[i].1 == at by {
            assert(init[i] == xs[i]);
        }
        lemma_batches_by_count(capacity, window, init, at);
        let (open, opened, closed) = feed(capacity, window, init);
        assert(open.len() > 0 ==> opened == at) by {
            lemma_opened_at_last(capacity, window, init, at);
        }
        assert(items_of(xs) =~= items_of(init).push(xs.last().0));
        let (open2, opened2, closed2) = feed(capacity, window, xs);
        let grown = open.push(xs.last().0);
        if grown.len() == capacity {
            assert(closed2 == closed.push(grown));
            assert(closed2.drop_last() =~= closed);
            assert(joined(closed2) + open2 =~= joined(closed) + open + seq![xs.last().0]);
            assert forall|i: int| 0 <= i < closed2.len() implies #[trigger] closed2[i].len()
                == capacity by {
                if i < closed.len() {
                    assert(closed2[i] == closed[i]);
                }
            }
            assert(closed2.len() * capacity == closed.len() * capacity + capacity) by (nonlinear_arith)
                requires
                    closed2.len() == closed.len() + 1,
            ;
        } else {
            assert(closed2 == closed);
            assert(joined(closed) + open2 =~= joined(closed) + open + seq![xs.last().0]);
        }
    }
}

/// While items all arrive at one time, an open batch opened at that time.
proof fn lemma_opened_at_last<T>(capacity: nat, window: u64, xs: Seq<(T, u64)>, at: u64)
    requires
        capacity > 0,
        window > 0,
        forall|i: int| 0 <= i < xs.len() ==> #[trigger] xs[i].1 == at,
    ensures
        feed(capacity, window, xs).0.len() > 0 ==> feed(capacity, window, xs).1 == at,
    decreases xs.len(),
{
    if xs.len() > 0 {
        let init = xs.drop_last();
        assert forall|i: int| 0 <= i < init.len() implies #[trigger] init[i].1 == at by {
            assert(init[i] == xs[i]);
        }
        lemma_opened_at_last(capacity, window, init, at);
    }
}

/// Batching by time: where each item arrives at least a window after the one before it and a
/// batch holds more than one item, every item closes alone: the batches closed are the items
/// before the last, one each, and the last is open, opened at its arrival.
pub proof fn lemma_batches_by_time<T>(capacity: nat, window: u64, xs: Seq<(T, u64)>)
    requires
        capacity > 1,
        xs.len() > 0,
        forall|i: int|
            0 <= i < xs.len() - 1 ==> xs[i + 1].1 as int >= #[trigger] xs[i].1 as int
                + window as int,
    ensures
        ({
            let (open, opened, closed) = feed(capacity, window, xs);
            &&& open == seq![xs.last().0]
            &&& opened == xs.last().1
            &&& closed.len() == xs.len() - 1
            &&& forall|i: int| 0 <= i < closed.len() ==> #[trigger] closed[i] == seq![xs[i].0]
        }),
    decreases xs.len(),
{
    let init = xs.drop_last();
    if init.len() > 0 {
        assert forall|i: int| 0 <= i < init.len() - 1 implies init[i + 1].1 as int
            >= #[trigger] init[i].1 as int + window as int by {
            assert(init[i] == xs[i] && init[i + 1] == xs[i + 1]);
        }
        lemma_batches_by_time(capacity, window, init);
        let (open, opened, closed) = feed(capacity, window, init);
        let n = xs.len() - 1;
        assert(xs[n - 1].1 as int + window as int <= xs[n].1 as int);
        assert(init.last() == xs[n - 1]);
        let (open2, opened2, closed2) = feed(capacity, window, xs);
        assert(closed2 == closed.push(seq![xs[n - 1].0]));
        assert forall|i: int| 0 <= i < closed2.len() implies #[trigger] closed2[i] == seq![
            xs[i].0,
        ] by {
            if i < closed.len() {
                assert(closed2[i] == closed[i]);
                assert(init[i] == xs[i]);
            }
        }
        assert(open2 =~= seq![xs.last().0]);
    } else {
        assert(feed(capacity, window, init).0 =~= Seq::<T>::empty());
        assert(feed(capacity, window, init).2 =~= Seq::<Seq<T>>::empty());
        assert(feed(capacity, window, xs).0 =~= seq![xs.last().0]);
    }
}

impl<T> Batcher<T> {
    /// The items of the open batch, oldest first.
    pub closed spec fn items(&self) -> Seq<T> {
        self.items@
    }

    /// When the open batch received its first item.
    pub closed spec fn opened_at(&self) -> u64 {
        self.opened_at
    }

    /// The count at which a batch closes.
    pub closed spec fn capacity(&self) -> nat {
        self.capacity as nat
    }

    /// How long a batch stays open.
    pub closed spec fn window(&self) -> u64 {
        self.window
    }

    /// An open batch is never full: a batch closes when it reaches its count.
    pub closed spec fn wf(&self) -> bool {
        &&& self.capacity > 0
        &&& self.items@.len() < self.capacity
    }

    /// The open batch has outlived its window at time `now`.
    pub open spec fn expired_at(&self, now: u64) -> bool {
        self.items().len() > 0 && now as int >= self.opened_at() as int + self.window() as int
    }

    /// A batcher with the given count and window and no open batch.
    pub fn with_limits(capacity: usize, window: u64) -> (r: Self)
        requires
            capacity > 0,
        ensures
            r.wf(),
            r.items().len() == 0,
            r.capacity() == capacity,
            r.window() == window,
    {
        Batcher { items: Vec::new(), opened_at: 0, capacity, window }
    }

    /// A batcher that closes batches at `BATCH_SIZE` items or after `BATCH_WINDOW_MS`.
    pub fn new() -> (r: Self)
        ensures
            r.wf(),
            r.items().len() == 0,
            r.capacity() == BATCH_SIZE,
            r.window() == BATCH_WINDOW_MS,
    {
        Self::with_limits(BATCH_SIZE, BATCH_WINDOW_MS)
    }

    fn take_items(&mut self) -> (r: Vec<T>)
        ensures
            r@ == old(self).items@,
            final(self).items@.len() == 0,
            final(self).opened_at == old(self).opened_at,
            final(self).capacity == old(self).capacity,
            final(self).window == old(self).window,
    {
        let mut out: Vec<T> = Vec::new();
        core::mem::swap(&mut out, &mut self.items);
        out
    }

    /// Adds an item at time `now`. The batch closes and is returned when the item fills
    /// it; otherwise nothing is returned, and an item that opens a batch starts its window.
    pub fn push(&mut self, item: T, now: u64) -> (r: Option<Vec<T>>)
        requires
            old(self).wf(),
        ensures
            final(self).wf(),
            final(self).capacity() == old(self).capacity(),
            final(self).window() == old(self).window(),
            (final(self).items(), final(self).opened_at(), batch_view(r)) == push_step(
                old(self).items(),
                old(self).opened_at(),
                old(self).capacity(),
                item,
                now,
            ),
            old(self).items().len() + 1 == old(self).capacity() ==> {
                &&& r matches Some(b) && b@ == old(self).items().push(item)
                &&& final(self).items().len() == 0
            },
            old(self).items().len() + 1 < old(self).capacity() ==> {
                &&& r is None
                &&& final(self).items() == old(self).items().push(item)
                &&& final(self).opened_at() == if old(self).items().len() == 0 {
                    now
                } else {
                    old(self).opened_at()
                }
            },
    {
        if self.items.len() == 0 {
            self.opened_at = now;
        }
        self.items.push(item);
        if self.items.len() == self.capacity {
            Some(self.take_items())
        } else {
            None
        }
    }

    /// Closes and returns the open batch where its window has passed at time `now`.
    pub fn tick(&mut self, now: u64) -> (r: Option<Vec<T>>)
        requires
            old(self).wf(),
        ensures
            final(self).wf(),
            final(self).capacity() == old(self).capacity(),
            final(self).window() == old(self).window(),
            (final(self).items(), batch_view(r)) == tick_step(
                old(self).items(),
                old(self).opened_at(),
                old(self).window(),
                now,
            ),
            final(self).opened_at() == old(self).opened_at(),
            old(self).expired_at(now) ==> {
                &&& r matches Some(b) && b@ == old(self).items()
                &&& final(self).items().len() == 0
            },
            !old(self).expired_at(now) ==> {
                &&& r is None
                &&& final(self).items() == old(self).items()
                &&& final(self).opened_at() == old(self).opened_at()
            },
    {
        if self.items.len() > 0 && now >= self.opened_at && now - self.opened_at >= self.window {
            Some(self.take_items())
        } else {
            None
        }
    }

    /// Closes and returns the open batch, if it holds any item: the source has ended.
    pub fn finish(&mut self) -> (r: Option<Vec<T>>)
        requires
            old(self).wf(),
        ensures
            final(self).wf(),
            final(self).capacity() == old(self).capacity(),
            final(self).window() == old(self).window(),
            final(self).items().len() == 0,
            old(self).items().len() > 0 ==> (r matches Some(b) && b@ == old(self).items()),
            old(self).items().len() == 0 ==> r is None,
    {
        if self.items.len() > 0 {
            Some(self.take_items())
        } else {
            None
        }
    }

    /// When the open batch's window ends (at the clock's largest value where the sum does
    /// not fit), or nothing where no batch is open.
    pub fn deadline(&self) -> (r: Option<u64>)
        requires
            self.wf(),
        ensures
            self.items().len() == 0 ==> r is None,
            self.items().len() > 0 ==> r == Some(
                if self.opened_at() as int + self.window() as int > u64::MAX as int {
                    u64::MAX
                } else {
                    (self.opened_at() + self.window()) as u64
                },
            ),
    {
        if self.items.len() > 0 {
            Some(self.opened_at.saturating_add(self.window))
        } else {
            None
        }
    }
}

/// The rows of one batch as aligned columns: index `i` of each column belongs to record `i`.
#[derive(Debug)]
pub struct Columns {
    pub paths: Vec<String>,
    pub filenames: Vec<String>,
    pub mime_types: Vec<Option<String>>,
    pub createds: Vec<Option<Timestamp>>,
    pub modifieds: Vec<Timestamp>,
    pub sizes: Vec<Option<i64>>,
}

/// Row `i` of `c` holds the stored values of record `f`.
pub open spec fn row_matches(c: Columns, i: int, f: FileInfo) -> bool {
    &&& c.paths@[i]@ == f.path@
    &&& c.filenames@[i]@ == f.filename@
    &&& opt_view(c.mime_types@[i]) == opt_view(f.mime_type)
    &&& c.createds@[i] == f.created
    &&& c.modifieds@[i] == f.modified
    &&& c.sizes@[i] == stored_size_of(f.size)
}

/// The columns hold exactly the records of `files`, one row each, in order.
pub open spec fn columns_of(c: Columns, files: Seq<FileInfo>) -> bool {
    &&& c.paths@.len() == files.len()
    &&& c.filenames@.len() == files.len()
    &&& c.mime_types@.len() == files.len()
    &&& c.createds@.len() == files.len()
    &&& c.modifieds@.len() == files.len()
    &&& c.sizes@.len() == files.len()
    &&& forall|i: int| 0 <= i < files.len() ==> row_matches(c, i, #[trigger] files[i])
}

fn clone_opt(o: &Option<String>) -> (r: Option<String>)
    ensures
        opt_view(r) == opt_view(*o),
{
    match o {
        Some(s) => Some(s.clone()),
        None => None,
    }
}

impl Columns {
    /// Lays out a batch of records as aligned columns, sizes converted to their stored values.
    pub fn from_files(files: &Vec<FileInfo>) -> (r: Columns)
        ensures
            columns_of(r, files@),
    {
        let mut c = Columns {
            paths: Vec::new(),
            filenames: Vec::new(),
            mime_types: Vec::new(),
            createds: Vec::new(),
            modifieds: Vec::new(),
            sizes: Vec::new(),
        };
        let mut i: usize = 0;
        while i < files.len()
            invariant
                i <= files@.len(),
                columns_of(c, files@.take(i as int)),
            decreases files@.len() - i,
        {
            let f = &files[i];
            c.paths.push(f.path.clone());
            c.filenames.push(f.filename.clone());
            c.mime_types.push(clone_opt(&f.mime_type));
            c.createds.push(f.created);
            c.modifieds.push(f.modified);
            c.sizes.push(stored_size(f.size));
            i = i + 1;
            assert forall|j: int| 0 <= j < i implies row_matches(
                c,
                j,
                #[trigger] files@.take(i as int)[j],
            ) by {
                if j < i - 1 {
                    assert(files@.take(i as int)[j] == files@.take(i - 1)[j]);
                }
            }
        }
        assert(files@.take(i as int) =~= files@);
        c
    }

    /// The number of rows.
    pub fn len(&self) -> (r: usize)
        ensures
            r == self.paths@.len(),
    {
        self.paths.len()
    }
}

} // verus!
