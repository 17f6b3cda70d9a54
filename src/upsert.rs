use vstd::prelude::*;
use crate::batch::Columns;
use crate::record::{Timestamp, opt_view};

verus! {

/// The statement that writes one batch: `$1` is the source identifier and `$2` to `$7` are
/// the columns of the batch. A row whose key is new is inserted; a row whose key is stored
/// already is applied as `upsert_row` says. The guard compares with `IS DISTINCT FROM`, so
/// an absent value against a present one counts as a difference, as in `same_observation`.
pub const UPSERT_SQL: &'static str = "INSERT INTO external_file(external_source, path, filename, mime_type, created, modified, size)
    SELECT $1, * FROM UNNEST($2::text[], $3::text[], $4::text[], $5::timestamptz[], $6::timestamptz[], $7::bigint[])
    ON CONFLICT ON CONSTRAINT external_file_unique_constraint
    DO UPDATE SET
        mime_type = EXCLUDED.mime_type,
        created = EXCLUDED.created,
        modified = EXCLUDED.modified,
        size = EXCLUDED.size
    WHERE (external_file.created, external_file.modified, external_file.size)
        IS DISTINCT FROM (EXCLUDED.created, EXCLUDED.modified, EXCLUDED.size)";

/// The key of a stored row: source identifier, path and file name.
pub type RowKey = (Seq<char>, Seq<char>, Seq<char>);

/// The columns of a stored row that a later observation may overwrite.
pub struct RowState {
    pub mime_type: Option<Seq<char>>,
    pub created: Option<Timestamp>,
    pub modified: Timestamp,
    pub size: Option<i64>,
}

/// The catalogue as the store holds it.
pub type Table = Map<RowKey, RowState>;

/// One observed row, ready to be written.
pub type Observation = (RowKey, RowState);

/// Two rows report the same creation time, modification time and size.
pub open spec fn same_observation(a: RowState, b: RowState) -> bool {
    a.created == b.created && a.modified == b.modified && a.size == b.size
}

/// The row stored after an incoming row meets what was stored under its key: a new key takes
/// the incoming row; a stored row is overwritten only where the incoming one reports another
/// creation time, modification time or size.
pub open spec fn upsert_row(stored: Option<RowState>, incoming: RowState) -> RowState {
    match stored {
        None => incoming,
        Some(s) => if same_observation(s, incoming) {
            s
        } else {
            incoming
        },
    }
}

/// The overwritable columns of a row, as values.
#[derive(Debug, PartialEq, Eq)]
pub struct StoredRow {
    pub mime_type: Option<String>,
    pub created: Option<Timestamp>,
    pub modified: Timestamp,
    pub size: Option<i64>,
}

impl StoredRow {
    /// The row as the model of the store sees it.
    pub open spec fn state(&self) -> RowState {
        RowState {
            mime_type: opt_view(self.mime_type),
            created: self.created,
            modified: self.modified,
            size: self.size,
        }
    }
}

fn same_time(a: Option<Timestamp>, b: Option<Timestamp>) -> (r: bool)
    ensures
        r == (a == b),
{
    match (a, b) {
        (Some(x), Some(y)) => x == y,
        (None, None) => true,
        _ => false,
    }
}

fn same_size(a: Option<i64>, b: Option<i64>) -> (r: bool)
    ensures
        r == (a == b),
{
    match (a, b) {
        (Some(x), Some(y)) => x == y,
        (None, None) => true,
        _ => false,
    }
}

/// The row that results when `incoming` is written over what is `stored` under its key.
pub fn upsert(stored: Option<StoredRow>, incoming: StoredRow) -> (r: StoredRow)
    ensures
        r.state() == upsert_row(
            match stored {
                Some(s) => Some(s.state()),
                None => None,
            },
            incoming.state(),
        ),
{
    match stored {
        None => incoming,
        Some(s) => {
            if same_time(s.created, incoming.created) && s.modified == incoming.modified
                && same_size(s.size, incoming.size) {
                s
            } else {
                incoming
            }
        },
    }
}

/// What `t` holds under `k`.
pub open spec fn stored_at(t: Table, k: RowKey) -> Option<RowState> {
    if t.contains_key(k) {
        Some(t[k])
    } else {
        None
    }
}

/// The table after one observation is written.
pub open spec fn apply_one(t: Table, o: Observation) -> Table {
    t.insert(o.0, upsert_row(stored_at(t, o.0), o.1))
}

/// The table after the observations are written in order.
pub open spec fn apply_all(t: Table, obs: Seq<Observation>) -> Table
    decreases obs.len(),
{
    if obs.len() == 0 {
        t
    } else {
        apply_one(apply_all(t, obs.drop_last()), obs.last())
    }
}

/// No key occurs twice among the observations: the store refuses a statement that would
/// write one row twice.
pub open spec fn distinct_keys(obs: Seq<Observation>) -> bool {
    forall|i: int, j: int| 0 <= i < j < obs.len() ==> #[trigger] obs[i].0 != #[trigger] obs[j].0
}

/// The observations that a batch's columns write under the source identifier `source`.
pub open spec fn batch_observations(source: Seq<char>, c: Columns) -> Seq<Observation> {
    Seq::new(
        c.paths@.len(),
        |i: int|
            (
                (source, c.paths@[i]@, c.filenames@[i]@),
                RowState {
                    mime_type: opt_view(c.mime_types@[i]),
                    created: c.createds@[i],
                    modified: c.modifieds@[i],
                    size: c.sizes@[i],
                },
            ),
    )
}

/// The observations of a crawl's batches, in the order the batches were written.
pub open spec fn crawl_observations(source: Seq<char>, batches: Seq<Columns>) -> Seq<Observation>
    decreases batches.len(),
{
    if batches.len() == 0 {
        Seq::empty()
    } else {
        crawl_observations(source, batches.drop_last()) + batch_observations(
            source,
            batches.last(),
        )
    }
}

/// The table after a crawl's batches are written in order.
pub open spec fn apply_batches(t: Table, source: Seq<char>, batches: Seq<Columns>) -> Table
    decreases batches.len(),
{
    if batches.len() == 0 {
        t
    } else {
        apply_all(apply_batches(t, source, batches.drop_last()), batch_observations(source, batches.last()))
    }
}

/// Writing two runs of observations one after the other is writing them joined.
pub proof fn lemma_apply_all_concat(t: Table, a: Seq<Observation>, b: Seq<Observation>)
    ensures
        apply_all(apply_all(t, a), b) == apply_all(t, a + b),
    decreases b.len(),
{
    if b.len() == 0 {
        assert(a + b =~= a);
    } else {
        lemma_apply_all_concat(t, a, b.drop_last());
        assert((a + b).drop_last() =~= a + b.drop_last());
        assert((a + b).last() == b.last());
    }
}

/// Writing a crawl batch by batch is writing its observations in order.
pub proof fn lemma_apply_batches(t: Table, source: Seq<char>, batches: Seq<Columns>)
    ensures
        apply_batches(t, source, batches) == apply_all(t, crawl_observations(source, batches)),
    decreases batches.len(),
{
    if batches.len() > 0 {
        lemma_apply_batches(t, source, batches.drop_last());
        lemma_apply_all_concat(
            t,
            crawl_observations(source, batches.drop_last()),
            batch_observations(source, batches.last()),
        );
    }
}

/// With distinct keys, each observed key holds the upsert of its observation over what `t`
/// held, and every other key keeps what `t` held.
proof fn lemma_apply_all_pointwise(t: Table, obs: Seq<Observation>)
    requires
        distinct_keys(obs),
    ensures
        forall|i: int|
            0 <= i < obs.len() ==> #[trigger] stored_at(apply_all(t, obs), obs[i].0) == Some(
                upsert_row(stored_at(t, obs[i].0), obs[i].1),
            ),
        forall|k: RowKey|
            (forall|i: int| 0 <= i < obs.len() ==> #[trigger] obs[i].0 != k) ==> stored_at(
                apply_all(t, obs),
                k,
            ) == stored_at(t, k),
    decreases obs.len(),
{
    if obs.len() > 0 {
        let init = obs.drop_last();
        assert(distinct_keys(init)) by {
            assert forall|i: int, j: int| 0 <= i < j < init.len() implies #[trigger] init[i].0
                != #[trigger] init[j].0 by {
                assert(init[i] == obs[i] && init[j] == obs[j]);
            }
        }
        lemma_apply_all_pointwise(t, init);
        let last = obs.last();
        let n = obs.len() - 1;
        assert forall|i: int| 0 <= i < init.len() implies #[trigger] init[i].0 != last.0 by {
            assert(init[i] == obs[i]);
            assert(obs[i].0 != obs[n].0);
        }
        assert forall|i: int| 0 <= i < obs.len() implies #[trigger] stored_at(
            apply_all(t, obs),
            obs[i].0,
        ) == Some(upsert_row(stored_at(t, obs[i].0), obs[i].1)) by {
            if i < n {
                assert(init[i] == obs[i]);
            }
        }
        assert forall|k: RowKey|
            (forall|i: int| 0 <= i < obs.len() ==> #[trigger] obs[i].0 != k) implies stored_at(
            apply_all(t, obs),
            k,
        ) == stored_at(t, k) by {
            assert(obs[n].0 != k);
            assert forall|i: int| 0 <= i < init.len() implies #[trigger] init[i].0 != k by {
                assert(init[i] == obs[i]);
                assert(obs[i].0 != k);
            }
        }
    }
}

/// Tables that agree on every key are equal.
proof fn lemma_tables_equal(a: Table, b: Table)
    requires
        forall|k: RowKey| #[trigger] stored_at(a, k) == stored_at(b, k),
    ensures
        a == b,
{
    assert forall|k: RowKey| #[trigger] a.contains_key(k) <==> b.contains_key(k) by {
        assert(stored_at(a, k) == stored_at(b, k));
    }
    assert forall|k: RowKey| a.contains_key(k) implies #[trigger] a[k] == b[k] by {
        assert(stored_at(a, k) == stored_at(b, k));
    }
    assert(a =~= b);
}

/// A re-observation that reports the same creation time, modification time and size as the
/// stored row leaves the row as it was, its MIME type included.
pub proof fn lemma_unchanged_file_keeps_row(stored: RowState, incoming: RowState)
    requires
        same_observation(stored, incoming),
    ensures
        upsert_row(Some(stored), incoming) == stored,
        upsert_row(Some(stored), incoming).mime_type == stored.mime_type,
{
}

/// A re-observation that reports another creation time, modification time or size
/// overwrites all four columns with the observed values.
pub proof fn lemma_changed_file_overwrites_row(stored: RowState, incoming: RowState)
    requires
        !same_observation(stored, incoming),
    ensures
        upsert_row(Some(stored), incoming) == incoming,
{
}

/// Writing the same observations twice, the second time in any order, leaves the table as
/// writing them once.
pub proof fn lemma_apply_all_idempotent(t: Table, first: Seq<Observation>, second: Seq<Observation>)
    requires
        distinct_keys(first),
        distinct_keys(second),
        forall|o: Observation| first.contains(o) <==> second.contains(o),
    ensures
        apply_all(apply_all(t, first), second) == apply_all(t, first),
{
    let once = apply_all(t, first);
    let twice = apply_all(once, second);
    lemma_apply_all_pointwise(t, first);
    lemma_apply_all_pointwise(once, second);
    assert forall|k: RowKey| #[trigger] stored_at(twice, k) == stored_at(once, k) by {
        if exists|i: int| 0 <= i < first.len() && first[i].0 == k {
            let i = choose|i: int| 0 <= i < first.len() && first[i].0 == k;
            assert(first.contains(first[i]));
            assert(second.contains(first[i]));
            let j = choose|j: int| 0 <= j < second.len() && second[j] == first[i];
            assert(stored_at(once, first[i].0) == Some(
                upsert_row(stored_at(t, first[i].0), first[i].1),
            ));
            assert(stored_at(twice, second[j].0) == Some(
                upsert_row(stored_at(once, second[j].0), second[j].1),
            ));
        } else {
            assert forall|j: int| 0 <= j < second.len() implies #[trigger] second[j].0 != k by {
                assert(second.contains(second[j]));
                assert(first.contains(second[j]));
            }
        }
    }
    lemma_tables_equal(twice, once);
}

/// Crawling a root twice over an unchanged source leaves the same rows as crawling it once,
/// however the two crawls order their observations and cut them into batches.
pub proof fn lemma_crawl_idempotent(
    t: Table,
    source: Seq<char>,
    first: Seq<Columns>,
    second: Seq<Columns>,
)
    requires
        forall|o: Observation|
            crawl_observations(source, first).contains(o) <==> crawl_observations(
                source,
                second,
            ).contains(o),
        distinct_keys(crawl_observations(source, first)),
        distinct_keys(crawl_observations(source, second)),
    ensures
        apply_batches(apply_batches(t, source, first), source, second) == apply_batches(
            t,
            source,
            first,
        ),
{
    let once = apply_batches(t, source, first);
    lemma_apply_batches(t, source, first);
    lemma_apply_batches(once, source, second);
    lemma_apply_all_idempotent(
        t,
        crawl_observations(source, first),
        crawl_observations(source, second),
    );
}

} // verus!
