use vstd::prelude::*;
use crate::errors::IngestError;
use crate::key_tracker::KeyTracker;
use crate::key_tracker::resolve_key;
use crate::key_tracker::resolve_map;
use crate::rows::CompositeKey;
use crate::rows::ObservationRow;
use crate::store::ListingEntry;
use crate::store::Store;
use crate::store::batch_loadable;
use crate::store::contains_pk;
use crate::store::listing_contains_symbol;

verus! {

/// One decoded measurement of one entity, as the per-source adapter
/// hands it over: the secondary key columns and the measured value,
/// before the entity and provenance surrogates are attached.
#[derive(Clone, Copy, Debug, PartialEq, Eq, Structural)]
pub struct RawBar {
    pub metric_pk: i32,
    pub period_pk: i32,
    pub date: i64,
    pub value_bits: u64,
}

/// What came back from one entity's fetch-and-decode step.
#[derive(Clone, Debug)]
pub enum FetchOutcome {
    /// The payload arrived and decoded into measurements.
    Fetched(Vec<RawBar>),
    /// The remote fetch failed.
    FetchFailed,
    /// The payload did not decode.
    DecodeFailed,
}

/// One entity's unit of work: the natural key under which its payload
/// was requested, and what the fetch produced.
#[derive(Clone, Debug)]
pub struct EntityTask {
    pub symbol: String,
    pub outcome: FetchOutcome,
}

/// Aggregate result of one source's run.
#[derive(Clone, Copy, Debug, PartialEq, Eq, Structural)]
pub struct Summary {
    pub success_count: usize,
    pub failure_count: usize,
}

/// The row that the transform step builds from one measurement.
pub open spec fn spec_row_of(entity_pk: i32, source_pk: i32, bar: RawBar) -> ObservationRow {
    ObservationRow {
        entity_pk: entity_pk,
        metric_pk: bar.metric_pk,
        period_pk: bar.period_pk,
        date: bar.date,
        value_bits: bar.value_bits,
        source_pk: source_pk,
    }
}

/// The transform of a whole payload: one row per measurement, in order.
pub open spec fn bars_rows(entity_pk: i32, source_pk: i32, bars: Seq<RawBar>) -> Seq<
    ObservationRow,
> {
    bars.map_values(|bar: RawBar| spec_row_of(entity_pk, source_pk, bar))
}

/// The reconciliation step: the batch with every row whose composite
/// identity is already stored removed, order kept.
pub open spec fn reconciled(rows0: Seq<ObservationRow>, batch: Seq<ObservationRow>) -> Seq<
    ObservationRow,
>
    decreases batch.len(),
{
    if batch.len() == 0 {
        Seq::empty()
    } else {
        let prev = reconciled(rows0, batch.drop_last());
        if contains_pk(rows0, batch.last().spec_pk()) {
            prev
        } else {
            prev.push(batch.last())
        }
    }
}

/// Attach the entity and provenance surrogates to every decoded
/// measurement.
pub fn to_rows(entity_pk: i32, source_pk: i32, bars: &Vec<RawBar>) -> (rows: Vec<ObservationRow>)
    ensures
        rows@ == bars_rows(entity_pk, source_pk, bars@),
{
    let n = bars.len();
    let mut rows: Vec<ObservationRow> = Vec::new();
    let mut i: usize = 0;
    while i < n
        invariant
            i <= n,
            n == bars@.len(),
            rows@.len() == i,
            forall|j: int| 0 <= j < i ==> rows@[j] == spec_row_of(entity_pk, source_pk, bars@[j]),
        decreases n - i,
    {
        let bar = bars[i];
        rows.push(
            ObservationRow {
                entity_pk: entity_pk,
                metric_pk: bar.metric_pk,
                period_pk: bar.period_pk,
                date: bar.date,
                value_bits: bar.value_bits,
                source_pk: source_pk,
            },
        );
        i = i + 1;
    }
    proof {
        assert(rows@ =~= bars_rows(entity_pk, source_pk, bars@));
    }
    rows
}

/// Whether the key list holds `k`.
fn key_in_list(existing: &Vec<CompositeKey>, k: CompositeKey) -> (r: bool)
    ensures
        r == existing@.contains(k),
{
    let n = existing.len();
    let mut i: usize = 0;
    while i < n
        invariant
            i <= n,
            n == existing@.len(),
            forall|j: int| 0 <= j < i ==> existing@[j] != k,
        decreases n - i,
    {
        if existing[i] == k {
            return true;
        }
        i = i + 1;
    }
    false
}

/// The batch with every row whose composite identity is in the key set
/// removed, order kept.
pub open spec fn diffed(batch: Seq<ObservationRow>, existing: Seq<CompositeKey>) -> Seq<
    ObservationRow,
>
    decreases batch.len(),
{
    if batch.len() == 0 {
        Seq::empty()
    } else {
        let prev = diffed(batch.drop_last(), existing);
        if existing.contains(batch.last().spec_pk()) {
            prev
        } else {
            prev.push(batch.last())
        }
    }
}

/// Drop every row whose composite identity is in the freshly fetched
/// key set of its entity: the diff that must run before the
/// all-or-nothing load.
pub fn diff_existing(rows: Vec<ObservationRow>, existing: &Vec<CompositeKey>) -> (fresh: Vec<
    ObservationRow,
>)
    ensures
        fresh@ == diffed(rows@, existing@),
{
    let n = rows.len();
    let mut fresh: Vec<ObservationRow> = Vec::new();
    let mut i: usize = 0;
    while i < n
        invariant
            i <= n,
            n == rows@.len(),
            fresh@ == diffed(rows@.take(i as int), existing@),
        decreases n - i,
    {
        let row = rows[i];
        let k = row.pk();
        proof {
            assert(rows@.take(i + 1).drop_last() =~= rows@.take(i as int));
            assert(rows@.take(i + 1).last() == rows@[i as int]);
        }
        if !key_in_list(existing, k) {
            fresh.push(row);
        }
        i = i + 1;
    }
    proof {
        assert(rows@.take(n as int) =~= rows@);
    }
    fresh
}

/// Against a key set that holds exactly the stored identities of one
/// entity, diffing a batch of that entity's rows is the reconciliation
/// step itself.
proof fn lemma_diffed_is_reconciled(
    rows0: Seq<ObservationRow>,
    existing: Seq<CompositeKey>,
    batch: Seq<ObservationRow>,
    entity_pk: i32,
)
    requires
        forall|k: CompositeKey| #[trigger]
            existing.contains(k) <==> contains_pk(rows0, k) && k.entity_pk == entity_pk,
        forall|j: int| 0 <= j < batch.len() ==> (#[trigger] batch[j]).entity_pk == entity_pk,
    ensures
        diffed(batch, existing) == reconciled(rows0, batch),
    decreases batch.len(),
{
    if batch.len() > 0 {
        assert forall|j: int| 0 <= j < batch.drop_last().len() implies (#[trigger] batch.drop_last()[j]).entity_pk
            == entity_pk by {
            assert(batch.drop_last()[j] == batch[j]);
        }
        lemma_diffed_is_reconciled(rows0, existing, batch.drop_last(), entity_pk);
        assert(batch.last().entity_pk == entity_pk);
        assert(batch.last().spec_pk().entity_pk == entity_pk);
    }
}

/// The natural keys of a listing, as character sequences.
pub open spec fn symbol_views(symbols: Seq<String>) -> Seq<Seq<char>> {
    symbols.map_values(|s: String| s@)
}

/// The reference listing reduced to what its rows say: surrogate key
/// and natural key.
pub open spec fn listing_model(listing: Seq<ListingEntry>) -> Seq<(int, Seq<char>)> {
    listing.map_values(|e: ListingEntry| (e.pk as int, e.symbol@))
}

/// Whether a listing model holds the natural key `s`.
pub open spec fn model_contains_symbol(lst: Seq<(int, Seq<char>)>, s: Seq<char>) -> bool {
    exists|i: int| 0 <= i < lst.len() && lst[i].1 == s
}

/// The surrogate listed for the natural key `s`; meaningful when the
/// listing holds `s` exactly once.
pub open spec fn model_pk_of(lst: Seq<(int, Seq<char>)>, s: Seq<char>) -> int {
    let i = choose|i: int| 0 <= i < lst.len() && lst[i].1 == s;
    lst[i].0
}

/// The allocator's table after resolving every listed natural key, in
/// listing order.
pub open spec fn resolve_all(m: Map<int, Seq<char>>, symbols: Seq<Seq<char>>) -> Map<
    int,
    Seq<char>,
>
    decreases symbols.len(),
{
    if symbols.len() == 0 {
        m
    } else {
        resolve_map(resolve_all(m, symbols.drop_last()), symbols.last())
    }
}

/// The reference listing after upserting every natural key with the
/// surrogate the allocator resolved for it, in listing order.
pub open spec fn listing_after(
    lst: Seq<(int, Seq<char>)>,
    m: Map<int, Seq<char>>,
    symbols: Seq<Seq<char>>,
) -> Seq<(int, Seq<char>)>
    decreases symbols.len(),
{
    if symbols.len() == 0 {
        lst
    } else {
        let l1 = listing_after(lst, m, symbols.drop_last());
        let m1 = resolve_all(m, symbols.drop_last());
        let s = symbols.last();
        if model_contains_symbol(l1, s) {
            l1
        } else {
            l1.push((resolve_key(m1, s), s))
        }
    }
}

/// A listing holds a natural key exactly when its model does.
proof fn lemma_contains_symbol_model(listing: Seq<ListingEntry>, s: Seq<char>)
    ensures
        listing_contains_symbol(listing, s) == model_contains_symbol(listing_model(listing), s),
{
    if listing_contains_symbol(listing, s) {
        let i = choose|i: int| 0 <= i < listing.len() && listing[i].symbol@ == s;
        assert(listing_model(listing)[i].1 == s);
    }
    if model_contains_symbol(listing_model(listing), s) {
        let i = choose|i: int|
            0 <= i < listing_model(listing).len() && listing_model(listing)[i].1 == s;
        assert(listing[i].symbol@ == s);
    }
}

/// Resolve the source's listed natural keys through the allocator and
/// upsert each into the reference listing, in order. This is the
/// listing pass that runs once per source before any entity work.
pub fn register_listing(store: &mut Store, alloc: &mut KeyTracker, symbols: &Vec<String>)
    requires
        old(store).wf(),
        old(alloc).wf(),
        old(alloc)@.dom().len() + symbols@.len() + 1 < i32::MAX as nat,
    ensures
        final(store).wf(),
        final(alloc).wf(),
        final(store).rows == old(store).rows,
        final(alloc)@ == resolve_all(old(alloc)@, symbol_views(symbols@)),
        final(alloc)@.dom().len() <= old(alloc)@.dom().len() + symbols@.len(),
        listing_model(final(store).listing@) == listing_after(
            listing_model(old(store).listing@),
            old(alloc)@,
            symbol_views(symbols@),
        ),
{
    let ghost m0 = alloc@;
    let ghost l0 = listing_model(store.listing@);
    let ghost views = symbol_views(symbols@);
    let n = symbols.len();
    let mut i: usize = 0;
    while i < n
        invariant
            i <= n,
            n == symbols@.len(),
            views == symbol_views(symbols@),
            m0 == old(alloc)@,
            l0 == listing_model(old(store).listing@),
            m0.dom().len() + n + 1 < i32::MAX as nat,
            store.wf(),
            alloc.wf(),
            store.rows == old(store).rows,
            alloc@ == resolve_all(m0, views.take(i as int)),
            alloc@.dom().len() <= m0.dom().len() + i,
            listing_model(store.listing@) == listing_after(l0, m0, views.take(i as int)),
        decreases n - i,
    {
        let s = symbols[i].clone();
        let ghost s_view = s@;
        let ghost m_pre = alloc@;
        let ghost listing_pre = store.listing@;
        let pk = alloc.transact(s.clone());
        proof {
            assert(views.take(i + 1).drop_last() =~= views.take(i as int));
            assert(views.take(i + 1).last() == views[i as int]);
            assert(views[i as int] == symbols@[i as int]@);
            assert(s_view == views[i as int]);
            assert(alloc@ == resolve_all(m0, views.take(i + 1)));
            if !crate::key_tracker::map_has_value(m_pre, s_view) {
                vstd::set::axiom_set_insert_len(
                    m_pre.dom(),
                    crate::key_tracker::lowest_free(m_pre),
                );
            }
        }
        store.upsert_listing(pk, s);
        proof {
            lemma_contains_symbol_model(listing_pre, s_view);
            if !listing_contains_symbol(listing_pre, s_view) {
                assert(listing_model(store.listing@) =~= listing_model(listing_pre).push(
                    (pk as int, s_view),
                ));
            }
            assert(listing_model(store.listing@) == listing_after(l0, m0, views.take(i + 1)));
        }
        i = i + 1;
    }
    proof {
        assert(views.take(n as int) =~= views);
    }
}

/// One entity's transform, reconcile and load, against storage as it
/// stands when the entity's turn comes. On success the fresh rows (and
/// only those) are appended; on a bulk-load conflict storage is
/// untouched and the batch is reported failed.
pub fn process_entity(
    store: &mut Store,
    entity_pk: i32,
    source_pk: i32,
    bars: &Vec<RawBar>,
) -> (r: Result<usize, IngestError>)
    requires
        old(store).wf(),
    ensures
        final(store).wf(),
        final(store).listing == old(store).listing,
        ({
            let fresh = reconciled(old(store).rows@, bars_rows(entity_pk, source_pk, bars@));
            match r {
                Ok(n) => {
                    &&& batch_loadable(old(store).rows@, fresh)
                    &&& n == fresh.len()
                    &&& final(store).rows@ =~= old(store).rows@ + fresh
                },
                Err(e) => {
                    &&& e == IngestError::LoadError
                    &&& !batch_loadable(old(store).rows@, fresh)
                    &&& *final(store) == *old(store)
                },
            }
        }),
{
    let rows = to_rows(entity_pk, source_pk, bars);
    let existing = store.fetch_existing(entity_pk);
    let fresh = diff_existing(rows, &existing);
    proof {
        lemma_diffed_is_reconciled(
            store.rows@,
            existing@,
            bars_rows(entity_pk, source_pk, bars@),
            entity_pk,
        );
    }
    store.bulk_load(fresh)
}

/// One reconcile-then-load pass over a fetched batch: the rows that
/// survive the diff are appended when the bulk path accepts them, and
/// nothing changes when it does not.
pub open spec fn reconcile_load(
    rows: Seq<ObservationRow>,
    batch: Seq<ObservationRow>,
) -> Seq<ObservationRow> {
    let fresh = reconciled(rows, batch);
    if batch_loadable(rows, fresh) {
        rows + fresh
    } else {
        rows
    }
}

/// A row of the batch whose identity is not yet stored survives the
/// reconciliation diff.
proof fn lemma_reconciled_covers(rows: Seq<ObservationRow>, batch: Seq<ObservationRow>, i: int)
    requires
        0 <= i < batch.len(),
        !contains_pk(rows, batch[i].spec_pk()),
    ensures
        contains_pk(reconciled(rows, batch), batch[i].spec_pk()),
    decreases batch.len(),
{
    let out = reconciled(rows, batch);
    let prev = reconciled(rows, batch.drop_last());
    if i == batch.len() - 1 {
        assert(out[out.len() - 1] == batch[i]);
    } else {
        lemma_reconciled_covers(rows, batch.drop_last(), i);
        assert(batch.drop_last()[i] == batch[i]);
        let j = choose|j: int|
            0 <= j < prev.len() && prev[j].spec_pk() == batch[i].spec_pk();
        if contains_pk(rows, batch.last().spec_pk()) {
            assert(out[j].spec_pk() == batch[i].spec_pk());
        } else {
            assert(out[j] == prev[j]);
            assert(out[j].spec_pk() == batch[i].spec_pk());
        }
    }
}

/// When every identity of the batch is already stored, the diff leaves
/// nothing to load.
proof fn lemma_reconciled_empty(rows: Seq<ObservationRow>, batch: Seq<ObservationRow>)
    requires
        forall|i: int| 0 <= i < batch.len() ==> contains_pk(rows, #[trigger] batch[i].spec_pk()),
    ensures
        reconciled(rows, batch) == Seq::<ObservationRow>::empty(),
    decreases batch.len(),
{
    if batch.len() > 0 {
        assert forall|i: int| 0 <= i < batch.drop_last().len() implies contains_pk(
            rows,
            #[trigger] batch.drop_last()[i].spec_pk(),
        ) by {
            assert(batch.drop_last()[i] == batch[i]);
        }
        lemma_reconciled_empty(rows, batch.drop_last());
        assert(contains_pk(rows, batch.last().spec_pk()));
    }
}

/// Law of idempotent reconciliation: loading one fetched batch through
/// reconcile-then-load twice, with the existing-key set re-fetched in
/// between, leaves storage exactly as one pass does — the second pass
/// finds every identity already stored and loads nothing.
pub proof fn lemma_reconcile_idempotent(rows: Seq<ObservationRow>, batch: Seq<ObservationRow>)
    ensures
        reconcile_load(reconcile_load(rows, batch), batch) == reconcile_load(rows, batch),
{
    let fresh = reconciled(rows, batch);
    if batch_loadable(rows, fresh) {
        let r1 = rows + fresh;
        assert forall|i: int| 0 <= i < batch.len() implies contains_pk(
            r1,
            #[trigger] batch[i].spec_pk(),
        ) by {
            if contains_pk(rows, batch[i].spec_pk()) {
                let j = choose|j: int|
                    0 <= j < rows.len() && rows[j].spec_pk() == batch[i].spec_pk();
                assert(r1[j] == rows[j]);
            } else {
                lemma_reconciled_covers(rows, batch, i);
                let j = choose|j: int|
                    0 <= j < fresh.len() && fresh[j].spec_pk() == batch[i].spec_pk();
                assert(r1[rows.len() + j] == fresh[j]);
            }
        }
        lemma_reconciled_empty(r1, batch);
        assert(reconcile_load(r1, batch) =~= r1);
    }
}

/// What one entity task does to the observation table, and whether it
/// counts as a success (1) or a failure (0).
pub open spec fn task_step(
    rows0: Seq<ObservationRow>,
    lst: Seq<(int, Seq<char>)>,
    source_pk: i32,
    task: EntityTask,
) -> (Seq<ObservationRow>, int) {
    match task.outcome {
        FetchOutcome::FetchFailed => (rows0, 0),
        FetchOutcome::DecodeFailed => (rows0, 0),
        FetchOutcome::Fetched(bars) => {
            if !model_contains_symbol(lst, task.symbol@) {
                (rows0, 0)
            } else {
                let entity_pk = model_pk_of(lst, task.symbol@) as i32;
                let fresh = reconciled(rows0, bars_rows(entity_pk, source_pk, bars@));
                if batch_loadable(rows0, fresh) {
                    (rows0 + fresh, 1)
                } else {
                    (rows0, 0)
                }
            }
        },
    }
}

/// The observation table and the success count after every entity
/// task has run, in task order.
pub open spec fn run_model(
    rows0: Seq<ObservationRow>,
    lst: Seq<(int, Seq<char>)>,
    source_pk: i32,
    tasks: Seq<EntityTask>,
) -> (Seq<ObservationRow>, int)
    decreases tasks.len(),
{
    if tasks.len() == 0 {
        (rows0, 0)
    } else {
        let prev = run_model(rows0, lst, source_pk, tasks.drop_last());
        let st = task_step(prev.0, lst, source_pk, tasks.last());
        (st.0, prev.1 + st.1)
    }
}

/// One entity task, end to end: look the entity up in the listing,
/// then transform, reconcile and load its payload. Exactly one error
/// comes back for each way the task can fail: `FetchError` when the
/// fetch failed, `DecodeError` when the payload did not decode,
/// `KeyNotFound` when the listing does not hold the task's natural key,
/// and `LoadError` when the bulk path rejected the diffed batch.
pub fn process_task(store: &mut Store, source_pk: i32, task: &EntityTask) -> (r: Result<
    usize,
    IngestError,
>)
    requires
        old(store).wf(),
    ensures
        final(store).wf(),
        final(store).listing == old(store).listing,
        ({
            let step = task_step(
                old(store).rows@,
                listing_model(old(store).listing@),
                source_pk,
                *task,
            );
            final(store).rows@ == step.0 && ((r is Ok) <==> step.1 == 1)
        }),
        match task.outcome {
            FetchOutcome::FetchFailed => r == Err::<usize, IngestError>(IngestError::FetchError),
            FetchOutcome::DecodeFailed => r == Err::<usize, IngestError>(IngestError::DecodeError),
            FetchOutcome::Fetched(bars) => {
                let lst = listing_model(old(store).listing@);
                if !model_contains_symbol(lst, task.symbol@) {
                    r == Err::<usize, IngestError>(IngestError::KeyNotFound)
                } else {
                    let entity_pk = model_pk_of(lst, task.symbol@) as i32;
                    let fresh = reconciled(
                        old(store).rows@,
                        bars_rows(entity_pk, source_pk, bars@),
                    );
                    if batch_loadable(old(store).rows@, fresh) {
                        r == Ok::<usize, IngestError>(fresh.len() as usize)
                    } else {
                        r == Err::<usize, IngestError>(IngestError::LoadError)
                    }
                }
            },
        },
{
    let ghost lst = listing_model(store.listing@);
    match &task.outcome {
        FetchOutcome::FetchFailed => Err(IngestError::FetchError),
        FetchOutcome::DecodeFailed => Err(IngestError::DecodeError),
        FetchOutcome::Fetched(bars) => {
            match store.listed_pk(&task.symbol) {
                None => {
                    proof {
                        lemma_contains_symbol_model(store.listing@, task.symbol@);
                    }
                    Err(IngestError::KeyNotFound)
                },
                Some(entity_pk) => {
                    proof {
                        lemma_contains_symbol_model(store.listing@, task.symbol@);
                        let i = choose|i: int|
                            0 <= i < store.listing@.len() && store.listing@[i].symbol@
                                == task.symbol@ && store.listing@[i].pk == entity_pk;
                        let j = choose|j: int| 0 <= j < lst.len() && lst[j].1 == task.symbol@;
                        assert(store.listing@[j].symbol@ == task.symbol@);
                        assert(i == j);
                        assert(model_pk_of(lst, task.symbol@) == entity_pk as int);
                    }
                    process_entity(store, entity_pk, source_pk, bars)
                },
            }
        },
    }
}

/// Run one source's whole ingestion: resolve the provenance key, pass
/// the reference listing through the allocator and the listing upsert,
/// then give every entity task its turn — transform, reconcile, load —
/// with failures caught at the entity boundary and counted, never
/// propagated. Every task is counted exactly once, so
/// `success_count + failure_count` always equals the number of tasks.
pub fn run_source(
    store: &mut Store,
    alloc: &mut KeyTracker,
    source: String,
    symbols: Vec<String>,
    tasks: Vec<EntityTask>,
) -> (summary: Summary)
    requires
        old(store).wf(),
        old(alloc).wf(),
        old(alloc)@.dom().len() + symbols@.len() + 2 < i32::MAX as nat,
    ensures
        final(store).wf(),
        final(alloc).wf(),
        final(alloc)@ == resolve_all(
            resolve_map(old(alloc)@, source@),
            symbol_views(symbols@),
        ),
        listing_model(final(store).listing@) == listing_after(
            listing_model(old(store).listing@),
            resolve_map(old(alloc)@, source@),
            symbol_views(symbols@),
        ),
        ({
            let m = run_model(
                old(store).rows@,
                listing_model(final(store).listing@),
                resolve_key(old(alloc)@, source@) as i32,
                tasks@,
            );
            final(store).rows@ == m.0 && summary.success_count == m.1
        }),
        summary.success_count + summary.failure_count == tasks@.len(),
{
    let source_pk = alloc.transact(source);
    proof {
        vstd::set::axiom_set_insert_len(old(alloc)@.dom(), source_pk as int);
    }
    register_listing(store, alloc, &symbols);
    let ghost rows_a = store.rows@;
    let ghost lst = listing_model(store.listing@);
    let ghost listing_b = store.listing;
    let ghost alloc_b = *alloc;
    let n = tasks.len();
    let mut success: usize = 0;
    let mut failure: usize = 0;
    let mut t: usize = 0;
    while t < n
        invariant
            t <= n,
            n == tasks@.len(),
            store.wf(),
            store.listing == listing_b,
            lst == listing_model(listing_b@),
            *alloc == alloc_b,
            success + failure == t,
            success <= t,
            ({
                let m = run_model(rows_a, lst, source_pk, tasks@.take(t as int));
                store.rows@ == m.0 && success == m.1
            }),
        decreases n - t,
    {
        let task = &tasks[t];
        proof {
            assert(tasks@.take(t + 1).drop_last() =~= tasks@.take(t as int));
            assert(tasks@.take(t + 1).last() == tasks@[t as int]);
        }
        match process_task(store, source_pk, task) {
            Ok(_) => {
                success = success + 1;
            },
            Err(_) => {
                failure = failure + 1;
            },
        }
        t = t + 1;
    }
    proof {
        assert(tasks@.take(n as int) =~= tasks@);
    }
    Summary { success_count: success, failure_count: failure }
}

} // verus!
