//! The routing and projection layer behind the demultiplexer.
//!
//! For each of the seven changelogs, two externally supplied sets decide
//! what happens: views in `active_logs` are arranged into a keyed trace for
//! querying, and views in `sink_logs` are forwarded verbatim to a durable
//! sink. Both may apply to the same view. Arranging projects each row into
//! a key tuple and a value tuple; the value columns are the non-key columns
//! in ascending order. The two histogram changelogs are additionally
//! reduced to per-key count totals before they are packed into rows. No
//! other transformation belongs here.

use crate::alist::{assoc_has, assoc_index, assoc_map, assoc_unique};
use crate::changelog::{FrontierDelayRow, PeekDurationRow};
use crate::ids::GlobalId;
use vstd::prelude::*;

verus! {

/// The seven changelog kinds.
#[derive(Clone, Copy, Debug, PartialEq, Eq, Structural)]
pub enum LogVariant {
    /// Active dataflows.
    DataflowCurrent,
    /// Recorded dependency edges.
    DataflowDependency,
    /// Dataflow frontiers.
    FrontierCurrent,
    /// Source instantiation frontiers.
    SourceFrontierCurrent,
    /// Frontier advancement delay histogram.
    FrontierDelay,
    /// Installed peeks.
    PeekCurrent,
    /// Peek duration histogram.
    PeekDuration,
}

/// One column of an output row.
#[derive(Clone, Copy, Debug, PartialEq, Eq, Structural)]
pub enum LogDatum {
    /// A global identifier, rendered as text on output.
    Id(GlobalId),
    /// An unsigned number.
    U64(u64),
    /// A signed number.
    I64(i64),
    /// A peek identifier.
    Uuid(u128),
}

/// Where one changelog goes: whether it is arranged for querying, and the
/// index of its sink entry if it is persisted.
#[derive(Clone, Copy, Debug, PartialEq, Eq, Structural)]
pub struct Routing {
    /// Arrange the changelog into a keyed trace.
    pub arrange: bool,
    /// Forward it to the sink configured at this index.
    pub sink: Option<usize>,
}

/// Decide what happens to one changelog: it is arranged when its variant is
/// among the active logs, and persisted when a sink entry names it (the
/// first such entry decides).
pub fn route(
    variant: LogVariant,
    active_logs: &Vec<LogVariant>,
    sink_logs: &Vec<(LogVariant, GlobalId)>,
) -> (r: Routing)
    ensures
        r.arrange <==> active_logs@.contains(variant),
        match r.sink {
            Some(i) => {
                &&& i < sink_logs@.len()
                &&& sink_logs@[i as int].0 == variant
                &&& forall|j: int| 0 <= j < i ==> (#[trigger] sink_logs@[j]).0 != variant
            },
            None => forall|j: int|
                0 <= j < sink_logs@.len() ==> (#[trigger] sink_logs@[j]).0 != variant,
        },
{
    let mut arrange = false;
    let mut i: usize = 0;
    while i < active_logs.len()
        invariant
            i <= active_logs@.len(),
            arrange <==> exists|j: int| 0 <= j < i && active_logs@[j] == variant,
        decreases active_logs@.len() - i,
    {
        if active_logs[i] == variant {
            arrange = true;
        }
        i = i + 1;
    }
    let mut sink: Option<usize> = None;
    let mut s: usize = 0;
    while s < sink_logs.len() && sink.is_none()
        invariant
            s <= sink_logs@.len(),
            match sink {
                Some(i) => {
                    &&& i < sink_logs@.len()
                    &&& sink_logs@[i as int].0 == variant
                    &&& forall|j: int| 0 <= j < i ==> (#[trigger] sink_logs@[j]).0 != variant
                },
                None => forall|j: int| 0 <= j < s ==> (#[trigger] sink_logs@[j]).0 != variant,
            },
        decreases sink_logs@.len() - s,
    {
        if sink_logs[s].0 == variant {
            sink = Some(s);
        }
        s = s + 1;
    }
    proof {
        if arrange {
            let j = choose|j: int| 0 <= j < active_logs@.len() && active_logs@[j] == variant;
            assert(active_logs@[j] == variant);
        }
        if active_logs@.contains(variant) {
            let j = choose|j: int| 0 <= j < active_logs@.len() && active_logs@[j] == variant;
            assert(0 <= j < active_logs@.len() && active_logs@[j] == variant);
        }
    }
    Routing { arrange, sink }
}

/// The non-key columns below the arity, in ascending order.
pub open spec fn complement_cols(key: Seq<usize>, arity: int) -> Seq<usize>
    decreases arity,
{
    if arity <= 0 {
        Seq::empty()
    } else {
        complement_cols(key, arity - 1) + (if key.contains((arity - 1) as usize) {
            Seq::<usize>::empty()
        } else {
            seq![(arity - 1) as usize]
        })
    }
}

/// Whether a column list names the column.
fn cols_contain(cols: &Vec<usize>, c: usize) -> (r: bool)
    ensures
        r <==> cols@.contains(c),
{
    let mut i: usize = 0;
    while i < cols.len()
        invariant
            i <= cols@.len(),
            forall|j: int| 0 <= j < i ==> cols@[j] != c,
        decreases cols@.len() - i,
    {
        if cols[i] == c {
            proof {
                assert(cols@[i as int] == c);
            }
            return true;
        }
        i = i + 1;
    }
    proof {
        if cols@.contains(c) {
            let j = choose|j: int| 0 <= j < cols@.len() && cols@[j] == c;
            assert(cols@[j] == c);
        }
    }
    false
}

/// The value columns of an arrangement: all columns of the row that are not
/// key columns, in ascending order. This reconstructs the permutation that
/// splits a row into its key and value tuples.
pub fn permutation_values(key: &Vec<usize>, arity: usize) -> (value: Vec<usize>)
    ensures
        value@ == complement_cols(key@, arity as int),
{
    let mut value: Vec<usize> = Vec::new();
    let mut c: usize = 0;
    while c < arity
        invariant
            c <= arity,
            value@ =~= complement_cols(key@, c as int),
        decreases arity - c,
    {
        if !cols_contain(key, c) {
            value.push(c);
        }
        c = c + 1;
        proof {
            assert(value@ =~= complement_cols(key@, c as int));
        }
    }
    value
}

/// The datums of a row at the given columns, in order.
pub open spec fn projected(row: Seq<LogDatum>, cols: Seq<usize>) -> Seq<LogDatum> {
    Seq::new(cols.len(), |i: int| row[cols[i] as int])
}

/// Project a row onto a column list: the tuple of its datums at those
/// columns, in column order.
pub fn project_row(row: &Vec<LogDatum>, cols: &Vec<usize>) -> (r: Vec<LogDatum>)
    requires
        forall|i: int| 0 <= i < cols@.len() ==> (#[trigger] cols@[i]) < row@.len(),
    ensures
        r@ == projected(row@, cols@),
{
    let mut r: Vec<LogDatum> = Vec::new();
    let mut i: usize = 0;
    while i < cols.len()
        invariant
            i <= cols@.len(),
            forall|j: int| 0 <= j < cols@.len() ==> (#[trigger] cols@[j]) < row@.len(),
            r@ =~= projected(row@, cols@).take(i as int),
        decreases cols@.len() - i,
    {
        r.push(row[cols[i]]);
        i = i + 1;
        proof {
            assert(r@ =~= projected(row@, cols@).take(i as int));
        }
    }
    proof {
        assert(projected(row@, cols@).take(cols@.len() as int) =~= projected(row@, cols@));
    }
    r
}

/// The running per-key totals of a stream of `(key, diff)` updates, keys in
/// first-occurrence order.
pub open spec fn tally_pairs<K>(us: Seq<(K, i64)>) -> Seq<(K, int)>
    decreases us.len(),
{
    if us.len() == 0 {
        Seq::empty()
    } else {
        let rest = tally_pairs(us.drop_last());
        let k = us.last().0;
        let d = us.last().1;
        if assoc_has(rest, k) {
            rest.update(assoc_index(rest, k), (k, rest[assoc_index(rest, k)].1 + d))
        } else {
            rest.push((k, d as int))
        }
    }
}

/// The pairs with a non-zero total, in order.
pub open spec fn nonzero_pairs<K>(ps: Seq<(K, int)>) -> Seq<(K, int)>
    decreases ps.len(),
{
    if ps.len() == 0 {
        Seq::empty()
    } else {
        nonzero_pairs(ps.drop_last()) + (if ps.last().1 != 0 {
            seq![ps.last()]
        } else {
            Seq::<(K, int)>::empty()
        })
    }
}

/// Every total of a pair sequence fits the count encoding.
pub open spec fn totals_fit<K>(ps: Seq<(K, int)>) -> bool {
    forall|i: int| 0 <= i < ps.len() ==> i64::MIN <= (#[trigger] ps[i]).1 <= i64::MAX
}

/// Totals stay unique per key.
proof fn lemma_tally_unique<K>(us: Seq<(K, i64)>)
    ensures
        assoc_unique(tally_pairs(us)),
    decreases us.len(),
{
    if us.len() > 0 {
        lemma_tally_unique(us.drop_last());
        let rest = tally_pairs(us.drop_last());
        let k = us.last().0;
        if assoc_has(rest, k) {
            let i = assoc_index(rest, k);
            assert forall|p: int, q: int|
                0 <= p < q < tally_pairs(us).len() implies (#[trigger] tally_pairs(us)[p]).0 != (
            #[trigger] tally_pairs(us)[q]).0 by {
                assert(tally_pairs(us)[p].0 == rest[p].0);
                assert(tally_pairs(us)[q].0 == rest[q].0);
            }
        } else {
            assert forall|p: int, q: int|
                0 <= p < q < tally_pairs(us).len() implies (#[trigger] tally_pairs(us)[p]).0 != (
            #[trigger] tally_pairs(us)[q]).0 by {
                if q == rest.len() {
                    assert(tally_pairs(us)[p].0 == rest[p].0);
                    if rest[p].0 == k {
                        assert(assoc_has(rest, k));
                    }
                } else {
                    assert(tally_pairs(us)[p].0 == rest[p].0);
                    assert(tally_pairs(us)[q].0 == rest[q].0);
                }
            }
        }
    }
}

/// Reduce a FrontierDelay changelog to per-key count totals: one `(row,
/// total)` pair per distinct row whose accumulated multiplicity is not
/// zero, rows in first-occurrence order. Fails exactly when some running
/// total leaves the count encoding.
pub fn count_frontier_delays(us: &Vec<(FrontierDelayRow, i64)>) -> (r: Result<
    Vec<(FrontierDelayRow, i64)>,
    crate::changelog::FatalError,
>)
    ensures
        match r {
            Ok(totals) => {
                &&& totals@.map_values(|p: (FrontierDelayRow, i64)| (p.0, p.1 as int))
                    == nonzero_pairs(tally_pairs(us@))
                &&& forall|p: int|
                    0 <= p <= us@.len() ==> totals_fit(#[trigger] tally_pairs(us@.take(p)))
            },
            Err(e) => {
                &&& e == crate::changelog::FatalError::CountOverflow
                &&& exists|p: int|
                    0 <= p <= us@.len() && !totals_fit(#[trigger] tally_pairs(us@.take(p)))
            },
        },
{
    let mut acc: Vec<(FrontierDelayRow, i64)> = Vec::new();
    let mut i: usize = 0;
    while i < us.len()
        invariant
            i <= us@.len(),
            assoc_unique(acc@),
            acc@.map_values(|p: (FrontierDelayRow, i64)| (p.0, p.1 as int)) =~= tally_pairs(
                us@.take(i as int),
            ),
            forall|p: int| 0 <= p <= i ==> totals_fit(#[trigger] tally_pairs(us@.take(p))),
        decreases us@.len() - i,
    {
        let ghost acc0 = acc@;
        let ghost mapped0 = acc@.map_values(|p: (FrontierDelayRow, i64)| (p.0, p.1 as int));
        let entry = us[i];
        proof {
            assert(us@.take(i as int + 1).drop_last() =~= us@.take(i as int));
            assert(us@.take(i as int + 1).last() == entry);
            lemma_assoc_unique_keys(acc0, mapped0);
        }
        let mut found: Option<usize> = None;
        let mut f: usize = 0;
        while f < acc.len()
            invariant
                f <= acc@.len(),
                acc@ == acc0,
                match found {
                    Some(x) => x < acc@.len() && acc@[x as int].0 == entry.0,
                    None => forall|j: int| 0 <= j < f ==> (#[trigger] acc@[j]).0 != entry.0,
                },
            decreases acc@.len() - f,
        {
            if found.is_none() && acc[f].0 == entry.0 {
                found = Some(f);
            }
            f = f + 1;
        }
        match found {
            Some(x) => {
                let c = acc[x].1;
                proof {
                    assert(mapped0[x as int] == (entry.0, c as int));
                    crate::alist::lemma_assoc_at(mapped0, x as int);
                }
                match c.checked_add(entry.1) {
                    None => {
                        proof {
                            assert(assoc_has(mapped0, entry.0));
                            let t1 = tally_pairs(us@.take(i as int + 1));
                            assert(t1 == mapped0.update(
                                assoc_index(mapped0, entry.0),
                                (entry.0, mapped0[assoc_index(mapped0, entry.0)].1 + entry.1),
                            ));
                            assert(t1[x as int].1 == c + entry.1);
                            assert(!totals_fit(t1));
                        }
                        return Err(crate::changelog::FatalError::CountOverflow);
                    },
                    Some(nc) => {
                        let e = acc_at_mut(&mut acc, x);
                        e.1 = nc;
                        proof {
                            assert(acc@ =~= acc0.update(x as int, (entry.0, nc)));
                            assert(acc@.map_values(
                                |p: (FrontierDelayRow, i64)| (p.0, p.1 as int),
                            ) =~= mapped0.update(x as int, (entry.0, nc as int)));
                            assert(tally_pairs(us@.take(i as int + 1)) =~= mapped0.update(
                                x as int,
                                (entry.0, c + entry.1),
                            ));
                            assert forall|y: int| 0 <= y < acc@.len() implies (
                            #[trigger] acc@[y]).0 == acc0[y].0 by {}
                            lemma_assoc_unique_keys(acc@, acc0);
                        }
                    },
                }
            },
            None => {
                acc.push(entry);
                proof {
                    assert(acc@ =~= acc0.push(entry));
                    assert(acc@.map_values(|p: (FrontierDelayRow, i64)| (p.0, p.1 as int))
                        =~= mapped0.push((entry.0, entry.1 as int)));
                    lemma_assoc_has_keys(acc0, mapped0, entry.0);
                    assert(!assoc_has(mapped0, entry.0));
                    assert(tally_pairs(us@.take(i as int + 1)) =~= mapped0.push(
                        (entry.0, entry.1 as int),
                    ));
                    crate::alist::lemma_assoc_push(acc0, entry.0, entry.1);
                }
            },
        }
        i = i + 1;
        proof {
            assert forall|p: int| 0 <= p <= i implies totals_fit(
                #[trigger] tally_pairs(us@.take(p)),
            ) by {
                if p == i as int {
                    assert(tally_pairs(us@.take(p)) =~= acc@.map_values(
                        |q: (FrontierDelayRow, i64)| (q.0, q.1 as int),
                    ));
                }
            }
        }
    }
    proof {
        assert(us@.take(us@.len() as int) =~= us@);
    }
    let mut totals: Vec<(FrontierDelayRow, i64)> = Vec::new();
    let ghost accf = acc@;
    let mut z: usize = 0;
    while z < acc.len()
        invariant
            z <= acc@.len(),
            acc@ == accf,
            totals@.map_values(|p: (FrontierDelayRow, i64)| (p.0, p.1 as int)) =~= nonzero_pairs(
                accf.map_values(|p: (FrontierDelayRow, i64)| (p.0, p.1 as int)).take(z as int),
            ),
        decreases acc@.len() - z,
    {
        let entry = acc[z];
        if entry.1 != 0 {
            totals.push(entry);
        }
        z = z + 1;
        proof {
            let mapped = accf.map_values(|p: (FrontierDelayRow, i64)| (p.0, p.1 as int));
            assert(mapped.take(z as int).drop_last() =~= mapped.take(z as int - 1));
            assert(mapped.take(z as int).last() == (entry.0, entry.1 as int));
            assert(totals@.map_values(|p: (FrontierDelayRow, i64)| (p.0, p.1 as int))
                =~= nonzero_pairs(mapped.take(z as int)));
        }
    }
    proof {
        let mapped = accf.map_values(|p: (FrontierDelayRow, i64)| (p.0, p.1 as int));
        assert(mapped.take(mapped.len() as int) =~= mapped);
    }
    Ok(totals)
}

/// A mutable borrow of one accumulator element.
fn acc_at_mut<T>(v: &mut Vec<T>, i: usize) -> (e: &mut T)
    requires
        i < old(v).len(),
    ensures
        *e == old(v)@[i as int],
        final(v)@ == old(v)@.update(i as int, *final(e)),
{
    &mut v[i]
}

/// Keys stay aligned between a pair sequence and its value-mapped image.
proof fn lemma_assoc_unique_keys<K, V, W>(raw: Seq<(K, V)>, mapped: Seq<(K, W)>)
    requires
        mapped.len() == raw.len(),
        forall|i: int| 0 <= i < raw.len() ==> (#[trigger] mapped[i]).0 == raw[i].0,
    ensures
        assoc_unique(raw) <==> assoc_unique(mapped),
{
    if assoc_unique(raw) {
        assert forall|i: int, j: int| 0 <= i < j < mapped.len() implies mapped[i].0
            != mapped[j].0 by {
            assert(mapped[i].0 == raw[i].0);
            assert(mapped[j].0 == raw[j].0);
        }
    }
    if assoc_unique(mapped) {
        assert forall|i: int, j: int| 0 <= i < j < raw.len() implies raw[i].0 != raw[j].0 by {
            assert(mapped[i].0 == raw[i].0);
            assert(mapped[j].0 == raw[j].0);
        }
    }
}

/// Key membership stays aligned between a pair sequence and its
/// value-mapped image.
proof fn lemma_assoc_has_keys<K, V, W>(raw: Seq<(K, V)>, mapped: Seq<(K, W)>, k: K)
    requires
        mapped.len() == raw.len(),
        forall|i: int| 0 <= i < raw.len() ==> (#[trigger] mapped[i]).0 == raw[i].0,
    ensures
        assoc_has(raw, k) <==> assoc_has(mapped, k),
{
    if assoc_has(raw, k) {
        let i = assoc_index(raw, k);
        assert(mapped[i].0 == k);
    }
    if assoc_has(mapped, k) {
        let i = assoc_index(mapped, k);
        assert(raw[i].0 == k);
    }
}

/// Reduce a PeekDuration changelog to per-key count totals: one `(row,
/// total)` pair per distinct row whose accumulated multiplicity is not
/// zero, rows in first-occurrence order. Fails exactly when some running
/// total leaves the count encoding.
pub fn count_peek_durations(us: &Vec<(PeekDurationRow, i64)>) -> (r: Result<
    Vec<(PeekDurationRow, i64)>,
    crate::changelog::FatalError,
>)
    ensures
        match r {
            Ok(totals) => {
                &&& totals@.map_values(|p: (PeekDurationRow, i64)| (p.0, p.1 as int))
                    == nonzero_pairs(tally_pairs(us@))
                &&& forall|p: int|
                    0 <= p <= us@.len() ==> totals_fit(#[trigger] tally_pairs(us@.take(p)))
            },
            Err(e) => {
                &&& e == crate::changelog::FatalError::CountOverflow
                &&& exists|p: int|
                    0 <= p <= us@.len() && !totals_fit(#[trigger] tally_pairs(us@.take(p)))
            },
        },
{
    let mut acc: Vec<(PeekDurationRow, i64)> = Vec::new();
    let mut i: usize = 0;
    while i < us.len()
        invariant
            i <= us@.len(),
            assoc_unique(acc@),
            acc@.map_values(|p: (PeekDurationRow, i64)| (p.0, p.1 as int)) =~= tally_pairs(
                us@.take(i as int),
            ),
            forall|p: int| 0 <= p <= i ==> totals_fit(#[trigger] tally_pairs(us@.take(p))),
        decreases us@.len() - i,
    {
        let ghost acc0 = acc@;
        let ghost mapped0 = acc@.map_values(|p: (PeekDurationRow, i64)| (p.0, p.1 as int));
        let entry = us[i];
        proof {
            assert(us@.take(i as int + 1).drop_last() =~= us@.take(i as int));
            assert(us@.take(i as int + 1).last() == entry);
            lemma_assoc_unique_keys(acc0, mapped0);
        }
        let mut found: Option<usize> = None;
        let mut f: usize = 0;
        while f < acc.len()
            invariant
                f <= acc@.len(),
                acc@ == acc0,
                match found {
                    Some(x) => x < acc@.len() && acc@[x as int].0 == entry.0,
                    None => forall|j: int| 0 <= j < f ==> (#[trigger] acc@[j]).0 != entry.0,
                },
            decreases acc@.len() - f,
        {
            if found.is_none() && acc[f].0 == entry.0 {
                found = Some(f);
            }
            f = f + 1;
        }
        match found {
            Some(x) => {
                let c = acc[x].1;
                proof {
                    assert(mapped0[x as int] == (entry.0, c as int));
                    crate::alist::lemma_assoc_at(mapped0, x as int);
                }
                match c.checked_add(entry.1) {
                    None => {
                        proof {
                            assert(assoc_has(mapped0, entry.0));
                            let t1 = tally_pairs(us@.take(i as int + 1));
                            assert(t1 == mapped0.update(
                                assoc_index(mapped0, entry.0),
                                (entry.0, mapped0[assoc_index(mapped0, entry.0)].1 + entry.1),
                            ));
                            assert(t1[x as int].1 == c + entry.1);
                            assert(!totals_fit(t1));
                        }
                        return Err(crate::changelog::FatalError::CountOverflow);
                    },
                    Some(nc) => {
                        let e = acc_at_mut(&mut acc, x);
                        e.1 = nc;
                        proof {
                            assert(acc@ =~= acc0.update(x as int, (entry.0, nc)));
                            assert(acc@.map_values(
                                |p: (PeekDurationRow, i64)| (p.0, p.1 as int),
                            ) =~= mapped0.update(x as int, (entry.0, nc as int)));
                            assert(tally_pairs(us@.take(i as int + 1)) =~= mapped0.update(
                                x as int,
                                (entry.0, c + entry.1),
                            ));
                            assert forall|y: int| 0 <= y < acc@.len() implies (
                            #[trigger] acc@[y]).0 == acc0[y].0 by {}
                            lemma_assoc_unique_keys(acc@, acc0);
                        }
                    },
                }
            },
            None => {
                acc.push(entry);
                proof {
                    assert(acc@ =~= acc0.push(entry));
                    assert(acc@.map_values(|p: (PeekDurationRow, i64)| (p.0, p.1 as int))
                        =~= mapped0.push((entry.0, entry.1 as int)));
                    lemma_assoc_has_keys(acc0, mapped0, entry.0);
                    assert(!assoc_has(mapped0, entry.0));
                    assert(tally_pairs(us@.take(i as int + 1)) =~= mapped0.push(
                        (entry.0, entry.1 as int),
                    ));
                    crate::alist::lemma_assoc_push(acc0, entry.0, entry.1);
                }
            },
        }
        i = i + 1;
        proof {
            assert forall|p: int| 0 <= p <= i implies totals_fit(
                #[trigger] tally_pairs(us@.take(p)),
            ) by {
                if p == i as int {
                    assert(tally_pairs(us@.take(p)) =~= acc@.map_values(
                        |q: (PeekDurationRow, i64)| (q.0, q.1 as int),
                    ));
                }
            }
        }
    }
    proof {
        assert(us@.take(us@.len() as int) =~= us@);
    }
    let mut totals: Vec<(PeekDurationRow, i64)> = Vec::new();
    let ghost accf = acc@;
    let mut z: usize = 0;
    while z < acc.len()
        invariant
            z <= acc@.len(),
            acc@ == accf,
            totals@.map_values(|p: (PeekDurationRow, i64)| (p.0, p.1 as int)) =~= nonzero_pairs(
                accf.map_values(|p: (PeekDurationRow, i64)| (p.0, p.1 as int)).take(z as int),
            ),
        decreases acc@.len() - z,
    {
        let entry = acc[z];
        if entry.1 != 0 {
            totals.push(entry);
        }
        z = z + 1;
        proof {
            let mapped = accf.map_values(|p: (PeekDurationRow, i64)| (p.0, p.1 as int));
            assert(mapped.take(z as int).drop_last() =~= mapped.take(z as int - 1));
            assert(mapped.take(z as int).last() == (entry.0, entry.1 as int));
            assert(totals@.map_values(|p: (PeekDurationRow, i64)| (p.0, p.1 as int))
                =~= nonzero_pairs(mapped.take(z as int)));
        }
    }
    proof {
        let mapped = accf.map_values(|p: (PeekDurationRow, i64)| (p.0, p.1 as int));
        assert(mapped.take(mapped.len() as int) =~= mapped);
    }
    Ok(totals)
}

/// The change set a reduction emits when a key's output is recomputed:
/// the newly computed pairs followed by the retraction of every previously
/// emitted pair.
pub open spec fn negated<R>(existing: Seq<(R, i64)>) -> Seq<(R, i64)> {
    Seq::new(existing.len(), |i: int| (existing[i].0, (-(existing[i].1 as int)) as i64))
}

/// Build the update batch that replaces a key's previously emitted
/// reduction output with the newly computed one: the computed pairs,
/// followed by each existing pair with its multiplicity negated.
pub fn reduction_update(
    computed: &Vec<(Vec<LogDatum>, i64)>,
    existing: &Vec<(Vec<LogDatum>, i64)>,
) -> (r: Vec<(Vec<LogDatum>, i64)>)
    requires
        forall|i: int| 0 <= i < existing@.len() ==> (#[trigger] existing@[i]).1 != i64::MIN,
    ensures
        r@.len() == computed@.len() + existing@.len(),
        forall|i: int|
            0 <= i < computed@.len() ==> (#[trigger] r@[i]).0@ == computed@[i].0@ && r@[i].1
                == computed@[i].1,
        forall|i: int|
            0 <= i < existing@.len() ==> (#[trigger] r@[computed@.len() + i]).0@
                == existing@[i].0@ && r@[computed@.len() + i].1 == (-(existing@[i].1 as int)) as i64,
{
    let mut r: Vec<(Vec<LogDatum>, i64)> = Vec::new();
    let mut i: usize = 0;
    while i < computed.len()
        invariant
            i <= computed@.len(),
            r@.len() == i,
            forall|j: int|
                0 <= j < i ==> (#[trigger] r@[j]).0@ == computed@[j].0@ && r@[j].1
                    == computed@[j].1,
        decreases computed@.len() - i,
    {
        r.push(clone_row_diff(&computed[i]));
        i = i + 1;
    }
    let mut e: usize = 0;
    while e < existing.len()
        invariant
            e <= existing@.len(),
            forall|j: int| 0 <= j < existing@.len() ==> (#[trigger] existing@[j]).1 != i64::MIN,
            r@.len() == computed@.len() + e,
            forall|j: int|
                0 <= j < computed@.len() ==> (#[trigger] r@[j]).0@ == computed@[j].0@ && r@[j].1
                    == computed@[j].1,
            forall|j: int|
                0 <= j < e ==> (#[trigger] r@[computed@.len() + j]).0@ == existing@[j].0@ && r@[
                    computed@.len() + j
                ].1 == (-(existing@[j].1 as int)) as i64,
        decreases existing@.len() - e,
    {
        let p = clone_row_diff(&existing[e]);
        r.push((p.0, -p.1));
        e = e + 1;
    }
    r
}

/// Copy one `(row, diff)` pair.
fn clone_row_diff(p: &(Vec<LogDatum>, i64)) -> (r: (Vec<LogDatum>, i64))
    ensures
        r.0@ == p.0@,
        r.1 == p.1,
{
    let mut row: Vec<LogDatum> = Vec::new();
    let mut i: usize = 0;
    while i < p.0.len()
        invariant
            i <= p.0@.len(),
            row@ =~= p.0@.take(i as int),
        decreases p.0@.len() - i,
    {
        row.push(p.0[i]);
        i = i + 1;
        proof {
            assert(row@ =~= p.0@.take(i as int));
        }
    }
    proof {
        assert(p.0@.take(p.0@.len() as int) =~= p.0@);
    }
    (row, p.1)
}

/// Pack a DataflowCurrent row: `(dataflow_id, worker)`.
pub fn pack_dataflow(row: &crate::changelog::DataflowRow) -> (r: Vec<LogDatum>)
    ensures
        r@ == seq![LogDatum::Id(row.dataflow), LogDatum::U64(row.worker)],
{
    let mut r: Vec<LogDatum> = Vec::new();
    r.push(LogDatum::Id(row.dataflow));
    r.push(LogDatum::U64(row.worker));
    proof {
        assert(r@ =~= seq![LogDatum::Id(row.dataflow), LogDatum::U64(row.worker)]);
    }
    r
}

/// Pack a DataflowDependency row: `(dataflow_id, source_id, worker)`.
pub fn pack_dependency(row: &crate::changelog::DependencyRow) -> (r: Vec<LogDatum>)
    ensures
        r@ == seq![LogDatum::Id(row.dataflow), LogDatum::Id(row.source), LogDatum::U64(row.worker)],
{
    let mut r: Vec<LogDatum> = Vec::new();
    r.push(LogDatum::Id(row.dataflow));
    r.push(LogDatum::Id(row.source));
    r.push(LogDatum::U64(row.worker));
    proof {
        assert(r@ =~= seq![
            LogDatum::Id(row.dataflow),
            LogDatum::Id(row.source),
            LogDatum::U64(row.worker),
        ]);
    }
    r
}

/// Pack a FrontierCurrent row: `(dataflow_id, worker, logical_time)`. The
/// logical time is emitted as a signed number and must fit it.
pub fn pack_frontier(row: &crate::changelog::FrontierRow) -> (r: Vec<LogDatum>)
    requires
        row.logical_time <= i64::MAX,
    ensures
        r@ == seq![
            LogDatum::Id(row.dataflow),
            LogDatum::U64(row.worker),
            LogDatum::I64(row.logical_time as i64),
        ],
{
    let mut r: Vec<LogDatum> = Vec::new();
    r.push(LogDatum::Id(row.dataflow));
    r.push(LogDatum::U64(row.worker));
    r.push(LogDatum::I64(row.logical_time as i64));
    proof {
        assert(r@ =~= seq![
            LogDatum::Id(row.dataflow),
            LogDatum::U64(row.worker),
            LogDatum::I64(row.logical_time as i64),
        ]);
    }
    r
}

/// Pack a SourceFrontierCurrent row: `(dataflow_id, source_id, worker,
/// logical_time)`.
pub fn pack_source_frontier(row: &crate::changelog::SourceFrontierRow) -> (r: Vec<LogDatum>)
    requires
        row.logical_time <= i64::MAX,
    ensures
        r@ == seq![
            LogDatum::Id(row.dataflow),
            LogDatum::Id(row.source),
            LogDatum::U64(row.worker),
            LogDatum::I64(row.logical_time as i64),
        ],
{
    let mut r: Vec<LogDatum> = Vec::new();
    r.push(LogDatum::Id(row.dataflow));
    r.push(LogDatum::Id(row.source));
    r.push(LogDatum::U64(row.worker));
    r.push(LogDatum::I64(row.logical_time as i64));
    proof {
        assert(r@ =~= seq![
            LogDatum::Id(row.dataflow),
            LogDatum::Id(row.source),
            LogDatum::U64(row.worker),
            LogDatum::I64(row.logical_time as i64),
        ]);
    }
    r
}

/// Pack a FrontierDelay row with its count total: `(dataflow_id, source_id,
/// worker, delay_bucket_ns, count)`.
pub fn pack_frontier_delay(row: &FrontierDelayRow, count: i64) -> (r: Vec<LogDatum>)
    ensures
        r@ == seq![
            LogDatum::Id(row.dataflow),
            LogDatum::Id(row.source),
            LogDatum::U64(row.worker),
            LogDatum::U64(row.delay_pow_ns),
            LogDatum::I64(count),
        ],
{
    let mut r: Vec<LogDatum> = Vec::new();
    r.push(LogDatum::Id(row.dataflow));
    r.push(LogDatum::Id(row.source));
    r.push(LogDatum::U64(row.worker));
    r.push(LogDatum::U64(row.delay_pow_ns));
    r.push(LogDatum::I64(count));
    proof {
        assert(r@ =~= seq![
            LogDatum::Id(row.dataflow),
            LogDatum::Id(row.source),
            LogDatum::U64(row.worker),
            LogDatum::U64(row.delay_pow_ns),
            LogDatum::I64(count),
        ]);
    }
    r
}

/// Pack a PeekCurrent row: `(peek_id, worker, view_id, logical_time)`.
pub fn pack_peek(row: &crate::changelog::PeekRow) -> (r: Vec<LogDatum>)
    requires
        row.peek.time <= i64::MAX,
    ensures
        r@ == seq![
            LogDatum::Uuid(row.peek.uuid),
            LogDatum::U64(row.worker),
            LogDatum::Id(row.peek.id),
            LogDatum::I64(row.peek.time as i64),
        ],
{
    let mut r: Vec<LogDatum> = Vec::new();
    r.push(LogDatum::Uuid(row.peek.uuid));
    r.push(LogDatum::U64(row.worker));
    r.push(LogDatum::Id(row.peek.id));
    r.push(LogDatum::I64(row.peek.time as i64));
    proof {
        assert(r@ =~= seq![
            LogDatum::Uuid(row.peek.uuid),
            LogDatum::U64(row.worker),
            LogDatum::Id(row.peek.id),
            LogDatum::I64(row.peek.time as i64),
        ]);
    }
    r
}

/// Pack a PeekDuration row with its count total: `(worker, delay_bucket_ns,
/// count)`. Duration counts are non-negative by construction.
pub fn pack_peek_duration(row: &PeekDurationRow, count: i64) -> (r: Vec<LogDatum>)
    requires
        count >= 0,
    ensures
        r@ == seq![
            LogDatum::U64(row.worker),
            LogDatum::U64(row.delay_pow_ns),
            LogDatum::U64(count as u64),
        ],
{
    let mut r: Vec<LogDatum> = Vec::new();
    r.push(LogDatum::U64(row.worker));
    r.push(LogDatum::U64(row.delay_pow_ns));
    r.push(LogDatum::U64(count as u64));
    proof {
        assert(r@ =~= seq![
            LogDatum::U64(row.worker),
            LogDatum::U64(row.delay_pow_ns),
            LogDatum::U64(count as u64),
        ]);
    }
    r
}

} // verus!
