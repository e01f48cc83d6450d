//! The routing aggregator: per destination context and table name, an
//! accumulating table builder; flush drains everything into per-destination
//! batches.

use vstd::prelude::*;
use crate::row::{RowInsertRequest, RowInsertRequestV, Rows, RowsV};
use crate::table::{
    TableBuilder, TableModel, init_model, padded_rows, wf_model,
};
use crate::value::str_eq;

verus! {

/// The mathematical content of a destination context: optional logical
/// schema and physical table overrides.
pub struct CtxV {
    pub schema: Option<Seq<char>>,
    pub physical_table: Option<Seq<char>>,
}

/// A destination context for a remote-write batch.
#[derive(Debug, Clone)]
pub struct PromCtx {
    pub schema: Option<String>,
    pub physical_table: Option<String>,
}

impl View for PromCtx {
    type V = CtxV;

    open spec fn view(&self) -> CtxV {
        CtxV { schema: self.schema.deep_view(), physical_table: self.physical_table.deep_view() }
    }
}

impl Default for PromCtx {
    fn default() -> (r: Self)
        ensures
            r@ == (CtxV { schema: None, physical_table: None }),
    {
        PromCtx { schema: None, physical_table: None }
    }
}

/// Compares two optional strings by content.
fn opt_str_eq(a: &Option<String>, b: &Option<String>) -> (r: bool)
    ensures
        r == (a.deep_view() == b.deep_view()),
{
    match (a, b) {
        (Some(x), Some(y)) => str_eq(x.as_str(), y.as_str()),
        (None, None) => true,
        _ => false,
    }
}

impl PartialEq for PromCtx {
    fn eq(&self, other: &Self) -> (r: bool) {
        opt_str_eq(&self.schema, &other.schema) && opt_str_eq(
            &self.physical_table,
            &other.physical_table,
        )
    }
}

impl vstd::std_specs::cmp::PartialEqSpecImpl for PromCtx {
    open spec fn obeys_eq_spec() -> bool {
        true
    }

    open spec fn eq_spec(&self, other: &Self) -> bool {
        self@ == other@
    }
}

/// The per-destination options a flushed batch is handed over with.
#[derive(Debug)]
pub struct ContextOpt {
    schema: Option<String>,
    physical_table: Option<String>,
}

impl View for ContextOpt {
    type V = CtxV;

    closed spec fn view(&self) -> CtxV {
        CtxV { schema: self.schema.deep_view(), physical_table: self.physical_table.deep_view() }
    }
}

impl Default for ContextOpt {
    fn default() -> (r: Self)
        ensures
            r@ == (CtxV { schema: None, physical_table: None }),
    {
        ContextOpt { schema: None, physical_table: None }
    }
}

impl PartialEq for ContextOpt {
    fn eq(&self, other: &Self) -> (r: bool) {
        opt_str_eq(&self.schema, &other.schema) && opt_str_eq(
            &self.physical_table,
            &other.physical_table,
        )
    }
}

impl vstd::std_specs::cmp::PartialEqSpecImpl for ContextOpt {
    open spec fn obeys_eq_spec() -> bool {
        true
    }

    open spec fn eq_spec(&self, other: &Self) -> bool {
        self@ == other@
    }
}

impl ContextOpt {
    pub fn set_schema(&mut self, schema: String)
        ensures
            final(self)@ == (CtxV {
                schema: Some(schema@),
                physical_table: old(self)@.physical_table,
            }),
    {
        self.schema = Some(schema);
    }

    pub fn set_physical_table(&mut self, physical_table: String)
        ensures
            final(self)@ == (CtxV {
                schema: old(self)@.schema,
                physical_table: Some(physical_table@),
            }),
    {
        self.physical_table = Some(physical_table);
    }

    /// The logical schema override, when one is set.
    pub fn schema(&self) -> (r: &Option<String>)
        ensures
            r.deep_view() == self@.schema,
    {
        &self.schema
    }

    /// The physical table override, when one is set.
    pub fn physical_table(&self) -> (r: &Option<String>)
        ensures
            r.deep_view() == self@.physical_table,
    {
        &self.physical_table
    }
}

/// True when `gs` holds a group for destination `c`.
pub open spec fn group_has(gs: Seq<(CtxV, Seq<RowInsertRequestV>)>, c: CtxV) -> bool {
    exists|i: int| 0 <= i < gs.len() && (#[trigger] gs[i]).0 == c
}

/// The position of the group for `c`; meaningful only when one exists.
pub open spec fn group_index_of(gs: Seq<(CtxV, Seq<RowInsertRequestV>)>, c: CtxV) -> int {
    choose|i: int| 0 <= i < gs.len() && (#[trigger] gs[i]).0 == c
}

/// True when no destination occurs twice.
pub open spec fn groups_unique(gs: Seq<(CtxV, Seq<RowInsertRequestV>)>) -> bool {
    forall|i: int, j: int|
        #![trigger gs[i], gs[j]]
        0 <= i < j < gs.len() ==> gs[i].0 != gs[j].0
}

/// Requests for `c` folded in: concatenated onto the existing group, or
/// opening a new group at the end.
pub open spec fn groups_insert(
    gs: Seq<(CtxV, Seq<RowInsertRequestV>)>,
    c: CtxV,
    rs: Seq<RowInsertRequestV>,
) -> Seq<(CtxV, Seq<RowInsertRequestV>)> {
    if group_has(gs, c) {
        let i = group_index_of(gs, c);
        gs.update(i, (c, gs[i].1 + rs))
    } else {
        gs.push((c, rs))
    }
}

/// Another request collection folded in, group by group, in its order.
pub open spec fn merge_groups(
    gs: Seq<(CtxV, Seq<RowInsertRequestV>)>,
    os: Seq<(CtxV, Seq<RowInsertRequestV>)>,
) -> Seq<(CtxV, Seq<RowInsertRequestV>)>
    decreases os.len(),
{
    if os.len() == 0 {
        gs
    } else {
        merge_groups(groups_insert(gs, os[0].0, os[0].1), os.drop_first())
    }
}

/// The groups' mathematical content.
pub open spec fn groups_view(gs: Seq<(ContextOpt, Vec<RowInsertRequest>)>) -> Seq<
    (CtxV, Seq<RowInsertRequestV>),
> {
    gs.map(|i: int, g: (ContextOpt, Vec<RowInsertRequest>)| (g.0@, g.1.deep_view()))
}

/// Per-destination batches, as handed to the storage-write collaborator.
#[derive(Debug)]
pub struct ContextReq {
    groups: Vec<(ContextOpt, Vec<RowInsertRequest>)>,
}

impl View for ContextReq {
    type V = Seq<(CtxV, Seq<RowInsertRequestV>)>;

    closed spec fn view(&self) -> Seq<(CtxV, Seq<RowInsertRequestV>)> {
        groups_view(self.groups@)
    }
}

impl Default for ContextReq {
    fn default() -> (r: Self)
        ensures
            r@ == Seq::<(CtxV, Seq<RowInsertRequestV>)>::empty(),
            r.wf(),
    {
        Self::new()
    }
}

impl ContextReq {
    /// Well-formed: one group per destination.
    pub open spec fn wf(&self) -> bool {
        groups_unique(self@)
    }

    /// An empty collection.
    pub fn new() -> (r: Self)
        ensures
            r@ == Seq::<(CtxV, Seq<RowInsertRequestV>)>::empty(),
            r.wf(),
    {
        let r = ContextReq { groups: Vec::new() };
        proof {
            assert(r@ =~= Seq::<(CtxV, Seq<RowInsertRequestV>)>::empty());
        }
        r
    }

    /// The number of destinations with a batch.
    pub fn len(&self) -> (r: usize)
        ensures
            r == self@.len(),
    {
        self.groups.len()
    }

    /// The position of the group for `opt`, if there is one.
    fn position_of(&self, opt: &ContextOpt) -> (r: Option<usize>)
        requires
            self.wf(),
        ensures
            match r {
                Some(i) => group_has(self@, opt@) && i == group_index_of(self@, opt@) && 0 <= i
                    < self@.len(),
                None => !group_has(self@, opt@),
            },
    {
        let n = self.groups.len();
        let mut i: usize = 0;
        while i < n
            invariant
                self.wf(),
                n == self@.len(),
                n == self.groups@.len(),
                0 <= i <= n,
                forall|j: int| 0 <= j < i ==> (#[trigger] self@[j]).0 != opt@,
            decreases n - i,
        {
            proof {
                assert(self@[i as int] == (self.groups@[i as int].0@, self.groups@[
                    i as int
                ].1.deep_view()));
            }
            if self.groups[i].0 == *opt {
                proof {
                    let j = group_index_of(self@, opt@);
                    assert(0 <= j < self@.len() && self@[j].0 == opt@);
                    assert(j == i as int);
                }
                return Some(i);
            }
            i += 1;
        }
        None
    }

    /// The requests bound for `opt`, if any.
    pub fn get_requests(&self, opt: &ContextOpt) -> (r: Option<&Vec<RowInsertRequest>>)
        requires
            self.wf(),
        ensures
            match r {
                Some(v) => group_has(self@, opt@) && v.deep_view() == self@[group_index_of(
                    self@,
                    opt@,
                )].1,
                None => !group_has(self@, opt@),
            },
    {
        match self.position_of(opt) {
            Some(i) => {
                proof {
                    assert(self@[i as int] == (self.groups@[i as int].0@, self.groups@[
                        i as int
                    ].1.deep_view()));
                }
                Some(&self.groups[i].1)
            },
            None => None,
        }
    }

    /// Folds `reqs` in for destination `opt`: appended to the existing
    /// group, or opening a new one; never overwriting.
    #[verifier::loop_isolation(false)]
    pub fn add_rows(&mut self, opt: ContextOpt, reqs: Vec<RowInsertRequest>)
        requires
            old(self).wf(),
        ensures
            final(self).wf(),
            final(self)@ == groups_insert(old(self)@, opt@, reqs.deep_view()),
    {
        let ghost olds = self@;
        let ghost rv = reqs.deep_view();
        match self.position_of(&opt) {
            Some(i) => {
                let mut reqs = reqs;
                let g = &mut self.groups[i];
                g.1.append(&mut reqs);
                proof {
                    assert forall|q: int| 0 <= q < self@.len() implies self@[q] == groups_insert(
                        olds,
                        opt@,
                        rv,
                    )[q] by {
                        assert(self@[q] == (self.groups@[q].0@, self.groups@[q].1.deep_view()));
                        assert(olds[q] == (old(self).groups@[q].0@, old(self).groups@[
                            q
                        ].1.deep_view()));
                        if q == i {
                            assert(self.groups@[q].1.deep_view() =~= old(self).groups@[
                                q
                            ].1.deep_view() + rv);
                        }
                    }
                    assert(self@ =~= groups_insert(olds, opt@, rv));
                    assert forall|p: int, q: int|
                        #![trigger self@[p], self@[q]]
                        0 <= p < q < self@.len() implies self@[p].0 != self@[q].0 by {
                        assert(olds[p].0 != olds[q].0);
                    }
                }
            },
            None => {
                self.groups.push((opt, reqs));
                proof {
                    assert forall|q: int| 0 <= q < self@.len() implies self@[q] == groups_insert(
                        olds,
                        opt@,
                        rv,
                    )[q] by {
                        assert(self@[q] == (self.groups@[q].0@, self.groups@[q].1.deep_view()));
                        if q < olds.len() {
                            assert(olds[q] == (old(self).groups@[q].0@, old(self).groups@[
                                q
                            ].1.deep_view()));
                        }
                    }
                    assert(self@ =~= groups_insert(olds, opt@, rv));
                    assert forall|p: int, q: int|
                        #![trigger self@[p], self@[q]]
                        0 <= p < q < self@.len() implies self@[p].0 != self@[q].0 by {
                        if q < olds.len() {
                            assert(olds[p].0 != olds[q].0);
                        } else {
                            assert(self@[q].0 == opt@);
                            assert(self@[p] == olds[p]);
                            assert(!group_has(olds, opt@));
                        }
                    }
                }
            },
        }
    }

    /// Folds another collection in, destination by destination, keeping
    /// this collection's group order and appending to equal destinations.
    #[verifier::loop_isolation(false)]
    pub fn merge(&mut self, other: ContextReq)
        requires
            old(self).wf(),
        ensures
            final(self).wf(),
            final(self)@ == merge_groups(old(self)@, other@),
    {
        let ghost ov = other@;
        let ghost n: int = ov.len() as int;
        let mut other = other;
        let mut os: Vec<(ContextOpt, Vec<RowInsertRequest>)> = Vec::new();
        core::mem::swap(&mut other.groups, &mut os);
        proof {
            assert(ov.skip(0) =~= ov);
            assert(groups_view(os@) == ov);
        }
        while os.len() > 0
            invariant
                self.wf(),
                os@.len() <= n,
                groups_view(os@) == ov.skip(n - os@.len()),
                merge_groups(old(self)@, ov) == merge_groups(self@, ov.skip(n - os@.len())),
            decreases os@.len(),
        {
            let ghost k: int = n - os@.len();
            let ghost os0 = groups_view(os@);
            let (opt, reqs) = os.remove(0);
            proof {
                assert(os0[0] == ov[k]);
                assert(opt@ == ov[k].0);
                assert(reqs.deep_view() == ov[k].1);
                assert forall|q: int|
                    #![trigger ov.skip(k + 1)[q]]
                    0 <= q < os@.len() implies groups_view(os@)[q] == ov.skip(k + 1)[q] by {
                    assert(os0[q + 1] == ov[k + q + 1]);
                }
                assert(groups_view(os@) =~= ov.skip(k + 1));
                assert(ov.skip(k)[0] == ov[k]);
                assert(ov.skip(k).drop_first() =~= ov.skip(k + 1));
            }
            self.add_rows(opt, reqs);
        }
        proof {
            assert(ov.skip(n) =~= Seq::<(CtxV, Seq<RowInsertRequestV>)>::empty());
        }
    }
}


/// The mathematical content of one accumulating entry.
pub struct EntryV {
    pub ctx: CtxV,
    pub table_name: Seq<char>,
    pub builder: TableModel,
}

/// One accumulating table: its destination context, its name, and its
/// builder.
#[derive(Debug)]
pub struct TableEntry {
    ctx: PromCtx,
    table_name: String,
    builder: TableBuilder,
}

impl View for TableEntry {
    type V = EntryV;

    closed spec fn view(&self) -> EntryV {
        EntryV { ctx: self.ctx@, table_name: self.table_name@, builder: self.builder@ }
    }
}

impl DeepView for TableEntry {
    type V = EntryV;

    open spec fn deep_view(&self) -> EntryV {
        self.view()
    }
}

/// True when `es` holds an entry for `(c, t)`.
pub open spec fn entry_has(es: Seq<EntryV>, c: CtxV, t: Seq<char>) -> bool {
    exists|i: int| 0 <= i < es.len() && (#[trigger] es[i]).ctx == c && es[i].table_name == t
}

/// The position of the entry for `(c, t)`; meaningful only when one exists.
pub open spec fn entry_index_of(es: Seq<EntryV>, c: CtxV, t: Seq<char>) -> int {
    choose|i: int| 0 <= i < es.len() && (#[trigger] es[i]).ctx == c && es[i].table_name == t
}

/// True when no `(context, table name)` pair occurs twice.
pub open spec fn entries_unique(es: Seq<EntryV>) -> bool {
    forall|i: int, j: int|
        #![trigger es[i], es[j]]
        0 <= i < j < es.len() ==> !(es[i].ctx == es[j].ctx && es[i].table_name == es[j].table_name)
}

/// The batch one entry flushes to: its rows widened to its final schema.
pub open spec fn flush_entry(e: EntryV) -> RowInsertRequestV {
    RowInsertRequestV {
        table_name: e.table_name,
        rows: Some(
            RowsV {
                schema: e.builder.schema,
                rows: padded_rows(e.builder.rows, e.builder.schema.len() as int),
            },
        ),
    }
}

/// Entries flushed in order into per-destination groups, starting from `gs`.
pub open spec fn flush_from(
    gs: Seq<(CtxV, Seq<RowInsertRequestV>)>,
    es: Seq<EntryV>,
) -> Seq<(CtxV, Seq<RowInsertRequestV>)>
    decreases es.len(),
{
    if es.len() == 0 {
        gs
    } else {
        flush_from(groups_insert(gs, es[0].ctx, seq![flush_entry(es[0])]), es.drop_first())
    }
}

/// What a flush returns: every entry folded into per-destination groups, in
/// entry order.
pub open spec fn spec_flush(es: Seq<EntryV>) -> Seq<(CtxV, Seq<RowInsertRequestV>)> {
    flush_from(Seq::empty(), es)
}

/// The two-level accumulator of one ingestion cycle: per destination
/// context and table name, one table builder, created on demand.
#[derive(Debug)]
pub struct TablesBuilder {
    entries: Vec<TableEntry>,
}

impl View for TablesBuilder {
    type V = Seq<EntryV>;

    closed spec fn view(&self) -> Seq<EntryV> {
        self.entries.deep_view()
    }
}

impl Default for TablesBuilder {
    fn default() -> (r: Self)
        ensures
            r@ == Seq::<EntryV>::empty(),
            r.wf(),
    {
        Self::new()
    }
}

impl TablesBuilder {
    /// Well-formed: one builder per `(context, table name)` pair, each
    /// builder well-formed.
    pub open spec fn wf(&self) -> bool {
        &&& entries_unique(self@)
        &&& forall|i: int| 0 <= i < self@.len() ==> wf_model((#[trigger] self@[i]).builder)
    }

    /// An empty accumulator.
    pub fn new() -> (r: Self)
        ensures
            r@ == Seq::<EntryV>::empty(),
            r.wf(),
    {
        let r = TablesBuilder { entries: Vec::new() };
        proof {
            assert(r@ =~= Seq::<EntryV>::empty());
        }
        r
    }

    /// Drops everything accumulated, so the allocation can be reused for
    /// the next cycle.
    pub fn clear(&mut self)
        ensures
            final(self)@ == Seq::<EntryV>::empty(),
            final(self).wf(),
    {
        self.entries.clear();
        proof {
            assert(self@ =~= Seq::<EntryV>::empty());
        }
    }

    /// The position of the entry for `(ctx, name)`, if there is one.
    fn position_of(&self, ctx: &PromCtx, name: &str) -> (r: Option<usize>)
        requires
            self.wf(),
        ensures
            match r {
                Some(i) => entry_has(self@, ctx@, name@) && i == entry_index_of(
                    self@,
                    ctx@,
                    name@,
                ) && 0 <= i < self@.len(),
                None => !entry_has(self@, ctx@, name@),
            },
    {
        let n = self.entries.len();
        let mut i: usize = 0;
        while i < n
            invariant
                self.wf(),
                n == self@.len(),
                n == self.entries@.len(),
                0 <= i <= n,
                forall|j: int|
                    0 <= j < i ==> !((#[trigger] self@[j]).ctx == ctx@ && self@[j].table_name
                        == name@),
            decreases n - i,
        {
            proof {
                assert(self@[i as int] == self.entries@[i as int]@);
            }
            if self.entries[i].ctx == *ctx && str_eq(self.entries[i].table_name.as_str(), name) {
                proof {
                    let j = entry_index_of(self@, ctx@, name@);
                    assert(0 <= j < self@.len() && self@[j].ctx == ctx@ && self@[j].table_name
                        == name@);
                    assert(j == i as int);
                }
                return Some(i);
            }
            i += 1;
        }
        None
    }

    /// The accumulating builder for `(prom_ctx, table_name)`: the one
    /// already there, or a fresh one sized by the hints; repeated calls
    /// with the same key hand back the same accumulating builder.
    pub fn get_or_create_table_builder(
        &mut self,
        prom_ctx: PromCtx,
        table_name: String,
        label_num: usize,
        row_num: usize,
    ) -> (r: &mut TableBuilder)
        requires
            old(self).wf(),
        ensures
            entry_has(old(self)@, prom_ctx@, table_name@) ==> {
                let i = entry_index_of(old(self)@, prom_ctx@, table_name@);
                (*r)@ == old(self)@[i].builder && final(self)@ =~= old(self)@.update(
                    i,
                    EntryV {
                        ctx: old(self)@[i].ctx,
                        table_name: old(self)@[i].table_name,
                        builder: (*final(r))@,
                    },
                )
            },
            !entry_has(old(self)@, prom_ctx@, table_name@) ==> (*r)@ == init_model()
                && final(self)@ =~= old(self)@.push(
                EntryV { ctx: prom_ctx@, table_name: table_name@, builder: (*final(r))@ },
            ),
    {
        match self.position_of(&prom_ctx, table_name.as_str()) {
            Some(i) => {
                let e = &mut self.entries[i];
                &mut e.builder
            },
            None => {
                let cols = if label_num <= usize::MAX - 2 {
                    label_num + 2
                } else {
                    label_num
                };
                self.entries.push(
                    TableEntry {
                        ctx: prom_ctx,
                        table_name,
                        builder: TableBuilder::with_capacity(cols, row_num),
                    },
                );
                let n = self.entries.len();
                let e = &mut self.entries[n - 1];
                &mut e.builder
            },
        }
    }

    /// Drains every builder into per-destination batches, leaving the
    /// accumulator empty; batches for the same destination are concatenated
    /// in input order, never overwritten.
    #[verifier::loop_isolation(false)]
    pub fn as_insert_requests(&mut self) -> (r: ContextReq)
        ensures
            r@ == spec_flush(old(self)@),
            r.wf(),
            final(self)@ == Seq::<EntryV>::empty(),
    {
        let ghost es = self@;
        let ghost n: int = es.len() as int;
        let mut req = ContextReq::new();
        proof {
            assert(es.skip(0) =~= es);
        }
        while self.entries.len() > 0
            invariant
                req.wf(),
                self@.len() <= n,
                self@ == es.skip(n - self@.len()),
                spec_flush(es) == flush_from(req@, es.skip(n - self@.len())),
            decreases self@.len(),
        {
            let ghost k: int = n - self@.len();
            let ghost cur = self@;
            let entry = self.entries.remove(0);
            let TableEntry { ctx, table_name, builder } = entry;
            let mut builder = builder;
            proof {
                assert(cur[0] == es[k]);
                assert(ctx@ == es[k].ctx);
                assert(table_name@ == es[k].table_name);
                assert(builder@ == es[k].builder);
                assert forall|q: int|
                    #![trigger es.skip(k + 1)[q]]
                    0 <= q < self@.len() implies self@[q] == es.skip(k + 1)[q] by {
                    assert(cur[q + 1] == es[k + q + 1]);
                }
                assert(self@ =~= es.skip(k + 1));
                assert(es.skip(k)[0] == es[k]);
                assert(es.skip(k).drop_first() =~= es.skip(k + 1));
            }
            let mut opt = ContextOpt::default();
            match ctx.physical_table {
                Some(physical_table) => opt.set_physical_table(physical_table),
                None => (),
            }
            match ctx.schema {
                Some(schema) => opt.set_schema(schema),
                None => (),
            }
            let insert_req = builder.as_row_insert_request(table_name);
            let mut one: Vec<RowInsertRequest> = Vec::new();
            one.push(insert_req);
            proof {
                assert(opt@ == es[k].ctx);
                assert(insert_req@ == flush_entry(es[k]));
                assert(one.deep_view() =~= seq![flush_entry(es[k])]);
            }
            req.add_rows(opt, one);
        }
        proof {
            assert(es.skip(n) =~= Seq::<EntryV>::empty());
            assert(self@ =~= Seq::<EntryV>::empty());
        }
        req
    }
}


/// Law: single-use flush. Flushing leaves the accumulator empty, and a
/// flush of an empty accumulator returns no batches, so a second flush
/// without intervening writes yields an empty result.
pub proof fn lemma_second_flush_empty()
    ensures
        spec_flush(Seq::<EntryV>::empty()) =~= Seq::<(CtxV, Seq<RowInsertRequestV>)>::empty(),
{
}

} // verus!
