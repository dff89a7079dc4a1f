//! Transfer requests and documents between storage endpoints: the lines of
//! a request, the stack-sized jobs it is split into, and the state of each
//! line as its jobs progress.
use crate::ids::random_u64;
use crate::item_stack::{ItemStack, StackSizes};
use vstd::prelude::*;

verus! {

/// A stock-keeping unit: an item kind with its component digest, and the
/// stack size of the kind.
#[derive(Debug, Clone)]
pub struct Sku {
    pub item_kind: String,
    pub components_digest: String,
    pub stack_size: i32,
}

/// What tells two SKUs apart.
pub open spec fn sku_key(sku: Sku) -> (Seq<char>, Seq<char>, i32) {
    (sku.item_kind@, sku.components_digest@, sku.stack_size)
}

/// Whether two SKUs are the same.
pub fn same_sku(a: &Sku, b: &Sku) -> (same: bool)
    ensures
        same == (sku_key(*a) == sku_key(*b)),
{
    a.stack_size == b.stack_size && a.item_kind == b.item_kind && a.components_digest == b.components_digest
}

/// A copy of a SKU.
pub fn copy_sku(sku: &Sku) -> (copy: Sku)
    ensures
        copy == *sku,
{
    Sku {
        item_kind: sku.item_kind.clone(),
        components_digest: sku.components_digest.clone(),
        stack_size: sku.stack_size,
    }
}

impl ItemStack {
    /// The SKU of the stack; `sizes` gives the stack size of its item kind.
    pub fn sku(&self, sizes: &StackSizes) -> (sku: Sku)
        requires
            sizes.valid(),
        ensures
            sku_key(sku) == (self.item_kind@, self.components_digest@, sizes.size_of(self.item_kind@) as i32),
            1 <= sku.stack_size <= 64,
    {
        let size = sizes.stack_size(&self.item_kind);
        Sku {
            item_kind: self.item_kind.clone(),
            components_digest: self.components_digest.clone(),
            stack_size: size as i32,
        }
    }
}

/// Identifies a storage endpoint for the lifetime of the program.
#[derive(Debug, Clone, Copy, PartialEq, Eq, Hash)]
pub struct StorageEndpointId(pub u64);

impl StorageEndpointId {
    /// A fresh random id.
    pub fn random() -> (id: StorageEndpointId) {
        StorageEndpointId(random_u64())
    }
}

/// Why a storage endpoint refuses a transfer or a reindex.
#[derive(Debug, Clone, Copy, PartialEq, Eq)]
pub enum StorageEndpointError {
    StorageFull(StorageEndpointId),
    /// The transfer order doesn't route between the two negotiating endpoints.
    EndpointMismatch,
    ContainerRegionMismatch,
    DuplicateContainerId,
}

/// Identifies a transfer document.
#[derive(Debug, Clone, Copy, PartialEq, Eq, Hash)]
pub struct TransferDocumentId(pub u64);

impl TransferDocumentId {
    /// A fresh random id.
    pub fn random() -> (id: TransferDocumentId) {
        TransferDocumentId(random_u64())
    }
}

/// Where a transfer document is in its life.
#[derive(Debug, Clone)]
pub enum TransferDocumentState {
    Draft,
    Released,
    Working,
    Closed,
    Cancelled { reason: String },
}

/// Which endpoints a transfer runs between, and its state.
#[derive(Debug, Clone)]
pub struct TransferOrder {
    pub to: StorageEndpointId,
    pub from: StorageEndpointId,
    pub state: TransferDocumentState,
}

/// How far the jobs of a transfer line have got.
#[derive(Debug, Clone, Copy, PartialEq, Eq)]
pub enum TransferLineState {
    /// All remaining.
    Available,
    /// Counts of jobs available, in transit and completed.
    InTransit(u64, u64, u64),
    /// All moved.
    Completed,
}

/// `quantity` items of a SKU to move.
#[derive(Debug, Clone)]
pub struct TransferLine {
    pub sku: Sku,
    pub quantity: u64,
    pub state: TransferLineState,
}

/// The state of one job of a transfer document.
#[derive(Debug, Clone, Copy, PartialEq, Eq)]
pub enum TransferDocumentJobState {
    Available,
    InTransit,
    Completed,
}

/// A stack-sized part of a transfer line that one bot can carry.
#[derive(Debug, Clone)]
pub struct TransferDocumentJob {
    pub sku: Sku,
    pub quantity: u64,
    pub state: TransferDocumentJobState,
}

/// An accepted transfer: its lines and the jobs they were split into.
#[derive(Debug, Clone)]
pub struct TransferDocument {
    pub id: TransferDocumentId,
    pub header: TransferOrder,
    pub lines: Vec<TransferLine>,
    pub jobs: Vec<TransferDocumentJob>,
}

/// A transfer asked of two endpoints. No two lines have the same SKU.
#[derive(Debug, Clone)]
pub struct TransferRequest {
    pub header: TransferOrder,
    pub lines: Vec<TransferLine>,
}

/// Counts of the jobs of `jobs[..n]` for a SKU that are available, in transit and completed.
pub open spec fn job_counts(jobs: Seq<TransferDocumentJob>, key: (Seq<char>, Seq<char>, i32), n: int) -> (nat, nat, nat)
    decreases n,
{
    if n <= 0 {
        (0, 0, 0)
    } else {
        let c = job_counts(jobs, key, n - 1);
        if sku_key(jobs[n - 1].sku) != key {
            c
        } else {
            match jobs[n - 1].state {
                TransferDocumentJobState::Available => ((c.0 + 1) as nat, c.1, c.2),
                TransferDocumentJobState::InTransit => (c.0, (c.1 + 1) as nat, c.2),
                TransferDocumentJobState::Completed => (c.0, c.1, (c.2 + 1) as nat),
            }
        }
    }
}

/// The state of the line for a SKU given all jobs: available while none of
/// its jobs has moved, completed once all have, else the counts.
pub open spec fn line_state(jobs: Seq<TransferDocumentJob>, key: (Seq<char>, Seq<char>, i32)) -> TransferLineState {
    let c = job_counts(jobs, key, jobs.len() as int);
    if c.1 == 0 && c.2 == 0 {
        TransferLineState::Available
    } else if c.0 == 0 && c.1 == 0 {
        TransferLineState::Completed
    } else {
        TransferLineState::InTransit(c.0 as u64, c.1 as u64, c.2 as u64)
    }
}

pub proof fn lemma_job_counts(jobs: Seq<TransferDocumentJob>, key: (Seq<char>, Seq<char>, i32), n: int)
    requires
        0 <= n <= jobs.len(),
    ensures
        job_counts(jobs, key, n).0 + job_counts(jobs, key, n).1 + job_counts(jobs, key, n).2 <= n,
    decreases n,
{
    if n > 0 {
        lemma_job_counts(jobs, key, n - 1);
    }
}

/// The state of the line for `sku` given `jobs`.
fn reconciled_state(jobs: &Vec<TransferDocumentJob>, sku: &Sku) -> (state: TransferLineState)
    ensures
        state == line_state(jobs@, sku_key(*sku)),
{
    let mut available: u64 = 0;
    let mut in_transit: u64 = 0;
    let mut completed: u64 = 0;
    let mut i: usize = 0;
    while i < jobs.len()
        invariant
            i <= jobs@.len(),
            (available as nat, in_transit as nat, completed as nat) == job_counts(jobs@, sku_key(*sku), i as int),
        decreases jobs.len() - i,
    {
        proof {
            lemma_job_counts(jobs@, sku_key(*sku), i + 1);
        }
        if same_sku(&jobs[i].sku, sku) {
            match jobs[i].state {
                TransferDocumentJobState::Available => available = available + 1,
                TransferDocumentJobState::InTransit => in_transit = in_transit + 1,
                TransferDocumentJobState::Completed => completed = completed + 1,
            }
        }
        i = i + 1;
    }
    if in_transit == 0 && completed == 0 {
        TransferLineState::Available
    } else if available == 0 && in_transit == 0 {
        TransferLineState::Completed
    } else {
        TransferLineState::InTransit(available, in_transit, completed)
    }
}

impl TransferDocument {
    /// Sets the state of every line from the states of its jobs (see
    /// [`line_state`]); nothing else changes.
    pub fn reconcile(&mut self)
        ensures
            final(self).id == old(self).id,
            final(self).header == old(self).header,
            final(self).jobs@ == old(self).jobs@,
            final(self).lines@.len() == old(self).lines@.len(),
            forall|i: int| 0 <= i < final(self).lines@.len() ==> {
                &&& #[trigger] final(self).lines@[i].sku == old(self).lines@[i].sku
                &&& final(self).lines@[i].quantity == old(self).lines@[i].quantity
                &&& final(self).lines@[i].state == line_state(old(self).jobs@, sku_key(old(self).lines@[i].sku))
            },
            (forall|i: int| 0 <= i < old(self).lines@.len() ==> #[trigger] old(self).lines@[i].state == line_state(
                old(self).jobs@,
                sku_key(old(self).lines@[i].sku),
            )) ==> final(self).lines@ == old(self).lines@,
    {
        let mut i: usize = 0;
        while i < self.lines.len()
            invariant
                i <= self.lines@.len(),
                self.id == old(self).id,
                self.header == old(self).header,
                self.jobs@ == old(self).jobs@,
                self.lines@.len() == old(self).lines@.len(),
                forall|j: int| 0 <= j < self.lines@.len() ==> {
                    &&& #[trigger] self.lines@[j].sku == old(self).lines@[j].sku
                    &&& self.lines@[j].quantity == old(self).lines@[j].quantity
                    &&& j < i ==> self.lines@[j].state == line_state(old(self).jobs@, sku_key(old(self).lines@[j].sku))
                },
            decreases self.lines.len() - i,
        {
            let state = reconciled_state(&self.jobs, &self.lines[i].sku);
            let ghost before = self.lines@;
            let mut line = self.lines.remove(i);
            line.state = state;
            self.lines.insert(i, line);
            proof {
                assert(self.lines@ =~= before.update(i as int, self.lines@[i as int]));
            }
            i = i + 1;
        }
        proof {
            if forall|i: int| 0 <= i < old(self).lines@.len() ==> #[trigger] old(self).lines@[i].state == line_state(
                old(self).jobs@,
                sku_key(old(self).lines@[i].sku),
            ) {
                assert forall|i: int| 0 <= i < self.lines@.len() implies #[trigger] self.lines@[i] == old(self).lines@[i] by {
                    assert(self.lines@[i].sku == old(self).lines@[i].sku);
                    assert(old(self).lines@[i].state == line_state(old(self).jobs@, sku_key(old(self).lines@[i].sku)));
                    assert(self.lines@[i].state == old(self).lines@[i].state);
                }
                assert(self.lines@ =~= old(self).lines@);
            }
        }
    }
}

/// The jobs a line of `quantity` items is split into when stacks hold
/// `stack_size`: full stacks, then what is left.
pub open spec fn split_quantities(quantity: nat, stack_size: nat) -> Seq<nat>
    decreases quantity,
{
    if quantity == 0 || stack_size == 0 {
        Seq::empty()
    } else if quantity <= stack_size {
        seq![quantity]
    } else {
        seq![stack_size] + split_quantities((quantity - stack_size) as nat, stack_size)
    }
}

/// The job quantities of `lines[..n]`, line after line.
pub open spec fn document_job_quantities(lines: Seq<TransferLine>, n: int) -> Seq<nat>
    decreases n,
{
    if n <= 0 {
        Seq::empty()
    } else {
        document_job_quantities(lines, n - 1) + split_quantities(lines[n - 1].quantity as nat, lines[n - 1].sku.stack_size as nat)
    }
}

/// The SKUs of the jobs of `lines[..n]`, line after line.
pub open spec fn document_job_skus(lines: Seq<TransferLine>, n: int) -> Seq<(Seq<char>, Seq<char>, i32)>
    decreases n,
{
    if n <= 0 {
        Seq::empty()
    } else {
        document_job_skus(lines, n - 1) + Seq::new(
            split_quantities(lines[n - 1].quantity as nat, lines[n - 1].sku.stack_size as nat).len(),
            |k: int| sku_key(lines[n - 1].sku),
        )
    }
}

/// Sum of a sequence of quantities.
pub open spec fn total(quantities: Seq<nat>) -> nat
    decreases quantities.len(),
{
    if quantities.len() == 0 {
        0
    } else {
        (quantities[0] + total(quantities.drop_first())) as nat
    }
}

pub proof fn lemma_total_concat(a: Seq<nat>, b: Seq<nat>)
    ensures
        total(a + b) == total(a) + total(b),
    decreases a.len(),
{
    if a.len() > 0 {
        assert((a + b).drop_first() =~= a.drop_first() + b);
        lemma_total_concat(a.drop_first(), b);
    } else {
        assert(a + b =~= b);
    }
}

/// Splitting a line gives jobs that add up to the line, each at most a
/// stack and none empty.
pub proof fn law_split_conserves_quantity(quantity: nat, stack_size: nat)
    requires
        stack_size >= 1,
    ensures
        total(split_quantities(quantity, stack_size)) == quantity,
        forall|k: int| 0 <= k < split_quantities(quantity, stack_size).len()
            ==> 1 <= #[trigger] split_quantities(quantity, stack_size)[k] <= stack_size,
    decreases quantity,
{
    if quantity > stack_size {
        law_split_conserves_quantity((quantity - stack_size) as nat, stack_size);
        let rest = split_quantities((quantity - stack_size) as nat, stack_size);
        lemma_total_concat(seq![stack_size], rest);
        assert(total(seq![stack_size]) == stack_size) by {
            assert(seq![stack_size].drop_first() =~= Seq::<nat>::empty());
            reveal_with_fuel(total, 2);
        }
        assert forall|k: int| 0 <= k < split_quantities(quantity, stack_size).len()
            implies 1 <= #[trigger] split_quantities(quantity, stack_size)[k] <= stack_size by {
            if k > 0 {
                assert(split_quantities(quantity, stack_size)[k] == rest[k - 1]);
            }
        }
    } else if quantity > 0 {
        assert(seq![quantity].drop_first() =~= Seq::<nat>::empty());
        reveal_with_fuel(total, 2);
    }
}

pub proof fn lemma_split_step(remaining: nat, stack_size: nat)
    requires
        stack_size >= 1,
        remaining > 0,
    ensures
        split_quantities(remaining, stack_size) == seq![if remaining <= stack_size { remaining } else { stack_size }]
            + split_quantities((remaining - if remaining <= stack_size { remaining } else { stack_size }) as nat, stack_size),
{
    if remaining <= stack_size {
        assert(split_quantities(0, stack_size) =~= Seq::<nat>::empty());
        assert(seq![remaining] + Seq::<nat>::empty() =~= seq![remaining]);
    }
}

pub open spec fn job_quantities(jobs: Seq<TransferDocumentJob>) -> Seq<nat> {
    jobs.map_values(|j: TransferDocumentJob| j.quantity as nat)
}

pub open spec fn job_skus(jobs: Seq<TransferDocumentJob>) -> Seq<(Seq<char>, Seq<char>, i32)> {
    jobs.map_values(|j: TransferDocumentJob| sku_key(j.sku))
}

impl TransferRequest {
    /// Accepts the request as a new document with a fresh random id: each
    /// line, in order, is split into stack-sized jobs (see
    /// [`split_quantities`]), all available, and the lines are reconciled.
    pub fn accept(self) -> (document: TransferDocument)
        requires
            forall|i: int| 0 <= i < self.lines@.len() ==> #[trigger] self.lines@[i].sku.stack_size >= 1,
        ensures
            document.header == self.header,
            job_quantities(document.jobs@) == document_job_quantities(self.lines@, self.lines@.len() as int),
            job_skus(document.jobs@) == document_job_skus(self.lines@, self.lines@.len() as int),
            forall|j: int| 0 <= j < document.jobs@.len()
                ==> #[trigger] document.jobs@[j].state == TransferDocumentJobState::Available,
            document.lines@.len() == self.lines@.len(),
            forall|i: int| 0 <= i < document.lines@.len() ==> {
                &&& sku_key(#[trigger] document.lines@[i].sku) == sku_key(self.lines@[i].sku)
                &&& document.lines@[i].quantity == self.lines@[i].quantity
                &&& document.lines@[i].state == line_state(document.jobs@, sku_key(self.lines@[i].sku))
            },
    {
        let mut jobs: Vec<TransferDocumentJob> = Vec::new();
        let mut i: usize = 0;
        while i < self.lines.len()
            invariant
                i <= self.lines@.len(),
                forall|i: int| 0 <= i < self.lines@.len() ==> #[trigger] self.lines@[i].sku.stack_size >= 1,
                job_quantities(jobs@) == document_job_quantities(self.lines@, i as int),
                job_skus(jobs@) == document_job_skus(self.lines@, i as int),
                forall|j: int| 0 <= j < jobs@.len() ==> #[trigger] jobs@[j].state == TransferDocumentJobState::Available,
            decreases self.lines.len() - i,
        {
            let line = &self.lines[i];
            let stack_size = line.sku.stack_size as u64;
            let ghost start = jobs@;
            let ghost whole = split_quantities(line.quantity as nat, stack_size as nat);
            let mut remaining = line.quantity;
            while remaining > 0
                invariant
                    stack_size >= 1,
                    stack_size == line.sku.stack_size,
                    jobs@.len() >= start.len(),
                    jobs@.subrange(0, start.len() as int) == start,
                    job_quantities(jobs@) == job_quantities(start) + (whole.subrange(0, whole.len() - split_quantities(remaining as nat, stack_size as nat).len())),
                    whole == job_quantities(jobs@).subrange(start.len() as int, jobs@.len() as int) + split_quantities(remaining as nat, stack_size as nat),
                    forall|j: int| start.len() <= j < jobs@.len() ==> sku_key(#[trigger] jobs@[j].sku) == sku_key(line.sku),
                    forall|j: int| 0 <= j < jobs@.len() ==> #[trigger] jobs@[j].state == TransferDocumentJobState::Available,
                decreases remaining,
            {
                let quantity = if remaining <= stack_size { remaining } else { stack_size };
                proof {
                    lemma_split_step(remaining as nat, stack_size as nat);
                }
                let ghost before = jobs@;
                jobs.push(TransferDocumentJob { sku: copy_sku(&line.sku), quantity, state: TransferDocumentJobState::Available });
                remaining = remaining - quantity;
                proof {
                    assert(jobs@.subrange(0, start.len() as int) =~= before.subrange(0, start.len() as int));
                    assert(job_quantities(jobs@).subrange(start.len() as int, jobs@.len() as int)
                        =~= job_quantities(before).subrange(start.len() as int, before.len() as int).push(quantity as nat));
                    assert(whole =~= job_quantities(jobs@).subrange(start.len() as int, jobs@.len() as int)
                        + split_quantities(remaining as nat, stack_size as nat));
                    assert(job_quantities(jobs@) =~= job_quantities(start) + job_quantities(jobs@).subrange(start.len() as int, jobs@.len() as int));
                    assert(job_quantities(jobs@) =~= job_quantities(start) + (whole.subrange(0, whole.len() - split_quantities(remaining as nat, stack_size as nat).len())));
                    assert forall|j: int| start.len() <= j < jobs@.len() implies sku_key(#[trigger] jobs@[j].sku) == sku_key(line.sku) by {
                        if j < before.len() {
                            assert(jobs@[j] == before[j]);
                        }
                    }
                }
            }
            proof {
                assert(split_quantities(0, stack_size as nat) =~= Seq::<nat>::empty());
                assert(whole.subrange(0, whole.len() as int) =~= whole);
                assert(job_quantities(jobs@) =~= document_job_quantities(self.lines@, i + 1));
                assert(job_quantities(jobs@).len() == jobs@.len());
                assert(job_skus(jobs@) =~= document_job_skus(self.lines@, i + 1)) by {
                    assert forall|j: int| 0 <= j < jobs@.len() implies #[trigger] job_skus(jobs@)[j] == document_job_skus(self.lines@, i + 1)[j] by {
                        if j < start.len() {
                            assert(jobs@[j] == start[j]);
                            assert(job_skus(start)[j] == document_job_skus(self.lines@, i as int)[j]);
                        }
                    }
                }
            }
            i = i + 1;
        }
        let mut lines: Vec<TransferLine> = Vec::new();
        let mut k: usize = 0;
        while k < self.lines.len()
            invariant
                k <= self.lines@.len(),
                lines@.len() == k,
                forall|i: int| 0 <= i < k ==> {
                    &&& sku_key(#[trigger] lines@[i].sku) == sku_key(self.lines@[i].sku)
                    &&& lines@[i].quantity == self.lines@[i].quantity
                },
            decreases self.lines.len() - k,
        {
            let line = &self.lines[k];
            lines.push(TransferLine { sku: copy_sku(&line.sku), quantity: line.quantity, state: line.state });
            k = k + 1;
        }
        let mut document = TransferDocument { id: TransferDocumentId::random(), header: self.header, lines, jobs };
        document.reconcile();
        document
    }
}

/// The stack-sized slots `quantity` items need: the quantity divided by the
/// stack size (taken as one when below one), rounded up.
pub open spec fn slots_for(quantity: u64, stack_size: i32) -> int {
    let size: u64 = if stack_size >= 1 { stack_size as u64 } else { 1 };
    (quantity / size) as int + if quantity % size == 0 { 0int } else { 1int }
}

/// The stack-sized slots the lines `lines[..n]` need, in total.
pub open spec fn required_slots_of(lines: Seq<TransferLine>, n: int) -> int
    decreases n,
{
    if n <= 0 {
        0
    } else {
        required_slots_of(lines, n - 1) + slots_for(lines[n - 1].quantity, lines[n - 1].sku.stack_size)
    }
}

pub proof fn lemma_required_slots_mono(lines: Seq<TransferLine>, a: int, b: int)
    requires
        0 <= a <= b <= lines.len(),
    ensures
        0 <= required_slots_of(lines, a) <= required_slots_of(lines, b),
    decreases b,
{
    if b > a {
        lemma_required_slots_mono(lines, a, b - 1);
    } else if b > 0 {
        lemma_required_slots_mono(lines, 0, b - 1);
    }
}

impl TransferRequest {
    /// The number of stack-sized slots the request needs: each line's
    /// quantity divided by its stack size (at least one), rounded up, summed.
    pub fn required_slots(&self) -> (slots: u64)
        requires
            required_slots_of(self.lines@, self.lines@.len() as int) <= u64::MAX,
        ensures
            slots == required_slots_of(self.lines@, self.lines@.len() as int),
    {
        let mut slots: u64 = 0;
        let mut i: usize = 0;
        while i < self.lines.len()
            invariant
                i <= self.lines@.len(),
                required_slots_of(self.lines@, self.lines@.len() as int) <= u64::MAX,
                slots == required_slots_of(self.lines@, i as int),
            decreases self.lines.len() - i,
        {
            proof {
                lemma_required_slots_mono(self.lines@, i + 1, self.lines@.len() as int);
            }
            let line = &self.lines[i];
            let size: u64 = if line.sku.stack_size >= 1 { line.sku.stack_size as u64 } else { 1 };
            let needed = if line.quantity % size == 0 {
                line.quantity / size
            } else {
                assert(line.quantity / size < u64::MAX) by (nonlinear_arith)
                    requires
                        size >= 1,
                        line.quantity % size != 0,
                {
                    if size == 1 {
                        assert(line.quantity % size == 0);
                    }
                }
                line.quantity / size + 1
            };
            slots = slots + needed;
            i = i + 1;
        }
        slots
    }
}

/// Two jobs move the same quantity of the same SKU, whatever their states.
pub open spec fn same_job(a: TransferDocumentJob, b: TransferDocumentJob) -> bool {
    sku_key(a.sku) == sku_key(b.sku) && a.quantity == b.quantity
}

impl TransferDocument {
    /// Settles a putaway document once its transfers have run: cancelled with
    /// the failure's reason when they failed, else every job completed, the
    /// lines reconciled, and the document closed.
    pub fn settle(&mut self, failure: Option<String>)
        ensures
            final(self).id == old(self).id,
            final(self).header.to == old(self).header.to,
            final(self).header.from == old(self).header.from,
            match failure {
                Some(reason) => {
                    &&& final(self).header.state == (TransferDocumentState::Cancelled { reason })
                    &&& final(self).lines@ == old(self).lines@
                    &&& final(self).jobs@ == old(self).jobs@
                },
                None => {
                    &&& final(self).header.state == TransferDocumentState::Closed
                    &&& final(self).jobs@.len() == old(self).jobs@.len()
                    &&& forall|j: int| 0 <= j < final(self).jobs@.len() ==> {
                        &&& same_job(#[trigger] final(self).jobs@[j], old(self).jobs@[j])
                        &&& final(self).jobs@[j].state == TransferDocumentJobState::Completed
                    }
                    &&& final(self).lines@.len() == old(self).lines@.len()
                    &&& forall|i: int| 0 <= i < final(self).lines@.len() ==> {
                        &&& #[trigger] final(self).lines@[i].sku == old(self).lines@[i].sku
                        &&& final(self).lines@[i].quantity == old(self).lines@[i].quantity
                        &&& final(self).lines@[i].state == line_state(final(self).jobs@, sku_key(old(self).lines@[i].sku))
                    }
                },
            },
    {
        match failure {
            Some(reason) => {
                self.header.state = TransferDocumentState::Cancelled { reason };
            },
            None => {
                let mut j: usize = 0;
                while j < self.jobs.len()
                    invariant
                        j <= self.jobs@.len(),
                        self.id == old(self).id,
                        self.header == old(self).header,
                        self.lines@ == old(self).lines@,
                        self.jobs@.len() == old(self).jobs@.len(),
                        forall|k: int| 0 <= k < self.jobs@.len() ==> {
                            &&& same_job(#[trigger] self.jobs@[k], old(self).jobs@[k])
                            &&& k < j ==> self.jobs@[k].state == TransferDocumentJobState::Completed
                        },
                    decreases self.jobs.len() - j,
                {
                    let ghost before = self.jobs@;
                    let job = TransferDocumentJob {
                        sku: copy_sku(&self.jobs[j].sku),
                        quantity: self.jobs[j].quantity,
                        state: TransferDocumentJobState::Completed,
                    };
                    self.jobs.set(j, job);
                    proof {
                        assert forall|k: int| 0 <= k < self.jobs@.len() implies {
                            &&& same_job(#[trigger] self.jobs@[k], old(self).jobs@[k])
                            &&& k < j + 1 ==> self.jobs@[k].state == TransferDocumentJobState::Completed
                        } by {
                            if k != j {
                                assert(self.jobs@[k] == before[k]);
                                assert(same_job(before[k], old(self).jobs@[k]));
                            }
                        }
                    }
                    j = j + 1;
                }
                self.reconcile();
                self.header.state = TransferDocumentState::Closed;
            },
        }
    }
}

} // verus!
