//! The training loop: the epochs a fit runs, the training and validation
//! steps of an epoch, when gradients update the model, the checkpoints, and
//! how items are handed to the devices of a multi-device step.
use vstd::prelude::*;
use crate::tensor::Device;

verus! {

/// The output of a training step: the gradients and the item.
pub struct TrainOutput<TO, G> {
    pub grads: G,
    pub item: TO,
}

impl<TO, G> TrainOutput<TO, G> {
    pub fn new(grads: G, item: TO) -> (r: Self)
        ensures
            r.grads == grads,
            r.item == item,
    {
        TrainOutput { grads, item }
    }
}

/// A model's training step.
pub trait TrainStep<TI, TO, G> {
    /// The output of the model's step on `item`.
    spec fn step_spec(&self, item: TI) -> TrainOutput<TO, G>;

    fn step(&self, item: TI) -> (r: TrainOutput<TO, G>)
        ensures
            r == self.step_spec(item),
    ;
}

/// A model's validation step.
pub trait ValidStep<VI, VO> {
    /// The output of the model's step on `item`.
    spec fn valid_step_spec(&self, item: VI) -> VO;

    fn step(&self, item: VI) -> (r: VO)
        ensures
            r == self.valid_step_spec(item),
    ;
}

/// An event of training or validation.
pub enum Event<U> {
    /// Signal that an item have been processed.
    MetricsUpdate(U),
    /// Signal the end of an epoch.
    EndEpoch(usize),
}

/// How to aggregate the metric.
#[derive(Copy, Clone, Debug, PartialEq, Eq, Structural)]
pub enum Aggregate {
    /// Compute the average.
    Mean,
}

/// The split to use.
#[derive(Copy, Clone, Debug, PartialEq, Eq, Structural)]
pub enum Split {
    /// The training split.
    Train,
    /// The validation split.
    Valid,
}

/// The direction of the query.
#[derive(Copy, Clone, Debug, PartialEq, Eq, Structural)]
pub enum Direction {
    /// Lower is better.
    Lowest,
    /// Higher is better.
    Highest,
}

/// The training of a model on a training and a validation data loader,
/// giving back the trained model.
pub trait Fit<TO, VO, M, G> {
    fn fit<TI, VI, V: ValidStep<VI, VO>, DT: DataLoader<TI>, DV: DataLoader<VI>>(
        self,
        dataloader_train: &DT,
        dataloader_valid: &DV,
    ) -> M where M: TrainStep<TI, TO, G> + ADModule<V>;
}

/// How far an iteration over items went.
#[derive(Copy, Clone, Debug, PartialEq, Eq, Structural)]
pub struct Progress {
    pub items_processed: usize,
    pub items_total: usize,
}

/// A learner item.
#[derive(Debug, Clone, PartialEq)]
pub struct LearnerItem<T> {
    /// The item.
    pub item: T,
    /// The progress.
    pub progress: Progress,
    /// The epoch.
    pub epoch: usize,
    /// The total number of epochs.
    pub epoch_total: usize,
    /// The iteration.
    pub iteration: usize,
}

impl<T> LearnerItem<T> {
    pub fn new(item: T, progress: Progress, epoch: usize, epoch_total: usize, iteration: usize) -> (r: Self)
        ensures
            r.item == item,
            r.progress == progress,
            r.epoch == epoch,
            r.epoch_total == epoch_total,
            r.iteration == iteration,
    {
        LearnerItem { item, progress, epoch, epoch_total, iteration }
    }
}

/// The epochs a fit runs, `start..end`: from the checkpoint's epoch when it
/// resumes from one, from the first otherwise, through the last.
pub fn epochs_to_run(checkpoint: Option<usize>, num_epochs: usize) -> (r: (usize, usize))
    requires
        num_epochs < usize::MAX,
    ensures
        r.0 == match checkpoint {
            Some(c) => c,
            None => 1,
        },
        r.1 == num_epochs + 1,
{
    let starting_epoch = match checkpoint {
        Some(checkpoint) => checkpoint,
        None => 1,
    };
    (starting_epoch, num_epochs + 1)
}

/// What a training step does with the gradients of an item.
#[derive(Copy, Clone, Debug, PartialEq, Eq, Structural)]
pub enum GradientsStep {
    /// Update the model with the item's gradients.
    Update,
    /// Add the item's gradients to the accumulated ones.
    Accumulate,
    /// Add the item's gradients to the accumulated ones, then update the model
    /// with them.
    UpdateAccumulated,
}

/// The step for an item, and the count of accumulated items after it.
pub open spec fn next_step(every: Option<usize>, current: nat) -> (GradientsStep, nat) {
    match every {
        None => (GradientsStep::Update, current),
        Some(a) => if a <= current + 1 {
            (GradientsStep::UpdateAccumulated, 0)
        } else {
            (GradientsStep::Accumulate, current + 1)
        },
    }
}

/// The accumulation of gradients during an epoch.
pub struct GradientsAccumulation {
    /// Update the model every that many items, or after each item.
    pub every: Option<usize>,
    /// The items accumulated since the last update.
    pub current: usize,
}

impl GradientsAccumulation {
    /// The count stays below the period.
    pub open spec fn wf(&self) -> bool {
        self.every matches Some(a) ==> self.current < a || self.current == 0
    }

    /// No item accumulated yet.
    pub fn new(every: Option<usize>) -> (r: Self)
        ensures
            r.wf(),
            r.every == every,
            r.current == 0,
    {
        GradientsAccumulation { every, current: 0 }
    }

    /// The step for the next item.
    pub fn on_item(&mut self) -> (r: GradientsStep)
        requires
            old(self).wf(),
        ensures
            final(self).wf(),
            final(self).every == old(self).every,
            (r, final(self).current as nat) == next_step(old(self).every, old(self).current as nat),
    {
        match self.every {
            Some(accumulation) => {
                let next = self.current + 1;
                if accumulation <= next {
                    self.current = 0;
                    GradientsStep::UpdateAccumulated
                } else {
                    self.current = next;
                    GradientsStep::Accumulate
                }
            },
            None => GradientsStep::Update,
        }
    }
}

/// The count after `n` items from `current`, and the number of updates with
/// accumulated gradients among them.
pub open spec fn after_items(every: Option<usize>, current: nat, n: nat) -> (nat, nat)
    decreases n,
{
    if n == 0 {
        (current, 0)
    } else {
        let (c, u) = after_items(every, current, (n - 1) as nat);
        let (step, next) = next_step(every, c);
        (next, if step == GradientsStep::UpdateAccumulated { u + 1 } else { u })
    }
}

/// With gradients accumulated over `a` items, `n` items from a fresh start
/// update the model `n / a` times and leave `n % a` items accumulated.
pub proof fn law_accumulation_period(a: usize, n: nat)
    requires
        a >= 1,
    ensures
        after_items(Some(a), 0, n) == ((n % (a as nat)) as nat, n / (a as nat)),
    decreases n,
{
    let an = a as nat;
    if n == 0 {
        assert(0nat % an == 0 && 0nat / an == 0) by (nonlinear_arith)
            requires
                an >= 1,
        ;
    } else {
        law_accumulation_period(a, (n - 1) as nat);
        let m = (n - 1) as nat;
        assert(m % an < an) by (nonlinear_arith)
            requires
                an >= 1,
        ;
        if an <= m % an + 1 {
            assert(n % an == 0 && n / an == m / an + 1) by (nonlinear_arith)
                requires
                    an >= 1,
                    m % an + 1 == an,
                    n == m + 1,
            ;
        } else {
            assert(n % an == m % an + 1 && n / an == m / an) by (nonlinear_arith)
                requires
                    an >= 1,
                    m % an + 1 < an,
                    n == m + 1,
            ;
        }
    }
}

/// A source of items, taken one after the other.
pub trait DataLoaderIterator<T> {
    /// The items not taken yet.
    spec fn remaining(&self) -> Seq<T>;

    /// The next item, if any.
    fn next(&mut self) -> (r: Option<T>)
        ensures
            old(self).remaining().len() == 0 ==> r is None && final(self).remaining() == old(
                self,
            ).remaining(),
            old(self).remaining().len() > 0 ==> r == Some(old(self).remaining()[0])
                && final(self).remaining() == old(self).remaining().skip(1),
    ;

    /// How many items were taken, of how many.
    fn progress(&self) -> (r: Progress)
        ensures
            r.items_processed + self.remaining().len() == r.items_total,
    ;
}

/// Items held in memory, taken from the front.
pub struct InMemDataLoader<T> {
    items: Vec<T>,
    taken: usize,
    total: usize,
}

impl<T> InMemDataLoader<T> {
    /// The items taken and the items left make up all the items.
    closed spec fn counts(&self) -> bool {
        self.taken + self.items@.len() == self.total
    }

    /// Whether the counts add up; a loader built by [`InMemDataLoader::new`]
    /// always has them add up.
    fn counted(&self) -> (r: bool)
        ensures
            r == self.counts(),
    {
        match self.taken.checked_add(self.items.len()) {
            Some(n) => n == self.total,
            None => false,
        }
    }
}

impl<T> InMemDataLoader<T> {
    /// A loader that hands out `items` in their order.
    pub fn new(items: Vec<T>) -> (r: Self)
        ensures
            r.remaining() == items@,
    {
        let ghost orig = items@;
        let mut items = items;
        let mut stack: Vec<T> = Vec::new();
        while items.len() > 0
            invariant
                items@.len() <= orig.len(),
                items@ == orig.take(items@.len() as int),
                stack@.reverse() == orig.skip(items@.len() as int),
            decreases items@.len(),
        {
            let ghost n = items@.len() as int;
            match items.pop() {
                Some(x) => {
                    proof {
                        assert(items@ =~= orig.take(n - 1));
                    }
                    let ghost before = stack@;
                    stack.push(x);
                    proof {
                        assert(before.reverse().len() == before.len());
                        assert forall|i: int| 0 <= i < stack@.len() implies #[trigger] stack@.reverse()[i]
                            == orig.skip(n - 1)[i] by {
                            if i > 0 {
                                assert(orig.skip(n)[i - 1] == orig[n + i - 1]);
                            }
                        }
                        assert(stack@.reverse() =~= orig.skip(n - 1));
                    }
                },
                None => {},
            }
        }
        assert(orig.skip(0) =~= orig);
        let total = stack.len();
        InMemDataLoader { items: stack, taken: 0, total }
    }
}

impl<T> DataLoaderIterator<T> for InMemDataLoader<T> {
    /// The items, the next one last.
    closed spec fn remaining(&self) -> Seq<T> {
        if self.counts() {
            self.items@.reverse()
        } else {
            Seq::empty()
        }
    }

    fn next(&mut self) -> (r: Option<T>) {
        if self.items.len() == 0 || !self.counted() {
            return None;
        }
        let r = self.items.pop();
        self.taken = self.taken + 1;
        proof {
            assert(self.items@.reverse() =~= old(self).items@.reverse().skip(1));
        }
        r
    }

    fn progress(&self) -> (r: Progress) {
        if self.counted() {
            Progress { items_processed: self.taken, items_total: self.total }
        } else {
            Progress { items_processed: 0, items_total: 0 }
        }
    }
}

/// Gradients that add up.
pub trait GradientsSum: Sized {
    /// The sum of two gradients.
    spec fn sum_spec(self, other: Self) -> Self;

    fn sum(self, other: Self) -> (r: Self)
        ensures
            r == self.sum_spec(other),
    ;
}

/// The gradients accumulated so far, with `grads` added.
pub open spec fn accumulated<G: GradientsSum>(acc: Option<G>, grads: G) -> G {
    match acc {
        Some(a) => a.sum_spec(grads),
        None => grads,
    }
}

/// The gradients accumulated over the items of an epoch.
pub struct GradientsAccumulator<G> {
    pub grads: Option<G>,
}

impl<G: GradientsSum> GradientsAccumulator<G> {
    /// Nothing accumulated.
    pub fn new() -> (r: Self)
        ensures
            r.grads is None,
    {
        GradientsAccumulator { grads: None }
    }

    /// Add the gradients of an item.
    pub fn accumulate(&mut self, grads: G)
        ensures
            final(self).grads == Some(accumulated(old(self).grads, grads)),
    {
        let acc = self.grads.take();
        self.grads = Some(
            match acc {
                Some(a) => a.sum(grads),
                None => grads,
            },
        );
    }

    /// The gradients accumulated, which are then cleared.
    pub fn grads(&mut self) -> (r: Option<G>)
        ensures
            r == old(self).grads,
            final(self).grads is None,
    {
        self.grads.take()
    }
}

/// Updates a model with gradients.
pub trait Optimizer<M, G>: Sized {
    /// The optimizer and the model after updating `model` with `grads`.
    spec fn update_spec(&self, model: M, grads: G) -> (Self, M);

    /// Update the model with the gradients.
    fn update_module(&mut self, model: &mut M, grads: &G)
        ensures
            (*final(self), *final(model)) == old(self).update_spec(*old(model), *grads),
    ;
}

/// The model, the optimizer and the accumulated gradients after training on
/// the first `k` items, each item stepped on the model as the items before
/// it left it.
pub open spec fn train_state<TI, TO, G: GradientsSum, M: TrainStep<TI, TO, G>, O: Optimizer<M, G>>(
    model: M,
    optim: O,
    every: Option<usize>,
    items: Seq<TI>,
    k: nat,
) -> (M, O, Option<G>)
    decreases k,
{
    if k == 0 {
        (model, optim, None)
    } else {
        let prev = train_state(model, optim, every, items, (k - 1) as nat);
        let m = prev.0;
        let o = prev.1;
        let acc = prev.2;
        let grads = m.step_spec(items[k - 1]).grads;
        match next_step(every, after_items(every, 0, (k - 1) as nat).0).0 {
            GradientsStep::Update => {
                let updated = o.update_spec(m, grads);
                (updated.1, updated.0, acc)
            },
            GradientsStep::Accumulate => (m, o, Some(accumulated(acc, grads))),
            GradientsStep::UpdateAccumulated => {
                let updated = o.update_spec(m, accumulated(acc, grads));
                (updated.1, updated.0, None)
            },
        }
    }
}

/// What a learner's callback was told, in order.
#[derive(Debug, Clone, PartialEq)]
pub enum CallbackEvent<TO, VO> {
    /// An item was trained on.
    TrainItem(LearnerItem<TO>),
    /// An item was validated.
    ValidItem(LearnerItem<VO>),
    /// An epoch of training ended.
    TrainEndEpoch(usize),
    /// An epoch of validation ended.
    ValidEndEpoch(usize),
}

/// Receives what training and validation do as they go.
pub trait LearnerCallback<TO, VO> {
    /// The events received so far.
    spec fn events(&self) -> Seq<CallbackEvent<TO, VO>>;

    /// An item was trained on.
    fn on_train_item(&mut self, item: LearnerItem<TO>)
        ensures
            final(self).events() == old(self).events().push(CallbackEvent::TrainItem(item)),
    ;

    /// An item was validated.
    fn on_valid_item(&mut self, item: LearnerItem<VO>)
        ensures
            final(self).events() == old(self).events().push(CallbackEvent::ValidItem(item)),
    ;

    /// An epoch of training ended.
    fn on_train_end_epoch(&mut self, epoch: usize)
        ensures
            final(self).events() == old(self).events().push(CallbackEvent::TrainEndEpoch(epoch)),
    ;

    /// An epoch of validation ended.
    fn on_valid_end_epoch(&mut self, epoch: usize)
        ensures
            final(self).events() == old(self).events().push(CallbackEvent::ValidEndEpoch(epoch)),
    ;
}

/// A callback that keeps what it is told.
pub struct EventLog<TO, VO> {
    pub events: Vec<CallbackEvent<TO, VO>>,
}

impl<TO, VO> EventLog<TO, VO> {
    /// Nothing told yet.
    pub fn new() -> (r: Self)
        ensures
            r.events@ == Seq::<CallbackEvent<TO, VO>>::empty(),
    {
        EventLog { events: Vec::new() }
    }
}

impl<TO, VO> LearnerCallback<TO, VO> for EventLog<TO, VO> {
    open spec fn events(&self) -> Seq<CallbackEvent<TO, VO>> {
        self.events@
    }

    fn on_train_item(&mut self, item: LearnerItem<TO>) {
        self.events.push(CallbackEvent::TrainItem(item));
    }

    fn on_valid_item(&mut self, item: LearnerItem<VO>) {
        self.events.push(CallbackEvent::ValidItem(item));
    }

    fn on_train_end_epoch(&mut self, epoch: usize) {
        self.events.push(CallbackEvent::TrainEndEpoch(epoch));
    }

    fn on_valid_end_epoch(&mut self, epoch: usize) {
        self.events.push(CallbackEvent::ValidEndEpoch(epoch));
    }
}

/// Whether `item` tells of the `k`-th item (from zero) of an epoch, whose
/// output is `output`, with `left` items left after it.
pub open spec fn tells_item<T>(
    item: LearnerItem<T>,
    output: T,
    epoch: usize,
    num_epochs: usize,
    k: nat,
    left: nat,
) -> bool {
    &&& item.item == output
    &&& item.epoch == epoch
    &&& item.epoch_total == num_epochs
    &&& item.iteration == k + 1
    &&& item.progress.items_processed + left == item.progress.items_total
}

/// Train the model for an epoch on the items of the loader: each item is
/// stepped on the model as the items before it left it, and its gradients
/// update the model at once or, with accumulation over `m` items, are added
/// up and update the model every `m` items (those left over at the end of
/// the epoch are dropped); the callback is told of each item with its
/// output, its iteration and the loader's progress, then that the epoch
/// ended.
pub fn train_step<
    TI,
    TO,
    VO,
    G: GradientsSum,
    M: TrainStep<TI, TO, G>,
    O: Optimizer<M, G>,
    C: LearnerCallback<TO, VO>,
    D: DataLoaderIterator<TI>,
>(
    model: &mut M,
    optim: &mut O,
    callback: &mut C,
    loader: &mut D,
    epoch: usize,
    num_epochs: usize,
    accumulation: Option<usize>,
)
    requires
        old(loader).remaining().len() < usize::MAX,
    ensures
        ({
            let items = old(loader).remaining();
            let n = items.len();
            let before = old(callback).events();
            let after = final(callback).events();
            let state = train_state(*old(model), *old(optim), accumulation, items, n);
            &&& final(loader).remaining().len() == 0
            &&& *final(model) == state.0
            &&& *final(optim) == state.1
            &&& after.len() == before.len() + n + 1
            &&& after.take(before.len() as int) == before
            &&& forall|k: int|
                0 <= k < n ==> (#[trigger] after[before.len() + k] matches CallbackEvent::TrainItem(
                    li,
                ) && tells_item(
                    li,
                    train_state(*old(model), *old(optim), accumulation, items, k as nat).0.step_spec(
                        items[k],
                    ).item,
                    epoch,
                    num_epochs,
                    k as nat,
                    (n - k - 1) as nat,
                ))
            &&& after.last() == CallbackEvent::<TO, VO>::TrainEndEpoch(epoch)
        }),
{
    let ghost n = loader.remaining().len();
    let ghost items = loader.remaining();
    let ghost m0 = *model;
    let ghost o0 = *optim;
    let ghost events0 = callback.events();
    let mut accumulation_state = GradientsAccumulation::new(accumulation);
    let mut accumulator: GradientsAccumulator<G> = GradientsAccumulator::new();
    let mut iteration: usize = 0;
    loop
        invariant
            iteration <= n,
            n < usize::MAX,
            items.len() == n,
            loader.remaining() == items.skip(iteration as int),
            accumulation_state.wf(),
            accumulation_state.every == accumulation,
            accumulation_state.current == after_items(accumulation, 0, iteration as nat).0,
            *model == train_state(m0, o0, accumulation, items, iteration as nat).0,
            *optim == train_state(m0, o0, accumulation, items, iteration as nat).1,
            accumulator.grads == train_state(m0, o0, accumulation, items, iteration as nat).2,
            callback.events().len() == events0.len() + iteration,
            callback.events().take(events0.len() as int) == events0,
            forall|k: int|
                0 <= k < iteration ==> (#[trigger] callback.events()[events0.len() + k] matches CallbackEvent::TrainItem(
                    li,
                ) && tells_item(
                    li,
                    train_state(m0, o0, accumulation, items, k as nat).0.step_spec(items[k]).item,
                    epoch,
                    num_epochs,
                    k as nat,
                    (n - k - 1) as nat,
                )),
        ensures
            iteration == n,
            loader.remaining().len() == 0,
            *model == train_state(m0, o0, accumulation, items, n).0,
            *optim == train_state(m0, o0, accumulation, items, n).1,
            callback.events().len() == events0.len() + n,
            callback.events().take(events0.len() as int) == events0,
            forall|k: int|
                0 <= k < n ==> (#[trigger] callback.events()[events0.len() + k] matches CallbackEvent::TrainItem(
                    li,
                ) && tells_item(
                    li,
                    train_state(m0, o0, accumulation, items, k as nat).0.step_spec(items[k]).item,
                    epoch,
                    num_epochs,
                    k as nat,
                    (n - k - 1) as nat,
                )),
        decreases n - iteration,
    {
        let item = match loader.next() {
            Some(item) => item,
            None => {
                break;
            },
        };
        iteration = iteration + 1;
        let progress = loader.progress();
        let output = model.step(item);
        let TrainOutput { grads, item: out_item } = output;
        let ghost events_before = callback.events();
        let step = accumulation_state.on_item();
        match step {
            GradientsStep::Update => {
                optim.update_module(model, &grads);
            },
            GradientsStep::Accumulate => {
                accumulator.accumulate(grads);
            },
            GradientsStep::UpdateAccumulated => {
                accumulator.accumulate(grads);
                let total = accumulator.grads();
                match total {
                    Some(total) => optim.update_module(model, &total),
                    None => {},
                }
            },
        }
        callback.on_train_item(LearnerItem::new(out_item, progress, epoch, num_epochs, iteration));
        proof {
            assert(items.skip(iteration - 1).skip(1) =~= items.skip(iteration as int));
            assert(callback.events().take(events0.len() as int) =~= events0);
            assert forall|k: int|
                0 <= k < iteration implies (#[trigger] callback.events()[events0.len() + k] matches CallbackEvent::TrainItem(
                    li,
                ) && tells_item(
                    li,
                    train_state(m0, o0, accumulation, items, k as nat).0.step_spec(items[k]).item,
                    epoch,
                    num_epochs,
                    k as nat,
                    (n - k - 1) as nat,
                )) by {
                if k < iteration - 1 {
                    assert(callback.events()[events0.len() + k] == events_before[events0.len() + k]);
                }
            }
        }
    }
    callback.on_train_end_epoch(epoch);
    proof {
        assert(callback.events().take(events0.len() as int) =~= events0);
    }
}

/// Validate the model for an epoch on the items of the loader: the callback
/// is told of each item with the model's output on it, its iteration and
/// the loader's progress, then that the epoch ended.
pub fn valid_step<
    VI,
    VO,
    TO,
    V: ValidStep<VI, VO>,
    C: LearnerCallback<TO, VO>,
    D: DataLoaderIterator<VI>,
>(model: &V, callback: &mut C, loader: &mut D, epoch: usize, num_epochs: usize)
    requires
        old(loader).remaining().len() < usize::MAX,
    ensures
        ({
            let items = old(loader).remaining();
            let n = items.len();
            let before = old(callback).events();
            let after = final(callback).events();
            &&& final(loader).remaining().len() == 0
            &&& after.len() == before.len() + n + 1
            &&& after.take(before.len() as int) == before
            &&& forall|k: int|
                0 <= k < n ==> (#[trigger] after[before.len() + k] matches CallbackEvent::ValidItem(
                    li,
                ) && tells_item(
                    li,
                    model.valid_step_spec(items[k]),
                    epoch,
                    num_epochs,
                    k as nat,
                    (n - k - 1) as nat,
                ))
            &&& after.last() == CallbackEvent::<TO, VO>::ValidEndEpoch(epoch)
        }),
{
    let ghost n = loader.remaining().len();
    let ghost items = loader.remaining();
    let ghost events0 = callback.events();
    let mut iteration: usize = 0;
    loop
        invariant
            iteration <= n,
            n < usize::MAX,
            items.len() == n,
            loader.remaining() == items.skip(iteration as int),
            callback.events().len() == events0.len() + iteration,
            callback.events().take(events0.len() as int) == events0,
            forall|k: int|
                0 <= k < iteration ==> (#[trigger] callback.events()[events0.len() + k] matches CallbackEvent::ValidItem(
                    li,
                ) && tells_item(
                    li,
                    model.valid_step_spec(items[k]),
                    epoch,
                    num_epochs,
                    k as nat,
                    (n - k - 1) as nat,
                )),
        ensures
            loader.remaining().len() == 0,
            callback.events().len() == events0.len() + n,
            callback.events().take(events0.len() as int) == events0,
            forall|k: int|
                0 <= k < n ==> (#[trigger] callback.events()[events0.len() + k] matches CallbackEvent::ValidItem(
                    li,
                ) && tells_item(
                    li,
                    model.valid_step_spec(items[k]),
                    epoch,
                    num_epochs,
                    k as nat,
                    (n - k - 1) as nat,
                )),
        decreases n - iteration,
    {
        let item = match loader.next() {
            Some(item) => item,
            None => {
                break;
            },
        };
        let progress = loader.progress();
        iteration = iteration + 1;
        let output = model.step(item);
        let ghost events_before = callback.events();
        callback.on_valid_item(LearnerItem::new(output, progress, epoch, num_epochs, iteration));
        proof {
            assert(items.skip(iteration - 1).skip(1) =~= items.skip(iteration as int));
            assert(callback.events().take(events0.len() as int) =~= events0);
            assert forall|k: int|
                0 <= k < iteration implies (#[trigger] callback.events()[events0.len() + k] matches CallbackEvent::ValidItem(
                    li,
                ) && tells_item(
                    li,
                    model.valid_step_spec(items[k]),
                    epoch,
                    num_epochs,
                    k as nat,
                    (n - k - 1) as nat,
                )) by {
                if k < iteration - 1 {
                    assert(callback.events()[events0.len() + k] == events_before[events0.len() + k]);
                }
            }
        }
    }
    callback.on_valid_end_epoch(epoch);
    proof {
        assert(callback.events().take(events0.len() as int) =~= events0);
    }
}

/// A source of the items of an epoch, iterated anew each epoch.
pub trait DataLoader<T> {
    /// The iterator over the items of an epoch.
    type Iter: DataLoaderIterator<T>;

    /// The items of each epoch, in order.
    spec fn items(&self) -> Seq<T>;

    /// A new iteration over the items.
    fn iter(&self) -> (r: Self::Iter)
        ensures
            r.remaining() == self.items(),
    ;
}

/// Items held in memory form a data loader: each epoch hands out a copy of
/// them, in order.
impl<T: Copy> DataLoader<T> for Vec<T> {
    type Iter = InMemDataLoader<T>;

    open spec fn items(&self) -> Seq<T> {
        self@
    }

    fn iter(&self) -> (r: InMemDataLoader<T>) {
        let mut copy: Vec<T> = Vec::new();
        let mut i: usize = 0;
        while i < self.len()
            invariant
                i <= self@.len(),
                copy@ == self@.take(i as int),
            decreases self@.len() - i,
        {
            copy.push(self[i]);
            i = i + 1;
            proof {
                assert(copy@ =~= self@.take(i as int));
            }
        }
        proof {
            assert(self@.take(self@.len() as int) =~= self@);
        }
        InMemDataLoader::new(copy)
    }
}

/// A model with automatic differentiation, and the model it wraps.
pub trait ADModule<I> {
    /// The wrapped model.
    spec fn inner_spec(&self) -> I;

    /// The wrapped model, without automatic differentiation.
    fn inner(&self) -> (r: I)
        ensures
            r == self.inner_spec(),
    ;
}

/// Saves the model and the optimizer after each epoch, and restores them
/// from the checkpoint of an epoch.
pub trait Checkpointer<M, O> {
    /// The checkpoints saved, in order.
    spec fn saved(&self) -> Seq<(usize, M, O)>;

    /// The model and the optimizer that the checkpoint of `epoch` restores
    /// over `model` and `optim`.
    spec fn restored(&self, epoch: usize, model: M, optim: O) -> (M, O);

    /// Save the checkpoint of `epoch`.
    fn save(&mut self, epoch: usize, model: &M, optim: &O)
        ensures
            final(self).saved() == old(self).saved().push((epoch, *model, *optim)),
    ;

    /// Restore the model and the optimizer from the checkpoint of `epoch`.
    fn restore(&self, epoch: usize, model: &mut M, optim: &mut O)
        ensures
            (*final(model), *final(optim)) == self.restored(epoch, *old(model), *old(optim)),
    ;
}

/// The model and the optimizer of the latest checkpoint of `epoch` among
/// `saved`; `model` and `optim` when there is none.
pub open spec fn latest_checkpoint<M, O>(saved: Seq<(usize, M, O)>, epoch: usize, model: M, optim: O) -> (M, O)
    decreases saved.len(),
{
    if saved.len() == 0 {
        (model, optim)
    } else if saved.last().0 == epoch {
        (saved.last().1, saved.last().2)
    } else {
        latest_checkpoint(saved.drop_last(), epoch, model, optim)
    }
}

/// Checkpoints kept in memory.
pub struct MemoryCheckpointer<M, O> {
    checkpoints: Vec<(usize, M, O)>,
}

impl<M: Copy, O: Copy> MemoryCheckpointer<M, O> {
    /// No checkpoint saved yet.
    pub fn new() -> (r: Self)
        ensures
            r.saved() == Seq::<(usize, M, O)>::empty(),
    {
        MemoryCheckpointer { checkpoints: Vec::new() }
    }
}

impl<M: Copy, O: Copy> Checkpointer<M, O> for MemoryCheckpointer<M, O> {
    closed spec fn saved(&self) -> Seq<(usize, M, O)> {
        self.checkpoints@
    }

    closed spec fn restored(&self, epoch: usize, model: M, optim: O) -> (M, O) {
        latest_checkpoint(self.checkpoints@, epoch, model, optim)
    }

    fn save(&mut self, epoch: usize, model: &M, optim: &O) {
        self.checkpoints.push((epoch, *model, *optim));
    }

    fn restore(&self, epoch: usize, model: &mut M, optim: &mut O) {
        let mut i: usize = self.checkpoints.len();
        proof {
            assert(self.checkpoints@.take(i as int) =~= self.checkpoints@);
        }
        while i > 0
            invariant
                i <= self.checkpoints@.len(),
                latest_checkpoint(self.checkpoints@, epoch, *old(model), *old(optim))
                    == latest_checkpoint(self.checkpoints@.take(i as int), epoch, *old(model), *old(optim)),
                *model == *old(model),
                *optim == *old(optim),
            decreases i,
        {
            let c = self.checkpoints[i - 1];
            proof {
                assert(self.checkpoints@.take(i as int).drop_last() =~= self.checkpoints@.take(i - 1));
            }
            if c.0 == epoch {
                *model = c.1;
                *optim = c.2;
                return;
            }
            i = i - 1;
        }
    }
}

/// The model and the optimizer after `count` epochs of training on `items`.
pub open spec fn epochs_state<TI, TO, G: GradientsSum, M: TrainStep<TI, TO, G>, O: Optimizer<M, G>>(
    model: M,
    optim: O,
    every: Option<usize>,
    items: Seq<TI>,
    count: nat,
) -> (M, O)
    decreases count,
{
    if count == 0 {
        (model, optim)
    } else {
        let prev = epochs_state(model, optim, every, items, (count - 1) as nat);
        let state = train_state(prev.0, prev.1, every, items, items.len());
        (state.0, state.1)
    }
}

/// Whether the events of the `e`-th epoch of a fit (from zero) stand in
/// `events` where they belong: the fit's epochs start with `start` after
/// `base` events, each epoch telling one event per training item, the end of
/// its training, one event per validation item and the end of its
/// validation. The epoch's training items are told with the outputs of the
/// model as the items before them left it; its validation items with the
/// outputs of the model the epoch's training left, as it wraps it.
pub open spec fn epoch_told<
    TI,
    TO,
    VI,
    VO,
    G: GradientsSum,
    V: ValidStep<VI, VO>,
    M: TrainStep<TI, TO, G> + ADModule<V>,
    O: Optimizer<M, G>,
>(
    events: Seq<CallbackEvent<TO, VO>>,
    base: int,
    start: (M, O),
    every: Option<usize>,
    titems: Seq<TI>,
    vitems: Seq<VI>,
    first: int,
    num_epochs: usize,
    e: int,
) -> bool {
    let nt = titems.len();
    let nv = vitems.len();
    let off = base + e * (nt + nv + 2);
    let state = epochs_state(start.0, start.1, every, titems, e as nat);
    let trained = train_state(state.0, state.1, every, titems, nt).0;
    let epoch = (first + e) as usize;
    &&& forall|k: int|
        0 <= k < nt ==> (#[trigger] events[off + k] matches CallbackEvent::TrainItem(li) && tells_item(
            li,
            train_state(state.0, state.1, every, titems, k as nat).0.step_spec(titems[k]).item,
            epoch,
            num_epochs,
            k as nat,
            (nt - k - 1) as nat,
        ))
    &&& events[off + nt] == CallbackEvent::<TO, VO>::TrainEndEpoch(epoch)
    &&& forall|k: int|
        0 <= k < nv ==> (#[trigger] events[off + nt + 1 + k] matches CallbackEvent::ValidItem(li)
            && tells_item(
            li,
            trained.inner_spec().valid_step_spec(vitems[k]),
            epoch,
            num_epochs,
            k as nat,
            (nv - k - 1) as nat,
        ))
    &&& events[off + nt + 1 + nv] == CallbackEvent::<TO, VO>::ValidEndEpoch(epoch)
}

/// The model and the optimizer a fit starts from: those of the checkpoint to
/// resume from, if any.
pub open spec fn fit_start<M, O, C, K: Checkpointer<M, O>>(learner: Learner<M, O, C, K>) -> (M, O) {
    match learner.checkpoint {
        Some(c) => learner.checkpointer.restored(c, learner.model, learner.optim),
        None => (learner.model, learner.optim),
    }
}

/// The first epoch a fit runs.
pub open spec fn fit_first(checkpoint: Option<usize>) -> int {
    match checkpoint {
        Some(c) => c as int,
        None => 1,
    }
}

/// How many epochs a fit runs: from the first through `num_epochs`.
pub open spec fn fit_count(checkpoint: Option<usize>, num_epochs: usize) -> nat {
    let first = fit_first(checkpoint);
    if first <= num_epochs {
        (num_epochs + 1 - first) as nat
    } else {
        0
    }
}

/// `after` is `before` once fitted on the training items `titems` and the
/// validation items `vitems`: the model and the optimizer are those after
/// the epochs run; the callback was told, after what it was told before, the
/// events of each epoch in turn ([`epoch_told`]); a checkpoint of each epoch
/// was saved, in turn, with the model and the optimizer that epoch left.
pub open spec fn fitted<
    TI,
    TO,
    VI,
    VO,
    G: GradientsSum,
    V: ValidStep<VI, VO>,
    M: TrainStep<TI, TO, G> + ADModule<V>,
    O: Optimizer<M, G>,
    C: LearnerCallback<TO, VO>,
    K: Checkpointer<M, O>,
>(before: Learner<M, O, C, K>, after: Learner<M, O, C, K>, titems: Seq<TI>, vitems: Seq<VI>) -> bool {
    let start = fit_start(before);
    let first = fit_first(before.checkpoint);
    let count = fit_count(before.checkpoint, before.num_epochs);
    let every = before.grad_accumulation;
    let block = titems.len() + vitems.len() + 2;
    let told = before.callback.events();
    let events = after.callback.events();
    &&& after.num_epochs == before.num_epochs
    &&& after.checkpoint == before.checkpoint
    &&& after.grad_accumulation == every
    &&& (after.model, after.optim) == epochs_state(start.0, start.1, every, titems, count)
    &&& events.len() == told.len() + count * block
    &&& events.take(told.len() as int) == told
    &&& forall|e: int|
        0 <= e < count ==> #[trigger] epoch_told::<TI, TO, VI, VO, G, V, M, O>(
            events,
            told.len() as int,
            start,
            every,
            titems,
            vitems,
            first,
            before.num_epochs,
            e,
        )
    &&& after.checkpointer.saved() == before.checkpointer.saved() + Seq::new(
        count,
        |e: int|
            (
                (first + e) as usize,
                epochs_state(start.0, start.1, every, titems, (e + 1) as nat).0,
                epochs_state(start.0, start.1, every, titems, (e + 1) as nat).1,
            ),
    )
}

/// What a fit tells and saves, epoch by epoch: in the `e`-th epoch run
/// (from zero), which is epoch `first + e`, each training item is told with
/// the output of the model as the epoch's earlier items left it, starting
/// from the model after `e` epochs; then the end of the training; then each
/// validation item with the output of the model after `e + 1` epochs, as it
/// wraps it, that is the model this epoch's training left; then the end of
/// the validation; and the epoch's checkpoint holds the model and the
/// optimizer after `e + 1` epochs.
pub proof fn law_fit_events<
    TI,
    TO,
    VI,
    VO,
    G: GradientsSum,
    V: ValidStep<VI, VO>,
    M: TrainStep<TI, TO, G> + ADModule<V>,
    O: Optimizer<M, G>,
    C: LearnerCallback<TO, VO>,
    K: Checkpointer<M, O>,
>(before: Learner<M, O, C, K>, after: Learner<M, O, C, K>, titems: Seq<TI>, vitems: Seq<VI>, e: int)
    requires
        fitted::<TI, TO, VI, VO, G, V, M, O, C, K>(before, after, titems, vitems),
        0 <= e < fit_count(before.checkpoint, before.num_epochs),
    ensures
        ({
            let start = fit_start(before);
            let every = before.grad_accumulation;
            let nt = titems.len() as int;
            let nv = vitems.len() as int;
            let off = before.callback.events().len() + e * (nt + nv + 2);
            let events = after.callback.events();
            let epoch = (fit_first(before.checkpoint) + e) as usize;
            let at_start = epochs_state(start.0, start.1, every, titems, e as nat);
            let at_end = epochs_state(start.0, start.1, every, titems, (e + 1) as nat);
            &&& forall|k: int|
                0 <= k < nt ==> (#[trigger] events[off + k] matches CallbackEvent::TrainItem(li) && li.item
                    == train_state(at_start.0, at_start.1, every, titems, k as nat).0.step_spec(
                    titems[k],
                ).item && li.epoch == epoch && li.iteration == k + 1)
            &&& events[off + nt] == CallbackEvent::<TO, VO>::TrainEndEpoch(epoch)
            &&& forall|k: int|
                0 <= k < nv ==> (#[trigger] events[off + nt + 1 + k] matches CallbackEvent::ValidItem(li)
                    && li.item == at_end.0.inner_spec().valid_step_spec(vitems[k]) && li.epoch == epoch
                    && li.iteration == k + 1)
            &&& events[off + nt + 1 + nv] == CallbackEvent::<TO, VO>::ValidEndEpoch(epoch)
            &&& after.checkpointer.saved()[before.checkpointer.saved().len() + e] == (
                epoch,
                at_end.0,
                at_end.1,
            )
        }),
{
    let start = fit_start(before);
    let every = before.grad_accumulation;
    let first = fit_first(before.checkpoint);
    assert(epoch_told::<TI, TO, VI, VO, G, V, M, O>(
        after.callback.events(),
        before.callback.events().len() as int,
        start,
        every,
        titems,
        vitems,
        first,
        before.num_epochs,
        e,
    ));
}

/// The events of an epoch stay told when more events follow them.
proof fn lemma_told_prefix<
    TI,
    TO,
    VI,
    VO,
    G: GradientsSum,
    V: ValidStep<VI, VO>,
    M: TrainStep<TI, TO, G> + ADModule<V>,
    O: Optimizer<M, G>,
>(
    told: Seq<CallbackEvent<TO, VO>>,
    events: Seq<CallbackEvent<TO, VO>>,
    base: int,
    start: (M, O),
    every: Option<usize>,
    titems: Seq<TI>,
    vitems: Seq<VI>,
    first: int,
    num_epochs: usize,
    e: int,
)
    requires
        0 <= base,
        0 <= e,
        base + (e + 1) * (titems.len() + vitems.len() + 2) <= told.len() <= events.len(),
        events.take(told.len() as int) == told,
        epoch_told::<TI, TO, VI, VO, G, V, M, O>(told, base, start, every, titems, vitems, first, num_epochs, e),
    ensures
        epoch_told::<TI, TO, VI, VO, G, V, M, O>(events, base, start, every, titems, vitems, first, num_epochs, e),
{
    let nt = titems.len() as int;
    let nv = vitems.len() as int;
    let off = base + e * (nt + nv + 2);
    assert(off + nt + nv + 2 == base + (e + 1) * (nt + nv + 2)) by (nonlinear_arith)
        requires
            off == base + e * (nt + nv + 2),
    ;
    assert(0 <= e * (nt + nv + 2)) by (nonlinear_arith)
        requires
            0 <= e,
            0 <= nt,
            0 <= nv,
    ;
    assert forall|i: int| 0 <= i < told.len() implies events[i] == told[i] by {
        assert(events.take(told.len() as int)[i] == events[i]);
    }
    assert forall|k: int| 0 <= k < nt implies #[trigger] events[off + k] == told[off + k] by {}
    assert forall|k: int| 0 <= k < nv implies #[trigger] events[off + nt + 1 + k] == told[off + nt + 1 + k] by {}
    assert(events[off + nt] == told[off + nt]);
    assert(events[off + nt + 1 + nv] == told[off + nt + 1 + nv]);
}

/// A learner: the model, its optimizer, the callback told of its progress,
/// the checkpointer, the number of epochs, the checkpoint to resume from and
/// the accumulation of gradients.
pub struct Learner<M, O, C, K> {
    pub model: M,
    pub optim: O,
    pub callback: C,
    pub checkpointer: K,
    pub num_epochs: usize,
    pub checkpoint: Option<usize>,
    pub grad_accumulation: Option<usize>,
}

impl<M, O, C, K> Learner<M, O, C, K> {
    /// Run the epochs of a fit: restore the checkpoint to resume from, if
    /// any; then, for each epoch to run, train on the training items,
    /// validate the model the training left, as it wraps it, on the
    /// validation items, and save a checkpoint ([`fitted`]).
    pub fn fit_epochs<
        TI,
        TO,
        VI,
        VO,
        G: GradientsSum,
        V: ValidStep<VI, VO>,
        DT: DataLoader<TI>,
        DV: DataLoader<VI>,
    >(&mut self, dataloader_train: &DT, dataloader_valid: &DV) where
        M: TrainStep<TI, TO, G> + ADModule<V>,
        O: Optimizer<M, G>,
        C: LearnerCallback<TO, VO>,
        K: Checkpointer<M, O>,

        requires
            old(self).num_epochs < usize::MAX,
            dataloader_train.items().len() < usize::MAX,
            dataloader_valid.items().len() < usize::MAX,
        ensures
            fitted::<TI, TO, VI, VO, G, V, M, O, C, K>(
                *old(self),
                *final(self),
                dataloader_train.items(),
                dataloader_valid.items(),
            ),
    {
        if let Some(checkpoint) = self.checkpoint {
            self.checkpointer.restore(checkpoint, &mut self.model, &mut self.optim);
        }
        let ghost m0 = self.model;
        let ghost o0 = self.optim;
        let ghost titems = dataloader_train.items();
        let ghost vitems = dataloader_valid.items();
        let ghost every = self.grad_accumulation;
        let ghost told = self.callback.events();
        let ghost saved0 = self.checkpointer.saved();
        let ghost block = titems.len() + vitems.len() + 2;
        let (starting_epoch, end) = epochs_to_run(self.checkpoint, self.num_epochs);
        let mut epoch = starting_epoch;
        proof {
            assert(self.callback.events().take(told.len() as int) =~= told);
            assert(saved0 + Seq::new(
                0,
                |e: int|
                    (
                        (starting_epoch + e) as usize,
                        epochs_state(m0, o0, every, titems, (e + 1) as nat).0,
                        epochs_state(m0, o0, every, titems, (e + 1) as nat).1,
                    ),
            ) =~= saved0);
        }
        while epoch < end
            invariant
                end == self.num_epochs + 1,
                self.num_epochs == old(self).num_epochs,
                self.checkpoint == old(self).checkpoint,
                starting_epoch == fit_first(self.checkpoint),
                self.grad_accumulation == every,
                dataloader_train.items() == titems,
                dataloader_valid.items() == vitems,
                titems.len() < usize::MAX,
                vitems.len() < usize::MAX,
                block == titems.len() + vitems.len() + 2,
                epoch <= end || epoch == starting_epoch,
                epoch >= starting_epoch,
                (self.model, self.optim) == epochs_state(m0, o0, every, titems, (epoch - starting_epoch) as nat),
                self.callback.events().len() == told.len() + (epoch - starting_epoch) * block,
                self.callback.events().take(told.len() as int) == told,
                forall|e: int|
                    0 <= e < epoch - starting_epoch ==> #[trigger] epoch_told::<TI, TO, VI, VO, G, V, M, O>(
                        self.callback.events(),
                        told.len() as int,
                        (m0, o0),
                        every,
                        titems,
                        vitems,
                        starting_epoch as int,
                        self.num_epochs,
                        e,
                    ),
                self.checkpointer.saved() == saved0 + Seq::new(
                    (epoch - starting_epoch) as nat,
                    |e: int|
                        (
                            (starting_epoch + e) as usize,
                            epochs_state(m0, o0, every, titems, (e + 1) as nat).0,
                            epochs_state(m0, o0, every, titems, (e + 1) as nat).1,
                        ),
                ),
            decreases end - epoch,
        {
            let ghost done = epoch - starting_epoch;
            let ghost ev0 = self.callback.events();
            let ghost state = (self.model, self.optim);
            let ghost saved_before = self.checkpointer.saved();
            let mut train = dataloader_train.iter();
            train_step(
                &mut self.model,
                &mut self.optim,
                &mut self.callback,
                &mut train,
                epoch,
                self.num_epochs,
                self.grad_accumulation,
            );
            let ghost ev1 = self.callback.events();
            let inner = self.model.inner();
            let mut valid = dataloader_valid.iter();
            valid_step(&inner, &mut self.callback, &mut valid, epoch, self.num_epochs);
            let ghost ev2 = self.callback.events();
            self.checkpointer.save(epoch, &self.model, &self.optim);
            proof {
                let nt = titems.len() as int;
                let nv = vitems.len() as int;
                assert(ev0.len() + block == told.len() + (done + 1) * block) by (nonlinear_arith)
                    requires
                        ev0.len() == told.len() + done * block,
                ;
                assert forall|i: int| 0 <= i < ev1.len() implies ev2[i] == ev1[i] by {
                    assert(ev2.take(ev1.len() as int)[i] == ev2[i]);
                }
                assert forall|i: int| 0 <= i < ev0.len() implies ev2[i] == ev0[i] by {
                    assert(ev1.take(ev0.len() as int)[i] == ev1[i]);
                }
                assert(ev2.take(told.len() as int) =~= told) by {
                    assert forall|i: int| 0 <= i < told.len() implies ev2[i] == told[i] by {
                        assert(ev0.take(told.len() as int)[i] == ev0[i]);
                    }
                }
                assert(ev2.take(ev0.len() as int) =~= ev0);
                assert(0 <= done * block) by (nonlinear_arith)
                    requires
                        0 <= done,
                        0 <= block,
                ;
                assert(epoch_told::<TI, TO, VI, VO, G, V, M, O>(
                    ev2,
                    told.len() as int,
                    (m0, o0),
                    every,
                    titems,
                    vitems,
                    starting_epoch as int,
                    self.num_epochs,
                    done,
                )) by {
                    assert(ev1[ev0.len() + nt] == ev1.last());
                    assert forall|k: int| 0 <= k < nt implies #[trigger] ev2[ev0.len() + k] == ev1[ev0.len() + k] by {}
                }
                assert forall|e: int| 0 <= e < done + 1 implies #[trigger] epoch_told::<TI, TO, VI, VO, G, V, M, O>(
                    ev2,
                    told.len() as int,
                    (m0, o0),
                    every,
                    titems,
                    vitems,
                    starting_epoch as int,
                    self.num_epochs,
                    e,
                ) by {
                    if e < done {
                        assert((e + 1) * block <= done * block) by (nonlinear_arith)
                            requires
                                e + 1 <= done,
                                0 <= block,
                        ;
                        lemma_told_prefix::<TI, TO, VI, VO, G, V, M, O>(
                            ev0,
                            ev2,
                            told.len() as int,
                            (m0, o0),
                            every,
                            titems,
                            vitems,
                            starting_epoch as int,
                            self.num_epochs,
                            e,
                        );
                    }
                }
                assert(self.checkpointer.saved() =~= saved0 + Seq::new(
                    (done + 1) as nat,
                    |e: int|
                        (
                            (starting_epoch + e) as usize,
                            epochs_state(m0, o0, every, titems, (e + 1) as nat).0,
                            epochs_state(m0, o0, every, titems, (e + 1) as nat).1,
                        ),
                ));
            }
            epoch = epoch + 1;
        }
    }

    /// Fit the model: restore the checkpoint to resume from, if any; then,
    /// for each epoch to run, train on the training items, validate the
    /// model the training left, as it wraps it, on the validation items, and
    /// save a checkpoint. The result is the model after the last epoch, that
    /// of a learner fitted as [`fit_epochs`](Self::fit_epochs) states.
    pub fn fit<
        TI,
        TO,
        VI,
        VO,
        G: GradientsSum,
        V: ValidStep<VI, VO>,
        DT: DataLoader<TI>,
        DV: DataLoader<VI>,
    >(self, dataloader_train: &DT, dataloader_valid: &DV) -> (r: M) where
        M: TrainStep<TI, TO, G> + ADModule<V>,
        O: Optimizer<M, G>,
        C: LearnerCallback<TO, VO>,
        K: Checkpointer<M, O>,

        requires
            self.num_epochs < usize::MAX,
            dataloader_train.items().len() < usize::MAX,
            dataloader_valid.items().len() < usize::MAX,
        ensures
            ({
                let start = match self.checkpoint {
                    Some(c) => self.checkpointer.restored(c, self.model, self.optim),
                    None => (self.model, self.optim),
                };
                let first = match self.checkpoint {
                    Some(c) => c as int,
                    None => 1,
                };
                let count = if first <= self.num_epochs { self.num_epochs + 1 - first } else { 0 };
                r == epochs_state(
                    start.0,
                    start.1,
                    self.grad_accumulation,
                    dataloader_train.items(),
                    count as nat,
                ).0
            }),
            exists|after: Self|
                #[trigger] fitted::<TI, TO, VI, VO, G, V, M, O, C, K>(
                    self,
                    after,
                    dataloader_train.items(),
                    dataloader_valid.items(),
                ) && r == after.model,
    {
        let mut learner = self;
        learner.fit_epochs(dataloader_train, dataloader_valid);
        learner.model
    }
}

/// A training step spread over devices: each device gets at most one item.
pub struct MultiDevicesTrainStep {
    devices: Vec<Device>,
}

impl MultiDevicesTrainStep {
    /// The devices, one per worker.
    pub closed spec fn workers(&self) -> Seq<Device> {
        self.devices@
    }

    pub fn new(devices: &[Device]) -> (r: Self)
        ensures
            r.workers() == devices@,
    {
        let mut workers: Vec<Device> = Vec::new();
        let mut i: usize = 0;
        while i < devices.len()
            invariant
                i <= devices@.len(),
                workers@ == devices@.take(i as int),
            decreases devices@.len() - i,
        {
            workers.push(devices[i]);
            i = i + 1;
            assert(workers@ =~= devices@.take(i as int));
        }
        assert(devices@.take(i as int) =~= devices@);
        MultiDevicesTrainStep { devices: workers }
    }

    /// Hand the next items of the data loader to the workers, one each, in
    /// order, until the workers or the items run out: the k-th item goes to
    /// the k-th worker.
    pub fn step<TI, D: DataLoaderIterator<TI>>(&self, dataloader: &mut D) -> (r: Vec<(Device, TI)>)
        ensures
            ({
                let n = if old(dataloader).remaining().len() < self.workers().len() {
                    old(dataloader).remaining().len()
                } else {
                    self.workers().len() as nat
                };
                &&& r@.len() == n
                &&& forall|k: int|
                    0 <= k < n ==> (#[trigger] r@[k]).0 == self.workers()[k] && r@[k].1 == old(
                        dataloader,
                    ).remaining()[k]
                &&& final(dataloader).remaining() == old(dataloader).remaining().skip(n as int)
            }),
    {
        let ghost items = dataloader.remaining();
        let mut sent: Vec<(Device, TI)> = Vec::new();
        let mut w: usize = 0;
        while w < self.devices.len()
            invariant
                w <= self.devices@.len(),
                sent@.len() <= w,
                sent@.len() <= items.len(),
                dataloader.remaining() == items.skip(sent@.len() as int),
                sent@.len() < w ==> sent@.len() == items.len(),
                sent@.len() == w || sent@.len() == items.len(),
                forall|k: int|
                    0 <= k < sent@.len() ==> (#[trigger] sent@[k]).0 == self.devices@[k] && sent@[k].1
                        == items[k],
            decreases self.devices@.len() - w,
        {
            let ghost before = sent@.len();
            match dataloader.next() {
                Some(item) => {
                    proof {
                        assert(items.skip(before as int).skip(1) =~= items.skip(before + 1 as int));
                    }
                    if sent.len() == w {
                        sent.push((self.devices[w], item));
                    }
                },
                None => {},
            }
            w = w + 1;
        }
        sent
    }
}

} // verus!
