use burn::learner::{
    epochs_to_run, train_step, valid_step, ADModule, CallbackEvent, Checkpointer,
    DataLoader, DataLoaderIterator, EventLog, GradientsAccumulation, GradientsAccumulator,
    GradientsStep, GradientsSum, InMemDataLoader, Learner, LearnerItem, MemoryCheckpointer,
    MultiDevicesTrainStep, Optimizer, Progress, TrainOutput, TrainStep, ValidStep,
};
use burn::tensor::Device;

#[test]
fn fit_runs_every_epoch_or_resumes_at_the_checkpoint() {
    assert_eq!(epochs_to_run(None, 3), (1, 4));
    assert_eq!(epochs_to_run(Some(2), 3), (2, 4));
    assert_eq!(epochs_to_run(None, 0), (1, 1));
}

#[test]
fn without_accumulation_every_item_updates() {
    let mut acc = GradientsAccumulation::new(None);
    for _ in 0..5 {
        assert_eq!(acc.on_item(), GradientsStep::Update);
    }
}

#[test]
fn accumulation_updates_every_period() {
    let mut acc = GradientsAccumulation::new(Some(3));
    let steps: Vec<GradientsStep> = (0..7).map(|_| acc.on_item()).collect();
    assert_eq!(
        steps,
        vec![
            GradientsStep::Accumulate,
            GradientsStep::Accumulate,
            GradientsStep::UpdateAccumulated,
            GradientsStep::Accumulate,
            GradientsStep::Accumulate,
            GradientsStep::UpdateAccumulated,
            GradientsStep::Accumulate,
        ]
    );
    assert_eq!(acc.current, 1);
}

#[test]
fn accumulation_of_one_updates_each_item_with_accumulated_gradients() {
    let mut acc = GradientsAccumulation::new(Some(1));
    assert_eq!(acc.on_item(), GradientsStep::UpdateAccumulated);
    assert_eq!(acc.on_item(), GradientsStep::UpdateAccumulated);
    assert_eq!(acc.current, 0);
}

#[test]
fn data_loader_gives_items_in_order() {
    let mut loader = InMemDataLoader::new(vec![1, 2, 3]);
    assert_eq!(loader.next(), Some(1));
    assert_eq!(loader.next(), Some(2));
    assert_eq!(loader.next(), Some(3));
    assert_eq!(loader.next(), None);
}

#[test]
fn multi_device_step_gives_one_item_per_device() {
    let devices = [Device { index: 0 }, Device { index: 1 }];
    let step = MultiDevicesTrainStep::new(&devices);
    let mut loader = InMemDataLoader::new(vec!["a", "b", "c"]);
    let first = step.step(&mut loader);
    assert_eq!(first, vec![(Device { index: 0 }, "a"), (Device { index: 1 }, "b")]);
    let second = step.step(&mut loader);
    assert_eq!(second, vec![(Device { index: 0 }, "c")]);
    assert!(step.step(&mut loader).is_empty());
}

#[test]
fn learner_item_and_train_output_hold_their_fields() {
    let item = LearnerItem::new("x", Progress { items_processed: 2, items_total: 10 }, 1, 3, 2);
    assert_eq!(item.item, "x");
    assert_eq!(item.progress, Progress { items_processed: 2, items_total: 10 });
    assert_eq!((item.epoch, item.epoch_total, item.iteration), (1, 3, 2));
    let out = TrainOutput::new(vec![1.5f32], 4u8);
    assert_eq!(out.item, 4);
    assert_eq!(out.grads, vec![1.5f32]);
}

/// Gradients of the test model: a single number.
#[derive(Clone, Copy, Debug, PartialEq)]
struct Grad(i64);

impl GradientsSum for Grad {
    fn sum_spec(self, _other: Self) -> Self {
        panic!("only described in specifications")
    }

    fn sum(self, other: Self) -> Self {
        Grad(self.0 + other.0)
    }
}

/// A model of one weight: its step outputs the item times the weight, and its
/// gradients are the item itself.
#[derive(Clone, Copy, Debug, PartialEq)]
struct Scale {
    w: i64,
}

impl TrainStep<i64, i64, Grad> for Scale {
    fn step_spec(&self, _item: i64) -> TrainOutput<i64, Grad> {
        panic!("only described in specifications")
    }

    fn step(&self, item: i64) -> TrainOutput<i64, Grad> {
        TrainOutput::new(Grad(item), item * self.w)
    }
}

impl ValidStep<i64, i64> for Scale {
    fn valid_step_spec(&self, _item: i64) -> i64 {
        panic!("only described in specifications")
    }

    fn step(&self, item: i64) -> i64 {
        item * self.w
    }
}

impl ADModule<Scale> for Scale {
    fn inner_spec(&self) -> Scale {
        panic!("only described in specifications")
    }

    fn inner(&self) -> Scale {
        *self
    }
}

/// Adds the gradients to the weight and counts its updates.
#[derive(Clone, Copy, Debug, PartialEq)]
struct AddGrads {
    updates: u32,
}

impl Optimizer<Scale, Grad> for AddGrads {
    fn update_spec(&self, _model: Scale, _grads: Grad) -> (Self, Scale) {
        panic!("only described in specifications")
    }

    fn update_module(&mut self, model: &mut Scale, grads: &Grad) {
        model.w += grads.0;
        self.updates += 1;
    }
}

fn train_item(item: i64, processed: usize, total: usize, epoch: usize, num_epochs: usize) -> LearnerItem<i64> {
    LearnerItem::new(
        item,
        Progress { items_processed: processed, items_total: total },
        epoch,
        num_epochs,
        processed,
    )
}

#[test]
fn loader_reports_its_progress() {
    let mut loader = InMemDataLoader::new(vec![1, 2, 3]);
    assert_eq!(loader.progress(), Progress { items_processed: 0, items_total: 3 });
    loader.next();
    assert_eq!(loader.progress(), Progress { items_processed: 1, items_total: 3 });
}

#[test]
fn train_step_steps_each_item_on_the_updated_model() {
    let mut model = Scale { w: 3 };
    let mut optim = AddGrads { updates: 0 };
    let mut callback: EventLog<i64, i64> = EventLog::new();
    let mut loader = InMemDataLoader::new(vec![1i64, 2]);
    train_step(&mut model, &mut optim, &mut callback, &mut loader, 1, 1, None);
    assert_eq!(model, Scale { w: 6 });
    assert_eq!(optim.updates, 2);
    assert_eq!(
        callback.events,
        vec![
            CallbackEvent::TrainItem(train_item(3, 1, 2, 1, 1)),
            CallbackEvent::TrainItem(train_item(8, 2, 2, 1, 1)),
            CallbackEvent::TrainEndEpoch(1),
        ]
    );
}

#[test]
fn train_step_accumulates_and_drops_the_leftover_gradients() {
    let mut model = Scale { w: 1 };
    let mut optim = AddGrads { updates: 0 };
    let mut callback: EventLog<i64, i64> = EventLog::new();
    let mut loader = InMemDataLoader::new(vec![5i64, 6, 7]);
    train_step(&mut model, &mut optim, &mut callback, &mut loader, 2, 4, Some(2));
    assert_eq!(model, Scale { w: 12 });
    assert_eq!(optim.updates, 1);
    assert_eq!(
        callback.events,
        vec![
            CallbackEvent::TrainItem(train_item(5, 1, 3, 2, 4)),
            CallbackEvent::TrainItem(train_item(6, 2, 3, 2, 4)),
            CallbackEvent::TrainItem(train_item(84, 3, 3, 2, 4)),
            CallbackEvent::TrainEndEpoch(2),
        ]
    );
    assert!(loader.next().is_none());
}

#[test]
fn train_step_on_an_empty_loader_only_ends_the_epoch() {
    let mut model = Scale { w: 1 };
    let mut optim = AddGrads { updates: 0 };
    let mut callback: EventLog<i64, i64> = EventLog::new();
    let mut loader = InMemDataLoader::new(Vec::<i64>::new());
    train_step(&mut model, &mut optim, &mut callback, &mut loader, 3, 3, Some(2));
    assert_eq!(model, Scale { w: 1 });
    assert_eq!(optim.updates, 0);
    assert_eq!(callback.events, vec![CallbackEvent::TrainEndEpoch(3)]);
}

#[test]
fn valid_step_reports_each_output() {
    let model = Scale { w: 2 };
    let mut callback: EventLog<i64, i64> = EventLog::new();
    let mut loader = InMemDataLoader::new(vec![1i64, 2]);
    valid_step(&model, &mut callback, &mut loader, 1, 5);
    assert_eq!(
        callback.events,
        vec![
            CallbackEvent::ValidItem(train_item(2, 1, 2, 1, 5)),
            CallbackEvent::ValidItem(train_item(4, 2, 2, 1, 5)),
            CallbackEvent::ValidEndEpoch(1),
        ]
    );
}

#[test]
fn gradients_accumulator_sums_and_clears() {
    let mut acc: GradientsAccumulator<Grad> = GradientsAccumulator::new();
    assert_eq!(acc.grads(), None);
    acc.accumulate(Grad(2));
    acc.accumulate(Grad(5));
    assert_eq!(acc.grads(), Some(Grad(7)));
    assert_eq!(acc.grads(), None);
}

#[test]
fn vec_loader_iterates_its_items_each_time() {
    let items = vec![4i64, 5];
    let mut first = DataLoader::iter(&items);
    assert_eq!(DataLoaderIterator::next(&mut first), Some(4));
    let mut second = DataLoader::iter(&items);
    assert_eq!(DataLoaderIterator::next(&mut second), Some(4));
    assert_eq!(DataLoaderIterator::next(&mut second), Some(5));
    assert_eq!(DataLoaderIterator::next(&mut second), None);
}

fn learner(checkpoint: Option<usize>, grad_accumulation: Option<usize>, checkpointer: MemoryCheckpointer<Scale, AddGrads>) -> Learner<Scale, AddGrads, EventLog<i64, i64>, MemoryCheckpointer<Scale, AddGrads>> {
    Learner {
        model: Scale { w: 1 },
        optim: AddGrads { updates: 0 },
        callback: EventLog::new(),
        checkpointer,
        num_epochs: 2,
        checkpoint,
        grad_accumulation,
    }
}

#[test]
fn fit_trains_every_epoch() {
    let trained = learner(None, None, MemoryCheckpointer::new()).fit(&vec![1i64, 2], &vec![3i64]);
    assert_eq!(trained, Scale { w: 7 });
}

#[test]
fn fit_resumes_from_the_checkpoint() {
    let mut checkpointer = MemoryCheckpointer::new();
    checkpointer.save(2, &Scale { w: 10 }, &AddGrads { updates: 4 });
    let trained = learner(Some(2), None, checkpointer).fit(&vec![1i64, 2], &vec![3i64]);
    assert_eq!(trained, Scale { w: 13 });
}

#[test]
fn fit_past_the_last_epoch_trains_nothing() {
    let trained = learner(Some(3), None, MemoryCheckpointer::new()).fit(&vec![1i64, 2], &vec![3i64]);
    assert_eq!(trained, Scale { w: 1 });
}

#[test]
fn fit_drops_gradients_left_over_at_each_epoch_end() {
    let trained = learner(None, Some(3), MemoryCheckpointer::new()).fit(&vec![1i64, 2], &vec![3i64]);
    assert_eq!(trained, Scale { w: 1 });
}
