use vstd::prelude::*;

verus! {

/// Training epochs between two looks at what the generator draws.
pub const SNAPSHOT_EVERY: usize = 5;

/// Width of the generator's latent input.
pub const LATENT_DIM: usize = 8;

/// Width of the hidden layers of both networks.
pub const HIDDEN_WIDTH: usize = 100;

/// Number of samples drawn to build the training set.
pub const DATASET_SIZE: usize = 10_000;

/// Number of generator samples drawn at each snapshot.
pub const SNAPSHOT_SAMPLES: usize = 5;

/// One step of a training run, in the order the run takes them.
#[derive(Clone, Copy, Debug, PartialEq, Eq)]
pub enum Step {
    /// Sample the generator after this many completed epochs.
    Snapshot(usize),
    /// Run training epoch number `e` (counted from 1) over the whole data set.
    Train(usize),
}

/// The steps of a run of `epochs` epochs: before epoch `e` (counted from 1), a
/// snapshot when `e - 1` is a multiple of `every`; then the epoch itself.
pub open spec fn spec_plan(epochs: nat, every: nat) -> Seq<Step>
    decreases epochs,
{
    if epochs == 0 {
        Seq::empty()
    } else {
        let done = (epochs - 1) as nat;
        spec_plan(done, every) + (if done % every == 0 {
            seq![Step::Snapshot(done as usize)]
        } else {
            Seq::empty()
        }) + seq![Step::Train(epochs as usize)]
    }
}

/// The steps of a training run of `epochs` epochs that samples the generator
/// every `every` epochs, starting before the first one.
pub fn training_plan(epochs: usize, every: usize) -> (plan: Vec<Step>)
    requires
        every > 0,
        epochs < usize::MAX,
    ensures
        plan@ == spec_plan(epochs as nat, every as nat),
        trained_epochs(plan@) == Seq::new(epochs as nat, |i: int| (i + 1) as usize),
        forall|j: int| 0 <= j < plan@.len() ==> #[trigger] step_in_place(plan@, j, every as nat),
{
    proof {
        lemma_plan_trains_each_epoch_once(epochs as nat, every as nat);
        lemma_plan_steps_in_place(epochs as nat, every as nat);
    }
    let mut plan: Vec<Step> = Vec::new();
    let mut epoch: usize = 1;
    while epoch < epochs + 1
        invariant
            1 <= epoch <= epochs + 1,
            epochs < usize::MAX,
            every > 0,
            plan@ == spec_plan((epoch - 1) as nat, every as nat),
        decreases epochs + 1 - epoch,
    {
        let done = epoch - 1;
        let ghost before = plan@;
        if done % every == 0 {
            plan.push(Step::Snapshot(done));
        }
        plan.push(Step::Train(epoch));
        assert(plan@ =~= spec_plan(epoch as nat, every as nat));
        epoch = epoch + 1;
    }
    plan
}

/// The epochs that a sequence of steps trains, in order.
pub open spec fn trained_epochs(plan: Seq<Step>) -> Seq<usize>
    decreases plan.len(),
{
    if plan.len() == 0 {
        Seq::empty()
    } else {
        let rest = trained_epochs(plan.drop_last());
        match plan.last() {
            Step::Train(e) => rest.push(e),
            Step::Snapshot(_) => rest,
        }
    }
}

/// The snapshot points of a sequence of steps, in order.
pub open spec fn snapshot_epochs(plan: Seq<Step>) -> Seq<usize>
    decreases plan.len(),
{
    if plan.len() == 0 {
        Seq::empty()
    } else {
        let rest = snapshot_epochs(plan.drop_last());
        match plan.last() {
            Step::Snapshot(e) => rest.push(e),
            Step::Train(_) => rest,
        }
    }
}

proof fn lemma_trained_append(a: Seq<Step>, b: Seq<Step>)
    ensures
        trained_epochs(a + b) == trained_epochs(a) + trained_epochs(b),
        snapshot_epochs(a + b) == snapshot_epochs(a) + snapshot_epochs(b),
    decreases b.len(),
{
    if b.len() == 0 {
        assert(a + b =~= a);
        assert(trained_epochs(a) + trained_epochs(b) =~= trained_epochs(a));
        assert(snapshot_epochs(a) + snapshot_epochs(b) =~= snapshot_epochs(a));
    } else {
        lemma_trained_append(a, b.drop_last());
        assert((a + b).drop_last() =~= a + b.drop_last());
        assert((a + b).last() == b.last());
        match b.last() {
            Step::Train(e) => {
                assert(trained_epochs(a) + trained_epochs(b) =~= (trained_epochs(a)
                    + trained_epochs(b.drop_last())).push(e));
            },
            Step::Snapshot(e) => {
                assert(snapshot_epochs(a) + snapshot_epochs(b) =~= (snapshot_epochs(a)
                    + snapshot_epochs(b.drop_last())).push(e));
            },
        }
    }
}

/// One epoch more adds, to what a run trains and samples, that epoch and,
/// when due, one snapshot before it.
proof fn lemma_plan_step(epochs: nat, every: nat)
    requires
        every > 0,
        epochs > 0,
    ensures
        trained_epochs(spec_plan(epochs, every)) == trained_epochs(
            spec_plan((epochs - 1) as nat, every),
        ).push(epochs as usize),
        snapshot_epochs(spec_plan(epochs, every)) == (if (epochs - 1) as nat % every == 0 {
            snapshot_epochs(spec_plan((epochs - 1) as nat, every)).push((epochs - 1) as usize)
        } else {
            snapshot_epochs(spec_plan((epochs - 1) as nat, every))
        }),
{
    reveal_with_fuel(trained_epochs, 2);
    reveal_with_fuel(snapshot_epochs, 2);
    let done = (epochs - 1) as nat;
    let head = spec_plan(done, every);
    let last = seq![Step::Train(epochs as usize)];
    let mid: Seq<Step> = if done % every == 0 {
        seq![Step::Snapshot(done as usize)]
    } else {
        Seq::empty()
    };
    assert(spec_plan(epochs, every) == head + mid + last);
    lemma_trained_append(head + mid, last);
    lemma_trained_append(head, mid);
    assert(last.drop_last() =~= Seq::<Step>::empty());
    assert(last.last() == Step::Train(epochs as usize));
    assert(trained_epochs(last) =~= seq![epochs as usize]);
    assert(snapshot_epochs(last) =~= Seq::<usize>::empty());
    if done % every == 0 {
        assert(mid.drop_last() =~= Seq::<Step>::empty());
        assert(mid.last() == Step::Snapshot(done as usize));
        assert(trained_epochs(mid) =~= Seq::<usize>::empty());
        assert(snapshot_epochs(mid) =~= seq![done as usize]);
    } else {
        assert(trained_epochs(mid) =~= Seq::<usize>::empty());
        assert(snapshot_epochs(mid) =~= Seq::<usize>::empty());
    }
    assert(trained_epochs(head) + trained_epochs(mid) + trained_epochs(last) =~= trained_epochs(
        head,
    ).push(epochs as usize));
    if done % every == 0 {
        assert(snapshot_epochs(head) + snapshot_epochs(mid) + snapshot_epochs(last)
            =~= snapshot_epochs(head).push(done as usize));
    } else {
        assert(snapshot_epochs(head) + snapshot_epochs(mid) + snapshot_epochs(last)
            =~= snapshot_epochs(head));
    }
}

/// A run trains every epoch exactly once, in order: epochs `1, 2, ..., epochs`.
pub proof fn lemma_plan_trains_each_epoch_once(epochs: nat, every: nat)
    requires
        every > 0,
        epochs < usize::MAX,
    ensures
        trained_epochs(spec_plan(epochs, every)) == Seq::new(epochs, |i: int| (i + 1) as usize),
    decreases epochs,
{
    if epochs > 0 {
        lemma_plan_trains_each_epoch_once((epochs - 1) as nat, every);
        lemma_plan_step(epochs, every);
        assert(trained_epochs(spec_plan(epochs, every)) =~= Seq::new(
            epochs,
            |i: int| (i + 1) as usize,
        ));
    } else {
        assert(trained_epochs(spec_plan(epochs, every)) =~= Seq::new(
            epochs,
            |i: int| (i + 1) as usize,
        ));
    }
}

/// A run samples the generator after `0, every, 2 * every, ...` completed
/// epochs: once for each multiple of `every` below `epochs`.
pub proof fn lemma_plan_snapshots(epochs: nat, every: nat)
    requires
        every > 0,
        epochs < usize::MAX,
    ensures
        snapshot_epochs(spec_plan(epochs, every)) == Seq::new(
            ((epochs + every - 1) / every as int) as nat,
            |k: int| (k * every) as usize,
        ),
    decreases epochs,
{
    let after = ((epochs + every - 1) / every as int) as nat;
    if epochs > 0 {
        let done = (epochs - 1) as nat;
        lemma_plan_snapshots(done, every);
        lemma_plan_step(epochs, every);
        let before = ((done + every - 1) / every as int) as nat;
        if done % every == 0 {
            assert(after == before + 1 && before * every == done) by (nonlinear_arith)
                requires
                    every > 0,
                    done % every == 0,
                    epochs == done + 1,
                    before == (done + every - 1) / every as int,
                    after == (epochs + every - 1) / every as int,
            ;
        } else {
            assert(after == before) by (nonlinear_arith)
                requires
                    every > 0,
                    done % every != 0,
                    epochs == done + 1,
                    before == (done + every - 1) / every as int,
                    after == (epochs + every - 1) / every as int,
            ;
        }
        assert(snapshot_epochs(spec_plan(epochs, every)) =~= Seq::new(
            after,
            |k: int| (k * every) as usize,
        ));
    } else {
        assert(after == 0) by (nonlinear_arith)
            requires
                every > 0,
                after == (epochs + every - 1) / every as int,
                epochs == 0,
        ;
        assert(snapshot_epochs(spec_plan(epochs, every)) =~= Seq::new(
            after,
            |k: int| (k * every) as usize,
        ));
    }
}

/// Step `j` of `plan` comes at its place: a snapshot after `k` epochs comes
/// after exactly `k` trained epochs (and `k` is a multiple of `every`), and
/// training epoch `e` comes after exactly `e - 1` trained epochs.
pub open spec fn step_in_place(plan: Seq<Step>, j: int, every: nat) -> bool {
    match plan[j] {
        Step::Snapshot(k) => trained_epochs(plan.take(j)).len() == k && k as nat % every == 0,
        Step::Train(e) => trained_epochs(plan.take(j)).len() + 1 == e,
    }
}

/// In a run, every snapshot after `k` epochs is taken once exactly `k` epochs
/// have trained, and every epoch `e` trains once exactly `e - 1` epochs have.
pub proof fn lemma_plan_steps_in_place(epochs: nat, every: nat)
    requires
        every > 0,
        epochs < usize::MAX,
    ensures
        forall|j: int|
            0 <= j < spec_plan(epochs, every).len() ==> #[trigger] step_in_place(
                spec_plan(epochs, every),
                j,
                every,
            ),
    decreases epochs,
{
    if epochs > 0 {
        reveal_with_fuel(trained_epochs, 2);
        let done = (epochs - 1) as nat;
        lemma_plan_steps_in_place(done, every);
        lemma_plan_trains_each_epoch_once(done, every);
        let head = spec_plan(done, every);
        let last = seq![Step::Train(epochs as usize)];
        let mid: Seq<Step> = if done % every == 0 {
            seq![Step::Snapshot(done as usize)]
        } else {
            Seq::empty()
        };
        let plan = spec_plan(epochs, every);
        assert(plan == head + mid + last);
        lemma_trained_append(head, mid);
        if done % every == 0 {
            assert(mid.drop_last() =~= Seq::<Step>::empty());
        }
        assert(trained_epochs(mid) =~= Seq::<usize>::empty());
        assert forall|j: int| 0 <= j < plan.len() implies #[trigger] step_in_place(
            plan,
            j,
            every,
        ) by {
            if j < head.len() {
                assert(plan[j] == head[j]);
                assert(plan.take(j) =~= head.take(j));
                assert(step_in_place(head, j, every));
            } else if j < head.len() + mid.len() {
                assert(plan[j] == Step::Snapshot(done as usize));
                assert(plan.take(j) =~= head);
            } else {
                assert(plan[j] == Step::Train(epochs as usize));
                assert(plan.take(j) =~= head + mid);
            }
        }
    }
}

/// Divisor for the mean loss of an epoch that recorded `count` losses; an
/// epoch that recorded none divides by one.
pub fn loss_divisor(count: u32) -> (divisor: u32)
    ensures
        divisor == (if count == 0 {
            1
        } else {
            count
        }),
{
    if count == 0 {
        1
    } else {
        count
    }
}

} // verus!
