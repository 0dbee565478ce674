//! What a run of a pipeline on workers of their own comes to.
//!
//! Each stage has a bounded queue in front of it. The source puts a record
//! on the first queue when there is room; a transform takes one record off
//! its queue, and sends what it makes of it to the next queue, one record
//! at a time as room allows, before it takes another; the sink takes
//! records off the last queue. A queue without any room holds nothing: a
//! record passes it straight into the hands of the stage behind it. Nothing
//! else orders these moves. Whatever
//! order they happen in, no queue ever holds more than its capacity, and
//! when no move is left the sink has taken exactly what the pipeline
//! delivers for the source's records, in order.

use vstd::prelude::*;
use crate::pipeline::{
    all_dropped,
    all_fanned_out,
    flow,
    lemma_flow_accounts_for_inputs,
    lemma_through_concat,
    through,
    PipelineIntermediateStage,
};

verus! {

/// A run at one moment.
pub struct Run<T> {
    /// The records that the source has yet to hand out.
    pub pending: Seq<T>,
    /// The queues, the one in front of the first transform first and the
    /// one in front of the sink last; in each, the oldest record first.
    pub queues: Seq<Seq<T>>,
    /// For each transform, what it has made of the record it took last and
    /// has not sent on yet.
    pub outbox: Seq<Seq<T>>,
    /// The records that the sink has taken.
    pub delivered: Seq<T>,
}

/// One move of a run.
pub enum Step {
    /// The source puts its next record on the first queue.
    Emit,
    /// A transform takes the oldest record off its queue.
    Take(nat),
    /// A transform sends the next of its outputs to the queue behind it.
    Send(nat),
    /// The sink takes the oldest record off its queue.
    Deliver,
    /// A record passes a queue that has no room for it: it goes straight
    /// from the source, or from the transform before the queue, to the
    /// transform or the sink behind it, which is free to take it.
    Hand(nat),
}

/// The move that puts a record on queue `i`.
pub open spec fn feeding(i: nat) -> Step {
    if i == 0 {
        Step::Emit
    } else {
        Step::Send((i - 1) as nat)
    }
}

/// The move that takes a record off queue `i` of a run of `stages`
/// transforms.
pub open spec fn drawing(i: nat, stages: nat) -> Step {
    if i < stages {
        Step::Take(i)
    } else {
        Step::Deliver
    }
}

impl<T> Run<T> {
    /// The beginning of a run of `stages` transforms on the records
    /// `source`: nothing has moved yet.
    pub open spec fn start(source: Seq<T>, stages: nat) -> Run<T> {
        Run {
            pending: source,
            queues: Seq::new(stages + 1, |i: int| Seq::empty()),
            outbox: Seq::new(stages, |i: int| Seq::empty()),
            delivered: Seq::empty(),
        }
    }

    /// Whether the run has a queue for each of `stages` transforms and one
    /// for the sink.
    pub open spec fn shaped(self, stages: nat) -> bool {
        self.queues.len() == stages + 1 && self.outbox.len() == stages
    }

    /// Whether no queue holds more than its capacity.
    pub open spec fn within(self, capacities: Seq<usize>) -> bool {
        forall|i: int| 0 <= i < self.queues.len() ==> (#[trigger] self.queues[i]).len() <= capacities[i]
    }

    /// Whether there is a record for `step` to move, whatever the room on
    /// the queues: the source has one left, a free transform has one on its
    /// queue, a transform has one ready, or the sink has one on its queue.
    pub open spec fn can_move(self, step: Step) -> bool {
        match step {
            Step::Emit => self.pending.len() > 0,
            Step::Take(i) => i < self.outbox.len() && self.outbox[i as int].len() == 0
                && self.queues[i as int].len() > 0,
            Step::Send(i) => i < self.outbox.len() && self.outbox[i as int].len() > 0,
            Step::Deliver => self.queues.last().len() > 0,
            Step::Hand(_) => false,
        }
    }

    /// Whether `step` can happen now. A record is put on a queue only while
    /// the queue holds fewer records than its capacity, and a transform
    /// takes a record only when it has sent on all it made of the last. A
    /// queue without any room holds nothing: a record passes it only when
    /// the stage behind it is free to take it.
    pub open spec fn enabled(self, capacities: Seq<usize>, step: Step) -> bool {
        match step {
            Step::Emit => self.can_move(step) && self.queues[0].len() < capacities[0],
            Step::Take(_) => self.can_move(step),
            Step::Send(i) => self.can_move(step) && self.queues[i as int + 1].len()
                < capacities[i as int + 1],
            Step::Deliver => self.can_move(step),
            Step::Hand(i) => i <= self.outbox.len() && capacities[i as int] == 0
                && self.queues[i as int].len() == 0 && self.can_move(feeding(i)) && (i
                < self.outbox.len() ==> self.outbox[i as int].len() == 0),
        }
    }

    /// Whether the run has come to rest: no move can happen.
    pub open spec fn idle(self, capacities: Seq<usize>) -> bool {
        forall|step: Step| !self.enabled(capacities, step)
    }

    /// Whether nothing is left on the way: the source has handed out all
    /// its records, and every queue and every outbox is empty.
    pub open spec fn drained(self) -> bool {
        &&& self.pending.len() == 0
        &&& forall|i: int| 0 <= i < self.queues.len() ==> (#[trigger] self.queues[i]).len() == 0
        &&& forall|i: int| 0 <= i < self.outbox.len() ==> (#[trigger] self.outbox[i]).len() == 0
    }
}

/// The run after a record has been put on a queue or taken off one.
pub open spec fn moved<T, S: PipelineIntermediateStage<T>>(
    run: Run<T>,
    stages: Seq<S>,
    step: Step,
) -> Run<T> {
    match step {
        Step::Emit => Run {
            pending: run.pending.drop_first(),
            queues: run.queues.update(0, run.queues[0].push(run.pending.first())),
            ..run
        },
        Step::Take(i) => Run {
            queues: run.queues.update(i as int, run.queues[i as int].drop_first()),
            outbox: run.outbox.update(
                i as int,
                stages[i as int].outputs(run.queues[i as int].first()),
            ),
            ..run
        },
        Step::Send(i) => Run {
            queues: run.queues.update(
                i as int + 1,
                run.queues[i as int + 1].push(run.outbox[i as int].first()),
            ),
            outbox: run.outbox.update(i as int, run.outbox[i as int].drop_first()),
            ..run
        },
        Step::Deliver => Run {
            queues: run.queues.update(run.queues.len() - 1, run.queues.last().drop_first()),
            delivered: run.delivered.push(run.queues.last().first()),
            ..run
        },
        Step::Hand(_) => run,
    }
}

/// The run after `step` has happened. A record that passes a queue without
/// room is put on it and taken off it at once.
pub open spec fn advance<T, S: PipelineIntermediateStage<T>>(
    run: Run<T>,
    stages: Seq<S>,
    step: Step,
) -> Run<T> {
    match step {
        Step::Hand(i) => moved(
            moved(run, stages, feeding(i)),
            stages,
            drawing(i, stages.len()),
        ),
        _ => moved(run, stages, step),
    }
}

/// Whether each of `steps` can happen when its turn comes, starting from
/// `run`.
pub open spec fn lawful<T, S: PipelineIntermediateStage<T>>(
    run: Run<T>,
    stages: Seq<S>,
    capacities: Seq<usize>,
    steps: Seq<Step>,
) -> bool
    decreases steps.len(),
{
    steps.len() == 0 || (run.enabled(capacities, steps.first()) && lawful(
        advance(run, stages, steps.first()),
        stages,
        capacities,
        steps.drop_first(),
    ))
}

/// The run after `steps` have happened one after the other.
pub open spec fn advance_all<T, S: PipelineIntermediateStage<T>>(
    run: Run<T>,
    stages: Seq<S>,
    steps: Seq<Step>,
) -> Run<T>
    decreases steps.len(),
{
    if steps.len() == 0 {
        run
    } else {
        advance_all(advance(run, stages, steps.first()), stages, steps.drop_first())
    }
}

/// All that queue `i` holds and will yet receive, in the order in which it
/// leaves the queue: what is on the queue, then what the transform before
/// it has ready, then what that transform will make of all that is yet to
/// reach it.
pub open spec fn arriving<T, S: PipelineIntermediateStage<T>>(
    run: Run<T>,
    stages: Seq<S>,
    i: nat,
) -> Seq<T>
    decreases i,
{
    if i == 0 {
        run.queues[0] + run.pending
    } else {
        run.queues[i as int] + (run.outbox[i - 1] + through(
            stages[i - 1],
            arriving(run, stages, (i - 1) as nat),
        ))
    }
}

/// What the sink will have taken when the run has come to its end: what it
/// has taken already, then all that its queue holds and will yet receive.
pub open spec fn outcome<T, S: PipelineIntermediateStage<T>>(run: Run<T>, stages: Seq<S>) -> Seq<T> {
    run.delivered + arriving(run, stages, stages.len())
}

/// Two runs that agree on all that reaches queue `low`, and on the queues
/// and outboxes from there up to queue `i`, agree on all that reaches
/// queue `i`.
proof fn lemma_arriving_frame<T, S: PipelineIntermediateStage<T>>(
    a: Run<T>,
    b: Run<T>,
    stages: Seq<S>,
    low: nat,
    i: nat,
)
    requires
        low <= i,
        arriving(a, stages, low) == arriving(b, stages, low),
        forall|j: int| low < j <= i ==> #[trigger] a.queues[j] == b.queues[j],
        forall|j: int| low <= j < i ==> #[trigger] a.outbox[j] == b.outbox[j],
    ensures
        arriving(a, stages, i) == arriving(b, stages, i),
    decreases i,
{
    if i > low {
        lemma_arriving_frame(a, b, stages, low, (i - 1) as nat);
        assert(a.queues[i as int] == b.queues[i as int]);
        assert(a.outbox[i - 1] == b.outbox[i - 1]);
    }
}

/// Two runs that agree on what the source has yet to hand out and on the
/// queues and outboxes up to queue `i` agree on all that reaches queue `i`.
proof fn lemma_arriving_same_below<T, S: PipelineIntermediateStage<T>>(
    a: Run<T>,
    b: Run<T>,
    stages: Seq<S>,
    i: nat,
)
    requires
        a.pending == b.pending,
        forall|j: int| 0 <= j <= i ==> #[trigger] a.queues[j] == b.queues[j],
        forall|j: int| 0 <= j < i ==> #[trigger] a.outbox[j] == b.outbox[j],
    ensures
        arriving(a, stages, i) == arriving(b, stages, i),
{
    assert(a.queues[0] == b.queues[0]);
    lemma_arriving_frame(a, b, stages, 0, i);
}

/// What a transform makes of one record followed by others is what it
/// makes of the one, followed by what it makes of the others.
proof fn lemma_through_first<T, S: PipelineIntermediateStage<T>>(stage: S, inputs: Seq<T>)
    requires
        inputs.len() > 0,
    ensures
        through(stage, inputs) == stage.outputs(inputs.first()) + through(
            stage,
            inputs.drop_first(),
        ),
{
    let head = seq![inputs.first()];
    assert(head + inputs.drop_first() =~= inputs);
    lemma_through_concat(stage, head, inputs.drop_first());
    assert(head.drop_last() =~= Seq::<T>::empty());
    assert(through(stage, head) =~= stage.outputs(inputs.first())) by {
        assert(through(stage, head) == through(stage, head.drop_last()) + stage.outputs(
            head.last(),
        ));
    }
}

/// Putting a record on a queue or taking one off does not change what the
/// run comes to, and where the queue has room for it, fills no queue
/// beyond its capacity.
proof fn lemma_move_keeps_outcome<T, S: PipelineIntermediateStage<T>>(
    run: Run<T>,
    stages: Seq<S>,
    capacities: Seq<usize>,
    step: Step,
)
    requires
        run.shaped(stages.len()),
        run.can_move(step),
    ensures
        moved(run, stages, step).shaped(stages.len()),
        outcome(moved(run, stages, step), stages) == outcome(run, stages),
        run.within(capacities) && run.enabled(capacities, step) ==> moved(
            run,
            stages,
            step,
        ).within(capacities),
{
    let next = moved(run, stages, step);
    let n = stages.len();
    match step {
        Step::Emit => {
            assert(arriving(next, stages, 0) =~= arriving(run, stages, 0));
            lemma_arriving_frame(run, next, stages, 0, n);
        },
        Step::Take(i) => {
            if i > 0 {
                lemma_arriving_same_below(run, next, stages, (i - 1) as nat);
            }
            let before = arriving(run, stages, i);
            let after = arriving(next, stages, i);
            assert(before.len() > 0);
            assert(before.first() == run.queues[i as int].first());
            assert(before.drop_first() =~= after);
            lemma_through_first(stages[i as int], before);
            assert(arriving(next, stages, i + 1) =~= arriving(run, stages, i + 1));
            lemma_arriving_frame(run, next, stages, i + 1, n);
        },
        Step::Send(i) => {
            lemma_arriving_same_below(run, next, stages, i);
            assert(arriving(next, stages, i + 1) =~= arriving(run, stages, i + 1));
            lemma_arriving_frame(run, next, stages, i + 1, n);
        },
        Step::Hand(_) => {},
        Step::Deliver => {
            if n > 0 {
                lemma_arriving_same_below(run, next, stages, (n - 1) as nat);
            }
            assert(arriving(run, stages, n).len() > 0);
            assert(arriving(next, stages, n) =~= arriving(run, stages, n).drop_first());
            assert(outcome(next, stages) =~= outcome(run, stages));
        },
    }
    if run.within(capacities) && run.enabled(capacities, step) {
        assert forall|k: int| 0 <= k < next.queues.len() implies (#[trigger] next.queues[k]).len()
            <= capacities[k] by {
            assert(run.queues[k].len() <= capacities[k]);
        }
    }
}

/// No move changes what the run comes to, and no move that can happen
/// fills a queue beyond its capacity.
pub proof fn lemma_step_keeps_outcome<T, S: PipelineIntermediateStage<T>>(
    run: Run<T>,
    stages: Seq<S>,
    capacities: Seq<usize>,
    step: Step,
)
    requires
        run.shaped(stages.len()),
        run.enabled(capacities, step),
    ensures
        advance(run, stages, step).shaped(stages.len()),
        outcome(advance(run, stages, step), stages) == outcome(run, stages),
        run.within(capacities) ==> advance(run, stages, step).within(capacities),
{
    match step {
        Step::Hand(i) => {
            let feed = feeding(i);
            let draw = drawing(i, stages.len());
            let mid = moved(run, stages, feed);
            lemma_move_keeps_outcome(run, stages, capacities, feed);
            assert(mid.queues[i as int].len() > 0);
            assert(mid.can_move(draw));
            lemma_move_keeps_outcome(mid, stages, capacities, draw);
            let next = moved(mid, stages, draw);
            if run.within(capacities) {
                assert forall|k: int| 0 <= k < next.queues.len() implies (#[trigger] next.queues[k]).len()
                    <= capacities[k] by {
                    assert(run.queues[k].len() <= capacities[k]);
                    if k == i {
                        assert(next.queues[k].len() == 0);
                    } else {
                        assert(next.queues[k] == run.queues[k]);
                    }
                }
            }
        },
        _ => {
            lemma_move_keeps_outcome(run, stages, capacities, step);
        },
    }
}

/// However the moves of a run fall, they do not change what the run comes
/// to, and they keep every queue within its capacity.
pub proof fn lemma_steps_keep_outcome<T, S: PipelineIntermediateStage<T>>(
    run: Run<T>,
    stages: Seq<S>,
    capacities: Seq<usize>,
    steps: Seq<Step>,
)
    requires
        run.shaped(stages.len()),
        lawful(run, stages, capacities, steps),
    ensures
        advance_all(run, stages, steps).shaped(stages.len()),
        outcome(advance_all(run, stages, steps), stages) == outcome(run, stages),
        run.within(capacities) ==> advance_all(run, stages, steps).within(capacities),
    decreases steps.len(),
{
    if steps.len() > 0 {
        lemma_step_keeps_outcome(run, stages, capacities, steps.first());
        lemma_steps_keep_outcome(
            advance(run, stages, steps.first()),
            stages,
            capacities,
            steps.drop_first(),
        );
    }
}

/// A run that begins with nothing on the way comes to what the pipeline
/// delivers for the source's records.
pub proof fn lemma_start_outcome<T, S: PipelineIntermediateStage<T>>(
    source: Seq<T>,
    stages: Seq<S>,
)
    ensures
        Run::start(source, stages.len()).shaped(stages.len()),
        outcome(Run::start(source, stages.len()), stages) == flow(stages, source),
        forall|capacities: Seq<usize>| #[trigger]
            Run::start(source, stages.len()).within(capacities),
{
    let run = Run::start(source, stages.len());
    lemma_start_arriving(source, stages, stages.len());
    assert(stages.take(stages.len() as int) =~= stages);
    assert(outcome(run, stages) =~= flow(stages, source));
}

/// At the beginning of a run, all that will reach queue `i` is what the
/// transforms before it make of the source's records.
proof fn lemma_start_arriving<T, S: PipelineIntermediateStage<T>>(
    source: Seq<T>,
    stages: Seq<S>,
    i: nat,
)
    requires
        i <= stages.len(),
    ensures
        arriving(Run::start(source, stages.len()), stages, i) == flow(stages.take(i as int), source),
    decreases i,
{
    let run = Run::start(source, stages.len());
    if i == 0 {
        assert(arriving(run, stages, 0) =~= source);
    } else {
        lemma_start_arriving(source, stages, (i - 1) as nat);
        let upto = stages.take(i as int);
        assert(upto.drop_last() =~= stages.take(i - 1));
        assert(upto.last() == stages[i - 1]);
        assert(arriving(run, stages, i) =~= through(
            stages[i - 1],
            arriving(run, stages, (i - 1) as nat),
        ));
    }
}

/// In a run at rest, queue `i` and all behind it are empty, and so are the
/// outboxes of the transforms that feed them.
proof fn lemma_idle_is_empty_from<T>(run: Run<T>, stages: nat, capacities: Seq<usize>, i: nat)
    requires
        run.shaped(stages),
        run.idle(capacities),
        i <= stages,
    ensures
        forall|k: int| i <= k <= stages ==> (#[trigger] run.queues[k]).len() == 0,
        forall|k: int| i <= k < stages ==> (#[trigger] run.outbox[k]).len() == 0,
    decreases stages - i,
{
    if i == stages {
        assert(!run.enabled(capacities, Step::Deliver));
        assert(run.queues.last() == run.queues[stages as int]);
    } else {
        lemma_idle_is_empty_from(run, stages, capacities, i + 1);
        assert(run.queues[i as int + 1].len() == 0);
        if i + 1 < stages {
            assert(run.outbox[i as int + 1].len() == 0);
        }
        assert(!run.enabled(capacities, Step::Send(i)));
        assert(!run.enabled(capacities, Step::Hand(i + 1)));
        assert(feeding(i + 1) == Step::Send(i));
        assert(run.outbox[i as int].len() == 0);
        assert(!run.enabled(capacities, Step::Take(i)));
    }
}

/// With nothing on the way, nothing will reach any queue.
proof fn lemma_drained_arriving<T, S: PipelineIntermediateStage<T>>(
    run: Run<T>,
    stages: Seq<S>,
    i: nat,
)
    requires
        run.shaped(stages.len()),
        run.drained(),
        i <= stages.len(),
    ensures
        arriving(run, stages, i).len() == 0,
    decreases i,
{
    assert(run.queues[i as int].len() == 0);
    if i > 0 {
        lemma_drained_arriving(run, stages, (i - 1) as nat);
        assert(run.outbox[i - 1].len() == 0);
        assert(arriving(run, stages, (i - 1) as nat) =~= Seq::<T>::empty());
    }
}

/// A run at rest has drained: the sink has taken all that the run comes
/// to.
pub proof fn lemma_idle_run_has_drained<T, S: PipelineIntermediateStage<T>>(
    run: Run<T>,
    stages: Seq<S>,
    capacities: Seq<usize>,
)
    requires
        run.shaped(stages.len()),
        run.idle(capacities),
    ensures
        run.drained(),
        run.delivered == outcome(run, stages),
{
    lemma_idle_is_empty_from(run, stages.len(), capacities, 0);
    assert(run.queues[0].len() == 0);
    if stages.len() > 0 {
        assert(run.outbox[0].len() == 0);
    }
    assert(!run.enabled(capacities, Step::Emit));
    assert(!run.enabled(capacities, Step::Hand(0)));
    assert(feeding(0) == Step::Emit);
    assert(run.pending.len() == 0);
    lemma_drained_arriving(run, stages, stages.len());
    assert(outcome(run, stages) =~= run.delivered);
}

/// The pipeline drains fully. Take any run of the stages on the records
/// `source`, with queues of any capacity, and let its moves fall in any
/// order that the queues allow. No queue ever
/// holds more than its capacity, and once no move is left the sink has
/// taken exactly what the stages deliver for `source`: every record that
/// entered, plus those added by fan-out, minus those dropped, in order.
pub proof fn lemma_every_run_drains<T, S: PipelineIntermediateStage<T>>(
    source: Seq<T>,
    stages: Seq<S>,
    capacities: Seq<usize>,
    steps: Seq<Step>,
)
    requires
        lawful(Run::start(source, stages.len()), stages, capacities, steps),
    ensures
        advance_all(Run::start(source, stages.len()), stages, steps).within(capacities),
        advance_all(Run::start(source, stages.len()), stages, steps).idle(capacities) ==> {
            &&& advance_all(Run::start(source, stages.len()), stages, steps).drained()
            &&& advance_all(Run::start(source, stages.len()), stages, steps).delivered == flow(
                stages,
                source,
            )
        },
{
    let run = Run::start(source, stages.len());
    let end = advance_all(run, stages, steps);
    lemma_start_outcome(source, stages);
    assert(run.within(capacities));
    lemma_steps_keep_outcome(run, stages, capacities, steps);
    if end.idle(capacities) {
        lemma_idle_run_has_drained(end, stages, capacities);
    }
}

/// Once a run has come to rest, the number of records that the sink has
/// taken is the number that the source handed out, plus the number that the
/// stages added by fanning out, minus the number that they dropped: no
/// queue loses or repeats a record, and none is left on the way.
pub proof fn lemma_every_run_delivers_the_count<T, S: PipelineIntermediateStage<T>>(
    source: Seq<T>,
    stages: Seq<S>,
    capacities: Seq<usize>,
    steps: Seq<Step>,
)
    requires
        lawful(Run::start(source, stages.len()), stages, capacities, steps),
        advance_all(Run::start(source, stages.len()), stages, steps).idle(capacities),
    ensures
        advance_all(Run::start(source, stages.len()), stages, steps).delivered.len() + all_dropped(
            stages,
            source,
        ) == source.len() + all_fanned_out(stages, source),
{
    lemma_every_run_drains(source, stages, capacities, steps);
    lemma_flow_accounts_for_inputs(stages, source);
}

/// The moves that the records `items` still need once they stand on queue
/// `i`, in whatever order they are made: on the sink's queue, one for each
/// to be taken; on a transform's queue, one for each to be taken, one for
/// each output to be sent, and the moves that the outputs need on the next
/// queue.
pub open spec fn moves_ahead<T, S: PipelineIntermediateStage<T>>(
    stages: Seq<S>,
    i: nat,
    items: Seq<T>,
) -> nat
    decreases stages.len() - i, items.len(),
{
    if items.len() == 0 {
        0
    } else if i >= stages.len() {
        items.len()
    } else {
        let made = stages[i as int].outputs(items.last());
        moves_ahead(stages, i, items.drop_last()) + 1 + made.len() + moves_ahead(
            stages,
            i + 1,
            made,
        )
    }
}

/// The moves that what the first `k` queues and their transforms' outboxes
/// hold still needs.
pub open spec fn moves_held<T, S: PipelineIntermediateStage<T>>(
    run: Run<T>,
    stages: Seq<S>,
    k: nat,
) -> nat
    decreases k,
{
    if k == 0 {
        0
    } else {
        moves_held(run, stages, (k - 1) as nat) + moves_ahead(
            stages,
            (k - 1) as nat,
            run.queues[k - 1],
        ) + if k - 1 < stages.len() {
            run.outbox[k - 1].len() + moves_ahead(stages, k, run.outbox[k - 1])
        } else {
            0
        }
    }
}

/// The moves that a run has left: one for each record that the source has
/// yet to hand out, and all that the records need from then on.
pub open spec fn moves_left<T, S: PipelineIntermediateStage<T>>(run: Run<T>, stages: Seq<S>) -> nat {
    run.pending.len() + moves_ahead(stages, 0, run.pending) + moves_held(
        run,
        stages,
        stages.len() + 1,
    )
}

/// The moves that two streams need one after the other are those that
/// each needs.
proof fn lemma_moves_ahead_concat<T, S: PipelineIntermediateStage<T>>(
    stages: Seq<S>,
    i: nat,
    a: Seq<T>,
    b: Seq<T>,
)
    ensures
        moves_ahead(stages, i, a + b) == moves_ahead(stages, i, a) + moves_ahead(stages, i, b),
    decreases b.len(),
{
    if b.len() == 0 {
        assert(a + b =~= a);
    } else if i >= stages.len() {
        if a.len() == 0 {
            assert(a + b =~= b);
        }
    } else {
        assert((a + b).drop_last() =~= a + b.drop_last());
        assert((a + b).last() == b.last());
        lemma_moves_ahead_concat(stages, i, a, b.drop_last());
    }
}

/// The moves that a stream needs are those of its first record and those
/// of the rest.
proof fn lemma_moves_ahead_first<T, S: PipelineIntermediateStage<T>>(
    stages: Seq<S>,
    i: nat,
    items: Seq<T>,
)
    requires
        items.len() > 0,
    ensures
        moves_ahead(stages, i, items) == moves_ahead(stages, i, seq![items.first()]) + moves_ahead(
            stages,
            i,
            items.drop_first(),
        ),
{
    assert(seq![items.first()] + items.drop_first() =~= items);
    lemma_moves_ahead_concat(stages, i, seq![items.first()], items.drop_first());
}

/// The moves that a stream with one more record at its end needs.
proof fn lemma_moves_ahead_push<T, S: PipelineIntermediateStage<T>>(
    stages: Seq<S>,
    i: nat,
    items: Seq<T>,
    x: T,
)
    ensures
        moves_ahead(stages, i, items.push(x)) == moves_ahead(stages, i, items) + moves_ahead(
            stages,
            i,
            seq![x],
        ),
{
    assert(items + seq![x] =~= items.push(x));
    lemma_moves_ahead_concat(stages, i, items, seq![x]);
}

/// The moves that one record on a transform's queue needs: to be taken,
/// and then what its outputs need.
proof fn lemma_moves_ahead_one<T, S: PipelineIntermediateStage<T>>(stages: Seq<S>, i: nat, x: T)
    ensures
        i >= stages.len() ==> moves_ahead(stages, i, seq![x]) == 1,
        i < stages.len() ==> moves_ahead(stages, i, seq![x]) == 1 + stages[i as int].outputs(
            x,
        ).len() + moves_ahead(stages, i + 1, stages[i as int].outputs(x)),
{
    assert(seq![x].drop_last() =~= Seq::<T>::empty());
    assert(seq![x].last() == x);
    assert(moves_ahead(stages, i, Seq::<T>::empty()) == 0);
    if i < stages.len() {
        let made = stages[i as int].outputs(x);
        assert(moves_ahead(stages, i, seq![x]) == moves_ahead(stages, i, seq![x].drop_last()) + 1
            + made.len() + moves_ahead(stages, i + 1, made));
    }
}

/// How one move changes the moves that the first `k` queues and outboxes
/// hold.
proof fn lemma_moves_held_step<T, S: PipelineIntermediateStage<T>>(
    run: Run<T>,
    stages: Seq<S>,
    capacities: Seq<usize>,
    step: Step,
    k: nat,
)
    requires
        run.shaped(stages.len()),
        run.can_move(step),
        k <= stages.len() + 1,
    ensures
        step is Emit ==> moves_held(moved(run, stages, step), stages, k) == moves_held(
            run,
            stages,
            k,
        ) + if k >= 1 {
            moves_ahead(stages, 0, seq![run.pending.first()])
        } else {
            0
        },
        step matches Step::Take(i) ==> moves_held(moved(run, stages, step), stages, k) + if k
            >= i + 1 {
            1nat
        } else {
            0nat
        } == moves_held(run, stages, k),
        step matches Step::Send(i) ==> moves_held(moved(run, stages, step), stages, k) + if k
            >= i + 1 {
            1 + moves_ahead(stages, i + 1, seq![run.outbox[i as int].first()])
        } else {
            0
        } == moves_held(run, stages, k) + if k >= i + 2 {
            moves_ahead(stages, i + 1, seq![run.outbox[i as int].first()])
        } else {
            0
        },
        step is Deliver ==> moves_held(moved(run, stages, step), stages, k) + if k
            >= stages.len() + 1 {
            1nat
        } else {
            0nat
        } == moves_held(run, stages, k),
    decreases k,
{
    let next = moved(run, stages, step);
    let n = stages.len();
    if k > 0 {
        lemma_moves_held_step(run, stages, capacities, step, (k - 1) as nat);
        let at = (k - 1) as nat;
        match step {
            Step::Emit => {
                if at == 0 {
                    lemma_moves_ahead_push(stages, 0, run.queues[0], run.pending.first());
                }
            },
            Step::Take(i) => {
                if at == i {
                    let x = run.queues[i as int].first();
                    lemma_moves_ahead_first(stages, i, run.queues[i as int]);
                    lemma_moves_ahead_one(stages, i, x);
                    assert(run.outbox[i as int] =~= Seq::<T>::empty());
                }
            },
            Step::Send(i) => {
                let y = run.outbox[i as int].first();
                if at == i {
                    lemma_moves_ahead_first(stages, i + 1, run.outbox[i as int]);
                }
                if at == i + 1 {
                    lemma_moves_ahead_push(stages, i + 1, run.queues[i as int + 1], y);
                }
            },
            Step::Hand(_) => {},
            Step::Deliver => {
                if at == n {
                    let x = run.queues[n as int].first();
                    lemma_moves_ahead_first(stages, n, run.queues[n as int]);
                    lemma_moves_ahead_one(stages, n, x);
                    assert(run.queues.last() == run.queues[n as int]);
                }
            },
        }
    }
}

/// Putting a record on a queue or taking one off uses one of the moves
/// that the run has left.
proof fn lemma_move_uses_one_move<T, S: PipelineIntermediateStage<T>>(
    run: Run<T>,
    stages: Seq<S>,
    capacities: Seq<usize>,
    step: Step,
)
    requires
        run.shaped(stages.len()),
        run.can_move(step),
    ensures
        moves_left(moved(run, stages, step), stages) + 1 == moves_left(run, stages),
{
    lemma_moves_held_step(run, stages, capacities, step, stages.len() + 1);
    match step {
        Step::Emit => {
            lemma_moves_ahead_first(stages, 0, run.pending);
        },
        _ => {},
    }
}

/// Every move brings a run nearer to its end: by one move, or by two where
/// a record passes a queue without room.
pub proof fn lemma_step_uses_one_move<T, S: PipelineIntermediateStage<T>>(
    run: Run<T>,
    stages: Seq<S>,
    capacities: Seq<usize>,
    step: Step,
)
    requires
        run.shaped(stages.len()),
        run.enabled(capacities, step),
    ensures
        moves_left(advance(run, stages, step), stages) + 1 <= moves_left(run, stages),
        !(step is Hand) ==> moves_left(advance(run, stages, step), stages) + 1 == moves_left(
            run,
            stages,
        ),
        step is Hand ==> moves_left(advance(run, stages, step), stages) + 2 == moves_left(
            run,
            stages,
        ),
{
    match step {
        Step::Hand(i) => {
            let feed = feeding(i);
            let draw = drawing(i, stages.len());
            let mid = moved(run, stages, feed);
            lemma_move_keeps_outcome(run, stages, capacities, feed);
            lemma_move_uses_one_move(run, stages, capacities, feed);
            assert(mid.queues[i as int].len() > 0);
            assert(mid.can_move(draw));
            lemma_move_uses_one_move(mid, stages, capacities, draw);
        },
        _ => {
            lemma_move_uses_one_move(run, stages, capacities, step);
        },
    }
}

/// No run goes on for ever: the moves made and the moves left never add up
/// to more than the moves that the run had left at its beginning, so a run
/// makes at most that many.
pub proof fn lemma_steps_use_moves<T, S: PipelineIntermediateStage<T>>(
    run: Run<T>,
    stages: Seq<S>,
    capacities: Seq<usize>,
    steps: Seq<Step>,
)
    requires
        run.shaped(stages.len()),
        lawful(run, stages, capacities, steps),
    ensures
        steps.len() + moves_left(advance_all(run, stages, steps), stages) <= moves_left(
            run,
            stages,
        ),
        steps.len() <= moves_left(run, stages),
    decreases steps.len(),
{
    if steps.len() > 0 {
        lemma_step_uses_one_move(run, stages, capacities, steps.first());
        lemma_step_keeps_outcome(run, stages, capacities, steps.first());
        lemma_steps_use_moves(
            advance(run, stages, steps.first()),
            stages,
            capacities,
            steps.drop_first(),
        );
    }
}

} // verus!
