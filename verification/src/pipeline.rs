//! A pipeline of stages: one source, transforms in the order in which they
//! were registered, one sink.
//!
//! A transform answers each input with none, one or several outputs. The
//! pipeline says what reaches the sink for any records the source hands
//! out, and how large the queue in front of each stage is to be; running
//! the stages on workers of their own is left to the caller.

use std::marker::PhantomData;
use vstd::prelude::*;
use crate::pipeline::run::{advance_all, lawful, lemma_every_run_drains, Run, Step};

pub mod run;

verus! {

/// A transform: it takes one record at a time and hands on what it makes
/// of it.
pub trait PipelineIntermediateStage<T> {
    /// What the stage hands downstream for `input`, in order. An empty
    /// sequence drops the record.
    open spec fn outputs(&self, input: T) -> Seq<T> {
        arbitrary::<spec_fn(&Self, T) -> Seq<T>>()(self, input)
    }

    /// Whether the stage takes `input`. A stage is given only records that
    /// it takes; unless it says otherwise, it takes every record.
    open spec fn accepts(&self, input: T) -> bool {
        true
    }

    /// What the stage promises of every record it hands on. Unless it says
    /// otherwise, it promises nothing.
    open spec fn yields(&self, output: T) -> bool {
        true
    }

    /// Whether this is the stage as `input` leaves it when it finds it as
    /// `before`: what the stage keeps of the records that pass through.
    open spec fn stepped(&self, before: &Self, input: T) -> bool {
        true
    }

    /// The room that the stage asks for on the queue that feeds it.
    open spec fn input_buffer_size(&self) -> usize {
        arbitrary::<spec_fn(&Self) -> usize>()(self)
    }

    /// Processes one record that the stage takes. What a stage hands on for
    /// a record does not depend on the records it has seen before, nor do
    /// the records it takes, what it promises, and the room it asks for.
    fn execute(&mut self, input: T) -> (out: Vec<T>)
        requires
            old(self).accepts(input),
        ensures
            out@ == old(self).outputs(input),
            forall|i: int| 0 <= i < out@.len() ==> old(self).yields(#[trigger] out@[i]),
            final(self).stepped(old(self), input),
            forall|next: T| #[trigger] final(self).outputs(next) == old(self).outputs(next),
            forall|next: T| #[trigger] final(self).accepts(next) == old(self).accepts(next),
            forall|next: T| #[trigger] final(self).yields(next) == old(self).yields(next),
            final(self).input_buffer_size() == old(self).input_buffer_size(),
    ;

    fn get_input_buffer_size(&self) -> (size: usize)
        ensures
            size == self.input_buffer_size(),
    ;

    /// Called once, when no more input will come: the place for what a
    /// stage does at the end of the stream. Nothing by default.
    fn finish(&mut self) {
    }
}

/// A sink: it takes each record that reaches the end of the pipeline.
pub trait PipelineStageConsumer<T> {
    /// Whether the sink takes `input`. A sink is given only records that it
    /// takes; unless it says otherwise, it takes every record.
    open spec fn takes(&self, input: T) -> bool {
        true
    }

    /// Whether this is the sink as `input` leaves it when it finds it as
    /// `before`.
    open spec fn consumed(&self, before: &Self, input: T) -> bool {
        true
    }

    /// The room that the sink asks for on the queue that feeds it.
    open spec fn input_buffer_size(&self) -> usize {
        arbitrary::<spec_fn(&Self) -> usize>()(self)
    }

    /// Takes one record that the sink takes.
    fn execute(&mut self, input: T)
        requires
            old(self).takes(input),
        ensures
            final(self).consumed(old(self), input),
            forall|next: T| #[trigger] final(self).takes(next) == old(self).takes(next),
            final(self).input_buffer_size() == old(self).input_buffer_size(),
    ;

    fn get_input_buffer_size(&self) -> (size: usize)
        ensures
            size == self.input_buffer_size(),
    ;

    /// Called once, when no more input will come: the place for a summary
    /// of what was taken. Nothing by default.
    fn finish(&mut self) {
    }
}

/// A source: it hands out the records that enter the pipeline.
pub trait PipelineStageProducer<T> {
    /// The next records of the source, or `None` once it has no more.
    fn execute(&mut self) -> Option<Vec<T>>;
}

/// A transform that may run on a worker of its own.
pub trait PipelineStep<T>: PipelineIntermediateStage<T> + Sync + Send {

}

/// A source that may run on a worker of its own.
pub trait PipelineProducer<T>: PipelineStageProducer<T> + Sync + Send {

}

/// A sink that may run on a worker of its own.
pub trait PipelineConsumer<T>: PipelineStageConsumer<T> + Sync + Send {

}

/// What `stage` hands on when it is given `inputs` one after the other.
pub open spec fn through<T, S: PipelineIntermediateStage<T>>(stage: S, inputs: Seq<T>) -> Seq<T>
    decreases inputs.len(),
{
    if inputs.len() == 0 {
        Seq::empty()
    } else {
        through(stage, inputs.drop_last()) + stage.outputs(inputs.last())
    }
}

/// What leaves the last of `stages` when `inputs` enter the first: each
/// stage is fed what the one before it hands on.
pub open spec fn flow<T, S: PipelineIntermediateStage<T>>(stages: Seq<S>, inputs: Seq<T>) -> Seq<T>
    decreases stages.len(),
{
    if stages.len() == 0 {
        inputs
    } else {
        through(stages.last(), flow(stages.drop_last(), inputs))
    }
}

/// How many of `inputs` the stage drops: those it answers with nothing.
pub open spec fn dropped<T, S: PipelineIntermediateStage<T>>(stage: S, inputs: Seq<T>) -> nat
    decreases inputs.len(),
{
    if inputs.len() == 0 {
        0
    } else {
        dropped(stage, inputs.drop_last()) + if stage.outputs(inputs.last()).len() == 0 {
            1nat
        } else {
            0nat
        }
    }
}

/// How many records the stage adds by fanning out: for each of `inputs`
/// that it answers, the outputs beyond the first.
pub open spec fn fanned_out<T, S: PipelineIntermediateStage<T>>(stage: S, inputs: Seq<T>) -> nat
    decreases inputs.len(),
{
    if inputs.len() == 0 {
        0
    } else {
        fanned_out(stage, inputs.drop_last()) + if stage.outputs(inputs.last()).len() == 0 {
            0nat
        } else {
            (stage.outputs(inputs.last()).len() - 1) as nat
        }
    }
}

/// The drops of all `stages` together, each counted on what reaches it.
pub open spec fn all_dropped<T, S: PipelineIntermediateStage<T>>(
    stages: Seq<S>,
    inputs: Seq<T>,
) -> nat
    decreases stages.len(),
{
    if stages.len() == 0 {
        0
    } else {
        all_dropped(stages.drop_last(), inputs) + dropped(
            stages.last(),
            flow(stages.drop_last(), inputs),
        )
    }
}

/// The records that all `stages` together add by fanning out.
pub open spec fn all_fanned_out<T, S: PipelineIntermediateStage<T>>(
    stages: Seq<S>,
    inputs: Seq<T>,
) -> nat
    decreases stages.len(),
{
    if stages.len() == 0 {
        0
    } else {
        all_fanned_out(stages.drop_last(), inputs) + fanned_out(
            stages.last(),
            flow(stages.drop_last(), inputs),
        )
    }
}

/// Whether `after` is the stage `before` once it has been given `inputs`
/// one after the other: each record left the stage as `stepped` says.
pub open spec fn walked<T, S: PipelineIntermediateStage<T>>(
    before: S,
    inputs: Seq<T>,
    after: S,
) -> bool
    decreases inputs.len(),
{
    if inputs.len() == 0 {
        after == before
    } else {
        exists|mid: S|
            walked(before, inputs.drop_last(), mid) && #[trigger] after.stepped(
                &mid,
                inputs.last(),
            )
    }
}

/// A stage that has been given some records and then one more has been
/// given them all.
pub proof fn lemma_walked_push<T, S: PipelineIntermediateStage<T>>(
    before: S,
    inputs: Seq<T>,
    mid: S,
    input: T,
    after: S,
)
    requires
        walked(before, inputs, mid),
        after.stepped(&mid, input),
    ensures
        walked(before, inputs.push(input), after),
{
    let all = inputs.push(input);
    assert(all.drop_last() =~= inputs);
    assert(all.last() == input);
    assert(walked(before, all.drop_last(), mid) && after.stepped(&mid, all.last()));
}

/// Whether `after` are the stages `before` once `inputs` have passed
/// through them: each stage has been given what the stages before it hand
/// on.
pub open spec fn all_walked<T, S: PipelineIntermediateStage<T>>(
    before: Seq<S>,
    inputs: Seq<T>,
    after: Seq<S>,
) -> bool {
    &&& after.len() == before.len()
    &&& forall|k: int|
        0 <= k < before.len() ==> walked(before[k], flow(before.take(k), inputs), #[trigger] after[k])
}

/// Whether two lists of stages hand on the same for every record, stage by
/// stage, take the same records and promise the same.
pub open spec fn same_routing<T, S: PipelineIntermediateStage<T>>(a: Seq<S>, b: Seq<S>) -> bool {
    &&& a.len() == b.len()
    &&& forall|i: int, x: T| 0 <= i < a.len() ==> #[trigger] a[i].outputs(x) == b[i].outputs(x)
    &&& forall|i: int, x: T| 0 <= i < a.len() ==> #[trigger] a[i].accepts(x) == b[i].accepts(x)
    &&& forall|i: int, x: T| 0 <= i < a.len() ==> #[trigger] a[i].yields(x) == b[i].yields(x)
}

/// Whether the stages fit one behind the other: each takes every record of
/// which the one before it promises what it promises.
pub open spec fn chained<T, S: PipelineIntermediateStage<T>>(stages: Seq<S>) -> bool {
    forall|k: int, x: T|
        0 <= k < stages.len() - 1 && #[trigger] stages[k].yields(x) ==> stages[k + 1].accepts(x)
}

/// Whether the stages take the record `record` at their head: the first
/// stage takes it, and the stages fit one behind the other.
pub open spec fn admitted<T, S: PipelineIntermediateStage<T>>(stages: Seq<S>, record: T) -> bool {
    chained(stages) && (stages.len() > 0 ==> stages[0].accepts(record))
}

/// A stage counts every input once: as handed on, as dropped, or as the
/// first of a fan-out.
pub proof fn lemma_stage_accounts_for_inputs<T, S: PipelineIntermediateStage<T>>(
    stage: S,
    inputs: Seq<T>,
)
    ensures
        through(stage, inputs).len() + dropped(stage, inputs) == inputs.len() + fanned_out(
            stage,
            inputs,
        ),
    decreases inputs.len(),
{
    if inputs.len() > 0 {
        lemma_stage_accounts_for_inputs(stage, inputs.drop_last());
    }
}

/// The pipeline drains fully: the records that reach the sink are those
/// that entered, plus those added by fan-out, minus those dropped.
pub proof fn lemma_flow_accounts_for_inputs<T, S: PipelineIntermediateStage<T>>(
    stages: Seq<S>,
    inputs: Seq<T>,
)
    ensures
        flow(stages, inputs).len() + all_dropped(stages, inputs) == inputs.len() + all_fanned_out(
            stages,
            inputs,
        ),
    decreases stages.len(),
{
    if stages.len() > 0 {
        lemma_flow_accounts_for_inputs(stages.drop_last(), inputs);
        lemma_stage_accounts_for_inputs(stages.last(), flow(stages.drop_last(), inputs));
    }
}

/// A stage treats a stream record by record: what it hands on for two
/// streams in a row is what it hands on for each, in a row.
pub proof fn lemma_through_concat<T, S: PipelineIntermediateStage<T>>(
    stage: S,
    a: Seq<T>,
    b: Seq<T>,
)
    ensures
        through(stage, a + b) == through(stage, a) + through(stage, b),
    decreases b.len(),
{
    if b.len() == 0 {
        assert(a + b =~= a);
        assert(through(stage, a) + through(stage, b) =~= through(stage, a));
    } else {
        assert((a + b).drop_last() =~= a + b.drop_last());
        assert((a + b).last() == b.last());
        lemma_through_concat(stage, a, b.drop_last());
        assert(through(stage, a + b) =~= through(stage, a) + through(stage, b));
    }
}

/// Order is kept and nothing waits on what comes later: what reaches the
/// sink for two streams in a row is what reaches it for each, in a row.
pub proof fn lemma_flow_concat<T, S: PipelineIntermediateStage<T>>(
    stages: Seq<S>,
    a: Seq<T>,
    b: Seq<T>,
)
    ensures
        flow(stages, a + b) == flow(stages, a) + flow(stages, b),
    decreases stages.len(),
{
    if stages.len() > 0 {
        lemma_flow_concat(stages.drop_last(), a, b);
        lemma_through_concat(
            stages.last(),
            flow(stages.drop_last(), a),
            flow(stages.drop_last(), b),
        );
    }
}

/// A stage that is registered last runs last.
pub proof fn lemma_flow_push<T, S: PipelineIntermediateStage<T>>(
    stages: Seq<S>,
    stage: S,
    inputs: Seq<T>,
)
    ensures
        flow(stages.push(stage), inputs) == through(stage, flow(stages, inputs)),
{
    assert(stages.push(stage).drop_last() =~= stages);
}

/// What a stage hands on for a stream depends only on what it hands on for
/// each record.
pub proof fn lemma_through_same_routing<T, S: PipelineIntermediateStage<T>>(
    a: S,
    b: S,
    inputs: Seq<T>,
)
    requires
        forall|x: T| #[trigger] a.outputs(x) == b.outputs(x),
    ensures
        through(a, inputs) == through(b, inputs),
    decreases inputs.len(),
{
    if inputs.len() > 0 {
        lemma_through_same_routing(a, b, inputs.drop_last());
    }
}

/// Stages that hand on the same, stage by stage, make the same pipeline.
pub proof fn lemma_flow_same_routing<T, S: PipelineIntermediateStage<T>>(
    a: Seq<S>,
    b: Seq<S>,
    inputs: Seq<T>,
)
    requires
        same_routing(a, b),
    ensures
        flow(a, inputs) == flow(b, inputs),
    decreases a.len(),
{
    if a.len() > 0 {
        assert(same_routing(a.drop_last(), b.drop_last())) by {
            assert forall|i: int, x: T| 0 <= i < a.drop_last().len() implies #[trigger] a.drop_last()[i].outputs(
                x,
            ) == b.drop_last()[i].outputs(x) by {
                assert(a[i].outputs(x) == b[i].outputs(x));
            }
        }
        lemma_flow_same_routing(a.drop_last(), b.drop_last(), inputs);
        assert forall|x: T| #[trigger] a.last().outputs(x) == b.last().outputs(x) by {
            assert(a[a.len() - 1].outputs(x) == b[a.len() - 1].outputs(x));
        }
        lemma_through_same_routing(a.last(), b.last(), flow(a.drop_last(), inputs));
    }
}

/// A pipeline under construction or ready to run: the source and the sink
/// that were chosen, and the transforms in the order of their registration.
pub struct Pipeline<T, P, S, C> {
    stages: Vec<S>,
    source: Option<P>,
    sink: Option<C>,
    record: PhantomData<T>,
}

impl<T, P: PipelineProducer<T>, S: PipelineStep<T>, C: PipelineConsumer<T>> Pipeline<T, P, S, C> {
    /// The transforms, in the order in which they run.
    pub closed spec fn stages(&self) -> Seq<S> {
        self.stages@
    }

    /// The source, if one has been set.
    pub closed spec fn source(&self) -> Option<P> {
        self.source
    }

    /// The sink, if one has been set.
    pub closed spec fn sink(&self) -> Option<C> {
        self.sink
    }

    /// What reaches the sink when the source hands out `inputs`.
    pub open spec fn delivers(&self, inputs: Seq<T>) -> Seq<T> {
        flow(self.stages(), inputs)
    }

    /// The room on each queue, in the order of the stages that the queues
    /// feed: one entry for each transform, then one for the sink. Each
    /// queue is as large as the stage that reads from it asks.
    pub open spec fn capacities(&self) -> Seq<usize>
        recommends
            self.sink() is Some,
    {
        Seq::new(
            self.stages().len() + 1,
            |i: int|
                if i < self.stages().len() {
                    self.stages()[i].input_buffer_size()
                } else {
                    self.sink()->0.input_buffer_size()
                },
        )
    }

    /// A pipeline with no source, no sink and no transform.
    pub fn new() -> (pipeline: Self)
        ensures
            pipeline.stages() == Seq::<S>::empty(),
            pipeline.source() is None,
            pipeline.sink() is None,
    {
        Pipeline { stages: Vec::new(), source: None, sink: None, record: PhantomData }
    }

    /// Chooses the source; one chosen earlier is replaced.
    pub fn set_source(&mut self, source: P)
        ensures
            final(self).source() == Some(source),
            final(self).sink() == old(self).sink(),
            final(self).stages() == old(self).stages(),
    {
        self.source = Some(source);
    }

    /// Chooses the sink; one chosen earlier is replaced.
    pub fn set_sink(&mut self, sink: C)
        ensures
            final(self).sink() == Some(sink),
            final(self).source() == old(self).source(),
            final(self).stages() == old(self).stages(),
    {
        self.sink = Some(sink);
    }

    /// Registers a transform behind those registered so far.
    pub fn push_stage(&mut self, stage: S)
        ensures
            final(self).stages() == old(self).stages().push(stage),
            final(self).source() == old(self).source(),
            final(self).sink() == old(self).sink(),
            forall|inputs: Seq<T>| #[trigger]
                final(self).delivers(inputs) == through(stage, old(self).delivers(inputs)),
    {
        self.stages.push(stage);
        proof {
            assert forall|inputs: Seq<T>| #[trigger]
                self.delivers(inputs) == through(stage, old(self).delivers(inputs)) by {
                lemma_flow_push(old(self).stages(), stage, inputs);
            }
        }
    }

    /// Whether a source has been set.
    pub fn has_source(&self) -> (set: bool)
        ensures
            set == self.source() is Some,
    {
        self.source.is_some()
    }

    /// Whether a sink has been set.
    pub fn has_sink(&self) -> (set: bool)
        ensures
            set == self.sink() is Some,
    {
        self.sink.is_some()
    }

    /// The number of transforms registered.
    pub fn stage_count(&self) -> (count: usize)
        ensures
            count == self.stages().len(),
    {
        self.stages.len()
    }

    /// The room to give each queue of a run: see `capacities`. A pipeline
    /// runs only with a source and a sink.
    pub fn queue_capacities(&self) -> (plan: Vec<usize>)
        requires
            self.source() is Some,
            self.sink() is Some,
        ensures
            plan@ == self.capacities(),
    {
        let mut plan: Vec<usize> = Vec::new();
        let mut i: usize = 0;
        while i < self.stages.len()
            invariant
                i <= self.stages@.len(),
                plan@.len() == i,
                forall|k: int| 0 <= k < i ==> plan@[k] == self.stages@[k].input_buffer_size(),
            decreases self.stages.len() - i,
        {
            plan.push(self.stages[i].get_input_buffer_size());
            i = i + 1;
        }
        match &self.sink {
            Some(sink) => {
                plan.push(sink.get_input_buffer_size());
            },
            None => {},
        }
        assert(plan@ =~= self.capacities());
        plan
    }

    /// Takes one record through every transform in turn and returns what
    /// reaches the sink for it, in order. The stages must fit one behind
    /// the other, and the first must take the record. Each transform has
    /// then been given what the transforms before it hand on for the
    /// record, and routes later records as it did before.
    pub fn process(&mut self, record: T) -> (out: Vec<T>)
        requires
            admitted(old(self).stages(), record),
        ensures
            out@ == old(self).delivers(seq![record]),
            all_walked(old(self).stages(), seq![record], final(self).stages()),
            same_routing(final(self).stages(), old(self).stages()),
            chained(final(self).stages()),
            final(self).source() == old(self).source(),
            final(self).sink() == old(self).sink(),
            forall|inputs: Seq<T>| #[trigger]
                final(self).delivers(inputs) == old(self).delivers(inputs),
    {
        let mut current: Vec<T> = Vec::new();
        current.push(record);
        let mut i: usize = 0;
        proof {
            assert(old(self).stages().take(0) =~= Seq::<S>::empty());
        }
        while i < self.stages.len()
            invariant
                i <= self.stages@.len(),
                self.stages@.len() == old(self).stages@.len(),
                same_routing(self.stages@, old(self).stages@),
                chained(old(self).stages@),
                forall|k: int|
                    0 <= k < i ==> walked(
                        old(self).stages@[k],
                        flow(old(self).stages@.take(k), seq![record]),
                        #[trigger] self.stages@[k],
                    ),
                forall|k: int|
                    i <= k < self.stages@.len() ==> #[trigger] self.stages@[k] == old(
                        self,
                    ).stages@[k],
                i < self.stages@.len() ==> forall|j: int|
                    0 <= j < current@.len() ==> old(self).stages@[i as int].accepts(
                        #[trigger] current@[j],
                    ),
                self.source == old(self).source,
                self.sink == old(self).sink,
                current@ == flow(old(self).stages@.take(i as int), seq![record]),
            decreases self.stages.len() - i,
        {
            let ghost entering = current@;
            let ghost stage_before = self.stages@[i as int];
            let ghost stages_before = self.stages@;
            let mut next: Vec<T> = Vec::new();
            proof {
                assert(entering.take(0) =~= Seq::<T>::empty());
            }
            for x in iter: current
                invariant
                    iter.seq() == entering,
                    i < self.stages@.len(),
                    self.stages@.len() == stages_before.len(),
                    forall|k: int|
                        0 <= k < stages_before.len() && k != i ==> self.stages@[k]
                            == stages_before[k],
                    forall|y: T| #[trigger]
                        self.stages@[i as int].outputs(y) == stage_before.outputs(y),
                    forall|y: T| #[trigger]
                        self.stages@[i as int].accepts(y) == stage_before.accepts(y),
                    forall|y: T| #[trigger]
                        self.stages@[i as int].yields(y) == stage_before.yields(y),
                    forall|j: int|
                        0 <= j < entering.len() ==> stage_before.accepts(#[trigger] entering[j]),
                    forall|m: int| 0 <= m < next@.len() ==> stage_before.yields(#[trigger] next@[m]),
                    self.source == old(self).source,
                    self.sink == old(self).sink,
                    next@ == through(stage_before, entering.take(iter.index())),
                    walked(stage_before, entering.take(iter.index()), self.stages@[i as int]),
            {
                let ghost stage_then = self.stages@[i as int];
                let ghost earlier = next@;
                proof {
                    let before = entering.take(iter.index());
                    let after = entering.take(iter.index() + 1);
                    assert(after.drop_last() =~= before);
                    assert(after.last() == x);
                    assert(x == entering[iter.index()]);
                    assert(stage_before.accepts(entering[iter.index()]));
                }
                let mut produced = self.stages[i].execute(x);
                let ghost made = produced@;
                next.append(&mut produced);
                proof {
                    lemma_walked_push(
                        stage_before,
                        entering.take(iter.index()),
                        stage_then,
                        x,
                        self.stages@[i as int],
                    );
                    assert(entering.take(iter.index()).push(x) =~= entering.take(
                        iter.index() + 1,
                    ));
                    assert forall|m: int| 0 <= m < next@.len() implies stage_before.yields(
                        #[trigger] next@[m],
                    ) by {
                        if m < earlier.len() {
                            assert(next@[m] == earlier[m]);
                        } else {
                            assert(next@[m] == made[m - earlier.len()]);
                            assert(stage_then.yields(made[m - earlier.len()]));
                        }
                    }
                }
            }
            proof {
                assert(entering.take(entering.len() as int) =~= entering);
                assert(stage_before == old(self).stages@[i as int]);
                assert forall|k: int| 0 <= k < i + 1 implies walked(
                    old(self).stages@[k],
                    flow(old(self).stages@.take(k), seq![record]),
                    #[trigger] self.stages@[k],
                ) by {
                    if k != i {
                        assert(self.stages@[k] == stages_before[k]);
                    }
                }
                assert forall|k: int| i + 1 <= k < self.stages@.len() implies #[trigger] self.stages@[k]
                    == old(self).stages@[k] by {
                    assert(self.stages@[k] == stages_before[k]);
                }
                let upto = old(self).stages@.take(i + 1);
                assert(upto.drop_last() =~= old(self).stages@.take(i as int));
                assert(upto.last() == old(self).stages@[i as int]);
                lemma_through_same_routing(stage_before, old(self).stages@[i as int], entering);
                assert forall|k: int, y: T| 0 <= k < self.stages@.len() implies #[trigger] self.stages@[k].outputs(
                    y,
                ) == old(self).stages@[k].outputs(y) by {
                    if k != i {
                        assert(stages_before[k].outputs(y) == old(self).stages@[k].outputs(y));
                    }
                }
                assert forall|k: int, y: T| 0 <= k < self.stages@.len() implies #[trigger] self.stages@[k].accepts(
                    y,
                ) == old(self).stages@[k].accepts(y) by {
                    if k != i {
                        assert(stages_before[k].accepts(y) == old(self).stages@[k].accepts(y));
                    }
                }
                assert forall|k: int, y: T| 0 <= k < self.stages@.len() implies #[trigger] self.stages@[k].yields(
                    y,
                ) == old(self).stages@[k].yields(y) by {
                    if k != i {
                        assert(stages_before[k].yields(y) == old(self).stages@[k].yields(y));
                    }
                }
                if i + 1 < self.stages@.len() {
                    assert forall|j: int| 0 <= j < next@.len() implies old(self).stages@[i
                        + 1].accepts(#[trigger] next@[j]) by {
                        assert(old(self).stages@[i as int].yields(next@[j]));
                    }
                }
            }
            current = next;
            i = i + 1;
        }
        proof {
            assert(old(self).stages@.take(old(self).stages@.len() as int) =~= old(self).stages@);
            assert forall|inputs: Seq<T>| #[trigger]
                self.delivers(inputs) == old(self).delivers(inputs) by {
                lemma_flow_same_routing(self.stages(), old(self).stages(), inputs);
            }
            assert forall|k: int, x: T|
                0 <= k < self.stages@.len() - 1 && #[trigger] self.stages@[k].yields(
                    x,
                ) implies self.stages@[k + 1].accepts(x) by {
                assert(old(self).stages@[k].yields(x));
                assert(self.stages@[k + 1].accepts(x) == old(self).stages@[k + 1].accepts(x));
            }
        }
        current
    }

    /// A run of this pipeline on workers of their own, with the queues that
    /// it plans, keeps every queue within its capacity however its moves
    /// fall, and once no move is left the sink has taken exactly what the
    /// pipeline delivers for the records of the source, whatever room the
    /// stages ask for.
    pub proof fn lemma_run_drains(&self, source: Seq<T>, steps: Seq<Step>)
        requires
            self.sink() is Some,
            lawful(
                Run::start(source, self.stages().len()),
                self.stages(),
                self.capacities(),
                steps,
            ),
        ensures
            advance_all(Run::start(source, self.stages().len()), self.stages(), steps).within(
                self.capacities(),
            ),
            advance_all(Run::start(source, self.stages().len()), self.stages(), steps).idle(
                self.capacities(),
            ) ==> advance_all(
                Run::start(source, self.stages().len()),
                self.stages(),
                steps,
            ).delivered == self.delivers(source),
    {
        lemma_every_run_drains(source, self.stages(), self.capacities(), steps);
    }

    /// Hands back the source, the transforms in their order, and the sink,
    /// for a caller that runs each on a worker of its own.
    pub fn into_parts(self) -> (parts: (Option<P>, Vec<S>, Option<C>))
        ensures
            parts.0 == self.source(),
            parts.1@ == self.stages(),
            parts.2 == self.sink(),
    {
        (self.source, self.stages, self.sink)
    }
}

} // verus!
