use vstd::prelude::*;
use crate::event::{events_view, sentinel_view, EventView, InputEvent};
use crate::filter::{filter_output, filter_state, filter_step, lemma_filter_push, opt_seq, InputFilter};

verus! {

/// A program driven at a fixed cadence: each tick delivers the pending
/// input, advances the state once and renders once.
pub trait TerminalGameDynamic {
    fn init(&mut self) {
    }

    fn input(&mut self, e: InputEvent);

    fn update(&mut self);

    fn render(&mut self, buff: &mut Vec<u8>);

    fn running(&self) -> bool;

    /// Target frames per second.
    fn fps(&self) -> u64;
}

/// A program that renders only in response to input.
pub trait TerminalGameStatic {
    fn init(&mut self) {
    }

    fn update(&mut self, e: InputEvent, buff: &mut Vec<u8>);

    fn running(&self) -> bool;
}

/// A part of a program that can be updated and rendered on its own.
pub trait GameObject {
    fn input(&mut self, _e: &InputEvent) {
    }

    fn update(&mut self) {
    }

    fn render(&mut self, _buff: &mut Vec<u8>) {
    }
}

/// One step of a tick of the dynamic driver.
#[derive(Debug)]
pub enum TickStep {
    Input(InputEvent),
    Update,
    Render,
    Flush,
    Pace,
}

/// The steps of one tick: every queued event in arrival order, then one
/// update, one render, the flush of the output and the pacing.
pub open spec fn tick_steps(queued: Seq<InputEvent>) -> Seq<TickStep> {
    queued.map_values(|e: InputEvent| TickStep::Input(e)) + seq![
        TickStep::Update,
        TickStep::Render,
        TickStep::Flush,
        TickStep::Pace,
    ]
}

/// The steps of consecutive ticks, each with the events queued before it.
pub open spec fn ticks_steps(queues: Seq<Seq<InputEvent>>) -> Seq<TickStep>
    decreases queues.len(),
{
    if queues.len() == 0 {
        Seq::empty()
    } else {
        ticks_steps(queues.drop_last()) + tick_steps(queues.last())
    }
}

/// The order of one tick of the dynamic driver.
pub fn tick_plan(queued: Vec<InputEvent>) -> (r: Vec<TickStep>)
    ensures
        r@ == tick_steps(queued@),
{
    let ghost all = queued@;
    let mut rest = queued;
    let mut r: Vec<TickStep> = Vec::new();
    while rest.len() > 0
        invariant
            all == all.take(all.len() - rest@.len()) + rest@,
            rest@.len() <= all.len(),
            r@ == all.take(all.len() - rest@.len()).map_values(|e: InputEvent| TickStep::Input(e)),
        decreases rest.len(),
    {
        let ghost n = all.len() - rest@.len();
        let ghost before = rest@;
        let e = rest.remove(0);
        assert(all[n] == e) by {
            assert(all == all.take(n) + before);
        }
        r.push(TickStep::Input(e));
        assert(all.take(n + 1) =~= all.take(n).push(all[n]));
        assert(all == all.take(n + 1) + rest@) by {
            assert(all.take(n + 1) + rest@ =~= all.take(n) + before);
        }
        assert(r@ =~= all.take(n + 1).map_values(|e: InputEvent| TickStep::Input(e)));
    }
    assert(all.take(all.len() as int) =~= all);
    r.push(TickStep::Update);
    r.push(TickStep::Render);
    r.push(TickStep::Flush);
    r.push(TickStep::Pace);
    assert(r@ =~= tick_steps(all));
    r
}

/// What kind of step a tick step is.
#[derive(Clone, Copy, Debug, PartialEq, Eq, Structural)]
pub enum StepKind {
    Input,
    Update,
    Render,
    Flush,
    Pace,
}

pub open spec fn kind_of(step: TickStep) -> StepKind {
    match step {
        TickStep::Input(_) => StepKind::Input,
        TickStep::Update => StepKind::Update,
        TickStep::Render => StepKind::Render,
        TickStep::Flush => StepKind::Flush,
        TickStep::Pace => StepKind::Pace,
    }
}

/// Plays one tick on the program in the order of `tick_plan`: delivers the
/// queued events in arrival order, then updates and renders once. Flushing
/// the output and pacing are left to the caller: the `Flush` and `Pace`
/// entries of the result only mark where they come. Returns the kind of each
/// step in order, each program call made in the arm that records it.
pub fn run_tick<G: TerminalGameDynamic>(game: &mut G, queued: Vec<InputEvent>, buff: &mut Vec<u8>) -> (played: Vec<StepKind>)
    ensures
        played@ == tick_steps(queued@).map_values(|s: TickStep| kind_of(s)),
{
    let mut plan = tick_plan(queued);
    let ghost full = plan@;
    let mut played: Vec<StepKind> = Vec::new();
    while plan.len() > 0
        invariant
            plan@.len() <= full.len(),
            plan@ == full.skip(full.len() - plan@.len()),
            played@ == full.take(full.len() - plan@.len()).map_values(|s: TickStep| kind_of(s)),
        decreases plan.len(),
    {
        let ghost k = full.len() - plan@.len();
        let step = plan.remove(0);
        assert(step == full[k]);
        let kind = match step {
            TickStep::Input(e) => {
                game.input(e);
                StepKind::Input
            },
            TickStep::Update => {
                game.update();
                StepKind::Update
            },
            TickStep::Render => {
                game.render(buff);
                StepKind::Render
            },
            TickStep::Flush => StepKind::Flush,
            TickStep::Pace => StepKind::Pace,
        };
        played.push(kind);
        assert(full.take(k + 1) =~= full.take(k).push(full[k]));
        assert(plan@ =~= full.skip(k + 1));
        assert(played@ =~= full.take(k + 1).map_values(|s: TickStep| kind_of(s)));
    }
    assert(full.take(full.len() as int) =~= full);
    played
}

/// The events among the items of an input source, where `None` is an item
/// that failed to decode.
pub open spec fn decoded(items: Seq<Option<InputEvent>>) -> Seq<InputEvent>
    decreases items.len(),
{
    if items.len() == 0 {
        Seq::empty()
    } else {
        decoded(items.drop_last()) + opt_seq(items.last())
    }
}

/// A call that a driver makes on the program, other than a tick step.
#[derive(Clone, Copy, Debug, PartialEq, Eq, Structural)]
pub enum Call {
    Init,
    Update,
    /// A poll of `running`, with its answer.
    Running(bool),
    /// One step of a tick of the dynamic driver.
    Step(StepKind),
}

/// Whether the item at `i` reaches `update`, after the items before it.
pub open spec fn item_delivers(items: Seq<Option<InputEvent>>, i: int) -> bool {
    match items[i] {
        Some(e) => filter_step(filter_state(false, decoded(items.take(i))), e).1 is Some,
        None => false,
    }
}

/// The calls of a static driver that took `items` and got the answers
/// `polls` from `running`: `init`, the first `update`, then for each item
/// an `update` if it survives the filter, and a poll of `running`.
pub open spec fn static_calls(items: Seq<Option<InputEvent>>, polls: Seq<bool>) -> Seq<Call>
    decreases items.len(),
{
    if items.len() == 0 || polls.len() != items.len() {
        seq![Call::Init, Call::Update]
    } else {
        static_calls(items.drop_last(), polls.drop_last()) + (if item_delivers(items, items.len() - 1) {
            seq![Call::Update]
        } else {
            Seq::empty()
        }) + seq![Call::Running(polls.last())]
    }
}

/// The value of an optional event.
pub open spec fn opt_view(o: Option<InputEvent>) -> Option<EventView> {
    match o {
        Some(e) => Some(e@),
        None => None,
    }
}

/// Starts a static program: `init`, then one `update` with the empty
/// unsupported event, which forces the first render into `buff`. Returns
/// the calls made and a copy of the event handed to `update`.
pub fn static_begin<G: TerminalGameStatic>(game: &mut G, buff: &mut Vec<u8>) -> (r: (Vec<Call>, InputEvent))
    ensures
        r.0@ == seq![Call::Init, Call::Update],
        r.1@ == sentinel_view(),
{
    let mut calls: Vec<Call> = Vec::new();
    game.init();
    calls.push(Call::Init);
    let e = InputEvent::sentinel();
    let first = e.duplicate();
    game.update(e, buff);
    calls.push(Call::Update);
    assert(calls@ =~= seq![Call::Init, Call::Update]);
    (calls, first)
}

/// Handles one item of the input source for a static program: an item that
/// failed to decode is skipped; an event goes through the filter and, if it
/// survives, to `update`. Returns a copy of the event handed to `update`.
pub fn static_step<G: TerminalGameStatic>(
    game: &mut G,
    filter: &mut InputFilter,
    item: Option<InputEvent>,
    buff: &mut Vec<u8>,
) -> (delivered: Option<InputEvent>)
    ensures
        match item {
            Some(e) => final(filter).dragging == filter_step(old(filter).dragging, e).0
                && opt_view(delivered) == opt_view(filter_step(old(filter).dragging, e).1),
            None => final(filter).dragging == old(filter).dragging && delivered is None,
        },
{
    match item {
        Some(e) => match filter.filter(e) {
            Some(f) => {
                let copy = f.duplicate();
                game.update(f, buff);
                Some(copy)
            },
            None => None,
        },
        None => None,
    }
}

/// What a run of a static program over a finite input source did.
pub struct StaticRun {
    /// How many items of the source were taken.
    pub consumed: usize,
    /// Whether the program stopped running before the source was exhausted.
    pub stopped: bool,
    /// The answers of `running`, one after each item taken.
    pub polls: Vec<bool>,
    /// The calls made on the program, in order.
    pub calls: Vec<Call>,
    /// Copies of the events handed to `update`, in order.
    pub delivered: Vec<InputEvent>,
}

/// Runs a static program over a finite input source, appending everything
/// it renders to `out`. It stops when the source is exhausted or when
/// `running`, which is asked after each item, answers false.
pub fn run_static<G: TerminalGameStatic>(game: &mut G, items: Vec<Option<InputEvent>>, out: &mut Vec<u8>) -> (r: StaticRun)
    requires
        items@.len() < usize::MAX,
    ensures
        r.consumed <= items@.len(),
        items@.len() > 0 ==> r.consumed >= 1,
        r.polls@.len() == r.consumed,
        forall|i: int| 0 <= i < r.consumed - 1 ==> r.polls@[i],
        r.stopped == (r.consumed > 0 && !r.polls@[r.consumed - 1]),
        !r.stopped ==> r.consumed == items@.len(),
        r.calls@ == static_calls(items@.take(r.consumed as int), r.polls@),
        events_view(r.delivered@) == seq![sentinel_view()] + events_view(
            filter_output(false, decoded(items@.take(r.consumed as int))),
        ),
{
    let ghost all = items@;
    let mut buff: Vec<u8> = Vec::new();
    let (mut calls, first) = static_begin(game, &mut buff);
    out.append(&mut buff);
    let mut delivered: Vec<InputEvent> = Vec::new();
    delivered.push(first);
    let mut polls: Vec<bool> = Vec::new();
    let mut filter = InputFilter::new();
    let mut rest = items;
    let mut consumed: usize = 0;
    let mut stop = false;
    let total = rest.len();
    assert(all.take(0) =~= Seq::<Option<InputEvent>>::empty());
    assert(events_view(delivered@) =~= seq![sentinel_view()] + events_view(Seq::<InputEvent>::empty()));
    while !stop && rest.len() > 0
        invariant
            consumed <= all.len(),
            all.len() == total,
            total < usize::MAX,
            rest@ == all.skip(consumed as int),
            filter.dragging == filter_state(false, decoded(all.take(consumed as int))),
            polls@.len() == consumed,
            forall|i: int| 0 <= i < consumed - 1 ==> polls@[i],
            stop == (consumed > 0 && !polls@[consumed - 1]),
            calls@ == static_calls(all.take(consumed as int), polls@),
            events_view(delivered@) == seq![sentinel_view()] + events_view(
                filter_output(false, decoded(all.take(consumed as int))),
            ),
        decreases rest.len(),
    {
        let ghost k = consumed as int;
        let ghost before = decoded(all.take(k));
        let ghost out_before = filter_output(false, before);
        let ghost calls_before = calls@;
        let ghost polls_before = polls@;
        let item = rest.remove(0);
        assert(item == all[k]);
        assert(all.take(k + 1).drop_last() =~= all.take(k));
        assert(all.take(k + 1).take(k) =~= all.take(k));
        assert(all.take(k + 1)[k] == all[k]);
        assert(decoded(all.take(k + 1)) == before + opt_seq(all[k]));
        proof {
            match all[k] {
                Some(e) => {
                    assert(before + opt_seq(all[k]) =~= before.push(e));
                    lemma_filter_push(false, before, e);
                },
                None => {
                    assert(before + opt_seq(all[k]) =~= before);
                },
            }
        }
        let d = static_step(game, &mut filter, item, &mut buff);
        let ghost out_after = filter_output(false, decoded(all.take(k + 1)));
        match d {
            Some(e) => {
                calls.push(Call::Update);
                let ghost ev = delivered@;
                delivered.push(e);
                out.append(&mut buff);
                proof {
                    let x = all[k]->Some_0;
                    assert(out_after == out_before + seq![filter_step(filter_state(false, before), x).1->Some_0]);
                    assert(events_view(delivered@) =~= events_view(ev).push(e@));
                    assert(events_view(out_after) =~= events_view(out_before).push(e@));
                }
            },
            None => {
                proof {
                    match all[k] {
                        Some(x) => {
                            assert(out_after =~= out_before);
                        },
                        None => {
                            assert(out_after =~= out_before);
                        },
                    }
                }
            },
        }
        let answer = game.running();
        calls.push(Call::Running(answer));
        polls.push(answer);
        consumed = consumed + 1;
        if !answer {
            stop = true;
        }
        proof {
            let t = all.take(k + 1);
            assert(t.drop_last() =~= all.take(k));
            assert(polls@.drop_last() =~= polls_before);
            assert(item_delivers(t, k) == (d is Some));
            assert(calls@ =~= static_calls(t, polls@));
        }
        assert(rest@ =~= all.skip(consumed as int));
    }
    StaticRun { consumed, stopped: stop, polls, calls, delivered }
}

/// The calls of a dynamic driver over `queues`, each tick preceded by a
/// poll of `running` that answered true: `init`, then for each tick the
/// poll and the steps of the tick, and a last poll that answered false if
/// the program stopped.
pub open spec fn dynamic_calls(queues: Seq<Seq<InputEvent>>, stopped: bool) -> Seq<Call> {
    seq![Call::Init] + ticks_calls(queues) + if stopped {
        seq![Call::Running(false)]
    } else {
        Seq::empty()
    }
}

/// The calls of consecutive ticks, each preceded by a poll that answered true.
pub open spec fn ticks_calls(queues: Seq<Seq<InputEvent>>) -> Seq<Call>
    decreases queues.len(),
{
    if queues.len() == 0 {
        Seq::empty()
    } else {
        ticks_calls(queues.drop_last()) + seq![Call::Running(true)] + tick_steps(queues.last()).map_values(
            |s: TickStep| Call::Step(kind_of(s)),
        )
    }
}

/// The contents of each queue.
pub open spec fn queues_view(queues: Seq<Vec<InputEvent>>) -> Seq<Seq<InputEvent>> {
    queues.map_values(|q: Vec<InputEvent>| q@)
}

/// What a run of a dynamic program over a finite sequence of ticks did.
pub struct DynamicRun {
    /// How many ticks were run.
    pub ticks: usize,
    /// Whether the program stopped running before the last tick was reached.
    pub stopped: bool,
    /// The calls made on the program, in order; `Flush` and `Pace` steps
    /// mark where the caller's part of each tick comes.
    pub calls: Vec<Call>,
}

/// Runs a dynamic program for at most one tick per entry of `queues`, each
/// entry holding the events that arrive before that tick, and appends what
/// each tick renders to `out`. It stops early when `running`, which is
/// asked before each tick, answers false.
pub fn run_dynamic<G: TerminalGameDynamic>(game: &mut G, queues: Vec<Vec<InputEvent>>, out: &mut Vec<u8>) -> (r: DynamicRun)
    ensures
        r.ticks <= queues@.len(),
        !r.stopped ==> r.ticks == queues@.len(),
        r.stopped ==> r.ticks < queues@.len(),
        r.calls@ == dynamic_calls(queues_view(queues@.take(r.ticks as int)), r.stopped),
{
    let ghost all = queues@;
    let mut calls: Vec<Call> = Vec::new();
    game.init();
    calls.push(Call::Init);
    let mut buff: Vec<u8> = Vec::new();
    let mut rest = queues;
    let n = rest.len();
    let mut ticks: usize = 0;
    let mut stop = false;
    assert(queues_view(all.take(0)) =~= Seq::<Seq<InputEvent>>::empty());
    assert(calls@ =~= seq![Call::Init] + ticks_calls(queues_view(all.take(0))));
    while !stop && rest.len() > 0
        invariant
            ticks + rest@.len() == n,
            n == all.len(),
            rest@ == all.skip(ticks as int),
            stop ==> rest@.len() > 0,
            calls@ == seq![Call::Init] + ticks_calls(queues_view(all.take(ticks as int))) + if stop {
                seq![Call::Running(false)]
            } else {
                Seq::<Call>::empty()
            },
        decreases rest@.len() + if stop { 0int } else { 1int },
    {
        let ghost before = calls@;
        if game.running() {
            calls.push(Call::Running(true));
            let queued = rest.remove(0);
            assert(queued == all[ticks as int]);
            let played = run_tick(game, queued, &mut buff);
            let mut i: usize = 0;
            let ghost mid = calls@;
            while i < played.len()
                invariant
                    i <= played@.len(),
                    calls@ == mid + played@.take(i as int).map_values(|k: StepKind| Call::Step(k)),
                decreases played.len() - i,
            {
                calls.push(Call::Step(played[i]));
                i = i + 1;
                assert(played@.take(i as int) =~= played@.take(i - 1).push(played@[i - 1]));
                assert(calls@ =~= mid + played@.take(i as int).map_values(|k: StepKind| Call::Step(k)));
            }
            out.append(&mut buff);
            proof {
                let t = ticks as int;
                let qv = queues_view(all.take(t + 1));
                assert(qv.drop_last() =~= queues_view(all.take(t)));
                assert(qv.last() == all[t]@);
                assert(played@.take(played@.len() as int) =~= played@);
                assert(played@.map_values(|k: StepKind| Call::Step(k)) =~= tick_steps(all[t]@).map_values(
                    |s: TickStep| Call::Step(kind_of(s)),
                ));
                assert(before =~= seq![Call::Init] + ticks_calls(queues_view(all.take(t))));
                assert(calls@ =~= seq![Call::Init] + ticks_calls(qv) + Seq::<Call>::empty());
            }
            ticks = ticks + 1;
            assert(rest@ =~= all.skip(ticks as int));
        } else {
            calls.push(Call::Running(false));
            stop = true;
        }
    }
    DynamicRun { ticks, stopped: stop, calls }
}

/// A program whose update counts ticks and whose render records the count:
/// the counter and the record after `steps`, starting from counter `c`.
pub open spec fn counter_run(steps: Seq<TickStep>, c: int) -> (int, Seq<int>)
    decreases steps.len(),
{
    if steps.len() == 0 {
        (c, Seq::empty())
    } else {
        let (n, rec) = counter_run(steps.drop_last(), c);
        match steps.last() {
            TickStep::Update => (n + 1, rec),
            TickStep::Render => (n, rec.push(n)),
            _ => (n, rec),
        }
    }
}

proof fn lemma_counter_run_concat(a: Seq<TickStep>, b: Seq<TickStep>, c: int)
    ensures
        counter_run(a + b, c) == ({
            let (n, ra) = counter_run(a, c);
            let (m, rb) = counter_run(b, n);
            (m, ra + rb)
        }),
    decreases b.len(),
{
    if b.len() == 0 {
        assert(a + b =~= a);
        assert(counter_run(a, c).1 + Seq::<int>::empty() =~= counter_run(a, c).1);
    } else {
        assert((a + b).drop_last() =~= a + b.drop_last());
        lemma_counter_run_concat(a, b.drop_last(), c);
        let (n, ra) = counter_run(a, c);
        let (m, rb) = counter_run(b.drop_last(), n);
        assert((ra + rb).push(m) =~= ra + rb.push(m));
    }
}

proof fn lemma_counter_ignores_input(q: Seq<InputEvent>, c: int)
    ensures
        counter_run(q.map_values(|e: InputEvent| TickStep::Input(e)), c) == (c, Seq::<int>::empty()),
    decreases q.len(),
{
    let s = q.map_values(|e: InputEvent| TickStep::Input(e));
    if q.len() > 0 {
        assert(s.drop_last() =~= q.drop_last().map_values(|e: InputEvent| TickStep::Input(e)));
        lemma_counter_ignores_input(q.drop_last(), c);
        assert(s.last() is Input);
    }
}

proof fn lemma_counter_one_tick(q: Seq<InputEvent>, c: int)
    ensures
        counter_run(tick_steps(q), c) == (c + 1, seq![c + 1]),
{
    let ins = q.map_values(|e: InputEvent| TickStep::Input(e));
    let tail = seq![TickStep::Update, TickStep::Render, TickStep::Flush, TickStep::Pace];
    lemma_counter_run_concat(ins, tail, c);
    lemma_counter_ignores_input(q, c);
    let t3 = tail.drop_last();
    let t2 = t3.drop_last();
    let t1 = t2.drop_last();
    assert(t3 =~= seq![TickStep::Update, TickStep::Render, TickStep::Flush]);
    assert(t2 =~= seq![TickStep::Update, TickStep::Render]);
    assert(t1 =~= seq![TickStep::Update]);
    assert(t1.drop_last() =~= Seq::<TickStep>::empty());
    assert(counter_run(t1.drop_last(), c) == (c, Seq::<int>::empty()));
    assert(t1.last() is Update);
    assert(t2.last() is Render);
    assert(t3.last() is Flush);
    assert(tail.last() is Pace);
    assert(counter_run(t1, c) == (c + 1, Seq::<int>::empty()));
    assert(Seq::<int>::empty().push(c + 1) =~= seq![c + 1]);
    assert(counter_run(t2, c) == (c + 1, seq![c + 1]));
    assert(counter_run(t3, c) == (c + 1, seq![c + 1]));
    assert(Seq::<int>::empty() + seq![c + 1] =~= seq![c + 1]);
}

/// Over any number of ticks, with any input queued before each, a program
/// whose update increments a counter and whose render records it sees each
/// counter value rendered exactly once, in increasing order, none skipped.
pub proof fn lemma_ticks_render_each_count_once(queues: Seq<Seq<InputEvent>>)
    ensures
        counter_run(ticks_steps(queues), 0) == (queues.len() as int, Seq::new(queues.len(), |i: int| i + 1)),
    decreases queues.len(),
{
    if queues.len() > 0 {
        let init = queues.drop_last();
        lemma_ticks_render_each_count_once(init);
        lemma_counter_run_concat(ticks_steps(init), tick_steps(queues.last()), 0);
        lemma_counter_one_tick(queues.last(), init.len() as int);
        assert(Seq::new(init.len(), |i: int| i + 1) + seq![init.len() as int + 1] =~= Seq::new(
            queues.len(),
            |i: int| i + 1,
        ));
    }
}

} // verus!
