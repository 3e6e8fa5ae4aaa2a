use termgame::driver::{
    run_dynamic, run_static, run_tick, static_begin, static_step, tick_plan, Call, StepKind, TerminalGameDynamic, TerminalGameStatic,
    TickStep,
};
use termgame::event::{InputEvent, Key, MouseButton};
use termgame::filter::InputFilter;

struct Counter {
    count: u64,
    rendered: Vec<u64>,
    inputs: Vec<InputEvent>,
    log: Vec<&'static str>,
    limit: u64,
}

impl Counter {
    fn new(limit: u64) -> Counter {
        Counter { count: 0, rendered: Vec::new(), inputs: Vec::new(), log: Vec::new(), limit }
    }
}

impl TerminalGameDynamic for Counter {
    fn input(&mut self, e: InputEvent) {
        self.log.push("input");
        self.inputs.push(e);
    }
    fn update(&mut self) {
        self.log.push("update");
        self.count += 1;
    }
    fn render(&mut self, buff: &mut Vec<u8>) {
        self.log.push("render");
        self.rendered.push(self.count);
        buff.push(self.count as u8);
    }
    fn running(&self) -> bool {
        self.count < self.limit
    }
    fn fps(&self) -> u64 {
        10
    }
}

fn key(c: char) -> InputEvent {
    InputEvent::Key(Key::Char(c))
}

#[test]
fn each_count_rendered_once_in_order() {
    let mut g = Counter::new(100);
    let queues = vec![vec![key('a')], vec![], vec![key('b'), key('c')], vec![], vec![key('d')]];
    let mut out = Vec::new();
    let r = run_dynamic(&mut g, queues, &mut out);
    assert_eq!(r.ticks, 5);
    assert!(!r.stopped);
    assert_eq!(g.rendered, vec![1, 2, 3, 4, 5]);
    assert_eq!(out, vec![1, 2, 3, 4, 5]);
    assert_eq!(g.inputs, vec![key('a'), key('b'), key('c'), key('d')]);
}

#[test]
fn dynamic_run_stops_when_not_running() {
    let mut g = Counter::new(2);
    let mut out = Vec::new();
    let r = run_dynamic(&mut g, vec![vec![], vec![], vec![], vec![]], &mut out);
    assert_eq!(r.ticks, 2);
    assert!(r.stopped);
    assert_eq!(g.rendered, vec![1, 2]);
}

#[test]
fn tick_delivers_input_before_update_and_render() {
    let mut g = Counter::new(100);
    let mut buff = Vec::new();
    let played = run_tick(&mut g, vec![key('x'), key('y')], &mut buff);
    assert_eq!(
        played,
        vec![StepKind::Input, StepKind::Input, StepKind::Update, StepKind::Render, StepKind::Flush, StepKind::Pace]
    );
    assert_eq!(g.log, vec!["input", "input", "update", "render"]);
    assert_eq!(buff, vec![1]);
}

#[test]
fn tick_plan_orders_the_steps() {
    let plan = tick_plan(vec![key('q')]);
    assert_eq!(plan.len(), 5);
    assert!(matches!(&plan[0], TickStep::Input(InputEvent::Key(Key::Char('q')))));
    assert!(matches!(plan[1], TickStep::Update));
    assert!(matches!(plan[2], TickStep::Render));
    assert!(matches!(plan[3], TickStep::Flush));
    assert!(matches!(plan[4], TickStep::Pace));
    assert_eq!(tick_plan(Vec::new()).len(), 4);
}

struct Recorder {
    seen: Vec<InputEvent>,
    inits: u32,
    stop_after: usize,
}

impl TerminalGameStatic for Recorder {
    fn init(&mut self) {
        self.inits += 1;
    }
    fn update(&mut self, e: InputEvent, buff: &mut Vec<u8>) {
        buff.push(self.seen.len() as u8);
        self.seen.push(e);
    }
    fn running(&self) -> bool {
        self.seen.len() < self.stop_after
    }
}

#[test]
fn static_first_render_then_real_event() {
    let mut g = Recorder { seen: Vec::new(), inits: 0, stop_after: 100 };
    let mut out = Vec::new();
    let r = run_static(&mut g, vec![Some(key('z'))], &mut out);
    assert!(!r.stopped);
    assert_eq!(g.seen, vec![InputEvent::Unsupported(Vec::new()), key('z')]);
    assert_eq!(r.delivered.len(), 2);
    assert_eq!(r.consumed, 1);
    assert_eq!(g.inits, 1);
    assert_eq!(out, vec![0, 1]);
}

#[test]
fn static_run_filters_and_skips_failures() {
    let mut g = Recorder { seen: Vec::new(), inits: 0, stop_after: 100 };
    let mut out = Vec::new();
    let items = vec![
        None,
        Some(InputEvent::MousePress(MouseButton::Left, 1, 1)),
        Some(InputEvent::MouseHold(2, 1)),
        None,
        Some(InputEvent::MouseRelease(3, 1)),
        Some(key('k')),
    ];
    let r = run_static(&mut g, items, &mut out);
    assert_eq!(r.consumed, 6);
    assert_eq!(r.delivered.len(), 4);
    assert_eq!(
        g.seen,
        vec![
            InputEvent::Unsupported(Vec::new()),
            InputEvent::MousePress(MouseButton::Left, 1, 1),
            InputEvent::MouseRelease(3, 1),
            key('k'),
        ]
    );
}

#[test]
fn static_run_stops_when_not_running() {
    let mut g = Recorder { seen: Vec::new(), inits: 0, stop_after: 2 };
    let mut out = Vec::new();
    let r = run_static(&mut g, vec![Some(key('a')), Some(key('b')), Some(key('c'))], &mut out);
    assert_eq!(r.consumed, 1);
    assert_eq!(r.delivered.len(), 2);
    assert!(r.stopped);
    assert_eq!(g.seen.len(), 2);
}

#[test]
fn static_run_reads_one_item_even_when_not_running() {
    let mut g = Recorder { seen: Vec::new(), inits: 0, stop_after: 0 };
    let mut out = Vec::new();
    let r = run_static(&mut g, vec![Some(key('a')), Some(key('b'))], &mut out);
    assert_eq!(r.consumed, 1);
    assert_eq!(r.delivered.len(), 2);
    assert!(r.stopped);
    assert_eq!(g.inits, 1);
    assert_eq!(g.seen, vec![InputEvent::Unsupported(Vec::new()), key('a')]);
}

#[test]
fn static_run_on_empty_source_renders_once() {
    let mut g = Recorder { seen: Vec::new(), inits: 0, stop_after: 100 };
    let mut out = Vec::new();
    let r = run_static(&mut g, Vec::new(), &mut out);
    assert_eq!(r.consumed, 0);
    assert_eq!(r.delivered.len(), 1);
    assert!(!r.stopped);
    assert_eq!(out, vec![0]);
}

#[test]
fn dynamic_run_not_running_from_the_start() {
    let mut g = Counter::new(0);
    let mut out = Vec::new();
    let r = run_dynamic(&mut g, vec![vec![key('a')]], &mut out);
    assert_eq!(r.ticks, 0);
    assert!(r.stopped);
    assert!(g.rendered.is_empty());
    assert!(out.is_empty());
}

#[test]
fn static_calls_are_recorded_in_order() {
    let mut g = Recorder { seen: Vec::new(), inits: 0, stop_after: 100 };
    let mut out = Vec::new();
    let items = vec![
        Some(InputEvent::MousePress(MouseButton::Left, 1, 1)),
        Some(InputEvent::MouseHold(2, 1)),
        None,
        Some(InputEvent::MouseRelease(3, 1)),
    ];
    let r = run_static(&mut g, items, &mut out);
    assert_eq!(
        r.calls,
        vec![
            Call::Init,
            Call::Update,
            Call::Update,
            Call::Running(true),
            Call::Running(true),
            Call::Running(true),
            Call::Update,
            Call::Running(true),
        ]
    );
    assert_eq!(r.polls, vec![true, true, true, true]);
    assert_eq!(r.delivered, g.seen);
    assert_eq!(
        r.delivered,
        vec![
            InputEvent::Unsupported(Vec::new()),
            InputEvent::MousePress(MouseButton::Left, 1, 1),
            InputEvent::MouseRelease(3, 1),
        ]
    );
}

#[test]
fn static_begin_hands_out_the_sentinel() {
    let mut g = Recorder { seen: Vec::new(), inits: 0, stop_after: 100 };
    let mut buff = Vec::new();
    let (calls, first) = static_begin(&mut g, &mut buff);
    assert_eq!(calls, vec![Call::Init, Call::Update]);
    assert_eq!(first, InputEvent::Unsupported(Vec::new()));
    assert_eq!(g.inits, 1);
    assert_eq!(g.seen, vec![InputEvent::Unsupported(Vec::new())]);
    assert_eq!(buff, vec![0]);
}

#[test]
fn static_step_hands_the_filtered_event() {
    let mut g = Recorder { seen: Vec::new(), inits: 0, stop_after: 100 };
    let mut f = InputFilter::new();
    let mut buff = Vec::new();
    let press = InputEvent::MousePress(MouseButton::Right, 4, 5);
    assert_eq!(static_step(&mut g, &mut f, Some(press.clone()), &mut buff), Some(press.clone()));
    assert_eq!(static_step(&mut g, &mut f, Some(key('m')), &mut buff), None);
    assert_eq!(static_step(&mut g, &mut f, None, &mut buff), None);
    assert!(f.dragging);
    assert_eq!(g.seen, vec![press]);
}

#[test]
fn dynamic_calls_are_recorded_in_order() {
    let mut g = Counter::new(1);
    let mut out = Vec::new();
    let r = run_dynamic(&mut g, vec![vec![key('a')], vec![]], &mut out);
    assert_eq!(r.ticks, 1);
    assert!(r.stopped);
    assert_eq!(
        r.calls,
        vec![
            Call::Init,
            Call::Running(true),
            Call::Step(StepKind::Input),
            Call::Step(StepKind::Update),
            Call::Step(StepKind::Render),
            Call::Step(StepKind::Flush),
            Call::Step(StepKind::Pace),
            Call::Running(false),
        ]
    );
}
