use std::cell::RefCell;
use std::rc::Rc;

use webscreen::capture::CaptureError;
use webscreen::provider::{FrameCell, GetScreen, ScreenProvider, SubscribeScreen};
use webscreen::registry::{Registry, Sink, UpdateScreen};

#[derive(Clone)]
struct Recorder {
    received: Rc<RefCell<Vec<Vec<u8>>>>,
    failing: Rc<RefCell<bool>>,
}

impl Recorder {
    fn new() -> Recorder {
        Recorder { received: Rc::new(RefCell::new(Vec::new())), failing: Rc::new(RefCell::new(false)) }
    }

    fn failing() -> Recorder {
        let r = Recorder::new();
        *r.failing.borrow_mut() = true;
        r
    }

    fn frames(&self) -> Vec<Vec<u8>> {
        self.received.borrow().clone()
    }
}

impl Sink for Recorder {
    fn deliver(&self, frame: &UpdateScreen) -> bool {
        if *self.failing.borrow() {
            return false;
        }
        self.received.borrow_mut().push(frame.0.clone());
        true
    }
}

/// Counts how often the capture worker would run.
struct SpyWorker {
    calls: usize,
    frames: Vec<Result<Vec<u8>, CaptureError>>,
}

impl SpyWorker {
    fn capture(&mut self) -> Result<Vec<u8>, CaptureError> {
        let r = self.frames[self.calls].clone();
        self.calls += 1;
        r
    }
}

fn tick(p: &mut ScreenProvider<Recorder>, w: &mut SpyWorker) -> Option<Vec<bool>> {
    if p.update() {
        let result = w.capture();
        p.handle_capture(result)
    } else {
        None
    }
}

#[test]
fn new_provider_holds_placeholder() {
    let p: ScreenProvider<Recorder> = ScreenProvider::new(100);
    assert_eq!(p.interval(), 100);
    assert_eq!(p.subscriber_count(), 0);
    assert!(!p.is_capturing());
    assert_eq!(p.handle_get_screen(GetScreen).0, vec![0u8]);
}

#[test]
fn no_idle_capture() {
    let mut p: ScreenProvider<Recorder> = ScreenProvider::new(100);
    let mut w = SpyWorker { calls: 0, frames: vec![Ok(vec![1u8])] };
    for _ in 0..10 {
        assert_eq!(tick(&mut p, &mut w), None);
    }
    assert_eq!(w.calls, 0);
}

#[test]
fn immediate_replay_of_current_frame() {
    let mut p: ScreenProvider<Recorder> = ScreenProvider::new(100);
    let first = Recorder::new();
    assert!(p.handle_subscribe(SubscribeScreen(first.clone())));
    assert!(p.update());
    p.handle_capture(Ok(vec![7u8, 7, 7]));
    let late = Recorder::new();
    assert!(p.handle_subscribe(SubscribeScreen(late.clone())));
    assert_eq!(late.frames(), vec![vec![7u8, 7, 7]]);
    assert_eq!(p.subscriber_count(), 2);
    assert_eq!(p.handle_get_screen(GetScreen).0, vec![7u8, 7, 7]);
}

#[test]
fn failed_replay_does_not_subscribe() {
    let mut p: ScreenProvider<Recorder> = ScreenProvider::new(100);
    assert!(!p.handle_subscribe(SubscribeScreen(Recorder::failing())));
    assert_eq!(p.subscriber_count(), 0);
}

#[test]
fn at_most_one_delivery_per_tick() {
    let mut p: ScreenProvider<Recorder> = ScreenProvider::new(100);
    let sinks = vec![Recorder::new(), Recorder::new()];
    for s in &sinks {
        p.handle_subscribe(SubscribeScreen(s.clone()));
    }
    let mut w = SpyWorker {
        calls: 0,
        frames: vec![Ok(vec![1u8]), Err(CaptureError::Unavailable), Ok(vec![3u8]), Ok(vec![4u8])],
    };
    for _ in 0..4 {
        tick(&mut p, &mut w);
    }
    for s in &sinks {
        // the replay on subscribing, then one frame per successful capture
        assert_eq!(s.frames(), vec![vec![0u8], vec![1u8], vec![3u8], vec![4u8]]);
    }
}

#[test]
fn overlapping_capture_is_not_requested() {
    let mut p: ScreenProvider<Recorder> = ScreenProvider::new(100);
    p.handle_subscribe(SubscribeScreen(Recorder::new()));
    assert!(p.update());
    assert!(!p.update());
    assert!(!p.update());
    assert!(p.handle_capture(Ok(vec![5u8])).is_some());
    assert!(p.update());
}

#[test]
fn stray_answer_is_ignored() {
    let mut p: ScreenProvider<Recorder> = ScreenProvider::new(100);
    let s = Recorder::new();
    p.handle_subscribe(SubscribeScreen(s.clone()));
    assert_eq!(p.handle_capture(Ok(vec![9u8])), None);
    assert_eq!(p.handle_get_screen(GetScreen).0, vec![0u8]);
    assert_eq!(s.frames(), vec![vec![0u8]]);
}

#[test]
fn prune_on_failure() {
    let mut p: ScreenProvider<Recorder> = ScreenProvider::new(100);
    let good = Recorder::new();
    let bad = Recorder::new();
    p.handle_subscribe(SubscribeScreen(good.clone()));
    assert!(p.handle_subscribe(SubscribeScreen(bad.clone())));
    assert_eq!(p.subscriber_count(), 2);
    *bad.failing.borrow_mut() = true;
    assert!(p.update());
    let ok = p.handle_capture(Ok(vec![2u8])).unwrap();
    assert_eq!(ok, vec![true, false]);
    assert_eq!(p.subscriber_count(), 1);
    // the dropped sink is never offered a frame again
    *bad.failing.borrow_mut() = false;
    assert!(p.update());
    p.handle_capture(Ok(vec![3u8]));
    assert_eq!(bad.frames(), vec![vec![0u8]]);
    assert_eq!(good.frames(), vec![vec![0u8], vec![2u8], vec![3u8]]);
}

#[test]
fn fault_containment() {
    let mut p: ScreenProvider<Recorder> = ScreenProvider::new(100);
    let s = Recorder::new();
    p.handle_subscribe(SubscribeScreen(s.clone()));
    assert!(p.update());
    p.handle_capture(Ok(vec![4u8, 2]));
    assert!(p.update());
    assert_eq!(p.handle_capture(Err(CaptureError::Encode)), None);
    assert_eq!(p.handle_get_screen(GetScreen).0, vec![4u8, 2]);
    assert_eq!(s.frames(), vec![vec![0u8], vec![4u8, 2]]);
    assert_eq!(p.subscriber_count(), 1);
    assert!(!p.is_capturing());
}

#[test]
fn interleaved_subscribe_and_broadcast() {
    let mut reg: Registry<Recorder> = Registry::new();
    let frame = UpdateScreen(vec![1u8]);
    let mut all = Vec::new();
    for round in 0..50usize {
        let s = if round % 3 == 0 { Recorder::failing() } else { Recorder::new() };
        let joined = reg.subscribe(s.clone(), &frame);
        assert_eq!(joined, round % 3 != 0);
        all.push(s.clone());
        if round % 7 == 0 {
            // some sinks start failing between passes
            if let Some(x) = all.iter().find(|x| !*x.failing.borrow()) {
                *x.failing.borrow_mut() = true;
            }
            let before = reg.len();
            let ok = reg.broadcast_and_prune(&frame);
            assert_eq!(ok.len(), before);
            let successes = ok.iter().filter(|b| **b).count();
            assert_eq!(reg.len(), successes);
        }
    }
    let alive = all.iter().filter(|x| !*x.failing.borrow()).count();
    let ok = reg.broadcast_and_prune(&frame);
    assert!(ok.iter().all(|b| *b));
    assert_eq!(reg.len(), alive);
}

#[test]
fn end_to_end_five_ticks() {
    let mut p: ScreenProvider<Recorder> = ScreenProvider::new(100);
    let sinks = vec![Recorder::new(), Recorder::new(), Recorder::new()];
    for s in &sinks {
        assert!(p.handle_subscribe(SubscribeScreen(s.clone())));
    }
    let f = |n: u8| vec![n, n, n];
    let mut w = SpyWorker {
        calls: 0,
        frames: vec![Ok(f(1)), Ok(f(2)), Err(CaptureError::Unavailable), Ok(f(4)), Ok(f(5))],
    };
    for _ in 0..5 {
        tick(&mut p, &mut w);
    }
    assert_eq!(w.calls, 5);
    for s in &sinks {
        let got = s.frames();
        assert_eq!(got[0], vec![0u8]);
        assert_eq!(got[1..].to_vec(), vec![f(1), f(2), f(4), f(5)]);
    }
}

#[test]
fn empty_frame_is_not_published() {
    let mut p: ScreenProvider<Recorder> = ScreenProvider::new(100);
    let s = Recorder::new();
    p.handle_subscribe(SubscribeScreen(s.clone()));
    assert!(p.update());
    assert_eq!(p.handle_capture(Ok(Vec::new())), None);
    assert_eq!(p.handle_get_screen(GetScreen).0, vec![0u8]);
    assert_eq!(s.frames(), vec![vec![0u8]]);
    assert!(!p.is_capturing());
}

#[test]
fn frame_cell_publishes() {
    let mut cell = FrameCell::new();
    assert_eq!(cell.current().0, vec![0u8]);
    cell.publish(vec![8u8, 9]);
    assert_eq!(cell.current().0, vec![8u8, 9]);
}
