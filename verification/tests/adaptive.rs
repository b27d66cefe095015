//! Adaptive scheduling. The speeds are worked out here, the decisions in the library.

use std::collections::HashMap;

use xfer::adaptive::{AdaptiveConfig, AdaptiveScheduler, Pace, ScheduleAction};

const ALPHA: f64 = 0.3;
const SLOW: f64 = 0.5;
const FAST: f64 = 1.5;
const STEP: f64 = 0.25;

struct Bench {
    scheduler: AdaptiveScheduler,
    ewma: HashMap<usize, f64>,
    last_total: f64,
    best: f64,
    now: u64,
}

impl Bench {
    fn new(config: AdaptiveConfig) -> Bench {
        Bench {
            scheduler: AdaptiveScheduler::new(config, 0),
            ewma: HashMap::new(),
            last_total: 0.0,
            best: 0.0,
            now: 0,
        }
    }

    fn pass(&mut self, ms: u64) {
        self.now += ms * 1_000_000;
    }

    fn report(&mut self, conn: usize, bytes: u64, range: u64) {
        self.scheduler.report(conn, bytes, range, self.now);
    }

    fn evaluate(&mut self) -> Vec<ScheduleAction> {
        let (samples, time) = self.scheduler.begin_eval(self.now);
        let secs = time as f64 / 1e9;
        let mut total = 0.0;
        for s in &samples {
            let inst = s.delta as f64 / secs;
            let old = self.ewma.get(&s.conn_id).copied().unwrap_or(0.0);
            let ewma = if old <= 0.0 { inst } else { ALPHA * inst + (1.0 - ALPHA) * old };
            self.ewma.insert(s.conn_id, ewma);
            total += ewma;
        }
        let mean = total / samples.len().max(1) as f64;
        let paces: Vec<Pace> = samples
            .iter()
            .map(|s| {
                let speed = self.ewma[&s.conn_id];
                let bytes = (s.assigned_range as f64 * STEP) as u64;
                if speed < mean * SLOW {
                    Pace::Slow { bytes }
                } else if speed > mean * FAST {
                    Pace::Fast { bytes }
                } else {
                    Pace::Even
                }
            })
            .collect();
        let record = total > self.best;
        if record {
            self.best = total;
        }
        let rising = total > 0.0 && total > self.last_total;
        self.last_total = total;
        self.scheduler.decide(&samples, &paces, rising, record)
    }
}

fn fast_config() -> AdaptiveConfig {
    AdaptiveConfig { eval_interval_ms: 100, ..Default::default() }
}

fn shrink_targets(actions: &[ScheduleAction]) -> Vec<usize> {
    actions
        .iter()
        .filter_map(|a| match a {
            ScheduleAction::Shrink { conn_id, .. } => Some(*conn_id),
            _ => None,
        })
        .collect()
}

fn retires(actions: &[ScheduleAction]) -> bool {
    actions.iter().any(|a| matches!(a, ScheduleAction::Retire { .. }))
}

#[test]
fn cold_start_not_misjudged_slow() {
    let mut b = Bench::new(fast_config());
    b.report(0, 1_000_000, 10_000_000);
    b.evaluate();
    b.pass(110);
    b.report(0, 2_000_000, 10_000_000);
    b.report(1, 500_000, 10_000_000);
    let actions = b.evaluate();
    assert!(!shrink_targets(&actions).contains(&1));
    b.pass(110);
    b.report(0, 3_000_000, 10_000_000);
    b.report(1, 1_500_000, 10_000_000);
    let actions = b.evaluate();
    assert!(shrink_targets(&actions).is_empty());
}

#[test]
fn slow_connection_shrink_carries_conn_id() {
    let mut b = Bench::new(fast_config());
    b.report(0, 2_000_000, 10_000_000);
    b.report(1, 200_000, 10_000_000);
    b.evaluate();
    b.pass(110);
    b.report(0, 4_000_000, 10_000_000);
    b.report(1, 250_000, 10_000_000);
    let actions = b.evaluate();
    assert_eq!(shrink_targets(&actions), vec![1]);
}

#[test]
fn stall_detection_respects_warmup() {
    let mut cfg = fast_config();
    cfg.stall_eval_limit = 2;
    let mut b = Bench::new(cfg);
    b.report(0, 1_000_000, 10_000_000);
    b.report(1, 500_000, 10_000_000);
    let actions = b.evaluate();
    assert!(!retires(&actions));
    let mut a_bytes = 1_000_000u64;
    let mut saw_retire = false;
    for _ in 0..2 {
        b.pass(110);
        a_bytes += 1_000_000;
        b.report(0, a_bytes, 10_000_000);
        b.report(1, 500_000, 10_000_000);
        let actions = b.evaluate();
        saw_retire |= retires(&actions);
    }
    assert!(saw_retire);
}

#[test]
fn growing_speed_asks_for_one_more_connection() {
    let mut b = Bench::new(fast_config());
    b.report(0, 0, 10_000_000);
    b.evaluate();
    b.pass(110);
    b.report(0, 1_000_000, 10_000_000);
    let actions = b.evaluate();
    assert!(actions.iter().any(|a| matches!(a, ScheduleAction::Spawn)));
}
