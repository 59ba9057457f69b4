use craft::resource::ResourceRegistry;
use craft::signal::SignalBus;
use craft::system::{run_order_of, System, SystemInfo, SystemPhase, SystemRegistry};

struct Named(&'static str, SystemPhase);

impl System for Named {
    fn phase_of(&self) -> SystemPhase {
        self.1
    }
    fn ran_at<H>(&self, _after: &Self, _tick: u64, _bus: &SignalBus<H>, _bus_after: &SignalBus<H>) -> bool {
        true
    }
    fn info(&self) -> SystemInfo {
        SystemInfo { name: self.0, phase: self.1 }
    }
    fn run<H>(&mut self, _bus: &mut SignalBus<H>, _resources: &ResourceRegistry, _tick: u64) {}
}

#[test]
fn system_phase_rank_orders_correctly() {
    assert!(SystemPhase::PreTick.rank() < SystemPhase::Tick.rank());
    assert!(SystemPhase::Tick.rank() < SystemPhase::PostTick.rank());
}

#[test]
fn empty_registry_runs_nothing() {
    let reg: SystemRegistry<Named> = SystemRegistry::new();
    assert!(reg.is_empty());
    assert_eq!(reg.len(), 0);
}

#[test]
fn phase_all_lists_every_phase() {
    let all = SystemPhase::all();
    assert_eq!(all.len(), 3);
    assert!(all.contains(&SystemPhase::PreTick));
    assert!(all.contains(&SystemPhase::Tick));
    assert!(all.contains(&SystemPhase::PostTick));
}

#[test]
fn system_info_constructs_with_metadata() {
    let info = SystemInfo { name: "Foo", phase: SystemPhase::Tick };
    assert_eq!(info.name, "Foo");
    assert_eq!(info.phase, SystemPhase::Tick);
}

#[test]
fn run_order_is_by_phase_then_name_and_stable() {
    let infos = [
        SystemInfo { name: "b", phase: SystemPhase::Tick },
        SystemInfo { name: "z", phase: SystemPhase::PreTick },
        SystemInfo { name: "a", phase: SystemPhase::Tick },
        SystemInfo { name: "a", phase: SystemPhase::PostTick },
        SystemInfo { name: "b", phase: SystemPhase::Tick },
    ];
    assert_eq!(run_order_of(&infos), vec![1, 2, 0, 4, 3]);
}

#[test]
fn instantiate_all_orders_and_indexes() {
    let mut reg: SystemRegistry<Named> = SystemRegistry::new();
    reg.instantiate_all(vec![
        (SystemInfo { name: "move", phase: SystemPhase::Tick }, Named("move", SystemPhase::Tick)),
        (SystemInfo { name: "input", phase: SystemPhase::PreTick }, Named("input", SystemPhase::PreTick)),
        (SystemInfo { name: "draw", phase: SystemPhase::PostTick }, Named("draw", SystemPhase::PostTick)),
    ]);
    let names: Vec<&str> = reg.list().iter().map(|i| i.name).collect();
    assert_eq!(names, vec!["input", "move", "draw"]);
    assert_eq!(reg.len(), 3);
    let mut bus: SignalBus<Box<dyn Fn(&craft::json::Json)>> = SignalBus::new();
    reg.run_phase(SystemPhase::Tick, &mut bus, &ResourceRegistry::new(), 1);
    assert_eq!(reg.len(), 3);
}

struct Beeper(&'static str, SystemPhase, u64);

impl System for Beeper {
    fn phase_of(&self) -> SystemPhase {
        self.1
    }
    fn ran_at<H>(&self, after: &Self, _tick: u64, _bus: &SignalBus<H>, _bus_after: &SignalBus<H>) -> bool {
        after.2 == self.2 + 1
    }
    fn info(&self) -> SystemInfo {
        SystemInfo { name: self.0, phase: self.1 }
    }
    fn run<H>(&mut self, bus: &mut SignalBus<H>, _resources: &ResourceRegistry, _tick: u64) {
        self.2 += 1;
        bus.emit_by_name(self.0, &craft::json::Json::Null);
    }
}

#[test]
fn run_phase_runs_only_that_phase_in_order() {
    let mut reg: SystemRegistry<Beeper> = SystemRegistry::new();
    reg.instantiate_all(vec![
        (SystemInfo { name: "b", phase: SystemPhase::Tick }, Beeper("b", SystemPhase::Tick, 0)),
        (SystemInfo { name: "pre", phase: SystemPhase::PreTick }, Beeper("pre", SystemPhase::PreTick, 0)),
        (SystemInfo { name: "a", phase: SystemPhase::Tick }, Beeper("a", SystemPhase::Tick, 0)),
    ]);
    let mut bus: SignalBus<Box<dyn Fn(&craft::json::Json)>> = SignalBus::new();
    reg.run_phase(SystemPhase::Tick, &mut bus, &ResourceRegistry::new(), 7);
    assert_eq!(bus.pending_signal_names(), vec!["a".to_string(), "b".to_string()]);
}
