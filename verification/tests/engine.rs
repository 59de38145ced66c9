use countme::{Count, Registry};

#[test]
fn sequential_constructions() {
    let mut r = Registry::new();
    r.enable(true);
    let mut guards = Vec::new();
    for _ in 0..5 {
        guards.push(Count::new(&mut r, 1, "Widget"));
    }
    let c = r.get(1);
    assert_eq!(c.total, 5);
    assert_eq!(c.max_live, 5);
    assert_eq!(c.live, 5);
}

#[test]
fn destroy_decrements_live_only() {
    let mut r = Registry::new();
    r.enable(true);
    let a = Count::new(&mut r, 7, "Widget");
    let _b = Count::new(&mut r, 7, "Widget");
    let _c = Count::new(&mut r, 7, "Widget");
    let before = r.get(7);
    a.destroy(&mut r);
    let after = r.get(7);
    assert_eq!(after.live, before.live - 1);
    assert_eq!(after.total, before.total);
    assert_eq!(after.max_live, before.max_live);
}

#[test]
fn destroy_all_keeps_peaks() {
    let mut r = Registry::new();
    r.enable(true);
    let a = Count::new(&mut r, 7, "Widget");
    let b = Count::new(&mut r, 7, "Widget");
    let c = Count::new(&mut r, 7, "Widget");
    a.destroy(&mut r);
    b.destroy(&mut r);
    c.destroy(&mut r);
    let s = r.get(7);
    assert_eq!(s.total, 3);
    assert_eq!(s.max_live, 3);
    assert_eq!(s.live, 0);
}

#[test]
fn interleaving_reaches_exact_peak() {
    // at most two guards live at any moment
    let mut r = Registry::new();
    r.enable(true);
    let a = Count::new(&mut r, 3, "Gadget");
    let b = Count::new(&mut r, 3, "Gadget");
    a.destroy(&mut r);
    let c = Count::new(&mut r, 3, "Gadget");
    b.destroy(&mut r);
    c.destroy(&mut r);
    let s = r.get(3);
    assert_eq!(s.total, 3);
    assert_eq!(s.max_live, 2);
    assert_eq!(s.live, 0);
}

#[test]
fn independent_keys() {
    let mut r = Registry::new();
    r.enable(true);
    let w = Count::new(&mut r, 1, "Widget");
    let _g = Count::new(&mut r, 2, "Gadget");
    let before = r.get(2);
    let w2 = Count::new(&mut r, 1, "Widget");
    w.destroy(&mut r);
    w2.destroy(&mut r);
    let after = r.get(2);
    assert_eq!(after, before);
    let s1 = r.get(1);
    assert_eq!(s1.total, 2);
    assert_eq!(s1.live, 0);
}

#[test]
fn balanced_interleaved_runs() {
    // three interleaved runs of four construct/destroy pairs each
    let mut r = Registry::new();
    r.enable(true);
    let mut pending: Vec<Count> = Vec::new();
    for _round in 0..4 {
        for _worker in 0..3 {
            pending.push(Count::new(&mut r, 9, "Shared"));
        }
        for g in pending.drain(..) {
            g.destroy(&mut r);
        }
    }
    let s = r.get(9);
    assert_eq!(s.total, 12);
    assert_eq!(s.live, 0);
    assert!(1 <= s.max_live && s.max_live <= 12);
    assert_eq!(s.max_live, 3);
}

#[test]
fn disabled_operations_change_nothing() {
    let mut r = Registry::new();
    r.enable(true);
    let a = Count::new(&mut r, 5, "Widget");
    let before = r.get(5);
    r.enable(false);
    let b = Count::new(&mut r, 5, "Widget");
    b.destroy(&mut r);
    let c = Count::new(&mut r, 5, "Widget");
    c.destroy(&mut r);
    assert_eq!(r.get(5), before);
    r.enable(true);
    let d = Count::new(&mut r, 5, "Widget");
    let s = r.get(5);
    assert_eq!(s.total, 2);
    assert_eq!(s.live, 2);
    assert_eq!(s.max_live, 2);
    a.destroy(&mut r);
    d.destroy(&mut r);
}

#[test]
fn unseen_key_reads_zero_and_creates_nothing() {
    let mut r = Registry::new();
    r.enable(true);
    let _w = Count::new(&mut r, 1, "Widget");
    let s = r.get(42);
    assert_eq!(s.total, 0);
    assert_eq!(s.max_live, 0);
    assert_eq!(s.live, 0);
    let all = r.get_all();
    assert_eq!(all.entries.len(), 1);
    assert_eq!(all.entries[0].0, "Widget");
}

#[test]
fn guard_from_disabled_window_destroys_as_noop() {
    let mut r = Registry::new();
    let orphan = Count::new(&mut r, 8, "Widget");
    r.enable(true);
    orphan.destroy(&mut r);
    let s = r.get(8);
    assert_eq!(s.total, 0);
    assert_eq!(s.max_live, 0);
    assert_eq!(s.live, 0);
}

#[test]
fn cleared_cache_falls_back_to_shared_index() {
    // the cache is a pure performance layer: dropping it, as a fresh thread
    // would, changes no snapshot and the shared index still finds the cell
    let mut r = Registry::new();
    r.enable(true);
    let a = Count::new(&mut r, 2, "Gadget");
    let before = r.get(2);
    r.clear_local();
    assert_eq!(r.get(2), before);
    let b = Count::new(&mut r, 2, "Gadget");
    r.clear_local();
    a.destroy(&mut r);
    b.destroy(&mut r);
    let s = r.get(2);
    assert_eq!(s.total, 2);
    assert_eq!(s.max_live, 2);
    assert_eq!(s.live, 0);
}

#[test]
fn widget_scenario() {
    let mut r = Registry::new();
    r.enable(true);
    let w1 = Count::new(&mut r, 1, "Widget");
    let w2 = Count::new(&mut r, 1, "Widget");
    let w3 = Count::new(&mut r, 1, "Widget");
    let s = r.get(1);
    assert_eq!((s.total, s.max_live, s.live), (3, 3, 3));
    w1.destroy(&mut r);
    let s = r.get(1);
    assert_eq!((s.total, s.max_live, s.live), (3, 3, 2));
    w2.destroy(&mut r);
    w3.destroy(&mut r);
    let s = r.get(1);
    assert_eq!((s.total, s.max_live, s.live), (3, 3, 0));
}

#[test]
fn counting_disabled_by_default() {
    let mut r = Registry::new();
    assert!(!r.enabled());
    let g = Count::new(&mut r, 1, "Widget");
    g.destroy(&mut r);
    let s = r.get(1);
    assert_eq!(s.total, 0);
    r.enable(true);
    assert!(r.enabled());
}

#[test]
fn destroy_reports_all_instances_dead() {
    let mut r = Registry::new();
    r.enable(true);
    let a = Count::new(&mut r, 4, "Widget");
    let b = Count::new(&mut r, 4, "Widget");
    assert!(!a.destroy(&mut r));
    assert!(b.destroy(&mut r));
    r.enable(false);
    let c = Count::new(&mut r, 4, "Widget");
    assert!(!c.destroy(&mut r));
}
