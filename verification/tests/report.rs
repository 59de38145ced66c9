use countme::{Count, Registry};

#[test]
fn empty_report_is_one_line() {
    let r = Registry::new();
    let all = r.get_all();
    assert_eq!(all.entries.len(), 0);
    assert_eq!(all.to_text(), "all counts are zero\n");
}

#[test]
fn listing_is_sorted_and_exact() {
    let mut r = Registry::new();
    r.enable(true);
    let z1 = Count::new(&mut r, 1, "Zebra");
    let _z2 = Count::new(&mut r, 1, "Zebra");
    let _a = Count::new(&mut r, 2, "Apple");
    let _m = Count::new(&mut r, 3, "Mango");
    z1.destroy(&mut r);
    let _ = r.get(42); // reading an unseen key must not create an entry
    let all = r.get_all();
    assert_eq!(all.entries.len(), 3);
    assert_eq!(all.entries[0].0, "Apple");
    assert_eq!(all.entries[1].0, "Mango");
    assert_eq!(all.entries[2].0, "Zebra");
    assert_eq!(all.entries[2].1.total, 2);
    assert_eq!(all.entries[2].1.max_live, 2);
    assert_eq!(all.entries[2].1.live, 1);
    for (_, c) in &all.entries {
        assert!(c.total >= 1);
    }
}

#[test]
fn table_layout() {
    let mut r = Registry::new();
    r.enable(true);
    let z = Count::new(&mut r, 1, "Zebra");
    let _z2 = Count::new(&mut r, 1, "Zebra");
    let _a = Count::new(&mut r, 2, "Apple");
    let _m = Count::new(&mut r, 3, "Mango");
    z.destroy(&mut r);
    let text = r.get_all().to_text();
    let expected = "Apple             1            1            1\nMango             1            1            1\nZebra             2            2            1\n              total     max_live         live\n";
    assert_eq!(text, expected);
}

#[test]
fn thousands_groups_are_zero_padded() {
    let mut r = Registry::new();
    r.enable(true);
    let mut guards = Vec::new();
    for _ in 0..1000 {
        guards.push(Count::new(&mut r, 6, "G"));
    }
    let text = r.get_all().to_text();
    let expected = "G         1_000        1_000        1_000\n          total     max_live         live\n";
    assert_eq!(text, expected);
}

#[test]
fn millions_are_grouped() {
    let mut r = Registry::new();
    r.enable(true);
    let mut guards = Vec::new();
    for _ in 0..1234567 {
        guards.push(Count::new(&mut r, 6, "Big"));
    }
    let text = r.get_all().to_text();
    let expected = "Big     1_234_567    1_234_567    1_234_567\n            total     max_live         live\n";
    assert_eq!(text, expected);
}

#[test]
fn longest_name_sets_the_width() {
    let mut r = Registry::new();
    r.enable(true);
    let _a = Count::new(&mut r, 1, "A");
    let _b = Count::new(&mut r, 2, "ALongTypeName");
    let text = r.get_all().to_text();
    let expected = "A                         1            1            1\nALongTypeName             1            1            1\n                      total     max_live         live\n";
    assert_eq!(text, expected);
}
