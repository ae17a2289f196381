use diskzap::dedupe::{dedupe_nested, Candidate};

fn cand(p: &str) -> Candidate {
    Candidate::new(0, p, "/r")
}

fn paths(kept: &[Candidate]) -> Vec<String> {
    kept.iter().map(|c| c.path.clone()).collect()
}

#[test]
fn dedupe_drops_nested_paths() {
    // node_modules inside an already-matched .next must not be counted twice.
    let kept = dedupe_nested(vec![
        cand("/r/app/.next"),
        cand("/r/app/.next/standalone/node_modules"),
        cand("/r/app/node_modules"),
    ]);
    let paths: Vec<String> = kept.iter().map(|c| c.path.clone()).collect();
    assert_eq!(paths, vec!["/r/app/.next", "/r/app/node_modules"]);
}

#[test]
fn dedupe_keeps_siblings_with_shared_prefix_text() {
    // "/r/a" must not swallow "/r/ab": prefix matching is per-component.
    let kept = dedupe_nested(vec![cand("/r/a"), cand("/r/ab")]);
    assert_eq!(kept.len(), 2);
}

#[test]
fn dedupe_drops_deeply_nested_not_just_immediate() {
    let kept = dedupe_nested(vec![
        cand("/r/v/.venv"),
        cand("/r/v/.venv/lib/python3.12/site-packages/x/__pycache__"),
        cand("/r/v/.venv/lib/python3.12/site-packages/y/__pycache__"),
    ]);
    assert_eq!(kept.len(), 1);
}

#[test]
fn dedupe_outer_wins_whatever_the_input_order() {
    let kept = dedupe_nested(vec![
        cand("/r/app/.next/standalone/node_modules"),
        cand("/r/b"),
        cand("/r/app/.next"),
    ]);
    assert_eq!(paths(&kept), vec!["/r/app/.next", "/r/b"]);
}

#[test]
fn dedupe_orders_by_component_not_by_text() {
    // Path order compares component by component: "/r/a/x" sorts before
    // "/r/a-b" although '-' is a smaller byte than '/'.
    let kept = dedupe_nested(vec![cand("/r/a-b"), cand("/r/a/x"), cand("/r/a b")]);
    assert_eq!(paths(&kept), vec!["/r/a/x", "/r/a b", "/r/a-b"]);
    let mut std_order = vec![
        std::path::PathBuf::from("/r/a-b"),
        std::path::PathBuf::from("/r/a/x"),
        std::path::PathBuf::from("/r/a b"),
    ];
    std_order.sort();
    let std_paths: Vec<String> = std_order.iter().map(|p| p.display().to_string()).collect();
    assert_eq!(paths(&kept), std_paths);
}

#[test]
fn dedupe_keeps_the_first_of_equal_paths() {
    let kept = dedupe_nested(vec![
        Candidate::new(3, "/r/x", "/r"),
        Candidate::new(7, "/r/x/", "/r"),
        Candidate::new(9, "/r/./x", "/r"),
    ]);
    assert_eq!(kept.len(), 1);
    assert_eq!(kept[0].target_idx, 3);
}

#[test]
fn dedupe_of_nothing_is_nothing() {
    assert!(dedupe_nested(Vec::new()).is_empty());
}

#[test]
fn dedupe_is_idempotent() {
    let once = dedupe_nested(vec![
        cand("/r/a/b"),
        cand("/r/a"),
        cand("/r/c/d"),
        cand("/r/c/e"),
    ]);
    let again = dedupe_nested(
        once.iter()
            .map(|c| Candidate::new(c.target_idx, &c.path, &c.root))
            .collect(),
    );
    assert_eq!(paths(&once), paths(&again));
    assert_eq!(paths(&once), vec!["/r/a", "/r/c/d", "/r/c/e"]);
}
