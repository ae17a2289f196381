use diskzap::safety::{evaluate, Guard};

#[test]
fn refuses_root_home_and_shallow_paths() {
    let home = "/home/alice";
    assert_eq!(evaluate("/", "/", home, true, false), Guard::Protected);
    assert_eq!(evaluate("/home", "/", home, true, false), Guard::Protected);
    assert_eq!(evaluate("/home/alice", "/home", home, true, false), Guard::Protected);
    assert_eq!(evaluate("/home/alice/", "/home", home, true, false), Guard::Protected);
    assert_eq!(evaluate("/tmp", "/", home, true, false), Guard::Protected);
}

#[test]
fn confines_to_the_root() {
    let home = "/home/alice";
    assert_eq!(
        evaluate("/home/alice/code/app/node_modules", "/home/alice/code", home, true, false),
        Guard::Clear
    );
    assert_eq!(
        evaluate("/home/alice/other/node_modules", "/home/alice/code", home, true, false),
        Guard::OutsideRoot
    );
    // Per component: "/r/ab" is not under "/r/a".
    assert_eq!(evaluate("/r/ab/x", "/r/a", home, true, false), Guard::OutsideRoot);
}

#[test]
fn active_lock_blocks_deletion() {
    let home = "/home/alice";
    assert_eq!(
        evaluate("/home/alice/.cache/uv", "/home/alice/.cache/uv", home, true, true),
        Guard::InUse
    );
}

#[test]
fn missing_comes_first() {
    assert_eq!(evaluate("/", "/", "/", false, true), Guard::Missing);
}
