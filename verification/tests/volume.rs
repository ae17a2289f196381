use diskzap::volume::free_bytes_from_df;

#[test]
fn reads_available_blocks() {
    let out = "Filesystem     1024-blocks      Used Available Capacity  Mounted on\n/dev/disk3s5    971350180 512345678 441234567      54%    /System/Volumes/Data\n";
    assert_eq!(free_bytes_from_df(out), Some(441_234_567 * 1024));
}

#[test]
fn rejects_what_is_not_df_output() {
    assert_eq!(free_bytes_from_df(""), None);
    assert_eq!(free_bytes_from_df("header only"), None);
    assert_eq!(free_bytes_from_df("h\na b c\n"), None);
    assert_eq!(free_bytes_from_df("h\na b c d\n"), None);
    assert_eq!(free_bytes_from_df("h\na b c 18446744073709551615\n"), None);
}
