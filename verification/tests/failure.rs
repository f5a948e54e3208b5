use fantom::failure::Failure;

#[test]
fn failures_say_what_and_why() {
    let path = || "/a b".to_string();
    let cases = [
        (Failure::Launch, "failed to launch nisprog: why"),
        (Failure::Feed, "failed to write to nisprog stdin: why"),
        (Failure::Wait, "failed waiting on nisprog: why"),
        (Failure::StagingFolder, "staging dir failed: why"),
        (Failure::StagingCopy, "staging copy failed: why"),
        (Failure::ReadFile(path()), "failed to read /a b: why"),
        (Failure::WriteFile(path()), "failed to write /a b: why"),
        (Failure::ListFolder(path()), "cannot list /a b: why"),
        (Failure::FolderEntry, "bad dir entry: why"),
        (Failure::ReadText(path()), "cannot read /a b: why"),
    ];
    for (failure, text) in cases {
        assert_eq!(failure.message("why"), text);
    }
}
