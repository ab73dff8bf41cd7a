use repo_fetch::merge::{merge_after_fetch, merge_inputs, FetchOutcome};

#[test]
fn merge_replaces_remote_references_with_fetched_paths() {
    let input = vec![
        String::from("https://github.com/user/repo"),
        String::from("./local"),
        String::from("git@github.com:user/other.git"),
    ];
    let fetched = vec![
        String::from("/tmp/tokei/repo__user"),
        String::from("/tmp/tokei/other__user"),
    ];

    let merged = merge_inputs(&input, &fetched);

    assert_eq!(
        merged,
        vec![
            String::from("./local"),
            String::from("/tmp/tokei/repo__user"),
            String::from("/tmp/tokei/other__user"),
        ]
    );
}

#[test]
fn merge_without_remotes_keeps_inputs() {
    let input = vec![String::from("./a"), String::from("/b")];
    let merged = merge_inputs(&input, &Vec::new());
    assert_eq!(merged, input);
}

#[test]
fn successful_fetches_merge_their_paths() {
    let input = vec![
        String::from("https://github.com/user/repo"),
        String::from("./local"),
    ];
    let outcomes = vec![FetchOutcome::Fetched(String::from("/tmp/tokei/repo__user"))];

    let merged = merge_after_fetch(&input, outcomes).unwrap();

    assert_eq!(
        merged,
        vec![String::from("./local"), String::from("/tmp/tokei/repo__user")]
    );
}

#[test]
fn failed_fetch_names_its_uri_and_yields_no_merged_set() {
    let input = vec![
        String::from("https://github.com/user/repo"),
        String::from("https://github.com/user/gone"),
        String::from("./local"),
    ];
    let outcomes = vec![
        FetchOutcome::Fetched(String::from("/tmp/tokei/repo__user")),
        FetchOutcome::Failed(String::from("https://github.com/user/gone")),
    ];

    let err = merge_after_fetch(&input, outcomes).unwrap_err();

    assert_eq!(err, "https://github.com/user/gone");
}
