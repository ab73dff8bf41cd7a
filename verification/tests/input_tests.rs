use repo_fetch::classify::is_git;
use repo_fetch::paths::create_repo_dl_path;

#[test]
fn single_url_wo_www_is_successful() {
    // Create a single https input url without www
    let input = vec!["https://github.com/user/repo"];

    // Get dir paths
    let dir = create_repo_dl_path(&input).unwrap();

    // Check if url to temporary directory conversion is correct
    assert_eq!(dir[0].0, "/tmp/tokei/repo__user");
    assert_eq!(dir[0].1, input[0]);
}

#[test]
fn multiple_urls_is_successful() {
    let input = vec![
        "https://github.com/user/repo",
        "https://www.github.com/another_user/repo",
    ];

    let dir = create_repo_dl_path(&input).unwrap();

    assert_eq!(dir[0].0, "/tmp/tokei/repo__user");
    assert_eq!(dir[0].1, input[0]);
    assert_eq!(dir[1].0, "/tmp/tokei/repo__another_user");
    assert_eq!(dir[1].1, input[1]);
}

#[test]
fn multiple_urls_and_local_dir_is_successful() {
    let input = vec![
        "https://github.com/user/repo",
        "https://www.github.com/another_user/repo",
        "~/project",
        ".",
        "..",
        "./dir",
        "/dir/dir",
    ];

    let dir = create_repo_dl_path(&input).unwrap();

    assert_eq!(dir.len(), 2);
}

#[test]
fn no_input_errors() {
    let input = vec![];

    let dir = create_repo_dl_path(&input);

    assert!(dir.is_err());
}

#[test]
fn ssh_is_successful() {
    let input = vec!["git@github.com:user/repo.git"];

    let dir = create_repo_dl_path(&input).unwrap();

    assert_eq!(dir[0].0, "/tmp/tokei/repo__user");
    assert_eq!(dir[0].1, input[0]);
}

#[test]
fn classifier_accepts_remote_forms() {
    assert!(is_git("https://github.com/user/repo"));
    assert!(is_git("https://www.github.com/user/repo"));
    assert!(is_git("git@github.com:user/repo.git"));
}

#[test]
fn classifier_rejects_local_paths() {
    assert!(!is_git("./dir"));
    assert!(!is_git("~/project"));
    assert!(!is_git("/dir/dir"));
    assert!(!is_git(""));
}

#[test]
fn https_and_ssh_derive_identical_paths() {
    let https = vec!["https://github.com/user/repo"];
    let ssh = vec!["git@github.com:user/repo.git"];

    let a = create_repo_dl_path(&https).unwrap();
    let b = create_repo_dl_path(&ssh).unwrap();

    assert_eq!(a[0].0, b[0].0);
    assert_eq!(a[0].0, "/tmp/tokei/repo__user");
}

#[test]
fn duplicate_urls_derive_duplicate_paths() {
    // Duplicate references are not deduplicated: one pair per classified entry.
    let input = vec![
        "https://github.com/user/repo",
        "https://github.com/user/repo",
    ];

    let dir = create_repo_dl_path(&input).unwrap();

    assert_eq!(dir.len(), 2);
    assert_eq!(dir[0].0, dir[1].0);
}
