use repo_fetch::progress::GitPhase;
use repo_fetch::render::{erase_codes, render_line, u64_to_string, Aggregator};

#[test]
fn decimal_rendering_is_exact() {
    assert_eq!(u64_to_string(0), "0");
    assert_eq!(u64_to_string(7), "7");
    assert_eq!(u64_to_string(42), "42");
    assert_eq!(u64_to_string(100), "100");
    assert_eq!(u64_to_string(u64::MAX), "18446744073709551615");
}

#[test]
fn lines_carry_phase_labels_and_counts() {
    let uri = "https://github.com/user/repo";
    assert_eq!(
        render_line(uri, &Some(GitPhase::Fetch(5, 10))),
        format!("{uri} => @Fetching 50% - 5/10 bytes\n")
    );
    assert_eq!(
        render_line(uri, &Some(GitPhase::DeltaResolve(1, 4))),
        format!("{uri} => #Resolving Deltas 25% - 1/4 deltas\n")
    );
    assert_eq!(
        render_line(uri, &Some(GitPhase::Checkout(3, 9))),
        format!("{uri} => ^Checking out 33% - 3/9 objects\n")
    );
}

#[test]
fn unreported_source_renders_as_idle_fetch() {
    assert_eq!(render_line("u", &None), "u => @Fetching 0% - 0/0 bytes\n");
}

#[test]
fn finished_phase_renders_completed_variant() {
    assert_eq!(
        render_line("u", &Some(GitPhase::Checkout(9, 9))),
        "u => Done - 9/9\n"
    );
}

#[test]
fn erase_sequence_is_one_pair_per_line() {
    assert_eq!(erase_codes(0), "");
    assert_eq!(erase_codes(1), "\u{1b}[1A\u{1b}[2K");
    assert_eq!(erase_codes(3), "\u{1b}[1A\u{1b}[2K\u{1b}[1A\u{1b}[2K\u{1b}[1A\u{1b}[2K");
}

#[test]
fn frames_keep_fixed_height_and_erase_previous_frame() {
    let sources = vec![String::from("a"), String::from("b")];
    let mut agg = Aggregator::new(sources);

    // First frame: nothing to erase, one line per known source.
    let (erase, lines) = agg.render_frame();
    assert_eq!(erase, "");
    assert_eq!(lines.len(), 2);
    assert_eq!(lines[0], "a => @Fetching 0% - 0/0 bytes\n");
    assert_eq!(lines[1], "b => @Fetching 0% - 0/0 bytes\n");

    // Later frames erase exactly the previous frame's lines and never change
    // height, whatever events arrived in between.
    agg.update("b", GitPhase::Fetch(1, 2));
    let (erase, lines) = agg.render_frame();
    assert_eq!(erase, erase_codes(2));
    assert_eq!(lines.len(), 2);
    assert_eq!(lines[0], "a => @Fetching 0% - 0/0 bytes\n");
    assert_eq!(lines[1], "b => @Fetching 50% - 1/2 bytes\n");

    let (erase, lines) = agg.render_frame();
    assert_eq!(erase, erase_codes(2));
    assert_eq!(lines.len(), 2);
}

#[test]
fn events_for_unknown_sources_change_nothing() {
    let mut agg = Aggregator::new(vec![String::from("a")]);
    agg.update("stranger", GitPhase::Checkout(1, 1));
    let (_, lines) = agg.render_frame();
    assert_eq!(lines.len(), 1);
    assert_eq!(lines[0], "a => @Fetching 0% - 0/0 bytes\n");
}

#[test]
fn recorded_phase_never_regresses() {
    let mut agg = Aggregator::new(vec![String::from("a")]);
    agg.update("a", GitPhase::Checkout(1, 4));
    // A late transfer event must not push the source back to an earlier phase.
    agg.update("a", GitPhase::Fetch(9, 10));
    let (_, lines) = agg.render_frame();
    assert_eq!(lines[0], "a => ^Checking out 25% - 1/4 objects\n");
}

#[test]
fn duplicate_sources_update_first_entry() {
    let mut agg = Aggregator::new(vec![String::from("a"), String::from("a")]);
    agg.update("a", GitPhase::Fetch(1, 2));
    let (_, lines) = agg.render_frame();
    assert_eq!(lines.len(), 2);
    assert_eq!(lines[0], "a => @Fetching 50% - 1/2 bytes\n");
    assert_eq!(lines[1], "a => @Fetching 0% - 0/0 bytes\n");
}
