use git_barber::progress::{Reporter, WriteReporter};

#[test]
fn progress_redraws_one_line_and_clears_it_when_done() {
    // A scan can take tens of seconds; the counter must overwrite itself
    // in place rather than scrolling the terminal, and must leave no
    // residue behind for the report that follows.
    let mut reporter = WriteReporter::new(Vec::new());
    reporter.tick(3, 10);
    reporter.tick(4, 10);
    reporter.finish();
    let out = String::from_utf8(reporter.into_inner()).unwrap();
    assert!(out.contains("3/10"), "missing first tick: {out:?}");
    assert!(out.contains("4/10"), "missing second tick: {out:?}");
    assert_eq!(out.matches('\n').count(), 0, "must not scroll: {out:?}");
    assert!(out.ends_with("\r\x1b[K"), "line not cleared: {out:?}");
}

#[test]
fn the_counter_never_goes_backwards() {
    // Workers increment a shared counter and then queue for the output
    // lock, so a later branch can reach the writer first. Printing that
    // verbatim makes the count visibly jitter downwards mid-scan.
    let mut reporter = WriteReporter::new(Vec::new());
    reporter.tick(5, 10);
    reporter.tick(3, 10);
    reporter.tick(6, 10);
    reporter.finish();
    let out = String::from_utf8(reporter.into_inner()).unwrap();
    assert!(out.contains("5/10"), "{out:?}");
    assert!(
        !out.contains("3/10"),
        "a lower count must be dropped: {out:?}"
    );
    assert!(out.contains("6/10"), "{out:?}");
}

#[test]
fn out_of_order_ticks_still_read_as_one_rising_counter() {
    const TOTAL: usize = 64;
    let mut reporter = WriteReporter::new(Vec::new());
    for i in 0..TOTAL {
        reporter.tick((i * 37) % TOTAL + 1, TOTAL);
    }
    reporter.finish();

    let out = String::from_utf8(reporter.into_inner()).unwrap();
    let counts: Vec<usize> = out
        .split("scanning ")
        .skip(1)
        .filter_map(|s| s.split('/').next()?.parse().ok())
        .collect();
    assert!(counts.windows(2).all(|w| w[0] < w[1]), "{counts:?}");
    assert_eq!(counts.last(), Some(&TOTAL), "never reached the total");
}

#[test]
fn the_counter_line_is_exactly_this() {
    let mut reporter = WriteReporter::new(b"before".to_vec());
    reporter.tick(12, 340);
    assert_eq!(
        reporter.into_inner(),
        b"before\r\x1b[Kscanning 12/340 branches".to_vec()
    );
}
