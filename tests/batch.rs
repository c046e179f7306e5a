use bestellschein::batch::{
    decide, effective_bounds, outcome, output_file_name, select_url, worker_indices, Action,
    Outcome, Progress,
};
use bestellschein::records::Record;
use std::collections::BTreeSet;

#[test]
fn bounds_with_and_without_range() {
    assert_eq!(effective_bounds(100, 0, None), Some((0, 99)));
    assert_eq!(effective_bounds(100, 10, None), Some((10, 99)));
    assert_eq!(effective_bounds(100, 10, Some((5, 200))), Some((10, 99)));
    assert_eq!(effective_bounds(100, 0, Some((20, 30))), Some((20, 30)));
    assert_eq!(effective_bounds(0, 0, None), None);
    assert_eq!(effective_bounds(100, 100, None), None);
    assert_eq!(effective_bounds(100, 50, Some((0, 40))), None);
}

#[test]
fn stride_partition_covers_each_index_once() {
    for threads in 1..=7usize {
        for (start, end) in [(0usize, 0usize), (0, 99), (3, 17), (10, 10), (5, 6)] {
            let mut seen = Vec::new();
            for w in 0..threads {
                let idx = worker_indices(w, threads, start, end);
                for pair in idx.windows(2) {
                    assert!(pair[0] < pair[1]);
                }
                seen.extend(idx);
            }
            seen.sort();
            let expected: Vec<usize> = (start..=end).collect();
            assert_eq!(seen, expected);
        }
    }
    assert_eq!(worker_indices(1, 4, 10, 25), vec![11, 15, 19, 23]);
}

#[test]
fn existing_outputs_are_never_generated_again() {
    let total = 20usize;
    let done: BTreeSet<usize> = [1usize, 4, 5, 13].into_iter().collect();
    let mut generated = Vec::new();
    let mut progress = Progress::new(total);
    let (s, e) = effective_bounds(total, 0, None).unwrap();
    for w in 0..3 {
        for i in worker_indices(w, 3, s, e) {
            match decide(false, done.contains(&i)) {
                Action::Generate => {
                    generated.push(i);
                    progress.record_done(false);
                },
                Action::Skip => {
                    progress.record_done(false);
                },
                Action::Stop => unreachable!(),
            }
        }
    }
    assert_eq!(generated.len(), total - done.len());
    assert!(generated.iter().all(|i| !done.contains(i)));
    assert_eq!(progress.completed, total);
    assert_eq!(progress.finished(), (total, total));
}

/// Four workers take turns over 100 records; the stop flag goes up after 10 completions.
fn run(total: usize, start_from: usize, threads: usize, stop_after: Option<usize>, outputs: &mut BTreeSet<usize>) -> (usize, bool) {
    let (s, e) = match effective_bounds(total, start_from, None) {
        Some(b) => b,
        None => return (0, false),
    };
    let lists: Vec<Vec<usize>> = (0..threads).map(|w| worker_indices(w, threads, s, e)).collect();
    let mut pos = vec![0usize; threads];
    let mut alive = vec![true; threads];
    let mut progress = Progress::new(total);
    let mut stop = false;
    let mut marker = false;
    while alive.iter().any(|a| *a) {
        for w in 0..threads {
            if !alive[w] {
                continue;
            }
            if pos[w] >= lists[w].len() {
                alive[w] = false;
                continue;
            }
            let i = lists[w][pos[w]];
            match decide(stop, outputs.contains(&i)) {
                Action::Stop => {
                    marker = true;
                    alive[w] = false;
                },
                Action::Skip => {
                    progress.record_done(stop);
                    pos[w] += 1;
                },
                Action::Generate => {
                    outputs.insert(i);
                    progress.record_done(stop);
                    pos[w] += 1;
                },
            }
            if let Some(n) = stop_after {
                if progress.completed >= n {
                    stop = true;
                }
            }
        }
    }
    assert_eq!(outcome(stop, 0), if stop { Outcome::Stopped } else { Outcome::Completed });
    (progress.completed, marker)
}

#[test]
fn cooperative_stop_and_resume() {
    let mut outputs = BTreeSet::new();
    let (completed, marker) = run(100, 0, 4, Some(10), &mut outputs);
    assert!(completed < 100);
    assert!(completed >= 10);
    assert!(marker);
    let first: BTreeSet<usize> = outputs.clone();
    let before = outputs.len();
    let (resumed, marker2) = run(100, completed, 4, None, &mut outputs);
    assert!(!marker2);
    assert_eq!(resumed, 100 - completed);
    assert_eq!(outputs.len(), 100);
    assert_eq!(outputs.len() - before, (completed..100).filter(|i| !first.contains(i)).count());
}

#[test]
fn progress_is_not_published_after_stop() {
    let mut p = Progress::new(3);
    assert_eq!(p.record_done(false), Some((1, 3)));
    assert_eq!(p.record_done(true), None);
    assert_eq!(p.completed, 2);
    assert_eq!(outcome(false, 1), Outcome::Failed);
}

#[test]
fn output_names_carry_stem_language_and_id() {
    assert_eq!(output_file_name("Bestellschein-Endkunde-de_de", "de_de", "0007"), "Bestellschein-Endkunde-de_de-de_de-0007.pdf");
    assert_eq!(output_file_name("t", "en_us", "12\u{0}3"), "t-en_us-123.pdf");
}

#[test]
fn language_selects_the_link() {
    let r = Record { id: "0007".to_string(), url_primary: "https://de".to_string(), url_secondary: "https://en".to_string() };
    assert_eq!(select_url(&r, "Englisch"), "https://en");
    assert_eq!(select_url(&r, "EN_US"), "https://en");
    assert_eq!(select_url(&r, "Deutsch"), "https://de");
}
