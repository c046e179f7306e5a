//! Decisions of a batch run: which indices each worker visits, what it does with each
//! record, how progress is counted, and what the output of a record is called.

use vstd::prelude::*;
use vstd::arithmetic::div_mod::{
    lemma_div_pos_is_pos, lemma_fundamental_div_mod, lemma_fundamental_div_mod_converse,
};
use crate::records::Record;
use crate::text::{chars_contains_str, chars_of, lower_of, lowercase, push_str, remove_char,
    remove_char_chars, seq_contains, str_eq, string_of};

verus! {

/// The inclusive index bounds of a run over `total` records that starts at `start_from`,
/// narrowed to `range` if one is given; none if nothing is left to do.
pub open spec fn bounds_spec(total: nat, start_from: nat, range: Option<(usize, usize)>) -> Option<(nat, nat)> {
    if total == 0 {
        None
    } else {
        let (s, e) = match range {
            Some((a, b)) => (
                if a >= start_from { a as nat } else { start_from },
                if b <= total - 1 { b as nat } else { (total - 1) as nat },
            ),
            None => (start_from, (total - 1) as nat),
        };
        if s <= e {
            Some((s, e))
        } else {
            None
        }
    }
}

pub fn effective_bounds(total: usize, start_from: usize, range: Option<(usize, usize)>) -> (r: Option<(usize, usize)>)
    ensures
        match r {
            Some((s, e)) => bounds_spec(total as nat, start_from as nat, range) == Some((s as nat, e as nat)),
            None => bounds_spec(total as nat, start_from as nat, range) is None,
        },
{
    if total == 0 {
        return None;
    }
    let (s, e) = match range {
        Some((a, b)) => (
            if a >= start_from {
                a
            } else {
                start_from
            },
            if b <= total - 1 {
                b
            } else {
                total - 1
            },
        ),
        None => (start_from, total - 1),
    };
    if s <= e {
        Some((s, e))
    } else {
        None
    }
}

/// Index `i` of `[start, end]` belongs to worker `w` of `threads`.
pub open spec fn in_stride(w: int, threads: int, start: int, end: int, i: int) -> bool {
    start + w <= i <= end && (i - start - w) % threads == 0
}

/// The indices worker `worker` of `threads` visits in `[start, end]`: `start + worker`,
/// then every `threads`-th index after it, in increasing order.
pub fn worker_indices(worker: usize, threads: usize, start: usize, end: usize) -> (r: Vec<usize>)
    requires
        threads >= 1,
        worker < threads,
        start <= end,
    ensures
        forall|i: int| r@.contains(i as usize) && 0 <= i <= usize::MAX <==> in_stride(
            worker as int,
            threads as int,
            start as int,
            end as int,
            i,
        ),
        forall|a: int, b: int| 0 <= a < b < r@.len() ==> r@[a] < r@[b],
{
    let mut r: Vec<usize> = Vec::new();
    if worker > end - start {
        assert forall|i: int| !in_stride(worker as int, threads as int, start as int, end as int, i) by {}
        return r;
    }
    let mut i: usize = start + worker;
    let ghost mut k: int = 0;
    proof {
        lemma_fundamental_div_mod_converse(0, threads as int, 0, 0);
    }
    loop
        invariant
            threads >= 1,
            start + worker <= i <= end,
            k >= 0,
            i == start + worker + k * threads,
            forall|j: int| 0 <= j < r@.len() ==> #[trigger] r@[j] < i,
            forall|a: int, b: int| 0 <= a < b < r@.len() ==> r@[a] < r@[b],
            forall|x: int| r@.contains(x as usize) && 0 <= x <= usize::MAX <==> (in_stride(
                worker as int,
                threads as int,
                start as int,
                end as int,
                x,
            ) && x < i),
        decreases end - i,
    {
        proof {
            lemma_fundamental_div_mod_converse(i - start - worker, threads as int, k, 0);
        }
        let ghost before = r@;
        r.push(i);
        assert forall|x: int| r@.contains(x as usize) && 0 <= x <= usize::MAX <==> (in_stride(
            worker as int,
            threads as int,
            start as int,
            end as int,
            x,
        ) && x <= i) by {
            if 0 <= x <= usize::MAX && r@.contains(x as usize) && x != i {
                let m = choose|m: int| 0 <= m < r@.len() && r@[m] == x as usize;
                assert(m < before.len());
                assert(before.contains(x as usize));
            }
            if in_stride(worker as int, threads as int, start as int, end as int, x) && x < i {
                assert(before.contains(x as usize));
                let m = choose|m: int| 0 <= m < before.len() && before[m] == x as usize;
                assert(r@[m] == x as usize);
            }
            if x == i {
                assert(r@[r@.len() - 1] == i);
            }
        }
        assert forall|x: int| i < x < i + threads implies !in_stride(
            worker as int,
            threads as int,
            start as int,
            end as int,
            x,
        ) by {
            lemma_fundamental_div_mod_converse(x - start - worker, threads as int, k, x - i);
        }
        if end - i < threads {
            return r;
        }
        i = i + threads;
        proof {
            k = k + 1;
            assert(i == start + worker + k * threads) by (nonlinear_arith)
                requires
                    i == start + worker + (k - 1) * threads + threads,
            ;
        }
    }
}

/// Every index of `[start, end]` belongs to exactly one of the `threads` workers: the one
/// numbered `(i - start) % threads`. Together the workers cover the range with no gaps and,
/// each visiting its indices once in increasing order, with no duplicates.
pub proof fn lemma_stride_partition(threads: int, start: int, end: int, i: int, w: int)
    requires
        threads >= 1,
        start <= i <= end,
        0 <= w < threads,
    ensures
        in_stride(w, threads, start, end, i) <==> w == (i - start) % threads,
{
    let d = i - start;
    lemma_fundamental_div_mod(d, threads);
    lemma_div_pos_is_pos(d, threads);
    if in_stride(w, threads, start, end, i) {
        lemma_fundamental_div_mod(d - w, threads);
        lemma_fundamental_div_mod_converse(d, threads, (d - w) / threads, w);
    }
    if w == d % threads {
        lemma_fundamental_div_mod_converse(d - w, threads, d / threads, 0);
        assert(d - w >= 0) by (nonlinear_arith)
            requires
                d - w == threads * (d / threads),
                d / threads >= 0,
                threads >= 1,
        ;
    }
}

/// What a worker does with the record at its next index.
#[derive(Clone, Copy, Debug, PartialEq, Eq, Structural)]
pub enum Action {
    /// The stop flag is up: leave the stop marker and end without counting the record.
    Stop,
    /// The output exists already: count the record without generating it again.
    Skip,
    /// Generate the record's document, then count it.
    Generate,
}

/// The decision for one record: stopping comes first; an existing output is never generated
/// again.
pub fn decide(stop_requested: bool, output_exists: bool) -> (a: Action)
    ensures
        stop_requested ==> a == Action::Stop,
        !stop_requested && output_exists ==> a == Action::Skip,
        !stop_requested && !output_exists ==> a == Action::Generate,
{
    if stop_requested {
        Action::Stop
    } else if output_exists {
        Action::Skip
    } else {
        Action::Generate
    }
}

/// The shared count of records done, generated or skipped.
pub struct Progress {
    pub completed: usize,
    pub total: usize,
}

impl Progress {
    pub fn new(total: usize) -> (r: Progress)
        ensures
            r.completed == 0,
            r.total == total,
    {
        Progress { completed: 0, total }
    }

    /// Counts one more record done. The fraction `(completed, total)` to publish comes back
    /// unless the run has been asked to stop.
    pub fn record_done(&mut self, stop_requested: bool) -> (r: Option<(usize, usize)>)
        requires
            old(self).completed < old(self).total,
        ensures
            final(self).completed == old(self).completed + 1,
            final(self).total == old(self).total,
            stop_requested ==> r is None,
            !stop_requested ==> r == Some((final(self).completed, final(self).total)),
    {
        self.completed = self.completed + 1;
        if stop_requested {
            None
        } else {
            Some((self.completed, self.total))
        }
    }

    /// The fraction published when every worker has ended: complete.
    pub fn finished(&self) -> (r: (usize, usize))
        ensures
            r == (self.total, self.total),
    {
        (self.total, self.total)
    }
}

/// How a run ended.
#[derive(Clone, Copy, Debug, PartialEq, Eq, Structural)]
pub enum Outcome {
    Completed,
    Stopped,
    Failed,
}

/// The end of a run: a worker that did not join cleanly fails it; otherwise it stopped if
/// the stop flag was raised, and completed if not.
pub fn outcome(stop_requested: bool, failed_workers: usize) -> (r: Outcome)
    ensures
        failed_workers > 0 ==> r == Outcome::Failed,
        failed_workers == 0 && stop_requested ==> r == Outcome::Stopped,
        failed_workers == 0 && !stop_requested ==> r == Outcome::Completed,
{
    if failed_workers > 0 {
        Outcome::Failed
    } else if stop_requested {
        Outcome::Stopped
    } else {
        Outcome::Completed
    }
}

/// The output file of a record: template stem, language code and identifier (without NUL
/// characters), joined by `-`.
pub open spec fn output_name(stem: Seq<char>, lang_code: Seq<char>, id: Seq<char>) -> Seq<char> {
    stem + "-"@ + lang_code + "-"@ + remove_char(id, '\0') + ".pdf"@
}

pub fn output_file_name(stem: &str, lang_code: &str, id: &str) -> (r: String)
    ensures
        r@ == output_name(stem@, lang_code@, id@),
{
    let mut out: Vec<char> = Vec::new();
    push_str(&mut out, stem);
    push_str(&mut out, "-");
    push_str(&mut out, lang_code);
    push_str(&mut out, "-");
    out.extend_from_slice(&remove_char_chars(&chars_of(id), '\0'));
    push_str(&mut out, ".pdf");
    assert(out@ =~= output_name(stem@, lang_code@, id@));
    string_of(&out)
}

/// Whether a run in this language uses a record's secondary link.
pub open spec fn uses_secondary(language: Seq<char>) -> bool {
    language == "Englisch"@ || seq_contains(lower_of(language), "en"@)
}

/// The link a record's QR code carries in a run of this language.
pub fn select_url(record: &Record, language: &str) -> (r: String)
    ensures
        r@ == if uses_secondary(language@) {
            record.url_secondary@
        } else {
            record.url_primary@
        },
{
    if str_eq(language, "Englisch") || chars_contains_str(&chars_of(lowercase(language).as_str()), "en") {
        record.url_secondary.clone()
    } else {
        record.url_primary.clone()
    }
}

} // verus!
