//! Which builds are scheduled, running, served by workers, kept or stopped.
//!
//! Build lists are read by the caller (one build per line of the reporter's
//! files, one worker name per systemd unit); the functions here decide.
use vstd::prelude::*;
use crate::text::{second_field, second_field_of};

verus! {

/// The builds of `builds`, each once, in the order of their first occurrence.
pub open spec fn unique_spec(builds: Seq<Seq<char>>) -> Seq<Seq<char>> {
    builds.remove_duplicates(seq![])
}

/// `builds` without the builds that `excluded` holds, in their order.
pub open spec fn not_in_spec(builds: Seq<Seq<char>>, excluded: Seq<Seq<char>>) -> Seq<Seq<char>> {
    builds.filter(|b: Seq<char>| !excluded.contains(b))
}

/// The build that a worker name `NUMBER#BUILD#ARCH` names, when it has a
/// second field and that field is not empty.
pub open spec fn worker_build(worker: Seq<char>) -> Option<Seq<char>> {
    match second_field(worker, '#') {
        Some(b) => if b.len() > 0 {
            Some(b)
        } else {
            None
        },
        None => None,
    }
}

/// The builds of the workers, in order, with repetitions.
pub open spec fn worker_builds_spec(workers: Seq<Seq<char>>) -> Seq<Seq<char>>
    decreases workers.len(),
{
    if workers.len() == 0 {
        seq![]
    } else {
        let rest = worker_builds_spec(workers.drop_last());
        match worker_build(workers.last()) {
            Some(b) => rest.push(b),
            None => rest,
        }
    }
}

/// Whether `v` holds a string equal to `s`.
pub fn contains_name(v: &Vec<String>, s: &String) -> (r: bool)
    ensures
        r == v.deep_view().contains(s@),
{
    let n = v.len();
    for i in 0..n
        invariant
            n == v.len(),
            forall|j: int| 0 <= j < i ==> v.deep_view()[j] != s@,
    {
        if v[i] == *s {
            assert(v.deep_view()[i as int] == s@);
            return true;
        }
    }
    false
}

/// The builds of `lines`, each once, in the order of their first occurrence.
pub fn unique_builds(lines: &Vec<String>) -> (r: Vec<String>)
    ensures
        r.deep_view() == unique_spec(lines.deep_view()),
        r.deep_view().no_duplicates(),
        forall|b: Seq<char>| r.deep_view().contains(b) <==> lines.deep_view().contains(b),
{
    let ghost all = lines.deep_view();
    let mut r: Vec<String> = Vec::new();
    let n = lines.len();
    for i in 0..n
        invariant
            n == lines.len(),
            all == lines.deep_view(),
            r.deep_view() == all.take(i as int).remove_duplicates(seq![]),
            r.deep_view().no_duplicates(),
            forall|b: Seq<char>| r.deep_view().contains(b) <==> all.take(i as int).contains(b),
    {
        let ghost prev = all.take(i as int);
        let ghost x = all[i as int];
        proof {
            assert(all.take(i + 1) =~= prev + seq![x]);
            prev.lemma_remove_duplicates_append(x, seq![]);
            assert(prev + seq![] =~= prev);
        }
        let ghost old_r = r.deep_view();
        if !contains_name(&r, &lines[i]) {
            let line = lines[i].clone();
            r.push(line);
            assert(r.deep_view() =~= old_r.push(x));
            assert(r.deep_view() =~= prev.remove_duplicates(seq![]) + seq![x]);
            assert forall|b: Seq<char>| r.deep_view().contains(b) implies old_r.contains(b) || b == x by {
                let k = choose|k: int| 0 <= k < r.deep_view().len() && r.deep_view()[k] == b;
                if k < old_r.len() {
                    assert(old_r[k] == b);
                }
            }
            assert(old_r.contains(x) ==> false);
            assert(r.deep_view().contains(x)) by {
                assert(r.deep_view()[old_r.len() as int] == x);
            }
            assert forall|b: Seq<char>| old_r.contains(b) implies r.deep_view().contains(b) by {
                let k = choose|k: int| 0 <= k < old_r.len() && old_r[k] == b;
                assert(r.deep_view()[k] == b);
            }
        } else {
            assert(r.deep_view() =~= prev.remove_duplicates(seq![]));
            assert(old_r.contains(x));
        }
        assert(forall|b: Seq<char>| r.deep_view().contains(b) <==> (old_r.contains(b) || b == x));
        assert forall|b: Seq<char>| all.take(i + 1).contains(b) <==> prev.contains(b) || b == x by {
            if all.take(i + 1).contains(b) && !prev.contains(b) {
                let k = choose|k: int| 0 <= k < i + 1 && #[trigger] all.take(i + 1)[k] == b;
                if k < i {
                    assert(prev[k] == b);
                }
            }
            if prev.contains(b) {
                let k = choose|k: int| 0 <= k < prev.len() && prev[k] == b;
                assert(all.take(i + 1)[k] == b);
            }
            if b == x {
                assert(all.take(i + 1)[i as int] == b);
            }
        }
        assert forall|b: Seq<char>| r.deep_view().contains(b) <==> all.take(i + 1).contains(b) by {
            assert(old_r.contains(b) <==> prev.contains(b));
        }
    }
    assert(all.take(n as int) =~= all);
    r
}

/// `builds` without the builds that `excluded` holds, in their order.
fn builds_not_in(builds: &Vec<String>, excluded: &Vec<String>) -> (r: Vec<String>)
    ensures
        r.deep_view() == not_in_spec(builds.deep_view(), excluded.deep_view()),
{
    let ghost all = builds.deep_view();
    let ghost pred = |b: Seq<char>| !excluded.deep_view().contains(b);
    let mut r: Vec<String> = Vec::new();
    let n = builds.len();
    for i in 0..n
        invariant
            n == builds.len(),
            all == builds.deep_view(),
            pred == (|b: Seq<char>| !excluded.deep_view().contains(b)),
            r.deep_view() == all.take(i as int).filter(pred),
    {
        proof {
            reveal_with_fuel(Seq::<_>::filter, 1);
            assert(all.take(i + 1).drop_last() =~= all.take(i as int));
        }
        if !contains_name(excluded, &builds[i]) {
            let b = builds[i].clone();
            r.push(b);
            assert(r.deep_view() =~= all.take(i as int).filter(pred).push(all[i as int]));
        } else {
            assert(r.deep_view() =~= all.take(i as int).filter(pred));
        }
    }
    assert(all.take(n as int) =~= all);
    r
}

/// The builds to keep: the scheduled builds followed by the running ones.
pub fn get_builds_to_keep(scheduled: &Vec<String>, running: &Vec<String>) -> (r: Vec<String>)
    ensures
        r.deep_view() == scheduled.deep_view() + running.deep_view(),
{
    let mut r: Vec<String> = Vec::new();
    let n = scheduled.len();
    for i in 0..n
        invariant
            n == scheduled.len(),
            r.deep_view() == scheduled.deep_view().take(i as int),
    {
        let ghost old_r = r.deep_view();
        let b = scheduled[i].clone();
        r.push(b);
        assert(r.deep_view() =~= old_r.push(scheduled.deep_view()[i as int]));
        assert(scheduled.deep_view().take(i + 1) =~= old_r.push(scheduled.deep_view()[i as int]));
    }
    let m = running.len();
    for i in 0..m
        invariant
            m == running.len(),
            r.deep_view() == scheduled.deep_view() + running.deep_view().take(i as int),
    {
        let ghost old_r = r.deep_view();
        let b = running[i].clone();
        r.push(b);
        assert(r.deep_view() =~= old_r.push(running.deep_view()[i as int]));
        assert(scheduled.deep_view() + running.deep_view().take(i + 1) =~= old_r.push(
            running.deep_view()[i as int],
        ));
    }
    assert(running.deep_view().take(m as int) =~= running.deep_view());
    r
}

/// The builds that the current workers serve: the non-empty second fields of
/// the worker names `NUMBER#BUILD#ARCH`, each once, in order of first occurrence.
pub fn get_current_worker_builds(workers: &Vec<String>) -> (r: Vec<String>)
    ensures
        r.deep_view() == unique_spec(worker_builds_spec(workers.deep_view())),
{
    let ghost all = workers.deep_view();
    let mut builds: Vec<String> = Vec::new();
    let n = workers.len();
    for i in 0..n
        invariant
            n == workers.len(),
            all == workers.deep_view(),
            builds.deep_view() == worker_builds_spec(all.take(i as int)),
    {
        proof {
            assert(all.take(i + 1).drop_last() =~= all.take(i as int));
        }
        match second_field_of(workers[i].as_str(), '#') {
            Some(b) => {
                if b.as_str().unicode_len() > 0 {
                    let ghost old_b = builds.deep_view();
                    let ghost f = b@;
                    builds.push(b);
                    assert(builds.deep_view() =~= old_b.push(f));
                }
            },
            None => {},
        }
    }
    assert(all.take(n as int) =~= all);
    unique_builds(&builds)
}

/// The current worker builds that are not among the builds to keep.
pub fn get_builds_to_stop(current: &Vec<String>, builds_to_keep: &Vec<String>) -> (r: Vec<String>)
    ensures
        r.deep_view() == not_in_spec(current.deep_view(), builds_to_keep.deep_view()),
{
    builds_not_in(current, builds_to_keep)
}

/// The scheduled builds that no current worker serves.
pub fn get_builds_to_start(scheduled: &Vec<String>, current_worker_builds: &Vec<String>) -> (r:
    Vec<String>)
    ensures
        r.deep_view() == not_in_spec(scheduled.deep_view(), current_worker_builds.deep_view()),
{
    builds_not_in(scheduled, current_worker_builds)
}

/// A build is in `builds` without `excluded` exactly when `builds` holds it
/// and `excluded` does not.
proof fn lemma_not_in_contains(builds: Seq<Seq<char>>, excluded: Seq<Seq<char>>, b: Seq<char>)
    ensures
        not_in_spec(builds, excluded).contains(b) <==> builds.contains(b) && !excluded.contains(b),
    decreases builds.len(),
{
    reveal(Seq::filter);
    if builds.len() > 0 {
        let rest = builds.drop_last();
        let last = builds.last();
        lemma_not_in_contains(rest, excluded, b);
        let prev = not_in_spec(rest, excluded);
        let cur = not_in_spec(builds, excluded);
        if !excluded.contains(last) {
            assert(cur == prev.push(last));
        } else {
            assert(cur == prev);
        }
        if cur.contains(b) {
            let k = choose|k: int| 0 <= k < cur.len() && cur[k] == b;
            if k < prev.len() {
                assert(prev[k] == b);
                let q = choose|q: int| 0 <= q < rest.len() && rest[q] == b;
                assert(builds[q] == b);
            } else {
                assert(builds[builds.len() - 1] == b);
            }
        }
        if builds.contains(b) && !excluded.contains(b) {
            let k = choose|k: int| 0 <= k < builds.len() && builds[k] == b;
            if k < rest.len() {
                assert(rest[k] == b);
                let q = choose|q: int| 0 <= q < prev.len() && prev[q] == b;
                assert(cur[q] == b);
            } else {
                assert(cur[cur.len() - 1] == b);
            }
        }
    }
}

/// A build is stopped exactly when a current worker serves it and it is not
/// to be kept: the builds to stop and the builds to keep split the current ones.
pub proof fn law_stop_keep_partition(current: Seq<Seq<char>>, keep: Seq<Seq<char>>, b: Seq<char>)
    ensures
        not_in_spec(current, keep).contains(b) <==> current.contains(b) && !keep.contains(b),
        current.contains(b) ==> (not_in_spec(current, keep).contains(b) || keep.contains(b)),
{
    lemma_not_in_contains(current, keep, b);
}

/// A build is started exactly when it is scheduled and no current worker serves it.
pub proof fn law_start_scheduled_without_worker(
    scheduled: Seq<Seq<char>>,
    current: Seq<Seq<char>>,
    b: Seq<char>,
)
    ensures
        not_in_spec(scheduled, current).contains(b) <==> scheduled.contains(b) && !current.contains(b),
{
    lemma_not_in_contains(scheduled, current, b);
}

/// Removing duplicates with a duplicate-free `seen` leaves no duplicates.
proof fn lemma_remove_duplicates_no_duplicates(s: Seq<Seq<char>>, seen: Seq<Seq<char>>)
    requires
        seen.no_duplicates(),
    ensures
        s.remove_duplicates(seen).no_duplicates(),
    decreases s.len(),
{
    if s.len() > 0 {
        if seen.contains(s[0]) {
            lemma_remove_duplicates_no_duplicates(s.skip(1), seen);
        } else {
            let seen2 = seen + seq![s[0]];
            assert forall|i: int, j: int|
                0 <= i < seen2.len() && 0 <= j < seen2.len() && i != j implies seen2[i]
                != seen2[j] by {
                if i == seen.len() as int {
                    assert(seen[j] == seen2[j]);
                }
                if j == seen.len() as int {
                    assert(seen[i] == seen2[i]);
                }
            }
            lemma_remove_duplicates_no_duplicates(s.skip(1), seen2);
        }
    }
}

/// Removing duplicates from a duplicate-free sequence that shares nothing with
/// `seen` appends it to `seen` unchanged.
proof fn lemma_remove_duplicates_of_distinct(s: Seq<Seq<char>>, seen: Seq<Seq<char>>)
    requires
        s.no_duplicates(),
        forall|x: Seq<char>| s.contains(x) ==> !seen.contains(x),
    ensures
        s.remove_duplicates(seen) == seen + s,
    decreases s.len(),
{
    if s.len() > 0 {
        assert(s.contains(s[0]));
        let seen2 = seen + seq![s[0]];
        let t = s.skip(1);
        assert forall|x: Seq<char>| t.contains(x) implies !seen2.contains(x) by {
            let k = choose|k: int| 0 <= k < t.len() && t[k] == x;
            assert(s[k + 1] == x);
            assert(s.contains(x));
            if seen2.contains(x) {
                let q = choose|q: int| 0 <= q < seen2.len() && seen2[q] == x;
                if q < seen.len() {
                    assert(seen[q] == x);
                }
            }
        }
        lemma_remove_duplicates_of_distinct(t, seen2);
        assert(seen2 + t =~= seen + s);
    } else {
        assert(seen + s =~= seen);
    }
}

/// Removing duplicates twice is removing them once.
pub proof fn law_unique_idempotent(builds: Seq<Seq<char>>)
    ensures
        unique_spec(unique_spec(builds)) == unique_spec(builds),
{
    let u = unique_spec(builds);
    lemma_remove_duplicates_no_duplicates(builds, seq![]);
    lemma_remove_duplicates_of_distinct(u, seq![]);
    assert(seq![] + u =~= u);
}

} // verus!
