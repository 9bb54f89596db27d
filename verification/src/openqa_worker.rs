//! openQA worker instances: their numbers, names, units, and which ones to stop.
//!
//! A worker instance is named `NUMBER#BUILD#ARCH`; its systemd unit is
//! `openqa-worker@ESCAPED.service`, where `ESCAPED` is the instance name as
//! `systemd-escape` prints it.
use vstd::prelude::*;
use vstd::set_lib::{lemma_int_range, lemma_len_subset, lemma_map_size, set_int_range};
use crate::openqa_build_reporter::{unique_spec, worker_build, worker_builds_spec};
use crate::openqa_vde::{arch_or_default, arch_or_default_of, service_suffix, str_option_view};
use crate::text::{
    concat, count_spec, first_field, first_field_of, lemma_count_contains, lemma_fields_of_joined,
    lemma_strip_affixes_of_joined, repeat_spec, second_field, second_field_of, strip_affixes,
    strip_affixes_of,
};

verus! {

/// The decimal digit for `d < 10`.
pub open spec fn digit_char(d: nat) -> char {
    if d == 0 {
        '0'
    } else if d == 1 {
        '1'
    } else if d == 2 {
        '2'
    } else if d == 3 {
        '3'
    } else if d == 4 {
        '4'
    } else if d == 5 {
        '5'
    } else if d == 6 {
        '6'
    } else if d == 7 {
        '7'
    } else if d == 8 {
        '8'
    } else {
        '9'
    }
}

/// The decimal digits of `n`, most significant first, without leading zeros.
pub open spec fn nat_digits(n: nat) -> Seq<char>
    decreases n,
{
    if n < 10 {
        seq![digit_char(n)]
    } else {
        nat_digits(n / 10).push(digit_char(n % 10))
    }
}

/// `n` written in decimal, with a leading `-` when it is negative.
pub open spec fn decimal_spec(n: int) -> Seq<char> {
    if n < 0 {
        seq!['-'] + nat_digits((-n) as nat)
    } else {
        nat_digits(n as nat)
    }
}

/// Calls `i32::to_string`, which (through `Display` for integers) writes the
/// number in decimal, with a leading `-` when it is negative.
#[verifier::external_body]
fn i32_to_decimal(n: i32) -> (s: String)
    ensures
        s@ == decimal_spec(n as int),
{
    n.to_string()
}

/// Whether some worker name `NUMBER#...` has `number` as its first field.
pub open spec fn number_taken(workers: Seq<Seq<char>>, number: Seq<char>) -> bool {
    exists|i: int| 0 <= i < workers.len() && first_field(#[trigger] workers[i], '#') == number
}

/// The instance name `NUMBER#BUILD#ARCH` of a worker; the build is empty when none is given.
pub open spec fn worker_instance_name_spec(
    number: int,
    build: Option<Seq<char>>,
    arch: Option<Seq<char>>,
) -> Seq<char> {
    let b = match build {
        Some(b) => b,
        None => Seq::<char>::empty(),
    };
    decimal_spec(number) + seq!['#'] + b + seq!['#'] + arch_or_default(arch)
}

/// The prefix of the units of worker instances.
pub open spec fn worker_unit_prefix() -> Seq<char> {
    "openqa-worker@"@
}

/// The unit that runs the worker whose escaped instance name is `escaped`.
pub open spec fn worker_unit_name_spec(escaped: Seq<char>) -> Seq<char> {
    worker_unit_prefix() + escaped
}

/// The workers to stop, in order: each worker with a build once for every
/// entry of the builds to stop that equals its build.
pub open spec fn workers_to_stop_spec(workers: Seq<Seq<char>>, builds: Seq<Seq<char>>) -> Seq<
    Seq<char>,
>
    decreases workers.len(),
{
    if workers.len() == 0 {
        seq![]
    } else {
        let w = workers.last();
        let rest = workers_to_stop_spec(workers.drop_last(), builds);
        match worker_build(w) {
            Some(b) => rest + repeat_spec(w, count_spec(builds, b)),
            None => rest,
        }
    }
}

/// Whether no current worker has `new_number` as the number in its name `NUMBER#BUILD#ARCH`.
pub fn instance_number_is_available(new_number: String, workers: &Vec<String>) -> (r: bool)
    ensures
        r == !number_taken(workers.deep_view(), new_number@),
{
    let n = workers.len();
    for i in 0..n
        invariant
            n == workers.len(),
            forall|j: int| 0 <= j < i ==> first_field(workers.deep_view()[j], '#') != new_number@,
    {
        let current_number = first_field_of(workers[i].as_str(), '#');
        if new_number == current_number {
            assert(first_field(workers.deep_view()[i as int], '#') == new_number@);
            return false;
        }
    }
    true
}

/// The first instance number, counting up from `instance` (or from 1 when
/// none is given), that no current worker has; `None` when every number from
/// there up to `i32::MAX` is taken.
pub fn pick_instance_number(instance: Option<&i32>, workers: &Vec<String>) -> (r: Option<i32>)
    ensures
        ({
            let start: int = match instance {
                Some(i) => *i as int,
                None => 1,
            };
            match r {
                Some(n) => {
                    &&& start <= n
                    &&& !number_taken(workers.deep_view(), decimal_spec(n as int))
                    &&& forall|m: int|
                        start <= m < n ==> number_taken(workers.deep_view(), #[trigger] decimal_spec(m))
                },
                None => forall|m: int|
                    start <= m <= i32::MAX ==> number_taken(workers.deep_view(), #[trigger] decimal_spec(m)),
            }
        }),
        ({
            let start: int = match instance {
                Some(i) => *i as int,
                None => 1,
            };
            start + workers.len() <= i32::MAX ==> (r is Some && r->0 <= start + workers.len())
        }),
{
    let start: i32 = match instance {
        Some(i) => *i,
        None => 1,
    };
    let mut num: i32 = start;
    loop
        invariant
            start <= num,
            forall|m: int|
                start <= m < num ==> number_taken(workers.deep_view(), #[trigger] decimal_spec(m)),
            start == match instance {
                Some(i) => *i as int,
                None => 1,
            },
        decreases i32::MAX - num,
    {
        if instance_number_is_available(i32_to_decimal(num), workers) {
            proof { law_taken_numbers_bounded(workers.deep_view(), start as int, num as int); }
            return Some(num);
        }
        if num == i32::MAX {
            proof { law_taken_numbers_bounded(workers.deep_view(), start as int, num + 1); }
            return None;
        }
        num = num + 1;
    }
}

/// The instance name `NUMBER#BUILD#ARCH` of a worker; the build is empty when
/// none is given and the architecture `x86_64`.
pub fn worker_instance_name(number: i32, build_option: Option<&str>, arch_option: Option<&str>) -> (r:
    String)
    ensures
        r@ == worker_instance_name_spec(
            number as int,
            str_option_view(build_option),
            str_option_view(arch_option),
        ),
        r@ == decimal_spec(number as int) + seq!['#'] + match build_option {
            Some(b) => b@,
            None => Seq::<char>::empty(),
        } + seq!['#'] + match arch_option {
            Some(a) => a@,
            None => "x86_64"@,
        },
{
    let arch = arch_or_default_of(arch_option);
    let build = match build_option {
        Some(b) => b,
        None => "",
    };
    proof {
        reveal_strlit("#");
        reveal_strlit("");
    }
    let number_text = i32_to_decimal(number);
    let a = concat(number_text.as_str(), "#");
    let b = concat(a.as_str(), build);
    let c = concat(b.as_str(), "#");
    concat(c.as_str(), arch)
}

/// The workers to start for the builds that need them: two per build, in the
/// order of the builds, asked for under the numbers 2, 3, 4, ... in turn.
pub open spec fn worker_start_plan_spec(builds: Seq<Seq<char>>) -> Seq<(int, Seq<char>)> {
    Seq::new(2 * builds.len(), |k: int| (2 + k, builds[k / 2]))
}

/// The workers to start for `builds`: for each build in order, two workers,
/// asked for under the numbers 2, 3, 4, ... in turn. The last number asked for
/// must fit in an `i32` (and one more, which the counter reaches last).
pub fn worker_start_plan(builds: &Vec<String>) -> (r: Vec<(i32, String)>)
    requires
        2 + 2 * builds.len() <= i32::MAX,
    ensures
        r.len() == 2 * builds.len(),
        forall|k: int|
            0 <= k < r.len() ==> (#[trigger] r@[k]).0 as int == worker_start_plan_spec(
                builds.deep_view(),
            )[k].0 && r@[k].1@ == worker_start_plan_spec(builds.deep_view())[k].1,
        forall|k: int|
            0 <= k < r.len() ==> (#[trigger] r@[k]).0 as int == 2 + k && r@[k].1@
                == builds.deep_view()[k / 2],
        forall|i: int|
            0 <= i < builds.len() ==> r@[2 * i].1@ == builds.deep_view()[i] && r@[2 * i + 1].1@
                == builds.deep_view()[i] && r@[2 * i].0 as int == 2 + 2 * i && r@[2 * i + 1].0 as int
                == 3 + 2 * i,
{
    let mut r: Vec<(i32, String)> = Vec::new();
    let mut count: i32 = 2;
    let n = builds.len();
    for i in 0..n
        invariant
            n == builds.len(),
            2 + 2 * n <= i32::MAX,
            r.len() == 2 * i,
            count == 2 + 2 * i,
            forall|k: int|
                0 <= k < r.len() ==> (#[trigger] r@[k]).0 as int == 2 + k && r@[k].1@
                    == builds.deep_view()[k / 2],
    {
        let first = builds[i].clone();
        r.push((count, first));
        count = count + 1;
        let second = builds[i].clone();
        r.push((count, second));
        count = count + 1;
        assert forall|k: int| 0 <= k < r.len() implies (#[trigger] r@[k]).0 as int == 2 + k
            && r@[k].1@ == builds.deep_view()[k / 2] by {
            if k >= 2 * i {
                assert(k / 2 == i);
            }
        }
    }
    proof { lemma_plan_pairs(r@, builds.deep_view()); }
    r
}

/// Halving `2i` and `2i + 1` gives `i`.
proof fn lemma_half(i: int)
    requires
        0 <= i,
    ensures
        (2 * i) / 2 == i,
        (2 * i + 1) / 2 == i,
{
}

/// A plan that gives entry `k` the number `2 + k` and build `k / 2` gives
/// build `i` the entries `2i` and `2i + 1`, and agrees with the plan's spec.
proof fn lemma_plan_pairs(r: Seq<(i32, String)>, builds: Seq<Seq<char>>)
    requires
        r.len() == 2 * builds.len(),
        forall|k: int|
            0 <= k < r.len() ==> (#[trigger] r[k]).0 as int == 2 + k && r[k].1@ == builds[k / 2],
    ensures
        forall|k: int|
            0 <= k < r.len() ==> (#[trigger] r[k]).0 as int == worker_start_plan_spec(builds)[k].0
                && r[k].1@ == worker_start_plan_spec(builds)[k].1,
        forall|i: int|
            0 <= i < builds.len() ==> (#[trigger] r[2 * i]).1@ == builds[i] && r[2 * i + 1].1@
                == builds[i] && r[2 * i].0 as int == 2 + 2 * i && r[2 * i + 1].0 as int == 3 + 2 * i,
{
    assert forall|i: int| 0 <= i < builds.len() implies (#[trigger] r[2 * i]).1@ == builds[i] && r[2
        * i + 1].1@ == builds[i] && r[2 * i].0 as int == 2 + 2 * i && r[2 * i + 1].0 as int == 3
        + 2 * i by {
        lemma_half(i);
        let k0 = 2 * i;
        let k1 = 2 * i + 1;
        assert(r[k0].0 as int == 2 + k0 && r[k0].1@ == builds[k0 / 2]);
        assert(r[k1].0 as int == 2 + k1 && r[k1].1@ == builds[k1 / 2]);
    }
}

/// The plan asks for two workers for each build, one right after the other,
/// in the order of the builds, numbered 2, 3, 4, ... without gaps: build `i`
/// gets the numbers `2 + 2i` and `3 + 2i`, and nothing else is planned.
pub proof fn law_worker_start_plan(builds: Seq<Seq<char>>)
    ensures
        worker_start_plan_spec(builds).len() == 2 * builds.len(),
        forall|i: int|
            0 <= i < builds.len() ==> worker_start_plan_spec(builds)[2 * i] == (2 + 2 * i, builds[i])
                && worker_start_plan_spec(builds)[2 * i + 1] == (3 + 2 * i, builds[i]),
{
    assert forall|i: int| 0 <= i < builds.len() implies worker_start_plan_spec(builds)[2 * i] == (
        2 + 2 * i,
        builds[i],
    ) && worker_start_plan_spec(builds)[2 * i + 1] == (3 + 2 * i, builds[i]) by {
        assert((2 * i) / 2 == i);
        assert((2 * i + 1) / 2 == i);
    }
}

/// The unit `openqa-worker@ESCAPED` of the worker whose escaped instance name is given.
pub fn worker_unit_name(escaped: &str) -> (r: String)
    ensures
        r@ == worker_unit_name_spec(escaped@),
{
    concat("openqa-worker@", escaped)
}

/// The escaped instance name in a unit file name `openqa-worker@ESCAPED.service`,
/// or `None` when the unit file name does not have that form.
pub fn worker_escaped_name(unit_file: &str) -> (r: Option<String>)
    ensures
        match r {
            Some(e) => strip_affixes(unit_file@, worker_unit_prefix(), service_suffix()) == Some(e@),
            None => strip_affixes(unit_file@, worker_unit_prefix(), service_suffix()) is None,
        },
{
    strip_affixes_of(unit_file, "openqa-worker@", ".service")
}

/// The workers to stop: each worker (named `NUMBER#BUILD#ARCH`) whose build is
/// not empty, once for every entry of `builds_to_stop` that equals its build.
/// Every worker name must have a second field.
pub fn get_workers_to_stop(workers: &Vec<String>, builds_to_stop: &Vec<String>) -> (r: Vec<String>)
    requires
        forall|i: int| 0 <= i < workers.len() ==> second_field(#[trigger] workers.deep_view()[i], '#') is Some,
    ensures
        r.deep_view() == workers_to_stop_spec(workers.deep_view(), builds_to_stop.deep_view()),
{
    let ghost ws = workers.deep_view();
    let ghost bs = builds_to_stop.deep_view();
    let mut r: Vec<String> = Vec::new();
    let n = workers.len();
    let m = builds_to_stop.len();
    for i in 0..n
        invariant
            n == workers.len(),
            m == builds_to_stop.len(),
            ws == workers.deep_view(),
            bs == builds_to_stop.deep_view(),
            forall|i: int| 0 <= i < ws.len() ==> second_field(#[trigger] ws[i], '#') is Some,
            r.deep_view() == workers_to_stop_spec(ws.take(i as int), bs),
    {
        proof {
            assert(ws.take(i + 1).drop_last() =~= ws.take(i as int));
        }
        let ghost before = r.deep_view();
        let ghost w = ws[i as int];
        assert(second_field(w, '#') is Some);
        let worker_build_text = match second_field_of(workers[i].as_str(), '#') {
            Some(b) => b,
            None => String::new(),
        };
        if worker_build_text.as_str().unicode_len() > 0 {
            for j in 0..m
                invariant
                    n == workers.len(),
                    m == builds_to_stop.len(),
                    ws == workers.deep_view(),
                    bs == builds_to_stop.deep_view(),
                    0 <= i < n,
                    w == ws[i as int],
                    worker_build(w) == Some(worker_build_text@),
                    r.deep_view() == before + repeat_spec(w, count_spec(bs.take(j as int), worker_build_text@)),
            {
                proof {
                    assert(bs.take(j + 1).drop_last() =~= bs.take(j as int));
                }
                let ghost mid = r.deep_view();
                if worker_build_text == builds_to_stop[j] {
                    let s = workers[i].clone();
                    r.push(s);
                    assert(r.deep_view() =~= mid.push(w));
                    assert(r.deep_view() =~= before + repeat_spec(
                        w,
                        count_spec(bs.take(j + 1), worker_build_text@),
                    ));
                } else {
                    assert(r.deep_view() =~= before + repeat_spec(
                        w,
                        count_spec(bs.take(j + 1), worker_build_text@),
                    ));
                }
            }
            assert(bs.take(m as int) =~= bs);
        }
    }
    assert(ws.take(n as int) =~= ws);
    r
}

/// Decimal digits hold neither `#` nor `-`.
proof fn lemma_nat_digits_no_hash(n: nat)
    ensures
        !nat_digits(n).contains('#'),
        !nat_digits(n).contains('-'),
    decreases n,
{
    if n >= 10 {
        lemma_nat_digits_no_hash(n / 10);
        let d = nat_digits(n);
        assert forall|k: int| 0 <= k < d.len() implies d[k] != '#' && d[k] != '-' by {
            if k < d.len() - 1 {
                assert(d[k] == nat_digits(n / 10)[k]);
            }
        }
    }
}

/// A number written in decimal holds no `#`.
pub proof fn lemma_decimal_no_hash(n: int)
    ensures
        !decimal_spec(n).contains('#'),
{
    if n < 0 {
        lemma_nat_digits_no_hash((-n) as nat);
        let d = decimal_spec(n);
        assert forall|k: int| 0 <= k < d.len() implies d[k] != '#' by {
            if k > 0 {
                assert(d[k] == nat_digits((-n) as nat)[k - 1]);
            }
        }
    } else {
        lemma_nat_digits_no_hash(n as nat);
    }
}

/// Decimal digits have one character exactly for numbers below ten.
proof fn lemma_nat_digits_len(n: nat)
    ensures
        nat_digits(n).len() >= 1,
        nat_digits(n).len() == 1 <==> n < 10,
    decreases n,
{
    if n >= 10 {
        lemma_nat_digits_len(n / 10);
    }
}

/// Different numbers have different decimal digits.
proof fn lemma_nat_digits_injective(a: nat, b: nat)
    requires
        nat_digits(a) == nat_digits(b),
    ensures
        a == b,
    decreases a,
{
    lemma_nat_digits_len(a);
    lemma_nat_digits_len(b);
    if a < 10 {
        assert(nat_digits(a)[0] == digit_char(a));
        assert(nat_digits(b)[0] == digit_char(b));
    } else {
        let da = nat_digits(a);
        let db = nat_digits(b);
        assert(da.last() == digit_char(a % 10));
        assert(db.last() == digit_char(b % 10));
        assert(da.drop_last() =~= nat_digits(a / 10));
        assert(db.drop_last() =~= nat_digits(b / 10));
        lemma_nat_digits_injective(a / 10, b / 10);
    }
}

/// Different numbers are written differently in decimal.
pub proof fn lemma_decimal_injective(a: int, b: int)
    requires
        decimal_spec(a) == decimal_spec(b),
    ensures
        a == b,
{
    if a < 0 && b < 0 {
        assert(decimal_spec(a).drop_first() =~= nat_digits((-a) as nat));
        assert(decimal_spec(b).drop_first() =~= nat_digits((-b) as nat));
        lemma_nat_digits_injective((-a) as nat, (-b) as nat);
    } else if a >= 0 && b >= 0 {
        lemma_nat_digits_injective(a as nat, b as nat);
    } else if a < 0 {
        lemma_nat_digits_no_hash(b as nat);
        lemma_nat_digits_len(b as nat);
        assert(decimal_spec(a)[0] == '-');
        assert(nat_digits(b as nat).contains(nat_digits(b as nat)[0]));
    } else {
        lemma_nat_digits_no_hash(a as nat);
        lemma_nat_digits_len(a as nat);
        assert(decimal_spec(b)[0] == '-');
        assert(nat_digits(a as nat).contains(nat_digits(a as nat)[0]));
    }
}

/// The index of a worker whose number is `m`, when some worker has it.
spec fn worker_with_number(workers: Seq<Seq<char>>, m: int) -> int {
    choose|i: int| 0 <= i < workers.len() && first_field(#[trigger] workers[i], '#') == decimal_spec(m)
}

/// No more numbers in a row can be taken than there are workers: each taken
/// number needs a worker of its own.
pub proof fn law_taken_numbers_bounded(workers: Seq<Seq<char>>, start: int, n: int)
    requires
        start <= n,
        forall|m: int| start <= m < n ==> number_taken(workers, #[trigger] decimal_spec(m)),
    ensures
        n - start <= workers.len(),
{
    let dom = set_int_range(start, n);
    let f = |m: int| worker_with_number(workers, m);
    lemma_int_range(start, n);
    assert forall|m1: int, m2: int|
        dom.contains(m1) && dom.contains(m2) && #[trigger] f(m1) == #[trigger] f(m2) implies m1 == m2 by {
        assert(number_taken(workers, decimal_spec(m1)));
        assert(number_taken(workers, decimal_spec(m2)));
        let i = f(m1);
        assert(first_field(workers[i], '#') == decimal_spec(m1));
        assert(first_field(workers[i], '#') == decimal_spec(m2));
        lemma_decimal_injective(m1, m2);
    }
    let img = dom.map(f);
    lemma_map_size(dom, img, f);
    assert forall|i: int| img.contains(i) implies set_int_range(0, workers.len() as int).contains(i) by {
        let m = choose|m: int| dom.contains(m) && f(m) == i;
        assert(number_taken(workers, decimal_spec(m)));
    }
    lemma_int_range(0, workers.len() as int);
    lemma_len_subset(img, set_int_range(0, workers.len() as int));
}

/// The instance name of a worker starts with its number, and its second field
/// is its build when the build holds no `#`; after the second `#` comes the
/// architecture that was given, or `x86_64` when none was.
pub proof fn law_worker_instance_fields(number: int, build: Seq<char>, arch: Option<Seq<char>>)
    requires
        !build.contains('#'),
    ensures
        first_field(worker_instance_name_spec(number, Some(build), arch), '#') == decimal_spec(number),
        second_field(worker_instance_name_spec(number, Some(build), arch), '#') == Some(build),
        worker_instance_name_spec(number, Some(build), arch) == decimal_spec(number) + seq!['#']
            + build + seq!['#'] + match arch {
            Some(a) => a,
            None => "x86_64"@,
        },
        worker_instance_name_spec(number, Some(build), arch).skip(
            (decimal_spec(number).len() + build.len() + 2) as int,
        ) == match arch {
            Some(a) => a,
            None => "x86_64"@,
        },
{
    let rest = build + seq!['#'] + arch_or_default(arch);
    lemma_decimal_no_hash(number);
    assert(worker_instance_name_spec(number, Some(build), arch) =~= decimal_spec(number) + seq!['#']
        + rest);
    lemma_fields_of_joined(decimal_spec(number), '#', rest);
    lemma_fields_of_joined(build, '#', arch_or_default(arch));
    assert(worker_instance_name_spec(number, Some(build), arch).skip(
        (decimal_spec(number).len() + build.len() + 2) as int,
    ) =~= arch_or_default(arch));
}

/// Once a worker with a number runs, that number is no longer available.
pub proof fn law_started_number_is_taken(
    workers: Seq<Seq<char>>,
    number: int,
    build: Option<Seq<char>>,
    arch: Option<Seq<char>>,
)
    ensures
        number_taken(workers.push(worker_instance_name_spec(number, build, arch)), decimal_spec(number)),
{
    let b = match build {
        Some(b) => b,
        None => Seq::<char>::empty(),
    };
    let name = worker_instance_name_spec(number, build, arch);
    lemma_decimal_no_hash(number);
    assert(name =~= decimal_spec(number) + seq!['#'] + (b + seq!['#'] + arch_or_default(arch)));
    lemma_fields_of_joined(decimal_spec(number), '#', b + seq!['#'] + arch_or_default(arch));
    let all = workers.push(name);
    assert(all[workers.len() as int] == name);
}

/// The build of a running worker, when not empty and free of `#`, is among
/// the current worker builds.
pub proof fn law_worker_build_is_current(
    workers: Seq<Seq<char>>,
    number: int,
    build: Seq<char>,
    arch: Option<Seq<char>>,
)
    requires
        build.len() > 0,
        !build.contains('#'),
    ensures
        unique_spec(
            worker_builds_spec(workers.push(worker_instance_name_spec(number, Some(build), arch))),
        ).contains(build),
{
    let name = worker_instance_name_spec(number, Some(build), arch);
    law_worker_instance_fields(number, build, arch);
    let all = workers.push(name);
    assert(all.drop_last() =~= workers);
    let wb = worker_builds_spec(all);
    assert(wb == worker_builds_spec(workers).push(build));
    assert(wb[wb.len() - 1] == build);
    wb.lemma_remove_duplicates_properties(seq![]);
}

/// The unit file of a worker gives back its escaped instance name.
pub proof fn law_worker_unit_name_round_trip(escaped: Seq<char>)
    ensures
        strip_affixes(
            worker_unit_name_spec(escaped) + service_suffix(),
            worker_unit_prefix(),
            service_suffix(),
        ) == Some(escaped),
{
    lemma_strip_affixes_of_joined(worker_unit_prefix(), escaped, service_suffix());
}

/// Every worker with a non-empty build that is among the builds to stop is stopped.
pub proof fn law_worker_of_stopped_build_is_stopped(
    workers: Seq<Seq<char>>,
    builds: Seq<Seq<char>>,
    w: Seq<char>,
)
    requires
        workers.contains(w),
        worker_build(w) is Some,
        builds.contains(worker_build(w)->0),
    ensures
        workers_to_stop_spec(workers, builds).contains(w),
    decreases workers.len(),
{
    let rest = workers.drop_last();
    let prev = workers_to_stop_spec(rest, builds);
    if workers.last() == w {
        lemma_count_contains(builds, worker_build(w)->0);
        let tail = repeat_spec(w, count_spec(builds, worker_build(w)->0));
        assert((prev + tail)[prev.len() as int] == w);
    } else {
        let k = choose|k: int| 0 <= k < workers.len() && workers[k] == w;
        assert(rest[k] == w);
        law_worker_of_stopped_build_is_stopped(rest, builds, w);
        let q = choose|q: int| 0 <= q < prev.len() && prev[q] == w;
        let last = workers.last();
        match worker_build(last) {
            Some(b) => {
                assert((prev + repeat_spec(last, count_spec(builds, b)))[q] == w);
            },
            None => {},
        }
    }
}

/// Only workers whose non-empty build is among the builds to stop are stopped.
pub proof fn law_stopped_worker_has_stopped_build(
    workers: Seq<Seq<char>>,
    builds: Seq<Seq<char>>,
    w: Seq<char>,
)
    requires
        workers_to_stop_spec(workers, builds).contains(w),
    ensures
        workers.contains(w),
        worker_build(w) is Some,
        builds.contains(worker_build(w)->0),
    decreases workers.len(),
{
    let rest = workers.drop_last();
    let last = workers.last();
    let prev = workers_to_stop_spec(rest, builds);
    let all = workers_to_stop_spec(workers, builds);
    let q = choose|q: int| 0 <= q < all.len() && all[q] == w;
    if q < prev.len() {
        match worker_build(last) {
            Some(b) => {
                assert((prev + repeat_spec(last, count_spec(builds, b)))[q] == prev[q]);
            },
            None => {},
        }
        assert(prev[q] == w);
        law_stopped_worker_has_stopped_build(rest, builds, w);
        let k = choose|k: int| 0 <= k < rest.len() && rest[k] == w;
        assert(workers[k] == w);
    } else {
        match worker_build(last) {
            Some(b) => {
                let tail = repeat_spec(last, count_spec(builds, b));
                assert((prev + tail)[q] == tail[q - prev.len()]);
                assert(workers[workers.len() - 1] == w);
                lemma_count_contains(builds, b);
            },
            None => {},
        }
    }
}

} // verus!
