//! VDE switch instances: their names, their units, and which ones to stop.
//!
//! A switch instance is named `BUILD#ARCH`; its systemd unit is
//! `openqa-vde-switch@ESCAPED.service`, where `ESCAPED` is the instance name as
//! `systemd-escape` prints it.
use vstd::prelude::*;
use crate::text::{
    concat, count_spec, first_field, first_field_of, lemma_count_contains, lemma_fields_of_joined,
    lemma_strip_affixes_of_joined, repeat_spec, strip_affixes, strip_affixes_of,
};

verus! {

/// The architecture that an instance runs for when none is given.
pub open spec fn default_arch() -> Seq<char> {
    "x86_64"@
}

/// The given architecture, or the default one.
pub open spec fn arch_or_default(arch: Option<Seq<char>>) -> Seq<char> {
    match arch {
        Some(a) => a,
        None => default_arch(),
    }
}

/// The view of an optional string.
pub open spec fn str_option_view(o: Option<&str>) -> Option<Seq<char>> {
    match o {
        Some(s) => Some(s@),
        None => None,
    }
}

/// The instance name `BUILD#ARCH` of the switch for a build.
pub open spec fn vde_instance_name_spec(build: Seq<char>, arch: Option<Seq<char>>) -> Seq<char> {
    build + seq!['#'] + arch_or_default(arch)
}

/// The prefix of the units of switch instances.
pub open spec fn vde_unit_prefix() -> Seq<char> {
    "openqa-vde-switch@"@
}

/// The suffix of the unit files of services.
pub open spec fn service_suffix() -> Seq<char> {
    ".service"@
}

/// The unit that runs the switch whose escaped instance name is `escaped`.
pub open spec fn vde_unit_name_spec(escaped: Seq<char>) -> Seq<char> {
    vde_unit_prefix() + escaped
}

/// The switches to stop, in order: each switch once for every entry of the
/// builds to stop that equals its build (the first field of its name).
pub open spec fn vde_switches_to_stop_spec(switches: Seq<Seq<char>>, builds: Seq<Seq<char>>) -> Seq<
    Seq<char>,
>
    decreases switches.len(),
{
    if switches.len() == 0 {
        seq![]
    } else {
        let sw = switches.last();
        vde_switches_to_stop_spec(switches.drop_last(), builds) + repeat_spec(
            sw,
            count_spec(builds, first_field(sw, '#')),
        )
    }
}

/// The given architecture, or the default one.
pub fn arch_or_default_of(arch: Option<&str>) -> (r: &str)
    ensures
        r@ == arch_or_default(str_option_view(arch)),
{
    match arch {
        Some(a) => a,
        None => "x86_64",
    }
}

/// The instance name `BUILD#ARCH` of the switch for `build`.
pub fn vde_instance_name(build: &str, arch_option: Option<&str>) -> (r: String)
    ensures
        r@ == vde_instance_name_spec(build@, str_option_view(arch_option)),
        r@ == build@ + seq!['#'] + match arch_option {
            Some(a) => a@,
            None => "x86_64"@,
        },
{
    let arch = arch_or_default_of(arch_option);
    proof { reveal_strlit("#"); }
    let head = concat(build, "#");
    concat(head.as_str(), arch)
}

/// The unit `openqa-vde-switch@ESCAPED` of the switch whose escaped instance name is given.
pub fn vde_unit_name(escaped: &str) -> (r: String)
    ensures
        r@ == vde_unit_name_spec(escaped@),
{
    concat("openqa-vde-switch@", escaped)
}

/// The escaped instance name in a unit file name `openqa-vde-switch@ESCAPED.service`,
/// or `None` when the unit file name does not have that form.
pub fn vde_switch_escaped_name(unit_file: &str) -> (r: Option<String>)
    ensures
        match r {
            Some(e) => strip_affixes(unit_file@, vde_unit_prefix(), service_suffix()) == Some(e@),
            None => strip_affixes(unit_file@, vde_unit_prefix(), service_suffix()) is None,
        },
{
    strip_affixes_of(unit_file, "openqa-vde-switch@", ".service")
}

/// The switches to stop: each switch (named `BUILD#ARCH`) once for every
/// entry of `builds_to_stop` that equals its build.
pub fn get_vde_switches_to_stop(switches: &Vec<String>, builds_to_stop: &Vec<String>) -> (r: Vec<
    String,
>)
    ensures
        r.deep_view() == vde_switches_to_stop_spec(switches.deep_view(), builds_to_stop.deep_view()),
{
    let ghost sws = switches.deep_view();
    let ghost bs = builds_to_stop.deep_view();
    let mut r: Vec<String> = Vec::new();
    let n = switches.len();
    let m = builds_to_stop.len();
    for i in 0..n
        invariant
            n == switches.len(),
            m == builds_to_stop.len(),
            sws == switches.deep_view(),
            bs == builds_to_stop.deep_view(),
            r.deep_view() == vde_switches_to_stop_spec(sws.take(i as int), bs),
    {
        let ghost before = r.deep_view();
        let ghost sw = sws[i as int];
        let switch_build = first_field_of(switches[i].as_str(), '#');
        for j in 0..m
            invariant
                n == switches.len(),
                m == builds_to_stop.len(),
                sws == switches.deep_view(),
                bs == builds_to_stop.deep_view(),
                0 <= i < n,
                sw == sws[i as int],
                switch_build@ == first_field(sw, '#'),
                r.deep_view() == before + repeat_spec(sw, count_spec(bs.take(j as int), switch_build@)),
        {
            proof {
                assert(bs.take(j + 1).drop_last() =~= bs.take(j as int));
            }
            let ghost mid = r.deep_view();
            if switch_build == builds_to_stop[j] {
                let s = switches[i].clone();
                r.push(s);
                assert(r.deep_view() =~= mid.push(sw));
                assert(r.deep_view() =~= before + repeat_spec(
                    sw,
                    count_spec(bs.take(j + 1), switch_build@),
                ));
            } else {
                assert(r.deep_view() =~= before + repeat_spec(
                    sw,
                    count_spec(bs.take(j + 1), switch_build@),
                ));
            }
        }
        proof {
            assert(bs.take(m as int) =~= bs);
            assert(sws.take(i + 1).drop_last() =~= sws.take(i as int));
        }
    }
    assert(sws.take(n as int) =~= sws);
    r
}

/// The escaped instance name of a switch is read back from its unit file name.
pub proof fn law_vde_unit_name_round_trip(escaped: Seq<char>)
    ensures
        strip_affixes(vde_unit_name_spec(escaped) + service_suffix(), vde_unit_prefix(), service_suffix())
            == Some(escaped),
{
    lemma_strip_affixes_of_joined(vde_unit_prefix(), escaped, service_suffix());
}

/// The build of a switch instance, read back from its name, is the build it
/// was named for, when that build holds no `#`; after the first `#` comes the
/// architecture that was given, or `x86_64` when none was.
pub proof fn law_vde_instance_build(build: Seq<char>, arch: Option<Seq<char>>)
    requires
        !build.contains('#'),
    ensures
        first_field(vde_instance_name_spec(build, arch), '#') == build,
        vde_instance_name_spec(build, arch) == build + seq!['#'] + match arch {
            Some(a) => a,
            None => "x86_64"@,
        },
        vde_instance_name_spec(build, arch).skip(build.len() + 1 as int) == match arch {
            Some(a) => a,
            None => "x86_64"@,
        },
{
    lemma_fields_of_joined(build, '#', arch_or_default(arch));
    assert(vde_instance_name_spec(build, arch).skip(build.len() + 1 as int) =~= arch_or_default(arch));
}

/// Every switch whose build is among the builds to stop is stopped.
pub proof fn law_vde_switch_of_stopped_build_is_stopped(
    switches: Seq<Seq<char>>,
    builds: Seq<Seq<char>>,
    sw: Seq<char>,
)
    requires
        switches.contains(sw),
        builds.contains(first_field(sw, '#')),
    ensures
        vde_switches_to_stop_spec(switches, builds).contains(sw),
    decreases switches.len(),
{
    let rest = switches.drop_last();
    let tail = repeat_spec(switches.last(), count_spec(builds, first_field(switches.last(), '#')));
    if switches.last() == sw {
        lemma_count_contains(builds, first_field(sw, '#'));
        assert((vde_switches_to_stop_spec(rest, builds) + tail)[vde_switches_to_stop_spec(
            rest,
            builds,
        ).len() as int] == sw);
    } else {
        let k = choose|k: int| 0 <= k < switches.len() && switches[k] == sw;
        assert(rest[k] == sw);
        law_vde_switch_of_stopped_build_is_stopped(rest, builds, sw);
        let prev = vde_switches_to_stop_spec(rest, builds);
        let q = choose|q: int| 0 <= q < prev.len() && prev[q] == sw;
        assert((prev + tail)[q] == sw);
    }
}

/// Only switches whose build is among the builds to stop are stopped.
pub proof fn law_vde_stopped_switch_has_stopped_build(
    switches: Seq<Seq<char>>,
    builds: Seq<Seq<char>>,
    sw: Seq<char>,
)
    requires
        vde_switches_to_stop_spec(switches, builds).contains(sw),
    ensures
        switches.contains(sw),
        builds.contains(first_field(sw, '#')),
    decreases switches.len(),
{
    let rest = switches.drop_last();
    let last = switches.last();
    let prev = vde_switches_to_stop_spec(rest, builds);
    let tail = repeat_spec(last, count_spec(builds, first_field(last, '#')));
    let all = prev + tail;
    let q = choose|q: int| 0 <= q < all.len() && all[q] == sw;
    if q < prev.len() {
        assert(prev[q] == sw);
        law_vde_stopped_switch_has_stopped_build(rest, builds, sw);
        let k = choose|k: int| 0 <= k < rest.len() && rest[k] == sw;
        assert(switches[k] == sw);
    } else {
        assert(tail[q - prev.len()] == sw);
        assert(switches[switches.len() - 1] == sw);
        lemma_count_contains(builds, first_field(last, '#'));
    }
}

} // verus!
