//! What holds of the settings.

use crate::config;
use crate::config::{ConfigView, Environment};
use crate::text;
use crate::text_laws;
use vstd::prelude::*;

verus! {

/// Whether a variable is set to a writing of a number.
pub open spec fn says(variable: Option<String>, n: nat) -> bool {
    variable is Some && text_laws::is_written(variable->0@, n)
}

/// Whether a variable is not set, or writes no number that 64 bits hold.
pub open spec fn says_no_number(variable: Option<String>) -> bool {
    forall|n: u64| !(#[trigger] says(variable, n as nat))
}

/// A number that is written is read, and where none is written none is.
proof fn lemma_says(variable: Option<String>, n: u64)
    requires
        variable is Some,
    ensures
        says(variable, n as nat) ==> text::parsed_u64(variable->0@) == Some(n),
        says_no_number(variable) ==> text::parsed_u64(variable->0@) is None,
{
    let s = variable->0@;
    if says(variable, n as nat) {
        let (zeros, plus) = choose|zeros: nat, plus: bool|
            s == #[trigger] text_laws::written(n as nat, zeros, plus);
        text_laws::law_a_written_number_is_read(n as nat, zeros, plus);
    }
    text_laws::law_only_a_written_number_is_read(s);
    if let Some(m) = text::parsed_u64(s) {
        assert(says(variable, m as nat));
    }
}

/// Each number in the settings is the one that its variable writes, however large or
/// small beside the default. The default holds only where the variable is not set or
/// writes no number that 64 bits hold.
pub proof fn law_numbers_are_taken_as_written(env: Environment, n: u64)
    ensures
        says(env.poll_seconds, n as nat) ==> config::configured(env).poll == n,
        says(env.max_dashboards, n as nat) && n <= usize::MAX ==> config::configured(
            env,
        ).limits.max_dashboards == n,
        says(env.max_dashboard_bytes, n as nat) ==> config::configured(
            env,
        ).limits.max_dashboard_bytes == n,
        says(env.max_directory_bytes, n as nat) ==> config::configured(
            env,
        ).limits.max_directory_bytes == n,
        says_no_number(env.poll_seconds) ==> config::configured(env).poll == 30,
        says_no_number(env.max_dashboards) ==> config::configured(env).limits.max_dashboards == 100,
        says_no_number(env.max_dashboard_bytes) ==> config::configured(
            env,
        ).limits.max_dashboard_bytes == 256 * 1024,
        says_no_number(env.max_directory_bytes) ==> config::configured(
            env,
        ).limits.max_directory_bytes == 4 * 1024 * 1024,
{
    if env.poll_seconds is Some {
        lemma_says(env.poll_seconds, n);
    }
    if env.max_dashboards is Some {
        lemma_says(env.max_dashboards, n);
    }
    if env.max_dashboard_bytes is Some {
        lemma_says(env.max_dashboard_bytes, n);
    }
    if env.max_directory_bytes is Some {
        lemma_says(env.max_directory_bytes, n);
    }
}

/// A switch is off where its variable says `false`, and on where the variable says
/// anything else or is not set.
pub proof fn law_only_false_switches_off(env: Environment)
    ensures
        config::configured(env).enabled <==> !(env.enabled is Some && env.enabled->0@ == "false"@),
        config::configured(env).builtins <==> !(env.builtins is Some && env.builtins->0@
            == "false"@),
{
}

/// A text in the settings is the one in its variable, whatever it is. Where the variable
/// is not set the directory is the usual one, and the label is empty.
pub proof fn law_texts_are_taken_as_written(env: Environment)
    ensures
        env.dir is Some ==> config::configured(env).path == env.dir->0@,
        env.dir is None ==> config::configured(env).path == "/etc/vedavid/dashboards"@,
        env.cluster_label is Some ==> config::configured(env).cluster_label
            == env.cluster_label->0@,
        env.cluster_label is None ==> config::configured(env).cluster_label.len() == 0,
{
}

/// The sources are the names in their variable, in its order, however many: one more
/// name after a comma is one more source. Where the variable is not set there are none.
pub proof fn law_sources_are_the_names_listed(
    env: Environment,
    more: Environment,
    before: Seq<char>,
    name: Seq<char>,
    after: Seq<char>,
)
    requires
        env.sources is Some,
        more.sources is Some,
        more.sources->0@ == env.sources->0@ + seq![','] + (before + name + after),
        forall|i: int| 0 <= i < before.len() ==> text::is_space(#[trigger] before[i]),
        forall|i: int| 0 <= i < after.len() ==> text::is_space(#[trigger] after[i]),
        name.len() > 0 ==> !text::is_space(name[0]) && !text::is_space(name.last()),
        !name.contains(','),
    ensures
        name.len() > 0 ==> config::configured(more).sources == config::configured(
            env,
        ).sources.push(name),
        name.len() == 0 ==> config::configured(more).sources == config::configured(env).sources,
        env.sources->0@ == before + name + after ==> config::configured(env).sources == (
        if name.len() == 0 {
            Seq::<Seq<char>>::empty()
        } else {
            seq![name]
        }),
        forall|none: Environment|
            none.sources is None ==> (#[trigger] config::configured(none)).sources.len() == 0,
{
    let listed = config::configured(env).sources;
    text_laws::law_a_comma_parts_names(env.sources->0@, before + name + after);
    text_laws::law_one_field_is_one_name(before, name, after);
    assert(listed + seq![name] =~= listed.push(name));
    assert(listed + Seq::<Seq<char>>::empty() =~= listed);
}

/// Settings are refused if and only if the store is on, nothing is embedded and no
/// source is named: then no dashboard could ever be served.
pub proof fn law_what_is_refused(c: ConfigView)
    ensures
        c.serves_nothing() <==> c.enabled && !c.builtins && c.sources =~= Seq::<
            Seq<char>,
        >::empty(),
{
}

/// The usual limits and settings, in numbers.
pub proof fn law_defaults_in_numbers()
    ensures
        config::default_limits().max_dashboards == 100,
        config::default_limits().max_dashboard_bytes == 262144,
        config::default_limits().max_directory_bytes == 4194304,
        config::default_config().limits == config::default_limits(),
        config::default_config().enabled && config::default_config().builtins,
        config::default_config().poll == 30,
        config::default_config().path == "/etc/vedavid/dashboards"@,
        config::default_config().cluster_label.len() == 0,
        config::default_config().sources.len() == 0,
{
}

} // verus!
