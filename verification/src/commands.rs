use vstd::prelude::*;

use crate::profiles::{
    aliases_distinct, aliases_of, delete_profile as delete_from_store, entries_map, format_label,
    lemma_entries_map_at, is_not_found, is_not_found_in,
    ProfileError, ProfileFormat, Profiles,
};
use crate::text::{
    decimal, pad_left, pad_right, push_decimal, push_padded_left, push_padded_right,
    push_signed_decimal, push_spaces, push_str, signed_decimal, spaces, string_from_chars,
};
use crate::types::{Config, MonitorConfig};

verus! {

// ---------------------------------------------------------------------------
// Errors of the commands
// ---------------------------------------------------------------------------

/// Why a command failed, apart from the profile store.
#[derive(Debug)]
pub enum CommandError {
    /// No attached monitor was found to save.
    NoActiveMonitors,
    /// Committing the staged display changes failed with this code.
    CommitFailed { code: i32 },
}

/// The message of a command error.
pub open spec fn command_error_text(e: CommandError) -> Seq<char> {
    match e {
        CommandError::NoActiveMonitors => "No active monitors found."@,
        CommandError::CommitFailed { code } => "Failed to commit display changes (code "@
            + signed_decimal(code as int) + ")"@,
    }
}

impl CommandError {
    /// The message shown for this error.
    pub fn message(&self) -> (r: String)
        ensures
            r@ == command_error_text(*self),
    {
        let mut out: Vec<char> = Vec::new();
        match self {
            CommandError::NoActiveMonitors => {
                push_str(&mut out, "No active monitors found.");
            },
            CommandError::CommitFailed { code } => {
                push_str(&mut out, "Failed to commit display changes (code ");
                push_signed_decimal(&mut out, *code);
                push_str(&mut out, ")");
            },
        }
        string_from_chars(&out)
    }
}

// ---------------------------------------------------------------------------
// Lines about monitors
// ---------------------------------------------------------------------------

/// The name under which a monitor is shown: its friendly name, else its
/// device name.
pub open spec fn label_of(m: MonitorConfig) -> Seq<char> {
    match m.friendly_name {
        Some(f) => f@,
        None => m.device_name@,
    }
}

/// `true` or `false`.
pub open spec fn bool_text(b: bool) -> Seq<char> {
    if b {
        "true"@
    } else {
        "false"@
    }
}

/// One line describing a monitor, after `indent` spaces: its label padded
/// to 39 characters, its resolution, its refresh rate right-aligned in 3
/// characters, its position with each coordinate right-aligned in 5
/// characters, and whether it is primary.
pub open spec fn monitor_line_text(m: MonitorConfig, indent: nat) -> Seq<char> {
    spaces(indent) + pad_right(label_of(m), 39) + " "@ + decimal(m.width as nat) + "x"@ + decimal(
        m.height as nat,
    ) + " @ "@ + pad_left(decimal(m.refresh_rate as nat), 3) + "Hz  pos ("@ + pad_left(
        signed_decimal(m.position_x as int),
        5,
    ) + ", "@ + pad_left(signed_decimal(m.position_y as int), 5) + ")  primary: "@ + bool_text(
        m.is_primary,
    )
}

/// The characters of each line.
pub open spec fn lines_of(v: Seq<String>) -> Seq<Seq<char>> {
    v.map_values(|s: String| s@)
}

/// One line per monitor, each after `indent` spaces.
pub open spec fn monitor_lines(ms: Seq<MonitorConfig>, indent: nat) -> Seq<Seq<char>> {
    ms.map_values(|m: MonitorConfig| monitor_line_text(m, indent))
}

fn push_label(out: &mut Vec<char>, m: &MonitorConfig)
    ensures
        final(out)@ == old(out)@ + label_of(*m),
{
    match &m.friendly_name {
        Some(f) => push_str(out, f.as_str()),
        None => push_str(out, m.device_name.as_str()),
    }
}

fn label_chars(m: &MonitorConfig) -> (r: Vec<char>)
    ensures
        r@ == label_of(*m),
{
    let mut out: Vec<char> = Vec::new();
    push_label(&mut out, m);
    assert(out@ =~= label_of(*m));
    out
}

/// The line that describes a monitor, after `indent` spaces.
pub fn monitor_line(m: &MonitorConfig, indent: usize) -> (r: String)
    ensures
        r@ == monitor_line_text(*m, indent as nat),
{
    let mut out: Vec<char> = Vec::new();
    push_spaces(&mut out, indent);
    let label = label_chars(m);
    push_padded_right(&mut out, &label, 39);
    push_str(&mut out, " ");
    push_decimal(&mut out, m.width as u64);
    push_str(&mut out, "x");
    push_decimal(&mut out, m.height as u64);
    push_str(&mut out, " @ ");
    let mut rate: Vec<char> = Vec::new();
    push_decimal(&mut rate, m.refresh_rate as u64);
    assert(rate@ =~= decimal(m.refresh_rate as nat));
    push_padded_left(&mut out, &rate, 3);
    push_str(&mut out, "Hz  pos (");
    let mut x: Vec<char> = Vec::new();
    push_signed_decimal(&mut x, m.position_x);
    assert(x@ =~= signed_decimal(m.position_x as int));
    push_padded_left(&mut out, &x, 5);
    push_str(&mut out, ", ");
    let mut y: Vec<char> = Vec::new();
    push_signed_decimal(&mut y, m.position_y);
    assert(y@ =~= signed_decimal(m.position_y as int));
    push_padded_left(&mut out, &y, 5);
    push_str(&mut out, ")  primary: ");
    if m.is_primary {
        push_str(&mut out, "true");
    } else {
        push_str(&mut out, "false");
    }
    assert(out@ =~= monitor_line_text(*m, indent as nat));
    string_from_chars(&out)
}

fn push_monitor_lines(lines: &mut Vec<String>, ms: &Vec<MonitorConfig>, indent: usize)
    ensures
        lines_of(final(lines)@) == lines_of(old(lines)@) + monitor_lines(ms@, indent as nat),
{
    let ghost start = lines_of(lines@);
    let n = ms.len();
    for i in 0..n
        invariant
            n == ms@.len(),
            lines_of(lines@) =~= start + monitor_lines(ms@.subrange(0, i as int), indent as nat),
    {
        let line = monitor_line(&ms[i], indent);
        let ghost before = lines@;
        lines.push(line);
        proof {
            assert(ms@.subrange(0, i + 1) =~= ms@.subrange(0, i as int).push(ms@[i as int]));
            assert(lines_of(lines@) =~= lines_of(before).push(line@));
            assert(monitor_lines(ms@.subrange(0, i + 1), indent as nat) =~= monitor_lines(
                ms@.subrange(0, i as int),
                indent as nat,
            ).push(monitor_line_text(ms@[i as int], indent as nat)));
        }
    }
    assert(ms@.subrange(0, n as int) =~= ms@);
}

// ---------------------------------------------------------------------------
// save
// ---------------------------------------------------------------------------

/// The configuration to save from the monitors that were found; there must
/// be at least one.
pub fn collect_config(monitors: Vec<MonitorConfig>) -> (r: Result<Config, CommandError>)
    ensures
        r matches Ok(c) ==> c@ == monitors@,
        r matches Err(e) ==> e is NoActiveMonitors,
        r is Ok <==> monitors@.len() > 0,
{
    if monitors.len() == 0 {
        Err(CommandError::NoActiveMonitors)
    } else {
        Ok(Config { monitors })
    }
}

/// Where profiles are kept when no file is named.
pub open spec fn default_location() -> Seq<char> {
    "~/.wsm-profiles"@
}

/// What is reported after a save: a summary line, then one line per
/// monitor.
pub open spec fn save_report_text(
    alias: Seq<char>,
    location: Seq<char>,
    format: ProfileFormat,
    monitors: Seq<MonitorConfig>,
) -> Seq<Seq<char>> {
    seq![
        "Saved "@ + decimal(monitors.len()) + " monitor(s) to profile '"@ + alias + "' in "@
            + location + " ("@ + format_label(format) + ")"@,
    ] + monitor_lines(monitors, 2)
}

/// The report of a save names the format that was written, wherever it was
/// written: its first line ends in ` (JSON)` or ` (YAML)` as the format is;
/// it then gives, in order, the 2-space line of each saved monitor.
pub proof fn law_save_report_names_format(
    alias: Seq<char>,
    location: Seq<char>,
    format: ProfileFormat,
    monitors: Seq<MonitorConfig>,
)
    ensures
        save_report_text(alias, location, format, monitors).len() == monitors.len() + 1,
        save_report_text(alias, location, format, monitors)[0].len() >= 7,
        format == ProfileFormat::Json ==> ({
            let l = save_report_text(alias, location, format, monitors)[0];
            l.skip(l.len() - 7) == " (JSON)"@
        }),
        format == ProfileFormat::Yaml ==> ({
            let l = save_report_text(alias, location, format, monitors)[0];
            l.skip(l.len() - 7) == " (YAML)"@
        }),
        forall|k: int|
            0 <= k < monitors.len() ==> save_report_text(alias, location, format, monitors)[k + 1]
                == monitor_line_text(#[trigger] monitors[k], 2),
{
    reveal_strlit(" (");
    reveal_strlit(")");
    reveal_strlit("JSON");
    reveal_strlit("YAML");
    reveal_strlit(" (JSON)");
    reveal_strlit(" (YAML)");
    let t = save_report_text(alias, location, format, monitors);
    let l = t[0];
    let label = format_label(format);
    assert(label.len() == 4);
    let head = "Saved "@ + decimal(monitors.len()) + " monitor(s) to profile '"@ + alias + "' in "@
        + location;
    assert(l == head + " ("@ + label + ")"@);
    assert(l.skip(l.len() - 7) =~= " ("@ + label + ")"@);
    assert forall|k: int| 0 <= k < monitors.len() implies t[k + 1] == monitor_line_text(
        #[trigger] monitors[k],
        2,
    ) by {
        assert(t[k + 1] == monitor_lines(monitors, 2)[k]);
    }
}

/// The lines reported after saving `config` under `alias`, to the named
/// file or, when none is named, to the default profiles file.
pub fn save_report(alias: &str, file: Option<&str>, format: ProfileFormat, config: &Config) -> (r:
    Vec<String>)
    ensures
        lines_of(r@) == save_report_text(
            alias@,
            match file {
                Some(f) => f@,
                None => default_location(),
            },
            format,
            config@,
        ),
{
    let mut out: Vec<char> = Vec::new();
    push_str(&mut out, "Saved ");
    push_decimal(&mut out, config.monitors.len() as u64);
    push_str(&mut out, " monitor(s) to profile '");
    push_str(&mut out, alias);
    push_str(&mut out, "' in ");
    match file {
        Some(f) => push_str(&mut out, f),
        None => push_str(&mut out, "~/.wsm-profiles"),
    }
    push_str(&mut out, " (");
    push_str(&mut out, format.label());
    push_str(&mut out, ")");
    let mut lines: Vec<String> = Vec::new();
    lines.push(string_from_chars(&out));
    push_monitor_lines(&mut lines, &config.monitors, 2);
    proof {
        let location = match file {
            Some(f) => f@,
            None => default_location(),
        };
        assert(lines_of(lines@) =~= save_report_text(alias@, location, format, config@));
    }
    lines
}

// ---------------------------------------------------------------------------
// load
// ---------------------------------------------------------------------------

/// The configuration to apply: the one saved under `alias` in `profiles`,
/// which were read from the file `source` when one is named and from the
/// default store otherwise.
pub fn load_profile(profiles: &Profiles, alias: &str, source: Option<&str>) -> (r: Result<
    Config,
    ProfileError,
>)
    ensures
        r matches Ok(c) ==> profiles@.contains_key(alias@) && c@ == profiles@[alias@],
        r is Ok <==> profiles@.contains_key(alias@),
        r matches Err(e) ==> match source {
            Some(s) => is_not_found_in(e, alias@, s@),
            None => is_not_found(e, alias@),
        },
{
    match profiles.get(alias) {
        Some(c) => Ok(c.clone()),
        None => match source {
            Some(s) => Err(
                ProfileError::NotFoundIn { alias: String::from_str(alias), source: String::from_str(s) },
            ),
            None => Err(ProfileError::NotFound { alias: String::from_str(alias) }),
        },
    }
}

/// The line announcing that a profile is being applied.
pub fn applying_message(alias: &str, config: &Config) -> (r: String)
    ensures
        r@ == "Applying "@ + decimal(config@.len()) + " monitor configuration(s) from profile '"@
            + alias@ + "'..."@,
{
    let mut out: Vec<char> = Vec::new();
    push_str(&mut out, "Applying ");
    push_decimal(&mut out, config.monitors.len() as u64);
    push_str(&mut out, " monitor configuration(s) from profile '");
    push_str(&mut out, alias);
    push_str(&mut out, "'...");
    string_from_chars(&out)
}

// ---------------------------------------------------------------------------
// apply
// ---------------------------------------------------------------------------

/// The primary monitors of a list, in their order.
pub open spec fn primaries(ms: Seq<MonitorConfig>) -> Seq<MonitorConfig> {
    ms.filter(|m: MonitorConfig| m.is_primary)
}

/// The monitors of a list that are not primary, in their order.
pub open spec fn secondaries(ms: Seq<MonitorConfig>) -> Seq<MonitorConfig> {
    ms.filter(|m: MonitorConfig| !m.is_primary)
}

/// The order in which monitors are staged: the primary ones first, as the
/// system needs a valid primary display at every step; otherwise the order of
/// the configuration is kept.
pub fn staging_order(config: &Config) -> (r: Vec<MonitorConfig>)
    ensures
        r@ == primaries(config@) + secondaries(config@),
        r@.to_multiset() == config@.to_multiset(),
        r@.filter(|m: MonitorConfig| m.is_primary) == config@.filter(|m: MonitorConfig| m.is_primary),
        r@.filter(|m: MonitorConfig| !m.is_primary) == config@.filter(
            |m: MonitorConfig| !m.is_primary,
        ),
        forall|i: int, j: int|
            0 <= i < j < r@.len() && (#[trigger] r@[j]).is_primary ==> (#[trigger] r@[i]).is_primary,
{
    let r = partition_primary_first(config);
    proof {
        law_staging_order_is_stable_partition(config@);
        law_staging_order_primary_first(config@);
    }
    r
}

/// The primary monitors of the configuration, then the others, each group in
/// the configuration's order.
fn partition_primary_first(config: &Config) -> (r: Vec<MonitorConfig>)
    ensures
        r@ == primaries(config@) + secondaries(config@),
{
    let ms = &config.monitors;
    let n = ms.len();
    let mut first: Vec<MonitorConfig> = Vec::new();
    let mut rest: Vec<MonitorConfig> = Vec::new();
    for i in 0..n
        invariant
            n == ms@.len(),
            ms@ == config@,
            first@ == primaries(ms@.take(i as int)),
            rest@ == secondaries(ms@.take(i as int)),
    {
        proof {
            reveal_with_fuel(Seq::<_>::filter, 1);
            assert(ms@.take(i + 1).drop_last() =~= ms@.take(i as int));
        }
        if ms[i].is_primary {
            first.push(ms[i].clone());
        } else {
            rest.push(ms[i].clone());
        }
    }
    assert(ms@.take(n as int) =~= ms@);
    let mut r = first;
    let k = rest.len();
    let ghost head = r@;
    for j in 0..k
        invariant
            k == rest@.len(),
            r@ == head + rest@.take(j as int),
    {
        r.push(rest[j].clone());
        assert(rest@.take(j + 1) =~= rest@.take(j as int).push(rest@[j as int]));
    }
    assert(rest@.take(k as int) =~= rest@);
    r
}

proof fn lemma_partition_len(ms: Seq<MonitorConfig>)
    ensures
        primaries(ms).len() + secondaries(ms).len() == ms.len(),
    decreases ms.len(),
{
    reveal_with_fuel(Seq::<_>::filter, 1);
    if ms.len() > 0 {
        lemma_partition_len(ms.drop_last());
    }
}

/// Staging keeps every monitor, and puts every primary monitor before every
/// monitor that is not primary.
pub proof fn law_staging_order_primary_first(ms: Seq<MonitorConfig>)
    ensures
        (primaries(ms) + secondaries(ms)).len() == ms.len(),
        forall|i: int, j: int|
            0 <= i < j < ms.len() && (#[trigger] (primaries(ms) + secondaries(ms))[j]).is_primary
                ==> (#[trigger] (primaries(ms) + secondaries(ms))[i]).is_primary,
{
    lemma_partition_len(ms);
    let p = primaries(ms);
    let s = secondaries(ms);
    let r = p + s;
    assert forall|i: int, j: int|
        0 <= i < j < ms.len() && (#[trigger] r[j]).is_primary implies (#[trigger] r[i]).is_primary by {
        if j >= p.len() {
            assert(r[j] == s[j - p.len()]);
            assert(s.contains(s[j - p.len()]));
        } else {
            assert(r[i] == p[i]);
            assert(p.contains(p[i]));
        }
    }
}

proof fn lemma_filter_all<A>(s: Seq<A>, p: spec_fn(A) -> bool)
    requires
        forall|i: int| 0 <= i < s.len() ==> p(#[trigger] s[i]),
    ensures
        s.filter(p) == s,
    decreases s.len(),
{
    reveal_with_fuel(Seq::<_>::filter, 1);
    if s.len() > 0 {
        let t = s.drop_last();
        assert forall|i: int| 0 <= i < t.len() implies p(#[trigger] t[i]) by {
            assert(t[i] == s[i]);
        }
        lemma_filter_all(t, p);
        assert(p(s[s.len() - 1]));
        assert(t.push(s.last()) =~= s);
    }
}

proof fn lemma_filter_none<A>(s: Seq<A>, p: spec_fn(A) -> bool)
    requires
        forall|i: int| 0 <= i < s.len() ==> !p(#[trigger] s[i]),
    ensures
        s.filter(p) == Seq::<A>::empty(),
    decreases s.len(),
{
    reveal_with_fuel(Seq::<_>::filter, 1);
    if s.len() > 0 {
        let t = s.drop_last();
        assert forall|i: int| 0 <= i < t.len() implies !p(#[trigger] t[i]) by {
            assert(t[i] == s[i]);
        }
        lemma_filter_none(t, p);
        assert(!p(s[s.len() - 1]));
    }
}

proof fn lemma_partition_multiset(ms: Seq<MonitorConfig>)
    ensures
        primaries(ms).to_multiset().add(secondaries(ms).to_multiset()) == ms.to_multiset(),
    decreases ms.len(),
{
    broadcast use vstd::seq_lib::group_to_multiset_ensures;
    broadcast use vstd::multiset::group_multiset_axioms;
    reveal_with_fuel(Seq::<_>::filter, 1);
    if ms.len() == 0 {
        assert(primaries(ms) =~= Seq::<MonitorConfig>::empty());
        assert(secondaries(ms) =~= Seq::<MonitorConfig>::empty());
        assert(primaries(ms).to_multiset().add(secondaries(ms).to_multiset()) =~= ms.to_multiset());
    } else {
        let t = ms.drop_last();
        let x = ms.last();
        lemma_partition_multiset(t);
        assert(t.push(x) =~= ms);
        if x.is_primary {
            assert(primaries(ms) == primaries(t).push(x));
            assert(secondaries(ms) == secondaries(t));
        } else {
            assert(primaries(ms) == primaries(t));
            assert(secondaries(ms) == secondaries(t).push(x));
        }
        assert(primaries(ms).to_multiset().add(secondaries(ms).to_multiset()) =~= ms.to_multiset());
    }
}

/// Staging changes no monitor record and drops or adds none: the staged
/// records are the configuration's records, the same number of times each;
/// the primary ones come in the configuration's order, and so do the others.
pub proof fn law_staging_order_is_stable_partition(ms: Seq<MonitorConfig>)
    ensures
        (primaries(ms) + secondaries(ms)).to_multiset() == ms.to_multiset(),
        (primaries(ms) + secondaries(ms)).filter(|m: MonitorConfig| m.is_primary) == ms.filter(
            |m: MonitorConfig| m.is_primary,
        ),
        (primaries(ms) + secondaries(ms)).filter(|m: MonitorConfig| !m.is_primary) == ms.filter(
            |m: MonitorConfig| !m.is_primary,
        ),
{
    broadcast use vstd::seq_lib::lemma_multiset_commutative;
    let p = primaries(ms);
    let s = secondaries(ms);
    lemma_partition_multiset(ms);
    let is_p = |m: MonitorConfig| m.is_primary;
    let not_p = |m: MonitorConfig| !m.is_primary;
    ms.filter_lemma(is_p);
    ms.filter_lemma(not_p);
    Seq::filter_distributes_over_add(p, s, is_p);
    Seq::filter_distributes_over_add(p, s, not_p);
    assert forall|i: int| 0 <= i < p.len() implies is_p(#[trigger] p[i]) by {}
    assert forall|i: int| 0 <= i < s.len() implies !is_p(#[trigger] s[i]) by {}
    assert forall|i: int| 0 <= i < p.len() implies !not_p(#[trigger] p[i]) by {}
    assert forall|i: int| 0 <= i < s.len() implies not_p(#[trigger] s[i]) by {}
    lemma_filter_all(p, is_p);
    lemma_filter_none(s, is_p);
    lemma_filter_none(p, not_p);
    lemma_filter_all(s, not_p);
    assert(p + Seq::<MonitorConfig>::empty() =~= p);
    assert(Seq::<MonitorConfig>::empty() + s =~= s);
}

/// The line reported when a monitor was staged.
pub fn staged_message(m: &MonitorConfig) -> (r: String)
    ensures
        r@ == "  "@ + label_of(*m) + " — "@ + decimal(m.width as nat) + "x"@ + decimal(
            m.height as nat,
        ) + " @ "@ + decimal(m.refresh_rate as nat) + "Hz staged OK"@,
{
    let mut out: Vec<char> = Vec::new();
    push_str(&mut out, "  ");
    push_label(&mut out, m);
    push_str(&mut out, " — ");
    push_decimal(&mut out, m.width as u64);
    push_str(&mut out, "x");
    push_decimal(&mut out, m.height as u64);
    push_str(&mut out, " @ ");
    push_decimal(&mut out, m.refresh_rate as u64);
    push_str(&mut out, "Hz staged OK");
    string_from_chars(&out)
}

/// The warning reported when staging a monitor failed with `code`.
pub fn staging_failed_message(m: &MonitorConfig, code: i32) -> (r: String)
    ensures
        r@ == "  Warning: staging failed for "@ + label_of(*m) + " (code "@ + signed_decimal(
            code as int,
        ) + ")"@,
{
    let mut out: Vec<char> = Vec::new();
    push_str(&mut out, "  Warning: staging failed for ");
    push_label(&mut out, m);
    push_str(&mut out, " (code ");
    push_signed_decimal(&mut out, code);
    push_str(&mut out, ")");
    string_from_chars(&out)
}

/// Whether a monitor is staged as the new primary display: exactly when it
/// is the primary one of the configuration.
pub fn stages_as_primary(m: &MonitorConfig) -> (r: bool)
    ensures
        r == m.is_primary,
{
    m.is_primary
}

/// What is reported after staging a monitor: the staged line when the system
/// answered with its success code, else the warning with the code it gave.
pub fn staging_outcome(m: &MonitorConfig, code: i32, success: i32) -> (r: Result<String, String>)
    ensures
        r is Ok <==> code == success,
        r matches Ok(line) ==> line@ == "  "@ + label_of(*m) + " — "@ + decimal(m.width as nat)
            + "x"@ + decimal(m.height as nat) + " @ "@ + decimal(m.refresh_rate as nat)
            + "Hz staged OK"@,
        r matches Err(line) ==> line@ == "  Warning: staging failed for "@ + label_of(*m)
            + " (code "@ + signed_decimal(code as int) + ")"@,
{
    if code == success {
        Ok(staged_message(m))
    } else {
        Err(staging_failed_message(m, code))
    }
}

/// The outcome of committing the staged changes: success exactly when the
/// system answered with its success code, else `CommitFailed` with the code
/// it gave.
pub fn commit_outcome(code: i32, success: i32) -> (r: Result<(), CommandError>)
    ensures
        r is Ok <==> code == success,
        r matches Err(e) ==> e == (CommandError::CommitFailed { code }),
{
    if code == success {
        Ok(())
    } else {
        Err(CommandError::CommitFailed { code })
    }
}

// ---------------------------------------------------------------------------
// list
// ---------------------------------------------------------------------------

/// The lines for one saved profile: its alias and monitor count, then one
/// line per monitor.
pub open spec fn profile_block(e: (String, Config)) -> Seq<Seq<char>> {
    seq!["  "@ + e.0@ + " — "@ + decimal(e.1@.len()) + " monitor(s)"@] + monitor_lines(e.1@, 4)
}

/// The lines for a run of saved profiles, in order.
pub open spec fn profile_blocks(es: Seq<(String, Config)>) -> Seq<Seq<char>>
    decreases es.len(),
{
    if es.len() == 0 {
        Seq::empty()
    } else {
        profile_blocks(es.drop_last()) + profile_block(es.last())
    }
}

/// What `list` reports: a notice when nothing is saved, else a heading and
/// the lines of every profile in the order in which it was first saved.
pub open spec fn list_report_text(es: Seq<(String, Config)>) -> Seq<Seq<char>> {
    if es.len() == 0 {
        seq!["No profiles saved yet."@]
    } else {
        seq!["Saved profiles in ~/.wsm-profiles:"@] + profile_blocks(es)
    }
}

/// How many lines the profiles before position `p` take in a listing: a
/// heading line per profile and a line per monitor.
pub open spec fn lines_before(es: Seq<(String, Config)>, p: int) -> int
    decreases p,
{
    if p <= 0 {
        0
    } else {
        lines_before(es, p - 1) + 1 + es[p - 1].1@.len()
    }
}

proof fn lemma_lines_before_prefix(es: Seq<(String, Config)>, t: Seq<(String, Config)>, p: int)
    requires
        0 <= p <= t.len(),
        p <= es.len(),
        forall|q: int| 0 <= q < p ==> es[q] == t[q],
    ensures
        lines_before(es, p) == lines_before(t, p),
    decreases p,
{
    if p > 0 {
        lemma_lines_before_prefix(es, t, p - 1);
    }
}

proof fn lemma_lines_before_monotone(es: Seq<(String, Config)>, p: int, q: int)
    requires
        0 <= p <= q,
    ensures
        0 <= lines_before(es, p) <= lines_before(es, q),
    decreases q,
{
    if p < q {
        lemma_lines_before_monotone(es, p, q - 1);
    } else {
        lemma_lines_before_nonneg(es, p);
    }
}

proof fn lemma_lines_before_nonneg(es: Seq<(String, Config)>, p: int)
    ensures
        0 <= lines_before(es, p),
    decreases p,
{
    if p > 0 {
        lemma_lines_before_nonneg(es, p - 1);
    }
}

proof fn lemma_profile_block_shape(e: (String, Config))
    ensures
        profile_block(e).len() == 1 + e.1@.len(),
        profile_block(e)[0] == "  "@ + e.0@ + " — "@ + decimal(e.1@.len()) + " monitor(s)"@,
        forall|k: int|
            0 <= k < e.1@.len() ==> profile_block(e)[1 + k] == monitor_line_text(
                #[trigger] e.1@[k],
                4,
            ),
{
    assert forall|k: int| 0 <= k < e.1@.len() implies profile_block(e)[1 + k] == monitor_line_text(
        #[trigger] e.1@[k],
        4,
    ) by {
        assert(profile_block(e)[1 + k] == monitor_lines(e.1@, 4)[k]);
    }
}

proof fn lemma_profile_blocks_layout(es: Seq<(String, Config)>)
    ensures
        profile_blocks(es).len() == lines_before(es, es.len() as int),
        forall|p: int, j: int|
            #![trigger profile_block(es[p])[j]]
            0 <= p < es.len() && 0 <= j < 1 + es[p].1@.len() ==> profile_blocks(es)[lines_before(
                es,
                p,
            ) + j] == profile_block(es[p])[j],
    decreases es.len(),
{
    if es.len() > 0 {
        let t = es.drop_last();
        let n = es.len() as int;
        lemma_profile_blocks_layout(t);
        assert forall|q: int| 0 <= q < n - 1 implies es[q] == t[q] by {}
        lemma_lines_before_prefix(es, t, n - 1);
        lemma_profile_block_shape(es.last());
        let blocks = profile_blocks(es);
        assert(blocks == profile_blocks(t) + profile_block(es.last()));
        assert forall|p: int, j: int|
            #![trigger profile_block(es[p])[j]]
            0 <= p < es.len() && 0 <= j < 1 + es[p].1@.len() implies blocks[lines_before(es, p) + j]
                == profile_block(es[p])[j] by {
            if p < n - 1 {
                lemma_lines_before_prefix(es, t, p);
                lemma_lines_before_monotone(t, p + 1, n - 1);
                lemma_lines_before_monotone(t, p, p + 1);
                assert(es[p] == t[p]);
                assert(lines_before(t, p + 1) == lines_before(t, p) + 1 + t[p].1@.len());
                assert(profile_block(t[p])[j] == profile_block(es[p])[j]);
                assert(profile_blocks(t)[lines_before(t, p) + j] == profile_block(t[p])[j]);
                assert(lines_before(t, p) + j < profile_blocks(t).len());
                assert(blocks[lines_before(es, p) + j] == profile_blocks(t)[lines_before(t, p) + j]);
            } else {
                assert(es[p] == es.last());
                assert(lines_before(es, p) == profile_blocks(t).len());
                assert(blocks[lines_before(es, p) + j] == profile_block(es.last())[j]);
            }
        }
    }
}

/// A listing shows every saved profile with exactly its saved monitors: the
/// profile at position `p` of the store gets its heading line (alias and
/// monitor count) and then, in saved order, the 4-space line of each monitor
/// that the store holds under that alias; after the heading of the listing,
/// the profiles' lines follow one another with nothing else in between.
pub proof fn law_list_shows_saved_monitors(es: Seq<(String, Config)>, p: int)
    requires
        aliases_distinct(es),
        0 <= p < es.len(),
    ensures
        list_report_text(es).len() == 1 + lines_before(es, es.len() as int),
        list_report_text(es)[1 + lines_before(es, p)] == "  "@ + es[p].0@ + " — "@ + decimal(
            entries_map(es)[es[p].0@].len(),
        ) + " monitor(s)"@,
        forall|k: int|
            0 <= k < entries_map(es)[es[p].0@].len() ==> list_report_text(es)[2 + lines_before(
                es,
                p,
            ) + k] == monitor_line_text(#[trigger] entries_map(es)[es[p].0@][k], 4),
{
    lemma_entries_map_at(es, p);
    lemma_profile_blocks_layout(es);
    lemma_profile_block_shape(es[p]);
    lemma_lines_before_monotone(es, p + 1, es.len() as int);
    lemma_lines_before_monotone(es, p, p + 1);
    let t = list_report_text(es);
    let lb = lines_before(es, p);
    assert(lines_before(es, p + 1) == lb + 1 + es[p].1@.len());
    assert(t == seq!["Saved profiles in ~/.wsm-profiles:"@] + profile_blocks(es));
    assert(profile_block(es[p])[0] == profile_blocks(es)[lb + 0]);
    assert(t[1 + lb] == profile_blocks(es)[lb]);
    assert forall|k: int| 0 <= k < entries_map(es)[es[p].0@].len() implies t[2 + lines_before(
        es,
        p,
    ) + k] == monitor_line_text(#[trigger] entries_map(es)[es[p].0@][k], 4) by {
        assert(profile_block(es[p])[1 + k] == profile_blocks(es)[lb + (1 + k)]);
        assert(t[2 + lb + k] == profile_blocks(es)[lb + 1 + k]);
        assert(entries_map(es)[es[p].0@][k] == es[p].1@[k]);
    }
}

/// The lines that list every saved profile.
pub fn list_profiles(profiles: &Profiles) -> (r: Vec<String>)
    ensures
        lines_of(r@) == list_report_text(profiles.ordered()),
        forall|p: int, k: int|
            0 <= p < profiles.ordered().len() && 0 <= k < profiles@[profiles.ordered()[p].0@].len()
                ==> lines_of(r@)[2 + lines_before(profiles.ordered(), p) + k] == monitor_line_text(
                #[trigger] profiles@[profiles.ordered()[p].0@][k],
                4,
            ),
{
    let es = profiles.entries();
    let n = es.len();
    let mut lines: Vec<String> = Vec::new();
    if n == 0 {
        lines.push(String::from_str("No profiles saved yet."));
        assert(lines_of(lines@) =~= list_report_text(profiles.ordered()));
        return lines;
    }
    lines.push(String::from_str("Saved profiles in ~/.wsm-profiles:"));
    let ghost heading = lines_of(lines@);
    for i in 0..n
        invariant
            n == es@.len(),
            lines_of(lines@) =~= heading + profile_blocks(es@.take(i as int)),
    {
        let ghost before = lines_of(lines@);
        let mut out: Vec<char> = Vec::new();
        push_str(&mut out, "  ");
        push_str(&mut out, es[i].0.as_str());
        push_str(&mut out, " — ");
        push_decimal(&mut out, es[i].1.monitors.len() as u64);
        push_str(&mut out, " monitor(s)");
        lines.push(string_from_chars(&out));
        push_monitor_lines(&mut lines, &es[i].1.monitors, 4);
        proof {
            assert(es@.take(i + 1).drop_last() =~= es@.take(i as int));
            assert(es@.take(i + 1).last() == es@[i as int]);
            assert(lines_of(lines@) =~= before + profile_block(es@[i as int]));
        }
    }
    assert(es@.take(n as int) =~= es@);
    proof {
        let o = profiles.ordered();
        assert(lines_of(lines@) == list_report_text(o));
        assert(aliases_distinct(o));
        assert(entries_map(o) == profiles@);
        assert forall|p: int, k: int|
            0 <= p < o.len() && 0 <= k < profiles@[o[p].0@].len() implies lines_of(lines@)[2
                + lines_before(o, p) + k] == monitor_line_text(
            #[trigger] profiles@[o[p].0@][k],
            4,
        ) by {
            law_list_shows_saved_monitors(o, p);
        }
    }
    lines
}

// ---------------------------------------------------------------------------
// delete
// ---------------------------------------------------------------------------

/// Deletes the profile `alias` from the store and gives the line that
/// reports it; `NotFound`, with the store unchanged, when there is none.
pub fn delete_profile(profiles: &mut Profiles, alias: &str) -> (r: Result<String, ProfileError>)
    ensures
        final(profiles)@ == old(profiles)@.remove(alias@),
        r is Ok <==> old(profiles)@.contains_key(alias@),
        r matches Ok(msg) ==> msg@ == "Profile '"@ + alias@ + "' deleted."@,
        r matches Err(e) ==> is_not_found(e, alias@),
        r is Ok ==> exists|i: int|
            0 <= i < aliases_of(old(profiles).ordered()).len() && aliases_of(
                old(profiles).ordered(),
            )[i] == alias@ && aliases_of(final(profiles).ordered()) == aliases_of(
                old(profiles).ordered(),
            ).remove(i),
        r is Err ==> final(profiles).ordered() == old(profiles).ordered(),
{
    match delete_from_store(profiles, alias) {
        Ok(()) => {
            let mut out: Vec<char> = Vec::new();
            push_str(&mut out, "Profile '");
            push_str(&mut out, alias);
            push_str(&mut out, "' deleted.");
            Ok(string_from_chars(&out))
        },
        Err(e) => Err(e),
    }
}

} // verus!
