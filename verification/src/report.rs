//! In which order the backends are tried, and what the user is told.
use crate::ene_dram::diagnostics::buses_view;
use crate::ene_dram::diagnostics::AddressDiagnostic;
use crate::ene_dram::diagnostics::AddressFinding;
use crate::ene_dram::diagnostics::BusDiagnostic;
use crate::ene_dram::diagnostics::BusFinding;
use crate::ene_dram::identity::failures_view;
use crate::ene_dram::lighting::results_view;
use crate::ene_dram::lighting::DeviceWriteResult;
use crate::ene_dram::lighting::WriteOutcome;
use crate::text::decimal_numeral;
use crate::text::hex_padded;
use crate::text::joined;
use crate::text::push_decimal;
use crate::text::push_hex_padded;
use crate::text::push_joined;
use crate::text::quote;
use crate::text::quoted;
use crate::text::texts;
use vstd::prelude::*;

verus! {

/// The start of a line about one controller.
pub open spec fn controller_label(address: u16) -> Seq<char> {
    "ENE DRAM 0x"@ + hex_padded(address as nat)
}

/// The line for an address that could not be probed.
pub open spec fn probe_failure_line(failure: (u16, Seq<char>)) -> Seq<char> {
    controller_label(failure.0) + ": PROBE FAILED: "@ + failure.1
}

/// The line for a controller that was written.
pub open spec fn write_line(outcome: WriteOutcome) -> Seq<char> {
    match outcome.result {
        Ok(_) => controller_label(outcome.address) + ": OK"@,
        Err(message) => controller_label(outcome.address) + ": FAILED: "@ + message,
    }
}

/// The number of controllers that were updated.
pub open spec fn updated_count(outcomes: Seq<WriteOutcome>) -> nat
    decreases outcomes.len(),
{
    if outcomes.len() == 0 {
        0
    } else {
        let others = updated_count(outcomes.drop_last());
        if outcomes.last().result is Ok {
            others + 1
        } else {
            others
        }
    }
}

/// The line that sums up.
pub open spec fn summary_line(updated: nat, supported: nat) -> Seq<char> {
    "ENE DRAM: "@ + decimal_numeral(updated) + "/"@ + decimal_numeral(supported)
        + " supported controller(s) updated"@
}

/// All lines about the controllers.
pub open spec fn dram_lines(
    failures: Seq<(u16, Seq<char>)>,
    outcomes: Seq<WriteOutcome>,
) -> Seq<Seq<char>> {
    failures.map_values(|failure: (u16, Seq<char>)| probe_failure_line(failure))
        + outcomes.map_values(|outcome: WriteOutcome| write_line(outcome)) + seq![
        summary_line(updated_count(outcomes), outcomes.len()),
    ]
}

/// The number of controllers that could not be probed or not be written.
pub open spec fn failed_count(
    failures: Seq<(u16, Seq<char>)>,
    outcomes: Seq<WriteOutcome>,
) -> nat {
    (failures.len() + outcomes.len() - updated_count(outcomes)) as nat
}

/// The error for controllers that failed.
pub open spec fn failed_text(failed: nat) -> Seq<char> {
    decimal_numeral(failed) + " ENE DRAM controller(s) failed"@
}

/// No more controllers are updated than there are.
pub proof fn lemma_updated_count(outcomes: Seq<WriteOutcome>)
    ensures
        updated_count(outcomes) <= outcomes.len(),
    decreases outcomes.len(),
{
    if outcomes.len() > 0 {
        lemma_updated_count(outcomes.drop_last());
    }
}

/// Every controller was updated exactly when none of them failed.
pub proof fn all_updated_without_failures(
    failures: Seq<(u16, Seq<char>)>,
    outcomes: Seq<WriteOutcome>,
)
    ensures
        failed_count(failures, outcomes) == 0 <==> failures.len() == 0 && forall|i: int|
            0 <= i < outcomes.len() ==> (#[trigger] outcomes[i]).result is Ok,
    decreases outcomes.len(),
{
    lemma_updated_count(outcomes);
    if outcomes.len() > 0 {
        let others = outcomes.drop_last();
        lemma_updated_count(others);
        all_updated_without_failures(failures, others);
        if failed_count(failures, outcomes) == 0 {
            assert forall|i: int| 0 <= i < outcomes.len() implies (
            #[trigger] outcomes[i]).result is Ok by {
                if i < others.len() {
                    assert(others[i] == outcomes[i]);
                }
            }
        }
        if forall|i: int| 0 <= i < outcomes.len() ==> (#[trigger] outcomes[i]).result is Ok {
            assert forall|i: int| 0 <= i < others.len() implies (
            #[trigger] others[i]).result is Ok by {
                assert(others[i] == outcomes[i]);
            }
        }
    }
}

/// What the user is told about the controllers, and how it ended.
#[derive(Debug)]
pub struct DramSummary {
    pub lines: Vec<String>,
    pub outcome: Result<(), String>,
}

proof fn lemma_texts_push(lines: Seq<String>, line: String)
    ensures
        texts(lines.push(line)) == texts(lines).push(line@),
{
    assert(texts(lines.push(line)) =~= texts(lines).push(line@));
}

fn push_controller_label(line: &mut String, address: u16)
    ensures
        final(line)@ == old(line)@ + controller_label(address),
{
    line.append("ENE DRAM 0x");
    push_hex_padded(line, address);
    assert(line@ =~= old(line)@ + controller_label(address));
}

/// Tells how a color reached the controllers: a line for each address that
/// could not be probed and each controller, and one that sums up. The whole
/// failed if one of them did.
pub fn dram_set_all(probe_failures: &[(u16, String)], results: &[DeviceWriteResult]) -> (summary:
    DramSummary)
    requires
        probe_failures@.len() + results@.len() <= usize::MAX,
    ensures
        texts(summary.lines@) == dram_lines(
            failures_view(probe_failures@),
            results_view(results@),
        ),
        summary.outcome is Ok <==> failed_count(
            failures_view(probe_failures@),
            results_view(results@),
        ) == 0,
        summary.outcome matches Err(message) ==> message@ == failed_text(
            failed_count(failures_view(probe_failures@), results_view(results@)),
        ),
{
    let ghost failures = failures_view(probe_failures@);
    let ghost outcomes = results_view(results@);
    let ghost first = failures.map_values(
        |failure: (u16, Seq<char>)| probe_failure_line(failure),
    );
    let ghost second = outcomes.map_values(|outcome: WriteOutcome| write_line(outcome));
    let mut lines: Vec<String> = Vec::new();
    let mut i: usize = 0;
    assert(texts(lines@) =~= first.take(0));
    while i < probe_failures.len()
        invariant
            i <= probe_failures@.len(),
            failures == failures_view(probe_failures@),
            first == failures.map_values(
                |failure: (u16, Seq<char>)| probe_failure_line(failure),
            ),
            texts(lines@) == first.take(i as int),
        decreases probe_failures@.len() - i,
    {
        let mut line: String = String::new();
        push_controller_label(&mut line, probe_failures[i].0);
        line.append(": PROBE FAILED: ");
        line.append(probe_failures[i].1.as_str());
        assert(line@ =~= first[i as int]);
        proof {
            lemma_texts_push(lines@, line);
            assert(first.take(i as int).push(line@) =~= first.take(i + 1));
        }
        lines.push(line);
        i = i + 1;
    }
    assert(first.take(i as int) =~= first);
    assert(first + second.take(0) =~= first);
    let mut updated: usize = 0;
    let mut at: usize = 0;
    assert(outcomes.take(0) =~= seq![]);
    while at < results.len()
        invariant
            at <= results@.len(),
            outcomes == results_view(results@),
            second == outcomes.map_values(|outcome: WriteOutcome| write_line(outcome)),
            texts(lines@) == first + second.take(at as int),
            updated == updated_count(outcomes.take(at as int)),
            updated <= at,
        decreases results@.len() - at,
    {
        let mut line: String = String::new();
        push_controller_label(&mut line, results[at].address);
        assert(outcomes[at as int] == results@[at as int]@);
        assert(outcomes.take(at + 1).drop_last() =~= outcomes.take(at as int));
        match &results[at].result {
            Ok(_) => {
                updated = updated + 1;
                line.append(": OK");
            },
            Err(error) => {
                line.append(": FAILED: ");
                line.append(error.as_str());
            },
        }
        assert(line@ =~= second[at as int]);
        proof {
            lemma_texts_push(lines@, line);
            assert((first + second.take(at as int)).push(line@) =~= first + second.take(at + 1));
        }
        lines.push(line);
        at = at + 1;
    }
    assert(second.take(at as int) =~= second);
    assert(outcomes.take(at as int) =~= outcomes);
    let mut line: String = "ENE DRAM: ".to_owned();
    push_decimal(&mut line, updated);
    line.append("/");
    push_decimal(&mut line, results.len());
    line.append(" supported controller(s) updated");
    proof {
        lemma_texts_push(lines@, line);
        assert((first + second).push(line@) =~= dram_lines(failures, outcomes));
    }
    lines.push(line);
    let failed: usize = probe_failures.len() + (results.len() - updated);
    if failed > 0 {
        let mut message: String = String::new();
        push_decimal(&mut message, failed);
        message.append(" ENE DRAM controller(s) failed");
        assert(message@ =~= failed_text(failed as nat));
        DramSummary { lines, outcome: Err(message) }
    } else {
        DramSummary { lines, outcome: Ok(()) }
    }
}

/// The line about the LampArray.
pub open spec fn lamp_array_text(result: Result<(), String>) -> Seq<char> {
    match result {
        Ok(_) => "LampArray: OK"@,
        Err(error) => "LampArray: FAILED: "@ + error@,
    }
}

/// Tells how a color reached the LampArray.
pub fn lamp_array_line(result: &Result<(), String>) -> (line: String)
    ensures
        line@ == lamp_array_text(*result),
{
    match result {
        Ok(_) => "LampArray: OK".to_owned(),
        Err(error) => {
            let mut line: String = "LampArray: FAILED: ".to_owned();
            line.append(error.as_str());
            line
        },
    }
}

/// Tells why a color did not reach the controllers. There is nothing to add
/// where it did.
pub fn ene_dram_line(result: &Result<(), String>) -> (line: Option<String>)
    ensures
        match (*result, line) {
            (Ok(_), None) => true,
            (Err(error), Some(line)) => line@ == "ENE DRAM: FAILED: "@ + error@,
            _ => false,
        },
{
    match result {
        Ok(_) => None,
        Err(error) => {
            let mut line: String = "ENE DRAM: FAILED: ".to_owned();
            line.append(error.as_str());
            Some(line)
        },
    }
}

/// The names of the backends that failed.
pub open spec fn failed_backends(lamp_array_failed: bool, ene_dram_failed: bool) -> Seq<Seq<char>> {
    let lamp_array = if lamp_array_failed {
        seq!["LampArray"@]
    } else {
        seq![]
    };
    let ene_dram = if ene_dram_failed {
        seq!["ENE DRAM"@]
    } else {
        seq![]
    };
    lamp_array + ene_dram
}

/// How far setting a color has come: for each part that was tried, whether it
/// succeeded.
#[derive(Debug, Clone, Copy, PartialEq, Eq)]
pub struct Progress {
    pub prepared: Option<bool>,
    pub lamp_array: Option<bool>,
    pub ene_dram: Option<bool>,
}

/// What setting a color does next.
#[derive(Debug, Clone, Copy, PartialEq, Eq)]
pub enum Step {
    /// Prepare the ENE DRAM devices.
    PrepareDram,
    /// Set the color of the LampArray.
    LightLampArray,
    /// Set the color of the prepared ENE DRAM devices.
    LightDram,
    /// Tell how it ended.
    Finish { lamp_array_failed: bool, ene_dram_failed: bool },
}

/// What follows on `progress`.
pub open spec fn next_step(progress: Progress) -> Step {
    if progress.prepared is None {
        Step::PrepareDram
    } else if progress.lamp_array is None {
        Step::LightLampArray
    } else if progress.prepared == Some(true) && progress.ene_dram is None {
        Step::LightDram
    } else {
        Step::Finish {
            lamp_array_failed: progress.lamp_array == Some(false),
            ene_dram_failed: progress.prepared == Some(false) || progress.ene_dram == Some(false),
        }
    }
}

/// Decides what setting a color does next. The ENE DRAM devices are prepared
/// before any lighting is changed, and no failure of one backend keeps the
/// other from being tried.
pub fn set_all_step(progress: &Progress) -> (step: Step)
    ensures
        step == next_step(*progress),
        step is PrepareDram <==> progress.prepared is None,
        step is LightLampArray <==> progress.prepared is Some && progress.lamp_array is None,
        step is LightDram <==> progress.prepared == Some(true) && progress.lamp_array is Some
            && progress.ene_dram is None,
        step matches Step::Finish { lamp_array_failed, ene_dram_failed } ==> lamp_array_failed == (
        progress.lamp_array == Some(false)) && ene_dram_failed == (progress.prepared == Some(false)
            || progress.ene_dram == Some(false)),
{
    match (progress.prepared, progress.lamp_array, progress.ene_dram) {
        (None, _, _) => Step::PrepareDram,
        (Some(_), None, _) => Step::LightLampArray,
        (Some(true), Some(_), None) => Step::LightDram,
        (Some(prepared), Some(lit), ene_dram) => Step::Finish {
            lamp_array_failed: !lit,
            ene_dram_failed: !prepared || matches!(ene_dram, Some(false)),
        },
    }
}

/// The progress after a step that succeeded or not.
pub open spec fn progressed(progress: Progress, succeeded: bool) -> Progress {
    match next_step(progress) {
        Step::PrepareDram => Progress { prepared: Some(succeeded), ..progress },
        Step::LightLampArray => Progress { lamp_array: Some(succeeded), ..progress },
        Step::LightDram => Progress { ene_dram: Some(succeeded), ..progress },
        Step::Finish { .. } => progress,
    }
}

impl Progress {
    /// Before anything was done.
    pub fn start() -> (progress: Progress)
        ensures
            progress == (Progress { prepared: None, lamp_array: None, ene_dram: None }),
    {
        Progress { prepared: None, lamp_array: None, ene_dram: None }
    }

    /// Notes how the step that follows on this progress went.
    pub fn advance(&mut self, succeeded: bool)
        ensures
            *final(self) == progressed(*old(self), succeeded),
    {
        match set_all_step(self) {
            Step::PrepareDram => {
                self.prepared = Some(succeeded);
            },
            Step::LightLampArray => {
                self.lamp_array = Some(succeeded);
            },
            Step::LightDram => {
                self.ene_dram = Some(succeeded);
            },
            Step::Finish { .. } => {},
        }
    }
}

/// Setting a color prepares the ENE DRAM devices first, then tries the
/// LampArray, however preparing went, and then the prepared devices, however
/// the LampArray went. It ends with the failures of exactly the backends that
/// failed.
pub proof fn both_backends_are_tried(prepared: bool, lamp_array: bool, ene_dram: bool)
    ensures
        ({
            let start = Progress { prepared: None, lamp_array: None, ene_dram: None };
            let second = progressed(start, prepared);
            let third = progressed(second, lamp_array);
            let fourth = progressed(third, ene_dram);
            &&& next_step(start) is PrepareDram
            &&& next_step(second) is LightLampArray
            &&& prepared ==> next_step(third) is LightDram
            &&& next_step(fourth) == Step::Finish {
                lamp_array_failed: !lamp_array,
                ene_dram_failed: !prepared || !ene_dram,
            }
            &&& !prepared ==> next_step(third) == next_step(fourth)
        }),
{
}

/// How setting a color ended: well, if both backends did; otherwise with an
/// error that counts and names those that failed.
pub fn set_all(lamp_array_failed: bool, ene_dram_failed: bool) -> (outcome: Result<(), String>)
    ensures
        outcome is Ok <==> !lamp_array_failed && !ene_dram_failed,
        outcome matches Err(message) ==> {
            let failed = failed_backends(lamp_array_failed, ene_dram_failed);
            message@ == decimal_numeral(failed.len()) + " backend(s) failed: "@ + joined(
                failed,
                ", "@,
            )
        },
{
    let mut failures: Vec<String> = Vec::new();
    if lamp_array_failed {
        failures.push("LampArray".to_owned());
    }
    if ene_dram_failed {
        failures.push("ENE DRAM".to_owned());
    }
    assert(texts(failures@) =~= failed_backends(lamp_array_failed, ene_dram_failed));
    if failures.len() == 0 {
        return Ok(());
    }
    let mut message: String = String::new();
    push_decimal(&mut message, failures.len());
    message.append(" backend(s) failed: ");
    push_joined(&mut message, &failures, ", ");
    Err(message)
}

/// Whether a finding has a result or an error.
pub open spec fn is_conclusive(finding: AddressFinding) -> bool {
    finding.present && finding.error is None ==> finding.version is Some && finding.led_count
        is Some
}

/// Whether all findings on the buses have a result or an error.
pub open spec fn all_conclusive(findings: Seq<BusFinding>) -> bool {
    forall|i: int, k: int|
        0 <= i < findings.len() && 0 <= k < findings[i].addresses.len() ==> is_conclusive(
            #[trigger] findings[i].addresses[k],
        )
}

/// The text of a truth value.
pub open spec fn truth_text(truth: bool) -> Seq<char> {
    if truth {
        "true"@
    } else {
        "false"@
    }
}

/// The start of a line about one address.
pub open spec fn address_label(address: u16) -> Seq<char> {
    "  0x"@ + hex_padded(address as nat)
}

/// The line about a device with its identity.
pub open spec fn identity_text(
    address: u16,
    version_form: Seq<char>,
    led_count: u8,
    supported: bool,
) -> Seq<char> {
    address_label(address) + ": version="@ + version_form + ", leds="@ + decimal_numeral(
        led_count as nat,
    ) + ", supported="@ + truth_text(supported)
}

/// The line about one address.
pub open spec fn address_text(finding: AddressFinding) -> Seq<char> {
    match (finding.version, finding.led_count, finding.error) {
        (_, _, Some(error)) => address_label(finding.address) + ": FAILED: "@ + error,
        (Some(version), Some(led_count), None) if finding.present => identity_text(
            finding.address,
            quoted(version),
            led_count,
            finding.supported,
        ),
        _ => address_label(finding.address) + ": absent"@,
    }
}

/// Tells the identity of a device, with its version already in quotes.
pub fn identity_line(address: u16, version_form: &str, led_count: u8, supported: bool) -> (line:
    String)
    ensures
        line@ == identity_text(address, version_form@, led_count, supported),
{
    let mut line: String = "  0x".to_owned();
    push_hex_padded(&mut line, address);
    line.append(": version=");
    line.append(version_form);
    line.append(", leds=");
    push_decimal(&mut line, led_count as usize);
    line.append(", supported=");
    if supported {
        line.append("true");
    } else {
        line.append("false");
    }
    line
}

fn address_line(diagnostic: &AddressDiagnostic) -> (line: String)
    requires
        is_conclusive(diagnostic@),
    ensures
        line@ == address_text(diagnostic@),
{
    if let Some(error) = &diagnostic.error {
        let mut line: String = "  0x".to_owned();
        push_hex_padded(&mut line, diagnostic.address);
        line.append(": FAILED: ");
        line.append(error.as_str());
        return line;
    }
    if diagnostic.present {
        if let (Some(version), Some(led_count)) = (&diagnostic.version, diagnostic.led_count) {
            let form: String = quote(version.as_str());
            return identity_line(
                diagnostic.address,
                form.as_str(),
                led_count,
                diagnostic.supported,
            );
        }
    }
    let mut line: String = "  0x".to_owned();
    push_hex_padded(&mut line, diagnostic.address);
    line.append(": absent");
    line
}

/// The lines about one bus.
pub open spec fn bus_texts(finding: BusFinding) -> Seq<Seq<char>> {
    let title = finding.bus + " ("@ + finding.adapter_name + ")"@;
    match finding.open_error {
        Some(error) => seq![title, "  open: FAILED: "@ + error],
        None => seq![title] + finding.addresses.map_values(
            |address: AddressFinding| address_text(address),
        ),
    }
}

/// The lines about all buses.
pub open spec fn diagnostic_texts(findings: Seq<BusFinding>) -> Seq<Seq<char>>
    decreases findings.len(),
{
    if findings.len() == 0 {
        seq![]
    } else {
        diagnostic_texts(findings.drop_last()) + bus_texts(findings.last())
    }
}

fn push_bus_lines(lines: &mut Vec<String>, bus: &BusDiagnostic)
    requires
        forall|k: int|
            0 <= k < bus@.addresses.len() ==> is_conclusive(#[trigger] bus@.addresses[k]),
    ensures
        texts(final(lines)@) == texts(old(lines)@) + bus_texts(bus@),
{
    let ghost known = texts(lines@);
    let mut title: String = bus.bus.clone();
    title.append(" (");
    title.append(bus.adapter_name.as_str());
    title.append(")");
    let ghost name = title@;
    proof {
        lemma_texts_push(lines@, title);
    }
    lines.push(title);
    if let Some(error) = &bus.open_error {
        let mut line: String = "  open: FAILED: ".to_owned();
        line.append(error.as_str());
        proof {
            lemma_texts_push(lines@, line);
            assert(known.push(name).push(line@) =~= known + bus_texts(bus@));
        }
        lines.push(line);
        return;
    }
    let ghost rest = bus@.addresses.map_values(|address: AddressFinding| address_text(address));
    let mut i: usize = 0;
    assert(known.push(name) =~= known + (seq![name] + rest.take(0)));
    while i < bus.addresses.len()
        invariant
            i <= bus.addresses@.len(),
            rest == bus@.addresses.map_values(|address: AddressFinding| address_text(address)),
            forall|k: int|
                0 <= k < bus@.addresses.len() ==> is_conclusive(#[trigger] bus@.addresses[k]),
            texts(lines@) == known + (seq![name] + rest.take(i as int)),
        decreases bus.addresses@.len() - i,
    {
        assert(bus@.addresses[i as int] == bus.addresses@[i as int]@);
        let line: String = address_line(&bus.addresses[i]);
        proof {
            lemma_texts_push(lines@, line);
            assert((known + (seq![name] + rest.take(i as int))).push(line@) =~= known + (seq![name]
                + rest.take(i + 1)));
        }
        lines.push(line);
        i = i + 1;
    }
    assert(rest.take(i as int) =~= rest);
}

/// Tells what the addresses on all buses answered.
pub fn diagnostic_lines(buses: &[BusDiagnostic]) -> (lines: Vec<String>)
    requires
        all_conclusive(buses_view(buses@)),
    ensures
        texts(lines@) == diagnostic_texts(buses_view(buses@)),
{
    let ghost findings = buses_view(buses@);
    let mut lines: Vec<String> = Vec::new();
    let mut i: usize = 0;
    assert(texts(lines@) =~= diagnostic_texts(findings.take(0)));
    while i < buses.len()
        invariant
            i <= buses@.len(),
            findings == buses_view(buses@),
            all_conclusive(findings),
            texts(lines@) == diagnostic_texts(findings.take(i as int)),
        decreases buses@.len() - i,
    {
        assert(findings[i as int] == buses@[i as int]@);
        assert(findings.take(i + 1).drop_last() =~= findings.take(i as int));
        push_bus_lines(&mut lines, &buses[i]);
        i = i + 1;
    }
    assert(findings.take(i as int) =~= findings);
    lines
}

/// The controllers that were updated are those whose outcome is good.
pub proof fn good_outcomes_are_counted(outcomes: Seq<WriteOutcome>)
    ensures
        updated_count(outcomes) == outcomes.filter(
            |outcome: WriteOutcome| outcome.result is Ok,
        ).len(),
    decreases outcomes.len(),
{
    let good = |outcome: WriteOutcome| outcome.result is Ok;
    reveal(Seq::filter);
    if outcomes.len() > 0 {
        good_outcomes_are_counted(outcomes.drop_last());
    }
}

/// Each address that could not be probed has a line, each controller has one
/// after these, and the last line sums up: how many of how many controllers
/// were updated. What failed are the addresses that could not be probed and the
/// controllers that were not updated.
pub proof fn every_controller_has_its_line(
    failures: Seq<(u16, Seq<char>)>,
    outcomes: Seq<WriteOutcome>,
    i: int,
)
    ensures
        ({
            let lines = dram_lines(failures, outcomes);
            let updated = outcomes.filter(|outcome: WriteOutcome| outcome.result is Ok).len();
            &&& lines.len() == failures.len() + outcomes.len() + 1
            &&& 0 <= i < failures.len() ==> lines[i] == "ENE DRAM 0x"@ + hex_padded(
                failures[i].0 as nat,
            ) + ": PROBE FAILED: "@ + failures[i].1
            &&& 0 <= i < outcomes.len() ==> lines[failures.len() + i] == "ENE DRAM 0x"@
                + hex_padded(outcomes[i].address as nat) + match outcomes[i].result {
                Ok(_) => ": OK"@,
                Err(message) => ": FAILED: "@ + message,
            }
            &&& lines.last() == "ENE DRAM: "@ + decimal_numeral(updated) + "/"@ + decimal_numeral(
                outcomes.len(),
            ) + " supported controller(s) updated"@
            &&& failed_count(failures, outcomes) == failures.len() + outcomes.len() - updated
            &&& failed_text(failed_count(failures, outcomes)) == decimal_numeral(
                failed_count(failures, outcomes),
            ) + " ENE DRAM controller(s) failed"@
        }),
{
    good_outcomes_are_counted(outcomes);
    lemma_updated_count(outcomes);
    let lines = dram_lines(failures, outcomes);
    if 0 <= i < outcomes.len() {
        let label = "ENE DRAM 0x"@ + hex_padded(outcomes[i].address as nat);
        if let Err(message) = outcomes[i].result {
            assert(label + ": FAILED: "@ + message =~= label + (": FAILED: "@ + message));
        }
        assert(lines[failures.len() + i] == write_line(outcomes[i]));
    }
}

/// A backend that failed is named with its error.
pub proof fn failures_are_told_with_their_error(error: String)
    ensures
        lamp_array_text(Err(error)) == "LampArray: FAILED: "@ + error@,
        lamp_array_text(Ok(())) == "LampArray: OK"@,
{
}

/// An address is told by its number and what was found there: the error, if
/// there is one; otherwise nothing, or the version in quotes, the number of LEDs
/// and whether the profile knows them.
pub proof fn an_address_is_told_with_what_was_found(finding: AddressFinding)
    requires
        finding.present && finding.error is None ==> finding.version is Some && finding.led_count
            is Some,
    ensures
        is_conclusive(finding),
        address_text(finding) == "  0x"@ + hex_padded(finding.address as nat) + if finding.error
            is Some {
            ": FAILED: "@ + finding.error->Some_0
        } else if !finding.present {
            ": absent"@
        } else {
            ": version="@ + quoted(finding.version->Some_0) + ", leds="@ + decimal_numeral(
                finding.led_count->Some_0 as nat,
            ) + ", supported="@ + if finding.supported {
                "true"@
            } else {
                "false"@
            }
        },
{
    let label = "  0x"@ + hex_padded(finding.address as nat);
    if finding.error is Some {
        let error = finding.error->Some_0;
        assert(label + ": FAILED: "@ + error =~= label + (": FAILED: "@ + error));
    } else if finding.present {
        let form = quoted(finding.version->Some_0);
        let leds = decimal_numeral(finding.led_count->Some_0 as nat);
        let known = truth_text(finding.supported);
        assert(label + ": version="@ + form + ", leds="@ + leds + ", supported="@ + known
            =~= label + (": version="@ + form + ", leds="@ + leds + ", supported="@ + known));
    }
}

/// A device is told with its address, its version, its LEDs and whether the
/// profile knows them.
pub proof fn a_device_is_told_with_its_identity(
    address: u16,
    form: Seq<char>,
    led_count: u8,
    supported: bool,
)
    ensures
        identity_text(address, form, led_count, supported) == "  0x"@ + hex_padded(address as nat)
            + ": version="@ + form + ", leds="@ + decimal_numeral(led_count as nat)
            + ", supported="@ + if supported {
            "true"@
        } else {
            "false"@
        },
{
}

/// Each bus is told after the ones before it: by its path and the name of its
/// adapter, and then by the reason why it could not be opened, or by its
/// addresses in order.
pub proof fn every_bus_is_told_in_order(findings: Seq<BusFinding>, finding: BusFinding, k: int)
    ensures
        diagnostic_texts(seq![]).len() == 0,
        ({
            let before = diagnostic_texts(findings);
            let lines = diagnostic_texts(findings.push(finding));
            let own = lines.skip(before.len() as int);
            &&& lines.len() == before.len() + 1 + if finding.open_error is Some {
                1
            } else {
                finding.addresses.len()
            }
            &&& lines.take(before.len() as int) == before
            &&& own[0] == finding.bus + " ("@ + finding.adapter_name + ")"@
            &&& finding.open_error matches Some(error) ==> own[1] == "  open: FAILED: "@ + error
            &&& finding.open_error is None && 0 <= k < finding.addresses.len() ==> own[k + 1]
                == address_text(finding.addresses[k])
        }),
{
    assert(findings.push(finding).drop_last() =~= findings);
    let before = diagnostic_texts(findings);
    let lines = diagnostic_texts(findings.push(finding));
    assert(lines.take(before.len() as int) =~= before);
    assert(lines.skip(before.len() as int) =~= bus_texts(finding));
}

} // verus!
