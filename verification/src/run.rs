//! What a run does and what it reports: one package, or a batch of the
//! project's dependencies.
use vstd::prelude::*;

use crate::cli::Language;
use crate::detection::{language_tag, tag_of, PackageDetected};
use crate::skill::warn::SkillWarning;
use crate::skill::SkillInfo;
use crate::text::{concat2, decimal, push_decimal, split_once};

verus! {

/// What a run does.
pub enum RunPlan {
    /// Generate the skill of the package given on the command line.
    Single(String),
    /// Offer the project's dependencies, then generate the chosen ones.
    Batch(Vec<String>),
    /// Search the registry interactively, then generate the chosen package.
    Search,
}

/// The plan of a run: a package given on the command line is generated
/// whatever the project holds; else the project's dependencies are offered
/// where there is a project file; else the registry is searched. A project
/// file that could not be read ends the run with its error.
pub fn plan_run(spec: Option<String>, deps: Option<Result<Vec<String>, String>>) -> (plan: Result<
    RunPlan,
    String,
>)
    ensures
        match spec {
            Some(s) => plan matches Ok(RunPlan::Single(t)) && t@ == s@,
            None => match deps {
                Some(Ok(d)) => plan matches Ok(RunPlan::Batch(b)) && b.deep_view() == d.deep_view(),
                Some(Err(e)) => plan matches Err(f) && f@ == e@,
                None => plan matches Ok(RunPlan::Search),
            },
        },
{
    match (spec, deps) {
        (Some(s), _) => Ok(RunPlan::Single(s)),
        (None, Some(Ok(d))) => Ok(RunPlan::Batch(d)),
        (None, Some(Err(e))) => Err(e),
        (None, None) => Ok(RunPlan::Search),
    }
}

/// The indices of all `n` choices, each selected by default.
pub fn all_indices(n: usize) -> (v: Vec<usize>)
    ensures
        v@.len() == n,
        forall|i: int| 0 <= i < n ==> v@[i] == i,
{
    let mut v: Vec<usize> = Vec::new();
    let mut i: usize = 0;
    while i < n
        invariant
            i <= n,
            v@.len() == i,
            forall|k: int| 0 <= k < i ==> v@[k] == k,
        decreases n - i,
    {
        v.push(i);
        i = i + 1;
    }
    v
}

/// The name a batch shows for a package spec: the text before its first
/// `@`, or all of it.
pub open spec fn batch_name_of(spec: Seq<char>) -> Seq<char> {
    match split_once(spec, '@') {
        Some((n, _)) => n,
        None => spec,
    }
}

pub fn batch_name(spec: &str) -> (name: String)
    ensures
        name@ == batch_name_of(spec@),
{
    match crate::text::split_once_char(spec, '@') {
        Some((n, _)) => n,
        None => spec.to_owned(),
    }
}

/// The progress message while a package is fetched.
pub fn fetching_message(name: &str) -> (msg: String)
    ensures
        msg@ == "fetching "@ + name@ + "\u{2026}"@,
{
    crate::text::concat3("fetching ", name, "\u{2026}")
}

/// The line of a skill that was written, at `path`.
pub fn success_line(path: &str) -> (line: String)
    ensures
        line@ == "\u{2713} "@ + path@,
{
    concat2("\u{2713} ", path)
}

/// The line of a package that failed, with its error.
pub fn failure_line(name: &str, error: &str) -> (line: String)
    ensures
        line@ == "\u{2717} "@ + name@ + " \u{2014} "@ + error@,
{
    let mut s = concat2("\u{2717} ", name);
    s.append(" \u{2014} ");
    s.append(error);
    s
}

/// The closing line of a batch.
pub open spec fn summary_of(ok: nat, total: nat) -> Seq<char> {
    decimal(ok) + "/"@ + decimal(total) + " skills generated"@
}

pub fn summary_line(ok: usize, total: usize) -> (line: String)
    ensures
        line@ == summary_of(ok as nat, total as nat),
{
    let mut s = String::new();
    push_decimal(&mut s, ok as u128);
    s.append("/");
    push_decimal(&mut s, total as u128);
    s.append(" skills generated");
    s
}

/// The report of a single run: the skill's name, version, license and
/// description, its page count where it has reference pages, and where it
/// was written.
pub open spec fn report_of(info: SkillInfo, output: Seq<char>) -> Seq<Seq<char>> {
    let n = info.references@.len();
    seq![
        "name:        "@ + info.name@,
        "version:     "@ + info.version@,
        "license:     "@ + info.license@,
        "description: "@ + info.description@,
    ] + (if n == 0 {
        seq![]
    } else {
        seq!["pages:       "@ + decimal(n + 1) + " ("@ + decimal(n) + " references)"@]
    }) + seq!["output:      "@ + output]
}

pub fn single_report(info: &SkillInfo, output: &str) -> (lines: Vec<String>)
    requires
        info.references@.len() < usize::MAX,
    ensures
        lines.deep_view() == report_of(*info, output@),
{
    let mut lines: Vec<String> = Vec::new();
    lines.push(concat2("name:        ", info.name.as_str()));
    lines.push(concat2("version:     ", info.version.as_str()));
    lines.push(concat2("license:     ", info.license.as_str()));
    lines.push(concat2("description: ", info.description.as_str()));
    let n = info.references.len();
    if n > 0 {
        let mut p = "pages:       ".to_owned();
        push_decimal(&mut p, (n + 1) as u128);
        p.append(" (");
        push_decimal(&mut p, n as u128);
        p.append(" references)");
        lines.push(p);
    }
    lines.push(concat2("output:      ", output));
    assert(lines.deep_view() =~= report_of(*info, output@));
    lines
}

/// How a detected dependency is listed: its language's tag in brackets,
/// then its name.
pub open spec fn display_of(d: PackageDetected) -> Seq<char> {
    "["@ + tag_of(d.language) + "] "@ + d.name@
}

/// The listing of every detected dependency, in order.
pub fn mixed_display(detected: &Vec<PackageDetected>) -> (display: Vec<String>)
    ensures
        display.deep_view() == detected@.map_values(|d: PackageDetected| display_of(d)),
{
    let mut display: Vec<String> = Vec::new();
    let mut i: usize = 0;
    while i < detected.len()
        invariant
            i <= detected@.len(),
            display.deep_view() == detected@.take(i as int).map_values(
                |d: PackageDetected| display_of(d),
            ),
        decreases detected.len() - i,
    {
        let d = &detected[i];
        let mut s = "[".to_owned();
        s.append(language_tag(&d.language));
        s.append("] ");
        s.append(d.name.as_str());
        let ghost prev = display.deep_view();
        display.push(s);
        assert(display.deep_view() =~= prev.push(display_of(detected@[i as int])));
        assert(detected@.take(i + 1).map_values(|d: PackageDetected| display_of(d))
            =~= detected@.take(i as int).map_values(|d: PackageDetected| display_of(d)).push(
            display_of(detected@[i as int]),
        ));
        i = i + 1;
    }
    assert(detected@.take(detected@.len() as int) =~= detected@);
    display
}

/// The `(name, language)` of each detected dependency whose listing was
/// chosen, in the order detected.
pub open spec fn chosen_of(detected: Seq<PackageDetected>, chosen: Seq<Seq<char>>) -> Seq<
    (Seq<char>, Language),
>
    decreases detected.len(),
{
    if detected.len() == 0 {
        seq![]
    } else {
        chosen_of(detected.drop_last(), chosen) + if chosen.contains(display_of(detected.last())) {
            seq![(detected.last().name@, detected.last().language)]
        } else {
            seq![]
        }
    }
}

/// Keeping every listing, as the prompt does by default, keeps every
/// detected dependency, in order.
pub proof fn law_all_chosen_keeps_all(detected: Seq<PackageDetected>, chosen: Seq<Seq<char>>)
    requires
        forall|i: int| 0 <= i < detected.len() ==> chosen.contains(display_of(#[trigger] detected[i])),
    ensures
        chosen_of(detected, chosen) == detected.map_values(|d: PackageDetected| (d.name@, d.language)),
    decreases detected.len(),
{
    if detected.len() > 0 {
        let init = detected.drop_last();
        assert forall|i: int| 0 <= i < init.len() implies chosen.contains(display_of(#[trigger] init[i])) by {
            assert(init[i] == detected[i]);
        }
        law_all_chosen_keeps_all(init, chosen);
        assert(detected[detected.len() - 1] == detected.last());
        assert(detected.map_values(|d: PackageDetected| (d.name@, d.language)) =~= init.map_values(
            |d: PackageDetected| (d.name@, d.language),
        ).push((detected.last().name@, detected.last().language)));
    }
}

/// The dependencies to generate: those whose listing is among `chosen`.
pub fn mixed_selection(detected: &Vec<PackageDetected>, chosen: &Vec<String>) -> (items: Vec<
    (String, Language),
>)
    ensures
        items@.map_values(|p: (String, Language)| (p.0@, p.1)) == chosen_of(
            detected@,
            chosen.deep_view(),
        ),
{
    let display = mixed_display(detected);
    assert(display@.len() == display.deep_view().len());
    let mut items: Vec<(String, Language)> = Vec::new();
    let mut i: usize = 0;
    while i < detected.len()
        invariant
            i <= detected@.len(),
            display@.len() == detected@.len(),
            display.deep_view() == detected@.map_values(|d: PackageDetected| display_of(d)),
            items@.map_values(|p: (String, Language)| (p.0@, p.1)) == chosen_of(
                detected@.take(i as int),
                chosen.deep_view(),
            ),
        decreases detected.len() - i,
    {
        assert(detected@.take(i + 1).drop_last() =~= detected@.take(i as int));
        assert(detected@.take(i + 1).last() == detected@[i as int]);
        assert(display.deep_view()[i as int] == display_of(detected@[i as int]));
        let ghost prev = items@;
        let mut found = false;
        let mut j: usize = 0;
        while j < chosen.len()
            invariant
                j <= chosen@.len(),
                i < display@.len(),
                display.deep_view() == detected@.map_values(|d: PackageDetected| display_of(d)),
                found == exists|k: int| 0 <= k < j && chosen@[k]@ == display@[i as int]@,
            decreases chosen.len() - j,
        {
            if crate::text::str_eq(chosen[j].as_str(), display[i].as_str()) {
                found = true;
            }
            j = j + 1;
        }
        assert(found == chosen.deep_view().contains(display_of(detected@[i as int]))) by {
            if found {
                let k = choose|k: int| 0 <= k < chosen@.len() && chosen@[k]@ == display@[i as int]@;
                assert(chosen.deep_view()[k] == chosen@[k]@);
            }
            if chosen.deep_view().contains(display_of(detected@[i as int])) {
                let k = choose|k: int|
                    0 <= k < chosen.deep_view().len() && chosen.deep_view()[k] == display_of(
                        detected@[i as int],
                    );
                assert(chosen.deep_view()[k] == chosen@[k]@);
            }
        }
        if found {
            items.push((detected[i].name.clone(), detected[i].language));
            assert(items@.map_values(|p: (String, Language)| (p.0@, p.1)) =~= prev.map_values(
                |p: (String, Language)| (p.0@, p.1),
            ).push((detected@[i as int].name@, detected@[i as int].language)));
        } else {
            assert(items@ =~= prev);
            assert(prev.map_values(|p: (String, Language)| (p.0@, p.1)) + Seq::<
                (Seq<char>, Language),
            >::empty() =~= prev.map_values(|p: (String, Language)| (p.0@, p.1)));
        }
        i = i + 1;
    }
    assert(detected@.take(detected@.len() as int) =~= detected@);
    items
}

/// The running account of a batch: how many packages there are, how many
/// were processed and how many succeeded, and the warnings of each skill
/// that had any.
pub struct BatchTally {
    pub total: usize,
    pub done: usize,
    pub ok: usize,
    pub warnings: Vec<(String, Vec<SkillWarning>)>,
}

impl BatchTally {
    /// No more succeed than were processed, and no more are processed than
    /// there are; only skills with warnings are listed.
    pub open spec fn wf(&self) -> bool {
        &&& self.ok <= self.done <= self.total
        &&& self.warnings@.len() <= self.ok
        &&& forall|i: int| 0 <= i < self.warnings@.len() ==> (#[trigger] self.warnings@[i]).1@.len() > 0
    }

    /// A batch of `total` packages, none processed.
    pub fn new(total: usize) -> (t: BatchTally)
        ensures
            t.wf(),
            t.total == total,
            t.done == 0,
            t.ok == 0,
            t.warnings@.len() == 0,
    {
        BatchTally { total, done: 0, ok: 0, warnings: Vec::new() }
    }

    /// A package whose skill was written, as `name`, with its warnings.
    pub fn record_success(&mut self, name: String, warnings: Vec<SkillWarning>)
        requires
            old(self).wf(),
            old(self).done < old(self).total,
        ensures
            final(self).wf(),
            final(self).total == old(self).total,
            final(self).done == old(self).done + 1,
            final(self).ok == old(self).ok + 1,
            warnings@.len() == 0 ==> final(self).warnings@ == old(self).warnings@,
            warnings@.len() > 0 ==> final(self).warnings@ == old(self).warnings@.push((name, warnings)),
    {
        if warnings.len() > 0 {
            self.warnings.push((name, warnings));
        }
        self.ok = self.ok + 1;
        self.done = self.done + 1;
    }

    /// A package that failed.
    pub fn record_failure(&mut self)
        requires
            old(self).wf(),
            old(self).done < old(self).total,
        ensures
            final(self).wf(),
            final(self).total == old(self).total,
            final(self).done == old(self).done + 1,
            final(self).ok == old(self).ok,
            final(self).warnings@ == old(self).warnings@,
    {
        self.done = self.done + 1;
    }

    /// The closing line: successes over the batch's size.
    pub fn summary(&self) -> (line: String)
        ensures
            line@ == summary_of(self.ok as nat, self.total as nat),
    {
        summary_line(self.ok, self.total)
    }
}

} // verus!
