//! Warnings about a generated skill.
use vstd::prelude::*;

use crate::skill::count::{count_text_tokens, counted_tokens, SKILL_TOKEN_WARN_THRESHOLD};
use crate::skill::SkillInfo;
use crate::text::{decimal, push_decimal, trim, trimmed};

verus! {

/// Something worth telling the user about a skill.
#[derive(Clone, Copy, Debug)]
pub enum SkillWarning {
    /// The main page has no text.
    NoContent,
    /// The main page has more tokens than the threshold.
    TooManyTokens(usize),
}

/// The warnings for a main page: `NoContent` where it is blank, then
/// `TooManyTokens` where it has more than the threshold of tokens (when they
/// can be counted).
pub open spec fn page_warnings(markdown: Seq<char>) -> Seq<SkillWarning> {
    (if trim(markdown).len() == 0 {
        seq![SkillWarning::NoContent]
    } else {
        seq![]
    }) + match counted_tokens(markdown) {
        Some(n) => if n > SKILL_TOKEN_WARN_THRESHOLD {
            seq![SkillWarning::TooManyTokens(n as usize)]
        } else {
            seq![]
        },
        None => seq![],
    }
}

pub fn collect_warnings(info: &SkillInfo) -> (warnings: Vec<SkillWarning>)
    ensures
        warnings@ == page_warnings(info.page.markdown@),
{
    let mut warnings: Vec<SkillWarning> = Vec::new();
    let t = trimmed(info.page.markdown.as_str());
    if t.as_str().is_empty() {
        warnings.push(SkillWarning::NoContent);
    }
    if let Ok(tokens) = count_text_tokens(info.page.markdown.as_str()) {
        if tokens > SKILL_TOKEN_WARN_THRESHOLD {
            warnings.push(SkillWarning::TooManyTokens(tokens));
        }
    }
    assert(warnings@ =~= page_warnings(info.page.markdown@));
    warnings
}

/// The message printed for a warning about the skill `name`, in yellow.
pub open spec fn warning_text(name: Seq<char>, w: SkillWarning) -> Seq<char> {
    match w {
        SkillWarning::NoContent => "\u{1b}[33m\u{26a0} "@ + name + ": no content\u{1b}[0m"@,
        SkillWarning::TooManyTokens(n) => "\u{1b}[33m\u{26a0} "@ + name
            + ": skill content too large ("@ + decimal(n as nat) + " tokens > "@ + decimal(
            SKILL_TOKEN_WARN_THRESHOLD as nat,
        ) + ")\u{1b}[0m"@,
    }
}

/// The lines `print_warnings` prints, one per warning.
pub fn warning_messages(name: &str, warnings: &Vec<SkillWarning>) -> (lines: Vec<String>)
    ensures
        lines@.len() == warnings@.len(),
        forall|i: int|
            0 <= i < warnings@.len() ==> (#[trigger] lines@[i])@ == warning_text(
                name@,
                warnings@[i],
            ),
{
    let mut lines: Vec<String> = Vec::new();
    let mut i: usize = 0;
    while i < warnings.len()
        invariant
            i <= warnings@.len(),
            lines@.len() == i,
            forall|k: int|
                0 <= k < i ==> (#[trigger] lines@[k])@ == warning_text(name@, warnings@[k]),
        decreases warnings.len() - i,
    {
        let mut s = "\u{1b}[33m\u{26a0} ".to_owned();
        s.append(name);
        match &warnings[i] {
            SkillWarning::NoContent => {
                s.append(": no content\u{1b}[0m");
            },
            SkillWarning::TooManyTokens(n) => {
                s.append(": skill content too large (");
                push_decimal(&mut s, *n as u128);
                s.append(" tokens > ");
                push_decimal(&mut s, SKILL_TOKEN_WARN_THRESHOLD as u128);
                s.append(")\u{1b}[0m");
            },
        }
        lines.push(s);
        i = i + 1;
    }
    lines
}

} // verus!
