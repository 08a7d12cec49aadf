//! Token counts of generated skills, and the tree report of them.
use vstd::prelude::*;

use crate::order::{sort_names, sorted_asc};
use crate::text::{chars_of, decimal, ends_with, push_decimal, str_ends_with};

verus! {

/// A skill's main page is flagged above this many tokens.
pub const SKILL_TOKEN_WARN_THRESHOLD: usize = 5000;

/// The number of `cl100k_base` tokens of a text, special tokens included;
/// `None` where the tokenizer cannot be built.
pub uninterp spec fn cl100k_token_count(text: Seq<char>) -> Option<nat>;

/// The longest stretch of text that the tokenizer is given without a break
/// (see `tokenizer_safe`).
pub const MAX_UNBROKEN_RUN: usize = 10000;

/// An ASCII letter.
pub open spec fn is_ascii_letter(c: char) -> bool {
    ('a' <= c && c <= 'z') || ('A' <= c && c <= 'Z')
}

/// An ASCII character other than a letter: a digit, a space, a control
/// character or punctuation.
pub open spec fn is_ascii_other(c: char) -> bool {
    (c as u32) < 128 && !is_ascii_letter(c)
}

/// `s[a..b]` holds an ASCII letter and an ASCII character other than a letter.
pub open spec fn window_broken(s: Seq<char>, a: int, b: int) -> bool {
    &&& exists|k: int| a <= k < b && is_ascii_letter(#[trigger] s[k])
    &&& exists|k: int| a <= k < b && is_ascii_other(#[trigger] s[k])
}

/// Every `MAX_UNBROKEN_RUN` consecutive characters of `s` hold an ASCII
/// letter and an ASCII character other than a letter. Then every piece the
/// `cl100k_base` pattern matches is shorter than twice that many characters:
/// a run of letters ends at an ASCII non-letter, and a run of punctuation,
/// of newlines or of whitespace ends at an ASCII letter.
pub open spec fn tokenizer_safe(s: Seq<char>) -> bool {
    forall|i: int|
        0 <= i && i + MAX_UNBROKEN_RUN <= s.len() ==> #[trigger] window_broken(s, i, i + MAX_UNBROKEN_RUN)
}

/// Whether `text` is one the tokenizer is given (see `tokenizer_safe`).
pub fn tokenizer_accepts(text: &str) -> (ok: bool)
    ensures
        ok == tokenizer_safe(text@),
{
    let v = chars_of(text);
    let m = MAX_UNBROKEN_RUN;
    // the number of characters since the last ASCII letter, and since the
    // last ASCII non-letter
    let mut no_letter: usize = 0;
    let mut no_other: usize = 0;
    let mut i: usize = 0;
    while i < v.len()
        invariant
            i <= v@.len(),
            v@ == text@,
            m == MAX_UNBROKEN_RUN,
            no_letter < m,
            no_other < m,
            no_letter <= i,
            no_other <= i,
            forall|k: int| i - no_letter <= k < i ==> !is_ascii_letter(#[trigger] v@[k]),
            no_letter < i ==> is_ascii_letter(v@[i - no_letter - 1]),
            forall|k: int| i - no_other <= k < i ==> !is_ascii_other(#[trigger] v@[k]),
            no_other < i ==> is_ascii_other(v@[i - no_other - 1]),
            forall|w: int| 0 <= w && w + m <= i ==> #[trigger] window_broken(v@, w, w + m),
        decreases v.len() - i,
    {
        let c = v[i];
        let letter = ('a' <= c && c <= 'z') || ('A' <= c && c <= 'Z');
        let other = (c as u32) < 128 && !letter;
        if letter {
            no_letter = 0;
        } else {
            no_letter = no_letter + 1;
        }
        if other {
            no_other = 0;
        } else {
            no_other = no_other + 1;
        }
        if no_letter >= m || no_other >= m {
            proof {
                let w = i + 1 - m;
                if !window_broken(v@, w, w + m) {
                } else {
                    if no_letter >= m {
                        let k = choose|k: int| w <= k < w + m && is_ascii_letter(#[trigger] v@[k]);
                        assert(!is_ascii_letter(v@[k]));
                    } else {
                        let k = choose|k: int| w <= k < w + m && is_ascii_other(#[trigger] v@[k]);
                        assert(!is_ascii_other(v@[k]));
                    }
                }
                assert(!window_broken(v@, w, w + m));
            }
            return false;
        }
        proof {
            let n = i + 1;
            assert forall|w: int| 0 <= w && w + m <= n implies #[trigger] window_broken(v@, w, w + m) by {
                if w + m == n {
                    let kl = n - no_letter - 1;
                    let ko = n - no_other - 1;
                    assert(is_ascii_letter(v@[kl]));
                    assert(is_ascii_other(v@[ko]));
                }
            }
        }
        i = i + 1;
    }
    proof {
        assert forall|w: int| 0 <= w && w + MAX_UNBROKEN_RUN <= text@.len() implies #[trigger] window_broken(
            text@,
            w,
            w + MAX_UNBROKEN_RUN,
        ) by {
            assert(window_broken(v@, w, w + m));
        }
    }
    true
}

/// The number of tokens the library counts for a text: `cl100k_base`'s,
/// for a text the tokenizer is given; `None` otherwise, or where the
/// tokenizer cannot be built.
pub open spec fn counted_tokens(text: Seq<char>) -> Option<nat> {
    if tokenizer_safe(text) {
        cl100k_token_count(text)
    } else {
        None
    }
}

/// Calls `tiktoken_rs::cl100k_base` and `CoreBPE::encode_with_special_tokens`;
/// the contract names the number of tokens, or `None` where the tokenizer
/// cannot be built. The encoder unwraps each fancy-regex match, and
/// fancy-regex fails past 1,000,000 backtracking steps or stack entries per
/// search; so the text is required to be `tokenizer_safe`. Under it every
/// match of the pattern covers fewer than `2 * MAX_UNBROKEN_RUN + 2`
/// characters, each of which takes the backtracking engine a bounded number
/// of steps and stack entries (the pattern's loops push one entry per
/// character; its alternatives and its one look-ahead a fixed few), far below
/// either limit. The special-token pattern has no look-around and runs
/// without backtracking.
#[verifier::external_body]
fn bpe_token_count(text: &str) -> (res: Option<usize>)
    requires
        tokenizer_safe(text@),
    ensures
        match res {
            Some(n) => cl100k_token_count(text@) == Some(n as nat),
            None => cl100k_token_count(text@) is None,
        },
{
    let bpe = tiktoken_rs::cl100k_base().ok()?;
    Some(bpe.encode_with_special_tokens(text).len())
}

/// Why a text's tokens were not counted.
pub enum TokenCountError {
    /// The text holds more than `MAX_UNBROKEN_RUN` characters without an
    /// ASCII letter, or without an ASCII non-letter.
    UnbrokenRunTooLong,
    /// The tokenizer could not be built.
    TokenizerUnavailable,
}

/// The number of `cl100k_base` tokens of `text`; an error for a text the
/// tokenizer is not given (see `tokenizer_safe`), or where the tokenizer
/// cannot be built.
pub fn count_text_tokens(text: &str) -> (res: Result<usize, TokenCountError>)
    ensures
        match res {
            Ok(n) => tokenizer_safe(text@) && cl100k_token_count(text@) == Some(n as nat),
            Err(TokenCountError::UnbrokenRunTooLong) => !tokenizer_safe(text@),
            Err(TokenCountError::TokenizerUnavailable) => tokenizer_safe(text@) && cl100k_token_count(
                text@,
            ) is None,
        },
{
    if !tokenizer_accepts(text) {
        return Err(TokenCountError::UnbrokenRunTooLong);
    }
    match bpe_token_count(text) {
        Some(n) => Ok(n),
        None => Err(TokenCountError::TokenizerUnavailable),
    }
}

/// `counted_tokens` of a text.
fn counted(text: &str) -> (res: Option<usize>)
    ensures
        match res {
            Some(n) => counted_tokens(text@) == Some(n as nat),
            None => counted_tokens(text@) is None,
        },
{
    if tokenizer_accepts(text) {
        bpe_token_count(text)
    } else {
        None
    }
}

/// The tokens of one reference page.
pub struct RefTokenCount {
    pub name: String,
    pub tokens: usize,
}

/// The tokens of one skill: its `SKILL.md` and each reference page.
pub struct SkillTokenCount {
    pub name: String,
    pub skill_tokens: usize,
    pub references: Vec<RefTokenCount>,
}

/// Counts the tokens of a skill's texts: `skill_md` is the text of its
/// `SKILL.md`, `references` the `(file name, text)` of each reference page.
/// `None` where a text is not counted (see `counted_tokens`).
pub fn count_skill(name: &str, skill_md: &str, references: &Vec<(String, String)>) -> (res: Option<
    SkillTokenCount,
>)
    ensures
        match res {
            Some(c) => {
                &&& c.name@ == name@
                &&& counted_tokens(skill_md@) == Some(c.skill_tokens as nat)
                &&& c.references@.len() == references@.len()
                &&& forall|i: int|
                    0 <= i < references@.len() ==> (#[trigger] c.references@[i]).name@
                        == references@[i].0@ && counted_tokens(references@[i].1@) == Some(
                        c.references@[i].tokens as nat,
                    )
            },
            None => counted_tokens(skill_md@) is None || exists|i: int|
                0 <= i < references@.len() && counted_tokens(
                    (#[trigger] references@[i]).1@,
                ) is None,
        },
{
    let skill_tokens = match counted(skill_md) {
        Some(n) => n,
        None => return None,
    };
    let mut refs: Vec<RefTokenCount> = Vec::new();
    let mut i: usize = 0;
    while i < references.len()
        invariant
            i <= references@.len(),
            refs@.len() == i,
            forall|k: int|
                0 <= k < i ==> (#[trigger] refs@[k]).name@ == references@[k].0@
                    && counted_tokens(references@[k].1@) == Some(refs@[k].tokens as nat),
        decreases references.len() - i,
    {
        let tokens = match counted(references[i].1.as_str()) {
            Some(n) => n,
            None => {
                assert(counted_tokens(references@[i as int].1@) is None);
                return None;
            },
        };
        refs.push(RefTokenCount { name: references[i].0.clone(), tokens });
        i = i + 1;
    }
    Some(SkillTokenCount { name: name.to_owned(), skill_tokens, references: refs })
}

/// `text` in red (`red`) or green, as ANSI escapes.
pub open spec fn colored(text: Seq<char>, red: bool) -> Seq<char> {
    (if red {
        "\u{1b}[31m"@
    } else {
        "\u{1b}[32m"@
    }) + text + "\u{1b}[0m"@
}

pub fn colorize(text: &str, red: bool) -> (res: String)
    ensures
        res@ == colored(text@, red),
{
    let mut s = if red {
        "\u{1b}[31m".to_owned()
    } else {
        "\u{1b}[32m".to_owned()
    };
    s.append(text);
    s.append("\u{1b}[0m");
    s
}

/// The report line of one reference page: its count, red above the
/// threshold and plain otherwise.
pub open spec fn ref_line(r: RefTokenCount) -> Seq<char> {
    let line = "      "@ + r.name@ + " - "@ + decimal(r.tokens as nat) + " tokens"@;
    if r.tokens > SKILL_TOKEN_WARN_THRESHOLD {
        colored(line, true)
    } else {
        line
    }
}

/// The report lines of one skill: its name, its `SKILL.md` count, and its
/// reference pages where it has any; a count above the threshold is red,
/// the `SKILL.md` count green otherwise.
pub open spec fn skill_tree_lines(skill: SkillTokenCount) -> Seq<Seq<char>> {
    seq!["  /"@ + skill.name@, colored(
        "    SKILL.md - "@ + decimal(skill.skill_tokens as nat) + " tokens"@,
        skill.skill_tokens > SKILL_TOKEN_WARN_THRESHOLD,
    )] + if skill.references@.len() == 0 {
        seq![]
    } else {
        seq!["    references"@] + skill.references@.map_values(
            |r: RefTokenCount| ref_line(r),
        )
    }
}

/// Counts are highlighted in red exactly when they exceed 5 000 tokens: the
/// `SKILL.md` line and each reference line start with the red escape if and
/// only if their count is above 5 000.
pub proof fn law_red_above_five_thousand(skill: SkillTokenCount)
    ensures
        skill_tree_lines(skill)[1].len() >= 5,
        (skill_tree_lines(skill)[1].take(5) == "\u{1b}[31m"@) == (skill.skill_tokens > 5000),
        forall|i: int|
            0 <= i < skill.references@.len() ==> ((#[trigger] ref_line(skill.references@[i])).len()
                >= 5 && ref_line(skill.references@[i]).take(5) == "\u{1b}[31m"@) == (
            skill.references@[i].tokens > 5000),
{
    reveal_strlit("\u{1b}[31m");
    reveal_strlit("\u{1b}[32m");
    reveal_strlit("      ");
    let red = "\u{1b}[31m"@;
    let green = "\u{1b}[32m"@;
    assert(red.len() == 5 && green.len() == 5 && red[3] != green[3]);
    let head = "    SKILL.md - "@ + decimal(skill.skill_tokens as nat) + " tokens"@;
    let l1 = skill_tree_lines(skill)[1];
    assert(l1 == colored(head, skill.skill_tokens > 5000));
    if skill.skill_tokens > 5000 {
        assert(l1.take(5) =~= red);
    } else {
        assert(l1.take(5)[3] == green[3]);
    }
    assert forall|i: int| 0 <= i < skill.references@.len() implies ((#[trigger] ref_line(
        skill.references@[i],
    )).len() >= 5 && ref_line(skill.references@[i]).take(5) == red) == (
    skill.references@[i].tokens > 5000) by {
        let r = skill.references@[i];
        let line = "      "@ + r.name@ + " - "@ + decimal(r.tokens as nat) + " tokens"@;
        if r.tokens > 5000 {
            assert(ref_line(r).take(5) =~= red);
        } else {
            assert(ref_line(r) == line);
            assert(line[0] == ' ');
            if line.len() >= 5 && line.take(5) == red {
                assert(line.take(5)[0] == red[0]);
            }
        }
    }
}

/// The whole report: the base directory, then each skill.
pub open spec fn tree_lines(base: Seq<char>, results: Seq<SkillTokenCount>) -> Seq<Seq<char>>
    decreases results.len(),
{
    if results.len() == 0 {
        seq!["/"@ + base]
    } else {
        tree_lines(base, results.drop_last()) + skill_tree_lines(results.last())
    }
}

/// The lines `--count` prints: `base` is how the output directory displays.
pub fn render_tree(base: &str, results: &Vec<SkillTokenCount>) -> (lines: Vec<String>)
    ensures
        lines.deep_view() == tree_lines(base@, results@),
{
    let mut lines: Vec<String> = Vec::new();
    let mut first = "/".to_owned();
    first.append(base);
    lines.push(first);
    assert(lines.deep_view() =~= tree_lines(base@, results@.take(0)));
    let mut i: usize = 0;
    while i < results.len()
        invariant
            i <= results@.len(),
            lines.deep_view() == tree_lines(base@, results@.take(i as int)),
        decreases results.len() - i,
    {
        let skill = &results[i];
        let ghost before = lines.deep_view();
        let mut name_line = "  /".to_owned();
        name_line.append(skill.name.as_str());
        lines.push(name_line);
        let mut count_line = "    SKILL.md - ".to_owned();
        push_decimal(&mut count_line, skill.skill_tokens as u128);
        count_line.append(" tokens");
        lines.push(colorize(count_line.as_str(), skill.skill_tokens > SKILL_TOKEN_WARN_THRESHOLD));
        let ghost mid = lines.deep_view();
        if skill.references.len() > 0 {
            lines.push("    references".to_owned());
            let ghost head = lines.deep_view();
            let mut j: usize = 0;
            while j < skill.references.len()
                invariant
                    j <= skill.references@.len(),
                    lines.deep_view() == head + skill.references@.take(j as int).map_values(
                        |r: RefTokenCount| ref_line(r),
                    ),
                decreases skill.references.len() - j,
            {
                let r = &skill.references[j];
                let mut line = "      ".to_owned();
                line.append(r.name.as_str());
                line.append(" - ");
                push_decimal(&mut line, r.tokens as u128);
                line.append(" tokens");
                let line = if r.tokens > SKILL_TOKEN_WARN_THRESHOLD {
                    colorize(line.as_str(), true)
                } else {
                    line
                };
                let ghost prevd = lines.deep_view();
                lines.push(line);
                assert(lines.deep_view() =~= prevd.push(line@));
                assert(skill.references@.take(j + 1).map_values(
                    |r: RefTokenCount| ref_line(r),
                ) =~= skill.references@.take(j as int).map_values(
                    |r: RefTokenCount| ref_line(r),
                ).push(line@));
                j = j + 1;
            }
            assert(skill.references@.take(skill.references@.len() as int) =~= skill.references@);
        }
        assert(lines.deep_view() =~= before + skill_tree_lines(*skill));
        assert(results@.take(i + 1).drop_last() =~= results@.take(i as int));
        assert(results@.take(i + 1).last() == results@[i as int]);
        i = i + 1;
    }
    assert(results@.take(results@.len() as int) =~= results@);
    lines
}

/// A file name whose extension is `md`: it ends with `.md` and something
/// comes before the dot.
pub open spec fn is_markdown_name(name: Seq<char>) -> bool {
    ends_with(name, ".md"@) && name.len() > 3
}

/// The Markdown file names among `names`, in order.
pub open spec fn markdown_only(names: Seq<Seq<char>>) -> Seq<Seq<char>>
    decreases names.len(),
{
    if names.len() == 0 {
        seq![]
    } else {
        markdown_only(names.drop_last()) + if is_markdown_name(names.last()) {
            seq![names.last()]
        } else {
            seq![]
        }
    }
}

/// The reference pages to count among the names of a `references`
/// directory's entries: the Markdown files, in ascending order.
pub fn reference_files(names: &Vec<String>) -> (files: Vec<String>)
    ensures
        sorted_asc(files.deep_view()),
        files.deep_view().to_multiset() == markdown_only(names.deep_view()).to_multiset(),
{
    proof {
        reveal_strlit(".md");
    }
    let mut md: Vec<String> = Vec::new();
    let mut i: usize = 0;
    while i < names.len()
        invariant
            i <= names@.len(),
            ".md"@.len() == 3,
            md.deep_view() == markdown_only(names.deep_view().take(i as int)),
        decreases names.len() - i,
    {
        let n = names[i].as_str();
        assert(names.deep_view().take(i + 1).drop_last() =~= names.deep_view().take(i as int));
        assert(names.deep_view().take(i + 1).last() == names@[i as int]@);
        let ghost prev = md.deep_view();
        if str_ends_with(n, ".md") && n.unicode_len() > 3 {
            md.push(names[i].clone());
            assert(md.deep_view() =~= prev + seq![names@[i as int]@]);
        } else {
            assert(md.deep_view() =~= prev + Seq::<Seq<char>>::empty());
        }
        i = i + 1;
    }
    assert(names.deep_view().take(names@.len() as int) =~= names.deep_view());
    sort_names(&md)
}

} // verus!
