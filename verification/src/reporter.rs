//! Output of findings: text, JSON, GitHub annotations, SARIF.
use vstd::prelude::*;

use crate::diagnostic::{diags_model, Diagnostic, DiagnosticModel, Severity};
use crate::text::{decimal, push_decimal, push_text, str_eq};

verus! {

#[derive(Debug, Clone, Copy, PartialEq, Eq, Structural)]
pub enum OutputFormat {
    Text,
    Json,
    /// GitHub Actions annotation format.
    Github,
    /// SARIF v2.1.0 for GitHub Code Scanning.
    Sarif,
}

pub struct Reporter {
    pub format: OutputFormat,
    pub show_fixes: bool,
}

// ── rule tables ───────────────────────────────────────────────────────────────

/// The CamelCase name of a rule code.
pub open spec fn rule_name_of(code: Seq<char>) -> Seq<char> {
    if code == "R001"@ {
        "LineTooLong"@
    } else if code == "R002"@ {
        "TrailingWhitespace"@
    } else if code == "R003"@ {
        "MissingFrozenStringLiteral"@
    } else if code == "R010"@ {
        "MethodNameNotSnakeCase"@
    } else if code == "R011"@ {
        "ConstantNotUppercase"@
    } else if code == "R012"@ {
        "VariableCamelCase"@
    } else if code == "R020"@ {
        "SemicolonSeparatedStatements"@
    } else if code == "R021"@ {
        "MissingSpaceAroundOperator"@
    } else if code == "R022"@ {
        "TrailingCommaBeforeClosingParen"@
    } else if code == "R023"@ {
        "TooManyConsecutiveBlankLines"@
    } else if code == "R024"@ {
        "UsePutsInsteadOfPNil"@
    } else if code == "R025"@ {
        "MissingFinalNewline"@
    } else if code == "R026"@ {
        "MissingBlankLineBetweenMethods"@
    } else if code == "R030"@ {
        "UnbalancedBrackets"@
    } else if code == "R031"@ {
        "MissingEnd"@
    } else if code == "R032"@ {
        "RedundantReturn"@
    } else if code == "R040"@ {
        "MethodTooLong"@
    } else if code == "R041"@ {
        "ClassTooLong"@
    } else if code == "R042"@ {
        "HighCyclomaticComplexity"@
    } else {
        "UnknownRule"@
    }
}

/// Returns the CamelCase name of a rule code.
pub fn rule_name(code: &str) -> (r: &'static str)
    ensures
        r@ == rule_name_of(code@),
{
    if str_eq(code, "R001") {
        "LineTooLong"
    } else if str_eq(code, "R002") {
        "TrailingWhitespace"
    } else if str_eq(code, "R003") {
        "MissingFrozenStringLiteral"
    } else if str_eq(code, "R010") {
        "MethodNameNotSnakeCase"
    } else if str_eq(code, "R011") {
        "ConstantNotUppercase"
    } else if str_eq(code, "R012") {
        "VariableCamelCase"
    } else if str_eq(code, "R020") {
        "SemicolonSeparatedStatements"
    } else if str_eq(code, "R021") {
        "MissingSpaceAroundOperator"
    } else if str_eq(code, "R022") {
        "TrailingCommaBeforeClosingParen"
    } else if str_eq(code, "R023") {
        "TooManyConsecutiveBlankLines"
    } else if str_eq(code, "R024") {
        "UsePutsInsteadOfPNil"
    } else if str_eq(code, "R025") {
        "MissingFinalNewline"
    } else if str_eq(code, "R026") {
        "MissingBlankLineBetweenMethods"
    } else if str_eq(code, "R030") {
        "UnbalancedBrackets"
    } else if str_eq(code, "R031") {
        "MissingEnd"
    } else if str_eq(code, "R032") {
        "RedundantReturn"
    } else if str_eq(code, "R040") {
        "MethodTooLong"
    } else if str_eq(code, "R041") {
        "ClassTooLong"
    } else if str_eq(code, "R042") {
        "HighCyclomaticComplexity"
    } else {
        "UnknownRule"
    }
}

/// The short human-readable description of a rule code.
pub open spec fn rule_description_of(code: Seq<char>) -> Seq<char> {
    if code == "R001"@ {
        "Line too long"@
    } else if code == "R002"@ {
        "Trailing whitespace"@
    } else if code == "R003"@ {
        "Missing frozen_string_literal magic comment"@
    } else if code == "R010"@ {
        "Method name not in snake_case"@
    } else if code == "R011"@ {
        "Constant not starting with uppercase"@
    } else if code == "R012"@ {
        "Variable using camelCase instead of snake_case"@
    } else if code == "R020"@ {
        "Semicolon used to separate statements"@
    } else if code == "R021"@ {
        "Missing space around operator"@
    } else if code == "R022"@ {
        "Trailing comma before closing parenthesis"@
    } else if code == "R023"@ {
        "Too many consecutive blank lines"@
    } else if code == "R024"@ {
        "Use `puts` instead of `p nil`"@
    } else if code == "R025"@ {
        "Missing final newline at end of file"@
    } else if code == "R026"@ {
        "Missing blank line between method definitions"@
    } else if code == "R030"@ {
        "Unbalanced brackets/parentheses/braces"@
    } else if code == "R031"@ {
        "Missing `end` for block"@
    } else if code == "R032"@ {
        "Redundant `return` on last line of method"@
    } else if code == "R040"@ {
        "Method too long"@
    } else if code == "R041"@ {
        "Class too long"@
    } else if code == "R042"@ {
        "High cyclomatic complexity"@
    } else {
        "Unknown rule"@
    }
}

/// Returns a short human-readable description of a rule code.
pub fn rule_short_description(code: &str) -> (r: &'static str)
    ensures
        r@ == rule_description_of(code@),
{
    if str_eq(code, "R001") {
        "Line too long"
    } else if str_eq(code, "R002") {
        "Trailing whitespace"
    } else if str_eq(code, "R003") {
        "Missing frozen_string_literal magic comment"
    } else if str_eq(code, "R010") {
        "Method name not in snake_case"
    } else if str_eq(code, "R011") {
        "Constant not starting with uppercase"
    } else if str_eq(code, "R012") {
        "Variable using camelCase instead of snake_case"
    } else if str_eq(code, "R020") {
        "Semicolon used to separate statements"
    } else if str_eq(code, "R021") {
        "Missing space around operator"
    } else if str_eq(code, "R022") {
        "Trailing comma before closing parenthesis"
    } else if str_eq(code, "R023") {
        "Too many consecutive blank lines"
    } else if str_eq(code, "R024") {
        "Use `puts` instead of `p nil`"
    } else if str_eq(code, "R025") {
        "Missing final newline at end of file"
    } else if str_eq(code, "R026") {
        "Missing blank line between method definitions"
    } else if str_eq(code, "R030") {
        "Unbalanced brackets/parentheses/braces"
    } else if str_eq(code, "R031") {
        "Missing `end` for block"
    } else if str_eq(code, "R032") {
        "Redundant `return` on last line of method"
    } else if str_eq(code, "R040") {
        "Method too long"
    } else if str_eq(code, "R041") {
        "Class too long"
    } else if str_eq(code, "R042") {
        "High cyclomatic complexity"
    } else {
        "Unknown rule"
    }
}

/// The default SARIF level of a rule code.
pub open spec fn rule_level_of(code: Seq<char>) -> Seq<char> {
    if code == "R030"@ || code == "R031"@ {
        "error"@
    } else if code == "R003"@ || code == "R025"@ || code == "R032"@ {
        "note"@
    } else {
        "warning"@
    }
}

/// Returns the default SARIF level of a rule code.
pub fn rule_default_level(code: &str) -> (r: &'static str)
    ensures
        r@ == rule_level_of(code@),
{
    if str_eq(code, "R030") || str_eq(code, "R031") {
        "error"
    } else if str_eq(code, "R003") || str_eq(code, "R025") || str_eq(code, "R032") {
        "note"
    } else {
        "warning"
    }
}


// ── text ──────────────────────────────────────────────────────────────────────

/// One line of the text report.
#[derive(Debug)]
pub enum TextLine {
    /// The name of a file, before its findings.
    FileHeader(String),
    /// `line:col severity message [rule]`, colored by severity.
    Finding { location: String, severity: Severity, message: String, rule: String },
    /// The suggested fix of the finding before it.
    Fix(String),
}

pub enum TextLineModel {
    FileHeader(Seq<char>),
    Finding { location: Seq<char>, severity: Severity, message: Seq<char>, rule: Seq<char> },
    Fix(Seq<char>),
}

impl View for TextLine {
    type V = TextLineModel;

    open spec fn view(&self) -> TextLineModel {
        match self {
            TextLine::FileHeader(f) => TextLineModel::FileHeader(f@),
            TextLine::Finding { location, severity, message, rule } => TextLineModel::Finding {
                location: location@,
                severity: *severity,
                message: message@,
                rule: rule@,
            },
            TextLine::Fix(t) => TextLineModel::Fix(t@),
        }
    }
}

pub open spec fn lines_model(v: Seq<TextLine>) -> Seq<TextLineModel> {
    v.map_values(|l: TextLine| l@)
}

/// The lines of one finding: its file's name when it differs from the
/// file before it, the finding, and its fix when fixes are shown.
pub open spec fn finding_lines(d: DiagnosticModel, show_fixes: bool, current: Seq<char>) -> Seq<
    TextLineModel,
> {
    (if d.file != current {
        seq![TextLineModel::FileHeader(d.file)]
    } else {
        seq![]
    }) + seq![
        TextLineModel::Finding {
            location: decimal(d.line as nat) + ":"@ + decimal(d.col as nat),
            severity: d.severity,
            message: d.message,
            rule: "["@ + d.rule + "]"@,
        },
    ] + (if show_fixes && d.fix is Some {
        seq![TextLineModel::Fix(d.fix.unwrap())]
    } else {
        seq![]
    })
}

/// The text report of findings that follow findings of file `current`.
pub open spec fn text_lines(diags: Seq<DiagnosticModel>, show_fixes: bool, current: Seq<char>) -> Seq<
    TextLineModel,
>
    decreases diags.len(),
{
    if diags.len() == 0 {
        seq![]
    } else {
        finding_lines(diags[0], show_fixes, current) + text_lines(
            diags.drop_first(),
            show_fixes,
            diags[0].file,
        )
    }
}

/// The severity column of the text report, padded to one width.
pub open spec fn severity_label_of(s: Severity) -> Seq<char> {
    match s {
        Severity::Error => "error  "@,
        Severity::Warning => "warning"@,
        Severity::Info => "info   "@,
    }
}

/// Returns the severity column of the text report.
pub fn severity_label(s: Severity) -> (r: &'static str)
    ensures
        r@ == severity_label_of(s),
{
    match s {
        Severity::Error => "error  ",
        Severity::Warning => "warning",
        Severity::Info => "info   ",
    }
}

fn finding_location(line: usize, col: usize) -> (s: String)
    ensures
        s@ == decimal(line as nat) + ":"@ + decimal(col as nat),
{
    let mut s = String::new();
    push_decimal(&mut s, line);
    push_text(&mut s, ":");
    push_decimal(&mut s, col);
    proof {
        assert(s@ =~= decimal(line as nat) + ":"@ + decimal(col as nat));
    }
    s
}

fn bracketed(rule: &str) -> (s: String)
    ensures
        s@ == "["@ + rule@ + "]"@,
{
    let mut s = String::new();
    push_text(&mut s, "[");
    push_text(&mut s, rule);
    push_text(&mut s, "]");
    proof {
        assert(s@ =~= "["@ + rule@ + "]"@);
    }
    s
}

// ── GitHub annotations ────────────────────────────────────────────────────────

pub open spec fn github_level(s: Severity) -> Seq<char> {
    match s {
        Severity::Error => "error"@,
        Severity::Warning => "warning"@,
        Severity::Info => "notice"@,
    }
}

/// `::level file=F,line=L,col=C,title=R::message`
pub open spec fn github_line(d: DiagnosticModel) -> Seq<char> {
    "::"@ + github_level(d.severity) + " file="@ + d.file + ",line="@ + decimal(d.line as nat)
        + ",col="@ + decimal(d.col as nat) + ",title="@ + d.rule + "::"@ + d.message
}

fn github_annotation(d: &Diagnostic) -> (s: String)
    ensures
        s@ == github_line(d@),
{
    let level = match d.severity {
        Severity::Error => "error",
        Severity::Warning => "warning",
        Severity::Info => "notice",
    };
    let mut s = String::new();
    push_text(&mut s, "::");
    push_text(&mut s, level);
    push_text(&mut s, " file=");
    push_text(&mut s, d.file.as_str());
    push_text(&mut s, ",line=");
    push_decimal(&mut s, d.line);
    push_text(&mut s, ",col=");
    push_decimal(&mut s, d.col);
    push_text(&mut s, ",title=");
    push_text(&mut s, d.rule.as_str());
    push_text(&mut s, "::");
    push_text(&mut s, d.message.as_str());
    proof {
        assert(s@ =~= github_line(d@));
    }
    s
}


/// The text report: each finding under the name of its file, the name
/// repeated only where the file changes.
pub fn text_report(diags: &[Diagnostic], show_fixes: bool) -> (lines: Vec<TextLine>)
    ensures
        lines_model(lines@) == text_lines(diags_model(diags@), show_fixes, Seq::empty()),
{
    let ghost all = diags_model(diags@);
    let mut lines: Vec<TextLine> = Vec::new();
    let mut current = String::new();
    let mut i: usize = 0;
    assert(all.skip(0) =~= all);
    while i < diags.len()
        invariant
            all == diags_model(diags@),
            i <= diags@.len(),
            lines_model(lines@) + text_lines(all.skip(i as int), show_fixes, current@)
                == text_lines(all, show_fixes, Seq::empty()),
        decreases diags@.len() - i,
    {
        let d = &diags[i];
        let ghost before = lines@;
        let ghost cur = current@;
        assert(all.skip(i as int).drop_first() =~= all.skip(i + 1));
        assert(all.skip(i as int)[0] == d@);
        if d.file != current {
            lines.push(TextLine::FileHeader(d.file.clone()));
            current = d.file.clone();
        }
        lines.push(
            TextLine::Finding {
                location: finding_location(d.line, d.col),
                severity: d.severity,
                message: d.message.clone(),
                rule: bracketed(d.rule.as_str()),
            },
        );
        if show_fixes {
            if let Some(fix) = &d.fix {
                lines.push(TextLine::Fix(fix.clone()));
            }
        }
        proof {
            assert(lines_model(lines@) =~= lines_model(before) + finding_lines(d@, show_fixes, cur));
            assert(current@ == d@.file);
        }
        i = i + 1;
    }
    proof {
        assert(all.skip(i as int) =~= Seq::<DiagnosticModel>::empty());
        assert(lines_model(lines@) + Seq::<TextLineModel>::empty() =~= lines_model(lines@));
    }
    lines
}

/// The texts of the `Fix` lines, in order.
pub open spec fn fix_texts(lines: Seq<TextLineModel>) -> Seq<Seq<char>>
    decreases lines.len(),
{
    if lines.len() == 0 {
        seq![]
    } else {
        (match lines[0] {
            TextLineModel::Fix(t) => seq![t],
            _ => seq![],
        }) + fix_texts(lines.drop_first())
    }
}

/// The fixes that findings carry, in order, whatever their kind.
pub open spec fn diag_fixes(diags: Seq<DiagnosticModel>) -> Seq<Seq<char>>
    decreases diags.len(),
{
    if diags.len() == 0 {
        seq![]
    } else {
        (match diags[0].fix {
            Some(t) => seq![t],
            None => seq![],
        }) + diag_fixes(diags.drop_first())
    }
}

proof fn lemma_fix_texts_append(a: Seq<TextLineModel>, b: Seq<TextLineModel>)
    ensures
        fix_texts(a + b) == fix_texts(a) + fix_texts(b),
    decreases a.len(),
{
    if a.len() == 0 {
        assert(a + b =~= b);
        assert(fix_texts(a) + fix_texts(b) =~= fix_texts(b));
    } else {
        assert((a + b).drop_first() =~= a.drop_first() + b);
        assert((a + b)[0] == a[0]);
        lemma_fix_texts_append(a.drop_first(), b);
        let h: Seq<Seq<char>> = match a[0] {
            TextLineModel::Fix(t) => seq![t],
            _ => seq![],
        };
        assert(h + (fix_texts(a.drop_first()) + fix_texts(b)) =~= (h + fix_texts(a.drop_first()))
            + fix_texts(b));
    }
}

proof fn lemma_text_fixes(diags: Seq<DiagnosticModel>, current: Seq<char>)
    ensures
        fix_texts(text_lines(diags, true, current)) == diag_fixes(diags),
        fix_texts(text_lines(diags, false, current)) == Seq::<Seq<char>>::empty(),
    decreases diags.len(),
{
    if diags.len() == 0 {
        assert(fix_texts(Seq::<TextLineModel>::empty()) =~= Seq::<Seq<char>>::empty());
    } else {
        let d = diags[0];
        lemma_text_fixes(diags.drop_first(), d.file);
        let head: Seq<TextLineModel> = if d.file != current {
            seq![TextLineModel::FileHeader(d.file)]
        } else {
            seq![]
        };
        let finding = seq![
            TextLineModel::Finding {
                location: decimal(d.line as nat) + ":"@ + decimal(d.col as nat),
                severity: d.severity,
                message: d.message,
                rule: "["@ + d.rule + "]"@,
            },
        ];
        let one: Seq<TextLineModel> = head + finding;
        lemma_fix_texts_append(head, finding);
        assert(fix_texts(head) =~= Seq::<Seq<char>>::empty()) by {
            assert(fix_texts(Seq::<TextLineModel>::empty()) =~= Seq::<Seq<char>>::empty());
            if head.len() > 0 {
                assert(head.drop_first() =~= Seq::<TextLineModel>::empty());
                assert(head[0] is FileHeader);
            }
        }
        assert(finding.drop_first() =~= Seq::<TextLineModel>::empty());
        assert(fix_texts(Seq::<TextLineModel>::empty()) =~= Seq::<Seq<char>>::empty());
        assert(finding[0] is Finding);
        assert(fix_texts(finding) =~= Seq::<Seq<char>>::empty());
        assert(fix_texts(one) =~= Seq::<Seq<char>>::empty());
        // fixes off
        assert(finding_lines(d, false, current) =~= one + Seq::<TextLineModel>::empty());
        lemma_fix_texts_append(finding_lines(d, false, current), text_lines(diags.drop_first(), false, d.file));
        lemma_fix_texts_append(one, Seq::<TextLineModel>::empty());
        assert(fix_texts(Seq::<TextLineModel>::empty()) =~= Seq::<Seq<char>>::empty());
        // fixes on
        let tail: Seq<TextLineModel> = match d.fix {
            Some(t) => seq![TextLineModel::Fix(t)],
            None => seq![],
        };
        assert(finding_lines(d, true, current) =~= one + tail);
        lemma_fix_texts_append(one, tail);
        lemma_fix_texts_append(finding_lines(d, true, current), text_lines(diags.drop_first(), true, d.file));
        if tail.len() > 0 {
            assert(tail.drop_first() =~= Seq::<TextLineModel>::empty());
        }
        let df: Seq<Seq<char>> = match d.fix {
            Some(t) => seq![t],
            None => seq![],
        };
        assert(fix_texts(tail) =~= df);
        assert(fix_texts(finding_lines(d, true, current)) =~= df);
    }
}

proof fn lemma_fix_follows_finding(diags: Seq<DiagnosticModel>, current: Seq<char>, k: int)
    requires
        0 <= k < diags.len(),
        diags[k].fix is Some,
    ensures
        exists|j: int|
            0 <= j && j + 1 < text_lines(diags, true, current).len() && (#[trigger] text_lines(
                diags,
                true,
                current,
            )[j] matches TextLineModel::Finding { message, .. } && message == diags[k].message)
                && text_lines(diags, true, current)[j + 1] == TextLineModel::Fix(
                diags[k].fix.unwrap(),
            ),
    decreases k,
{
    let d = diags[0];
    let first = finding_lines(d, true, current);
    let rest = text_lines(diags.drop_first(), true, d.file);
    let all = text_lines(diags, true, current);
    assert(all == first + rest);
    if k == 0 {
        let j: int = if d.file != current {
            1
        } else {
            0
        };
        assert(first[j] matches TextLineModel::Finding { message, .. } && message == d.message);
        assert(first[j + 1] == TextLineModel::Fix(d.fix.unwrap()));
        assert(all[j] == first[j]);
        assert(all[j + 1] == first[j + 1]);
    } else {
        lemma_fix_follows_finding(diags.drop_first(), d.file, k - 1);
        assert(diags.drop_first()[k - 1] == diags[k]);
        let j0 = choose|j: int|
            0 <= j && j + 1 < rest.len() && (#[trigger] rest[j] matches TextLineModel::Finding {
                message,
                ..
            } && message == diags[k].message) && rest[j + 1] == TextLineModel::Fix(
                diags[k].fix.unwrap(),
            );
        let j = first.len() + j0;
        assert(all[j] == rest[j0]);
        assert(all[j + 1] == rest[j0 + 1]);
    }
}

proof fn lemma_no_fix_lines(diags: Seq<DiagnosticModel>, current: Seq<char>)
    ensures
        forall|j: int|
            0 <= j < text_lines(diags, false, current).len() ==> !(#[trigger] text_lines(
                diags,
                false,
                current,
            )[j] is Fix),
    decreases diags.len(),
{
    if diags.len() > 0 {
        let d = diags[0];
        lemma_no_fix_lines(diags.drop_first(), d.file);
        let first = finding_lines(d, false, current);
        let rest = text_lines(diags.drop_first(), false, d.file);
        let all = text_lines(diags, false, current);
        assert(all == first + rest);
        assert forall|j: int| 0 <= j < all.len() implies !(#[trigger] all[j] is Fix) by {
            if j >= first.len() {
                assert(all[j] == rest[j - first.len()]);
            }
        }
    }
}

/// Fixes in the text report. With fixes shown, the `Fix` lines carry
/// exactly the fixes of the findings, one for each finding that has one,
/// whatever its kind, in the order of the findings, and each such fix
/// stands on the line right after its finding. With fixes hidden, no `Fix`
/// line appears.
pub proof fn law_text_report_fixes(diags: Seq<DiagnosticModel>, current: Seq<char>)
    ensures
        fix_texts(text_lines(diags, true, current)) == diag_fixes(diags),
        forall|k: int|
            0 <= k < diags.len() && (#[trigger] diags[k]).fix is Some ==> exists|j: int|
                0 <= j && j + 1 < text_lines(diags, true, current).len() && (
                #[trigger] text_lines(diags, true, current)[j] matches TextLineModel::Finding {
                    message,
                    ..
                } && message == diags[k].message) && text_lines(diags, true, current)[j + 1]
                    == TextLineModel::Fix(diags[k].fix.unwrap()),
        forall|j: int|
            0 <= j < text_lines(diags, false, current).len() ==> !(#[trigger] text_lines(
                diags,
                false,
                current,
            )[j] is Fix),
{
    lemma_text_fixes(diags, current);
    lemma_no_fix_lines(diags, current);
    assert forall|k: int| 0 <= k < diags.len() && (#[trigger] diags[k]).fix is Some implies exists|j: int|
        0 <= j && j + 1 < text_lines(diags, true, current).len() && (
        #[trigger] text_lines(diags, true, current)[j] matches TextLineModel::Finding {
            message,
            ..
        } && message == diags[k].message) && text_lines(diags, true, current)[j + 1]
            == TextLineModel::Fix(diags[k].fix.unwrap()) by {
        lemma_fix_follows_finding(diags, current, k);
    }
}

/// One GitHub Actions annotation per finding.
pub fn github_report(diags: &[Diagnostic]) -> (lines: Vec<String>)
    ensures
        lines@.len() == diags@.len(),
        forall|i: int| 0 <= i < diags@.len() ==> #[trigger] lines@[i]@ == github_line(diags@[i]@),
{
    let mut lines: Vec<String> = Vec::new();
    let mut i: usize = 0;
    while i < diags.len()
        invariant
            i <= diags@.len(),
            lines@.len() == i,
            forall|k: int| 0 <= k < i ==> #[trigger] lines@[k]@ == github_line(diags@[k]@),
        decreases diags@.len() - i,
    {
        lines.push(github_annotation(&diags[i]));
        i = i + 1;
    }
    lines
}


/// Each annotation opens with the workflow command of its finding's
/// severity: `::error ` for an error, `::warning ` for a warning and
/// `::notice ` for an info.
pub proof fn law_github_command_by_severity(d: DiagnosticModel)
    ensures
        d.severity is Error ==> "::error "@.is_prefix_of(github_line(d)),
        d.severity is Warning ==> "::warning "@.is_prefix_of(github_line(d)),
        d.severity is Info ==> "::notice "@.is_prefix_of(github_line(d)),
{
    reveal_strlit("::");
    reveal_strlit("error");
    reveal_strlit("warning");
    reveal_strlit("notice");
    reveal_strlit(" file=");
    reveal_strlit("::error ");
    reveal_strlit("::warning ");
    reveal_strlit("::notice ");
    let rest = d.file + ",line="@ + decimal(d.line as nat) + ",col="@ + decimal(d.col as nat)
        + ",title="@ + d.rule + "::"@ + d.message;
    let head = "::"@ + github_level(d.severity) + " file="@;
    assert(github_line(d) =~= head + rest);
    let cmd = "::"@ + github_level(d.severity) + " "@;
    reveal_strlit(" ");
    assert(cmd.is_prefix_of(github_line(d))) by {
        assert forall|x: int| 0 <= x < cmd.len() implies cmd[x] == github_line(d)[x] by {
            assert(github_line(d)[x] == head[x]);
        }
        assert(cmd =~= github_line(d).subrange(0, cmd.len() as int));
    }
    match d.severity {
        Severity::Error => assert(cmd =~= "::error "@),
        Severity::Warning => assert(cmd =~= "::warning "@),
        Severity::Info => assert(cmd =~= "::notice "@),
    }
}

// ── SARIF ─────────────────────────────────────────────────────────────────────

/// Lexicographic order of texts by code point (for UTF-8 text, the byte
/// order by which std orders `str`).
pub open spec fn text_less(a: Seq<char>, b: Seq<char>) -> bool
    decreases a.len(),
{
    if a.len() == 0 {
        b.len() > 0
    } else if b.len() == 0 {
        false
    } else if a[0] != b[0] {
        (a[0] as int) < (b[0] as int)
    } else {
        text_less(a.drop_first(), b.drop_first())
    }
}

pub proof fn lemma_text_less_total(a: Seq<char>, b: Seq<char>)
    requires
        a != b,
    ensures
        text_less(a, b) || text_less(b, a),
    decreases a.len(),
{
    if a.len() > 0 && b.len() > 0 && a[0] == b[0] {
        if a.drop_first() == b.drop_first() {
            assert(a =~= seq![a[0]] + a.drop_first());
            assert(b =~= seq![b[0]] + b.drop_first());
        }
        lemma_text_less_total(a.drop_first(), b.drop_first());
    } else if a.len() == 0 && b.len() == 0 {
        assert(a =~= b);
    } else if a.len() > 0 && b.len() > 0 {
        let x = a[0];
        let y = b[0];
        assert(x as int != y as int);
    }
}

pub proof fn lemma_text_less_transitive(a: Seq<char>, b: Seq<char>, c: Seq<char>)
    requires
        text_less(a, b),
        text_less(b, c),
    ensures
        text_less(a, c),
    decreases a.len(),
{
    if a.len() > 0 && b.len() > 0 && c.len() > 0 && a[0] == b[0] && b[0] == c[0] {
        lemma_text_less_transitive(a.drop_first(), b.drop_first(), c.drop_first());
    }
}

/// Whether `a` orders before `b`.
pub fn str_less(a: &str, b: &str) -> (r: bool)
    ensures
        r == text_less(a@, b@),
{
    let la = a.unicode_len();
    let lb = b.unicode_len();
    let mut i: usize = 0;
    assert(a@.skip(0) =~= a@ && b@.skip(0) =~= b@);
    while i < la && i < lb
        invariant
            la == a@.len(),
            lb == b@.len(),
            i <= la,
            i <= lb,
            text_less(a@, b@) == text_less(a@.skip(i as int), b@.skip(i as int)),
        decreases la - i,
    {
        let ca = a.get_char(i);
        let cb = b.get_char(i);
        assert(a@.skip(i as int)[0] == ca && b@.skip(i as int)[0] == cb);
        if ca != cb {
            return (ca as u32) < (cb as u32);
        }
        assert(a@.skip(i as int).drop_first() =~= a@.skip(i + 1));
        assert(b@.skip(i as int).drop_first() =~= b@.skip(i + 1));
        i = i + 1;
    }
    i == la && i < lb
}

/// Distinct texts in increasing order.
pub open spec fn strictly_sorted(ids: Seq<Seq<char>>) -> bool {
    forall|a: int, b: int| 0 <= a < b < ids.len() ==> text_less(#[trigger] ids[a], #[trigger] ids[b])
}

pub open spec fn rule_codes(diags: Seq<DiagnosticModel>) -> Seq<Seq<char>> {
    diags.map_values(|d: DiagnosticModel| d.rule)
}

/// The rule codes of the findings, each once, in increasing order (the
/// keys a `BTreeMap` would hold; vstd gives `BTreeMap` no ordering model for
/// `str` or `String` keys, so a sorted `Vec` holds them here).
pub fn sorted_rule_ids(diags: &[Diagnostic]) -> (ids: Vec<String>)
    ensures
        strictly_sorted(crate::config::texts(ids@)),
        forall|t: Seq<char>|
            crate::config::texts(ids@).contains(t) <==> rule_codes(diags_model(diags@)).contains(t),
{
    let mut ids: Vec<String> = Vec::new();
    let mut i: usize = 0;
    while i < diags.len()
        invariant
            i <= diags@.len(),
            strictly_sorted(crate::config::texts(ids@)),
            forall|t: Seq<char>|
                #[trigger] crate::config::texts(ids@).contains(t) <==> exists|k: int|
                    0 <= k < i && #[trigger] diags@[k].rule@ == t,
        decreases diags@.len() - i,
    {
        let rule = diags[i].rule.as_str();
        let ghost r = rule@;
        let ghost old_ids = crate::config::texts(ids@);
        let mut p: usize = 0;
        while p < ids.len() && str_less(ids[p].as_str(), rule)
            invariant
                p <= ids@.len(),
                r == rule@,
                forall|q: int| 0 <= q < p ==> text_less(#[trigger] ids@[q]@, r),
            decreases ids@.len() - p,
        {
            p = p + 1;
        }
        let present = p < ids.len() && str_eq(ids[p].as_str(), rule);
        if !present {
            let ghost before = ids@;
            ids.insert(p, String::from_str(rule));
            proof {
                let t = crate::config::texts(ids@);
                assert(t =~= old_ids.insert(p as int, r));
                if p < old_ids.len() {
                    lemma_text_less_total(old_ids[p as int], r);
                    assert(!text_less(old_ids[p as int], r));
                    assert(text_less(r, old_ids[p as int]));
                }
                assert forall|a: int, b: int| 0 <= a < b < t.len() implies text_less(
                    #[trigger] t[a],
                    #[trigger] t[b],
                ) by {
                    if b < p {
                        assert(t[a] == old_ids[a] && t[b] == old_ids[b]);
                    } else if a > p {
                        assert(t[a] == old_ids[a - 1] && t[b] == old_ids[b - 1]);
                    } else if a == p {
                        assert(t[b] == old_ids[b - 1]);
                        if b - 1 > p {
                            lemma_text_less_transitive(r, old_ids[p as int], old_ids[b - 1]);
                        }
                    } else if b == p {
                        assert(t[a] == old_ids[a]);
                        assert(text_less(before[a]@, r));
                    } else {
                        assert(t[a] == old_ids[a] && t[b] == old_ids[b - 1]);
                    }
                }
                assert forall|x: Seq<char>| #[trigger] t.contains(x) <==> exists|k: int|
                    0 <= k < i + 1 && #[trigger] diags@[k].rule@ == x by {
                    if t.contains(x) {
                        let y = choose|y: int| 0 <= y < t.len() && t[y] == x;
                        if y == p {
                            assert(diags@[i as int].rule@ == x);
                        } else {
                            let oy = if y < p {
                                y
                            } else {
                                y - 1
                            };
                            assert(t[y] == old_ids[oy]);
                            assert(old_ids.contains(x));
                        }
                    }
                    if exists|k: int| 0 <= k < i + 1 && #[trigger] diags@[k].rule@ == x {
                        let k = choose|k: int| 0 <= k < i + 1 && #[trigger] diags@[k].rule@ == x;
                        if k == i {
                            assert(t[p as int] == x);
                        } else {
                            assert(old_ids.contains(x));
                            let y = choose|y: int| 0 <= y < old_ids.len() && old_ids[y] == x;
                            if y < p {
                                assert(t[y] == x);
                            } else {
                                assert(t[y + 1] == x);
                            }
                        }
                    }
                }
            }
        } else {
            proof {
                assert(old_ids[p as int] == r);
                assert forall|x: Seq<char>| #[trigger] old_ids.contains(x) <==> exists|k: int|
                    0 <= k < i + 1 && #[trigger] diags@[k].rule@ == x by {
                    if exists|k: int| 0 <= k < i + 1 && #[trigger] diags@[k].rule@ == x {
                        let k = choose|k: int| 0 <= k < i + 1 && #[trigger] diags@[k].rule@ == x;
                        if k == i {
                            assert(old_ids[p as int] == x);
                        }
                    }
                }
            }
        }
        i = i + 1;
    }
    proof {
        let t = crate::config::texts(ids@);
        let codes = rule_codes(diags_model(diags@));
        assert forall|x: Seq<char>| t.contains(x) <==> codes.contains(x) by {
            if t.contains(x) {
                let k = choose|k: int| 0 <= k < i && #[trigger] diags@[k].rule@ == x;
                assert(codes[k] == x);
            }
            if codes.contains(x) {
                let k = choose|k: int| 0 <= k < codes.len() && codes[k] == x;
                assert(diags@[k].rule@ == x);
            }
        }
    }
    ids
}


/// A rule as the SARIF log describes it.
#[derive(Debug)]
pub struct SarifRule {
    pub id: String,
    pub name: String,
    pub short_description: String,
    pub help_uri: String,
    pub level: String,
}

/// A finding as the SARIF log records it.
#[derive(Debug)]
pub struct SarifResult {
    pub rule_id: String,
    pub level: String,
    pub message: String,
    /// The file, with forward slashes.
    pub uri: String,
    pub start_line: usize,
    pub start_column: usize,
}

/// The rules and results of a SARIF run.
#[derive(Debug)]
pub struct SarifLog {
    /// The JSON schema of the log.
    pub schema: &'static str,
    /// The SARIF version.
    pub sarif_version: &'static str,
    pub tool_name: &'static str,
    pub information_uri: &'static str,
    pub rules: Vec<SarifRule>,
    pub results: Vec<SarifResult>,
}

pub open spec fn help_uri_of(id: Seq<char>) -> Seq<char> {
    "https://github.com/your-repo/rblint/blob/main/docs/rules/"@ + id + ".md"@
}

/// The SARIF description of rule `id`.
pub open spec fn sarif_rule_matches(r: SarifRule, id: Seq<char>) -> bool {
    &&& r.id@ == id
    &&& r.name@ == rule_name_of(id)
    &&& r.short_description@ == rule_description_of(id)
    &&& r.help_uri@ == help_uri_of(id)
    &&& r.level@ == rule_level_of(id)
}

pub open spec fn sarif_level(s: Severity) -> Seq<char> {
    match s {
        Severity::Error => "error"@,
        Severity::Warning => "warning"@,
        Severity::Info => "note"@,
    }
}

/// Backslashes turned into forward slashes, as SARIF URIs require.
pub open spec fn forward_slashes(s: Seq<char>) -> Seq<char> {
    s.map_values(|c: char| if c == '\\' { '/' } else { c })
}

/// The SARIF record of finding `d`.
pub open spec fn sarif_result_matches(r: SarifResult, d: DiagnosticModel) -> bool {
    &&& r.rule_id@ == d.rule
    &&& r.level@ == sarif_level(d.severity)
    &&& r.message@ == d.message
    &&& r.uri@ == forward_slashes(d.file)
    &&& r.start_line == d.line
    &&& r.start_column == d.col
}

/// The log's header; one rule per distinct rule code of the findings, in
/// increasing order of code; and one result per finding, in order.
pub open spec fn sarif_log_matches(log: SarifLog, diags: Seq<DiagnosticModel>) -> bool {
    &&& log.schema@ == "https://schemastore.azurewebsites.net/schemas/json/sarif-2.1.0-rtm.5.json"@
    &&& log.sarif_version@ == "2.1.0"@
    &&& log.tool_name@ == "rblint"@
    &&& log.information_uri@ == "https://github.com/your-repo/rblint"@
    &&& strictly_sorted(log.rules@.map_values(|r: SarifRule| r.id@))
    &&& forall|t: Seq<char>|
        log.rules@.map_values(|r: SarifRule| r.id@).contains(t) <==> rule_codes(diags).contains(t)
    &&& forall|i: int|
        0 <= i < log.rules@.len() ==> sarif_rule_matches(#[trigger] log.rules@[i], log.rules@[i].id@)
    &&& log.results@.len() == diags.len()
    &&& forall|i: int|
        0 <= i < diags.len() ==> sarif_result_matches(#[trigger] log.results@[i], diags[i])
}

fn with_forward_slashes(s: &str) -> (r: String)
    ensures
        r@ == forward_slashes(s@),
{
    let n = s.unicode_len();
    let mut r = String::new();
    let mut i: usize = 0;
    while i < n
        invariant
            n == s@.len(),
            i <= n,
            r@ =~= forward_slashes(s@).take(i as int),
        decreases n - i,
    {
        let c = s.get_char(i);
        if c == '\\' {
            r.push('/');
        } else {
            r.push(c);
        }
        assert(forward_slashes(s@).take(i + 1) =~= forward_slashes(s@).take(i as int).push(
            forward_slashes(s@)[i as int],
        ));
        i = i + 1;
    }
    assert(forward_slashes(s@).take(n as int) =~= forward_slashes(s@));
    r
}

fn help_uri(id: &str) -> (s: String)
    ensures
        s@ == help_uri_of(id@),
{
    let mut s = String::new();
    push_text(&mut s, "https://github.com/your-repo/rblint/blob/main/docs/rules/");
    push_text(&mut s, id);
    push_text(&mut s, ".md");
    proof {
        assert(s@ =~= help_uri_of(id@));
    }
    s
}

/// The rules and results of the SARIF log of the findings.
pub fn sarif_log(diags: &[Diagnostic]) -> (log: SarifLog)
    ensures
        sarif_log_matches(log, diags_model(diags@)),
{
    let ids = sorted_rule_ids(diags);
    let mut rules: Vec<SarifRule> = Vec::new();
    let mut i: usize = 0;
    while i < ids.len()
        invariant
            i <= ids@.len(),
            rules@.len() == i,
            forall|k: int| 0 <= k < i ==> #[trigger] rules@[k].id@ == ids@[k]@,
            forall|k: int| 0 <= k < i ==> sarif_rule_matches(#[trigger] rules@[k], ids@[k]@),
        decreases ids@.len() - i,
    {
        let id = ids[i].as_str();
        rules.push(
            SarifRule {
                id: String::from_str(id),
                name: String::from_str(rule_name(id)),
                short_description: String::from_str(rule_short_description(id)),
                help_uri: help_uri(id),
                level: String::from_str(rule_default_level(id)),
            },
        );
        i = i + 1;
    }
    let mut results: Vec<SarifResult> = Vec::new();
    let mut j: usize = 0;
    while j < diags.len()
        invariant
            j <= diags@.len(),
            results@.len() == j,
            forall|k: int| 0 <= k < j ==> sarif_result_matches(#[trigger] results@[k], diags@[k]@),
        decreases diags@.len() - j,
    {
        let d = &diags[j];
        let level = match d.severity {
            Severity::Error => "error",
            Severity::Warning => "warning",
            Severity::Info => "note",
        };
        results.push(
            SarifResult {
                rule_id: d.rule.clone(),
                level: String::from_str(level),
                message: d.message.clone(),
                uri: with_forward_slashes(d.file.as_str()),
                start_line: d.line,
                start_column: d.col,
            },
        );
        j = j + 1;
    }
    let log = SarifLog {
        schema: "https://schemastore.azurewebsites.net/schemas/json/sarif-2.1.0-rtm.5.json",
        sarif_version: "2.1.0",
        tool_name: "rblint",
        information_uri: "https://github.com/your-repo/rblint",
        rules,
        results,
    };
    proof {
        assert(log.rules@.map_values(|r: SarifRule| r.id@) =~= crate::config::texts(ids@));
    }
    log
}

/// In a SARIF log of some findings, the result for each finding has level
/// `error` for an error, `warning` for a warning and `note` for an info:
/// three distinct levels, one per severity.
pub proof fn law_sarif_level_by_severity(log: SarifLog, diags: Seq<DiagnosticModel>)
    requires
        sarif_log_matches(log, diags),
    ensures
        log.results@.len() == diags.len(),
        forall|i: int|
            0 <= i < diags.len() ==> {
                &&& (#[trigger] diags[i]).severity is Error ==> log.results@[i].level@ == "error"@
                &&& diags[i].severity is Warning ==> log.results@[i].level@ == "warning"@
                &&& diags[i].severity is Info ==> log.results@[i].level@ == "note"@
            },
{
    assert forall|i: int| 0 <= i < diags.len() implies {
        &&& (#[trigger] diags[i]).severity is Error ==> log.results@[i].level@ == "error"@
        &&& diags[i].severity is Warning ==> log.results@[i].level@ == "warning"@
        &&& diags[i].severity is Info ==> log.results@[i].level@ == "note"@
    } by {
        assert(sarif_result_matches(log.results@[i], diags[i]));
    }
}

// ── summary ───────────────────────────────────────────────────────────────────

/// The number of findings of severity `s`.
pub open spec fn severity_count(diags: Seq<DiagnosticModel>, s: Severity) -> nat
    decreases diags.len(),
{
    if diags.len() == 0 {
        0
    } else {
        severity_count(diags.drop_last(), s) + if diags.last().severity == s {
            1nat
        } else {
            0nat
        }
    }
}

/// How many errors, warnings and notes were found.
#[derive(Debug)]
pub struct Summary {
    pub errors: usize,
    pub warnings: usize,
    pub infos: usize,
    pub files_checked: usize,
    /// `error` for one error, `errors` otherwise.
    pub error_word: &'static str,
    /// `warning` for one warning, `warnings` otherwise.
    pub warning_word: &'static str,
    /// `file` for one file checked, `files` otherwise.
    pub file_word: &'static str,
    /// There are no findings: "All checks passed!" follows.
    pub all_passed: bool,
    /// `N error` or `N errors`.
    pub errors_text: String,
    /// `N warning` or `N warnings`.
    pub warnings_text: String,
    /// `N info`.
    pub infos_text: String,
    /// The number of files checked.
    pub files_text: String,
}

/// The singular of a count of one, the plural of any other count.
pub open spec fn noun_for(n: nat, singular: Seq<char>, plural: Seq<char>) -> Seq<char> {
    if n == 1 {
        singular
    } else {
        plural
    }
}

pub proof fn lemma_severity_count_bound(diags: Seq<DiagnosticModel>, s: Severity)
    ensures
        severity_count(diags, s) <= diags.len(),
    decreases diags.len(),
{
    if diags.len() > 0 {
        lemma_severity_count_bound(diags.drop_last(), s);
    }
}

/// `N noun`.
fn count_text(n: usize, noun: &str) -> (s: String)
    ensures
        s@ == decimal(n as nat) + " "@ + noun@,
{
    let mut s = String::new();
    push_decimal(&mut s, n);
    push_text(&mut s, " ");
    push_text(&mut s, noun);
    proof {
        assert(s@ =~= decimal(n as nat) + " "@ + noun@);
    }
    s
}

/// Every finding is counted once: errors, warnings and notes add up to the
/// number of findings.
pub proof fn law_summary_counts_add_up(diags: Seq<DiagnosticModel>)
    ensures
        severity_count(diags, Severity::Error) + severity_count(diags, Severity::Warning)
            + severity_count(diags, Severity::Info) == diags.len(),
    decreases diags.len(),
{
    if diags.len() > 0 {
        law_summary_counts_add_up(diags.drop_last());
    }
}

// ── the reporter ──────────────────────────────────────────────────────────────

/// What a reporter prints.
#[derive(Debug)]
pub enum Report {
    Text(Vec<TextLine>),
    /// The findings themselves, serialised as pretty-printed JSON.
    Json,
    Github(Vec<String>),
    Sarif(SarifLog),
}

impl Reporter {
    /// The report of the findings in this reporter's format.
    pub fn print(&self, diags: &[Diagnostic]) -> (r: Report)
        ensures
            match self.format {
                OutputFormat::Text => r matches Report::Text(lines) && lines_model(lines@)
                    == text_lines(diags_model(diags@), self.show_fixes, Seq::empty()),
                OutputFormat::Json => r is Json,
                OutputFormat::Github => r matches Report::Github(lines) && lines@.len()
                    == diags@.len() && forall|i: int|
                    0 <= i < diags@.len() ==> #[trigger] lines@[i]@ == github_line(diags@[i]@),
                OutputFormat::Sarif => r matches Report::Sarif(log) && sarif_log_matches(
                    log,
                    diags_model(diags@),
                ),
            },
    {
        match self.format {
            OutputFormat::Text => Report::Text(text_report(diags, self.show_fixes)),
            OutputFormat::Json => Report::Json,
            OutputFormat::Github => Report::Github(github_report(diags)),
            OutputFormat::Sarif => Report::Sarif(sarif_log(diags)),
        }
    }

    /// The counts the closing summary shows; only the text format has one.
    pub fn summary(&self, diags: &[Diagnostic], files_checked: usize) -> (r: Option<Summary>)
        ensures
            match r {
                Some(s) => {
                    &&& self.format == OutputFormat::Text
                    &&& s.errors == severity_count(diags_model(diags@), Severity::Error)
                    &&& s.warnings == severity_count(diags_model(diags@), Severity::Warning)
                    &&& s.infos == severity_count(diags_model(diags@), Severity::Info)
                    &&& s.files_checked == files_checked
                    &&& s.error_word@ == noun_for(s.errors as nat, "error"@, "errors"@)
                    &&& s.warning_word@ == noun_for(s.warnings as nat, "warning"@, "warnings"@)
                    &&& s.file_word@ == noun_for(files_checked as nat, "file"@, "files"@)
                    &&& s.all_passed == (diags@.len() == 0)
                    &&& s.errors_text@ == decimal(s.errors as nat) + " "@ + s.error_word@
                    &&& s.warnings_text@ == decimal(s.warnings as nat) + " "@ + s.warning_word@
                    &&& s.infos_text@ == decimal(s.infos as nat) + " "@ + "info"@
                    &&& s.files_text@ == decimal(files_checked as nat)
                },
                None => self.format != OutputFormat::Text,
            },
    {
        if self.format != OutputFormat::Text {
            return None;
        }
        let ghost all = diags_model(diags@);
        let mut errors: usize = 0;
        let mut warnings: usize = 0;
        let mut infos: usize = 0;
        let mut i: usize = 0;
        while i < diags.len()
            invariant
                all == diags_model(diags@),
                i <= diags@.len(),
                errors == severity_count(all.take(i as int), Severity::Error),
                warnings == severity_count(all.take(i as int), Severity::Warning),
                infos == severity_count(all.take(i as int), Severity::Info),
            decreases diags@.len() - i,
        {
            proof {
                assert(all.take(i + 1).drop_last() =~= all.take(i as int));
                lemma_severity_count_bound(all.take(i as int), Severity::Error);
                lemma_severity_count_bound(all.take(i as int), Severity::Warning);
                lemma_severity_count_bound(all.take(i as int), Severity::Info);
            }
            match diags[i].severity {
                Severity::Error => {
                    errors = errors + 1;
                },
                Severity::Warning => {
                    warnings = warnings + 1;
                },
                Severity::Info => {
                    infos = infos + 1;
                },
            }
            i = i + 1;
        }
        assert(all.take(i as int) =~= all);
        let error_word = if errors == 1 {
            "error"
        } else {
            "errors"
        };
        let warning_word = if warnings == 1 {
            "warning"
        } else {
            "warnings"
        };
        let file_word = if files_checked == 1 {
            "file"
        } else {
            "files"
        };
        let errors_text = count_text(errors, error_word);
        let warnings_text = count_text(warnings, warning_word);
        let infos_text = count_text(infos, "info");
        let mut files_text = String::new();
        push_decimal(&mut files_text, files_checked);
        assert(files_text@ =~= decimal(files_checked as nat));
        Some(
            Summary {
                errors,
                warnings,
                infos,
                files_checked,
                error_word,
                warning_word,
                file_word,
                all_passed: diags.len() == 0,
                errors_text,
                warnings_text,
                infos_text,
                files_text,
            },
        )
    }
}

} // verus!
