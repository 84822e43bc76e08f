//! Local variables that are assigned (or bound as parameters) and never read.
use vstd::prelude::*;

use crate::diagnostic::{diags_model, Diagnostic, DiagnosticModel, FixKind, Severity};
use crate::rules::{LintContext, Rule, VarEvent};
use crate::text::{push_text, starts_with_char, str_eq};

verus! {

// ── lines ─────────────────────────────────────────────────────────────────────

/// The number of `\n` bytes.
pub open spec fn newline_count(s: Seq<u8>) -> nat
    decreases s.len(),
{
    if s.len() == 0 {
        0
    } else {
        newline_count(s.drop_last()) + if s.last() == 10u8 {
            1nat
        } else {
            0nat
        }
    }
}

pub open spec fn saturate(n: nat) -> usize {
    if n <= usize::MAX {
        n as usize
    } else {
        usize::MAX
    }
}

/// The 1-based line of a byte offset: one more than the number of newlines
/// before it (an offset past the end counts them all).
pub open spec fn line_of_offset(source: Seq<u8>, offset: int) -> usize {
    let m = if offset < source.len() {
        offset
    } else {
        source.len() as int
    };
    saturate(1 + newline_count(source.take(m)))
}

/// Converts a byte offset to a 1-based line number.
pub fn byte_offset_to_line(source: &[u8], offset: usize) -> (line: usize)
    ensures
        line == line_of_offset(source@, offset as int),
{
    let m = if offset < source.len() {
        offset
    } else {
        source.len()
    };
    let mut line: usize = 1;
    let mut i: usize = 0;
    assert(source@.take(0) =~= Seq::<u8>::empty());
    while i < m
        invariant
            m <= source@.len(),
            m == (if offset < source@.len() {
                offset as int
            } else {
                source@.len() as int
            }),
            i <= m,
            line == saturate(1 + newline_count(source@.take(i as int))),
        decreases m - i,
    {
        assert(source@.take(i + 1).drop_last() =~= source@.take(i as int));
        if source[i] == 10u8 {
            if line < usize::MAX {
                line = line + 1;
            }
        }
        i = i + 1;
    }
    line
}

// ── what the rule reports ─────────────────────────────────────────────────────

/// The byte offset of the first assignment to `name`.
pub open spec fn first_assign(events: Seq<VarEvent>, name: Seq<char>) -> Option<usize>
    decreases events.len(),
{
    if events.len() == 0 {
        None
    } else {
        match first_assign(events.drop_last(), name) {
            Some(o) => Some(o),
            None => match events.last() {
                VarEvent::Assign { name: n, offset } => if n@ == name {
                    Some(offset)
                } else {
                    None
                },
                _ => None,
            },
        }
    }
}

/// The index of the first assignment to `name`.
pub open spec fn first_assign_pos(events: Seq<VarEvent>, name: Seq<char>) -> Option<int>
    decreases events.len(),
{
    if events.len() == 0 {
        None
    } else {
        match first_assign_pos(events.drop_last(), name) {
            Some(p) => Some(p),
            None => match events.last() {
                VarEvent::Assign { name: n, .. } => if n@ == name {
                    Some(events.len() - 1)
                } else {
                    None
                },
                _ => None,
            },
        }
    }
}

proof fn lemma_first_assign_pos(events: Seq<VarEvent>, name: Seq<char>)
    ensures
        (first_assign(events, name) is Some) == (first_assign_pos(events, name) is Some),
        first_assign_pos(events, name) is Some ==> 0 <= first_assign_pos(events, name).unwrap()
            < events.len(),
    decreases events.len(),
{
    if events.len() > 0 {
        lemma_first_assign_pos(events.drop_last(), name);
    }
}

pub open spec fn event_uses(e: VarEvent, name: Seq<char>) -> bool {
    match e {
        VarEvent::Use { name: n } => n@ == name,
        _ => false,
    }
}

/// `name` is read somewhere.
pub open spec fn is_used(events: Seq<VarEvent>, name: Seq<char>) -> bool {
    exists|i: int| 0 <= i < events.len() && event_uses(#[trigger] events[i], name)
}

/// `name` is assigned, never read, and does not start with `_` (the Ruby
/// convention for a value left unused on purpose).
pub open spec fn is_reported(events: Seq<VarEvent>, name: Seq<char>) -> bool {
    &&& first_assign(events, name) is Some
    &&& !(name.len() > 0 && name[0] == '_')
    &&& !is_used(events, name)
}

pub open spec fn unused_message(name: Seq<char>) -> Seq<char> {
    "Variable `"@ + name + "` is assigned but never used"@
}

/// The finding for an unused `name`, at the line of its first assignment.
pub open spec fn unused_report(
    file: Seq<char>,
    source: Seq<u8>,
    events: Seq<VarEvent>,
    name: Seq<char>,
) -> DiagnosticModel {
    DiagnosticModel {
        file,
        line: line_of_offset(source, first_assign(events, name).unwrap() as int),
        col: 0,
        rule: "R060"@,
        message: unused_message(name),
        severity: Severity::Warning,
        fix: None,
        fix_kind: FixKind::ReplaceLine,
    }
}

/// The line at which an unused `name` is reported.
pub open spec fn report_line(source: Seq<u8>, events: Seq<VarEvent>, name: Seq<char>) -> usize {
    line_of_offset(source, first_assign(events, name).unwrap() as int)
}

/// The finding for `a` comes before that for `b`: by line, and on one line
/// by the order of first assignment.
pub open spec fn reported_before(
    source: Seq<u8>,
    events: Seq<VarEvent>,
    a: Seq<char>,
    b: Seq<char>,
) -> bool {
    ||| report_line(source, events, a) < report_line(source, events, b)
    ||| report_line(source, events, a) == report_line(source, events, b) && first_assign_pos(
        events,
        a,
    ).unwrap() < first_assign_pos(events, b).unwrap()
}

pub open spec fn sorted_by_line(r: Seq<DiagnosticModel>) -> bool {
    forall|a: int, b: int| 0 <= a < b < r.len() ==> #[trigger] r[a].line <= #[trigger] r[b].line
}

/// One finding per reported variable, ordered by line and, on one line, by
/// the order of first assignment; nothing when the source did not parse.
pub open spec fn reports_unused_variables(ctx: LintContext, r: Seq<DiagnosticModel>) -> bool {
    match ctx.variable_events {
        None => r.len() == 0,
        Some(ev) => {
            &&& exists|names: Seq<Seq<char>>|
                {
                    &&& names.no_duplicates()
                    &&& forall|n: Seq<char>| #[trigger]
                        names.contains(n) <==> is_reported(ev@, n)
                    &&& r == names.map_values(
                        |n: Seq<char>|
                            unused_report(
                                ctx.file@,
                                vstd::utf8::encode_utf8(ctx.source@),
                                ev@,
                                n,
                            ),
                    )
                    &&& forall|x: int, y: int|
                        0 <= x < y < names.len() ==> reported_before(
                            vstd::utf8::encode_utf8(ctx.source@),
                            ev@,
                            #[trigger] names[x],
                            #[trigger] names[y],
                        )
                }
            &&& sorted_by_line(r)
        },
    }
}

// ── collection ────────────────────────────────────────────────────────────────

fn find_name(found: &Vec<(String, usize)>, name: &str) -> (r: Option<usize>)
    ensures
        match r {
            Some(i) => i < found@.len() && found@[i as int].0@ == name@,
            None => forall|i: int| 0 <= i < found@.len() ==> #[trigger] found@[i].0@ != name@,
        },
{
    let mut i: usize = 0;
    while i < found.len()
        invariant
            i <= found@.len(),
            forall|k: int| 0 <= k < i ==> #[trigger] found@[k].0@ != name@,
        decreases found@.len() - i,
    {
        if str_eq(found[i].0.as_str(), name) {
            return Some(i);
        }
        i = i + 1;
    }
    None
}

/// Each assigned name once, with the offset of its first assignment, in
/// the order of first assignment (a `Vec` in place of a `HashMap`: vstd
/// gives hash maps no key model for `String` keys).
fn first_assignments(events: &[VarEvent]) -> (r: Vec<(String, usize)>)
    ensures
        forall|i: int, j: int|
            0 <= i < r@.len() && 0 <= j < r@.len() && i != j ==> #[trigger] r@[i].0@
                != #[trigger] r@[j].0@,
        forall|i: int|
            0 <= i < r@.len() ==> first_assign(events@, #[trigger] r@[i].0@) == Some(r@[i].1),
        forall|n: Seq<char>|
            #[trigger] first_assign(events@, n) is Some ==> exists|i: int|
                0 <= i < r@.len() && #[trigger] r@[i].0@ == n,
        forall|i: int|
            0 <= i < r@.len() ==> first_assign_pos(events@, #[trigger] r@[i].0@) is Some,
        forall|i: int, j: int|
            0 <= i < j < r@.len() ==> first_assign_pos(events@, #[trigger] r@[i].0@).unwrap()
                < first_assign_pos(events@, #[trigger] r@[j].0@).unwrap(),
{
    let mut found: Vec<(String, usize)> = Vec::new();
    let mut k: usize = 0;
    assert(events@.take(0) =~= Seq::<VarEvent>::empty());
    while k < events.len()
        invariant
            k <= events@.len(),
            forall|i: int, j: int|
                0 <= i < found@.len() && 0 <= j < found@.len() && i != j
                    ==> #[trigger] found@[i].0@ != #[trigger] found@[j].0@,
            forall|i: int|
                0 <= i < found@.len() ==> first_assign(events@.take(k as int), #[trigger] found@[i].0@)
                    == Some(found@[i].1),
            forall|n: Seq<char>|
                #[trigger] first_assign(events@.take(k as int), n) is Some ==> exists|i: int|
                    0 <= i < found@.len() && #[trigger] found@[i].0@ == n,
            forall|i: int|
                0 <= i < found@.len() ==> first_assign_pos(
                    events@.take(k as int),
                    #[trigger] found@[i].0@,
                ) is Some && first_assign_pos(events@.take(k as int), found@[i].0@).unwrap() < k,
            forall|i: int, j: int|
                0 <= i < j < found@.len() ==> first_assign_pos(
                    events@.take(k as int),
                    #[trigger] found@[i].0@,
                ).unwrap() < first_assign_pos(events@.take(k as int), #[trigger] found@[j].0@).unwrap(),
        decreases events@.len() - k,
    {
        let ghost pre = events@.take(k as int);
        let ghost post = events@.take(k + 1);
        assert(post.drop_last() =~= pre);
        assert(post.last() == events@[k as int]);
        let ghost old_found = found@;
        match &events[k] {
            VarEvent::Assign { name, offset } => {
                match find_name(&found, name.as_str()) {
                    Some(_) => {
                        assert forall|n: Seq<char>| #[trigger]
                            first_assign(post, n) is Some implies exists|i: int|
                            0 <= i < found@.len() && #[trigger] found@[i].0@ == n by {
                            if first_assign(pre, n) is None {
                                assert(n == name@);
                            }
                        }
                    },
                    None => {
                        assert(first_assign(pre, name@) is None);
                        proof {
                            lemma_first_assign_pos(pre, name@);
                        }
                        found.push((name.clone(), *offset));
                        let ghost last = found@.len() - 1;
                        assert(found@[last].0@ == name@);
                        assert forall|i: int| 0 <= i < found@.len() implies first_assign(
                            post,
                            #[trigger] found@[i].0@,
                        ) == Some(found@[i].1) by {
                            if i < last {
                                assert(found@[i] == old_found[i]);
                            }
                        }
                        assert forall|n: Seq<char>| #[trigger]
                            first_assign(post, n) is Some implies exists|i: int|
                            0 <= i < found@.len() && #[trigger] found@[i].0@ == n by {
                            if first_assign(pre, n) is None {
                                assert(n == name@);
                                assert(found@[last].0@ == n);
                            } else {
                                let i = choose|i: int|
                                    0 <= i < old_found.len() && #[trigger] old_found[i].0@ == n;
                                assert(found@[i] == old_found[i]);
                            }
                        }
                        assert forall|i: int, j: int|
                            0 <= i < found@.len() && 0 <= j < found@.len() && i != j
                                implies #[trigger] found@[i].0@ != #[trigger] found@[j].0@ by {
                            if i < last && j < last {
                                assert(found@[i] == old_found[i] && found@[j] == old_found[j]);
                            } else if i == last {
                                assert(found@[j] == old_found[j]);
                            } else {
                                assert(found@[i] == old_found[i]);
                            }
                        }
                    },
                }
            },
            VarEvent::Use { .. } => {
                assert forall|n: Seq<char>| #[trigger]
                    first_assign(post, n) is Some implies exists|i: int|
                    0 <= i < found@.len() && #[trigger] found@[i].0@ == n by {
                    assert(first_assign(post, n) == first_assign(pre, n));
                }
            },
        }
        proof {
            assert forall|i: int|
                0 <= i < found@.len() implies first_assign_pos(post, #[trigger] found@[i].0@)
                is Some && first_assign_pos(post, found@[i].0@).unwrap() < k + 1 by {
                if i < old_found.len() {
                    assert(found@[i] == old_found[i]);
                }
            }
            assert forall|i: int, j: int| 0 <= i < j < found@.len() implies first_assign_pos(
                post,
                #[trigger] found@[i].0@,
            ).unwrap() < first_assign_pos(post, #[trigger] found@[j].0@).unwrap() by {
                assert(found@[i] == old_found[i]);
                if j < old_found.len() {
                    assert(found@[j] == old_found[j]);
                }
            }
        }
        k = k + 1;
    }
    assert(events@.take(events@.len() as int) =~= events@);
    found
}

/// Whether `name` is read anywhere.
fn name_is_used(events: &[VarEvent], name: &str) -> (r: bool)
    ensures
        r == is_used(events@, name@),
{
    let mut k: usize = 0;
    while k < events.len()
        invariant
            k <= events@.len(),
            forall|i: int| 0 <= i < k ==> !event_uses(#[trigger] events@[i], name@),
        decreases events@.len() - k,
    {
        match &events[k] {
            VarEvent::Use { name: n } => {
                if str_eq(n.as_str(), name) {
                    assert(event_uses(events@[k as int], name@));
                    return true;
                }
            },
            VarEvent::Assign { .. } => {},
        }
        k = k + 1;
    }
    false
}

fn unused_message_text(name: &str) -> (msg: String)
    ensures
        msg@ == unused_message(name@),
{
    let mut msg = String::new();
    push_text(&mut msg, "Variable `");
    push_text(&mut msg, name);
    push_text(&mut msg, "` is assigned but never used");
    proof {
        assert(msg@ =~= unused_message(name@));
    }
    msg
}

/// The index after the last leading diagnostic whose line is at most
/// `line`.
fn insertion_point(diags: &Vec<Diagnostic>, line: usize) -> (p: usize)
    ensures
        p <= diags@.len(),
        forall|q: int| 0 <= q < p ==> #[trigger] diags@[q].line <= line,
        p < diags@.len() ==> diags@[p as int].line > line,
{
    let mut p: usize = 0;
    while p < diags.len() && diags[p].line <= line
        invariant
            p <= diags@.len(),
            forall|q: int| 0 <= q < p ==> #[trigger] diags@[q].line <= line,
        decreases diags@.len() - p,
    {
        p = p + 1;
    }
    p
}

// ── the rule ──────────────────────────────────────────────────────────────────

/// Variables that are assigned but never used.
pub struct UnusedVariableRule;

impl Rule for UnusedVariableRule {
    fn name(&self) -> (code: &'static str)
        ensures
            code@ == "R060"@,
    {
        "R060"
    }

    fn check(&self, ctx: &LintContext) -> (diags: Vec<Diagnostic>)
        ensures
            reports_unused_variables(*ctx, diags_model(diags@)),
    {
        let events = match &ctx.variable_events {
            Some(ev) => ev,
            None => {
                return Vec::new();
            },
        };
        let assigned = first_assignments(events.as_slice());
        let source = ctx.source.as_str().as_bytes();
        let ghost src = vstd::utf8::encode_utf8(ctx.source@);
        let ghost ev = events@;
        let ghost file = ctx.file@;
        let mut diagnostics: Vec<Diagnostic> = Vec::new();
        let ghost mut names: Seq<Seq<char>> = seq![];
        let mut i: usize = 0;
        while i < assigned.len()
            invariant
                source@ == src,
                ev == events@,
                file == ctx.file@,
                i <= assigned@.len(),
                forall|a: int, b: int|
                    0 <= a < assigned@.len() && 0 <= b < assigned@.len() && a != b
                        ==> #[trigger] assigned@[a].0@ != #[trigger] assigned@[b].0@,
                forall|a: int|
                    0 <= a < assigned@.len() ==> first_assign(ev, #[trigger] assigned@[a].0@)
                        == Some(assigned@[a].1),
                names.no_duplicates(),
                forall|n: Seq<char>| #[trigger]
                    names.contains(n) <==> (is_reported(ev, n) && exists|a: int|
                        0 <= a < i && #[trigger] assigned@[a].0@ == n),
                diags_model(diagnostics@) == names.map_values(
                    |n: Seq<char>| unused_report(file, src, ev, n),
                ),
                sorted_by_line(diags_model(diagnostics@)),
                forall|a: int|
                    0 <= a < assigned@.len() ==> first_assign_pos(ev, #[trigger] assigned@[a].0@)
                        is Some,
                forall|a: int, b: int|
                    0 <= a < b < assigned@.len() ==> first_assign_pos(
                        ev,
                        #[trigger] assigned@[a].0@,
                    ).unwrap() < first_assign_pos(ev, #[trigger] assigned@[b].0@).unwrap(),
                forall|x: int, y: int|
                    0 <= x < y < names.len() ==> reported_before(
                        src,
                        ev,
                        #[trigger] names[x],
                        #[trigger] names[y],
                    ),
            decreases assigned@.len() - i,
        {
            let name = &assigned[i].0;
            let offset = assigned[i].1;
            let ghost nm = name@;
            let ghost old_names = names;
            if !starts_with_char(name.as_str(), '_') && !name_is_used(events.as_slice(), name.as_str()) {
                let line = byte_offset_to_line(source, offset);
                let msg = unused_message_text(name.as_str());
                let d = Diagnostic::new(
                    ctx.file.as_str(),
                    line,
                    0,
                    "R060",
                    msg.as_str(),
                    Severity::Warning,
                );
                assert(d@ == unused_report(file, src, ev, nm));
                let p = insertion_point(&diagnostics, line);
                let ghost old_d = diagnostics@;
                diagnostics.insert(p, d);
                proof {
                    assert(diags_model(old_d).len() == old_d.len());
                    assert(diags_model(old_d) == old_names.map_values(
                        |n: Seq<char>| unused_report(file, src, ev, n),
                    ));
                    assert(old_names.len() == old_d.len());
                    names = names.insert(p as int, nm);
                    assert(names.len() == old_names.len() + 1);
                    assert(!old_names.contains(nm)) by {
                        if old_names.contains(nm) {
                            let a = choose|a: int| 0 <= a < i && #[trigger] assigned@[a].0@ == nm;
                            assert(a != i);
                        }
                    }
                    assert forall|x: int, y: int|
                        0 <= x < names.len() && 0 <= y < names.len() && x != y implies names[x]
                        != names[y] by {
                        let ox = if x < p {
                            x
                        } else {
                            x - 1
                        };
                        let oy = if y < p {
                            y
                        } else {
                            y - 1
                        };
                        if x != p && y != p {
                            assert(names[x] == old_names[ox]);
                            assert(names[y] == old_names[oy]);
                        } else if x == p {
                            assert(names[y] == old_names[oy]);
                            assert(old_names.contains(names[y]));
                        } else {
                            assert(names[x] == old_names[ox]);
                            assert(old_names.contains(names[x]));
                        }
                    }
                    assert forall|n: Seq<char>| #[trigger]
                        names.contains(n) <==> (is_reported(ev, n) && exists|a: int|
                            0 <= a < i + 1 && #[trigger] assigned@[a].0@ == n) by {
                        if names.contains(n) {
                            let x = choose|x: int| 0 <= x < names.len() && names[x] == n;
                            if x != p {
                                let ox = if x < p {
                                    x
                                } else {
                                    x - 1
                                };
                                assert(names[x] == old_names[ox]);
                                assert(old_names.contains(n));
                            } else {
                                assert(assigned@[i as int].0@ == n);
                            }
                        }
                        if is_reported(ev, n) && exists|a: int|
                            0 <= a < i + 1 && #[trigger] assigned@[a].0@ == n {
                            let a = choose|a: int| 0 <= a < i + 1 && #[trigger] assigned@[a].0@ == n;
                            if a == i {
                                assert(names[p as int] == n);
                            } else {
                                assert(old_names.contains(n));
                                let x = choose|x: int| 0 <= x < old_names.len() && old_names[x] == n;
                                if x < p {
                                    assert(names[x] == n);
                                } else {
                                    assert(names[x + 1] == n);
                                }
                            }
                        }
                    }
                    let old_m = diags_model(old_d);
                    assert(diagnostics@ == old_d.insert(p as int, d));
                    assert forall|x: int| 0 <= x < names.len() implies #[trigger] diagnostics@[x]@
                        == unused_report(file, src, ev, names[x]) by {
                        if x < p {
                            assert(diagnostics@[x] == old_d[x]);
                            assert(names[x] == old_names[x]);
                            assert(old_m[x] == unused_report(file, src, ev, old_names[x]));
                        } else if x > p {
                            assert(diagnostics@[x] == old_d[x - 1]);
                            assert(names[x] == old_names[x - 1]);
                            assert(old_m[x - 1] == unused_report(file, src, ev, old_names[x - 1]));
                        }
                    }
                    assert(diags_model(diagnostics@) =~= names.map_values(
                        |n: Seq<char>| unused_report(file, src, ev, n),
                    ));
                    let om = diags_model(old_d);
                    assert forall|x: int, y: int| 0 <= x < y < names.len() implies reported_before(
                        src,
                        ev,
                        #[trigger] names[x],
                        #[trigger] names[y],
                    ) by {
                        if x != p && y != p {
                            let ox = if x < p {
                                x
                            } else {
                                x - 1
                            };
                            let oy = if y < p {
                                y
                            } else {
                                y - 1
                            };
                            assert(names[x] == old_names[ox]);
                            assert(names[y] == old_names[oy]);
                        } else if x == p {
                            assert(names[y] == old_names[y - 1]);
                            assert(om[y - 1] == unused_report(file, src, ev, old_names[y - 1]));
                            assert(old_d[p as int].line > line);
                            assert(om[p as int].line <= om[y - 1].line);
                        } else {
                            assert(names[x] == old_names[x]);
                            assert(om[x] == unused_report(file, src, ev, old_names[x]));
                            assert(old_d[x].line <= line);
                            assert(old_names.contains(old_names[x]));
                            let a = choose|a: int|
                                0 <= a < i && #[trigger] assigned@[a].0@ == old_names[x];
                            assert(first_assign_pos(ev, assigned@[a].0@).unwrap() < first_assign_pos(
                                ev,
                                assigned@[i as int].0@,
                            ).unwrap());
                        }
                    }
                    let dm = diags_model(diagnostics@);
                    assert forall|a: int, b: int| 0 <= a < b < dm.len() implies #[trigger] dm[a].line
                        <= #[trigger] dm[b].line by {
                        let om = diags_model(old_d);
                        if b < p {
                            assert(dm[a] == om[a] && dm[b] == om[b]);
                        } else if a > p {
                            assert(dm[a] == om[a - 1] && dm[b] == om[b - 1]);
                        } else if a == p {
                            assert(dm[b] == om[b - 1]);
                            assert(om[b - 1].line == old_d[b - 1].line);
                            if p < old_d.len() {
                                assert(old_d[p as int].line > line);
                                assert(om[p as int].line <= om[b - 1].line);
                            }
                        } else if b == p {
                            assert(dm[a] == om[a]);
                            assert(old_d[a].line <= line);
                        } else {
                            assert(dm[a] == om[a] && dm[b] == om[b - 1]);
                        }
                    }
                }
            } else {
                proof {
                    assert(!is_reported(ev, nm));
                    assert forall|n: Seq<char>| #[trigger]
                        names.contains(n) <==> (is_reported(ev, n) && exists|a: int|
                            0 <= a < i + 1 && #[trigger] assigned@[a].0@ == n) by {
                        if is_reported(ev, n) && exists|a: int|
                            0 <= a < i + 1 && #[trigger] assigned@[a].0@ == n {
                            let a = choose|a: int| 0 <= a < i + 1 && #[trigger] assigned@[a].0@ == n;
                            assert(a != i);
                        }
                    }
                }
            }
            i = i + 1;
        }
        proof {
            assert forall|n: Seq<char>| #[trigger] names.contains(n) <==> is_reported(ev, n) by {
                if is_reported(ev, n) {
                    assert(first_assign(ev, n) is Some);
                    let a = choose|a: int| 0 <= a < assigned@.len() && #[trigger] assigned@[a].0@ == n;
                    assert(assigned@[a].0@ == n);
                }
            }
        }
        diagnostics
    }
}

// ── what the findings say ─────────────────────────────────────────────────────

proof fn lemma_first_assign_found(events: Seq<VarEvent>, name: Seq<char>)
    ensures
        (first_assign(events, name) is Some) == (exists|i: int|
            0 <= i < events.len() && (#[trigger] events[i] matches VarEvent::Assign { name: n, .. }
                && n@ == name)),
        first_assign(events, name) matches Some(o) ==> exists|i: int|
            0 <= i < events.len() && (#[trigger] events[i] matches VarEvent::Assign {
                name: n,
                offset,
            } && n@ == name && offset == o) && forall|j: int|
                0 <= j < i ==> !(#[trigger] events[j] matches VarEvent::Assign { name: n, .. }
                    && n@ == name),
    decreases events.len(),
{
    if events.len() > 0 {
        let pre = events.drop_last();
        lemma_first_assign_found(pre, name);
        let last = events.len() - 1;
        assert forall|i: int| 0 <= i < pre.len() implies #[trigger] pre[i] == events[i] by {}
        if first_assign(pre, name) is Some {
            let i = choose|i: int|
                0 <= i < pre.len() && (#[trigger] pre[i] matches VarEvent::Assign { name: n, .. }
                    && n@ == name);
            assert(events[i] == pre[i]);
        } else {
            if exists|i: int|
                0 <= i < events.len() && (#[trigger] events[i] matches VarEvent::Assign {
                    name: n,
                    ..
                } && n@ == name) {
                let i = choose|i: int|
                    0 <= i < events.len() && (#[trigger] events[i] matches VarEvent::Assign {
                        name: n,
                        ..
                    } && n@ == name);
                if i < last {
                    assert(pre[i] == events[i]);
                }
                assert(i == last);
            }
        }
        if first_assign(events, name) is Some {
            if first_assign(pre, name) is Some {
                let o = first_assign(pre, name).unwrap();
                let i = choose|i: int|
                    0 <= i < pre.len() && (#[trigger] pre[i] matches VarEvent::Assign {
                        name: n,
                        offset,
                    } && n@ == name && offset == o) && forall|j: int|
                        0 <= j < i ==> !(#[trigger] pre[j] matches VarEvent::Assign { name: n, .. }
                            && n@ == name);
                assert(events[i] == pre[i]);
                assert forall|j: int| 0 <= j < i implies !(#[trigger] events[j] matches VarEvent::Assign {
                    name: n,
                    ..
                } && n@ == name) by {
                    assert(events[j] == pre[j]);
                }
            } else {
                assert forall|j: int| 0 <= j < last implies !(#[trigger] events[j] matches VarEvent::Assign {
                    name: n,
                    ..
                } && n@ == name) by {
                    assert(events[j] == pre[j]);
                    if events[j] matches VarEvent::Assign { name: n, .. } && n@ == name {
                        assert(pre[j] matches VarEvent::Assign { name: n, .. } && n@ == name);
                    }
                }
            }
        }
    }
}

proof fn lemma_unused_message_injective(a: Seq<char>, b: Seq<char>)
    requires
        unused_message(a) == unused_message(b),
    ensures
        a == b,
{
    reveal_strlit("Variable `");
    reveal_strlit("` is assigned but never used");
    let p = "Variable `"@;
    let q = "` is assigned but never used"@;
    let ma = unused_message(a);
    let mb = unused_message(b);
    assert(ma.len() == p.len() + a.len() + q.len());
    assert(mb.len() == p.len() + b.len() + q.len());
    assert(a =~= ma.subrange(p.len() as int, (p.len() + a.len()) as int));
    assert(b =~= mb.subrange(p.len() as int, (p.len() + b.len()) as int));
}

/// What the findings of the rule are, for a source that parsed: there is a
/// finding with the message "Variable `n` is assigned but never used"
/// exactly when `n` is assigned somewhere, never read, and does not begin
/// with `_`, whatever its other characters are. Such a finding is a
/// warning of rule R060 on the checked file, at column 0 and without a fix,
/// and stands at the line of the first assignment to `n`. No variable gets
/// two findings, and every finding is of this form.
pub proof fn law_unused_variable_findings(ctx: LintContext, r: Seq<DiagnosticModel>, n: Seq<char>)
    requires
        ctx.variable_events is Some,
        reports_unused_variables(ctx, r),
    ensures
        ({
            let ev = ctx.variable_events.unwrap()@;
            (exists|k: int|
                0 <= k < r.len() && (#[trigger] r[k]).message == "Variable `"@ + n
                    + "` is assigned but never used"@) <==> {
                &&& exists|i: int|
                    0 <= i < ev.len() && (#[trigger] ev[i] matches VarEvent::Assign {
                        name,
                        ..
                    } && name@ == n)
                &&& forall|i: int|
                    0 <= i < ev.len() ==> !(#[trigger] ev[i] matches VarEvent::Use { name }
                        && name@ == n)
                &&& !(n.len() > 0 && n[0] == '_')
            }
        }),
        forall|k: int|
            0 <= k < r.len() && (#[trigger] r[k]).message == "Variable `"@ + n
                + "` is assigned but never used"@ ==> {
                let ev = ctx.variable_events.unwrap()@;
                &&& r[k].rule == "R060"@
                &&& r[k].severity == Severity::Warning
                &&& r[k].file == ctx.file@
                &&& r[k].col == 0
                &&& r[k].fix is None
                &&& exists|i: int|
                    0 <= i < ev.len() && (#[trigger] ev[i] matches VarEvent::Assign {
                        name,
                        offset,
                    } && name@ == n && r[k].line == line_of_offset(
                        vstd::utf8::encode_utf8(ctx.source@),
                        offset as int,
                    )) && forall|j: int|
                        0 <= j < i ==> !(#[trigger] ev[j] matches VarEvent::Assign { name, .. }
                            && name@ == n)
            },
        forall|k: int|
            0 <= k < r.len() ==> exists|m: Seq<char>|
                (#[trigger] r[k]).message == "Variable `"@ + m + "` is assigned but never used"@,
        forall|k1: int, k2: int|
            0 <= k1 < k2 < r.len() ==> (#[trigger] r[k1]).message != (#[trigger] r[k2]).message,
{
    let ev = ctx.variable_events.unwrap()@;
    let src = vstd::utf8::encode_utf8(ctx.source@);
    let file = ctx.file@;
    let names = choose|names: Seq<Seq<char>>|
        {
            &&& names.no_duplicates()
            &&& forall|m: Seq<char>| #[trigger] names.contains(m) <==> is_reported(ev, m)
            &&& r == names.map_values(|m: Seq<char>| unused_report(file, src, ev, m))
            &&& forall|x: int, y: int|
                0 <= x < y < names.len() ==> reported_before(
                    src,
                    ev,
                    #[trigger] names[x],
                    #[trigger] names[y],
                )
        };
    assert(r.len() == names.len());
    assert forall|k: int| 0 <= k < r.len() implies #[trigger] r[k] == unused_report(
        file,
        src,
        ev,
        names[k],
    ) by {}
    lemma_first_assign_found(ev, n);
    let msg = "Variable `"@ + n + "` is assigned but never used"@;
    assert(msg == unused_message(n));
    assert(is_used(ev, n) == exists|i: int|
        0 <= i < ev.len() && (#[trigger] ev[i] matches VarEvent::Use { name } && name@ == n)) by {
        if is_used(ev, n) {
            let i = choose|i: int| 0 <= i < ev.len() && event_uses(#[trigger] ev[i], n);
            assert(ev[i] matches VarEvent::Use { name } && name@ == n);
        }
    }
    if exists|k: int| 0 <= k < r.len() && (#[trigger] r[k]).message == msg {
        let k = choose|k: int| 0 <= k < r.len() && (#[trigger] r[k]).message == msg;
        lemma_unused_message_injective(names[k], n);
        assert(names.contains(n));
    }
    if is_reported(ev, n) {
        assert(names.contains(n));
        let k = choose|k: int| 0 <= k < names.len() && names[k] == n;
        assert(r[k].message == msg);
    }
    assert forall|k: int| 0 <= k < r.len() && (#[trigger] r[k]).message == msg implies {
        &&& r[k].rule == "R060"@
        &&& r[k].severity == Severity::Warning
        &&& r[k].file == ctx.file@
        &&& r[k].col == 0
        &&& r[k].fix is None
        &&& exists|i: int|
            0 <= i < ev.len() && (#[trigger] ev[i] matches VarEvent::Assign { name, offset }
                && name@ == n && r[k].line == line_of_offset(src, offset as int)) && forall|j: int|
                0 <= j < i ==> !(#[trigger] ev[j] matches VarEvent::Assign { name, .. } && name@
                    == n)
    } by {
        lemma_unused_message_injective(names[k], n);
        assert(names.contains(n));
        assert(is_reported(ev, n));
    }
    assert forall|k: int| 0 <= k < r.len() implies exists|m: Seq<char>|
        (#[trigger] r[k]).message == "Variable `"@ + m + "` is assigned but never used"@ by {
        assert(r[k].message == unused_message(names[k]));
    }
    assert forall|k1: int, k2: int| 0 <= k1 < k2 < r.len() implies (#[trigger] r[k1]).message
        != (#[trigger] r[k2]).message by {
        if r[k1].message == r[k2].message {
            lemma_unused_message_injective(names[k1], names[k2]);
        }
    }
}

} // verus!
