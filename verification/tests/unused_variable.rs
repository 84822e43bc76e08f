use lib_ruby_parser::nodes::{Arg, Blockarg, Kwarg, Kwoptarg, Lvar, Lvasgn, Optarg, Restarg};
use lib_ruby_parser::traverse::visitor::{
    visit_arg, visit_blockarg, visit_kwarg, visit_kwoptarg, visit_lvar, visit_lvasgn, visit_optarg,
    visit_restarg, Visitor,
};
use lib_ruby_parser::{Parser, ParserOptions};

use rblint::diagnostic::{Diagnostic, Severity};
use rblint::rules::ast_rules::r060_unused_variable::{byte_offset_to_line, UnusedVariableRule};
use rblint::rules::ast_rules::r061_nil_comparison::NilComparisonRule;
use rblint::rules::ast_rules::r062_deep_nesting::DeepNestingRule;
use rblint::rules::{LintContext, Rule, VarEvent};

/// Records the local-variable events of a parsed file in traversal order.
struct Events(Vec<VarEvent>);

impl Events {
    fn assign(&mut self, name: &str, offset: usize) {
        self.0.push(VarEvent::Assign { name: name.to_string(), offset });
    }
}

impl Visitor for Events {
    fn on_lvasgn(&mut self, node: &Lvasgn) {
        self.assign(&node.name, node.expression_l.begin);
        visit_lvasgn(self, node);
    }
    fn on_lvar(&mut self, node: &Lvar) {
        self.0.push(VarEvent::Use { name: node.name.clone() });
        visit_lvar(self, node);
    }
    fn on_arg(&mut self, node: &Arg) {
        self.assign(&node.name, node.expression_l.begin);
        visit_arg(self, node);
    }
    fn on_optarg(&mut self, node: &Optarg) {
        self.assign(&node.name, node.expression_l.begin);
        visit_optarg(self, node);
    }
    fn on_blockarg(&mut self, node: &Blockarg) {
        if let Some(name) = &node.name {
            self.assign(name, node.expression_l.begin);
        }
        visit_blockarg(self, node);
    }
    fn on_restarg(&mut self, node: &Restarg) {
        if let Some(name) = &node.name {
            self.assign(name, node.expression_l.begin);
        }
        visit_restarg(self, node);
    }
    fn on_kwarg(&mut self, node: &Kwarg) {
        self.assign(&node.name, node.expression_l.begin);
        visit_kwarg(self, node);
    }
    fn on_kwoptarg(&mut self, node: &Kwoptarg) {
        self.assign(&node.name, node.expression_l.begin);
        visit_kwoptarg(self, node);
    }
}

fn run_rule(source: &str) -> Vec<Diagnostic> {
    let result = Parser::new(source.as_bytes().to_vec(), ParserOptions::default()).do_parse();
    let events = result.ast.map(|ast| {
        let mut collector = Events(Vec::new());
        collector.visit(&ast);
        collector.0
    });
    let ctx = LintContext::new("test.rb", source, events);
    UnusedVariableRule.check(&ctx)
}

#[test]
fn detects_unused_variable() {
    let diags = run_rule("def foo\n  unused = 1\nend\n");
    assert_eq!(diags.len(), 1);
    assert!(diags[0].message.contains("unused"));
}

#[test]
fn no_warning_for_used_variable() {
    let diags = run_rule("def foo\n  x = 1\n  puts x\nend\n");
    assert_eq!(diags.len(), 0);
}

#[test]
fn ignores_underscore_prefixed() {
    let diags = run_rule("def foo\n  _unused = 1\nend\n");
    assert_eq!(diags.len(), 0);
}

#[test]
fn detects_unused_method_param() {
    let diags = run_rule("def foo(a, b)\n  puts a\nend\n");
    assert_eq!(diags.len(), 1);
    assert!(diags[0].message.contains("b"));
}

// ---- further cases ----

#[test]
fn report_fields_and_order_by_line() {
    let diags = run_rule("def foo\n  b = 1\n  a = 2\n  a = 3\nend\n");
    assert_eq!(diags.len(), 2);
    assert_eq!(diags[0].message, "Variable `b` is assigned but never used");
    assert_eq!(diags[0].line, 2);
    assert_eq!(diags[1].message, "Variable `a` is assigned but never used");
    assert_eq!(diags[1].line, 3);
    assert_eq!(diags[0].rule, "R060");
    assert_eq!(diags[0].col, 0);
    assert_eq!(diags[0].file, "test.rb");
    assert_eq!(diags[0].severity, Severity::Warning);
    assert!(diags[0].fix.is_none());
}

#[test]
fn events_in_any_order_are_sorted_by_line() {
    let source = "a\nb\nc\n";
    let events = vec![
        VarEvent::Assign { name: "late".to_string(), offset: 4 },
        VarEvent::Assign { name: "early".to_string(), offset: 0 },
        VarEvent::Assign { name: "middle".to_string(), offset: 2 },
        VarEvent::Use { name: "middle".to_string() },
    ];
    let ctx = LintContext::new("f.rb", source, Some(events));
    let diags = UnusedVariableRule.check(&ctx);
    assert_eq!(diags.len(), 2);
    assert_eq!(diags[0].line, 1);
    assert_eq!(diags[1].line, 3);
}

#[test]
fn unparsed_source_reports_nothing() {
    let ctx = LintContext::new("f.rb", "def (", None);
    assert_eq!(UnusedVariableRule.check(&ctx).len(), 0);
}

#[test]
fn offsets_map_to_lines() {
    let src = b"ab\ncd\n\nef";
    assert_eq!(byte_offset_to_line(src, 0), 1);
    assert_eq!(byte_offset_to_line(src, 2), 1);
    assert_eq!(byte_offset_to_line(src, 3), 2);
    assert_eq!(byte_offset_to_line(src, 7), 4);
    assert_eq!(byte_offset_to_line(src, 100), 4);
}

#[test]
fn rule_codes() {
    assert_eq!(UnusedVariableRule.name(), "R060");
    assert_eq!(NilComparisonRule.name(), "R061");
    assert_eq!(DeepNestingRule { max_nesting: 4 }.name(), "R062");
    let ctx = LintContext::new("f.rb", "x = 1\n", Some(vec![]));
    assert!(NilComparisonRule.check(&ctx).is_empty());
    assert!(DeepNestingRule { max_nesting: 4 }.check(&ctx).is_empty());
}

#[test]
fn same_line_findings_follow_first_assignment() {
    let diags = run_rule("def foo(b, a)\nend\n");
    assert_eq!(diags.len(), 2);
    assert_eq!(diags[0].message, "Variable `b` is assigned but never used");
    assert_eq!(diags[1].message, "Variable `a` is assigned but never used");
    let again = run_rule("def foo(b, a)\nend\n");
    assert_eq!(again[0].message, diags[0].message);
    assert_eq!(again[1].message, diags[1].message);
}
