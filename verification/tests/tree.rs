use rblint::token::{Token, TokenKind};
use rblint::tree::{Node, NodeKind, TreeBuilder};

/// Splits Ruby source into the tokens the tree builder reads.
fn tokenize(src: &str) -> Vec<Token> {
    let chars: Vec<char> = src.chars().collect();
    let mut tokens = Vec::new();
    let mut line = 1usize;
    let mut i = 0usize;
    while i < chars.len() {
        let c = chars[i];
        let start = i;
        let kind;
        if c == '\n' {
            i += 1;
            kind = TokenKind::Newline;
        } else if c == ' ' || c == '\t' || c == '\r' {
            while i < chars.len() && (chars[i] == ' ' || chars[i] == '\t' || chars[i] == '\r') {
                i += 1;
            }
            kind = TokenKind::Whitespace;
        } else if c == '#' {
            while i < chars.len() && chars[i] != '\n' {
                i += 1;
            }
            kind = TokenKind::Comment;
        } else if c.is_alphabetic() || c == '_' {
            while i < chars.len() && (chars[i].is_alphanumeric() || chars[i] == '_') {
                i += 1;
            }
            if i < chars.len() && (chars[i] == '?' || chars[i] == '!') {
                i += 1;
            }
            let word: String = chars[start..i].iter().collect();
            kind = match word.as_str() {
                "def" => TokenKind::Def,
                "class" => TokenKind::Class,
                "module" => TokenKind::Module,
                "begin" => TokenKind::Begin,
                "case" => TokenKind::Case,
                "do" => TokenKind::Do,
                "if" => TokenKind::If,
                "unless" => TokenKind::Unless,
                "while" => TokenKind::While,
                "until" => TokenKind::Until,
                "for" => TokenKind::For,
                "end" => TokenKind::End,
                "when" | "else" | "elsif" | "then" | "return" | "in" | "rescue" | "ensure" => {
                    TokenKind::Keyword
                }
                _ if c.is_uppercase() => TokenKind::Constant,
                _ => TokenKind::Identifier,
            };
        } else if c.is_ascii_digit() {
            while i < chars.len() && chars[i].is_ascii_digit() {
                i += 1;
            }
            kind = TokenKind::Number;
        } else if "()[]{},;.".contains(c) {
            i += 1;
            kind = TokenKind::Punctuation;
        } else {
            while i < chars.len() && "+-*/=<>!&|%^~".contains(chars[i]) {
                i += 1;
            }
            if i == start {
                i += 1;
            }
            kind = TokenKind::Operator;
        }
        let text: String = chars[start..i].iter().collect();
        tokens.push(Token { kind, text, line });
        if kind == TokenKind::Newline {
            line += 1;
        }
    }
    tokens.push(Token { kind: TokenKind::Eof, text: String::new(), line });
    tokens
}

fn build(src: &str) -> Vec<Node> {
    let tokens = tokenize(src);
    TreeBuilder::build(&tokens)
}

// ---- basic def ----

#[test]
fn simple_method() {
    let nodes = build("def foo\n  x = 1\nend\n");
    assert_eq!(nodes.len(), 1);
    assert_eq!(nodes[0].kind, NodeKind::Method);
    assert_eq!(nodes[0].name.as_deref(), Some("foo"));
    assert_eq!(nodes[0].start_line, 1);
    assert_eq!(nodes[0].end_line, 3);
}

#[test]
fn one_liner_method() {
    let nodes = build("def foo; bar; end\n");
    assert_eq!(nodes.len(), 1);
    assert_eq!(nodes[0].kind, NodeKind::Method);
    assert_eq!(nodes[0].start_line, 1);
    assert_eq!(nodes[0].end_line, 1);
}

// ---- class / module ----

#[test]
fn simple_class() {
    let nodes = build("class Foo\n  def bar\n  end\nend\n");
    assert_eq!(nodes.len(), 1);
    assert_eq!(nodes[0].kind, NodeKind::Class);
    assert_eq!(nodes[0].name.as_deref(), Some("Foo"));
    assert_eq!(nodes[0].start_line, 1);
    assert_eq!(nodes[0].end_line, 4);
    assert_eq!(nodes[0].children.len(), 1);
    assert_eq!(nodes[0].children[0].kind, NodeKind::Method);
}

#[test]
fn simple_module() {
    let nodes = build("module M\nend\n");
    assert_eq!(nodes.len(), 1);
    assert_eq!(nodes[0].kind, NodeKind::Module);
    assert_eq!(nodes[0].name.as_deref(), Some("M"));
}

// ---- if / unless ----

#[test]
fn block_if() {
    let src = "if cond\n  x\nend\n";
    let nodes = build(src);
    assert_eq!(nodes.len(), 1);
    assert_eq!(nodes[0].kind, NodeKind::If);
    assert_eq!(nodes[0].start_line, 1);
    assert_eq!(nodes[0].end_line, 3);
}

#[test]
fn postfix_if_not_a_node() {
    let src = "x = 1 if cond\n";
    let nodes = build(src);
    assert!(
        nodes.iter().all(|n| n.kind != NodeKind::If),
        "postfix if should not produce a node"
    );
}

#[test]
fn postfix_unless_not_a_node() {
    let src = "x = 1 unless cond\n";
    let nodes = build(src);
    assert!(nodes.iter().all(|n| n.kind != NodeKind::Unless));
}

#[test]
fn postfix_while_not_a_node() {
    let src = "x += 1 while x < 10\n";
    let nodes = build(src);
    assert!(nodes.iter().all(|n| n.kind != NodeKind::While));
}

// ---- nesting ----

#[test]
fn nested_if_inside_method() {
    let src = "def foo\n  if x\n    y\n  end\nend\n";
    let nodes = build(src);
    assert_eq!(nodes.len(), 1);
    assert_eq!(nodes[0].kind, NodeKind::Method);
    assert_eq!(nodes[0].children.len(), 1);
    assert_eq!(nodes[0].children[0].kind, NodeKind::If);
}

#[test]
fn multiple_top_level_methods() {
    let src = "def foo\nend\ndef bar\nend\n";
    let nodes = build(src);
    assert_eq!(nodes.len(), 2);
    assert_eq!(nodes[0].name.as_deref(), Some("foo"));
    assert_eq!(nodes[1].name.as_deref(), Some("bar"));
}

// ---- begin / case / do ----

#[test]
fn begin_block() {
    let src = "begin\n  x\nend\n";
    let nodes = build(src);
    assert_eq!(nodes.len(), 1);
    assert_eq!(nodes[0].kind, NodeKind::Begin);
}

#[test]
fn case_block() {
    let src = "case x\nwhen 1\n  y\nend\n";
    let nodes = build(src);
    assert_eq!(nodes.len(), 1);
    assert_eq!(nodes[0].kind, NodeKind::Case);
}

// ---- further cases ----

#[test]
fn postfix_modifiers_inside_method_make_no_nodes() {
    let nodes = build("def foo\n  x = 1 if a\n  y = 2 until b\nend\n");
    assert_eq!(nodes.len(), 1);
    assert_eq!(nodes[0].children.len(), 0);
}

#[test]
fn if_after_comment_only_line_is_a_block() {
    let nodes = build("# note\n  if a # why\n  b\nend\n");
    assert_eq!(nodes.len(), 1);
    assert_eq!(nodes[0].kind, NodeKind::If);
    assert_eq!(nodes[0].start_line, 2);
    assert_eq!(nodes[0].end_line, 4);
}

#[test]
fn missing_end_takes_line_of_last_token() {
    let tokens = vec![
        Token { kind: TokenKind::Def, text: "def".to_string(), line: 1 },
        Token { kind: TokenKind::Whitespace, text: " ".to_string(), line: 1 },
        Token { kind: TokenKind::Identifier, text: "foo".to_string(), line: 1 },
        Token { kind: TokenKind::Newline, text: "\n".to_string(), line: 1 },
        Token { kind: TokenKind::Identifier, text: "bar".to_string(), line: 2 },
    ];
    let nodes = TreeBuilder::build(&tokens);
    assert_eq!(nodes.len(), 1);
    assert_eq!(nodes[0].end_line, 2);
}

#[test]
fn def_without_name_is_unknown() {
    let tokens = vec![Token { kind: TokenKind::Def, text: "def".to_string(), line: 1 }];
    let nodes = TreeBuilder::build(&tokens);
    assert_eq!(nodes.len(), 1);
    assert_eq!(nodes[0].name.as_deref(), Some("<unknown>"));
    assert_eq!(nodes[0].end_line, 1);
}

#[test]
fn stray_end_stops_the_top_level() {
    let nodes = build("end\ndef foo\nend\n");
    assert_eq!(nodes.len(), 0);
}

#[test]
fn do_block_and_for_loop() {
    let nodes = build("items.each do |i|\n  for j in k\n    p j\n  end\nend\n");
    assert_eq!(nodes.len(), 1);
    assert_eq!(nodes[0].kind, NodeKind::Do);
    assert_eq!(nodes[0].children.len(), 1);
    assert_eq!(nodes[0].children[0].kind, NodeKind::For);
    assert_eq!(nodes[0].end_line, 5);
}

#[test]
fn lines_nest_and_siblings_follow() {
    let nodes = build("class A\n  def a\n    if x\n      y\n    end\n  end\n  def b; end\nend\nmodule M\nend\n");
    fn check(n: &Node) {
        assert!(n.start_line <= n.end_line);
        for c in &n.children {
            assert!(n.start_line <= c.start_line && c.end_line <= n.end_line);
            check(c);
        }
        for w in n.children.windows(2) {
            assert!(w[0].end_line <= w[1].start_line);
        }
    }
    assert_eq!(nodes.len(), 2);
    assert!(nodes[0].end_line <= nodes[1].start_line);
    for n in &nodes {
        check(n);
    }
    assert_eq!(nodes[0].children.len(), 2);
    assert_eq!((nodes[0].children[1].start_line, nodes[0].children[1].end_line), (7, 7));
}

#[test]
fn cloned_tree_is_equal() {
    let nodes = build("class Foo\n  def bar\n  end\nend\n");
    let copy = nodes[0].clone();
    assert_eq!(copy.kind, NodeKind::Class);
    assert_eq!(copy.name.as_deref(), Some("Foo"));
    assert_eq!(copy.children.len(), 1);
    assert_eq!(copy.children[0].name.as_deref(), Some("bar"));
    assert_eq!((copy.start_line, copy.end_line), (1, 4));
}
