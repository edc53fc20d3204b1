use minic::lexing::lex;
use minic::lexing::token::TokenKind;
use minic::parsing::error::StructuralDefect;
use minic::parsing::node::{AstNode, AstNodeKind, Node};
use minic::parsing::parse;

fn branch(kind: AstNode, children: Vec<Node>) -> Node {
    Node { kind, children }
}

fn single(kind: AstNode) -> Node {
    branch(kind, vec![])
}

fn operator(kind: TokenKind) -> Node {
    branch(AstNode::UnOp, vec![single(AstNode::Operator(kind))])
}

fn compile(source: &str) -> String {
    let mut tokens = lex(source);
    parse(&mut tokens).unwrap().generate_assembly().unwrap()
}

#[test]
fn compiles_the_smallest_program() {
    assert_eq!(compile("int main(){return 0;}"), ".globl main\nmain:\nmovl  $0,%eax\nret\n");
}

#[test]
fn compiles_in_the_order_label_load_return() {
    let text = compile("int main(){return 0;}");
    let label = text.find(".globl main\nmain:\n").unwrap();
    let load = text.find("movl  $0,%eax\n").unwrap();
    let ret = text.find("ret\n").unwrap();
    assert!(label < load && load < ret);
}

#[test]
fn a_chain_of_unary_operators_applies_from_the_innermost_outwards() {
    assert_eq!(
        compile("int main(){return !-~5;}"),
        ".globl main\nmain:\nmovl  $5,%eax\nnot  %eax\nneg  %eax\ncmpl   $0, %eax\nmovl   $0, %eax\nsete   %al\nret\n"
    );
}

#[test]
fn each_unary_operator_has_its_instructions() {
    assert_eq!(
        compile("int f(){return -1;}"),
        ".globl f\nf:\nmovl  $1,%eax\nneg  %eax\nret\n"
    );
    assert_eq!(
        compile("int f(){return ~1;}"),
        ".globl f\nf:\nmovl  $1,%eax\nnot  %eax\nret\n"
    );
    assert_eq!(
        compile("int f(){return !1;}"),
        ".globl f\nf:\nmovl  $1,%eax\ncmpl   $0, %eax\nmovl   $0, %eax\nsete   %al\nret\n"
    );
}

#[test]
fn the_same_operator_twice_is_written_twice() {
    assert_eq!(
        compile("int f(){return --~~7;}"),
        ".globl f\nf:\nmovl  $7,%eax\nnot  %eax\nnot  %eax\nneg  %eax\nneg  %eax\nret\n"
    );
}

#[test]
fn white_space_does_not_change_the_assembly() {
    assert_eq!(
        compile("int   main ( )\n{\r\n  return  ! - ~ 5 ;\n}\n"),
        compile("int main(){return !-~5;}")
    );
}

#[test]
fn constants_are_written_in_decimal() {
    assert_eq!(
        compile("int main(){return 0012345;}"),
        ".globl main\nmain:\nmovl  $12345,%eax\nret\n"
    );
    let big = format!("int main(){{return {};}}", usize::MAX);
    assert_eq!(
        compile(big.as_str()),
        format!(".globl main\nmain:\nmovl  ${},%eax\nret\n", usize::MAX)
    );
}

#[test]
fn a_program_is_its_functions_one_after_the_other() {
    let function = |name: &str, value: usize| {
        branch(
            AstNode::Function,
            vec![
                single(AstNode::String(name.to_string())),
                branch(
                    AstNode::Statement,
                    vec![branch(AstNode::Exp, vec![single(AstNode::Int(value))])],
                ),
            ],
        )
    };
    let program = branch(AstNode::Program, vec![function("a", 1), function("b", 2)]);
    assert_eq!(
        program.generate_assembly(),
        Ok(".globl a\na:\nmovl  $1,%eax\nret\n.globl b\nb:\nmovl  $2,%eax\nret\n".to_string())
    );
    assert_eq!(single(AstNode::Program).generate_assembly(), Ok(String::new()));
}

#[test]
fn a_leaf_by_itself_is_no_text() {
    assert_eq!(single(AstNode::Int(3)).generate_assembly(), Ok(String::new()));
    assert_eq!(single(AstNode::String("x".to_string())).generate_assembly(), Ok(String::new()));
    assert_eq!(single(AstNode::Operator(TokenKind::Negation)).generate_assembly(), Ok(String::new()));
}

#[test]
fn an_expression_that_begins_with_an_integer_is_that_integer() {
    let tree = branch(
        AstNode::Exp,
        vec![single(AstNode::Int(5)), branch(AstNode::Exp, vec![single(AstNode::Int(3))])],
    );
    assert_eq!(tree.generate_assembly(), Ok("movl  $5,%eax\n".to_string()));
}

#[test]
fn an_expression_evaluates_its_last_child_first() {
    let tree = branch(
        AstNode::Exp,
        vec![
            operator(TokenKind::Negation),
            operator(TokenKind::BitwiseComplement),
            branch(AstNode::Exp, vec![single(AstNode::Int(3))]),
        ],
    );
    assert_eq!(
        tree.generate_assembly(),
        Ok("movl  $3,%eax\nneg  %eax\nnot  %eax\n".to_string())
    );
}

#[test]
fn an_operator_that_is_no_unary_operator_is_a_defect() {
    assert_eq!(
        operator(TokenKind::Plus).generate_assembly(),
        Err(StructuralDefect::UnknownOperator(TokenKind::Plus))
    );
    let tree = branch(
        AstNode::Exp,
        vec![operator(TokenKind::Semicolon), branch(AstNode::Exp, vec![single(AstNode::Int(3))])],
    );
    assert_eq!(
        tree.generate_assembly(),
        Err(StructuralDefect::UnknownOperator(TokenKind::Semicolon))
    );
}

#[test]
fn a_node_without_the_children_that_are_read_is_a_defect() {
    for (kind, tag) in [
        (AstNode::Function, AstNodeKind::Function),
        (AstNode::Statement, AstNodeKind::Statement),
        (AstNode::Exp, AstNodeKind::Exp),
        (AstNode::UnOp, AstNodeKind::UnOp),
    ] {
        assert_eq!(single(kind).generate_assembly(), Err(StructuralDefect::MalformedNode(tag)));
    }
    let one_child = branch(AstNode::Function, vec![single(AstNode::String("f".to_string()))]);
    assert_eq!(
        one_child.generate_assembly(),
        Err(StructuralDefect::MalformedNode(AstNodeKind::Function))
    );
}

#[test]
fn a_node_with_a_child_of_the_wrong_kind_is_a_defect() {
    let nameless = branch(
        AstNode::Function,
        vec![single(AstNode::Int(1)), branch(AstNode::Statement, vec![single(AstNode::Int(1))])],
    );
    assert_eq!(
        nameless.generate_assembly(),
        Err(StructuralDefect::MalformedNode(AstNodeKind::Function))
    );
    let no_operator = branch(AstNode::UnOp, vec![single(AstNode::Int(1))]);
    assert_eq!(
        no_operator.generate_assembly(),
        Err(StructuralDefect::MalformedNode(AstNodeKind::UnOp))
    );
}

#[test]
fn the_first_defect_in_the_order_of_writing_is_the_one_reported() {
    let tree = branch(
        AstNode::Exp,
        vec![operator(TokenKind::Plus), operator(TokenKind::Assign), single(AstNode::Exp)],
    );
    assert_eq!(
        tree.generate_assembly(),
        Err(StructuralDefect::MalformedNode(AstNodeKind::Exp))
    );
    let tree = branch(
        AstNode::Program,
        vec![operator(TokenKind::Plus), operator(TokenKind::Assign)],
    );
    assert_eq!(
        tree.generate_assembly(),
        Err(StructuralDefect::UnknownOperator(TokenKind::Plus))
    );
}

#[test]
fn a_defect_leaves_no_text() {
    let tree = branch(
        AstNode::Program,
        vec![
            branch(
                AstNode::Function,
                vec![
                    single(AstNode::String("ok".to_string())),
                    branch(
                        AstNode::Statement,
                        vec![branch(AstNode::Exp, vec![single(AstNode::Int(1))])],
                    ),
                ],
            ),
            single(AstNode::Statement),
        ],
    );
    assert_eq!(
        tree.generate_assembly(),
        Err(StructuralDefect::MalformedNode(AstNodeKind::Statement))
    );
}

#[test]
fn defects_say_what_is_wrong() {
    assert_eq!(
        StructuralDefect::UnknownOperator(TokenKind::Plus).message(),
        "Incorrect token in Operator field: Plus"
    );
    assert_eq!(
        StructuralDefect::MalformedNode(AstNodeKind::Exp).message(),
        "Incorrect children in node Exp"
    );
}

#[test]
fn a_failed_parse_gives_no_tree_to_compile() {
    let mut tokens = lex("int main(){return;}");
    assert!(parse(&mut tokens).is_err());
}
