use vhdl_parser::ast::AstNode;
use vhdl_parser::builder::{build_ast, classify_bound, BuildError};
use vhdl_parser::decode::decode_json;
use vhdl_parser::json::{encode_ast, Json};
use vhdl_parser::number::parse_u32;
use vhdl_parser::tree::{ParseNode, Rule};
use vhdl_parser::{parse, vhdl_to_json, GenParser, ParseError};

const COUNTER: &str = "entity Counter is generic (WIDTH : integer := 8); \
port (CLK : in std_logic; Q : out std_logic_vector(WIDTH-1 downto 0)); end Counter;";

fn s(x: &str) -> String {
    x.to_string()
}

fn str_node(x: &str) -> Box<AstNode> {
    Box::new(AstNode::Str(s(x)))
}

fn scalar(name: &str) -> Box<AstNode> {
    Box::new(AstNode::Type { name: s(name), vector: None })
}

#[test]
fn it_works() {
    assert_eq!(2 + 2, 4);
}

#[test]
fn counter_entity_builds() {
    let ast = parse(COUNTER).unwrap();
    let expected = AstNode::Entity {
        ident: s("Counter"),
        generics: Some(vec![AstNode::DefineGeneric {
            ident: s("WIDTH"),
            def_type: scalar("integer"),
            value: Some(s("8")),
        }]),
        ports: vec![
            AstNode::DefinePort { ident: s("CLK"), direction: s("in"), def_type: scalar("std_logic") },
            AstNode::DefinePort {
                ident: s("Q"),
                direction: s("out"),
                def_type: Box::new(AstNode::Type {
                    name: s("std_logic_vector"),
                    vector: Some(Box::new(AstNode::Vector {
                        start: Box::new(AstNode::Operation {
                            left: str_node("WIDTH"),
                            operator: s("-"),
                            right: Box::new(AstNode::Int(1)),
                        }),
                        end: Box::new(AstNode::Int(0)),
                    })),
                }),
            },
        ],
        signals: vec![],
    };
    assert_eq!(ast, expected);
}

#[test]
fn entity_without_generics_has_none() {
    let ast = parse("entity E is port (A : in bit); end E;").unwrap();
    match ast {
        AstNode::Entity { generics, ports, .. } => {
            assert!(generics.is_none());
            assert_eq!(ports.len(), 1);
        }
        other => panic!("not an entity: {:?}", other),
    }
}

#[test]
fn generic_default_keeps_raw_text() {
    let ast = parse("entity E is generic (N : natural := 2 * 4 + 1); end E;").unwrap();
    match ast {
        AstNode::Entity { generics: Some(g), .. } => match &g[0] {
            AstNode::DefineGeneric { value, .. } => assert_eq!(value.as_deref(), Some("2 * 4 + 1")),
            other => panic!("not a generic: {:?}", other),
        },
        other => panic!("no generics: {:?}", other),
    }
}

#[test]
fn signals_are_collected_in_order() {
    let ast = parse("entity E is signal a : bit; signal b : bit; end E;").unwrap();
    match ast {
        AstNode::Entity { signals, .. } => {
            assert_eq!(signals.len(), 2);
            assert_eq!(
                signals[1],
                AstNode::DefineSignal { ident: s("b"), def_type: scalar("bit") }
            );
        }
        other => panic!("not an entity: {:?}", other),
    }
}

#[test]
fn vector_bounds_are_classified_lexically() {
    assert_eq!(classify_bound(&s("7")), AstNode::Int(7));
    assert_eq!(classify_bound(&s("N")), AstNode::Str(s("N")));
    assert_eq!(classify_bound(&s("4294967296")), AstNode::Str(s("4294967296")));
}

#[test]
fn symbolic_vector_bound() {
    let ast = parse("entity E is port (D : in bits(N to 7)); end E;").unwrap();
    match ast {
        AstNode::Entity { ports, .. } => {
            let expected = AstNode::DefinePort {
                ident: s("D"),
                direction: s("in"),
                def_type: Box::new(AstNode::Type {
                    name: s("bits"),
                    vector: Some(Box::new(AstNode::Vector {
                        start: str_node("N"),
                        end: Box::new(AstNode::Int(7)),
                    })),
                }),
            };
            assert_eq!(ports[0], expected);
        }
        other => panic!("not an entity: {:?}", other),
    }
}

#[test]
fn chained_expression_nests_to_the_left() {
    let ast = parse("entity E is port (D : in bits(A - B - 1 downto 0)); end E;").unwrap();
    let expected = AstNode::Operation {
        left: Box::new(AstNode::Operation {
            left: str_node("A"),
            operator: s("-"),
            right: str_node("B"),
        }),
        operator: s("-"),
        right: Box::new(AstNode::Int(1)),
    };
    let AstNode::Entity { ports, .. } = ast else { panic!("not an entity") };
    let AstNode::DefinePort { def_type, .. } = &ports[0] else { panic!("not a port") };
    let AstNode::Type { vector: Some(v), .. } = &**def_type else { panic!("no vector") };
    let AstNode::Vector { start, .. } = &**v else { panic!("not a vector") };
    assert_eq!(**start, expected);
}

const MACHINE: &str = "entity M is port (clk : in bit); end M; \
architecture rtl of M is begin \
fsm : process (clk) is begin \
state IDLE is => S1; end state; \
state S1 is when x = '1' => S2; when others => IDLE; end state; \
end process; end rtl;";

fn machine_states() -> Vec<AstNode> {
    match parse(MACHINE).unwrap() {
        AstNode::Gen { architecture, .. } => match *architecture {
            AstNode::Architecture { machines, .. } => {
                assert_eq!(machines.len(), 1);
                match machines.into_iter().next().unwrap() {
                    AstNode::StateMachine { ident, sensibility, states } => {
                        assert_eq!(ident, "fsm");
                        assert_eq!(sensibility, "clk");
                        states
                    }
                    other => panic!("not a state machine: {:?}", other),
                }
            }
            other => panic!("not an architecture: {:?}", other),
        },
        other => panic!("not a design: {:?}", other),
    }
}

#[test]
fn unconditional_transition() {
    let states = machine_states();
    assert_eq!(
        states[0],
        AstNode::State {
            ident: s("IDLE"),
            transitions: vec![AstNode::TransitionSimple { to: s("S1") }],
        }
    );
}

#[test]
fn guarded_and_fallback_transitions() {
    let states = machine_states();
    let expected = AstNode::State {
        ident: s("S1"),
        transitions: vec![
            AstNode::TransitionActived {
                activator: Box::new(AstNode::Operation {
                    left: str_node("x"),
                    operator: s("="),
                    right: str_node("'1'"),
                }),
                to: s("S2"),
            },
            AstNode::TransitionLast { fallback: s("IDLE") },
        ],
    };
    assert_eq!(states[1], expected);
}

#[test]
fn composite_transition() {
    let src = "entity M is end M; architecture a of M is begin \
f : process (c) is begin state S is ( => A; when y => B; ) end state; end process; end a;";
    match parse(src).unwrap() {
        AstNode::Gen { architecture, .. } => {
            let text = format!("{:?}", architecture);
            assert!(text.contains("TransitionComposed"));
            assert!(text.contains("TransitionSimple"));
            assert!(text.contains("TransitionActived"));
        }
        other => panic!("not a design: {:?}", other),
    }
}

#[test]
fn fallback_before_the_end_is_rejected() {
    let src = "entity M is end M; architecture a of M is begin \
f : process (c) is begin state S is when others => A; => B; end state; end process; end a;";
    match parse(src) {
        Err(ParseError::Build(BuildError::MisplacedFallback { state })) => assert_eq!(state, "S"),
        other => panic!("unexpected: {:?}", other),
    }
}

#[test]
fn unknown_direction_is_rejected() {
    match parse("entity E is port (A : sideways bit); end E;") {
        Err(ParseError::Build(BuildError::UnknownDirection { text })) => assert_eq!(text, "sideways"),
        other => panic!("unexpected: {:?}", other),
    }
}

#[test]
fn oversized_integer_is_rejected() {
    match parse("entity E is port (A : in bits(N + 99999999999 downto 0)); end E;") {
        Err(ParseError::Build(BuildError::MalformedNumber { text, position })) => {
            assert_eq!(text, "99999999999");
            assert_eq!(position, 34)
        }
        other => panic!("unexpected: {:?}", other),
    }
}

#[test]
fn syntax_error_reports_position() {
    match parse("entity E port") {
        Err(ParseError::Syntax(e)) => {
            assert_eq!(e.position, 9);
            assert_eq!(e.expected, "is");
        }
        other => panic!("unexpected: {:?}", other),
    }
    assert!(GenParser::parse_tree("entity E is end E; junk").is_err());
}

#[test]
fn missing_child_is_reported() {
    let node = ParseNode::new(Rule::Entity, s("entity"), 0, vec![]);
    match build_ast(&node) {
        Err(BuildError::MissingChild { rule, expected }) => {
            assert_eq!(rule, Rule::Entity);
            assert_eq!(expected, Rule::Identifier);
        }
        other => panic!("unexpected: {:?}", other),
    }
}

#[test]
fn unmodeled_rule_builds_null() {
    let node = ParseNode::new(Rule::Operator, s("+"), 0, vec![]);
    assert_eq!(build_ast(&node).unwrap(), AstNode::Null);
}

#[test]
fn parse_u32_limits() {
    assert_eq!(parse_u32("0"), Some(0));
    assert_eq!(parse_u32("4294967295"), Some(4294967295));
    assert_eq!(parse_u32("4294967296"), None);
    assert_eq!(parse_u32(""), None);
    assert_eq!(parse_u32("12a"), None);
    assert_eq!(parse_u32("+7"), None);
}

#[test]
fn encoding_shapes() {
    let v = AstNode::Vector { start: Box::new(AstNode::Int(7)), end: str_node("N") };
    match encode_ast(&v) {
        Json::Object(fs) => {
            assert_eq!(fs.len(), 2);
            assert_eq!(fs[0].0, "start");
            assert!(matches!(fs[0].1, Json::Number(7)));
            assert_eq!(fs[1].0, "end");
            assert!(matches!(&fs[1].1, Json::Text(t) if t == "N"));
        }
        other => panic!("not an object: {:?}", other),
    }
    assert!(matches!(encode_ast(&AstNode::Null), Json::Null));
    let t = AstNode::TransitionLast { fallback: s("A") };
    match encode_ast(&t) {
        Json::Object(fs) => assert_eq!(fs[0].0, "fallback"),
        other => panic!("not an object: {:?}", other),
    }
}

#[test]
fn source_to_json() {
    match vhdl_to_json(COUNTER).unwrap() {
        Json::Object(fs) => {
            let keys: Vec<&str> = fs.iter().map(|f| f.0.as_str()).collect();
            assert_eq!(keys, vec!["ident", "generics", "ports", "signals"]);
        }
        other => panic!("not an object: {:?}", other),
    }
}

#[test]
fn round_trip_of_parsed_designs() {
    let a = parse(COUNTER).unwrap();
    assert_eq!(decode_json(&encode_ast(&a)), Some(a));
    let m = parse(MACHINE).unwrap();
    assert_eq!(decode_json(&encode_ast(&m)), Some(m));
}

#[test]
fn round_trip_of_every_kind() {
    let nodes = vec![
        AstNode::Null,
        AstNode::Int(42),
        AstNode::Str(s("x")),
        AstNode::TransitionSimple { to: s("A") },
        AstNode::TransitionLast { fallback: s("B") },
        AstNode::TransitionActived { activator: str_node("go"), to: s("C") },
        AstNode::TransitionComposed {
            terms: vec![
                AstNode::TransitionSimple { to: s("A") },
                AstNode::TransitionLast { fallback: s("B") },
            ],
        },
        AstNode::DefineSignal { ident: s("s"), def_type: scalar("bit") },
        AstNode::DefineGeneric { ident: s("G"), def_type: scalar("integer"), value: None },
        AstNode::Entity { ident: s("E"), generics: Some(vec![]), ports: vec![], signals: vec![] },
        AstNode::Architecture { ident: s("a"), entity_name: s("E"), machines: vec![] },
    ];
    for n in nodes {
        let back = decode_json(&encode_ast(&n));
        assert_eq!(back, Some(n));
    }
}

#[test]
fn decoding_rejects_foreign_shapes() {
    assert_eq!(decode_json(&Json::Array(vec![])), None);
    let only_start = Json::Object(vec![(s("start"), Json::Number(1))]);
    assert_eq!(decode_json(&only_start), None);
    let wrong_type = Json::Object(vec![(s("to"), Json::Number(1))]);
    assert_eq!(decode_json(&wrong_type), None);
    let reordered = Json::Object(vec![
        (s("end"), Json::Text(s("N"))),
        (s("start"), Json::Number(7)),
    ]);
    assert_eq!(
        decode_json(&reordered),
        Some(AstNode::Vector { start: Box::new(AstNode::Int(7)), end: str_node("N") })
    );
}

#[test]
fn lexer_rejects_stray_characters() {
    match parse("entity E is end E; @") {
        Err(ParseError::Syntax(e)) => assert_eq!(e.position, 19),
        other => panic!("unexpected: {:?}", other),
    }
    match parse("entity E is port (A : in bit); -- trailing comment @\nend E;") {
        Ok(AstNode::Entity { ident, .. }) => assert_eq!(ident, "E"),
        other => panic!("unexpected: {:?}", other),
    }
}

#[test]
fn fallback_inside_a_group_is_rejected() {
    let src = "entity M is end M; architecture a of M is begin \
f : process (c) is begin state S is ( when others => A; when others => B; ) end state; \
end process; end a;";
    assert!(matches!(parse(src), Err(ParseError::Syntax(_))));
}

#[test]
fn builder_rejects_nested_fallback() {
    let to = |x: &str| ParseNode::new(Rule::Identifier, s(x), 0, vec![]);
    let fallback = ParseNode::new(Rule::Fallback, s("when others => A;"), 3, vec![to("A")]);
    let simple = ParseNode::new(Rule::Transition, s("=> B;"), 20, vec![to("B")]);
    let group = ParseNode::new(Rule::Transition, s("(...)"), 2, vec![fallback, simple]);
    match build_ast(&group) {
        Err(BuildError::NestedFallback { position }) => assert_eq!(position, 2),
        other => panic!("unexpected: {:?}", other),
    }
}

#[test]
fn type_bound_must_be_a_vector() {
    let name = ParseNode::new(Rule::Identifier, s("bits"), 0, vec![]);
    let op = ParseNode::new(Rule::Operator, s("+"), 5, vec![]);
    let ty = ParseNode::new(Rule::TypeDef, s("bits +"), 0, vec![name, op]);
    match build_ast(&ty) {
        Err(BuildError::MissingChild { rule, expected }) => {
            assert_eq!(rule, Rule::TypeDef);
            assert_eq!(expected, Rule::Vector);
        }
        other => panic!("unexpected: {:?}", other),
    }
}

#[test]
fn vhdl_to_json_carries_parse_errors() {
    assert!(matches!(vhdl_to_json("entity"), Err(ParseError::Syntax(_))));
    assert!(matches!(
        vhdl_to_json("entity E is port (A : sideways bit); end E;"),
        Err(ParseError::Build(BuildError::UnknownDirection { .. }))
    ));
    let j = vhdl_to_json(COUNTER).unwrap();
    assert_eq!(decode_json(&j), Some(parse(COUNTER).unwrap()));
}
