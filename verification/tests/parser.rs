use cretonne_reader::{
    isa_commands, parse_functions, parse_test, AnyEntity, ArgumentExtension, ArgumentType, Comment,
    Details, Ebb, EntityRef, Error, FloatText, InstructionFormat, InstructionSet, IntegerText,
    IsaCommand, IsaReply, IsaSpec, LaneType, LexError, LexItem, LocatedError, Location, OpcodeInfo,
    Operands, Parser, StackSlot, Token, Type, Typing, Value,
};
use cretonne_reader::token::same_token;

// The numbers in a word like "ss12", after its prefix.
fn number(word: &str, prefix: &str) -> Option<u32> {
    if word.starts_with(prefix) {
        word[prefix.len()..].parse().ok()
    } else {
        None
    }
}

fn lane(word: &str) -> Option<LaneType> {
    match word {
        "b1" => Some(LaneType::B1),
        "i8" => Some(LaneType::I8),
        "i16" => Some(LaneType::I16),
        "i32" => Some(LaneType::I32),
        "i64" => Some(LaneType::I64),
        "f32" => Some(LaneType::F32),
        "f64" => Some(LaneType::F64),
        _ => None,
    }
}

fn type_named(word: &str) -> Option<Type> {
    match word.find('x') {
        Some(x) => match (lane(&word[..x]), word[x + 1..].parse()) {
            (Some(lane), Ok(lanes)) => Some(Type { lane, lanes }),
            _ => None,
        },
        None => lane(word).map(Type::scalar),
    }
}

fn word_token(word: &str) -> Token<'_> {
    if let Some(t) = type_named(word) {
        Token::Type(t)
    } else if let Some(v) = number(word, "vx").and_then(Value::table_with_number) {
        Token::Value(v)
    } else if let Some(v) = number(word, "v").and_then(Value::direct_with_number) {
        Token::Value(v)
    } else if let Some(ebb) = number(word, "ebb").and_then(Ebb::with_number) {
        Token::Ebb(ebb)
    } else if let Some(n) = number(word, "ss") {
        Token::StackSlot(n)
    } else if let Some(n) = number(word, "jt") {
        Token::JumpTable(n)
    } else if let Some(n) = number(word, "fn") {
        Token::FuncRef(n)
    } else if let Some(n) = number(word, "sig") {
        Token::SigRef(n)
    } else {
        Token::Identifier(word)
    }
}

fn number_token(text: &str) -> Token<'_> {
    if text.contains('.') {
        Token::Float(FloatText {
            text,
            ieee32: text.parse::<f32>().map(|x| x.to_bits()).map_err(|_| "bad f32"),
            ieee64: text.parse::<f64>().map(|x| x.to_bits()).map_err(|_| "bad f64"),
        })
    } else {
        Token::Integer(IntegerText {
            text,
            imm64: text.parse::<i64>().map_err(|_| "Integer out of range"),
        })
    }
}

// The tokens of a source text.
fn lex(text: &str) -> Vec<LexItem<'_>> {
    let mut items = Vec::new();
    for (n, line) in text.lines().enumerate() {
        let mut rest = line.trim_start();
        while !rest.is_empty() {
            let first = rest.chars().next().unwrap();
            let is_word = |c: char| c.is_alphanumeric() || c == '_';
            let is_number = |c: char| c.is_alphanumeric() || c == '.' || c == '-';
            let (content, len) = if first == ';' {
                (Ok(Token::Comment(rest)), rest.len())
            } else if rest.starts_with("->") {
                (Ok(Token::Arrow), 2)
            } else if first.is_ascii_digit() || first == '-' {
                let len = rest.find(|c| !is_number(c)).unwrap_or(rest.len());
                (Ok(number_token(&rest[..len])), len)
            } else if is_word(first) {
                let len = rest.find(|c| !is_word(c)).unwrap_or(rest.len());
                (Ok(word_token(&rest[..len])), len)
            } else {
                let mark = match first {
                    '(' => Ok(Token::LPar),
                    ')' => Ok(Token::RPar),
                    '{' => Ok(Token::LBrace),
                    '}' => Ok(Token::RBrace),
                    ',' => Ok(Token::Comma),
                    '.' => Ok(Token::Dot),
                    ':' => Ok(Token::Colon),
                    '=' => Ok(Token::Equal),
                    _ => Err(LexError { message: "invalid character" }),
                };
                (mark, first.len_utf8())
            };
            let location = Location { line_number: n + 1 };
            items.push(LexItem { content, location, tail: &rest[len..] });
            rest = rest[len..].trim_start();
        }
    }
    items
}

fn scalar(lane: LaneType) -> Type {
    Type::scalar(lane)
}

fn opcode(
    name: &'static str,
    format: InstructionFormat,
    typevar_operand: Option<usize>,
    typings: Vec<(Type, Vec<Type>)>,
) -> OpcodeInfo<'static> {
    let polymorphic = typings[0].0 != Type::void();
    OpcodeInfo {
        name,
        format,
        use_typevar_operand: typevar_operand.is_some(),
        typevar_operand: typevar_operand.unwrap_or(0),
        polymorphic,
        example: typings[0].0,
        typings: typings.into_iter().map(|(ctrl, results)| Typing { ctrl, results }).collect(),
    }
}

// A small instruction set with at least one opcode of each format.
fn instructions() -> InstructionSet<'static> {
    let i32s = || vec![(scalar(LaneType::I32), vec![scalar(LaneType::I32)])];
    let ints = || {
        vec![
            (scalar(LaneType::I32), vec![scalar(LaneType::I32)]),
            (scalar(LaneType::I64), vec![scalar(LaneType::I64)]),
        ]
    };
    let carry = || {
        vec![(
            scalar(LaneType::I32),
            vec![scalar(LaneType::I32), scalar(LaneType::B1)],
        )]
    };
    let nothing = || vec![(Type::void(), vec![])];
    let any = || {
        vec![(scalar(LaneType::I32), vec![]), (scalar(LaneType::I64), vec![])]
    };
    InstructionSet {
        opcodes: vec![
            opcode("trap", InstructionFormat::Nullary, None, nothing()),
            opcode("ineg", InstructionFormat::Unary, Some(0), ints()),
            opcode("iconst", InstructionFormat::UnaryImm, None, ints()),
            opcode(
                "f32const",
                InstructionFormat::UnaryIeee32,
                None,
                vec![(Type::void(), vec![scalar(LaneType::F32)])],
            ),
            opcode(
                "f64const",
                InstructionFormat::UnaryIeee64,
                None,
                vec![(Type::void(), vec![scalar(LaneType::F64)])],
            ),
            opcode(
                "isplit",
                InstructionFormat::UnarySplit,
                Some(0),
                vec![(
                    scalar(LaneType::I64),
                    vec![scalar(LaneType::I32), scalar(LaneType::I16)],
                )],
            ),
            opcode("iadd", InstructionFormat::Binary, Some(0), ints()),
            opcode("iadd_imm", InstructionFormat::BinaryImm, Some(0), ints()),
            opcode("isub_imm", InstructionFormat::BinaryImmRev, Some(0), ints()),
            opcode("iadd_cout", InstructionFormat::BinaryOverflow, Some(0), carry()),
            opcode("select", InstructionFormat::Ternary, Some(1), i32s()),
            opcode("iadd_carry", InstructionFormat::TernaryOverflow, Some(0), carry()),
            opcode("jump", InstructionFormat::Jump, None, nothing()),
            opcode("brz", InstructionFormat::Branch, Some(0), any()),
            opcode("insertlane", InstructionFormat::InsertLane, Some(0), i32s()),
            opcode("extractlane", InstructionFormat::ExtractLane, Some(0), i32s()),
            opcode(
                "icmp",
                InstructionFormat::IntCompare,
                Some(0),
                vec![(scalar(LaneType::I32), vec![scalar(LaneType::B1)])],
            ),
            opcode(
                "fcmp",
                InstructionFormat::FloatCompare,
                Some(0),
                vec![(scalar(LaneType::F32), vec![scalar(LaneType::B1)])],
            ),
            opcode("call", InstructionFormat::Call, None, nothing()),
            opcode("call_indirect", InstructionFormat::IndirectCall, Some(0), any()),
            opcode("return", InstructionFormat::Return, None, nothing()),
            opcode("br_table", InstructionFormat::BranchTable, Some(0), any()),
        ],
        unknown_opcode: "Unknown opcode",
        int_conditions: vec!["eq", "ne", "slt"],
        float_conditions: vec!["ord", "uno", "lt"],
    }
}

// The error of reading a function.
fn function_error(text: &str) -> String {
    let isa = instructions();
    let items = lex(text);
    match Parser::new(&items, &isa).parse_function() {
        Ok(_) => panic!("expected an error"),
        Err(e) => e.to_string(),
    }
}

// The error of reading a function with a preamble.
fn preamble_error(text: &str) -> String {
    function_error(&format!("function f() {{\n{}\n}}", text))
}

// The error of reading a function with a block, in which v1 and vx2 are defined.
fn inst_error(text: &str) -> String {
    let head = "function f() {
        sig1 = signature (i32) -> i32
        fn1 = sig1 callee
        jt1 = jump_table ebb1
        ebb1(vx2: i32, vx3: i64, vx4: f32):
        v1 = iconst.i32 5";
    function_error(&format!("{}\n{}\n}}", head, text))
}

// The operands of an instruction in such a function, after references were resolved.
fn operands(text: &str) -> String {
    let head = "function f() {
        sig1 = signature (i32) -> i32
        fn1 = sig1 callee
        jt1 = jump_table ebb1
        ebb1(vx2: i32, vx3: i64, vx4: f32):
        v1 = iconst.i32 5";
    let isa = instructions();
    let source = format!("{}\n{}\n}}", head, text);
    let items = lex(&source);
    let (func, _) = Parser::new(&items, &isa).parse_function().unwrap();
    assert_eq!(func.insts.len(), 2);
    format!("{:?}", func.insts[1].data.operands)
}

#[test]
fn instruction_set_is_complete() {
    assert!(instructions().complete());
}

#[test]
fn argument_type() {
    let isa = instructions();
    let items = lex("i32 sext");
    let mut p = Parser::new(&items, &isa);
    let arg = p.parse_argument_type().unwrap();
    assert_eq!(
        arg,
        ArgumentType {
            value_type: scalar(LaneType::I32),
            extension: ArgumentExtension::Sext,
            inreg: false,
        }
    );
    let Error { location, message } = p.parse_argument_type().unwrap_err();
    assert_eq!(location.line_number, 1);
    assert_eq!(message, "expected argument type");
}

#[test]
fn signature() {
    let isa = instructions();
    let items = lex("()");
    let sig = Parser::new(&items, &isa).parse_signature().unwrap();
    assert_eq!(sig.argument_types.len(), 0);
    assert_eq!(sig.return_types.len(), 0);

    let items = lex("(i8 inreg uext, f32, f64) -> i32 sext, f64");
    let sig2 = Parser::new(&items, &isa).parse_signature().unwrap();
    assert_eq!(sig2.to_string(), "(i8 uext inreg, f32, f64) -> i32 sext, f64");

    // `void` is not recognized as a type by the lexer. It should not appear in files.
    let items = lex("() -> void");
    assert_eq!(
        Parser::new(&items, &isa).parse_signature().unwrap_err().to_string(),
        "1: expected argument type"
    );
    let items = lex("i8 -> i8");
    assert_eq!(
        Parser::new(&items, &isa).parse_signature().unwrap_err().to_string(),
        "1: expected function signature: ( args... )"
    );
    let items = lex("(i8 -> i8");
    assert_eq!(
        Parser::new(&items, &isa).parse_signature().unwrap_err().to_string(),
        "1: expected ')' after function arguments"
    );
}

#[test]
fn stack_slot_decl() {
    let isa = instructions();
    let items = lex("function foo() {
                                       ss3 = stack_slot 13
                                       ss1 = stack_slot 1
                                     }");
    let (func, _) = Parser::new(&items, &isa).parse_function().unwrap();
    assert_eq!(func.name.to_string(), "foo");
    let mut iter = (0..func.stack_slots.len()).map(StackSlot::new);
    let ss0 = iter.next().unwrap();
    assert_eq!(ss0.to_string(), "ss0");
    assert_eq!(func.stack_slots[ss0.index()].size, 13);
    let ss1 = iter.next().unwrap();
    assert_eq!(ss1.to_string(), "ss1");
    assert_eq!(func.stack_slots[ss1.index()].size, 1);
    assert_eq!(iter.next(), None);

    // Catch duplicate definitions.
    let items = lex("function bar() {
                                    ss1  = stack_slot 13
                                    ss1  = stack_slot 1
                                }");
    assert_eq!(
        Parser::new(&items, &isa).parse_function().unwrap_err().to_string(),
        "3: duplicate stack slot: ss1"
    );
}

#[test]
fn ebb_header() {
    let isa = instructions();
    let items = lex("function ebbs() {
                                     ebb0:
                                     ebb4(vx3: i32):
                                     }");
    let (func, _) = Parser::new(&items, &isa).parse_function().unwrap();
    assert_eq!(func.name.to_string(), "ebbs");

    let mut ebbs = func.ebbs.iter();

    let ebb0 = ebbs.next().unwrap();
    assert_eq!(ebb0.args.iter().next(), None);

    let ebb4 = ebbs.next().unwrap();
    let mut ebb4_args = ebb4.args.iter();
    let arg0 = ebb4_args.next().unwrap();
    assert_eq!(func.value_type(*arg0), scalar(LaneType::I32));
    assert_eq!(ebb4_args.next(), None);
}

#[test]
fn comments() {
    let isa = instructions();
    let items = lex("; before
                         function comment() { ; decl
                            ss10  = stack_slot 13 ; stackslot.
                            ; Still stackslot.
                            jt10 = jump_table ebb0
                            ; Jumptable
                         ebb0: ; Basic block
                         trap ; Instruction
                         } ; Trailing.
                         ; More trailing.");
    let (func, Details { comments, .. }) = Parser::new(&items, &isa).parse_function().unwrap();
    assert_eq!(func.name.to_string(), "comment");
    assert_eq!(comments.len(), 8); // no 'before' comment.
    assert_eq!(comments[0], Comment { entity: AnyEntity::Function, text: "; decl" });
    assert_eq!(comments[1].entity.to_string(), "ss0");
    assert_eq!(comments[2].entity.to_string(), "ss0");
    assert_eq!(comments[2].text, "; Still stackslot.");
    assert_eq!(comments[3].entity.to_string(), "jt0");
    assert_eq!(comments[3].text, "; Jumptable");
    assert_eq!(comments[4].entity.to_string(), "ebb0");
    assert_eq!(comments[4].text, "; Basic block");

    assert_eq!(comments[5].entity.to_string(), "inst0");
    assert_eq!(comments[5].text, "; Instruction");

    assert_eq!(comments[6].entity, AnyEntity::Function);
    assert_eq!(comments[7].entity, AnyEntity::Function);
}

#[test]
fn test_file() {
    let isa = instructions();
    let items = lex("; before
                             test cfg option=5
                             test verify
                             set enable_float=false
                             ; still preamble
                             function comment() {}");
    let tf = parse_test(&items, &isa, &vec![]).unwrap();
    assert_eq!(tf.commands.len(), 2);
    assert_eq!(tf.commands[0].words()[0], "cfg");
    assert_eq!(tf.commands[1].words()[0], "verify");
    match tf.isa_spec {
        IsaSpec::NoIsa(flags) => assert_eq!(flags, vec!["enable_float=false"]),
        _ => panic!("unexpected ISAs"),
    }
    assert_eq!(tf.preamble_comments.len(), 2);
    assert_eq!(tf.preamble_comments[0].text, "; before");
    assert_eq!(tf.preamble_comments[1].text, "; still preamble");
    assert_eq!(tf.functions.len(), 1);
    assert_eq!(tf.functions[0].0.name.to_string(), "comment");
}

#[test]
fn isa_spec() {
    let isa = instructions();
    let items = lex("isa
                            function foo() {}");
    assert!(parse_test(&items, &isa, &vec![]).is_err());

    let items = lex("isa riscv
                            set enable_float=false
                            function foo() {}");
    assert!(parse_test(&items, &isa, &vec![]).is_err());

    let items = lex("set enable_float=false
                          isa riscv
                          function foo() {}");
    match parse_test(&items, &isa, &vec![]).unwrap().isa_spec {
        IsaSpec::NoIsa(_) => panic!("Expected some ISA"),
        IsaSpec::Isas(v) => {
            assert_eq!(v.len(), 1);
            assert_eq!(v[0].name, "riscv");
        }
    }
}

#[test]
fn function_errors() {
    assert_eq!(function_error("foo"), "1: expected 'function'");
    assert_eq!(function_error("function ("), "1: expected function name");
    assert_eq!(
        function_error("function foo {}"),
        "1: expected function signature: ( args... )"
    );
    assert_eq!(function_error("function foo()\n;"), "2: expected '{' before function body");
    assert_eq!(function_error("function foo() {\n\nss"), "3: expected EBB header");
    assert_eq!(function_error("function foo() {\n"), "1: expected EBB header");
}

#[test]
fn stack_slot_errors() {
    assert_eq!(preamble_error("ss1 stack_slot 4"), "2: expected '=' in stack_slot decl");
    assert_eq!(preamble_error("ss1 = slot 4"), "2: expected 'stack_slot'");
    assert_eq!(
        preamble_error("ss1 = stack_slot big"),
        "2: expected byte-size in stack_slot decl"
    );
    assert_eq!(preamble_error("ss1 = stack_slot -1"), "2: negative stack slot size");
    assert_eq!(preamble_error("ss1 = stack_slot 4294967296"), "2: stack slot too large");
    assert_eq!(
        preamble_error("ss1 = stack_slot 99999999999999999999"),
        "2: Integer out of range"
    );
}

#[test]
fn largest_stack_slot() {
    let isa = instructions();
    let items = lex("function f() { ss1 = stack_slot 4294967295 }");
    let (func, _) = Parser::new(&items, &isa).parse_function().unwrap();
    assert_eq!(func.stack_slots[0].size, 4294967295);
}

#[test]
fn signature_decl_errors() {
    assert_eq!(preamble_error("sig1 signature ()"), "2: expected '=' in signature decl");
    assert_eq!(preamble_error("sig1 = foo ()"), "2: expected 'signature'");
    assert_eq!(
        preamble_error("sig1 = signature ()\nsig1 = signature (i8)\nebb0:"),
        "4: duplicate signature: sig1"
    );
}

#[test]
fn function_decls() {
    let isa = instructions();
    let items = lex("function f() {
        sig7 = signature (i32)
        fn3 = function one() -> i8
        fn2 = sig7 two
        }");
    let (func, details) = Parser::new(&items, &isa).parse_function().unwrap();
    assert_eq!(func.signatures.len(), 2);
    assert_eq!(func.signatures[0].to_string(), "(i32)");
    assert_eq!(func.signatures[1].to_string(), "() -> i8");
    assert_eq!(func.ext_funcs[0].name, "one");
    assert_eq!(func.ext_funcs[0].signature.to_string(), "sig1");
    assert_eq!(func.ext_funcs[1].name, "two");
    assert_eq!(func.ext_funcs[1].signature.to_string(), "sig0");
    assert_eq!(details.map.get_fn(2).unwrap().to_string(), "fn1");
    assert_eq!(details.map.get_fn(0), None);
    assert_eq!(details.map.get_sig(7).unwrap().to_string(), "sig0");
    assert_eq!(details.location.line_number, 1);

    assert_eq!(preamble_error("fn1 foo"), "2: expected '=' in function decl");
    assert_eq!(
        preamble_error("fn1 = foo"),
        "2: expected 'function' or sig«n» in function decl"
    );
    assert_eq!(preamble_error("fn1 = sig3 foo"), "2: undefined signature sig3");
    assert_eq!(
        preamble_error("fn1 = function a()\nfn1 = function b()\nebb0:"),
        "4: duplicate function: fn1"
    );
}

#[test]
fn jump_tables() {
    let isa = instructions();
    let items = lex("function f() {
        jt4 = jump_table ebb1, 0, ebb2, 0
        jt2 = jump_table 0
        ebb2:
        ebb1:
        }");
    let (func, details) = Parser::new(&items, &isa).parse_function().unwrap();
    // An entry "0" at the end leaves no trace.
    let first: Vec<String> = func.jump_tables[0].table.iter().map(|e| e.to_string()).collect();
    assert_eq!(first, vec!["ebb1", "ebb4294967295", "ebb0"]);
    assert_eq!(func.jump_tables[1].table.len(), 0);
    assert_eq!(details.map.get_jt(4).unwrap().to_string(), "jt0");

    assert_eq!(preamble_error("jt1 jump_table 0"), "2: expected '=' in jump_table decl");
    assert_eq!(preamble_error("jt1 = table 0"), "2: expected 'jump_table'");
    assert_eq!(preamble_error("jt1 = jump_table 5"), "2: invalid jump_table entry '5'");
    assert_eq!(preamble_error("jt1 = jump_table ebb0,"), "3: expected jump_table entry");
    assert_eq!(
        preamble_error("jt1 = jump_table 0\njt1 = jump_table 0"),
        "4: duplicate jump table: jt1"
    );
    assert_eq!(preamble_error("jt1 = jump_table ebb5"), "3: undefined reference: ebb5");
}

#[test]
fn ebb_errors() {
    assert_eq!(preamble_error("ebb1"), "3: expected '(' before EBB arguments");
    assert_eq!(preamble_error("ebb1(5)"), "2: EBB argument must be a value");
    assert_eq!(preamble_error("ebb1(vx1 i32)"), "2: expected ':' after EBB argument");
    assert_eq!(preamble_error("ebb1(vx1: 5)"), "2: expected EBB argument type");
    assert_eq!(preamble_error("ebb1(vx1: i32"), "3: expected ')' after EBB arguments");
    assert_eq!(preamble_error("ebb1(vx1: i32)"), "3: expected ':' after EBB arguments");
    assert_eq!(preamble_error("ebb1:\nebb1:"), "3: duplicate EBB: ebb1");
    assert_eq!(preamble_error("ebb1(vx1: i32, vx1: i32):"), "2: duplicate value: vx1");
}

#[test]
fn instruction_errors() {
    assert_eq!(inst_error("v2, 5 = trap"), "7: expected result value");
    assert_eq!(inst_error("v2 trap"), "7: expected '=' before opcode");
    assert_eq!(inst_error("v2 = 5"), "7: expected instruction opcode");
    assert_eq!(inst_error("frob"), "7: Unknown opcode: 'frob'");
    assert_eq!(inst_error("v2 = iconst.5 6"), "7: expected type after 'opcode.'");
    assert_eq!(inst_error("v1 = iconst.i32 6"), "7: duplicate value: v1");
    assert_eq!(
        inst_error("v2 = trap"),
        "8: instruction produces 0 result values, 1 given"
    );
    assert_eq!(
        inst_error("iconst.i32 6"),
        "7: instruction produces 1 result values, 0 given"
    );
    assert_eq!(
        inst_error("v2 = iadd_cout v1, v1"),
        "7: instruction produces 2 result values, 1 given"
    );
    assert_eq!(
        inst_error("call fn1(v1)"),
        "7: instruction produces 1 result values, 0 given"
    );
}

#[test]
fn type_inference_errors() {
    assert_eq!(inst_error("v2 = ineg v9"), "7: cannot determine type of operand v9");
    assert_eq!(
        inst_error("v2 = iconst 9"),
        "7: type variable required for polymorphic opcode, e.g. 'iconst.i32'"
    );
    assert_eq!(inst_error("v2 = ineg vx4"), "7: f32 is not a valid typevar for ineg");
    assert_eq!(
        inst_error("v2 = iconst.i32x4 9"),
        "7: i32x4 is not a valid typevar for iconst"
    );
    assert_eq!(inst_error("trap.i32"), "7: trap does not take a typevar");
}

#[test]
fn inferred_types() {
    let isa = instructions();
    let items = lex("function f() {
        ebb0(vx0: i64):
        v1 = ineg vx0
        v2, vx1 = isplit v1
        v3 = ineg.i32 v4
        v4 = iconst.i32 1
        }");
    let (func, details) = Parser::new(&items, &isa).parse_function().unwrap();
    let value = |v: Value| details.map.get_value(v).unwrap();
    let direct = |n| value(Value::direct_with_number(n).unwrap());
    let table = |n| value(Value::table_with_number(n).unwrap());
    assert_eq!(func.value_type(table(0)), scalar(LaneType::I64));
    assert_eq!(func.value_type(direct(1)), scalar(LaneType::I64));
    assert_eq!(func.value_type(direct(2)), scalar(LaneType::I32));
    assert_eq!(func.value_type(table(1)), scalar(LaneType::I16));
    assert_eq!(func.value_type(direct(3)), scalar(LaneType::I32));
    // The source numbers are replaced by the numbers of the instructions.
    assert_eq!(direct(1).to_string(), "v0");
    assert_eq!(table(1).to_string(), "vx1");
    // A reference may stand before the definition.
    match func.insts[2].data.operands {
        Operands::Unary { arg } => assert_eq!(arg.to_string(), "v3"),
        _ => panic!("unexpected operands"),
    }
    assert_eq!(func.ebbs[0].insts.len(), 4);
    assert_eq!(func.insts[1].results.len(), 2);
}

#[test]
fn operand_formats() {
    assert_eq!(operands("trap"), "Nullary");
    assert_eq!(operands("v2 = ineg v1"), "Unary { arg: Value(0) }");
    assert_eq!(operands("v2 = iconst.i32 -7"), "UnaryImm { imm: -7 }");
    assert_eq!(operands("v2 = f32const 1.0"), "UnaryIeee32 { imm: 1065353216 }");
    assert_eq!(
        operands("v2 = f64const 1.0"),
        "UnaryIeee64 { imm: 4607182418800017408 }"
    );
    assert_eq!(operands("v2, vx9 = isplit vx3"), "UnarySplit { arg: Value(3) }");
    assert_eq!(operands("v2 = iadd v1, vx2"), "Binary { args: [Value(0), Value(1)] }");
    assert_eq!(operands("v2 = iadd_imm v1, 4"), "BinaryImm { arg: Value(0), imm: 4 }");
    assert_eq!(operands("v2 = isub_imm 4, v1"), "BinaryImmRev { imm: 4, arg: Value(0) }");
    assert_eq!(
        operands("v2, vx9 = iadd_cout vx2, v1"),
        "BinaryOverflow { args: [Value(1), Value(0)] }"
    );
    assert_eq!(
        operands("v2 = select vx3, v1, vx2"),
        "Ternary { args: [Value(3), Value(0), Value(1)] }"
    );
    assert_eq!(
        operands("v2, vx9 = iadd_carry v1, vx2, vx3"),
        "TernaryOverflow { args: [Value(0), Value(1), Value(3)] }"
    );
    assert_eq!(operands("jump ebb1"), "Jump { destination: Ebb(0), varargs: [] }");
    assert_eq!(
        operands("jump ebb1(v1, vx2)"),
        "Jump { destination: Ebb(0), varargs: [Value(0), Value(1)] }"
    );
    assert_eq!(
        operands("brz v1, ebb1(v1)"),
        "Branch { arg: Value(0), destination: Ebb(0), varargs: [Value(0)] }"
    );
    assert_eq!(
        operands("v2 = insertlane v1, 3, vx2"),
        "InsertLane { lane: 3, args: [Value(0), Value(1)] }"
    );
    assert_eq!(operands("v2 = extractlane v1, 255"), "ExtractLane { lane: 255, arg: Value(0) }");
    assert_eq!(
        operands("v2 = icmp ne, v1, vx2"),
        "IntCompare { cond: 1, args: [Value(0), Value(1)] }"
    );
    assert_eq!(
        operands("v2 = fcmp.f32 lt, vx4, vx4"),
        "FloatCompare { cond: 2, args: [Value(5), Value(5)] }"
    );
    assert_eq!(
        operands("v2 = call fn1(v1)"),
        "Call { func_ref: FuncRef(0), varargs: [Value(0)] }"
    );
    assert_eq!(
        operands("v2 = call_indirect sig1, vx3()"),
        "IndirectCall { sig_ref: SigRef(0), arg: Value(3), varargs: [] }"
    );
    assert_eq!(operands("return v1, v1"), "Return { varargs: [Value(0), Value(0)] }");
    assert_eq!(
        operands("br_table v1, jt1"),
        "BranchTable { arg: Value(0), table: JumpTable(0) }"
    );
}

#[test]
fn operand_errors() {
    assert_eq!(inst_error("v2 = ineg 5"), "7: expected SSA value operand");
    assert_eq!(inst_error("v2 = iconst v1"), "7: expected immediate integer operand");
    assert_eq!(inst_error("v2 = f32const 1"), "7: expected immediate 32-bit float operand");
    assert_eq!(inst_error("v2 = f64const 1"), "7: expected immediate 64-bit float operand");
    assert_eq!(inst_error("v2 = f32const 1.x"), "7: bad f32");
    assert_eq!(inst_error("v2 = iadd 5"), "7: expected SSA value first operand");
    assert_eq!(inst_error("v2 = iadd v1 v1"), "7: expected ',' between operands");
    assert_eq!(inst_error("v2 = iadd v1, 5"), "7: expected SSA value second operand");
    assert_eq!(
        inst_error("v2 = iadd_imm v1, v1"),
        "7: expected immediate integer second operand"
    );
    assert_eq!(
        inst_error("v2 = isub_imm v1, v1"),
        "7: expected immediate integer first operand"
    );
    assert_eq!(inst_error("v2 = select 5"), "7: expected SSA value control operand");
    assert_eq!(inst_error("v2 = select v1, 5"), "7: expected SSA value true operand");
    assert_eq!(inst_error("v2 = select v1, v1, 5"), "7: expected SSA value false operand");
    assert_eq!(
        inst_error("v2, vx9 = iadd_carry v1, v1, 5"),
        "7: expected SSA value third operand"
    );
    assert_eq!(inst_error("jump v1"), "7: expected jump destination EBB");
    assert_eq!(inst_error("jump ebb1(v1, 5)"), "7: expected value in argument list");
    assert_eq!(inst_error("jump ebb1(v1"), "8: expected ')' after arguments");
    assert_eq!(inst_error("brz v1, v1"), "7: expected branch destination EBB");
    assert_eq!(inst_error("v2 = insertlane v1, v1"), "7: expected lane number");
    assert_eq!(inst_error("v2 = insertlane v1, 3, 4"), "7: expected SSA value last operand");
    assert_eq!(
        inst_error("v2 = extractlane v1, 256"),
        "7: expected u8 decimal immediate"
    );
    assert_eq!(inst_error("v2 = icmp foo, v1, v1"), "7: expected intcc condition code");
    assert_eq!(inst_error("v2 = icmp 5, v1, v1"), "7: expected intcc condition code");
    assert_eq!(inst_error("v2 = fcmp eq, v1, v1"), "7: expected floatcc condition code");
    assert_eq!(inst_error("v2 = call v1"), "7: expected function reference");
    assert_eq!(inst_error("v2 = call fn2()"), "7: undefined function fn2");
    assert_eq!(inst_error("v2 = call fn1 v1"), "7: expected '(' before arguments");
    assert_eq!(inst_error("v2 = call_indirect v1"), "7: expected signature reference");
    assert_eq!(inst_error("v2 = call_indirect sig2, v1()"), "7: undefined signature sig2");
    assert_eq!(
        inst_error("v2 = call_indirect sig1, 5"),
        "7: expected SSA value callee operand"
    );
    assert_eq!(inst_error("br_table v1, v1"), "7: expected jump table number: jt«n»");
    assert_eq!(inst_error("br_table v1, jt2"), "7: undefined jump table jt2");
}

#[test]
fn undefined_references() {
    // The error stands at the opcode of the instruction that holds the reference.
    assert_eq!(inst_error("v2 = iadd v1,\n v8"), "7: undefined reference: v8");
    assert_eq!(inst_error("\njump ebb7"), "8: undefined reference: ebb7");
    assert_eq!(inst_error("jump ebb1(vx9)"), "7: undefined reference: vx9");
    assert_eq!(inst_error("return v1, v6"), "7: undefined reference: v6");
    // Among several, the first instruction and in it the first operand counts.
    assert_eq!(
        inst_error("brz.i32 v5, ebb9(v7)\nreturn v3"),
        "7: undefined reference: v5"
    );
}

#[test]
fn lexer_errors() {
    let isa = instructions();
    let items = lex("function foo?() {}");
    let mut parser = Parser::new(&items, &isa);
    assert_eq!(parser.lex_error(), None);
    let e = parser.parse_function().unwrap_err();
    assert_eq!(e.to_string(), "1: expected function signature: ( args... )");
    assert_eq!(
        parser.lex_error(),
        Some(LocatedError {
            error: LexError { message: "invalid character" },
            location: Location { line_number: 1 },
        })
    );
}

#[test]
fn whole_file() {
    let isa = instructions();
    let items = lex("function one() {} ; end\n; of file");
    let mut parser = Parser::new(&items, &isa);
    assert_eq!(parser.parse_function_list().unwrap().len(), 1);
    // Nothing is left.
    assert_eq!(parser.parse_function_list().unwrap().len(), 0);

    let items = lex("function one() {} stray");
    let mut parser = Parser::new(&items, &isa);
    assert_eq!(
        parser.parse_function_list().unwrap_err().to_string(),
        "1: expected 'function'"
    );

    // What the lexer rejects is an error, wherever it stands.
    for text in [
        "?",
        "\n?",
        "function one() {} ?",
        "function one() {}\n? function two() {}",
        "function one() {} function two() {} ? ? function three() {}",
        "function one(i8 ?) {}",
        "; one\n; two\n? function one() {}",
    ] {
        let line = 1 + text[..text.find('?').unwrap()].matches('\n').count();
        let items = lex(text);
        let e = Parser::new(&items, &isa).parse_function_list().unwrap_err();
        assert_eq!(e.to_string(), format!("{}: invalid character", line));
        let e = parse_test(&items, &isa, &vec![]).unwrap_err();
        assert_eq!(e.to_string(), format!("{}: invalid character", line));
        let e = parse_functions(&items, &isa, &vec![]).unwrap_err();
        assert_eq!(e.to_string(), format!("{}: invalid character", line));
    }

    // A command line is not looked at token by token.
    let items = lex("test ? ?\nset a?b\nfunction one() {}");
    assert_eq!(parse_test(&items, &isa, &vec![]).unwrap().functions.len(), 1);
}

#[test]
fn argument_flags() {
    let isa = instructions();
    let items = lex("i16 uext inreg sext uext i8");
    let mut parser = Parser::new(&items, &isa);
    let arg = parser.parse_argument_type().unwrap();
    // The last extension counts.
    assert_eq!(arg.extension, ArgumentExtension::Uext);
    assert!(arg.inreg);
    assert_eq!(arg.to_string(), "i16 uext inreg");
    assert_eq!(parser.parse_argument_type().unwrap().to_string(), "i8");
}

#[test]
fn signature_round_trip() {
    let isa = instructions();
    for text in [
        "()",
        "(i8)",
        "() -> i8 sext",
        "(i8 uext, i16 inreg, i32x4) -> f32, f64 sext inreg",
    ] {
        let items = lex(text);
        let sig = Parser::new(&items, &isa).parse_signature().unwrap();
        assert_eq!(sig.to_string(), text);
    }
}

#[test]
fn comments_between_tokens() {
    let isa = instructions();
    let items = lex("( ; one\n i8 ; two\n ) ; three\n -> ; four\n i16");
    let sig = Parser::new(&items, &isa).parse_signature().unwrap();
    assert_eq!(sig.to_string(), "(i8) -> i16");
}

#[test]
fn all_comments_are_kept_in_order() {
    let isa = instructions();
    let items = lex("function ; a
        f ; b
        () { ; c
        sig1 = ; d
        signature () ; e
        ebb0: ; f
        v1 ; g
        = iconst ; h
        .i32 5 ; i
        trap ; j
        } ; k
        ; l
        function");
    let mut parser = Parser::new(&items, &isa);
    let (_, details) = parser.parse_function().unwrap();
    let texts: Vec<&str> = details.comments.iter().map(|c| c.text).collect();
    assert_eq!(
        texts,
        vec![
            "; a", "; b", "; c", "; d", "; e", "; f", "; g", "; h", "; i", "; j", "; k", "; l"
        ]
    );
    let entities: Vec<String> = details.comments.iter().map(|c| c.entity.to_string()).collect();
    assert_eq!(
        entities,
        vec![
            "function", "function", "function", "sig0", "sig0", "ebb0", "inst0", "inst0", "inst0",
            "inst1", "function", "function"
        ]
    );
}

#[test]
fn isa_replies() {
    let isa = instructions();
    let text = "test a
        set x=1 y
        isa riscv supports_m
        set z
        isa arm
        function foo() {}";
    let items = lex(text);
    let commands = isa_commands(&items, &isa);
    assert_eq!(commands.len(), 4);
    assert_eq!(
        commands[1],
        IsaCommand::SelectIsa {
            location: Location { line_number: 3 },
            name: "riscv",
            options: vec!["supports_m"],
        }
    );

    // The flags of the `set` commands add up.
    match parse_test(&items, &isa, &vec![IsaReply::Accepted]).unwrap().isa_spec {
        IsaSpec::Isas(v) => {
            assert_eq!(v[0].name, "riscv");
            assert_eq!(v[0].options, vec!["supports_m"]);
            assert_eq!(v[0].flags, vec!["x=1", "y"]);
            assert_eq!(v[1].name, "arm");
            assert_eq!(v[1].flags, vec!["x=1", "y", "z"]);
        }
        IsaSpec::NoIsa(_) => panic!("expected ISAs"),
    }

    let unknown = vec![
        IsaReply::Accepted,
        IsaReply::Accepted,
        IsaReply::Accepted,
        IsaReply::UnknownIsa,
    ];
    assert_eq!(
        parse_test(&items, &isa, &unknown).unwrap_err().to_string(),
        "5: unknown ISA 'arm'"
    );
    let rejected = vec![IsaReply::Rejected(Error {
        location: Location { line_number: 2 },
        message: "bad option".to_string(),
    })];
    assert_eq!(
        parse_test(&items, &isa, &rejected).unwrap_err().to_string(),
        "2: bad option"
    );
}

#[test]
fn isa_errors() {
    let isa = instructions();
    let items = lex("isa ; comment\nfunction foo() {}");
    // The whole line belongs to the command.
    match parse_test(&items, &isa, &vec![]).unwrap().isa_spec {
        IsaSpec::Isas(v) => assert_eq!(v[0].name, ";"),
        IsaSpec::NoIsa(_) => panic!("expected an ISA"),
    }
    let items = lex("isa\nfunction foo() {}");
    assert_eq!(
        parse_test(&items, &isa, &vec![]).unwrap_err().to_string(),
        "1: expected ISA name"
    );
    let items = lex("isa riscv\nset a\nset b\nfunction foo() {}");
    assert_eq!(
        parse_test(&items, &isa, &vec![]).unwrap_err().to_string(),
        "3: dangling 'set' command after ISA specification has no effect."
    );
}

#[test]
fn functions_of_a_file() {
    let isa = instructions();
    let items = lex("test a
        isa riscv
        ; one
        function one() {}
        ; two
        function two(i32) {
        ebb0(vx0: i32):
            return vx0
        }");
    let functions = parse_functions(&items, &isa, &vec![]).unwrap();
    let file = parse_test(&items, &isa, &vec![]).unwrap();
    assert_eq!(functions.len(), 2);
    assert_eq!(file.functions.len(), 2);
    for (f, (g, _)) in functions.iter().zip(file.functions.iter()) {
        assert_eq!(f.name, g.name);
        assert_eq!(format!("{:?}", f), format!("{:?}", g));
    }
    assert_eq!(functions[1].signature.to_string(), "(i32)");
    assert!(file.preamble_comments.iter().all(|c| c.entity == AnyEntity::Function));

    let items = lex("function one() {} function two");
    assert_eq!(
        parse_functions(&items, &isa, &vec![]).unwrap_err().to_string(),
        "1: expected function signature: ( args... )"
    );
}

#[test]
fn command_lines() {
    let isa = instructions();
    let items = lex("test cat  -n ? \u{2003}x\ntest\nfunction f() {}");
    let mut parser = Parser::new(&items, &isa);
    let commands = parser.parse_test_commands();
    assert_eq!(commands.len(), 2);
    assert_eq!(commands[0].words(), vec!["cat", "-n", "?", "x"]);
    assert_eq!(commands[1].words().len(), 0);
    assert_eq!(parser.parse_function_list().unwrap().len(), 1);
}

#[test]
fn incomplete_instruction_sets() {
    let mut isa = instructions();
    isa.opcodes.push(opcode(
        "odd",
        InstructionFormat::Unary,
        Some(1),
        vec![(scalar(LaneType::I32), vec![])],
    ));
    assert!(!isa.complete());

    let mut isa = instructions();
    isa.opcodes[0].typings.clear();
    assert!(!isa.complete());
}

#[test]
fn source_map() {
    let isa = instructions();
    let items = lex("function f() {
        ss5 = stack_slot 4
        ss9 = stack_slot 8
        ebb7(vx3: i32):
        v8 = iconst.i32 1
        ebb2:
        }");
    let (_, details) = Parser::new(&items, &isa).parse_function().unwrap();
    let map = details.map;
    assert_eq!(map.get_ss(5).unwrap().to_string(), "ss0");
    assert_eq!(map.get_ss(9).unwrap().to_string(), "ss1");
    assert_eq!(map.get_ss(0), None);
    assert_eq!(map.get_ebb(Ebb::with_number(7).unwrap()).unwrap().to_string(), "ebb0");
    assert_eq!(map.get_ebb(Ebb::with_number(2).unwrap()).unwrap().to_string(), "ebb1");
    let v8 = map.get_value(Value::direct_with_number(8).unwrap()).unwrap();
    assert_eq!(v8.to_string(), "v0");
    let vx3 = map.get_value(Value::table_with_number(3).unwrap()).unwrap();
    assert_eq!(vx3.to_string(), "vx0");
    assert_eq!(map.location(StackSlot::new(1).into()), Some(Location { line_number: 3 }));
    assert_eq!(map.location(vx3.into()), Some(Location { line_number: 4 }));
    assert_eq!(map.location(v8.unwrap_direct().into()), Some(Location { line_number: 5 }));
    assert_eq!(map.location(StackSlot::new(2).into()), None);
}

#[test]
fn vector_immediates() {
    let mut isa = instructions();
    isa.opcodes.push(opcode(
        "vconst",
        InstructionFormat::UnaryImmVector,
        None,
        vec![(Type { lane: LaneType::I32, lanes: 4 }, vec![])],
    ));
    assert!(isa.complete());
    // A file that does not use the opcode is read as ever.
    let items = lex("function vconst() { ebb0: trap }");
    let (func, _) = Parser::new(&items, &isa).parse_function().unwrap();
    assert_eq!(func.insts.len(), 1);
    let items = lex("function f() {\nebb0:\nvconst.i32x4 5 }");
    assert_eq!(
        Parser::new(&items, &isa).parse_function().unwrap_err().to_string(),
        "3: vector immediates are not implemented"
    );
}

#[test]
fn wanted_tokens_stay() {
    let isa = instructions();
    // The token that was not wanted is the next one.
    let items = lex("i8 (i8)");
    let mut parser = Parser::new(&items, &isa);
    assert!(parser.parse_signature().is_err());
    assert_eq!(parser.parse_argument_type().unwrap().to_string(), "i8");
    assert_eq!(parser.parse_signature().unwrap().to_string(), "(i8)");
}

#[test]
fn comments_between_functions() {
    let isa = instructions();
    let items = lex("; a\nfunction one() { ; b\n} ; c\n; d\nfunction two() {} ; e");
    let list = Parser::new(&items, &isa).parse_function_list().unwrap();
    let texts = |k: usize| -> Vec<&str> { list[k].1.comments.iter().map(|c| c.text).collect() };
    assert_eq!(texts(0), vec!["; b", "; c", "; d"]);
    assert_eq!(texts(1), vec!["; e"]);
    assert!(list[0].1.comments[1..].iter().all(|c| c.entity == AnyEntity::Function));
}

#[test]
fn whole_preamble() {
    let isa = instructions();
    let items = lex("function f() {
        jt7 = jump_table ebb0
        sig4 = signature (i8)
        ss9 = stack_slot 4
        fn3 = function one(i16)
        ss2 = stack_slot 8
        sig1 = signature (i32)
        fn8 = sig4 two
        jt0 = jump_table ebb0, ebb0
        ebb0:
        }");
    let (func, details) = Parser::new(&items, &isa).parse_function().unwrap();
    let map = details.map;
    // Each kind is numbered in the order of its declarations.
    assert_eq!(map.get_ss(9).unwrap().index(), 0);
    assert_eq!(map.get_ss(2).unwrap().index(), 1);
    assert_eq!(func.stack_slots.iter().map(|s| s.size).collect::<Vec<u32>>(), vec![4, 8]);
    assert_eq!(map.get_jt(7).unwrap().index(), 0);
    assert_eq!(map.get_jt(0).unwrap().index(), 1);
    assert_eq!(func.jump_tables.iter().map(|t| t.table.len()).collect::<Vec<usize>>(), vec![1, 2]);
    // The signature that comes with a function is one of the signatures.
    assert_eq!(map.get_sig(4).unwrap().index(), 0);
    assert_eq!(map.get_sig(1).unwrap().index(), 2);
    assert_eq!(
        func.signatures.iter().map(|s| s.to_string()).collect::<Vec<String>>(),
        vec!["(i8)", "(i16)", "(i32)"]
    );
    assert_eq!(map.get_fn(3).unwrap().index(), 0);
    assert_eq!(map.get_fn(8).unwrap().index(), 1);
    let callees: Vec<(&str, usize)> =
        func.ext_funcs.iter().map(|f| (f.name, f.signature.index())).collect();
    assert_eq!(callees, vec![("one", 1), ("two", 0)]);
    // A number of one kind says nothing of another kind.
    assert_eq!(map.get_fn(4), None);
    assert_eq!(map.get_ss(7), None);
}

#[test]
fn same_tokens() {
    let items = lex("( foo foo bar 1 1 2 v1 vx1 i8");
    let token = |k: usize| items[k].content.unwrap();
    assert!(same_token(token(0), token(0)));
    assert!(same_token(token(1), token(2)));
    assert!(!same_token(token(1), token(3)));
    assert!(same_token(token(4), token(5)));
    assert!(!same_token(token(4), token(6)));
    assert!(!same_token(token(7), token(8)));
    assert!(same_token(token(9), Token::Type(scalar(LaneType::I8))));
    assert!(!same_token(token(0), token(9)));
}
