use cretonne_reader::text::{decimal_text, parse_u8, split_words};
use cretonne_reader::{
    no_ebb, no_func_ref, no_inst, no_jump_table, no_sig_ref, no_stack_slot, no_value, AnyEntity,
    Ebb, EntityRef, ExpandedValue, FuncRef, Inst, JumpTable, LaneType, SigRef, StackSlot, Type,
    Value,
};

#[test]
fn value_with_number() {
    assert_eq!(Value::direct_with_number(0).unwrap().to_string(), "v0");
    assert_eq!(Value::direct_with_number(1).unwrap().to_string(), "v1");
    assert_eq!(Value::table_with_number(0).unwrap().to_string(), "vx0");
    assert_eq!(Value::table_with_number(1).unwrap().to_string(), "vx1");

    assert_eq!(Value::direct_with_number(u32::MAX / 2), None);
    assert_eq!(
        match Value::direct_with_number(u32::MAX / 2 - 1).unwrap().expand() {
            ExpandedValue::Direct(i) => i.index() as u32,
            _ => u32::MAX,
        },
        u32::MAX / 2 - 1
    );

    assert_eq!(Value::table_with_number(u32::MAX / 2), None);
    assert_eq!(
        match Value::table_with_number(u32::MAX / 2 - 1).unwrap().expand() {
            ExpandedValue::Table(i) => i as u32,
            _ => u32::MAX,
        },
        u32::MAX / 2 - 1
    );
}

#[test]
fn ebb_with_number() {
    assert_eq!(Ebb::with_number(0).unwrap().to_string(), "ebb0");
    assert_eq!(Ebb::with_number(4294967294).unwrap().to_string(), "ebb4294967294");
    assert_eq!(Ebb::with_number(u32::MAX), None);
}

#[test]
fn values_of_instructions() {
    let v = Value::new_direct(Inst::new(7));
    assert_eq!(v.to_string(), "v7");
    assert_eq!(v.unwrap_direct(), Inst::new(7));
    assert_eq!(v.index(), 14);
    let vx = Value::new_table(7);
    assert_eq!(vx.to_string(), "vx7");
    assert_eq!(vx.index(), 15);
    assert!(v != vx);
}

#[test]
fn invalid_references() {
    assert_eq!(Ebb::default(), no_ebb());
    assert_eq!(Inst::default(), no_inst());
    assert_eq!(Value::default(), no_value());
    assert_eq!(StackSlot::default(), no_stack_slot());
    assert_eq!(JumpTable::default(), no_jump_table());
    assert_eq!(FuncRef::default(), no_func_ref());
    assert_eq!(SigRef::default(), no_sig_ref());
    assert_eq!(no_value().to_string(), "NO_VALUE");
    assert!(matches!(no_value().expand(), ExpandedValue::NoValue));
    assert_eq!(no_ebb().index(), u32::MAX as usize);
}

#[test]
fn entity_notation() {
    let entities: Vec<AnyEntity> = vec![
        AnyEntity::Function,
        Ebb::new(12).into(),
        Inst::new(12).into(),
        Value::new_direct(Inst::new(12)).into(),
        Value::new_table(12).into(),
        StackSlot::new(12).into(),
        JumpTable::new(12).into(),
        FuncRef::new(12).into(),
        SigRef::new(12).into(),
    ];
    let texts: Vec<String> = entities.iter().map(|e| e.to_string()).collect();
    assert_eq!(
        texts,
        vec!["function", "ebb12", "inst12", "v12", "vx12", "ss12", "jt12", "fn12", "sig12"]
    );
}

#[test]
fn words_of_a_line() {
    assert_eq!(split_words(""), Vec::<&str>::new());
    assert_eq!(split_words(" \t "), Vec::<&str>::new());
    assert_eq!(split_words(" a  bc\u{a0}d\u{3000}"), vec!["a", "bc", "d"]);
    for text in ["x", "x y", "\u{2028}x\u{85}y\u{feff}", "a\u{200b}b c\n"] {
        let expected: Vec<&str> = text.split_whitespace().collect();
        assert_eq!(split_words(text), expected);
    }
}

#[test]
fn small_numbers() {
    for text in ["0", "7", "007", "+5", "255", "256", "-1", "", "+", "1x", "99999", "++1", "0x1"] {
        assert_eq!(parse_u8(text), text.parse::<u8>().ok());
    }
}

#[test]
fn decimal_numbers() {
    for n in [0, 9, 10, 255, 1000, u64::MAX] {
        assert_eq!(decimal_text(n), n.to_string());
    }
}

#[test]
fn type_names() {
    assert_eq!(Type::void().to_string(), "void");
    assert_eq!(Type::scalar(LaneType::B1).to_string(), "b1");
    assert_eq!(Type { lane: LaneType::F64, lanes: 8 }.to_string(), "f64x8");
}
