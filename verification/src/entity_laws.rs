//! Laws of the entity references and of their notation.

use crate::entities::{AnyEntity, Ebb, EntityRef, ExpandedValue, Inst, Value};
use crate::text::{decimal, digit_char, digit_value, digits_value};
use vstd::prelude::*;

verus! {

/// The decimal notation of a number denotes that number, and is made of digits alone.
pub proof fn law_decimal_denotes(n: nat)
    ensures
        decimal(n).len() > 0,
        digits_value(decimal(n)) == Some(n),
        forall|i: int| 0 <= i < decimal(n).len() ==> digit_value(#[trigger] decimal(n)[i]) is Some,
    decreases n,
{
    if n >= 10 {
        law_decimal_denotes(n / 10);
        let s = decimal(n);
        assert(s.drop_last() =~= decimal(n / 10));
        assert(digit_value(digit_char(n % 10)) == Some((n % 10) as nat));
        assert forall|i: int| 0 <= i < s.len() implies digit_value(#[trigger] s[i]) is Some by {
            if i < s.len() - 1 {
                assert(s[i] == decimal(n / 10)[i]);
            }
        }
    } else {
        let s = decimal(n);
        reveal_with_fuel(digits_value, 2);
        assert(s.drop_last() =~= seq![]);
        assert(digit_value(digit_char(n)) == Some(n));
    }
}

/// Different numbers have different decimal notations.
pub proof fn law_decimal_injective(a: nat, b: nat)
    requires
        decimal(a) == decimal(b),
    ensures
        a == b,
{
    law_decimal_denotes(a);
    law_decimal_denotes(b);
}

/// A prefix and a number can be told from each other.
proof fn lemma_numbered_injective(prefix: Seq<char>, a: nat, b: nat)
    requires
        prefix + decimal(a) == prefix + decimal(b),
    ensures
        a == b,
{
    let s = prefix + decimal(a);
    let t = prefix + decimal(b);
    assert(s.skip(prefix.len() as int) =~= decimal(a));
    assert(t.skip(prefix.len() as int) =~= decimal(b));
    law_decimal_injective(a, b);
}

/// Every value but the invalid one is either direct or a table value, and its number tells it from
/// all others of its kind.
pub proof fn law_value_kinds(v: Value)
    ensures
        match v.expanded() {
            ExpandedValue::Direct(inst) => {
                &&& inst.number() <= u32::MAX / 2
                &&& v == Value::direct(inst.number())
            },
            ExpandedValue::Table(index) => {
                &&& index < u32::MAX / 2
                &&& v == Value::table(index as nat)
            },
            ExpandedValue::NoValue => v == Value::of(u32::MAX),
        },
{
}

/// A value made from a number expands to that number, and is not the invalid value.
pub proof fn law_value_numbers(n: nat)
    requires
        n < u32::MAX / 2,
    ensures
        Value::direct(n).expanded() == ExpandedValue::Direct(Inst::of(n as u32)),
        Value::table(n).expanded() == ExpandedValue::Table(n as usize),
        Value::direct(n) != Value::of(u32::MAX),
        Value::table(n) != Value::of(u32::MAX),
{
}

/// The number that a value or a block is made from is the number in its notation.
pub proof fn law_number_notation(n: u32)
    ensures
        n < u32::MAX ==> Ebb::of(n).text() == "ebb"@ + decimal(n as nat),
        n < u32::MAX / 2 ==> Value::direct(n as nat).text() == "v"@ + decimal(n as nat),
        n < u32::MAX / 2 ==> Value::table(n as nat).text() == "vx"@ + decimal(n as nat),
{
}

/// The characters by which the kinds of references are told from each other.
proof fn lemma_prefixes()
    ensures
        "function"@.len() == 8,
        "function"@[0] == 'f',
        "function"@[1] == 'u',
        "ebb"@.len() == 3,
        "ebb"@[0] == 'e',
        "inst"@.len() == 4,
        "inst"@[0] == 'i',
        "v"@.len() == 1,
        "v"@[0] == 'v',
        "vx"@.len() == 2,
        "vx"@[0] == 'v',
        "vx"@[1] == 'x',
        "NO_VALUE"@.len() == 8,
        "NO_VALUE"@[0] == 'N',
        "ss"@.len() == 2,
        "ss"@[0] == 's',
        "ss"@[1] == 's',
        "jt"@.len() == 2,
        "jt"@[0] == 'j',
        "fn"@.len() == 2,
        "fn"@[0] == 'f',
        "fn"@[1] == 'n',
        "sig"@.len() == 3,
        "sig"@[0] == 's',
        "sig"@[1] == 'i',
{
    reveal_strlit("function");
    reveal_strlit("ebb");
    reveal_strlit("inst");
    reveal_strlit("v");
    reveal_strlit("vx");
    reveal_strlit("NO_VALUE");
    reveal_strlit("ss");
    reveal_strlit("jt");
    reveal_strlit("fn");
    reveal_strlit("sig");
}

/// The first two characters of a notation.
proof fn lemma_notation_start(e: AnyEntity)
    ensures
        e.text().len() >= 2,
        match e {
            AnyEntity::Function => e.text()[0] == 'f' && e.text()[1] == 'u',
            AnyEntity::Ebb(_) => e.text()[0] == 'e',
            AnyEntity::Inst(_) => e.text()[0] == 'i',
            AnyEntity::Value(v) => match v.expanded() {
                ExpandedValue::Direct(_) => e.text()[0] == 'v' && e.text()[1] != 'x',
                ExpandedValue::Table(_) => e.text()[0] == 'v' && e.text()[1] == 'x',
                ExpandedValue::NoValue => e.text()[0] == 'N',
            },
            AnyEntity::StackSlot(_) => e.text()[0] == 's' && e.text()[1] == 's',
            AnyEntity::JumpTable(_) => e.text()[0] == 'j',
            AnyEntity::FuncRef(_) => e.text()[0] == 'f' && e.text()[1] == 'n',
            AnyEntity::SigRef(_) => e.text()[0] == 's' && e.text()[1] == 'i',
        },
{
    lemma_prefixes();
    if let AnyEntity::Value(v) = e {
        if let ExpandedValue::Direct(i) = v.expanded() {
            law_decimal_denotes(i.0 as nat);
            assert(e.text()[1] == decimal(i.0 as nat)[0]);
            assert(digit_value(decimal(i.0 as nat)[0]) is Some);
        }
    }
}

/// Different references, of whatever kinds, have different notations.
pub proof fn law_notation_injective(a: AnyEntity, b: AnyEntity)
    requires
        a.text() == b.text(),
    ensures
        a == b,
{
    lemma_notation_start(a);
    lemma_notation_start(b);
    match (a, b) {
        (AnyEntity::Ebb(x), AnyEntity::Ebb(y)) => {
            lemma_numbered_injective("ebb"@, x.0 as nat, y.0 as nat);
        },
        (AnyEntity::Inst(x), AnyEntity::Inst(y)) => {
            lemma_numbered_injective("inst"@, x.0 as nat, y.0 as nat);
        },
        (AnyEntity::Value(x), AnyEntity::Value(y)) => {
            match (x.expanded(), y.expanded()) {
                (ExpandedValue::Direct(i), ExpandedValue::Direct(j)) => {
                    lemma_numbered_injective("v"@, i.0 as nat, j.0 as nat);
                },
                (ExpandedValue::Table(i), ExpandedValue::Table(j)) => {
                    lemma_numbered_injective("vx"@, i as nat, j as nat);
                },
                _ => {},
            }
            law_value_kinds(x);
            law_value_kinds(y);
        },
        (AnyEntity::StackSlot(x), AnyEntity::StackSlot(y)) => {
            lemma_numbered_injective("ss"@, x.0 as nat, y.0 as nat);
        },
        (AnyEntity::JumpTable(x), AnyEntity::JumpTable(y)) => {
            lemma_numbered_injective("jt"@, x.0 as nat, y.0 as nat);
        },
        (AnyEntity::FuncRef(x), AnyEntity::FuncRef(y)) => {
            lemma_numbered_injective("fn"@, x.0 as nat, y.0 as nat);
        },
        (AnyEntity::SigRef(x), AnyEntity::SigRef(y)) => {
            lemma_numbered_injective("sig"@, x.0 as nat, y.0 as nat);
        },
        _ => {},
    }
}

} // verus!
