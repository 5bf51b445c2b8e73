//! Laws of texts: the words of a line, small numbers, and the names of types.

use crate::entity_laws::law_decimal_denotes;
use crate::text::{
    decimal, digit_value, digits_value, is_white_space, lemma_word_len, lemma_word_len_is, u8_value,
    word_len, words,
};
use crate::types::{LaneType, Type};
use vstd::prelude::*;

verus! {

/// A text without white space is one word.
pub proof fn law_one_word(s: Seq<char>)
    requires
        s.len() > 0,
        forall|i: int| 0 <= i < s.len() ==> !is_white_space(#[trigger] s[i]),
    ensures
        words(s) == seq![s],
{
    lemma_word_len_is(s, s.len() as int);
    assert(s.take(s.len() as int) =~= s);
    assert(s.skip(s.len() as int).len() == 0);
    assert(words(s.skip(s.len() as int)) =~= seq![]);
    assert(seq![s] + seq![] =~= seq![s]);
}

/// White space separates words: the words of a text are those before any piece of white space, then
/// those after it. A text without characters has no words.
pub proof fn law_words_apart(a: Seq<char>, c: char, b: Seq<char>)
    requires
        is_white_space(c),
    ensures
        words(a + seq![c] + b) == words(a) + words(b),
        words(seq![]) == Seq::<Seq<char>>::empty(),
    decreases a.len(),
{
    let s = a + seq![c] + b;
    if a.len() == 0 {
        assert(s[0] == c);
        assert(s.drop_first() =~= b);
        assert(words(a) + words(b) =~= words(b));
    } else if is_white_space(a[0]) {
        assert(s[0] == a[0]);
        assert(s.drop_first() =~= a.drop_first() + seq![c] + b);
        law_words_apart(a.drop_first(), c, b);
    } else {
        lemma_word_len(a);
        let w = word_len(a) as int;
        assert forall|i: int| 0 <= i < w implies !is_white_space(#[trigger] s[i]) by {
            assert(s[i] == a[i]);
        }
        if w < a.len() {
            assert(s[w] == a[w]);
        } else {
            assert(s[w] == c);
        }
        assert(s[0] == a[0]);
        lemma_word_len_is(s, w);
        assert(s.take(w) =~= a.take(w));
        assert(s.skip(w) =~= a.skip(w) + seq![c] + b);
        law_words_apart(a.skip(w), c, b);
        assert(words(s) =~= seq![a.take(w)] + (words(a.skip(w)) + words(b)));
        assert(words(a) + words(b) =~= seq![a.take(w)] + (words(a.skip(w)) + words(b)));
    }
}

/// The decimal notation of a number below 256 is a lane number, that of any other number is none.
pub proof fn law_lane_numbers(n: nat)
    ensures
        u8_value(decimal(n)) == (if n < 256 {
            Some(n as u8)
        } else {
            None
        }),
{
    law_decimal_denotes(n);
    assert(digit_value(decimal(n)[0]) is Some);
}

/// The number of bits in the name of a type.
pub open spec fn width(lane: LaneType) -> nat {
    match lane {
        LaneType::Void => 0,
        LaneType::B1 => 1,
        LaneType::B8 | LaneType::I8 => 8,
        LaneType::B16 | LaneType::I16 => 16,
        LaneType::B32 | LaneType::I32 | LaneType::F32 => 32,
        LaneType::B64 | LaneType::I64 | LaneType::F64 => 64,
    }
}

/// The letter in the name of a type: booleans, integers and floating point numbers.
pub open spec fn letter(lane: LaneType) -> char {
    match lane {
        LaneType::B1 | LaneType::B8 | LaneType::B16 | LaneType::B32 | LaneType::B64 => 'b',
        LaneType::I8 | LaneType::I16 | LaneType::I32 | LaneType::I64 => 'i',
        _ => 'f',
    }
}

/// The name of a type is a letter and its number of bits. That of a vector goes on with an "x" and its
/// number of lanes.
pub proof fn law_type_names(lane: LaneType, lanes: u16)
    requires
        !(lane is Void),
    ensures
        (Type { lane, lanes: 1 }).text() == seq![letter(lane)] + decimal(width(lane)),
        lanes != 1 ==> (Type { lane, lanes }).text() == seq![letter(lane)] + decimal(width(lane))
            + seq!['x'] + decimal(lanes as nat),
{
    reveal_with_fuel(decimal, 3);
    reveal_strlit("b1");
    reveal_strlit("b8");
    reveal_strlit("b16");
    reveal_strlit("b32");
    reveal_strlit("b64");
    reveal_strlit("i8");
    reveal_strlit("i16");
    reveal_strlit("i32");
    reveal_strlit("i64");
    reveal_strlit("f32");
    reveal_strlit("f64");
    reveal_strlit("x");
    assert(lane.text() =~= seq![letter(lane)] + decimal(width(lane)));
    assert("x"@ =~= seq!['x']);
}

proof fn lemma_no_digits(s: Seq<char>, i: int)
    requires
        0 <= i < s.len(),
        digit_value(s[i]) is None,
    ensures
        digits_value(s) is None,
    decreases s.len(),
{
    if i < s.len() - 1 {
        lemma_no_digits(s.drop_last(), i);
    }
}

proof fn lemma_leading_zero(s: Seq<char>)
    ensures
        digits_value(seq!['0'] + s) == digits_value(s),
    decreases s.len(),
{
    let t = seq!['0'] + s;
    if s.len() == 0 {
        reveal_with_fuel(digits_value, 2);
        assert(t =~= seq!['0']);
        assert(t.drop_last() =~= seq![]);
    } else {
        lemma_leading_zero(s.drop_last());
        assert(t.drop_last() =~= seq!['0'] + s.drop_last());
        assert(t.last() == s.last());
    }
}

/// A lane number may have a plus sign and leading zeros, which make no difference. It has at least one
/// digit, and nothing but digits after the sign.
pub proof fn law_lane_texts(s: Seq<char>, i: int)
    ensures
        s.len() > 0 && s[0] != '+' ==> u8_value(seq!['+'] + s) == u8_value(s),
        s.len() > 0 && s[0] != '+' ==> u8_value(seq!['0'] + s) == u8_value(s),
        u8_value(seq![]) is None,
        u8_value(seq!['+']) is None,
        0 <= i < s.len() && digit_value(s[i]) is None && (i > 0 || s[i] != '+') ==> u8_value(
            s,
        ) is None,
{
    let plus = seq!['+'] + s;
    assert(plus.drop_first() =~= s);
    lemma_leading_zero(s);
    assert(seq!['+'].drop_first() =~= seq![]);
    if 0 <= i < s.len() && digit_value(s[i]) is None && (i > 0 || s[i] != '+') {
        if s[0] == '+' {
            assert(s.drop_first()[i - 1] == s[i]);
            lemma_no_digits(s.drop_first(), i - 1);
        } else {
            lemma_no_digits(s, i);
        }
    }
}

} // verus!
