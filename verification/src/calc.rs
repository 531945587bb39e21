use vstd::prelude::*;
use vstd::wrapping::i64_specs::{wrapping_add, wrapping_mul, wrapping_sub};
use crate::decimal::{dec_digits, is_digit, digit_char};
use crate::display::{bytes_of, draw_text_sized, ops_view, str_bytes, DrawOp, Op};

verus! {

/// Room for the typed number, including one spare byte.
pub const INPUT_CAP: usize = 40;

/// The line under the calculator's display.
#[derive(Clone, Copy, Debug, PartialEq, Eq, Structural)]
pub enum CalcMessage {
    Empty,
    Result,
    DivisionByZero,
}

/// The calculator: the number being typed, the left operand and operator once one
/// was chosen, and the message line.
pub struct Calc {
    pub input: Vec<u8>,
    pub left: i64,
    pub op: u8,
    pub has_left: bool,
    pub message: CalcMessage,
}

/// The typed number holds at most 39 bytes, each a digit or a minus sign.
pub open spec fn calc_wf(c: &Calc) -> bool {
    &&& c.input@.len() < INPUT_CAP
    &&& forall|i: int| 0 <= i < c.input@.len() ==> is_digit(#[trigger] c.input@[i]) || c.input@[i] == 45
}

/// The digits of `s`, read as a decimal number in 64-bit two's-complement arithmetic
/// (wrapping on overflow); other bytes are skipped.
pub open spec fn parse_value(s: Seq<u8>) -> i64
    decreases s.len(),
{
    if s.len() == 0 {
        0
    } else {
        let p = parse_value(s.drop_last());
        if is_digit(s.last()) {
            wrapping_add(wrapping_mul(p, 10), (s.last() - 48) as i64)
        } else {
            p
        }
    }
}

/// The decimal text of `v`, with a leading minus sign when negative.
pub open spec fn signed_text(v: i64) -> Seq<u8> {
    if v < 0 {
        seq![45u8] + dec_digits((-(v as int)) as nat)
    } else {
        dec_digits(v as nat)
    }
}

/// Quotient rounded toward zero.
pub open spec fn trunc_div(a: int, b: int) -> int {
    let q = (if a < 0 { -a } else { a }) / (if b < 0 { -b } else { b });
    if (a < 0) != (b < 0) {
        -q
    } else {
        q
    }
}

/// The result of `left op right` and whether it is defined (only `+ - * /`, and no
/// division by zero); an undefined result is 0.
pub open spec fn calc_result(left: i64, op: u8, right: i64) -> (i64, bool) {
    if op == 43 {
        (wrapping_add(left, right), true)
    } else if op == 45 {
        (wrapping_sub(left, right), true)
    } else if op == 42 {
        (wrapping_mul(left, right), true)
    } else if op == 47 {
        if right == 0 {
            (0, false)
        } else {
            (trunc_div(left as int, right as int) as i64, true)
        }
    } else {
        (0, false)
    }
}

/// The division `left / right` would overflow.
pub open spec fn overflowing_division(left: i64, op: u8, right: i64) -> bool {
    op == 47 && left == i64::MIN && right == -1
}

/// The text shown on the display.
pub open spec fn spec_current_text(input: Seq<u8>) -> Seq<u8> {
    if input.len() == 0 {
        seq![48u8]
    } else {
        input
    }
}

pub open spec fn message_bytes(m: CalcMessage) -> Seq<u8> {
    match m {
        CalcMessage::Empty => str_bytes(""),
        CalcMessage::Result => str_bytes("Result"),
        CalcMessage::DivisionByZero => str_bytes("Division by zero"),
    }
}

/// The drawing of the calculator in a window at (`x`, `y`).
pub open spec fn calc_draw_ops(c: &Calc, x: u32, y: u32) -> Seq<Op> {
    seq![
        Op::Text { x: (x + 20) as u32, y: (y + 52) as u32, text: spec_current_text(c.input@), fg: 0xCDD6F4, bg: 0x1E1E2E, size: Some(16) },
        Op::Text { x: (x + 20) as u32, y: (y + 105) as u32, text: str_bytes("Keyboard: 0-9  + - * /  Enter  C"), fg: 0x9399B2, bg: 0x1E1E2E, size: Some(8) },
        Op::Text { x: (x + 18) as u32, y: (y + 244) as u32, text: message_bytes(c.message), fg: 0xA6E3A1, bg: 0x1E1E2E, size: Some(8) },
    ]
}

impl Calc {
    pub fn new() -> (c: Calc)
        ensures
            calc_wf(&c),
            c.input@.len() == 0,
            c.left == 0,
            c.op == 0,
            !c.has_left,
            c.message == CalcMessage::Empty,
    {
        Calc { input: Vec::new(), left: 0, op: 0, has_left: false, message: CalcMessage::Empty }
    }
}

pub fn clear_input(s: &mut Calc)
    requires
        calc_wf(old(s)),
    ensures
        calc_wf(final(s)),
        final(s).input@.len() == 0,
        final(s).left == old(s).left,
        final(s).op == old(s).op,
        final(s).has_left == old(s).has_left,
        final(s).message == old(s).message,
{
    s.input.clear();
}

/// The text on the display: the typed number, or "0" when nothing is typed.
pub fn current_text(s: &Calc) -> (r: Vec<u8>)
    ensures
        r@ == spec_current_text(s.input@),
{
    if s.input.len() == 0 {
        let mut r: Vec<u8> = Vec::new();
        r.push(48);
        proof {
            assert(r@ =~= seq![48u8]);
        }
        r
    } else {
        crate::display::copy_bytes(s.input.as_slice())
    }
}

/// Appends `ch` unless the number is full (39 bytes).
pub fn append_input(s: &mut Calc, ch: u8) -> (r: bool)
    requires
        calc_wf(old(s)),
        is_digit(ch) || ch == 45,
    ensures
        calc_wf(final(s)),
        r == (old(s).input@.len() + 1 < INPUT_CAP),
        final(s).input@ == if r { old(s).input@.push(ch) } else { old(s).input@ },
        final(s).left == old(s).left,
        final(s).op == old(s).op,
        final(s).has_left == old(s).has_left,
        final(s).message == old(s).message,
{
    if s.input.len() + 1 >= INPUT_CAP {
        return false;
    }
    s.input.push(ch);
    true
}

/// The typed number's value.
pub fn parse_input(s: &Calc) -> (r: i64)
    ensures
        r == parse_value(s.input@),
{
    let mut result: i64 = 0;
    let mut i: usize = 0;
    while i < s.input.len()
        invariant
            i <= s.input@.len(),
            result == parse_value(s.input@.take(i as int)),
        decreases s.input@.len() - i,
    {
        let ch = s.input[i];
        proof {
            assert(s.input@.take(i + 1).drop_last() =~= s.input@.take(i as int));
        }
        if ch >= 48 && ch <= 57 {
            result = result.wrapping_mul(10).wrapping_add((ch - 48) as i64);
        }
        i = i + 1;
    }
    proof {
        assert(s.input@.take(s.input@.len() as int) =~= s.input@);
    }
    result
}

/// Appends the decimal spelling of `n`.
pub fn push_digits_u64(out: &mut Vec<u8>, n: u64)
    ensures
        final(out)@ == old(out)@ + dec_digits(n as nat),
    decreases n,
{
    if n >= 10 {
        push_digits_u64(out, n / 10);
    }
    out.push(48 + (n % 10) as u8);
    proof {
        assert(final(out)@ =~= old(out)@ + dec_digits(n as nat));
    }
}

proof fn lemma_dec_digits_is_digits(n: nat)
    ensures
        forall|i: int| 0 <= i < dec_digits(n).len() ==> is_digit(#[trigger] dec_digits(n)[i]),
{
    crate::decimal::lemma_dec_digits(n);
}

proof fn lemma_dec_digits_len(n: nat)
    requires
        n <= 0x8000_0000_0000_0000,
    ensures
        dec_digits(n).len() <= 19,
{
    crate::decimal::lemma_dec_digits(n);
    assert(crate::decimal::pow10(19) == 10000000000000000000) by {
        reveal_with_fuel(crate::decimal::pow10, 20);
    }
    crate::decimal::lemma_dec_digits_short(n, 19);
}

/// Replaces the typed number with the decimal text of `result`.
pub fn format_result(s: &mut Calc, result: i64)
    requires
        calc_wf(old(s)),
    ensures
        calc_wf(final(s)),
        final(s).input@ == signed_text(result),
        final(s).left == old(s).left,
        final(s).op == old(s).op,
        final(s).has_left == old(s).has_left,
        final(s).message == old(s).message,
{
    let negative = result < 0;
    let magnitude: u64 = if negative {
        (-(result + 1)) as u64 + 1
    } else {
        result as u64
    };
    proof {
        if negative {
            assert(magnitude == -(result as int));
        }
    }
    let mut text: Vec<u8> = Vec::new();
    if negative {
        text.push(45);
    }
    push_digits_u64(&mut text, magnitude);
    proof {
        lemma_dec_digits_len(magnitude as nat);
        lemma_dec_digits_is_digits(magnitude as nat);
        assert(text@ =~= signed_text(result));
    }
    s.input = text;
}

/// Takes the typed number as the left operand of `op` and starts the right one.
pub fn select_operator(s: &mut Calc, op: u8)
    requires
        calc_wf(old(s)),
    ensures
        calc_wf(final(s)),
        final(s).left == parse_value(old(s).input@),
        final(s).op == op,
        final(s).has_left,
        final(s).input@.len() == 0,
        final(s).message == old(s).message,
{
    s.left = parse_input(s);
    s.op = op;
    s.has_left = true;
    clear_input(s);
}

/// Applies the operator to the left operand and the typed number, shows the result
/// (0 when undefined) and says whether it is defined.
pub fn evaluate(s: &mut Calc)
    requires
        calc_wf(old(s)),
        !overflowing_division(old(s).left, old(s).op, parse_value(old(s).input@)),
    ensures
        calc_wf(final(s)),
        ({
            let (v, valid) = calc_result(old(s).left, old(s).op, parse_value(old(s).input@));
            &&& final(s).input@ == signed_text(v)
            &&& final(s).message == if valid { CalcMessage::Result } else { CalcMessage::DivisionByZero }
        }),
        !final(s).has_left,
        final(s).left == old(s).left,
        final(s).op == old(s).op,
{
    let right = parse_input(s);
    let mut result: i64 = 0;
    let mut valid = true;
    if s.op == 43 {
        result = s.left.wrapping_add(right);
    } else if s.op == 45 {
        result = s.left.wrapping_sub(right);
    } else if s.op == 42 {
        result = s.left.wrapping_mul(right);
    } else if s.op == 47 {
        if right == 0 {
            valid = false;
        } else {
            result = div_toward_zero(s.left, right);
        }
    } else {
        valid = false;
    }
    format_result(s, result);
    s.message = if valid {
        CalcMessage::Result
    } else {
        CalcMessage::DivisionByZero
    };
    s.has_left = false;
}

/// `a / b` rounded toward zero.
pub fn div_toward_zero(a: i64, b: i64) -> (q: i64)
    requires
        b != 0,
        !(a == i64::MIN && b == -1),
    ensures
        q == trunc_div(a as int, b as int),
{
    let ma: u64 = if a < 0 {
        (-(a + 1)) as u64 + 1
    } else {
        a as u64
    };
    let mb: u64 = if b < 0 {
        (-(b + 1)) as u64 + 1
    } else {
        b as u64
    };
    let m = ma / mb;
    proof {
        assert(ma == (if a < 0 { -a } else { a as int }));
        assert(mb == (if b < 0 { -b } else { b as int }));
        assert(mb >= 1);
        assert(m <= ma) by (nonlinear_arith)
            requires
                m == ma / mb,
                mb >= 1,
        ;
        if (a < 0) == (b < 0) {
            if a < 0 {
                assert(mb >= 2 || ma < 0x8000_0000_0000_0000);
                if mb >= 2 {
                    assert(m <= ma / 2) by (nonlinear_arith)
                        requires
                            m == ma / mb,
                            mb >= 2,
                    ;
                }
            }
        }
    }
    let q: i128 = if (a < 0) != (b < 0) {
        -(m as i128)
    } else {
        m as i128
    };
    q as i64
}

/// Clears the number, the operator and the message.
pub fn open(s: &mut Calc)
    requires
        calc_wf(old(s)),
    ensures
        calc_wf(final(s)),
        final(s).input@.len() == 0,
        !final(s).has_left,
        final(s).message == CalcMessage::Empty,
        final(s).left == old(s).left,
        final(s).op == old(s).op,
{
    clear_input(s);
    s.has_left = false;
    s.message = CalcMessage::Empty;
}

/// The key `key` evaluates the expression: Enter or `=` with an operator chosen and a
/// number typed.
pub open spec fn evaluates(s: &Calc, key: u8) -> bool {
    !(key == 99 || key == 67) && !is_digit(key) && !((key == 43 || key == 45 || key == 42 || key == 47) && s.input@.len() > 0)
        && (key == 10 || key == 13 || key == 61) && s.has_left && s.input@.len() > 0
}

/// What a key does to the calculator (see `handle_key`).
pub open spec fn calc_key_post(o: &Calc, n: &Calc, key: u8) -> bool {
    &&& ((key == 99 || key == 67) ==> n.input@.len() == 0 && !n.has_left && n.message
            == CalcMessage::Empty && n.left == o.left && n.op == o.op)
    &&& (!(key == 99 || key == 67) && is_digit(key) ==> {
            &&& n.input@ == if o.input@.len() + 1 < INPUT_CAP { o.input@.push(key) } else { o.input@ }
            &&& n.left == o.left && n.op == o.op && n.has_left == o.has_left
            &&& n.message == o.message
        })
    &&& (!(key == 99 || key == 67) && !is_digit(key) && (key == 43 || key == 45 || key == 42 || key == 47)
            && o.input@.len() > 0 ==> {
            &&& n.left == parse_value(o.input@) && n.op == key && n.has_left
            &&& n.input@.len() == 0 && n.message == o.message
        })
    &&& (evaluates(o, key) ==> ({
            let (v, valid) = calc_result(o.left, o.op, parse_value(o.input@));
            &&& n.input@ == signed_text(v)
            &&& n.message == if valid { CalcMessage::Result } else { CalcMessage::DivisionByZero }
            &&& !n.has_left && n.left == o.left && n.op == o.op
        }))
    &&& (!(key == 99 || key == 67) && !is_digit(key) && !((key == 43 || key == 45 || key == 42 || key == 47)
            && o.input@.len() > 0) && !evaluates(o, key) ==> n.input@ == o.input@
            && n.left == o.left && n.op == o.op && n.has_left == o.has_left
            && n.message == o.message)
}

/// Handles a key: C clears, a digit is typed, `+ - * /` after a number chooses the
/// operator, Enter or `=` evaluates; every key is taken.
pub fn handle_key(s: &mut Calc, key: u8) -> (handled: bool)
    requires
        calc_wf(old(s)),
        evaluates(old(s), key) ==> !overflowing_division(old(s).left, old(s).op, parse_value(old(s).input@)),
    ensures
        calc_wf(final(s)),
        handled,
        calc_key_post(old(s), final(s), key),
{
    let is_operator = key == 43 || key == 45 || key == 42 || key == 47;
    if key == 99 || key == 67 {
        open(s);
        return true;
    }
    if key >= 48 && key <= 57 {
        append_input(s, key);
        return true;
    }
    if is_operator && s.input.len() > 0 {
        select_operator(s, key);
        return true;
    }
    if (key == 10 || key == 13 || key == 61) && s.has_left && s.input.len() > 0 {
        evaluate(s);
        return true;
    }
    true
}

/// Draws the calculator in the window at (`window_x`, `window_y`).
pub fn draw(s: &Calc, window_x: u32, window_y: u32, ops: &mut Vec<DrawOp>)
    requires
        window_x <= u32::MAX - 360,
        window_y <= u32::MAX - 270,
    ensures
        ops_view(final(ops)@) == ops_view(old(ops)@) + calc_draw_ops(s, window_x, window_y),
{
    let text = current_text(s);
    draw_text_sized(ops, window_x + 20, window_y + 52, text.as_slice(), 0xCDD6F4, 0x1E1E2E, 16);
    let help = bytes_of("Keyboard: 0-9  + - * /  Enter  C");
    draw_text_sized(ops, window_x + 20, window_y + 105, help.as_slice(), 0x9399B2, 0x1E1E2E, 8);
    let msg = match s.message {
        CalcMessage::Empty => bytes_of(""),
        CalcMessage::Result => bytes_of("Result"),
        CalcMessage::DivisionByZero => bytes_of("Division by zero"),
    };
    draw_text_sized(ops, window_x + 18, window_y + 244, msg.as_slice(), 0xA6E3A1, 0x1E1E2E, 8);
    proof {
        assert(ops_view(ops@) =~= ops_view(old(ops)@) + calc_draw_ops(s, window_x, window_y));
    }
}

/// The decimal text of a number up to `i64::MAX` reads back as that number.
pub proof fn lemma_parse_signed_text(v: i64)
    requires
        v >= 0,
    ensures
        parse_value(signed_text(v)) == v,
{
    lemma_parse_dec_digits(v as nat);
}

proof fn lemma_parse_dec_digits(n: nat)
    requires
        n <= i64::MAX,
    ensures
        parse_value(dec_digits(n)) == n,
    decreases n,
{
    let s = dec_digits(n);
    if n < 10 {
        assert(s.drop_last() =~= Seq::<u8>::empty());
        assert(s.last() == digit_char(n));
        assert(parse_value(s.drop_last()) == 0);
        vstd::arithmetic::div_mod::lemma_small_mod(0, 0x1_0000_0000_0000_0000);
        assert(wrapping_mul(0, 10) == 0);
        assert((s.last() - 48) as i64 == n);
        assert(wrapping_add(0, n as i64) == n);
    } else {
        lemma_parse_dec_digits(n / 10);
        assert(s.drop_last() == dec_digits(n / 10));
        assert(s.last() == digit_char(n % 10));
        let p = parse_value(s.drop_last());
        assert(p == n / 10);
        assert(p * 10 + n % 10 == n);
        assert(p * 10 <= i64::MAX);
        vstd::arithmetic::div_mod::lemma_small_mod((p * 10) as nat, 0x1_0000_0000_0000_0000);
        assert(wrapping_mul(p, 10) == p * 10);
        assert((s.last() - 48) as i64 == n % 10);
        assert(wrapping_add((p * 10) as i64, (n % 10) as i64) == n);
    }
}

} // verus!
