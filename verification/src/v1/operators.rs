//! The binary operators on values, and the text that displays a value.

use vstd::prelude::*;
use vstd::string::StringExecFns;
use vstd::arithmetic::div_mod::lemma_fundamental_div_mod;
use crate::error::PipelineError;
use crate::host::{FloatOrder, Host};
use crate::text::{chars_of, push_char};
use crate::v1::expr::Op;
use crate::v1::types::{
    array_view, content, entries_view, lemma_array_view, lemma_entries_view, lemma_props_view, props_view,
    Dynamic, DynamicView, Heap, Value, ValueView,
};

verus! {

/// Whether the operator computes a number: `+ - * / %`.
pub open spec fn is_arithmetic(op: Op) -> bool {
    op is Plus || op is Minus || op is Mul || op is Div || op is Mod
}

/// The quotient of `a` by `b`, rounded towards zero.
pub open spec fn truncated_quotient(a: int, b: int) -> int {
    if a >= 0 && b > 0 {
        a / b
    } else if a < 0 && b > 0 {
        -((-a) / b)
    } else if a >= 0 && b < 0 {
        -(a / (-b))
    } else {
        (-a) / (-b)
    }
}

/// The integer in 64 bits that is `x` modulo 2^64.
pub open spec fn wrapped(x: int) -> i64 {
    if x > i64::MAX {
        (x - 0x1_0000_0000_0000_0000) as i64
    } else if x < i64::MIN {
        (x + 0x1_0000_0000_0000_0000) as i64
    } else {
        x as i64
    }
}

/// The result of an arithmetic operator on two integers. Sums, differences
/// and products wrap around in 64 bits. A quotient is rounded towards zero
/// and a remainder has the sign of the dividend; with the divisor 0 neither
/// is defined.
pub open spec fn integer_arithmetic(op: Op, a: i64, b: i64) -> Option<i64> {
    match op {
        Op::Plus => Some(a.wrapping_add(b)),
        Op::Minus => Some(a.wrapping_sub(b)),
        Op::Mul => Some(a.wrapping_mul(b)),
        Op::Div => if b == 0 {
            None
        } else {
            Some(wrapped(truncated_quotient(a as int, b as int)))
        },
        Op::Mod => if b == 0 {
            None
        } else {
            Some((a - truncated_quotient(a as int, b as int) * b) as i64)
        },
        _ => None,
    }
}

/// How two integers stand to each other: -1, 0 or 1.
pub open spec fn integer_order(a: int, b: int) -> int {
    if a < b {
        -1
    } else if a == b {
        0
    } else {
        1
    }
}

/// How two texts stand to each other in the order of the dictionary, by the
/// code points of their characters: -1, 0 or 1.
pub open spec fn text_order(a: Seq<char>, b: Seq<char>) -> int
    decreases a.len(),
{
    if a.len() == 0 {
        if b.len() == 0 {
            0
        } else {
            -1
        }
    } else if b.len() == 0 {
        1
    } else if a[0] < b[0] {
        -1
    } else if a[0] > b[0] {
        1
    } else {
        text_order(a.drop_first(), b.drop_first())
    }
}

/// What a comparison operator says of two operands that stand in the given
/// order.
pub open spec fn comparison(op: Op, order: int) -> bool {
    match op {
        Op::Greater => order > 0,
        Op::Less => order < 0,
        Op::Equal => order == 0,
        _ => order != 0,
    }
}

/// The magnitude of an integer.
fn magnitude(a: i64) -> (m: u64)
    ensures
        m == (if a >= 0 {
            a as int
        } else {
            -(a as int)
        }),
{
    if a >= 0 {
        a as u64
    } else {
        (-(a + 1)) as u64 + 1
    }
}

/// The quotient of `a` by `b`, rounded towards zero and wrapped to 64 bits.
pub fn quotient(a: i64, b: i64) -> (q: i64)
    requires
        b != 0,
    ensures
        q == wrapped(truncated_quotient(a as int, b as int)),
{
    let ua = magnitude(a);
    let ub = magnitude(b);
    let uq = ua / ub;
    assert(uq <= ua) by (nonlinear_arith)
        requires
            uq == ua / ub,
            ub >= 1,
    ;
    if (a < 0) != (b < 0) {
        if uq == 0x8000_0000_0000_0000 {
            i64::MIN
        } else {
            -(uq as i64)
        }
    } else {
        if uq == 0x8000_0000_0000_0000 {
            i64::MIN
        } else {
            uq as i64
        }
    }
}

/// The remainder of `a` by `b`, with the sign of `a`.
pub fn remainder(a: i64, b: i64) -> (r: i64)
    requires
        b != 0,
    ensures
        r == a - truncated_quotient(a as int, b as int) * b,
{
    let ua = magnitude(a);
    let ub = magnitude(b);
    let ur = ua % ub;
    proof {
        lemma_fundamental_div_mod(ua as int, ub as int);
        let q = (ua as int) / (ub as int);
        assert(ua == ub * q + ur);
        if a >= 0 && b > 0 {
            assert(ur == a - q * b) by (nonlinear_arith)
                requires
                    a == b * q + ur,
            ;
        } else if a < 0 && b > 0 {
            assert(-(ur as int) == a - (-q) * b) by (nonlinear_arith)
                requires
                    -a == b * q + ur,
            ;
        } else if a >= 0 && b < 0 {
            assert(ur == a - (-q) * b) by (nonlinear_arith)
                requires
                    a == (-b) * q + ur,
            ;
        } else {
            assert(-(ur as int) == a - q * b) by (nonlinear_arith)
                requires
                    -a == (-b) * q + ur,
            ;
        }
    }
    if a < 0 {
        -(ur as i64)
    } else {
        ur as i64
    }
}

/// The result of a binary operator on two integers: the number that an
/// arithmetic operator computes, the truth of a comparison, or nothing where
/// a divisor is 0.
pub open spec fn integer_outcome(op: Op, a: i64, b: i64) -> Option<DynamicView> {
    if is_arithmetic(op) {
        match integer_arithmetic(op, a, b) {
            Some(v) => Some(DynamicView::Integer(v)),
            None => None,
        }
    } else {
        Some(DynamicView::Boolean(comparison(op, integer_order(a as int, b as int))))
    }
}

/// Applies a binary operator to two integers.
pub fn integer_binary(op: Op, a: i64, b: i64) -> (r: Result<Dynamic, PipelineError>)
    ensures
        match integer_outcome(op, a, b) {
            Some(v) => r matches Ok(d) && d@ == v,
            None => r matches Err(PipelineError::UndefinedOperation(_)),
        },
{
    match op {
        Op::Plus => Ok(Dynamic::Integer(a.wrapping_add(b))),
        Op::Minus => Ok(Dynamic::Integer(a.wrapping_sub(b))),
        Op::Mul => Ok(Dynamic::Integer(a.wrapping_mul(b))),
        Op::Div => if b == 0 {
            Err(PipelineError::UndefinedOperation(String::from_str("division by zero")))
        } else {
            Ok(Dynamic::Integer(quotient(a, b)))
        },
        Op::Mod => if b == 0 {
            Err(PipelineError::UndefinedOperation(String::from_str("remainder by zero")))
        } else {
            Ok(Dynamic::Integer(remainder(a, b)))
        },
        Op::Greater => Ok(Dynamic::Boolean(a > b)),
        Op::Less => Ok(Dynamic::Boolean(a < b)),
        Op::Equal => Ok(Dynamic::Boolean(a == b)),
        Op::NotEqual => Ok(Dynamic::Boolean(a != b)),
    }
}

/// How the texts `a` and `b` stand to each other: -1, 0 or 1.
pub fn order_of_texts(a: &str, b: &str) -> (r: i8)
    ensures
        r == text_order(a@, b@),
{
    let x = chars_of(a);
    let y = chars_of(b);
    let mut i: usize = 0;
    assert(x@.skip(0) =~= x@ && y@.skip(0) =~= y@);
    while i < x.len() && i < y.len()
        invariant
            i <= x.len(),
            i <= y.len(),
            x@ == a@,
            y@ == b@,
            text_order(a@, b@) == text_order(x@.skip(i as int), y@.skip(i as int)),
        decreases x.len() - i,
    {
        proof {
            assert(x@.skip(i as int).drop_first() =~= x@.skip(i + 1));
            assert(y@.skip(i as int).drop_first() =~= y@.skip(i + 1));
        }
        if x[i] < y[i] {
            return -1;
        }
        if x[i] > y[i] {
            return 1;
        }
        i += 1;
    }
    if i < y.len() {
        -1
    } else if i < x.len() {
        1
    } else {
        0
    }
}

/// The truth of a comparison operator on operands in the given order.
pub fn compare_by(op: Op, order: i8) -> (b: bool)
    requires
        !is_arithmetic(op),
    ensures
        b == comparison(op, order as int),
{
    match op {
        Op::Greater => order > 0,
        Op::Less => order < 0,
        Op::Equal => order == 0,
        _ => order != 0,
    }
}

/// The digit that writes `d`.
pub open spec fn digit_char(d: int) -> char {
    ('0' as int + d) as char
}

/// The decimal digits of a natural number.
pub open spec fn digits_of(n: nat) -> Seq<char>
    decreases n,
{
    if n < 10 {
        seq![digit_char(n as int)]
    } else {
        digits_of(n / 10).push(digit_char((n % 10) as int))
    }
}

/// The decimal text of an integer, with `-` in front of a negative one.
pub open spec fn decimal_text(i: int) -> Seq<char> {
    if i < 0 {
        seq!['-'] + digits_of((-i) as nat)
    } else {
        digits_of(i as nat)
    }
}

fn digit_of(d: u64) -> (c: char)
    requires
        d < 10,
    ensures
        c == digit_char(d as int),
{
    if d == 0 {
        '0'
    } else if d == 1 {
        '1'
    } else if d == 2 {
        '2'
    } else if d == 3 {
        '3'
    } else if d == 4 {
        '4'
    } else if d == 5 {
        '5'
    } else if d == 6 {
        '6'
    } else if d == 7 {
        '7'
    } else if d == 8 {
        '8'
    } else {
        '9'
    }
}

fn push_digits(out: &mut String, n: u64)
    ensures
        final(out)@ == old(out)@ + digits_of(n as nat),
    decreases n,
{
    if n < 10 {
        push_char(out, digit_of(n));
        assert(out@ =~= old(out)@ + digits_of(n as nat));
    } else {
        push_digits(out, n / 10);
        push_char(out, digit_of(n % 10));
        assert(out@ =~= old(out)@ + digits_of(n as nat));
    }
}

/// The decimal text of an integer.
pub fn integer_text(i: i64) -> (s: String)
    ensures
        s@ == decimal_text(i as int),
{
    let mut s = String::new();
    if i < 0 {
        push_char(&mut s, '-');
    }
    push_digits(&mut s, magnitude(i));
    assert(s@ =~= decimal_text(i as int));
    s
}


/// The text that displays a value which displays without the host and
/// without the heap: every kind but floating-point numbers, arrays, maps and
/// instances of classes.
pub open spec fn plain_text(d: DynamicView) -> Option<Seq<char>> {
    match d {
        DynamicView::Unit => Some("Unit"@),
        DynamicView::Integer(i) => Some(decimal_text(i as int)),
        DynamicView::Text(s) => Some(s),
        DynamicView::Boolean(b) => Some(
            if b {
                "true"@
            } else {
                "false"@
            },
        ),
        DynamicView::Variable(a) => Some("Variable("@ + a + ")"@),
        DynamicView::FnPtr(p) => Some("function "@ + p.name),
        DynamicView::Native(_) => Some("Native Value"@),
        _ => None,
    }
}

/// What stands between two items: nothing in front of the first, a comma
/// in front of every other.
pub open spec fn comma(at: int) -> Seq<char> {
    if at > 0 {
        ","@
    } else {
        Seq::empty()
    }
}

/// The text that displays the value that `v` stands for, as an item of a
/// value that is displayed to the depth `depth`: `...` at the depth 0, `?`
/// for a value that stands for nothing. Nothing where the host has a say.
pub open spec fn item_text(heap: Seq<Option<DynamicView>>, v: ValueView, depth: nat) -> Option<Seq<char>>
    decreases depth, 0nat, 0nat,
{
    if depth == 0 {
        Some("..."@)
    } else {
        match content(heap, v) {
            Some(d) => shown_text(heap, d, (depth - 1) as nat),
            None => Some("?"@),
        }
    }
}

/// The text that displays the key of an entry of a map that is displayed to
/// the depth `depth`.
pub open spec fn key_text(heap: Seq<Option<DynamicView>>, key: DynamicView, depth: nat) -> Option<Seq<char>>
    decreases depth, 0nat, 0nat,
{
    if depth == 0 {
        Some("..."@)
    } else {
        shown_text(heap, key, (depth - 1) as nat)
    }
}

/// The texts of the first `upto` items of an array, with commas between
/// them.
pub open spec fn items_text(heap: Seq<Option<DynamicView>>, items: Seq<ValueView>, depth: nat, upto: nat) -> Option<
    Seq<char>,
>
    decreases depth, 1nat, upto,
{
    if upto == 0 || upto > items.len() {
        Some(Seq::empty())
    } else {
        match (
            items_text(heap, items, depth, (upto - 1) as nat),
            item_text(heap, items[upto - 1], depth),
        ) {
            (Some(before), Some(item)) => Some(before + comma(upto - 1) + item),
            _ => None,
        }
    }
}

/// The texts of the first `upto` entries of a map, each as `key:value`,
/// with commas between them.
pub open spec fn entries_text(
    heap: Seq<Option<DynamicView>>,
    entries: Seq<(DynamicView, ValueView)>,
    depth: nat,
    upto: nat,
) -> Option<Seq<char>>
    decreases depth, 1nat, upto,
{
    if upto == 0 || upto > entries.len() {
        Some(Seq::empty())
    } else {
        match (
            entries_text(heap, entries, depth, (upto - 1) as nat),
            key_text(heap, entries[upto - 1].0, depth),
            item_text(heap, entries[upto - 1].1, depth),
        ) {
            (Some(before), Some(key), Some(value)) => Some(
                before + comma(upto - 1) + key + ":"@ + value,
            ),
            _ => None,
        }
    }
}

/// The texts of the first `upto` fields of an instance, each as
/// `name:value`, with commas between them.
pub open spec fn fields_text(
    heap: Seq<Option<DynamicView>>,
    fields: Seq<(Seq<char>, ValueView)>,
    depth: nat,
    upto: nat,
) -> Option<Seq<char>>
    decreases depth, 1nat, upto,
{
    if upto == 0 || upto > fields.len() {
        Some(Seq::empty())
    } else {
        match (
            fields_text(heap, fields, depth, (upto - 1) as nat),
            item_text(heap, fields[upto - 1].1, depth),
        ) {
            (Some(before), Some(value)) => Some(
                before + comma(upto - 1) + fields[upto - 1].0 + ":"@ + value,
            ),
            _ => None,
        }
    }
}

/// The text that displays a value: what `plain_text` gives; an array as
/// `[a,b]`, a map as `{k:v}`, an instance of a class as `Name{k:v}`, with
/// the values inside followed through the heap to the depth `depth`.
/// Nothing for a floating-point number, and for a value that holds one
/// within that depth: the host says how such a number is displayed.
pub open spec fn shown_text(heap: Seq<Option<DynamicView>>, d: DynamicView, depth: nat) -> Option<Seq<char>>
    decreases depth, 2nat, 0nat,
{
    match d {
        DynamicView::Array(items) => match items_text(heap, items, depth, items.len()) {
            Some(inside) => Some("["@ + inside + "]"@),
            None => None,
        },
        DynamicView::Mapping(entries) => match entries_text(heap, entries, depth, entries.len()) {
            Some(inside) => Some("{"@ + inside + "}"@),
            None => None,
        },
        DynamicView::Struct(name, fields) => match fields_text(heap, fields, depth, fields.len()) {
            Some(inside) => Some(name + "{"@ + inside + "}"@),
            None => None,
        },
        other => plain_text(other),
    }
}

/// Appends to `out` the text that displays the value that `v` stands for,
/// as an item of a value that is displayed to the depth `depth`.
fn display_item<H: Host>(out: &mut String, v: &Value, heap: &Heap, host: &mut H, depth: usize)
    ensures
        final(out)@.len() >= old(out)@.len(),
        final(out)@.subrange(0, old(out)@.len() as int) == old(out)@,
        item_text(heap@, v@, depth as nat) matches Some(t) ==> final(out)@ == old(out)@ + t,
    decreases depth, 0nat,
{
    if depth == 0 {
        out.append("...");
    } else {
        match heap.resolve(v) {
            Some(d) => {
                let text = display(d, heap, host, depth - 1);
                out.append(text.as_str());
            },
            None => {
                out.append("?");
            },
        }
    }
    assert(out@.subrange(0, old(out)@.len() as int) =~= old(out)@);
}

/// The text that displays a value: a number in decimal, a string as it is,
/// an array as `[a,b]`, a map as `{k:v}`, an instance of a class as
/// `Name{k:v}`. Values inside values are followed through the heap to the
/// given depth; below it stands `...`, and `?` stands for a cell that is not
/// live. The host says how a floating-point number is displayed.
pub fn display<H: Host>(d: &Dynamic, heap: &Heap, host: &mut H, depth: usize) -> (s: String)
    ensures
        plain_text(d@) matches Some(t) ==> s@ == t,
        shown_text(heap@, d@, depth as nat) matches Some(t) ==> s@ == t,
    decreases depth, 1nat,
{
    match d {
        Dynamic::Unit => String::from_str("Unit"),
        Dynamic::Integer(i) => integer_text(*i),
        Dynamic::Float(bits) => host.float_display(*bits),
        Dynamic::String(s) => s.clone(),
        Dynamic::Boolean(b) => if *b {
            String::from_str("true")
        } else {
            String::from_str("false")
        },
        Dynamic::Variable(a) => String::from_str("Variable(").concat(a.as_str()).concat(")"),
        Dynamic::FnPtr(p) => String::from_str("function ").concat(p.name.as_str()),
        Dynamic::Native(_) => String::from_str("Native Value"),
        Dynamic::Array(items) => {
            let ghost views = array_view(items@);
            proof {
                lemma_array_view(items@);
            }
            let mut out = String::from_str("[");
            let mut i: usize = 0;
            proof {
                assert("["@ + Seq::<char>::empty() =~= "["@);
            }
            while i < items.len()
                invariant
                    i <= items.len(),
                    views == array_view(items@),
                    views.len() == items.len(),
                    forall|k: int| 0 <= k < items.len() ==> #[trigger] views[k] == items@[k]@,
                    items_text(heap@, views, depth as nat, i as nat) matches Some(t) ==> out@ == "["@ + t,
                decreases items.len() - i,
            {
                let ghost start = out@;
                if i > 0 {
                    out.append(",");
                }
                display_item(&mut out, &items[i], heap, host, depth);
                proof {
                    if let Some(t) = items_text(heap@, views, depth as nat, (i + 1) as nat) {
                        let before = items_text(heap@, views, depth as nat, i as nat)->0;
                        let item = item_text(heap@, views[i as int], depth as nat)->0;
                        assert(out@ =~= "["@ + (before + comma(i as int) + item));
                    }
                }
                i += 1;
            }
            out.append("]");
            out
        },
        Dynamic::Mapping(entries) => {
            let ghost views = entries_view(entries@);
            proof {
                lemma_entries_view(entries@);
            }
            let mut out = String::from_str("{");
            let mut i: usize = 0;
            proof {
                assert("{"@ + Seq::<char>::empty() =~= "{"@);
            }
            while i < entries.len()
                invariant
                    i <= entries.len(),
                    views == entries_view(entries@),
                    views.len() == entries.len(),
                    forall|k: int|
                        0 <= k < entries.len() ==> #[trigger] views[k] == (entries@[k].0@, entries@[k].1@),
                    entries_text(heap@, views, depth as nat, i as nat) matches Some(t) ==> out@ == "{"@
                        + t,
                decreases entries.len() - i,
            {
                if i > 0 {
                    out.append(",");
                }
                if depth == 0 {
                    out.append("...");
                } else {
                    let key = display(&entries[i].0, heap, host, depth - 1);
                    out.append(key.as_str());
                }
                out.append(":");
                display_item(&mut out, &entries[i].1, heap, host, depth);
                proof {
                    if let Some(t) = entries_text(heap@, views, depth as nat, (i + 1) as nat) {
                        let before = entries_text(heap@, views, depth as nat, i as nat)->0;
                        let key = key_text(heap@, views[i as int].0, depth as nat)->0;
                        let value = item_text(heap@, views[i as int].1, depth as nat)->0;
                        assert(out@ =~= "{"@ + (before + comma(i as int) + key + ":"@ + value));
                    }
                }
                i += 1;
            }
            out.append("}");
            out
        },
        Dynamic::Struct(s) => {
            let ghost views = props_view(s.props@);
            proof {
                lemma_props_view(s.props@);
            }
            let mut out = s.name.clone();
            out.append("{");
            let mut i: usize = 0;
            proof {
                assert(s.name@ + "{"@ + Seq::<char>::empty() =~= s.name@ + "{"@);
            }
            while i < s.props.len()
                invariant
                    i <= s.props.len(),
                    views == props_view(s.props@),
                    views.len() == s.props.len(),
                    forall|k: int|
                        0 <= k < s.props.len() ==> #[trigger] views[k] == (s.props@[k].0@, s.props@[k].1@),
                    fields_text(heap@, views, depth as nat, i as nat) matches Some(t) ==> out@ == s.name@
                        + "{"@ + t,
                decreases s.props.len() - i,
            {
                if i > 0 {
                    out.append(",");
                }
                out.append(s.props[i].0.as_str());
                out.append(":");
                display_item(&mut out, &s.props[i].1, heap, host, depth);
                proof {
                    if let Some(t) = fields_text(heap@, views, depth as nat, (i + 1) as nat) {
                        let before = fields_text(heap@, views, depth as nat, i as nat)->0;
                        let value = item_text(heap@, views[i as int].1, depth as nat)->0;
                        assert(out@ =~= s.name@ + "{"@ + (before + comma(i as int) + views[i as int].0
                            + ":"@ + value));
                    }
                }
                i += 1;
            }
            out.append("}");
            out
        },
    }
}

/// How deep `display` follows values inside values where a text is made for
/// the script. A value can hold itself, an array that is its own item, and
/// the text of such a value would have no end: below this depth `...`
/// stands for what is inside.
pub const DISPLAY_DEPTH: usize = 16;

pub open spec fn is_number(d: DynamicView) -> bool {
    d is Integer || d is Float
}

/// What a binary operator gives on two operands, where that is settled
/// without the host: on two integers, on two strings, on two truth values,
/// and for `+` with a string on the left and an operand that displays
/// without the host.
pub open spec fn settled(op: Op, l: DynamicView, r: DynamicView) -> Option<DynamicView> {
    match (l, r) {
        (DynamicView::Integer(a), DynamicView::Integer(b)) => integer_outcome(op, a, b),
        (DynamicView::Text(a), DynamicView::Text(b)) => if op is Plus {
            Some(DynamicView::Text(a + b))
        } else if is_arithmetic(op) {
            None
        } else {
            Some(DynamicView::Boolean(comparison(op, text_order(a, b))))
        },
        (DynamicView::Text(a), other) => if op is Plus {
            match plain_text(other) {
                Some(t) => Some(DynamicView::Text(a + t)),
                None => None,
            }
        } else {
            None
        },
        (DynamicView::Boolean(a), DynamicView::Boolean(b)) => if op is Equal {
            Some(DynamicView::Boolean(a == b))
        } else if op is NotEqual {
            Some(DynamicView::Boolean(a != b))
        } else {
            None
        },
        _ => None,
    }
}

/// Whether a binary operator is defined on two operands: on two numbers
/// (but for a quotient or remainder of integers by 0), for `+` with a string
/// on the left, for a comparison of two strings, and for `==` and `!=` on
/// two truth values.
pub open spec fn defined(op: Op, l: DynamicView, r: DynamicView) -> bool {
    match (l, r) {
        (DynamicView::Integer(a), DynamicView::Integer(b)) => integer_outcome(op, a, b) is Some,
        (DynamicView::Integer(_), DynamicView::Float(_)) => true,
        (DynamicView::Float(_), DynamicView::Integer(_)) => true,
        (DynamicView::Float(_), DynamicView::Float(_)) => true,
        (DynamicView::Text(_), DynamicView::Text(_)) => op is Plus || !is_arithmetic(op),
        (DynamicView::Text(_), _) => op is Plus,
        (DynamicView::Boolean(_), DynamicView::Boolean(_)) => op is Equal || op is NotEqual,
        _ => false,
    }
}

/// The bits of the operand as a floating-point number; an integer is
/// converted by the host.
fn to_float<H: Host>(d: &Dynamic, host: &mut H) -> (r: Option<u64>)
    ensures
        r is Some == is_number(d@),
{
    match d {
        Dynamic::Integer(i) => Some(host.float_from_int(*i)),
        Dynamic::Float(bits) => Some(*bits),
        _ => None,
    }
}

fn undefined(op: Op, l: &Dynamic, r: &Dynamic) -> (e: PipelineError)
    ensures
        e is UndefinedOperation,
{
    let sign = match op {
        Op::Plus => "+",
        Op::Minus => "-",
        Op::Mul => "*",
        Op::Div => "/",
        Op::Mod => "%",
        Op::Greater => ">",
        Op::Less => "<",
        Op::Equal => "==",
        Op::NotEqual => "!=",
    };
    let mut text = l.type_of();
    text.append(" ");
    text.append(sign);
    text.append(" ");
    text.append(r.type_of().as_str());
    PipelineError::UndefinedOperation(text)
}

/// Applies a binary operator to two values.
///
/// Two integers give an integer for an arithmetic operator. A number with a
/// floating-point number gives a floating-point number, which the host
/// computes. A string on the left of `+` is joined with the text that
/// displays the right operand. Numbers are compared with numbers and strings
/// with strings, in the order of the dictionary. Every other pair of
/// operands, and a quotient or remainder of integers by 0, gives
/// `UndefinedOperation`.
pub fn binary<H: Host>(op: Op, l: &Dynamic, r: &Dynamic, heap: &Heap, host: &mut H) -> (out: Result<
    Dynamic,
    PipelineError,
>)
    ensures
        out is Ok == defined(op, l@, r@),
        out is Err ==> out matches Err(PipelineError::UndefinedOperation(_)),
        settled(op, l@, r@) matches Some(v) ==> out matches Ok(d) && d@ == v,
        out matches Ok(d) ==> {
            &&& is_number(l@) && is_number(r@) && (l@ is Float || r@ is Float) ==> (if is_arithmetic(
                op,
            ) {
                d@ is Float
            } else {
                d@ is Boolean
            })
            &&& l@ is Integer && r@ is Integer && is_arithmetic(op) ==> d@ is Integer
            &&& l@ matches DynamicView::Text(a) ==> (op is Plus ==> (d@ matches DynamicView::Text(t)
                && t.len() >= a.len() && t.subrange(0, a.len() as int) == a))
        },
{
    match (l, r) {
        (Dynamic::Integer(a), Dynamic::Integer(b)) => integer_binary(op, *a, *b),
        (Dynamic::Integer(_), Dynamic::Float(_))
        | (Dynamic::Float(_), Dynamic::Integer(_))
        | (Dynamic::Float(_), Dynamic::Float(_)) => {
            let x = to_float(l, host).unwrap();
            let y = to_float(r, host).unwrap();
            match op {
                Op::Plus | Op::Minus | Op::Mul | Op::Div | Op::Mod => Ok(
                    Dynamic::Float(host.float_binary(op, x, y)),
                ),
                _ => {
                    let truth = match host.float_order(x, y) {
                        FloatOrder::Less => compare_by(op, -1),
                        FloatOrder::Equal => compare_by(op, 0),
                        FloatOrder::Greater => compare_by(op, 1),
                        FloatOrder::Unordered => match op {
                            Op::NotEqual => true,
                            _ => false,
                        },
                    };
                    Ok(Dynamic::Boolean(truth))
                },
            }
        },
        (Dynamic::String(a), Dynamic::String(b)) => match op {
            Op::Plus => Ok(Dynamic::String(a.clone().concat(b.as_str()))),
            Op::Minus | Op::Mul | Op::Div | Op::Mod => Err(undefined(op, l, r)),
            _ => Ok(Dynamic::Boolean(compare_by(op, order_of_texts(a.as_str(), b.as_str())))),
        },
        (Dynamic::String(a), _) => match op {
            Op::Plus => {
                let shown = display(r, heap, host, DISPLAY_DEPTH);
                let joined = a.clone().concat(shown.as_str());
                assert(joined@.subrange(0, a@.len() as int) =~= a@);
                Ok(Dynamic::String(joined))
            },
            _ => Err(undefined(op, l, r)),
        },
        (Dynamic::Boolean(a), Dynamic::Boolean(b)) => match op {
            Op::Equal => Ok(Dynamic::Boolean(*a == *b)),
            Op::NotEqual => Ok(Dynamic::Boolean(*a != *b)),
            _ => Err(undefined(op, l, r)),
        },
        _ => Err(undefined(op, l, r)),
    }
}

} // verus!
