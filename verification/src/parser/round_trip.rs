//! What is written can be read: a value that is shown and then read is
//! the same value again.

use super::ident::{spec_ident, valid_ident_start};
use super::list::{spec_list, spec_list_items, spec_number, spec_token, spec_token_kind};
use super::number::{
    digits_value, spec_decimal, spec_float, spec_integer, spec_prefixed,
};
use super::string::{escape_byte, spec_string, spec_string_body};
use super::{is_digit, lemma_scan_bounds, scan, Class, Parsed};
use crate::value::{
    digits_text, escaped_byte, escaped_text, integer_text, render, render_items, FloatView,
    KindView, ValueView,
};
use vstd::prelude::*;

verus! {

/// Whether a token may end before the byte at `at`: the source ends there,
/// or a space or `)` stands there.
pub open spec fn ends_token(s: Seq<u8>, at: int) -> bool {
    at >= s.len() || s[at] == 32 || s[at] == 41
}

/// Whether the bytes can be written as an identifier.
pub open spec fn symbol_text(name: Seq<u8>) -> bool {
    &&& name.len() > 0
    &&& valid_ident_start(name[0] as char)
    &&& forall|i: int| 0 <= i < name.len() ==> Class::IdentChar.holds(#[trigger] name[i])
}

/// Whether the bytes are digits with one dot among them that is not the
/// first byte.
pub open spec fn float_text(text: Seq<u8>) -> bool {
    exists|dot: int| is_dot_of(text, dot)
}

/// Whether `dot` is the place of the one dot among digits.
pub open spec fn is_dot_of(text: Seq<u8>, dot: int) -> bool {
    &&& 0 < dot < text.len()
    &&& text[dot] == 46
    &&& forall|i: int| 0 <= i < text.len() && i != dot ==> is_digit(#[trigger] text[i])
}

/// The values that can be written so that they are read again as
/// themselves: identifiers, integers that are not negative, floats that
/// have not been read by the host, strings that are not empty, and lists
/// of such values; each of them raw, sequential or neither.
pub open spec fn writable(v: ValueView) -> bool
    decreases v, 0int,
{
    !(v.raw && v.sequential) && match v.kind {
        KindView::Symbol(name) => symbol_text(name),
        KindView::Integer(n) => n >= 0,
        KindView::Float(f) => f.bits is None && float_text(f.text),
        KindView::String(text) => text.len() > 0,
        KindView::List(items) => items_writable(items, items.len() as int),
        _ => false,
    }
}

/// Whether the first `count` of the items are writable.
pub open spec fn items_writable(items: Seq<ValueView>, count: int) -> bool
    decreases items, count,
{
    if count <= 0 || count > items.len() {
        true
    } else {
        items_writable(items, count - 1) && writable(items[count - 1])
    }
}

/// Where a text stands at `at` and is made of three parts, the middle
/// part stands after the first.
proof fn lemma_part(s: Seq<u8>, at: int, front: Seq<u8>, part: Seq<u8>, back: Seq<u8>)
    requires
        0 <= at,
        at + front.len() + part.len() + back.len() <= s.len(),
        s.subrange(at, at + front.len() + part.len() + back.len()) == front + part + back,
    ensures
        s.subrange(at + front.len(), at + front.len() + part.len()) == part,
        forall|i: int| 0 <= i < front.len() ==> s[at + i] == #[trigger] front[i],
        forall|i: int|
            0 <= i < back.len() ==> s[at + front.len() + part.len() + i] == #[trigger] back[i],
{
    let whole = front + part + back;
    let total = front.len() + part.len() + back.len();
    assert forall|i: int| 0 <= i < part.len() implies s.subrange(
        at + front.len(),
        at + front.len() + part.len(),
    )[i] == part[i] by {
        assert(s.subrange(at, at + total)[front.len() + i] == whole[front.len() + i]);
    }
    assert(s.subrange(at + front.len(), at + front.len() + part.len()) =~= part);
    assert forall|i: int| 0 <= i < front.len() implies s[at + i] == #[trigger] front[i] by {
        assert(s.subrange(at, at + total)[i] == whole[i]);
    }
    assert forall|i: int| 0 <= i < back.len() implies s[at + front.len() + part.len() + i]
        == #[trigger] back[i] by {
        assert(s.subrange(at, at + total)[front.len() + part.len() + i] == whole[front.len()
            + part.len() + i]);
    }
}

proof fn lemma_scan_all(s: Seq<u8>, at: int, end: int, class: Class)
    requires
        0 <= at <= end <= s.len(),
        forall|i: int| at <= i < end ==> class.holds(#[trigger] s[i]),
        end == s.len() || !class.holds(s[end]),
    ensures
        scan(s, at, class) == end,
    decreases end - at,
{
    if at < end {
        assert(class.holds(s[at]));
        lemma_scan_all(s, at + 1, end, class);
    }
}

proof fn lemma_digits_text(n: nat)
    ensures
        digits_text(n).len() >= 1,
        forall|i: int| 0 <= i < digits_text(n).len() ==> is_digit(#[trigger] digits_text(n)[i]),
        digits_value(digits_text(n), 10) == n,
        n > 0 ==> 49 <= digits_text(n)[0] <= 57,
        n == 0 ==> digits_text(n) == seq![48u8],
    decreases n,
{
    if n >= 10 {
        lemma_digits_text(n / 10);
        let front = digits_text(n / 10);
        let all = digits_text(n);
        assert(all == front.push((48 + n % 10) as u8));
        assert(all.drop_last() =~= front);
        assert(all[0] == front[0]);
    } else {
        let all = digits_text(n);
        assert(all == seq![(48 + n) as u8]);
        assert(all.drop_last() =~= Seq::<u8>::empty());
        assert(digits_value(all.drop_last(), 10) == 0);
    }
}

/// An identifier that stands at `at` and ends a token there is read as
/// it stands.
proof fn lemma_symbol_reads(s: Seq<u8>, at: int, name: Seq<u8>)
    requires
        symbol_text(name),
        0 <= at,
        at + name.len() <= s.len(),
        s.subrange(at, at + name.len()) == name,
        ends_token(s, at + name.len()),
    ensures
        spec_token_kind(s, at) == (Parsed::Done {
            rest: at + name.len(),
            value: KindView::Symbol(name),
        }),
{
    let end = at + name.len();
    assert forall|i: int| at <= i < end implies Class::IdentChar.holds(#[trigger] s[i]) by {
        assert(s[i] == name[i - at]);
    }
    assert(s[at] == name[0]);
    lemma_scan_all(s, at, end, Class::IdentChar);
    assert(spec_ident(s, at) == (Parsed::Done { rest: end, value: name }));
}

/// An integer that is not negative, stands at `at` and ends a token
/// there is read as itself.
proof fn lemma_integer_reads(s: Seq<u8>, at: int, n: i64)
    requires
        n >= 0,
        0 <= at,
        at + integer_text(n).len() <= s.len(),
        s.subrange(at, at + integer_text(n).len()) == integer_text(n),
        ends_token(s, at + integer_text(n).len()),
    ensures
        spec_token_kind(s, at) == (Parsed::Done {
            rest: at + integer_text(n).len(),
            value: KindView::Integer(n),
        }),
{
    let text = integer_text(n);
    let end = at + text.len();
    lemma_digits_text(n as nat);
    assert forall|i: int| at <= i < end implies Class::Digit.holds(#[trigger] s[i]) by {
        assert(s[i] == text[i - at]);
    }
    assert(s[at] == text[0]);
    lemma_scan_all(s, at, end, Class::Digit);
    assert(spec_float(s, at) is Failed);
    if n == 0 {
        assert(text.len() == 1);
        assert(spec_prefixed(s, at, 120, Class::HexDigit, 16) is Failed);
        assert(spec_prefixed(s, at, 98, Class::BinDigit, 2) is Failed);
        assert(spec_prefixed(s, at, 111, Class::OctDigit, 8) is Failed);
        assert(spec_decimal(s, at) == (Parsed::Done { rest: at + 1, value: 0i64 }));
    } else {
        assert(spec_prefixed(s, at, 120, Class::HexDigit, 16) is Failed);
        assert(spec_prefixed(s, at, 98, Class::BinDigit, 2) is Failed);
        assert(spec_prefixed(s, at, 111, Class::OctDigit, 8) is Failed);
        assert(spec_decimal(s, at) == (Parsed::Done { rest: end, value: n }));
    }
    assert(spec_integer(s, at) == (Parsed::Done { rest: end, value: n }));
    assert(spec_number(s, at) == (Parsed::Done { rest: end, value: KindView::Integer(n) }));
}

/// A float that the host has not read, stands at `at` and ends a token
/// there is read as it stands.
proof fn lemma_float_reads(s: Seq<u8>, at: int, text: Seq<u8>)
    requires
        float_text(text),
        0 <= at,
        at + text.len() <= s.len(),
        s.subrange(at, at + text.len()) == text,
        ends_token(s, at + text.len()),
    ensures
        spec_token_kind(s, at) == (Parsed::Done {
            rest: at + text.len(),
            value: KindView::Float(FloatView { bits: None, text }),
        }),
{
    let dot = choose|dot: int| is_dot_of(text, dot);
    let end = at + text.len();
    assert forall|i: int| at <= i < at + dot implies Class::Digit.holds(#[trigger] s[i]) by {
        assert(s[i] == text[i - at]);
    }
    assert(s[at + dot] == text[dot]);
    lemma_scan_all(s, at, at + dot, Class::Digit);
    assert forall|i: int| at + dot + 1 <= i < end implies Class::Digit.holds(#[trigger] s[i]) by {
        assert(s[i] == text[i - at]);
    }
    lemma_scan_all(s, at + dot + 1, end, Class::Digit);
    assert(s[at] == text[0]);
    assert(spec_float(s, at) == (Parsed::Done { rest: end, value: text }));
}

proof fn lemma_escaped_front(text: Seq<u8>)
    requires
        text.len() > 0,
    ensures
        escaped_text(text) == escaped_byte(text[0]) + escaped_text(text.drop_first()),
    decreases text.len(),
{
    if text.len() == 1 {
        assert(text.drop_last() =~= Seq::<u8>::empty());
        assert(text.drop_first() =~= Seq::<u8>::empty());
        assert(escaped_text(text) =~= escaped_byte(text[0]) + escaped_text(text.drop_first()));
    } else {
        lemma_escaped_front(text.drop_last());
        assert(text.drop_last().drop_first() =~= text.drop_first().drop_last());
        assert(text.drop_first().last() == text.last());
        assert(text.drop_last()[0] == text[0]);
        assert(escaped_text(text) =~= escaped_byte(text[0]) + escaped_text(text.drop_first()));
    }
}

/// In a string a byte that stands for itself is read as one more byte.
proof fn lemma_body_step(s: Seq<u8>, start: int, at: int, acc: Seq<u8>)
    requires
        0 <= at < s.len(),
        Class::Plain.holds(s[at]),
    ensures
        spec_string_body(s, start, at, acc) == spec_string_body(s, start, at + 1, acc.push(s[at])),
{
    let run = scan(s, at, Class::Plain);
    lemma_scan_bounds(s, at, Class::Plain);
    lemma_scan_bounds(s, at + 1, Class::Plain);
    assert(run == scan(s, at + 1, Class::Plain));
    assert(run > at);
    if run == at + 1 {
        assert(acc + s.subrange(at, run) =~= acc.push(s[at]));
    } else {
        assert(scan(s, at + 1, Class::Plain) > at + 1);
        assert(acc + s.subrange(at, run) =~= acc.push(s[at]) + s.subrange(at + 1, run));
    }
}

/// What is written for the bytes of a string is read as those bytes, up
/// to the quote that ends the string.
proof fn lemma_body_reads(s: Seq<u8>, start: int, at: int, acc: Seq<u8>, text: Seq<u8>)
    requires
        0 <= start <= at,
        at + escaped_text(text).len() < s.len(),
        s.subrange(at, at + escaped_text(text).len()) == escaped_text(text),
        s[at + escaped_text(text).len()] == 34,
        at > start || text.len() > 0,
    ensures
        spec_string_body(s, start, at, acc) == (Parsed::Done {
            rest: at + escaped_text(text).len(),
            value: acc + text,
        }),
    decreases text.len(),
{
    if text.len() == 0 {
        assert(acc + text =~= acc);
    } else {
        let b = text[0];
        let tail = text.drop_first();
        lemma_escaped_front(text);
        let written = escaped_text(text);
        let first = escaped_byte(b);
        assert(written == first + escaped_text(tail));
        assert(s[at] == written[0]);
        assert(acc.push(b) + tail =~= acc + text);
        if b == 10 || b == 9 || b == 34 || b == 92 {
            assert(s[at + 1] == written[1]);
            assert(first + escaped_text(tail) + Seq::<u8>::empty() =~= written);
            lemma_part(s, at, first, escaped_text(tail), Seq::empty());
            lemma_body_reads(s, start, at + 2, acc.push(b), tail);
            assert(escape_byte(s[at + 1]) == Some(b));
        } else {
            assert(first + escaped_text(tail) + Seq::<u8>::empty() =~= written);
            lemma_part(s, at, first, escaped_text(tail), Seq::empty());
            lemma_body_reads(s, start, at + 1, acc.push(b), tail);
            lemma_body_step(s, start, at, acc);
        }
    }
}

/// A string that is not empty and stands at `at` is read as itself.
proof fn lemma_string_reads(s: Seq<u8>, at: int, text: Seq<u8>)
    requires
        text.len() > 0,
        0 <= at,
        at + escaped_text(text).len() + 2 <= s.len(),
        s.subrange(at, at + escaped_text(text).len() + 2) == seq![34u8] + escaped_text(text)
            + seq![34u8],
    ensures
        spec_token_kind(s, at) == (Parsed::Done {
            rest: at + escaped_text(text).len() + 2,
            value: KindView::String(text),
        }),
{
    let written = seq![34u8] + escaped_text(text) + seq![34u8];
    let inner = escaped_text(text).len() as int;
    lemma_part(s, at, seq![34u8], escaped_text(text), seq![34u8]);
    assert(s[at] == seq![34u8][0]);
    assert(s[at + 1 + inner + 0] == seq![34u8][0]);
    lemma_body_reads(s, at + 1, at + 1, Seq::empty(), text);
    assert(Seq::<u8>::empty() + text =~= text);
    assert(spec_string(s, at) == (Parsed::Done { rest: at + inner + 2, value: text }));
}

/// What is written for the kind of a value, after the marks of its
/// flags.
pub open spec fn kind_written(v: ValueView) -> Seq<u8> {
    render(ValueView { raw: false, sequential: false, kind: v.kind })
}

/// The marks of the flags of a value.
pub open spec fn flags_written(v: ValueView) -> Seq<u8> {
    (if v.raw {
        seq![39u8]
    } else {
        Seq::<u8>::empty()
    }) + (if v.sequential {
        seq![33u8]
    } else {
        Seq::<u8>::empty()
    })
}

proof fn lemma_written_parts(v: ValueView)
    ensures
        render(v) == flags_written(v) + kind_written(v),
        !(v.raw && v.sequential) ==> flags_written(v).len() == (if v.raw || v.sequential {
            1int
        } else {
            0int
        }),
        v.raw && !v.sequential ==> flags_written(v) == seq![39u8],
        v.sequential && !v.raw ==> flags_written(v) == seq![33u8],
{
    let plain = ValueView { raw: false, sequential: false, kind: v.kind };
    assert(Seq::<u8>::empty() + Seq::<u8>::empty() =~= Seq::<u8>::empty());
    assert(render(plain) =~= kind_written(v));
    assert(render(v) =~= flags_written(v) + kind_written(v));
    assert(seq![39u8] + Seq::<u8>::empty() =~= seq![39u8]);
    assert(Seq::<u8>::empty() + seq![33u8] =~= seq![33u8]);
}

/// The first byte of what is written for the kind of a writable value
/// starts a token and marks no flag.
proof fn lemma_first_byte(v: ValueView)
    requires
        writable(v),
    ensures
        kind_written(v).len() > 0,
        !Class::Space.holds(kind_written(v)[0]),
        kind_written(v)[0] != 41,
        kind_written(v)[0] != 39,
        kind_written(v)[0] != 33,
        render(v).len() > 0,
        !Class::Space.holds(render(v)[0]),
        render(v)[0] != 41,
{
    lemma_written_parts(v);
    let plain = ValueView { raw: false, sequential: false, kind: v.kind };
    assert(Seq::<u8>::empty() + Seq::<u8>::empty() =~= Seq::<u8>::empty());
    match v.kind {
        KindView::Symbol(name) => {
            assert(kind_written(v) =~= name);
        },
        KindView::Integer(n) => {
            lemma_digits_text(n as nat);
            assert(kind_written(v) =~= integer_text(n));
        },
        KindView::Float(f) => {
            let dot = choose|dot: int| is_dot_of(f.text, dot);
            assert(is_digit(f.text[0]));
            assert(kind_written(v) =~= f.text);
        },
        KindView::String(text) => {
            assert(kind_written(v) =~= seq![34u8] + escaped_text(text) + seq![34u8]);
        },
        KindView::List(items) => {
            assert(kind_written(v) =~= seq![40u8] + render_items(items, items.len() as int)
                + seq![41u8]);
        },
        _ => {},
    }
    if v.raw || v.sequential {
        assert(render(v)[0] == flags_written(v)[0]);
    } else {
        assert(flags_written(v) =~= Seq::<u8>::empty());
        assert(render(v) =~= kind_written(v));
    }
}

proof fn lemma_items_prefix(items: Seq<ValueView>, k: int, n: int)
    requires
        0 <= k <= n <= items.len(),
    ensures
        render_items(items, k).len() <= render_items(items, n).len(),
        render_items(items, n).subrange(0, render_items(items, k).len() as int) == render_items(
            items,
            k,
        ),
    decreases n - k,
{
    if k == n {
        assert(render_items(items, n).subrange(0, render_items(items, k).len() as int)
            =~= render_items(items, k));
    } else {
        lemma_items_prefix(items, k, n - 1);
        assert(render_items(items, n).subrange(0, render_items(items, k).len() as int)
            =~= render_items(items, k));
    }
}

proof fn lemma_item_writable(items: Seq<ValueView>, count: int, at: int)
    requires
        0 <= at < count <= items.len(),
        items_writable(items, count),
    ensures
        writable(items[at]),
    decreases count,
{
    if at < count - 1 {
        lemma_item_writable(items, count - 1, at);
    }
}

/// What is written for a writable value, where it stands at `at` and ends
/// a token there, is read as that value.
pub proof fn lemma_token_reads(s: Seq<u8>, at: int, v: ValueView)
    requires
        writable(v),
        0 <= at,
        at + render(v).len() <= s.len(),
        s.subrange(at, at + render(v).len()) == render(v),
        ends_token(s, at + render(v).len()),
    ensures
        spec_token(s, at) == (Parsed::Done { rest: at + render(v).len(), value: v }),
    decreases v, 0int,
{
    lemma_written_parts(v);
    lemma_first_byte(v);
    let flags = flags_written(v);
    let written = kind_written(v);
    let next = at + flags.len();
    let end = at + render(v).len();
    assert(flags + written + Seq::<u8>::empty() =~= render(v));
    lemma_part(s, at, flags, written, Seq::empty());
    assert(s[next] == written[0]) by {
        assert(s.subrange(next, next + written.len())[0] == written[0]);
    }
    if v.raw || v.sequential {
        assert(s[at] == flags[0]);
    }
    match v.kind {
        KindView::Symbol(name) => {
            assert(written =~= name);
            lemma_symbol_reads(s, next, name);
        },
        KindView::Integer(n) => {
            assert(written =~= integer_text(n));
            lemma_integer_reads(s, next, n);
        },
        KindView::Float(f) => {
            assert(written =~= f.text);
            lemma_float_reads(s, next, f.text);
            assert(f == FloatView { bits: None, text: f.text });
        },
        KindView::String(text) => {
            assert(written =~= seq![34u8] + escaped_text(text) + seq![34u8]);
            lemma_string_reads(s, next, text);
        },
        KindView::List(items) => {
            let inner = render_items(items, items.len() as int);
            assert(written =~= seq![40u8] + inner + seq![41u8]);
            lemma_part(s, next, seq![40u8], inner, seq![41u8]);
            assert(s[next + 1 + inner.len() + 0] == seq![41u8][0]);
            assert(render_items(items, 0) =~= Seq::<u8>::empty());
            assert(items.subrange(0, 0) =~= Seq::<ValueView>::empty());
            lemma_items_read(s, next, items, 0);
            assert(spec_list(s, next) == (Parsed::Done { rest: end, value: items }));
        },
        _ => {},
    }
    assert(spec_token_kind(s, next) == (Parsed::Done { rest: end, value: v.kind }));
}

/// The elements of a list from the `k`th on, and the `)` after them, are
/// read as the rest of the list.
proof fn lemma_items_read(s: Seq<u8>, open: int, items: Seq<ValueView>, k: int)
    requires
        items_writable(items, items.len() as int),
        0 <= open,
        open + 1 + render_items(items, items.len() as int).len() < s.len(),
        s.subrange(open + 1, open + 1 + render_items(items, items.len() as int).len())
            == render_items(items, items.len() as int),
        s[open + 1 + render_items(items, items.len() as int).len()] == 41,
        0 <= k <= items.len(),
    ensures
        spec_list_items(
            s,
            open + 1 + render_items(items, k).len(),
            k == 0,
            items.subrange(0, k),
        ) == (Parsed::Done {
            rest: open + 1 + render_items(items, items.len() as int).len() + 1,
            value: items,
        }),
    decreases items, items.len() - k,
{
    let n = items.len() as int;
    let all = render_items(items, n);
    let at = open + 1 + render_items(items, k).len();
    let acc = items.subrange(0, k);
    if k == n {
        assert(acc =~= items);
        assert(scan(s, at, Class::Space) == at);
    } else {
        let item = items[k];
        lemma_item_writable(items, n, k);
        lemma_first_byte(item);
        let text = render(item);
        let before = render_items(items, k);
        let upto = render_items(items, k + 1);
        let gap: Seq<u8> = if k == 0 {
            Seq::empty()
        } else {
            seq![32u8]
        };
        assert(upto =~= before + gap + text) by {
            if k == 0 {
                assert(before =~= Seq::<u8>::empty());
            }
        }
        lemma_items_prefix(items, k + 1, n);
        assert(s.subrange(open + 1, open + 1 + upto.len()) =~= upto) by {
            assert forall|i: int| 0 <= i < upto.len() implies s.subrange(
                open + 1,
                open + 1 + upto.len(),
            )[i] == upto[i] by {
                assert(s.subrange(open + 1, open + 1 + all.len())[i] == all[i]);
                assert(all.subrange(0, upto.len() as int)[i] == all[i]);
            }
        }
        assert(before + gap + text + Seq::<u8>::empty() =~= upto);
        lemma_part(s, open + 1, before + gap, text, Seq::empty());
        let start = at + gap.len();
        let end = start + text.len();
        assert(end == open + 1 + upto.len());
        assert(s[start] == text[0]) by {
            assert(s.subrange(start, start + text.len())[0] == text[0]);
        }
        if k > 0 {
            assert(before + gap + (text + Seq::<u8>::empty()) =~= upto);
            lemma_part(s, open + 1, before, gap, text + Seq::<u8>::empty());
            assert(s[at] == 32) by {
                assert(s.subrange(at, at + 1)[0] == gap[0]);
            }
            assert(Class::Space.holds(s[at]));
            lemma_scan_all(s, at, at + 1, Class::Space);
        } else {
            assert(scan(s, at, Class::Space) == at);
        }
        assert(scan(s, at, Class::Space) == start);
        assert(ends_token(s, end)) by {
            if k + 1 < n {
                let further = render_items(items, k + 2);
                assert(further == upto + seq![32u8] + render(items[k + 1]));
                lemma_items_prefix(items, k + 2, n);
                assert(s[end] == all[upto.len() as int]) by {
                    assert(s.subrange(open + 1, open + 1 + all.len())[upto.len() as int]
                        == all[upto.len() as int]);
                }
                assert(all.subrange(0, further.len() as int)[upto.len() as int]
                    == further[upto.len() as int]);
                assert(further[upto.len() as int] == 32);
            } else {
                assert(upto == all);
            }
        }
        lemma_token_reads(s, start, item);
        assert(acc.push(item) =~= items.subrange(0, k + 1));
        lemma_items_read(s, open, items, k + 1);
    }
}

/// A value that can be written, shown and then read, is the same value
/// again, and nothing of what was shown is left over.
pub proof fn law_round_trip(v: ValueView)
    requires
        writable(v),
    ensures
        spec_token(render(v), 0) == (Parsed::Done { rest: render(v).len() as int, value: v }),
{
    let s = render(v);
    assert(s.subrange(0, s.len() as int) =~= s);
    lemma_token_reads(s, 0, v);
}

} // verus!
