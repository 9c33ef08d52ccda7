//! What decoding gives on records built from lines.
//!
//! A record is modelled as a sequence of lines, each a key and a value; its
//! text joins `key value` lines with newlines. A record is well formed for a
//! schema when every key is an identifier, no value holds a newline, the value
//! of every schema field is a decimal number that fits in 64 bits, and no
//! schema field is the key of two lines.

use vstd::prelude::*;
use crate::deserializer::{
    decimal_value, decode_line, decode_lines, decode_record, decode_unsigned, field_index,
    first_missing, in_class, is_digit, is_identifier, lemma_run_len, run_len, unbound, ByteClass,
};
use crate::error::DecodeError;

verus! {

/// A line of a record: its key and its value.
pub type Line = (Seq<u8>, Seq<u8>);

pub open spec fn is_key(k: Seq<u8>) -> bool {
    k.len() > 0 && forall|i: int| 0 <= i < k.len() ==> is_identifier(#[trigger] k[i])
}

/// Decimal digits, at least one, of a number that fits in 64 bits.
pub open spec fn is_number(v: Seq<u8>) -> bool {
    &&& v.len() > 0
    &&& forall|i: int| 0 <= i < v.len() ==> is_digit(#[trigger] v[i])
    &&& decimal_value(v) <= u64::MAX
}

pub open spec fn no_newline(v: Seq<u8>) -> bool {
    forall|i: int| 0 <= i < v.len() ==> #[trigger] v[i] != 10
}

/// No name occurs twice in the schema.
pub open spec fn distinct(names: Seq<Seq<u8>>) -> bool {
    forall|i: int, j: int| 0 <= i < j < names.len() ==> names[i] != names[j]
}

pub open spec fn well_formed_line(l: Line, names: Seq<Seq<u8>>) -> bool {
    &&& is_key(l.0)
    &&& no_newline(l.1)
    &&& names.contains(l.0) ==> is_number(l.1)
}

/// Every line is well formed, and no schema field keys two lines.
pub open spec fn well_formed(lines: Seq<Line>, names: Seq<Seq<u8>>) -> bool {
    &&& forall|j: int| 0 <= j < lines.len() ==> well_formed_line(#[trigger] lines[j], names)
    &&& forall|j: int, k: int|
        0 <= j < k < lines.len() && names.contains(lines[j].0) ==> lines[j].0 != lines[k].0
}

/// Some line has key `key`.
pub open spec fn has_key(lines: Seq<Line>, key: Seq<u8>) -> bool {
    exists|j: int| 0 <= j < lines.len() && lines[j].0 == key
}

pub open spec fn line_text(l: Line) -> Seq<u8> {
    l.0 + seq![32u8] + l.1
}

/// The text of a record: its lines joined by newlines.
pub open spec fn record_text(lines: Seq<Line>) -> Seq<u8>
    decreases lines.len(),
{
    if lines.len() == 0 {
        Seq::empty()
    } else if lines.len() == 1 {
        line_text(lines[0])
    } else {
        line_text(lines[0]) + seq![10u8] + record_text(lines.drop_first())
    }
}

/// The text of the lines `pre`, ready for one more line.
pub open spec fn prefix_text(pre: Seq<Line>) -> Seq<u8> {
    if pre.len() == 0 {
        Seq::empty()
    } else {
        record_text(pre) + seq![10u8]
    }
}

/// The fields bound once the line `l` is read.
pub open spec fn bind_line(l: Line, names: Seq<Seq<u8>>, acc: Seq<Option<u64>>) -> Seq<Option<u64>> {
    let idx = field_index(names, l.0, 0);
    if idx >= 0 {
        acc.update(idx, Some(decimal_value(l.1) as u64))
    } else {
        acc
    }
}

/// The fields bound once the lines are read, in order.
pub open spec fn bind_lines(lines: Seq<Line>, names: Seq<Seq<u8>>, acc: Seq<Option<u64>>) -> Seq<
    Option<u64>,
>
    decreases lines.len(),
{
    if lines.len() == 0 {
        acc
    } else {
        bind_lines(lines.drop_first(), names, bind_line(lines[0], names, acc))
    }
}

proof fn lemma_field_index(names: Seq<Seq<u8>>, key: Seq<u8>, m: int)
    requires
        0 <= m <= names.len(),
    ensures
        field_index(names, key, m) == -1 <==> forall|i: int| m <= i < names.len() ==> names[i] != key,
        field_index(names, key, m) != -1 ==> m <= field_index(names, key, m) < names.len()
            && names[field_index(names, key, m)] == key,
    decreases names.len() - m,
{
    if m < names.len() && names[m] != key {
        lemma_field_index(names, key, m + 1);
    }
}

proof fn lemma_field_index_distinct(names: Seq<Seq<u8>>, key: Seq<u8>)
    requires
        distinct(names),
    ensures
        forall|i: int| 0 <= i < names.len() && names[i] == key ==> field_index(names, key, 0) == i,
        !names.contains(key) ==> field_index(names, key, 0) == -1,
        names.contains(key) ==> field_index(names, key, 0) >= 0,
{
    lemma_field_index(names, key, 0);
    assert forall|i: int| 0 <= i < names.len() && names[i] == key implies field_index(names, key, 0)
        == i by {
        let f = field_index(names, key, 0);
        if f != i {
            assert(f != -1);
            if f < i {
                assert(names[f] != names[i]);
            } else {
                assert(names[i] != names[f]);
            }
        }
    }
    if names.contains(key) {
        let i = choose|i: int| 0 <= i < names.len() && names[i] == key;
    }
}

proof fn lemma_run_len_concat(a: Seq<u8>, b: Seq<u8>, c: ByteClass)
    requires
        forall|i: int| 0 <= i < a.len() ==> in_class(#[trigger] a[i], c),
        b.len() == 0 || !in_class(b[0], c),
    ensures
        run_len(a + b, c) == a.len(),
    decreases a.len(),
{
    if a.len() > 0 {
        assert((a + b).drop_first() =~= a.drop_first() + b);
        assert forall|i: int| 0 <= i < a.len() - 1 implies in_class(
            #[trigger] a.drop_first()[i],
            c,
        ) by {
            assert(a.drop_first()[i] == a[i + 1]);
        }
        lemma_run_len_concat(a.drop_first(), b, c);
    } else {
        assert(a + b =~= b);
    }
}

/// Reading a well-formed line binds its field, if it is one, and stops where
/// the line ends.
proof fn lemma_decode_line(l: Line, tail: Seq<u8>, names: Seq<Seq<u8>>, acc: Seq<Option<u64>>)
    requires
        well_formed_line(l, names),
        distinct(names),
        acc.len() == names.len(),
        forall|i: int| 0 <= i < names.len() && names[i] == l.0 ==> acc[i] is None,
        tail.len() == 0 || tail[0] == 10 || (names.contains(l.0) && !is_digit(tail[0])),
    ensures
        decode_line(line_text(l) + tail, names, acc) == Ok::<
            (Seq<Option<u64>>, Seq<u8>),
            DecodeError,
        >((bind_line(l, names, acc), tail)),
{
    let t = line_text(l) + tail;
    let key = l.0;
    let v = l.1;
    let after = seq![32u8] + v + tail;
    assert(t =~= key + after);
    lemma_run_len_concat(key, after, ByteClass::Identifier);
    assert(t.take(key.len() as int) =~= key);
    assert(t.skip(key.len() as int) =~= after);
    assert(after.drop_first() =~= v + tail);
    lemma_field_index_distinct(names, key);
    assert(t[0] == key[0]);
    if names.contains(key) {
        lemma_run_len_concat(v, tail, ByteClass::Digit);
        assert((v + tail).take(v.len() as int) =~= v);
        assert((v + tail).skip(v.len() as int) =~= tail);
        assert((v + tail)[0] == v[0]);
    } else {
        lemma_run_len_concat(v, tail, ByteClass::NotNewline);
        assert((v + tail).skip(v.len() as int) =~= tail);
    }
}

proof fn lemma_record_text_nonempty(lines: Seq<Line>)
    requires
        lines.len() >= 1,
        is_key(lines[0].0),
    ensures
        record_text(lines).len() > 0,
        record_text(lines)[0] == lines[0].0[0],
{
    if lines.len() == 1 {
    } else {
        assert(record_text(lines) == line_text(lines[0]) + seq![10u8] + record_text(lines.drop_first()));
    }
}

/// A line that follows a newline reads as a first line.
proof fn lemma_after_newline(s: Seq<u8>, names: Seq<Seq<u8>>, acc: Seq<Option<u64>>)
    requires
        s.len() > 0,
    ensures
        decode_lines(seq![10u8] + s, names, acc, false) == decode_lines(s, names, acc, true),
{
    assert((seq![10u8] + s).drop_first() =~= s);
}

/// Reading the text of well-formed lines, and then `tail`, binds their fields
/// and goes on with `tail`.
proof fn lemma_decode_lines(
    lines: Seq<Line>,
    tail: Seq<u8>,
    names: Seq<Seq<u8>>,
    acc: Seq<Option<u64>>,
)
    requires
        lines.len() >= 1,
        well_formed(lines, names),
        distinct(names),
        acc.len() == names.len(),
        forall|i: int| 0 <= i < names.len() && has_key(lines, names[i]) ==> acc[i] is None,
        tail.len() == 0 || tail[0] == 10,
    ensures
        decode_lines(record_text(lines) + tail, names, acc, true) == decode_lines(
            tail,
            names,
            bind_lines(lines, names, acc),
            false,
        ),
    decreases lines.len(),
{
    let l = lines[0];
    let rest = lines.drop_first();
    assert(well_formed_line(lines[0], names));
    assert forall|i: int| 0 <= i < names.len() && names[i] == l.0 implies acc[i] is None by {
        assert(has_key(lines, names[i]));
    }
    let acc1 = bind_line(l, names, acc);
    assert(bind_lines(lines, names, acc) == bind_lines(rest, names, acc1));
    if lines.len() == 1 {
        lemma_decode_line(l, tail, names, acc);
        assert(record_text(lines) == line_text(l));
        assert(rest.len() == 0);
        assert(line_text(l).len() > 0);
    } else {
        let s2 = seq![10u8] + record_text(rest) + tail;
        assert(record_text(lines) + tail =~= line_text(l) + s2);
        lemma_decode_line(l, s2, names, acc);
        assert(line_text(l).len() > 0);
        assert((line_text(l) + s2)[0] == l.0[0]);
        assert(well_formed(rest, names)) by {
            assert forall|j: int| 0 <= j < rest.len() implies well_formed_line(#[trigger] rest[j], names) by {
                assert(rest[j] == lines[j + 1]);
            }
            assert forall|j: int, k: int|
                0 <= j < k < rest.len() && names.contains(rest[j].0) implies rest[j].0 != rest[k].0 by {
                assert(rest[j] == lines[j + 1] && rest[k] == lines[k + 1]);
            }
        }
        lemma_field_index_distinct(names, l.0);
        assert forall|i: int| 0 <= i < names.len() && has_key(rest, names[i]) implies acc1[i] is None by {
            let j = choose|j: int| 0 <= j < rest.len() && rest[j].0 == names[i];
            assert(rest[j] == lines[j + 1]);
            assert(has_key(lines, names[i]));
            if names[i] == l.0 {
                assert(names.contains(l.0));
                assert(lines[0].0 != lines[j + 1].0);
            }
        }
        assert(rest[0] == lines[1]);
        lemma_record_text_nonempty(rest);
        assert((record_text(rest) + tail).len() > 0);
        assert(s2 =~= seq![10u8] + (record_text(rest) + tail));
        lemma_after_newline(record_text(rest) + tail, names, acc1);
        lemma_decode_lines(rest, tail, names, acc1);
    }
}

proof fn lemma_well_formed_rest(lines: Seq<Line>, names: Seq<Seq<u8>>)
    requires
        lines.len() >= 1,
        well_formed(lines, names),
    ensures
        well_formed(lines.drop_first(), names),
{
    let rest = lines.drop_first();
    assert forall|j: int| 0 <= j < rest.len() implies well_formed_line(#[trigger] rest[j], names) by {
        assert(rest[j] == lines[j + 1]);
    }
    assert forall|j: int, k: int|
        0 <= j < k < rest.len() && names.contains(rest[j].0) implies rest[j].0 != rest[k].0 by {
        assert(rest[j] == lines[j + 1] && rest[k] == lines[k + 1]);
    }
}

/// The value bound to each field once the lines are read: that of the line
/// keyed by it, else what was bound before.
proof fn lemma_bind_lines(lines: Seq<Line>, names: Seq<Seq<u8>>, acc: Seq<Option<u64>>)
    requires
        well_formed(lines, names),
        distinct(names),
        acc.len() == names.len(),
    ensures
        bind_lines(lines, names, acc).len() == names.len(),
        forall|i: int|
            0 <= i < names.len() && !has_key(lines, names[i]) ==> #[trigger] bind_lines(
                lines,
                names,
                acc,
            )[i] == acc[i],
        forall|i: int, j: int|
            0 <= i < names.len() && 0 <= j < lines.len() && lines[j].0 == names[i] ==> #[trigger] bind_lines(
                lines,
                names,
                acc,
            )[i] == Some(decimal_value(#[trigger] lines[j].1) as u64),
    decreases lines.len(),
{
    if lines.len() > 0 {
        let l = lines[0];
        let rest = lines.drop_first();
        let acc1 = bind_line(l, names, acc);
        let r = bind_lines(lines, names, acc);
        lemma_well_formed_rest(lines, names);
        lemma_field_index_distinct(names, l.0);
        lemma_field_index(names, l.0, 0);
        lemma_bind_lines(rest, names, acc1);
        assert forall|i: int| 0 <= i < names.len() && !has_key(lines, names[i]) implies #[trigger] r[i]
            == acc[i] by {
            assert(lines[0].0 != names[i]);
            if has_key(rest, names[i]) {
                let j = choose|j: int| 0 <= j < rest.len() && rest[j].0 == names[i];
                assert(rest[j] == lines[j + 1]);
            }
        }
        assert forall|i: int, j: int|
            0 <= i < names.len() && 0 <= j < lines.len() && lines[j].0 == names[i] implies #[trigger] r[i]
            == Some(decimal_value(#[trigger] lines[j].1) as u64) by {
            if names[i] == l.0 {
                assert(names.contains(l.0));
                if j > 0 {
                    assert(lines[0].0 != lines[j].0);
                }
                if has_key(rest, names[i]) {
                    let k = choose|k: int| 0 <= k < rest.len() && rest[k].0 == names[i];
                    assert(rest[k] == lines[k + 1]);
                    assert(lines[0].0 != lines[k + 1].0);
                }
            } else {
                assert(j > 0);
                assert(rest[j - 1] == lines[j]);
            }
        }
    }
}

/// Reading `pre`'s text, a newline and then `bad`, goes on with `bad` as a
/// first line once the fields of `pre` are bound.
proof fn lemma_prefix(pre: Seq<Line>, bad: Seq<u8>, names: Seq<Seq<u8>>)
    requires
        well_formed(pre, names),
        distinct(names),
        bad.len() > 0,
    ensures
        decode_lines(prefix_text(pre) + bad, names, unbound(names.len()), true) == decode_lines(
            bad,
            names,
            bind_lines(pre, names, unbound(names.len())),
            true,
        ),
{
    if pre.len() == 0 {
        assert(prefix_text(pre) + bad =~= bad);
    } else {
        let tail = seq![10u8] + bad;
        assert(prefix_text(pre) + bad =~= record_text(pre) + tail);
        lemma_decode_lines(pre, tail, names, unbound(names.len()));
        lemma_after_newline(bad, names, bind_lines(pre, names, unbound(names.len())));
    }
}

/// Decoding the text of a well-formed record in which every schema field keys
/// a line succeeds, and gives each field the value on its line, whatever other
/// lines there are and wherever they stand.
pub proof fn lemma_decode_well_formed(lines: Seq<Line>, names: Seq<Seq<u8>>)
    requires
        well_formed(lines, names),
        distinct(names),
        forall|i: int| 0 <= i < names.len() ==> has_key(lines, #[trigger] names[i]),
    ensures
        decode_record(record_text(lines), names) matches Ok(v) && v.len() == names.len() && forall|
            i: int,
            j: int,
        |
            0 <= i < names.len() && 0 <= j < lines.len() && lines[j].0 == names[i] ==> #[trigger] v[i]
                == decimal_value(#[trigger] lines[j].1),
{
    let u = unbound(names.len());
    let acc = bind_lines(lines, names, u);
    lemma_bind_lines(lines, names, u);
    if lines.len() > 0 {
        assert(record_text(lines) + Seq::<u8>::empty() =~= record_text(lines));
        lemma_decode_lines(lines, Seq::empty(), names, u);
    } else {
        if names.len() > 0 {
            assert(has_key(lines, names[0]));
        }
    }
    assert forall|i: int| 0 <= i < acc.len() implies #[trigger] acc[i] is Some by {
        assert(has_key(lines, names[i]));
        let j = choose|j: int| 0 <= j < lines.len() && lines[j].0 == names[i];
        assert(acc[i] == Some(decimal_value(lines[j].1) as u64));
    }
    let v = acc.map_values(|o: Option<u64>| o.unwrap());
    assert(decode_record(record_text(lines), names) == Ok::<Seq<u64>, DecodeError>(v));
    assert forall|i: int, j: int|
        0 <= i < names.len() && 0 <= j < lines.len() && lines[j].0 == names[i] implies #[trigger] v[i]
        == decimal_value(#[trigger] lines[j].1) by {
        assert(acc[i] == Some(decimal_value(lines[j].1) as u64));
        assert(well_formed_line(lines[j], names));
        assert(names.contains(lines[j].0));
    }
}

/// Decoding the text of a well-formed record fails with a missing-field error
/// for the first schema field that keys no line.
pub proof fn lemma_decode_missing_field(lines: Seq<Line>, names: Seq<Seq<u8>>, i: int)
    requires
        well_formed(lines, names),
        distinct(names),
        0 <= i < names.len(),
        !has_key(lines, names[i]),
        forall|k: int| 0 <= k < i ==> has_key(lines, #[trigger] names[k]),
    ensures
        decode_record(record_text(lines), names) == Err::<Seq<u64>, DecodeError>(
            DecodeError::MissingField(i as usize),
        ),
{
    let u = unbound(names.len());
    let acc = bind_lines(lines, names, u);
    lemma_bind_lines(lines, names, u);
    if lines.len() > 0 {
        assert(record_text(lines) + Seq::<u8>::empty() =~= record_text(lines));
        lemma_decode_lines(lines, Seq::empty(), names, u);
    }
    assert(acc[i] is None);
    assert forall|k: int| 0 <= k < i implies #[trigger] acc[k] is Some by {
        assert(has_key(lines, names[k]));
        let j = choose|j: int| 0 <= j < lines.len() && lines[j].0 == names[k];
        assert(acc[k] == Some(decimal_value(lines[j].1) as u64));
    }
    let c = first_missing(acc);
    assert(0 <= i < acc.len() && acc[i] is None && forall|k: int| 0 <= k < i ==> acc[k] is Some);
    if c < i {
        assert(acc[c] is Some);
    } else if c > i {
        assert(acc[i] is Some);
    }
}

/// Decoding stopped on malformed text (not on a missing field).
pub open spec fn fails_to_parse(r: Result<Seq<Option<u64>>, DecodeError>) -> bool {
    r matches Err(e) && !(e is MissingField)
}

/// `pre` ends where a line may start: it is empty or ends with a newline.
pub open spec fn at_line_start(pre: Seq<u8>) -> bool {
    pre.len() == 0 || pre.last() == 10
}

/// A line is read no further than the first newline in it.
proof fn lemma_line_stops_at_newline(
    t: Seq<u8>,
    names: Seq<Seq<u8>>,
    acc: Seq<Option<u64>>,
    m: int,
)
    requires
        0 <= m < t.len(),
        t[m] == 10,
    ensures
        decode_line(t, names, acc) matches Ok(p) ==> exists|n: int| 1 <= n <= m && p.1 == t.skip(n),
        decode_line(t, names, acc) matches Err(e) ==> !(e is MissingField),
{
    let k = run_len(t, ByteClass::Identifier);
    lemma_run_len(t, ByteClass::Identifier);
    if m < k {
        assert(in_class(t[m], ByteClass::Identifier));
    }
    if let Ok(p) = decode_line(t, names, acc) {
        let v = t.skip(k as int).drop_first();
        assert(t.skip(k as int)[0] == t[k as int]);
        assert(m > k);
        assert(v =~= t.skip((k + 1) as int));
        assert(v[m - k - 1] == t[m]);
        let idx = field_index(names, t.take(k as int), 0);
        if idx < 0 {
            let r = run_len(v, ByteClass::NotNewline);
            lemma_run_len(v, ByteClass::NotNewline);
            if r > m - k - 1 {
                assert(in_class(v[m - k - 1], ByteClass::NotNewline));
            }
            assert(p.1 =~= t.skip((k + 1 + r) as int));
        } else {
            let d = run_len(v, ByteClass::Digit);
            lemma_run_len(v, ByteClass::Digit);
            if d > m - k - 1 {
                assert(in_class(v[m - k - 1], ByteClass::Digit));
            }
            assert(p.1 =~= t.skip((k + 1 + d) as int));
        }
    }
}

/// Where a failing line follows a newline, the text fails to decode, whatever
/// stands before: either that part fails first, or decoding reaches the line.
proof fn lemma_fails_after(
    q: Seq<u8>,
    bad: Seq<u8>,
    names: Seq<Seq<u8>>,
    acc: Seq<Option<u64>>,
    first: bool,
)
    requires
        forall|a: Seq<Option<u64>>| fails_to_parse(#[trigger] decode_lines(bad, names, a, true)),
    ensures
        fails_to_parse(decode_lines(q + seq![10u8] + bad, names, acc, first)),
    decreases q.len(),
{
    let s = q + seq![10u8] + bad;
    assert(fails_to_parse(decode_lines(bad, names, acc, true)));
    assert(bad.len() > 0);
    if !first && q.len() == 0 {
        assert(s =~= seq![10u8] + bad);
        lemma_after_newline(bad, names, acc);
    } else if !first && q[0] != 10 {
        assert(s[0] == q[0]);
    } else {
        let t = if first {
            s
        } else {
            s.drop_first()
        };
        let q1 = if first {
            q
        } else {
            q.drop_first()
        };
        assert(t =~= q1 + seq![10u8] + bad);
        if q1.len() == 0 {
            assert(t[0] == 10);
        } else {
            lemma_line_stops_at_newline(t, names, acc, q1.len() as int);
            if let Ok(p) = decode_line(t, names, acc) {
                let n = choose|n: int| 1 <= n <= q1.len() && p.1 == t.skip(n);
                let q2 = q1.skip(n);
                assert(p.1 =~= q2 + seq![10u8] + bad);
                lemma_fails_after(q2, bad, names, p.0, false);
            }
        }
    }
}

/// A line that fails to decode, wherever it starts a line, makes the record
/// fail with a parse error.
proof fn lemma_fails_at_line(pre: Seq<u8>, bad: Seq<u8>, names: Seq<Seq<u8>>)
    requires
        at_line_start(pre),
        forall|a: Seq<Option<u64>>| fails_to_parse(#[trigger] decode_lines(bad, names, a, true)),
    ensures
        decode_record(pre + bad, names) matches Err(e) && !(e is MissingField),
{
    let u = unbound(names.len());
    if pre.len() == 0 {
        assert(pre + bad =~= bad);
        assert(fails_to_parse(decode_lines(bad, names, u, true)));
    } else {
        let q = pre.drop_last();
        assert(pre + bad =~= q + seq![10u8] + bad);
        lemma_fails_after(q, bad, names, u, true);
    }
}

/// A line whose key is followed by the end of the text, or by a byte other
/// than a space, fails to decode with a parse error, whatever the rest of the
/// record holds.
pub proof fn lemma_decode_missing_space(
    pre: Seq<u8>,
    key: Seq<u8>,
    tail: Seq<u8>,
    names: Seq<Seq<u8>>,
)
    requires
        at_line_start(pre),
        is_key(key),
        tail.len() == 0 || (tail[0] != 32 && !is_identifier(tail[0])),
    ensures
        decode_record(pre + key + tail, names) matches Err(e) && !(e is MissingField),
{
    let bad = key + tail;
    lemma_run_len_concat(key, tail, ByteClass::Identifier);
    assert(bad.take(key.len() as int) =~= key);
    assert(bad.skip(key.len() as int) =~= tail);
    assert(bad[0] == key[0]);
    assert forall|a: Seq<Option<u64>>| fails_to_parse(#[trigger] decode_lines(bad, names, a, true)) by {
        assert(bad.len() > 0);
    }
    assert(pre + key + tail =~= pre + bad);
    lemma_fails_at_line(pre, bad, names);
}

/// A line that gives a schema field a value that is not a nonempty run of
/// decimal digits fails to decode with a parse error, whatever the rest of the
/// record holds.
pub proof fn lemma_decode_not_a_number(
    pre: Seq<u8>,
    i: int,
    v: Seq<u8>,
    tail: Seq<u8>,
    names: Seq<Seq<u8>>,
)
    requires
        at_line_start(pre),
        0 <= i < names.len(),
        is_key(names[i]),
        no_newline(v),
        tail.len() == 0 || tail[0] == 10,
        !(v.len() > 0 && forall|j: int| 0 <= j < v.len() ==> is_digit(#[trigger] v[j])),
    ensures
        decode_record(pre + names[i] + seq![32u8] + v + tail, names) matches Err(e) && !(e is MissingField),
{
    let key = names[i];
    let after = seq![32u8] + v + tail;
    let bad = key + after;
    let w = v + tail;
    lemma_run_len_concat(key, after, ByteClass::Identifier);
    assert(bad.take(key.len() as int) =~= key);
    assert(bad.skip(key.len() as int) =~= after);
    assert(after.drop_first() =~= w);
    assert(bad[0] == key[0]);
    lemma_field_index(names, key, 0);
    let d = run_len(w, ByteClass::Digit);
    lemma_run_len(w, ByteClass::Digit);
    if v.len() > 0 && is_digit(v[0]) {
        let j = choose|j: int| 0 <= j < v.len() && !is_digit(v[j]);
        assert(w[j] == v[j]);
        if d > j {
            assert(in_class(w[j], ByteClass::Digit));
        }
        assert(w[d as int] == v[d as int]);
        assert(w.skip(d as int)[0] == w[d as int]);
    } else if v.len() == 0 {
        assert(w =~= tail);
    } else {
        assert(w[0] == v[0]);
    }
    assert(decode_unsigned(w) is Ok ==> d < w.len() && w.skip(d as int)[0] != 10);
    let idx = field_index(names, key, 0);
    assert(idx != -1);
    assert forall|a: Seq<Option<u64>>| fails_to_parse(#[trigger] decode_lines(bad, names, a, true)) by {
        assert(bad.len() > 0);
        if a[idx] is None {
            if let Ok(x) = decode_unsigned(w) {
                let a1 = a.update(idx, Some(x));
                let rest = w.skip(d as int);
                assert(decode_line(bad, names, a) == Ok::<(Seq<Option<u64>>, Seq<u8>), DecodeError>(
                    (a1, rest),
                ));
                assert(decode_lines(rest, names, a1, false) == Err::<Seq<Option<u64>>, DecodeError>(
                    DecodeError::ExpectedNewline,
                ));
            }
        }
    }
    assert(pre + names[i] + seq![32u8] + v + tail =~= pre + bad);
    lemma_fails_at_line(pre, bad, names);
}

/// A newline after the last line leaves an empty line, which fails to decode.
pub proof fn lemma_decode_trailing_newline(lines: Seq<Line>, names: Seq<Seq<u8>>)
    requires
        lines.len() >= 1,
        well_formed(lines, names),
        distinct(names),
    ensures
        decode_record(record_text(lines) + seq![10u8], names) == Err::<Seq<u64>, DecodeError>(
            DecodeError::Eof,
        ),
{
    let u = unbound(names.len());
    lemma_decode_lines(lines, seq![10u8], names, u);
    assert(seq![10u8].drop_first() =~= Seq::<u8>::empty());
}

/// Input left after the value of a schema field on the last line fails to
/// decode.
pub proof fn lemma_decode_trailing_characters(
    pre: Seq<Line>,
    last: Line,
    extra: Seq<u8>,
    names: Seq<Seq<u8>>,
)
    requires
        well_formed(pre, names),
        well_formed_line(last, names),
        names.contains(last.0),
        !has_key(pre, last.0),
        distinct(names),
        extra.len() > 0,
        extra[0] != 10,
        !is_digit(extra[0]),
    ensures
        decode_record(prefix_text(pre) + line_text(last) + extra, names) == Err::<
            Seq<u64>,
            DecodeError,
        >(DecodeError::ExpectedNewline),
{
    let u = unbound(names.len());
    let bad = line_text(last) + extra;
    assert(bad.len() > 0);
    assert(prefix_text(pre) + line_text(last) + extra =~= prefix_text(pre) + bad);
    lemma_prefix(pre, bad, names);
    let a = bind_lines(pre, names, u);
    lemma_bind_lines(pre, names, u);
    lemma_decode_line(last, extra, names, a);
    assert(bad[0] == last.0[0]);
    let a1 = bind_line(last, names, a);
    assert(decode_lines(bad, names, a, true) == decode_lines(extra, names, a1, false));
    assert(decode_lines(extra, names, a1, false) == Err::<Seq<Option<u64>>, DecodeError>(
        DecodeError::ExpectedNewline,
    ));
}

} // verus!
