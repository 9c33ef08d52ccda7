//! The decoder of the control-group attribute format.
//!
//! A record is a sequence of lines `key value` separated by single newlines:
//!
//! ```text
//! record := line ("\n" line)*
//! line   := key " " value
//! key    := identifier-byte+          (ascii alphanumeric or '_')
//! ```
//!
//! Decoding is driven by a schema: a list of field names whose values are
//! unsigned decimal integers. A line whose key is a schema field binds that
//! field; any other line is skipped up to the next newline. Every schema field
//! must be bound exactly once.

use vstd::prelude::*;
use vstd::string::StringSliceAdditionalSpecFns;
use crate::error::{CGroupError, CGroupErrorKind, DecodeError};

verus! {

/// The classes of bytes that the decoder scans over.
#[derive(Debug, Clone, Copy, PartialEq, Eq, Structural)]
pub enum ByteClass {
    Identifier,
    Digit,
    NotNewline,
    /// ASCII whitespace: space, tab, newline, vertical tab, form feed,
    /// carriage return.
    Whitespace,
}

pub open spec fn is_digit(b: u8) -> bool {
    48 <= b && b <= 57
}

pub open spec fn is_identifier(b: u8) -> bool {
    is_digit(b) || (65 <= b && b <= 90) || (97 <= b && b <= 122) || b == 95
}

pub open spec fn in_class(b: u8, c: ByteClass) -> bool {
    match c {
        ByteClass::Identifier => is_identifier(b),
        ByteClass::Digit => is_digit(b),
        ByteClass::NotNewline => b != 10,
        ByteClass::Whitespace => b == 32 || (9 <= b && b <= 13),
    }
}

/// The length of the longest prefix of `s` whose bytes are all in class `c`.
pub open spec fn run_len(s: Seq<u8>, c: ByteClass) -> nat
    decreases s.len(),
{
    if s.len() > 0 && in_class(s[0], c) {
        1 + run_len(s.drop_first(), c)
    } else {
        0
    }
}

/// The number that a sequence of decimal digits denotes.
pub open spec fn decimal_value(d: Seq<u8>) -> nat
    decreases d.len(),
{
    if d.len() == 0 {
        0
    } else {
        decimal_value(d.drop_last()) * 10 + (d.last() - 48) as nat
    }
}

/// The unsigned integer at the front of `v`.
pub open spec fn decode_unsigned(v: Seq<u8>) -> Result<u64, DecodeError> {
    let n = run_len(v, ByteClass::Digit);
    if v.len() == 0 {
        Err(DecodeError::Eof)
    } else if !is_digit(v[0]) {
        Err(DecodeError::ExpectedInteger)
    } else if decimal_value(v.take(n as int)) > u64::MAX {
        Err(DecodeError::Overflow)
    } else {
        Ok(decimal_value(v.take(n as int)) as u64)
    }
}

/// The position of the first schema name, from position `i` on, equal to
/// `key`; -1 where there is none.
pub open spec fn field_index(names: Seq<Seq<u8>>, key: Seq<u8>, i: int) -> int
    decreases names.len() - i,
{
    if i < 0 || i >= names.len() {
        -1
    } else if names[i] == key {
        i
    } else {
        field_index(names, key, i + 1)
    }
}

/// Decodes the line at the front of `t`, given the fields bound so far. On
/// success, gives the fields bound after it and what follows the line.
pub open spec fn decode_line(t: Seq<u8>, names: Seq<Seq<u8>>, acc: Seq<Option<u64>>) -> Result<
    (Seq<Option<u64>>, Seq<u8>),
    DecodeError,
> {
    let k = run_len(t, ByteClass::Identifier);
    let idx = field_index(names, t.take(k as int), 0);
    let after_key = t.skip(k as int);
    let v = after_key.drop_first();
    if t.len() == 0 {
        Err(DecodeError::Eof)
    } else if !is_identifier(t[0]) {
        Err(DecodeError::ExpectedString)
    } else if idx >= 0 && acc[idx] is Some {
        Err(DecodeError::DuplicateField(idx as usize))
    } else if after_key.len() == 0 {
        Err(DecodeError::Eof)
    } else if after_key[0] != 32 {
        Err(DecodeError::ExpectedWhitespace)
    } else if idx < 0 {
        Ok((acc, v.skip(run_len(v, ByteClass::NotNewline) as int)))
    } else {
        match decode_unsigned(v) {
            Err(e) => Err(e),
            Ok(x) => Ok((acc.update(idx, Some(x)), v.skip(run_len(v, ByteClass::Digit) as int))),
        }
    }
}

/// Decodes the lines of `s`; `first` tells whether `s` starts a line (else it
/// must start with the newline that ends the line before).
pub open spec fn decode_lines(
    s: Seq<u8>,
    names: Seq<Seq<u8>>,
    acc: Seq<Option<u64>>,
    first: bool,
) -> Result<Seq<Option<u64>>, DecodeError>
    decreases s.len(),
{
    if s.len() == 0 {
        Ok(acc)
    } else if !first && s[0] != 10 {
        Err(DecodeError::ExpectedNewline)
    } else {
        let t = if first {
            s
        } else {
            s.drop_first()
        };
        match decode_line(t, names, acc) {
            Err(e) => Err(e),
            Ok(p) => {
                proof {
                    lemma_decode_line_shrinks(t, names, acc);
                }
                decode_lines(p.1, names, p.0, false)
            },
        }
    }
}

/// The position of the first unbound field.
pub open spec fn first_missing(acc: Seq<Option<u64>>) -> int {
    choose|i: int|
        0 <= i < acc.len() && acc[i] is None && forall|j: int| 0 <= j < i ==> acc[j] is Some
}

/// The values of the fields once all lines are read: every field must be bound.
pub open spec fn complete(acc: Seq<Option<u64>>) -> Result<Seq<u64>, DecodeError> {
    if exists|i: int| 0 <= i < acc.len() && acc[i] is None {
        Err(DecodeError::MissingField(first_missing(acc) as usize))
    } else {
        Ok(acc.map_values(|o: Option<u64>| o.unwrap()))
    }
}

/// No field bound.
pub open spec fn unbound(n: nat) -> Seq<Option<u64>> {
    Seq::new(n, |i: int| None::<u64>)
}

/// The result of decoding the record `s` against the schema `names`: the
/// value of each field, in the order of the schema.
pub open spec fn decode_record(s: Seq<u8>, names: Seq<Seq<u8>>) -> Result<Seq<u64>, DecodeError> {
    match decode_lines(s, names, unbound(names.len()), true) {
        Err(e) => Err(e),
        Ok(acc) => complete(acc),
    }
}

/// The bytes of each schema field's name.
pub open spec fn field_names(fields: Seq<&str>) -> Seq<Seq<u8>> {
    fields.map_values(|f: &str| f.spec_bytes())
}

pub proof fn lemma_run_len(s: Seq<u8>, c: ByteClass)
    ensures
        run_len(s, c) <= s.len(),
        forall|k: int| 0 <= k < run_len(s, c) ==> in_class(#[trigger] s[k], c),
        run_len(s, c) < s.len() ==> !in_class(s[run_len(s, c) as int], c),
    decreases s.len(),
{
    if s.len() > 0 && in_class(s[0], c) {
        lemma_run_len(s.drop_first(), c);
        assert forall|k: int| 0 <= k < run_len(s, c) implies in_class(#[trigger] s[k], c) by {
            if k > 0 {
                assert(s[k] == s.drop_first()[k - 1]);
            }
        }
    }
}

pub proof fn lemma_decode_line_shrinks(t: Seq<u8>, names: Seq<Seq<u8>>, acc: Seq<Option<u64>>)
    ensures
        decode_line(t, names, acc) matches Ok(p) ==> p.1.len() < t.len(),
{
    let k = run_len(t, ByteClass::Identifier);
    lemma_run_len(t, ByteClass::Identifier);
    let v = t.skip(k as int).drop_first();
    lemma_run_len(v, ByteClass::NotNewline);
    lemma_run_len(v, ByteClass::Digit);
}


pub proof fn lemma_decimal_prefix(d: Seq<u8>, k: int)
    requires
        0 <= k <= d.len(),
    ensures
        decimal_value(d.take(k)) <= decimal_value(d),
    decreases d.len(),
{
    if k < d.len() {
        assert(d.drop_last().take(k) =~= d.take(k));
        lemma_decimal_prefix(d.drop_last(), k);
    } else {
        assert(d.take(k) =~= d);
    }
}

pub proof fn lemma_decimal_step(v: Seq<u8>, k: int)
    requires
        0 <= k < v.len(),
    ensures
        decimal_value(v.take(k + 1)) == decimal_value(v.take(k)) * 10 + (v[k] - 48) as nat,
{
    assert(v.take(k + 1).drop_last() =~= v.take(k));
}

/// A cursor over the bytes of a record.
pub struct Deserializer<'de> {
    input: &'de [u8],
    pos: usize,
}

fn in_class_exec(b: u8, c: ByteClass) -> (r: bool)
    ensures
        r == in_class(b, c),
{
    match c {
        ByteClass::Identifier => (48u8 <= b && b <= 57u8) || (65u8 <= b && b <= 90u8) || (97u8 <= b
            && b <= 122u8) || b == 95u8,
        ByteClass::Digit => 48u8 <= b && b <= 57u8,
        ByteClass::NotNewline => b != 10u8,
        ByteClass::Whitespace => b == 32u8 || (9u8 <= b && b <= 13u8),
    }
}

impl<'de> Deserializer<'de> {
    /// The cursor lies within the input.
    pub closed spec fn wf(&self) -> bool {
        self.pos <= self.input@.len()
    }

    /// The whole input.
    pub closed spec fn source(&self) -> Seq<u8> {
        self.input@
    }

    /// The input not yet consumed.
    pub closed spec fn rest(&self) -> Seq<u8> {
        self.input@.subrange(self.pos as int, self.input@.len() as int)
    }

    pub fn from_str(input: &'de str) -> (r: Self)
        ensures
            r.wf(),
            r.rest() == input.spec_bytes(),
    {
        let r = Deserializer { input: input.as_bytes(), pos: 0 };
        assert(r.rest() =~= input.spec_bytes());
        r
    }

    fn is_eof(&self) -> (r: bool)
        requires
            self.wf(),
        ensures
            r == (self.rest().len() == 0),
    {
        self.pos == self.input.len()
    }

    fn peek_char(&self) -> (r: Result<u8, DecodeError>)
        requires
            self.wf(),
        ensures
            self.rest().len() == 0 ==> r == Err::<u8, DecodeError>(DecodeError::Eof),
            self.rest().len() > 0 ==> r == Ok::<u8, DecodeError>(self.rest()[0]),
    {
        if self.pos < self.input.len() {
            Ok(self.input[self.pos])
        } else {
            Err(DecodeError::Eof)
        }
    }

    fn next_char(&mut self) -> (r: Result<u8, DecodeError>)
        requires
            old(self).wf(),
        ensures
            final(self).wf(),
            final(self).source() == old(self).source(),
            old(self).rest().len() == 0 ==> r == Err::<u8, DecodeError>(DecodeError::Eof)
                && final(self).rest() == old(self).rest(),
            old(self).rest().len() > 0 ==> r == Ok::<u8, DecodeError>(old(self).rest()[0])
                && final(self).rest() == old(self).rest().drop_first() && final(self).pos == old(
                self,
            ).pos + 1,
    {
        if self.pos < self.input.len() {
            let ch = self.input[self.pos];
            self.pos = self.pos + 1;
            assert(self.rest() =~= old(self).rest().drop_first());
            Ok(ch)
        } else {
            Err(DecodeError::Eof)
        }
    }

    /// Moves over the run of bytes of class `c` at the front of the rest.
    fn skip_run(&mut self, c: ByteClass) -> (n: usize)
        requires
            old(self).wf(),
        ensures
            final(self).wf(),
            final(self).source() == old(self).source(),
            n == run_len(old(self).rest(), c),
            final(self).rest() == old(self).rest().skip(n as int),
            final(self).pos == old(self).pos + n,
    {
        let ghost v = self.rest();
        let start = self.pos;
        proof {
            lemma_run_len(v, c);
        }
        while self.pos < self.input.len() && in_class_exec(self.input[self.pos], c)
            invariant
                self.wf(),
                v == self.input@.subrange(start as int, self.input@.len() as int),
                run_len(v, c) <= v.len(),
                forall|k: int| 0 <= k < run_len(v, c) ==> in_class(#[trigger] v[k], c),
                run_len(v, c) < v.len() ==> !in_class(v[run_len(v, c) as int], c),
                self.source() == old(self).source(),
                start <= self.pos,
                v == old(self).rest(),
                self.pos - start <= run_len(v, c),
                self.rest() == v.skip(self.pos - start),
                v.len() == self.input@.len() - start,
            decreases self.input@.len() - self.pos,
        {
            assert(v[self.pos - start] == self.input@[self.pos as int]);
            self.pos = self.pos + 1;
            assert(self.rest() =~= v.skip(self.pos - start));
        }
        if self.pos < self.input.len() {
            assert(v[self.pos - start] == self.input@[self.pos as int]);
        }
        self.pos - start
    }

    fn parse_unsigned(&mut self) -> (r: Result<u64, DecodeError>)
        requires
            old(self).wf(),
        ensures
            final(self).wf(),
            final(self).source() == old(self).source(),
            r == decode_unsigned(old(self).rest()),
            r is Ok ==> final(self).rest() == old(self).rest().skip(
                run_len(old(self).rest(), ByteClass::Digit) as int,
            ),
    {
        let ghost v = self.rest();
        let ghost n = run_len(v, ByteClass::Digit);
        proof {
            lemma_run_len(v, ByteClass::Digit);
        }
        let start = self.pos;
        let first = match self.next_char() {
            Err(e) => return Err(e),
            Ok(ch) => ch,
        };
        if !(48u8 <= first && first <= 57u8) {
            return Err(DecodeError::ExpectedInteger);
        }
        let mut acc: u64 = (first - 48u8) as u64;
        proof {
            lemma_decimal_step(v, 0);
            assert(v.take(0) =~= Seq::<u8>::empty());
        }
        while self.pos < self.input.len() && 48u8 <= self.input[self.pos] && self.input[self.pos]
            <= 57u8
            invariant
                self.wf(),
                self.source() == old(self).source(),
                v == self.input@.subrange(start as int, self.input@.len() as int),
                v == old(self).rest(),
                n == run_len(v, ByteClass::Digit),
                start < self.pos,
                self.pos - start <= n,
                n <= v.len(),
                self.rest() == v.skip(self.pos - start),
                acc == decimal_value(v.take(self.pos - start)),
                forall|j: int| 0 <= j < n ==> in_class(#[trigger] v[j], ByteClass::Digit),
                n < v.len() ==> !in_class(v[n as int], ByteClass::Digit),
            decreases self.input@.len() - self.pos,
        {
            let ghost k = self.pos - start;
            let ch = self.input[self.pos];
            assert(ch == v[k]);
            assert(k < n);
            proof {
                lemma_decimal_step(v, k);
            }
            let d = (ch - 48u8) as u64;
            let next = match acc.checked_mul(10) {
                None => None,
                Some(m) => m.checked_add(d),
            };
            match next {
                None => {
                    proof {
                        assert(decimal_value(v.take(k + 1)) > u64::MAX);
                        assert(v.take(n as int).take(k + 1) =~= v.take(k + 1));
                        lemma_decimal_prefix(v.take(n as int), k + 1);
                    }
                    return Err(DecodeError::Overflow);
                },
                Some(x) => {
                    acc = x;
                    self.pos = self.pos + 1;
                    assert(self.rest() =~= v.skip(self.pos - start));
                },
            }
        }
        if self.pos < self.input.len() {
            assert(v[self.pos - start] == self.input@[self.pos as int]);
        }
        Ok(acc)
    }

    /// Reads a key: the run of identifier bytes at the front of the rest.
    fn parse_string(&mut self) -> (r: Result<&'de [u8], DecodeError>)
        requires
            old(self).wf(),
        ensures
            final(self).wf(),
            final(self).source() == old(self).source(),
            r is Err ==> final(self).rest() == old(self).rest(),
            old(self).rest().len() == 0 ==> (r matches Err(e) && e == DecodeError::Eof),
            old(self).rest().len() > 0 && !is_identifier(old(self).rest()[0]) ==> (r matches Err(e)
                && e == DecodeError::ExpectedString),
            old(self).rest().len() > 0 && is_identifier(old(self).rest()[0]) ==> (r matches Ok(key)
                && key@ == old(self).rest().take(
                run_len(old(self).rest(), ByteClass::Identifier) as int,
            ) && final(self).rest() == old(self).rest().skip(
                run_len(old(self).rest(), ByteClass::Identifier) as int,
            )),
    {
        let ch = match self.peek_char() {
            Err(e) => return Err(e),
            Ok(ch) => ch,
        };
        if !in_class_exec(ch, ByteClass::Identifier) {
            return Err(DecodeError::ExpectedString);
        }
        let ghost v = self.rest();
        let start = self.pos;
        let n = self.skip_run(ByteClass::Identifier);
        let key = vstd::slice::slice_subrange(self.input, start, start + n);
        assert(key@ =~= v.take(n as int));
        Ok(key)
    }
}


/// Whether two byte strings are equal.
fn bytes_eq(a: &[u8], b: &[u8]) -> (r: bool)
    ensures
        r == (a@ == b@),
{
    if a.len() != b.len() {
        return false;
    }
    let mut i: usize = 0;
    while i < a.len()
        invariant
            a@.len() == b@.len(),
            i <= a@.len(),
            forall|j: int| 0 <= j < i ==> a@[j] == b@[j],
        decreases a@.len() - i,
    {
        if a[i] != b[i] {
            return false;
        }
        i = i + 1;
    }
    assert(a@ =~= b@);
    true
}

/// The position in the schema of the field named `key`.
fn find_field(fields: &[&str], key: &[u8]) -> (r: Option<usize>)
    ensures
        r matches Some(i) ==> field_index(field_names(fields@), key@, 0) == i && i < fields@.len(),
        r is None ==> field_index(field_names(fields@), key@, 0) == -1,
{
    let ghost names = field_names(fields@);
    let mut i: usize = 0;
    while i < fields.len()
        invariant
            names == field_names(fields@),
            i <= fields@.len(),
            field_index(names, key@, 0) == field_index(names, key@, i as int),
        decreases fields@.len() - i,
    {
        if bytes_eq(fields[i].as_bytes(), key) {
            return Some(i);
        }
        i = i + 1;
    }
    None
}

impl<'de> Deserializer<'de> {
    /// Decodes the record in the rest of the input against the schema
    /// `fields`, whose values are unsigned integers; gives them in the order of
    /// the schema.
    pub fn deserialize_struct(&mut self, fields: &[&str]) -> (r: Result<Vec<u64>, DecodeError>)
        requires
            old(self).wf(),
        ensures
            final(self).wf(),
            match r {
                Ok(v) => decode_record(old(self).rest(), field_names(fields@)) == Ok::<
                    Seq<u64>,
                    DecodeError,
                >(v@) && final(self).rest().len() == 0,
                Err(e) => decode_record(old(self).rest(), field_names(fields@)) == Err::<
                    Seq<u64>,
                    DecodeError,
                >(e),
            },
            r matches Ok(v) ==> v@.len() == fields@.len(),
            r matches Err(DecodeError::DuplicateField(i)) ==> i < fields@.len(),
            r matches Err(DecodeError::MissingField(i)) ==> i < fields@.len(),
    {
        let ghost names = field_names(fields@);
        let ghost whole = decode_lines(old(self).rest(), names, unbound(names.len()), true);
        let mut acc: Vec<Option<u64>> = Vec::new();
        let mut i: usize = 0;
        while i < fields.len()
            invariant
                i <= fields@.len(),
                acc@ =~= unbound(i as nat),
            decreases fields@.len() - i,
        {
            acc.push(None);
            i = i + 1;
        }
        let mut first = true;
        loop
            invariant
                self.wf(),
                names == field_names(fields@),
                acc@.len() == fields@.len(),
                whole == decode_lines(old(self).rest(), names, unbound(names.len()), true),
                whole == decode_lines(self.rest(), names, acc@, first),
            ensures
                self.rest().len() == 0,
            decreases self.rest().len(),
        {
            if self.is_eof() {
                break;
            }
            let ghost s0 = self.rest();
            let ghost acc0 = acc@;
            if !first {
                match self.next_char() {
                    Ok(c) => {
                        if c != 10u8 {
                            return Err(DecodeError::ExpectedNewline);
                        }
                    },
                    Err(e) => return Err(e),
                }
            }
            let ghost t = self.rest();
            assert(t == if first {
                s0
            } else {
                s0.drop_first()
            });
            first = false;
            proof {
                lemma_run_len(t, ByteClass::Identifier);
            }
            let key = match self.parse_string() {
                Ok(key) => key,
                Err(e) => return Err(e),
            };
            let idx = find_field(fields, key);
            if let Some(i) = idx {
                if acc[i].is_some() {
                    return Err(DecodeError::DuplicateField(i));
                }
            }
            match self.next_char() {
                Ok(c) => {
                    if c != 32u8 {
                        return Err(DecodeError::ExpectedWhitespace);
                    }
                },
                Err(e) => return Err(e),
            }
            match idx {
                None => {
                    self.skip_run(ByteClass::NotNewline);
                },
                Some(i) => {
                    let x = match self.parse_unsigned() {
                        Ok(x) => x,
                        Err(e) => return Err(e),
                    };
                    acc.set(i, Some(x));
                },
            }
            assert(decode_line(t, names, acc0) == Ok::<(Seq<Option<u64>>, Seq<u8>), DecodeError>(
                (acc@, self.rest()),
            ));
            proof {
                lemma_decode_line_shrinks(t, names, acc0);
            }
        }
        let mut out: Vec<u64> = Vec::new();
        let mut j: usize = 0;
        while j < acc.len()
            invariant
                self.wf(),
                self.rest().len() == 0,
                names == field_names(fields@),
                acc@.len() == fields@.len(),
                whole == decode_lines(old(self).rest(), names, unbound(names.len()), true),
                whole == Ok::<Seq<Option<u64>>, DecodeError>(acc@),
                j <= acc@.len(),
                out@ =~= acc@.take(j as int).map_values(|o: Option<u64>| o.unwrap()),
                forall|k: int| 0 <= k < j ==> acc@[k] is Some,
            decreases acc@.len() - j,
        {
            match acc[j] {
                None => {
                    proof {
                        assert(first_missing(acc@) == j) by {
                            let c = first_missing(acc@);
                            assert(0 <= j < acc@.len() && acc@[j as int] is None && forall|k: int|
                                0 <= k < j ==> acc@[k] is Some);
                            if c < j {
                                assert(acc@[c] is Some);
                            } else if c > j {
                                assert(acc@[j as int] is Some);
                            }
                        }
                    }
                    return Err(DecodeError::MissingField(j));
                },
                Some(x) => {
                    out.push(x);
                },
            }
            j = j + 1;
        }
        assert(acc@.take(j as int) =~= acc@);
        Ok(out)
    }
}

/// Decodes the record `s` against the schema `fields`, whose values are
/// unsigned integers; gives them in the order of the schema. The whole input
/// must be the record.
pub fn from_str(s: &str, fields: &[&str]) -> (r: Result<Vec<u64>, CGroupError>)
    ensures
        match r {
            Ok(v) => decode_record(s.spec_bytes(), field_names(fields@)) == Ok::<
                Seq<u64>,
                DecodeError,
            >(v@),
            Err(e) => decode_record(s.spec_bytes(), field_names(fields@)) matches Err(d)
                && e.inner == Some(CGroupErrorKind::ParseErr(d)),
        },
        r matches Ok(v) ==> v@.len() == fields@.len(),
{
    let mut de = Deserializer::from_str(s);
    match de.deserialize_struct(fields) {
        Err(e) => Err(CGroupError::from_decode_error(e, fields)),
        Ok(v) => {
            if de.is_eof() {
                Ok(v)
            } else {
                Err(CGroupError::from_decode_error(DecodeError::TrailingCharacters, fields))
            }
        },
    }
}


/// A single unsigned value, as an attribute file holds it: decimal digits,
/// then any trailing whitespace (such as the newline that ends the file).
pub open spec fn decode_value(s: Seq<u8>) -> Result<u64, DecodeError> {
    let rest = s.skip(run_len(s, ByteClass::Digit) as int);
    match decode_unsigned(s) {
        Err(e) => Err(e),
        Ok(x) => if run_len(rest, ByteClass::Whitespace) == rest.len() {
            Ok(x)
        } else {
            Err(DecodeError::TrailingCharacters)
        },
    }
}

/// Decodes an attribute that holds a single unsigned value.
pub fn value_from_str(s: &str) -> (r: Result<u64, CGroupError>)
    ensures
        match r {
            Ok(x) => decode_value(s.spec_bytes()) == Ok::<u64, DecodeError>(x),
            Err(e) => decode_value(s.spec_bytes()) matches Err(d) && e.inner == Some(
                CGroupErrorKind::ParseErr(d),
            ),
        },
{
    let mut de = Deserializer::from_str(s);
    let ghost v = de.rest();
    let x = match de.parse_unsigned() {
        Ok(x) => x,
        Err(e) => return Err(CGroupError::from_decode_error(e, &[])),
    };
    let ghost rest = de.rest();
    proof {
        lemma_run_len(rest, ByteClass::Whitespace);
    }
    de.skip_run(ByteClass::Whitespace);
    if !de.is_eof() {
        return Err(CGroupError::from_decode_error(DecodeError::TrailingCharacters, &[]));
    }
    Ok(x)
}

/// The decimal digits of `n`, most significant first, without leading zeros.
pub open spec fn decimal_bytes(n: nat) -> Seq<u8>
    decreases n,
{
    if n < 10 {
        seq![(48 + n) as u8]
    } else {
        decimal_bytes(n / 10).push((48 + n % 10) as u8)
    }
}

/// Writes `n` in decimal.
pub fn encode_u64(n: u64) -> (r: Vec<u8>)
    ensures
        r@ == decimal_bytes(n as nat),
    decreases n,
{
    if n < 10 {
        vec![(48 + n) as u8]
    } else {
        let mut r = encode_u64(n / 10);
        r.push((48 + n % 10) as u8);
        r
    }
}

pub proof fn lemma_run_len_all(s: Seq<u8>, c: ByteClass)
    requires
        forall|k: int| 0 <= k < s.len() ==> in_class(#[trigger] s[k], c),
    ensures
        run_len(s, c) == s.len(),
    decreases s.len(),
{
    if s.len() > 0 {
        assert forall|k: int| 0 <= k < s.len() - 1 implies in_class(
            #[trigger] s.drop_first()[k],
            c,
        ) by {
            assert(s.drop_first()[k] == s[k + 1]);
        }
        lemma_run_len_all(s.drop_first(), c);
    }
}

pub proof fn lemma_decimal_bytes(n: nat)
    ensures
        decimal_bytes(n).len() >= 1,
        forall|k: int| 0 <= k < decimal_bytes(n).len() ==> is_digit(#[trigger] decimal_bytes(n)[k]),
        decimal_value(decimal_bytes(n)) == n,
    decreases n,
{
    if n >= 10 {
        lemma_decimal_bytes(n / 10);
        let d = decimal_bytes(n);
        assert(d.drop_last() =~= decimal_bytes(n / 10));
        assert(d.last() == (48 + n % 10) as u8);
        assert((d.last() - 48) as nat == n % 10);
        assert((n / 10) * 10 + n % 10 == n);
    } else {
        let d = decimal_bytes(n);
        assert(d.drop_last() =~= Seq::<u8>::empty());
        assert(decimal_value(d.drop_last()) == 0);
        assert(d.last() == (48 + n) as u8);
    }
}

/// Writing a value in decimal and reading it back as an attribute's single
/// value gives the value again.
pub proof fn lemma_value_round_trip(n: u64)
    ensures
        decode_value(decimal_bytes(n as nat)) == Ok::<u64, DecodeError>(n),
{
    let d = decimal_bytes(n as nat);
    lemma_decimal_bytes(n as nat);
    lemma_run_len_all(d, ByteClass::Digit);
    assert(d.take(d.len() as int) =~= d);
    assert(d.skip(d.len() as int) =~= Seq::<u8>::empty());
}

/// A list of process ids, one per line, each line ended by a newline (the
/// last one may lack it).
pub open spec fn decode_pids(s: Seq<u8>) -> Result<Seq<i32>, DecodeError>
    decreases s.len(),
{
    if s.len() == 0 {
        Ok(Seq::empty())
    } else {
        let rest = s.skip(run_len(s, ByteClass::Digit) as int);
        match decode_unsigned(s) {
            Err(e) => Err(e),
            Ok(x) => if x > i32::MAX {
                Err(DecodeError::Overflow)
            } else if rest.len() == 0 {
                Ok(seq![x as i32])
            } else if rest[0] != 10 {
                Err(DecodeError::ExpectedNewline)
            } else {
                proof {
                    lemma_run_len(s, ByteClass::Digit);
                }
                match decode_pids(rest.drop_first()) {
                    Err(e) => Err(e),
                    Ok(t) => Ok(seq![x as i32] + t),
                }
            },
        }
    }
}

/// Decodes a list of process ids, one per line.
pub fn pids_from_str(s: &str) -> (r: Result<Vec<i32>, CGroupError>)
    ensures
        match r {
            Ok(v) => decode_pids(s.spec_bytes()) == Ok::<Seq<i32>, DecodeError>(v@),
            Err(e) => decode_pids(s.spec_bytes()) matches Err(d) && e.inner == Some(
                CGroupErrorKind::ParseErr(d),
            ),
        },
{
    let mut de = Deserializer::from_str(s);
    let ghost whole = decode_pids(de.rest());
    let mut out: Vec<i32> = Vec::new();
    while !de.is_eof()
        invariant
            de.wf(),
            whole == decode_pids(s.spec_bytes()),
            whole == match decode_pids(de.rest()) {
                Err(e) => Err(e),
                Ok(t) => Ok::<Seq<i32>, DecodeError>(out@ + t),
            },
        decreases de.rest().len(),
    {
        let ghost v = de.rest();
        proof {
            lemma_run_len(v, ByteClass::Digit);
        }
        let x = match de.parse_unsigned() {
            Ok(x) => x,
            Err(e) => return Err(CGroupError::from_decode_error(e, &[])),
        };
        if x > 0x7fff_ffff {
            return Err(CGroupError::from_decode_error(DecodeError::Overflow, &[]));
        }
        let ghost rest = de.rest();
        let ghost out0 = out@;
        out.push(x as i32);
        if !de.is_eof() {
            let newline = match de.next_char() {
                Ok(c) => c == 10u8,
                Err(_) => false,
            };
            if !newline {
                return Err(CGroupError::from_decode_error(DecodeError::ExpectedNewline, &[]));
            }
            assert(de.rest() == rest.drop_first());
            proof {
                if let Ok(t) = decode_pids(de.rest()) {
                    assert(out0 + (seq![x as i32] + t) =~= out@ + t);
                }
            }
        } else {
            assert(out0 + seq![x as i32] =~= out@ + Seq::<i32>::empty());
        }
    }
    assert(out@ + Seq::<i32>::empty() =~= out@);
    Ok(out)
}

} // verus!
