//! Reads one address out of the raw value of a forwarding header.
//!
//! A value may be a chain of hops separated by commas, or a host and a port
//! separated by a colon. The candidate is what stands before the first comma
//! or colon, without the blanks around it. It counts only if it is an IPv4
//! address in dotted-decimal form: an IPv6 literal always holds a colon, so
//! what is left of one after the split is never an address.

use vstd::prelude::*;
use vstd::slice::slice_subrange;
use crate::address::IpAddress;

verus! {

pub const TAB: u8 = 9u8;

pub const SPACE: u8 = 32u8;

pub const COMMA: u8 = 44u8;

pub const DOT: u8 = 46u8;

pub const DIGIT_ZERO: u8 = 48u8;

pub const DIGIT_NINE: u8 = 57u8;

pub const COLON: u8 = 58u8;

pub const DELETE: u8 = 127u8;

/// A byte that may stand in a header value read as text: a tab or a
/// printable ASCII character.
pub open spec fn is_text_byte(b: u8) -> bool {
    b == TAB || (SPACE <= b && b < DELETE)
}

/// The value can be read as text.
pub open spec fn is_header_text(s: Seq<u8>) -> bool {
    forall|i: int| 0 <= i < s.len() ==> is_text_byte(#[trigger] s[i])
}

/// A comma or a colon: either ends the candidate.
pub open spec fn is_delimiter(b: u8) -> bool {
    b == COMMA || b == COLON
}

/// The white space that can occur in header text.
pub open spec fn is_blank(b: u8) -> bool {
    b == SPACE || b == TAB
}

pub open spec fn is_digit(b: u8) -> bool {
    DIGIT_ZERO <= b && b <= DIGIT_NINE
}

/// The index of the first delimiter at or after `from`, or the length of `s`
/// where there is none.
pub open spec fn delimiter_from(s: Seq<u8>, from: int) -> int
    decreases s.len() - from,
{
    if from >= s.len() {
        s.len() as int
    } else if is_delimiter(s[from]) {
        from
    } else {
        delimiter_from(s, from + 1)
    }
}

/// What stands before the first comma or colon; all of `s` where it has
/// neither.
pub open spec fn first_token(s: Seq<u8>) -> Seq<u8> {
    s.subrange(0, delimiter_from(s, 0))
}

pub open spec fn trim_start(s: Seq<u8>) -> Seq<u8>
    decreases s.len(),
{
    if s.len() > 0 && is_blank(s[0]) {
        trim_start(s.drop_first())
    } else {
        s
    }
}

pub open spec fn trim_end(s: Seq<u8>) -> Seq<u8>
    decreases s.len(),
{
    if s.len() > 0 && is_blank(s.last()) {
        trim_end(s.drop_last())
    } else {
        s
    }
}

/// `s` without the blanks at its start and at its end.
pub open spec fn trim(s: Seq<u8>) -> Seq<u8> {
    trim_end(trim_start(s))
}

pub open spec fn all_digits(s: Seq<u8>) -> bool {
    forall|i: int| 0 <= i < s.len() ==> is_digit(#[trigger] s[i])
}

/// The number that a run of decimal digits writes.
pub open spec fn decimal_value(s: Seq<u8>) -> nat
    decreases s.len(),
{
    if s.len() == 0 {
        0
    } else {
        decimal_value(s.drop_last()) * 10 + (s.last() - DIGIT_ZERO) as nat
    }
}

/// One field of a dotted-decimal address: one to three digits, no zero in
/// front of another digit, at most 255.
pub open spec fn octet_of(s: Seq<u8>) -> Option<u8> {
    if 1 <= s.len() <= 3 && all_digits(s) && (s.len() == 1 || s[0] != DIGIT_ZERO)
        && decimal_value(s) <= 255 {
        Some(decimal_value(s) as u8)
    } else {
        None
    }
}

/// The index of the first dot at or after `from`, or the length of `s` where
/// there is none.
pub open spec fn dot_from(s: Seq<u8>, from: int) -> int
    decreases s.len() - from,
{
    if from >= s.len() {
        s.len() as int
    } else if s[from] == DOT {
        from
    } else {
        dot_from(s, from + 1)
    }
}

/// The address that `s` writes in dotted-decimal form: exactly four fields
/// with a dot between each two, and nothing else.
pub open spec fn ipv4_of(s: Seq<u8>) -> Option<IpAddress> {
    let e0 = dot_from(s, 0);
    let e1 = dot_from(s, e0 + 1);
    let e2 = dot_from(s, e1 + 1);
    let e3 = dot_from(s, e2 + 1);
    if e2 < s.len() && e3 == s.len() {
        match (
            octet_of(s.subrange(0, e0)),
            octet_of(s.subrange(e0 + 1, e1)),
            octet_of(s.subrange(e1 + 1, e2)),
            octet_of(s.subrange(e2 + 1, s.len() as int)),
        ) {
            (Some(a), Some(b), Some(c), Some(d)) => Some(IpAddress::V4(a, b, c, d)),
            _ => None,
        }
    } else {
        None
    }
}

/// The address that a header value yields, if any.
pub open spec fn address_of(value: Seq<u8>) -> Option<IpAddress> {
    if is_header_text(value) {
        ipv4_of(trim(first_token(value)))
    } else {
        None
    }
}

/// `delimiter_from` finds the first delimiter: none stands before its result,
/// and one stands at it unless it is the length.
pub proof fn lemma_delimiter_from(s: Seq<u8>, from: int)
    requires
        0 <= from <= s.len(),
    ensures
        from <= delimiter_from(s, from) <= s.len(),
        forall|i: int| from <= i < delimiter_from(s, from) ==> !is_delimiter(#[trigger] s[i]),
        delimiter_from(s, from) < s.len() ==> is_delimiter(s[delimiter_from(s, from)]),
    decreases s.len() - from,
{
    if from < s.len() && !is_delimiter(s[from]) {
        lemma_delimiter_from(s, from + 1);
    }
}

/// `dot_from` finds the first dot: none stands before its result, and one
/// stands at it unless it is the length.
pub proof fn lemma_dot_from(s: Seq<u8>, from: int)
    requires
        0 <= from <= s.len(),
    ensures
        from <= dot_from(s, from) <= s.len(),
        forall|i: int| from <= i < dot_from(s, from) ==> #[trigger] s[i] != DOT,
        dot_from(s, from) < s.len() ==> s[dot_from(s, from)] == DOT,
    decreases s.len() - from,
{
    if from < s.len() && s[from] != DOT {
        lemma_dot_from(s, from + 1);
    }
}

/// Where no dot stands from `from` up to `to`, and `to` is the end or holds
/// a dot, the first dot from `from` on is at `to`.
pub proof fn lemma_dot_from_is(s: Seq<u8>, from: int, to: int)
    requires
        0 <= from <= to <= s.len(),
        forall|i: int| from <= i < to ==> #[trigger] s[i] != DOT,
        to < s.len() ==> s[to] == DOT,
    ensures
        dot_from(s, from) == to,
    decreases to - from,
{
    if from < to {
        lemma_dot_from_is(s, from + 1, to);
    }
}

/// Four fields with a dot between each two.
pub open spec fn dotted(f0: Seq<u8>, f1: Seq<u8>, f2: Seq<u8>, f3: Seq<u8>) -> Seq<u8> {
    f0 + seq![DOT] + f1 + seq![DOT] + f2 + seq![DOT] + f3
}

/// Four fields that are octets, joined by dots, write the address of those
/// octets.
pub proof fn lemma_dotted_octets_parse(f0: Seq<u8>, f1: Seq<u8>, f2: Seq<u8>, f3: Seq<u8>)
    requires
        octet_of(f0) is Some,
        octet_of(f1) is Some,
        octet_of(f2) is Some,
        octet_of(f3) is Some,
    ensures
        ipv4_of(dotted(f0, f1, f2, f3)) == Some(
            IpAddress::V4(octet_of(f0)->0, octet_of(f1)->0, octet_of(f2)->0, octet_of(f3)->0),
        ),
{
    let s = dotted(f0, f1, f2, f3);
    let e0 = f0.len() as int;
    let e1 = e0 + 1 + f1.len();
    let e2 = e1 + 1 + f2.len();
    let e3 = e2 + 1 + f3.len();
    assert(s.len() == e3);
    assert forall|i: int| 0 <= i < e0 implies #[trigger] s[i] != DOT by {
        assert(s[i] == f0[i]);
        assert(is_digit(f0[i]));
    }
    assert forall|i: int| e0 + 1 <= i < e1 implies #[trigger] s[i] != DOT by {
        assert(s[i] == f1[i - e0 - 1]);
        assert(is_digit(f1[i - e0 - 1]));
    }
    assert forall|i: int| e1 + 1 <= i < e2 implies #[trigger] s[i] != DOT by {
        assert(s[i] == f2[i - e1 - 1]);
        assert(is_digit(f2[i - e1 - 1]));
    }
    assert forall|i: int| e2 + 1 <= i < e3 implies #[trigger] s[i] != DOT by {
        assert(s[i] == f3[i - e2 - 1]);
        assert(is_digit(f3[i - e2 - 1]));
    }
    assert(s[e0] == DOT);
    assert(s[e1] == DOT);
    assert(s[e2] == DOT);
    lemma_dot_from_is(s, 0, e0);
    lemma_dot_from_is(s, e0 + 1, e1);
    lemma_dot_from_is(s, e1 + 1, e2);
    lemma_dot_from_is(s, e2 + 1, e3);
    assert(s.subrange(0, e0) =~= f0);
    assert(s.subrange(e0 + 1, e1) =~= f1);
    assert(s.subrange(e1 + 1, e2) =~= f2);
    assert(s.subrange(e2 + 1, e3) =~= f3);
}

/// Whatever writes an address is four octets joined by dots.
pub proof fn lemma_parsed_is_dotted(s: Seq<u8>) -> (fields: (Seq<u8>, Seq<u8>, Seq<u8>, Seq<u8>))
    requires
        ipv4_of(s) is Some,
    ensures
        s == dotted(fields.0, fields.1, fields.2, fields.3),
        ipv4_of(s) == Some(
            IpAddress::V4(
                octet_of(fields.0)->0,
                octet_of(fields.1)->0,
                octet_of(fields.2)->0,
                octet_of(fields.3)->0,
            ),
        ),
        octet_of(fields.0) is Some,
        octet_of(fields.1) is Some,
        octet_of(fields.2) is Some,
        octet_of(fields.3) is Some,
{
    let e0 = dot_from(s, 0);
    lemma_dot_from(s, 0);
    if e0 < s.len() {
        lemma_dot_from(s, e0 + 1);
    }
    let e1 = dot_from(s, e0 + 1);
    if e1 < s.len() {
        lemma_dot_from(s, e1 + 1);
    }
    let e2 = dot_from(s, e1 + 1);
    lemma_dot_from(s, e2 + 1);
    let f0 = s.subrange(0, e0);
    let f1 = s.subrange(e0 + 1, e1);
    let f2 = s.subrange(e1 + 1, e2);
    let f3 = s.subrange(e2 + 1, s.len() as int);
    assert(s =~= dotted(f0, f1, f2, f3));
    (f0, f1, f2, f3)
}

/// `trim_start` drops the longest run of blanks at the start: the result
/// is `s` from the returned index on, all before it is blank, and the byte
/// at it, if any, is not.
pub proof fn lemma_trim_start(s: Seq<u8>) -> (from: int)
    ensures
        0 <= from <= s.len(),
        trim_start(s) == s.subrange(from, s.len() as int),
        forall|i: int| 0 <= i < from ==> is_blank(#[trigger] s[i]),
        from < s.len() ==> !is_blank(s[from]),
    decreases s.len(),
{
    if s.len() > 0 && is_blank(s[0]) {
        let rest = s.drop_first();
        let inner = lemma_trim_start(rest);
        assert(rest.subrange(inner, rest.len() as int) =~= s.subrange(inner + 1, s.len() as int));
        assert forall|i: int| 0 <= i < inner + 1 implies is_blank(#[trigger] s[i]) by {
            if i > 0 {
                assert(s[i] == rest[i - 1]);
            }
        }
        inner + 1
    } else {
        assert(s.subrange(0, s.len() as int) =~= s);
        0
    }
}

/// `trim_end` drops the longest run of blanks at the end: the result is `s`
/// up to the returned index, all from it on is blank, and the byte before
/// it, if any, is not.
pub proof fn lemma_trim_end(s: Seq<u8>) -> (to: int)
    ensures
        0 <= to <= s.len(),
        trim_end(s) == s.subrange(0, to),
        forall|i: int| to <= i < s.len() ==> is_blank(#[trigger] s[i]),
        to > 0 ==> !is_blank(s[to - 1]),
    decreases s.len(),
{
    if s.len() > 0 && is_blank(s.last()) {
        let rest = s.drop_last();
        let to = lemma_trim_end(rest);
        assert(rest.subrange(0, to) =~= s.subrange(0, to));
        assert forall|i: int| to <= i < s.len() implies is_blank(#[trigger] s[i]) by {
            if i < s.len() - 1 {
                assert(s[i] == rest[i]);
            }
        }
        to
    } else {
        assert(s.subrange(0, s.len() as int) =~= s);
        s.len() as int
    }
}

/// `trim` gives the part of `s` between the blanks at its two ends: all
/// outside the returned bounds is blank, and what lies between them neither
/// starts nor ends with a blank.
pub proof fn lemma_trim(s: Seq<u8>) -> (bounds: (int, int))
    ensures
        0 <= bounds.0 <= bounds.1 <= s.len(),
        trim(s) == s.subrange(bounds.0, bounds.1),
        forall|i: int| 0 <= i < bounds.0 ==> is_blank(#[trigger] s[i]),
        forall|i: int| bounds.1 <= i < s.len() ==> is_blank(#[trigger] s[i]),
        bounds.0 < bounds.1 ==> !is_blank(s[bounds.0]) && !is_blank(s[bounds.1 - 1]),
{
    let from = lemma_trim_start(s);
    let tail = s.subrange(from, s.len() as int);
    let kept = lemma_trim_end(tail);
    assert(tail.subrange(0, kept) =~= s.subrange(from, from + kept));
    assert forall|i: int| from + kept <= i < s.len() implies is_blank(#[trigger] s[i]) by {
        assert(s[i] == tail[i - from]);
    }
    if kept > 0 {
        assert(tail[kept - 1] == s[from + kept - 1]);
    }
    (from, from + kept)
}

/// The candidate of a header value holds neither a comma nor a colon. No
/// IPv6 literal is free of colons, so a candidate is never one.
pub proof fn lemma_candidate_has_no_delimiter(value: Seq<u8>)
    ensures
        forall|i: int|
            0 <= i < trim(first_token(value)).len() ==> !is_delimiter(
                #[trigger] trim(first_token(value))[i],
            ),
{
    let token = first_token(value);
    lemma_delimiter_from(value, 0);
    let bounds = lemma_trim(token);
    assert forall|i: int| 0 <= i < trim(token).len() implies !is_delimiter(
        #[trigger] trim(token)[i],
    ) by {
        assert(trim(token)[i] == value[bounds.0 + i]);
    }
}

/// A header value yields IPv4 addresses only.
pub proof fn lemma_header_address_is_ipv4(value: Seq<u8>)
    ensures
        address_of(value) is Some ==> address_of(value)->0.is_ipv4(),
{
}

/// Whether every byte of `value` is a tab or a printable ASCII character.
pub fn is_text(value: &[u8]) -> (ok: bool)
    ensures
        ok == is_header_text(value@),
{
    let mut i: usize = 0;
    while i < value.len()
        invariant
            i <= value.len(),
            forall|j: int| 0 <= j < i ==> is_text_byte(#[trigger] value@[j]),
        decreases value.len() - i,
    {
        let b: u8 = value[i];
        if !(b == TAB || (SPACE <= b && b < DELETE)) {
            return false;
        }
        i += 1;
    }
    true
}

/// The index of the first comma or colon at or after `from`.
pub fn find_delimiter(value: &[u8], from: usize) -> (at: usize)
    requires
        from <= value.len(),
    ensures
        at == delimiter_from(value@, from as int),
        from <= at <= value.len(),
        forall|i: int| from <= i < at ==> !is_delimiter(#[trigger] value@[i]),
        at < value.len() ==> is_delimiter(value@[at as int]),
{
    proof {
        lemma_delimiter_from(value@, from as int);
    }
    let mut i: usize = from;
    while i < value.len() && !(value[i] == COMMA || value[i] == COLON)
        invariant
            from <= i <= value.len(),
            delimiter_from(value@, from as int) == delimiter_from(value@, i as int),
        decreases value.len() - i,
    {
        i += 1;
    }
    i
}

/// The index of the first dot at or after `from`; the length where `from`
/// is past the end.
pub fn find_dot(value: &[u8], from: usize) -> (at: usize)
    ensures
        at == dot_from(value@, from as int),
        at <= value.len(),
        from <= value.len() ==> from <= at,
        forall|i: int| from <= i < at ==> #[trigger] value@[i] != DOT,
        at < value.len() ==> value@[at as int] == DOT,
{
    if from >= value.len() {
        return value.len();
    }
    proof {
        lemma_dot_from(value@, from as int);
    }
    let mut i: usize = from;
    while i < value.len() && value[i] != DOT
        invariant
            from <= i <= value.len(),
            dot_from(value@, from as int) == dot_from(value@, i as int),
        decreases value.len() - i,
    {
        i += 1;
    }
    i
}

/// `value` without the blanks around it.
pub fn trim_blanks(value: &[u8]) -> (out: &[u8])
    ensures
        out@ == trim(value@),
{
    let mut lo: usize = 0;
    let mut hi: usize = value.len();
    assert(value@.subrange(0, hi as int) =~= value@);
    while lo < hi && (value[lo] == SPACE || value[lo] == TAB)
        invariant
            lo <= hi == value.len(),
            trim_start(value@) == trim_start(value@.subrange(lo as int, hi as int)),
        decreases hi - lo,
    {
        assert(value@.subrange(lo as int, hi as int).drop_first() =~= value@.subrange(
            lo as int + 1,
            hi as int,
        ));
        lo += 1;
    }
    assert(trim_start(value@) == value@.subrange(lo as int, hi as int));
    while lo < hi && (value[hi - 1] == SPACE || value[hi - 1] == TAB)
        invariant
            lo <= hi <= value.len(),
            trim(value@) == trim_end(value@.subrange(lo as int, hi as int)),
        decreases hi - lo,
    {
        assert(value@.subrange(lo as int, hi as int).drop_last() =~= value@.subrange(
            lo as int,
            hi as int - 1,
        ));
        hi -= 1;
    }
    slice_subrange(value, lo, hi)
}

/// Reads one field of a dotted-decimal address.
pub fn parse_octet(field: &[u8]) -> (octet: Option<u8>)
    ensures
        octet == octet_of(field@),
{
    let n: usize = field.len();
    if n == 0 || n > 3 {
        return None;
    }
    if n > 1 && field[0] == DIGIT_ZERO {
        return None;
    }
    let mut number: u32 = 0;
    let mut i: usize = 0;
    assert(field@.subrange(0, 0) =~= Seq::<u8>::empty());
    while i < n
        invariant
            i <= n == field.len(),
            n <= 3,
            all_digits(field@.subrange(0, i as int)),
            number == decimal_value(field@.subrange(0, i as int)),
            i == 0 ==> number == 0,
            i == 1 ==> number <= 9,
            i == 2 ==> number <= 99,
            i == 3 ==> number <= 999,
        decreases n - i,
    {
        let b: u8 = field[i];
        if !(DIGIT_ZERO <= b && b <= DIGIT_NINE) {
            return None;
        }
        assert(field@.subrange(0, i as int + 1).drop_last() =~= field@.subrange(0, i as int));
        number = number * 10 + (b - DIGIT_ZERO) as u32;
        i += 1;
    }
    assert(field@.subrange(0, n as int) =~= field@);
    if number > 255 {
        None
    } else {
        Some(number as u8)
    }
}

/// Reads an IPv4 address in dotted-decimal form.
pub fn parse_ipv4(text: &[u8]) -> (address: Option<IpAddress>)
    ensures
        address == ipv4_of(text@),
{
    let n: usize = text.len();
    let e0: usize = find_dot(text, 0);
    if e0 >= n {
        return None;
    }
    let e1: usize = find_dot(text, e0 + 1);
    if e1 >= n {
        return None;
    }
    let e2: usize = find_dot(text, e1 + 1);
    if e2 >= n {
        return None;
    }
    let e3: usize = find_dot(text, e2 + 1);
    if e3 != n {
        return None;
    }
    let a = parse_octet(slice_subrange(text, 0, e0));
    let b = parse_octet(slice_subrange(text, e0 + 1, e1));
    let c = parse_octet(slice_subrange(text, e1 + 1, e2));
    let d = parse_octet(slice_subrange(text, e2 + 1, n));
    match (a, b, c, d) {
        (Some(a), Some(b), Some(c), Some(d)) => Some(IpAddress::V4(a, b, c, d)),
        _ => None,
    }
}

/// Reads the address that a header value holds.
///
/// The value must be text. Its candidate is what stands before the first
/// comma or colon, trimmed; the result is that candidate's address where it
/// is one in dotted-decimal form, and `None` for every other value.
pub fn parse_ip(value: &[u8]) -> (address: Option<IpAddress>)
    ensures
        address == address_of(value@),
        address is Some ==> address->0.is_ipv4(),
{
    if !is_text(value) {
        return None;
    }
    let end: usize = find_delimiter(value, 0);
    let token = slice_subrange(value, 0, end);
    parse_ipv4(trim_blanks(token))
}

} // verus!
