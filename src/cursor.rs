//! Resume points of index scans and their opaque string form.
//!
//! A token lists the position's attributes in order, name then value, each
//! followed by a dot. ASCII letters, digits, `-` and `_` stand for
//! themselves; any other character is written `~` and its code point in
//! eight lowercase hex digits. A token is thus made of URL-unreserved
//! characters only and can be embedded in a query string as it is.
use vstd::prelude::*;
use crate::keys::{
    chars_of, lemma_code_injective, lemma_precedes_irreflexive, lemma_precedes_total, lemma_precedes_transitive,
    precedes, str_precedes,
};
use crate::result::Error;

verus! {

/// An attribute of a raw position: its name and string value.
pub type Attribute = (Seq<char>, Seq<char>);

/// A character written as itself in a token.
pub open spec fn plain(c: char) -> bool {
    let n = c as u32;
    (48 <= n <= 57) || (65 <= n <= 90) || (97 <= n <= 122) || n == 45 || n == 95
}

/// A character that may appear in a URL without percent-encoding.
pub open spec fn url_safe(c: char) -> bool {
    plain(c) || c == '.' || c == '~'
}

/// The lowercase hex digit of `d`, below sixteen.
pub open spec fn hex_digit(d: u32) -> char {
    if d == 0 { '0' }
    else if d == 1 { '1' }
    else if d == 2 { '2' }
    else if d == 3 { '3' }
    else if d == 4 { '4' }
    else if d == 5 { '5' }
    else if d == 6 { '6' }
    else if d == 7 { '7' }
    else if d == 8 { '8' }
    else if d == 9 { '9' }
    else if d == 10 { 'a' }
    else if d == 11 { 'b' }
    else if d == 12 { 'c' }
    else if d == 13 { 'd' }
    else if d == 14 { 'e' }
    else { 'f' }
}

/// The value of a lowercase hex digit; sixteen for any other character.
pub open spec fn hex_value(c: char) -> u32 {
    let n = c as u32;
    if 48 <= n <= 57 { (n - 48) as u32 } else if 97 <= n <= 102 { (n - 87) as u32 } else { 16 }
}

/// `n` as eight lowercase hex digits, most significant first.
pub open spec fn hex8(n: u32) -> Seq<char> {
    seq![
        hex_digit((n >> 28u32) & 15u32),
        hex_digit((n >> 24u32) & 15u32),
        hex_digit((n >> 20u32) & 15u32),
        hex_digit((n >> 16u32) & 15u32),
        hex_digit((n >> 12u32) & 15u32),
        hex_digit((n >> 8u32) & 15u32),
        hex_digit((n >> 4u32) & 15u32),
        hex_digit(n & 15u32),
    ]
}

/// The first eight characters of `t` are lowercase hex digits.
pub open spec fn hex8_at(t: Seq<char>) -> bool {
    t.len() >= 8 && hex_value(t[0]) < 16 && hex_value(t[1]) < 16 && hex_value(t[2]) < 16 && hex_value(t[3])
        < 16 && hex_value(t[4]) < 16 && hex_value(t[5]) < 16 && hex_value(t[6]) < 16 && hex_value(t[7]) < 16
}

/// The number that the first eight hex digits of `t` spell.
pub open spec fn hex8_value(t: Seq<char>) -> u32 {
    (hex_value(t[0]) << 28u32) | (hex_value(t[1]) << 24u32) | (hex_value(t[2]) << 20u32) | (hex_value(t[3])
        << 16u32) | (hex_value(t[4]) << 12u32) | (hex_value(t[5]) << 8u32) | (hex_value(t[6]) << 4u32)
        | hex_value(t[7])
}

pub open spec fn escape_char(c: char) -> Seq<char> {
    if plain(c) { seq![c] } else { seq!['~'] + hex8(c as u32) }
}

/// The character that an escape `~` followed by the hex digits of `t` stands
/// for, where there is one and it would have been escaped.
pub open spec fn escaped_char(t: Seq<char>) -> Option<char> {
    if hex8_at(t) && exists|c: char| #[trigger] escapes_to(c, hex8_value(t)) {
        Some(choose|c: char| #[trigger] escapes_to(c, hex8_value(t)))
    } else {
        None
    }
}

/// The code point of `c`.
pub open spec fn code_point(c: char) -> u32 {
    c as u32
}

/// `c` is escaped in a token, and `n` is its code point.
pub open spec fn escapes_to(c: char, n: u32) -> bool {
    c as u32 == n && !plain(c)
}

pub open spec fn escaped(s: Seq<char>) -> Seq<char>
    decreases s.len(),
{
    if s.len() == 0 { seq![] } else { escape_char(s[0]) + escaped(s.drop_first()) }
}

/// One name or value in a token.
pub open spec fn field(s: Seq<char>) -> Seq<char> {
    escaped(s).push('.')
}

/// The token of a raw position.
pub open spec fn encoded(attrs: Seq<Attribute>) -> Seq<char>
    decreases attrs.len(),
{
    if attrs.len() == 0 {
        seq![]
    } else {
        field(attrs[0].0) + field(attrs[0].1) + encoded(attrs.drop_first())
    }
}

/// Reads one field from the front of `s`: its unescaped text and what
/// follows its closing comma.
pub open spec fn take_field(s: Seq<char>) -> Option<(Seq<char>, Seq<char>)>
    decreases s.len(),
{
    if s.len() == 0 {
        None
    } else if s[0] == '.' {
        Some((seq![], s.drop_first()))
    } else if s[0] == '~' {
        if s.len() >= 9 {
            match escaped_char(s.subrange(1, 9)) {
                Some(c) => match take_field(s.subrange(9, s.len() as int)) {
                    Some((f, rest)) => Some((seq![c] + f, rest)),
                    None => None,
                },
                None => None,
            }
        } else {
            None
        }
    } else if plain(s[0]) {
        match take_field(s.drop_first()) {
            Some((f, rest)) => Some((seq![s[0]] + f, rest)),
            None => None,
        }
    } else {
        None
    }
}

/// Reads a whole token back into attributes; `None` where it is malformed.
pub open spec fn decoded(s: Seq<char>) -> Option<Seq<Attribute>>
    decreases s.len(),
    via decoded_decreases
{
    if s.len() == 0 {
        Some(seq![])
    } else {
        match take_field(s) {
            Some((name, r1)) => match take_field(r1) {
                Some((value, r2)) => match decoded(r2) {
                    Some(rest) => Some(seq![(name, value)] + rest),
                    None => None,
                },
                None => None,
            },
            None => None,
        }
    }
}

#[via_fn]
proof fn decoded_decreases(s: Seq<char>) {
    if s.len() != 0 {
        if let Some((name, r1)) = take_field(s) {
            lemma_take_field_shorter(s);
            if let Some((value, r2)) = take_field(r1) {
                lemma_take_field_shorter(r1);
            }
        }
    }
}

proof fn lemma_take_field_shorter(s: Seq<char>)
    requires
        take_field(s) is Some,
    ensures
        take_field(s) matches Some((_, rest)) && rest.len() < s.len(),
    decreases s.len(),
{
    if s[0] == '.' {
    } else if s[0] == '~' {
        lemma_take_field_shorter(s.subrange(9, s.len() as int));
    } else {
        lemma_take_field_shorter(s.drop_first());
    }
}

/// Some attribute is named `name`.
pub open spec fn has_name(attrs: Seq<Attribute>, name: Seq<char>) -> bool {
    exists|i: int| 0 <= i < attrs.len() && #[trigger] attrs[i].0 == name
}

/// Names strictly increase along the attributes: the canonical order.
pub open spec fn sorted_names(attrs: Seq<Attribute>) -> bool {
    forall|i: int, j: int| 0 <= i < j < attrs.len() ==> precedes(#[trigger] attrs[i].0, #[trigger] attrs[j].0)
}

pub proof fn lemma_sorted_unique(attrs: Seq<Attribute>)
    requires
        sorted_names(attrs),
    ensures
        unique_names(attrs),
{
    assert forall|i: int, j: int| 0 <= i < j < attrs.len() implies #[trigger] attrs[i].0 != #[trigger] attrs[j].0 by {
        lemma_precedes_irreflexive(attrs[i].0);
    }
}

/// No two attributes share a name.
pub open spec fn unique_names(attrs: Seq<Attribute>) -> bool {
    forall|i: int, j: int| 0 <= i < j < attrs.len() ==> #[trigger] attrs[i].0 != #[trigger] attrs[j].0
}

proof fn lemma_hex_value_of_digit(d: u32)
    requires
        d < 16,
    ensures
        hex_value(hex_digit(d)) == d,
{
}

proof fn lemma_hex8_round_trip(n: u32)
    ensures
        hex8_at(hex8(n)),
        hex8_value(hex8(n)) == n,
{
    let t = hex8(n);
    assert(((n >> 28u32) & 15u32) < 16 && ((n >> 24u32) & 15u32) < 16 && ((n >> 20u32) & 15u32) < 16 && ((n
        >> 16u32) & 15u32) < 16 && ((n >> 12u32) & 15u32) < 16 && ((n >> 8u32) & 15u32) < 16 && ((n >> 4u32)
        & 15u32) < 16 && (n & 15u32) < 16) by (bit_vector);
    lemma_hex_value_of_digit((n >> 28u32) & 15u32);
    lemma_hex_value_of_digit((n >> 24u32) & 15u32);
    lemma_hex_value_of_digit((n >> 20u32) & 15u32);
    lemma_hex_value_of_digit((n >> 16u32) & 15u32);
    lemma_hex_value_of_digit((n >> 12u32) & 15u32);
    lemma_hex_value_of_digit((n >> 8u32) & 15u32);
    lemma_hex_value_of_digit((n >> 4u32) & 15u32);
    lemma_hex_value_of_digit(n & 15u32);
    assert(hex_value(t[0]) == (n >> 28u32) & 15u32);
    assert(hex_value(t[1]) == (n >> 24u32) & 15u32);
    assert(hex_value(t[2]) == (n >> 20u32) & 15u32);
    assert(hex_value(t[3]) == (n >> 16u32) & 15u32);
    assert(hex_value(t[4]) == (n >> 12u32) & 15u32);
    assert(hex_value(t[5]) == (n >> 8u32) & 15u32);
    assert(hex_value(t[6]) == (n >> 4u32) & 15u32);
    assert(hex_value(t[7]) == n & 15u32);
    assert(((((n >> 28u32) & 15u32) << 28u32) | (((n >> 24u32) & 15u32) << 24u32) | (((n >> 20u32) & 15u32)
        << 20u32) | (((n >> 16u32) & 15u32) << 16u32) | (((n >> 12u32) & 15u32) << 12u32) | (((n >> 8u32)
        & 15u32) << 8u32) | (((n >> 4u32) & 15u32) << 4u32) | (n & 15u32)) == n) by (bit_vector);
}

proof fn lemma_hex_digit_of_value(c: char)
    requires
        hex_value(c) < 16,
    ensures
        hex_digit(hex_value(c)) == c,
{
    let n = c as u32;
    assert(hex_digit(hex_value(c)) as u32 == n);
}

proof fn lemma_hex8_of_value(t: Seq<char>)
    requires
        hex8_at(t),
    ensures
        hex8(hex8_value(t)) == t.subrange(0, 8),
{
    let (a, b, c, d) = (hex_value(t[0]), hex_value(t[1]), hex_value(t[2]), hex_value(t[3]));
    let (e, f, g, h) = (hex_value(t[4]), hex_value(t[5]), hex_value(t[6]), hex_value(t[7]));
    let n = hex8_value(t);
    assert(((n >> 28u32) & 15u32) == a && ((n >> 24u32) & 15u32) == b && ((n >> 20u32) & 15u32) == c && ((n
        >> 16u32) & 15u32) == d && ((n >> 12u32) & 15u32) == e && ((n >> 8u32) & 15u32) == f && ((n >> 4u32)
        & 15u32) == g && (n & 15u32) == h) by (bit_vector)
        requires
            a < 16u32 && b < 16u32 && c < 16u32 && d < 16u32 && e < 16u32 && f < 16u32 && g < 16u32 && h < 16u32,
            n == (a << 28u32) | (b << 24u32) | (c << 20u32) | (d << 16u32) | (e << 12u32) | (f << 8u32) | (g
                << 4u32) | h,
    ;
    lemma_hex_digit_of_value(t[0]);
    lemma_hex_digit_of_value(t[1]);
    lemma_hex_digit_of_value(t[2]);
    lemma_hex_digit_of_value(t[3]);
    lemma_hex_digit_of_value(t[4]);
    lemma_hex_digit_of_value(t[5]);
    lemma_hex_digit_of_value(t[6]);
    lemma_hex_digit_of_value(t[7]);
    assert(hex8(n) =~= t.subrange(0, 8));
}

/// An escape read back gives the character it was written for.
proof fn lemma_escaped_char_of(c: char)
    requires
        !plain(c),
    ensures
        escaped_char(hex8(c as u32)) == Some(c),
{
    lemma_hex8_round_trip(c as u32);
    let t = hex8(c as u32);
    assert(escapes_to(c, hex8_value(t)));
    let d = escaped_char(t)->0;
    assert(escapes_to(d, hex8_value(t)));
    lemma_code_injective(c, d);
}

proof fn lemma_take_field_escaped(f: Seq<char>, rest: Seq<char>)
    ensures
        take_field(field(f) + rest) == Some((f, rest)),
    decreases f.len(),
{
    let s = field(f) + rest;
    if f.len() == 0 {
        assert(s =~= seq!['.'] + rest);
        assert(s.drop_first() =~= rest);
    } else {
        let t = f.drop_first();
        assert(field(f) =~= escape_char(f[0]) + field(t));
        lemma_take_field_escaped(t, rest);
        if plain(f[0]) {
            assert(s =~= seq![f[0]] + (field(t) + rest));
            assert(s.drop_first() =~= field(t) + rest);
        } else {
            let h = hex8(f[0] as u32);
            assert(s =~= seq!['~'] + h + (field(t) + rest));
            assert(s.subrange(1, 9) =~= h);
            assert(s.subrange(9, s.len() as int) =~= field(t) + rest);
            lemma_escaped_char_of(f[0]);
        }
        assert(seq![f[0]] + t =~= f);
    }
}

proof fn lemma_take_field_sound(s: Seq<char>)
    requires
        take_field(s) is Some,
    ensures
        take_field(s) matches Some((f, rest)) && s == field(f) + rest,
    decreases s.len(),
{
    let (f, rest) = take_field(s)->0;
    if s[0] == '.' {
        assert(s =~= field(f) + rest);
    } else if s[0] == '~' {
        let t = s.subrange(1, 9);
        let c = escaped_char(t)->0;
        let s2 = s.subrange(9, s.len() as int);
        lemma_take_field_sound(s2);
        let (f2, _) = take_field(s2)->0;
        assert(f.drop_first() =~= f2);
        assert(field(f) =~= escape_char(c) + field(f2));
        assert(s2 == field(f2) + rest);
        lemma_hex8_of_value(t);
        assert(t.subrange(0, 8) =~= t);
        assert(escape_char(c) =~= seq!['~'] + t);
        assert(s =~= seq![s[0]] + t + s2);
        assert(s =~= field(f) + rest);
    } else {
        let s2 = s.drop_first();
        lemma_take_field_sound(s2);
        let (f2, _) = take_field(s2)->0;
        assert(f.drop_first() =~= f2);
        assert(field(f) =~= escape_char(s[0]) + field(f2));
        assert(s2 == field(f2) + rest);
        assert(s =~= seq![s[0]] + s2);
        assert(s =~= field(f) + rest);
    }
}

proof fn lemma_escaped_url_safe(s: Seq<char>)
    ensures
        forall|i: int| 0 <= i < escaped(s).len() ==> url_safe(#[trigger] escaped(s)[i]),
    decreases s.len(),
{
    if s.len() > 0 {
        lemma_escaped_url_safe(s.drop_first());
        let e = escape_char(s[0]);
        let all = escaped(s);
        assert forall|i: int| 0 <= i < e.len() implies url_safe(#[trigger] e[i]) by {
            if !plain(s[0]) && i > 0 {
                let n = s[0] as u32;
                assert(hex8(n)[i - 1] == e[i]);
                assert(((n >> 28u32) & 15u32) < 16 && ((n >> 24u32) & 15u32) < 16 && ((n >> 20u32) & 15u32) < 16
                    && ((n >> 16u32) & 15u32) < 16 && ((n >> 12u32) & 15u32) < 16 && ((n >> 8u32) & 15u32) < 16
                    && ((n >> 4u32) & 15u32) < 16 && (n & 15u32) < 16) by (bit_vector);
            }
        }
        assert forall|i: int| 0 <= i < all.len() implies url_safe(#[trigger] all[i]) by {
            if i < e.len() {
                assert(all[i] == e[i]);
            } else {
                assert(all[i] == escaped(s.drop_first())[i - e.len()]);
            }
        }
    }
}

/// Every character of a token is URL-unreserved.
pub proof fn lemma_encoded_url_safe(attrs: Seq<Attribute>)
    ensures
        forall|i: int| 0 <= i < encoded(attrs).len() ==> url_safe(#[trigger] encoded(attrs)[i]),
    decreases attrs.len(),
{
    if attrs.len() > 0 {
        let a = field(attrs[0].0);
        let b = field(attrs[0].1);
        let r = encoded(attrs.drop_first());
        lemma_escaped_url_safe(attrs[0].0);
        lemma_escaped_url_safe(attrs[0].1);
        lemma_encoded_url_safe(attrs.drop_first());
        let all = encoded(attrs);
        assert(all == a + b + r);
        assert forall|i: int| 0 <= i < all.len() implies url_safe(#[trigger] all[i]) by {
            if i < a.len() {
                assert(all[i] == a[i]);
                if i < a.len() - 1 {
                    assert(a[i] == escaped(attrs[0].0)[i]);
                }
            } else if i < a.len() + b.len() {
                assert(all[i] == b[i - a.len()]);
                if i - a.len() < b.len() - 1 {
                    assert(b[i - a.len()] == escaped(attrs[0].1)[i - a.len()]);
                }
            } else {
                assert(all[i] == r[i - a.len() - b.len()]);
            }
        }
    }
}

/// Reading a token back gives the attributes it was written from.
pub proof fn lemma_decode_encode(attrs: Seq<Attribute>)
    ensures
        decoded(encoded(attrs)) == Some(attrs),
    decreases attrs.len(),
{
    if attrs.len() > 0 {
        let tail = attrs.drop_first();
        let s = encoded(attrs);
        assert(s =~= field(attrs[0].0) + (field(attrs[0].1) + encoded(tail)));
        lemma_take_field_escaped(attrs[0].0, field(attrs[0].1) + encoded(tail));
        lemma_take_field_escaped(attrs[0].1, encoded(tail));
        lemma_decode_encode(tail);
        assert(seq![(attrs[0].0, attrs[0].1)] + tail =~= attrs);
    } else {
        assert(encoded(attrs) =~= seq![]);
    }
}

/// A token that reads back is the token of what it reads back to.
pub proof fn lemma_encode_decode(s: Seq<char>)
    requires
        decoded(s) is Some,
    ensures
        encoded(decoded(s)->0) == s,
    decreases s.len(),
{
    if s.len() > 0 {
        let (name, r1) = take_field(s)->0;
        let (value, r2) = take_field(r1)->0;
        lemma_take_field_sound(s);
        lemma_take_field_sound(r1);
        lemma_take_field_shorter(s);
        lemma_take_field_shorter(r1);
        lemma_encode_decode(r2);
        let attrs = decoded(s)->0;
        assert(attrs.drop_first() =~= decoded(r2)->0);
        assert(s =~= field(name) + field(value) + r2);
    }
}

proof fn lemma_escaped_push(a: Seq<char>, c: char)
    ensures
        escaped(a.push(c)) == escaped(a) + escape_char(c),
    decreases a.len(),
{
    if a.len() == 0 {
        assert(a.push(c).drop_first() =~= seq![]);
        reveal_with_fuel(escaped, 2);
        assert(escaped(a.push(c)) =~= escape_char(c));
    } else {
        assert(a.push(c).drop_first() =~= a.drop_first().push(c));
        lemma_escaped_push(a.drop_first(), c);
        assert(escaped(a.push(c)) =~= escaped(a) + escape_char(c));
    }
}

proof fn lemma_encoded_push(attrs: Seq<Attribute>, a: Attribute)
    ensures
        encoded(attrs.push(a)) == encoded(attrs) + field(a.0) + field(a.1),
    decreases attrs.len(),
{
    if attrs.len() == 0 {
        assert(attrs.push(a).drop_first() =~= seq![]);
        reveal_with_fuel(encoded, 2);
        assert(encoded(attrs.push(a)) =~= field(a.0) + field(a.1));
    } else {
        assert(attrs.push(a).drop_first() =~= attrs.drop_first().push(a));
        lemma_encoded_push(attrs.drop_first(), a);
        assert(encoded(attrs.push(a)) =~= encoded(attrs) + field(a.0) + field(a.1));
    }
}

/// Puts `prefix` in front of the text of a field read by `take_field`.
pub open spec fn prefixed(prefix: Seq<char>, r: Option<(Seq<char>, Seq<char>)>) -> Option<(Seq<char>, Seq<char>)> {
    match r {
        Some((f, rest)) => Some((prefix + f, rest)),
        None => None,
    }
}

/// Puts `prefix` in front of the attributes read by `decoded`.
pub open spec fn prefixed_attrs(prefix: Seq<Attribute>, r: Option<Seq<Attribute>>) -> Option<Seq<Attribute>> {
    match r {
        Some(rest) => Some(prefix + rest),
        None => None,
    }
}

pub open spec fn attr_view(p: (String, String)) -> Attribute {
    (p.0@, p.1@)
}

/// The attributes held by a vector of name and value strings.
pub open spec fn attrs_of(v: Seq<(String, String)>) -> Seq<Attribute> {
    Seq::new(v.len(), |i: int| attr_view(v[i]))
}

/// A raw index position: the key attributes of the last item a scan
/// returned, each with a string value, each name at most once.
#[derive(PartialEq, Eq, Debug)]
pub struct Cursor(Vec<(String, String)>);

impl View for Cursor {
    type V = Seq<Attribute>;

    closed spec fn view(&self) -> Seq<Attribute> {
        attrs_of(self.0@)
    }
}

impl Clone for Cursor {
    fn clone(&self) -> (r: Cursor)
        ensures
            r@ == self@,
    {
        proof { use_type_invariant(self); }
        let mut v: Vec<(String, String)> = Vec::new();
        let mut i: usize = 0;
        while i < self.0.len()
            invariant
                i <= self.0@.len(),
                self@ == attrs_of(self.0@),
                sorted_names(self@),
                v@.len() == i,
                forall|k: int| 0 <= k < i ==> #[trigger] attr_view(v@[k]) == self@[k],
            decreases self.0@.len() - i,
        {
            let name = self.0[i].0.clone();
            let value = self.0[i].1.clone();
            v.push((name, value));
            i += 1;
        }
        assert(attrs_of(v@) =~= self@);
        Cursor(v)
    }
}

impl Cursor {
    #[verifier::type_invariant]
    spec fn names_sorted(&self) -> bool {
        sorted_names(self@)
    }

    /// The position with no attributes.
    pub fn new() -> (r: Cursor)
        ensures
            r@ == Seq::<Attribute>::empty(),
    {
        let r = Cursor(Vec::new());
        assert(r@ =~= Seq::<Attribute>::empty());
        r
    }

    fn index_of(&self, name: &str) -> (r: Option<usize>)
        ensures
            r matches Some(i) ==> i < self@.len() && self@[i as int].0 == name@,
            r is None ==> forall|i: int| 0 <= i < self@.len() ==> self@[i].0 != name@,
    {
        let wanted = String::from_str(name);
        let mut i: usize = 0;
        while i < self.0.len()
            invariant
                i <= self.0@.len(),
                self@.len() == self.0@.len(),
                wanted@ == name@,
                forall|j: int| 0 <= j < i ==> self@[j].0 != name@,
            decreases self.0@.len() - i,
        {
            assert(self@[i as int] == attr_view(self.0@[i as int]));
            if self.0[i].0 == wanted {
                return Some(i);
            }
            i += 1;
        }
        None
    }

    /// Sets attribute `name` to `value`: in place where it is present, else
    /// where its name belongs in the canonical order.
    pub fn insert(&mut self, name: String, value: String)
        ensures
            sorted_names(final(self)@),
            forall|i: int| 0 <= i < old(self)@.len() && old(self)@[i].0 == name@
                ==> final(self)@ == old(self)@.update(i, (name@, value@)),
            (forall|i: int| 0 <= i < old(self)@.len() ==> old(self)@[i].0 != name@) ==> exists|p: int|
                0 <= p <= old(self)@.len() && final(self)@ == old(self)@.insert(p, (name@, value@)),
            (forall|i: int| 0 <= i < old(self)@.len() ==> precedes(#[trigger] old(self)@[i].0, name@))
                ==> final(self)@ == old(self)@.push((name@, value@)),
    {
        proof { use_type_invariant(&*self); }
        let ghost before = self@;
        let mut taken = Cursor::new();
        core::mem::swap(self, &mut taken);
        let mut v = taken.0;
        assert(attrs_of(v@) == before);
        let mut i: usize = 0;
        while i < v.len() && str_precedes(v[i].0.as_str(), name.as_str())
            invariant
                attrs_of(v@) == before,
                i <= before.len(),
                forall|k: int| 0 <= k < i ==> precedes(#[trigger] before[k].0, name@),
            decreases before.len() - i,
        {
            assert(before[i as int] == attr_view(v@[i as int]));
            i += 1;
        }
        proof {
            if i < before.len() {
                assert(before[i as int] == attr_view(v@[i as int]));
            }
        }
        if i < v.len() && v[i].0 == name {
            v.set(i, (name, value));
            proof {
                let after = attrs_of(v@);
                assert(after =~= before.update(i as int, (name@, value@)));
                assert forall|a: int, b: int| 0 <= a < b < after.len() implies precedes(#[trigger] after[a].0,
                    #[trigger] after[b].0) by {
                    assert(precedes(before[a].0, before[b].0));
                }
                assert forall|k: int| 0 <= k < before.len() && before[k].0 == name@ implies after
                    == before.update(k, (name@, value@)) by {
                    if k != i {
                        if k < i {
                            assert(precedes(before[k].0, before[i as int].0));
                        } else {
                            assert(precedes(before[i as int].0, before[k].0));
                        }
                        lemma_precedes_irreflexive(name@);
                    }
                }
                if forall|k: int| 0 <= k < before.len() ==> precedes(#[trigger] before[k].0, name@) {
                    lemma_precedes_irreflexive(name@);
                    assert(precedes(before[i as int].0, name@));
                }
            }
        } else {
            v.insert(i, (name, value));
            proof {
                let after = attrs_of(v@);
                assert(after =~= before.insert(i as int, (name@, value@)));
                if i < before.len() {
                    assert(before[i as int].0 != name@);
                    lemma_precedes_total(before[i as int].0, name@);
                }
                assert forall|a: int, b: int| 0 <= a < b < after.len() implies precedes(#[trigger] after[a].0,
                    #[trigger] after[b].0) by {
                    if b < i {
                        assert(precedes(before[a].0, before[b].0));
                    } else if b == i {
                    } else if a < i {
                        assert(after[b] == before[b - 1]);
                        if b - 1 > i {
                            assert(precedes(before[i as int].0, before[b - 1].0));
                            lemma_precedes_transitive(name@, before[i as int].0, before[b - 1].0);
                        }
                        lemma_precedes_transitive(before[a].0, name@, before[b - 1].0);
                    } else if a == i {
                        assert(after[b] == before[b - 1]);
                        if b - 1 > i {
                            assert(precedes(before[i as int].0, before[b - 1].0));
                            lemma_precedes_transitive(name@, before[i as int].0, before[b - 1].0);
                        }
                    } else {
                        assert(after[a] == before[a - 1] && after[b] == before[b - 1]);
                        assert(precedes(before[a - 1].0, before[b - 1].0));
                    }
                }
                assert forall|k: int| 0 <= k < before.len() implies before[k].0 != name@ by {
                    if k < i {
                        lemma_precedes_irreflexive(name@);
                    } else {
                        if k > i {
                            assert(precedes(before[i as int].0, before[k].0));
                            lemma_precedes_transitive(name@, before[i as int].0, before[k].0);
                        }
                        lemma_precedes_irreflexive(name@);
                    }
                }
                if forall|k: int| 0 <= k < before.len() ==> precedes(#[trigger] before[k].0, name@) {
                    if i < before.len() {
                        lemma_precedes_transitive(name@, before[i as int].0, name@);
                        lemma_precedes_irreflexive(name@);
                    }
                    assert(after =~= before.push((name@, value@)));
                }
            }
        }
        *self = Cursor(v);
    }

    /// Whether the position has an attribute `name`.
    pub fn contains(&self, name: &str) -> (r: bool)
        ensures
            r == has_name(self@, name@),
    {
        self.index_of(name).is_some()
    }

    /// The value of attribute `name`, if the position has it.
    pub fn get(&self, name: &str) -> (r: Option<String>)
        ensures
            r matches Some(v) ==> exists|i: int| 0 <= i < self@.len() && #[trigger] self@[i] == (name@, v@),
            r is None ==> forall|i: int| 0 <= i < self@.len() ==> self@[i].0 != name@,
            sorted_names(self@),
            unique_names(self@),
    {
        proof {
            use_type_invariant(self);
            lemma_sorted_unique(self@);
        }
        match self.index_of(name) {
            Some(i) => {
                let v = self.0[i].1.clone();
                assert(self@[i as int] == (name@, v@));
                Some(v)
            },
            None => None,
        }
    }

    /// The attributes, in order.
    pub fn attributes(&self) -> (r: &Vec<(String, String)>)
        ensures
            attrs_of(r@) == self@,
            sorted_names(self@),
    {
        proof { use_type_invariant(self); }
        &self.0
    }

    /// The token of this position.
    pub fn to_string(&self) -> (r: String)
        ensures
            r@ == encoded(self@),
            forall|i: int| 0 <= i < r@.len() ==> url_safe(#[trigger] r@[i]),
    {
        proof { lemma_encoded_url_safe(self@); }
        let mut out = String::new();
        let mut i: usize = 0;
        while i < self.0.len()
            invariant
                i <= self.0@.len(),
                self@.len() == self.0@.len(),
                out@ == encoded(self@.subrange(0, i as int)),
            decreases self.0@.len() - i,
        {
            push_field(&mut out, self.0[i].0.as_str());
            push_field(&mut out, self.0[i].1.as_str());
            proof {
                assert(self@.subrange(0, i + 1) =~= self@.subrange(0, i as int).push(self@[i as int]));
                lemma_encoded_push(self@.subrange(0, i as int), self@[i as int]);
            }
            i += 1;
        }
        assert(self@.subrange(0, i as int) =~= self@);
        out
    }

    /// Reads a token back. Fails with `InvalidInputData` exactly when the
    /// token is not the token of a position.
    pub fn from_str(s: &str) -> (r: Result<Cursor, Error>)
        ensures
            r is Ok <==> (decoded(s@) matches Some(a) && sorted_names(a)),
            r matches Ok(c) ==> Some(c@) == decoded(s@) && encoded(c@) == s@,
            r matches Err(e) ==> e is InvalidInputData,
    {
        let chars = chars_of(s);
        let n = chars.len();
        let mut acc: Vec<(String, String)> = Vec::new();
        let mut pos: usize = 0;
        proof {
            assert(chars@.subrange(0, n as int) =~= chars@);
            if let Some(all) = decoded(chars@) {
                assert(attrs_of(acc@) + all =~= all);
            }
        }
        while pos < n
            invariant
                n == chars@.len(),
                chars@ == s@,
                pos <= n,
                decoded(s@) == prefixed_attrs(attrs_of(acc@), decoded(chars@.subrange(pos as int, n as int))),
                sorted_names(attrs_of(acc@)),
            decreases n - pos,
        {
            let ghost accv = attrs_of(acc@);
            let (name, p1) = match take_field_at(&chars, pos) {
                Some(t) => t,
                None => return Err(malformed()),
            };
            let (value, p2) = match take_field_at(&chars, p1) {
                Some(t) => t,
                None => return Err(malformed()),
            };
            let k = acc.len();
            if k > 0 {
                assert(accv[k - 1] == attr_view(acc@[k - 1]));
                if !str_precedes(acc[k - 1].0.as_str(), name.as_str()) {
                    proof {
                        if let Some(tail) = decoded(chars@.subrange(p2 as int, n as int)) {
                            let all = accv + (seq![(name@, value@)] + tail);
                            assert(decoded(chars@.subrange(pos as int, n as int)) == Some(seq![(name@, value@)] + tail));
                            assert(decoded(s@) == Some(all));
                            assert(all[k - 1] == accv[k - 1]);
                            assert(all[k as int].0 == name@);
                            assert(!precedes(all[k - 1].0, all[k as int].0));
                        }
                    }
                    return Err(malformed());
                }
            }
            acc.push((name, value));
            proof {
                let accv2 = attrs_of(acc@);
                assert(accv2 =~= accv.push((name@, value@)));
                assert forall|a: int, b: int| 0 <= a < b < accv2.len() implies precedes(#[trigger] accv2[a].0,
                    #[trigger] accv2[b].0) by {
                    if b < accv.len() {
                        assert(precedes(accv[a].0, accv[b].0));
                    } else if a < k - 1 {
                        assert(precedes(accv[a].0, accv[k - 1].0));
                        lemma_precedes_transitive(accv[a].0, accv[k - 1].0, name@);
                    }
                }
                match decoded(chars@.subrange(p2 as int, n as int)) {
                    Some(tail) => {
                        assert(accv + (seq![(name@, value@)] + tail) =~= accv2 + tail);
                    },
                    None => {},
                }
            }
            pos = p2;
        }
        proof {
            assert(chars@.subrange(pos as int, n as int) =~= Seq::<char>::empty());
            assert(attrs_of(acc@) + Seq::<Attribute>::empty() =~= attrs_of(acc@));
            lemma_encode_decode(s@);
        }
        Ok(Cursor(acc))
    }
}

fn malformed() -> (r: Error)
    ensures
        r is InvalidInputData,
{
    Error::InvalidInputData(String::from_str("malformed cursor"))
}

fn is_plain(c: char) -> (r: bool)
    ensures
        r == plain(c),
{
    let n = c as u32;
    (48 <= n && n <= 57) || (65 <= n && n <= 90) || (97 <= n && n <= 122) || n == 45 || n == 95
}

fn hex_char(d: u32) -> (r: char)
    requires
        d < 16,
    ensures
        r == hex_digit(d),
{
    if d == 0 { '0' }
    else if d == 1 { '1' }
    else if d == 2 { '2' }
    else if d == 3 { '3' }
    else if d == 4 { '4' }
    else if d == 5 { '5' }
    else if d == 6 { '6' }
    else if d == 7 { '7' }
    else if d == 8 { '8' }
    else if d == 9 { '9' }
    else if d == 10 { 'a' }
    else if d == 11 { 'b' }
    else if d == 12 { 'c' }
    else if d == 13 { 'd' }
    else if d == 14 { 'e' }
    else { 'f' }
}

fn hex_val(c: char) -> (r: u32)
    ensures
        r == hex_value(c),
{
    let n = c as u32;
    if 48 <= n && n <= 57 {
        n - 48
    } else if 97 <= n && n <= 102 {
        n - 87
    } else {
        16
    }
}

/// Appends `escape_char(c)`.
fn push_escaped(out: &mut String, c: char)
    ensures
        final(out)@ == old(out)@ + escape_char(c),
{
    if is_plain(c) {
        push_char(out, c);
    } else {
        let n = c as u32;
        proof {
            assert(((n >> 28u32) & 15u32) < 16 && ((n >> 24u32) & 15u32) < 16 && ((n >> 20u32) & 15u32) < 16 && ((n
                >> 16u32) & 15u32) < 16 && ((n >> 12u32) & 15u32) < 16 && ((n >> 8u32) & 15u32) < 16 && ((n
                >> 4u32) & 15u32) < 16 && (n & 15u32) < 16) by (bit_vector);
        }
        push_char(out, '~');
        push_char(out, hex_char((n >> 28u32) & 15u32));
        push_char(out, hex_char((n >> 24u32) & 15u32));
        push_char(out, hex_char((n >> 20u32) & 15u32));
        push_char(out, hex_char((n >> 16u32) & 15u32));
        push_char(out, hex_char((n >> 12u32) & 15u32));
        push_char(out, hex_char((n >> 8u32) & 15u32));
        push_char(out, hex_char((n >> 4u32) & 15u32));
        push_char(out, hex_char(n & 15u32));
        assert(final(out)@ =~= old(out)@ + escape_char(c));
    }
}

/// Appends `field(s)`.
fn push_field(out: &mut String, s: &str)
    ensures
        final(out)@ == old(out)@ + field(s@),
{
    let chars = chars_of(s);
    let mut i: usize = 0;
    let ghost start = out@;
    while i < chars.len()
        invariant
            chars@ == s@,
            i <= chars@.len(),
            out@ == start + escaped(chars@.subrange(0, i as int)),
        decreases chars@.len() - i,
    {
        let c = chars[i];
        proof {
            assert(chars@.subrange(0, i + 1) =~= chars@.subrange(0, i as int).push(c));
            lemma_escaped_push(chars@.subrange(0, i as int), c);
        }
        let ghost before = out@;
        push_escaped(out, c);
        assert(out@ =~= start + escaped(chars@.subrange(0, i + 1)));
        i += 1;
    }
    push_char(out, '.');
    assert(chars@.subrange(0, i as int) =~= s@);
    assert(out@ =~= start + field(s@));
}

/// The character escaped by the eight hex digits at `at`, if they are hex
/// digits and spell the code point of a character that is escaped.
fn read_escape(chars: &Vec<char>, at: usize) -> (r: Option<char>)
    requires
        at + 8 <= chars@.len(),
    ensures
        r == escaped_char(chars@.subrange(at as int, at + 8)),
{
    let ghost t = chars@.subrange(at as int, at + 8);
    let _len = chars.len();
    let a = hex_val(chars[at]);
    let b = hex_val(chars[at + 1]);
    let c = hex_val(chars[at + 2]);
    let d = hex_val(chars[at + 3]);
    let e = hex_val(chars[at + 4]);
    let f = hex_val(chars[at + 5]);
    let g = hex_val(chars[at + 6]);
    let h = hex_val(chars[at + 7]);
    assert(t[0] == chars@[at as int] && t[1] == chars@[at + 1] && t[2] == chars@[at + 2] && t[3] == chars@[at
        + 3] && t[4] == chars@[at + 4] && t[5] == chars@[at + 5] && t[6] == chars@[at + 6] && t[7] == chars@[at
        + 7]);
    if a >= 16 || b >= 16 || c >= 16 || d >= 16 || e >= 16 || f >= 16 || g >= 16 || h >= 16 {
        return None;
    }
    let n = (a << 28u32) | (b << 24u32) | (c << 20u32) | (d << 16u32) | (e << 12u32) | (f << 8u32) | (g << 4u32)
        | h;
    assert(n == hex8_value(t));
    match char_from_code(n) {
        Some(ch) => {
            if is_plain(ch) {
                proof {
                    if exists|x: char| #[trigger] escapes_to(x, n) {
                        let x = choose|x: char| #[trigger] escapes_to(x, n);
                        lemma_code_injective(x, ch);
                    }
                }
                None
            } else {
                proof {
                    assert(escapes_to(ch, n));
                    let x = escaped_char(t)->0;
                    assert(escapes_to(x, n));
                    lemma_code_injective(x, ch);
                }
                Some(ch)
            }
        },
        None => {
            proof {
                if exists|x: char| #[trigger] escapes_to(x, n) {
                    let x = choose|x: char| #[trigger] escapes_to(x, n);
                    assert(code_point(x) == n);
                }
            }
            None
        },
    }
}

/// Reads `take_field` at `start`: the field's text and the index after its
/// closing dot.
fn take_field_at(chars: &Vec<char>, start: usize) -> (r: Option<(String, usize)>)
    requires
        start <= chars@.len(),
    ensures
        match take_field(chars@.subrange(start as int, chars@.len() as int)) {
            Some((f, rest)) => r matches Some((fs, end)) && fs@ == f && start < end <= chars@.len()
                && rest == chars@.subrange(end as int, chars@.len() as int),
            None => r is None,
        },
{
    let n = chars.len();
    let mut acc = String::new();
    let mut i = start;
    proof {
        let t = take_field(chars@.subrange(start as int, n as int));
        assert(prefixed(seq![], t) =~= t) by {
            if let Some((f, rest)) = t {
                assert(Seq::<char>::empty() + f =~= f);
            }
        }
    }
    while i < n
        invariant
            n == chars@.len(),
            start <= i <= n,
            take_field(chars@.subrange(start as int, n as int)) == prefixed(
                acc@,
                take_field(chars@.subrange(i as int, n as int)),
            ),
        decreases n - i,
    {
        let ghost here = chars@.subrange(i as int, n as int);
        let c = chars[i];
        assert(here[0] == c);
        if c == '.' {
            assert(here.drop_first() =~= chars@.subrange(i + 1, n as int));
            assert(acc@ + Seq::<char>::empty() =~= acc@);
            return Some((acc, i + 1));
        } else if c == '~' {
            if n - i < 9 {
                return None;
            }
            assert(here.subrange(1, 9) =~= chars@.subrange(i + 1, i + 9));
            assert(here.subrange(9, here.len() as int) =~= chars@.subrange(i + 9, n as int));
            match read_escape(chars, i + 1) {
                Some(d) => {
                    let ghost old_acc = acc@;
                    push_char(&mut acc, d);
                    proof {
                        if let Some((f, rest)) = take_field(chars@.subrange(i + 9, n as int)) {
                            assert(old_acc + (seq![d] + f) =~= acc@ + f);
                        }
                    }
                    i = i + 9;
                },
                None => {
                    return None;
                },
            }
        } else if is_plain(c) {
            assert(here.drop_first() =~= chars@.subrange(i + 1, n as int));
            let ghost old_acc = acc@;
            push_char(&mut acc, c);
            proof {
                if let Some((f, rest)) = take_field(chars@.subrange(i + 1, n as int)) {
                    assert(old_acc + (seq![c] + f) =~= acc@ + f);
                }
            }
            i = i + 1;
        } else {
            return None;
        }
    }
    None
}

/// Relies on `char::from_u32`: the character whose code point is `n`, or
/// `None` where `n` is no character's code point.
#[verifier::external_body]
fn char_from_code(n: u32) -> (r: Option<char>)
    ensures
        r matches Some(c) ==> c as u32 == n,
        r is None ==> forall|c: char| #[trigger] code_point(c) != n,
{
    char::from_u32(n)
}

/// Relies on `String::push`: appends one character.
#[verifier::external_body]
fn push_char(s: &mut String, c: char)
    ensures
        final(s)@ == old(s)@.push(c),
{
    s.push(c)
}

} // verus!
