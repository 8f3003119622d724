//! Session identifiers: UUIDs held as `u128`, their text, and parsing them
//! back with the `uuid` crate.
use vstd::prelude::*;
use vstd::arithmetic::div_mod::{lemma_basic_div, lemma_div_denominator, lemma_fundamental_div_mod};

verus! {

/// The lower-case hexadecimal digit for `d` (0 to 15).
pub open spec fn hex_char(d: int) -> char {
    if d < 10 {
        (d + 48) as char
    } else {
        (d + 87) as char
    }
}

/// `16` to the power `e`.
pub open spec fn pow16(e: nat) -> int
    decreases e,
{
    if e == 0 {
        1
    } else {
        16 * pow16((e - 1) as nat)
    }
}

/// The `k`-th hexadecimal digit of `v`, most significant first (0 to 31).
pub open spec fn nibble(v: u128, k: int) -> int {
    (v as int / pow16((31 - k) as nat)) % 16
}

/// The 32 lower-case hexadecimal digits of `v`, most significant first.
pub open spec fn uuid_digits(v: u128) -> Seq<char> {
    Seq::new(32, |k: int| hex_char(nibble(v, k)))
}

/// The hyphenated text of a UUID, `8-4-4-4-12` lower-case hexadecimal digits,
/// as `Uuid`'s `Display` writes it
/// (e.g. `a1a2a3a4-b1b2-c1c2-d1d2-d3d4d5d6d7d8`).
pub open spec fn uuid_text(v: u128) -> Seq<char> {
    let d = uuid_digits(v);
    d.take(8) + seq!['-'] + d.subrange(8, 12) + seq!['-'] + d.subrange(12, 16) + seq!['-']
        + d.subrange(16, 20) + seq!['-'] + d.subrange(20, 32)
}

pub open spec fn is_hex(c: char) -> bool {
    let n = c as u32;
    ||| 48 <= n <= 57
    ||| 97 <= n <= 102
    ||| 65 <= n <= 70
}

pub open spec fn hex_val(c: char) -> int {
    let n = c as u32;
    if n <= 57 {
        n - 48
    } else if n >= 97 {
        n - 87
    } else {
        n - 55
    }
}

/// The number that the hexadecimal digits `d` write, most significant first.
pub open spec fn hex_number(d: Seq<char>) -> int
    decreases d.len(),
{
    if d.len() == 0 {
        0
    } else {
        hex_number(d.drop_last()) * 16 + hex_val(d.last())
    }
}

/// The 32 digits of a 36-character hyphenated text, hyphens left out.
pub open spec fn hyphenated_digits(s: Seq<char>) -> Seq<char> {
    s.take(8) + s.subrange(9, 13) + s.subrange(14, 18) + s.subrange(19, 23) + s.subrange(24, 36)
}

/// 32 hexadecimal digits, either case.
pub open spec fn is_simple_uuid(s: Seq<char>) -> bool {
    &&& s.len() == 32
    &&& forall|k: int| 0 <= k < 32 ==> is_hex(#[trigger] s[k])
}

/// `8-4-4-4-12` hexadecimal digits, either case.
pub open spec fn is_hyphenated_uuid(s: Seq<char>) -> bool {
    &&& s.len() == 36
    &&& s[8] == '-' && s[13] == '-' && s[18] == '-' && s[23] == '-'
    &&& forall|k: int| 0 <= k < 32 ==> is_hex(#[trigger] hyphenated_digits(s)[k])
}

/// `c` with an ASCII capital letter made small.
pub open spec fn ascii_lower(c: char) -> char {
    let n = c as u32;
    if 65 <= n <= 90 {
        (n + 32) as char
    } else {
        c
    }
}

pub open spec fn urn_prefix() -> Seq<char> {
    seq!['u', 'r', 'n', ':', 'u', 'u', 'i', 'd', ':']
}

/// `{`, a hyphenated UUID, `}`.
pub open spec fn is_braced_uuid(s: Seq<char>) -> bool {
    &&& s.len() == 38
    &&& s[0] == '{' && s[37] == '}'
    &&& is_hyphenated_uuid(s.subrange(1, 37))
}

/// `urn:uuid:` in either case of letters, then a hyphenated UUID.
pub open spec fn is_urn_uuid(s: Seq<char>) -> bool {
    &&& s.len() == 45
    &&& forall|k: int| 0 <= k < 9 ==> ascii_lower(#[trigger] s[k]) == urn_prefix()[k]
    &&& is_hyphenated_uuid(s.skip(9))
}

/// What `Uuid::parse_str(s)` gives, as a `u128`: the simple, hyphenated,
/// braced and URN forms are read as hexadecimal numbers; every other text
/// is refused.
pub open spec fn parsed_uuid(s: Seq<char>) -> Option<u128> {
    if is_simple_uuid(s) {
        Some(hex_number(s) as u128)
    } else if is_hyphenated_uuid(s) {
        Some(hex_number(hyphenated_digits(s)) as u128)
    } else if is_braced_uuid(s) {
        Some(hex_number(hyphenated_digits(s.subrange(1, 37))) as u128)
    } else if is_urn_uuid(s) {
        Some(hex_number(hyphenated_digits(s.skip(9))) as u128)
    } else {
        None
    }
}

/// Calls `uuid::Uuid::from_u128(v).to_string()`: the hyphenated lower-case
/// text of the UUID whose big-endian value is `v`.
#[verifier::external_body]
fn uuid_string(v: u128) -> (r: String)
    ensures
        r@ == uuid_text(v),
{
    uuid::Uuid::from_u128(v).to_string()
}

/// Calls `uuid::Uuid::parse_str(s)` and takes the parsed UUID's value with
/// `as_u128`. The contract claims what the crate's parser shows: it accepts
/// 32 hexadecimal digits; 36 characters with hyphens at positions 8, 13, 18
/// and 23 and hexadecimal digits elsewhere; that form between `{` and `}`;
/// and that form after `urn:uuid:` in either case. The digits, in either
/// case, are read as a big-endian number. Any other text is refused (all
/// accepted texts are ASCII, so their byte and character lengths agree).
#[verifier::external_body]
fn parse_uuid_str(s: &str) -> (r: Option<u128>)
    ensures
        r == parsed_uuid(s@),
{
    match uuid::Uuid::parse_str(s) {
        Ok(u) => Some(u.as_u128()),
        Err(_) => None,
    }
}

/// The text of the session identifier `sid`, as it is sent to clients.
pub fn session_id_text(sid: u128) -> (r: String)
    ensures
        r@ == uuid_text(sid),
{
    uuid_string(sid)
}

/// The session identifier that `s` names, if it is a UUID.
pub fn parse_session_id(s: &str) -> (r: Option<u128>)
    ensures
        r == parsed_uuid(s@),
{
    parse_uuid_str(s)
}

proof fn lemma_pow16_pos(e: nat)
    ensures
        pow16(e) > 0,
    decreases e,
{
    if e > 0 {
        lemma_pow16_pos((e - 1) as nat);
        assert(pow16(e) == 16 * pow16((e - 1) as nat));
    }
}

proof fn lemma_pow16_32()
    ensures
        pow16(32) == 0x1_0000_0000_0000_0000_0000_0000_0000_0000int,
{
    reveal_with_fuel(pow16, 33);
}

/// The first `m` digits of `v` write `v / 16^(32 - m)`.
proof fn lemma_digits_prefix(v: u128, m: int)
    requires
        0 <= m <= 32,
    ensures
        hex_number(uuid_digits(v).take(m)) == v as int / pow16((32 - m) as nat),
    decreases m,
{
    let d = uuid_digits(v);
    if m == 0 {
        assert(d.take(0) =~= Seq::<char>::empty());
        lemma_pow16_32();
        assert(0 <= v as int && (v as int) < pow16(32));
        lemma_basic_div(v as int, pow16(32));
    } else {
        lemma_digits_prefix(v, m - 1);
        assert(d.take(m).drop_last() =~= d.take(m - 1));
        let p = pow16((32 - m) as nat);
        lemma_pow16_pos((32 - m) as nat);
        assert(pow16((32 - (m - 1)) as nat) == 16 * p);
        let x = v as int / p;
        assert(x >= 0);
        let n = x % 16;
        assert(0 <= n < 16);
        assert(d.take(m).last() == hex_char(nibble(v, m - 1)));
        assert(nibble(v, m - 1) == n);
        assert(hex_val(hex_char(n)) == n);
        lemma_div_denominator(v as int, p, 16);
        assert(v as int / (p * 16) == x / 16);
        assert(p * 16 == 16 * p);
        lemma_fundamental_div_mod(x, 16);
    }
}

/// The hyphenated text of `v` is read back as `v`.
pub proof fn lemma_uuid_text_parses(v: u128)
    ensures
        parsed_uuid(uuid_text(v)) == Some(v),
        forall|i: int|
            0 <= i < uuid_text(v).len() ==> is_hex(#[trigger] uuid_text(v)[i]) || uuid_text(
                v,
            )[i] == '-',
        uuid_text(v).len() == 36,
{
    let d = uuid_digits(v);
    let t = uuid_text(v);
    assert(hyphenated_digits(t) =~= d);
    assert forall|k: int| 0 <= k < 32 implies #[trigger] is_hex(d[k]) by {
        lemma_pow16_pos((31 - k) as nat);
        let n = nibble(v, k);
        assert(0 <= n < 16);
    }
    assert forall|i: int| 0 <= i < t.len() implies is_hex(#[trigger] t[i]) || t[i] == '-' by {
        if i < 8 {
            assert(t[i] == d[i]);
        } else if i == 8 || i == 13 || i == 18 || i == 23 {
        } else if i < 13 {
            assert(t[i] == d[i - 1]);
        } else if i < 18 {
            assert(t[i] == d[i - 2]);
        } else if i < 23 {
            assert(t[i] == d[i - 3]);
        } else {
            assert(t[i] == d[i - 4]);
        }
    }
    assert(!is_simple_uuid(t));
    assert(is_hyphenated_uuid(t));
    lemma_digits_prefix(v, 32);
    assert(d.take(32) =~= d);
}

} // verus!
