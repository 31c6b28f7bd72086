//! Clock, decimal ids, names and room codes.

use vstd::prelude::*;
use rand::Rng;
use vstd::string::StringExecFns;
use vstd::utf8::{decode_utf8, pop_first_scalar, valid_utf8};

use crate::codec::string_from_utf8;

verus! {

pub open spec fn digit_char(d: nat) -> char {
    ((48 + d) as u8) as char
}

/// Decimal digits of `n`, most significant first, without sign or padding.
pub open spec fn decimal_spec(n: nat) -> Seq<char>
    decreases n,
{
    if n < 10 {
        seq![digit_char(n)]
    } else {
        decimal_spec(n / 10) + seq![digit_char(n % 10)]
    }
}

/// The ASCII digits of `n` in decimal.
fn decimal_bytes(n: u64) -> (r: Vec<u8>)
    ensures
        r@.map_values(|b: u8| b as char) == decimal_spec(n as nat),
        forall|i: int| 0 <= i < r@.len() ==> r@[i] < 128,
    decreases n,
{
    if n < 10 {
        let v = vec![48 + n as u8];
        assert(v@.map_values(|b: u8| b as char) =~= decimal_spec(n as nat));
        v
    } else {
        let mut v = decimal_bytes(n / 10);
        let ghost prev = v@;
        v.push(48 + (n % 10) as u8);
        assert(v@.map_values(|b: u8| b as char) =~= prev.map_values(|b: u8| b as char) + seq![digit_char((n % 10) as nat)]);
        v
    }
}

/// `n` in decimal, as sent in messages that carry a client id.
pub fn id_string(n: usize) -> (r: String)
    ensures
        r@ == decimal_spec(n as nat),
{
    number_string(n as u64)
}

/// `n` in decimal.
pub fn number_string(n: u64) -> (r: String)
    ensures
        r@ == decimal_spec(n as nat),
{
    let bytes = decimal_bytes(n);
    let ghost b = bytes@;
    proof {
        lemma_ascii_utf8(b);
    }
    string_from_utf8(bytes).unwrap()
}

/// The name, a space, and the number in decimal.
pub fn numbered_name(base: &str, n: u64) -> (r: String)
    ensures
        r@ == base@ + seq![' '] + decimal_spec(n as nat),
{
    let mut name = base.to_owned();
    let space = " ";
    proof {
        reveal_strlit(" ");
    }
    name.append(space);
    let digits = number_string(n);
    name.append(digits.as_str());
    name
}

/// Unicode's White_Space characters, which `char::is_whitespace` accepts.
pub open spec fn white_space(c: char) -> bool {
    let v = c as u32;
    ||| 0x09 <= v <= 0x0D
    ||| v == 0x20
    ||| v == 0x85
    ||| v == 0xA0
    ||| v == 0x1680
    ||| 0x2000 <= v <= 0x200A
    ||| v == 0x2028
    ||| v == 0x2029
    ||| v == 0x202F
    ||| v == 0x205F
    ||| v == 0x3000
}

/// `s` without its leading white space.
pub open spec fn trim_start_spec(s: Seq<char>) -> Seq<char>
    decreases s.len(),
{
    if s.len() > 0 && white_space(s[0]) {
        trim_start_spec(s.drop_first())
    } else {
        s
    }
}

/// `s` without its trailing white space.
pub open spec fn trim_end_spec(s: Seq<char>) -> Seq<char>
    decreases s.len(),
{
    if s.len() > 0 && white_space(s.last()) {
        trim_end_spec(s.drop_last())
    } else {
        s
    }
}

/// `s` without white space at either end.
pub open spec fn trim_spec(s: Seq<char>) -> Seq<char> {
    trim_end_spec(trim_start_spec(s))
}

/// Relies on `str::trim`: the text without leading and trailing White_Space characters.
#[verifier::external_body]
pub(crate) fn trim(s: &str) -> (r: &str)
    ensures
        r@ == trim_spec(s@),
{
    s.trim()
}

/// Relies on `SystemTime::now`: milliseconds since the Unix epoch; nothing is promised of
/// the value.
#[verifier::external_body]
pub fn unix_now() -> (r: u128) {
    match std::time::SystemTime::now().duration_since(std::time::SystemTime::UNIX_EPOCH) {
        Ok(d) => d.as_millis(),
        Err(_) => 0,
    }
}

/// Relies on `SystemTime::now`: seconds since the Unix epoch; nothing is promised of the
/// value.
#[verifier::external_body]
pub fn unix_now_secs() -> (r: u64) {
    match std::time::SystemTime::now().duration_since(std::time::SystemTime::UNIX_EPOCH) {
        Ok(d) => d.as_secs(),
        Err(_) => 0,
    }
}

/// The moment `secs` seconds after `now_ms`, in milliseconds.
pub fn unix_timestamp_to(now_ms: u64, secs: u64) -> (r: u128)
    ensures
        r == now_ms + secs * 1000,
{
    now_ms as u128 + secs as u128 * 1000
}

/// Relies on `rand::Rng::gen_range` over `thread_rng`: a number below `n`.
#[verifier::external_body]
fn random_below(n: u8) -> (r: u8)
    requires
        n > 0,
    ensures
        r < n,
{
    rand::thread_rng().gen_range(0..n)
}

/// ASCII bytes are valid UTF-8 and stand for the same characters.
pub proof fn lemma_ascii_utf8(b: Seq<u8>)
    requires
        forall|i: int| 0 <= i < b.len() ==> b[i] < 128,
    ensures
        valid_utf8(b),
        decode_utf8(b) == b.map_values(|x: u8| x as char),
    decreases b.len(),
{
    if b.len() > 0 {
        let x = b[0];
        assert(x & 0x7f == x) by (bit_vector)
            requires
                x < 128,
        ;
        assert(pop_first_scalar(b) =~= b.drop_first());
        lemma_ascii_utf8(b.drop_first());
        assert(decode_utf8(b) =~= b.map_values(|x: u8| x as char));
    }
}

/// A room code: four uppercase letters drawn at random.
pub fn gen_game_room_code() -> (r: String)
    ensures
        r@.len() == 4,
        forall|i: int| 0 <= i < 4 ==> 'A' <= #[trigger] r@[i] <= 'Z',
{
    let mut letters: Vec<u8> = Vec::new();
    let mut i: usize = 0;
    while i < 4
        invariant
            i <= 4,
            letters@.len() == i,
            forall|k: int| 0 <= k < i ==> 65 <= #[trigger] letters@[k] <= 90,
        decreases 4 - i,
    {
        letters.push(65 + random_below(26));
        i += 1;
    }
    proof {
        lemma_ascii_utf8(letters@);
    }
    let ghost bytes = letters@;
    let s = string_from_utf8(letters).unwrap();
    proof {
        assert forall|k: int| 0 <= k < 4 implies 'A' <= #[trigger] s@[k] <= 'Z' by {
            assert(s@[k] == bytes[k] as char);
        }
    }
    s
}

/// Two-digit label of a tile for board drawings: a leading zero below 10, "00" from 100 on.
pub fn to_double_digit(num: u8) -> (r: String)
    ensures
        r@.len() == 2,
        num < 100 ==> r@ == seq![digit_char((num / 10) as nat), digit_char((num % 10) as nat)],
        num >= 100 ==> r@ == seq!['0', '0'],
{
    let v: u8 = if num >= 100 { 0 } else { num };
    let mut bytes: Vec<u8> = Vec::new();
    bytes.push(48 + v / 10);
    bytes.push(48 + v % 10);
    proof {
        lemma_ascii_utf8(bytes@);
    }
    let ghost b = bytes@;
    let s = string_from_utf8(bytes).unwrap();
    proof {
        assert(s@ =~= seq![b[0] as char, b[1] as char]);
    }
    s
}

} // verus!
