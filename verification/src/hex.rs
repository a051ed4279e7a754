//! Bytes as hexadecimal text, and back.
use vstd::prelude::*;

verus! {

/// Why a text is not the hexadecimal spelling of bytes.
#[derive(Debug, PartialEq, Eq, Clone)]
pub enum DecodeHexError {
    /// Two characters that should spell a byte do not: they are handed back.
    ParseIntError(String),
    /// The text, handed back, takes an odd number of bytes.
    InvalidHexFormat(String),
}

/// The value of `c` as a hexadecimal digit, in either case.
pub open spec fn digit_value(c: char) -> Option<u8> {
    if '0' <= c <= '9' {
        Some((c as u8 - '0' as u8) as u8)
    } else if 'a' <= c <= 'f' {
        Some((c as u8 - 'a' as u8 + 10) as u8)
    } else if 'A' <= c <= 'F' {
        Some((c as u8 - 'A' as u8 + 10) as u8)
    } else {
        None
    }
}

/// The byte that two characters spell: two digits, the first worth sixteen
/// times the second, or a plus sign before one digit.
pub open spec fn pair_value(first: char, second: char) -> Option<u8> {
    match (digit_value(first), digit_value(second)) {
        (Some(high), Some(low)) => Some((16 * high + low) as u8),
        (None, Some(low)) => if first == '+' {
            Some(low)
        } else {
            None
        },
        _ => None,
    }
}

/// Whether each of the first `pairs` pairs of `text` spells a byte.
pub open spec fn pairs_spell(text: Seq<char>, pairs: int) -> bool {
    forall|k: int| 0 <= k < pairs ==> (#[trigger] pair_value(text[2 * k], text[2 * k + 1])) is Some
}

/// The bytes that the pairs of `text` spell. A character that is left over
/// behind the last pair says nothing.
pub open spec fn decoded(text: Seq<char>) -> Seq<u8> {
    Seq::new(text.len() / 2, |k: int| pair_value(text[2 * k], text[2 * k + 1])->0)
}

/// The lower-case digit of a value below sixteen.
pub open spec fn digit_of(value: u8) -> char {
    if value < 10 {
        ('0' as u8 + value) as char
    } else {
        ('a' as u8 + value - 10) as char
    }
}

/// The spelling of one byte: its upper four bits, unless they are zero, and
/// then its lower four.
pub open spec fn spelled(byte: u8) -> Seq<char> {
    if byte < 16 {
        seq![digit_of(byte)]
    } else {
        seq![digit_of(byte / 16), digit_of(byte % 16)]
    }
}

/// The spellings of `bytes`, one behind the other.
pub open spec fn encoded(bytes: Seq<u8>) -> Seq<char>
    decreases bytes.len(),
{
    if bytes.len() == 0 {
        Seq::empty()
    } else {
        encoded(bytes.drop_last()) + spelled(bytes.last())
    }
}

fn digit(c: char) -> (r: Option<u8>)
    ensures
        r == digit_value(c),
{
    if '0' <= c && c <= '9' {
        Some(c as u8 - '0' as u8)
    } else if 'a' <= c && c <= 'f' {
        Some(c as u8 - 'a' as u8 + 10)
    } else if 'A' <= c && c <= 'F' {
        Some(c as u8 - 'A' as u8 + 10)
    } else {
        None
    }
}

fn pair(first: char, second: char) -> (r: Option<u8>)
    ensures
        r == pair_value(first, second),
{
    match (digit(first), digit(second)) {
        (Some(high), Some(low)) => Some(16 * high + low),
        (None, Some(low)) => if first == '+' {
            Some(low)
        } else {
            None
        },
        _ => None,
    }
}

/// Reads bytes from their hexadecimal spelling, two characters to a byte.
///
/// A text of an odd number of bytes is turned away as a whole. Else the
/// characters are read in pairs, and the first pair that spells no byte ends
/// the reading.
pub fn decode(s: &str) -> (r: Result<Vec<u8>, DecodeHexError>)
    ensures
        s.len() % 2 != 0 ==> (r matches Err(DecodeHexError::InvalidHexFormat(text))
            && text@ == s@),
        s.len() % 2 == 0 && pairs_spell(s@, s@.len() as int / 2) ==> (r matches Ok(bytes)
            && bytes@ == decoded(s@)),
        s.len() % 2 == 0 && !pairs_spell(s@, s@.len() as int / 2) ==> (r matches Err(
            DecodeHexError::ParseIntError(text),
        ) && exists|k: int|
            {
                &&& 0 <= k && 2 * k + 1 < s@.len()
                &&& pairs_spell(s@, k)
                &&& #[trigger] pair_value(s@[2 * k], s@[2 * k + 1]) is None
                &&& text@ == seq![s@[2 * k], s@[2 * k + 1]]
            }),
{
    broadcast use vstd::string::group_string_axioms;

    if s.len() % 2 != 0 {
        return Err(DecodeHexError::InvalidHexFormat(s.to_string()));
    }
    let mut chars = s.chars();
    let mut result: Vec<u8> = Vec::new();
    loop
        invariant_except_break
            vstd::std_specs::iter::IteratorSpec::obeys_prophetic_iter_laws(&chars),
            2 * result@.len() <= s@.len(),
            vstd::std_specs::iter::IteratorSpec::remaining(&chars) == s@.skip(
                2 * result@.len() as int,
            ),
            pairs_spell(s@, result@.len() as int),
            forall|k: int|
                0 <= k < result@.len() ==> result@[k] == pair_value(s@[2 * k], s@[2 * k + 1])->0,
            s.len() % 2 == 0,
        ensures
            pairs_spell(s@, s@.len() as int / 2),
            result@ == decoded(s@),
        decreases s@.len() - 2 * result@.len(),
    {
        let ghost done = result@.len() as int;
        let first = match chars.next() {
            Some(c) => c,
            None => {
                assert(result@ =~= decoded(s@));
                break ;
            },
        };
        let second = match chars.next() {
            Some(c) => c,
            None => {
                assert(result@ =~= decoded(s@));
                break ;
            },
        };
        proof {
            assert(first == s@[2 * done]);
            assert(second == s@[2 * done + 1]);
            assert(s@.skip(2 * done).drop_first().drop_first() =~= s@.skip(2 * (done + 1)));
        }
        match pair(first, second) {
            Some(byte) => {
                result.push(byte);
            },
            None => {
                // The count of the characters bounds the offsets of the pair.
                let _characters: usize = s.unicode_len();
                let start: usize = 2 * result.len();
                let text = s.substring_char(start, start + 2).to_string();
                assert(text@ =~= seq![s@[2 * done], s@[2 * done + 1]]);
                return Err(DecodeHexError::ParseIntError(text));
            },
        }
    }
    Ok(result)
}

/// The text of one lower-case hexadecimal digit.
fn digit_text(value: u8) -> (r: &'static str)
    requires
        value < 16,
    ensures
        r@ == seq![digit_of(value)],
{
    proof {
        reveal_strlit("0");
        reveal_strlit("1");
        reveal_strlit("2");
        reveal_strlit("3");
        reveal_strlit("4");
        reveal_strlit("5");
        reveal_strlit("6");
        reveal_strlit("7");
        reveal_strlit("8");
        reveal_strlit("9");
        reveal_strlit("a");
        reveal_strlit("b");
        reveal_strlit("c");
        reveal_strlit("d");
        reveal_strlit("e");
        reveal_strlit("f");
    }
    let r = match value {
        0 => "0",
        1 => "1",
        2 => "2",
        3 => "3",
        4 => "4",
        5 => "5",
        6 => "6",
        7 => "7",
        8 => "8",
        9 => "9",
        10 => "a",
        11 => "b",
        12 => "c",
        13 => "d",
        14 => "e",
        _ => "f",
    };
    assert(r@ =~= seq![digit_of(value)]);
    r
}

/// Spells bytes in lower-case hexadecimal digits: each byte by its upper
/// four bits, unless they are zero, and then its lower four.
pub fn encode(bytes: &[u8]) -> (r: String)
    ensures
        r@ == encoded(bytes@),
{
    let mut result = String::new();
    let mut i: usize = 0;
    proof {
        assert(bytes@.take(0) =~= Seq::<u8>::empty());
    }
    while i < bytes.len()
        invariant
            i <= bytes@.len(),
            result@ == encoded(bytes@.take(i as int)),
        decreases bytes@.len() - i,
    {
        let byte: u8 = bytes[i];
        proof {
            assert(bytes@.take(i + 1).drop_last() =~= bytes@.take(i as int));
        }
        if byte >= 16 {
            result.append(digit_text(byte / 16));
        }
        result.append(digit_text(byte % 16));
        i += 1;
    }
    proof {
        assert(bytes@.take(bytes@.len() as int) =~= bytes@);
    }
    result
}

} // verus!
