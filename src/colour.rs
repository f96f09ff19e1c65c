use vstd::prelude::*;
use vstd::string::*;

verus! {

/// An opaque 8-bit RGB colour.
#[derive(Clone, Copy, Debug, PartialEq, Eq, Structural)]
pub struct Colour {
    pub r: u8,
    pub g: u8,
    pub b: u8,
}

/// Why a colour string was rejected.
#[derive(Clone, Copy, Debug, PartialEq, Eq, Structural)]
pub enum ColourError {
    /// A digit position held a character outside `0-9A-F`.
    InvalidHexCharacter(char),
    /// The digits do not form exactly three complete pairs.
    InvalidHexCode,
}

/// The value of one upper-case hexadecimal digit.
pub open spec fn hex_value(c: char) -> Option<u8> {
    if '0' <= c && c <= '9' {
        Some((c as u32 - '0' as u32) as u8)
    } else if 'A' <= c && c <= 'F' {
        Some((c as u32 - 'A' as u32 + 10) as u8)
    } else {
        None
    }
}

/// The number written by the digits `s`, most significant first. Digits
/// are examined from the right, so the error names the rightmost bad one.
pub open spec fn hex_number(s: Seq<char>) -> Result<nat, ColourError>
    decreases s.len(),
{
    if s.len() == 0 {
        Ok(0)
    } else {
        match hex_value(s.last()) {
            None => Err(ColourError::InvalidHexCharacter(s.last())),
            Some(d) => match hex_number(s.drop_last()) {
                Err(e) => Err(e),
                Ok(v) => Ok(v * 16 + d as nat),
            },
        }
    }
}

/// Decodes consecutive digit pairs, front to back, into bytes.
pub open spec fn decode_pairs(d: Seq<char>) -> Result<Seq<u8>, ColourError>
    decreases d.len(),
{
    if d.len() == 0 {
        Ok(Seq::<u8>::empty())
    } else if d.len() == 1 {
        Err(ColourError::InvalidHexCode)
    } else {
        match hex_number(d.subrange(0, 2)) {
            Err(e) => Err(e),
            Ok(v) => match decode_pairs(d.subrange(2, d.len() as int)) {
                Err(e) => Err(e),
                Ok(rest) => Ok(seq![v as u8] + rest),
            },
        }
    }
}

/// Everything after the leading marker character.
pub open spec fn digits_of(s: Seq<char>) -> Seq<char> {
    if s.len() == 0 {
        s
    } else {
        s.subrange(1, s.len() as int)
    }
}

/// What a colour string such as `#RRGGBB` denotes.
pub open spec fn decode_colour(s: Seq<char>) -> Result<Colour, ColourError> {
    match decode_pairs(digits_of(s)) {
        Err(e) => Err(e),
        Ok(b) => if b.len() == 3 {
            Ok(Colour { r: b[0], g: b[1], b: b[2] })
        } else {
            Err(ColourError::InvalidHexCode)
        },
    }
}

pub fn hex_char_to_n(c: char) -> (r: Option<u8>)
    ensures
        r == hex_value(c),
{
    if '0' <= c && c <= '9' {
        Some((c as u32 - '0' as u32) as u8)
    } else if 'A' <= c && c <= 'F' {
        Some((c as u32 - 'A' as u32 + 10) as u8)
    } else {
        None
    }
}

/// Reads a number of at most two hexadecimal digits.
pub fn parse_hex(string: &str) -> (r: Result<u8, ColourError>)
    requires
        string@.len() <= 2,
    ensures
        match hex_number(string@) {
            Ok(v) => r == Ok::<u8, ColourError>(v as u8) && v < 256,
            Err(e) => r == Err::<u8, ColourError>(e),
        },
{
    reveal_with_fuel(hex_number, 3);
    let n = string.unicode_len();
    let mut acc: u8 = 0;
    let mut weight: u8 = 1;
    let mut p: usize = 0;
    while p < n
        invariant
            n == string@.len(),
            n <= 2,
            p <= n,
            weight == if p == 0 { 1u8 } else { 16u8 },
            hex_number(string@.subrange(n - p, n as int)) == Ok::<nat, ColourError>(acc as nat),
            p == 2 ==> acc < 256,
            p == 1 ==> acc < 16,
        decreases n - p,
    {
        let c = string.get_char(n - 1 - p);
        match hex_char_to_n(c) {
            None => {
                proof { lemma_hex_number_suffix_error(string@, (n - 1 - p) as int); }
                return Err(ColourError::InvalidHexCharacter(c));
            },
            Some(d) => {
                proof { lemma_hex_number_extend(string@, (n - p) as int); }
                acc = acc + d * weight;
                weight = 16;
                p = p + 1;
            },
        }
    }
    assert(string@.subrange(0, n as int) =~= string@);
    Ok(acc)
}

/// Bytes already decoded, placed in front of the outcome for the rest.
pub open spec fn prefixed(b: Seq<u8>, r: Result<Seq<u8>, ColourError>) -> Result<Seq<u8>, ColourError> {
    match r {
        Ok(rest) => Ok(b + rest),
        Err(e) => Err(e),
    }
}

/// Decodes a colour string: a marker character, then three pairs of
/// upper-case hexadecimal digits for red, green and blue.
pub fn colour_parse(string: &str) -> (r: Result<Colour, ColourError>)
    ensures
        r == decode_colour(string@),
{
    let n = string.unicode_len();
    let start: usize = if n == 0 { 0 } else { 1 };
    let mut bytes: Vec<u8> = Vec::new();
    let mut i: usize = start;
    proof {
        assert(digits_of(string@) =~= string@.subrange(start as int, n as int));
        assert(bytes@ + Seq::<u8>::empty() =~= Seq::<u8>::empty());
        assert(forall|q: Seq<u8>| Seq::<u8>::empty() + q =~= q);
    }
    while i < n
        invariant
            n == string@.len(),
            start <= i <= n,
            digits_of(string@) =~= string@.subrange(start as int, n as int),
            decode_pairs(digits_of(string@)) == prefixed(bytes@, decode_pairs(string@.subrange(i as int, n as int))),
        decreases n - i,
    {
        let ghost t = string@.subrange(i as int, n as int);
        if n - i == 1 {
            return Err(ColourError::InvalidHexCode);
        }
        let pair = string.substring_char(i, i + 2);
        proof {
            assert(t.subrange(0, 2) =~= pair@);
            assert(t.subrange(2, t.len() as int) =~= string@.subrange(i + 2, n as int));
        }
        match parse_hex(pair) {
            Err(e) => {
                return Err(e);
            },
            Ok(v) => {
                let ghost old_bytes = bytes@;
                bytes.push(v);
                proof {
                    match decode_pairs(string@.subrange(i + 2, n as int)) {
                        Ok(rest) => {
                            assert(old_bytes + (seq![v] + rest) =~= bytes@ + rest);
                        },
                        Err(e) => {},
                    }
                }
                i = i + 2;
            },
        }
    }
    proof {
        assert(string@.subrange(n as int, n as int) =~= Seq::<char>::empty());
        assert(bytes@ + Seq::<u8>::empty() =~= bytes@);
    }
    if bytes.len() == 3 {
        Ok(Colour { r: bytes[0], g: bytes[1], b: bytes[2] })
    } else {
        Err(ColourError::InvalidHexCode)
    }
}

proof fn lemma_hex_number_extend(s: Seq<char>, k: int)
    requires
        1 <= k <= s.len() <= 2,
        hex_number(s.subrange(k, s.len() as int)).is_ok(),
    ensures
        hex_number(s.subrange(k - 1, s.len() as int)) == match hex_value(s[k - 1]) {
            None => Err(ColourError::InvalidHexCharacter(s[k - 1])),
            Some(d) => match hex_number(s.subrange(k, s.len() as int)) {
                Err(e) => Err(e),
                Ok(v) => Ok(d as nat * (if k == s.len() { 1nat } else { 16nat }) + v),
            },
        },
{
    reveal_with_fuel(hex_number, 3);
    let t = s.subrange(k - 1, s.len() as int);
    if k == s.len() {
        assert(t.drop_last() =~= Seq::<char>::empty());
    } else {
        assert(t.drop_last() =~= seq![s[k - 1]]);
        assert(s.subrange(k, s.len() as int) =~= seq![s[k]]);
        assert(seq![s[k - 1]].drop_last() =~= Seq::<char>::empty());
        assert(seq![s[k]].drop_last() =~= Seq::<char>::empty());
    }
}

proof fn lemma_hex_number_suffix_error(s: Seq<char>, j: int)
    requires
        0 <= j < s.len() <= 2,
        hex_value(s[j]).is_none(),
        hex_number(s.subrange(j + 1, s.len() as int)).is_ok(),
    ensures
        hex_number(s) == Err::<nat, ColourError>(ColourError::InvalidHexCharacter(s[j])),
{
    reveal_with_fuel(hex_number, 3);
    if j + 1 < s.len() {
        assert(s.drop_last() =~= seq![s[0]]);
        assert(seq![s[0]].drop_last() =~= Seq::<char>::empty());
    }
}

/// The pieces of `s` between commas, in order; there is always at least one.
pub open spec fn split_commas(s: Seq<char>) -> Seq<Seq<char>>
    decreases s.len(),
{
    if s.len() == 0 {
        seq![Seq::<char>::empty()]
    } else {
        let p = split_commas(s.drop_last());
        if s.last() == ',' {
            p.push(Seq::<char>::empty())
        } else {
            p.update(p.len() - 1, p.last().push(s.last()))
        }
    }
}

/// Decodes every piece in order; the first piece that fails decides the error.
pub open spec fn decode_all(parts: Seq<Seq<char>>) -> Result<Seq<Colour>, ColourError>
    decreases parts.len(),
{
    if parts.len() == 0 {
        Ok(Seq::<Colour>::empty())
    } else {
        match decode_all(parts.drop_last()) {
            Err(e) => Err(e),
            Ok(cs) => match decode_colour(parts.last()) {
                Err(e) => Err(e),
                Ok(c) => Ok(cs.push(c)),
            },
        }
    }
}

/// Decodes a palette: colour strings separated by commas.
pub fn parse_palette(string: &str) -> (r: Result<Vec<Colour>, ColourError>)
    ensures
        match decode_all(split_commas(string@)) {
            Ok(cs) => r matches Ok(v) && v@ == cs,
            Err(e) => r == Err::<Vec<Colour>, ColourError>(e),
        },
{
    let n = string.unicode_len();
    let mut start: usize = 0;
    let mut i: usize = 0;
    let mut out: Vec<Colour> = Vec::new();
    let mut err: Option<ColourError> = None;
    let ghost mut done: Seq<Seq<char>> = Seq::empty();
    proof {
        assert(string@.subrange(0, 0) =~= Seq::<char>::empty());
        assert(done.push(string@.subrange(0, 0)) =~= seq![Seq::<char>::empty()]);
    }
    while i < n
        invariant
            n == string@.len(),
            start <= i <= n,
            split_commas(string@.subrange(0, i as int)) == done.push(string@.subrange(start as int, i as int)),
            decode_all(done) == (match err {
                Some(e) => Err(e),
                None => Ok(out@),
            }),
        decreases n - i,
    {
        let c = string.get_char(i);
        let ghost cur = string@.subrange(start as int, i as int);
        proof {
            assert(string@.subrange(0, i + 1).drop_last() =~= string@.subrange(0, i as int));
        }
        if c == ',' {
            let piece = string.substring_char(start, i);
            if err.is_none() {
                match colour_parse(piece) {
                    Ok(col) => out.push(col),
                    Err(e) => err = Some(e),
                }
            }
            proof {
                assert(done.push(cur).drop_last() =~= done);
                done = done.push(cur);
                assert(string@.subrange(i + 1, i + 1) =~= Seq::<char>::empty());
            }
            start = i + 1;
        } else {
            proof {
                let p = done.push(cur);
                assert(p.last() == cur);
                assert(cur.push(c) =~= string@.subrange(start as int, i + 1));
                assert(p.update(p.len() - 1, p.last().push(c)) =~= done.push(
                    string@.subrange(start as int, i + 1),
                ));
            }
        }
        i = i + 1;
    }
    let piece = string.substring_char(start, n);
    proof {
        assert(string@.subrange(0, n as int) =~= string@);
        assert(done.push(piece@).drop_last() =~= done);
    }
    match err {
        Some(e) => Err(e),
        None => match colour_parse(piece) {
            Ok(col) => {
                out.push(col);
                Ok(out)
            },
            Err(e) => Err(e),
        },
    }
}

/// The sixteen digits, in order of value.
pub open spec fn hex_alphabet() -> Seq<char> {
    seq!['0', '1', '2', '3', '4', '5', '6', '7', '8', '9', 'A', 'B', 'C', 'D', 'E', 'F']
}

/// The canonical `#RRGGBB` text of a colour.
pub open spec fn hex_code(c: Colour) -> Seq<char> {
    seq![
        '#',
        hex_alphabet()[c.r as int / 16],
        hex_alphabet()[c.r as int % 16],
        hex_alphabet()[c.g as int / 16],
        hex_alphabet()[c.g as int % 16],
        hex_alphabet()[c.b as int / 16],
        hex_alphabet()[c.b as int % 16],
    ]
}

proof fn lemma_alphabet_values(n: int)
    requires
        0 <= n < 16,
    ensures
        hex_value(hex_alphabet()[n]) == Some(n as u8),
{
}

proof fn lemma_pair_value(v: u8)
    ensures
        hex_number(seq![hex_alphabet()[v as int / 16], hex_alphabet()[v as int % 16]])
            == Ok::<nat, ColourError>(v as nat),
{
    reveal_with_fuel(hex_number, 3);
    let s = seq![hex_alphabet()[v as int / 16], hex_alphabet()[v as int % 16]];
    lemma_alphabet_values(v as int / 16);
    lemma_alphabet_values(v as int % 16);
    assert(s.drop_last() =~= seq![hex_alphabet()[v as int / 16]]);
    assert(s.drop_last().drop_last() =~= Seq::<char>::empty());
}

/// Decoding the `#RRGGBB` text of any colour gives that colour back.
pub proof fn lemma_decode_round_trip(c: Colour)
    ensures
        decode_colour(hex_code(c)) == Ok::<Colour, ColourError>(c),
{
    reveal_with_fuel(decode_pairs, 4);
    let s = hex_code(c);
    let d = digits_of(s);
    let a = hex_alphabet();
    lemma_pair_value(c.r);
    lemma_pair_value(c.g);
    lemma_pair_value(c.b);
    assert(d.subrange(0, 2) =~= seq![a[c.r as int / 16], a[c.r as int % 16]]);
    let d2 = d.subrange(2, d.len() as int);
    assert(d2.subrange(0, 2) =~= seq![a[c.g as int / 16], a[c.g as int % 16]]);
    let d4 = d2.subrange(2, d2.len() as int);
    assert(d4.subrange(0, 2) =~= seq![a[c.b as int / 16], a[c.b as int % 16]]);
    assert(d4.subrange(2, d4.len() as int) =~= Seq::<char>::empty());
    let b = decode_pairs(d)->Ok_0;
    assert(b =~= seq![c.r, c.g, c.b]);
}

proof fn lemma_hex_number_rejects(s: Seq<char>, j: int)
    requires
        0 <= j < s.len(),
        hex_value(s[j]).is_none(),
    ensures
        hex_number(s).is_err(),
    decreases s.len(),
{
    if j < s.len() - 1 && hex_value(s.last()).is_some() {
        lemma_hex_number_rejects(s.drop_last(), j);
    }
}

proof fn lemma_decode_pairs_rejects(d: Seq<char>, j: int)
    requires
        0 <= j < d.len(),
        hex_value(d[j]).is_none(),
    ensures
        decode_pairs(d).is_err(),
    decreases d.len(),
{
    if d.len() >= 2 {
        if j < 2 {
            lemma_hex_number_rejects(d.subrange(0, 2), j);
        } else if hex_number(d.subrange(0, 2)).is_ok() {
            lemma_decode_pairs_rejects(d.subrange(2, d.len() as int), j - 2);
        }
    }
}

proof fn lemma_decode_pairs_odd(d: Seq<char>)
    requires
        d.len() % 2 == 1,
    ensures
        decode_pairs(d).is_err(),
    decreases d.len(),
{
    if d.len() >= 2 && hex_number(d.subrange(0, 2)).is_ok() {
        lemma_decode_pairs_odd(d.subrange(2, d.len() as int));
    }
}

/// A colour string with a character outside `0-9A-F` after the marker is
/// rejected.
pub proof fn lemma_non_hex_character_rejected(s: Seq<char>, j: int)
    requires
        1 <= j < s.len(),
        hex_value(s[j]).is_none(),
    ensures
        decode_colour(s).is_err(),
{
    lemma_decode_pairs_rejects(digits_of(s), j - 1);
}

/// A colour string with an odd number of digits after the marker is
/// rejected.
pub proof fn lemma_odd_digit_count_rejected(s: Seq<char>)
    requires
        s.len() >= 1,
        (s.len() - 1) % 2 == 1,
    ensures
        decode_colour(s).is_err(),
{
    lemma_decode_pairs_odd(digits_of(s));
}

/// A colour string whose digits decode to other than three bytes is
/// rejected as an invalid code.
pub proof fn lemma_byte_count_not_three_rejected(s: Seq<char>)
    requires
        decode_pairs(digits_of(s)).is_ok(),
        decode_pairs(digits_of(s))->Ok_0.len() != 3,
    ensures
        decode_colour(s) == Err::<Colour, ColourError>(ColourError::InvalidHexCode),
{
}

} // verus!
