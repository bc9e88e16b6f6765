use vstd::prelude::*;

verus! {

/// The character that stands for a decimal digit.
pub open spec fn digit_char(d: nat) -> char
    recommends
        d < 10,
{
    if d == 0 {
        '0'
    } else if d == 1 {
        '1'
    } else if d == 2 {
        '2'
    } else if d == 3 {
        '3'
    } else if d == 4 {
        '4'
    } else if d == 5 {
        '5'
    } else if d == 6 {
        '6'
    } else if d == 7 {
        '7'
    } else if d == 8 {
        '8'
    } else {
        '9'
    }
}

/// Decimal rendering of a natural number, most significant digit first.
pub open spec fn decimal_chars(v: nat) -> Seq<char>
    decreases v,
{
    if v < 10 {
        seq![digit_char(v)]
    } else {
        decimal_chars(v / 10).push(digit_char(v % 10))
    }
}

/// Decimal rendering of a signed integer, with a leading '-' for negative values.
pub open spec fn signed_decimal_chars(v: int) -> Seq<char> {
    if v < 0 {
        seq!['-'] + decimal_chars((-v) as nat)
    } else {
        decimal_chars(v as nat)
    }
}

fn digit_str(d: u64) -> (s: &'static str)
    requires
        d < 10,
    ensures
        s@ == seq![digit_char(d as nat)],
{
    proof {
        reveal_strlit("0");
        reveal_strlit("1");
        reveal_strlit("2");
        reveal_strlit("3");
        reveal_strlit("4");
        reveal_strlit("5");
        reveal_strlit("6");
        reveal_strlit("7");
        reveal_strlit("8");
        reveal_strlit("9");
    }
    if d == 0 {
        "0"
    } else if d == 1 {
        "1"
    } else if d == 2 {
        "2"
    } else if d == 3 {
        "3"
    } else if d == 4 {
        "4"
    } else if d == 5 {
        "5"
    } else if d == 6 {
        "6"
    } else if d == 7 {
        "7"
    } else if d == 8 {
        "8"
    } else {
        "9"
    }
}

/// Appends the decimal rendering of `v` to `out`.
pub fn push_decimal(out: &mut String, v: u64)
    ensures
        final(out)@ == old(out)@ + decimal_chars(v as nat),
    decreases v,
{
    if v < 10 {
        out.append(digit_str(v));
    } else {
        push_decimal(out, v / 10);
        out.append(digit_str(v % 10));
    }
}

/// Appends the decimal rendering of a signed value to `out`.
pub fn push_signed_decimal(out: &mut String, v: i64)
    ensures
        final(out)@ == old(out)@ + signed_decimal_chars(v as int),
{
    if v < 0 {
        proof {
            reveal_strlit("-");
        }
        out.append("-");
        let magnitude: u64 = if v == i64::MIN {
            9223372036854775808u64
        } else {
            (-v) as u64
        };
        push_decimal(out, magnitude);
        assert(out@ =~= old(out)@ + signed_decimal_chars(v as int));
    } else {
        push_decimal(out, v as u64);
    }
}

/// Decimal rendering of `v` as a fresh string.
pub fn decimal_string(v: u64) -> (s: String)
    ensures
        s@ == decimal_chars(v as nat),
{
    let mut s = String::new();
    push_decimal(&mut s, v);
    assert(s@ =~= decimal_chars(v as nat));
    s
}


/// The character that stands for a hexadecimal digit, lower case.
pub open spec fn hex_digit_char(d: nat) -> char
    recommends
        d < 16,
{
    if d < 10 {
        digit_char(d)
    } else if d == 10 {
        'a'
    } else if d == 11 {
        'b'
    } else if d == 12 {
        'c'
    } else if d == 13 {
        'd'
    } else if d == 14 {
        'e'
    } else {
        'f'
    }
}

/// Two-digit lower-case hexadecimal rendering of a byte.
pub open spec fn hex2_chars(v: u8) -> Seq<char> {
    seq![hex_digit_char((v / 16) as nat), hex_digit_char((v % 16) as nat)]
}

/// Lower-case hexadecimal rendering of a byte without leading zeros.
pub open spec fn hex_chars(v: u8) -> Seq<char> {
    if v < 16 {
        seq![hex_digit_char(v as nat)]
    } else {
        hex2_chars(v)
    }
}

fn hex_digit_str(d: u8) -> (s: &'static str)
    requires
        d < 16,
    ensures
        s@ == seq![hex_digit_char(d as nat)],
{
    proof {
        reveal_strlit("0");
        reveal_strlit("1");
        reveal_strlit("2");
        reveal_strlit("3");
        reveal_strlit("4");
        reveal_strlit("5");
        reveal_strlit("6");
        reveal_strlit("7");
        reveal_strlit("8");
        reveal_strlit("9");
        reveal_strlit("a");
        reveal_strlit("b");
        reveal_strlit("c");
        reveal_strlit("d");
        reveal_strlit("e");
        reveal_strlit("f");
    }
    match d {
        0 => "0",
        1 => "1",
        2 => "2",
        3 => "3",
        4 => "4",
        5 => "5",
        6 => "6",
        7 => "7",
        8 => "8",
        9 => "9",
        10 => "a",
        11 => "b",
        12 => "c",
        13 => "d",
        14 => "e",
        _ => "f",
    }
}

/// Appends the two-digit hexadecimal rendering of `v` to `out`.
pub fn push_hex2(out: &mut String, v: u8)
    ensures
        final(out)@ == old(out)@ + hex2_chars(v),
{
    out.append(hex_digit_str(v / 16));
    out.append(hex_digit_str(v % 16));
    assert(out@ =~= old(out)@ + hex2_chars(v));
}

/// How a byte of a chunk tag shows inside a quoted, escaped string: printable
/// ASCII as itself (quote and backslash escaped), the usual control escapes,
/// other control codes as `\u{..}`, and a byte past ASCII as the
/// replacement character.
pub open spec fn debug_byte_chars(b: u8) -> Seq<char> {
    if b == 0x22 {
        seq!['\\', '"']
    } else if b == 0x5c {
        seq!['\\', '\\']
    } else if 0x20 <= b <= 0x7e {
        seq![b as char]
    } else if b == 0 {
        seq!['\\', '0']
    } else if b == 9 {
        seq!['\\', 't']
    } else if b == 10 {
        seq!['\\', 'n']
    } else if b == 13 {
        seq!['\\', 'r']
    } else if b < 0x80 {
        seq!['\\', 'u', '{'] + hex_chars(b) + seq!['}']
    } else {
        seq!['\u{fffd}']
    }
}

/// A four-byte tag shown as a quoted, escaped string.
pub open spec fn debug_tag_chars(t: [u8; 4]) -> Seq<char> {
    seq!['"'] + debug_byte_chars(t[0]) + debug_byte_chars(t[1]) + debug_byte_chars(t[2])
        + debug_byte_chars(t[3]) + seq!['"']
}

fn ascii_str(b: u8) -> (s: &'static str)
    requires
        0x20 <= b <= 0x7e,
        b != 0x22,
        b != 0x5c,
    ensures
        s@ == seq![b as char],
{
    proof {
        reveal_strlit(" ");
        reveal_strlit("!");
        reveal_strlit("#");
        reveal_strlit("$");
        reveal_strlit("%");
        reveal_strlit("&");
        reveal_strlit("'");
        reveal_strlit("(");
        reveal_strlit(")");
        reveal_strlit("*");
        reveal_strlit("+");
        reveal_strlit(",");
        reveal_strlit("-");
        reveal_strlit(".");
        reveal_strlit("/");
        reveal_strlit("0");
        reveal_strlit("1");
        reveal_strlit("2");
        reveal_strlit("3");
        reveal_strlit("4");
        reveal_strlit("5");
        reveal_strlit("6");
        reveal_strlit("7");
        reveal_strlit("8");
        reveal_strlit("9");
        reveal_strlit(":");
        reveal_strlit(";");
        reveal_strlit("<");
        reveal_strlit("=");
        reveal_strlit(">");
        reveal_strlit("?");
        reveal_strlit("@");
        reveal_strlit("A");
        reveal_strlit("B");
        reveal_strlit("C");
        reveal_strlit("D");
        reveal_strlit("E");
        reveal_strlit("F");
        reveal_strlit("G");
        reveal_strlit("H");
        reveal_strlit("I");
        reveal_strlit("J");
        reveal_strlit("K");
        reveal_strlit("L");
        reveal_strlit("M");
        reveal_strlit("N");
        reveal_strlit("O");
        reveal_strlit("P");
        reveal_strlit("Q");
        reveal_strlit("R");
        reveal_strlit("S");
        reveal_strlit("T");
        reveal_strlit("U");
        reveal_strlit("V");
        reveal_strlit("W");
        reveal_strlit("X");
        reveal_strlit("Y");
        reveal_strlit("Z");
        reveal_strlit("[");
        reveal_strlit("]");
        reveal_strlit("^");
        reveal_strlit("_");
        reveal_strlit("`");
        reveal_strlit("a");
        reveal_strlit("b");
        reveal_strlit("c");
        reveal_strlit("d");
        reveal_strlit("e");
        reveal_strlit("f");
        reveal_strlit("g");
        reveal_strlit("h");
        reveal_strlit("i");
        reveal_strlit("j");
        reveal_strlit("k");
        reveal_strlit("l");
        reveal_strlit("m");
        reveal_strlit("n");
        reveal_strlit("o");
        reveal_strlit("p");
        reveal_strlit("q");
        reveal_strlit("r");
        reveal_strlit("s");
        reveal_strlit("t");
        reveal_strlit("u");
        reveal_strlit("v");
        reveal_strlit("w");
        reveal_strlit("x");
        reveal_strlit("y");
        reveal_strlit("z");
        reveal_strlit("{");
        reveal_strlit("|");
        reveal_strlit("}");
        reveal_strlit("~");
    }
    match b {
        32u8 => " ",
        33u8 => "!",
        35u8 => "#",
        36u8 => "$",
        37u8 => "%",
        38u8 => "&",
        39u8 => "'",
        40u8 => "(",
        41u8 => ")",
        42u8 => "*",
        43u8 => "+",
        44u8 => ",",
        45u8 => "-",
        46u8 => ".",
        47u8 => "/",
        48u8 => "0",
        49u8 => "1",
        50u8 => "2",
        51u8 => "3",
        52u8 => "4",
        53u8 => "5",
        54u8 => "6",
        55u8 => "7",
        56u8 => "8",
        57u8 => "9",
        58u8 => ":",
        59u8 => ";",
        60u8 => "<",
        61u8 => "=",
        62u8 => ">",
        63u8 => "?",
        64u8 => "@",
        65u8 => "A",
        66u8 => "B",
        67u8 => "C",
        68u8 => "D",
        69u8 => "E",
        70u8 => "F",
        71u8 => "G",
        72u8 => "H",
        73u8 => "I",
        74u8 => "J",
        75u8 => "K",
        76u8 => "L",
        77u8 => "M",
        78u8 => "N",
        79u8 => "O",
        80u8 => "P",
        81u8 => "Q",
        82u8 => "R",
        83u8 => "S",
        84u8 => "T",
        85u8 => "U",
        86u8 => "V",
        87u8 => "W",
        88u8 => "X",
        89u8 => "Y",
        90u8 => "Z",
        91u8 => "[",
        93u8 => "]",
        94u8 => "^",
        95u8 => "_",
        96u8 => "`",
        97u8 => "a",
        98u8 => "b",
        99u8 => "c",
        100u8 => "d",
        101u8 => "e",
        102u8 => "f",
        103u8 => "g",
        104u8 => "h",
        105u8 => "i",
        106u8 => "j",
        107u8 => "k",
        108u8 => "l",
        109u8 => "m",
        110u8 => "n",
        111u8 => "o",
        112u8 => "p",
        113u8 => "q",
        114u8 => "r",
        115u8 => "s",
        116u8 => "t",
        117u8 => "u",
        118u8 => "v",
        119u8 => "w",
        120u8 => "x",
        121u8 => "y",
        122u8 => "z",
        123u8 => "{",
        124u8 => "|",
        125u8 => "}",
        126u8 => "~",
        _ => " ",
    }
}

/// Appends how byte `b` of a tag shows inside a quoted string.
pub fn push_debug_byte(out: &mut String, b: u8)
    ensures
        final(out)@ == old(out)@ + debug_byte_chars(b),
{
    proof {
        reveal_strlit("\\\"");
        reveal_strlit("\\\\");
        reveal_strlit("\\0");
        reveal_strlit("\\t");
        reveal_strlit("\\n");
        reveal_strlit("\\r");
        reveal_strlit("\\u{");
        reveal_strlit("}");
        reveal_strlit("\u{fffd}");
    }
    if b == 0x22 {
        out.append("\\\"");
    } else if b == 0x5c {
        out.append("\\\\");
    } else if 0x20 <= b && b <= 0x7e {
        out.append(ascii_str(b));
    } else if b == 0 {
        out.append("\\0");
    } else if b == 9 {
        out.append("\\t");
    } else if b == 10 {
        out.append("\\n");
    } else if b == 13 {
        out.append("\\r");
    } else if b < 0x80 {
        out.append("\\u{");
        if b < 16 {
            out.append(hex_digit_str(b));
        } else {
            push_hex2(out, b);
        }
        out.append("}");
    } else {
        out.append("\u{fffd}");
    }
    assert(out@ =~= old(out)@ + debug_byte_chars(b));
}

/// Appends a four-byte tag as a quoted, escaped string.
pub fn push_debug_tag(out: &mut String, t: [u8; 4])
    ensures
        final(out)@ == old(out)@ + debug_tag_chars(t),
{
    proof {
        reveal_strlit("\"");
    }
    out.append("\"");
    push_debug_byte(out, t[0]);
    push_debug_byte(out, t[1]);
    push_debug_byte(out, t[2]);
    push_debug_byte(out, t[3]);
    out.append("\"");
    assert(out@ =~= old(out)@ + debug_tag_chars(t));
}

} // verus!
