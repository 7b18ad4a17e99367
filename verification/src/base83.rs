//! Base-83 digit strings: positional integer encoding over an 83-character
//! alphabet, most significant digit first.

use vstd::prelude::*;
use vstd::string::StrSliceExecFns;
use vstd::string::StringExecFns;
use vstd::arithmetic::div_mod::lemma_fundamental_div_mod;
use vstd::arithmetic::div_mod::lemma_multiply_divide_lt;

use crate::error::Error;

verus! {

/// 83 raised to `n`.
pub open spec fn pow83(n: nat) -> nat
    decreases n,
{
    if n == 0 {
        1
    } else {
        83 * pow83((n - 1) as nat)
    }
}

/// The character that stands for digit value `d`; digit values run 0 to 82
/// over `0`-`9`, `A`-`Z`, `a`-`z`, then `#$%*+,-.:;=?@[]^_{|}~` in that order.
pub open spec fn digit_char(d: nat) -> char {
    if d == 0 { '0'
    } else if d == 1 { '1'
    } else if d == 2 { '2'
    } else if d == 3 { '3'
    } else if d == 4 { '4'
    } else if d == 5 { '5'
    } else if d == 6 { '6'
    } else if d == 7 { '7'
    } else if d == 8 { '8'
    } else if d == 9 { '9'
    } else if d == 10 { 'A'
    } else if d == 11 { 'B'
    } else if d == 12 { 'C'
    } else if d == 13 { 'D'
    } else if d == 14 { 'E'
    } else if d == 15 { 'F'
    } else if d == 16 { 'G'
    } else if d == 17 { 'H'
    } else if d == 18 { 'I'
    } else if d == 19 { 'J'
    } else if d == 20 { 'K'
    } else if d == 21 { 'L'
    } else if d == 22 { 'M'
    } else if d == 23 { 'N'
    } else if d == 24 { 'O'
    } else if d == 25 { 'P'
    } else if d == 26 { 'Q'
    } else if d == 27 { 'R'
    } else if d == 28 { 'S'
    } else if d == 29 { 'T'
    } else if d == 30 { 'U'
    } else if d == 31 { 'V'
    } else if d == 32 { 'W'
    } else if d == 33 { 'X'
    } else if d == 34 { 'Y'
    } else if d == 35 { 'Z'
    } else if d == 36 { 'a'
    } else if d == 37 { 'b'
    } else if d == 38 { 'c'
    } else if d == 39 { 'd'
    } else if d == 40 { 'e'
    } else if d == 41 { 'f'
    } else if d == 42 { 'g'
    } else if d == 43 { 'h'
    } else if d == 44 { 'i'
    } else if d == 45 { 'j'
    } else if d == 46 { 'k'
    } else if d == 47 { 'l'
    } else if d == 48 { 'm'
    } else if d == 49 { 'n'
    } else if d == 50 { 'o'
    } else if d == 51 { 'p'
    } else if d == 52 { 'q'
    } else if d == 53 { 'r'
    } else if d == 54 { 's'
    } else if d == 55 { 't'
    } else if d == 56 { 'u'
    } else if d == 57 { 'v'
    } else if d == 58 { 'w'
    } else if d == 59 { 'x'
    } else if d == 60 { 'y'
    } else if d == 61 { 'z'
    } else if d == 62 { '#'
    } else if d == 63 { '$'
    } else if d == 64 { '%'
    } else if d == 65 { '*'
    } else if d == 66 { '+'
    } else if d == 67 { ','
    } else if d == 68 { '-'
    } else if d == 69 { '.'
    } else if d == 70 { ':'
    } else if d == 71 { ';'
    } else if d == 72 { '='
    } else if d == 73 { '?'
    } else if d == 74 { '@'
    } else if d == 75 { '['
    } else if d == 76 { ']'
    } else if d == 77 { '^'
    } else if d == 78 { '_'
    } else if d == 79 { '{'
    } else if d == 80 { '|'
    } else if d == 81 { '}'
    } else { '~'
    }
}

/// The digit value of `c`, or 83 when `c` is not in the alphabet.
pub open spec fn char_value(c: char) -> nat {
    if c == '0' { 0
    } else if c == '1' { 1
    } else if c == '2' { 2
    } else if c == '3' { 3
    } else if c == '4' { 4
    } else if c == '5' { 5
    } else if c == '6' { 6
    } else if c == '7' { 7
    } else if c == '8' { 8
    } else if c == '9' { 9
    } else if c == 'A' { 10
    } else if c == 'B' { 11
    } else if c == 'C' { 12
    } else if c == 'D' { 13
    } else if c == 'E' { 14
    } else if c == 'F' { 15
    } else if c == 'G' { 16
    } else if c == 'H' { 17
    } else if c == 'I' { 18
    } else if c == 'J' { 19
    } else if c == 'K' { 20
    } else if c == 'L' { 21
    } else if c == 'M' { 22
    } else if c == 'N' { 23
    } else if c == 'O' { 24
    } else if c == 'P' { 25
    } else if c == 'Q' { 26
    } else if c == 'R' { 27
    } else if c == 'S' { 28
    } else if c == 'T' { 29
    } else if c == 'U' { 30
    } else if c == 'V' { 31
    } else if c == 'W' { 32
    } else if c == 'X' { 33
    } else if c == 'Y' { 34
    } else if c == 'Z' { 35
    } else if c == 'a' { 36
    } else if c == 'b' { 37
    } else if c == 'c' { 38
    } else if c == 'd' { 39
    } else if c == 'e' { 40
    } else if c == 'f' { 41
    } else if c == 'g' { 42
    } else if c == 'h' { 43
    } else if c == 'i' { 44
    } else if c == 'j' { 45
    } else if c == 'k' { 46
    } else if c == 'l' { 47
    } else if c == 'm' { 48
    } else if c == 'n' { 49
    } else if c == 'o' { 50
    } else if c == 'p' { 51
    } else if c == 'q' { 52
    } else if c == 'r' { 53
    } else if c == 's' { 54
    } else if c == 't' { 55
    } else if c == 'u' { 56
    } else if c == 'v' { 57
    } else if c == 'w' { 58
    } else if c == 'x' { 59
    } else if c == 'y' { 60
    } else if c == 'z' { 61
    } else if c == '#' { 62
    } else if c == '$' { 63
    } else if c == '%' { 64
    } else if c == '*' { 65
    } else if c == '+' { 66
    } else if c == ',' { 67
    } else if c == '-' { 68
    } else if c == '.' { 69
    } else if c == ':' { 70
    } else if c == ';' { 71
    } else if c == '=' { 72
    } else if c == '?' { 73
    } else if c == '@' { 74
    } else if c == '[' { 75
    } else if c == ']' { 76
    } else if c == '^' { 77
    } else if c == '_' { 78
    } else if c == '{' { 79
    } else if c == '|' { 80
    } else if c == '}' { 81
    } else if c == '~' { 82
    } else { 83
    }
}

/// The one-character string slice that stands for digit value `d`.
fn digit_str(d: u8) -> (r: &'static str)
    requires
        d < 83,
    ensures
        r@ == seq![digit_char(d as nat)],
{
    if d == 0 {
        proof { reveal_strlit("0"); assert("0"@ =~= seq![digit_char(0 as nat)]); }
        "0"
    } else if d == 1 {
        proof { reveal_strlit("1"); assert("1"@ =~= seq![digit_char(1 as nat)]); }
        "1"
    } else if d == 2 {
        proof { reveal_strlit("2"); assert("2"@ =~= seq![digit_char(2 as nat)]); }
        "2"
    } else if d == 3 {
        proof { reveal_strlit("3"); assert("3"@ =~= seq![digit_char(3 as nat)]); }
        "3"
    } else if d == 4 {
        proof { reveal_strlit("4"); assert("4"@ =~= seq![digit_char(4 as nat)]); }
        "4"
    } else if d == 5 {
        proof { reveal_strlit("5"); assert("5"@ =~= seq![digit_char(5 as nat)]); }
        "5"
    } else if d == 6 {
        proof { reveal_strlit("6"); assert("6"@ =~= seq![digit_char(6 as nat)]); }
        "6"
    } else if d == 7 {
        proof { reveal_strlit("7"); assert("7"@ =~= seq![digit_char(7 as nat)]); }
        "7"
    } else if d == 8 {
        proof { reveal_strlit("8"); assert("8"@ =~= seq![digit_char(8 as nat)]); }
        "8"
    } else if d == 9 {
        proof { reveal_strlit("9"); assert("9"@ =~= seq![digit_char(9 as nat)]); }
        "9"
    } else if d == 10 {
        proof { reveal_strlit("A"); assert("A"@ =~= seq![digit_char(10 as nat)]); }
        "A"
    } else if d == 11 {
        proof { reveal_strlit("B"); assert("B"@ =~= seq![digit_char(11 as nat)]); }
        "B"
    } else if d == 12 {
        proof { reveal_strlit("C"); assert("C"@ =~= seq![digit_char(12 as nat)]); }
        "C"
    } else if d == 13 {
        proof { reveal_strlit("D"); assert("D"@ =~= seq![digit_char(13 as nat)]); }
        "D"
    } else if d == 14 {
        proof { reveal_strlit("E"); assert("E"@ =~= seq![digit_char(14 as nat)]); }
        "E"
    } else if d == 15 {
        proof { reveal_strlit("F"); assert("F"@ =~= seq![digit_char(15 as nat)]); }
        "F"
    } else if d == 16 {
        proof { reveal_strlit("G"); assert("G"@ =~= seq![digit_char(16 as nat)]); }
        "G"
    } else if d == 17 {
        proof { reveal_strlit("H"); assert("H"@ =~= seq![digit_char(17 as nat)]); }
        "H"
    } else if d == 18 {
        proof { reveal_strlit("I"); assert("I"@ =~= seq![digit_char(18 as nat)]); }
        "I"
    } else if d == 19 {
        proof { reveal_strlit("J"); assert("J"@ =~= seq![digit_char(19 as nat)]); }
        "J"
    } else if d == 20 {
        proof { reveal_strlit("K"); assert("K"@ =~= seq![digit_char(20 as nat)]); }
        "K"
    } else if d == 21 {
        proof { reveal_strlit("L"); assert("L"@ =~= seq![digit_char(21 as nat)]); }
        "L"
    } else if d == 22 {
        proof { reveal_strlit("M"); assert("M"@ =~= seq![digit_char(22 as nat)]); }
        "M"
    } else if d == 23 {
        proof { reveal_strlit("N"); assert("N"@ =~= seq![digit_char(23 as nat)]); }
        "N"
    } else if d == 24 {
        proof { reveal_strlit("O"); assert("O"@ =~= seq![digit_char(24 as nat)]); }
        "O"
    } else if d == 25 {
        proof { reveal_strlit("P"); assert("P"@ =~= seq![digit_char(25 as nat)]); }
        "P"
    } else if d == 26 {
        proof { reveal_strlit("Q"); assert("Q"@ =~= seq![digit_char(26 as nat)]); }
        "Q"
    } else if d == 27 {
        proof { reveal_strlit("R"); assert("R"@ =~= seq![digit_char(27 as nat)]); }
        "R"
    } else if d == 28 {
        proof { reveal_strlit("S"); assert("S"@ =~= seq![digit_char(28 as nat)]); }
        "S"
    } else if d == 29 {
        proof { reveal_strlit("T"); assert("T"@ =~= seq![digit_char(29 as nat)]); }
        "T"
    } else if d == 30 {
        proof { reveal_strlit("U"); assert("U"@ =~= seq![digit_char(30 as nat)]); }
        "U"
    } else if d == 31 {
        proof { reveal_strlit("V"); assert("V"@ =~= seq![digit_char(31 as nat)]); }
        "V"
    } else if d == 32 {
        proof { reveal_strlit("W"); assert("W"@ =~= seq![digit_char(32 as nat)]); }
        "W"
    } else if d == 33 {
        proof { reveal_strlit("X"); assert("X"@ =~= seq![digit_char(33 as nat)]); }
        "X"
    } else if d == 34 {
        proof { reveal_strlit("Y"); assert("Y"@ =~= seq![digit_char(34 as nat)]); }
        "Y"
    } else if d == 35 {
        proof { reveal_strlit("Z"); assert("Z"@ =~= seq![digit_char(35 as nat)]); }
        "Z"
    } else if d == 36 {
        proof { reveal_strlit("a"); assert("a"@ =~= seq![digit_char(36 as nat)]); }
        "a"
    } else if d == 37 {
        proof { reveal_strlit("b"); assert("b"@ =~= seq![digit_char(37 as nat)]); }
        "b"
    } else if d == 38 {
        proof { reveal_strlit("c"); assert("c"@ =~= seq![digit_char(38 as nat)]); }
        "c"
    } else if d == 39 {
        proof { reveal_strlit("d"); assert("d"@ =~= seq![digit_char(39 as nat)]); }
        "d"
    } else if d == 40 {
        proof { reveal_strlit("e"); assert("e"@ =~= seq![digit_char(40 as nat)]); }
        "e"
    } else if d == 41 {
        proof { reveal_strlit("f"); assert("f"@ =~= seq![digit_char(41 as nat)]); }
        "f"
    } else if d == 42 {
        proof { reveal_strlit("g"); assert("g"@ =~= seq![digit_char(42 as nat)]); }
        "g"
    } else if d == 43 {
        proof { reveal_strlit("h"); assert("h"@ =~= seq![digit_char(43 as nat)]); }
        "h"
    } else if d == 44 {
        proof { reveal_strlit("i"); assert("i"@ =~= seq![digit_char(44 as nat)]); }
        "i"
    } else if d == 45 {
        proof { reveal_strlit("j"); assert("j"@ =~= seq![digit_char(45 as nat)]); }
        "j"
    } else if d == 46 {
        proof { reveal_strlit("k"); assert("k"@ =~= seq![digit_char(46 as nat)]); }
        "k"
    } else if d == 47 {
        proof { reveal_strlit("l"); assert("l"@ =~= seq![digit_char(47 as nat)]); }
        "l"
    } else if d == 48 {
        proof { reveal_strlit("m"); assert("m"@ =~= seq![digit_char(48 as nat)]); }
        "m"
    } else if d == 49 {
        proof { reveal_strlit("n"); assert("n"@ =~= seq![digit_char(49 as nat)]); }
        "n"
    } else if d == 50 {
        proof { reveal_strlit("o"); assert("o"@ =~= seq![digit_char(50 as nat)]); }
        "o"
    } else if d == 51 {
        proof { reveal_strlit("p"); assert("p"@ =~= seq![digit_char(51 as nat)]); }
        "p"
    } else if d == 52 {
        proof { reveal_strlit("q"); assert("q"@ =~= seq![digit_char(52 as nat)]); }
        "q"
    } else if d == 53 {
        proof { reveal_strlit("r"); assert("r"@ =~= seq![digit_char(53 as nat)]); }
        "r"
    } else if d == 54 {
        proof { reveal_strlit("s"); assert("s"@ =~= seq![digit_char(54 as nat)]); }
        "s"
    } else if d == 55 {
        proof { reveal_strlit("t"); assert("t"@ =~= seq![digit_char(55 as nat)]); }
        "t"
    } else if d == 56 {
        proof { reveal_strlit("u"); assert("u"@ =~= seq![digit_char(56 as nat)]); }
        "u"
    } else if d == 57 {
        proof { reveal_strlit("v"); assert("v"@ =~= seq![digit_char(57 as nat)]); }
        "v"
    } else if d == 58 {
        proof { reveal_strlit("w"); assert("w"@ =~= seq![digit_char(58 as nat)]); }
        "w"
    } else if d == 59 {
        proof { reveal_strlit("x"); assert("x"@ =~= seq![digit_char(59 as nat)]); }
        "x"
    } else if d == 60 {
        proof { reveal_strlit("y"); assert("y"@ =~= seq![digit_char(60 as nat)]); }
        "y"
    } else if d == 61 {
        proof { reveal_strlit("z"); assert("z"@ =~= seq![digit_char(61 as nat)]); }
        "z"
    } else if d == 62 {
        proof { reveal_strlit("#"); assert("#"@ =~= seq![digit_char(62 as nat)]); }
        "#"
    } else if d == 63 {
        proof { reveal_strlit("$"); assert("$"@ =~= seq![digit_char(63 as nat)]); }
        "$"
    } else if d == 64 {
        proof { reveal_strlit("%"); assert("%"@ =~= seq![digit_char(64 as nat)]); }
        "%"
    } else if d == 65 {
        proof { reveal_strlit("*"); assert("*"@ =~= seq![digit_char(65 as nat)]); }
        "*"
    } else if d == 66 {
        proof { reveal_strlit("+"); assert("+"@ =~= seq![digit_char(66 as nat)]); }
        "+"
    } else if d == 67 {
        proof { reveal_strlit(","); assert(","@ =~= seq![digit_char(67 as nat)]); }
        ","
    } else if d == 68 {
        proof { reveal_strlit("-"); assert("-"@ =~= seq![digit_char(68 as nat)]); }
        "-"
    } else if d == 69 {
        proof { reveal_strlit("."); assert("."@ =~= seq![digit_char(69 as nat)]); }
        "."
    } else if d == 70 {
        proof { reveal_strlit(":"); assert(":"@ =~= seq![digit_char(70 as nat)]); }
        ":"
    } else if d == 71 {
        proof { reveal_strlit(";"); assert(";"@ =~= seq![digit_char(71 as nat)]); }
        ";"
    } else if d == 72 {
        proof { reveal_strlit("="); assert("="@ =~= seq![digit_char(72 as nat)]); }
        "="
    } else if d == 73 {
        proof { reveal_strlit("?"); assert("?"@ =~= seq![digit_char(73 as nat)]); }
        "?"
    } else if d == 74 {
        proof { reveal_strlit("@"); assert("@"@ =~= seq![digit_char(74 as nat)]); }
        "@"
    } else if d == 75 {
        proof { reveal_strlit("["); assert("["@ =~= seq![digit_char(75 as nat)]); }
        "["
    } else if d == 76 {
        proof { reveal_strlit("]"); assert("]"@ =~= seq![digit_char(76 as nat)]); }
        "]"
    } else if d == 77 {
        proof { reveal_strlit("^"); assert("^"@ =~= seq![digit_char(77 as nat)]); }
        "^"
    } else if d == 78 {
        proof { reveal_strlit("_"); assert("_"@ =~= seq![digit_char(78 as nat)]); }
        "_"
    } else if d == 79 {
        proof { reveal_strlit("{"); assert("{"@ =~= seq![digit_char(79 as nat)]); }
        "{"
    } else if d == 80 {
        proof { reveal_strlit("|"); assert("|"@ =~= seq![digit_char(80 as nat)]); }
        "|"
    } else if d == 81 {
        proof { reveal_strlit("}"); assert("}"@ =~= seq![digit_char(81 as nat)]); }
        "}"
    } else {
        proof { reveal_strlit("~"); assert("~"@ =~= seq![digit_char(82 as nat)]); }
        "~"
    }
}

/// The digit value of `c`, or 83 when `c` is not in the alphabet.
fn char_to_digit(c: char) -> (d: u8)
    ensures
        d as nat == char_value(c),
        d <= 83,
{
    if c == '0' { 0
    } else if c == '1' { 1
    } else if c == '2' { 2
    } else if c == '3' { 3
    } else if c == '4' { 4
    } else if c == '5' { 5
    } else if c == '6' { 6
    } else if c == '7' { 7
    } else if c == '8' { 8
    } else if c == '9' { 9
    } else if c == 'A' { 10
    } else if c == 'B' { 11
    } else if c == 'C' { 12
    } else if c == 'D' { 13
    } else if c == 'E' { 14
    } else if c == 'F' { 15
    } else if c == 'G' { 16
    } else if c == 'H' { 17
    } else if c == 'I' { 18
    } else if c == 'J' { 19
    } else if c == 'K' { 20
    } else if c == 'L' { 21
    } else if c == 'M' { 22
    } else if c == 'N' { 23
    } else if c == 'O' { 24
    } else if c == 'P' { 25
    } else if c == 'Q' { 26
    } else if c == 'R' { 27
    } else if c == 'S' { 28
    } else if c == 'T' { 29
    } else if c == 'U' { 30
    } else if c == 'V' { 31
    } else if c == 'W' { 32
    } else if c == 'X' { 33
    } else if c == 'Y' { 34
    } else if c == 'Z' { 35
    } else if c == 'a' { 36
    } else if c == 'b' { 37
    } else if c == 'c' { 38
    } else if c == 'd' { 39
    } else if c == 'e' { 40
    } else if c == 'f' { 41
    } else if c == 'g' { 42
    } else if c == 'h' { 43
    } else if c == 'i' { 44
    } else if c == 'j' { 45
    } else if c == 'k' { 46
    } else if c == 'l' { 47
    } else if c == 'm' { 48
    } else if c == 'n' { 49
    } else if c == 'o' { 50
    } else if c == 'p' { 51
    } else if c == 'q' { 52
    } else if c == 'r' { 53
    } else if c == 's' { 54
    } else if c == 't' { 55
    } else if c == 'u' { 56
    } else if c == 'v' { 57
    } else if c == 'w' { 58
    } else if c == 'x' { 59
    } else if c == 'y' { 60
    } else if c == 'z' { 61
    } else if c == '#' { 62
    } else if c == '$' { 63
    } else if c == '%' { 64
    } else if c == '*' { 65
    } else if c == '+' { 66
    } else if c == ',' { 67
    } else if c == '-' { 68
    } else if c == '.' { 69
    } else if c == ':' { 70
    } else if c == ';' { 71
    } else if c == '=' { 72
    } else if c == '?' { 73
    } else if c == '@' { 74
    } else if c == '[' { 75
    } else if c == ']' { 76
    } else if c == '^' { 77
    } else if c == '_' { 78
    } else if c == '{' { 79
    } else if c == '|' { 80
    } else if c == '}' { 81
    } else if c == '~' { 82
    } else { 83
    }
}

/// Whether `c` belongs to the base-83 alphabet.
pub open spec fn is_base83_char(c: char) -> bool {
    char_value(c) < 83
}

/// Whether every character of `s` belongs to the base-83 alphabet.
pub open spec fn all_base83(s: Seq<char>) -> bool {
    forall|i: int| 0 <= i < s.len() ==> is_base83_char(#[trigger] s[i])
}

/// The `len` least-significant base-83 digits of `v`, most significant first.
/// A value of `pow83(len)` or more is truncated: only `v % pow83(len)` is kept.
pub open spec fn base83_chars(v: nat, len: nat) -> Seq<char>
    decreases len,
{
    if len == 0 {
        Seq::empty()
    } else {
        base83_chars(v / 83, (len - 1) as nat).push(digit_char(v % 83))
    }
}

/// The integer value of the digit string `s`, read left to right.
pub open spec fn base83_value(s: Seq<char>) -> nat
    decreases s.len(),
{
    if s.len() == 0 {
        0
    } else {
        base83_value(s.drop_last()) * 83 + char_value(s.last())
    }
}

/// The alphabet maps each digit value below 83 to a character that maps back
/// to the same value.
pub proof fn lemma_digit_char_value(d: nat)
    requires
        d < 83,
    ensures
        char_value(digit_char(d)) == d,
        is_base83_char(digit_char(d)),
{
}

/// An encoded digit string has the requested length and stays inside the
/// alphabet.
pub proof fn lemma_base83_chars_wf(v: nat, len: nat)
    ensures
        base83_chars(v, len).len() == len,
        all_base83(base83_chars(v, len)),
    decreases len,
{
    if len > 0 {
        lemma_base83_chars_wf(v / 83, (len - 1) as nat);
        lemma_digit_char_value(v % 83);
        assert forall|i: int| 0 <= i < len implies is_base83_char(
            #[trigger] base83_chars(v, len)[i],
        ) by {
            if i < len - 1 {
                assert(base83_chars(v, len)[i] == base83_chars(v / 83, (len - 1) as nat)[i]);
            }
        }
    }
}

/// Every value below `pow83(len)` survives the round trip through its
/// `len`-digit encoding.
pub proof fn lemma_base83_round_trip(v: nat, len: nat)
    requires
        v < pow83(len),
    ensures
        base83_value(base83_chars(v, len)) == v,
    decreases len,
{
    if len == 0 {
    } else {
        let rest = base83_chars(v / 83, (len - 1) as nat);
        let c = digit_char(v % 83);
        assert(v < 83 * pow83((len - 1) as nat));
        assert(v / 83 < pow83((len - 1) as nat)) by {
            lemma_multiply_divide_lt(v as int, 83, pow83((len - 1) as nat) as int);
        }
        lemma_base83_round_trip(v / 83, (len - 1) as nat);
        lemma_digit_char_value(v % 83);
        assert(rest.push(c).drop_last() =~= rest);
        assert(rest.push(c).last() == c);
        lemma_fundamental_div_mod(v as int, 83);
    }
}

/// A digit string of length `len` holds a value below `pow83(len)`.
pub proof fn lemma_base83_value_bound(s: Seq<char>)
    requires
        all_base83(s),
    ensures
        base83_value(s) < pow83(s.len()),
    decreases s.len(),
{
    if s.len() > 0 {
        assert(all_base83(s.drop_last())) by {
            assert(forall|i: int| 0 <= i < s.len() - 1 ==> s.drop_last()[i] == #[trigger] s[i]);
        }
        lemma_base83_value_bound(s.drop_last());
        assert(char_value(s.last()) < 83);
        assert(base83_value(s.drop_last()) * 83 <= (pow83((s.len() - 1) as nat) - 1) * 83);
    }
}

/// Reading more digits never lowers the value: the value of a prefix is at
/// most the value of the whole string.
pub proof fn lemma_base83_value_prefix(s: Seq<char>, i: int)
    requires
        0 <= i <= s.len(),
    ensures
        base83_value(s.take(i)) <= base83_value(s),
    decreases s.len(),
{
    if i == s.len() {
        assert(s.take(i) =~= s);
    } else {
        assert(s.take(i) =~= s.drop_last().take(i));
        lemma_base83_value_prefix(s.drop_last(), i);
        assert(base83_value(s.drop_last()) * 83 >= base83_value(s.drop_last()) * 1);
    }
}

/// Appends the `length`-digit base-83 encoding of `value` to `result`,
/// most significant digit first.  A `value` of `pow83(length)` or more is
/// truncated to its `length` low digits.
pub fn encode_no_alloc(value: u32, length: u32, result: &mut String)
    ensures
        final(result)@ == old(result)@ + base83_chars(value as nat, length as nat),
    decreases length,
{
    if length == 0 {
        proof {
            assert(old(result)@ + base83_chars(value as nat, 0) =~= old(result)@);
        }
    } else {
        encode_no_alloc(value / 83, length - 1, result);
        let digit: u8 = (value % 83) as u8;
        result.append(digit_str(digit));
        proof {
            let whole = base83_chars(value as nat, length as nat);
            let rest = base83_chars(value as nat / 83, (length - 1) as nat);
            assert(old(result)@ + whole =~= (old(result)@ + rest) + seq![
                digit_char(value as nat % 83),
            ]);
        }
    }
}

/// The `length`-digit base-83 encoding of `value`, most significant digit
/// first.  A `value` of `pow83(length)` or more is truncated to its `length`
/// low digits.
pub fn encode(value: u32, length: u32) -> (r: String)
    ensures
        r@ == base83_chars(value as nat, length as nat),
{
    let mut result = String::new();
    encode_no_alloc(value, length, &mut result);
    proof {
        assert(Seq::<char>::empty() + base83_chars(value as nat, length as nat) =~= base83_chars(
            value as nat,
            length as nat,
        ));
    }
    result
}

/// Reads `str` as a base-83 digit string, most significant digit first.
/// Fails on a character outside the alphabet, and on a value that does not
/// fit in `usize`.
pub fn decode(str: &str) -> (r: Result<usize, Error>)
    ensures
        r is Ok <==> all_base83(str@) && base83_value(str@) <= usize::MAX,
        r is Ok ==> r->Ok_0 == base83_value(str@),
        r == Err::<usize, Error>(Error::UnknownCharacter) <==> !all_base83(str@),
        r == Err::<usize, Error>(Error::ValueOverflow) <==> all_base83(str@) && base83_value(str@)
            > usize::MAX,
{
    let len = str.unicode_len();
    let mut i: usize = 0;
    while i < len
        invariant
            i <= len,
            len == str@.len(),
            forall|j: int| 0 <= j < i ==> is_base83_char(#[trigger] str@[j]),
        decreases len - i,
    {
        if char_to_digit(str.get_char(i)) >= 83 {
            return Err(Error::UnknownCharacter);
        }
        i += 1;
    }
    let mut value: usize = 0;
    i = 0;
    while i < len
        invariant
            i <= len,
            len == str@.len(),
            all_base83(str@),
            value == base83_value(str@.take(i as int)),
        decreases len - i,
    {
        let digit = char_to_digit(str.get_char(i)) as usize;
        proof {
            assert(str@.take(i + 1).drop_last() =~= str@.take(i as int));
            assert(str@.take(i + 1).last() == str@[i as int]);
        }
        let scaled = match value.checked_mul(83) {
            Some(m) => m.checked_add(digit),
            None => None,
        };
        match scaled {
            Some(next) => {
                value = next;
            },
            None => {
                proof {
                    lemma_base83_value_prefix(str@, i + 1);
                }
                return Err(Error::ValueOverflow);
            },
        }
        i += 1;
    }
    proof {
        assert(str@.take(len as int) =~= str@);
    }
    Ok(value)
}

} // verus!
