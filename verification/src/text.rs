//! Text of the lines that the tools print: numbers, hexadecimal bytes and
//! columns.
use vstd::prelude::*;

verus! {

/// The digit `d` as a character, for `d` below sixteen.
pub open spec fn digit(d: nat) -> char {
    if d == 0 {
        '0'
    } else if d == 1 {
        '1'
    } else if d == 2 {
        '2'
    } else if d == 3 {
        '3'
    } else if d == 4 {
        '4'
    } else if d == 5 {
        '5'
    } else if d == 6 {
        '6'
    } else if d == 7 {
        '7'
    } else if d == 8 {
        '8'
    } else if d == 9 {
        '9'
    } else if d == 10 {
        'a'
    } else if d == 11 {
        'b'
    } else if d == 12 {
        'c'
    } else if d == 13 {
        'd'
    } else if d == 14 {
        'e'
    } else {
        'f'
    }
}

/// The number `n` in decimal, without leading zeros.
pub open spec fn decimal(n: nat) -> Seq<char>
    decreases n,
{
    if n < 10 {
        seq![digit(n)]
    } else {
        decimal(n / 10) + seq![digit(n % 10)]
    }
}

/// The byte `b` as two hexadecimal digits.
pub open spec fn hex_byte(b: u8) -> Seq<char> {
    seq![digit((b / 16) as nat), digit((b % 16) as nat)]
}

/// The bytes of `s` as hexadecimal digits, two for each.
pub open spec fn hex(s: Seq<u8>) -> Seq<char>
    decreases s.len(),
{
    if s.len() == 0 {
        Seq::empty()
    } else {
        hex(s.drop_last()) + hex_byte(s.last())
    }
}

/// `n` blanks.
pub open spec fn blanks(n: nat) -> Seq<char> {
    Seq::new(n, |i: int| ' ')
}

/// `s` in a column at least `width` characters wide, aligned to the left.
pub open spec fn column(s: Seq<char>, width: nat) -> Seq<char> {
    if s.len() < width {
        s + blanks((width - s.len()) as nat)
    } else {
        s
    }
}

/// The texts of several strings.
pub open spec fn texts(v: Seq<String>) -> Seq<Seq<char>> {
    v.map_values(|s: String| s@)
}

fn push_digit(out: &mut String, d: u8)
    requires
        d < 16,
    ensures
        final(out)@ == old(out)@.push(digit(d as nat)),
{
    proof {
        reveal_strlit("0");
        reveal_strlit("1");
        reveal_strlit("2");
        reveal_strlit("3");
        reveal_strlit("4");
        reveal_strlit("5");
        reveal_strlit("6");
        reveal_strlit("7");
        reveal_strlit("8");
        reveal_strlit("9");
        reveal_strlit("a");
        reveal_strlit("b");
        reveal_strlit("c");
        reveal_strlit("d");
        reveal_strlit("e");
        reveal_strlit("f");
    }
    let s: &str = match d {
        0 => "0",
        1 => "1",
        2 => "2",
        3 => "3",
        4 => "4",
        5 => "5",
        6 => "6",
        7 => "7",
        8 => "8",
        9 => "9",
        10 => "a",
        11 => "b",
        12 => "c",
        13 => "d",
        14 => "e",
        _ => "f",
    };
    assert(s@ =~= seq![digit(d as nat)]);
    out.append(s);
    assert(out@ =~= old(out)@.push(digit(d as nat)));
}

/// Appends `n` in decimal.
pub fn push_decimal(out: &mut String, n: u64)
    ensures
        final(out)@ == old(out)@ + decimal(n as nat),
    decreases n,
{
    if n >= 10 {
        push_decimal(out, n / 10);
    }
    push_digit(out, (n % 10) as u8);
    assert(out@ =~= old(out)@ + decimal(n as nat));
}

/// Appends the two hexadecimal digits of `b`.
pub fn push_hex_byte(out: &mut String, b: u8)
    ensures
        final(out)@ == old(out)@ + hex_byte(b),
{
    push_digit(out, b / 16);
    push_digit(out, b % 16);
    assert(out@ =~= old(out)@ + hex_byte(b));
}

/// Appends the bytes of `s` as hexadecimal digits, two for each.
pub fn push_hex(out: &mut String, s: &[u8])
    ensures
        final(out)@ == old(out)@ + hex(s@),
{
    let mut i: usize = 0;
    assert(out@ =~= old(out)@ + hex(s@.take(0)));
    while i < s.len()
        invariant
            i <= s@.len(),
            out@ == old(out)@ + hex(s@.take(i as int)),
        decreases s@.len() - i,
    {
        push_hex_byte(out, s[i]);
        i = i + 1;
        assert(s@.take(i as int).drop_last() =~= s@.take(i - 1));
        assert(out@ =~= old(out)@ + hex(s@.take(i as int)));
    }
    assert(s@.take(i as int) =~= s@);
}

/// Appends `s` and then blanks up to `width` characters.
pub fn push_column(out: &mut String, s: &str, width: usize)
    ensures
        final(out)@ == old(out)@ + column(s@, width as nat),
{
    out.append(s);
    let length: usize = s.unicode_len();
    let mut i: usize = length;
    let ghost start = out@;
    proof {
        reveal_strlit(" ");
        assert(out@ =~= start + blanks(0));
    }
    while i < width
        invariant
            length <= i,
            i == length || i <= width,
            out@ == start + blanks((i - length) as nat),
            " "@ =~= seq![' '],
        decreases width - i,
    {
        let ghost before = out@;
        out.append(" ");
        i = i + 1;
        assert(out@ =~= start + blanks((i - length) as nat));
    }
    assert(out@ =~= old(out)@ + column(s@, width as nat));
}

/// Lines as one text, with a line break behind each.
pub open spec fn text_of_lines(lines: Seq<Seq<char>>) -> Seq<char>
    decreases lines.len(),
{
    if lines.len() == 0 {
        Seq::empty()
    } else {
        text_of_lines(lines.drop_last()) + lines.last() + "\n"@
    }
}

/// Appends lines, with a line break behind each.
pub fn push_lines(out: &mut String, lines: &Vec<String>)
    ensures
        final(out)@ == old(out)@ + text_of_lines(texts(lines@)),
{
    let mut i: usize = 0;
    assert(out@ =~= old(out)@ + text_of_lines(texts(lines@).take(0)));
    while i < lines.len()
        invariant
            i <= lines@.len(),
            out@ == old(out)@ + text_of_lines(texts(lines@).take(i as int)),
        decreases lines@.len() - i,
    {
        out.append(lines[i].as_str());
        out.append("\n");
        i = i + 1;
        assert(texts(lines@).take(i as int).drop_last() =~= texts(lines@).take(i - 1));
        assert(out@ =~= old(out)@ + text_of_lines(texts(lines@).take(i as int)));
    }
    assert(texts(lines@).take(i as int) =~= texts(lines@));
}

/// The number that decimal digits stand for, the most significant first.
pub open spec fn numeral_value(digits: Seq<char>) -> int
    decreases digits.len(),
{
    if digits.len() == 0 {
        0
    } else {
        10 * numeral_value(digits.drop_last()) + (digits.last() as int - '0' as int)
    }
}

/// Whether `digits` is how the number `n` is written: decimal digits that stand for
/// `n`, and none more than needed.
pub open spec fn is_numeral(digits: Seq<char>, n: int) -> bool {
    &&& digits.len() > 0
    &&& forall|i: int| 0 <= i < digits.len() ==> '0' as int <= #[trigger] digits[i] as int <= '9' as int
    &&& digits.len() > 1 ==> digits[0] != '0'
    &&& numeral_value(digits) == n
}

/// A number in decimal reads back as that number.
pub proof fn law_decimal_reads_back(n: nat)
    ensures
        is_numeral(decimal(n), n as int),
    decreases n,
{
    if n < 10 {
        assert(decimal(n).drop_last() =~= Seq::<char>::empty());
        assert(numeral_value(decimal(n).drop_last()) == 0);
    } else {
        law_decimal_reads_back(n / 10);
        let front = decimal(n / 10);
        assert(decimal(n).drop_last() =~= front);
        assert(decimal(n).last() == digit(n % 10));
        assert forall|i: int| 0 <= i < decimal(n).len() implies '0' as int
            <= #[trigger] decimal(n)[i] as int <= '9' as int by {
            if i < front.len() {
                assert(decimal(n)[i] == front[i]);
            }
        }
        if front.len() == 1 && front[0] == '0' {
            assert(front.drop_last() =~= Seq::<char>::empty());
            assert(numeral_value(front.drop_last()) == 0);
        }
        assert(decimal(n)[0] == front[0]);
    }
}

proof fn lemma_numeral_bounds(digits: Seq<char>)
    requires
        forall|i: int| 0 <= i < digits.len() ==> '0' as int <= #[trigger] digits[i] as int <= '9' as int,
    ensures
        numeral_value(digits) >= 0,
        digits.len() > 0 && digits[0] != '0' ==> numeral_value(digits) > 0,
    decreases digits.len(),
{
    if digits.len() > 0 {
        let front = digits.drop_last();
        assert forall|i: int| 0 <= i < front.len() implies '0' as int <= #[trigger] front[i] as int
            <= '9' as int by {
            assert(front[i] == digits[i]);
        }
        lemma_numeral_bounds(front);
        assert('0' as int <= digits[digits.len() - 1] as int <= '9' as int);
        if front.len() > 0 {
            assert(front[0] == digits[0]);
        } else {
            assert(digits[0] == digits.last());
        }
    }
}

/// A number is written in one way only.
pub proof fn law_numeral_is_unique(a: Seq<char>, b: Seq<char>, n: int)
    requires
        is_numeral(a, n),
        is_numeral(b, n),
    ensures
        a == b,
    decreases a.len(),
{
    let (front_a, front_b) = (a.drop_last(), b.drop_last());
    assert forall|i: int| 0 <= i < front_a.len() implies '0' as int <= #[trigger] front_a[i] as int
        <= '9' as int by {
        assert(front_a[i] == a[i]);
    }
    assert forall|i: int| 0 <= i < front_b.len() implies '0' as int <= #[trigger] front_b[i] as int
        <= '9' as int by {
        assert(front_b[i] == b[i]);
    }
    lemma_numeral_bounds(front_a);
    lemma_numeral_bounds(front_b);
    assert('0' as int <= a[a.len() - 1] as int <= '9' as int);
    assert('0' as int <= b[b.len() - 1] as int <= '9' as int);
    let (x, y) = (numeral_value(front_a), numeral_value(front_b));
    assert(x == y && a.last() == b.last());
    if front_a.len() > 0 {
        assert(front_a[0] == a[0]);
    }
    if front_b.len() > 0 {
        assert(front_b[0] == b[0]);
    }
    if front_a.len() > 0 && front_b.len() > 0 {
        law_numeral_is_unique(front_a, front_b, x);
    } else if front_a.len() == 0 {
        assert(numeral_value(front_a) == 0);
    } else {
        assert(numeral_value(front_b) == 0);
    }
    assert(front_a =~= front_b);
    assert(a =~= front_a.push(a.last()));
    assert(b =~= front_b.push(b.last()));
}

/// Different numbers are written in different ways.
pub proof fn law_different_numbers_look_different(m: nat, n: nat)
    requires
        decimal(m) == decimal(n),
    ensures
        m == n,
{
    law_decimal_reads_back(m);
    law_decimal_reads_back(n);
}

/// The value of a hexadecimal digit in lower case; less than zero for any other
/// character.
pub open spec fn hex_value(c: char) -> int {
    if '0' as int <= c as int <= '9' as int {
        c as int - '0' as int
    } else if 'a' as int <= c as int <= 'f' as int {
        c as int - 'a' as int + 10
    } else {
        -1
    }
}

/// Whether the digits at place `i`, counted in pairs, stand for the byte `b`, the
/// more significant digit first.
pub open spec fn is_hex_of(digits: Seq<char>, i: int, b: u8) -> bool {
    &&& hex_value(digits[2 * i]) >= 0
    &&& hex_value(digits[2 * i + 1]) >= 0
    &&& 16 * hex_value(digits[2 * i]) + hex_value(digits[2 * i + 1]) == b
}

/// Bytes as hexadecimal digits read back as those bytes: two digits for each, in
/// order.
pub proof fn law_hex_reads_back(bytes: Seq<u8>)
    ensures
        hex(bytes).len() == 2 * bytes.len(),
        forall|i: int| 0 <= i < bytes.len() ==> #[trigger] is_hex_of(hex(bytes), i, bytes[i]),
    decreases bytes.len(),
{
    if bytes.len() > 0 {
        let front = bytes.drop_last();
        law_hex_reads_back(front);
        assert forall|i: int| 0 <= i < bytes.len() implies #[trigger] is_hex_of(
            hex(bytes),
            i,
            bytes[i],
        ) by {
            if i < front.len() {
                assert(is_hex_of(hex(front), i, front[i]));
                assert(hex(bytes)[2 * i] == hex(front)[2 * i]);
                assert(hex(bytes)[2 * i + 1] == hex(front)[2 * i + 1]);
            } else {
                law_hex_byte_reads_back(bytes.last());
                assert(hex(bytes)[2 * i] == hex_byte(bytes.last())[0]);
                assert(hex(bytes)[2 * i + 1] == hex_byte(bytes.last())[1]);
            }
        }
    }
}

/// A byte as two hexadecimal digits reads back as that byte.
pub proof fn law_hex_byte_reads_back(b: u8)
    ensures
        hex_byte(b).len() == 2,
        0 <= hex_value(hex_byte(b)[0]) < 16,
        0 <= hex_value(hex_byte(b)[1]) < 16,
        16 * hex_value(hex_byte(b)[0]) + hex_value(hex_byte(b)[1]) == b,
{
}

/// A column begins with its text, is filled up with blanks to its width, and never
/// cuts the text off.
pub proof fn law_column_keeps_its_text(s: Seq<char>, width: nat)
    ensures
        column(s, width).len() == if s.len() < width {
            width
        } else {
            s.len()
        },
        column(s, width).take(s.len() as int) == s,
        forall|i: int| s.len() <= i < column(s, width).len() ==> column(s, width)[i] == ' ',
{
    assert(column(s, width).take(s.len() as int) =~= s);
}

/// The texts of strings are those of each of them, in order.
pub proof fn law_texts_are_those_of_the_strings(v: Seq<String>)
    ensures
        texts(v).len() == v.len(),
        forall|i: int| 0 <= i < v.len() ==> #[trigger] texts(v)[i] == v[i]@,
{
}

/// A text of lines is made of the lines in order, with a line break behind each and
/// nothing else.
pub proof fn law_text_of_lines_adds_up(lines: Seq<Seq<char>>, line: Seq<char>)
    ensures
        text_of_lines(Seq::empty()) == Seq::<char>::empty(),
        text_of_lines(lines.push(line)) == text_of_lines(lines) + line + seq!['\n'],
{
    reveal_strlit("\n");
    assert(lines.push(line).drop_last() =~= lines);
    assert("\n"@ =~= seq!['\n']);
}

} // verus!
