use vstd::prelude::*;
use vstd::string::*;

verus! {

/// The longest line a plain PPM file may hold.
pub const MAX_LINE_LEN: usize = 70;

/// The decimal digits of `n`, most significant first.
pub open spec fn decimal(n: nat) -> Seq<char>
    decreases n,
{
    if n < 10 {
        seq![digit_char(n)]
    } else {
        decimal(n / 10) + seq![digit_char(n % 10)]
    }
}

pub open spec fn digit_char(d: nat) -> char {
    seq!['0', '1', '2', '3', '4', '5', '6', '7', '8', '9'][d as int]
}

/// One step of filling lines greedily: the state is the finished text and the
/// line being filled; a value's digits join the line, after a space, while
/// the line stays within `MAX_LINE_LEN`, else they start a new line.
pub open spec fn place(state: (Seq<char>, Seq<char>), word: Seq<char>) -> (Seq<char>, Seq<char>) {
    let (done, line) = state;
    if line.len() == 0 {
        (done, word)
    } else if line.len() + 1 + word.len() <= MAX_LINE_LEN {
        (done, line + seq![' '] + word)
    } else {
        (done + line + seq!['\n'], word)
    }
}

/// The state after placing each of `values`, in order, on fresh lines.
pub open spec fn placed(values: Seq<u8>) -> (Seq<char>, Seq<char>)
    decreases values.len(),
{
    if values.len() == 0 {
        (Seq::empty(), Seq::empty())
    } else {
        place(placed(values.drop_last()), decimal(values.last() as nat))
    }
}

/// The lines that hold the channel values of one row of pixels.
pub open spec fn row_text(values: Seq<u8>) -> Seq<char> {
    let (done, line) = placed(values);
    if line.len() == 0 {
        done
    } else {
        done + line + seq!['\n']
    }
}

/// The text of the first `rows` rows, each `row_len` channel values long.
pub open spec fn rows_text(values: Seq<u8>, row_len: nat, rows: nat) -> Seq<char>
    decreases rows,
{
    if rows == 0 {
        Seq::empty()
    } else {
        rows_text(values, row_len, (rows - 1) as nat) + row_text(
            values.subrange((rows - 1) * row_len, (rows * row_len) as int),
        )
    }
}

/// The header of a plain (ASCII) PPM image with 255 as the largest value.
pub open spec fn header(width: nat, height: nat) -> Seq<char> {
    seq!['P', '3', '\n'] + decimal(width) + seq![' '] + decimal(height) + seq!['\n', '2', '5', '5', '\n']
}

/// A whole plain PPM image: the header, then each row of pixels on lines of
/// its own, three channel values per pixel.
pub open spec fn ppm_text(width: nat, height: nat, channels: Seq<u8>) -> Seq<char> {
    header(width, height) + rows_text(channels, 3 * width, height)
}

/// Every line of `s`, each run of characters without a line break, holds
/// at most `limit` characters.
pub open spec fn lines_within(s: Seq<char>, limit: nat) -> bool {
    forall|i: int, j: int|
        0 <= i <= j <= s.len() && no_break(s, i, j) ==> j - i <= limit
}

/// `s[i..j]` holds no line break.
pub open spec fn no_break(s: Seq<char>, i: int, j: int) -> bool {
    forall|k: int| i <= k < j ==> s[k] != '\n'
}

/// `s` is empty or ends with a line break.
pub open spec fn closed(s: Seq<char>) -> bool {
    s.len() == 0 || s.last() == '\n'
}

/// 10 to the power `k`.
pub open spec fn pow10(k: nat) -> nat
    decreases k,
{
    if k == 0 {
        1
    } else {
        10 * pow10((k - 1) as nat)
    }
}

proof fn lemma_decimal_shape(n: nat, k: nat)
    requires
        n < pow10(k),
    ensures
        decimal(n).len() <= (if k == 0 { 1 } else { k }),
        no_break(decimal(n), 0, decimal(n).len() as int),
    decreases n,
{
    reveal_with_fuel(pow10, 2);
    let digits = seq!['0', '1', '2', '3', '4', '5', '6', '7', '8', '9'];
    assert(forall|d: int| 0 <= d < 10 ==> digits[d] != '\n');
    if n >= 10 {
        assert(k >= 2) by {
            if k < 2 {
                assert(pow10(k) <= 10);
            }
        }
        assert(n / 10 < pow10((k - 1) as nat));
        lemma_decimal_shape(n / 10, (k - 1) as nat);
        let head = decimal(n / 10);
        assert(decimal(n) == head + seq![digit_char(n % 10)]);
        assert forall|q: int| 0 <= q < decimal(n).len() implies decimal(n)[q] != '\n' by {
            if q < head.len() {
                assert(decimal(n)[q] == head[q]);
            }
        }
    }
}

proof fn lemma_concat_lines(a: Seq<char>, b: Seq<char>, limit: nat)
    requires
        closed(a),
        lines_within(a, limit),
        lines_within(b, limit),
    ensures
        lines_within(a + b, limit),
        closed(b) ==> closed(a + b),
{
    let s = a + b;
    assert forall|i: int, j: int| 0 <= i <= j <= s.len() && no_break(s, i, j) implies j - i
        <= limit by {
        if j <= a.len() {
            assert(no_break(a, i, j)) by {
                assert forall|k: int| i <= k < j implies a[k] != '\n' by {
                    assert(s[k] == a[k]);
                }
            }
        } else if i >= a.len() {
            let (bi, bj) = (i - a.len(), j - a.len());
            assert(no_break(b, bi, bj)) by {
                assert forall|k: int| bi <= k < bj implies b[k] != '\n' by {
                    assert(s[k + a.len()] == b[k]);
                }
            }
        } else {
            assert(s[a.len() - 1] == a.last());
        }
    }
    if closed(b) && b.len() > 0 {
        assert(s.last() == b.last());
    }
}

/// A line of at most `limit` characters, closed by a line break.
proof fn lemma_one_line(l: Seq<char>, limit: nat)
    requires
        l.len() <= limit,
        no_break(l, 0, l.len() as int),
    ensures
        lines_within(l + seq!['\n'], limit),
        closed(l + seq!['\n']),
{
    let s = l + seq!['\n'];
    assert forall|i: int, j: int| 0 <= i <= j <= s.len() && no_break(s, i, j) implies j - i
        <= limit by {
        if j == s.len() && i < j {
            assert(s[j - 1] == '\n');
        }
    }
}

proof fn lemma_placed_lines(values: Seq<u8>)
    ensures
        closed(placed(values).0),
        lines_within(placed(values).0, MAX_LINE_LEN as nat),
        placed(values).1.len() <= MAX_LINE_LEN,
        no_break(placed(values).1, 0, placed(values).1.len() as int),
    decreases values.len(),
{
    if values.len() > 0 {
        let prev = values.drop_last();
        lemma_placed_lines(prev);
        let (done, line) = placed(prev);
        let word = decimal(values.last() as nat);
        reveal_with_fuel(pow10, 4);
        lemma_decimal_shape(values.last() as nat, 3);
        if line.len() == 0 {
        } else if line.len() + 1 + word.len() <= MAX_LINE_LEN {
            let joined = line + seq![' '] + word;
            assert forall|k: int| 0 <= k < joined.len() implies joined[k] != '\n' by {
                if k < line.len() {
                    assert(joined[k] == line[k]);
                } else if k > line.len() {
                    assert(joined[k] == word[k - line.len() - 1]);
                }
            }
        } else {
            lemma_one_line(line, MAX_LINE_LEN as nat);
            lemma_concat_lines(done, line + seq!['\n'], MAX_LINE_LEN as nat);
            assert(done + line + seq!['\n'] == done + (line + seq!['\n']));
        }
    }
}

proof fn lemma_row_lines(values: Seq<u8>)
    ensures
        closed(row_text(values)),
        lines_within(row_text(values), MAX_LINE_LEN as nat),
{
    lemma_placed_lines(values);
    let (done, line) = placed(values);
    if line.len() > 0 {
        lemma_one_line(line, MAX_LINE_LEN as nat);
        lemma_concat_lines(done, line + seq!['\n'], MAX_LINE_LEN as nat);
        assert(done + line + seq!['\n'] == done + (line + seq!['\n']));
    }
}

proof fn lemma_rows_lines(values: Seq<u8>, row_len: nat, rows: nat)
    ensures
        closed(rows_text(values, row_len, rows)),
        lines_within(rows_text(values, row_len, rows), MAX_LINE_LEN as nat),
    decreases rows,
{
    if rows > 0 {
        lemma_rows_lines(values, row_len, (rows - 1) as nat);
        let row = values.subrange((rows - 1) * row_len, (rows * row_len) as int);
        lemma_row_lines(row);
        lemma_concat_lines(rows_text(values, row_len, (rows - 1) as nat), row_text(row), MAX_LINE_LEN as nat);
    }
}

proof fn lemma_header_lines(width: usize, height: usize)
    ensures
        closed(header(width as nat, height as nat)),
        lines_within(header(width as nat, height as nat), MAX_LINE_LEN as nat),
{
    reveal_with_fuel(pow10, 21);
    assert(usize::MAX < pow10(20));
    lemma_decimal_shape(width as nat, 20);
    lemma_decimal_shape(height as nat, 20);
    let dw = decimal(width as nat);
    let dh = decimal(height as nat);
    let first = seq!['P', '3'];
    let second = dw + seq![' '] + dh;
    let third = seq!['2', '5', '5'];
    assert forall|k: int| 0 <= k < second.len() implies second[k] != '\n' by {
        if k < dw.len() {
            assert(second[k] == dw[k]);
        } else if k > dw.len() {
            assert(second[k] == dh[k - dw.len() - 1]);
        }
    }
    lemma_one_line(first, MAX_LINE_LEN as nat);
    lemma_one_line(second, MAX_LINE_LEN as nat);
    lemma_one_line(third, MAX_LINE_LEN as nat);
    lemma_concat_lines(first + seq!['\n'], second + seq!['\n'], MAX_LINE_LEN as nat);
    lemma_concat_lines(
        first + seq!['\n'] + (second + seq!['\n']),
        third + seq!['\n'],
        MAX_LINE_LEN as nat,
    );
    assert(header(width as nat, height as nat) =~= first + seq!['\n'] + (second + seq!['\n']) + (
    third + seq!['\n']));
}

/// No line of an encoded image is longer than `MAX_LINE_LEN`, and the text
/// ends with a line break (or is empty).
pub proof fn lemma_ppm_lines_fit(width: usize, height: usize, channels: Seq<u8>)
    ensures
        lines_within(ppm_text(width as nat, height as nat, channels), MAX_LINE_LEN as nat),
        closed(ppm_text(width as nat, height as nat, channels)),
{
    lemma_header_lines(width, height);
    lemma_rows_lines(channels, 3 * width as nat, height as nat);
    lemma_concat_lines(
        header(width as nat, height as nat),
        rows_text(channels, 3 * width as nat, height as nat),
        MAX_LINE_LEN as nat,
    );
}

fn digit_str(d: usize) -> (r: &'static str)
    requires
        d < 10,
    ensures
        r@ == seq![digit_char(d as nat)],
{
    proof {
        reveal_strlit("0");
        reveal_strlit("1");
        reveal_strlit("2");
        reveal_strlit("3");
        reveal_strlit("4");
        reveal_strlit("5");
        reveal_strlit("6");
        reveal_strlit("7");
        reveal_strlit("8");
        reveal_strlit("9");
    }
    match d {
        0 => "0",
        1 => "1",
        2 => "2",
        3 => "3",
        4 => "4",
        5 => "5",
        6 => "6",
        7 => "7",
        8 => "8",
        _ => "9",
    }
}

fn push_decimal(out: &mut String, n: usize)
    ensures
        final(out)@ == old(out)@ + decimal(n as nat),
    decreases n,
{
    if n < 10 {
        out.append(digit_str(n));
    } else {
        push_decimal(out, n / 10);
        out.append(digit_str(n % 10));
        assert(decimal(n as nat) == decimal((n / 10) as nat) + seq![digit_char((n % 10) as nat)]);
    }
}

fn decimal_string(n: usize) -> (r: String)
    ensures
        r@ == decimal(n as nat),
{
    let mut s = String::new();
    push_decimal(&mut s, n);
    assert(s@ =~= decimal(n as nat));
    s
}

fn decimal_len(n: u8) -> (r: usize)
    ensures
        r == decimal(n as nat).len(),
        r <= 3,
{
    proof {
        reveal_with_fuel(decimal, 3);
    }
    if n < 10 {
        1
    } else if n < 100 {
        2
    } else {
        3
    }
}

/// Appends the lines of one row of pixels, the channel values
/// `channels[start..end]`.
fn push_row(out: &mut String, channels: &Vec<u8>, start: usize, end: usize)
    requires
        start <= end <= channels@.len(),
    ensures
        final(out)@ == old(out)@ + row_text(channels@.subrange(start as int, end as int)),
{
    let ghost base = old(out)@;
    let mut line = String::new();
    let mut line_len: usize = 0;
    let mut i: usize = start;
    while i < end
        invariant
            start <= i <= end <= channels@.len(),
            base == old(out)@,
            out@ == base + placed(channels@.subrange(start as int, i as int)).0,
            line@ == placed(channels@.subrange(start as int, i as int)).1,
            line_len == line@.len(),
            line_len <= MAX_LINE_LEN,
        decreases end - i,
    {
        let ghost prev = channels@.subrange(start as int, i as int);
        let ghost next = channels@.subrange(start as int, i + 1);
        assert(next.drop_last() =~= prev);
        assert(next.last() == channels@[i as int]);
        let v = channels[i];
        let word = decimal_string(v as usize);
        let word_len = decimal_len(v);
        proof {
            reveal_strlit(" ");
            reveal_strlit("\n");
        }
        if line_len == 0 {
            line = word;
            line_len = word_len;
        } else if line_len + 1 + word_len <= MAX_LINE_LEN {
            line.append(" ");
            line.append(word.as_str());
            line_len = line_len + 1 + word_len;
        } else {
            out.append(line.as_str());
            out.append("\n");
            line = word;
            line_len = word_len;
        }
        assert(out@ =~= base + placed(next).0);
        assert(line@ =~= placed(next).1);
        i += 1;
    }
    proof {
        reveal_strlit("\n");
    }
    if line_len > 0 {
        out.append(line.as_str());
        out.append("\n");
    }
    assert(out@ =~= base + row_text(channels@.subrange(start as int, end as int)));
}

/// Encodes an image as a plain PPM file: the header "P3", the width and the
/// height, the largest value 255, then the red, green and blue values of each
/// pixel row by row (`channels` holds three per pixel, in row-major order).
/// Each row starts on a fresh line, and no line is longer than
/// `MAX_LINE_LEN`; the text ends with a line break.
pub fn encode(width: usize, height: usize, channels: &Vec<u8>) -> (r: String)
    requires
        channels@.len() == 3 * width * height,
    ensures
        r@ == ppm_text(width as nat, height as nat, channels@),
        lines_within(r@, MAX_LINE_LEN as nat),
{
    proof {
        lemma_ppm_lines_fit(width, height, channels@);
    }
    let mut out = String::new();
    proof {
        reveal_strlit("P3\n");
        reveal_strlit(" ");
        reveal_strlit("\n255\n");
    }
    out.append("P3\n");
    push_decimal(&mut out, width);
    out.append(" ");
    push_decimal(&mut out, height);
    out.append("\n255\n");
    assert(out@ =~= header(width as nat, height as nat));
    if height == 0 {
        assert(out@ =~= ppm_text(width as nat, height as nat, channels@));
        return out;
    }
    let total = channels.len();
    assert(3 * width <= 3 * width * height) by (nonlinear_arith)
        requires
            height >= 1,
    ;
    let row_len: usize = 3 * width;
    let mut r: usize = 0;
    while r < height
        invariant
            0 <= r <= height,
            row_len == 3 * width,
            channels@.len() == row_len * height,
            total == channels@.len(),
            out@ == header(width as nat, height as nat) + rows_text(channels@, row_len as nat, r as nat),
        decreases height - r,
    {
        assert((r + 1) * row_len <= row_len * height) by (nonlinear_arith)
            requires
                r < height,
        ;
        assert(r * row_len + row_len == (r + 1) * row_len) by (nonlinear_arith);
        assert(r * row_len <= (r + 1) * row_len) by (nonlinear_arith);
        let start = r * row_len;
        push_row(&mut out, channels, start, start + row_len);
        assert(((r + 1) as nat - 1) as nat == r as nat);
        r += 1;
    }
    out
}

} // verus!
