//! What is reported when several blocks have one number.

use crate::store::Row;
use vstd::prelude::*;
use vstd::string::*;

verus! {

/// The lower-case hexadecimal digit of a value below 16.
pub open spec fn hex_digit(n: int) -> char {
    if n < 10 {
        (48 + n) as char
    } else {
        (87 + n) as char
    }
}

/// Two hexadecimal digits to a byte, the high one first.
pub open spec fn hex_text(data: Seq<u8>) -> Seq<char> {
    Seq::new(
        data.len() * 2,
        |i: int|
            if i % 2 == 0 {
                hex_digit(data[i / 2] as int / 16)
            } else {
                hex_digit(data[i / 2] as int % 16)
            },
    )
}

/// The decimal digits of a number, without leading zeros.
pub open spec fn decimal_text(n: nat) -> Seq<char>
    decreases n,
{
    if n < 10 {
        seq![(48 + n) as char]
    } else {
        decimal_text(n / 10).push((48 + n % 10) as char)
    }
}

/// Calls `hex::encode`: every byte as two lower-case hexadecimal digits, the high one first.
#[verifier::external_body]
pub(crate) fn hex_encode(data: &[u8]) -> (text: String)
    ensures
        text@ == hex_text(data@),
{
    hex::encode(data)
}

/// Calls `u64::to_string`: the number in decimal, without leading zeros.
#[verifier::external_body]
pub(crate) fn decimal(n: u64) -> (text: String)
    ensures
        text@ == decimal_text(n as nat),
{
    n.to_string()
}

/// The line that lists one candidate's key or value.
pub open spec fn candidate_line(data: Seq<u8>) -> Seq<char> {
    "  => "@ + hex_text(data)
}

/// The lines of the report: a heading, then key and value of each candidate.
pub open spec fn fork_lines(num: u64, rows: Seq<(Seq<u8>, Seq<u8>)>) -> Seq<Seq<char>>
    decreases rows.len(),
{
    if rows.len() == 0 {
        seq!["multiple blocks found for same number: "@ + decimal_text(num as nat)]
    } else {
        fork_lines(num, rows.drop_last()).push(candidate_line(rows.last().0)).push(
            candidate_line(rows.last().1),
        )
    }
}

/// A stored header: its bytes and what they decode to.
#[derive(Debug)]
pub struct StoredHeader<H> {
    pub bytes: Vec<u8>,
    pub message: Result<H, String>,
}

/// Keys and stored bytes of the rows.
pub open spec fn row_bytes<H>(rows: Seq<Row<StoredHeader<H>>>) -> Seq<(Seq<u8>, Seq<u8>)> {
    rows.map_values(|r: Row<StoredHeader<H>>| (r.key@, r.value.bytes@))
}

/// The text of each line.
pub open spec fn line_texts(lines: Seq<String>) -> Seq<Seq<char>> {
    lines.map_values(|l: String| l@)
}

fn prefixed(head: &str, tail: &String) -> (line: String)
    ensures
        line@ == head@ + tail@,
{
    let mut line: String = head.to_owned();
    line.append(tail.as_str());
    line
}

/// The report on several blocks of one number.
pub fn fork_report<H>(num: u64, rows: &Vec<Row<StoredHeader<H>>>) -> (lines: Vec<String>)
    ensures
        line_texts(lines@) == fork_lines(num, row_bytes(rows@)),
{
    let mut lines: Vec<String> = Vec::new();
    lines.push(prefixed("multiple blocks found for same number: ", &decimal(num)));
    let ghost all = row_bytes(rows@);
    let mut i: usize = 0;
    assert(line_texts(lines@) =~= fork_lines(num, all.take(0)));
    while i < rows.len()
        invariant
            i <= rows@.len(),
            all == row_bytes(rows@),
            line_texts(lines@) == fork_lines(num, all.take(i as int)),
        decreases rows@.len() - i,
    {
        let ghost before = lines@;
        lines.push(prefixed("  => ", &hex_encode(rows[i].key.as_slice())));
        lines.push(prefixed("  => ", &hex_encode(rows[i].value.bytes.as_slice())));
        proof {
            let head = all.take(i + 1);
            assert(head.drop_last() =~= all.take(i as int));
            assert(line_texts(lines@) =~= line_texts(before).push(
                candidate_line(head.last().0),
            ).push(candidate_line(head.last().1)));
        }
        i += 1;
    }
    assert(all.take(all.len() as int) =~= all);
    lines
}

/// The value of a hexadecimal digit.
pub open spec fn digit_value(c: char) -> int {
    if '0' <= c && c <= '9' {
        c as int - '0' as int
    } else {
        c as int - 'a' as int + 10
    }
}

/// Bytes can be read off their hexadecimal text, which consists of digits and the letters
/// from a to f.
pub proof fn law_hex_text_is_read_back(data: Seq<u8>)
    ensures
        hex_text(data).len() == 2 * data.len(),
        forall|i: int|
            0 <= i < data.len() ==> digit_value(hex_text(data)[2 * i]) * 16 + digit_value(
                hex_text(data)[2 * i + 1],
            ) == #[trigger] data[i],
        forall|i: int|
            0 <= i < hex_text(data).len() ==> {
                let c = #[trigger] hex_text(data)[i];
                ('0' <= c && c <= '9') || ('a' <= c && c <= 'f')
            },
{
    let text = hex_text(data);
    assert forall|i: int| 0 <= i < data.len() implies digit_value(text[2 * i]) * 16 + digit_value(
        text[2 * i + 1],
    ) == #[trigger] data[i] by {
        let b = data[i] as int;
        lemma_hex_digit(b / 16);
        lemma_hex_digit(b % 16);
        assert((2 * i) / 2 == i && (2 * i + 1) / 2 == i);
    }
    assert forall|i: int| 0 <= i < text.len() implies {
        let c = #[trigger] text[i];
        ('0' <= c && c <= '9') || ('a' <= c && c <= 'f')
    } by {
        let b = data[i / 2] as int;
        lemma_hex_digit(b / 16);
        lemma_hex_digit(b % 16);
    }
}

proof fn lemma_hex_digit(n: int)
    requires
        0 <= n < 16,
    ensures
        digit_value(hex_digit(n)) == n,
        ('0' <= hex_digit(n) && hex_digit(n) <= '9') || ('a' <= hex_digit(n) && hex_digit(n)
            <= 'f'),
{
}

/// The number that decimal digits spell.
pub open spec fn decimal_value(text: Seq<char>) -> int
    decreases text.len(),
{
    if text.len() == 0 {
        0
    } else {
        decimal_value(text.drop_last()) * 10 + (text.last() as int - '0' as int)
    }
}

/// A number can be read off its decimal text, which consists of digits and does not begin
/// with a zero but for the number 0.
pub proof fn law_decimal_text_is_read_back(n: nat)
    ensures
        decimal_value(decimal_text(n)) == n,
        decimal_text(n).len() > 0,
        n > 0 ==> decimal_text(n)[0] != '0',
        forall|i: int|
            0 <= i < decimal_text(n).len() ==> '0' <= (#[trigger] decimal_text(n)[i])
                && decimal_text(n)[i] <= '9',
    decreases n,
{
    let text = decimal_text(n);
    if n < 10 {
        assert(text.drop_last() =~= Seq::<char>::empty());
        assert(decimal_value(text.drop_last()) == 0);
    } else {
        law_decimal_text_is_read_back(n / 10);
        let head = decimal_text(n / 10);
        assert(text.drop_last() =~= head);
        assert forall|i: int| 0 <= i < text.len() implies '0' <= (#[trigger] text[i]) && text[i]
            <= '9' by {
            if i < head.len() {
                assert(text[i] == head[i]);
            }
        }
        assert(text[0] == head[0]);
    }
}

} // verus!
