//! Reading the folded body back: the grammar of the text that
//! `Report::to_folded` writes, and the law that nothing is lost on the way.

use crate::report::{folded_body, line_bytes, Line, Report};
use crate::text::{decimal_bytes, digit_byte, lemma_decimal_bytes_digits};
use vstd::prelude::*;
use vstd::utf8::encode_utf8;

verus! {

/// A line of a folded body as it is read back: the bytes of the stack and
/// the count.
pub type ParsedLine = (Seq<u8>, nat);

/// Whether a byte is an ASCII digit.
pub open spec fn is_digit(b: u8) -> bool {
    48 <= b <= 57
}

/// Whether every byte is an ASCII digit.
pub open spec fn all_digits(s: Seq<u8>) -> bool {
    forall|i: int| 0 <= i < s.len() ==> is_digit(#[trigger] s[i])
}

/// The number that a run of digits denotes; zero for the empty run.
pub open spec fn digits_value(s: Seq<u8>) -> nat
    decreases s.len(),
{
    if s.len() == 0 {
        0
    } else {
        (digits_value(s.drop_last()) * 10 + (s.last() - 48)) as nat
    }
}

/// The count that a numeral denotes: it has at least one digit, digits
/// only, and a value that fits in 64 bits.
pub open spec fn parse_count(s: Seq<u8>) -> Option<nat> {
    if s.len() > 0 && all_digits(s) && digits_value(s) <= u64::MAX {
        Some(digits_value(s))
    } else {
        None
    }
}

/// The index of the first `b` in `s`, or the length of `s` if there is none.
pub open spec fn first_index(s: Seq<u8>, b: u8) -> int
    decreases s.len(),
{
    if s.len() == 0 {
        0
    } else if s[0] == b {
        0
    } else {
        1 + first_index(s.drop_first(), b)
    }
}

/// The index of the last `b` in `s`, or -1 if there is none.
pub open spec fn last_index(s: Seq<u8>, b: u8) -> int
    decreases s.len(),
{
    if s.len() == 0 {
        -1
    } else if s.last() == b {
        s.len() - 1
    } else {
        last_index(s.drop_last(), b)
    }
}

/// One line without its newline: the stack, the last space, the count.
pub open spec fn parse_line(line: Seq<u8>) -> Option<ParsedLine> {
    let space = last_index(line, 32);
    if space < 0 {
        None
    } else {
        match parse_count(line.subrange(space + 1, line.len() as int)) {
            Some(count) => Some((line.subrange(0, space), count)),
            None => None,
        }
    }
}

/// A folded body: lines that each end in a newline.
pub open spec fn parse_body(body: Seq<u8>) -> Option<Seq<ParsedLine>>
    decreases body.len(),
{
    if body.len() == 0 {
        Some(Seq::empty())
    } else {
        let newline = first_index(body, 10);
        if newline < 0 || newline >= body.len() {
            None
        } else {
            match (
                parse_line(body.subrange(0, newline)),
                parse_body(body.subrange(newline + 1, body.len() as int)),
            ) {
                (Some(line), Some(rest)) => Some(seq![line] + rest),
                _ => None,
            }
        }
    }
}

/// The lines of a report as the parser returns them: each stack as its
/// UTF-8 bytes.
pub open spec fn lines_as_bytes(lines: Seq<Line>) -> Seq<ParsedLine> {
    Seq::new(lines.len(), |i: int| (encode_utf8(lines[i].0), lines[i].1))
}

/// Where the first `b` is.
pub proof fn lemma_first_index(s: Seq<u8>, b: u8, i: int)
    requires
        0 <= i <= s.len(),
        forall|j: int| 0 <= j < i ==> s[j] != b,
        i < s.len() ==> s[i] == b,
    ensures
        first_index(s, b) == i,
    decreases i,
{
    if i > 0 {
        let rest = s.drop_first();
        assert forall|j: int| 0 <= j < i - 1 implies rest[j] != b by {
            assert(rest[j] == s[j + 1]);
        }
        lemma_first_index(rest, b, i - 1);
    }
}

/// Where the last `b` is.
pub proof fn lemma_last_index(s: Seq<u8>, b: u8, i: int)
    requires
        -1 <= i < s.len(),
        forall|j: int| i < j < s.len() ==> s[j] != b,
        i >= 0 ==> s[i] == b,
    ensures
        last_index(s, b) == i,
    decreases s.len(),
{
    if s.len() > 0 && i < s.len() - 1 {
        let rest = s.drop_last();
        assert forall|j: int| i < j < rest.len() implies rest[j] != b by {
            assert(rest[j] == s[j]);
        }
        lemma_last_index(rest, b, i);
    }
}

/// A decimal numeral denotes its number.
pub proof fn lemma_digits_value_of_decimal(n: nat)
    ensures
        digits_value(decimal_bytes(n)) == n,
        all_digits(decimal_bytes(n)),
        decimal_bytes(n).len() > 0,
    decreases n,
{
    lemma_decimal_bytes_digits(n);
    let s = decimal_bytes(n);
    if n < 10 {
        assert(s.drop_last() =~= Seq::<u8>::empty());
        assert(digits_value(Seq::<u8>::empty()) == 0);
        assert(s.last() == digit_byte(n));
    } else {
        lemma_digits_value_of_decimal(n / 10);
        assert(s.drop_last() =~= decimal_bytes(n / 10));
        assert(s.last() == digit_byte(n % 10));
    }
}

/// The value of a run of digits does not shrink when digits are appended.
pub proof fn lemma_digits_value_grows(s: Seq<u8>, k: int)
    requires
        all_digits(s),
        0 <= k <= s.len(),
    ensures
        digits_value(s.take(k)) <= digits_value(s),
    decreases s.len() - k,
{
    if k < s.len() {
        let longer = s.take(k + 1);
        assert(longer.drop_last() =~= s.take(k));
        assert(is_digit(s[k]));
        assert(longer.last() == s[k]);
        lemma_digits_value_grows(s, k + 1);
    } else {
        assert(s.take(k) =~= s);
    }
}

/// The body starts with its first line.
pub proof fn lemma_folded_body_front(lines: Seq<Line>)
    requires
        lines.len() > 0,
    ensures
        folded_body(lines) == line_bytes(lines[0]) + folded_body(lines.drop_first()),
    decreases lines.len(),
{
    if lines.len() == 1 {
        assert(lines.drop_last() =~= Seq::<Line>::empty());
        assert(lines.drop_first() =~= Seq::<Line>::empty());
        assert(folded_body(Seq::<Line>::empty()) =~= Seq::<u8>::empty());
        assert(folded_body(lines) =~= line_bytes(lines[0]) + folded_body(lines.drop_first()));
    } else {
        let front = lines.drop_last();
        lemma_folded_body_front(front);
        assert(front[0] == lines[0]);
        assert(front.drop_first() =~= lines.drop_first().drop_last());
        assert(lines.drop_first().last() == lines.last());
        assert(folded_body(lines) =~= line_bytes(lines[0]) + folded_body(lines.drop_first()));
    }
}

/// Round trip: reading back the folded body of a report gives its lines, in
/// order, each with its stack and its count. This holds where no stack
/// contains a newline, which would end its line early.
pub proof fn folded_round_trip(lines: Seq<Line>)
    requires
        forall|i: int| 0 <= i < lines.len() ==> !encode_utf8((#[trigger] lines[i]).0).contains(10u8),
        forall|i: int| 0 <= i < lines.len() ==> (#[trigger] lines[i]).1 <= u64::MAX,
    ensures
        parse_body(folded_body(lines)) == Some(lines_as_bytes(lines)),
    decreases lines.len(),
{
    if lines.len() == 0 {
        assert(folded_body(lines) =~= Seq::<u8>::empty());
        assert(lines_as_bytes(lines) =~= Seq::<ParsedLine>::empty());
    } else {
        let rest = lines.drop_first();
        assert forall|i: int| 0 <= i < rest.len() implies !encode_utf8(
            (#[trigger] rest[i]).0,
        ).contains(10u8) && rest[i].1 <= u64::MAX by {
            assert(rest[i] == lines[i + 1]);
        }
        folded_round_trip(rest);
        lemma_folded_body_front(lines);
        let stack = encode_utf8(lines[0].0);
        let digits = decimal_bytes(lines[0].1);
        let line = stack + seq![32u8] + digits;
        let body = folded_body(lines);
        let newline = line.len() as int;
        lemma_digits_value_of_decimal(lines[0].1);
        assert(body =~= line + seq![10u8] + folded_body(rest));
        assert forall|j: int| 0 <= j < newline implies body[j] != 10u8 by {
            if j < stack.len() {
                assert(body[j] == stack[j]);
                assert(stack.contains(stack[j]));
            } else if j > stack.len() {
                assert(body[j] == digits[j - stack.len() - 1]);
                assert(is_digit(digits[j - stack.len() - 1]));
            }
        }
        lemma_first_index(body, 10, newline);
        assert(body.subrange(0, newline) =~= line);
        assert(body.subrange(newline + 1, body.len() as int) =~= folded_body(rest));
        assert forall|j: int| stack.len() < j < line.len() implies line[j] != 32u8 by {
            assert(line[j] == digits[j - stack.len() - 1]);
            assert(is_digit(digits[j - stack.len() - 1]));
        }
        lemma_last_index(line, 32, stack.len() as int);
        assert(line.subrange(stack.len() as int + 1, line.len() as int) =~= digits);
        assert(line.subrange(0, stack.len() as int) =~= stack);
        assert(parse_line(line) == Some((stack, lines[0].1)));
        assert(seq![(stack, lines[0].1)] + lines_as_bytes(rest) =~= lines_as_bytes(lines));
    }
}

/// Round trip for a report: reading back its folded body gives its lines,
/// in order, each with its stack and its count, where no stack of the report
/// contains a newline.
pub proof fn report_round_trip(report: &Report)
    requires
        forall|i: int|
            0 <= i < report@.lines.len() ==> !encode_utf8((#[trigger] report@.lines[i]).0).contains(
                10u8,
            ),
    ensures
        parse_body(folded_body(report@.lines)) == Some(lines_as_bytes(report@.lines)),
{
    report.lemma_counts_fit();
    folded_round_trip(report@.lines);
}

/// A line that has been read back.
#[derive(Debug)]
pub struct FoldedLine {
    /// The bytes of the folded stack.
    pub stack: Vec<u8>,
    pub count: u64,
}

/// The lines that a list of read-back lines stands for.
pub open spec fn parsed_views(lines: Seq<FoldedLine>) -> Seq<ParsedLine> {
    Seq::new(lines.len(), |i: int| (lines[i].stack@, lines[i].count as nat))
}

/// Reads the count in `body[from..to]`.
fn read_count(body: &[u8], from: usize, to: usize) -> (r: Option<u64>)
    requires
        from <= to <= body.len(),
    ensures
        match parse_count(body@.subrange(from as int, to as int)) {
            Some(n) => r == Some(n as u64),
            None => r is None,
        },
{
    let ghost s = body@.subrange(from as int, to as int);
    if from == to {
        return None;
    }
    let mut i: usize = from;
    while i < to
        invariant
            from <= i <= to <= body.len(),
            s == body@.subrange(from as int, to as int),
            forall|j: int| 0 <= j < i - from ==> is_digit(#[trigger] s[j]),
        decreases to - i,
    {
        if body[i] < 48 || body[i] > 57 {
            assert(!is_digit(s[i - from]));
            return None;
        }
        i = i + 1;
    }
    let mut value: u64 = 0;
    let mut k: usize = from;
    proof {
        assert(s.take(0) =~= Seq::<u8>::empty());
    }
    while k < to
        invariant
            from <= k <= to <= body.len(),
            s == body@.subrange(from as int, to as int),
            all_digits(s),
            value == digits_value(s.take(k - from)),
        decreases to - k,
    {
        proof {
            let longer = s.take(k - from + 1);
            assert(longer.drop_last() =~= s.take(k - from));
            assert(longer.last() == body@[k as int]);
            assert(is_digit(s[k - from]));
            lemma_digits_value_grows(s, k - from + 1);
        }
        let d: u64 = (body[k] - 48) as u64;
        value = match value.checked_mul(10) {
            Some(v) => match v.checked_add(d) {
                Some(v) => v,
                None => {
                    return None;
                },
            },
            None => {
                return None;
            },
        };
        k = k + 1;
    }
    proof {
        assert(s.take(to - from) =~= s);
    }
    Some(value)
}

/// Reads a folded body back into its lines. Returns `None` where the body is
/// not made of lines of the form `stack count` that each end in a newline,
/// or where a count does not fit in 64 bits.
pub fn parse_folded(body: &[u8]) -> (r: Option<Vec<FoldedLine>>)
    ensures
        match parse_body(body@) {
            Some(lines) => r matches Some(parsed) && parsed_views(parsed@) == lines,
            None => r is None,
        },
{
    let mut out: Vec<FoldedLine> = Vec::new();
    let mut start: usize = 0;
    proof {
        assert(body@.subrange(0, body@.len() as int) =~= body@);
        assert(parsed_views(out@) =~= Seq::<ParsedLine>::empty());
    }
    while start < body.len()
        invariant
            start <= body.len(),
            parse_body(body@) == match parse_body(body@.subrange(start as int, body@.len() as int)) {
                Some(rest) => Some(parsed_views(out@) + rest),
                None => None::<Seq<ParsedLine>>,
            },
        decreases body.len() - start,
    {
        let ghost tail = body@.subrange(start as int, body@.len() as int);
        let mut end: usize = start;
        while end < body.len() && body[end] != 10
            invariant
                start <= end <= body.len(),
                forall|j: int| start <= j < end ==> body@[j] != 10u8,
            decreases body.len() - end,
        {
            end = end + 1;
        }
        proof {
            assert forall|j: int| 0 <= j < end - start implies tail[j] != 10u8 by {
                assert(tail[j] == body@[start + j]);
            }
            lemma_first_index(tail, 10, end - start);
        }
        if end == body.len() {
            return None;
        }
        let ghost line = tail.subrange(0, end - start);
        proof {
            assert(line =~= body@.subrange(start as int, end as int));
            assert(tail.subrange(end - start + 1, tail.len() as int) =~= body@.subrange(
                end + 1,
                body@.len() as int,
            ));
        }
        let mut space: usize = end;
        while space > start && body[space - 1] != 32
            invariant
                start <= space <= end,
                end < body.len(),
                forall|j: int| space <= j < end ==> body@[j] != 32u8,
            decreases space,
        {
            space = space - 1;
        }
        proof {
            assert forall|j: int| space - start - 1 < j < line.len() implies line[j] != 32u8 by {
                assert(line[j] == body@[start + j]);
            }
            if space > start {
                assert(line[space - start - 1] == body@[space - 1]);
            }
            lemma_last_index(line, 32, space - start - 1);
        }
        if space == start {
            return None;
        }
        proof {
            assert(line.subrange(space - start, line.len() as int) =~= body@.subrange(
                space as int,
                end as int,
            ));
            assert(line.subrange(0, space - start - 1) =~= body@.subrange(
                start as int,
                space - 1,
            ));
        }
        let count = match read_count(body, space, end) {
            Some(count) => count,
            None => {
                return None;
            },
        };
        let mut stack: Vec<u8> = Vec::new();
        let mut j: usize = start;
        while j < space - 1
            invariant
                start <= j <= space - 1,
                space <= body.len(),
                stack@ == body@.subrange(start as int, j as int),
            decreases space - 1 - j,
        {
            stack.push(body[j]);
            assert(stack@ =~= body@.subrange(start as int, j + 1));
            j = j + 1;
        }
        let ghost before = parsed_views(out@);
        out.push(FoldedLine { stack, count });
        proof {
            let parsed: ParsedLine = (body@.subrange(start as int, space - 1), count as nat);
            assert(parse_line(line) == Some(parsed));
            assert(parsed_views(out@) =~= before.push(parsed));
            let rest = parse_body(body@.subrange(end + 1, body@.len() as int));
            if rest is Some {
                assert(before + (seq![parsed] + rest.unwrap()) =~= parsed_views(out@)
                    + rest.unwrap());
            }
        }
        start = end + 1;
    }
    proof {
        assert(body@.subrange(start as int, body@.len() as int) =~= Seq::<u8>::empty());
        assert(parsed_views(out@) + Seq::<ParsedLine>::empty() =~= parsed_views(out@));
    }
    Some(out)
}

} // verus!
