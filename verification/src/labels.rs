//! The text of the annotations: the fixed table of latency thresholds with
//! their labels, and the `HH:MM` label of a time gridline.

use vstd::prelude::*;
use vstd::string::*;

verus! {

/// The number of entries in the latency label table.
pub const LABEL_COUNT: usize = 20;

/// One entry of the latency label table: a threshold in nanoseconds and the
/// text drawn where the latency axis reaches it.
#[derive(Clone, Copy, Debug)]
pub struct Label {
    pub threshold: u64,
    pub text: &'static str,
}

/// The threshold of entry `l` of the table, in nanoseconds: 200 ns up to
/// 500 ms in steps of 1, 2, 5.
pub open spec fn label_threshold(l: int) -> u64 {
    if l == 0 {
        200
    } else if l == 1 {
        500
    } else if l == 2 {
        1_000
    } else if l == 3 {
        2_000
    } else if l == 4 {
        5_000
    } else if l == 5 {
        10_000
    } else if l == 6 {
        20_000
    } else if l == 7 {
        50_000
    } else if l == 8 {
        100_000
    } else if l == 9 {
        200_000
    } else if l == 10 {
        500_000
    } else if l == 11 {
        1_000_000
    } else if l == 12 {
        2_000_000
    } else if l == 13 {
        5_000_000
    } else if l == 14 {
        10_000_000
    } else if l == 15 {
        20_000_000
    } else if l == 16 {
        50_000_000
    } else if l == 17 {
        100_000_000
    } else if l == 18 {
        200_000_000
    } else {
        500_000_000
    }
}

/// The text of entry `l` of the table.
pub open spec fn label_text(l: int) -> Seq<char> {
    if l == 0 {
        "200nS"@
    } else if l == 1 {
        "500nS"@
    } else if l == 2 {
        "1uS"@
    } else if l == 3 {
        "2uS"@
    } else if l == 4 {
        "5uS"@
    } else if l == 5 {
        "10uS"@
    } else if l == 6 {
        "20uS"@
    } else if l == 7 {
        "50uS"@
    } else if l == 8 {
        "100uS"@
    } else if l == 9 {
        "200uS"@
    } else if l == 10 {
        "500uS"@
    } else if l == 11 {
        "1mS"@
    } else if l == 12 {
        "2mS"@
    } else if l == 13 {
        "5mS"@
    } else if l == 14 {
        "10mS"@
    } else if l == 15 {
        "20mS"@
    } else if l == 16 {
        "50mS"@
    } else if l == 17 {
        "100mS"@
    } else if l == 18 {
        "200mS"@
    } else {
        "500mS"@
    }
}

/// Entry `l` of the latency label table.
pub fn label(l: usize) -> (entry: Label)
    requires
        l < LABEL_COUNT,
    ensures
        entry.threshold == label_threshold(l as int),
        entry.text@ == label_text(l as int),
{
    match l {
        0 => Label { threshold: 200, text: "200nS" },
        1 => Label { threshold: 500, text: "500nS" },
        2 => Label { threshold: 1_000, text: "1uS" },
        3 => Label { threshold: 2_000, text: "2uS" },
        4 => Label { threshold: 5_000, text: "5uS" },
        5 => Label { threshold: 10_000, text: "10uS" },
        6 => Label { threshold: 20_000, text: "20uS" },
        7 => Label { threshold: 50_000, text: "50uS" },
        8 => Label { threshold: 100_000, text: "100uS" },
        9 => Label { threshold: 200_000, text: "200uS" },
        10 => Label { threshold: 500_000, text: "500uS" },
        11 => Label { threshold: 1_000_000, text: "1mS" },
        12 => Label { threshold: 2_000_000, text: "2mS" },
        13 => Label { threshold: 5_000_000, text: "5mS" },
        14 => Label { threshold: 10_000_000, text: "10mS" },
        15 => Label { threshold: 20_000_000, text: "20mS" },
        16 => Label { threshold: 50_000_000, text: "50mS" },
        17 => Label { threshold: 100_000_000, text: "100mS" },
        18 => Label { threshold: 200_000_000, text: "200mS" },
        _ => Label { threshold: 500_000_000, text: "500mS" },
    }
}

/// The table is strictly ascending.
pub proof fn lemma_thresholds_ascend(i: int, j: int)
    requires
        0 <= i < j < LABEL_COUNT,
    ensures
        label_threshold(i) < label_threshold(j),
{
}

/// The decimal digit `d` as a character.
pub open spec fn digit(d: int) -> char {
    if d == 0 {
        '0'
    } else if d == 1 {
        '1'
    } else if d == 2 {
        '2'
    } else if d == 3 {
        '3'
    } else if d == 4 {
        '4'
    } else if d == 5 {
        '5'
    } else if d == 6 {
        '6'
    } else if d == 7 {
        '7'
    } else if d == 8 {
        '8'
    } else {
        '9'
    }
}

/// `n` in decimal, without leading zeros.
pub open spec fn decimal(n: nat) -> Seq<char>
    decreases n,
{
    if n < 10 {
        seq![digit(n as int)]
    } else {
        decimal(n / 10).push(digit((n % 10) as int))
    }
}

/// `n` in decimal, padded with a zero to two digits.
pub open spec fn two_digits(n: nat) -> Seq<char> {
    if n < 10 {
        seq!['0', digit(n as int)]
    } else {
        decimal(n)
    }
}

/// The label of the time gridline at row `y`: the hours `y / 3600` and the
/// minutes `y / 60`, each in at least two digits, with a colon between them.
/// The minutes are the total elapsed minutes; they do not wrap at the hour.
pub open spec fn time_label(y: nat) -> Seq<char> {
    two_digits(y / 3600) + seq![':'] + two_digits(y / 60)
}

fn digit_str(d: usize) -> (s: &'static str)
    requires
        d < 10,
    ensures
        s@ == seq![digit(d as int)],
{
    proof {
        reveal_strlit("0");
        reveal_strlit("1");
        reveal_strlit("2");
        reveal_strlit("3");
        reveal_strlit("4");
        reveal_strlit("5");
        reveal_strlit("6");
        reveal_strlit("7");
        reveal_strlit("8");
        reveal_strlit("9");
    }
    let s = match d {
        0 => "0",
        1 => "1",
        2 => "2",
        3 => "3",
        4 => "4",
        5 => "5",
        6 => "6",
        7 => "7",
        8 => "8",
        _ => "9",
    };
    assert(s@ =~= seq![digit(d as int)]);
    s
}

fn push_decimal(out: &mut String, n: usize)
    ensures
        final(out)@ == old(out)@ + decimal(n as nat),
    decreases n,
{
    if n >= 10 {
        push_decimal(out, n / 10);
    }
    out.append(digit_str(n % 10));
    assert(out@ =~= old(out)@ + decimal(n as nat));
}

fn push_two_digits(out: &mut String, n: usize)
    ensures
        final(out)@ == old(out)@ + two_digits(n as nat),
{
    if n < 10 {
        out.append(digit_str(0));
        out.append(digit_str(n));
        assert(out@ =~= old(out)@ + two_digits(n as nat));
    } else {
        push_decimal(out, n);
    }
}

/// The label of the time gridline at row `y`, such as `00:00` for the first
/// row and `01:60` for row 3600.
pub fn time_text(y: usize) -> (text: String)
    ensures
        text@ == time_label(y as nat),
{
    let mut text = String::new();
    push_two_digits(&mut text, y / 3600);
    proof {
        reveal_strlit(":");
    }
    text.append(":");
    assert(":"@ =~= seq![':']);
    push_two_digits(&mut text, y / 60);
    assert(text@ =~= time_label(y as nat));
    text
}

/// The first row is labelled `00:00`.
pub proof fn lemma_first_time_label()
    ensures
        time_label(0) == "00:00"@,
{
    reveal_strlit("00:00");
    assert(time_label(0) =~= "00:00"@);
}

} // verus!
