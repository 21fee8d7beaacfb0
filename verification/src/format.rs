//! Plain-text layout of a process row: decimal rendering, column
//! padding, name truncation and the terminal-width arithmetic. Colour
//! is left to the caller — these functions fix the characters.

use vstd::prelude::*;
use vstd::string::*;

use crate::record::{ProcessInfo, Protocol};

verus! {

/// `n` spaces.
pub open spec fn spaces(n: int) -> Seq<char> {
    Seq::new(n as nat, |i: int| ' ')
}

/// The digit character of one decimal digit.
pub open spec fn digit_char(d: int) -> char {
    if d == 0 {
        '0'
    } else if d == 1 {
        '1'
    } else if d == 2 {
        '2'
    } else if d == 3 {
        '3'
    } else if d == 4 {
        '4'
    } else if d == 5 {
        '5'
    } else if d == 6 {
        '6'
    } else if d == 7 {
        '7'
    } else if d == 8 {
        '8'
    } else {
        '9'
    }
}

/// The decimal digits of a non-negative number, most significant
/// first.
pub open spec fn dec_spec(n: int) -> Seq<char>
    recommends
        n >= 0,
    decreases n,
{
    if n < 10 {
        seq![digit_char(n)]
    } else {
        dec_spec(n / 10).push(digit_char(n % 10))
    }
}

/// One decimal digit as text.
fn digit_str(d: u64) -> (r: &'static str)
    requires
        d < 10,
    ensures
        r@ == seq![digit_char(d as int)],
{
    proof {
        reveal_strlit("0");
        reveal_strlit("1");
        reveal_strlit("2");
        reveal_strlit("3");
        reveal_strlit("4");
        reveal_strlit("5");
        reveal_strlit("6");
        reveal_strlit("7");
        reveal_strlit("8");
        reveal_strlit("9");
    }
    match d {
        0 => "0",
        1 => "1",
        2 => "2",
        3 => "3",
        4 => "4",
        5 => "5",
        6 => "6",
        7 => "7",
        8 => "8",
        _ => "9",
    }
}

/// A non-negative number in decimal.
pub fn u64_to_dec(n: u64) -> (r: String)
    ensures
        r@ == dec_spec(n as int),
    decreases n,
{
    if n < 10 {
        digit_str(n).to_owned()
    } else {
        proof {
            assert(n / 10 < n) by (nonlinear_arith)
                requires
                    n >= 10,
            ;
        }
        let s = u64_to_dec(n / 10);
        let r = s.concat(digit_str(n % 10));
        proof {
            assert(dec_spec(n as int / 10).push(digit_char(n as int % 10)) =~= dec_spec(
                n as int / 10,
            ) + seq![digit_char(n as int % 10)]);
            assert(n as int / 10 == (n / 10) as int);
            assert(n as int % 10 == (n % 10) as int);
        }
        r
    }
}

/// Text padded with leading spaces up to `w`; longer text stays as it
/// is.
pub open spec fn pad_left_spec(s: Seq<char>, w: int) -> Seq<char> {
    if s.len() >= w {
        s
    } else {
        spaces(w - s.len()) + s
    }
}

/// Text padded with trailing spaces up to `w`; longer text stays as
/// it is.
pub open spec fn pad_right_spec(s: Seq<char>, w: int) -> Seq<char> {
    if s.len() >= w {
        s
    } else {
        s + spaces(w - s.len())
    }
}

/// Right-align text in a column of `width`.
pub fn pad_left(s: &str, width: usize) -> (r: String)
    ensures
        r@ == pad_left_spec(s@, width as int),
{
    let len = s.unicode_len();
    let mut out = String::new();
    if len < width {
        proof {
            reveal_strlit(" ");
            assert(out@ =~= spaces(0));
        }
        let mut k: usize = 0;
        while k < width - len
            invariant
                len < width,
                len == s@.len(),
                out@ == spaces(k as int),
                k <= width - len,
            decreases width - len - k,
        {
            out.append(" ");
            proof {
                reveal_strlit(" ");
                assert(out@ =~= spaces(k + 1));
            }
            k = k + 1;
        }
    }
    out.append(s);
    out
}

/// Left-align text in a column of `width`.
pub fn pad_right(s: &str, width: usize) -> (r: String)
    ensures
        r@ == pad_right_spec(s@, width as int),
{
    let len = s.unicode_len();
    let mut out = s.to_owned();
    if len < width {
        let mut k: usize = 0;
        while k < width - len
            invariant
                len < width,
                len == s@.len(),
                out@ == s@ + spaces(k as int),
                k <= width - len,
            decreases width - len - k,
        {
            out.append(" ");
            proof {
                reveal_strlit(" ");
                assert(out@ =~= s@ + spaces(k + 1));
            }
            k = k + 1;
        }
    } else {
        proof {
            assert(out@ =~= pad_right_spec(s@, width as int));
        }
    }
    proof {
        assert(out@ =~= pad_right_spec(s@, width as int));
    }
    out
}

/// A name cut to at most `max_len` characters; a longer name keeps
/// its first `max_len - 3` characters and ends in an ellipsis.
pub open spec fn truncate_spec(s: Seq<char>, max_len: int) -> Seq<char> {
    if s.len() <= max_len {
        s
    } else {
        s.subrange(0, max_len - 3) + "..."@
    }
}

/// Cut a name for its column.
pub fn truncate(s: &str, max_len: usize) -> (r: String)
    requires
        max_len >= 3,
    ensures
        r@ == truncate_spec(s@, max_len as int),
{
    let len = s.unicode_len();
    if len <= max_len {
        s.to_owned()
    } else {
        let head = s.substring_char(0, max_len - 3);
        head.to_owned().concat("...")
    }
}

/// The name-column width for a terminal of `term_width` columns: what
/// the fixed columns leave over, kept between 15 and 80.
pub open spec fn name_width_spec(term_width: int, ports_mode: bool) -> int {
    let fixed: int = if ports_mode {
        43
    } else {
        33
    };
    let avail = if term_width >= fixed {
        term_width - fixed
    } else {
        0
    };
    if avail < 15 {
        15
    } else if avail > 80 {
        80
    } else {
        avail
    }
}

/// Compute the name-column width from the terminal width; the fixed
/// columns are the checkbox, pid, CPU and memory, plus the port column
/// in port mode.
pub fn calculate_name_width(term_width: usize, ports_mode: bool) -> (w: usize)
    ensures
        w as int == name_width_spec(term_width as int, ports_mode),
        15 <= w <= 80,
{
    let fixed: usize = if ports_mode {
        43
    } else {
        33
    };
    let avail: usize = if term_width >= fixed {
        term_width - fixed
    } else {
        0
    };
    if avail < 15 {
        15
    } else if avail > 80 {
        80
    } else {
        avail
    }
}

/// The protocol column text; an unnamed protocol shows as TCP, as the
/// sampler only emits the two.
pub open spec fn proto_spec(p: Option<Protocol>) -> Seq<char> {
    match p {
        Option::Some(Protocol::Udp) => "UDP"@,
        _ => "TCP"@,
    }
}

/// The protocol column text.
fn proto_str(p: &Option<Protocol>) -> (r: &'static str)
    ensures
        r@ == proto_spec(*p),
{
    match p {
        Option::Some(Protocol::Udp) => "UDP",
        _ => "TCP",
    }
}

/// CPU tenths as a one-decimal percentage number.
pub open spec fn cpu_spec(tenths: int) -> Seq<char> {
    dec_spec(tenths / 10) + seq!['.'] + seq![digit_char(tenths % 10)]
}

/// Render the CPU column number.
fn format_cpu(tenths: u32) -> (r: String)
    ensures
        r@ == cpu_spec(tenths as int),
{
    proof {
        reveal_strlit(".");
    }
    let whole = u64_to_dec((tenths / 10) as u64);
    let r = whole.concat(".").concat(digit_str((tenths % 10) as u64));
    proof {
        assert(tenths as int / 10 == (tenths / 10) as int);
        assert(tenths as int % 10 == (tenths % 10) as int);
        assert(r@ =~= cpu_spec(tenths as int));
    }
    r
}

/// The whole plain-text row of one record: in port mode the port and
/// protocol columns first, then pid, the truncated name, CPU to one
/// decimal with a percent sign, and memory in megabytes.
pub open spec fn row_spec(p: ProcessInfo, name_width: int) -> Seq<char> {
    let pid_part = pad_right_spec(dec_spec(p.pid as int), 7);
    let name_part = pad_right_spec(truncate_spec(p.name@, name_width), name_width);
    let cpu_part = pad_left_spec(cpu_spec(p.cpu_tenths as int), 6) + seq!['%'];
    let mem_part = pad_left_spec(dec_spec(p.memory as int) + " MB"@, 9);
    let tail = pid_part + seq![' '] + name_part + seq![' '] + cpu_part + seq![' '] + mem_part;
    match p.port {
        Option::Some(port) => pad_right_spec(dec_spec(port as int), 5) + seq![' '] + pad_left_spec(
            proto_spec(p.protocol),
            3,
        ) + seq![' '] + tail,
        Option::None => tail,
    }
}

/// Render one record as its plain-text row.
pub fn render_row(p: &ProcessInfo, name_width: usize) -> (r: String)
    requires
        name_width >= 3,
    ensures
        r@ == row_spec(*p, name_width as int),
{
    proof {
        reveal_strlit(" ");
        reveal_strlit("%");
        reveal_strlit(" MB");
    }
    let pid_dec = u64_to_dec(p.pid as u64);
    let pid_part = pad_right(pid_dec.as_str(), 7);
    let name_cut = truncate(p.name.as_str(), name_width);
    let name_part = pad_right(name_cut.as_str(), name_width);
    let cpu_num = format_cpu(p.cpu_tenths);
    let cpu_part = pad_left(cpu_num.as_str(), 6).concat("%");
    let mem_num = u64_to_dec(p.memory).concat(" MB");
    let mem_part = pad_left(mem_num.as_str(), 9);
    let tail = pid_part.concat(" ").concat(name_part.as_str()).concat(" ").concat(
        cpu_part.as_str(),
    ).concat(" ").concat(mem_part.as_str());
    proof {
        assert(seq![' '] =~= " "@);
        assert(seq!['%'] =~= "%"@);
    }
    match p.port {
        Option::Some(port) => {
            let port_dec = u64_to_dec(port as u64);
            let port_part = pad_right(port_dec.as_str(), 5);
            let proto_part = pad_left(proto_str(&p.protocol), 3);
            let r = port_part.concat(" ").concat(proto_part.as_str()).concat(" ").concat(
                tail.as_str(),
            );
            proof {
                assert(r@ =~= row_spec(*p, name_width as int));
            }
            r
        },
        Option::None => {
            proof {
                assert(tail@ =~= row_spec(*p, name_width as int));
            }
            tail
        },
    }
}

} // verus!
