//! Errors of the simulator.
//!
//! Only what depends on outside input, such as an inconsistent topology, is reported as an
//! error.
use vstd::prelude::*;
use vstd::string::StringExecFns;

verus! {

/// An error that a caller can recover from.
#[derive(Debug)]
pub enum SimError {
    /// The topology is inconsistent: a host has no connection, or its switch is missing.
    Topology(String),
    /// The parameters of a simulation are out of order.
    Init(String),
}

/// The result of a call that can fail.
pub type SimResult<T> = Result<T, SimError>;

impl SimError {
    /// The text of the error.
    pub open spec fn text(self) -> Seq<char> {
        match self {
            SimError::Topology(what) => "拓扑不一致: "@ + what@,
            SimError::Init(what) => "初始化错误: "@ + what@,
        }
    }

    /// The text of the error.
    pub fn message(&self) -> (text: String)
        ensures
            text@ == self.text(),
    {
        match self {
            SimError::Topology(what) => {
                let mut text: String = "拓扑不一致: ".to_owned();
                text.append(what.as_str());
                text
            },
            SimError::Init(what) => {
                let mut text: String = "初始化错误: ".to_owned();
                text.append(what.as_str());
                text
            },
        }
    }
}

/// The decimal digit of a number below ten.
pub open spec fn digit(d: int) -> char {
    if d == 0 {
        '0'
    } else if d == 1 {
        '1'
    } else if d == 2 {
        '2'
    } else if d == 3 {
        '3'
    } else if d == 4 {
        '4'
    } else if d == 5 {
        '5'
    } else if d == 6 {
        '6'
    } else if d == 7 {
        '7'
    } else if d == 8 {
        '8'
    } else {
        '9'
    }
}

/// A number in decimal notation, without leading zeros.
pub open spec fn decimal(n: nat) -> Seq<char>
    decreases n,
{
    if n < 10 {
        seq![digit(n as int)]
    } else {
        decimal(n / 10).push(digit(n as int % 10))
    }
}

fn write_decimal(out: &mut String, n: u32)
    ensures
        final(out)@ == old(out)@ + decimal(n as nat),
    decreases n,
{
    if n >= 10 {
        write_decimal(out, n / 10);
    }
    let d: u32 = n % 10;
    let text: &str = match d {
        0 => "0",
        1 => "1",
        2 => "2",
        3 => "3",
        4 => "4",
        5 => "5",
        6 => "6",
        7 => "7",
        8 => "8",
        _ => "9",
    };
    proof {
        reveal_strlit("0");
        reveal_strlit("1");
        reveal_strlit("2");
        reveal_strlit("3");
        reveal_strlit("4");
        reveal_strlit("5");
        reveal_strlit("6");
        reveal_strlit("7");
        reveal_strlit("8");
        reveal_strlit("9");
        assert(text@ =~= seq![digit(d as int)]);
    }
    out.append(text);
    assert(out@ =~= old(out)@ + decimal(n as nat));
}

/// A message with a number in it.
pub(crate) fn numbered_message(before: &str, n: u32, after: &str) -> (text: String)
    ensures
        text@ == before@ + decimal(n as nat) + after@,
{
    let mut text: String = before.to_owned();
    write_decimal(&mut text, n);
    text.append(after);
    text
}

/// The number that decimal digits stand for.
pub open spec fn value(digits: Seq<char>) -> int
    decreases digits.len(),
{
    if digits.len() == 0 {
        0
    } else {
        value(digits.drop_last()) * 10 + (digits.last() as u32 - '0' as u32)
    }
}

/// The decimal notation of a number consists of digits, stands for the number, and has no leading zero.
pub proof fn law_decimal_stands_for_number(n: nat)
    ensures
        value(decimal(n)) == n,
        decimal(n).len() > 0,
        forall|i: int|
            0 <= i < decimal(n).len() ==> '0' as u32 <= (#[trigger] decimal(n)[i]) as u32 <= '9' as u32,
        n > 0 ==> decimal(n)[0] != '0',
    decreases n,
{
    reveal_with_fuel(value, 2);
    if n >= 10 {
        law_decimal_stands_for_number(n / 10);
        let d = decimal(n);
        assert(d.drop_last() =~= decimal(n / 10));
        assert forall|i: int| 0 <= i < d.len() implies '0' as u32 <= (#[trigger] d[i]) as u32
            <= '9' as u32 by {
            if i < d.len() - 1 {
                assert(d[i] == decimal(n / 10)[i]);
            }
        }
    } else {
        assert(decimal(n).drop_last() =~= Seq::empty());
    }
}

/// The text of an error says what kind of error it is and what is wrong.
pub proof fn law_error_texts(e: SimError)
    ensures
        e matches SimError::Topology(what) ==> e.text() == "拓扑不一致: "@ + what@,
        e matches SimError::Init(what) ==> e.text() == "初始化错误: "@ + what@,
{
}

} // verus!
