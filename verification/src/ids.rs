//! Identifiers shared by the telemetry pipeline.
//!
//! A [`GlobalId`] names a dataflow, view or source; a worker is a small
//! unsigned integer naming one parallel instance. Identifiers render to text
//! for output rows and sink keys, so a verified decimal formatter lives here
//! as well.

use vstd::prelude::*;

verus! {

/// A global identifier for a dataflow, view or source.
#[derive(Clone, Copy, Debug, PartialEq, Eq, Structural)]
pub enum GlobalId {
    /// An identifier in the system namespace.
    System(u64),
    /// An identifier in the user namespace.
    User(u64),
    /// A transient identifier.
    Transient(u64),
    /// A dummy identifier for query explanations.
    Explain,
}

/// The character for one decimal digit.
pub open spec fn digit_char(d: int) -> char {
    if d == 0 {
        '0'
    } else if d == 1 {
        '1'
    } else if d == 2 {
        '2'
    } else if d == 3 {
        '3'
    } else if d == 4 {
        '4'
    } else if d == 5 {
        '5'
    } else if d == 6 {
        '6'
    } else if d == 7 {
        '7'
    } else if d == 8 {
        '8'
    } else {
        '9'
    }
}

/// The decimal rendering of a number, most significant digit first.
pub open spec fn dec_digits(n: int) -> Seq<char>
    decreases n,
{
    if n < 10 {
        seq![digit_char(n)]
    } else {
        dec_digits(n / 10).push(digit_char(n % 10))
    }
}

/// The text of a [`GlobalId`]: a namespace letter followed by the number, or
/// the word for an explanation identifier.
pub open spec fn gid_text(g: GlobalId) -> Seq<char> {
    match g {
        GlobalId::System(n) => seq!['s'].add(dec_digits(n as int)),
        GlobalId::User(n) => seq!['u'].add(dec_digits(n as int)),
        GlobalId::Transient(n) => seq!['t'].add(dec_digits(n as int)),
        GlobalId::Explain => "Explained"@,
    }
}

/// Append one decimal digit's character to a string.
fn push_digit(s: &mut String, d: u64)
    requires
        d < 10,
    ensures
        final(s)@ == old(s)@.push(digit_char(d as int)),
{
    proof {
        reveal_strlit("0");
        reveal_strlit("1");
        reveal_strlit("2");
        reveal_strlit("3");
        reveal_strlit("4");
        reveal_strlit("5");
        reveal_strlit("6");
        reveal_strlit("7");
        reveal_strlit("8");
        reveal_strlit("9");
    }
    match d {
        0 => s.append("0"),
        1 => s.append("1"),
        2 => s.append("2"),
        3 => s.append("3"),
        4 => s.append("4"),
        5 => s.append("5"),
        6 => s.append("6"),
        7 => s.append("7"),
        8 => s.append("8"),
        _ => s.append("9"),
    }
    proof {
        assert(final(s)@ =~= old(s)@.push(digit_char(d as int)));
    }
}

/// Append the decimal rendering of a number to a string.
pub fn push_decimal(s: &mut String, n: u64)
    ensures
        final(s)@ == old(s)@ + dec_digits(n as int),
    decreases n,
{
    if n >= 10 {
        push_decimal(s, n / 10);
    }
    push_digit(s, n % 10);
    proof {
        assert(final(s)@ =~= old(s)@ + dec_digits(n as int));
    }
}

impl GlobalId {
    /// Render the identifier as text.
    pub fn to_text(&self) -> (r: String)
        ensures
            r@ == gid_text(*self),
    {
        proof {
            reveal_strlit("s");
            reveal_strlit("u");
            reveal_strlit("t");
            reveal_strlit("Explained");
        }
        match self {
            GlobalId::System(n) => {
                let mut s = String::from_str("s");
                push_decimal(&mut s, *n);
                proof {
                    assert(s@ =~= gid_text(*self));
                }
                s
            },
            GlobalId::User(n) => {
                let mut s = String::from_str("u");
                push_decimal(&mut s, *n);
                proof {
                    assert(s@ =~= gid_text(*self));
                }
                s
            },
            GlobalId::Transient(n) => {
                let mut s = String::from_str("t");
                push_decimal(&mut s, *n);
                proof {
                    assert(s@ =~= gid_text(*self));
                }
                s
            },
            GlobalId::Explain => String::from_str("Explained"),
        }
    }
}

} // verus!
