//! How symbols and placed equations read as text.

use crate::grid_equation::GridEquation;
use crate::grid_equation::GridEquationView;
use crate::symbol::Operator;
use crate::symbol::Symbol;
use vstd::prelude::*;
use vstd::string::StringExecFns;

verus! {

/// The character of the decimal digit `d`.
pub open spec fn digit_char(d: int) -> char {
    if d == 0 {
        '0'
    } else if d == 1 {
        '1'
    } else if d == 2 {
        '2'
    } else if d == 3 {
        '3'
    } else if d == 4 {
        '4'
    } else if d == 5 {
        '5'
    } else if d == 6 {
        '6'
    } else if d == 7 {
        '7'
    } else if d == 8 {
        '8'
    } else {
        '9'
    }
}

/// The decimal digits of `n`, most significant first, without leading
/// zeros.
pub open spec fn digits(n: nat) -> Seq<char>
    decreases n,
{
    if n < 10 {
        seq![digit_char(n as int)]
    } else {
        digits(n / 10).push(digit_char((n % 10) as int))
    }
}

/// The decimal notation of `v`, with a minus sign in front of a negative
/// number.
pub open spec fn decimal(v: int) -> Seq<char> {
    if v < 0 {
        seq!['-'] + digits((-v) as nat)
    } else {
        digits(v as nat)
    }
}

/// A coordinate as text: `(x, y)`.
pub open spec fn pair_text(x: int, y: int) -> Seq<char> {
    seq!['('] + decimal(x) + seq![',', ' '] + decimal(y) + seq![')']
}

/// The texts of `symbols`, separated by single spaces.
pub open spec fn spaced(symbols: Seq<Symbol>) -> Seq<char>
    decreases symbols.len(),
{
    if symbols.len() == 0 {
        Seq::empty()
    } else if symbols.len() == 1 {
        symbols[0].text()
    } else {
        spaced(symbols.drop_last()) + seq![' '] + symbols.last().text()
    }
}

impl Operator {
    /// The glyph of the operator.
    pub open spec fn glyph(self) -> Seq<char> {
        match self {
            Operator::Add => seq!['+'],
            Operator::Subtract => seq!['-'],
            Operator::Multiply => seq!['*'],
            Operator::Divide => seq!['/'],
        }
    }

    /// The glyph of the operator: `+`, `-`, `*` or `/`.
    pub fn to_string(&self) -> (text: String)
        ensures
            text@ == self.glyph(),
    {
        proof {
            reveal_strlit("+");
            reveal_strlit("-");
            reveal_strlit("*");
            reveal_strlit("/");
        }
        let glyph = match self {
            Operator::Add => "+",
            Operator::Subtract => "-",
            Operator::Multiply => "*",
            Operator::Divide => "/",
        };
        assert(glyph@ =~= self.glyph());
        String::from_str(glyph)
    }
}

impl Symbol {
    /// The text of the cell: a number in decimal notation, the glyph of an
    /// operator, `=` for the separator, `x` for a hidden number and a space
    /// for an empty cell.
    pub open spec fn text(self) -> Seq<char> {
        match self {
            Symbol::Number(n) => decimal(n as int),
            Symbol::Operator(op) => op.glyph(),
            Symbol::Equals => seq!['='],
            Symbol::Unknown(_) => seq!['x'],
            Symbol::Empty => seq![' '],
        }
    }

    /// The text of the cell.
    pub fn to_string(&self) -> (text: String)
        ensures
            text@ == self.text(),
    {
        match self {
            Symbol::Number(n) => {
                let mut text = String::new();
                append_decimal(&mut text, *n as i64);
                assert(text@ =~= decimal(*n as int));
                text
            },
            Symbol::Operator(op) => op.to_string(),
            Symbol::Equals => {
                proof {
                    reveal_strlit("=");
                }
                assert("="@ =~= seq!['=']);
                String::from_str("=")
            },
            Symbol::Unknown(_) => {
                proof {
                    reveal_strlit("x");
                }
                assert("x"@ =~= seq!['x']);
                String::from_str("x")
            },
            Symbol::Empty => {
                proof {
                    reveal_strlit(" ");
                }
                assert(" "@ =~= seq![' ']);
                String::from_str(" ")
            },
        }
    }
}

/// The digit `d` as a string of one character.
fn digit_str(d: u64) -> (text: &'static str)
    requires
        d < 10,
    ensures
        text@ == seq![digit_char(d as int)],
{
    proof {
        reveal_strlit("0");
        reveal_strlit("1");
        reveal_strlit("2");
        reveal_strlit("3");
        reveal_strlit("4");
        reveal_strlit("5");
        reveal_strlit("6");
        reveal_strlit("7");
        reveal_strlit("8");
        reveal_strlit("9");
    }
    let text = if d == 0 {
        "0"
    } else if d == 1 {
        "1"
    } else if d == 2 {
        "2"
    } else if d == 3 {
        "3"
    } else if d == 4 {
        "4"
    } else if d == 5 {
        "5"
    } else if d == 6 {
        "6"
    } else if d == 7 {
        "7"
    } else if d == 8 {
        "8"
    } else {
        "9"
    };
    assert(text@ =~= seq![digit_char(d as int)]);
    text
}

/// Appends the decimal digits of `n` to `out`.
fn append_digits(out: &mut String, n: u64)
    ensures
        final(out)@ == old(out)@ + digits(n as nat),
    decreases n,
{
    if n >= 10 {
        append_digits(out, n / 10);
    }
    out.append(digit_str(n % 10));
    assert(out@ =~= old(out)@ + digits(n as nat));
}

/// Appends the decimal notation of `v` to `out`.
fn append_decimal(out: &mut String, v: i64)
    requires
        v > i64::MIN,
    ensures
        final(out)@ == old(out)@ + decimal(v as int),
{
    if v < 0 {
        proof {
            reveal_strlit("-");
        }
        out.append("-");
        append_digits(out, (-v) as u64);
        assert(out@ =~= old(out)@ + decimal(v as int));
    } else {
        append_digits(out, v as u64);
    }
}

/// Appends a coordinate as `(x, y)` to `out`.
fn append_pair(out: &mut String, position: (usize, usize))
    ensures
        final(out)@ == old(out)@ + pair_text(position.0 as int, position.1 as int),
{
    proof {
        reveal_strlit("(");
        reveal_strlit(", ");
        reveal_strlit(")");
    }
    out.append("(");
    append_digits(out, position.0 as u64);
    out.append(", ");
    append_digits(out, position.1 as u64);
    out.append(")");
    assert(out@ =~= old(out)@ + pair_text(position.0 as int, position.1 as int));
}

impl GridEquationView {
    /// The placed equation as text: the coordinates of its first and last
    /// cell, each in a further pair of brackets, and its symbols separated
    /// by spaces, as in `((0, 0)) - ((4, 0)): 3 + 4 = 7`.
    pub open spec fn text(self) -> Seq<char> {
        seq!['('] + pair_text(self.start_pos.0 as int, self.start_pos.1 as int) + seq![
            ')',
            ' ',
            '-',
            ' ',
            '(',
        ] + pair_text(self.end_pos().0, self.end_pos().1) + seq![')', ':', ' '] + spaced(
            self.eq.symbols(),
        )
    }
}

/// The texts of `symbols`, separated by single spaces.
pub fn join_symbols(symbols: &Vec<Symbol>) -> (text: String)
    ensures
        text@ == spaced(symbols@),
{
    let mut text = String::new();
    let mut i: usize = 0;
    while i < symbols.len()
        invariant
            i <= symbols@.len(),
            text@ == spaced(symbols@.take(i as int)),
        decreases symbols@.len() - i,
    {
        let piece = symbols[i].to_string();
        proof {
            reveal_strlit(" ");
            let shorter = symbols@.take(i as int);
            let longer = symbols@.take(i + 1);
            assert(longer.drop_last() =~= shorter);
            assert(longer.last() == symbols@[i as int]);
        }
        if i > 0 {
            text.append(" ");
        }
        text.append(piece.as_str());
        assert(text@ =~= spaced(symbols@.take(i + 1)));
        i += 1;
    }
    assert(symbols@.take(i as int) =~= symbols@);
    text
}

impl GridEquation {
    /// The placed equation as text, as in `((0, 0)) - ((4, 0)): 3 + 4 = 7`.
    pub fn to_string(&self) -> (text: String)
        requires
            self@.span_fits(),
        ensures
            text@ == self@.text(),
    {
        proof {
            reveal_strlit("(");
            reveal_strlit(") - (");
            reveal_strlit("): ");
        }
        let symbols = self.symbols();
        let joined = join_symbols(&symbols);
        let mut text = String::new();
        text.append("(");
        append_pair(&mut text, self.start_pos);
        text.append(") - (");
        append_pair(&mut text, self.end_pos());
        text.append("): ");
        text.append(joined.as_str());
        assert(text@ =~= self@.text());
        text
    }
}

} // verus!
